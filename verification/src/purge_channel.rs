//! The `purge_channel_messages` command: deletes every message of a channel
//! once the command is repeated with `--confirm=<channel_id>`.
use vstd::prelude::*;
use vstd::utf8::*;
use crate::args::{arg_string_slices, arg_string_spec, arg_string_slices_ok, get_arg_string};
use crate::color::{RED, LUMINOUS_VIVID_PINK};
use crate::embed::{Embed, EmbedView};
use crate::text::{
    chars_of, decimal_chars, is_whitespace_spec, lemma_decimal_chars_digits, lemma_parse_decimal,
    lemma_ws_tokens_join, lemma_ws_tokens_single, parse_u64_range, parse_u64_spec,
    range_starts_with, span_pieces, starts_with, whitespace_spans, ws_tokens, IntParseError,
};

verus! {

broadcast use {vstd::utf8::group_utf8_lib, vstd::string::group_string_axioms};

/// The options read so far (`--confirm=` id, `--after=` id) updated by one
/// more whitespace-separated token; a token that starts with one of the two
/// option names must carry a number after it.
pub open spec fn apply_purge_token(
    state: (Option<u64>, Option<u64>),
    t: Seq<char>,
) -> Result<(Option<u64>, Option<u64>), IntParseError> {
    if starts_with(t, "--confirm="@) {
        match parse_u64_spec(t.skip(10)) {
            Ok(v) => Ok((Some(v), state.1)),
            Err(e) => Err(e),
        }
    } else if starts_with(t, "--after="@) {
        match parse_u64_spec(t.skip(8)) {
            Ok(v) => Ok((state.0, Some(v))),
            Err(e) => Err(e),
        }
    } else {
        Ok(state)
    }
}

/// The options given by the tokens, read from first to last: the last
/// occurrence of an option wins, and the first malformed number is the
/// error.
pub open spec fn purge_options(tokens: Seq<Seq<char>>) -> Result<
    (Option<u64>, Option<u64>),
    IntParseError,
>
    decreases tokens.len(),
{
    if tokens.len() == 0 {
        Ok((None, None))
    } else {
        match purge_options(tokens.drop_last()) {
            Err(e) => Err(e),
            Ok(st) => apply_purge_token(st, tokens.last()),
        }
    }
}

/// What the command reads from its argument string: the confirmation id
/// and the optional `--after` message id, or `None` without confirmation.
pub open spec fn purge_args_from(a: Seq<char>) -> Result<Option<(u64, Option<u64>)>, IntParseError> {
    match purge_options(ws_tokens(a)) {
        Err(e) => Err(e),
        Ok((Some(c), after)) => Ok(Some((c, after))),
        Ok((None, _)) => Ok(None),
    }
}

/// What the command reads from a whole command message.
pub open spec fn purge_args_spec(content: Seq<char>) -> Result<Option<(u64, Option<u64>)>, IntParseError> {
    match arg_string_spec(content, "purge_channel_messages"@) {
        None => Ok(None),
        Some(a) => purge_args_from(a),
    }
}

/// Once the options fail on some prefix of the tokens, they fail on all
/// the tokens with the same error.
proof fn lemma_purge_err_sticks(tokens: Seq<Seq<char>>, j: int)
    requires
        0 <= j <= tokens.len(),
        purge_options(tokens.take(j)) is Err,
    ensures
        purge_options(tokens) == purge_options(tokens.take(j)),
    decreases tokens.len() - j,
{
    if j == tokens.len() {
        assert(tokens.take(j) =~= tokens);
    } else {
        assert(tokens.take(j + 1).drop_last() =~= tokens.take(j));
        lemma_purge_err_sticks(tokens, j + 1);
    }
}

/// The error of the number that a token carries: a token that starts with
/// `--confirm=` or `--after=` carries the text after that prefix, which
/// must read as a `u64`; any other token carries no number.
spec fn option_number_error(t: Seq<char>) -> Option<IntParseError> {
    let number = if starts_with(t, "--confirm="@) {
        Some(t.skip(10))
    } else if starts_with(t, "--after="@) {
        Some(t.skip(8))
    } else {
        None
    };
    match number {
        Some(n) => match parse_u64_spec(n) {
            Ok(_) => None,
            Err(e) => Some(e),
        },
        None => None,
    }
}

/// The options are read without error exactly when the number of every
/// option token reads as a `u64`.
proof fn lemma_purge_options_ok(tokens: Seq<Seq<char>>)
    ensures
        purge_options(tokens) is Ok <==> forall|q: int|
            0 <= q < tokens.len() ==> option_number_error(#[trigger] tokens[q]) is None,
    decreases tokens.len(),
{
    if tokens.len() > 0 {
        let d = tokens.drop_last();
        lemma_purge_options_ok(d);
        assert forall|q: int| 0 <= q < d.len() implies #[trigger] d[q] == tokens[q] by {}
        if purge_options(tokens) is Ok {
            assert forall|q: int| 0 <= q < tokens.len() implies option_number_error(
                #[trigger] tokens[q],
            ) is None by {
                if q < d.len() {
                    assert(d[q] == tokens[q]);
                }
            }
        }
        if forall|q: int| 0 <= q < tokens.len() ==> option_number_error(#[trigger] tokens[q]) is None {
            assert(option_number_error(tokens[tokens.len() - 1]) is None);
            assert forall|q: int| 0 <= q < d.len() implies option_number_error(#[trigger] d[q]) is None by {
                assert(d[q] == tokens[q]);
            }
        }
    }
}

/// The first option token whose number does not read as a `u64` stops the
/// reading: its parse error is the result.
proof fn lemma_purge_options_first_error(tokens: Seq<Seq<char>>, k: int, e: IntParseError)
    requires
        0 <= k < tokens.len(),
        option_number_error(tokens[k]) == Some(e),
        forall|q: int| 0 <= q < k ==> option_number_error(#[trigger] tokens[q]) is None,
    ensures
        purge_options(tokens) == Err::<(Option<u64>, Option<u64>), IntParseError>(e),
    decreases tokens.len(),
{
    let d = tokens.drop_last();
    if k == tokens.len() - 1 {
        lemma_purge_options_ok(d);
        assert forall|q: int| 0 <= q < d.len() implies option_number_error(#[trigger] d[q]) is None by {
            assert(d[q] == tokens[q]);
        }
    } else {
        assert(d[k] == tokens[k]);
        assert forall|q: int| 0 <= q < k implies option_number_error(#[trigger] d[q]) is None by {
            assert(d[q] == tokens[q]);
        }
        lemma_purge_options_first_error(d, k, e);
    }
}

/// No token starts with both `--confirm=` and `--after=`.
proof fn lemma_option_prefixes_differ(t: Seq<char>)
    ensures
        !(starts_with(t, "--confirm="@) && starts_with(t, "--after="@)),
{
    reveal_strlit("--confirm=");
    reveal_strlit("--after=");
    if starts_with(t, "--confirm="@) && starts_with(t, "--after="@) {
        assert(t.subrange(0, 10)[2] == 'c');
        assert(t.subrange(0, 8)[2] == 'a');
        assert(t[2] == 'c');
    }
}

/// The options of an argument string are read, with no error, exactly when
/// the number after every `--confirm=` and every `--after=` token reads as
/// a `u64`; and when the number of some such token does not read while
/// those of the tokens before it do, the result is that parse error: the
/// command stops, nothing is confirmed and no option is dropped.
pub proof fn lemma_bad_option_number_stops(a: Seq<char>, k: int, e: IntParseError)
    ensures
        purge_args_from(a) is Ok <==> forall|q: int|
            #![trigger ws_tokens(a)[q]]
            0 <= q < ws_tokens(a).len() ==> (starts_with(ws_tokens(a)[q], "--confirm="@) ==> parse_u64_spec(
                ws_tokens(a)[q].skip(10),
            ) is Ok) && (starts_with(ws_tokens(a)[q], "--after="@) ==> parse_u64_spec(
                ws_tokens(a)[q].skip(8),
            ) is Ok),
        0 <= k < ws_tokens(a).len() && ((starts_with(ws_tokens(a)[k], "--confirm="@) && parse_u64_spec(
            ws_tokens(a)[k].skip(10),
        ) == Err::<u64, IntParseError>(e)) || (starts_with(ws_tokens(a)[k], "--after="@) && parse_u64_spec(
            ws_tokens(a)[k].skip(8),
        ) == Err::<u64, IntParseError>(e))) && (forall|q: int|
            #![trigger ws_tokens(a)[q]]
            0 <= q < k ==> (starts_with(ws_tokens(a)[q], "--confirm="@) ==> parse_u64_spec(
                ws_tokens(a)[q].skip(10),
            ) is Ok) && (starts_with(ws_tokens(a)[q], "--after="@) ==> parse_u64_spec(
                ws_tokens(a)[q].skip(8),
            ) is Ok)) ==> purge_args_from(a) == Err::<Option<(u64, Option<u64>)>, IntParseError>(e),
{
    let tokens = ws_tokens(a);
    lemma_purge_options_ok(tokens);
    assert forall|q: int| 0 <= q < tokens.len() implies (option_number_error(#[trigger] tokens[q]) is None
        <==> (starts_with(tokens[q], "--confirm="@) ==> parse_u64_spec(tokens[q].skip(10)) is Ok) && (
    starts_with(tokens[q], "--after="@) ==> parse_u64_spec(tokens[q].skip(8)) is Ok)) by {
        lemma_option_prefixes_differ(tokens[q]);
    }
    if 0 <= k < tokens.len() && ((starts_with(tokens[k], "--confirm="@) && parse_u64_spec(tokens[k].skip(10))
        == Err::<u64, IntParseError>(e)) || (starts_with(tokens[k], "--after="@) && parse_u64_spec(
        tokens[k].skip(8),
    ) == Err::<u64, IntParseError>(e))) && (forall|q: int|
        #![trigger tokens[q]]
        0 <= q < k ==> (starts_with(tokens[q], "--confirm="@) ==> parse_u64_spec(tokens[q].skip(10)) is Ok) && (
        starts_with(tokens[q], "--after="@) ==> parse_u64_spec(tokens[q].skip(8)) is Ok)) {
        lemma_option_prefixes_differ(tokens[k]);
        assert(option_number_error(tokens[k]) == Some(e));
        assert forall|q: int| 0 <= q < k implies option_number_error(#[trigger] tokens[q]) is None by {
            lemma_option_prefixes_differ(tokens[q]);
        }
        lemma_purge_options_first_error(tokens, k, e);
    }
}

/// Reads the options of an argument string.
pub fn parse_purge_arg_string(a: &str) -> (r: Result<Option<(u64, Option<u64>)>, IntParseError>)
    ensures
        r == purge_args_from(a@),
{
    proof {
        reveal_strlit("--confirm=");
        reveal_strlit("--after=");
    }
    let v = chars_of(a);
    let spans = whitespace_spans(&v);
    let ghost tokens = span_pieces(v@, spans@);
    let mut confirmation: Option<u64> = None;
    let mut after: Option<u64> = None;
    let mut k: usize = 0;
    assert(tokens.take(0) =~= Seq::<Seq<char>>::empty());
    while k < spans.len()
        invariant
            v@ == a@,
            tokens == span_pieces(v@, spans@),
            tokens == ws_tokens(v@),
            forall|q: int| 0 <= q < spans.len() ==> #[trigger] spans[q].0 < spans[q].1 <= v.len(),
            k <= spans.len(),
            purge_options(tokens.take(k as int)) == Ok::<(Option<u64>, Option<u64>), IntParseError>(
                (confirmation, after),
            ),
        decreases spans.len() - k,
    {
        proof {
            reveal_strlit("--confirm=");
            reveal_strlit("--after=");
        }
        let (s, e) = spans[k];
        let ghost t = v@.subrange(s as int, e as int);
        assert(tokens[k as int] == t);
        assert(tokens.take(k as int + 1).drop_last() =~= tokens.take(k as int));
        assert(tokens.take(k as int + 1).last() == t);
        if range_starts_with(&v, s, e, "--confirm=") {
            assert(t.skip(10) =~= v@.subrange(s + 10, e as int));
            match parse_u64_range(&v, s + 10, e) {
                Ok(x) => {
                    confirmation = Some(x);
                },
                Err(err) => {
                    proof {
                        lemma_purge_err_sticks(tokens, k as int + 1);
                    }
                    return Err(err);
                },
            }
        } else if range_starts_with(&v, s, e, "--after=") {
            assert(t.skip(8) =~= v@.subrange(s + 8, e as int));
            match parse_u64_range(&v, s + 8, e) {
                Ok(x) => {
                    after = Some(x);
                },
                Err(err) => {
                    proof {
                        lemma_purge_err_sticks(tokens, k as int + 1);
                    }
                    return Err(err);
                },
            }
        }
        k = k + 1;
    }
    assert(tokens.take(k as int) =~= tokens);
    match confirmation {
        Some(c) => Ok(Some((c, after))),
        None => Ok(None),
    }
}

/// The command message is one that the command handles without a panic.
pub open spec fn purge_args_defined(content: Seq<char>) -> bool {
    arg_string_slices(encode_utf8(content), encode_utf8("purge_channel_messages"@).len() as int)
}

/// Reads the options of a whole command message.
pub fn parse_purge_args(content: &str) -> (r: Result<Option<(u64, Option<u64>)>, IntParseError>)
    requires
        purge_args_defined(content@),
    ensures
        r == purge_args_spec(content@),
{
    proof {
        reveal_strlit("purge_channel_messages");
        assert(is_ascii_chars("purge_channel_messages"@));
    }
    match get_arg_string(content, "purge_channel_messages") {
        None => Ok(None),
        Some(a) => parse_purge_arg_string(a.as_str()),
    }
}

/// Reads the options of a whole command message; `None` for a message on
/// which the command panics (its byte slicing leaves a character boundary).
pub fn parse_purge_args_checked(content: &str) -> (r: Option<
    Result<Option<(u64, Option<u64>)>, IntParseError>,
>)
    ensures
        r is None <==> !purge_args_defined(content@),
        r matches Some(x) ==> x == purge_args_spec(content@),
{
    proof {
        reveal_strlit("purge_channel_messages");
        assert(is_ascii_chars("purge_channel_messages"@));
    }
    if arg_string_slices_ok(content, "purge_channel_messages") {
        Some(parse_purge_args(content))
    } else {
        None
    }
}

/// The text that asks for confirmation before a channel is purged.
pub open spec fn purge_confirmation_text() -> Seq<char> {
    "This will delete **ALL** messages in this channel, since the beginning of time. Are you **ABSOLUTELY SURE** that this is what you want to do? To confirm, use the command again with the following option: `--confirm=<channel_id>`"@
}

/// The text shown when the confirmation id is not the channel's.
pub open spec fn purge_mismatch_text() -> Seq<char> {
    "The confirmation id does not match this channel id!"@
}

/// What the command does in a channel.
pub enum PurgeAction {
    /// Post this embed and stop.
    Notify(Embed),
    /// Delete every message of the channel (after the given message id,
    /// when one is given), batch by batch, until none is left.
    DeleteAll(Option<u64>),
}

/// What the command does in channel `channel_id` with the options it read.
pub open spec fn purge_action_spec(
    args: Option<(u64, Option<u64>)>,
    channel_id: u64,
) -> Result<Option<u64>, EmbedView> {
    match args {
        None => Err(
            EmbedView {
                channel_id,
                title: None,
                description: Some(purge_confirmation_text()),
                content: None,
                color: LUMINOUS_VIVID_PINK,
            },
        ),
        Some((confirmation_id, after)) => if confirmation_id == channel_id {
            Ok(after)
        } else {
            Err(
                EmbedView {
                    channel_id,
                    title: None,
                    description: Some(purge_mismatch_text()),
                    content: None,
                    color: RED,
                },
            )
        },
    }
}

/// Decides what the command does: without confirmation it asks for one;
/// with a confirmation id that is not the channel's it refuses; otherwise
/// it purges.
pub fn purge_action(args: Option<(u64, Option<u64>)>, channel_id: u64) -> (r: PurgeAction)
    ensures
        match r {
            PurgeAction::Notify(e) => purge_action_spec(args, channel_id) == Err::<Option<u64>, EmbedView>(e@),
            PurgeAction::DeleteAll(after) => purge_action_spec(args, channel_id) == Ok::<Option<u64>, EmbedView>(after),
        },
{
    match args {
        None => PurgeAction::Notify(
            Embed::new(channel_id).descr(
                "This will delete **ALL** messages in this channel, since the beginning of time. Are you **ABSOLUTELY SURE** that this is what you want to do? To confirm, use the command again with the following option: `--confirm=<channel_id>`",
            ).color(LUMINOUS_VIVID_PINK),
        ),
        Some((confirmation_id, after)) => {
            if confirmation_id == channel_id {
                PurgeAction::DeleteAll(after)
            } else {
                PurgeAction::Notify(
                    Embed::new(channel_id).descr(
                        "The confirmation id does not match this channel id!",
                    ).color(RED),
                )
            }
        },
    }
}

/// An option token `<name><decimal number>` holds no white space.
proof fn lemma_option_token(name: Seq<char>, n: u64)
    requires
        name.len() > 0,
        forall|i: int| 0 <= i < name.len() ==> !is_whitespace_spec(#[trigger] name[i]),
    ensures
        ws_tokens(name + decimal_chars(n as nat)) == seq![name + decimal_chars(n as nat)],
        (name + decimal_chars(n as nat)).skip(name.len() as int) == decimal_chars(n as nat),
        (name + decimal_chars(n as nat)).subrange(0, name.len() as int) == name,
{
    let d = decimal_chars(n as nat);
    let t = name + d;
    lemma_decimal_chars_digits(n as nat);
    assert forall|i: int| 0 <= i < t.len() implies !is_whitespace_spec(#[trigger] t[i]) by {
        if i >= name.len() {
            assert(t[i] == d[i - name.len()]);
        } else {
            assert(t[i] == name[i]);
        }
    }
    lemma_ws_tokens_single(t);
    assert(t.skip(name.len() as int) =~= d);
    assert(t.subrange(0, name.len() as int) =~= name);
}

/// `--confirm=<id>` is read back as confirmation `id` with no `--after`;
/// `--confirm=<id> --after=<m>` as confirmation `id` after message `m`.
pub proof fn lemma_purge_args_read_back(id: u64, after: u64)
    ensures
        purge_args_from("--confirm="@ + decimal_chars(id as nat)) == Ok::<
            Option<(u64, Option<u64>)>,
            IntParseError,
        >(Some((id, None))),
        purge_args_from(
            "--confirm="@ + decimal_chars(id as nat) + seq![' '] + "--after="@ + decimal_chars(
                after as nat,
            ),
        ) == Ok::<Option<(u64, Option<u64>)>, IntParseError>(Some((id, Some(after)))),
{
    reveal_strlit("--confirm=");
    reveal_strlit("--after=");
    let c = "--confirm="@;
    let a = "--after="@;
    assert(c =~= seq!['-', '-', 'c', 'o', 'n', 'f', 'i', 'r', 'm', '=']);
    assert(a =~= seq!['-', '-', 'a', 'f', 't', 'e', 'r', '=']);
    let t1 = c + decimal_chars(id as nat);
    let t2 = a + decimal_chars(after as nat);
    lemma_option_token(c, id);
    lemma_option_token(a, after);
    lemma_parse_decimal(id);
    lemma_parse_decimal(after);
    assert(seq![t1].drop_last() =~= Seq::<Seq<char>>::empty());
    assert(purge_options(Seq::<Seq<char>>::empty()) == Ok::<(Option<u64>, Option<u64>), IntParseError>(
        (None, None),
    ));
    assert(seq![t1].last() == t1);
    assert(purge_options(seq![t1]) == apply_purge_token((None, None), t1));
    lemma_ws_tokens_join(t1, t2);
    assert(seq![t1] + seq![t2] =~= seq![t1, t2]);
    assert(seq![t1, t2].drop_last() =~= seq![t1]);
    assert(t2[2] == 'a');
    assert(t2.len() < 10 || t2.subrange(0, 10)[2] == 'a');
    assert(!starts_with(t2, c));
    assert(t1 + seq![' '] + t2 =~= c + decimal_chars(id as nat) + seq![' '] + a + decimal_chars(
        after as nat,
    ));
}

/// The most messages that one request fetches while a channel is purged.
pub const PURGE_BATCH_LIMIT: u64 = 100;

/// What the purge does after fetching a batch of messages.
#[derive(Debug, Clone, Copy, PartialEq, Eq, Structural)]
pub enum PurgeStep {
    /// The batch is empty: the channel is purged.
    Done,
    /// Delete the batch's messages and fetch the next batch.
    DeleteBatch,
}

/// The purge goes on while a fetched batch holds a message.
pub fn purge_step(batch_len: usize) -> (s: PurgeStep)
    ensures
        s == (if batch_len < 1 {
            PurgeStep::Done
        } else {
            PurgeStep::DeleteBatch
        }),
{
    if batch_len < 1 {
        PurgeStep::Done
    } else {
        PurgeStep::DeleteBatch
    }
}

} // verus!
