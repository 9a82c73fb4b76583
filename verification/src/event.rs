//! The `event` command: `$event [role] <reaction_emoji> <message>` announces an
//! event to a role and asks members to react with a custom emoji.
use vstd::prelude::*;
use vstd::utf8::*;
use crate::args::{arg_string_slices, arg_string_spec, arg_string_slices_ok, get_arg_string};
use crate::text::{
    after_first, before_first, begins_with_two, decimal_chars, has_char, lemma_boundary_at_concat,
    lemma_decimal_chars_digits, lemma_encode_utf8_concat, lemma_first_index_none,
    lemma_parse_decimal, lemma_split_at_joint, parse_u64, parse_u64_spec, split_once_char,
    starts_with_two, IntParseError,
};

verus! {

broadcast use {vstd::utf8::group_utf8_lib, vstd::string::group_string_axioms};

/// The usage line that the command shows when its arguments are wrong.
pub open spec fn event_usage() -> Seq<char> {
    "Usage: `event [role] <reaction_emoji> <message>`"@
}

/// A role mention such as `<@&123>`: a token that begins with `<@`.
pub open spec fn is_role_mention(t: Seq<char>) -> bool {
    starts_with_two(t, '<', '@')
}

/// The role, the emoji token and what follows the emoji token in an
/// argument string split at spaces. The first token is the role when it is
/// a mention (otherwise the role is `@everyone` and the first token is the
/// emoji); when the emoji token so far is empty the next token is taken.
/// None when no token is left for the emoji.
pub open spec fn event_tokens(a: Seq<char>) -> Option<(Seq<char>, Seq<char>, Option<Seq<char>>)> {
    let t1 = before_first(a, ' ');
    let r1 = after_first(a, ' ');
    let role = if is_role_mention(t1) { t1 } else { "@everyone"@ };
    let e1 = if is_role_mention(t1) { Seq::<char>::empty() } else { t1 };
    if e1.len() == 0 {
        match r1 {
            None => None,
            Some(r) => Some((role, before_first(r, ' '), after_first(r, ' '))),
        }
    } else {
        Some((role, e1, r1))
    }
}

/// True when the first two bytes of the emoji token can be sliced off: it
/// has at least two bytes and byte 2 starts a character (or ends the token).
pub open spec fn emoji_prefix_slices(e: Seq<char>) -> bool {
    is_char_boundary(encode_utf8(e), 2)
}

/// The argument string is one that the command handles without a panic.
pub open spec fn event_arg_string_slices(a: Seq<char>) -> bool {
    match event_tokens(a) {
        Some((_role, e, _rest)) => emoji_prefix_slices(e),
        None => true,
    }
}

/// What the command makes of its arguments.
pub enum EventArgsSpec {
    /// No argument string: the command does nothing.
    NoArguments,
    /// Wrong arguments: this text is shown.
    Usage(Seq<char>),
    /// Role to notify, reaction emoji, event message.
    Parsed(Seq<char>, Seq<char>, Seq<char>),
}

/// The outcome for an argument string `a`.
pub open spec fn event_args_from(a: Seq<char>) -> EventArgsSpec {
    match event_tokens(a) {
        None => EventArgsSpec::Usage("No reaction_emoji supplied!\n"@ + event_usage()),
        Some((role, e, rest)) => if !starts_with_two(e, '<', ':') {
            EventArgsSpec::Usage(e + " is not a valid reaction_emoji!\n"@ + event_usage())
        } else {
            let m = match rest {
                Some(x) => x,
                None => Seq::<char>::empty(),
            };
            if m.len() == 0 {
                EventArgsSpec::Usage("no message was supplied!\n"@ + event_usage())
            } else {
                EventArgsSpec::Parsed(role, e, m)
            }
        },
    }
}

/// The outcome for a whole command message.
pub open spec fn event_args_spec(content: Seq<char>) -> EventArgsSpec {
    match arg_string_spec(content, "event"@) {
        None => EventArgsSpec::NoArguments,
        Some(a) => event_args_from(a),
    }
}

/// The command message is one that the command handles without a panic.
pub open spec fn event_args_defined(content: Seq<char>) -> bool {
    &&& arg_string_slices(encode_utf8(content), encode_utf8("event"@).len() as int)
    &&& match arg_string_spec(content, "event"@) {
        Some(a) => event_arg_string_slices(a),
        None => true,
    }
}

/// A request to announce an event.
pub struct EventRequest {
    /// The role to notify (a mention, or `@everyone`).
    pub role: String,
    /// The custom emoji to react with, as written in the message.
    pub emoji: String,
    /// The event's message.
    pub message: String,
}

/// What the command makes of its arguments.
pub enum EventArgs {
    /// No argument string: the command does nothing.
    NoArguments,
    /// Wrong arguments: this text is shown to the user.
    Usage(String),
    /// The arguments of an event announcement.
    Parsed(EventRequest),
}

impl View for EventArgs {
    type V = EventArgsSpec;

    open spec fn view(&self) -> EventArgsSpec {
        match self {
            EventArgs::NoArguments => EventArgsSpec::NoArguments,
            EventArgs::Usage(s) => EventArgsSpec::Usage(s@),
            EventArgs::Parsed(r) => EventArgsSpec::Parsed(r.role@, r.emoji@, r.message@),
        }
    }
}

/// The tokens that the command reads from its argument string.
pub struct EventTokens {
    pub role: String,
    pub emoji: String,
    pub rest: Option<String>,
}

/// Picks the role, the emoji token and the rest from an argument string;
/// `None` when no token is left for the emoji.
pub fn select_event_tokens(a: &str) -> (r: Option<EventTokens>)
    ensures
        r is None ==> event_tokens(a@) is None,
        r matches Some(t) ==> event_tokens(a@) == Some(
            (t.role@, t.emoji@, match t.rest {
                Some(x) => Some(x@),
                None => None,
            }),
        ),
{
    let (t1, r1) = split_once_char(a, ' ');
    let role: String;
    let e1: String;
    if begins_with_two(t1.as_str(), '<', '@') {
        role = t1;
        e1 = String::new();
    } else {
        role = "@everyone".to_owned();
        e1 = t1;
    }
    if e1.as_str().is_empty() {
        match r1 {
            None => None,
            Some(r) => {
                let (e2, r2) = split_once_char(r.as_str(), ' ');
                Some(EventTokens { role, emoji: e2, rest: r2 })
            },
        }
    } else {
        Some(EventTokens { role, emoji: e1, rest: r1 })
    }
}

fn concat2(a: &str, b: &str) -> (s: String)
    ensures
        s@ == a@ + b@,
{
    let mut s = a.to_owned();
    s.append(b);
    s
}

fn concat3(a: &str, b: &str, c: &str) -> (s: String)
    ensures
        s@ == a@ + b@ + c@,
{
    let mut s = a.to_owned();
    s.append(b);
    s.append(c);
    s
}

/// The outcome for an argument string.
pub fn parse_event_arg_string(a: &str) -> (r: EventArgs)
    requires
        event_arg_string_slices(a@),
    ensures
        r@ == event_args_from(a@),
{
    let usage = "Usage: `event [role] <reaction_emoji> <message>`";
    match select_event_tokens(a) {
        None => EventArgs::Usage(concat2("No reaction_emoji supplied!\n", usage)),
        Some(t) => {
            if !begins_with_two(t.emoji.as_str(), '<', ':') {
                return EventArgs::Usage(
                    concat3(t.emoji.as_str(), " is not a valid reaction_emoji!\n", usage),
                );
            }
            let message = match t.rest {
                Some(m) => m,
                None => String::new(),
            };
            if message.as_str().is_empty() {
                EventArgs::Usage(concat2("no message was supplied!\n", usage))
            } else {
                EventArgs::Parsed(EventRequest { role: t.role, emoji: t.emoji, message })
            }
        },
    }
}

/// The outcome for a whole command message.
pub fn parse_event_args(content: &str) -> (r: EventArgs)
    requires
        event_args_defined(content@),
    ensures
        r@ == event_args_spec(content@),
{
    proof {
        reveal_strlit("event");
        assert(is_ascii_chars("event"@));
    }
    match get_arg_string(content, "event") {
        None => EventArgs::NoArguments,
        Some(a) => parse_event_arg_string(a.as_str()),
    }
}

/// Whether the command handles `content` without a panic.
pub fn event_args_ok(content: &str) -> (ok: bool)
    ensures
        ok == event_args_defined(content@),
{
    proof {
        reveal_strlit("event");
        assert(is_ascii_chars("event"@));
    }
    if !arg_string_slices_ok(content, "event") {
        return false;
    }
    match get_arg_string(content, "event") {
        None => true,
        Some(a) => match select_event_tokens(a.as_str()) {
            None => true,
            Some(t) => {
                let e = t.emoji.as_str();
                e.is_char_boundary(2)
            },
        },
    }
}

/// The outcome for a whole command message; `None` for a message on which
/// the command panics (its byte slicing leaves a character boundary).
pub fn parse_event_args_checked(content: &str) -> (r: Option<EventArgs>)
    ensures
        r is None <==> !event_args_defined(content@),
        r matches Some(x) ==> x@ == event_args_spec(content@),
{
    if event_args_ok(content) {
        Some(parse_event_args(content))
    } else {
        None
    }
}

/// The text of an event announcement.
pub open spec fn event_description_spec(role: Seq<char>, message: Seq<char>, emoji: Seq<char>) -> Seq<char> {
    role + "\n\n"@ + message + "\n\nReact with "@ + emoji + " if you can make it!"@
}

/// The text of the announcement for `req`.
pub fn event_description(req: &EventRequest) -> (s: String)
    ensures
        s@ == event_description_spec(req.role@, req.message@, req.emoji@),
{
    let mut s = concat3(req.role.as_str(), "\n\n", req.message.as_str());
    s.append("\n\nReact with ");
    s.append(req.emoji.as_str());
    s.append(" if you can make it!");
    s
}

/// Piece `k` of `s.split(c)`, as `s.split(c).nth(k)` gives it.
pub open spec fn split_piece(s: Seq<char>, c: char, k: nat) -> Option<Seq<char>>
    decreases k,
{
    if k == 0 {
        Some(before_first(s, c))
    } else {
        match after_first(s, c) {
            None => None,
            Some(r) => split_piece(r, c, (k - 1) as nat),
        }
    }
}

/// `t` without its last character (`String::pop`); unchanged when empty.
pub open spec fn without_last(t: Seq<char>) -> Seq<char> {
    if t.len() == 0 {
        t
    } else {
        t.drop_last()
    }
}

/// A custom emoji `<:name:id>`.
pub struct CustomEmoji {
    pub id: u64,
    pub name: String,
}

/// The id of a custom emoji written as `<:name:id>`: the third `:`-piece
/// without its last character, read as a decimal number.
pub open spec fn custom_emoji_id_spec(e: Seq<char>) -> Result<u64, IntParseError> {
    parse_u64_spec(without_last(split_piece(e, ':', 2)->0))
}

/// The name of a custom emoji written as `<:name:id>`: the second `:`-piece.
pub open spec fn custom_emoji_name_spec(e: Seq<char>) -> Seq<char> {
    split_piece(e, ':', 1)->0
}

/// Reads the id and the name of a custom emoji written as `<:name:id>`.
pub fn parse_custom_emoji(emoji: &str) -> (r: Result<CustomEmoji, IntParseError>)
    requires
        split_piece(emoji@, ':', 2) is Some,
    ensures
        r matches Err(e) ==> custom_emoji_id_spec(emoji@) == Err::<u64, IntParseError>(e),
        r matches Ok(x) ==> custom_emoji_id_spec(emoji@) == Ok::<u64, IntParseError>(x.id)
            && x.name@ == custom_emoji_name_spec(emoji@),
{
    let (_p0, r0) = split_once_char(emoji, ':');
    let r0 = r0.unwrap();
    let (p1, r1) = split_once_char(r0.as_str(), ':');
    assert(split_piece(emoji@, ':', 1) == split_piece(r0@, ':', 0));
    assert(r1 is Some) by {
        if r1 is None {
            assert(split_piece(r0@, ':', 1) is None);
        }
    }
    let r1 = r1.unwrap();
    let (p2, _r2) = split_once_char(r1.as_str(), ':');
    assert(split_piece(emoji@, ':', 2) == split_piece(r0@, ':', 1));
    assert(split_piece(r0@, ':', 1) == split_piece(r1@, ':', 0));
    let n = p2.as_str().unicode_len();
    let id_text = if n > 0 {
        p2.as_str().substring_char(0, n - 1)
    } else {
        p2.as_str()
    };
    assert(id_text@ =~= without_last(p2@));
    match parse_u64(id_text) {
        Err(e) => Err(e),
        Ok(id) => Ok(CustomEmoji { id, name: p1 }),
    }
}

/// Reads a custom emoji; `None` when it holds fewer than two `:`, where the
/// command panics.
pub fn parse_custom_emoji_checked(emoji: &str) -> (r: Option<Result<CustomEmoji, IntParseError>>)
    ensures
        r is None <==> split_piece(emoji@, ':', 2) is None,
        r matches Some(Err(e)) ==> custom_emoji_id_spec(emoji@) == Err::<u64, IntParseError>(e),
        r matches Some(Ok(x)) ==> custom_emoji_id_spec(emoji@) == Ok::<u64, IntParseError>(x.id)
            && x.name@ == custom_emoji_name_spec(emoji@),
{
    let (_p0, r0) = split_once_char(emoji, ':');
    match r0 {
        None => {
            assert(split_piece(emoji@, ':', 2) is None);
            None
        },
        Some(r0) => {
            let (_p1, r1) = split_once_char(r0.as_str(), ':');
            assert(split_piece(emoji@, ':', 2) == split_piece(r0@, ':', 1));
            match r1 {
                None => {
                    assert(split_piece(r0@, ':', 1) is None);
                    None
                },
                Some(r1) => {
                    assert(split_piece(r0@, ':', 1) == split_piece(r1@, ':', 0));
                    Some(parse_custom_emoji(emoji))
                },
            }
        },
    }
}

/// A custom emoji's first two bytes can be sliced off.
proof fn lemma_emoji_prefix_slices(e: Seq<char>)
    requires
        starts_with_two(e, '<', ':'),
    ensures
        emoji_prefix_slices(e),
{
    broadcast use group_utf8_lib;

    let t = e.take(2);
    assert(t + e.skip(2) =~= e);
    assert(is_ascii_chars(t));
    lemma_boundary_at_concat(t, e.skip(2));
}

/// The arguments `<role> <emoji> <message>` of `$event`, with a first
/// token that begins with `<@` (any mention: of a user `<@id>` or of a role
/// `<@&id>`) and a custom emoji beginning with `<:`, both without spaces,
/// and a non-empty message, are read as that role, emoji and message;
/// `<emoji> <message>` is read as an event for `@everyone`. No slicing
/// falls inside a character.
pub proof fn lemma_event_args_read_back(role: Seq<char>, emoji: Seq<char>, message: Seq<char>)
    requires
        role.len() >= 2,
        role[0] == '<',
        role[1] == '@',
        !has_char(role, ' '),
        emoji.len() >= 2,
        emoji[0] == '<',
        emoji[1] == ':',
        !has_char(emoji, ' '),
        message.len() > 0,
    ensures
        event_arg_string_slices(role + seq![' '] + emoji + seq![' '] + message),
        event_args_from(role + seq![' '] + emoji + seq![' '] + message) == EventArgsSpec::Parsed(
            role,
            emoji,
            message,
        ),
        event_arg_string_slices(emoji + seq![' '] + message),
        event_args_from(emoji + seq![' '] + message) == EventArgsSpec::Parsed(
            "@everyone"@,
            emoji,
            message,
        ),
{
    lemma_emoji_prefix_slices(emoji);
    let rest = emoji + seq![' '] + message;
    lemma_split_at_joint(emoji, ' ', message);
    let a = role + seq![' '] + rest;
    assert(a =~= role + seq![' '] + emoji + seq![' '] + message);
    lemma_split_at_joint(role, ' ', rest);
    assert(!is_role_mention(emoji));
}

/// A custom emoji written `<:name:id>`, with a name that holds no `:`, is
/// read back as that id and that name.
pub proof fn lemma_custom_emoji_read_back(name: Seq<char>, id: u64)
    requires
        !has_char(name, ':'),
    ensures
        split_piece(seq!['<', ':'] + name + seq![':'] + decimal_chars(id as nat) + seq!['>'], ':', 2) is Some,
        custom_emoji_id_spec(seq!['<', ':'] + name + seq![':'] + decimal_chars(id as nat) + seq!['>'])
            == Ok::<u64, IntParseError>(id),
        custom_emoji_name_spec(seq!['<', ':'] + name + seq![':'] + decimal_chars(id as nat) + seq!['>'])
            == name,
{
    let dec = decimal_chars(id as nat);
    let e = seq!['<', ':'] + name + seq![':'] + dec + seq!['>'];
    let r1 = dec + seq!['>'];
    let r0 = name + seq![':'] + r1;
    assert(e =~= seq!['<'] + seq![':'] + r0);
    assert(!has_char(seq!['<'], ':'));
    lemma_split_at_joint(seq!['<'], ':', r0);
    lemma_split_at_joint(name, ':', r1);
    lemma_decimal_chars_digits(id as nat);
    assert forall|j: int| 0 <= j < r1.len() implies r1[j] != ':' by {
        if j < dec.len() {
            assert(r1[j] == dec[j]);
        }
    }
    lemma_first_index_none(r1, ':');
    assert(split_piece(e, ':', 1) == split_piece(r0, ':', 0));
    assert(split_piece(e, ':', 2) == split_piece(r0, ':', 1));
    assert(split_piece(r0, ':', 1) == split_piece(r1, ':', 0));
    assert(without_last(r1) =~= dec);
    lemma_parse_decimal(id);
}

/// Reading the emoji token's first two characters as `<:` is the same as
/// comparing its first two bytes with `<:` (0x3C 0x3A), as the command does.
pub proof fn lemma_emoji_prefix_bytes(e: Seq<char>)
    ensures
        starts_with_two(e, '<', ':') <==> (encode_utf8(e).len() >= 2 && encode_utf8(e)[0] == 0x3Cu8
            && encode_utf8(e)[1] == 0x3Au8),
{
    broadcast use group_utf8_lib;

    let b = encode_utf8(e);
    if starts_with_two(e, '<', ':') {
        let t = e.take(2);
        assert(t + e.skip(2) =~= e);
        assert(is_ascii_chars(t));
        lemma_encode_utf8_concat(t, e.skip(2));
        assert(t[0] == '<' && t[1] == ':');
    }
    if b.len() >= 2 && b[0] == 0x3Cu8 && b[1] == 0x3Au8 {
        assert(decode_utf8(b) == e);
        let b0 = b[0];
        let b1 = b[1];
        assert(leading_bits_width_1(b0) == 0x3Cu32) by (bit_vector)
            requires
                b0 == 0x3Cu8,
        ;
        assert(leading_bits_width_1(b1) == 0x3Au32) by (bit_vector)
            requires
                b1 == 0x3Au8,
        ;
        let rest = pop_first_scalar(b);
        assert(rest[0] == b1);
        assert(e[0] == '<');
        assert(e.drop_first() == decode_utf8(rest));
        assert(e[1] == ':');
    }
}

} // verus!
