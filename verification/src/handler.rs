//! Reactions to guild events: emoji pings on messages and the welcome
//! message for new members.
use vstd::prelude::*;
use vstd::utf8::*;
use crate::config::{AppConfig, EmojiPingConfig, NewMemberWelcome};
use crate::text::{decimal_chars, decimal_string, lemma_encode_utf8_concat};

verus! {

broadcast use {vstd::utf8::group_utf8_lib, vstd::string::group_string_axioms};

/// A mention of user `user_id`: `<@id>`.
pub open spec fn mention_spec(user_id: u64) -> Seq<char> {
    "<@"@ + decimal_chars(user_id as nat) + ">"@
}

/// The mention of user `user_id`.
pub fn user_mention(user_id: u64) -> (s: String)
    ensures
        s@ == mention_spec(user_id),
{
    let mut s = "<@".to_owned();
    let id = decimal_string(user_id);
    s.append(id.as_str());
    s.append(">");
    s
}

/// True when one of the emojis of `ep` is exactly `content`.
pub open spec fn pings_on(ep: EmojiPingConfig, content: Seq<char>) -> bool {
    exists|j: int| 0 <= j < ep.emojis.len() && #[trigger] ep.emojis@[j]@ == content
}

pub open spec fn pings_on_pred(content: Seq<char>) -> spec_fn(EmojiPingConfig) -> bool {
    |ep: EmojiPingConfig| pings_on(ep, content)
}

/// The users to ping for a message `content`: for each emoji-ping entry, in
/// the configured order, its user when the message is one of its emojis.
pub open spec fn emoji_ping_targets_spec(pings: Option<Seq<EmojiPingConfig>>, content: Seq<char>) -> Seq<u64> {
    match pings {
        None => Seq::empty(),
        Some(p) => p.filter(pings_on_pred(content)).map_values(|ep: EmojiPingConfig| ep.user_id),
    }
}

/// Whether `ep` has `content` among its emojis.
fn has_emoji(ep: &EmojiPingConfig, content: &String) -> (r: bool)
    ensures
        r == pings_on(*ep, content@),
{
    let mut j: usize = 0;
    while j < ep.emojis.len()
        invariant
            j <= ep.emojis.len(),
            forall|k: int| 0 <= k < j ==> #[trigger] ep.emojis@[k]@ != content@,
        decreases ep.emojis.len() - j,
    {
        if ep.emojis[j] == *content {
            assert(ep.emojis@[j as int]@ == content@);
            return true;
        }
        j = j + 1;
    }
    false
}

/// The users to ping because the message `content` consists of one of
/// their emojis.
pub fn emoji_ping_targets(config: &AppConfig, content: &String) -> (r: Vec<u64>)
    ensures
        r@ == emoji_ping_targets_spec(
            match config.emoji_pings {
                Some(p) => Some(p@),
                None => None,
            },
            content@,
        ),
{
    match &config.emoji_pings {
        None => Vec::new(),
        Some(pings) => {
            let ghost pred = pings_on_pred(content@);
            let ghost f = |ep: EmojiPingConfig| ep.user_id;
            let mut out: Vec<u64> = Vec::new();
            let mut i: usize = 0;
            while i < pings.len()
                invariant
                    i <= pings.len(),
                    pred == pings_on_pred(content@),
                    f == (|ep: EmojiPingConfig| ep.user_id),
                    out@ == pings@.take(i as int).filter(pred).map_values(f),
                decreases pings.len() - i,
            {
                let ghost before = pings@.take(i as int).filter(pred);
                assert(pings@.take(i as int + 1).drop_last() =~= pings@.take(i as int));
                assert(pings@.take(i as int + 1).last() == pings@[i as int]);
                proof {
                    reveal_with_fuel(Seq::<_>::filter, 1);
                }
                if has_emoji(&pings[i], content) {
                    out.push(pings[i].user_id);
                    assert(before.push(pings@[i as int]).map_values(f) =~= before.map_values(f).push(
                        pings@[i as int].user_id,
                    ));
                }
                i = i + 1;
            }
            assert(pings@.take(pings.len() as int) =~= pings@);
            out
        },
    }
}

/// The users pinged for a message are exactly the users of the entries
/// that have an emoji equal to the whole message (not merely a prefix of
/// it): each pinged id belongs to such an entry, and the user of each such
/// entry is pinged. Without emoji pings nobody is pinged.
pub proof fn lemma_pinged_users(pings: Seq<EmojiPingConfig>, content: Seq<char>)
    ensures
        emoji_ping_targets_spec(None, content).len() == 0,
        forall|uid: u64|
            #[trigger] emoji_ping_targets_spec(Some(pings), content).contains(uid) ==> exists|i: int, j: int|
                #![trigger pings[i].emojis@[j]]
                0 <= i < pings.len() && 0 <= j < pings[i].emojis.len() && pings[i].user_id == uid
                    && pings[i].emojis@[j]@ == content,
        forall|i: int, j: int|
            0 <= i < pings.len() && 0 <= j < pings[i].emojis.len() && #[trigger] pings[i].emojis@[j]@
                == content ==> emoji_ping_targets_spec(Some(pings), content).contains(pings[i].user_id),
{
    broadcast use vstd::seq_lib::group_filter_ensures;

    let pred = pings_on_pred(content);
    let f = pings.filter(pred);
    let r = emoji_ping_targets_spec(Some(pings), content);
    crate::lurker_purge::lemma_filtered_from(pings, pred);
    assert(r == f.map_values(|ep: EmojiPingConfig| ep.user_id));
    assert forall|uid: u64| #[trigger] r.contains(uid) implies exists|i: int, j: int|
        #![trigger pings[i].emojis@[j]]
        0 <= i < pings.len() && 0 <= j < pings[i].emojis.len() && pings[i].user_id == uid
            && pings[i].emojis@[j]@ == content by {
        let k = choose|k: int| 0 <= k < r.len() && r[k] == uid;
        assert(r[k] == f[k].user_id);
        assert(pred(f[k]));
        assert(pings.contains(f[k]));
        let i = choose|i: int| 0 <= i < pings.len() && pings[i] == f[k];
        let j = choose|j: int| 0 <= j < f[k].emojis.len() && #[trigger] f[k].emojis@[j]@ == content;
        assert(pings[i].emojis@[j]@ == content);
        assert(pings[i].user_id == r[k]);
    }
    assert forall|i: int, j: int|
        0 <= i < pings.len() && 0 <= j < pings[i].emojis.len() && #[trigger] pings[i].emojis@[j]@
            == content implies r.contains(pings[i].user_id) by {
        assert(pred(pings[i]));
        assert(f.contains(pings[i]));
        let k = choose|k: int| 0 <= k < f.len() && f[k] == pings[i];
        assert(r[k] == pings[i].user_id);
    }
}

/// The welcome text for a new member: the configured message with the
/// mention of the member inserted at byte `i` when an insertion point is
/// configured, the message itself otherwise.
pub open spec fn welcome_message_spec(message: Seq<char>, ping_insert_idx: Option<usize>, user_id: u64) -> Seq<char> {
    match ping_insert_idx {
        None => message,
        Some(i) => {
            let b = encode_utf8(message);
            decode_utf8(b.subrange(0, i as int)) + mention_spec(user_id) + decode_utf8(
                b.subrange(i as int, b.len() as int),
            )
        },
    }
}

/// The insertion point, if any, falls on a character boundary of the
/// message (`String::insert_str` panics otherwise).
pub open spec fn welcome_insert_ok(welcome: NewMemberWelcome) -> bool {
    welcome.ping_insert_idx matches Some(i) ==> is_char_boundary(encode_utf8(welcome.message@), i as int)
}

/// The welcome text for new member `user_id`.
pub fn welcome_message(welcome: &NewMemberWelcome, user_id: u64) -> (s: String)
    requires
        welcome_insert_ok(*welcome),
    ensures
        s@ == welcome_message_spec(welcome.message@, welcome.ping_insert_idx, user_id),
{
    let user_ping = user_mention(user_id);
    match welcome.ping_insert_idx {
        None => welcome.message.clone(),
        Some(i) => {
            let (head, tail) = welcome.message.as_str().split_at(i);
            let mut m = head.to_owned();
            m.append(user_ping.as_str());
            m.append(tail);
            assert(head@ == decode_utf8(encode_utf8(head@)));
            assert(tail@ == decode_utf8(encode_utf8(tail@)));
            m
        },
    }
}

/// The welcome text holds the configured message's bytes with the
/// mention's bytes inserted at the configured byte position, as
/// `String::insert_str` does.
pub proof fn lemma_welcome_inserts_mention(message: Seq<char>, i: usize, user_id: u64)
    requires
        is_char_boundary(encode_utf8(message), i as int),
    ensures
        encode_utf8(welcome_message_spec(message, Some(i), user_id)) == encode_utf8(message).subrange(
            0,
            i as int,
        ) + encode_utf8(mention_spec(user_id)) + encode_utf8(message).subrange(
            i as int,
            encode_utf8(message).len() as int,
        ),
{
    let b = encode_utf8(message);
    let head = decode_utf8(b.subrange(0, i as int));
    let tail = decode_utf8(b.subrange(i as int, b.len() as int));
    assert(valid_utf8(b));
    valid_utf8_split(b, i as int);
    decode_utf8_encode_utf8(b.subrange(0, i as int));
    decode_utf8_encode_utf8(b.subrange(i as int, b.len() as int));
    lemma_encode_utf8_concat(head, mention_spec(user_id));
    lemma_encode_utf8_concat(head + mention_spec(user_id), tail);
}

} // verus!
