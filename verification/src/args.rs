//! The argument string of a command message.
use vstd::prelude::*;
use vstd::utf8::*;
use crate::text::{lemma_encode_utf8_concat, lemma_boundary_at_concat};

verus! {

broadcast use {vstd::utf8::group_utf8_lib, vstd::string::group_string_axioms};

/// Where the arguments of command `cmd` start in the UTF-8 bytes `b` of a
/// message: after `$ <cmd> ` when the message starts with `$ `, otherwise
/// after `$<cmd> ` (0x24 is `$`, 0x20 a space); none when the message is no longer than `$<cmd> `.
/// `cmd_len` is the byte length of the command's name.
pub open spec fn arg_string_start(b: Seq<u8>, cmd_len: int) -> Option<int> {
    let n = cmd_len + 2;
    if b[0] == 0x24u8 && b[1] == 0x20u8 && b.len() > n {
        Some(n + 1)
    } else if b.len() > n {
        Some(n)
    } else {
        None
    }
}

/// True when the byte slicing done while taking the argument string stays on
/// character boundaries (the message is at least two bytes long, byte 2 starts
/// a character, and so does the start of the arguments).
pub open spec fn arg_string_slices(b: Seq<u8>, cmd_len: int) -> bool {
    &&& b.len() >= 2
    &&& is_char_boundary(b, 2)
    &&& match arg_string_start(b, cmd_len) {
        Some(k) => is_char_boundary(b, k),
        None => true,
    }
}

/// The argument string of command `cmd` in the message `content`, as
/// characters.
pub open spec fn arg_string_spec(content: Seq<char>, cmd: Seq<char>) -> Option<Seq<char>> {
    let b = encode_utf8(content);
    match arg_string_start(b, encode_utf8(cmd).len() as int) {
        Some(k) => Some(decode_utf8(b.subrange(k, b.len() as int))),
        None => None,
    }
}

/// Whether [`get_arg_string`] is defined on `content` and `cmd_name`.
pub fn arg_string_slices_ok(content: &str, cmd_name: &str) -> (ok: bool)
    requires
        encode_utf8(cmd_name@).len() + 3 <= usize::MAX,
    ensures
        ok == arg_string_slices(encode_utf8(content@), encode_utf8(cmd_name@).len() as int),
{
    let b = content.as_bytes();
    if b.len() < 2 || !content.is_char_boundary(2) {
        return false;
    }
    let cmd_len = cmd_name.len() + 2;
    if b[0] == 0x24u8 && b[1] == 0x20u8 && content.len() > cmd_len {
        content.is_char_boundary(cmd_len + 1)
    } else if content.len() > cmd_len {
        content.is_char_boundary(cmd_len)
    } else {
        true
    }
}

/// The text after the command's name in a command message: the message
/// without its leading `$ <cmd> ` (when it starts with `$ `) or `$<cmd> `;
/// `None` when nothing follows.
pub fn get_arg_string(content: &str, cmd_name: &str) -> (r: Option<String>)
    requires
        encode_utf8(cmd_name@).len() + 3 <= usize::MAX,
        arg_string_slices(encode_utf8(content@), encode_utf8(cmd_name@).len() as int),
    ensures
        r matches Some(s) ==> arg_string_spec(content@, cmd_name@) == Some(s@),
        r is None ==> arg_string_spec(content@, cmd_name@) is None,
{
    let cmd_len = cmd_name.len() + 2;
    let b = content.as_bytes();
    let start: usize;
    if b[0] == 0x24u8 && b[1] == 0x20u8 && content.len() > cmd_len {
        start = cmd_len + 1;
    } else if content.len() > cmd_len {
        start = cmd_len;
    } else {
        return None;
    }
    let (_head, tail) = content.split_at(start);
    let r = tail.to_owned();
    proof {
        assert(tail@ == decode_utf8(encode_utf8(tail@)));
    }
    Some(r)
}

proof fn lemma_pair_ascii(p: Seq<char>)
    requires
        p.len() >= 2,
        p[0] <= '\u{7f}',
        p[1] <= '\u{7f}',
    ensures
        is_ascii_chars(p.take(2)),
{
    let t = p.take(2);
    assert forall|i: int| 0 <= i < t.len() implies '\0' <= #[trigger] t[i] <= '\u{7f}' by {
        assert(t[i] == p[i]);
        lemma_char_lower_bound(p[i]);
    }
}

proof fn lemma_char_lower_bound(c: char)
    ensures
        '\0' <= c,
{
}

proof fn lemma_ascii_not_space(c: char)
    requires
        c <= '\u{7f}',
        c != ' ',
    ensures
        (c as u8) != 0x20u8,
{
    let u = c as u32;
    assert(u <= 0x7f && u != 32);
    assert((u as u8) != 0x20u8) by (bit_vector)
        requires
            u <= 0x7f,
            u != 32,
    ;
}

/// The encoding of `p + a` when the first two characters of `p` are ASCII:
/// those two bytes come first, a character starts at byte 2 and where `a`
/// starts, and `a`'s bytes end it.
proof fn lemma_ascii_pair_prefix(p: Seq<char>, a: Seq<char>)
    requires
        p.len() >= 2,
        p[0] <= '\u{7f}',
        p[1] <= '\u{7f}',
    ensures
        encode_utf8(p + a) == encode_utf8(p) + encode_utf8(a),
        encode_utf8(p + a)[0] == p[0] as u8,
        encode_utf8(p + a)[1] == p[1] as u8,
        is_char_boundary(encode_utf8(p + a), 2),
        is_char_boundary(encode_utf8(p + a), encode_utf8(p).len() as int),
        encode_utf8(a).len() == 0 <==> a.len() == 0,
        encode_utf8(p + a).subrange(encode_utf8(p).len() as int, encode_utf8(p + a).len() as int)
            == encode_utf8(a),
{
    broadcast use group_utf8_lib;

    lemma_encode_utf8_concat(p, a);
    lemma_boundary_at_concat(p, a);
    let t = p.take(2);
    let rest = p.skip(2) + a;
    assert(p + a =~= t + rest);
    lemma_pair_ascii(p);
    lemma_encode_utf8_concat(t, rest);
    lemma_boundary_at_concat(t, rest);
    if a.len() > 0 {
        assert(encode_utf8(a).len() > 0);
    }
    assert(encode_utf8(p + a).subrange(encode_utf8(p).len() as int, encode_utf8(p + a).len() as int)
        =~= encode_utf8(a));
}

/// The argument string of `$ <cmd> <args>` is `<args>`, empty or not, and
/// that of `$<cmd> <args>` is `<args>` when `<args>` is not empty and the
/// command's name begins with an ASCII character; no slicing falls inside a
/// character. The command's name is not empty and does not begin with a
/// space. (When the name begins with a wider character, `$<cmd> ...` is
/// sliced inside that character and the command panics.)
pub proof fn lemma_arg_string_of_command(cmd: Seq<char>, a: Seq<char>)
    requires
        cmd.len() >= 1,
        cmd[0] != ' ',
    ensures
        cmd[0] <= '\u{7f}' && a.len() > 0 ==> arg_string_slices(
            encode_utf8(seq!['$'] + cmd + seq![' '] + a),
            encode_utf8(cmd).len() as int,
        ) && arg_string_spec(seq!['$'] + cmd + seq![' '] + a, cmd) == Some(a),
        arg_string_slices(
            encode_utf8(seq!['$', ' '] + cmd + seq![' '] + a),
            encode_utf8(cmd).len() as int,
        ),
        arg_string_spec(seq!['$', ' '] + cmd + seq![' '] + a, cmd) == Some(a),
{
    broadcast use group_utf8_lib;

    assert(is_ascii_chars(seq!['$']));
    assert(is_ascii_chars(seq![' ']));
    assert(is_ascii_chars(seq!['$', ' ']));
    lemma_encode_utf8_concat(seq!['$'], cmd);
    lemma_encode_utf8_concat(seq!['$'] + cmd, seq![' ']);
    lemma_encode_utf8_concat(seq!['$', ' '], cmd);
    lemma_encode_utf8_concat(seq!['$', ' '] + cmd, seq![' ']);
    let p1 = seq!['$'] + cmd + seq![' '];
    let p2 = seq!['$', ' '] + cmd + seq![' '];
    assert(encode_utf8(p1).len() == encode_utf8(cmd).len() + 2);
    assert(encode_utf8(p2).len() == encode_utf8(cmd).len() + 3);
    assert(p2[0] == '$' && p2[1] == ' ');
    lemma_ascii_pair_prefix(p2, a);
    if cmd[0] <= '\u{7f}' && a.len() > 0 {
        assert(p1[0] == '$' && p1[1] == cmd[0]);
        lemma_ascii_pair_prefix(p1, a);
        lemma_ascii_not_space(cmd[0]);
    }
}

} // verus!
