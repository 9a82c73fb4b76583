//! Text helpers shared by the commands: decimal formatting and parsing of
//! unsigned integers, splitting at a character and at white space, and
//! facts about the UTF-8 encoding of joined texts.
use vstd::prelude::*;
use vstd::utf8::*;

verus! {

/// Why a decimal `u64` could not be read from a string; the same three
/// outcomes as std's `u64::from_str`.
#[derive(Debug, Clone, Copy, PartialEq, Eq, Structural)]
pub enum IntParseError {
    /// The string is empty.
    Empty,
    /// A character is not a decimal digit (or the string is a lone sign).
    InvalidDigit,
    /// The value does not fit in a `u64`.
    PosOverflow,
}

/// The character for the decimal digit `d` (`0 <= d < 10`).
pub open spec fn digit_char(d: int) -> char {
    seq!['0', '1', '2', '3', '4', '5', '6', '7', '8', '9'][d]
}

/// The decimal representation of `n`, without sign or leading zeros.
pub open spec fn decimal_chars(n: nat) -> Seq<char>
    decreases n,
{
    if n < 10 {
        seq![digit_char(n as int)]
    } else {
        decimal_chars(n / 10).push(digit_char((n % 10) as int))
    }
}

pub open spec fn is_digit(c: char) -> bool {
    '0' <= c <= '9'
}

pub open spec fn digit_value(c: char) -> int {
    c as int - '0' as int
}

/// Reads the digits of `d` from left to right onto `acc`, failing at the
/// first character that is not a digit or at the first digit that makes the
/// value exceed `u64::MAX`, whichever comes first.
pub open spec fn scan_digits(d: Seq<char>, acc: int) -> Result<u64, IntParseError>
    decreases d.len(),
{
    if d.len() == 0 {
        Ok(acc as u64)
    } else if !is_digit(d[0]) {
        Err(IntParseError::InvalidDigit)
    } else if acc * 10 + digit_value(d[0]) > u64::MAX {
        Err(IntParseError::PosOverflow)
    } else {
        scan_digits(d.drop_first(), acc * 10 + digit_value(d[0]))
    }
}

/// What `s.parse::<u64>()` gives: an optional leading `+`, then decimal
/// digits only.
pub open spec fn parse_u64_spec(s: Seq<char>) -> Result<u64, IntParseError> {
    if s.len() == 0 {
        Err(IntParseError::Empty)
    } else if s.len() == 1 && (s[0] == '+' || s[0] == '-') {
        Err(IntParseError::InvalidDigit)
    } else if s[0] == '+' {
        scan_digits(s.drop_first(), 0)
    } else {
        scan_digits(s, 0)
    }
}

/// True when `c` occurs in `s`.
pub open spec fn has_char(s: Seq<char>, c: char) -> bool {
    exists|i: int| 0 <= i < s.len() && s[i] == c
}

/// True when `i` is the position of the first `c` in `s`.
pub open spec fn is_first_at(s: Seq<char>, c: char, i: int) -> bool {
    &&& 0 <= i < s.len()
    &&& s[i] == c
    &&& forall|j: int| 0 <= j < i ==> s[j] != c
}

/// The position of the first `c` in `s`, or the length of `s` when there is
/// none.
pub open spec fn first_index_of(s: Seq<char>, c: char) -> int {
    if has_char(s, c) {
        choose|i: int| is_first_at(s, c, i)
    } else {
        s.len() as int
    }
}

/// The first piece of `s.split(c)`: everything before the first `c`.
pub open spec fn before_first(s: Seq<char>, c: char) -> Seq<char> {
    s.subrange(0, first_index_of(s, c))
}

/// The remaining pieces of `s.split(c)`, joined again by `c`: everything
/// after the first `c`; none when `c` does not occur.
pub open spec fn after_first(s: Seq<char>, c: char) -> Option<Seq<char>> {
    if has_char(s, c) {
        Some(s.subrange(first_index_of(s, c) + 1, s.len() as int))
    } else {
        None
    }
}

/// A position `i` that holds the first `c` of `s` is the one that
/// `first_index_of` names.
pub proof fn lemma_first_index_at(s: Seq<char>, c: char, i: int)
    requires
        is_first_at(s, c, i),
    ensures
        has_char(s, c),
        first_index_of(s, c) == i,
{
    assert(has_char(s, c));
    let k = choose|k: int| is_first_at(s, c, k);
    assert(is_first_at(s, c, k));
    if k < i {
        assert(s[k] != c);
    }
    if i < k {
        assert(s[i] != c);
    }
}

/// When `s` holds no `c`, the first piece of its split is all of it.
pub proof fn lemma_first_index_none(s: Seq<char>, c: char)
    requires
        forall|j: int| 0 <= j < s.len() ==> s[j] != c,
    ensures
        !has_char(s, c),
        first_index_of(s, c) == s.len(),
        before_first(s, c) =~= s,
        after_first(s, c) is None,
{
}

/// The characters of `s`, in order.
pub fn chars_of(s: &str) -> (v: Vec<char>)
    ensures
        v@ == s@,
{
    let n = s.unicode_len();
    let mut v: Vec<char> = Vec::new();
    let mut i: usize = 0;
    while i < n
        invariant
            n == s@.len(),
            i <= n,
            v@ == s@.subrange(0, i as int),
        decreases n - i,
    {
        let c = s.get_char(i);
        v.push(c);
        i = i + 1;
        assert(v@ =~= s@.subrange(0, i as int));
    }
    assert(v@ =~= s@);
    v
}

/// Splits `s` at its first `c`, as `s.split(c)` does for its first piece:
/// the part before it and, when `c` occurs, the part after it.
pub fn split_once_char(s: &str, c: char) -> (res: (String, Option<String>))
    ensures
        res.0@ == before_first(s@, c),
        res.1 matches Some(t) ==> after_first(s@, c) == Some(t@),
        res.1 is None ==> after_first(s@, c) is None,
{
    let v = chars_of(s);
    let n = v.len();
    let mut i: usize = 0;
    while i < n
        invariant
            n == v@.len(),
            v@ == s@,
            i <= n,
            forall|j: int| 0 <= j < i ==> v@[j] != c,
        decreases n - i,
    {
        if v[i] == c {
            proof {
                lemma_first_index_at(s@, c, i as int);
            }
            let head = s.substring_char(0, i).to_owned();
            let tail = s.substring_char(i + 1, n).to_owned();
            return (head, Some(tail));
        }
        i = i + 1;
    }
    proof {
        lemma_first_index_none(s@, c);
    }
    let all = s.to_owned();
    (all, None)
}

/// True when `t` has at least two characters and begins with `a`, `b`.
pub open spec fn starts_with_two(t: Seq<char>, a: char, b: char) -> bool {
    t.len() >= 2 && t[0] == a && t[1] == b
}

/// Whether `t` begins with the two characters `a`, `b`.
pub fn begins_with_two(t: &str, a: char, b: char) -> (r: bool)
    ensures
        r == starts_with_two(t@, a, b),
{
    if t.unicode_len() < 2 {
        return false;
    }
    t.get_char(0) == a && t.get_char(1) == b
}

/// The decimal representation of `n`.
pub fn decimal_string(n: u64) -> (s: String)
    ensures
        s@ == decimal_chars(n as nat),
    decreases n,
{
    let digits = "0123456789";
    proof {
        reveal_strlit("0123456789");
    }
    let d: usize = (n % 10) as usize;
    let mut s = if n < 10 {
        String::new()
    } else {
        decimal_string(n / 10)
    };
    let one = digits.substring_char(d, d + 1);
    assert(one@ =~= seq![digit_char(d as int)]);
    s.append(one);
    assert(s@ =~= decimal_chars(n as nat));
    s
}

proof fn lemma_scan_step(v: Seq<char>, i: int, to: int, acc: int)
    requires
        0 <= i < to <= v.len(),
        is_digit(v[i]),
        acc * 10 + digit_value(v[i]) <= u64::MAX,
    ensures
        scan_digits(v.subrange(i, to), acc) == scan_digits(
            v.subrange(i + 1, to),
            acc * 10 + digit_value(v[i]),
        ),
{
    assert(v.subrange(i, to).drop_first() =~= v.subrange(i + 1, to));
}

/// Reads a `u64` from the characters `v[from..to]` as `str::parse` does.
pub fn parse_u64_range(v: &Vec<char>, from: usize, to: usize) -> (r: Result<u64, IntParseError>)
    requires
        from <= to <= v.len(),
    ensures
        r == parse_u64_spec(v@.subrange(from as int, to as int)),
{
    let ghost s = v@.subrange(from as int, to as int);
    if from == to {
        return Err(IntParseError::Empty);
    }
    if to - from == 1 && (v[from] == '+' || v[from] == '-') {
        return Err(IntParseError::InvalidDigit);
    }
    let mut i = from;
    if v[from] == '+' {
        i = from + 1;
        assert(s.drop_first() =~= v@.subrange(i as int, to as int));
    } else {
        assert(s =~= v@.subrange(i as int, to as int));
    }
    let mut acc: u64 = 0;
    while i < to
        invariant
            from <= i <= to <= v.len(),
            s == v@.subrange(from as int, to as int),
            parse_u64_spec(s) == scan_digits(v@.subrange(i as int, to as int), acc as int),
        decreases to - i,
    {
        let c = v[i];
        assert(v@.subrange(i as int, to as int)[0] == c);
        if !('0' <= c && c <= '9') {
            return Err(IntParseError::InvalidDigit);
        }
        let d: u64 = (c as u64) - ('0' as u64);
        if acc > 1844674407370955161 || (acc == 1844674407370955161 && d > 5) {
            return Err(IntParseError::PosOverflow);
        }
        proof {
            lemma_scan_step(v@, i as int, to as int, acc as int);
        }
        acc = acc * 10 + d;
        i = i + 1;
    }
    Ok(acc)
}

/// Reads a `u64` from `s` as `s.parse::<u64>()` does.
pub fn parse_u64(s: &str) -> (r: Result<u64, IntParseError>)
    ensures
        r == parse_u64_spec(s@),
{
    let v = chars_of(s);
    assert(v@.subrange(0, v@.len() as int) =~= v@);
    parse_u64_range(&v, 0, v.len())
}

/// Unicode's `White_Space` characters, the ones `char::is_whitespace`
/// accepts.
pub open spec fn is_whitespace_spec(c: char) -> bool {
    ||| '\u{9}' <= c <= '\u{d}'
    ||| c == ' '
    ||| c == '\u{85}'
    ||| c == '\u{a0}'
    ||| c == '\u{1680}'
    ||| '\u{2000}' <= c <= '\u{200a}'
    ||| c == '\u{2028}'
    ||| c == '\u{2029}'
    ||| c == '\u{202f}'
    ||| c == '\u{205f}'
    ||| c == '\u{3000}'
}

/// Whether `c` is white space.
pub fn is_whitespace(c: char) -> (r: bool)
    ensures
        r == is_whitespace_spec(c),
{
    ('\u{9}' <= c && c <= '\u{d}') || c == ' ' || c == '\u{85}' || c == '\u{a0}' || c
        == '\u{1680}' || ('\u{2000}' <= c && c <= '\u{200a}') || c == '\u{2028}' || c
        == '\u{2029}' || c == '\u{202f}' || c == '\u{205f}' || c == '\u{3000}'
}

/// The pieces of `s.split_whitespace()`: the maximal runs of characters that
/// are not white space, in order. Defined character by character: white
/// space adds nothing, a character after a non-space one extends the last
/// piece, any other character starts a new piece.
pub open spec fn ws_tokens(s: Seq<char>) -> Seq<Seq<char>>
    decreases s.len(),
{
    if s.len() == 0 {
        Seq::empty()
    } else {
        let prev = ws_tokens(s.drop_last());
        let c = s.last();
        if is_whitespace_spec(c) {
            prev
        } else if s.len() >= 2 && !is_whitespace_spec(s[s.len() - 2]) {
            prev.drop_last().push(prev.last().push(c))
        } else {
            prev.push(seq![c])
        }
    }
}

/// The pieces of `s` that the index pairs in `spans` delimit.
pub open spec fn span_pieces(s: Seq<char>, spans: Seq<(usize, usize)>) -> Seq<Seq<char>> {
    spans.map_values(|p: (usize, usize)| s.subrange(p.0 as int, p.1 as int))
}

/// The positions of the pieces of `split_whitespace` in `v`: for each piece,
/// the index of its first character and the index after its last.
pub fn whitespace_spans(v: &Vec<char>) -> (spans: Vec<(usize, usize)>)
    ensures
        forall|k: int| 0 <= k < spans.len() ==> #[trigger] spans[k].0 < spans[k].1 <= v.len(),
        span_pieces(v@, spans@) == ws_tokens(v@),
{
    let n = v.len();
    let mut spans: Vec<(usize, usize)> = Vec::new();
    let mut start: usize = 0;
    let mut in_tok = false;
    let mut i: usize = 0;
    while i < n
        invariant
            n == v.len(),
            i <= n,
            start <= i,
            in_tok <==> (i > 0 && !is_whitespace_spec(v@[i - 1])),
            forall|k: int| 0 <= k < spans.len() ==> #[trigger] spans[k].0 < spans[k].1 <= i,
            in_tok ==> start < i && ws_tokens(v@.take(i as int)) == span_pieces(v@, spans@).push(
                v@.subrange(start as int, i as int),
            ),
            !in_tok ==> ws_tokens(v@.take(i as int)) == span_pieces(v@, spans@),
        decreases n - i,
    {
        let c = v[i];
        let ghost prev_spans = spans@;
        let ghost t = v@.take(i as int + 1);
        assert(t.drop_last() =~= v@.take(i as int));
        assert(t.last() == c);
        if is_whitespace(c) {
            if in_tok {
                spans.push((start, i));
                assert(span_pieces(v@, spans@) =~= span_pieces(v@, prev_spans).push(
                    v@.subrange(start as int, i as int),
                ));
                in_tok = false;
            }
        } else {
            if !in_tok {
                start = i;
                in_tok = true;
                assert(v@.subrange(start as int, i as int + 1) =~= seq![c]);
            } else {
                assert(t[t.len() - 2] == v@[i - 1]);
                assert(v@.subrange(start as int, i as int + 1) =~= v@.subrange(
                    start as int,
                    i as int,
                ).push(c));
            }
        }
        i = i + 1;
    }
    assert(v@.take(n as int) =~= v@);
    assert(forall|k: int| 0 <= k < spans.len() ==> #[trigger] spans[k].0 < spans[k].1 <= n);
    if in_tok {
        let ghost prev_spans = spans@;
        spans.push((start, n));
        assert forall|k: int| 0 <= k < spans.len() implies #[trigger] spans[k].0 < spans[k].1 <= n by {
            if k < prev_spans.len() {
                assert(spans[k] == prev_spans[k]);
            }
        }
        assert(span_pieces(v@, spans@) =~= span_pieces(v@, prev_spans).push(
            v@.subrange(start as int, n as int),
        ));
    }
    spans
}

/// True when `t` begins with `p`.
pub open spec fn starts_with(t: Seq<char>, p: Seq<char>) -> bool {
    t.len() >= p.len() && t.subrange(0, p.len() as int) == p
}

/// Whether the characters `v[from..to]` begin with `p`.
pub fn range_starts_with(v: &Vec<char>, from: usize, to: usize, p: &str) -> (r: bool)
    requires
        from <= to <= v.len(),
    ensures
        r == starts_with(v@.subrange(from as int, to as int), p@),
{
    let m = p.unicode_len();
    if to - from < m {
        return false;
    }
    let mut k: usize = 0;
    while k < m
        invariant
            m == p@.len(),
            from + m <= to <= v.len(),
            k <= m,
            forall|j: int| 0 <= j < k ==> v@[from + j] == p@[j],
        decreases m - k,
    {
        if v[from + k] != p.get_char(k) {
            assert(v@.subrange(from as int, to as int).subrange(0, m as int)[k as int] != p@[k as int]);
            return false;
        }
        k = k + 1;
    }
    assert(v@.subrange(from as int, to as int).subrange(0, m as int) =~= p@);
    true
}

proof fn lemma_digit_char(d: int)
    requires
        0 <= d < 10,
    ensures
        is_digit(digit_char(d)),
        digit_value(digit_char(d)) == d,
{
    let ds = seq!['0', '1', '2', '3', '4', '5', '6', '7', '8', '9'];
    assert(ds[0] == '0' && ds[1] == '1' && ds[2] == '2' && ds[3] == '3' && ds[4] == '4');
    assert(ds[5] == '5' && ds[6] == '6' && ds[7] == '7' && ds[8] == '8' && ds[9] == '9');
}

pub proof fn lemma_decimal_chars_digits(n: nat)
    ensures
        decimal_chars(n).len() > 0,
        forall|i: int| 0 <= i < decimal_chars(n).len() ==> is_digit(#[trigger] decimal_chars(n)[i]),
    decreases n,
{
    if n < 10 {
        lemma_digit_char(n as int);
    } else {
        lemma_decimal_chars_digits(n / 10);
        lemma_digit_char((n % 10) as int);
    }
}

proof fn lemma_scan_push(s: Seq<char>, c: char, acc: int)
    requires
        0 <= acc <= u64::MAX,
        scan_digits(s, acc) is Ok,
        is_digit(c),
        scan_digits(s, acc)->Ok_0 * 10 + digit_value(c) <= u64::MAX,
    ensures
        scan_digits(s.push(c), acc) == Ok::<u64, IntParseError>(
            (scan_digits(s, acc)->Ok_0 * 10 + digit_value(c)) as u64,
        ),
    decreases s.len(),
{
    if s.len() == 0 {
        assert(s.push(c).drop_first() =~= Seq::<char>::empty());
        assert(s.push(c)[0] == c);
        assert(scan_digits(Seq::<char>::empty(), acc * 10 + digit_value(c)) == Ok::<u64, IntParseError>(
            (acc * 10 + digit_value(c)) as u64,
        ));
    } else {
        assert(s.push(c).drop_first() =~= s.drop_first().push(c));
        assert(s.push(c)[0] == s[0]);
        lemma_scan_push(s.drop_first(), c, acc * 10 + digit_value(s[0]));
    }
}

proof fn lemma_scan_decimal(n: u64)
    ensures
        scan_digits(decimal_chars(n as nat), 0) == Ok::<u64, IntParseError>(n),
    decreases n,
{
    if n < 10 {
        lemma_digit_char(n as int);
        let s = seq![digit_char(n as int)];
        assert(s.drop_first() =~= Seq::<char>::empty());
        assert(scan_digits(Seq::<char>::empty(), n as int) == Ok::<u64, IntParseError>(n));
        assert(scan_digits(s, 0) == scan_digits(s.drop_first(), n as int));
    } else {
        lemma_scan_decimal(n / 10);
        lemma_digit_char((n % 10) as int);
        assert((n / 10) * 10 + n % 10 == n) by (nonlinear_arith);
        lemma_scan_push(decimal_chars((n / 10) as nat), digit_char((n % 10) as int), 0);
    }
}

/// Reading back the decimal representation of a number gives the number:
/// `parse_u64` undoes `decimal_string`.
pub proof fn lemma_parse_decimal(n: u64)
    ensures
        parse_u64_spec(decimal_chars(n as nat)) == Ok::<u64, IntParseError>(n),
{
    lemma_decimal_chars_digits(n as nat);
    lemma_scan_decimal(n);
    let s = decimal_chars(n as nat);
    assert(is_digit(s[0]));
}

/// The UTF-8 encoding of a concatenation is the concatenation of the
/// encodings.
pub proof fn lemma_encode_utf8_concat(x: Seq<char>, y: Seq<char>)
    ensures
        encode_utf8(x + y) == encode_utf8(x) + encode_utf8(y),
    decreases x.len(),
{
    if x.len() == 0 {
        assert(x + y =~= y);
        assert(encode_utf8(x) + encode_utf8(y) =~= encode_utf8(y));
    } else {
        assert((x + y).drop_first() =~= x.drop_first() + y);
        assert((x + y)[0] == x[0]);
        lemma_encode_utf8_concat(x.drop_first(), y);
        assert(encode_utf8(x + y) =~= encode_utf8(x) + encode_utf8(y));
    }
}

/// Where two texts meet in their concatenation, a character starts (or the
/// text ends).
pub proof fn lemma_boundary_at_concat(x: Seq<char>, y: Seq<char>)
    ensures
        is_char_boundary(encode_utf8(x + y), encode_utf8(x).len() as int),
{
    broadcast use group_utf8_lib;

    lemma_encode_utf8_concat(x, y);
    let b = encode_utf8(x + y);
    let k = encode_utf8(x).len() as int;
    if encode_utf8(y).len() == 0 {
        assert(b.len() == k);
        is_char_boundary_start_end_of_seq(b);
    } else {
        let ey = encode_utf8(y);
        assert(valid_utf8(ey));
        assert(valid_first_scalar(ey));
        assert(b[k] == ey[0]);
        is_char_boundary_iff_not_is_continuation_byte(b, k);
    }
}

/// Splitting `x c y` at its first `c`, where `x` holds no `c`, gives `x` and
/// `y`.
pub proof fn lemma_split_at_joint(x: Seq<char>, c: char, y: Seq<char>)
    requires
        !has_char(x, c),
    ensures
        before_first(x + seq![c] + y, c) == x,
        after_first(x + seq![c] + y, c) == Some(y),
{
    let s = x + seq![c] + y;
    assert forall|j: int| 0 <= j < x.len() implies s[j] != c by {
        assert(s[j] == x[j]);
    }
    assert(s[x.len() as int] == c);
    lemma_first_index_at(s, c, x.len() as int);
    assert(s.subrange(0, x.len() as int) =~= x);
    assert(s.subrange(x.len() as int + 1, s.len() as int) =~= y);
}

/// A text that ends in a character other than white space has a last
/// piece.
pub proof fn lemma_ws_tokens_nonempty(s: Seq<char>)
    requires
        s.len() > 0,
        !is_whitespace_spec(s.last()),
    ensures
        ws_tokens(s).len() > 0,
    decreases s.len(),
{
    if s.len() >= 2 && !is_whitespace_spec(s[s.len() - 2]) {
        assert(s.drop_last().last() == s[s.len() - 2]);
        lemma_ws_tokens_nonempty(s.drop_last());
    }
}

/// A non-empty text without white space is a single piece.
pub proof fn lemma_ws_tokens_single(t: Seq<char>)
    requires
        t.len() > 0,
        forall|i: int| 0 <= i < t.len() ==> !is_whitespace_spec(#[trigger] t[i]),
    ensures
        ws_tokens(t) == seq![t],
    decreases t.len(),
{
    assert(!is_whitespace_spec(t[t.len() - 1]));
    if t.len() == 1 {
        assert(t.drop_last() =~= Seq::<char>::empty());
        assert(ws_tokens(t.drop_last()) =~= Seq::<Seq<char>>::empty());
        assert(seq![t[0]] =~= t);
        assert(Seq::<Seq<char>>::empty().push(seq![t.last()]) =~= seq![t]);
    } else {
        assert forall|i: int| 0 <= i < t.drop_last().len() implies !is_whitespace_spec(
            #[trigger] t.drop_last()[i],
        ) by {
            assert(t.drop_last()[i] == t[i]);
        }
        assert(!is_whitespace_spec(t[t.len() - 2]));
        lemma_ws_tokens_single(t.drop_last());
        assert(t.drop_last().push(t.last()) =~= t);
        assert(t[t.len() - 2] == t.drop_last().last());
        assert(seq![t.drop_last()].drop_last().push(t) =~= seq![t]);
    }
}

/// The pieces of two texts joined by a space are the pieces of the first
/// followed by the pieces of the second.
pub proof fn lemma_ws_tokens_join(x: Seq<char>, y: Seq<char>)
    ensures
        ws_tokens(x + seq![' '] + y) == ws_tokens(x) + ws_tokens(y),
    decreases y.len(),
{
    let s = x + seq![' '] + y;
    if y.len() == 0 {
        assert(s.drop_last() =~= x);
        assert(ws_tokens(x) + ws_tokens(y) =~= ws_tokens(x));
    } else {
        let y1 = y.drop_last();
        let c = y.last();
        lemma_ws_tokens_join(x, y1);
        assert(s.drop_last() =~= x + seq![' '] + y1);
        assert(s.last() == c);
        let a = ws_tokens(x);
        let b = ws_tokens(y1);
        if is_whitespace_spec(c) {
        } else if y1.len() == 0 {
            assert(s[s.len() - 2] == ' ');
            assert(y =~= seq![c]);
            assert(y.drop_last() =~= y1);
            assert((a + b).push(seq![c]) =~= a + b.push(seq![c]));
        } else {
            assert(s[s.len() - 2] == y1.last());
            assert(y[y.len() - 2] == y1.last());
            if is_whitespace_spec(y1.last()) {
                assert((a + b).push(seq![c]) =~= a + b.push(seq![c]));
            } else {
                lemma_ws_tokens_nonempty(y1);
                assert((a + b).drop_last().push((a + b).last().push(c)) =~= a + b.drop_last().push(
                    b.last().push(c),
                ));
            }
        }
    }
}

} // verus!
