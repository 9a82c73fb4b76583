use voidleo::args::{arg_string_slices_ok, get_arg_string};
use voidleo::text::{
    chars_of, decimal_string, is_whitespace, parse_u64, parse_u64_range, split_once_char,
    whitespace_spans, IntParseError,
};

#[test]
fn arg_string_after_command_name() {
    assert_eq!(get_arg_string("$event hello world", "event"), Some("hello world".to_string()));
}

#[test]
fn arg_string_after_spaced_prefix() {
    assert_eq!(get_arg_string("$ event hello", "event"), Some("hello".to_string()));
    assert_eq!(get_arg_string("$ event ", "event"), Some(String::new()));
}

#[test]
fn arg_string_absent() {
    assert_eq!(get_arg_string("$event", "event"), None);
    assert_eq!(get_arg_string("$event ", "event"), None);
    assert_eq!(get_arg_string("$ event", "event"), None);
}

#[test]
fn arg_string_keeps_non_ascii_arguments() {
    assert_eq!(get_arg_string("$event héhé ok", "event"), Some("héhé ok".to_string()));
}

#[test]
fn arg_string_of_a_non_ascii_command_name() {
    assert_eq!(get_arg_string("$ été go now", "été"), Some("go now".to_string()));
    assert_eq!(get_arg_string("$ été ", "été"), Some(String::new()));
    assert_eq!(get_arg_string("$eté go", "eté"), Some("go".to_string()));
    // `$<cmd> ...` with a name that begins with a two-byte character is
    // sliced inside that character
    assert!(!arg_string_slices_ok("$été go", "été"));
}

#[test]
fn arg_string_slicing_checks() {
    assert!(arg_string_slices_ok("$event hi", "event"));
    assert!(!arg_string_slices_ok("$", "event"));
    assert!(arg_string_slices_ok("é", "event"));
    assert!(!arg_string_slices_ok("xé", "event"));
    // the arguments would start inside the two-byte character
    assert!(!arg_string_slices_ok("$eventéx", "event"));
}

#[test]
fn parse_u64_agrees_with_std() {
    let cases = [
        "", "+", "-", "0", "7", "+42", "-1", "12a", "a12", "007", "18446744073709551615",
        "18446744073709551616", "99999999999999999999x", "1x9999999999999999999999", "+-3",
        "٣", " 1", "1 ",
    ];
    for c in cases.iter() {
        let expected = match c.parse::<u64>() {
            Ok(v) => Ok(v),
            Err(e) => Err(match e.kind() {
                std::num::IntErrorKind::Empty => IntParseError::Empty,
                std::num::IntErrorKind::PosOverflow => IntParseError::PosOverflow,
                _ => IntParseError::InvalidDigit,
            }),
        };
        assert_eq!(parse_u64(c), expected, "input {:?}", c);
    }
}

#[test]
fn parse_u64_errors() {
    assert_eq!(parse_u64(""), Err(IntParseError::Empty));
    assert_eq!(parse_u64("+"), Err(IntParseError::InvalidDigit));
    assert_eq!(parse_u64("18446744073709551616"), Err(IntParseError::PosOverflow));
    assert_eq!(parse_u64("+18446744073709551615"), Ok(u64::MAX));
}

#[test]
fn parse_u64_range_reads_a_slice() {
    let v = chars_of("id=1234;");
    assert_eq!(parse_u64_range(&v, 3, 7), Ok(1234));
    assert_eq!(parse_u64_range(&v, 3, 3), Err(IntParseError::Empty));
}

#[test]
fn decimal_string_agrees_with_std() {
    for n in [0u64, 1, 9, 10, 99, 100, 12345, 731955992647958641, u64::MAX].iter() {
        assert_eq!(decimal_string(*n), n.to_string());
    }
}

#[test]
fn decimal_then_parse_gives_the_number_back() {
    for n in [0u64, 5, 10, 4096, 987654321, u64::MAX].iter() {
        assert_eq!(parse_u64(&decimal_string(*n)), Ok(*n));
    }
}

#[test]
fn split_once_char_agrees_with_split() {
    for s in ["a b c", "abc", "", " lead", "trail ", "é x"].iter() {
        let mut it = s.splitn(2, ' ');
        let head = it.next().unwrap().to_string();
        let tail = it.next().map(|t| t.to_string());
        assert_eq!(split_once_char(s, ' '), (head, tail), "input {:?}", s);
    }
}

#[test]
fn whitespace_spans_agree_with_split_whitespace() {
    for s in ["a b", "  a\t\tb  c\n", "", "   ", "x\u{3000}y\u{a0}z", "ab\u{85}cd\u{2028}"].iter() {
        let v = chars_of(s);
        let ours: Vec<String> = whitespace_spans(&v)
            .iter()
            .map(|&(a, b)| v[a..b].iter().collect::<String>())
            .collect();
        let std_pieces: Vec<String> = s.split_whitespace().map(|t| t.to_string()).collect();
        assert_eq!(ours, std_pieces, "input {:?}", s);
    }
}

#[test]
fn whitespace_agrees_with_char_is_whitespace() {
    for u in 0u32..0x3100 {
        if let Some(c) = std::char::from_u32(u) {
            assert_eq!(is_whitespace(c), c.is_whitespace(), "char {:x}", u);
        }
    }
}
