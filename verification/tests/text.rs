use pir_bench::text::{decimal_string, parse_u64, str_eq, try_parse_u64, try_parse_usize};

#[test]
fn numbers_are_read() {
    assert_eq!(try_parse_u64("0"), Some(0));
    assert_eq!(try_parse_u64("42"), Some(42));
    assert_eq!(try_parse_u64("+7"), Some(7));
    assert_eq!(try_parse_u64("007"), Some(7));
    assert_eq!(try_parse_u64("18446744073709551615"), Some(u64::MAX));
}

#[test]
fn other_text_is_no_number() {
    for s in [
        "", "+", "-", "-1", "++1", "1 ", " 1", "1_000", "0x10", "12a", "1.5", "\u{664}", "7\u{e9}",
        "18446744073709551616", "99999999999999999999999999",
    ] {
        assert_eq!(try_parse_u64(s), None, "{}", s);
    }
}

#[test]
fn reading_agrees_with_the_standard_library() {
    for s in [
        "", "0", "+0", "-0", "1", "+", "+12", "-12", "4294967295", "4294967296",
        "18446744073709551615", "18446744073709551616", "18446744073709551620", "a", "1a", "\u{ff11}",
    ] {
        assert_eq!(try_parse_u64(s), s.parse::<u64>().ok(), "{}", s);
        assert_eq!(try_parse_usize(s), s.parse::<usize>().ok(), "{}", s);
    }
}

#[test]
fn named_argument_is_read() {
    assert_eq!(parse_u64("4096", "offset"), 4096);
    assert_eq!(parse_u64("+1", "bytes"), 1);
}

#[test]
fn numbers_are_written() {
    for n in [0usize, 1, 9, 10, 99, 100, 948454, usize::MAX] {
        assert_eq!(decimal_string(n), n.to_string());
        assert_eq!(try_parse_usize(&decimal_string(n)), Some(n));
    }
}

#[test]
fn strings_are_compared() {
    assert!(str_eq("index", "index"));
    assert!(str_eq("", ""));
    assert!(!str_eq("index", "indeX"));
    assert!(!str_eq("index", "inde"));
}
