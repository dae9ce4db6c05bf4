use web_server::decimal::{parse_usize, push_decimal};
use web_server::text::{
    bytes_start_with, split_bytes, split_str, str_eq, str_starts_with, trim_end_char,
    trim_start_byte, trim_start_char, trim_whitespace,
};

#[test]
fn parse_usize_reads_plain_digits() {
    assert_eq!(parse_usize("4"), Some(4));
    assert_eq!(parse_usize("0"), Some(0));
    assert_eq!(parse_usize("007"), Some(7));
    assert_eq!(parse_usize("12345"), Some(12345));
}

#[test]
fn parse_usize_accepts_one_plus_sign() {
    assert_eq!(parse_usize("+8"), Some(8));
    assert_eq!(parse_usize("+"), None);
    assert_eq!(parse_usize("++8"), None);
}

#[test]
fn parse_usize_rejects_what_std_rejects() {
    for s in ["", "-1", "-", "1a", " 1", "1 ", "abc", "٣"] {
        assert_eq!(parse_usize(s), s.parse::<usize>().ok(), "input {:?}", s);
        assert_eq!(parse_usize(s), None);
    }
}

#[test]
fn parse_usize_detects_overflow() {
    let max = usize::MAX.to_string();
    assert_eq!(parse_usize(&max), Some(usize::MAX));
    let over = format!("{}0", max);
    assert_eq!(parse_usize(&over), None);
    let just_over = (usize::MAX as u128 + 1).to_string();
    assert_eq!(parse_usize(&just_over), None);
}

#[test]
fn push_decimal_writes_like_display() {
    for n in [0usize, 7, 10, 99, 100, 1024, 65535, usize::MAX] {
        let mut out = b"x".to_vec();
        push_decimal(&mut out, n);
        assert_eq!(out, format!("x{}", n).into_bytes());
    }
}

#[test]
fn decimal_round_trip() {
    for n in [0usize, 1, 9, 10, 11, 4096, 123456789, usize::MAX] {
        let mut out = Vec::new();
        push_decimal(&mut out, n);
        let text = String::from_utf8(out).unwrap();
        assert_eq!(parse_usize(&text), Some(n));
    }
}

#[test]
fn trimming_one_character() {
    assert_eq!(trim_start_char("[[GET", '['), "GET");
    assert_eq!(trim_start_char("GET", '['), "GET");
    assert_eq!(trim_start_char("[[[", '['), "");
    assert_eq!(trim_end_char("PUT]]", ']'), "PUT");
    assert_eq!(trim_end_char("]", ']'), "");
    assert_eq!(trim_end_char("a]b", ']'), "a]b");
    assert_eq!(trim_start_byte(b"//file.txt", b'/'), b"file.txt".to_vec());
}

#[test]
fn trimming_is_idempotent() {
    let once = trim_start_char("[[x[", '[');
    assert_eq!(trim_start_char(&once, '['), once);
    let once = trim_end_char("]x]]", ']');
    assert_eq!(trim_end_char(&once, ']'), once);
}

#[test]
fn trimming_whitespace_like_std() {
    for s in ["  a b  \n", "\t\r\n", "", "x", "\u{3000}wide\u{2028}", " \u{85}a\u{a0} "] {
        assert_eq!(trim_whitespace(s), s.trim(), "input {:?}", s);
    }
}

#[test]
fn splitting_like_std() {
    for s in ["a b c", "", " ", "a  b", " lead", "trail "] {
        let expected: Vec<String> = s.split(' ').map(|w| w.to_string()).collect();
        assert_eq!(split_str(s, ' '), expected, "input {:?}", s);
        let expected_bytes: Vec<Vec<u8>> = s.split(' ').map(|w| w.as_bytes().to_vec()).collect();
        assert_eq!(split_bytes(s.as_bytes(), b' '), expected_bytes);
    }
}

#[test]
fn comparing_text() {
    assert!(str_eq("-n", "-n"));
    assert!(!str_eq("-n", "-p"));
    assert!(!str_eq("-n", "-nn"));
    assert!(str_starts_with("[GET", "["));
    assert!(!str_starts_with("GET", "["));
    assert!(!str_starts_with("", "["));
    assert!(bytes_start_with(b"GET /", b"GET"));
    assert!(!bytes_start_with(b"GE", b"GET"));
}
