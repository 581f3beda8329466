use pemon::number::{parse_decimal, parse_digits, parse_usize, push_digits, Decimal};
use pemon::text::{
    bytes_eq, field_value, find_byte, find_space, is_whitespace, split_lines, split_tokens,
    starts_with, trim_bytes,
};

fn strs(v: Vec<&[u8]>) -> Vec<String> {
    v.into_iter().map(|s| String::from_utf8_lossy(s).into_owned()).collect()
}

#[test]
fn whitespace_bytes() {
    for b in [b' ', b'\t', b'\n', b'\r', 11u8, 12u8] {
        assert!(is_whitespace(b));
    }
    for b in [0u8, 8, 14, 31, 33, b'a', b'0', 0xa0, 0xff] {
        assert!(!is_whitespace(b));
    }
}

#[test]
fn finding_bytes() {
    assert_eq!(find_byte(b"abc:def:", b':'), 3);
    assert_eq!(find_byte(b":abc", b':'), 0);
    assert_eq!(find_byte(b"abc", b':'), 3);
    assert_eq!(find_byte(b"", b':'), 0);
    assert_eq!(find_space(b"ab cd"), 2);
    assert_eq!(find_space(b"ab\tcd"), 2);
    assert_eq!(find_space(b"abcd"), 4);
}

#[test]
fn trimming() {
    assert_eq!(trim_bytes(b"  a b \t\r\n"), b"a b");
    assert_eq!(trim_bytes(b"a"), b"a");
    assert_eq!(trim_bytes(b" \t "), b"");
    assert_eq!(trim_bytes(b""), b"");
}

#[test]
fn lines_are_trimmed_and_kept_in_order() {
    assert_eq!(strs(split_lines(b"a\n b \r\n\nc")), vec!["a", "b", "", "c"]);
    assert_eq!(strs(split_lines(b"a\n")), vec!["a"]);
    assert_eq!(strs(split_lines(b"\n")), vec![""]);
    assert_eq!(strs(split_lines(b"\na")), vec!["", "a"]);
    assert!(split_lines(b"").is_empty());
}

#[test]
fn lines_agree_with_the_standard_library() {
    for text in ["", "a", "a\n", "a\nb", "a\r\nb\r\n", "\n\n", " x \n\ty\n", "a\n\n\nb\n\n"] {
        let expected: Vec<String> = text.lines().map(|l| l.trim().to_string()).collect();
        assert_eq!(strs(split_lines(text.as_bytes())), expected);
    }
}

#[test]
fn tokens_are_runs_without_white_space() {
    assert_eq!(strs(split_tokens(b"cpu0 1  2\t3")), vec!["cpu0", "1", "2", "3"]);
    assert_eq!(strs(split_tokens(b"  a  ")), vec!["a"]);
    assert_eq!(strs(split_tokens(b"a")), vec!["a"]);
    assert!(split_tokens(b"").is_empty());
    assert!(split_tokens(b" \t ").is_empty());
    for text in ["a b", " a  b ", "\ta\nb\rc", "abc", "a ", " a"] {
        let expected: Vec<String> = text.split_ascii_whitespace().map(|t| t.to_string()).collect();
        assert_eq!(strs(split_tokens(text.as_bytes())), expected);
    }
}

#[test]
fn prefixes_and_equality() {
    assert!(starts_with(b"cpu MHz : 1", b"cpu MHz"));
    assert!(starts_with(b"cpu", b"cpu"));
    assert!(starts_with(b"cpu", b""));
    assert!(!starts_with(b"cp", b"cpu"));
    assert!(!starts_with(b"cpU MHz", b"cpu"));
    assert!(bytes_eq(b"abc", b"abc"));
    assert!(bytes_eq(b"", b""));
    assert!(!bytes_eq(b"abc", b"abd"));
    assert!(!bytes_eq(b"abc", b"ab"));
}

#[test]
fn values_after_the_colon() {
    assert_eq!(field_value(b"key :  value  "), Some(&b"value"[..]));
    assert_eq!(field_value(b"a:b:c"), Some(&b"b:c"[..]));
    assert_eq!(field_value(b"key:"), Some(&b""[..]));
    assert_eq!(field_value(b"key"), None);
}

#[test]
fn digits_to_numbers() {
    assert_eq!(parse_digits(b"0"), Some(0));
    assert_eq!(parse_digits(b"007"), Some(7));
    assert_eq!(parse_digits(b"18446744073709551615"), Some(u64::MAX));
    assert_eq!(parse_digits(b"18446744073709551616"), None);
    assert_eq!(parse_digits(b"99999999999999999999"), None);
    assert_eq!(parse_digits(b""), None);
    assert_eq!(parse_digits(b"+1"), None);
    assert_eq!(parse_digits(b"1a"), None);
    assert_eq!(parse_digits(b"1 "), None);
}

#[test]
fn unsigned_integers() {
    assert_eq!(parse_usize(b"42"), Some(42));
    assert_eq!(parse_usize(b"+42"), Some(42));
    assert_eq!(parse_usize(b"++42"), None);
    assert_eq!(parse_usize(b"-42"), None);
    assert_eq!(parse_usize(b"+"), None);
    assert_eq!(parse_usize(b""), None);
    assert_eq!(parse_usize(b"4.2"), None);
    assert_eq!(parse_usize(format!("{}", usize::MAX).as_bytes()), Some(usize::MAX));
    assert_eq!(parse_usize(format!("{}0", usize::MAX).as_bytes()), None);
    for text in ["0", "12", "+7", "", "+", "1x", " 1", "00012"] {
        assert_eq!(parse_usize(text.as_bytes()), text.parse::<usize>().ok());
    }
}

#[test]
fn decimals() {
    assert_eq!(parse_decimal(b"2400.125"), Some(Decimal { mantissa: 2400125, scale: 3 }));
    assert_eq!(parse_decimal(b"+2400.125"), Some(Decimal { mantissa: 2400125, scale: 3 }));
    assert_eq!(parse_decimal(b"800"), Some(Decimal { mantissa: 800, scale: 0 }));
    assert_eq!(parse_decimal(b"800."), Some(Decimal { mantissa: 800, scale: 0 }));
    assert_eq!(parse_decimal(b".5"), Some(Decimal { mantissa: 5, scale: 1 }));
    assert_eq!(parse_decimal(b"0.050"), Some(Decimal { mantissa: 50, scale: 3 }));
    assert_eq!(parse_decimal(b"."), None);
    assert_eq!(parse_decimal(b""), None);
    assert_eq!(parse_decimal(b"abc"), None);
    assert_eq!(parse_decimal(b"1.2.3"), None);
    assert_eq!(parse_decimal(b"1e3"), None);
    assert_eq!(parse_decimal(b"-1.0"), None);
    assert_eq!(parse_decimal(b"1844674407370955161.5"), Some(Decimal { mantissa: u64::MAX, scale: 1 }));
    assert_eq!(parse_decimal(b"1844674407370955161.6"), None);
}

#[test]
fn numbers_to_digits() {
    let mut out = b"n=".to_vec();
    push_digits(&mut out, 0);
    assert_eq!(out, b"n=0");
    push_digits(&mut out, 907);
    assert_eq!(out, b"n=0907");
    for n in [0usize, 9, 10, 99, 100, 12345, usize::MAX] {
        let mut v = Vec::new();
        push_digits(&mut v, n);
        assert_eq!(v, n.to_string().into_bytes());
        assert_eq!(parse_usize(&v), Some(n));
    }
}
