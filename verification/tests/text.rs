use event_pulse::error::{AppError, ConfigError};
use event_pulse::text::{
    chars_of, is_whitespace_char, parse_digits, parse_i64, parse_u32, push_decimal,
    push_signed_decimal, push_str, split_range, string_of, strip_leading_range, trim_range,
};

fn chars(s: &str) -> Vec<char> {
    s.chars().collect()
}

#[test]
fn strings_and_characters_round_trip() {
    for s in ["", "abc", "é\u{3000}x", "1d1x"] {
        assert_eq!(chars_of(s), chars(s));
        assert_eq!(string_of(&chars(s)), s);
    }
}

#[test]
fn white_space_is_what_the_standard_library_says() {
    for code in 0..=0x10ffffu32 {
        if let Some(c) = char::from_u32(code) {
            assert_eq!(is_whitespace_char(c), c.is_whitespace(), "{:x}", code);
        }
    }
}

#[test]
fn trimming_agrees_with_the_standard_library() {
    for s in ["", " ", "  a  ", "a", "\t\na b\r\n", "\u{a0}x\u{2003}", "   ", "x  ", "  x", "a\u{85}"] {
        let v = chars(s);
        let (lo, hi) = trim_range(&v, 0, v.len());
        let got: String = v[lo..hi].iter().collect();
        assert_eq!(got, s.trim(), "{:?}", s);
    }
    let v = chars("ab  cd  ef");
    assert_eq!(trim_range(&v, 2, 8), (4, 6));
    assert_eq!(trim_range(&v, 2, 4).0, trim_range(&v, 2, 4).1);
}

#[test]
fn leading_markers_are_stripped() {
    for s in ["", "M", "MMM", "M1", "MM1M", "1M", "m1"] {
        let v = chars(s);
        let lo = strip_leading_range(&v, 0, v.len(), 'M');
        let got: String = v[lo..].iter().collect();
        assert_eq!(got, s.trim_start_matches('M'), "{:?}", s);
    }
}

#[test]
fn splitting_agrees_with_the_standard_library() {
    let texts = [
        "", ":", "::", ":::", "a:b:c", "a::b", "::I", "a::Ib", "a::I::Ib", "::I::I", ":::I", "::::I",
        "a::I", "::Ib", "a:::Ib::", "::i", "I::I::", "é::Iü",
    ];
    for pattern in [":", "::I", "::", "é"] {
        for s in texts {
            let v = chars(s);
            let pat = chars(pattern);
            let got: Vec<String> = split_range(&v, 0, v.len(), &pat)
                .iter()
                .map(|(lo, hi)| v[*lo..*hi].iter().collect())
                .collect();
            let expected: Vec<String> = s.split(pattern).map(|p| p.to_string()).collect();
            assert_eq!(got, expected, "{:?} by {:?}", s, pattern);
        }
    }
}

#[test]
fn unsigned_numbers_agree_with_the_standard_library() {
    let texts = [
        "", "0", "7", "+7", "-7", "+", "-", "++7", "+-7", "07", "0000000000000000000000000000007",
        "4294967295", "4294967296", "+4294967295", "99999999999999999999999999", "7 ", " 7", "7a",
        "a", "٧", "1_000", "0x10", "1e3", "-0", "+0",
    ];
    for s in texts {
        let v = chars(s);
        assert_eq!(parse_u32(&v, 0, v.len()), s.parse::<u32>().ok(), "{:?}", s);
    }
}

#[test]
fn signed_numbers_agree_with_the_standard_library() {
    let texts = [
        "", "0", "7", "+7", "-7", "+", "-", "--7", "-+7", "+-7", "007", "-007",
        "9223372036854775807", "9223372036854775808", "-9223372036854775808",
        "-9223372036854775809", "+9223372036854775807", "-0", "+0", "86400", "invalid", "8 6",
        "-99999999999999999999999999", "١٢",
    ];
    for s in texts {
        let v = chars(s);
        assert_eq!(parse_i64(&v, 0, v.len()), s.parse::<i64>().ok(), "{:?}", s);
    }
    let v = chars("ab-12cd");
    assert_eq!(parse_i64(&v, 2, 5), Some(-12));
    assert_eq!(parse_i64(&v, 2, 6), None);
    assert_eq!(parse_i64(&v, 3, 3), None);
}

#[test]
fn digit_runs_have_a_bound() {
    let v = chars("x1234y");
    assert_eq!(parse_digits(&v, 1, 5, 1234), Some(1234));
    assert_eq!(parse_digits(&v, 1, 5, 1233), None);
    assert_eq!(parse_digits(&v, 1, 5, u64::MAX), Some(1234));
    assert_eq!(parse_digits(&v, 0, 5, u64::MAX), None);
    assert_eq!(parse_digits(&v, 1, 6, u64::MAX), None);
    assert_eq!(parse_digits(&v, 2, 2, u64::MAX), None);
    let big = chars("18446744073709551615");
    assert_eq!(parse_digits(&big, 0, big.len(), u64::MAX), Some(u64::MAX));
    let bigger = chars("18446744073709551616");
    assert_eq!(parse_digits(&bigger, 0, bigger.len(), u64::MAX), None);
}

#[test]
fn numbers_are_written_in_decimal() {
    for n in [0u64, 1, 9, 10, 11, 99, 100, 1234567890, u64::MAX] {
        let mut out = chars("n=");
        push_decimal(&mut out, n);
        assert_eq!(string_of(&out), format!("n={}", n));
    }
    for n in [0i64, 1, -1, 10, -10, i64::MAX, i64::MIN, -86400] {
        let mut out = Vec::new();
        push_signed_decimal(&mut out, n);
        assert_eq!(string_of(&out), n.to_string());
    }
    let mut out = chars("ab");
    push_str(&mut out, "cd\u{e9}");
    assert_eq!(string_of(&out), "abcd\u{e9}");
}

#[test]
fn error_texts() {
    assert_eq!(
        AppError::InvalidInputString("x".to_string()).to_string(),
        "Invalid string format: x"
    );
    assert_eq!(AppError::ParseError("y".to_string()).to_string(), "Parse error: y");
    assert_eq!(
        AppError::CalendarConstructionError("z".to_string()).to_string(),
        "Calendar construction error: z"
    );
    assert_eq!(
        ConfigError::LocalDataDirUnavailable.to_string(),
        "Failed to get the data directory."
    );
    assert_eq!(
        ConfigError::LocalAppDataDirCreationFailure("denied".to_string()).to_string(),
        "Failed to create directory: denied"
    );
}
