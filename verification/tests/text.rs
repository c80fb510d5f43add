use pacman_duel::text::{
    after_prefix, cap, decimal_text, hex_text, is_control, is_white_space, parse_number, parse_rounded,
    repeat, same, signed_text, trim, trim_slashes, two_digit_text,
};

#[test]
fn trimming_agrees_with_the_standard_library() {
    for s in ["", "  ", " a b ", "\u{3000}ñ\u{85}", "x\t\n", "\u{200b}z"] {
        assert_eq!(trim(s), s.trim());
    }
}

#[test]
fn characters_are_classed_as_unicode_does() {
    for n in 0..0x11_0000u32 {
        if let Some(c) = char::from_u32(n) {
            assert_eq!(is_white_space(c), c.is_whitespace(), "white space {n:#x}");
            assert_eq!(is_control(c), c.is_control(), "control {n:#x}");
        }
    }
}

#[test]
fn numbers_are_written_in_decimal() {
    for n in [0u64, 7, 10, 99, 100, 12_340, u64::MAX] {
        assert_eq!(decimal_text(n), n.to_string());
    }
    for n in [0i64, -1, 42, i64::MIN, i64::MAX] {
        assert_eq!(signed_text(n), n.to_string());
    }
    assert_eq!(two_digit_text(5), "05");
    assert_eq!(two_digit_text(59), "59");
    assert_eq!(two_digit_text(123), "123");
}

#[test]
fn numbers_are_read_like_the_standard_library_reads_them() {
    for s in ["", "0", "81", "+81", "-1", "65535", "65536", " 1", "1a", "+", "007", "++1"] {
        assert_eq!(parse_number(s, 65_535), s.parse::<u16>().ok().map(u64::from), "{s:?}");
    }
    assert_eq!(parse_number("18446744073709551615", u64::MAX), Some(u64::MAX));
    assert_eq!(parse_number("18446744073709551616", u64::MAX), None);
}

#[test]
fn small_text_tools_work() {
    assert_eq!(trim_slashes("http://x//"), "http://x");
    assert_eq!(trim_slashes("///"), "");
    assert_eq!(cap("ñandú", 2), "ña");
    assert_eq!(cap("ñ", 2), "ñ");
    assert!(same("a", "a") && !same("a", "b"));
    assert_eq!(after_prefix("Bearer x", "Bearer "), Some("x".to_string()));
    assert_eq!(after_prefix("Bear", "Bearer "), None);
    assert_eq!(repeat("*", 3), "***");
    assert_eq!(repeat("*", 0), "");
    assert_eq!(hex_text(&[0, 0x0f, 0xa5]), "000fa5");
}

#[test]
fn numbers_with_a_fraction_are_rounded() {
    assert_eq!(parse_rounded("1700000000"), Some(1_700_000_000));
    assert_eq!(parse_rounded("1000.0"), Some(1_000));
    assert_eq!(parse_rounded("2.5"), Some(3));
    assert_eq!(parse_rounded("2.49"), Some(2));
    assert_eq!(parse_rounded("1.25e3"), Some(1_250));
    assert_eq!(parse_rounded("15e-1"), Some(2));
    assert_eq!(parse_rounded("1e-30"), Some(0));
    assert_eq!(parse_rounded("0e999"), Some(0));
    assert_eq!(parse_rounded("18446744073709551615"), Some(u64::MAX));
    assert_eq!(parse_rounded("18446744073709551616"), None);
    assert_eq!(parse_rounded("1.9e19"), None);
    for bad in ["", ".", "e5", "1e", "-1", "1.2.3", "1e99999", "x"] {
        assert_eq!(parse_rounded(bad), None, "{bad}");
    }
}
