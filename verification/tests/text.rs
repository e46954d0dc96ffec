use power_rename_gui::text::{chars_of, is_white, join, parse_i64, parse_usize, push_decimal, trim};

#[test]
fn decimals_have_no_leading_zeros() {
    for (n, want) in [(0usize, "0"), (7, "7"), (10, "10"), (1905, "1905"), (usize::MAX, "18446744073709551615")] {
        let mut out = String::from("n=");
        push_decimal(&mut out, n);
        assert_eq!(out, format!("n={want}"));
    }
}

#[test]
fn white_space_is_what_the_standard_library_calls_white_space() {
    for u in 0..=0x10ffffu32 {
        if let Some(c) = char::from_u32(u) {
            assert_eq!(is_white(c), c.is_whitespace(), "U+{u:04X}");
        }
    }
}

#[test]
fn trimming_keeps_inner_white_space() {
    for s in ["", " ", "\t a b \u{3000}\n", "a", "\u{a0}目录 名\u{2009}", "\u{200b}x\u{200b}"] {
        assert_eq!(trim(s), s.trim());
        assert_eq!(trim(&trim(s)), trim(s));
    }
}

#[test]
fn characters_are_listed_in_order() {
    assert_eq!(chars_of("a文→"), vec!['a', '文', '→']);
    assert!(chars_of("").is_empty());
}

#[test]
fn signed_numbers_are_read_as_the_standard_library_reads_them() {
    let cases = [
        "", "+", "-", "0", "-0", "+0", "7", "+7", "-7", "007", "--1", "+-1", "-+1", "1 ", " 1", "1a", "a1", "１",
        "9223372036854775807", "9223372036854775808", "-9223372036854775808", "-9223372036854775809",
        "18446744073709551615", "18446744073709551616", "99999999999999999999999999",
        "00000000000000000000000000000000000000000000012", "1_000", "1.5",
    ];
    for s in cases {
        assert_eq!(parse_i64(s), s.parse::<i64>().ok(), "{s:?}");
        assert_eq!(parse_usize(s), s.parse::<usize>().ok(), "{s:?}");
    }
}

#[test]
fn written_numbers_are_read_back() {
    for n in [0usize, 1, 9, 10, 99, 100, 123456789] {
        let mut out = String::new();
        push_decimal(&mut out, n);
        assert_eq!(parse_usize(&out), Some(n));
        assert_eq!(parse_i64(&out), Some(n as i64));
    }
}

#[test]
fn joining_puts_the_separator_between() {
    let none: Vec<String> = Vec::new();
    assert_eq!(join(&none, "；"), "");
    assert_eq!(join(&vec!["a".to_string()], "；"), "a");
    assert_eq!(join(&vec!["a".to_string(), "".to_string(), "b".to_string()], "；"), "a；；b");
}
