use exercises::guessing_game::parse::{char_is_whitespace, parse_guess};

#[test]
fn plain_numbers_are_guesses() {
    assert_eq!(parse_guess("0"), Some(0));
    assert_eq!(parse_guess("1"), Some(1));
    assert_eq!(parse_guess("42"), Some(42));
    assert_eq!(parse_guess("100"), Some(100));
    assert_eq!(parse_guess("12345"), Some(12345));
}

#[test]
fn white_space_around_a_number_is_dropped() {
    assert_eq!(parse_guess("42\n"), Some(42));
    assert_eq!(parse_guess("42\r\n"), Some(42));
    assert_eq!(parse_guess("  \t 7  "), Some(7));
    assert_eq!(parse_guess("\u{3000}12\u{2003}"), Some(12));
    assert_eq!(parse_guess("\u{85}\u{a0}\u{1680}9\u{2028}\u{2029}\u{202f}\u{205f}"), Some(9));
}

#[test]
fn white_space_inside_a_number_is_not() {
    assert_eq!(parse_guess("4 2"), None);
    assert_eq!(parse_guess("+ 42"), None);
    assert_eq!(parse_guess("4\t2\n"), None);
}

#[test]
fn a_plus_sign_may_lead() {
    assert_eq!(parse_guess("+7"), Some(7));
    assert_eq!(parse_guess(" +100\n"), Some(100));
    assert_eq!(parse_guess("+0"), Some(0));
}

#[test]
fn a_sign_alone_is_no_number() {
    assert_eq!(parse_guess("+"), None);
    assert_eq!(parse_guess("-"), None);
    assert_eq!(parse_guess("++1"), None);
    assert_eq!(parse_guess("1+"), None);
}

#[test]
fn negative_numbers_are_no_guesses() {
    assert_eq!(parse_guess("-1"), None);
    assert_eq!(parse_guess("-0"), None);
    assert_eq!(parse_guess(" -42\n"), None);
}

#[test]
fn empty_and_blank_lines_are_no_guesses() {
    assert_eq!(parse_guess(""), None);
    assert_eq!(parse_guess("\n"), None);
    assert_eq!(parse_guess("   \t\r\n"), None);
}

#[test]
fn words_are_no_guesses() {
    assert_eq!(parse_guess("abc"), None);
    assert_eq!(parse_guess("forty-two"), None);
    assert_eq!(parse_guess("42abc"), None);
    assert_eq!(parse_guess("abc42"), None);
    assert_eq!(parse_guess("4_2"), None);
    assert_eq!(parse_guess("4.2"), None);
    assert_eq!(parse_guess("0x2a"), None);
    assert_eq!(parse_guess("1e3"), None);
}

#[test]
fn digits_outside_ascii_are_no_digits() {
    assert_eq!(parse_guess("\u{ff14}\u{ff12}"), None);
    assert_eq!(parse_guess("\u{0664}\u{0662}"), None);
    assert_eq!(parse_guess("4\u{00b2}"), None);
}

#[test]
fn a_zero_width_space_is_no_white_space() {
    assert_eq!(parse_guess("12\u{200b}"), None);
    assert_eq!(parse_guess("\u{180e}12"), None);
    assert_eq!(parse_guess("\u{feff}12"), None);
}

#[test]
fn leading_zeros_do_not_count() {
    assert_eq!(parse_guess("007"), Some(7));
    assert_eq!(parse_guess("0000000000000000000000000000000000000042"), Some(42));
    assert_eq!(parse_guess("+00000000004294967295"), Some(u32::MAX));
}

#[test]
fn the_largest_guess_is_the_largest_u32() {
    assert_eq!(parse_guess("4294967295"), Some(4294967295));
    assert_eq!(parse_guess("4294967296"), None);
    assert_eq!(parse_guess("4294967300"), None);
    assert_eq!(parse_guess("42949672950"), None);
    assert_eq!(parse_guess("99999999999999999999999999999999999999999999"), None);
}

#[test]
fn an_overflowing_number_with_a_letter_after_it_is_no_guess() {
    assert_eq!(parse_guess("99999999999x"), None);
    assert_eq!(parse_guess("x99999999999"), None);
}

#[test]
fn parse_guess_reads_what_trim_and_parse_read() {
    let lines = [
        "", " ", "0", "1", "42", "100", "101", "+5", "-5", "+", "-", "++5", "+-5", "5+", " 5 ",
        "\t5\n", "5\r\n", "5 5", "4294967295", "4294967296", "04294967295", "18446744073709551616",
        "abc", "4a", "a4", "4.0", "4,0", "\u{a0}4\u{a0}", "\u{200b}4", "4\u{200b}", "\u{2000}4",
        "\u{200a}4", "\u{200c}4", "\u{1680}4", "\u{180e}4", "\u{3000}4\u{3000}", "\u{ff14}",
        "\u{0b}4\u{0c}", "\u{1c}4", "\u{1f}4", "\u{85}4", "\u{84}4", "\u{86}4", "4\u{2028}",
        "4\u{2029}", "4\u{202a}", "4\u{202f}", "4\u{205f}", "4\u{2060}", "\n\n4\n\n", "0000",
        "+0000", "-0000", "\u{0664}", "1_000", "\u{0661}\u{0662}\u{0663}", " + 1", "\u{0661}", "1 ", " 1", "\u{0}1", "1\u{0}",
    ];
    for line in lines {
        assert_eq!(parse_guess(line), line.trim().parse::<u32>().ok(), "line {:?}", line);
    }
}

#[test]
fn every_number_up_to_a_thousand_reads_back() {
    for n in 0u32..=1000 {
        assert_eq!(parse_guess(&format!("{}", n)), Some(n));
        assert_eq!(parse_guess(&format!("  +{}\n", n)), Some(n));
        assert_eq!(parse_guess(&format!("{:08}", n)), Some(n));
    }
}

#[test]
fn numbers_around_the_upper_limit_read_back_or_fail() {
    for n in (u32::MAX as u64 - 50)..=(u32::MAX as u64 + 50) {
        let expected = if n <= u32::MAX as u64 { Some(n as u32) } else { None };
        assert_eq!(parse_guess(&format!("{}", n)), expected);
    }
}

#[test]
fn white_space_is_what_the_standard_library_calls_white_space() {
    for n in 0u32..=0x10FFFF {
        if let Some(c) = char::from_u32(n) {
            assert_eq!(char_is_whitespace(c), c.is_whitespace(), "U+{:04X}", n);
        }
    }
}

#[test]
fn white_space_characters_by_name() {
    for c in [' ', '\t', '\n', '\r', '\u{0b}', '\u{0c}', '\u{85}', '\u{a0}', '\u{3000}'] {
        assert!(char_is_whitespace(c));
    }
    for c in ['0', 'a', '+', '-', '\u{0}', '\u{8}', '\u{e}', '\u{200b}', '\u{180e}', '\u{feff}'] {
        assert!(!char_is_whitespace(c));
    }
}
