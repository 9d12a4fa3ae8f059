use memo::text::{
    chars_of, find_char, is_space_char, parse_unsigned, push_chars, push_decimal, string_of, trim,
};

fn chars(s: &str) -> Vec<char> {
    s.chars().collect()
}

#[test]
fn white_space_is_what_unicode_says() {
    for c in [' ', '\t', '\n', '\r', '\u{0B}', '\u{0C}', '\u{85}', '\u{A0}', '\u{1680}',
        '\u{2000}', '\u{200A}', '\u{2028}', '\u{2029}', '\u{202F}', '\u{205F}', '\u{3000}']
    {
        assert!(is_space_char(c));
        assert!(c.is_whitespace());
    }
    for c in ['a', '0', ':', '-', '\u{200B}', '\u{FEFF}', '\u{1F}', '\u{0E}'] {
        assert!(!is_space_char(c));
        assert!(!c.is_whitespace());
    }
}

#[test]
fn white_space_agrees_with_std_on_every_char() {
    let mut n: u32 = 0;
    while n <= 0x3100 {
        if let Some(c) = char::from_u32(n) {
            assert_eq!(is_space_char(c), c.is_whitespace());
        }
        n += 1;
    }
}

#[test]
fn find_char_gives_the_first_index_or_the_length() {
    let s = chars("a:b:c");
    assert_eq!(find_char(&s, ':', 0), 1);
    assert_eq!(find_char(&s, ':', 1), 1);
    assert_eq!(find_char(&s, ':', 2), 3);
    assert_eq!(find_char(&s, ':', 4), 5);
    assert_eq!(find_char(&s, ':', 9), 5);
    assert_eq!(find_char(&s, 'x', 0), 5);
    assert_eq!(find_char(&[], 'x', 0), 0);
}

#[test]
fn trim_cuts_both_ends() {
    assert_eq!(trim(&chars("  a b \t\n")), &chars("a b")[..]);
    assert_eq!(trim(&chars("a")), &chars("a")[..]);
    assert_eq!(trim(&chars(" \t ")), &chars("")[..]);
    assert_eq!(trim(&chars("")), &chars("")[..]);
    assert_eq!(trim(&chars("\u{A0}x\u{3000}")), &chars("x")[..]);
}

#[test]
fn parse_unsigned_reads_decimal_numbers() {
    assert_eq!(parse_unsigned(&chars("0")), Some(0));
    assert_eq!(parse_unsigned(&chars("1")), Some(1));
    assert_eq!(parse_unsigned(&chars("007")), Some(7));
    assert_eq!(parse_unsigned(&chars("+42")), Some(42));
    assert_eq!(parse_unsigned(&chars("4294967295")), Some(4294967295));
    assert_eq!(parse_unsigned(&chars("4294967296")), None);
    assert_eq!(parse_unsigned(&chars("99999999999999999999999")), None);
    assert_eq!(parse_unsigned(&chars("")), None);
    assert_eq!(parse_unsigned(&chars("+")), None);
    assert_eq!(parse_unsigned(&chars("-1")), None);
    assert_eq!(parse_unsigned(&chars("++1")), None);
    assert_eq!(parse_unsigned(&chars(" 1")), None);
    assert_eq!(parse_unsigned(&chars("1 ")), None);
    assert_eq!(parse_unsigned(&chars("a")), None);
    assert_eq!(parse_unsigned(&chars("1a")), None);
    assert_eq!(parse_unsigned(&chars("\u{664}")), None);
}

#[test]
fn parse_unsigned_agrees_with_std() {
    for s in ["0", "12", "+12", "-12", "", "+", "4294967295", "4294967296", "00000000000001", "1_0"] {
        assert_eq!(parse_unsigned(&chars(s)), s.parse::<u32>().ok());
    }
}

#[test]
fn push_decimal_appends_the_digits() {
    let mut out = String::from("id ");
    push_decimal(&mut out, 0);
    assert_eq!(out, "id 0");
    push_decimal(&mut out, 10);
    assert_eq!(out, "id 010");
    let mut out = String::new();
    push_decimal(&mut out, 4294967295);
    assert_eq!(out, "4294967295");
    let mut out = String::new();
    push_decimal(&mut out, 1203);
    assert_eq!(out, "1203");
}

#[test]
fn push_chars_appends_in_order() {
    let mut out = String::from("ab");
    push_chars(&mut out, &chars("cd\u{e9}"));
    assert_eq!(out, "abcd\u{e9}");
}

#[test]
fn string_of_and_chars_of_are_inverse() {
    let s = "m\u{e9}mo \u{1F600} one";
    assert_eq!(chars_of(s), chars(s));
    assert_eq!(string_of(&chars_of(s)), s);
    assert_eq!(chars_of(""), Vec::<char>::new());
}
