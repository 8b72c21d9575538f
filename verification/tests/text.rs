//! Text and number helpers.

use unidecrunch::fmt::{join, push_dec, push_hex2, push_hex4, push_padded, push_radix, push_signed_dec};
use unidecrunch::text::{
    chars_of, find_char, is_text, parse_number, split_lines, split_words, text_of, trim,
};

fn strings(parts: Vec<Vec<char>>) -> Vec<String> {
    parts.iter().map(|p| p.iter().collect()).collect()
}

#[test]
fn characters_and_back() {
    let s = "a\u{e9}\u{20ac}\u{1F600}";
    let chars = chars_of(s);
    assert_eq!(chars.len(), 4);
    assert_eq!(text_of(&chars), s);
    assert!(is_text(&chars, s));
    assert!(!is_text(&chars, "a"));
    assert_eq!(find_char(&chars, '\u{20ac}'), 2);
    assert_eq!(find_char(&chars, 'x'), 4);
}

#[test]
fn words_and_lines() {
    assert_eq!(strings(split_words(&chars_of("  ab \t c\n"))), ["ab", "c"]);
    assert_eq!(strings(split_words(&chars_of(""))), [""; 0]);
    assert_eq!(strings(split_words(&chars_of("a b"))), ["a", "b"]);
    for s in ["", "a", "a\n", "\n", "a\r\nb", "a\n\nb\n", "a\r", "\r\n\r\n", "a\rb\n"] {
        let expected: Vec<String> = s.lines().map(String::from).collect();
        assert_eq!(strings(split_lines(&chars_of(s))), expected, "{s:?}");
    }
}

#[test]
fn white_space_is_unicode_white_space() {
    for n in 0..=0x11_0000u32 {
        if let Some(c) = char::from_u32(n) {
            assert_eq!(unidecrunch::text::space(c), c.is_whitespace(), "{n:x}");
        }
    }
    let chars = chars_of(" \u{a0}x y\u{3000}\t");
    assert_eq!(text_of(trim(&chars)), "x y");
    assert_eq!(text_of(trim(&chars_of(" \n "))), "");
}

#[test]
fn numbers_are_read_like_the_standard_library_does() {
    for s in [
        "", "+", "-", "0", "+7", "-7", "007", "255", "256", "-129", "12a", "--1", "+-1", "1 ",
        "9223372036854775807", "9223372036854775808", "-9223372036854775808", "18446744073709551616",
    ] {
        let chars = chars_of(s);
        let signed = parse_number(&chars, 10, i64::MIN as i128, i64::MAX as i128);
        assert_eq!(signed, s.parse::<i64>().ok().map(|n| n as i128), "{s}");
        let byte = parse_number(&chars, 10, 0, 255);
        assert_eq!(byte, s.parse::<u8>().ok().map(|n| n as i128), "{s}");
        let hex = parse_number(&chars, 16, i64::MIN as i128, i64::MAX as i128);
        assert_eq!(hex, i64::from_str_radix(s, 16).ok().map(|n| n as i128), "{s}");
    }
}

#[test]
fn printed_numbers_read_back() {
    for n in [0u128, 9, 10, 15, 16, 255, 4096, 65535, 1 << 40] {
        let mut d = String::new();
        push_dec(&mut d, n);
        assert_eq!(d, format!("{n}"));
        assert_eq!(parse_number(&chars_of(&d), 10, 0, 1 << 64), Some(n as i128));
        let mut h = String::new();
        push_radix(&mut h, n, 16, true);
        assert_eq!(h, format!("{n:X}"));
        assert_eq!(parse_number(&chars_of(&h), 16, 0, 1 << 64), Some(n as i128));
    }
    let mut s = String::new();
    push_signed_dec(&mut s, i64::MIN);
    push_hex4(&mut s, 0x0A1F);
    push_hex2(&mut s, 0x0C);
    assert_eq!(s, format!("{}{:04x}{:02x}", i64::MIN, 0x0A1F, 0x0C));
}

#[test]
fn padding_and_joining() {
    let mut s = String::from("|");
    push_padded(&mut s, "zp", 7);
    push_padded(&mut s, "longer than", 7);
    assert_eq!(s, format!("|{:7}{:7}", "zp", "longer than"));
    let parts = vec![String::from("a"), String::from("b"), String::from("c")];
    assert_eq!(join(&parts, ", "), parts.join(", "));
    assert_eq!(join(&Vec::new(), ", "), "");
}
