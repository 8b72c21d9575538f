//! Byte patterns and BASIC start lines.

use unidecrunch::pattern::{guess_start, sys_address, Pattern, Tok};

#[test]
fn parse_and_match_exact_and_wildcard() {
    let p = Pattern::parse("A9 ?? 8D").unwrap();
    assert!(p.matches(&[0xA9, 0x42, 0x8D], 0));
    assert!(p.matches(&[0x00, 0xA9, 0xFF, 0x8D], 1));
    assert!(!p.matches(&[0xA9, 0x42, 0x8C], 0));
}

#[test]
fn gap_searches_for_anchor() {
    // up to 768 filler bytes, then 4C 00 01
    let p = Pattern::parse("*8 4C 00 01").unwrap();
    let mut ram = vec![0xEAu8; 16];
    ram[5] = 0x4C;
    ram[6] = 0x00;
    ram[7] = 0x01;
    assert!(p.matches(&ram, 0));
    // anchor outside window
    let p2 = Pattern::parse("*3 4C 00 01").unwrap();
    assert!(!p2.matches(&ram, 0));
}

#[test]
fn gap_backtracks_over_false_anchors() {
    // First 4C is a decoy (followed by wrong bytes); a later one matches.
    let p = Pattern::parse("*10 4C 00 01").unwrap();
    let ram = [
        0x4C, 0x12, 0x34, 0x4C, 0x00, 0x01, 0x00, 0x00, 0x00, 0x00, 0x00,
    ];
    assert!(p.matches(&ram, 0));
}

#[test]
fn mid_pattern_gap() {
    // prefix, gap, then suffix
    let p = Pattern::parse("A9 01 *4 20 34 03").unwrap();
    assert!(p.matches(&[0xA9, 0x01, 0xEA, 0xEA, 0x20, 0x34, 0x03], 0));
}

#[test]
fn sys_address_parses_digits_and_spaces() {
    let mut ram = vec![0u8; 0x900];
    // 0801: link ptr, line#, SYS token, " 2061", 0
    ram[0x801..0x80D].copy_from_slice(&[
        0x0B, 0x08, 0x0A, 0x00, 0x9E, b' ', b'2', b'0', b'6', b'1', 0x00, 0x00,
    ]);
    assert_eq!(sys_address(&ram), 2061);
}

#[test]
fn sys_address_absent() {
    let ram = vec![0u8; 0x900];
    assert_eq!(sys_address(&ram), 0);
}

#[test]
fn guess_start_prefers_0801_only_when_plausible() {
    let mut ram = vec![0u8; 0x1000];
    // no SYS, nothing at $0802: fall through to first non-zero byte
    ram[0x900] = 0x99;
    assert_eq!(guess_start(&ram, 0x8F0), 0x900);
    // classic BASIC link pointer at $0802 -> snap to $0801
    ram[0x802] = 0x08;
    assert_eq!(guess_start(&ram, 0x8F0), 0x0801);
}

fn toks(text: &str) -> Vec<Tok> {
    Pattern::parse(text).unwrap().toks
}

fn error(text: &str) -> String {
    Pattern::parse(text).unwrap_err()
}

#[test]
fn tokens_are_read() {
    assert_eq!(toks("A9 ?? *12 4c 5"), [
        Tok::Byte(0xA9),
        Tok::Any,
        Tok::Gap(12),
        Tok::Byte(0x4C),
        Tok::Byte(5),
    ]);
    assert_eq!(toks(""), []);
    assert_eq!(toks(" \t\n "), []);
    // Any white space separates, also outside of ASCII.
    assert_eq!(toks("01\u{2003}02\u{85}03"), [Tok::Byte(1), Tok::Byte(2), Tok::Byte(3)]);
    assert_eq!(toks("*+5 01"), [Tok::Gap(5), Tok::Byte(1)]);
    assert_eq!(toks("+5"), [Tok::Byte(5)]);
    assert!(Pattern::default().toks.is_empty());
}

#[test]
fn bad_tokens_are_named() {
    assert_eq!(error("A9 *x 4C"), "bad gap token '*x' (want *N with decimal N)");
    assert_eq!(error("*"), "bad gap token '*' (want *N with decimal N)");
    assert_eq!(error("*-1 00"), "bad gap token '*-1' (want *N with decimal N)");
    assert_eq!(
        error("*99999999999999999999999 00"),
        "bad gap token '*99999999999999999999999' (want *N with decimal N)"
    );
    assert_eq!(error("GG"), "bad byte token 'GG' (want two hex digits)");
    assert_eq!(error("A9 -"), "bad byte token '-' (want two hex digits)");
    assert_eq!(error("\u{e9}"), "bad byte token '\u{e9}' (want two hex digits)");
    assert_eq!(error("A9F"), "bad token 'A9F'");
    assert_eq!(error("\u{20ac}"), "bad token '\u{20ac}'");
    // The first bad token is reported.
    assert_eq!(error("A9F GG"), "bad token 'A9F'");
}

#[test]
fn gaps_need_an_anchor() {
    let message = "a *N gap must be followed by an exact byte";
    assert_eq!(error("A9 *4"), message);
    assert_eq!(error("*4 ?? 00"), message);
    assert_eq!(error("*4 *4"), message);
    assert_eq!(toks("*4 *5 00"), [Tok::Gap(4), Tok::Gap(5), Tok::Byte(0)]);
}

#[test]
fn consecutive_gaps_accumulate() {
    let p = Pattern::parse("*2 *3 4C").unwrap();
    let mut ram = vec![0u8; 10];
    ram[5] = 0x4C;
    assert!(p.matches(&ram, 0));
    ram[5] = 0;
    ram[6] = 0x4C;
    assert!(!p.matches(&ram, 0));
    assert!(p.matches(&ram, 1));
}

#[test]
fn huge_gaps_reach_the_end_of_memory() {
    let p = Pattern { toks: vec![Tok::Gap(usize::MAX), Tok::Gap(usize::MAX), Tok::Byte(7)] };
    let mut ram = vec![0u8; 100];
    assert!(!p.matches(&ram, 0));
    ram[99] = 7;
    assert!(p.matches(&ram, 0));
    assert!(p.matches(&ram, 99));
    assert!(!p.matches(&ram, 100));
}

#[test]
fn gap_without_an_anchor_matches_nothing() {
    let ram = vec![0u8; 10];
    assert!(!Pattern { toks: vec![Tok::Gap(3)] }.matches(&ram, 0));
    assert!(!Pattern { toks: vec![Tok::Gap(3), Tok::Any] }.matches(&ram, 0));
    assert!(!Pattern { toks: vec![Tok::Gap(3), Tok::Gap(3), Tok::Any] }.matches(&ram, 0));
}

#[test]
fn matches_end_with_memory() {
    let p = Pattern::parse("01 ??").unwrap();
    assert!(p.matches(&[0, 1, 2], 1));
    assert!(!p.matches(&[0, 1], 1));
    assert!(!p.matches(&[0, 1], 2));
    assert!(!p.matches(&[0, 1], 17));
    // The empty pattern matches anywhere.
    assert!(Pattern::parse("").unwrap().matches(&[], 5));
}

#[test]
fn wildcards_and_wider_gaps_accept_more() {
    let ram = [1u8, 2, 3, 4, 5];
    assert!(Pattern::parse("01 02 03").unwrap().matches(&ram, 0));
    assert!(Pattern::parse("01 ?? 03").unwrap().matches(&ram, 0));
    for n in 2..8 {
        assert!(Pattern::parse(&format!("01 *{n} 04")).unwrap().matches(&ram, 0));
    }
    assert!(!Pattern::parse("01 *1 04").unwrap().matches(&ram, 0));
}

fn basic_line(at: usize, tail: &[u8]) -> Vec<u8> {
    let mut ram = vec![0u8; 0x900];
    ram[at] = 0x9E;
    ram[at + 1..at + 1 + tail.len()].copy_from_slice(tail);
    ram
}

#[test]
fn sys_address_skips_spaces_and_parentheses() {
    assert_eq!(sys_address(&basic_line(0x805, b" (2064)")), 2064);
    assert_eq!(sys_address(&basic_line(0x805, b"2 0 6 1")), 2061);
    assert_eq!(sys_address(&basic_line(0x805, b"2061:")), 2061);
    assert_eq!(sys_address(&basic_line(0x805, b"65535")), 65535);
    assert_eq!(sys_address(&basic_line(0x805, b"65536")), 0);
    assert_eq!(sys_address(&basic_line(0x805, b"A2061")), 0);
    assert_eq!(sys_address(&basic_line(0x805, b"")), 0);
}

#[test]
fn sys_token_is_searched_in_the_first_line_only() {
    assert_eq!(sys_address(&basic_line(0x820, b"2061")), 2061);
    assert_eq!(sys_address(&basic_line(0x821, b"2061")), 0);
    assert_eq!(sys_address(&basic_line(0x804, b"2061")), 0);
    assert_eq!(sys_address(&[0u8; 0x805]), 0);
    // The number may run to the end of memory.
    let mut ram = vec![0u8; 0x80A];
    ram[0x805..].copy_from_slice(b"\x9e2061");
    assert_eq!(sys_address(&ram), 2061);
}

#[test]
fn sys_address_multiplies_with_pi() {
    assert_eq!(sys_address(&basic_line(0x805, b"\xff*656")), 2060);
    assert_eq!(sys_address(&basic_line(0x805, b"\xff\xac656")), 2060);
    assert_eq!(sys_address(&basic_line(0x805, b"\xff656")), 2060);
    // The sign only counts between the token and the digits.
    assert_eq!(sys_address(&basic_line(0x805, b"656\xff")), 656);
    assert_eq!(sys_address(&basic_line(0x805, b"*656")), 0);
    assert_eq!(sys_address(&basic_line(0x805, b"\xff\xff656")), 0);
    assert_eq!(sys_address(&basic_line(0x805, b"\xff6*56")), 18);
}

#[test]
fn product_with_pi_is_exact_for_every_factor() {
    for n in 0..=65535u32 {
        let mut tail = vec![0xFF];
        tail.extend_from_slice(format!("{n}").as_bytes());
        let expected = (std::f64::consts::PI * n as f64) as u16;
        assert_eq!(sys_address(&basic_line(0x805, &tail)), expected, "{n}");
    }
}

#[test]
fn guess_start_cases() {
    let mut ram = vec![0u8; 0x1000];
    // An exact hit wins.
    assert_eq!(guess_start(&ram, 0x0801), 0x0801);
    // Nothing but zeros keeps the start.
    assert_eq!(guess_start(&ram, 0x0900), 0x0900);
    // Beyond the end of memory, too.
    assert_eq!(guess_start(&ram, 0x2000), 0x2000);
    ram[0x0FFF] = 1;
    assert_eq!(guess_start(&ram, 0x0900), 0x0FFF);
    assert_eq!(guess_start(&ram, 0x0FFF), 0x0FFF);
    // A SYS line above $0801 means BASIC.
    ram[0x805..0x80A].copy_from_slice(b"\x9e2061");
    assert_eq!(guess_start(&ram, 0x0900), 0x0801);
    // SYS 2049 ($0801) itself is no such line.
    ram[0x805..0x80A].copy_from_slice(b"\x9e2049");
    assert_eq!(guess_start(&ram, 0x0900), 0x0FFF);
}
