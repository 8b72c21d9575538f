//! Config files.

use unidecrunch::config::{load_str, type_error, EngineKind, Entry};

#[test]
fn parses_minimal_config() {
    let cfg = load_str(
        r#"
# a comment
name = "Test"
engine = "generic"
[detect]
base = 0x0801
pattern = "*768 4C 00 01"
entry = "sys"
[run]
stop_pc = [0x0100, 0x0101]
exit_above = 0x0800
"#,
        "test.toml",
    )
    .unwrap();
    assert_eq!(cfg.name, "Test");
    assert_eq!(cfg.engine, EngineKind::Generic);
    assert_eq!(cfg.stop_pc, vec![0x100, 0x101]);
    assert_eq!(cfg.exit_above, 0x800);
    assert_eq!(cfg.entry, Entry::Sys);
}

#[test]
fn multiline_pattern_array_and_variant() {
    let cfg = load_str(
        r#"
name = "T"
engine = "generic"
[detect]
pattern = [
    "A9 01",   # first line
    "8D 86 02",
]
entry = 0x0818
[[variant]]
name = "V"
base = 0x0900
start_adjust = 10
pattern = "AA BB"
"#,
        "t.toml",
    )
    .unwrap();
    assert_eq!(cfg.detect_patterns.len(), 1);
    assert_eq!(cfg.detect_patterns[0].toks.len(), 5);
    assert_eq!(cfg.variants.len(), 1);
    assert_eq!(cfg.variants[0].start_adjust, 10);
    assert_eq!(cfg.entry, Entry::At(0x0818));
}

#[test]
fn errors_name_the_file_and_line() {
    let err = load_str("name = \"x\"\nengine = \"generic\"\nbad line\n", "f.toml").unwrap_err();
    assert!(err.contains("f.toml:3"), "{err}");
}

/// A config that loads, with extra lines at the top, in [detect] and in [run].
fn text(top: &str, detect: &str, run: &str) -> String {
    format!(
        "name = \"N\"\nengine = \"generic\"\n{top}\n[detect]\npattern = \"A9\"\nentry = \"sys\"\n{detect}\n[run]\n{run}\n"
    )
}

fn error(text: &str) -> String {
    load_str(text, "f.toml").unwrap_err()
}

#[test]
fn defaults_fill_in() {
    let c = load_str(&text("", "", ""), "f.toml").unwrap();
    assert_eq!(c.source, "f.toml");
    assert_eq!(c.detect_base, 0x0801);
    assert!(!c.detect_always);
    assert!(c.probe.is_none());
    assert!(c.stop_pc.is_empty() && c.snap_start.is_empty());
    assert_eq!(c.stop_below, None);
    assert_eq!((c.exit_above, c.snap_to), (0x0800, 0x0801));
    assert!(!c.analyze_0100 && !c.trim_page_overshoot && !c.exit_into_written);
    assert!(!c.use_guess_start && !c.byteboozer_end_from_ptr);
    assert_eq!(c.exit_quiescent, 0);
    assert_eq!(c.byteboozer_ptr, None);
    assert_eq!(c.byteboozer_name, "Byte Boozer");
    assert_eq!((c.version, c.cap), (0, 250_000_000));
    assert!(c.variants.is_empty());
}

#[test]
fn every_run_key_is_read() {
    let c = load_str(
        &text(
            "",
            "",
            "stop_pc = 0x0100\nstop_below = 512\nexit_above = 0x07ff\nsnap_start = [1, 2]\n\
             snap_to = 3\nanalyze_0100 = true\ntrim_page_overshoot = true\n\
             exit_into_written = true\nexit_quiescent = 77\nbyteboozer_ptr = 0xFB\n\
             byteboozer_end_from_ptr = true\nbyteboozer_name = \"BB\"\nuse_guess_start = true\n\
             version = 42\ncap = 1000",
        ),
        "f.toml",
    )
    .unwrap();
    assert_eq!(c.stop_pc, [0x100]);
    assert_eq!(c.stop_below, Some(512));
    assert_eq!((c.exit_above, c.snap_to), (0x07FF, 3));
    assert_eq!(c.snap_start, [1, 2]);
    assert!(c.analyze_0100 && c.trim_page_overshoot && c.exit_into_written);
    assert_eq!(c.exit_quiescent, 77);
    assert_eq!(c.byteboozer_ptr, Some(0xFB));
    assert!(c.byteboozer_end_from_ptr && c.use_guess_start);
    assert_eq!(c.byteboozer_name, "BB");
    assert_eq!((c.version, c.cap), (42, 1000));
}

#[test]
fn probe_section_is_read() {
    let base = "name = \"N\"\nengine = \"crunchab\"\n[detect]\npattern = \"A9\"\n";
    let probe = "[probe]\nentry = 1\ntarget = 2\nend_ptr = 3\nverify_base = 4\n";
    let c = load_str(&format!("{base}{probe}verify_pattern = \"A9 ??\"\n"), "f.toml").unwrap();
    assert_eq!(c.engine, EngineKind::CrunchAB);
    assert_eq!(c.entry, Entry::Probed);
    let p = c.probe.unwrap();
    assert_eq!((p.entry, p.target, p.cap, p.end_ptr, p.verify_base), (1, 2, 2_000_000, 3, 4));
    assert_eq!(p.verify_pattern.toks.len(), 2);
    assert_eq!(
        error(&format!("{base}{probe}")),
        "f.toml: [probe] missing `verify_pattern`"
    );
    assert_eq!(
        error(&format!("{base}[probe]\nentry = 1\n")),
        "f.toml: [probe] missing `target`"
    );
    assert_eq!(error(base), "f.toml: engine crunchab needs a [probe] section");
}

#[test]
fn several_signatures_and_always() {
    let c = load_str(&text("", "any_of = [\"01\", \"02 03\"]", ""), "f.toml").unwrap();
    assert_eq!(c.detect_patterns.len(), 3);
    assert_eq!(c.detect_patterns[2].toks.len(), 2);
    let c = load_str(
        "name = \"N\"\nengine = \"timecruncher\"\n[detect]\nalways = true\nentry = 1\n",
        "f.toml",
    )
    .unwrap();
    assert_eq!(c.engine, EngineKind::TimeCruncher);
    assert!(c.detect_always && c.detect_patterns.is_empty());
    assert_eq!(
        error("name = \"N\"\nengine = \"generic\"\n[detect]\nentry = 1\n"),
        "f.toml: [detect] needs `pattern`, `any_of` or `always = true`"
    );
}

#[test]
fn missing_parts_are_named() {
    assert_eq!(error(""), "f.toml: missing top-level `name`");
    assert_eq!(error("name = \"N\"\n"), "f.toml: missing top-level `engine`");
    assert_eq!(
        error("name = \"N\"\nengine = \"x\"\n"),
        "f.toml: unknown engine \"x\""
    );
    assert_eq!(
        error("name = \"N\"\nengine = \"generic\"\n"),
        "f.toml: missing [detect] section"
    );
    assert_eq!(
        error("name = \"N\"\nengine = \"generic\"\n[detect]\npattern = \"A9\"\n"),
        "f.toml: [detect] needs `entry` for engine != crunchab"
    );
}

#[test]
fn wrong_types_are_shown() {
    assert_eq!(error("name = 5\n"), "f.toml: name must be a string, got Int(5)");
    assert_eq!(
        error("name = [\"a\", \"b\"]\n"),
        "f.toml: name must be a string, got StrArr([\"a\", \"b\"])"
    );
    assert_eq!(
        error("name = [1, -2]\n"),
        "f.toml: name must be a string, got IntArr([1, -2])"
    );
    assert_eq!(error("name = true\n"), "f.toml: name must be a string, got Bool(true)");
    assert_eq!(
        error(&text("", "base = 0x10000", "")),
        "f.toml: base must be a 16-bit integer, got Int(65536)"
    );
    assert_eq!(
        error(&text("", "", "cap = -1")),
        "f.toml: cap must be a non-negative integer, got Int(-1)"
    );
    assert_eq!(
        error(&text("", "", "analyze_0100 = 1")),
        "f.toml: analyze_0100 must be true/false, got Int(1)"
    );
    assert_eq!(
        error(&text("", "", "stop_pc = \"x\"")),
        "f.toml: stop_pc must be an integer or integer array, got Str(\"x\")"
    );
    assert_eq!(
        error(&text("", "", "stop_pc = [1, 70000, 80000]")),
        "f.toml: stop_pc: 70000 out of 16-bit range"
    );
    assert_eq!(
        error(&text("", "", "byteboozer_ptr = 0x1FF")),
        "f.toml: byteboozer_ptr must be a zero-page address, got 0x1ff"
    );
    assert_eq!(
        error("name = \"N\"\nengine = \"generic\"\n[detect]\npattern = \"A9\"\nentry = \"run\"\n"),
        "f.toml: entry must be \"sys\" or an address, got Str(\"run\")"
    );
    assert_eq!(
        error("name = \"N\"\nengine = \"generic\"\n[detect]\npattern = true\n"),
        "f.toml: pattern must be a pattern string or array, got Bool(true)"
    );
}

#[test]
fn shown_strings_are_escaped() {
    assert_eq!(
        error(&text("", "base = \"a\tb\\\"", "")),
        "f.toml: base must be a 16-bit integer, got Str(\"a\\tb\\\\\")"
    );
}

#[test]
fn pattern_errors_name_the_key() {
    assert_eq!(
        error("name = \"N\"\nengine = \"generic\"\n[detect]\npattern = \"XYZ\"\n"),
        "f.toml: pattern: bad token 'XYZ'"
    );
    assert_eq!(
        error(&text("", "any_of = [\"01\", \"*2\"]", "")),
        "f.toml: any_of[1]: a *N gap must be followed by an exact byte"
    );
}

#[test]
fn variants_are_checked_one_by_one() {
    let good = "[[variant]]\nname = \"V\"\nbase = 1\npattern = \"A9\"\n";
    assert_eq!(
        error(&format!("{}{good}[[variant]]\nname = \"W\"\n", text("", "", ""))),
        "f.toml [[variant]] #2: missing `base`"
    );
    assert_eq!(
        error(&format!("{}[[variant]]\nbase = 1\n", text("", "", ""))),
        "f.toml [[variant]] #1: missing `name`"
    );
    assert_eq!(
        error(&format!("{}[[variant]]\nname = \"V\"\nbase = 1\n", text("", "", ""))),
        "f.toml [[variant]] #1: missing `pattern`"
    );
    assert_eq!(
        error(&format!("{}{good}start_adjust = \"1\"\n", text("", "", ""))),
        "f.toml [[variant]] #1: start_adjust must be an integer, got Str(\"1\")"
    );
    let c = load_str(&format!("{}{good}start_adjust = -3\n", text("", "", "")), "f.toml").unwrap();
    assert_eq!(c.variants[0].start_adjust, -3);
    // 2^32 - 1 as 32 bits is -1, 2^31 is the lowest number.
    let c = load_str(
        &format!("{}{good}start_adjust = 0xFFFFFFFF\n", text("", "", "")),
        "f.toml",
    )
    .unwrap();
    assert_eq!(c.variants[0].start_adjust, -1);
    let c = load_str(
        &format!("{}{good}start_adjust = 0x80000000\n", text("", "", "")),
        "f.toml",
    )
    .unwrap();
    assert_eq!(c.variants[0].start_adjust, i32::MIN);
}

#[test]
fn syntax_errors_name_the_line() {
    assert_eq!(error("\n\nfoo\n"), "f.toml:3: expected key = value, got: foo");
    assert_eq!(error("a = \"x\n"), "f.toml:1: unterminated string: \"x");
    assert_eq!(error("a = \"\n"), "f.toml:1: unterminated string: \"");
    assert_eq!(error("a = 12x\n"), "f.toml:1: bad value: 12x");
    assert_eq!(error("a = 0x\n"), "f.toml:1: bad value: 0x");
    assert_eq!(error("a =\n"), "f.toml:1: bad value: ");
    assert_eq!(error("a = 99999999999999999999\n"), "f.toml:1: bad value: 99999999999999999999");
    assert_eq!(
        error("[[ foo ]]\n"),
        "f.toml:1: unknown array section [[ foo ]] (only [[variant]])"
    );
    assert_eq!(error("a = [1,\n2,\n"), "f.toml:1: unterminated array for key a");
    assert_eq!(error("a = [1] x\n"), "f.toml:1: malformed array for key a");
    assert_eq!(error("a = []\n"), "f.toml:1: empty array");
    assert_eq!(error("a = [1, \"x\"]\n"), "f.toml:1: array mixes strings and integers");
    assert_eq!(
        error("a = [true]\n"),
        "f.toml:1: unsupported array element: Bool(true)"
    );
    assert_eq!(error("\na = [1, y]\n"), "f.toml:2: bad value: y");
}

#[test]
fn lenient_syntax() {
    // Comments, quotes with comment signs, CRLF line ends, hexadecimal with a sign,
    // trailing commas, brackets in strings, the first of two equal keys.
    let c = load_str(
        "name = \"a # b\" # comment\r\nengine=\"generic\"\r\n  [ detect ]\r\n\
         any_of = [ \"01\", # one\r\n \"02\", ,\r\n]\r\nentry = 0X0810\r\nentry = 1\r\n\
         [run]\r\nstop_pc = +16\r\nbyteboozer_name = \"[x,y]\"\r\n",
        "f.toml",
    )
    .unwrap();
    assert_eq!(c.name, "a # b");
    assert_eq!(c.detect_patterns.len(), 2);
    assert_eq!(c.entry, Entry::At(0x0810));
    assert_eq!(c.stop_pc, [16]);
    assert_eq!(c.byteboozer_name, "[x,y]");
    // A negative hexadecimal number reads as such.
    assert_eq!(
        error(&text("", "base = 0x-5", "")),
        "f.toml: base must be a 16-bit integer, got Int(-5)"
    );
}

#[test]
fn versions_are_truncated_to_32_bits() {
    let c = load_str(&text("", "", "version = 0x10000002A"), "f.toml").unwrap();
    assert_eq!(c.version, 42);
}

#[test]
fn type_errors_quote_what_they_are_given() {
    assert_eq!(
        type_error("f.toml", "base", "a 16-bit integer", "Int(-1)"),
        "f.toml: base must be a 16-bit integer, got Int(-1)"
    );
}

#[test]
fn written_values_are_read_back() {
    let c = load_str(
        "name = \"A name, with = and [brackets]\"\nengine = \"generic\"\n\n\
         [detect]\nentry = \"sys\"\nany_of = [\"A9 34\", \"*768 4C 00 01\", \"??\"]\n\n\
         [run]\nstop_pc = [0x0100, 257, 0X0102]\nexit_above = 2048\ncap = 500000\n\
         analyze_0100 = true\n",
        "t.toml",
    )
    .unwrap();
    assert_eq!(c.name, "A name, with = and [brackets]");
    assert_eq!(c.detect_patterns.len(), 3);
    assert_eq!(c.detect_patterns[1].toks.len(), 4);
    assert_eq!(c.stop_pc, vec![0x0100, 0x0101, 0x0102]);
    assert_eq!(c.exit_above, 0x0800);
    assert_eq!(c.cap, 500_000);
    assert!(c.analyze_0100);
}
