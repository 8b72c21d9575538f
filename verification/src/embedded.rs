//! The default cruncher definitions, built into the library.
//! They are evaluated in filename order, so keep the list sorted.
//!
//! Covered are the programs that jump to a depack stub at a known low address
//! ($0100, $0010, $0008, $0334, $0400 and $0410), and as the last resort any program
//! with a SYS line whose stub runs below the BASIC start. All of them select the
//! generic engine. There is no built-in definition for Time Cruncher 3.x/4.2 or
//! CrunchAB: the `timecruncher` and `crunchab` engines run where a config text
//! selects them.
//!
//! Each definition is a config text (see [`crate::toml`] for the syntax). More
//! definitions can be loaded at run time with
//! [`UniDecrunch::with_config_texts`](crate::detect::UniDecrunch::with_config_texts).

use vstd::prelude::*;

verus! {

use crate::config::{Definition, EngineKind, Entry, Params, Signature};
use crate::pattern::Tok;

/// Stubs that run on the stack page. Time Cruncher 5.x-6.x and Cruel Cruncher are
/// told apart by their behavior.
pub const JMP_0100: &'static str = r#"name = "Generic at $0100"
engine = "generic"

[detect]
base = 0x0801
any_of = ["*768 4C 00 01", "*768 4C 01 01"]
entry = "sys"

[run]
stop_pc = [0x0100, 0x0101]
exit_above = 0x0800
snap_start = 0x07FF
analyze_0100 = true
"#;

/// Stubs that run in zero page.
pub const JMP_0010: &'static str = r#"name = "Generic at $0010"
engine = "generic"

[detect]
base = 0x0801
pattern = "*768 4C 10 00"
entry = "sys"

[run]
stop_pc = 0x0010
exit_above = 0x0800
snap_start = 0x07FF
"#;

/// Stubs that run at the bottom of zero page.
pub const JMP_0008: &'static str = r#"name = "Generic at $0008"
engine = "generic"

[detect]
base = 0x0801
pattern = "*768 4C 08 00"
entry = "sys"

[run]
stop_pc = 0x0008
exit_above = 0x0800
snap_start = 0x07FF
"#;

/// Stubs that run in the tape buffer.
pub const JMP_0334: &'static str = r#"name = "Generic at $0334"
engine = "generic"

[detect]
base = 0x0801
pattern = "*768 4C 34 03"
entry = "sys"

[run]
stop_pc = 0x0334
exit_above = 0x0800
snap_start = 0x07FF
"#;

/// Stubs that run on the screen. The start address is guessed with BASIC in mind.
pub const JMP_0400: &'static str = r#"name = "Generic at $0400"
engine = "generic"

[detect]
base = 0x0801
pattern = "*768 4C 00 04"
entry = "sys"

[run]
stop_pc = 0x0400
exit_above = 0x0800
snap_start = 0x07FF
use_guess_start = true
"#;

/// Stubs that run on the screen, past its first bytes.
pub const JMP_0410: &'static str = r#"name = "Generic at $0410"
engine = "generic"

[detect]
base = 0x0801
pattern = "*768 4C 10 04"
entry = "sys"

[run]
stop_pc = 0x0410
exit_above = 0x0800
snap_start = 0x07FF
use_guess_start = true
"#;

/// The last resort: any program with a SYS line whose stub runs below the BASIC
/// start.
pub const CATCH_ALL: &'static str = r#"name = "Generic 6"
engine = "generic"

[detect]
always = true
entry = "sys"

[run]
stop_below = 0x0800
exit_above = 0x0800
exit_into_written = true
exit_quiescent = 500000
"#;

/// File names and texts of the built-in definitions.
pub open spec fn embedded_texts() -> Seq<(Seq<char>, Seq<char>)> {
    seq![
        ("50-generic-jmp-0100.toml"@, JMP_0100@),
        ("51-generic-jmp-0010.toml"@, JMP_0010@),
        ("52-generic-jmp-0008.toml"@, JMP_0008@),
        ("53-generic-jmp-0334.toml"@, JMP_0334@),
        ("54-generic-jmp-0400.toml"@, JMP_0400@),
        ("55-generic-jmp-0410.toml"@, JMP_0410@),
        ("69-generic-6-catchall.toml"@, CATCH_ALL@),
    ]
}

/// Somewhere in the first bytes, a jump to an address.
pub open spec fn jump_pattern(lo: u8, hi: u8) -> Seq<Tok> {
    seq![Tok::Gap(768), Tok::Byte(0x4C), Tok::Byte(lo), Tok::Byte(hi)]
}

/// The engine parameters where a text says nothing.
pub open spec fn default_params() -> Params {
    Params {
        stop_pc: Seq::empty(),
        stop_below: None,
        exit_above: 0x0800,
        snap_start: Seq::empty(),
        snap_to: 0x0801,
        analyze_0100: false,
        trim_page_overshoot: false,
        exit_into_written: false,
        exit_quiescent: 0,
        byteboozer_ptr: None,
        byteboozer_end_from_ptr: false,
        byteboozer_name: "Byte Boozer"@,
        use_guess_start: false,
        version: 0,
        cap: 250_000_000,
    }
}

/// The definition of a family of stubs: the program jumps to one of the addresses
/// `stop_pc` in low memory.
pub open spec fn stub_definition(
    source: Seq<char>,
    name: Seq<char>,
    patterns: Seq<Seq<Tok>>,
    stop_pc: Seq<u16>,
    analyze_0100: bool,
    use_guess_start: bool,
) -> Definition {
    Definition {
        source,
        name,
        engine: EngineKind::Generic,
        detect: Signature { base: 0x0801, always: false, patterns, entry: Entry::Sys },
        probe: None,
        run: Params {
            stop_pc,
            snap_start: seq![0x07FFu16],
            analyze_0100,
            use_guess_start,
            ..default_params()
        },
        variants: Seq::empty(),
    }
}

/// The definition that matches any program with a SYS line.
pub open spec fn catch_all_definition(source: Seq<char>, name: Seq<char>) -> Definition {
    Definition {
        source,
        name,
        engine: EngineKind::Generic,
        detect: Signature { base: 0x0801, always: true, patterns: Seq::empty(), entry: Entry::Sys },
        probe: None,
        run: Params {
            stop_below: Some(0x0800),
            exit_into_written: true,
            exit_quiescent: 500_000,
            ..default_params()
        },
        variants: Seq::empty(),
    }
}

/// What the built-in texts define.
pub open spec fn embedded_definitions() -> Seq<Definition> {
    seq![
        stub_definition(
            "50-generic-jmp-0100.toml"@,
            "Generic at $0100"@,
            seq![jump_pattern(0x00, 0x01), jump_pattern(0x01, 0x01)],
            seq![0x0100u16, 0x0101u16],
            true,
            false,
        ),
        stub_definition(
            "51-generic-jmp-0010.toml"@,
            "Generic at $0010"@,
            seq![jump_pattern(0x10, 0x00)],
            seq![0x0010u16],
            false,
            false,
        ),
        stub_definition(
            "52-generic-jmp-0008.toml"@,
            "Generic at $0008"@,
            seq![jump_pattern(0x08, 0x00)],
            seq![0x0008u16],
            false,
            false,
        ),
        stub_definition(
            "53-generic-jmp-0334.toml"@,
            "Generic at $0334"@,
            seq![jump_pattern(0x34, 0x03)],
            seq![0x0334u16],
            false,
            false,
        ),
        stub_definition(
            "54-generic-jmp-0400.toml"@,
            "Generic at $0400"@,
            seq![jump_pattern(0x00, 0x04)],
            seq![0x0400u16],
            false,
            true,
        ),
        stub_definition(
            "55-generic-jmp-0410.toml"@,
            "Generic at $0410"@,
            seq![jump_pattern(0x10, 0x04)],
            seq![0x0410u16],
            false,
            true,
        ),
        catch_all_definition("69-generic-6-catchall.toml"@, "Generic 6"@),
    ]
}

/// File names and texts of the built-in definitions.
pub fn embedded_configs() -> (v: Vec<(&'static str, &'static str)>)
    ensures
        v@.len() == embedded_texts().len(),
        forall|i: int|
            0 <= i < v@.len() ==> ((#[trigger] v@[i]).0@, v@[i].1@) == embedded_texts()[i],
{
    let mut v: Vec<(&'static str, &'static str)> = Vec::new();
    v.push(("50-generic-jmp-0100.toml", JMP_0100));
    v.push(("51-generic-jmp-0010.toml", JMP_0010));
    v.push(("52-generic-jmp-0008.toml", JMP_0008));
    v.push(("53-generic-jmp-0334.toml", JMP_0334));
    v.push(("54-generic-jmp-0400.toml", JMP_0400));
    v.push(("55-generic-jmp-0410.toml", JMP_0410));
    v.push(("69-generic-6-catchall.toml", CATCH_ALL));
    v
}

} // verus!
