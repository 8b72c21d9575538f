//! The unpack engines on small hand-made depackers.

use unidecrunch::config::{load_str, CruncherConfig};
use unidecrunch::engine::generic::cruel_2x_pattern;
use unidecrunch::engine::{self, EngineResult};
use unidecrunch::pattern::Pattern;
use unidecrunch::Machine;

fn config(engine: &str, run: &str) -> CruncherConfig {
    let probe = if engine == "crunchab" {
        "[probe]\nentry = 1\ntarget = 2\nend_ptr = 3\nverify_base = 4\nverify_pattern = \"A9\"\n"
    } else {
        ""
    };
    load_str(
        &format!(
            "name = \"N\"\nengine = \"{engine}\"\n[detect]\nalways = true\nentry = 0x0810\n[run]\n{run}\n{probe}"
        ),
        "t.toml",
    )
    .unwrap()
}

/// A machine with a three-byte program `JMP stub` at $0810, ready to run it.
fn machine(stub_at: u16, stub: &[u8]) -> Machine {
    let mut m = Machine::new();
    m.mem
        .load_prg(&[0x10, 0x08, 0x4C, stub_at as u8, (stub_at >> 8) as u8])
        .unwrap();
    put(&mut m, stub_at, stub);
    m.cpu.reset_at(0x0810);
    m
}

fn put(m: &mut Machine, at: u16, bytes: &[u8]) {
    m.mem.ram[at as usize..at as usize + bytes.len()].copy_from_slice(bytes);
}

fn run(cfg: &CruncherConfig, m: &mut Machine) -> (EngineResult, Vec<String>) {
    let mut log = Vec::new();
    let r = engine::run(cfg, None, None, m, &mut log);
    (r, log)
}

/// Code that fills whole pages through ($FB),Y and then jumps. It runs anywhere.
fn filler(from: u8, to: u8, target: u16) -> Vec<u8> {
    filler_via(0xFB, from, to, target)
}

fn filler_via(ptr: u8, from: u8, to: u8, target: u16) -> Vec<u8> {
    vec![
        0xA9, 0x00, 0x85, ptr, 0xA9, from, 0x85, ptr + 1, 0xA0, 0x00, 0xA9, 0xAA, 0x91, ptr, 0xC8,
        0xD0, 0xFB, 0xE6, ptr + 1, 0xA5, ptr + 1, 0xC9, to, 0x90, 0xF1, 0x4C, target as u8,
        (target >> 8) as u8,
    ]
}

/// Code that copies forward through abs,X and then down through ($FB),Y, each one
/// page, and jumps to where the copy starts.
fn copy_then_reverse(low: u16) -> Vec<u8> {
    let high = low + 0x100;
    vec![
        0xA2, 0x00, 0x9D, low as u8, (low >> 8) as u8, 0xE8, 0xD0, 0xFA, 0xA9, high as u8, 0x85,
        0xFB, 0xA9, (high >> 8) as u8, 0x85, 0xFC, 0xA0, 0xFF, 0x91, 0xFB, 0x88, 0xC0, 0xFF, 0xD0,
        0xF9, 0x4C, high as u8, (high >> 8) as u8,
    ]
}

#[test]
fn failed_result_is_empty() {
    let r = EngineResult::failed();
    assert!(!r.ok && r.name.is_none());
    assert_eq!((r.start, r.real_start, r.end, r.jump_start), (0, 0, 0, 0));
}

#[test]
fn generic_reads_the_largest_range() {
    let mut m = machine(0x0100, &filler(0x20, 0x22, 0x2000));
    let (r, log) = run(&config("generic", "stop_pc = 0x0100"), &mut m);
    assert!(r.ok && r.name.is_none());
    assert_eq!((r.start, r.real_start, r.end, r.jump_start), (0x2000, 0x2000, 0x21FF, 0x2000));
    assert_eq!(log[0], "phase 1 done: pc=$0100 after 1 instructions");
    assert_eq!(log[1], "phase 2: ok, jumped to $2000 after 1552 instructions (avg pc $112)");
    assert!(log[2].starts_with("Write ranges: 1 ("), "{}", log[2]);
    assert_eq!(log.len(), 3);
    assert_eq!(m.cpu.pc, 0x2000);
}

#[test]
fn generic_reports_an_unreached_stub() {
    let mut m = machine(0x0900, &[0x4C, 0x00, 0x09]);
    let (r, log) = run(&config("generic", "stop_pc = [0x0100, 0x0101]\ncap = 10"), &mut m);
    assert!(!r.ok && r.jump_start == 0);
    assert_eq!(log, ["phase 1: never reached stop_pc [256, 257]/below None (pc=$0900)"]);
    let mut m = machine(0x0900, &[0x02]);
    let (r, log) = run(&config("generic", "stop_below = 0x0200"), &mut m);
    assert!(!r.ok);
    assert_eq!(log, ["phase 1: never reached stop_pc []/below Some(512) (pc=$0901)"]);
}

#[test]
fn generic_stops_below_an_address() {
    let mut m = machine(0x0334, &filler(0x20, 0x22, 0x2000));
    let (r, log) = run(&config("generic", "stop_below = 0x0400"), &mut m);
    assert!(r.ok);
    assert_eq!((r.start, r.end), (0x2000, 0x21FF));
    assert_eq!(log[0], "phase 1 done: pc=$0334 after 1 instructions");
}

#[test]
fn generic_fails_at_the_cap_or_on_a_halt() {
    let mut m = machine(0x0100, &[0x4C, 0x00, 0x01]);
    let (r, log) = run(&config("generic", "stop_pc = 0x0100\ncap = 20"), &mut m);
    assert!(!r.ok);
    assert_eq!(log[1], "phase 2: did not finish, jumped to $0100 after 20 instructions (avg pc $100)");
    let mut m = machine(0x0100, &[0xEA, 0x02]);
    let (r, log) = run(&config("generic", "stop_pc = 0x0100"), &mut m);
    assert!(!r.ok);
    assert_eq!(log[1], "phase 2: did not finish, jumped to $0102 after 1 instructions (avg pc $101)");
}

#[test]
fn listed_starts_are_snapped() {
    // STA $07FF first, then the fill of $0800-$08FF through the same pointer.
    let mut stub = vec![0xA9, 0xFF, 0x85, 0xFB, 0xA9, 0x07, 0x85, 0xFC, 0xA0, 0x00, 0x91, 0xFB];
    stub.extend_from_slice(&filler(0x08, 0x0A, 0x0810));
    let mut m = machine(0x0100, &stub);
    let (r, log) = run(&config("generic", "stop_pc = 0x0100\nsnap_start = 0x07FF"), &mut m);
    assert!(r.ok);
    assert_eq!((r.start, r.real_start, r.end), (0x0801, 0x07FF, 0x09FF));
    assert_eq!(log.last().unwrap(), "start $07ff snapped to $0801");
    let mut m = machine(0x0100, &stub);
    let (r, _) = run(&config("generic", "stop_pc = 0x0100"), &mut m);
    assert_eq!(r.start, 0x07FF);
}

#[test]
fn variants_refine_name_and_start() {
    let cfg = load_str(
        "name = \"N\"\nengine = \"generic\"\n[detect]\nalways = true\nentry = 1\n[run]\n\
         stop_pc = 0x0100\nsnap_start = 0x2000\n\
         [[variant]]\nname = \"V\"\nbase = 0\npattern = \"00\"\nstart_adjust = -1\n",
        "t.toml",
    )
    .unwrap();
    let mut m = machine(0x0100, &filler(0x20, 0x22, 0x2000));
    let mut log = Vec::new();
    let r = engine::run(&cfg, Some(&cfg.variants[0]), None, &mut m, &mut log);
    assert_eq!(r.name.as_deref(), Some("V"));
    assert_eq!((r.start, r.real_start), (0x1FFF, 0x2000));
}

#[test]
fn time_cruncher_is_told_by_its_behavior() {
    let cfg = config("generic", "stop_pc = 0x0100\nanalyze_0100 = true");
    let mut m = machine(0x0100, &copy_then_reverse(0x2000));
    let (r, log) = run(&cfg, &mut m);
    assert_eq!(r.name.as_deref(), Some("Time Cruncher 5.x-6.x"));
    assert_eq!((r.start, r.real_start, r.end), (0x2000, 0x2000, 0x21FF));
    assert!(log.iter().any(|l| l
        == "Time Cruncher 5.x: region starts at $2000 (not $0801-aligned), keeping the real start"));
    // 25 bytes below $0801 the start is $0801.
    let mut m = machine(0x0100, &copy_then_reverse(0x07E8));
    let (r, _) = run(&cfg, &mut m);
    assert_eq!((r.start, r.real_start, r.end), (0x0801, 0x07E8, 0x09E7));
}

#[test]
fn cruel_cruncher_is_told_by_its_behavior() {
    let cfg = config("generic", "stop_pc = 0x0400\nanalyze_0100 = true");
    let mut m = machine(0x0400, &copy_then_reverse(0x0700));
    let (r, _) = run(&cfg, &mut m);
    assert_eq!(r.name.as_deref(), Some("Cruel Cruncher"));
    assert_eq!((r.start, r.real_start, r.end), (0x0801, 0x0700, 0x08FF));
    // With the known depack loop at $0100 it is a 2.x-3.x.
    let mut m = machine(0x0400, &copy_then_reverse(0x0700));
    let text = "B9 00 00 99 00 00 C8 D0 F7 20 00 00 F0 46 20 00 00 D0 30 20 00 00 69 02 \
                C9 04 90 27 D0 07 20 00 00 69 04 D0 00 20 00 00 69 06 C9 00 D0 00 C8 20 \
                00 00 69 0D C9 00 D0 00 A0";
    let bytes: Vec<u8> =
        text.split_whitespace().map(|t| u8::from_str_radix(t, 16).unwrap()).collect();
    put(&mut m, 0x0100, &bytes);
    let (r, _) = run(&cfg, &mut m);
    assert_eq!(r.name.as_deref(), Some("Cruel Cruncher 2.x-3.x"));
    let p = Pattern::parse(
        "B9 ?? ?? 99 ?? ?? C8 D0 F7 20 ?? ?? F0 46 20 ?? ?? D0 30 20 ?? ?? 69 02 \
         C9 04 90 27 D0 07 20 ?? ?? 69 04 D0 ?? 20 ?? ?? 69 06 C9 ?? D0 ?? C8 20 \
         ?? ?? 69 0D C9 ?? D0 ?? A0",
    )
    .unwrap();
    assert_eq!(cruel_2x_pattern().toks, p.toks);
}

#[test]
fn reverse_writers_are_named_as_such() {
    // LDY #$FF, STA ($FB),Y, DEY, CPY #$FF, BNE, JMP $2000 with ($FB) = $2000
    let stub = [
        0xA9, 0x20, 0x85, 0xFC, 0xA0, 0xFF, 0x91, 0xFB, 0x88, 0xC0, 0xFF, 0xD0, 0xF9, 0x4C, 0x00,
        0x20,
    ];
    let mut m = machine(0x0100, &stub);
    let (r, _) = run(&config("generic", "stop_pc = 0x0100\nanalyze_0100 = true"), &mut m);
    assert_eq!(r.name.as_deref(), Some("N (reverse writer)"));
    assert_eq!((r.start, r.end), (0x2000, 0x20FF));
}

#[test]
fn byte_boozer_streams_through_its_pointer() {
    let mut m = machine(0x0100, &filler(0x20, 0x22, 0x2000));
    let (r, _) = run(&config("generic", "stop_pc = 0x0100\nbyteboozer_ptr = 0xFB"), &mut m);
    assert_eq!(r.name.as_deref(), Some("Byte Boozer"));
    assert_eq!((r.start, r.end), (0x2000, 0x21FF));
    let mut m = machine(0x0100, &filler(0x20, 0x22, 0x2000));
    let (r, _) = run(
        &config(
            "generic",
            "stop_pc = 0x0100\nbyteboozer_ptr = 0xFB\nbyteboozer_end_from_ptr = true\nbyteboozer_name = \"BB\"",
        ),
        &mut m,
    );
    assert_eq!(r.name.as_deref(), Some("BB"));
    assert_eq!((r.start, r.end), (0x2000, 0x2200));
    // Another pointer is no Byte Boozer.
    let mut m = machine(0x0100, &filler(0x20, 0x22, 0x2000));
    let (r, _) = run(&config("generic", "stop_pc = 0x0100\nbyteboozer_ptr = 0xFD"), &mut m);
    assert_eq!(r.name, None);
}

#[test]
fn adjacent_ranges_are_merged() {
    // $2000-$20FF through ($FB),Y, then $2100-$21FF through ($FD),Y.
    let second = filler_via(0xFD, 0x21, 0x22, 0x2000);
    let mut stub = filler(0x20, 0x21, 0x0000);
    stub.truncate(stub.len() - 3);
    stub.extend_from_slice(&second);
    let mut m = machine(0x0100, &stub);
    let (r, log) = run(&config("generic", "stop_pc = 0x0100"), &mut m);
    assert_eq!((r.start, r.end), (0x2000, 0x21FF));
    assert_eq!(
        log.last().unwrap(),
        "merged adjacent output range $2100-$21ff (end $20ff -> $21ff)"
    );
}

#[test]
fn page_overshoot_is_trimmed() {
    // Staging $8000-$80E7 (232 bytes) via ($FD),Y, then the page copy to $2000-$20FF.
    let mut stub = vec![
        0xA9, 0x00, 0x85, 0xFD, 0xA9, 0x80, 0x85, 0xFE, 0xA0, 0x00, 0x91, 0xFD, 0xC8, 0xC0, 0xE8,
        0xD0, 0xF9,
    ];
    stub.extend_from_slice(&filler(0x20, 0x21, 0x2000));
    let mut m = machine(0x0100, &stub);
    let (r, log) = run(&config("generic", "stop_pc = 0x0100\ntrim_page_overshoot = true"), &mut m);
    assert_eq!((r.start, r.end), (0x2000, 0x20E7));
    assert_eq!(
        log.last().unwrap(),
        "trimmed page overshoot: end $20ff -> $20e7 (staged range $8000-$80e7 has the exact size)"
    );
    let mut m = machine(0x0100, &stub);
    let (r, _) = run(&config("generic", "stop_pc = 0x0100"), &mut m);
    assert_eq!(r.end, 0x20FF);
}

#[test]
fn guessed_start_needs_evidence() {
    // The file's own SYS line stays at $0801 while the payload lives at $2000.
    let cfg = config("generic", "stop_pc = 0x0400\nuse_guess_start = true");
    let mut m = machine(0x0400, &filler(0x20, 0x22, 0x2000));
    put(&mut m, 0x0801, b"\x0b\x08\x00\x00\x9e2064\x00\x00\x00");
    let (r, log) = run(&cfg, &mut m);
    assert_eq!((r.start, r.real_start), (0x2000, 0x2000));
    assert_eq!(
        log.last().unwrap(),
        "guessed start $0801 rejected: no rebuilt line in $0801-$1fff and its SYS target does not \
         launch the payload; keeping range start $2000"
    );
    // A SYS target that launches the payload is evidence.
    let mut m = machine(0x0400, &filler(0x20, 0x22, 0x2010));
    put(&mut m, 0x0801, b"\x0b\x08\x00\x00\x9e8208\x00\x00\x00");
    let (r, _) = run(&cfg, &mut m);
    assert_eq!((r.start, r.real_start), (0x0801, 0x2000));
    // A jump below the guessed start keeps the range.
    let mut m = machine(0x0400, &filler(0x07, 0x0A, 0x07F0));
    let cfg = config("generic", "stop_pc = 0x0400\nuse_guess_start = true\nexit_above = 0x0600");
    put(&mut m, 0x0334, &[0]);
    let (r, log) = run(&cfg, &mut m);
    assert_eq!(r.start, 0x0700);
    assert_eq!(r.jump_start, 0x07F0);
    assert!(!log.iter().any(|l| l.contains("rejected")));
}

#[test]
fn basic_hand_off_is_bounded_by_vartab() {
    // VARTAB = $3000, then JMP $A871 (RUN).
    let mut stub = vec![0xA9, 0x00, 0x85, 0x2D, 0xA9, 0x30, 0x85, 0x2E];
    stub.extend_from_slice(&filler(0x08, 0x0A, 0xA871));
    let mut m = machine(0x0100, &stub);
    let (r, log) = run(&config("generic", "stop_pc = 0x0100"), &mut m);
    assert_eq!((r.start, r.real_start, r.end, r.jump_start), (0x0801, 0x0800, 0x2FFF, 0xA871));
    assert!(log.iter().any(|l| l
        == "run address $a871 is the BASIC interpreter: extracting BASIC program $0801-$2fff (VARTAB)"));
}

#[test]
fn bogus_run_addresses_are_replaced() {
    // A jump into the KERNAL: the first non-zero byte is the entry hint.
    let mut m = machine(0x0100, &filler(0x20, 0x22, 0xFCE2));
    let (r, log) = run(&config("generic", "stop_pc = 0x0100"), &mut m);
    assert_eq!(r.jump_start, 0x2000);
    assert!(log
        .iter()
        .any(|l| l == "run address $fce2 is bogus, first code byte at $2000 used as entry hint"));
    // With a SYS line inside the extraction, its target counts.
    let mut m = machine(0x0100, &filler(0x20, 0x22, 0xFCE2));
    put(&mut m, 0x0801, b"\x0b\x08\x00\x00\x9e8200\x00\x00\x00");
    let (r, log) = run(&config("generic", "stop_pc = 0x0100"), &mut m);
    assert_eq!(r.jump_start, 8200);
    assert!(log.iter().any(|l| l
        == "run address $fce2 is in ROM/IO, using the BASIC line's SYS 8200 ($2008)"));
}

#[test]
fn exit_must_go_into_written_memory() {
    // The jump to $4000 is ignored: nothing was written there.
    let mut m = machine(0x0100, &filler(0x20, 0x22, 0x4000));
    put(&mut m, 0x4000, &[0x4C, 0x00, 0x40]);
    let cfg = config("generic", "stop_pc = 0x0100\nexit_into_written = true\ncap = 5000");
    let (r, _) = run(&cfg, &mut m);
    assert!(!r.ok);
    let mut m = machine(0x0100, &filler(0x20, 0x22, 0x2010));
    let (r, _) = run(&cfg, &mut m);
    assert!(r.ok);
    assert_eq!(r.jump_start, 0x2010);
    // A jump into the top quarter of the range looks like a second stage.
    let mut m = machine(0x0100, &filler(0x20, 0x22, 0x21F0));
    let (r, log) = run(&cfg, &mut m);
    assert!(!r.ok);
    assert_eq!(
        log[1],
        "ignoring jump to $21f0: deep inside $2000-$21ff, looks like a depacked stage-2"
    );
}

#[test]
fn quiescence_lifts_the_hand_off_state() {
    // The launched program overwrites its own first byte and fills another page.
    let program = [
        0xA9, 0x55, 0x8D, 0x00, 0x20, 0xA2, 0x00, 0x9D, 0x00, 0x60, 0xE8, 0xD0, 0xFA, 0x4C, 0x0D,
        0x10,
    ];
    let mut m = machine(0x0100, &filler(0x20, 0x22, 0x1000));
    put(&mut m, 0x1000, &program);
    let (r, log) = run(&config("generic", "stop_pc = 0x0100\nexit_quiescent = 100"), &mut m);
    assert!(r.ok);
    assert_eq!((r.start, r.end, r.jump_start), (0x2000, 0x21FF, 0x1000));
    assert_eq!(m.mem.ram[0x2000], 0xAA);
    assert_eq!(m.mem.ram[0x6000], 0x00);
    for line in [
        "hand-off candidate $1000 noted; running until writes stop",
        "restored RAM to the hand-off state (the launched program ran on afterwards)",
        "dropped 1 write range(s) first written after the hand-off (the launched program's own writes)",
    ] {
        assert!(log.iter().any(|l| l == line), "{line}\n{log:?}");
    }
}

#[test]
fn quiescence_reports_the_first_hand_off() {
    // The stub jumps up to $1000, which writes one more byte and goes back down; the
    // stub then jumps up to $1100.
    let mut m = machine(0x0100, &filler(0x20, 0x22, 0x1000));
    put(&mut m, 0x1000, &[0xA9, 0x55, 0x8D, 0x00, 0x30, 0x4C, 0x50, 0x03]);
    put(&mut m, 0x0350, &[0x4C, 0x00, 0x11]);
    put(&mut m, 0x1100, &[0xA9, 0x66, 0x8D, 0x00, 0x30, 0x4C, 0x00, 0x11]);
    let (r, log) = run(&config("generic", "stop_pc = 0x0100\nexit_quiescent = 100"), &mut m);
    assert!(r.ok);
    assert_eq!((r.start, r.end, r.jump_start), (0x2000, 0x21FF, 0x1000));
    for pc in ["1000", "1100"] {
        let line = format!("hand-off candidate ${pc} noted; running until writes stop");
        assert!(log.contains(&line), "{line}\n{log:?}");
    }
    // Memory is lifted as it was at the last crossing.
    assert_eq!(m.mem.ram[0x3000], 0x55);
}

#[test]
fn hand_off_in_written_memory_is_reported_first() {
    // Two hand-offs low in the written range: the fill leaves `JMP $0350` at $2000
    // and `JMP $2003` at $2003.
    let copy = [
        0xA2, 0x00, 0xBD, 0x00, 0x40, 0x9D, 0x00, 0x20, 0xE8, 0xD0, 0xF7, 0x4C, 0x00, 0x20,
    ];
    let mut m = machine(0x0100, &copy);
    put(&mut m, 0x4000, &[0x4C, 0x50, 0x03, 0x4C, 0x03, 0x20]);
    put(&mut m, 0x0350, &[0x4C, 0x03, 0x20]);
    let (r, _) = run(&config("generic", "stop_pc = 0x0100\nexit_quiescent = 100"), &mut m);
    assert!(r.ok);
    assert_eq!((r.start, r.end, r.jump_start), (0x2000, 0x20FF, 0x2000));
}

#[test]
fn own_switch_to_quiescence_reports_the_last_crossing() {
    // The jump to $8000 looks like a stage; it goes back down and up to $1000.
    let mut m = machine(0x0100, &filler(0x20, 0x22, 0x8000));
    put(&mut m, 0x8000, &[0x4C, 0x50, 0x03]);
    put(&mut m, 0x0350, &[0x4C, 0x00, 0x10]);
    put(&mut m, 0x1000, &[0x4C, 0x00, 0x10]);
    let (r, _) = run(&config("generic", "stop_pc = 0x0100"), &mut m);
    assert!(r.ok);
    assert_eq!((r.start, r.end, r.jump_start), (0x2000, 0x21FF, 0x1000));
}

#[test]
fn quiescence_accepts_a_halt_and_the_cap() {
    let mut m = machine(0x0100, &filler(0x20, 0x22, 0x1000));
    put(&mut m, 0x1000, &[0x02]);
    let (r, _) = run(&config("generic", "stop_pc = 0x0100\nexit_quiescent = 100"), &mut m);
    assert!(r.ok && r.jump_start == 0x1000);
    let mut m = machine(0x0100, &filler(0x20, 0x22, 0x1000));
    put(&mut m, 0x1000, &[0x4C, 0x00, 0x10]);
    let (r, log) = run(
        &config("generic", "stop_pc = 0x0100\nexit_quiescent = 100000\ncap = 4000"),
        &mut m,
    );
    assert!(r.ok && r.jump_start == 0x1000);
    assert!(log
        .iter()
        .any(|l| l == "instruction cap in quiescence mode: accepting the recorded hand-off"));
}

#[test]
fn exit_into_data_territory_is_a_stage() {
    // The jump to $8000 runs a second stage, which writes $3000-$32FF and launches it.
    let mut m = machine(0x0100, &filler(0x20, 0x22, 0x8000));
    put(&mut m, 0x8000, &filler_via(0xFD, 0x30, 0x33, 0x1000));
    put(&mut m, 0x1000, &[0x4C, 0x00, 0x10]);
    let (r, log) = run(&config("generic", "stop_pc = 0x0100"), &mut m);
    assert!(r.ok);
    assert_eq!((r.start, r.end, r.jump_start), (0x3000, 0x32FF, 0x8000));
    assert!(log.iter().any(|l| l
        == "exit jump $8000 lands deep in data territory: likely a depacked stage, switching to quiescence"));
    assert!(log
        .iter()
        .any(|l| l == "final stage wrote $3000-$32ff (768 bytes), using it as the payload"));
}

#[test]
fn rebuilt_basic_line_wins_after_a_late_stage() {
    // As above, but the stage leaves a SYS line behind, and VARTAB.
    let mut stage = vec![0xA9, 0x00, 0x85, 0x2D, 0xA9, 0x31, 0x85, 0x2E];
    stage.extend_from_slice(&filler_via(0xFD, 0x30, 0x33, 0x1000));
    let mut m = machine(0x0100, &filler(0x20, 0x22, 0x8000));
    put(&mut m, 0x8000, &stage);
    put(&mut m, 0x1000, &[0x4C, 0x00, 0x10]);
    put(&mut m, 0x0801, b"\x0b\x08\x00\x00\x9e2061\x00\x00\x00");
    let (r, log) = run(&config("generic", "stop_pc = 0x0100"), &mut m);
    assert_eq!((r.start, r.real_start, r.end, r.jump_start), (0x0801, 0x3000, 0x30FF, 2061));
    assert!(log.iter().any(|l| l
        == "final memory holds a BASIC line: run address $8000 replaced by SYS 2061 ($080d)"));
    assert!(log.iter().any(|l| l == "VARTAB bounds the program: end $32ff -> $30ff"));
}

#[test]
fn small_results_are_suspicious() {
    let mut m = machine(0x0100, &filler(0x20, 0x21, 0x2000));
    m.mem.prg_end = 0x1810;
    let (r, log) = run(&config("generic", "stop_pc = 0x0100"), &mut m);
    assert!(r.ok);
    assert_eq!(
        log.last().unwrap(),
        "warning: unpacked size 256 <= packed size 4097, result is suspicious"
    );
}

#[test]
fn timecruncher_reads_its_pointers() {
    // $0100: ($FC) = $1FFF, LDY #$10, JMP hand-off; the hand-off is a JMP $2000.
    let stub = |hand_off: u16| {
        vec![
            0xA9, 0xFF, 0x85, 0xFC, 0xA9, 0x1F, 0x85, 0xFD, 0xA0, 0x10, 0x4C, hand_off as u8,
            (hand_off >> 8) as u8,
        ]
    };
    let mut m = machine(0x0100, &stub(0x0369));
    put(&mut m, 0xFC, &[0x01, 0x30]);
    put(&mut m, 0x0369, &[0x4C, 0x00, 0x20]);
    let (r, log) = run(&config("timecruncher", "version = 31"), &mut m);
    assert!(r.ok && r.name.is_none());
    assert_eq!((r.start, r.real_start, r.end, r.jump_start), (0x2000, 0x2000, 0x3000, 0x2000));
    assert_eq!(log, [
        "depack loop reached; end = word[$fc]-1 = $3000",
        "done: start=$2000 jump=$2000",
    ]);
    let mut m = machine(0x0100, &stub(0x0374));
    put(&mut m, 0xFC, &[0x01, 0x30]);
    put(&mut m, 0x0374, &[0x4C, 0x00, 0x20]);
    let (r, _) = run(&config("timecruncher", "version = 42"), &mut m);
    assert_eq!((r.start, r.end, r.jump_start), (0x1FFF + 3 + 0x10, 0x3000, 0x2000));
}

#[test]
fn timecruncher_failures_are_logged() {
    let mut m = machine(0x0900, &[0x02]);
    let (r, log) = run(&config("timecruncher", "version = 31"), &mut m);
    assert!(!r.ok);
    assert_eq!(log, ["never reached $0100 (pc=$0901)"]);
    let mut m = machine(0x0100, &[0x02]);
    let (r, log) = run(&config("timecruncher", "version = 7"), &mut m);
    assert!(!r.ok);
    assert_eq!(log[1], "unsupported timecruncher version 7");
    let mut m = machine(0x0100, &[0x02]);
    let (r, log) = run(&config("timecruncher", "version = 32"), &mut m);
    assert!(!r.ok);
    assert_eq!(log[1], "never reached $0369 (pc=$0101)");
}

#[test]
fn crunchab_reads_its_addresses() {
    let cfg = config("crunchab", "");
    let mut m = machine(0x0340, &[0x4C, 0x0A, 0x04]);
    put(&mut m, 0x040A, &[0x4C, 0x00, 0x20, 0xEA, 0xFF, 0x1F]);
    let mut log = Vec::new();
    let r = engine::run(&cfg, None, Some(0x4FFF), &mut m, &mut log);
    assert!(r.ok);
    assert_eq!((r.start, r.end, r.jump_start), (0x2000, 0x4FFF, 0x2000));
    assert_eq!(log, ["done: start=$2000 end=$4fff jump=$2000"]);
    // Without a probe result, and without reaching the end.
    let (r, log) = run(&cfg, &mut machine(0x0340, &[0x02]));
    assert!(!r.ok);
    assert_eq!(log, ["internal error: crunchab engine without probe result"]);
    let mut log = Vec::new();
    let r = engine::run(&cfg, None, Some(1), &mut machine(0x0340, &[0x02]), &mut log);
    assert!(!r.ok);
    assert_eq!(log, ["never reached $040a (pc=$0341)"]);
}
