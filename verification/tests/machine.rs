//! The machine and its runs.

use unidecrunch::Machine;

fn with_code(at: u16, code: &[u8]) -> Machine {
    let mut m = Machine::new();
    m.mem.ram[at as usize..at as usize + code.len()].copy_from_slice(code);
    m.cpu.reset_at(at);
    m
}

#[test]
fn machine_boots_with_a_stubbed_kernal() {
    let m = Machine::new();
    assert_eq!(m.mem.peek(0xFFD2), 0x60);
    assert_eq!(m.mem.read_word(0x2B), 0x0801);
    assert_eq!(m.cpu.sp, 0xFF);
    let d = Machine::default();
    assert_eq!(d.mem.ram, m.mem.ram);
    assert_eq!(d.mem.kernal, m.mem.kernal);
}

#[test]
fn run_stops_on_the_target() {
    // NOP, NOP, NOP, JMP $1000
    let mut m = with_code(0x1000, &[0xEA, 0xEA, 0xEA, 0x4C, 0x00, 0x10]);
    assert!(m.run_until(&[0x1002, 0x1003], 100));
    assert_eq!(m.cpu.pc, 0x1002);
    assert_eq!(m.cpu.instructions, 2);
    // The start address itself only counts once it is reached again.
    let mut m = with_code(0x1000, &[0xEA, 0xEA, 0xEA, 0x4C, 0x00, 0x10]);
    assert!(m.run_until(&[0x1000], 100));
    assert_eq!(m.cpu.instructions, 4);
}

#[test]
fn run_fails_when_the_cap_is_reached() {
    let mut m = with_code(0x1000, &[0x4C, 0x00, 0x10]);
    assert!(!m.run_until(&[0x2000], 50));
    assert_eq!(m.cpu.instructions, 50);
    assert!(!m.run_until(&[0x1000], 0));
    assert_eq!(m.cpu.instructions, 50);
}

#[test]
fn higher_cap_changes_nothing_on_success() {
    for cap in [3u64, 4, 1000] {
        let mut m = with_code(0x1000, &[0xEA, 0xEA, 0xEA, 0xEA, 0x02]);
        assert!(m.run_until(&[0x1003], cap));
        assert_eq!((m.cpu.pc, m.cpu.instructions), (0x1003, 3));
    }
}

#[test]
fn run_fails_when_the_cpu_stops() {
    let mut m = with_code(0x1000, &[0xEA, 0x02]);
    assert!(!m.run_until(&[0x3000], 1000));
    assert!(m.cpu.jammed);
    assert_eq!(m.cpu.instructions, 2);
    // A halted machine reaches nothing any more.
    let pc = m.cpu.pc;
    assert!(!m.run_until(&[pc], 1000));
    assert!(!m.step());
}

#[test]
fn run_below_waits_for_a_low_pc() {
    let mut m = with_code(0x1000, &[0xEA, 0x4C, 0x34, 0x03]);
    assert!(m.run_below(0x0800, 100));
    assert_eq!((m.cpu.pc, m.cpu.instructions), (0x0334, 2));
    let mut m = with_code(0x1000, &[0x4C, 0x00, 0x10]);
    assert!(!m.run_below(0x0800, 10));
}

#[test]
fn kernal_calls_return_predictably() {
    // JSR $FFE4 (GETIN), STA $2000, JSR $FFD2, JMP $2001
    let mut m = with_code(
        0x1000,
        &[0x20, 0xE4, 0xFF, 0x8D, 0x00, 0x20, 0x20, 0xD2, 0xFF, 0x4C, 0x01, 0x20],
    );
    assert!(m.run_until(&[0x2001], 100));
    assert_eq!(m.mem.ram[0x2000], 0x20);
}
