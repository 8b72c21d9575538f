//! The 6510 core.

use unidecrunch::bits::{FLAG_C, FLAG_I, FLAG_N, FLAG_V, FLAG_Z};
use unidecrunch::instr::is_undocumented;
use unidecrunch::{AddrMode, Bus, Cpu};

/// 64 KB of plain RAM.
#[derive(Clone)]
struct Flat(Vec<u8>);

impl Bus for Flat {
    fn value_at(&self, a: u16) -> u8 {
        self.0[a as usize]
    }
    fn after_read(&self, _a: u16) -> Flat {
        self.clone()
    }
    fn after_write(&self, a: u16, v: u8) -> Flat {
        let mut next = self.clone();
        next.0[a as usize] = v;
        next
    }
    fn read(&mut self, a: u16) -> u8 {
        self.0[a as usize]
    }
    fn write(&mut self, a: u16, v: u8) {
        self.0[a as usize] = v;
    }
}

fn run(prog: &[u8], steps: usize) -> (Cpu, Flat) {
    let mut bus = Flat(vec![0; 0x10000]);
    bus.0[0x1000..0x1000 + prog.len()].copy_from_slice(prog);
    let mut cpu = Cpu::new();
    cpu.reset_at(0x1000);
    for _ in 0..steps {
        if !cpu.step(&mut bus) {
            break;
        }
    }
    (cpu, bus)
}

#[test]
fn every_opcode_is_handled() {
    // Executing any single opcode must never panic and must consume cycles.
    for op in 0..=255u8 {
        let mut bus = Flat(vec![0; 0x10000]);
        bus.0[0x1000] = op;
        let mut cpu = Cpu::new();
        cpu.reset_at(0x1000);
        cpu.tracking = true;
        cpu.step(&mut bus);
        assert!(cpu.cycles > 0, "opcode {op:02X} charged no cycles");
    }
}

#[test]
fn lda_sta_roundtrip() {
    let (cpu, bus) = run(&[0xA9, 0x42, 0x8D, 0x00, 0x20], 2);
    assert_eq!(bus.0[0x2000], 0x42);
    assert_eq!(cpu.a, 0x42);
    assert_eq!(cpu.instructions, 2);
}

#[test]
fn tracking_records_indirect_y_write() {
    // Pointer at $FB -> $3000, Y=5, STA ($FB),Y
    let mut bus = Flat(vec![0; 0x10000]);
    bus.0[0xFB] = 0x00;
    bus.0[0xFC] = 0x30;
    bus.0[0x1000..0x1006].copy_from_slice(&[0xA0, 0x05, 0xA9, 0x99, 0x91, 0xFB]);
    let mut cpu = Cpu::new();
    cpu.reset_at(0x1000);
    cpu.tracking = true;
    for _ in 0..3 {
        cpu.step(&mut bus);
    }
    let op = cpu.last_op.expect("write not tracked");
    assert!(op.write);
    assert_eq!(op.mode, AddrMode::IndirectY);
    assert_eq!(op.addr, 0x3005);
    assert_eq!(op.value, 0x99);
    assert_eq!(bus.0[0x3005], 0x99);
}

#[test]
fn illegal_sax_write_is_tracked() {
    // LDA #$F0, LDX #$0F, SAX $2000 -> stores $00
    let (cpu, bus) = run(&[0xA9, 0xF0, 0xA2, 0x0F, 0x8F, 0x00, 0x20], 3);
    let _ = cpu;
    assert_eq!(bus.0[0x2000], 0xF0 & 0x0F);
}

#[test]
fn jam_halts() {
    let (cpu, _) = run(&[0x02, 0xEA], 5);
    assert!(cpu.jammed);
    assert_eq!(cpu.instructions, 1);
}

#[test]
fn brk_stops_by_default() {
    let (cpu, _) = run(&[0x00, 0xEA], 5);
    assert!(cpu.brk_hit);
    assert!(!cpu.running());
}

#[test]
fn dcp_sets_carry_like_cmp() {
    // mem $20 = 0x11 -> DCP makes 0x10; A=0x10 -> equal: C=1, Z=1
    let mut bus = Flat(vec![0; 0x10000]);
    bus.0[0x20] = 0x11;
    bus.0[0x1000..0x1004].copy_from_slice(&[0xA9, 0x10, 0xC7, 0x20]);
    let mut cpu = Cpu::new();
    cpu.reset_at(0x1000);
    cpu.step(&mut bus);
    cpu.step(&mut bus);
    assert_eq!(bus.0[0x20], 0x10);
    assert!(cpu.flag(FLAG_C));
    assert!(cpu.flag(FLAG_Z));
}

#[test]
fn jmp_indirect_page_wrap_bug() {
    let mut bus = Flat(vec![0; 0x10000]);
    bus.0[0x10FF] = 0x34;
    bus.0[0x1000] = 0x12; // hi byte read from $1000, not $1100
    bus.0[0x2000..0x2003].copy_from_slice(&[0x6C, 0xFF, 0x10]);
    let mut cpu = Cpu::new();
    cpu.reset_at(0x2000);
    cpu.step(&mut bus);
    assert_eq!(cpu.pc, 0x1234);
}

#[test]
fn bcd_adc() {
    // SED; LDA #$19; CLC; ADC #$01 -> $20 in BCD
    let (cpu, _) = run(&[0xF8, 0xA9, 0x19, 0x18, 0x69, 0x01], 4);
    assert_eq!(cpu.a, 0x20);
}

#[test]
fn halted_cpu_stays_as_it_is() {
    let (mut cpu, mut bus) = run(&[0x02, 0xE8], 1);
    let (cycles, instructions, pc) = (cpu.cycles, cpu.instructions, cpu.pc);
    let ram = bus.0.clone();
    for _ in 0..5 {
        assert!(!cpu.step(&mut bus));
    }
    assert_eq!((cpu.cycles, cpu.instructions, cpu.pc), (cycles, instructions, pc));
    assert_eq!(cpu.x, 0);
    assert_eq!(bus.0, ram);
}

#[test]
fn every_opcode_takes_one_to_eight_cycles_and_counts_once() {
    for op in 0..=255u8 {
        let mut bus = Flat(vec![0xFF; 0x10000]);
        bus.0[0x1000] = op;
        let mut cpu = Cpu::new();
        cpu.reset_at(0x1000);
        cpu.step(&mut bus);
        assert!((1..=8).contains(&cpu.cycles), "opcode {op:02X}: {}", cpu.cycles);
        assert_eq!(cpu.instructions, 1);
    }
}

#[test]
fn unused_status_bit_stays_set() {
    for op in 0..=255u8 {
        let mut bus = Flat(vec![0; 0x10000]);
        bus.0[0x1000] = op;
        let mut cpu = Cpu::new();
        cpu.reset_at(0x1000);
        cpu.step(&mut bus);
        assert_eq!(cpu.p & 0x20, 0x20, "opcode {op:02X}");
    }
    // PLP of a zero byte: B clear, the unused bit set.
    let (cpu, _) = run(&[0xA9, 0x10, 0x48, 0x28], 3);
    assert_eq!(cpu.p, 0x20);
}

#[test]
fn recorded_write_is_in_memory() {
    for op in 0..=255u8 {
        let mut bus = Flat(vec![0; 0x10000]);
        bus.0[0x1000..0x1003].copy_from_slice(&[op, 0x40, 0x30]);
        bus.0[0x40] = 0x00;
        bus.0[0x41] = 0x50;
        let mut cpu = Cpu::new();
        cpu.reset_at(0x1000);
        cpu.tracking = true;
        cpu.a = 0x5A;
        cpu.x = 0x00;
        cpu.step(&mut bus);
        if let Some(m) = cpu.last_op {
            if m.write {
                assert_eq!(bus.0[m.addr as usize], m.value, "opcode {op:02X}");
            }
        }
    }
}

#[test]
fn nothing_is_recorded_without_tracking() {
    let (cpu, _) = run(&[0xA9, 0x42, 0x8D, 0x00, 0x20], 2);
    assert!(cpu.last_op.is_none());
}

#[test]
fn illegal_store_is_marked_as_illegal() {
    let mut bus = Flat(vec![0; 0x10000]);
    bus.0[0x1000..0x1006].copy_from_slice(&[0x8F, 0x00, 0x20, 0x8D, 0x00, 0x20]);
    let mut cpu = Cpu::new();
    cpu.reset_at(0x1000);
    cpu.tracking = true;
    cpu.step(&mut bus);
    assert!(cpu.last_op.unwrap().illegal);
    cpu.step(&mut bus);
    assert!(!cpu.last_op.unwrap().illegal);
    assert!(is_undocumented(0x8F));
    assert!(!is_undocumented(0x8D));
    // 151 documented opcodes.
    assert_eq!((0..=255u8).filter(|&op| !is_undocumented(op)).count(), 151);
}

#[test]
fn pushed_byte_is_pulled_back() {
    // LDA #$5A, PHA, LDA #0, PLA
    let (cpu, bus) = run(&[0xA9, 0x5A, 0x48, 0xA9, 0x00, 0x68], 4);
    assert_eq!(cpu.a, 0x5A);
    assert_eq!(cpu.sp, 0xFF);
    assert_eq!(bus.0[0x01FF], 0x5A);
}

#[test]
fn rts_returns_behind_the_jsr() {
    // JSR $1006; LDX #1; NOP; RTS
    let (cpu, bus) = run(&[0x20, 0x06, 0x10, 0xA2, 0x01, 0xEA, 0x60], 3);
    assert_eq!(cpu.pc, 0x1005);
    assert_eq!(cpu.x, 1);
    assert_eq!(cpu.sp, 0xFF);
    assert_eq!((bus.0[0x01FF], bus.0[0x01FE]), (0x10, 0x02));
}

#[test]
fn decimal_mode_adds_and_subtracts() {
    let bcd = |n: u8| (n / 10) * 16 + n % 10;
    for a in 0..100u8 {
        for m in 0..100u8 {
            for carry in 0..2u8 {
                // SED, SEC/CLC, ADC #m
                let set = if carry == 1 { 0x38 } else { 0x18 };
                let (add, _) = run(&[0xF8, 0xA9, bcd(a), set, 0x69, bcd(m)], 4);
                let sum = a + m + carry;
                assert_eq!(add.a, bcd(sum % 100));
                assert_eq!(add.flag(FLAG_C), sum > 99);
                let (sub, _) = run(&[0xF8, 0xA9, bcd(a), set, 0xE9, bcd(m)], 4);
                let diff = a as i32 - m as i32 - (1 - carry as i32);
                assert_eq!(sub.a, bcd(diff.rem_euclid(100) as u8));
                assert_eq!(sub.flag(FLAG_C), diff >= 0);
            }
        }
    }
}

#[test]
fn binary_arithmetic_sets_carry_and_overflow() {
    for (a, m, carry) in [(0x7Fu8, 0x01u8, 0u8), (0x80, 0xFF, 0), (0xFF, 0x01, 0), (0x50, 0x50, 1)] {
        let set = if carry == 1 { 0x38 } else { 0x18 };
        let (cpu, _) = run(&[0xA9, a, set, 0x69, m], 3);
        let sum = a as u32 + m as u32 + carry as u32;
        let signed = a as i8 as i32 + m as i8 as i32 + carry as i32;
        assert_eq!(cpu.a, sum as u8);
        assert_eq!(cpu.flag(FLAG_C), sum > 0xFF);
        assert_eq!(cpu.flag(FLAG_V), !(-128..=127).contains(&signed));
        assert_eq!(cpu.flag(FLAG_Z), sum as u8 == 0);
        assert_eq!(cpu.flag(FLAG_N), sum as u8 >= 0x80);
    }
}

#[test]
fn page_crossing_and_branches_cost_cycles() {
    // LDX #$01, LDA $20FF,X: 2 + 4 + 1
    let (cpu, _) = run(&[0xA2, 0x01, 0xBD, 0xFF, 0x20], 2);
    assert_eq!(cpu.cycles, 7);
    // LDX #$00, LDA $20FF,X: 2 + 4
    let (cpu, _) = run(&[0xA2, 0x00, 0xBD, 0xFF, 0x20], 2);
    assert_eq!(cpu.cycles, 6);
    // STA $20FF,X always takes 5.
    let (cpu, _) = run(&[0xA2, 0x00, 0x9D, 0xFF, 0x20], 2);
    assert_eq!(cpu.cycles, 7);
    // BNE not taken (Z set by LDA #0): 2 + 2; taken: 2 + 3; across a page: 2 + 4.
    let (cpu, _) = run(&[0xA9, 0x00, 0xD0, 0x10], 2);
    assert_eq!((cpu.cycles, cpu.pc), (4, 0x1004));
    let (cpu, _) = run(&[0xA9, 0x01, 0xD0, 0x10], 2);
    assert_eq!((cpu.cycles, cpu.pc), (5, 0x1014));
    let (cpu, _) = run(&[0xA9, 0x01, 0xD0, 0xF0], 2);
    assert_eq!((cpu.cycles, cpu.pc), (6, 0x0FF4));
    // Read-modify-write abs,X: 7.
    let (cpu, _) = run(&[0xFE, 0x00, 0x20], 1);
    assert_eq!(cpu.cycles, 7);
}

#[test]
fn zero_page_indexing_wraps() {
    let mut bus = Flat(vec![0; 0x10000]);
    bus.0[0x1000..0x1004].copy_from_slice(&[0xA2, 0x10, 0xB5, 0xF8]);
    bus.0[0x08] = 0x77;
    let mut cpu = Cpu::new();
    cpu.reset_at(0x1000);
    cpu.step(&mut bus);
    cpu.step(&mut bus);
    assert_eq!(cpu.a, 0x77);
}

#[test]
fn indirect_modes_record_their_pointer() {
    // LDX #$02, STA ($F9,X): the recorded pointer is the operand before indexing.
    let mut bus = Flat(vec![0; 0x10000]);
    bus.0[0x1000..0x1004].copy_from_slice(&[0xA2, 0x02, 0x81, 0xF9]);
    bus.0[0xFB] = 0x34;
    bus.0[0xFC] = 0x12;
    let mut cpu = Cpu::new();
    cpu.reset_at(0x1000);
    cpu.tracking = true;
    cpu.step(&mut bus);
    cpu.step(&mut bus);
    let op = cpu.last_op.unwrap();
    assert_eq!((op.mode, op.addr, op.ptr), (AddrMode::IndirectX, 0x1234, 0xF9));
}

#[test]
fn brk_vectors_when_it_does_not_stop() {
    let mut bus = Flat(vec![0; 0x10000]);
    bus.0[0xFFFE] = 0x00;
    bus.0[0xFFFF] = 0x40;
    let mut cpu = Cpu::new();
    cpu.brk_stops = false;
    cpu.reset_at(0x1000);
    assert!(cpu.step(&mut bus));
    assert_eq!(cpu.pc, 0x4000);
    assert_eq!(cpu.sp, 0xFC);
    // Return address past the signature byte, then the status with B set.
    assert_eq!(&bus.0[0x01FD..0x0200], &[0x30, 0x02, 0x10]);
    assert!(cpu.flag(FLAG_I));
}

#[test]
fn undocumented_operations() {
    // LAX $20: A = X = memory.
    let mut bus = Flat(vec![0; 0x10000]);
    bus.0[0x20] = 0x81;
    bus.0[0x1000..0x1002].copy_from_slice(&[0xA7, 0x20]);
    let mut cpu = Cpu::new();
    cpu.reset_at(0x1000);
    cpu.step(&mut bus);
    assert_eq!((cpu.a, cpu.x), (0x81, 0x81));
    assert!(cpu.flag(FLAG_N));

    // SLO $20: shift left, then ORA.
    let (cpu, bus) = run_with(0x20, 0x81, &[0xA9, 0x01, 0x07, 0x20], 2);
    assert_eq!((bus.0[0x20], cpu.a), (0x02, 0x03));
    assert!(cpu.flag(FLAG_C));
    // SRE $20: shift right, then EOR.
    let (cpu, bus) = run_with(0x20, 0x03, &[0xA9, 0xFF, 0x47, 0x20], 2);
    assert_eq!((bus.0[0x20], cpu.a), (0x01, 0xFE));
    // RLA $20 with carry: rotate left, then AND.
    let (cpu, bus) = run_with(0x20, 0x40, &[0x38, 0xA9, 0xF0, 0x27, 0x20], 3);
    assert_eq!((bus.0[0x20], cpu.a), (0x81, 0x80));
    // RRA $20: rotate right, then ADC with the shifted-out carry.
    let (cpu, bus) = run_with(0x20, 0x03, &[0x18, 0xA9, 0x10, 0x67, 0x20], 3);
    assert_eq!((bus.0[0x20], cpu.a), (0x01, 0x12));
    // ISC $20: increment, then SBC.
    let (cpu, bus) = run_with(0x20, 0x04, &[0x38, 0xA9, 0x10, 0xE7, 0x20], 3);
    assert_eq!((bus.0[0x20], cpu.a), (0x05, 0x0B));
    // ANC #: AND, carry from bit 7.
    let (cpu, _) = run(&[0xA9, 0xFF, 0x0B, 0x80], 2);
    assert_eq!(cpu.a, 0x80);
    assert!(cpu.flag(FLAG_C));
    // ALR #: AND, then LSR.
    let (cpu, _) = run(&[0xA9, 0xFF, 0x4B, 0x03], 2);
    assert_eq!(cpu.a, 0x01);
    assert!(cpu.flag(FLAG_C));
    // SBX #: X = (A & X) - operand.
    let (cpu, _) = run(&[0xA9, 0x0F, 0xA2, 0x3C, 0xCB, 0x04], 3);
    assert_eq!(cpu.x, 0x08);
    assert!(cpu.flag(FLAG_C));
}

fn run_with(addr: u16, value: u8, prog: &[u8], steps: usize) -> (Cpu, Flat) {
    let mut bus = Flat(vec![0; 0x10000]);
    bus.0[addr as usize] = value;
    bus.0[0x1000..0x1000 + prog.len()].copy_from_slice(prog);
    let mut cpu = Cpu::new();
    cpu.reset_at(0x1000);
    for _ in 0..steps {
        cpu.step(&mut bus);
    }
    (cpu, bus)
}

#[test]
fn reset_clears_registers_and_counters() {
    let (mut cpu, _) = run(&[0xA9, 0x42, 0xA2, 0x01, 0xA0, 0x02, 0x48], 4);
    assert_eq!(cpu.sp, 0xFE);
    cpu.reset_at(0x2000);
    assert_eq!((cpu.a, cpu.x, cpu.y, cpu.sp, cpu.p), (0, 0, 0, 0xFF, 0x20));
    assert_eq!((cpu.pc, cpu.cycles, cpu.instructions), (0x2000, 0, 0));
    assert!(cpu.running());
    let fresh = Cpu::default();
    assert_eq!((fresh.pc, fresh.sp, fresh.brk_stops, fresh.tracking), (0, 0xFF, true, false));
}

#[test]
fn addressing_modes_have_names() {
    let names: Vec<&str> = [
        AddrMode::ZeroPage,
        AddrMode::ZeroPageX,
        AddrMode::ZeroPageY,
        AddrMode::Absolute,
        AddrMode::AbsoluteX,
        AddrMode::AbsoluteY,
        AddrMode::IndirectX,
        AddrMode::IndirectY,
    ]
    .iter()
    .map(|m| m.name())
    .collect();
    assert_eq!(names, ["zp", "zp,x", "zp,y", "abs", "abs,x", "abs,y", "(zp,x)", "(zp),y"]);
    assert!(AddrMode::IndirectX.is_indirect() && AddrMode::IndirectY.is_indirect());
    assert!(!AddrMode::AbsoluteY.is_indirect());
}

#[test]
fn nop_reads_are_recorded() {
    let mut bus = Flat(vec![0; 0x10000]);
    bus.0[0x20] = 0x77;
    bus.0[0x1000..0x1002].copy_from_slice(&[0x04, 0x20]);
    let mut cpu = Cpu::new();
    cpu.reset_at(0x1000);
    cpu.tracking = true;
    cpu.step(&mut bus);
    let op = cpu.last_op.unwrap();
    assert!(!op.write && op.illegal);
    assert_eq!((op.mode, op.addr, op.value, op.ptr), (AddrMode::ZeroPage, 0x20, 0x77, 0));
    assert_eq!(cpu.cycles, 3);
    // NOP $20F0,X crosses a page.
    bus.0[0x1002..0x1005].copy_from_slice(&[0x1C, 0xF0, 0x20]);
    bus.0[0x2110] = 0x55;
    cpu.x = 0x20;
    cpu.step(&mut bus);
    let op = cpu.last_op.unwrap();
    assert_eq!((op.mode, op.addr, op.value), (AddrMode::AbsoluteX, 0x2110, 0x55));
    assert_eq!((cpu.cycles, cpu.a, cpu.p), (8, 0, 0x20));
    // NOP without an addressing mode touches nothing.
    bus.0[0x1005..0x1008].copy_from_slice(&[0x1A, 0x80, 0x20]);
    cpu.step(&mut bus);
    assert!(cpu.last_op.is_none());
    cpu.step(&mut bus);
    assert!(cpu.last_op.is_none());
}

#[test]
fn spare_status_bits_stay() {
    // PLP pulls $FF: the B bit is dropped and the unused bit is kept.
    let (cpu, _) = run(&[0xA9, 0xFF, 0x48, 0x28], 3);
    assert_eq!(cpu.p, 0xEF);
    let (cpu, _) = run(&[0xA9, 0x00, 0x48, 0x28], 3);
    assert_eq!(cpu.p, 0x20);
}
