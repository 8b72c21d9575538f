//! Write-range tracing.

use unidecrunch::writelist::WriteList;
use unidecrunch::{AddrMode, Bus, C64Mem, Cpu, MemOp};

/// Drive a tiny program and return the traced ranges.
fn trace(prog: &[u8], at: u16, steps: usize) -> WriteList {
    let mut mem = C64Mem::new();
    for (i, &b) in prog.iter().enumerate() {
        mem.write(at + i as u16, b);
    }
    let mut cpu = Cpu::new();
    cpu.reset_at(at);
    cpu.tracking = true;
    let mut wl = WriteList::new();
    for _ in 0..steps {
        let pc = cpu.pc;
        if !cpu.step(&mut mem) {
            break;
        }
        wl.track(&cpu, pc, mem.io_visible());
    }
    wl
}

#[test]
fn forward_copy_loop_becomes_one_range() {
    // LDX #0; loop: LDA #$AA, STA $2000,X; INX; BNE loop
    let prog = [0xA2, 0x00, 0xA9, 0xAA, 0x9D, 0x00, 0x20, 0xE8, 0xD0, 0xFA];
    let wl = trace(&prog, 0x1000, 3000);
    let seqs = wl.sequences();
    assert_eq!(seqs.len(), 1);
    assert_eq!(seqs[0].min_addr(), 0x2000);
    assert_eq!(seqs[0].max_addr(), 0x20FF);
    assert_eq!(seqs[0].is_forward, Some(true));
    assert_eq!(seqs[0].mode, AddrMode::AbsoluteX);
}

#[test]
fn indirect_ranges_bridge_large_gaps() {
    // Write via ($FB),Y at $3000, then repoint to $8000 and write again:
    // same pointer => one range spanning both.
    // LDA #$00 STA $FB, LDA #$30 STA $FC, LDA #1 LDY #0 STA ($FB),Y
    // LDA #$80 STA $FC, LDA #2 STA ($FB),Y
    let prog = [
        0xA9, 0x00, 0x85, 0xFB, 0xA9, 0x30, 0x85, 0xFC, 0xA9, 0x01, 0xA0, 0x00, 0x91, 0xFB, 0xA9,
        0x80, 0x85, 0xFC, 0xA9, 0x02, 0x91, 0xFB,
    ];
    let mut wl = trace(&prog, 0x1000, 20);
    wl.flush();
    let seqs = wl.sequences();
    let ind: Vec<_> = seqs.iter().filter(|r| r.is_indirect()).collect();
    assert_eq!(ind.len(), 1);
    assert_eq!(ind[0].min_addr(), 0x3000);
    assert_eq!(ind[0].max_addr(), 0x8000);
}

#[test]
fn stack_and_io_writes_are_noise() {
    // PHA (stack) + STA $D020 (I/O, but $01=$37 -> io visible, still noise)
    let prog = [0xA9, 0x05, 0x48, 0x8D, 0x20, 0xD0];
    let wl = trace(&prog, 0x1000, 4);
    assert!(wl.is_empty());
}

#[test]
fn rewrite_of_same_address_ignored() {
    // Two writes to $2000: only the first extends anything.
    let prog = [0xA9, 0x01, 0x8D, 0x00, 0x20, 0xA9, 0x02, 0x8D, 0x00, 0x20];
    let wl = trace(&prog, 0x1000, 6);
    let seqs = wl.sequences();
    assert_eq!(seqs.len(), 1);
    assert_eq!(seqs[0].write_count, 1);
}

/// A CPU that has just written `addr` from documented code.
fn wrote(addr: u16, mode: AddrMode, ptr: u8, now: u64) -> Cpu {
    let mut cpu = Cpu::new();
    cpu.tracking = true;
    cpu.instructions = now;
    cpu.last_op = Some(MemOp { write: true, mode, addr, value: 0, ptr, illegal: false });
    cpu
}

fn write_run(wl: &mut WriteList, addrs: &[u16], mode: AddrMode, ptr: u8, pc: u16, from: u64) {
    for (i, &a) in addrs.iter().enumerate() {
        wl.track(&wrote(a, mode, ptr, from + i as u64), pc, true);
    }
}

#[test]
fn reverse_loops_become_reverse_ranges() {
    let mut wl = WriteList::new();
    let addrs: Vec<u16> = (0x3000..0x3040).rev().collect();
    write_run(&mut wl, &addrs, AddrMode::IndirectY, 0xFB, 0x1000, 1);
    let r = wl.sequences()[0];
    assert_eq!((r.start_addr, r.end_addr), (0x303F, 0x3000));
    assert_eq!((r.min_addr(), r.max_addr(), r.size()), (0x3000, 0x303F, 64));
    assert_eq!(r.direction(), "reverse");
    assert_eq!((r.first_write_instr, r.last_write_instr, r.write_count), (1, 64, 64));
    assert!(r.is_indirect());
    assert_eq!(r.base_ptr, 0xFB);
}

#[test]
fn single_writes_have_no_direction() {
    let mut wl = WriteList::new();
    write_run(&mut wl, &[0x3000], AddrMode::Absolute, 0, 0x1000, 1);
    let r = wl.sequences()[0];
    assert_eq!((r.is_forward, r.direction(), r.size()), (None, "single", 1));
    write_run(&mut wl, &[0x3001], AddrMode::Absolute, 0, 0x1000, 2);
    assert_eq!(wl.sequences()[0].direction(), "forward");
}

#[test]
fn direct_writes_need_nearby_code_time_and_addresses() {
    let near = |addr: u16, pc: u16, now: u64| {
        let mut wl = WriteList::new();
        write_run(&mut wl, &[0x3000], AddrMode::AbsoluteX, 0, 0x1000, 1);
        wl.track(&wrote(addr, AddrMode::AbsoluteX, 0, now), pc, true);
        wl.len()
    };
    assert_eq!(near(0x3020, 0x1000, 2), 1);
    assert_eq!(near(0x3021, 0x1000, 2), 2);
    assert_eq!(near(0x2FE0, 0x1000, 2), 1);
    assert_eq!(near(0x3001, 0x1080, 2), 1);
    assert_eq!(near(0x3001, 0x1081, 2), 2);
    assert_eq!(near(0x3001, 0x1000, 50_001), 1);
    assert_eq!(near(0x3001, 0x1000, 50_002), 2);
}

#[test]
fn indirect_writes_are_grouped_by_pointer() {
    let mut wl = WriteList::new();
    write_run(&mut wl, &[0x3000, 0x9000], AddrMode::IndirectY, 0xFB, 0x1000, 1);
    write_run(&mut wl, &[0x3001], AddrMode::IndirectY, 0xFD, 0x1000, 10);
    write_run(&mut wl, &[0x3002], AddrMode::IndirectX, 0xFB, 0x1000, 20);
    assert_eq!(wl.len(), 3);
    assert_eq!(wl.written_count(), 4);
    let sizes: Vec<u32> = wl.sequences().iter().map(|r| r.size()).collect();
    assert_eq!(sizes, [0x6001, 1, 1]);
}

#[test]
fn noise_depends_on_mode_and_banking() {
    let count = |addr: u16, mode: AddrMode, io: bool| {
        let mut wl = WriteList::new();
        wl.track(&wrote(addr, mode, 0xFB, 1), 0x1000, io);
        wl.written_count()
    };
    assert_eq!(count(0x00FA, AddrMode::ZeroPage, true), 0);
    assert_eq!(count(0x00FB, AddrMode::ZeroPageX, true), 1);
    assert_eq!(count(0x00FA, AddrMode::Absolute, true), 1);
    assert_eq!(count(0x0100, AddrMode::AbsoluteX, true), 0);
    assert_eq!(count(0x01FF, AddrMode::Absolute, false), 0);
    assert_eq!(count(0x0200, AddrMode::Absolute, true), 1);
    assert_eq!(count(0xD000, AddrMode::Absolute, true), 0);
    assert_eq!(count(0xDFFF, AddrMode::Absolute, false), 1);
    assert_eq!(count(0xE000, AddrMode::Absolute, true), 1);
    // Indirect writes are never noise.
    assert_eq!(count(0x0100, AddrMode::IndirectY, true), 1);
    assert_eq!(count(0xD020, AddrMode::IndirectX, true), 1);
}

#[test]
fn reads_illegal_writes_and_untracked_steps_do_not_count() {
    let mut wl = WriteList::new();
    let mut cpu = wrote(0x3000, AddrMode::Absolute, 0, 1);
    cpu.tracking = false;
    wl.track(&cpu, 0x1000, true);
    cpu.tracking = true;
    cpu.last_op = Some(MemOp { write: false, ..cpu.last_op.unwrap() });
    wl.track(&cpu, 0x1000, true);
    cpu.last_op = Some(MemOp { write: true, illegal: true, ..cpu.last_op.unwrap() });
    wl.track(&cpu, 0x1000, true);
    cpu.last_op = None;
    wl.track(&cpu, 0x1000, true);
    assert!(wl.is_empty() && wl.written_count() == 0);
    wl.include_illegal_writes = true;
    cpu.last_op =
        Some(MemOp { write: true, mode: AddrMode::Absolute, addr: 0x3000, value: 0, ptr: 0, illegal: true });
    wl.track(&cpu, 0x1000, true);
    assert!(wl.was_written(0x3000) && !wl.was_written(0x3001));
    assert_eq!(wl.len(), 1);
}

#[test]
fn flush_drops_small_direct_ranges_only() {
    let mut wl = WriteList::new();
    write_run(&mut wl, &(0x3000..0x300F).collect::<Vec<u16>>(), AddrMode::AbsoluteX, 0, 0x1000, 1);
    write_run(&mut wl, &(0x5000..0x5010).collect::<Vec<u16>>(), AddrMode::AbsoluteX, 0, 0x2000, 100);
    write_run(&mut wl, &[0x7000, 0x7001], AddrMode::IndirectY, 0xFB, 0x1000, 200);
    wl.flush();
    let starts: Vec<u16> = wl.sequences().iter().map(|r| r.min_addr()).collect();
    assert_eq!(starts, [0x5000, 0x7000]);
    // What was written stays known.
    assert!(wl.was_written(0x3000));
    wl.clean_lists(16);
    let starts: Vec<u16> = wl.sequences().iter().map(|r| r.min_addr()).collect();
    assert_eq!(starts, [0x5000]);
    assert_eq!(wl.written_count(), 15 + 16 + 2);
}

#[test]
fn neighbours_are_merged_and_lose_nothing() {
    // Two forward loops from distant code, meeting in the middle.
    let mut wl = WriteList::new();
    write_run(&mut wl, &(0x3010..0x3020).collect::<Vec<u16>>(), AddrMode::AbsoluteX, 0, 0x1000, 50);
    write_run(&mut wl, &(0x3000..0x3010).collect::<Vec<u16>>(), AddrMode::AbsoluteX, 0, 0x2000, 10);
    assert_eq!(wl.len(), 2);
    wl.flush();
    assert_eq!(wl.len(), 1);
    let r = wl.sequences()[0];
    assert_eq!((r.min_addr(), r.max_addr(), r.write_count), (0x3000, 0x301F, 32));
    assert_eq!((r.first_write_instr, r.last_write_instr), (10, 65));
    assert_eq!(r.instruction_pc, 0x2000);
}

#[test]
fn merged_reverse_ranges_keep_their_low_end() {
    // A reverse loop, and a forward loop from distant code right above it.
    let mut wl = WriteList::new();
    write_run(
        &mut wl,
        &(0x3000..0x3020).rev().collect::<Vec<u16>>(),
        AddrMode::AbsoluteX,
        0,
        0x1000,
        1,
    );
    write_run(&mut wl, &(0x3020..0x3040).collect::<Vec<u16>>(), AddrMode::AbsoluteX, 0, 0x2000, 100);
    wl.flush();
    let r = wl.sequences()[0];
    assert_eq!(wl.len(), 1);
    // Reverse: the start is the highest address, the end the lowest.
    assert_eq!((r.start_addr, r.end_addr), (0x303F, 0x3000));
    assert_eq!((r.direction(), r.write_count), ("reverse", 64));
}

#[test]
fn different_modes_and_pointers_are_not_merged() {
    let mut wl = WriteList::new();
    write_run(&mut wl, &(0x3000..0x3020).collect::<Vec<u16>>(), AddrMode::AbsoluteX, 0, 0x1000, 1);
    write_run(&mut wl, &(0x3020..0x3040).collect::<Vec<u16>>(), AddrMode::AbsoluteY, 0, 0x1000, 100);
    write_run(&mut wl, &(0x3040..0x3060).collect::<Vec<u16>>(), AddrMode::IndirectY, 0xFB, 0x1000, 200);
    write_run(&mut wl, &(0x3060..0x3080).collect::<Vec<u16>>(), AddrMode::IndirectY, 0xFD, 0x1000, 300);
    wl.flush();
    wl.clean_lists(16);
    assert_eq!(wl.len(), 4);
    let modes: Vec<AddrMode> = wl.sequences().iter().map(|r| r.mode).collect();
    assert_eq!(
        modes,
        [AddrMode::AbsoluteX, AddrMode::AbsoluteY, AddrMode::IndirectY, AddrMode::IndirectY]
    );
}

#[test]
fn counts_add_up_over_many_ranges() {
    // More than a hundred scattered ranges force merging along the way.
    let mut wl = WriteList::new();
    for i in 0..250u16 {
        write_run(&mut wl, &[0x2000 + i * 0x40], AddrMode::Absolute, 0, 0x1000, i as u64);
    }
    let total: u32 = wl.sequences().iter().map(|r| r.write_count).sum();
    assert_eq!(total as usize, wl.written_count());
    assert_eq!(wl.written_count(), 250);
    let list = wl.sequences();
    assert!(list.windows(2).all(|w| w[0].min_addr() <= w[1].min_addr()));
}

#[test]
fn summary_lists_every_range() {
    let mut wl = WriteList::default();
    assert_eq!(wl.summary(), "Write ranges: 0 (0 unique addresses)\n");
    write_run(&mut wl, &[0x3000, 0x3001], AddrMode::AbsoluteX, 0, 0x1000, 1);
    write_run(&mut wl, &[0x2001, 0x2000], AddrMode::IndirectY, 0xFB, 0x1000, 10);
    assert_eq!(
        wl.summary(),
        "Write ranges: 2 (4 unique addresses)\n  \
         1. (zp),y  $2000-$2001  2 bytes (2 writes) [base=$fb] reverse\n  \
         2. abs,x   $3000-$3001  2 bytes (2 writes) [PC=$1000] forward\n  \
         largest: $3000-$3001 (2 bytes) via abs,x\n"
    );
}

#[test]
fn settings_can_be_changed() {
    let mut wl = WriteList::new();
    wl.set_include_illegal_writes(true);
    wl.set_max_gap_for_merge(4);
    wl.set_max_pc_distance(5);
    wl.set_max_instr_between_direct_writes(6);
    assert!(wl.include_illegal_writes);
    assert_eq!((wl.max_gap_for_merge, wl.max_pc_distance), (4, 5));
    assert_eq!(wl.max_instr_between_direct_writes, 6);
    let mut cpu = wrote(0x3000, AddrMode::Absolute, 0, 1);
    cpu.last_op = Some(MemOp { illegal: true, ..cpu.last_op.unwrap() });
    wl.track(&cpu, 0x1000, true);
    assert!(wl.was_written(0x3000));
    wl.set_include_illegal_writes(false);
    cpu.last_op = Some(MemOp { addr: 0x3001, ..cpu.last_op.unwrap() });
    wl.track(&cpu, 0x1000, true);
    assert!(!wl.was_written(0x3001));
}

#[test]
fn flush_keeps_every_pointer() {
    let mut wl = WriteList::new();
    write_run(&mut wl, &[0x2000, 0x4000], AddrMode::IndirectY, 0xFB, 0x1000, 1);
    write_run(&mut wl, &[0x6000], AddrMode::IndirectY, 0xFD, 0x1000, 10);
    write_run(&mut wl, &[0x7000], AddrMode::IndirectX, 0xFD, 0x1000, 20);
    wl.flush();
    let streams: Vec<(AddrMode, u8)> =
        wl.sequences().iter().map(|r| (r.mode, r.base_ptr)).collect();
    assert_eq!(
        streams,
        [(AddrMode::IndirectY, 0xFB), (AddrMode::IndirectY, 0xFD), (AddrMode::IndirectX, 0xFD)]
    );
}
