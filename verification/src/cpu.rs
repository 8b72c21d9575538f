//! NMOS 6502 / 6510 core.
//!
//! The core drives memory through a `Bus` trait (so it can bank C64 memory) and
//! implements the full opcode map: every documented opcode plus all stable
//! undocumented ones, decimal mode with NMOS flag semantics, and per-instruction
//! memory-access tracking (`MemOp`) for write-range analysis.
//!
//! Cycle counting uses correct per-opcode base cycles, +1 for indexed reads that
//! cross a page, and +1 for taken branches (+1 more across a page). RMW and store
//! forms use their fixed worst-case counts. `instructions` counts executed
//! instructions separately. Both counters wrap at 64 bits.
//!
//! Every method is described by a specification function that maps the CPU and
//! the bus before it to the CPU and the bus after it.

use vstd::prelude::*;

use crate::bits::{
    FLAG_B, FLAG_C, FLAG_D, FLAG_I, FLAG_N, FLAG_U, FLAG_V, FLAG_Z,
};
use crate::instr::{
    decode, is_undocumented, AddrMode, Instr, MaskedOp, ReadOp, RegOp, RmwOp, StoreOp,
};

verus! {

use crate::bits::{
    bit_at, bool_int, flag_set, high_byte, low_byte, pulled_status, pushed_status, signed,
    with_flag, with_zn, word, wrap16, wrap8,
};
use crate::instr::{instruction, undocumented};

/// Memory bus the CPU talks to. Instruction fetches, stack and pointer reads all go
/// through the bus, so banked memory behaves like the real machine.
///
/// An implementation says what a read returns, and what a read and a write make of
/// the bus.
pub trait Bus: Sized {
    /// The byte a read of `addr` returns.
    spec fn value_at(&self, addr: u16) -> u8;

    /// The bus after a read of `addr`.
    spec fn after_read(&self, addr: u16) -> Self;

    /// The bus after a write of `v` to `addr`.
    spec fn after_write(&self, addr: u16, v: u8) -> Self;

    fn read(&mut self, addr: u16) -> (v: u8)
        ensures
            v == old(self).value_at(addr),
            *final(self) == old(self).after_read(addr),
    ;

    fn write(&mut self, addr: u16, v: u8)
        ensures
            *final(self) == old(self).after_write(addr, v),
    ;
}

/// One tracked memory access performed by the last executed instruction.
#[derive(Clone, Copy, Debug)]
pub struct MemOp {
    pub write: bool,
    pub mode: AddrMode,
    pub addr: u16,
    pub value: u8,
    /// For the indirect modes: the zero-page operand byte of the instruction
    /// (the pointer location, before X pre-indexing). 0 for direct modes.
    /// Write-range analysis groups indirect writes by this pointer.
    pub ptr: u8,
    /// The access came from an undocumented opcode. Analyzers may want to
    /// filter these; the write-range heuristics exclude them by default.
    pub illegal: bool,
}

pub struct Cpu {
    pub a: u8,
    pub x: u8,
    pub y: u8,
    pub sp: u8,
    pub pc: u16,
    /// NV-BDIZC
    pub p: u8,
    /// Real 6502 cycles, including page-cross and branch penalties.
    pub cycles: u64,
    /// Executed instruction count (the unit the detection heuristics are
    /// calibrated in).
    pub instructions: u64,
    /// A JAM/KIL opcode was executed; the CPU is halted for good.
    pub jammed: bool,
    /// BRK was executed while `brk_stops` is true.
    pub brk_hit: bool,
    /// When true (default), BRK halts execution, treating it as a program that
    /// ran off the rails. When false, BRK vectors through $FFFE like real hardware.
    pub brk_stops: bool,
    /// Enable memory-access tracking (`last_op`). Off by default; it costs a little.
    pub tracking: bool,
    /// The memory access performed by the last `step()`, if tracking is on and the
    /// instruction touched memory through an addressing mode. For read-modify-write
    /// instructions the *write* is recorded.
    pub last_op: Option<MemOp>,
    /// Zero-page operand of the most recent indirect effective-address resolution.
    pub zp_operand: u8,
    /// Opcode currently being executed (for MemOp::illegal classification).
    pub current_opcode: u8,
}

// ---------------------------------------------------------------------------
// Registers and flags
// ---------------------------------------------------------------------------

/// The CPU as `Cpu::new` makes it.
pub open spec fn power_on_cpu() -> Cpu {
    Cpu {
        a: 0,
        x: 0,
        y: 0,
        sp: 0xFF,
        pc: 0,
        p: FLAG_U,
        cycles: 0,
        instructions: 0,
        jammed: false,
        brk_hit: false,
        brk_stops: true,
        tracking: false,
        last_op: None,
        zp_operand: 0,
        current_opcode: 0,
    }
}

/// The CPU `c` prepared to run code at `pc`.
pub open spec fn reset_cpu(c: Cpu, pc: u16) -> Cpu {
    Cpu {
        pc,
        sp: 0xFF,
        p: FLAG_U,
        a: 0,
        x: 0,
        y: 0,
        cycles: 0,
        instructions: 0,
        jammed: false,
        brk_hit: false,
        last_op: None,
        ..c
    }
}

/// The CPU can keep executing: not jammed, no stopping BRK executed.
pub open spec fn is_running(c: Cpu) -> bool {
    !c.jammed && !c.brk_hit
}

/// `c` after `n` more cycles.
pub open spec fn charged(c: Cpu, n: u64) -> Cpu {
    Cpu { cycles: c.cycles.wrapping_add(n), ..c }
}

/// `c` with the flag `m` switched to `on`.
pub open spec fn flagged(c: Cpu, m: u8, on: bool) -> Cpu {
    Cpu { p: with_flag(c.p, m, on), ..c }
}

/// `c` with Z and N describing `v`.
pub open spec fn zn(c: Cpu, v: u8) -> Cpu {
    Cpu { p: with_zn(c.p, v), ..c }
}

// ---------------------------------------------------------------------------
// Bus access
// ---------------------------------------------------------------------------

/// Fetch the byte at the PC.
pub open spec fn fetched<B: Bus>(c: Cpu, b: B) -> (u8, Cpu, B) {
    (b.value_at(c.pc), Cpu { pc: c.pc.wrapping_add(1), ..c }, b.after_read(c.pc))
}

/// Fetch the little-endian word at the PC.
pub open spec fn fetched_word<B: Bus>(c: Cpu, b: B) -> (u16, Cpu, B) {
    let (lo, c1, b1) = fetched(c, b);
    let (hi, c2, b2) = fetched(c1, b1);
    (word(lo, hi), c2, b2)
}

/// The stack slot that `sp` points to.
pub open spec fn stack_slot(sp: u8) -> u16 {
    (0x100 + sp) as u16
}

/// Push a byte.
pub open spec fn pushed<B: Bus>(c: Cpu, b: B, v: u8) -> (Cpu, B) {
    (Cpu { sp: c.sp.wrapping_sub(1), ..c }, b.after_write(stack_slot(c.sp), v))
}

/// Pull a byte.
pub open spec fn pulled<B: Bus>(c: Cpu, b: B) -> (u8, Cpu, B) {
    let sp = c.sp.wrapping_add(1);
    (b.value_at(stack_slot(sp)), Cpu { sp, ..c }, b.after_read(stack_slot(sp)))
}

/// Push the two bytes of a word, high byte first.
pub open spec fn pushed_word<B: Bus>(c: Cpu, b: B, w: u16) -> (Cpu, B) {
    let (c1, b1) = pushed(c, b, high_byte(w));
    pushed(c1, b1, low_byte(w))
}

/// Pull a word, low byte first.
pub open spec fn pulled_word<B: Bus>(c: Cpu, b: B) -> (u16, Cpu, B) {
    let (lo, c1, b1) = pulled(c, b);
    let (hi, c2, b2) = pulled(c1, b1);
    (word(lo, hi), c2, b2)
}

/// Read a word whose two bytes lie at `lo_at` and `hi_at`.
pub open spec fn read_pair<B: Bus>(b: B, lo_at: u16, hi_at: u16) -> (u16, B) {
    let b1 = b.after_read(lo_at);
    (word(b.value_at(lo_at), b1.value_at(hi_at)), b1.after_read(hi_at))
}

/// Whether two addresses lie on different 256-byte pages.
pub open spec fn other_page(x: u16, y: u16) -> bool {
    x / 0x100 != y / 0x100
}

/// Resolve an effective address: the address, whether indexing crossed a page,
/// and the state after the operand was consumed.
#[verifier::opaque]
pub open spec fn resolved<B: Bus>(c: Cpu, b: B, m: AddrMode) -> (u16, bool, Cpu, B) {
    match m {
        AddrMode::ZeroPage => {
            let (zp, c1, b1) = fetched(c, b);
            (zp as u16, false, c1, b1)
        },
        AddrMode::ZeroPageX => {
            let (zp, c1, b1) = fetched(c, b);
            (zp.wrapping_add(c.x) as u16, false, c1, b1)
        },
        AddrMode::ZeroPageY => {
            let (zp, c1, b1) = fetched(c, b);
            (zp.wrapping_add(c.y) as u16, false, c1, b1)
        },
        AddrMode::Absolute => {
            let (addr, c1, b1) = fetched_word(c, b);
            (addr, false, c1, b1)
        },
        AddrMode::AbsoluteX => {
            let (base, c1, b1) = fetched_word(c, b);
            let addr = base.wrapping_add(c.x as u16);
            (addr, other_page(base, addr), c1, b1)
        },
        AddrMode::AbsoluteY => {
            let (base, c1, b1) = fetched_word(c, b);
            let addr = base.wrapping_add(c.y as u16);
            (addr, other_page(base, addr), c1, b1)
        },
        AddrMode::IndirectX => {
            let (operand, c1, b1) = fetched(c, b);
            let zp = operand.wrapping_add(c.x);
            let (addr, b2) = read_pair(b1, zp as u16, zp.wrapping_add(1) as u16);
            (addr, false, Cpu { zp_operand: operand, ..c1 }, b2)
        },
        AddrMode::IndirectY => {
            let (zp, c1, b1) = fetched(c, b);
            let (base, b2) = read_pair(b1, zp as u16, zp.wrapping_add(1) as u16);
            let addr = base.wrapping_add(c.y as u16);
            (addr, other_page(base, addr), Cpu { zp_operand: zp, ..c1 }, b2)
        },
    }
}

/// Record a memory access, when tracking is on.
pub open spec fn noted(c: Cpu, write: bool, mode: AddrMode, addr: u16, value: u8) -> Cpu {
    if c.tracking {
        Cpu {
            last_op: Some(
                MemOp {
                    write,
                    mode,
                    addr,
                    value,
                    ptr: if mode.indirect() {
                        c.zp_operand
                    } else {
                        0
                    },
                    illegal: undocumented(c.current_opcode),
                },
            ),
            ..c
        }
    } else {
        c
    }
}

/// Cycles of a read through a mode.
pub open spec fn read_cycles(m: AddrMode, crossed: bool) -> u64 {
    match m {
        AddrMode::ZeroPage => 3,
        AddrMode::ZeroPageX | AddrMode::ZeroPageY | AddrMode::Absolute => 4,
        AddrMode::AbsoluteX | AddrMode::AbsoluteY => (4 + bool_int(crossed)) as u64,
        AddrMode::IndirectX => 6,
        AddrMode::IndirectY => (5 + bool_int(crossed)) as u64,
    }
}

/// Cycles of a store through a mode.
pub open spec fn store_cycles(m: AddrMode) -> u64 {
    match m {
        AddrMode::ZeroPage => 3,
        AddrMode::ZeroPageX | AddrMode::ZeroPageY | AddrMode::Absolute => 4,
        AddrMode::AbsoluteX | AddrMode::AbsoluteY => 5,
        AddrMode::IndirectX | AddrMode::IndirectY => 6,
    }
}

/// Cycles of a read-modify-write through a mode.
pub open spec fn modify_cycles(m: AddrMode) -> u64 {
    (store_cycles(m) + 2) as u64
}

/// Read an operand through a mode; the read is tracked.
#[verifier::opaque]
pub open spec fn loaded<B: Bus>(c: Cpu, b: B, m: AddrMode) -> (u8, Cpu, B) {
    let (addr, crossed, c1, b1) = resolved(c, b, m);
    let v = b1.value_at(addr);
    (v, charged(noted(c1, false, m, addr, v), read_cycles(m, crossed)), b1.after_read(addr))
}

/// Write `v` to a resolved address; the write is tracked.
#[verifier::opaque]
pub open spec fn put<B: Bus>(c: Cpu, b: B, m: AddrMode, addr: u16, v: u8, cycles: u64) -> (Cpu, B) {
    (charged(noted(c, true, m, addr, v), cycles), b.after_write(addr, v))
}

/// Write a value through a mode; the write is tracked.
#[verifier::opaque]
pub open spec fn stored<B: Bus>(c: Cpu, b: B, m: AddrMode, v: u8) -> (Cpu, B) {
    let (addr, _, c1, b1) = resolved(c, b, m);
    put(c1, b1, m, addr, v, store_cycles(m))
}

// ---------------------------------------------------------------------------
// Arithmetic
// ---------------------------------------------------------------------------

/// A decimal digit position of a sum: ten and more is moved past fifteen, so that
/// it carries into the next digit.
pub open spec fn corrected_digit(n: int) -> int {
    if n > 9 {
        n + 6
    } else {
        n
    }
}

/// ADC in decimal mode: Z comes from the binary sum, and N and V from the high
/// digit before its decimal correction.
pub open spec fn adc_decimal(c: Cpu, m: u8, carry: int) -> Cpu {
    let lo: int = corrected_digit(c.a % 16 + m % 16 + carry);
    let hi: int = c.a / 16 + m / 16 + bool_int(lo > 15);
    let sign = bit_at(hi, 8);
    let c1 = flagged(c, FLAG_Z, (c.a + m + carry) % 0x100 == 0);
    let c2 = flagged(c1, FLAG_N, sign);
    let c3 = flagged(c2, FLAG_V, (c.a >= 0x80) == (m >= 0x80) && (c.a >= 0x80) != sign);
    let c4 = flagged(c3, FLAG_C, corrected_digit(hi) > 15);
    Cpu { a: ((corrected_digit(hi) % 16) * 16 + lo % 16) as u8, ..c4 }
}

/// ADC in binary mode: C is the carry out of eight bits, V says that the signed sum
/// does not fit.
pub open spec fn adc_binary(c: Cpu, m: u8, carry: int) -> Cpu {
    let sum: int = c.a + m + carry;
    let total: int = signed(c.a) + signed(m) + carry;
    let c1 = flagged(c, FLAG_C, sum > 0xFF);
    let c2 = flagged(c1, FLAG_V, total < -128 || total > 127);
    zn(Cpu { a: wrap8(sum), ..c2 }, wrap8(sum))
}

/// ADC with NMOS binary and decimal behavior.
#[verifier::opaque]
pub open spec fn adc(c: Cpu, m: u8) -> Cpu {
    let carry: int = bool_int(flag_set(c.p, FLAG_C));
    if flag_set(c.p, FLAG_D) {
        adc_decimal(c, m, carry)
    } else {
        adc_binary(c, m, carry)
    }
}

/// SBC with NMOS binary and decimal behavior; the flags always describe the
/// binary result.
#[verifier::opaque]
pub open spec fn sbc(c: Cpu, m: u8) -> Cpu {
    let borrow: int = 1 - bool_int(flag_set(c.p, FLAG_C));
    let diff: int = c.a - m - borrow;
    let total: int = signed(c.a) - signed(m) - borrow;
    let c1 = flagged(c, FLAG_C, diff >= 0);
    let c2 = flagged(c1, FLAG_V, total < -128 || total > 127);
    if flag_set(c2.p, FLAG_D) {
        let lo0: int = c.a as int % 16 - m as int % 16 - borrow;
        let lo: int = if lo0 < 0 {
            lo0 - 6
        } else {
            lo0
        };
        let hi0: int = c.a as int / 16 - m as int / 16 - bool_int(lo0 < 0);
        let hi: int = if hi0 < 0 {
            hi0 - 6
        } else {
            hi0
        };
        zn(Cpu { a: ((hi % 16) * 16 + lo % 16) as u8, ..c2 }, wrap8(diff))
    } else {
        zn(Cpu { a: wrap8(diff), ..c2 }, wrap8(diff))
    }
}

/// Compare a register with an operand.
pub open spec fn compared(c: Cpu, reg: u8, m: u8) -> Cpu {
    zn(flagged(c, FLAG_C, reg >= m), reg.wrapping_sub(m))
}

/// `v` shifted left.
pub open spec fn shl(v: u8) -> u8 {
    wrap8(2 * v)
}

/// `v` shifted left with the carry flag moving in.
pub open spec fn rol(c: Cpu, v: u8) -> u8 {
    (shl(v) + bool_int(flag_set(c.p, FLAG_C))) as u8
}

/// `v` shifted right with the carry flag moving in.
pub open spec fn ror(c: Cpu, v: u8) -> u8 {
    (v / 2 + 0x80 * bool_int(flag_set(c.p, FLAG_C))) as u8
}

/// What an operation makes of its operand byte.
#[verifier::opaque]
pub open spec fn consumed(c: Cpu, op: ReadOp, v: u8) -> Cpu {
    match op {
        ReadOp::Lda => zn(Cpu { a: v, ..c }, v),
        ReadOp::Ldx => zn(Cpu { x: v, ..c }, v),
        ReadOp::Ldy => zn(Cpu { y: v, ..c }, v),
        ReadOp::And => zn(Cpu { a: c.a & v, ..c }, c.a & v),
        ReadOp::Ora => zn(Cpu { a: c.a | v, ..c }, c.a | v),
        ReadOp::Eor => zn(Cpu { a: c.a ^ v, ..c }, c.a ^ v),
        ReadOp::Bit => flagged(
            flagged(flagged(c, FLAG_Z, c.a & v == 0), FLAG_N, v >= 0x80),
            FLAG_V,
            bit_at(v as int, 0x40),
        ),
        ReadOp::Adc => adc(c, v),
        ReadOp::Sbc => sbc(c, v),
        ReadOp::Cmp => compared(c, c.a, v),
        ReadOp::Cpx => compared(c, c.x, v),
        ReadOp::Cpy => compared(c, c.y, v),
        ReadOp::Lax => zn(Cpu { a: v, x: v, ..c }, v),
        ReadOp::Las => zn(Cpu { a: v & c.sp, x: v & c.sp, sp: v & c.sp, ..c }, v & c.sp),
        ReadOp::Anc => flagged(
            zn(Cpu { a: c.a & v, ..c }, c.a & v),
            FLAG_C,
            (c.a & v) >= 0x80,
        ),
        ReadOp::Alr => flagged(
            zn(Cpu { a: (c.a & v) / 2, ..c }, (c.a & v) / 2),
            FLAG_C,
            (c.a & v) % 2 == 1,
        ),
        ReadOp::Arr => {
            let r = ror(c, c.a & v);
            flagged(
                flagged(zn(Cpu { a: r, ..c }, r), FLAG_C, bit_at(r as int, 0x40)),
                FLAG_V,
                bit_at(r as int, 0x40) != bit_at(r as int, 0x20),
            )
        },
        ReadOp::Sbx => {
            let r = (c.a & c.x).wrapping_sub(v);
            zn(Cpu { x: r, ..flagged(c, FLAG_C, (c.a & c.x) >= v) }, r)
        },
        ReadOp::Ane => zn(
            Cpu { a: (c.a | 0xFF) & c.x & v, ..c },
            (c.a | 0xFF) & c.x & v,
        ),
    }
}

/// The memory half of a read-modify-write: the new byte, and the flags it sets.
#[verifier::opaque]
pub open spec fn modified_byte(c: Cpu, op: RmwOp, v: u8) -> (u8, Cpu) {
    match op {
        RmwOp::Inc => (v.wrapping_add(1), zn(c, v.wrapping_add(1))),
        RmwOp::Dec => (v.wrapping_sub(1), zn(c, v.wrapping_sub(1))),
        RmwOp::Asl => (shl(v), zn(flagged(c, FLAG_C, v >= 0x80), shl(v))),
        RmwOp::Lsr => (v / 2, zn(flagged(c, FLAG_C, v % 2 == 1), v / 2)),
        RmwOp::Rol => (rol(c, v), zn(flagged(c, FLAG_C, v >= 0x80), rol(c, v))),
        RmwOp::Ror => (ror(c, v), zn(flagged(c, FLAG_C, v % 2 == 1), ror(c, v))),
        RmwOp::Slo => (shl(v), flagged(c, FLAG_C, v >= 0x80)),
        RmwOp::Rla => (rol(c, v), flagged(c, FLAG_C, v >= 0x80)),
        RmwOp::Sre => (v / 2, flagged(c, FLAG_C, v % 2 == 1)),
        RmwOp::Rra => (ror(c, v), flagged(c, FLAG_C, v % 2 == 1)),
        RmwOp::Dcp => (v.wrapping_sub(1), c),
        RmwOp::Isc => (v.wrapping_add(1), c),
    }
}

/// The register half of a read-modify-write, given the byte that was written.
#[verifier::opaque]
pub open spec fn combined(c: Cpu, op: RmwOp, m: u8) -> Cpu {
    match op {
        RmwOp::Slo => consumed(c, ReadOp::Ora, m),
        RmwOp::Rla => consumed(c, ReadOp::And, m),
        RmwOp::Sre => consumed(c, ReadOp::Eor, m),
        RmwOp::Rra => consumed(c, ReadOp::Adc, m),
        RmwOp::Dcp => consumed(c, ReadOp::Cmp, m),
        RmwOp::Isc => consumed(c, ReadOp::Sbc, m),
        _ => c,
    }
}

/// Read-modify-write through a mode. The *write* is tracked.
#[verifier::opaque]
pub open spec fn modified<B: Bus>(c: Cpu, b: B, op: RmwOp, m: AddrMode) -> (Cpu, B) {
    let (addr, _, c1, b1) = resolved(c, b, m);
    let (v, c2) = modified_byte(c1, op, b1.value_at(addr));
    let (c3, b3) = put(c2, b1.after_read(addr), m, addr, v, modify_cycles(m));
    (combined(c3, op, v), b3)
}

/// The value a store operation writes.
pub open spec fn store_value(c: Cpu, op: StoreOp) -> u8 {
    match op {
        StoreOp::Sta => c.a,
        StoreOp::Stx => c.x,
        StoreOp::Sty => c.y,
        StoreOp::Sax => c.a & c.x,
    }
}

/// The value a masked store writes before masking.
pub open spec fn masked_value(c: Cpu, op: MaskedOp) -> u8 {
    match op {
        MaskedOp::Sha => c.a & c.x,
        MaskedOp::Shx => c.x,
        MaskedOp::Shy => c.y,
    }
}

/// Register-only operations.
#[verifier::opaque]
pub open spec fn moved(c: Cpu, op: RegOp) -> Cpu {
    match op {
        RegOp::Tax => zn(Cpu { x: c.a, ..c }, c.a),
        RegOp::Tay => zn(Cpu { y: c.a, ..c }, c.a),
        RegOp::Txa => zn(Cpu { a: c.x, ..c }, c.x),
        RegOp::Tya => zn(Cpu { a: c.y, ..c }, c.y),
        RegOp::Tsx => zn(Cpu { x: c.sp, ..c }, c.sp),
        RegOp::Txs => Cpu { sp: c.x, ..c },
        RegOp::Inx => zn(Cpu { x: c.x.wrapping_add(1), ..c }, c.x.wrapping_add(1)),
        RegOp::Dex => zn(Cpu { x: c.x.wrapping_sub(1), ..c }, c.x.wrapping_sub(1)),
        RegOp::Iny => zn(Cpu { y: c.y.wrapping_add(1), ..c }, c.y.wrapping_add(1)),
        RegOp::Dey => zn(Cpu { y: c.y.wrapping_sub(1), ..c }, c.y.wrapping_sub(1)),
    }
}

/// A relative branch, taken or not.
#[verifier::opaque]
pub open spec fn branched<B: Bus>(c: Cpu, b: B, take: bool) -> (Cpu, B) {
    let (off, c1, b1) = fetched(c, b);
    if take {
        let target = wrap16(c1.pc + signed(off));
        (charged(Cpu { pc: target, ..c1 }, (3 + bool_int(other_page(c1.pc, target))) as u64), b1)
    } else {
        (charged(c1, 2), b1)
    }
}

/// BRK: a stop, or a trip through the vector at $FFFE.
#[verifier::opaque]
pub open spec fn broken<B: Bus>(c: Cpu, b: B) -> (Cpu, B) {
    if c.brk_stops {
        (Cpu { brk_hit: true, ..charged(c, 7) }, b)
    } else {
        let (c1, b1) = pushed_word(charged(c, 7), b, c.pc.wrapping_add(1));
        let (c2, b2) = pushed(c1, b1, pushed_status(c.p));
        let (target, b3) = read_pair(b2, 0xFFFE, 0xFFFF);
        (Cpu { pc: target, ..flagged(c2, FLAG_I, true) }, b3)
    }
}

/// What a decoded instruction does once its opcode has been fetched.
#[verifier::opaque]
pub open spec fn executed<B: Bus>(c: Cpu, b: B, i: Instr) -> (Cpu, B) {
    match i {
        Instr::Immediate(op) => {
            let (v, c1, b1) = fetched(c, b);
            (charged(consumed(c1, op, v), 2), b1)
        },
        Instr::Read(op, m) => {
            let (v, c1, b1) = loaded(c, b, m);
            (consumed(c1, op, v), b1)
        },
        Instr::Store(op, m) => stored(c, b, m, store_value(c, op)),
        Instr::Modify(op, m) => modified(c, b, op, m),
        Instr::Accumulator(op) => {
            let (v, c1) = modified_byte(c, op, c.a);
            (charged(Cpu { a: v, ..c1 }, 2), b)
        },
        Instr::Register(op) => (charged(moved(c, op), 2), b),
        Instr::SetFlag(m, on) => (charged(flagged(c, m, on), 2), b),
        Instr::Branch(m, on) => branched(c, b, flag_set(c.p, m) == on),
        Instr::Pha => {
            let (c1, b1) = pushed(c, b, c.a);
            (charged(c1, 3), b1)
        },
        Instr::Pla => {
            let (v, c1, b1) = pulled(c, b);
            (charged(zn(Cpu { a: v, ..c1 }, v), 4), b1)
        },
        Instr::Php => {
            let (c1, b1) = pushed(c, b, pushed_status(c.p));
            (charged(c1, 3), b1)
        },
        Instr::Plp => {
            let (v, c1, b1) = pulled(c, b);
            (charged(Cpu { p: pulled_status(v), ..c1 }, 4), b1)
        },
        Instr::Jmp => {
            let (target, c1, b1) = fetched_word(c, b);
            (charged(Cpu { pc: target, ..c1 }, 3), b1)
        },
        Instr::JmpIndirect => {
            // the high byte is read from the same page as the low byte
            let (ptr, c1, b1) = fetched_word(c, b);
            let (target, b2) = read_pair(b1, ptr, word(low_byte(ptr).wrapping_add(1), high_byte(ptr)));
            (charged(Cpu { pc: target, ..c1 }, 5), b2)
        },
        Instr::Jsr => {
            let (target, c1, b1) = fetched_word(c, b);
            let (c2, b2) = pushed_word(c1, b1, c1.pc.wrapping_sub(1));
            (charged(Cpu { pc: target, ..c2 }, 6), b2)
        },
        Instr::Rts => {
            let (ret, c1, b1) = pulled_word(c, b);
            (charged(Cpu { pc: ret.wrapping_add(1), ..c1 }, 6), b1)
        },
        Instr::Rti => {
            let (p, c1, b1) = pulled(c, b);
            let (ret, c2, b2) = pulled_word(Cpu { p: pulled_status(p), ..c1 }, b1);
            (charged(Cpu { pc: ret, ..c2 }, 6), b2)
        },
        Instr::Brk => broken(c, b),
        Instr::Nop => (charged(c, 2), b),
        Instr::NopImmediate => {
            let (_, c1, b1) = fetched(c, b);
            (charged(c1, 2), b1)
        },
        Instr::NopRead(m) => {
            let (_, c1, b1) = loaded(c, b, m);
            (c1, b1)
        },
        Instr::Masked(op, m) => {
            let (addr, _, c1, b1) = resolved(c, b, m);
            let v = masked_value(c1, op) & high_byte(addr).wrapping_add(1);
            put(c1, b1, m, addr, v, store_cycles(m))
        },
        Instr::Tas => {
            // the mask uses the high byte of the base address, before Y indexing
            let (base, c1, b1) = fetched_word(c, b);
            let c2 = Cpu { sp: c1.a & c1.x, ..c1 };
            let v = c2.sp & high_byte(base).wrapping_add(1);
            put(c2, b1, AddrMode::AbsoluteY, base.wrapping_add(c.y as u16), v, 5)
        },
        Instr::Jam => (charged(Cpu { jammed: true, ..c }, 1), b),
    }
}

/// One executed instruction; nothing at all once the CPU has halted.
pub open spec fn stepped<B: Bus>(c: Cpu, b: B) -> (Cpu, B) {
    if is_running(c) {
        let c0 = if c.tracking {
            Cpu { last_op: None, ..c }
        } else {
            c
        };
        let (op, c1, b1) = fetched(c0, b);
        let (c2, b2) = executed(Cpu { current_opcode: op, ..c1 }, b1, instruction(op));
        (Cpu { instructions: c2.instructions.wrapping_add(1), ..c2 }, b2)
    } else {
        (c, b)
    }
}

// ---------------------------------------------------------------------------
// The emulator
// ---------------------------------------------------------------------------

impl Cpu {
    pub fn new() -> (c: Cpu)
        ensures
            c == power_on_cpu(),
    {
        Cpu {
            a: 0,
            x: 0,
            y: 0,
            sp: 0xFF,
            pc: 0,
            p: FLAG_U,
            cycles: 0,
            instructions: 0,
            jammed: false,
            brk_hit: false,
            brk_stops: true,
            tracking: false,
            last_op: None,
            zp_operand: 0,
            current_opcode: 0,
        }
    }

    /// Prepare the CPU to run code at `pc`: SP=$FF, P=%00100000, A=X=Y=0,
    /// counters cleared.
    pub fn reset_at(&mut self, pc: u16)
        ensures
            *final(self) == reset_cpu(*old(self), pc),
    {
        self.pc = pc;
        self.sp = 0xFF;
        self.p = FLAG_U;
        self.a = 0;
        self.x = 0;
        self.y = 0;
        self.cycles = 0;
        self.instructions = 0;
        self.jammed = false;
        self.brk_hit = false;
        self.last_op = None;
    }

    /// True while the CPU can keep executing (not jammed, no stopping BRK executed).
    pub fn running(&self) -> (b: bool)
        ensures
            b == is_running(*self),
    {
        !self.jammed && !self.brk_hit
    }

    /// Whether the status flag `m` is set.
    pub fn flag(&self, m: u8) -> (b: bool)
        ensures
            b == flag_set(self.p, m),
    {
        self.p & m != 0
    }

    fn setf(&mut self, m: u8, on: bool)
        ensures
            *final(self) == flagged(*old(self), m, on),
    {
        if on {
            self.p = self.p | m;
        } else {
            self.p = self.p & !m;
        }
    }

    fn set_zn(&mut self, v: u8)
        ensures
            *final(self) == zn(*old(self), v),
    {
        self.setf(FLAG_Z, v == 0);
        self.setf(FLAG_N, v >= 0x80);
    }

    fn charge(&mut self, n: u64)
        ensures
            *final(self) == charged(*old(self), n),
    {
        self.cycles = self.cycles.wrapping_add(n);
    }

    fn carry(&self) -> (c: u8)
        ensures
            c == bool_int(flag_set(self.p, FLAG_C)),
    {
        if self.flag(FLAG_C) {
            1
        } else {
            0
        }
    }

    fn fetch<B: Bus>(&mut self, bus: &mut B) -> (v: u8)
        ensures
            (v, *final(self), *final(bus)) == fetched(*old(self), *old(bus)),
    {
        let v: u8 = bus.read(self.pc);
        self.pc = self.pc.wrapping_add(1);
        v
    }

    fn fetch16<B: Bus>(&mut self, bus: &mut B) -> (w: u16)
        ensures
            (w, *final(self), *final(bus)) == fetched_word(*old(self), *old(bus)),
    {
        let lo: u8 = self.fetch(bus);
        let hi: u8 = self.fetch(bus);
        hi as u16 * 0x100 + lo as u16
    }

    fn push<B: Bus>(&mut self, bus: &mut B, v: u8)
        ensures
            (*final(self), *final(bus)) == pushed(*old(self), *old(bus), v),
    {
        bus.write(0x0100 + self.sp as u16, v);
        self.sp = self.sp.wrapping_sub(1);
    }

    fn pop<B: Bus>(&mut self, bus: &mut B) -> (v: u8)
        ensures
            (v, *final(self), *final(bus)) == pulled(*old(self), *old(bus)),
    {
        self.sp = self.sp.wrapping_add(1);
        bus.read(0x0100 + self.sp as u16)
    }

    fn push16<B: Bus>(&mut self, bus: &mut B, w: u16)
        ensures
            (*final(self), *final(bus)) == pushed_word(*old(self), *old(bus), w),
    {
        self.push(bus, (w / 0x100) as u8);
        self.push(bus, (w % 0x100) as u8);
    }

    fn pop16<B: Bus>(&mut self, bus: &mut B) -> (w: u16)
        ensures
            (w, *final(self), *final(bus)) == pulled_word(*old(self), *old(bus)),
    {
        let lo: u8 = self.pop(bus);
        let hi: u8 = self.pop(bus);
        hi as u16 * 0x100 + lo as u16
    }

    /// Effective-address resolution. Returns (address, page_crossed); page_crossed is
    /// only meaningful for AbsoluteX/AbsoluteY/IndirectY reads.
    fn ea<B: Bus>(&mut self, bus: &mut B, m: AddrMode) -> (r: (u16, bool))
        ensures
            (r.0, r.1, *final(self), *final(bus)) == resolved(*old(self), *old(bus), m),
    {
        proof {
            reveal(resolved);
        }
        match m {
            AddrMode::ZeroPage => {
                let zp: u8 = self.fetch(bus);
                (zp as u16, false)
            },
            AddrMode::ZeroPageX => {
                let zp: u8 = self.fetch(bus);
                (zp.wrapping_add(self.x) as u16, false)
            },
            AddrMode::ZeroPageY => {
                let zp: u8 = self.fetch(bus);
                (zp.wrapping_add(self.y) as u16, false)
            },
            AddrMode::Absolute => {
                let addr: u16 = self.fetch16(bus);
                (addr, false)
            },
            AddrMode::AbsoluteX => {
                let base: u16 = self.fetch16(bus);
                let addr: u16 = base.wrapping_add(self.x as u16);
                (addr, base / 0x100 != addr / 0x100)
            },
            AddrMode::AbsoluteY => {
                let base: u16 = self.fetch16(bus);
                let addr: u16 = base.wrapping_add(self.y as u16);
                (addr, base / 0x100 != addr / 0x100)
            },
            AddrMode::IndirectX => {
                let operand: u8 = self.fetch(bus);
                self.zp_operand = operand;
                let zp: u8 = operand.wrapping_add(self.x);
                let addr: u16 = read_word_at(bus, zp as u16, zp.wrapping_add(1) as u16);
                (addr, false)
            },
            AddrMode::IndirectY => {
                let zp: u8 = self.fetch(bus);
                self.zp_operand = zp;
                let base: u16 = read_word_at(bus, zp as u16, zp.wrapping_add(1) as u16);
                let addr: u16 = base.wrapping_add(self.y as u16);
                (addr, base / 0x100 != addr / 0x100)
            },
        }
    }

    fn track(&mut self, write: bool, mode: AddrMode, addr: u16, value: u8)
        ensures
            *final(self) == noted(*old(self), write, mode, addr, value),
    {
        if self.tracking {
            let ptr: u8 = if mode.is_indirect() {
                self.zp_operand
            } else {
                0
            };
            let illegal: bool = is_undocumented(self.current_opcode);
            self.last_op = Some(MemOp { write, mode, addr, value, ptr, illegal });
        }
    }

    /// Read an operand through an addressing mode; tracks the read and charges cycles.
    fn load<B: Bus>(&mut self, bus: &mut B, m: AddrMode) -> (v: u8)
        ensures
            (v, *final(self), *final(bus)) == loaded(*old(self), *old(bus), m),
    {
        proof {
            reveal(loaded);
        }
        let (addr, crossed): (u16, bool) = self.ea(bus, m);
        let v: u8 = bus.read(addr);
        self.track(false, m, addr, v);
        self.charge(cycles_of_read(m, crossed));
        v
    }

    /// Write a byte to a resolved address; tracks the write and charges cycles.
    fn put_byte<B: Bus>(&mut self, bus: &mut B, m: AddrMode, addr: u16, v: u8, cycles: u64)
        ensures
            (*final(self), *final(bus)) == put(*old(self), *old(bus), m, addr, v, cycles),
    {
        proof {
            reveal(put);
        }
        bus.write(addr, v);
        self.track(true, m, addr, v);
        self.charge(cycles);
    }

    /// Write a value through an addressing mode; tracks the write and charges cycles.
    fn store<B: Bus>(&mut self, bus: &mut B, m: AddrMode, v: u8)
        ensures
            (*final(self), *final(bus)) == stored(*old(self), *old(bus), m, v),
    {
        proof {
            reveal(stored);
        }
        let (addr, _): (u16, bool) = self.ea(bus, m);
        self.put_byte(bus, m, addr, v, cycles_of_store(m));
    }

    fn branch<B: Bus>(&mut self, bus: &mut B, take: bool)
        ensures
            (*final(self), *final(bus)) == branched(*old(self), *old(bus), take),
    {
        proof {
            reveal(branched);
        }
        let off: u8 = self.fetch(bus);
        if take {
            let from: u16 = self.pc;
            let target: u16 = if off < 0x80 {
                from.wrapping_add(off as u16)
            } else {
                from.wrapping_sub(0x100 - off as u16)
            };
            self.pc = target;
            if from / 0x100 != target / 0x100 {
                self.charge(4);
            } else {
                self.charge(3);
            }
        } else {
            self.charge(2);
        }
    }

    /// ADC with NMOS binary and decimal behavior.
    fn adc(&mut self, m: u8)
        ensures
            *final(self) == adc(*old(self), m),
    {
        proof {
            reveal(adc);
        }
        let carry: u8 = self.carry();
        if self.flag(FLAG_D) {
            self.add_decimal(m, carry);
        } else {
            self.add_binary(m, carry);
        }
    }

    fn add_decimal(&mut self, m: u8, carry: u8)
        requires
            carry <= 1,
        ensures
            *final(self) == adc_decimal(*old(self), m, carry as int),
    {
        let a: u8 = self.a;
        let lo: u8 = correct_digit(a % 16 + m % 16 + carry);
        let hi: u8 = a / 16 + m / 16 + if lo > 15 {
            1u8
        } else {
            0u8
        };
        let top: u8 = correct_digit(hi);
        let sign: bool = (hi / 8) % 2 == 1;
        let zero: bool = (a as u16 + m as u16 + carry as u16) % 0x100 == 0;
        let digits: u8 = (top % 16) * 16 + lo % 16;
        self.setf(FLAG_Z, zero);
        self.setf(FLAG_N, sign);
        self.setf(FLAG_V, (a >= 0x80) == (m >= 0x80) && (a >= 0x80) != sign);
        self.setf(FLAG_C, top > 15);
        self.a = digits;
    }

    fn add_binary(&mut self, m: u8, carry: u8)
        requires
            carry <= 1,
        ensures
            *final(self) == adc_binary(*old(self), m, carry as int),
    {
        let a: u8 = self.a;
        let sum: u16 = a as u16 + m as u16 + carry as u16;
        let r: u8 = if sum > 0xFF {
            (sum - 0x100) as u8
        } else {
            sum as u8
        };
        assert(r == wrap8(sum as int));
        let overflow: bool = (a >= 0x80) == (m >= 0x80) && (a >= 0x80) != (r >= 0x80);
        assert(overflow == ({
            let total: int = signed(a) + signed(m) + carry;
            total < -128 || total > 127
        }));
        self.setf(FLAG_C, sum > 0xFF);
        self.setf(FLAG_V, overflow);
        self.a = r;
        self.set_zn(r);
    }

    /// SBC with NMOS binary and decimal behavior (flags always from the binary result).
    #[verifier::rlimit(30)]
    fn sbc(&mut self, m: u8)
        ensures
            *final(self) == sbc(*old(self), m),
    {
        proof {
            reveal(sbc);
        }
        let a: u8 = self.a;
        let borrow: i16 = 1 - self.carry() as i16;
        let diff: i16 = a as i16 - m as i16 - borrow;
        let r: u8 = if diff < 0 {
            (diff + 0x100) as u8
        } else {
            diff as u8
        };
        assert(r == wrap8(diff as int));
        let overflow: bool = (a >= 0x80) != (m >= 0x80) && (a >= 0x80) != (r >= 0x80);
        assert(overflow == ({
            let total: int = signed(a) - signed(m) - borrow;
            total < -128 || total > 127
        }));
        self.setf(FLAG_C, diff >= 0);
        self.setf(FLAG_V, overflow);
        if self.flag(FLAG_D) {
            let mut lo: i16 = (a % 16) as i16 - (m % 16) as i16 - borrow;
            let mut hi: i16 = (a / 16) as i16 - (m / 16) as i16;
            if lo < 0 {
                lo = lo - 6;
                hi = hi - 1;
            }
            if hi < 0 {
                hi = hi - 6;
            }
            self.a = digit(hi) * 16 + digit(lo);
            self.set_zn(r);
        } else {
            self.a = r;
            self.set_zn(r);
        }
    }

    fn cmp_reg(&mut self, reg: u8, m: u8)
        ensures
            *final(self) == compared(*old(self), reg, m),
    {
        self.setf(FLAG_C, reg >= m);
        self.set_zn(reg.wrapping_sub(m));
    }

    fn asl_val(&mut self, v: u8) -> (r: u8)
        ensures
            (r, *final(self)) == (shl(v), flagged(*old(self), FLAG_C, v >= 0x80)),
    {
        self.setf(FLAG_C, v >= 0x80);
        (v % 0x80) * 2
    }

    fn lsr_val(&mut self, v: u8) -> (r: u8)
        ensures
            (r, *final(self)) == (v / 2, flagged(*old(self), FLAG_C, v % 2 == 1)),
    {
        self.setf(FLAG_C, v % 2 == 1);
        v / 2
    }

    fn rol_val(&mut self, v: u8) -> (r: u8)
        ensures
            (r, *final(self)) == (rol(*old(self), v), flagged(*old(self), FLAG_C, v >= 0x80)),
    {
        let oc: u8 = self.carry();
        self.setf(FLAG_C, v >= 0x80);
        (v % 0x80) * 2 + oc
    }

    fn ror_val(&mut self, v: u8) -> (r: u8)
        ensures
            (r, *final(self)) == (ror(*old(self), v), flagged(*old(self), FLAG_C, v % 2 == 1)),
    {
        let oc: u8 = self.carry();
        self.setf(FLAG_C, v % 2 == 1);
        v / 2 + 0x80 * oc
    }

    /// Apply an operation to its operand byte.
    fn consume(&mut self, op: ReadOp, v: u8)
        ensures
            *final(self) == consumed(*old(self), op, v),
    {
        proof {
            reveal(consumed);
        }
        match op {
            ReadOp::Lda => {
                self.a = v;
                self.set_zn(v);
            },
            ReadOp::Ldx => {
                self.x = v;
                self.set_zn(v);
            },
            ReadOp::Ldy => {
                self.y = v;
                self.set_zn(v);
            },
            ReadOp::And => {
                self.a = self.a & v;
                self.set_zn(self.a);
            },
            ReadOp::Ora => {
                self.a = self.a | v;
                self.set_zn(self.a);
            },
            ReadOp::Eor => {
                self.a = self.a ^ v;
                self.set_zn(self.a);
            },
            ReadOp::Bit => {
                self.setf(FLAG_Z, self.a & v == 0);
                self.setf(FLAG_N, v >= 0x80);
                self.setf(FLAG_V, (v / 0x40) % 2 == 1);
            },
            ReadOp::Adc => self.adc(v),
            ReadOp::Sbc => self.sbc(v),
            ReadOp::Cmp => self.cmp_reg(self.a, v),
            ReadOp::Cpx => self.cmp_reg(self.x, v),
            ReadOp::Cpy => self.cmp_reg(self.y, v),
            ReadOp::Lax => {
                self.a = v;
                self.x = v;
                self.set_zn(v);
            },
            ReadOp::Las => {
                let r: u8 = v & self.sp;
                self.a = r;
                self.x = r;
                self.sp = r;
                self.set_zn(r);
            },
            ReadOp::Anc => {
                let r: u8 = self.a & v;
                self.a = r;
                self.set_zn(r);
                self.setf(FLAG_C, r >= 0x80);
            },
            ReadOp::Alr => {
                let t: u8 = self.a & v;
                self.a = t / 2;
                self.set_zn(t / 2);
                self.setf(FLAG_C, t % 2 == 1);
            },
            ReadOp::Arr => {
                let t: u8 = self.a & v;
                let r: u8 = t / 2 + 0x80 * self.carry();
                self.a = r;
                self.set_zn(r);
                self.setf(FLAG_C, (r / 0x40) % 2 == 1);
                self.setf(FLAG_V, ((r / 0x40) % 2 == 1) != ((r / 0x20) % 2 == 1));
            },
            ReadOp::Sbx => {
                let t: u8 = self.a & self.x;
                let r: u8 = t.wrapping_sub(v);
                self.setf(FLAG_C, t >= v);
                self.x = r;
                self.set_zn(r);
            },
            ReadOp::Ane => {
                let r: u8 = (self.a | 0xFF) & self.x & v;
                self.a = r;
                self.set_zn(r);
            },
        }
    }

    /// The memory half of a read-modify-write.
    fn modify_byte(&mut self, op: RmwOp, v: u8) -> (r: u8)
        ensures
            (r, *final(self)) == modified_byte(*old(self), op, v),
    {
        proof {
            reveal(modified_byte);
        }
        match op {
            RmwOp::Inc => {
                let r: u8 = v.wrapping_add(1);
                self.set_zn(r);
                r
            },
            RmwOp::Dec => {
                let r: u8 = v.wrapping_sub(1);
                self.set_zn(r);
                r
            },
            RmwOp::Asl => {
                let r: u8 = self.asl_val(v);
                self.set_zn(r);
                r
            },
            RmwOp::Lsr => {
                let r: u8 = self.lsr_val(v);
                self.set_zn(r);
                r
            },
            RmwOp::Rol => {
                let r: u8 = self.rol_val(v);
                self.set_zn(r);
                r
            },
            RmwOp::Ror => {
                let r: u8 = self.ror_val(v);
                self.set_zn(r);
                r
            },
            RmwOp::Slo => self.asl_val(v),
            RmwOp::Rla => self.rol_val(v),
            RmwOp::Sre => self.lsr_val(v),
            RmwOp::Rra => self.ror_val(v),
            RmwOp::Dcp => v.wrapping_sub(1),
            RmwOp::Isc => v.wrapping_add(1),
        }
    }

    /// Read-modify-write through an addressing mode. The *write* is tracked; fixed
    /// worst-case cycles.
    fn rmw<B: Bus>(&mut self, bus: &mut B, op: RmwOp, m: AddrMode)
        ensures
            (*final(self), *final(bus)) == modified(*old(self), *old(bus), op, m),
    {
        proof {
            reveal(modified);
            reveal(combined);
        }
        let (addr, _): (u16, bool) = self.ea(bus, m);
        let before: u8 = bus.read(addr);
        let after: u8 = self.modify_byte(op, before);
        self.put_byte(bus, m, addr, after, cycles_of_store(m) + 2);
        match op {
            RmwOp::Slo => self.consume(ReadOp::Ora, after),
            RmwOp::Rla => self.consume(ReadOp::And, after),
            RmwOp::Sre => self.consume(ReadOp::Eor, after),
            RmwOp::Rra => self.consume(ReadOp::Adc, after),
            RmwOp::Dcp => self.consume(ReadOp::Cmp, after),
            RmwOp::Isc => self.consume(ReadOp::Sbc, after),
            _ => {},
        }
    }

    fn transfer(&mut self, op: RegOp)
        ensures
            *final(self) == moved(*old(self), op),
    {
        proof {
            reveal(moved);
        }
        match op {
            RegOp::Tax => {
                self.x = self.a;
                self.set_zn(self.x);
            },
            RegOp::Tay => {
                self.y = self.a;
                self.set_zn(self.y);
            },
            RegOp::Txa => {
                self.a = self.x;
                self.set_zn(self.a);
            },
            RegOp::Tya => {
                self.a = self.y;
                self.set_zn(self.a);
            },
            RegOp::Tsx => {
                self.x = self.sp;
                self.set_zn(self.x);
            },
            RegOp::Txs => {
                self.sp = self.x;
            },
            RegOp::Inx => {
                self.x = self.x.wrapping_add(1);
                self.set_zn(self.x);
            },
            RegOp::Dex => {
                self.x = self.x.wrapping_sub(1);
                self.set_zn(self.x);
            },
            RegOp::Iny => {
                self.y = self.y.wrapping_add(1);
                self.set_zn(self.y);
            },
            RegOp::Dey => {
                self.y = self.y.wrapping_sub(1);
                self.set_zn(self.y);
            },
        }
    }

    fn brk<B: Bus>(&mut self, bus: &mut B)
        ensures
            (*final(self), *final(bus)) == broken(*old(self), *old(bus)),
    {
        proof {
            reveal(broken);
        }
        self.charge(7);
        if self.brk_stops {
            self.brk_hit = true;
        } else {
            let ret: u16 = self.pc.wrapping_add(1);
            self.push16(bus, ret);
            let v: u8 = self.p | FLAG_B | FLAG_U;
            self.push(bus, v);
            self.setf(FLAG_I, true);
            self.pc = read_word_at(bus, 0xFFFE, 0xFFFF);
        }
    }

    /// Execute one instruction. Returns `running()`: false once the CPU jammed or
    /// a stopping BRK was executed (further calls are no-ops returning false).
    pub fn step<B: Bus>(&mut self, bus: &mut B) -> (go_on: bool)
        ensures
            (*final(self), *final(bus)) == stepped(*old(self), *old(bus)),
            go_on == is_running(stepped(*old(self), *old(bus)).0),
    {
        if !self.running() {
            return false;
        }
        if self.tracking {
            self.last_op = None;
        }
        let op: u8 = self.fetch(bus);
        self.current_opcode = op;
        self.exec(bus, decode(op));
        self.instructions = self.instructions.wrapping_add(1);
        self.running()
    }

    fn exec<B: Bus>(&mut self, bus: &mut B, i: Instr)
        ensures
            (*final(self), *final(bus)) == executed(*old(self), *old(bus), i),
    {
        proof {
            reveal(executed);
        }
        match i {
            Instr::Immediate(o) => {
                let v: u8 = self.fetch(bus);
                self.consume(o, v);
                self.charge(2);
            },
            Instr::Read(o, m) => {
                let v: u8 = self.load(bus, m);
                self.consume(o, v);
            },
            Instr::Store(o, m) => {
                let v: u8 = match o {
                    StoreOp::Sta => self.a,
                    StoreOp::Stx => self.x,
                    StoreOp::Sty => self.y,
                    StoreOp::Sax => self.a & self.x,
                };
                self.store(bus, m, v);
            },
            Instr::Modify(o, m) => self.rmw(bus, o, m),
            Instr::Accumulator(o) => {
                let v: u8 = self.modify_byte(o, self.a);
                self.a = v;
                self.charge(2);
            },
            Instr::Register(o) => {
                self.transfer(o);
                self.charge(2);
            },
            Instr::SetFlag(m, on) => {
                self.setf(m, on);
                self.charge(2);
            },
            Instr::Branch(m, on) => {
                let take: bool = self.flag(m) == on;
                self.branch(bus, take);
            },
            Instr::Pha => {
                self.push(bus, self.a);
                self.charge(3);
            },
            Instr::Pla => {
                let v: u8 = self.pop(bus);
                self.a = v;
                self.set_zn(v);
                self.charge(4);
            },
            Instr::Php => {
                let v: u8 = self.p | FLAG_B | FLAG_U;
                self.push(bus, v);
                self.charge(3);
            },
            Instr::Plp => {
                let v: u8 = self.pop(bus);
                self.p = (v & !FLAG_B) | FLAG_U;
                self.charge(4);
            },
            Instr::Jmp => {
                self.pc = self.fetch16(bus);
                self.charge(3);
            },
            Instr::JmpIndirect => {
                let ptr: u16 = self.fetch16(bus);
                let hi_at: u16 = (ptr / 0x100) * 0x100 + ((ptr % 0x100) + 1) % 0x100;
                self.pc = read_word_at(bus, ptr, hi_at);
                self.charge(5);
            },
            Instr::Jsr => {
                let target: u16 = self.fetch16(bus);
                let ret: u16 = self.pc.wrapping_sub(1);
                self.push16(bus, ret);
                self.pc = target;
                self.charge(6);
            },
            Instr::Rts => {
                let ret: u16 = self.pop16(bus);
                self.pc = ret.wrapping_add(1);
                self.charge(6);
            },
            Instr::Rti => {
                let p: u8 = self.pop(bus);
                self.p = (p & !FLAG_B) | FLAG_U;
                self.pc = self.pop16(bus);
                self.charge(6);
            },
            Instr::Brk => self.brk(bus),
            Instr::Nop => self.charge(2),
            Instr::NopImmediate => {
                let _operand: u8 = self.fetch(bus);
                self.charge(2);
            },
            Instr::NopRead(m) => {
                let _value: u8 = self.load(bus, m);
            },
            Instr::Masked(o, m) => {
                let (addr, _): (u16, bool) = self.ea(bus, m);
                let mask: u8 = ((addr / 0x100) as u8).wrapping_add(1);
                let v: u8 = match o {
                    MaskedOp::Sha => self.a & self.x,
                    MaskedOp::Shx => self.x,
                    MaskedOp::Shy => self.y,
                };
                self.put_byte(bus, m, addr, v & mask, cycles_of_store(m));
            },
            Instr::Tas => {
                let base: u16 = self.fetch16(bus);
                let addr: u16 = base.wrapping_add(self.y as u16);
                self.sp = self.a & self.x;
                let v: u8 = self.sp & ((base / 0x100) as u8).wrapping_add(1);
                self.put_byte(bus, AddrMode::AbsoluteY, addr, v, 5);
            },
            Instr::Jam => {
                self.jammed = true;
                self.charge(1);
            },
        }
    }
}

impl Default for Cpu {
    fn default() -> (c: Cpu)
        ensures
            c == power_on_cpu(),
    {
        Cpu::new()
    }
}

/// The low four bits of a small number.
fn correct_digit(n: u8) -> (d: u8)
    requires
        n < 0x80,
    ensures
        d == corrected_digit(n as int),
{
    if n > 9 {
        n + 6
    } else {
        n
    }
}

fn digit(x: i16) -> (d: u8)
    requires
        -32 <= x < 32,
    ensures
        d == x as int % 16,
        d < 16,
{
    ((x + 32) % 16) as u8
}

fn read_word_at<B: Bus>(bus: &mut B, lo_at: u16, hi_at: u16) -> (w: u16)
    ensures
        (w, *final(bus)) == read_pair(*old(bus), lo_at, hi_at),
{
    let lo: u8 = bus.read(lo_at);
    let hi: u8 = bus.read(hi_at);
    hi as u16 * 0x100 + lo as u16
}

fn cycles_of_read(m: AddrMode, crossed: bool) -> (n: u64)
    ensures
        n == read_cycles(m, crossed),
{
    let extra: u64 = if crossed {
        1
    } else {
        0
    };
    match m {
        AddrMode::ZeroPage => 3,
        AddrMode::ZeroPageX | AddrMode::ZeroPageY | AddrMode::Absolute => 4,
        AddrMode::AbsoluteX | AddrMode::AbsoluteY => 4 + extra,
        AddrMode::IndirectX => 6,
        AddrMode::IndirectY => 5 + extra,
    }
}

fn cycles_of_store(m: AddrMode) -> (n: u64)
    ensures
        n == store_cycles(m),
        n <= 6,
{
    match m {
        AddrMode::ZeroPage => 3,
        AddrMode::ZeroPageX | AddrMode::ZeroPageY | AddrMode::Absolute => 4,
        AddrMode::AbsoluteX | AddrMode::AbsoluteY => 5,
        AddrMode::IndirectX | AddrMode::IndirectY => 6,
    }
}

} // verus!
