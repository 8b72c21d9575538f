//! What the instructions with an operand byte make of it: loads, logic, arithmetic,
//! compares and stores, opcode by opcode.

use vstd::prelude::*;

verus! {

use crate::bits::{bit_at, with_flag, wrap8};
use crate::cpu::{
    adc, adc_binary, adc_decimal, consumed, corrected_digit, executed, is_running, loaded, put,
    resolved, sbc, stepped, stored, Bus, Cpu,
};
use crate::instr::{instruction, AddrMode, Instr, MaskedOp, ReadOp, StoreOp};
use crate::opcode_laws::{
    after_first, after_opcode, carry, decimal, describes, first_byte, interrupt, negative, overflow,
    runs_on, same_but_zn, same_but_znc, second_byte, switched_flags, zero,
};
use crate::operand_laws::at_operand;

/// The eight opcodes of a row of the accumulator group.
pub open spec fn in_row(op: u8, row: int) -> bool {
    ||| op == row + 0x01
    ||| op == row + 0x05
    ||| op == row + 0x09
    ||| op == row + 0x0D
    ||| op == row + 0x11
    ||| op == row + 0x15
    ||| op == row + 0x19
    ||| op == row + 0x1D
}

/// The opcodes whose operand is the byte behind them.
pub open spec fn immediate(op: u8) -> bool {
    op % 0x20 == 0x09 || op % 0x20 == 0x0B || op == 0xA0 || op == 0xA2 || op == 0xC0 || op == 0xE0
}

/// The operand byte of an instruction that reads one: the byte behind the opcode, or
/// the byte that the recorded access read.
pub open spec fn operand<B: Bus>(c: Cpu, b: B) -> u8 {
    if immediate(b.value_at(c.pc)) {
        first_byte(c, b)
    } else {
        stepped(c, b).0.last_op.unwrap().value
    }
}

/// A number that is one for a set flag.
pub open spec fn one_if(set: bool) -> int {
    if set {
        1
    } else {
        0
    }
}

/// The number a byte stands for in two's complement.
pub open spec fn as_signed(v: u8) -> int {
    if v < 0x80 {
        v as int
    } else {
        v - 0x100
    }
}

/// `d` holds the sum of `a`, `v` and the carry in. In binary, A and the carry out
/// spell the sum, V says that the signed sum does not fit a byte, and Z and N describe
/// A. In decimal, each digit above nine is carried into the next; Z describes the
/// binary sum, and N and V the high digit before it is carried.
pub open spec fn is_sum(a: u8, v: u8, carry_in: bool, dec: bool, d: Cpu) -> bool {
    let total = a + v + one_if(carry_in);
    let signed_total = as_signed(a) + as_signed(v) + one_if(carry_in);
    let lo = a as int % 16 + v as int % 16 + one_if(carry_in);
    let hi = a as int / 16 + v as int / 16 + one_if(lo > 9);
    &&& zero(d.p) == (total % 0x100 == 0)
    &&& !dec ==> {
        &&& d.a + 0x100 * one_if(carry(d.p)) == total
        &&& overflow(d.p) == (signed_total < -128 || signed_total > 127)
        &&& negative(d.p) == (d.a >= 0x80)
    }
    &&& dec ==> {
        &&& d.a as int % 16 == (if lo > 9 {
            lo + 6
        } else {
            lo
        }) % 16
        &&& d.a as int / 16 == (if hi > 9 {
            hi + 6
        } else {
            hi
        }) % 16
        &&& carry(d.p) == (hi > 9)
        &&& negative(d.p) == (hi / 8 % 2 == 1)
        &&& overflow(d.p) == ((a >= 0x80) == (v >= 0x80) && (a >= 0x80) != negative(d.p))
    }
}

/// `d` holds `a` less `v` and less the borrow, which is one unless the carry was set.
/// The flags describe the binary difference: C says that it needs no borrow, V that the
/// signed difference does not fit a byte. In decimal, each digit below zero borrows ten.
pub open spec fn is_difference(a: u8, v: u8, carry_in: bool, dec: bool, d: Cpu) -> bool {
    let borrow = 1 - one_if(carry_in);
    let diff = a - v - borrow;
    let signed_diff = as_signed(a) - as_signed(v) - borrow;
    let lo = a as int % 16 - v as int % 16 - borrow;
    let hi = a as int / 16 - v as int / 16 - one_if(lo < 0);
    &&& carry(d.p) == (a >= v + borrow)
    &&& overflow(d.p) == (signed_diff < -128 || signed_diff > 127)
    &&& zero(d.p) == (diff % 0x100 == 0)
    &&& negative(d.p) == (diff % 0x100 >= 0x80)
    &&& !dec ==> d.a as int == diff % 0x100
    &&& dec ==> {
        &&& d.a as int % 16 == (if lo < 0 {
            lo + 10
        } else {
            lo
        }) % 16
        &&& d.a as int / 16 == (if hi < 0 {
            hi + 10
        } else {
            hi
        }) % 16
    }
}

/// The flags of a comparison of `reg` with `v`: C says that `reg` is at least `v`, Z
/// that they are equal, and N is the top bit of the difference.
pub open spec fn is_comparison(reg: u8, v: u8, d: Cpu) -> bool {
    &&& carry(d.p) == (reg >= v)
    &&& zero(d.p) == (reg == v)
    &&& negative(d.p) == ((reg - v) % 0x100 >= 0x80)
}

/// The flags after four of them were switched.
proof fn four_flags(p: u8, m: u8, k: u8, on: bool, kon: bool, z: bool, n: bool)
    requires
        m == 0x01,
        k == 0x40,
    ensures
        ({
            let q = with_flag(with_flag(with_flag(with_flag(p, m, on), k, kon), 0x02, z), 0x80, n);
            &&& carry(q) == on
            &&& overflow(q) == kon
            &&& zero(q) == z
            &&& negative(q) == n
            &&& interrupt(q) == interrupt(p)
            &&& decimal(q) == decimal(p)
        }),
{
    switched_flags();
}

#[verifier::rlimit(40)]
proof fn binary_sum(c: Cpu, v: u8, k: int)
    requires
        k == one_if(carry(c.p)),
    ensures
        is_sum(c.a, v, carry(c.p), false, adc_binary(c, v, k)),
        interrupt(adc_binary(c, v, k).p) == interrupt(c.p),
        decimal(adc_binary(c, v, k).p) == decimal(c.p),
        adc_binary(c, v, k) == (Cpu {
            a: adc_binary(c, v, k).a,
            p: adc_binary(c, v, k).p,
            ..c
        }),
{
    let sum: int = c.a + v + k;
    let total: int = as_signed(c.a) + as_signed(v) + k;
    let r = wrap8(sum);
    four_flags(c.p, 0x01, 0x40, sum > 0xFF, total < -128 || total > 127, r == 0, r >= 0x80);
    assert(r + 0x100 * one_if(sum > 0xFF) == sum);
}

#[verifier::rlimit(40)]
proof fn decimal_sum(c: Cpu, v: u8, k: int)
    requires
        k == one_if(carry(c.p)),
    ensures
        is_sum(c.a, v, carry(c.p), true, adc_decimal(c, v, k)),
        interrupt(adc_decimal(c, v, k).p) == interrupt(c.p),
        decimal(adc_decimal(c, v, k).p) == decimal(c.p),
        adc_decimal(c, v, k) == (Cpu {
            a: adc_decimal(c, v, k).a,
            p: adc_decimal(c, v, k).p,
            ..c
        }),
{
    let d = adc_decimal(c, v, k);
    let lo = c.a as int % 16 + v as int % 16 + k;
    let hi = c.a as int / 16 + v as int / 16 + one_if(lo > 9);
    let lo1 = corrected_digit(lo);
    assert(lo1 > 15 <==> lo > 9);
    let hi1 = corrected_digit(hi);
    assert(hi1 > 15 <==> hi > 9);
    assert(d.a as int == (hi1 % 16) * 16 + lo1 % 16);
    assert(bit_at(hi, 8) == (hi / 8 % 2 == 1));
    switched_flags();
}

pub(crate) proof fn adc_is_sum(c: Cpu, v: u8)
    ensures
        is_sum(c.a, v, carry(c.p), decimal(c.p), adc(c, v)),
        interrupt(adc(c, v).p) == interrupt(c.p),
        decimal(adc(c, v).p) == decimal(c.p),
        adc(c, v) == (Cpu { a: adc(c, v).a, p: adc(c, v).p, ..c }),
{
    let k: int = one_if(carry(c.p));
    assert(adc(c, v) == if decimal(c.p) {
        adc_decimal(c, v, k)
    } else {
        adc_binary(c, v, k)
    }) by {
        reveal(adc);
    }
    if decimal(c.p) {
        decimal_sum(c, v, k);
    } else {
        binary_sum(c, v, k);
    }
}

/// A digit that went below zero borrows ten: moved down by six, it reads the same.
proof fn borrowed_digits(h: int, l: int)
    requires
        -17 <= h <= 15,
        -17 <= l <= 15,
    ensures
        (l - 6) % 16 == (l + 10) % 16,
        (h - 6) % 16 == (h + 10) % 16,
{
}

/// Two digits make a byte.
proof fn digits_of_byte(h: int, l: int)
    requires
        0 <= h < 16,
        0 <= l < 16,
    ensures
        (h * 16 + l) as u8 as int == h * 16 + l,
        ((h * 16 + l) as u8) as int % 16 == l,
        ((h * 16 + l) as u8) as int / 16 == h,
{
}

pub(crate) proof fn sbc_is_difference(c: Cpu, v: u8)
    ensures
        is_difference(c.a, v, carry(c.p), decimal(c.p), sbc(c, v)),
        interrupt(sbc(c, v).p) == interrupt(c.p),
        decimal(sbc(c, v).p) == decimal(c.p),
        sbc(c, v) == (Cpu { a: sbc(c, v).a, p: sbc(c, v).p, ..c }),
{
    let borrow = 1 - one_if(carry(c.p));
    let diff = c.a - v - borrow;
    let total = as_signed(c.a) - as_signed(v) - borrow;
    let r = wrap8(diff);
    let out = total < -128 || total > 127;
    let d = sbc(c, v);
    let p2 = with_flag(with_flag(c.p, 0x01, diff >= 0), 0x40, out);
    four_flags(c.p, 0x01, 0x40, diff >= 0, out, r == 0, r >= 0x80);
    assert(decimal(p2) == decimal(c.p)) by {
        switched_flags();
    }
    let lo = c.a as int % 16 - v as int % 16 - borrow;
    let hi = c.a as int / 16 - v as int / 16 - one_if(lo < 0);
    let l = (if lo < 0 {
        lo - 6
    } else {
        lo
    }) % 16;
    let h = (if hi < 0 {
        hi - 6
    } else {
        hi
    }) % 16;
    assert(d.p == with_flag(with_flag(p2, 0x02, r == 0), 0x80, r >= 0x80) && d.a == (if decimal(
        p2,
    ) {
        (h * 16 + l) as u8
    } else {
        r
    }) && d == (Cpu { a: d.a, p: d.p, ..c })) by {
        reveal(sbc);
    }
    borrowed_digits(hi, lo);
    digits_of_byte(h, l);
}

/// An operation on an operand byte looks at the registers only.
#[verifier::rlimit(40)]
proof fn consumed_by_registers(c: Cpu, k: Cpu, op: ReadOp, v: u8)
    requires
        c.a == k.a,
        c.x == k.x,
        c.y == k.y,
        c.sp == k.sp,
        c.p == k.p,
    ensures
        ({
            let d = consumed(c, op, v);
            let e = consumed(k, op, v);
            &&& d.a == e.a && d.x == e.x && d.y == e.y && d.sp == e.sp && d.p == e.p
            &&& e.last_op == k.last_op && e.pc == k.pc && e.cycles == k.cycles
            &&& e.jammed == k.jammed && e.brk_hit == k.brk_hit
            &&& e.instructions == k.instructions
        }),
{
    if op is Adc {
        assert(consumed(c, op, v) == adc(c, v) && consumed(k, op, v) == adc(k, v)) by {
            reveal(consumed);
        }
        reveal(adc);
    } else if op is Sbc {
        assert(consumed(c, op, v) == sbc(c, v) && consumed(k, op, v) == sbc(k, v)) by {
            reveal(consumed);
        }
        reveal(sbc);
    } else {
        reveal(consumed);
    }
}

/// The opcode applies `op` to its operand byte.
#[verifier::opaque]
spec fn applies(code: u8, op: ReadOp) -> bool {
    match instruction(code) {
        Instr::Immediate(o) => o == op && immediate(code),
        Instr::Read(o, _) => o == op && !immediate(code),
        _ => false,
    }
}

#[verifier::rlimit(40)]
proof fn value_step<B: Bus>(c: Cpu, b: B, op: ReadOp)
    requires
        is_running(c),
        c.tracking,
        applies(b.value_at(c.pc), op),
    ensures
        ({
            let (d, e) = stepped(c, b);
            let k = consumed(c, op, operand(c, b));
            &&& d.a == k.a && d.x == k.x && d.y == k.y && d.sp == k.sp && d.p == k.p
            &&& immediate(b.value_at(c.pc)) ==> runs_on(c, d, 2, 2) && e == after_first(c, b)
        }),
{
    reveal(executed);
    reveal(applies);
    let c0 = at_operand(c, b);
    let b0 = after_opcode(c, b);
    if immediate(b.value_at(c.pc)) {
        let v = first_byte(c, b);
        let c1 = Cpu { pc: c0.pc.wrapping_add(1), ..c0 };
        consumed_by_registers(c, c1, op, v);
    } else {
        reveal(loaded);
        let m = instruction(b.value_at(c.pc))->Read_1;
        let (v, c1, b1) = loaded(c0, b0, m);
        resolved_registers(c0, b0, m);
        consumed_by_registers(c, c1, op, v);
    }
}

proof fn resolved_registers<B: Bus>(c: Cpu, b: B, m: AddrMode)
    ensures
        resolved(c, b, m).2 == (Cpu {
            pc: resolved(c, b, m).2.pc,
            zp_operand: resolved(c, b, m).2.zp_operand,
            ..c
        }),
{
    reveal(resolved);
}

// ---------------------------------------------------------------------------
// Loads and logic
// ---------------------------------------------------------------------------

/// LDA loads A with the operand; Z and N describe it.
pub proof fn lda_loads<B: Bus>(c: Cpu, b: B)
    requires
        is_running(c),
        c.tracking,
        in_row(b.value_at(c.pc), 0xA0),
    ensures
        ({
            let d = stepped(c, b).0;
            &&& d.a == operand(c, b)
            &&& describes(d, d.a) && same_but_zn(c, d)
            &&& d.x == c.x && d.y == c.y && d.sp == c.sp
        }),
{
    assert(applies(b.value_at(c.pc), ReadOp::Lda)) by {
        reveal(applies);
    }
    value_step(c, b, ReadOp::Lda);
    reveal(consumed);
    switched_flags();
}

/// LDX ($A2, $A6, $B6, $AE, $BE) loads X with the operand; Z and N describe it.
pub proof fn ldx_loads<B: Bus>(c: Cpu, b: B)
    requires
        is_running(c),
        c.tracking,
        b.value_at(c.pc) == 0xA2 || b.value_at(c.pc) == 0xA6 || b.value_at(c.pc) == 0xB6
            || b.value_at(c.pc) == 0xAE || b.value_at(c.pc) == 0xBE,
    ensures
        ({
            let d = stepped(c, b).0;
            &&& d.x == operand(c, b)
            &&& describes(d, d.x) && same_but_zn(c, d)
            &&& d.a == c.a && d.y == c.y && d.sp == c.sp
        }),
{
    assert(applies(b.value_at(c.pc), ReadOp::Ldx)) by {
        reveal(applies);
    }
    value_step(c, b, ReadOp::Ldx);
    reveal(consumed);
    switched_flags();
}

/// LDY ($A0, $A4, $B4, $AC, $BC) loads Y with the operand; Z and N describe it.
pub proof fn ldy_loads<B: Bus>(c: Cpu, b: B)
    requires
        is_running(c),
        c.tracking,
        b.value_at(c.pc) == 0xA0 || b.value_at(c.pc) == 0xA4 || b.value_at(c.pc) == 0xB4
            || b.value_at(c.pc) == 0xAC || b.value_at(c.pc) == 0xBC,
    ensures
        ({
            let d = stepped(c, b).0;
            &&& d.y == operand(c, b)
            &&& describes(d, d.y) && same_but_zn(c, d)
            &&& d.a == c.a && d.x == c.x && d.sp == c.sp
        }),
{
    assert(applies(b.value_at(c.pc), ReadOp::Ldy)) by {
        reveal(applies);
    }
    value_step(c, b, ReadOp::Ldy);
    reveal(consumed);
    switched_flags();
}

/// ORA, AND and EOR combine A with the operand bit by bit; Z and N describe the result.
#[verifier::rlimit(40)]
pub proof fn logic_combines_bits<B: Bus>(c: Cpu, b: B)
    requires
        is_running(c),
        c.tracking,
        in_row(b.value_at(c.pc), 0x00) || in_row(b.value_at(c.pc), 0x20) || in_row(
            b.value_at(c.pc),
            0x40,
        ),
    ensures
        ({
            let d = stepped(c, b).0;
            let v = operand(c, b);
            &&& b.value_at(c.pc) < 0x20 ==> d.a == c.a | v
            &&& 0x20 <= b.value_at(c.pc) < 0x40 ==> d.a == c.a & v
            &&& 0x40 <= b.value_at(c.pc) ==> d.a == c.a ^ v
            &&& describes(d, d.a) && same_but_zn(c, d)
            &&& d.x == c.x && d.y == c.y && d.sp == c.sp
        }),
{
    let op = if in_row(b.value_at(c.pc), 0x00) {
        ReadOp::Ora
    } else if in_row(b.value_at(c.pc), 0x20) {
        ReadOp::And
    } else {
        ReadOp::Eor
    };
    assert(applies(b.value_at(c.pc), op)) by {
        reveal(applies);
    }
    value_step(c, b, op);
    reveal(consumed);
    switched_flags();
}

/// BIT ($24, $2C) sets Z when A and the operand have no bit in common, and copies the
/// two top bits of the operand to N and V. It changes no register.
pub proof fn bit_tests<B: Bus>(c: Cpu, b: B)
    requires
        is_running(c),
        c.tracking,
        b.value_at(c.pc) == 0x24 || b.value_at(c.pc) == 0x2C,
    ensures
        ({
            let d = stepped(c, b).0;
            let v = operand(c, b);
            &&& zero(d.p) == (c.a & v == 0)
            &&& negative(d.p) == (v >= 0x80)
            &&& overflow(d.p) == (v % 0x80 >= 0x40)
            &&& carry(d.p) == carry(c.p)
            &&& interrupt(d.p) == interrupt(c.p) && decimal(d.p) == decimal(c.p)
            &&& d.a == c.a && d.x == c.x && d.y == c.y && d.sp == c.sp
        }),
{
    assert(applies(b.value_at(c.pc), ReadOp::Bit)) by {
        reveal(applies);
    }
    value_step(c, b, ReadOp::Bit);
    reveal(consumed);
    switched_flags();
}

// ---------------------------------------------------------------------------
// Arithmetic
// ---------------------------------------------------------------------------

/// ADC adds the operand and the carry to A.
pub proof fn adc_adds<B: Bus>(c: Cpu, b: B)
    requires
        is_running(c),
        c.tracking,
        in_row(b.value_at(c.pc), 0x60),
    ensures
        ({
            let d = stepped(c, b).0;
            &&& is_sum(c.a, operand(c, b), carry(c.p), decimal(c.p), d)
            &&& interrupt(d.p) == interrupt(c.p) && decimal(d.p) == decimal(c.p)
            &&& d.x == c.x && d.y == c.y && d.sp == c.sp
        }),
{
    assert(applies(b.value_at(c.pc), ReadOp::Adc)) by {
        reveal(applies);
    }
    value_step(c, b, ReadOp::Adc);
    reveal(consumed);
    adc_is_sum(c, operand(c, b));
}

/// SBC (and its undocumented copy $EB) subtracts the operand and the borrow from A.
pub proof fn sbc_subtracts<B: Bus>(c: Cpu, b: B)
    requires
        is_running(c),
        c.tracking,
        in_row(b.value_at(c.pc), 0xE0) || b.value_at(c.pc) == 0xEB,
    ensures
        ({
            let d = stepped(c, b).0;
            &&& is_difference(c.a, operand(c, b), carry(c.p), decimal(c.p), d)
            &&& interrupt(d.p) == interrupt(c.p) && decimal(d.p) == decimal(c.p)
            &&& d.x == c.x && d.y == c.y && d.sp == c.sp
        }),
{
    assert(applies(b.value_at(c.pc), ReadOp::Sbc)) by {
        reveal(applies);
    }
    value_step(c, b, ReadOp::Sbc);
    reveal(consumed);
    sbc_is_difference(c, operand(c, b));
}

/// CMP, CPX ($E0, $E4, $EC) and CPY ($C0, $C4, $CC) compare A, X or Y with the operand
/// and change no register.
#[verifier::rlimit(40)]
pub proof fn compares_set_flags<B: Bus>(c: Cpu, b: B)
    requires
        is_running(c),
        c.tracking,
        in_row(b.value_at(c.pc), 0xC0) || b.value_at(c.pc) == 0xE0 || b.value_at(c.pc) == 0xE4
            || b.value_at(c.pc) == 0xEC || b.value_at(c.pc) == 0xC0 || b.value_at(c.pc) == 0xC4
            || b.value_at(c.pc) == 0xCC,
    ensures
        ({
            let d = stepped(c, b).0;
            let v = operand(c, b);
            let op = b.value_at(c.pc);
            &&& op % 4 == 1 ==> is_comparison(c.a, v, d)
            &&& op % 4 == 0 && op >= 0xE0 ==> is_comparison(c.x, v, d)
            &&& op % 4 == 0 && op < 0xE0 ==> is_comparison(c.y, v, d)
            &&& same_but_znc(c, d)
            &&& d.a == c.a && d.x == c.x && d.y == c.y && d.sp == c.sp
        }),
{
    let code = b.value_at(c.pc);
    let op = if in_row(code, 0xC0) {
        ReadOp::Cmp
    } else if code >= 0xE0 {
        ReadOp::Cpx
    } else {
        ReadOp::Cpy
    };
    assert(applies(code, op)) by {
        reveal(applies);
    }
    value_step(c, b, op);
    reveal(consumed);
    switched_flags();
}

// ---------------------------------------------------------------------------
// Undocumented operations
// ---------------------------------------------------------------------------

/// LAX ($A3, $A7, $AB, $AF, $B3, $B7, $BF) loads A and X with the operand.
pub proof fn lax_loads_both<B: Bus>(c: Cpu, b: B)
    requires
        is_running(c),
        c.tracking,
        b.value_at(c.pc) == 0xA3 || b.value_at(c.pc) == 0xA7 || b.value_at(c.pc) == 0xAB
            || b.value_at(c.pc) == 0xAF || b.value_at(c.pc) == 0xB3 || b.value_at(c.pc) == 0xB7
            || b.value_at(c.pc) == 0xBF,
    ensures
        ({
            let d = stepped(c, b).0;
            &&& d.a == operand(c, b) && d.x == operand(c, b)
            &&& describes(d, d.a) && same_but_zn(c, d)
            &&& d.y == c.y && d.sp == c.sp
        }),
{
    assert(applies(b.value_at(c.pc), ReadOp::Lax)) by {
        reveal(applies);
    }
    value_step(c, b, ReadOp::Lax);
    reveal(consumed);
    switched_flags();
}

/// LAS ($BB) loads A, X and the stack pointer with the bits that the operand and the
/// stack pointer have in common.
pub proof fn las_loads_three<B: Bus>(c: Cpu, b: B)
    requires
        is_running(c),
        c.tracking,
        b.value_at(c.pc) == 0xBB,
    ensures
        ({
            let d = stepped(c, b).0;
            &&& d.a == operand(c, b) & c.sp && d.x == d.a && d.sp == d.a
            &&& describes(d, d.a) && same_but_zn(c, d)
            &&& d.y == c.y
        }),
{
    assert(applies(b.value_at(c.pc), ReadOp::Las)) by {
        reveal(applies);
    }
    value_step(c, b, ReadOp::Las);
    reveal(consumed);
    switched_flags();
}

/// ANC ($0B, $2B) is AND with the top bit of the result in C. ALR ($4B) is AND and then
/// a shift of A to the right, whose lost bit goes to C. ARR ($6B) is AND and then a
/// shift to the right with C moving in at the top; C is bit 6 of the result, and V
/// whether bits 6 and 5 differ.
#[verifier::rlimit(40)]
pub proof fn and_with_a_shift<B: Bus>(c: Cpu, b: B)
    requires
        is_running(c),
        c.tracking,
        b.value_at(c.pc) == 0x0B || b.value_at(c.pc) == 0x2B || b.value_at(c.pc) == 0x4B
            || b.value_at(c.pc) == 0x6B,
    ensures
        ({
            let d = stepped(c, b).0;
            let w = c.a & operand(c, b);
            let op = b.value_at(c.pc);
            &&& op == 0x0B || op == 0x2B ==> d.a == w && carry(d.p) == (w >= 0x80)
            &&& op == 0x4B ==> 2 * d.a + one_if(carry(d.p)) == w && d.a < 0x80
            &&& op == 0x6B ==> {
                &&& d.a as int == w as int / 2 + 0x80 * one_if(carry(c.p))
                &&& carry(d.p) == (d.a as int / 0x40 % 2 == 1)
                &&& overflow(d.p) == (d.a as int / 0x40 % 2 != d.a as int / 0x20 % 2)
            }
            &&& op != 0x6B ==> overflow(d.p) == overflow(c.p)
            &&& describes(d, d.a)
            &&& interrupt(d.p) == interrupt(c.p) && decimal(d.p) == decimal(c.p)
            &&& d.x == c.x && d.y == c.y && d.sp == c.sp
        }),
{
    let code = b.value_at(c.pc);
    let op = if code == 0x4B {
        ReadOp::Alr
    } else if code == 0x6B {
        ReadOp::Arr
    } else {
        ReadOp::Anc
    };
    assert(applies(code, op)) by {
        reveal(applies);
    }
    value_step(c, b, op);
    reveal(consumed);
    switched_flags();
}

/// SBX ($CB) subtracts the operand from A & X without a borrow, leaves the difference in
/// X and sets the flags like a comparison.
pub proof fn sbx_subtracts<B: Bus>(c: Cpu, b: B)
    requires
        is_running(c),
        c.tracking,
        b.value_at(c.pc) == 0xCB,
    ensures
        ({
            let d = stepped(c, b).0;
            let v = operand(c, b);
            &&& d.x as int == ((c.a & c.x) - v) % 0x100
            &&& is_comparison(c.a & c.x, v, d)
            &&& same_but_znc(c, d)
            &&& d.a == c.a && d.y == c.y && d.sp == c.sp
        }),
{
    assert(applies(b.value_at(c.pc), ReadOp::Sbx)) by {
        reveal(applies);
    }
    value_step(c, b, ReadOp::Sbx);
    reveal(consumed);
    switched_flags();
}

/// ANE ($8B) loads A with the bits that X and the operand have in common.
pub proof fn ane_loads<B: Bus>(c: Cpu, b: B)
    requires
        is_running(c),
        c.tracking,
        b.value_at(c.pc) == 0x8B,
    ensures
        ({
            let d = stepped(c, b).0;
            &&& d.a == c.x & operand(c, b)
            &&& describes(d, d.a) && same_but_zn(c, d)
            &&& d.x == c.x && d.y == c.y && d.sp == c.sp
        }),
{
    assert(applies(b.value_at(c.pc), ReadOp::Ane)) by {
        reveal(applies);
    }
    value_step(c, b, ReadOp::Ane);
    reveal(consumed);
    let a = c.a;
    let x = c.x;
    let v = operand(c, b);
    assert((a | 0xFF) & x & v == x & v) by (bit_vector);
    switched_flags();
}

/// The operand of an immediate opcode is the byte behind it: the step reads these two
/// bytes, takes two cycles and goes on behind them.
pub proof fn immediate_operand<B: Bus>(c: Cpu, b: B)
    requires
        is_running(c),
        c.tracking,
        immediate(b.value_at(c.pc)),
        b.value_at(c.pc) != 0x89,
    ensures
        runs_on(c, stepped(c, b).0, 2, 2),
        stepped(c, b).1 == after_first(c, b),
        stepped(c, b).0.last_op is None,
{
    let op = immediate_applies(b.value_at(c.pc));
    value_step(c, b, op);
    crate::cpu_laws::recorded_access_happened(c, b);
}

#[verifier::rlimit(40)]
proof fn immediate_applies(code: u8) -> (op: ReadOp)
    requires
        immediate(code),
        code != 0x89,
    ensures
        applies(code, op),
        !instruction(code).accesses_memory(),
{
    reveal(applies);
    match instruction(code) {
        Instr::Immediate(o) => o,
        _ => ReadOp::Lda,
    }
}

// ---------------------------------------------------------------------------
// Stores
// ---------------------------------------------------------------------------

/// The store opcodes of the matrix row $80-$9F.
pub open spec fn is_store(op: u8) -> bool {
    ||| in_row(op, 0x80) && op != 0x89
    ||| op == 0x86 || op == 0x96 || op == 0x8E
    ||| op == 0x84 || op == 0x94 || op == 0x8C
    ||| op == 0x83 || op == 0x87 || op == 0x8F || op == 0x97
    ||| op == 0x93 || op == 0x9F || op == 0x9E || op == 0x9C
}

/// A store writes a register: STA A, STX X, STY Y, and SAX the bits that A and X have in
/// common. SHA ($93, $9F), SHX ($9E) and SHY ($9C) write only the bits that are set in
/// the high byte of the address plus one. No register and no flag changes.
#[verifier::rlimit(40)]
pub proof fn stores_write_registers<B: Bus>(c: Cpu, b: B)
    requires
        is_running(c),
        c.tracking,
        is_store(b.value_at(c.pc)),
    ensures
        ({
            let d = stepped(c, b).0;
            let op = b.value_at(c.pc);
            &&& d.a == c.a && d.x == c.x && d.y == c.y && d.sp == c.sp && d.p == c.p
            &&& d.last_op matches Some(m)
            &&& m.write
            &&& op % 4 == 1 ==> m.value == c.a
            &&& op == 0x86 || op == 0x96 || op == 0x8E ==> m.value == c.x
            &&& op == 0x84 || op == 0x94 || op == 0x8C ==> m.value == c.y
            &&& op == 0x83 || op == 0x87 || op == 0x8F || op == 0x97 ==> m.value == c.a & c.x
            &&& op == 0x93 || op == 0x9F ==> m.value == c.a & c.x & (((m.addr as int / 0x100 + 1)
                % 0x100) as u8)
            &&& op == 0x9E ==> m.value == c.x & (((m.addr as int / 0x100 + 1) % 0x100) as u8)
            &&& op == 0x9C ==> m.value == c.y & (((m.addr as int / 0x100 + 1) % 0x100) as u8)
        }),
{
    let op = b.value_at(c.pc);
    let i = instruction(op);
    store_instructions(op);
    reveal(executed);
    reveal(stored);
    reveal(put);
    let m = match i {
        Instr::Store(_, k) => k,
        Instr::Masked(_, k) => k,
        _ => AddrMode::Absolute,
    };
    resolved_registers(at_operand(c, b), after_opcode(c, b), m);
}

#[verifier::rlimit(40)]
proof fn store_instructions(op: u8)
    requires
        is_store(op),
    ensures
        match instruction(op) {
            Instr::Store(s, _) => match s {
                StoreOp::Sta => op % 4 == 1,
                StoreOp::Stx => op == 0x86 || op == 0x96 || op == 0x8E,
                StoreOp::Sty => op == 0x84 || op == 0x94 || op == 0x8C,
                StoreOp::Sax => op == 0x83 || op == 0x87 || op == 0x8F || op == 0x97,
            },
            Instr::Masked(s, _) => match s {
                MaskedOp::Sha => op == 0x93 || op == 0x9F,
                MaskedOp::Shx => op == 0x9E,
                MaskedOp::Shy => op == 0x9C,
            },
            _ => false,
        },
{
}

/// TAS ($9B) leaves A & X in the stack pointer, and writes its bits that are set in the
/// high byte of the operand address, before indexing, plus one.
#[verifier::rlimit(40)]
pub proof fn tas_writes_the_stack_pointer<B: Bus>(c: Cpu, b: B)
    requires
        is_running(c),
        c.tracking,
        b.value_at(c.pc) == 0x9B,
    ensures
        ({
            let d = stepped(c, b).0;
            &&& d.sp == c.a & c.x
            &&& d.a == c.a && d.x == c.x && d.y == c.y && d.p == c.p
            &&& d.last_op matches Some(m)
            &&& m.write
            &&& m.value == c.a & c.x & (((second_byte(c, b) + 1) % 0x100) as u8)
        }),
{
    assert(instruction(0x9B) == Instr::Tas);
    reveal(executed);
    reveal(put);
}

/// A NOP with a memory operand changes no register and no flag.
#[verifier::rlimit(40)]
pub proof fn nop_reads_change_nothing<B: Bus>(c: Cpu, b: B)
    requires
        is_running(c),
        ({
            let op = b.value_at(c.pc);
            ||| op == 0x04 || op == 0x44 || op == 0x64 || op == 0x0C
            ||| op == 0x14 || op == 0x34 || op == 0x54 || op == 0x74 || op == 0xD4 || op == 0xF4
            ||| op == 0x1C || op == 0x3C || op == 0x5C || op == 0x7C || op == 0xDC || op == 0xFC
        }),
    ensures
        ({
            let d = stepped(c, b).0;
            d.a == c.a && d.x == c.x && d.y == c.y && d.sp == c.sp && d.p == c.p
        }),
{
    assert(instruction(b.value_at(c.pc)) is NopRead);
    reveal(executed);
    reveal(loaded);
    let m = instruction(b.value_at(c.pc))->NopRead_0;
    resolved_registers(at_operand(c, b), after_opcode(c, b), m);
}

} // verus!
