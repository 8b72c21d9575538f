//! What the read-modify-write instructions make of the byte they find, the shifts of
//! the accumulator, and that watching an instruction does not change it.

use vstd::prelude::*;

verus! {

use crate::cpu::{
    combined, consumed, executed, is_running, loaded, modified, modified_byte, power_on_cpu, put,
    reset_cpu, resolved, stepped, Bus, Cpu,
};
use crate::instr::{instruction, AddrMode, Instr, ReadOp, RmwOp};
use crate::opcode_laws::{
    after_first, after_opcode, after_second, behind, carry, decimal, describes, first_byte,
    interrupt, overflow, runs_on, same_but_zn, same_but_znc, switched_flags,
};
use crate::operand_laws::at_operand;
use crate::value_laws::{
    adc_is_sum, is_comparison, is_difference, is_sum, one_if, sbc_is_difference,
};

/// The bus before the operand itself is read: after the bytes of the instruction, and
/// the pointer of the indirect modes.
pub open spec fn before_operand<B: Bus>(c: Cpu, b: B) -> B {
    let column = b.value_at(c.pc) % 0x20;
    if column == 0x01 || column == 0x03 {
        after_first(c, b).after_read(((first_byte(c, b) + c.x) % 0x100) as u16).after_read(
            ((first_byte(c, b) + c.x + 1) % 0x100) as u16,
        )
    } else if column == 0x11 || column == 0x13 {
        after_first(c, b).after_read(first_byte(c, b) as u16).after_read(
            ((first_byte(c, b) + 1) % 0x100) as u16,
        )
    } else if 0x04 <= column <= 0x07 || 0x14 <= column <= 0x17 {
        after_first(c, b)
    } else {
        after_second(c, b)
    }
}

/// The byte that a read-modify-write finds.
pub open spec fn found<B: Bus>(c: Cpu, b: B) -> u8 {
    before_operand(c, b).value_at(stepped(c, b).0.last_op.unwrap().addr)
}

/// The byte that a read-modify-write leaves.
pub open spec fn left<B: Bus>(c: Cpu, b: B) -> u8 {
    stepped(c, b).0.last_op.unwrap().value
}

/// The four memory opcodes of a row of the shift group.
pub open spec fn in_shift_row(op: u8, row: int) -> bool {
    op == row + 0x06 || op == row + 0x0E || op == row + 0x16 || op == row + 0x1E
}

/// The seven memory opcodes of a row of the undocumented group.
pub open spec fn in_combined_row(op: u8, row: int) -> bool {
    ||| op == row + 0x03
    ||| op == row + 0x07
    ||| op == row + 0x0F
    ||| op == row + 0x13
    ||| op == row + 0x17
    ||| op == row + 0x1B
    ||| op == row + 0x1F
}

/// The opcode applies `op` to a byte in memory, whose mode is that of its column.
#[verifier::opaque]
spec fn modifies_by(code: u8, op: RmwOp) -> bool {
    &&& instruction(code) matches Instr::Modify(o, m)
    &&& o == op
    &&& match m {
        AddrMode::IndirectX => code % 0x20 == 0x03,
        AddrMode::IndirectY => code % 0x20 == 0x13,
        AddrMode::ZeroPage => code % 0x20 == 0x06 || code % 0x20 == 0x07,
        AddrMode::ZeroPageX => code % 0x20 == 0x16 || code % 0x20 == 0x17,
        AddrMode::Absolute | AddrMode::AbsoluteX | AddrMode::AbsoluteY => {
            ||| code % 0x20 == 0x0E || code % 0x20 == 0x0F
            ||| code % 0x20 == 0x1E || code % 0x20 == 0x1F
            ||| code % 0x20 == 0x1B
        },
        _ => false,
    }
}

proof fn wrapped(pc: u16, zp: u8, x: u8)
    ensures
        behind(pc, 1) == pc.wrapping_add(1),
        behind(pc, 2) == pc.wrapping_add(1).wrapping_add(1),
        zp.wrapping_add(x) as int == (zp + x) % 0x100,
        zp.wrapping_add(x).wrapping_add(1) as int == (zp + x + 1) % 0x100,
        zp.wrapping_add(1) as int == (zp + 1) % 0x100,
{
}

/// The bus after the operand was resolved.
#[verifier::rlimit(40)]
proof fn resolved_bus<B: Bus>(c: Cpu, b: B, op: RmwOp)
    requires
        modifies_by(b.value_at(c.pc), op),
    ensures
        ({
            let m = instruction(b.value_at(c.pc))->Modify_1;
            let r = resolved(at_operand(c, b), after_opcode(c, b), m);
            &&& r.3 == before_operand(c, b)
            &&& r.2 == (Cpu { pc: r.2.pc, zp_operand: r.2.zp_operand, ..at_operand(c, b) })
        }),
{
    reveal(modifies_by);
    reveal(resolved);
    wrapped(c.pc, first_byte(c, b), c.x);
}

proof fn byte_by_flags(c: Cpu, k: Cpu, op: RmwOp, v: u8)
    requires
        c.p == k.p,
    ensures
        modified_byte(c, op, v).0 == modified_byte(k, op, v).0,
        modified_byte(c, op, v).1.p == modified_byte(k, op, v).1.p,
        modified_byte(k, op, v).1 == (Cpu { p: modified_byte(k, op, v).1.p, ..k }),
        modified_byte(c, op, v).1 == (Cpu { p: modified_byte(c, op, v).1.p, ..c }),
{
    reveal(modified_byte);
}

#[verifier::rlimit(40)]
proof fn consumed_alike(c: Cpu, k: Cpu, op: ReadOp, v: u8)
    requires
        c.a == k.a,
        c.x == k.x,
        c.y == k.y,
        c.sp == k.sp,
        c.p == k.p,
        op is Ora || op is And || op is Eor || op is Adc || op is Cmp || op is Sbc,
    ensures
        ({
            let d = consumed(c, op, v);
            let e = consumed(k, op, v);
            &&& d.a == e.a && d.x == e.x && d.y == e.y && d.sp == e.sp && d.p == e.p
            &&& e == (Cpu { a: e.a, p: e.p, ..k })
        }),
{
    if op is Adc {
        assert(consumed(c, op, v) == crate::cpu::adc(c, v) && consumed(k, op, v) == crate::cpu::adc(
            k,
            v,
        )) by {
            reveal(consumed);
        }
        reveal(crate::cpu::adc);
    } else if op is Sbc {
        assert(consumed(c, op, v) == crate::cpu::sbc(c, v) && consumed(k, op, v) == crate::cpu::sbc(
            k,
            v,
        )) by {
            reveal(consumed);
        }
        reveal(crate::cpu::sbc);
    } else {
        reveal(consumed);
    }
}

#[verifier::rlimit(40)]
proof fn combined_by_registers(c: Cpu, k: Cpu, op: RmwOp, v: u8)
    requires
        c.a == k.a,
        c.x == k.x,
        c.y == k.y,
        c.sp == k.sp,
        c.p == k.p,
    ensures
        ({
            let d = combined(c, op, v);
            let e = combined(k, op, v);
            &&& d.a == e.a && d.x == e.x && d.y == e.y && d.sp == e.sp && d.p == e.p
            &&& e == (Cpu { a: e.a, p: e.p, ..k })
        }),
{
    reveal(combined);
    consumed_alike(c, k, ReadOp::Ora, v);
    consumed_alike(c, k, ReadOp::And, v);
    consumed_alike(c, k, ReadOp::Eor, v);
    consumed_alike(c, k, ReadOp::Adc, v);
    consumed_alike(c, k, ReadOp::Cmp, v);
    consumed_alike(c, k, ReadOp::Sbc, v);
}

/// A step of a read-modify-write, in terms of the byte it finds.
#[verifier::rlimit(40)]
proof fn modify_step<B: Bus>(c: Cpu, b: B, op: RmwOp)
    requires
        is_running(c),
        c.tracking,
        modifies_by(b.value_at(c.pc), op),
    ensures
        ({
            let d = stepped(c, b).0;
            let (v, c1) = modified_byte(c, op, found(c, b));
            let k = combined(c1, op, v);
            &&& left(c, b) == v
            &&& d.a == k.a && d.x == k.x && d.y == k.y && d.sp == k.sp && d.p == k.p
        }),
{
    let c0 = at_operand(c, b);
    let b0 = after_opcode(c, b);
    let m = instruction(b.value_at(c.pc))->Modify_1;
    assert(instruction(b.value_at(c.pc)) == Instr::Modify(op, m)) by {
        reveal(modifies_by);
    }
    resolved_bus(c, b, op);
    let (addr, crossed, c1, r) = resolved(c0, b0, m);
    let (v, c2) = modified_byte(c1, op, r.value_at(addr));
    byte_by_flags(c, c1, op, r.value_at(addr));
    let (c3, b3) = put(c2, r.after_read(addr), m, addr, v, crate::cpu::modify_cycles(m));
    assert(c3 == (Cpu { cycles: c3.cycles, last_op: c3.last_op, ..c2 }) && c3.last_op is Some
        && c3.last_op.unwrap().addr == addr && c3.last_op.unwrap().value == v) by {
        reveal(put);
    }
    let w = modified_byte(c, op, r.value_at(addr)).1;
    combined_by_registers(w, c3, op, v);
    assert(executed(c0, b0, Instr::Modify(op, m)) == modified(c0, b0, op, m)) by {
        reveal(executed);
    }
    reveal(modified);
}

// ---------------------------------------------------------------------------
// In memory
// ---------------------------------------------------------------------------

/// INC leaves one more and DEC one less than it finds, modulo 256; Z and N describe the
/// new byte, and no register changes.
#[verifier::rlimit(40)]
pub proof fn inc_and_dec_count<B: Bus>(c: Cpu, b: B)
    requires
        is_running(c),
        c.tracking,
        in_shift_row(b.value_at(c.pc), 0xE0) || in_shift_row(b.value_at(c.pc), 0xC0),
    ensures
        ({
            let d = stepped(c, b).0;
            let op = b.value_at(c.pc);
            &&& op >= 0xE0 ==> left(c, b) as int == (found(c, b) + 1) % 0x100
            &&& op < 0xE0 ==> left(c, b) as int == (found(c, b) - 1) % 0x100
            &&& describes(d, left(c, b)) && same_but_zn(c, d)
            &&& d.a == c.a && d.x == c.x && d.y == c.y && d.sp == c.sp
        }),
{
    let op = if b.value_at(c.pc) >= 0xE0 {
        RmwOp::Inc
    } else {
        RmwOp::Dec
    };
    assert(modifies_by(b.value_at(c.pc), op)) by {
        reveal(modifies_by);
    }
    modify_step(c, b, op);
    reveal(modified_byte);
    reveal(combined);
    switched_flags();
}

/// The byte `r` and the carry out after `v` was shifted by a row of the shift group: ASL
/// and ROL double it, LSR and ROR halve it, and the rotates move the carry in at the
/// free end. The bit that falls out is the carry out.
pub open spec fn is_shifted(row: int, v: u8, carry_in: bool, r: u8, carry_out: bool) -> bool {
    &&& row == 0x00 ==> r + 0x100 * one_if(carry_out) == 2 * v
    &&& row == 0x20 ==> r + 0x100 * one_if(carry_out) == 2 * v + one_if(carry_in)
    &&& row == 0x40 ==> 2 * r + one_if(carry_out) == v
    &&& row == 0x60 ==> 2 * r + one_if(carry_out) == v + 0x100 * one_if(carry_in)
}

#[verifier::rlimit(40)]
proof fn shifted_byte(c: Cpu, op: RmwOp, v: u8)
    requires
        op is Asl || op is Rol || op is Lsr || op is Ror || op is Slo || op is Rla || op is Sre
            || op is Rra,
    ensures
        ({
            let (r, d) = modified_byte(c, op, v);
            let row: int = if op is Asl || op is Slo {
                0x00
            } else if op is Rol || op is Rla {
                0x20
            } else if op is Lsr || op is Sre {
                0x40
            } else {
                0x60
            };
            &&& is_shifted(row, v, carry(c.p), r, carry(d.p))
            &&& interrupt(d.p) == interrupt(c.p) && decimal(d.p) == decimal(c.p)
            &&& overflow(d.p) == overflow(c.p)
            &&& op is Asl || op is Rol || op is Lsr || op is Ror ==> describes(d, r)
            &&& d == (Cpu { p: d.p, ..c })
        }),
{
    reveal(modified_byte);
    switched_flags();
}

/// ASL, ROL, LSR and ROR shift the byte they find; Z and N describe the new byte, and no
/// register changes.
#[verifier::rlimit(40)]
pub proof fn shifts_move_one_bit<B: Bus>(c: Cpu, b: B)
    requires
        is_running(c),
        c.tracking,
        in_shift_row(b.value_at(c.pc), 0x00) || in_shift_row(b.value_at(c.pc), 0x20)
            || in_shift_row(b.value_at(c.pc), 0x40) || in_shift_row(b.value_at(c.pc), 0x60),
    ensures
        ({
            let d = stepped(c, b).0;
            let row = b.value_at(c.pc) as int / 0x20 * 0x20;
            &&& is_shifted(row, found(c, b), carry(c.p), left(c, b), carry(d.p))
            &&& describes(d, left(c, b)) && same_but_znc(c, d)
            &&& d.a == c.a && d.x == c.x && d.y == c.y && d.sp == c.sp
        }),
{
    let code = b.value_at(c.pc);
    let op = if code < 0x20 {
        RmwOp::Asl
    } else if code < 0x40 {
        RmwOp::Rol
    } else if code < 0x60 {
        RmwOp::Lsr
    } else {
        RmwOp::Ror
    };
    assert(modifies_by(code, op)) by {
        reveal(modifies_by);
    }
    modify_step(c, b, op);
    shifted_byte(c, op, found(c, b));
    reveal(combined);
}

/// The same operations on A ($0A, $2A, $4A, $6A).
pub proof fn shifts_of_the_accumulator<B: Bus>(c: Cpu, b: B)
    requires
        is_running(c),
        b.value_at(c.pc) == 0x0A || b.value_at(c.pc) == 0x2A || b.value_at(c.pc) == 0x4A
            || b.value_at(c.pc) == 0x6A,
    ensures
        ({
            let (d, e) = stepped(c, b);
            let row = b.value_at(c.pc) - 0x0A;
            &&& is_shifted(row, c.a, carry(c.p), d.a, carry(d.p))
            &&& describes(d, d.a) && same_but_znc(c, d)
            &&& d.x == c.x && d.y == c.y && d.sp == c.sp
            &&& runs_on(c, d, 1, 2)
            &&& e == after_opcode(c, b)
        }),
{
    let code = b.value_at(c.pc);
    assert(instruction(0x0A) == Instr::Accumulator(RmwOp::Asl));
    assert(instruction(0x2A) == Instr::Accumulator(RmwOp::Rol));
    assert(instruction(0x4A) == Instr::Accumulator(RmwOp::Lsr));
    assert(instruction(0x6A) == Instr::Accumulator(RmwOp::Ror));
    let op = if code == 0x0A {
        RmwOp::Asl
    } else if code == 0x2A {
        RmwOp::Rol
    } else if code == 0x4A {
        RmwOp::Lsr
    } else {
        RmwOp::Ror
    };
    reveal(executed);
    shifted_byte(at_operand(c, b), op, c.a);
}

// ---------------------------------------------------------------------------
// With a second half in the registers
// ---------------------------------------------------------------------------

/// SLO, RLA and SRE shift the byte they find like ASL, ROL and LSR, and combine A with
/// the new byte like ORA, AND and EOR; C is the bit that fell out.
#[verifier::rlimit(40)]
pub proof fn shift_and_logic<B: Bus>(c: Cpu, b: B)
    requires
        is_running(c),
        c.tracking,
        in_combined_row(b.value_at(c.pc), 0x00) || in_combined_row(b.value_at(c.pc), 0x20)
            || in_combined_row(b.value_at(c.pc), 0x40),
    ensures
        ({
            let d = stepped(c, b).0;
            let row = b.value_at(c.pc) as int / 0x20 * 0x20;
            let r = left(c, b);
            &&& is_shifted(row, found(c, b), carry(c.p), r, carry(d.p))
            &&& row == 0x00 ==> d.a == c.a | r
            &&& row == 0x20 ==> d.a == c.a & r
            &&& row == 0x40 ==> d.a == c.a ^ r
            &&& describes(d, d.a) && same_but_znc(c, d)
            &&& d.x == c.x && d.y == c.y && d.sp == c.sp
        }),
{
    let code = b.value_at(c.pc);
    let op = if code < 0x20 {
        RmwOp::Slo
    } else if code < 0x40 {
        RmwOp::Rla
    } else {
        RmwOp::Sre
    };
    assert(modifies_by(code, op)) by {
        reveal(modifies_by);
    }
    modify_step(c, b, op);
    shifted_byte(c, op, found(c, b));
    reveal(combined);
    reveal(consumed);
    switched_flags();
}

/// RRA shifts the byte it finds like ROR, and adds the new byte and the bit that fell
/// out to A.
#[verifier::rlimit(40)]
pub proof fn rotate_and_add<B: Bus>(c: Cpu, b: B)
    requires
        is_running(c),
        c.tracking,
        in_combined_row(b.value_at(c.pc), 0x60),
    ensures
        ({
            let d = stepped(c, b).0;
            let v = found(c, b);
            let r = left(c, b);
            &&& is_shifted(0x60, v, carry(c.p), r, v % 2 == 1)
            &&& is_sum(c.a, r, v % 2 == 1, decimal(c.p), d)
            &&& interrupt(d.p) == interrupt(c.p) && decimal(d.p) == decimal(c.p)
            &&& d.x == c.x && d.y == c.y && d.sp == c.sp
        }),
{
    let op = RmwOp::Rra;
    assert(modifies_by(b.value_at(c.pc), op)) by {
        reveal(modifies_by);
    }
    modify_step(c, b, op);
    shifted_byte(c, op, found(c, b));
    let (v, c1) = modified_byte(c, op, found(c, b));
    adc_is_sum(c1, v);
    assert(combined(c1, op, v) == crate::cpu::adc(c1, v)) by {
        reveal(combined);
        reveal(consumed);
    }
}

/// DCP leaves one less than it finds and compares A with it.
pub proof fn count_and_compare<B: Bus>(c: Cpu, b: B)
    requires
        is_running(c),
        c.tracking,
        in_combined_row(b.value_at(c.pc), 0xC0),
    ensures
        ({
            let d = stepped(c, b).0;
            let r = left(c, b);
            &&& r as int == (found(c, b) - 1) % 0x100
            &&& is_comparison(c.a, r, d) && same_but_znc(c, d)
            &&& d.a == c.a && d.x == c.x && d.y == c.y && d.sp == c.sp
        }),
{
    let op = RmwOp::Dcp;
    assert(modifies_by(b.value_at(c.pc), op)) by {
        reveal(modifies_by);
    }
    modify_step(c, b, op);
    compared_byte(c, found(c, b));
}

#[verifier::rlimit(40)]
proof fn compared_byte(c: Cpu, v: u8)
    ensures
        ({
            let (r, c1) = modified_byte(c, RmwOp::Dcp, v);
            let d = combined(c1, RmwOp::Dcp, r);
            &&& r as int == (v - 1) % 0x100
            &&& is_comparison(c.a, r, d) && same_but_znc(c, d)
            &&& d.a == c.a && d.x == c.x && d.y == c.y && d.sp == c.sp
        }),
{
    let r = v.wrapping_sub(1);
    assert(modified_byte(c, RmwOp::Dcp, v) == (r, c)) by {
        reveal(modified_byte);
    }
    assert(combined(c, RmwOp::Dcp, r) == crate::cpu::compared(c, c.a, r)) by {
        reveal(combined);
        reveal(consumed);
    }
    assert(c.a.wrapping_sub(r) as int == (c.a - r) % 0x100);
    switched_flags();
}

/// ISC leaves one more than it finds and subtracts it, and the borrow, from A.
#[verifier::rlimit(40)]
pub proof fn count_and_subtract<B: Bus>(c: Cpu, b: B)
    requires
        is_running(c),
        c.tracking,
        in_combined_row(b.value_at(c.pc), 0xE0),
    ensures
        ({
            let d = stepped(c, b).0;
            let r = left(c, b);
            &&& r as int == (found(c, b) + 1) % 0x100
            &&& is_difference(c.a, r, carry(c.p), decimal(c.p), d)
            &&& interrupt(d.p) == interrupt(c.p) && decimal(d.p) == decimal(c.p)
            &&& d.x == c.x && d.y == c.y && d.sp == c.sp
        }),
{
    let op = RmwOp::Isc;
    assert(modifies_by(b.value_at(c.pc), op)) by {
        reveal(modifies_by);
    }
    modify_step(c, b, op);
    let v = found(c, b).wrapping_add(1);
    assert(modified_byte(c, op, found(c, b)) == (v, c)) by {
        reveal(modified_byte);
    }
    sbc_is_difference(c, v);
    assert(combined(c, op, v) == crate::cpu::sbc(c, v)) by {
        reveal(combined);
        reveal(consumed);
    }
}

// ---------------------------------------------------------------------------
// Start and watching
// ---------------------------------------------------------------------------

/// A reset puts the PC where it is told, the stack pointer at $FF, and everything else
/// that a run changes to zero, with no flag set; the BRK and tracking switches stay. At
/// power-on BRK stops, and nothing is tracked.
pub proof fn reset_starts_fresh(c: Cpu, pc: u16)
    ensures
        ({
            let d = reset_cpu(c, pc);
            let n = power_on_cpu();
            &&& d.pc == pc && d.sp == 0xFF && d.a == 0 && d.x == 0 && d.y == 0 && d.p == 0x20
            &&& d.cycles == 0 && d.instructions == 0 && d.last_op is None
            &&& is_running(d)
            &&& d.brk_stops == c.brk_stops && d.tracking == c.tracking
            &&& n.pc == 0 && n.sp == 0xFF && n.a == 0 && n.x == 0 && n.y == 0 && n.p == 0x20
            &&& n.cycles == 0 && n.instructions == 0 && n.last_op is None
            &&& is_running(n)
            &&& n.brk_stops && !n.tracking
        }),
{
}

/// A CPU keeps running as long as it has met neither a JAM nor a BRK that stops it.
pub proof fn only_jam_and_brk_stop(c: Cpu)
    ensures
        is_running(c) <==> !c.jammed && !c.brk_hit,
{
}

/// The CPU `c` with tracking switched.
pub open spec fn watched(c: Cpu, on: bool) -> Cpu {
    Cpu { tracking: on, last_op: None, ..c }
}

/// Everything but the record of the last access is the same.
spec fn alike(d: Cpu, e: Cpu) -> bool {
    d == (Cpu { tracking: d.tracking, last_op: d.last_op, ..e })
}

/// Tracking only watches: with or without it, a step leaves the same registers, flags,
/// counters and bus.
#[verifier::rlimit(50)]
pub proof fn tracking_only_watches<B: Bus>(c: Cpu, b: B)
    ensures
        ({
            let (d, e) = stepped(watched(c, true), b);
            let (f, g) = stepped(watched(c, false), b);
            &&& d.a == f.a && d.x == f.x && d.y == f.y && d.sp == f.sp && d.p == f.p
            &&& d.pc == f.pc && d.cycles == f.cycles && d.instructions == f.instructions
            &&& d.jammed == f.jammed && d.brk_hit == f.brk_hit
            &&& e == g
        }),
{
    if is_running(c) {
        let op = b.value_at(c.pc);
        let b0 = b.after_read(c.pc);
        let on = Cpu {
            pc: c.pc.wrapping_add(1),
            current_opcode: op,
            ..watched(c, true)
        };
        let off = Cpu {
            pc: c.pc.wrapping_add(1),
            current_opcode: op,
            ..watched(c, false)
        };
        executed_alike(on, off, b0, instruction(op));
    }
}

proof fn resolved_alike<B: Bus>(c: Cpu, k: Cpu, b: B, m: AddrMode)
    requires
        alike(c, k),
    ensures
        resolved(c, b, m).0 == resolved(k, b, m).0,
        resolved(c, b, m).1 == resolved(k, b, m).1,
        alike(resolved(c, b, m).2, resolved(k, b, m).2),
        resolved(c, b, m).3 == resolved(k, b, m).3,
{
    reveal(resolved);
}

proof fn adc_alike(c: Cpu, k: Cpu, v: u8)
    requires
        alike(c, k),
    ensures
        alike(crate::cpu::adc(c, v), crate::cpu::adc(k, v)),
{
    reveal(crate::cpu::adc);
}

proof fn sbc_alike(c: Cpu, k: Cpu, v: u8)
    requires
        alike(c, k),
    ensures
        alike(crate::cpu::sbc(c, v), crate::cpu::sbc(k, v)),
{
    reveal(crate::cpu::sbc);
}

#[verifier::rlimit(50)]
proof fn all_consumed_alike(c: Cpu, k: Cpu, op: ReadOp, v: u8)
    requires
        alike(c, k),
    ensures
        alike(consumed(c, op, v), consumed(k, op, v)),
{
    adc_alike(c, k, v);
    sbc_alike(c, k, v);
    reveal(consumed);
}

#[verifier::rlimit(40)]
proof fn immediate_alike<B: Bus>(c: Cpu, k: Cpu, b: B, op: ReadOp)
    requires
        alike(c, k),
    ensures
        alike(
            executed(c, b, Instr::Immediate(op)).0,
            executed(k, b, Instr::Immediate(op)).0,
        ),
        executed(c, b, Instr::Immediate(op)).1 == executed(k, b, Instr::Immediate(op)).1,
{
    let c1 = Cpu { pc: c.pc.wrapping_add(1), ..c };
    let k1 = Cpu { pc: k.pc.wrapping_add(1), ..k };
    all_consumed_alike(c1, k1, op, b.value_at(c.pc));
    reveal(executed);
}

proof fn loaded_alike<B: Bus>(c: Cpu, k: Cpu, b: B, m: AddrMode)
    requires
        alike(c, k),
    ensures
        loaded(c, b, m).0 == loaded(k, b, m).0,
        alike(loaded(c, b, m).1, loaded(k, b, m).1),
        loaded(c, b, m).2 == loaded(k, b, m).2,
{
    resolved_alike(c, k, b, m);
    reveal(loaded);
}

#[verifier::rlimit(40)]
proof fn read_alike<B: Bus>(c: Cpu, k: Cpu, b: B, op: ReadOp, m: AddrMode)
    requires
        alike(c, k),
    ensures
        alike(executed(c, b, Instr::Read(op, m)).0, executed(k, b, Instr::Read(op, m)).0),
        executed(c, b, Instr::Read(op, m)).1 == executed(k, b, Instr::Read(op, m)).1,
{
    loaded_alike(c, k, b, m);
    all_consumed_alike(loaded(c, b, m).1, loaded(k, b, m).1, op, loaded(c, b, m).0);
    reveal(executed);
}

#[verifier::rlimit(40)]
proof fn stores_alike<B: Bus>(c: Cpu, k: Cpu, b: B, i: Instr)
    requires
        alike(c, k),
        i is Store || i is Masked || i is Tas,
    ensures
        alike(executed(c, b, i).0, executed(k, b, i).0),
        executed(c, b, i).1 == executed(k, b, i).1,
{
    let m = match i {
        Instr::Store(_, m) => m,
        Instr::Masked(_, m) => m,
        _ => AddrMode::AbsoluteY,
    };
    resolved_alike(c, k, b, m);
    reveal(crate::cpu::stored);
    reveal(put);
    reveal(executed);
}

#[verifier::rlimit(40)]
proof fn register_alike<B: Bus>(c: Cpu, k: Cpu, b: B, i: Instr)
    requires
        alike(c, k),
        i is Register || i is Branch || i is Brk || i is Accumulator,
    ensures
        alike(executed(c, b, i).0, executed(k, b, i).0),
        executed(c, b, i).1 == executed(k, b, i).1,
{
    if let Instr::Accumulator(op) = i {
        byte_by_flags(c, k, op, c.a);
    }
    reveal(crate::cpu::moved);
    reveal(crate::cpu::branched);
    reveal(crate::cpu::broken);
    reveal(executed);
}

#[verifier::rlimit(40)]
proof fn plain_alike<B: Bus>(c: Cpu, k: Cpu, b: B, i: Instr)
    requires
        alike(c, k),
        !(i is Immediate || i is Read || i is NopRead || i is Store || i is Masked || i is Tas
            || i is Modify || i is Register || i is Branch || i is Brk || i is Accumulator),
    ensures
        alike(executed(c, b, i).0, executed(k, b, i).0),
        executed(c, b, i).1 == executed(k, b, i).1,
{
    reveal(executed);
}

#[verifier::rlimit(40)]
proof fn executed_alike<B: Bus>(c: Cpu, k: Cpu, b: B, i: Instr)
    requires
        alike(c, k),
    ensures
        alike(executed(c, b, i).0, executed(k, b, i).0),
        executed(c, b, i).1 == executed(k, b, i).1,
{
    match i {
        Instr::Immediate(op) => {
            immediate_alike(c, k, b, op);
        },
        Instr::Read(op, m) => {
            read_alike(c, k, b, op, m);
        },
        Instr::NopRead(m) => {
            loaded_alike(c, k, b, m);
            reveal(executed);
        },
        Instr::Modify(op, m) => {
            modified_alike(c, k, b, op, m);
            reveal(executed);
        },
        Instr::Store(..) | Instr::Masked(..) | Instr::Tas => {
            stores_alike(c, k, b, i);
        },
        Instr::Register(_) | Instr::Branch(..) | Instr::Brk | Instr::Accumulator(_) => {
            register_alike(c, k, b, i);
        },
        _ => {
            plain_alike(c, k, b, i);
        },
    }
}

#[verifier::rlimit(40)]
proof fn modified_alike<B: Bus>(c: Cpu, k: Cpu, b: B, op: RmwOp, m: AddrMode)
    requires
        alike(c, k),
    ensures
        alike(modified(c, b, op, m).0, modified(k, b, op, m).0),
        modified(c, b, op, m).1 == modified(k, b, op, m).1,
{
    resolved_alike(c, k, b, m);
    let (addr, crossed, c1, r) = resolved(c, b, m);
    let k1 = resolved(k, b, m).2;
    byte_by_flags(c1, k1, op, r.value_at(addr));
    let (v, c2) = modified_byte(c1, op, r.value_at(addr));
    let k2 = modified_byte(k1, op, r.value_at(addr)).1;
    let n = crate::cpu::modify_cycles(m);
    let c3 = put(c2, r.after_read(addr), m, addr, v, n).0;
    let k3 = put(k2, r.after_read(addr), m, addr, v, n).0;
    assert(alike(c3, k3) && put(c2, r.after_read(addr), m, addr, v, n).1 == put(
        k2,
        r.after_read(addr),
        m,
        addr,
        v,
        n,
    ).1) by {
        reveal(put);
    }
    combined_by_registers(c3, k3, op, v);
    combined_by_registers(k3, c3, op, v);
    reveal(modified);
}

} // verus!
