//! What every instruction keeps: the promises of the emulator as a whole.

use vstd::prelude::*;

verus! {

use crate::bits::{
    flag_set, flag_switch_is_local, is_flag, pulled_status_flags, with_flag, with_zn, FLAG_B,
    FLAG_I, FLAG_N, FLAG_U, FLAG_Z,
};
use crate::cpu::{
    adc, branched, broken, combined, consumed, executed, fetched, is_running, loaded, modified,
    modified_byte, moved, power_on_cpu, pulled, put, reset_cpu, resolved, sbc, stepped, stored, Bus,
    Cpu, MemOp,
};
use crate::instr::{instruction, AddrMode, Instr, ReadOp, RegOp, RmwOp};

/// Everything but the registers and the status byte is the same.
spec fn same_control(c: Cpu, d: Cpu) -> bool {
    &&& c.pc == d.pc
    &&& c.cycles == d.cycles
    &&& c.instructions == d.instructions
    &&& c.jammed == d.jammed
    &&& c.brk_hit == d.brk_hit
    &&& c.brk_stops == d.brk_stops
    &&& c.tracking == d.tracking
    &&& c.last_op == d.last_op
    &&& c.zp_operand == d.zp_operand
    &&& c.current_opcode == d.current_opcode
}

/// The bits that no instruction works with are as they should be: the unused bit is
/// set, and B, which exists only in pushed copies of the status, is clear.
pub open spec fn fixed_bits(c: Cpu) -> bool {
    flag_set(c.p, FLAG_U) && !flag_set(c.p, FLAG_B)
}

/// The unused status bit survives, and B does not appear.
spec fn keeps_fixed(c: Cpu, d: Cpu) -> bool {
    &&& flag_set(c.p, FLAG_U) ==> flag_set(d.p, FLAG_U)
    &&& !flag_set(c.p, FLAG_B) ==> !flag_set(d.p, FLAG_B)
}

/// The bits of a status byte that no instruction works with.
#[verifier::opaque]
spec fn spare_bits(p: u8) -> (bool, bool) {
    (flag_set(p, FLAG_U), flag_set(p, FLAG_B))
}

/// Switching flags leaves the spare bits alone.
proof fn flags_spare_the_rest()
    ensures
        forall|p: u8, m: u8, on: bool|
            is_flag(m) && m != FLAG_U && m != FLAG_B ==> #[trigger] spare_bits(with_flag(p, m, on))
                == spare_bits(p),
        forall|p: u8, v: u8| #[trigger] spare_bits(with_zn(p, v)) == spare_bits(p),
{
    reveal(spare_bits);
    assert forall|p: u8, m: u8, on: bool| is_flag(m) && m != FLAG_U && m
        != FLAG_B implies #[trigger] spare_bits(with_flag(p, m, on)) == spare_bits(p) by {
        flag_switch_is_local(p, m, FLAG_U, on);
        flag_switch_is_local(p, m, FLAG_B, on);
    }
    assert forall|p: u8, v: u8| #[trigger] spare_bits(with_zn(p, v)) == spare_bits(p) by {
        let q = with_flag(p, FLAG_Z, v == 0);
        flag_switch_is_local(p, FLAG_Z, FLAG_U, v == 0);
        flag_switch_is_local(p, FLAG_Z, FLAG_B, v == 0);
        flag_switch_is_local(q, FLAG_N, FLAG_U, v >= 0x80);
        flag_switch_is_local(q, FLAG_N, FLAG_B, v >= 0x80);
    }
}

proof fn adc_frame(c: Cpu, m: u8)
    ensures
        same_control(c, adc(c, m)),
        spare_bits(adc(c, m).p) == spare_bits(c.p),
{
    reveal(adc);
    flags_spare_the_rest();
}

proof fn sbc_frame(c: Cpu, m: u8)
    ensures
        same_control(c, sbc(c, m)),
        spare_bits(sbc(c, m).p) == spare_bits(c.p),
{
    reveal(sbc);
    flags_spare_the_rest();
}

#[verifier::rlimit(30)]
proof fn consumed_frame(c: Cpu, op: ReadOp, v: u8)
    ensures
        same_control(c, consumed(c, op, v)),
        spare_bits(consumed(c, op, v).p) == spare_bits(c.p),
{
    reveal(consumed);
    if op is Adc {
        adc_frame(c, v);
    } else if op is Sbc {
        sbc_frame(c, v);
    } else {
        flags_spare_the_rest();
    }
}

proof fn modified_byte_frame(c: Cpu, op: RmwOp, v: u8)
    ensures
        same_control(c, modified_byte(c, op, v).1),
        spare_bits(modified_byte(c, op, v).1.p) == spare_bits(c.p),
{
    reveal(modified_byte);
    flags_spare_the_rest();
}

proof fn combined_frame(c: Cpu, op: RmwOp, m: u8)
    ensures
        same_control(c, combined(c, op, m)),
        spare_bits(combined(c, op, m).p) == spare_bits(c.p),
{
    reveal(combined);
    consumed_frame(c, ReadOp::Ora, m);
    consumed_frame(c, ReadOp::And, m);
    consumed_frame(c, ReadOp::Eor, m);
    consumed_frame(c, ReadOp::Adc, m);
    consumed_frame(c, ReadOp::Cmp, m);
    consumed_frame(c, ReadOp::Sbc, m);
}

proof fn moved_frame(c: Cpu, op: RegOp)
    ensures
        same_control(c, moved(c, op)),
        spare_bits(moved(c, op).p) == spare_bits(c.p),
{
    reveal(moved);
    flags_spare_the_rest();
}

/// Resolving an operand moves the PC and remembers the zero-page operand, and
/// changes nothing else.
proof fn resolved_frame<B: Bus>(c: Cpu, b: B, m: AddrMode)
    ensures
        resolved(c, b, m).2 == (Cpu {
            pc: resolved(c, b, m).2.pc,
            zp_operand: resolved(c, b, m).2.zp_operand,
            ..c
        }),
{
    reveal(resolved);
}

/// Cycles between two states of the counter.
pub open spec fn cycles_between(c: Cpu, d: Cpu) -> u64 {
    d.cycles.wrapping_sub(c.cycles)
}

/// The access `op` took the bus from `before` to `after`.
pub open spec fn performed<B: Bus>(op: MemOp, before: B, after: B) -> bool {
    if op.write {
        after == before.after_write(op.addr, op.value)
    } else {
        op.value == before.value_at(op.addr) && after == before.after_read(op.addr)
    }
}

/// The recorded access is the last thing that happened on the bus.
pub open spec fn is_last_access<B: Bus>(op: MemOp, after: B) -> bool {
    exists|before: B| #[trigger] performed(op, before, after)
}

/// What an instruction does to the recorded access: with tracking on and an
/// addressing mode, it is the last access it made, and otherwise it stays.
spec fn honest_record<B: Bus>(c: Cpu, d: Cpu, b: B, accesses: bool) -> bool {
    if c.tracking && accesses {
        d.last_op matches Some(op) && is_last_access(op, b)
    } else {
        d.last_op == c.last_op
    }
}

proof fn put_frame<B: Bus>(c: Cpu, b: B, m: AddrMode, addr: u16, v: u8, n: u64)
    requires
        1 <= n <= 8,
    ensures
        ({
            let (d, e) = put(c, b, m, addr, v, n);
            &&& d == (Cpu { cycles: d.cycles, last_op: d.last_op, ..c })
            &&& cycles_between(c, d) == n
            &&& honest_record(c, d, e, true)
        }),
{
    reveal(put);
    let (d, e) = put(c, b, m, addr, v, n);
    if c.tracking {
        assert(performed(d.last_op.unwrap(), b, e));
    }
}

proof fn load_frame<B: Bus>(c: Cpu, b: B, m: AddrMode)
    ensures
        ({
            let (v, d, e) = loaded(c, b, m);
            &&& d == (Cpu {
                pc: d.pc,
                zp_operand: d.zp_operand,
                cycles: d.cycles,
                last_op: d.last_op,
                ..c
            })
            &&& 1 <= cycles_between(c, d) <= 8
            &&& honest_record(c, d, e, true)
        }),
{
    reveal(loaded);
    resolved_frame(c, b, m);
    let (addr, crossed, c0, b0) = resolved(c, b, m);
    let (v, d, e) = loaded(c, b, m);
    if c.tracking {
        assert(performed(d.last_op.unwrap(), b0, e));
    }
}

#[verifier::rlimit(30)]
proof fn executed_frame<B: Bus>(c: Cpu, b: B, i: Instr)
    requires
        match i {
            Instr::SetFlag(m, _) => is_flag(m) && m != FLAG_U && m != FLAG_B,
            _ => true,
        },
    ensures
        ({
            let (d, e) = executed(c, b, i);
            &&& d.instructions == c.instructions
            &&& d.brk_stops == c.brk_stops
            &&& d.tracking == c.tracking
            &&& 1 <= cycles_between(c, d) <= 8
            &&& keeps_fixed(c, d)
            &&& honest_record(c, d, e, i.accesses_memory())
        }),
{
    reveal(executed);
    reveal(spare_bits);
    let (d, e) = executed(c, b, i);
    match i {
        Instr::Immediate(op) => {
            let (v, c1, b1) = fetched(c, b);
            consumed_frame(c1, op, v);
        },
        Instr::Read(op, m) => {
            load_frame(c, b, m);
            let (v, c1, b1) = loaded(c, b, m);
            consumed_frame(c1, op, v);
        },
        Instr::Store(op, m) => {
            reveal(stored);
            resolved_frame(c, b, m);
            let (addr, _, c1, b1) = resolved(c, b, m);
            put_frame(
                c1,
                b1,
                m,
                addr,
                crate::cpu::store_value(c, op),
                crate::cpu::store_cycles(m),
            );
        },
        Instr::Modify(op, m) => {
            reveal(modified);
            resolved_frame(c, b, m);
            let (addr, _, c1, b1) = resolved(c, b, m);
            let (v, c2) = modified_byte(c1, op, b1.value_at(addr));
            modified_byte_frame(c1, op, b1.value_at(addr));
            put_frame(c2, b1.after_read(addr), m, addr, v, crate::cpu::modify_cycles(m));
            let (c3, b3) = put(
                c2,
                b1.after_read(addr),
                m,
                addr,
                v,
                crate::cpu::modify_cycles(m),
            );
            combined_frame(c3, op, v);
        },
        Instr::Accumulator(op) => {
            modified_byte_frame(c, op, c.a);
        },
        Instr::Register(op) => {
            moved_frame(c, op);
        },
        Instr::SetFlag(m, on) => {
            flag_switch_is_local(c.p, m, FLAG_U, on);
            flag_switch_is_local(c.p, m, FLAG_B, on);
        },
        Instr::Branch(m, on) => {
            reveal(branched);
        },
        Instr::Pla => {
            let (v, c1, b1) = pulled(c, b);
            flags_spare_the_rest();
            assert(spare_bits(with_zn(c1.p, v)) == spare_bits(c1.p));
        },
        Instr::Plp => {
            let (v, c1, b1) = pulled(c, b);
            pulled_status_flags(v, FLAG_U);
            pulled_status_flags(v, FLAG_B);
        },
        Instr::Rti => {
            let (v, c1, b1) = pulled(c, b);
            pulled_status_flags(v, FLAG_U);
            pulled_status_flags(v, FLAG_B);
        },
        Instr::Brk => {
            reveal(broken);
            flag_switch_is_local(c.p, FLAG_I, FLAG_U, true);
            flag_switch_is_local(c.p, FLAG_I, FLAG_B, true);
        },
        Instr::NopRead(m) => {
            load_frame(c, b, m);
        },
        Instr::Masked(op, m) => {
            resolved_frame(c, b, m);
            let (addr, _, c1, b1) = resolved(c, b, m);
            put_frame(
                c1,
                b1,
                m,
                addr,
                crate::cpu::masked_value(c1, op) & crate::bits::high_byte(addr).wrapping_add(1),
                crate::cpu::store_cycles(m),
            );
        },
        Instr::Tas => {
            let (base, c1, b1) = crate::cpu::fetched_word(c, b);
            let c2 = Cpu { sp: c1.a & c1.x, ..c1 };
            put_frame(
                c2,
                b1,
                AddrMode::AbsoluteY,
                base.wrapping_add(c.y as u16),
                c2.sp & crate::bits::high_byte(base).wrapping_add(1),
                5,
            );
        },
        _ => {},
    }
}

/// A halted CPU stays as it is, and so does its bus.
pub proof fn halted_cpu_does_nothing<B: Bus>(c: Cpu, b: B)
    requires
        !is_running(c),
    ensures
        stepped(c, b) == (c, b),
{
}

/// Every opcode is handled: a running CPU counts one instruction per step and is
/// charged between one and eight cycles for it.
pub proof fn every_step_is_charged<B: Bus>(c: Cpu, b: B)
    requires
        is_running(c),
    ensures
        stepped(c, b).0.instructions == c.instructions.wrapping_add(1),
        1 <= cycles_between(c, stepped(c, b).0) <= 8,
{
    step_frame(c, b);
}

/// The unused status bit reads as 1 after a reset and stays so, and the B bit reads
/// as 0 after a reset and never appears.
pub proof fn unused_flag_stays_set<B: Bus>(c: Cpu, b: B, pc: u16)
    ensures
        fixed_bits(power_on_cpu()),
        fixed_bits(reset_cpu(c, pc)),
        flag_set(c.p, FLAG_U) ==> flag_set(stepped(c, b).0.p, FLAG_U),
        !flag_set(c.p, FLAG_B) ==> !flag_set(stepped(c, b).0.p, FLAG_B),
        fixed_bits(c) ==> fixed_bits(stepped(c, b).0),
{
    assert(0x20u8 & 0x20u8 != 0 && 0x20u8 & 0x10u8 == 0) by (bit_vector);
    step_frame(c, b);
}

/// A step never touches the tracking and BRK switches. Without tracking the
/// recorded access stays as it was. With tracking there is one exactly where the
/// instruction touches memory through an addressing mode, and it is the last access
/// that the step made: the bus is then what that write left, or what that read left
/// and returned.
pub proof fn recorded_access_happened<B: Bus>(c: Cpu, b: B)
    ensures
        ({
            let (d, e) = stepped(c, b);
            &&& d.tracking == c.tracking
            &&& d.brk_stops == c.brk_stops
            &&& !c.tracking ==> d.last_op == c.last_op
            &&& c.tracking && is_running(c) ==> match d.last_op {
                None => !instruction(b.value_at(c.pc)).accesses_memory(),
                Some(op) => instruction(b.value_at(c.pc)).accesses_memory() && is_last_access(
                    op,
                    e,
                ),
            }
        }),
{
    step_frame(c, b);
}

proof fn set_flag_masks(op: u8)
    ensures
        instruction(op) matches Instr::SetFlag(m, _) ==> is_flag(m) && m != FLAG_U && m != FLAG_B,
{
}

proof fn step_frame<B: Bus>(c: Cpu, b: B)
    ensures
        is_running(c) ==> {
            let c0 = if c.tracking {
                Cpu { last_op: None, ..c }
            } else {
                c
            };
            let (d, e) = stepped(c, b);
            &&& d.instructions == c.instructions.wrapping_add(1)
            &&& d.brk_stops == c.brk_stops
            &&& d.tracking == c.tracking
            &&& 1 <= cycles_between(c, d) <= 8
            &&& keeps_fixed(c, d)
            &&& honest_record(c0, d, e, instruction(b.value_at(c.pc)).accesses_memory())
        },
{
    if is_running(c) {
        let c0 = if c.tracking {
            Cpu { last_op: None, ..c }
        } else {
            c
        };
        let (op, c1, b1) = fetched(c0, b);
        set_flag_masks(op);
        executed_frame(Cpu { current_opcode: op, ..c1 }, b1, instruction(op));
    }
}

} // verus!
