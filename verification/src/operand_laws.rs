//! How the instructions with a memory operand find it: the recorded access of each
//! addressing mode, in terms of the bytes behind the opcode and the index registers.

use vstd::prelude::*;

verus! {

use crate::bits::word;
use crate::cpu::{
    combined, consumed, executed, fetched, fetched_word, is_running, loaded, modified,
    modified_byte, put, resolved, stepped, stored, Bus, Cpu, MemOp,
};
use crate::instr::{instruction, undocumented, AddrMode, Instr};
use crate::opcode_laws::{
    after_first, after_opcode, after_second, behind, first_byte, runs_on, second_byte, spelled_word,
};

/// The opcodes with a memory operand that write it without reading it.
pub open spec fn stores(op: u8) -> bool {
    0x80 <= op < 0xA0
}

/// The opcodes with a memory operand that read it and write it back.
pub open spec fn modifies(op: u8) -> bool {
    op % 4 >= 2 && !(0x80 <= op < 0xC0)
}

/// The recorded access `m` is what happened to the bus after it stood at `r`: a read
/// that returned the recorded byte, a write of the recorded byte, or both.
pub open spec fn happened<B: Bus>(m: MemOp, op: u8, r: B, e: B) -> bool {
    &&& m.write == (stores(op) || modifies(op))
    &&& !stores(op) && !modifies(op) ==> m.value == r.value_at(m.addr) && e == r.after_read(m.addr)
    &&& stores(op) ==> e == r.after_write(m.addr, m.value)
    &&& modifies(op) ==> e == r.after_read(m.addr).after_write(m.addr, m.value)
}

/// Cycles of an access that never crosses a page boundary: a read or a store takes
/// `n`, and a read that writes back two more.
pub open spec fn plain_cycles(op: u8, n: int) -> u64 {
    if modifies(op) {
        (n + 2) as u64
    } else {
        n as u64
    }
}

/// Cycles of an indexed access: a read takes `n` and one more when indexing leaves
/// the page, a store always takes the extra cycle, and a read that writes back two
/// more than that.
pub open spec fn indexed_cycles(op: u8, n: int, crossed: bool) -> u64 {
    if modifies(op) {
        (n + 3) as u64
    } else if stores(op) || crossed {
        (n + 1) as u64
    } else {
        n as u64
    }
}

/// The CPU once the opcode has been fetched.
pub(crate) open spec fn at_operand<B: Bus>(c: Cpu, b: B) -> Cpu {
    Cpu {
        last_op: if c.tracking {
            None
        } else {
            c.last_op
        },
        pc: c.pc.wrapping_add(1),
        current_opcode: b.value_at(c.pc),
        ..c
    }
}

/// The instruction accesses memory through the mode `m`, in the way the opcode says.
/// TAS, which computes its address on its own, does not count.
#[verifier::opaque]
spec fn goes_through(op: u8, m: AddrMode) -> bool {
    match instruction(op) {
        Instr::Read(_, k) => k == m && !stores(op) && !modifies(op),
        Instr::NopRead(k) => k == m && !stores(op) && !modifies(op),
        Instr::Store(_, k) => k == m && stores(op) && !modifies(op),
        Instr::Masked(_, k) => k == m && stores(op) && !modifies(op),
        Instr::Modify(_, k) => k == m && !stores(op) && modifies(op),
        _ => false,
    }
}

/// A step of an instruction that accesses memory, in terms of the resolved address.
#[verifier::rlimit(40)]
proof fn access_step<B: Bus>(c: Cpu, b: B, m: AddrMode)
    requires
        is_running(c),
        goes_through(b.value_at(c.pc), m),
    ensures
        ({
            let op = b.value_at(c.pc);
            let (d, e) = stepped(c, b);
            let (addr, crossed, c1, r) = resolved(at_operand(c, b), after_opcode(c, b), m);
            &&& d.pc == c1.pc
            &&& d.instructions == c.instructions.wrapping_add(1)
            &&& !d.jammed && !d.brk_hit
            &&& c.tracking ==> {
                &&& d.last_op matches Some(a)
                &&& a.mode == m
                &&& a.addr == addr
                &&& a.ptr == if m.indirect() {
                    c1.zp_operand
                } else {
                    0
                }
                &&& a.illegal == undocumented(op)
                &&& happened(a, op, r, e)
            }
            &&& !c.tracking ==> d.last_op == c.last_op
            &&& d.cycles == c.cycles.wrapping_add(
                if modifies(op) {
                    crate::cpu::modify_cycles(m)
                } else if stores(op) {
                    crate::cpu::store_cycles(m)
                } else {
                    crate::cpu::read_cycles(m, crossed)
                },
            )
        }),
{
    reveal(executed);
    reveal(goes_through);
    let op = b.value_at(c.pc);
    let c0 = at_operand(c, b);
    let b0 = after_opcode(c, b);
    let (addr, crossed, c1, r) = resolved(c0, b0, m);
    resolved_keeps(c0, b0, m);
    match instruction(op) {
        Instr::Read(o, _) => {
            reveal(loaded);
            let (v, c2, b2) = loaded(c0, b0, m);
            consumed_keeps(c2, o, v);
        },
        Instr::NopRead(_) => {
            reveal(loaded);
        },
        Instr::Store(_, _) => {
            reveal(stored);
            reveal(put);
        },
        Instr::Masked(_, _) => {
            reveal(put);
        },
        Instr::Modify(o, _) => {
            reveal(modified);
            reveal(put);
            let (v, c2) = modified_byte(c1, o, r.value_at(addr));
            modified_byte_keeps(c1, o, r.value_at(addr));
            let (c3, b3) = put(c2, r.after_read(addr), m, addr, v, crate::cpu::modify_cycles(m));
            combined_keeps(c3, o, v);
        },
        _ => {},
    }
}

/// The same for TAS, which has no resolved address of its own.
#[verifier::rlimit(40)]
proof fn tas_step<B: Bus>(c: Cpu, b: B)
    requires
        is_running(c),
        instruction(b.value_at(c.pc)) is Tas,
        stores(b.value_at(c.pc)) && !modifies(b.value_at(c.pc)),
    ensures
        ({
            let op = b.value_at(c.pc);
            let (d, e) = stepped(c, b);
            &&& runs_on(c, d, 3, 5)
            &&& c.tracking ==> {
                &&& d.last_op matches Some(a)
                &&& a.mode == AddrMode::AbsoluteY
                &&& a.addr as int == (spelled_word(c, b) + c.y) % 0x1_0000
                &&& a.ptr == 0
                &&& a.illegal == undocumented(op)
                &&& happened(a, op, after_second(c, b), e)
            }
            &&& !c.tracking ==> d.last_op == c.last_op
        }),
{
    reveal(executed);
    reveal(put);
}

proof fn resolved_keeps<B: Bus>(c: Cpu, b: B, m: AddrMode)
    ensures
        resolved(c, b, m).2 == (Cpu {
            pc: resolved(c, b, m).2.pc,
            zp_operand: resolved(c, b, m).2.zp_operand,
            ..c
        }),
{
    reveal(resolved);
}

#[verifier::rlimit(40)]
proof fn consumed_keeps(c: Cpu, op: crate::instr::ReadOp, v: u8)
    ensures
        ({
            let d = consumed(c, op, v);
            d == (Cpu { a: d.a, x: d.x, y: d.y, sp: d.sp, p: d.p, ..c })
        }),
{
    reveal(consumed);
    if op is Adc {
        adc_keeps(c, v);
    } else if op is Sbc {
        sbc_keeps(c, v);
    }
}

proof fn adc_keeps(c: Cpu, v: u8)
    ensures
        ({
            let d = crate::cpu::adc(c, v);
            d == (Cpu { a: d.a, p: d.p, ..c })
        }),
{
    reveal(crate::cpu::adc);
}

proof fn sbc_keeps(c: Cpu, v: u8)
    ensures
        ({
            let d = crate::cpu::sbc(c, v);
            d == (Cpu { a: d.a, p: d.p, ..c })
        }),
{
    reveal(crate::cpu::sbc);
}

proof fn modified_byte_keeps(c: Cpu, op: crate::instr::RmwOp, v: u8)
    ensures
        modified_byte(c, op, v).1 == (Cpu { p: modified_byte(c, op, v).1.p, ..c }),
{
    reveal(modified_byte);
}

proof fn combined_keeps(c: Cpu, op: crate::instr::RmwOp, v: u8)
    ensures
        ({
            let d = combined(c, op, v);
            d == (Cpu { a: d.a, x: d.x, y: d.y, sp: d.sp, p: d.p, ..c })
        }),
{
    reveal(combined);
    consumed_keeps(c, crate::instr::ReadOp::Ora, v);
    consumed_keeps(c, crate::instr::ReadOp::And, v);
    consumed_keeps(c, crate::instr::ReadOp::Eor, v);
    consumed_keeps(c, crate::instr::ReadOp::Adc, v);
    consumed_keeps(c, crate::instr::ReadOp::Cmp, v);
    consumed_keeps(c, crate::instr::ReadOp::Sbc, v);
}

proof fn wrapped_steps(pc: u16)
    ensures
        behind(pc, 1) == pc.wrapping_add(1),
        behind(pc, 2) == pc.wrapping_add(1).wrapping_add(1),
        behind(pc, 3) == pc.wrapping_add(1).wrapping_add(1).wrapping_add(1),
{
}

/// The operand bytes, as the CPU fetches them.
proof fn operand_fetched<B: Bus>(c: Cpu, b: B)
    ensures
        ({
            let c0 = at_operand(c, b);
            let b0 = after_opcode(c, b);
            let one = fetched(c0, b0);
            let two = fetched_word(c0, b0);
            &&& one == (first_byte(c, b), Cpu { pc: behind(c.pc, 2), ..c0 }, after_first(c, b))
            &&& two.0 == word(first_byte(c, b), second_byte(c, b))
            &&& two.0 as int == spelled_word(c, b)
            &&& two.1 == (Cpu { pc: behind(c.pc, 3), ..c0 })
            &&& two.2 == after_second(c, b)
        }),
{
    wrapped_steps(c.pc);
}

/// Direct addresses, in numbers.
#[verifier::rlimit(40)]
proof fn direct_resolved<B: Bus>(c: Cpu, b: B)
    ensures
        ({
            let c0 = at_operand(c, b);
            let b0 = after_opcode(c, b);
            let zp = resolved(c0, b0, AddrMode::ZeroPage);
            let zpx = resolved(c0, b0, AddrMode::ZeroPageX);
            let zpy = resolved(c0, b0, AddrMode::ZeroPageY);
            let abs = resolved(c0, b0, AddrMode::Absolute);
            &&& zp.0 == first_byte(c, b)
            &&& zp.2.pc as int == (c.pc + 2) % 0x1_0000 && zp.3 == after_first(c, b)
            &&& zpx.0 as int == (first_byte(c, b) + c.x) % 0x100
            &&& zpx.2.pc as int == (c.pc + 2) % 0x1_0000 && zpx.3 == after_first(c, b)
            &&& zpy.0 as int == (first_byte(c, b) + c.y) % 0x100
            &&& zpy.2.pc as int == (c.pc + 2) % 0x1_0000 && zpy.3 == after_first(c, b)
            &&& abs.0 as int == spelled_word(c, b)
            &&& abs.2.pc as int == (c.pc + 3) % 0x1_0000 && abs.3 == after_second(c, b)
        }),
{
    operand_fetched(c, b);
    reveal(resolved);
}

/// Indexed absolute addresses, in numbers.
#[verifier::rlimit(40)]
proof fn indexed_resolved<B: Bus>(c: Cpu, b: B)
    ensures
        ({
            let c0 = at_operand(c, b);
            let b0 = after_opcode(c, b);
            let abx = resolved(c0, b0, AddrMode::AbsoluteX);
            let aby = resolved(c0, b0, AddrMode::AbsoluteY);
            &&& abx.0 as int == (spelled_word(c, b) + c.x) % 0x1_0000
            &&& abx.1 == (first_byte(c, b) + c.x > 0xFF)
            &&& abx.2.pc as int == (c.pc + 3) % 0x1_0000 && abx.3 == after_second(c, b)
            &&& aby.0 as int == (spelled_word(c, b) + c.y) % 0x1_0000
            &&& aby.1 == (first_byte(c, b) + c.y > 0xFF)
            &&& aby.2.pc as int == (c.pc + 3) % 0x1_0000 && aby.3 == after_second(c, b)
        }),
{
    operand_fetched(c, b);
    reveal(resolved);
    crossing(first_byte(c, b), second_byte(c, b), c.x);
    crossing(first_byte(c, b), second_byte(c, b), c.y);
}

/// The zero-page byte behind another one, in numbers.
proof fn zero_page_steps(zp: u8, x: u8)
    ensures
        zp.wrapping_add(x) as int == (zp + x) % 0x100,
        zp.wrapping_add(x).wrapping_add(1) as int == (zp + x + 1) % 0x100,
        zp.wrapping_add(1) as int == (zp + 1) % 0x100,
{
}

/// Indirect addresses, in numbers.
#[verifier::rlimit(40)]
proof fn indexed_indirect_resolved<B: Bus>(c: Cpu, b: B)
    ensures
        ({
            let zp = first_byte(c, b);
            let lo_at = ((zp + c.x) % 0x100) as u16;
            let hi_at = ((zp + c.x + 1) % 0x100) as u16;
            let b1 = after_first(c, b);
            let b2 = b1.after_read(lo_at);
            let r = resolved(at_operand(c, b), after_opcode(c, b), AddrMode::IndirectX);
            &&& r.0 as int == b1.value_at(lo_at) + 0x100 * b2.value_at(hi_at)
            &&& r.2.zp_operand == zp
            &&& r.2.pc as int == (c.pc + 2) % 0x1_0000
            &&& r.3 == b2.after_read(hi_at)
        }),
{
    operand_fetched(c, b);
    zero_page_steps(first_byte(c, b), c.x);
    reveal(resolved);
}

#[verifier::rlimit(40)]
proof fn indirect_indexed_resolved<B: Bus>(c: Cpu, b: B)
    ensures
        ({
            let zp = first_byte(c, b);
            let lo_at = zp as u16;
            let hi_at = ((zp + 1) % 0x100) as u16;
            let b1 = after_first(c, b);
            let b2 = b1.after_read(lo_at);
            let lo = b1.value_at(lo_at);
            let hi = b2.value_at(hi_at);
            let r = resolved(at_operand(c, b), after_opcode(c, b), AddrMode::IndirectY);
            &&& r.0 as int == (lo + 0x100 * hi + c.y) % 0x1_0000
            &&& r.1 == (lo + c.y > 0xFF)
            &&& r.2.zp_operand == zp
            &&& r.2.pc as int == (c.pc + 2) % 0x1_0000
            &&& r.3 == b2.after_read(hi_at)
        }),
{
    operand_fetched(c, b);
    let zp = first_byte(c, b);
    zero_page_steps(zp, 0);
    let hi_at = ((zp + 1) % 0x100) as u16;
    let b1 = after_first(c, b);
    crossing(b1.value_at(zp as u16), b1.after_read(zp as u16).value_at(hi_at), c.y);
    reveal(resolved);
}

// ---------------------------------------------------------------------------
// The modes
// ---------------------------------------------------------------------------

/// Zero page (columns $04-$07): the operand lies at the byte behind the opcode.
#[verifier::rlimit(40)]
pub proof fn zero_page_operand<B: Bus>(c: Cpu, b: B)
    requires
        is_running(c),
        c.tracking,
        4 <= b.value_at(c.pc) % 0x20 <= 7,
    ensures
        ({
            let op = b.value_at(c.pc);
            let (d, e) = stepped(c, b);
            &&& d.last_op matches Some(m)
            &&& m.mode == AddrMode::ZeroPage && m.ptr == 0
            &&& m.addr == first_byte(c, b)
            &&& happened(m, op, after_first(c, b), e)
            &&& runs_on(c, d, 2, plain_cycles(op, 3))
        }),
{
    let op = b.value_at(c.pc);
    assert(goes_through(op, AddrMode::ZeroPage)) by {
        reveal(goes_through);
    }
    access_step(c, b, AddrMode::ZeroPage);
    direct_resolved(c, b);
}

/// Zero page indexed (columns $14-$17): the index register is added to the byte behind
/// the opcode, modulo 256, so the operand stays in the zero page. The index is Y for
/// the loads and stores of X, and X for the others.
#[verifier::rlimit(40)]
pub proof fn indexed_zero_page_operand<B: Bus>(c: Cpu, b: B)
    requires
        is_running(c),
        c.tracking,
        0x14 <= b.value_at(c.pc) % 0x20 <= 0x17,
    ensures
        ({
            let op = b.value_at(c.pc);
            let by_y = op == 0x96 || op == 0x97 || op == 0xB6 || op == 0xB7;
            let (d, e) = stepped(c, b);
            &&& d.last_op matches Some(m)
            &&& m.ptr == 0
            &&& by_y ==> m.mode == AddrMode::ZeroPageY && m.addr as int == (first_byte(c, b) + c.y)
                % 0x100
            &&& !by_y ==> m.mode == AddrMode::ZeroPageX && m.addr as int == (first_byte(c, b) + c.x)
                % 0x100
            &&& happened(m, op, after_first(c, b), e)
            &&& runs_on(c, d, 2, plain_cycles(op, 4))
        }),
{
    let op = b.value_at(c.pc);
    if op == 0x96 || op == 0x97 || op == 0xB6 || op == 0xB7 {
        assert(goes_through(op, AddrMode::ZeroPageY)) by {
        reveal(goes_through);
    }
        access_step(c, b, AddrMode::ZeroPageY);
    } else {
        assert(goes_through(op, AddrMode::ZeroPageX)) by {
        reveal(goes_through);
    }
        access_step(c, b, AddrMode::ZeroPageX);
    }
    direct_resolved(c, b);
}

/// Absolute (columns $0C-$0F, apart from the two jumps): the operand lies at the
/// address that the two bytes behind the opcode spell.
#[verifier::rlimit(40)]
pub proof fn absolute_operand<B: Bus>(c: Cpu, b: B)
    requires
        is_running(c),
        c.tracking,
        0x0C <= b.value_at(c.pc) % 0x20 <= 0x0F,
        b.value_at(c.pc) != 0x4C,
        b.value_at(c.pc) != 0x6C,
    ensures
        ({
            let op = b.value_at(c.pc);
            let (d, e) = stepped(c, b);
            &&& d.last_op matches Some(m)
            &&& m.mode == AddrMode::Absolute && m.ptr == 0
            &&& m.addr as int == spelled_word(c, b)
            &&& happened(m, op, after_second(c, b), e)
            &&& runs_on(c, d, 3, plain_cycles(op, 4))
        }),
{
    let op = b.value_at(c.pc);
    assert(goes_through(op, AddrMode::Absolute)) by {
        reveal(goes_through);
    }
    access_step(c, b, AddrMode::Absolute);
    direct_resolved(c, b);
}

/// Absolute indexed (columns $19, $1B and $1C-$1F): the index register is added to the
/// address behind the opcode, modulo 65536. The index is Y in columns $19 and $1B and
/// for $9E, $9F, $BE and $BF, and X for the others.
#[verifier::rlimit(40)]
pub proof fn indexed_absolute_operand<B: Bus>(c: Cpu, b: B)
    requires
        is_running(c),
        c.tracking,
        0x1C <= b.value_at(c.pc) % 0x20 || b.value_at(c.pc) % 0x20 == 0x19 || b.value_at(c.pc)
            % 0x20 == 0x1B,
    ensures
        ({
            let op = b.value_at(c.pc);
            let by_y = op % 0x20 < 0x1C || op == 0x9E || op == 0x9F || op == 0xBE || op == 0xBF;
            let (d, e) = stepped(c, b);
            &&& d.last_op matches Some(m)
            &&& m.ptr == 0
            &&& by_y ==> m.mode == AddrMode::AbsoluteY && m.addr as int == (spelled_word(c, b)
                + c.y) % 0x1_0000
            &&& !by_y ==> m.mode == AddrMode::AbsoluteX && m.addr as int == (spelled_word(c, b)
                + c.x) % 0x1_0000
            &&& happened(m, op, after_second(c, b), e)
            &&& by_y ==> runs_on(
                c,
                d,
                3,
                indexed_cycles(op, 4, first_byte(c, b) + c.y > 0xFF),
            )
            &&& !by_y ==> runs_on(
                c,
                d,
                3,
                indexed_cycles(op, 4, first_byte(c, b) + c.x > 0xFF),
            )
        }),
{
    let op = b.value_at(c.pc);
    let by_y = op % 0x20 < 0x1C || op == 0x9E || op == 0x9F || op == 0xBE || op == 0xBF;
    if op == 0x9B {
        assert(instruction(0x9B) is Tas);
        tas_step(c, b);
    } else if by_y {
        assert(goes_through(op, AddrMode::AbsoluteY)) by {
        reveal(goes_through);
    }
        absolute_y_step(c, b);
    } else {
        assert(goes_through(op, AddrMode::AbsoluteX)) by {
        reveal(goes_through);
    }
        absolute_x_step(c, b);
    }
}

#[verifier::rlimit(40)]
proof fn absolute_x_step<B: Bus>(c: Cpu, b: B)
    requires
        is_running(c),
        c.tracking,
        goes_through(b.value_at(c.pc), AddrMode::AbsoluteX),
    ensures
        ({
            let op = b.value_at(c.pc);
            let (d, e) = stepped(c, b);
            &&& d.last_op matches Some(m)
            &&& m.ptr == 0
            &&& m.mode == AddrMode::AbsoluteX
            &&& m.addr as int == (spelled_word(c, b) + c.x) % 0x1_0000
            &&& happened(m, op, after_second(c, b), e)
            &&& runs_on(c, d, 3, indexed_cycles(op, 4, first_byte(c, b) + c.x > 0xFF))
        }),
{
    access_step(c, b, AddrMode::AbsoluteX);
    indexed_resolved(c, b);
}

#[verifier::rlimit(40)]
proof fn absolute_y_step<B: Bus>(c: Cpu, b: B)
    requires
        is_running(c),
        c.tracking,
        goes_through(b.value_at(c.pc), AddrMode::AbsoluteY),
    ensures
        ({
            let op = b.value_at(c.pc);
            let (d, e) = stepped(c, b);
            &&& d.last_op matches Some(m)
            &&& m.ptr == 0
            &&& m.mode == AddrMode::AbsoluteY
            &&& m.addr as int == (spelled_word(c, b) + c.y) % 0x1_0000
            &&& happened(m, op, after_second(c, b), e)
            &&& runs_on(c, d, 3, indexed_cycles(op, 4, first_byte(c, b) + c.y > 0xFF))
        }),
{
    access_step(c, b, AddrMode::AbsoluteY);
    indexed_resolved(c, b);
}

/// Indexing leaves the page exactly when the low byte overflows.
proof fn crossing(lo: u8, hi: u8, index: u8)
    ensures
        ({
            let base = crate::bits::word(lo, hi);
            let addr = base.wrapping_add(index as u16);
            crate::cpu::other_page(base, addr) == (lo + index > 0xFF)
        }),
{
}

/// Indexed indirect (columns $01 and $03): X is added to the byte behind the opcode,
/// modulo 256, and the address of the operand lies there, low byte first, its high
/// byte at the next zero-page address. The record names the byte behind the opcode.
#[verifier::rlimit(40)]
pub proof fn indexed_indirect_operand<B: Bus>(c: Cpu, b: B)
    requires
        is_running(c),
        c.tracking,
        b.value_at(c.pc) % 0x20 == 1 || b.value_at(c.pc) % 0x20 == 3,
    ensures
        ({
            let op = b.value_at(c.pc);
            let lo_at = ((first_byte(c, b) + c.x) % 0x100) as u16;
            let hi_at = ((first_byte(c, b) + c.x + 1) % 0x100) as u16;
            let b1 = after_first(c, b);
            let b2 = b1.after_read(lo_at);
            let (d, e) = stepped(c, b);
            &&& d.last_op matches Some(m)
            &&& m.mode == AddrMode::IndirectX && m.ptr == first_byte(c, b)
            &&& m.addr as int == b1.value_at(lo_at) + 0x100 * b2.value_at(hi_at)
            &&& happened(m, op, b2.after_read(hi_at), e)
            &&& runs_on(c, d, 2, plain_cycles(op, 6))
        }),
{
    let op = b.value_at(c.pc);
    assert(goes_through(op, AddrMode::IndirectX)) by {
        reveal(goes_through);
    }
    access_step(c, b, AddrMode::IndirectX);
    indexed_indirect_resolved(c, b);
}

/// Indirect indexed (columns $11 and $13): the byte behind the opcode says where in the
/// zero page an address lies, low byte first, and Y is added to it, modulo 65536. The
/// record names the byte behind the opcode.
#[verifier::rlimit(40)]
pub proof fn indirect_indexed_operand<B: Bus>(c: Cpu, b: B)
    requires
        is_running(c),
        c.tracking,
        b.value_at(c.pc) % 0x20 == 0x11 || b.value_at(c.pc) % 0x20 == 0x13,
    ensures
        ({
            let op = b.value_at(c.pc);
            let lo_at = first_byte(c, b) as u16;
            let hi_at = ((first_byte(c, b) + 1) % 0x100) as u16;
            let b1 = after_first(c, b);
            let b2 = b1.after_read(lo_at);
            let lo = b1.value_at(lo_at);
            let hi = b2.value_at(hi_at);
            let (d, e) = stepped(c, b);
            &&& d.last_op matches Some(m)
            &&& m.mode == AddrMode::IndirectY && m.ptr == first_byte(c, b)
            &&& m.addr as int == (lo + 0x100 * hi + c.y) % 0x1_0000
            &&& happened(m, op, b2.after_read(hi_at), e)
            &&& runs_on(c, d, 2, indexed_cycles(op, 5, lo + c.y > 0xFF))
        }),
{
    let op = b.value_at(c.pc);
    assert(goes_through(op, AddrMode::IndirectY)) by {
        reveal(goes_through);
    }
    access_step(c, b, AddrMode::IndirectY);
    indirect_indexed_resolved(c, b);
}

/// The access is recorded as undocumented for the opcodes ending in binary 11, for the
/// NOPs with a memory operand and for SHY ($9C) and SHX ($9E), and for no other opcode
/// with a memory operand.
#[verifier::rlimit(40)]
pub proof fn undocumented_accesses_are_marked<B: Bus>(c: Cpu, b: B)
    requires
        is_running(c),
        c.tracking,
    ensures
        stepped(c, b).0.last_op matches Some(m) ==> {
            let op = b.value_at(c.pc);
            m.illegal == {
                ||| op % 4 == 3
                ||| op == 0x04 || op == 0x44 || op == 0x64 || op == 0x0C
                ||| op == 0x14 || op == 0x34 || op == 0x54 || op == 0x74 || op == 0xD4 || op == 0xF4
                ||| op == 0x1C || op == 0x3C || op == 0x5C || op == 0x7C || op == 0xDC || op == 0xFC
                ||| op == 0x9C || op == 0x9E
            }
        },
{
    let op = b.value_at(c.pc);
    crate::cpu_laws::recorded_access_happened(c, b);
    if instruction(op).accesses_memory() {
        if instruction(op) is Tas {
            tas_step(c, b);
        } else {
            let m = accesses_go_through(op);
            access_step(c, b, m);
        }
        marked(op);
    }
}

#[verifier::rlimit(40)]
proof fn accesses_go_through(op: u8) -> (m: AddrMode)
    requires
        instruction(op).accesses_memory(),
        !(instruction(op) is Tas),
    ensures
        goes_through(op, m),
{
    reveal(goes_through);
    match instruction(op) {
        Instr::Read(_, k) => k,
        Instr::NopRead(k) => k,
        Instr::Store(_, k) => k,
        Instr::Masked(_, k) => k,
        Instr::Modify(_, k) => k,
        _ => AddrMode::AbsoluteY,
    }
}

#[verifier::rlimit(40)]
proof fn marked(op: u8)
    requires
        instruction(op).accesses_memory(),
    ensures
        undocumented(op) == {
            ||| op % 4 == 3
            ||| op == 0x04 || op == 0x44 || op == 0x64 || op == 0x0C
            ||| op == 0x14 || op == 0x34 || op == 0x54 || op == 0x74 || op == 0xD4 || op == 0xF4
            ||| op == 0x1C || op == 0x3C || op == 0x5C || op == 0x7C || op == 0xDC || op == 0xFC
            ||| op == 0x9C || op == 0x9E
        },
{
}

/// The opcodes with a memory operand: those of the matrix columns that have one, apart from
/// the two jumps.
pub open spec fn has_operand(op: u8) -> bool {
    let column = op % 0x20;
    &&& op != 0x4C && op != 0x6C
    &&& {
        ||| column == 0x01 || column == 0x03 || column == 0x11 || column == 0x13
        ||| 0x04 <= column <= 0x07
        ||| 0x0C <= column <= 0x0F
        ||| 0x14 <= column <= 0x17
        ||| column == 0x19 || column == 0x1B || column >= 0x1C
    }
}

/// With tracking, an access is recorded exactly for the opcodes with a memory operand: stack,
/// vector and instruction bytes are never recorded.
pub proof fn only_operands_are_recorded<B: Bus>(c: Cpu, b: B)
    requires
        is_running(c),
        c.tracking,
    ensures
        stepped(c, b).0.last_op is Some <==> has_operand(b.value_at(c.pc)),
{
    crate::cpu_laws::recorded_access_happened(c, b);
    operand_columns(b.value_at(c.pc));
}

#[verifier::rlimit(40)]
proof fn operand_columns(op: u8)
    ensures
        instruction(op).accesses_memory() == has_operand(op),
{
}

} // verus!
