//! What the instructions without a memory operand do to the registers, the flags and
//! the bus, opcode by opcode.

use vstd::prelude::*;

verus! {

use crate::bits::{flag_switch_is_local, is_flag, pulled_status_flags, with_flag};
use crate::cpu::{branched, broken, executed, is_running, moved, stepped, Bus, Cpu};
use crate::instr::{instruction, Instr, RegOp};

pub open spec fn carry(p: u8) -> bool {
    p & 0x01 != 0
}

pub open spec fn zero(p: u8) -> bool {
    p & 0x02 != 0
}

pub open spec fn interrupt(p: u8) -> bool {
    p & 0x04 != 0
}

pub open spec fn decimal(p: u8) -> bool {
    p & 0x08 != 0
}

pub open spec fn overflow(p: u8) -> bool {
    p & 0x40 != 0
}

pub open spec fn negative(p: u8) -> bool {
    p & 0x80 != 0
}

/// Z says whether `v` is zero, and N whether its top bit is set.
pub open spec fn describes(d: Cpu, v: u8) -> bool {
    zero(d.p) == (v == 0) && negative(d.p) == (v >= 0x80)
}

/// The six flags are the same.
pub open spec fn same_flags(p: u8, q: u8) -> bool {
    &&& carry(p) == carry(q)
    &&& zero(p) == zero(q)
    &&& interrupt(p) == interrupt(q)
    &&& decimal(p) == decimal(q)
    &&& overflow(p) == overflow(q)
    &&& negative(p) == negative(q)
}

/// The flags other than Z and N are the same.
pub open spec fn same_but_zn(c: Cpu, d: Cpu) -> bool {
    &&& carry(c.p) == carry(d.p)
    &&& interrupt(c.p) == interrupt(d.p)
    &&& decimal(c.p) == decimal(d.p)
    &&& overflow(c.p) == overflow(d.p)
}

/// The flags other than Z, N and C are the same.
pub open spec fn same_but_znc(c: Cpu, d: Cpu) -> bool {
    &&& interrupt(c.p) == interrupt(d.p)
    &&& decimal(c.p) == decimal(d.p)
    &&& overflow(c.p) == overflow(d.p)
}

/// A step that counts one instruction and `n` cycles and leaves the CPU running.
pub open spec fn counted(c: Cpu, d: Cpu, n: u64) -> bool {
    &&& d.cycles == c.cycles.wrapping_add(n)
    &&& d.instructions == c.instructions.wrapping_add(1)
    &&& !d.jammed
    &&& !d.brk_hit
}

/// A step to the instruction `len` bytes further on.
pub open spec fn runs_on(c: Cpu, d: Cpu, len: int, n: u64) -> bool {
    d.pc as int == (c.pc + len) % 0x1_0000 && counted(c, d, n)
}

/// The address `n` bytes behind `pc`.
pub open spec fn behind(pc: u16, n: int) -> u16 {
    ((pc + n) % 0x1_0000) as u16
}

/// The bus after the opcode was fetched.
pub open spec fn after_opcode<B: Bus>(c: Cpu, b: B) -> B {
    b.after_read(c.pc)
}

/// The byte behind the opcode.
pub open spec fn first_byte<B: Bus>(c: Cpu, b: B) -> u8 {
    after_opcode(c, b).value_at(behind(c.pc, 1))
}

/// The bus after the opcode and the byte behind it were fetched.
pub open spec fn after_first<B: Bus>(c: Cpu, b: B) -> B {
    after_opcode(c, b).after_read(behind(c.pc, 1))
}

/// The second byte behind the opcode.
pub open spec fn second_byte<B: Bus>(c: Cpu, b: B) -> u8 {
    after_first(c, b).value_at(behind(c.pc, 2))
}

/// The bus after the opcode and the two bytes behind it were fetched.
pub open spec fn after_second<B: Bus>(c: Cpu, b: B) -> B {
    after_first(c, b).after_read(behind(c.pc, 2))
}

/// The address that the two bytes behind the opcode spell, low byte first.
pub open spec fn spelled_word<B: Bus>(c: Cpu, b: B) -> int {
    first_byte(c, b) + 0x100 * second_byte(c, b)
}

/// The stack address at a stack pointer, which stays in page one.
pub open spec fn slot(sp: int) -> u16 {
    (0x100 + sp % 0x100) as u16
}

/// A switched flag reads as switched, and the others as before.
pub(crate) proof fn switched_flags()
    ensures
        forall|p: u8, m: u8, on: bool|
            is_flag(m) ==> #[trigger] carry(with_flag(p, m, on)) == if m == 0x01 {
                on
            } else {
                carry(p)
            },
        forall|p: u8, m: u8, on: bool|
            is_flag(m) ==> #[trigger] zero(with_flag(p, m, on)) == if m == 0x02 {
                on
            } else {
                zero(p)
            },
        forall|p: u8, m: u8, on: bool|
            is_flag(m) ==> #[trigger] interrupt(with_flag(p, m, on)) == if m == 0x04 {
                on
            } else {
                interrupt(p)
            },
        forall|p: u8, m: u8, on: bool|
            is_flag(m) ==> #[trigger] decimal(with_flag(p, m, on)) == if m == 0x08 {
                on
            } else {
                decimal(p)
            },
        forall|p: u8, m: u8, on: bool|
            is_flag(m) ==> #[trigger] overflow(with_flag(p, m, on)) == if m == 0x40 {
                on
            } else {
                overflow(p)
            },
        forall|p: u8, m: u8, on: bool|
            is_flag(m) ==> #[trigger] negative(with_flag(p, m, on)) == if m == 0x80 {
                on
            } else {
                negative(p)
            },
{
    assert forall|p: u8, m: u8, on: bool| is_flag(m) implies #[trigger] carry(with_flag(p, m, on))
        == if m == 0x01 {
        on
    } else {
        carry(p)
    } by {
        flag_switch_is_local(p, m, 0x01, on);
    }
    assert forall|p: u8, m: u8, on: bool| is_flag(m) implies #[trigger] zero(with_flag(p, m, on))
        == if m == 0x02 {
        on
    } else {
        zero(p)
    } by {
        flag_switch_is_local(p, m, 0x02, on);
    }
    assert forall|p: u8, m: u8, on: bool| is_flag(m) implies #[trigger] interrupt(
        with_flag(p, m, on),
    ) == if m == 0x04 {
        on
    } else {
        interrupt(p)
    } by {
        flag_switch_is_local(p, m, 0x04, on);
    }
    assert forall|p: u8, m: u8, on: bool| is_flag(m) implies #[trigger] decimal(
        with_flag(p, m, on),
    ) == if m == 0x08 {
        on
    } else {
        decimal(p)
    } by {
        flag_switch_is_local(p, m, 0x08, on);
    }
    assert forall|p: u8, m: u8, on: bool| is_flag(m) implies #[trigger] overflow(
        with_flag(p, m, on),
    ) == if m == 0x40 {
        on
    } else {
        overflow(p)
    } by {
        flag_switch_is_local(p, m, 0x40, on);
    }
    assert forall|p: u8, m: u8, on: bool| is_flag(m) implies #[trigger] negative(
        with_flag(p, m, on),
    ) == if m == 0x80 {
        on
    } else {
        negative(p)
    } by {
        flag_switch_is_local(p, m, 0x80, on);
    }
}

// ---------------------------------------------------------------------------
// Registers
// ---------------------------------------------------------------------------

/// What a step with a register opcode leaves of the rest.
proof fn register_step<B: Bus>(c: Cpu, b: B, op: RegOp)
    requires
        is_running(c),
        instruction(b.value_at(c.pc)) == Instr::Register(op),
    ensures
        ({
            let (d, e) = stepped(c, b);
            let m = moved(c, op);
            &&& d.a == m.a && d.x == m.x && d.y == m.y && d.sp == m.sp && d.p == m.p
            &&& runs_on(c, d, 1, 2)
            &&& e == after_opcode(c, b)
        }),
{
    reveal(executed);
    reveal(moved);
}

/// INX ($E8) makes X one more, modulo 256.
pub proof fn inx_counts_up<B: Bus>(c: Cpu, b: B)
    requires
        is_running(c),
        b.value_at(c.pc) == 0xE8,
    ensures
        ({
            let (d, e) = stepped(c, b);
            &&& d.x as int == (c.x + 1) % 0x100
            &&& describes(d, d.x) && same_but_zn(c, d)
            &&& d.a == c.a && d.y == c.y && d.sp == c.sp
            &&& runs_on(c, d, 1, 2)
            &&& e == after_opcode(c, b)
        }),
{
    register_step(c, b, RegOp::Inx);
    reveal(moved);
    switched_flags();
}

/// DEX ($CA) makes X one less, modulo 256.
pub proof fn dex_counts_down<B: Bus>(c: Cpu, b: B)
    requires
        is_running(c),
        b.value_at(c.pc) == 0xCA,
    ensures
        ({
            let (d, e) = stepped(c, b);
            &&& (d.x + 1) % 0x100 == c.x as int
            &&& describes(d, d.x) && same_but_zn(c, d)
            &&& d.a == c.a && d.y == c.y && d.sp == c.sp
            &&& runs_on(c, d, 1, 2)
            &&& e == after_opcode(c, b)
        }),
{
    register_step(c, b, RegOp::Dex);
    reveal(moved);
    switched_flags();
}

/// INY ($C8) makes Y one more, modulo 256.
pub proof fn iny_counts_up<B: Bus>(c: Cpu, b: B)
    requires
        is_running(c),
        b.value_at(c.pc) == 0xC8,
    ensures
        ({
            let (d, e) = stepped(c, b);
            &&& d.y as int == (c.y + 1) % 0x100
            &&& describes(d, d.y) && same_but_zn(c, d)
            &&& d.a == c.a && d.x == c.x && d.sp == c.sp
            &&& runs_on(c, d, 1, 2)
            &&& e == after_opcode(c, b)
        }),
{
    register_step(c, b, RegOp::Iny);
    reveal(moved);
    switched_flags();
}

/// DEY ($88) makes Y one less, modulo 256.
pub proof fn dey_counts_down<B: Bus>(c: Cpu, b: B)
    requires
        is_running(c),
        b.value_at(c.pc) == 0x88,
    ensures
        ({
            let (d, e) = stepped(c, b);
            &&& (d.y + 1) % 0x100 == c.y as int
            &&& describes(d, d.y) && same_but_zn(c, d)
            &&& d.a == c.a && d.x == c.x && d.sp == c.sp
            &&& runs_on(c, d, 1, 2)
            &&& e == after_opcode(c, b)
        }),
{
    register_step(c, b, RegOp::Dey);
    reveal(moved);
    switched_flags();
}

/// INX followed by DEX gives the old X back, and so does DEX followed by INX; the
/// same holds of INY and DEY with Y.
pub proof fn counting_undoes_counting<B: Bus>(c: Cpu, b: B)
    requires
        is_running(c),
    ensures
        ({
            let (d, e) = stepped(c, b);
            let (f, g) = stepped(d, e);
            let first = b.value_at(c.pc);
            let second = first_byte(c, b);
            &&& first == 0xE8 && second == 0xCA ==> f.x == c.x
            &&& first == 0xCA && second == 0xE8 ==> f.x == c.x
            &&& first == 0xC8 && second == 0x88 ==> f.y == c.y
            &&& first == 0x88 && second == 0xC8 ==> f.y == c.y
        }),
{
    let (d, e) = stepped(c, b);
    let first = b.value_at(c.pc);
    let second = first_byte(c, b);
    if first == 0xE8 {
        inx_counts_up(c, b);
        if second == 0xCA {
            dex_counts_down(d, e);
        }
    } else if first == 0xCA {
        dex_counts_down(c, b);
        if second == 0xE8 {
            inx_counts_up(d, e);
        }
    } else if first == 0xC8 {
        iny_counts_up(c, b);
        if second == 0x88 {
            dey_counts_down(d, e);
        }
    } else if first == 0x88 {
        dey_counts_down(c, b);
        if second == 0xC8 {
            iny_counts_up(d, e);
        }
    }
}

/// TAX ($AA), TAY ($A8), TXA ($8A), TYA ($98) and TSX ($BA) copy one register to
/// another, and Z and N describe it.
#[verifier::rlimit(40)]
pub proof fn transfers_copy<B: Bus>(c: Cpu, b: B)
    requires
        is_running(c),
        b.value_at(c.pc) == 0xAA || b.value_at(c.pc) == 0xA8 || b.value_at(c.pc) == 0x8A
            || b.value_at(c.pc) == 0x98 || b.value_at(c.pc) == 0xBA,
    ensures
        ({
            let (d, e) = stepped(c, b);
            let op = b.value_at(c.pc);
            &&& op == 0xAA ==> d.x == c.a && describes(d, c.a)
            &&& op == 0xBA ==> d.x == c.sp && describes(d, c.sp)
            &&& op == 0xA8 ==> d.y == c.a && describes(d, c.a)
            &&& op == 0x8A ==> d.a == c.x && describes(d, c.x)
            &&& op == 0x98 ==> d.a == c.y && describes(d, c.y)
            &&& op != 0xAA && op != 0xBA ==> d.x == c.x
            &&& op != 0xA8 ==> d.y == c.y
            &&& op != 0x8A && op != 0x98 ==> d.a == c.a
            &&& d.sp == c.sp
            &&& same_but_zn(c, d)
            &&& runs_on(c, d, 1, 2)
            &&& e == after_opcode(c, b)
        }),
{
    let op = b.value_at(c.pc);
    assert(instruction(0xAA) == Instr::Register(RegOp::Tax));
    assert(instruction(0xA8) == Instr::Register(RegOp::Tay));
    assert(instruction(0x8A) == Instr::Register(RegOp::Txa));
    assert(instruction(0x98) == Instr::Register(RegOp::Tya));
    assert(instruction(0xBA) == Instr::Register(RegOp::Tsx));
    register_step(
        c,
        b,
        if op == 0xAA {
            RegOp::Tax
        } else if op == 0xA8 {
            RegOp::Tay
        } else if op == 0x8A {
            RegOp::Txa
        } else if op == 0x98 {
            RegOp::Tya
        } else {
            RegOp::Tsx
        },
    );
    reveal(moved);
    switched_flags();
}

/// TXS ($9A) copies X to the stack pointer and touches no flag.
pub proof fn txs_sets_the_stack_pointer<B: Bus>(c: Cpu, b: B)
    requires
        is_running(c),
        b.value_at(c.pc) == 0x9A,
    ensures
        ({
            let (d, e) = stepped(c, b);
            &&& d.sp == c.x
            &&& d.a == c.a && d.x == c.x && d.y == c.y && d.p == c.p
            &&& runs_on(c, d, 1, 2)
            &&& e == after_opcode(c, b)
        }),
{
    register_step(c, b, RegOp::Txs);
    reveal(moved);
}

// ---------------------------------------------------------------------------
// Flags, and opcodes that do nothing
// ---------------------------------------------------------------------------

/// CLC ($18) and SEC ($38) switch the carry flag, CLI ($58) and SEI ($78) the
/// interrupt flag, CLD ($D8) and SED ($F8) decimal mode, and CLV ($B8) clears the
/// overflow flag. Nothing else changes.
#[verifier::rlimit(40)]
pub proof fn flag_opcodes_switch_one_flag<B: Bus>(c: Cpu, b: B)
    requires
        is_running(c),
        b.value_at(c.pc) == 0x18 || b.value_at(c.pc) == 0x38 || b.value_at(c.pc) == 0x58
            || b.value_at(c.pc) == 0x78 || b.value_at(c.pc) == 0xB8 || b.value_at(c.pc) == 0xD8
            || b.value_at(c.pc) == 0xF8,
    ensures
        ({
            let (d, e) = stepped(c, b);
            let op = b.value_at(c.pc);
            &&& carry(d.p) == if op == 0x18 {
                false
            } else if op == 0x38 {
                true
            } else {
                carry(c.p)
            }
            &&& interrupt(d.p) == if op == 0x58 {
                false
            } else if op == 0x78 {
                true
            } else {
                interrupt(c.p)
            }
            &&& decimal(d.p) == if op == 0xD8 {
                false
            } else if op == 0xF8 {
                true
            } else {
                decimal(c.p)
            }
            &&& overflow(d.p) == if op == 0xB8 {
                false
            } else {
                overflow(c.p)
            }
            &&& zero(d.p) == zero(c.p) && negative(d.p) == negative(c.p)
            &&& d.a == c.a && d.x == c.x && d.y == c.y && d.sp == c.sp
            &&& runs_on(c, d, 1, 2)
            &&& e == after_opcode(c, b)
        }),
{
    assert(instruction(0x18) == Instr::SetFlag(0x01, false));
    assert(instruction(0x38) == Instr::SetFlag(0x01, true));
    assert(instruction(0x58) == Instr::SetFlag(0x04, false));
    assert(instruction(0x78) == Instr::SetFlag(0x04, true));
    assert(instruction(0xB8) == Instr::SetFlag(0x40, false));
    assert(instruction(0xD8) == Instr::SetFlag(0x08, false));
    assert(instruction(0xF8) == Instr::SetFlag(0x08, true));
    reveal(executed);
    switched_flags();
}

/// NOP ($EA) and its six undocumented copies only move on; the five undocumented
/// two-byte forms move on over their operand byte.
#[verifier::rlimit(40)]
pub proof fn nops_only_move_on<B: Bus>(c: Cpu, b: B)
    requires
        is_running(c),
    ensures
        ({
            let (d, e) = stepped(c, b);
            let op = b.value_at(c.pc);
            let short = op == 0xEA || op == 0x1A || op == 0x3A || op == 0x5A || op == 0x7A || op
                == 0xDA || op == 0xFA;
            let long = op == 0x80 || op == 0x82 || op == 0x89 || op == 0xC2 || op == 0xE2;
            &&& short || long ==> d.a == c.a && d.x == c.x && d.y == c.y && d.sp == c.sp && d.p
                == c.p
            &&& short ==> runs_on(c, d, 1, 2) && e == after_opcode(c, b)
            &&& long ==> runs_on(c, d, 2, 2) && e == after_first(c, b)
        }),
{
    reveal(executed);
}

/// The twelve JAM opcodes halt the CPU for good, with its registers as they were.
#[verifier::rlimit(40)]
pub proof fn jams_halt<B: Bus>(c: Cpu, b: B)
    requires
        is_running(c),
        b.value_at(c.pc) == 0x02 || b.value_at(c.pc) == 0x12 || b.value_at(c.pc) == 0x22
            || b.value_at(c.pc) == 0x32 || b.value_at(c.pc) == 0x42 || b.value_at(c.pc) == 0x52
            || b.value_at(c.pc) == 0x62 || b.value_at(c.pc) == 0x72 || b.value_at(c.pc) == 0x92
            || b.value_at(c.pc) == 0xB2 || b.value_at(c.pc) == 0xD2 || b.value_at(c.pc) == 0xF2,
    ensures
        ({
            let (d, e) = stepped(c, b);
            &&& d.jammed && !d.brk_hit && !is_running(d)
            &&& d.a == c.a && d.x == c.x && d.y == c.y && d.sp == c.sp && d.p == c.p
            &&& d.cycles == c.cycles.wrapping_add(1)
            &&& e == after_opcode(c, b)
        }),
{
    reveal(executed);
}

// ---------------------------------------------------------------------------
// Branches and jumps
// ---------------------------------------------------------------------------

/// Whether a branch opcode branches: BPL, BMI, BVC, BVS, BCC, BCS, BNE and BEQ.
pub open spec fn branch_taken(op: u8, p: u8) -> bool {
    ||| op == 0x10 && !negative(p)
    ||| op == 0x30 && negative(p)
    ||| op == 0x50 && !overflow(p)
    ||| op == 0x70 && overflow(p)
    ||| op == 0x90 && !carry(p)
    ||| op == 0xB0 && carry(p)
    ||| op == 0xD0 && !zero(p)
    ||| op == 0xF0 && zero(p)
}

#[verifier::rlimit(40)]
proof fn branch_step<B: Bus>(c: Cpu, b: B, m: u8, on: bool)
    requires
        is_running(c),
        instruction(b.value_at(c.pc)) == Instr::Branch(m, on),
    ensures
        ({
            let (d, e) = stepped(c, b);
            let next = (c.pc + 2) % 0x1_0000;
            let off: int = if first_byte(c, b) < 0x80 {
                first_byte(c, b) as int
            } else {
                first_byte(c, b) - 0x100
            };
            let target = (next + off) % 0x1_0000;
            let take = (c.p & m != 0) == on;
            &&& d.a == c.a && d.x == c.x && d.y == c.y && d.sp == c.sp && d.p == c.p
            &&& e == after_first(c, b)
            &&& !take ==> d.pc as int == next && counted(c, d, 2)
            &&& take ==> d.pc as int == target && counted(
                c,
                d,
                if target / 0x100 == next / 0x100 {
                    3
                } else {
                    4
                },
            )
        }),
{
    reveal(executed);
    reveal(branched);
    let c1 = Cpu { pc: c.pc.wrapping_add(1), ..c };
    assert(behind(c.pc, 1) == c.pc.wrapping_add(1));
    assert(c.pc.wrapping_add(1).wrapping_add(1) as int == (c.pc + 2) % 0x1_0000);
}

/// The eight branches go to the address that lies the signed operand byte away from
/// the next instruction, when their flag is as they want it, and to the next
/// instruction otherwise. A taken branch costs one cycle more, and another one when it
/// leaves the page. Registers and flags stay.
#[verifier::rlimit(40)]
pub proof fn branches_follow_their_flag<B: Bus>(c: Cpu, b: B)
    requires
        is_running(c),
        b.value_at(c.pc) == 0x10 || b.value_at(c.pc) == 0x30 || b.value_at(c.pc) == 0x50
            || b.value_at(c.pc) == 0x70 || b.value_at(c.pc) == 0x90 || b.value_at(c.pc) == 0xB0
            || b.value_at(c.pc) == 0xD0 || b.value_at(c.pc) == 0xF0,
    ensures
        ({
            let (d, e) = stepped(c, b);
            let next = (c.pc + 2) % 0x1_0000;
            let off: int = if first_byte(c, b) < 0x80 {
                first_byte(c, b) as int
            } else {
                first_byte(c, b) - 0x100
            };
            let target = (next + off) % 0x1_0000;
            &&& d.a == c.a && d.x == c.x && d.y == c.y && d.sp == c.sp && d.p == c.p
            &&& e == after_first(c, b)
            &&& !branch_taken(b.value_at(c.pc), c.p) ==> d.pc as int == next && counted(c, d, 2)
            &&& branch_taken(b.value_at(c.pc), c.p) ==> d.pc as int == target
            &&& branch_taken(b.value_at(c.pc), c.p) && target / 0x100 == next / 0x100 ==> counted(
                c,
                d,
                3,
            )
            &&& branch_taken(b.value_at(c.pc), c.p) && target / 0x100 != next / 0x100 ==> counted(
                c,
                d,
                4,
            )
        }),
{
    let op = b.value_at(c.pc);
    let m: u8 = if op == 0x10 || op == 0x30 {
        0x80
    } else if op == 0x50 || op == 0x70 {
        0x40
    } else if op == 0x90 || op == 0xB0 {
        0x01
    } else {
        0x02
    };
    let on = op == 0x30 || op == 0x70 || op == 0xB0 || op == 0xF0;
    assert(instruction(0x10) == Instr::Branch(0x80, false));
    assert(instruction(0x30) == Instr::Branch(0x80, true));
    assert(instruction(0x50) == Instr::Branch(0x40, false));
    assert(instruction(0x70) == Instr::Branch(0x40, true));
    assert(instruction(0x90) == Instr::Branch(0x01, false));
    assert(instruction(0xB0) == Instr::Branch(0x01, true));
    assert(instruction(0xD0) == Instr::Branch(0x02, false));
    assert(instruction(0xF0) == Instr::Branch(0x02, true));
    branch_step(c, b, m, on);
}

/// JMP ($4C) goes to the address behind it.
pub proof fn jmp_goes_to_its_operand<B: Bus>(c: Cpu, b: B)
    requires
        is_running(c),
        b.value_at(c.pc) == 0x4C,
    ensures
        ({
            let (d, e) = stepped(c, b);
            &&& d.pc as int == spelled_word(c, b)
            &&& d.a == c.a && d.x == c.x && d.y == c.y && d.sp == c.sp && d.p == c.p
            &&& counted(c, d, 3)
            &&& e == after_second(c, b)
        }),
{
    assert(instruction(0x4C) == Instr::Jmp);
    reveal(executed);
}

/// JMP ($6C) through a pointer goes to the address stored there. The high byte comes
/// from the same page as the low byte, also where the pointer ends in $FF.
#[verifier::rlimit(40)]
pub proof fn indirect_jmp_stays_on_the_page<B: Bus>(c: Cpu, b: B)
    requires
        is_running(c),
        b.value_at(c.pc) == 0x6C,
    ensures
        ({
            let (d, e) = stepped(c, b);
            let ptr = spelled_word(c, b);
            let lo_at = ptr as u16;
            let hi_at = if ptr % 0x100 == 0xFF {
                (ptr - 0xFF) as u16
            } else {
                (ptr + 1) as u16
            };
            let b1 = after_second(c, b);
            let b2 = b1.after_read(lo_at);
            &&& d.pc as int == b1.value_at(lo_at) + 0x100 * b2.value_at(hi_at)
            &&& d.a == c.a && d.x == c.x && d.y == c.y && d.sp == c.sp && d.p == c.p
            &&& counted(c, d, 5)
            &&& e == b2.after_read(hi_at)
        }),
{
    assert(instruction(0x6C) == Instr::JmpIndirect);
    reveal(executed);
}

/// JSR ($20) goes to the address behind it, and pushes the address of its own last
/// byte, the high byte first.
#[verifier::rlimit(40)]
pub proof fn jsr_pushes_its_last_byte<B: Bus>(c: Cpu, b: B)
    requires
        is_running(c),
        b.value_at(c.pc) == 0x20,
    ensures
        ({
            let (d, e) = stepped(c, b);
            let last = (c.pc + 2) % 0x1_0000;
            &&& d.pc as int == spelled_word(c, b)
            &&& d.sp as int == (c.sp - 2) % 0x100
            &&& d.a == c.a && d.x == c.x && d.y == c.y && d.p == c.p
            &&& counted(c, d, 6)
            &&& e == after_second(c, b).after_write(
                slot(c.sp as int),
                (last / 0x100) as u8,
            ).after_write(slot(c.sp - 1), (last % 0x100) as u8)
        }),
{
    assert(instruction(0x20) == Instr::Jsr);
    reveal(executed);
}

/// RTS ($60) pulls an address, low byte first, and goes to the one after it.
pub proof fn rts_goes_behind_the_pulled_address<B: Bus>(c: Cpu, b: B)
    requires
        is_running(c),
        b.value_at(c.pc) == 0x60,
    ensures
        ({
            let (d, e) = stepped(c, b);
            let b1 = after_opcode(c, b);
            let b2 = b1.after_read(slot(c.sp + 1));
            &&& d.pc as int == (b1.value_at(slot(c.sp + 1)) + 0x100 * b2.value_at(slot(c.sp + 2))
                + 1) % 0x1_0000
            &&& d.sp as int == (c.sp + 2) % 0x100
            &&& d.a == c.a && d.x == c.x && d.y == c.y && d.p == c.p
            &&& counted(c, d, 6)
            &&& e == b2.after_read(slot(c.sp + 2))
        }),
{
    assert(instruction(0x60) == Instr::Rts);
    reveal(executed);
}

/// RTI ($40) pulls the flags and then an address, low byte first, and goes there.
#[verifier::rlimit(40)]
pub proof fn rti_restores_flags_and_pc<B: Bus>(c: Cpu, b: B)
    requires
        is_running(c),
        b.value_at(c.pc) == 0x40,
    ensures
        ({
            let (d, e) = stepped(c, b);
            let b1 = after_opcode(c, b);
            let b2 = b1.after_read(slot(c.sp + 1));
            let b3 = b2.after_read(slot(c.sp + 2));
            &&& same_flags(d.p, b1.value_at(slot(c.sp + 1)))
            &&& d.p & 0x30 == 0x20
            &&& d.pc as int == b2.value_at(slot(c.sp + 2)) + 0x100 * b3.value_at(slot(c.sp + 3))
            &&& d.sp as int == (c.sp + 3) % 0x100
            &&& d.a == c.a && d.x == c.x && d.y == c.y
            &&& counted(c, d, 6)
            &&& e == b3.after_read(slot(c.sp + 3))
        }),
{
    assert(instruction(0x40) == Instr::Rti);
    reveal(executed);
    pulled_flags(after_opcode(c, b).value_at(slot(c.sp + 1)));
}

/// A pulled status keeps the six flags.
proof fn pulled_flags(v: u8)
    ensures
        same_flags(crate::bits::pulled_status(v), v),
        crate::bits::pulled_status(v) & 0x30 == 0x20,
{
    pulled_status_flags(v, 0x01);
    pulled_status_flags(v, 0x02);
    pulled_status_flags(v, 0x04);
    pulled_status_flags(v, 0x08);
    pulled_status_flags(v, 0x40);
    pulled_status_flags(v, 0x80);
    assert(((v & !0x10u8) | 0x20) & 0x30 == 0x20) by (bit_vector);
}

/// BRK ($00) halts a CPU that stops at it, without touching registers, flags or the
/// stack. A CPU that does not stop pushes the address two behind the BRK, high byte
/// first, and the flags with B set, masks interrupts and goes through the vector at
/// $FFFE.
pub proof fn brk_stops_or_vectors<B: Bus>(c: Cpu, b: B)
    requires
        is_running(c),
        b.value_at(c.pc) == 0x00,
    ensures
        ({
            let (d, e) = stepped(c, b);
            let b0 = after_opcode(c, b);
            let back = (c.pc + 2) % 0x1_0000;
            let b1 = b0.after_write(slot(c.sp as int), (back / 0x100) as u8);
            let b2 = b1.after_write(slot(c.sp - 1), (back % 0x100) as u8);
            let b3 = b2.after_write(slot(c.sp - 2), c.p | 0x30);
            &&& d.a == c.a && d.x == c.x && d.y == c.y
            &&& d.cycles == c.cycles.wrapping_add(7)
            &&& c.brk_stops ==> d.brk_hit && !is_running(d) && d.sp == c.sp && d.p == c.p && e == b0
            &&& !c.brk_stops ==> {
                &&& !d.brk_hit && is_running(d)
                &&& d.sp as int == (c.sp - 3) % 0x100
                &&& interrupt(d.p)
                &&& carry(d.p) == carry(c.p) && zero(d.p) == zero(c.p)
                &&& decimal(d.p) == decimal(c.p) && overflow(d.p) == overflow(c.p)
                &&& negative(d.p) == negative(c.p)
                &&& d.pc as int == b3.value_at(0xFFFE) + 0x100 * b3.after_read(0xFFFE).value_at(
                    0xFFFF,
                )
                &&& e == b3.after_read(0xFFFE).after_read(0xFFFF)
            }
        }),
{
    assert(instruction(0x00) == Instr::Brk);
    if c.brk_stops {
        reveal(executed);
        reveal(broken);
    } else {
        brk_vectors(c, b);
    }
}

#[verifier::rlimit(40)]
proof fn brk_vectors<B: Bus>(c: Cpu, b: B)
    requires
        is_running(c),
        instruction(b.value_at(c.pc)) == Instr::Brk,
        !c.brk_stops,
    ensures
        ({
            let (d, e) = stepped(c, b);
            let b0 = after_opcode(c, b);
            let back = (c.pc + 2) % 0x1_0000;
            let b1 = b0.after_write(slot(c.sp as int), (back / 0x100) as u8);
            let b2 = b1.after_write(slot(c.sp - 1), (back % 0x100) as u8);
            let b3 = b2.after_write(slot(c.sp - 2), c.p | 0x30);
            &&& d.a == c.a && d.x == c.x && d.y == c.y
            &&& d.cycles == c.cycles.wrapping_add(7)
            &&& !d.brk_hit && is_running(d)
            &&& d.sp as int == (c.sp - 3) % 0x100
            &&& d.p == with_flag(c.p, 0x04, true)
            &&& d.pc as int == b3.value_at(0xFFFE) + 0x100 * b3.after_read(0xFFFE).value_at(0xFFFF)
            &&& e == b3.after_read(0xFFFE).after_read(0xFFFF)
            &&& interrupt(d.p)
            &&& carry(d.p) == carry(c.p) && zero(d.p) == zero(c.p)
            &&& decimal(d.p) == decimal(c.p) && overflow(d.p) == overflow(c.p)
            &&& negative(d.p) == negative(c.p)
        }),
{
    let p = c.p;
    assert(p | 0x10 | 0x20 == p | 0x30) by (bit_vector);
    let back = c.pc.wrapping_add(1).wrapping_add(1);
    assert(back as int == (c.pc + 2) % 0x1_0000);
    assert(slot(c.sp as int) == crate::cpu::stack_slot(c.sp));
    assert(slot(c.sp - 1) == crate::cpu::stack_slot(c.sp.wrapping_sub(1)));
    assert(slot(c.sp - 2) == crate::cpu::stack_slot(c.sp.wrapping_sub(1).wrapping_sub(1)));
    reveal(executed);
    reveal(broken);
    let (d, e) = stepped(c, b);
    assert(d.p == with_flag(c.p, 0x04, true));
    switched_flags();
}

// ---------------------------------------------------------------------------
// Stack
// ---------------------------------------------------------------------------

/// PHA ($48) and PHP ($08) write A, or the flags with B and the unused bit set, to
/// the slot that the stack pointer points to, and move the pointer down by one.
pub proof fn pushes_write_the_slot<B: Bus>(c: Cpu, b: B)
    requires
        is_running(c),
        b.value_at(c.pc) == 0x48 || b.value_at(c.pc) == 0x08,
    ensures
        ({
            let (d, e) = stepped(c, b);
            let v = if b.value_at(c.pc) == 0x48 {
                c.a
            } else {
                c.p | 0x30
            };
            &&& d.sp as int == (c.sp - 1) % 0x100
            &&& d.a == c.a && d.x == c.x && d.y == c.y && d.p == c.p
            &&& runs_on(c, d, 1, 3)
            &&& e == after_opcode(c, b).after_write(slot(c.sp as int), v)
        }),
{
    assert(instruction(0x48) == Instr::Pha);
    assert(instruction(0x08) == Instr::Php);
    reveal(executed);
    let p = c.p;
    assert(p | 0x10 | 0x20 == p | 0x30) by (bit_vector);
}

/// PLA ($68) moves the stack pointer up by one and loads A from there; Z and N
/// describe it.
pub proof fn pla_loads_from_the_stack<B: Bus>(c: Cpu, b: B)
    requires
        is_running(c),
        b.value_at(c.pc) == 0x68,
    ensures
        ({
            let (d, e) = stepped(c, b);
            &&& d.sp as int == (c.sp + 1) % 0x100
            &&& d.a == after_opcode(c, b).value_at(slot(c.sp + 1))
            &&& describes(d, d.a) && same_but_zn(c, d)
            &&& d.x == c.x && d.y == c.y
            &&& runs_on(c, d, 1, 4)
            &&& e == after_opcode(c, b).after_read(slot(c.sp + 1))
        }),
{
    assert(instruction(0x68) == Instr::Pla);
    reveal(executed);
    switched_flags();
}

/// PLP ($28) moves the stack pointer up by one and takes the six flags from there; B
/// stays clear and the unused bit set.
pub proof fn plp_takes_the_flags<B: Bus>(c: Cpu, b: B)
    requires
        is_running(c),
        b.value_at(c.pc) == 0x28,
    ensures
        ({
            let (d, e) = stepped(c, b);
            &&& d.sp as int == (c.sp + 1) % 0x100
            &&& same_flags(d.p, after_opcode(c, b).value_at(slot(c.sp + 1)))
            &&& d.p & 0x30 == 0x20
            &&& d.a == c.a && d.x == c.x && d.y == c.y
            &&& runs_on(c, d, 1, 4)
            &&& e == after_opcode(c, b).after_read(slot(c.sp + 1))
        }),
{
    assert(instruction(0x28) == Instr::Plp);
    reveal(executed);
    pulled_flags(after_opcode(c, b).value_at(slot(c.sp + 1)));
}

} // verus!
