//! What the stack gives back, and how calls into the stubbed KERNAL return.

use vstd::prelude::*;

verus! {

use crate::bits::{high_byte, low_byte, word};
use crate::c64::{read_gives_back_what_was_written, stub_rom, C64Mem};
use crate::cpu::{
    consumed, executed, fetched_word, is_running, pulled, pulled_word, pushed, pushed_word,
    stack_slot, stepped, Bus, Cpu,
};
use crate::instr::{instruction, Instr, ReadOp};

/// A byte pulled right after it was pushed is the byte that was pushed, and the CPU
/// is as it was before: the stack page always shows RAM.
pub proof fn pull_gives_back_what_was_pushed(c: Cpu, m: C64Mem, v: u8)
    ensures
        ({
            let (c1, m1) = pushed(c, m, v);
            pulled(c1, m1) == (v, c, m1)
        }),
{
    let slot = stack_slot(c.sp);
    read_gives_back_what_was_written(m, slot, v);
    assert(c.sp.wrapping_sub(1).wrapping_add(1) == c.sp);
}

/// The same for words.
pub proof fn word_pull_gives_back_what_was_pushed(c: Cpu, m: C64Mem, w: u16)
    ensures
        ({
            let (c2, m2) = pushed_word(c, m, w);
            pulled_word(c2, m2) == (w, c, m2)
        }),
{
    let hi_slot = stack_slot(c.sp);
    let lo_slot = stack_slot(c.sp.wrapping_sub(1));
    let (c1, m1) = pushed(c, m, high_byte(w));
    let (c2, m2) = pushed(c1, m1, low_byte(w));
    pull_gives_back_what_was_pushed(c, m, high_byte(w));
    pull_gives_back_what_was_pushed(c1, m1, low_byte(w));
    assert(m2.value_at(hi_slot) == m1.value_at(hi_slot));
    assert(word(low_byte(w), high_byte(w)) == w);
}

/// RTS returns to the instruction behind the JSR, with the stack pointer as it was.
pub proof fn rts_returns_behind_jsr(c: Cpu, m: C64Mem)
    ensures
        ({
            let (c1, m1) = executed(c, m, Instr::Jsr);
            let (c2, m2) = executed(c1, m1, Instr::Rts);
            &&& c2.pc == c.pc.wrapping_add(2)
            &&& c2.sp == c.sp
        }),
{
    reveal(executed);
    let (target, c0, m0) = fetched_word(c, m);
    let ret = c0.pc.wrapping_sub(1);
    word_pull_gives_back_what_was_pushed(c0, m0, ret);
}

/// The KERNAL stubs are banked in.
pub open spec fn kernal_stubbed(m: C64Mem) -> bool {
    m.hiram() && m.kernal@ == stub_rom()
}

/// Behind the two prompts, every byte of the stubbed KERNAL is an RTS: a call to any
/// other place returns with its first instruction.
pub proof fn stubbed_calls_return(c: Cpu, m: C64Mem)
    requires
        kernal_stubbed(m),
        is_running(c),
        c.pc >= 0xE000,
        !(0xFFE4 <= c.pc <= 0xFFE5),
        !(0xFFCF <= c.pc <= 0xFFD0),
    ensures
        stepped(c, m).1 == m,
        stepped(c, m).0.pc == pulled_word(c, m).0.wrapping_add(1),
        stepped(c, m).0.sp == pulled_word(c, m).1.sp,
        stepped(c, m).0.a == c.a,
        stepped(c, m).0.x == c.x,
        stepped(c, m).0.y == c.y,
        stepped(c, m).0.p == c.p,
{
    reveal(executed);
    assert(m.value_at(c.pc) == 0x60);
    assert(instruction(0x60) == Instr::Rts);
}

/// The prompts terminate: GETIN ($FFE4) loads a space and CHRIN ($FFCF) a carriage
/// return, and the RTS behind returns it.
#[verifier::rlimit(30)]
pub proof fn stubbed_prompts_answer(c: Cpu, m: C64Mem)
    requires
        kernal_stubbed(m),
        is_running(c),
        c.pc == 0xFFE4 || c.pc == 0xFFCF,
    ensures
        ({
            let (c1, m1) = stepped(c, m);
            let (c2, m2) = stepped(c1, m1);
            let key: u8 = if c.pc == 0xFFE4 {
                0x20
            } else {
                0x0D
            };
            &&& m2 == m
            &&& c1.a == key
            &&& c2.a == key
            &&& c2.pc == pulled_word(c, m).0.wrapping_add(1)
            &&& c2.sp == pulled_word(c, m).1.sp
        }),
{
    reveal(executed);
    reveal(consumed);
    assert(m.value_at(c.pc) == 0xA9);
    assert(instruction(0xA9) == Instr::Immediate(ReadOp::Lda));
    let (c1, m1) = stepped(c, m);
    assert(m1 == m);
    stubbed_calls_return(c1, m1);
}

} // verus!
