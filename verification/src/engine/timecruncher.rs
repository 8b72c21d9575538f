//! Time Cruncher 3.x / 4.2 engine.
//!
//! These crunchers keep their output pointer in zero page at $FC/$FD, so no
//! write tracing is needed. The engine runs the depacker to its known control
//! points and reads the exact boundaries:
//!
//! * PC = $0100: the depack loop starts; word[$FC]-1 is the END of the output.
//! * version 31 (3.1/3.2): PC = $0369 is the hand-off; word[$FC]+1 is the
//!   START and the run address is stored at $036A/$036B.
//! * version 42 (4.2): PC = $0374 is the hand-off; start = word[$FC]+3+Y and
//!   the run address is at $0375/$0376.

use vstd::prelude::*;
use vstd::string::*;

use crate::config::CruncherConfig;
use crate::engine::{note, EngineResult};
use crate::fmt::{push_dec, push_hex4};
use crate::machine::Machine;

verus! {

use crate::config::Definition;
use crate::engine::{failed_run, EngineRun, Finding};
use crate::fmt::{dec, hex4, texts};
use crate::machine::{run_to, Goal};

/// A control point that was never reached.
pub open spec fn missed_text(target: u16, pc: u16) -> Seq<char> {
    "never reached $"@ + hex4(target) + " (pc=$"@ + hex4(pc) + ")"@
}

/// The hand-off of a version: its address.
pub open spec fn hand_off(version: u32) -> Option<u16> {
    if version == 31 || version == 32 {
        Some(0x0369)
    } else if version == 42 {
        Some(0x0374)
    } else {
        None
    }
}

/// The start of the output at the hand-off.
pub open spec fn output_start(version: u32, m: Machine) -> u16 {
    let pointer = m.mem.visible_word(0xFC);
    if version == 42 {
        pointer.wrapping_add(3).wrapping_add(m.cpu.y as u16)
    } else {
        pointer.wrapping_add(1)
    }
}

/// What the engine makes of a machine.
pub open spec fn timecruncher_run(d: Definition, m: Machine) -> EngineRun {
    let (reached, n) = run_to(m, Goal::OneOf(seq![0x0100u16]), d.run.cap as nat);
    let end = n.mem.visible_word(0xFC).wrapping_sub(1);
    let first = "depack loop reached; end = word[$fc]-1 = $"@ + hex4(end);
    if !reached {
        failed_run(n, seq![missed_text(0x0100, n.cpu.pc)])
    } else {
        match hand_off(d.run.version) {
            None => failed_run(
                n,
                seq![first, "unsupported timecruncher version "@ + dec(d.run.version as int)],
            ),
            Some(target) => {
                let (done, o) = run_to(n, Goal::OneOf(seq![target]), d.run.cap as nat);
                let start = output_start(d.run.version, o);
                let jump = o.mem.visible_word(target.wrapping_add(1));
                if done {
                    EngineRun {
                        finding: Finding {
                            ok: true,
                            name: None,
                            start,
                            real_start: start,
                            end,
                            jump_start: jump,
                        },
                        machine: o,
                        log: seq![
                            first,
                            "done: start=$"@ + hex4(start) + " jump=$"@ + hex4(jump),
                        ],
                    }
                } else {
                    failed_run(o, seq![first, missed_text(target, o.cpu.pc)])
                }
            },
        }
    }
}

fn missed(target: u16, pc: u16) -> (s: String)
    ensures
        s@ == missed_text(target, pc),
{
    let mut s: String = String::from_str("never reached $");
    push_hex4(&mut s, target);
    s.append(" (pc=$");
    push_hex4(&mut s, pc);
    s.append(")");
    s
}

pub fn run(cfg: &CruncherConfig, m: &mut Machine, log: &mut Vec<String>) -> (r: EngineResult)
    ensures
        ({
            let e = timecruncher_run(cfg@, *old(m));
            &&& r@ == e.finding
            &&& *final(m) == e.machine
            &&& texts(final(log)@) == texts(old(log)@) + e.log
        }),
{
    let ghost e = timecruncher_run(cfg@, *m);
    let loop_start: [u16; 1] = [0x0100];
    assert(loop_start@ =~= seq![0x0100u16]);
    if !m.run_until(&loop_start, cfg.cap) {
        note(log, missed(0x0100, m.cpu.pc));
        assert(texts(log@) =~= texts(old(log)@) + e.log);
        return EngineResult::failed();
    }
    let end: u16 = m.mem.read_word(0xFC).wrapping_sub(1);
    let mut s: String = String::from_str("depack loop reached; end = word[$fc]-1 = $");
    push_hex4(&mut s, end);
    note(log, s);
    let target: u16 = match cfg.version {
        31 | 32 => 0x0369,
        42 => 0x0374,
        other => {
            let mut t: String = String::from_str("unsupported timecruncher version ");
            push_dec(&mut t, other as u128);
            note(log, t);
            assert(texts(log@) =~= texts(old(log)@) + e.log);
            return EngineResult::failed();
        },
    };
    let goal: [u16; 1] = [target];
    assert(goal@ =~= seq![target]);
    if !m.run_until(&goal, cfg.cap) {
        note(log, missed(target, m.cpu.pc));
        assert(texts(log@) =~= texts(old(log)@) + e.log);
        return EngineResult::failed();
    }
    let pointer: u16 = m.mem.read_word(0xFC);
    let start: u16 = if cfg.version == 42 {
        pointer.wrapping_add(3).wrapping_add(m.cpu.y as u16)
    } else {
        pointer.wrapping_add(1)
    };
    let jump: u16 = m.mem.read_word(target.wrapping_add(1));
    let mut t: String = String::from_str("done: start=$");
    push_hex4(&mut t, start);
    t.append(" jump=$");
    push_hex4(&mut t, jump);
    note(log, t);
    assert(texts(log@) =~= texts(old(log)@) + e.log);
    EngineResult { ok: true, name: None, start, real_start: start, end, jump_start: jump }
}

} // verus!
