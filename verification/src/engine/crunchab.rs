//! CrunchAB engine.
//!
//! Detection already ran the cruncher up to its relocated depack loop at $0340
//! (the `[probe]` section) and captured the end address from $040E/$040F into
//! `probe_end`. The machine arrives with that execution state intact; we run the
//! depacker to completion (PC = $040A) and read:
//!
//! * $040B/$040C: the address the depacker jumps to (run address)
//! * $040E/$040F: one below the start of the unpacked data (+1 = start)

use vstd::prelude::*;
use vstd::string::*;

use crate::config::CruncherConfig;
use crate::engine::{note, EngineResult};
use crate::fmt::push_hex4;
use crate::machine::Machine;

verus! {

use crate::config::Definition;
use crate::engine::{failed_run, EngineRun, Finding};
use crate::fmt::{hex4, texts};
use crate::machine::{run_to, Goal};

/// What the engine makes of a machine.
pub open spec fn crunchab_run(d: Definition, probe_end: Option<u16>, m: Machine) -> EngineRun {
    match probe_end {
        None => failed_run(m, seq!["internal error: crunchab engine without probe result"@]),
        Some(end) => {
            let (hit, n) = run_to(m, Goal::OneOf(seq![0x040Au16]), d.run.cap as nat);
            let jump = n.mem.visible_word(0x040B);
            let start = n.mem.visible_word(0x040E).wrapping_add(1);
            if hit {
                EngineRun {
                    finding: Finding {
                        ok: true,
                        name: None,
                        start,
                        real_start: start,
                        end,
                        jump_start: jump,
                    },
                    machine: n,
                    log: seq![
                        "done: start=$"@ + hex4(start) + " end=$"@ + hex4(end) + " jump=$"@ + hex4(
                            jump,
                        ),
                    ],
                }
            } else {
                failed_run(n, seq!["never reached $040a (pc=$"@ + hex4(n.cpu.pc) + ")"@])
            }
        },
    }
}

pub fn run(
    cfg: &CruncherConfig,
    probe_end: Option<u16>,
    m: &mut Machine,
    log: &mut Vec<String>,
) -> (r: EngineResult)
    ensures
        ({
            let e = crunchab_run(cfg@, probe_end, *old(m));
            &&& r@ == e.finding
            &&& *final(m) == e.machine
            &&& texts(final(log)@) == texts(old(log)@) + e.log
        }),
{
    let end: u16 = match probe_end {
        Some(end) => end,
        None => {
            note(
                log,
                String::from_str("internal error: crunchab engine without probe result"),
            );
            assert(texts(log@) =~= texts(old(log)@) + crunchab_run(cfg@, probe_end, *old(m)).log);
            return EngineResult::failed();
        },
    };
    let goal: [u16; 1] = [0x040A];
    assert(goal@ =~= seq![0x040Au16]);
    if !m.run_until(&goal, cfg.cap) {
        let mut s: String = String::from_str("never reached $040a (pc=$");
        push_hex4(&mut s, m.cpu.pc);
        s.append(")");
        note(log, s);
        assert(texts(log@) =~= texts(old(log)@) + crunchab_run(cfg@, probe_end, *old(m)).log);
        return EngineResult::failed();
    }
    let jump: u16 = m.mem.read_word(0x040B);
    let start: u16 = m.mem.read_word(0x040E).wrapping_add(1);
    let mut s: String = String::from_str("done: start=$");
    push_hex4(&mut s, start);
    s.append(" end=$");
    push_hex4(&mut s, end);
    s.append(" jump=$");
    push_hex4(&mut s, jump);
    note(log, s);
    assert(texts(log@) =~= texts(old(log)@) + crunchab_run(cfg@, probe_end, *old(m)).log);
    EngineResult { ok: true, name: None, start, real_start: start, end, jump_start: jump }
}

} // verus!
