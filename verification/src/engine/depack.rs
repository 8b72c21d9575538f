//! The traced part of the generic engine: run the depacker with write tracing on
//! until it hands over to the unpacked program.

use vstd::prelude::*;
use vstd::string::*;

use crate::config::CruncherConfig;
use crate::engine::note;
use crate::fmt::push_hex4;
use crate::machine::Machine;
use crate::ranges::find_last_largest;
use crate::writelist::WriteList;

verus! {

use crate::config::Definition;
use crate::cpu::is_running;
use crate::fmt::{hex4, texts};
use crate::machine::machine_stepped;
use crate::ranges::{last_largest, sorted};
use crate::writelist::{cleaned, empty_trace, flushed, followed, Trace};

/// The state of a traced run.
pub struct Chase {
    pub machine: Machine,
    pub trace: Trace,
    /// Instructions executed so far.
    pub steps: int,
    /// Sum of the PC after each instruction.
    pub pc_sum: int,
    /// Page of the last jump that was ignored as a depacked stage. Multi-stage
    /// depackers unpack their own next stage as part of the payload and jump into
    /// it; such jumps land DEEP inside the output range, whereas a real program
    /// entry sits near its start.
    pub rejected_page: Option<u16>,
    /// Last *crossing* from the stub area up into the payload. Earlier crossings
    /// are inter-stage jumps, and once the program runs its own PCs stay high (no
    /// crossing), so they never overwrite the recorded crossing. Memory is lifted
    /// as it was there.
    pub last_crossing: Option<u16>,
    /// Instruction count (comparable with the ranges' first write) when the
    /// recorded hand-off was crossed.
    pub crossing_instr: Option<u64>,
    /// RAM as it was at that hand-off. Quiescence mode keeps emulating while
    /// the LAUNCHED PROGRAM runs, and the program may overwrite its own memory.
    pub handoff_ram: Option<Box<[u8; 0x10000]>>,
    /// Unique-address write count at the last snapshot.
    pub written_at_crossing: int,
    /// The first plausible hand-off, crossing or not.
    pub first_candidate: Option<u16>,
    /// Step of the last write to a new address.
    pub last_new_write: int,
    /// Unique-address write count at that step.
    pub written_before: int,
    /// Instructions without a new write after which the run is over; 0 while the
    /// first plausible hand-off ends it.
    pub quiescent: u64,
    /// Instruction count at which the run switched to quiescence by itself.
    pub switch_instr: Option<u64>,
    pub ok: bool,
    pub log: Seq<Seq<char>>,
}

/// A traced run at its start.
pub open spec fn chase_start(d: Definition, m: Machine) -> Chase {
    Chase {
        machine: m,
        trace: empty_trace(),
        steps: 0,
        pc_sum: 0,
        rejected_page: None,
        last_crossing: None,
        crossing_instr: None,
        handoff_ram: None,
        written_at_crossing: 0,
        first_candidate: None,
        last_new_write: 0,
        written_before: 0,
        quiescent: d.run.exit_quiescent,
        switch_instr: None,
        ok: false,
        log: Seq::empty(),
    }
}

pub open spec fn has_candidate(s: Chase) -> bool {
    s.last_crossing is Some || s.first_candidate is Some
}

/// The run is over and its trace is cleaned up.
pub open spec fn finished(s: Chase) -> Chase {
    Chase { ok: true, trace: cleaned(flushed(s.trace), 16), ..s }
}

/// Candidates are filtered when the exit must land in written memory, and whenever
/// quiescence is active; the plain immediate exit trusts the PC alone.
pub open spec fn is_smart(d: Definition, s: Chase) -> bool {
    d.run.exit_into_written || s.quiescent > 0
}

/// A PC inside a ROM region is never the unpacked program, even if the RAM
/// underneath was written (staging areas live there).
pub open spec fn is_rom(pc: u16) -> bool {
    0xA000 <= pc < 0xC000 || pc >= 0xD000
}

/// Whether the PC may be a hand-off. With filtering it must be outside of ROM and
/// at $0600 or above (anything lower is stub machinery), and land in freshly
/// written memory. Crossings from the stub area may land in memory the trace did
/// not see written (phase 1 may have placed it), but only quiescence mode can
/// afford that trust, since it keeps re-evaluating.
pub open spec fn is_plausible(d: Definition, s: Chase, crossing: bool) -> bool {
    let pc = s.machine.cpu.pc;
    ||| !is_smart(d, s)
    ||| !is_rom(pc) && pc >= 0x0600 && ((crossing && s.quiescent > 0) || s.trace.written.contains(
        pc,
    ))
}

/// Whether the PC lies in the top quarter of the largest range: real entries sit
/// in the lower part, depacked stage-2 code near the top.
pub open spec fn is_deep(s: Chase) -> bool {
    let pc = s.machine.cpu.pc;
    match last_largest(sorted(s.trace.ranges, false)) {
        Some(l) => pc > l.low() && (pc - l.low()) * 4 > (l.high() - l.low()) * 3,
        None => false,
    }
}

pub open spec fn page_of(pc: u16) -> u16 {
    (pc - pc % 0x100) as u16
}

pub open spec fn deep_text(pc: u16, min: u16, max: u16) -> Seq<char> {
    "ignoring jump to $"@ + hex4(pc) + ": deep inside $"@ + hex4(min) + "-$"@ + hex4(max)
        + ", looks like a depacked stage-2"@
}

/// Note a jump that is ignored, once per page.
pub open spec fn ignored(s: Chase) -> Chase {
    let pc = s.machine.cpu.pc;
    let l = last_largest(sorted(s.trace.ranges, false))->0;
    if s.rejected_page == Some(page_of(pc)) {
        s
    } else {
        Chase {
            rejected_page: Some(page_of(pc)),
            log: s.log.push(deep_text(pc, l.low(), l.high())),
            ..s
        }
    }
}

/// An exit into data territory ($8000-$9FFF / $C000-$CFFF, not a BASIC/KERNAL
/// hand-off) is usually a depacked next STAGE. $D000+ counts as data territory
/// only when the depacker itself wrote the target. $0200-$05FF (tape
/// buffer/screen) is never a program entry either.
pub open spec fn is_suspicious(s: Chase) -> bool {
    let pc = s.machine.cpu.pc;
    ||| 0x8000 <= pc < 0xA000
    ||| 0xC000 <= pc < 0xD000
    ||| pc >= 0xD000 && s.trace.written.contains(pc)
    ||| 0x0200 <= pc < 0x0600
}

pub open spec fn switch_text(pc: u16) -> Seq<char> {
    "exit jump $"@ + hex4(pc)
        + " lands deep in data territory: likely a depacked stage, switching to quiescence"@
}

/// The run goes on until the writes dry up; the jump is only the fallback
/// candidate.
pub open spec fn switched(s: Chase) -> Chase {
    let pc = s.machine.cpu.pc;
    Chase {
        quiescent: 500_000,
        switch_instr: Some(s.machine.cpu.instructions),
        last_new_write: s.steps,
        written_before: s.trace.written.len() as int,
        first_candidate: Some(pc),
        log: s.log.push(switch_text(pc)),
        ..s
    }
}

pub open spec fn noted_text(pc: u16) -> Seq<char> {
    "hand-off candidate $"@ + hex4(pc) + " noted; running until writes stop"@
}

/// A hand-off in quiescence mode. The first one is kept as the candidate for the
/// run address. The payload snapshot must come from the LAST crossing: a depacker can
/// bounce across the boundary many times while decrunching. A new
/// snapshot is taken only when something was written since the previous crossing,
/// since a launched program bouncing WITHOUT writing keeps the true hand-off state.
pub open spec fn recorded(s: Chase, crossing: bool) -> Chase {
    let pc = s.machine.cpu.pc;
    let count = s.trace.written.len() as int;
    let fresh = s.crossing_instr is None || count != s.written_at_crossing;
    let t = if crossing {
        Chase {
            last_crossing: Some(pc),
            log: if s.last_crossing == Some(pc) {
                s.log
            } else {
                s.log.push(noted_text(pc))
            },
            crossing_instr: if fresh {
                Some(s.machine.cpu.instructions)
            } else {
                s.crossing_instr
            },
            handoff_ram: if fresh {
                Some(s.machine.mem.ram)
            } else {
                s.handoff_ram
            },
            written_at_crossing: if fresh {
                count
            } else {
                s.written_at_crossing
            },
            ..s
        }
    } else {
        s
    };
    Chase {
        first_candidate: if s.first_candidate is None {
            Some(pc)
        } else {
            s.first_candidate
        },
        ..t
    }
}

/// What becomes of an accepted hand-off; false where it ends the run.
pub open spec fn accepted(s: Chase, crossing: bool) -> (bool, Chase) {
    if s.quiescent > 0 {
        (true, recorded(s, crossing))
    } else if is_suspicious(s) {
        (true, switched(s))
    } else {
        (false, finished(s))
    }
}

/// What becomes of a PC above the exit address. Depackers JSR into (stubbed) ROM
/// helpers mid-run; such excursions push a return address, so the stack pointer
/// sits below its phase-2 level. A real hand-off is a JMP or lands in RAM.
pub open spec fn considered(d: Definition, sp0: u8, s: Chase, crossing: bool) -> (bool, Chase) {
    let rom = is_smart(d, s) && is_rom(s.machine.cpu.pc);
    if !is_plausible(d, s, crossing) {
        (true, s)
    } else if is_smart(d, s) && is_deep(s) {
        (true, ignored(s))
    } else if !rom || s.machine.cpu.sp >= sp0 {
        accepted(s, crossing)
    } else {
        (true, s)
    }
}

/// The state after one more instruction was executed and traced.
pub open spec fn advanced(s: Chase) -> Chase {
    let m = machine_stepped(s.machine);
    let trace = followed(s.trace, m.cpu, s.machine.cpu.pc, m.mem.io_banked_in());
    let fresh = s.quiescent > 0 && trace.written.len() != s.written_before;
    Chase {
        machine: m,
        trace,
        steps: s.steps + 1,
        pc_sum: s.pc_sum + m.cpu.pc,
        last_new_write: if fresh {
            s.steps + 1
        } else {
            s.last_new_write
        },
        written_before: if fresh {
            trace.written.len() as int
        } else {
            s.written_before
        },
        ..s
    }
}

/// Whether the writes have dried up after a hand-off.
pub open spec fn is_quiet(s: Chase) -> bool {
    s.quiescent > 0 && has_candidate(s) && s.steps - s.last_new_write > s.quiescent
}

/// One step of the run; false where it ends the run. A depacker that halts after
/// finishing still counts when a hand-off was already seen.
pub open spec fn chase_step(d: Definition, sp0: u8, s: Chase) -> (bool, Chase) {
    let m = machine_stepped(s.machine);
    if !is_running(m.cpu) {
        let t = Chase { machine: m, ..s };
        (
            false,
            if s.quiescent > 0 && has_candidate(s) {
                finished(t)
            } else {
                t
            },
        )
    } else {
        let t = advanced(s);
        let (more, u) = if m.cpu.pc > d.run.exit_above {
            considered(d, sp0, t, s.machine.cpu.pc <= d.run.exit_above)
        } else {
            (true, t)
        };
        if more && is_quiet(u) {
            (false, finished(u))
        } else {
            (more, u)
        }
    }
}

/// The run of at most `fuel` more instructions.
pub open spec fn chase(d: Definition, sp0: u8, s: Chase, fuel: nat) -> Chase
    decreases fuel,
{
    if fuel == 0 {
        s
    } else {
        let (more, t) = chase_step(d, sp0, s);
        if more {
            chase(d, sp0, t, (fuel - 1) as nat)
        } else {
            t
        }
    }
}

/// Interactive tools never go quiet (menus, blinking cursors): the instruction cap
/// ends the run well, too, as long as a hand-off was seen.
pub open spec fn settled(s: Chase) -> Chase {
    if !s.ok && s.quiescent > 0 && has_candidate(s) {
        finished(
            Chase {
                log: s.log.push(
                    "instruction cap in quiescence mode: accepting the recorded hand-off"@,
                ),
                ..s
            },
        )
    } else {
        s
    }
}

/// The whole traced run of a machine.
pub open spec fn chased(d: Definition, m: Machine) -> Chase {
    settled(chase(d, m.cpu.sp, chase_start(d, m), d.run.cap as nat))
}

// ---------------------------------------------------------------------------
// The run
// ---------------------------------------------------------------------------

/// The state of a traced run, next to its machine and its log.
pub struct Hunt {
    pub wl: WriteList,
    pub steps: u64,
    pub pc_sum: u128,
    pub rejected_page: Option<u16>,
    pub last_crossing: Option<u16>,
    pub crossing_instr: Option<u64>,
    pub handoff_ram: Option<Box<[u8; 0x10000]>>,
    pub written_at_crossing: usize,
    pub first_candidate: Option<u16>,
    pub last_new_write: u64,
    pub written_before: usize,
    pub quiescent: u64,
    pub switch_instr: Option<u64>,
    pub ok: bool,
}

impl Hunt {
    /// The state of the run with its machine and its log.
    pub open spec fn state(&self, m: Machine, log: Seq<String>) -> Chase {
        Chase {
            machine: m,
            trace: self.wl@,
            steps: self.steps as int,
            pc_sum: self.pc_sum as int,
            rejected_page: self.rejected_page,
            last_crossing: self.last_crossing,
            crossing_instr: self.crossing_instr,
            handoff_ram: self.handoff_ram,
            written_at_crossing: self.written_at_crossing as int,
            first_candidate: self.first_candidate,
            last_new_write: self.last_new_write as int,
            written_before: self.written_before as int,
            quiescent: self.quiescent,
            switch_instr: self.switch_instr,
            ok: self.ok,
            log: texts(log),
        }
    }

    pub open spec fn wf(&self) -> bool {
        &&& self.wl.wf()
        &&& self.last_new_write <= self.steps
        &&& self.pc_sum <= self.steps * 0xFFFF
    }

    fn start(cfg: &CruncherConfig) -> (h: Hunt)
        ensures
            h.wf(),
            h.steps == 0,
            forall|m: Machine| #[trigger]
                h.state(m, Seq::empty()) == chase_start(cfg@, m),
    {
        let h: Hunt = Hunt {
            wl: WriteList::new(),
            steps: 0,
            pc_sum: 0,
            rejected_page: None,
            last_crossing: None,
            crossing_instr: None,
            handoff_ram: None,
            written_at_crossing: 0,
            first_candidate: None,
            last_new_write: 0,
            written_before: 0,
            quiescent: cfg.exit_quiescent,
            switch_instr: None,
            ok: false,
        };
        assert(texts(Seq::<String>::empty()) =~= Seq::empty());
        h
    }

    fn candidate_seen(&self) -> (b: bool)
        ensures
            b == (self.last_crossing is Some || self.first_candidate is Some),
    {
        self.last_crossing.is_some() || self.first_candidate.is_some()
    }

    fn finish(&mut self)
        requires
            old(self).wf(),
        ensures
            final(self).wf(),
            forall|m: Machine, log: Seq<String>| #[trigger]
                final(self).state(m, log) == finished(old(self).state(m, log)),
    {
        self.ok = true;
        self.wl.flush();
        self.wl.clean_lists(16);
    }

    /// Note a jump that is ignored, once per page.
    fn ignore(&mut self, m: &Machine, notes: &mut Vec<String>, min: u16, max: u16)
        requires
            old(self).wf(),
            ({
                let l = last_largest(sorted(old(self).wl@.ranges, false));
                l is Some && l->0.low() == min && l->0.high() == max
            }),
        ensures
            final(self).wf(),
            final(self).steps == old(self).steps,
            final(self).state(*m, final(notes)@) == ignored(old(self).state(*m, old(notes)@)),
    {
        let pc: u16 = m.cpu.pc;
        let page: u16 = pc - pc % 0x100;
        let known: bool = match self.rejected_page {
            Some(p) => p == page,
            None => false,
        };
        if !known {
            let mut s: String = String::from_str("ignoring jump to $");
            push_hex4(&mut s, pc);
            s.append(": deep inside $");
            push_hex4(&mut s, min);
            s.append("-$");
            push_hex4(&mut s, max);
            s.append(", looks like a depacked stage-2");
            note(notes, s);
            self.rejected_page = Some(page);
        }
    }

    /// Switch to quiescence.
    fn switch(&mut self, m: &Machine, notes: &mut Vec<String>)
        requires
            old(self).wf(),
        ensures
            final(self).wf(),
            final(self).steps == old(self).steps,
            final(self).state(*m, final(notes)@) == switched(old(self).state(*m, old(notes)@)),
    {
        let pc: u16 = m.cpu.pc;
        let mut s: String = String::from_str("exit jump $");
        push_hex4(&mut s, pc);
        s.append(
            " lands deep in data territory: likely a depacked stage, switching to quiescence",
        );
        note(notes, s);
        self.quiescent = 500_000;
        self.switch_instr = Some(m.cpu.instructions);
        self.last_new_write = self.steps;
        self.written_before = self.wl.written_count();
        self.first_candidate = Some(pc);
    }

    /// Record a hand-off in quiescence mode.
    fn record(&mut self, m: &Machine, notes: &mut Vec<String>, crossing: bool)
        requires
            old(self).wf(),
        ensures
            final(self).wf(),
            final(self).steps == old(self).steps,
            final(self).state(*m, final(notes)@) == recorded(
                old(self).state(*m, old(notes)@),
                crossing,
            ),
    {
        let pc: u16 = m.cpu.pc;
        if crossing {
            let known: bool = match self.last_crossing {
                Some(p) => p == pc,
                None => false,
            };
            if !known {
                let mut s: String = String::from_str("hand-off candidate $");
                push_hex4(&mut s, pc);
                s.append(" noted; running until writes stop");
                note(notes, s);
            }
            self.last_crossing = Some(pc);
            let count: usize = self.wl.written_count();
            if self.crossing_instr.is_none() || count != self.written_at_crossing {
                self.crossing_instr = Some(m.cpu.instructions);
                self.handoff_ram = Some(Box::new(*m.mem.ram));
                self.written_at_crossing = count;
            }
        }
        if self.first_candidate.is_none() {
            self.first_candidate = Some(pc);
        }
    }

    /// Deal with an accepted hand-off; false where it ends the run.
    fn accept(&mut self, m: &Machine, notes: &mut Vec<String>, crossing: bool) -> (more: bool)
        requires
            old(self).wf(),
        ensures
            final(self).wf(),
            final(self).steps == old(self).steps,
            (more, final(self).state(*m, final(notes)@)) == accepted(
                old(self).state(*m, old(notes)@),
                crossing,
            ),
    {
        if self.quiescent > 0 {
            self.record(m, notes, crossing);
            return true;
        }
        let pc: u16 = m.cpu.pc;
        let suspicious: bool = (0x8000 <= pc && pc < 0xA000) || (0xC000 <= pc && pc < 0xD000) || (pc
            >= 0xD000 && self.wl.was_written(pc)) || (0x0200 <= pc && pc < 0x0600);
        if suspicious {
            self.switch(m, notes);
            true
        } else {
            self.finish();
            false
        }
    }

    /// Deal with a PC above the exit address; false where it ends the run.
    fn consider(
        &mut self,
        cfg: &CruncherConfig,
        sp0: u8,
        m: &Machine,
        notes: &mut Vec<String>,
        crossing: bool,
    ) -> (more: bool)
        requires
            old(self).wf(),
        ensures
            final(self).wf(),
            final(self).steps == old(self).steps,
            (more, final(self).state(*m, final(notes)@)) == considered(
                cfg@,
                sp0,
                old(self).state(*m, old(notes)@),
                crossing,
            ),
    {
        let pc: u16 = m.cpu.pc;
        let smart: bool = cfg.exit_into_written || self.quiescent > 0;
        let in_rom: bool = smart && ((0xA000 <= pc && pc < 0xC000) || pc >= 0xD000);
        let trusted: bool = crossing && self.quiescent > 0;
        let plausible: bool = !smart || (!in_rom && pc >= 0x0600 && (trusted || self.wl.was_written(
            pc,
        )));
        if !plausible {
            return true;
        }
        if smart {
            match find_last_largest(&self.wl.sequences()) {
                Some(l) => {
                    let min: u16 = l.min_addr();
                    let max: u16 = l.max_addr();
                    if pc > min && (pc - min) as u32 * 4 > (max - min) as u32 * 3 {
                        self.ignore(m, notes, min, max);
                        return true;
                    }
                },
                None => {},
            }
        }
        if !in_rom || m.cpu.sp >= sp0 {
            self.accept(m, notes, crossing)
        } else {
            true
        }
    }

    /// Execute and trace one instruction; false where the run ends.
    fn advance(
        &mut self,
        cfg: &CruncherConfig,
        sp0: u8,
        m: &mut Machine,
        notes: &mut Vec<String>,
    ) -> (more: bool)
        requires
            old(self).wf(),
            old(self).steps < u64::MAX,
        ensures
            final(self).wf(),
            more ==> final(self).steps == old(self).steps + 1,
            (more, final(self).state(*final(m), final(notes)@)) == chase_step(
                cfg@,
                sp0,
                old(self).state(*old(m), old(notes)@),
            ),
    {
        let pc_before: u16 = m.cpu.pc;
        if !m.step() {
            if self.quiescent > 0 && self.candidate_seen() {
                self.finish();
            }
            return false;
        }
        self.wl.track(&m.cpu, pc_before, m.mem.io_visible());
        self.steps = self.steps + 1;
        self.pc_sum = self.pc_sum + m.cpu.pc as u128;
        if self.quiescent > 0 {
            let w: usize = self.wl.written_count();
            if w != self.written_before {
                self.written_before = w;
                self.last_new_write = self.steps;
            }
        }
        assert(self.state(*m, notes@) == advanced(old(self).state(*old(m), notes@)));
        let mut more: bool = true;
        if m.cpu.pc > cfg.exit_above {
            more = self.consider(cfg, sp0, m, notes, pc_before <= cfg.exit_above);
        }
        if more && self.quiescent > 0 && self.candidate_seen() && self.steps - self.last_new_write
            > self.quiescent {
            self.finish();
            more = false;
        }
        more
    }
}

/// Trace the machine's writes until the PC escapes into the unpacked program.
pub(crate) fn hunt(cfg: &CruncherConfig, m: &mut Machine, notes: &mut Vec<String>) -> (h: Hunt)
    requires
        old(notes)@.len() == 0,
    ensures
        h.wf(),
        h.state(*final(m), final(notes)@) == chased(cfg@, *old(m)),
{
    let sp0: u8 = m.cpu.sp;
    let mut h: Hunt = Hunt::start(cfg);
    let mut more: bool = true;
    let ghost begin = chase_start(cfg@, *m);
    let ghost end = chase(cfg@, sp0, begin, cfg.cap as nat);
    assert(notes@ =~= Seq::empty());
    assert(h.state(*m, notes@) == begin);
    while more && h.steps < cfg.cap
        invariant
            h.wf(),
            more ==> h.steps <= cfg.cap,
            more ==> chase(cfg@, sp0, h.state(*m, notes@), (cfg.cap - h.steps) as nat) == end,
            !more ==> h.state(*m, notes@) == end,
        decreases cfg.cap - h.steps,
            if more {
                1int
            } else {
                0
            },
    {
        more = h.advance(cfg, sp0, m, notes);
    }
    assert(h.state(*m, notes@) == end);
    if !h.ok && h.quiescent > 0 && h.candidate_seen() {
        note(
            notes,
            String::from_str("instruction cap in quiescence mode: accepting the recorded hand-off"),
        );
        h.finish();
    }
    h
}

} // verus!
