//! When a traced run goes on, what it notes and when it ends, step by step, and what the
//! engines with known control points report.

use vstd::prelude::*;

verus! {

use crate::config::{Definition, Variant};
use crate::cpu::{is_running, Cpu};
use crate::engine::crunchab::crunchab_run;
use crate::engine::depack::{
    advanced, chase, chase_start, chase_step, chased, considered, finished, is_deep, settled, Chase,
};
use crate::engine::generic::{
    average_pc, first_pick, generic_run, payload_ranges, picked, restored_mem, run_address,
    scene_of,
};
use crate::engine::engine_run;
use crate::engine::timecruncher::{output_start, timecruncher_run};
use crate::machine::{machine_stepped, run_to, Goal, Machine};
use crate::ranges::{last_largest, sorted};
use crate::writelist::{cleaned, empty_trace, flushed, followed};

/// A run begins with nothing traced, noted or logged, and waits for quiescence where the
/// definition says so.
pub proof fn runs_begin_empty(d: Definition, m: Machine)
    ensures
        ({
            let s = chase_start(d, m);
            &&& s.machine == m && s.trace == empty_trace()
            &&& s.steps == 0 && s.pc_sum == 0 && !s.ok && s.log.len() == 0
            &&& s.last_crossing is None && s.first_candidate is None && s.crossing_instr is None
            &&& s.handoff_ram is None && s.switch_instr is None && s.rejected_page is None
            &&& s.quiescent == d.run.exit_quiescent
        }),
{
}

/// The machine executes one instruction, which is traced at the place where it stood and
/// with the I/O area as it is banked afterwards; the step and the new PC are counted. While
/// the run waits for quiescence, the step of the latest new address is kept.
pub proof fn every_instruction_is_traced(s: Chase)
    ensures
        ({
            let t = advanced(s);
            let m = machine_stepped(s.machine);
            let port = m.mem.ram@[1] as int % 8;
            &&& t.machine == m
            &&& t.trace == followed(s.trace, m.cpu, s.machine.cpu.pc, port >= 5)
            &&& t.steps == s.steps + 1
            &&& t.pc_sum == s.pc_sum + m.cpu.pc
            &&& s.quiescent > 0 && t.trace.written.len() != s.written_before ==> t.last_new_write
                == t.steps && t.written_before == t.trace.written.len()
            &&& s.quiescent == 0 || t.trace.written.len() == s.written_before ==> t.last_new_write
                == s.last_new_write && t.written_before == s.written_before
            &&& t.quiescent == s.quiescent && t.ok == s.ok && t.first_candidate
                == s.first_candidate && t.last_crossing == s.last_crossing
        }),
{
}

/// A machine that halts ends the run: well where a hand-off was noted in a run that waits
/// for quiescence, and in failure otherwise.
pub proof fn halting_ends_the_run(d: Definition, sp0: u8, s: Chase)
    requires
        !is_running(machine_stepped(s.machine).cpu),
        !s.ok,
    ensures
        ({
            let (more, t) = chase_step(d, sp0, s);
            &&& !more
            &&& t.machine == machine_stepped(s.machine)
            &&& t.ok == (s.quiescent > 0 && (s.last_crossing is Some || s.first_candidate is Some))
        }),
{
}

/// Nothing is noted and nothing ends while the PC stays at the exit address or below,
/// except that a run with a hand-off ends well once no new address was written for more
/// than the asked number of instructions.
pub proof fn low_code_goes_on(d: Definition, sp0: u8, s: Chase)
    requires
        is_running(machine_stepped(s.machine).cpu),
        machine_stepped(s.machine).cpu.pc <= d.run.exit_above,
        !s.ok,
    ensures
        ({
            let (more, t) = chase_step(d, sp0, s);
            let a = advanced(s);
            let quiet = s.quiescent > 0 && (s.last_crossing is Some || s.first_candidate is Some)
                && a.steps - a.last_new_write > s.quiescent;
            &&& more == !quiet
            &&& t.ok == quiet
            &&& !quiet ==> t == a
            &&& t.last_crossing == s.last_crossing && t.first_candidate == s.first_candidate
            &&& t.switch_instr == s.switch_instr && t.quiescent == s.quiescent
        }),
{
}

/// A place where no program starts: $0200-$05FF, $8000-$9FFF, $C000-$CFFF, and from $D000 on
/// where the depacker wrote it.
pub open spec fn is_data_territory(s: Chase, pc: u16) -> bool {
    ||| 0x0200 <= pc <= 0x05FF
    ||| 0x8000 <= pc <= 0x9FFF
    ||| 0xC000 <= pc <= 0xCFFF
    ||| 0xD000 <= pc && s.trace.written.contains(pc)
}

/// What a switch to quiescence leaves: half a million instructions to wait for, the time of
/// the switch, and the jump as the hand-off to fall back on.
pub open spec fn waits_from_here(a: Chase, t: Chase) -> bool {
    &&& t.quiescent == 500_000
    &&& t.switch_instr == Some(a.machine.cpu.instructions)
    &&& t.first_candidate == Some(a.machine.cpu.pc)
    &&& t.last_new_write == a.steps
    &&& t.written_before == a.trace.written.len()
    &&& t.last_crossing == a.last_crossing
    &&& t.trace == a.trace && t.machine == a.machine && !t.ok
}

/// A plain run ends with the first PC above the exit address, unless that lies in data
/// territory: then it switches to quiescence and goes on.
#[verifier::rlimit(40)]
pub proof fn plain_runs_end_above_the_exit(d: Definition, sp0: u8, s: Chase)
    requires
        is_running(machine_stepped(s.machine).cpu),
        machine_stepped(s.machine).cpu.pc > d.run.exit_above,
        !d.run.exit_into_written,
        s.quiescent == 0,
        !s.ok,
    ensures
        ({
            let (more, t) = chase_step(d, sp0, s);
            let a = advanced(s);
            let pc = a.machine.cpu.pc;
            &&& !is_data_territory(a, pc) ==> !more && t.ok && t.machine == a.machine
            &&& is_data_territory(a, pc) ==> more && waits_from_here(a, t)
        }),
{
}

/// The PC lies in the top quarter of the largest range (of equals, the last by address).
pub open spec fn is_near_the_top(s: Chase, pc: u16) -> bool {
    match last_largest(sorted(s.trace.ranges, false)) {
        Some(l) => l.low() < pc && 4 * (pc - l.low()) > 3 * (l.high() - l.low()),
        None => false,
    }
}

/// Where the exit must go into written memory, a PC above the exit address counts only if it
/// was written, lies at $0600 or above and outside of $A000-$BFFF and $D000-$FFFF, and not
/// near the top of the largest range. One that counts ends the run, or switches it to
/// quiescence in data territory; any other leaves it as it was, but for what it logs.
#[verifier::rlimit(40)]
pub proof fn exits_into_written_memory(d: Definition, sp0: u8, s: Chase)
    requires
        is_running(machine_stepped(s.machine).cpu),
        machine_stepped(s.machine).cpu.pc > d.run.exit_above,
        d.run.exit_into_written,
        s.quiescent == 0,
        !s.ok,
    ensures
        ({
            let (more, t) = chase_step(d, sp0, s);
            let a = advanced(s);
            let pc = a.machine.cpu.pc;
            let counts = a.trace.written.contains(pc) && pc >= 0x0600 && !(0xA000 <= pc <= 0xBFFF)
                && pc < 0xD000 && !is_near_the_top(a, pc);
            &&& counts && !is_data_territory(a, pc) ==> !more && t.ok && t.machine == a.machine
            &&& counts && is_data_territory(a, pc) ==> more && waits_from_here(a, t)
            &&& !counts ==> more && !t.ok && t.machine == a.machine && t.trace == a.trace
                && t.first_candidate == a.first_candidate && t.last_crossing == a.last_crossing
                && t.quiescent == a.quiescent
        }),
{
    let a = advanced(s);
    deep_is_near_the_top(a);
}

proof fn deep_is_near_the_top(s: Chase)
    ensures
        is_deep(s) == is_near_the_top(s, s.machine.cpu.pc),
{
}

/// While a run waits for quiescence, a PC above the exit address counts if it lies at $0600
/// or above and outside of $A000-$BFFF and $D000-$FFFF, was written or was reached from the
/// exit address or below, and is not near the top of the largest range. The first one is
/// kept for good. A crossing from below is noted, with the time and RAM of that moment,
/// unless nothing was written since the crossing noted before.
#[verifier::rlimit(40)]
pub proof fn hand_offs_while_waiting(d: Definition, sp0: u8, s: Chase)
    requires
        s.quiescent > 0,
    ensures
        ({
            let pc = s.machine.cpu.pc;
            let there = pc >= 0x0600 && !(0xA000 <= pc <= 0xBFFF) && pc < 0xD000
                && !is_near_the_top(s, pc);
            let up = considered(d, sp0, s, true).1;
            let stay = considered(d, sp0, s, false).1;
            let written = s.trace.written.len() as int;
            &&& considered(d, sp0, s, true).0 && considered(d, sp0, s, false).0
            &&& there ==> up.last_crossing == Some(pc)
            &&& there && s.first_candidate is None ==> up.first_candidate == Some(pc)
            &&& there && s.first_candidate is Some ==> up.first_candidate == s.first_candidate
            &&& there && (s.crossing_instr is None || written != s.written_at_crossing) ==> {
                &&& up.crossing_instr == Some(s.machine.cpu.instructions)
                &&& up.handoff_ram == Some(s.machine.mem.ram)
                &&& up.written_at_crossing == written
            }
            &&& there && s.crossing_instr is Some && written == s.written_at_crossing ==> {
                &&& up.crossing_instr == s.crossing_instr
                &&& up.handoff_ram == s.handoff_ram
            }
            &&& !there ==> up.last_crossing == s.last_crossing && up.first_candidate
                == s.first_candidate && up.handoff_ram == s.handoff_ram
            &&& stay.last_crossing == s.last_crossing && stay.handoff_ram == s.handoff_ram
                && stay.crossing_instr == s.crossing_instr
            &&& there && s.trace.written.contains(pc) && s.first_candidate is None
                ==> stay.first_candidate == Some(pc)
            &&& !there || !s.trace.written.contains(pc) || s.first_candidate is Some
                ==> stay.first_candidate == s.first_candidate
            &&& up.quiescent == s.quiescent && stay.quiescent == s.quiescent
            &&& up.switch_instr == s.switch_instr && stay.switch_instr == s.switch_instr
            &&& up.trace == s.trace && up.machine == s.machine && up.ok == s.ok
        }),
{
    deep_is_near_the_top(s);
}

/// A PC above the exit address is considered as a crossing exactly when the instruction
/// before stood at the exit address or below.
#[verifier::rlimit(40)]
pub proof fn crossings_come_from_below(d: Definition, sp0: u8, s: Chase)
    requires
        is_running(machine_stepped(s.machine).cpu),
        machine_stepped(s.machine).cpu.pc > d.run.exit_above,
        s.quiescent > 0,
        !s.ok,
    ensures
        ({
            let (more, t) = chase_step(d, sp0, s);
            let a = advanced(s);
            let u = considered(d, sp0, a, s.machine.cpu.pc <= d.run.exit_above).1;
            let quiet = (u.last_crossing is Some || u.first_candidate is Some) && u.steps
                - u.last_new_write > u.quiescent;
            &&& more == !quiet
            &&& t.ok == quiet
            &&& t.last_crossing == u.last_crossing && t.first_candidate == u.first_candidate
            &&& t.handoff_ram == u.handoff_ram
        }),
{
    hand_offs_while_waiting(d, sp0, advanced(s));
}

/// A run that is over is cleaned up: flushed, and then without ranges of fewer than sixteen
/// writes. At its cap, a run that waits for quiescence is over, too, where a hand-off was
/// noted; any other stays as it is.
pub proof fn runs_end_clean(s: Chase)
    ensures
        finished(s).ok,
        finished(s).trace == cleaned(flushed(s.trace), 16),
        finished(s).machine == s.machine,
        finished(s).first_candidate == s.first_candidate,
        finished(s).last_crossing == s.last_crossing,
        ({
            let t = settled(s);
            let saved = !s.ok && s.quiescent > 0 && (s.last_crossing is Some || s.first_candidate
                is Some);
            &&& saved ==> t.ok && t.trace == cleaned(flushed(s.trace), 16) && t.machine
                == s.machine && t.last_crossing == s.last_crossing && t.first_candidate
                == s.first_candidate
            &&& !saved ==> t == s
        }),
{
}

// ---------------------------------------------------------------------------
// Known control points
// ---------------------------------------------------------------------------

/// The word that the machine sees at an address and the one after it, low byte first.
pub open spec fn seen_word(m: Machine, a: u16) -> int {
    m.mem.visible(a) + 0x100 * m.mem.visible(((a + 1) % 0x1_0000) as u16)
}

/// Time Cruncher 3.1 and 3.2 (version 31 or 32): the output ends one below the pointer at
/// $FC as the depack loop at $0100 is reached. The hand-off is $0369: there the program
/// starts one above the pointer, and it runs from the address at $036A. A run that misses
/// one of the two places fails.
#[verifier::rlimit(40)]
pub proof fn time_cruncher_3x_reads_its_pointer(d: Definition, m: Machine)
    requires
        d.run.version == 31 || d.run.version == 32,
    ensures
        ({
            let r = timecruncher_run(d, m);
            let (at_loop, n) = run_to(m, Goal::OneOf(seq![0x0100u16]), d.run.cap as nat);
            let (at_end, o) = run_to(n, Goal::OneOf(seq![0x0369u16]), d.run.cap as nat);
            &&& r.finding.ok == (at_loop && at_end)
            &&& r.finding.ok ==> {
                &&& r.finding.end as int == (seen_word(n, 0xFC) - 1) % 0x1_0000
                &&& r.finding.start as int == (seen_word(o, 0xFC) + 1) % 0x1_0000
                &&& r.finding.jump_start as int == seen_word(o, 0x036A)
                &&& r.finding.name is None
                &&& r.finding.real_start == r.finding.start
                &&& r.machine == o
            }
        }),
{
    let (at_loop, n) = run_to(m, Goal::OneOf(seq![0x0100u16]), d.run.cap as nat);
    let (at_end, o) = run_to(n, Goal::OneOf(seq![0x0369u16]), d.run.cap as nat);
    word_is_seen(n, 0xFC);
    word_is_seen(o, 0xFC);
    word_is_seen(o, 0x036A);
    assert(0x0369u16.wrapping_add(1) == 0x036A);
}

/// Time Cruncher 4.2 (version 42): as before, but the hand-off is $0374, the program starts
/// three and Y above the pointer, and it runs from the address at $0375.
#[verifier::rlimit(40)]
pub proof fn time_cruncher_42_reads_its_pointer(d: Definition, m: Machine)
    requires
        d.run.version == 42,
    ensures
        ({
            let r = timecruncher_run(d, m);
            let (at_loop, n) = run_to(m, Goal::OneOf(seq![0x0100u16]), d.run.cap as nat);
            let (at_end, o) = run_to(n, Goal::OneOf(seq![0x0374u16]), d.run.cap as nat);
            &&& r.finding.ok == (at_loop && at_end)
            &&& r.finding.ok ==> {
                &&& r.finding.end as int == (seen_word(n, 0xFC) - 1) % 0x1_0000
                &&& r.finding.start as int == (seen_word(o, 0xFC) + 3 + o.cpu.y) % 0x1_0000
                &&& r.finding.jump_start as int == seen_word(o, 0x0375)
                &&& r.finding.name is None
                &&& r.finding.real_start == r.finding.start
                &&& r.machine == o
            }
        }),
{
    let (at_loop, n) = run_to(m, Goal::OneOf(seq![0x0100u16]), d.run.cap as nat);
    let (at_end, o) = run_to(n, Goal::OneOf(seq![0x0374u16]), d.run.cap as nat);
    word_is_seen(n, 0xFC);
    word_is_seen(o, 0x0375);
    assert(0x0374u16.wrapping_add(1) == 0x0375);
    let start = output_start(42, o);
    start_of_42(o);
    assert(n.mem.visible_word(0xFC).wrapping_sub(1) as int == (seen_word(n, 0xFC) - 1) % 0x1_0000);
}

proof fn start_of_42(m: Machine)
    ensures
        output_start(42, m) as int == (seen_word(m, 0xFC) + 3 + m.cpu.y) % 0x1_0000,
{
    word_is_seen(m, 0xFC);
    sum_wraps(m.mem.visible_word(0xFC), m.cpu.y);
}

proof fn sum_wraps(pointer: u16, y: u8)
    ensures
        pointer.wrapping_add(3).wrapping_add(y as u16) as int == (pointer + 3 + y) % 0x1_0000,
{
}

/// No other version of Time Cruncher is known: its runs fail.
pub proof fn other_time_crunchers_fail(d: Definition, m: Machine)
    requires
        d.run.version != 31,
        d.run.version != 32,
        d.run.version != 42,
    ensures
        !timecruncher_run(d, m).finding.ok,
{
}

proof fn word_is_seen(m: Machine, a: u16)
    ensures
        m.mem.visible_word(a) as int == seen_word(m, a),
{
}

/// CrunchAB: the depacker is run to $040A; the program starts one above the word at $040E,
/// ends where the probe said, and runs from the address at $040B. Without a probed end, or
/// where $040A is never reached, it fails.
pub proof fn crunchab_reads_its_vectors(d: Definition, probe_end: Option<u16>, m: Machine)
    ensures
        ({
            let r = crunchab_run(d, probe_end, m);
            let (hit, n) = run_to(m, Goal::OneOf(seq![0x040Au16]), d.run.cap as nat);
            &&& r.finding.ok == (probe_end is Some && hit)
            &&& r.finding.ok ==> {
                &&& r.finding.start as int == (seen_word(n, 0x040E) + 1) % 0x1_0000
                &&& r.finding.real_start == r.finding.start
                &&& Some(r.finding.end) == probe_end
                &&& r.finding.jump_start as int == seen_word(n, 0x040B)
                &&& r.finding.name is None
                &&& r.machine == n
            }
        }),
{
}

// ---------------------------------------------------------------------------
// The generic engine
// ---------------------------------------------------------------------------

/// A run is made of steps, as many as they last and at most as many as the cap.
pub proof fn runs_are_made_of_steps(d: Definition, sp0: u8, s: Chase, fuel: nat)
    ensures
        chase(d, sp0, s, 0) == s,
        !chase_step(d, sp0, s).0 ==> chase(d, sp0, s, fuel + 1) == chase_step(d, sp0, s).1,
        chase_step(d, sp0, s).0 ==> chase(d, sp0, s, fuel + 1) == chase(
            d,
            sp0,
            chase_step(d, sp0, s).1,
            fuel,
        ),
{
}

/// The generic engine runs to its stop: below the limit where there is one, and otherwise to
/// one of the stop addresses. Where it never gets there, or where the traced run from there
/// does not end well, it fails; else it reports the payload that is chosen from that run,
/// and leaves RAM as it was at the hand-off.
#[verifier::rlimit(40)]
pub proof fn generic_engine_runs_in_two_phases(d: Definition, variant: Option<Variant>, m: Machine)
    ensures
        ({
            let r = generic_run(d, variant, m);
            let goal = if d.run.stop_below is Some {
                Goal::Below(d.run.stop_below->0)
            } else {
                Goal::OneOf(d.run.stop_pc)
            };
            let (hit, n) = run_to(m, goal, d.run.cap as nat);
            let s = chased(d, Machine { cpu: Cpu { tracking: true, ..n.cpu }, ..n });
            let p = picked(d, variant, scene_of(s), first_pick(d, s));
            &&& r.finding.ok == (hit && s.ok)
            &&& r.finding.ok ==> {
                &&& r.finding.start == p.start && r.finding.end == p.end
                &&& r.finding.real_start == p.real_start && r.finding.jump_start == p.jump
                &&& r.finding.name == p.name
                &&& r.machine.mem == restored_mem(s)
            }
        }),
{
}

/// The choice of the payload starts from nothing, with the hand-off that counts, and looks at
/// the restored memory, the trace, the ranges of the payload, the time of the switch and the
/// average program counter.
pub proof fn choices_start_from_the_run(d: Definition, s: Chase)
    ensures
        ({
            let p = first_pick(d, s);
            let v = scene_of(s);
            &&& p.start == 0 && p.end == 0 && p.real_start == 0 && p.name is None && !p.classified
            &&& p.jump == run_address(d, s)
            &&& v.mem == restored_mem(s) && v.trace == s.trace && v.list == payload_ranges(s)
            &&& v.switch_instr == s.switch_instr && v.avg_pc == average_pc(s)
        }),
{
}

/// A run that fails reports nothing: no name, and zero for every address.
pub proof fn failures_are_blank(
    d: Definition,
    variant: Option<Variant>,
    probe_end: Option<u16>,
    m: Machine,
)
    ensures
        ({
            let f = engine_run(d, variant, probe_end, m).finding;
            !f.ok ==> f.name is None && f.start == 0 && f.real_start == 0 && f.end == 0
                && f.jump_start == 0
        }),
{
}

} // verus!
