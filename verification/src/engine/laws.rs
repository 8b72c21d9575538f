//! What the engines promise as a whole.

use vstd::prelude::*;

verus! {

use crate::bits::wrap16;
use crate::config::{Definition, Variant};
use crate::cpu::is_running;
use crate::engine::depack::{
    accepted, advanced, chase, chase_start, chase_step, chased, has_candidate, is_quiet, is_rom,
    settled, Chase,
};
use crate::engine::generic::{
    basic_handed_over, basic_rebuilt, behavior_classified, byteboozer_classified,
    copy_then_reverse, first_pick, forward_stream, grown, grown_by, grown_once, growing_widens,
    guess_is_backed, jump_corrected, largest_picked, late_stage_picked, packed_len, picked, refined,
    room, run_address, staged_since, start_guessed, Pick, Scene,
};
use crate::engine::{engine_run, failure};
use crate::machine::{machine_stepped, Machine};
use crate::pattern::{guessed_start, sys_target};
use crate::ranges::{
    filter_only_keeps, first_largest, largest_is_largest, last_largest, WriteRange,
};
use crate::writelist::{
    cleaning_keeps_valid, empty_trace, flushed, following_keeps_valid, trace_valid,
};

/// An engine that fails reports no addresses and no name.
pub proof fn failed_engine_reports_nothing(
    d: Definition,
    variant: Option<Variant>,
    probe_end: Option<u16>,
    m: Machine,
)
    ensures
        !engine_run(d, variant, probe_end, m).finding.ok ==> engine_run(
            d,
            variant,
            probe_end,
            m,
        ).finding == failure(),
{
}

// ---------------------------------------------------------------------------
// The traced run
// ---------------------------------------------------------------------------

/// What holds at every step of a traced run: the trace is valid, a finished run
/// that never waited for quiescence stands above the exit address (and, where that
/// is asked for, on a freshly written address outside of ROM), and one that did wait
/// has seen a hand-off and ends in silence or with the machine. A run that is to wait
/// from the start does, and a crossing is never recorded without a first hand-off.
spec fn chase_invariant(d: Definition, s: Chase) -> bool {
    &&& trace_valid(s.trace)
    &&& d.run.exit_quiescent > 0 ==> s.quiescent > 0
    &&& s.last_crossing is Some ==> s.first_candidate is Some
    &&& s.ok && s.quiescent > 0 ==> has_candidate(s) && (is_quiet(s) || !is_running(s.machine.cpu))
    &&& s.ok && s.quiescent == 0 ==> {
        let pc = s.machine.cpu.pc;
        &&& pc > d.run.exit_above
        &&& d.run.exit_into_written ==> s.trace.written.contains(pc) && !is_rom(pc) && pc >= 0x0600
    }
}

proof fn step_keeps_invariant(d: Definition, sp0: u8, s: Chase)
    requires
        chase_invariant(d, s),
        !s.ok,
    ensures
        chase_invariant(d, chase_step(d, sp0, s).1),
        chase_step(d, sp0, s).0 ==> !chase_step(d, sp0, s).1.ok,
        chase_step(d, sp0, s).1.steps <= s.steps + 1,
        chase_step(d, sp0, s).1.steps >= s.steps,
        chase_step(d, sp0, s).0 ==> chase_step(d, sp0, s).1.steps == s.steps + 1,
        ({
            let (more, t) = chase_step(d, sp0, s);
            more || t.ok || !(t.quiescent > 0 && has_candidate(t))
        }),
{
    let m = machine_stepped(s.machine);
    following_keeps_valid(s.trace, m.cpu, s.machine.cpu.pc, m.mem.io_banked_in());
    cleaning_keeps_valid(s.trace, 0);
    cleaning_keeps_valid(flushed(s.trace), 16);
    if is_running(m.cpu) {
        let t = advanced(s);
        cleaning_keeps_valid(t.trace, 0);
        cleaning_keeps_valid(flushed(t.trace), 16);
    }
}

proof fn chase_keeps_invariant(d: Definition, sp0: u8, s: Chase, fuel: nat)
    requires
        chase_invariant(d, s),
        !s.ok,
    ensures
        chase_invariant(d, chase(d, sp0, s, fuel)),
        s.steps <= chase(d, sp0, s, fuel).steps <= s.steps + fuel,
        ({
            let t = chase(d, sp0, s, fuel);
            t.ok || t.steps == s.steps + fuel || !(t.quiescent > 0 && has_candidate(t))
        }),
    decreases fuel,
{
    if fuel > 0 {
        step_keeps_invariant(d, sp0, s);
        let (more, t) = chase_step(d, sp0, s);
        if more {
            chase_keeps_invariant(d, sp0, t, (fuel - 1) as nat);
        }
    }
}

/// A traced run never takes more instructions than its cap, and its trace is valid.
pub proof fn traced_run_is_bounded(d: Definition, m: Machine)
    ensures
        0 <= chased(d, m).steps <= d.run.cap,
        trace_valid(chased(d, m).trace),
{
    empty_trace_is_valid();
    let s = chase_start(d, m);
    chase_keeps_invariant(d, m.cpu.sp, s, d.run.cap as nat);
    let t = chase(d, m.cpu.sp, s, d.run.cap as nat);
    cleaning_keeps_valid(t.trace, 0);
    cleaning_keeps_valid(flushed(t.trace), 16);
}

proof fn empty_trace_is_valid()
    ensures
        trace_valid(empty_trace()),
{
}

/// An immediate exit means that the PC jumped above the exit address. Where the
/// exit must go into written memory, the PC stands on an address the depacker
/// itself wrote, outside of ROM.
pub proof fn immediate_exit_is_above(d: Definition, m: Machine)
    requires
        chased(d, m).ok,
        chased(d, m).quiescent == 0,
    ensures
        chased(d, m).machine.cpu.pc > d.run.exit_above,
        d.run.exit_into_written ==> {
            &&& chased(d, m).trace.written.contains(chased(d, m).machine.cpu.pc)
            &&& !is_rom(chased(d, m).machine.cpu.pc)
        },
{
    empty_trace_is_valid();
    let s = chase_start(d, m);
    chase_keeps_invariant(d, m.cpu.sp, s, d.run.cap as nat);
}

/// A run that waits for quiescence ends well only after a hand-off was seen, and then
/// only when no new address was written for that many instructions, when the machine
/// halts, or at the cap.
pub proof fn quiescent_run_ends_in_silence(d: Definition, m: Machine)
    requires
        chased(d, m).ok,
        chased(d, m).quiescent > 0,
    ensures
        has_candidate(chased(d, m)),
        is_quiet(chased(d, m)) || !is_running(chased(d, m).machine.cpu) || chased(d, m).steps
            == d.run.cap,
{
    empty_trace_is_valid();
    let s = chase_start(d, m);
    chase_keeps_invariant(d, m.cpu.sp, s, d.run.cap as nat);
}

/// A run that waits for quiescence keeps the first hand-off it accepts, whatever
/// follows.
pub proof fn first_hand_off_is_kept(d: Definition, sp0: u8, s: Chase, fuel: nat)
    requires
        s.quiescent > 0,
    ensures
        forall|crossing: bool|
            s.first_candidate is None ==> (#[trigger] accepted(s, crossing)).1.first_candidate
                == Some(s.machine.cpu.pc),
        s.first_candidate is Some ==> settled(chase(d, sp0, s, fuel)).first_candidate
            == s.first_candidate,
    decreases fuel,
{
    if fuel > 0 && s.first_candidate is Some {
        let (more, t) = chase_step(d, sp0, s);
        assert(t.first_candidate == s.first_candidate);
        if more {
            first_hand_off_is_kept(d, sp0, t, (fuel - 1) as nat);
        }
    }
}

/// Where a definition asks for quiescence, a run that ends well has seen a hand-off,
/// and the first one is the run address that the payload is chosen with.
pub proof fn first_hand_off_is_reported(d: Definition, m: Machine)
    requires
        d.run.exit_quiescent > 0,
        chased(d, m).ok,
    ensures
        chased(d, m).first_candidate == Some(run_address(d, chased(d, m))),
        first_pick(d, chased(d, m)).jump == run_address(d, chased(d, m)),
{
    empty_trace_is_valid();
    let s = chase_start(d, m);
    chase_keeps_invariant(d, m.cpu.sp, s, d.run.cap as nat);
}

// ---------------------------------------------------------------------------
// The choice of the payload
// ---------------------------------------------------------------------------

proof fn still_pass_is_closed(p: Pick, list: Seq<WriteRange>, i: int)
    requires
        0 <= i,
        grown_once(p, list, i).start == p.start,
        grown_once(p, list, i).end == p.end,
    ensures
        forall|j: int| i <= j < list.len() ==> grown_by(p, #[trigger] list[j]) == p,
    decreases list.len() - i,
{
    if i < list.len() {
        let q = grown_by(p, list[i]);
        growing_widens(q, list, i + 1);
        assert(q.start == p.start && q.end == p.end);
        assert(q == p);
        still_pass_is_closed(p, list, i + 1);
    }
}

/// The payload covers what it grew from, and nothing that remains overlaps or abuts
/// it without lying inside.
pub proof fn growth_is_complete(p: Pick, list: Seq<WriteRange>)
    ensures
        grown(p, list).start <= p.start,
        p.end <= grown(p, list).end,
        forall|j: int|
            0 <= j < list.len() ==> grown_by(grown(p, list), #[trigger] list[j]) == grown(p, list),
    decreases room(p),
{
    let g = grown_once(p, list, 0);
    growing_widens(p, list, 0);
    if g.start == p.start && g.end == p.end {
        still_pass_is_closed(p, list, 0);
    } else {
        growth_is_complete(g, list);
    }
}

/// A definition without special treatment.
pub open spec fn is_plain(d: Definition) -> bool {
    &&& !d.run.analyze_0100
    &&& !d.run.trim_page_overshoot
    &&& !d.run.use_guess_start
    &&& d.run.byteboozer_ptr is None
}

/// Without special treatment, a late stage, a memory wipe or a run address in ROM or
/// the stage zone, the program is the largest written range with its neighbours, and
/// only a listed start is snapped.
pub proof fn largest_range_is_the_program(d: Definition, s: Scene, p: Pick)
    requires
        is_plain(d),
        s.switch_instr is None,
        0x0600 <= p.jump < 0xA000 || 0xC000 <= p.jump < 0xD000,
        largest_picked(d, s, p).end < 0xCF00,
        !p.classified,
        first_largest(s.list) is Some,
    ensures
        ({
            let l = first_largest(s.list)->0;
            let q = largest_picked(d, s, p);
            let r = picked(d, None, s, p);
            &&& q.start <= l.low() && l.high() <= q.end
            &&& r.end == q.end
            &&& r.jump == p.jump
            &&& r.start == if d.run.snap_start.contains(q.start) {
                d.run.snap_to
            } else {
                q.start
            }
        }),
{
    reveal(picked);
    let l = first_largest(s.list)->0;
    let q0 = Pick { start: l.low(), end: l.high(), ..p };
    growth_is_complete(q0, s.list);
    growing_keeps_the_rest(q0, s.list);
}

/// The lowest address of one of the ranges; 0 where there is none.
pub open spec fn is_range_start(s: Scene, a: u16) -> bool {
    ||| s.list.len() == 0 && a == 0
    ||| exists|i: int| 0 <= i < s.list.len() && (#[trigger] s.list[i]).low() == a
}

/// A BASIC program at $0801: memory holds a SYS line, or VARTAB bounds a program.
pub open spec fn holds_basic(s: Scene) -> bool {
    let last = s.mem.visible_word(0x2D).wrapping_sub(1);
    ||| sys_target(s.mem.ram@) as u16 >= 0x0801
    ||| 0x0801 < last < 0xA000
}

/// The written data lines up with $0801: the copy and the reverse range start there,
/// or 25 bytes below, or cover it.
pub open spec fn lines_up(s: Scene) -> bool {
    &&& copy_then_reverse(s.list)
    &&& {
        let low = s.list[0].low();
        let high = s.list[1].high();
        low == 0x0801 || low == 0x07E8 || low <= 0x0801 <= high
    }
}

/// A guessed start with evidence behind it.
pub open spec fn is_backed_guess(s: Scene, a: u16) -> bool {
    exists|from: u16, jump: u16|
        a == guessed_start(s.mem.ram@, from) && #[trigger] guess_is_backed(s, a, from, jump)
}

/// What speaks for a start address: the decruncher wrote from there, or it is $0801
/// and there is a BASIC program or the written data lines up with it, or it is a
/// guess with evidence where guessing is on.
pub open spec fn is_supported(d: Definition, s: Scene, a: u16) -> bool {
    ||| is_range_start(s, a)
    ||| a == 0x0801 && (holds_basic(s) || lines_up(s))
    ||| d.run.use_guess_start && is_backed_guess(s, a)
}

proof fn pass_starts_at_a_range(s: Scene, p: Pick, i: int)
    requires
        0 <= i,
        is_range_start(s, p.start),
        s.list.len() > 0,
    ensures
        is_range_start(s, grown_once(p, s.list, i).start),
    decreases s.list.len() - i,
{
    if i < s.list.len() {
        let q = grown_by(p, s.list[i]);
        assert(s.list[i].low() == q.start || q.start == p.start);
        pass_starts_at_a_range(s, q, i + 1);
    }
}

proof fn growth_starts_at_a_range(s: Scene, p: Pick)
    requires
        is_range_start(s, p.start),
        s.list.len() > 0,
    ensures
        is_range_start(s, grown(p, s.list).start),
    decreases room(p),
{
    let g = grown_once(p, s.list, 0);
    growing_widens(p, s.list, 0);
    pass_starts_at_a_range(s, p, 0);
    if !(g.start == p.start && g.end == p.end) {
        growth_starts_at_a_range(s, g);
    }
}

proof fn member_starts_a_range(s: Scene, r: WriteRange)
    requires
        s.list.contains(r),
    ensures
        is_range_start(s, r.low()),
{
    let i = choose|i: int| 0 <= i < s.list.len() && s.list[i] == r;
    assert(s.list[i].low() == r.low());
}

proof fn largest_is_supported(d: Definition, s: Scene, p: Pick)
    requires
        is_range_start(s, p.start) || s.list.len() > 0,
    ensures
        is_range_start(s, largest_picked(d, s, p).start),
{
    largest_is_largest(s.list);
    if s.list.len() > 0 {
        let l = first_largest(s.list)->0;
        member_starts_a_range(s, l);
        let q = Pick {
            start: l.low(),
            end: l.high(),
            name: if d.run.analyze_0100 && l.reverse() {
                Some(d.name + " (reverse writer)"@)
            } else {
                p.name
            },
            ..p
        };
        growth_starts_at_a_range(s, q);
    }
}

proof fn late_stage_is_supported(s: Scene, p: Pick)
    requires
        is_range_start(s, p.start),
    ensures
        is_range_start(s, late_stage_picked(s, p).start),
{
    if s.switch_instr is Some {
        let keep = staged_since(s.switch_instr->0, packed_len(s.mem) as int / 2);
        largest_is_largest(s.list.filter(keep));
        filter_only_keeps(s.list, keep);
        if last_largest(s.list.filter(keep)) is Some {
            member_starts_a_range(s, last_largest(s.list.filter(keep))->0);
        }
    }
}

proof fn stream_is_in_the_list(list: Seq<WriteRange>, ptr: u8, i: int)
    requires
        0 <= i <= list.len(),
    ensures
        0 <= forward_stream(list, ptr, i) <= list.len(),
    decreases list.len() - i,
{
    if i < list.len() {
        stream_is_in_the_list(list, ptr, i + 1);
    }
}

proof fn classified_start_is_supported(d: Definition, s: Scene, p: Pick)
    requires
        is_supported(d, s, p.start),
    ensures
        is_supported(d, s, behavior_classified(d, s, p).start),
        is_supported(
            d,
            s,
            byteboozer_classified(d, s, behavior_classified(d, s, p)).start,
        ),
{
    if copy_then_reverse(s.list) {
        member_starts_a_range(s, s.list[0]);
    }
    if d.run.byteboozer_ptr is Some {
        let i = forward_stream(s.list, d.run.byteboozer_ptr->0, 0);
        stream_is_in_the_list(s.list, d.run.byteboozer_ptr->0, 0);
        if i < s.list.len() {
            member_starts_a_range(s, s.list[i]);
        }
    }
}

proof fn guess_is_supported(d: Definition, s: Scene, p: Pick)
    requires
        is_supported(d, s, p.start),
    ensures
        is_supported(d, s, start_guessed(d, s, p).start),
{
    let guess = guessed_start(s.mem.ram@, p.start);
    if guess_is_backed(s, guess, p.start, p.jump) {
        assert(is_backed_guess(s, guess));
    }
}

/// Start addresses are never forced to $0801: whatever the run, there is a start that
/// something speaks for, and the reported start is that one, unless it is listed to
/// be snapped, or a variant corrects it.
pub proof fn starts_are_never_forced(
    d: Definition,
    variant: Option<Variant>,
    s: Scene,
    p: Pick,
)
    requires
        p.start == 0,
    ensures
        exists|a: u16| #[trigger]
            is_supported(d, s, a) && {
                let r = picked(d, variant, s, p);
                ||| r.start == a
                ||| variant is None && d.run.snap_start.contains(a) && r.start == d.run.snap_to
                ||| variant matches Some(v) && r.start == wrap16(a + v.start_adjust)
            },
{
    reveal(picked);
    let p1 = largest_picked(d, s, p);
    let p2 = late_stage_picked(s, p1);
    let p3 = basic_rebuilt(s, p2);
    let p4 = jump_corrected(s, p3);
    let p5 = basic_handed_over(s, p4);
    let p6 = behavior_classified(d, s, p5);
    let p7 = byteboozer_classified(d, s, p6);
    let p8 = start_guessed(d, s, p7);
    largest_is_supported(d, s, p);
    late_stage_is_supported(s, p1);
    assert(is_supported(d, s, p3.start));
    assert(p4.start == p3.start);
    assert(is_supported(d, s, p5.start));
    classified_start_is_supported(d, s, p5);
    guess_is_supported(d, s, p7);
    assert(is_supported(d, s, p8.start));
}

proof fn pass_keeps_the_rest(p: Pick, list: Seq<WriteRange>, i: int)
    requires
        0 <= i,
    ensures
        grown_once(p, list, i).jump == p.jump,
        grown_once(p, list, i).name == p.name,
        grown_once(p, list, i).classified == p.classified,
        grown_once(p, list, i).real_start == p.real_start,
    decreases list.len() - i,
{
    if i < list.len() {
        pass_keeps_the_rest(grown_by(p, list[i]), list, i + 1);
    }
}

proof fn growing_keeps_the_rest(p: Pick, list: Seq<WriteRange>)
    ensures
        grown(p, list).jump == p.jump,
        grown(p, list).name == p.name,
        grown(p, list).classified == p.classified,
        grown(p, list).real_start == p.real_start,
    decreases room(p),
{
    let g = grown_once(p, list, 0);
    growing_widens(p, list, 0);
    pass_keeps_the_rest(p, list, 0);
    if !(g.start == p.start && g.end == p.end) {
        growing_keeps_the_rest(g, list);
    }
}

/// A classification stands as it is: neither a variant nor snapping changes it.
pub proof fn classification_stands(d: Definition, variant: Option<Variant>, p: Pick)
    requires
        p.classified,
    ensures
        refined(d, variant, p) == p,
{
}

} // verus!
