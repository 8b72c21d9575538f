//! Which part of memory is taken for the unpacked program, in terms of the written
//! ranges, the memory and the run address.

use vstd::prelude::*;

verus! {

use crate::config::{Definition, Variant};
use crate::engine::generic::{
    basic_handed_over, basic_rebuilt, behavior_classified, byteboozer_classified, forward_stream,
    grown, grown_by, grown_once, growing_widens, jump_corrected, largest_picked,
    late_stage_picked, overshoot_trimmed, payload_ranges, picked, raw_start_kept, refined,
    restored_mem, room, run_address, size_checked, staged_since, staging_of, start_guessed,
    written_by, average_pc, Pick, Scene,
};
use crate::engine::depack::Chase;
use crate::engine::laws::{growth_is_complete, is_plain};
use crate::pattern::{guessed_start, matches_at, sys_target};
use crate::ranges::{
    filter_only_keeps, first_largest, largest_is_largest, last_largest, sorted, WriteRange,
};

// ---------------------------------------------------------------------------
// The largest range and its neighbours
// ---------------------------------------------------------------------------

/// A payload that is at least as large as every range swallows its neighbours on both
/// sides: a range that overlaps the grown payload, or lies at most two addresses off it,
/// lies inside.
pub proof fn neighbours_are_swallowed(p: Pick, list: Seq<WriteRange>, j: int)
    requires
        p.start <= p.end,
        forall|i: int|
            0 <= i < list.len() ==> (#[trigger] list[i]).high() - list[i].low() <= p.end - p.start,
        0 <= j < list.len(),
    ensures
        ({
            let g = grown(p, list);
            let r = list[j];
            r.low() <= g.end + 2 && r.high() + 2 >= g.start ==> g.start <= r.low() && r.high()
                <= g.end
        }),
{
    growth_is_complete(p, list);
    let g = grown(p, list);
    let r = list[j];
    assert(grown_by(g, r) == g);
    assert(list[j].high() - list[j].low() <= p.end - p.start);
    if r.low() <= g.end + 2 && r.high() + 2 >= g.start && !(g.start <= r.low() && r.high()
        <= g.end) {
        let h = grown_by(g, r);
        if r.low() > g.start {
            assert(h.log.len() == g.log.len() + 1);
        } else if r.high() < g.end {
            assert(h.log.len() == g.log.len() + 1);
        }
    }
}

/// The largest range grows over everything that overlaps it or lies at most two addresses
/// off: where no page overshoot is trimmed, no range of the list straddles or abuts the
/// payload from outside.
pub proof fn payload_has_no_neighbours(d: Definition, s: Scene, p: Pick, j: int)
    requires
        !d.run.trim_page_overshoot,
        0 <= j < s.list.len(),
    ensures
        ({
            let q = largest_picked(d, s, p);
            let r = s.list[j];
            r.low() <= q.end + 2 && r.high() + 2 >= q.start ==> q.start <= r.low() && r.high()
                <= q.end
        }),
{
    largest_is_largest(s.list);
    let l = first_largest(s.list)->0;
    let q = Pick {
        start: l.low(),
        end: l.high(),
        name: if d.run.analyze_0100 && l.reverse() {
            Some(d.name + " (reverse writer)"@)
        } else {
            p.name
        },
        ..p
    };
    assert forall|i: int| 0 <= i < s.list.len() implies (#[trigger] s.list[i]).high()
        - s.list[i].low() <= q.end - q.start by {
        assert(s.list[i].extent() <= l.extent());
    }
    neighbours_are_swallowed(q, s.list, j);
}

proof fn pass_stays_inside(p: Pick, list: Seq<WriteRange>, i: int, lo: int, hi: int)
    requires
        0 <= i,
        lo <= p.start,
        p.end <= hi,
        p.start <= p.end,
        forall|j: int|
            0 <= j < list.len() && (#[trigger] list[j]).low() <= hi + 2 && list[j].high() + 2 >= lo
                ==> lo <= list[j].low() && list[j].high() <= hi,
    ensures
        lo <= grown_once(p, list, i).start,
        grown_once(p, list, i).end <= hi,
        grown_once(p, list, i).start <= grown_once(p, list, i).end,
    decreases list.len() - i,
{
    if i < list.len() {
        let r = list[i];
        let q = grown_by(p, r);
        assert(list[i].low() <= list[i].high());
        pass_stays_inside(q, list, i + 1, lo, hi);
    }
}

/// Growing goes no further than it must: whatever stretch of memory holds the payload and
/// has no range that overlaps it from outside or lies at most two addresses off, holds the
/// grown payload too.
pub proof fn growth_is_least(p: Pick, list: Seq<WriteRange>, lo: int, hi: int)
    requires
        lo <= p.start,
        p.end <= hi,
        p.start <= p.end,
        forall|j: int|
            0 <= j < list.len() && (#[trigger] list[j]).low() <= hi + 2 && list[j].high() + 2 >= lo
                ==> lo <= list[j].low() && list[j].high() <= hi,
    ensures
        lo <= grown(p, list).start,
        grown(p, list).end <= hi,
    decreases room(p),
{
    let g = grown_once(p, list, 0);
    growing_widens(p, list, 0);
    pass_stays_inside(p, list, 0, lo, hi);
    if !(g.start == p.start && g.end == p.end) {
        growth_is_least(g, list, lo, hi);
    }
}

/// The payload holds the largest range, and is exactly that where no other range overlaps
/// it or lies at most two addresses off.
pub proof fn lone_largest_range_is_the_payload(d: Definition, s: Scene, p: Pick, k: int)
    requires
        !d.run.trim_page_overshoot,
        0 <= k < s.list.len(),
        first_largest(s.list) == Some(s.list[k]),
        forall|j: int|
            0 <= j < s.list.len() && j != k ==> (#[trigger] s.list[j]).low() > s.list[k].high() + 2
                || s.list[j].high() + 2 < s.list[k].low(),
    ensures
        largest_picked(d, s, p).start == s.list[k].low(),
        largest_picked(d, s, p).end == s.list[k].high(),
        largest_picked(d, s, p).jump == p.jump,
{
    let l = s.list[k];
    let q = Pick {
        start: l.low(),
        end: l.high(),
        name: if d.run.analyze_0100 && l.reverse() {
            Some(d.name + " (reverse writer)"@)
        } else {
            p.name
        },
        ..p
    };
    growth_is_complete(q, s.list);
    growth_is_least(q, s.list, l.low() as int, l.high() as int);
    growing_keeps_the_jump(q, s.list);
}

proof fn pass_keeps_the_jump(p: Pick, list: Seq<WriteRange>, i: int)
    requires
        0 <= i,
    ensures
        grown_once(p, list, i).jump == p.jump,
        grown_once(p, list, i).classified == p.classified,
        grown_once(p, list, i).real_start == p.real_start,
        grown_once(p, list, i).name == p.name,
    decreases list.len() - i,
{
    if i < list.len() {
        pass_keeps_the_jump(grown_by(p, list[i]), list, i + 1);
    }
}

proof fn growing_keeps_the_jump(p: Pick, list: Seq<WriteRange>)
    ensures
        grown(p, list).jump == p.jump,
        grown(p, list).classified == p.classified,
        grown(p, list).real_start == p.real_start,
        grown(p, list).name == p.name,
    decreases room(p),
{
    let g = grown_once(p, list, 0);
    growing_widens(p, list, 0);
    pass_keeps_the_jump(p, list, 0);
    if !(g.start == p.start && g.end == p.end) {
        growing_keeps_the_jump(g, list);
    }
}

proof fn picking_keeps_the_jump(d: Definition, s: Scene, p: Pick)
    ensures
        largest_picked(d, s, p).jump == p.jump,
        largest_picked(d, s, p).classified == p.classified,
        largest_picked(d, s, p).real_start == p.real_start,
        !(d.run.analyze_0100) ==> largest_picked(d, s, p).name == p.name,
{
    if first_largest(s.list) is Some {
        let l = first_largest(s.list)->0;
        let q = Pick {
            start: l.low(),
            end: l.high(),
            name: if d.run.analyze_0100 && l.reverse() {
                Some(d.name + " (reverse writer)"@)
            } else {
                p.name
            },
            ..p
        };
        growing_keeps_the_jump(q, s.list);
    }
}

/// A range that may hold the exact size of `l`: it lies elsewhere and is smaller by at most
/// 255 bytes.
pub open spec fn is_staging(r: WriteRange, l: WriteRange) -> bool {
    r.low() != l.low() && 0 < l.extent() - r.extent() <= 255
}

/// A page overshoot is trimmed on request only, and only where a staging range says so: the
/// payload then ends where it has the size of the largest staging range.
#[verifier::rlimit(40)]
pub proof fn overshoot_is_trimmed_by_staging(
    d: Definition,
    list: Seq<WriteRange>,
    l: WriteRange,
    p: Pick,
)
    ensures
        ({
            let q = overshoot_trimmed(d, list, l, p);
            let staged = exists|i: int| 0 <= i < list.len() && is_staging(#[trigger] list[i], l);
            &&& q.start == p.start && q.jump == p.jump && q.name == p.name
            &&& !d.run.trim_page_overshoot || !staged ==> q.end == p.end
            &&& d.run.trim_page_overshoot && staged ==> exists|i: int|
                {
                    &&& 0 <= i < list.len()
                    &&& is_staging(#[trigger] list[i], l)
                    &&& forall|j: int|
                        0 <= j < list.len() && is_staging(#[trigger] list[j], l) ==> list[j].extent()
                            <= list[i].extent()
                    &&& q.end as int == l.low() + list[i].extent() - 1
                }
        }),
{
    let f = list.filter(staging_of(l));
    largest_is_largest(f);
    filter_only_keeps(list, staging_of(l));
    let staged = exists|i: int| 0 <= i < list.len() && is_staging(#[trigger] list[i], l);
    if f.len() > 0 {
        let r = last_largest(f)->0;
        assert(f.contains(r));
        assert(staging_of(l)(r) && list.contains(r));
        let i = choose|i: int| 0 <= i < list.len() && list[i] == r;
        assert(is_staging(list[i], l));
        assert forall|j: int| 0 <= j < list.len() && is_staging(#[trigger] list[j], l) implies
            list[j].extent() <= list[i].extent() by {
            assert(staging_of(l)(list[j]));
            kept_by_filter(list, staging_of(l), j);
            let k = choose|k: int| 0 <= k < f.len() && f[k] == list[j];
            assert(f[k].extent() <= r.extent());
        }
    } else if staged {
        let j = choose|j: int| 0 <= j < list.len() && is_staging(#[trigger] list[j], l);
        assert(staging_of(l)(list[j]));
        kept_by_filter(list, staging_of(l), j);
    }
}

proof fn kept_by_filter(s: Seq<WriteRange>, keep: spec_fn(WriteRange) -> bool, i: int)
    requires
        0 <= i < s.len(),
        keep(s[i]),
    ensures
        s.filter(keep).contains(s[i]),
        s.filter(keep).len() > 0,
    decreases s.len(),
{
    reveal(Seq::filter);
    let front = s.drop_last();
    let f = front.filter(keep);
    let t = s.filter(keep);
    if i == s.len() - 1 {
        assert(t == f.push(s[i]));
        assert(t[f.len() as int] == s[i]);
    } else {
        assert(front[i] == s[i]);
        kept_by_filter(front, keep, i);
        let k = choose|k: int| 0 <= k < f.len() && f[k] == s[i];
        assert(t[k] == s[i]);
    }
}

// ---------------------------------------------------------------------------
// What a run hands on
// ---------------------------------------------------------------------------

/// Ranges that began after the last hand-off are left out, unless that leaves none; without
/// a hand-off every range stays.
pub proof fn later_ranges_are_left_out(s: Chase, i: int)
    requires
        0 <= i < sorted(s.trace.ranges, false).len(),
    ensures
        ({
            let r = sorted(s.trace.ranges, false)[i];
            &&& s.crossing_instr is None ==> payload_ranges(s) == sorted(s.trace.ranges, false)
            &&& s.crossing_instr matches Some(n) ==> (r.first_write_instr <= n
                ==> payload_ranges(s).contains(r))
            &&& s.crossing_instr matches Some(n) ==> (r.first_write_instr <= n ==> (forall|j: int|
                0 <= j < payload_ranges(s).len() ==> (
                #[trigger] payload_ranges(s)[j]).first_write_instr <= n))
        }),
{
    let all = sorted(s.trace.ranges, false);
    if s.crossing_instr is Some {
        let keep = written_by(s.crossing_instr->0);
        if all[i].first_write_instr <= s.crossing_instr->0 {
            assert(keep(all[i]));
            kept_by_filter(all, keep, i);
            filter_only_keeps(all, keep);
            let kept = all.filter(keep);
            assert forall|j: int| 0 <= j < payload_ranges(s).len() implies (
            #[trigger] payload_ranges(s)[j]).first_write_instr <= s.crossing_instr->0 by {
                assert(kept.contains(kept[j]));
            }
        }
    }
}

/// The payload is read from RAM as it stood at the last hand-off, where there was one and a
/// copy was kept; ROM, I/O and the load notes are those of the machine.
pub proof fn memory_is_that_of_the_hand_off(s: Chase)
    ensures
        ({
            let m = restored_mem(s);
            &&& s.last_crossing is Some && s.handoff_ram is Some ==> m.ram == s.handoff_ram->0
            &&& s.last_crossing is None || s.handoff_ram is None ==> m.ram == s.machine.mem.ram
            &&& m.io == s.machine.mem.io && m.kernal == s.machine.mem.kernal
            &&& m.prg_start == s.machine.mem.prg_start && m.prg_end == s.machine.mem.prg_end
        }),
{
}

/// A definition that waits for quiescence reports the first hand-off, any other the last
/// one; where only the other kind was seen, that one, and where none was, the place where
/// the run ended.
pub proof fn hand_off_that_counts(d: Definition, s: Chase)
    ensures
        ({
            let a = run_address(d, s);
            let waits = d.run.exit_quiescent > 0;
            &&& waits && s.first_candidate is Some ==> a == s.first_candidate->0
            &&& !waits && s.last_crossing is Some ==> a == s.last_crossing->0
            &&& waits && s.first_candidate is None && s.last_crossing is Some ==> a
                == s.last_crossing->0
            &&& !waits && s.last_crossing is None && s.first_candidate is Some ==> a
                == s.first_candidate->0
            &&& s.first_candidate is None && s.last_crossing is None ==> a == s.machine.cpu.pc
        }),
{
}

/// The average program counter is the sum of the counters over the number of steps.
pub proof fn average_is_sum_over_steps(s: Chase)
    requires
        s.steps > 0,
        s.pc_sum >= 0,
    ensures
        average_pc(s) * s.steps <= s.pc_sum,
        s.pc_sum < (average_pc(s) + 1) * s.steps,
{
    vstd::arithmetic::div_mod::lemma_fundamental_div_mod(s.pc_sum as int, s.steps as int);
    vstd::arithmetic::div_mod::lemma_mod_bound(s.pc_sum as int, s.steps as int);
    vstd::arithmetic::mul::lemma_mul_is_commutative(average_pc(s), s.steps as int);
    vstd::arithmetic::mul::lemma_mul_is_distributive_add(
        s.steps as int,
        average_pc(s),
        1,
    );
    vstd::arithmetic::mul::lemma_mul_is_commutative(average_pc(s) + 1, s.steps as int);
}

// ---------------------------------------------------------------------------
// The choice from end to end
// ---------------------------------------------------------------------------

/// The range was written by a final stage: not before the switch, and at least half as
/// large as the crunched file.
pub open spec fn by_final_stage(s: Scene, r: WriteRange, switch: u64) -> bool {
    r.first_write_instr >= switch && r.extent() >= (s.mem.prg_end - s.mem.prg_start + 1) / 2
}

/// In a run that switched to quiescence, the largest range that a final stage wrote is the
/// payload, whatever was the largest before; where there is none, nothing changes.
#[verifier::rlimit(40)]
pub proof fn final_stage_takes_over(s: Scene, p: Pick, switch: u64)
    requires
        s.switch_instr == Some(switch),
        s.mem.prg_start <= s.mem.prg_end,
    ensures
        ({
            let q = late_stage_picked(s, p);
            let some = exists|i: int|
                0 <= i < s.list.len() && by_final_stage(s, #[trigger] s.list[i], switch);
            &&& !some ==> q == p
            &&& some ==> exists|i: int|
                {
                    &&& 0 <= i < s.list.len()
                    &&& by_final_stage(s, #[trigger] s.list[i], switch)
                    &&& forall|j: int|
                        0 <= j < s.list.len() && by_final_stage(s, #[trigger] s.list[j], switch)
                            ==> s.list[j].extent() <= s.list[i].extent()
                    &&& q.start == s.list[i].low() && q.end == s.list[i].high()
                    &&& q.real_start == s.list[i].low()
                    &&& q.classified && q.jump == p.jump && q.name == p.name
                }
        }),
{
    let least = (s.mem.prg_end - s.mem.prg_start + 1) / 2;
    assert(crate::engine::generic::packed_len(s.mem) as int / 2 == least);
    let keep = staged_since(switch, least);
    let f = s.list.filter(keep);
    largest_is_largest(f);
    filter_only_keeps(s.list, keep);
    if f.len() > 0 {
        let r = last_largest(f)->0;
        assert(f.contains(r));
        assert(keep(r) && s.list.contains(r));
        let i = choose|i: int| 0 <= i < s.list.len() && s.list[i] == r;
        assert(by_final_stage(s, s.list[i], switch));
        assert forall|j: int| 0 <= j < s.list.len() && by_final_stage(
            s,
            #[trigger] s.list[j],
            switch,
        ) implies s.list[j].extent() <= s.list[i].extent() by {
            assert(keep(s.list[j]));
            kept_by_filter(s.list, keep, j);
            let k = choose|k: int| 0 <= k < f.len() && f[k] == s.list[j];
            assert(f[k].extent() <= r.extent());
        }
    } else {
        assert forall|j: int| 0 <= j < s.list.len() implies !by_final_stage(
            s,
            #[trigger] s.list[j],
            switch,
        ) by {
            if by_final_stage(s, s.list[j], switch) {
                assert(keep(s.list[j]));
                kept_by_filter(s.list, keep, j);
            }
        }
    }
}

/// Without a switch to quiescence no final stage is looked for.
pub proof fn no_switch_no_final_stage(s: Scene, p: Pick)
    requires
        s.switch_instr is None,
    ensures
        late_stage_picked(s, p) == p,
{
}

/// A BASIC line with a SYS into the payload counts after a switch to quiescence, and where
/// the payload reaches $CF00: the program then starts at $0801 and runs from the SYS, and
/// VARTAB, where the depacker set it to a place in the payload behind the SYS and below
/// $A000, says where it ends.
#[verifier::rlimit(40)]
pub proof fn rebuilt_line_is_the_program(s: Scene, p: Pick)
    ensures
        ({
            let sys = sys_target(s.mem.ram@) as u16;
            let q = basic_rebuilt(s, p);
            let counts = (s.switch_instr is Some || p.end >= 0xCF00) && 0x0801 <= sys && sys
                <= p.end;
            let vartab = s.mem.visible(0x2D) + 0x100 * s.mem.visible(0x2E);
            let bounded = vartab != (s.mem.prg_end + 1) % 0x1_0000 && sys + 1 < vartab <= 0xA000
                && vartab - 1 < p.end;
            &&& !counts ==> q == p
            &&& counts ==> q.start == 0x0801 && q.jump == sys && q.real_start == p.start
            &&& counts && bounded ==> q.end == vartab - 1
            &&& counts && !bounded ==> q.end == p.end
            &&& q.classified == p.classified && q.name == p.name
        }),
{
}

/// A run address from $D000 on, or from $0200 to $05FF, is replaced: by the SYS target of
/// the BASIC line in memory where that lies in the payload, and otherwise by the first byte
/// of the payload that is not zero. Any other run address stays, and so does the payload.
#[verifier::rlimit(40)]
pub proof fn meaningless_run_addresses_are_replaced(s: Scene, p: Pick, a: int)
    ensures
        ({
            let sys = sys_target(s.mem.ram@) as u16;
            let q = jump_corrected(s, p);
            let meaningless = p.jump >= 0xD000 || 0x0200 <= p.jump <= 0x05FF;
            let in_payload = sys != 0 && p.start <= sys && sys <= p.end;
            let zeros = forall|i: int| p.start <= i < a ==> #[trigger] s.mem.ram@[i] == 0;
            &&& q.start == p.start && q.end == p.end && q.real_start == p.real_start
            &&& q.classified == p.classified && q.name == p.name
            &&& !meaningless ==> q == p
            &&& meaningless && in_payload ==> q.jump == sys
            &&& meaningless && !in_payload && p.start < a <= p.end && s.mem.ram@[a] != 0 && zeros
                ==> q.jump == a
            &&& p.jump >= 0xD000 && !in_payload && a == p.start && p.start <= p.end
                && s.mem.ram@[a] != 0 ==> q.jump == a
            &&& p.jump < 0xD000 && !in_payload && p.start <= p.end && s.mem.ram@[p.start as int]
                != 0 ==> q.jump == p.jump
        }),
{
    let ram = s.mem.ram@.take(p.end + 1);
    if p.start <= a <= p.end {
        assert(ram[a] == s.mem.ram@[a]);
        if s.mem.ram@[a] != 0 && (forall|i: int|
            p.start <= i < a ==> #[trigger] s.mem.ram@[i] == 0) {
            first_nonzero_is(ram, p.start as int, a);
        }
    }
    if p.start <= p.end && s.mem.ram@[p.start as int] != 0 {
        assert(ram[p.start as int] == s.mem.ram@[p.start as int]);
        first_nonzero_is(ram, p.start as int, p.start as int);
    }
}

proof fn first_nonzero_is(ram: Seq<u8>, from: int, a: int)
    requires
        0 <= from <= a < ram.len(),
        ram[a] != 0,
        forall|i: int| from <= i < a ==> #[trigger] ram[i] == 0,
    ensures
        crate::pattern::first_nonzero(ram, from) == Some(a),
    decreases a - from,
{
    if from < a {
        assert(ram[from] == 0);
        first_nonzero_is(ram, from + 1, a);
    }
}

/// A run address from $A000 to $BFFF is the BASIC interpreter: where VARTAB points behind
/// $0802 and no higher than $A000, the program reaches from $0801 to the byte before it, and
/// that stands.
pub proof fn interpreter_runs_a_basic_program(s: Scene, p: Pick)
    ensures
        ({
            let q = basic_handed_over(s, p);
            let vartab = s.mem.visible(0x2D) + 0x100 * s.mem.visible(0x2E);
            let basic = 0xA000 <= p.jump <= 0xBFFF && 0x0802 < vartab <= 0xA000;
            &&& basic ==> q.start == 0x0801 && q.end == vartab - 1 && q.real_start == p.start
                && q.classified && q.jump == p.jump
            &&& !basic ==> q == p
        }),
{
}

/// Two ranges, a forward indexed copy and behind it, without a gap, a reverse range through
/// a pointer.
pub open spec fn copy_and_reverse(list: Seq<WriteRange>) -> bool {
    &&& list.len() == 2
    &&& list[0].is_forward == Some(true)
    &&& list[0].mode is AbsoluteX || list[0].mode is AbsoluteY
    &&& list[1].is_forward == Some(false)
    &&& list[1].mode is IndirectY
    &&& list[1].low() == list[0].high() + 1
    &&& list[1].high() > list[0].low()
}

/// Where it is asked for, a copy and a reverse range are told apart by the average program
/// counter. From $0101 to $033F it is Time Cruncher, and the program starts at $0801 where
/// the copy starts there or at $07E8, and at the copy otherwise. From $0401 to $076F, with a
/// copy that starts from $0601 to $07FE, it is Cruel Cruncher, and the program starts at
/// $0801 where the ranges hold that address. It ends with the reverse range. Anything else
/// stays as it is.
#[verifier::rlimit(40)]
pub proof fn copies_are_told_apart(d: Definition, s: Scene, p: Pick)
    ensures
        ({
            let q = behavior_classified(d, s, p);
            let both = d.run.analyze_0100 && copy_and_reverse(s.list);
            let low = s.list[0].low();
            let high = s.list[1].high();
            let time = both && 0x101 <= s.avg_pc <= 0x33F;
            let cruel = both && 0x401 <= s.avg_pc <= 0x76F && 0x601 <= low <= 0x7FE;
            &&& !time && !cruel ==> q == p
            &&& time || cruel ==> q.classified && q.end == high && q.real_start == low && q.jump
                == p.jump
            &&& time ==> q.name == Some("Time Cruncher 5.x-6.x"@)
            &&& time && (low == 0x0801 || low == 0x07E8) ==> q.start == 0x0801
            &&& time && low != 0x0801 && low != 0x07E8 ==> q.start == low
            &&& cruel && high >= 0x0801 ==> q.start == 0x0801
            &&& cruel && high < 0x0801 ==> q.start == low
            &&& cruel ==> q.name == Some("Cruel Cruncher"@) || q.name == Some(
                "Cruel Cruncher 2.x-3.x"@,
            )
        }),
{
}

/// The second name of Cruel Cruncher is given where its depack loop still stands at $0100.
pub proof fn cruel_version_is_read_from_memory(d: Definition, s: Scene, p: Pick)
    requires
        d.run.analyze_0100,
        copy_and_reverse(s.list),
        0x401 <= s.avg_pc <= 0x76F,
        0x601 <= s.list[0].low() <= 0x7FE,
    ensures
        matches_at(crate::engine::generic::cruel_2x_tokens(), s.mem.ram@, 0x0100)
            ==> behavior_classified(d, s, p).name == Some("Cruel Cruncher 2.x-3.x"@),
        !matches_at(crate::engine::generic::cruel_2x_tokens(), s.mem.ram@, 0x0100)
            ==> behavior_classified(d, s, p).name == Some("Cruel Cruncher"@),
{
}

proof fn first_forward_stream(list: Seq<WriteRange>, ptr: u8, i: int, k: int)
    requires
        0 <= i <= k <= list.len(),
        k < list.len() ==> streams_forward(list[k], ptr),
        forall|j: int| i <= j < k ==> !streams_forward(#[trigger] list[j], ptr),
    ensures
        forward_stream(list, ptr, i) == k,
    decreases k - i,
{
    if i < k {
        assert(!streams_forward(list[i], ptr));
        first_forward_stream(list, ptr, i + 1, k);
    }
}

/// Written forward through `(ptr),Y`.
pub open spec fn streams_forward(r: WriteRange, ptr: u8) -> bool {
    r.mode is IndirectY && r.is_forward == Some(true) && r.base_ptr == ptr
}

/// A definition that names an output pointer takes the first range written forward through
/// it for the program, under the name it gives, whatever else speaks of the run. Where it
/// says so, the program ends at the address the pointer holds.
#[verifier::rlimit(40)]
pub proof fn named_pointer_is_the_program(
    d: Definition,
    variant: Option<Variant>,
    s: Scene,
    p: Pick,
    ptr: u8,
    k: int,
)
    requires
        d.run.byteboozer_ptr == Some(ptr),
        0 <= k < s.list.len(),
        streams_forward(s.list[k], ptr),
        forall|j: int| 0 <= j < k ==> !streams_forward(#[trigger] s.list[j], ptr),
    ensures
        ({
            let q = picked(d, variant, s, p);
            &&& q.start == s.list[k].low()
            &&& q.name == Some(d.run.byteboozer_name)
            &&& !d.run.byteboozer_end_from_ptr ==> q.end == s.list[k].high()
            &&& d.run.byteboozer_end_from_ptr ==> q.end as int == s.mem.visible(ptr as u16) + 0x100
                * s.mem.visible((ptr + 1) as u16)
        }),
{
    let p6 = before_the_pointer(d, s, p);
    let p7 = byteboozer_classified(d, s, p6);
    first_forward_stream(s.list, ptr, 0, k);
    classified_stays(d, variant, s, p7);
    assert(picked(d, variant, s, p) == after_the_pointer(d, variant, s, p7)) by {
        reveal(picked);
        reveal(before_the_pointer);
        reveal(after_the_pointer);
    }
}

#[verifier::opaque]
spec fn before_the_pointer(d: Definition, s: Scene, p: Pick) -> Pick {
    let p3 = basic_rebuilt(s, late_stage_picked(s, largest_picked(d, s, p)));
    behavior_classified(d, s, basic_handed_over(s, jump_corrected(s, p3)))
}

#[verifier::opaque]
spec fn after_the_pointer(d: Definition, variant: Option<Variant>, s: Scene, p: Pick) -> Pick {
    let p9 = raw_start_kept(start_guessed(d, s, p));
    refined(d, variant, size_checked(s, p9))
}

proof fn classified_stays(d: Definition, variant: Option<Variant>, s: Scene, p: Pick)
    requires
        p.classified,
    ensures
        after_the_pointer(d, variant, s, p).start == p.start,
        after_the_pointer(d, variant, s, p).end == p.end,
        after_the_pointer(d, variant, s, p).name == p.name,
        after_the_pointer(d, variant, s, p).jump == p.jump,
{
    reveal(after_the_pointer);
}

/// Where no range was written forward through the named pointer, or none is named, nothing
/// changes.
pub proof fn unnamed_pointers_change_nothing(d: Definition, s: Scene, p: Pick)
    requires
        d.run.byteboozer_ptr matches Some(ptr) ==> forall|j: int|
            0 <= j < s.list.len() ==> !streams_forward(#[trigger] s.list[j], ptr),
    ensures
        byteboozer_classified(d, s, p) == p,
{
    if d.run.byteboozer_ptr is Some {
        first_forward_stream(s.list, d.run.byteboozer_ptr->0, 0, s.list.len() as int);
    }
}

/// A guessed start is taken on request only, for a payload that nothing classified: not
/// where the program runs from between the written start and the guess, and a guess that
/// lies more than eight bytes below only with something to back it. The written start is
/// reported either way.
#[verifier::rlimit(40)]
pub proof fn guesses_need_backing(d: Definition, s: Scene, p: Pick)
    ensures
        ({
            let q = start_guessed(d, s, p);
            let guess = guessed_start(s.mem.ram@, p.start);
            let sys = sys_target(s.mem.ram@) as u16;
            let asked = d.run.use_guess_start && s.list.len() > 0 && !p.classified;
            let run_below = p.start <= p.jump && p.jump < guess;
            let backed = p.start - guess <= 8 || (exists|a: u16|
                guess <= a < p.start && #[trigger] s.trace.written.contains(a)) || (sys != 0 && sys
                == p.jump) || (guess <= p.jump && p.jump < p.start);
            &&& q.end == p.end && q.jump == p.jump && q.name == p.name
            &&& q.classified == p.classified
            &&& !asked ==> q == p
            &&& asked ==> q.real_start == p.start
            &&& asked && !run_below && backed ==> q.start == guess
            &&& asked && (run_below || !backed) ==> q.start == p.start
        }),
{
}

/// A classified payload is reported as it is. Otherwise a variant gives the name and moves
/// the start by its correction, modulo 65536; without a variant a listed start is replaced.
/// The end and the run address stay.
#[verifier::rlimit(40)]
pub proof fn variants_and_snapping(d: Definition, variant: Option<Variant>, p: Pick)
    ensures
        ({
            let q = refined(d, variant, p);
            &&& q.end == p.end && q.jump == p.jump && q.real_start == p.real_start
            &&& p.classified ==> q == p
            &&& !p.classified && variant is Some ==> q.name == Some(variant->0.name)
                && q.start as int == (p.start + variant->0.start_adjust) % 0x1_0000
            &&& !p.classified && variant is None ==> q.name == p.name
            &&& !p.classified && variant is None && d.run.snap_start.contains(p.start) ==> q.start
                == d.run.snap_to
            &&& !p.classified && variant is None && !d.run.snap_start.contains(p.start) ==> q.start
                == p.start
        }),
{
}

/// A warning is logged exactly when the payload is no larger than the crunched file; the
/// payload itself stays.
pub proof fn small_payloads_are_suspicious(s: Scene, p: Pick)
    requires
        s.mem.prg_start <= s.mem.prg_end,
    ensures
        ({
            let q = size_checked(s, p);
            let small = p.start <= p.end && p.end - p.start <= s.mem.prg_end - s.mem.prg_start;
            &&& q.start == p.start && q.end == p.end && q.jump == p.jump && q.name == p.name
            &&& small ==> q.log.len() == p.log.len() + 1
            &&& !small ==> q == p
        }),
{
}

/// From end to end, without special treatment and with a run address in ordinary memory: in
/// a run that never switched, with a payload below $CF00, the payload is what the largest
/// range grew to; the written start is its start, and a variant names it and moves it.
#[verifier::rlimit(40)]
pub proof fn plain_runs_report_the_payload(
    d: Definition,
    variant: Option<Variant>,
    s: Scene,
    p: Pick,
)
    requires
        is_plain(d),
        s.switch_instr is None,
        0x0600 <= p.jump < 0xA000 || 0xC000 <= p.jump < 0xD000,
        largest_picked(d, s, p).end < 0xCF00,
        !p.classified,
        p.real_start == 0,
    ensures
        ({
            let q = largest_picked(d, s, p);
            let r = picked(d, variant, s, p);
            &&& r.end == q.end
            &&& r.jump == p.jump
            &&& r.real_start == q.start
            &&& variant is None ==> r.name == p.name
            &&& variant matches Some(v) ==> r.name == Some(v.name) && r.start as int == (q.start
                + v.start_adjust) % 0x1_0000
            &&& variant is None && !d.run.snap_start.contains(q.start) ==> r.start == q.start
        }),
{
    reveal(picked);
    picking_keeps_the_jump(d, s, p);
}

/// From end to end after a switch to quiescence: where a final stage wrote the payload and
/// memory holds no SYS line, the payload is reported as that stage wrote it, whatever the
/// variant.
#[verifier::rlimit(40)]
pub proof fn final_stages_are_reported(
    d: Definition,
    variant: Option<Variant>,
    s: Scene,
    p: Pick,
)
    requires
        is_plain(d),
        s.switch_instr is Some,
        late_stage_picked(s, largest_picked(d, s, p)).classified,
        sys_target(s.mem.ram@) == 0,
        0x0600 <= p.jump < 0xA000 || 0xC000 <= p.jump < 0xD000,
        !p.classified,
    ensures
        ({
            let q = late_stage_picked(s, largest_picked(d, s, p));
            let r = picked(d, variant, s, p);
            r.start == q.start && r.end == q.end && r.jump == p.jump
        }),
{
    reveal(picked);
    picking_keeps_the_jump(d, s, p);
}

/// From end to end for a run that ends in the BASIC interpreter: without special treatment,
/// a switch or a payload that reaches $CF00, and with VARTAB in the program area, the BASIC
/// program is reported, whatever the variant.
#[verifier::rlimit(40)]
pub proof fn basic_programs_are_reported(
    d: Definition,
    variant: Option<Variant>,
    s: Scene,
    p: Pick,
)
    requires
        is_plain(d),
        s.switch_instr is None,
        largest_picked(d, s, p).end < 0xCF00,
        0xA000 <= p.jump < 0xC000,
        0x0802 < s.mem.visible(0x2D) + 0x100 * s.mem.visible(0x2E) <= 0xA000,
    ensures
        ({
            let r = picked(d, variant, s, p);
            &&& r.start == 0x0801
            &&& r.end == s.mem.visible(0x2D) + 0x100 * s.mem.visible(0x2E) - 1
            &&& r.jump == p.jump
        }),
{
    reveal(picked);
    picking_keeps_the_jump(d, s, p);
}

/// From end to end for the two crunchers that are told by their behavior: without a named
/// output pointer, and whatever the variant, the program is that of the copy and the reverse
/// range.
#[verifier::rlimit(40)]
pub proof fn told_crunchers_are_reported(
    d: Definition,
    variant: Option<Variant>,
    s: Scene,
    p: Pick,
)
    requires
        d.run.analyze_0100,
        d.run.byteboozer_ptr is None,
        copy_and_reverse(s.list),
        0x101 <= s.avg_pc <= 0x33F || (0x401 <= s.avg_pc <= 0x76F && 0x601 <= s.list[0].low()
            <= 0x7FE),
    ensures
        ({
            let r = picked(d, variant, s, p);
            &&& r.end == s.list[1].high()
            &&& s.avg_pc <= 0x33F ==> r.name == Some("Time Cruncher 5.x-6.x"@)
            &&& s.avg_pc <= 0x33F && s.list[0].low() == 0x07E8 ==> r.start == 0x0801
            &&& s.avg_pc <= 0x33F && s.list[0].low() != 0x07E8 ==> r.start == s.list[0].low()
            &&& s.avg_pc > 0x33F ==> r.name == Some("Cruel Cruncher"@) || r.name == Some(
                "Cruel Cruncher 2.x-3.x"@,
            )
            &&& s.avg_pc > 0x33F && s.list[1].high() >= 0x0801 ==> r.start == 0x0801
        }),
{
    let p6 = before_the_pointer(d, s, p);
    assert(p6.classified && p6.end == s.list[1].high()) by {
        reveal(before_the_pointer);
    }
    told_by_behavior(d, s, p);
    unnamed_pointers_change_nothing(d, s, p6);
    classified_stays(d, variant, s, p6);
    assert(picked(d, variant, s, p) == after_the_pointer(d, variant, s, p6)) by {
        reveal(picked);
        reveal(before_the_pointer);
        reveal(after_the_pointer);
    }
}

#[verifier::rlimit(40)]
proof fn told_by_behavior(d: Definition, s: Scene, p: Pick)
    ensures
        exists|q: Pick| before_the_pointer(d, s, p) == #[trigger] behavior_classified(d, s, q),
        ({
            let r = before_the_pointer(d, s, p);
            let both = d.run.analyze_0100 && copy_and_reverse(s.list);
            let time = both && 0x101 <= s.avg_pc <= 0x33F;
            let cruel = both && 0x401 <= s.avg_pc <= 0x76F && 0x601 <= s.list[0].low() <= 0x7FE;
            &&& time ==> r.name == Some("Time Cruncher 5.x-6.x"@)
            &&& time && s.list[0].low() == 0x07E8 ==> r.start == 0x0801
            &&& time && s.list[0].low() != 0x07E8 ==> r.start == s.list[0].low()
            &&& cruel ==> r.name == Some("Cruel Cruncher"@) || r.name == Some(
                "Cruel Cruncher 2.x-3.x"@,
            )
            &&& cruel && s.list[1].high() >= 0x0801 ==> r.start == 0x0801
        }),
{
    reveal(before_the_pointer);
    let p3 = basic_rebuilt(s, late_stage_picked(s, largest_picked(d, s, p)));
    let q = basic_handed_over(s, jump_corrected(s, p3));
    assert(before_the_pointer(d, s, p) == behavior_classified(d, s, q));
}

/// From end to end for a rebuilt BASIC line: without special treatment or a switch, where the
/// payload reaches $CF00 and memory holds a SYS into it below $A000, the program starts at
/// $0801 and runs from that SYS.
#[verifier::rlimit(40)]
pub proof fn rebuilt_lines_are_reported(d: Definition, s: Scene, p: Pick)
    requires
        is_plain(d),
        s.switch_instr is None,
        largest_picked(d, s, p).end >= 0xCF00,
        0x0801 <= sys_target(s.mem.ram@) < 0xA000,
        !p.classified,
        p.real_start == 0,
        !d.run.snap_start.contains(0x0801),
    ensures
        ({
            let r = picked(d, None, s, p);
            &&& r.start == 0x0801
            &&& r.jump == sys_target(s.mem.ram@)
            &&& r.end <= largest_picked(d, s, p).end
        }),
{
    reveal(picked);
    picking_keeps_the_jump(d, s, p);
}

/// From end to end for a run address in ROM: without special treatment, a switch or a payload
/// that reaches $CF00, the SYS line of the program is reported in its place where it points
/// below $A000 into the payload.
#[verifier::rlimit(40)]
pub proof fn rom_addresses_give_way_to_the_line(d: Definition, s: Scene, p: Pick)
    requires
        is_plain(d),
        s.switch_instr is None,
        largest_picked(d, s, p).end < 0xCF00,
        p.jump >= 0xD000,
        !p.classified,
        p.real_start == 0,
        0 < sys_target(s.mem.ram@) < 0xA000,
        largest_picked(d, s, p).start <= sys_target(s.mem.ram@) <= largest_picked(d, s, p).end,
        !d.run.snap_start.contains(largest_picked(d, s, p).start),
    ensures
        ({
            let q = largest_picked(d, s, p);
            let r = picked(d, None, s, p);
            r.jump == sys_target(s.mem.ram@) && r.start == q.start && r.end == q.end
        }),
{
    reveal(picked);
    picking_keeps_the_jump(d, s, p);
}

/// From end to end for a guessed start: with guessing as the only special treatment, an
/// ordinary run address and a payload below $CF00, a guess at most eight bytes below the
/// written start is reported, unless the program runs from before it; the written start is
/// reported beside it.
#[verifier::rlimit(40)]
pub proof fn close_guesses_are_reported(d: Definition, s: Scene, p: Pick)
    requires
        d.run.use_guess_start,
        !d.run.analyze_0100,
        !d.run.trim_page_overshoot,
        d.run.byteboozer_ptr is None,
        s.list.len() > 0,
        s.switch_instr is None,
        0x0600 <= p.jump < 0xA000 || 0xC000 <= p.jump < 0xD000,
        largest_picked(d, s, p).end < 0xCF00,
        !p.classified,
        largest_picked(d, s, p).start != 0,
    ensures
        ({
            let q = largest_picked(d, s, p);
            let guess = guessed_start(s.mem.ram@, q.start);
            let r = picked(d, None, s, p);
            &&& r.end == q.end && r.jump == p.jump && r.real_start == q.start
            &&& q.start - guess <= 8 && !(q.start <= p.jump && p.jump < guess)
                && !d.run.snap_start.contains(guess) ==> r.start == guess
            &&& q.start <= p.jump && p.jump < guess && !d.run.snap_start.contains(q.start)
                ==> r.start == q.start
        }),
{
    reveal(picked);
    picking_keeps_the_jump(d, s, p);
}

/// Where every range began after the last hand-off, none is left out.
pub proof fn ranges_are_never_all_left_out(s: Chase, n: u64)
    requires
        s.crossing_instr == Some(n),
        forall|i: int|
            0 <= i < sorted(s.trace.ranges, false).len() ==> (#[trigger] sorted(
                s.trace.ranges,
                false,
            )[i]).first_write_instr > n,
    ensures
        payload_ranges(s) == sorted(s.trace.ranges, false),
{
    let all = sorted(s.trace.ranges, false);
    let kept = all.filter(written_by(n));
    filter_only_keeps(all, written_by(n));
    if kept.len() > 0 {
        assert(kept.contains(kept[0]));
        assert(written_by(n)(kept[0]) && all.contains(kept[0]));
        let i = choose|i: int| 0 <= i < all.len() && all[i] == kept[0];
        assert(all[i].first_write_instr > n);
    }
}

/// A largest range that was written in reverse is named as such where the family is analyzed;
/// any other keeps the name it had.
pub proof fn reverse_writers_are_named(d: Definition, s: Scene, p: Pick)
    ensures
        ({
            let q = largest_picked(d, s, p);
            let reverse = d.run.analyze_0100 && first_largest(s.list) is Some && first_largest(
                s.list,
            )->0.is_forward == Some(false);
            &&& reverse ==> q.name == Some(d.name + " (reverse writer)"@)
            &&& !reverse ==> q.name == p.name
            &&& first_largest(s.list) is None ==> q == p
        }),
{
    if first_largest(s.list) is Some {
        let l = first_largest(s.list)->0;
        let q = Pick {
            start: l.low(),
            end: l.high(),
            name: if d.run.analyze_0100 && l.reverse() {
                Some(d.name + " (reverse writer)"@)
            } else {
                p.name
            },
            ..p
        };
        growing_keeps_the_jump(q, s.list);
    }
}

/// With trimming on and a staging range, the largest range with its neighbours ends where it
/// has the size of the largest staging range.
#[verifier::rlimit(40)]
pub proof fn trimmed_payloads_have_the_staged_size(d: Definition, s: Scene, p: Pick, k: int)
    requires
        d.run.trim_page_overshoot,
        first_largest(s.list) is Some,
        0 <= k < s.list.len(),
        is_staging(s.list[k], first_largest(s.list)->0),
    ensures
        ({
            let l = first_largest(s.list)->0;
            let q = largest_picked(d, s, p);
            exists|i: int|
                {
                    &&& 0 <= i < s.list.len()
                    &&& is_staging(#[trigger] s.list[i], l)
                    &&& s.list[i].extent() >= s.list[k].extent()
                    &&& q.end as int == l.low() + s.list[i].extent() - 1
                }
        }),
{
    let l = first_largest(s.list)->0;
    let q = Pick {
        start: l.low(),
        end: l.high(),
        name: if d.run.analyze_0100 && l.reverse() {
            Some(d.name + " (reverse writer)"@)
        } else {
            p.name
        },
        ..p
    };
    overshoot_is_trimmed_by_staging(d, s.list, l, grown(q, s.list));
    let r = overshoot_trimmed(d, s.list, l, grown(q, s.list));
    let i = choose|i: int|
        {
            &&& 0 <= i < s.list.len()
            &&& is_staging(#[trigger] s.list[i], l)
            &&& forall|j: int|
                0 <= j < s.list.len() && is_staging(#[trigger] s.list[j], l) ==> s.list[j].extent()
                    <= s.list[i].extent()
            &&& r.end as int == l.low() + s.list[i].extent() - 1
        };
    assert(is_staging(s.list[i], l));
}

/// From end to end, a plain run whose payload is no larger than the crunched file logs one line
/// more, and only such a run does.
#[verifier::rlimit(40)]
pub proof fn suspicious_sizes_are_logged(d: Definition, s: Scene, p: Pick)
    requires
        is_plain(d),
        s.switch_instr is None,
        0x0600 <= p.jump < 0xA000 || 0xC000 <= p.jump < 0xD000,
        largest_picked(d, s, p).end < 0xCF00,
        !p.classified,
        s.mem.prg_start <= s.mem.prg_end,
        !d.run.snap_start.contains(largest_picked(d, s, p).start),
    ensures
        ({
            let q = largest_picked(d, s, p);
            let r = picked(d, None, s, p);
            let small = q.start <= q.end && q.end - q.start <= s.mem.prg_end - s.mem.prg_start;
            &&& small ==> r.log.len() == q.log.len() + 1
            &&& !small ==> r.log == q.log
        }),
{
    reveal(picked);
    picking_keeps_the_jump(d, s, p);
}

} // verus!
