//! What becomes of a traced write, and what merging and cleaning make of the ranges, in
//! terms of modes, pointers and addresses.

use vstd::prelude::*;

verus! {

use crate::cpu::{Cpu, MemOp};
use crate::fmt::{dec, hex2, hex4, padded};
use crate::instr::AddrMode;
use crate::ranges::{
    ascending, continues, extended, filter_only_keeps, first_largest, last_largest, merged,
    merged_by_pointer, merged_from, of_kind, same_stream, sort_key, sorted, sorting_permutes,
    sorting_sorts, stream_position, stream_position_bounds, streams, substantial, total_of_filter,
    total_of_remove, total_of_update, total_writes, united, WriteRange,
};
use crate::writelist::{
    belongs, cleaned, empty_trace, flushed, followed, home, placed, range_line, range_lines,
    summary_text, trace_valid, Trace,
};

// ---------------------------------------------------------------------------
// Single ranges
// ---------------------------------------------------------------------------

/// A range reaches from the smaller to the larger of its two edges, and its size counts
/// both.
pub proof fn edges_bound_the_range(r: WriteRange, a: u16)
    ensures
        r.low() <= r.high(),
        r.low() == r.start_addr || r.low() == r.end_addr,
        r.high() == r.start_addr || r.high() == r.end_addr,
        r.low() + r.high() == r.start_addr + r.end_addr,
        r.extent() == r.high() - r.low() + 1,
        r.covers(a) <==> r.low() <= a <= r.high(),
        r.reverse() <==> r.is_forward == Some(false),
{
}

/// One more write moves the nearer edge out to it and no further, counts one write, and
/// notes the time. The second write sets the direction, which then stays; mode, pointer,
/// origin and first time stay always.
#[verifier::rlimit(40)]
pub proof fn one_more_write(r: WriteRange, addr: u16, now: u64)
    requires
        r.traced(),
        r.write_count < u32::MAX,
    ensures
        ({
            let e = extended(r, addr, now);
            &&& e.low() as int == if addr < r.low() {
                addr as int
            } else {
                r.low() as int
            }
            &&& e.high() as int == if addr > r.high() {
                addr as int
            } else {
                r.high() as int
            }
            &&& e.write_count == r.write_count + 1
            &&& e.last_write_instr == now
            &&& e.first_write_instr == r.first_write_instr
            &&& e.mode == r.mode && e.base_ptr == r.base_ptr
            &&& e.instruction_pc == r.instruction_pc
            &&& r.write_count == 1 ==> e.is_forward == Some(addr > r.start_addr)
            &&& r.write_count != 1 ==> e.is_forward == r.is_forward
        }),
{
}

/// Two ranges as one count the writes of both, reach from the first write to the last of
/// both, and keep the direction, mode, pointer and origin of the first.
#[verifier::rlimit(40)]
pub proof fn union_counts_both(a: WriteRange, b: WriteRange)
    requires
        a.write_count + b.write_count <= u32::MAX,
    ensures
        ({
            let u = united(a, b);
            &&& u.write_count == a.write_count + b.write_count
            &&& u.first_write_instr <= a.first_write_instr
            &&& u.first_write_instr <= b.first_write_instr
            &&& u.first_write_instr == a.first_write_instr || u.first_write_instr
                == b.first_write_instr
            &&& u.last_write_instr >= a.last_write_instr
            &&& u.last_write_instr >= b.last_write_instr
            &&& u.last_write_instr == a.last_write_instr || u.last_write_instr
                == b.last_write_instr
            &&& u.is_forward == a.is_forward && u.mode == a.mode && u.base_ptr == a.base_ptr
            &&& u.instruction_pc == a.instruction_pc
            &&& a.is_forward == Some(false) ==> u.start_addr >= u.end_addr
            &&& a.is_forward != Some(false) ==> u.start_addr <= u.end_addr
            &&& u.low() <= a.low() && u.low() <= b.low()
            &&& u.low() == a.low() || u.low() == b.low()
            &&& u.high() >= a.high() && u.high() >= b.high()
            &&& u.high() == a.high() || u.high() == b.high()
        }),
{
}

// ---------------------------------------------------------------------------
// Order
// ---------------------------------------------------------------------------

/// Listed by address, a range never starts below one before it. Listed by mode, the modes
/// come in the order zero page, zero page by X, zero page by Y, absolute, absolute by X,
/// absolute by Y, indexed indirect, indirect indexed, and the ranges of one mode come by
/// address.
pub proof fn lists_are_ordered(s: Seq<WriteRange>, i: int, j: int)
    requires
        0 <= i < j < s.len(),
    ensures
        sorted(s, false).len() == s.len(),
        sorted(s, true).len() == s.len(),
        sorted(s, false)[i].low() <= sorted(s, false)[j].low(),
        ({
            let a = sorted(s, true)[i];
            let b = sorted(s, true)[j];
            &&& a.mode == b.mode ==> a.low() <= b.low()
            &&& place(a.mode) <= place(b.mode)
        }),
{
    sorting_sorts(s, false);
    sorting_sorts(s, true);
    sorting_permutes(s, false);
    sorting_permutes(s, true);
    let a = sorted(s, true)[i];
    let b = sorted(s, true)[j];
    assert(sort_key(a, true) <= sort_key(b, true));
    assert(sort_key(sorted(s, false)[i], false) <= sort_key(sorted(s, false)[j], false));
    assert(a.mode.rank_spec() == place(a.mode));
    assert(b.mode.rank_spec() == place(b.mode));
}

/// The place of a mode in the order of the modes.
pub open spec fn place(m: AddrMode) -> int {
    if m is ZeroPage {
        0
    } else if m is ZeroPageX {
        1
    } else if m is ZeroPageY {
        2
    } else if m is Absolute {
        3
    } else if m is AbsoluteX {
        4
    } else if m is AbsoluteY {
        5
    } else if m is IndirectX {
        6
    } else {
        7
    }
}

/// The first largest range has a place in the list where every range before it is
/// smaller and none behind it is larger; of the last largest range the opposite holds.
#[verifier::rlimit(40)]
pub proof fn largest_by_place(s: Seq<WriteRange>)
    requires
        s.len() > 0,
    ensures
        exists|k: int|
            {
                &&& 0 <= k < s.len()
                &&& first_largest(s) == Some(#[trigger] s[k])
                &&& forall|i: int| 0 <= i < k ==> (#[trigger] s[i]).extent() < s[k].extent()
                &&& forall|i: int| k <= i < s.len() ==> (#[trigger] s[i]).extent() <= s[k].extent()
            },
        exists|k: int|
            {
                &&& 0 <= k < s.len()
                &&& last_largest(s) == Some(#[trigger] s[k])
                &&& forall|i: int| 0 <= i <= k ==> (#[trigger] s[i]).extent() <= s[k].extent()
                &&& forall|i: int| k < i < s.len() ==> (#[trigger] s[i]).extent() < s[k].extent()
            },
    decreases s.len(),
{
    let n = s.len() - 1;
    let front = s.drop_last();
    assert(s.last() == s[n]);
    if n == 0 {
        assert(front.len() == 0);
        assert(first_largest(s) == Some(s[0]));
        assert(last_largest(s) == Some(s[0]));
    } else {
        largest_by_place(front);
        assert forall|i: int| 0 <= i < n implies front[i] == #[trigger] s[i] by {}
        let k = choose|k: int|
            {
                &&& 0 <= k < front.len()
                &&& first_largest(front) == Some(#[trigger] front[k])
                &&& forall|i: int| 0 <= i < k ==> (#[trigger] front[i]).extent() < front[k].extent()
                &&& forall|i: int|
                    k <= i < front.len() ==> (#[trigger] front[i]).extent() <= front[k].extent()
            };
        assert(front[k] == s[k]);
        assert forall|i: int| 0 <= i < n implies (#[trigger] s[i]).extent() <= s[k].extent() by {
            assert(front[i] == s[i]);
        }
        assert forall|i: int| 0 <= i < k implies (#[trigger] s[i]).extent() < s[k].extent() by {
            assert(front[i] == s[i]);
        }
        if s[n].extent() > s[k].extent() {
            assert(first_largest(s) == Some(s[n]));
        } else {
            assert(first_largest(s) == Some(s[k]));
        }
        let l = choose|k: int|
            {
                &&& 0 <= k < front.len()
                &&& last_largest(front) == Some(#[trigger] front[k])
                &&& forall|i: int|
                    0 <= i <= k ==> (#[trigger] front[i]).extent() <= front[k].extent()
                &&& forall|i: int|
                    k < i < front.len() ==> (#[trigger] front[i]).extent() < front[k].extent()
            };
        assert(front[l] == s[l]);
        assert forall|i: int| 0 <= i < n implies (#[trigger] s[i]).extent() <= s[l].extent() by {
            assert(front[i] == s[i]);
        }
        assert forall|i: int| l < i < n implies (#[trigger] s[i]).extent() < s[l].extent() by {
            assert(front[i] == s[i]);
        }
        if s[n].extent() >= s[l].extent() {
            assert(last_largest(s) == Some(s[n]));
        } else {
            assert(last_largest(s) == Some(s[l]));
        }
    }
}

// ---------------------------------------------------------------------------
// Merging
// ---------------------------------------------------------------------------

/// Of two neighbours, the second is not within `gap` of the first, or they differ in mode
/// or pointer.
spec fn apart(a: WriteRange, b: WriteRange, gap: int) -> bool {
    a.mode == b.mode && (a.mode.indirect() ==> a.base_ptr == b.base_ptr) ==> b.low() > a.high()
        + gap
}

#[verifier::rlimit(40)]
proof fn merging_separates(s: Seq<WriteRange>, i: int, gap: int)
    requires
        0 <= i,
        ascending(s, true),
        forall|j: int| 0 <= j < i && j + 1 < s.len() ==> apart(#[trigger] s[j], s[j + 1], gap),
    ensures
        ({
            let t = merged_from(s, i, gap);
            forall|j: int| 0 <= j && j + 1 < t.len() ==> apart(#[trigger] t[j], t[j + 1], gap)
        }),
        ascending(merged_from(s, i, gap), true),
    decreases 2 * s.len() - i,
{
    if i + 1 < s.len() {
        if continues(s[i], s[i + 1], gap) {
            let u = united(s[i], s[i + 1]);
            let t = s.remove(i + 1).update(i, u);
            assert(sort_key(s[i], true) <= sort_key(s[i + 1], true));
            assert(u.low() == s[i].low() && u.mode == s[i].mode && u.base_ptr == s[i].base_ptr);
            assert forall|a: int, b: int| 0 <= a <= b < t.len() implies sort_key(
                #[trigger] t[a],
                true,
            ) <= sort_key(#[trigger] t[b], true) by {
                let x = if a <= i {
                    a
                } else {
                    a + 1
                };
                let y = if b <= i {
                    b
                } else {
                    b + 1
                };
                assert(sort_key(s[x], true) <= sort_key(s[y], true));
            }
            assert forall|j: int| 0 <= j < i && j + 1 < t.len() implies apart(
                #[trigger] t[j],
                t[j + 1],
                gap,
            ) by {
                assert(apart(s[j], s[j + 1], gap));
            }
            merging_separates(t, i, gap);
            assert(merged_from(s, i, gap) == merged_from(t, i, gap));
        } else {
            assert forall|j: int| 0 <= j < i + 1 && j + 1 < s.len() implies apart(
                #[trigger] s[j],
                s[j + 1],
                gap,
            ) by {
                if j == i {
                    assert(!continues(s[i], s[i + 1], gap));
                }
            }
            merging_separates(s, i + 1, gap);
            assert(merged_from(s, i, gap) == merged_from(s, i + 1, gap));
        }
    }
}

/// Merging bridges every gap up to the given one: of two neighbours in the merged list
/// with the same mode (and, for the indirect modes, the same pointer), the second begins
/// more than `gap` addresses behind the end of the first.
pub proof fn merging_bridges_gaps(s: Seq<WriteRange>, gap: int, j: int)
    requires
        0 <= j,
        j + 1 < merged(s, gap).len(),
    ensures
        ({
            let a = merged(s, gap)[j];
            let b = merged(s, gap)[j + 1];
            a.mode == b.mode && (a.mode is IndirectX || a.mode is IndirectY ==> a.base_ptr
                == b.base_ptr) ==> b.low() > a.high() + gap
        }),
{
    sorting_sorts(s, true);
    merging_separates(sorted(s, true), 0, gap);
    assert(apart(merged(s, gap)[j], merged(s, gap)[j + 1], gap));
}

/// The range `q` is made of ranges of `s`: each of its addresses lies in one of its own
/// mode and pointer, or at most `gap` addresses behind it, and its last address is the
/// last of one.
spec fn made_of(s: Seq<WriteRange>, q: WriteRange, gap: int) -> bool {
    &&& forall|a: u16| #[trigger] q.covers(a) ==> near_one(s, q, a, gap)
    &&& ends_like_one(s, q)
}

spec fn kin(r: WriteRange, q: WriteRange) -> bool {
    r.mode == q.mode && (q.mode.indirect() ==> r.base_ptr == q.base_ptr)
}

/// Some range of `s` with the mode (and pointer) of `q` holds the address `a`, or ends at
/// most `gap` addresses before it.
pub open spec fn near_one(s: Seq<WriteRange>, q: WriteRange, a: u16, gap: int) -> bool {
    exists|i: int|
        {
            &&& 0 <= i < s.len()
            &&& (#[trigger] s[i]).mode == q.mode
            &&& q.mode is IndirectX || q.mode is IndirectY ==> s[i].base_ptr == q.base_ptr
            &&& s[i].low() <= a <= s[i].high() + gap
        }
}

spec fn ends_like_one(s: Seq<WriteRange>, q: WriteRange) -> bool {
    exists|i: int| 0 <= i < s.len() && kin(#[trigger] s[i], q) && s[i].high() == q.high()
}

proof fn uniting_makes(s: Seq<WriteRange>, a: WriteRange, b: WriteRange, gap: int)
    requires
        gap >= 0,
        made_of(s, a, gap),
        made_of(s, b, gap),
        continues(a, b, gap),
        a.low() <= b.low(),
    ensures
        made_of(s, united(a, b), gap),
{
    let u = united(a, b);
    assert forall|x: u16| #[trigger] u.covers(x) implies near_one(s, u, x, gap) by {
        if a.covers(x) {
            assert(near_one(s, a, x, gap));
        } else if b.covers(x) {
            assert(near_one(s, b, x, gap));
        } else {
            let i = choose|i: int|
                0 <= i < s.len() && kin(#[trigger] s[i], a) && s[i].high() == a.high();
            assert(s[i].low() <= x <= s[i].high() + gap);
        }
    }
    if u.high() == a.high() {
        let i = choose|i: int|
            0 <= i < s.len() && kin(#[trigger] s[i], a) && s[i].high() == a.high();
        assert(kin(s[i], u));
    } else {
        let i = choose|i: int|
            0 <= i < s.len() && kin(#[trigger] s[i], b) && s[i].high() == b.high();
        assert(kin(s[i], u));
    }
}

#[verifier::rlimit(40)]
proof fn merging_makes(s: Seq<WriteRange>, t: Seq<WriteRange>, i: int, gap: int)
    requires
        gap >= 0,
        0 <= i,
        ascending(t, true),
        forall|j: int| 0 <= j < t.len() ==> made_of(s, #[trigger] t[j], gap),
    ensures
        forall|j: int|
            0 <= j < merged_from(t, i, gap).len() ==> made_of(
                s,
                #[trigger] merged_from(t, i, gap)[j],
                gap,
            ),
    decreases 2 * t.len() - i,
{
    if i + 1 < t.len() {
        if continues(t[i], t[i + 1], gap) {
            let u = united(t[i], t[i + 1]);
            let w = t.remove(i + 1).update(i, u);
            assert(sort_key(t[i], true) <= sort_key(t[i + 1], true));
            assert(made_of(s, t[i], gap) && made_of(s, t[i + 1], gap));
            uniting_makes(s, t[i], t[i + 1], gap);
            assert(u.low() == t[i].low() && u.mode == t[i].mode);
            assert forall|a: int, b: int| 0 <= a <= b < w.len() implies sort_key(
                #[trigger] w[a],
                true,
            ) <= sort_key(#[trigger] w[b], true) by {
                let x = if a <= i {
                    a
                } else {
                    a + 1
                };
                let y = if b <= i {
                    b
                } else {
                    b + 1
                };
                assert(sort_key(t[x], true) <= sort_key(t[y], true));
            }
            assert forall|j: int| 0 <= j < w.len() implies made_of(s, #[trigger] w[j], gap) by {
                if j < i {
                    assert(made_of(s, t[j], gap));
                } else if j > i {
                    assert(made_of(s, t[j + 1], gap));
                }
            }
            merging_makes(s, w, i, gap);
            assert(merged_from(t, i, gap) == merged_from(w, i, gap));
        } else {
            merging_makes(s, t, i + 1, gap);
            assert(merged_from(t, i, gap) == merged_from(t, i + 1, gap));
        }
    }
}

/// Merging bridges no gap beyond the given one and mixes no streams: an address of a
/// merged range lies in a range of the list with the same mode (and, for the indirect
/// modes, the same pointer), or at most `gap` addresses behind the end of one.
pub proof fn merging_bridges_no_more(s: Seq<WriteRange>, gap: int, j: int, a: u16)
    requires
        gap >= 0,
        0 <= j < merged(s, gap).len(),
        merged(s, gap)[j].low() <= a <= merged(s, gap)[j].high(),
    ensures
        near_one(s, merged(s, gap)[j], a, gap),
{
    broadcast use vstd::seq_lib::group_to_multiset_ensures;

    let t = sorted(s, true);
    sorting_sorts(s, true);
    sorting_permutes(s, true);
    assert forall|k: int| 0 <= k < t.len() implies made_of(s, #[trigger] t[k], gap) by {
        assert(t.contains(t[k]));
        assert(s.to_multiset().count(t[k]) > 0);
        assert(s.contains(t[k]));
        let i = choose|i: int| 0 <= i < s.len() && s[i] == t[k];
        assert(kin(s[i], t[k]));
        assert forall|x: u16| #[trigger] t[k].covers(x) implies near_one(s, t[k], x, gap) by {
            assert(s[i].low() <= x <= s[i].high() + gap);
        }
    }
    merging_makes(s, t, 0, gap);
    assert(made_of(s, merged(s, gap)[j], gap));
    assert(merged(s, gap)[j].covers(a));
}

// ---------------------------------------------------------------------------
// Merging by pointer, and cleaning
// ---------------------------------------------------------------------------

/// Some range of `s` has the mode and pointer of `r` and spans it.
pub open spec fn streamed(s: Seq<WriteRange>, r: WriteRange) -> bool {
    exists|k: int|
        {
            &&& 0 <= k < s.len()
            &&& (#[trigger] s[k]).mode == r.mode && s[k].base_ptr == r.base_ptr
            &&& s[k].low() <= r.low() && r.high() <= s[k].high()
        }
}

proof fn streams_span(s: Seq<WriteRange>, i: int)
    requires
        0 <= i < s.len(),
    ensures
        streamed(streams(s), s[i]),
    decreases s.len(),
{
    let front = s.drop_last();
    let f = streams(front);
    let last = s.last();
    let p = stream_position(f, last, 0);
    stream_position_bounds(f, last, 0);
    let t = streams(s);
    if i == s.len() - 1 {
        if p < f.len() {
            assert(same_stream(f[p], last));
            assert(t[p] == united(f[p], last));
        } else {
            assert(t[f.len() as int] == last);
        }
    } else {
        assert(front[i] == s[i]);
        streams_span(front, i);
        let k = choose|k: int|
            {
                &&& 0 <= k < f.len()
                &&& (#[trigger] f[k]).mode == s[i].mode && f[k].base_ptr == s[i].base_ptr
                &&& f[k].low() <= s[i].low() && s[i].high() <= f[k].high()
            };
        if p < f.len() {
            assert(t == f.update(p, united(f[p], last)));
            assert(t[k].low() <= f[k].low() && f[k].high() <= t[k].high());
        } else {
            assert(t[k] == f[k]);
        }
    }
}

proof fn filter_keeps(s: Seq<WriteRange>, keep: spec_fn(WriteRange) -> bool, i: int)
    requires
        0 <= i < s.len(),
        keep(s[i]),
    ensures
        s.filter(keep).contains(s[i]),
    decreases s.len(),
{
    reveal(Seq::filter);
    let front = s.drop_last();
    let f = front.filter(keep);
    let t = s.filter(keep);
    if i == s.len() - 1 {
        assert(t == f.push(s[i]));
        assert(t[f.len() as int] == s[i]);
    } else {
        assert(front[i] == s[i]);
        filter_keeps(front, keep, i);
        let k = choose|k: int| 0 <= k < f.len() && f[k] == s[i];
        assert(t[k] == s[i]);
    }
}

/// Merging by pointer unites whatever went through one pointer in one mode, however far
/// apart: every indirect range is spanned by one of its own mode and pointer. Every other
/// range stays as it is.
pub proof fn pointers_gather_their_ranges(s: Seq<WriteRange>, i: int)
    requires
        0 <= i < s.len(),
    ensures
        s[i].mode is IndirectX || s[i].mode is IndirectY ==> streamed(merged_by_pointer(s), s[i]),
        !(s[i].mode is IndirectX || s[i].mode is IndirectY) ==> merged_by_pointer(s).contains(s[i]),
{
    let ind = s.filter(of_kind(true));
    let dir = s.filter(of_kind(false));
    let all = merged_by_pointer(s);
    if s[i].mode.indirect() {
        filter_keeps(s, of_kind(true), i);
        let k = choose|k: int| 0 <= k < ind.len() && ind[k] == s[i];
        streams_span(ind, k);
        let m = choose|m: int|
            {
                &&& 0 <= m < streams(ind).len()
                &&& (#[trigger] streams(ind)[m]).mode == s[i].mode && streams(ind)[m].base_ptr
                    == s[i].base_ptr
                &&& streams(ind)[m].low() <= s[i].low() && s[i].high() <= streams(ind)[m].high()
            };
        assert(all[m] == streams(ind)[m]);
    } else {
        filter_keeps(s, of_kind(false), i);
        let k = choose|k: int| 0 <= k < dir.len() && dir[k] == s[i];
        assert(all[streams(ind).len() + k] == s[i]);
    }
}

/// The final cleanup leaves out nothing but direct ranges of fewer than sixteen writes:
/// each range of the merged list that went through a pointer is spanned by one of its mode
/// and pointer, and each direct range of sixteen writes or more is still there.
pub proof fn flush_keeps_the_output(t: Trace, i: int)
    requires
        0 <= i < merged(t.ranges, t.max_gap_for_merge as int).len(),
    ensures
        ({
            let r = merged(t.ranges, t.max_gap_for_merge as int)[i];
            &&& r.mode is IndirectX || r.mode is IndirectY ==> streamed(flushed(t).ranges, r)
            &&& !(r.mode is IndirectX || r.mode is IndirectY) && r.write_count >= 16
                ==> flushed(t).ranges.contains(r)
        }),
{
    let m = merged(t.ranges, t.max_gap_for_merge as int);
    let r = m[i];
    let p = merged_by_pointer(m);
    let keep = substantial(16, true);
    let f = flushed(t).ranges;
    pointers_gather_their_ranges(m, i);
    if r.mode.indirect() {
        let k = choose|k: int|
            {
                &&& 0 <= k < p.len()
                &&& (#[trigger] p[k]).mode == r.mode && p[k].base_ptr == r.base_ptr
                &&& p[k].low() <= r.low() && r.high() <= p[k].high()
            };
        filter_keeps(p, keep, k);
        let n = choose|n: int| 0 <= n < f.len() && f[n] == p[k];
        assert(f[n].mode == r.mode);
    } else if r.write_count >= 16 {
        let k = choose|k: int| 0 <= k < p.len() && p[k] == r;
        filter_keeps(p, keep, k);
    }
}

/// Of two ranges in order that were written directly in one mode, the second begins more
/// than `gap` addresses behind the end of the first.
pub open spec fn kept_apart(a: WriteRange, b: WriteRange, gap: int) -> bool {
    a.mode == b.mode && !(a.mode is IndirectX || a.mode is IndirectY) ==> b.low() > a.high() + gap
}

spec fn all_apart(s: Seq<WriteRange>, gap: int) -> bool {
    forall|i: int, j: int|
        0 <= i < j < s.len() ==> kept_apart(#[trigger] s[i], #[trigger] s[j], gap)
}

proof fn merged_is_apart(s: Seq<WriteRange>, gap: int)
    ensures
        all_apart(merged(s, gap), gap),
{
    let t = merged(s, gap);
    sorting_sorts(s, true);
    merging_separates(sorted(s, true), 0, gap);
    assert forall|i: int, j: int| 0 <= i < j < t.len() implies kept_apart(
        #[trigger] t[i],
        #[trigger] t[j],
        gap,
    ) by {
        assert(apart(t[i], t[i + 1], gap));
        assert(sort_key(t[i], true) <= sort_key(t[i + 1], true));
        assert(sort_key(t[i + 1], true) <= sort_key(t[j], true));
    }
}

proof fn filter_stays_apart(s: Seq<WriteRange>, keep: spec_fn(WriteRange) -> bool, gap: int)
    requires
        all_apart(s, gap),
    ensures
        all_apart(s.filter(keep), gap),
    decreases s.len(),
{
    reveal(Seq::filter);
    if s.len() > 0 {
        let front = s.drop_last();
        let f = front.filter(keep);
        let t = s.filter(keep);
        let last = s.last();
        assert forall|i: int, j: int| 0 <= i < j < front.len() implies kept_apart(
            #[trigger] front[i],
            #[trigger] front[j],
            gap,
        ) by {
            assert(kept_apart(s[i], s[j], gap));
        }
        filter_stays_apart(front, keep, gap);
        filter_only_keeps(front, keep);
        assert forall|i: int, j: int| 0 <= i < j < t.len() implies kept_apart(
            #[trigger] t[i],
            #[trigger] t[j],
            gap,
        ) by {
            if j < f.len() {
                assert(kept_apart(f[i], f[j], gap));
            } else {
                assert(t[j] == last);
                assert(f.contains(f[i]));
                let k = choose|k: int| 0 <= k < front.len() && front[k] == f[i];
                assert(s[k] == f[i]);
                assert(kept_apart(s[k], s[s.len() - 1], gap));
            }
        }
    }
}

proof fn streams_are_indirect(s: Seq<WriteRange>)
    requires
        forall|i: int| 0 <= i < s.len() ==> (#[trigger] s[i]).mode.indirect(),
    ensures
        forall|i: int| 0 <= i < streams(s).len() ==> (#[trigger] streams(s)[i]).mode.indirect(),
    decreases s.len(),
{
    if s.len() > 0 {
        let front = s.drop_last();
        assert forall|i: int| 0 <= i < front.len() implies (#[trigger] front[i]).mode.indirect() by {
            assert(s[i].mode.indirect());
        }
        streams_are_indirect(front);
        stream_position_bounds(streams(front), s.last(), 0);
        assert(s[s.len() - 1].mode.indirect());
    }
}

/// After the final cleanup, and after cleaning, the gap of the settings is bridged: of two
/// ranges that were written directly in one mode, the one behind begins further off.
#[verifier::rlimit(40)]
pub proof fn cleanups_bridge_gaps(t: Trace, min: u32, i: int, j: int)
    ensures
        0 <= i < j < flushed(t).ranges.len() ==> kept_apart(
            flushed(t).ranges[i],
            flushed(t).ranges[j],
            t.max_gap_for_merge as int,
        ),
        0 <= i < j < cleaned(t, min).ranges.len() ==> kept_apart(
            cleaned(t, min).ranges[i],
            cleaned(t, min).ranges[j],
            t.max_gap_for_merge as int,
        ),
{
    let gap = t.max_gap_for_merge as int;
    let m = merged(t.ranges, gap);
    merged_is_apart(t.ranges, gap);
    let ind = m.filter(of_kind(true));
    let dir = m.filter(of_kind(false));
    filter_stays_apart(m, of_kind(false), gap);
    filter_only_keeps(m, of_kind(true));
    assert forall|k: int| 0 <= k < ind.len() implies (#[trigger] ind[k]).mode.indirect() by {
        assert(ind.contains(ind[k]));
    }
    streams_are_indirect(ind);
    let p = merged_by_pointer(m);
    assert forall|a: int, b: int| 0 <= a < b < p.len() implies kept_apart(
        #[trigger] p[a],
        #[trigger] p[b],
        gap,
    ) by {
        if a < streams(ind).len() {
            assert(p[a] == streams(ind)[a]);
        } else {
            let n = streams(ind).len();
            assert(p[a] == dir[a - n] && p[b] == dir[b - n]);
            assert(kept_apart(dir[a - n], dir[b - n], gap));
        }
    }
    filter_stays_apart(p, substantial(16, true), gap);
    merged_is_apart(t.ranges.filter(substantial(min, false)), gap);
}

/// Cleaning drops the ranges of fewer than `min` writes, whatever their mode, and no other:
/// every range of at least `min` writes is spanned by what is left.
pub proof fn cleaning_keeps_the_large(t: Trace, min: u32, i: int)
    requires
        0 <= i < t.ranges.len(),
        t.ranges[i].write_count >= min,
    ensures
        crate::ranges::spanned(cleaned(t, min).ranges, t.ranges[i]),
{
    let keep = substantial(min, false);
    let f = t.ranges.filter(keep);
    filter_keeps(t.ranges, keep, i);
    let k = choose|k: int| 0 <= k < f.len() && f[k] == t.ranges[i];
    crate::ranges::merging_loses_nothing(f, t.max_gap_for_merge as int, k);
}

proof fn merging_keeps_large(s: Seq<WriteRange>, i: int, gap: int, min: u32)
    requires
        0 <= i,
        total_writes(s) <= 0x1_0000,
        forall|k: int| 0 <= k < s.len() ==> (#[trigger] s[k]).write_count >= min,
    ensures
        forall|k: int|
            0 <= k < merged_from(s, i, gap).len() ==> (#[trigger] merged_from(
                s,
                i,
                gap,
            )[k]).write_count >= min,
    decreases 2 * s.len() - i,
{
    if i + 1 < s.len() {
        if continues(s[i], s[i + 1], gap) {
            let r = s.remove(i + 1);
            let u = united(s[i], s[i + 1]);
            let t = r.update(i, u);
            total_of_remove(s, i + 1);
            assert(r[i] == s[i]);
            total_of_update(r, i, u);
            assert(s[i].write_count >= min);
            assert forall|k: int| 0 <= k < t.len() implies (#[trigger] t[k]).write_count >= min by {
                if k < i {
                    assert(t[k] == s[k]);
                } else if k > i {
                    assert(t[k] == s[k + 1]);
                }
            }
            merging_keeps_large(t, i, gap, min);
            assert(merged_from(s, i, gap) == merged_from(t, i, gap));
        } else {
            merging_keeps_large(s, i + 1, gap, min);
            assert(merged_from(s, i, gap) == merged_from(s, i + 1, gap));
        }
    }
}

/// After cleaning, every range has at least `min` writes.
pub proof fn cleaned_ranges_are_large(t: Trace, min: u32, i: int)
    requires
        trace_valid(t),
        0 <= i < cleaned(t, min).ranges.len(),
    ensures
        cleaned(t, min).ranges[i].write_count >= min,
{
    broadcast use vstd::seq_lib::group_to_multiset_ensures;

    let keep = substantial(min, false);
    let f = t.ranges.filter(keep);
    let o = sorted(f, true);
    filter_only_keeps(t.ranges, keep);
    total_of_filter(t.ranges, keep);
    sorting_permutes(f, true);
    assert forall|k: int| 0 <= k < o.len() implies (#[trigger] o[k]).write_count >= min by {
        assert(o.contains(o[k]));
        assert(f.to_multiset().count(o[k]) > 0);
        assert(f.contains(o[k]));
        assert(keep(o[k]));
    }
    merging_keeps_large(o, 0, t.max_gap_for_merge as int, min);
}

/// Where no range has `min` writes, cleaning leaves nothing.
pub proof fn cleaning_drops_the_small(t: Trace, min: u32)
    requires
        forall|i: int| 0 <= i < t.ranges.len() ==> (#[trigger] t.ranges[i]).write_count < min,
    ensures
        cleaned(t, min).ranges.len() == 0,
{
    let keep = substantial(min, false);
    let f = t.ranges.filter(keep);
    filter_only_keeps(t.ranges, keep);
    if f.len() > 0 {
        assert(f.contains(f[0]));
        assert(keep(f[0]) && t.ranges.contains(f[0]));
        let k = choose|k: int| 0 <= k < t.ranges.len() && t.ranges[k] == f[0];
        assert(t.ranges[k].write_count < min);
    }
    sorting_permutes(f, true);
}

// ---------------------------------------------------------------------------
// Following writes
// ---------------------------------------------------------------------------

/// A new write list bridges gaps of 32 addresses, and takes direct writes together that
/// are at most 50000 instructions and 128 bytes of code apart; it holds nothing, and
/// leaves undocumented opcodes out.
pub proof fn default_settings()
    ensures
        empty_trace().max_gap_for_merge == 32,
        empty_trace().max_instr_between_direct_writes == 50_000,
        empty_trace().max_pc_distance == 128,
        !empty_trace().include_illegal_writes,
        empty_trace().ranges.len() == 0,
        forall|a: u16| !#[trigger] empty_trace().written.contains(a),
{
}

/// A write that belongs to no output: direct zero-page writes below $FB, direct writes to
/// the stack page from other modes, and direct writes to $D000-$DFFF while the I/O area
/// takes them.
pub open spec fn off_the_output(op: MemOp, io_visible: bool) -> bool {
    let by_pointer = op.mode is IndirectX || op.mode is IndirectY;
    let zero_page = op.mode is ZeroPage || op.mode is ZeroPageX || op.mode is ZeroPageY;
    &&& !by_pointer
    &&& {
        ||| zero_page && op.addr < 0xFB
        ||| 0x0100 <= op.addr <= 0x01FF
        ||| 0xD000 <= op.addr <= 0xDFFF && io_visible
    }
}

/// An instruction counts exactly when it was watched, wrote, to an address not written
/// before and not off the output, and is documented or all are wanted. Then its address is
/// marked; otherwise nothing changes.
#[verifier::rlimit(40)]
pub proof fn what_counts(t: Trace, c: Cpu, pc: u16, io_visible: bool)
    ensures
        ({
            let f = followed(t, c, pc, io_visible);
            let counts = c.tracking && c.last_op is Some && c.last_op->0.write && (
            !c.last_op->0.illegal || t.include_illegal_writes) && !off_the_output(
                c.last_op->0,
                io_visible,
            ) && !t.written.contains(c.last_op->0.addr);
            &&& counts ==> f.written == t.written.insert(c.last_op->0.addr)
            &&& !counts ==> f == t
        }),
{
}

/// The write `op` at time `now` by code at `pc` fits the range `r`: the same mode, and
/// through a pointer the same pointer; a direct one within the code distance, the time and
/// the gap of the settings.
pub open spec fn fits(t: Trace, r: WriteRange, op: MemOp, now: u64, pc: u16) -> bool {
    let by_pointer = op.mode is IndirectX || op.mode is IndirectY;
    &&& r.mode == op.mode
    &&& by_pointer ==> r.base_ptr == op.ptr
    &&& !by_pointer ==> {
        &&& -t.max_pc_distance <= r.instruction_pc - pc <= t.max_pc_distance
        &&& now - r.last_write_instr <= t.max_instr_between_direct_writes
        &&& r.low() - t.max_gap_for_merge <= op.addr <= r.high() + t.max_gap_for_merge
    }
}

proof fn belonging_is_fitting(t: Trace, r: WriteRange, op: MemOp, now: u64, pc: u16)
    requires
        t.max_gap_for_merge >= 0,
        r.last_write_instr <= now,
    ensures
        belongs(t, r, op, now, pc) == fits(t, r, op, now, pc),
{
}

proof fn home_is_first(t: Trace, op: MemOp, now: u64, pc: u16, i: int, k: int)
    requires
        0 <= i <= k <= t.ranges.len(),
        forall|j: int| i <= j < k ==> !belongs(t, #[trigger] t.ranges[j], op, now, pc),
        k < t.ranges.len() ==> belongs(t, t.ranges[k], op, now, pc),
    ensures
        home(t, op, now, pc, i) == k,
    decreases k - i,
{
    if i < k {
        assert(!belongs(t, t.ranges[i], op, now, pc));
        home_is_first(t, op, now, pc, i + 1, k);
    }
}

proof fn home_is_forward(t: Trace, op: MemOp, now: u64, pc: u16, i: int)
    requires
        0 <= i,
    ensures
        home(t, op, now, pc, i) >= i || home(t, op, now, pc, i) == t.ranges.len(),
    decreases t.ranges.len() - i,
{
    if i < t.ranges.len() {
        home_is_forward(t, op, now, pc, i + 1);
    }
}

/// A write that counts goes to the first range that it fits: that range gets one more
/// write, and no other range changes. (Merging, which follows every hundredth address and
/// whenever there are more than a hundred ranges, is left aside here.)
#[verifier::rlimit(40)]
pub proof fn writes_extend_the_first_fit(t: Trace, c: Cpu, pc: u16, io_visible: bool, k: int)
    requires
        followed(t, c, pc, io_visible).written != t.written,
        t.max_gap_for_merge >= 0,
        t.ranges.len() <= 100,
        t.written.finite(),
        (t.written.len() + 1) % 100 != 0,
        forall|j: int|
            0 <= j < t.ranges.len() ==> (#[trigger] t.ranges[j]).last_write_instr <= c.instructions,
        0 <= k < t.ranges.len(),
        fits(t, t.ranges[k], c.last_op->0, c.instructions, pc),
        forall|j: int|
            0 <= j < k ==> !fits(t, #[trigger] t.ranges[j], c.last_op->0, c.instructions, pc),
    ensures
        followed(t, c, pc, io_visible).ranges == t.ranges.update(
            k,
            extended(t.ranges[k], c.last_op->0.addr, c.instructions),
        ),
{
    let op = c.last_op->0;
    assert forall|j: int| 0 <= j < k implies !belongs(
        t,
        #[trigger] t.ranges[j],
        op,
        c.instructions,
        pc,
    ) by {
        belonging_is_fitting(t, t.ranges[j], op, c.instructions, pc);
    }
    belonging_is_fitting(t, t.ranges[k], op, c.instructions, pc);
    home_is_first(t, op, c.instructions, pc, 0, k);
    assert(t.written.insert(op.addr).len() == t.written.len() + 1);
}

/// A write that counts and fits no range begins one behind the others: a single write of
/// its address, time, mode, pointer and code.
#[verifier::rlimit(40)]
pub proof fn other_writes_begin_a_range(t: Trace, c: Cpu, pc: u16, io_visible: bool)
    requires
        followed(t, c, pc, io_visible).written != t.written,
        t.max_gap_for_merge >= 0,
        t.ranges.len() < 100,
        t.written.finite(),
        (t.written.len() + 1) % 100 != 0,
        forall|j: int|
            0 <= j < t.ranges.len() ==> (#[trigger] t.ranges[j]).last_write_instr <= c.instructions,
        forall|j: int|
            0 <= j < t.ranges.len() ==> !fits(
                t,
                #[trigger] t.ranges[j],
                c.last_op->0,
                c.instructions,
                pc,
            ),
    ensures
        ({
            let f = followed(t, c, pc, io_visible).ranges;
            let op = c.last_op->0;
            &&& f.len() == t.ranges.len() + 1
            &&& f.drop_last() == t.ranges
            &&& f.last().start_addr == op.addr && f.last().end_addr == op.addr
            &&& f.last().first_write_instr == c.instructions
            &&& f.last().last_write_instr == c.instructions
            &&& f.last().write_count == 1
            &&& f.last().is_forward is None
            &&& f.last().mode == op.mode
            &&& f.last().instruction_pc == pc
            &&& op.mode is IndirectX || op.mode is IndirectY ==> f.last().base_ptr == op.ptr
            &&& !(op.mode is IndirectX || op.mode is IndirectY) ==> f.last().base_ptr == 0
        }),
{
    let op = c.last_op->0;
    assert forall|j: int| 0 <= j < t.ranges.len() implies !belongs(
        t,
        #[trigger] t.ranges[j],
        op,
        c.instructions,
        pc,
    ) by {
        belonging_is_fitting(t, t.ranges[j], op, c.instructions, pc);
    }
    home_is_first(t, op, c.instructions, pc, 0, t.ranges.len() as int);
    assert(t.written.insert(op.addr).len() == t.written.len() + 1);
    let f = followed(t, c, pc, io_visible).ranges;
    assert(f.drop_last() =~= t.ranges);
}

/// At every hundredth address, and whenever there are more than a hundred ranges, the
/// ranges are merged: neighbours of one mode and pointer then lie further apart than the
/// gap of the settings.
pub proof fn tracing_merges_now_and_again(t: Trace, c: Cpu, pc: u16, io_visible: bool, j: int)
    requires
        followed(t, c, pc, io_visible).written != t.written,
        t.written.finite(),
        (t.written.len() + 1) % 100 == 0 || t.ranges.len() > 100,
        0 <= j,
        j + 1 < followed(t, c, pc, io_visible).ranges.len(),
    ensures
        ({
            let a = followed(t, c, pc, io_visible).ranges[j];
            let b = followed(t, c, pc, io_visible).ranges[j + 1];
            a.mode == b.mode && (a.mode is IndirectX || a.mode is IndirectY ==> a.base_ptr
                == b.base_ptr) ==> b.low() > a.high() + t.max_gap_for_merge
        }),
{
    let op = c.last_op->0;
    assert(t.written.insert(op.addr).len() == t.written.len() + 1);
    let p = placed(t, op, c.instructions, pc);
    home_is_forward(t, op, c.instructions, pc, 0);
    merging_bridges_gaps(p, t.max_gap_for_merge as int, j);
}

/// Merging by pointer invents no address: a range that went through a pointer starts where one
/// of its mode and pointer starts, and ends where one ends.
pub proof fn pointers_gather_no_more(s: Seq<WriteRange>, k: int)
    requires
        0 <= k < merged_by_pointer(s).len(),
        merged_by_pointer(s)[k].mode is IndirectX || merged_by_pointer(s)[k].mode is IndirectY,
    ensures
        ({
            let q = merged_by_pointer(s)[k];
            &&& exists|i: int|
                0 <= i < s.len() && (#[trigger] s[i]).mode == q.mode && s[i].base_ptr == q.base_ptr
                    && s[i].low() == q.low()
            &&& exists|i: int|
                0 <= i < s.len() && (#[trigger] s[i]).mode == q.mode && s[i].base_ptr == q.base_ptr
                    && s[i].high() == q.high()
        }),
{
    let ind = s.filter(of_kind(true));
    let dir = s.filter(of_kind(false));
    let q = merged_by_pointer(s)[k];
    filter_only_keeps(s, of_kind(true));
    filter_only_keeps(s, of_kind(false));
    if k < streams(ind).len() {
        stream_edges(ind, k);
        let a = choose|i: int| 0 <= i < ind.len() && edge_of(#[trigger] ind[i], q, true);
        let b = choose|i: int| 0 <= i < ind.len() && edge_of(#[trigger] ind[i], q, false);
        assert(ind.contains(ind[a]) && ind.contains(ind[b]));
        let i = choose|i: int| 0 <= i < s.len() && s[i] == ind[a];
        let j = choose|j: int| 0 <= j < s.len() && s[j] == ind[b];
        assert(s[i].low() == q.low() && s[j].high() == q.high());
    } else {
        let n = k - streams(ind).len();
        assert(q == dir[n]);
        assert(dir.contains(dir[n]));
    }
}

/// The range `r` has the stream of `q` and its low (or high) end.
spec fn edge_of(r: WriteRange, q: WriteRange, low: bool) -> bool {
    &&& r.mode == q.mode && r.base_ptr == q.base_ptr
    &&& low ==> r.low() == q.low()
    &&& !low ==> r.high() == q.high()
}

proof fn stream_edges(s: Seq<WriteRange>, k: int)
    requires
        0 <= k < streams(s).len(),
    ensures
        exists|i: int| 0 <= i < s.len() && edge_of(#[trigger] s[i], streams(s)[k], true),
        exists|i: int| 0 <= i < s.len() && edge_of(#[trigger] s[i], streams(s)[k], false),
    decreases s.len(),
{
    let front = s.drop_last();
    let f = streams(front);
    let last = s.last();
    let t = streams(s);
    let p = stream_position(f, last, 0);
    stream_position_bounds(f, last, 0);
    assert(last == s[s.len() - 1]);
    if k < f.len() {
        stream_edges(front, k);
        let a = choose|i: int| 0 <= i < front.len() && edge_of(#[trigger] front[i], f[k], true);
        let b = choose|i: int| 0 <= i < front.len() && edge_of(#[trigger] front[i], f[k], false);
        assert(front[a] == s[a] && front[b] == s[b]);
        if p == k {
            assert(t[k] == united(f[k], last));
            if t[k].low() == f[k].low() {
                assert(edge_of(s[a], t[k], true));
            } else {
                assert(edge_of(s[s.len() - 1], t[k], true));
            }
            if t[k].high() == f[k].high() {
                assert(edge_of(s[b], t[k], false));
            } else {
                assert(edge_of(s[s.len() - 1], t[k], false));
            }
        } else {
            assert(t[k] == f[k]);
            assert(edge_of(s[a], t[k], true) && edge_of(s[b], t[k], false));
        }
    } else {
        assert(t[k] == last);
        assert(edge_of(s[s.len() - 1], t[k], true) && edge_of(s[s.len() - 1], t[k], false));
    }
}

/// The summary counts the ranges and the written addresses, gives each range a line in the
/// order of the addresses, and names the largest, of equals the last.
pub proof fn summaries_list_the_ranges(t: Trace, s: Seq<WriteRange>, r: WriteRange)
    ensures
        ({
            let list = sorted(t.ranges, false);
            let head = "Write ranges: "@ + dec(list.len() as int) + " ("@ + dec(
                t.written.len() as int,
            ) + " unique addresses)\n"@;
            let l = last_largest(list)->0;
            &&& list.len() == 0 ==> summary_text(t) == head
            &&& list.len() > 0 ==> summary_text(t) == head + range_lines(list) + (
            "  largest: $"@ + hex4(l.low()) + "-$"@ + hex4(l.high()) + " ("@ + dec(l.extent())
                + " bytes) via "@ + l.mode.spelling() + "\n"@)
        }),
        range_lines(Seq::empty()) == Seq::<char>::empty(),
        range_lines(s.push(r)) == range_lines(s) + range_line(s.len() as int + 1, r),
        ({
            let origin = if r.mode is IndirectX || r.mode is IndirectY {
                "base=$"@ + hex2(r.base_ptr)
            } else {
                "PC=$"@ + hex4(r.instruction_pc)
            };
            range_line(1, r) == "  "@ + dec(1) + ". "@ + padded(r.mode.spelling(), 7) + " $"@ + hex4(
                r.low(),
            ) + "-$"@ + hex4(r.high()) + "  "@ + dec(r.extent()) + " bytes ("@ + dec(
                r.write_count as int,
            ) + " writes) ["@ + origin + "] "@ + r.direction_name() + "\n"@
        }),
{
    let list = sorted(t.ranges, false);
    crate::ranges::largest_is_largest(list);
    assert(s.push(r).drop_last() =~= s);
    if list.len() == 0 {
        let head = "Write ranges: "@ + dec(list.len() as int) + " ("@ + dec(t.written.len() as int)
            + " unique addresses)\n"@;
        assert(head + range_lines(list) =~= head);
    }
}

} // verus!
