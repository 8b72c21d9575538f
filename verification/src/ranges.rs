//! Contiguous runs of writes, and the list operations on them: ordering, merging
//! and picking the largest.

use vstd::prelude::*;

use crate::instr::AddrMode;

verus! {

#[derive(Clone, Copy, Debug)]
pub struct WriteRange {
    /// First address written (for reverse ranges this is the *highest* address).
    pub start_addr: u16,
    /// Most recently extended edge (for reverse ranges the lowest address).
    pub end_addr: u16,
    /// Instruction count at the range's first write (identifies which depack
    /// stage produced it).
    pub first_write_instr: u64,
    pub last_write_instr: u64,
    pub write_count: u32,
    /// None = single write so far; Some(true) = forward; Some(false) = reverse.
    pub is_forward: Option<bool>,
    pub mode: AddrMode,
    /// For indirect modes: the zero-page pointer the writes go through.
    pub base_ptr: u8,
    /// For direct modes: PC of the writing instruction (separates different loops).
    pub instruction_pc: u16,
}

impl WriteRange {
    /// Lowest address.
    pub open spec fn low(self) -> u16 {
        if self.start_addr <= self.end_addr {
            self.start_addr
        } else {
            self.end_addr
        }
    }

    /// Highest address.
    pub open spec fn high(self) -> u16 {
        if self.start_addr <= self.end_addr {
            self.end_addr
        } else {
            self.start_addr
        }
    }

    /// Number of addresses from the lowest to the highest.
    pub open spec fn extent(self) -> int {
        self.high() - self.low() + 1
    }

    pub open spec fn covers(self, addr: u16) -> bool {
        self.low() <= addr <= self.high()
    }

    pub open spec fn reverse(self) -> bool {
        self.is_forward == Some(false)
    }

    /// What holds of every traced range: it has a write, a single write has a
    /// single address, and its edges stand in writing order.
    pub open spec fn traced(self) -> bool {
        &&& self.write_count >= 1
        &&& self.write_count == 1 ==> self.start_addr == self.end_addr
        &&& if self.reverse() {
            self.end_addr <= self.start_addr
        } else {
            self.start_addr <= self.end_addr
        }
    }

    pub fn size(&self) -> (n: u32)
        ensures
            n == self.extent(),
    {
        (self.max_addr() - self.min_addr()) as u32 + 1
    }

    pub fn min_addr(&self) -> (a: u16)
        ensures
            a == self.low(),
    {
        if self.start_addr <= self.end_addr {
            self.start_addr
        } else {
            self.end_addr
        }
    }

    pub fn max_addr(&self) -> (a: u16)
        ensures
            a == self.high(),
    {
        if self.start_addr <= self.end_addr {
            self.end_addr
        } else {
            self.start_addr
        }
    }

    pub fn is_indirect(&self) -> (b: bool)
        ensures
            b == self.mode.indirect(),
    {
        self.mode.is_indirect()
    }

    pub open spec fn direction_name(self) -> Seq<char> {
        match self.is_forward {
            None => "single"@,
            Some(true) => "forward"@,
            Some(false) => "reverse"@,
        }
    }

    pub fn direction(&self) -> (s: &'static str)
        ensures
            s@ == self.direction_name(),
    {
        match self.is_forward {
            None => "single",
            Some(true) => "forward",
            Some(false) => "reverse",
        }
    }

    fn backwards(&self) -> (b: bool)
        ensures
            b == self.reverse(),
    {
        match self.is_forward {
            Some(forward) => !forward,
            None => false,
        }
    }
}

// ---------------------------------------------------------------------------
// Growing one range
// ---------------------------------------------------------------------------

/// The range with one more write. The second write decides the direction; the edge
/// that the write lies beyond moves out to it.
pub open spec fn extended(r: WriteRange, addr: u16, now: u64) -> WriteRange {
    let direction = if r.write_count == 1 {
        Some(addr > r.start_addr)
    } else {
        r.is_forward
    };
    let reverse = direction == Some(false);
    WriteRange {
        start_addr: if if reverse {
            addr > r.high()
        } else {
            addr < r.low()
        } {
            addr
        } else {
            r.start_addr
        },
        end_addr: if if reverse {
            addr < r.low()
        } else {
            addr > r.high()
        } {
            addr
        } else {
            r.end_addr
        },
        last_write_instr: now,
        write_count: (r.write_count + 1) as u32,
        is_forward: direction,
        ..r
    }
}

/// Two ranges as one: it spans both, counts the writes of both, and keeps the
/// direction and origin of the first.
pub open spec fn united(a: WriteRange, b: WriteRange) -> WriteRange {
    let low = if a.low() <= b.low() {
        a.low()
    } else {
        b.low()
    };
    let high = if a.high() >= b.high() {
        a.high()
    } else {
        b.high()
    };
    WriteRange {
        start_addr: if a.reverse() {
            high
        } else {
            low
        },
        end_addr: if a.reverse() {
            low
        } else {
            high
        },
        write_count: (a.write_count + b.write_count) as u32,
        first_write_instr: if a.first_write_instr <= b.first_write_instr {
            a.first_write_instr
        } else {
            b.first_write_instr
        },
        last_write_instr: if a.last_write_instr >= b.last_write_instr {
            a.last_write_instr
        } else {
            b.last_write_instr
        },
        ..a
    }
}

pub fn extend_range(r: WriteRange, addr: u16, now: u64) -> (e: WriteRange)
    requires
        r.write_count < u32::MAX,
    ensures
        e == extended(r, addr, now),
{
    let mut e: WriteRange = r;
    if r.write_count == 1 {
        e.is_forward = Some(addr > r.start_addr);
    }
    let reverse: bool = e.backwards();
    if addr < r.min_addr() {
        if reverse {
            e.end_addr = addr;
        } else {
            e.start_addr = addr;
        }
    } else if addr > r.max_addr() {
        if reverse {
            e.start_addr = addr;
        } else {
            e.end_addr = addr;
        }
    }
    e.last_write_instr = now;
    e.write_count = r.write_count + 1;
    e
}

pub fn unite(a: WriteRange, b: WriteRange) -> (u: WriteRange)
    requires
        a.write_count + b.write_count <= u32::MAX,
    ensures
        u == united(a, b),
{
    let low: u16 = if a.min_addr() <= b.min_addr() {
        a.min_addr()
    } else {
        b.min_addr()
    };
    let high: u16 = if a.max_addr() >= b.max_addr() {
        a.max_addr()
    } else {
        b.max_addr()
    };
    let mut u: WriteRange = a;
    if a.backwards() {
        u.start_addr = high;
        u.end_addr = low;
    } else {
        u.start_addr = low;
        u.end_addr = high;
    }
    u.write_count = a.write_count + b.write_count;
    if b.first_write_instr < a.first_write_instr {
        u.first_write_instr = b.first_write_instr;
    }
    if b.last_write_instr > a.last_write_instr {
        u.last_write_instr = b.last_write_instr;
    }
    u
}

// ---------------------------------------------------------------------------
// Counting writes
// ---------------------------------------------------------------------------

/// Number of writes in all ranges together.
pub open spec fn total_writes(s: Seq<WriteRange>) -> int
    decreases s.len(),
{
    if s.len() == 0 {
        0
    } else {
        total_writes(s.drop_last()) + s.last().write_count
    }
}

pub open spec fn all_traced(s: Seq<WriteRange>) -> bool {
    forall|i: int| 0 <= i < s.len() ==> (#[trigger] s[i]).traced()
}

pub proof fn total_of_push(s: Seq<WriteRange>, r: WriteRange)
    ensures
        total_writes(s.push(r)) == total_writes(s) + r.write_count,
{
    assert(s.push(r).drop_last() =~= s);
}

pub proof fn total_nonnegative(s: Seq<WriteRange>)
    ensures
        total_writes(s) >= 0,
    decreases s.len(),
{
    if s.len() > 0 {
        total_nonnegative(s.drop_last());
    }
}

pub proof fn total_of_concat(s: Seq<WriteRange>, t: Seq<WriteRange>)
    ensures
        total_writes(s + t) == total_writes(s) + total_writes(t),
    decreases t.len(),
{
    if t.len() == 0 {
        assert(s + t =~= s);
    } else {
        assert((s + t).drop_last() =~= s + t.drop_last());
        total_of_concat(s, t.drop_last());
    }
}

pub proof fn total_of_update(s: Seq<WriteRange>, i: int, r: WriteRange)
    requires
        0 <= i < s.len(),
    ensures
        total_writes(s.update(i, r)) == total_writes(s) - s[i].write_count + r.write_count,
        total_writes(s) >= s[i].write_count,
    decreases s.len(),
{
    total_nonnegative(s.drop_last());
    if i == s.len() - 1 {
        assert(s.update(i, r).drop_last() =~= s.drop_last());
    } else {
        assert(s.update(i, r).drop_last() =~= s.drop_last().update(i, r));
        total_of_update(s.drop_last(), i, r);
    }
}

pub proof fn total_of_remove(s: Seq<WriteRange>, i: int)
    requires
        0 <= i < s.len(),
    ensures
        total_writes(s.remove(i)) == total_writes(s) - s[i].write_count,
    decreases s.len(),
{
    if i == s.len() - 1 {
        assert(s.remove(i) =~= s.drop_last());
    } else {
        assert(s.remove(i).drop_last() =~= s.drop_last().remove(i));
        total_of_remove(s.drop_last(), i);
    }
}

pub proof fn total_of_filter(s: Seq<WriteRange>, keep: spec_fn(WriteRange) -> bool)
    ensures
        0 <= total_writes(s.filter(keep)) <= total_writes(s),
    decreases s.len(),
{
    reveal(Seq::filter);
    if s.len() > 0 {
        total_of_filter(s.drop_last(), keep);
        let front = s.drop_last().filter(keep);
        if keep(s.last()) {
            total_of_push(front, s.last());
        }
    }
}

/// Filtering a longer list by one.
pub proof fn filter_step(s: Seq<WriteRange>, keep: spec_fn(WriteRange) -> bool, i: int)
    requires
        0 <= i < s.len(),
    ensures
        s.take(i + 1).filter(keep) == if keep(s[i]) {
            s.take(i).filter(keep).push(s[i])
        } else {
            s.take(i).filter(keep)
        },
{
    reveal(Seq::filter);
    assert(s.take(i + 1).drop_last() =~= s.take(i));
}

pub proof fn filter_shortens(s: Seq<WriteRange>, keep: spec_fn(WriteRange) -> bool)
    ensures
        s.filter(keep).len() <= s.len(),
    decreases s.len(),
{
    reveal(Seq::filter);
    if s.len() > 0 {
        filter_shortens(s.drop_last(), keep);
    }
}

/// A filtered list holds only what the filter lets through.
pub proof fn filter_only_keeps(s: Seq<WriteRange>, keep: spec_fn(WriteRange) -> bool)
    ensures
        forall|r: WriteRange| #[trigger] s.filter(keep).contains(r) ==> keep(r) && s.contains(r),
    decreases s.len(),
{
    reveal(Seq::filter);
    if s.len() > 0 {
        let front = s.drop_last();
        filter_only_keeps(front, keep);
        assert forall|r: WriteRange| #[trigger] s.filter(keep).contains(r) implies keep(r)
            && s.contains(r) by {
            let f = front.filter(keep);
            let i = choose|i: int| 0 <= i < s.filter(keep).len() && s.filter(keep)[i] == r;
            if i < f.len() {
                assert(f.contains(r));
                let k = choose|k: int| 0 <= k < front.len() && front[k] == r;
                assert(s[k] == r);
            } else {
                assert(s[s.len() - 1] == r);
            }
        }
    }
}

pub proof fn filter_keeps_traced(s: Seq<WriteRange>, keep: spec_fn(WriteRange) -> bool)
    requires
        all_traced(s),
    ensures
        all_traced(s.filter(keep)),
        forall|i: int| 0 <= i < s.filter(keep).len() ==> keep(#[trigger] s.filter(keep)[i]),
    decreases s.len(),
{
    reveal(Seq::filter);
    if s.len() > 0 {
        assert forall|i: int| 0 <= i < s.drop_last().len() implies (
        #[trigger] s.drop_last()[i]).traced() by {
            assert(s[i].traced());
        }
        filter_keeps_traced(s.drop_last(), keep);
        assert(s[s.len() - 1].traced());
    }
}

// ---------------------------------------------------------------------------
// Ordering
// ---------------------------------------------------------------------------

/// What ranges are ordered by: the lowest address, and before it, on request, the
/// addressing mode.
pub open spec fn sort_key(r: WriteRange, by_mode: bool) -> int {
    if by_mode {
        r.mode.rank_spec() * 0x1_0000 + r.low()
    } else {
        r.low() as int
    }
}

/// An ordered list with one more range, which goes behind its equals.
pub open spec fn inserted(s: Seq<WriteRange>, r: WriteRange, by_mode: bool) -> Seq<WriteRange>
    decreases s.len(),
{
    if s.len() == 0 || sort_key(s.last(), by_mode) <= sort_key(r, by_mode) {
        s.push(r)
    } else {
        inserted(s.drop_last(), r, by_mode).push(s.last())
    }
}

/// The ranges in ascending order of their key; equals keep their order.
pub open spec fn sorted(s: Seq<WriteRange>, by_mode: bool) -> Seq<WriteRange>
    decreases s.len(),
{
    if s.len() == 0 {
        s
    } else {
        inserted(sorted(s.drop_last(), by_mode), s.last(), by_mode)
    }
}

proof fn insertion_point(s: Seq<WriteRange>, r: WriteRange, by_mode: bool, p: int)
    requires
        0 <= p <= s.len(),
        p == 0 || sort_key(s[p - 1], by_mode) <= sort_key(r, by_mode),
        forall|i: int| p <= i < s.len() ==> sort_key(#[trigger] s[i], by_mode) > sort_key(r, by_mode),
    ensures
        inserted(s, r, by_mode) == s.insert(p, r),
    decreases s.len(),
{
    if p == s.len() {
        assert(s.insert(p, r) =~= s.push(r));
    } else {
        assert(sort_key(s[s.len() - 1], by_mode) > sort_key(r, by_mode));
        insertion_point(s.drop_last(), r, by_mode, p);
        assert(s.insert(p, r) =~= s.drop_last().insert(p, r).push(s.last()));
    }
}

fn key_of(r: &WriteRange, by_mode: bool) -> (k: u32)
    ensures
        k == sort_key(*r, by_mode),
{
    if by_mode {
        r.mode.rank() as u32 * 0x1_0000 + r.min_addr() as u32
    } else {
        r.min_addr() as u32
    }
}

/// The ranges in ascending order of their key; equals keep their order.
pub fn sort_ranges(v: &Vec<WriteRange>, by_mode: bool) -> (out: Vec<WriteRange>)
    ensures
        out@ == sorted(v@, by_mode),
        out@.len() == v@.len(),
{
    let mut out: Vec<WriteRange> = Vec::new();
    let mut i: usize = 0;
    while i < v.len()
        invariant
            i <= v@.len(),
            out@ == sorted(v@.take(i as int), by_mode),
            out@.len() == i,
        decreases v@.len() - i,
    {
        let r: WriteRange = v[i];
        let k: u32 = key_of(&r, by_mode);
        let mut p: usize = out.len();
        while p > 0 && key_of(&out[p - 1], by_mode) > k
            invariant
                p <= out@.len(),
                k == sort_key(r, by_mode),
                forall|j: int| p <= j < out@.len() ==> sort_key(#[trigger] out@[j], by_mode) > k,
            decreases p,
        {
            p = p - 1;
        }
        proof {
            insertion_point(out@, r, by_mode, p as int);
            assert(v@.take(i + 1).drop_last() =~= v@.take(i as int));
            assert(v@.take(i + 1).last() == r);
        }
        out.insert(p, r);
        i = i + 1;
    }
    assert(v@.take(i as int) =~= v@);
    out
}

proof fn inserted_facts(s: Seq<WriteRange>, r: WriteRange, by_mode: bool)
    ensures
        inserted(s, r, by_mode).len() == s.len() + 1,
        total_writes(inserted(s, r, by_mode)) == total_writes(s) + r.write_count,
        all_traced(s) && r.traced() ==> all_traced(inserted(s, r, by_mode)),
        inserted(s, r, by_mode).to_multiset() == s.to_multiset().insert(r),
    decreases s.len(),
{
    broadcast use vstd::seq_lib::group_to_multiset_ensures;

    if s.len() == 0 || sort_key(s.last(), by_mode) <= sort_key(r, by_mode) {
        total_of_push(s, r);
    } else {
        let front = s.drop_last();
        inserted_facts(front, r, by_mode);
        let t = inserted(front, r, by_mode);
        total_of_push(t, s.last());
        if all_traced(s) && r.traced() {
            assert forall|i: int| 0 <= i < front.len() implies (#[trigger] front[i]).traced() by {
                assert(s[i].traced());
            }
            assert(s[s.len() - 1].traced());
        }
        assert(front.push(s.last()) =~= s);
        assert(t.push(s.last()).to_multiset() =~= s.to_multiset().insert(r));
    }
}

/// Ordering the ranges loses and adds nothing.
pub proof fn sorting_permutes(s: Seq<WriteRange>, by_mode: bool)
    ensures
        sorted(s, by_mode).to_multiset() == s.to_multiset(),
        sorted(s, by_mode).len() == s.len(),
        total_writes(sorted(s, by_mode)) == total_writes(s),
        all_traced(s) ==> all_traced(sorted(s, by_mode)),
    decreases s.len(),
{
    broadcast use vstd::seq_lib::group_to_multiset_ensures;

    if s.len() > 0 {
        let front = s.drop_last();
        if all_traced(s) {
            assert forall|i: int| 0 <= i < front.len() implies (#[trigger] front[i]).traced() by {
                assert(s[i].traced());
            }
            assert(s[s.len() - 1].traced());
        }
        sorting_permutes(front, by_mode);
        inserted_facts(sorted(front, by_mode), s.last(), by_mode);
        assert(front.push(s.last()) =~= s);
    }
}

/// The keys of an ordered list ascend.
pub open spec fn ascending(s: Seq<WriteRange>, by_mode: bool) -> bool {
    forall|i: int, j: int|
        0 <= i <= j < s.len() ==> sort_key(#[trigger] s[i], by_mode) <= sort_key(
            #[trigger] s[j],
            by_mode,
        )
}

proof fn inserted_ascends(s: Seq<WriteRange>, r: WriteRange, by_mode: bool, bound: int)
    requires
        ascending(s, by_mode),
        forall|i: int| 0 <= i < s.len() ==> sort_key(#[trigger] s[i], by_mode) <= bound,
        sort_key(r, by_mode) <= bound,
    ensures
        ascending(inserted(s, r, by_mode), by_mode),
        forall|i: int|
            0 <= i < inserted(s, r, by_mode).len() ==> sort_key(
                #[trigger] inserted(s, r, by_mode)[i],
                by_mode,
            ) <= bound,
    decreases s.len(),
{
    if s.len() > 0 && sort_key(s.last(), by_mode) > sort_key(r, by_mode) {
        let front = s.drop_last();
        assert forall|i: int| 0 <= i < front.len() implies sort_key(
            #[trigger] front[i],
            by_mode,
        ) <= sort_key(s.last(), by_mode) by {
            assert(sort_key(s[i], by_mode) <= sort_key(s[s.len() - 1], by_mode));
        }
        assert forall|i: int, j: int| 0 <= i <= j < front.len() implies sort_key(
            #[trigger] front[i],
            by_mode,
        ) <= sort_key(#[trigger] front[j], by_mode) by {
            assert(sort_key(s[i], by_mode) <= sort_key(s[j], by_mode));
        }
        inserted_ascends(front, r, by_mode, sort_key(s.last(), by_mode));
        assert(sort_key(s[s.len() - 1], by_mode) <= bound);
    } else if s.len() > 0 {
        assert forall|i: int| 0 <= i < s.len() implies sort_key(#[trigger] s[i], by_mode)
            <= sort_key(r, by_mode) by {
            assert(sort_key(s[i], by_mode) <= sort_key(s[s.len() - 1], by_mode));
        }
    }
}

/// The ordered ranges ascend.
pub proof fn sorting_sorts(s: Seq<WriteRange>, by_mode: bool)
    ensures
        ascending(sorted(s, by_mode), by_mode),
    decreases s.len(),
{
    if s.len() > 0 {
        sorting_sorts(s.drop_last(), by_mode);
        inserted_ascends(
            sorted(s.drop_last(), by_mode),
            s.last(),
            by_mode,
            0x100_0000,
        );
    }
}

/// The ranges with one particular key.
pub open spec fn with_key(key: int, by_mode: bool) -> spec_fn(WriteRange) -> bool {
    |r: WriteRange| sort_key(r, by_mode) == key
}

proof fn inserted_keeps_equals(s: Seq<WriteRange>, r: WriteRange, by_mode: bool, key: int)
    requires
        ascending(s, by_mode),
    ensures
        inserted(s, r, by_mode).filter(with_key(key, by_mode)) == s.push(r).filter(
            with_key(key, by_mode),
        ),
    decreases s.len(),
{
    reveal(Seq::filter);
    let f = with_key(key, by_mode);
    if s.len() > 0 && sort_key(s.last(), by_mode) > sort_key(r, by_mode) {
        let front = s.drop_last();
        assert forall|i: int, j: int| 0 <= i <= j < front.len() implies sort_key(
            #[trigger] front[i],
            by_mode,
        ) <= sort_key(#[trigger] front[j], by_mode) by {
            assert(sort_key(s[i], by_mode) <= sort_key(s[j], by_mode));
        }
        inserted_keeps_equals(front, r, by_mode, key);
        let t = inserted(front, r, by_mode);
        assert(t.push(s.last()).drop_last() =~= t);
        assert(front.push(r).drop_last() =~= front);
        assert(s.push(r).drop_last() =~= s);
        let last = s.last();
        assert(t.push(last).last() == last && front.push(r).last() == r && s.push(r).last() == r);
        assert(t.push(last).filter(f) == if f(last) {
            t.filter(f).push(last)
        } else {
            t.filter(f)
        });
        assert(front.push(r).filter(f) == if f(r) {
            front.filter(f).push(r)
        } else {
            front.filter(f)
        });
        assert(s.filter(f) == if f(last) {
            front.filter(f).push(last)
        } else {
            front.filter(f)
        });
        assert(s.push(r).filter(f) == if f(r) {
            s.filter(f).push(r)
        } else {
            s.filter(f)
        });
    }
}

/// Ordering is stable: ranges with equal keys keep their order.
pub proof fn sorting_is_stable(s: Seq<WriteRange>, by_mode: bool, key: int)
    ensures
        sorted(s, by_mode).filter(with_key(key, by_mode)) == s.filter(with_key(key, by_mode)),
    decreases s.len(),
{
    reveal(Seq::filter);
    if s.len() > 0 {
        let front = s.drop_last();
        sorting_is_stable(front, by_mode, key);
        sorting_sorts(front, by_mode);
        inserted_keeps_equals(sorted(front, by_mode), s.last(), by_mode, key);
        assert(sorted(front, by_mode).push(s.last()).drop_last() =~= sorted(front, by_mode));
    }
}

// ---------------------------------------------------------------------------
// Merging
// ---------------------------------------------------------------------------

/// Whether `b`, which follows `a` in order, continues it: the same mode (and
/// pointer), and no more than `gap` addresses beyond its end.
pub open spec fn continues(a: WriteRange, b: WriteRange, gap: int) -> bool {
    &&& a.mode == b.mode
    &&& a.mode.indirect() ==> a.base_ptr == b.base_ptr
    &&& b.low() <= a.high() + gap
}

/// The list with every range from position `i` on united with the neighbours that
/// continue it.
pub open spec fn merged_from(s: Seq<WriteRange>, i: int, gap: int) -> Seq<WriteRange>
    decreases 2 * s.len() - i,
{
    if i < 0 || i + 1 >= s.len() {
        s
    } else if continues(s[i], s[i + 1], gap) {
        merged_from(s.remove(i + 1).update(i, united(s[i], s[i + 1])), i, gap)
    } else {
        merged_from(s, i + 1, gap)
    }
}

/// The ranges ordered by mode and address, with neighbours united.
pub open spec fn merged(s: Seq<WriteRange>, gap: int) -> Seq<WriteRange> {
    merged_from(sorted(s, true), 0, gap)
}

proof fn merge_step(s: Seq<WriteRange>, i: int)
    requires
        0 <= i,
        i + 1 < s.len(),
        total_writes(s) <= 0x1_0000,
    ensures
        s[i].write_count + s[i + 1].write_count <= 0x1_0000,
        ({
            let t = s.remove(i + 1).update(i, united(s[i], s[i + 1]));
            &&& total_writes(t) == total_writes(s)
            &&& all_traced(s) ==> all_traced(t)
        }),
{
    total_of_remove(s, i + 1);
    let t = s.remove(i + 1);
    assert(t[i] == s[i]);
    total_of_update(t, i, united(s[i], s[i + 1]));
    if all_traced(s) {
        assert(s[i].traced() && s[i + 1].traced());
        let u = t.update(i, united(s[i], s[i + 1]));
        assert forall|j: int| 0 <= j < u.len() implies (#[trigger] u[j]).traced() by {
            if j < i {
                assert(s[j].traced());
            } else if j > i {
                assert(s[j + 1].traced());
            }
        }
    }
}

proof fn merging_from_counts(s: Seq<WriteRange>, i: int, gap: int)
    requires
        total_writes(s) <= 0x1_0000,
    ensures
        total_writes(merged_from(s, i, gap)) == total_writes(s),
        all_traced(s) ==> all_traced(merged_from(s, i, gap)),
    decreases 2 * s.len() - i,
{
    if i >= 0 && i + 1 < s.len() {
        if continues(s[i], s[i + 1], gap) {
            merge_step(s, i);
            merging_from_counts(s.remove(i + 1).update(i, united(s[i], s[i + 1])), i, gap);
        } else {
            merging_from_counts(s, i + 1, gap);
        }
    }
}

/// Merging counts every write that was counted before, and no other.
pub proof fn merging_keeps_the_count(s: Seq<WriteRange>, gap: int)
    requires
        total_writes(s) <= 0x1_0000,
    ensures
        total_writes(merged(s, gap)) == total_writes(s),
        all_traced(s) ==> all_traced(merged(s, gap)),
{
    sorting_permutes(s, true);
    merging_from_counts(sorted(s, true), 0, gap);
}

/// Order the ranges and unite neighbours.
pub fn merge_list(v: &Vec<WriteRange>, gap: i32) -> (out: Vec<WriteRange>)
    requires
        total_writes(v@) <= 0x1_0000,
    ensures
        out@ == merged(v@, gap as int),
{
    let mut out: Vec<WriteRange> = sort_ranges(v, true);
    proof {
        sorting_permutes(v@, true);
    }
    let mut i: usize = 0;
    while out.len() - i > 1
        invariant
            i <= out@.len(),
            total_writes(out@) <= 0x1_0000,
            merged_from(out@, i as int, gap as int) == merged(v@, gap as int),
        decreases 2 * out@.len() - i,
    {
        let cur: WriteRange = out[i];
        let next: WriteRange = out[i + 1];
        let same: bool = cur.mode == next.mode && (!cur.is_indirect() || cur.base_ptr
            == next.base_ptr);
        if same && next.min_addr() as i64 <= cur.max_addr() as i64 + gap as i64 {
            proof {
                merge_step(out@, i as int);
            }
            out.remove(i + 1);
            out[i] = unite(cur, next);
        } else {
            i = i + 1;
        }
    }
    out
}

/// Two ranges written through the same pointer in the same mode.
pub open spec fn same_stream(a: WriteRange, b: WriteRange) -> bool {
    a.mode == b.mode && a.base_ptr == b.base_ptr
}

/// Position of the first range from `i` on that shares the stream of `r`, or the
/// length of the list.
pub open spec fn stream_position(s: Seq<WriteRange>, r: WriteRange, i: int) -> int
    decreases s.len() - i,
{
    if i >= s.len() {
        s.len() as int
    } else if same_stream(s[i], r) {
        i
    } else {
        stream_position(s, r, i + 1)
    }
}

/// The list with `r` united into the range of its stream, or added.
pub open spec fn absorbed(s: Seq<WriteRange>, r: WriteRange) -> Seq<WriteRange> {
    let i = stream_position(s, r, 0);
    if i < s.len() {
        s.update(i, united(s[i], r))
    } else {
        s.push(r)
    }
}

/// The ranges united stream by stream, regardless of gaps.
pub open spec fn streams(s: Seq<WriteRange>) -> Seq<WriteRange>
    decreases s.len(),
{
    if s.len() == 0 {
        s
    } else {
        absorbed(streams(s.drop_last()), s.last())
    }
}

/// The ranges written through a pointer, or all others.
pub open spec fn of_kind(indirect: bool) -> spec_fn(WriteRange) -> bool {
    |r: WriteRange| r.mode.indirect() == indirect
}

/// All indirect ranges united stream by stream, then the direct ranges.
pub open spec fn merged_by_pointer(s: Seq<WriteRange>) -> Seq<WriteRange> {
    streams(s.filter(of_kind(true))) + s.filter(of_kind(false))
}

pub proof fn stream_position_bounds(s: Seq<WriteRange>, r: WriteRange, i: int)
    requires
        0 <= i <= s.len(),
    ensures
        i <= stream_position(s, r, i) <= s.len(),
        stream_position(s, r, i) < s.len() ==> same_stream(s[stream_position(s, r, i)], r),
        forall|j: int| i <= j < stream_position(s, r, i) ==> !same_stream(#[trigger] s[j], r),
    decreases s.len() - i,
{
    if i < s.len() && !same_stream(s[i], r) {
        stream_position_bounds(s, r, i + 1);
    }
}

proof fn absorbing_counts(s: Seq<WriteRange>, r: WriteRange)
    requires
        total_writes(s) + r.write_count <= 0x1_0000,
    ensures
        total_writes(absorbed(s, r)) == total_writes(s) + r.write_count,
        all_traced(s) && r.traced() ==> all_traced(absorbed(s, r)),
        ({
            let i = stream_position(s, r, 0);
            0 <= i <= s.len() && (i < s.len() ==> s[i].write_count + r.write_count <= 0x1_0000)
        }),
{
    let i = stream_position(s, r, 0);
    stream_position_bounds(s, r, 0);
    if i < s.len() {
        total_of_update(s, i, united(s[i], r));
        if all_traced(s) && r.traced() {
            assert(s[i].traced());
            let t = s.update(i, united(s[i], r));
            assert forall|j: int| 0 <= j < t.len() implies (#[trigger] t[j]).traced() by {
                assert(s[j].traced());
            }
        }
    } else {
        total_of_push(s, r);
    }
}

proof fn streaming_counts(s: Seq<WriteRange>)
    requires
        total_writes(s) <= 0x1_0000,
    ensures
        total_writes(streams(s)) == total_writes(s),
        all_traced(s) ==> all_traced(streams(s)),
    decreases s.len(),
{
    if s.len() > 0 {
        let front = s.drop_last();
        if all_traced(s) {
            assert forall|i: int| 0 <= i < front.len() implies (#[trigger] front[i]).traced() by {
                assert(s[i].traced());
            }
            assert(s[s.len() - 1].traced());
        }
        streaming_counts(front);
        absorbing_counts(streams(front), s.last());
    }
}

proof fn kinds_split_the_count(s: Seq<WriteRange>)
    ensures
        total_writes(s.filter(of_kind(true))) + total_writes(s.filter(of_kind(false)))
            == total_writes(s),
    decreases s.len(),
{
    reveal(Seq::filter);
    if s.len() > 0 {
        let front = s.drop_last();
        kinds_split_the_count(front);
        total_of_push(front.filter(of_kind(true)), s.last());
        total_of_push(front.filter(of_kind(false)), s.last());
    }
}

/// Merging by pointer counts every write that was counted before, and no other.
pub proof fn merging_by_pointer_keeps_the_count(s: Seq<WriteRange>)
    requires
        total_writes(s) <= 0x1_0000,
    ensures
        total_writes(merged_by_pointer(s)) == total_writes(s),
        all_traced(s) ==> all_traced(merged_by_pointer(s)),
{
    kinds_split_the_count(s);
    total_of_filter(s, of_kind(false));
    let ind = s.filter(of_kind(true));
    let dir = s.filter(of_kind(false));
    streaming_counts(ind);
    total_of_concat(streams(ind), dir);
    if all_traced(s) {
        filter_keeps_traced(s, of_kind(true));
        filter_keeps_traced(s, of_kind(false));
    }
}

fn pick_kind(v: &Vec<WriteRange>, indirect: bool) -> (out: Vec<WriteRange>)
    ensures
        out@ == v@.filter(of_kind(indirect)),
{
    let mut out: Vec<WriteRange> = Vec::new();
    let mut i: usize = 0;
    proof {
        reveal(Seq::filter);
        assert(v@.take(0).filter(of_kind(indirect)) =~= Seq::empty());
    }
    while i < v.len()
        invariant
            i <= v@.len(),
            out@ == v@.take(i as int).filter(of_kind(indirect)),
        decreases v@.len() - i,
    {
        proof {
            filter_step(v@, of_kind(indirect), i as int);
        }
        if v[i].is_indirect() == indirect {
            out.push(v[i]);
        }
        i = i + 1;
    }
    assert(v@.take(i as int) =~= v@);
    out
}

/// Merge ALL indirect ranges sharing (mode, pointer) regardless of gaps:
/// a safety net for decrunchers that pause between blocks.
pub fn merge_list_by_pointer(v: &Vec<WriteRange>) -> (out: Vec<WriteRange>)
    requires
        total_writes(v@) <= 0x1_0000,
    ensures
        out@ == merged_by_pointer(v@),
{
    let indirect: Vec<WriteRange> = pick_kind(v, true);
    let mut direct: Vec<WriteRange> = pick_kind(v, false);
    proof {
        kinds_split_the_count(v@);
        total_of_filter(v@, of_kind(false));
    }
    let mut out: Vec<WriteRange> = Vec::new();
    let mut i: usize = 0;
    while i < indirect.len()
        invariant
            i <= indirect@.len(),
            total_writes(indirect@) <= 0x1_0000,
            out@ == streams(indirect@.take(i as int)),
        decreases indirect@.len() - i,
    {
        let r: WriteRange = indirect[i];
        proof {
            let done = indirect@.take(i + 1);
            assert(done.drop_last() =~= indirect@.take(i as int));
            assert(done + indirect@.skip(i + 1) =~= indirect@);
            total_of_concat(done, indirect@.skip(i + 1));
            total_nonnegative(indirect@.skip(i + 1));
            streaming_counts(indirect@.take(i as int));
            absorbing_counts(out@, r);
        }
        let mut k: usize = 0;
        while k < out.len() && !(out[k].mode == r.mode && out[k].base_ptr == r.base_ptr)
            invariant
                k <= out@.len(),
                stream_position(out@, r, 0) == stream_position(out@, r, k as int),
            decreases out@.len() - k,
        {
            k = k + 1;
        }
        if k < out.len() {
            out[k] = unite(out[k], r);
        } else {
            out.push(r);
        }
        i = i + 1;
    }
    assert(indirect@.take(i as int) =~= indirect@);
    out.append(&mut direct);
    out
}

// ---------------------------------------------------------------------------
// Dropping noise
// ---------------------------------------------------------------------------

/// The ranges with enough writes; indirect ranges may be spared.
pub open spec fn substantial(min: u32, spare_indirect: bool) -> spec_fn(WriteRange) -> bool {
    |r: WriteRange| (spare_indirect && r.mode.indirect()) || r.write_count >= min
}

/// Drop the ranges with fewer writes than `min`.
pub fn drop_small(v: &Vec<WriteRange>, min: u32, spare_indirect: bool) -> (out: Vec<WriteRange>)
    ensures
        out@ == v@.filter(substantial(min, spare_indirect)),
{
    let mut out: Vec<WriteRange> = Vec::new();
    let mut i: usize = 0;
    proof {
        reveal(Seq::filter);
        assert(v@.take(0).filter(substantial(min, spare_indirect)) =~= Seq::empty());
    }
    while i < v.len()
        invariant
            i <= v@.len(),
            out@ == v@.take(i as int).filter(substantial(min, spare_indirect)),
        decreases v@.len() - i,
    {
        proof {
            filter_step(v@, substantial(min, spare_indirect), i as int);
        }
        if (spare_indirect && v[i].is_indirect()) || v[i].write_count >= min {
            out.push(v[i]);
        }
        i = i + 1;
    }
    assert(v@.take(i as int) =~= v@);
    out
}

// ---------------------------------------------------------------------------
// The largest range
// ---------------------------------------------------------------------------

/// The first range that no other exceeds in size.
pub open spec fn first_largest(s: Seq<WriteRange>) -> Option<WriteRange>
    decreases s.len(),
{
    if s.len() == 0 {
        None
    } else {
        match first_largest(s.drop_last()) {
            Some(r) => if s.last().extent() > r.extent() {
                Some(s.last())
            } else {
                Some(r)
            },
            None => Some(s.last()),
        }
    }
}

/// The last range that no other exceeds in size.
pub open spec fn last_largest(s: Seq<WriteRange>) -> Option<WriteRange>
    decreases s.len(),
{
    if s.len() == 0 {
        None
    } else {
        match last_largest(s.drop_last()) {
            Some(r) => if s.last().extent() >= r.extent() {
                Some(s.last())
            } else {
                Some(r)
            },
            None => Some(s.last()),
        }
    }
}

/// The first range that no other exceeds in size.
pub fn find_first_largest(v: &Vec<WriteRange>) -> (r: Option<WriteRange>)
    ensures
        r == first_largest(v@),
{
    let mut best: Option<WriteRange> = None;
    let mut i: usize = 0;
    while i < v.len()
        invariant
            i <= v@.len(),
            best == first_largest(v@.take(i as int)),
        decreases v@.len() - i,
    {
        assert(v@.take(i + 1).drop_last() =~= v@.take(i as int));
        let better: bool = match &best {
            Some(b) => v[i].size() > b.size(),
            None => true,
        };
        if better {
            best = Some(v[i]);
        }
        i = i + 1;
    }
    assert(v@.take(i as int) =~= v@);
    best
}

/// The last range that no other exceeds in size.
pub fn find_last_largest(v: &Vec<WriteRange>) -> (r: Option<WriteRange>)
    ensures
        r == last_largest(v@),
{
    let mut best: Option<WriteRange> = None;
    let mut i: usize = 0;
    while i < v.len()
        invariant
            i <= v@.len(),
            best == last_largest(v@.take(i as int)),
        decreases v@.len() - i,
    {
        assert(v@.take(i + 1).drop_last() =~= v@.take(i as int));
        let better: bool = match &best {
            Some(b) => v[i].size() >= b.size(),
            None => true,
        };
        if better {
            best = Some(v[i]);
        }
        i = i + 1;
    }
    assert(v@.take(i as int) =~= v@);
    best
}

// ---------------------------------------------------------------------------
// Laws
// ---------------------------------------------------------------------------

/// One more write is covered, everything covered before stays covered, and the
/// range stays in shape.
pub proof fn extending_covers(r: WriteRange, addr: u16, now: u64)
    requires
        r.traced(),
        r.write_count < u32::MAX,
    ensures
        extended(r, addr, now).covers(addr),
        forall|a: u16| r.covers(a) ==> extended(r, addr, now).covers(a),
        extended(r, addr, now).traced(),
        extended(r, addr, now).write_count == r.write_count + 1,
{
}

/// A united range covers exactly from the lowest to the highest address of both.
pub proof fn uniting_spans_both(a: WriteRange, b: WriteRange)
    requires
        a.write_count + b.write_count <= u32::MAX,
    ensures
        united(a, b).low() == if a.low() <= b.low() {
            a.low()
        } else {
            b.low()
        },
        united(a, b).high() == if a.high() >= b.high() {
            a.high()
        } else {
            b.high()
        },
        a.traced() && b.traced() ==> united(a, b).traced(),
{
}

/// Whether `q` spans all of `r` in the same mode.
pub open spec fn spans(q: WriteRange, r: WriteRange) -> bool {
    q.mode == r.mode && q.low() <= r.low() && r.high() <= q.high()
}

/// Whether some range of the list spans `r`.
pub open spec fn spanned(s: Seq<WriteRange>, r: WriteRange) -> bool {
    exists|j: int| 0 <= j < s.len() && spans(#[trigger] s[j], r)
}

proof fn merging_from_loses_nothing(s: Seq<WriteRange>, i: int, gap: int, r: WriteRange)
    requires
        spanned(s, r),
    ensures
        spanned(merged_from(s, i, gap), r),
    decreases 2 * s.len() - i,
{
    if i >= 0 && i + 1 < s.len() {
        if continues(s[i], s[i + 1], gap) {
            let t = s.remove(i + 1).update(i, united(s[i], s[i + 1]));
            let j = choose|j: int| 0 <= j < s.len() && spans(#[trigger] s[j], r);
            if j < i {
                assert(spans(t[j], r));
            } else if j <= i + 1 {
                assert(spans(t[i], r));
            } else {
                assert(t[j - 1] == s[j]);
                assert(spans(t[j - 1], r));
            }
            merging_from_loses_nothing(t, i, gap, r);
        } else {
            merging_from_loses_nothing(s, i + 1, gap, r);
        }
    }
}

/// Merging loses no address: every range is spanned by a range of its mode in the
/// merged list.
pub proof fn merging_loses_nothing(s: Seq<WriteRange>, gap: int, i: int)
    requires
        0 <= i < s.len(),
    ensures
        spanned(merged(s, gap), s[i]),
{
    broadcast use vstd::seq_lib::group_to_multiset_ensures;

    sorting_permutes(s, true);
    let t = sorted(s, true);
    assert(s.contains(s[i]));
    assert(s.to_multiset().count(s[i]) > 0);
    assert(t.to_multiset().count(s[i]) > 0);
    assert(t.contains(s[i]));
    let j = choose|j: int| 0 <= j < t.len() && t[j] == s[i];
    assert(spans(t[j], s[i]));
    merging_from_loses_nothing(t, 0, gap, s[i]);
}

/// Whether some range of the list was written in a mode through a pointer.
pub open spec fn has_stream(s: Seq<WriteRange>, mode: AddrMode, ptr: u8) -> bool {
    exists|i: int| 0 <= i < s.len() && (#[trigger] s[i]).mode == mode && s[i].base_ptr == ptr
}

proof fn sorting_keeps_streams(s: Seq<WriteRange>, mode: AddrMode, ptr: u8)
    ensures
        has_stream(sorted(s, true), mode, ptr) == has_stream(s, mode, ptr),
{
    broadcast use vstd::seq_lib::group_to_multiset_ensures;

    sorting_permutes(s, true);
    let t = sorted(s, true);
    if has_stream(s, mode, ptr) {
        let i = choose|i: int|
            0 <= i < s.len() && (#[trigger] s[i]).mode == mode && s[i].base_ptr == ptr;
        assert(s.contains(s[i]));
        assert(t.to_multiset().count(s[i]) > 0);
        assert(t.contains(s[i]));
    }
    if has_stream(t, mode, ptr) {
        let i = choose|i: int|
            0 <= i < t.len() && (#[trigger] t[i]).mode == mode && t[i].base_ptr == ptr;
        assert(t.contains(t[i]));
        assert(s.to_multiset().count(t[i]) > 0);
        assert(s.contains(t[i]));
    }
}

proof fn merging_from_keeps_streams(
    s: Seq<WriteRange>,
    i: int,
    gap: int,
    mode: AddrMode,
    ptr: u8,
)
    requires
        mode.indirect(),
    ensures
        has_stream(merged_from(s, i, gap), mode, ptr) == has_stream(s, mode, ptr),
    decreases 2 * s.len() - i,
{
    if i >= 0 && i + 1 < s.len() {
        if continues(s[i], s[i + 1], gap) {
            let t = s.remove(i + 1).update(i, united(s[i], s[i + 1]));
            merging_from_keeps_streams(t, i, gap, mode, ptr);
            if has_stream(s, mode, ptr) {
                let j = choose|j: int|
                    0 <= j < s.len() && (#[trigger] s[j]).mode == mode && s[j].base_ptr == ptr;
                let k = if j <= i {
                    j
                } else {
                    j - 1
                };
                assert(t[k].mode == mode && t[k].base_ptr == ptr);
            }
            if has_stream(t, mode, ptr) {
                let j = choose|j: int|
                    0 <= j < t.len() && (#[trigger] t[j]).mode == mode && t[j].base_ptr == ptr;
                let k = if j <= i {
                    j
                } else {
                    j + 1
                };
                assert(s[k].mode == mode && s[k].base_ptr == ptr);
            }
        } else {
            merging_from_keeps_streams(s, i + 1, gap, mode, ptr);
        }
    }
}

/// Dropping ranges keeps a stream whose ranges are not dropped.
pub proof fn filter_keeps_streams(
    s: Seq<WriteRange>,
    keep: spec_fn(WriteRange) -> bool,
    mode: AddrMode,
    ptr: u8,
)
    requires
        forall|r: WriteRange| r.mode == mode ==> #[trigger] keep(r),
    ensures
        has_stream(s.filter(keep), mode, ptr) == has_stream(s, mode, ptr),
    decreases s.len(),
{
    reveal(Seq::filter);
    if s.len() > 0 {
        let front = s.drop_last();
        let last = s.last();
        filter_keeps_streams(front, keep, mode, ptr);
        pushing_adds_a_stream(front, last, mode, ptr);
        assert(front.push(last) =~= s);
        pushing_adds_a_stream(front.filter(keep), last, mode, ptr);
    }
}

proof fn pushing_adds_a_stream(s: Seq<WriteRange>, r: WriteRange, mode: AddrMode, ptr: u8)
    ensures
        has_stream(s.push(r), mode, ptr) == (has_stream(s, mode, ptr) || r.mode == mode
            && r.base_ptr == ptr),
{
    let t = s.push(r);
    if has_stream(s, mode, ptr) {
        let i = choose|i: int|
            0 <= i < s.len() && (#[trigger] s[i]).mode == mode && s[i].base_ptr == ptr;
        assert(t[i] == s[i]);
    }
    if r.mode == mode && r.base_ptr == ptr {
        assert(t[s.len() as int] == r);
    }
    if has_stream(t, mode, ptr) {
        let i = choose|i: int|
            0 <= i < t.len() && (#[trigger] t[i]).mode == mode && t[i].base_ptr == ptr;
        if i < s.len() {
            assert(s[i] == t[i]);
        }
    }
}

proof fn uniting_keeps_streams(s: Seq<WriteRange>, mode: AddrMode, ptr: u8)
    ensures
        has_stream(streams(s), mode, ptr) == has_stream(s, mode, ptr),
    decreases s.len(),
{
    if s.len() > 0 {
        let front = s.drop_last();
        let r = s.last();
        let f = streams(front);
        let t = absorbed(f, r);
        uniting_keeps_streams(front, mode, ptr);
        pushing_adds_a_stream(front, r, mode, ptr);
        assert(front.push(r) =~= s);
        let k = stream_position(f, r, 0);
        stream_position_bounds(f, r, 0);
        if k < f.len() {
            if has_stream(f, mode, ptr) {
                let i = choose|i: int|
                    0 <= i < f.len() && (#[trigger] f[i]).mode == mode && f[i].base_ptr == ptr;
                assert(t[i].mode == mode && t[i].base_ptr == ptr);
            }
            if r.mode == mode && r.base_ptr == ptr {
                assert(t[k].mode == mode && t[k].base_ptr == ptr);
            }
            if has_stream(t, mode, ptr) {
                let i = choose|i: int|
                    0 <= i < t.len() && (#[trigger] t[i]).mode == mode && t[i].base_ptr == ptr;
                assert(f[i].mode == mode && f[i].base_ptr == ptr);
            }
        } else {
            pushing_adds_a_stream(f, r, mode, ptr);
        }
    }
}

/// Merging neither loses nor invents an output stream: a pointer has an indirect
/// range exactly where it had one before.
pub proof fn merging_keeps_streams(s: Seq<WriteRange>, gap: int, mode: AddrMode, ptr: u8)
    requires
        mode.indirect(),
    ensures
        has_stream(merged(s, gap), mode, ptr) == has_stream(s, mode, ptr),
        has_stream(merged_by_pointer(s), mode, ptr) == has_stream(s, mode, ptr),
{
    sorting_keeps_streams(s, mode, ptr);
    merging_from_keeps_streams(sorted(s, true), 0, gap, mode, ptr);
    let ind = s.filter(of_kind(true));
    let dir = s.filter(of_kind(false));
    let all = merged_by_pointer(s);
    filter_keeps_streams(s, of_kind(true), mode, ptr);
    uniting_keeps_streams(ind, mode, ptr);
    filter_only_keeps(s, of_kind(false));
    if has_stream(streams(ind), mode, ptr) {
        let i = choose|i: int|
            0 <= i < streams(ind).len() && (#[trigger] streams(ind)[i]).mode == mode && streams(
                ind,
            )[i].base_ptr == ptr;
        assert(all[i] == streams(ind)[i]);
    }
    if has_stream(all, mode, ptr) {
        let i = choose|i: int|
            0 <= i < all.len() && (#[trigger] all[i]).mode == mode && all[i].base_ptr == ptr;
        if i < streams(ind).len() {
            assert(streams(ind)[i] == all[i]);
        } else {
            assert(dir[i - streams(ind).len()] == all[i]);
            assert(dir.contains(all[i]));
        }
    }
}

/// After merging by pointer, no two indirect ranges share a mode and a pointer.
pub proof fn streams_are_distinct(s: Seq<WriteRange>)
    ensures
        forall|i: int, j: int|
            0 <= i < j < streams(s).len() ==> !same_stream(
                #[trigger] streams(s)[i],
                #[trigger] streams(s)[j],
            ),
    decreases s.len(),
{
    if s.len() > 0 {
        let front = streams(s.drop_last());
        streams_are_distinct(s.drop_last());
        let r = s.last();
        let k = stream_position(front, r, 0);
        stream_position_bounds(front, r, 0);
        let t = absorbed(front, r);
        assert forall|i: int, j: int| 0 <= i < j < t.len() implies !same_stream(
            #[trigger] t[i],
            #[trigger] t[j],
        ) by {
            if k < front.len() {
                assert(!same_stream(front[i], front[j]));
            } else if j < front.len() {
                assert(!same_stream(front[i], front[j]));
            } else {
                assert(!same_stream(front[i], r));
            }
        }
    }
}

/// The largest range is one of the list, and none is larger.
pub proof fn largest_is_largest(s: Seq<WriteRange>)
    ensures
        first_largest(s) is None <==> s.len() == 0,
        last_largest(s) is None <==> s.len() == 0,
        s.len() > 0 ==> {
            &&& s.contains(first_largest(s)->0)
            &&& s.contains(last_largest(s)->0)
            &&& forall|i: int|
                0 <= i < s.len() ==> (#[trigger] s[i]).extent() <= first_largest(s)->0.extent()
            &&& forall|i: int|
                0 <= i < s.len() ==> (#[trigger] s[i]).extent() <= last_largest(s)->0.extent()
        },
    decreases s.len(),
{
    if s.len() > 0 {
        let front = s.drop_last();
        largest_is_largest(front);
        assert(s.last() == s[s.len() - 1]);
        assert forall|i: int| 0 <= i < s.len() - 1 implies front[i] == #[trigger] s[i] by {}
        if front.len() > 0 {
            let f = first_largest(front)->0;
            let l = last_largest(front)->0;
            let i = choose|i: int| 0 <= i < front.len() && front[i] == f;
            assert(s[i] == f);
            let j = choose|j: int| 0 <= j < front.len() && front[j] == l;
            assert(s[j] == l);
        }
    }
}

} // verus!
