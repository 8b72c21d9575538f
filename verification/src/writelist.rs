//! Write-range tracing: the heart of the generic detection.
//!
//! While a decruncher runs in the emulator, every memory write is folded into
//! contiguous *ranges*, separated by addressing mode. Direct writes (abs/abs,X)
//! are grouped per originating code location; indirect writes ((zp),Y / (zp,X))
//! are grouped per zero-page pointer, since a decruncher streams its whole
//! output through one pointer, so that range *is* the unpacked program even when
//! the depacker pauses between blocks or writes backwards.
//!
//! Instruction counts are used as the time unit throughout.

use vstd::prelude::*;
use vstd::string::*;

use crate::cpu::{Cpu, MemOp};
use crate::fmt::{push_dec, push_hex2, push_hex4, push_padded};
use crate::instr::AddrMode;
use crate::ranges::{
    drop_small, extend_range, find_last_largest, merge_list, merge_list_by_pointer, sort_ranges,
};

pub use crate::ranges::WriteRange;

verus! {

use crate::fmt::{dec, hex2, hex4, padded};
use crate::ranges::{
    all_traced, ascending, extended, extending_covers, filter_keeps_streams, filter_keeps_traced,
    has_stream, last_largest, merged, merged_by_pointer, merging_by_pointer_keeps_the_count,
    merging_keeps_streams, merging_keeps_the_count, of_kind,
    same_stream, sorted, sorting_permutes, sorting_sorts, stream_position_bounds, streams,
    streams_are_distinct, substantial, total_of_filter, total_of_push, total_of_update,
    total_writes,
};

// ---------------------------------------------------------------------------
// The model of a trace
// ---------------------------------------------------------------------------

/// What a write list holds: its settings, the ranges in their present order, and
/// the addresses that were written.
#[verifier::ext_equal]
pub struct Trace {
    pub max_instr_between_direct_writes: u64,
    pub max_gap_for_merge: i32,
    pub max_pc_distance: i32,
    pub include_illegal_writes: bool,
    pub ranges: Seq<WriteRange>,
    pub written: Set<u16>,
}

/// A trace with the default settings and nothing in it.
pub open spec fn empty_trace() -> Trace {
    Trace {
        max_instr_between_direct_writes: 50_000,
        max_gap_for_merge: 32,
        max_pc_distance: 128,
        include_illegal_writes: false,
        ranges: Seq::empty(),
        written: Set::empty(),
    }
}

pub open spec fn distance(a: int, b: int) -> int {
    if a <= b {
        b - a
    } else {
        a - b
    }
}

/// Writes that never belong to unpacked output: zero-page scratch (except the
/// common $FB-$FF pointer area), the stack, and $D000-$DFFF writes that hit
/// the I/O chips. With RAM banked in ($01), a $D000-$DFFF write is payload
/// like anywhere else. Indirect writes are never noise, since their target is
/// the output stream.
pub open spec fn is_noise(addr: u16, mode: AddrMode, io_visible: bool) -> bool {
    if mode.indirect() {
        false
    } else if addr < 0x100 && (mode is ZeroPage || mode is ZeroPageX || mode is ZeroPageY) {
        addr < 0xFB
    } else if 0xD000 <= addr <= 0xDFFF {
        io_visible
    } else {
        0x0100 <= addr <= 0x01FF
    }
}

/// The write of the last instruction, if it counts: tracking is on, the access was
/// a write, from a documented opcode unless all are wanted, no noise, and the
/// first to its address.
pub open spec fn new_write(t: Trace, c: Cpu, io_visible: bool) -> Option<MemOp> {
    match c.last_op {
        Some(op) => if c.tracking && op.write && (!op.illegal || t.include_illegal_writes)
            && !is_noise(op.addr, op.mode, io_visible) && !t.written.contains(op.addr) {
            Some(op)
        } else {
            None
        },
        None => None,
    }
}

/// The pointer a write goes through; 0 for direct modes.
pub open spec fn stream_pointer(op: MemOp) -> u8 {
    if op.mode.indirect() {
        op.ptr
    } else {
        0
    }
}

/// Whether a write belongs to a range. Mode must match exactly; indirect
/// writes must share the pointer, and then always belong (same pointer means
/// same output stream, regardless of pauses or address gaps); direct writes
/// must come from nearby code, recently, and land in the range or close to it.
pub open spec fn belongs(t: Trace, r: WriteRange, op: MemOp, now: u64, pc: u16) -> bool {
    &&& r.mode == op.mode
    &&& if op.mode.indirect() {
        r.base_ptr == op.ptr
    } else {
        &&& distance(r.instruction_pc as int, pc as int) <= t.max_pc_distance
        &&& now.wrapping_sub(r.last_write_instr) <= t.max_instr_between_direct_writes
        &&& r.covers(op.addr) || distance(op.addr as int, r.low() as int) <= t.max_gap_for_merge
            || distance(op.addr as int, r.high() as int) <= t.max_gap_for_merge
    }
}

/// Position of the first range from `i` on that a write belongs to, or the number
/// of ranges.
pub open spec fn home(t: Trace, op: MemOp, now: u64, pc: u16, i: int) -> int
    decreases t.ranges.len() - i,
{
    if i >= t.ranges.len() {
        t.ranges.len() as int
    } else if belongs(t, t.ranges[i], op, now, pc) {
        i
    } else {
        home(t, op, now, pc, i + 1)
    }
}

/// A range made of one write.
pub open spec fn single_range(op: MemOp, now: u64, pc: u16) -> WriteRange {
    WriteRange {
        start_addr: op.addr,
        end_addr: op.addr,
        first_write_instr: now,
        last_write_instr: now,
        write_count: 1,
        is_forward: None,
        mode: op.mode,
        base_ptr: stream_pointer(op),
        instruction_pc: pc,
    }
}

/// The ranges with one more write.
pub open spec fn placed(t: Trace, op: MemOp, now: u64, pc: u16) -> Seq<WriteRange> {
    let i = home(t, op, now, pc, 0);
    if i < t.ranges.len() {
        t.ranges.update(i, extended(t.ranges[i], op.addr, now))
    } else {
        t.ranges.push(single_range(op, now, pc))
    }
}

/// The trace after an instruction at `pc`. The ranges are merged when there are
/// more than a hundred of them, and at every hundredth address.
pub open spec fn followed(t: Trace, c: Cpu, pc: u16, io_visible: bool) -> Trace {
    match new_write(t, c, io_visible) {
        None => t,
        Some(op) => {
            let written = t.written.insert(op.addr);
            let ranges = placed(t, op, c.instructions, pc);
            Trace {
                written,
                ranges: if ranges.len() > 100 || written.len() % 100 == 0 {
                    merged(ranges, t.max_gap_for_merge as int)
                } else {
                    ranges
                },
                ..t
            }
        },
    }
}

/// The trace after the final cleanup.
pub open spec fn flushed(t: Trace) -> Trace {
    Trace {
        ranges: merged_by_pointer(merged(t.ranges, t.max_gap_for_merge as int)).filter(
            substantial(16, true),
        ),
        ..t
    }
}

/// The trace without ranges of fewer than `min` writes.
pub open spec fn cleaned(t: Trace, min: u32) -> Trace {
    Trace {
        ranges: merged(t.ranges.filter(substantial(min, false)), t.max_gap_for_merge as int),
        ..t
    }
}

/// What holds of every trace: the ranges are in shape, and they count no more
/// writes than addresses were written.
pub open spec fn trace_valid(t: Trace) -> bool {
    &&& t.written.finite()
    &&& t.written.len() <= 0x1_0000
    &&& total_writes(t.ranges) <= t.written.len()
    &&& all_traced(t.ranges)
}

proof fn few_addresses(s: Set<u16>)
    requires
        s.finite(),
    ensures
        s.len() <= 0x1_0000,
{
    let f = |a: u16| a as int;
    let image = s.map(f);
    let all = vstd::set_lib::set_int_range(0, 0x1_0000);
    vstd::set_lib::lemma_int_range(0, 0x1_0000);
    vstd::set_lib::lemma_map_size(s, image, f);
    assert forall|x: int| image.contains(x) implies all.contains(x) by {
        let a = choose|a: u16| s.contains(a) && f(a) == x;
    }
    vstd::set_lib::lemma_len_subset(image, all);
}

proof fn home_bounds(t: Trace, op: MemOp, now: u64, pc: u16, i: int)
    requires
        0 <= i <= t.ranges.len(),
    ensures
        i <= home(t, op, now, pc, i) <= t.ranges.len(),
        home(t, op, now, pc, i) < t.ranges.len() ==> belongs(
            t,
            t.ranges[home(t, op, now, pc, i)],
            op,
            now,
            pc,
        ),
    decreases t.ranges.len() - i,
{
    if i < t.ranges.len() && !belongs(t, t.ranges[i], op, now, pc) {
        home_bounds(t, op, now, pc, i + 1);
    }
}

/// Following an instruction keeps a trace valid, and never forgets an address.
pub proof fn following_keeps_valid(t: Trace, c: Cpu, pc: u16, io_visible: bool)
    requires
        trace_valid(t),
    ensures
        trace_valid(followed(t, c, pc, io_visible)),
        t.written.subset_of(followed(t, c, pc, io_visible).written),
{
    match new_write(t, c, io_visible) {
        None => {},
        Some(op) => {
            let written = t.written.insert(op.addr);
            few_addresses(written);
            placing_counts(t, op, c.instructions, pc);
            merging_keeps_the_count(
                placed(t, op, c.instructions, pc),
                t.max_gap_for_merge as int,
            );
        },
    }
}

proof fn placing_counts(t: Trace, op: MemOp, now: u64, pc: u16)
    requires
        trace_valid(t),
        !t.written.contains(op.addr),
    ensures
        total_writes(placed(t, op, now, pc)) == total_writes(t.ranges) + 1,
        total_writes(placed(t, op, now, pc)) <= 0x1_0000,
        all_traced(placed(t, op, now, pc)),
{
    few_addresses(t.written.insert(op.addr));
    let i = home(t, op, now, pc, 0);
    home_bounds(t, op, now, pc, 0);
    let s = placed(t, op, now, pc);
    if i < t.ranges.len() {
        let r = t.ranges[i];
        total_of_update(t.ranges, i, extended(r, op.addr, now));
        assert(r.traced());
        extending_covers(r, op.addr, now);
        assert forall|j: int| 0 <= j < s.len() implies (#[trigger] s[j]).traced() by {
            assert(t.ranges[j].traced());
        }
    } else {
        total_of_push(t.ranges, single_range(op, now, pc));
    }
}

/// The cleanups keep a trace valid and touch nothing but its ranges.
pub proof fn cleaning_keeps_valid(t: Trace, min: u32)
    requires
        trace_valid(t),
    ensures
        trace_valid(flushed(t)),
        trace_valid(cleaned(t, min)),
        flushed(t).written == t.written,
        cleaned(t, min).written == t.written,
{
    let gap = t.max_gap_for_merge as int;
    merging_keeps_the_count(t.ranges, gap);
    let m = merged(t.ranges, gap);
    merging_by_pointer_keeps_the_count(m);
    total_of_filter(merged_by_pointer(m), substantial(16, true));
    filter_keeps_traced(merged_by_pointer(m), substantial(16, true));
    total_of_filter(t.ranges, substantial(min, false));
    filter_keeps_traced(t.ranges, substantial(min, false));
    merging_keeps_the_count(t.ranges.filter(substantial(min, false)), gap);
}

// ---------------------------------------------------------------------------
// The write list
// ---------------------------------------------------------------------------

pub struct WriteList {
    /// Direct writes only: max instructions between writes to still merge.
    pub max_instr_between_direct_writes: u64,
    /// Max address gap bridged when merging/extending ranges.
    pub max_gap_for_merge: i32,
    /// Direct writes: the writing instruction must be within this PC distance.
    pub max_pc_distance: i32,
    /// Also fold in writes performed by undocumented opcodes. Off by default:
    /// the classification heuristics (range counts, shapes) are calibrated for
    /// tracing only documented writes. Some crunchers poke setup registers via
    /// illegal stores, and counting those as ranges breaks their signatures.
    pub include_illegal_writes: bool,
    ranges: Vec<WriteRange>,
    /// One flag per address. A second write to the same address never extends a
    /// range (decrunchers write their output exactly once).
    written: Box<[bool; 0x10000]>,
    written_count: usize,
}

impl View for WriteList {
    type V = Trace;

    closed spec fn view(&self) -> Trace {
        Trace {
            max_instr_between_direct_writes: self.max_instr_between_direct_writes,
            max_gap_for_merge: self.max_gap_for_merge,
            max_pc_distance: self.max_pc_distance,
            include_illegal_writes: self.include_illegal_writes,
            ranges: self.ranges@,
            written: Set::new(|a: u16| self.written@[a as int]),
        }
    }
}

/// Writes that never belong to unpacked output; see [`is_noise`].
fn is_noise_write(addr: u16, mode: AddrMode, io_visible: bool) -> (b: bool)
    ensures
        b == is_noise(addr, mode, io_visible),
{
    if mode.is_indirect() {
        return false;
    }
    let zero_page: bool = match mode {
        AddrMode::ZeroPage | AddrMode::ZeroPageX | AddrMode::ZeroPageY => true,
        _ => false,
    };
    if addr < 0x100 && zero_page {
        return addr < 0xFB;
    }
    if 0xD000 <= addr && addr <= 0xDFFF {
        return io_visible;
    }
    0x0100 <= addr && addr <= 0x01FF
}

fn span(a: u16, b: u16) -> (d: i32)
    ensures
        d == distance(a as int, b as int),
{
    if a <= b {
        (b - a) as i32
    } else {
        (a - b) as i32
    }
}

impl WriteList {
    /// The bookkeeping is consistent.
    pub closed spec fn wf(&self) -> bool {
        &&& trace_valid(self@)
        &&& self.written_count == self@.written.len()
    }

    pub fn new() -> (w: WriteList)
        ensures
            w.wf(),
            w@ == empty_trace(),
    {
        let w: WriteList = WriteList {
            max_instr_between_direct_writes: 50_000,
            max_gap_for_merge: 32,
            max_pc_distance: 128,
            include_illegal_writes: false,
            ranges: Vec::new(),
            written: Box::new([false; 0x10000]),
            written_count: 0,
        };
        assert(w@.written =~= Set::<u16>::empty());
        w
    }

    /// Change how many instructions may lie between direct writes that still merge.
    pub fn set_max_instr_between_direct_writes(&mut self, n: u64)
        requires
            old(self).wf(),
        ensures
            final(self).wf(),
            final(self)@ == (Trace { max_instr_between_direct_writes: n, ..old(self)@ }),
    {
        self.max_instr_between_direct_writes = n;
        assert(self@.written =~= old(self)@.written);
    }

    /// Change the address gap that is bridged when merging/extending ranges.
    pub fn set_max_gap_for_merge(&mut self, gap: i32)
        requires
            old(self).wf(),
        ensures
            final(self).wf(),
            final(self)@ == (Trace { max_gap_for_merge: gap, ..old(self)@ }),
    {
        self.max_gap_for_merge = gap;
        assert(self@.written =~= old(self)@.written);
    }

    /// Change the PC distance within which direct writes belong together.
    pub fn set_max_pc_distance(&mut self, distance: i32)
        requires
            old(self).wf(),
        ensures
            final(self).wf(),
            final(self)@ == (Trace { max_pc_distance: distance, ..old(self)@ }),
    {
        self.max_pc_distance = distance;
        assert(self@.written =~= old(self)@.written);
    }

    /// Fold in writes performed by undocumented opcodes, or leave them out.
    pub fn set_include_illegal_writes(&mut self, on: bool)
        requires
            old(self).wf(),
        ensures
            final(self).wf(),
            final(self)@ == (Trace { include_illegal_writes: on, ..old(self)@ }),
    {
        self.include_illegal_writes = on;
        assert(self@.written =~= old(self)@.written);
    }

    /// Fold the write performed by the last executed instruction (if any) into the
    /// range set. `pc_before` is the PC where that instruction started.
    /// `io_visible` is the machine's current PLA banking for $D000-$DFFF
    /// writes ([`crate::c64::C64Mem::io_visible`]): with I/O banked in such a
    /// write hits the chips (noise); with RAM banked in it is payload. Many
    /// depackers bank all-RAM and write the program straight through the I/O
    /// window.
    pub fn track(&mut self, cpu: &Cpu, pc_before: u16, io_visible: bool)
        requires
            old(self).wf(),
        ensures
            final(self).wf(),
            final(self)@ == followed(old(self)@, *cpu, pc_before, io_visible),
    {
        if !cpu.tracking {
            return;
        }
        let op: MemOp = match cpu.last_op {
            Some(op) => op,
            None => {
                return;
            },
        };
        if !op.write {
            return;
        }
        if op.illegal && !self.include_illegal_writes {
            return;
        }
        if is_noise_write(op.addr, op.mode, io_visible) {
            return;
        }
        if self.written[op.addr as usize] {
            return;
        }
        let ghost t = self@;
        let now: u64 = cpu.instructions;
        proof {
            placing_counts(t, op, now, pc_before);
            home_bounds(t, op, now, pc_before, 0);
            following_keeps_valid(t, *cpu, pc_before, io_visible);
        }
        let idx: usize = self.find_matching_range(&op, now, pc_before);
        self.written[op.addr as usize] = true;
        self.written_count = self.written_count + 1;
        assert(self@.written =~= t.written.insert(op.addr));
        if idx < self.ranges.len() {
            proof {
                total_of_update(t.ranges, idx as int, t.ranges[idx as int]);
            }
            self.ranges[idx] = extend_range(self.ranges[idx], op.addr, now);
        } else {
            self.ranges.push(
                WriteRange {
                    start_addr: op.addr,
                    end_addr: op.addr,
                    first_write_instr: now,
                    last_write_instr: now,
                    write_count: 1,
                    is_forward: None,
                    mode: op.mode,
                    base_ptr: if op.mode.is_indirect() {
                        op.ptr
                    } else {
                        0
                    },
                    instruction_pc: pc_before,
                },
            );
        }
        if self.ranges.len() > 100 || self.written_count % 100 == 0 {
            self.ranges = merge_list(&self.ranges, self.max_gap_for_merge);
        }
        assert(self@.written =~= t.written.insert(op.addr));
    }

    /// Find the range this write belongs to.
    fn find_matching_range(&self, op: &MemOp, now: u64, pc: u16) -> (idx: usize)
        ensures
            idx == home(self@, *op, now, pc, 0),
    {
        let indirect: bool = op.mode.is_indirect();
        let mut i: usize = 0;
        while i < self.ranges.len()
            invariant
                i <= self.ranges@.len(),
                indirect == op.mode.indirect(),
                home(self@, *op, now, pc, 0) == home(self@, *op, now, pc, i as int),
            decreases self.ranges@.len() - i,
        {
            let r: WriteRange = self.ranges[i];
            if r.mode == op.mode {
                let fits: bool = if indirect {
                    r.base_ptr == op.ptr
                } else {
                    let min: u16 = r.min_addr();
                    let max: u16 = r.max_addr();
                    span(r.instruction_pc, pc) <= self.max_pc_distance && now.wrapping_sub(
                        r.last_write_instr,
                    ) <= self.max_instr_between_direct_writes && ((min <= op.addr && op.addr <= max)
                        || span(op.addr, min) <= self.max_gap_for_merge || span(op.addr, max)
                        <= self.max_gap_for_merge)
                };
                if fits {
                    return i;
                }
            }
            i = i + 1;
        }
        i
    }

    /// Final cleanup after a completed run: merge, then drop small *direct*
    /// ranges (noise from setup loops). Small indirect ranges are kept, since a
    /// BASIC line link fixup can be a legitimate 12-byte range.
    pub fn flush(&mut self)
        requires
            old(self).wf(),
        ensures
            final(self).wf(),
            final(self)@ == flushed(old(self)@),
    {
        proof {
            cleaning_keeps_valid(self@, 0);
            merging_keeps_the_count(self.ranges@, self.max_gap_for_merge as int);
        }
        let merged_list: Vec<WriteRange> = merge_list(&self.ranges, self.max_gap_for_merge);
        let by_pointer: Vec<WriteRange> = merge_list_by_pointer(&merged_list);
        self.ranges = drop_small(&by_pointer, 16, true);
    }

    /// Drop ALL ranges with fewer writes than `min`, then re-merge.
    pub fn clean_lists(&mut self, min: u32)
        requires
            old(self).wf(),
        ensures
            final(self).wf(),
            final(self)@ == cleaned(old(self)@, min),
    {
        proof {
            cleaning_keeps_valid(self@, min);
            total_of_filter(self.ranges@, substantial(min, false));
        }
        let kept: Vec<WriteRange> = drop_small(&self.ranges, min, false);
        self.ranges = merge_list(&kept, self.max_gap_for_merge);
    }

    /// Was this address written (and counted) during the trace?
    pub fn was_written(&self, addr: u16) -> (b: bool)
        ensures
            b == self@.written.contains(addr),
    {
        self.written[addr as usize]
    }

    /// Number of unique addresses written so far.
    pub fn written_count(&self) -> (n: usize)
        requires
            self.wf(),
        ensures
            n == self@.written.len(),
    {
        self.written_count
    }

    /// All ranges, sorted by lowest address.
    pub fn sequences(&self) -> (v: Vec<WriteRange>)
        ensures
            v@ == sorted(self@.ranges, false),
    {
        sort_ranges(&self.ranges, false)
    }

    pub fn len(&self) -> (n: usize)
        ensures
            n == self@.ranges.len(),
    {
        self.ranges.len()
    }

    pub fn is_empty(&self) -> (b: bool)
        ensures
            b == (self@.ranges.len() == 0),
    {
        self.ranges.len() == 0
    }

    /// Human-readable summary of the traced ranges.
    pub fn summary(&self) -> (s: String)
        requires
            self.wf(),
        ensures
            s@ == summary_text(self@),
    {
        let list: Vec<WriteRange> = self.sequences();
        proof {
            sorting_permutes(self@.ranges, false);
        }
        let mut s: String = String::from_str("Write ranges: ");
        push_dec(&mut s, list.len() as u128);
        s.append(" (");
        push_dec(&mut s, self.written_count as u128);
        s.append(" unique addresses)\n");
        let ghost head = s@;
        let mut i: usize = 0;
        assert(head + range_lines(list@.take(0)) =~= head);
        while i < list.len()
            invariant
                i <= list@.len(),
                s@ == head + range_lines(list@.take(i as int)),
            decreases list@.len() - i,
        {
            let line: String = describe(i + 1, &list[i]);
            s.append(line.as_str());
            proof {
                let done = list@.take(i + 1);
                assert(done.drop_last() =~= list@.take(i as int));
                assert(s@ =~= head + range_lines(done));
            }
            i = i + 1;
        }
        assert(list@.take(i as int) =~= list@);
        match find_last_largest(&list) {
            Some(l) => {
                let mut line: String = String::from_str("  largest: $");
                push_hex4(&mut line, l.min_addr());
                line.append("-$");
                push_hex4(&mut line, l.max_addr());
                line.append(" (");
                push_dec(&mut line, l.size() as u128);
                line.append(" bytes) via ");
                line.append(l.mode.name());
                line.append("\n");
                s.append(line.as_str());
            },
            None => {},
        }
        s
    }
}

impl Default for WriteList {
    fn default() -> (w: WriteList)
        ensures
            w.wf(),
            w@ == empty_trace(),
    {
        WriteList::new()
    }
}

// ---------------------------------------------------------------------------
// The summary
// ---------------------------------------------------------------------------

/// Where the writes of a range come from.
pub open spec fn origin_text(r: WriteRange) -> Seq<char> {
    if r.mode.indirect() {
        "base=$"@ + hex2(r.base_ptr)
    } else {
        "PC=$"@ + hex4(r.instruction_pc)
    }
}

/// One line of the summary.
pub open spec fn range_line(n: int, r: WriteRange) -> Seq<char> {
    "  "@ + dec(n) + ". "@ + padded(r.mode.spelling(), 7) + " $"@ + hex4(r.low()) + "-$"@ + hex4(
        r.high(),
    ) + "  "@ + dec(r.extent()) + " bytes ("@ + dec(r.write_count as int) + " writes) ["@
        + origin_text(r) + "] "@ + r.direction_name() + "\n"@
}

/// The lines of the summary for several ranges.
pub open spec fn range_lines(s: Seq<WriteRange>) -> Seq<char>
    decreases s.len(),
{
    if s.len() == 0 {
        Seq::empty()
    } else {
        range_lines(s.drop_last()) + range_line(s.len() as int, s.last())
    }
}

/// The summary of a trace.
pub open spec fn summary_text(t: Trace) -> Seq<char> {
    let list = sorted(t.ranges, false);
    let text = "Write ranges: "@ + dec(list.len() as int) + " ("@ + dec(t.written.len() as int)
        + " unique addresses)\n"@ + range_lines(list);
    match last_largest(list) {
        Some(l) => text + ("  largest: $"@ + hex4(l.low()) + "-$"@ + hex4(l.high()) + " ("@ + dec(
            l.extent(),
        ) + " bytes) via "@ + l.mode.spelling() + "\n"@),
        None => text,
    }
}

fn describe(n: usize, r: &WriteRange) -> (s: String)
    ensures
        s@ == range_line(n as int, *r),
{
    let mut origin: String = String::new();
    if r.is_indirect() {
        origin.append("base=$");
        assert(origin@ =~= "base=$"@);
        push_hex2(&mut origin, r.base_ptr);
    } else {
        origin.append("PC=$");
        assert(origin@ =~= "PC=$"@);
        push_hex4(&mut origin, r.instruction_pc);
    }
    let mut s: String = String::from_str("  ");
    push_dec(&mut s, n as u128);
    s.append(". ");
    push_padded(&mut s, r.mode.name(), 7);
    s.append(" $");
    push_hex4(&mut s, r.min_addr());
    s.append("-$");
    push_hex4(&mut s, r.max_addr());
    s.append("  ");
    push_dec(&mut s, r.size() as u128);
    s.append(" bytes (");
    push_dec(&mut s, r.write_count as u128);
    s.append(" writes) [");
    s.append(origin.as_str());
    s.append("] ");
    s.append(r.direction());
    s.append("\n");
    s
}

// ---------------------------------------------------------------------------
// Laws
// ---------------------------------------------------------------------------

/// A second write to an address changes nothing.
pub proof fn second_write_is_ignored(t: Trace, c: Cpu, pc: u16, io_visible: bool)
    requires
        c.last_op matches Some(op) ==> t.written.contains(op.addr),
    ensures
        followed(t, c, pc, io_visible) == t,
{
}

/// Without tracking, without a write, or with a noise write, nothing is traced.
pub proof fn noise_is_not_traced(t: Trace, c: Cpu, pc: u16, io_visible: bool)
    requires
        !c.tracking || (c.last_op matches Some(op) ==> !op.write || is_noise(
            op.addr,
            op.mode,
            io_visible,
        )),
    ensures
        followed(t, c, pc, io_visible) == t,
{
}

/// Writes of undocumented opcodes are left out unless they are asked for.
pub proof fn illegal_writes_are_optional(t: Trace, c: Cpu, pc: u16, io_visible: bool)
    requires
        c.last_op matches Some(op) && op.illegal,
    ensures
        !t.include_illegal_writes ==> followed(t, c, pc, io_visible) == t,
        t.include_illegal_writes ==> followed(t, c, pc, io_visible) == followed(
            t,
            Cpu { last_op: Some(MemOp { illegal: false, ..c.last_op->0 }), ..c },
            pc,
            io_visible,
        ),
{
    if t.include_illegal_writes && new_write(t, c, io_visible) is Some {
        let op = c.last_op->0;
        let legal = MemOp { illegal: false, ..op };
        same_home(t, op, legal, c.instructions, pc, 0);
    }
}

proof fn same_home(t: Trace, a: MemOp, b: MemOp, now: u64, pc: u16, i: int)
    requires
        a.addr == b.addr,
        a.mode == b.mode,
        a.ptr == b.ptr,
    ensures
        home(t, a, now, pc, i) == home(t, b, now, pc, i),
    decreases t.ranges.len() - i,
{
    if i < t.ranges.len() {
        same_home(t, a, b, now, pc, i + 1);
    }
}

/// A write that counts marks its address, and no other.
pub proof fn new_write_marks_its_address(t: Trace, c: Cpu, pc: u16, io_visible: bool)
    requires
        new_write(t, c, io_visible) is Some,
    ensures
        followed(t, c, pc, io_visible).written == t.written.insert(c.last_op->0.addr),
        t.written.finite() ==> followed(t, c, pc, io_visible).written.len() == t.written.len() + 1,
{
}

/// Settings never change by tracing or cleaning.
pub proof fn settings_stay(t: Trace, c: Cpu, pc: u16, io_visible: bool, min: u32)
    ensures
        ({
            let f = followed(t, c, pc, io_visible);
            (Trace { ranges: t.ranges, written: t.written, ..f }) == t
        }),
        (Trace { ranges: t.ranges, ..flushed(t) }) == t,
        (Trace { ranges: t.ranges, ..cleaned(t, min) }) == t,
{
}

/// After the final cleanup every direct range has at least sixteen writes, and no
/// two indirect ranges share a mode and a pointer.
pub proof fn flush_leaves_only_output(t: Trace)
    requires
        trace_valid(t),
    ensures
        forall|i: int|
            0 <= i < flushed(t).ranges.len() ==> (#[trigger] flushed(t).ranges[i]).mode.indirect()
                || flushed(t).ranges[i].write_count >= 16,
        forall|i: int, j: int|
            0 <= i < j < flushed(t).ranges.len() && (
            #[trigger] flushed(t).ranges[i]).mode.indirect() ==> !same_stream(
                flushed(t).ranges[i],
                #[trigger] flushed(t).ranges[j],
            ),
{
    let gap = t.max_gap_for_merge as int;
    let m = merged(t.ranges, gap);
    let p = merged_by_pointer(m);
    let keep = substantial(16, true);
    merging_keeps_the_count(t.ranges, gap);
    merging_by_pointer_keeps_the_count(m);
    filter_keeps_traced(p, keep);
    let ind = m.filter(of_kind(true));
    let dir = m.filter(of_kind(false));
    streams_are_distinct(ind);
    filter_keeps_traced(m, of_kind(true));
    filter_keeps_traced(m, of_kind(false));
    stream_modes(ind);
    assert forall|i: int, j: int|
        0 <= i < j < p.len() && (#[trigger] p[i]).mode.indirect() implies !same_stream(
        p[i],
        #[trigger] p[j],
    ) by {
        if j < streams(ind).len() {
            assert(p[i] == streams(ind)[i] && p[j] == streams(ind)[j]);
        } else {
            assert(p[j] == dir[j - streams(ind).len()]);
            assert(of_kind(false)(dir[j - streams(ind).len()]));
        }
    }
    filter_keeps_distinct(p, keep);
}

proof fn stream_modes(s: Seq<WriteRange>)
    requires
        forall|i: int| 0 <= i < s.len() ==> of_kind(true)(#[trigger] s[i]),
    ensures
        forall|i: int| 0 <= i < streams(s).len() ==> (#[trigger] streams(s)[i]).mode.indirect(),
    decreases s.len(),
{
    if s.len() > 0 {
        let front = s.drop_last();
        assert forall|i: int| 0 <= i < front.len() implies of_kind(true)(#[trigger] front[i]) by {
            assert(of_kind(true)(s[i]));
        }
        stream_modes(front);
        stream_position_bounds(streams(front), s.last(), 0);
        assert(of_kind(true)(s[s.len() - 1]));
    }
}

/// No two indirect ranges of the list share a mode and a pointer.
spec fn distinct_streams(p: Seq<WriteRange>) -> bool {
    forall|i: int, j: int|
        0 <= i < j < p.len() && (#[trigger] p[i]).mode.indirect() ==> !same_stream(
            p[i],
            #[trigger] p[j],
        )
}

proof fn filter_keeps_distinct(p: Seq<WriteRange>, keep: spec_fn(WriteRange) -> bool)
    requires
        distinct_streams(p),
    ensures
        distinct_streams(p.filter(keep)),
        forall|x: WriteRange| p.filter(keep).contains(x) ==> p.contains(x),
    decreases p.len(),
{
    reveal(Seq::filter);
    if p.len() > 0 {
        let front = p.drop_last();
        assert forall|i: int, j: int|
            0 <= i < j < front.len() && (#[trigger] front[i]).mode.indirect() implies !same_stream(
            front[i],
            #[trigger] front[j],
        ) by {
            assert(!same_stream(p[i], p[j]));
        }
        filter_keeps_distinct(front, keep);
        let f = front.filter(keep);
        let g = p.filter(keep);
        let last = p.last();
        assert forall|x: WriteRange| g.contains(x) implies p.contains(x) by {
            if f.contains(x) {
                assert(front.contains(x));
                let k = choose|k: int| 0 <= k < front.len() && front[k] == x;
                assert(p[k] == x);
            } else {
                let k = choose|k: int| 0 <= k < g.len() && g[k] == x;
                if k < f.len() {
                    assert(f[k] == x);
                }
                assert(p[p.len() - 1] == x);
            }
        }
        assert forall|i: int, j: int|
            0 <= i < j < g.len() && (#[trigger] g[i]).mode.indirect() implies !same_stream(
            g[i],
            #[trigger] g[j],
        ) by {
            if j < f.len() {
                assert(!same_stream(f[i], f[j]));
            } else {
                assert(g[j] == last);
                assert(f.contains(f[i]));
                assert(front.contains(f[i]));
                let k = choose|k: int| 0 <= k < front.len() && front[k] == f[i];
                assert(!same_stream(p[k], p[p.len() - 1]));
            }
        }
    }
}

/// The final cleanup keeps every output stream, and invents none: a mode and pointer
/// have an indirect range exactly where they had one before.
pub proof fn flush_keeps_the_streams(t: Trace, mode: AddrMode, ptr: u8)
    requires
        mode.indirect(),
    ensures
        has_stream(flushed(t).ranges, mode, ptr) == has_stream(t.ranges, mode, ptr),
{
    let gap = t.max_gap_for_merge as int;
    let m = merged(t.ranges, gap);
    merging_keeps_streams(t.ranges, gap, mode, ptr);
    merging_keeps_streams(m, gap, mode, ptr);
    filter_keeps_streams(merged_by_pointer(m), substantial(16, true), mode, ptr);
}

/// What holds of every trace holds of what a write list holds.
pub proof fn write_list_is_valid(w: WriteList)
    requires
        w.wf(),
    ensures
        trace_valid(w@),
{
}

/// The listed ranges ascend by lowest address, and are the traced ranges.
pub proof fn sequences_are_the_ranges_in_order(t: Trace)
    ensures
        ascending(sorted(t.ranges, false), false),
        sorted(t.ranges, false).to_multiset() == t.ranges.to_multiset(),
{
    sorting_sorts(t.ranges, false);
    sorting_permutes(t.ranges, false);
}

} // verus!
