//! The generic engine: run the decruncher, trace its writes, and read the
//! unpacked program out of the largest written range.
//!
//! Phase 1, bootstrap: run until the PC reaches `stop_pc` (the relocated depack
//! stub in low memory).
//! Phase 2, depack: enable write tracing and run until the PC jumps above
//! `exit_above`, into the freshly unpacked program.
//!
//! Behavioral classification for the $0100 family (`analyze_0100`):
//! Time Cruncher 5.x-6.x and Cruel Cruncher both leave exactly two ranges: a
//! short *forward* abs,X/abs,Y copy (the tail the depacker relocated) directly
//! followed by a long *reverse* (zp),Y range (the real depack). They are told
//! apart by where the depack loop lives, measured as the average PC during
//! phase 2: Time Cruncher runs at $0100-$0340, Cruel Cruncher at $0400-$0770.

use vstd::prelude::*;
use vstd::slice::slice_to_vec;
use vstd::string::*;

use crate::config::{CruncherConfig, VariantCfg};
use crate::engine::depack::{hunt, Hunt};
use crate::engine::{note, EngineResult};
use crate::fmt::{push_dec, push_hex4, push_radix};
use crate::instr::AddrMode;
use crate::machine::{contains_word, Machine};
use crate::pattern::{guess_start, sys_address, Pattern, Tok};
use crate::c64::C64Mem;
use crate::ranges::{find_first_largest, find_last_largest, WriteRange};
use crate::writelist::WriteList;

verus! {

use crate::bits::wrap16;
use crate::config::{Definition, Variant};
use crate::cpu::Cpu;
use crate::engine::depack::{chased, Chase};
use crate::engine::{failed_run, optional_text, variant_of, EngineRun, Finding};
use crate::fmt::{dec, hex4, radix_text, texts, texts_concat};
use crate::machine::{run_to, Goal};
use crate::pattern::{first_nonzero, guessed_start, matches_at, sys_target};
use crate::ranges::{
    filter_only_keeps, filter_shortens, filter_step, first_largest, largest_is_largest,
    last_largest, sorted, sorting_permutes,
};
use crate::writelist::{summary_text, Trace};

// ---------------------------------------------------------------------------
// What is read out of a traced run
// ---------------------------------------------------------------------------

/// What the choice of the payload looks at.
pub struct Scene {
    /// Memory, restored to the hand-off state.
    pub mem: C64Mem,
    pub trace: Trace,
    /// The ranges the payload is chosen from.
    pub list: Seq<WriteRange>,
    pub switch_instr: Option<u64>,
    pub avg_pc: int,
}

/// The payload as chosen so far.
pub struct Pick {
    pub start: u16,
    pub end: u16,
    pub real_start: u16,
    pub jump: u16,
    pub name: Option<Seq<char>>,
    /// A classification that stands as it is.
    pub classified: bool,
    pub log: Seq<Seq<char>>,
}

/// The ranges first written up to an instruction count.
pub open spec fn written_by(limit: u64) -> spec_fn(WriteRange) -> bool {
    |r: WriteRange| r.first_write_instr <= limit
}

/// Ranges first written AFTER the final hand-off were written by the
/// LAUNCHED PROGRAM, not the depacker: quiescence mode keeps tracing
/// while the program runs, and a program that clears or fills memory
/// dwarfs the real payload. They are dropped, unless that would drop everything.
pub open spec fn payload_ranges(s: Chase) -> Seq<WriteRange> {
    let all = sorted(s.trace.ranges, false);
    match s.crossing_instr {
        Some(cross) => {
            let kept = all.filter(written_by(cross));
            if kept.len() > 0 {
                kept
            } else {
                all
            }
        },
        None => all,
    }
}

pub open spec fn dropped_text(n: int) -> Seq<char> {
    "dropped "@ + dec(n)
        + " write range(s) first written after the hand-off (the launched program's own writes)"@
}

/// Lines about what was done before the payload is chosen.
pub open spec fn preparation_lines(restored: bool, dropped: int) -> Seq<Seq<char>> {
    let first = if restored {
        seq!["restored RAM to the hand-off state (the launched program ran on afterwards)"@]
    } else {
        Seq::empty()
    };
    if dropped > 0 {
        first.push(dropped_text(dropped))
    } else {
        first
    }
}

/// Lines about what was done before the payload is chosen.
pub open spec fn preparation_log(s: Chase) -> Seq<Seq<char>> {
    preparation_lines(
        s.last_crossing is Some && s.handoff_ram is Some,
        s.trace.ranges.len() - payload_ranges(s).len(),
    )
}

/// Everything the machine did AFTER the final hand-off was the launched program
/// running, and it may have overwritten its own memory; the payload and every
/// RAM-reading heuristic must see the freshly decrunched RAM.
pub open spec fn restored_mem(s: Chase) -> C64Mem {
    match s.handoff_ram {
        Some(ram) if s.last_crossing is Some => C64Mem { ram, ..s.machine.mem },
        _ => s.machine.mem,
    }
}

pub open spec fn average_pc(s: Chase) -> int {
    if s.steps > 0 {
        s.pc_sum / s.steps
    } else {
        0
    }
}

pub open spec fn scene_of(s: Chase) -> Scene {
    Scene {
        mem: restored_mem(s),
        trace: s.trace,
        list: payload_ranges(s),
        switch_instr: s.switch_instr,
        avg_pc: average_pc(s),
    }
}

/// The first of two hand-offs that was recorded, or where the run ended.
pub open spec fn either_hand_off(a: Option<u16>, b: Option<u16>, end: u16) -> u16 {
    match a {
        Some(pc) => pc,
        None => match b {
            Some(pc) => pc,
            None => end,
        },
    }
}

/// Where the unpacked program is started. A definition that asks for quiescence
/// reports the first plausible hand-off. In a run that switched to quiescence by
/// itself, the first one is the jump that looked like a stage and only the fallback:
/// there the last crossing counts.
pub open spec fn run_address(d: Definition, s: Chase) -> u16 {
    if d.run.exit_quiescent > 0 {
        either_hand_off(s.first_candidate, s.last_crossing, s.machine.cpu.pc)
    } else {
        either_hand_off(s.last_crossing, s.first_candidate, s.machine.cpu.pc)
    }
}

/// Nothing chosen yet.
pub open spec fn first_pick(d: Definition, s: Chase) -> Pick {
    Pick {
        start: 0,
        end: 0,
        real_start: 0,
        jump: run_address(d, s),
        name: None,
        classified: false,
        log: preparation_log(s),
    }
}

// ---------------------------------------------------------------------------
// The largest range and its neighbours
// ---------------------------------------------------------------------------

pub open spec fn merge_text(
    r: WriteRange,
    overlaps: bool,
    edge: Seq<char>,
    from: u16,
    to: u16,
) -> Seq<char> {
    "merged "@ + (if overlaps {
        "overlapping"@
    } else {
        "adjacent"@
    }) + " output range $"@ + hex4(r.low()) + "-$"@ + hex4(r.high()) + " ("@ + edge + hex4(from)
        + " -> $"@ + hex4(to) + ")"@
}

/// The payload with the range `r`, if that overlaps or abuts it (gap of at most
/// two). Overlap means the same output area was written through a second write
/// channel; adjacency means the payload was assembled by abutting stages.
pub open spec fn grown_by(p: Pick, r: WriteRange) -> Pick {
    let overlaps = r.low() <= p.end && r.high() >= p.start;
    if p.start <= r.low() && r.high() <= p.end {
        p
    } else if r.low() - p.end <= 2 && r.low() > p.start {
        Pick {
            end: r.high(),
            log: p.log.push(merge_text(r, overlaps, "end $"@, p.end, r.high())),
            ..p
        }
    } else if p.start - r.high() <= 2 && r.high() < p.end {
        Pick {
            start: r.low(),
            log: p.log.push(merge_text(r, overlaps, "start $"@, p.start, r.low())),
            ..p
        }
    } else {
        p
    }
}

/// The payload after all ranges from position `i` on had their turn.
pub open spec fn grown_once(p: Pick, list: Seq<WriteRange>, i: int) -> Pick
    decreases list.len() - i,
{
    if i >= list.len() {
        p
    } else {
        grown_once(grown_by(p, list[i]), list, i + 1)
    }
}

/// Room left around the payload.
pub open spec fn room(p: Pick) -> int {
    p.start + (0xFFFF - p.end)
}

pub proof fn growing_widens(p: Pick, list: Seq<WriteRange>, i: int)
    requires
        0 <= i,
    ensures
        grown_once(p, list, i).start <= p.start,
        grown_once(p, list, i).end >= p.end,
        ({
            let g = grown_once(p, list, i);
            g.start == p.start && g.end == p.end ==> g == p
        }),
    decreases list.len() - i,
{
    if i < list.len() {
        growing_widens(grown_by(p, list[i]), list, i + 1);
    }
}

/// The payload extended over its neighbours until nothing abuts it any more.
pub open spec fn grown(p: Pick, list: Seq<WriteRange>) -> Pick
    decreases room(p),
{
    let g = grown_once(p, list, 0);
    if g.start == p.start && g.end == p.end {
        p
    } else {
        proof {
            growing_widens(p, list, 0);
        }
        grown(g, list)
    }
}

/// Ranges that may hold the exact size of a payload moved by whole pages.
pub open spec fn staging_of(l: WriteRange) -> spec_fn(WriteRange) -> bool {
    |r: WriteRange|
        r.low() != l.low() && r.extent() < l.extent() && l.extent() - r.extent() <= 255
}

pub open spec fn trim_text(end: u16, exact: u16, staged: WriteRange) -> Seq<char> {
    "trimmed page overshoot: end $"@ + hex4(end) + " -> $"@ + hex4(exact) + " (staged range $"@
        + hex4(staged.low()) + "-$"@ + hex4(staged.high()) + " has the exact size)"@
}

/// "Depack high, page-copy down": the copy-down moves whole pages, but the staging
/// range holds the exact payload size, so the tail overshoot is trimmed when the
/// sizes line up.
pub open spec fn overshoot_trimmed(d: Definition, list: Seq<WriteRange>, l: WriteRange, p: Pick) -> Pick {
    match last_largest(list.filter(staging_of(l))) {
        Some(staged) if d.run.trim_page_overshoot => {
            let exact = (l.low() + staged.extent() - 1) as u16;
            Pick { end: exact, log: p.log.push(trim_text(p.end, exact, staged)), ..p }
        },
        _ => p,
    }
}

/// The payload starts out as the largest range. Many depackers decrunch in
/// reverse, so without a positive signature the honest name is the
/// definition that matched plus the OBSERVED behavior.
pub open spec fn largest_picked(d: Definition, s: Scene, p: Pick) -> Pick {
    match first_largest(s.list) {
        None => p,
        Some(l) => {
            let q = Pick {
                start: l.low(),
                end: l.high(),
                name: if d.run.analyze_0100 && l.reverse() {
                    Some(d.name + " (reverse writer)"@)
                } else {
                    p.name
                },
                ..p
            };
            overshoot_trimmed(d, s.list, l, grown(q, s.list))
        },
    }
}

// ---------------------------------------------------------------------------
// Late stages and BASIC programs
// ---------------------------------------------------------------------------

/// Size of the crunched file.
pub open spec fn packed_len(mem: C64Mem) -> u32 {
    ((mem.prg_end as u32).wrapping_sub(mem.prg_start as u32)).wrapping_add(1)
}

/// Ranges a final stage may have written.
pub open spec fn staged_since(switch: u64, least: int) -> spec_fn(WriteRange) -> bool {
    |r: WriteRange| r.first_write_instr >= switch && r.extent() >= least
}

pub open spec fn stage_text(r: WriteRange) -> Seq<char> {
    "final stage wrote $"@ + hex4(r.low()) + "-$"@ + hex4(r.high()) + " ("@ + dec(r.extent())
        + " bytes), using it as the payload"@
}

/// When the run switched to quiescence because a depacked final stage took
/// over, the real payload is what THAT stage wrote, not the biggest range
/// overall (usually a staging move or memory wipe from earlier phases).
pub open spec fn late_stage_picked(s: Scene, p: Pick) -> Pick {
    match s.switch_instr {
        None => p,
        Some(switch) => match last_largest(
            s.list.filter(staged_since(switch, packed_len(s.mem) as int / 2)),
        ) {
            None => p,
            Some(stage) => Pick {
                start: stage.low(),
                end: stage.high(),
                real_start: stage.low(),
                classified: true,
                log: p.log.push(stage_text(stage)),
                ..p
            },
        },
    }
}

pub open spec fn line_text(jump: u16, sys: u16) -> Seq<char> {
    "final memory holds a BASIC line: run address $"@ + hex4(jump) + " replaced by SYS "@ + dec(
        sys as int,
    ) + " ($"@ + hex4(sys) + ")"@
}

pub open spec fn vartab_text(end: u16, to: u16) -> Seq<char> {
    "VARTAB bounds the program: end $"@ + hex4(end) + " -> $"@ + hex4(to)
}

/// Multi-stage depackers rebuild a proper BASIC SYS line at $0801 (and often
/// VARTAB): that beats both the recorded jump and a written range that ends
/// in a memory wipe at $CFFF. VARTAB only counts when the depacker actually set
/// it, since loading initializes it to one past the crunched file.
pub open spec fn basic_rebuilt(s: Scene, p: Pick) -> Pick {
    let sys = sys_target(s.mem.ram@) as u16;
    if (s.switch_instr is Some || p.end >= 0xCF00) && 0x0801 <= sys <= p.end {
        let vartab = s.mem.visible_word(0x2D);
        let last = vartab.wrapping_sub(1);
        let q = Pick {
            jump: sys,
            real_start: p.start,
            start: 0x0801,
            log: p.log.push(line_text(p.jump, sys)),
            ..p
        };
        if vartab != s.mem.prg_end.wrapping_add(1) && sys < last < 0xA000 && last < p.end {
            Pick { end: last, log: q.log.push(vartab_text(p.end, last)), ..q }
        } else {
            q
        }
    } else {
        p
    }
}

pub open spec fn rom_jump_text(jump: u16, sys: u16) -> Seq<char> {
    "run address $"@ + hex4(jump) + " is in ROM/IO, using the BASIC line's SYS "@ + dec(sys as int)
        + " ($"@ + hex4(sys) + ")"@
}

pub open spec fn bogus_jump_text(jump: u16, first: u16) -> Seq<char> {
    "run address $"@ + hex4(jump) + " is bogus, first code byte at $"@ + hex4(first)
        + " used as entry hint"@
}

/// A run address inside the KERNAL/IO area (stubbed-ROM artifact) or the
/// tape-buffer stage zone is meaningless; the program's own BASIC line tells the
/// truth, and without one the first non-zero byte is the hint.
pub open spec fn jump_corrected(s: Scene, p: Pick) -> Pick {
    let sys = sys_target(s.mem.ram@) as u16;
    if !(p.jump >= 0xD000 || 0x0200 <= p.jump < 0x0600) {
        p
    } else if sys != 0 && p.start <= sys <= p.end {
        Pick { jump: sys, log: p.log.push(rom_jump_text(p.jump, sys)), ..p }
    } else {
        match first_nonzero(s.mem.ram@.take(p.end + 1), p.start as int) {
            Some(first) if first != p.start || p.jump >= 0xD000 => Pick {
                jump: first as u16,
                log: p.log.push(bogus_jump_text(p.jump, first as u16)),
                ..p
            },
            _ => p,
        }
    }
}

pub open spec fn interpreter_text(jump: u16, last: u16) -> Seq<char> {
    "run address $"@ + hex4(jump)
        + " is the BASIC interpreter: extracting BASIC program $0801-$"@ + hex4(last)
        + " (VARTAB)"@
}

/// A jump into the BASIC interpreter ($A000-$BFFF: RUN / warm start) means
/// the unpacked program is a BASIC program, and for RUN to work the
/// decruncher must have set the BASIC pointers, so the exact bounds are
/// TXTTAB ($0801) to VARTAB-1.
pub open spec fn basic_handed_over(s: Scene, p: Pick) -> Pick {
    let last = s.mem.visible_word(0x2D).wrapping_sub(1);
    if 0xA000 <= p.jump < 0xC000 && 0x0801 < last < 0xA000 {
        Pick {
            real_start: p.start,
            start: 0x0801,
            end: last,
            classified: true,
            log: p.log.push(interpreter_text(p.jump, last)),
            ..p
        }
    } else {
        p
    }
}

// ---------------------------------------------------------------------------
// Classification by behavior
// ---------------------------------------------------------------------------

/// Cruel Cruncher 2.x-3.x leaves this depack loop at $0100. Checked after the
/// behavioral classification to refine the version in the name:
///
/// ```text
/// B9 ?? ?? 99 ?? ?? C8 D0 F7 20 ?? ?? F0 46 20 ?? ?? D0 30 20 ?? ?? 69 02
/// C9 04 90 27 D0 07 20 ?? ?? 69 04 D0 ?? 20 ?? ?? 69 06 C9 ?? D0 ?? C8 20
/// ?? ?? 69 0D C9 ?? D0 ?? A0
/// ```
pub open spec fn cruel_2x_tokens() -> Seq<Tok> {
    seq![
        Tok::Byte(0xB9), Tok::Any, Tok::Any, Tok::Byte(0x99), Tok::Any, Tok::Any,
        Tok::Byte(0xC8), Tok::Byte(0xD0), Tok::Byte(0xF7), Tok::Byte(0x20), Tok::Any, Tok::Any,
        Tok::Byte(0xF0), Tok::Byte(0x46), Tok::Byte(0x20), Tok::Any, Tok::Any, Tok::Byte(0xD0),
        Tok::Byte(0x30), Tok::Byte(0x20), Tok::Any, Tok::Any, Tok::Byte(0x69), Tok::Byte(0x02),
        Tok::Byte(0xC9), Tok::Byte(0x04), Tok::Byte(0x90), Tok::Byte(0x27), Tok::Byte(0xD0),
        Tok::Byte(0x07), Tok::Byte(0x20), Tok::Any, Tok::Any, Tok::Byte(0x69), Tok::Byte(0x04),
        Tok::Byte(0xD0), Tok::Any, Tok::Byte(0x20), Tok::Any, Tok::Any, Tok::Byte(0x69),
        Tok::Byte(0x06), Tok::Byte(0xC9), Tok::Any, Tok::Byte(0xD0), Tok::Any, Tok::Byte(0xC8),
        Tok::Byte(0x20), Tok::Any, Tok::Any, Tok::Byte(0x69), Tok::Byte(0x0D), Tok::Byte(0xC9),
        Tok::Any, Tok::Byte(0xD0), Tok::Any, Tok::Byte(0xA0),
    ]
}

pub open spec fn unaligned_text(low: u16) -> Seq<char> {
    "Time Cruncher 5.x: region starts at $"@ + hex4(low)
        + " (not $0801-aligned), keeping the real start"@
}

/// Two ranges: a forward abs,X/abs,Y copy directly followed by a reverse (zp),Y
/// range.
pub open spec fn copy_then_reverse(list: Seq<WriteRange>) -> bool {
    &&& list.len() == 2
    &&& list[0].is_forward == Some(true)
    &&& list[0].mode is AbsoluteX || list[0].mode is AbsoluteY
    &&& list[1].is_forward == Some(false)
    &&& list[1].mode is IndirectY
    &&& list[1].low() - list[0].high() == 1
    &&& list[1].high() > list[0].low()
}

/// Time Cruncher 5.x-6.x. Its end-of-depack restore loop starts
/// 25 bytes below the program on $0801-based files (it also
/// rewrites the load-address bytes), so the start is $0801 when the
/// write region lines up with that, and otherwise the address
/// the decruncher actually wrote from.
pub open spec fn as_time_cruncher(low: u16, high: u16, p: Pick) -> Pick {
    let aligned = low == 0x0801 || low == 0x07E8;
    Pick {
        real_start: low,
        start: if aligned {
            0x0801
        } else {
            low
        },
        end: high,
        name: Some("Time Cruncher 5.x-6.x"@),
        classified: true,
        log: if aligned {
            p.log
        } else {
            p.log.push(unaligned_text(low))
        },
        ..p
    }
}

/// Cruel Cruncher. Its copy loop starts below $0801; the start is
/// $0801 when the written data actually covers it, otherwise
/// the real start.
pub open spec fn as_cruel_cruncher(s: Scene, low: u16, high: u16, p: Pick) -> Pick {
    Pick {
        real_start: low,
        start: if low <= 0x0801 <= high {
            0x0801
        } else {
            low
        },
        end: high,
        name: Some(
            if matches_at(cruel_2x_tokens(), s.mem.ram@, 0x0100) {
                "Cruel Cruncher 2.x-3.x"@
            } else {
                "Cruel Cruncher"@
            },
        ),
        classified: true,
        ..p
    }
}

pub open spec fn behavior_classified(d: Definition, s: Scene, p: Pick) -> Pick {
    if d.run.analyze_0100 && copy_then_reverse(s.list) {
        let low = s.list[0].low();
        let high = s.list[1].high();
        if 0x101 <= s.avg_pc < 0x340 {
            as_time_cruncher(low, high, p)
        } else if 0x401 <= s.avg_pc < 0x770 && 0x601 <= low < 0x7ff {
            as_cruel_cruncher(s, low, high, p)
        } else {
            p
        }
    } else {
        p
    }
}

/// Position of the first range from `i` on that was written forward through
/// `(ptr),Y`, or the number of ranges.
pub open spec fn forward_stream(list: Seq<WriteRange>, ptr: u8, i: int) -> int
    decreases list.len() - i,
{
    if i >= list.len() {
        list.len() as int
    } else if list[i].mode is IndirectY && list[i].is_forward == Some(true) && list[i].base_ptr
        == ptr {
        i
    } else {
        forward_stream(list, ptr, i + 1)
    }
}

/// Byte Boozer: output streamed forward through a known zp pointer.
pub open spec fn byteboozer_classified(d: Definition, s: Scene, p: Pick) -> Pick {
    match d.run.byteboozer_ptr {
        None => p,
        Some(ptr) => {
            let i = forward_stream(s.list, ptr, 0);
            if i < s.list.len() {
                Pick {
                    start: s.list[i].low(),
                    end: if d.run.byteboozer_end_from_ptr {
                        s.mem.visible_word(ptr as u16)
                    } else {
                        s.list[i].high()
                    },
                    name: Some(d.run.byteboozer_name),
                    classified: true,
                    ..p
                }
            } else {
                p
            }
        },
    }
}

// ---------------------------------------------------------------------------
// The start address
// ---------------------------------------------------------------------------

pub open spec fn below_guess_text(jump: u16, start: u16, range_start: u16) -> Seq<char> {
    "run address $"@ + hex4(jump) + " lies below guessed start $"@ + hex4(start)
        + ", keeping range start $"@ + hex4(range_start)
}

pub open spec fn rejected_guess_text(start: u16, range_start: u16) -> Seq<char> {
    "guessed start $"@ + hex4(start) + " rejected: no rebuilt line in $"@ + hex4(start) + "-$"@
        + hex4((range_start - 1) as u16)
        + " and its SYS target does not launch the payload; keeping range start $"@ + hex4(
        range_start,
    )
}

/// Whether anything in `from..to` was written during the trace.
pub open spec fn any_written(t: Trace, from: int, to: int) -> bool {
    exists|a: u16| from <= a < to && #[trigger] t.written.contains(a)
}

/// Whether a guessed start well below the traced range is genuine: the depacker
/// wrote into the gap, or the line's SYS target is where it jumped, or it jumped
/// into the gap itself. A gap of a few bytes is always tolerated.
pub open spec fn guess_is_backed(s: Scene, start: u16, range_start: u16, jump: u16) -> bool {
    let sys = sys_target(s.mem.ram@) as u16;
    ||| range_start - start <= 8
    ||| any_written(s.trace, start as int, range_start as int)
    ||| sys != 0 && sys == jump
    ||| start <= jump < range_start
}

/// The $0400 family: BASIC-aware start guessing. Evidence beats the heuristic: a
/// jump INTO the written data below the guessed start keeps the real range.
pub open spec fn start_guessed(d: Definition, s: Scene, p: Pick) -> Pick {
    let guess = guessed_start(s.mem.ram@, p.start);
    if !(d.run.use_guess_start && s.list.len() > 0 && !p.classified) {
        p
    } else if p.start <= p.jump < guess {
        Pick {
            real_start: p.start,
            log: p.log.push(below_guess_text(p.jump, guess, p.start)),
            ..p
        }
    } else if guess_is_backed(s, guess, p.start, p.jump) {
        Pick { real_start: p.start, start: guess, ..p }
    } else {
        Pick {
            real_start: p.start,
            log: p.log.push(rejected_guess_text(guess, p.start)),
            ..p
        }
    }
}

pub open spec fn small_text(unpacked: int, packed: int) -> Seq<char> {
    "warning: unpacked size "@ + dec(unpacked) + " <= packed size "@ + dec(packed)
        + ", result is suspicious"@
}

/// A crunched file unpacks to MORE than its own size. A smaller
/// result usually means the engine exited on an intermediate jump.
pub open spec fn size_checked(s: Scene, p: Pick) -> Pick {
    let packed = packed_len(s.mem) as int;
    let unpacked = p.end - p.start + 1;
    if p.end >= p.start && unpacked <= packed {
        Pick { log: p.log.push(small_text(unpacked, packed)), ..p }
    } else {
        p
    }
}

/// The raw start is the start before any snapping, unless a stage reported one.
pub open spec fn raw_start_kept(p: Pick) -> Pick {
    Pick {
        real_start: if p.real_start == 0 {
            p.start
        } else {
            p.real_start
        },
        ..p
    }
}

pub open spec fn snap_text(start: u16, to: u16) -> Seq<char> {
    "start $"@ + hex4(start) + " snapped to $"@ + hex4(to)
}

/// Precedence: a behavioral classification stands as-is; otherwise a matched
/// variant refines name/start; otherwise plain generic gets the $0801 snap
/// for decrunchers that also rewrite the load-address bytes.
pub open spec fn refined(d: Definition, variant: Option<Variant>, p: Pick) -> Pick {
    match variant {
        _ if p.classified => p,
        Some(v) => Pick { name: Some(v.name), start: wrap16(p.start + v.start_adjust), ..p },
        None => if d.run.snap_start.contains(p.start) {
            Pick {
                start: d.run.snap_to,
                log: p.log.push(snap_text(p.start, d.run.snap_to)),
                ..p
            }
        } else {
            p
        },
    }
}

/// The payload of a finished run.
#[verifier::opaque]
pub open spec fn picked(d: Definition, variant: Option<Variant>, s: Scene, p: Pick) -> Pick {
    let p1 = largest_picked(d, s, p);
    let p2 = late_stage_picked(s, p1);
    let p3 = basic_rebuilt(s, p2);
    let p4 = jump_corrected(s, p3);
    let p5 = basic_handed_over(s, p4);
    let p6 = behavior_classified(d, s, p5);
    let p7 = byteboozer_classified(d, s, p6);
    let p8 = start_guessed(d, s, p7);
    let p9 = raw_start_kept(p8);
    let p10 = size_checked(s, p9);
    refined(d, variant, p10)
}

/// Where phase 1 runs to.
pub open spec fn bootstrap_goal(d: Definition) -> Goal {
    match d.run.stop_below {
        Some(limit) => Goal::Below(limit),
        None => Goal::OneOf(d.run.stop_pc),
    }
}

/// Numbers in decimal, with commas between.
pub open spec fn listed_words(v: Seq<u16>) -> Seq<char>
    decreases v.len(),
{
    if v.len() == 0 {
        Seq::empty()
    } else if v.len() == 1 {
        dec(v[0] as int)
    } else {
        listed_words(v.drop_last()) + ", "@ + dec(v.last() as int)
    }
}

pub open spec fn optional_word(v: Option<u16>) -> Seq<char> {
    match v {
        Some(n) => "Some("@ + dec(n as int) + ")"@,
        None => "None"@,
    }
}

pub open spec fn bootstrap_failed_text(d: Definition, pc: u16) -> Seq<char> {
    "phase 1: never reached stop_pc ["@ + listed_words(d.run.stop_pc) + "]/below "@
        + optional_word(d.run.stop_below) + " (pc=$"@ + hex4(pc) + ")"@
}

pub open spec fn bootstrap_done_text(c: Cpu) -> Seq<char> {
    "phase 1 done: pc=$"@ + hex4(c.pc) + " after "@ + dec(c.instructions as int)
        + " instructions"@
}

pub open spec fn depack_text(s: Chase) -> Seq<char> {
    "phase 2: "@ + (if s.ok {
        "ok"@
    } else {
        "did not finish"@
    }) + ", jumped to $"@ + hex4(s.machine.cpu.pc) + " after "@ + dec(s.steps)
        + " instructions (avg pc $"@ + radix_text(average_pc(s), 16, false) + ")"@
}

/// The machine at the start of phase 2: access tracking is on.
pub open spec fn with_tracking(m: Machine) -> Machine {
    Machine { cpu: Cpu { tracking: true, ..m.cpu }, ..m }
}

/// The finding that a choice of the payload amounts to.
pub open spec fn finding_of(p: Pick) -> Finding {
    Finding {
        ok: true,
        name: p.name,
        start: p.start,
        real_start: p.real_start,
        end: p.end,
        jump_start: p.jump,
    }
}

/// What is made of a traced run, given the lines logged before it.
pub open spec fn concluded(
    d: Definition,
    variant: Option<Variant>,
    s: Chase,
    log: Seq<Seq<char>>,
) -> EngineRun {
    let log2 = log + s.log + seq![depack_text(s), summary_text(s.trace)];
    if !s.ok {
        failed_run(s.machine, log2)
    } else {
        let p = picked(d, variant, scene_of(s), first_pick(d, s));
        EngineRun {
            finding: finding_of(p),
            machine: Machine { mem: restored_mem(s), ..s.machine },
            log: log2 + p.log,
        }
    }
}

/// What the engine makes of a machine.
pub open spec fn generic_run(d: Definition, variant: Option<Variant>, m: Machine) -> EngineRun {
    let (reached, n) = run_to(m, bootstrap_goal(d), d.run.cap as nat);
    if !reached {
        failed_run(n, seq![bootstrap_failed_text(d, n.cpu.pc)])
    } else {
        concluded(d, variant, chased(d, with_tracking(n)), seq![bootstrap_done_text(n.cpu)])
    }
}

// ---------------------------------------------------------------------------
// The choice of the payload, step by step
// ---------------------------------------------------------------------------

struct Choice {
    start: u16,
    end: u16,
    real_start: u16,
    jump: u16,
    name: Option<String>,
    classified: bool,
    notes: Vec<String>,
}

impl View for Choice {
    type V = Pick;

    closed spec fn view(&self) -> Pick {
        Pick {
            start: self.start,
            end: self.end,
            real_start: self.real_start,
            jump: self.jump,
            name: optional_text(self.name),
            classified: self.classified,
            log: texts(self.notes@),
        }
    }
}

struct Stage<'a> {
    mem: &'a C64Mem,
    wl: &'a WriteList,
    list: &'a Vec<WriteRange>,
    switch_instr: Option<u64>,
    avg_pc: u32,
}

impl<'a> View for Stage<'a> {
    type V = Scene;

    closed spec fn view(&self) -> Scene {
        Scene {
            mem: *self.mem,
            trace: self.wl@,
            list: self.list@,
            switch_instr: self.switch_instr,
            avg_pc: self.avg_pc as int,
        }
    }
}

fn merge_note(r: &WriteRange, overlaps: bool, edge: &str, from: u16, to: u16) -> (s: String)
    ensures
        s@ == merge_text(*r, overlaps, edge@, from, to),
{
    let mut s: String = String::from_str("merged ");
    if overlaps {
        s.append("overlapping");
    } else {
        s.append("adjacent");
    }
    s.append(" output range $");
    push_hex4(&mut s, r.min_addr());
    s.append("-$");
    push_hex4(&mut s, r.max_addr());
    s.append(" (");
    s.append(edge);
    push_hex4(&mut s, from);
    s.append(" -> $");
    push_hex4(&mut s, to);
    s.append(")");
    s
}

fn grow_by(p: &mut Choice, r: &WriteRange)
    ensures
        final(p)@ == grown_by(old(p)@, *r),
{
    let min: u16 = r.min_addr();
    let max: u16 = r.max_addr();
    if p.start <= min && max <= p.end {
        return;
    }
    let overlaps: bool = min <= p.end && max >= p.start;
    if min as i32 - p.end as i32 <= 2 && min > p.start {
        note(&mut p.notes, merge_note(r, overlaps, "end $", p.end, max));
        p.end = max;
    } else if p.start as i32 - max as i32 <= 2 && max < p.end {
        note(&mut p.notes, merge_note(r, overlaps, "start $", p.start, min));
        p.start = min;
    }
}

fn grow(p: &mut Choice, list: &Vec<WriteRange>)
    ensures
        final(p)@ == grown(old(p)@, list@),
{
    let ghost goal = grown(p@, list@);
    let mut more: bool = true;
    while more
        invariant
            more ==> grown(p@, list@) == goal,
            !more ==> p@ == goal,
        decreases room(p@),
            if more {
                1int
            } else {
                0
            },
    {
        let start: u16 = p.start;
        let end: u16 = p.end;
        let ghost before = p@;
        let mut i: usize = 0;
        while i < list.len()
            invariant
                i <= list@.len(),
                grown_once(p@, list@, i as int) == grown_once(before, list@, 0),
            decreases list@.len() - i,
        {
            grow_by(p, &list[i]);
            i = i + 1;
        }
        proof {
            growing_widens(before, list@, 0);
        }
        more = p.start != start || p.end != end;
    }
}

fn pick_staging(list: &Vec<WriteRange>, l: &WriteRange) -> (out: Vec<WriteRange>)
    ensures
        out@ == list@.filter(staging_of(*l)),
{
    let mut out: Vec<WriteRange> = Vec::new();
    let mut i: usize = 0;
    proof {
        reveal(Seq::filter);
        assert(list@.take(0).filter(staging_of(*l)) =~= Seq::empty());
    }
    while i < list.len()
        invariant
            i <= list@.len(),
            out@ == list@.take(i as int).filter(staging_of(*l)),
        decreases list@.len() - i,
    {
        proof {
            filter_step(list@, staging_of(*l), i as int);
        }
        let r: WriteRange = list[i];
        if r.min_addr() != l.min_addr() && r.size() < l.size() && l.size() - r.size() <= 255 {
            out.push(r);
        }
        i = i + 1;
    }
    assert(list@.take(i as int) =~= list@);
    out
}

fn trim_overshoot(cfg: &CruncherConfig, list: &Vec<WriteRange>, l: &WriteRange, p: &mut Choice)
    ensures
        final(p)@ == overshoot_trimmed(cfg@, list@, *l, old(p)@),
{
    if !cfg.trim_page_overshoot {
        return;
    }
    let candidates: Vec<WriteRange> = pick_staging(list, l);
    match find_last_largest(&candidates) {
        Some(staged) => {
            proof {
                largest_is_largest(candidates@);
                assert(candidates@.contains(staged));
                filter_only_keeps(list@, staging_of(*l));
                assert(staging_of(*l)(staged));
            }
            let exact: u16 = l.min_addr() + (staged.size() - 1) as u16;
            let mut s: String = String::from_str("trimmed page overshoot: end $");
            push_hex4(&mut s, p.end);
            s.append(" -> $");
            push_hex4(&mut s, exact);
            s.append(" (staged range $");
            push_hex4(&mut s, staged.min_addr());
            s.append("-$");
            push_hex4(&mut s, staged.max_addr());
            s.append(" has the exact size)");
            note(&mut p.notes, s);
            p.end = exact;
        },
        None => {},
    }
}

fn pick_largest(cfg: &CruncherConfig, s: &Stage, p: &mut Choice)
    ensures
        final(p)@ == largest_picked(cfg@, s@, old(p)@),
{
    match find_first_largest(s.list) {
        None => {},
        Some(l) => {
            p.start = l.min_addr();
            p.end = l.max_addr();
            let reverse: bool = match l.is_forward {
                Some(forward) => !forward,
                None => false,
            };
            if cfg.analyze_0100 && reverse {
                let mut name: String = cfg.name.clone();
                name.append(" (reverse writer)");
                p.name = Some(name);
            }
            grow(p, s.list);
            trim_overshoot(cfg, s.list, &l, p);
        },
    }
}

fn file_size(mem: &C64Mem) -> (n: u32)
    ensures
        n == packed_len(*mem),
{
    (mem.prg_end as u32).wrapping_sub(mem.prg_start as u32).wrapping_add(1)
}

fn pick_staged_since(list: &Vec<WriteRange>, switch: u64, least: u32) -> (out: Vec<WriteRange>)
    ensures
        out@ == list@.filter(staged_since(switch, least as int)),
{
    let mut out: Vec<WriteRange> = Vec::new();
    let mut i: usize = 0;
    proof {
        reveal(Seq::filter);
        assert(list@.take(0).filter(staged_since(switch, least as int)) =~= Seq::empty());
    }
    while i < list.len()
        invariant
            i <= list@.len(),
            out@ == list@.take(i as int).filter(staged_since(switch, least as int)),
        decreases list@.len() - i,
    {
        proof {
            filter_step(list@, staged_since(switch, least as int), i as int);
        }
        let r: WriteRange = list[i];
        if r.first_write_instr >= switch && r.size() >= least {
            out.push(r);
        }
        i = i + 1;
    }
    assert(list@.take(i as int) =~= list@);
    out
}

fn pick_late_stage(s: &Stage, p: &mut Choice)
    ensures
        final(p)@ == late_stage_picked(s@, old(p)@),
{
    if let Some(switch) = s.switch_instr {
        let candidates: Vec<WriteRange> = pick_staged_since(s.list, switch, file_size(s.mem) / 2);
        if let Some(stage) = find_last_largest(&candidates) {
            let mut t: String = String::from_str("final stage wrote $");
            push_hex4(&mut t, stage.min_addr());
            t.append("-$");
            push_hex4(&mut t, stage.max_addr());
            t.append(" (");
            push_dec(&mut t, stage.size() as u128);
            t.append(" bytes), using it as the payload");
            note(&mut p.notes, t);
            p.real_start = stage.min_addr();
            p.start = stage.min_addr();
            p.end = stage.max_addr();
            p.classified = true;
        }
    }
}

fn rebuild_basic(s: &Stage, p: &mut Choice)
    ensures
        final(p)@ == basic_rebuilt(s@, old(p)@),
{
    if s.switch_instr.is_none() && p.end < 0xCF00 {
        return;
    }
    let sys: u16 = sys_address(s.mem.ram.as_slice());
    if sys < 0x0801 || sys > p.end {
        return;
    }
    let mut t: String = String::from_str("final memory holds a BASIC line: run address $");
    push_hex4(&mut t, p.jump);
    t.append(" replaced by SYS ");
    push_dec(&mut t, sys as u128);
    t.append(" ($");
    push_hex4(&mut t, sys);
    t.append(")");
    note(&mut p.notes, t);
    p.jump = sys;
    p.real_start = p.start;
    p.start = 0x0801;
    let vartab: u16 = s.mem.read_word(0x2D);
    let loader_value: u16 = s.mem.prg_end.wrapping_add(1);
    let last: u16 = vartab.wrapping_sub(1);
    if vartab != loader_value && last > sys && last < 0xA000 && last < p.end {
        let mut u: String = String::from_str("VARTAB bounds the program: end $");
        push_hex4(&mut u, p.end);
        u.append(" -> $");
        push_hex4(&mut u, last);
        note(&mut p.notes, u);
        p.end = last;
    }
}

/// First address in `start..=end` that does not hold zero.
fn first_code(mem: &C64Mem, start: u16, end: u16) -> (r: Option<u16>)
    ensures
        match r {
            Some(a) => first_nonzero(mem.ram@.take(end + 1), start as int) == Some(a as int),
            None => first_nonzero(mem.ram@.take(end + 1), start as int) is None,
        },
{
    let ghost area = mem.ram@.take(end + 1);
    let mut a: usize = start as usize;
    while a <= end as usize
        invariant
            start <= a,
            area == mem.ram@.take(end + 1),
            first_nonzero(area, a as int) == first_nonzero(area, start as int),
        decreases end + 1 - a,
    {
        assert(area[a as int] == mem.ram@[a as int]);
        if mem.ram[a] != 0 {
            return Some(a as u16);
        }
        a = a + 1;
    }
    None
}

fn correct_jump(s: &Stage, p: &mut Choice)
    ensures
        final(p)@ == jump_corrected(s@, old(p)@),
{
    if !(p.jump >= 0xD000 || (0x0200 <= p.jump && p.jump < 0x0600)) {
        return;
    }
    let sys: u16 = sys_address(s.mem.ram.as_slice());
    if sys != 0 && sys >= p.start && sys <= p.end {
        let mut t: String = String::from_str("run address $");
        push_hex4(&mut t, p.jump);
        t.append(" is in ROM/IO, using the BASIC line's SYS ");
        push_dec(&mut t, sys as u128);
        t.append(" ($");
        push_hex4(&mut t, sys);
        t.append(")");
        note(&mut p.notes, t);
        p.jump = sys;
        return;
    }
    match first_code(s.mem, p.start, p.end) {
        Some(first) => {
            if first != p.start || p.jump >= 0xD000 {
                let mut t: String = String::from_str("run address $");
                push_hex4(&mut t, p.jump);
                t.append(" is bogus, first code byte at $");
                push_hex4(&mut t, first);
                t.append(" used as entry hint");
                note(&mut p.notes, t);
                p.jump = first;
            }
        },
        None => {},
    }
}

fn hand_over_basic(s: &Stage, p: &mut Choice)
    ensures
        final(p)@ == basic_handed_over(s@, old(p)@),
{
    if 0xA000 <= p.jump && p.jump < 0xC000 {
        let last: u16 = s.mem.read_word(0x2D).wrapping_sub(1);
        if last > 0x0801 && last < 0xA000 {
            let mut t: String = String::from_str("run address $");
            push_hex4(&mut t, p.jump);
            t.append(" is the BASIC interpreter: extracting BASIC program $0801-$");
            push_hex4(&mut t, last);
            t.append(" (VARTAB)");
            note(&mut p.notes, t);
            p.real_start = p.start;
            p.start = 0x0801;
            p.end = last;
            p.classified = true;
        }
    }
}

/// The depack loop of Cruel Cruncher 2.x-3.x; see [`cruel_2x_tokens`].
pub fn cruel_2x_pattern() -> (p: Pattern)
    ensures
        p.toks@ == cruel_2x_tokens(),
{
    let toks: [Tok; 57] = [
        Tok::Byte(0xB9), Tok::Any, Tok::Any, Tok::Byte(0x99), Tok::Any, Tok::Any,
        Tok::Byte(0xC8), Tok::Byte(0xD0), Tok::Byte(0xF7), Tok::Byte(0x20), Tok::Any, Tok::Any,
        Tok::Byte(0xF0), Tok::Byte(0x46), Tok::Byte(0x20), Tok::Any, Tok::Any, Tok::Byte(0xD0),
        Tok::Byte(0x30), Tok::Byte(0x20), Tok::Any, Tok::Any, Tok::Byte(0x69), Tok::Byte(0x02),
        Tok::Byte(0xC9), Tok::Byte(0x04), Tok::Byte(0x90), Tok::Byte(0x27), Tok::Byte(0xD0),
        Tok::Byte(0x07), Tok::Byte(0x20), Tok::Any, Tok::Any, Tok::Byte(0x69), Tok::Byte(0x04),
        Tok::Byte(0xD0), Tok::Any, Tok::Byte(0x20), Tok::Any, Tok::Any, Tok::Byte(0x69),
        Tok::Byte(0x06), Tok::Byte(0xC9), Tok::Any, Tok::Byte(0xD0), Tok::Any, Tok::Byte(0xC8),
        Tok::Byte(0x20), Tok::Any, Tok::Any, Tok::Byte(0x69), Tok::Byte(0x0D), Tok::Byte(0xC9),
        Tok::Any, Tok::Byte(0xD0), Tok::Any, Tok::Byte(0xA0),
    ];
    assert(toks@ =~= cruel_2x_tokens());
    Pattern { toks: slice_to_vec(toks.as_slice()) }
}

fn looks_like_copy_then_reverse(list: &Vec<WriteRange>) -> (b: bool)
    ensures
        b == copy_then_reverse(list@),
{
    if list.len() != 2 {
        return false;
    }
    let r0: WriteRange = list[0];
    let r1: WriteRange = list[1];
    let indexed: bool = match r0.mode {
        AddrMode::AbsoluteX | AddrMode::AbsoluteY => true,
        _ => false,
    };
    let forward: bool = match r0.is_forward {
        Some(f) => f,
        None => false,
    };
    let reverse: bool = match r1.is_forward {
        Some(f) => !f,
        None => false,
    };
    indexed && forward && reverse && r1.mode == AddrMode::IndirectY && r1.min_addr() as i32
        - r0.max_addr() as i32 == 1 && r1.max_addr() > r0.min_addr()
}

fn classify_behavior(cfg: &CruncherConfig, s: &Stage, p: &mut Choice)
    ensures
        final(p)@ == behavior_classified(cfg@, s@, old(p)@),
{
    if !cfg.analyze_0100 || !looks_like_copy_then_reverse(s.list) {
        return;
    }
    let low: u16 = s.list[0].min_addr();
    let high: u16 = s.list[1].max_addr();
    if 0x101 <= s.avg_pc && s.avg_pc < 0x340 {
        p.real_start = low;
        if low == 0x0801 || low == 0x07E8 {
            p.start = 0x0801;
        } else {
            let mut t: String = String::from_str("Time Cruncher 5.x: region starts at $");
            push_hex4(&mut t, low);
            t.append(" (not $0801-aligned), keeping the real start");
            note(&mut p.notes, t);
            p.start = low;
        }
        p.end = high;
        p.name = Some(String::from_str("Time Cruncher 5.x-6.x"));
        p.classified = true;
    } else if 0x401 <= s.avg_pc && s.avg_pc < 0x770 && 0x601 <= low && low < 0x7ff {
        p.real_start = low;
        p.start = if low <= 0x0801 && high >= 0x0801 {
            0x0801
        } else {
            low
        };
        p.end = high;
        p.name = Some(
            if cruel_2x_pattern().matches(s.mem.ram.as_slice(), 0x0100) {
                String::from_str("Cruel Cruncher 2.x-3.x")
            } else {
                String::from_str("Cruel Cruncher")
            },
        );
        p.classified = true;
    }
}

fn classify_byteboozer(cfg: &CruncherConfig, s: &Stage, p: &mut Choice)
    ensures
        final(p)@ == byteboozer_classified(cfg@, s@, old(p)@),
{
    let ptr: u8 = match cfg.byteboozer_ptr {
        Some(ptr) => ptr,
        None => {
            return;
        },
    };
    let mut i: usize = 0;
    while i < s.list.len()
        invariant
            i <= s.list@.len(),
            forward_stream(s@.list, ptr, 0) == forward_stream(s@.list, ptr, i as int),
            cfg@.run.byteboozer_ptr == Some(ptr),
            *p == *old(p),
        decreases s.list@.len() - i,
    {
        let r: WriteRange = s.list[i];
        let forward: bool = match r.is_forward {
            Some(f) => f,
            None => false,
        };
        if r.mode == AddrMode::IndirectY && forward && r.base_ptr == ptr {
            p.start = r.min_addr();
            p.end = r.max_addr();
            if cfg.byteboozer_end_from_ptr {
                p.end = s.mem.read_word(ptr as u16);
            }
            p.name = Some(cfg.byteboozer_name.clone());
            p.classified = true;
            return;
        }
        i = i + 1;
    }
}

fn gap_written(wl: &WriteList, from: u16, to: u16) -> (b: bool)
    ensures
        b == any_written(wl@, from as int, to as int),
{
    let mut a: u16 = from;
    while a < to
        invariant
            from <= a,
            forall|x: u16| from <= x < a ==> !(#[trigger] wl@.written.contains(x)),
        decreases to - a,
    {
        if wl.was_written(a) {
            return true;
        }
        a = a + 1;
    }
    false
}

fn guess_range_start(cfg: &CruncherConfig, s: &Stage, p: &mut Choice)
    ensures
        final(p)@ == start_guessed(cfg@, s@, old(p)@),
{
    if !cfg.use_guess_start || s.list.len() == 0 || p.classified {
        return;
    }
    let range_start: u16 = p.start;
    p.real_start = range_start;
    let guess: u16 = guess_start(s.mem.ram.as_slice(), range_start);
    if p.jump >= range_start && p.jump < guess {
        let mut t: String = String::from_str("run address $");
        push_hex4(&mut t, p.jump);
        t.append(" lies below guessed start $");
        push_hex4(&mut t, guess);
        t.append(", keeping range start $");
        push_hex4(&mut t, range_start);
        note(&mut p.notes, t);
        return;
    }
    if guess < range_start && range_start - guess > 8 {
        let written: bool = gap_written(s.wl, guess, range_start);
        let sys: u16 = sys_address(s.mem.ram.as_slice());
        let sys_matches_jump: bool = sys != 0 && sys == p.jump;
        let jumped_into_gap: bool = p.jump >= guess && p.jump < range_start;
        if !(written || sys_matches_jump || jumped_into_gap) {
            let mut t: String = String::from_str("guessed start $");
            push_hex4(&mut t, guess);
            t.append(" rejected: no rebuilt line in $");
            push_hex4(&mut t, guess);
            t.append("-$");
            push_hex4(&mut t, range_start - 1);
            t.append(
                " and its SYS target does not launch the payload; keeping range start $",
            );
            push_hex4(&mut t, range_start);
            note(&mut p.notes, t);
            return;
        }
    }
    p.start = guess;
}

fn check_size(s: &Stage, p: &mut Choice)
    ensures
        final(p)@ == size_checked(s@, old(p)@),
{
    if p.end >= p.start {
        let packed: u32 = file_size(s.mem);
        let unpacked: u32 = (p.end - p.start) as u32 + 1;
        if unpacked <= packed {
            let mut t: String = String::from_str("warning: unpacked size ");
            push_dec(&mut t, unpacked as u128);
            t.append(" <= packed size ");
            push_dec(&mut t, packed as u128);
            t.append(", result is suspicious");
            note(&mut p.notes, t);
        }
    }
}

fn shifted(start: u16, adjust: i32) -> (s: u16)
    ensures
        s == wrap16(start + adjust),
{
    let sum: i64 = start as i64 + adjust as i64 + 0x1_0000_0000;
    assert(sum % 0x1_0000 == (start + adjust) % 0x1_0000) by (nonlinear_arith)
        requires
            sum == start + adjust + 0x1_0000_0000,
    ;
    (sum % 0x1_0000) as u16
}

fn refine(cfg: &CruncherConfig, variant: Option<&VariantCfg>, p: &mut Choice)
    ensures
        final(p)@ == refined(cfg@, variant_of(variant), old(p)@),
{
    if p.classified {
        return;
    }
    match variant {
        Some(v) => {
            p.name = Some(v.name.clone());
            p.start = shifted(p.start, v.start_adjust);
        },
        None => {
            if contains_word(cfg.snap_start.as_slice(), p.start) {
                let mut t: String = String::from_str("start $");
                push_hex4(&mut t, p.start);
                t.append(" snapped to $");
                push_hex4(&mut t, cfg.snap_to);
                note(&mut p.notes, t);
                p.start = cfg.snap_to;
            }
        },
    }
}

fn choose_payload(cfg: &CruncherConfig, variant: Option<&VariantCfg>, s: &Stage, p: &mut Choice)
    ensures
        final(p)@ == picked(cfg@, variant_of(variant), s@, old(p)@),
{
    proof {
        reveal(picked);
    }
    pick_largest(cfg, s, p);
    pick_late_stage(s, p);
    rebuild_basic(s, p);
    correct_jump(s, p);
    hand_over_basic(s, p);
    classify_behavior(cfg, s, p);
    classify_byteboozer(cfg, s, p);
    guess_range_start(cfg, s, p);
    if p.real_start == 0 {
        p.real_start = p.start;
    }
    check_size(s, p);
    refine(cfg, variant, p);
}

// ---------------------------------------------------------------------------
// The engine
// ---------------------------------------------------------------------------

fn push_words(s: &mut String, v: &Vec<u16>)
    ensures
        final(s)@ == old(s)@ + listed_words(v@),
{
    let ghost before = s@;
    let mut i: usize = 0;
    assert(before + listed_words(v@.take(0)) =~= before);
    while i < v.len()
        invariant
            i <= v@.len(),
            s@ == before + listed_words(v@.take(i as int)),
        decreases v@.len() - i,
    {
        if i > 0 {
            s.append(", ");
        }
        push_dec(s, v[i] as u128);
        proof {
            let done = v@.take(i + 1);
            assert(done.drop_last() =~= v@.take(i as int));
            assert(done.last() == v@[i as int]);
            assert(s@ =~= before + listed_words(done));
        }
        i = i + 1;
    }
    assert(v@.take(i as int) =~= v@);
}

fn bootstrap_failed(cfg: &CruncherConfig, pc: u16) -> (s: String)
    ensures
        s@ == bootstrap_failed_text(cfg@, pc),
{
    let mut below: String = String::new();
    match cfg.stop_below {
        Some(n) => {
            below.append("Some(");
            assert(below@ =~= "Some("@);
            push_dec(&mut below, n as u128);
            below.append(")");
        },
        None => {
            below.append("None");
            assert(below@ =~= "None"@);
        },
    }
    let mut s: String = String::from_str("phase 1: never reached stop_pc [");
    push_words(&mut s, &cfg.stop_pc);
    s.append("]/below ");
    s.append(below.as_str());
    s.append(" (pc=$");
    push_hex4(&mut s, pc);
    s.append(")");
    s
}

fn average(h: &Hunt) -> (avg: u32)
    requires
        h.wf(),
    ensures
        forall|m: Machine, log: Seq<String>|
            avg == average_pc(#[trigger] h.state(m, log)),
{
    if h.steps > 0 {
        let avg: u128 = h.pc_sum / h.steps as u128;
        assert(avg <= 0xFFFF) by (nonlinear_arith)
            requires
                avg == h.pc_sum as int / h.steps as int,
                h.pc_sum <= h.steps * 0xFFFF,
                h.steps > 0,
        ;
        avg as u32
    } else {
        0
    }
}

fn depack_note(h: &Hunt, pc: u16, avg: u32) -> (s: String)
    ensures
        forall|m: Machine, log: Seq<String>|
            avg == average_pc(#[trigger] h.state(m, log)) && m.cpu.pc == pc ==> s@ == depack_text(
                h.state(m, log),
            ),
{
    let mut s: String = String::from_str("phase 2: ");
    if h.ok {
        s.append("ok");
    } else {
        s.append("did not finish");
    }
    s.append(", jumped to $");
    push_hex4(&mut s, pc);
    s.append(" after ");
    push_dec(&mut s, h.steps as u128);
    s.append(" instructions (avg pc $");
    push_radix(&mut s, avg as u128, 16, false);
    s.append(")");
    s
}

fn pick_written_by(list: &Vec<WriteRange>, limit: u64) -> (out: Vec<WriteRange>)
    ensures
        out@ == list@.filter(written_by(limit)),
{
    let mut out: Vec<WriteRange> = Vec::new();
    let mut i: usize = 0;
    proof {
        reveal(Seq::filter);
        assert(list@.take(0).filter(written_by(limit)) =~= Seq::empty());
    }
    while i < list.len()
        invariant
            i <= list@.len(),
            out@ == list@.take(i as int).filter(written_by(limit)),
        decreases list@.len() - i,
    {
        proof {
            filter_step(list@, written_by(limit), i as int);
        }
        if list[i].first_write_instr <= limit {
            out.push(list[i]);
        }
        i = i + 1;
    }
    assert(list@.take(i as int) =~= list@);
    out
}

/// The ranges the payload is chosen from.
fn payload_list(h: &Hunt) -> (list: Vec<WriteRange>)
    ensures
        forall|m: Machine, log: Seq<String>|
            list@ == payload_ranges(#[trigger] h.state(m, log)),
{
    let all: Vec<WriteRange> = h.wl.sequences();
    match h.crossing_instr {
        Some(cross) => {
            let kept: Vec<WriteRange> = pick_written_by(&all, cross);
            if kept.len() > 0 {
                kept
            } else {
                all
            }
        },
        None => all,
    }
}

/// Lift memory from the hand-off state, where one was recorded.
fn prepare(
    m: &mut Machine,
    crossed: bool,
    snapshot: Option<Box<[u8; 0x10000]>>,
    dropped: usize,
) -> (notes: Vec<String>)
    ensures
        final(m).cpu == old(m).cpu,
        final(m).mem == (match snapshot {
            Some(ram) if crossed => C64Mem { ram, ..old(m).mem },
            _ => old(m).mem,
        }),
        texts(notes@) == preparation_lines(crossed && snapshot is Some, dropped as int),
{
    let mut notes: Vec<String> = Vec::new();
    assert(texts(notes@) =~= Seq::empty());
    if crossed {
        if let Some(ram) = snapshot {
            m.mem.ram = ram;
            let line: String = String::from_str(
                "restored RAM to the hand-off state (the launched program ran on afterwards)",
            );
            note(&mut notes, line);
            assert(texts(notes@) =~= seq![line@]);
        }
    }
    if dropped > 0 {
        let mut t: String = String::from_str("dropped ");
        push_dec(&mut t, dropped as u128);
        t.append(
            " write range(s) first written after the hand-off (the launched program's own writes)",
        );
        note(&mut notes, t);
    }
    notes
}

/// The first of two hand-offs that was recorded, or where the run ended.
fn choose_hand_off(a: Option<u16>, b: Option<u16>, end: u16) -> (pc: u16)
    ensures
        pc == either_hand_off(a, b, end),
{
    match a {
        Some(pc) => pc,
        None => match b {
            Some(pc) => pc,
            None => end,
        },
    }
}

/// Read the unpacked program out of a finished traced run.
fn conclude(
    cfg: &CruncherConfig,
    variant: Option<&VariantCfg>,
    m: &mut Machine,
    h: Hunt,
    hunt_notes: Vec<String>,
    log: &mut Vec<String>,
) -> (r: EngineResult)
    requires
        h.wf(),
    ensures
        ({
            let e = concluded(
                cfg@,
                variant_of(variant),
                h.state(*old(m), hunt_notes@),
                texts(old(log)@),
            );
            &&& r@ == e.finding
            &&& *final(m) == e.machine
            &&& texts(final(log)@) == e.log
        }),
{
    let ghost s = h.state(*m, hunt_notes@);
    let mut hunt_log: Vec<String> = hunt_notes;
    proof {
        texts_concat(log@, hunt_log@);
    }
    log.append(&mut hunt_log);
    let avg_pc: u32 = average(&h);
    note(log, depack_note(&h, m.cpu.pc, avg_pc));
    note(log, h.wl.summary());
    let ghost log2 = texts(old(log)@) + s.log + seq![depack_text(s), summary_text(s.trace)];
    assert(texts(log@) =~= log2);
    if !h.ok {
        return EngineResult::failed();
    }
    let jump: u16 = if cfg.exit_quiescent > 0 {
        choose_hand_off(h.first_candidate, h.last_crossing, m.cpu.pc)
    } else {
        choose_hand_off(h.last_crossing, h.first_candidate, m.cpu.pc)
    };
    let list: Vec<WriteRange> = payload_list(&h);
    proof {
        payload_is_part(s);
    }
    let notes: Vec<String> = prepare(
        m,
        h.last_crossing.is_some(),
        h.handoff_ram,
        h.wl.len() - list.len(),
    );
    let mut p: Choice = Choice {
        start: 0,
        end: 0,
        real_start: 0,
        jump,
        name: None,
        classified: false,
        notes,
    };
    let stage: Stage = Stage {
        mem: &m.mem,
        wl: &h.wl,
        list: &list,
        switch_instr: h.switch_instr,
        avg_pc,
    };
    assert(stage@ == scene_of(s));
    assert(p@ == first_pick(cfg@, s));
    choose_payload(cfg, variant, &stage, &mut p);
    proof {
        texts_concat(log@, p.notes@);
    }
    log.append(&mut p.notes);
    EngineResult {
        ok: true,
        name: p.name,
        start: p.start,
        real_start: p.real_start,
        end: p.end,
        jump_start: p.jump,
    }
}

/// The payload is chosen from no more ranges than were traced.
proof fn payload_is_part(s: Chase)
    ensures
        payload_ranges(s).len() <= s.trace.ranges.len(),
{
    let all = sorted(s.trace.ranges, false);
    sorting_permutes(s.trace.ranges, false);
    if let Some(cross) = s.crossing_instr {
        filter_shortens(all, written_by(cross));
    }
}

pub fn run(
    cfg: &CruncherConfig,
    variant: Option<&VariantCfg>,
    m: &mut Machine,
    log: &mut Vec<String>,
) -> (r: EngineResult)
    ensures
        ({
            let e = generic_run(cfg@, variant_of(variant), *old(m));
            &&& r@ == e.finding
            &&& *final(m) == e.machine
            &&& texts(final(log)@) == texts(old(log)@) + e.log
        }),
{
    let ghost e = generic_run(cfg@, variant_of(variant), *m);
    // Phase 1: bootstrap until the relocated stub is reached.
    let reached: bool = match cfg.stop_below {
        Some(limit) => m.run_below(limit, cfg.cap),
        None => m.run_until(cfg.stop_pc.as_slice(), cfg.cap),
    };
    let mut fresh: Vec<String> = Vec::new();
    assert(texts(fresh@) =~= Seq::empty());
    if !reached {
        note(&mut fresh, bootstrap_failed(cfg, m.cpu.pc));
        proof {
            assert(texts(fresh@) =~= e.log);
            texts_concat(log@, fresh@);
        }
        log.append(&mut fresh);
        return EngineResult::failed();
    }
    let mut s: String = String::from_str("phase 1 done: pc=$");
    push_hex4(&mut s, m.cpu.pc);
    s.append(" after ");
    push_dec(&mut s, m.cpu.instructions as u128);
    s.append(" instructions");
    note(&mut fresh, s);
    assert(texts(fresh@) =~= seq![bootstrap_done_text(m.cpu)]);
    // Phase 2: trace writes until the PC escapes into the unpacked program.
    m.cpu.tracking = true;
    let mut notes: Vec<String> = Vec::new();
    let h: Hunt = hunt(cfg, m, &mut notes);
    let r: EngineResult = conclude(cfg, variant, m, h, notes, &mut fresh);
    proof {
        texts_concat(log@, fresh@);
    }
    log.append(&mut fresh);
    r
}

} // verus!
