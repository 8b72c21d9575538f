//! Byte-pattern matching against emulated RAM.
//!
//! Patterns are written as whitespace-separated tokens in the cruncher config files:
//!
//! * `A9`   this exact byte must appear here
//! * `??`   any byte (wildcard)
//! * `*N`   a gap: skip up to N bytes (decimal) until the next exact byte matches;
//!   every occurrence of that anchor byte within the window is tried until the
//!   rest of the pattern matches

use vstd::prelude::*;
use vstd::slice::slice_subrange;
use vstd::string::*;

use crate::text::{chars_of, is_text, parse_number, split_words, text_of};

verus! {

use crate::bits::wrap16;
use crate::text::{char_texts, parsed, words};

/// One parsed pattern token.
#[derive(Clone, Copy, Debug, PartialEq, Eq, Structural)]
pub enum Tok {
    /// Exact byte value.
    Byte(u8),
    /// Any single byte.
    Any,
    /// Skip up to N bytes; the following token must be `Byte` (the anchor).
    Gap(usize),
}

/// A parsed pattern, ready to match.
#[derive(Clone, Debug)]
pub struct Pattern {
    pub toks: Vec<Tok>,
}

impl Default for Pattern {
    fn default() -> (p: Pattern)
        ensures
            p.toks@ == Seq::<Tok>::empty(),
    {
        Pattern { toks: Vec::new() }
    }
}

// ---------------------------------------------------------------------------
// Parsing
// ---------------------------------------------------------------------------

/// Number of bytes a character takes in UTF-8.
pub open spec fn utf8_width(c: char) -> int {
    let n = c as u32;
    if n < 0x80 {
        1
    } else if n < 0x800 {
        2
    } else if n < 0x1_0000 {
        3
    } else {
        4
    }
}

/// Whether a text takes at most two bytes in UTF-8.
pub open spec fn at_most_two_bytes(s: Seq<char>) -> bool {
    ||| s.len() == 0
    ||| s.len() == 1 && utf8_width(s[0]) <= 2
    ||| s.len() == 2 && utf8_width(s[0]) + utf8_width(s[1]) <= 2
}

/// What one word of a pattern text means.
pub open spec fn token(raw: Seq<char>) -> Result<Tok, Seq<char>> {
    if raw == "??"@ {
        Ok(Tok::Any)
    } else if raw.len() > 0 && raw[0] == '*' {
        match parsed(raw.skip(1), 10, 0, usize::MAX as int) {
            Some(n) => Ok(Tok::Gap(n as usize)),
            None => Err("bad gap token '"@ + raw + "' (want *N with decimal N)"@),
        }
    } else if at_most_two_bytes(raw) {
        match parsed(raw, 16, 0, 0xFF) {
            Some(b) => Ok(Tok::Byte(b as u8)),
            None => Err("bad byte token '"@ + raw + "' (want two hex digits)"@),
        }
    } else {
        Err("bad token '"@ + raw + "'"@)
    }
}

/// The tokens of a list of words; the first word that is no token is the error.
pub open spec fn tokens(ws: Seq<Seq<char>>) -> Result<Seq<Tok>, Seq<char>>
    decreases ws.len(),
{
    if ws.len() == 0 {
        Ok(Seq::empty())
    } else {
        match tokens(ws.drop_last()) {
            Err(e) => Err(e),
            Ok(toks) => match token(ws.last()) {
                Err(e) => Err(e),
                Ok(t) => Ok(toks.push(t)),
            },
        }
    }
}

/// Every gap is followed by an exact byte, possibly after further gaps.
pub open spec fn gaps_anchored(toks: Seq<Tok>) -> bool {
    forall|i: int|
        0 <= i < toks.len() && (#[trigger] toks[i]) is Gap ==> i + 1 < toks.len() && (toks[i
            + 1] is Byte || toks[i + 1] is Gap)
}

/// The tokens of a pattern text, or what is wrong with it.
pub open spec fn parsed_pattern(text: Seq<char>) -> Result<Seq<Tok>, Seq<char>> {
    match tokens(words(text)) {
        Err(e) => Err(e),
        Ok(toks) => if gaps_anchored(toks) {
            Ok(toks)
        } else {
            Err("a *N gap must be followed by an exact byte"@)
        },
    }
}

fn short_word(s: &[char]) -> (b: bool)
    ensures
        b == at_most_two_bytes(s@),
{
    if s.len() == 0 {
        true
    } else if s.len() == 1 {
        (s[0] as u32) < 0x800
    } else {
        s.len() == 2 && (s[0] as u32) < 0x80 && (s[1] as u32) < 0x80
    }
}

fn read_token(raw: &[char]) -> (r: Result<Tok, String>)
    ensures
        match r {
            Ok(t) => token(raw@) == Ok::<Tok, Seq<char>>(t),
            Err(e) => token(raw@) == Err::<Tok, Seq<char>>(e@),
        },
{
    if is_text(raw, "??") {
        Ok(Tok::Any)
    } else if raw.len() > 0 && raw[0] == '*' {
        let rest: &[char] = slice_subrange(raw, 1, raw.len());
        assert(rest@ =~= raw@.skip(1));
        match parse_number(rest, 10, 0, usize::MAX as i128) {
            Some(n) => Ok(Tok::Gap(n as usize)),
            None => {
                let mut e: String = String::from_str("bad gap token '");
                e.append(text_of(raw).as_str());
                e.append("' (want *N with decimal N)");
                Err(e)
            },
        }
    } else if short_word(raw) {
        match parse_number(raw, 16, 0, 0xFF) {
            Some(b) => Ok(Tok::Byte(b as u8)),
            None => {
                let mut e: String = String::from_str("bad byte token '");
                e.append(text_of(raw).as_str());
                e.append("' (want two hex digits)");
                Err(e)
            },
        }
    } else {
        let mut e: String = String::from_str("bad token '");
        e.append(text_of(raw).as_str());
        e.append("'");
        Err(e)
    }
}

/// An error in the front of a list of words is the error of the whole list.
proof fn early_error_stays(ws: Seq<Seq<char>>, n: int)
    requires
        0 <= n <= ws.len(),
        tokens(ws.take(n)) is Err,
    ensures
        tokens(ws) == tokens(ws.take(n)),
    decreases ws.len(),
{
    if n < ws.len() {
        assert(ws.drop_last().take(n) =~= ws.take(n));
        early_error_stays(ws.drop_last(), n);
    } else {
        assert(ws.take(n) =~= ws);
    }
}

impl Pattern {
    /// Parse a pattern string. Errors describe the offending token.
    pub fn parse(text: &str) -> (r: Result<Pattern, String>)
        ensures
            match r {
                Ok(p) => parsed_pattern(text@) == Ok::<Seq<Tok>, Seq<char>>(p.toks@),
                Err(e) => parsed_pattern(text@) == Err::<Seq<Tok>, Seq<char>>(e@),
            },
    {
        let chars: Vec<char> = chars_of(text);
        let raws: Vec<Vec<char>> = split_words(chars.as_slice());
        let ghost ws = words(text@);
        let mut toks: Vec<Tok> = Vec::new();
        let mut i: usize = 0;
        while i < raws.len()
            invariant
                i <= raws@.len(),
                char_texts(raws@) == ws,
                ws == words(text@),
                tokens(ws.take(i as int)) == Ok::<Seq<Tok>, Seq<char>>(toks@),
            decreases raws@.len() - i,
        {
            proof {
                assert(ws.len() == raws@.len());
                assert(ws[i as int] == raws@[i as int]@);
                assert(ws.take(i + 1).drop_last() =~= ws.take(i as int));
                assert(ws.take(i + 1).last() == ws[i as int]);
            }
            match read_token(raws[i].as_slice()) {
                Ok(t) => toks.push(t),
                Err(e) => {
                    proof {
                        early_error_stays(ws, i + 1);
                    }
                    return Err(e);
                },
            }
            i = i + 1;
        }
        assert(ws.take(i as int) =~= ws);
        // A gap must be followed by an exact byte to anchor the search;
        // consecutive gaps accumulate.
        let mut k: usize = 0;
        while k < toks.len()
            invariant
                k <= toks@.len(),
                tokens(words(text@)) == Ok::<Seq<Tok>, Seq<char>>(toks@),
                forall|j: int|
                    0 <= j < k && (#[trigger] toks@[j]) is Gap ==> j + 1 < toks@.len() && (toks@[j
                        + 1] is Byte || toks@[j + 1] is Gap),
            decreases toks@.len() - k,
        {
            let anchored: bool = match toks[k] {
                Tok::Gap(_) => if k + 1 < toks.len() {
                    match toks[k + 1] {
                        Tok::Any => false,
                        _ => true,
                    }
                } else {
                    false
                },
                _ => true,
            };
            if !anchored {
                assert(toks@[k as int] is Gap);
                return Err(String::from_str("a *N gap must be followed by an exact byte"));
            }
            k = k + 1;
        }
        Ok(Pattern { toks })
    }

    /// Match this pattern against `ram` starting at `start`.
    pub fn matches(&self, ram: &[u8], start: usize) -> (b: bool)
        ensures
            b == matches_at(self.toks@, ram@, start as int),
    {
        matches_from(self.toks.as_slice(), ram, start)
    }
}

// ---------------------------------------------------------------------------
// Matching
// ---------------------------------------------------------------------------

/// Whether the tokens describe the bytes of `ram` from `at` on. A gap stands for
/// any number of bytes up to its size, and matches nothing unless an exact byte
/// (or another gap) follows it.
pub open spec fn matches_at(toks: Seq<Tok>, ram: Seq<u8>, at: int) -> bool
    decreases toks.len(), 0int,
{
    if toks.len() == 0 {
        true
    } else {
        match toks[0] {
            Tok::Byte(b) => at < ram.len() && ram[at] == b && matches_at(toks.skip(1), ram, at + 1),
            Tok::Any => at < ram.len() && matches_at(toks.skip(1), ram, at + 1),
            Tok::Gap(n) => {
                &&& toks.len() > 1
                &&& !(toks[1] is Any)
                &&& matches_within(toks.skip(1), ram, at, n as nat)
            },
        }
    }
}

/// Whether the tokens describe the bytes from `at` on, or from one of the next `n`
/// positions on.
pub open spec fn matches_within(toks: Seq<Tok>, ram: Seq<u8>, at: int, n: nat) -> bool
    decreases toks.len(), 1 + n,
{
    ||| matches_at(toks, ram, at)
    ||| n > 0 && matches_within(toks, ram, at + 1, (n - 1) as nat)
}

/// Matching within a window is matching at one of its positions.
proof fn within_is_somewhere(toks: Seq<Tok>, ram: Seq<u8>, at: int, n: nat)
    ensures
        matches_within(toks, ram, at, n) <==> exists|p: int|
            at <= p <= at + n && #[trigger] matches_at(toks, ram, p),
    decreases n,
{
    if n > 0 {
        within_is_somewhere(toks, ram, at + 1, (n - 1) as nat);
    }
    if matches_at(toks, ram, at) {
        assert(at <= at <= at + n);
    }
}

/// Total size of the first `n` tokens, which are gaps.
spec fn window(toks: Seq<Tok>, n: int) -> int
    decreases n,
{
    if n <= 0 {
        0
    } else {
        window(toks, n - 1) + toks[n - 1]->Gap_0
    }
}

/// Consecutive gaps act as one gap of their total size.
proof fn gaps_accumulate(toks: Seq<Tok>, ram: Seq<u8>, at: int, n: int)
    requires
        0 < n < toks.len(),
        forall|i: int| 0 <= i < n ==> (#[trigger] toks[i]) is Gap,
        toks[n] is Byte,
    ensures
        matches_at(toks, ram, at) <==> exists|p: int|
            at <= p <= at + window(toks, n) && #[trigger] matches_at(toks.skip(n), ram, p),
    decreases n,
{
    let rest = toks.skip(1);
    assert(toks[0] is Gap);
    let first = toks[0]->Gap_0 as int;
    window_shift(toks, n);
    within_is_somewhere(rest, ram, at, first as nat);
    if n == 1 {
        assert(window(toks, 0) == 0);
        assert(window(toks, 1) == first);
        assert(toks[1] is Byte);
    } else {
        assert(toks[1] is Gap);
        assert forall|i: int| 0 <= i < n - 1 implies (#[trigger] rest[i]) is Gap by {
            assert(toks[i + 1] is Gap);
        }
        assert(rest.skip(n - 1) =~= toks.skip(n));
        let w = window(rest, n - 1);
        window_positive(rest, n - 1);
        if matches_at(toks, ram, at) {
            let p = choose|p: int| at <= p <= at + first && #[trigger] matches_at(rest, ram, p);
            gaps_accumulate(rest, ram, p, n - 1);
            let q = choose|q: int|
                p <= q <= p + w && #[trigger] matches_at(rest.skip(n - 1), ram, q);
            assert(at <= q <= at + window(toks, n) && matches_at(toks.skip(n), ram, q));
        }
        if exists|p: int|
            at <= p <= at + window(toks, n) && #[trigger] matches_at(toks.skip(n), ram, p) {
            let q = choose|p: int|
                at <= p <= at + window(toks, n) && #[trigger] matches_at(toks.skip(n), ram, p);
            let p = if q <= at + first {
                q
            } else {
                at + first
            };
            gaps_accumulate(rest, ram, p, n - 1);
            assert(p <= q <= p + w && matches_at(rest.skip(n - 1), ram, q));
            assert(matches_at(rest, ram, p));
        }
    }
}

proof fn window_shift(toks: Seq<Tok>, n: int)
    requires
        0 < n <= toks.len(),
    ensures
        window(toks, n) == toks[0]->Gap_0 + window(toks.skip(1), n - 1),
    decreases n,
{
    if n > 1 {
        window_shift(toks, n - 1);
        assert(toks.skip(1)[n - 2] == toks[n - 1]);
    } else {
        assert(window(toks, 0) == 0);
    }
}

proof fn window_positive(toks: Seq<Tok>, n: int)
    ensures
        window(toks, n) >= 0,
    decreases n,
{
    if n > 0 {
        window_positive(toks, n - 1);
    }
}

fn matches_from(toks: &[Tok], ram: &[u8], at: usize) -> (b: bool)
    ensures
        b == matches_at(toks@, ram@, at as int),
    decreases toks@.len(), 1int,
{
    let mut ti: usize = at;
    let mut pi: usize = 0;
    assert(toks@.skip(0) =~= toks@);
    while pi < toks.len()
        invariant
            pi <= toks@.len(),
            matches_at(toks@, ram@, at as int) == matches_at(toks@.skip(pi as int), ram@, ti as int),
        decreases toks@.len() - pi,
    {
        let ghost rest = toks@.skip(pi as int);
        assert(rest.skip(1) =~= toks@.skip(pi + 1));
        assert(rest[0] == toks@[pi as int]);
        match toks[pi] {
            Tok::Byte(b) => {
                if ti >= ram.len() || ram[ti] != b {
                    return false;
                }
                ti = ti + 1;
                pi = pi + 1;
            },
            Tok::Any => {
                if ti >= ram.len() {
                    return false;
                }
                ti = ti + 1;
                pi = pi + 1;
            },
            Tok::Gap(_) => {
                return match_gap(toks, ram, pi, ti);
            },
        }
    }
    true
}

/// Match from a gap at `first` on: try every occurrence of the anchor within the
/// window; on failure of the tail, resume the search after that occurrence.
fn match_gap(toks: &[Tok], ram: &[u8], first: usize, ti: usize) -> (b: bool)
    requires
        first < toks@.len(),
        toks@[first as int] is Gap,
    ensures
        b == matches_at(toks@.skip(first as int), ram@, ti as int),
    decreases toks@.len() - first, 0int,
{
    let ghost rest = toks@.skip(first as int);
    // Accumulate consecutive gaps into one window.
    let mut max_skip: usize = 0;
    let mut pi: usize = first;
    let mut more: bool = true;
    while more
        invariant
            first <= pi <= toks@.len(),
            rest == toks@.skip(first as int),
            forall|i: int| 0 <= i < pi - first ==> (#[trigger] rest[i]) is Gap,
            window(rest, pi - first) >= 0,
            max_skip == if window(rest, pi - first) <= usize::MAX {
                window(rest, pi - first)
            } else {
                usize::MAX as int
            },
            !more ==> pi == toks@.len() || !(toks@[pi as int] is Gap),
        decreases toks@.len() - pi,
            if more {
                1int
            } else {
                0
            },
    {
        if pi < toks.len() {
            match toks[pi] {
                Tok::Gap(n) => {
                    proof {
                        window_positive(rest, pi - first + 1);
                        assert(rest[pi - first] == toks@[pi as int]);
                    }
                    max_skip = max_skip.saturating_add(n);
                    pi = pi + 1;
                },
                _ => {
                    more = false;
                },
            }
        } else {
            more = false;
        }
    }
    let ghost n = pi - first;
    proof {
        assert(rest[0] == toks@[first as int]);
        if n == 0 {
            assert(false);
        }
    }
    if pi >= toks.len() {
        proof {
            open_gaps_match_nothing(rest, ram@, ti as int, n);
        }
        return false;
    }
    match toks[pi] {
        Tok::Byte(anchor) => {
            let tail: &[Tok] = slice_subrange(toks, pi + 1, toks.len());
            let limit: usize = ti.saturating_add(max_skip);
            let mut search: usize = ti;
            proof {
                assert(rest[n] == toks@[pi as int]);
                gaps_accumulate(rest, ram@, ti as int, n);
                assert(rest.skip(n) =~= toks@.skip(pi as int));
                assert(rest.skip(n).skip(1) =~= tail@);
                assert(rest.skip(n)[0] == toks@[pi as int]);
            }
            while search <= limit && search < ram.len()
                invariant
                    ti <= search,
                    first < pi < toks@.len(),
                    n == pi - first,
                    limit == if ti + window(rest, n) <= usize::MAX {
                        ti + window(rest, n)
                    } else {
                        usize::MAX as int
                    },
                    tail@ == toks@.skip(pi + 1),
                    rest == toks@.skip(first as int),
                    rest.skip(n).len() > 0,
                    rest.skip(n)[0] == Tok::Byte(anchor),
                    rest.skip(n).skip(1) == tail@,
                    matches_at(rest, ram@, ti as int) <==> exists|p: int|
                        ti <= p <= ti + window(rest, n) && #[trigger] matches_at(
                            rest.skip(n),
                            ram@,
                            p,
                        ),
                    forall|p: int|
                        ti <= p < search ==> !(#[trigger] matches_at(rest.skip(n), ram@, p)),
                decreases ram@.len() - search,
            {
                if ram[search] == anchor && matches_from(tail, ram, search + 1) {
                    assert(matches_at(rest.skip(n), ram@, search as int));
                    return true;
                }
                assert(!matches_at(rest.skip(n), ram@, search as int));
                search = search + 1;
            }
            proof {
                assert forall|p: int| ti <= p <= ti + window(rest, n) implies !(
                #[trigger] matches_at(rest.skip(n), ram@, p)) by {
                    if p >= search {
                        assert(p >= ram@.len());
                    }
                }
            }
            false
        },
        _ => {
            proof {
                assert(rest[n] == toks@[pi as int]);
                open_gaps_match_nothing(rest, ram@, ti as int, n);
            }
            false
        },
    }
}

/// Gaps that no exact byte follows match nothing.
proof fn open_gaps_match_nothing(toks: Seq<Tok>, ram: Seq<u8>, at: int, n: int)
    requires
        0 < n <= toks.len(),
        forall|i: int| 0 <= i < n ==> (#[trigger] toks[i]) is Gap,
        n == toks.len() || toks[n] is Any,
    ensures
        !matches_at(toks, ram, at),
    decreases n,
{
    assert(toks[0] is Gap);
    if n > 1 {
        let rest = toks.skip(1);
        assert forall|i: int| 0 <= i < n - 1 implies (#[trigger] rest[i]) is Gap by {
            assert(toks[i + 1] is Gap);
        }
        within_is_somewhere(rest, ram, at, toks[0]->Gap_0 as nat);
        assert forall|p: int| at <= p <= at + toks[0]->Gap_0 implies !(
        #[trigger] matches_at(rest, ram, p)) by {
            open_gaps_match_nothing(rest, ram, p, n - 1);
        }
    }
}

// ---------------------------------------------------------------------------
// BASIC start-up lines
// ---------------------------------------------------------------------------

/// Where the SYS token of the first BASIC line is searched.
pub const SYS_FIRST: usize = 0x0805;

pub const SYS_LAST: usize = 0x0820;

/// Position of the first byte `b` in `ram[from..to]`.
pub open spec fn first_byte(ram: Seq<u8>, b: u8, from: int, to: int) -> Option<int>
    decreases to - from,
{
    if from >= to || from >= ram.len() {
        None
    } else if ram[from] == b {
        Some(from)
    } else {
        first_byte(ram, b, from + 1, to)
    }
}

/// The product of pi and `n`, truncated, as far as it fits sixteen bits. Pi is
/// taken to 48 binary places, which is exact for every sixteen-bit factor.
pub open spec fn times_pi(n: int) -> int {
    let product = 884279719003555 * n / 0x1_0000_0000_0000;
    if product > 0xFFFF {
        0xFFFF
    } else {
        product
    }
}

/// The address that the expression from `at` on denotes, given what has been read
/// of it: the number so far, whether any digit was seen, and whether a pi token
/// came first. Spaces and parentheses are skipped; a multiplication sign is, too,
/// between the pi token and the digits. A number above 65535 counts as none.
pub open spec fn sys_operand(ram: Seq<u8>, at: int, number: int, digits: bool, pi: bool) -> int
    decreases ram.len() - at,
{
    if at < ram.len() && 0x30 <= ram[at] <= 0x39 {
        let n = number * 10 + (ram[at] - 0x30);
        if n > 0xFFFF {
            0
        } else {
            sys_operand(ram, at + 1, n, true, pi)
        }
    } else if at < ram.len() && ram[at] == 0xFF && !digits && !pi {
        sys_operand(ram, at + 1, number, digits, true)
    } else if at < ram.len() && (ram[at] == 0xAC || ram[at] == 0x2A) && !digits && pi {
        sys_operand(ram, at + 1, number, digits, pi)
    } else if at < ram.len() && (ram[at] == 0x20 || ram[at] == 0x28 || ram[at] == 0x29) {
        sys_operand(ram, at + 1, number, digits, pi)
    } else if !digits {
        0
    } else if pi {
        times_pi(number)
    } else {
        number
    }
}

/// The address after the SYS token ($9E) of the first BASIC line, or 0.
pub open spec fn sys_target(ram: Seq<u8>) -> int {
    match first_byte(ram, 0x9E, SYS_FIRST as int, SYS_LAST + 1) {
        None => 0,
        Some(tok) => sys_operand(ram, tok + 1, 0, false, false),
    }
}

/// Find the BASIC `SYS` start address the way the C64 would: locate the SYS token
/// ($9E) in the first BASIC line (searched at $0805-$0820), then read the decimal
/// digits that follow. Spaces and parentheses are skipped, so `SYS (2064)` (valid
/// BASIC that several crunchers emit) is handled, and so is the obfuscated form
/// `SYS π*656`: BASIC truncates the product (π*656 = 2060.99... -> 2060).
pub fn sys_address(ram: &[u8]) -> (addr: u16)
    ensures
        addr == sys_target(ram@),
{
    let mut tok: usize = SYS_FIRST;
    while tok <= SYS_LAST && tok < ram.len() && ram[tok] != 0x9E
        invariant
            SYS_FIRST <= tok <= SYS_LAST + 1,
            first_byte(ram@, 0x9E, tok as int, SYS_LAST + 1) == first_byte(
                ram@,
                0x9E,
                SYS_FIRST as int,
                SYS_LAST + 1,
            ),
        decreases SYS_LAST + 1 - tok,
    {
        tok = tok + 1;
    }
    if tok > SYS_LAST || tok >= ram.len() {
        return 0;
    }
    let mut number: u32 = 0;
    let mut digits: bool = false;
    let mut pi: bool = false;
    let mut at: usize = tok + 1;
    let mut more: bool = true;
    while more && at < ram.len()
        invariant
            tok < at <= ram@.len(),
            number <= 0xFFFF,
            sys_operand(ram@, at as int, number as int, digits, pi) == sys_target(ram@),
            !more ==> at < ram@.len() && sys_operand(
                ram@,
                at as int,
                number as int,
                digits,
                pi,
            ) == sys_operand(ram@, ram@.len() as int, number as int, digits, pi),
        decreases ram@.len() - at,
            if more {
                1int
            } else {
                0
            },
    {
        let b: u8 = ram[at];
        if 0x30 <= b && b <= 0x39 {
            number = number * 10 + (b - 0x30) as u32;
            digits = true;
            if number > 0xFFFF {
                return 0;
            }
            at = at + 1;
        } else if b == 0xFF && !digits && !pi {
            pi = true;
            at = at + 1;
        } else if (b == 0xAC || b == 0x2A) && !digits && pi {
            at = at + 1;
        } else if b == 0x20 || b == 0x28 || b == 0x29 {
            at = at + 1;
        } else {
            more = false;
        }
    }
    if !digits {
        0
    } else if pi {
        let product: u128 = 884279719003555 * number as u128 / 0x1_0000_0000_0000;
        if product > 0xFFFF {
            0xFFFF
        } else {
            product as u16
        }
    } else {
        number as u16
    }
}

/// Position of the first byte from `from` on that is not zero.
pub open spec fn first_nonzero(ram: Seq<u8>, from: int) -> Option<int>
    decreases ram.len() - from,
{
    if from >= ram.len() {
        None
    } else if ram[from] != 0 {
        Some(from)
    } else {
        first_nonzero(ram, from + 1)
    }
}

/// The start that is guessed for data written from `start` on.
pub open spec fn guessed_start(ram: Seq<u8>, start: u16) -> u16 {
    if start == 0x0801 || sys_target(ram) > 0x0801 || (ram.len() > 0x802 && ram[0x802] == 0x08) {
        0x0801
    } else {
        match first_nonzero(ram, start as int) {
            Some(p) => wrap16(p),
            None => start,
        }
    }
}

/// Heuristic for where a decrunched program really starts, used when the analyzed
/// write ranges begin below/around the BASIC start ($0801).
///
/// Priority: an exact $0801 hit wins; a plausible BASIC program (SYS line present,
/// or the classic `.. 08` next-line pointer at $0802) means $0801; otherwise skip
/// any zero padding and use the first non-zero byte. When the data does not hit
/// $0801, keep what the decruncher produced instead of forcing $0801.
pub fn guess_start(ram: &[u8], start: u16) -> (s: u16)
    ensures
        s == guessed_start(ram@, start),
{
    if start == 0x0801 {
        return 0x0801;
    }
    if sys_address(ram) > 0x0801 {
        return 0x0801;
    }
    if ram.len() > 0x802 && ram[0x802] == 0x08 {
        return 0x0801;
    }
    let mut pos: usize = start as usize;
    while pos < ram.len()
        invariant
            start <= pos,
            first_nonzero(ram@, pos as int) == first_nonzero(ram@, start as int),
            start != 0x0801,
            sys_target(ram@) <= 0x0801,
            !(ram@.len() > 0x802 && ram@[0x802] == 0x08),
        decreases ram@.len() - pos,
    {
        if ram[pos] != 0 {
            return (pos % 0x1_0000) as u16;
        }
        pos = pos + 1;
    }
    start
}

// ---------------------------------------------------------------------------
// Laws
// ---------------------------------------------------------------------------

/// A wildcard accepts whatever an exact byte accepts: replacing an exact byte that
/// anchors no gap by a wildcard never loses a match.
pub proof fn wildcard_accepts_more(before: Seq<Tok>, b: u8, after: Seq<Tok>, ram: Seq<u8>, at: int)
    requires
        matches_at(before.push(Tok::Byte(b)) + after, ram, at),
        before.len() == 0 || !(before.last() is Gap),
    ensures
        matches_at(before.push(Tok::Any) + after, ram, at),
    decreases before.len(),
{
    let exact = before.push(Tok::Byte(b)) + after;
    let wild = before.push(Tok::Any) + after;
    if before.len() == 0 {
        assert(exact.skip(1) =~= after);
        assert(wild.skip(1) =~= after);
    } else {
        let rest = before.skip(1);
        assert(rest.push(Tok::Byte(b)) + after =~= exact.skip(1));
        assert(rest.push(Tok::Any) + after =~= wild.skip(1));
        assert(exact[0] == wild[0]);
        if rest.len() > 0 {
            assert(rest.last() == before.last());
        }
        match exact[0] {
            Tok::Gap(n) => {
                assert(before[0] is Gap);
                assert(before.len() > 1);
                assert(exact[1] == wild[1]);
                within_is_somewhere(exact.skip(1), ram, at, n as nat);
                within_is_somewhere(wild.skip(1), ram, at, n as nat);
                let p = choose|p: int|
                    at <= p <= at + n && #[trigger] matches_at(exact.skip(1), ram, p);
                wildcard_accepts_more(rest, b, after, ram, p);
                assert(matches_at(wild.skip(1), ram, p));
            },
            _ => {
                wildcard_accepts_more(rest, b, after, ram, at + 1);
            },
        }
    }
}

/// A larger gap never loses a match.
pub proof fn wider_gap_accepts_more(n: usize, wider: usize, rest: Seq<Tok>, ram: Seq<u8>, at: int)
    requires
        n <= wider,
        matches_at(seq![Tok::Gap(n)] + rest, ram, at),
    ensures
        matches_at(seq![Tok::Gap(wider)] + rest, ram, at),
{
    let narrow = seq![Tok::Gap(n)] + rest;
    let wide = seq![Tok::Gap(wider)] + rest;
    assert(narrow.skip(1) =~= rest);
    assert(wide.skip(1) =~= rest);
    assert(narrow[0] == Tok::Gap(n));
    assert(wide[0] == Tok::Gap(wider));
    assert(narrow[1] == rest[0] && wide[1] == rest[0]);
    within_is_somewhere(rest, ram, at, n as nat);
    within_is_somewhere(rest, ram, at, wider as nat);
    let p = choose|p: int| at <= p <= at + n && #[trigger] matches_at(narrow.skip(1), ram, p);
    assert(matches_at(wide.skip(1), ram, p));
}

/// A pattern that starts with a gap matches exactly when the rest of it matches
/// somewhere within the window.
pub proof fn gap_means_some_offset(n: usize, rest: Seq<Tok>, ram: Seq<u8>, at: int)
    requires
        rest.len() > 0,
        rest[0] is Byte,
    ensures
        matches_at(seq![Tok::Gap(n)] + rest, ram, at) <==> exists|p: int|
            at <= p <= at + n && #[trigger] matches_at(rest, ram, p),
{
    let toks = seq![Tok::Gap(n)] + rest;
    within_is_somewhere(rest, ram, at, n as nat);
    assert(toks.skip(1) =~= rest);
    assert(toks[0] == Tok::Gap(n));
    assert(toks[1] == rest[0]);
}

/// A guessed start is $0801, or the first byte that is not zero, or, where there is
/// nothing but zeros, the start that was given.
pub proof fn guess_skips_only_zeros(ram: Seq<u8>, start: u16)
    requires
        ram.len() <= 0x1_0000,
        guessed_start(ram, start) != 0x0801,
    ensures
        ({
            let g = guessed_start(ram, start);
            ||| start <= g < ram.len() && ram[g as int] != 0 && forall|i: int|
                start <= i < g ==> ram[i] == 0
            ||| g == start && forall|i: int| start <= i < ram.len() ==> ram[i] == 0
        }),
{
    first_nonzero_is_first(ram, start as int);
}

proof fn first_nonzero_is_first(ram: Seq<u8>, from: int)
    requires
        from >= 0,
    ensures
        match first_nonzero(ram, from) {
            Some(p) => from <= p < ram.len() && ram[p] != 0 && forall|i: int|
                from <= i < p ==> ram[i] == 0,
            None => forall|i: int| from <= i < ram.len() ==> ram[i] == 0,
        },
    decreases ram.len() - from,
{
    if from < ram.len() && ram[from] == 0 {
        first_nonzero_is_first(ram, from + 1);
    }
}

} // verus!
