//! What patterns match, what a SYS line says and where a program is guessed to start, in
//! terms of the bytes in memory and the characters of the texts.

use vstd::prelude::*;

verus! {

use crate::config_laws::printed_number_reads_back;
use crate::fmt::{dec, radix_text};
use crate::pattern::{
    first_byte, first_nonzero, gaps_anchored, guessed_start, matches_at, matches_within,
    parsed_pattern, sys_operand, sys_target, times_pi, token, tokens, Tok,
};
use crate::text::{all_digits, digit_value, is_space, parsed, spelled, word_len, words};

// ---------------------------------------------------------------------------
// Matching
// ---------------------------------------------------------------------------

/// No token is a gap.
pub open spec fn is_rigid(toks: Seq<Tok>) -> bool {
    forall|i: int| 0 <= i < toks.len() ==> !((#[trigger] toks[i]) is Gap)
}

/// Every exact byte of the pattern stands where it should, and memory holds the whole of
/// it.
pub open spec fn stands_at(toks: Seq<Tok>, ram: Seq<u8>, at: int) -> bool {
    &&& toks.len() > 0 ==> at + toks.len() <= ram.len()
    &&& forall|i: int|
        0 <= i < toks.len() ==> match #[trigger] toks[i] {
            Tok::Byte(b) => ram[at + i] == b,
            _ => true,
        }
}

/// A pattern without gaps matches exactly when each of its exact bytes stands in memory at
/// its distance from the start, and memory reaches as far as the pattern.
#[verifier::rlimit(40)]
pub proof fn rigid_patterns_match_byte_by_byte(toks: Seq<Tok>, ram: Seq<u8>, at: int)
    requires
        is_rigid(toks),
        0 <= at,
    ensures
        matches_at(toks, ram, at) <==> stands_at(toks, ram, at),
    decreases toks.len(),
{
    if toks.len() > 0 {
        let rest = toks.skip(1);
        assert forall|i: int| 0 <= i < rest.len() implies !((#[trigger] rest[i]) is Gap) by {
            assert(!(toks[i + 1] is Gap));
        }
        assert(!(toks[0] is Gap));
        rigid_patterns_match_byte_by_byte(rest, ram, at + 1);
        if stands_at(toks, ram, at) {
            assert forall|i: int| 0 <= i < rest.len() implies match #[trigger] rest[i] {
                Tok::Byte(b) => ram[at + 1 + i] == b,
                _ => true,
            } by {
                assert(toks[i + 1] == rest[i]);
            }
        }
        if matches_at(toks, ram, at) {
            assert forall|i: int| 0 <= i < toks.len() implies match #[trigger] toks[i] {
                Tok::Byte(b) => ram[at + i] == b,
                _ => true,
            } by {
                if i > 0 {
                    assert(rest[i - 1] == toks[i]);
                }
            }
        }
    }
}

proof fn within_is_at_some(toks: Seq<Tok>, ram: Seq<u8>, at: int, n: nat)
    ensures
        matches_within(toks, ram, at, n) <==> exists|p: int|
            at <= p <= at + n && #[trigger] matches_at(toks, ram, p),
    decreases n,
{
    if n > 0 {
        within_is_at_some(toks, ram, at + 1, (n - 1) as nat);
    }
    if matches_at(toks, ram, at) {
        assert(at <= at <= at + n);
    }
}

/// A gap of `n` behind a front without gaps: the front stands at the start, and the rest,
/// which begins with an exact byte, matches right behind it or up to `n` bytes further on.
#[verifier::rlimit(40)]
pub proof fn gaps_skip_up_to_their_size(
    front: Seq<Tok>,
    n: usize,
    rest: Seq<Tok>,
    ram: Seq<u8>,
    at: int,
)
    requires
        is_rigid(front),
        rest.len() > 0,
        rest[0] is Byte,
        0 <= at,
    ensures
        matches_at(front.push(Tok::Gap(n)) + rest, ram, at) <==> stands_at(front, ram, at)
            && exists|p: int|
            at + front.len() <= p <= at + front.len() + n && #[trigger] matches_at(rest, ram, p),
    decreases front.len(),
{
    let toks = front.push(Tok::Gap(n)) + rest;
    if front.len() == 0 {
        assert(toks.skip(1) =~= rest);
        assert(toks[0] == Tok::Gap(n));
        assert(toks[1] == rest[0]);
        within_is_at_some(rest, ram, at, n as nat);
    } else {
        let tail = front.skip(1);
        assert(toks[0] == front[0]);
        assert(!(front[0] is Gap));
        assert(toks.skip(1) =~= tail.push(Tok::Gap(n)) + rest);
        assert forall|i: int| 0 <= i < tail.len() implies !((#[trigger] tail[i]) is Gap) by {
            assert(!(front[i + 1] is Gap));
        }
        gaps_skip_up_to_their_size(tail, n, rest, ram, at + 1);
        if stands_at(front, ram, at) {
            assert forall|i: int| 0 <= i < tail.len() implies match #[trigger] tail[i] {
                Tok::Byte(b) => ram[at + 1 + i] == b,
                _ => true,
            } by {
                assert(front[i + 1] == tail[i]);
            }
            assert(stands_at(tail, ram, at + 1));
        }
        if matches_at(toks, ram, at) {
            assert(stands_at(tail, ram, at + 1));
            assert forall|i: int| 0 <= i < front.len() implies match #[trigger] front[i] {
                Tok::Byte(b) => ram[at + i] == b,
                _ => true,
            } by {
                if i > 0 {
                    assert(tail[i - 1] == front[i]);
                }
            }
        }
    }
}

// ---------------------------------------------------------------------------
// Pattern texts
// ---------------------------------------------------------------------------

/// The character `c` is the digit `k`, in either case.
pub open spec fn is_digit(c: char, k: int) -> bool {
    ||| 0 <= k <= 9 && c as u32 == 0x30 + k
    ||| 10 <= k <= 15 && (c as u32 == 0x41 + (k - 10) || c as u32 == 0x61 + (k - 10))
}

/// Two hexadecimal digits are the byte they spell.
#[verifier::rlimit(40)]
pub proof fn two_digits_are_a_byte(c: char, d: char, h: int, l: int)
    requires
        is_digit(c, h),
        is_digit(d, l),
    ensures
        token(seq![c, d]) == Ok::<Tok, Seq<char>>(Tok::Byte((16 * h + l) as u8)),
{
    let raw = seq![c, d];
    reveal_strlit("??");
    assert("??"@.len() == 2);
    assert("??"@[0] == '?');
    assert(raw[0] == c);
    assert(raw != "??"@);
    assert(digit_value(c) == h && digit_value(d) == l);
    assert(raw.drop_last() =~= seq![c]);
    assert(seq![c].drop_last() =~= Seq::empty());
    reveal_with_fuel(spelled, 3);
    assert(spelled(raw, 16) == 16 * h + l);
    assert(all_digits(raw, 16));
    assert(parsed(raw, 16, 0, 0xFF) == Some(16 * h + l));
}

/// Two question marks are a wildcard.
pub proof fn question_marks_are_a_wildcard()
    ensures
        token("??"@) == Ok::<Tok, Seq<char>>(Tok::Any),
{
}

/// A star and a decimal number are a gap of that size.
pub proof fn stars_are_gaps(n: usize)
    ensures
        token(seq!['*'] + dec(n as int)) == Ok::<Tok, Seq<char>>(Tok::Gap(n)),
{
    let raw = seq!['*'] + dec(n as int);
    reveal_strlit("??");
    assert("??"@.len() == 2);
    assert("??"@[0] == '?');
    assert(raw[0] == '*');
    assert(raw.skip(1) =~= dec(n as int));
    printed_number_reads_back(n as int, 10, false, usize::MAX as int);
    dec_is_radix_ten(n as int);
}

proof fn dec_is_radix_ten(n: int)
    requires
        n >= 0,
    ensures
        dec(n) == radix_text(n, 10, false),
{
}

/// A word of three characters or more that is no gap is no token.
pub proof fn long_words_are_no_tokens(raw: Seq<char>)
    requires
        raw.len() >= 3,
        raw[0] != '*',
    ensures
        token(raw) is Err,
{
    reveal_strlit("??");
    assert("??"@.len() == 2);
}

proof fn tokens_word_by_word(ws: Seq<Seq<char>>)
    ensures
        tokens(ws) is Ok <==> forall|i: int| 0 <= i < ws.len() ==> token(#[trigger] ws[i]) is Ok,
        tokens(ws) matches Ok(toks) ==> toks.len() == ws.len() && forall|i: int|
            0 <= i < ws.len() ==> token(#[trigger] ws[i]) == Ok::<Tok, Seq<char>>(toks[i]),
    decreases ws.len(),
{
    if ws.len() > 0 {
        let front = ws.drop_last();
        let n = ws.len() - 1;
        tokens_word_by_word(front);
        assert(ws.last() == ws[n]);
        assert forall|i: int| 0 <= i < n implies front[i] == #[trigger] ws[i] by {}
        if tokens(ws) is Ok {
            let toks = tokens(ws)->Ok_0;
            let ts = tokens(front)->Ok_0;
            assert forall|i: int| 0 <= i < ws.len() implies token(#[trigger] ws[i]) == Ok::<
                Tok,
                Seq<char>,
            >(toks[i]) by {
                if i < n {
                    assert(token(front[i]) == Ok::<Tok, Seq<char>>(ts[i]));
                }
            }
        } else if forall|i: int| 0 <= i < ws.len() ==> token(#[trigger] ws[i]) is Ok {
            assert forall|i: int| 0 <= i < front.len() implies token(#[trigger] front[i]) is Ok by {
                assert(token(ws[i]) is Ok);
            }
            assert(token(ws[n]) is Ok);
        }
    }
}

/// A pattern text is a pattern exactly when every word of it is a token and behind every
/// gap there is an exact byte or another gap. The tokens then are those of the words, one
/// by one.
pub proof fn patterns_are_read_word_by_word(text: Seq<char>)
    ensures
        parsed_pattern(text) matches Ok(toks) ==> {
            &&& toks.len() == words(text).len()
            &&& forall|i: int|
                0 <= i < toks.len() ==> token(#[trigger] words(text)[i]) == Ok::<Tok, Seq<char>>(
                    toks[i],
                )
            &&& forall|i: int|
                0 <= i < toks.len() && (#[trigger] toks[i]) is Gap ==> i + 1 < toks.len()
                    && !(toks[i + 1] is Any)
        },
        parsed_pattern(text) is Err ==> (exists|i: int|
            0 <= i < words(text).len() && token(#[trigger] words(text)[i]) is Err) || (tokens(
            words(text),
        ) is Ok && !gaps_anchored(tokens(words(text))->Ok_0)),
{
    tokens_word_by_word(words(text));
}

/// A text without white space is its own only word.
pub proof fn text_without_spaces_is_one_word(s: Seq<char>)
    requires
        s.len() > 0,
        forall|i: int| 0 <= i < s.len() ==> !is_space(#[trigger] s[i]),
    ensures
        words(s) == seq![s],
{
    whole_word(s);
    assert(!is_space(s[0]));
    assert(s.take(s.len() as int) =~= s);
    assert(s.skip(s.len() as int) =~= Seq::empty());
    assert(words(Seq::<char>::empty()) =~= Seq::empty());
    assert(seq![s] + words(s.skip(s.len() as int)) =~= seq![s]);
}

proof fn whole_word(s: Seq<char>)
    requires
        forall|i: int| 0 <= i < s.len() ==> !is_space(#[trigger] s[i]),
    ensures
        word_len(s) == s.len(),
    decreases s.len(),
{
    if s.len() > 0 {
        let t = s.skip(1);
        assert(!is_space(s[0]));
        assert forall|i: int| 0 <= i < t.len() implies !is_space(#[trigger] t[i]) by {
            assert(t[i] == s[i + 1]);
        }
        whole_word(t);
    }
}

/// White space is the control characters from tabulator to carriage return, the space, the
/// next line and no-break space characters, and the spaces of Unicode from $1680 to $3000.
pub proof fn white_space(c: char)
    ensures
        c == ' ' || c == '\t' || c == '\n' || c == '\r' ==> is_space(c),
        0x21 <= c as u32 <= 0x7E ==> !is_space(c),
        c as u32 <= 0x08 || 0x0E <= c as u32 <= 0x1F ==> !is_space(c),
        0x09 <= c as u32 <= 0x0D || c as u32 == 0x85 || c as u32 == 0xA0 ==> is_space(c),
        c as u32 == 0x1680 || 0x2000 <= c as u32 <= 0x200A || c as u32 == 0x3000 ==> is_space(c),
        c as u32 == 0x2028 || c as u32 == 0x2029 || c as u32 == 0x202F || c as u32 == 0x205F
            ==> is_space(c),
        c as u32 > 0x3000 ==> !is_space(c),
{
}

// ---------------------------------------------------------------------------
// SYS lines
// ---------------------------------------------------------------------------

/// A byte that a SYS operand may hold between its digits: a space or a parenthesis.
pub open spec fn is_filler(b: u8) -> bool {
    b == 0x20 || b == 0x28 || b == 0x29
}

pub open spec fn is_decimal(b: u8) -> bool {
    0x30 <= b <= 0x39
}

/// The decimal number that the digits of `body` spell, with `n` in front of them.
pub open spec fn digits_spell(body: Seq<u8>, n: int) -> int
    decreases body.len(),
{
    if body.len() == 0 {
        n
    } else if is_decimal(body[0]) {
        digits_spell(body.skip(1), 10 * n + (body[0] - 0x30))
    } else {
        digits_spell(body.skip(1), n)
    }
}

/// Nothing but digits and fillers.
pub open spec fn is_number_body(body: Seq<u8>) -> bool {
    forall|i: int| 0 <= i < body.len() ==> is_decimal(#[trigger] body[i]) || is_filler(body[i])
}

pub open spec fn has_digit(body: Seq<u8>) -> bool {
    exists|i: int| 0 <= i < body.len() && is_decimal(#[trigger] body[i])
}

proof fn spelling_grows(body: Seq<u8>, n: int)
    requires
        n >= 0,
    ensures
        digits_spell(body, n) >= n,
    decreases body.len(),
{
    if body.len() > 0 {
        spelling_grows(
            body.skip(1),
            if is_decimal(body[0]) {
                10 * n + (body[0] - 0x30)
            } else {
                n
            },
        );
    }
}

#[verifier::rlimit(40)]
proof fn operand_is_spelled(ram: Seq<u8>, at: int, to: int, n: int, digits: bool, pi: bool)
    requires
        0 <= at <= to < ram.len(),
        is_number_body(ram.subrange(at, to)),
        !is_decimal(ram[to]) && !is_filler(ram[to]),
        digits || has_digit(ram.subrange(at, to)) || (!pi && ram[to] != 0xFF),
        0 <= n <= 0xFFFF,
    ensures
        ({
            let body = ram.subrange(at, to);
            let v = digits_spell(body, n);
            sys_operand(ram, at, n, digits, pi) == if !digits && !has_digit(body) {
                0
            } else if v > 0xFFFF {
                0
            } else if pi {
                times_pi(v)
            } else {
                v
            }
        }),
    decreases to - at,
{
    let body = ram.subrange(at, to);
    if at < to {
        let rest = ram.subrange(at + 1, to);
        assert(body.skip(1) =~= rest);
        assert(body[0] == ram[at]);
        assert(is_decimal(body[0]) || is_filler(body[0]));
        assert forall|i: int| 0 <= i < rest.len() implies is_decimal(#[trigger] rest[i])
            || is_filler(rest[i]) by {
            assert(rest[i] == body[i + 1]);
        }
        if has_digit(rest) {
            let i = choose|i: int| 0 <= i < rest.len() && is_decimal(#[trigger] rest[i]);
            assert(is_decimal(body[i + 1]));
        }
        if has_digit(body) && !is_decimal(body[0]) {
            let i = choose|i: int| 0 <= i < body.len() && is_decimal(#[trigger] body[i]);
            assert(is_decimal(rest[i - 1]));
        }
        if is_decimal(ram[at]) {
            let m = 10 * n + (ram[at] - 0x30);
            if m > 0xFFFF {
                spelling_grows(rest, m);
            } else {
                operand_is_spelled(ram, at + 1, to, m, true, pi);
            }
        } else {
            operand_is_spelled(ram, at + 1, to, n, digits, pi);
        }
    }
}

proof fn first_byte_stands(ram: Seq<u8>, b: u8, from: int, to: int, p: int)
    requires
        0 <= from <= p < to,
        p < ram.len(),
        ram[p] == b,
        forall|i: int| from <= i < p ==> #[trigger] ram[i] != b,
    ensures
        first_byte(ram, b, from, to) == Some(p),
    decreases p - from,
{
    if from < p {
        assert(ram[from] != b);
        first_byte_stands(ram, b, from + 1, to, p);
    }
}

proof fn no_first_byte(ram: Seq<u8>, b: u8, from: int, to: int)
    requires
        0 <= from,
        forall|i: int| from <= i < to && i < ram.len() ==> #[trigger] ram[i] != b,
    ensures
        first_byte(ram, b, from, to) is None,
    decreases to - from,
{
    if from < to && from < ram.len() {
        assert(ram[from] != b);
        no_first_byte(ram, b, from + 1, to);
    }
}

/// Without a SYS token ($9E) from $0805 to $0820 there is no SYS target.
pub proof fn no_token_no_target(ram: Seq<u8>)
    requires
        forall|i: int| 0x0805 <= i <= 0x0820 && i < ram.len() ==> #[trigger] ram[i] != 0x9E,
    ensures
        sys_target(ram) == 0,
{
    no_first_byte(ram, 0x9E, 0x0805, 0x0821);
}

/// The SYS target is the decimal number behind the first SYS token from $0805 to $0820:
/// spaces and parentheses between its digits do not count, and any other byte ends it. A
/// number above 65535, or none, is no target.
pub proof fn sys_reads_a_decimal_number(ram: Seq<u8>, p: int, to: int)
    requires
        0x0805 <= p <= 0x0820,
        p < to < ram.len(),
        ram[p] == 0x9E,
        forall|i: int| 0x0805 <= i < p ==> #[trigger] ram[i] != 0x9E,
        is_number_body(ram.subrange(p + 1, to)),
        !is_decimal(ram[to]) && !is_filler(ram[to]),
        has_digit(ram.subrange(p + 1, to)) || ram[to] != 0xFF,
    ensures
        ({
            let body = ram.subrange(p + 1, to);
            let v = digits_spell(body, 0);
            sys_target(ram) == if has_digit(body) && v <= 0xFFFF {
                v
            } else {
                0
            }
        }),
{
    first_byte_stands(ram, 0x9E, 0x0805, 0x0821, p);
    operand_is_spelled(ram, p + 1, to, 0, false, false);
}

/// Behind a pi token, with or without a multiplication sign, the SYS target is pi times the
/// number, rounded down, and at most 65535.
#[verifier::rlimit(40)]
pub proof fn sys_multiplies_by_pi(ram: Seq<u8>, p: int, from: int, to: int)
    requires
        0x0805 <= p <= 0x0820,
        p < from <= to < ram.len(),
        ram[p] == 0x9E,
        forall|i: int| 0x0805 <= i < p ==> #[trigger] ram[i] != 0x9E,
        ram[p + 1] == 0xFF,
        from == p + 2 || (from == p + 3 && (ram[p + 2] == 0xAC || ram[p + 2] == 0x2A)),
        is_number_body(ram.subrange(from, to)),
        has_digit(ram.subrange(from, to)),
        digits_spell(ram.subrange(from, to), 0) <= 0xFFFF,
        !is_decimal(ram[to]) && !is_filler(ram[to]),
    ensures
        ({
            let v = digits_spell(ram.subrange(from, to), 0);
            let r = sys_target(ram);
            // pi lies between 3.14159265358979 and 3.14159265358980
            &&& 0 <= r <= 0xFFFF
            &&& r < 0xFFFF ==> 100_000_000_000_000 * r <= 314_159_265_358_980 * v
            &&& r < 0xFFFF ==> 100_000_000_000_000 * (r + 1) > 314_159_265_358_979 * v
            &&& r == 0xFFFF ==> 314_159_265_358_980 * v >= 100_000_000_000_000 * 0xFFFF
        }),
{
    let v = digits_spell(ram.subrange(from, to), 0);
    first_byte_stands(ram, 0x9E, 0x0805, 0x0821, p);
    operand_is_spelled(ram, from, to, 0, false, true);
    spelling_grows(ram.subrange(from, to), 0);
    if from == p + 3 {
        assert(sys_operand(ram, p + 2, 0, false, true) == sys_operand(ram, p + 3, 0, false, true));
    }
    assert(sys_operand(ram, p + 1, 0, false, false) == sys_operand(ram, p + 2, 0, false, true));
    assert(sys_target(ram) == times_pi(v));
}

// ---------------------------------------------------------------------------
// Guessed starts
// ---------------------------------------------------------------------------

/// A start is guessed as $0801 where it is that, where memory holds a SYS line with a target
/// above $0801, and where $0802 holds the page of a following BASIC line. Everywhere else it
/// is the first byte from the given start on that is not zero; where there is none, it is
/// the given start.
#[verifier::rlimit(40)]
pub proof fn starts_are_guessed(ram: Seq<u8>, start: u16, a: int)
    requires
        ram.len() == 0x10000,
    ensures
        ({
            let g = guessed_start(ram, start);
            let basic = start == 0x0801 || sys_target(ram) > 0x0801 || ram[0x0802] == 0x08;
            &&& basic ==> g == 0x0801
            &&& !basic && start <= a < 0x10000 && ram[a] != 0 && (forall|i: int|
                start <= i < a ==> #[trigger] ram[i] == 0) ==> g == a
            &&& !basic && (forall|i: int| start <= i < 0x10000 ==> #[trigger] ram[i] == 0) ==> g
                == start
        }),
{
    if start <= a < 0x10000 && ram[a] != 0 && (forall|i: int|
        start <= i < a ==> #[trigger] ram[i] == 0) {
        nonzero_stands(ram, start as int, a);
    }
    if forall|i: int| start <= i < 0x10000 ==> #[trigger] ram[i] == 0 {
        only_zeros(ram, start as int);
    }
}

proof fn nonzero_stands(ram: Seq<u8>, from: int, a: int)
    requires
        0 <= from <= a < ram.len(),
        ram[a] != 0,
        forall|i: int| from <= i < a ==> #[trigger] ram[i] == 0,
    ensures
        first_nonzero(ram, from) == Some(a),
    decreases a - from,
{
    if from < a {
        assert(ram[from] == 0);
        nonzero_stands(ram, from + 1, a);
    }
}

proof fn only_zeros(ram: Seq<u8>, from: int)
    requires
        0 <= from,
        forall|i: int| from <= i < ram.len() ==> #[trigger] ram[i] == 0,
    ensures
        first_nonzero(ram, from) is None,
    decreases ram.len() - from,
{
    if from < ram.len() {
        assert(ram[from] == 0);
        only_zeros(ram, from + 1);
    }
}

/// Gaps that follow each other add up.
#[verifier::rlimit(40)]
pub proof fn gaps_add_up(a: usize, b: usize, rest: Seq<Tok>, ram: Seq<u8>, at: int)
    requires
        rest.len() > 0,
        rest[0] is Byte,
        0 <= at,
    ensures
        matches_at(seq![Tok::Gap(a), Tok::Gap(b)] + rest, ram, at) <==> exists|p: int|
            at <= p <= at + a + b && #[trigger] matches_at(rest, ram, p),
{
    let toks = seq![Tok::Gap(a), Tok::Gap(b)] + rest;
    let inner = Seq::empty().push(Tok::Gap(b)) + rest;
    assert(toks.skip(1) =~= inner);
    assert(toks[0] == Tok::Gap(a) && toks[1] == Tok::Gap(b));
    within_is_at_some(inner, ram, at, a as nat);
    assert forall|q: int| 0 <= q implies (#[trigger] matches_at(inner, ram, q) <==> exists|p: int|
        q <= p <= q + b && #[trigger] matches_at(rest, ram, p)) by {
        gaps_skip_up_to_their_size(Seq::empty(), b, rest, ram, q);
    }
    if exists|p: int| at <= p <= at + a + b && #[trigger] matches_at(rest, ram, p) {
        let p = choose|p: int| at <= p <= at + a + b && #[trigger] matches_at(rest, ram, p);
        let q = if p - b >= at {
            p - b
        } else {
            at
        };
        assert(matches_at(inner, ram, q));
        assert(at <= q <= at + a);
    }
    if matches_at(toks, ram, at) {
        let q = choose|q: int| at <= q <= at + a && #[trigger] matches_at(inner, ram, q);
        let p = choose|p: int| q <= p <= q + b && #[trigger] matches_at(rest, ram, p);
        assert(at <= p <= at + a + b);
    }
}

/// What is said of a word that is no token.
pub proof fn bad_words_are_named(raw: Seq<char>)
    ensures
        raw.len() >= 3 && raw[0] != '*' ==> token(raw) == Err::<Tok, Seq<char>>(
            "bad token '"@ + raw + "'"@,
        ),
        raw.len() > 0 && raw[0] == '*' && token(raw) is Err ==> token(raw) == Err::<
            Tok,
            Seq<char>,
        >("bad gap token '"@ + raw + "' (want *N with decimal N)"@),
        raw.len() == 2 && raw[0] != '*' && 0x20 < raw[0] as u32 && (raw[0] as u32) < 0x7F && 0x20
            < raw[1] as u32 && (raw[1] as u32) < 0x7F && token(raw) is Err ==> token(raw) == Err::<
            Tok,
            Seq<char>,
        >("bad byte token '"@ + raw + "' (want two hex digits)"@),
{
    reveal_strlit("??");
    assert("??"@.len() == 2);
    assert("??"@[0] == '?');
}

} // verus!
