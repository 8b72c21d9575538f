//! Plain text as sequences of characters: words, lines, trimming and numbers.

use vstd::prelude::*;
use vstd::slice::{slice_subrange, slice_to_vec};

verus! {

// ---------------------------------------------------------------------------
// Strings and characters
// ---------------------------------------------------------------------------

/// `String::push` appends the given character to the end of the string.
pub assume_specification[ String::push ](s: &mut String, c: char)
    ensures
        final(s)@ == old(s)@.push(c),
;

/// The characters of several texts.
pub open spec fn char_texts(parts: Seq<Vec<char>>) -> Seq<Seq<char>> {
    Seq::new(parts.len(), |i: int| parts[i]@)
}

/// The characters of a string.
pub fn chars_of(s: &str) -> (v: Vec<char>)
    ensures
        v@ == s@,
{
    let mut v: Vec<char> = Vec::new();
    for c in it: s.chars()
        invariant
            it.seq() == s@,
            v@ == s@.take(it.index()),
    {
        v.push(c);
    }
    assert(v@ =~= s@);
    v
}

/// The string made of the given characters.
pub fn text_of(chars: &[char]) -> (s: String)
    ensures
        s@ == chars@,
{
    let mut s: String = String::new();
    let mut i: usize = 0;
    while i < chars.len()
        invariant
            i <= chars@.len(),
            s@ == chars@.take(i as int),
        decreases chars@.len() - i,
    {
        s.push(chars[i]);
        i = i + 1;
        assert(chars@.take(i as int) =~= chars@.take(i - 1).push(chars@[i - 1]));
    }
    assert(chars@.take(i as int) =~= chars@);
    s
}

/// Whether two texts are the same.
pub fn same_chars(a: &[char], b: &[char]) -> (same: bool)
    ensures
        same == (a@ == b@),
{
    if a.len() != b.len() {
        return false;
    }
    let mut i: usize = 0;
    while i < a.len()
        invariant
            i <= a@.len(),
            a@.len() == b@.len(),
            forall|j: int| 0 <= j < i ==> a@[j] == b@[j],
        decreases a@.len() - i,
    {
        if a[i] != b[i] {
            return false;
        }
        i = i + 1;
    }
    assert(a@ =~= b@);
    true
}

/// Whether `a` spells the string `s`.
pub fn is_text(a: &[char], s: &str) -> (same: bool)
    ensures
        same == (a@ == s@),
{
    same_chars(a, chars_of(s).as_slice())
}

/// Position of the first `c` in `s`, or the length of `s`.
pub open spec fn position(s: Seq<char>, c: char) -> int
    decreases s.len(),
{
    if s.len() == 0 || s[0] == c {
        0
    } else {
        1 + position(s.skip(1), c)
    }
}

proof fn position_step(s: Seq<char>, c: char, i: int)
    requires
        0 <= i < s.len(),
        s[i] != c,
    ensures
        position(s.skip(i), c) == 1 + position(s.skip(i + 1), c),
{
    assert(s.skip(i).skip(1) =~= s.skip(i + 1));
}

/// The first `c` stands at its position, and none stands before it.
pub proof fn position_is_first(s: Seq<char>, c: char)
    ensures
        0 <= position(s, c) <= s.len(),
        position(s, c) < s.len() ==> s[position(s, c)] == c,
        forall|i: int| 0 <= i < position(s, c) ==> s[i] != c,
    decreases s.len(),
{
    if s.len() > 0 && s[0] != c {
        let t = s.skip(1);
        position_is_first(t, c);
        assert forall|i: int| 0 <= i < position(s, c) implies s[i] != c by {
            if i > 0 {
                assert(t[i - 1] == s[i]);
            }
        }
    }
}

/// Find the first `c` in `s`; the length of `s` when there is none.
pub fn find_char(s: &[char], c: char) -> (n: usize)
    ensures
        n == position(s@, c),
        n <= s@.len(),
        n < s@.len() ==> s@[n as int] == c,
{
    let mut i: usize = 0;
    assert(s@.skip(0) =~= s@);
    while i < s.len() && s[i] != c
        invariant
            i <= s@.len(),
            position(s@, c) == i + position(s@.skip(i as int), c),
        decreases s@.len() - i,
    {
        proof {
            position_step(s@, c, i as int);
        }
        i = i + 1;
    }
    i
}

// ---------------------------------------------------------------------------
// White space
// ---------------------------------------------------------------------------

/// The characters with the Unicode property White_Space.
pub open spec fn is_space(c: char) -> bool {
    let n = c as u32;
    ||| 0x09 <= n <= 0x0D
    ||| n == 0x20
    ||| n == 0x85
    ||| n == 0xA0
    ||| n == 0x1680
    ||| 0x2000 <= n <= 0x200A
    ||| n == 0x2028
    ||| n == 0x2029
    ||| n == 0x202F
    ||| n == 0x205F
    ||| n == 0x3000
}

pub fn space(c: char) -> (b: bool)
    ensures
        b == is_space(c),
{
    let n: u32 = c as u32;
    (0x09 <= n && n <= 0x0D) || n == 0x20 || n == 0x85 || n == 0xA0 || n == 0x1680 || (0x2000 <= n
        && n <= 0x200A) || n == 0x2028 || n == 0x2029 || n == 0x202F || n == 0x205F || n == 0x3000
}

/// `s` without its leading white space.
pub open spec fn trimmed_start(s: Seq<char>) -> Seq<char>
    decreases s.len(),
{
    if s.len() > 0 && is_space(s[0]) {
        trimmed_start(s.skip(1))
    } else {
        s
    }
}

/// `s` without its trailing white space.
pub open spec fn trimmed_end(s: Seq<char>) -> Seq<char>
    decreases s.len(),
{
    if s.len() > 0 && is_space(s.last()) {
        trimmed_end(s.drop_last())
    } else {
        s
    }
}

/// `s` without white space at either end.
pub open spec fn trimmed(s: Seq<char>) -> Seq<char> {
    trimmed_end(trimmed_start(s))
}

/// Remove white space at both ends.
pub fn trim(s: &[char]) -> (t: &[char])
    ensures
        t@ == trimmed(s@),
{
    let mut a: usize = 0;
    assert(s@.skip(0) =~= s@);
    while a < s.len() && space(s[a])
        invariant
            a <= s@.len(),
            trimmed_start(s@) == trimmed_start(s@.skip(a as int)),
        decreases s@.len() - a,
    {
        assert(s@.skip(a as int).skip(1) =~= s@.skip(a + 1));
        a = a + 1;
    }
    let ghost front = s@.skip(a as int);
    let mut b: usize = s.len();
    assert(s@.subrange(a as int, b as int) =~= front);
    while a < b && space(s[b - 1])
        invariant
            a <= b <= s@.len(),
            trimmed_end(front) == trimmed_end(s@.subrange(a as int, b as int)),
        decreases b - a,
    {
        assert(s@.subrange(a as int, b as int).drop_last() =~= s@.subrange(a as int, b - 1));
        b = b - 1;
    }
    slice_subrange(s, a, b)
}

/// Number of leading characters that are not white space.
pub open spec fn word_len(s: Seq<char>) -> int
    decreases s.len(),
{
    if s.len() == 0 || is_space(s[0]) {
        0
    } else {
        1 + word_len(s.skip(1))
    }
}

/// The words of a text: its longest runs without white space, in order.
pub open spec fn words(s: Seq<char>) -> Seq<Seq<char>>
    decreases s.len(),
{
    if s.len() == 0 {
        Seq::empty()
    } else if is_space(s[0]) {
        words(s.skip(1))
    } else {
        let n = word_len(s);
        if 0 < n <= s.len() {
            seq![s.take(n)] + words(s.skip(n))
        } else {
            Seq::empty()
        }
    }
}

proof fn word_len_bounds(s: Seq<char>)
    ensures
        0 <= word_len(s) <= s.len(),
        s.len() > 0 && !is_space(s[0]) ==> word_len(s) > 0,
    decreases s.len(),
{
    if s.len() > 0 && !is_space(s[0]) {
        word_len_bounds(s.skip(1));
    }
}

/// Split a text at white space.
pub fn split_words(s: &[char]) -> (out: Vec<Vec<char>>)
    ensures
        char_texts(out@) == words(s@),
{
    let mut out: Vec<Vec<char>> = Vec::new();
    let mut at: usize = 0;
    proof {
        assert(s@.skip(0) =~= s@);
        assert(char_texts(out@) + words(s@) =~= words(s@));
    }
    while at < s.len()
        invariant
            at <= s@.len(),
            char_texts(out@) + words(s@.skip(at as int)) == words(s@),
        decreases s@.len() - at,
    {
        let ghost rest = s@.skip(at as int);
        if space(s[at]) {
            assert(rest.skip(1) =~= s@.skip(at + 1));
            at = at + 1;
        } else {
            let mut end: usize = at;
            assert(rest =~= s@.skip(end as int));
            while end < s.len() && !space(s[end])
                invariant
                    at <= end <= s@.len(),
                    rest == s@.skip(at as int),
                    word_len(rest) == end - at + word_len(s@.skip(end as int)),
                decreases s@.len() - end,
            {
                assert(s@.skip(end as int).skip(1) =~= s@.skip(end + 1));
                end = end + 1;
            }
            let word: Vec<char> = slice_to_vec(slice_subrange(s, at, end));
            let ghost before = out@;
            out.push(word);
            proof {
                word_len_bounds(rest);
                let n = word_len(rest);
                assert(n == end - at);
                assert(word@ =~= rest.take(n));
                assert(rest.skip(n) =~= s@.skip(end as int));
                assert(char_texts(out@) =~= char_texts(before).push(word@));
                assert(char_texts(out@) + words(s@.skip(end as int)) =~= char_texts(before) + (
                seq![rest.take(n)] + words(rest.skip(n))));
            }
            at = end;
        }
    }
    assert(words(s@.skip(at as int)) =~= Seq::<Seq<char>>::empty());
    assert(char_texts(out@) =~= words(s@));
    out
}

// ---------------------------------------------------------------------------
// Lines
// ---------------------------------------------------------------------------

/// A line without the carriage return that ends it.
pub open spec fn without_return(s: Seq<char>) -> Seq<char> {
    if s.len() > 0 && s.last() == '\r' {
        s.drop_last()
    } else {
        s
    }
}

/// The lines of a text. A line ends at a line feed or at the end of the text; a
/// carriage return before the line feed belongs to the line end. A line feed at
/// the very end starts no further line.
pub open spec fn lines(s: Seq<char>) -> Seq<Seq<char>>
    decreases s.len(),
{
    let n = position(s, '\n');
    if s.len() == 0 {
        Seq::empty()
    } else if 0 <= n < s.len() {
        seq![without_return(s.take(n))] + lines(s.skip(n + 1))
    } else {
        seq![s]
    }
}

/// Split a text into lines.
pub fn split_lines(s: &[char]) -> (out: Vec<Vec<char>>)
    ensures
        char_texts(out@) == lines(s@),
{
    let mut out: Vec<Vec<char>> = Vec::new();
    let mut at: usize = 0;
    proof {
        assert(s@.skip(0) =~= s@);
        assert(char_texts(out@) + lines(s@) =~= lines(s@));
    }
    while at < s.len()
        invariant
            at <= s@.len(),
            char_texts(out@) + lines(s@.skip(at as int)) == lines(s@),
        decreases s@.len() - at,
    {
        let rest: &[char] = slice_subrange(s, at, s.len());
        assert(rest@ =~= s@.skip(at as int));
        let n: usize = find_char(rest, '\n');
        let ghost before = out@;
        if n < rest.len() {
            let mut end: usize = n;
            if end > 0 && rest[end - 1] == '\r' {
                end = end - 1;
            }
            let line: Vec<char> = slice_to_vec(slice_subrange(rest, 0, end));
            out.push(line);
            proof {
                assert(line@ =~= without_return(rest@.take(n as int)));
                assert(rest@.skip(n + 1) =~= s@.skip(at + n + 1));
                assert(char_texts(out@) =~= char_texts(before).push(line@));
                assert(char_texts(out@) + lines(s@.skip(at + n + 1)) =~= char_texts(before) + (
                seq![line@] + lines(rest@.skip(n + 1))));
            }
            at = at + n + 1;
        } else {
            let line: Vec<char> = slice_to_vec(rest);
            out.push(line);
            proof {
                assert(line@ =~= rest@);
                assert(char_texts(out@) =~= char_texts(before).push(line@));
                assert(char_texts(out@) =~= char_texts(before) + seq![rest@]);
                assert(s@.skip(s@.len() as int) =~= Seq::empty());
                assert(char_texts(out@) + lines(s@.skip(s@.len() as int)) =~= char_texts(out@));
            }
            at = s.len();
        }
    }
    assert(char_texts(out@) + lines(s@.skip(at as int)) =~= char_texts(out@));
    out
}

// ---------------------------------------------------------------------------
// Numbers
// ---------------------------------------------------------------------------

/// The value of a digit in a base of up to sixteen.
pub open spec fn digit_value(c: char) -> int {
    let n = c as u32;
    if 0x30 <= n <= 0x39 {
        n - 0x30
    } else if 0x41 <= n <= 0x46 {
        n - 0x41 + 10
    } else if 0x61 <= n <= 0x66 {
        n - 0x61 + 10
    } else {
        16
    }
}

pub open spec fn all_digits(s: Seq<char>, base: int) -> bool {
    forall|i: int| 0 <= i < s.len() ==> digit_value(#[trigger] s[i]) < base
}

/// The number that a sequence of digits spells.
pub open spec fn spelled(s: Seq<char>, base: int) -> int
    decreases s.len(),
{
    if s.len() == 0 {
        0
    } else {
        spelled(s.drop_last(), base) * base + digit_value(s.last())
    }
}

/// The number written by `s`: an optional plus sign, or a minus sign where
/// negative numbers are possible at all, then at least one digit. Nothing when the
/// text is something else or the number is out of bounds.
pub open spec fn parsed(s: Seq<char>, base: int, min: int, max: int) -> Option<int> {
    let negative = min < 0 && s.len() > 0 && s[0] == '-';
    let body = if s.len() > 0 && (s[0] == '+' || negative) {
        s.skip(1)
    } else {
        s
    };
    let v = if negative {
        -spelled(body, base)
    } else {
        spelled(body, base)
    };
    if body.len() > 0 && all_digits(body, base) && min <= v <= max {
        Some(v)
    } else {
        None
    }
}

fn digit(c: char) -> (d: u8)
    ensures
        d == digit_value(c),
        d <= 16,
{
    let n: u32 = c as u32;
    if 0x30 <= n && n <= 0x39 {
        (n - 0x30) as u8
    } else if 0x41 <= n && n <= 0x46 {
        (n - 0x41 + 10) as u8
    } else if 0x61 <= n && n <= 0x66 {
        (n - 0x61 + 10) as u8
    } else {
        16
    }
}

/// More digits never make the number smaller.
proof fn spelled_grows(s: Seq<char>, base: int, n: int)
    requires
        base >= 1,
        0 <= n <= s.len(),
    ensures
        0 <= spelled(s.take(n), base) <= spelled(s, base),
    decreases s.len(),
{
    if n < s.len() {
        spelled_grows(s.drop_last(), base, n);
        assert(s.drop_last().take(n) =~= s.take(n));
        let a = spelled(s.drop_last(), base);
        assert(a * base >= a) by (nonlinear_arith)
            requires
                a >= 0,
                base >= 1,
        ;
    } else {
        assert(s.take(n) =~= s);
        if s.len() > 0 {
            spelled_grows(s.drop_last(), base, n - 1);
            let a = spelled(s.drop_last(), base);
            assert(a * base >= 0) by (nonlinear_arith)
                requires
                    a >= 0,
                    base >= 1,
            ;
        }
    }
}

/// Read a number; see [`parsed`].
pub fn parse_number(s: &[char], base: u8, min: i128, max: i128) -> (r: Option<i128>)
    requires
        2 <= base <= 16,
        -0x1_0000_0000_0000_0000 <= min <= 0 <= max <= 0x1_0000_0000_0000_0000,
    ensures
        match r {
            Some(v) => parsed(s@, base as int, min as int, max as int) == Some(v as int),
            None => parsed(s@, base as int, min as int, max as int) is None,
        },
{
    let negative: bool = min < 0 && s.len() > 0 && s[0] == '-';
    let skip: usize = if s.len() > 0 && (s[0] == '+' || negative) {
        1
    } else {
        0
    };
    let body: &[char] = slice_subrange(s, skip, s.len());
    proof {
        if skip == 0 {
            assert(body@ =~= s@);
        } else {
            assert(body@ =~= s@.skip(1));
        }
    }
    if body.len() == 0 {
        return None;
    }
    let mut v: i128 = 0;
    let mut i: usize = 0;
    while i < body.len()
        invariant
            2 <= base <= 16,
            i <= body@.len(),
            all_digits(body@.take(i as int), base as int),
            v == spelled(body@.take(i as int), base as int),
            0 <= v <= 0x1_0000_0000_0000_0000,
            -0x1_0000_0000_0000_0000 <= min <= 0 <= max <= 0x1_0000_0000_0000_0000,
            parsed(s@, base as int, min as int, max as int) is Some ==> {
                &&& all_digits(body@, base as int)
                &&& spelled(body@, base as int) <= 0x1_0000_0000_0000_0000
            },
        decreases body@.len() - i,
    {
        let d: u8 = digit(body[i]);
        if d >= base {
            assert(!all_digits(body@, base as int));
            return None;
        }
        proof {
            let done = body@.take(i + 1);
            assert(done.drop_last() =~= body@.take(i as int));
            assert(done.last() == body@[i as int]);
            assert forall|j: int| 0 <= j < done.len() implies digit_value(#[trigger] done[j])
                < base by {
                if j < i {
                    assert(body@.take(i as int)[j] == done[j]);
                }
            }
            spelled_grows(body@, base as int, i + 1);
            assert(0 <= v * base <= 0x1_0000_0000_0000_0000 * 16) by (nonlinear_arith)
                requires
                    0 <= v <= 0x1_0000_0000_0000_0000,
                    2 <= base <= 16,
            ;
        }
        v = v * base as i128 + d as i128;
        i = i + 1;
        if v > 0x1_0000_0000_0000_0000 {
            return None;
        }
    }
    assert(body@.take(i as int) =~= body@);
    if negative {
        v = -v;
    }
    if min <= v && v <= max {
        Some(v)
    } else {
        None
    }
}

} // verus!
