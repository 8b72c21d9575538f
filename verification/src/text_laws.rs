//! What numbers, lines and values look like as texts, character by character.

use vstd::prelude::*;

verus! {

use crate::config_laws::printed_number_reads_back;
use crate::fmt::{dec, digit_char, hex2, hex4, hex_word, joined, padded, radix_text, signed_dec};
use crate::pattern_laws::is_digit;
use crate::text::{is_space, lines, parsed, position, trimmed, trimmed_end, trimmed_start};
use crate::toml::{
    array, bracket_depth, comma_pieces, comment_position, content, elements, enclosed, gathered,
    read_from, scalar, with_pair, Document, Place, Val,
};

// ---------------------------------------------------------------------------
// Numbers
// ---------------------------------------------------------------------------

proof fn digit_is_digit(d: int, upper: bool)
    requires
        0 <= d < 16,
    ensures
        is_digit(digit_char(d, upper), d),
        upper && d >= 10 ==> digit_char(d, upper) as u32 == 0x41 + (d - 10),
        !upper && d >= 10 ==> digit_char(d, upper) as u32 == 0x61 + (d - 10),
{
}

/// A word in hexadecimal is four digits, the most significant first, in the case that is
/// asked for.
pub proof fn words_are_four_digits(n: u16, upper: bool)
    ensures
        ({
            let s = hex_word(n as int, upper);
            &&& s.len() == 4
            &&& is_digit(s[0], n as int / 0x1000)
            &&& is_digit(s[1], n as int / 0x100 % 16)
            &&& is_digit(s[2], n as int / 0x10 % 16)
            &&& is_digit(s[3], n as int % 16)
            &&& hex4(n) == hex_word(n as int, false)
            &&& forall|i: int| 0 <= i < 4 && upper ==> (#[trigger] s[i]) as u32 <= 0x46
            &&& forall|i: int|
                0 <= i < 4 && !upper ==> (#[trigger] s[i]) as u32 <= 0x39 || s[i] as u32 >= 0x61
        }),
{
    digit_is_digit(n as int / 0x1000, upper);
    digit_is_digit(n as int / 0x100 % 16, upper);
    digit_is_digit(n as int / 0x10 % 16, upper);
    digit_is_digit(n as int % 16, upper);
}

/// A byte in hexadecimal is two digits.
pub proof fn bytes_are_two_digits(n: u8)
    ensures
        hex2(n).len() == 2,
        is_digit(hex2(n)[0], n as int / 16),
        is_digit(hex2(n)[1], n as int % 16),
{
    digit_is_digit(n as int / 16, false);
    digit_is_digit(n as int % 16, false);
}

/// In decimal, the last digit is the remainder by ten, and the digits before it are the
/// number without it; a number below ten is one digit. Negative numbers have a minus sign.
pub proof fn decimals_end_in_their_last_digit(n: int)
    requires
        n >= 0,
    ensures
        dec(n).len() >= 1,
        is_digit(dec(n).last(), n % 10),
        n >= 10 ==> dec(n).drop_last() == dec(n / 10),
        n < 10 ==> dec(n).len() == 1,
        signed_dec(n) == dec(n),
        n > 0 ==> signed_dec(-n) == seq!['-'] + dec(n),
{
    digit_is_digit(n % 10, false);
    if n >= 10 {
        assert(dec(n).drop_last() =~= dec(n / 10));
    }
}

/// A short text is filled up on the right with spaces; a long one stays.
pub proof fn padding_fills_up(s: Seq<char>, width: nat)
    ensures
        padded(s, width).len() == if s.len() < width {
            width
        } else {
            s.len()
        },
        padded(s, width).take(s.len() as int) == s,
        forall|i: int| s.len() <= i < padded(s, width).len() ==> #[trigger] padded(s, width)[i] == ' ',
{
    assert(padded(s, width).take(s.len() as int) =~= s);
}

/// Joining puts the separator between two texts: nothing around a single one, and it once
/// more before each further one.
pub proof fn joining_separates(parts: Seq<Seq<char>>, sep: Seq<char>, last: Seq<char>)
    ensures
        joined(Seq::empty(), sep) == Seq::<char>::empty(),
        joined(seq![last], sep) == last,
        parts.len() > 0 ==> joined(parts.push(last), sep) == joined(parts, sep) + sep + last,
{
    assert(parts.push(last).drop_last() =~= parts);
}

// ---------------------------------------------------------------------------
// White space and lines
// ---------------------------------------------------------------------------

/// Trimming takes white space off both ends and nothing else.
pub proof fn trimming_takes_off_spaces(s: Seq<char>) -> (r: (int, int))
    ensures
        0 <= r.0 <= r.1 <= s.len(),
        trimmed(s) == s.subrange(r.0, r.1),
        forall|i: int| 0 <= i < r.0 ==> is_space(#[trigger] s[i]),
        forall|i: int| r.1 <= i < s.len() ==> is_space(#[trigger] s[i]),
        r.0 < r.1 ==> !is_space(s[r.0]) && !is_space(s[r.1 - 1]),
{
    let a = spaces_in_front(s);
    let t = s.skip(a);
    let n = spaces_behind(t);
    assert(t.take(n) =~= s.subrange(a, a + n));
    assert forall|i: int| a + n <= i < s.len() implies is_space(#[trigger] s[i]) by {
        assert(t[i - a] == s[i]);
    }
    if n > 0 {
        assert(t[0] == s[a] && t[n - 1] == s[a + n - 1]);
    }
    (a, a + n)
}

proof fn spaces_in_front(s: Seq<char>) -> (a: int)
    ensures
        0 <= a <= s.len(),
        trimmed_start(s) == s.skip(a),
        forall|i: int| 0 <= i < a ==> is_space(#[trigger] s[i]),
        a < s.len() ==> !is_space(s[a]),
    decreases s.len(),
{
    if s.len() > 0 && is_space(s[0]) {
        let t = s.skip(1);
        let a = spaces_in_front(t);
        assert(t.skip(a) =~= s.skip(a + 1));
        assert forall|i: int| 0 <= i < a + 1 implies is_space(#[trigger] s[i]) by {
            if i > 0 {
                assert(t[i - 1] == s[i]);
            }
        }
        a + 1
    } else {
        assert(s.skip(0) =~= s);
        0
    }
}

proof fn spaces_behind(s: Seq<char>) -> (n: int)
    ensures
        0 <= n <= s.len(),
        trimmed_end(s) == s.take(n),
        forall|i: int| n <= i < s.len() ==> is_space(#[trigger] s[i]),
        n > 0 ==> !is_space(s[n - 1]),
    decreases s.len(),
{
    if s.len() > 0 && is_space(s.last()) {
        let t = s.drop_last();
        let n = spaces_behind(t);
        assert(t.take(n) =~= s.take(n));
        assert forall|i: int| n <= i < s.len() implies is_space(#[trigger] s[i]) by {
            if i < t.len() {
                assert(t[i] == s[i]);
            }
        }
        n
    } else {
        assert(s.take(s.len() as int) =~= s);
        s.len() as int
    }
}

/// A comment sign inside of quotes is none: a line whose comment signs all stand between
/// quotes keeps its whole text.
#[verifier::rlimit(40)]
pub proof fn quoted_comment_signs_stay(a: Seq<char>, inner: Seq<char>, b: Seq<char>)
    requires
        forall|i: int| 0 <= i < a.len() ==> a[i] != '#' && a[i] != '"',
        forall|i: int| 0 <= i < inner.len() ==> inner[i] != '"',
        forall|i: int| 0 <= i < b.len() ==> b[i] != '#' && b[i] != '"',
    ensures
        ({
            let s = a + seq!['"'] + inner + seq!['"'] + b;
            content(s) == trimmed(s)
        }),
{
    let s = a + seq!['"'] + inner + seq!['"'] + b;
    let n = a.len() as int;
    let m = n + 1 + inner.len();
    assert forall|i: int| 0 <= i < n implies s[i] == a[i] by {}
    assert(s[n] == '"');
    assert forall|i: int| n < i < m implies s[i] == inner[i - n - 1] by {}
    assert(s[m] == '"');
    assert forall|i: int| m < i < s.len() implies s[i] == b[i - m - 1] by {}
    no_sign_behind(s, m + 1);
    no_end_of_quotes(s, n + 1, m);
    no_sign_before(s, 0, n);
    assert(comment_position(s, 0, false) == s.len());
    assert(s.take(s.len() as int) =~= s);
}

proof fn no_sign_behind(s: Seq<char>, i: int)
    requires
        0 <= i <= s.len(),
        forall|k: int| i <= k < s.len() ==> s[k] != '#' && s[k] != '"',
    ensures
        comment_position(s, i, false) == s.len(),
    decreases s.len() - i,
{
    if i < s.len() {
        no_sign_behind(s, i + 1);
    }
}

proof fn no_end_of_quotes(s: Seq<char>, i: int, m: int)
    requires
        0 <= i <= m < s.len(),
        forall|k: int| i <= k < m ==> s[k] != '"',
        s[m] == '"',
    ensures
        comment_position(s, i, true) == comment_position(s, m + 1, false),
    decreases m - i,
{
    if i < m {
        no_end_of_quotes(s, i + 1, m);
    }
}

proof fn no_sign_before(s: Seq<char>, i: int, n: int)
    requires
        0 <= i <= n < s.len(),
        forall|k: int| i <= k < n ==> s[k] != '#' && s[k] != '"',
        s[n] == '"',
    ensures
        comment_position(s, i, false) == comment_position(s, n + 1, true),
    decreases n - i,
{
    if i < n {
        no_sign_before(s, i + 1, n);
    }
}

// ---------------------------------------------------------------------------
// Values
// ---------------------------------------------------------------------------

/// A text in quotes is the string between them; one that is only opened is no value.
#[verifier::rlimit(40)]
pub proof fn quotes_make_strings(s: Seq<char>)
    ensures
        scalar(seq!['"'] + s + seq!['"']) == Ok::<Val, Seq<char>>(Val::Str(s)),
        s.len() > 0 && !is_space(s.last()) && s.last() != '"' ==> scalar(seq!['"'] + s) is Err,
{
    let t = seq!['"'] + s + seq!['"'];
    assert(t[0] == '"' && t.last() == '"');
    assert(trimmed(t) == t);
    assert(t.subrange(1, t.len() - 1) =~= s);
    let u = seq!['"'] + s;
    if s.len() > 0 && !is_space(s.last()) {
        assert(u[0] == '"' && u.last() == s.last());
        assert(trimmed(u) == u);
    }
}

/// A decimal number is itself, and one behind a minus sign its negative.
#[verifier::rlimit(40)]
pub proof fn decimals_are_numbers(n: int)
    requires
        0 <= n <= 0x7FFF_FFFF_FFFF_FFFF,
    ensures
        scalar(dec(n)) == Ok::<Val, Seq<char>>(Val::Int(n as i64)),
{
    let t = dec(n);
    printed_number_reads_back(n, 10, false, 0x7FFF_FFFF_FFFF_FFFF);
    printed_digits(n, 10);
    assert(!is_space(t[0]) && !is_space(t.last()));
    assert(trimmed(t) == t);
    reveal_strlit("true");
    reveal_strlit("false");
    assert("true"@.len() == 4 && "true"@[0] == 't');
    assert("false"@.len() == 5 && "false"@[0] == 'f');
    assert(t[0] != 't' && t[0] != 'f' && t[0] != '"');
    if t.len() >= 2 {
        assert(t[1] as u32 <= 0x39);
    }
    assert(t[0] != '-' && t[0] != '+');
    assert(parsed(t, 10, i64::MIN as int, i64::MAX as int) == Some(n));
}

proof fn printed_digits(n: int, base: int)
    requires
        0 <= n,
        base == 10,
    ensures
        radix_text(n, base, false).len() > 0,
        forall|i: int|
            0 <= i < radix_text(n, base, false).len() ==> 0x30 <= (#[trigger] radix_text(
                n,
                base,
                false,
            )[i]) as u32 <= 0x39,
    decreases n,
{
    digit_is_digit(n % 10, false);
    if n >= 10 {
        printed_digits(n / 10, base);
        let s = radix_text(n, base, false);
        let front = radix_text(n / 10, base, false);
        assert(s == front.push(digit_char(n % 10, false)));
        assert forall|i: int| 0 <= i < s.len() implies 0x30 <= (#[trigger] s[i]) as u32 <= 0x39 by {
            if i < front.len() {
                assert(s[i] == front[i]);
            }
        }
    } else {
        digit_is_digit(n, false);
    }
}

/// The two truth values.
pub proof fn truth_values()
    ensures
        scalar("true"@) == Ok::<Val, Seq<char>>(Val::Bool(true)),
        scalar("false"@) == Ok::<Val, Seq<char>>(Val::Bool(false)),
{
    reveal_strlit("true");
    reveal_strlit("false");
    assert("true"@.len() == 4 && "true"@[0] == 't' && "true"@[3] == 'e');
    assert("false"@.len() == 5 && "false"@[0] == 'f' && "false"@[4] == 'e');
    assert(trimmed("true"@) == "true"@);
    assert(trimmed("false"@) == "false"@);
}

/// An array of strings and numbers is refused, and so is an array with nothing in it.
pub proof fn arrays_are_of_one_kind(body: Seq<char>)
    ensures
        elements(comma_pieces(body, Seq::empty(), false)) matches Ok((strs, ints)) ==> {
            &&& strs.len() > 0 && ints.len() > 0 ==> array(body) is Err
            &&& strs.len() == 0 && ints.len() == 0 ==> array(body) is Err
            &&& strs.len() > 0 && ints.len() == 0 ==> array(body) == Ok::<Val, Seq<char>>(
                Val::StrArr(strs),
            )
            &&& strs.len() == 0 && ints.len() > 0 ==> array(body) == Ok::<Val, Seq<char>>(
                Val::IntArr(ints),
            )
        },
{
}

/// A line that is neither blank nor a header and has no equals sign is an error, which names
/// the file and counts the lines from one.
#[verifier::rlimit(40)]
pub proof fn lines_need_an_equals_sign(
    ls: Seq<Seq<char>>,
    n: int,
    source: Seq<char>,
    d: Document,
    place: Place,
)
    requires
        0 <= n < ls.len(),
        content(ls[n]).len() > 0,
        content(ls[n])[0] != '[',
        forall|i: int| 0 <= i < content(ls[n]).len() ==> content(ls[n])[i] != '=',
    ensures
        read_from(ls, n, source, d, place) == Err::<Document, Seq<char>>(
            source + ":"@ + dec(n + 1) + ": "@ + ("expected key = value, got: "@ + content(ls[n])),
        ),
{
    let line = content(ls[n]);
    crate::text::position_is_first(line, '=');
    reveal_strlit("[");
    reveal_strlit("[[");
    reveal_strlit("]");
    reveal_strlit("]]");
    assert("["@.len() == 1 && "["@[0] == '[');
    assert("[["@.len() == 2 && "[["@[0] == '[');
    if line.take(1) == "["@ {
        assert(line.take(1)[0] == '[');
    }
    if line.take(2) == "[["@ {
        assert(line.take(2)[0] == '[');
    }
}

// ---------------------------------------------------------------------------
// Number texts
// ---------------------------------------------------------------------------

/// A number that is read lies within its bounds, and a plus sign before it changes nothing;
/// a minus sign makes it negative where there are negative numbers at all. Nothing else is a
/// number: no digits, or a character that is none.
#[verifier::rlimit(40)]
pub proof fn numbers_have_signs_and_bounds(n: int, base: int, min: int, max: int, s: Seq<char>)
    requires
        0 <= n,
        2 <= base <= 16,
        min <= 0 <= max,
    ensures
        parsed(s, base, min, max) matches Some(v) ==> min <= v <= max,
        n <= max ==> parsed(radix_text(n, base, false), base, min, max) == Some(n),
        n > max ==> parsed(radix_text(n, base, false), base, min, max) is None,
        n <= max ==> parsed(seq!['+'] + radix_text(n, base, false), base, min, max) == Some(n),
        min < 0 && -n >= min ==> parsed(seq!['-'] + radix_text(n, base, false), base, min, max)
            == Some(-n),
        min == 0 ==> parsed(seq!['-'] + radix_text(n, base, false), base, min, max) is None,
        parsed(Seq::empty(), base, min, max) is None,
        (exists|i: int|
            1 <= i < s.len() && crate::text::digit_value(#[trigger] s[i]) >= base) ==> parsed(
            s,
            base,
            min,
            max,
        ) is None,
{
    let t = radix_text(n, base, false);
    first_printed(n, base);
    printed_number_reads_back(n, base, false, n);
    assert(crate::text::all_digits(t, base));
    assert(crate::text::spelled(t, base) == n);
    let plus = seq!['+'] + t;
    assert(plus[0] == '+' && plus.skip(1) =~= t);
    let minus = seq!['-'] + t;
    assert(minus[0] == '-' && minus.skip(1) =~= t);
    if min == 0 {
        assert(crate::text::digit_value(minus[0]) >= base);
    }
    if exists|i: int| 1 <= i < s.len() && crate::text::digit_value(#[trigger] s[i]) >= base {
        let i = choose|i: int| 1 <= i < s.len() && crate::text::digit_value(#[trigger] s[i]) >= base;
        assert(s.skip(1)[i - 1] == s[i]);
    }
}

proof fn first_printed(n: int, base: int)
    requires
        0 <= n,
        2 <= base <= 16,
    ensures
        radix_text(n, base, false).len() > 0,
        radix_text(n, base, false)[0] != '-',
        radix_text(n, base, false)[0] != '+',
    decreases n,
{
    if n >= base {
        assert(0 <= n / base < n) by (nonlinear_arith)
            requires
                n >= base >= 2,
        ;
        first_printed(n / base, base);
    } else {
        digit_is_digit(n, false);
    }
}

// ---------------------------------------------------------------------------
// Headers and arrays over several lines
// ---------------------------------------------------------------------------

/// A line belongs to the header above it: to the top where there is none, else to the last
/// section or the last variant. It is added behind the lines that stand there, and no other
/// table changes.
pub proof fn lines_belong_to_their_header(d: Document, key: Seq<char>, v: Val)
    requires
        d.sections.len() > 0,
        d.variants.len() > 0,
    ensures
        ({
            let top = with_pair(d, Place::Top, key, v);
            let sec = with_pair(d, Place::Section, key, v);
            let var = with_pair(d, Place::Variant, key, v);
            let n = d.sections.len() - 1;
            let k = d.variants.len() - 1;
            &&& top.top == d.top.push((key, v)) && top.sections == d.sections && top.variants
                == d.variants
            &&& sec.top == d.top && sec.variants == d.variants
            &&& sec.sections == d.sections.update(
                n,
                (d.sections[n].0, d.sections[n].1.push((key, v))),
            )
            &&& var.top == d.top && var.sections == d.sections
            &&& var.variants == d.variants.update(k, d.variants[k].push((key, v)))
        }),
{
    let sec = with_pair(d, Place::Section, key, v);
    let var = with_pair(d, Place::Variant, key, v);
    let n = d.sections.len() - 1;
    let k = d.variants.len() - 1;
    assert(sec.sections =~= d.sections.update(
        n,
        (d.sections[n].0, d.sections[n].1.push((key, v))),
    ));
    assert(var.variants =~= d.variants.update(k, d.variants[k].push((key, v))));
}

/// A header in double brackets begins a variant when it says so, and is an error otherwise.
#[verifier::rlimit(40)]
pub proof fn double_brackets_begin_variants(
    ls: Seq<Seq<char>>,
    n: int,
    source: Seq<char>,
    d: Document,
    place: Place,
    name: Seq<char>,
)
    requires
        0 <= n < ls.len(),
        content(ls[n]) == "[["@ + name + "]]"@,
    ensures
        trimmed(name) == "variant"@ ==> read_from(ls, n, source, d, place) == read_from(
            ls,
            n + 1,
            source,
            Document { variants: d.variants.push(Seq::empty()), ..d },
            Place::Variant,
        ),
        trimmed(name) != "variant"@ ==> read_from(ls, n, source, d, place) is Err,
{
    let line = content(ls[n]);
    reveal_strlit("[[");
    reveal_strlit("]]");
    assert("[["@.len() == 2 && "]]"@.len() == 2);
    assert(line.take(2) =~= "[["@);
    assert(line.skip(line.len() - 2) =~= "]]"@);
    assert(line.subrange(2, line.len() - 2) =~= name);
    assert(enclosed(line, "[["@, "]]"@) == Some(name));
}

/// An array goes on over the following lines until its brackets are balanced; where the
/// lines end before that, it is unfinished.
pub proof fn arrays_go_on_until_they_close(ls: Seq<Seq<char>>, n: int, text: Seq<char>)
    requires
        0 <= n,
    ensures
        bracket_depth(text, 0, false) == 0 ==> gathered(ls, n, text) == Some((text, n)),
        bracket_depth(text, 0, false) != 0 && n >= ls.len() ==> gathered(ls, n, text) is None,
        bracket_depth(text, 0, false) != 0 && n < ls.len() && bracket_depth(
            text.push(' ') + content(ls[n]),
            0,
            false,
        ) == 0 ==> gathered(ls, n, text) == Some((text.push(' ') + content(ls[n]), n + 1)),
{
    if n < ls.len() {
        let more = text.push(' ') + content(ls[n]);
        if bracket_depth(more, 0, false) == 0 {
            assert(gathered(ls, n + 1, more) == Some((more, n + 1)));
        }
    }
}

/// Brackets count outside of quotes only: an opening one up, a closing one down.
pub proof fn quoted_brackets_do_not_count(s: Seq<char>, i: int, in_string: bool)
    requires
        0 <= i < s.len(),
    ensures
        ({
            let rest = bracket_depth(s, i + 1, in_string != (s[i] == '"'));
            bracket_depth(s, i, in_string) - rest == if in_string || (s[i] != '[' && s[i] != ']') {
                0int
            } else if s[i] == '[' {
                1
            } else {
                -1
            }
        }),
{
}

/// Commas separate elements outside of quotes only; blank elements do not count.
pub proof fn commas_separate_elements(a: Seq<char>, b: Seq<char>, piece: Seq<char>)
    requires
        forall|i: int| 0 <= i < a.len() ==> a[i] != ',' && a[i] != '"',
    ensures
        comma_pieces(a, piece, false) == seq![piece + a],
        comma_pieces(a.push(',') + b, piece, false) == seq![piece + a] + comma_pieces(
            b,
            Seq::empty(),
            false,
        ),
    decreases a.len(),
{
    let s = a.push(',') + b;
    if a.len() == 0 {
        assert(piece + a =~= piece);
        assert(s[0] == ',');
        assert(s.skip(1) =~= b);
    } else {
        let t = a.skip(1);
        assert forall|i: int| 0 <= i < t.len() implies t[i] != ',' && t[i] != '"' by {
            assert(t[i] == a[i + 1]);
        }
        commas_separate_elements(t, b, piece.push(a[0]));
        assert(piece.push(a[0]) + t =~= piece + a);
        assert(s.skip(1) =~= t.push(',') + b);
        assert(s[0] == a[0]);
        assert(a[0] != ',' && a[0] != '"');
    }
}

/// A string with commas between its quotes is one element.
pub proof fn quoted_commas_do_not_separate(inner: Seq<char>, piece: Seq<char>)
    requires
        forall|i: int| 0 <= i < inner.len() ==> inner[i] != '"',
    ensures
        comma_pieces(inner.push('"'), piece, true) == seq![piece + inner.push('"')],
    decreases inner.len(),
{
    let s = inner.push('"');
    if inner.len() == 0 {
        assert(s[0] == '"');
        assert(s.skip(1) =~= Seq::empty());
        assert(piece.push('"') =~= piece + s);
        assert(comma_pieces(Seq::empty(), piece.push('"'), false) =~= seq![piece.push('"')]);
    } else {
        let t = inner.skip(1);
        assert forall|i: int| 0 <= i < t.len() implies t[i] != '"' by {
            assert(t[i] == inner[i + 1]);
        }
        quoted_commas_do_not_separate(t, piece.push(inner[0]));
        assert(s.skip(1) =~= t.push('"'));
        assert(s[0] == inner[0]);
        assert(piece.push(inner[0]) + t.push('"') =~= piece + s);
    }
}

/// A line ends at a line feed, and a carriage return right before it belongs to the line end;
/// a line feed at the very end begins no further line. A text without a line feed is one line.
pub proof fn lines_end_at_line_feeds(line: Seq<char>, rest: Seq<char>)
    requires
        forall|i: int| 0 <= i < line.len() ==> line[i] != '\n' && line[i] != '\r',
    ensures
        lines(line.push('\n') + rest) == seq![line] + lines(rest),
        lines(line.push('\r').push('\n') + rest) == seq![line] + lines(rest),
        lines(Seq::empty()) == Seq::<Seq<char>>::empty(),
        line.len() > 0 ==> lines(line) == seq![line],
{
    crate::written::first_line(line, rest);
    let s = line.push('\r').push('\n') + rest;
    let n = line.len() as int + 1;
    assert forall|i: int| 0 <= i < n implies s[i] != '\n' by {
        if i < line.len() {
            assert(s[i] == line[i]);
        } else {
            assert(s[i] == '\r');
        }
    }
    assert(s[n] == '\n');
    crate::text::position_is_first(s, '\n');
    assert(position(s, '\n') == n);
    assert(s.take(n) =~= line.push('\r'));
    assert(line.push('\r').drop_last() =~= line);
    assert(s.skip(n + 1) =~= rest);
    if line.len() > 0 {
        crate::text::position_is_first(line, '\n');
        assert(position(line, '\n') == line.len());
    }
}

/// Digits behind `0x` or `0X` are a hexadecimal number, in either case.
pub proof fn hexadecimals_are_numbers(n: int, upper: bool, x: char)
    requires
        0 <= n <= 0x7FFF_FFFF_FFFF_FFFF,
        x == 'x' || x == 'X',
    ensures
        scalar(seq!['0', x] + radix_text(n, 16, upper)) == Ok::<Val, Seq<char>>(
            Val::Int(n as i64),
        ),
{
    let d = radix_text(n, 16, upper);
    let t = seq!['0', x] + d;
    printed_number_reads_back(n, 16, upper, 0x7FFF_FFFF_FFFF_FFFF);
    printed_hex_digits(n, upper);
    assert(t[0] == '0' && t[1] == x);
    assert(t.last() == d.last());
    assert(!is_space(t[0]) && !is_space(t.last()));
    assert(trimmed(t) == t);
    assert(t.skip(2) =~= d);
    reveal_strlit("true");
    reveal_strlit("false");
    assert("true"@.len() == 4 && "true"@[0] == 't');
    assert("false"@.len() == 5 && "false"@[0] == 'f');
    assert(parsed(d, 16, i64::MIN as int, i64::MAX as int) == Some(n));
}

proof fn printed_hex_digits(n: int, upper: bool)
    requires
        0 <= n,
    ensures
        radix_text(n, 16, upper).len() > 0,
        !is_space(radix_text(n, 16, upper).last()),
        radix_text(n, 16, upper)[0] != '-',
        radix_text(n, 16, upper)[0] != '+',
    decreases n,
{
    digit_is_digit(n % 16, upper);
    if n >= 16 {
        printed_hex_digits(n / 16, upper);
    } else {
        digit_is_digit(n, upper);
    }
}

/// Blank elements of an array do not count; a string or a number is added behind those before
/// it, and a truth value is refused.
pub proof fn elements_are_read_in_order(pieces: Seq<Seq<char>>, p: Seq<char>)
    requires
        elements(pieces) is Ok,
    ensures
        ({
            let (strs, ints) = elements(pieces)->Ok_0;
            let all = elements(pieces.push(p));
            &&& trimmed(p).len() == 0 ==> all == elements(pieces)
            &&& trimmed(p).len() > 0 ==> match scalar(trimmed(p)) {
                Ok(Val::Str(s)) => all == Ok::<(Seq<Seq<char>>, Seq<i64>), Seq<char>>(
                    (strs.push(s), ints),
                ),
                Ok(Val::Int(i)) => all == Ok::<(Seq<Seq<char>>, Seq<i64>), Seq<char>>(
                    (strs, ints.push(i)),
                ),
                _ => all is Err,
            }
        }),
{
    assert(pieces.push(p).drop_last() =~= pieces);
}

} // verus!
