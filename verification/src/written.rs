//! How config texts are written: what lines of a given form are read as.

use vstd::prelude::*;

verus! {

use crate::config_laws::space_separates_words;
use crate::pattern::{at_most_two_bytes, token, Tok};
use crate::text::{
    all_digits, digit_value, is_space, lines, position, spelled, trimmed, trimmed_end,
    trimmed_start, without_return, word_len, words,
};
use crate::toml::{
    array, bracket_depth, comma_pieces, comment_position, content, elements, enclosed, read_from,
    scalar, valued, with_pair, Document, Place, Val,
};

// ---------------------------------------------------------------------------
// Characters
// ---------------------------------------------------------------------------

/// A character without a meaning of its own in a config text.
pub open spec fn is_plain(c: char) -> bool {
    &&& c != '#'
    &&& c != '"'
    &&& c != '='
    &&& c != '['
    &&& c != ']'
    &&& c != ','
    &&& c != '\n'
    &&& c != '\r'
}

/// Every character from `i` on is plain.
pub open spec fn plain_from(s: Seq<char>, i: int) -> bool
    decreases s.len() - i,
{
    i >= s.len() || is_plain(s[i]) && plain_from(s, i + 1)
}

/// Every character is plain.
pub open spec fn is_plain_text(s: Seq<char>) -> bool {
    forall|i: int| 0 <= i < s.len() ==> is_plain(#[trigger] s[i])
}

pub proof fn plain_text(s: Seq<char>, i: int)
    requires
        0 <= i,
        plain_from(s, i),
    ensures
        forall|k: int| i <= k < s.len() ==> is_plain(#[trigger] s[k]),
    decreases s.len() - i,
{
    if i < s.len() {
        plain_text(s, i + 1);
    }
}

/// A character that neither starts a comment nor ends a line.
pub open spec fn is_inline_char(c: char) -> bool {
    c != '#' && c != '\n' && c != '\r'
}

/// A text that stays on its line.
pub open spec fn is_inline(s: Seq<char>) -> bool {
    forall|k: int| 0 <= k < s.len() ==> is_inline_char(#[trigger] s[k])
}

/// A text that can stand to the left of an equals sign: plain, not empty, and
/// without white space at either end.
pub open spec fn is_key(s: Seq<char>) -> bool {
    &&& s.len() > 0
    &&& is_plain_text(s)
    &&& !is_space(s[0])
    &&& !is_space(s.last())
}

// ---------------------------------------------------------------------------
// Lines
// ---------------------------------------------------------------------------

proof fn position_of(s: Seq<char>, c: char, n: int)
    requires
        0 <= n <= s.len(),
        n < s.len() ==> s[n] == c,
        forall|i: int| 0 <= i < n ==> s[i] != c,
    ensures
        position(s, c) == n,
    decreases n,
{
    if n > 0 {
        position_of(s.skip(1), c, n - 1);
    }
}

proof fn nothing_to_trim(s: Seq<char>)
    requires
        s.len() > 0,
        !is_space(s[0]),
        !is_space(s.last()),
    ensures
        trimmed(s) == s,
{
}

proof fn no_comment(s: Seq<char>, i: int, in_string: bool)
    requires
        0 <= i <= s.len(),
        forall|k: int| 0 <= k < s.len() ==> s[k] != '#',
    ensures
        comment_position(s, i, in_string) == s.len(),
    decreases s.len() - i,
{
    if i < s.len() {
        no_comment(s, i + 1, in_string != (s[i] == '"'));
    }
}

proof fn content_is_all(s: Seq<char>)
    requires
        s.len() > 0,
        !is_space(s[0]),
        !is_space(s.last()),
        forall|k: int| 0 <= k < s.len() ==> s[k] != '#',
    ensures
        content(s) == s,
{
    no_comment(s, 0, false);
    assert(s.take(s.len() as int) =~= s);
    nothing_to_trim(s);
}

/// A line ends at the first line feed.
pub proof fn first_line(line: Seq<char>, rest: Seq<char>)
    requires
        forall|i: int| 0 <= i < line.len() ==> line[i] != '\n' && line[i] != '\r',
    ensures
        lines(line.push('\n') + rest) == seq![line] + lines(rest),
{
    let s = line.push('\n') + rest;
    assert forall|i: int| 0 <= i < line.len() implies s[i] != '\n' by {
        assert(s[i] == line[i]);
    }
    assert(s[line.len() as int] == '\n');
    position_of(s, '\n', line.len() as int);
    assert(s.take(line.len() as int) =~= line);
    assert(s.skip(line.len() as int + 1) =~= rest);
    assert(without_return(line) == line);
}

/// A line `key = value`.
pub open spec fn pair_line(key: Seq<char>, value: Seq<char>) -> Seq<char> {
    key + seq![' ', '=', ' '] + value
}

/// A line `key = value` adds the value to the table that is being read.
pub proof fn pair_is_read(
    ls: Seq<Seq<char>>,
    n: int,
    source: Seq<char>,
    d: Document,
    place: Place,
    key: Seq<char>,
    value: Seq<char>,
    v: Val,
)
    requires
        0 <= n < ls.len(),
        ls[n] == pair_line(key, value),
        is_key(key),
        value.len() > 0,
        !is_space(value[0]),
        !is_space(value.last()),
        is_inline(value),
        valued(ls, n, key, value) == Ok::<(Val, int), Seq<char>>((v, n + 1)),
    ensures
        read_from(ls, n, source, d, place) == read_from(
            ls,
            n + 1,
            source,
            with_pair(d, place, key, v),
            place,
        ),
{
    let line = ls[n];
    let k = key.len() as int;
    assert forall|i: int| 0 <= i < line.len() implies line[i] != '#' by {
        if i < k {
            assert(is_plain(key[i]));
        } else if i >= k + 3 {
            assert(is_inline_char(value[i - k - 3]));
        }
    }
    assert(line[0] == key[0]);
    assert(line.last() == value.last());
    content_is_all(line);
    assert forall|i: int| 0 <= i < k + 1 implies line[i] != '=' by {
        if i < k {
            assert(is_plain(key[i]));
        }
    }
    position_of(line, '=', k + 1);
    let left = line.take(k + 1);
    assert(left =~= key.push(' '));
    assert(trimmed_start(left) == left);
    assert(is_space(' '));
    assert(left.drop_last() =~= key);
    assert(trimmed_end(left) == trimmed_end(key));
    let right = line.skip(k + 2);
    assert(right =~= seq![' '] + value);
    assert(right.skip(1) =~= value);
    assert(trimmed_start(right) == trimmed_start(value));
    assert(is_plain(key[0]));
    reveal_strlit("[");
    reveal_strlit("]");
    reveal_strlit("[[");
    reveal_strlit("]]");
    assert(line.take(1)[0] == line[0]);
    assert(line.take(2)[0] == line[0]);
    assert("["@[0] == '[');
    assert("[["@[0] == '[');
    assert(enclosed(line, "[["@, "]]"@) is None);
    assert(enclosed(line, "["@, "]"@) is None);
}

/// A blank line does not count.
pub proof fn blank_is_skipped(
    ls: Seq<Seq<char>>,
    n: int,
    source: Seq<char>,
    d: Document,
    place: Place,
)
    requires
        0 <= n < ls.len(),
        ls[n].len() == 0,
    ensures
        read_from(ls, n, source, d, place) == read_from(ls, n + 1, source, d, place),
{
    assert(ls[n].take(0).len() == 0);
}

/// A line `[name]` starts a section.
pub open spec fn section_line(name: Seq<char>) -> Seq<char> {
    seq!['['] + name + seq![']']
}

/// A line `[name]` starts a section of that name.
pub proof fn section_is_read(
    ls: Seq<Seq<char>>,
    n: int,
    source: Seq<char>,
    d: Document,
    place: Place,
    name: Seq<char>,
)
    requires
        0 <= n < ls.len(),
        ls[n] == section_line(name),
        is_key(name),
    ensures
        read_from(ls, n, source, d, place) == read_from(
            ls,
            n + 1,
            source,
            Document { sections: d.sections.push((name, Seq::empty())), ..d },
            Place::Section,
        ),
{
    let line = ls[n];
    assert forall|i: int| 0 <= i < line.len() implies line[i] != '#' by {
        if 0 < i < line.len() - 1 {
            assert(is_plain(name[i - 1]));
        }
    }
    content_is_all(line);
    nothing_to_trim(name);
    reveal_strlit("[");
    reveal_strlit("]");
    reveal_strlit("[[");
    reveal_strlit("]]");
    assert(is_plain(name[0]));
    assert(line.take(2)[1] == name[0]);
    assert("[["@[1] == '[');
    assert(enclosed(line, "[["@, "]]"@) is None);
    assert(line.take(1) =~= "["@);
    assert(line.skip(line.len() - 1) =~= "]"@);
    assert(line.subrange(1, line.len() - 1) =~= name);
}

// ---------------------------------------------------------------------------
// Values
// ---------------------------------------------------------------------------

/// A string in quotes.
pub open spec fn string_value(s: Seq<char>) -> Seq<char> {
    seq!['"'] + s + seq!['"']
}

/// A string in quotes is read as that string.
pub proof fn string_is_read(ls: Seq<Seq<char>>, n: int, key: Seq<char>, s: Seq<char>)
    requires
        is_plain_text(s),
    ensures
        scalar(string_value(s)) == Ok::<Val, Seq<char>>(Val::Str(s)),
        valued(ls, n, key, string_value(s)) == Ok::<(Val, int), Seq<char>>((Val::Str(s), n + 1)),
        is_inline(string_value(s)),
{
    let t = string_value(s);
    nothing_to_trim(t);
    assert(t.subrange(1, t.len() - 1) =~= s);
    assert forall|k: int| 0 <= k < t.len() implies is_inline_char(#[trigger] t[k]) by {
        if 0 < k < t.len() - 1 {
            assert(is_plain(s[k - 1]));
        }
    }
}

/// A number in hexadecimal.
pub open spec fn hex_value(digits: Seq<char>) -> Seq<char> {
    seq!['0', 'x'] + digits
}

/// What is spelled by digits is not spelled by anything else a value could be.
proof fn digits_are_no_word(s: Seq<char>)
    requires
        s.len() > 0,
        digit_value(s[0]) < 10,
    ensures
        s != "true"@,
        s != "false"@,
        s[0] != '"',
        s[0] != '[',
{
    reveal_strlit("true");
    reveal_strlit("false");
}

/// A hexadecimal number is read as the number its digits spell.
pub proof fn hex_is_read(ls: Seq<Seq<char>>, n: int, key: Seq<char>, digits: Seq<char>)
    requires
        digits.len() > 0,
        all_digits(digits, 16),
        0 <= spelled(digits, 16) <= i64::MAX,
    ensures
        scalar(hex_value(digits)) == Ok::<Val, Seq<char>>(Val::Int(spelled(digits, 16) as i64)),
        valued(ls, n, key, hex_value(digits)) == Ok::<(Val, int), Seq<char>>(
            (Val::Int(spelled(digits, 16) as i64), n + 1),
        ),
        is_inline(hex_value(digits)),
        !is_space(hex_value(digits).last()),
{
    let t = hex_value(digits);
    assert(digit_value(digits[0]) < 16);
    assert(digit_value(digits.last()) < 16);
    assert(t.last() == digits.last());
    nothing_to_trim(t);
    digits_are_no_word(t);
    assert(t.skip(2) =~= digits);
    assert forall|k: int| 0 <= k < t.len() implies is_inline_char(#[trigger] t[k]) by {
        if k >= 2 {
            assert(digit_value(digits[k - 2]) < 16);
        }
    }
}

/// A decimal number is read as the number its digits spell.
pub proof fn decimal_is_read(ls: Seq<Seq<char>>, n: int, key: Seq<char>, digits: Seq<char>)
    requires
        digits.len() > 0,
        all_digits(digits, 10),
        0 <= spelled(digits, 10) <= i64::MAX,
    ensures
        scalar(digits) == Ok::<Val, Seq<char>>(Val::Int(spelled(digits, 10) as i64)),
        valued(ls, n, key, digits) == Ok::<(Val, int), Seq<char>>(
            (Val::Int(spelled(digits, 10) as i64), n + 1),
        ),
        is_inline(digits),
        !is_space(digits[0]),
        !is_space(digits.last()),
{
    assert(digit_value(digits[0]) < 10);
    assert(digit_value(digits.last()) < 10);
    nothing_to_trim(digits);
    digits_are_no_word(digits);
    assert(digits.len() > 1 ==> digit_value(digits[1]) < 10);
    assert forall|k: int| 0 <= k < digits.len() implies is_inline_char(#[trigger] digits[k]) by {
        assert(digit_value(digits[k]) < 10);
    }
}

/// The word `true` is read as a flag.
pub proof fn true_is_read(ls: Seq<Seq<char>>, n: int, key: Seq<char>)
    ensures
        valued(ls, n, key, "true"@) == Ok::<(Val, int), Seq<char>>((Val::Bool(true), n + 1)),
        is_inline("true"@),
        "true"@.len() > 0,
        !is_space("true"@[0]),
        !is_space("true"@.last()),
{
    reveal_strlit("true");
    nothing_to_trim("true"@);
}

// ---------------------------------------------------------------------------
// Arrays
// ---------------------------------------------------------------------------

/// A text that can stand in an array: a plain text, or one in quotes.
pub open spec fn is_item(p: Seq<char>) -> bool {
    &&& p.len() > 0
    &&& !is_space(p[0])
    &&& !is_space(p.last())
    &&& is_plain_text(p) || p.len() >= 2 && p[0] == '"' && p.last() == '"' && is_plain_text(
        p.subrange(1, p.len() - 1),
    )
}

/// The items with commas between.
pub open spec fn comma_list(parts: Seq<Seq<char>>) -> Seq<char>
    decreases parts.len(),
{
    if parts.len() == 0 {
        Seq::empty()
    } else if parts.len() == 1 {
        parts[0]
    } else {
        parts[0] + seq![',', ' '] + comma_list(parts.skip(1))
    }
}

/// An array of items.
pub open spec fn array_value(parts: Seq<Seq<char>>) -> Seq<char> {
    seq!['['] + comma_list(parts) + seq![']']
}

proof fn plain_run_joins(a: Seq<char>, rest: Seq<char>, piece: Seq<char>, in_string: bool)
    requires
        is_plain_text(a),
    ensures
        comma_pieces(a + rest, piece, in_string) == comma_pieces(rest, piece + a, in_string),
    decreases a.len(),
{
    let s = a + rest;
    if a.len() == 0 {
        assert(s =~= rest);
        assert(piece + a =~= piece);
    } else {
        assert(is_plain(a[0]));
        assert(s[0] == a[0]);
        assert(s.skip(1) =~= a.skip(1) + rest);
        assert forall|i: int| 0 <= i < a.skip(1).len() implies is_plain(#[trigger] a.skip(1)[i]) by {
            assert(is_plain(a[i + 1]));
        }
        plain_run_joins(a.skip(1), rest, piece.push(a[0]), in_string);
        assert(piece.push(a[0]) + a.skip(1) =~= piece + a);
    }
}

proof fn item_joins(p: Seq<char>, rest: Seq<char>, piece: Seq<char>)
    requires
        is_item(p),
    ensures
        comma_pieces(p + rest, piece, false) == comma_pieces(rest, piece + p, false),
{
    if is_plain_text(p) {
        plain_run_joins(p, rest, piece, false);
    } else {
        let inner = p.subrange(1, p.len() - 1);
        let s = p + rest;
        let tail = seq!['"'] + rest;
        assert(s.skip(1) =~= inner + tail);
        plain_run_joins(inner, tail, piece.push('"'), true);
        assert(tail.skip(1) =~= rest);
        assert((piece.push('"') + inner).push('"') =~= piece + p);
    }
}

/// The items, each but the first behind a space, the first behind `front`.
spec fn spaced(parts: Seq<Seq<char>>, front: Seq<char>) -> Seq<Seq<char>> {
    Seq::new(
        parts.len(),
        |i: int|
            if i == 0 {
                front + parts[0]
            } else {
                seq![' '] + parts[i]
            },
    )
}

proof fn list_is_split(parts: Seq<Seq<char>>, front: Seq<char>)
    requires
        parts.len() > 0,
        forall|i: int| 0 <= i < parts.len() ==> is_item(#[trigger] parts[i]),
    ensures
        comma_pieces(comma_list(parts), front, false) == spaced(parts, front),
    decreases parts.len(),
{
    let p = parts[0];
    assert(is_item(p));
    if parts.len() == 1 {
        assert(p + Seq::<char>::empty() =~= p);
        item_joins(p, Seq::empty(), front);
        assert(spaced(parts, front) =~= seq![front + p]);
    } else {
        let rest = comma_list(parts.skip(1));
        let tail = seq![',', ' '] + rest;
        assert(comma_list(parts) =~= p + tail);
        item_joins(p, tail, front);
        let after = tail.skip(1);
        assert(after =~= seq![' '] + rest);
        assert(after.skip(1) =~= rest);
        assert(comma_pieces(after, Seq::empty(), false) == comma_pieces(
            rest,
            Seq::<char>::empty().push(' '),
            false,
        ));
        assert(Seq::<char>::empty().push(' ') =~= seq![' ']);
        list_is_split(parts.skip(1), seq![' ']);
        assert(spaced(parts, front) =~= seq![front + p] + spaced(parts.skip(1), seq![' ']));
    }
}

proof fn space_is_trimmed(p: Seq<char>)
    requires
        p.len() > 0,
        !is_space(p[0]),
        !is_space(p.last()),
    ensures
        trimmed(seq![' '] + p) == p,
        trimmed(Seq::empty() + p) == p,
{
    let s = seq![' '] + p;
    assert(s.skip(1) =~= p);
    assert(trimmed_start(s) == trimmed_start(p));
    assert(Seq::empty() + p =~= p);
}

proof fn strings_are_elements(parts: Seq<Seq<char>>, strs: Seq<Seq<char>>)
    requires
        parts.len() == strs.len(),
        forall|i: int| 0 <= i < parts.len() ==> is_item(#[trigger] parts[i]),
        forall|i: int|
            0 <= i < parts.len() ==> scalar(#[trigger] parts[i]) == Ok::<Val, Seq<char>>(
                Val::Str(strs[i]),
            ),
    ensures
        elements(spaced(parts, Seq::empty())) == Ok::<(Seq<Seq<char>>, Seq<i64>), Seq<char>>(
            (strs, Seq::empty()),
        ),
    decreases parts.len(),
{
    let all = spaced(parts, Seq::empty());
    if parts.len() == 0 {
        assert(strs =~= Seq::empty());
    } else {
        assert(is_item(parts.last()));
        assert(all.drop_last() =~= spaced(parts.drop_last(), Seq::empty()));
        strings_are_elements(parts.drop_last(), strs.drop_last());
        space_is_trimmed(parts.last());
        assert(scalar(parts[parts.len() - 1]) == Ok::<Val, Seq<char>>(
            Val::Str(strs[parts.len() - 1]),
        ));
        assert(strs.drop_last().push(strs.last()) =~= strs);
    }
}

proof fn numbers_are_elements(parts: Seq<Seq<char>>, ints: Seq<i64>)
    requires
        parts.len() == ints.len(),
        forall|i: int| 0 <= i < parts.len() ==> is_item(#[trigger] parts[i]),
        forall|i: int|
            0 <= i < parts.len() ==> scalar(#[trigger] parts[i]) == Ok::<Val, Seq<char>>(
                Val::Int(ints[i]),
            ),
    ensures
        elements(spaced(parts, Seq::empty())) == Ok::<(Seq<Seq<char>>, Seq<i64>), Seq<char>>(
            (Seq::empty(), ints),
        ),
    decreases parts.len(),
{
    let all = spaced(parts, Seq::empty());
    if parts.len() == 0 {
        assert(ints =~= Seq::empty());
    } else {
        assert(is_item(parts.last()));
        assert(all.drop_last() =~= spaced(parts.drop_last(), Seq::empty()));
        numbers_are_elements(parts.drop_last(), ints.drop_last());
        space_is_trimmed(parts.last());
        assert(scalar(parts[parts.len() - 1]) == Ok::<Val, Seq<char>>(
            Val::Int(ints[parts.len() - 1]),
        ));
        assert(ints.drop_last().push(ints.last()) =~= ints);
    }
}

proof fn plain_run_is_flat(s: Seq<char>, i: int, j: int, in_string: bool)
    requires
        0 <= i <= j <= s.len(),
        forall|k: int| i <= k < j ==> is_plain(#[trigger] s[k]),
    ensures
        bracket_depth(s, i, in_string) == bracket_depth(s, j, in_string),
    decreases j - i,
{
    if i < j {
        assert(is_plain(s[i]));
        plain_run_is_flat(s, i + 1, j, in_string);
    }
}

proof fn item_is_flat(s: Seq<char>, i: int, p: Seq<char>)
    requires
        0 <= i,
        i + p.len() <= s.len(),
        s.subrange(i, i + p.len()) == p,
        is_item(p),
    ensures
        bracket_depth(s, i, false) == bracket_depth(s, i + p.len(), false),
{
    let j = i + p.len();
    assert forall|k: int| 0 <= k < p.len() implies p[k] == s[i + k] by {
        assert(s.subrange(i, i + p.len())[k] == s[i + k]);
    }
    if is_plain_text(p) {
        assert forall|k: int| i <= k < j implies is_plain(#[trigger] s[k]) by {
            assert(is_plain(p[k - i]));
        }
        plain_run_is_flat(s, i, j, false);
    } else {
        let inner = p.subrange(1, p.len() - 1);
        assert(s[i] == '"');
        assert(s[j - 1] == '"');
        assert forall|k: int| i + 1 <= k < j - 1 implies is_plain(#[trigger] s[k]) by {
            assert(is_plain(inner[k - i - 1]));
        }
        plain_run_is_flat(s, i + 1, j - 1, true);
    }
}

proof fn list_is_flat(s: Seq<char>, i: int, parts: Seq<Seq<char>>)
    requires
        0 <= i,
        i + comma_list(parts).len() <= s.len(),
        s.subrange(i, i + comma_list(parts).len()) == comma_list(parts),
        forall|k: int| 0 <= k < parts.len() ==> is_item(#[trigger] parts[k]),
    ensures
        bracket_depth(s, i, false) == bracket_depth(s, i + comma_list(parts).len(), false),
    decreases parts.len(),
{
    let list = comma_list(parts);
    if parts.len() > 0 {
        let p = parts[0];
        assert(is_item(p));
        let m = i + p.len();
        assert(s.subrange(i, m) =~= list.take(p.len() as int));
        if parts.len() == 1 {
            assert(list.take(p.len() as int) =~= p);
            item_is_flat(s, i, p);
        } else {
            let rest = comma_list(parts.skip(1));
            assert(list.take(p.len() as int) =~= p);
            item_is_flat(s, i, p);
            assert(s[m] == s.subrange(i, i + list.len())[p.len() as int]);
            assert(s[m + 1] == s.subrange(i, i + list.len())[p.len() as int + 1]);
            assert(s.subrange(m + 2, m + 2 + rest.len()) =~= list.skip(p.len() as int + 2));
            assert(list.skip(p.len() as int + 2) =~= rest);
            assert(bracket_depth(s, m, false) == bracket_depth(s, m + 1, false));
            assert(bracket_depth(s, m + 1, false) == bracket_depth(s, m + 2, false));
            list_is_flat(s, m + 2, parts.skip(1));
        }
    }
}

proof fn list_stays_on_its_line(parts: Seq<Seq<char>>)
    requires
        forall|k: int| 0 <= k < parts.len() ==> is_item(#[trigger] parts[k]),
    ensures
        is_inline(comma_list(parts)),
    decreases parts.len(),
{
    if parts.len() > 0 {
        let p = parts[0];
        assert(is_item(p));
        assert forall|k: int| 0 <= k < p.len() implies is_inline_char(#[trigger] p[k]) by {
            if is_plain_text(p) {
                assert(is_plain(p[k]));
            } else if 0 < k < p.len() - 1 {
                assert(is_plain(p.subrange(1, p.len() - 1)[k - 1]));
            }
        }
        if parts.len() > 1 {
            let rest = comma_list(parts.skip(1));
            list_stays_on_its_line(parts.skip(1));
            assert forall|k: int| 0 <= k < comma_list(parts).len() implies is_inline_char(
                #[trigger] comma_list(parts)[k],
            ) by {
                if k >= p.len() + 2 {
                    assert(comma_list(parts)[k] == rest[k - p.len() - 2]);
                }
            }
        }
    }
}

proof fn array_is_read(ls: Seq<Seq<char>>, n: int, key: Seq<char>, parts: Seq<Seq<char>>, v: Val)
    requires
        parts.len() > 0,
        forall|k: int| 0 <= k < parts.len() ==> is_item(#[trigger] parts[k]),
        array(comma_list(parts)) == Ok::<Val, Seq<char>>(v),
    ensures
        valued(ls, n, key, array_value(parts)) == Ok::<(Val, int), Seq<char>>((v, n + 1)),
        is_inline(array_value(parts)),
{
    let t = array_value(parts);
    let list = comma_list(parts);
    let end = list.len() as int + 1;
    assert(t.subrange(1, end) =~= list);
    list_is_flat(t, 1, parts);
    assert(t[end] == ']');
    assert(bracket_depth(t, end, false) == bracket_depth(t, end + 1, false) - 1);
    assert(bracket_depth(t, 0, false) == 0);
    nothing_to_trim(t);
    reveal_strlit("[");
    reveal_strlit("]");
    assert(t.take(1) =~= "["@);
    assert(t.skip(t.len() - 1) =~= "]"@);
    assert(t.subrange(1, t.len() - 1) =~= list);
    list_stays_on_its_line(parts);
    assert forall|k: int| 0 <= k < t.len() implies is_inline_char(#[trigger] t[k]) by {
        if 0 < k < t.len() - 1 {
            assert(t[k] == list[k - 1]);
        }
    }
}

/// An array of strings in quotes is read as those strings.
pub proof fn strings_are_read(ls: Seq<Seq<char>>, n: int, key: Seq<char>, strs: Seq<Seq<char>>)
    requires
        strs.len() > 0,
        forall|k: int| 0 <= k < strs.len() ==> is_plain_text(#[trigger] strs[k]),
    ensures
        ({
            let value = array_value(strs.map_values(|s: Seq<char>| string_value(s)));
            &&& valued(ls, n, key, value) == Ok::<(Val, int), Seq<char>>(
                (Val::StrArr(strs), n + 1),
            )
            &&& is_inline(value)
        }),
{
    let parts = strs.map_values(|s: Seq<char>| string_value(s));
    assert forall|k: int| 0 <= k < parts.len() implies is_item(#[trigger] parts[k]) by {
        assert(is_plain_text(strs[k]));
        assert(parts[k].subrange(1, parts[k].len() - 1) =~= strs[k]);
    }
    assert forall|k: int| 0 <= k < parts.len() implies scalar(#[trigger] parts[k]) == Ok::<
        Val,
        Seq<char>,
    >(Val::Str(strs[k])) by {
        assert(is_plain_text(strs[k]));
        string_is_read(ls, n, key, strs[k]);
    }
    list_is_split(parts, Seq::empty());
    strings_are_elements(parts, strs);
    array_is_read(ls, n, key, parts, Val::StrArr(strs));
}

/// An array of numbers is read as those numbers.
pub proof fn numbers_are_read(
    ls: Seq<Seq<char>>,
    n: int,
    key: Seq<char>,
    parts: Seq<Seq<char>>,
    ints: Seq<i64>,
)
    requires
        parts.len() > 0,
        parts.len() == ints.len(),
        forall|k: int| 0 <= k < parts.len() ==> is_item(#[trigger] parts[k]),
        forall|k: int|
            0 <= k < parts.len() ==> scalar(#[trigger] parts[k]) == Ok::<Val, Seq<char>>(
                Val::Int(ints[k]),
            ),
    ensures
        valued(ls, n, key, array_value(parts)) == Ok::<(Val, int), Seq<char>>(
            (Val::IntArr(ints), n + 1),
        ),
        is_inline(array_value(parts)),
{
    list_is_split(parts, Seq::empty());
    numbers_are_elements(parts, ints);
    array_is_read(ls, n, key, parts, Val::IntArr(ints));
}

// ---------------------------------------------------------------------------
// Patterns
// ---------------------------------------------------------------------------

proof fn spaceless_is_one_word(w: Seq<char>)
    requires
        forall|i: int| 0 <= i < w.len() ==> !is_space(#[trigger] w[i]),
    ensures
        word_len(w) == w.len(),
    decreases w.len(),
{
    if w.len() > 0 {
        assert(!is_space(w[0]));
        assert forall|i: int| 0 <= i < w.skip(1).len() implies !is_space(#[trigger] w.skip(1)[i]) by {
            assert(!is_space(w[i + 1]));
        }
        spaceless_is_one_word(w.skip(1));
    }
}

/// A text without white space is a single word, and a space ends it.
pub proof fn next_word(w: Seq<char>, rest: Seq<char>)
    requires
        w.len() > 0,
        forall|i: int| 0 <= i < w.len() ==> !is_space(#[trigger] w[i]),
    ensures
        words(w) == seq![w],
        words(w.push(' ') + rest) == seq![w] + words(rest),
{
    spaceless_is_one_word(w);
    assert(!is_space(w[0]));
    assert(w.take(w.len() as int) =~= w);
    assert(w.skip(w.len() as int) =~= Seq::empty());
    assert(words(Seq::<char>::empty()) =~= Seq::empty());
    assert(words(w) =~= seq![w]);
    space_separates_words(w, rest);
}

/// Two hexadecimal digits are a token for the byte they spell.
pub proof fn byte_token_is_read(w: Seq<char>)
    requires
        w.len() == 2,
        digit_value(w[0]) < 16,
        digit_value(w[1]) < 16,
    ensures
        token(w) == Ok::<Tok, Seq<char>>(
            Tok::Byte((digit_value(w[0]) * 16 + digit_value(w[1])) as u8),
        ),
        forall|i: int| 0 <= i < w.len() ==> !is_space(#[trigger] w[i]),
{
    reveal_strlit("??");
    assert("??"@[0] == '?');
    assert(w.drop_last().drop_last().len() == 0);
    reveal_with_fuel(spelled, 3);
    assert(spelled(w, 16) == digit_value(w[0]) * 16 + digit_value(w[1]));
    assert(at_most_two_bytes(w));
}

/// A star and decimal digits are a token for a gap.
pub proof fn gap_token_is_read(digits: Seq<char>)
    requires
        digits.len() > 0,
        all_digits(digits, 10),
        0 <= spelled(digits, 10) <= usize::MAX,
    ensures
        token(seq!['*'] + digits) == Ok::<Tok, Seq<char>>(Tok::Gap(spelled(digits, 10) as usize)),
        forall|i: int|
            0 <= i < digits.len() + 1 ==> !is_space(#[trigger] (seq!['*'] + digits)[i]),
{
    let w = seq!['*'] + digits;
    reveal_strlit("??");
    assert("??"@[0] == '?');
    assert(w.skip(1) =~= digits);
    assert(digit_value(digits[0]) < 10);
    assert forall|i: int| 0 <= i < w.len() implies !is_space(#[trigger] w[i]) by {
        if i > 0 {
            assert(digit_value(digits[i - 1]) < 10);
        }
    }
}

} // verus!
