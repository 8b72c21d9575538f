//! The text format of the cruncher config files: a small TOML subset.
//!
//!   * `# comments`, blank lines
//!   * `key = value` at top level or under a `[section]` / `[[variant]]` header
//!   * values: `"string"`, integer (decimal or `0x` hex), `true`/`false`,
//!     and arrays of strings or integers (arrays may span multiple lines)

use vstd::prelude::*;
use vstd::slice::{slice_subrange, slice_to_vec};
use vstd::string::*;

use crate::fmt::{push_dec, push_signed_dec};
use crate::text::{
    chars_of, find_char, is_text, parse_number, split_lines, text_of, trim,
};

verus! {

use crate::fmt::{dec, signed_dec};
use crate::text::{char_texts, lines, parsed, position, trimmed};

// ---------------------------------------------------------------------------
// Values
// ---------------------------------------------------------------------------

/// A value in a config file.
#[derive(Debug)]
pub enum Value {
    Str(Vec<char>),
    Int(i64),
    Bool(bool),
    StrArr(Vec<Vec<char>>),
    IntArr(Vec<i64>),
}

/// The meaning of a value.
pub enum Val {
    Str(Seq<char>),
    Int(i64),
    Bool(bool),
    StrArr(Seq<Seq<char>>),
    IntArr(Seq<i64>),
}

impl View for Value {
    type V = Val;

    open spec fn view(&self) -> Val {
        match self {
            Value::Str(s) => Val::Str(s@),
            Value::Int(i) => Val::Int(*i),
            Value::Bool(b) => Val::Bool(*b),
            Value::StrArr(v) => Val::StrArr(char_texts(v@)),
            Value::IntArr(v) => Val::IntArr(v@),
        }
    }
}

/// One `key = value` line.
#[derive(Debug)]
pub struct Pair {
    pub key: Vec<char>,
    pub value: Value,
}

/// One `[section]`.
#[derive(Debug)]
pub struct Section {
    pub name: Vec<char>,
    pub table: Vec<Pair>,
}

/// A whole file: the lines before any header, the sections, and the variants.
#[derive(Debug)]
pub struct Raw {
    pub top: Vec<Pair>,
    pub sections: Vec<Section>,
    pub variants: Vec<Vec<Pair>>,
}

/// The keys and values of a table, in order.
pub open spec fn table_of(t: Seq<Pair>) -> Seq<(Seq<char>, Val)> {
    Seq::new(t.len(), |i: int| (t[i].key@, t[i].value@))
}

pub open spec fn sections_of(s: Seq<Section>) -> Seq<(Seq<char>, Seq<(Seq<char>, Val)>)> {
    Seq::new(s.len(), |i: int| (s[i].name@, table_of(s[i].table@)))
}

pub open spec fn variants_of(v: Seq<Vec<Pair>>) -> Seq<Seq<(Seq<char>, Val)>> {
    Seq::new(v.len(), |i: int| table_of(v[i]@))
}

/// The meaning of a file.
pub struct Document {
    pub top: Seq<(Seq<char>, Val)>,
    pub sections: Seq<(Seq<char>, Seq<(Seq<char>, Val)>)>,
    pub variants: Seq<Seq<(Seq<char>, Val)>>,
}

impl View for Raw {
    type V = Document;

    open spec fn view(&self) -> Document {
        Document {
            top: table_of(self.top@),
            sections: sections_of(self.sections@),
            variants: variants_of(self.variants@),
        }
    }
}

// ---------------------------------------------------------------------------
// Showing values
// ---------------------------------------------------------------------------

/// A string as `{:?}` shows it: in quotes, with special characters escaped.
pub uninterp spec fn quoted(s: Seq<char>) -> Seq<char>;

/// `std::format!("{:?}", ..)` on a string. The text that comes out is given a name
/// only: it is a function of the string, but which characters are escaped follows
/// the Unicode tables of the standard library.
#[verifier::external_body]
fn quote(s: &str) -> (q: String)
    ensures
        q@ == quoted(s@),
{
    format!("{:?}", s)
}

/// The strings as shown one by one, with commas between.
pub open spec fn listed_strings(v: Seq<Seq<char>>) -> Seq<char>
    decreases v.len(),
{
    if v.len() == 0 {
        Seq::empty()
    } else if v.len() == 1 {
        quoted(v[0])
    } else {
        listed_strings(v.drop_last()) + ", "@ + quoted(v.last())
    }
}

/// The numbers in decimal, with commas between.
pub open spec fn listed_numbers(v: Seq<i64>) -> Seq<char>
    decreases v.len(),
{
    if v.len() == 0 {
        Seq::empty()
    } else if v.len() == 1 {
        signed_dec(v[0] as int)
    } else {
        listed_numbers(v.drop_last()) + ", "@ + signed_dec(v.last() as int)
    }
}

/// A value as error messages show it.
pub open spec fn shown(v: Val) -> Seq<char> {
    match v {
        Val::Str(s) => "Str("@ + quoted(s) + ")"@,
        Val::Int(i) => "Int("@ + signed_dec(i as int) + ")"@,
        Val::Bool(b) => if b {
            "Bool(true)"@
        } else {
            "Bool(false)"@
        },
        Val::StrArr(v) => "StrArr(["@ + listed_strings(v) + "])"@,
        Val::IntArr(v) => "IntArr(["@ + listed_numbers(v) + "])"@,
    }
}

fn list_strings(v: &Vec<Vec<char>>) -> (s: String)
    ensures
        s@ == listed_strings(char_texts(v@)),
{
    let mut s: String = String::new();
    let ghost all = char_texts(v@);
    let mut i: usize = 0;
    while i < v.len()
        invariant
            i <= v@.len(),
            all == char_texts(v@),
            s@ == listed_strings(all.take(i as int)),
        decreases v@.len() - i,
    {
        if i > 0 {
            s.append(", ");
        }
        s.append(quote(text_of(v[i].as_slice()).as_str()).as_str());
        proof {
            let done = all.take(i + 1);
            assert(done.drop_last() =~= all.take(i as int));
            assert(done.last() == v@[i as int]@);
            if i == 0 {
                assert(s@ =~= quoted(done[0]));
            }
        }
        i = i + 1;
    }
    assert(all.take(i as int) =~= all);
    s
}

/// Numbers in decimal, with commas between.
pub fn list_numbers(v: &Vec<i64>) -> (s: String)
    ensures
        s@ == listed_numbers(v@),
{
    let mut s: String = String::new();
    let mut i: usize = 0;
    while i < v.len()
        invariant
            i <= v@.len(),
            s@ == listed_numbers(v@.take(i as int)),
        decreases v@.len() - i,
    {
        if i > 0 {
            s.append(", ");
        }
        push_signed_dec(&mut s, v[i]);
        proof {
            let done = v@.take(i + 1);
            assert(done.drop_last() =~= v@.take(i as int));
            assert(done.last() == v@[i as int]);
            if i == 0 {
                assert(s@ =~= signed_dec(done[0] as int));
            }
        }
        i = i + 1;
    }
    assert(v@.take(i as int) =~= v@);
    s
}

/// A value as error messages show it.
pub fn show(v: &Value) -> (s: String)
    ensures
        s@ == shown(v@),
{
    match v {
        Value::Str(t) => {
            let mut s: String = String::from_str("Str(");
            s.append(quote(text_of(t.as_slice()).as_str()).as_str());
            s.append(")");
            s
        },
        Value::Int(i) => {
            let mut s: String = String::from_str("Int(");
            push_signed_dec(&mut s, *i);
            s.append(")");
            s
        },
        Value::Bool(b) => if *b {
            String::from_str("Bool(true)")
        } else {
            String::from_str("Bool(false)")
        },
        Value::StrArr(t) => {
            let mut s: String = String::from_str("StrArr([");
            s.append(list_strings(t).as_str());
            s.append("])");
            s
        },
        Value::IntArr(t) => {
            let mut s: String = String::from_str("IntArr([");
            s.append(list_numbers(t).as_str());
            s.append("])");
            s
        },
    }
}

// ---------------------------------------------------------------------------
// Scalars
// ---------------------------------------------------------------------------

/// Position of the `#` that starts a comment, from `i` on: the first one outside
/// of quotes, or the length of the line.
pub open spec fn comment_position(s: Seq<char>, i: int, in_string: bool) -> int
    decreases s.len() - i,
{
    if i >= s.len() {
        s.len() as int
    } else if s[i] == '#' && !in_string {
        i
    } else {
        comment_position(s, i + 1, in_string != (s[i] == '"'))
    }
}

/// A line without its comment and without white space at either end.
pub open spec fn content(s: Seq<char>) -> Seq<char> {
    trimmed(s.take(comment_position(s, 0, false)))
}

/// The value a single token denotes.
pub open spec fn scalar(tok: Seq<char>) -> Result<Val, Seq<char>> {
    let t = trimmed(tok);
    let number = if t.len() >= 2 && t[0] == '0' && (t[1] == 'x' || t[1] == 'X') {
        parsed(t.skip(2), 16, i64::MIN as int, i64::MAX as int)
    } else {
        parsed(t, 10, i64::MIN as int, i64::MAX as int)
    };
    if t.len() > 0 && t[0] == '"' {
        if t.len() > 1 && t.last() == '"' {
            Ok(Val::Str(t.subrange(1, t.len() - 1)))
        } else {
            Err("unterminated string: "@ + t)
        }
    } else if t == "true"@ {
        Ok(Val::Bool(true))
    } else if t == "false"@ {
        Ok(Val::Bool(false))
    } else {
        match number {
            Some(n) => Ok(Val::Int(n as i64)),
            None => Err("bad value: "@ + t),
        }
    }
}

/// `r` returns what `s` says, with the error as a text.
pub open spec fn agrees(r: Result<Value, String>, s: Result<Val, Seq<char>>) -> bool {
    match r {
        Ok(v) => s == Ok::<Val, Seq<char>>(v@),
        Err(e) => s == Err::<Val, Seq<char>>(e@),
    }
}

fn line_content(s: &[char]) -> (t: &[char])
    ensures
        t@ == content(s@),
{
    let mut i: usize = 0;
    let mut in_string: bool = false;
    while i < s.len() && !(s[i] == '#' && !in_string)
        invariant
            i <= s@.len(),
            comment_position(s@, 0, false) == comment_position(s@, i as int, in_string),
        decreases s@.len() - i,
    {
        if s[i] == '"' {
            in_string = !in_string;
        }
        i = i + 1;
    }
    let front: &[char] = slice_subrange(s, 0, i);
    assert(front@ =~= s@.take(i as int));
    trim(front)
}

/// Read the value of a single token.
pub fn parse_scalar(tok: &[char]) -> (r: Result<Value, String>)
    ensures
        agrees(r, scalar(tok@)),
{
    let t: &[char] = trim(tok);
    if t.len() > 0 && t[0] == '"' {
        if t.len() > 1 && t[t.len() - 1] == '"' {
            return Ok(Value::Str(slice_to_vec(slice_subrange(t, 1, t.len() - 1))));
        }
        let mut e: String = String::from_str("unterminated string: ");
        e.append(text_of(t).as_str());
        return Err(e);
    }
    if is_text(t, "true") {
        return Ok(Value::Bool(true));
    }
    if is_text(t, "false") {
        return Ok(Value::Bool(false));
    }
    let hex: bool = t.len() >= 2 && t[0] == '0' && (t[1] == 'x' || t[1] == 'X');
    let number: Option<i128> = if hex {
        let digits: &[char] = slice_subrange(t, 2, t.len());
        assert(digits@ =~= t@.skip(2));
        parse_number(digits, 16, i64::MIN as i128, i64::MAX as i128)
    } else {
        parse_number(t, 10, i64::MIN as i128, i64::MAX as i128)
    };
    match number {
        Some(n) => Ok(Value::Int(n as i64)),
        None => {
            let mut e: String = String::from_str("bad value: ");
            e.append(text_of(t).as_str());
            Err(e)
        },
    }
}

// ---------------------------------------------------------------------------
// Arrays
// ---------------------------------------------------------------------------

/// The pieces of `s` between the commas outside of quotes; `piece` is what has been
/// read of the first one.
pub open spec fn comma_pieces(s: Seq<char>, piece: Seq<char>, in_string: bool) -> Seq<Seq<char>>
    decreases s.len(),
{
    if s.len() == 0 {
        seq![piece]
    } else if s[0] == ',' && !in_string {
        seq![piece] + comma_pieces(s.skip(1), Seq::empty(), in_string)
    } else {
        comma_pieces(s.skip(1), piece.push(s[0]), in_string != (s[0] == '"'))
    }
}

/// The strings and the integers among the pieces, each in order. Blank pieces do
/// not count; the first piece that is neither is the error.
pub open spec fn elements(pieces: Seq<Seq<char>>) -> Result<(Seq<Seq<char>>, Seq<i64>), Seq<char>>
    decreases pieces.len(),
{
    if pieces.len() == 0 {
        Ok((Seq::empty(), Seq::empty()))
    } else {
        match elements(pieces.drop_last()) {
            Err(e) => Err(e),
            Ok((strs, ints)) => if trimmed(pieces.last()).len() == 0 {
                Ok((strs, ints))
            } else {
                match scalar(trimmed(pieces.last())) {
                    Err(e) => Err(e),
                    Ok(Val::Str(s)) => Ok((strs.push(s), ints)),
                    Ok(Val::Int(i)) => Ok((strs, ints.push(i))),
                    Ok(v) => Err("unsupported array element: "@ + shown(v)),
                }
            },
        }
    }
}

/// The array between a pair of brackets.
pub open spec fn array(body: Seq<char>) -> Result<Val, Seq<char>> {
    match elements(comma_pieces(body, Seq::empty(), false)) {
        Err(e) => Err(e),
        Ok((strs, ints)) => if strs.len() > 0 && ints.len() > 0 {
            Err("array mixes strings and integers"@)
        } else if strs.len() == 0 && ints.len() == 0 {
            Err("empty array"@)
        } else if strs.len() == 0 {
            Ok(Val::IntArr(ints))
        } else {
            Ok(Val::StrArr(strs))
        },
    }
}

fn split_commas(s: &[char]) -> (out: Vec<Vec<char>>)
    ensures
        char_texts(out@) == comma_pieces(s@, Seq::empty(), false),
{
    let mut out: Vec<Vec<char>> = Vec::new();
    let mut piece: Vec<char> = Vec::new();
    let mut in_string: bool = false;
    let mut i: usize = 0;
    let ghost all = comma_pieces(s@, Seq::empty(), false);
    proof {
        assert(s@.skip(0) =~= s@);
        assert(char_texts(out@) + all =~= all);
    }
    while i < s.len()
        invariant
            i <= s@.len(),
            char_texts(out@) + comma_pieces(s@.skip(i as int), piece@, in_string) == all,
        decreases s@.len() - i,
    {
        let c: char = s[i];
        let ghost rest = s@.skip(i as int);
        let ghost before = out@;
        let ghost done = piece@;
        assert(rest.skip(1) =~= s@.skip(i + 1));
        assert(rest[0] == c);
        if c == ',' && !in_string {
            out.push(piece);
            piece = Vec::new();
            proof {
                assert(char_texts(out@) =~= char_texts(before).push(done));
                let tail = comma_pieces(s@.skip(i + 1), Seq::empty(), in_string);
                assert(char_texts(out@) + tail =~= char_texts(before) + (seq![done] + tail));
            }
        } else {
            if c == '"' {
                in_string = !in_string;
            }
            piece.push(c);
        }
        i = i + 1;
    }
    let ghost before = out@;
    let ghost done = piece@;
    out.push(piece);
    proof {
        assert(s@.skip(i as int) =~= Seq::empty());
        assert(char_texts(out@) =~= char_texts(before) + seq![done]);
    }
    out
}

proof fn early_element_error_stays(pieces: Seq<Seq<char>>, n: int)
    requires
        0 <= n <= pieces.len(),
        elements(pieces.take(n)) is Err,
    ensures
        elements(pieces) == elements(pieces.take(n)),
    decreases pieces.len(),
{
    if n < pieces.len() {
        assert(pieces.drop_last().take(n) =~= pieces.take(n));
        early_element_error_stays(pieces.drop_last(), n);
    } else {
        assert(pieces.take(n) =~= pieces);
    }
}

/// Read the array between a pair of brackets.
pub fn parse_array(body: &[char]) -> (r: Result<Value, String>)
    ensures
        agrees(r, array(body@)),
{
    let pieces: Vec<Vec<char>> = split_commas(body);
    let ghost all = char_texts(pieces@);
    let mut strs: Vec<Vec<char>> = Vec::new();
    let mut ints: Vec<i64> = Vec::new();
    let mut i: usize = 0;
    proof {
        assert(char_texts(strs@) =~= Seq::empty());
        assert(all.take(0) =~= Seq::empty());
    }
    while i < pieces.len()
        invariant
            i <= pieces@.len(),
            all == char_texts(pieces@),
            all == comma_pieces(body@, Seq::empty(), false),
            elements(all.take(i as int)) == Ok::<(Seq<Seq<char>>, Seq<i64>), Seq<char>>(
                (char_texts(strs@), ints@),
            ),
        decreases pieces@.len() - i,
    {
        proof {
            assert(all.take(i + 1).drop_last() =~= all.take(i as int));
            assert(all.take(i + 1).last() == pieces@[i as int]@);
        }
        let item: &[char] = trim(pieces[i].as_slice());
        if item.len() > 0 {
            let ghost before = strs@;
            match parse_scalar(item) {
                Err(e) => {
                    proof {
                        early_element_error_stays(all, i + 1);
                    }
                    return Err(e);
                },
                Ok(Value::Str(s)) => {
                    strs.push(s);
                    assert(char_texts(strs@) =~= char_texts(before).push(s@));
                },
                Ok(Value::Int(n)) => {
                    ints.push(n);
                },
                Ok(v) => {
                    let mut e: String = String::from_str("unsupported array element: ");
                    e.append(show(&v).as_str());
                    proof {
                        early_element_error_stays(all, i + 1);
                    }
                    return Err(e);
                },
            }
        }
        i = i + 1;
    }
    assert(all.take(i as int) =~= all);
    if strs.len() > 0 && ints.len() > 0 {
        return Err(String::from_str("array mixes strings and integers"));
    }
    if strs.len() == 0 && ints.len() == 0 {
        return Err(String::from_str("empty array"));
    }
    if strs.len() == 0 {
        Ok(Value::IntArr(ints))
    } else {
        Ok(Value::StrArr(strs))
    }
}

/// Opening minus closing brackets outside of quotes, from `i` on.
pub open spec fn bracket_depth(s: Seq<char>, i: int, in_string: bool) -> int
    decreases s.len() - i,
{
    if i >= s.len() {
        0
    } else {
        bracket_depth(s, i + 1, in_string != (s[i] == '"')) + if in_string {
            0int
        } else if s[i] == '[' {
            1
        } else if s[i] == ']' {
            -1
        } else {
            0
        }
    }
}

fn array_closed(s: &[char]) -> (b: bool)
    ensures
        b == (bracket_depth(s@, 0, false) == 0),
{
    let mut in_string: bool = false;
    let mut depth: i128 = 0;
    let mut i: usize = 0;
    while i < s.len()
        invariant
            i <= s@.len(),
            -i <= depth <= i,
            bracket_depth(s@, 0, false) == depth + bracket_depth(s@, i as int, in_string),
        decreases s@.len() - i,
    {
        let c: char = s[i];
        if !in_string && c == '[' {
            depth = depth + 1;
        } else if !in_string && c == ']' {
            depth = depth - 1;
        }
        if c == '"' {
            in_string = !in_string;
        }
        i = i + 1;
    }
    depth == 0
}

// ---------------------------------------------------------------------------
// Files
// ---------------------------------------------------------------------------

/// What stands between an opening and a closing text.
pub open spec fn enclosed(s: Seq<char>, open: Seq<char>, close: Seq<char>) -> Option<Seq<char>> {
    if s.len() >= open.len() + close.len() && s.take(open.len() as int) == open && s.skip(
        s.len() - close.len(),
    ) == close {
        Some(s.subrange(open.len() as int, s.len() - close.len()))
    } else {
        None
    }
}

/// An error with the file and the line it is about; `n` counts from zero.
pub open spec fn at_line(source: Seq<char>, n: int, message: Seq<char>) -> Seq<char> {
    source + ":"@ + dec(n + 1) + ": "@ + message
}

/// An array text with the following lines, from `n` on, until its brackets are
/// balanced, and the number of the line after it.
pub open spec fn gathered(ls: Seq<Seq<char>>, n: int, text: Seq<char>) -> Option<(Seq<char>, int)>
    decreases ls.len() - n,
{
    if bracket_depth(text, 0, false) == 0 {
        Some((text, n))
    } else if n >= ls.len() {
        None
    } else {
        gathered(ls, n + 1, text.push(' ') + content(ls[n]))
    }
}

pub proof fn gathering_advances(ls: Seq<Seq<char>>, n: int, text: Seq<char>)
    ensures
        gathered(ls, n, text) matches Some(g) ==> n <= g.1 && (n <= ls.len() ==> g.1 <= ls.len()),
    decreases ls.len() - n,
{
    if bracket_depth(text, 0, false) != 0 && n < ls.len() {
        gathering_advances(ls, n + 1, text.push(' ') + content(ls[n]));
    }
}

/// What the current lines belong to.
#[derive(Clone, Copy, PartialEq, Eq, Structural)]
pub enum Place {
    Top,
    /// The last section.
    Section,
    /// The last variant.
    Variant,
}

/// The document with one more `key = value` line.
pub open spec fn with_pair(d: Document, place: Place, key: Seq<char>, v: Val) -> Document {
    match place {
        Place::Top => Document { top: d.top.push((key, v)), ..d },
        Place::Section => Document {
            sections: d.sections.drop_last().push(
                (d.sections.last().0, d.sections.last().1.push((key, v))),
            ),
            ..d
        },
        Place::Variant => Document {
            variants: d.variants.drop_last().push(d.variants.last().push((key, v))),
            ..d
        },
    }
}

/// The value of a `key = value` line whose value text starts at line `n`, and the
/// number of the line after it.
pub open spec fn valued(
    ls: Seq<Seq<char>>,
    n: int,
    key: Seq<char>,
    text: Seq<char>,
) -> Result<(Val, int), Seq<char>> {
    if text.len() > 0 && text[0] == '[' {
        match gathered(ls, n + 1, text) {
            None => Err("unterminated array for key "@ + key),
            Some((whole, next)) => match enclosed(trimmed(whole), "["@, "]"@) {
                None => Err("malformed array for key "@ + key),
                Some(body) => match array(body) {
                    Err(e) => Err(e),
                    Ok(v) => Ok((v, next)),
                },
            },
        }
    } else {
        match scalar(text) {
            Err(e) => Err(e),
            Ok(v) => Ok((v, n + 1)),
        }
    }
}

/// The document that results from reading the lines from `n` on into `d`.
pub open spec fn read_from(
    ls: Seq<Seq<char>>,
    n: int,
    source: Seq<char>,
    d: Document,
    place: Place,
) -> Result<Document, Seq<char>>
    decreases ls.len() - n,
{
    if n >= ls.len() {
        Ok(d)
    } else {
        let line = content(ls[n]);
        let eq = position(line, '=');
        let key = trimmed(line.take(eq));
        let text = trimmed(line.skip(eq + 1));
        if line.len() == 0 {
            read_from(ls, n + 1, source, d, place)
        } else if enclosed(line, "[["@, "]]"@) is Some {
            let name = enclosed(line, "[["@, "]]"@)->0;
            if trimmed(name) != "variant"@ {
                Err(
                    at_line(
                        source,
                        n,
                        "unknown array section [["@ + name + "]] (only [[variant]])"@,
                    ),
                )
            } else {
                read_from(
                    ls,
                    n + 1,
                    source,
                    Document { variants: d.variants.push(Seq::empty()), ..d },
                    Place::Variant,
                )
            }
        } else if enclosed(line, "["@, "]"@) is Some {
            let name = trimmed(enclosed(line, "["@, "]"@)->0);
            read_from(
                ls,
                n + 1,
                source,
                Document { sections: d.sections.push((name, Seq::empty())), ..d },
                Place::Section,
            )
        } else if eq >= line.len() {
            Err(at_line(source, n, "expected key = value, got: "@ + line))
        } else {
            proof {
                gathering_advances(ls, n + 1, text);
            }
            match valued(ls, n, key, text) {
                Err(e) => Err(at_line(source, n, e)),
                Ok((v, next)) => read_from(ls, next, source, with_pair(d, place, key, v), place),
            }
        }
    }
}

pub open spec fn empty_document() -> Document {
    Document { top: Seq::empty(), sections: Seq::empty(), variants: Seq::empty() }
}

/// The document a text denotes.
pub open spec fn document(text: Seq<char>, source: Seq<char>) -> Result<Document, Seq<char>> {
    read_from(lines(text), 0, source, empty_document(), Place::Top)
}

fn enclosed_in(s: &[char], open: &str, close: &str) -> (r: Option<Vec<char>>)
    ensures
        match r {
            Some(v) => enclosed(s@, open@, close@) == Some(v@),
            None => enclosed(s@, open@, close@) is None,
        },
{
    let o: usize = open.unicode_len();
    let c: usize = close.unicode_len();
    if s.len() < o || s.len() - o < c {
        return None;
    }
    let front: &[char] = slice_subrange(s, 0, o);
    let back: &[char] = slice_subrange(s, s.len() - c, s.len());
    assert(front@ =~= s@.take(o as int));
    assert(back@ =~= s@.skip(s@.len() - c));
    if is_text(front, open) && is_text(back, close) {
        Some(slice_to_vec(slice_subrange(s, o, s.len() - c)))
    } else {
        None
    }
}

fn line_error(source: &str, n: usize, message: &str) -> (e: String)
    ensures
        e@ == at_line(source@, n as int, message@),
{
    let mut e: String = String::from_str(source);
    e.append(":");
    push_dec(&mut e, n as u128 + 1);
    e.append(": ");
    e.append(message);
    e
}

fn push_chars(out: &mut Vec<char>, s: &[char])
    ensures
        final(out)@ == old(out)@ + s@,
{
    out.extend_from_slice(s);
}

/// Read the value text that starts at line `n`.
fn parse_value(ls: &Vec<Vec<char>>, n: usize, key: &[char], text: &[char]) -> (r: Result<
    (Value, usize),
    String,
>)
    requires
        n < ls@.len(),
    ensures
        match r {
            Ok((v, next)) => valued(char_texts(ls@), n as int, key@, text@) == Ok::<
                (Val, int),
                Seq<char>,
            >((v@, next as int)) && n < next <= ls@.len(),
            Err(e) => valued(char_texts(ls@), n as int, key@, text@) == Err::<
                (Val, int),
                Seq<char>,
            >(e@),
        },
{
    let count: usize = ls.len();
    assert(n < count);
    if !(text.len() > 0 && text[0] == '[') {
        return match parse_scalar(text) {
            Err(e) => Err(e),
            Ok(v) => Ok((v, n + 1)),
        };
    }
    let ghost all = char_texts(ls@);
    let mut whole: Vec<char> = slice_to_vec(text);
    let mut next: usize = n + 1;
    while !array_closed(whole.as_slice())
        invariant
            n < next <= ls@.len(),
            count == ls@.len(),
            all == char_texts(ls@),
            gathered(all, n + 1, text@) == gathered(all, next as int, whole@),
            text@.len() > 0,
            text@[0] == '[',
        decreases ls@.len() - next,
    {
        if next >= count {
            let mut e: String = String::from_str("unterminated array for key ");
            e.append(text_of(key).as_str());
            return Err(e);
        }
        whole.push(' ');
        assert(all[next as int] == ls@[next as int]@);
        push_chars(&mut whole, line_content(ls[next].as_slice()));
        next = next + 1;
    }
    match enclosed_in(trim(whole.as_slice()), "[", "]") {
        None => {
            let mut e: String = String::from_str("malformed array for key ");
            e.append(text_of(key).as_str());
            Err(e)
        },
        Some(body) => match parse_array(body.as_slice()) {
            Err(e) => Err(e),
            Ok(v) => Ok((v, next)),
        },
    }
}

fn push_pair(raw: &mut Raw, place: Place, key: Vec<char>, value: Value)
    requires
        place == Place::Section ==> old(raw).sections@.len() > 0,
        place == Place::Variant ==> old(raw).variants@.len() > 0,
    ensures
        final(raw)@ == with_pair(old(raw)@, place, key@, value@),
        final(raw).sections@.len() == old(raw).sections@.len(),
        final(raw).variants@.len() == old(raw).variants@.len(),
{
    let pair: Pair = Pair { key, value };
    let ghost entry = (pair.key@, pair.value@);
    match place {
        Place::Top => {
            let ghost before = raw.top@;
            raw.top.push(pair);
            assert(table_of(raw.top@) =~= table_of(before).push(entry));
        },
        Place::Section => {
            let ghost before = raw.sections@;
            match raw.sections.pop() {
                Some(mut s) => {
                    let ghost table = s.table@;
                    s.table.push(pair);
                    assert(table_of(s.table@) =~= table_of(table).push(entry));
                    raw.sections.push(s);
                },
                None => {},
            }
            assert(sections_of(raw.sections@) =~= sections_of(before).drop_last().push(
                (
                    sections_of(before).last().0,
                    sections_of(before).last().1.push(entry),
                ),
            ));
        },
        Place::Variant => {
            let ghost before = raw.variants@;
            match raw.variants.pop() {
                Some(mut t) => {
                    let ghost table = t@;
                    t.push(pair);
                    assert(table_of(t@) =~= table_of(table).push(entry));
                    raw.variants.push(t);
                },
                None => {},
            }
            assert(variants_of(raw.variants@) =~= variants_of(before).drop_last().push(
                variants_of(before).last().push(entry),
            ));
        },
    }
}

/// Read a config text.
pub fn parse_raw(text: &str, source: &str) -> (r: Result<Raw, String>)
    ensures
        match r {
            Ok(raw) => document(text@, source@) == Ok::<Document, Seq<char>>(raw@),
            Err(e) => document(text@, source@) == Err::<Document, Seq<char>>(e@),
        },
{
    let mut raw: Raw = Raw { top: Vec::new(), sections: Vec::new(), variants: Vec::new() };
    let mut place: Place = Place::Top;
    let ls: Vec<Vec<char>> = split_lines(chars_of(text).as_slice());
    let ghost all = char_texts(ls@);
    let mut n: usize = 0;
    proof {
        assert(raw@.top =~= Seq::empty());
        assert(raw@.sections =~= Seq::empty());
        assert(raw@.variants =~= Seq::empty());
    }
    while n < ls.len()
        invariant
            n <= ls@.len(),
            all == char_texts(ls@),
            read_from(all, n as int, source@, raw@, place) == document(text@, source@),
            place == Place::Section ==> raw.sections@.len() > 0,
            place == Place::Variant ==> raw.variants@.len() > 0,
        decreases ls@.len() - n,
    {
        let line: &[char] = line_content(ls[n].as_slice());
        assert(all[n as int] == ls@[n as int]@);
        if line.len() == 0 {
            n = n + 1;
            continue;
        }
        if let Some(name) = enclosed_in(line, "[[", "]]") {
            if !is_text(trim(name.as_slice()), "variant") {
                let mut e: String = String::from_str("unknown array section [[");
                e.append(text_of(name.as_slice()).as_str());
                e.append("]] (only [[variant]])");
                return Err(line_error(source, n, e.as_str()));
            }
            let ghost before = raw@;
            let fresh: Vec<Pair> = Vec::new();
            raw.variants.push(fresh);
            proof {
                assert(table_of(fresh@) =~= Seq::empty());
                assert(raw@.variants =~= before.variants.push(Seq::empty()));
            }
            place = Place::Variant;
            n = n + 1;
            continue;
        }
        if let Some(name) = enclosed_in(line, "[", "]") {
            let ghost before = raw@;
            let s: Section = Section { name: slice_to_vec(trim(name.as_slice())), table: Vec::new() };
            raw.sections.push(s);
            proof {
                assert(table_of(s.table@) =~= Seq::empty());
                assert(raw@.sections =~= before.sections.push((s.name@, Seq::empty())));
            }
            place = Place::Section;
            n = n + 1;
            continue;
        }
        let eq: usize = find_char(line, '=');
        if eq >= line.len() {
            let mut e: String = String::from_str("expected key = value, got: ");
            e.append(text_of(line).as_str());
            return Err(line_error(source, n, e.as_str()));
        }
        let front: &[char] = slice_subrange(line, 0, eq);
        let back: &[char] = slice_subrange(line, eq + 1, line.len());
        assert(front@ =~= line@.take(eq as int));
        assert(back@ =~= line@.skip(eq + 1));
        let key: Vec<char> = slice_to_vec(trim(front));
        match parse_value(&ls, n, key.as_slice(), trim(back)) {
            Err(e) => {
                return Err(line_error(source, n, e.as_str()));
            },
            Ok((v, next)) => {
                push_pair(&mut raw, place, key, v);
                n = next;
            },
        }
    }
    Ok(raw)
}

} // verus!
