//! What the built-in definitions are.

use vstd::prelude::*;

verus! {

use crate::config::{
    addresses, alternative_patterns, alternatives, definition, loaded_config, lookup, parameters,
    section, signature, u16_list_value, Definition, EngineKind, Entry, Params, Signature,
};
use crate::detect::loaded_configs;
use crate::embedded::{
    catch_all_definition, default_params, embedded_definitions, embedded_texts, jump_pattern,
    stub_definition, CATCH_ALL, JMP_0008, JMP_0010, JMP_0100, JMP_0334, JMP_0400, JMP_0410,
};
use crate::pattern::{parsed_pattern, tokens, Tok};
use crate::text::{all_digits, digit_value, is_space, lines, spelled, words};
use crate::toml::{document, empty_document, read_from, valued, with_pair, Document, Place, Val};
use crate::written::{
    array_value, blank_is_skipped, byte_token_is_read, comma_list, decimal_is_read, first_line,
    gap_token_is_read, hex_is_read, hex_value, is_inline, is_inline_char, is_item, is_key,
    is_plain, is_plain_text, next_word, numbers_are_read, pair_is_read, pair_line, plain_from,
    plain_text, section_is_read, section_line, string_is_read, string_value, strings_are_read,
    true_is_read,
};

// ---------------------------------------------------------------------------
// Lines of a text
// ---------------------------------------------------------------------------

/// `line` stands in `s` at `i`, from its character `k` on.
spec fn stands_at(s: Seq<char>, i: int, line: Seq<char>, k: int) -> bool
    decreases line.len() - k,
{
    k >= line.len() || i + k < s.len() && s[i + k] == line[k] && line[k] != '\n' && line[k] != '\r'
        && stands_at(s, i, line, k + 1)
}

/// `line` stands in `s` at `i`, and a line feed behind it.
#[verifier::opaque]
spec fn line_at(s: Seq<char>, i: int, line: Seq<char>) -> bool {
    stands_at(s, i, line, 0) && i + line.len() < s.len() && s[i + line.len()] == '\n'
}

/// From `i` on, `s` consists of the given lines, from line `n` on.
spec fn spells(s: Seq<char>, i: int, ls: Seq<Seq<char>>, n: int) -> bool
    decreases ls.len() - n,
{
    if n >= ls.len() {
        i == s.len()
    } else {
        line_at(s, i, ls[n]) && spells(s, i + ls[n].len() + 1, ls, n + 1)
    }
}

proof fn line_found(s: Seq<char>, i: int, line: Seq<char>)
    requires
        stands_at(s, i, line, 0),
        i + line.len() < s.len(),
        s[i + line.len()] == '\n',
    ensures
        line_at(s, i, line),
{
    reveal(line_at);
}

proof fn standing_line(s: Seq<char>, i: int, line: Seq<char>, k: int)
    requires
        0 <= i,
        0 <= k <= line.len(),
        stands_at(s, i, line, k),
    ensures
        k < line.len() ==> i + line.len() <= s.len(),
        forall|j: int|
            k <= j < line.len() ==> s[i + j] == (#[trigger] line[j]) && line[j] != '\n' && line[j]
                != '\r',
    decreases line.len() - k,
{
    if k < line.len() {
        standing_line(s, i, line, k + 1);
    }
}

/// The lines of a text are those it spells, and then those of what follows.
proof fn spelled_lines(s: Seq<char>, i: int, ls: Seq<Seq<char>>, n: int, rest: Seq<char>)
    requires
        0 <= i <= s.len(),
        0 <= n <= ls.len(),
        spells(s, i, ls, n),
    ensures
        lines(s.skip(i) + rest) == ls.skip(n) + lines(rest),
    decreases ls.len() - n,
{
    if n >= ls.len() {
        assert(s.skip(i) + rest =~= rest);
        assert(ls.skip(n) + lines(rest) =~= lines(rest));
    } else {
        let line = ls[n];
        let end = i + line.len();
        let after = s.skip(end + 1) + rest;
        reveal(line_at);
        standing_line(s, i, line, 0);
        spelled_lines(s, end + 1, ls, n + 1, rest);
        assert(s.skip(i) + rest =~= line.push('\n') + after);
        first_line(line, after);
        assert(seq![line] + (ls.skip(n + 1) + lines(rest)) =~= ls.skip(n) + lines(rest));
    }
}

/// The same for a whole text.
proof fn block_lines(s: Seq<char>, ls: Seq<Seq<char>>, rest: Seq<char>)
    requires
        spells(s, 0, ls, 0),
    ensures
        lines(s + rest) == ls + lines(rest),
{
    spelled_lines(s, 0, ls, 0, rest);
    assert(s.skip(0) =~= s);
    assert(ls.skip(0) =~= ls);
}

/// The same characters from `i` on.
spec fn same_from(a: Seq<char>, b: Seq<char>, i: int) -> bool
    decreases a.len() - i,
{
    i >= a.len() || a[i] == b[i] && same_from(a, b, i + 1)
}

proof fn same_characters(a: Seq<char>, b: Seq<char>, i: int)
    requires
        0 <= i,
        same_from(a, b, i),
    ensures
        forall|k: int| i <= k < a.len() ==> #[trigger] a[k] == b[k],
    decreases a.len() - i,
{
    if i < a.len() {
        same_characters(a, b, i + 1);
    }
}

// ---------------------------------------------------------------------------
// Literals
// ---------------------------------------------------------------------------

/// Every character from `i` on is a digit.
spec fn digits_from(s: Seq<char>, i: int, base: int) -> bool
    decreases s.len() - i,
{
    i >= s.len() || digit_value(s[i]) < base && digits_from(s, i + 1, base)
}

proof fn digits_are_all(s: Seq<char>, i: int, base: int)
    requires
        0 <= i,
        digits_from(s, i, base),
    ensures
        forall|k: int| i <= k < s.len() ==> digit_value(#[trigger] s[k]) < base,
    decreases s.len() - i,
{
    if i < s.len() {
        digits_are_all(s, i + 1, base);
    }
}

/// Four hexadecimal digits spell a 16-bit number.
proof fn four_digits(d: Seq<char>)
    requires
        d.len() == 4,
        digits_from(d, 0, 16),
    ensures
        all_digits(d, 16),
        spelled(d, 16) == digit_value(d[0]) * 0x1000 + digit_value(d[1]) * 0x100 + digit_value(d[2])
            * 0x10 + digit_value(d[3]),
        0 <= spelled(d, 16) <= 0xFFFF,
{
    digits_are_all(d, 0, 16);
    reveal_with_fuel(spelled, 5);
    reveal_with_fuel(digits_from, 5);
    assert(d.drop_last().drop_last().drop_last().drop_last().len() == 0);
}

proof fn keys()
    ensures
        is_key("name"@),
        is_key("engine"@),
        is_key("detect"@),
        is_key("run"@),
        is_key("base"@),
        is_key("pattern"@),
        is_key("any_of"@),
        is_key("always"@),
        is_key("entry"@),
        is_key("stop_pc"@),
        is_key("stop_below"@),
        is_key("exit_above"@),
        is_key("snap_start"@),
        is_key("analyze_0100"@),
        is_key("use_guess_start"@),
        is_key("exit_into_written"@),
        is_key("exit_quiescent"@),
        is_plain_text("generic"@),
        is_plain_text("sys"@),
{
    reveal_strlit("name");
    reveal_strlit("engine");
    reveal_strlit("detect");
    reveal_strlit("run");
    reveal_strlit("base");
    reveal_strlit("pattern");
    reveal_strlit("any_of");
    reveal_strlit("always");
    reveal_strlit("entry");
    reveal_strlit("stop_pc");
    reveal_strlit("stop_below");
    reveal_strlit("exit_above");
    reveal_strlit("snap_start");
    reveal_strlit("analyze_0100");
    reveal_strlit("use_guess_start");
    reveal_strlit("exit_into_written");
    reveal_strlit("exit_quiescent");
    reveal_strlit("generic");
    reveal_strlit("sys");
    reveal_with_fuel(plain_from, 20);
    plain_text("name"@, 0);
    plain_text("engine"@, 0);
    plain_text("detect"@, 0);
    plain_text("run"@, 0);
    plain_text("base"@, 0);
    plain_text("pattern"@, 0);
    plain_text("any_of"@, 0);
    plain_text("always"@, 0);
    plain_text("entry"@, 0);
    plain_text("stop_pc"@, 0);
    plain_text("stop_below"@, 0);
    plain_text("exit_above"@, 0);
    plain_text("snap_start"@, 0);
    plain_text("analyze_0100"@, 0);
    plain_text("use_guess_start"@, 0);
    plain_text("exit_into_written"@, 0);
    plain_text("exit_quiescent"@, 0);
    plain_text("generic"@, 0);
    plain_text("sys"@, 0);
}

/// The length and the first letters of every key, which tell the keys apart.
proof fn initials()
    ensures
        "name"@.len() == 4 && "name"@[0] == 'n' && "name"@[1] == 'a',
        "engine"@.len() == 6 && "engine"@[0] == 'e' && "engine"@[1] == 'n',
        "detect"@.len() == 6 && "detect"@[0] == 'd' && "detect"@[1] == 'e',
        "run"@.len() == 3 && "run"@[0] == 'r' && "run"@[1] == 'u',
        "probe"@.len() == 5 && "probe"@[0] == 'p' && "probe"@[1] == 'r',
        "base"@.len() == 4 && "base"@[0] == 'b' && "base"@[1] == 'a',
        "always"@.len() == 6 && "always"@[0] == 'a' && "always"@[1] == 'l',
        "pattern"@.len() == 7 && "pattern"@[0] == 'p' && "pattern"@[1] == 'a',
        "any_of"@.len() == 6 && "any_of"@[0] == 'a' && "any_of"@[1] == 'n',
        "entry"@.len() == 5 && "entry"@[0] == 'e' && "entry"@[1] == 'n',
        "stop_pc"@.len() == 7 && "stop_pc"@[0] == 's' && "stop_pc"@[1] == 't',
        "stop_below"@.len() == 10 && "stop_below"@[0] == 's' && "stop_below"@[1] == 't',
        "exit_above"@.len() == 10 && "exit_above"@[0] == 'e' && "exit_above"@[1] == 'x',
        "snap_start"@.len() == 10 && "snap_start"@[0] == 's' && "snap_start"@[1] == 'n',
        "snap_to"@.len() == 7 && "snap_to"@[0] == 's' && "snap_to"@[1] == 'n',
        "analyze_0100"@.len() == 12 && "analyze_0100"@[0] == 'a' && "analyze_0100"@[1] == 'n',
        "trim_page_overshoot"@.len() == 19 && "trim_page_overshoot"@[0] == 't' && "trim_page_overshoot"@[1] == 'r',
        "exit_into_written"@.len() == 17 && "exit_into_written"@[0] == 'e' && "exit_into_written"@[1] == 'x',
        "exit_quiescent"@.len() == 14 && "exit_quiescent"@[0] == 'e' && "exit_quiescent"@[1] == 'x',
        "byteboozer_ptr"@.len() == 14 && "byteboozer_ptr"@[0] == 'b' && "byteboozer_ptr"@[1] == 'y',
        "byteboozer_end_from_ptr"@.len() == 23 && "byteboozer_end_from_ptr"@[0] == 'b' && "byteboozer_end_from_ptr"@[1] == 'y',
        "byteboozer_name"@.len() == 15 && "byteboozer_name"@[0] == 'b' && "byteboozer_name"@[1] == 'y',
        "use_guess_start"@.len() == 15 && "use_guess_start"@[0] == 'u' && "use_guess_start"@[1] == 's',
        "version"@.len() == 7 && "version"@[0] == 'v' && "version"@[1] == 'e',
        "cap"@.len() == 3 && "cap"@[0] == 'c' && "cap"@[1] == 'a',
{
    reveal_strlit("name");
    reveal_strlit("engine");
    reveal_strlit("detect");
    reveal_strlit("run");
    reveal_strlit("probe");
    reveal_strlit("base");
    reveal_strlit("always");
    reveal_strlit("pattern");
    reveal_strlit("any_of");
    reveal_strlit("entry");
    reveal_strlit("stop_pc");
    reveal_strlit("stop_below");
    reveal_strlit("exit_above");
    reveal_strlit("snap_start");
    reveal_strlit("snap_to");
    reveal_strlit("analyze_0100");
    reveal_strlit("trim_page_overshoot");
    reveal_strlit("exit_into_written");
    reveal_strlit("exit_quiescent");
    reveal_strlit("byteboozer_ptr");
    reveal_strlit("byteboozer_end_from_ptr");
    reveal_strlit("byteboozer_name");
    reveal_strlit("use_guess_start");
    reveal_strlit("version");
    reveal_strlit("cap");
}

proof fn numbers()
    ensures
        all_digits("0801"@, 16) && "0801"@.len() == 4 && spelled("0801"@, 16) == 0x0801,
        all_digits("0800"@, 16) && "0800"@.len() == 4 && spelled("0800"@, 16) == 0x0800,
        all_digits("07FF"@, 16) && "07FF"@.len() == 4 && spelled("07FF"@, 16) == 0x07FF,
        all_digits("500000"@, 10) && "500000"@.len() == 6 && spelled("500000"@, 10) == 500000,
        all_digits("768"@, 10) && "768"@.len() == 3 && spelled("768"@, 10) == 768,
{
    reveal_strlit("0801");
    reveal_strlit("0800");
    reveal_strlit("07FF");
    reveal_strlit("500000");
    reveal_strlit("768");
    reveal_with_fuel(digits_from, 7);
    reveal_with_fuel(spelled, 7);
    four_digits("0801"@);
    four_digits("0800"@);
    four_digits("07FF"@);
    digits_are_all("500000"@, 0, 10);
    digits_are_all("768"@, 0, 10);
    assert("500000"@.drop_last().drop_last().drop_last().drop_last().drop_last().drop_last().len()
        == 0);
    assert("768"@.drop_last().drop_last().drop_last().len() == 0);
}

// ---------------------------------------------------------------------------
// Documents
// ---------------------------------------------------------------------------

/// The lines that the texts of all stub families share; `pattern` and `stop` are the
/// lines that differ.
spec fn stub_lines(
    name: Seq<char>,
    pattern: Seq<char>,
    stop: Seq<char>,
    flags: Seq<Seq<char>>,
) -> Seq<Seq<char>> {
    seq![
        pair_line("name"@, string_value(name)),
        pair_line("engine"@, string_value("generic"@)),
        Seq::empty(),
        section_line("detect"@),
        pair_line("base"@, hex_value("0801"@)),
        pattern,
        pair_line("entry"@, string_value("sys"@)),
        Seq::empty(),
        section_line("run"@),
        stop,
        pair_line("exit_above"@, hex_value("0800"@)),
        pair_line("snap_start"@, hex_value("07FF"@)),
    ] + flags
}

spec fn top_table(name: Seq<char>) -> Seq<(Seq<char>, Val)> {
    seq![("name"@, Val::Str(name)), ("engine"@, Val::Str("generic"@))]
}

spec fn stub_detect(key: Seq<char>, v: Val) -> Seq<(Seq<char>, Val)> {
    seq![("base"@, Val::Int(0x0801)), (key, v), ("entry"@, Val::Str("sys"@))]
}

spec fn stub_run(stops: Val) -> Seq<(Seq<char>, Val)> {
    seq![
        ("stop_pc"@, stops),
        ("exit_above"@, Val::Int(0x0800)),
        ("snap_start"@, Val::Int(0x07FF)),
    ]
}

spec fn two_sections(
    name: Seq<char>,
    detect: Seq<(Seq<char>, Val)>,
    run: Seq<(Seq<char>, Val)>,
) -> Document {
    Document {
        top: top_table(name),
        sections: seq![("detect"@, detect), ("run"@, run)],
        variants: Seq::empty(),
    }
}

/// Wherever it stands, the text is read as the value.
#[verifier::opaque]
spec fn value_is(text: Seq<char>, v: Val) -> bool {
    &&& text.len() > 0
    &&& !is_space(text[0])
    &&& !is_space(text.last())
    &&& is_inline(text)
    &&& forall|ls: Seq<Seq<char>>, n: int, key: Seq<char>| #[trigger]
        valued(ls, n, key, text) == Ok::<(Val, int), Seq<char>>((v, n + 1))
}

/// What the lines from `n` on make of a document.
#[verifier::opaque]
spec fn reading(
    ls: Seq<Seq<char>>,
    n: int,
    source: Seq<char>,
    d: Document,
    place: Place,
) -> Result<Document, Seq<char>> {
    read_from(ls, n, source, d, place)
}

proof fn blank_line(ls: Seq<Seq<char>>, n: int, source: Seq<char>, d: Document, place: Place)
    requires
        0 <= n < ls.len(),
        ls[n].len() == 0,
    ensures
        reading(ls, n, source, d, place) == reading(ls, n + 1, source, d, place),
{
    reveal(reading);
    blank_is_skipped(ls, n, source, d, place);
}

proof fn header_line(
    ls: Seq<Seq<char>>,
    n: int,
    source: Seq<char>,
    d: Document,
    place: Place,
    name: Seq<char>,
)
    requires
        0 <= n < ls.len(),
        ls[n] == section_line(name),
        is_key(name),
    ensures
        reading(ls, n, source, d, place) == reading(
            ls,
            n + 1,
            source,
            Document { sections: d.sections.push((name, Seq::empty())), ..d },
            Place::Section,
        ),
{
    reveal(reading);
    section_is_read(ls, n, source, d, place, name);
}

proof fn value_line(
    ls: Seq<Seq<char>>,
    n: int,
    source: Seq<char>,
    d: Document,
    place: Place,
    key: Seq<char>,
    text: Seq<char>,
    v: Val,
)
    requires
        0 <= n < ls.len(),
        ls[n] == pair_line(key, text),
        is_key(key),
        value_is(text, v),
    ensures
        reading(ls, n, source, d, place) == reading(
            ls,
            n + 1,
            source,
            with_pair(d, place, key, v),
            place,
        ),
{
    reveal(reading);
    reveal(value_is);
    assert(valued(ls, n, key, text) == Ok::<(Val, int), Seq<char>>((v, n + 1)));
    pair_is_read(ls, n, source, d, place, key, text, v);
}

proof fn string_line(
    ls: Seq<Seq<char>>,
    n: int,
    source: Seq<char>,
    d: Document,
    place: Place,
    key: Seq<char>,
    s: Seq<char>,
)
    requires
        0 <= n < ls.len(),
        ls[n] == pair_line(key, string_value(s)),
        is_key(key),
        is_plain_text(s),
    ensures
        reading(ls, n, source, d, place) == reading(
            ls,
            n + 1,
            source,
            with_pair(d, place, key, Val::Str(s)),
            place,
        ),
{
    reveal(reading);
    string_is_read(ls, n, key, s);
    pair_is_read(ls, n, source, d, place, key, string_value(s), Val::Str(s));
}

proof fn hex_line(
    ls: Seq<Seq<char>>,
    n: int,
    source: Seq<char>,
    d: Document,
    place: Place,
    key: Seq<char>,
    digits: Seq<char>,
)
    requires
        0 <= n < ls.len(),
        ls[n] == pair_line(key, hex_value(digits)),
        is_key(key),
        digits.len() > 0,
        all_digits(digits, 16),
        0 <= spelled(digits, 16) <= 0xFFFF,
    ensures
        reading(ls, n, source, d, place) == reading(
            ls,
            n + 1,
            source,
            with_pair(d, place, key, Val::Int(spelled(digits, 16) as i64)),
            place,
        ),
{
    reveal(reading);
    hex_is_read(ls, n, key, digits);
    pair_is_read(
        ls,
        n,
        source,
        d,
        place,
        key,
        hex_value(digits),
        Val::Int(spelled(digits, 16) as i64),
    );
}

proof fn flag_line(
    ls: Seq<Seq<char>>,
    n: int,
    source: Seq<char>,
    d: Document,
    place: Place,
    key: Seq<char>,
)
    requires
        0 <= n < ls.len(),
        ls[n] == pair_line(key, "true"@),
        is_key(key),
    ensures
        reading(ls, n, source, d, place) == reading(
            ls,
            n + 1,
            source,
            with_pair(d, place, key, Val::Bool(true)),
            place,
        ),
{
    reveal(reading);
    true_is_read(ls, n, key);
    pair_is_read(ls, n, source, d, place, key, "true"@, Val::Bool(true));
}

/// The document of a stub family, up to the flags.
proof fn stub_document(
    name: Seq<char>,
    key: Seq<char>,
    pattern: Seq<char>,
    v: Val,
    stop: Seq<char>,
    stops: Val,
    flags: Seq<Seq<char>>,
    source: Seq<char>,
)
    requires
        is_plain_text(name),
        is_key(key),
        value_is(pattern, v),
        value_is(stop, stops),
    ensures
        ({
            let ls = stub_lines(name, pair_line(key, pattern), pair_line("stop_pc"@, stop), flags);
            reading(ls, 0, source, empty_document(), Place::Top) == reading(
                ls,
                12,
                source,
                two_sections(name, stub_detect(key, v), stub_run(stops)),
                Place::Section,
            )
        }),
{
    let ls = stub_lines(name, pair_line(key, pattern), pair_line("stop_pc"@, stop), flags);
    keys();
    numbers();
    let d0 = empty_document();
    string_line(ls, 0, source, d0, Place::Top, "name"@, name);
    let d1 = with_pair(d0, Place::Top, "name"@, Val::Str(name));
    string_line(ls, 1, source, d1, Place::Top, "engine"@, "generic"@);
    let d2 = with_pair(d1, Place::Top, "engine"@, Val::Str("generic"@));
    blank_line(ls, 2, source, d2, Place::Top);
    header_line(ls, 3, source, d2, Place::Top, "detect"@);
    let d3 = Document { sections: d2.sections.push(("detect"@, Seq::empty())), ..d2 };
    hex_line(ls, 4, source, d3, Place::Section, "base"@, "0801"@);
    let d4 = with_pair(d3, Place::Section, "base"@, Val::Int(0x0801));
    value_line(ls, 5, source, d4, Place::Section, key, pattern, v);
    let d5 = with_pair(d4, Place::Section, key, v);
    string_line(ls, 6, source, d5, Place::Section, "entry"@, "sys"@);
    let d6 = with_pair(d5, Place::Section, "entry"@, Val::Str("sys"@));
    blank_line(ls, 7, source, d6, Place::Section);
    header_line(ls, 8, source, d6, Place::Section, "run"@);
    let d7 = Document { sections: d6.sections.push(("run"@, Seq::empty())), ..d6 };
    value_line(ls, 9, source, d7, Place::Section, "stop_pc"@, stop, stops);
    let d8 = with_pair(d7, Place::Section, "stop_pc"@, stops);
    hex_line(ls, 10, source, d8, Place::Section, "exit_above"@, "0800"@);
    let d9 = with_pair(d8, Place::Section, "exit_above"@, Val::Int(0x0800));
    hex_line(ls, 11, source, d9, Place::Section, "snap_start"@, "07FF"@);
    let d10 = with_pair(d9, Place::Section, "snap_start"@, Val::Int(0x07FF));
    let goal = two_sections(name, stub_detect(key, v), stub_run(stops));
    assert(d10.top =~= goal.top);
    assert(d6.sections =~= seq![("detect"@, stub_detect(key, v))]) by {
        assert(d3.sections =~= seq![("detect"@, Seq::<(Seq<char>, Val)>::empty())]);
        assert(d6.sections[0].1 =~= stub_detect(key, v));
    }
    assert(d10.sections.last().1 =~= stub_run(stops));
    assert(d10.sections =~= goal.sections);
    assert(d10.variants =~= goal.variants);
}

// ---------------------------------------------------------------------------
// Definitions
// ---------------------------------------------------------------------------

/// What comes behind a table does not hide what the table holds.
proof fn lookup_in_front(
    a: Seq<(Seq<char>, Val)>,
    b: Seq<(Seq<char>, Val)>,
    key: Seq<char>,
)
    ensures
        lookup(a + b, key) == match lookup(a, key) {
            Some(v) => Some(v),
            None => lookup(b, key),
        },
    decreases a.len(),
{
    if a.len() == 0 {
        assert(a + b =~= b);
    } else {
        assert((a + b).skip(1) =~= a.skip(1) + b);
        lookup_in_front(a.skip(1), b, key);
    }
}

/// The values of a table with three entries.
proof fn lookup_of_three(t: Seq<(Seq<char>, Val)>, key: Seq<char>)
    requires
        t.len() == 3,
    ensures
        lookup(t, key) == if t[0].0 == key {
            Some(t[0].1)
        } else if t[1].0 == key {
            Some(t[1].1)
        } else if t[2].0 == key {
            Some(t[2].1)
        } else {
            None
        },
{
    reveal_with_fuel(lookup, 4);
}

/// The value of a table with at most one entry.
proof fn lookup_of_one(t: Seq<(Seq<char>, Val)>, key: Seq<char>)
    requires
        t.len() <= 1,
    ensures
        lookup(t, key) == if t.len() == 1 && t[0].0 == key {
            Some(t[0].1)
        } else {
            None
        },
{
    reveal_with_fuel(lookup, 2);
}

proof fn stub_lookup(stops: Val, flags: Seq<(Seq<char>, Val)>, key: Seq<char>)
    requires
        flags.len() <= 1,
    ensures
        lookup(stub_run(stops) + flags, key) == if key == "stop_pc"@ {
            Some(stops)
        } else if key == "exit_above"@ {
            Some(Val::Int(0x0800))
        } else if key == "snap_start"@ {
            Some(Val::Int(0x07FF))
        } else if flags.len() == 1 && key == flags[0].0 {
            Some(flags[0].1)
        } else {
            None
        },
{
    lookup_in_front(stub_run(stops), flags, key);
    lookup_of_three(stub_run(stops), key);
    lookup_of_one(flags, key);
    initials();
}

spec fn is_flag_table(flags: Seq<(Seq<char>, Val)>) -> bool {
    ||| flags.len() == 0
    ||| flags == seq![("analyze_0100"@, Val::Bool(true))]
    ||| flags == seq![("use_guess_start"@, Val::Bool(true))]
}

spec fn reads_stops(stops: Val, stop_pc: Seq<u16>) -> bool {
    forall|t: Seq<(Seq<char>, Val)>, ctx: Seq<char>|
        lookup(t, "stop_pc"@) == Some(stops) ==> #[trigger] u16_list_value(t, "stop_pc"@, ctx)
            == Ok::<Seq<u16>, Seq<char>>(stop_pc)
}

proof fn stub_parameters(
    stops: Val,
    stop_pc: Seq<u16>,
    flags: Seq<(Seq<char>, Val)>,
    ctx: Seq<char>,
)
    requires
        is_flag_table(flags),
        reads_stops(stops, stop_pc),
    ensures
        parameters(stub_run(stops) + flags, ctx) == Ok::<Params, Seq<char>>(
            Params {
                stop_pc,
                snap_start: seq![0x07FFu16],
                analyze_0100: flags.len() > 0 && flags[0].0 == "analyze_0100"@,
                use_guess_start: flags.len() > 0 && flags[0].0 == "use_guess_start"@,
                ..default_params()
            },
        ),
{
    let t = stub_run(stops) + flags;
    reveal(parameters);
    initials();
    stub_lookup(stops, flags, "stop_pc"@);
    stub_lookup(stops, flags, "stop_below"@);
    stub_lookup(stops, flags, "exit_above"@);
    stub_lookup(stops, flags, "snap_start"@);
    stub_lookup(stops, flags, "snap_to"@);
    stub_lookup(stops, flags, "analyze_0100"@);
    stub_lookup(stops, flags, "trim_page_overshoot"@);
    stub_lookup(stops, flags, "exit_into_written"@);
    stub_lookup(stops, flags, "exit_quiescent"@);
    stub_lookup(stops, flags, "byteboozer_ptr"@);
    stub_lookup(stops, flags, "byteboozer_end_from_ptr"@);
    stub_lookup(stops, flags, "byteboozer_name"@);
    stub_lookup(stops, flags, "use_guess_start"@);
    stub_lookup(stops, flags, "version"@);
    stub_lookup(stops, flags, "cap"@);
    assert(lookup(t, "stop_pc"@) == Some(stops));
    assert(lookup(t, "exit_above"@) == Some(Val::Int(0x0800)));
    assert(lookup(t, "snap_start"@) == Some(Val::Int(0x07FF)));
    assert(lookup(t, "stop_below"@) is None);
    assert(lookup(t, "snap_to"@) is None);
    assert(lookup(t, "trim_page_overshoot"@) is None);
    assert(lookup(t, "exit_into_written"@) is None);
    assert(lookup(t, "exit_quiescent"@) is None);
    assert(lookup(t, "byteboozer_ptr"@) is None);
    assert(lookup(t, "byteboozer_end_from_ptr"@) is None);
    assert(lookup(t, "byteboozer_name"@) is None);
    assert(lookup(t, "version"@) is None);
    assert(lookup(t, "cap"@) is None);
    assert(u16_list_value(t, "stop_pc"@, ctx) == Ok::<Seq<u16>, Seq<char>>(stop_pc));
    assert(u16_list_value(t, "snap_start"@, ctx) == Ok::<Seq<u16>, Seq<char>>(seq![0x07FFu16]));
    assert(parameters(t, ctx) is Ok);
    assert(parameters(t, ctx)->Ok_0.analyze_0100 == (flags.len() > 0 && flags[0].0
        == "analyze_0100"@));
    assert(parameters(t, ctx)->Ok_0.use_guess_start == (flags.len() > 0 && flags[0].0
        == "use_guess_start"@));
}

// ---------------------------------------------------------------------------
// Patterns
// ---------------------------------------------------------------------------

/// The text of a pattern for a jump.
spec fn jump_text(lo: Seq<char>, hi: Seq<char>) -> Seq<char> {
    (seq!['*'] + "768"@).push(' ') + ("4C"@.push(' ') + (lo.push(' ') + hi))
}

spec fn is_byte(w: Seq<char>) -> bool {
    w.len() == 2 && digit_value(w[0]) < 16 && digit_value(w[1]) < 16
}

spec fn byte_of(w: Seq<char>) -> u8 {
    (digit_value(w[0]) * 16 + digit_value(w[1])) as u8
}

proof fn jump_is_plain(lo: Seq<char>, hi: Seq<char>)
    requires
        is_byte(lo),
        is_byte(hi),
    ensures
        is_plain_text(jump_text(lo, hi)),
{
    let s = jump_text(lo, hi);
    numbers();
    reveal_strlit("768");
    reveal_strlit("4C");
    assert("4C"@.len() == 2 && "4C"@[0] == '4' && "4C"@[1] == 'C');
    assert("768"@[0] == '7' && "768"@[1] == '6' && "768"@[2] == '8');
    assert(s.len() == 13);
    assert(s[0] == '*' && s[1] == '7' && s[2] == '6' && s[3] == '8' && s[4] == ' ' && s[5] == '4'
        && s[6] == 'C' && s[7] == ' ' && s[10] == ' ');
    assert(s[8] == lo[0] && s[9] == lo[1] && s[11] == hi[0] && s[12] == hi[1]);
    reveal_with_fuel(plain_from, 14);
    assert(plain_from(s, 0));
    plain_text(s, 0);
}

proof fn jump_is_read(lo: Seq<char>, hi: Seq<char>)
    requires
        is_byte(lo),
        is_byte(hi),
    ensures
        parsed_pattern(jump_text(lo, hi)) == Ok::<Seq<Tok>, Seq<char>>(
            jump_pattern(byte_of(lo), byte_of(hi)),
        ),
{
    let gap = seq!['*'] + "768"@;
    let op = "4C"@;
    numbers();
    reveal_strlit("4C");
    assert(op.len() == 2 && op[0] == '4' && op[1] == 'C');
    gap_token_is_read("768"@);
    byte_token_is_read(op);
    byte_token_is_read(lo);
    byte_token_is_read(hi);
    next_word(gap, op.push(' ') + (lo.push(' ') + hi));
    next_word(op, lo.push(' ') + hi);
    next_word(lo, hi);
    next_word(hi, Seq::empty());
    let ws = words(jump_text(lo, hi));
    assert(ws =~= seq![gap, op, lo, hi]);
    let w3 = ws.drop_last();
    let w2 = w3.drop_last();
    let w1 = w2.drop_last();
    assert(w1.drop_last().len() == 0);
    assert(ws.last() == hi && w3.last() == lo && w2.last() == op && w1.last() == gap);
    assert(tokens(w1.drop_last()) == Ok::<Seq<Tok>, Seq<char>>(Seq::empty()));
    assert(tokens(w1) == Ok::<Seq<Tok>, Seq<char>>(Seq::empty().push(Tok::Gap(768))));
    assert(tokens(w2) is Ok && tokens(w3) is Ok && tokens(ws) is Ok);
    assert(tokens(ws)->Ok_0 =~= jump_pattern(byte_of(lo), byte_of(hi)));
}

proof fn one_pattern(p: Seq<char>, toks: Seq<Tok>, ctx: Seq<char>)
    requires
        parsed_pattern(p) == Ok::<Seq<Tok>, Seq<char>>(toks),
    ensures
        signature(stub_detect("pattern"@, Val::Str(p)), ctx) == Ok::<Signature, Seq<char>>(
            Signature { base: 0x0801, always: false, patterns: seq![toks], entry: Entry::Sys },
        ),
{
    let t = stub_detect("pattern"@, Val::Str(p));
    reveal(signature);
    initials();
    lookup_of_three(t, "base"@);
    lookup_of_three(t, "always"@);
    lookup_of_three(t, "pattern"@);
    lookup_of_three(t, "any_of"@);
    lookup_of_three(t, "entry"@);
    assert(alternatives(t) == Seq::<Seq<char>>::empty());
    assert(alternative_patterns(alternatives(t), ctx) == Ok::<Seq<Seq<Tok>>, Seq<char>>(
        Seq::empty(),
    ));
    assert(seq![toks] + Seq::<Seq<Tok>>::empty() =~= seq![toks]);
}

proof fn two_patterns(p: Seq<char>, q: Seq<char>, pt: Seq<Tok>, qt: Seq<Tok>, ctx: Seq<char>)
    requires
        parsed_pattern(p) == Ok::<Seq<Tok>, Seq<char>>(pt),
        parsed_pattern(q) == Ok::<Seq<Tok>, Seq<char>>(qt),
    ensures
        signature(stub_detect("any_of"@, Val::StrArr(seq![p, q])), ctx) == Ok::<
            Signature,
            Seq<char>,
        >(Signature { base: 0x0801, always: false, patterns: seq![pt, qt], entry: Entry::Sys }),
{
    let list = seq![p, q];
    let t = stub_detect("any_of"@, Val::StrArr(list));
    reveal(signature);
    initials();
    lookup_of_three(t, "base"@);
    lookup_of_three(t, "always"@);
    lookup_of_three(t, "pattern"@);
    lookup_of_three(t, "any_of"@);
    lookup_of_three(t, "entry"@);
    assert(alternatives(t) == list);
    assert(list.drop_last() =~= seq![p]);
    assert(seq![p].drop_last() =~= Seq::empty());
    reveal_with_fuel(alternative_patterns, 3);
    assert(alternative_patterns(list, ctx) is Ok);
    assert(alternative_patterns(list, ctx)->Ok_0 =~= seq![pt, qt]);
}

/// What a document of two sections defines.
proof fn two_section_definition(
    name: Seq<char>,
    detect: Seq<(Seq<char>, Val)>,
    run: Seq<(Seq<char>, Val)>,
    sig: Signature,
    params: Params,
    source: Seq<char>,
)
    requires
        signature(detect, source) == Ok::<Signature, Seq<char>>(sig),
        sig.entry == Entry::Sys,
        parameters(run, source) == Ok::<Params, Seq<char>>(params),
    ensures
        definition(two_sections(name, detect, run), source) == Ok::<Definition, Seq<char>>(
            Definition {
                source,
                name,
                engine: EngineKind::Generic,
                detect: sig,
                probe: None,
                run: params,
                variants: Seq::empty(),
            },
        ),
{
    let d = two_sections(name, detect, run);
    reveal(definition);
    initials();
    reveal_with_fuel(lookup, 3);
    reveal_with_fuel(section, 3);
    assert(lookup(d.top, "name"@) == Some(Val::Str(name)));
    assert(lookup(d.top, "engine"@) == Some(Val::Str("generic"@)));
    assert(section(d.sections, "detect"@) == Some(detect));
    assert(section(d.sections, "run"@) == Some(run));
    assert(section(d.sections, "probe"@) is None);
}

// ---------------------------------------------------------------------------
// The built-in texts
// ---------------------------------------------------------------------------

/// No flag, or a single one.
spec fn flag_lines(flag: Option<Seq<char>>) -> Seq<Seq<char>> {
    match flag {
        None => Seq::empty(),
        Some(key) => seq![pair_line(key, "true"@)],
    }
}

spec fn flag_table(flag: Option<Seq<char>>) -> Seq<(Seq<char>, Val)> {
    match flag {
        None => Seq::empty(),
        Some(key) => seq![(key, Val::Bool(true))],
    }
}

// What the texts of all stub families share: the lines up to the pattern, those up to
// the stub address, and those behind it.

spec fn detect_text() -> Seq<char> {
    "engine = \"generic\"\n\n[detect]\nbase = 0x0801\n"@
}

spec fn detect_lines() -> Seq<Seq<char>> {
    seq![
        pair_line("engine"@, string_value("generic"@)),
        Seq::empty(),
        section_line("detect"@),
        pair_line("base"@, hex_value("0801"@)),
    ]
}

proof fn detect_is_written()
    ensures
        spells(detect_text(), 0, detect_lines(), 0),
{
    let s = detect_text();
    let ls = detect_lines();
    reveal_strlit("engine = \"generic\"\n\n[detect]\nbase = 0x0801\n");
    assert(s.len() == 43);
    assert(line_at(s, 0, ls[0]) && ls[0].len() == 18) by {
        reveal_strlit("engine");
        reveal_strlit("generic");
        reveal_with_fuel(stands_at, 19);
        line_found(s, 0, ls[0]);
    }
    assert(line_at(s, 19, ls[1])) by {
        line_found(s, 19, ls[1]);
    }
    assert(line_at(s, 20, ls[2]) && ls[2].len() == 8) by {
        reveal_strlit("detect");
        reveal_with_fuel(stands_at, 9);
        line_found(s, 20, ls[2]);
    }
    assert(line_at(s, 29, ls[3]) && ls[3].len() == 13) by {
        reveal_strlit("base");
        reveal_strlit("0801");
        reveal_with_fuel(stands_at, 14);
        line_found(s, 29, ls[3]);
    }
    reveal_with_fuel(spells, 5);
}

spec fn entry_text() -> Seq<char> {
    "entry = \"sys\"\n\n[run]\n"@
}

spec fn entry_lines() -> Seq<Seq<char>> {
    seq![
        pair_line("entry"@, string_value("sys"@)),
        Seq::empty(),
        section_line("run"@),
    ]
}

proof fn entry_is_written()
    ensures
        spells(entry_text(), 0, entry_lines(), 0),
{
    let s = entry_text();
    let ls = entry_lines();
    reveal_strlit("entry = \"sys\"\n\n[run]\n");
    assert(s.len() == 21);
    assert(line_at(s, 0, ls[0]) && ls[0].len() == 13) by {
        reveal_strlit("entry");
        reveal_strlit("sys");
        reveal_with_fuel(stands_at, 14);
        line_found(s, 0, ls[0]);
    }
    assert(line_at(s, 14, ls[1])) by {
        line_found(s, 14, ls[1]);
    }
    assert(line_at(s, 15, ls[2]) && ls[2].len() == 5) by {
        reveal_strlit("run");
        reveal_with_fuel(stands_at, 6);
        line_found(s, 15, ls[2]);
    }
    reveal_with_fuel(spells, 4);
}

spec fn exit_text() -> Seq<char> {
    "exit_above = 0x0800\nsnap_start = 0x07FF\n"@
}

spec fn exit_lines() -> Seq<Seq<char>> {
    seq![
        pair_line("exit_above"@, hex_value("0800"@)),
        pair_line("snap_start"@, hex_value("07FF"@)),
    ]
}

proof fn exit_is_written()
    ensures
        spells(exit_text(), 0, exit_lines(), 0),
{
    let s = exit_text();
    let ls = exit_lines();
    reveal_strlit("exit_above = 0x0800\nsnap_start = 0x07FF\n");
    assert(s.len() == 40);
    assert(line_at(s, 0, ls[0]) && ls[0].len() == 19) by {
        reveal_strlit("exit_above");
        reveal_strlit("0800");
        reveal_with_fuel(stands_at, 20);
        line_found(s, 0, ls[0]);
    }
    assert(line_at(s, 20, ls[1]) && ls[1].len() == 19) by {
        reveal_strlit("snap_start");
        reveal_strlit("07FF");
        reveal_with_fuel(stands_at, 20);
        line_found(s, 20, ls[1]);
    }
    reveal_with_fuel(spells, 3);
}

spec fn flag_text(flag: Option<Seq<char>>) -> Seq<char> {
    match flag {
        None => Seq::empty(),
        Some(key) => pair_line(key, "true"@).push('\n'),
    }
}

/// The text of a stub family.
spec fn stub_text(
    name: Seq<char>,
    pattern: Seq<char>,
    stop: Seq<char>,
    flag: Option<Seq<char>>,
) -> Seq<char> {
    pair_line("name"@, string_value(name)).push('\n') + (detect_text() + (pattern.push('\n') + (
    entry_text() + (stop.push('\n') + (exit_text() + flag_text(flag))))))
}

proof fn pair_stays_on_its_line(key: Seq<char>, value: Seq<char>)
    requires
        is_key(key),
        is_inline(value),
    ensures
        is_inline(pair_line(key, value)),
{
    let line = pair_line(key, value);
    assert forall|k: int| 0 <= k < line.len() implies is_inline_char(#[trigger] line[k]) by {
        if k < key.len() {
            assert(is_plain(key[k]));
        } else if k >= key.len() + 3 {
            assert(is_inline_char(value[k - key.len() - 3]));
        }
    }
}

proof fn inline_line(line: Seq<char>, rest: Seq<char>)
    requires
        is_inline(line),
    ensures
        lines(line.push('\n') + rest) == seq![line] + lines(rest),
{
    assert forall|i: int| 0 <= i < line.len() implies line[i] != '\n' && line[i] != '\r' by {
        assert(is_inline_char(line[i]));
    }
    first_line(line, rest);
}

/// The lines of the text of a stub family, whatever its name, pattern and address.
proof fn stub_text_lines(
    name: Seq<char>,
    pattern: Seq<char>,
    stop: Seq<char>,
    flag: Option<Seq<char>>,
)
    requires
        is_plain_text(name),
        is_inline(pattern),
        is_inline(stop),
        flag matches Some(key) ==> is_key(key),
    ensures
        lines(stub_text(name, pattern, stop, flag)) == stub_lines(
            name,
            pattern,
            stop,
            flag_lines(flag),
        ),
{
    let first = pair_line("name"@, string_value(name));
    let r5 = flag_text(flag);
    let r4 = exit_text() + r5;
    let r3 = entry_text() + (stop.push('\n') + r4);
    let r2 = detect_text() + (pattern.push('\n') + r3);
    keys();
    string_is_read(Seq::empty(), 0, Seq::empty(), name);
    pair_stays_on_its_line("name"@, string_value(name));
    detect_is_written();
    entry_is_written();
    exit_is_written();
    inline_line(first, r2);
    block_lines(detect_text(), detect_lines(), pattern.push('\n') + r3);
    inline_line(pattern, r3);
    block_lines(entry_text(), entry_lines(), stop.push('\n') + r4);
    inline_line(stop, r4);
    block_lines(exit_text(), exit_lines(), r5);
    assert(lines(r5) =~= flag_lines(flag)) by {
        match flag {
            None => {},
            Some(key) => {
                true_is_read(Seq::empty(), 0, Seq::empty());
                pair_stays_on_its_line(key, "true"@);
                inline_line(pair_line(key, "true"@), Seq::empty());
                assert(r5 + Seq::<char>::empty() =~= r5);
                assert(lines(Seq::<char>::empty()) =~= Seq::empty());
            },
        }
    }
    assert(lines(stub_text(name, pattern, stop, flag)) =~= stub_lines(
        name,
        pattern,
        stop,
        flag_lines(flag),
    ));
}

/// A text with the lines of a stub family loads as its definition.
proof fn stub_loads(
    text: Seq<char>,
    source: Seq<char>,
    name: Seq<char>,
    key: Seq<char>,
    pattern: Seq<char>,
    v: Val,
    patterns: Seq<Seq<Tok>>,
    stop: Seq<char>,
    stops: Val,
    stop_pc: Seq<u16>,
    flag: Option<Seq<char>>,
)
    requires
        text == stub_text(name, pair_line(key, pattern), pair_line("stop_pc"@, stop), flag),
        is_plain_text(name),
        is_key(key),
        value_is(pattern, v),
        signature(stub_detect(key, v), source) == Ok::<Signature, Seq<char>>(
            Signature { base: 0x0801, always: false, patterns, entry: Entry::Sys },
        ),
        value_is(stop, stops),
        reads_stops(stops, stop_pc),
        flag matches Some(k) ==> k == "analyze_0100"@ || k == "use_guess_start"@,
    ensures
        loaded_config(text, source) == Ok::<Definition, Seq<char>>(
            stub_definition(
                source,
                name,
                patterns,
                stop_pc,
                flag == Some("analyze_0100"@),
                flag == Some("use_guess_start"@),
            ),
        ),
{
    let ls = stub_lines(
        name,
        pair_line(key, pattern),
        pair_line("stop_pc"@, stop),
        flag_lines(flag),
    );
    keys();
    assert(is_inline(pair_line(key, pattern)) && is_inline(pair_line("stop_pc"@, stop))) by {
        reveal(value_is);
        pair_stays_on_its_line(key, pattern);
        pair_stays_on_its_line("stop_pc"@, stop);
    }
    stub_text_lines(name, pair_line(key, pattern), pair_line("stop_pc"@, stop), flag);
    stub_document(
        name,
        key,
        pattern,
        v,
        stop,
        stops,
        flag_lines(flag),
        source,
    );
    let detect = stub_detect(key, v);
    let run = stub_run(stops) + flag_table(flag);
    let d = two_sections(name, detect, stub_run(stops));
    let whole = two_sections(name, detect, run);
    if flag is Some {
        flag_line(ls, 12, source, d, Place::Section, flag->0);
        let e = with_pair(d, Place::Section, flag->0, Val::Bool(true));
        assert(e.sections.last().1 =~= run);
        assert(e.sections =~= whole.sections);
        assert(e == whole);
    } else {
        assert(stub_run(stops) + flag_table(flag) =~= stub_run(stops));
    }
    assert(document(text, source) == Ok::<Document, Seq<char>>(whole)) by {
        reveal(reading);
    }
    initials();
    stub_parameters(stops, stop_pc, flag_table(flag), source);
    two_section_definition(
        name,
        detect,
        run,
        signature(detect, source)->Ok_0,
        parameters(run, source)->Ok_0,
        source,
    );
}

/// The text for a single address.
spec fn single_stub_text(
    name: Seq<char>,
    lo: Seq<char>,
    hi: Seq<char>,
    digits: Seq<char>,
    flag: Option<Seq<char>>,
) -> Seq<char> {
    stub_text(
        name,
        pair_line("pattern"@, string_value(jump_text(lo, hi))),
        pair_line("stop_pc"@, hex_value(digits)),
        flag,
    )
}

/// A text for a single address loads as its definition.
proof fn single_stub_loads(
    text: Seq<char>,
    source: Seq<char>,
    name: Seq<char>,
    lo: Seq<char>,
    hi: Seq<char>,
    digits: Seq<char>,
    flag: Option<Seq<char>>,
)
    requires
        text == single_stub_text(name, lo, hi, digits, flag),
        plain_from(name, 0),
        is_byte(lo),
        is_byte(hi),
        digits.len() == 4,
        digits_from(digits, 0, 16),
        flag matches Some(k) ==> k == "use_guess_start"@,
    ensures
        loaded_config(text, source) == Ok::<Definition, Seq<char>>(
            stub_definition(
                source,
                name,
                seq![jump_pattern(byte_of(lo), byte_of(hi))],
                seq![spelled(digits, 16) as u16],
                false,
                flag is Some,
            ),
        ),
{
    let p = jump_text(lo, hi);
    let stops = Val::Int(spelled(digits, 16) as i64);
    let stop_pc = seq![spelled(digits, 16) as u16];
    plain_text(name, 0);
    keys();
    initials();
    jump_is_plain(lo, hi);
    jump_is_read(lo, hi);
    one_pattern(p, jump_pattern(byte_of(lo), byte_of(hi)), source);
    four_digits(digits);
    assert(value_is(string_value(p), Val::Str(p))) by {
        reveal(value_is);
        string_is_read(Seq::empty(), 0, Seq::empty(), p);
        assert forall|ls: Seq<Seq<char>>, n: int, key: Seq<char>| #[trigger]
            valued(ls, n, key, string_value(p)) == Ok::<(Val, int), Seq<char>>(
                (Val::Str(p), n + 1),
            ) by {
            string_is_read(ls, n, key, p);
        }
    }
    assert(value_is(hex_value(digits), stops)) by {
        reveal(value_is);
        hex_is_read(Seq::empty(), 0, Seq::empty(), digits);
        assert forall|ls: Seq<Seq<char>>, n: int, key: Seq<char>| #[trigger]
            valued(ls, n, key, hex_value(digits)) == Ok::<(Val, int), Seq<char>>((stops, n + 1)) by {
            hex_is_read(ls, n, key, digits);
        }
    }
    assert(reads_stops(stops, stop_pc));
    stub_loads(
        text,
        source,
        name,
        "pattern"@,
        string_value(p),
        Val::Str(p),
        seq![jump_pattern(byte_of(lo), byte_of(hi))],
        hex_value(digits),
        stops,
        stop_pc,
        flag,
    );
}

#[verifier::rlimit(40)]
proof fn jmp_0010_loads(source: Seq<char>)
    ensures
        loaded_config(JMP_0010@, source) == Ok::<Definition, Seq<char>>(
            stub_definition(
                source,
                "Generic at $0010"@,
                seq![jump_pattern(0x10, 0x00)],
                seq![0x0010u16],
                false,
                false,
            ),
        ),
{
    let t = single_stub_text("Generic at $0010"@, "10"@, "00"@, "0010"@, None);
    reveal_strlit(
        r#"name = "Generic at $0010"
engine = "generic"

[detect]
base = 0x0801
pattern = "*768 4C 10 00"
entry = "sys"

[run]
stop_pc = 0x0010
exit_above = 0x0800
snap_start = 0x07FF
"#,
    );
    reveal_strlit("Generic at $0010");
    reveal_strlit("10");
    reveal_strlit("00");
    reveal_strlit("0010");
    assert(JMP_0010@ =~= t) by {
        reveal_strlit("engine = \"generic\"\n\n[detect]\nbase = 0x0801\n");
        reveal_strlit("entry = \"sys\"\n\n[run]\n");
        reveal_strlit("exit_above = 0x0800\nsnap_start = 0x07FF\n");
        reveal_strlit("name");
        reveal_strlit("pattern");
        reveal_strlit("768");
        reveal_strlit("4C");
        reveal_strlit("stop_pc");
        reveal_with_fuel(same_from, 41);
        assert(t.len() == 173);
        assert(same_from(JMP_0010@, t, 160));
        assert(same_from(JMP_0010@, t, 120));
        assert(same_from(JMP_0010@, t, 80));
        assert(same_from(JMP_0010@, t, 40));
        assert(same_from(JMP_0010@, t, 0));
        same_characters(JMP_0010@, t, 0);
    }
    reveal_with_fuel(plain_from, 17);
    reveal_with_fuel(digits_from, 5);
    four_digits("0010"@);
    single_stub_loads(JMP_0010@, source, "Generic at $0010"@, "10"@, "00"@, "0010"@, None);
}

#[verifier::rlimit(40)]
proof fn jmp_0008_loads(source: Seq<char>)
    ensures
        loaded_config(JMP_0008@, source) == Ok::<Definition, Seq<char>>(
            stub_definition(
                source,
                "Generic at $0008"@,
                seq![jump_pattern(0x08, 0x00)],
                seq![0x0008u16],
                false,
                false,
            ),
        ),
{
    let t = single_stub_text("Generic at $0008"@, "08"@, "00"@, "0008"@, None);
    reveal_strlit(
        r#"name = "Generic at $0008"
engine = "generic"

[detect]
base = 0x0801
pattern = "*768 4C 08 00"
entry = "sys"

[run]
stop_pc = 0x0008
exit_above = 0x0800
snap_start = 0x07FF
"#,
    );
    reveal_strlit("Generic at $0008");
    reveal_strlit("08");
    reveal_strlit("00");
    reveal_strlit("0008");
    assert(JMP_0008@ =~= t) by {
        reveal_strlit("engine = \"generic\"\n\n[detect]\nbase = 0x0801\n");
        reveal_strlit("entry = \"sys\"\n\n[run]\n");
        reveal_strlit("exit_above = 0x0800\nsnap_start = 0x07FF\n");
        reveal_strlit("name");
        reveal_strlit("pattern");
        reveal_strlit("768");
        reveal_strlit("4C");
        reveal_strlit("stop_pc");
        reveal_with_fuel(same_from, 41);
        assert(t.len() == 173);
        assert(same_from(JMP_0008@, t, 160));
        assert(same_from(JMP_0008@, t, 120));
        assert(same_from(JMP_0008@, t, 80));
        assert(same_from(JMP_0008@, t, 40));
        assert(same_from(JMP_0008@, t, 0));
        same_characters(JMP_0008@, t, 0);
    }
    reveal_with_fuel(plain_from, 17);
    reveal_with_fuel(digits_from, 5);
    four_digits("0008"@);
    single_stub_loads(JMP_0008@, source, "Generic at $0008"@, "08"@, "00"@, "0008"@, None);
}

#[verifier::rlimit(40)]
proof fn jmp_0334_loads(source: Seq<char>)
    ensures
        loaded_config(JMP_0334@, source) == Ok::<Definition, Seq<char>>(
            stub_definition(
                source,
                "Generic at $0334"@,
                seq![jump_pattern(0x34, 0x03)],
                seq![0x0334u16],
                false,
                false,
            ),
        ),
{
    let t = single_stub_text("Generic at $0334"@, "34"@, "03"@, "0334"@, None);
    reveal_strlit(
        r#"name = "Generic at $0334"
engine = "generic"

[detect]
base = 0x0801
pattern = "*768 4C 34 03"
entry = "sys"

[run]
stop_pc = 0x0334
exit_above = 0x0800
snap_start = 0x07FF
"#,
    );
    reveal_strlit("Generic at $0334");
    reveal_strlit("34");
    reveal_strlit("03");
    reveal_strlit("0334");
    assert(JMP_0334@ =~= t) by {
        reveal_strlit("engine = \"generic\"\n\n[detect]\nbase = 0x0801\n");
        reveal_strlit("entry = \"sys\"\n\n[run]\n");
        reveal_strlit("exit_above = 0x0800\nsnap_start = 0x07FF\n");
        reveal_strlit("name");
        reveal_strlit("pattern");
        reveal_strlit("768");
        reveal_strlit("4C");
        reveal_strlit("stop_pc");
        reveal_with_fuel(same_from, 41);
        assert(t.len() == 173);
        assert(same_from(JMP_0334@, t, 160));
        assert(same_from(JMP_0334@, t, 120));
        assert(same_from(JMP_0334@, t, 80));
        assert(same_from(JMP_0334@, t, 40));
        assert(same_from(JMP_0334@, t, 0));
        same_characters(JMP_0334@, t, 0);
    }
    reveal_with_fuel(plain_from, 17);
    reveal_with_fuel(digits_from, 5);
    four_digits("0334"@);
    single_stub_loads(JMP_0334@, source, "Generic at $0334"@, "34"@, "03"@, "0334"@, None);
}

#[verifier::rlimit(40)]
proof fn jmp_0400_loads(source: Seq<char>)
    ensures
        loaded_config(JMP_0400@, source) == Ok::<Definition, Seq<char>>(
            stub_definition(
                source,
                "Generic at $0400"@,
                seq![jump_pattern(0x00, 0x04)],
                seq![0x0400u16],
                false,
                true,
            ),
        ),
{
    let t = single_stub_text("Generic at $0400"@, "00"@, "04"@, "0400"@, Some("use_guess_start"@));
    reveal_strlit(
        r#"name = "Generic at $0400"
engine = "generic"

[detect]
base = 0x0801
pattern = "*768 4C 00 04"
entry = "sys"

[run]
stop_pc = 0x0400
exit_above = 0x0800
snap_start = 0x07FF
use_guess_start = true
"#,
    );
    reveal_strlit("Generic at $0400");
    reveal_strlit("00");
    reveal_strlit("04");
    reveal_strlit("0400");
    assert(JMP_0400@ =~= t) by {
        reveal_strlit("engine = \"generic\"\n\n[detect]\nbase = 0x0801\n");
        reveal_strlit("entry = \"sys\"\n\n[run]\n");
        reveal_strlit("exit_above = 0x0800\nsnap_start = 0x07FF\n");
        reveal_strlit("name");
        reveal_strlit("pattern");
        reveal_strlit("768");
        reveal_strlit("4C");
        reveal_strlit("stop_pc");
        reveal_strlit("use_guess_start");
        reveal_strlit("true");
        reveal_with_fuel(same_from, 41);
        assert(t.len() == 196);
        assert(same_from(JMP_0400@, t, 160));
        assert(same_from(JMP_0400@, t, 120));
        assert(same_from(JMP_0400@, t, 80));
        assert(same_from(JMP_0400@, t, 40));
        assert(same_from(JMP_0400@, t, 0));
        same_characters(JMP_0400@, t, 0);
    }
    reveal_with_fuel(plain_from, 17);
    reveal_with_fuel(digits_from, 5);
    four_digits("0400"@);
    single_stub_loads(JMP_0400@, source, "Generic at $0400"@, "00"@, "04"@, "0400"@, Some("use_guess_start"@));
}

#[verifier::rlimit(40)]
proof fn jmp_0410_loads(source: Seq<char>)
    ensures
        loaded_config(JMP_0410@, source) == Ok::<Definition, Seq<char>>(
            stub_definition(
                source,
                "Generic at $0410"@,
                seq![jump_pattern(0x10, 0x04)],
                seq![0x0410u16],
                false,
                true,
            ),
        ),
{
    let t = single_stub_text("Generic at $0410"@, "10"@, "04"@, "0410"@, Some("use_guess_start"@));
    reveal_strlit(
        r#"name = "Generic at $0410"
engine = "generic"

[detect]
base = 0x0801
pattern = "*768 4C 10 04"
entry = "sys"

[run]
stop_pc = 0x0410
exit_above = 0x0800
snap_start = 0x07FF
use_guess_start = true
"#,
    );
    reveal_strlit("Generic at $0410");
    reveal_strlit("10");
    reveal_strlit("04");
    reveal_strlit("0410");
    assert(JMP_0410@ =~= t) by {
        reveal_strlit("engine = \"generic\"\n\n[detect]\nbase = 0x0801\n");
        reveal_strlit("entry = \"sys\"\n\n[run]\n");
        reveal_strlit("exit_above = 0x0800\nsnap_start = 0x07FF\n");
        reveal_strlit("name");
        reveal_strlit("pattern");
        reveal_strlit("768");
        reveal_strlit("4C");
        reveal_strlit("stop_pc");
        reveal_strlit("use_guess_start");
        reveal_strlit("true");
        reveal_with_fuel(same_from, 41);
        assert(t.len() == 196);
        assert(same_from(JMP_0410@, t, 160));
        assert(same_from(JMP_0410@, t, 120));
        assert(same_from(JMP_0410@, t, 80));
        assert(same_from(JMP_0410@, t, 40));
        assert(same_from(JMP_0410@, t, 0));
        same_characters(JMP_0410@, t, 0);
    }
    reveal_with_fuel(plain_from, 17);
    reveal_with_fuel(digits_from, 5);
    four_digits("0410"@);
    single_stub_loads(JMP_0410@, source, "Generic at $0410"@, "10"@, "04"@, "0410"@, Some("use_guess_start"@));
}

/// An array of two items.
spec fn two_items(a: Seq<char>, b: Seq<char>) -> Seq<char> {
    seq!['['] + (a + seq![',', ' '] + b) + seq![']']
}

proof fn two_items_array(a: Seq<char>, b: Seq<char>)
    ensures
        array_value(seq![a, b]) == two_items(a, b),
{
    assert(seq![a, b].skip(1) =~= seq![b]);
    reveal_with_fuel(comma_list, 2);
}

proof fn two_strings(p: Seq<char>, q: Seq<char>)
    requires
        is_plain_text(p),
        is_plain_text(q),
    ensures
        value_is(two_items(string_value(p), string_value(q)), Val::StrArr(seq![p, q])),
{
    let strs = seq![p, q];
    let text = two_items(string_value(p), string_value(q));
    reveal(value_is);
    assert(strs.map_values(|s: Seq<char>| string_value(s)) =~= seq![
        string_value(p),
        string_value(q),
    ]);
    two_items_array(string_value(p), string_value(q));
    strings_are_read(Seq::empty(), 0, Seq::empty(), strs);
    assert forall|ls: Seq<Seq<char>>, n: int, key: Seq<char>| #[trigger]
        valued(ls, n, key, text) == Ok::<(Val, int), Seq<char>>((Val::StrArr(strs), n + 1)) by {
        strings_are_read(ls, n, key, strs);
    }
}

proof fn hex_item(digits: Seq<char>)
    requires
        digits.len() == 4,
        all_digits(digits, 16),
    ensures
        is_item(hex_value(digits)),
{
    let t = hex_value(digits);
    assert forall|i: int| 0 <= i < t.len() implies is_plain(#[trigger] t[i]) by {
        if i >= 2 {
            assert(digit_value(digits[i - 2]) < 16);
        }
    }
    assert(digit_value(digits[3]) < 16);
    assert(t.last() == digits[3]);
}

proof fn two_numbers(a: Seq<char>, b: Seq<char>)
    requires
        a.len() == 4,
        b.len() == 4,
        digits_from(a, 0, 16),
        digits_from(b, 0, 16),
    ensures
        ({
            let ints = seq![spelled(a, 16) as i64, spelled(b, 16) as i64];
            let list = seq![spelled(a, 16) as u16, spelled(b, 16) as u16];
            &&& value_is(two_items(hex_value(a), hex_value(b)), Val::IntArr(ints))
            &&& reads_stops(Val::IntArr(ints), list)
        }),
{
    let ints = seq![spelled(a, 16) as i64, spelled(b, 16) as i64];
    let list = seq![spelled(a, 16) as u16, spelled(b, 16) as u16];
    let parts = seq![hex_value(a), hex_value(b)];
    let text = two_items(hex_value(a), hex_value(b));
    four_digits(a);
    four_digits(b);
    hex_item(a);
    hex_item(b);
    two_items_array(hex_value(a), hex_value(b));
    assert(value_is(text, Val::IntArr(ints))) by {
        reveal(value_is);
        hex_is_read(Seq::empty(), 0, Seq::empty(), a);
        hex_is_read(Seq::empty(), 0, Seq::empty(), b);
        numbers_are_read(Seq::empty(), 0, Seq::empty(), parts, ints);
        assert forall|ls: Seq<Seq<char>>, n: int, key: Seq<char>| #[trigger]
            valued(ls, n, key, text) == Ok::<(Val, int), Seq<char>>((Val::IntArr(ints), n + 1)) by {
            numbers_are_read(ls, n, key, parts, ints);
        }
    }
    assert forall|t: Seq<(Seq<char>, Val)>, ctx: Seq<char>|
        lookup(t, "stop_pc"@) == Some(Val::IntArr(ints)) implies #[trigger] u16_list_value(
        t,
        "stop_pc"@,
        ctx,
    ) == Ok::<Seq<u16>, Seq<char>>(list) by {
        let front = ints.drop_last();
        assert(front.drop_last().len() == 0);
        assert(front.last() == ints[0]);
        assert(addresses(front.drop_last(), "stop_pc"@, ctx) == Ok::<Seq<u16>, Seq<char>>(
            Seq::empty(),
        ));
        assert(addresses(front, "stop_pc"@, ctx) is Ok);
        assert(addresses(ints, "stop_pc"@, ctx) is Ok);
        assert(addresses(ints, "stop_pc"@, ctx)->Ok_0 =~= list);
    }
}

#[verifier::rlimit(40)]
proof fn jmp_0100_loads(source: Seq<char>)
    ensures
        loaded_config(JMP_0100@, source) == Ok::<Definition, Seq<char>>(
            stub_definition(
                source,
                "Generic at $0100"@,
                seq![jump_pattern(0x00, 0x01), jump_pattern(0x01, 0x01)],
                seq![0x0100u16, 0x0101u16],
                true,
                false,
            ),
        ),
{
    let p = jump_text("00"@, "01"@);
    let q = jump_text("01"@, "01"@);
    let t = stub_text(
        "Generic at $0100"@,
        pair_line("any_of"@, two_items(string_value(p), string_value(q))),
        pair_line("stop_pc"@, two_items(hex_value("0100"@), hex_value("0101"@))),
        Some("analyze_0100"@),
    );
    reveal_strlit(
        r#"name = "Generic at $0100"
engine = "generic"

[detect]
base = 0x0801
any_of = ["*768 4C 00 01", "*768 4C 01 01"]
entry = "sys"

[run]
stop_pc = [0x0100, 0x0101]
exit_above = 0x0800
snap_start = 0x07FF
analyze_0100 = true
"#,
    );
    reveal_strlit("Generic at $0100");
    reveal_strlit("00");
    reveal_strlit("01");
    reveal_strlit("0100");
    reveal_strlit("0101");
    assert(JMP_0100@ =~= t) by {
        reveal_strlit("engine = \"generic\"\n\n[detect]\nbase = 0x0801\n");
        reveal_strlit("entry = \"sys\"\n\n[run]\n");
        reveal_strlit("exit_above = 0x0800\nsnap_start = 0x07FF\n");
        reveal_strlit("name");
        reveal_strlit("any_of");
        reveal_strlit("768");
        reveal_strlit("4C");
        reveal_strlit("stop_pc");
        reveal_strlit("analyze_0100");
        reveal_strlit("true");
        reveal_with_fuel(same_from, 41);
        assert(t.len() == 221);
        assert(same_from(JMP_0100@, t, 200));
        assert(same_from(JMP_0100@, t, 160));
        assert(same_from(JMP_0100@, t, 120));
        assert(same_from(JMP_0100@, t, 80));
        assert(same_from(JMP_0100@, t, 40));
        assert(same_from(JMP_0100@, t, 0));
        same_characters(JMP_0100@, t, 0);
    }
    keys();
    initials();
    reveal_with_fuel(plain_from, 17);
    reveal_with_fuel(digits_from, 5);
    plain_text("Generic at $0100"@, 0);
    jump_is_plain("00"@, "01"@);
    jump_is_plain("01"@, "01"@);
    jump_is_read("00"@, "01"@);
    jump_is_read("01"@, "01"@);
    two_strings(p, q);
    two_patterns(p, q, jump_pattern(0x00, 0x01), jump_pattern(0x01, 0x01), source);
    four_digits("0100"@);
    four_digits("0101"@);
    two_numbers("0100"@, "0101"@);
    stub_loads(
        JMP_0100@,
        source,
        "Generic at $0100"@,
        "any_of"@,
        two_items(string_value(p), string_value(q)),
        Val::StrArr(seq![p, q]),
        seq![jump_pattern(0x00, 0x01), jump_pattern(0x01, 0x01)],
        two_items(hex_value("0100"@), hex_value("0101"@)),
        Val::IntArr(seq![0x0100i64, 0x0101i64]),
        seq![0x0100u16, 0x0101u16],
        Some("analyze_0100"@),
    );
}

/// The lines of the text that matches always.
spec fn catch_all_lines() -> Seq<Seq<char>> {
    seq![
        pair_line("name"@, string_value("Generic 6"@)),
        pair_line("engine"@, string_value("generic"@)),
        Seq::empty(),
        section_line("detect"@),
        pair_line("always"@, "true"@),
        pair_line("entry"@, string_value("sys"@)),
        Seq::empty(),
        section_line("run"@),
        pair_line("stop_below"@, hex_value("0800"@)),
        pair_line("exit_above"@, hex_value("0800"@)),
        pair_line("exit_into_written"@, "true"@),
        pair_line("exit_quiescent"@, "500000"@),
    ]
}

spec fn catch_all_detect() -> Seq<(Seq<char>, Val)> {
    seq![("always"@, Val::Bool(true)), ("entry"@, Val::Str("sys"@))]
}

spec fn catch_all_run() -> Seq<(Seq<char>, Val)> {
    seq![
        ("stop_below"@, Val::Int(0x0800)),
        ("exit_above"@, Val::Int(0x0800)),
        ("exit_into_written"@, Val::Bool(true)),
        ("exit_quiescent"@, Val::Int(500_000)),
    ]
}

proof fn catch_all_lines_stand()
    ensures
        spells(CATCH_ALL@, 0, catch_all_lines(), 0),
{
    let s = CATCH_ALL@;
    let ls = catch_all_lines();
    reveal_strlit(
        r#"name = "Generic 6"
engine = "generic"

[detect]
always = true
entry = "sys"

[run]
stop_below = 0x0800
exit_above = 0x0800
exit_into_written = true
exit_quiescent = 500000
"#,
    );
    assert(s.len() == 172);
    assert(line_at(s, 0, ls[0]) && ls[0].len() == 18) by {
        reveal_strlit("name");
        reveal_strlit("Generic 6");
        reveal_with_fuel(stands_at, 19);
        line_found(s, 0, ls[0]);
    }
    assert(line_at(s, 19, ls[1]) && ls[1].len() == 18) by {
        reveal_strlit("engine");
        reveal_strlit("generic");
        reveal_with_fuel(stands_at, 19);
        line_found(s, 19, ls[1]);
    }
    assert(line_at(s, 38, ls[2]) && ls[2].len() == 0) by {
        line_found(s, 38, ls[2]);
    }
    assert(line_at(s, 39, ls[3]) && ls[3].len() == 8) by {
        reveal_strlit("detect");
        reveal_with_fuel(stands_at, 9);
        line_found(s, 39, ls[3]);
    }
    assert(line_at(s, 48, ls[4]) && ls[4].len() == 13) by {
        reveal_strlit("always");
        reveal_strlit("true");
        reveal_with_fuel(stands_at, 14);
        line_found(s, 48, ls[4]);
    }
    assert(line_at(s, 62, ls[5]) && ls[5].len() == 13) by {
        reveal_strlit("entry");
        reveal_strlit("sys");
        reveal_with_fuel(stands_at, 14);
        line_found(s, 62, ls[5]);
    }
    assert(line_at(s, 76, ls[6]) && ls[6].len() == 0) by {
        line_found(s, 76, ls[6]);
    }
    assert(line_at(s, 77, ls[7]) && ls[7].len() == 5) by {
        reveal_strlit("run");
        reveal_with_fuel(stands_at, 6);
        line_found(s, 77, ls[7]);
    }
    assert(line_at(s, 83, ls[8]) && ls[8].len() == 19) by {
        reveal_strlit("stop_below");
        reveal_strlit("0800");
        reveal_with_fuel(stands_at, 20);
        line_found(s, 83, ls[8]);
    }
    assert(line_at(s, 103, ls[9]) && ls[9].len() == 19) by {
        reveal_strlit("exit_above");
        reveal_strlit("0800");
        reveal_with_fuel(stands_at, 20);
        line_found(s, 103, ls[9]);
    }
    assert(line_at(s, 123, ls[10]) && ls[10].len() == 24) by {
        reveal_strlit("exit_into_written");
        reveal_strlit("true");
        reveal_with_fuel(stands_at, 25);
        line_found(s, 123, ls[10]);
    }
    assert(line_at(s, 148, ls[11]) && ls[11].len() == 23) by {
        reveal_strlit("exit_quiescent");
        reveal_strlit("500000");
        reveal_with_fuel(stands_at, 24);
        line_found(s, 148, ls[11]);
    }
    reveal_with_fuel(spells, 13);
}

proof fn catch_all_document(source: Seq<char>)
    ensures
        document(CATCH_ALL@, source) == Ok::<Document, Seq<char>>(
            two_sections("Generic 6"@, catch_all_detect(), catch_all_run()),
        ),
{
    let ls = catch_all_lines();
    catch_all_lines_stand();
    block_lines(CATCH_ALL@, ls, Seq::empty());
    assert(CATCH_ALL@ + Seq::<char>::empty() =~= CATCH_ALL@);
    assert(ls + lines(Seq::<char>::empty()) =~= ls);
    keys();
    numbers();
    let name = "Generic 6"@;
    assert(is_plain_text(name)) by {
        reveal_strlit("Generic 6");
        reveal_with_fuel(plain_from, 10);
        plain_text(name, 0);
    }
    let d0 = empty_document();
    string_line(ls, 0, source, d0, Place::Top, "name"@, name);
    let d1 = with_pair(d0, Place::Top, "name"@, Val::Str(name));
    string_line(ls, 1, source, d1, Place::Top, "engine"@, "generic"@);
    let d2 = with_pair(d1, Place::Top, "engine"@, Val::Str("generic"@));
    blank_line(ls, 2, source, d2, Place::Top);
    header_line(ls, 3, source, d2, Place::Top, "detect"@);
    let d3 = Document { sections: d2.sections.push(("detect"@, Seq::empty())), ..d2 };
    flag_line(ls, 4, source, d3, Place::Section, "always"@);
    let d4 = with_pair(d3, Place::Section, "always"@, Val::Bool(true));
    string_line(ls, 5, source, d4, Place::Section, "entry"@, "sys"@);
    let d5 = with_pair(d4, Place::Section, "entry"@, Val::Str("sys"@));
    blank_line(ls, 6, source, d5, Place::Section);
    header_line(ls, 7, source, d5, Place::Section, "run"@);
    let d6 = Document { sections: d5.sections.push(("run"@, Seq::empty())), ..d5 };
    hex_line(ls, 8, source, d6, Place::Section, "stop_below"@, "0800"@);
    let d7 = with_pair(d6, Place::Section, "stop_below"@, Val::Int(0x0800));
    hex_line(ls, 9, source, d7, Place::Section, "exit_above"@, "0800"@);
    let d8 = with_pair(d7, Place::Section, "exit_above"@, Val::Int(0x0800));
    flag_line(ls, 10, source, d8, Place::Section, "exit_into_written"@);
    let d9 = with_pair(d8, Place::Section, "exit_into_written"@, Val::Bool(true));
    assert(value_is("500000"@, Val::Int(500_000))) by {
        reveal(value_is);
        decimal_is_read(Seq::empty(), 0, Seq::empty(), "500000"@);
        assert forall|ls: Seq<Seq<char>>, n: int, key: Seq<char>| #[trigger]
            valued(ls, n, key, "500000"@) == Ok::<(Val, int), Seq<char>>(
                (Val::Int(500_000), n + 1),
            ) by {
            decimal_is_read(ls, n, key, "500000"@);
        }
    }
    value_line(
        ls,
        11,
        source,
        d9,
        Place::Section,
        "exit_quiescent"@,
        "500000"@,
        Val::Int(500_000),
    );
    let d10 = with_pair(d9, Place::Section, "exit_quiescent"@, Val::Int(500_000));
    let goal = two_sections(name, catch_all_detect(), catch_all_run());
    assert(d10.top =~= goal.top);
    assert(d5.sections =~= seq![("detect"@, catch_all_detect())]) by {
        assert(d3.sections =~= seq![("detect"@, Seq::<(Seq<char>, Val)>::empty())]);
        assert(d5.sections[0].1 =~= catch_all_detect());
    }
    assert(d10.sections.last().1 =~= catch_all_run());
    assert(d10.sections =~= goal.sections);
    assert(d10.variants =~= goal.variants);
    reveal(reading);
}

proof fn catch_all_lookup(key: Seq<char>)
    ensures
        lookup(catch_all_run(), key) == if key == "stop_below"@ {
            Some(Val::Int(0x0800))
        } else if key == "exit_above"@ {
            Some(Val::Int(0x0800))
        } else if key == "exit_into_written"@ {
            Some(Val::Bool(true))
        } else if key == "exit_quiescent"@ {
            Some(Val::Int(500_000))
        } else {
            None
        },
{
    initials();
    reveal_with_fuel(lookup, 5);
}

proof fn catch_all_parameters(ctx: Seq<char>)
    ensures
        parameters(catch_all_run(), ctx) == Ok::<Params, Seq<char>>(
            Params {
                stop_below: Some(0x0800),
                exit_into_written: true,
                exit_quiescent: 500_000,
                ..default_params()
            },
        ),
{
    reveal(parameters);
    initials();
    catch_all_lookup("stop_pc"@);
    catch_all_lookup("stop_below"@);
    catch_all_lookup("exit_above"@);
    catch_all_lookup("snap_start"@);
    catch_all_lookup("snap_to"@);
    catch_all_lookup("analyze_0100"@);
    catch_all_lookup("trim_page_overshoot"@);
    catch_all_lookup("exit_into_written"@);
    catch_all_lookup("exit_quiescent"@);
    catch_all_lookup("byteboozer_ptr"@);
    catch_all_lookup("byteboozer_end_from_ptr"@);
    catch_all_lookup("byteboozer_name"@);
    catch_all_lookup("use_guess_start"@);
    catch_all_lookup("version"@);
    catch_all_lookup("cap"@);
}

proof fn catch_all_loads(source: Seq<char>)
    ensures
        loaded_config(CATCH_ALL@, source) == Ok::<Definition, Seq<char>>(
            catch_all_definition(source, "Generic 6"@),
        ),
{
    let detect = catch_all_detect();
    let sig = Signature {
        base: 0x0801,
        always: true,
        patterns: Seq::empty(),
        entry: Entry::Sys,
    };
    catch_all_document(source);
    catch_all_parameters(source);
    assert(signature(detect, source) == Ok::<Signature, Seq<char>>(sig)) by {
        reveal(signature);
        initials();
        reveal_with_fuel(lookup, 3);
        assert(lookup(detect, "always"@) == Some(Val::Bool(true)));
        assert(lookup(detect, "entry"@) == Some(Val::Str("sys"@)));
        assert(lookup(detect, "base"@) is None);
        assert(lookup(detect, "pattern"@) is None);
        assert(lookup(detect, "any_of"@) is None);
    }
    two_section_definition(
        "Generic 6"@,
        detect,
        catch_all_run(),
        sig,
        parameters(catch_all_run(), source)->Ok_0,
        source,
    );
}

/// The built-in texts load, and are read as the definitions they are meant to be.
#[verifier::rlimit(30)]
pub proof fn embedded_configs_load()
    ensures
        loaded_configs(embedded_texts()) == Ok::<Seq<Definition>, Seq<char>>(
            embedded_definitions(),
        ),
{
    let files = embedded_texts();
    let defs = embedded_definitions();
    jmp_0100_loads(files[0].0);
    jmp_0010_loads(files[1].0);
    jmp_0008_loads(files[2].0);
    jmp_0334_loads(files[3].0);
    jmp_0400_loads(files[4].0);
    jmp_0410_loads(files[5].0);
    catch_all_loads(files[6].0);
    all_load(files, defs, 7);
    assert(files.take(7) =~= files);
    assert(defs.take(7) =~= defs);
}

proof fn all_load(files: Seq<(Seq<char>, Seq<char>)>, defs: Seq<Definition>, n: int)
    requires
        0 <= n <= files.len(),
        files.len() == defs.len(),
        forall|i: int|
            0 <= i < files.len() ==> loaded_config((#[trigger] files[i]).1, files[i].0) == Ok::<
                Definition,
                Seq<char>,
            >(defs[i]),
    ensures
        loaded_configs(files.take(n)) == Ok::<Seq<Definition>, Seq<char>>(defs.take(n)),
    decreases n,
{
    if n == 0 {
        assert(defs.take(0) =~= Seq::empty());
    } else {
        all_load(files, defs, n - 1);
        assert(files.take(n).drop_last() =~= files.take(n - 1));
        assert(files.take(n).last() == files[n - 1]);
        assert(defs.take(n - 1).push(defs[n - 1]) =~= defs.take(n));
    }
}

} // verus!
