//! What reading config texts promises as a whole.

use vstd::prelude::*;

verus! {

use crate::config::{
    alternative_patterns, alternatives, definition, loaded_config, pattern_value, section_or_empty,
    signature, variant_list, Definition, EngineKind, Entry,
};
use crate::fmt::{digit_char, radix_text};
use crate::pattern::gaps_anchored;
use crate::text::{all_digits, digit_value, is_space, parsed, spelled, word_len, words};
use crate::toml::{comment_position, content, document, Val};

// ---------------------------------------------------------------------------
// Numbers
// ---------------------------------------------------------------------------

proof fn digit_reads_back(d: int, upper: bool)
    requires
        0 <= d < 16,
    ensures
        digit_value(digit_char(d, upper)) == d,
        digit_char(d, upper) != '+',
        digit_char(d, upper) != '-',
{
}

proof fn spelling_reads_back(n: int, base: int, upper: bool)
    requires
        0 <= n,
        2 <= base <= 16,
    ensures
        radix_text(n, base, upper).len() > 0,
        all_digits(radix_text(n, base, upper), base),
        spelled(radix_text(n, base, upper), base) == n,
        radix_text(n, base, upper)[0] != '+',
    decreases n,
{
    let s = radix_text(n, base, upper);
    if n < base {
        digit_reads_back(n, upper);
        assert(s.drop_last() =~= Seq::empty());
        assert(spelled(s.drop_last(), base) == 0);
        assert(s.last() == digit_char(n, upper));
        assert(0 * base == 0);
    } else {
        let q = n / base;
        let r = n % base;
        assert(0 <= q < n && 0 <= r < base && q * base + r == n) by (nonlinear_arith)
            requires
                q == n / base,
                r == n % base,
                n >= base,
                base >= 2,
        ;
        spelling_reads_back(q, base, upper);
        digit_reads_back(r, upper);
        let front = radix_text(q, base, upper);
        assert(s == front.push(digit_char(r, upper)));
        assert(s.drop_last() =~= front);
        assert forall|i: int| 0 <= i < s.len() implies digit_value(#[trigger] s[i]) < base by {
            if i < front.len() {
                assert(s[i] == front[i]);
            }
        }
        assert(s[0] == front[0]);
    }
}

/// A number that was printed reads back as the same number.
pub proof fn printed_number_reads_back(n: int, base: int, upper: bool, max: int)
    requires
        0 <= n <= max,
        2 <= base <= 16,
    ensures
        parsed(radix_text(n, base, upper), base, 0, max) == Some(n),
{
    spelling_reads_back(n, base, upper);
}

// ---------------------------------------------------------------------------
// Words and comments
// ---------------------------------------------------------------------------

proof fn space_ends_a_word(a: Seq<char>, b: Seq<char>)
    ensures
        word_len(a.push(' ') + b) == word_len(a),
        0 <= word_len(a) <= a.len(),
        a.len() > 0 && !is_space(a[0]) ==> word_len(a) > 0,
    decreases a.len(),
{
    let s = a.push(' ') + b;
    if a.len() > 0 && !is_space(a[0]) {
        space_ends_a_word(a.skip(1), b);
        assert(s.skip(1) =~= a.skip(1).push(' ') + b);
        assert(s[0] == a[0]);
    } else if a.len() == 0 {
        assert(s[0] == ' ');
    } else {
        assert(s[0] == a[0]);
    }
}

/// A space separates words: the words of two texts joined by a space are the words
/// of the one and then those of the other. A pattern may therefore be split over
/// several strings.
pub proof fn space_separates_words(a: Seq<char>, b: Seq<char>)
    ensures
        words(a.push(' ') + b) == words(a) + words(b),
    decreases a.len(),
{
    let s = a.push(' ') + b;
    if a.len() == 0 {
        assert(s[0] == ' ');
        assert(s.skip(1) =~= b);
        assert(words(a) + words(b) =~= words(b));
    } else if is_space(a[0]) {
        assert(s[0] == a[0]);
        assert(s.skip(1) =~= a.skip(1).push(' ') + b);
        space_separates_words(a.skip(1), b);
    } else {
        let n = word_len(a);
        space_ends_a_word(a, b);
        assert(s[0] == a[0]);
        assert(s.take(n) =~= a.take(n));
        assert(s.skip(n) =~= a.skip(n).push(' ') + b);
        space_separates_words(a.skip(n), b);
        assert(words(s) =~= words(a) + words(b));
    }
}

/// Whether a text from `i` on has a comment sign outside of quotes, or ends inside
/// quotes.
pub open spec fn is_open_text(s: Seq<char>, i: int, in_string: bool) -> bool
    decreases s.len() - i,
{
    if i >= s.len() {
        in_string
    } else {
        (s[i] == '#' && !in_string) || is_open_text(s, i + 1, in_string != (s[i] == '"'))
    }
}

proof fn comment_starts_behind(a: Seq<char>, b: Seq<char>, i: int, in_string: bool)
    requires
        0 <= i <= a.len(),
        !is_open_text(a, i, in_string),
    ensures
        comment_position(a.push('#') + b, i, in_string) == a.len(),
        comment_position(a, i, in_string) == a.len(),
    decreases a.len() - i,
{
    let s = a.push('#') + b;
    if i < a.len() {
        assert(s[i] == a[i]);
        comment_starts_behind(a, b, i + 1, in_string != (a[i] == '"'));
    } else {
        assert(s[i] == '#');
    }
}

/// A comment changes nothing: what follows a comment sign outside of quotes does not
/// count.
pub proof fn comments_do_not_count(a: Seq<char>, b: Seq<char>)
    requires
        !is_open_text(a, 0, false),
    ensures
        content(a.push('#') + b) == content(a),
{
    comment_starts_behind(a, b, 0, false);
    assert((a.push('#') + b).take(a.len() as int) =~= a);
    assert(a.take(a.len() as int) =~= a);
}

// ---------------------------------------------------------------------------
// Definitions
// ---------------------------------------------------------------------------

/// Every pattern of a definition has its gaps anchored.
pub open spec fn patterns_anchored(d: Definition) -> bool {
    &&& forall|i: int|
        0 <= i < d.detect.patterns.len() ==> gaps_anchored(#[trigger] d.detect.patterns[i])
    &&& forall|i: int|
        0 <= i < d.variants.len() ==> gaps_anchored((#[trigger] d.variants[i]).pattern)
    &&& d.probe matches Some(p) ==> gaps_anchored(p.verify_pattern)
}

proof fn alternatives_are_anchored(list: Seq<Seq<char>>, ctx: Seq<char>)
    requires
        alternative_patterns(list, ctx) is Ok,
    ensures
        ({
            let ps = alternative_patterns(list, ctx)->Ok_0;
            forall|i: int| 0 <= i < ps.len() ==> gaps_anchored(#[trigger] ps[i])
        }),
    decreases list.len(),
{
    if list.len() > 0 {
        alternatives_are_anchored(list.drop_last(), ctx);
    }
}

proof fn variants_are_anchored(ts: Seq<Seq<(Seq<char>, Val)>>, ctx: Seq<char>)
    requires
        variant_list(ts, ctx) is Ok,
    ensures
        ({
            let vs = variant_list(ts, ctx)->Ok_0;
            forall|i: int| 0 <= i < vs.len() ==> gaps_anchored((#[trigger] vs[i]).pattern)
        }),
    decreases ts.len(),
{
    if ts.len() > 0 {
        variants_are_anchored(ts.drop_last(), ctx);
    }
}

/// A config that loads can be used: it keeps its file name, has a signature unless
/// it matches always, has an entry unless its engine is the one that probes, has a
/// probe where its engine needs one, and every gap in its patterns is anchored.
pub proof fn loaded_config_is_usable(text: Seq<char>, source: Seq<char>)
    requires
        loaded_config(text, source) is Ok,
    ensures
        ({
            let d = loaded_config(text, source)->Ok_0;
            &&& d.source == source
            &&& d.detect.always || d.detect.patterns.len() > 0
            &&& d.engine != EngineKind::CrunchAB ==> d.detect.entry != Entry::Probed
            &&& d.engine == EngineKind::CrunchAB ==> d.probe is Some
            &&& patterns_anchored(d)
        }),
{
    reveal(definition);
    reveal(signature);
    let doc = document(text, source)->Ok_0;
    let t = section_or_empty(doc, "detect"@);
    let d = loaded_config(text, source)->Ok_0;
    alternatives_are_anchored(alternatives(t), source);
    variants_are_anchored(doc.variants, source);
    let any_of = alternative_patterns(alternatives(t), source)->Ok_0;
    assert forall|i: int| 0 <= i < d.detect.patterns.len() implies gaps_anchored(
        #[trigger] d.detect.patterns[i],
    ) by {
        match pattern_value(t, "pattern"@, source)->Ok_0 {
            Some(toks) => {
                if i > 0 {
                    assert(d.detect.patterns[i] == any_of[i - 1]);
                }
            },
            None => {
                assert(d.detect.patterns[i] == any_of[i]);
            },
        }
    }
}

} // verus!
