//! What each key of a config file sets, what stands where it is missing, and which values
//! are refused.

use vstd::prelude::*;

verus! {

use crate::config::{
    addresses, alternative_patterns, definition, lookup, parameters, probe_value, section,
    signature, u16_value, variant_list, variant_value, Entry, EngineKind,
};
use crate::fmt::joined;
use crate::pattern::parsed_pattern;
use crate::toml::{shown, Document, Val};

// ---------------------------------------------------------------------------
// Tables
// ---------------------------------------------------------------------------

/// The first line with a key counts.
pub proof fn first_line_with_a_key_counts(t: Seq<(Seq<char>, Val)>, key: Seq<char>, k: int)
    requires
        0 <= k < t.len(),
        t[k].0 == key,
        forall|i: int| 0 <= i < k ==> (#[trigger] t[i]).0 != key,
    ensures
        lookup(t, key) == Some(t[k].1),
    decreases t.len(),
{
    if k > 0 {
        assert(t[0].0 != key);
        let rest = t.skip(1);
        assert(rest[k - 1] == t[k]);
        assert forall|i: int| 0 <= i < k - 1 implies (#[trigger] rest[i]).0 != key by {
            assert(rest[i] == t[i + 1]);
        }
        first_line_with_a_key_counts(rest, key, k - 1);
    }
}

/// A key without a line has no value.
pub proof fn missing_keys_have_no_value(t: Seq<(Seq<char>, Val)>, key: Seq<char>)
    requires
        forall|i: int| 0 <= i < t.len() ==> (#[trigger] t[i]).0 != key,
    ensures
        lookup(t, key) is None,
    decreases t.len(),
{
    if t.len() > 0 {
        assert(t[0].0 != key);
        let rest = t.skip(1);
        assert forall|i: int| 0 <= i < rest.len() implies (#[trigger] rest[i]).0 != key by {
            assert(rest[i] == t[i + 1]);
        }
        missing_keys_have_no_value(rest, key);
    }
}

/// The first section of a name counts.
pub proof fn first_section_counts(
    s: Seq<(Seq<char>, Seq<(Seq<char>, Val)>)>,
    name: Seq<char>,
    k: int,
)
    requires
        0 <= k < s.len(),
        s[k].0 == name,
        forall|i: int| 0 <= i < k ==> (#[trigger] s[i]).0 != name,
    ensures
        section(s, name) == Some(s[k].1),
    decreases s.len(),
{
    if k > 0 {
        assert(s[0].0 != name);
        let rest = s.skip(1);
        assert(rest[k - 1] == s[k]);
        assert forall|i: int| 0 <= i < k - 1 implies (#[trigger] rest[i]).0 != name by {
            assert(rest[i] == s[i + 1]);
        }
        first_section_counts(rest, name, k - 1);
    }
}

// ---------------------------------------------------------------------------
// Keys
// ---------------------------------------------------------------------------

/// The key holds a number, and `n` is that number; where it is missing, `n` is the default.
pub open spec fn is_number_at(
    t: Seq<(Seq<char>, Val)>,
    key: Seq<char>,
    n: int,
    default_value: int,
) -> bool {
    match lookup(t, key) {
        None => n == default_value,
        Some(Val::Int(i)) => n == i,
        _ => false,
    }
}

/// The key holds `true` or `false`, and `b` is that; where it is missing, `b` is false.
pub open spec fn is_switch_at(t: Seq<(Seq<char>, Val)>, key: Seq<char>, b: bool) -> bool {
    match lookup(t, key) {
        None => !b,
        Some(Val::Bool(v)) => b == v,
        _ => false,
    }
}

/// The key holds a number or a list of numbers, and `v` lists them; where it is missing, `v`
/// is empty.
pub open spec fn is_list_at(t: Seq<(Seq<char>, Val)>, key: Seq<char>, v: Seq<u16>) -> bool {
    match lookup(t, key) {
        None => v.len() == 0,
        Some(Val::Int(i)) => v.len() == 1 && v[0] == i,
        Some(Val::IntArr(list)) => v.len() == list.len() && forall|k: int|
            0 <= k < v.len() ==> #[trigger] v[k] == list[k],
        _ => false,
    }
}

proof fn addresses_one_by_one(v: Seq<i64>, key: Seq<char>, ctx: Seq<char>)
    ensures
        addresses(v, key, ctx) is Ok <==> forall|k: int|
            0 <= k < v.len() ==> 0 <= #[trigger] v[k] <= 0xFFFF,
        addresses(v, key, ctx) matches Ok(list) ==> list.len() == v.len() && forall|k: int|
            0 <= k < list.len() ==> #[trigger] list[k] == v[k],
    decreases v.len(),
{
    if v.len() > 0 {
        let front = v.drop_last();
        let n = v.len() - 1;
        addresses_one_by_one(front, key, ctx);
        assert(v.last() == v[n]);
        assert forall|k: int| 0 <= k < n implies front[k] == #[trigger] v[k] by {}
        if addresses(v, key, ctx) is Ok {
            let list = addresses(v, key, ctx)->Ok_0;
            let ls = addresses(front, key, ctx)->Ok_0;
            assert forall|k: int| 0 <= k < list.len() implies #[trigger] list[k] == v[k] by {
                if k < n {
                    assert(ls[k] == front[k]);
                }
            }
            assert forall|k: int| 0 <= k < v.len() implies 0 <= #[trigger] v[k] <= 0xFFFF by {
                if k < n {
                    assert(0 <= front[k] <= 0xFFFF);
                }
            }
        } else if forall|k: int| 0 <= k < v.len() ==> 0 <= #[trigger] v[k] <= 0xFFFF {
            assert forall|k: int| 0 <= k < front.len() implies 0 <= #[trigger] front[k]
                <= 0xFFFF by {
                assert(0 <= v[k] <= 0xFFFF);
            }
            assert(0 <= v[n] <= 0xFFFF);
        }
    }
}

/// Each address of `[run]` is the number of its key; the exit address is $0800 and the snap
/// address $0801 where it is missing, and there is no limit to stop below.
#[verifier::rlimit(40)]
pub proof fn run_addresses_come_from_their_keys(t: Seq<(Seq<char>, Val)>, ctx: Seq<char>)
    requires
        parameters(t, ctx) is Ok,
    ensures
        ({
            let p = parameters(t, ctx)->Ok_0;
            &&& is_number_at(t, "exit_above"@, p.exit_above as int, 0x0800)
            &&& is_number_at(t, "snap_to"@, p.snap_to as int, 0x0801)
            &&& lookup(t, "stop_below"@) is None ==> p.stop_below is None
            &&& lookup(t, "stop_below"@) is Some ==> p.stop_below is Some && is_number_at(
                t,
                "stop_below"@,
                p.stop_below->0 as int,
                0,
            )
            &&& is_list_at(t, "stop_pc"@, p.stop_pc)
            &&& is_list_at(t, "snap_start"@, p.snap_start)
        }),
{
    reveal(parameters);
    if let Some(Val::IntArr(list)) = lookup(t, "stop_pc"@) {
        addresses_one_by_one(list, "stop_pc"@, ctx);
    }
    if let Some(Val::IntArr(list)) = lookup(t, "snap_start"@) {
        addresses_one_by_one(list, "snap_start"@, ctx);
    }
}

/// The numbers of `[run]`: no wait for quiescence, version 0 and a cap of 250 million
/// instructions where they are missing.
#[verifier::rlimit(40)]
pub proof fn run_numbers_come_from_their_keys(t: Seq<(Seq<char>, Val)>, ctx: Seq<char>)
    requires
        parameters(t, ctx) is Ok,
    ensures
        ({
            let p = parameters(t, ctx)->Ok_0;
            &&& is_number_at(t, "exit_quiescent"@, p.exit_quiescent as int, 0)
            &&& is_number_at(t, "cap"@, p.cap as int, 250_000_000)
            &&& lookup(t, "version"@) is None ==> p.version == 0
            &&& lookup(t, "version"@) matches Some(Val::Int(i)) ==> p.version as int == i as int
                % 0x1_0000_0000
        }),
{
    reveal(parameters);
}

/// The switches of `[run]` are off unless their key says true.
#[verifier::rlimit(40)]
pub proof fn run_switches_come_from_their_keys(t: Seq<(Seq<char>, Val)>, ctx: Seq<char>)
    requires
        parameters(t, ctx) is Ok,
    ensures
        ({
            let p = parameters(t, ctx)->Ok_0;
            &&& is_switch_at(t, "analyze_0100"@, p.analyze_0100)
            &&& is_switch_at(t, "trim_page_overshoot"@, p.trim_page_overshoot)
            &&& is_switch_at(t, "exit_into_written"@, p.exit_into_written)
            &&& is_switch_at(t, "byteboozer_end_from_ptr"@, p.byteboozer_end_from_ptr)
            &&& is_switch_at(t, "use_guess_start"@, p.use_guess_start)
        }),
{
    reveal(parameters);
}

/// The output pointer of `[run]` is a zero-page address, or none where its key is missing;
/// its program is called Byte Boozer unless another name is given.
#[verifier::rlimit(40)]
pub proof fn run_pointer_comes_from_its_key(t: Seq<(Seq<char>, Val)>, ctx: Seq<char>)
    requires
        parameters(t, ctx) is Ok,
    ensures
        ({
            let p = parameters(t, ctx)->Ok_0;
            &&& lookup(t, "byteboozer_ptr"@) is None ==> p.byteboozer_ptr is None
            &&& lookup(t, "byteboozer_ptr"@) is Some ==> p.byteboozer_ptr is Some && is_number_at(
                t,
                "byteboozer_ptr"@,
                p.byteboozer_ptr->0 as int,
                0,
            )
            &&& lookup(t, "byteboozer_name"@) is None ==> p.byteboozer_name == "Byte Boozer"@
            &&& lookup(t, "byteboozer_name"@) is Some ==> lookup(t, "byteboozer_name"@) == Some(
                Val::Str(p.byteboozer_name),
            )
        }),
{
    reveal(parameters);
}

/// A `[run]` section is refused for an address that does not fit sixteen bits, a pointer
/// outside of the zero page, a negative count, and a value of another kind.
#[verifier::rlimit(40)]
pub proof fn bad_run_values_are_refused(t: Seq<(Seq<char>, Val)>, ctx: Seq<char>)
    ensures
        ({
            let bad_address = |v: Option<Val>| match v {
                Some(Val::Int(i)) => i < 0 || i > 0xFFFF,
                Some(_) => true,
                None => false,
            };
            let bad_count = |v: Option<Val>| match v {
                Some(Val::Int(i)) => i < 0,
                Some(_) => true,
                None => false,
            };
            let bad_switch = |v: Option<Val>| v is Some && !(v->0 is Bool);
            &&& bad_address(lookup(t, "exit_above"@)) ==> parameters(t, ctx) is Err
            &&& bad_address(lookup(t, "snap_to"@)) ==> parameters(t, ctx) is Err
            &&& bad_address(lookup(t, "stop_below"@)) ==> parameters(t, ctx) is Err
            &&& bad_address(lookup(t, "byteboozer_ptr"@)) ==> parameters(t, ctx) is Err
            &&& lookup(t, "byteboozer_ptr"@) matches Some(Val::Int(i)) ==> i > 0xFF ==> parameters(
                t,
                ctx,
            ) is Err
            &&& bad_count(lookup(t, "cap"@)) ==> parameters(t, ctx) is Err
            &&& bad_count(lookup(t, "exit_quiescent"@)) ==> parameters(t, ctx) is Err
            &&& bad_count(lookup(t, "version"@)) ==> parameters(t, ctx) is Err
            &&& bad_switch(lookup(t, "analyze_0100"@)) ==> parameters(t, ctx) is Err
            &&& bad_switch(lookup(t, "trim_page_overshoot"@)) ==> parameters(t, ctx) is Err
            &&& bad_switch(lookup(t, "exit_into_written"@)) ==> parameters(t, ctx) is Err
            &&& bad_switch(lookup(t, "byteboozer_end_from_ptr"@)) ==> parameters(t, ctx) is Err
            &&& bad_switch(lookup(t, "use_guess_start"@)) ==> parameters(t, ctx) is Err
        }),
{
    reveal(parameters);
}

/// The text of a pattern key: a string, or strings joined by spaces.
pub open spec fn pattern_text(v: Val) -> Seq<char> {
    match v {
        Val::Str(s) => s,
        Val::StrArr(parts) => joined(parts, " "@),
        _ => Seq::empty(),
    }
}

proof fn alternatives_one_by_one(list: Seq<Seq<char>>, ctx: Seq<char>)
    requires
        alternative_patterns(list, ctx) is Ok,
    ensures
        ({
            let ps = alternative_patterns(list, ctx)->Ok_0;
            &&& ps.len() == list.len()
            &&& forall|i: int|
                0 <= i < list.len() ==> parsed_pattern(#[trigger] list[i]) == Ok::<
                    Seq<crate::pattern::Tok>,
                    Seq<char>,
                >(ps[i])
        }),
    decreases list.len(),
{
    if list.len() > 0 {
        let front = list.drop_last();
        let n = list.len() - 1;
        alternatives_one_by_one(front, ctx);
        let ps = alternative_patterns(list, ctx)->Ok_0;
        let fs = alternative_patterns(front, ctx)->Ok_0;
        assert(list.last() == list[n]);
        assert forall|i: int| 0 <= i < list.len() implies parsed_pattern(#[trigger] list[i])
            == Ok::<Seq<crate::pattern::Tok>, Seq<char>>(ps[i]) by {
            if i < n {
                assert(front[i] == list[i]);
                assert(ps[i] == fs[i]);
            }
        }
    }
}

/// The patterns of `[detect]` are that of `pattern`, if it is there, and behind it those of
/// `any_of`, one for each of its strings. The base is $0801 where it is missing, and the
/// definition matches always only where that is switched on. The entry is the SYS line, an
/// address, or left to a probe.
#[verifier::rlimit(40)]
pub proof fn signatures_list_all_patterns(t: Seq<(Seq<char>, Val)>, ctx: Seq<char>, i: int)
    requires
        signature(t, ctx) is Ok,
    ensures
        ({
            let s = signature(t, ctx)->Ok_0;
            let front: int = if lookup(t, "pattern"@) is Some {
                1
            } else {
                0
            };
            &&& is_number_at(t, "base"@, s.base as int, 0x0801)
            &&& is_switch_at(t, "always"@, s.always)
            &&& lookup(t, "pattern"@) matches Some(v) ==> s.patterns.len() > 0 && parsed_pattern(
                pattern_text(v),
            ) == Ok::<Seq<crate::pattern::Tok>, Seq<char>>(s.patterns[0])
            &&& lookup(t, "any_of"@) matches Some(Val::StrArr(list)) ==> {
                &&& s.patterns.len() == front + list.len()
                &&& 0 <= i < list.len() ==> parsed_pattern(list[i]) == Ok::<
                    Seq<crate::pattern::Tok>,
                    Seq<char>,
                >(s.patterns[front + i])
            }
            &&& !(lookup(t, "any_of"@) is Some && lookup(t, "any_of"@)->0 is StrArr)
                ==> s.patterns.len() == front
            &&& lookup(t, "entry"@) is None ==> s.entry == Entry::Probed
            &&& lookup(t, "entry"@) == Some(Val::Str("sys"@)) ==> s.entry == Entry::Sys
            &&& lookup(t, "entry"@) matches Some(Val::Int(n)) ==> s.entry matches Entry::At(a) && a
                == n
            &&& s.always || s.patterns.len() > 0
        }),
{
    reveal(signature);
    if let Some(Val::StrArr(list)) = lookup(t, "any_of"@) {
        alternatives_one_by_one(list, ctx);
    }
}

/// A probe has an entry, a target, an end pointer, and a pattern with its base; its cap is
/// two million instructions where it is missing. Without one of the others it is refused.
#[verifier::rlimit(40)]
pub proof fn probes_come_from_their_keys(t: Seq<(Seq<char>, Val)>, ctx: Seq<char>)
    ensures
        probe_value(t, ctx) matches Ok(p) ==> {
            &&& lookup(t, "entry"@) is Some && is_number_at(t, "entry"@, p.entry as int, 0)
            &&& lookup(t, "target"@) is Some && is_number_at(t, "target"@, p.target as int, 0)
            &&& lookup(t, "end_ptr"@) is Some && is_number_at(t, "end_ptr"@, p.end_ptr as int, 0)
            &&& lookup(t, "verify_base"@) is Some && is_number_at(
                t,
                "verify_base"@,
                p.verify_base as int,
                0,
            )
            &&& is_number_at(t, "cap"@, p.cap as int, 2_000_000)
            &&& lookup(t, "verify_pattern"@) is Some && parsed_pattern(
                pattern_text(lookup(t, "verify_pattern"@)->0),
            ) == Ok::<Seq<crate::pattern::Tok>, Seq<char>>(p.verify_pattern)
        },
{
}

/// A variant has a name, and a pattern with its base; its correction is 0 where it is
/// missing, and otherwise the number that its key holds, modulo two to the 32nd. Without one
/// of the others it is refused.
#[verifier::rlimit(40)]
pub proof fn variants_come_from_their_keys(t: Seq<(Seq<char>, Val)>, ctx: Seq<char>)
    ensures
        variant_value(t, ctx) matches Ok(v) ==> {
            &&& lookup(t, "name"@) == Some(Val::Str(v.name))
            &&& lookup(t, "base"@) is Some && is_number_at(t, "base"@, v.base as int, 0)
            &&& lookup(t, "pattern"@) is Some && parsed_pattern(
                pattern_text(lookup(t, "pattern"@)->0),
            ) == Ok::<Seq<crate::pattern::Tok>, Seq<char>>(v.pattern)
            &&& lookup(t, "start_adjust"@) is None ==> v.start_adjust == 0
            &&& lookup(t, "start_adjust"@) matches Some(Val::Int(n)) ==> (n - v.start_adjust)
                % 0x1_0000_0000 == 0
        },
{
}

/// Every variant of a file is read, in the order of the file.
pub proof fn variants_are_read_in_order(ts: Seq<Seq<(Seq<char>, Val)>>, ctx: Seq<char>)
    requires
        variant_list(ts, ctx) is Ok,
    ensures
        ({
            let vs = variant_list(ts, ctx)->Ok_0;
            &&& vs.len() == ts.len()
            &&& forall|i: int|
                #![trigger ts[i]]
                0 <= i < ts.len() ==> lookup(ts[i], "name"@) == Some(Val::Str(vs[i].name))
                    && is_number_at(ts[i], "base"@, vs[i].base as int, 0)
        }),
    decreases ts.len(),
{
    if ts.len() > 0 {
        let front = ts.drop_last();
        let n = ts.len() - 1;
        variants_are_read_in_order(front, ctx);
        let vs = variant_list(ts, ctx)->Ok_0;
        let fs = variant_list(front, ctx)->Ok_0;
        assert(ts.last() == ts[n]);
        assert forall|i: int|
            #![trigger ts[i]]
            0 <= i < ts.len() implies lookup(ts[i], "name"@) == Some(Val::Str(vs[i].name))
            && is_number_at(ts[i], "base"@, vs[i].base as int, 0) by {
            if i < n {
                assert(front[i] == ts[i]);
                assert(vs[i] == fs[i]);
            } else {
                variants_come_from_their_keys(
                    ts[n],
                    ctx + " [[variant]] #"@ + crate::fmt::dec(ts.len() as int),
                );
            }
        }
    }
}

/// A definition has the name and the engine of the lines before any header; its signature,
/// probe and parameters are those of the sections `[detect]`, `[probe]` and `[run]`, and its
/// variants those of the `[[variant]]` headers. Without a name, an engine or a `[detect]`
/// section it is refused, and so is an engine of another name.
#[verifier::rlimit(40)]
pub proof fn definitions_come_from_their_sections(d: Document, source: Seq<char>)
    ensures
        definition(d, source) matches Ok(f) ==> {
            &&& f.source == source
            &&& lookup(d.top, "name"@) == Some(Val::Str(f.name))
            &&& lookup(d.top, "engine"@) == Some(Val::Str("generic"@)) || lookup(d.top, "engine"@)
                == Some(Val::Str("timecruncher"@)) || lookup(d.top, "engine"@) == Some(
                Val::Str("crunchab"@),
            )
            &&& section(d.sections, "detect"@) is Some
            &&& signature(section(d.sections, "detect"@)->0, source) == Ok::<
                crate::config::Signature,
                Seq<char>,
            >(f.detect)
            &&& section(d.sections, "probe"@) is None ==> f.probe is None
            &&& section(d.sections, "probe"@) matches Some(t) ==> f.probe is Some && probe_value(
                t,
                source,
            ) == Ok::<crate::config::Probe, Seq<char>>(f.probe->0)
            &&& section(d.sections, "run"@) matches Some(t) ==> parameters(t, source) == Ok::<
                crate::config::Params,
                Seq<char>,
            >(f.run)
            &&& section(d.sections, "run"@) is None ==> parameters(Seq::empty(), source) == Ok::<
                crate::config::Params,
                Seq<char>,
            >(f.run)
            &&& variant_list(d.variants, source) == Ok::<Seq<crate::config::Variant>, Seq<char>>(
                f.variants,
            )
        },
        lookup(d.top, "name"@) is None ==> definition(d, source) is Err,
        lookup(d.top, "engine"@) is None ==> definition(d, source) is Err,
        section(d.sections, "detect"@) is None ==> definition(d, source) is Err,
{
    reveal(definition);
}

/// The three engine names.
#[verifier::rlimit(40)]
pub proof fn engines_have_names(d: Document, source: Seq<char>)
    requires
        definition(d, source) is Ok,
    ensures
        ({
            let e = definition(d, source)->Ok_0.engine;
            &&& lookup(d.top, "engine"@) == Some(Val::Str("generic"@)) ==> e == EngineKind::Generic
            &&& lookup(d.top, "engine"@) == Some(Val::Str("timecruncher"@)) ==> e
                == EngineKind::TimeCruncher
            &&& lookup(d.top, "engine"@) == Some(Val::Str("crunchab"@)) ==> e
                == EngineKind::CrunchAB
        }),
{
    reveal(definition);
    reveal_strlit("generic");
    reveal_strlit("timecruncher");
    reveal_strlit("crunchab");
    assert("generic"@.len() == 7);
    assert("timecruncher"@.len() == 12);
    assert("crunchab"@.len() == 8);
}

/// What is said of a file without a name, without an engine, with an engine of another name,
/// and without a `[detect]` section, in this order.
#[verifier::rlimit(40)]
pub proof fn missing_parts_are_named_in_order(d: Document, source: Seq<char>)
    ensures
        ({
            let named = lookup(d.top, "name"@) is Some && lookup(d.top, "name"@)->0 is Str;
            let engine = lookup(d.top, "engine"@);
            let known = engine == Some(Val::Str("generic"@)) || engine == Some(
                Val::Str("timecruncher"@),
            ) || engine == Some(Val::Str("crunchab"@));
            let e = definition(d, source);
            &&& lookup(d.top, "name"@) is None ==> e == Err::<crate::config::Definition, Seq<char>>(
                source + ": missing top-level `name`"@,
            )
            &&& named && engine is None ==> e == Err::<crate::config::Definition, Seq<char>>(
                source + ": missing top-level `engine`"@,
            )
            &&& engine matches Some(Val::Str(s)) ==> (named && !known ==> e == Err::<
                crate::config::Definition,
                Seq<char>,
            >(source + ": unknown engine \""@ + s + "\""@))
            &&& named && known && section(d.sections, "detect"@) is None ==> e == Err::<
                crate::config::Definition,
                Seq<char>,
            >(source + ": missing [detect] section"@)
        }),
{
    reveal(definition);
}

/// What is said of an address that does not fit sixteen bits.
pub proof fn wide_addresses_are_named(
    t: Seq<(Seq<char>, Val)>,
    key: Seq<char>,
    ctx: Seq<char>,
    i: i64,
)
    requires
        lookup(t, key) == Some(Val::Int(i)),
    ensures
        0 <= i <= 0xFFFF ==> u16_value(t, key, ctx) == Ok::<Option<u16>, Seq<char>>(
            Some(i as u16),
        ),
        !(0 <= i <= 0xFFFF) ==> u16_value(t, key, ctx) == Err::<Option<u16>, Seq<char>>(
            ctx + ": "@ + key + " must be "@ + "a 16-bit integer"@ + ", got "@ + shown(Val::Int(i)),
        ),
{
}

// ---------------------------------------------------------------------------
// What is accepted
// ---------------------------------------------------------------------------

/// Nothing, or a 16-bit address.
pub open spec fn fits_address(v: Option<Val>) -> bool {
    v is None || (v->0 is Int && 0 <= v->0->Int_0 <= 0xFFFF)
}

/// Nothing, or a count.
pub open spec fn fits_count(v: Option<Val>) -> bool {
    v is None || (v->0 is Int && 0 <= v->0->Int_0)
}

/// Nothing, or true or false.
pub open spec fn fits_switch(v: Option<Val>) -> bool {
    v is None || v->0 is Bool
}

/// Nothing, an address or a list of addresses.
pub open spec fn fits_addresses(v: Option<Val>) -> bool {
    ||| fits_address(v)
    ||| v is Some && v->0 is IntArr && forall|k: int|
        0 <= k < v->0->IntArr_0.len() ==> 0 <= #[trigger] v->0->IntArr_0[k] <= 0xFFFF
}

/// Nothing, or a text that is a pattern.
pub open spec fn fits_pattern(v: Option<Val>) -> bool {
    v is None || ((v->0 is Str || v->0 is StrArr) && parsed_pattern(pattern_text(v->0)) is Ok)
}

/// A `[run]` section whose keys are missing or hold what belongs there is accepted.
#[verifier::rlimit(40)]
pub proof fn good_run_values_are_accepted(t: Seq<(Seq<char>, Val)>, ctx: Seq<char>)
    requires
        fits_address(lookup(t, "byteboozer_ptr"@)),
        lookup(t, "byteboozer_ptr"@) is Some ==> lookup(t, "byteboozer_ptr"@)->0->Int_0 <= 0xFF,
        fits_addresses(lookup(t, "stop_pc"@)),
        fits_address(lookup(t, "stop_below"@)),
        fits_address(lookup(t, "exit_above"@)),
        fits_addresses(lookup(t, "snap_start"@)),
        fits_address(lookup(t, "snap_to"@)),
        fits_switch(lookup(t, "analyze_0100"@)),
        fits_switch(lookup(t, "trim_page_overshoot"@)),
        fits_switch(lookup(t, "exit_into_written"@)),
        fits_count(lookup(t, "exit_quiescent"@)),
        fits_switch(lookup(t, "byteboozer_end_from_ptr"@)),
        lookup(t, "byteboozer_name"@) is None || lookup(t, "byteboozer_name"@)->0 is Str,
        fits_switch(lookup(t, "use_guess_start"@)),
        fits_count(lookup(t, "version"@)),
        fits_count(lookup(t, "cap"@)),
    ensures
        parameters(t, ctx) is Ok,
{
    reveal(parameters);
    if let Some(Val::IntArr(list)) = lookup(t, "stop_pc"@) {
        addresses_one_by_one(list, "stop_pc"@, ctx);
    }
    if let Some(Val::IntArr(list)) = lookup(t, "snap_start"@) {
        addresses_one_by_one(list, "snap_start"@, ctx);
    }
}

proof fn alternatives_load(list: Seq<Seq<char>>, ctx: Seq<char>)
    requires
        forall|i: int| 0 <= i < list.len() ==> parsed_pattern(#[trigger] list[i]) is Ok,
    ensures
        alternative_patterns(list, ctx) is Ok,
    decreases list.len(),
{
    if list.len() > 0 {
        let front = list.drop_last();
        assert forall|i: int| 0 <= i < front.len() implies parsed_pattern(
            #[trigger] front[i],
        ) is Ok by {
            assert(front[i] == list[i]);
        }
        alternatives_load(front, ctx);
        assert(parsed_pattern(list[list.len() - 1]) is Ok);
    }
}

/// A `[detect]` section is accepted when its keys are missing or hold what belongs there, its
/// strings are patterns, and it has a pattern or matches always. It is refused without a
/// pattern, and for an entry that is neither the SYS line nor an address.
#[verifier::rlimit(40)]
pub proof fn good_signatures_are_accepted(t: Seq<(Seq<char>, Val)>, ctx: Seq<char>)
    requires
        fits_address(lookup(t, "base"@)),
        fits_switch(lookup(t, "always"@)),
        fits_pattern(lookup(t, "pattern"@)),
        lookup(t, "any_of"@) is None || lookup(t, "any_of"@)->0 is StrArr,
        lookup(t, "any_of"@) is Some ==> forall|i: int|
            0 <= i < lookup(t, "any_of"@)->0->StrArr_0.len() ==> parsed_pattern(
                #[trigger] lookup(t, "any_of"@)->0->StrArr_0[i],
            ) is Ok,
    ensures
        ({
            let entry = lookup(t, "entry"@);
            let good_entry = entry is None || entry == Some(Val::Str("sys"@)) || (entry->0 is Int
                && 0 <= entry->0->Int_0 <= 0xFFFF);
            let patterned = lookup(t, "pattern"@) is Some || lookup(t, "always"@) == Some(
                Val::Bool(true),
            ) || (lookup(t, "any_of"@) is Some && lookup(t, "any_of"@)->0->StrArr_0.len() > 0);
            signature(t, ctx) is Ok <==> good_entry && patterned
        }),
{
    reveal(signature);
    if let Some(Val::StrArr(list)) = lookup(t, "any_of"@) {
        alternatives_load(list, ctx);
        alternatives_one_by_one(list, ctx);
    }
}

/// A probe with all its addresses and a pattern is accepted, and so is a variant with a name,
/// a base and a pattern.
#[verifier::rlimit(40)]
pub proof fn good_probes_and_variants_are_accepted(t: Seq<(Seq<char>, Val)>, ctx: Seq<char>)
    ensures
        ({
            let address = |key: Seq<char>| lookup(t, key) is Some && fits_address(lookup(t, key));
            let pattern = |key: Seq<char>| lookup(t, key) is Some && fits_pattern(lookup(t, key));
            let adjust = lookup(t, "start_adjust"@);
            &&& address("entry"@) && address("target"@) && address("end_ptr"@) && address(
                "verify_base"@,
            ) && pattern("verify_pattern"@) && fits_count(lookup(t, "cap"@)) ==> probe_value(
                t,
                ctx,
            ) is Ok
            &&& lookup(t, "name"@) is Some && lookup(t, "name"@)->0 is Str && address("base"@)
                && pattern("pattern"@) && (adjust is None || adjust->0 is Int) ==> variant_value(
                t,
                ctx,
            ) is Ok
        }),
{
}

/// A definition is accepted exactly when its name and engine are there and known, its sections
/// and variants are accepted, and it has what its engine needs: a probe for CrunchAB, and an
/// entry for the others.
#[verifier::rlimit(40)]
pub proof fn good_definitions_are_accepted(d: Document, source: Seq<char>)
    requires
        lookup(d.top, "name"@) is Some && lookup(d.top, "name"@)->0 is Str,
        lookup(d.top, "engine"@) == Some(Val::Str("generic"@)) || lookup(d.top, "engine"@) == Some(
            Val::Str("timecruncher"@),
        ) || lookup(d.top, "engine"@) == Some(Val::Str("crunchab"@)),
        section(d.sections, "detect"@) is Some,
        signature(section(d.sections, "detect"@)->0, source) is Ok,
        section(d.sections, "probe"@) is Some ==> probe_value(
            section(d.sections, "probe"@)->0,
            source,
        ) is Ok,
        variant_list(d.variants, source) is Ok,
        section(d.sections, "run"@) is Some ==> parameters(
            section(d.sections, "run"@)->0,
            source,
        ) is Ok,
    ensures
        ({
            let crunchab = lookup(d.top, "engine"@) == Some(Val::Str("crunchab"@));
            let entered = signature(section(d.sections, "detect"@)->0, source)->Ok_0.entry
                != Entry::Probed;
            definition(d, source) is Ok <==> if crunchab {
                section(d.sections, "probe"@) is Some
            } else {
                entered
            }
        }),
{
    reveal(definition);
    reveal_strlit("generic");
    reveal_strlit("timecruncher");
    reveal_strlit("crunchab");
    assert("generic"@.len() == 7);
    assert("timecruncher"@.len() == 12);
    assert("crunchab"@.len() == 8);
    good_run_values_are_accepted(Seq::empty(), source);
}

} // verus!
