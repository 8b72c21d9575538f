//! Cruncher config files: what one file defines.
//!
//! The text format is described in [`crate::toml`]. `load_str` parses one file
//! into a [`CruncherConfig`] with validation errors that name the file and key.

use vstd::prelude::*;
use vstd::string::*;

use crate::fmt::{join, push_dec, push_radix, push_signed_dec};
use crate::pattern::Pattern;
use crate::text::{is_text, text_of};
use crate::toml::{parse_raw, show, Pair, Raw, Section, Value};

verus! {

use crate::fmt::{dec, joined, radix_text, signed_dec, texts};
use crate::pattern::{parsed_pattern, Tok};
use crate::text::char_texts;
use crate::toml::{document, sections_of, shown, table_of, variants_of, Document, Val};

#[derive(Clone, Copy, Debug, PartialEq, Eq, Structural)]
pub enum EngineKind {
    Generic,
    TimeCruncher,
    CrunchAB,
}

#[derive(Clone, Copy, Debug, PartialEq, Eq, Structural)]
pub enum Entry {
    /// Read the start address from the BASIC SYS line, like RUN would.
    Sys,
    /// Fixed address.
    At(u16),
    /// No entry; execution state comes from the `[probe]` run (crunchab).
    Probed,
}

#[derive(Clone, Debug)]
pub struct VariantCfg {
    pub name: String,
    pub base: u16,
    pub pattern: Pattern,
    pub start_adjust: i32,
}

#[derive(Clone, Debug)]
pub struct ProbeCfg {
    pub entry: u16,
    pub target: u16,
    pub cap: u64,
    /// Address of the little-endian end pointer captured when `target` is reached.
    pub end_ptr: u16,
    pub verify_base: u16,
    pub verify_pattern: Pattern,
}

#[derive(Clone, Debug)]
pub struct CruncherConfig {
    /// Source file name (for error messages and listings).
    pub source: String,
    pub name: String,
    pub engine: EngineKind,
    pub detect_base: u16,
    /// Match unconditionally (last-resort catch-all definitions).
    pub detect_always: bool,
    pub detect_patterns: Vec<Pattern>,
    pub entry: Entry,
    pub probe: Option<ProbeCfg>,
    // engine parameters ([run])
    pub stop_pc: Vec<u16>,
    /// Alternative phase-1 stop: the PC dropping below this address means the
    /// relocated stub has taken over (covers whole families of stub addresses).
    pub stop_below: Option<u16>,
    pub exit_above: u16,
    pub snap_start: Vec<u16>,
    pub snap_to: u16,
    pub analyze_0100: bool,
    /// "Depack high, page-copy down" crunchers move whole pages, so the final
    /// range overshoots by up to 255 bytes while the staging range carries the
    /// exact payload size. When set, the end is trimmed accordingly.
    pub trim_page_overshoot: bool,
    /// Stricter phase-2 exit: the PC must not only rise above `exit_above` but
    /// land on an address the depacker itself wrote, jumping into the freshly
    /// unpacked program. For crunchers whose depack code lives inside the
    /// crunched file's own area (above `exit_above`).
    pub exit_into_written: bool,
    /// Quiescence-based phase-2 completion (instructions without a new unique
    /// write). Instead of stopping at the first plausible hand-off jump, run
    /// until the writes dry up and report the first plausible jump as the run
    /// address. This is the reliable strategy for nested multi-stage depackers
    /// that jump through their own output while unpacking. 0 = off.
    pub exit_quiescent: u64,
    pub byteboozer_ptr: Option<u8>,
    pub byteboozer_end_from_ptr: bool,
    pub byteboozer_name: String,
    pub use_guess_start: bool,
    pub version: u32,
    pub cap: u64,
    pub variants: Vec<VariantCfg>,
}

// ---------------------------------------------------------------------------
// What a config means
// ---------------------------------------------------------------------------

/// A refinement.
pub struct Variant {
    pub name: Seq<char>,
    pub base: u16,
    pub pattern: Seq<Tok>,
    pub start_adjust: i32,
}

/// A checkpoint run.
pub struct Probe {
    pub entry: u16,
    pub target: u16,
    pub cap: u64,
    pub end_ptr: u16,
    pub verify_base: u16,
    pub verify_pattern: Seq<Tok>,
}

/// How a cruncher is recognized and entered.
pub struct Signature {
    pub base: u16,
    pub always: bool,
    pub patterns: Seq<Seq<Tok>>,
    pub entry: Entry,
}

/// The parameters of the engines.
pub struct Params {
    pub stop_pc: Seq<u16>,
    pub stop_below: Option<u16>,
    pub exit_above: u16,
    pub snap_start: Seq<u16>,
    pub snap_to: u16,
    pub analyze_0100: bool,
    pub trim_page_overshoot: bool,
    pub exit_into_written: bool,
    pub exit_quiescent: u64,
    pub byteboozer_ptr: Option<u8>,
    pub byteboozer_end_from_ptr: bool,
    pub byteboozer_name: Seq<char>,
    pub use_guess_start: bool,
    pub version: u32,
    pub cap: u64,
}

/// A cruncher definition.
pub struct Definition {
    pub source: Seq<char>,
    pub name: Seq<char>,
    pub engine: EngineKind,
    pub detect: Signature,
    pub probe: Option<Probe>,
    pub run: Params,
    pub variants: Seq<Variant>,
}

impl View for VariantCfg {
    type V = Variant;

    open spec fn view(&self) -> Variant {
        Variant {
            name: self.name@,
            base: self.base,
            pattern: self.pattern.toks@,
            start_adjust: self.start_adjust,
        }
    }
}

impl View for ProbeCfg {
    type V = Probe;

    open spec fn view(&self) -> Probe {
        Probe {
            entry: self.entry,
            target: self.target,
            cap: self.cap,
            end_ptr: self.end_ptr,
            verify_base: self.verify_base,
            verify_pattern: self.verify_pattern.toks@,
        }
    }
}

pub open spec fn probe_view(p: Option<ProbeCfg>) -> Option<Probe> {
    match p {
        Some(p) => Some(p@),
        None => None,
    }
}

pub open spec fn patterns_view(v: Seq<Pattern>) -> Seq<Seq<Tok>> {
    Seq::new(v.len(), |i: int| v[i].toks@)
}

pub open spec fn variants_view(v: Seq<VariantCfg>) -> Seq<Variant> {
    Seq::new(v.len(), |i: int| v[i]@)
}

impl View for CruncherConfig {
    type V = Definition;

    open spec fn view(&self) -> Definition {
        Definition {
            source: self.source@,
            name: self.name@,
            engine: self.engine,
            detect: Signature {
                base: self.detect_base,
                always: self.detect_always,
                patterns: patterns_view(self.detect_patterns@),
                entry: self.entry,
            },
            probe: probe_view(self.probe),
            run: Params {
                stop_pc: self.stop_pc@,
                stop_below: self.stop_below,
                exit_above: self.exit_above,
                snap_start: self.snap_start@,
                snap_to: self.snap_to,
                analyze_0100: self.analyze_0100,
                trim_page_overshoot: self.trim_page_overshoot,
                exit_into_written: self.exit_into_written,
                exit_quiescent: self.exit_quiescent,
                byteboozer_ptr: self.byteboozer_ptr,
                byteboozer_end_from_ptr: self.byteboozer_end_from_ptr,
                byteboozer_name: self.byteboozer_name@,
                use_guess_start: self.use_guess_start,
                version: self.version,
                cap: self.cap,
            },
            variants: variants_view(self.variants@),
        }
    }
}

// ---------------------------------------------------------------------------
// Typed values
// ---------------------------------------------------------------------------

/// `r` is the value `s`, or the error of `s` as a text.
pub open spec fn same<T>(r: Result<T, String>, s: Result<T, Seq<char>>) -> bool {
    match r {
        Ok(v) => s == Ok::<T, Seq<char>>(v),
        Err(e) => s == Err::<T, Seq<char>>(e@),
    }
}

/// The first value a table holds for a key.
pub open spec fn lookup(t: Seq<(Seq<char>, Val)>, key: Seq<char>) -> Option<Val>
    decreases t.len(),
{
    if t.len() == 0 {
        None
    } else if t[0].0 == key {
        Some(t[0].1)
    } else {
        lookup(t.skip(1), key)
    }
}

/// The first section of a name.
pub open spec fn section(
    s: Seq<(Seq<char>, Seq<(Seq<char>, Val)>)>,
    name: Seq<char>,
) -> Option<Seq<(Seq<char>, Val)>>
    decreases s.len(),
{
    if s.len() == 0 {
        None
    } else if s[0].0 == name {
        Some(s[0].1)
    } else {
        section(s.skip(1), name)
    }
}

/// The complaint about a value of the wrong type; `got` shows the value.
pub open spec fn type_complaint(
    ctx: Seq<char>,
    key: Seq<char>,
    wanted: Seq<char>,
    got: Seq<char>,
) -> Seq<char> {
    ctx + ": "@ + key + " must be "@ + wanted + ", got "@ + got
}

pub open spec fn u16_value(t: Seq<(Seq<char>, Val)>, key: Seq<char>, ctx: Seq<char>) -> Result<
    Option<u16>,
    Seq<char>,
> {
    match lookup(t, key) {
        None => Ok(None),
        Some(v) => match v {
            Val::Int(i) if 0 <= i <= 0xFFFF => Ok(Some(i as u16)),
            _ => Err(type_complaint(ctx, key, "a 16-bit integer"@, shown(v))),
        },
    }
}

pub open spec fn u64_value(t: Seq<(Seq<char>, Val)>, key: Seq<char>, ctx: Seq<char>) -> Result<
    Option<u64>,
    Seq<char>,
> {
    match lookup(t, key) {
        None => Ok(None),
        Some(v) => match v {
            Val::Int(i) if 0 <= i => Ok(Some(i as u64)),
            _ => Err(type_complaint(ctx, key, "a non-negative integer"@, shown(v))),
        },
    }
}

pub open spec fn bool_value(t: Seq<(Seq<char>, Val)>, key: Seq<char>, ctx: Seq<char>) -> Result<
    bool,
    Seq<char>,
> {
    match lookup(t, key) {
        None => Ok(false),
        Some(v) => match v {
            Val::Bool(b) => Ok(b),
            _ => Err(type_complaint(ctx, key, "true/false"@, shown(v))),
        },
    }
}

pub open spec fn str_value(t: Seq<(Seq<char>, Val)>, key: Seq<char>, ctx: Seq<char>) -> Result<
    Option<Seq<char>>,
    Seq<char>,
> {
    match lookup(t, key) {
        None => Ok(None),
        Some(v) => match v {
            Val::Str(s) => Ok(Some(s)),
            _ => Err(type_complaint(ctx, key, "a string"@, shown(v))),
        },
    }
}

/// A pattern may be a single string or an array of strings joined by spaces.
pub open spec fn pattern_value(t: Seq<(Seq<char>, Val)>, key: Seq<char>, ctx: Seq<char>) -> Result<
    Option<Seq<Tok>>,
    Seq<char>,
> {
    match lookup(t, key) {
        None => Ok(None),
        Some(v) => {
            let text = match v {
                Val::Str(s) => Some(s),
                Val::StrArr(parts) => Some(joined(parts, " "@)),
                _ => None,
            };
            match text {
                None => Err(
                    type_complaint(ctx, key, "a pattern string or array"@, shown(v)),
                ),
                Some(text) => match parsed_pattern(text) {
                    Ok(toks) => Ok(Some(toks)),
                    Err(e) => Err(ctx + ": "@ + key + ": "@ + e),
                },
            }
        },
    }
}

/// The numbers as 16-bit addresses; the first that is none is the error.
pub open spec fn addresses(v: Seq<i64>, key: Seq<char>, ctx: Seq<char>) -> Result<
    Seq<u16>,
    Seq<char>,
>
    decreases v.len(),
{
    if v.len() == 0 {
        Ok(Seq::empty())
    } else {
        match addresses(v.drop_last(), key, ctx) {
            Err(e) => Err(e),
            Ok(list) => if 0 <= v.last() <= 0xFFFF {
                Ok(list.push(v.last() as u16))
            } else {
                Err(
                    ctx + ": "@ + key + ": "@ + signed_dec(v.last() as int)
                        + " out of 16-bit range"@,
                )
            },
        }
    }
}

pub open spec fn u16_list_value(
    t: Seq<(Seq<char>, Val)>,
    key: Seq<char>,
    ctx: Seq<char>,
) -> Result<Seq<u16>, Seq<char>> {
    match lookup(t, key) {
        None => Ok(Seq::empty()),
        Some(v) => match v {
            Val::Int(i) if 0 <= i <= 0xFFFF => Ok(seq![i as u16]),
            Val::IntArr(list) => addresses(list, key, ctx),
            _ => Err(type_complaint(ctx, key, "an integer or integer array"@, shown(v))),
        },
    }
}

fn get<'a>(t: &'a Vec<Pair>, key: &str) -> (r: Option<&'a Value>)
    ensures
        match r {
            Some(v) => lookup(table_of(t@), key@) == Some(v@),
            None => lookup(table_of(t@), key@) is None,
        },
{
    let mut i: usize = 0;
    let ghost all = table_of(t@);
    assert(all.skip(0) =~= all);
    while i < t.len()
        invariant
            i <= t@.len(),
            all == table_of(t@),
            lookup(all, key@) == lookup(all.skip(i as int), key@),
        decreases t@.len() - i,
    {
        proof {
            assert(all.skip(i as int).skip(1) =~= all.skip(i + 1));
            assert(all.skip(i as int)[0] == (t@[i as int].key@, t@[i as int].value@));
        }
        if is_text(t[i].key.as_slice(), key) {
            return Some(&t[i].value);
        }
        i = i + 1;
    }
    None
}

fn find_section<'a>(s: &'a Vec<Section>, name: &str) -> (r: Option<&'a Vec<Pair>>)
    ensures
        match r {
            Some(t) => section(sections_of(s@), name@) == Some(table_of(t@)),
            None => section(sections_of(s@), name@) is None,
        },
{
    let mut i: usize = 0;
    let ghost all = sections_of(s@);
    assert(all.skip(0) =~= all);
    while i < s.len()
        invariant
            i <= s@.len(),
            all == sections_of(s@),
            section(all, name@) == section(all.skip(i as int), name@),
        decreases s@.len() - i,
    {
        proof {
            assert(all.skip(i as int).skip(1) =~= all.skip(i + 1));
            assert(all.skip(i as int)[0] == (s@[i as int].name@, table_of(s@[i as int].table@)));
        }
        if is_text(s[i].name.as_slice(), name) {
            return Some(&s[i].table);
        }
        i = i + 1;
    }
    None
}

/// The complaint about a value of the wrong type; `got` shows the value.
pub fn type_error(ctx: &str, key: &str, wanted: &str, got: &str) -> (e: String)
    ensures
        e@ == type_complaint(ctx@, key@, wanted@, got@),
{
    let mut e: String = String::from_str(ctx);
    e.append(": ");
    e.append(key);
    e.append(" must be ");
    e.append(wanted);
    e.append(", got ");
    e.append(got);
    e
}

fn get_u16(t: &Vec<Pair>, key: &str, ctx: &str) -> (r: Result<Option<u16>, String>)
    ensures
        same(r, u16_value(table_of(t@), key@, ctx@)),
{
    match get(t, key) {
        None => Ok(None),
        Some(v) => match v {
            Value::Int(i) if 0 <= *i && *i <= 0xFFFF => Ok(Some(*i as u16)),
            _ => Err(type_error(ctx, key, "a 16-bit integer", show(v).as_str())),
        },
    }
}

fn get_u64(t: &Vec<Pair>, key: &str, ctx: &str) -> (r: Result<Option<u64>, String>)
    ensures
        same(r, u64_value(table_of(t@), key@, ctx@)),
{
    match get(t, key) {
        None => Ok(None),
        Some(v) => match v {
            Value::Int(i) if 0 <= *i => Ok(Some(*i as u64)),
            _ => Err(type_error(ctx, key, "a non-negative integer", show(v).as_str())),
        },
    }
}

fn get_bool(t: &Vec<Pair>, key: &str, ctx: &str) -> (r: Result<bool, String>)
    ensures
        same(r, bool_value(table_of(t@), key@, ctx@)),
{
    match get(t, key) {
        None => Ok(false),
        Some(v) => match v {
            Value::Bool(b) => Ok(*b),
            _ => Err(type_error(ctx, key, "true/false", show(v).as_str())),
        },
    }
}

fn get_str(t: &Vec<Pair>, key: &str, ctx: &str) -> (r: Result<Option<String>, String>)
    ensures
        match r {
            Ok(None) => str_value(table_of(t@), key@, ctx@) == Ok::<Option<Seq<char>>, Seq<char>>(
                None,
            ),
            Ok(Some(s)) => str_value(table_of(t@), key@, ctx@) == Ok::<
                Option<Seq<char>>,
                Seq<char>,
            >(Some(s@)),
            Err(e) => str_value(table_of(t@), key@, ctx@) == Err::<Option<Seq<char>>, Seq<char>>(
                e@,
            ),
        },
{
    match get(t, key) {
        None => Ok(None),
        Some(v) => match v {
            Value::Str(s) => Ok(Some(text_of(s.as_slice()))),
            _ => Err(type_error(ctx, key, "a string", show(v).as_str())),
        },
    }
}

fn strings_of(parts: &Vec<Vec<char>>) -> (v: Vec<String>)
    ensures
        texts(v@) == char_texts(parts@),
{
    let mut v: Vec<String> = Vec::new();
    let mut i: usize = 0;
    while i < parts.len()
        invariant
            i <= parts@.len(),
            v@.len() == i,
            forall|j: int| 0 <= j < i ==> (#[trigger] v@[j])@ == parts@[j]@,
        decreases parts@.len() - i,
    {
        v.push(text_of(parts[i].as_slice()));
        i = i + 1;
    }
    assert(texts(v@) =~= char_texts(parts@));
    v
}

fn prefixed(ctx: &str, key: &str, message: &str) -> (e: String)
    ensures
        e@ == ctx@ + ": "@ + key@ + ": "@ + message@,
{
    let mut e: String = String::from_str(ctx);
    e.append(": ");
    e.append(key);
    e.append(": ");
    e.append(message);
    e
}

fn get_pattern(t: &Vec<Pair>, key: &str, ctx: &str) -> (r: Result<Option<Pattern>, String>)
    ensures
        match r {
            Ok(None) => pattern_value(table_of(t@), key@, ctx@) == Ok::<
                Option<Seq<Tok>>,
                Seq<char>,
            >(None),
            Ok(Some(p)) => pattern_value(table_of(t@), key@, ctx@) == Ok::<
                Option<Seq<Tok>>,
                Seq<char>,
            >(Some(p.toks@)),
            Err(e) => pattern_value(table_of(t@), key@, ctx@) == Err::<
                Option<Seq<Tok>>,
                Seq<char>,
            >(e@),
        },
{
    match get(t, key) {
        None => Ok(None),
        Some(v) => {
            let text: String = match v {
                Value::Str(s) => text_of(s.as_slice()),
                Value::StrArr(parts) => join(&strings_of(parts), " "),
                _ => {
                    return Err(
                        type_error(ctx, key, "a pattern string or array", show(v).as_str()),
                    );
                },
            };
            match Pattern::parse(text.as_str()) {
                Ok(p) => Ok(Some(p)),
                Err(e) => Err(prefixed(ctx, key, e.as_str())),
            }
        },
    }
}

proof fn early_address_error_stays(v: Seq<i64>, n: int, key: Seq<char>, ctx: Seq<char>)
    requires
        0 <= n <= v.len(),
        addresses(v.take(n), key, ctx) is Err,
    ensures
        addresses(v, key, ctx) == addresses(v.take(n), key, ctx),
    decreases v.len(),
{
    if n < v.len() {
        assert(v.drop_last().take(n) =~= v.take(n));
        early_address_error_stays(v.drop_last(), n, key, ctx);
    } else {
        assert(v.take(n) =~= v);
    }
}

fn get_u16_list(t: &Vec<Pair>, key: &str, ctx: &str) -> (r: Result<Vec<u16>, String>)
    ensures
        match r {
            Ok(v) => u16_list_value(table_of(t@), key@, ctx@) == Ok::<Seq<u16>, Seq<char>>(v@),
            Err(e) => u16_list_value(table_of(t@), key@, ctx@) == Err::<Seq<u16>, Seq<char>>(e@),
        },
{
    match get(t, key) {
        None => {
            let v: Vec<u16> = Vec::new();
            Ok(v)
        },
        Some(v) => match v {
            Value::Int(i) if 0 <= *i && *i <= 0xFFFF => {
                let mut out: Vec<u16> = Vec::new();
                out.push(*i as u16);
                assert(out@ =~= seq![*i as u16]);
                Ok(out)
            },
            Value::IntArr(list) => {
                let mut out: Vec<u16> = Vec::new();
                let mut k: usize = 0;
                while k < list.len()
                    invariant
                        k <= list@.len(),
                        lookup(table_of(t@), key@) == Some(v@),
                        v@ == Val::IntArr(list@),
                        addresses(list@.take(k as int), key@, ctx@) == Ok::<Seq<u16>, Seq<char>>(
                            out@,
                        ),
                    decreases list@.len() - k,
                {
                    let i: i64 = list[k];
                    assert(list@.take(k + 1).drop_last() =~= list@.take(k as int));
                    if 0 <= i && i <= 0xFFFF {
                        out.push(i as u16);
                    } else {
                        let mut e: String = String::from_str(ctx);
                        e.append(": ");
                        e.append(key);
                        e.append(": ");
                        push_signed_dec(&mut e, i);
                        e.append(" out of 16-bit range");
                        proof {
                            early_address_error_stays(list@, k + 1, key@, ctx@);
                        }
                        return Err(e);
                    }
                    k = k + 1;
                }
                assert(list@.take(k as int) =~= list@);
                Ok(out)
            },
            _ => Err(type_error(ctx, key, "an integer or integer array", show(v).as_str())),
        },
    }
}

// ---------------------------------------------------------------------------
// Putting a definition together
// ---------------------------------------------------------------------------

/// What is wrong with a result, if anything.
pub open spec fn problem<T>(r: Result<T, Seq<char>>) -> Option<Seq<char>> {
    match r {
        Ok(_) => None,
        Err(e) => Some(e),
    }
}

/// The earlier of two problems.
pub open spec fn earlier(a: Option<Seq<char>>, b: Option<Seq<char>>) -> Option<Seq<char>> {
    if a is Some {
        a
    } else {
        b
    }
}

/// A value that must be there.
pub open spec fn required<T>(r: Result<Option<T>, Seq<char>>, missing: Seq<char>) -> Result<
    T,
    Seq<char>,
> {
    match r {
        Err(e) => Err(e),
        Ok(None) => Err(missing),
        Ok(Some(v)) => Ok(v),
    }
}

/// A value with a default.
pub open spec fn defaulted<T>(r: Result<Option<T>, Seq<char>>, default_value: T) -> Result<
    T,
    Seq<char>,
> {
    match r {
        Err(e) => Err(e),
        Ok(None) => Ok(default_value),
        Ok(Some(v)) => Ok(v),
    }
}

/// The integer as 32 bits hold it.
pub open spec fn truncated(v: int) -> i32 {
    let m = v % 0x1_0000_0000;
    if m >= 0x8000_0000 {
        (m - 0x1_0000_0000) as i32
    } else {
        m as i32
    }
}

pub open spec fn name_value(d: Document, ctx: Seq<char>) -> Result<Seq<char>, Seq<char>> {
    required(str_value(d.top, "name"@, ctx), ctx + ": missing top-level `name`"@)
}

pub open spec fn engine_value(d: Document, ctx: Seq<char>) -> Result<EngineKind, Seq<char>> {
    match required(str_value(d.top, "engine"@, ctx), ctx + ": missing top-level `engine`"@) {
        Err(e) => Err(e),
        Ok(s) => if s == "generic"@ {
            Ok(EngineKind::Generic)
        } else if s == "timecruncher"@ {
            Ok(EngineKind::TimeCruncher)
        } else if s == "crunchab"@ {
            Ok(EngineKind::CrunchAB)
        } else {
            Err(ctx + ": unknown engine \""@ + s + "\""@)
        },
    }
}

/// The strings of an `any_of` array; anything else counts as none.
pub open spec fn alternatives(t: Seq<(Seq<char>, Val)>) -> Seq<Seq<char>> {
    match lookup(t, "any_of"@) {
        Some(Val::StrArr(list)) => list,
        _ => Seq::empty(),
    }
}

/// The patterns a list of texts spells; the first that is none is the error.
pub open spec fn alternative_patterns(list: Seq<Seq<char>>, ctx: Seq<char>) -> Result<
    Seq<Seq<Tok>>,
    Seq<char>,
>
    decreases list.len(),
{
    if list.len() == 0 {
        Ok(Seq::empty())
    } else {
        match alternative_patterns(list.drop_last(), ctx) {
            Err(e) => Err(e),
            Ok(ps) => match parsed_pattern(list.last()) {
                Ok(toks) => Ok(ps.push(toks)),
                Err(e) => Err(ctx + ": any_of["@ + dec(list.len() - 1) + "]: "@ + e),
            },
        }
    }
}

pub open spec fn entry_value(t: Seq<(Seq<char>, Val)>, ctx: Seq<char>) -> Result<
    Entry,
    Seq<char>,
> {
    match lookup(t, "entry"@) {
        None => Ok(Entry::Probed),
        Some(v) => match v {
            Val::Str(s) if s == "sys"@ => Ok(Entry::Sys),
            Val::Int(i) if 0 <= i <= 0xFFFF => Ok(Entry::At(i as u16)),
            _ => Err(type_complaint(ctx, "entry"@, "\"sys\" or an address"@, shown(v))),
        },
    }
}

/// What the `[detect]` section says.
#[verifier::opaque]
pub open spec fn signature(t: Seq<(Seq<char>, Val)>, ctx: Seq<char>) -> Result<
    Signature,
    Seq<char>,
> {
    let base = defaulted(u16_value(t, "base"@, ctx), 0x0801u16);
    let always = bool_value(t, "always"@, ctx);
    let pattern = pattern_value(t, "pattern"@, ctx);
    let any_of = alternative_patterns(alternatives(t), ctx);
    let patterns = match pattern->Ok_0 {
        Some(toks) => seq![toks] + any_of->Ok_0,
        None => any_of->Ok_0,
    };
    let entry = entry_value(t, ctx);
    let p1 = earlier(problem(base), problem(always));
    let p2 = earlier(p1, problem(pattern));
    let p3 = earlier(p2, problem(any_of));
    let p4 = earlier(
        p3,
        if patterns.len() == 0 && !always->Ok_0 {
            Some(ctx + ": [detect] needs `pattern`, `any_of` or `always = true`"@)
        } else {
            None
        },
    );
    match earlier(p4, problem(entry)) {
        Some(e) => Err(e),
        None => Ok(
            Signature {
                base: base->Ok_0,
                always: always->Ok_0,
                patterns,
                entry: entry->Ok_0,
            },
        ),
    }
}

/// A 16-bit value that `[probe]` must have.
pub open spec fn probe_address(t: Seq<(Seq<char>, Val)>, key: Seq<char>, ctx: Seq<char>) -> Result<
    u16,
    Seq<char>,
> {
    required(u16_value(t, key, ctx), ctx + ": [probe] missing `"@ + key + "`"@)
}

/// What a `[probe]` section says.
pub open spec fn probe_value(t: Seq<(Seq<char>, Val)>, ctx: Seq<char>) -> Result<Probe, Seq<char>> {
    let entry = probe_address(t, "entry"@, ctx);
    let target = probe_address(t, "target"@, ctx);
    let cap = defaulted(u64_value(t, "cap"@, ctx), 2_000_000u64);
    let end_ptr = probe_address(t, "end_ptr"@, ctx);
    let verify_base = probe_address(t, "verify_base"@, ctx);
    let verify_pattern = required(
        pattern_value(t, "verify_pattern"@, ctx),
        ctx + ": [probe] missing `verify_pattern`"@,
    );
    let p1 = earlier(problem(entry), problem(target));
    let p2 = earlier(p1, problem(cap));
    let p3 = earlier(p2, problem(end_ptr));
    let p4 = earlier(p3, problem(verify_base));
    match earlier(p4, problem(verify_pattern)) {
        Some(e) => Err(e),
        None => Ok(
            Probe {
                entry: entry->Ok_0,
                target: target->Ok_0,
                cap: cap->Ok_0,
                end_ptr: end_ptr->Ok_0,
                verify_base: verify_base->Ok_0,
                verify_pattern: verify_pattern->Ok_0,
            },
        ),
    }
}

pub open spec fn probe_section(d: Document, ctx: Seq<char>) -> Result<Option<Probe>, Seq<char>> {
    match section(d.sections, "probe"@) {
        None => Ok(None),
        Some(t) => match probe_value(t, ctx) {
            Err(e) => Err(e),
            Ok(p) => Ok(Some(p)),
        },
    }
}

pub open spec fn adjustment(t: Seq<(Seq<char>, Val)>, ctx: Seq<char>) -> Result<i32, Seq<char>> {
    match lookup(t, "start_adjust"@) {
        None => Ok(0),
        Some(v) => match v {
            Val::Int(i) => Ok(truncated(i as int)),
            _ => Err(type_complaint(ctx, "start_adjust"@, "an integer"@, shown(v))),
        },
    }
}

/// What a `[[variant]]` says.
pub open spec fn variant_value(t: Seq<(Seq<char>, Val)>, ctx: Seq<char>) -> Result<
    Variant,
    Seq<char>,
> {
    let name = required(str_value(t, "name"@, ctx), ctx + ": missing `name`"@);
    let base = required(u16_value(t, "base"@, ctx), ctx + ": missing `base`"@);
    let pattern = required(pattern_value(t, "pattern"@, ctx), ctx + ": missing `pattern`"@);
    let start_adjust = adjustment(t, ctx);
    let p1 = earlier(problem(name), problem(base));
    let p2 = earlier(p1, problem(pattern));
    match earlier(p2, problem(start_adjust)) {
        Some(e) => Err(e),
        None => Ok(
            Variant {
                name: name->Ok_0,
                base: base->Ok_0,
                pattern: pattern->Ok_0,
                start_adjust: start_adjust->Ok_0,
            },
        ),
    }
}

/// What the variants say, in order; the first with an error decides.
pub open spec fn variant_list(ts: Seq<Seq<(Seq<char>, Val)>>, ctx: Seq<char>) -> Result<
    Seq<Variant>,
    Seq<char>,
>
    decreases ts.len(),
{
    if ts.len() == 0 {
        Ok(Seq::empty())
    } else {
        match variant_list(ts.drop_last(), ctx) {
            Err(e) => Err(e),
            Ok(list) => match variant_value(
                ts.last(),
                ctx + " [[variant]] #"@ + dec(ts.len() as int),
            ) {
                Err(e) => Err(e),
                Ok(v) => Ok(list.push(v)),
            },
        }
    }
}

pub open spec fn byteboozer_pointer(t: Seq<(Seq<char>, Val)>, ctx: Seq<char>) -> Result<
    Option<u8>,
    Seq<char>,
> {
    match u16_value(t, "byteboozer_ptr"@, ctx) {
        Err(e) => Err(e),
        Ok(None) => Ok(None),
        Ok(Some(v)) => if v <= 0xFF {
            Ok(Some(v as u8))
        } else {
            Err(
                ctx + ": byteboozer_ptr must be a zero-page address, got 0x"@ + radix_text(
                    v as int,
                    16,
                    false,
                ),
            )
        },
    }
}

/// What the `[run]` section says.
#[verifier::opaque]
pub open spec fn parameters(t: Seq<(Seq<char>, Val)>, ctx: Seq<char>) -> Result<
    Params,
    Seq<char>,
> {
    let byteboozer_ptr = byteboozer_pointer(t, ctx);
    let stop_pc = u16_list_value(t, "stop_pc"@, ctx);
    let stop_below = u16_value(t, "stop_below"@, ctx);
    let exit_above = defaulted(u16_value(t, "exit_above"@, ctx), 0x0800u16);
    let snap_start = u16_list_value(t, "snap_start"@, ctx);
    let snap_to = defaulted(u16_value(t, "snap_to"@, ctx), 0x0801u16);
    let analyze_0100 = bool_value(t, "analyze_0100"@, ctx);
    let trim_page_overshoot = bool_value(t, "trim_page_overshoot"@, ctx);
    let exit_into_written = bool_value(t, "exit_into_written"@, ctx);
    let exit_quiescent = defaulted(u64_value(t, "exit_quiescent"@, ctx), 0u64);
    let byteboozer_end_from_ptr = bool_value(t, "byteboozer_end_from_ptr"@, ctx);
    let byteboozer_name = defaulted(str_value(t, "byteboozer_name"@, ctx), "Byte Boozer"@);
    let use_guess_start = bool_value(t, "use_guess_start"@, ctx);
    let version = defaulted(u64_value(t, "version"@, ctx), 0u64);
    let cap = defaulted(u64_value(t, "cap"@, ctx), 250_000_000u64);
    let p1 = earlier(problem(byteboozer_ptr), problem(stop_pc));
    let p2 = earlier(p1, problem(stop_below));
    let p3 = earlier(p2, problem(exit_above));
    let p4 = earlier(p3, problem(snap_start));
    let p5 = earlier(p4, problem(snap_to));
    let p6 = earlier(p5, problem(analyze_0100));
    let p7 = earlier(p6, problem(trim_page_overshoot));
    let p8 = earlier(p7, problem(exit_into_written));
    let p9 = earlier(p8, problem(exit_quiescent));
    let p10 = earlier(p9, problem(byteboozer_end_from_ptr));
    let p11 = earlier(p10, problem(byteboozer_name));
    let p12 = earlier(p11, problem(use_guess_start));
    let p13 = earlier(p12, problem(version));
    match earlier(p13, problem(cap)) {
        Some(e) => Err(e),
        None => Ok(
            Params {
                stop_pc: stop_pc->Ok_0,
                stop_below: stop_below->Ok_0,
                exit_above: exit_above->Ok_0,
                snap_start: snap_start->Ok_0,
                snap_to: snap_to->Ok_0,
                analyze_0100: analyze_0100->Ok_0,
                trim_page_overshoot: trim_page_overshoot->Ok_0,
                exit_into_written: exit_into_written->Ok_0,
                exit_quiescent: exit_quiescent->Ok_0,
                byteboozer_ptr: byteboozer_ptr->Ok_0,
                byteboozer_end_from_ptr: byteboozer_end_from_ptr->Ok_0,
                byteboozer_name: byteboozer_name->Ok_0,
                use_guess_start: use_guess_start->Ok_0,
                version: (version->Ok_0 % 0x1_0000_0000) as u32,
                cap: cap->Ok_0,
            },
        ),
    }
}

/// The keys of a section, none where it is missing.
pub open spec fn section_or_empty(d: Document, name: Seq<char>) -> Seq<(Seq<char>, Val)> {
    match section(d.sections, name) {
        Some(t) => t,
        None => Seq::empty(),
    }
}

/// What a document defines.
#[verifier::opaque]
pub open spec fn definition(d: Document, source: Seq<char>) -> Result<Definition, Seq<char>> {
    let name = name_value(d, source);
    let engine = engine_value(d, source);
    let detect = signature(section_or_empty(d, "detect"@), source);
    let probe = probe_section(d, source);
    let variants = variant_list(d.variants, source);
    let run = parameters(section_or_empty(d, "run"@), source);
    let p1 = earlier(problem(name), problem(engine));
    let p2 = earlier(
        p1,
        if section(d.sections, "detect"@) is None {
            Some(source + ": missing [detect] section"@)
        } else {
            None
        },
    );
    let p3 = earlier(p2, problem(detect));
    let p4 = earlier(p3, problem(probe));
    let p5 = earlier(
        p4,
        if engine->Ok_0 != EngineKind::CrunchAB && detect->Ok_0.entry == Entry::Probed {
            Some(source + ": [detect] needs `entry` for engine != crunchab"@)
        } else if engine->Ok_0 == EngineKind::CrunchAB && probe->Ok_0 is None {
            Some(source + ": engine crunchab needs a [probe] section"@)
        } else {
            None
        },
    );
    let p6 = earlier(p5, problem(variants));
    match earlier(p6, problem(run)) {
        Some(e) => Err(e),
        None => Ok(
            Definition {
                source,
                name: name->Ok_0,
                engine: engine->Ok_0,
                detect: detect->Ok_0,
                probe: probe->Ok_0,
                run: run->Ok_0,
                variants: variants->Ok_0,
            },
        ),
    }
}

/// What a config text defines.
pub open spec fn loaded_config(text: Seq<char>, source: Seq<char>) -> Result<
    Definition,
    Seq<char>,
> {
    match document(text, source) {
        Err(e) => Err(e),
        Ok(d) => definition(d, source),
    }
}

fn with_context(ctx: &str, message: &str) -> (e: String)
    ensures
        e@ == ctx@ + message@,
{
    let mut e: String = String::from_str(ctx);
    e.append(message);
    e
}

fn read_name(raw: &Raw, ctx: &str) -> (r: Result<String, String>)
    ensures
        match r {
            Ok(s) => name_value(raw@, ctx@) == Ok::<Seq<char>, Seq<char>>(s@),
            Err(e) => name_value(raw@, ctx@) == Err::<Seq<char>, Seq<char>>(e@),
        },
{
    match get_str(&raw.top, "name", ctx) {
        Err(e) => Err(e),
        Ok(None) => Err(with_context(ctx, ": missing top-level `name`")),
        Ok(Some(s)) => Ok(s),
    }
}

fn same_string(a: &String, b: &str) -> (same: bool)
    ensures
        same == (a@ == b@),
{
    is_text(crate::text::chars_of(a.as_str()).as_slice(), b)
}

fn read_engine(raw: &Raw, ctx: &str) -> (r: Result<EngineKind, String>)
    ensures
        same(r, engine_value(raw@, ctx@)),
{
    match get_str(&raw.top, "engine", ctx) {
        Err(e) => Err(e),
        Ok(None) => Err(with_context(ctx, ": missing top-level `engine`")),
        Ok(Some(s)) => if same_string(&s, "generic") {
            Ok(EngineKind::Generic)
        } else if same_string(&s, "timecruncher") {
            Ok(EngineKind::TimeCruncher)
        } else if same_string(&s, "crunchab") {
            Ok(EngineKind::CrunchAB)
        } else {
            let mut e: String = String::from_str(ctx);
            e.append(": unknown engine \"");
            e.append(s.as_str());
            e.append("\"");
            Err(e)
        },
    }
}

proof fn early_alternative_error_stays(list: Seq<Seq<char>>, n: int, ctx: Seq<char>)
    requires
        0 <= n <= list.len(),
        alternative_patterns(list.take(n), ctx) is Err,
    ensures
        alternative_patterns(list, ctx) == alternative_patterns(list.take(n), ctx),
    decreases list.len(),
{
    if n < list.len() {
        assert(list.drop_last().take(n) =~= list.take(n));
        early_alternative_error_stays(list.drop_last(), n, ctx);
    } else {
        assert(list.take(n) =~= list);
    }
}

/// Add the patterns of `any_of` to `out`.
fn read_alternatives(t: &Vec<Pair>, ctx: &str, out: &mut Vec<Pattern>) -> (r: Result<(), String>)
    ensures
        match r {
            Ok(_) => ({
                let more = alternative_patterns(alternatives(table_of(t@)), ctx@);
                &&& more is Ok
                &&& patterns_view(final(out)@) == patterns_view(old(out)@) + more->Ok_0
            }),
            Err(e) => alternative_patterns(alternatives(table_of(t@)), ctx@) == Err::<
                Seq<Seq<Tok>>,
                Seq<char>,
            >(e@),
        },
{
    let ghost start = patterns_view(out@);
    match get(t, "any_of") {
        Some(Value::StrArr(list)) => {
            let ghost all = char_texts(list@);
            let mut i: usize = 0;
            proof {
                assert(all.take(0) =~= Seq::empty());
                assert(start + Seq::<Seq<Tok>>::empty() =~= start);
            }
            while i < list.len()
                invariant
                    i <= list@.len(),
                    all == char_texts(list@),
                    all == alternatives(table_of(t@)),
                    alternative_patterns(all.take(i as int), ctx@) is Ok,
                    patterns_view(out@) == start + alternative_patterns(
                        all.take(i as int),
                        ctx@,
                    )->Ok_0,
                decreases list@.len() - i,
            {
                proof {
                    assert(all.take(i + 1).drop_last() =~= all.take(i as int));
                    assert(all.take(i + 1).last() == list@[i as int]@);
                }
                match Pattern::parse(text_of(list[i].as_slice()).as_str()) {
                    Ok(p) => {
                        let ghost before = out@;
                        out.push(p);
                        proof {
                            assert(patterns_view(out@) =~= patterns_view(before).push(p.toks@));
                            assert(patterns_view(out@) =~= start + alternative_patterns(
                                all.take(i + 1),
                                ctx@,
                            )->Ok_0);
                        }
                    },
                    Err(m) => {
                        let mut e: String = String::from_str(ctx);
                        e.append(": any_of[");
                        push_dec(&mut e, i as u128);
                        e.append("]: ");
                        e.append(m.as_str());
                        proof {
                            early_alternative_error_stays(all, i + 1, ctx@);
                        }
                        return Err(e);
                    },
                }
                i = i + 1;
            }
            assert(all.take(i as int) =~= all);
            Ok(())
        },
        _ => {
            assert(patterns_view(out@) =~= start + Seq::<Seq<Tok>>::empty());
            Ok(())
        },
    }
}

fn read_entry(t: &Vec<Pair>, ctx: &str) -> (r: Result<Entry, String>)
    ensures
        same(r, entry_value(table_of(t@), ctx@)),
{
    match get(t, "entry") {
        None => Ok(Entry::Probed),
        Some(v) => match v {
            Value::Str(s) if is_text(s.as_slice(), "sys") => Ok(Entry::Sys),
            Value::Int(i) if 0 <= *i && *i <= 0xFFFF => Ok(Entry::At(*i as u16)),
            _ => Err(type_error(ctx, "entry", "\"sys\" or an address", show(v).as_str())),
        },
    }
}

struct DetectCfg {
    base: u16,
    always: bool,
    patterns: Vec<Pattern>,
    entry: Entry,
}

fn read_detect(t: &Vec<Pair>, ctx: &str) -> (r: Result<DetectCfg, String>)
    ensures
        match r {
            Ok(d) => signature(table_of(t@), ctx@) == Ok::<Signature, Seq<char>>(
                Signature {
                    base: d.base,
                    always: d.always,
                    patterns: patterns_view(d.patterns@),
                    entry: d.entry,
                },
            ),
            Err(e) => signature(table_of(t@), ctx@) == Err::<Signature, Seq<char>>(e@),
        },
{
    reveal(signature);
    let base: u16 = match get_u16(t, "base", ctx) {
        Err(e) => {
            return Err(e);
        },
        Ok(None) => 0x0801,
        Ok(Some(v)) => v,
    };
    let always: bool = match get_bool(t, "always", ctx) {
        Err(e) => {
            return Err(e);
        },
        Ok(b) => b,
    };
    let mut patterns: Vec<Pattern> = Vec::new();
    assert(patterns_view(patterns@) =~= Seq::empty());
    match get_pattern(t, "pattern", ctx) {
        Err(e) => {
            return Err(e);
        },
        Ok(None) => {},
        Ok(Some(p)) => {
            patterns.push(p);
            assert(patterns_view(patterns@) =~= seq![p.toks@]);
        },
    }
    let ghost first = patterns_view(patterns@);
    match read_alternatives(t, ctx, &mut patterns) {
        Err(e) => {
            return Err(e);
        },
        Ok(_) => {},
    }
    proof {
        let more = alternative_patterns(alternatives(table_of(t@)), ctx@)->Ok_0;
        if first.len() == 0 {
            assert(first + more =~= more);
        }
        assert(patterns_view(patterns@).len() == patterns@.len());
    }
    if patterns.len() == 0 && !always {
        return Err(
            with_context(ctx, ": [detect] needs `pattern`, `any_of` or `always = true`"),
        );
    }
    match read_entry(t, ctx) {
        Err(e) => Err(e),
        Ok(entry) => Ok(DetectCfg { base, always, patterns, entry }),
    }
}

fn need(t: &Vec<Pair>, key: &str, ctx: &str) -> (r: Result<u16, String>)
    ensures
        same(r, probe_address(table_of(t@), key@, ctx@)),
{
    match get_u16(t, key, ctx) {
        Err(e) => Err(e),
        Ok(Some(v)) => Ok(v),
        Ok(None) => {
            let mut e: String = String::from_str(ctx);
            e.append(": [probe] missing `");
            e.append(key);
            e.append("`");
            Err(e)
        },
    }
}

fn read_probe(t: &Vec<Pair>, ctx: &str) -> (r: Result<ProbeCfg, String>)
    ensures
        match r {
            Ok(p) => probe_value(table_of(t@), ctx@) == Ok::<Probe, Seq<char>>(p@),
            Err(e) => probe_value(table_of(t@), ctx@) == Err::<Probe, Seq<char>>(e@),
        },
{
    let entry: u16 = match need(t, "entry", ctx) {
        Err(e) => {
            return Err(e);
        },
        Ok(v) => v,
    };
    let target: u16 = match need(t, "target", ctx) {
        Err(e) => {
            return Err(e);
        },
        Ok(v) => v,
    };
    let cap: u64 = match get_u64(t, "cap", ctx) {
        Err(e) => {
            return Err(e);
        },
        Ok(None) => 2_000_000,
        Ok(Some(v)) => v,
    };
    let end_ptr: u16 = match need(t, "end_ptr", ctx) {
        Err(e) => {
            return Err(e);
        },
        Ok(v) => v,
    };
    let verify_base: u16 = match need(t, "verify_base", ctx) {
        Err(e) => {
            return Err(e);
        },
        Ok(v) => v,
    };
    match get_pattern(t, "verify_pattern", ctx) {
        Err(e) => Err(e),
        Ok(None) => Err(with_context(ctx, ": [probe] missing `verify_pattern`")),
        Ok(Some(verify_pattern)) => Ok(
            ProbeCfg { entry, target, cap, end_ptr, verify_base, verify_pattern },
        ),
    }
}

fn truncate(v: i64) -> (t: i32)
    ensures
        t == truncated(v as int),
{
    let shifted: i128 = v as i128 + 0x8000_0000_0000_0000;
    // The shift is a multiple of 2^32, so it does not change the remainder.
    let m: i128 = shifted % 0x1_0000_0000;
    assert(m == (v as int) % 0x1_0000_0000) by (nonlinear_arith)
        requires
            m == (v + 0x8000_0000_0000_0000) % 0x1_0000_0000,
    ;
    if m >= 0x8000_0000 {
        (m - 0x1_0000_0000) as i32
    } else {
        m as i32
    }
}

fn read_variant(t: &Vec<Pair>, ctx: &str) -> (r: Result<VariantCfg, String>)
    ensures
        match r {
            Ok(v) => variant_value(table_of(t@), ctx@) == Ok::<Variant, Seq<char>>(v@),
            Err(e) => variant_value(table_of(t@), ctx@) == Err::<Variant, Seq<char>>(e@),
        },
{
    let name: String = match get_str(t, "name", ctx) {
        Err(e) => {
            return Err(e);
        },
        Ok(None) => {
            return Err(with_context(ctx, ": missing `name`"));
        },
        Ok(Some(s)) => s,
    };
    let base: u16 = match get_u16(t, "base", ctx) {
        Err(e) => {
            return Err(e);
        },
        Ok(None) => {
            return Err(with_context(ctx, ": missing `base`"));
        },
        Ok(Some(v)) => v,
    };
    let pattern: Pattern = match get_pattern(t, "pattern", ctx) {
        Err(e) => {
            return Err(e);
        },
        Ok(None) => {
            return Err(with_context(ctx, ": missing `pattern`"));
        },
        Ok(Some(p)) => p,
    };
    let start_adjust: i32 = match get(t, "start_adjust") {
        None => 0,
        Some(v) => match v {
            Value::Int(i) => truncate(*i),
            _ => {
                return Err(type_error(ctx, "start_adjust", "an integer", show(v).as_str()));
            },
        },
    };
    Ok(VariantCfg { name, base, pattern, start_adjust })
}

proof fn early_variant_error_stays(ts: Seq<Seq<(Seq<char>, Val)>>, n: int, ctx: Seq<char>)
    requires
        0 <= n <= ts.len(),
        variant_list(ts.take(n), ctx) is Err,
    ensures
        variant_list(ts, ctx) == variant_list(ts.take(n), ctx),
    decreases ts.len(),
{
    if n < ts.len() {
        assert(ts.drop_last().take(n) =~= ts.take(n));
        early_variant_error_stays(ts.drop_last(), n, ctx);
    } else {
        assert(ts.take(n) =~= ts);
    }
}

fn read_variants(v: &Vec<Vec<Pair>>, ctx: &str) -> (r: Result<Vec<VariantCfg>, String>)
    ensures
        match r {
            Ok(out) => variant_list(variants_of(v@), ctx@) == Ok::<Seq<Variant>, Seq<char>>(
                variants_view(out@),
            ),
            Err(e) => variant_list(variants_of(v@), ctx@) == Err::<Seq<Variant>, Seq<char>>(e@),
        },
{
    let ghost all = variants_of(v@);
    let mut out: Vec<VariantCfg> = Vec::new();
    let mut i: usize = 0;
    proof {
        assert(variants_view(out@) =~= Seq::empty());
        assert(all.take(0) =~= Seq::empty());
    }
    while i < v.len()
        invariant
            i <= v@.len(),
            all == variants_of(v@),
            variant_list(all.take(i as int), ctx@) == Ok::<Seq<Variant>, Seq<char>>(
                variants_view(out@),
            ),
        decreases v@.len() - i,
    {
        let mut vctx: String = String::from_str(ctx);
        vctx.append(" [[variant]] #");
        push_dec(&mut vctx, i as u128 + 1);
        proof {
            assert(all.take(i + 1).drop_last() =~= all.take(i as int));
            assert(all.take(i + 1).last() == table_of(v@[i as int]@));
        }
        match read_variant(&v[i], vctx.as_str()) {
            Err(e) => {
                proof {
                    early_variant_error_stays(all, i + 1, ctx@);
                }
                return Err(e);
            },
            Ok(variant) => {
                let ghost before = out@;
                out.push(variant);
                assert(variants_view(out@) =~= variants_view(before).push(variant@));
            },
        }
        i = i + 1;
    }
    assert(all.take(i as int) =~= all);
    Ok(out)
}

struct RunCfg {
    stop_pc: Vec<u16>,
    stop_below: Option<u16>,
    exit_above: u16,
    snap_start: Vec<u16>,
    snap_to: u16,
    analyze_0100: bool,
    trim_page_overshoot: bool,
    exit_into_written: bool,
    exit_quiescent: u64,
    byteboozer_ptr: Option<u8>,
    byteboozer_end_from_ptr: bool,
    byteboozer_name: String,
    use_guess_start: bool,
    version: u32,
    cap: u64,
}

impl View for RunCfg {
    type V = Params;

    closed spec fn view(&self) -> Params {
        Params {
            stop_pc: self.stop_pc@,
            stop_below: self.stop_below,
            exit_above: self.exit_above,
            snap_start: self.snap_start@,
            snap_to: self.snap_to,
            analyze_0100: self.analyze_0100,
            trim_page_overshoot: self.trim_page_overshoot,
            exit_into_written: self.exit_into_written,
            exit_quiescent: self.exit_quiescent,
            byteboozer_ptr: self.byteboozer_ptr,
            byteboozer_end_from_ptr: self.byteboozer_end_from_ptr,
            byteboozer_name: self.byteboozer_name@,
            use_guess_start: self.use_guess_start,
            version: self.version,
            cap: self.cap,
        }
    }
}

fn read_byteboozer_ptr(t: &Vec<Pair>, ctx: &str) -> (r: Result<Option<u8>, String>)
    ensures
        same(r, byteboozer_pointer(table_of(t@), ctx@)),
{
    match get_u16(t, "byteboozer_ptr", ctx) {
        Err(e) => Err(e),
        Ok(None) => Ok(None),
        Ok(Some(v)) => if v <= 0xFF {
            Ok(Some(v as u8))
        } else {
            let mut e: String = String::from_str(ctx);
            e.append(": byteboozer_ptr must be a zero-page address, got 0x");
            push_radix(&mut e, v as u128, 16, false);
            Err(e)
        },
    }
}

fn read_run(t: &Vec<Pair>, ctx: &str) -> (r: Result<RunCfg, String>)
    ensures
        match r {
            Ok(p) => parameters(table_of(t@), ctx@) == Ok::<Params, Seq<char>>(p@),
            Err(e) => parameters(table_of(t@), ctx@) == Err::<Params, Seq<char>>(e@),
        },
{
    reveal(parameters);
    let byteboozer_ptr: Option<u8> = match read_byteboozer_ptr(t, ctx) {
        Err(e) => {
            return Err(e);
        },
        Ok(v) => v,
    };
    let stop_pc: Vec<u16> = match get_u16_list(t, "stop_pc", ctx) {
        Err(e) => {
            return Err(e);
        },
        Ok(v) => v,
    };
    let stop_below: Option<u16> = match get_u16(t, "stop_below", ctx) {
        Err(e) => {
            return Err(e);
        },
        Ok(v) => v,
    };
    let exit_above: u16 = match get_u16(t, "exit_above", ctx) {
        Err(e) => {
            return Err(e);
        },
        Ok(None) => 0x0800,
        Ok(Some(v)) => v,
    };
    let snap_start: Vec<u16> = match get_u16_list(t, "snap_start", ctx) {
        Err(e) => {
            return Err(e);
        },
        Ok(v) => v,
    };
    let snap_to: u16 = match get_u16(t, "snap_to", ctx) {
        Err(e) => {
            return Err(e);
        },
        Ok(None) => 0x0801,
        Ok(Some(v)) => v,
    };
    let analyze_0100: bool = match get_bool(t, "analyze_0100", ctx) {
        Err(e) => {
            return Err(e);
        },
        Ok(b) => b,
    };
    let trim_page_overshoot: bool = match get_bool(t, "trim_page_overshoot", ctx) {
        Err(e) => {
            return Err(e);
        },
        Ok(b) => b,
    };
    let exit_into_written: bool = match get_bool(t, "exit_into_written", ctx) {
        Err(e) => {
            return Err(e);
        },
        Ok(b) => b,
    };
    let exit_quiescent: u64 = match get_u64(t, "exit_quiescent", ctx) {
        Err(e) => {
            return Err(e);
        },
        Ok(None) => 0,
        Ok(Some(v)) => v,
    };
    let byteboozer_end_from_ptr: bool = match get_bool(t, "byteboozer_end_from_ptr", ctx) {
        Err(e) => {
            return Err(e);
        },
        Ok(b) => b,
    };
    let byteboozer_name: String = match get_str(t, "byteboozer_name", ctx) {
        Err(e) => {
            return Err(e);
        },
        Ok(None) => String::from_str("Byte Boozer"),
        Ok(Some(s)) => s,
    };
    let use_guess_start: bool = match get_bool(t, "use_guess_start", ctx) {
        Err(e) => {
            return Err(e);
        },
        Ok(b) => b,
    };
    let version: u64 = match get_u64(t, "version", ctx) {
        Err(e) => {
            return Err(e);
        },
        Ok(None) => 0,
        Ok(Some(v)) => v,
    };
    // Slow bit-oriented depackers (Shrinkler-class arithmetic coders run
    // ~2000 cycles per output byte) need well over 20M instructions for a
    // near-full 64 KB payload; 250M keeps them inside the cap while a
    // truly stuck depacker still fails over in a couple of seconds.
    let cap: u64 = match get_u64(t, "cap", ctx) {
        Err(e) => {
            return Err(e);
        },
        Ok(None) => 250_000_000,
        Ok(Some(v)) => v,
    };
    Ok(
        RunCfg {
            stop_pc,
            stop_below,
            exit_above,
            snap_start,
            snap_to,
            analyze_0100,
            trim_page_overshoot,
            exit_into_written,
            exit_quiescent,
            byteboozer_ptr,
            byteboozer_end_from_ptr,
            byteboozer_name,
            use_guess_start,
            version: (version % 0x1_0000_0000) as u32,
            cap,
        },
    )
}

/// Parse one config file.
pub fn load_str(text: &str, source: &str) -> (r: Result<CruncherConfig, String>)
    ensures
        match r {
            Ok(c) => loaded_config(text@, source@) == Ok::<Definition, Seq<char>>(c@),
            Err(e) => loaded_config(text@, source@) == Err::<Definition, Seq<char>>(e@),
        },
{
    reveal(definition);
    let raw: Raw = match parse_raw(text, source) {
        Err(e) => {
            return Err(e);
        },
        Ok(raw) => raw,
    };
    let name: String = match read_name(&raw, source) {
        Err(e) => {
            return Err(e);
        },
        Ok(s) => s,
    };
    let engine: EngineKind = match read_engine(&raw, source) {
        Err(e) => {
            return Err(e);
        },
        Ok(k) => k,
    };
    let empty: Vec<Pair> = Vec::new();
    assert(table_of(empty@) =~= Seq::empty());
    let detect: DetectCfg = match find_section(&raw.sections, "detect") {
        None => {
            return Err(with_context(source, ": missing [detect] section"));
        },
        Some(t) => match read_detect(t, source) {
            Err(e) => {
                return Err(e);
            },
            Ok(d) => d,
        },
    };
    let probe: Option<ProbeCfg> = match find_section(&raw.sections, "probe") {
        None => None,
        Some(t) => match read_probe(t, source) {
            Err(e) => {
                return Err(e);
            },
            Ok(p) => Some(p),
        },
    };
    if engine != EngineKind::CrunchAB && detect.entry == Entry::Probed {
        return Err(with_context(source, ": [detect] needs `entry` for engine != crunchab"));
    }
    if engine == EngineKind::CrunchAB && probe.is_none() {
        return Err(with_context(source, ": engine crunchab needs a [probe] section"));
    }
    let variants: Vec<VariantCfg> = match read_variants(&raw.variants, source) {
        Err(e) => {
            return Err(e);
        },
        Ok(v) => v,
    };
    let run_table: &Vec<Pair> = match find_section(&raw.sections, "run") {
        None => &empty,
        Some(t) => t,
    };
    let run: RunCfg = match read_run(run_table, source) {
        Err(e) => {
            return Err(e);
        },
        Ok(r) => r,
    };
    Ok(
        CruncherConfig {
            source: String::from_str(source),
            name,
            engine,
            detect_base: detect.base,
            detect_always: detect.always,
            detect_patterns: detect.patterns,
            entry: detect.entry,
            probe,
            stop_pc: run.stop_pc,
            stop_below: run.stop_below,
            exit_above: run.exit_above,
            snap_start: run.snap_start,
            snap_to: run.snap_to,
            analyze_0100: run.analyze_0100,
            trim_page_overshoot: run.trim_page_overshoot,
            exit_into_written: run.exit_into_written,
            exit_quiescent: run.exit_quiescent,
            byteboozer_ptr: run.byteboozer_ptr,
            byteboozer_end_from_ptr: run.byteboozer_end_from_ptr,
            byteboozer_name: run.byteboozer_name,
            use_guess_start: run.use_guess_start,
            version: run.version,
            cap: run.cap,
            variants,
        },
    )
}

} // verus!
