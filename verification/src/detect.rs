//! The detector: tries every cruncher definition in order against a PRG file.
//!
//! Each candidate gets a *fresh* machine (loaded PRG, $01 = $37), so a probe
//! run for one cruncher can never contaminate the next attempt. When a config
//! matches, the machine is primed at the cruncher's entry point and handed to
//! the engine via [`Detection::decrunch`].

use vstd::prelude::*;
use vstd::string::*;

use crate::config::{load_str, CruncherConfig, Entry, VariantCfg};
use crate::embedded::embedded_configs;
use crate::engine::{self, note, EngineResult};
use crate::fmt::{join, push_dec, push_hex4};
use crate::machine::Machine;
use crate::pattern::{sys_address, Pattern};

verus! {

use crate::c64::{bad_range_text, loaded_mem, prg_error, prg_image};
use crate::config::{loaded_config, patterns_view, variants_view, Definition, Probe, Variant};
use crate::cpu::reset_cpu;
use crate::embedded::{embedded_definitions, embedded_texts};
use crate::embedded_laws::embedded_configs_load;
use crate::engine::{engine_run, EngineRun};
use crate::fmt::{dec, hex4, joined, texts, texts_concat};
use crate::machine::{power_on_machine, run_to, Goal};
use crate::pattern::{matches_at, sys_target, Tok};

pub struct UniDecrunch {
    pub configs: Vec<CruncherConfig>,
}

/// A recognized cruncher, ready to unpack.
pub struct Detection<'a> {
    pub config: &'a CruncherConfig,
    /// Index into `config.variants` when a refinement pattern matched.
    pub variant: Option<usize>,
    machine: Machine,
    probe_end: Option<u16>,
    pub log: Vec<String>,
}

/// A finished unpack.
pub struct Decrunched {
    /// Human-readable cruncher name (config/variant/behavioral).
    pub cruncher: String,
    /// Saved range: first address...
    pub start: u16,
    /// ...and last address (inclusive).
    pub end: u16,
    /// Start before $0801 snapping/adjustments.
    pub real_start: u16,
    /// Where the decruncher jumped to launch the unpacked program.
    pub jump_start: u16,
    /// The unpacked program as a PRG image (load address + data).
    pub prg: Vec<u8>,
    pub log: Vec<String>,
}

// ---------------------------------------------------------------------------
// What is detected
// ---------------------------------------------------------------------------

/// A recognized cruncher with its primed machine.
pub struct Lead {
    pub definition: Definition,
    pub variant: Option<int>,
    pub machine: Machine,
    pub probe_end: Option<u16>,
    pub log: Seq<Seq<char>>,
}

/// An unpacked program.
pub struct Product {
    pub cruncher: Seq<char>,
    pub start: u16,
    pub end: u16,
    pub real_start: u16,
    pub jump_start: u16,
    pub prg: Seq<u8>,
    pub log: Seq<Seq<char>>,
}

pub open spec fn optional_index(i: Option<usize>) -> Option<int> {
    match i {
        Some(i) => Some(i as int),
        None => None,
    }
}

impl<'a> View for Detection<'a> {
    type V = Lead;

    closed spec fn view(&self) -> Lead {
        Lead {
            definition: self.config@,
            variant: optional_index(self.variant),
            machine: self.machine,
            probe_end: self.probe_end,
            log: texts(self.log@),
        }
    }
}

impl View for Decrunched {
    type V = Product;

    open spec fn view(&self) -> Product {
        Product {
            cruncher: self.cruncher@,
            start: self.start,
            end: self.end,
            real_start: self.real_start,
            jump_start: self.jump_start,
            prg: self.prg@,
            log: texts(self.log@),
        }
    }
}

/// The definitions of a list of configs, in order.
pub open spec fn definitions_of(v: Seq<CruncherConfig>) -> Seq<Definition> {
    Seq::new(v.len(), |i: int| v[i]@)
}

/// Whether one of the patterns matches.
pub open spec fn any_matches(patterns: Seq<Seq<Tok>>, ram: Seq<u8>, base: int) -> bool {
    exists|i: int| 0 <= i < patterns.len() && #[trigger] matches_at(patterns[i], ram, base)
}

/// The signature matches RAM; catch-all definitions match unconditionally.
pub open spec fn signature_matches(d: Definition, ram: Seq<u8>) -> bool {
    d.detect.always || any_matches(d.detect.patterns, ram, d.detect.base as int)
}

/// The machine at a program entry.
pub open spec fn entered(m: Machine, pc: u16) -> Machine {
    Machine { cpu: reset_cpu(m.cpu, pc), ..m }
}

/// Run the cruncher to a checkpoint and verify the relocated code: the machine
/// there, and the end address it holds.
pub open spec fn probed(p: Probe, m: Machine) -> Option<(Machine, u16)> {
    let (hit, n) = run_to(entered(m, p.entry), Goal::OneOf(seq![p.target]), p.cap as nat);
    if hit && matches_at(p.verify_pattern, n.mem.ram@, p.verify_base as int) {
        Some((n, n.mem.visible_word(p.end_ptr)))
    } else {
        None
    }
}

/// The address a SYS entry starts at: the BASIC line's, or else the fallback.
pub open spec fn sys_entry(ram: Seq<u8>, fallback: Option<u16>) -> Option<u16> {
    if sys_target(ram) != 0 {
        Some(sys_target(ram) as u16)
    } else {
        fallback
    }
}

pub open spec fn entry_text(sys: u16) -> Seq<char> {
    "entry: SYS "@ + dec(sys as int) + " ($"@ + hex4(sys) + ")"@
}

pub open spec fn fallback_text(pc: u16) -> Seq<char> {
    "no parsable SYS line; using fallback entry $"@ + hex4(pc)
}

/// Lines about a SYS entry at `pc`.
pub open spec fn entry_log(ram: Seq<u8>, pc: u16) -> Seq<Seq<char>> {
    if sys_target(ram) == 0 {
        seq![fallback_text(pc), entry_text(pc)]
    } else {
        seq![entry_text(pc)]
    }
}

/// The machine at the entry of a definition, and the lines about it.
pub open spec fn positioned(d: Definition, m: Machine, fallback: Option<u16>) -> Option<
    (Machine, Seq<Seq<char>>),
> {
    match d.detect.entry {
        Entry::At(pc) => Some((entered(m, pc), Seq::empty())),
        Entry::Probed => Some((m, Seq::empty())),
        Entry::Sys => match sys_entry(m.mem.ram@, fallback) {
            Some(pc) => Some((entered(m, pc), entry_log(m.mem.ram@, pc))),
            None => None,
        },
    }
}

/// The last of the first `n` variants whose pattern matches.
pub open spec fn last_variant(vs: Seq<Variant>, ram: Seq<u8>, n: int) -> Option<int>
    decreases n,
{
    if n <= 0 {
        None
    } else if matches_at(vs[n - 1].pattern, ram, vs[n - 1].base as int) {
        Some(n - 1)
    } else {
        last_variant(vs, ram, n - 1)
    }
}

pub open spec fn signature_text(d: Definition) -> Seq<char> {
    d.source + ": signature matched at $"@ + hex4(d.detect.base)
}

/// What comes of a definition on a loaded machine.
pub open spec fn lead_on(d: Definition, m: Machine, fallback: Option<u16>) -> Option<Lead> {
    let first = seq![signature_text(d)];
    let checkpoint = match d.probe {
        None => Some((m, None, first)),
        Some(p) => match probed(p, m) {
            None => None,
            Some((n, end)) => Some((n, Some(end), first.push("probe ok: end=$"@ + hex4(end)))),
        },
    };
    if !signature_matches(d, m.mem.ram@) {
        None
    } else {
        match checkpoint {
            None => None,
            Some((n, probe_end, log)) => match positioned(d, n, fallback) {
                None => None,
                Some((o, more)) => {
                    let variant = last_variant(
                        d.variants,
                        o.mem.ram@,
                        d.variants.len() as int,
                    );
                    Some(
                        Lead {
                            definition: d,
                            variant,
                            machine: o,
                            probe_end,
                            log: match variant {
                                Some(i) => (log + more).push(
                                    "variant matched: "@ + d.variants[i].name,
                                ),
                                None => log + more,
                            },
                        },
                    )
                },
            },
        }
    }
}

/// A fresh machine with a PRG image loaded.
pub open spec fn loaded_machine(prg: Seq<u8>) -> Machine {
    Machine { mem: loaded_mem(power_on_machine().mem, prg), ..power_on_machine() }
}

/// What comes of a definition on a PRG image.
#[verifier::opaque]
pub open spec fn lead(d: Definition, prg: Seq<u8>, fallback: Option<u16>) -> Result<
    Option<Lead>,
    Seq<char>,
> {
    match prg_error(prg) {
        Some(e) => Err(e),
        None => Ok(lead_on(d, loaded_machine(prg), fallback)),
    }
}

/// The lead of the first definition from position `i` on that has one. Catch-all
/// definitions may be left out.
pub open spec fn first_lead(
    ds: Seq<Definition>,
    prg: Seq<u8>,
    signatures_only: bool,
    i: int,
) -> Result<Option<Lead>, Seq<char>>
    decreases ds.len() - i,
{
    if i >= ds.len() {
        Ok(None)
    } else if signatures_only && ds[i].detect.always {
        first_lead(ds, prg, signatures_only, i + 1)
    } else {
        match lead(ds[i], prg, None) {
            Err(e) => Err(e),
            Ok(Some(l)) => Ok(Some(l)),
            Ok(None) => first_lead(ds, prg, signatures_only, i + 1),
        }
    }
}

// ---------------------------------------------------------------------------
// What is unpacked
// ---------------------------------------------------------------------------

/// Best-known name before unpacking (variant name if one matched).
pub open spec fn lead_name(l: Lead) -> Seq<char> {
    match l.variant {
        Some(i) => l.definition.variants[i].name,
        None => l.definition.name,
    }
}

pub open spec fn lead_variant(l: Lead) -> Option<Variant> {
    match l.variant {
        Some(i) => Some(l.definition.variants[i]),
        None => None,
    }
}

/// The variant of a lead exists.
pub open spec fn lead_valid(l: Lead) -> bool {
    l.variant matches Some(i) ==> 0 <= i < l.definition.variants.len()
}

pub open spec fn unfinished_text(name: Seq<char>, log: Seq<Seq<char>>) -> Seq<char> {
    "detected as \""@ + name + "\" but the depacker did not finish:\n"@ + joined(log, "\n"@)
}

/// What an engine run amounts to: the program it found, or why there is none.
pub open spec fn product_of(name: Seq<char>, log: Seq<Seq<char>>, e: EngineRun) -> Result<
    Product,
    Seq<char>,
> {
    let f = e.finding;
    if !f.ok {
        Err(unfinished_text(name, log + e.log))
    } else if f.start > f.end {
        Err(bad_range_text(f.start, f.end))
    } else {
        Ok(
            Product {
                cruncher: match f.name {
                    Some(n) => n,
                    None => name,
                },
                start: f.start,
                end: f.end,
                real_start: f.real_start,
                jump_start: f.jump_start,
                prg: prg_image(e.machine.mem.ram@, f.start, f.end),
                log: log + e.log,
            },
        )
    }
}

/// What comes of running a lead's depacker.
#[verifier::opaque]
pub open spec fn unpacked(l: Lead) -> Result<Product, Seq<char>> {
    product_of(
        lead_name(l),
        l.log,
        engine_run(l.definition, lead_variant(l), l.probe_end, l.machine),
    )
}

pub open spec fn attempts_text(attempts: Seq<Seq<char>>) -> Seq<char> {
    "earlier attempts failed: "@ + joined(attempts, ", "@)
}

/// The product with a line about the definitions that were tried before.
pub open spec fn with_attempts(p: Product, attempts: Seq<Seq<char>>) -> Product {
    if attempts.len() > 0 {
        Product { log: seq![attempts_text(attempts)] + p.log, ..p }
    } else {
        p
    }
}

/// The product of the first definition from position `i` on whose signature
/// matches and whose depacker finishes; `attempts` names those that were tried
/// before.
pub open spec fn first_product(
    ds: Seq<Definition>,
    prg: Seq<u8>,
    signatures_only: bool,
    fallback: Option<u16>,
    i: int,
    attempts: Seq<Seq<char>>,
) -> Result<Option<Product>, Seq<char>>
    decreases ds.len() - i,
{
    if i >= ds.len() {
        Ok(None)
    } else if signatures_only && ds[i].detect.always {
        first_product(ds, prg, signatures_only, fallback, i + 1, attempts)
    } else {
        match lead(ds[i], prg, fallback) {
            Err(e) => Err(e),
            Ok(None) => first_product(ds, prg, signatures_only, fallback, i + 1, attempts),
            Ok(Some(l)) => match unpacked(l) {
                Ok(p) => Ok(Some(with_attempts(p, attempts))),
                Err(_) => first_product(
                    ds,
                    prg,
                    signatures_only,
                    fallback,
                    i + 1,
                    attempts.push(ds[i].source),
                ),
            },
        }
    }
}

/// One pass of detection and unpacking.
#[verifier::opaque]
pub open spec fn one_layer(
    ds: Seq<Definition>,
    prg: Seq<u8>,
    signatures_only: bool,
    fallback: Option<u16>,
) -> Result<Option<Product>, Seq<char>> {
    first_product(ds, prg, signatures_only, fallback, 0, Seq::empty())
}

/// Whether a result spans almost all of RAM: a depack stage
/// staged over the whole memory, never a real program.
pub open spec fn spans_memory(p: Product) -> bool {
    p.end.wrapping_sub(p.start) >= 0xE000
}

pub open spec fn layer_text(n: int) -> Seq<char> {
    "--- output spans nearly all of RAM; peeling layer "@ + dec(n) + " ---"@
}

/// The result of an inner layer, with the log of the outer ones before its own.
pub open spec fn chained(outer: Product, inner: Product, layer: int) -> Product {
    Product { log: outer.log.push(layer_text(layer)) + inner.log, ..inner }
}

/// Peel up to `layers` more layers off a result: while it spans memory and is
/// itself recognized by a signature and unpacks to something else. `names` holds
/// the crunchers so far.
pub open spec fn peeled(
    ds: Seq<Definition>,
    p: Product,
    names: Seq<Seq<char>>,
    layers: nat,
) -> (Product, Seq<Seq<char>>)
    decreases layers,
{
    if layers == 0 || !spans_memory(p) {
        (p, names)
    } else {
        match one_layer(ds, p.prg, true, Some(p.jump_start)) {
            Ok(Some(inner)) if inner.prg != p.prg => peeled(
                ds,
                chained(p, inner, (names.len() + 1) as int),
                names.push(inner.cruncher),
                (layers - 1) as nat,
            ),
            _ => (p, names),
        }
    }
}

/// The result of detecting and unpacking, layer by layer. The names of several
/// layers are joined by arrows.
pub open spec fn fully_unpacked(ds: Seq<Definition>, prg: Seq<u8>) -> Result<
    Option<Product>,
    Seq<char>,
> {
    match one_layer(ds, prg, false, None) {
        Err(e) => Err(e),
        Ok(None) => Ok(None),
        Ok(Some(p)) => {
            let (q, names) = peeled(ds, p, seq![p.cruncher], 3);
            Ok(
                Some(
                    if names.len() > 1 {
                        Product { cruncher: joined(names, " \u{2192} "@), ..q }
                    } else {
                        q
                    },
                ),
            )
        },
    }
}

/// The definitions of several config texts; the first text with an error decides.
pub open spec fn loaded_configs(files: Seq<(Seq<char>, Seq<char>)>) -> Result<
    Seq<Definition>,
    Seq<char>,
>
    decreases files.len(),
{
    if files.len() == 0 {
        Ok(Seq::empty())
    } else {
        match loaded_configs(files.drop_last()) {
            Err(e) => Err(e),
            Ok(ds) => match loaded_config(files.last().1, files.last().0) {
                Err(e) => Err(e),
                Ok(d) => Ok(ds.push(d)),
            },
        }
    }
}

// ---------------------------------------------------------------------------
// Detecting
// ---------------------------------------------------------------------------

/// Whether one of the patterns matches.
fn any_pattern_matches(patterns: &Vec<Pattern>, ram: &[u8], base: usize) -> (b: bool)
    ensures
        b == any_matches(patterns_view(patterns@), ram@, base as int),
{
    let ghost all = patterns_view(patterns@);
    let mut i: usize = 0;
    while i < patterns.len()
        invariant
            i <= patterns@.len(),
            all == patterns_view(patterns@),
            forall|j: int| 0 <= j < i ==> !(#[trigger] matches_at(all[j], ram@, base as int)),
        decreases patterns@.len() - i,
    {
        assert(all[i as int] == patterns@[i as int].toks@);
        if patterns[i].matches(ram, base) {
            assert(matches_at(all[i as int], ram@, base as int));
            return true;
        }
        i = i + 1;
    }
    false
}

/// The last variant whose pattern matches.
fn find_variant(vs: &Vec<VariantCfg>, ram: &[u8]) -> (r: Option<usize>)
    ensures
        optional_index(r) == last_variant(variants_view(vs@), ram@, vs@.len() as int),
        r matches Some(i) ==> i < vs@.len(),
{
    let ghost all = variants_view(vs@);
    let mut n: usize = vs.len();
    while n > 0
        invariant
            n <= vs@.len(),
            all == variants_view(vs@),
            last_variant(all, ram@, vs@.len() as int) == last_variant(all, ram@, n as int),
        decreases n,
    {
        assert(all[n - 1] == vs@[n - 1]@);
        if vs[n - 1].pattern.matches(ram, vs[n - 1].base as usize) {
            return Some(n - 1);
        }
        n = n - 1;
    }
    None
}

/// Run the probe of a config, if it has one: the end address it captured, or
/// false where it failed.
fn run_probe(cfg: &CruncherConfig, m: &mut Machine, log: &mut Vec<String>) -> (r: (
    bool,
    Option<u16>,
))
    ensures
        match cfg@.probe {
            None => r == (true, None::<u16>) && *final(m) == *old(m) && texts(final(log)@) == texts(
                old(log)@,
            ),
            Some(p) => match probed(p, *old(m)) {
                None => !r.0,
                Some((n, end)) => {
                    &&& r == (true, Some(end))
                    &&& *final(m) == n
                    &&& texts(final(log)@) == texts(old(log)@).push("probe ok: end=$"@ + hex4(end))
                },
            },
        },
{
    match &cfg.probe {
        None => (true, None),
        Some(probe) => {
            m.cpu.reset_at(probe.entry);
            let goal: [u16; 1] = [probe.target];
            assert(goal@ =~= seq![probe.target]);
            if !m.run_until(&goal, probe.cap) {
                return (false, None);
            }
            let end: u16 = m.mem.read_word(probe.end_ptr);
            if !probe.verify_pattern.matches(m.mem.ram.as_slice(), probe.verify_base as usize) {
                return (false, None);
            }
            let mut s: String = String::from_str("probe ok: end=$");
            push_hex4(&mut s, end);
            note(log, s);
            (true, Some(end))
        },
    }
}

/// Move the CPU to the entry of a config; false where there is none.
fn enter(cfg: &CruncherConfig, m: &mut Machine, fallback: Option<u16>, log: &mut Vec<String>) -> (ok:
    bool)
    ensures
        match positioned(cfg@, *old(m), fallback) {
            None => !ok,
            Some((n, more)) => {
                &&& ok
                &&& *final(m) == n
                &&& texts(final(log)@) == texts(old(log)@) + more
            },
        },
{
    match cfg.entry {
        Entry::At(pc) => {
            m.cpu.reset_at(pc);
            assert(texts(log@) =~= texts(old(log)@) + Seq::<Seq<char>>::empty());
            true
        },
        Entry::Probed => {
            assert(texts(log@) =~= texts(old(log)@) + Seq::<Seq<char>>::empty());
            true
        },
        Entry::Sys => {
            let mut sys: u16 = sys_address(m.mem.ram.as_slice());
            if sys == 0 {
                match fallback {
                    Some(fb) => {
                        let mut s: String = String::from_str(
                            "no parsable SYS line; using fallback entry $",
                        );
                        push_hex4(&mut s, fb);
                        note(log, s);
                        sys = fb;
                    },
                    None => {
                        return false;
                    },
                }
            }
            let mut s: String = String::from_str("entry: SYS ");
            push_dec(&mut s, sys as u128);
            s.append(" ($");
            push_hex4(&mut s, sys);
            s.append(")");
            note(log, s);
            assert(texts(log@) =~= texts(old(log)@) + entry_log(old(m).mem.ram@, sys));
            m.cpu.reset_at(sys);
            true
        },
    }
}

/// Try a config on a loaded machine.
fn try_on<'a>(cfg: &'a CruncherConfig, loaded: Machine, fallback: Option<u16>) -> (r: Option<
    Detection<'a>,
>)
    ensures
        match r {
            Some(det) => lead_on(cfg@, loaded, fallback) == Some(det@) && lead_valid(det@),
            None => lead_on(cfg@, loaded, fallback) is None,
        },
{
    let mut m: Machine = loaded;
    // 1. Signature match against RAM (catch-all definitions skip this).
    if !cfg.detect_always && !any_pattern_matches(
        &cfg.detect_patterns,
        m.mem.ram.as_slice(),
        cfg.detect_base as usize,
    ) {
        return None;
    }
    let mut log: Vec<String> = Vec::new();
    let mut s: String = cfg.source.clone();
    s.append(": signature matched at $");
    push_hex4(&mut s, cfg.detect_base);
    note(&mut log, s);
    assert(texts(log@) =~= seq![signature_text(cfg@)]);
    // 2. Optional probe: actually run the cruncher to a checkpoint and
    //    verify the relocated code (CrunchAB).
    let (ok, probe_end): (bool, Option<u16>) = run_probe(cfg, &mut m, &mut log);
    if !ok {
        return None;
    }
    // 3. Entry point (skipped when a probe already positioned the CPU).
    if !enter(cfg, &mut m, fallback, &mut log) {
        return None;
    }
    // 4. Refinement variants, checked against the pristine RAM before the
    //    engine runs. The last matching variant wins.
    let variant: Option<usize> = find_variant(&cfg.variants, m.mem.ram.as_slice());
    if let Some(i) = variant {
        let mut t: String = String::from_str("variant matched: ");
        t.append(cfg.variants[i].name.as_str());
        assert(cfg@.variants[i as int] == cfg.variants@[i as int]@);
        note(&mut log, t);
    }
    Some(Detection { config: cfg, variant, machine: m, probe_end, log })
}

/// Try a config on a PRG image.
fn try_config_with_entry<'a>(cfg: &'a CruncherConfig, prg: &[u8], fallback: Option<u16>) -> (r:
    Result<Option<Detection<'a>>, String>)
    ensures
        match r {
            Ok(Some(det)) => lead(cfg@, prg@, fallback) == Ok::<Option<Lead>, Seq<char>>(
                Some(det@),
            ) && lead_valid(det@),
            Ok(None) => lead(cfg@, prg@, fallback) == Ok::<Option<Lead>, Seq<char>>(None),
            Err(e) => lead(cfg@, prg@, fallback) == Err::<Option<Lead>, Seq<char>>(e@),
        },
{
    proof {
        reveal(lead);
    }
    let mut m: Machine = Machine::new();
    match m.mem.load_prg(prg) {
        Err(e) => Err(e),
        Ok(_) => Ok(try_on(cfg, m, fallback)),
    }
}

/// Whether two byte strings are the same.
fn same_bytes(a: &Vec<u8>, b: &Vec<u8>) -> (same: bool)
    ensures
        same == (a@ == b@),
{
    if a.len() != b.len() {
        return false;
    }
    let mut i: usize = 0;
    while i < a.len()
        invariant
            i <= a@.len(),
            a@.len() == b@.len(),
            forall|j: int| 0 <= j < i ==> a@[j] == b@[j],
        decreases a@.len() - i,
    {
        if a[i] != b[i] {
            return false;
        }
        i = i + 1;
    }
    assert(a@ =~= b@);
    true
}

impl<'a> Detection<'a> {
    /// The definition that matched.
    pub fn config(&self) -> (c: &'a CruncherConfig)
        ensures
            c@ == self@.definition,
    {
        self.config
    }

    /// Index of the refinement that matched.
    pub fn variant(&self) -> (v: Option<usize>)
        ensures
            optional_index(v) == self@.variant,
    {
        self.variant
    }

    /// The lines logged so far.
    pub fn log(&self) -> (log: &Vec<String>)
        ensures
            texts(log@) == self@.log,
    {
        &self.log
    }

    /// Best-known name before unpacking (variant name if one matched).
    pub fn name(&self) -> (s: &str)
        requires
            lead_valid(self@),
        ensures
            s@ == lead_name(self@),
    {
        match self.variant {
            Some(i) => {
                assert(self.config@.variants[i as int] == self.config.variants@[i as int]@);
                self.config.variants[i].name.as_str()
            },
            None => self.config.name.as_str(),
        }
    }

    /// Run the cruncher's depacker to completion and extract the program.
    pub fn decrunch(self) -> (r: Result<Decrunched, String>)
        requires
            lead_valid(self@),
        ensures
            match r {
                Ok(d) => unpacked(self@) == Ok::<Product, Seq<char>>(d@),
                Err(e) => unpacked(self@) == Err::<Product, Seq<char>>(e@),
            },
    {
        proof {
            reveal(unpacked);
        }
        let name: String = String::from_str(self.name());
        let config: &CruncherConfig = self.config;
        let variant: Option<&VariantCfg> = match self.variant {
            Some(i) => {
                assert(config@.variants[i as int] == config.variants@[i as int]@);
                Some(&config.variants[i])
            },
            None => None,
        };
        let mut machine: Machine = self.machine;
        let mut log: Vec<String> = self.log;
        let r: EngineResult = engine::run(
            config,
            variant,
            self.probe_end,
            &mut machine,
            &mut log,
        );
        if !r.ok {
            let mut e: String = String::from_str("detected as \"");
            e.append(name.as_str());
            e.append("\" but the depacker did not finish:\n");
            e.append(join(&log, "\n").as_str());
            return Err(e);
        }
        match machine.mem.save_prg(r.start, r.end) {
            Err(e) => Err(e),
            Ok(prg) => Ok(
                Decrunched {
                    cruncher: match r.name {
                        Some(n) => n,
                        None => name,
                    },
                    start: r.start,
                    end: r.end,
                    real_start: r.real_start,
                    jump_start: r.jump_start,
                    prg,
                    log,
                },
            ),
        }
    }
}

impl UniDecrunch {
    /// The definitions, in the order in which they are tried.
    pub open spec fn definitions(&self) -> Seq<Definition> {
        definitions_of(self.configs@)
    }

    /// The default detector with embedded cruncher definitions.
    pub fn new() -> (u: UniDecrunch)
        ensures
            u.definitions() == embedded_definitions(),
    {
        UniDecrunch::with_embedded_configs().expect("embedded configs must parse")
    }

    /// The detector with embedded cruncher definitions. They always load.
    pub fn with_embedded_configs() -> (r: Result<UniDecrunch, String>)
        ensures
            r matches Ok(u) && u.definitions() == embedded_definitions(),
    {
        let list: Vec<(&'static str, &'static str)> = embedded_configs();
        let r: Result<UniDecrunch, String> = UniDecrunch::with_config_texts(&list);
        proof {
            assert(file_texts(list@) =~= embedded_texts());
            embedded_configs_load();
        }
        r
    }

    /// A detector with the definitions of several config texts, each given with its
    /// file name, in that order.
    pub fn with_config_texts(files: &Vec<(&str, &str)>) -> (r: Result<UniDecrunch, String>)
        ensures
            match r {
                Ok(u) => loaded_configs(file_texts(files@)) == Ok::<Seq<Definition>, Seq<char>>(
                    u.definitions(),
                ),
                Err(e) => loaded_configs(file_texts(files@)) == Err::<Seq<Definition>, Seq<char>>(
                    e@,
                ),
            },
    {
        let ghost all = file_texts(files@);
        let mut configs: Vec<CruncherConfig> = Vec::new();
        let mut i: usize = 0;
        proof {
            assert(definitions_of(configs@) =~= Seq::empty());
            assert(all.take(0) =~= Seq::empty());
        }
        while i < files.len()
            invariant
                i <= files@.len(),
                all == file_texts(files@),
                loaded_configs(all.take(i as int)) == Ok::<Seq<Definition>, Seq<char>>(
                    definitions_of(configs@),
                ),
            decreases files@.len() - i,
        {
            let (name, text): (&str, &str) = files[i];
            proof {
                assert(all.take(i + 1).drop_last() =~= all.take(i as int));
                assert(all.take(i + 1).last() == (name@, text@));
            }
            match load_str(text, name) {
                Err(e) => {
                    proof {
                        early_config_error_stays(all, i + 1);
                    }
                    return Err(e);
                },
                Ok(c) => {
                    let ghost before = configs@;
                    configs.push(c);
                    assert(definitions_of(configs@) =~= definitions_of(before).push(c@));
                },
            }
            i = i + 1;
        }
        assert(all.take(i as int) =~= all);
        Ok(UniDecrunch { configs })
    }

    fn detect_where(&self, prg: &[u8], signatures_only: bool) -> (r: Result<
        Option<Detection<'_>>,
        String,
    >)
        ensures
            match r {
                Ok(Some(det)) => first_lead(self.definitions(), prg@, signatures_only, 0) == Ok::<
                    Option<Lead>,
                    Seq<char>,
                >(Some(det@)) && lead_valid(det@),
                Ok(None) => first_lead(self.definitions(), prg@, signatures_only, 0) == Ok::<
                    Option<Lead>,
                    Seq<char>,
                >(None),
                Err(e) => first_lead(self.definitions(), prg@, signatures_only, 0) == Err::<
                    Option<Lead>,
                    Seq<char>,
                >(e@),
            },
    {
        let ghost ds = self.definitions();
        let mut i: usize = 0;
        while i < self.configs.len()
            invariant
                i <= self.configs@.len(),
                ds == self.definitions(),
                first_lead(ds, prg@, signatures_only, 0) == first_lead(
                    ds,
                    prg@,
                    signatures_only,
                    i as int,
                ),
            decreases self.configs@.len() - i,
        {
            let cfg: &CruncherConfig = &self.configs[i];
            assert(ds[i as int] == cfg@);
            if !(signatures_only && cfg.detect_always) {
                match try_config_with_entry(cfg, prg, None) {
                    Err(e) => {
                        return Err(e);
                    },
                    Ok(Some(det)) => {
                        return Ok(Some(det));
                    },
                    Ok(None) => {},
                }
            }
            i = i + 1;
        }
        Ok(None)
    }

    /// Try every cruncher definition in order; the first match wins.
    /// Note: prefer [`UniDecrunch::decrunch_bytes`] when you intend to unpack,
    /// since it falls through to later definitions when a matching engine fails.
    pub fn detect_bytes(&self, prg: &[u8]) -> (r: Result<Option<Detection<'_>>, String>)
        ensures
            match r {
                Ok(Some(det)) => first_lead(self.definitions(), prg@, false, 0) == Ok::<
                    Option<Lead>,
                    Seq<char>,
                >(Some(det@)) && lead_valid(det@),
                Ok(None) => first_lead(self.definitions(), prg@, false, 0) == Ok::<
                    Option<Lead>,
                    Seq<char>,
                >(None),
                Err(e) => first_lead(self.definitions(), prg@, false, 0) == Err::<
                    Option<Lead>,
                    Seq<char>,
                >(e@),
            },
    {
        self.detect_where(prg, false)
    }

    /// Like [`UniDecrunch::detect_bytes`], but skips catch-all (`always = true`)
    /// definitions. A match therefore means a real byte signature was recognized,
    /// regardless of where catch-alls sit in config order, useful to classify
    /// "recognized but the depacker failed" against "not a crunched file at all".
    /// (The catch-all matches any program with a SYS line, so it cannot answer that
    /// question.)
    pub fn detect_signature_bytes(&self, prg: &[u8]) -> (r: Result<Option<Detection<'_>>, String>)
        ensures
            match r {
                Ok(Some(det)) => first_lead(self.definitions(), prg@, true, 0) == Ok::<
                    Option<Lead>,
                    Seq<char>,
                >(Some(det@)) && lead_valid(det@),
                Ok(None) => first_lead(self.definitions(), prg@, true, 0) == Ok::<
                    Option<Lead>,
                    Seq<char>,
                >(None),
                Err(e) => first_lead(self.definitions(), prg@, true, 0) == Err::<
                    Option<Lead>,
                    Seq<char>,
                >(e@),
            },
    {
        self.detect_where(prg, true)
    }

    fn decrunch_once_with_entry(
        &self,
        prg: &[u8],
        signatures_only: bool,
        fallback: Option<u16>,
    ) -> (r: Result<Option<Decrunched>, String>)
        ensures
            same_products(r, one_layer(self.definitions(), prg@, signatures_only, fallback)),
    {
        let ghost ds = self.definitions();
        let mut attempts: Vec<String> = Vec::new();
        let mut i: usize = 0;
        proof {
            reveal(one_layer);
            assert(texts(attempts@) =~= Seq::empty());
        }
        while i < self.configs.len()
            invariant
                i <= self.configs@.len(),
                ds == self.definitions(),
                one_layer(ds, prg@, signatures_only, fallback) == first_product(
                    ds,
                    prg@,
                    signatures_only,
                    fallback,
                    i as int,
                    texts(attempts@),
                ),
            decreases self.configs@.len() - i,
        {
            let cfg: &CruncherConfig = &self.configs[i];
            assert(ds[i as int] == cfg@);
            if !(signatures_only && cfg.detect_always) {
                match try_config_with_entry(cfg, prg, fallback) {
                    Err(e) => {
                        return Err(e);
                    },
                    Ok(None) => {},
                    Ok(Some(det)) => match det.decrunch() {
                        Ok(d) => {
                            let mut d: Decrunched = d;
                            if attempts.len() > 0 {
                                let mut s: String = String::from_str("earlier attempts failed: ");
                                s.append(join(&attempts, ", ").as_str());
                                let ghost before = d.log@;
                                d.log.insert(0, s);
                                assert(texts(d.log@) =~= seq![s@] + texts(before));
                            }
                            return Ok(Some(d));
                        },
                        Err(_) => note(&mut attempts, cfg.source.clone()),
                    },
                }
            }
            i = i + 1;
        }
        Ok(None)
    }

    /// Unpack EXACTLY ONE cruncher layer, signature-based only (catch-all
    /// definitions are excluded so an unpacked program's cruncher-like code does
    /// not false-match). `entry_fallback` supplies the previous layer's run
    /// address as the entry when a rebuilt BASIC line can't be parsed. Returns
    /// `None` when `prg` is not a recognized crunched layer or the depacker did
    /// not finish. This is the building block for cascade / layer-by-layer
    /// unpacking, where the caller (not the conservative full-RAM heuristic in
    /// [`Self::decrunch_bytes`]) decides how deep to peel.
    pub fn decrunch_layer(&self, prg: &[u8], entry_fallback: Option<u16>) -> (r: Result<
        Option<Decrunched>,
        String,
    >)
        ensures
            same_products(r, one_layer(self.definitions(), prg@, true, entry_fallback)),
    {
        self.decrunch_once_with_entry(prg, true, entry_fallback)
    }

    /// Detect AND unpack, falling through: when a definition's signature
    /// matches but its depacker never finishes, the next definition gets a try
    /// (several families share bootstrap signatures like `JMP $0334`).
    ///
    /// Double-crunched files are peeled recursively: when the unpacked result
    /// is itself recognized by a *signature-based* definition (catch-alls are
    /// excluded, since unpacked cruncher tools contain cruncher-like code) and
    /// that layer unpacks successfully too, the layers are chained. A failed
    /// inner depack keeps the outer result.
    ///
    /// Only results that span almost all of RAM are peeled. Anything less could be
    /// an unpacked cruncher tool, which inherently contains cruncher-like code and
    /// would be destroyed by re-depacking it.
    pub fn decrunch_bytes(&self, prg: &[u8]) -> (r: Result<Option<Decrunched>, String>)
        ensures
            same_products(r, fully_unpacked(self.definitions(), prg@)),
    {
        let ghost ds = self.definitions();
        let mut result: Decrunched = match self.decrunch_once_with_entry(prg, false, None) {
            Err(e) => {
                return Err(e);
            },
            Ok(None) => {
                return Ok(None);
            },
            Ok(Some(d)) => d,
        };
        let ghost first = result@;
        let mut names: Vec<String> = Vec::new();
        note(&mut names, result.cruncher.clone());
        assert(texts(names@) =~= seq![first.cruncher]);
        let mut layers: u8 = 3;
        let mut more: bool = true;
        let ghost end = peeled(ds, first, seq![first.cruncher], 3);
        while more && layers > 0
            invariant
                ds == self.definitions(),
                layers <= 3,
                more ==> peeled(ds, result@, texts(names@), layers as nat) == end,
                !more ==> (result@, texts(names@)) == end,
            decreases layers,
        {
            layers = layers - 1;
            if result.end.wrapping_sub(result.start) < 0xE000 {
                more = false;
            } else {
                match self.decrunch_once_with_entry(
                    result.prg.as_slice(),
                    true,
                    Some(result.jump_start),
                ) {
                    Ok(Some(inner)) => {
                        if same_bytes(&inner.prg, &result.prg) {
                            more = false;
                        } else {
                            note(&mut names, inner.cruncher.clone());
                            result = chain(result, inner, names.len());
                        }
                    },
                    _ => {
                        more = false;
                    },
                }
            }
        }
        assert((result@, texts(names@)) == end);
        if names.len() > 1 {
            result.cruncher = join(&names, " \u{2192} ");
        }
        Ok(Some(result))
    }
}

impl Default for UniDecrunch {
    fn default() -> (u: UniDecrunch)
        ensures
            u.definitions() == embedded_definitions(),
    {
        UniDecrunch::new()
    }
}

/// The log of the outer layers, a line about the new one, then its own log.
fn chain(outer: Decrunched, inner: Decrunched, layer: usize) -> (r: Decrunched)
    ensures
        r@ == chained(outer@, inner@, layer as int),
{
    let mut log: Vec<String> = outer.log;
    let mut s: String = String::from_str("--- output spans nearly all of RAM; peeling layer ");
    push_dec(&mut s, layer as u128);
    s.append(" ---");
    note(&mut log, s);
    let mut rest: Vec<String> = inner.log;
    proof {
        texts_concat(log@, rest@);
    }
    log.append(&mut rest);
    Decrunched {
        cruncher: inner.cruncher,
        start: inner.start,
        end: inner.end,
        real_start: inner.real_start,
        jump_start: inner.jump_start,
        prg: inner.prg,
        log,
    }
}

/// `r` is the product `s`, or its error as a text.
pub open spec fn same_products(
    r: Result<Option<Decrunched>, String>,
    s: Result<Option<Product>, Seq<char>>,
) -> bool {
    match r {
        Ok(Some(d)) => s == Ok::<Option<Product>, Seq<char>>(Some(d@)),
        Ok(None) => s == Ok::<Option<Product>, Seq<char>>(None),
        Err(e) => s == Err::<Option<Product>, Seq<char>>(e@),
    }
}

/// File names and texts.
pub open spec fn file_texts(files: Seq<(&str, &str)>) -> Seq<(Seq<char>, Seq<char>)> {
    Seq::new(files.len(), |i: int| (files[i].0@, files[i].1@))
}

proof fn early_config_error_stays(files: Seq<(Seq<char>, Seq<char>)>, n: int)
    requires
        0 <= n <= files.len(),
        loaded_configs(files.take(n)) is Err,
    ensures
        loaded_configs(files) == loaded_configs(files.take(n)),
    decreases files.len(),
{
    if n < files.len() {
        assert(files.drop_last().take(n) =~= files.take(n));
        early_config_error_stays(files.drop_last(), n);
    } else {
        assert(files.take(n) =~= files);
    }
}

} // verus!
