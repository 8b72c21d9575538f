//! When a definition is detected, where its program is entered, and what becomes of an
//! engine's finding, in terms of the patterns, the memory and the machine.

use vstd::prelude::*;

verus! {

use crate::c64::{loaded_mem, prg_error};
use crate::config::{loaded_config, Definition, EngineKind, Entry};
use crate::detect::{
    chained, first_lead, first_product, fully_unpacked, last_variant, lead, lead_name, lead_on,
    lead_valid, lead_variant, loaded_configs, loaded_machine, one_layer, peeled, product_of,
    unpacked, with_attempts, Lead, Product,
};
use crate::detect_laws::{last_matching_variant_wins, left_out, unpacks};
use crate::engine::crunchab::crunchab_run;
use crate::engine::generic::generic_run;
use crate::engine::timecruncher::timecruncher_run;
use crate::engine::{engine_run, EngineRun};
use crate::fmt::joined;
use crate::machine::{power_on_machine, run_to, Goal, Machine};
use crate::pattern::{matches_at, sys_target};

// ---------------------------------------------------------------------------
// Signatures
// ---------------------------------------------------------------------------

/// Any one of the patterns is enough: a definition without a probe, on memory with a SYS
/// line, is detected as soon as one of its patterns stands at its base, whichever it is.
pub proof fn any_pattern_detects(d: Definition, m: Machine, fallback: Option<u16>, i: int)
    requires
        0 <= i < d.detect.patterns.len(),
        matches_at(d.detect.patterns[i], m.mem.ram@, d.detect.base as int),
        d.probe is None,
        sys_target(m.mem.ram@) != 0 || fallback is Some || d.detect.entry != Entry::Sys,
    ensures
        lead_on(d, m, fallback) is Some,
{
}

/// Without one of its patterns at its base, a definition that is no catch-all is not
/// detected.
pub proof fn detection_needs_a_pattern(d: Definition, m: Machine, fallback: Option<u16>)
    requires
        lead_on(d, m, fallback) is Some,
    ensures
        d.detect.always || exists|i: int|
            0 <= i < d.detect.patterns.len() && #[trigger] matches_at(
                d.detect.patterns[i],
                m.mem.ram@,
                d.detect.base as int,
            ),
{
}

/// A catch-all needs no pattern, but an entry: without a probe it is detected wherever there
/// is a SYS line or a fallback.
pub proof fn catch_alls_need_an_entry(d: Definition, m: Machine, fallback: Option<u16>)
    requires
        d.detect.always,
        d.probe is None,
        d.detect.entry == Entry::Sys,
    ensures
        lead_on(d, m, fallback) is Some <==> sys_target(m.mem.ram@) != 0 || fallback is Some,
{
}

// ---------------------------------------------------------------------------
// Entries
// ---------------------------------------------------------------------------

/// The CPU of `n` is the CPU of `m` reset at `pc`.
pub open spec fn enters_at(m: Machine, n: Machine, pc: u16) -> bool {
    &&& n.cpu.pc == pc && n.cpu.sp == 0xFF && n.cpu.p == 0x20
    &&& n.cpu.a == 0 && n.cpu.x == 0 && n.cpu.y == 0
    &&& n.cpu.instructions == 0 && n.cpu.cycles == 0
    &&& !n.cpu.jammed && !n.cpu.brk_hit
    &&& n.cpu.brk_stops == m.cpu.brk_stops && n.cpu.tracking == m.cpu.tracking
    &&& n.mem == m.mem
}

/// Without a probe, a detected program is entered at the address that the definition gives,
/// or at the target of the SYS line, or else at the fallback; memory is as it was loaded.
#[verifier::rlimit(40)]
pub proof fn programs_are_entered_once(d: Definition, m: Machine, fallback: Option<u16>)
    requires
        d.probe is None,
        lead_on(d, m, fallback) is Some,
    ensures
        ({
            let l = lead_on(d, m, fallback)->0;
            let sys = sys_target(m.mem.ram@);
            &&& l.definition == d
            &&& l.probe_end is None
            &&& d.detect.entry matches Entry::At(pc) ==> enters_at(m, l.machine, pc)
            &&& d.detect.entry == Entry::Probed ==> l.machine == m
            &&& d.detect.entry == Entry::Sys && sys != 0 ==> enters_at(m, l.machine, sys as u16)
            &&& d.detect.entry == Entry::Sys && sys == 0 ==> enters_at(m, l.machine, fallback->0)
        }),
{
}

/// A probe enters the program at its own entry and runs it to its target. It succeeds
/// exactly when the target is reached within its cap and its pattern stands at its base in
/// the memory there; the detection then goes on from there with the word at its end
/// pointer.
#[verifier::rlimit(40)]
pub proof fn probes_run_the_program(
    d: Definition,
    m: Machine,
    entered: Machine,
    fallback: Option<u16>,
)
    requires
        d.probe is Some,
        d.detect.entry == Entry::Probed,
        enters_at(m, entered, d.probe->0.entry),
        entered.cpu.last_op is None,
        entered.cpu.zp_operand == m.cpu.zp_operand,
        entered.cpu.current_opcode == m.cpu.current_opcode,
    ensures
        ({
            let p = d.probe->0;
            let (hit, n) = run_to(entered, Goal::OneOf(seq![p.target]), p.cap as nat);
            let ok = hit && matches_at(p.verify_pattern, n.mem.ram@, p.verify_base as int);
            let matched = d.detect.always || exists|i: int|
                0 <= i < d.detect.patterns.len() && #[trigger] matches_at(
                    d.detect.patterns[i],
                    m.mem.ram@,
                    d.detect.base as int,
                );
            &&& lead_on(d, m, fallback) is Some <==> ok && matched
            &&& lead_on(d, m, fallback) matches Some(l) ==> {
                &&& l.machine == n
                &&& l.probe_end is Some
                &&& l.probe_end->0 as int == n.mem.visible(p.end_ptr) + 0x100 * n.mem.visible(
                    ((p.end_ptr + 1) % 0x1_0000) as u16,
                )
            }
        }),
{
    assert(entered.cpu == crate::cpu::reset_cpu(m.cpu, d.probe->0.entry));
    assert(entered == crate::detect::entered(m, d.probe->0.entry));
}

/// The variant of a detection is the last one whose pattern stands at its base in the memory
/// of the entered machine; where none does, there is none.
#[verifier::rlimit(40)]
pub proof fn variants_refine_detections(d: Definition, m: Machine, fallback: Option<u16>, k: int)
    requires
        lead_on(d, m, fallback) is Some,
        0 <= k < d.variants.len(),
    ensures
        ({
            let l = lead_on(d, m, fallback)->0;
            let ram = l.machine.mem.ram@;
            let here = matches_at(d.variants[k].pattern, ram, d.variants[k].base as int);
            &&& lead_valid(l)
            &&& l.variant is None ==> !here
            &&& l.variant matches Some(i) ==> {
                &&& matches_at(d.variants[i].pattern, ram, d.variants[i].base as int)
                &&& here ==> k <= i
                &&& lead_name(l) == d.variants[i].name
            }
            &&& l.variant is None ==> lead_name(l) == d.name
        }),
{
    let l = lead_on(d, m, fallback)->0;
    last_matching_variant_wins(d.variants, l.machine.mem.ram@, d.variants.len() as int);
    assert(l.variant == last_variant(
        d.variants,
        l.machine.mem.ram@,
        d.variants.len() as int,
    ));
}

/// Every definition gets a fresh machine with the file loaded; a file that cannot be loaded
/// is an error.
pub proof fn every_definition_gets_a_fresh_machine(
    d: Definition,
    prg: Seq<u8>,
    fallback: Option<u16>,
)
    ensures
        prg_error(prg) is Some ==> lead(d, prg, fallback) == Err::<Option<Lead>, Seq<char>>(
            prg_error(prg)->0,
        ),
        prg_error(prg) is None ==> lead(d, prg, fallback) == Ok::<Option<Lead>, Seq<char>>(
            lead_on(d, loaded_machine(prg), fallback),
        ),
        loaded_machine(prg).cpu == power_on_machine().cpu,
        loaded_machine(prg).mem == loaded_mem(power_on_machine().mem, prg),
{
    reveal(lead);
}

// ---------------------------------------------------------------------------
// Products
// ---------------------------------------------------------------------------

/// The engine that a definition names is the one that runs.
pub proof fn named_engine_runs(
    d: Definition,
    variant: Option<crate::config::Variant>,
    probe_end: Option<u16>,
    m: Machine,
)
    ensures
        d.engine == EngineKind::Generic ==> engine_run(d, variant, probe_end, m) == generic_run(
            d,
            variant,
            m,
        ),
        d.engine == EngineKind::TimeCruncher ==> engine_run(d, variant, probe_end, m)
            == timecruncher_run(d, m),
        d.engine == EngineKind::CrunchAB ==> engine_run(d, variant, probe_end, m) == crunchab_run(
            d,
            probe_end,
            m,
        ),
{
}

/// A product has the addresses that the engine found and the bytes between them; its name is
/// the engine's, or else the name of the detection. A finding that failed, or whose start
/// lies behind its end, gives none.
#[verifier::rlimit(40)]
pub proof fn findings_become_products(name: Seq<char>, log: Seq<Seq<char>>, e: EngineRun)
    ensures
        product_of(name, log, e) is Ok <==> e.finding.ok && e.finding.start <= e.finding.end,
        product_of(name, log, e) matches Ok(p) ==> {
            &&& p.start == e.finding.start && p.end == e.finding.end
            &&& p.real_start == e.finding.real_start && p.jump_start == e.finding.jump_start
            &&& e.finding.name is Some ==> p.cruncher == e.finding.name->0
            &&& e.finding.name is None ==> p.cruncher == name
            &&& p.prg.len() == p.end - p.start + 3
            &&& p.prg[0] + 0x100 * p.prg[1] == p.start
            &&& forall|a: int|
                p.start <= a <= p.end ==> #[trigger] e.machine.mem.ram@[a] == p.prg[a - p.start + 2]
            &&& p.log == log + e.log
        },
{
    if product_of(name, log, e) is Ok {
        let p = product_of(name, log, e)->Ok_0;
        assert forall|a: int| p.start <= a <= p.end implies #[trigger] e.machine.mem.ram@[a]
            == p.prg[a - p.start + 2] by {}
    }
}

/// A detection is unpacked by its definition's engine, with its variant, its probed end and
/// its machine, under its name.
pub proof fn detections_are_unpacked(l: Lead)
    ensures
        ({
            let e = engine_run(l.definition, lead_variant(l), l.probe_end, l.machine);
            &&& l.variant is None ==> unpacked(l) == product_of(l.definition.name, l.log, e)
            &&& l.variant matches Some(i) ==> unpacked(l) == product_of(
                l.definition.variants[i].name,
                l.log,
                e,
            )
            &&& l.variant is None ==> lead_variant(l) is None
            &&& l.variant matches Some(i) ==> lead_variant(l) == Some(l.definition.variants[i])
        }),
{
    reveal(unpacked);
}

/// The same but for the log.
pub open spec fn same_program(p: Product, q: Product) -> bool {
    &&& p.cruncher == q.cruncher && p.prg == q.prg
    &&& p.start == q.start && p.end == q.end
    &&& p.real_start == q.real_start && p.jump_start == q.jump_start
}

#[verifier::rlimit(40)]
proof fn product_from(
    ds: Seq<Definition>,
    prg: Seq<u8>,
    signatures_only: bool,
    fallback: Option<u16>,
    i: int,
    k: int,
    attempts: Seq<Seq<char>>,
)
    requires
        prg_error(prg) is None,
        0 <= i <= k < ds.len(),
        unpacks(ds[k], prg, signatures_only, fallback),
        forall|j: int| i <= j < k ==> !unpacks(#[trigger] ds[j], prg, signatures_only, fallback),
    ensures
        first_product(ds, prg, signatures_only, fallback, i, attempts) matches Ok(Some(_)),
        same_program(
            first_product(ds, prg, signatures_only, fallback, i, attempts)->Ok_0->0,
            unpacked(lead(ds[k], prg, fallback)->Ok_0->0)->Ok_0,
        ),
    decreases k - i,
{
    if i < k {
        assert(!unpacks(ds[i], prg, signatures_only, fallback));
        every_definition_gets_a_fresh_machine(ds[i], prg, fallback);
        let more = if left_out(ds[i], signatures_only) || lead(ds[i], prg, fallback)->Ok_0 is None {
            attempts
        } else {
            attempts.push(ds[i].source)
        };
        product_from(ds, prg, signatures_only, fallback, i + 1, k, more);
    }
}

/// One pass gives the program of the first definition that both matches and unpacks: the
/// ones before it only add to the log.
pub proof fn first_that_unpacks_wins(
    ds: Seq<Definition>,
    prg: Seq<u8>,
    signatures_only: bool,
    fallback: Option<u16>,
    k: int,
)
    requires
        prg_error(prg) is None,
        0 <= k < ds.len(),
        unpacks(ds[k], prg, signatures_only, fallback),
        forall|j: int| 0 <= j < k ==> !unpacks(#[trigger] ds[j], prg, signatures_only, fallback),
    ensures
        one_layer(ds, prg, signatures_only, fallback) matches Ok(Some(_)),
        same_program(
            one_layer(ds, prg, signatures_only, fallback)->Ok_0->0,
            unpacked(lead(ds[k], prg, fallback)->Ok_0->0)->Ok_0,
        ),
{
    reveal(one_layer);
    product_from(ds, prg, signatures_only, fallback, 0, k, Seq::empty());
}

// ---------------------------------------------------------------------------
// Layers
// ---------------------------------------------------------------------------

/// A program that covers almost all of RAM.
pub open spec fn fills_memory(p: Product) -> bool {
    p.end - p.start >= 0xE000
}

/// `ps` lists a program and the layers below it: each but the last fills memory, and its
/// image is unpacked by signature, entered where it runs, to something else.
pub open spec fn is_layered(ds: Seq<Definition>, ps: Seq<Product>) -> bool {
    forall|k: int|
        0 <= k && k + 1 < ps.len() ==> {
            &&& (#[trigger] ps[k]).start <= ps[k].end
            &&& fills_memory(ps[k])
            &&& one_layer(ds, ps[k].prg, true, Some(ps[k].jump_start)) == Ok::<
                Option<Product>,
                Seq<char>,
            >(Some(ps[k + 1]))
            &&& ps[k + 1].prg != ps[k].prg
        }
}

/// The names of the programs of a list.
pub open spec fn names_of(ps: Seq<Product>) -> Seq<Seq<char>> {
    Seq::new(ps.len(), |i: int| ps[i].cruncher)
}

#[verifier::rlimit(40)]
proof fn peels_to_the_last(
    ds: Seq<Definition>,
    ps: Seq<Product>,
    k: int,
    p: Product,
    layers: nat,
)
    requires
        is_layered(ds, ps),
        0 <= k < ps.len(),
        same_program(p, ps[k]),
        ps.len() - 1 - k <= layers,
        ps.len() - 1 - k == layers || (ps.last().start <= ps.last().end && !fills_memory(
            ps.last(),
        )),
    ensures
        same_program(peeled(ds, p, names_of(ps.take(k + 1)), layers).0, ps.last()),
        peeled(ds, p, names_of(ps.take(k + 1)), layers).1 == names_of(ps),
    decreases ps.len() - k,
{
    let names = names_of(ps.take(k + 1));
    if k + 1 == ps.len() {
        assert(ps.take(k + 1) =~= ps);
    } else {
        assert(fills_memory(ps[k]));
        let inner = ps[k + 1];
        let c = chained(p, inner, (names.len() + 1) as int);
        assert(names.push(inner.cruncher) =~= names_of(ps.take(k + 2)));
        assert(same_program(c, inner));
        peels_to_the_last(ds, ps, k + 1, c, (layers - 1) as nat);
    }
}

/// Up to three layers are peeled off a program that fills memory, and no more: the result
/// is the last of the layers, or the fourth program of the list. The names of all of them
/// are joined by arrows.
#[verifier::rlimit(40)]
pub proof fn layers_are_peeled(ds: Seq<Definition>, prg: Seq<u8>, ps: Seq<Product>)
    requires
        1 <= ps.len() <= 4,
        one_layer(ds, prg, false, None) == Ok::<Option<Product>, Seq<char>>(Some(ps[0])),
        is_layered(ds, ps),
        ps.len() == 4 || (ps.last().start <= ps.last().end && !fills_memory(ps.last())),
    ensures
        fully_unpacked(ds, prg) matches Ok(Some(_)),
        ({
            let q = fully_unpacked(ds, prg)->Ok_0->0;
            &&& q.prg == ps.last().prg
            &&& q.start == ps.last().start && q.end == ps.last().end
            &&& q.real_start == ps.last().real_start && q.jump_start == ps.last().jump_start
            &&& ps.len() == 1 ==> q.cruncher == ps[0].cruncher
            &&& ps.len() > 1 ==> q.cruncher == joined(names_of(ps), " \u{2192} "@)
        }),
{
    assert(names_of(ps.take(1)) =~= seq![ps[0].cruncher]);
    peels_to_the_last(ds, ps, 0, ps[0], 3);
}

/// Nothing that was recognized only by a catch-all, and nothing that leaves memory free, is
/// peeled: a program that does not fill memory is the result.
pub proof fn small_programs_are_not_peeled(ds: Seq<Definition>, prg: Seq<u8>, p: Product)
    requires
        one_layer(ds, prg, false, None) == Ok::<Option<Product>, Seq<char>>(Some(p)),
        p.start <= p.end,
        p.end - p.start < 0xE000,
    ensures
        fully_unpacked(ds, prg) == Ok::<Option<Product>, Seq<char>>(Some(p)),
{
}

// ---------------------------------------------------------------------------
// Config texts
// ---------------------------------------------------------------------------

/// Several config texts load exactly when each of them does; the definitions come in the
/// order of the texts, each loaded under its file name.
pub proof fn texts_load_in_order(files: Seq<(Seq<char>, Seq<char>)>)
    ensures
        loaded_configs(files) is Ok <==> forall|i: int|
            0 <= i < files.len() ==> loaded_config((#[trigger] files[i]).1, files[i].0) is Ok,
        loaded_configs(files) matches Ok(ds) ==> ds.len() == files.len() && forall|i: int|
            0 <= i < files.len() ==> loaded_config((#[trigger] files[i]).1, files[i].0) == Ok::<
                Definition,
                Seq<char>,
            >(ds[i]),
    decreases files.len(),
{
    if files.len() > 0 {
        let front = files.drop_last();
        texts_load_in_order(front);
        let n = files.len() - 1;
        assert(files.last() == files[n]);
        assert forall|i: int| 0 <= i < n implies front[i] == #[trigger] files[i] by {}
        if loaded_configs(files) is Ok {
            let ds = loaded_configs(files)->Ok_0;
            let fs = loaded_configs(front)->Ok_0;
            assert forall|i: int| 0 <= i < files.len() implies loaded_config(
                (#[trigger] files[i]).1,
                files[i].0,
            ) == Ok::<Definition, Seq<char>>(ds[i]) by {
                if i < n {
                    assert(loaded_config(front[i].1, front[i].0) == Ok::<Definition, Seq<char>>(
                        fs[i],
                    ));
                }
            }
        } else if forall|i: int|
            0 <= i < files.len() ==> loaded_config((#[trigger] files[i]).1, files[i].0) is Ok {
            assert forall|i: int| 0 <= i < front.len() implies loaded_config(
                (#[trigger] front[i]).1,
                front[i].0,
            ) is Ok by {
                assert(loaded_config(files[i].1, files[i].0) is Ok);
            }
            assert(loaded_config(files[n].1, files[n].0) is Ok);
        }
    }
}

/// What is said of a depacker that did not finish, and of definitions that were tried before
/// the one that unpacked.
pub proof fn failures_are_described(
    name: Seq<char>,
    log: Seq<Seq<char>>,
    e: EngineRun,
    p: Product,
    attempts: Seq<Seq<char>>,
)
    ensures
        !e.finding.ok ==> product_of(name, log, e) == Err::<Product, Seq<char>>(
            "detected as \""@ + name + "\" but the depacker did not finish:\n"@ + joined(
                log + e.log,
                "\n"@,
            ),
        ),
        attempts.len() == 0 ==> with_attempts(p, attempts) == p,
        attempts.len() > 0 ==> {
            let q = with_attempts(p, attempts);
            &&& same_program(p, q)
            &&& q.log == seq!["earlier attempts failed: "@ + joined(attempts, ", "@)] + p.log
        },
{
}

// ---------------------------------------------------------------------------
// The order of the definitions
// ---------------------------------------------------------------------------

proof fn lead_of_the_first(ds: Seq<Definition>, prg: Seq<u8>, signatures_only: bool, i: int, k: int)
    requires
        0 <= i <= k <= ds.len(),
        k < ds.len() ==> !left_out(ds[k], signatures_only) && !(lead(ds[k], prg, None) == Ok::<
            Option<Lead>,
            Seq<char>,
        >(None)),
        forall|j: int|
            i <= j < k ==> left_out(#[trigger] ds[j], signatures_only) || lead(ds[j], prg, None)
                == Ok::<Option<Lead>, Seq<char>>(None),
    ensures
        k < ds.len() ==> first_lead(ds, prg, signatures_only, i) == lead(ds[k], prg, None),
        k == ds.len() ==> first_lead(ds, prg, signatures_only, i) == Ok::<
            Option<Lead>,
            Seq<char>,
        >(None),
    decreases k - i,
{
    if i < k {
        assert(left_out(ds[i], signatures_only) || lead(ds[i], prg, None) == Ok::<
            Option<Lead>,
            Seq<char>,
        >(None));
        lead_of_the_first(ds, prg, signatures_only, i + 1, k);
    }
}

/// The first definition that matches a file is reported, wherever it stands; where none
/// matches, nothing is. With signatures only, catch-alls are passed over.
pub proof fn first_match_is_reported(
    ds: Seq<Definition>,
    prg: Seq<u8>,
    signatures_only: bool,
    k: int,
)
    requires
        prg_error(prg) is None,
        0 <= k <= ds.len(),
        forall|j: int|
            0 <= j < k ==> (signatures_only && (#[trigger] ds[j]).detect.always) || lead_on(
                ds[j],
                loaded_machine(prg),
                None,
            ) is None,
        k < ds.len() ==> !(signatures_only && ds[k].detect.always) && lead_on(
            ds[k],
            loaded_machine(prg),
            None,
        ) is Some,
    ensures
        k < ds.len() ==> first_lead(ds, prg, signatures_only, 0) == Ok::<Option<Lead>, Seq<char>>(
            lead_on(ds[k], loaded_machine(prg), None),
        ),
        k == ds.len() ==> first_lead(ds, prg, signatures_only, 0) == Ok::<
            Option<Lead>,
            Seq<char>,
        >(None),
{
    if k < ds.len() {
        every_definition_gets_a_fresh_machine(ds[k], prg, None);
    }
    assert forall|j: int| 0 <= j < k implies left_out(#[trigger] ds[j], signatures_only) || lead(
        ds[j],
        prg,
        None,
    ) == Ok::<Option<Lead>, Seq<char>>(None) by {
        every_definition_gets_a_fresh_machine(ds[j], prg, None);
    }
    lead_of_the_first(ds, prg, signatures_only, 0, k);
}

} // verus!
