//! What detection and unpacking promise as a whole.

use vstd::prelude::*;

verus! {

use crate::bits::{high_byte, low_byte};
use crate::c64::prg_error;
use crate::config::{Definition, Variant};
use crate::detect::{
    any_matches, chained, first_lead, first_product, fully_unpacked, last_variant, lead,
    lead_variant, loaded_machine, one_layer, peeled, spans_memory, unpacked, Lead, Product,
};
use crate::engine::engine_run;
use crate::pattern::matches_at;

/// Whether a definition is left out when only signatures count.
pub open spec fn left_out(d: Definition, signatures_only: bool) -> bool {
    signatures_only && d.detect.always
}

proof fn lead_comes_from(ds: Seq<Definition>, prg: Seq<u8>, signatures_only: bool, i: int) -> (k: int)
    requires
        0 <= i,
        first_lead(ds, prg, signatures_only, i) matches Ok(Some(_)),
    ensures
        i <= k < ds.len(),
        !left_out(ds[k], signatures_only),
        lead(ds[k], prg, None) == first_lead(ds, prg, signatures_only, i),
        forall|j: int|
            i <= j < k ==> left_out(#[trigger] ds[j], signatures_only) || lead(ds[j], prg, None)
                == Ok::<Option<Lead>, Seq<char>>(None),
    decreases ds.len() - i,
{
    if left_out(ds[i], signatures_only) || lead(ds[i], prg, None) == Ok::<
        Option<Lead>,
        Seq<char>,
    >(None) {
        lead_comes_from(ds, prg, signatures_only, i + 1)
    } else {
        i
    }
}

/// The first match wins: a detection belongs to a definition before which no other
/// one matches.
pub proof fn first_match_wins(ds: Seq<Definition>, prg: Seq<u8>, signatures_only: bool)
    requires
        first_lead(ds, prg, signatures_only, 0) matches Ok(Some(_)),
    ensures
        exists|k: int|
            {
                &&& 0 <= k < ds.len()
                &&& !left_out(#[trigger] ds[k], signatures_only)
                &&& lead(ds[k], prg, None) == first_lead(ds, prg, signatures_only, 0)
                &&& forall|j: int|
                    0 <= j < k ==> left_out(#[trigger] ds[j], signatures_only) || lead(
                        ds[j],
                        prg,
                        None,
                    ) == Ok::<Option<Lead>, Seq<char>>(None)
            },
{
    let k = lead_comes_from(ds, prg, signatures_only, 0);
    assert(!left_out(ds[k], signatures_only));
}

/// A match by signature is never a catch-all: one of the definition's patterns
/// stands in the loaded file.
pub proof fn signature_match_is_real(ds: Seq<Definition>, prg: Seq<u8>)
    requires
        first_lead(ds, prg, true, 0) matches Ok(Some(_)),
    ensures
        ({
            let l = first_lead(ds, prg, true, 0)->Ok_0->0;
            &&& !l.definition.detect.always
            &&& any_matches(
                l.definition.detect.patterns,
                loaded_machine(prg).mem.ram@,
                l.definition.detect.base as int,
            )
        }),
{
    reveal(lead);
    let k = lead_comes_from(ds, prg, true, 0);
}

/// Definitions do not disturb each other: one that does not match a file changes
/// nothing, wherever it stands.
pub proof fn unmatched_definition_changes_nothing(
    ds: Seq<Definition>,
    prg: Seq<u8>,
    signatures_only: bool,
    k: int,
    d: Definition,
)
    requires
        0 <= k <= ds.len(),
        lead(d, prg, None) == Ok::<Option<Lead>, Seq<char>>(None),
    ensures
        first_lead(ds.insert(k, d), prg, signatures_only, 0) == first_lead(
            ds,
            prg,
            signatures_only,
            0,
        ),
{
    insertion_is_skipped(ds, prg, signatures_only, k, d, 0);
}

proof fn insertion_is_skipped(
    ds: Seq<Definition>,
    prg: Seq<u8>,
    signatures_only: bool,
    k: int,
    d: Definition,
    i: int,
)
    requires
        0 <= k <= ds.len(),
        0 <= i <= ds.len(),
        lead(d, prg, None) == Ok::<Option<Lead>, Seq<char>>(None),
    ensures
        first_lead(
            ds.insert(k, d),
            prg,
            signatures_only,
            if i <= k {
                i
            } else {
                i + 1
            },
        ) == first_lead(ds, prg, signatures_only, i),
    decreases ds.len() - i,
{
    let es = ds.insert(k, d);
    if i < k {
        assert(es[i] == ds[i]);
        insertion_is_skipped(ds, prg, signatures_only, k, d, i + 1);
    } else {
        if i == k {
            assert(es[k] == d);
            assert(first_lead(es, prg, signatures_only, k) == first_lead(
                es,
                prg,
                signatures_only,
                k + 1,
            ));
        }
        if i < ds.len() {
            assert(es[i + 1] == ds[i]);
            insertion_is_skipped(ds, prg, signatures_only, k, d, i + 1);
        }
    }
}

/// A file that is no PRG image is an error as soon as one definition is tried.
pub proof fn bad_file_is_an_error(ds: Seq<Definition>, prg: Seq<u8>, signatures_only: bool, k: int)
    requires
        prg_error(prg) is Some,
        0 <= k < ds.len(),
        !left_out(ds[k], signatures_only),
    ensures
        first_lead(ds, prg, signatures_only, 0) == Err::<Option<Lead>, Seq<char>>(
            prg_error(prg)->0,
        ),
        one_layer(ds, prg, signatures_only, None) == Err::<Option<Product>, Seq<char>>(
            prg_error(prg)->0,
        ),
{
    reveal(one_layer);
    bad_file_from(ds, prg, signatures_only, 0, k);
}

proof fn bad_file_from(
    ds: Seq<Definition>,
    prg: Seq<u8>,
    signatures_only: bool,
    i: int,
    k: int,
)
    requires
        prg_error(prg) is Some,
        0 <= i <= k < ds.len(),
        !left_out(ds[k], signatures_only),
    ensures
        first_lead(ds, prg, signatures_only, i) == Err::<Option<Lead>, Seq<char>>(
            prg_error(prg)->0,
        ),
        first_product(ds, prg, signatures_only, None, i, Seq::empty()) == Err::<
            Option<Product>,
            Seq<char>,
        >(prg_error(prg)->0),
    decreases k - i,
{
    reveal(lead);
    if left_out(ds[i], signatures_only) {
        bad_file_from(ds, prg, signatures_only, i + 1, k);
    }
}

/// The last matching variant wins.
pub proof fn last_matching_variant_wins(vs: Seq<Variant>, ram: Seq<u8>, n: int)
    requires
        0 <= n <= vs.len(),
    ensures
        match last_variant(vs, ram, n) {
            Some(i) => {
                &&& 0 <= i < n
                &&& matches_at(vs[i].pattern, ram, vs[i].base as int)
                &&& forall|j: int|
                    i < j < n ==> !matches_at((#[trigger] vs[j]).pattern, ram, vs[j].base as int)
            },
            None => forall|j: int|
                0 <= j < n ==> !matches_at((#[trigger] vs[j]).pattern, ram, vs[j].base as int),
        },
    decreases n,
{
    if n > 0 && !matches_at(vs[n - 1].pattern, ram, vs[n - 1].base as int) {
        last_matching_variant_wins(vs, ram, n - 1);
    }
}

/// A failed depack is an error, never a partial program.
pub proof fn failed_depack_is_an_error(l: Lead)
    ensures
        ({
            let f = engine_run(l.definition, lead_variant(l), l.probe_end, l.machine).finding;
            unpacked(l) is Ok <==> f.ok && f.start <= f.end
        }),
{
    reveal(unpacked);
}

/// An unpacked program is a PRG image: the load address, then the bytes of its
/// range as they stand in memory at the end of the run.
#[verifier::rlimit(30)]
pub proof fn product_is_a_prg(l: Lead)
    requires
        unpacked(l) is Ok,
    ensures
        ({
            let p = unpacked(l)->Ok_0;
            let ram = engine_run(
                l.definition,
                lead_variant(l),
                l.probe_end,
                l.machine,
            ).machine.mem.ram@;
            &&& p.start <= p.end
            &&& p.prg.len() == 2 + (p.end - p.start + 1)
            &&& p.prg[0] == low_byte(p.start)
            &&& p.prg[1] == high_byte(p.start)
            &&& p.prg.skip(2) == ram.subrange(p.start as int, p.end + 1)
        }),
{
    reveal(unpacked);
    let p = unpacked(l)->Ok_0;
    let ram = engine_run(l.definition, lead_variant(l), l.probe_end, l.machine).machine.mem.ram@;
    assert(p.prg.skip(2) =~= ram.subrange(p.start as int, p.end + 1));
}

/// Whether a definition unpacks a file.
pub open spec fn unpacks(
    d: Definition,
    prg: Seq<u8>,
    signatures_only: bool,
    fallback: Option<u16>,
) -> bool {
    &&& !left_out(d, signatures_only)
    &&& lead(d, prg, fallback) matches Ok(Some(l)) && unpacked(l) is Ok
}

/// Whether some definition from position `i` on unpacks a file.
spec fn some_unpacks(
    ds: Seq<Definition>,
    prg: Seq<u8>,
    signatures_only: bool,
    fallback: Option<u16>,
    i: int,
) -> bool {
    exists|k: int| i <= k < ds.len() && unpacks(#[trigger] ds[k], prg, signatures_only, fallback)
}

proof fn falls_through_from(
    ds: Seq<Definition>,
    prg: Seq<u8>,
    signatures_only: bool,
    fallback: Option<u16>,
    i: int,
    attempts: Seq<Seq<char>>,
)
    requires
        prg_error(prg) is None,
        0 <= i <= ds.len(),
    ensures
        first_product(ds, prg, signatures_only, fallback, i, attempts) is Ok,
        first_product(ds, prg, signatures_only, fallback, i, attempts)->Ok_0 is Some
            <==> some_unpacks(ds, prg, signatures_only, fallback, i),
    decreases ds.len() - i,
{
    reveal(lead);
    if i < ds.len() {
        let more = match lead(ds[i], prg, fallback) {
            Ok(Some(l)) if !left_out(ds[i], signatures_only) => attempts.push(ds[i].source),
            _ => attempts,
        };
        falls_through_from(ds, prg, signatures_only, fallback, i + 1, more);
        if unpacks(ds[i], prg, signatures_only, fallback) {
            assert(some_unpacks(ds, prg, signatures_only, fallback, i));
        } else {
            assert(some_unpacks(ds, prg, signatures_only, fallback, i) == some_unpacks(
                ds,
                prg,
                signatures_only,
                fallback,
                i + 1,
            ));
        }
    }
}

/// Unpacking falls through: it succeeds exactly when some definition matches and its
/// depacker finishes, however many others matched and failed before.
pub proof fn unpacking_falls_through(
    ds: Seq<Definition>,
    prg: Seq<u8>,
    signatures_only: bool,
    fallback: Option<u16>,
)
    requires
        prg_error(prg) is None,
    ensures
        one_layer(ds, prg, signatures_only, fallback) is Ok,
        one_layer(ds, prg, signatures_only, fallback)->Ok_0 is Some <==> exists|k: int|
            0 <= k < ds.len() && unpacks(#[trigger] ds[k], prg, signatures_only, fallback),
{
    reveal(one_layer);
    falls_through_from(ds, prg, signatures_only, fallback, 0, Seq::empty());
    assert(some_unpacks(ds, prg, signatures_only, fallback, 0) == (exists|k: int|
        0 <= k < ds.len() && unpacks(#[trigger] ds[k], prg, signatures_only, fallback)));
}

/// A result that leaves room in memory is not peeled any further.
pub proof fn ordinary_program_is_kept(ds: Seq<Definition>, prg: Seq<u8>)
    requires
        one_layer(ds, prg, false, None) matches Ok(Some(p)) && !spans_memory(p),
    ensures
        fully_unpacked(ds, prg) == one_layer(ds, prg, false, None),
{
}

/// A failed inner depack, or one that changes nothing, keeps the outer result.
pub proof fn failed_inner_depack_keeps_the_outer_result(
    ds: Seq<Definition>,
    p: Product,
    names: Seq<Seq<char>>,
    layers: nat,
)
    requires
        one_layer(ds, p.prg, true, Some(p.jump_start)) matches Ok(Some(inner)) ==> inner.prg == p.prg,
    ensures
        peeled(ds, p, names, layers) == (p, names),
{
}

/// Peeling adds one name per layer, and the log of the outer layers stays in front.
pub proof fn peeling_is_bounded(ds: Seq<Definition>, p: Product, names: Seq<Seq<char>>, layers: nat)
    ensures
        ({
            let (q, all) = peeled(ds, p, names, layers);
            &&& names.len() <= all.len() <= names.len() + layers
            &&& names.is_prefix_of(all)
            &&& p.log.is_prefix_of(q.log)
        }),
    decreases layers,
{
    if layers > 0 && spans_memory(p) {
        match one_layer(ds, p.prg, true, Some(p.jump_start)) {
            Ok(Some(inner)) if inner.prg != p.prg => {
                let c = chained(p, inner, (names.len() + 1) as int);
                let more = names.push(inner.cruncher);
                peeling_is_bounded(ds, c, more, (layers - 1) as nat);
                let (q, all) = peeled(ds, c, more, (layers - 1) as nat);
                assert(names =~= all.take(names.len() as int)) by {
                    assert(more =~= all.take(more.len() as int));
                    assert(names =~= more.take(names.len() as int));
                }
                assert(p.log =~= q.log.take(p.log.len() as int)) by {
                    assert(c.log =~= q.log.take(c.log.len() as int));
                    assert(p.log =~= c.log.take(p.log.len() as int));
                }
            },
            _ => {},
        }
    }
}

} // verus!
