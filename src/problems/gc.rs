//! Choosing the record with the highest GC content.

use crate::utils::dna::{base_count, Dna, DnaBase};
use crate::utils::fasta::Fasta;
use vstd::prelude::*;

verus! {

/// Number of `C` and `G` bases in a sequence.
pub open spec fn gc_of(s: Seq<DnaBase>) -> nat {
    base_count(s, DnaBase::C) + base_count(s, DnaBase::G)
}

/// The GC fraction of `a` is below that of `b` (each is G and C count over length).
pub open spec fn gc_below(a: Seq<DnaBase>, b: Seq<DnaBase>) -> bool {
    gc_of(a) * b.len() < gc_of(b) * a.len()
}

/// The GC fraction of `a` is at most that of `b`.
pub open spec fn gc_at_most(a: Seq<DnaBase>, b: Seq<DnaBase>) -> bool {
    gc_of(a) * b.len() <= gc_of(b) * a.len()
}

proof fn fraction_order(g1: nat, l1: nat, g2: nat, l2: nat, g3: nat, l3: nat)
    requires
        l1 > 0,
        l2 > 0,
        l3 > 0,
        g1 * l2 <= g2 * l1,
        g2 * l3 <= g3 * l2,
        g1 * l2 < g2 * l1 || g2 * l3 < g3 * l2,
    ensures
        g1 * l3 < g3 * l1,
{
    assert(g1 * l2 * l3 <= g2 * l1 * l3) by (nonlinear_arith)
        requires
            g1 * l2 <= g2 * l1,
    ;
    assert(g2 * l3 * l1 <= g3 * l2 * l1) by (nonlinear_arith)
        requires
            g2 * l3 <= g3 * l2,
    ;
    assert(g1 * l2 * l3 < g3 * l2 * l1) by (nonlinear_arith)
        requires
            g1 * l2 * l3 <= g2 * l1 * l3,
            g2 * l3 * l1 <= g3 * l2 * l1,
            g1 * l2 < g2 * l1 || g2 * l3 < g3 * l2,
            l1 > 0,
            l3 > 0,
    ;
    assert(g1 * l3 < g3 * l1) by (nonlinear_arith)
        requires
            g1 * l2 * l3 < g3 * l2 * l1,
            l2 > 0,
    ;
}

proof fn gc_within_length(s: Seq<DnaBase>, n: nat)
    requires
        n <= s.len(),
    ensures
        crate::utils::dna::count_before(s, DnaBase::C, n) + crate::utils::dna::count_before(s, DnaBase::G, n) <= n,
    decreases n,
{
    if n > 0 {
        gc_within_length(s, (n - 1) as nat);
    }
}

/// The first record whose GC fraction is the highest, among records with some `C`
/// or `G`; `None` when no record has any.
pub fn highest_gc_record(input: &Fasta<Dna>) -> (r: Option<usize>)
    ensures
        r is None <==> forall|j: int| 0 <= j < input@.len() ==> gc_of(#[trigger] input@[j].1) == 0,
        r matches Some(i) ==> {
            &&& i < input@.len()
            &&& gc_of(input@[i as int].1) > 0
            &&& forall|j: int|
                0 <= j < i && input@[j].1.len() > 0 ==> gc_below(#[trigger] input@[j].1, input@[i as int].1)
            &&& forall|j: int|
                i < j < input@.len() && input@[j].1.len() > 0 ==> gc_at_most(
                    #[trigger] input@[j].1,
                    input@[i as int].1,
                )
        },
{
    let ghost doc = input@;
    let records = input.records();
    let mut best: Option<usize> = None;
    let mut best_gc: u128 = 0;
    let mut best_len: u128 = 1;
    let mut j: usize = 0;
    while j < records.len()
        invariant
            j <= records@.len() == doc.len(),
            doc == records@.map_values(|p: (String, Dna)| (p.0@, p.1@)),
            best is None ==> best_gc == 0 && best_len == 1 && forall|x: int|
                0 <= x < j ==> gc_of(#[trigger] doc[x].1) == 0,
            best matches Some(b) ==> {
                &&& b < j
                &&& best_gc == gc_of(doc[b as int].1)
                &&& best_len == doc[b as int].1.len()
                &&& best_gc > 0
                &&& best_len > 0
                &&& forall|x: int|
                    0 <= x < b && doc[x].1.len() > 0 ==> gc_below(#[trigger] doc[x].1, doc[b as int].1)
                &&& forall|x: int|
                    b < x < j && doc[x].1.len() > 0 ==> gc_at_most(#[trigger] doc[x].1, doc[b as int].1)
            },
            best_gc <= u64::MAX,
            best_len <= u64::MAX,
        decreases records.len() - j,
    {
        let dna = &records[j].1;
        assert(dna@ == doc[j as int].1);
        let g = dna.gc_count() as u128;
        let l = dna.len() as u128;
        proof {
            gc_within_length(dna@, dna@.len());
        }
        assert(g * best_len <= u64::MAX * u64::MAX) by (nonlinear_arith)
            requires
                g <= u64::MAX,
                best_len <= u64::MAX,
        ;
        assert(best_gc * l <= u64::MAX * u64::MAX) by (nonlinear_arith)
            requires
                best_gc <= u64::MAX,
                l <= u64::MAX,
        ;
        if g * best_len > best_gc * l {
            proof {
                match best {
                    None => {
                        assert(g > 0);
                        assert forall|x: int|
                            0 <= x < j && doc[x].1.len() > 0 implies gc_below(#[trigger] doc[x].1, doc[j as int].1) by {
                            assert(gc_of(doc[x].1) == 0);
                            assert(0 < g * doc[x].1.len()) by (nonlinear_arith)
                                requires
                                    g > 0,
                                    doc[x].1.len() > 0,
                            ;
                        }
                    },
                    Some(b) => {
                        assert(g > 0) by (nonlinear_arith)
                            requires
                                g * best_len > best_gc * l,
                        ;
                        assert(l > 0);
                        assert forall|x: int|
                            0 <= x < j && doc[x].1.len() > 0 implies gc_below(#[trigger] doc[x].1, doc[j as int].1) by {
                            if x < b {
                                fraction_order(
                                    gc_of(doc[x].1),
                                    doc[x].1.len(),
                                    gc_of(doc[b as int].1),
                                    doc[b as int].1.len(),
                                    g as nat,
                                    l as nat,
                                );
                            } else if x > b {
                                fraction_order(
                                    gc_of(doc[x].1),
                                    doc[x].1.len(),
                                    gc_of(doc[b as int].1),
                                    doc[b as int].1.len(),
                                    g as nat,
                                    l as nat,
                                );
                            }
                        }
                    },
                }
            }
            best = Some(j);
            best_gc = g;
            best_len = l;
        } else {
            proof {
                match best {
                    None => {
                        assert(g == 0);
                    },
                    Some(b) => {},
                }
            }
        }
        j += 1;
    }
    best
}

} // verus!
