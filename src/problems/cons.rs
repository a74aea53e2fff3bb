//! The profile matrix and consensus string of DNA strings of one length.

use crate::utils::dna::{dna_text, Dna, DnaBase};
use crate::utils::fasta::Fasta;
use crate::utils::text::{decimal_strings, decimals, join, joined};
use vstd::prelude::*;

verus! {

/// Number of the first `n` records that hold base `b` at position `i`.
pub open spec fn column_count(doc: Seq<(Seq<char>, Seq<DnaBase>)>, b: DnaBase, i: int, n: nat) -> nat
    decreases n,
{
    if n == 0 {
        0
    } else {
        column_count(doc, b, i, (n - 1) as nat) + if i < doc[n - 1].1.len() && doc[n - 1].1[i] == b {
            1nat
        } else {
            0nat
        }
    }
}

/// The row of the profile matrix for base `b`: its count at each position of the
/// first record.
pub open spec fn profile(doc: Seq<(Seq<char>, Seq<DnaBase>)>, b: DnaBase) -> Seq<usize> {
    Seq::new(doc[0].1.len(), |i: int| column_count(doc, b, i, doc.len()) as usize)
}

/// The most frequent base of a column; of equally frequent ones the last in the
/// order `A, C, G, T`.
pub open spec fn consensus_base(ca: nat, cc: nat, cg: nat, ct: nat) -> DnaBase {
    if ct >= ca && ct >= cc && ct >= cg {
        DnaBase::T
    } else if cg >= ca && cg >= cc {
        DnaBase::G
    } else if cc >= ca {
        DnaBase::C
    } else {
        DnaBase::A
    }
}

/// The consensus string: the most frequent base at each position.
pub open spec fn consensus(doc: Seq<(Seq<char>, Seq<DnaBase>)>) -> Seq<DnaBase> {
    Seq::new(
        doc[0].1.len(),
        |i: int|
            consensus_base(
                column_count(doc, DnaBase::A, i, doc.len()),
                column_count(doc, DnaBase::C, i, doc.len()),
                column_count(doc, DnaBase::G, i, doc.len()),
                column_count(doc, DnaBase::T, i, doc.len()),
            ),
    )
}

proof fn column_count_bound(doc: Seq<(Seq<char>, Seq<DnaBase>)>, b: DnaBase, i: int, n: nat)
    ensures
        column_count(doc, b, i, n) <= n,
    decreases n,
{
    if n > 0 {
        column_count_bound(doc, b, i, (n - 1) as nat);
    }
}

/// The profile row for base `b` over positions below `len`.
fn profile_row(records: &[(String, Dna)], b: DnaBase, len: usize) -> (r: Vec<usize>)
    ensures
        r@.len() == len,
        forall|i: int|
            0 <= i < len ==> (#[trigger] r@[i]) as nat == column_count(
                records@.map_values(|p: (String, Dna)| (p.0@, p.1@)),
                b,
                i,
                records@.len(),
            ),
{
    let ghost doc = records@.map_values(|p: (String, Dna)| (p.0@, p.1@));
    let mut row: Vec<usize> = vec![0; len];
    let mut j: usize = 0;
    while j < records.len()
        invariant
            j <= records@.len() == doc.len(),
            doc == records@.map_values(|p: (String, Dna)| (p.0@, p.1@)),
            row@.len() == len,
            forall|i: int| 0 <= i < len ==> (#[trigger] row@[i]) as nat == column_count(doc, b, i, j as nat),
        decreases records.len() - j,
    {
        let bases = records[j].1.sequence();
        assert(bases@ == doc[j as int].1);
        let mut i: usize = 0;
        while i < len
            invariant
                i <= len == row@.len(),
                j < doc.len() == records.len(),
                bases@ == doc[j as int].1,
                forall|p: int| 0 <= p < i ==> (#[trigger] row@[p]) as nat == column_count(doc, b, p, (j + 1) as nat),
                forall|p: int| i <= p < len ==> (#[trigger] row@[p]) as nat == column_count(doc, b, p, j as nat),
            decreases len - i,
        {
            proof {
                column_count_bound(doc, b, i as int, j as nat);
            }
            if i < bases.len() && bases[i] == b {
                row[i] = row[i] + 1;
            }
            i += 1;
        }
        j += 1;
    }
    row
}

/// The consensus base of one column.
fn pick(ca: usize, cc: usize, cg: usize, ct: usize) -> (r: DnaBase)
    ensures
        r == consensus_base(ca as nat, cc as nat, cg as nat, ct as nat),
{
    if ct >= ca && ct >= cc && ct >= cg {
        DnaBase::T
    } else if cg >= ca && cg >= cc {
        DnaBase::G
    } else if cc >= ca {
        DnaBase::C
    } else {
        DnaBase::A
    }
}

/// The consensus string, then the profile rows for `A`, `C`, `G` and `T`, each
/// after its label, on separate lines. Records may not be longer than the first.
pub fn solve(input: Fasta<Dna>) -> (r: String)
    requires
        input@.len() >= 1,
        forall|j: int| 0 <= j < input@.len() ==> (#[trigger] input@[j]).1.len() <= input@[0].1.len(),
    ensures
        r@ == dna_text(consensus(input@)) + "\nA: "@ + joined(decimals(profile(input@, DnaBase::A)), " "@)
            + "\nC: "@ + joined(decimals(profile(input@, DnaBase::C)), " "@) + "\nG: "@ + joined(
            decimals(profile(input@, DnaBase::G)),
            " "@,
        ) + "\nT: "@ + joined(decimals(profile(input@, DnaBase::T)), " "@),
{
    let ghost doc = input@;
    let records = input.records();
    assert(records@[0].1@ == doc[0].1);
    let len = records[0].1.len();
    let a = profile_row(records, DnaBase::A, len);
    let c = profile_row(records, DnaBase::C, len);
    let g = profile_row(records, DnaBase::G, len);
    let t = profile_row(records, DnaBase::T, len);
    let mut bases: Vec<DnaBase> = Vec::new();
    let mut i: usize = 0;
    while i < len
        invariant
            i <= len == doc[0].1.len() == a@.len() == c@.len() == g@.len() == t@.len(),
            doc == records@.map_values(|p: (String, Dna)| (p.0@, p.1@)),
            forall|p: int| 0 <= p < len ==> (#[trigger] a@[p]) as nat == column_count(doc, DnaBase::A, p, doc.len()),
            forall|p: int| 0 <= p < len ==> (#[trigger] c@[p]) as nat == column_count(doc, DnaBase::C, p, doc.len()),
            forall|p: int| 0 <= p < len ==> (#[trigger] g@[p]) as nat == column_count(doc, DnaBase::G, p, doc.len()),
            forall|p: int| 0 <= p < len ==> (#[trigger] t@[p]) as nat == column_count(doc, DnaBase::T, p, doc.len()),
            bases@ == consensus(doc).take(i as int),
        decreases len - i,
    {
        bases.push(pick(a[i], c[i], g[i], t[i]));
        i += 1;
        assert(bases@ =~= consensus(doc).take(i as int));
    }
    assert(consensus(doc).take(i as int) =~= consensus(doc));
    assert(a@ =~= profile(doc, DnaBase::A));
    assert(c@ =~= profile(doc, DnaBase::C));
    assert(g@ =~= profile(doc, DnaBase::G));
    assert(t@ =~= profile(doc, DnaBase::T));
    let mut out = Dna::new(bases).to_text();
    out.append("\nA: ");
    out.append(join(decimal_strings(a.as_slice()).as_slice(), " ").as_str());
    out.append("\nC: ");
    out.append(join(decimal_strings(c.as_slice()).as_slice(), " ").as_str());
    out.append("\nG: ");
    out.append(join(decimal_strings(g.as_slice()).as_slice(), " ").as_str());
    out.append("\nT: ");
    out.append(join(decimal_strings(t.as_slice()).as_slice(), " ").as_str());
    out
}

} // verus!
