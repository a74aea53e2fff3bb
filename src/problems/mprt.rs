//! Locating the N-glycosylation motif in proteins fetched by accession.

use crate::utils::fasta::{push_trimmed, string_of, trimmed, Fasta};
use crate::utils::protein::{compiled_motif, motif_locations_of, residues_of, AminoAcid, MatchSpec, Protein, ProteinMotif};
use crate::utils::text::{chars_of, decimal_strings, decimals, join, joined};
use vstd::prelude::*;

verus! {

/// The pattern of the N-glycosylation motif.
pub open spec fn glycosylation_pattern() -> Seq<char> {
    "N{P}[ST]{P}"@
}

/// The report for one protein: its accession, then the motif's locations, each on a
/// line; nothing when the motif does not occur.
pub open spec fn protein_report(id: Seq<char>, p: Seq<AminoAcid>, m: Seq<MatchSpec>) -> Seq<char> {
    let locs = motif_locations_of(m, residues_of(p));
    if locs.len() > 0 {
        id + "\n"@ + joined(decimals(locs), " "@) + "\n"@
    } else {
        seq![]
    }
}

/// The reports for the first `k` records fetched for one accession.
pub open spec fn entry_report(
    id: Seq<char>,
    doc: Seq<(Seq<char>, Seq<AminoAcid>)>,
    m: Seq<MatchSpec>,
    k: nat,
) -> Seq<char>
    decreases k,
{
    if k == 0 {
        seq![]
    } else {
        entry_report(id, doc, m, (k - 1) as nat) + protein_report(id, doc[k - 1].1, m)
    }
}

/// The reports for the first `n` accessions.
pub open spec fn full_report(
    entries: Seq<(Seq<char>, Seq<(Seq<char>, Seq<AminoAcid>)>)>,
    m: Seq<MatchSpec>,
    n: nat,
) -> Seq<char>
    decreases n,
{
    if n == 0 {
        seq![]
    } else {
        full_report(entries, m, (n - 1) as nat) + entry_report(
            entries[n - 1].0,
            entries[n - 1].1,
            m,
            entries[n - 1].1.len(),
        )
    }
}

/// The accessions with the documents fetched for them, as values.
pub open spec fn entries_view(entries: Seq<(String, Fasta<Protein>)>) -> Seq<(Seq<char>, Seq<(Seq<char>, Seq<AminoAcid>)>)> {
    entries.map_values(|e: (String, Fasta<Protein>)| (e.0@, e.1@))
}

/// Appends the characters of `s`.
fn push_all(out: &mut Vec<char>, s: &str)
    ensures
        final(out)@ == old(out)@ + s@,
{
    let chars = chars_of(s);
    let mut i: usize = 0;
    while i < chars.len()
        invariant
            i <= chars.len(),
            chars@ == s@,
            out@ == old(out)@ + chars@.take(i as int),
        decreases chars.len() - i,
    {
        out.push(chars[i]);
        i += 1;
        assert(out@ =~= old(out)@ + chars@.take(i as int));
    }
    assert(chars@.take(i as int) =~= chars@);
}

/// For each accession and each protein fetched for it, in order, the accession and
/// the 1-based locations of the N-glycosylation motif, on two lines, for proteins
/// where it occurs; white space at either end is trimmed.
pub fn solve(entries: &[(String, Fasta<Protein>)]) -> (r: String)
    ensures
        r@ == trimmed(
            full_report(entries_view(entries@), compiled_motif(glycosylation_pattern()), entries@.len()),
        ),
{
    let motif = ProteinMotif::new("N{P}[ST]{P}");
    let ghost m = compiled_motif(glycosylation_pattern());
    let ghost ev = entries_view(entries@);
    let mut out: Vec<char> = Vec::new();
    let mut e: usize = 0;
    while e < entries.len()
        invariant
            e <= entries@.len() == ev.len(),
            ev == entries_view(entries@),
            motif@ == m,
            out@ == full_report(ev, m, e as nat),
        decreases entries.len() - e,
    {
        let (id, fasta) = &entries[e];
        assert(ev[e as int] == (id@, fasta@));
        let records = fasta.records();
        let mut k: usize = 0;
        let ghost base = out@;
        while k < records.len()
            invariant
                k <= records@.len() == fasta@.len(),
                records@.map_values(|p: (String, Protein)| (p.0@, p.1@)) == fasta@,
                motif@ == m,
                out@ == base + entry_report(id@, fasta@, m, k as nat),
            decreases records.len() - k,
        {
            assert(records@[k as int].1@ == fasta@[k as int].1);
            let locations = records[k].1.find_motif_locations(&motif);
            let ghost before = out@;
            proof {
                reveal_strlit("\n");
                assert(entry_report(id@, fasta@, m, (k + 1) as nat) == entry_report(id@, fasta@, m, k as nat)
                    + protein_report(id@, fasta@[k as int].1, m));
            }
            if locations.len() > 0 {
                push_all(&mut out, id.as_str());
                out.push('\n');
                let parts = decimal_strings(locations.as_slice());
                let line = join(parts.as_slice(), " ");
                push_all(&mut out, line.as_str());
                out.push('\n');
                assert(out@ =~= before + (id@ + "\n"@ + joined(decimals(locations@), " "@) + "\n"@));
            }
            k += 1;
            assert(out@ =~= base + entry_report(id@, fasta@, m, k as nat));
        }
        e += 1;
        assert(out@ =~= full_report(ev, m, e as nat));
    }
    let mut trimmed_out: Vec<char> = Vec::new();
    push_trimmed(&mut trimmed_out, out.as_slice());
    assert(trimmed_out@ =~= trimmed(out@));
    string_of(trimmed_out.as_slice())
}

} // verus!
