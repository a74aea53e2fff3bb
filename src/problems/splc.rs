//! Splicing introns out of a gene and translating what is left.

use crate::utils::dna::{intron_locations_of, spliced, Dna, DnaBase};
use crate::utils::fasta::Fasta;
use crate::utils::protein::{protein_text, rna_translation, Protein};
use crate::utils::rna::{transcription, Rna};
use vstd::prelude::*;

verus! {

/// The sequences of the records after the first, which are the introns.
pub open spec fn introns_of(doc: Seq<(Seq<char>, Seq<DnaBase>)>) -> Seq<Seq<DnaBase>> {
    doc.skip(1).map_values(|p: (Seq<char>, Seq<DnaBase>)| p.1)
}

/// The protein of the first record's gene once every occurrence of the other
/// records' sequences is removed from it.
pub fn solve(input: Fasta<Dna>) -> (r: String)
    requires
        input@.len() >= 1,
        input@[0].1.len() < usize::MAX,
    ensures
        r@ == protein_text(
            rna_translation(
                transcription(
                    spliced(input@[0].1, intron_locations_of(input@[0].1, introns_of(input@))),
                ),
            ),
        ),
{
    let records = input.records();
    assert(records@[0].1@ == input@[0].1);
    let mut dna = records[0].1.duplicate();
    let mut introns: Vec<&Dna> = Vec::new();
    let mut i: usize = 1;
    while i < records.len()
        invariant
            1 <= i <= records@.len() == input@.len(),
            records@.map_values(|p: (String, Dna)| (p.0@, p.1@)) == input@,
            introns@.map_values(|d: &Dna| d@) == introns_of(input@).take(i - 1),
        decreases records.len() - i,
    {
        assert(records@[i as int].1@ == input@[i as int].1);
        assert(introns_of(input@)[i - 1] == input@[i as int].1);
        let ghost prev = introns@.map_values(|d: &Dna| d@);
        let intron = &records[i].1;
        introns.push(intron);
        assert(introns@.map_values(|d: &Dna| d@) =~= prev.push(intron@));
        assert(introns_of(input@).take(i as int) =~= introns_of(input@).take(i - 1).push(
            input@[i as int].1,
        ));
        i += 1;
    }
    assert(introns_of(input@).take(i - 1) =~= introns_of(input@));
    let locations = dna.get_intron_locations(introns.as_slice());
    dna.remove_introns_join_exons(locations.as_slice());
    Protein::from_rna(&Rna::from_dna(&dna)).to_text()
}

} // verus!
