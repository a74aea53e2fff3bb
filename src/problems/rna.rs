//! Transcribing DNA into RNA.

use crate::utils::dna::{dna_of_text, is_dna_text, Dna};
use crate::utils::rna::{rna_text, transcription, Rna};
use vstd::prelude::*;

verus! {

/// The RNA text that DNA text transcribes to.
pub fn solve(input: &str) -> (r: String)
    requires
        is_dna_text(input@),
    ensures
        r@ == rna_text(transcription(dna_of_text(input@))),
{
    match Dna::parse(input) {
        Ok(dna) => Rna::from_dna(&dna).to_text(),
        Err(_) => String::new(),
    }
}

} // verus!
