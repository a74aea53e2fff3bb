//! Translating RNA into protein.

use crate::utils::protein::{protein_text, rna_translation, Protein};
use crate::utils::rna::{is_rna_text, rna_of_text, Rna};
use vstd::prelude::*;

verus! {

/// The protein text that RNA text translates to.
pub fn solve(input: &str) -> (r: String)
    requires
        is_rna_text(input@),
    ensures
        r@ == protein_text(rna_translation(rna_of_text(input@))),
{
    match Rna::parse(input) {
        Ok(rna) => Protein::from_rna(&rna).to_text(),
        Err(_) => String::new(),
    }
}

} // verus!
