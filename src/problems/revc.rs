//! The reverse complement of a DNA string.

use crate::utils::dna::{dna_of_text, dna_text, is_dna_text, reverse_complement_of, Dna};
use vstd::prelude::*;

verus! {

/// The text of the reverse complement of DNA text.
pub fn solve(input: &str) -> (r: String)
    requires
        is_dna_text(input@),
    ensures
        r@ == dna_text(reverse_complement_of(dna_of_text(input@))),
{
    match Dna::parse(input) {
        Ok(mut dna) => {
            dna.reverse_complement();
            dna.to_text()
        },
        Err(_) => String::new(),
    }
}

} // verus!
