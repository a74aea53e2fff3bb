//! Counting the RNA strings that could encode a protein.

use crate::utils::protein::{is_protein_text, mrna_count_before, protein_of_text, Protein};
use crate::utils::text::{decimal, decimal_string};
use vstd::prelude::*;

verus! {

/// The modulus the count is reduced by.
pub const MODULUS: u32 = 1000000;

/// The number of RNA strings that could encode the protein text, its stop codon
/// included, modulo one million.
pub fn solve(input: &str) -> (r: String)
    requires
        is_protein_text(input@),
    ensures
        r@ == decimal(
            mrna_count_before(
                protein_of_text(input@),
                MODULUS as nat,
                protein_of_text(input@).len(),
            ),
        ),
{
    match Protein::parse(input) {
        Ok(protein) => decimal_string(protein.calculate_potential_mrna_count(MODULUS) as u64),
        Err(_) => String::new(),
    }
}

} // verus!
