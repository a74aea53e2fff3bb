//! Counting the nucleotides of a DNA string.

use crate::utils::dna::{base_count, dna_of_text, is_dna_text, Dna, DnaBase};
use crate::utils::text::{decimal, push_decimal};
use vstd::prelude::*;

verus! {

/// The counts of `A`, `C`, `G` and `T` in DNA text, separated by spaces.
pub fn solve(input: &str) -> (r: String)
    requires
        is_dna_text(input@),
    ensures
        ({
            let s = dna_of_text(input@);
            r@ == decimal(base_count(s, DnaBase::A)) + " "@ + decimal(base_count(s, DnaBase::C))
                + " "@ + decimal(base_count(s, DnaBase::G)) + " "@ + decimal(
                base_count(s, DnaBase::T),
            )
        }),
{
    let dna = match Dna::parse(input) {
        Ok(d) => d,
        Err(_) => {
            return String::new();
        },
    };
    let mut out = String::new();
    push_decimal(&mut out, dna.count(DnaBase::A) as u64);
    out.append(" ");
    push_decimal(&mut out, dna.count(DnaBase::C) as u64);
    out.append(" ");
    push_decimal(&mut out, dna.count(DnaBase::G) as u64);
    out.append(" ");
    push_decimal(&mut out, dna.count(DnaBase::T) as u64);
    out
}

} // verus!
