//! Finding a motif in a DNA string.

use crate::utils::dna::{dna_of_text, is_dna_text, substring_locations_of, Dna};
use crate::utils::fasta::{lines, split_lines};
use crate::utils::text::{chars_of, decimal_strings, decimals, join, joined};
use vstd::prelude::*;

verus! {

/// The 1-based starts of the second line's DNA in the first line's, joined by spaces.
pub fn solve(input: &str) -> (r: String)
    requires
        lines(input@).len() >= 2,
        is_dna_text(lines(input@)[0]),
        is_dna_text(lines(input@)[1]),
    ensures
        r@ == joined(
            decimals(
                substring_locations_of(dna_of_text(lines(input@)[0]), dna_of_text(lines(input@)[1])),
            ),
            " "@,
        ),
{
    let chars = chars_of(input);
    let ls = split_lines(chars.as_slice());
    assert(ls@[0]@ == lines(input@)[0] && ls@[1]@ == lines(input@)[1]);
    let first = Dna::parse_chars(ls[0].as_slice());
    let second = Dna::parse_chars(ls[1].as_slice());
    match (first, second) {
        (Ok(a), Ok(b)) => {
            let locations = a.substring_locations(&b);
            let parts = decimal_strings(locations.as_slice());
            join(parts.as_slice(), " ")
        },
        _ => String::new(),
    }
}

} // verus!
