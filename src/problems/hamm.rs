//! The Hamming distance of two DNA strings.

use crate::utils::dna::{dna_of_text, hamming, is_dna_text, Dna};
use crate::utils::fasta::{lines, split_lines};
use crate::utils::text::{chars_of, decimal, decimal_string};
use vstd::prelude::*;

verus! {

/// The Hamming distance of the DNA strings on the first two lines.
pub fn solve(input: &str) -> (r: String)
    requires
        lines(input@).len() >= 2,
        is_dna_text(lines(input@)[0]),
        is_dna_text(lines(input@)[1]),
        lines(input@)[0].len() == lines(input@)[1].len() <= u32::MAX,
    ensures
        r@ == decimal(hamming(dna_of_text(lines(input@)[0]), dna_of_text(lines(input@)[1]))),
{
    let chars = chars_of(input);
    let ls = split_lines(chars.as_slice());
    assert(ls@[0]@ == lines(input@)[0] && ls@[1]@ == lines(input@)[1]);
    let first = Dna::parse_chars(ls[0].as_slice());
    let second = Dna::parse_chars(ls[1].as_slice());
    match (first, second) {
        (Ok(a), Ok(b)) => match a.hamming_distance(&b) {
            Ok(d) => decimal_string(d as u64),
            Err(_) => String::new(),
        },
        _ => String::new(),
    }
}

} // verus!
