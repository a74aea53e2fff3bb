//! The expected number of offspring with the dominant phenotype.

use crate::utils::text::{decimal, leading_numbers, parse_numbers, push_decimal};
use vstd::prelude::*;

verus! {

/// Twice the expected number of dominant offspring, two per couple, for couples of
/// genotypes AA-AA, AA-Aa, AA-aa, Aa-Aa and Aa-aa.
pub open spec fn doubled_expectation(v: Seq<nat>) -> nat {
    4 * (v[0] + v[1] + v[2]) + 3 * v[3] + 2 * v[4]
}

/// A number given twice over, as decimal text: a whole number, or one ending in `.5`.
pub open spec fn half_text(e: nat) -> Seq<char> {
    if e % 2 == 0 {
        decimal(e / 2)
    } else {
        decimal(e / 2) + ".5"@
    }
}

/// The expected number of offspring with the dominant phenotype, reading the
/// numbers of couples of each genotype pairing.
pub fn solve(input: &str) -> (r: String)
    requires
        leading_numbers(input@, 5, u32::MAX as nat) is Some,
        ({
            let v = leading_numbers(input@, 5, u32::MAX as nat)->Some_0;
            2 * (v[0] + v[1] + v[2]) <= u32::MAX
        }),
    ensures
        r@ == half_text(doubled_expectation(leading_numbers(input@, 5, u32::MAX as nat)->Some_0)),
{
    let v = match parse_numbers(input, 5, u32::MAX as u64) {
        Some(v) => v,
        None => {
            return String::new();
        },
    };
    let ghost sv = leading_numbers(input@, 5, u32::MAX as nat)->Some_0;
    assert(v[0] + v[1] + v[2] <= u32::MAX);
    let doubled: u64 = 4 * (v[0] + v[1] + v[2]) + 3 * v[3] + 2 * v[4];
    assert(doubled == doubled_expectation(sv));
    let mut out = String::new();
    push_decimal(&mut out, doubled / 2);
    if doubled % 2 == 1 {
        out.append(".5");
    }
    out
}

} // verus!
