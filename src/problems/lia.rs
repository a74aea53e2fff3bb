//! The product of the two numbers given for the independent-alleles puzzle.

use crate::utils::text::{decimal, decimal_string, leading_numbers, parse_numbers};
use vstd::prelude::*;

verus! {

/// The product of the first two numbers of the text.
pub fn solve(input: &str) -> (r: String)
    requires
        leading_numbers(input@, 2, u32::MAX as nat) is Some,
        leading_numbers(input@, 2, u32::MAX as nat)->Some_0[0] * leading_numbers(
            input@,
            2,
            u32::MAX as nat,
        )->Some_0[1] <= u32::MAX,
    ensures
        ({
            let v = leading_numbers(input@, 2, u32::MAX as nat)->Some_0;
            r@ == decimal(v[0] * v[1])
        }),
{
    let v = match parse_numbers(input, 2, u32::MAX as u64) {
        Some(v) => v,
        None => {
            return String::new();
        },
    };
    let k = v[0] as u32;
    let n = v[1] as u32;
    decimal_string((k * n) as u64)
}

} // verus!
