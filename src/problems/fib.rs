//! Rabbits and recurrence relations: each adult pair has a litter of `k` pairs a month.

use crate::utils::text::{decimal, decimal_string, leading_numbers, parse_numbers};
use vstd::prelude::*;

verus! {

/// (young pairs, adult pairs) after `steps` months, from one young pair, with
/// litters of `k` pairs.
pub open spec fn fib_after(steps: nat, k: nat) -> (nat, nat)
    decreases steps,
{
    if steps == 0 {
        (1, 0)
    } else {
        let (kids, adults) = fib_after((steps - 1) as nat, k);
        (adults * k, adults + kids)
    }
}

/// Every population up to `steps` months fits in a `u64`.
pub open spec fn fib_fits(steps: nat, k: nat) -> bool {
    forall|t: nat| t <= steps ==> #[trigger] fib_after(t, k).0 + fib_after(t, k).1 <= u64::MAX
}

/// Number of months simulated for the population at month `n`.
pub open spec fn months(n: nat) -> nat {
    if n >= 1 {
        (n - 1) as nat
    } else {
        0
    }
}

struct Fib {
    kids: u64,
    adults: u64,
    growth: u64,
}

impl Fib {
    fn new(growth: u64) -> (r: Fib)
        ensures
            (r.kids as nat, r.adults as nat) == fib_after(0, growth as nat),
            r.growth == growth,
    {
        Fib { kids: 1, adults: 0, growth }
    }

    fn next(&mut self, Ghost(t): Ghost<nat>)
        requires
            (old(self).kids as nat, old(self).adults as nat) == fib_after(t, old(self).growth as nat),
            fib_after(t + 1, old(self).growth as nat).0 + fib_after(t + 1, old(self).growth as nat).1
                <= u64::MAX,
        ensures
            (final(self).kids as nat, final(self).adults as nat) == fib_after(t + 1, old(self).growth as nat),
            final(self).growth == old(self).growth,
    {
        let new_kids = self.adults * self.growth;
        self.adults += self.kids;
        self.kids = new_kids;
    }

    fn total(&self) -> (r: u64)
        requires
            self.kids + self.adults <= u64::MAX,
        ensures
            r == self.kids + self.adults,
    {
        self.kids + self.adults
    }
}

/// Whether every population up to month `n` fits in a `u64`, with litters of `k`.
pub fn fits(n: u64, k: u64) -> (r: bool)
    ensures
        r == fib_fits(months(n as nat), k as nat),
{
    let steps: u64 = if n >= 1 {
        n - 1
    } else {
        0
    };
    let mut kids: u128 = 1;
    let mut adults: u128 = 0;
    let mut t: u64 = 0;
    loop
        invariant
            t <= steps,
            steps == months(n as nat),
            (kids as nat, adults as nat) == fib_after(t as nat, k as nat),
            forall|u: nat| u <= t ==> #[trigger] fib_after(u, k as nat).0 + fib_after(u, k as nat).1 <= u64::MAX,
        decreases steps - t,
    {
        assert(fib_after(t as nat, k as nat).0 + fib_after(t as nat, k as nat).1 <= u64::MAX);
        if t == steps {
            return true;
        }
        assert(adults * k <= u64::MAX * u64::MAX) by (nonlinear_arith)
            requires
                adults <= u64::MAX,
                k <= u64::MAX,
        ;
        let new_kids = adults * (k as u128);
        let new_adults = adults + kids;
        if new_kids + new_adults > u64::MAX as u128 {
            assert(!(fib_after((t + 1) as nat, k as nat).0 + fib_after((t + 1) as nat, k as nat).1 <= u64::MAX));
            return false;
        }
        kids = new_kids;
        adults = new_adults;
        t += 1;
    }
}

/// The number of rabbit pairs after `n` months, reading `n` and `k` from the text.
pub fn solve(input: &str) -> (r: String)
    requires
        leading_numbers(input@, 2, u64::MAX as nat) is Some,
        fib_fits(
            months(leading_numbers(input@, 2, u64::MAX as nat)->Some_0[0]),
            leading_numbers(input@, 2, u64::MAX as nat)->Some_0[1],
        ),
    ensures
        ({
            let v = leading_numbers(input@, 2, u64::MAX as nat)->Some_0;
            let p = fib_after(months(v[0]), v[1]);
            r@ == decimal(p.0 + p.1)
        }),
{
    let v = match parse_numbers(input, 2, u64::MAX) {
        Some(v) => v,
        None => {
            return String::new();
        },
    };
    let n = v[0];
    let k = v[1];
    let ghost steps = months(n as nat);
    let mut fib = Fib::new(k);
    let mut i: u64 = 1;
    while i < n
        invariant
            1 <= i,
            i <= n || n == 0,
            n == 0 ==> i == 1,
            fib.growth == k,
            steps == months(n as nat),
            fib_fits(steps, k as nat),
            (fib.kids as nat, fib.adults as nat) == fib_after((i - 1) as nat, k as nat),
        decreases n - i,
    {
        assert(fib_after(i as nat, k as nat).0 + fib_after(i as nat, k as nat).1 <= u64::MAX);
        fib.next(Ghost((i - 1) as nat));
        i += 1;
    }
    assert(fib_after(steps, k as nat).0 + fib_after(steps, k as nat).1 <= u64::MAX);
    decimal_string(fib.total())
}

} // verus!
