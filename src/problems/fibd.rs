//! Mortal rabbits: pairs live `m` months and breed from their second month on.

use crate::problems::fib::months;
use crate::utils::text::{decimal, decimal_string, leading_numbers, parse_numbers};
use vstd::prelude::*;

verus! {

/// The sum of a list of numbers.
pub open spec fn seq_sum(s: Seq<nat>) -> nat
    decreases s.len(),
{
    if s.len() == 0 {
        0
    } else {
        seq_sum(s.drop_last()) + s.last()
    }
}

/// Pairs by age in months, `m` ages: first one newborn pair.
pub open spec fn fibd_initial(m: nat) -> Seq<nat> {
    Seq::new(m, |i: int| if i == 0 { 1nat } else { 0nat })
}

/// One month later: every pair past its first month has a newborn pair, every pair
/// ages a month, and the oldest die.
pub open spec fn fibd_step(s: Seq<nat>) -> Seq<nat> {
    seq![seq_sum(s.skip(1))] + s.take(s.len() - 1)
}

/// Pairs by age after `steps` months.
pub open spec fn fibd_after(steps: nat, m: nat) -> Seq<nat>
    decreases steps,
{
    if steps == 0 {
        fibd_initial(m)
    } else {
        fibd_step(fibd_after((steps - 1) as nat, m))
    }
}

/// Every population up to `steps` months fits in a `u64`.
pub open spec fn fibd_fits(steps: nat, m: nat) -> bool {
    forall|t: nat| t <= steps ==> #[trigger] seq_sum(fibd_after(t, m)) <= u64::MAX
}

proof fn sum_prefix_bound(s: Seq<nat>, j: int)
    requires
        0 <= j <= s.len(),
    ensures
        seq_sum(s.take(j)) <= seq_sum(s),
    decreases s.len() - j,
{
    if j < s.len() {
        sum_prefix_bound(s, j + 1);
        assert(s.take(j + 1).drop_last() =~= s.take(j));
    } else {
        assert(s.take(j) =~= s);
    }
}

proof fn sum_front(x: nat, t: Seq<nat>)
    ensures
        seq_sum(seq![x] + t) == x + seq_sum(t),
    decreases t.len(),
{
    if t.len() > 0 {
        sum_front(x, t.drop_last());
        assert((seq![x] + t).drop_last() =~= seq![x] + t.drop_last());
        assert((seq![x] + t).last() == t.last());
        assert(seq_sum(seq![x] + t) == seq_sum(seq![x] + t.drop_last()) + t.last());
    } else {
        assert(seq![x] + t =~= seq![x]);
        assert(seq![x].drop_last() =~= Seq::<nat>::empty());
        assert(seq![x].last() == x);
        assert(seq_sum(Seq::<nat>::empty()) == 0);
        assert(seq_sum(seq![x]) == seq_sum(seq![x].drop_last()) + x);
    }
}

proof fn sum_elements_bound(s: Seq<nat>, i: int)
    requires
        0 <= i < s.len(),
    ensures
        s[i] <= seq_sum(s),
    decreases s.len(),
{
    if i < s.len() - 1 {
        sum_elements_bound(s.drop_last(), i);
    }
}

struct Fib {
    rabbits: Vec<u64>,
}

impl Fib {
    spec fn ages(&self) -> Seq<nat> {
        self.rabbits@.map_values(|x: u64| x as nat)
    }

    fn new(death: usize) -> (r: Fib)
        requires
            death >= 1,
        ensures
            r.ages() == fibd_initial(death as nat),
    {
        let mut rabbits: Vec<u64> = vec![0; death];
        rabbits[0] = 1;
        let r = Fib { rabbits };
        assert(r.ages() =~= fibd_initial(death as nat));
        r
    }

    fn next(&mut self, Ghost(t): Ghost<nat>, Ghost(m): Ghost<nat>)
        requires
            m >= 1,
            old(self).ages() == fibd_after(t, m),
            seq_sum(fibd_after(t + 1, m)) <= u64::MAX,
        ensures
            final(self).ages() == fibd_after(t + 1, m),
    {
        let ghost s = self.ages();
        assert(s.len() == m) by {
            lemma_fibd_len(t, m);
        }
        let ghost tail = s.skip(1);
        proof {
            sum_front(seq_sum(tail), s.take(s.len() - 1));
            assert(fibd_after(t + 1, m) == fibd_step(s));
        }
        let len = self.rabbits.len();
        let mut new_kids: u64 = 0;
        let mut j: usize = 1;
        while j < len
            invariant
                1 <= j <= len == self.rabbits@.len() == s.len(),
                s == self.ages(),
                tail == s.skip(1),
                seq_sum(tail) <= u64::MAX,
                new_kids as nat == seq_sum(tail.take(j - 1)),
            decreases len - j,
        {
            proof {
                assert(tail.take(j as int).drop_last() =~= tail.take(j - 1));
                sum_prefix_bound(tail, j as int);
            }
            new_kids = new_kids + self.rabbits[j];
            j += 1;
        }
        assert(tail.take(j - 1) =~= tail);
        let mut new_rabbits: Vec<u64> = Vec::new();
        new_rabbits.push(new_kids);
        let mut k: usize = 0;
        while k < len - 1
            invariant
                k <= len - 1,
                len == self.rabbits@.len() == s.len(),
                s == self.ages(),
                new_rabbits@.map_values(|x: u64| x as nat) == seq![seq_sum(tail)] + s.take(k as int),
            decreases len - 1 - k,
        {
            let ghost prev = new_rabbits@.map_values(|x: u64| x as nat);
            assert(s[k as int] == self.rabbits@[k as int] as nat);
            new_rabbits.push(self.rabbits[k]);
            assert(new_rabbits@.map_values(|x: u64| x as nat) =~= prev.push(s[k as int]));
            k += 1;
            assert(seq![seq_sum(tail)] + s.take(k as int) =~= (seq![seq_sum(tail)] + s.take(k - 1)).push(
                s[k - 1],
            ));
        }
        self.rabbits = new_rabbits;
    }

    fn total(&self) -> (r: u64)
        requires
            seq_sum(self.ages()) <= u64::MAX,
        ensures
            r == seq_sum(self.ages()),
    {
        let ghost s = self.ages();
        let mut sum: u64 = 0;
        let mut j: usize = 0;
        while j < self.rabbits.len()
            invariant
                j <= self.rabbits@.len() == s.len(),
                s == self.ages(),
                seq_sum(s) <= u64::MAX,
                sum as nat == seq_sum(s.take(j as int)),
            decreases self.rabbits.len() - j,
        {
            proof {
                assert(s.take(j + 1).drop_last() =~= s.take(j as int));
                sum_prefix_bound(s, j + 1);
            }
            sum = sum + self.rabbits[j];
            j += 1;
        }
        assert(s.take(j as int) =~= s);
        sum
    }
}

proof fn lemma_fibd_len(t: nat, m: nat)
    requires
        m >= 1,
    ensures
        fibd_after(t, m).len() == m,
    decreases t,
{
    if t > 0 {
        lemma_fibd_len((t - 1) as nat, m);
    }
}

/// The sum of `v[from..to]`.
fn range_sum(v: &Vec<u64>, from: usize, to: usize) -> (r: u128)
    requires
        from <= to <= v@.len(),
    ensures
        r as nat == seq_sum(v@.map_values(|x: u64| x as nat).subrange(from as int, to as int)),
{
    let ghost s = v@.map_values(|x: u64| x as nat);
    let mut acc: u128 = 0;
    let mut j: usize = from;
    while j < to
        invariant
            from <= j <= to <= v@.len(),
            s == v@.map_values(|x: u64| x as nat),
            acc as nat == seq_sum(s.subrange(from as int, j as int)),
            acc <= (j - from) * (u64::MAX as int),
        decreases to - j,
    {
        assert(s.subrange(from as int, j + 1).drop_last() =~= s.subrange(from as int, j as int));
        assert((j - from) * (u64::MAX as int) + u64::MAX == (j + 1 - from) * (u64::MAX as int)) by (nonlinear_arith);
        assert((j + 1 - from) * (u64::MAX as int) <= (u64::MAX as int) * (u64::MAX as int)) by (nonlinear_arith)
            requires
                j + 1 - from <= u64::MAX,
        ;
        acc = acc + v[j] as u128;
        j += 1;
    }
    acc
}

/// Whether every population up to month `n` fits in a `u64` when pairs live `m` months.
pub fn fits(n: u64, m: usize) -> (r: bool)
    requires
        m >= 1,
    ensures
        r == fibd_fits(months(n as nat), m as nat),
{
    let steps: u64 = if n >= 1 {
        n - 1
    } else {
        0
    };
    let mut fib = Fib::new(m);
    let mut t: u64 = 0;
    proof {
        assert(fibd_initial(m as nat) =~= seq![1nat] + Seq::new((m - 1) as nat, |i: int| 0nat));
        sum_front(1, Seq::new((m - 1) as nat, |i: int| 0nat));
        sum_zero((m - 1) as nat);
    }
    loop
        invariant
            t <= steps,
            m >= 1,
            steps == months(n as nat),
            fib.ages() == fibd_after(t as nat, m as nat),
            forall|u: nat| u <= t ==> #[trigger] seq_sum(fibd_after(u, m as nat)) <= u64::MAX,
        decreases steps - t,
    {
        if t == steps {
            return true;
        }
        let ghost s = fib.ages();
        proof {
            lemma_fibd_len(t as nat, m as nat);
        }
        let len = fib.rabbits.len();
        let kids = range_sum(&fib.rabbits, 1, len);
        let rest = range_sum(&fib.rabbits, 0, len - 1);
        proof {
            assert(s.subrange(1, len as int) =~= s.skip(1));
            assert(s.subrange(0, len - 1) =~= s.take(len - 1));
            sum_front(seq_sum(s.skip(1)), s.take(len - 1));
            assert(fibd_after((t + 1) as nat, m as nat) == fibd_step(s));
            assert(seq_sum(fibd_after(t as nat, m as nat)) <= u64::MAX);
            assert(s =~= seq![s[0]] + s.skip(1));
            sum_front(s[0], s.skip(1));
            sum_prefix_bound(s, len - 1);
        }
        if kids + rest > u64::MAX as u128 {
            assert(!(seq_sum(fibd_after((t + 1) as nat, m as nat)) <= u64::MAX));
            return false;
        }
        fib.next(Ghost(t as nat), Ghost(m as nat));
        t += 1;
    }
}

proof fn sum_zero(k: nat)
    ensures
        seq_sum(Seq::new(k, |i: int| 0nat)) == 0,
    decreases k,
{
    if k > 0 {
        sum_zero((k - 1) as nat);
        assert(Seq::new(k, |i: int| 0nat).drop_last() =~= Seq::new((k - 1) as nat, |i: int| 0nat));
    }
}

/// The number of living rabbit pairs after `n` months when pairs live `m` months,
/// reading `n` and `m` from the text.
pub fn solve(input: &str) -> (r: String)
    requires
        leading_numbers(input@, 2, usize::MAX as nat) is Some,
        leading_numbers(input@, 2, usize::MAX as nat)->Some_0[1] >= 1,
        fibd_fits(
            months(leading_numbers(input@, 2, usize::MAX as nat)->Some_0[0]),
            leading_numbers(input@, 2, usize::MAX as nat)->Some_0[1],
        ),
    ensures
        ({
            let v = leading_numbers(input@, 2, usize::MAX as nat)->Some_0;
            r@ == decimal(seq_sum(fibd_after(months(v[0]), v[1])))
        }),
{
    let v = match parse_numbers(input, 2, usize::MAX as u64) {
        Some(v) => v,
        None => {
            return String::new();
        },
    };
    let n = v[0];
    let m = v[1] as usize;
    let ghost steps = months(n as nat);
    let mut fib = Fib::new(m);
    let mut i: u64 = 1;
    while i < n
        invariant
            1 <= i,
            i <= n || n == 0,
            n == 0 ==> i == 1,
            m >= 1,
            steps == months(n as nat),
            fibd_fits(steps, m as nat),
            fib.ages() == fibd_after((i - 1) as nat, m as nat),
        decreases n - i,
    {
        assert(seq_sum(fibd_after(i as nat, m as nat)) <= u64::MAX);
        fib.next(Ghost((i - 1) as nat), Ghost(m as nat));
        i += 1;
    }
    assert(seq_sum(fibd_after(steps, m as nat)) <= u64::MAX);
    decimal_string(fib.total())
}

} // verus!
