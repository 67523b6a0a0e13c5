//! Rounding up to a power of two.
//!
//! Capacities grow to powers of two so that repeated small appends cost an
//! amortised constant amount of copying.

use vstd::prelude::*;

verus! {

/// `n` is one of 1, 2, 4, 8, ...
pub open spec fn is_power_of_two(n: nat) -> bool
    decreases n,
{
    n == 1 || (n > 1 && n % 2 == 0 && is_power_of_two(n / 2))
}

/// The smallest power of two that is at least `n`; 1 for `n == 0`.
///
/// That this recursive definition indeed yields the smallest such power is
/// [`lemma_next_power_of_two_is_power`], [`lemma_next_power_of_two_bounds`]
/// and [`lemma_next_power_of_two_is_least`].
pub open spec fn next_power_of_two(n: nat) -> nat
    decreases n,
{
    if n <= 1 {
        1
    } else {
        2 * next_power_of_two((n + 1) / 2)
    }
}

/// The rounded value is a power of two.
pub proof fn lemma_next_power_of_two_is_power(n: nat)
    ensures
        is_power_of_two(next_power_of_two(n)),
    decreases n,
{
    if n > 1 {
        let half = next_power_of_two((n + 1) / 2);
        lemma_next_power_of_two_is_power((n + 1) / 2);
        lemma_next_power_of_two_bounds((n + 1) / 2);
        assert((2 * half) / 2 == half);
    }
}

/// Rounding never goes down, and never reaches twice the argument.
pub proof fn lemma_next_power_of_two_bounds(n: nat)
    ensures
        n <= next_power_of_two(n),
        1 <= next_power_of_two(n),
        n >= 1 ==> next_power_of_two(n) < 2 * n,
    decreases n,
{
    if n > 1 {
        lemma_next_power_of_two_bounds((n + 1) / 2);
    }
}

/// No power of two lies between `n` and its rounded value.
pub proof fn lemma_next_power_of_two_is_least(n: nat, q: nat)
    requires
        is_power_of_two(q),
        n <= q,
    ensures
        next_power_of_two(n) <= q,
    decreases n,
{
    if n > 1 {
        lemma_next_power_of_two_is_least((n + 1) / 2, q / 2);
    }
}

/// Rounds `n` up to a power of two, provided the result does not exceed
/// `limit`.
pub fn next_power_of_two_within(n: usize, limit: usize) -> (r: Option<usize>)
    ensures
        next_power_of_two(n as nat) <= limit ==> r == Some(next_power_of_two(n as nat) as usize),
        next_power_of_two(n as nat) > limit ==> r.is_none(),
{
    proof {
        lemma_next_power_of_two_bounds(n as nat);
    }
    if limit == 0 {
        return None;
    }
    let mut p: usize = 1;
    let mut m: usize = n;
    while m > 1
        invariant
            1 <= p <= limit,
            next_power_of_two(n as nat) == p * next_power_of_two(m as nat),
        decreases m,
    {
        let half: usize = m / 2 + m % 2;
        proof {
            let rest = next_power_of_two(half as nat);
            lemma_next_power_of_two_bounds(half as nat);
            assert(half as nat == (m as nat + 1) / 2);
            assert(next_power_of_two(m as nat) == 2 * rest);
            assert(p * (2 * rest) == (2 * p) * rest) by (nonlinear_arith);
            assert((2 * p) * rest >= 2 * p) by (nonlinear_arith)
                requires
                    rest >= 1,
            ;
        }
        if p > limit / 2 {
            return None;
        }
        p = 2 * p;
        m = half;
    }
    assert(p * 1 == p);
    Some(p)
}

} // verus!
