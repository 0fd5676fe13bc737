//! Integer sums, sums of squares and exact fractions.
use vstd::prelude::*;

verus! {

/// An exact rational value `num / den`.
#[derive(Clone, Copy, Debug, PartialEq, Eq, Structural)]
pub struct Fraction {
    pub num: i128,
    pub den: u128,
}

/// The sum of a sequence of integers.
pub open spec fn sum(s: Seq<int>) -> int
    decreases s.len(),
{
    if s.len() == 0 {
        0
    } else {
        sum(s.drop_last()) + s.last()
    }
}

/// The sum of the squares of a sequence of integers.
pub open spec fn sum_sq(s: Seq<int>) -> int
    decreases s.len(),
{
    if s.len() == 0 {
        0
    } else {
        sum_sq(s.drop_last()) + s.last() * s.last()
    }
}

/// `n * sum(x^2) - sum(x)^2`: `n^2` times the population variance.
pub open spec fn spread(s: Seq<int>) -> int {
    s.len() * sum_sq(s) - sum(s) * sum(s)
}

/// Readings widened to mathematical integers.
pub open spec fn ints(s: Seq<i32>) -> Seq<int> {
    s.map_values(|x: i32| x as int)
}

proof fn lemma_spread_step(k: int, q: int, t: int, y: int, prev: int, next: int)
    by (nonlinear_arith)
    requires
        k >= 0,
        prev == k * q - t * t,
        prev >= 0,
        k == 0 ==> q == 0,
        next == (k + 1) * (q + y * y) - (t + y) * (t + y),
    ensures
        next >= 0,
{
    let step = q - 2 * y * t + k * y * y;
    assert(next == prev + step);
    if k > 0 {
        assert(k * step == prev + (t - k * y) * (t - k * y));
        assert(k * step >= 0);
    } else {
        assert(t * t <= 0);
        assert(t == 0);
    }
}

/// The spread of any sequence is non-negative (Cauchy-Schwarz for sums).
pub proof fn lemma_spread_nonneg(s: Seq<int>)
    ensures
        spread(s) >= 0,
    decreases s.len(),
{
    if s.len() > 0 {
        let p = s.drop_last();
        lemma_spread_nonneg(p);
        lemma_spread_step(p.len() as int, sum_sq(p), sum(p), s.last(), spread(p), spread(s));
    }
}

/// Extending a prefix by one element adds that element to both sums.
pub proof fn lemma_sums_take(s: Seq<int>, i: int)
    requires
        0 <= i < s.len(),
    ensures
        sum(s.take(i + 1)) == sum(s.take(i)) + s[i],
        sum_sq(s.take(i + 1)) == sum_sq(s.take(i)) + s[i] * s[i],
{
    assert(s.take(i + 1).drop_last() =~= s.take(i));
}

/// Extending a window by one element adds that element to its sum.
pub proof fn lemma_sum_subrange(s: Seq<int>, a: int, j: int)
    requires
        0 <= a <= j < s.len(),
    ensures
        sum(s.subrange(a, j + 1)) == sum(s.subrange(a, j)) + s[j],
{
    assert(s.subrange(a, j + 1).drop_last() =~= s.subrange(a, j));
}

} // verus!
