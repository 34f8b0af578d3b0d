//! Fixed-point probabilities.
//!
//! A probability is a `u64` count of units of 10^-18, so that `ONE` units stand for
//! certainty. Sums of probabilities are exact integers, and every rounding in the
//! crate is a floor division whose remainder is assigned explicitly.

use vstd::prelude::*;
use vstd::arithmetic::div_mod::{lemma_fundamental_div_mod, lemma_div_is_ordered, lemma_div_multiples_vanish};

verus! {

/// The fixed-point representation of probability 1.
pub const ONE: u64 = 1_000_000_000_000_000_000;

/// The sum of the entries of `s`.
pub open spec fn total(s: Seq<u64>) -> int
    decreases s.len(),
{
    if s.len() == 0 {
        0
    } else {
        total(s.drop_last()) + s.last() as int
    }
}

/// The sum of the entries of a sequence of wide accumulators.
pub open spec fn wide_total(s: Seq<u128>) -> int
    decreases s.len(),
{
    if s.len() == 0 {
        0
    } else {
        wide_total(s.drop_last()) + s.last() as int
    }
}

/// `a * b / ONE`, rounded down: the product of two fixed-point probabilities.
pub open spec fn scaled(a: int, b: int) -> int {
    a * b / (ONE as int)
}

/// `num / den` as a fixed-point probability, rounded down.
pub open spec fn ratio(num: int, den: int) -> int {
    num * (ONE as int) / den
}

/// Appending an entry adds it to the sum.
pub proof fn lemma_total_push(s: Seq<u64>, x: u64)
    ensures
        total(s.push(x)) == total(s) + x,
{
    assert(s.push(x).drop_last() =~= s);
}

/// Replacing an entry changes the sum by the difference.
pub proof fn lemma_total_update(s: Seq<u64>, i: int, x: u64)
    requires
        0 <= i < s.len(),
    ensures
        total(s.update(i, x)) == total(s) - s[i] + x,
    decreases s.len(),
{
    if i == s.len() - 1 {
        assert(s.update(i, x).drop_last() =~= s.drop_last());
    } else {
        lemma_total_update(s.drop_last(), i, x);
        assert(s.update(i, x).drop_last() =~= s.drop_last().update(i, x));
    }
}

/// A sum of probabilities is never negative.
pub proof fn lemma_total_nonneg(s: Seq<u64>)
    ensures
        total(s) >= 0,
    decreases s.len(),
{
    if s.len() > 0 {
        lemma_total_nonneg(s.drop_last());
    }
}

/// No entry is more than the sum of all.
pub proof fn lemma_total_bounds(s: Seq<u64>, i: int)
    requires
        0 <= i < s.len(),
    ensures
        s[i] <= total(s),
    decreases s.len(),
{
    lemma_total_nonneg(s.drop_last());
    if i < s.len() - 1 {
        lemma_total_bounds(s.drop_last(), i);
    }
}

/// Zeros sum to zero.
pub proof fn lemma_total_zeros(s: Seq<u64>)
    requires
        forall|i: int| 0 <= i < s.len() ==> s[i] == 0,
    ensures
        total(s) == 0,
    decreases s.len(),
{
    if s.len() > 0 {
        lemma_total_zeros(s.drop_last());
    }
}

/// The sum of a prefix grows by the entry it is extended with.
pub proof fn lemma_total_take(s: Seq<u64>, i: int)
    requires
        0 <= i < s.len(),
    ensures
        total(s.take(i + 1)) == total(s.take(i)) + s[i],
        total(s.take(i)) + s[i] <= total(s),
        total(s.take(0)) == 0,
        total(s.take(s.len() as int)) == total(s),
    decreases s.len() - i,
{
    assert(s.take(i + 1).drop_last() =~= s.take(i));
    assert(s.take(s.len() as int) =~= s);
    if i + 1 < s.len() {
        lemma_total_take(s, i + 1);
        assert(s.take(i + 2).drop_last() =~= s.take(i + 1));
    }
}

/// Two distinct entries together are no more than the sum of all entries.
pub proof fn lemma_total_two(s: Seq<u64>, a: int, b: int)
    requires
        0 <= a < b < s.len(),
    ensures
        s[a] + s[b] <= total(s),
    decreases s.len(),
{
    if b == s.len() - 1 {
        lemma_total_bounds(s.drop_last(), a);
    } else {
        lemma_total_two(s.drop_last(), a, b);
    }
}

/// The empty prefix sums to nothing.
pub proof fn lemma_total_prefix_zero(s: Seq<u64>)
    ensures
        total(s.take(0)) == 0,
{
    assert(s.take(0) =~= Seq::<u64>::empty());
}

/// A sequence that is zero everywhere but at `i` sums to its entry at `i`.
pub proof fn lemma_total_single(s: Seq<u64>, i: int)
    requires
        0 <= i < s.len(),
        forall|j: int| 0 <= j < s.len() && j != i ==> s[j] == 0,
    ensures
        total(s) == s[i],
    decreases s.len(),
{
    if i == s.len() - 1 {
        lemma_total_zeros(s.drop_last());
    } else {
        lemma_total_single(s.drop_last(), i);
    }
}

/// Replacing an accumulator changes the sum by the difference.
pub proof fn lemma_wide_total_update(s: Seq<u128>, i: int, x: u128)
    requires
        0 <= i < s.len(),
    ensures
        wide_total(s.update(i, x)) == wide_total(s) - s[i] + x,
    decreases s.len(),
{
    if i == s.len() - 1 {
        assert(s.update(i, x).drop_last() =~= s.drop_last());
    } else {
        lemma_wide_total_update(s.drop_last(), i, x);
        assert(s.update(i, x).drop_last() =~= s.drop_last().update(i, x));
    }
}

/// A sum of accumulators is never negative.
pub proof fn lemma_wide_total_nonneg(s: Seq<u128>)
    ensures
        wide_total(s) >= 0,
    decreases s.len(),
{
    if s.len() > 0 {
        lemma_wide_total_nonneg(s.drop_last());
    }
}

/// No accumulator is more than the sum of all.
pub proof fn lemma_wide_total_bounds(s: Seq<u128>, i: int)
    requires
        0 <= i < s.len(),
    ensures
        s[i] <= wide_total(s),
    decreases s.len(),
{
    lemma_wide_total_nonneg(s.drop_last());
    if i < s.len() - 1 {
        lemma_wide_total_bounds(s.drop_last(), i);
    }
}

/// The empty prefix of accumulators sums to nothing.
pub proof fn lemma_wide_total_prefix_zero(s: Seq<u128>)
    ensures
        wide_total(s.take(0)) == 0,
{
    assert(s.take(0) =~= Seq::<u128>::empty());
}

/// The sum of a prefix of accumulators grows by the one it is extended with.
pub proof fn lemma_wide_total_take(s: Seq<u128>, i: int)
    requires
        0 <= i < s.len(),
    ensures
        wide_total(s.take(i + 1)) == wide_total(s.take(i)) + s[i],
        wide_total(s.take(0)) == 0,
        wide_total(s.take(s.len() as int)) == wide_total(s),
{
    assert(s.take(i + 1).drop_last() =~= s.take(i));
    assert(s.take(s.len() as int) =~= s);
}

/// Zeroed accumulators sum to zero.
pub proof fn lemma_wide_total_zeros(s: Seq<u128>)
    requires
        forall|i: int| 0 <= i < s.len() ==> s[i] == 0,
    ensures
        wide_total(s) == 0,
    decreases s.len(),
{
    if s.len() > 0 {
        lemma_wide_total_zeros(s.drop_last());
    }
}

/// A scaled product is no larger than either factor's share of certainty allows.
pub proof fn lemma_scaled_bounds(a: int, b: int)
    requires
        0 <= a,
        0 <= b <= ONE,
    ensures
        0 <= scaled(a, b) <= a,
        scaled(a, b) * ONE <= a * b,
        b == ONE ==> scaled(a, b) == a,
        b == 0 ==> scaled(a, b) == 0,
        a == 0 ==> scaled(a, b) == 0,
{
    let one = ONE as int;
    assert(0 <= a * b <= a * one) by (nonlinear_arith)
        requires
            0 <= a,
            0 <= b <= one,
    ;
    lemma_fundamental_div_mod(a * b, one);
    lemma_div_is_ordered(a * b, a * one, one);
    lemma_div_multiples_vanish(a, one);
    assert(a * one / one == a) by {
        assert(a * one == one * a) by (nonlinear_arith);
    }
    assert(0 <= (a * b) / one) by (nonlinear_arith)
        requires
            0 <= a * b,
            one > 0,
    ;
    assert(((a * b) / one) * one <= a * b) by (nonlinear_arith)
        requires
            a * b == one * ((a * b) / one) + (a * b) % one,
            0 <= (a * b) % one,
    ;
    if b == 0 {
        assert(a * b == 0) by (nonlinear_arith)
            requires
                b == 0,
        ;
    }
    if a == 0 {
        assert(a * b == 0) by (nonlinear_arith)
            requires
                a == 0,
        ;
    }
}

/// The fixed-point product of two probabilities, rounded down.
pub fn mul_floor(a: u64, b: u64) -> (p: u64)
    requires
        b <= ONE,
    ensures
        p == scaled(a as int, b as int),
        p <= a,
{
    proof {
        lemma_scaled_bounds(a as int, b as int);
        assert((a as int) * (b as int) < 0x1_0000_0000_0000_0000 * 0x1_0000_0000_0000_0000)
            by (nonlinear_arith)
            requires
                0 <= a < 0x1_0000_0000_0000_0000,
                0 <= b < 0x1_0000_0000_0000_0000,
        ;
    }
    let wide: u128 = (a as u128) * (b as u128);
    let q: u128 = wide / (ONE as u128);
    q as u64
}

} // verus!
