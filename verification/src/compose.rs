//! Sequential composition of kill-time series: the time to kill one target and then
//! another is the convolution of the two death-time mass functions.

use vstd::prelude::*;
use vstd::arithmetic::div_mod::lemma_fundamental_div_mod;
use crate::error::EngineError;
use crate::prob::{
    ONE, total, wide_total, lemma_total_push, lemma_total_take, lemma_total_nonneg,
    lemma_wide_total_update, lemma_wide_total_zeros, lemma_wide_total_bounds,
    lemma_wide_total_take, lemma_total_prefix_zero, lemma_wide_total_prefix_zero,
};
use crate::series::is_cumulative;

verus! {

/// The mass function of a cumulative series: its first differences, the first entry
/// taken as it stands.
pub open spec fn differences(cdf: Seq<u64>) -> Seq<u64> {
    Seq::new(cdf.len(), |k: int| (cdf[k] - if k == 0 {
        0
    } else {
        cdf[k - 1] as int
    }) as u64)
}

/// The cumulative series of a mass function: its prefix sums.
pub open spec fn prefix_sums(pmf: Seq<u64>) -> Seq<u64> {
    Seq::new(pmf.len(), |k: int| total(pmf.take(k + 1)) as u64)
}

/// The term that entry `i` of `a` contributes to entry `k` of the convolution.
pub open spec fn product_at(a: Seq<u64>, b: Seq<u64>, i: int, k: int) -> int {
    if 0 <= k - i < b.len() {
        a[i] * b[k - i]
    } else {
        0
    }
}

/// The sum of `a[i] * b[k - i]` over the `i` below `upto`.
pub open spec fn convolution_sum(a: Seq<u64>, b: Seq<u64>, k: int, upto: int) -> int
    decreases upto,
{
    if upto <= 0 {
        0
    } else {
        convolution_sum(a, b, k, upto - 1) + product_at(a, b, upto - 1, k)
    }
}

/// The length of a convolution: one less than the two lengths together.
pub open spec fn convolved_len(a: Seq<u64>, b: Seq<u64>) -> nat {
    if a.len() + b.len() >= 1 {
        (a.len() + b.len() - 1) as nat
    } else {
        0
    }
}

/// The convolution of two mass functions, each entry rounded down to a fixed-point
/// probability.
pub open spec fn convolved(a: Seq<u64>, b: Seq<u64>) -> Seq<u64> {
    Seq::new(
        convolved_len(a, b),
        |k: int| (convolution_sum(a, b, k, a.len() as int) / (ONE as int)) as u64,
    )
}

/// The series of killing first the target of `first` and then the target of `second`.
pub open spec fn composed(first: Seq<u64>, second: Seq<u64>) -> Seq<u64> {
    prefix_sums(convolved(differences(first), differences(second)))
}

/// A series whose neighbours are in order, and whose last entry is no more than
/// certainty, is cumulative.
proof fn lemma_cumulative_from_steps(series: Seq<u64>)
    requires
        forall|k: int| 1 <= k < series.len() ==> series[k - 1] <= #[trigger] series[k],
        forall|k: int| 0 <= k < series.len() ==> #[trigger] series[k] <= ONE,
    ensures
        is_cumulative(series),
{
    assert forall|a: int, b: int| 0 <= a <= b < series.len() implies (#[trigger] series[a]) <= (
    #[trigger] series[b]) <= ONE by {
        lemma_ordered(series, a, b);
    }
}

/// Entries whose neighbours are in order are in order at any distance.
proof fn lemma_ordered(series: Seq<u64>, a: int, b: int)
    requires
        forall|k: int| 1 <= k < series.len() ==> series[k - 1] <= #[trigger] series[k],
        0 <= a <= b < series.len(),
    ensures
        series[a] <= series[b],
    decreases b - a,
{
    if a < b {
        lemma_ordered(series, a, b - 1);
    }
}

/// The differences of a cumulative series sum, up to any entry, to that entry.
pub proof fn lemma_differences_total(cdf: Seq<u64>, upto: int)
    requires
        is_cumulative(cdf),
        0 <= upto <= cdf.len(),
    ensures
        total(differences(cdf).take(upto)) == if upto == 0 {
            0
        } else {
            cdf[upto - 1] as int
        },
    decreases upto,
{
    let d = differences(cdf);
    if upto == 0 {
        assert(d.take(0) =~= Seq::<u64>::empty());
    } else {
        lemma_differences_total(cdf, upto - 1);
        lemma_total_take(d, upto - 1);
        if upto >= 2 {
            assert(cdf[upto - 2] <= cdf[upto - 1]);
        }
        assert(cdf[upto - 1] <= cdf[upto - 1]);
    }
}

/// Turns a cumulative series into its mass function.
pub fn cdf_to_pmf(cdf: &Vec<u64>) -> (result: Result<Vec<u64>, EngineError>)
    ensures
        !is_cumulative(cdf@) ==> result == Err::<Vec<u64>, EngineError>(EngineError::NotCumulative),
        is_cumulative(cdf@) ==> result is Ok,
        result matches Ok(pmf) ==> pmf@ == differences(cdf@) && total(pmf@) <= ONE,
{
    let n: usize = cdf.len();
    let mut pmf: Vec<u64> = Vec::new();
    let mut previous: u64 = 0;
    let mut k: usize = 0;
    while k < n
        invariant
            k <= n,
            n == cdf@.len(),
            previous == if k == 0 {
                0
            } else {
                cdf@[k - 1]
            },
            forall|t: int| 1 <= t < k ==> cdf@[t - 1] <= #[trigger] cdf@[t],
            forall|t: int| 0 <= t < k ==> #[trigger] cdf@[t] <= ONE,
            pmf@ == differences(cdf@).take(k as int),
        decreases n - k,
    {
        let current: u64 = cdf[k];
        if current < previous || current > ONE {
            proof {
                if is_cumulative(cdf@) {
                    assert(cdf@[k as int] <= cdf@[k as int]);
                    if k > 0 {
                        assert(cdf@[k - 1] <= cdf@[k as int]);
                    }
                }
            }
            return Err(EngineError::NotCumulative);
        }
        pmf.push(current - previous);
        proof {
            assert(pmf@ =~= differences(cdf@).take(k + 1));
        }
        previous = current;
        k = k + 1;
    }
    proof {
        lemma_cumulative_from_steps(cdf@);
        assert(differences(cdf@).take(n as int) =~= differences(cdf@));
        lemma_differences_total(cdf@, n as int);
        if n > 0 {
            assert(cdf@[n - 1] <= cdf@[n - 1]);
        }
    }
    Ok(pmf)
}

/// The sum of a mass function, where it is no more than certainty.
pub fn checked_total(pmf: &Vec<u64>) -> (sum: Option<u64>)
    ensures
        total(pmf@) <= ONE ==> sum == Some(total(pmf@) as u64),
        total(pmf@) > ONE ==> sum.is_none(),
{
    let mut sum: u64 = 0;
    let mut k: usize = 0;
    proof {
        lemma_total_prefix_zero(pmf@);
    }
    while k < pmf.len()
        invariant
            k <= pmf@.len(),
            sum == total(pmf@.take(k as int)),
            sum <= ONE,
        decreases pmf@.len() - k,
    {
        proof {
            lemma_total_take(pmf@, k as int);
        }
        let entry: u64 = pmf[k];
        if entry > ONE - sum {
            return None;
        }
        sum = sum + entry;
        k = k + 1;
    }
    proof {
        assert(pmf@.take(pmf@.len() as int) =~= pmf@);
    }
    Some(sum)
}

/// Turns a mass function into its cumulative series.
pub fn pmf_to_cdf(pmf: &Vec<u64>) -> (result: Result<Vec<u64>, EngineError>)
    ensures
        total(pmf@) > ONE ==> result == Err::<Vec<u64>, EngineError>(EngineError::ExcessMass),
        total(pmf@) <= ONE ==> result is Ok,
        result matches Ok(cdf) ==> cdf@ == prefix_sums(pmf@) && is_cumulative(cdf@),
{
    if checked_total(pmf).is_none() {
        return Err(EngineError::ExcessMass);
    }
    let n: usize = pmf.len();
    let mut cdf: Vec<u64> = Vec::new();
    let mut sum: u64 = 0;
    let mut k: usize = 0;
    proof {
        lemma_total_prefix_zero(pmf@);
    }
    while k < n
        invariant
            k <= n,
            n == pmf@.len(),
            total(pmf@) <= ONE,
            sum == total(pmf@.take(k as int)),
            cdf@ == prefix_sums(pmf@).take(k as int),
            forall|t: int| 1 <= t < k ==> cdf@[t - 1] <= #[trigger] cdf@[t],
            forall|t: int| 0 <= t < k ==> #[trigger] cdf@[t] <= ONE,
        decreases n - k,
    {
        proof {
            lemma_total_take(pmf@, k as int);
            if k > 0 {
                lemma_total_take(pmf@, k - 1);
            }
        }
        sum = sum + pmf[k];
        cdf.push(sum);
        proof {
            assert(cdf@ =~= prefix_sums(pmf@).take(k + 1));
        }
        k = k + 1;
    }
    proof {
        assert(prefix_sums(pmf@).take(n as int) =~= prefix_sums(pmf@));
        lemma_cumulative_from_steps(cdf@);
    }
    Ok(cdf)
}

/// A vector of `n` zeroed wide accumulators.
fn wide_zeros(n: usize) -> (v: Vec<u128>)
    ensures
        v@.len() == n,
        forall|i: int| 0 <= i < n ==> v@[i] == 0,
        wide_total(v@) == 0,
{
    let mut v: Vec<u128> = Vec::new();
    let mut i: usize = 0;
    while i < n
        invariant
            i <= n,
            v@.len() == i,
            forall|k: int| 0 <= k < i ==> v@[k] == 0,
        decreases n - i,
    {
        v.push(0);
        i = i + 1;
    }
    proof {
        lemma_wide_total_zeros(v@);
    }
    v
}

/// Adds `held * b[j]` to accumulator `at + j`, for every `j`.
fn spread(acc: &mut Vec<u128>, held: u64, at: usize, b: &Vec<u64>)
    requires
        at + b@.len() <= old(acc)@.len(),
        wide_total(old(acc)@) + held * total(b@) <= u128::MAX,
    ensures
        final(acc)@.len() == old(acc)@.len(),
        forall|k: int|
            0 <= k < old(acc)@.len() ==> (#[trigger] final(acc)@[k]) == old(acc)@[k] + if at <= k
                < at + b@.len() {
                held * b@[k - at]
            } else {
                0
            },
        wide_total(final(acc)@) == wide_total(old(acc)@) + held * total(b@),
{
    let nb: usize = b.len();
    let slots: usize = acc.len();
    let ghost before: Seq<u128> = acc@;
    let ghost tb: int = total(b@);
    let mut j: usize = 0;
    proof {
        lemma_total_prefix_zero(b@);
        assert(held * total(b@.take(0)) == 0) by (nonlinear_arith)
            requires
                total(b@.take(0)) == 0,
        ;
    }
    while j < nb
        invariant
            j <= nb,
            nb == b@.len(),
            tb == total(b@),
            at + nb <= before.len(),
            before.len() == slots,
            acc@.len() == before.len(),
            wide_total(before) + held * tb <= u128::MAX,
            forall|k: int|
                0 <= k < before.len() ==> (#[trigger] acc@[k]) == before[k] + if at <= k < at + j {
                    held * b@[k - at]
                } else {
                    0
                },
            wide_total(acc@) == wide_total(before) + held * total(b@.take(j as int)),
        decreases nb - j,
    {
        proof {
            lemma_total_take(b@, j as int);
            lemma_spread_step(held as int, total(b@.take(j as int)), b@[j as int] as int, tb);
            lemma_wide_total_bounds(acc@, at + j);
        }
        let term: u128 = (held as u128) * (b[j] as u128);
        let updated: u128 = acc[at + j] + term;
        proof {
            lemma_wide_total_update(acc@, at + j, updated);
        }
        acc.set(at + j, updated);
        j = j + 1;
    }
    proof {
        assert(b@.take(nb as int) =~= b@);
    }
}

/// The arithmetic of one more term of a row: the part of `b` counted so far grows by
/// `entry`, and stays within the whole of `b`.
proof fn lemma_spread_step(held: int, part: int, entry: int, whole: int)
    requires
        0 <= held,
        0 <= entry,
        part + entry <= whole,
    ensures
        held * (part + entry) == held * part + held * entry,
        held * (part + entry) <= held * whole,
        0 <= held * entry,
{
    assert(held * (part + entry) == held * part + held * entry) by (nonlinear_arith);
    assert(held * (part + entry) <= held * whole) by (nonlinear_arith)
        requires
            part + entry <= whole,
            0 <= held,
    ;
    assert(0 <= held * entry) by (nonlinear_arith)
        requires
            0 <= held,
            0 <= entry,
    ;
}

/// The arithmetic of one more row: the part of `a` counted so far grows by `held`, and
/// stays within the whole of `a`.
proof fn lemma_row_step(done: int, held: int, ta: int, tb: int)
    requires
        0 <= done,
        0 <= held,
        done + held <= ta <= ONE,
        0 <= tb <= ONE,
    ensures
        (done + held) * tb == done * tb + held * tb,
        done * tb + held * tb <= ONE * ONE,
        0 <= done * tb,
{
    let one = ONE as int;
    assert((done + held) * tb == done * tb + held * tb) by (nonlinear_arith);
    assert((done + held) * tb <= one * one) by (nonlinear_arith)
        requires
            0 <= done + held <= one,
            0 <= tb <= one,
    ;
    assert(0 <= done * tb) by (nonlinear_arith)
        requires
            0 <= done,
            0 <= tb,
    ;
}

/// The products of a convolution, summed per entry and not yet scaled.
fn raw_convolution(a: &Vec<u64>, b: &Vec<u64>) -> (acc: Vec<u128>)
    requires
        a@.len() + b@.len() >= 1,
        a@.len() + b@.len() <= usize::MAX,
        total(a@) <= ONE,
        total(b@) <= ONE,
    ensures
        acc@.len() == a@.len() + b@.len() - 1,
        forall|k: int|
            0 <= k < acc@.len() ==> (#[trigger] acc@[k]) == convolution_sum(
                a@,
                b@,
                k,
                a@.len() as int,
            ),
        wide_total(acc@) <= ONE * ONE,
{
    let na: usize = a.len();
    let nb: usize = b.len();
    let n: usize = na + nb - 1;
    let ghost ta: int = total(a@);
    let ghost tb: int = total(b@);
    let mut acc: Vec<u128> = wide_zeros(n);
    let mut i: usize = 0;
    proof {
        lemma_total_prefix_zero(a@);
        lemma_total_nonneg(a@);
        lemma_total_nonneg(b@);
        assert(total(a@.take(0)) * tb == 0) by (nonlinear_arith)
            requires
                total(a@.take(0)) == 0,
        ;
    }
    while i < na
        invariant
            i <= na,
            na == a@.len(),
            nb == b@.len(),
            n == na + nb - 1,
            ta == total(a@),
            tb == total(b@),
            0 <= ta <= ONE,
            0 <= tb <= ONE,
            acc@.len() == n,
            forall|k: int| 0 <= k < n ==> (#[trigger] acc@[k]) == convolution_sum(a@, b@, k, i as int),
            wide_total(acc@) == total(a@.take(i as int)) * tb,
            0 <= total(a@.take(i as int)),
            wide_total(acc@) <= ONE * ONE,
        decreases na - i,
    {
        let ghost before: Seq<u128> = acc@;
        proof {
            lemma_total_take(a@, i as int);
            lemma_row_step(total(a@.take(i as int)), a@[i as int] as int, ta, tb);
        }
        spread(&mut acc, a[i], i, b);
        proof {
            assert forall|k: int| 0 <= k < n implies (#[trigger] acc@[k]) == convolution_sum(
                a@,
                b@,
                k,
                i + 1,
            ) by {
                assert(acc@[k] == before[k] + product_at(a@, b@, i as int, k));
            }
        }
        i = i + 1;
    }
    acc
}

/// Scales every accumulator down to a fixed-point probability, rounding down.
fn scale_down(acc: &Vec<u128>) -> (out: Vec<u64>)
    requires
        wide_total(acc@) <= ONE * ONE,
    ensures
        out@.len() == acc@.len(),
        forall|k: int| 0 <= k < acc@.len() ==> (#[trigger] out@[k]) == acc@[k] / (ONE as u128),
        total(out@) <= ONE,
{
    let n: usize = acc.len();
    let ghost one: int = ONE as int;
    let mut out: Vec<u64> = Vec::new();
    let mut k: usize = 0;
    proof {
        lemma_wide_total_prefix_zero(acc@);
    }
    while k < n
        invariant
            k <= n,
            n == acc@.len(),
            one == ONE,
            wide_total(acc@) <= one * one,
            out@.len() == k,
            forall|t: int| 0 <= t < k ==> (#[trigger] out@[t]) == acc@[t] / (ONE as u128),
            total(out@) * one <= wide_total(acc@.take(k as int)),
        decreases n - k,
    {
        proof {
            lemma_wide_total_take(acc@, k as int);
            lemma_wide_total_bounds(acc@, k as int);
            lemma_wide_total_take_le(acc@, k + 1);
            lemma_quotient(acc@[k as int] as int, total(out@));
            lemma_total_push(out@, (acc@[k as int] / (ONE as u128)) as u64);
        }
        let entry: u128 = acc[k] / (ONE as u128);
        out.push(entry as u64);
        k = k + 1;
    }
    proof {
        assert(acc@.take(n as int) =~= acc@);
        let t = total(out@);
        assert(t <= one) by (nonlinear_arith)
            requires
                t * one <= one * one,
                one > 0,
        ;
    }
    out
}

/// Scaling an accumulator down loses no more than the rounding.
proof fn lemma_quotient(x: int, t: int)
    requires
        0 <= x <= ONE * ONE,
    ensures
        0 <= x / (ONE as int) <= ONE,
        (x / (ONE as int)) * ONE <= x,
        (t + x / (ONE as int)) * ONE == t * ONE + (x / (ONE as int)) * ONE,
{
    let one = ONE as int;
    let q = x / one;
    lemma_fundamental_div_mod(x, one);
    assert(q * one <= x) by (nonlinear_arith)
        requires
            x == one * q + x % one,
            0 <= x % one,
    ;
    assert(0 <= q) by (nonlinear_arith)
        requires
            x == one * q + x % one,
            0 <= x % one < one,
            0 <= x,
    ;
    assert(q <= one) by (nonlinear_arith)
        requires
            q * one <= one * one,
            one > 0,
    ;
    assert((t + q) * one == t * one + q * one) by (nonlinear_arith);
}

/// Convolves two mass functions: entry `k` is the sum of `a[i] * b[k - i]`.
pub fn convolve(a: &Vec<u64>, b: &Vec<u64>) -> (result: Result<Vec<u64>, EngineError>)
    ensures
        result matches Err(e) ==> e == convolution_refusal(a@, b@).unwrap(),
        result is Err <==> convolution_refusal(a@, b@).is_some(),
        result matches Ok(out) ==> out@ == convolved(a@, b@) && total(out@) <= ONE,
{
    let na: usize = a.len();
    let nb: usize = b.len();
    if na == 0 && nb == 0 {
        return Err(EngineError::EmptySeries);
    }
    if checked_total(a).is_none() || checked_total(b).is_none() {
        return Err(EngineError::ExcessMass);
    }
    if na > usize::MAX - nb {
        return Err(EngineError::TooManyStates);
    }
    let acc: Vec<u128> = raw_convolution(a, b);
    let out: Vec<u64> = scale_down(&acc);
    proof {
        assert(out@ =~= convolved(a@, b@));
    }
    Ok(out)
}

/// A prefix of accumulators sums to no more than all of them.
proof fn lemma_wide_total_take_le(s: Seq<u128>, upto: int)
    requires
        0 <= upto <= s.len(),
    ensures
        wide_total(s.take(upto)) <= wide_total(s),
    decreases s.len() - upto,
{
    if upto == s.len() {
        assert(s.take(upto) =~= s);
    } else {
        lemma_wide_total_take(s, upto);
        lemma_wide_total_take_le(s, upto + 1);
    }
}

/// The refusal, if any, of a convolution: both functions empty, one of them summing to
/// more than certainty, or a result too long to index.
pub open spec fn convolution_refusal(a: Seq<u64>, b: Seq<u64>) -> Option<EngineError> {
    if a.len() == 0 && b.len() == 0 {
        Some(EngineError::EmptySeries)
    } else if total(a) > ONE || total(b) > ONE {
        Some(EngineError::ExcessMass)
    } else if a.len() + b.len() > usize::MAX {
        Some(EngineError::TooManyStates)
    } else {
        None
    }
}

/// Composes two kill-time series into the series of killing the first target and then
/// the second: mass functions, convolution, prefix sums.
pub fn compose_sequential(first: &Vec<u64>, second: &Vec<u64>) -> (result: Result<
    Vec<u64>,
    EngineError,
>)
    ensures
        result matches Err(e) ==> e == composition_refusal(first@, second@).unwrap(),
        result is Err <==> composition_refusal(first@, second@).is_some(),
        result matches Ok(cdf) ==> cdf@ == composed(first@, second@) && is_cumulative(cdf@),
{
    let a: Vec<u64> = match cdf_to_pmf(first) {
        Ok(p) => p,
        Err(e) => {
            return Err(e);
        },
    };
    let b: Vec<u64> = match cdf_to_pmf(second) {
        Ok(p) => p,
        Err(e) => {
            return Err(e);
        },
    };
    let c: Vec<u64> = match convolve(&a, &b) {
        Ok(c) => c,
        Err(e) => {
            return Err(e);
        },
    };
    pmf_to_cdf(&c)
}

/// The refusal, if any, of a composition: a series that is not cumulative, two empty
/// series, or a result too long to index.
pub open spec fn composition_refusal(first: Seq<u64>, second: Seq<u64>) -> Option<EngineError> {
    if !is_cumulative(first) || !is_cumulative(second) {
        Some(EngineError::NotCumulative)
    } else if first.len() == 0 && second.len() == 0 {
        Some(EngineError::EmptySeries)
    } else if first.len() + second.len() > usize::MAX {
        Some(EngineError::TooManyStates)
    } else {
        None
    }
}

/// The series of the lists, as values of mathematics.
pub open spec fn series_of(list: Seq<Vec<u64>>) -> Seq<Seq<u64>> {
    Seq::new(list.len(), |i: int| list[i]@)
}

/// The series of killing the targets of the first `upto` series one after the other:
/// nothing for none, the first series as it stands for one, and then each further
/// series composed onto what the earlier ones gave. The first refusal of a composition
/// is the refusal of the whole.
pub open spec fn composed_all(series: Seq<Seq<u64>>, upto: int) -> Result<Seq<u64>, EngineError>
    decreases upto,
{
    if upto <= 0 {
        Ok(Seq::empty())
    } else if upto == 1 {
        Ok(series[0])
    } else {
        match composed_all(series, upto - 1) {
            Err(e) => Err(e),
            Ok(earlier) => match composition_refusal(earlier, series[upto - 1]) {
                Some(e) => Err(e),
                None => Ok(composed(earlier, series[upto - 1])),
            },
        }
    }
}

/// A copy of a series.
fn copy_series(series: &Vec<u64>) -> (out: Vec<u64>)
    ensures
        out@ == series@,
{
    let n: usize = series.len();
    let mut out: Vec<u64> = Vec::new();
    let mut i: usize = 0;
    while i < n
        invariant
            i <= n,
            n == series@.len(),
            out@ == series@.take(i as int),
        decreases n - i,
    {
        out.push(series[i]);
        proof {
            assert(out@ =~= series@.take(i + 1));
        }
        i = i + 1;
    }
    proof {
        assert(series@.take(n as int) =~= series@);
    }
    out
}

/// Composes the kill-time series of targets that are killed one after the other, in
/// their order, into the series of the whole encounter.
pub fn compose_all(series: &Vec<Vec<u64>>) -> (result: Result<Vec<u64>, EngineError>)
    ensures
        match composed_all(series_of(series@), series@.len() as int) {
            Ok(whole) => result matches Ok(v) && v@ == whole,
            Err(e) => result == Err::<Vec<u64>, EngineError>(e),
        },
{
    let n: usize = series.len();
    if n == 0 {
        return Ok(Vec::new());
    }
    let ghost all = series_of(series@);
    let mut whole: Vec<u64> = copy_series(&series[0]);
    let mut k: usize = 1;
    while k < n
        invariant
            1 <= k <= n,
            n == series@.len(),
            all == series_of(series@),
            composed_all(all, k as int) == Ok::<Seq<u64>, EngineError>(whole@),
        decreases n - k,
    {
        match compose_sequential(&whole, &series[k]) {
            Ok(next) => {
                whole = next;
            },
            Err(e) => {
                proof {
                    lemma_refusal_stays(all, k + 1, n as int);
                }
                return Err(e);
            },
        }
        k = k + 1;
    }
    Ok(whole)
}

/// Once a composition is refused, composing further series changes nothing.
proof fn lemma_refusal_stays(series: Seq<Seq<u64>>, refused: int, upto: int)
    requires
        1 <= refused <= upto,
        composed_all(series, refused) is Err,
    ensures
        composed_all(series, upto) == composed_all(series, refused),
    decreases upto - refused,
{
    if refused < upto {
        lemma_refusal_stays(series, refused, upto - 1);
    }
}

} // verus!
