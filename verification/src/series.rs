//! Kill-time series: the cumulative probability of death after each attack, and the
//! expected number of attacks and of ticks that a kill takes.

use vstd::prelude::*;
use vstd::arithmetic::div_mod::{lemma_fundamental_div_mod, lemma_fundamental_div_mod_converse};
use crate::error::EngineError;
use crate::matrix::{TransitionMatrix, DamageRoll, attack_matrix, build_transition_matrix};
use crate::prob::ONE;
use crate::state::{ProbabilityState, propagate_state, stepped_by, point_mass};

verus! {

/// Ticks of the game's timer cadence: expected kill times are rounded up to it.
pub const CADENCE_TICKS: u64 = 4;

/// The probability that the target is dead after `attacks` attacks.
pub open spec fn dead_after(initial: Seq<u64>, matrix: Seq<Seq<u64>>, attacks: nat) -> int {
    stepped_by(initial, matrix, attacks)[0] as int
}

/// A series never decreases and never rises above certainty.
pub open spec fn is_cumulative(series: Seq<u64>) -> bool {
    forall|a: int, b: int|
        0 <= a <= b < series.len() ==> (#[trigger] series[a]) <= (#[trigger] series[b]) <= ONE
}

/// `series[k]` is the probability of death after attack `k + 1`, and the attacks end
/// with the first one that reaches `cap`, or when `budget` attacks have been made.
pub open spec fn is_attack_series(
    series: Seq<u64>,
    initial: Seq<u64>,
    matrix: Seq<Seq<u64>>,
    cap: int,
    budget: int,
) -> bool {
    &&& series.len() <= budget
    &&& forall|k: int|
        0 <= k < series.len() ==> (#[trigger] series[k]) == dead_after(
            initial,
            matrix,
            (k + 1) as nat,
        )
    &&& forall|k: nat| k < series.len() ==> #[trigger] dead_after(initial, matrix, k) < cap
    &&& (series.len() == budget || dead_after(initial, matrix, series.len()) >= cap)
}

/// The probability that attack `k + 1` is the one that kills.
pub open spec fn gain(series: Seq<u64>, baseline: int, k: int) -> int {
    series[k] - if k == 0 {
        baseline
    } else {
        series[k - 1] as int
    }
}

/// The sum over the first `upto` entries of the entry's weight, `base + k * step` for
/// entry `k`, times the probability that the kill falls on that entry.
pub open spec fn weighted_gain(series: Seq<u64>, baseline: int, base: int, step: int, upto: int) -> int
    decreases upto,
{
    if upto <= 0 {
        0
    } else {
        weighted_gain(series, baseline, base, step, upto - 1) + (base + (upto - 1) * step) * gain(
            series,
            baseline,
            upto - 1,
        )
    }
}

/// The least multiple of `unit` that is no less than `value`.
pub open spec fn rounded_up(value: int, unit: int) -> int {
    if value % unit == 0 {
        value
    } else {
        value + unit - value % unit
    }
}

/// `rounded_up` is a multiple of the unit, and the nearest one from above.
pub proof fn lemma_rounded_up(value: int, unit: int)
    requires
        0 <= value,
        0 < unit,
    ensures
        rounded_up(value, unit) % unit == 0,
        value <= rounded_up(value, unit) < value + unit,
{
    lemma_fundamental_div_mod(value, unit);
    let q = value / unit;
    let r = value % unit;
    if r != 0 {
        assert(value + unit - r == (q + 1) * unit + 0) by (nonlinear_arith)
            requires
                value == unit * q + r,
        ;
        lemma_fundamental_div_mod_converse(value + unit - r, unit, q + 1, 0);
    }
}

/// Rounds `value` up to the next multiple of `unit`.
pub fn round_up_to(value: u128, unit: u128) -> (rounded: Option<u128>)
    ensures
        unit == 0 ==> rounded.is_none(),
        unit > 0 && rounded_up(value as int, unit as int) > u128::MAX ==> rounded.is_none(),
        unit > 0 && rounded_up(value as int, unit as int) <= u128::MAX ==> rounded == Some(
            rounded_up(value as int, unit as int) as u128,
        ),
{
    if unit == 0 {
        return None;
    }
    let over: u128 = value % unit;
    if over == 0 {
        Some(value)
    } else {
        let room: u128 = unit - over;
        if value > u128::MAX - room {
            None
        } else {
            Some(value + room)
        }
    }
}

/// A series without the entries of its delay, and nothing where the delay is longer
/// than the series.
pub open spec fn delay_removed(kill_times: Seq<u64>, delay: int) -> Seq<u64> {
    if delay <= kill_times.len() {
        kill_times.skip(delay)
    } else {
        Seq::empty()
    }
}

/// Takes the entries of the delay off a series, so that its first entry is the death
/// probability after the first attack.
pub fn without_delay(kill_times: &Vec<u64>, delay: usize) -> (out: Vec<u64>)
    ensures
        out@ == delay_removed(kill_times@, delay as int),
{
    let n: usize = kill_times.len();
    let mut out: Vec<u64> = Vec::new();
    if delay > n {
        return out;
    }
    let mut i: usize = delay;
    while i < n
        invariant
            delay <= i <= n,
            n == kill_times@.len(),
            out@ == kill_times@.subrange(delay as int, i as int),
        decreases n - i,
    {
        out.push(kill_times[i]);
        proof {
            assert(out@ =~= kill_times@.subrange(delay as int, i + 1));
        }
        i = i + 1;
    }
    proof {
        assert(kill_times@.subrange(delay as int, n as int) =~= kill_times@.skip(delay as int));
    }
    out
}

/// The sum of the first `upto` scaled values.
pub open spec fn scaled_sum(values: Seq<u128>, upto: int) -> int
    decreases upto,
{
    if upto <= 0 {
        0
    } else {
        scaled_sum(values, upto - 1) + values[upto - 1]
    }
}

/// The sum grows with every value counted.
proof fn lemma_scaled_sum_grows(values: Seq<u128>, fewer: int, more: int)
    requires
        0 <= fewer <= more <= values.len(),
    ensures
        0 <= scaled_sum(values, fewer) <= scaled_sum(values, more),
    decreases more,
{
    if more > 0 {
        if fewer < more {
            lemma_scaled_sum_grows(values, fewer, more - 1);
        } else {
            lemma_scaled_sum_grows(values, more - 1, more - 1);
        }
    }
}

/// The total of the expected values of the targets of an encounter, where it can be
/// held.
pub fn total_expected(values: &Vec<u128>) -> (total: Option<u128>)
    ensures
        scaled_sum(values@, values@.len() as int) <= u128::MAX ==> total == Some(
            scaled_sum(values@, values@.len() as int) as u128,
        ),
        scaled_sum(values@, values@.len() as int) > u128::MAX ==> total.is_none(),
{
    let mut total: u128 = 0;
    let mut i: usize = 0;
    while i < values.len()
        invariant
            i <= values@.len(),
            total == scaled_sum(values@, i as int),
        decreases values@.len() - i,
    {
        total = match total.checked_add(values[i]) {
            Some(t) => t,
            None => {
                proof {
                    lemma_scaled_sum_grows(values@, i + 1, values@.len() as int);
                }
                return None;
            },
        };
        i = i + 1;
    }
    Some(total)
}

/// Seconds, scaled like the ticks, that scaled ticks last: a tick is three fifths of a
/// second.
pub fn ticks_to_seconds(ticks: u128) -> (seconds: u128)
    ensures
        seconds == ticks * 3 / 5,
{
    let fives: u128 = ticks / 5;
    let rest: u128 = ticks % 5;
    proof {
        lemma_fundamental_div_mod(ticks as int, 5);
        lemma_fundamental_div_mod_converse(
            ticks * 3,
            5,
            fives * 3 + rest * 3 / 5,
            (rest * 3) % 5,
        );
    }
    fives * 3 + rest * 3 / 5
}

/// The series of death probabilities that repeated attacks with `matrix` give, from
/// `initial` on, until the probability reaches `cap` or `budget` attacks are made.
pub fn attack_series(
    matrix: &TransitionMatrix,
    initial: &ProbabilityState,
    cap: u64,
    budget: usize,
) -> (result: Result<Vec<u64>, EngineError>)
    requires
        matrix.wf(),
        initial.wf(),
    ensures
        initial@.len() != matrix@.len() ==> result == Err::<Vec<u64>, EngineError>(
            EngineError::SizeMismatch,
        ),
        initial@.len() == matrix@.len() ==> result is Ok,
        result matches Ok(series) ==> {
            &&& is_attack_series(series@, initial@, matrix@, cap as int, budget as int)
            &&& is_cumulative(series@)
            &&& forall|k: int| 0 <= k < series@.len() ==> initial@[0] <= #[trigger] series@[k]
        },
{
    if matrix.dim() != initial.len() {
        return Err(EngineError::SizeMismatch);
    }
    let mut state: ProbabilityState = initial.duplicate();
    let mut series: Vec<u64> = Vec::new();
    let mut p_dead: u64 = state.dead();
    while p_dead < cap && series.len() < budget
        invariant
            matrix.wf(),
            state.wf(),
            state@.len() == matrix@.len(),
            state@ == stepped_by(initial@, matrix@, series@.len()),
            p_dead == state@[0],
            p_dead <= ONE,
            initial@[0] <= p_dead,
            series@.len() <= budget,
            forall|k: int|
                0 <= k < series@.len() ==> (#[trigger] series@[k]) == dead_after(
                    initial@,
                    matrix@,
                    (k + 1) as nat,
                ),
            forall|k: nat|
                k < series@.len() ==> #[trigger] dead_after(initial@, matrix@, k) < cap,
            is_cumulative(series@),
            forall|k: int| 0 <= k < series@.len() ==> initial@[0] <= #[trigger] series@[k],
            forall|k: int| 0 <= k < series@.len() ==> (#[trigger] series@[k]) <= p_dead,
        decreases budget - series@.len(),
    {
        let ghost made: nat = series@.len();
        match propagate_state(&state, matrix) {
            Ok(next) => {
                state = next;
            },
            Err(e) => {
                return Err(e);
            },
        }
        proof {
            assert(state@ == stepped_by(initial@, matrix@, made + 1));
        }
        p_dead = state.dead();
        series.push(p_dead);
    }
    Ok(series)
}

/// The expected weight of the entry on which the kill falls, where entry `k` weighs
/// `base + k * step`: with base 1 and step 1 the expected number of attacks.
pub fn expectation(series: &Vec<u64>, baseline: u64, base: u64, step: u64) -> (expected: u128)
    requires
        is_cumulative(series@),
        series@.len() > 0 ==> baseline <= series@[0],
        base + series@.len() * step <= u64::MAX,
    ensures
        expected == weighted_gain(
            series@,
            baseline as int,
            base as int,
            step as int,
            series@.len() as int,
        ),
        expected <= (base + series@.len() * step) * ONE,
{
    let n: usize = series.len();
    let ghost top: int = base + n * step;
    let mut expected: u128 = 0;
    let mut previous: u64 = baseline;
    let mut k: usize = 0;
    proof {
        assert(top * (previous - baseline) == 0) by (nonlinear_arith)
            requires
                previous == baseline,
        ;
        if n > 0 {
            assert(series@[0] <= series@[0]);
        }
    }
    while k < n
        invariant
            k <= n,
            n == series@.len(),
            top == base + n * step,
            0 <= top <= u64::MAX,
            is_cumulative(series@),
            n > 0 ==> baseline <= series@[0],
            previous == if k == 0 {
                baseline
            } else {
                series@[k - 1]
            },
            baseline <= previous,
            n > 0 ==> previous <= ONE,
            expected == weighted_gain(
                series@,
                baseline as int,
                base as int,
                step as int,
                k as int,
            ),
            expected <= top * (previous - baseline),
        decreases n - k,
    {
        let current: u64 = series[k];
        proof {
            assert(series@[k as int] <= series@[k as int]);
            if k > 0 {
                assert(series@[k - 1] <= series@[k as int]);
            } else {
                assert(series@[0] <= series@[k as int]);
            }
            assert(k * step <= n * step) by (nonlinear_arith)
                requires
                    k <= n,
                    0 <= step,
            ;
            assert(0 <= k * step) by (nonlinear_arith)
                requires
                    0 <= k,
                    0 <= step,
            ;
        }
        let weight: u128 = base as u128 + (k as u128) * (step as u128);
        let won: u64 = current - previous;
        proof {
            let one = ONE as int;
            assert(weight * won <= top * won) by (nonlinear_arith)
                requires
                    0 <= weight <= top,
                    0 <= won,
            ;
            assert(top * (previous - baseline) + top * won == top * (current - baseline))
                by (nonlinear_arith)
                requires
                    won == current - previous,
            ;
            assert(top * (current - baseline) <= top * one) by (nonlinear_arith)
                requires
                    0 <= top,
                    current - baseline <= one,
            ;
            assert(top * one <= 0xffff_ffff_ffff_ffff * one) by (nonlinear_arith)
                requires
                    0 <= top <= 0xffff_ffff_ffff_ffff,
                    0 <= one,
            ;
            assert(gain(series@, baseline as int, k as int) == won);
        }
        expected = expected + weight * (won as u128);
        previous = current;
        k = k + 1;
    }
    proof {
        let one = ONE as int;
        assert(top * (previous - baseline) <= top * one) by (nonlinear_arith)
            requires
                0 <= top,
                previous - baseline <= one,
        ;
    }
    expected
}

/// A kill-time series with the statistics derived from it.
pub struct KillTimeSeries {
    /// The cumulative probability of death: first the delay, then one entry per attack.
    pub kill_times: Vec<u64>,
    /// Ticks between two attacks.
    pub attack_speed: usize,
    /// The expected number of the killing attack, in units of 10^-18 attacks.
    pub expected_hits: u128,
    /// The expected tick of the kill, rounded up to the cadence, in units of 10^-18 ticks.
    pub expected_ticks: u128,
}

/// How many attacks a budget of `max_steps` series entries leaves after a delay.
pub open spec fn attacks_allowed(max_steps: int, delay: int) -> int {
    if max_steps > delay {
        max_steps - delay
    } else {
        0
    }
}

/// A vector of `count` copies of `value`, followed by `tail`.
fn padded(count: usize, value: u64, tail: &Vec<u64>) -> (out: Vec<u64>)
    ensures
        out@ == Seq::new(count as nat, |i: int| value) + tail@,
{
    let mut out: Vec<u64> = Vec::new();
    let mut i: usize = 0;
    while i < count
        invariant
            i <= count,
            out@ == Seq::new(i as nat, |t: int| value),
        decreases count - i,
    {
        out.push(value);
        proof {
            assert(out@ =~= Seq::new((i + 1) as nat, |t: int| value));
        }
        i = i + 1;
    }
    let mut k: usize = 0;
    while k < tail.len()
        invariant
            k <= tail@.len(),
            out@ == Seq::new(count as nat, |t: int| value) + tail@.take(k as int),
        decreases tail@.len() - k,
    {
        out.push(tail[k]);
        proof {
            assert(out@ =~= Seq::new(count as nat, |t: int| value) + tail@.take(k + 1));
        }
        k = k + 1;
    }
    proof {
        assert(tail@.take(tail@.len() as int) =~= tail@);
    }
    out
}

/// The kill-time series of a weapon that first attacks after `start_tick` ticks and
/// then every `attack_speed` ticks, with damage rolled from 0 to `max_hit`.
///
/// The series holds the initial death probability `start_tick` times, then the
/// probability after each attack, until it reaches `cap` or the series has
/// `max_steps` entries. Attack number `k` lands on tick `start_tick + k * attack_speed + 1`.
pub fn weapon_kill_times_markov_per_tick_with_delay(
    hp: usize,
    max_hit: usize,
    accuracy: u64,
    cap: u64,
    max_steps: usize,
    attack_speed: usize,
    start_tick: usize,
) -> (result: Result<KillTimeSeries, EngineError>)
    ensures
        result matches Err(e) ==> e == series_refusal(
            hp as int,
            accuracy as int,
            cap as int,
            max_steps as int,
            attack_speed as int,
            start_tick as int,
        ).unwrap(),
        result is Err <==> series_refusal(
            hp as int,
            accuracy as int,
            cap as int,
            max_steps as int,
            attack_speed as int,
            start_tick as int,
        ).is_some(),
        result matches Ok(s) ==> {
            let initial = point_mass(hp as int);
            let matrix = attack_matrix(DamageRoll::ZeroToMax, hp as int, max_hit as int, accuracy as int);
            let attacks = s.kill_times@.subrange(start_tick as int, s.kill_times@.len() as int);
            &&& s.attack_speed == attack_speed
            &&& s.kill_times@.len() >= start_tick
            &&& forall|i: int| 0 <= i < start_tick ==> (#[trigger] s.kill_times@[i]) == initial[0]
            &&& is_attack_series(
                attacks,
                initial,
                matrix,
                cap as int,
                attacks_allowed(max_steps as int, start_tick as int),
            )
            &&& is_cumulative(s.kill_times@)
            &&& s.expected_hits == weighted_gain(attacks, initial[0] as int, 1, 1, attacks.len() as int)
            &&& s.expected_ticks == rounded_up(
                weighted_gain(
                    attacks,
                    initial[0] as int,
                    start_tick + attack_speed + 1,
                    attack_speed as int,
                    attacks.len() as int,
                ),
                CADENCE_TICKS * ONE,
            )
        },
{
    if accuracy > ONE {
        return Err(EngineError::AccuracyOutOfRange);
    }
    if cap > ONE {
        return Err(EngineError::CapOutOfRange);
    }
    if attack_speed == 0 {
        return Err(EngineError::ZeroAttackSpeed);
    }
    if hp == usize::MAX {
        return Err(EngineError::TooManyStates);
    }
    let budget: usize = if max_steps > start_tick {
        max_steps - start_tick
    } else {
        0
    };
    proof {
        assert((budget + 1) * (attack_speed as int) <= (budget + 1) * 0xffff_ffff_ffff_ffff)
            by (nonlinear_arith)
            requires
                0 <= budget,
                0 <= attack_speed <= 0xffff_ffff_ffff_ffff,
        ;
        assert((budget + 1) * 0xffff_ffff_ffff_ffff + start_tick + 1
            <= 0xffff_ffff_ffff_ffff_ffff_ffff_ffff_ffff) by (nonlinear_arith)
            requires
                0 <= budget,
                0 <= start_tick,
                budget + start_tick <= 0xffff_ffff_ffff_ffff,
        ;
        assert((budget + 1) * (attack_speed as int) >= budget + 1) by (nonlinear_arith)
            requires
                0 <= budget,
                1 <= attack_speed,
        ;
    }
    let last_tick: u128 = start_tick as u128 + 1 + (budget as u128 + 1) * (attack_speed as u128);
    if last_tick > u64::MAX as u128 {
        return Err(EngineError::TickOverflow);
    }
    let matrix: TransitionMatrix = match build_transition_matrix(
        hp,
        max_hit,
        accuracy,
        DamageRoll::ZeroToMax,
    ) {
        Ok(m) => m,
        Err(e) => {
            return Err(e);
        },
    };
    let initial: ProbabilityState = match ProbabilityState::at_full_health(hp) {
        Ok(s) => s,
        Err(e) => {
            return Err(e);
        },
    };
    let attacks: Vec<u64> = match attack_series(&matrix, &initial, cap, budget) {
        Ok(a) => a,
        Err(e) => {
            return Err(e);
        },
    };
    let first: u64 = initial.dead();
    proof {
        assert(attacks@.len() * attack_speed <= budget * attack_speed) by (nonlinear_arith)
            requires
                attacks@.len() <= budget,
                0 <= attack_speed,
        ;
        assert((budget + 1) * attack_speed == budget * attack_speed + attack_speed)
            by (nonlinear_arith);
        assert(1 + attacks@.len() * 1 <= u64::MAX);
    }
    let expected_hits: u128 = expectation(&attacks, first, 1, 1);
    let raw_ticks: u128 = expectation(
        &attacks,
        first,
        start_tick as u64 + 1 + attack_speed as u64,
        attack_speed as u64,
    );
    proof {
        let one = ONE as int;
        let top = start_tick + 1 + attack_speed + attacks@.len() * attack_speed;
        assert(top * one <= 0xffff_ffff_ffff_ffff * one) by (nonlinear_arith)
            requires
                0 <= top <= 0xffff_ffff_ffff_ffff,
                0 <= one,
        ;
        lemma_rounded_up(raw_ticks as int, CADENCE_TICKS * ONE);
    }
    let expected_ticks: u128 = match round_up_to(raw_ticks, (CADENCE_TICKS as u128) * (ONE as u128)) {
        Some(t) => t,
        None => {
            return Err(EngineError::TickOverflow);
        },
    };
    let kill_times: Vec<u64> = padded(start_tick, first, &attacks);
    proof {
        let pad = Seq::new(start_tick as nat, |i: int| first);
        assert(kill_times@.subrange(start_tick as int, kill_times@.len() as int) =~= attacks@);
        assert forall|a: int, b: int| 0 <= a <= b < kill_times@.len() implies (
        #[trigger] kill_times@[a]) <= (#[trigger] kill_times@[b]) <= ONE by {
            if b < start_tick {
            } else if a < start_tick {
                assert(kill_times@[b] == attacks@[b - start_tick]);
                assert(attacks@[b - start_tick] <= attacks@[b - start_tick]);
            } else {
                assert(kill_times@[a] == attacks@[a - start_tick]);
                assert(kill_times@[b] == attacks@[b - start_tick]);
            }
        }
    }
    Ok(KillTimeSeries { kill_times, attack_speed, expected_hits, expected_ticks })
}

/// The refusal, if any, of a request for a delayed kill-time series: the first of the
/// checks on accuracy, cap, attack speed, hit points and last tick that fails.
pub open spec fn series_refusal(
    hp: int,
    accuracy: int,
    cap: int,
    max_steps: int,
    attack_speed: int,
    start_tick: int,
) -> Option<EngineError> {
    if accuracy > ONE {
        Some(EngineError::AccuracyOutOfRange)
    } else if cap > ONE {
        Some(EngineError::CapOutOfRange)
    } else if attack_speed == 0 {
        Some(EngineError::ZeroAttackSpeed)
    } else if hp == usize::MAX {
        Some(EngineError::TooManyStates)
    } else if start_tick + 1 + (attacks_allowed(max_steps, start_tick) + 1) * attack_speed
        > u64::MAX {
        Some(EngineError::TickOverflow)
    } else {
        None
    }
}

} // verus!
