//! The chain by itself: the matrix of one attack laid out flat, the state of a target
//! after a number of attacks, and the series of death probabilities by attack and by
//! tick.
//!
//! States are indexed by hit points left, as everywhere: index 0 is the dead target and
//! index `hp` the untouched one. Only the flat matrix counts the other way, by damage
//! taken.

use vstd::prelude::*;
use vstd::arithmetic::div_mod::lemma_fundamental_div_mod_converse;
use crate::error::EngineError;
use crate::matrix::{TransitionMatrix, DamageRoll, attack_matrix, build_transition_matrix};
use crate::prob::ONE;
use crate::series::{is_cumulative, is_attack_series, attack_series};
use crate::state::{
    ProbabilityState, propagate_state, stepped, stepped_by, point_mass,
};

verus! {

/// The accuracy of a thrall: three hits in four.
pub const THRALL_ACCURACY: u64 = 750_000_000_000_000_000;

/// The maximum hit of a thrall.
pub const THRALL_MAX_HIT: usize = 3;

/// The weapon attacks on ticks 1, 6, 11, ...
pub const WEAPON_PERIOD: usize = 5;

/// The thrall attacks on ticks 2, 6, 10, ...
pub const THRALL_PERIOD: usize = 4;

/// The flat matrix by damage taken: entry `i * n + j` is the probability of going from
/// `i` damage taken to `j` damage taken, that is from `hp - i` hit points left to `hp - j`.
pub open spec fn flat_matrix(matrix: Seq<Seq<u64>>) -> Seq<u64> {
    let n = matrix.len() as int;
    Seq::new((n * n) as nat, |at: int| matrix[n - 1 - at / n][n - 1 - at % n])
}

/// A copy of a vector.
fn copied(v: &Vec<u64>) -> (out: Vec<u64>)
    ensures
        out@ == v@,
{
    let n: usize = v.len();
    let mut out: Vec<u64> = Vec::new();
    let mut i: usize = 0;
    while i < n
        invariant
            i <= n,
            n == v@.len(),
            out@ == v@.take(i as int),
        decreases n - i,
    {
        out.push(v[i]);
        proof {
            assert(out@ =~= v@.take(i + 1));
        }
        i = i + 1;
    }
    proof {
        assert(v@.take(n as int) =~= v@);
    }
    out
}

/// The matrix of one attack of a weapon that hits for 1 up to `m` with accuracy `a`, on
/// a target with `hp` hit points: flat, row-major, indexed by damage taken.
///
/// Row `i` belongs to the state with `hp - i` hit points left, and so does column `i`:
/// row 0 is the untouched target, the last row and the last column are the dead one.
/// Entry `i * (hp + 1) + j` is the probability that an attack takes the target from
/// `hp - i` hit points left to `hp - j`.
pub fn single_matrix(a: u64, m: usize, hp: usize) -> (result: Result<Vec<u64>, EngineError>)
    ensures
        a > ONE ==> result == Err::<Vec<u64>, EngineError>(EngineError::AccuracyOutOfRange),
        a <= ONE && (hp + 1) * (hp + 1) > usize::MAX ==> result == Err::<Vec<u64>, EngineError>(
            EngineError::TooManyStates,
        ),
        a <= ONE && (hp + 1) * (hp + 1) <= usize::MAX ==> result is Ok,
        result matches Ok(flat) ==> flat@ == flat_matrix(
            attack_matrix(DamageRoll::OneToMax, hp as int, m as int, a as int),
        ),
{
    if a > ONE {
        return Err(EngineError::AccuracyOutOfRange);
    }
    if hp == usize::MAX {
        proof {
            assert((hp + 1) * (hp + 1) > usize::MAX) by (nonlinear_arith)
                requires
                    hp >= usize::MAX,
                    hp >= 0,
            ;
        }
        return Err(EngineError::TooManyStates);
    }
    let n: usize = hp + 1;
    let cells: usize = match n.checked_mul(n) {
        Some(c) => c,
        None => {
            return Err(EngineError::TooManyStates);
        },
    };
    let matrix: TransitionMatrix = match build_transition_matrix(hp, m, a, DamageRoll::OneToMax) {
        Ok(x) => x,
        Err(e) => {
            return Err(e);
        },
    };
    let ghost model = flat_matrix(matrix@);
    let mut flat: Vec<u64> = Vec::new();
    let mut i: usize = 0;
    proof {
        assert(0 * n == 0) by (nonlinear_arith);
    }
    while i < n
        invariant
            i <= n,
            n == hp + 1,
            n == matrix@.len(),
            matrix.wf(),
            cells == n * n,
            model == flat_matrix(matrix@),
            flat@.len() == i * n,
            flat@ == model.take(i * n),
        decreases n - i,
    {
        let row: &Vec<u64> = matrix.row(hp - i);
        let mut j: usize = 0;
        proof {
            assert((i + 1) * n == i * n + n) by (nonlinear_arith);
            assert((i + 1) * n <= n * n) by (nonlinear_arith)
                requires
                    i + 1 <= n,
                    0 <= n,
            ;
        }
        while j < n
            invariant
                j <= n,
                i < n,
                n == hp + 1,
                n == matrix@.len(),
                matrix.wf(),
                row@ == matrix@[hp - i],
                model == flat_matrix(matrix@),
                i * n + n <= n * n,
                n * n == cells,
                flat@.len() == i * n + j,
                flat@ == model.take(i * n + j),
            decreases n - j,
        {
            proof {
                lemma_fundamental_div_mod_converse(i * n + j, n as int, i as int, j as int);
            }
            flat.push(row[hp - j]);
            proof {
                assert(flat@ =~= model.take(i * n + j + 1));
            }
            j = j + 1;
        }
        i = i + 1;
    }
    proof {
        assert(model.take(n * n) =~= model);
    }
    Ok(flat)
}

/// The state of an untouched target: all mass on the state "`hp` hit points left".
pub fn npc_state(hp: usize) -> (result: Result<Vec<u64>, EngineError>)
    ensures
        hp == usize::MAX ==> result == Err::<Vec<u64>, EngineError>(EngineError::TooManyStates),
        hp < usize::MAX ==> result is Ok,
        result matches Ok(v) ==> v@ == point_mass(hp as int),
{
    let state: ProbabilityState = match ProbabilityState::at_full_health(hp) {
        Ok(s) => s,
        Err(e) => {
            return Err(e);
        },
    };
    Ok(copied(state.masses()))
}

/// The state of a target with `hp` hit points after `no_hits` attacks, by hit points
/// left: entry 0 is the probability that it is dead.
pub fn hitting_basic_npc(hp: usize, max_hit: usize, acc: u64, no_hits: usize) -> (result: Result<
    Vec<u64>,
    EngineError,
>)
    ensures
        acc > ONE ==> result == Err::<Vec<u64>, EngineError>(EngineError::AccuracyOutOfRange),
        acc <= ONE && hp == usize::MAX ==> result == Err::<Vec<u64>, EngineError>(
            EngineError::TooManyStates,
        ),
        acc <= ONE && hp < usize::MAX ==> result is Ok,
        result matches Ok(v) ==> v@ == stepped_by(
            point_mass(hp as int),
            attack_matrix(DamageRoll::OneToMax, hp as int, max_hit as int, acc as int),
            no_hits as nat,
        ),
{
    let matrix: TransitionMatrix = match build_transition_matrix(
        hp,
        max_hit,
        acc,
        DamageRoll::OneToMax,
    ) {
        Ok(m) => m,
        Err(e) => {
            return Err(e);
        },
    };
    let mut state: ProbabilityState = match ProbabilityState::at_full_health(hp) {
        Ok(s) => s,
        Err(e) => {
            return Err(e);
        },
    };
    let mut done: usize = 0;
    while done < no_hits
        invariant
            done <= no_hits,
            matrix.wf(),
            state.wf(),
            state@.len() == matrix@.len(),
            state@ == stepped_by(point_mass(hp as int), matrix@, done as nat),
        decreases no_hits - done,
    {
        match propagate_state(&state, &matrix) {
            Ok(next) => {
                state = next;
            },
            Err(e) => {
                return Err(e);
            },
        }
        done = done + 1;
    }
    Ok(copied(state.masses()))
}

/// The probability of death after 0, 1, 2, ... attacks, until it reaches `cap` or
/// `max_steps` attacks are made.
pub fn distribution_of_hits_to_kill(
    hp: usize,
    max_hit: usize,
    acc: u64,
    cap: u64,
    max_steps: usize,
) -> (result: Result<Vec<u64>, EngineError>)
    ensures
        acc > ONE ==> result == Err::<Vec<u64>, EngineError>(EngineError::AccuracyOutOfRange),
        acc <= ONE && hp == usize::MAX ==> result == Err::<Vec<u64>, EngineError>(
            EngineError::TooManyStates,
        ),
        acc <= ONE && hp < usize::MAX ==> result is Ok,
        result matches Ok(out) ==> {
            let initial = point_mass(hp as int);
            let matrix = attack_matrix(DamageRoll::OneToMax, hp as int, max_hit as int, acc as int);
            &&& out@.len() >= 1
            &&& out@[0] == initial[0]
            &&& is_attack_series(
                out@.subrange(1, out@.len() as int),
                initial,
                matrix,
                cap as int,
                max_steps as int,
            )
            &&& is_cumulative(out@)
        },
{
    let matrix: TransitionMatrix = match build_transition_matrix(
        hp,
        max_hit,
        acc,
        DamageRoll::OneToMax,
    ) {
        Ok(m) => m,
        Err(e) => {
            return Err(e);
        },
    };
    let initial: ProbabilityState = match ProbabilityState::at_full_health(hp) {
        Ok(s) => s,
        Err(e) => {
            return Err(e);
        },
    };
    let attacks: Vec<u64> = match attack_series(&matrix, &initial, cap, max_steps) {
        Ok(a) => a,
        Err(e) => {
            return Err(e);
        },
    };
    let first: u64 = initial.dead();
    let mut out: Vec<u64> = Vec::new();
    out.push(first);
    let mut k: usize = 0;
    while k < attacks.len()
        invariant
            k <= attacks@.len(),
            out@ == seq![first] + attacks@.take(k as int),
        decreases attacks@.len() - k,
    {
        out.push(attacks[k]);
        proof {
            assert(out@ =~= seq![first] + attacks@.take(k + 1));
        }
        k = k + 1;
    }
    proof {
        assert(attacks@.take(attacks@.len() as int) =~= attacks@);
        assert(out@.subrange(1, out@.len() as int) =~= attacks@);
        assert forall|a: int, b: int| 0 <= a <= b < out@.len() implies (#[trigger] out@[a]) <= (
        #[trigger] out@[b]) <= ONE by {
            if b == 0 {
            } else if a == 0 {
                assert(out@[b] == attacks@[b - 1]);
                assert(attacks@[b - 1] <= attacks@[b - 1]);
            } else {
                assert(out@[a] == attacks@[a - 1]);
                assert(out@[b] == attacks@[b - 1]);
            }
        }
    }
    Ok(out)
}

/// The matrix of one attack of a thrall.
pub fn thrall_matrix(hp: usize) -> (result: Result<TransitionMatrix, EngineError>)
    ensures
        hp == usize::MAX ==> result == Err::<TransitionMatrix, EngineError>(
            EngineError::TooManyStates,
        ),
        hp < usize::MAX ==> result is Ok,
        result matches Ok(m) ==> m.wf() && m@ == attack_matrix(
            DamageRoll::OneToMax,
            hp as int,
            THRALL_MAX_HIT as int,
            THRALL_ACCURACY as int,
        ),
{
    build_transition_matrix(hp, THRALL_MAX_HIT, THRALL_ACCURACY, DamageRoll::OneToMax)
}

/// The state at the end of tick `tick`, where the weapon attacks on the ticks that leave
/// 1 when divided by 5 and the thrall, after it, on those that leave 2 when divided by 4.
pub open spec fn tick_state(
    initial: Seq<u64>,
    weapon: Seq<Seq<u64>>,
    thrall: Seq<Seq<u64>>,
    tick: nat,
) -> Seq<u64>
    decreases tick,
{
    if tick == 0 {
        initial
    } else {
        let before = tick_state(initial, weapon, thrall, (tick - 1) as nat);
        let struck = if tick % 5 == 1 {
            stepped(before, weapon)
        } else {
            before
        };
        if tick % 4 == 2 {
            stepped(struck, thrall)
        } else {
            struck
        }
    }
}

/// `series[k]` is the probability of death at the end of tick `k + 1`, and the ticks
/// end with the first one that reaches `cap`, or when `budget` ticks have passed.
pub open spec fn is_tick_series(
    series: Seq<u64>,
    initial: Seq<u64>,
    weapon: Seq<Seq<u64>>,
    thrall: Seq<Seq<u64>>,
    cap: int,
    budget: int,
) -> bool {
    &&& series.len() <= budget
    &&& forall|k: int|
        0 <= k < series.len() ==> (#[trigger] series[k]) == tick_state(
            initial,
            weapon,
            thrall,
            (k + 1) as nat,
        )[0]
    &&& forall|k: nat|
        k < series.len() ==> (#[trigger] tick_state(initial, weapon, thrall, k))[0] < cap
    &&& (series.len() == budget || tick_state(initial, weapon, thrall, series.len())[0] >= cap)
}

/// The probability of death at the end of each tick for a weapon with a thrall at its
/// side, until it reaches `cap` or `max_ticks` ticks have passed.
pub fn weapon_and_thrall_kill_times(
    hp: usize,
    max_hit: usize,
    acc: u64,
    cap: u64,
    max_ticks: usize,
) -> (result: Result<Vec<u64>, EngineError>)
    ensures
        acc > ONE ==> result == Err::<Vec<u64>, EngineError>(EngineError::AccuracyOutOfRange),
        acc <= ONE && hp == usize::MAX ==> result == Err::<Vec<u64>, EngineError>(
            EngineError::TooManyStates,
        ),
        acc <= ONE && hp < usize::MAX ==> result is Ok,
        result matches Ok(series) ==> is_cumulative(series@) && is_tick_series(
            series@,
            point_mass(hp as int),
            attack_matrix(DamageRoll::OneToMax, hp as int, max_hit as int, acc as int),
            attack_matrix(
                DamageRoll::OneToMax,
                hp as int,
                THRALL_MAX_HIT as int,
                THRALL_ACCURACY as int,
            ),
            cap as int,
            max_ticks as int,
        ),
{
    let weapon: TransitionMatrix = match build_transition_matrix(
        hp,
        max_hit,
        acc,
        DamageRoll::OneToMax,
    ) {
        Ok(m) => m,
        Err(e) => {
            return Err(e);
        },
    };
    let thrall: TransitionMatrix = match thrall_matrix(hp) {
        Ok(m) => m,
        Err(e) => {
            return Err(e);
        },
    };
    let mut state: ProbabilityState = match ProbabilityState::at_full_health(hp) {
        Ok(s) => s,
        Err(e) => {
            return Err(e);
        },
    };
    let ghost initial: Seq<u64> = state@;
    let mut series: Vec<u64> = Vec::new();
    let mut p_dead: u64 = state.dead();
    while p_dead < cap && series.len() < max_ticks
        invariant
            weapon.wf(),
            thrall.wf(),
            state.wf(),
            state@.len() == weapon@.len(),
            state@.len() == thrall@.len(),
            state@ == tick_state(initial, weapon@, thrall@, series@.len()),
            p_dead == state@[0],
            p_dead <= ONE,
            series@.len() <= max_ticks,
            forall|k: int|
                0 <= k < series@.len() ==> (#[trigger] series@[k]) == tick_state(
                    initial,
                    weapon@,
                    thrall@,
                    (k + 1) as nat,
                )[0],
            forall|k: nat|
                k < series@.len() ==> (#[trigger] tick_state(initial, weapon@, thrall@, k))[0]
                    < cap,
            is_cumulative(series@),
            forall|k: int| 0 <= k < series@.len() ==> (#[trigger] series@[k]) <= p_dead,
        decreases max_ticks - series@.len(),
    {
        let tick: usize = series.len() + 1;
        if tick % WEAPON_PERIOD == 1 {
            match propagate_state(&state, &weapon) {
                Ok(next) => {
                    state = next;
                },
                Err(e) => {
                    return Err(e);
                },
            }
        }
        if tick % THRALL_PERIOD == 2 {
            match propagate_state(&state, &thrall) {
                Ok(next) => {
                    state = next;
                },
                Err(e) => {
                    return Err(e);
                },
            }
        }
        proof {
            assert(state@ == tick_state(initial, weapon@, thrall@, tick as nat));
        }
        p_dead = state.dead();
        series.push(p_dead);
    }
    Ok(series)
}

/// The probability of death after each attack of a weapon that hits for 0 up to
/// `max_hit`, until it reaches `cap` or `max_steps` attacks are made.
pub fn kill_time_distribution_matrix(
    hp: usize,
    max_hit: usize,
    accuracy: u64,
    cap: u64,
    max_steps: usize,
) -> (result: Result<Vec<u64>, EngineError>)
    ensures
        accuracy > ONE ==> result == Err::<Vec<u64>, EngineError>(
            EngineError::AccuracyOutOfRange,
        ),
        accuracy <= ONE && hp == usize::MAX ==> result == Err::<Vec<u64>, EngineError>(
            EngineError::TooManyStates,
        ),
        accuracy <= ONE && hp < usize::MAX ==> result is Ok,
        result matches Ok(series) ==> is_cumulative(series@) && is_attack_series(
            series@,
            point_mass(hp as int),
            attack_matrix(DamageRoll::ZeroToMax, hp as int, max_hit as int, accuracy as int),
            cap as int,
            max_steps as int,
        ),
{
    let matrix: TransitionMatrix = match build_transition_matrix(
        hp,
        max_hit,
        accuracy,
        DamageRoll::ZeroToMax,
    ) {
        Ok(m) => m,
        Err(e) => {
            return Err(e);
        },
    };
    let initial: ProbabilityState = match ProbabilityState::at_full_health(hp) {
        Ok(s) => s,
        Err(e) => {
            return Err(e);
        },
    };
    attack_series(&matrix, &initial, cap, max_steps)
}

} // verus!
