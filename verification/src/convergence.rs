//! Convergence: why repeated attacks kill.
//!
//! The hit points that the target is expected to have left, counted in units of mass,
//! never grow, and they shrink by at least one unit with every attack as long as some
//! living state holds enough mass to send a unit down. They cannot shrink for ever, so
//! after finitely many attacks all but a dust of mass, too small to move, is dead.

use vstd::prelude::*;
use vstd::arithmetic::div_mod::{lemma_fundamental_div_mod, lemma_div_is_ordered};
use crate::matrix::{
    DamageRoll, is_stochastic, attack_matrix, cell, roll_count, roll_share, roll_leftover, highest_roll,
    lemma_mass_below_step,
};
use crate::prob::{
    ONE, total, lemma_total_take, lemma_total_prefix_zero, lemma_total_single,
    lemma_scaled_bounds,
};
use crate::series::{dead_after, is_attack_series};
use crate::state::{
    is_distribution, stepped, stepped_by, point_mass, flow, inflow, outflow,
    lemma_flow_bounds, lemma_outflow, lemma_inflow_bounds, lemma_stepped_by,
};
use crate::theorems::{
    theorem_attack_matrix_is_stochastic, theorem_death_probability_never_decreases,
    lemma_cell_bounds,
};

verus! {

/// The hit points left, weighted by mass: the sum of `i * state[i]` over the states
/// below `upto`.
pub open spec fn remaining(state: Seq<u64>, upto: int) -> int
    decreases upto,
{
    if upto <= 0 {
        0
    } else {
        remaining(state, upto - 1) + (upto - 1) * state[upto - 1]
    }
}

/// The hit points that the mass leaving `from` has left where it lands, over the
/// landing states below `upto`.
pub open spec fn weighted_out(state: Seq<u64>, matrix: Seq<Seq<u64>>, from: int, upto: int) -> int
    decreases upto,
{
    if upto <= 0 {
        0
    } else {
        weighted_out(state, matrix, from, upto - 1) + (upto - 1) * flow(
            state,
            matrix,
            from,
            upto - 1,
        )
    }
}

/// The hit points left of the mass that has reached the states below `to_upto` from the
/// states below `from_upto`.
pub open spec fn weighted_in(
    state: Seq<u64>,
    matrix: Seq<Seq<u64>>,
    from_upto: int,
    to_upto: int,
) -> int
    decreases to_upto,
{
    if to_upto <= 0 {
        0
    } else {
        weighted_in(state, matrix, from_upto, to_upto - 1) + (to_upto - 1) * inflow(
            state,
            matrix,
            to_upto - 1,
            from_upto,
        )
    }
}

/// The mass that steps down by one hit point, from the living states below `upto`.
pub open spec fn descent(state: Seq<u64>, matrix: Seq<Seq<u64>>, upto: int) -> int
    decreases upto,
{
    if upto <= 1 {
        0
    } else {
        descent(state, matrix, upto - 1) + flow(state, matrix, upto - 1, upto - 2)
    }
}

/// No attack adds hit points: the matrix is zero above the diagonal.
pub open spec fn is_downward(matrix: Seq<Seq<u64>>) -> bool {
    forall|i: int, j: int|
        0 <= i < j < matrix.len() ==> (#[trigger] matrix[i][j]) == 0
}

/// The least probability with which an attack takes exactly one hit point, in units.
pub open spec fn least_share(max_hit: int, accuracy: int) -> int {
    accuracy / (max_hit + 1)
}

/// The most mass that a living state can hold without sending any of it down.
pub open spec fn dust(max_hit: int, accuracy: int) -> int {
    (ONE as int) / least_share(max_hit, accuracy)
}

/// Counting one more source adds the hit points of what that source sends.
proof fn lemma_weighted_in_step(
    state: Seq<u64>,
    matrix: Seq<Seq<u64>>,
    from_upto: int,
    to_upto: int,
)
    requires
        0 <= from_upto,
        0 <= to_upto,
    ensures
        weighted_in(state, matrix, from_upto + 1, to_upto) == weighted_in(
            state,
            matrix,
            from_upto,
            to_upto,
        ) + weighted_out(state, matrix, from_upto, to_upto),
    decreases to_upto,
{
    if to_upto > 0 {
        lemma_weighted_in_step(state, matrix, from_upto, to_upto - 1);
        let j = to_upto - 1;
        let a = inflow(state, matrix, j, from_upto);
        let b = flow(state, matrix, from_upto, j);
        assert(j * (a + b) == j * a + j * b) by (nonlinear_arith);
    }
}

/// Before any source is counted nothing has arrived.
proof fn lemma_weighted_in_nothing(state: Seq<u64>, matrix: Seq<Seq<u64>>, to_upto: int)
    ensures
        weighted_in(state, matrix, 0, to_upto) == 0,
    decreases to_upto,
{
    if to_upto > 0 {
        lemma_weighted_in_nothing(state, matrix, to_upto - 1);
        assert((to_upto - 1) * 0 == 0) by (nonlinear_arith);
    }
}

/// The mass that leaves a state lands no higher than the state, and what steps down by
/// one lands one lower.
proof fn lemma_weighted_out_bound(state: Seq<u64>, matrix: Seq<Seq<u64>>, from: int, upto: int)
    requires
        is_stochastic(matrix),
        is_downward(matrix),
        state.len() == matrix.len(),
        0 <= from < state.len(),
        0 <= upto <= state.len(),
    ensures
        weighted_out(state, matrix, from, upto) <= from * outflow(state, matrix, from, upto)
            - if from >= 1 && upto >= from {
            flow(state, matrix, from, from - 1)
        } else {
            0
        },
    decreases upto,
{
    if upto > 0 {
        lemma_weighted_out_bound(state, matrix, from, upto - 1);
        let j = upto - 1;
        let f = flow(state, matrix, from, j);
        let before = outflow(state, matrix, from, j);
        lemma_flow_bounds(state, matrix, from, j);
        assert(from * (before + f) == from * before + from * f) by (nonlinear_arith);
        if j > from {
            assert(matrix[from][j] == 0);
            lemma_scaled_bounds(state[from] as int, 0);
            assert(j * f == 0) by (nonlinear_arith)
                requires
                    f == 0,
            ;
            assert(from * f == 0) by (nonlinear_arith)
                requires
                    f == 0,
            ;
        } else if j == from - 1 {
            assert(j * f == from * f - f) by (nonlinear_arith)
                requires
                    j == from - 1,
            ;
        } else {
            assert(j * f <= from * f) by (nonlinear_arith)
                requires
                    0 <= j <= from,
                    0 <= f,
            ;
        }
    } else {
        assert(from * 0 == 0) by (nonlinear_arith);
    }
}

/// After an attack the mass that came from the states counted so far has no more hit
/// points left than it had, less what stepped down.
proof fn lemma_weighted_in_bound(state: Seq<u64>, matrix: Seq<Seq<u64>>, from_upto: int)
    requires
        is_stochastic(matrix),
        is_downward(matrix),
        state.len() == matrix.len(),
        0 <= from_upto <= state.len(),
    ensures
        weighted_in(state, matrix, from_upto, state.len() as int) <= remaining(state, from_upto)
            - descent(state, matrix, from_upto),
    decreases from_upto,
{
    let n = state.len() as int;
    if from_upto == 0 {
        lemma_weighted_in_nothing(state, matrix, n);
    } else {
        let from = from_upto - 1;
        lemma_weighted_in_bound(state, matrix, from);
        lemma_weighted_in_step(state, matrix, from, n);
        lemma_weighted_out_bound(state, matrix, from, n);
        lemma_outflow(state, matrix, from, n);
    }
}

/// The hit points left of the next state, in terms of what arrived.
proof fn lemma_remaining_stepped(state: Seq<u64>, matrix: Seq<Seq<u64>>, upto: int)
    requires
        is_stochastic(matrix),
        state.len() == matrix.len(),
        total(state) <= u64::MAX,
        0 <= upto <= state.len(),
    ensures
        remaining(stepped(state, matrix), upto) == weighted_in(
            state,
            matrix,
            state.len() as int,
            upto,
        ),
    decreases upto,
{
    if upto > 0 {
        lemma_remaining_stepped(state, matrix, upto - 1);
        lemma_inflow_bounds(state, matrix, upto - 1, state.len() as int);
        assert(state.take(state.len() as int) =~= state);
    }
}

/// What steps down is never negative, and no less than what steps down from any one
/// living state.
proof fn lemma_descent_bound(state: Seq<u64>, matrix: Seq<Seq<u64>>, upto: int, from: int)
    requires
        is_stochastic(matrix),
        state.len() == matrix.len(),
        0 <= upto <= state.len(),
    ensures
        0 <= descent(state, matrix, upto),
        1 <= from < upto ==> flow(state, matrix, from, from - 1) <= descent(state, matrix, upto),
    decreases upto,
{
    if upto > 1 {
        lemma_descent_bound(state, matrix, upto - 1, from);
        lemma_flow_bounds(state, matrix, upto - 1, upto - 2);
    }
}

/// An attack never adds to the hit points left, and takes from them all that steps down.
pub proof fn lemma_remaining_shrinks(state: Seq<u64>, matrix: Seq<Seq<u64>>)
    requires
        is_stochastic(matrix),
        is_downward(matrix),
        state.len() == matrix.len(),
        total(state) <= u64::MAX,
    ensures
        remaining(stepped(state, matrix), state.len() as int) <= remaining(
            state,
            state.len() as int,
        ) - descent(state, matrix, state.len() as int),
        0 <= descent(state, matrix, state.len() as int),
{
    let n = state.len() as int;
    lemma_remaining_stepped(state, matrix, n);
    lemma_weighted_in_bound(state, matrix, n);
    lemma_descent_bound(state, matrix, n, 0);
}

/// The hit points left are never negative.
proof fn lemma_remaining_nonneg(state: Seq<u64>, upto: int)
    requires
        0 <= upto <= state.len(),
    ensures
        0 <= remaining(state, upto),
    decreases upto,
{
    if upto > 0 {
        lemma_remaining_nonneg(state, upto - 1);
        assert(0 <= (upto - 1) * state[upto - 1]) by (nonlinear_arith)
            requires
                0 <= upto - 1,
                0 <= state[upto - 1],
        ;
    }
}

/// A target at full health has all its hit points left.
proof fn lemma_remaining_point_mass(hp: int, upto: int)
    requires
        0 <= hp,
        0 <= upto <= hp + 1,
    ensures
        remaining(point_mass(hp), upto) == if upto == hp + 1 {
            hp * ONE
        } else {
            0
        },
    decreases upto,
{
    if upto > 0 {
        lemma_remaining_point_mass(hp, upto - 1);
        if upto - 1 < hp {
            assert((upto - 1) * 0 == 0) by (nonlinear_arith);
        }
    }
}

/// Where no living state holds more than `most`, all but that much per living state
/// is dead.
proof fn lemma_little_alive(state: Seq<u64>, most: int, upto: int)
    requires
        1 <= upto <= state.len(),
        0 <= most,
        forall|i: int| 1 <= i < state.len() ==> #[trigger] state[i] <= most,
    ensures
        total(state.take(upto)) <= state[0] + (upto - 1) * most,
    decreases upto,
{
    lemma_total_take(state, upto - 1);
    if upto == 1 {
        lemma_total_prefix_zero(state);
        assert(0 * most == 0) by (nonlinear_arith);
    } else {
        lemma_little_alive(state, most, upto - 1);
        assert((upto - 1) * most == (upto - 2) * most + most) by (nonlinear_arith);
    }
}

/// The matrix of an attack never adds hit points.
proof fn lemma_attack_matrix_is_downward(roll: DamageRoll, hp: int, max_hit: int, accuracy: int)
    requires
        0 <= hp,
        0 <= max_hit,
        0 <= accuracy <= ONE,
    ensures
        is_downward(attack_matrix(roll, hp, max_hit, accuracy)),
{
    let matrix = attack_matrix(roll, hp, max_hit, accuracy);
    assert forall|i: int, j: int| 0 <= i < j < matrix.len() implies (#[trigger] matrix[i][j])
        == 0 by {
        assert(matrix[i][j] == cell(roll, max_hit, accuracy, i, j));
    }
}

/// An attack takes exactly one hit point from any living target with at least the
/// least share of probability.
proof fn lemma_step_down_share(roll: DamageRoll, max_hit: int, accuracy: int, from: int)
    requires
        1 <= max_hit,
        max_hit + 1 <= accuracy <= ONE,
        1 <= from,
    ensures
        cell(roll, max_hit, accuracy, from, from - 1) >= least_share(max_hit, accuracy),
        least_share(max_hit, accuracy) >= 1,
{
    let count = roll_count(roll, max_hit, from);
    let hi = highest_roll(roll, max_hit, from);
    let share = roll_share(roll, max_hit, accuracy, from);
    let leftover = roll_leftover(roll, max_hit, accuracy, from);
    assert(1 <= count <= max_hit + 1);
    lemma_mass_below_step(roll, max_hit, accuracy, from, 1);
    lemma_fundamental_div_mod(accuracy, max_hit + 1);
    let least = accuracy / (max_hit + 1);
    assert(least >= 1) by (nonlinear_arith)
        requires
            accuracy == (max_hit + 1) * least + accuracy % (max_hit + 1),
            accuracy % (max_hit + 1) < max_hit + 1,
            accuracy >= max_hit + 1,
            max_hit + 1 > 0,
    ;
    lemma_fundamental_div_mod(accuracy, count);
    assert(share >= least) by (nonlinear_arith)
        requires
            accuracy == count * share + accuracy % count,
            0 <= accuracy % count < count,
            accuracy == (max_hit + 1) * least + accuracy % (max_hit + 1),
            0 <= accuracy % (max_hit + 1) < max_hit + 1,
            1 <= count <= max_hit + 1,
            least >= 0,
    ;
    if from == 1 {
        assert(share * (hi - from + 1) >= share) by (nonlinear_arith)
            requires
                share >= 0,
                hi - from + 1 >= 1,
        ;
    }
}

/// A living state that holds more than the dust sends at least one unit a hit point down.
proof fn lemma_above_dust_descends(
    roll: DamageRoll,
    hp: int,
    max_hit: int,
    accuracy: int,
    state: Seq<u64>,
    from: int,
)
    requires
        1 <= hp,
        1 <= max_hit,
        max_hit + 1 <= accuracy <= ONE,
        state.len() == hp + 1,
        1 <= from <= hp,
        state[from] > dust(max_hit, accuracy),
    ensures
        flow(state, attack_matrix(roll, hp, max_hit, accuracy), from, from - 1) >= 1,
{
    let matrix = attack_matrix(roll, hp, max_hit, accuracy);
    let one = ONE as int;
    let least = least_share(max_hit, accuracy);
    let held = state[from] as int;
    let entry = matrix[from][from - 1] as int;
    lemma_step_down_share(roll, max_hit, accuracy, from);
    lemma_cell_bounds(roll, max_hit, accuracy, from, from - 1);
    assert(entry == cell(roll, max_hit, accuracy, from, from - 1));
    lemma_fundamental_div_mod(one, least);
    let d = one / least;
    assert(held * entry >= one) by (nonlinear_arith)
        requires
            held >= d + 1,
            entry >= least,
            least >= 1,
            one == least * d + one % least,
            0 <= one % least < least,
            d >= 0,
    ;
    lemma_div_is_ordered(one, held * entry, one);
    assert(one / one == 1) by (nonlinear_arith)
        requires
            one == 1_000_000_000_000_000_000,
    ;
}

/// As long as the death probability is short of certainty by more than the dust of
/// every living state, an attack takes at least one unit of the hit points left.
proof fn lemma_progress(roll: DamageRoll, hp: int, max_hit: int, accuracy: int, state: Seq<u64>)
    requires
        1 <= hp,
        1 <= max_hit,
        max_hit + 1 <= accuracy <= ONE,
        is_distribution(state),
        state.len() == hp + 1,
        state[0] < ONE - hp * dust(max_hit, accuracy),
    ensures
        remaining(stepped(state, attack_matrix(roll, hp, max_hit, accuracy)), hp + 1)
            <= remaining(state, hp + 1) - 1,
{
    let matrix = attack_matrix(roll, hp, max_hit, accuracy);
    let most = dust(max_hit, accuracy);
    lemma_step_down_share(roll, max_hit, accuracy, 1);
    assert(0 <= most) by (nonlinear_arith)
        requires
            most == (ONE as int) / least_share(max_hit, accuracy),
            least_share(max_hit, accuracy) >= 1,
    ;
    theorem_attack_matrix_is_stochastic(roll, hp, max_hit, accuracy);
    lemma_attack_matrix_is_downward(roll, hp, max_hit, accuracy);
    lemma_remaining_shrinks(state, matrix);
    if forall|i: int| 1 <= i < state.len() ==> #[trigger] state[i] <= most {
        lemma_little_alive(state, most, hp + 1);
        assert(state.take(hp + 1) =~= state);
    } else {
        let from = choose|i: int| 1 <= i < state.len() && !(#[trigger] state[i] <= most);
        lemma_above_dust_descends(roll, hp, max_hit, accuracy, state, from);
        lemma_descent_bound(state, matrix, hp + 1, from);
    }
}

/// As long as the death probability is short of certainty by more than the dust, every
/// attack made so far has taken a unit of the hit points left.
proof fn lemma_progress_so_far(
    roll: DamageRoll,
    hp: int,
    max_hit: int,
    accuracy: int,
    attacks: nat,
)
    requires
        1 <= hp,
        1 <= max_hit,
        max_hit + 1 <= accuracy <= ONE,
        attacks >= 1,
        dead_after(
            point_mass(hp),
            attack_matrix(roll, hp, max_hit, accuracy),
            (attacks - 1) as nat,
        ) < ONE - hp * dust(max_hit, accuracy),
    ensures
        remaining(
            stepped_by(point_mass(hp), attack_matrix(roll, hp, max_hit, accuracy), attacks),
            hp + 1,
        ) <= hp * ONE - attacks,
    decreases attacks,
{
    let matrix = attack_matrix(roll, hp, max_hit, accuracy);
    let start = point_mass(hp);
    let before = stepped_by(start, matrix, (attacks - 1) as nat);
    theorem_attack_matrix_is_stochastic(roll, hp, max_hit, accuracy);
    lemma_total_single(start, hp);
    lemma_stepped_by(start, matrix, (attacks - 1) as nat);
    lemma_progress(roll, hp, max_hit, accuracy, before);
    if attacks == 1 {
        lemma_remaining_point_mass(hp, hp + 1);
    } else {
        theorem_death_probability_never_decreases(
            start,
            matrix,
            (attacks - 2) as nat,
            (attacks - 1) as nat,
        );
        lemma_progress_so_far(roll, hp, max_hit, accuracy, (attacks - 1) as nat);
    }
}

/// Convergence: with a maximum hit above 0 and an accuracy of at least one unit per
/// damage value, repeated attacks drive the death probability up to certainty less the
/// dust of every living state, and it stays there. The series therefore exceeds every
/// cap below that within finitely many attacks.
pub proof fn theorem_death_probability_converges(
    roll: DamageRoll,
    hp: int,
    max_hit: int,
    accuracy: int,
    attacks: nat,
)
    requires
        1 <= hp,
        1 <= max_hit,
        max_hit + 1 <= accuracy <= ONE,
        attacks > hp * ONE,
    ensures
        dead_after(point_mass(hp), attack_matrix(roll, hp, max_hit, accuracy), attacks) >= ONE
            - hp * dust(max_hit, accuracy),
{
    let matrix = attack_matrix(roll, hp, max_hit, accuracy);
    let start = point_mass(hp);
    theorem_attack_matrix_is_stochastic(roll, hp, max_hit, accuracy);
    lemma_total_single(start, hp);
    if dead_after(start, matrix, attacks) < ONE - hp * dust(max_hit, accuracy) {
        theorem_death_probability_never_decreases(start, matrix, (attacks - 1) as nat, attacks);
        lemma_progress_so_far(roll, hp, max_hit, accuracy, attacks);
        lemma_stepped_by(start, matrix, attacks);
        lemma_remaining_nonneg(stepped_by(start, matrix, attacks), hp + 1);
        assert(hp * ONE >= 0) by (nonlinear_arith)
            requires
                hp >= 0,
        ;
    }
}

/// A budget for every cap within reach: with a maximum hit above 0 and an accuracy of
/// at least one unit per damage value, a series that may take more than `hp * ONE`
/// attacks ends on an entry that has reached the cap, for every cap above 0 that is no
/// closer to certainty than the dust of the living states.
pub proof fn theorem_budget_reaches_cap(
    roll: DamageRoll,
    hp: int,
    max_hit: int,
    accuracy: int,
    cap: int,
    budget: int,
    series: Seq<u64>,
)
    requires
        1 <= hp,
        1 <= max_hit,
        max_hit + 1 <= accuracy <= ONE,
        0 < cap <= ONE - hp * dust(max_hit, accuracy),
        budget > hp * ONE,
        is_attack_series(
            series,
            point_mass(hp),
            attack_matrix(roll, hp, max_hit, accuracy),
            cap,
            budget,
        ),
    ensures
        series.len() >= 1,
        series.last() >= cap,
{
    let matrix = attack_matrix(roll, hp, max_hit, accuracy);
    let start = point_mass(hp);
    assert(hp * ONE >= 0) by (nonlinear_arith)
        requires
            hp >= 0,
    ;
    assert(dead_after(start, matrix, 0) == 0);
    if series.len() == budget {
        theorem_death_probability_converges(roll, hp, max_hit, accuracy, series.len());
    }
    assert(series[series.len() - 1] == dead_after(start, matrix, series.len()));
}

} // verus!
