//! What holds of the chain whatever the target and the weapon: statements over the
//! models of matrix, state and series, each proved once and for all inputs.

use vstd::prelude::*;
use vstd::arithmetic::div_mod::lemma_div_multiples_vanish;
use crate::compose::{
    convolved, convolution_sum, product_at, composed, differences, prefix_sums,
    lemma_differences_total,
};
use crate::matrix::{
    DamageRoll, is_stochastic, attack_matrix, cell, roll_count, mass_below, lemma_mass_below_step,
    lemma_overkill, slowed, slowed_cell, thinned, lemma_thinned_bound, lemma_thinned_zero,
};
use crate::prob::{
    ONE, total, lemma_total_take, lemma_total_prefix_zero, lemma_total_single, lemma_total_two,
    lemma_scaled_bounds,
};
use crate::series::{dead_after, is_cumulative};
use crate::state::{
    is_distribution, stepped, stepped_by, point_mass, flow, inflow,
    lemma_stepped, lemma_stepped_by, lemma_sent_zero, lemma_sent_bound,
};
use crate::vasa::{healed, lemma_heal_keeps_dead};

verus! {

/// Every entry of the matrix of an attack is a probability.
pub proof fn lemma_cell_bounds(roll: DamageRoll, max_hit: int, accuracy: int, from: int, to: int)
    requires
        0 <= max_hit,
        0 <= accuracy <= ONE,
        0 <= from,
        0 <= to,
    ensures
        0 <= cell(roll, max_hit, accuracy, from, to) <= ONE,
{
    if from >= 1 && roll_count(roll, max_hit, from) > 0 {
        lemma_mass_below_step(roll, max_hit, accuracy, from, 0);
        lemma_overkill(roll, max_hit, accuracy, from);
        if 0 < to < from {
            lemma_mass_below_step(roll, max_hit, accuracy, from, from - to);
        }
    }
}

/// The entries of a row of the matrix of an attack, summed up to any of them: first
/// the rolls that kill, then the rolls that wound from the heaviest down, and with the
/// diagonal all of certainty.
proof fn lemma_row_prefix(
    roll: DamageRoll,
    hp: int,
    max_hit: int,
    accuracy: int,
    from: int,
    upto: int,
)
    requires
        0 <= max_hit,
        0 <= accuracy <= ONE,
        1 <= from <= hp,
        roll_count(roll, max_hit, from) > 0,
        0 <= upto <= hp + 1,
    ensures
        total(attack_matrix(roll, hp, max_hit, accuracy)[from].take(upto)) == if upto == 0 {
            0
        } else if upto <= from {
            accuracy - mass_below(roll, max_hit, accuracy, from, from - upto + 1)
        } else {
            ONE as int
        },
    decreases upto,
{
    let row = attack_matrix(roll, hp, max_hit, accuracy)[from];
    if upto == 0 {
        lemma_total_prefix_zero(row);
    } else {
        lemma_row_prefix(roll, hp, max_hit, accuracy, from, upto - 1);
        lemma_total_take(row, upto - 1);
        lemma_cell_bounds(roll, max_hit, accuracy, from, upto - 1);
        assert(row[upto - 1] == cell(roll, max_hit, accuracy, from, upto - 1));
        if upto == 1 {
            lemma_overkill(roll, max_hit, accuracy, from);
        } else if upto <= from {
            lemma_mass_below_step(roll, max_hit, accuracy, from, from - upto + 1);
        } else if upto == from + 1 {
            lemma_mass_below_step(roll, max_hit, accuracy, from, 0);
        }
    }
}

/// Stochasticity: the matrix of any attack is square, each of its rows sums to exactly
/// `ONE`, and its dead state is absorbing.
pub proof fn theorem_attack_matrix_is_stochastic(
    roll: DamageRoll,
    hp: int,
    max_hit: int,
    accuracy: int,
)
    requires
        0 <= hp,
        0 <= max_hit,
        0 <= accuracy <= ONE,
    ensures
        is_stochastic(attack_matrix(roll, hp, max_hit, accuracy)),
        attack_matrix(roll, hp, max_hit, accuracy).len() == hp + 1,
{
    let matrix = attack_matrix(roll, hp, max_hit, accuracy);
    assert forall|i: int| 0 <= i < matrix.len() implies total(#[trigger] matrix[i]) == ONE by {
        let row = matrix[i];
        if i == 0 || roll_count(roll, max_hit, i) <= 0 {
            assert forall|j: int| 0 <= j < row.len() && j != i implies row[j] == 0 by {
                assert(row[j] == cell(roll, max_hit, accuracy, i, j));
            }
            assert(row[i] == cell(roll, max_hit, accuracy, i, i));
            lemma_total_single(row, i);
        } else {
            lemma_row_prefix(roll, hp, max_hit, accuracy, i, hp + 1);
            assert(row.take(hp + 1) =~= row);
        }
    }
    assert(matrix[0][0] == cell(roll, max_hit, accuracy, 0, 0));
}

/// The entries of a row of a per-tick matrix, summed up to any of them.
proof fn lemma_slowed_prefix(matrix: Seq<Seq<u64>>, speed: int, from: int, upto: int)
    requires
        is_stochastic(matrix),
        speed >= 1,
        0 <= from < matrix.len(),
        0 <= upto <= matrix.len(),
    ensures
        total(slowed(matrix, speed)[from].take(upto)) == thinned(matrix[from], from, speed, upto)
            + if upto > from {
            ONE - thinned(matrix[from], from, speed, matrix.len() as int)
        } else {
            0
        },
    decreases upto,
{
    let row = slowed(matrix, speed)[from];
    let n = matrix.len() as int;
    if upto == 0 {
        lemma_total_prefix_zero(row);
    } else {
        lemma_slowed_prefix(matrix, speed, from, upto - 1);
        lemma_total_take(row, upto - 1);
        lemma_thinned_bound(matrix[from], from, speed, n);
        assert(matrix[from].take(n) =~= matrix[from]);
        let entry = matrix[from][upto - 1] as int;
        assert(0 <= entry / speed <= entry) by (nonlinear_arith)
            requires
                0 <= entry,
                speed >= 1,
        ;
        assert(row[upto - 1] == slowed_cell(matrix, speed, from, upto - 1));
    }
}

/// Stochasticity of the per-tick matrix: spreading an attack over the ticks of its
/// attack speed leaves a stochastic matrix stochastic.
pub proof fn theorem_slowed_matrix_is_stochastic(matrix: Seq<Seq<u64>>, speed: int)
    requires
        is_stochastic(matrix),
        speed >= 1,
    ensures
        is_stochastic(slowed(matrix, speed)),
        slowed(matrix, speed).len() == matrix.len(),
{
    let slow = slowed(matrix, speed);
    let n = matrix.len() as int;
    assert forall|i: int| 0 <= i < slow.len() implies total(#[trigger] slow[i]) == ONE by {
        lemma_slowed_prefix(matrix, speed, i, n);
        assert(slow[i].take(n) =~= slow[i]);
    }
    let first = matrix[0];
    assert forall|j: int| 1 <= j < first.len() implies first[j] == 0 by {
        lemma_total_two(first, 0, j);
    }
    lemma_thinned_zero(first, 0, speed, n);
    assert(slow[0][0] == slowed_cell(matrix, speed, 0, 0));
}

/// Conservation: an attack moves probability mass between the states and neither makes
/// nor loses any, so that a distribution stays one however many attacks are made.
pub proof fn theorem_mass_is_conserved(state: Seq<u64>, matrix: Seq<Seq<u64>>, attacks: nat)
    requires
        is_stochastic(matrix),
        is_distribution(state),
        state.len() == matrix.len(),
    ensures
        is_distribution(stepped_by(state, matrix, attacks)),
{
    lemma_stepped_by(state, matrix, attacks);
}

/// Absorption and monotonicity: the probability of death after more attacks is no less
/// than after fewer, and never more than `ONE`.
pub proof fn theorem_death_probability_never_decreases(
    state: Seq<u64>,
    matrix: Seq<Seq<u64>>,
    fewer: nat,
    more: nat,
)
    requires
        is_stochastic(matrix),
        is_distribution(state),
        state.len() == matrix.len(),
        fewer <= more,
    ensures
        0 <= dead_after(state, matrix, fewer) <= dead_after(state, matrix, more) <= ONE,
    decreases more - fewer,
{
    lemma_stepped_by(state, matrix, more);
    if fewer < more {
        theorem_death_probability_never_decreases(state, matrix, fewer, (more - 1) as nat);
        lemma_stepped_by(state, matrix, (more - 1) as nat);
        lemma_stepped(stepped_by(state, matrix, (more - 1) as nat), matrix);
    }
}

/// Absorption under healing: a heal moves the living up and leaves the dead state
/// exactly what it held.
pub proof fn theorem_heal_spares_the_dead(state: Seq<u64>, heal: int)
    requires
        state.len() >= 1,
        0 <= heal,
    ensures
        healed(state, heal)[0] == state[0],
{
    lemma_heal_keeps_dead(state, heal, state.len() as int);
}

/// The sum that convolution with the point mass takes for entry `k`: the one product
/// with `i == k`.
proof fn lemma_point_mass_sum(pmf: Seq<u64>, k: int, upto: int)
    requires
        0 <= k < pmf.len(),
        0 <= upto <= pmf.len(),
    ensures
        convolution_sum(pmf, seq![ONE], k, upto) == if k < upto {
            pmf[k] * ONE
        } else {
            0
        },
    decreases upto,
{
    if upto > 0 {
        lemma_point_mass_sum(pmf, k, upto - 1);
        assert(product_at(pmf, seq![ONE], upto - 1, k) == if upto - 1 == k {
            pmf[k] * ONE
        } else {
            0
        });
    }
}

/// Convolution identity: convolving a mass function with the point mass at step 0
/// gives the mass function back, whichever of the two comes first.
pub proof fn theorem_point_mass_is_neutral(pmf: Seq<u64>)
    ensures
        convolved(pmf, seq![ONE]) == pmf,
        convolved(seq![ONE], pmf) == pmf,
{
    let unit = seq![ONE];
    let right = convolved(pmf, unit);
    assert(right.len() == pmf.len());
    assert forall|k: int| 0 <= k < pmf.len() implies right[k] == pmf[k] by {
        lemma_point_mass_sum(pmf, k, pmf.len() as int);
        lemma_div_multiples_vanish(pmf[k] as int, ONE as int);
        assert(pmf[k] * ONE == ONE * pmf[k]) by (nonlinear_arith);
    }
    assert(right =~= pmf);
    let left = convolved(unit, pmf);
    assert(left.len() == pmf.len());
    assert forall|k: int| 0 <= k < pmf.len() implies left[k] == pmf[k] by {
        assert(convolution_sum(unit, pmf, k, 1) == convolution_sum(unit, pmf, k, 0) + product_at(
            unit,
            pmf,
            0,
            k,
        ));
        lemma_div_multiples_vanish(pmf[k] as int, ONE as int);
    }
    assert(left =~= pmf);
}

/// Convolution identity for series: composing a kill-time series with the series of a
/// target that is dead from the start gives the series back.
pub proof fn theorem_dead_target_composes_neutrally(cdf: Seq<u64>)
    requires
        is_cumulative(cdf),
    ensures
        composed(cdf, seq![ONE]) == cdf,
{
    let unit = seq![ONE];
    assert(differences(unit) =~= unit);
    theorem_point_mass_is_neutral(differences(cdf));
    let back = prefix_sums(differences(cdf));
    assert forall|k: int| 0 <= k < cdf.len() implies back[k] == cdf[k] by {
        lemma_differences_total(cdf, k + 1);
    }
    assert(back =~= cdf);
}

/// With a matrix that is zero off the diagonal, all that reaches a state is what the
/// state itself held.
proof fn lemma_identity_inflow(state: Seq<u64>, matrix: Seq<Seq<u64>>, to: int, upto: int)
    requires
        is_stochastic(matrix),
        state.len() == matrix.len(),
        forall|i: int, j: int|
            0 <= i < matrix.len() && 0 <= j < matrix.len() && i != j ==> (
            #[trigger] matrix[i][j]) == 0,
        0 <= to < state.len(),
        0 <= upto <= state.len(),
    ensures
        inflow(state, matrix, to, upto) == if to < upto {
            state[to] as int
        } else {
            0
        },
    decreases upto,
{
    if upto > 0 {
        lemma_identity_inflow(state, matrix, to, upto - 1);
        let from = upto - 1;
        if from == to {
            assert forall|j: int| 0 <= j < matrix[from].len() && j != from implies matrix[from][j]
                == 0 by {
                assert(matrix[from][j] == 0);
            }
            lemma_sent_zero(state[from] as int, matrix[from], from, matrix[from].len() as int);
        } else {
            assert(matrix[from][to] == 0);
            lemma_scaled_bounds(state[from] as int, 0);
        }
    }
}

/// Degenerate case, no damage: a weapon whose maximum hit is 0 never kills. Whatever
/// its accuracy and however many attacks it makes, the death probability of a living
/// target stays 0.
pub proof fn theorem_no_damage_no_death(roll: DamageRoll, hp: int, accuracy: int, attacks: nat)
    requires
        1 <= hp,
        0 <= accuracy <= ONE,
    ensures
        stepped_by(point_mass(hp), attack_matrix(roll, hp, 0, accuracy), attacks) == point_mass(
            hp,
        ),
        dead_after(point_mass(hp), attack_matrix(roll, hp, 0, accuracy), attacks) == 0,
    decreases attacks,
{
    let matrix = attack_matrix(roll, hp, 0, accuracy);
    let start = point_mass(hp);
    if attacks > 0 {
        theorem_no_damage_no_death(roll, hp, accuracy, (attacks - 1) as nat);
        theorem_attack_matrix_is_stochastic(roll, hp, 0, accuracy);
        lemma_total_single(start, hp);
        assert forall|i: int, j: int|
            0 <= i < matrix.len() && 0 <= j < matrix.len() && i != j implies (
        #[trigger] matrix[i][j]) == 0 by {
            assert(matrix[i][j] == cell(roll, 0, accuracy, i, j));
            if i >= 1 && roll_count(roll, 0, i) > 0 {
                lemma_mass_below_step(roll, 0, accuracy, i, 0);
            }
        }
        let next = stepped(start, matrix);
        assert forall|j: int| 0 <= j < start.len() implies next[j] == start[j] by {
            lemma_identity_inflow(start, matrix, j, start.len() as int);
        }
        assert(next =~= start);
    }
}

/// Degenerate case, certain kill: against a target with one hit point, a weapon that
/// always hits and always damages kills with the first attack.
pub proof fn theorem_certain_hit_kills_last_hit_point(roll: DamageRoll, max_hit: int)
    requires
        roll != DamageRoll::ZeroToMax,
        1 <= max_hit,
    ensures
        dead_after(point_mass(1), attack_matrix(roll, 1, max_hit, ONE as int), 1) == ONE,
{
    let matrix = attack_matrix(roll, 1, max_hit, ONE as int);
    let start = point_mass(1);
    theorem_attack_matrix_is_stochastic(roll, 1, max_hit, ONE as int);
    lemma_overkill(roll, max_hit, ONE as int, 1);
    assert(matrix[1][0] == cell(roll, max_hit, ONE as int, 1, 0));
    assert(matrix[1][0] == ONE);
    lemma_scaled_bounds(ONE as int, ONE as int);
    lemma_sent_bound(0, matrix[0], 0, matrix[0].len() as int);
    assert(stepped_by(start, matrix, 1) == stepped(stepped_by(start, matrix, 0), matrix));
    assert(inflow(start, matrix, 0, 2) == inflow(start, matrix, 0, 1) + flow(start, matrix, 1, 0));
    assert(inflow(start, matrix, 0, 1) == inflow(start, matrix, 0, 0) + flow(start, matrix, 0, 0));
}

} // verus!
