//! Probability states of the hit-point chain, and their propagation by one attack.

use vstd::prelude::*;
use crate::error::EngineError;
use crate::matrix::{TransitionMatrix, is_stochastic, zeros};
use crate::prob::{
    ONE, total, scaled, mul_floor, lemma_scaled_bounds, lemma_total_update, lemma_total_take,
    lemma_total_bounds, lemma_total_single, lemma_total_two, lemma_total_prefix_zero,
};

verus! {

/// What a state holding `held` sends along `row` to the states below `upto`, its own
/// state `own` excepted: for each of them the fixed-point product, rounded down.
pub open spec fn sent(held: int, row: Seq<u64>, own: int, upto: int) -> int
    decreases upto,
{
    if upto <= 0 {
        0
    } else {
        sent(held, row, own, upto - 1) + if upto - 1 == own {
            0
        } else {
            scaled(held, row[upto - 1] as int)
        }
    }
}

/// The mass that moves from state `from` to state `to` in one attack. What the
/// rounding of the other entries leaves over stays where it was, so that the mass
/// leaving a state is exactly the mass it held.
pub open spec fn flow(state: Seq<u64>, matrix: Seq<Seq<u64>>, from: int, to: int) -> int {
    if to == from {
        state[from] - sent(state[from] as int, matrix[from], from, matrix[from].len() as int)
    } else {
        scaled(state[from] as int, matrix[from][to] as int)
    }
}

/// The mass that reaches `to` from the states below `upto`.
pub open spec fn inflow(state: Seq<u64>, matrix: Seq<Seq<u64>>, to: int, upto: int) -> int
    decreases upto,
{
    if upto <= 0 {
        0
    } else {
        inflow(state, matrix, to, upto - 1) + flow(state, matrix, upto - 1, to)
    }
}

/// The state after one attack: `next[j]` is the sum over `i` of the mass that moves
/// from `i` to `j`.
pub open spec fn stepped(state: Seq<u64>, matrix: Seq<Seq<u64>>) -> Seq<u64> {
    Seq::new(state.len(), |j: int| inflow(state, matrix, j, state.len() as int) as u64)
}

/// The state after `count` attacks with the same matrix.
pub open spec fn stepped_by(state: Seq<u64>, matrix: Seq<Seq<u64>>, count: nat) -> Seq<u64>
    decreases count,
{
    if count == 0 {
        state
    } else {
        stepped(stepped_by(state, matrix, (count - 1) as nat), matrix)
    }
}

/// A state that is a probability distribution over the states of a chain.
pub open spec fn is_distribution(state: Seq<u64>) -> bool {
    state.len() >= 1 && total(state) == ONE
}

/// No state sends more than it holds.
pub proof fn lemma_sent_bound(held: int, row: Seq<u64>, own: int, upto: int)
    requires
        0 <= held,
        0 <= upto <= row.len(),
        total(row) <= ONE,
    ensures
        0 <= sent(held, row, own, upto) <= held,
        sent(held, row, own, upto) * ONE <= held * total(row.take(upto)),
    decreases upto,
{
    let one = ONE as int;
    if upto == 0 {
        assert(row.take(0) =~= Seq::<u64>::empty());
        assert(held * total(row.take(0)) == 0) by (nonlinear_arith)
            requires
                total(row.take(0)) == 0,
        ;
    } else {
        lemma_sent_bound(held, row, own, upto - 1);
        lemma_total_take(row, upto - 1);
        lemma_total_bounds(row, upto - 1);
        let r = row[upto - 1] as int;
        lemma_scaled_bounds(held, r);
        let a = total(row.take(upto - 1));
        let x = if upto - 1 == own {
            0
        } else {
            scaled(held, r)
        };
        assert(x * one <= held * r) by (nonlinear_arith)
            requires
                x == 0 || x * one <= held * r,
                0 <= held,
                0 <= r,
        ;
        assert(held * (a + r) == held * a + held * r) by (nonlinear_arith);
        assert((sent(held, row, own, upto - 1) + x) * one == sent(held, row, own, upto - 1) * one
            + x * one) by (nonlinear_arith);
    }
    let t = total(row.take(upto));
    if upto > 0 {
        lemma_total_take(row, upto - 1);
    }
    let s = sent(held, row, own, upto);
    assert(s <= held) by (nonlinear_arith)
        requires
            s * one <= held * t,
            t <= one,
            0 <= held,
            one > 0,
    ;
}

/// Every flow is a probability mass: none is negative, none exceeds what its source held.
pub proof fn lemma_flow_bounds(state: Seq<u64>, matrix: Seq<Seq<u64>>, from: int, to: int)
    requires
        is_stochastic(matrix),
        state.len() == matrix.len(),
        0 <= from < state.len(),
        0 <= to < state.len(),
    ensures
        0 <= flow(state, matrix, from, to) <= state[from],
{
    lemma_sent_bound(state[from] as int, matrix[from], from, matrix[from].len() as int);
    lemma_total_bounds(matrix[from], to);
    lemma_scaled_bounds(state[from] as int, matrix[from][to] as int);
}

/// The mass that has reached a state grows with every source that is counted.
pub proof fn lemma_inflow_monotone(
    state: Seq<u64>,
    matrix: Seq<Seq<u64>>,
    to: int,
    low: int,
    high: int,
)
    requires
        is_stochastic(matrix),
        state.len() == matrix.len(),
        0 <= to < state.len(),
        0 <= low <= high <= state.len(),
    ensures
        0 <= inflow(state, matrix, to, low) <= inflow(state, matrix, to, high),
    decreases high,
{
    if high == 0 {
    } else if low == high {
        lemma_inflow_monotone(state, matrix, to, 0, high - 1);
        lemma_flow_bounds(state, matrix, high - 1, to);
    } else {
        lemma_inflow_monotone(state, matrix, to, low, high - 1);
        lemma_flow_bounds(state, matrix, high - 1, to);
    }
}

/// The dead send nothing to the living: state 0 keeps all it holds.
pub proof fn lemma_dead_stay(state: Seq<u64>, matrix: Seq<Seq<u64>>)
    requires
        is_stochastic(matrix),
        state.len() == matrix.len(),
    ensures
        flow(state, matrix, 0, 0) == state[0],
{
    let row = matrix[0];
    assert forall|j: int| 1 <= j < row.len() implies row[j] == 0 by {
        lemma_total_two(row, 0, j);
    }
    lemma_sent_zero(state[0] as int, row, 0, row.len() as int);
}

/// A row that is zero away from `own` sends nothing.
pub proof fn lemma_sent_zero(held: int, row: Seq<u64>, own: int, upto: int)
    requires
        0 <= held,
        0 <= upto <= row.len(),
        forall|j: int| 0 <= j < row.len() && j != own ==> row[j] == 0,
    ensures
        sent(held, row, own, upto) == 0,
    decreases upto,
{
    if upto > 0 {
        lemma_sent_zero(held, row, own, upto - 1);
        if upto - 1 != own {
            lemma_scaled_bounds(held, 0);
        }
    }
}

/// The mass that leaves `from` for the states below `upto`, its own included.
pub open spec fn outflow(state: Seq<u64>, matrix: Seq<Seq<u64>>, from: int, upto: int) -> int
    decreases upto,
{
    if upto <= 0 {
        0
    } else {
        outflow(state, matrix, from, upto - 1) + flow(state, matrix, from, upto - 1)
    }
}

/// The mass that reaches the states below `to_upto` from the states below `from_upto`.
pub open spec fn arrived(state: Seq<u64>, matrix: Seq<Seq<u64>>, from_upto: int, to_upto: int) -> int
    decreases to_upto,
{
    if to_upto <= 0 {
        0
    } else {
        arrived(state, matrix, from_upto, to_upto - 1) + inflow(
            state,
            matrix,
            to_upto - 1,
            from_upto,
        )
    }
}

/// What leaves a state is what it sends to the others and, once its own place is
/// counted, what it keeps: together all that it held.
pub proof fn lemma_outflow(state: Seq<u64>, matrix: Seq<Seq<u64>>, from: int, upto: int)
    requires
        state.len() == matrix.len(),
        0 <= from < state.len(),
        matrix[from].len() == state.len(),
        0 <= upto <= state.len(),
    ensures
        outflow(state, matrix, from, upto) == sent(state[from] as int, matrix[from], from, upto)
            + if upto > from {
            state[from] - sent(state[from] as int, matrix[from], from, state.len() as int)
        } else {
            0
        },
        upto == state.len() ==> outflow(state, matrix, from, upto) == state[from],
    decreases upto,
{
    if upto > 0 {
        lemma_outflow(state, matrix, from, upto - 1);
    }
}

/// Counting one more source adds what that source sends.
pub proof fn lemma_arrived_step(
    state: Seq<u64>,
    matrix: Seq<Seq<u64>>,
    from_upto: int,
    to_upto: int,
)
    requires
        0 <= from_upto,
        0 <= to_upto,
    ensures
        arrived(state, matrix, from_upto + 1, to_upto) == arrived(
            state,
            matrix,
            from_upto,
            to_upto,
        ) + outflow(state, matrix, from_upto, to_upto),
    decreases to_upto,
{
    if to_upto > 0 {
        lemma_arrived_step(state, matrix, from_upto, to_upto - 1);
    }
}

/// Before any source is counted nothing has arrived.
pub proof fn lemma_arrived_nothing(state: Seq<u64>, matrix: Seq<Seq<u64>>, to_upto: int)
    ensures
        arrived(state, matrix, 0, to_upto) == 0,
    decreases to_upto,
{
    if to_upto > 0 {
        lemma_arrived_nothing(state, matrix, to_upto - 1);
    }
}

/// All that has arrived anywhere is all that the sources counted so far held.
pub proof fn lemma_arrived_total(state: Seq<u64>, matrix: Seq<Seq<u64>>, from_upto: int)
    requires
        is_stochastic(matrix),
        state.len() == matrix.len(),
        0 <= from_upto <= state.len(),
    ensures
        arrived(state, matrix, from_upto, state.len() as int) == total(state.take(from_upto)),
    decreases from_upto,
{
    let n = state.len() as int;
    if from_upto == 0 {
        lemma_arrived_nothing(state, matrix, n);
        lemma_total_prefix_zero(state);
    } else {
        lemma_arrived_total(state, matrix, from_upto - 1);
        lemma_arrived_step(state, matrix, from_upto - 1, n);
        lemma_outflow(state, matrix, from_upto - 1, n);
        lemma_total_take(state, from_upto - 1);
    }
}

/// No state receives more than the sources counted so far held.
pub proof fn lemma_inflow_bounds(state: Seq<u64>, matrix: Seq<Seq<u64>>, to: int, upto: int)
    requires
        is_stochastic(matrix),
        state.len() == matrix.len(),
        0 <= to < state.len(),
        0 <= upto <= state.len(),
    ensures
        0 <= inflow(state, matrix, to, upto) <= total(state.take(upto)),
    decreases upto,
{
    if upto == 0 {
        lemma_total_prefix_zero(state);
    } else {
        lemma_inflow_bounds(state, matrix, to, upto - 1);
        lemma_flow_bounds(state, matrix, upto - 1, to);
        lemma_total_take(state, upto - 1);
    }
}

/// The entries of the next state, up to any of them, sum to what has arrived there.
proof fn lemma_stepped_prefix(state: Seq<u64>, matrix: Seq<Seq<u64>>, upto: int)
    requires
        is_stochastic(matrix),
        state.len() == matrix.len(),
        total(state) <= u64::MAX,
        0 <= upto <= state.len(),
    ensures
        total(stepped(state, matrix).take(upto)) == arrived(
            state,
            matrix,
            state.len() as int,
            upto,
        ),
    decreases upto,
{
    let next = stepped(state, matrix);
    let n = state.len() as int;
    if upto == 0 {
        lemma_total_prefix_zero(next);
    } else {
        lemma_stepped_prefix(state, matrix, upto - 1);
        lemma_total_take(next, upto - 1);
        lemma_inflow_bounds(state, matrix, upto - 1, n);
        assert(state.take(n) =~= state);
    }
}

/// One attack moves mass and neither makes nor loses any; and the dead state holds
/// after it at least what it held before.
pub proof fn lemma_stepped(state: Seq<u64>, matrix: Seq<Seq<u64>>)
    requires
        is_stochastic(matrix),
        state.len() == matrix.len(),
        total(state) <= u64::MAX,
    ensures
        stepped(state, matrix).len() == state.len(),
        total(stepped(state, matrix)) == total(state),
        stepped(state, matrix)[0] >= state[0],
{
    let next = stepped(state, matrix);
    let n = state.len() as int;
    lemma_stepped_prefix(state, matrix, n);
    lemma_arrived_total(state, matrix, n);
    assert(next.take(n) =~= next);
    assert(state.take(n) =~= state);
    lemma_inflow_bounds(state, matrix, 0, n);
    lemma_inflow_monotone(state, matrix, 0, 1, n);
    lemma_dead_stay(state, matrix);
    assert(inflow(state, matrix, 0, 1) == inflow(state, matrix, 0, 0) + flow(state, matrix, 0, 0));
}

/// However many attacks are made, the state stays a distribution.
pub proof fn lemma_stepped_by(state: Seq<u64>, matrix: Seq<Seq<u64>>, count: nat)
    requires
        is_stochastic(matrix),
        is_distribution(state),
        state.len() == matrix.len(),
    ensures
        is_distribution(stepped_by(state, matrix, count)),
        stepped_by(state, matrix, count).len() == state.len(),
        state[0] <= stepped_by(state, matrix, count)[0] <= ONE,
    decreases count,
{
    if count > 0 {
        lemma_stepped_by(state, matrix, (count - 1) as nat);
        lemma_stepped(stepped_by(state, matrix, (count - 1) as nat), matrix);
    }
    lemma_total_bounds(stepped_by(state, matrix, count), 0);
}

/// All mass on the state "`hp` hit points left".
pub open spec fn point_mass(hp: int) -> Seq<u64> {
    Seq::new((hp + 1) as nat, |j: int| if j == hp {
        ONE
    } else {
        0u64
    })
}

/// A probability distribution over the states `0..=hp`, indexed by the hit points left.
pub struct ProbabilityState {
    mass: Vec<u64>,
}

impl View for ProbabilityState {
    type V = Seq<u64>;

    closed spec fn view(&self) -> Seq<u64> {
        self.mass@
    }
}

impl ProbabilityState {
    /// The entries sum to exactly `ONE`.
    pub open spec fn wf(&self) -> bool {
        is_distribution(self@)
    }

    /// All mass on the state "`hp` hit points left".
    pub fn at_full_health(hp: usize) -> (result: Result<ProbabilityState, EngineError>)
        ensures
            hp == usize::MAX ==> result == Err::<ProbabilityState, EngineError>(
                EngineError::TooManyStates,
            ),
            hp < usize::MAX ==> result is Ok,
            result matches Ok(state) ==> state.wf() && state@ == point_mass(hp as int),
    {
        if hp == usize::MAX {
            return Err(EngineError::TooManyStates);
        }
        let mut mass: Vec<u64> = zeros(hp + 1);
        mass.set(hp, ONE);
        proof {
            lemma_total_single(mass@, hp as int);
            assert(mass@ =~= point_mass(hp as int));
        }
        Ok(ProbabilityState { mass })
    }

    /// A copy of the state.
    pub fn duplicate(&self) -> (copy: ProbabilityState)
        ensures
            copy@ == self@,
    {
        let mut mass: Vec<u64> = Vec::new();
        let mut i: usize = 0;
        while i < self.mass.len()
            invariant
                i <= self.mass@.len(),
                mass@ == self.mass@.take(i as int),
            decreases self.mass@.len() - i,
        {
            mass.push(self.mass[i]);
            proof {
                assert(mass@ =~= self.mass@.take(i + 1));
            }
            i = i + 1;
        }
        proof {
            assert(self.mass@.take(self.mass@.len() as int) =~= self.mass@);
        }
        ProbabilityState { mass }
    }

    /// The number of states.
    pub fn len(&self) -> (n: usize)
        ensures
            n == self@.len(),
    {
        self.mass.len()
    }

    /// The probability that the target is dead.
    pub fn dead(&self) -> (p: u64)
        requires
            self.wf(),
        ensures
            p == self@[0],
            p <= ONE,
    {
        proof {
            lemma_total_bounds(self@, 0);
        }
        self.mass[0]
    }

    /// The probabilities, by hit points left.
    pub fn masses(&self) -> (mass: &Vec<u64>)
        ensures
            mass@ == self@,
    {
        &self.mass
    }

    /// Wraps masses that are known to sum to certainty.
    pub(crate) fn from_masses(mass: Vec<u64>) -> (state: ProbabilityState)
        requires
            is_distribution(mass@),
        ensures
            state@ == mass@,
            state.wf(),
    {
        ProbabilityState { mass }
    }
}

/// Applies one attack to a state: the row vector `state` times `matrix`.
pub fn propagate_state(state: &ProbabilityState, matrix: &TransitionMatrix) -> (result: Result<
    ProbabilityState,
    EngineError,
>)
    requires
        state.wf(),
        matrix.wf(),
    ensures
        state@.len() != matrix@.len() ==> result == Err::<ProbabilityState, EngineError>(
            EngineError::SizeMismatch,
        ),
        state@.len() == matrix@.len() ==> result is Ok,
        result matches Ok(next) ==> next.wf() && next@ == stepped(state@, matrix@) && next@[0]
            >= state@[0],
{
    let n: usize = state.len();
    if matrix.dim() != n {
        return Err(EngineError::SizeMismatch);
    }
    let mut out: Vec<u64> = zeros(n);
    let mut i: usize = 0;
    proof {
        lemma_total_take(state@, 0);
    }
    while i < n
        invariant
            i <= n,
            n == state@.len(),
            n == matrix@.len(),
            state.wf(),
            matrix.wf(),
            out@.len() == n,
            forall|t: int| 0 <= t < n ==> (#[trigger] out@[t]) == inflow(state@, matrix@, t, i as int),
            total(out@) == total(state@.take(i as int)),
        decreases n - i,
    {
        let held: u64 = state.mass[i];
        let row: &Vec<u64> = matrix.row(i);
        let ghost before: Seq<u64> = out@;
        let mut given: u64 = 0;
        let mut j: usize = 0;
        proof {
            lemma_total_take(state@, i as int);
        }
        while j < n
            invariant
                j <= n,
                i < n,
                n == state@.len(),
                row@.len() == n,
                total(row@) == ONE,
                held == state@[i as int],
                total(state@) == ONE,
                total(before) + held <= ONE,
                before.len() == n,
                out@.len() == n,
                given == sent(held as int, row@, i as int, j as int),
                forall|t: int|
                    0 <= t < n ==> (#[trigger] out@[t]) == before[t] + if t < j && t != i {
                        scaled(held as int, row@[t] as int)
                    } else {
                        0
                    },
                total(out@) == total(before) + given,
            decreases n - j,
        {
            if j != i {
                proof {
                    lemma_total_bounds(row@, j as int);
                    lemma_sent_bound(held as int, row@, i as int, j as int + 1);
                    lemma_total_bounds(out@, j as int);
                }
                let x: u64 = mul_floor(held, row[j]);
                let updated: u64 = out[j] + x;
                proof {
                    lemma_total_update(out@, j as int, updated);
                }
                out.set(j, updated);
                given = given + x;
            }
            j = j + 1;
        }
        proof {
            lemma_sent_bound(held as int, row@, i as int, n as int);
            lemma_total_bounds(out@, i as int);
        }
        let kept: u64 = out[i] + (held - given);
        proof {
            lemma_total_update(out@, i as int, kept);
        }
        out.set(i, kept);
        i = i + 1;
    }
    proof {
        lemma_total_take(state@, 0);
        assert(state@.take(n as int) =~= state@);
        assert(out@ =~= stepped(state@, matrix@)) by {
            assert forall|t: int| 0 <= t < n implies out@[t] == stepped(state@, matrix@)[t] by {
                assert(out@[t] == inflow(state@, matrix@, t, n as int));
            }
        }
        lemma_inflow_monotone(state@, matrix@, 0, 1, n as int);
        lemma_dead_stay(state@, matrix@);
        assert(inflow(state@, matrix@, 0, 1) == inflow(state@, matrix@, 0, 0) + flow(
            state@,
            matrix@,
            0,
            0,
        ));
    }
    Ok(ProbabilityState { mass: out })
}

} // verus!
