//! Transition matrices of the hit-point chain.
//!
//! State `i` means "`i` hit points left"; state 0 is dead and absorbing. A matrix is
//! stored by origin: row `i` is the distribution of the state that follows state `i`
//! after one attack, and every row sums to exactly `ONE`.

use vstd::prelude::*;
use vstd::arithmetic::div_mod::lemma_fundamental_div_mod;
use crate::error::EngineError;
use crate::prob::{
    ONE, total, lemma_total_update, lemma_total_zeros, lemma_total_single, lemma_total_take,
    lemma_total_prefix_zero, lemma_total_push, lemma_total_two,
};

verus! {

/// Which damage values a successful hit draws from, each with the same probability.
#[derive(Clone, Copy, Debug, PartialEq, Eq, Structural)]
pub enum DamageRoll {
    /// 0 up to the maximum hit; damage beyond the hit points left kills.
    ZeroToMax,
    /// 1 up to the maximum hit; damage beyond the hit points left kills.
    OneToMax,
    /// 1 up to the maximum hit or the hit points left, whichever is smaller.
    OneToRemaining,
}

/// The smallest damage a successful hit can roll.
pub open spec fn lowest_roll(roll: DamageRoll) -> int {
    match roll {
        DamageRoll::ZeroToMax => 0,
        _ => 1,
    }
}

/// The largest damage a successful hit can roll against a target with `hp_left`.
pub open spec fn highest_roll(roll: DamageRoll, max_hit: int, hp_left: int) -> int {
    match roll {
        DamageRoll::OneToRemaining => if hp_left < max_hit {
            hp_left
        } else {
            max_hit
        },
        _ => max_hit,
    }
}

/// How many damage values a successful hit chooses between.
pub open spec fn roll_count(roll: DamageRoll, max_hit: int, hp_left: int) -> int {
    highest_roll(roll, max_hit, hp_left) - lowest_roll(roll) + 1
}

/// The probability of each single damage value: the accuracy split evenly, rounded down.
pub open spec fn roll_share(roll: DamageRoll, max_hit: int, accuracy: int, hp_left: int) -> int {
    if roll_count(roll, max_hit, hp_left) > 0 {
        accuracy / roll_count(roll, max_hit, hp_left)
    } else {
        0
    }
}

/// What the even split leaves over. It goes with the highest roll.
pub open spec fn roll_leftover(roll: DamageRoll, max_hit: int, accuracy: int, hp_left: int) -> int {
    if roll_count(roll, max_hit, hp_left) > 0 {
        accuracy % roll_count(roll, max_hit, hp_left)
    } else {
        0
    }
}

/// The probability that an attack on a target with `hp_left` hits for exactly `damage`.
pub open spec fn roll_mass(
    roll: DamageRoll,
    max_hit: int,
    accuracy: int,
    hp_left: int,
    damage: int,
) -> int {
    if lowest_roll(roll) <= damage <= highest_roll(roll, max_hit, hp_left) {
        roll_share(roll, max_hit, accuracy, hp_left) + if damage == highest_roll(
            roll,
            max_hit,
            hp_left,
        ) {
            roll_leftover(roll, max_hit, accuracy, hp_left)
        } else {
            0
        }
    } else {
        0
    }
}

/// The probability that an attack on a living target with `hp_left` hits for at least
/// `hp_left`: all of it lands on the dead state.
pub open spec fn overkill_mass(roll: DamageRoll, max_hit: int, accuracy: int, hp_left: int) -> int {
    if highest_roll(roll, max_hit, hp_left) >= hp_left {
        roll_share(roll, max_hit, accuracy, hp_left) * (highest_roll(roll, max_hit, hp_left)
            - hp_left + 1) + roll_leftover(roll, max_hit, accuracy, hp_left)
    } else {
        0
    }
}

/// The probability that one attack takes a target from `from` hit points to `to`.
///
/// The dead stay dead. A living target keeps its hit points on a miss, on a hit for 0,
/// and whenever no damage value can be rolled; it drops by each rolled damage value
/// below `from` with that value's probability, and dies with the probability of all
/// the values from `from` up.
pub open spec fn cell(roll: DamageRoll, max_hit: int, accuracy: int, from: int, to: int) -> int {
    if from == 0 {
        if to == 0 {
            ONE as int
        } else {
            0
        }
    } else if roll_count(roll, max_hit, from) <= 0 {
        if to == from {
            ONE as int
        } else {
            0
        }
    } else if to > from {
        0
    } else if to == from {
        ONE - accuracy + roll_mass(roll, max_hit, accuracy, from, 0)
    } else if to > 0 {
        roll_mass(roll, max_hit, accuracy, from, from - to)
    } else {
        overkill_mass(roll, max_hit, accuracy, from)
    }
}

/// The probability of all rolls below `damage`.
pub open spec fn mass_below(
    roll: DamageRoll,
    max_hit: int,
    accuracy: int,
    hp_left: int,
    damage: int,
) -> int {
    let lo = lowest_roll(roll);
    let hi = highest_roll(roll, max_hit, hp_left);
    if damage <= lo {
        0
    } else if damage <= hi {
        roll_share(roll, max_hit, accuracy, hp_left) * (damage - lo)
    } else {
        accuracy
    }
}

/// The rolls partition the accuracy: the mass below a roll grows by that roll's mass,
/// and all rolls together have the mass of a hit.
pub proof fn lemma_mass_below_step(
    roll: DamageRoll,
    max_hit: int,
    accuracy: int,
    hp_left: int,
    damage: int,
)
    requires
        0 <= accuracy,
        0 <= max_hit,
        1 <= hp_left,
        0 <= damage,
        roll_count(roll, max_hit, hp_left) > 0,
    ensures
        mass_below(roll, max_hit, accuracy, hp_left, damage + 1) == mass_below(
            roll,
            max_hit,
            accuracy,
            hp_left,
            damage,
        ) + roll_mass(roll, max_hit, accuracy, hp_left, damage),
        0 <= roll_mass(roll, max_hit, accuracy, hp_left, damage) <= accuracy,
        0 <= mass_below(roll, max_hit, accuracy, hp_left, damage) <= accuracy,
        0 <= roll_share(roll, max_hit, accuracy, hp_left),
        0 <= roll_leftover(roll, max_hit, accuracy, hp_left),
{
    let lo = lowest_roll(roll);
    let hi = highest_roll(roll, max_hit, hp_left);
    let count = roll_count(roll, max_hit, hp_left);
    let share = accuracy / count;
    let leftover = accuracy % count;
    lemma_fundamental_div_mod(accuracy, count);
    assert(0 <= share) by (nonlinear_arith)
        requires
            accuracy == count * share + leftover,
            0 <= leftover < count,
            0 <= accuracy,
    ;
    assert(share * count + leftover == accuracy) by (nonlinear_arith)
        requires
            accuracy == count * share + leftover,
    ;
    if lo <= damage <= hi {
        assert(share * (damage + 1 - lo) == share * (damage - lo) + share) by (nonlinear_arith);
        if damage == lo {
            assert(share * (damage - lo) == 0) by (nonlinear_arith)
                requires
                    damage == lo,
            ;
        }
        if damage == hi {
            assert(share * (damage + 1 - lo) == share * count) by (nonlinear_arith)
                requires
                    count == damage + 1 - lo,
            ;
        }
        assert(share * (damage - lo) <= share * (count - 1)) by (nonlinear_arith)
            requires
                0 <= share,
                damage - lo <= count - 1,
        ;
        assert(share * (count - 1) == share * count - share) by (nonlinear_arith);
        assert(0 <= share * (damage - lo)) by (nonlinear_arith)
            requires
                0 <= share,
                0 <= damage - lo,
        ;
    } else if damage < lo {
    } else {
    }
    if lo < damage <= hi {
        assert(share * (damage - lo) <= share * count) by (nonlinear_arith)
            requires
                0 <= share,
                damage - lo <= count,
        ;
        assert(0 <= share * (damage - lo)) by (nonlinear_arith)
            requires
                0 <= share,
                0 <= damage - lo,
        ;
    }
}

/// The rolls that kill have the mass that the rolls below `hp_left` leave of a hit.
pub proof fn lemma_overkill(roll: DamageRoll, max_hit: int, accuracy: int, hp_left: int)
    requires
        0 <= accuracy,
        0 <= max_hit,
        1 <= hp_left,
        roll_count(roll, max_hit, hp_left) > 0,
    ensures
        overkill_mass(roll, max_hit, accuracy, hp_left) == accuracy - mass_below(
            roll,
            max_hit,
            accuracy,
            hp_left,
            hp_left,
        ),
        0 <= overkill_mass(roll, max_hit, accuracy, hp_left) <= accuracy,
{
    let lo = lowest_roll(roll);
    let hi = highest_roll(roll, max_hit, hp_left);
    let count = roll_count(roll, max_hit, hp_left);
    let share = accuracy / count;
    let leftover = accuracy % count;
    lemma_fundamental_div_mod(accuracy, count);
    lemma_mass_below_step(roll, max_hit, accuracy, hp_left, hp_left);
    assert(share * count + leftover == accuracy) by (nonlinear_arith)
        requires
            accuracy == count * share + leftover,
    ;
    if hi >= hp_left {
        assert(share * (hi - hp_left + 1) + share * (hp_left - lo) == share * count)
            by (nonlinear_arith)
            requires
                count == hi - lo + 1,
        ;
    }
}

/// The matrix of one attack on a target with `hp` hit points, as a value of mathematics.
pub open spec fn attack_matrix(roll: DamageRoll, hp: int, max_hit: int, accuracy: int) -> Seq<
    Seq<u64>,
> {
    Seq::new(
        (hp + 1) as nat,
        |i: int| Seq::new((hp + 1) as nat, |j: int| cell(roll, max_hit, accuracy, i, j) as u64),
    )
}

/// A square matrix whose rows are distributions and whose state 0 is absorbing.
pub open spec fn is_stochastic(matrix: Seq<Seq<u64>>) -> bool {
    &&& matrix.len() >= 1
    &&& forall|i: int| 0 <= i < matrix.len() ==> (#[trigger] matrix[i]).len() == matrix.len()
    &&& forall|i: int| 0 <= i < matrix.len() ==> total(#[trigger] matrix[i]) == ONE
    &&& matrix[0][0] == ONE
}

/// A transition matrix over the states `0..=hp`, stored by origin.
pub struct TransitionMatrix {
    rows: Vec<Vec<u64>>,
}

impl View for TransitionMatrix {
    type V = Seq<Seq<u64>>;

    /// Row `i` holds the probabilities of leaving state `i` for each state.
    closed spec fn view(&self) -> Seq<Seq<u64>> {
        Seq::new(self.rows@.len(), |i: int| self.rows@[i]@)
    }
}

impl TransitionMatrix {
    /// The matrix is square, each row sums to certainty, and the dead stay dead.
    pub open spec fn wf(&self) -> bool {
        is_stochastic(self@)
    }

    /// The number of states.
    pub fn dim(&self) -> (n: usize)
        ensures
            n == self@.len(),
    {
        self.rows.len()
    }

    /// The probability of going from `from` to `to`, where both are states of the matrix.
    pub fn get(&self, from: usize, to: usize) -> (entry: Option<u64>)
        ensures
            entry == if from < self@.len() && to < self@[from as int].len() {
                Some(self@[from as int][to as int])
            } else {
                None
            },
    {
        if from < self.rows.len() {
            let row: &Vec<u64> = &self.rows[from];
            if to < row.len() {
                Some(row[to])
            } else {
                None
            }
        } else {
            None
        }
    }

    /// Row `from` of the matrix.
    pub(crate) fn row(&self, from: usize) -> (row: &Vec<u64>)
        requires
            from < self@.len(),
        ensures
            row@ == self@[from as int],
    {
        &self.rows[from]
    }

    /// Wraps rows that are known to form a matrix.
    pub(crate) fn from_rows(rows: Vec<Vec<u64>>) -> (m: TransitionMatrix)
        ensures
            m@.len() == rows@.len(),
            forall|i: int| 0 <= i < rows@.len() ==> (#[trigger] m@[i]) == rows@[i]@,
    {
        TransitionMatrix { rows }
    }
}

/// A vector of `n` zeros.
pub fn zeros(n: usize) -> (v: Vec<u64>)
    ensures
        v@.len() == n,
        forall|i: int| 0 <= i < n ==> v@[i] == 0,
        total(v@) == 0,
{
    let mut v: Vec<u64> = Vec::new();
    let mut i: usize = 0;
    while i < n
        invariant
            i <= n,
            v@.len() == i,
            forall|k: int| 0 <= k < i ==> v@[k] == 0,
        decreases n - i,
    {
        v.push(0);
        i = i + 1;
    }
    proof {
        lemma_total_zeros(v@);
    }
    v
}

/// The row of a state that never changes: certainty on the diagonal.
fn fixed_row(n: usize, at: usize) -> (row: Vec<u64>)
    requires
        at < n,
    ensures
        row@.len() == n,
        total(row@) == ONE,
        forall|j: int| 0 <= j < n ==> row@[j] == if j == at { ONE } else { 0 },
{
    let mut row: Vec<u64> = zeros(n);
    row.set(at, ONE);
    proof {
        lemma_total_single(row@, at as int);
    }
    row
}

/// Row `from` of the matrix of one attack.
fn build_row(hp: usize, max_hit: usize, accuracy: u64, roll: DamageRoll, from: usize) -> (row: Vec<u64>)
    requires
        accuracy <= ONE,
        hp < usize::MAX,
        from <= hp,
    ensures
        row@.len() == hp + 1,
        total(row@) == ONE,
        forall|j: int| 0 <= j <= hp ==> (#[trigger] row@[j]) == cell(roll, max_hit as int, accuracy as int, from as int, j),
{
    let n: usize = hp + 1;
    if from == 0 {
        return fixed_row(n, 0);
    }
    let lo: usize = match roll {
        DamageRoll::ZeroToMax => 0,
        _ => 1,
    };
    let hi: usize = match roll {
        DamageRoll::OneToRemaining => if from < max_hit {
            from
        } else {
            max_hit
        },
        _ => max_hit,
    };
    if hi < lo {
        return fixed_row(n, from);
    }
    let count: u128 = (hi - lo) as u128 + 1;
    let share: u64 = (accuracy as u128 / count) as u64;
    let leftover: u64 = (accuracy as u128 % count) as u64;
    proof {
        lemma_mass_below_step(roll, max_hit as int, accuracy as int, from as int, 0);
        lemma_overkill(roll, max_hit as int, accuracy as int, from as int);
        lemma_fundamental_div_mod(accuracy as int, count as int);
    }
    let zero_roll: u64 = if lo == 0 {
        if hi == 0 {
            share + leftover
        } else {
            share
        }
    } else {
        0
    };
    let mut row: Vec<u64> = zeros(n);
    proof {
        lemma_total_update(row@, from as int, (ONE - accuracy + zero_roll) as u64);
    }
    row.set(from, ONE - accuracy + zero_roll);
    let last_alive: usize = if hi < from {
        hi
    } else {
        from - 1
    };
    let mut d: usize = 1;
    while d <= last_alive
        invariant
            1 <= d <= last_alive + 1,
            last_alive < from <= hp,
            last_alive <= hi,
            n == hp + 1,
            accuracy <= ONE,
            lo == lowest_roll(roll),
            hi == highest_roll(roll, max_hit as int, from as int),
            lo <= hi,
            share == roll_share(roll, max_hit as int, accuracy as int, from as int),
            leftover == roll_leftover(roll, max_hit as int, accuracy as int, from as int),
            row@.len() == n,
            total(row@) == ONE - accuracy + mass_below(
                roll,
                max_hit as int,
                accuracy as int,
                from as int,
                d as int,
            ),
            forall|j: int|
                0 <= j < n ==> (#[trigger] row@[j]) == if j == from {
                    ONE - accuracy + roll_mass(roll, max_hit as int, accuracy as int, from as int, 0)
                } else if from - d < j < from {
                    roll_mass(roll, max_hit as int, accuracy as int, from as int, from - j)
                } else {
                    0
                },
        decreases last_alive + 1 - d,
    {
        proof {
            lemma_mass_below_step(roll, max_hit as int, accuracy as int, from as int, d as int);
        }
        let mass: u64 = if d == hi {
            share + leftover
        } else {
            share
        };
        proof {
            lemma_total_update(row@, from - d, mass);
        }
        row.set(from - d, mass);
        d = d + 1;
    }
    if hi >= from {
        let kills: u128 = (share as u128) * ((hi - from) as u128 + 1) + leftover as u128;
        proof {
            lemma_total_update(row@, 0, kills as u64);
        }
        row.set(0, kills as u64);
    }
    row
}

/// Builds the matrix of one attack with the given accuracy and maximum hit on a target
/// with `hp` hit points.
pub fn build_transition_matrix(hp: usize, max_hit: usize, accuracy: u64, roll: DamageRoll) -> (result:
    Result<TransitionMatrix, EngineError>)
    ensures
        accuracy > ONE ==> result == Err::<TransitionMatrix, EngineError>(
            EngineError::AccuracyOutOfRange,
        ),
        accuracy <= ONE && hp == usize::MAX ==> result == Err::<TransitionMatrix, EngineError>(
            EngineError::TooManyStates,
        ),
        accuracy <= ONE && hp < usize::MAX ==> result is Ok,
        result matches Ok(m) ==> m.wf() && m@ == attack_matrix(
            roll,
            hp as int,
            max_hit as int,
            accuracy as int,
        ),
{
    if accuracy > ONE {
        return Err(EngineError::AccuracyOutOfRange);
    }
    if hp == usize::MAX {
        return Err(EngineError::TooManyStates);
    }
    let n: usize = hp + 1;
    let mut rows: Vec<Vec<u64>> = Vec::new();
    let mut i: usize = 0;
    while i < n
        invariant
            i <= n,
            n == hp + 1,
            accuracy <= ONE,
            hp < usize::MAX,
            rows@.len() == i,
            forall|r: int| 0 <= r < i ==> (#[trigger] rows@[r])@.len() == n,
            forall|r: int| 0 <= r < i ==> total((#[trigger] rows@[r])@) == ONE,
            forall|r: int, j: int|
                0 <= r < i && 0 <= j < n ==> (#[trigger] rows@[r]@[j]) == cell(
                    roll,
                    max_hit as int,
                    accuracy as int,
                    r,
                    j,
                ),
        decreases n - i,
    {
        let row: Vec<u64> = build_row(hp, max_hit, accuracy, roll, i);
        rows.push(row);
        i = i + 1;
    }
    let m: TransitionMatrix = TransitionMatrix::from_rows(rows);
    proof {
        let model = attack_matrix(roll, hp as int, max_hit as int, accuracy as int);
        assert forall|r: int| 0 <= r < n implies #[trigger] m@[r] == model[r] by {
            assert(m@[r] == rows@[r]@);
            assert forall|j: int| 0 <= j < n implies m@[r][j] == model[r][j] by {
                assert(rows@[r]@[j] == cell(roll, max_hit as int, accuracy as int, r, j));
            }
            assert(m@[r] =~= model[r]);
        }
        assert(m@ =~= model);
    }
    Ok(m)
}

/// What a row gives away per tick when its attack lands on one tick in `speed`: for
/// each state below `upto` but its own, the entry divided by `speed`, rounded down.
pub open spec fn thinned(row: Seq<u64>, own: int, speed: int, upto: int) -> int
    decreases upto,
{
    if upto <= 0 {
        0
    } else {
        thinned(row, own, speed, upto - 1) + if upto - 1 == own {
            0
        } else {
            row[upto - 1] as int / speed
        }
    }
}

/// An entry of the per-tick matrix: off the diagonal the entry of the attack divided by
/// the attack speed, on the diagonal all that the rest of the row leaves.
pub open spec fn slowed_cell(matrix: Seq<Seq<u64>>, speed: int, from: int, to: int) -> int {
    if to == from {
        ONE - thinned(matrix[from], from, speed, matrix[from].len() as int)
    } else {
        matrix[from][to] as int / speed
    }
}

/// The matrix of one tick of a weapon that attacks on one tick in `speed`: the mixture
/// of the attack, with weight `1 / speed`, and of standing still.
pub open spec fn slowed(matrix: Seq<Seq<u64>>, speed: int) -> Seq<Seq<u64>> {
    Seq::new(
        matrix.len(),
        |i: int| Seq::new(matrix.len(), |j: int| slowed_cell(matrix, speed, i, j) as u64),
    )
}

/// A thinned row gives away no more than the row held.
pub proof fn lemma_thinned_bound(row: Seq<u64>, own: int, speed: int, upto: int)
    requires
        speed >= 1,
        0 <= upto <= row.len(),
    ensures
        0 <= thinned(row, own, speed, upto) <= total(row.take(upto)),
    decreases upto,
{
    if upto == 0 {
        lemma_total_prefix_zero(row);
    } else {
        lemma_thinned_bound(row, own, speed, upto - 1);
        lemma_total_take(row, upto - 1);
        let r = row[upto - 1] as int;
        assert(0 <= r / speed <= r) by (nonlinear_arith)
            requires
                0 <= r,
                speed >= 1,
        ;
    }
}

/// A row that is zero away from `own` gives nothing away.
pub proof fn lemma_thinned_zero(row: Seq<u64>, own: int, speed: int, upto: int)
    requires
        speed >= 1,
        0 <= upto <= row.len(),
        forall|j: int| 0 <= j < row.len() && j != own ==> row[j] == 0,
    ensures
        thinned(row, own, speed, upto) == 0,
    decreases upto,
{
    if upto > 0 {
        lemma_thinned_zero(row, own, speed, upto - 1);
        assert(0int / speed == 0) by (nonlinear_arith)
            requires
                speed >= 1,
        ;
    }
}

/// Row `own` of the per-tick matrix.
fn slow_row(row: &Vec<u64>, own: usize, speed: u64) -> (out: Vec<u64>)
    requires
        speed >= 1,
        own < row@.len(),
        total(row@) == ONE,
    ensures
        out@.len() == row@.len(),
        total(out@) == ONE,
        forall|j: int|
            0 <= j < row@.len() ==> (#[trigger] out@[j]) == if j == own {
                ONE - thinned(row@, own as int, speed as int, row@.len() as int)
            } else {
                row@[j] as int / speed as int
            },
{
    let n: usize = row.len();
    let mut out: Vec<u64> = Vec::new();
    let mut given: u64 = 0;
    let mut j: usize = 0;
    while j < n
        invariant
            j <= n,
            n == row@.len(),
            own < n,
            speed >= 1,
            total(row@) == ONE,
            out@.len() == j,
            given == thinned(row@, own as int, speed as int, j as int),
            total(out@) == given,
            forall|t: int|
                0 <= t < j ==> (#[trigger] out@[t]) == if t == own {
                    0
                } else {
                    row@[t] as int / speed as int
                },
        decreases n - j,
    {
        proof {
            lemma_thinned_bound(row@, own as int, speed as int, j + 1);
            lemma_total_take(row@, j as int);
        }
        let entry: u64 = if j == own {
            0
        } else {
            row[j] / speed
        };
        proof {
            lemma_total_push(out@, entry);
        }
        out.push(entry);
        given = given + entry;
        j = j + 1;
    }
    proof {
        lemma_thinned_bound(row@, own as int, speed as int, n as int);
        assert(row@.take(n as int) =~= row@);
        lemma_total_update(out@, own as int, (ONE - given) as u64);
    }
    out.set(own, ONE - given);
    out
}

/// Turns the matrix of an attack into the matrix of one tick of a weapon that attacks
/// every `attack_speed` ticks.
pub fn slow_matrix(matrix: &TransitionMatrix, attack_speed: usize) -> (result: Result<
    TransitionMatrix,
    EngineError,
>)
    requires
        matrix.wf(),
    ensures
        attack_speed == 0 ==> result == Err::<TransitionMatrix, EngineError>(
            EngineError::ZeroAttackSpeed,
        ),
        attack_speed > 0 ==> result is Ok,
        result matches Ok(m) ==> m.wf() && m@ == slowed(matrix@, attack_speed as int),
{
    if attack_speed == 0 {
        return Err(EngineError::ZeroAttackSpeed);
    }
    let n: usize = matrix.dim();
    let speed: u64 = attack_speed as u64;
    let mut rows: Vec<Vec<u64>> = Vec::new();
    let mut i: usize = 0;
    while i < n
        invariant
            i <= n,
            n == matrix@.len(),
            matrix.wf(),
            speed == attack_speed,
            speed >= 1,
            rows@.len() == i,
            forall|r: int| 0 <= r < i ==> (#[trigger] rows@[r])@.len() == n,
            forall|r: int| 0 <= r < i ==> total((#[trigger] rows@[r])@) == ONE,
            forall|r: int, j: int|
                0 <= r < i && 0 <= j < n ==> (#[trigger] rows@[r]@[j]) == slowed_cell(
                    matrix@,
                    speed as int,
                    r,
                    j,
                ),
        decreases n - i,
    {
        let row: Vec<u64> = slow_row(matrix.row(i), i, speed);
        rows.push(row);
        i = i + 1;
    }
    let m: TransitionMatrix = TransitionMatrix::from_rows(rows);
    proof {
        let model = slowed(matrix@, attack_speed as int);
        assert forall|r: int| 0 <= r < n implies #[trigger] m@[r] == model[r] by {
            assert(m@[r] == rows@[r]@);
            assert forall|j: int| 0 <= j < n implies m@[r][j] == model[r][j] by {
                assert(rows@[r]@[j] == slowed_cell(matrix@, speed as int, r, j));
            }
            assert(m@[r] =~= model[r]);
        }
        assert(m@ =~= model);
        let first = matrix@[0];
        assert forall|j: int| 1 <= j < first.len() implies first[j] == 0 by {
            lemma_total_two(first, 0, j);
        }
        lemma_thinned_zero(first, 0, speed as int, n as int);
        assert(m@[0][0] == rows@[0]@[0]);
    }
    Ok(m)
}

/// Builds the per-tick matrix of a weapon that attacks every `attack_speed` ticks for
/// 1 up to `max_hit`, capped at the hit points left.
pub fn build_per_tick_matrix(hp: usize, max_hit: usize, accuracy: u64, attack_speed: usize) -> (result:
    Result<TransitionMatrix, EngineError>)
    ensures
        accuracy > ONE ==> result == Err::<TransitionMatrix, EngineError>(
            EngineError::AccuracyOutOfRange,
        ),
        accuracy <= ONE && hp == usize::MAX ==> result == Err::<TransitionMatrix, EngineError>(
            EngineError::TooManyStates,
        ),
        accuracy <= ONE && hp < usize::MAX && attack_speed == 0 ==> result == Err::<
            TransitionMatrix,
            EngineError,
        >(EngineError::ZeroAttackSpeed),
        accuracy <= ONE && hp < usize::MAX && attack_speed > 0 ==> result is Ok,
        result matches Ok(m) ==> m.wf() && m@ == slowed(
            attack_matrix(DamageRoll::OneToRemaining, hp as int, max_hit as int, accuracy as int),
            attack_speed as int,
        ),
{
    let attack: TransitionMatrix = match build_transition_matrix(
        hp,
        max_hit,
        accuracy,
        DamageRoll::OneToRemaining,
    ) {
        Ok(m) => m,
        Err(e) => {
            return Err(e);
        },
    };
    slow_matrix(&attack, attack_speed)
}

} // verus!
