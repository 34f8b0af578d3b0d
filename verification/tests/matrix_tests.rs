use osrs_markov::matrix::{build_transition_matrix, DamageRoll};
use osrs_markov::prob::ONE;
use osrs_markov::state::{propagate_state, ProbabilityState};
use osrs_markov::error::EngineError;

fn row_of(hp: usize, max_hit: usize, accuracy: u64, roll: DamageRoll, from: usize) -> Vec<u64> {
    let m = build_transition_matrix(hp, max_hit, accuracy, roll).unwrap();
    (0..=hp).map(|to| m.get(from, to).unwrap()).collect()
}

#[test]
fn state_five_splits_a_hit_evenly() {
    let half = ONE / 2;
    let row = row_of(10, 4, half, DamageRoll::ZeroToMax, 5);
    let tenth = ONE / 10;
    assert_eq!(row[5], half + tenth);
    for to in 1..=4 {
        assert_eq!(row[to], tenth);
    }
    assert_eq!(row[0], 0);
    for to in 6..=10 {
        assert_eq!(row[to], 0);
    }
    let hit_mass: u64 = row[5] - (ONE - half) + row[1] + row[2] + row[3] + row[4];
    assert_eq!(hit_mass, half);
}

#[test]
fn certain_hit_on_one_hit_point_kills_in_one_step() {
    let m = build_transition_matrix(1, 1, ONE, DamageRoll::OneToMax).unwrap();
    let s = ProbabilityState::at_full_health(1).unwrap();
    let next = propagate_state(&s, &m).unwrap();
    assert_eq!(next.masses(), &vec![ONE, 0]);
}

#[test]
fn every_row_sums_to_one() {
    for roll in [DamageRoll::ZeroToMax, DamageRoll::OneToMax, DamageRoll::OneToRemaining] {
        for max_hit in [0usize, 1, 3, 7, 40] {
            for accuracy in [0u64, 1, ONE / 3, 777_777_777_777_777_777, ONE] {
                let m = build_transition_matrix(12, max_hit, accuracy, roll).unwrap();
                for from in 0..=12 {
                    let sum: u64 = (0..=12).map(|to| m.get(from, to).unwrap()).sum();
                    assert_eq!(sum, ONE);
                }
            }
        }
    }
}

#[test]
fn accuracy_above_one_is_refused() {
    let r = build_transition_matrix(3, 2, ONE + 1, DamageRoll::ZeroToMax);
    assert!(matches!(r, Err(EngineError::AccuracyOutOfRange)));
}
