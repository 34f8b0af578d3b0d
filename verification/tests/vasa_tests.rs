use osrs_markov::error::EngineError;
use osrs_markov::matrix::{build_per_tick_matrix, build_transition_matrix, slow_matrix, DamageRoll};
use osrs_markov::prob::ONE;
use osrs_markov::state::{propagate_state, ProbabilityState};
use osrs_markov::vasa::{heal_state, run_script, weapon_kill_times_markov_per_tick_with_delay, Script};

fn row(m: &osrs_markov::matrix::TransitionMatrix, from: usize) -> Vec<u64> {
    (0..m.dim()).map(|to| m.get(from, to).unwrap()).collect()
}

#[test]
fn per_tick_matrix_mixes_attack_and_standing_still() {
    let m = build_per_tick_matrix(4, 2, ONE, 4).unwrap();
    // from 3: the attack takes 1 or 2 with equal odds, on one tick in four
    assert_eq!(row(&m, 3), vec![0, ONE / 8, ONE / 8, ONE / 4 * 3, 0]);
    // from 1 the only roll is 1
    assert_eq!(row(&m, 1), vec![ONE / 4, ONE / 4 * 3, 0, 0, 0]);
    assert_eq!(row(&m, 0), vec![ONE, 0, 0, 0, 0]);
    for from in 0..5 {
        assert_eq!(row(&m, from).iter().sum::<u64>(), ONE);
    }
}

#[test]
fn speed_one_leaves_the_attack_as_it_is() {
    let attack = build_transition_matrix(6, 4, ONE / 3, DamageRoll::OneToRemaining).unwrap();
    let slow = slow_matrix(&attack, 1).unwrap();
    for from in 0..7 {
        assert_eq!(row(&slow, from), row(&attack, from));
    }
    assert!(matches!(slow_matrix(&attack, 0), Err(EngineError::ZeroAttackSpeed)));
}

#[test]
fn heal_moves_the_living_up_and_spares_the_dead() {
    let m = build_transition_matrix(4, 4, ONE, DamageRoll::OneToMax).unwrap();
    let start = ProbabilityState::at_full_health(4).unwrap();
    let hit = propagate_state(&start, &m).unwrap();
    assert_eq!(hit.masses(), &vec![ONE / 4, ONE / 4, ONE / 4, ONE / 4, 0]);
    let healed = heal_state(&hit, 1);
    assert_eq!(healed.masses(), &vec![ONE / 4, 0, ONE / 4, ONE / 4, ONE / 4]);
    let topped = heal_state(&hit, 3);
    assert_eq!(topped.masses(), &vec![ONE / 4, 0, 0, 0, ONE / 4 * 3]);
    let far = heal_state(&hit, usize::MAX);
    assert_eq!(far.masses(), topped.masses());
    assert_eq!(heal_state(&hit, 0).masses(), hit.masses());
}

#[test]
fn script_records_every_tick() {
    let boss = build_per_tick_matrix(20, 6, ONE / 2, 2).unwrap();
    let shield = build_per_tick_matrix(3, 1, ONE / 10, 4).unwrap();
    let start = ProbabilityState::at_full_health(20).unwrap();
    let script = Script {
        opening_ticks: 4,
        shield_ticks: 5,
        middle_ticks: 3,
        closing_ticks: 2,
        pause_ticks: 6,
        heal: 2,
        cap: ONE,
    };
    let log = run_script(&start, &boss, &shield, &script, 3).unwrap();
    assert_eq!(log.len(), 3 * (4 + 5 + 3 + 5 + 2 + 6));
    assert!(log.windows(2).all(|w| w[0] <= w[1]));
    assert_eq!(log[0], 0);
    // the pause records the same probability on each of its ticks
    assert!(log[19..25].windows(2).all(|w| w[0] == w[1]));
}

#[test]
fn script_ends_at_the_cap() {
    let boss = build_per_tick_matrix(5, 5, ONE, 1).unwrap();
    let shield = build_per_tick_matrix(3, 1, ONE / 10, 4).unwrap();
    let start = ProbabilityState::at_full_health(5).unwrap();
    let script = Script {
        opening_ticks: 50,
        shield_ticks: 5,
        middle_ticks: 3,
        closing_ticks: 2,
        pause_ticks: 6,
        heal: 1,
        cap: ONE / 2,
    };
    let log = run_script(&start, &boss, &shield, &script, 10).unwrap();
    assert!(log.len() < 50);
    assert!(log.iter().all(|p| *p < ONE / 2));
}

#[test]
fn coupled_series_is_cumulative_and_weighs_ticks() {
    let s = weapon_kill_times_markov_per_tick_with_delay(
        30, 12, ONE / 10 * 8, 5, 10, 4, ONE / 2, 4, 70, 4, 7, 3, 12, ONE / 100, 10, ONE / 100 * 99,
    )
    .unwrap();
    let log = &s.kill_prob_by_tick;
    assert!(!log.is_empty());
    assert!(log.windows(2).all(|w| w[0] <= w[1]));
    assert!(*log.last().unwrap() <= ONE);
    let mut expected: u128 = 0;
    let mut previous: u64 = 0;
    for (tick, p) in log.iter().enumerate() {
        expected += tick as u128 * (*p - previous) as u128;
        previous = *p;
    }
    assert_eq!(s.expected_ticks, expected);
}

#[test]
fn bad_coupled_requests_are_refused() {
    let f = weapon_kill_times_markov_per_tick_with_delay;
    let half = ONE / 2;
    assert!(matches!(
        f(30, 12, ONE + 1, 5, 10, 4, half, 4, 70, 4, 7, 3, 12, 1, 10, half),
        Err(EngineError::AccuracyOutOfRange)
    ));
    assert!(matches!(
        f(30, 12, half, 5, 10, 4, half, 4, 70, 4, 7, 3, 12, 1, 10, ONE + 1),
        Err(EngineError::CapOutOfRange)
    ));
    assert!(matches!(
        f(30, 12, half, 0, 10, 4, half, 4, 70, 4, 7, 3, 12, 1, 10, half),
        Err(EngineError::ZeroAttackSpeed)
    ));
    assert!(matches!(
        f(30, 12, half, 5, usize::MAX, 4, half, 4, 70, 4, 7, 3, 12, 1, 10, half),
        Err(EngineError::TooManyStates)
    ));
    assert!(matches!(
        f(30, 12, half, usize::MAX, 10, 4, half, 4, 70, 4, 7, 3, 12, 1, 10, half),
        Err(EngineError::TickOverflow)
    ));
}

#[test]
fn a_heal_of_more_than_all_is_a_heal_of_all() {
    let f = weapon_kill_times_markov_per_tick_with_delay;
    let whole = f(12, 4, ONE / 2, 3, 6, 1, ONE / 10, 4, 9, 2, 2, 1, 3, ONE, 4, ONE).unwrap();
    let more = f(12, 4, ONE / 2, 3, 6, 1, ONE / 10, 4, 9, 2, 2, 1, 3, u64::MAX, 4, ONE).unwrap();
    assert_eq!(whole.kill_prob_by_tick, more.kill_prob_by_tick);
    assert_eq!(whole.expected_ticks, more.expected_ticks);
    let none = f(12, 4, ONE / 2, 3, 6, 1, ONE / 10, 4, 9, 2, 2, 1, 3, 0, 4, ONE).unwrap();
    assert!(none.kill_prob_by_tick.last().unwrap() > whole.kill_prob_by_tick.last().unwrap());
}
