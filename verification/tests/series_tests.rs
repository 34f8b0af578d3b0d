use osrs_markov::basic::kill_time_distribution_matrix;
use osrs_markov::error::EngineError;
use osrs_markov::matrix::{build_transition_matrix, DamageRoll};
use osrs_markov::prob::ONE;
use osrs_markov::series::{
    attack_series, expectation, round_up_to, weapon_kill_times_markov_per_tick_with_delay,
    CADENCE_TICKS,
};
use osrs_markov::state::{propagate_state, ProbabilityState};

fn non_decreasing_and_bounded(series: &[u64]) -> bool {
    series.windows(2).all(|w| w[0] <= w[1]) && series.iter().all(|p| *p <= ONE)
}

#[test]
fn coin_flip_series_and_expectations_are_exact() {
    // One hit point, damage 0 or 1 with equal odds on a certain hit: each attack kills
    // with probability one half.
    let s = weapon_kill_times_markov_per_tick_with_delay(1, 1, ONE, ONE, 5, 4, 2).unwrap();
    assert_eq!(
        s.kill_times,
        vec![0, 0, ONE / 2, ONE / 4 * 3, ONE / 8 * 7]
    );
    assert_eq!(s.attack_speed, 4);
    // 1 * 1/2 + 2 * 1/4 + 3 * 1/8
    assert_eq!(s.expected_hits, 1_375_000_000_000_000_000u128);
    // ticks 7, 11, 15 weigh 8.125, which the cadence of four rounds up to 12
    assert_eq!(s.expected_ticks, 12 * ONE as u128);
}

#[test]
fn expectation_weighs_each_gain() {
    let series = vec![ONE / 2, ONE / 4 * 3, ONE / 8 * 7];
    assert_eq!(expectation(&series, 0, 7, 4), 8_125_000_000_000_000_000u128);
    assert_eq!(expectation(&series, 0, 1, 1), 1_375_000_000_000_000_000u128);
    assert_eq!(expectation(&Vec::new(), 0, 1, 1), 0);
}

#[test]
fn rounding_goes_up_to_the_next_multiple() {
    let unit = CADENCE_TICKS as u128 * ONE as u128;
    assert_eq!(round_up_to(0, unit), Some(0));
    assert_eq!(round_up_to(1, unit), Some(unit));
    assert_eq!(round_up_to(unit, unit), Some(unit));
    assert_eq!(round_up_to(unit + 1, unit), Some(2 * unit));
    assert_eq!(round_up_to(10, 4), Some(12));
    assert_eq!(round_up_to(7, 0), None);
    assert_eq!(round_up_to(u128::MAX, 4), None);
}

#[test]
fn generated_series_never_decrease() {
    for hp in [1usize, 5, 30] {
        for max_hit in [0usize, 1, 4, 50] {
            for accuracy in [0u64, ONE / 10, ONE / 3, ONE] {
                let s = weapon_kill_times_markov_per_tick_with_delay(
                    hp, max_hit, accuracy, ONE / 100 * 99, 200, 4, 3,
                )
                .unwrap();
                assert!(non_decreasing_and_bounded(&s.kill_times));
                assert_eq!(s.expected_ticks % (4 * ONE as u128), 0);
            }
        }
    }
}

#[test]
fn series_stops_at_the_cap() {
    let cap = ONE / 100 * 99;
    let s = weapon_kill_times_markov_per_tick_with_delay(10, 4, ONE / 2, cap, 1000, 4, 0).unwrap();
    let n = s.kill_times.len();
    assert!(n < 1000);
    assert!(s.kill_times[n - 1] >= cap);
    assert!(s.kill_times[..n - 1].iter().all(|p| *p < cap));
}

#[test]
fn series_stops_at_the_budget() {
    let s = weapon_kill_times_markov_per_tick_with_delay(200, 1, ONE / 10, ONE, 50, 4, 10).unwrap();
    assert_eq!(s.kill_times.len(), 50);
    assert!(s.kill_times[..10].iter().all(|p| *p == 0));
}

#[test]
fn delay_longer_than_the_budget_leaves_no_attack() {
    let s = weapon_kill_times_markov_per_tick_with_delay(5, 3, ONE, ONE, 4, 4, 9).unwrap();
    assert_eq!(s.kill_times, vec![0; 9]);
    assert_eq!(s.expected_hits, 0);
    assert_eq!(s.expected_ticks, 0);
}

#[test]
fn no_damage_means_no_death() {
    let s = weapon_kill_times_markov_per_tick_with_delay(7, 0, ONE, ONE / 2, 40, 4, 0).unwrap();
    assert_eq!(s.kill_times, vec![0; 40]);
    let t = kill_time_distribution_matrix(7, 0, ONE / 3, ONE / 2, 25).unwrap();
    assert_eq!(t, vec![0; 25]);
}

#[test]
fn no_accuracy_means_no_death() {
    let s = weapon_kill_times_markov_per_tick_with_delay(7, 9, 0, ONE / 2, 40, 4, 0).unwrap();
    assert_eq!(s.kill_times, vec![0; 40]);
    assert_eq!(s.expected_hits, 0);
}

#[test]
fn a_dead_target_needs_no_attack() {
    let s = weapon_kill_times_markov_per_tick_with_delay(0, 5, ONE / 2, ONE / 2, 40, 4, 3).unwrap();
    assert_eq!(s.kill_times, vec![ONE; 3]);
}

#[test]
fn repeated_attacks_pass_any_reasonable_cap() {
    let cap = ONE / 1000 * 999;
    let t = kill_time_distribution_matrix(99, 30, ONE / 5, cap, 5000).unwrap();
    assert!(t.len() < 5000);
    assert!(*t.last().unwrap() >= cap);
}

#[test]
fn attack_series_matches_repeated_propagation() {
    let m = build_transition_matrix(6, 3, ONE / 3 * 2, DamageRoll::OneToRemaining).unwrap();
    let start = ProbabilityState::at_full_health(6).unwrap();
    let series = attack_series(&m, &start, ONE, 12).unwrap();
    assert_eq!(series.len(), 12);
    let mut state = start.duplicate();
    for k in 0..12 {
        state = propagate_state(&state, &m).unwrap();
        assert_eq!(series[k], state.dead());
        assert_eq!(state.masses().iter().sum::<u64>(), ONE);
    }
}

#[test]
fn mismatched_state_and_matrix_are_refused() {
    let m = build_transition_matrix(6, 3, ONE, DamageRoll::OneToMax).unwrap();
    let s = ProbabilityState::at_full_health(5).unwrap();
    assert!(matches!(propagate_state(&s, &m), Err(EngineError::SizeMismatch)));
    assert!(matches!(attack_series(&m, &s, ONE, 3), Err(EngineError::SizeMismatch)));
}

#[test]
fn bad_series_requests_are_refused() {
    let f = weapon_kill_times_markov_per_tick_with_delay;
    assert!(matches!(f(5, 3, ONE + 1, ONE, 10, 4, 0), Err(EngineError::AccuracyOutOfRange)));
    assert!(matches!(f(5, 3, ONE, ONE + 1, 10, 4, 0), Err(EngineError::CapOutOfRange)));
    assert!(matches!(f(5, 3, ONE, ONE, 10, 0, 0), Err(EngineError::ZeroAttackSpeed)));
    assert!(matches!(f(usize::MAX, 3, ONE, ONE, 10, 4, 0), Err(EngineError::TooManyStates)));
    assert!(matches!(
        f(5, 3, ONE, ONE, usize::MAX, usize::MAX, 0),
        Err(EngineError::TickOverflow)
    ));
}

#[test]
fn a_tick_lasts_three_fifths_of_a_second() {
    let f = osrs_markov::series::ticks_to_seconds;
    assert_eq!(f(0), 0);
    assert_eq!(f(12 * ONE as u128), 7_200_000_000_000_000_000);
    assert_eq!(f(1), 0);
    assert_eq!(f(2), 1);
    assert_eq!(f(4), 2);
    assert_eq!(f(u128::MAX), u128::MAX / 5 * 3);
}
