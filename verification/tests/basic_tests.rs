use osrs_markov::basic::{
    distribution_of_hits_to_kill, hitting_basic_npc, npc_state, single_matrix, thrall_matrix,
    weapon_and_thrall_kill_times, THRALL_ACCURACY,
};
use osrs_markov::error::EngineError;
use osrs_markov::prob::ONE;

#[test]
fn single_matrix_is_indexed_by_damage_taken() {
    let flat = single_matrix(ONE / 2, 2, 3).unwrap();
    let q = ONE / 4;
    assert_eq!(
        flat,
        vec![
            ONE / 2, q, q, 0, // untouched: a miss stays, 1 or 2 damage
            0, ONE / 2, q, q, // one damage taken
            0, 0, ONE / 2, ONE / 2, // two taken: both rolls kill
            0, 0, 0, ONE, // dead
        ]
    );
}

#[test]
fn single_matrix_without_damage_is_the_identity() {
    let flat = single_matrix(ONE / 3, 0, 2).unwrap();
    assert_eq!(flat, vec![ONE, 0, 0, 0, ONE, 0, 0, 0, ONE]);
}

#[test]
fn npc_starts_at_full_health() {
    assert_eq!(npc_state(3).unwrap(), vec![0, 0, 0, ONE]);
    assert_eq!(npc_state(0).unwrap(), vec![ONE]);
    assert!(matches!(npc_state(usize::MAX), Err(EngineError::TooManyStates)));
}

#[test]
fn hitting_moves_mass_towards_death() {
    assert_eq!(hitting_basic_npc(3, 2, ONE, 0).unwrap(), vec![0, 0, 0, ONE]);
    assert_eq!(hitting_basic_npc(3, 2, ONE, 1).unwrap(), vec![0, ONE / 2, ONE / 2, 0]);
    assert_eq!(
        hitting_basic_npc(3, 2, ONE, 2).unwrap(),
        vec![ONE / 4 * 3, ONE / 4, 0, 0]
    );
    assert_eq!(hitting_basic_npc(3, 2, ONE, 3).unwrap(), vec![ONE, 0, 0, 0]);
}

#[test]
fn one_sure_hit_kills_the_last_hit_point() {
    assert_eq!(hitting_basic_npc(1, 1, ONE, 1).unwrap(), vec![ONE, 0]);
    assert_eq!(hitting_basic_npc(1, 1, ONE, 0).unwrap(), vec![0, ONE]);
}

#[test]
fn hits_to_kill_start_with_the_untouched_target() {
    let d = distribution_of_hits_to_kill(3, 2, ONE, ONE, 100).unwrap();
    assert_eq!(d, vec![0, 0, ONE / 4 * 3, ONE]);
    let capped = distribution_of_hits_to_kill(3, 2, ONE, ONE / 2, 100).unwrap();
    assert_eq!(capped, vec![0, 0, ONE / 4 * 3]);
    let budget = distribution_of_hits_to_kill(3, 0, ONE, ONE / 2, 4).unwrap();
    assert_eq!(budget, vec![0; 5]);
}

#[test]
fn thrall_hits_three_times_in_four() {
    let m = thrall_matrix(5).unwrap();
    assert_eq!(THRALL_ACCURACY, ONE / 4 * 3);
    assert_eq!(m.get(5, 5), Some(ONE / 4));
    assert_eq!(m.get(5, 4), Some(ONE / 4));
    assert_eq!(m.get(5, 2), Some(ONE / 4));
    assert_eq!(m.get(5, 1), Some(0));
    assert_eq!(m.get(2, 0), Some(ONE / 2));
    assert_eq!(m.get(6, 0), None);
}

#[test]
fn weapon_and_thrall_attack_on_their_own_ticks() {
    // the weapon never hits: only the thrall, on ticks 2, 6, 10, ..., changes anything
    let t = weapon_and_thrall_kill_times(3, 5, 0, ONE, 7).unwrap();
    assert_eq!(t.len(), 7);
    assert_eq!(t[0], 0);
    assert_eq!(t[1], ONE / 4);
    assert_eq!(t[1], t[2]);
    assert_eq!(t[2], t[4]);
    assert!(t[5] > t[4]);
    assert_eq!(t[5], t[6]);
    // a weapon that kills for sure does so on tick 1
    let sure = weapon_and_thrall_kill_times(1, 1, ONE, ONE, 7).unwrap();
    assert_eq!(sure, vec![ONE]);
}

#[test]
fn too_large_a_matrix_is_refused() {
    assert!(matches!(single_matrix(ONE, 1, usize::MAX), Err(EngineError::TooManyStates)));
    assert!(matches!(single_matrix(ONE, 1, usize::MAX / 2), Err(EngineError::TooManyStates)));
    assert!(matches!(single_matrix(ONE + 1, 1, 2), Err(EngineError::AccuracyOutOfRange)));
}
