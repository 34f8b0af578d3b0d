use osrs_markov::error::EngineError;
use osrs_markov::montecarlo::{
    deviation_ticks, empirical_cdf, floor_root, lands, longest_trial, mean_ticks, simulate,
    struck, Clock, Combatant,
};
use osrs_markov::mutta::{round_to_four, simulate_mutta, MuttaFight};
use osrs_markov::prob::ONE;
use osrs_markov::series::weapon_kill_times_markov_per_tick_with_delay;
use osrs_markov::tekton::{is_attack_tick, is_side_hit_tick, simulate_tekton, TektonFight};

fn whip() -> Combatant {
    Combatant { max_hit: 8, accuracy: ONE / 10 * 7, attack_speed: 4 }
}

#[test]
fn a_seed_fixes_the_simulation() {
    let a = simulate(42, 500, 30, &whip(), 1000).unwrap();
    let b = simulate(42, 500, 30, &whip(), 1000).unwrap();
    let c = simulate(43, 500, 30, &whip(), 1000).unwrap();
    assert_eq!(a.tick_counts, b.tick_counts);
    assert_ne!(a.tick_counts, c.tick_counts);
    assert_eq!(a.unfinished, 0);
}

#[test]
fn rolls_vary_between_trials() {
    let sim = simulate(7, 200, 100, &Combatant { max_hit: 10, accuracy: ONE, attack_speed: 1 }, 500)
        .unwrap();
    let least = *sim.tick_counts.iter().min().unwrap();
    let most = *sim.tick_counts.iter().max().unwrap();
    // always rolling the maximum would take exactly 10 attacks every time
    assert!(least >= 10);
    assert!(most > least);
    assert!(sim.tick_counts.iter().all(|t| *t <= 500));
}

#[test]
fn ticks_are_whole_attacks() {
    let sim = simulate(1, 300, 25, &whip(), 1000).unwrap();
    assert!(sim.tick_counts.iter().all(|t| t % 4 == 0 && *t >= 4 * 4));
}

#[test]
fn simulated_mean_agrees_with_the_chain() {
    let trials = 100_000;
    let attacker = whip();
    let sim = simulate(2024, trials, 20, &attacker, 10_000).unwrap();
    assert_eq!(sim.unfinished, 0);
    let mean_attacks = mean_ticks(&sim.tick_counts).unwrap() as f64 / ONE as f64 / 4.0;
    let chain = weapon_kill_times_markov_per_tick_with_delay(20, 8, ONE / 10 * 7, ONE, 2000, 4, 0)
        .unwrap();
    let expected_attacks = chain.expected_hits as f64 / ONE as f64;
    assert!(expected_attacks > 7.0 && expected_attacks < 9.0);
    assert!((mean_attacks - expected_attacks).abs() / expected_attacks < 0.02);
}

#[test]
fn harmless_attackers_never_finish() {
    let blunt = Combatant { max_hit: 0, accuracy: ONE, attack_speed: 3 };
    let sim = simulate(5, 20, 4, &blunt, 50).unwrap();
    assert_eq!(sim.unfinished, 20);
    assert_eq!(sim.tick_counts, vec![150; 20]);
    let blind = Combatant { max_hit: 9, accuracy: 0, attack_speed: 3 };
    assert_eq!(simulate(5, 20, 4, &blind, 50).unwrap().unfinished, 20);
    let dead = simulate(5, 20, 0, &blunt, 50).unwrap();
    assert_eq!(dead.tick_counts, vec![0; 20]);
    assert_eq!(dead.unfinished, 0);
}

#[test]
fn bad_simulations_are_refused() {
    assert!(matches!(simulate(1, 0, 5, &whip(), 10), Err(EngineError::NoTrials)));
    let sure = Combatant { max_hit: 1, accuracy: ONE + 1, attack_speed: 1 };
    assert!(matches!(simulate(1, 5, 5, &sure, 10), Err(EngineError::AccuracyOutOfRange)));
    let still = Combatant { max_hit: 1, accuracy: ONE, attack_speed: 0 };
    assert!(matches!(simulate(1, 5, 5, &still, 10), Err(EngineError::ZeroAttackSpeed)));
    let slow = Combatant { max_hit: 1, accuracy: ONE, attack_speed: u32::MAX };
    assert!(matches!(simulate(1, 5, 5, &slow, u64::MAX), Err(EngineError::TickOverflow)));
}

#[test]
fn hits_and_damage_follow_the_draws() {
    assert!(lands(ONE / 2, 0));
    assert!(lands(ONE / 2, ONE / 2 - 1));
    assert!(!lands(ONE / 2, ONE / 2));
    assert!(!lands(0, 0));
    assert!(lands(ONE, ONE - 1));
    assert_eq!(struck(10, 3), 7);
    assert_eq!(struck(10, 10), 0);
    assert_eq!(struck(10, 11), 0);
    assert_eq!(struck(0, 0), 0);
}

#[test]
fn clock_spends_events() {
    let mut clock = Clock::new(2);
    assert!(clock.advance(7));
    assert!(clock.advance(u32::MAX));
    assert!(!clock.advance(1));
    assert_eq!(clock.ticks, 7 + u32::MAX as u64);
    assert_eq!(clock.left, 0);
}

#[test]
fn empirical_series_counts_finished_trials() {
    let ticks = vec![2, 4, 4, 1];
    assert_eq!(longest_trial(&ticks), 4);
    assert_eq!(
        empirical_cdf(&ticks).unwrap(),
        vec![0, ONE / 4, ONE / 2, ONE / 2, ONE]
    );
    assert_eq!(empirical_cdf(&vec![0, 0, 0]).unwrap(), vec![ONE]);
    assert_eq!(
        empirical_cdf(&vec![0, 1, 1]).unwrap(),
        vec![333_333_333_333_333_333, ONE]
    );
    assert!(matches!(empirical_cdf(&Vec::new()), Err(EngineError::NoTrials)));
}

#[test]
fn mean_is_exact_to_the_unit() {
    assert_eq!(mean_ticks(&vec![2, 4, 4, 1]), Some(2_750_000_000_000_000_000));
    assert_eq!(mean_ticks(&vec![1, 1, 2]), Some(1_333_333_333_333_333_333));
    assert_eq!(mean_ticks(&vec![u64::MAX, u64::MAX]), Some(u64::MAX as u128 * ONE as u128));
    assert_eq!(mean_ticks(&Vec::new()), None);
}

fn muttadiles(freeze: Option<Combatant>) -> MuttaFight {
    MuttaFight {
        small_hp: 250,
        large_hp: 500,
        small: Combatant { max_hit: 30, accuracy: ONE / 10 * 8, attack_speed: 4 },
        large: Combatant { max_hit: 40, accuracy: ONE / 10 * 6, attack_speed: 5 },
        freeze,
        woodcutting: 80,
    }
}

#[test]
fn muttadile_ticks_are_rounded_to_four() {
    for freeze in [None, Some(Combatant { max_hit: 60, accuracy: ONE / 2, attack_speed: 6 })] {
        let fight = muttadiles(freeze);
        let sim = simulate_mutta(11, 300, &fight, 100_000).unwrap();
        assert_eq!(sim.unfinished, 0);
        assert_eq!(sim.tick_counts.len(), 300);
        assert!(sim.tick_counts.iter().all(|t| t % 4 == 0 && *t >= 12));
        if freeze.is_some() {
            assert!(sim.phase_results.iter().all(|p| *p == 0));
            assert!(sim.tick_counts.iter().all(|t| *t >= 24));
        } else {
            assert!(sim.phase_results.iter().all(|p| *p > 0));
        }
        let again = simulate_mutta(11, 300, &fight, 100_000).unwrap();
        assert_eq!(sim.tick_counts, again.tick_counts);
    }
}

#[test]
fn muttadile_without_events_is_unfinished() {
    let sim = simulate_mutta(11, 10, &muttadiles(None), 1).unwrap();
    assert_eq!(sim.unfinished, 10);
    assert!(matches!(simulate_mutta(11, 0, &muttadiles(None), 10), Err(EngineError::NoTrials)));
    let mut fight = muttadiles(None);
    fight.large.attack_speed = 0;
    assert!(matches!(simulate_mutta(11, 5, &fight, 10), Err(EngineError::ZeroAttackSpeed)));
    fight.large.attack_speed = 4;
    fight.small.accuracy = ONE + 1;
    assert!(matches!(simulate_mutta(11, 5, &fight, 10), Err(EngineError::AccuracyOutOfRange)));
}

#[test]
fn rounding_to_four() {
    assert_eq!(round_to_four(0), 0);
    assert_eq!(round_to_four(1), 4);
    assert_eq!(round_to_four(4), 4);
    assert_eq!(round_to_four(21), 24);
}

fn tekton() -> TektonFight {
    let calm = Combatant { max_hit: 45, accuracy: ONE / 10 * 7, attack_speed: 4 };
    let enraged = Combatant { max_hit: 45, accuracy: ONE / 10 * 6, attack_speed: 4 };
    TektonFight {
        hp: 300,
        special: Combatant { max_hit: 70, accuracy: ONE / 10 * 8, attack_speed: 6 },
        calm_after_hit: calm,
        enraged_after_hit: enraged,
        calm_after_miss: Combatant { accuracy: ONE / 2, ..calm },
        enraged_after_miss: Combatant { accuracy: ONE / 10 * 4, ..enraged },
    }
}

#[test]
fn tekton_takes_at_least_the_opening() {
    let sim = simulate_tekton(3, 400, &tekton(), 100_000).unwrap();
    assert_eq!(sim.tick_counts.len(), 400);
    assert_eq!(sim.phase_results.len(), 400);
    assert_eq!(sim.hp_pre_anvil.len(), 400);
    assert!(sim.unfinished < 400);
    assert!(sim.tick_counts.iter().all(|t| *t >= 29));
    assert!(sim.hp_pre_anvil.iter().all(|hp| *hp <= 300));
    assert!(sim.phase_results.iter().all(|p| *p <= 2));
    let again = simulate_tekton(3, 400, &tekton(), 100_000).unwrap();
    assert_eq!(sim.tick_counts, again.tick_counts);
    assert_eq!(sim.phase_results, again.phase_results);
}

#[test]
fn tekton_without_events_is_unfinished() {
    let sim = simulate_tekton(3, 10, &tekton(), 2).unwrap();
    assert_eq!(sim.unfinished, 10);
    assert!(matches!(simulate_tekton(3, 0, &tekton(), 10), Err(EngineError::NoTrials)));
    let mut fight = tekton();
    fight.enraged_after_miss.attack_speed = 0;
    assert!(matches!(simulate_tekton(3, 5, &fight, 10), Err(EngineError::ZeroAttackSpeed)));
    fight.enraged_after_miss.attack_speed = 4;
    fight.special.accuracy = ONE + 1;
    assert!(matches!(simulate_tekton(3, 5, &fight, 10), Err(EngineError::AccuracyOutOfRange)));
}

#[test]
fn tekton_bout_ticks() {
    assert!(is_attack_tick(1, 4));
    assert!(is_attack_tick(2, 4));
    assert!(!is_attack_tick(5, 4));
    assert!(is_attack_tick(6, 4));
    assert!(!is_attack_tick(9, 4));
    assert!(is_side_hit_tick(1));
    assert!(!is_side_hit_tick(2));
    assert!(is_side_hit_tick(5));
    assert!(is_side_hit_tick(9));
}

#[test]
fn square_roots_are_rounded_down() {
    assert_eq!(floor_root(0), 0);
    assert_eq!(floor_root(1), 1);
    assert_eq!(floor_root(3), 1);
    assert_eq!(floor_root(4), 2);
    assert_eq!(floor_root(99), 9);
    assert_eq!(floor_root(27 * ONE as u128), 5_196_152_422);
    assert_eq!(floor_root(u128::MAX), u64::MAX);
}

#[test]
fn deviation_is_the_root_of_the_variance() {
    assert_eq!(deviation_ticks(&vec![2, 4, 4, 1]), Some(1_299_038_105));
    assert_eq!(deviation_ticks(&vec![5, 5, 5]), Some(0));
    assert_eq!(deviation_ticks(&vec![0, 2]), Some(1_000_000_000));
    assert_eq!(deviation_ticks(&Vec::new()), None);
    assert_eq!(deviation_ticks(&vec![u64::MAX, 0]), None);
    let sim = simulate(9, 2000, 40, &whip(), 1000).unwrap();
    let mean = mean_ticks(&sim.tick_counts).unwrap() as f64 / ONE as f64;
    let var = sim.tick_counts.iter().map(|t| (*t as f64 - mean).powi(2)).sum::<f64>() / 2000.0;
    let fixed = deviation_ticks(&sim.tick_counts).unwrap() as f64 / 1e9;
    assert!((var.sqrt() - fixed).abs() < 1e-6);
}

#[test]
fn tekton_room_is_checked() {
    let check = osrs_markov::tekton::check_room;
    assert_eq!(check(&vec![7545, 7544]), Ok(()));
    assert_eq!(check(&vec![7545, 7544, 1]), Ok(()));
    assert_eq!(check(&vec![]), Err(EngineError::NoMonsters));
    assert_eq!(check(&vec![7545]), Err(EngineError::MissingMonster));
    assert_eq!(check(&vec![7544, 7545]), Err(EngineError::WrongMonster));
    let same = osrs_markov::tekton::check_defences;
    assert_eq!(same(205, 205), Ok(()));
    assert_eq!(same(205, 246), Err(EngineError::UnequalDefence));
}

#[test]
fn encounters_need_their_monsters() {
    let need = osrs_markov::error::require_monsters;
    assert_eq!(need(2, 2), Ok(()));
    assert_eq!(need(5, 2), Ok(()));
    assert_eq!(need(1, 2), Err(EngineError::MissingMonster));
    assert_eq!(need(0, 0), Ok(()));
}

#[test]
fn every_trial_says_how_it_ended() {
    let sim = simulate(3, 50, 30, &whip(), 5).unwrap();
    assert_eq!(sim.finished.len(), 50);
    assert_eq!(sim.unfinished, sim.finished.iter().filter(|f| !**f).count());
    for (ticks, finished) in sim.tick_counts.iter().zip(sim.finished.iter()) {
        // five attacks of at most 8 cannot kill 30 hit points: 40 at most
        assert!(*ticks <= 20);
        if !*finished {
            assert_eq!(*ticks, 20);
        }
    }
    let tekton_sim = simulate_tekton(3, 40, &tekton(), 5000).unwrap();
    assert_eq!(tekton_sim.finished.len(), 40);
    assert_eq!(tekton_sim.unfinished, tekton_sim.finished.iter().filter(|f| !**f).count());
    let mutta_sim = simulate_mutta(3, 40, &muttadiles(None), 20).unwrap();
    assert_eq!(mutta_sim.finished.len(), 40);
    assert_eq!(mutta_sim.unfinished, mutta_sim.finished.iter().filter(|f| !**f).count());
}

#[test]
fn targets_without_hit_points_are_dead_at_once() {
    let mut gone = tekton();
    gone.hp = 0;
    let sim = simulate_tekton(3, 10, &gone, 3).unwrap();
    assert_eq!(sim.unfinished, 0);
    assert_eq!(sim.tick_counts, vec![29; 10]);
    assert_eq!(sim.phase_results, vec![0; 10]);
    let short = simulate_tekton(3, 10, &gone, 2).unwrap();
    assert_eq!(short.unfinished, 10);
    assert_eq!(short.tick_counts, vec![23; 10]);
    let freeze = Combatant { max_hit: 60, accuracy: ONE / 2, attack_speed: 6 };
    let mut none = muttadiles(Some(freeze));
    none.small_hp = 0;
    none.large_hp = 0;
    let frozen = simulate_mutta(3, 10, &none, 3).unwrap();
    assert_eq!(frozen.unfinished, 0);
    assert_eq!(frozen.tick_counts, vec![24; 10]);
    let mut bare = muttadiles(None);
    bare.small_hp = 0;
    bare.large_hp = 0;
    bare.woodcutting = 0;
    let chopped = simulate_mutta(3, 10, &bare, 2).unwrap();
    assert_eq!(chopped.unfinished, 0);
    assert_eq!(chopped.tick_counts, vec![16; 10]);
    assert_eq!(chopped.phase_results, vec![1; 10]);
}
