use osrs_markov::montecarlo::{simulate_kill, Combatant, Dice};
use osrs_markov::mutta::{mutta_trial, MuttaFight};
use osrs_markov::prob::ONE;
use osrs_markov::tekton::{tekton_trial, TektonFight};

fn sure(max_hit: u32, attack_speed: u32) -> Combatant {
    Combatant { max_hit, accuracy: ONE, attack_speed }
}

#[test]
fn scripted_dice_read_round_and_round() {
    let mut dice = Dice::scripted(vec![7, 0, 100]);
    assert_eq!(dice.draw(10), 7);
    assert_eq!(dice.draw(10), 0);
    assert_eq!(dice.draw(10), 10);
    assert_eq!(dice.draw(5), 5);
    assert_eq!(dice.draw(u64::MAX), 0);
    assert_eq!(dice.draw(0), 0);
    let mut blank = Dice::scripted(Vec::new());
    assert_eq!(blank.draw(9), 0);
    assert_eq!(blank.draw(9), 0);
}

#[test]
fn seeded_dice_stay_in_range() {
    let mut dice = Dice::seeded(77);
    let mut seen = [false; 4];
    for _ in 0..200 {
        let roll = dice.draw(3);
        assert!(roll <= 3);
        seen[roll as usize] = true;
    }
    assert_eq!(seen, [true; 4]);
    assert_eq!(dice.draw(0), 0);
}

#[test]
fn highest_rolls_kill_in_the_fewest_attacks() {
    let mut dice = Dice::scripted(vec![u64::MAX]);
    let trial = simulate_kill(&mut dice, 10, &sure(4, 3), 100);
    assert_eq!((trial.attacks, trial.ticks, trial.killed), (3, 9, true));
}

#[test]
fn misses_take_their_ticks() {
    // a miss, then a hit for 3, and so on
    let attacker = Combatant { max_hit: 5, accuracy: ONE / 2, attack_speed: 4 };
    let mut dice = Dice::scripted(vec![ONE / 2, 0, 3]);
    let trial = simulate_kill(&mut dice, 6, &attacker, 100);
    assert_eq!((trial.attacks, trial.ticks, trial.killed), (4, 16, true));
    let mut short = Dice::scripted(vec![ONE / 2, 0, 3]);
    let cut = simulate_kill(&mut short, 6, &attacker, 3);
    assert_eq!((cut.attacks, cut.ticks, cut.killed), (3, 12, false));
}

fn tekton(hp: u32) -> TektonFight {
    TektonFight {
        hp,
        special: sure(70, 6),
        calm_after_hit: sure(45, 4),
        enraged_after_hit: sure(45, 4),
        calm_after_miss: sure(1, 4),
        enraged_after_miss: sure(1, 4),
    }
}

#[test]
fn tekton_dies_in_the_first_bout() {
    let mut dice = Dice::scripted(vec![u64::MAX]);
    let trial = tekton_trial(&mut dice, &tekton(300), 1000);
    // 29 ticks of opening and specials, then four ticks of the bout
    assert_eq!((trial.ticks, trial.phases, trial.hp_pre_anvil, trial.finished), (33, 0, 0, true));
}

#[test]
fn tekton_dies_after_the_anvil() {
    let mut dice = Dice::scripted(vec![u64::MAX]);
    let trial = tekton_trial(&mut dice, &tekton(421), 1000);
    // seven ticks for the six attacks of the first bout, which leave one hit point;
    // six blows of the hammer take eighteen ticks and heal thirty; the next tick kills
    assert_eq!((trial.ticks, trial.phases, trial.hp_pre_anvil, trial.finished), (55, 1, 1, true));
}

#[test]
fn tekton_outlives_a_harmless_player() {
    let mut fight = tekton(300);
    fight.special.max_hit = 0;
    fight.calm_after_hit.max_hit = 0;
    fight.enraged_after_hit.max_hit = 0;
    let mut dice = Dice::scripted(vec![0]);
    let trial = tekton_trial(&mut dice, &fight, 10_000);
    assert!(!trial.finished);
    assert_eq!(trial.hp_pre_anvil, 300);
}

fn muttadiles(freeze: Option<Combatant>) -> MuttaFight {
    MuttaFight {
        small_hp: 20,
        large_hp: 30,
        small: sure(10, 4),
        large: sure(15, 5),
        freeze,
        woodcutting: 2,
    }
}

#[test]
fn muttadiles_with_the_tree_chopped() {
    let mut dice = Dice::scripted(vec![0, u64::MAX]);
    let trial = mutta_trial(&mut dice, &muttadiles(None), 1000);
    // five swings fell the tree by tick 20, the small one is dead by then; 4 ticks to
    // turn, 9 to cross, two attacks of 5 on the large one: 43, rounded up
    assert_eq!((trial.ticks, trial.phase_ticks, trial.finished), (44, 21, true));
}

#[test]
fn muttadiles_frozen() {
    let mut dice = Dice::scripted(vec![0, u64::MAX]);
    let trial = mutta_trial(&mut dice, &muttadiles(Some(sure(20, 6))), 1000);
    // small: two attacks and the freeze, 14; crossing, 23; large: two attacks and the
    // freeze, 39, rounded up
    assert_eq!((trial.ticks, trial.phase_ticks, trial.finished), (40, 0, true));
}

#[test]
fn a_missed_freeze_heals() {
    // the freeze never lands: accuracy 0
    let freeze = Combatant { max_hit: 20, accuracy: 0, attack_speed: 6 };
    let mut dice = Dice::scripted(vec![u64::MAX]);
    let trial = mutta_trial(&mut dice, &muttadiles(Some(freeze)), 1000);
    // small: 20 -> 0 in two attacks (8), the miss heals 10 (14), one more attack (18);
    // crossing (27); large: 30 -> 0 in two (37), heal 15 (43), one more (48)
    assert_eq!((trial.ticks, trial.phase_ticks, trial.finished), (48, 0, true));
}
