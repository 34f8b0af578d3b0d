use osrs_markov::combat::{
    accuracy_from_rolls, fang_accuracy_from_rolls, find_best_combat_style,
    gauntlet_accuracy_from_rolls, max_hit_from_level, pickaxe_max_hit, StyleResult, MAX_ROLL,
};
use osrs_markov::error::EngineError;
use osrs_markov::prob::ONE;

#[test]
fn accuracy_follows_the_two_rolls() {
    assert_eq!(accuracy_from_rolls(100, 50), Ok(742_574_257_425_742_574));
    assert_eq!(accuracy_from_rolls(50, 100), Ok(247_524_752_475_247_524));
    assert_eq!(accuracy_from_rolls(7, 7), Ok(437_500_000_000_000_000));
    assert_eq!(accuracy_from_rolls(0, 0), Ok(0));
    assert_eq!(accuracy_from_rolls(MAX_ROLL, 0), Ok(999_999_999_767_169_356));
}

#[test]
fn accuracy_agrees_with_the_real_formula() {
    for a in (0u64..40_000).step_by(977) {
        for d in (0u64..40_000).step_by(1013) {
            let real = if a > d {
                1.0 - (d as f64 + 2.0) / (2.0 * (a as f64 + 1.0))
            } else {
                a as f64 / (2.0 * (d as f64 + 1.0))
            };
            let fixed = accuracy_from_rolls(a, d).unwrap() as f64 / ONE as f64;
            assert!((real - fixed).abs() < 1e-12);
            let fang_real = if a > d {
                1.0 - ((d as f64 + 2.0) * (2.0 * d as f64 + 3.0))
                    / (6.0 * (a as f64 + 1.0).powf(2.0))
            } else {
                (a as f64 * (4.0 * a as f64 + 5.0))
                    / (6.0 * (a as f64 + 1.0) * (d as f64 + 1.0))
            };
            let fang_fixed = fang_accuracy_from_rolls(a, d).unwrap() as f64 / ONE as f64;
            assert!((fang_real - fang_fixed).abs() < 1e-12);
        }
    }
}

#[test]
fn fang_rolls_twice() {
    assert_eq!(fang_accuracy_from_rolls(100, 50), Ok(912_492_239_322_942_195));
    assert_eq!(fang_accuracy_from_rolls(50, 100), Ok(331_650_812_140_037_533));
    assert_eq!(fang_accuracy_from_rolls(7, 7), Ok(601_562_500_000_000_000));
}

#[test]
fn gauntlets_reroll_after_a_miss() {
    assert_eq!(
        gauntlet_accuracy_from_rolls(742_574_257_425_742_574, 100, 50),
        Ok(779_962_572_968_745_635)
    );
    assert_eq!(
        gauntlet_accuracy_from_rolls(247_524_752_475_247_524, 50, 100),
        Ok(305_915_358_443_263_892)
    );
    // with equal rolls the double roll takes the first form
    assert_eq!(
        gauntlet_accuracy_from_rolls(437_500_000_000_000_000, 7, 7),
        Ok(516_778_523_489_932_885)
    );
}

#[test]
fn rolls_beyond_the_range_are_refused() {
    assert_eq!(accuracy_from_rolls(MAX_ROLL + 1, 5), Err(EngineError::RollOutOfRange));
    assert_eq!(accuracy_from_rolls(5, MAX_ROLL + 1), Err(EngineError::RollOutOfRange));
    assert_eq!(fang_accuracy_from_rolls(u64::MAX, 5), Err(EngineError::RollOutOfRange));
    assert_eq!(
        gauntlet_accuracy_from_rolls(ONE + 1, 5, 5),
        Err(EngineError::AccuracyOutOfRange)
    );
    assert_eq!(
        gauntlet_accuracy_from_rolls(ONE, 5, u64::MAX),
        Err(EngineError::RollOutOfRange)
    );
}

#[test]
fn maximum_hit_is_rounded_to_the_nearest() {
    assert_eq!(max_hit_from_level(118, 100), 30);
    assert_eq!(max_hit_from_level(99, 0), 10);
    assert_eq!(max_hit_from_level(0, 200), 0);
    assert_eq!(max_hit_from_level(118, -64), 0);
    assert_eq!(max_hit_from_level(118, i32::MIN), 0);
    assert_eq!(max_hit_from_level(u32::MAX, i32::MAX), u32::MAX);
    for level in 1u32..200 {
        for bonus in [-30i32, 0, 17, 133] {
            let real = (0.5 + (level as f64 * (bonus as f64 + 64.0)) / 640.0).floor() as u32;
            assert_eq!(max_hit_from_level(level, bonus), real);
        }
    }
}

#[test]
fn pickaxe_scales_with_mining() {
    assert_eq!(pickaxe_max_hit(30, 99), 42);
    assert_eq!(pickaxe_max_hit(30, 40), 30);
    assert_eq!(pickaxe_max_hit(0, 99), 0);
    assert_eq!(pickaxe_max_hit(u32::MAX, u32::MAX), u32::MAX);
}

fn style(name: &str, max_hit: u32, accuracy: u64, speed: i32, reduction: i32) -> StyleResult {
    StyleResult {
        combat_style: name.to_string(),
        attack_type: "slash".to_string(),
        max_hit,
        accuracy,
        effective_strength: 0,
        effective_attack: 0,
        max_attack_roll: 0,
        max_defence_roll: 0,
        att_spd_reduction: reduction,
        speed,
    }
}

#[test]
fn best_style_deals_most_damage_per_tick() {
    let styles = vec![
        style("accurate", 30, ONE / 2, 4, 0),
        style("aggressive", 33, ONE / 2, 4, 0),
        style("rapid", 30, ONE / 2, 4, 1),
        style("defensive", 40, ONE / 4, 4, 0),
    ];
    assert_eq!(find_best_combat_style(&styles), Some(2));
}

#[test]
fn first_of_equal_styles_is_kept() {
    let styles = vec![
        style("a", 10, ONE / 2, 4, 0),
        style("b", 20, ONE / 4, 4, 0),
        style("c", 5, ONE, 4, 0),
    ];
    assert_eq!(find_best_combat_style(&styles), Some(0));
}

#[test]
fn harmless_styles_are_never_best() {
    assert_eq!(find_best_combat_style(&Vec::new()), None);
    let styles = vec![
        style("no hit", 0, ONE, 4, 0),
        style("no accuracy", 30, 0, 4, 0),
        style("backwards", 30, ONE, 4, 5),
    ];
    assert_eq!(find_best_combat_style(&styles), None);
    let with_one = vec![
        style("no hit", 0, ONE, 4, 0),
        style("weak", 1, 1, 7, 0),
        style("backwards", 30, ONE, 4, 5),
    ];
    assert_eq!(find_best_combat_style(&with_one), Some(1));
}

#[test]
fn an_interval_of_zero_beats_every_other() {
    let styles = vec![
        style("strong", 90, ONE, 2, 0),
        style("instant", 1, 1, 3, 3),
        style("also instant", 50, ONE, 5, 5),
    ];
    assert_eq!(find_best_combat_style(&styles), Some(1));
}
