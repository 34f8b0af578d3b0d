//! The formulas that turn rolls and levels into what the engine takes: the accuracy of
//! an attack from the two maximum rolls, the maximum hit from the effective level, and
//! the choice of the style that deals most damage per tick.

use vstd::prelude::*;
use crate::error::EngineError;
use crate::prob::ONE;

verus! {

/// The largest roll that the accuracy formulas take.
pub const MAX_ROLL: u64 = 0xffff_ffff;

/// The chance that an attack roll up to `attack` beats a defence roll up to `defence`:
/// `1 - (d + 2) / (2 (a + 1))` where the attack roll is the larger, `a / (2 (d + 1))`
/// where it is not; in fixed point, rounded down.
pub open spec fn standard_accuracy(attack: int, defence: int) -> int {
    if attack > defence {
        (2 * attack - defence) * ONE / (2 * (attack + 1))
    } else {
        attack * ONE / (2 * (defence + 1))
    }
}

/// The chance of the fang's first form: `1 - (d + 2)(2d + 3) / (6 (a + 1)^2)`.
pub open spec fn fang_high(attack: int, defence: int) -> int {
    (6 * (attack + 1) * (attack + 1) - (defence + 2) * (2 * defence + 3)) * ONE / (6 * (attack
        + 1) * (attack + 1))
}

/// The chance of the fang's second form: `a (4a + 5) / (6 (a + 1)(d + 1))`.
pub open spec fn fang_low(attack: int, defence: int) -> int {
    attack * (4 * attack + 5) * ONE / (6 * (attack + 1) * (defence + 1))
}

/// The chance that the better of two attack rolls beats the defence roll, as the fang
/// rolls: the first form where the attack roll is the larger, the second where not.
pub open spec fn fang_accuracy(attack: int, defence: int) -> int {
    if attack > defence {
        fang_high(attack, defence)
    } else {
        fang_low(attack, defence)
    }
}

/// The chance of a hit with the gauntlets that make every attack after a miss roll
/// twice: `double / (1 + double - single)`, where `single` is the chance without them
/// and `double` the chance of the double roll.
pub open spec fn gauntlet_accuracy(single: int, double: int) -> int {
    if ONE + double - single > 0 {
        double * ONE / (ONE + double - single)
    } else {
        0
    }
}

/// The chance of the double roll that the gauntlets give.
pub open spec fn gauntlet_double(attack: int, defence: int) -> int {
    if attack >= defence {
        fang_high(attack, defence)
    } else {
        fang_low(attack, defence)
    }
}

/// `numerator * ONE / denominator` for a ratio that is at most 1, rounded down.
fn ratio_of(numerator: u128, denominator: u128) -> (p: u64)
    requires
        numerator <= denominator,
        0 < denominator,
        denominator <= 0x7_0000_0000_0000_0000,
    ensures
        p == numerator * ONE / (denominator as int),
        p <= ONE,
{
    proof {
        let one = ONE as int;
        assert(numerator * one <= denominator * one) by (nonlinear_arith)
            requires
                0 <= numerator <= denominator,
                0 <= one,
        ;
        assert(denominator * one <= 0x7_0000_0000_0000_0000 * one) by (nonlinear_arith)
            requires
                0 <= denominator <= 0x7_0000_0000_0000_0000,
                0 <= one,
        ;
        vstd::arithmetic::div_mod::lemma_div_is_ordered(
            numerator * one,
            denominator * one,
            denominator as int,
        );
        vstd::arithmetic::div_mod::lemma_div_multiples_vanish(one, denominator as int);
        assert(denominator * one == one * denominator) by (nonlinear_arith);
        assert(0 <= (numerator * one) / (denominator as int)) by (nonlinear_arith)
            requires
                0 <= numerator * one,
                denominator > 0,
        ;
    }
    (numerator * (ONE as u128) / denominator) as u64
}

/// The accuracy of an ordinary attack from its maximum attack roll and the maximum
/// defence roll against it.
pub fn accuracy_from_rolls(max_attack_roll: u64, max_defence_roll: u64) -> (result: Result<
    u64,
    EngineError,
>)
    ensures
        max_attack_roll > MAX_ROLL || max_defence_roll > MAX_ROLL ==> result == Err::<
            u64,
            EngineError,
        >(EngineError::RollOutOfRange),
        max_attack_roll <= MAX_ROLL && max_defence_roll <= MAX_ROLL ==> result == Ok::<
            u64,
            EngineError,
        >(standard_accuracy(max_attack_roll as int, max_defence_roll as int) as u64),
        result matches Ok(p) ==> p <= ONE,
{
    if max_attack_roll > MAX_ROLL || max_defence_roll > MAX_ROLL {
        return Err(EngineError::RollOutOfRange);
    }
    let a: u128 = max_attack_roll as u128;
    let d: u128 = max_defence_roll as u128;
    if a > d {
        Ok(ratio_of(2 * a - d, 2 * (a + 1)))
    } else {
        Ok(ratio_of(a, 2 * (d + 1)))
    }
}

/// The chance of the fang's first form.
fn fang_high_of(a: u128, d: u128) -> (p: u64)
    requires
        d <= a <= MAX_ROLL,
    ensures
        p == fang_high(a as int, d as int),
        p <= ONE,
{
    proof {
        assert((d + 2) * (2 * d + 3) <= (a + 2) * (2 * a + 3)) by (nonlinear_arith)
            requires
                0 <= d <= a,
        ;
        assert((a + 2) * (2 * a + 3) <= 6 * (a + 1) * (a + 1)) by (nonlinear_arith)
            requires
                0 <= a,
        ;
        assert(6 * (a + 1) * (a + 1) <= 6 * 0x1_0000_0000 * 0x1_0000_0000) by (nonlinear_arith)
            requires
                0 <= a <= 0xffff_ffff,
        ;
        assert((d + 2) * (2 * d + 3) >= 0) by (nonlinear_arith)
            requires
                0 <= d,
        ;
        assert(6 * (a + 1) * (a + 1) > 0) by (nonlinear_arith)
            requires
                0 <= a,
        ;
        assert(6 * (a + 1) <= 6 * 0x1_0000_0000) by (nonlinear_arith)
            requires
                0 <= a <= 0xffff_ffff,
        ;
    }
    let whole: u128 = 6 * (a + 1) * (a + 1);
    let lost: u128 = (d + 2) * (2 * d + 3);
    ratio_of(whole - lost, whole)
}

/// The chance of the fang's second form.
fn fang_low_of(a: u128, d: u128) -> (p: u64)
    requires
        a <= d <= MAX_ROLL,
    ensures
        p == fang_low(a as int, d as int),
        p <= ONE,
{
    proof {
        assert(a * (4 * a + 5) <= 6 * (a + 1) * (a + 1)) by (nonlinear_arith)
            requires
                0 <= a,
        ;
        assert(6 * (a + 1) * (a + 1) <= 6 * (a + 1) * (d + 1)) by (nonlinear_arith)
            requires
                0 <= a <= d,
        ;
        assert(6 * (a + 1) * (d + 1) <= 6 * 0x1_0000_0000 * 0x1_0000_0000) by (nonlinear_arith)
            requires
                0 <= a <= 0xffff_ffff,
                0 <= d <= 0xffff_ffff,
        ;
        assert(6 * (a + 1) * (d + 1) > 0) by (nonlinear_arith)
            requires
                0 <= a,
                0 <= d,
        ;
        assert(a * (4 * a + 5) >= 0) by (nonlinear_arith)
            requires
                0 <= a,
        ;
        assert(6 * (a + 1) <= 6 * 0x1_0000_0000) by (nonlinear_arith)
            requires
                0 <= a <= 0xffff_ffff,
        ;
    }
    ratio_of(a * (4 * a + 5), 6 * (a + 1) * (d + 1))
}

/// The accuracy of an attack with the fang, which rolls twice for accuracy.
pub fn fang_accuracy_from_rolls(max_attack_roll: u64, max_defence_roll: u64) -> (result: Result<
    u64,
    EngineError,
>)
    ensures
        max_attack_roll > MAX_ROLL || max_defence_roll > MAX_ROLL ==> result == Err::<
            u64,
            EngineError,
        >(EngineError::RollOutOfRange),
        max_attack_roll <= MAX_ROLL && max_defence_roll <= MAX_ROLL ==> result == Ok::<
            u64,
            EngineError,
        >(fang_accuracy(max_attack_roll as int, max_defence_roll as int) as u64),
        result matches Ok(p) ==> p <= ONE,
{
    if max_attack_roll > MAX_ROLL || max_defence_roll > MAX_ROLL {
        return Err(EngineError::RollOutOfRange);
    }
    let a: u128 = max_attack_roll as u128;
    let d: u128 = max_defence_roll as u128;
    if a > d {
        Ok(fang_high_of(a, d))
    } else {
        Ok(fang_low_of(a, d))
    }
}

/// The accuracy of an attack with the gauntlets, from the accuracy `single` that the
/// attack has without them.
pub fn gauntlet_accuracy_from_rolls(single: u64, max_attack_roll: u64, max_defence_roll: u64) -> (result:
    Result<u64, EngineError>)
    ensures
        single > ONE ==> result == Err::<u64, EngineError>(EngineError::AccuracyOutOfRange),
        single <= ONE && (max_attack_roll > MAX_ROLL || max_defence_roll > MAX_ROLL) ==> result
            == Err::<u64, EngineError>(EngineError::RollOutOfRange),
        single <= ONE && max_attack_roll <= MAX_ROLL && max_defence_roll <= MAX_ROLL ==> result
            == Ok::<u64, EngineError>(
            gauntlet_accuracy(
                single as int,
                gauntlet_double(max_attack_roll as int, max_defence_roll as int),
            ) as u64,
        ),
        result matches Ok(p) ==> p <= ONE,
{
    if single > ONE {
        return Err(EngineError::AccuracyOutOfRange);
    }
    if max_attack_roll > MAX_ROLL || max_defence_roll > MAX_ROLL {
        return Err(EngineError::RollOutOfRange);
    }
    let a: u128 = max_attack_roll as u128;
    let d: u128 = max_defence_roll as u128;
    let double: u64 = if a >= d {
        fang_high_of(a, d)
    } else {
        fang_low_of(a, d)
    };
    let below: u128 = ONE as u128 + double as u128 - single as u128;
    if below == 0 {
        Ok(0)
    } else {
        Ok(ratio_of(double as u128, below))
    }
}

/// The maximum hit of an effective level with an equipment bonus: the half-rounded
/// `level * (bonus + 64) / 640`, and 0 where the bonus is -64 or less.
pub open spec fn max_hit_of(effective_level: int, bonus: int) -> int {
    if bonus + 64 <= 0 {
        0
    } else if (effective_level * (bonus + 64) + 320) / 640 > u32::MAX {
        u32::MAX as int
    } else {
        (effective_level * (bonus + 64) + 320) / 640
    }
}

/// The maximum hit of an effective level with an equipment bonus.
pub fn max_hit_from_level(effective_level: u32, bonus: i32) -> (max_hit: u32)
    ensures
        max_hit == max_hit_of(effective_level as int, bonus as int),
{
    let spread: i64 = bonus as i64 + 64;
    if spread <= 0 {
        return 0;
    }
    proof {
        assert(effective_level * spread <= 0xffff_ffff * 0x8000_003f) by (nonlinear_arith)
            requires
                0 <= effective_level <= 0xffff_ffff,
                0 < spread <= 0x8000_003f,
        ;
        assert(0 <= effective_level * spread) by (nonlinear_arith)
            requires
                0 <= effective_level,
                0 < spread,
        ;
    }
    let scaled: u64 = (effective_level as u64) * (spread as u64);
    let hit: u64 = (scaled + 320) / 640;
    if hit > u32::MAX as u64 {
        u32::MAX
    } else {
        hit as u32
    }
}

/// The maximum hit of a pickaxe: the maximum hit scaled by `(110 + mining) / 150`,
/// rounded up.
pub open spec fn pickaxe_max_hit_of(base_max_hit: int, mining: int) -> int {
    if (base_max_hit * (110 + mining) + 149) / 150 > u32::MAX {
        u32::MAX as int
    } else {
        (base_max_hit * (110 + mining) + 149) / 150
    }
}

/// The maximum hit of a pickaxe in the hands of a miner of level `mining`.
pub fn pickaxe_max_hit(base_max_hit: u32, mining: u32) -> (max_hit: u32)
    ensures
        max_hit == pickaxe_max_hit_of(base_max_hit as int, mining as int),
{
    proof {
        assert(base_max_hit * (110 + mining) <= 0xffff_ffff * 0x1_0000_006d) by (nonlinear_arith)
            requires
                0 <= base_max_hit <= 0xffff_ffff,
                0 <= mining <= 0xffff_ffff,
        ;
        assert(0 <= base_max_hit * (110 + mining)) by (nonlinear_arith)
            requires
                0 <= base_max_hit,
                0 <= mining,
        ;
    }
    let scaled: u128 = (base_max_hit as u128) * (110 + mining as u128);
    let hit: u128 = (scaled + 149) / 150;
    if hit > u32::MAX as u128 {
        u32::MAX
    } else {
        hit as u32
    }
}

/// What is known of a style once its rolls are made: the style, and the numbers that
/// the engine and the comparison of styles take.
#[derive(Clone, Debug)]
pub struct StyleResult {
    pub combat_style: String,
    pub attack_type: String,
    pub max_hit: u32,
    pub accuracy: u64,
    pub effective_strength: u32,
    pub effective_attack: u32,
    pub max_attack_roll: u64,
    pub max_defence_roll: u64,
    pub att_spd_reduction: i32,
    /// Ticks between two attacks of the weapon, before the style's reduction.
    pub speed: i32,
}

impl StyleResult {
    /// The damage per attack, in units: the maximum hit times the accuracy.
    pub open spec fn damage(&self) -> int {
        self.max_hit * self.accuracy
    }

    /// The ticks between two attacks in this style.
    pub open spec fn interval(&self) -> int {
        self.speed - self.att_spd_reduction
    }

    /// Whether the style deals damage at all: some damage per attack, at an interval
    /// that is not negative.
    pub open spec fn deals_damage(&self) -> bool {
        self.damage() > 0 && self.interval() >= 0
    }

    /// Whether this style deals more damage per tick than `other`, both dealing some.
    /// An interval of 0 counts as damage without bound.
    pub open spec fn beats(&self, other: StyleResult) -> bool {
        if self.interval() == 0 {
            other.interval() > 0
        } else if other.interval() == 0 {
            false
        } else {
            self.damage() * other.interval() > other.damage() * self.interval()
        }
    }
}

/// Whether the first style deals damage.
fn style_deals_damage(style: &StyleResult) -> (deals: bool)
    ensures
        deals == style.deals_damage(),
{
    let interval: i64 = style.speed as i64 - style.att_spd_reduction as i64;
    proof {
        if style.max_hit > 0 && style.accuracy > 0 {
            assert(style.max_hit * style.accuracy > 0) by (nonlinear_arith)
                requires
                    style.max_hit > 0,
                    style.accuracy > 0,
            ;
        } else {
            assert(style.max_hit * style.accuracy == 0) by (nonlinear_arith)
                requires
                    style.max_hit == 0 || style.accuracy == 0,
            ;
        }
    }
    style.max_hit > 0 && style.accuracy > 0 && interval >= 0
}

/// Whether the first style deals more damage per tick than the second.
fn style_beats(first: &StyleResult, second: &StyleResult) -> (wins: bool)
    requires
        first.deals_damage(),
        second.deals_damage(),
    ensures
        wins == first.beats(*second),
{
    let first_interval: i64 = first.speed as i64 - first.att_spd_reduction as i64;
    let second_interval: i64 = second.speed as i64 - second.att_spd_reduction as i64;
    if first_interval == 0 {
        second_interval > 0
    } else if second_interval == 0 {
        false
    } else {
        proof {
            assert(first.max_hit * first.accuracy <= 0xffff_ffff * 0xffff_ffff_ffff_ffff)
                by (nonlinear_arith)
                requires
                    0 <= first.max_hit <= 0xffff_ffff,
                    0 <= first.accuracy <= 0xffff_ffff_ffff_ffff,
            ;
            assert(second.max_hit * second.accuracy <= 0xffff_ffff * 0xffff_ffff_ffff_ffff)
                by (nonlinear_arith)
                requires
                    0 <= second.max_hit <= 0xffff_ffff,
                    0 <= second.accuracy <= 0xffff_ffff_ffff_ffff,
            ;
            assert(first.damage() * second_interval <= 0xffff_ffff * 0xffff_ffff_ffff_ffff
                * 0xffff_ffff) by (nonlinear_arith)
                requires
                    0 <= first.damage() <= 0xffff_ffff * 0xffff_ffff_ffff_ffff,
                    0 < second_interval <= 0xffff_ffff,
            ;
            assert(second.damage() * first_interval <= 0xffff_ffff * 0xffff_ffff_ffff_ffff
                * 0xffff_ffff) by (nonlinear_arith)
                requires
                    0 <= second.damage() <= 0xffff_ffff * 0xffff_ffff_ffff_ffff,
                    0 < first_interval <= 0xffff_ffff,
            ;
            assert(0 <= first.damage() * second_interval) by (nonlinear_arith)
                requires
                    0 <= first.damage(),
                    0 < second_interval,
            ;
            assert(0 <= second.damage() * first_interval) by (nonlinear_arith)
                requires
                    0 <= second.damage(),
                    0 < first_interval,
            ;
        }
        let first_damage: u128 = (first.max_hit as u128) * (first.accuracy as u128);
        let second_damage: u128 = (second.max_hit as u128) * (second.accuracy as u128);
        first_damage * (second_interval as u128) > second_damage * (first_interval as u128)
    }
}

/// `best` is the best of the first `upto` styles: it deals damage, it beats every
/// earlier one that does, and no later one that does beats it. Nothing is the best
/// where no style deals damage.
pub open spec fn is_best(styles: Seq<StyleResult>, upto: int, best: Option<int>) -> bool {
    match best {
        Some(b) => {
            &&& 0 <= b < upto
            &&& styles[b].deals_damage()
            &&& forall|j: int|
                0 <= j < b && (#[trigger] styles[j]).deals_damage() ==> styles[b].beats(styles[j])
            &&& forall|j: int|
                b < j < upto && (#[trigger] styles[j]).deals_damage() ==> !styles[j].beats(
                    styles[b],
                )
        },
        None => forall|j: int| 0 <= j < upto ==> !(#[trigger] styles[j]).deals_damage(),
    }
}

/// What beats a style beats all that the style beats.
pub proof fn lemma_beats_onward(a: StyleResult, b: StyleResult, c: StyleResult)
    requires
        a.deals_damage(),
        b.deals_damage(),
        c.deals_damage(),
        a.beats(b),
        b.beats(c),
    ensures
        a.beats(c),
{
    if a.interval() > 0 {
        lemma_cross(a.damage(), a.interval(), b.damage(), b.interval(), c.damage(), c.interval());
    }
}

/// What beats a style beats all that do not beat the style.
pub proof fn lemma_beats_the_rest(a: StyleResult, b: StyleResult, c: StyleResult)
    requires
        a.deals_damage(),
        b.deals_damage(),
        c.deals_damage(),
        a.beats(b),
        !c.beats(b),
    ensures
        a.beats(c),
{
    if a.interval() > 0 {
        lemma_cross(a.damage(), a.interval(), b.damage(), b.interval(), c.damage(), c.interval());
    }
}

/// Of three fractions with positive denominators, the first is greater than the third
/// where it is greater than the second and the second is no less than the third.
proof fn lemma_cross(da: int, ia: int, db: int, ib: int, dc: int, ic: int)
    requires
        ia > 0,
        ib > 0,
        ic > 0,
        da * ib > db * ia,
        db * ic >= dc * ib,
    ensures
        da * ic > dc * ia,
{
    assert((da * ib) * ic > (db * ia) * ic) by (nonlinear_arith)
        requires
            da * ib > db * ia,
            ic > 0,
    ;
    assert((db * ic) * ia >= (dc * ib) * ia) by (nonlinear_arith)
        requires
            db * ic >= dc * ib,
            ia > 0,
    ;
    assert((db * ia) * ic == (db * ic) * ia) by (nonlinear_arith);
    assert((da * ib) * ic == (da * ic) * ib) by (nonlinear_arith);
    assert((dc * ib) * ia == (dc * ia) * ib) by (nonlinear_arith);
    assert(da * ic > dc * ia) by (nonlinear_arith)
        requires
            (da * ic) * ib > (dc * ia) * ib,
            ib > 0,
    ;
}

/// Picks the style that deals most damage per tick: the place in `styles` of the style
/// that beats every earlier style and that no later style beats, among those that deal
/// damage at all. Nothing where none does.
pub fn find_best_combat_style(styles: &Vec<StyleResult>) -> (best: Option<usize>)
    ensures
        is_best(
            styles@,
            styles@.len() as int,
            match best {
                Some(b) => Some(b as int),
                None => None,
            },
        ),
{
    let mut best: Option<usize> = None;
    let mut i: usize = 0;
    while i < styles.len()
        invariant
            i <= styles@.len(),
            is_best(
                styles@,
                i as int,
                match best {
                    Some(b) => Some(b as int),
                    None => None,
                },
            ),
        decreases styles@.len() - i,
    {
        if style_deals_damage(&styles[i]) {
            match best {
                None => {
                    best = Some(i);
                },
                Some(h) => {
                    if style_beats(&styles[i], &styles[h]) {
                        proof {
                            let now = styles@[i as int];
                            let held = styles@[h as int];
                            assert forall|j: int|
                                0 <= j < i && (#[trigger] styles@[j]).deals_damage() implies now.beats(
                                styles@[j],
                            ) by {
                                if j < h {
                                    lemma_beats_onward(now, held, styles@[j]);
                                } else if j > h {
                                    lemma_beats_the_rest(now, held, styles@[j]);
                                }
                            }
                        }
                        best = Some(i);
                    }
                },
            }
        }
        i = i + 1;
    }
    best
}

} // verus!
