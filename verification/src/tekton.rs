//! The Tekton fight, simulated: two special attacks that drain its defence, a first
//! bout, and then visits to the anvil, each followed by a bout against Tekton as it
//! comes back and a bout against Tekton enraged.

use vstd::prelude::*;
use crate::error::EngineError;
use crate::montecarlo::{
    Combatant, Clock, Dice, draw_up_to, attack_roll, lands, scripted_roll, scripted_next,
    attack_replay, attack_uses, holds, lemma_holds_split, lemma_holds_roll, unfinished_among,
    lemma_unfinished_among_push,
};
use crate::prob::ONE;

verus! {

/// Ticks before the first special attack lands.
pub const OPENING_TICKS: u32 = 17;

/// Ticks that each special attack takes.
pub const SPECIAL_TICKS: u32 = 6;

/// Attacks made before Tekton first walks to the anvil.
pub const FIRST_BOUT_ATTACKS: u32 = 6;

/// Attacks made, after each visit to the anvil, before Tekton is enraged, counted over
/// the whole fight.
pub const CALM_ATTACKS: u32 = 5;

/// Attacks made until Tekton's rage is over, counted over the whole fight.
pub const RAGE_ATTACKS: u32 = 9;

/// The highest damage of the hit that falls on the first tick of a bout and on every
/// fourth tick after it.
pub const SIDE_HIT: u64 = 5;

/// The side hit falls on the ticks of a bout that leave 1 when divided by this.
pub const SIDE_PERIOD: u64 = 4;

/// The fewest hammer blows of a visit to the anvil; up to three more follow.
pub const ANVIL_BLOWS: u64 = 3;

/// Hit points that each hammer blow restores.
pub const BLOW_HEAL: i64 = 5;

/// Ticks that each hammer blow takes.
pub const BLOW_TICKS: u32 = 3;

/// The identifier of Tekton as it is met.
pub const TEKTON: u32 = 7545;

/// The identifier of Tekton enraged.
pub const TEKTON_ENRAGED: u32 = 7544;

/// The refusal, if any, of the monsters of a room as the two forms of Tekton, given
/// their identifiers in the order of the room.
pub open spec fn room_refusal(ids: Seq<u32>) -> Option<EngineError> {
    if ids.len() == 0 {
        Some(EngineError::NoMonsters)
    } else if ids.len() < 2 {
        Some(EngineError::MissingMonster)
    } else if ids[0] != TEKTON || ids[1] != TEKTON_ENRAGED {
        Some(EngineError::WrongMonster)
    } else {
        None
    }
}

/// Checks that a room holds Tekton and then Tekton enraged.
pub fn check_room(ids: &Vec<u32>) -> (result: Result<(), EngineError>)
    ensures
        result == match room_refusal(ids@) {
            Some(e) => Err::<(), EngineError>(e),
            None => Ok::<(), EngineError>(()),
        },
{
    if ids.len() == 0 {
        Err(EngineError::NoMonsters)
    } else if ids.len() < 2 {
        Err(EngineError::MissingMonster)
    } else if ids[0] != TEKTON || ids[1] != TEKTON_ENRAGED {
        Err(EngineError::WrongMonster)
    } else {
        Ok(())
    }
}

/// Checks that the two forms of Tekton have one defence level: the special attacks
/// drain both alike.
pub fn check_defences(calm: u32, enraged: u32) -> (result: Result<(), EngineError>)
    ensures
        calm == enraged ==> result.is_ok(),
        calm != enraged ==> result == Err::<(), EngineError>(EngineError::UnequalDefence),
{
    if calm == enraged {
        Ok(())
    } else {
        Err(EngineError::UnequalDefence)
    }
}

/// What the simulation needs to know of the fight.
#[derive(Clone, Copy, Debug)]
pub struct TektonFight {
    /// Tekton's hit points.
    pub hp: u32,
    /// The special attack: its maximum hit and its accuracy.
    pub special: Combatant,
    /// The attack on Tekton as it is after the second special attack has hit.
    pub calm_after_hit: Combatant,
    /// The attack on Tekton enraged, after the second special attack has hit.
    pub enraged_after_hit: Combatant,
    /// The attack on Tekton as it is after the second special attack has missed.
    pub calm_after_miss: Combatant,
    /// The attack on Tekton enraged, after the second special attack has missed.
    pub enraged_after_miss: Combatant,
}

/// How one trial of the fight ended. A trial is unfinished where the events ran out, or
/// where Tekton outlived its rage: no attack is scripted after that.
#[derive(Clone, Copy, Debug)]
pub struct TektonTrial {
    /// Ticks taken.
    pub ticks: u64,
    /// Visits to the anvil.
    pub phases: u32,
    /// Hit points left after the last attack of the first bout, where Tekton lived
    /// through that bout.
    pub hp_pre_anvil: u64,
    /// Whether Tekton died.
    pub finished: bool,
}

/// Whether the player attacks on tick `tick` of a bout: on the first, and on every
/// later one that is not a whole number of attack intervals after it.
pub open spec fn attacks_on(tick: int, attack_speed: int) -> bool {
    tick == 1 || (tick - 1) % attack_speed != 0
}

/// Whether the side hit falls on tick `tick` of a bout.
pub open spec fn side_hit_on(tick: int) -> bool {
    tick == 1 || (tick - 1) % (SIDE_PERIOD as int) == 0
}

/// Whether the player attacks on tick `tick` of a bout.
pub fn is_attack_tick(tick: u64, attack_speed: u32) -> (attack: bool)
    requires
        tick >= 1,
        attack_speed >= 1,
    ensures
        attack == attacks_on(tick as int, attack_speed as int),
{
    tick == 1 || (tick - 1) % (attack_speed as u64) != 0
}

/// Whether the side hit falls on tick `tick` of a bout.
pub fn is_side_hit_tick(tick: u64) -> (hit: bool)
    requires
        tick >= 1,
    ensures
        hit == side_hit_on(tick as int),
{
    tick == 1 || (tick - 1) % SIDE_PERIOD == 0
}

/// The state of a bout: hit points, attacks made in it, and the tick of the bout.
#[derive(Clone, Copy, Debug)]
pub struct Bout {
    pub hp: i64,
    pub made: u32,
    pub tick: u64,
}

/// Hit points within the range that a fight can reach with the events that are left.
pub open spec fn fight_in_range(hp: int, left: int) -> bool {
    -0x4_0000_0000 <= hp && hp + 32 * left <= 0x40_0000_0000
}

/// A bout that begins with `hp` hit points at tick `tick` of the bout.
pub open spec fn fresh_bout(hp: i64, tick: u64) -> Bout {
    Bout { hp, made: 0, tick }
}

/// Where a bout, the dice and the clock stand.
pub struct BoutEnd {
    pub bout: Bout,
    pub place: int,
    pub clock: Clock,
}

/// A bout with dice at `place` and a clock.
pub open spec fn bout_end(bout: Bout, place: int, clock: Clock) -> BoutEnd {
    BoutEnd { bout, place, clock }
}

/// What scripted dice make of a bout: as long as attacks are wanted, Tekton lives and an
/// event is left, one more tick passes. On it the side hit is rolled where it is due,
/// and the player's attack where it is due and Tekton still lives.
pub open spec fn bout_replay(
    tape: Seq<u64>,
    place: int,
    clock: Clock,
    bout: Bout,
    attacker: Combatant,
    wanted: u32,
) -> BoutEnd
    decreases clock.left,
{
    if bout.made < wanted && bout.hp > 0 && clock.left > 0 {
        let tick = (bout.tick + 1) as u64;
        let side = side_hit_on(tick as int);
        let side_roll = if side {
            scripted_roll(tape, place, SIDE_HIT)
        } else {
            0
        };
        let then = if side {
            scripted_next(tape, place)
        } else {
            place
        };
        let hp = (bout.hp - side_roll) as i64;
        let attacks = hp > 0 && attacks_on(tick as int, attacker.attack_speed as int);
        let attack = if attacks {
            attack_replay(tape, then, attacker.accuracy, attacker.max_hit)
        } else {
            (0u64, then)
        };
        bout_replay(
            tape,
            attack.1,
            clock.after(1),
            Bout {
                hp: (hp - attack.0) as i64,
                made: if attacks {
                    (bout.made + 1) as u32
                } else {
                    bout.made
                },
                tick,
            },
            attacker,
            wanted,
        )
    } else {
        bout_end(bout, place, clock)
    }
}

/// The rolls `used` are those of a bout that ends as `bout` while the clock goes from
/// `clock` to `stopped`: from whatever tape holds them, the bout rolls just them and
/// ends just so.
pub open spec fn bout_uses(
    used: Seq<u64>,
    clock: Clock,
    begun: Bout,
    attacker: Combatant,
    wanted: u32,
    bout: Bout,
    stopped: Clock,
) -> bool {
    forall|tape: Seq<u64>, at: int| #[trigger]
        holds(tape, at, used) ==> bout_replay(tape, at, clock, begun, attacker, wanted)
            == bout_end(bout, at + used.len(), stopped)
}

/// Fights a bout tick by tick until `wanted` attacks are made in it, Tekton is dead or
/// no event is left.
pub(crate) fn tekton_bout(
    dice: &mut Dice,
    clock: &mut Clock,
    hp: i64,
    attacker: &Combatant,
    wanted: u32,
    tick: u64,
) -> (bout: Bout)
    requires
        old(clock).wf(),
        attacker.attack_speed >= 1,
        fight_in_range(hp as int, old(clock).left as int),
        tick <= u32::MAX - old(clock).left,
    ensures
        final(clock).wf(),
        final(clock).left <= old(clock).left,
        final(clock).ticks - old(clock).ticks == old(clock).left - final(clock).left,
        bout.tick - tick == old(clock).left - final(clock).left,
        bout.made <= wanted,
        bout.hp <= hp,
        fight_in_range(bout.hp as int, final(clock).left as int),
        bout.made == wanted || bout.hp <= 0 || final(clock).left == 0,
        hp <= 0 || wanted == 0 ==> bout.hp == hp && bout.made == 0 && *final(clock) == *old(clock),
        final(dice).follows(*old(dice)),
        *old(dice) is Scripted ==> bout_replay(
            old(dice).tape(),
            old(dice).place(),
            *old(clock),
            fresh_bout(hp, tick),
            *attacker,
            wanted,
        ) == bout_end(bout, final(dice).place(), *final(clock)),
        exists|used: Seq<u64>|
            bout_uses(
                used,
                *old(clock),
                fresh_bout(hp, tick),
                *attacker,
                wanted,
                bout,
                *final(clock),
            ),
{
    let mut bout: Bout = Bout { hp, made: 0, tick };
    let ghost mut used: Seq<u64> = Seq::empty();
    while bout.made < wanted && bout.hp > 0 && clock.left > 0
        invariant
            clock.wf(),
            attacker.attack_speed >= 1,
            clock.left <= old(clock).left,
            clock.ticks - old(clock).ticks == old(clock).left - clock.left,
            bout.tick - tick == old(clock).left - clock.left,
            tick <= u32::MAX - old(clock).left,
            bout.made <= wanted,
            bout.hp <= hp,
            fight_in_range(bout.hp as int, clock.left as int),
            hp <= 0 || wanted == 0 ==> bout.hp == hp && bout.made == 0 && *clock == *old(clock),
            dice.follows(*old(dice)),
            *old(dice) is Scripted ==> bout_replay(
                old(dice).tape(),
                old(dice).place(),
                *old(clock),
                fresh_bout(hp, tick),
                *attacker,
                wanted,
            ) == bout_replay(dice.tape(), dice.place(), *clock, bout, *attacker, wanted),
            forall|tape: Seq<u64>, at: int| #[trigger]
                holds(tape, at, used) ==> bout_replay(
                    tape,
                    at,
                    *old(clock),
                    fresh_bout(hp, tick),
                    *attacker,
                    wanted,
                ) == bout_replay(tape, at + used.len(), *clock, bout, *attacker, wanted),
        decreases clock.left,
    {
        let ghost before: Seq<u64> = used;
        let ghost mut side_part: Seq<u64> = Seq::empty();
        let ghost mut attack_part: Seq<u64> = Seq::empty();
        let ghost mut side_roll: u64 = 0;
        let spent: bool = clock.advance(1);
        bout.tick = bout.tick + 1;
        if is_side_hit_tick(bout.tick) {
            let hit: u64 = draw_up_to(dice, SIDE_HIT);
            bout.hp = bout.hp - hit as i64;
            proof {
                side_roll = hit;
                side_part = seq![hit];
            }
        }
        if bout.hp > 0 && is_attack_tick(bout.tick, attacker.attack_speed) {
            let damage: u64 = attack_roll(dice, attacker.accuracy, attacker.max_hit);
            bout.hp = bout.hp - damage as i64;
            bout.made = bout.made + 1;
            proof {
                attack_part = choose|rolled: Seq<u64>|
                    attack_uses(rolled, attacker.accuracy, attacker.max_hit, damage);
            }
        }
        proof {
            used = before + side_part + attack_part;
            assert forall|tape: Seq<u64>, at: int| #[trigger]
                holds(tape, at, used) implies bout_replay(
                tape,
                at,
                *old(clock),
                fresh_bout(hp, tick),
                *attacker,
                wanted,
            ) == bout_replay(tape, at + used.len(), *clock, bout, *attacker, wanted) by {
                lemma_holds_split(tape, at, before + side_part, attack_part);
                lemma_holds_split(tape, at, before, side_part);
                if side_part.len() > 0 {
                    lemma_holds_roll(tape, at + before.len(), side_roll, SIDE_HIT);
                }
            }
        }
    }
    proof {
        assert(bout_uses(used, *old(clock), fresh_bout(hp, tick), *attacker, wanted, bout, *clock));
    }
    bout
}

/// Where the fight stands between two visits to the anvil.
pub struct Standing {
    pub hp: i64,
    pub clock: Clock,
    pub phases: u32,
    pub place: int,
}

/// A fight with `hp` hit points left after `phases` visits to the anvil.
pub open spec fn standing(hp: i64, clock: Clock, phases: u32, place: int) -> Standing {
    Standing { hp, clock, phases, place }
}

/// The attacks still wanted of a bout that ends when `limit` attacks are made in all,
/// `made` of them already.
pub open spec fn still_wanted(made: u32, from: u32, limit: u32) -> u32 {
    if from <= made && made < limit {
        (limit - made) as u32
    } else {
        0
    }
}

/// What scripted dice make of the visits to the anvil: as long as Tekton lives, the
/// hammer blows are rolled, heal and take their ticks, and a bout against Tekton calm
/// and a bout against Tekton enraged follow. The fight ends with Tekton's death, with
/// the events, or with the last attack of Tekton's rage.
pub open spec fn visits_replay(
    tape: Seq<u64>,
    place: int,
    clock: Clock,
    hp: i64,
    hit_count: u32,
    phases: u32,
    calm: Combatant,
    enraged: Combatant,
) -> Standing
    decreases clock.left,
{
    if hp > 0 {
        let blows = (ANVIL_BLOWS + scripted_roll(tape, place, 3)) as u64;
        let rolled = scripted_next(tape, place);
        if clock.left == 0 {
            standing(hp, clock, phases, rolled)
        } else {
            let calm_bout = bout_replay(
                tape,
                rolled,
                clock.after(((blows as u32) * BLOW_TICKS) as u32),
                fresh_bout((hp + (blows as i64) * BLOW_HEAL) as i64, 0),
                calm,
                still_wanted(hit_count, 0, CALM_ATTACKS),
            );
            let calm_count = (hit_count + calm_bout.bout.made) as u32;
            let rage_bout = bout_replay(
                tape,
                calm_bout.place,
                calm_bout.clock,
                fresh_bout(calm_bout.bout.hp, calm_bout.bout.tick),
                enraged,
                still_wanted(calm_count, CALM_ATTACKS, RAGE_ATTACKS),
            );
            let count = (calm_count + rage_bout.bout.made) as u32;
            let after = standing(
                rage_bout.bout.hp,
                rage_bout.clock,
                (phases + 1) as u32,
                rage_bout.place,
            );
            if rage_bout.bout.hp > 0 && count >= RAGE_ATTACKS {
                after
            } else if rage_bout.clock.left < clock.left {
                visits_replay(
                    tape,
                    rage_bout.place,
                    rage_bout.clock,
                    rage_bout.bout.hp,
                    count,
                    (phases + 1) as u32,
                    calm,
                    enraged,
                )
            } else {
                after
            }
        }
    } else {
        standing(hp, clock, phases, place)
    }
}

/// The trial that a fight ends as, with the place of the dice.
pub open spec fn trial_of(end: Standing, hp_pre_anvil: u64) -> (TektonTrial, int) {
    (
        TektonTrial {
            ticks: end.clock.ticks,
            phases: end.phases,
            hp_pre_anvil,
            finished: end.hp <= 0,
        },
        end.place,
    )
}

/// The trial that runs out of events before its first bout.
pub open spec fn out_of_events(clock: Clock, place: int) -> (TektonTrial, int) {
    (TektonTrial { ticks: clock.ticks, phases: 0, hp_pre_anvil: 0, finished: false }, place)
}

/// What scripted dice make of a trial: the opening and the two special attacks, of
/// which the first always hits and the second decides which Tekton is fought; the first
/// bout; and, where Tekton lives through all its attacks, the visits to the anvil. A
/// trial that runs out of events before the first bout ends there, unfinished.
pub open spec fn tekton_replay(tape: Seq<u64>, place: int, fight: TektonFight, budget: u32) -> (TektonTrial, int) {
    let opened = Clock { ticks: 0, left: budget }.after(OPENING_TICKS).after(SPECIAL_TICKS);
    if budget < 2 {
        out_of_events(opened, place)
    } else {
        let first_hit = scripted_roll(tape, place, fight.special.max_hit as u64);
        let second_at = scripted_next(tape, place);
        let drained = scripted_roll(tape, second_at, (ONE - 1) as u64) < fight.special.accuracy;
        let third_at = scripted_next(tape, second_at);
        let second_hit = if drained {
            scripted_roll(tape, third_at, fight.special.max_hit as u64)
        } else {
            0
        };
        let bout_at = if drained {
            scripted_next(tape, third_at)
        } else {
            third_at
        };
        let hp = (fight.hp - first_hit - second_hit) as i64;
        if budget < 3 {
            out_of_events(opened, bout_at)
        } else {
            let calm = if drained {
                fight.calm_after_hit
            } else {
                fight.calm_after_miss
            };
            let enraged = if drained {
                fight.enraged_after_hit
            } else {
                fight.enraged_after_miss
            };
            let first = bout_replay(
                tape,
                bout_at,
                opened.after(SPECIAL_TICKS),
                fresh_bout(hp, 0),
                calm,
                FIRST_BOUT_ATTACKS,
            );
            let lived = first.bout.made == FIRST_BOUT_ATTACKS && first.bout.hp > 0;
            let hp_pre_anvil = if lived {
                first.bout.hp as u64
            } else {
                0
            };
            if first.bout.hp > 0 && !lived {
                trial_of(standing(first.bout.hp, first.clock, 0, first.place), hp_pre_anvil)
            } else {
                trial_of(
                    visits_replay(
                        tape,
                        first.place,
                        first.clock,
                        first.bout.hp,
                        0,
                        0,
                        calm,
                        enraged,
                    ),
                    hp_pre_anvil,
                )
            }
        }
    }
}

/// The rolls `used` are those of a trial that ends as `trial`: from whatever tape holds
/// them, the trial rolls just them and ends just so.
pub open spec fn trial_uses(used: Seq<u64>, fight: TektonFight, budget: u32, trial: TektonTrial) -> bool {
    forall|tape: Seq<u64>, at: int| #[trigger]
        holds(tape, at, used) ==> tekton_replay(tape, at, fight, budget) == (
            trial,
            at + used.len(),
        )
}

/// A trial that rolls just the rolls `used` is the trial that scripted dice make of the
/// tape that holds them and one entry more.
pub proof fn lemma_trial_of_a_tape(used: Seq<u64>, fight: TektonFight, budget: u32, trial: TektonTrial)
    requires
        trial_uses(used, fight, budget, trial),
    ensures
        tekton_replay(used.push(0), 0, fight, budget).0 == trial,
{
    let tape = used.push(0);
    assert forall|k: int| 0 <= k < used.len() implies tape[0 + k] == #[trigger] used[k] by {}
    assert(holds(tape, 0, used));
}

/// Runs one trial of the fight with at most `budget` events.
pub fn tekton_trial(dice: &mut Dice, fight: &TektonFight, budget: u32) -> (trial: TektonTrial)
    requires
        fight.calm_after_hit.attack_speed >= 1,
        fight.enraged_after_hit.attack_speed >= 1,
        fight.calm_after_miss.attack_speed >= 1,
        fight.enraged_after_miss.attack_speed >= 1,
    ensures
        trial.finished ==> trial.ticks >= OPENING_TICKS + 2 * SPECIAL_TICKS,
        trial.finished ==> budget >= 3,
        budget >= 3 ==> trial.ticks >= OPENING_TICKS + 2 * SPECIAL_TICKS,
        fight.hp == 0 && budget >= 3 ==> trial.finished && trial.phases == 0 && trial.ticks
            == OPENING_TICKS + 2 * SPECIAL_TICKS,
        trial.phases <= budget,
        trial.hp_pre_anvil <= fight.hp,
        final(dice).follows(*old(dice)),
        *old(dice) is Scripted ==> tekton_replay(
            old(dice).tape(),
            old(dice).place(),
            *fight,
            budget,
        ) == (trial, final(dice).place()),
        exists|tape: Seq<u64>| tekton_replay(tape, 0, *fight, budget).0 == trial,
{
    let mut clock: Clock = Clock::new(budget);
    let mut hp: i64 = fight.hp as i64;
    let ghost mut used: Seq<u64> = Seq::empty();
    if !clock.advance(OPENING_TICKS) {
        let trial = TektonTrial { ticks: clock.ticks, phases: 0, hp_pre_anvil: 0, finished: false };
        proof {
            assert(trial_uses(used, *fight, budget, trial));
            lemma_trial_of_a_tape(used, *fight, budget, trial);
        }
        return trial;
    }
    if !clock.advance(SPECIAL_TICKS) {
        let trial = TektonTrial { ticks: clock.ticks, phases: 0, hp_pre_anvil: 0, finished: false };
        proof {
            assert(trial_uses(used, *fight, budget, trial));
            lemma_trial_of_a_tape(used, *fight, budget, trial);
        }
        return trial;
    }
    let first_hit: u64 = draw_up_to(dice, fight.special.max_hit as u64);
    hp = hp - first_hit as i64;
    let second_draw: u64 = draw_up_to(dice, ONE - 1);
    let drained: bool = lands(fight.special.accuracy, second_draw);
    let ghost mut second_part: Seq<u64> = Seq::empty();
    let ghost mut second_hit: u64 = 0;
    if drained {
        let hit: u64 = draw_up_to(dice, fight.special.max_hit as u64);
        hp = hp - hit as i64;
        proof {
            second_hit = hit;
            second_part = seq![hit];
        }
    }
    let ghost specials: Seq<u64> = seq![first_hit] + seq![second_draw] + second_part;
    proof {
        assert forall|tape: Seq<u64>, at: int| #[trigger] holds(tape, at, specials) implies {
            &&& scripted_roll(tape, at, fight.special.max_hit as u64) == first_hit
            &&& scripted_next(tape, at) == at + 1
            &&& scripted_roll(tape, at + 1, (ONE - 1) as u64) == second_draw
            &&& scripted_next(tape, at + 1) == at + 2
            &&& drained ==> scripted_roll(tape, at + 2, fight.special.max_hit as u64)
                == second_hit
            &&& drained ==> scripted_next(tape, at + 2) == at + 3
        } by {
            lemma_holds_split(tape, at, seq![first_hit] + seq![second_draw], second_part);
            lemma_holds_split(tape, at, seq![first_hit], seq![second_draw]);
            lemma_holds_roll(tape, at, first_hit, fight.special.max_hit as u64);
            lemma_holds_roll(tape, at + 1, second_draw, (ONE - 1) as u64);
            if drained {
                lemma_holds_roll(
                    tape,
                    at + 2,
                    second_hit,
                    fight.special.max_hit as u64,
                );
            }
        }
        used = specials;
    }
    if !clock.advance(SPECIAL_TICKS) {
        let trial = TektonTrial { ticks: clock.ticks, phases: 0, hp_pre_anvil: 0, finished: false };
        proof {
            assert(trial_uses(used, *fight, budget, trial));
            lemma_trial_of_a_tape(used, *fight, budget, trial);
        }
        return trial;
    }
    let calm: Combatant = if drained {
        fight.calm_after_hit
    } else {
        fight.calm_after_miss
    };
    let enraged: Combatant = if drained {
        fight.enraged_after_hit
    } else {
        fight.enraged_after_miss
    };
    let ghost bout_clock: Clock = clock;
    let ghost bout_hp: i64 = hp;
    let first: Bout = tekton_bout(dice, &mut clock, hp, &calm, FIRST_BOUT_ATTACKS, 0);
    hp = first.hp;
    let hp_pre_anvil: u64 = if first.made == FIRST_BOUT_ATTACKS && hp > 0 {
        hp as u64
    } else {
        0
    };
    let mut hit_count: u32 = 0;
    let mut phases: u32 = 0;
    let mut stuck: bool = first.made < FIRST_BOUT_ATTACKS && hp > 0;
    proof {
        let first_part = choose|rolled: Seq<u64>|
            bout_uses(
                rolled,
                bout_clock,
                fresh_bout(bout_hp, 0),
                calm,
                FIRST_BOUT_ATTACKS,
                first,
                clock,
            );
        used = specials + first_part;
        assert forall|tape: Seq<u64>, at: int| #[trigger]
            holds(tape, at, used) implies tekton_replay(tape, at, *fight, budget) == trial_of(
            if stuck {
                standing(hp, clock, phases, at + used.len())
            } else {
                visits_replay(
                    tape,
                    at + used.len(),
                    clock,
                    hp,
                    hit_count,
                    phases,
                    calm,
                    enraged,
                )
            },
            hp_pre_anvil,
        ) by {
            lemma_holds_split(tape, at, specials, first_part);
        }
    }
    while hp > 0 && !stuck
        invariant
            clock.wf(),
            calm.attack_speed >= 1,
            enraged.attack_speed >= 1,
            fight_in_range(hp as int, clock.left as int),
            clock.ticks >= OPENING_TICKS + 2 * SPECIAL_TICKS,
            clock.left <= budget - 3,
            phases <= budget - 3 - clock.left,
            hit_count <= RAGE_ATTACKS,
            fight.hp == 0 ==> hp <= 0 && phases == 0 && clock.ticks == OPENING_TICKS + 2
                * SPECIAL_TICKS,
            dice.follows(*old(dice)),
            *old(dice) is Scripted ==> tekton_replay(
                old(dice).tape(),
                old(dice).place(),
                *fight,
                budget,
            ) == trial_of(
                if stuck {
                    standing(hp, clock, phases, dice.place())
                } else {
                    visits_replay(
                        dice.tape(),
                        dice.place(),
                        clock,
                        hp,
                        hit_count,
                        phases,
                        calm,
                        enraged,
                    )
                },
                hp_pre_anvil,
            ),
            forall|tape: Seq<u64>, at: int| #[trigger]
                holds(tape, at, used) ==> tekton_replay(tape, at, *fight, budget) == trial_of(
                    if stuck {
                        standing(hp, clock, phases, at + used.len())
                    } else {
                        visits_replay(
                            tape,
                            at + used.len(),
                            clock,
                            hp,
                            hit_count,
                            phases,
                            calm,
                            enraged,
                        )
                    },
                    hp_pre_anvil,
                ),
        decreases clock.left, if stuck { 0int } else { 1int },
    {
        let ghost before: Seq<u64> = used;
        let roll: u64 = draw_up_to(dice, 3);
        let blows: u64 = ANVIL_BLOWS + roll;
        if !clock.advance((blows as u32) * BLOW_TICKS) {
            stuck = true;
            proof {
                used = before + seq![roll];
                assert forall|tape: Seq<u64>, at: int| #[trigger]
                    holds(tape, at, used) implies tekton_replay(tape, at, *fight, budget)
                    == trial_of(
                    standing(hp, clock, phases, at + used.len()),
                    hp_pre_anvil,
                ) by {
                    lemma_holds_split(tape, at, before, seq![roll]);
                    lemma_holds_roll(tape, at + before.len(), roll, 3);
                }
            }
        } else {
            phases = phases + 1;
            hp = hp + (blows as i64) * BLOW_HEAL;
            let calm_wanted: u32 = if hit_count < CALM_ATTACKS {
                CALM_ATTACKS - hit_count
            } else {
                0
            };
            let ghost calm_clock: Clock = clock;
            let ghost calm_hp: i64 = hp;
            let calm_bout: Bout = tekton_bout(dice, &mut clock, hp, &calm, calm_wanted, 0);
            hp = calm_bout.hp;
            hit_count = hit_count + calm_bout.made;
            let rage_wanted: u32 = if hit_count >= CALM_ATTACKS && hit_count < RAGE_ATTACKS {
                RAGE_ATTACKS - hit_count
            } else {
                0
            };
            let ghost rage_clock: Clock = clock;
            let rage_bout: Bout = tekton_bout(
                dice,
                &mut clock,
                hp,
                &enraged,
                rage_wanted,
                calm_bout.tick,
            );
            hp = rage_bout.hp;
            hit_count = hit_count + rage_bout.made;
            if hp > 0 && hit_count >= RAGE_ATTACKS {
                stuck = true;
            }
            proof {
                let calm_part = choose|rolled: Seq<u64>|
                    bout_uses(
                        rolled,
                        calm_clock,
                        fresh_bout(calm_hp, 0),
                        calm,
                        calm_wanted,
                        calm_bout,
                        rage_clock,
                    );
                let rage_part = choose|rolled: Seq<u64>|
                    bout_uses(
                        rolled,
                        rage_clock,
                        fresh_bout(calm_bout.hp, calm_bout.tick),
                        enraged,
                        rage_wanted,
                        rage_bout,
                        clock,
                    );
                used = before + seq![roll] + calm_part + rage_part;
                assert forall|tape: Seq<u64>, at: int| #[trigger]
                    holds(tape, at, used) implies tekton_replay(tape, at, *fight, budget)
                    == trial_of(
                    if stuck {
                        standing(hp, clock, phases, at + used.len())
                    } else {
                        visits_replay(
                            tape,
                            at + used.len(),
                            clock,
                            hp,
                            hit_count,
                            phases,
                            calm,
                            enraged,
                        )
                    },
                    hp_pre_anvil,
                ) by {
                    lemma_holds_split(tape, at, before + seq![roll] + calm_part, rage_part);
                    lemma_holds_split(tape, at, before + seq![roll], calm_part);
                    lemma_holds_split(tape, at, before, seq![roll]);
                    lemma_holds_roll(tape, at + before.len(), roll, 3);
                }
            }
        }
    }
    let trial = TektonTrial { ticks: clock.ticks, phases, hp_pre_anvil, finished: hp <= 0 };
    proof {
        assert(trial_uses(used, *fight, budget, trial));
        lemma_trial_of_a_tape(used, *fight, budget, trial);
    }
    trial
}

/// Whether `trial` is a trial that dice can roll: there is a tape of which scripted
/// dice make it.
pub open spec fn is_outcome(trial: TektonTrial, fight: TektonFight, budget: u32) -> bool {
    exists|tape: Seq<u64>| #[trigger] tekton_replay(tape, 0, fight, budget).0 == trial
}

/// The trial with the given numbers and end.
pub open spec fn trial_with(ticks: u64, phases: u32, hp_pre_anvil: u64, finished: bool) -> TektonTrial {
    TektonTrial { ticks, phases, hp_pre_anvil, finished }
}

/// The trials of a simulated Tekton fight.
pub struct TektonSimulation {
    /// Ticks taken, trial by trial.
    pub tick_counts: Vec<u64>,
    /// Visits to the anvil, trial by trial.
    pub phase_results: Vec<u32>,
    /// Hit points after the first bout, trial by trial.
    pub hp_pre_anvil: Vec<u64>,
    /// Whether Tekton died, trial by trial.
    pub finished: Vec<bool>,
    /// How many trials ended with Tekton alive.
    pub unfinished: usize,
}

/// The refusal, if any, of a simulation of the fight.
pub open spec fn tekton_refusal(trials: int, fight: TektonFight) -> Option<EngineError> {
    if trials == 0 {
        Some(EngineError::NoTrials)
    } else if fight.special.accuracy > ONE || fight.calm_after_hit.accuracy > ONE
        || fight.enraged_after_hit.accuracy > ONE || fight.calm_after_miss.accuracy > ONE
        || fight.enraged_after_miss.accuracy > ONE {
        Some(EngineError::AccuracyOutOfRange)
    } else if fight.calm_after_hit.attack_speed == 0 || fight.enraged_after_hit.attack_speed == 0
        || fight.calm_after_miss.attack_speed == 0 || fight.enraged_after_miss.attack_speed == 0 {
        Some(EngineError::ZeroAttackSpeed)
    } else {
        None
    }
}

/// Simulates `trials` independent fights, each limited to `budget` events, with rolls
/// drawn from a generator started from `seed`.
pub fn simulate_tekton(seed: u64, trials: usize, fight: &TektonFight, budget: u32) -> (result:
    Result<TektonSimulation, EngineError>)
    ensures
        result matches Err(e) ==> e == tekton_refusal(trials as int, *fight).unwrap(),
        result is Err <==> tekton_refusal(trials as int, *fight).is_some(),
        result matches Ok(sim) ==> {
            &&& sim.tick_counts@.len() == trials
            &&& sim.phase_results@.len() == trials
            &&& sim.hp_pre_anvil@.len() == trials
            &&& sim.unfinished <= trials
            &&& budget < 3 ==> sim.unfinished == trials
            &&& sim.unfinished == 0 ==> forall|i: int|
                0 <= i < trials ==> #[trigger] sim.tick_counts@[i] >= OPENING_TICKS + 2
                    * SPECIAL_TICKS
            &&& forall|i: int| 0 <= i < trials ==> #[trigger] sim.phase_results@[i] <= budget
            &&& forall|i: int| 0 <= i < trials ==> #[trigger] sim.hp_pre_anvil@[i] <= fight.hp
            &&& sim.finished@.len() == trials
            &&& sim.unfinished == unfinished_among(sim.finished@, trials as int)
            &&& forall|i: int|
                0 <= i < trials ==> is_outcome(
                    trial_with(
                        #[trigger] sim.tick_counts@[i],
                        sim.phase_results@[i],
                        sim.hp_pre_anvil@[i],
                        sim.finished@[i],
                    ),
                    *fight,
                    budget,
                )
            &&& budget >= 3 ==> forall|i: int|
                0 <= i < trials ==> #[trigger] sim.tick_counts@[i] >= OPENING_TICKS + 2
                    * SPECIAL_TICKS
            &&& fight.hp == 0 && budget >= 3 ==> sim.unfinished == 0
        },
{
    if trials == 0 {
        return Err(EngineError::NoTrials);
    }
    if fight.special.accuracy > ONE || fight.calm_after_hit.accuracy > ONE
        || fight.enraged_after_hit.accuracy > ONE || fight.calm_after_miss.accuracy > ONE
        || fight.enraged_after_miss.accuracy > ONE {
        return Err(EngineError::AccuracyOutOfRange);
    }
    if fight.calm_after_hit.attack_speed == 0 || fight.enraged_after_hit.attack_speed == 0
        || fight.calm_after_miss.attack_speed == 0 || fight.enraged_after_miss.attack_speed == 0 {
        return Err(EngineError::ZeroAttackSpeed);
    }
    let mut dice: Dice = Dice::seeded(seed);
    let mut tick_counts: Vec<u64> = Vec::new();
    let mut phase_results: Vec<u32> = Vec::new();
    let mut hp_pre_anvil: Vec<u64> = Vec::new();
    let mut finished: Vec<bool> = Vec::new();
    let mut unfinished: usize = 0;
    let mut i: usize = 0;
    while i < trials
        invariant
            i <= trials,
            unfinished <= i,
            fight.calm_after_hit.attack_speed >= 1,
            fight.enraged_after_hit.attack_speed >= 1,
            fight.calm_after_miss.attack_speed >= 1,
            fight.enraged_after_miss.attack_speed >= 1,
            tick_counts@.len() == i,
            phase_results@.len() == i,
            hp_pre_anvil@.len() == i,
            budget < 3 ==> unfinished == i,
            unfinished == 0 ==> forall|k: int|
                0 <= k < i ==> #[trigger] tick_counts@[k] >= OPENING_TICKS + 2 * SPECIAL_TICKS,
            forall|k: int| 0 <= k < i ==> #[trigger] phase_results@[k] <= budget,
            forall|k: int| 0 <= k < i ==> #[trigger] hp_pre_anvil@[k] <= fight.hp,
            finished@.len() == i,
            unfinished == unfinished_among(finished@, i as int),
            forall|k: int|
                0 <= k < i ==> is_outcome(
                    trial_with(
                        #[trigger] tick_counts@[k],
                        phase_results@[k],
                        hp_pre_anvil@[k],
                        finished@[k],
                    ),
                    *fight,
                    budget,
                ),
            budget >= 3 ==> forall|k: int|
                0 <= k < i ==> #[trigger] tick_counts@[k] >= OPENING_TICKS + 2 * SPECIAL_TICKS,
            fight.hp == 0 && budget >= 3 ==> unfinished == 0,
        decreases trials - i,
    {
        let trial: TektonTrial = tekton_trial(&mut dice, fight, budget);
        if !trial.finished {
            unfinished = unfinished + 1;
        }
        proof {
            lemma_unfinished_among_push(finished@, trial.finished, i as int);
            assert(trial == trial_with(
                trial.ticks,
                trial.phases,
                trial.hp_pre_anvil,
                trial.finished,
            ));
        }
        tick_counts.push(trial.ticks);
        phase_results.push(trial.phases);
        hp_pre_anvil.push(trial.hp_pre_anvil);
        finished.push(trial.finished);
        i = i + 1;
    }
    Ok(TektonSimulation { tick_counts, phase_results, hp_pre_anvil, finished, unfinished })
}

} // verus!
