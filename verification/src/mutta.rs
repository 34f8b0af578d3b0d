//! The Muttadile fight, simulated: a small one and a large one, killed in turn, either
//! frozen in place by a special attack or kept from their tree by chopping it down.

use vstd::prelude::*;
use crate::error::EngineError;
use crate::montecarlo::{
    Combatant, Clock, Dice, draw_up_to, attack_roll, lands, wear_down, scripted_roll,
    scripted_next, attack_replay, wear_replay, attack_uses, wear_uses, holds,
    lemma_holds_split, lemma_holds_roll, unfinished_among, lemma_unfinished_among_push,
};
use crate::prob::ONE;

verus! {

/// The probability that a swing of the axe bites the tree.
pub const TREE_ACCURACY: u64 = 785_200_000_000_000_000;

/// Ticks that the attempt to freeze takes.
pub const FREEZE_TICKS: u32 = 6;

/// Ticks between the death of the small Muttadile and the first attack on the large one.
pub const CROSSING_TICKS: u32 = 9;

/// Total ticks are rounded up to a multiple of this.
pub const ROUND_TICKS: u64 = 4;

/// What the simulation needs to know of the fight.
#[derive(Clone, Copy, Debug)]
pub struct MuttaFight {
    /// Hit points of the small Muttadile.
    pub small_hp: u32,
    /// Hit points of the large Muttadile.
    pub large_hp: u32,
    /// The attack used on the small one.
    pub small: Combatant,
    /// The attack used on the large one.
    pub large: Combatant,
    /// The special attack that freezes, where the player carries the weapon for it.
    pub freeze: Option<Combatant>,
    /// The player's woodcutting level: the highest damage to the tree, and a fifth of
    /// the tree's hit points.
    pub woodcutting: u32,
}

/// How one trial of the fight ended.
#[derive(Clone, Copy, Debug)]
pub struct MuttaTrial {
    /// Ticks taken, rounded up to a multiple of four.
    pub ticks: u64,
    /// The tick after the tree fell, or 0 where nothing was chopped.
    pub phase_ticks: u64,
    /// Whether both Muttadiles died before the events ran out.
    pub finished: bool,
}

/// How a fight against one Muttadile ended, with the dice and the clock.
pub struct Fought {
    pub dead: bool,
    pub place: int,
    pub clock: Clock,
}

/// A fight that ended with the dice at `place` and the clock at `clock`.
pub open spec fn fought(dead: bool, place: int, clock: Clock) -> Fought {
    Fought { dead, place, clock }
}

/// The hit points that a Muttadile regains where the freeze misses: half of all, and
/// no more than it has lost.
pub open spec fn regained(full: i64, hp: i64) -> i64 {
    if full / 2 < full - hp {
        (full / 2) as i64
    } else {
        (full - hp) as i64
    }
}

/// What scripted dice make of a fight with the freezing weapon at hand: the Muttadile
/// is worn down to two fifths of its hit points; then the freeze is rolled, and takes
/// its damage where it lands and lets the Muttadile regain hit points where it misses;
/// then the Muttadile is worn down to nothing. The fight is lost where the events run out.
pub open spec fn freeze_replay(
    tape: Seq<u64>,
    place: int,
    clock: Clock,
    hp_mutta: u32,
    attacker: Combatant,
    freeze: Combatant,
) -> Fought {
    let full = hp_mutta as i64;
    let threshold = (full * 2 / 5) as i64;
    let first = wear_replay(tape, place, clock, full, threshold, attacker);
    if first.hp > threshold {
        fought(false, first.place, first.clock)
    } else {
        let lands = scripted_roll(tape, first.place, (ONE - 1) as u64) < freeze.accuracy;
        let then = scripted_next(tape, first.place);
        let tried = if lands {
            (first.hp - scripted_roll(tape, then, freeze.max_hit as u64)) as i64
        } else {
            (first.hp + regained(full, first.hp)) as i64
        };
        let after = if lands {
            scripted_next(tape, then)
        } else {
            then
        };
        if first.clock.left == 0 {
            fought(false, after, first.clock)
        } else {
            let last = wear_replay(tape, after, first.clock.after(FREEZE_TICKS), tried, 0, attacker);
            fought(last.hp <= 0, last.place, last.clock)
        }
    }
}

/// The rolls `used` are those of a fight with the freezing weapon that ends with the
/// clock at `stopped`: from whatever tape holds them, the fight rolls just them and ends
/// just so.
pub open spec fn freeze_uses(
    used: Seq<u64>,
    clock: Clock,
    hp_mutta: u32,
    attacker: Combatant,
    freeze: Combatant,
    dead: bool,
    stopped: Clock,
) -> bool {
    forall|tape: Seq<u64>, at: int| #[trigger]
        holds(tape, at, used) ==> freeze_replay(tape, at, clock, hp_mutta, attacker, freeze)
            == fought(dead, at + used.len(), stopped)
}

/// Fights one Muttadile with the freezing weapon at hand: it is worn down to two fifths
/// of its hit points, at which it would flee, then the freeze is tried, which hurts it where it
/// lands and lets it heal where it misses, and then it is worn down to nothing.
/// Returns whether it died.
pub(crate) fn sim_freeze_mutta(
    dice: &mut Dice,
    clock: &mut Clock,
    hp_mutta: u32,
    attacker: &Combatant,
    freeze: &Combatant,
) -> (dead: bool)
    requires
        old(clock).wf(),
    ensures
        final(clock).wf(),
        final(clock).left <= old(clock).left,
        final(clock).ticks >= old(clock).ticks,
        dead ==> final(clock).left < old(clock).left,
        dead ==> final(clock).ticks == old(clock).ticks + FREEZE_TICKS + (old(clock).left
            - final(clock).left - 1) * attacker.attack_speed,
        !dead ==> final(clock).left == 0,
        hp_mutta == 0 && old(clock).left > 0 ==> dead && final(clock).left == old(clock).left - 1,
        final(dice).follows(*old(dice)),
        *old(dice) is Scripted ==> freeze_replay(
            old(dice).tape(),
            old(dice).place(),
            *old(clock),
            hp_mutta,
            *attacker,
            *freeze,
        ) == fought(dead, final(dice).place(), *final(clock)),
        exists|used: Seq<u64>|
            freeze_uses(used, *old(clock), hp_mutta, *attacker, *freeze, dead, *final(clock)),
{
    let full: i64 = hp_mutta as i64;
    let threshold: i64 = full * 2 / 5;
    let worn: i64 = wear_down(dice, clock, full, threshold, attacker);
    let ghost first_clock: Clock = *clock;
    let ghost first_part: Seq<u64> = choose|rolled: Seq<u64>|
        wear_uses(rolled, *old(clock), full, threshold, *attacker, worn, first_clock);
    if worn > threshold {
        proof {
            assert(freeze_uses(
                first_part,
                *old(clock),
                hp_mutta,
                *attacker,
                *freeze,
                false,
                *clock,
            ));
        }
        return false;
    }
    let hit_draw: u64 = draw_up_to(dice, ONE - 1);
    let ghost mut hit_part: Seq<u64> = Seq::empty();
    let ghost mut hit: u64 = 0;
    let tried: i64 = if lands(freeze.accuracy, hit_draw) {
        let damage: u64 = draw_up_to(dice, freeze.max_hit as u64);
        proof {
            hit = damage;
            hit_part = seq![damage];
        }
        worn - damage as i64
    } else {
        let half: i64 = full / 2;
        let room: i64 = full - worn;
        worn + if half < room {
            half
        } else {
            room
        }
    };
    let ghost tried_part: Seq<u64> = seq![hit_draw] + hit_part;
    proof {
        assert forall|tape: Seq<u64>, at: int| #[trigger] holds(tape, at, tried_part) implies {
            &&& scripted_roll(tape, at, (ONE - 1) as u64) == hit_draw
            &&& scripted_next(tape, at) == at + 1
            &&& hit_part.len() > 0 ==> scripted_roll(tape, at + 1, freeze.max_hit as u64) == hit
            &&& hit_part.len() > 0 ==> scripted_next(tape, at + 1) == at + 2
        } by {
            lemma_holds_split(tape, at, seq![hit_draw], hit_part);
            lemma_holds_roll(tape, at, hit_draw, (ONE - 1) as u64);
            if hit_part.len() > 0 {
                lemma_holds_roll(tape, at + 1, hit, freeze.max_hit as u64);
            }
        }
    }
    if !clock.advance(FREEZE_TICKS) {
        proof {
            let used = first_part + tried_part;
            assert forall|tape: Seq<u64>, at: int| #[trigger]
                holds(tape, at, used) implies freeze_replay(
                tape,
                at,
                *old(clock),
                hp_mutta,
                *attacker,
                *freeze,
            ) == fought(false, at + used.len(), *clock) by {
                lemma_holds_split(tape, at, first_part, tried_part);
            }
            assert(freeze_uses(used, *old(clock), hp_mutta, *attacker, *freeze, false, *clock));
        }
        return false;
    }
    let ghost last_clock: Clock = *clock;
    let rest: i64 = wear_down(dice, clock, tried, 0, attacker);
    proof {
        let last_part = choose|rolled: Seq<u64>|
            wear_uses(rolled, last_clock, tried, 0, *attacker, rest, *clock);
        let used = first_part + tried_part + last_part;
        assert forall|tape: Seq<u64>, at: int| #[trigger]
            holds(tape, at, used) implies freeze_replay(
            tape,
            at,
            *old(clock),
            hp_mutta,
            *attacker,
            *freeze,
        ) == fought(rest <= 0, at + used.len(), *clock) by {
            lemma_holds_split(tape, at, first_part + tried_part, last_part);
            lemma_holds_split(tape, at, first_part, tried_part);
        }
        assert(freeze_uses(used, *old(clock), hp_mutta, *attacker, *freeze, rest <= 0, *clock));
        let first_spent = old(clock).left - first_clock.left;
        let last_spent = last_clock.left - clock.left;
        assert((first_spent + last_spent) * attacker.attack_speed == first_spent
            * attacker.attack_speed + last_spent * attacker.attack_speed) by (nonlinear_arith);
    }
    rest <= 0
}

/// Where the tree, the small Muttadile, the dice and the clock stand.
pub struct Chopped {
    pub tree: i64,
    pub small: i64,
    pub place: int,
    pub clock: Clock,
}

/// A tree with `tree` hit points and a small Muttadile with `small`.
pub open spec fn chopped(tree: i64, small: i64, place: int, clock: Clock) -> Chopped {
    Chopped { tree, small, place, clock }
}

/// What scripted dice make of chopping the tree: as long as the tree stands and an
/// event is left, a swing of the axe is rolled, and its bite where it lands; the small
/// Muttadile is attacked where it is within reach; and the swing takes its ticks unless
/// it fells the tree outright.
pub open spec fn chop_replay(
    tape: Seq<u64>,
    place: int,
    clock: Clock,
    tree: i64,
    small: i64,
    base: i64,
    woodcutting: u32,
    attacker: Combatant,
) -> Chopped
    decreases clock.left,
{
    if tree > 0 && clock.left > 0 {
        let bites = scripted_roll(tape, place, (ONE - 1) as u64) < TREE_ACCURACY;
        let swung = scripted_next(tape, place);
        let bite = if bites {
            scripted_roll(tape, swung, woodcutting as u64)
        } else {
            0
        };
        let bitten = if bites {
            scripted_next(tape, swung)
        } else {
            swung
        };
        let attack = if base / 2 < attacker.max_hit + small {
            attack_replay(tape, bitten, attacker.accuracy, attacker.max_hit)
        } else {
            (0u64, bitten)
        };
        if tree - bite < 0 {
            chopped((tree - bite) as i64, (small - attack.0) as i64, attack.1, clock)
        } else {
            chop_replay(
                tape,
                attack.1,
                clock.after(attacker.attack_speed),
                (tree - bite) as i64,
                (small - attack.0) as i64,
                base,
                woodcutting,
                attacker,
            )
        }
    } else {
        chopped(tree, small, place, clock)
    }
}

/// How the fight at the tree ended, with the dice and the clock.
pub struct Felled {
    pub dead: bool,
    pub phase_ticks: u64,
    pub place: int,
    pub clock: Clock,
}

/// A fight at the tree that ended with the dice at `place` and the clock at `clock`.
pub open spec fn felled(dead: bool, phase_ticks: u64, place: int, clock: Clock) -> Felled {
    Felled { dead, phase_ticks, place, clock }
}

/// What scripted dice make of the fight at the tree: the tree is chopped down, the
/// tick after that is noted, the player turns to the small Muttadile, which takes one
/// attack's ticks, and wears it down to nothing. The fight is lost where the events
/// run out.
pub open spec fn tree_replay(
    tape: Seq<u64>,
    place: int,
    clock: Clock,
    tree_hp: u32,
    woodcutting: u32,
    hp_small_mutta: u32,
    attacker: Combatant,
) -> Felled {
    let down = chop_replay(
        tape,
        place,
        clock,
        tree_hp as i64,
        hp_small_mutta as i64,
        hp_small_mutta as i64,
        woodcutting,
        attacker,
    );
    if down.tree > 0 || down.clock.left == 0 {
        felled(false, 0, down.place, down.clock)
    } else {
        let last = wear_replay(
            tape,
            down.place,
            down.clock.after(attacker.attack_speed),
            down.small,
            0,
            attacker,
        );
        felled(last.hp <= 0, (down.clock.ticks + 1) as u64, last.place, last.clock)
    }
}

/// The rolls `used` are those of a fight at the tree that ends with the clock at
/// `stopped`: from whatever tape holds them, the fight rolls just them and ends just so.
pub open spec fn tree_uses(
    used: Seq<u64>,
    clock: Clock,
    tree_hp: u32,
    woodcutting: u32,
    hp_small_mutta: u32,
    attacker: Combatant,
    outcome: (bool, u64),
    stopped: Clock,
) -> bool {
    forall|tape: Seq<u64>, at: int| #[trigger]
        holds(tape, at, used) ==> tree_replay(
            tape,
            at,
            clock,
            tree_hp,
            woodcutting,
            hp_small_mutta,
            attacker,
        ) == felled(outcome.0, outcome.1, at + used.len(), stopped)
}

/// Chops the tree down while the small Muttadile is attacked, as long as it can still
/// be hit, and then wears the small Muttadile down to nothing. Returns whether it died,
/// and the tick after the tree fell.
pub(crate) fn sim_chop_tree(
    dice: &mut Dice,
    clock: &mut Clock,
    tree_hp: u32,
    woodcutting: u32,
    hp_small_mutta: u32,
    attacker: &Combatant,
) -> (outcome: (bool, u64))
    requires
        old(clock).wf(),
    ensures
        final(clock).wf(),
        final(clock).left <= old(clock).left,
        final(clock).ticks == old(clock).ticks + (old(clock).left - final(clock).left)
            * attacker.attack_speed,
        outcome.0 ==> old(clock).ticks < outcome.1 <= final(clock).ticks + 1,
        outcome.0 ==> final(clock).left < old(clock).left,
        !outcome.0 ==> final(clock).left == 0,
        tree_hp == 0 && hp_small_mutta == 0 && old(clock).left > 0 ==> outcome == (
            true,
            (old(clock).ticks + 1) as u64,
        ) && final(clock).left == old(clock).left - 1,
        final(dice).follows(*old(dice)),
        *old(dice) is Scripted ==> tree_replay(
            old(dice).tape(),
            old(dice).place(),
            *old(clock),
            tree_hp,
            woodcutting,
            hp_small_mutta,
            *attacker,
        ) == felled(outcome.0, outcome.1, final(dice).place(), *final(clock)),
        exists|used: Seq<u64>|
            tree_uses(
                used,
                *old(clock),
                tree_hp,
                woodcutting,
                hp_small_mutta,
                *attacker,
                outcome,
                *final(clock),
            ),
{
    let base: i64 = hp_small_mutta as i64;
    let mut tree: i64 = tree_hp as i64;
    let mut small: i64 = base;
    let mut fell: bool = false;
    let ghost mut used: Seq<u64> = Seq::empty();
    proof {
        assert(0 * attacker.attack_speed == 0) by (nonlinear_arith);
    }
    while tree > 0 && !fell && clock.left > 0
        invariant
            clock.wf(),
            clock.left <= old(clock).left,
            clock.ticks == old(clock).ticks + (old(clock).left - clock.left)
                * attacker.attack_speed,
            base == hp_small_mutta,
            -0x1_0000_0000 < tree <= tree_hp,
            fell ==> tree < 0,
            -0x2_0000_0000 < small <= base,
            tree_hp == 0 ==> tree == 0 && small == base && *clock == *old(clock),
            dice.follows(*old(dice)),
            *old(dice) is Scripted ==> chop_replay(
                old(dice).tape(),
                old(dice).place(),
                *old(clock),
                tree_hp as i64,
                base,
                base,
                woodcutting,
                *attacker,
            ) == if fell {
                chopped(tree, small, dice.place(), *clock)
            } else {
                chop_replay(
                    dice.tape(),
                    dice.place(),
                    *clock,
                    tree,
                    small,
                    base,
                    woodcutting,
                    *attacker,
                )
            },
            forall|tape: Seq<u64>, at: int| #[trigger]
                holds(tape, at, used) ==> chop_replay(
                    tape,
                    at,
                    *old(clock),
                    tree_hp as i64,
                    base,
                    base,
                    woodcutting,
                    *attacker,
                ) == if fell {
                    chopped(tree, small, at + used.len(), *clock)
                } else {
                    chop_replay(
                        tape,
                        at + used.len(),
                        *clock,
                        tree,
                        small,
                        base,
                        woodcutting,
                        *attacker,
                    )
                },
        decreases clock.left, if fell { 0int } else { 1int },
    {
        let ghost before: Seq<u64> = used;
        let ghost spent_before: int = old(clock).left - clock.left;
        let ghost mut bite_part: Seq<u64> = Seq::empty();
        let ghost mut attack_part: Seq<u64> = Seq::empty();
        let swing: u64 = draw_up_to(dice, ONE - 1);
        let bite: u64 = if lands(TREE_ACCURACY, swing) {
            let bitten: u64 = draw_up_to(dice, woodcutting as u64);
            proof {
                bite_part = seq![bitten];
            }
            bitten
        } else {
            0
        };
        if base / 2 < attacker.max_hit as i64 + small {
            let damage: u64 = attack_roll(dice, attacker.accuracy, attacker.max_hit);
            small = small - damage as i64;
            proof {
                attack_part = choose|rolled: Seq<u64>|
                    attack_uses(rolled, attacker.accuracy, attacker.max_hit, damage);
            }
        }
        tree = tree - bite as i64;
        if tree < 0 {
            fell = true;
        } else {
            let spent: bool = clock.advance(attacker.attack_speed);
        }
        proof {
            used = before + seq![swing] + bite_part + attack_part;
            assert forall|tape: Seq<u64>, at: int| #[trigger]
                holds(tape, at, used) implies chop_replay(
                tape,
                at,
                *old(clock),
                tree_hp as i64,
                base,
                base,
                woodcutting,
                *attacker,
            ) == if fell {
                chopped(tree, small, at + used.len(), *clock)
            } else {
                chop_replay(
                    tape,
                    at + used.len(),
                    *clock,
                    tree,
                    small,
                    base,
                    woodcutting,
                    *attacker,
                )
            } by {
                lemma_holds_split(tape, at, before + seq![swing] + bite_part, attack_part);
                lemma_holds_split(tape, at, before + seq![swing], bite_part);
                lemma_holds_split(tape, at, before, seq![swing]);
                lemma_holds_roll(tape, at + before.len(), swing, (ONE - 1) as u64);
                if bite_part.len() > 0 {
                    lemma_holds_roll(tape, at + before.len() + 1, bite, woodcutting as u64);
                }
            }
            assert((spent_before + 1) * attacker.attack_speed == spent_before
                * attacker.attack_speed + attacker.attack_speed) by (nonlinear_arith);
        }
    }
    if tree > 0 {
        proof {
            assert(tree_uses(
                used,
                *old(clock),
                tree_hp,
                woodcutting,
                hp_small_mutta,
                *attacker,
                (false, 0u64),
                *clock,
            ));
        }
        return (false, 0);
    }
    let phase_ticks: u64 = clock.ticks + 1;
    let ghost spent_chopping: int = old(clock).left - clock.left;
    if !clock.advance(attacker.attack_speed) {
        proof {
            assert(tree_uses(
                used,
                *old(clock),
                tree_hp,
                woodcutting,
                hp_small_mutta,
                *attacker,
                (false, 0u64),
                *clock,
            ));
        }
        return (false, 0);
    }
    let ghost last_clock: Clock = *clock;
    let rest: i64 = wear_down(dice, clock, small, 0, attacker);
    proof {
        let chop_part = used;
        let last_part = choose|rolled: Seq<u64>|
            wear_uses(rolled, last_clock, small, 0, *attacker, rest, *clock);
        used = chop_part + last_part;
        assert forall|tape: Seq<u64>, at: int| #[trigger]
            holds(tape, at, used) implies tree_replay(
            tape,
            at,
            *old(clock),
            tree_hp,
            woodcutting,
            hp_small_mutta,
            *attacker,
        ) == felled(rest <= 0, phase_ticks, at + used.len(), *clock) by {
            lemma_holds_split(tape, at, chop_part, last_part);
        }
        assert(tree_uses(
            used,
            *old(clock),
            tree_hp,
            woodcutting,
            hp_small_mutta,
            *attacker,
            (rest <= 0, phase_ticks),
            *clock,
        ));
        let last_spent = last_clock.left - clock.left;
        assert((spent_chopping + 1 + last_spent) * attacker.attack_speed == spent_chopping
            * attacker.attack_speed + attacker.attack_speed + last_spent * attacker.attack_speed)
            by (nonlinear_arith);
    }
    (rest <= 0, phase_ticks)
}

/// The least multiple of four that is no less than `ticks`.
pub open spec fn rounded_to_four(ticks: int) -> int {
    if ticks % 4 == 0 {
        ticks
    } else {
        ticks + 4 - ticks % 4
    }
}

/// Rounds ticks up to a multiple of four.
pub fn round_to_four(ticks: u64) -> (rounded: u64)
    requires
        ticks + 3 <= u64::MAX,
    ensures
        rounded == rounded_to_four(ticks as int),
        rounded % 4 == 0,
        ticks <= rounded < ticks + 4,
{
    if ticks % ROUND_TICKS != 0 {
        ticks + (ROUND_TICKS - ticks % ROUND_TICKS)
    } else {
        ticks
    }
}

/// The hit points of the tree of a woodcutter of level `woodcutting`: five times the
/// level, as far as they can be counted.
pub open spec fn tree_hp_of(woodcutting: u32) -> u32 {
    if woodcutting > u32::MAX / 5 {
        u32::MAX
    } else {
        (woodcutting * 5) as u32
    }
}

/// The trial that ends at `clock` with the dice at `place`.
pub open spec fn trial_at(clock: Clock, phase_ticks: u64, finished: bool, place: int) -> (MuttaTrial, int) {
    (MuttaTrial { ticks: rounded_to_four(clock.ticks as int) as u64, phase_ticks, finished }, place)
}

/// What scripted dice make of a trial. With the freezing weapon, the small Muttadile is
/// fought, the room is crossed, and the large one is fought in the same way. Without
/// it, the small one is fought at the tree, the room is crossed, and the large one is
/// worn down. The ticks are rounded up to a multiple of four, and the trial is finished
/// where both died and the room was crossed.
pub open spec fn mutta_replay(tape: Seq<u64>, place: int, fight: MuttaFight, budget: u32) -> (MuttaTrial, int) {
    let start = Clock { ticks: 0, left: budget };
    match fight.freeze {
        Some(freeze) => {
            let small = freeze_replay(tape, place, start, fight.small_hp, fight.small, freeze);
            let large = freeze_replay(
                tape,
                small.place,
                small.clock.after(CROSSING_TICKS),
                fight.large_hp,
                fight.large,
                freeze,
            );
            trial_at(
                large.clock,
                0,
                small.dead && small.clock.left > 0 && large.dead,
                large.place,
            )
        },
        None => {
            let small = tree_replay(
                tape,
                place,
                start,
                tree_hp_of(fight.woodcutting),
                fight.woodcutting,
                fight.small_hp,
                fight.small,
            );
            let large = wear_replay(
                tape,
                small.place,
                small.clock.after(CROSSING_TICKS),
                fight.large_hp as i64,
                0,
                fight.large,
            );
            trial_at(
                large.clock,
                small.phase_ticks,
                small.dead && small.clock.left > 0 && large.hp <= 0,
                large.place,
            )
        },
    }
}

/// The rolls `used` are those of a trial that ends as `trial`: from whatever tape holds
/// them, the trial rolls just them and ends just so.
pub open spec fn trial_uses(used: Seq<u64>, fight: MuttaFight, budget: u32, trial: MuttaTrial) -> bool {
    forall|tape: Seq<u64>, at: int| #[trigger]
        holds(tape, at, used) ==> mutta_replay(tape, at, fight, budget) == (
            trial,
            at + used.len(),
        )
}

/// A trial that rolls just the rolls `used` is the trial that scripted dice make of the
/// tape that holds them and one entry more.
pub proof fn lemma_trial_of_a_tape(used: Seq<u64>, fight: MuttaFight, budget: u32, trial: MuttaTrial)
    requires
        trial_uses(used, fight, budget, trial),
    ensures
        mutta_replay(used.push(0), 0, fight, budget).0 == trial,
{
    let tape = used.push(0);
    assert forall|k: int| 0 <= k < used.len() implies tape[0 + k] == #[trigger] used[k] by {}
    assert(holds(tape, 0, used));
}

/// Runs one trial of the fight with at most `budget` events.
pub fn mutta_trial(dice: &mut Dice, fight: &MuttaFight, budget: u32) -> (trial: MuttaTrial)
    ensures
        trial.ticks % 4 == 0,
        trial.finished ==> trial.ticks >= CROSSING_TICKS,
        trial.finished && fight.freeze.is_some() ==> trial.ticks >= CROSSING_TICKS + 2
            * FREEZE_TICKS,
        trial.finished && fight.freeze.is_some() ==> trial.phase_ticks == 0,
        trial.finished && fight.freeze.is_none() ==> 0 < trial.phase_ticks <= trial.ticks,
        budget < 2 ==> !trial.finished,
        fight.freeze.is_some() && fight.small_hp == 0 && fight.large_hp == 0 && budget >= 3
            ==> trial.finished && trial.ticks == 24,
        fight.freeze.is_none() && fight.woodcutting == 0 && fight.small_hp == 0 && fight.large_hp
            == 0 && budget >= 2 ==> trial.finished && trial.phase_ticks == 1 && trial.ticks
            == rounded_to_four(fight.small.attack_speed + CROSSING_TICKS),
        final(dice).follows(*old(dice)),
        *old(dice) is Scripted ==> mutta_replay(
            old(dice).tape(),
            old(dice).place(),
            *fight,
            budget,
        ) == (trial, final(dice).place()),
        exists|tape: Seq<u64>| mutta_replay(tape, 0, *fight, budget).0 == trial,
{
    let mut clock: Clock = Clock::new(budget);
    let ghost start: Clock = clock;
    let mut finished: bool = true;
    let mut phase_ticks: u64 = 0;
    let ghost mut used: Seq<u64> = Seq::empty();
    match fight.freeze {
        Some(freeze) => {
            let small_dead: bool = sim_freeze_mutta(
                dice,
                &mut clock,
                fight.small_hp,
                &fight.small,
                &freeze,
            );
            let ghost small_clock: Clock = clock;
            let crossed: bool = clock.advance(CROSSING_TICKS);
            let ghost crossed_clock: Clock = clock;
            let large_dead: bool = sim_freeze_mutta(
                dice,
                &mut clock,
                fight.large_hp,
                &fight.large,
                &freeze,
            );
            finished = small_dead && crossed && large_dead;
            proof {
                let small_part = choose|rolled: Seq<u64>|
                    freeze_uses(
                        rolled,
                        start,
                        fight.small_hp,
                        fight.small,
                        freeze,
                        small_dead,
                        small_clock,
                    );
                let large_part = choose|rolled: Seq<u64>|
                    freeze_uses(
                        rolled,
                        crossed_clock,
                        fight.large_hp,
                        fight.large,
                        freeze,
                        large_dead,
                        clock,
                    );
                used = small_part + large_part;
                assert forall|tape: Seq<u64>, at: int| #[trigger]
                    holds(tape, at, used) implies mutta_replay(tape, at, *fight, budget)
                    == trial_at(clock, 0, finished, at + used.len()) by {
                    lemma_holds_split(tape, at, small_part, large_part);
                }
                assert(0 * fight.small.attack_speed == 0) by (nonlinear_arith);
                assert(0 * fight.large.attack_speed == 0) by (nonlinear_arith);
            }
        },
        None => {
            let tree_hp: u32 = if fight.woodcutting > u32::MAX / 5 {
                u32::MAX
            } else {
                fight.woodcutting * 5
            };
            let chopped: (bool, u64) = sim_chop_tree(
                dice,
                &mut clock,
                tree_hp,
                fight.woodcutting,
                fight.small_hp,
                &fight.small,
            );
            let ghost small_clock: Clock = clock;
            let crossed: bool = clock.advance(CROSSING_TICKS);
            let ghost crossed_clock: Clock = clock;
            let large_hp: i64 = fight.large_hp as i64;
            let rest: i64 = wear_down(dice, &mut clock, large_hp, 0, &fight.large);
            finished = chopped.0 && crossed && rest <= 0;
            phase_ticks = chopped.1;
            proof {
                let small_part = choose|rolled: Seq<u64>|
                    tree_uses(
                        rolled,
                        start,
                        tree_hp,
                        fight.woodcutting,
                        fight.small_hp,
                        fight.small,
                        chopped,
                        small_clock,
                    );
                let large_part = choose|rolled: Seq<u64>|
                    wear_uses(rolled, crossed_clock, large_hp, 0, fight.large, rest, clock);
                used = small_part + large_part;
                assert forall|tape: Seq<u64>, at: int| #[trigger]
                    holds(tape, at, used) implies mutta_replay(tape, at, *fight, budget)
                    == trial_at(clock, phase_ticks, finished, at + used.len()) by {
                    lemma_holds_split(tape, at, small_part, large_part);
                }
                assert(1 * fight.small.attack_speed == fight.small.attack_speed)
                    by (nonlinear_arith);
                assert((start.left - small_clock.left) * fight.small.attack_speed >= 0)
                    by (nonlinear_arith)
                    requires
                        start.left - small_clock.left >= 0,
                        fight.small.attack_speed >= 0,
                ;
            }
        },
    }
    let trial = MuttaTrial { ticks: round_to_four(clock.ticks), phase_ticks, finished };
    proof {
        assert(trial_uses(used, *fight, budget, trial));
        lemma_trial_of_a_tape(used, *fight, budget, trial);
    }
    trial
}

/// Whether `trial` is a trial that dice can roll: there is a tape of which scripted
/// dice make it.
pub open spec fn is_outcome(trial: MuttaTrial, fight: MuttaFight, budget: u32) -> bool {
    exists|tape: Seq<u64>| #[trigger] mutta_replay(tape, 0, fight, budget).0 == trial
}

/// The trial with the given numbers and end.
pub open spec fn trial_with(ticks: u64, phase_ticks: u64, finished: bool) -> MuttaTrial {
    MuttaTrial { ticks, phase_ticks, finished }
}

/// The trials of a simulated Muttadile fight.
pub struct MuttaSimulation {
    /// Ticks taken, trial by trial.
    pub tick_counts: Vec<u64>,
    /// The tick after the tree fell, trial by trial.
    pub phase_results: Vec<u64>,
    /// Whether both Muttadiles died, trial by trial.
    pub finished: Vec<bool>,
    /// How many trials ran out of events.
    pub unfinished: usize,
}

/// The refusal, if any, of a simulation of the fight.
pub open spec fn mutta_refusal(trials: int, fight: MuttaFight) -> Option<EngineError> {
    if trials == 0 {
        Some(EngineError::NoTrials)
    } else if fight.small.accuracy > ONE || fight.large.accuracy > ONE || (fight.freeze matches Some(
        f,
    ) && f.accuracy > ONE) {
        Some(EngineError::AccuracyOutOfRange)
    } else if fight.small.attack_speed == 0 || fight.large.attack_speed == 0 {
        Some(EngineError::ZeroAttackSpeed)
    } else {
        None
    }
}

/// Simulates `trials` independent fights, each limited to `budget` events, with rolls
/// drawn from a generator started from `seed`.
pub fn simulate_mutta(seed: u64, trials: usize, fight: &MuttaFight, budget: u32) -> (result: Result<
    MuttaSimulation,
    EngineError,
>)
    ensures
        result matches Err(e) ==> e == mutta_refusal(trials as int, *fight).unwrap(),
        result is Err <==> mutta_refusal(trials as int, *fight).is_some(),
        result matches Ok(sim) ==> {
            &&& sim.tick_counts@.len() == trials
            &&& sim.phase_results@.len() == trials
            &&& sim.unfinished <= trials
            &&& forall|i: int| 0 <= i < trials ==> (#[trigger] sim.tick_counts@[i]) % 4 == 0
            &&& sim.finished@.len() == trials
            &&& sim.unfinished == unfinished_among(sim.finished@, trials as int)
            &&& forall|i: int|
                0 <= i < trials ==> is_outcome(
                    trial_with(
                        #[trigger] sim.tick_counts@[i],
                        sim.phase_results@[i],
                        sim.finished@[i],
                    ),
                    *fight,
                    budget,
                )
            &&& budget < 2 ==> sim.unfinished == trials
            &&& sim.unfinished == 0 ==> forall|i: int|
                0 <= i < trials ==> #[trigger] sim.tick_counts@[i] >= CROSSING_TICKS
            &&& fight.freeze.is_some() && fight.small_hp == 0 && fight.large_hp == 0 && budget
                >= 3 ==> sim.unfinished == 0
            &&& fight.freeze.is_none() && fight.woodcutting == 0 && fight.small_hp == 0
                && fight.large_hp == 0 && budget >= 2 ==> sim.unfinished == 0
        },
{
    if trials == 0 {
        return Err(EngineError::NoTrials);
    }
    let freeze_too_sure: bool = match fight.freeze {
        Some(f) => f.accuracy > ONE,
        None => false,
    };
    if fight.small.accuracy > ONE || fight.large.accuracy > ONE || freeze_too_sure {
        return Err(EngineError::AccuracyOutOfRange);
    }
    if fight.small.attack_speed == 0 || fight.large.attack_speed == 0 {
        return Err(EngineError::ZeroAttackSpeed);
    }
    let mut dice: Dice = Dice::seeded(seed);
    let mut tick_counts: Vec<u64> = Vec::new();
    let mut phase_results: Vec<u64> = Vec::new();
    let mut finished: Vec<bool> = Vec::new();
    let mut unfinished: usize = 0;
    let mut i: usize = 0;
    while i < trials
        invariant
            i <= trials,
            unfinished <= i,
            tick_counts@.len() == i,
            phase_results@.len() == i,
            forall|k: int| 0 <= k < i ==> (#[trigger] tick_counts@[k]) % 4 == 0,
            finished@.len() == i,
            unfinished == unfinished_among(finished@, i as int),
            forall|k: int|
                0 <= k < i ==> is_outcome(
                    trial_with(#[trigger] tick_counts@[k], phase_results@[k], finished@[k]),
                    *fight,
                    budget,
                ),
            fight.freeze.is_some() && fight.small_hp == 0 && fight.large_hp == 0 && budget >= 3
                ==> unfinished == 0,
            fight.freeze.is_none() && fight.woodcutting == 0 && fight.small_hp == 0
                && fight.large_hp == 0 && budget >= 2 ==> unfinished == 0,
            budget < 2 ==> unfinished == i,
            unfinished == 0 ==> forall|k: int|
                0 <= k < i ==> #[trigger] tick_counts@[k] >= CROSSING_TICKS,
        decreases trials - i,
    {
        let trial: MuttaTrial = mutta_trial(&mut dice, fight, budget);
        if !trial.finished {
            unfinished = unfinished + 1;
        }
        proof {
            lemma_unfinished_among_push(finished@, trial.finished, i as int);
            assert(trial == trial_with(trial.ticks, trial.phase_ticks, trial.finished));
        }
        tick_counts.push(trial.ticks);
        phase_results.push(trial.phase_ticks);
        finished.push(trial.finished);
        i = i + 1;
    }
    Ok(MuttaSimulation { tick_counts, phase_results, finished, unfinished })
}

} // verus!
