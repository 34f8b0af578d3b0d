//! Monte Carlo simulation of kills: trial by trial, attack by attack, with every roll
//! drawn from seeded or scripted dice.

use vstd::prelude::*;
use rand::rngs::StdRng;
use rand::{Rng, SeedableRng};
use crate::error::EngineError;
use crate::prob::{ONE, total, ratio, lemma_total_push, lemma_total_prefix_zero};

verus! {

/// The generator of `rand` that all rolls are drawn from. Nothing is known of its state.
#[verifier::external_type_specification]
#[verifier::external_body]
pub struct ExStdRng(rand::rngs::StdRng);

/// `SeedableRng::seed_from_u64` for `StdRng`: a generator started from `seed`. What it
/// will yield is left open.
#[verifier::external_body]
fn seeded_generator(seed: u64) -> StdRng {
    StdRng::seed_from_u64(seed)
}

/// `Rng::gen_range` over the inclusive range from 0 to `max`: some value of that range.
/// The range is never empty, so the call does not panic.
#[verifier::external_body]
fn generator_draw(generator: &mut StdRng, max: u64) -> (roll: u64)
    ensures
        roll <= max,
{
    generator.gen_range(0..=max)
}

/// Where the rolls of a simulation come from.
pub enum Dice {
    /// From a generator: nothing is known of a roll but its range.
    Seeded(StdRng),
    /// From a script that is read round and round, starting at the given place: every
    /// roll is the next entry, capped at the largest value asked for.
    Scripted(Vec<u64>, usize),
}

/// The roll that a script gives at place `next` where at most `max` is asked for, and
/// 0 where the script is empty.
pub open spec fn scripted_roll(rolls: Seq<u64>, next: int, max: u64) -> u64 {
    if rolls.len() == 0 {
        0
    } else if rolls[next % (rolls.len() as int)] > max {
        max
    } else {
        rolls[next % (rolls.len() as int)]
    }
}

/// The place of a script after the roll at place `next`.
pub open spec fn scripted_next(rolls: Seq<u64>, next: int) -> int {
    if rolls.len() == 0 {
        next
    } else {
        (next % (rolls.len() as int) + 1) % (rolls.len() as int)
    }
}

impl Dice {
    /// The script of scripted dice.
    pub open spec fn tape(self) -> Seq<u64> {
        match self {
            Dice::Scripted(rolls, _) => rolls@,
            Dice::Seeded(_) => Seq::empty(),
        }
    }

    /// The place in their script of scripted dice.
    pub open spec fn place(self) -> int {
        match self {
            Dice::Scripted(_, next) => next as int,
            Dice::Seeded(_) => 0,
        }
    }

    /// The same dice at another place of their script.
    pub open spec fn moved_to(self, place: int) -> Dice {
        match self {
            Dice::Scripted(rolls, _) => Dice::Scripted(rolls, place as usize),
            Dice::Seeded(generator) => Dice::Seeded(generator),
        }
    }

    /// Whether `self` is what `before` has become by rolling: seeded dice stay seeded,
    /// scripted dice keep their script and change their place at most.
    pub open spec fn follows(self, before: Dice) -> bool {
        &&& before is Seeded ==> self is Seeded
        &&& before is Scripted ==> self == before.moved_to(self.place())
    }

    /// Dice that draw from a generator started from `seed`.
    pub fn seeded(seed: u64) -> (dice: Dice)
        ensures
            dice is Seeded,
    {
        Dice::Seeded(seeded_generator(seed))
    }

    /// Dice that read `rolls` round and round, from the first on.
    pub fn scripted(rolls: Vec<u64>) -> (dice: Dice)
        ensures
            dice == Dice::Scripted(rolls, 0),
    {
        Dice::Scripted(rolls, 0)
    }

    /// Rolls a value from 0 to `max`: scripted dice give the next entry of their script,
    /// capped at `max`, and move on by one place.
    pub fn draw(&mut self, max: u64) -> (roll: u64)
        ensures
            roll <= max,
            final(self).follows(*old(self)),
            *old(self) is Scripted ==> roll == scripted_roll(
                old(self).tape(),
                old(self).place(),
                max,
            ),
            *old(self) is Scripted ==> final(self).place() == scripted_next(
                old(self).tape(),
                old(self).place(),
            ),
    {
        match self {
            Dice::Seeded(generator) => generator_draw(generator, max),
            Dice::Scripted(rolls, next) => {
                if rolls.len() == 0 {
                    0
                } else {
                    let at: usize = *next % rolls.len();
                    let scripted: u64 = rolls[at];
                    *next = (at + 1) % rolls.len();
                    if scripted > max {
                        max
                    } else {
                        scripted
                    }
                }
            },
        }
    }
}

/// Rolls a value from 0 to `max`: scripted dice give the next entry of their script,
/// capped at `max`, and move on by one place.
pub(crate) fn draw_up_to(dice: &mut Dice, max: u64) -> (roll: u64)
    ensures
        roll <= max,
        final(dice).follows(*old(dice)),
        *old(dice) is Scripted ==> roll == scripted_roll(old(dice).tape(), old(dice).place(), max),
        *old(dice) is Scripted ==> final(dice).place() == scripted_next(
            old(dice).tape(),
            old(dice).place(),
        ),
{
    dice.draw(max)
}

/// Who attacks: the highest damage of a hit, the probability of a hit, and the ticks
/// between two attacks.
#[derive(Clone, Copy, Debug)]
pub struct Combatant {
    pub max_hit: u32,
    pub accuracy: u64,
    pub attack_speed: u32,
}

/// Whether an attack hits, given the draw that decides it: a draw that is uniform
/// below `ONE` is below the accuracy with just that probability.
pub fn lands(accuracy: u64, hit_draw: u64) -> (hit: bool)
    ensures
        hit == (hit_draw < accuracy),
{
    hit_draw < accuracy
}

/// The hit points that `damage` leaves of `hp_left`: none where the damage is as large.
pub fn struck(hp_left: u64, damage: u64) -> (rest: u64)
    ensures
        rest == if damage >= hp_left {
            0
        } else {
            hp_left - damage
        },
{
    if damage >= hp_left {
        0
    } else {
        hp_left - damage
    }
}

/// What scripted dice roll for one attack, from `place` on: the first roll decides
/// whether the attack hits, and where it does the second is the damage. With the
/// damage comes the place of the script after the attack.
pub open spec fn attack_replay(tape: Seq<u64>, place: int, accuracy: u64, max_hit: u32) -> (u64, int) {
    let hit_draw = scripted_roll(tape, place, (ONE - 1) as u64);
    let then = scripted_next(tape, place);
    if hit_draw < accuracy {
        (scripted_roll(tape, then, max_hit as u64), scripted_next(tape, then))
    } else {
        (0, then)
    }
}

/// `tape` holds the rolls `used` from place `at` on, and at least one more entry after
/// them.
pub open spec fn holds(tape: Seq<u64>, at: int, used: Seq<u64>) -> bool {
    &&& 0 <= at
    &&& at + used.len() < tape.len()
    &&& forall|k: int| 0 <= k < used.len() ==> tape[at + k] == #[trigger] used[k]
}

/// A tape that holds two runs of rolls on end holds the first, and the second after it.
pub proof fn lemma_holds_split(tape: Seq<u64>, at: int, first: Seq<u64>, second: Seq<u64>)
    requires
        holds(tape, at, first + second),
    ensures
        holds(tape, at, first),
        holds(tape, at + first.len(), second),
{
    let both = first + second;
    assert forall|k: int| 0 <= k < first.len() implies tape[at + k] == #[trigger] first[k] by {
        assert(both[k] == first[k]);
    }
    assert forall|k: int| 0 <= k < second.len() implies tape[at + first.len() + k]
        == #[trigger] second[k] by {
        assert(both[first.len() + k] == second[k]);
    }
}

/// From a tape that holds a roll, dice at its place roll it, where it is within what is
/// asked for, and move on to the next place.
pub proof fn lemma_holds_roll(tape: Seq<u64>, at: int, roll: u64, max: u64)
    requires
        holds(tape, at, seq![roll]),
        roll <= max,
    ensures
        scripted_roll(tape, at, max) == roll,
        scripted_next(tape, at) == at + 1,
{
    let used = seq![roll];
    assert(used[0] == roll);
    vstd::arithmetic::div_mod::lemma_small_mod(at as nat, tape.len());
    vstd::arithmetic::div_mod::lemma_small_mod((at + 1) as nat, tape.len());
}

/// The rolls `used` are those of one attack that deals `damage`: from whatever tape
/// holds them, the attack rolls just them and deals just that.
pub open spec fn attack_uses(used: Seq<u64>, accuracy: u64, max_hit: u32, damage: u64) -> bool {
    forall|tape: Seq<u64>, at: int| #[trigger]
        holds(tape, at, used) ==> attack_replay(tape, at, accuracy, max_hit) == (
            damage,
            at + used.len(),
        )
}

/// Rolls one attack: with probability `accuracy` a hit for 0 up to `max_hit`, each
/// equally likely, else a miss, which deals 0.
pub(crate) fn attack_roll(dice: &mut Dice, accuracy: u64, max_hit: u32) -> (damage: u64)
    ensures
        damage <= max_hit,
        accuracy == 0 ==> damage == 0,
        final(dice).follows(*old(dice)),
        *old(dice) is Scripted ==> attack_replay(
            old(dice).tape(),
            old(dice).place(),
            accuracy,
            max_hit,
        ) == (damage, final(dice).place()),
        exists|used: Seq<u64>| attack_uses(used, accuracy, max_hit, damage),
{
    let hit_draw: u64 = draw_up_to(dice, ONE - 1);
    if lands(accuracy, hit_draw) {
        let damage: u64 = draw_up_to(dice, max_hit as u64);
        proof {
            let used = seq![hit_draw, damage];
            assert forall|tape: Seq<u64>, at: int| #[trigger]
                holds(tape, at, used) implies attack_replay(tape, at, accuracy, max_hit) == (
                damage,
                at + used.len(),
            ) by {
                assert(used =~= seq![hit_draw] + seq![damage]);
                lemma_holds_split(tape, at, seq![hit_draw], seq![damage]);
                lemma_holds_roll(tape, at, hit_draw, (ONE - 1) as u64);
                lemma_holds_roll(tape, at + 1, damage, max_hit as u64);
            }
            assert(attack_uses(used, accuracy, max_hit, damage));
        }
        damage
    } else {
        proof {
            let used = seq![hit_draw];
            assert forall|tape: Seq<u64>, at: int| #[trigger]
                holds(tape, at, used) implies attack_replay(tape, at, accuracy, max_hit) == (
                0u64,
                at + used.len(),
            ) by {
                lemma_holds_roll(tape, at, hit_draw, (ONE - 1) as u64);
            }
            assert(attack_uses(used, accuracy, max_hit, 0));
        }
        0
    }
}

/// The ticks of a trial and the events it may still take. Every attack and every pause
/// is one event, so that no trial runs on for ever.
#[derive(Clone, Copy, Debug)]
pub struct Clock {
    /// Ticks elapsed.
    pub ticks: u64,
    /// Events left.
    pub left: u32,
}

impl Clock {
    /// However the events left are spent, the ticks can be counted.
    pub open spec fn wf(&self) -> bool {
        self.ticks + self.left * 0x1_0000_0000 + 8 <= u64::MAX
    }

    /// A clock at tick 0 with `budget` events to spend.
    pub fn new(budget: u32) -> (clock: Clock)
        ensures
            clock.wf(),
            clock.ticks == 0,
            clock.left == budget,
    {
        Clock { ticks: 0, left: budget }
    }

    /// The clock after an event of `ticks` ticks, and the clock itself where no event
    /// is left.
    pub open spec fn after(self, ticks: u32) -> Clock {
        if self.left == 0 {
            self
        } else {
            Clock { ticks: (self.ticks + ticks) as u64, left: (self.left - 1) as u32 }
        }
    }

    /// Spends one event of `ticks` ticks, where one is left.
    pub fn advance(&mut self, ticks: u32) -> (spent: bool)
        requires
            old(self).wf(),
        ensures
            final(self).wf(),
            spent == (old(self).left > 0),
            spent ==> final(self).ticks == old(self).ticks + ticks,
            spent ==> final(self).left == old(self).left - 1,
            !spent ==> *final(self) == *old(self),
            *final(self) == old(self).after(ticks),
    {
        if self.left == 0 {
            false
        } else {
            self.ticks = self.ticks + ticks as u64;
            self.left = self.left - 1;
            true
        }
    }
}

/// The lowest that hit points are let fall, and the highest that they are let rise.
pub open spec fn hp_in_range(hp: int) -> bool {
    -0x4_0000_0000 <= hp <= 0x40_0000_0000
}

/// Where a target, the dice and the clock stand after a run of attacks.
pub struct Worn {
    pub hp: i64,
    pub place: int,
    pub clock: Clock,
}

/// A target with `hp` hit points, dice at `place` and a clock.
pub open spec fn worn(hp: i64, place: int, clock: Clock) -> Worn {
    Worn { hp, place, clock }
}

/// What scripted dice make of wearing a target down: as long as the hit points are above
/// `floor` and an event is left, one more attack is rolled, takes its damage and its
/// ticks.
pub open spec fn wear_replay(
    tape: Seq<u64>,
    place: int,
    clock: Clock,
    hp: i64,
    floor: i64,
    attacker: Combatant,
) -> Worn
    decreases clock.left,
{
    if hp > floor && clock.left > 0 {
        let attack = attack_replay(tape, place, attacker.accuracy, attacker.max_hit);
        wear_replay(
            tape,
            attack.1,
            clock.after(attacker.attack_speed),
            (hp - attack.0) as i64,
            floor,
            attacker,
        )
    } else {
        worn(hp, place, clock)
    }
}

/// The rolls `used` are those of wearing a target down from `hp` to `rest` while the
/// clock goes from `clock` to `stopped`: from whatever tape holds them, the attacks roll
/// just them and end just so.
pub open spec fn wear_uses(
    used: Seq<u64>,
    clock: Clock,
    hp: i64,
    floor: i64,
    attacker: Combatant,
    rest: i64,
    stopped: Clock,
) -> bool {
    forall|tape: Seq<u64>, at: int| #[trigger]
        holds(tape, at, used) ==> wear_replay(tape, at, clock, hp, floor, attacker) == worn(
            rest,
            at + used.len(),
            stopped,
        )
}

/// Attacks until the hit points are down to `floor` or no event is left.
pub(crate) fn wear_down(
    dice: &mut Dice,
    clock: &mut Clock,
    hp: i64,
    floor: i64,
    attacker: &Combatant,
) -> (rest: i64)
    requires
        old(clock).wf(),
        hp_in_range(hp as int),
        0 <= floor,
    ensures
        final(clock).wf(),
        final(clock).left <= old(clock).left,
        final(clock).ticks >= old(clock).ticks,
        rest <= hp,
        rest <= floor || final(clock).left == 0,
        hp <= floor ==> rest == hp && *final(clock) == *old(clock),
        hp > floor ==> rest > floor - 0x1_0000_0000,
        hp_in_range(rest as int),
        hp > floor && (attacker.accuracy == 0 || attacker.max_hit == 0) ==> rest == hp,
        hp > floor && (attacker.accuracy == 0 || attacker.max_hit == 0) ==> final(clock).left == 0,
        final(dice).follows(*old(dice)),
        *old(dice) is Scripted ==> wear_replay(
            old(dice).tape(),
            old(dice).place(),
            *old(clock),
            hp,
            floor,
            *attacker,
        ) == worn(rest, final(dice).place(), *final(clock)),
        final(clock).ticks == old(clock).ticks + (old(clock).left - final(clock).left)
            * attacker.attack_speed,
        exists|used: Seq<u64>| wear_uses(used, *old(clock), hp, floor, *attacker, rest, *final(clock)),
{
    let mut rest: i64 = hp;
    let ghost mut used: Seq<u64> = Seq::empty();
    proof {
        assert(0 * attacker.attack_speed == 0) by (nonlinear_arith);
    }
    while rest > floor && clock.left > 0
        invariant
            clock.wf(),
            clock.left <= old(clock).left,
            clock.ticks >= old(clock).ticks,
            rest <= hp,
            0 <= floor,
            hp <= floor ==> rest == hp && *clock == *old(clock),
            hp > floor ==> rest > floor - 0x1_0000_0000,
            hp_in_range(hp as int),
            hp_in_range(rest as int),
            (attacker.accuracy == 0 || attacker.max_hit == 0) ==> rest == hp,
            dice.follows(*old(dice)),
            *old(dice) is Scripted ==> wear_replay(
                old(dice).tape(),
                old(dice).place(),
                *old(clock),
                hp,
                floor,
                *attacker,
            ) == wear_replay(dice.tape(), dice.place(), *clock, rest, floor, *attacker),
            clock.ticks == old(clock).ticks + (old(clock).left - clock.left)
                * attacker.attack_speed,
            forall|tape: Seq<u64>, at: int| #[trigger]
                holds(tape, at, used) ==> wear_replay(
                    tape,
                    at,
                    *old(clock),
                    hp,
                    floor,
                    *attacker,
                ) == wear_replay(tape, at + used.len(), *clock, rest, floor, *attacker),
        decreases clock.left,
    {
        let ghost before: Seq<u64> = used;
        let ghost spent_before: int = old(clock).left - clock.left;
        let damage: u64 = attack_roll(dice, attacker.accuracy, attacker.max_hit);
        let spent: bool = clock.advance(attacker.attack_speed);
        rest = rest - damage as i64;
        proof {
            let rolled = choose|rolled: Seq<u64>|
                attack_uses(rolled, attacker.accuracy, attacker.max_hit, damage);
            used = before + rolled;
            assert forall|tape: Seq<u64>, at: int| #[trigger]
                holds(tape, at, used) implies wear_replay(
                tape,
                at,
                *old(clock),
                hp,
                floor,
                *attacker,
            ) == wear_replay(tape, at + used.len(), *clock, rest, floor, *attacker) by {
                lemma_holds_split(tape, at, before, rolled);
            }
            assert((spent_before + 1) * attacker.attack_speed == spent_before
                * attacker.attack_speed + attacker.attack_speed) by (nonlinear_arith);
        }
    }
    proof {
        assert(wear_uses(used, *old(clock), hp, floor, *attacker, rest, *clock));
    }
    rest
}

/// How one trial ended.
#[derive(Clone, Copy, Debug)]
pub struct Trial {
    /// Attacks made.
    pub attacks: u64,
    /// Ticks elapsed: the attacks times the attack speed.
    pub ticks: u64,
    /// Whether the target died within the budget of attacks.
    pub killed: bool,
}

/// `rolls` is the damage of the attacks of one trial against `hp` hit points: no roll
/// exceeds the maximum hit, the target lives before every attack, and the attacks end
/// with the kill or with the budget.
pub open spec fn is_kill_trial(rolls: Seq<u64>, hp: int, max_hit: int, budget: int, killed: bool) -> bool {
    &&& rolls.len() <= budget
    &&& forall|k: int| 0 <= k < rolls.len() ==> #[trigger] rolls[k] <= max_hit
    &&& forall|k: int| 0 <= k < rolls.len() ==> #[trigger] total(rolls.take(k)) < hp
    &&& killed == (total(rolls) >= hp)
    &&& (killed || rolls.len() == budget)
}

/// Runs one trial: attacks until the target is dead or `budget` attacks are made.
pub fn simulate_kill(dice: &mut Dice, hp: u64, attacker: &Combatant, budget: u64) -> (trial: Trial)
    requires
        budget * attacker.attack_speed <= u64::MAX,
    ensures
        trial.ticks == trial.attacks * attacker.attack_speed,
        attacker.accuracy == 0 && hp > 0 ==> !trial.killed,
        attacker.max_hit == 0 && hp > 0 ==> !trial.killed,
        exists|rolls: Seq<u64>| #[trigger]
            is_kill_trial(rolls, hp as int, attacker.max_hit as int, budget as int, trial.killed)
                && trial.attacks == rolls.len(),
{
    let mut hp_left: u64 = hp;
    let mut attacks: u64 = 0;
    let mut ticks: u64 = 0;
    let speed: u64 = attacker.attack_speed as u64;
    let ghost mut rolls: Seq<u64> = Seq::empty();
    proof {
        assert(0 * attacker.attack_speed == 0) by (nonlinear_arith);
    }
    while hp_left > 0 && attacks < budget
        invariant
            attacks <= budget,
            budget * attacker.attack_speed <= u64::MAX,
            ticks == attacks * attacker.attack_speed,
            speed == attacker.attack_speed,
            rolls.len() == attacks,
            forall|k: int| 0 <= k < rolls.len() ==> #[trigger] rolls[k] <= attacker.max_hit,
            forall|k: int| 0 <= k < rolls.len() ==> #[trigger] total(rolls.take(k)) < hp,
            hp_left > 0 ==> hp_left == hp - total(rolls),
            hp_left == 0 ==> total(rolls) >= hp,
            hp_left <= hp,
            (attacker.accuracy == 0 || attacker.max_hit == 0) ==> total(rolls) == 0,
        decreases budget - attacks,
    {
        let damage: u64 = attack_roll(dice, attacker.accuracy, attacker.max_hit);
        proof {
            let longer = rolls.push(damage);
            lemma_total_push(rolls, damage);
            assert forall|k: int| 0 <= k < longer.len() implies #[trigger] total(longer.take(k))
                < hp by {
                if k < rolls.len() {
                    assert(longer.take(k) =~= rolls.take(k));
                } else {
                    assert(longer.take(k) =~= rolls);
                }
            }
            rolls = longer;
            assert((attacks + 1) * attacker.attack_speed == attacks * attacker.attack_speed
                + attacker.attack_speed) by (nonlinear_arith);
            assert((attacks + 1) * attacker.attack_speed <= budget * attacker.attack_speed)
                by (nonlinear_arith)
                requires
                    attacks + 1 <= budget,
                    0 <= attacker.attack_speed,
            ;
        }
        hp_left = struck(hp_left, damage);
        attacks = attacks + 1;
        ticks = ticks + speed;
    }
    let trial: Trial = Trial { attacks, ticks, killed: hp_left == 0 };
    proof {
        assert(is_kill_trial(rolls, hp as int, attacker.max_hit as int, budget as int, trial.killed)
            && trial.attacks == rolls.len());
    }
    trial
}

/// Whether a trial of `ticks` ticks that ended so is one that dice can roll: there are
/// rolls that make a trial of so many attacks with that end.
pub open spec fn is_kill_outcome(
    ticks: u64,
    killed: bool,
    hp: u64,
    attacker: Combatant,
    budget: u64,
) -> bool {
    exists|rolls: Seq<u64>| #[trigger]
        is_kill_trial(rolls, hp as int, attacker.max_hit as int, budget as int, killed) && ticks
            == rolls.len() * attacker.attack_speed
}

/// How many of the first `upto` trials did not finish.
pub open spec fn unfinished_among(finished: Seq<bool>, upto: int) -> int
    decreases upto,
{
    if upto <= 0 {
        0
    } else {
        unfinished_among(finished, upto - 1) + if finished[upto - 1] {
            0int
        } else {
            1int
        }
    }
}

/// Trials that a record does not hold yet do not count.
pub proof fn lemma_unfinished_among_push(finished: Seq<bool>, last: bool, upto: int)
    requires
        0 <= upto <= finished.len(),
    ensures
        unfinished_among(finished.push(last), upto) == unfinished_among(finished, upto),
    decreases upto,
{
    if upto > 0 {
        lemma_unfinished_among_push(finished, last, upto - 1);
    }
}

/// The ticks of every trial of a simulation.
pub struct Simulation {
    /// Ticks taken, trial by trial. A trial that ran out of attacks counts all of them.
    pub tick_counts: Vec<u64>,
    /// Whether the target died, trial by trial.
    pub finished: Vec<bool>,
    /// How many trials ran out of attacks before the target died.
    pub unfinished: usize,
}

/// Simulates `trials` independent kills of a target with `hp` hit points, each limited
/// to `budget` attacks, with rolls drawn from a generator started from `seed`.
pub fn simulate(seed: u64, trials: usize, hp: u64, attacker: &Combatant, budget: u64) -> (result:
    Result<Simulation, EngineError>)
    ensures
        result matches Err(e) ==> e == simulation_refusal(trials as int, *attacker, budget as int).unwrap(),
        result is Err <==> simulation_refusal(trials as int, *attacker, budget as int).is_some(),
        result matches Ok(sim) ==> {
            &&& sim.tick_counts@.len() == trials
            &&& sim.finished@.len() == trials
            &&& sim.unfinished == unfinished_among(sim.finished@, trials as int)
            &&& sim.unfinished <= trials
            &&& forall|i: int|
                0 <= i < trials ==> #[trigger] sim.tick_counts@[i] <= budget * attacker.attack_speed
            &&& forall|i: int|
                0 <= i < trials ==> (#[trigger] sim.tick_counts@[i]) as int % (attacker.attack_speed
                    as int) == 0
            &&& forall|i: int|
                0 <= i < trials ==> is_kill_outcome(
                    #[trigger] sim.tick_counts@[i],
                    sim.finished@[i],
                    hp,
                    *attacker,
                    budget,
                )
            &&& hp > 0 && (attacker.accuracy == 0 || attacker.max_hit == 0) ==> sim.unfinished
                == trials
            &&& hp == 0 ==> sim.unfinished == 0 && forall|i: int|
                0 <= i < trials ==> #[trigger] sim.tick_counts@[i] == 0
        },
{
    if trials == 0 {
        return Err(EngineError::NoTrials);
    }
    if attacker.accuracy > ONE {
        return Err(EngineError::AccuracyOutOfRange);
    }
    if attacker.attack_speed == 0 {
        return Err(EngineError::ZeroAttackSpeed);
    }
    if budget.checked_mul(attacker.attack_speed as u64).is_none() {
        return Err(EngineError::TickOverflow);
    }
    let mut dice: Dice = Dice::seeded(seed);
    let mut tick_counts: Vec<u64> = Vec::new();
    let mut finished: Vec<bool> = Vec::new();
    let mut unfinished: usize = 0;
    let mut i: usize = 0;
    while i < trials
        invariant
            i <= trials,
            unfinished <= i,
            attacker.attack_speed > 0,
            budget * attacker.attack_speed <= u64::MAX,
            tick_counts@.len() == i,
            forall|k: int|
                0 <= k < i ==> #[trigger] tick_counts@[k] <= budget * attacker.attack_speed,
            forall|k: int|
                0 <= k < i ==> (#[trigger] tick_counts@[k]) as int % (attacker.attack_speed as int) == 0,
            finished@.len() == i,
            unfinished == unfinished_among(finished@, i as int),
            forall|k: int|
                0 <= k < i ==> is_kill_outcome(
                    #[trigger] tick_counts@[k],
                    finished@[k],
                    hp,
                    *attacker,
                    budget,
                ),
            hp > 0 && (attacker.accuracy == 0 || attacker.max_hit == 0) ==> unfinished == i,
            hp == 0 ==> unfinished == 0 && forall|k: int|
                0 <= k < i ==> #[trigger] tick_counts@[k] == 0,
        decreases trials - i,
    {
        let trial: Trial = simulate_kill(&mut dice, hp, attacker, budget);
        proof {
            let rolls = choose|rolls: Seq<u64>| #[trigger]
                is_kill_trial(
                    rolls,
                    hp as int,
                    attacker.max_hit as int,
                    budget as int,
                    trial.killed,
                ) && trial.attacks == rolls.len();
            assert(trial.attacks * attacker.attack_speed <= budget * attacker.attack_speed)
                by (nonlinear_arith)
                requires
                    trial.attacks <= budget,
                    0 <= attacker.attack_speed,
            ;
            vstd::arithmetic::div_mod::lemma_mod_multiples_basic(
                trial.attacks as int,
                attacker.attack_speed as int,
            );
            if hp == 0 {
                if rolls.len() > 0 {
                    assert(total(rolls.take(0)) < hp);
                    lemma_total_prefix_zero(rolls);
                }
                assert(rolls =~= Seq::<u64>::empty());
                assert(0 * attacker.attack_speed == 0) by (nonlinear_arith);
            }
        }
        if !trial.killed {
            unfinished = unfinished + 1;
        }
        proof {
            lemma_unfinished_among_push(finished@, trial.killed, i as int);
        }
        tick_counts.push(trial.ticks);
        finished.push(trial.killed);
        i = i + 1;
    }
    Ok(Simulation { tick_counts, finished, unfinished })
}

/// The refusal, if any, of a simulation: no trial, an accuracy above certainty, an
/// attack speed of zero, or a budget whose ticks cannot be counted.
pub open spec fn simulation_refusal(trials: int, attacker: Combatant, budget: int) -> Option<
    EngineError,
> {
    if trials == 0 {
        Some(EngineError::NoTrials)
    } else if attacker.accuracy > ONE {
        Some(EngineError::AccuracyOutOfRange)
    } else if attacker.attack_speed == 0 {
        Some(EngineError::ZeroAttackSpeed)
    } else if budget * attacker.attack_speed > u64::MAX {
        Some(EngineError::TickOverflow)
    } else {
        None
    }
}

/// How many of the first `upto` trials took no more than `tick` ticks.
pub open spec fn kills_by(tick_counts: Seq<u64>, tick: int, upto: int) -> int
    decreases upto,
{
    if upto <= 0 {
        0
    } else {
        kills_by(tick_counts, tick, upto - 1) + if tick_counts[upto - 1] <= tick {
            1int
        } else {
            0int
        }
    }
}

/// The largest of the first `upto` tick counts, and 0 where there is none.
pub open spec fn longest(tick_counts: Seq<u64>, upto: int) -> int
    decreases upto,
{
    if upto <= 0 {
        0
    } else if tick_counts[upto - 1] > longest(tick_counts, upto - 1) {
        tick_counts[upto - 1] as int
    } else {
        longest(tick_counts, upto - 1)
    }
}

/// The sum of the first `upto` tick counts.
pub open spec fn ticks_sum(tick_counts: Seq<u64>, upto: int) -> int
    decreases upto,
{
    if upto <= 0 {
        0
    } else {
        ticks_sum(tick_counts, upto - 1) + tick_counts[upto - 1]
    }
}

/// No more trials are counted than were run.
pub proof fn lemma_kills_by_bound(tick_counts: Seq<u64>, tick: int, upto: int)
    requires
        0 <= upto <= tick_counts.len(),
    ensures
        0 <= kills_by(tick_counts, tick, upto) <= upto,
    decreases upto,
{
    if upto > 0 {
        lemma_kills_by_bound(tick_counts, tick, upto - 1);
    }
}

/// By a later tick no fewer trials have ended.
pub proof fn lemma_kills_by_monotone(tick_counts: Seq<u64>, early: int, late: int, upto: int)
    requires
        0 <= upto <= tick_counts.len(),
        early <= late,
    ensures
        kills_by(tick_counts, early, upto) <= kills_by(tick_counts, late, upto),
    decreases upto,
{
    if upto > 0 {
        lemma_kills_by_monotone(tick_counts, early, late, upto - 1);
    }
}

/// By the longest tick count every trial has ended.
pub proof fn lemma_kills_by_longest(tick_counts: Seq<u64>, tick: int, upto: int)
    requires
        0 <= upto <= tick_counts.len(),
        longest(tick_counts, upto) <= tick,
    ensures
        kills_by(tick_counts, tick, upto) == upto,
    decreases upto,
{
    if upto > 0 {
        lemma_kills_by_longest(tick_counts, tick, upto - 1);
    }
}

/// The largest tick count of a simulation.
pub fn longest_trial(tick_counts: &Vec<u64>) -> (most: u64)
    ensures
        most == longest(tick_counts@, tick_counts@.len() as int),
{
    let mut most: u64 = 0;
    let mut i: usize = 0;
    while i < tick_counts.len()
        invariant
            i <= tick_counts@.len(),
            most == longest(tick_counts@, i as int),
        decreases tick_counts@.len() - i,
    {
        if tick_counts[i] > most {
            most = tick_counts[i];
        }
        i = i + 1;
    }
    most
}

/// The empirical kill-time series of a simulation: entry `t` is the share of the
/// trials that took no more than `t` ticks, rounded down, for every `t` up to the
/// longest trial.
pub fn empirical_cdf(tick_counts: &Vec<u64>) -> (result: Result<Vec<u64>, EngineError>)
    ensures
        tick_counts@.len() == 0 ==> result == Err::<Vec<u64>, EngineError>(EngineError::NoTrials),
        tick_counts@.len() > 0 && longest(tick_counts@, tick_counts@.len() as int) >= usize::MAX
            ==> result == Err::<Vec<u64>, EngineError>(EngineError::TickOverflow),
        tick_counts@.len() > 0 && longest(tick_counts@, tick_counts@.len() as int) < usize::MAX
            ==> result is Ok,
        result matches Ok(cdf) ==> {
            &&& cdf@.len() == longest(tick_counts@, tick_counts@.len() as int) + 1
            &&& forall|t: int|
                0 <= t < cdf@.len() ==> (#[trigger] cdf@[t]) == ratio(
                    kills_by(tick_counts@, t, tick_counts@.len() as int),
                    tick_counts@.len() as int,
                )
            &&& cdf@[cdf@.len() - 1] == ONE
        },
{
    let trials: usize = tick_counts.len();
    if trials == 0 {
        return Err(EngineError::NoTrials);
    }
    let most: u64 = longest_trial(tick_counts);
    if most >= usize::MAX as u64 {
        return Err(EngineError::TickOverflow);
    }
    let mut cdf: Vec<u64> = Vec::new();
    let mut t: usize = 0;
    while t <= most as usize
        invariant
            t <= most + 1,
            most < usize::MAX,
            trials == tick_counts@.len(),
            trials > 0,
            most == longest(tick_counts@, trials as int),
            cdf@.len() == t,
            forall|k: int|
                0 <= k < t ==> (#[trigger] cdf@[k]) == kills_by(tick_counts@, k, trials as int)
                    * ONE / (trials as int),
        decreases most + 1 - t,
    {
        let mut kills: usize = 0;
        let mut i: usize = 0;
        while i < trials
            invariant
                i <= trials,
                trials == tick_counts@.len(),
                kills == kills_by(tick_counts@, t as int, i as int),
                kills <= i,
            decreases trials - i,
        {
            if tick_counts[i] <= t as u64 {
                kills = kills + 1;
            }
            i = i + 1;
        }
        proof {
            let one = ONE as int;
            assert(kills * one <= trials * one) by (nonlinear_arith)
                requires
                    0 <= kills <= trials,
                    0 <= one,
            ;
            assert(trials * one <= 0xffff_ffff_ffff_ffff * one) by (nonlinear_arith)
                requires
                    0 <= trials <= 0xffff_ffff_ffff_ffff,
                    0 <= one,
            ;
            vstd::arithmetic::div_mod::lemma_div_is_ordered(
                kills * one,
                trials * one,
                trials as int,
            );
            vstd::arithmetic::div_mod::lemma_div_multiples_vanish(one, trials as int);
            assert(trials * one == one * trials) by (nonlinear_arith);
            assert(0 <= (kills * one) / (trials as int)) by (nonlinear_arith)
                requires
                    0 <= kills * one,
                    trials > 0,
            ;
        }
        let share: u128 = (kills as u128) * (ONE as u128) / (trials as u128);
        cdf.push(share as u64);
        t = t + 1;
    }
    proof {
        lemma_kills_by_longest(tick_counts@, most as int, trials as int);
        vstd::arithmetic::div_mod::lemma_div_multiples_vanish(ONE as int, trials as int);
        assert(trials * (ONE as int) == (ONE as int) * trials) by (nonlinear_arith);
    }
    Ok(cdf)
}

/// The mean of the tick counts, in units of 10^-18 ticks, rounded down.
pub fn mean_ticks(tick_counts: &Vec<u64>) -> (mean: Option<u128>)
    ensures
        tick_counts@.len() == 0 ==> mean.is_none(),
        tick_counts@.len() > 0 ==> mean == Some(
            (ticks_sum(tick_counts@, tick_counts@.len() as int) * ONE / (tick_counts@.len()
                as int)) as u128,
        ),
{
    let trials: usize = tick_counts.len();
    if trials == 0 {
        return None;
    }
    let mut sum: u128 = 0;
    let mut i: usize = 0;
    while i < trials
        invariant
            i <= trials,
            trials == tick_counts@.len(),
            sum == ticks_sum(tick_counts@, i as int),
            sum <= i * 0xffff_ffff_ffff_ffff,
        decreases trials - i,
    {
        proof {
            assert((i + 1) * 0xffff_ffff_ffff_ffff == i * 0xffff_ffff_ffff_ffff
                + 0xffff_ffff_ffff_ffff) by (nonlinear_arith);
            assert((i + 1) * 0xffff_ffff_ffff_ffff <= 0xffff_ffff_ffff_ffff
                * 0xffff_ffff_ffff_ffff) by (nonlinear_arith)
                requires
                    0 <= i + 1 <= 0xffff_ffff_ffff_ffff,
            ;
        }
        sum = sum + tick_counts[i] as u128;
        i = i + 1;
    }
    // Scaling the sum itself could leave 128 bits; its quotient and remainder, scaled
    // one by one, cannot.
    let whole: u128 = sum / (trials as u128);
    let rest: u128 = sum % (trials as u128);
    proof {
        let one = ONE as int;
        let n = trials as int;
        let s = sum as int;
        vstd::arithmetic::div_mod::lemma_fundamental_div_mod(s, n);
        assert(whole <= 0xffff_ffff_ffff_ffff) by (nonlinear_arith)
            requires
                s == n * whole + rest,
                0 <= rest,
                s <= n * 0xffff_ffff_ffff_ffff,
                n > 0,
        ;
        assert(whole * one <= 0xffff_ffff_ffff_ffff * one) by (nonlinear_arith)
            requires
                0 <= whole <= 0xffff_ffff_ffff_ffff,
                0 <= one,
        ;
        assert(rest * one <= 0xffff_ffff_ffff_ffff * one) by (nonlinear_arith)
            requires
                0 <= rest <= 0xffff_ffff_ffff_ffff,
                0 <= one,
        ;
        assert(s * one == (whole * one) * n + rest * one) by (nonlinear_arith)
            requires
                s == n * whole + rest,
        ;
        lemma_split_quotient(whole * one, rest * one, n);
    }
    Some(whole * (ONE as u128) + rest * (ONE as u128) / (trials as u128))
}

/// The sum of the squares of the first `upto` tick counts.
pub open spec fn squares_sum(tick_counts: Seq<u64>, upto: int) -> int
    decreases upto,
{
    if upto <= 0 {
        0
    } else {
        squares_sum(tick_counts, upto - 1) + tick_counts[upto - 1] * tick_counts[upto - 1]
    }
}

/// `root` is the square root of `square`, rounded down.
pub open spec fn is_floor_root(root: int, square: int) -> bool {
    0 <= root && root * root <= square < (root + 1) * (root + 1)
}

/// The square root of `square`, rounded down.
pub open spec fn root_of(square: int) -> int {
    choose|root: int| is_floor_root(root, square)
}

/// A number has one rounded-down square root and no other.
pub proof fn lemma_root_is_unique(root: int, square: int)
    requires
        is_floor_root(root, square),
    ensures
        root_of(square) == root,
{
    let other = root_of(square);
    assert(is_floor_root(other, square));
    if other < root {
        assert((other + 1) * (other + 1) <= root * root) by (nonlinear_arith)
            requires
                0 <= other,
                other + 1 <= root,
        ;
    } else if other > root {
        assert((root + 1) * (root + 1) <= other * other) by (nonlinear_arith)
            requires
                0 <= root,
                root + 1 <= other,
        ;
    }
}

/// The square root of `square`, rounded down.
pub fn floor_root(square: u128) -> (root: u64)
    ensures
        is_floor_root(root as int, square as int),
        root == root_of(square as int),
{
    let mut low: u128 = 0;
    let mut high: u128 = 0x1_0000_0000_0000_0000;
    proof {
        assert(0x1_0000_0000_0000_0000int * 0x1_0000_0000_0000_0000int > u128::MAX)
            by (nonlinear_arith);
        assert(0int * 0int == 0) by (nonlinear_arith);
    }
    while high - low > 1
        invariant
            low < high <= 0x1_0000_0000_0000_0000,
            low * low <= square < high * high,
        decreases high - low,
    {
        let mid: u128 = low + (high - low) / 2;
        proof {
            assert(mid * mid <= 0xffff_ffff_ffff_ffff * 0xffff_ffff_ffff_ffff) by (nonlinear_arith)
                requires
                    0 <= mid <= 0xffff_ffff_ffff_ffff,
            ;
        }
        if mid * mid <= square {
            low = mid;
        } else {
            high = mid;
        }
    }
    proof {
        lemma_root_is_unique(low as int, square as int);
    }
    low as u64
}

/// The spread of the tick counts: the number of trials times the sum of squares, less
/// the square of the sum. It is the variance times the square of the number of trials.
pub open spec fn spread(tick_counts: Seq<u64>) -> int {
    tick_counts.len() * squares_sum(tick_counts, tick_counts.len() as int) - ticks_sum(
        tick_counts,
        tick_counts.len() as int,
    ) * ticks_sum(tick_counts, tick_counts.len() as int)
}

/// Whether the deviation of the tick counts can be computed in 128 bits: there is a
/// trial, and neither the sum of squares times the trials, nor the square of the sum,
/// nor the spread scaled by `ONE` leaves that range.
pub open spec fn deviation_fits(tick_counts: Seq<u64>) -> bool {
    let n = tick_counts.len() as int;
    let sum = ticks_sum(tick_counts, n);
    &&& n > 0
    &&& squares_sum(tick_counts, n) <= u128::MAX
    &&& n * squares_sum(tick_counts, n) <= u128::MAX
    &&& sum * sum <= u128::MAX
    &&& 0 <= spread(tick_counts)
    &&& spread(tick_counts) * ONE <= u128::MAX
}

/// The sum of squares grows with every trial counted.
proof fn lemma_squares_grow(tick_counts: Seq<u64>, fewer: int, more: int)
    requires
        0 <= fewer <= more <= tick_counts.len(),
    ensures
        0 <= squares_sum(tick_counts, fewer) <= squares_sum(tick_counts, more),
    decreases more,
{
    if more > 0 {
        let x = tick_counts[more - 1] as int;
        assert(0 <= x * x) by (nonlinear_arith)
            requires
                0 <= x,
        ;
        if fewer < more {
            lemma_squares_grow(tick_counts, fewer, more - 1);
        } else {
            lemma_squares_grow(tick_counts, more - 1, more - 1);
        }
    }
}

/// The standard deviation of the tick counts, in units of 10^-9 ticks: the root,
/// rounded down, of the spread scaled by 10^18, divided by the number of trials.
pub fn deviation_ticks(tick_counts: &Vec<u64>) -> (deviation: Option<u64>)
    ensures
        !deviation_fits(tick_counts@) ==> deviation.is_none(),
        deviation_fits(tick_counts@) ==> deviation == Some(
            (root_of(spread(tick_counts@) * ONE) / (tick_counts@.len() as int)) as u64,
        ),
{
    let trials: usize = tick_counts.len();
    if trials == 0 {
        return None;
    }
    let mut sum: u128 = 0;
    let mut squares: u128 = 0;
    let mut i: usize = 0;
    while i < trials
        invariant
            i <= trials,
            trials == tick_counts@.len(),
            sum == ticks_sum(tick_counts@, i as int),
            sum <= i * 0xffff_ffff_ffff_ffff,
            squares == squares_sum(tick_counts@, i as int),
        decreases trials - i,
    {
        let x: u128 = tick_counts[i] as u128;
        proof {
            assert((i + 1) * 0xffff_ffff_ffff_ffff == i * 0xffff_ffff_ffff_ffff
                + 0xffff_ffff_ffff_ffff) by (nonlinear_arith);
            assert((i + 1) * 0xffff_ffff_ffff_ffff <= 0xffff_ffff_ffff_ffff
                * 0xffff_ffff_ffff_ffff) by (nonlinear_arith)
                requires
                    0 <= i + 1 <= 0xffff_ffff_ffff_ffff,
            ;
            assert(x * x <= 0xffff_ffff_ffff_ffff * 0xffff_ffff_ffff_ffff) by (nonlinear_arith)
                requires
                    0 <= x <= 0xffff_ffff_ffff_ffff,
            ;
        }
        let square: u128 = x * x;
        squares = match squares.checked_add(square) {
            Some(s) => s,
            None => {
                proof {
                    lemma_squares_grow(tick_counts@, i + 1, trials as int);
                }
                return None;
            },
        };
        sum = sum + x;
        i = i + 1;
    }
    let scaled_squares: u128 = match (trials as u128).checked_mul(squares) {
        Some(s) => s,
        None => {
            return None;
        },
    };
    let sum_squared: u128 = match sum.checked_mul(sum) {
        Some(s) => s,
        None => {
            return None;
        },
    };
    let wide_spread: u128 = match scaled_squares.checked_sub(sum_squared) {
        Some(s) => s,
        None => {
            return None;
        },
    };
    let scaled: u128 = match wide_spread.checked_mul(ONE as u128) {
        Some(s) => s,
        None => {
            return None;
        },
    };
    let root: u64 = floor_root(scaled);
    Some(root / (trials as u64))
}

/// Dividing `a * n + b` by `n` gives `a` and the quotient of `b`.
proof fn lemma_split_quotient(a: int, b: int, n: int)
    requires
        n > 0,
        0 <= b,
    ensures
        (a * n + b) / n == a + b / n,
{
    vstd::arithmetic::div_mod::lemma_fundamental_div_mod(b, n);
    let q = b / n;
    let r = b % n;
    assert(a * n + b == (a + q) * n + r) by (nonlinear_arith)
        requires
            b == n * q + r,
    ;
    vstd::arithmetic::div_mod::lemma_fundamental_div_mod_converse(a * n + b, n, a + q, r);
}

} // verus!
