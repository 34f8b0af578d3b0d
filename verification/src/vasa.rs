//! Two chains side by side: a boss that is attacked tick by tick, and a shield that is
//! worn down during bounded phases and heals the boss where it survives them.

use vstd::prelude::*;
use crate::error::EngineError;
use crate::matrix::{
    TransitionMatrix, DamageRoll, attack_matrix, slowed, build_per_tick_matrix, zeros,
};
use crate::prob::{ONE, total, lemma_total_update, lemma_total_take, lemma_total_bounds, lemma_total_prefix_zero};
use crate::series::{dead_after, is_cumulative, weighted_gain, expectation};
use crate::state::{ProbabilityState, propagate_state, stepped_by, point_mass};

verus! {

/// The hit points that a heal of `percent` of `hp` restores: the product, rounded to
/// the nearest whole, halves up.
pub open spec fn heal_points(hp: int, percent: int) -> int {
    (hp * percent + ONE / 2) / (ONE as int)
}

/// The hit points that a heal of `percent` of `hp` really restores: no more than all,
/// which takes every living state to full health.
pub open spec fn capped_heal(hp: int, percent: int) -> int {
    if heal_points(hp, percent) > hp {
        hp
    } else {
        heal_points(hp, percent)
    }
}

/// Where a heal of `heal` hit points takes state `from`: the dead stay dead, the living
/// rise by `heal`, up to `top` at most.
pub open spec fn healed_to(from: int, heal: int, top: int) -> int {
    if from == 0 {
        0
    } else if from + heal < top {
        from + heal
    } else {
        top
    }
}

/// The mass that a heal moves to `to` from the states below `upto`.
pub open spec fn healed_mass(state: Seq<u64>, heal: int, to: int, upto: int) -> int
    decreases upto,
{
    if upto <= 0 {
        0
    } else {
        healed_mass(state, heal, to, upto - 1) + if healed_to(upto - 1, heal, state.len() - 1)
            == to {
            state[upto - 1] as int
        } else {
            0
        }
    }
}

/// The state after a heal of `heal` hit points.
pub open spec fn healed(state: Seq<u64>, heal: int) -> Seq<u64> {
    Seq::new(state.len(), |j: int| healed_mass(state, heal, j, state.len() as int) as u64)
}

/// A heal brings nobody back: the dead state holds after it what it held before.
pub proof fn lemma_heal_keeps_dead(state: Seq<u64>, heal: int, upto: int)
    requires
        0 <= heal,
        1 <= upto <= state.len(),
    ensures
        healed_mass(state, heal, 0, upto) == state[0],
    decreases upto,
{
    if upto > 1 {
        lemma_heal_keeps_dead(state, heal, upto - 1);
    } else {
        assert(healed_mass(state, heal, 0, 0) == 0);
    }
}

/// Heals the living by `heal_amount` hit points, up to full health at most.
pub fn heal_state(state: &ProbabilityState, heal_amount: usize) -> (out: ProbabilityState)
    requires
        state.wf(),
    ensures
        out.wf(),
        out@ == healed(state@, heal_amount as int),
        out@[0] == state@[0],
{
    let source: &Vec<u64> = state.masses();
    let n: usize = source.len();
    let top: usize = n - 1;
    let mut out: Vec<u64> = zeros(n);
    let mut i: usize = 0;
    proof {
        lemma_total_prefix_zero(source@);
    }
    while i < n
        invariant
            i <= n,
            n == source@.len(),
            top == n - 1,
            n >= 1,
            total(source@) == ONE,
            out@.len() == n,
            total(out@) == total(source@.take(i as int)),
            forall|j: int|
                0 <= j < n ==> (#[trigger] out@[j]) == healed_mass(
                    source@,
                    heal_amount as int,
                    j,
                    i as int,
                ),
        decreases n - i,
    {
        let to: usize = if i == 0 {
            0
        } else if heal_amount >= top - i {
            top
        } else {
            i + heal_amount
        };
        proof {
            lemma_total_take(source@, i as int);
            lemma_total_bounds(out@, to as int);
        }
        let updated: u64 = out[to] + source[i];
        proof {
            lemma_total_update(out@, to as int, updated);
        }
        out.set(to, updated);
        i = i + 1;
    }
    proof {
        assert(source@.take(n as int) =~= source@);
        assert(out@ =~= healed(state@, heal_amount as int));
        lemma_heal_keeps_dead(state@, heal_amount as int, n as int);
    }
    ProbabilityState::from_masses(out)
}

/// The boss side of a run: its state, and the death probabilities recorded so far.
pub struct Run {
    pub state: Seq<u64>,
    pub log: Seq<u64>,
}

/// The lengths, in ticks, of the phases of one cycle, the heal between them and the cap.
#[derive(Clone, Copy, Debug)]
pub struct Script {
    /// Ticks of attacks before the shield first comes up.
    pub opening_ticks: usize,
    /// Ticks for which the shield stays up, each time.
    pub shield_ticks: usize,
    /// Ticks of attacks between the two shield phases.
    pub middle_ticks: usize,
    /// Ticks of attacks after the second shield phase.
    pub closing_ticks: usize,
    /// Ticks without any attack that end the cycle.
    pub pause_ticks: usize,
    /// Hit points restored where the shield outlives its phase.
    pub heal: usize,
    /// The death probability at which the run ends.
    pub cap: u64,
}

/// How many ticks an attack phase really takes, counted on from `done`: it ends early
/// after the first tick that brings the death probability to `cap`.
pub open spec fn phase_length(
    state: Seq<u64>,
    matrix: Seq<Seq<u64>>,
    ticks: nat,
    cap: int,
    done: nat,
) -> nat
    decreases ticks - done,
{
    if done >= ticks {
        ticks
    } else if dead_after(state, matrix, done + 1) >= cap {
        done + 1
    } else {
        phase_length(state, matrix, ticks, cap, done + 1)
    }
}

/// The death probabilities recorded during `made` ticks: each tick records first and
/// attacks after.
pub open spec fn recorded(state: Seq<u64>, matrix: Seq<Seq<u64>>, made: nat) -> Seq<u64> {
    Seq::new(made, |t: int| dead_after(state, matrix, t as nat) as u64)
}

/// A phase in which only the boss is attacked.
pub open spec fn attack_phase(run: Run, matrix: Seq<Seq<u64>>, ticks: nat, cap: int) -> Run {
    let made = phase_length(run.state, matrix, ticks, cap, 0);
    Run {
        state: stepped_by(run.state, matrix, made),
        log: run.log + recorded(run.state, matrix, made),
    }
}

/// A phase in which boss and shield are attacked side by side for `ticks` ticks, the
/// shield from full health. Where the shield is not surely dead at the end, the boss heals.
pub open spec fn shielded_phase(
    run: Run,
    matrix: Seq<Seq<u64>>,
    shield_matrix: Seq<Seq<u64>>,
    shield_hp: int,
    ticks: nat,
    heal: int,
) -> Run {
    let worn = stepped_by(run.state, matrix, ticks);
    let shield = stepped_by(point_mass(shield_hp), shield_matrix, ticks);
    Run {
        state: if shield[0] < ONE {
            healed(worn, heal)
        } else {
            worn
        },
        log: run.log + recorded(run.state, matrix, ticks),
    }
}

/// A phase without attacks: every tick records the unchanged death probability.
pub open spec fn pause_phase(run: Run, ticks: nat) -> Run {
    Run { state: run.state, log: run.log + Seq::new(ticks, |t: int| run.state[0]) }
}

/// One cycle: attacks, shield, attacks, shield, attacks, pause. It ends after any of
/// its attack phases that brings the death probability to the cap.
pub open spec fn cycle(
    run: Run,
    matrix: Seq<Seq<u64>>,
    shield_matrix: Seq<Seq<u64>>,
    shield_hp: int,
    script: Script,
) -> Run {
    let cap = script.cap as int;
    let opened = attack_phase(run, matrix, script.opening_ticks as nat, cap);
    if opened.state[0] >= cap {
        opened
    } else {
        let shielded = shielded_phase(
            opened,
            matrix,
            shield_matrix,
            shield_hp,
            script.shield_ticks as nat,
            script.heal as int,
        );
        let middle = attack_phase(shielded, matrix, script.middle_ticks as nat, cap);
        if middle.state[0] >= cap {
            middle
        } else {
            let reshielded = shielded_phase(
                middle,
                matrix,
                shield_matrix,
                shield_hp,
                script.shield_ticks as nat,
                script.heal as int,
            );
            let closing = attack_phase(reshielded, matrix, script.closing_ticks as nat, cap);
            if closing.state[0] >= cap {
                closing
            } else {
                pause_phase(closing, script.pause_ticks as nat)
            }
        }
    }
}

/// Up to `count` cycles, none begun once the death probability has reached the cap.
pub open spec fn cycles(
    run: Run,
    matrix: Seq<Seq<u64>>,
    shield_matrix: Seq<Seq<u64>>,
    shield_hp: int,
    script: Script,
    count: nat,
) -> Run
    decreases count,
{
    if count == 0 || run.state[0] >= script.cap {
        run
    } else {
        cycles(
            cycle(run, matrix, shield_matrix, shield_hp, script),
            matrix,
            shield_matrix,
            shield_hp,
            script,
            (count - 1) as nat,
        )
    }
}

/// The log is cumulative and none of its entries exceeds `ceiling`.
pub open spec fn log_below(log: Seq<u64>, ceiling: int) -> bool {
    &&& is_cumulative(log)
    &&& ceiling <= ONE
    &&& forall|k: int| 0 <= k < log.len() ==> #[trigger] log[k] <= ceiling
}

/// Recording the current death probability keeps the log in order.
proof fn lemma_log_push(log: Seq<u64>, entry: u64, ceiling: int)
    requires
        log_below(log, entry as int),
        entry <= ceiling <= ONE,
    ensures
        log_below(log.push(entry), ceiling),
{
    let longer = log.push(entry);
    assert forall|a: int, b: int| 0 <= a <= b < longer.len() implies (#[trigger] longer[a]) <= (
    #[trigger] longer[b]) <= ONE by {
        if b < log.len() {
            assert(log[a] <= log[b]);
        } else if a < log.len() {
            assert(log[a] <= entry);
        }
    }
}

/// A log in order under one ceiling is in order under any higher one.
proof fn lemma_log_raise(log: Seq<u64>, low: int, high: int)
    requires
        log_below(log, low),
        low <= high <= ONE,
    ensures
        log_below(log, high),
{
}

/// Runs an attack phase on the boss.
fn run_attack_phase(
    state: ProbabilityState,
    log: &mut Vec<u64>,
    matrix: &TransitionMatrix,
    ticks: usize,
    cap: u64,
) -> (next: ProbabilityState)
    requires
        state.wf(),
        matrix.wf(),
        state@.len() == matrix@.len(),
        log_below(old(log)@, state@[0] as int),
    ensures
        next.wf(),
        next@.len() == state@.len(),
        next@ == attack_phase(
            Run { state: state@, log: old(log)@ },
            matrix@,
            ticks as nat,
            cap as int,
        ).state,
        final(log)@ == attack_phase(
            Run { state: state@, log: old(log)@ },
            matrix@,
            ticks as nat,
            cap as int,
        ).log,
        log_below(final(log)@, next@[0] as int),
{
    let ghost start: Seq<u64> = state@;
    let ghost earlier: Seq<u64> = log@;
    let mut current: ProbabilityState = state;
    let mut done: usize = 0;
    let mut stop: bool = false;
    proof {
        assert(log@ =~= earlier + recorded(start, matrix@, 0));
    }
    while done < ticks && !stop
        invariant
            done <= ticks,
            matrix.wf(),
            current.wf(),
            current@.len() == matrix@.len(),
            current@.len() == start.len(),
            current@ == stepped_by(start, matrix@, done as nat),
            log@ == earlier + recorded(start, matrix@, done as nat),
            log_below(log@, current@[0] as int),
            !stop ==> phase_length(start, matrix@, ticks as nat, cap as int, done as nat)
                == phase_length(start, matrix@, ticks as nat, cap as int, 0),
            stop ==> phase_length(start, matrix@, ticks as nat, cap as int, 0) == done,
        decreases ticks - done, if stop { 0int } else { 1int },
    {
        let before: u64 = current.dead();
        proof {
            lemma_log_push(log@, before, before as int);
        }
        log.push(before);
        let moved: ProbabilityState = match propagate_state(&current, matrix) {
            Ok(s) => s,
            Err(_) => {
                proof {
                    assert(false);
                }
                current.duplicate()
            },
        };
        proof {
            assert(moved@ == stepped_by(start, matrix@, (done + 1) as nat));
            assert(log@ =~= earlier + recorded(start, matrix@, (done + 1) as nat));
            lemma_total_bounds(moved@, 0);
            lemma_log_raise(log@, before as int, moved@[0] as int);
        }
        current = moved;
        done = done + 1;
        if current.dead() >= cap {
            stop = true;
        }
    }
    current
}

/// Runs a shielded phase: boss and shield are attacked side by side, and the boss
/// heals at the end where the shield may have survived.
fn run_shielded_phase(
    state: ProbabilityState,
    log: &mut Vec<u64>,
    matrix: &TransitionMatrix,
    shield_matrix: &TransitionMatrix,
    shield_hp: usize,
    ticks: usize,
    heal: usize,
) -> (next: ProbabilityState)
    requires
        state.wf(),
        matrix.wf(),
        shield_matrix.wf(),
        state@.len() == matrix@.len(),
        shield_matrix@.len() == shield_hp + 1,
        shield_hp < usize::MAX,
        log_below(old(log)@, state@[0] as int),
    ensures
        next.wf(),
        next@.len() == state@.len(),
        next@ == shielded_phase(
            Run { state: state@, log: old(log)@ },
            matrix@,
            shield_matrix@,
            shield_hp as int,
            ticks as nat,
            heal as int,
        ).state,
        final(log)@ == shielded_phase(
            Run { state: state@, log: old(log)@ },
            matrix@,
            shield_matrix@,
            shield_hp as int,
            ticks as nat,
            heal as int,
        ).log,
        log_below(final(log)@, next@[0] as int),
{
    let ghost start: Seq<u64> = state@;
    let ghost earlier: Seq<u64> = log@;
    let mut current: ProbabilityState = state;
    let mut shield: ProbabilityState = match ProbabilityState::at_full_health(shield_hp) {
        Ok(s) => s,
        Err(_) => {
            proof {
                assert(false);
            }
            current.duplicate()
        },
    };
    let mut done: usize = 0;
    proof {
        assert(log@ =~= earlier + recorded(start, matrix@, 0));
    }
    while done < ticks
        invariant
            done <= ticks,
            matrix.wf(),
            shield_matrix.wf(),
            current.wf(),
            shield.wf(),
            current@.len() == matrix@.len(),
            current@.len() == start.len(),
            shield@.len() == shield_matrix@.len(),
            current@ == stepped_by(start, matrix@, done as nat),
            shield@ == stepped_by(point_mass(shield_hp as int), shield_matrix@, done as nat),
            log@ == earlier + recorded(start, matrix@, done as nat),
            log_below(log@, current@[0] as int),
        decreases ticks - done,
    {
        let before: u64 = current.dead();
        proof {
            lemma_log_push(log@, before, before as int);
        }
        log.push(before);
        let moved: ProbabilityState = match propagate_state(&current, matrix) {
            Ok(s) => s,
            Err(_) => {
                proof {
                    assert(false);
                }
                current.duplicate()
            },
        };
        let worn: ProbabilityState = match propagate_state(&shield, shield_matrix) {
            Ok(s) => s,
            Err(_) => {
                proof {
                    assert(false);
                }
                shield.duplicate()
            },
        };
        proof {
            assert(moved@ == stepped_by(start, matrix@, (done + 1) as nat));
            assert(worn@ == stepped_by(
                point_mass(shield_hp as int),
                shield_matrix@,
                (done + 1) as nat,
            ));
            assert(log@ =~= earlier + recorded(start, matrix@, (done + 1) as nat));
            lemma_total_bounds(moved@, 0);
            lemma_log_raise(log@, before as int, moved@[0] as int);
        }
        current = moved;
        shield = worn;
        done = done + 1;
    }
    if shield.dead() < ONE {
        heal_state(&current, heal)
    } else {
        current
    }
}

/// Runs a pause: `ticks` ticks that record the unchanged death probability.
fn run_pause_phase(state: &ProbabilityState, log: &mut Vec<u64>, ticks: usize)
    requires
        state.wf(),
        log_below(old(log)@, state@[0] as int),
    ensures
        final(log)@ == pause_phase(Run { state: state@, log: old(log)@ }, ticks as nat).log,
        log_below(final(log)@, state@[0] as int),
{
    let ghost earlier: Seq<u64> = log@;
    let held: u64 = state.dead();
    let mut done: usize = 0;
    proof {
        assert(log@ =~= earlier + Seq::new(0, |t: int| held));
    }
    while done < ticks
        invariant
            done <= ticks,
            held == state@[0],
            held <= ONE,
            log@ == earlier + Seq::new(done as nat, |t: int| held),
            log_below(log@, held as int),
        decreases ticks - done,
    {
        proof {
            lemma_log_push(log@, held, held as int);
        }
        log.push(held);
        proof {
            assert(log@ =~= earlier + Seq::new((done + 1) as nat, |t: int| held));
        }
        done = done + 1;
    }
}

/// Runs one cycle of the script.
fn run_cycle(
    state: ProbabilityState,
    log: &mut Vec<u64>,
    matrix: &TransitionMatrix,
    shield_matrix: &TransitionMatrix,
    shield_hp: usize,
    script: &Script,
) -> (next: ProbabilityState)
    requires
        state.wf(),
        matrix.wf(),
        shield_matrix.wf(),
        state@.len() == matrix@.len(),
        shield_matrix@.len() == shield_hp + 1,
        shield_hp < usize::MAX,
        log_below(old(log)@, state@[0] as int),
    ensures
        next.wf(),
        next@.len() == state@.len(),
        next@ == cycle(
            Run { state: state@, log: old(log)@ },
            matrix@,
            shield_matrix@,
            shield_hp as int,
            *script,
        ).state,
        final(log)@ == cycle(
            Run { state: state@, log: old(log)@ },
            matrix@,
            shield_matrix@,
            shield_hp as int,
            *script,
        ).log,
        log_below(final(log)@, next@[0] as int),
{
    let opened: ProbabilityState = run_attack_phase(
        state,
        log,
        matrix,
        script.opening_ticks,
        script.cap,
    );
    if opened.dead() >= script.cap {
        return opened;
    }
    let shielded: ProbabilityState = run_shielded_phase(
        opened,
        log,
        matrix,
        shield_matrix,
        shield_hp,
        script.shield_ticks,
        script.heal,
    );
    let middle: ProbabilityState = run_attack_phase(
        shielded,
        log,
        matrix,
        script.middle_ticks,
        script.cap,
    );
    if middle.dead() >= script.cap {
        return middle;
    }
    let reshielded: ProbabilityState = run_shielded_phase(
        middle,
        log,
        matrix,
        shield_matrix,
        shield_hp,
        script.shield_ticks,
        script.heal,
    );
    let closing: ProbabilityState = run_attack_phase(
        reshielded,
        log,
        matrix,
        script.closing_ticks,
        script.cap,
    );
    if closing.dead() >= script.cap {
        return closing;
    }
    run_pause_phase(&closing, log, script.pause_ticks);
    closing
}

/// Runs up to `max_cycles` cycles of the script from `initial`, and returns the death
/// probability recorded on every tick.
pub fn run_script(
    initial: &ProbabilityState,
    matrix: &TransitionMatrix,
    shield_matrix: &TransitionMatrix,
    script: &Script,
    max_cycles: usize,
) -> (result: Result<Vec<u64>, EngineError>)
    requires
        initial.wf(),
        matrix.wf(),
        shield_matrix.wf(),
    ensures
        initial@.len() != matrix@.len() ==> result == Err::<Vec<u64>, EngineError>(
            EngineError::SizeMismatch,
        ),
        initial@.len() == matrix@.len() ==> result is Ok,
        result matches Ok(log) ==> is_cumulative(log@) && log@ == cycles(
            Run { state: initial@, log: Seq::empty() },
            matrix@,
            shield_matrix@,
            shield_matrix@.len() - 1,
            *script,
            max_cycles as nat,
        ).log,
{
    if initial.len() != matrix.dim() {
        return Err(EngineError::SizeMismatch);
    }
    let shield_hp: usize = shield_matrix.dim() - 1;
    let ghost first: Run = Run { state: initial@, log: Seq::empty() };
    let mut current: ProbabilityState = initial.duplicate();
    let mut log: Vec<u64> = Vec::new();
    let mut done: usize = 0;
    let mut dead_now: u64 = current.dead();
    proof {
        assert(log@ =~= Seq::<u64>::empty());
    }
    while done < max_cycles && dead_now < script.cap
        invariant
            done <= max_cycles,
            matrix.wf(),
            shield_matrix.wf(),
            current.wf(),
            current@.len() == matrix@.len(),
            shield_matrix@.len() == shield_hp + 1,
            shield_hp < usize::MAX,
            dead_now == current@[0],
            log_below(log@, current@[0] as int),
            cycles(first, matrix@, shield_matrix@, shield_hp as int, *script, max_cycles as nat)
                == cycles(
                Run { state: current@, log: log@ },
                matrix@,
                shield_matrix@,
                shield_hp as int,
                *script,
                (max_cycles - done) as nat,
            ),
        decreases max_cycles - done,
    {
        current = run_cycle(current, &mut log, matrix, shield_matrix, shield_hp, script);
        dead_now = current.dead();
        done = done + 1;
    }
    Ok(log)
}

/// A death-probability curve by tick, with the expected tick of the kill.
pub struct CoupledSeries {
    /// The probability that the boss is dead at the start of each tick.
    pub kill_prob_by_tick: Vec<u64>,
    /// The expected tick of the kill, in units of 10^-18 ticks.
    pub expected_ticks: u128,
}

/// The refusal, if any, of a request for a coupled series: the first failed check.
pub open spec fn coupled_refusal(
    vasa_hp: int,
    vasa_accuracy: int,
    vasa_attack_speed: int,
    crystal_hp: int,
    crystal_accuracy: int,
    crystal_attack_speed: int,
    pre_crystal_attacks: int,
    post_crystal_attacks: int,
    teleport_attacks: int,
    cap: int,
) -> Option<EngineError> {
    if vasa_accuracy > ONE || crystal_accuracy > ONE {
        Some(EngineError::AccuracyOutOfRange)
    } else if cap > ONE {
        Some(EngineError::CapOutOfRange)
    } else if vasa_hp == usize::MAX || crystal_hp == usize::MAX {
        Some(EngineError::TooManyStates)
    } else if vasa_attack_speed == 0 || crystal_attack_speed == 0 {
        Some(EngineError::ZeroAttackSpeed)
    } else if pre_crystal_attacks * vasa_attack_speed > usize::MAX || post_crystal_attacks
        * vasa_attack_speed > usize::MAX || teleport_attacks * vasa_attack_speed > usize::MAX {
        Some(EngineError::TickOverflow)
    } else {
        None
    }
}

/// The script that the arguments of a coupled series describe.
pub open spec fn script_of(
    vasa_hp: int,
    vasa_attack_speed: int,
    max_crystal_phase_ticks: usize,
    pre_crystal_attacks: int,
    post_crystal_attacks: int,
    teleport_attacks: int,
    teleport_ticks: usize,
    heal_percent: int,
    cap: u64,
) -> Script {
    Script {
        opening_ticks: (pre_crystal_attacks * vasa_attack_speed) as usize,
        shield_ticks: max_crystal_phase_ticks,
        middle_ticks: (post_crystal_attacks * vasa_attack_speed) as usize,
        closing_ticks: (teleport_attacks * vasa_attack_speed) as usize,
        pause_ticks: teleport_ticks,
        heal: capped_heal(vasa_hp, heal_percent) as usize,
        cap,
    }
}

/// The number of ticks that `attacks` attacks at `speed` ticks each take.
fn phase_ticks(attacks: usize, speed: usize) -> (ticks: Option<usize>)
    ensures
        attacks * speed <= usize::MAX ==> ticks == Some((attacks * speed) as usize),
        attacks * speed > usize::MAX ==> ticks.is_none(),
{
    attacks.checked_mul(speed)
}

/// The hit points of a heal of `percent` of `hp`.
fn heal_amount_of(hp: usize, percent: u64) -> (heal: usize)
    ensures
        heal == capped_heal(hp as int, percent as int),
{
    proof {
        assert(hp * percent <= 0xffff_ffff_ffff_ffff * 0xffff_ffff_ffff_ffff) by (nonlinear_arith)
            requires
                0 <= hp <= 0xffff_ffff_ffff_ffff,
                0 <= percent <= 0xffff_ffff_ffff_ffff,
        ;
        assert(0 <= hp * percent) by (nonlinear_arith)
            requires
                0 <= hp,
                0 <= percent,
        ;
    }
    let wide: u128 = (hp as u128) * (percent as u128) + (ONE / 2) as u128;
    let whole: u128 = wide / (ONE as u128);
    if whole > hp as u128 {
        hp
    } else {
        whole as usize
    }
}

/// The death-probability curve, tick by tick, of a boss that is attacked in cycles of
/// attack phases, shield phases and a pause, with the expected tick of the kill.
///
/// The boss weapon attacks on one tick in `vasa_attack_speed`, the shield weapon on one
/// tick in `crystal_attack_speed`, both for 1 up to their maximum hit, capped at the hit
/// points left. Entry `t` of the curve is the probability that the boss is dead at the
/// start of tick `t`.
pub fn weapon_kill_times_markov_per_tick_with_delay(
    vasa_hp: usize,
    vasa_max_hit: usize,
    vasa_accuracy: u64,
    vasa_attack_speed: usize,
    crystal_hp: usize,
    crystal_max_hit: usize,
    crystal_accuracy: u64,
    crystal_attack_speed: usize,
    max_crystal_phase_ticks: usize,
    pre_crystal_attacks: usize,
    post_crystal_attacks: usize,
    teleport_attacks: usize,
    teleport_ticks: usize,
    heal_percent: u64,
    max_cycles: usize,
    cap: u64,
) -> (result: Result<CoupledSeries, EngineError>)
    ensures
        result matches Err(e) ==> e == coupled_refusal(
            vasa_hp as int,
            vasa_accuracy as int,
            vasa_attack_speed as int,
            crystal_hp as int,
            crystal_accuracy as int,
            crystal_attack_speed as int,
            pre_crystal_attacks as int,
            post_crystal_attacks as int,
            teleport_attacks as int,
            cap as int,
        ).unwrap(),
        result is Err <==> coupled_refusal(
            vasa_hp as int,
            vasa_accuracy as int,
            vasa_attack_speed as int,
            crystal_hp as int,
            crystal_accuracy as int,
            crystal_attack_speed as int,
            pre_crystal_attacks as int,
            post_crystal_attacks as int,
            teleport_attacks as int,
            cap as int,
        ).is_some(),
        result matches Ok(s) ==> {
            let run = cycles(
                Run { state: point_mass(vasa_hp as int), log: Seq::empty() },
                slowed(
                    attack_matrix(
                        DamageRoll::OneToRemaining,
                        vasa_hp as int,
                        vasa_max_hit as int,
                        vasa_accuracy as int,
                    ),
                    vasa_attack_speed as int,
                ),
                slowed(
                    attack_matrix(
                        DamageRoll::OneToRemaining,
                        crystal_hp as int,
                        crystal_max_hit as int,
                        crystal_accuracy as int,
                    ),
                    crystal_attack_speed as int,
                ),
                crystal_hp as int,
                script_of(
                    vasa_hp as int,
                    vasa_attack_speed as int,
                    max_crystal_phase_ticks,
                    pre_crystal_attacks as int,
                    post_crystal_attacks as int,
                    teleport_attacks as int,
                    teleport_ticks,
                    heal_percent as int,
                    cap,
                ),
                max_cycles as nat,
            );
            &&& s.kill_prob_by_tick@ == run.log
            &&& is_cumulative(s.kill_prob_by_tick@)
            &&& s.expected_ticks == weighted_gain(run.log, 0, 0, 1, run.log.len() as int)
        },
{
    if vasa_accuracy > ONE || crystal_accuracy > ONE {
        return Err(EngineError::AccuracyOutOfRange);
    }
    if cap > ONE {
        return Err(EngineError::CapOutOfRange);
    }
    if vasa_hp == usize::MAX || crystal_hp == usize::MAX {
        return Err(EngineError::TooManyStates);
    }
    if vasa_attack_speed == 0 || crystal_attack_speed == 0 {
        return Err(EngineError::ZeroAttackSpeed);
    }
    let opening_ticks: usize = match phase_ticks(pre_crystal_attacks, vasa_attack_speed) {
        Some(t) => t,
        None => {
            return Err(EngineError::TickOverflow);
        },
    };
    let middle_ticks: usize = match phase_ticks(post_crystal_attacks, vasa_attack_speed) {
        Some(t) => t,
        None => {
            return Err(EngineError::TickOverflow);
        },
    };
    let closing_ticks: usize = match phase_ticks(teleport_attacks, vasa_attack_speed) {
        Some(t) => t,
        None => {
            return Err(EngineError::TickOverflow);
        },
    };
    let script: Script = Script {
        opening_ticks,
        shield_ticks: max_crystal_phase_ticks,
        middle_ticks,
        closing_ticks,
        pause_ticks: teleport_ticks,
        heal: heal_amount_of(vasa_hp, heal_percent),
        cap,
    };
    let matrix: TransitionMatrix = match build_per_tick_matrix(
        vasa_hp,
        vasa_max_hit,
        vasa_accuracy,
        vasa_attack_speed,
    ) {
        Ok(m) => m,
        Err(e) => {
            return Err(e);
        },
    };
    let shield_matrix: TransitionMatrix = match build_per_tick_matrix(
        crystal_hp,
        crystal_max_hit,
        crystal_accuracy,
        crystal_attack_speed,
    ) {
        Ok(m) => m,
        Err(e) => {
            return Err(e);
        },
    };
    let initial: ProbabilityState = match ProbabilityState::at_full_health(vasa_hp) {
        Ok(s) => s,
        Err(e) => {
            return Err(e);
        },
    };
    let log: Vec<u64> = match run_script(&initial, &matrix, &shield_matrix, &script, max_cycles) {
        Ok(l) => l,
        Err(e) => {
            return Err(e);
        },
    };
    let entries: usize = log.len();
    proof {
        assert(0 + entries * 1 <= u64::MAX);
    }
    let expected_ticks: u128 = expectation(&log, 0, 0, 1);
    Ok(CoupledSeries { kill_prob_by_tick: log, expected_ticks })
}

} // verus!
