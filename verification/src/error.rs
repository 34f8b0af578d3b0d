//! The ways in which a request to the engine can be refused.

use vstd::prelude::*;

verus! {

/// Why the engine refused an input. Every entry point checks its arguments before any
/// probability is computed and reports the first failed check.
#[derive(Clone, Copy, Debug, PartialEq, Eq, Structural)]
pub enum EngineError {
    /// An accuracy above certainty.
    AccuracyOutOfRange,
    /// A confidence cap above certainty.
    CapOutOfRange,
    /// An attack speed of zero ticks.
    ZeroAttackSpeed,
    /// A hit-point total whose state space cannot be indexed.
    TooManyStates,
    /// A step budget whose last tick cannot be represented.
    TickOverflow,
    /// A state and a matrix, or two series, of sizes that do not belong together.
    SizeMismatch,
    /// A composition of two series neither of which has an entry.
    EmptySeries,
    /// A series that decreases somewhere or rises above certainty.
    NotCumulative,
    /// A mass function whose entries sum to more than certainty.
    ExcessMass,
    /// An attack or defence roll too large for the accuracy formulas.
    RollOutOfRange,
    /// A gear bonus that leaves the range of its type when items are swapped.
    StatOverflow,
    /// An encounter without any monster.
    NoMonsters,
    /// An encounter with fewer monsters than its script needs.
    MissingMonster,
    /// An encounter whose monsters are not the ones that its script is written for.
    WrongMonster,
    /// Two forms of one monster whose defence levels differ.
    UnequalDefence,
    /// A simulation asked to run no trial.
    NoTrials,
}

/// Checks that an encounter has the monsters that its script needs.
pub fn require_monsters(found: usize, needed: usize) -> (result: Result<(), EngineError>)
    ensures
        found >= needed ==> result.is_ok(),
        found < needed ==> result == Err::<(), EngineError>(EngineError::MissingMonster),
{
    if found < needed {
        Err(EngineError::MissingMonster)
    } else {
        Ok(())
    }
}

} // verus!
