use vstd::prelude::*;

verus! {

/// The recoverable failures that deliberation, planning and inference
/// report. A failing tick never aborts the agent: the responsible desire
/// or intention is dropped and the error surfaced to the caller.
#[derive(Debug)]
pub enum CognitionError {
    /// The planner exhausted its search bound without reaching the goal.
    PlanningFailed(String),
    /// The goal was found unreachable, either by static inspection of its
    /// conditions or by exhausting the reachable state space.
    GoalNotAchievable(String),
    /// A proposed belief update was malformed.
    BeliefRevisionFailed(String),
    /// Forward chaining exceeded its iteration cap without reaching a
    /// fixpoint, which signals a cyclic or contradictory rule set.
    ReasoningError(String),
    /// A collaborator-reported failure outside the core's own logic.
    Other(String),
}

impl CognitionError {
    /// The detail string the error was raised with.
    pub fn detail(&self) -> (r: &str)
        ensures
            r@ == match self {
                CognitionError::PlanningFailed(s) => s@,
                CognitionError::GoalNotAchievable(s) => s@,
                CognitionError::BeliefRevisionFailed(s) => s@,
                CognitionError::ReasoningError(s) => s@,
                CognitionError::Other(s) => s@,
            },
    {
        match self {
            CognitionError::PlanningFailed(s) => s.as_str(),
            CognitionError::GoalNotAchievable(s) => s.as_str(),
            CognitionError::BeliefRevisionFailed(s) => s.as_str(),
            CognitionError::ReasoningError(s) => s.as_str(),
            CognitionError::Other(s) => s.as_str(),
        }
    }
}

} // verus!
