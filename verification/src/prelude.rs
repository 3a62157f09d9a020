//! Convenient re-exports of the crate's main types.

pub use crate::bdi::{BDIAgent, Belief, BeliefBase, Desire, Goal, GoalType, Intention, IntentionStack};
pub use crate::decision::UtilityFunction;
pub use crate::error::CognitionError;
pub use crate::planning::{Action, Plan, Planner, State};
pub use crate::reasoning::{Predicate, ReasoningEngine, Rule};
