//! Deliberation and planning core for belief-desire-intention agents: a
//! belief store with certainty-weighted entries, forward-chaining inference
//! over a rule base, a breadth-first STRIPS-style planner, and an intention
//! stack driven by a per-tick deliberation cycle.

pub mod bdi;
pub mod decision;
pub mod error;
pub mod kvmap;
pub mod planning;
pub mod prelude;
pub mod reasoning;
pub mod strutil;

pub use bdi::{Belief, BeliefBase, Desire, Goal, Intention, IntentionStack};
pub use error::CognitionError;
pub use planning::{Action, Plan, Planner, State};
pub use reasoning::{Predicate, ReasoningEngine, Rule};
