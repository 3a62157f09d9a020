//! The belief-desire-intention side of the agent: beliefs, the belief
//! store, goals, desires, intentions and the deliberating agent itself.

pub mod bdi_agent;
pub mod belief;
pub mod belief_base;
pub mod desire;
pub mod goal;
pub mod intention;
pub mod intention_stack;

pub use bdi_agent::BDIAgent;
pub use belief::Belief;
pub use belief_base::BeliefBase;
pub use desire::Desire;
pub use goal::{Goal, GoalType};
pub use intention::Intention;
pub use intention_stack::IntentionStack;
