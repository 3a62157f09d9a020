//! Goal-oriented action planning: world states, action schemas, plans and
//! the breadth-first STRIPS-style planner.

pub mod action;
pub mod plan;
pub mod planner;
pub mod state;

pub use action::Action;
pub use plan::Plan;
pub use planner::Planner;
pub use state::State;
