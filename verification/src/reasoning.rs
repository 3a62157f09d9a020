//! Logical inference: condition and conclusion predicates, rules, and the
//! forward-chaining reasoning engine.

pub mod engine;
pub mod predicate;
pub mod rule;

pub use engine::ReasoningEngine;
pub use predicate::Predicate;
pub use rule::Rule;
