use vstd::prelude::*;

use crate::bdi::goal::PRIORITY_UNIT;

verus! {

/// A named utility score for decision-making. Scores are fixed-point
/// fractions of `PRIORITY_UNIT`. The constant middling score stands as an
/// extension point for domain-authored scoring.
#[derive(Debug)]
pub struct UtilityFunction {
    pub name: String,
}

impl UtilityFunction {
    /// Creates a named utility function.
    pub fn new(name: &str) -> (r: Self)
        ensures
            r.name@ == name@,
    {
        UtilityFunction { name: name.to_owned() }
    }

    /// The function's name.
    pub fn name(&self) -> (r: &str)
        ensures
            r@ == self.name@,
    {
        self.name.as_str()
    }

    /// Scores a state description: the default scoring is indifferent and
    /// returns the middle of the scale for every state.
    pub fn evaluate(&self, _state: &Vec<String>) -> (r: u32)
        ensures
            r == PRIORITY_UNIT / 2,
            r <= PRIORITY_UNIT,
    {
        PRIORITY_UNIT / 2
    }
}

} // verus!
