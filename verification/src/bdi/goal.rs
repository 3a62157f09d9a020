use vstd::prelude::*;

use crate::strutil::clone_strings;

verus! {

/// Priorities are fixed-point fractions of this unit: `PRIORITY_UNIT`
/// is the highest priority and `0` the lowest.
pub const PRIORITY_UNIT: u32 = 1000;

/// A proposed priority clamped into the representable range
/// `[0, PRIORITY_UNIT]`.
pub open spec fn clamped_priority(p: int) -> int {
    if p < 0 {
        0
    } else if p > PRIORITY_UNIT {
        PRIORITY_UNIT as int
    } else {
        p
    }
}

/// Whether two goals agree in name, kind, conditions and priority. Goal
/// copies agree with their originals in this sense.
pub open spec fn same_goal(a: Goal, b: Goal) -> bool {
    a.name@ == b.name@ && a.goal_type == b.goal_type && a.conditions@ == b.conditions@
        && a.priority == b.priority
}

/// The kind of a goal.
#[derive(Debug, Clone, Copy, PartialEq, Eq, Structural)]
pub enum GoalType {
    /// Reach a state.
    Achievement,
    /// Maintain a state.
    Maintenance,
    /// Check whether a condition holds.
    Test,
}

/// A desired state: a named, typed list of condition strings with a
/// domain-authored priority. A condition string is either `key=value`,
/// demanding that the proposition `key` carry exactly `value`, or a bare
/// key, demanding only that some belief carry it.
#[derive(Debug)]
pub struct Goal {
    pub name: String,
    pub goal_type: GoalType,
    pub conditions: Vec<String>,
    pub priority: u32,
}

impl Goal {
    /// The priority always lies in `[0, PRIORITY_UNIT]`.
    pub open spec fn wf(&self) -> bool {
        self.priority <= PRIORITY_UNIT
    }

    /// Creates a goal with no conditions and middling priority.
    pub fn new(name: &str, goal_type: GoalType) -> (r: Self)
        ensures
            r.name@ == name@,
            r.goal_type == goal_type,
            r.conditions@.len() == 0,
            r.priority == PRIORITY_UNIT / 2,
            r.wf(),
    {
        Goal { name: name.to_owned(), goal_type, conditions: Vec::new(), priority: PRIORITY_UNIT / 2 }
    }

    /// Creates an achievement goal.
    pub fn achievement(name: &str) -> (r: Self)
        ensures
            r.name@ == name@,
            r.goal_type == GoalType::Achievement,
            r.conditions@.len() == 0,
            r.priority == PRIORITY_UNIT / 2,
            r.wf(),
    {
        Self::new(name, GoalType::Achievement)
    }

    /// Creates a maintenance goal.
    pub fn maintenance(name: &str) -> (r: Self)
        ensures
            r.name@ == name@,
            r.goal_type == GoalType::Maintenance,
            r.conditions@.len() == 0,
            r.priority == PRIORITY_UNIT / 2,
            r.wf(),
    {
        Self::new(name, GoalType::Maintenance)
    }

    /// Appends a condition string.
    pub fn with_condition(self, condition: &str) -> (r: Self)
        ensures
            r.name == self.name,
            r.goal_type == self.goal_type,
            r.priority == self.priority,
            r.conditions@.len() == self.conditions@.len() + 1,
            r.conditions@.last()@ == condition@,
            forall|i: int| 0 <= i < self.conditions@.len() ==> r.conditions@[i] == self.conditions@[i],
    {
        let mut conditions = self.conditions;
        conditions.push(condition.to_owned());
        Goal { name: self.name, goal_type: self.goal_type, conditions, priority: self.priority }
    }

    /// Replaces the priority; values outside `[0, PRIORITY_UNIT]` are
    /// clamped into the range.
    pub fn with_priority(self, priority: i64) -> (r: Self)
        ensures
            r.name == self.name,
            r.goal_type == self.goal_type,
            r.conditions == self.conditions,
            r.priority == clamped_priority(priority as int),
            r.wf(),
    {
        let p: u32 = if priority < 0 {
            0
        } else if priority > PRIORITY_UNIT as i64 {
            PRIORITY_UNIT
        } else {
            priority as u32
        };
        Goal { name: self.name, goal_type: self.goal_type, conditions: self.conditions, priority: p }
    }

    /// The goal's name.
    pub fn name(&self) -> (r: &str)
        ensures
            r@ == self.name@,
    {
        self.name.as_str()
    }

    /// The goal's kind.
    pub fn goal_type(&self) -> (r: GoalType)
        ensures
            r == self.goal_type,
    {
        self.goal_type
    }

    /// The condition strings.
    pub fn conditions(&self) -> (r: &Vec<String>)
        ensures
            r == &self.conditions,
    {
        &self.conditions
    }

    /// The declared priority.
    pub fn priority(&self) -> (r: u32)
        ensures
            r == self.priority,
    {
        self.priority
    }
}

impl Clone for Goal {
    fn clone(&self) -> (r: Self)
        ensures
            r.name@ == self.name@,
            r.goal_type == self.goal_type,
            r.conditions@ == self.conditions@,
            r.priority == self.priority,
            same_goal(r, *self),
    {
        Goal {
            name: self.name.clone(),
            goal_type: self.goal_type,
            conditions: clone_strings(&self.conditions),
            priority: self.priority,
        }
    }
}

} // verus!
