use vstd::prelude::*;

use super::goal::{clamped_priority, Goal, PRIORITY_UNIT};

verus! {

/// A goal the agent would like to pursue, wrapped with a runtime-adjusted
/// priority that may diverge from the goal's own declared priority.
#[derive(Debug)]
pub struct Desire {
    pub goal: Goal,
    pub priority: u32,
}

impl Desire {
    /// The priority always lies in `[0, PRIORITY_UNIT]`.
    pub open spec fn wf(&self) -> bool {
        self.priority <= PRIORITY_UNIT
    }

    /// Creates a desire; priorities outside `[0, PRIORITY_UNIT]` are
    /// clamped into the range.
    pub fn new(goal: Goal, priority: i64) -> (r: Self)
        ensures
            r.goal == goal,
            r.priority == clamped_priority(priority as int),
            r.wf(),
    {
        let p: u32 = if priority < 0 {
            0
        } else if priority > PRIORITY_UNIT as i64 {
            PRIORITY_UNIT
        } else {
            priority as u32
        };
        Desire { goal, priority: p }
    }

    /// The wrapped goal.
    pub fn goal(&self) -> (r: &Goal)
        ensures
            r == &self.goal,
    {
        &self.goal
    }

    /// The runtime priority.
    pub fn priority(&self) -> (r: u32)
        ensures
            r == self.priority,
    {
        self.priority
    }

    /// Replaces the runtime priority; values outside `[0, PRIORITY_UNIT]`
    /// are clamped into the range.
    pub fn set_priority(&mut self, priority: i64)
        ensures
            final(self).goal == old(self).goal,
            final(self).priority == clamped_priority(priority as int),
            final(self).wf(),
    {
        self.priority = if priority < 0 {
            0
        } else if priority > PRIORITY_UNIT as i64 {
            PRIORITY_UNIT
        } else {
            priority as u32
        };
    }
}

impl Clone for Desire {
    fn clone(&self) -> (r: Self)
        ensures
            r.goal.name@ == self.goal.name@,
            r.goal.goal_type == self.goal.goal_type,
            r.goal.conditions@ == self.goal.conditions@,
            r.goal.priority == self.goal.priority,
            r.priority == self.priority,
    {
        Desire { goal: self.goal.clone(), priority: self.priority }
    }
}

} // verus!
