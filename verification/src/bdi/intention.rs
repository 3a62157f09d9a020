use vstd::prelude::*;

use super::goal::Goal;
use crate::planning::plan::Plan;

verus! {

/// The cursor after one advance: it moves one action forward and never
/// past the end of the plan.
pub open spec fn stepped(c: nat, len: nat) -> nat {
    if c < len {
        c + 1
    } else {
        c
    }
}

/// The cursor after `n` advances.
pub open spec fn stepped_times(c: nat, len: nat, n: nat) -> nat
    decreases n,
{
    if n == 0 {
        c
    } else {
        stepped_times(stepped(c, len), len, (n - 1) as nat)
    }
}

/// Advancing from any cursor position once per remaining action brings
/// the cursor to the end of the plan.
pub proof fn lemma_advance_from(c: nat, len: nat)
    requires
        c <= len,
    ensures
        stepped_times(c, len, (len - c) as nat) == len,
    decreases len - c,
{
    if c < len {
        lemma_advance_from(c + 1, len);
    }
}

/// Advancing a fresh intention once per action of its plan completes it:
/// after `len` advances from cursor `0` the cursor equals `len`.
pub proof fn lemma_advance_completes(len: nat)
    ensures
        stepped_times(0, len, len) == len,
{
    lemma_advance_from(0, len);
}

/// A commitment to execute `plan` in pursuit of `goal`: the cursor is the
/// index of the next action to execute, and a cursor at the plan's length
/// signals completion.
#[derive(Debug)]
pub struct Intention {
    pub goal: Goal,
    pub plan: Plan,
    pub current_step: usize,
}

impl Intention {
    /// The cursor never points past the end of the plan.
    pub open spec fn wf(&self) -> bool {
        self.current_step <= self.plan.actions@.len()
    }

    /// Whether every action of the plan has been executed.
    pub open spec fn spec_completed(&self) -> bool {
        self.current_step >= self.plan.actions@.len()
    }

    /// Creates an intention with the cursor at the first action.
    pub fn new(goal: Goal, plan: Plan) -> (r: Self)
        ensures
            r.goal == goal,
            r.plan == plan,
            r.current_step == 0,
            r.wf(),
    {
        Intention { goal, plan, current_step: 0 }
    }

    /// The pursued goal.
    pub fn goal(&self) -> (r: &Goal)
        ensures
            r == &self.goal,
    {
        &self.goal
    }

    /// The committed plan.
    pub fn plan(&self) -> (r: &Plan)
        ensures
            r == &self.plan,
    {
        &self.plan
    }

    /// The cursor: the index of the next action to execute.
    pub fn current_step(&self) -> (r: usize)
        ensures
            r == self.current_step,
    {
        self.current_step
    }

    /// Advances the cursor past one executed action; a completed
    /// intention stays completed.
    pub fn next_step(&mut self)
        ensures
            final(self).goal == old(self).goal,
            final(self).plan == old(self).plan,
            final(self).current_step == stepped(
                old(self).current_step as nat,
                old(self).plan.actions@.len(),
            ),
            old(self).wf() ==> final(self).wf(),
    {
        if self.current_step < self.plan.actions.len() {
            self.current_step = self.current_step + 1;
        }
    }

    /// Whether every action of the plan has been executed.
    pub fn is_completed(&self) -> (r: bool)
        ensures
            r == self.spec_completed(),
    {
        self.current_step >= self.plan.actions.len()
    }

    /// Moves the cursor back to the first action.
    pub fn reset(&mut self)
        ensures
            final(self).goal == old(self).goal,
            final(self).plan == old(self).plan,
            final(self).current_step == 0,
            final(self).wf(),
    {
        self.current_step = 0;
    }
}

impl Clone for Intention {
    fn clone(&self) -> (r: Self)
        ensures
            r.goal.name@ == self.goal.name@,
            r.goal.conditions@ == self.goal.conditions@,
            r.goal.goal_type == self.goal.goal_type,
            r.goal.priority == self.goal.priority,
            r.plan.name@ == self.plan.name@,
            r.plan.actions@.len() == self.plan.actions@.len(),
            r.current_step == self.current_step,
            r.wf() == self.wf(),
            r.spec_completed() == self.spec_completed(),
    {
        Intention { goal: self.goal.clone(), plan: self.plan.clone(), current_step: self.current_step }
    }
}

} // verus!
