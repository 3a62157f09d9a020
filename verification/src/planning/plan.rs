use vstd::prelude::*;

use super::action::Action;

verus! {

/// An ordered action sequence produced by the planner and consumed
/// step by step by an intention.
#[derive(Debug)]
pub struct Plan {
    pub name: String,
    pub actions: Vec<Action>,
}

impl Plan {
    /// Creates an empty plan.
    pub fn new(name: &str) -> (r: Self)
        ensures
            r.name@ == name@,
            r.actions@.len() == 0,
    {
        Plan { name: name.to_owned(), actions: Vec::new() }
    }

    /// Appends an action.
    pub fn add_action(self, action: Action) -> (r: Self)
        ensures
            r.name == self.name,
            r.actions@ == self.actions@.push(action),
    {
        let mut actions = self.actions;
        actions.push(action);
        Plan { name: self.name, actions }
    }

    /// The plan's name.
    pub fn name(&self) -> (r: &str)
        ensures
            r@ == self.name@,
    {
        self.name.as_str()
    }

    /// The ordered actions.
    pub fn actions(&self) -> (r: &Vec<Action>)
        ensures
            r == &self.actions,
    {
        &self.actions
    }

    /// Whether the plan holds no action.
    pub fn is_empty(&self) -> (r: bool)
        ensures
            r == (self.actions@.len() == 0),
    {
        self.actions.len() == 0
    }

    /// The number of actions.
    pub fn len(&self) -> (r: usize)
        ensures
            r == self.actions@.len(),
    {
        self.actions.len()
    }
}

impl Clone for Plan {
    fn clone(&self) -> (r: Self)
        ensures
            r.name@ == self.name@,
            r.actions@.len() == self.actions@.len(),
            forall|i: int| #![trigger r.actions@[i]]
                0 <= i < self.actions@.len() ==> r.actions@[i].meaning() == self.actions@[i].meaning()
                    && r.actions@[i].name@ == self.actions@[i].name@,
    {
        let n = self.actions.len();
        let mut actions: Vec<Action> = Vec::new();
        let mut i: usize = 0;
        while i < n
            invariant
                n == self.actions@.len(),
                i <= n,
                actions@.len() == i,
                forall|j: int| #![trigger actions@[j]]
                    0 <= j < i ==> actions@[j].meaning() == self.actions@[j].meaning()
                        && actions@[j].name@ == self.actions@[j].name@,
            decreases n - i,
        {
            actions.push(self.actions[i].clone());
            i += 1;
        }
        Plan { name: self.name.clone(), actions }
    }
}

} // verus!
