use vstd::prelude::*;

use crate::strutil::{clone_pairs, clone_strings};

verus! {

/// What an action schema means to the planner: its precondition entries
/// and its effect entries, both at the level of character sequences.
pub ghost struct ActionMeaning {
    pub pre: Seq<(Seq<char>, Seq<char>)>,
    pub eff: Seq<(Seq<char>, Seq<char>)>,
}

/// The character-sequence entries a string-pair sequence denotes.
pub open spec fn pair_views(s: Seq<(String, String)>) -> Seq<(Seq<char>, Seq<char>)> {
    s.map_values(|p: (String, String)| (p.0@, p.1@))
}

/// A planning operator: applying it requires every precondition key to
/// hold with its value in the current world state, and produces a new
/// state by overwriting keys per its effects. The declared parameters are
/// free-form annotations; the planner reads only preconditions and
/// effects.
#[derive(Debug)]
pub struct Action {
    pub name: String,
    pub parameters: Vec<String>,
    pub preconditions: Vec<(String, String)>,
    pub effects: Vec<(String, String)>,
}

impl Action {
    /// The planning semantics of this action schema.
    pub open spec fn meaning(&self) -> ActionMeaning {
        ActionMeaning { pre: pair_views(self.preconditions@), eff: pair_views(self.effects@) }
    }

    /// Creates an action with no parameters, preconditions or effects.
    pub fn new(name: &str) -> (r: Self)
        ensures
            r.name@ == name@,
            r.parameters@.len() == 0,
            r.preconditions@.len() == 0,
            r.effects@.len() == 0,
    {
        Action {
            name: name.to_owned(),
            parameters: Vec::new(),
            preconditions: Vec::new(),
            effects: Vec::new(),
        }
    }

    /// Appends a declared parameter.
    pub fn with_parameter(self, param: &str) -> (r: Self)
        ensures
            r.name == self.name,
            r.parameters@.len() == self.parameters@.len() + 1,
            r.parameters@.last()@ == param@,
            forall|i: int| 0 <= i < self.parameters@.len() ==> r.parameters@[i] == self.parameters@[i],
            r.preconditions == self.preconditions,
            r.effects == self.effects,
    {
        let mut parameters = self.parameters;
        parameters.push(param.to_owned());
        Action { name: self.name, parameters, preconditions: self.preconditions, effects: self.effects }
    }

    /// Appends a precondition: the state must carry `key` with `value`.
    pub fn with_precondition(self, key: &str, value: &str) -> (r: Self)
        ensures
            r.name == self.name,
            r.parameters == self.parameters,
            r.effects == self.effects,
            r.preconditions@.len() == self.preconditions@.len() + 1,
            r.meaning().pre == self.meaning().pre.push((key@, value@)),
            r.meaning().eff == self.meaning().eff,
    {
        let mut preconditions = self.preconditions;
        preconditions.push((key.to_owned(), value.to_owned()));
        let r = Action { name: self.name, parameters: self.parameters, preconditions, effects: self.effects };
        proof {
            assert(r.meaning().pre =~= pair_views(preconditions@));
            assert(r.meaning().pre =~= self.meaning().pre.push((key@, value@)));
        }
        r
    }

    /// Appends an effect: applying the action sets `key` to `value`.
    pub fn with_effect(self, key: &str, value: &str) -> (r: Self)
        ensures
            r.name == self.name,
            r.parameters == self.parameters,
            r.preconditions == self.preconditions,
            r.effects@.len() == self.effects@.len() + 1,
            r.meaning().eff == self.meaning().eff.push((key@, value@)),
            r.meaning().pre == self.meaning().pre,
    {
        let mut effects = self.effects;
        effects.push((key.to_owned(), value.to_owned()));
        let r = Action { name: self.name, parameters: self.parameters, preconditions: self.preconditions, effects };
        proof {
            assert(r.meaning().eff =~= self.meaning().eff.push((key@, value@)));
        }
        r
    }

    /// The action's name.
    pub fn name(&self) -> (r: &str)
        ensures
            r@ == self.name@,
    {
        self.name.as_str()
    }

    /// The declared parameters.
    pub fn parameters(&self) -> (r: &Vec<String>)
        ensures
            r == &self.parameters,
    {
        &self.parameters
    }

    /// The precondition entries.
    pub fn preconditions(&self) -> (r: &Vec<(String, String)>)
        ensures
            r == &self.preconditions,
    {
        &self.preconditions
    }

    /// The effect entries.
    pub fn effects(&self) -> (r: &Vec<(String, String)>)
        ensures
            r == &self.effects,
    {
        &self.effects
    }
}

impl Clone for Action {
    fn clone(&self) -> (r: Self)
        ensures
            r.name@ == self.name@,
            r.parameters@ == self.parameters@,
            r.preconditions@ == self.preconditions@,
            r.effects@ == self.effects@,
            r.meaning() == self.meaning(),
    {
        Action {
            name: self.name.clone(),
            parameters: clone_strings(&self.parameters),
            preconditions: clone_pairs(&self.preconditions),
            effects: clone_pairs(&self.effects),
        }
    }
}

} // verus!
