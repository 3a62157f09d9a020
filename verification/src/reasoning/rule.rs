use vstd::prelude::*;

use super::predicate::{pred_certainty, pred_holds, Predicate};
use crate::bdi::belief::{Belief, CERTAINTY_UNIT};
use crate::bdi::belief_base::BeliefBase;

verus! {

/// A forward-chaining rule: when every condition holds of the belief
/// store, each equality conclusion asserts its key-value pair as a new
/// belief. Rules are immutable once added to the engine.
#[derive(Debug)]
pub struct Rule {
    pub name: String,
    pub conditions: Vec<Predicate>,
    pub conclusions: Vec<Predicate>,
}

/// Whether every condition of `r` holds of the belief map `m`.
pub open spec fn rule_fires(m: Map<Seq<char>, Belief>, r: Rule) -> bool {
    forall|i: int| #![trigger r.conditions@[i]]
        0 <= i < r.conditions@.len() ==> pred_holds(m, r.conditions@[i])
}

/// The certainty a firing of `r` carries: the minimum certainty among the
/// beliefs its equality conditions matched, or full certainty when the
/// conditions hold only presence or absence tests.
pub open spec fn conds_certainty(m: Map<Seq<char>, Belief>, ps: Seq<Predicate>) -> int
    decreases ps.len(),
{
    if ps.len() == 0 {
        CERTAINTY_UNIT as int
    } else {
        let rest = conds_certainty(m, ps.drop_last());
        let this = pred_certainty(m, ps.last());
        if this < rest {
            this
        } else {
            rest
        }
    }
}

impl Rule {
    /// Creates a rule with no conditions and no conclusions.
    pub fn new(name: &str) -> (r: Self)
        ensures
            r.name@ == name@,
            r.conditions@.len() == 0,
            r.conclusions@.len() == 0,
    {
        Rule { name: name.to_owned(), conditions: Vec::new(), conclusions: Vec::new() }
    }

    /// Appends a condition.
    pub fn with_condition(self, condition: Predicate) -> (r: Self)
        ensures
            r.name == self.name,
            r.conclusions == self.conclusions,
            r.conditions@ == self.conditions@.push(condition),
    {
        let mut conditions = self.conditions;
        conditions.push(condition);
        Rule { name: self.name, conditions, conclusions: self.conclusions }
    }

    /// Appends a conclusion.
    pub fn with_conclusion(self, conclusion: Predicate) -> (r: Self)
        ensures
            r.name == self.name,
            r.conditions == self.conditions,
            r.conclusions@ == self.conclusions@.push(conclusion),
    {
        let mut conclusions = self.conclusions;
        conclusions.push(conclusion);
        Rule { name: self.name, conditions: self.conditions, conclusions }
    }

    /// The rule's name.
    pub fn name(&self) -> (r: &str)
        ensures
            r@ == self.name@,
    {
        self.name.as_str()
    }

    /// The conditions.
    pub fn conditions(&self) -> (r: &Vec<Predicate>)
        ensures
            r == &self.conditions,
    {
        &self.conditions
    }

    /// The conclusions.
    pub fn conclusions(&self) -> (r: &Vec<Predicate>)
        ensures
            r == &self.conclusions,
    {
        &self.conclusions
    }

    /// Whether every condition of this rule holds of the store.
    pub fn fires_in(&self, store: &BeliefBase) -> (r: bool)
        requires
            store.wf(),
        ensures
            r == rule_fires(store@, *self),
    {
        let n = self.conditions.len();
        let mut i: usize = 0;
        while i < n
            invariant
                store.wf(),
                n == self.conditions@.len(),
                i <= n,
                forall|j: int| #![trigger self.conditions@[j]]
                    0 <= j < i ==> pred_holds(store@, self.conditions@[j]),
            decreases n - i,
        {
            if !self.conditions[i].holds_in(store) {
                return false;
            }
            i += 1;
        }
        true
    }

    /// The certainty a firing of this rule carries in the given store.
    pub fn firing_certainty(&self, store: &BeliefBase) -> (r: u32)
        requires
            store.wf(),
        ensures
            r == conds_certainty(store@, self.conditions@),
            r <= CERTAINTY_UNIT,
    {
        let n = self.conditions.len();
        let mut cur: u32 = CERTAINTY_UNIT;
        proof {
            assert(self.conditions@.subrange(0, 0) =~= Seq::<Predicate>::empty());
        }
        let mut i: usize = 0;
        while i < n
            invariant
                store.wf(),
                n == self.conditions@.len(),
                i <= n,
                cur <= CERTAINTY_UNIT,
                cur == conds_certainty(store@, self.conditions@.subrange(0, i as int)),
            decreases n - i,
        {
            let c = self.conditions[i].certainty_in(store);
            if c < cur {
                cur = c;
            }
            proof {
                let ps = self.conditions@.subrange(0, i + 1 as int);
                assert(ps.drop_last() =~= self.conditions@.subrange(0, i as int));
                assert(ps.last() == self.conditions@[i as int]);
            }
            i += 1;
        }
        proof {
            assert(self.conditions@.subrange(0, n as int) =~= self.conditions@);
        }
        cur
    }
}

impl Clone for Rule {
    fn clone(&self) -> (r: Self)
        ensures
            r.name@ == self.name@,
            r.conditions@ == self.conditions@,
            r.conclusions@ == self.conclusions@,
    {
        let mut conditions: Vec<Predicate> = Vec::new();
        let n = self.conditions.len();
        let mut i: usize = 0;
        while i < n
            invariant
                n == self.conditions@.len(),
                i <= n,
                conditions@ == self.conditions@.subrange(0, i as int),
            decreases n - i,
        {
            conditions.push(self.conditions[i].clone());
            proof {
                assert(conditions@ =~= self.conditions@.subrange(0, i + 1 as int));
            }
            i += 1;
        }
        let mut conclusions: Vec<Predicate> = Vec::new();
        let m = self.conclusions.len();
        let mut j: usize = 0;
        while j < m
            invariant
                m == self.conclusions@.len(),
                j <= m,
                conclusions@ == self.conclusions@.subrange(0, j as int),
            decreases m - j,
        {
            conclusions.push(self.conclusions[j].clone());
            proof {
                assert(conclusions@ =~= self.conclusions@.subrange(0, j + 1 as int));
            }
            j += 1;
        }
        proof {
            assert(conditions@ =~= self.conditions@);
            assert(conclusions@ =~= self.conclusions@);
        }
        Rule { name: self.name.clone(), conditions, conclusions }
    }
}

} // verus!
