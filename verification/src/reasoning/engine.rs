use vstd::prelude::*;

use super::predicate::{concl_entry, Predicate};
use super::rule::{conds_certainty, rule_fires, Rule};
use crate::bdi::belief::Belief;
use crate::bdi::belief_base::BeliefBase;
use crate::error::CognitionError;

verus! {

/// Forward chaining runs at most this many passes over the rule set; a
/// run that still changes the store afterwards is reported as a cyclic
/// rule set.
pub const MAX_INFERENCE_PASSES: usize = 256;

/// A fired rule demands nothing more of `m`: every equality conclusion's
/// key is present with at least the firing certainty.
pub open spec fn rule_settled(m: Map<Seq<char>, Belief>, r: Rule) -> bool {
    rule_fires(m, r) ==> forall|j: int| #![trigger r.conclusions@[j]]
        0 <= j < r.conclusions@.len() ==> match concl_entry(r.conclusions@[j]) {
            Some(e) => m.contains_key(e.0) && m[e.0].certainty >= conds_certainty(
                m,
                r.conditions@,
            ),
            None => true,
        }
}

/// `m` is a fixpoint of the rule set: no rule can add or strengthen a
/// belief.
pub open spec fn settled(m: Map<Seq<char>, Belief>, rules: Seq<Rule>) -> bool {
    forall|i: int| #![trigger rules[i]] 0 <= i < rules.len() ==> rule_settled(m, rules[i])
}

/// The belief map after committing the derived beliefs into `m`, in
/// derivation order, each an upsert by key.
pub open spec fn committed(m: Map<Seq<char>, Belief>, ds: Seq<Belief>) -> Map<Seq<char>, Belief>
    decreases ds.len(),
{
    if ds.len() == 0 {
        m
    } else {
        committed(m, ds.drop_last()).insert(ds.last().key@, ds.last())
    }
}

/// The belief's key-value pair is the equality conclusion of some rule.
pub open spec fn derived_justified(b: Belief, rules: Seq<Rule>) -> bool {
    exists|j: int, c: int| #![auto]
        0 <= j < rules.len() && 0 <= c < rules[j].conclusions@.len() && concl_entry(
            rules[j].conclusions@[c],
        ) == Some((b.key@, b.value@))
}

/// The rule base and the forward-chaining procedure over it: rules are
/// applied to a fixpoint, and the newly derived beliefs are handed back
/// for the deliberation cycle to commit.
#[derive(Debug)]
pub struct ReasoningEngine {
    pub rules: Vec<Rule>,
}

impl ReasoningEngine {
    /// Creates an engine with no rules.
    pub fn new() -> (r: Self)
        ensures
            r.rules@.len() == 0,
    {
        ReasoningEngine { rules: Vec::new() }
    }

    /// Appends a rule; the rule base is append-only within a session.
    pub fn add_rule(&mut self, rule: Rule)
        ensures
            final(self).rules@ == old(self).rules@.push(rule),
    {
        self.rules.push(rule);
    }

    /// The rules, in insertion order.
    pub fn rules(&self) -> (r: &Vec<Rule>)
        ensures
            r == &self.rules,
    {
        &self.rules
    }

    /// Derives the fixpoint closure of `store` under the rule base and
    /// hands back the newly derived beliefs, in derivation order, without
    /// writing them back. Committing them yields a store that no rule can
    /// extend further; in particular, a second run on the committed store
    /// derives nothing. A conclusion is only asserted when its key is
    /// absent or held with strictly lower certainty; a run that exceeds
    /// the pass cap reports a cyclic rule set.
    pub fn infer(&self, store: &BeliefBase) -> (r: Result<Vec<Belief>, CognitionError>)
        requires
            store.wf(),
        ensures
            match r {
                Ok(ds) => settled(committed(store@, ds@), self.rules@) && forall|i: int|
                    #![trigger ds@[i]]
                    0 <= i < ds@.len() ==> ds@[i].wf() && derived_justified(ds@[i], self.rules@),
                Err(e) => e matches CognitionError::ReasoningError(_),
            },
            settled(store@, self.rules@) ==> (r matches Ok(ds) && ds@.len() == 0),
    {
        let mut acc = store.clone();
        let mut derived: Vec<Belief> = Vec::new();
        let mut changed = true;
        let mut pass: usize = 0;
        while changed && pass < MAX_INFERENCE_PASSES
            invariant
                store.wf(),
                acc.wf(),
                committed(store@, derived@) == acc@,
                forall|i: int| #![trigger derived@[i]]
                    0 <= i < derived@.len() ==> derived@[i].wf() && derived_justified(
                        derived@[i],
                        self.rules@,
                    ),
                settled(store@, self.rules@) ==> derived@.len() == 0 && acc@ == store@ && (changed
                    ==> pass == 0),
                !changed ==> settled(acc@, self.rules@),
            decreases MAX_INFERENCE_PASSES - pass,
        {
            changed = false;
            let nr = self.rules.len();
            let mut ri: usize = 0;
            while ri < nr
                invariant
                    store.wf(),
                    acc.wf(),
                    nr == self.rules@.len(),
                    ri <= nr,
                    committed(store@, derived@) == acc@,
                    forall|i: int| #![trigger derived@[i]]
                        0 <= i < derived@.len() ==> derived@[i].wf() && derived_justified(
                            derived@[i],
                            self.rules@,
                        ),
                    settled(store@, self.rules@) ==> derived@.len() == 0 && acc@ == store@
                        && !changed,
                    !changed ==> forall|x: int| #![trigger self.rules@[x]]
                        0 <= x < ri ==> rule_settled(acc@, self.rules@[x]),
                decreases nr - ri,
            {
                let rule = &self.rules[ri];
                if rule.fires_in(&acc) {
                    let cert = rule.firing_certainty(&acc);
                    let nc = rule.conclusions.len();
                    let mut ci: usize = 0;
                    while ci < nc
                        invariant
                            store.wf(),
                            acc.wf(),
                            nr == self.rules@.len(),
                            ri < nr,
                            rule == &self.rules@[ri as int],
                            nc == rule.conclusions@.len(),
                            ci <= nc,
                            committed(store@, derived@) == acc@,
                            forall|i: int| #![trigger derived@[i]]
                                0 <= i < derived@.len() ==> derived@[i].wf() && derived_justified(
                                    derived@[i],
                                    self.rules@,
                                ),
                            settled(store@, self.rules@) ==> derived@.len() == 0 && acc@ == store@
                                && !changed,
                            !changed ==> forall|x: int| #![trigger self.rules@[x]]
                                0 <= x < ri ==> rule_settled(acc@, self.rules@[x]),
                            !changed ==> rule_fires(acc@, self.rules@[ri as int]) && cert
                                == conds_certainty(acc@, self.rules@[ri as int].conditions@),
                            !changed ==> forall|y: int| #![trigger rule.conclusions@[y]]
                                0 <= y < ci ==> match concl_entry(rule.conclusions@[y]) {
                                    Some(e) => acc@.contains_key(e.0) && acc@[e.0].certainty
                                        >= conds_certainty(acc@, rule.conditions@),
                                    None => true,
                                },
                        decreases nc - ci,
                    {
                        match &rule.conclusions[ci] {
                            Predicate::Equals(k, v) => {
                                proof {
                                    assert(concl_entry(rule.conclusions@[ci as int]) == Some(
                                        (k@, v@),
                                    ));
                                }
                                let needs = match acc.get(k.as_str()) {
                                    Some(b) => b.certainty < cert,
                                    None => true,
                                };
                                if needs {
                                    proof {
                                        if settled(store@, self.rules@) {
                                            assert(rule_settled(acc@, self.rules@[ri as int]));
                                            assert(acc@.contains_key(k@) && acc@[k@].certainty
                                                >= cert);
                                            assert(false);
                                        }
                                    }
                                    let nb = Belief::with_certainty(
                                        k.as_str(),
                                        v.as_str(),
                                        cert as i64,
                                    );
                                    let ghost old_derived = derived@;
                                    derived.push(nb.clone());
                                    acc.add(nb);
                                    changed = true;
                                    proof {
                                        assert(derived@.drop_last() =~= old_derived);
                                        assert(derived@.last().key@ == k@);
                                        assert(derived@.last().value@ == v@);
                                        assert(committed(store@, derived@) == acc@);
                                    }
                                }
                            },
                            Predicate::Present(_) => {},
                            Predicate::Absent(_) => {},
                        }
                        ci += 1;
                    }
                    proof {
                        if !changed {
                            assert(rule_settled(acc@, self.rules@[ri as int]));
                        }
                    }
                }
                ri += 1;
            }
            pass += 1;
        }
        if changed {
            Err(
                CognitionError::ReasoningError(
                    "inference exceeded its pass cap; the rule set may be cyclic".to_owned(),
                ),
            )
        } else {
            Ok(derived)
        }
    }
}

impl Default for ReasoningEngine {
    fn default() -> (r: Self)
        ensures
            r.rules@.len() == 0,
    {
        ReasoningEngine::new()
    }
}

} // verus!
