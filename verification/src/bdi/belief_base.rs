use vstd::prelude::*;

use super::belief::Belief;
use crate::kvmap::{
    assoc_map, lemma_assoc_contains, lemma_assoc_index, lemma_assoc_push, lemma_assoc_remove,
    unique_keys,
};
use crate::strutil::str_eq;

verus! {

/// The agent's store of certainty-weighted knowledge: a finite map from
/// proposition key to belief, keys unique, last write wins.
#[derive(Debug)]
pub struct BeliefBase {
    pub beliefs: Vec<Belief>,
}

impl View for BeliefBase {
    type V = Map<Seq<char>, Belief>;

    open spec fn view(&self) -> Map<Seq<char>, Belief> {
        assoc_map(self.entries())
    }
}

impl BeliefBase {
    /// The entry sequence the belief vector denotes.
    pub open spec fn entries(&self) -> Seq<(Seq<char>, Belief)> {
        self.beliefs@.map_values(|b: Belief| (b.key@, b))
    }

    /// Keys are unique and every stored certainty is in range.
    pub open spec fn wf(&self) -> bool {
        &&& unique_keys(self.entries())
        &&& forall|i: int| #![trigger self.beliefs@[i]]
            0 <= i < self.beliefs@.len() ==> self.beliefs@[i].wf()
    }

    /// Creates an empty store.
    pub fn new() -> (r: Self)
        ensures
            r.wf(),
            r@ == Map::<Seq<char>, Belief>::empty(),
            r.beliefs@.len() == 0,
    {
        let r = BeliefBase { beliefs: Vec::new() };
        proof {
            assert(r.entries() =~= Seq::<(Seq<char>, Belief)>::empty());
        }
        r
    }

    /// The position of `key` in the belief vector, if any.
    fn index_of(&self, key: &str) -> (r: Option<usize>)
        ensures
            match r {
                Some(i) => i < self.beliefs@.len() && self.entries()[i as int].0 == key@,
                None => forall|i: int| 0 <= i < self.beliefs@.len() ==> self.entries()[i].0 != key@,
            },
    {
        let n = self.beliefs.len();
        let mut i: usize = 0;
        while i < n
            invariant
                n == self.beliefs@.len(),
                i <= n,
                forall|j: int| 0 <= j < i ==> self.entries()[j].0 != key@,
            decreases n - i,
        {
            if str_eq(self.beliefs[i].key.as_str(), key) {
                return Some(i);
            }
            i += 1;
        }
        None
    }

    /// Adds or updates a belief: an upsert by key that overwrites any
    /// prior value and certainty under the same key.
    pub fn add(&mut self, belief: Belief)
        requires
            old(self).wf(),
            belief.wf(),
        ensures
            final(self).wf(),
            final(self)@ == old(self)@.insert(belief.key@, belief),
    {
        let ghost old_entries = self.entries();
        let idx = self.index_of(belief.key.as_str());
        let ghost k = belief.key@;
        match idx {
            Some(i) => {
                proof {
                    lemma_assoc_remove(old_entries, i as int);
                }
                self.beliefs.remove(i);
                let ghost mid = self.entries();
                proof {
                    assert(mid =~= old_entries.remove(i as int));
                }
                self.beliefs.push(belief);
                proof {
                    assert(self.entries() =~= mid.push((k, belief)));
                    lemma_assoc_push(mid, k, belief);
                    assert(self@ =~= assoc_map(old_entries).insert(k, belief));
                    assert(forall|a: int, b: int|
                        0 <= a < b < self.entries().len() ==> self.entries()[a].0
                            != self.entries()[b].0);
                }
            },
            None => {
                self.beliefs.push(belief);
                proof {
                    assert(self.entries() =~= old_entries.push((k, belief)));
                    lemma_assoc_push(old_entries, k, belief);
                    assert(forall|a: int, b: int|
                        0 <= a < b < self.entries().len() ==> self.entries()[a].0
                            != self.entries()[b].0);
                }
            },
        }
    }

    /// Looks a belief up by key.
    pub fn get(&self, key: &str) -> (r: Option<&Belief>)
        requires
            self.wf(),
        ensures
            match r {
                Some(b) => self@.contains_key(key@) && *b == self@[key@],
                None => !self@.contains_key(key@),
            },
    {
        proof {
            lemma_assoc_contains(self.entries(), key@);
        }
        match self.index_of(key) {
            Some(i) => {
                proof {
                    lemma_assoc_index(self.entries(), i as int);
                }
                Some(&self.beliefs[i])
            },
            None => None,
        }
    }

    /// Removes a belief by key and hands it back, if present.
    pub fn remove(&mut self, key: &str) -> (r: Option<Belief>)
        requires
            old(self).wf(),
        ensures
            final(self).wf(),
            match r {
                Some(b) => old(self)@.contains_key(key@) && b == old(self)@[key@] && final(self)@
                    == old(self)@.remove(key@),
                None => !old(self)@.contains_key(key@) && final(self)@ == old(self)@
                    && final(self).beliefs@ == old(self).beliefs@,
            },
    {
        let ghost old_entries = self.entries();
        proof {
            lemma_assoc_contains(old_entries, key@);
        }
        match self.index_of(key) {
            Some(i) => {
                proof {
                    lemma_assoc_index(old_entries, i as int);
                    lemma_assoc_remove(old_entries, i as int);
                }
                let b = self.beliefs.remove(i);
                proof {
                    assert(self.entries() =~= old_entries.remove(i as int));
                    assert(forall|a: int, c: int|
                        0 <= a < c < self.entries().len() ==> self.entries()[a].0
                            != self.entries()[c].0);
                }
                Some(b)
            },
            None => None,
        }
    }

    /// Whether a belief with `key` exists.
    pub fn contains(&self, key: &str) -> (r: bool)
        ensures
            r == self@.contains_key(key@),
    {
        proof {
            lemma_assoc_contains(self.entries(), key@);
        }
        self.index_of(key).is_some()
    }

    /// A snapshot view of all stored beliefs.
    pub fn all(&self) -> (r: &Vec<Belief>)
        ensures
            r == &self.beliefs,
    {
        &self.beliefs
    }

    /// The stored beliefs that satisfy `predicate`, in store order: every
    /// match and nothing else, each at most once.
    pub fn query<F: Fn(&Belief) -> bool>(&self, predicate: F) -> (r: Vec<Belief>)
        requires
            self.wf(),
            forall|b: Belief| #[trigger] call_requires(predicate, (&b,)),
        ensures
            forall|i: int| #![trigger r@[i]]
                0 <= i < r@.len() ==> self.beliefs@.contains(r@[i]) && call_ensures(
                    predicate,
                    (&r@[i],),
                    true,
                ),
            forall|i: int| #![trigger self.beliefs@[i]]
                0 <= i < self.beliefs@.len() && !r@.contains(self.beliefs@[i]) ==> call_ensures(
                    predicate,
                    (&self.beliefs@[i],),
                    false,
                ),
            forall|i1: int, i2: int|
                0 <= i1 < i2 < r@.len() ==> (#[trigger] r@[i1]) != (#[trigger] r@[i2]),
    {
        let n = self.beliefs.len();
        let mut out: Vec<Belief> = Vec::new();
        let mut i: usize = 0;
        while i < n
            invariant
                self.wf(),
                n == self.beliefs@.len(),
                i <= n,
                forall|b: Belief| #[trigger] call_requires(predicate, (&b,)),
                forall|t: int| #![trigger out@[t]]
                    0 <= t < out@.len() ==> self.beliefs@.contains(out@[t]) && call_ensures(
                        predicate,
                        (&out@[t],),
                        true,
                    ),
                forall|j: int| #![trigger self.beliefs@[j]]
                    0 <= j < i && !out@.contains(self.beliefs@[j]) ==> call_ensures(
                        predicate,
                        (&self.beliefs@[j],),
                        false,
                    ),
                forall|t: int| #![trigger out@[t]]
                    0 <= t < out@.len() ==> exists|j: int| #![auto]
                        0 <= j < i && out@[t] == self.beliefs@[j],
                forall|t1: int, t2: int|
                    0 <= t1 < t2 < out@.len() ==> (#[trigger] out@[t1]).key@ != (
                    #[trigger] out@[t2]).key@,
            decreases n - i,
        {
            let ghost prevout = out@;
            if predicate(&self.beliefs[i]) {
                out.push(self.beliefs[i].clone());
                proof {
                    assert(out@.last() == self.beliefs@[i as int]);
                    assert(forall|t: int| 0 <= t < prevout.len() ==> out@[t] == prevout[t]);
                    assert forall|j: int| #![trigger self.beliefs@[j]]
                        0 <= j < i + 1 && !out@.contains(self.beliefs@[j]) implies call_ensures(
                        predicate,
                        (&self.beliefs@[j],),
                        false,
                    ) by {
                        if j == i {
                            assert(out@[out@.len() - 1] == self.beliefs@[j]);
                            assert(out@.contains(self.beliefs@[j]));
                        } else {
                            if prevout.contains(self.beliefs@[j]) {
                                let t0 = choose|t0: int|
                                    0 <= t0 < prevout.len() && prevout[t0] == self.beliefs@[j];
                                assert(out@[t0] == self.beliefs@[j]);
                                assert(out@.contains(self.beliefs@[j]));
                            }
                        }
                    }
                    assert forall|t: int| #![trigger out@[t]]
                        0 <= t < out@.len() implies exists|j: int| #![auto]
                        0 <= j < i + 1 && out@[t] == self.beliefs@[j] by {
                        if t < prevout.len() {
                            assert(out@[t] == prevout[t]);
                        } else {
                            assert(out@[t] == self.beliefs@[i as int]);
                        }
                    }
                    assert forall|t1: int, t2: int|
                        0 <= t1 < t2 < out@.len() implies (#[trigger] out@[t1]).key@ != (
                    #[trigger] out@[t2]).key@ by {
                        if t2 < prevout.len() {
                            assert(out@[t1] == prevout[t1]);
                            assert(out@[t2] == prevout[t2]);
                        } else {
                            assert(out@[t1] == prevout[t1]);
                            let j1 = choose|j1: int| #![auto]
                                0 <= j1 < i && prevout[t1] == self.beliefs@[j1];
                            assert(self.entries()[j1].0 == self.beliefs@[j1].key@);
                            assert(self.entries()[i as int].0 == self.beliefs@[i as int].key@);
                            assert(self.entries()[j1].0 != self.entries()[i as int].0);
                            assert(out@[t2] == self.beliefs@[i as int]);
                        }
                    }
                }
            } else {
                proof {
                    assert forall|j: int| #![trigger self.beliefs@[j]]
                        0 <= j < i + 1 && !out@.contains(self.beliefs@[j]) implies call_ensures(
                        predicate,
                        (&self.beliefs@[j],),
                        false,
                    ) by {
                    }
                }
            }
            i += 1;
        }
        proof {
            assert forall|t1: int, t2: int|
                0 <= t1 < t2 < out@.len() implies (#[trigger] out@[t1]) != (
            #[trigger] out@[t2]) by {
                assert(out@[t1].key@ != out@[t2].key@);
            }
        }
        out
    }

    /// Drops every stored belief.
    pub fn clear(&mut self)
        ensures
            final(self).wf(),
            final(self)@ == Map::<Seq<char>, Belief>::empty(),
            final(self).beliefs@.len() == 0,
    {
        self.beliefs = Vec::new();
        proof {
            assert(self.entries() =~= Seq::<(Seq<char>, Belief)>::empty());
        }
    }

    /// The number of stored beliefs, one per key.
    pub fn len(&self) -> (r: usize)
        ensures
            r == self.beliefs@.len(),
    {
        self.beliefs.len()
    }

    /// Whether the store holds no belief.
    pub fn is_empty(&self) -> (r: bool)
        ensures
            r == (self.beliefs@.len() == 0),
    {
        self.beliefs.len() == 0
    }
}

impl Clone for BeliefBase {
    fn clone(&self) -> (r: Self)
        ensures
            r.beliefs@ == self.beliefs@,
            r@ == self@,
            r.wf() == self.wf(),
    {
        let n = self.beliefs.len();
        let mut out: Vec<Belief> = Vec::new();
        let mut i: usize = 0;
        while i < n
            invariant
                n == self.beliefs@.len(),
                i <= n,
                out@ == self.beliefs@.subrange(0, i as int),
            decreases n - i,
        {
            out.push(self.beliefs[i].clone());
            proof {
                assert(out@ =~= self.beliefs@.subrange(0, i + 1 as int));
            }
            i += 1;
        }
        proof {
            assert(out@ =~= self.beliefs@);
        }
        BeliefBase { beliefs: out }
    }
}

impl Default for BeliefBase {
    fn default() -> (r: Self)
        ensures
            r.wf(),
            r@ == Map::<Seq<char>, Belief>::empty(),
            r.beliefs@.len() == 0,
    {
        BeliefBase::new()
    }
}

/// Looking a key up right after adding a belief under it yields exactly
/// the added belief.
pub proof fn lemma_add_then_get(m: Map<Seq<char>, Belief>, b: Belief)
    ensures
        m.insert(b.key@, b).contains_key(b.key@),
        m.insert(b.key@, b)[b.key@] == b,
{
}

/// After removing a key, the store no longer contains it.
pub proof fn lemma_remove_then_absent(m: Map<Seq<char>, Belief>, k: Seq<char>)
    ensures
        !m.remove(k).contains_key(k),
{
}

} // verus!
