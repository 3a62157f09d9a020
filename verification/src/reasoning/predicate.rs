use vstd::prelude::*;

use crate::bdi::belief::{Belief, CERTAINTY_UNIT};
use crate::bdi::belief_base::BeliefBase;
use crate::kvmap::{lemma_assoc_contains, lemma_assoc_index};
use crate::strutil::str_eq;

verus! {

/// A condition or conclusion over the belief store, in tagged form
/// rather than as a raw string, so that inference can match it
/// exhaustively.
#[derive(Debug)]
pub enum Predicate {
    /// The store carries `key` with exactly `value`.
    Equals(String, String),
    /// The store carries `key`, with any value.
    Present(String),
    /// The store carries no belief for `key`.
    Absent(String),
}

/// Whether a predicate holds of the belief map `m`.
pub open spec fn pred_holds(m: Map<Seq<char>, Belief>, p: Predicate) -> bool {
    match p {
        Predicate::Equals(k, v) => m.contains_key(k@) && m[k@].value@ == v@,
        Predicate::Present(k) => m.contains_key(k@),
        Predicate::Absent(k) => !m.contains_key(k@),
    }
}

/// What a predicate contributes to a fired rule's certainty: the matched
/// belief's certainty for an equality test, full certainty otherwise.
pub open spec fn pred_certainty(m: Map<Seq<char>, Belief>, p: Predicate) -> int {
    match p {
        Predicate::Equals(k, v) => if m.contains_key(k@) {
            m[k@].certainty as int
        } else {
            CERTAINTY_UNIT as int
        },
        Predicate::Present(k) => CERTAINTY_UNIT as int,
        Predicate::Absent(k) => CERTAINTY_UNIT as int,
    }
}

/// The belief entry a conclusion asserts: an equality conclusion asserts
/// its key-value pair; presence and absence conclusions assert nothing.
pub open spec fn concl_entry(p: Predicate) -> Option<(Seq<char>, Seq<char>)> {
    match p {
        Predicate::Equals(k, v) => Some((k@, v@)),
        Predicate::Present(k) => None,
        Predicate::Absent(k) => None,
    }
}

impl Predicate {
    /// An equality test or assertion on `key` and `value`.
    pub fn equals(key: &str, value: &str) -> (r: Self)
        ensures
            r matches Predicate::Equals(k, v) && k@ == key@ && v@ == value@,
    {
        Predicate::Equals(key.to_owned(), value.to_owned())
    }

    /// A presence test on `key`.
    pub fn present(key: &str) -> (r: Self)
        ensures
            r matches Predicate::Present(k) && k@ == key@,
    {
        Predicate::Present(key.to_owned())
    }

    /// An absence test on `key`.
    pub fn absent(key: &str) -> (r: Self)
        ensures
            r matches Predicate::Absent(k) && k@ == key@,
    {
        Predicate::Absent(key.to_owned())
    }

    /// Whether this predicate holds of the given belief store.
    pub fn holds_in(&self, store: &BeliefBase) -> (r: bool)
        requires
            store.wf(),
        ensures
            r == pred_holds(store@, *self),
    {
        match self {
            Predicate::Equals(k, v) => {
                match store.get(k.as_str()) {
                    Some(b) => str_eq(b.value.as_str(), v.as_str()),
                    None => false,
                }
            },
            Predicate::Present(k) => store.contains(k.as_str()),
            Predicate::Absent(k) => !store.contains(k.as_str()),
        }
    }

    /// What this predicate contributes to a fired rule's certainty.
    pub fn certainty_in(&self, store: &BeliefBase) -> (r: u32)
        requires
            store.wf(),
        ensures
            r == pred_certainty(store@, *self),
            r <= CERTAINTY_UNIT,
    {
        proof {
            lemma_store_values_wf(store);
        }
        match self {
            Predicate::Equals(k, v) => {
                match store.get(k.as_str()) {
                    Some(b) => b.certainty,
                    None => CERTAINTY_UNIT,
                }
            },
            Predicate::Present(k) => CERTAINTY_UNIT,
            Predicate::Absent(k) => CERTAINTY_UNIT,
        }
    }
}

impl Clone for Predicate {
    fn clone(&self) -> (r: Self)
        ensures
            r == *self,
    {
        match self {
            Predicate::Equals(k, v) => Predicate::Equals(k.clone(), v.clone()),
            Predicate::Present(k) => Predicate::Present(k.clone()),
            Predicate::Absent(k) => Predicate::Absent(k.clone()),
        }
    }
}

/// In a well-formed store, every stored belief is well-formed.
pub proof fn lemma_store_values_wf(store: &BeliefBase)
    requires
        store.wf(),
    ensures
        forall|k: Seq<char>| #[trigger] store@.contains_key(k) ==> store@[k].wf(),
{
    assert forall|k: Seq<char>| #[trigger] store@.contains_key(k) implies store@[k].wf() by {
        lemma_assoc_contains(store.entries(), k);
        let i = choose|i: int| 0 <= i < store.entries().len() && store.entries()[i].0 == k;
        assert(store.entries()[i].0 == k);
        lemma_assoc_index(store.entries(), i);
        assert(store.entries()[i].1 == store.beliefs@[i]);
    }
}

} // verus!
