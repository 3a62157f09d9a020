use vstd::prelude::*;

use crate::kvmap::{
    assoc_map, lemma_assoc_contains, lemma_assoc_index, lemma_assoc_push, lemma_assoc_remove,
    unique_keys,
};
use crate::strutil::str_eq;

verus! {

/// A snapshot of world facts: a finite map from variable name to value,
/// keys unique. Two states are compared by exact key-value equality.
#[derive(Debug)]
pub struct State {
    pub vars: Vec<(String, String)>,
}

impl View for State {
    type V = Map<Seq<char>, Seq<char>>;

    open spec fn view(&self) -> Map<Seq<char>, Seq<char>> {
        assoc_map(self.entries())
    }
}

impl State {
    /// The entry sequence the variable vector denotes.
    pub open spec fn entries(&self) -> Seq<(Seq<char>, Seq<char>)> {
        self.vars@.map_values(|p: (String, String)| (p.0@, p.1@))
    }

    /// The variable vector never repeats a key.
    pub open spec fn wf(&self) -> bool {
        unique_keys(self.entries())
    }

    /// Creates an empty state.
    pub fn new() -> (r: Self)
        ensures
            r.wf(),
            r@ == Map::<Seq<char>, Seq<char>>::empty(),
            r.vars@.len() == 0,
    {
        let r = State { vars: Vec::new() };
        proof {
            assert(r.entries() =~= Seq::<(Seq<char>, Seq<char>)>::empty());
        }
        r
    }

    /// The position of `key` in the variable vector, if any.
    fn index_of(&self, key: &str) -> (r: Option<usize>)
        ensures
            match r {
                Some(i) => i < self.vars@.len() && self.entries()[i as int].0 == key@,
                None => forall|i: int| 0 <= i < self.vars@.len() ==> self.entries()[i].0 != key@,
            },
    {
        let n = self.vars.len();
        let mut i: usize = 0;
        while i < n
            invariant
                n == self.vars@.len(),
                i <= n,
                forall|j: int| 0 <= j < i ==> self.entries()[j].0 != key@,
            decreases n - i,
        {
            if str_eq(self.vars[i].0.as_str(), key) {
                return Some(i);
            }
            i += 1;
        }
        None
    }

    /// Sets `key` to `value`, overwriting any earlier value of the key.
    pub fn set(self, key: &str, value: &str) -> (r: Self)
        requires
            self.wf(),
        ensures
            r.wf(),
            r@ == self@.insert(key@, value@),
    {
        let ghost old_entries = self.entries();
        let idx = self.index_of(key);
        let mut vars = self.vars;
        match idx {
            Some(i) => {
                proof {
                    lemma_assoc_remove(old_entries, i as int);
                }
                vars.remove(i);
                let ghost mid = vars@.map_values(|p: (String, String)| (p.0@, p.1@));
                proof {
                    assert(mid =~= old_entries.remove(i as int));
                }
                vars.push((key.to_owned(), value.to_owned()));
                let r = State { vars };
                proof {
                    assert(r.entries() =~= mid.push((key@, value@)));
                    lemma_assoc_push(mid, key@, value@);
                    assert(r@ =~= assoc_map(old_entries).insert(key@, value@));
                    assert(forall|a: int, b: int|
                        0 <= a < b < r.entries().len() ==> r.entries()[a].0 != r.entries()[b].0);
                }
                r
            },
            None => {
                vars.push((key.to_owned(), value.to_owned()));
                let r = State { vars };
                proof {
                    assert(r.entries() =~= old_entries.push((key@, value@)));
                    lemma_assoc_push(old_entries, key@, value@);
                    assert(forall|a: int, b: int|
                        0 <= a < b < r.entries().len() ==> r.entries()[a].0 != r.entries()[b].0);
                }
                r
            },
        }
    }

    /// Looks a variable up.
    pub fn get(&self, key: &str) -> (r: Option<&String>)
        requires
            self.wf(),
        ensures
            match r {
                Some(v) => self@.contains_key(key@) && self@[key@] == v@,
                None => !self@.contains_key(key@),
            },
    {
        proof {
            lemma_assoc_contains(self.entries(), key@);
        }
        match self.index_of(key) {
            Some(i) => {
                proof {
                    lemma_assoc_index(self.entries(), i as int);
                }
                Some(&self.vars[i].1)
            },
            None => None,
        }
    }

    /// Whether `key` is set to exactly `value`.
    pub fn matches(&self, key: &str, value: &str) -> (r: bool)
        requires
            self.wf(),
        ensures
            r == (self@.contains_key(key@) && self@[key@] == value@),
    {
        match self.get(key) {
            Some(v) => str_eq(v.as_str(), value),
            None => false,
        }
    }

    /// The underlying variable vector.
    pub fn variables(&self) -> (r: &Vec<(String, String)>)
        ensures
            r == &self.vars,
    {
        &self.vars
    }

    /// Whether the two states carry exactly the same facts.
    pub fn equivalent(&self, other: &State) -> (r: bool)
        requires
            self.wf(),
            other.wf(),
        ensures
            r == (self@ == other@),
    {
        let n = self.vars.len();
        let mut i: usize = 0;
        while i < n
            invariant
                self.wf(),
                other.wf(),
                n == self.vars@.len(),
                i <= n,
                forall|j: int| #![trigger self.entries()[j]]
                    0 <= j < i ==> other@.contains_key(self.entries()[j].0) && other@[self.entries()[j].0]
                        == self.entries()[j].1,
            decreases n - i,
        {
            proof {
                lemma_assoc_index(self.entries(), i as int);
            }
            if !other.matches(self.vars[i].0.as_str(), self.vars[i].1.as_str()) {
                return false;
            }
            i += 1;
        }
        let m = other.vars.len();
        let mut j: usize = 0;
        while j < m
            invariant
                self.wf(),
                other.wf(),
                m == other.vars@.len(),
                j <= m,
                forall|a: int| #![trigger self.entries()[a]]
                    0 <= a < self.vars@.len() ==> other@.contains_key(self.entries()[a].0)
                        && other@[self.entries()[a].0] == self.entries()[a].1,
                forall|b: int| #![trigger other.entries()[b]]
                    0 <= b < j ==> self@.contains_key(other.entries()[b].0),
            decreases m - j,
        {
            proof {
                lemma_assoc_index(other.entries(), j as int);
                lemma_assoc_contains(self.entries(), other.entries()[j as int].0);
            }
            if !self.contains_key_exec(other.vars[j].0.as_str()) {
                proof {
                    assert(other@.contains_key(other.entries()[j as int].0));
                    assert(!self@.contains_key(other.entries()[j as int].0));
                }
                return false;
            }
            j += 1;
        }
        proof {
            assert forall|k: Seq<char>| #[trigger] self@.dom().contains(k) implies other@.dom().contains(
                k,
            ) && other@[k] == self@[k] by {
                lemma_assoc_contains(self.entries(), k);
                let a = choose|a: int| 0 <= a < self.entries().len() && self.entries()[a].0 == k;
                assert(self.entries()[a].0 == k);
                lemma_assoc_index(self.entries(), a);
                assert(other@.contains_key(self.entries()[a].0));
            }
            assert forall|k: Seq<char>| #[trigger] other@.dom().contains(k) implies self@.dom().contains(
                k,
            ) by {
                lemma_assoc_contains(other.entries(), k);
                let b = choose|b: int| 0 <= b < other.entries().len() && other.entries()[b].0 == k;
                assert(other.entries()[b].0 == k);
                assert(self@.contains_key(other.entries()[b].0));
            }
            assert(self@.dom() =~= other@.dom());
            assert(self@ =~= other@);
        }
        true
    }

    /// Whether `key` is set at all.
    fn contains_key_exec(&self, key: &str) -> (r: bool)
        ensures
            r == self@.contains_key(key@),
    {
        proof {
            lemma_assoc_contains(self.entries(), key@);
        }
        self.index_of(key).is_some()
    }
}

impl Clone for State {
    fn clone(&self) -> (r: Self)
        ensures
            r.vars@ == self.vars@,
            r@ == self@,
            r.wf() == self.wf(),
    {
        State { vars: crate::strutil::clone_pairs(&self.vars) }
    }
}

impl Default for State {
    fn default() -> (r: Self)
        ensures
            r.wf(),
            r@ == Map::<Seq<char>, Seq<char>>::empty(),
            r.vars@.len() == 0,
    {
        State::new()
    }
}

} // verus!
