use vstd::prelude::*;
use vstd::string::StrSliceExecFns;

use super::belief::Belief;
use super::belief_base::BeliefBase;
use super::desire::Desire;
use super::goal::Goal;
use super::intention::Intention;
use super::intention::stepped;
use super::intention_stack::{active_only, advanced_top, IntentionStack};
use crate::error::CognitionError;
use crate::planning::action::Action;
use crate::planning::planner::Planner;
use crate::planning::state::State;
use crate::reasoning::engine::{committed, settled, ReasoningEngine};
use crate::reasoning::predicate::Predicate;

verus! {

/// The world-state value a belief map projects to: the same keys, each
/// sent to its belief's value.
pub open spec fn values_of(m: Map<Seq<char>, Belief>) -> Map<Seq<char>, Seq<char>> {
    Map::new(|k: Seq<char>| m.contains_key(k), |k: Seq<char>| m[k].value@)
}

/// Whether `c` holds a `'='` character.
pub open spec fn has_eq(c: Seq<char>) -> bool {
    exists|i: int| 0 <= i < c.len() && c[i] == '='
}

/// The position of the first `'='` in `c`.
pub open spec fn first_eq(c: Seq<char>) -> int {
    choose|i: int| 0 <= i < c.len() && c[i] == '=' && (forall|j: int| 0 <= j < i ==> c[j] != '=')
}

/// The goal entry a condition string denotes: `key=value` split at the
/// first `'='`, or nothing for a bare presence condition.
pub open spec fn cond_entry(c: Seq<char>) -> Option<(Seq<char>, Seq<char>)> {
    if has_eq(c) {
        Some((c.subrange(0, first_eq(c)), c.subrange(first_eq(c) + 1, c.len() as int)))
    } else {
        None
    }
}

/// Whether the belief map satisfies one condition string: a `key=value`
/// condition demands the key with exactly that value, a bare condition
/// demands only that the key be present.
pub open spec fn cond_sat(m: Map<Seq<char>, Belief>, c: Seq<char>) -> bool {
    match cond_entry(c) {
        Some(e) => m.contains_key(e.0) && m[e.0].value@ == e.1,
        None => m.contains_key(c),
    }
}

/// Whether the belief map satisfies every condition of the sequence.
pub open spec fn all_conds_sat(m: Map<Seq<char>, Belief>, cs: Seq<Seq<char>>) -> bool {
    forall|i: int| 0 <= i < cs.len() ==> cond_sat(m, #[trigger] cs[i])
}

/// The goal state the condition strings denote: each `key=value`
/// condition contributes its entry, later conditions winning.
pub open spec fn goal_map(cs: Seq<Seq<char>>) -> Map<Seq<char>, Seq<char>>
    decreases cs.len(),
{
    if cs.len() == 0 {
        Map::empty()
    } else {
        match cond_entry(cs.last()) {
            Some(e) => goal_map(cs.drop_last()).insert(e.0, e.1),
            None => goal_map(cs.drop_last()),
        }
    }
}

/// The position of the first `'='` in `s`, if any.
fn find_eq(s: &str) -> (r: Option<usize>)
    ensures
        match r {
            Some(i) => i < s@.len() && s@[i as int] == '=' && (forall|j: int|
                0 <= j < i ==> s@[j] != '='),
            None => forall|j: int| 0 <= j < s@.len() ==> s@[j] != '=',
        },
{
    let n = s.unicode_len();
    let mut i: usize = 0;
    while i < n
        invariant
            n == s@.len(),
            i <= n,
            forall|j: int| 0 <= j < i ==> s@[j] != '=',
        decreases n - i,
    {
        if s.get_char(i) == '=' {
            return Some(i);
        }
        i += 1;
    }
    None
}

/// The tagged predicate a condition string denotes: `key=value` becomes
/// an equality test at the first `'='`, a bare string a presence test on
/// the whole string.
pub fn parse_condition(s: &str) -> (r: Predicate)
    ensures
        match cond_entry(s@) {
            Some(e) => r matches Predicate::Equals(k, v) && k@ == e.0 && v@ == e.1,
            None => r matches Predicate::Present(k) && k@ == s@,
        },
{
    let n = s.unicode_len();
    match find_eq(s) {
        Some(i) => {
            proof {
                assert(has_eq(s@));
                let ci = first_eq(s@);
                assert(0 <= ci < s@.len() && s@[ci] == '=' && (forall|j: int|
                    0 <= j < ci ==> s@[j] != '='));
                if ci < i {
                    assert(s@[ci] == '=');
                    assert(false);
                }
                if ci > i {
                    assert(s@[i as int] == '=');
                    assert(false);
                }
                assert(ci == i);
            }
            Predicate::equals(s.substring_char(0, i), s.substring_char(i + 1, n))
        },
        None => {
            proof {
                if has_eq(s@) {
                    let w = choose|w: int| 0 <= w < s@.len() && s@[w] == '=';
                    assert(s@[w] != '=');
                }
            }
            Predicate::present(s)
        },
    }
}

/// Whether the belief store satisfies every condition of the goal.
pub fn goal_satisfied(goal: &Goal, beliefs: &BeliefBase) -> (r: bool)
    requires
        beliefs.wf(),
    ensures
        r == all_conds_sat(beliefs@, goal.conditions@.map_values(|s: String| s@)),
{
    let ghost cs = goal.conditions@.map_values(|s: String| s@);
    let n = goal.conditions.len();
    let mut i: usize = 0;
    while i < n
        invariant
            beliefs.wf(),
            n == goal.conditions@.len(),
            cs == goal.conditions@.map_values(|s: String| s@),
            i <= n,
            forall|j: int| 0 <= j < i ==> cond_sat(beliefs@, #[trigger] cs[j]),
        decreases n - i,
    {
        let p = parse_condition(goal.conditions[i].as_str());
        if !p.holds_in(beliefs) {
            proof {
                assert(cs[i as int] == goal.conditions@[i as int]@);
                assert(!cond_sat(beliefs@, cs[i as int]));
            }
            return false;
        }
        proof {
            assert(cs[i as int] == goal.conditions@[i as int]@);
        }
        i += 1;
    }
    true
}

/// The planner goal state the goal's conditions denote. A goal with a
/// bare presence condition cannot be planned toward and is reported
/// unachievable by static inspection.
pub fn goal_state(goal: &Goal) -> (r: Result<State, CognitionError>)
    ensures
        match r {
            Ok(st) => st.wf() && st@ == goal_map(goal.conditions@.map_values(|s: String| s@)),
            Err(e) => e matches CognitionError::GoalNotAchievable(_),
        },
{
    let ghost cs = goal.conditions@.map_values(|s: String| s@);
    let n = goal.conditions.len();
    let mut st = State::new();
    proof {
        assert(cs.subrange(0, 0) =~= Seq::<Seq<char>>::empty());
    }
    let mut i: usize = 0;
    while i < n
        invariant
            n == goal.conditions@.len(),
            cs == goal.conditions@.map_values(|s: String| s@),
            i <= n,
            st.wf(),
            st@ == goal_map(cs.subrange(0, i as int)),
        decreases n - i,
    {
        let c = goal.conditions[i].as_str();
        proof {
            assert(cs[i as int] == goal.conditions@[i as int]@);
        }
        match find_eq(c) {
            Some(p) => {
                let len = c.unicode_len();
                let key = c.substring_char(0, p);
                let value = c.substring_char(p + 1, len);
                proof {
                    assert(has_eq(c@));
                    let ci = first_eq(c@);
                    assert(0 <= ci < c@.len() && c@[ci] == '=' && (forall|j: int|
                        0 <= j < ci ==> c@[j] != '='));
                    if ci < p {
                        assert(c@[ci] == '=');
                        assert(false);
                    }
                    if ci > p {
                        assert(c@[p as int] == '=');
                        assert(false);
                    }
                    assert(cond_entry(c@) == Some((key@, value@)));
                }
                st = st.set(key, value);
                proof {
                    assert(cs.subrange(0, i + 1 as int).drop_last() =~= cs.subrange(0, i as int));
                    assert(cs.subrange(0, i + 1 as int).last() == cs[i as int]);
                }
            },
            None => {
                return Err(
                    CognitionError::GoalNotAchievable(
                        "a bare presence condition names no target value to plan toward".to_owned(),
                    ),
                );
            },
        }
        i += 1;
    }
    proof {
        assert(cs.subrange(0, n as int) =~= cs);
    }
    Ok(st)
}

/// The index of the highest-priority desire, the earliest first among
/// equal priorities.
pub fn select_desire_index(desires: &Vec<Desire>) -> (r: Option<usize>)
    ensures
        match r {
            Some(i) => i < desires@.len() && (forall|j: int| #![trigger desires@[j]]
                0 <= j < desires@.len() ==> desires@[j].priority <= desires@[i as int].priority)
                && (forall|j: int| #![trigger desires@[j]]
                0 <= j < i ==> desires@[j].priority < desires@[i as int].priority),
            None => desires@.len() == 0,
        },
{
    let n = desires.len();
    if n == 0 {
        return None;
    }
    let mut best: usize = 0;
    let mut i: usize = 1;
    while i < n
        invariant
            n == desires@.len(),
            best < i <= n,
            forall|j: int| #![trigger desires@[j]]
                0 <= j < i ==> desires@[j].priority <= desires@[best as int].priority,
            forall|j: int| #![trigger desires@[j]]
                0 <= j < best ==> desires@[j].priority < desires@[best as int].priority,
        decreases n - i,
    {
        if desires[i].priority > desires[best].priority {
            best = i;
        }
        i += 1;
    }
    Some(best)
}

/// The world-state snapshot the belief store projects to: every belief
/// key mapped to its value, certainties left behind.
pub fn world_state_of(beliefs: &BeliefBase) -> (r: State)
    requires
        beliefs.wf(),
    ensures
        r.wf(),
        r@ == values_of(beliefs@),
{
    let ghost entries = beliefs.entries();
    let n = beliefs.beliefs.len();
    let mut st = State::new();
    proof {
        assert(entries.subrange(0, 0) =~= Seq::<(Seq<char>, Belief)>::empty());
        assert(st@ =~= values_of(crate::kvmap::assoc_map(entries.subrange(0, 0))));
    }
    let mut i: usize = 0;
    while i < n
        invariant
            beliefs.wf(),
            n == beliefs.beliefs@.len(),
            entries == beliefs.entries(),
            i <= n,
            st.wf(),
            st@ == values_of(crate::kvmap::assoc_map(entries.subrange(0, i as int))),
        decreases n - i,
    {
        let b = &beliefs.beliefs[i];
        st = st.set(b.key.as_str(), b.value.as_str());
        proof {
            assert(entries.subrange(0, i + 1 as int).drop_last() =~= entries.subrange(0, i as int));
            assert(entries.subrange(0, i + 1 as int).last() == entries[i as int]);
            assert(entries[i as int] == (beliefs.beliefs@[i as int].key@, beliefs.beliefs@[i as int]));
            assert(st@ =~= values_of(crate::kvmap::assoc_map(entries.subrange(0, i + 1 as int))));
        }
        i += 1;
    }
    proof {
        assert(entries.subrange(0, n as int) =~= entries);
    }
    st
}

/// Whether some held intention pursues a goal with this name.
fn backs_goal(stack: &IntentionStack, name: &str) -> (r: bool)
    ensures
        r == exists|i: int|
            0 <= i < stack.intentions@.len() && #[trigger] stack.intentions@[i].goal.name@ == name@,
{
    let n = stack.intentions.len();
    let mut i: usize = 0;
    while i < n
        invariant
            n == stack.intentions@.len(),
            i <= n,
            forall|j: int| 0 <= j < i ==> #[trigger] stack.intentions@[j].goal.name@ != name@,
        decreases n - i,
    {
        if crate::strutil::str_eq(stack.intentions[i].goal.name.as_str(), name) {
            return true;
        }
        i += 1;
    }
    false
}

/// After keeping a desire that already backs an intention: the kept list
/// stays backed, sorted, and above every desire still to be weighed.
proof fn lemma_desire_kept(
    kd: Seq<Desire>,
    nd: Seq<Desire>,
    ints: Seq<Intention>,
    queue: Seq<Desire>,
    k: int,
)
    requires
        0 <= k < queue.len(),
        nd == kd.push(queue[k]) || (nd.len() == kd.len() + 1 && nd.last().priority == queue[k].priority
            && nd.last().goal.name@ == queue[k].goal.name@ && forall|i: int|
            0 <= i < kd.len() ==> nd[i] == kd[i]),
        forall|i1: int, i2: int|
            0 <= i1 < i2 < queue.len() ==> (#[trigger] queue[i1]).priority >= (
            #[trigger] queue[i2]).priority,
        forall|i: int| #![trigger kd[i]]
            0 <= i < kd.len() ==> exists|p: int|
                0 <= p < ints.len() && (#[trigger] ints[p]).goal.name@ == kd[i].goal.name@,
        exists|p: int| 0 <= p < ints.len() && (#[trigger] ints[p]).goal.name@ == nd.last().goal.name@,
        forall|i: int, t: int|
            0 <= i < kd.len() && k <= t < queue.len() ==> (#[trigger] kd[i]).priority >= (
            #[trigger] queue[t]).priority,
        forall|i1: int, i2: int|
            0 <= i1 < i2 < kd.len() ==> (#[trigger] kd[i1]).priority >= (
            #[trigger] kd[i2]).priority,
    ensures
        forall|i: int| #![trigger nd[i]]
            0 <= i < nd.len() ==> exists|p: int|
                0 <= p < ints.len() && (#[trigger] ints[p]).goal.name@ == nd[i].goal.name@,
        forall|i: int, t: int|
            0 <= i < nd.len() && k + 1 <= t < queue.len() ==> (#[trigger] nd[i]).priority >= (
            #[trigger] queue[t]).priority,
        forall|i1: int, i2: int|
            0 <= i1 < i2 < nd.len() ==> (#[trigger] nd[i1]).priority >= (
            #[trigger] nd[i2]).priority,
{
    assert forall|i: int| #![trigger nd[i]] 0 <= i < nd.len() implies exists|p: int|
        0 <= p < ints.len() && (#[trigger] ints[p]).goal.name@ == nd[i].goal.name@ by {
        if i < kd.len() {
            assert(nd[i] == kd[i]);
        } else {
            assert(nd[i] == nd.last());
        }
    }
    assert forall|i: int, t: int|
        0 <= i < nd.len() && k + 1 <= t < queue.len() implies (#[trigger] nd[i]).priority >= (
    #[trigger] queue[t]).priority by {
        assert(queue[k].priority >= queue[t].priority);
        if i < kd.len() {
            assert(nd[i] == kd[i]);
            assert(kd[i].priority >= queue[t].priority);
        } else {
            assert(nd[i].priority == queue[k].priority);
        }
    }
    assert forall|i1: int, i2: int| 0 <= i1 < i2 < nd.len() implies (#[trigger] nd[i1]).priority
        >= (#[trigger] nd[i2]).priority by {
        assert(nd[i1] == kd[i1]);
        if i2 < kd.len() {
            assert(nd[i2] == kd[i2]);
        } else {
            assert(kd[i1].priority >= queue[k].priority);
            assert(nd[i2].priority == queue[k].priority);
        }
    }
}

/// After promoting a desire to a fresh intention: the stack keeps its
/// old prefix and stays well-formed, the kept list stays backed, sorted
/// and above every desire still to be weighed, and every intention
/// pushed by this call pursues a kept desire's goal from its first
/// action.
proof fn lemma_desire_promoted(
    kd: Seq<Desire>,
    nd: Seq<Desire>,
    ki: Seq<Intention>,
    ni: Seq<Intention>,
    oldints: Seq<Intention>,
    queue: Seq<Desire>,
    k: int,
)
    requires
        0 <= k < queue.len(),
        nd.len() == kd.len() + 1,
        forall|i: int| 0 <= i < kd.len() ==> nd[i] == kd[i],
        nd.last().priority == queue[k].priority,
        ni.len() == ki.len() + 1,
        forall|p: int| 0 <= p < ki.len() ==> ni[p] == ki[p],
        ni.last().current_step == 0,
        ni.last().wf(),
        exists|p: int| 0 <= p < ni.len() && (#[trigger] ni[p]).goal.name@ == nd.last().goal.name@,
        oldints.is_prefix_of(ki),
        forall|p: int| #![trigger ki[p]] 0 <= p < ki.len() ==> ki[p].wf(),
        forall|i: int| #![trigger kd[i]]
            0 <= i < kd.len() ==> exists|p: int|
                0 <= p < ki.len() && (#[trigger] ki[p]).goal.name@ == kd[i].goal.name@,
        forall|p: int| #![trigger ki[p]]
            oldints.len() <= p < ki.len() ==> ki[p].current_step == 0,
        forall|i1: int, i2: int|
            0 <= i1 < i2 < queue.len() ==> (#[trigger] queue[i1]).priority >= (
            #[trigger] queue[i2]).priority,
        forall|i: int, t: int|
            0 <= i < kd.len() && k <= t < queue.len() ==> (#[trigger] kd[i]).priority >= (
            #[trigger] queue[t]).priority,
        forall|i1: int, i2: int|
            0 <= i1 < i2 < kd.len() ==> (#[trigger] kd[i1]).priority >= (
            #[trigger] kd[i2]).priority,
    ensures
        oldints.is_prefix_of(ni),
        forall|p: int| #![trigger ni[p]] 0 <= p < ni.len() ==> ni[p].wf(),
        forall|i: int| #![trigger nd[i]]
            0 <= i < nd.len() ==> exists|p: int|
                0 <= p < ni.len() && (#[trigger] ni[p]).goal.name@ == nd[i].goal.name@,
        forall|i: int, t: int|
            0 <= i < nd.len() && k + 1 <= t < queue.len() ==> (#[trigger] nd[i]).priority >= (
            #[trigger] queue[t]).priority,
        forall|i1: int, i2: int|
            0 <= i1 < i2 < nd.len() ==> (#[trigger] nd[i1]).priority >= (
            #[trigger] nd[i2]).priority,
        forall|p: int| #![trigger ni[p]]
            oldints.len() <= p < ni.len() ==> ni[p].current_step == 0,
{
    assert(oldints.len() <= ki.len() <= ni.len());
    assert(ni.subrange(0, oldints.len() as int) =~= ki.subrange(0, oldints.len() as int));
    assert forall|p: int| #![trigger ni[p]] 0 <= p < ni.len() implies ni[p].wf() by {
        if p < ki.len() {
            assert(ni[p] == ki[p]);
        }
    }
    assert forall|i: int| #![trigger nd[i]] 0 <= i < nd.len() implies exists|p: int|
        0 <= p < ni.len() && (#[trigger] ni[p]).goal.name@ == nd[i].goal.name@ by {
        if i < kd.len() {
            assert(nd[i] == kd[i]);
            let p0 = choose|p0: int|
                0 <= p0 < ki.len() && (#[trigger] ki[p0]).goal.name@ == kd[i].goal.name@;
            assert(ni[p0] == ki[p0]);
            assert(ni[p0].goal.name@ == nd[i].goal.name@);
        } else {
            let p1 = choose|p1: int|
                0 <= p1 < ni.len() && (#[trigger] ni[p1]).goal.name@ == nd.last().goal.name@;
            assert(ni[p1].goal.name@ == nd[i].goal.name@);
        }
    }
    assert forall|i: int, t: int|
        0 <= i < nd.len() && k + 1 <= t < queue.len() implies (#[trigger] nd[i]).priority >= (
    #[trigger] queue[t]).priority by {
        assert(queue[k].priority >= queue[t].priority);
        if i < kd.len() {
            assert(nd[i] == kd[i]);
            assert(kd[i].priority >= queue[t].priority);
        } else {
            assert(nd[i].priority == queue[k].priority);
        }
    }
    assert forall|i1: int, i2: int| 0 <= i1 < i2 < nd.len() implies (#[trigger] nd[i1]).priority
        >= (#[trigger] nd[i2]).priority by {
        assert(nd[i1] == kd[i1]);
        if i2 < kd.len() {
            assert(nd[i2] == kd[i2]);
        } else {
            assert(kd[i1].priority >= queue[k].priority);
            assert(nd[i2].priority == queue[k].priority);
        }
    }
    assert forall|p: int| #![trigger ni[p]]
        oldints.len() <= p < ni.len() implies ni[p].current_step == 0 by {
        if p < ki.len() {
            assert(ni[p] == ki[p]);
        } else {
            assert(ni[p] == ni.last());
        }
    }
}

/// What one deliberation tick hands back: the next action to execute, if
/// an intention is ready, and the names of goals dropped as unachievable.
#[derive(Debug)]
pub struct TickOutcome {
    pub action: Option<Action>,
    pub dropped: Vec<String>,
}

/// The agent: a belief store, the desires it weighs, and the intentions
/// it is committed to, driven once per tick by the deliberation cycle.
#[derive(Debug)]
pub struct BDIAgent {
    pub beliefs: BeliefBase,
    pub desires: Vec<Desire>,
    pub intentions: IntentionStack,
}

impl BDIAgent {
    /// The stores the agent owns are well-formed.
    pub open spec fn wf(&self) -> bool {
        self.beliefs.wf() && self.intentions.wf()
    }

    /// Creates an agent with nothing believed, desired or intended.
    pub fn new() -> (r: Self)
        ensures
            r.wf(),
            r.beliefs.beliefs@.len() == 0,
            r.desires@.len() == 0,
            r.intentions.intentions@.len() == 0,
    {
        BDIAgent { beliefs: BeliefBase::new(), desires: Vec::new(), intentions: IntentionStack::new() }
    }

    /// Creates an agent from existing components.
    pub fn with_components(beliefs: BeliefBase, desires: Vec<Desire>, intentions: IntentionStack) -> (r:
        Self)
        ensures
            r.beliefs == beliefs,
            r.desires == desires,
            r.intentions == intentions,
    {
        BDIAgent { beliefs, desires, intentions }
    }

    /// The belief store.
    pub fn beliefs(&self) -> (r: &BeliefBase)
        ensures
            r == &self.beliefs,
    {
        &self.beliefs
    }

    /// The desires, in insertion order.
    pub fn desires(&self) -> (r: &Vec<Desire>)
        ensures
            r == &self.desires,
    {
        &self.desires
    }

    /// The intention stack.
    pub fn intentions(&self) -> (r: &IntentionStack)
        ensures
            r == &self.intentions,
    {
        &self.intentions
    }

    /// Appends a desire.
    pub fn add_desire(&mut self, desire: Desire)
        ensures
            final(self).desires@ == old(self).desires@.push(desire),
            final(self).beliefs == old(self).beliefs,
            final(self).intentions == old(self).intentions,
    {
        self.desires.push(desire);
    }

    /// Adds or updates one belief.
    pub fn add_belief(&mut self, belief: Belief)
        requires
            old(self).wf(),
            belief.wf(),
        ensures
            final(self).wf(),
            final(self).beliefs@ == old(self).beliefs@.insert(belief.key@, belief),
            final(self).desires == old(self).desires,
            final(self).intentions == old(self).intentions,
    {
        self.beliefs.add(belief);
    }

    /// Merges externally sensed belief updates into the store, in order,
    /// later updates winning. An update whose certainty lies outside the
    /// representable range was built around the constructors and is
    /// rejected whole, leaving the store untouched.
    pub fn merge_updates(&mut self, updates: Vec<Belief>) -> (r: Result<(), CognitionError>)
        requires
            old(self).wf(),
        ensures
            final(self).wf(),
            final(self).desires == old(self).desires,
            final(self).intentions == old(self).intentions,
            match r {
                Ok(()) => final(self).beliefs@ == committed(old(self).beliefs@, updates@),
                Err(e) => e matches CognitionError::BeliefRevisionFailed(_) && final(self).beliefs
                    == old(self).beliefs && exists|i: int|
                    0 <= i < updates@.len() && !(#[trigger] updates@[i].wf()),
            },
            (forall|i: int| 0 <= i < updates@.len() ==> (#[trigger] updates@[i]).wf()) ==> r is Ok,
    {
        let n = updates.len();
        let mut i: usize = 0;
        while i < n
            invariant
                n == updates@.len(),
                i <= n,
                self == old(self),
                self.wf(),
                forall|j: int| 0 <= j < i ==> (#[trigger] updates@[j]).wf(),
            decreases n - i,
        {
            if updates[i].certainty > crate::bdi::belief::CERTAINTY_UNIT {
                proof {
                    assert(!(updates@[i as int].wf()));
                }
                return Err(
                    CognitionError::BeliefRevisionFailed(
                        "an update carries a certainty outside the representable range".to_owned(),
                    ),
                );
            }
            i += 1;
        }
        let ghost us = updates@;
        let mut rest = updates;
        let mut k: usize = 0;
        proof {
            assert(us.subrange(0, 0) =~= Seq::<Belief>::empty());
            assert(rest@ =~= us.subrange(0, n as int));
        }
        while rest.len() > 0
            invariant
                self.wf(),
                k <= n,
                n == us.len(),
                forall|j: int| 0 <= j < us.len() ==> (#[trigger] us[j]).wf(),
                rest@ == us.subrange(k as int, n as int),
                self.beliefs@ == committed(old(self).beliefs@, us.subrange(0, k as int)),
                self.desires == old(self).desires,
                self.intentions == old(self).intentions,
            decreases rest@.len(),
        {
            let b = rest.remove(0);
            proof {
                assert(b == us[k as int]);
                assert(rest@ =~= us.subrange(k + 1 as int, n as int));
                assert(us.subrange(0, k + 1 as int).drop_last() =~= us.subrange(0, k as int));
                assert(us.subrange(0, k + 1 as int).last() == us[k as int]);
            }
            self.beliefs.add(b);
            k += 1;
        }
        proof {
            assert(us.subrange(0, n as int) =~= us);
        }
        Ok(())
    }

    /// Runs forward chaining over the store and commits the newly derived
    /// beliefs, in derivation order. On success the store is a fixpoint
    /// of the rule set, so a second run derives nothing further.
    pub fn run_inference(&mut self, engine: &ReasoningEngine) -> (r: Result<
        Vec<Belief>,
        CognitionError,
    >)
        requires
            old(self).wf(),
        ensures
            final(self).wf(),
            final(self).desires == old(self).desires,
            final(self).intentions == old(self).intentions,
            match r {
                Ok(ds) => final(self).beliefs@ == committed(old(self).beliefs@, ds@) && settled(
                    final(self).beliefs@,
                    engine.rules@,
                ),
                Err(e) => e matches CognitionError::ReasoningError(_) && final(self).beliefs == old(self).beliefs,
            },
            settled(old(self).beliefs@, engine.rules@) ==> (r matches Ok(ds) && ds@.len() == 0
                && final(self).beliefs@ == old(self).beliefs@),
    {
        let derived = match engine.infer(&self.beliefs) {
            Ok(ds) => ds,
            Err(e) => {
                return Err(e);
            },
        };
        let ghost ds = derived@;
        let n = derived.len();
        let mut i: usize = 0;
        proof {
            assert(ds.subrange(0, 0) =~= Seq::<Belief>::empty());
        }
        while i < n
            invariant
                self.wf(),
                i <= n,
                n == ds.len(),
                derived@ == ds,
                forall|j: int| #![trigger ds[j]] 0 <= j < ds.len() ==> ds[j].wf(),
                self.beliefs@ == committed(old(self).beliefs@, ds.subrange(0, i as int)),
                self.desires == old(self).desires,
                self.intentions == old(self).intentions,
            decreases n - i,
        {
            proof {
                assert(ds.subrange(0, i + 1 as int).drop_last() =~= ds.subrange(0, i as int));
                assert(ds.subrange(0, i + 1 as int).last() == ds[i as int]);
            }
            self.beliefs.add(derived[i].clone());
            i += 1;
        }
        proof {
            assert(ds.subrange(0, n as int) =~= ds);
        }
        Ok(derived)
    }

    /// Orders desires by descending runtime priority, keeping insertion
    /// order among equal priorities: repeatedly takes the earliest
    /// highest-priority desire that `select_desire_index` picks.
    fn order_by_priority(input: Vec<Desire>) -> (r: Vec<Desire>)
        ensures
            r@.len() == input@.len(),
            forall|i1: int, i2: int|
                0 <= i1 < i2 < r@.len() ==> (#[trigger] r@[i1]).priority >= (
                #[trigger] r@[i2]).priority,
    {
        let ghost total = input@.len();
        let mut pending = input;
        let mut out: Vec<Desire> = Vec::new();
        while pending.len() > 0
            invariant
                total == input@.len(),
                out@.len() + pending@.len() == total,
                forall|i1: int, i2: int|
                    0 <= i1 < i2 < out@.len() ==> (#[trigger] out@[i1]).priority >= (
                    #[trigger] out@[i2]).priority,
                forall|i: int, t: int|
                    0 <= i < out@.len() && 0 <= t < pending@.len() ==> (
                    #[trigger] out@[i]).priority >= (#[trigger] pending@[t]).priority,
            decreases pending@.len(),
        {
            let b = match select_desire_index(&pending) {
                Some(b) => b,
                None => {
                    proof {
                        assert(false);
                    }
                    0
                },
            };
            let ghost prev = pending@;
            let ghost kept = out@;
            let d = pending.remove(b);
            out.push(d);
            proof {
                assert(d == prev[b as int]);
                assert(forall|t: int| 0 <= t < b ==> pending@[t] == prev[t]);
                assert(forall|t: int| b <= t < pending@.len() ==> pending@[t] == prev[t + 1]);
                assert(forall|i: int| 0 <= i < kept.len() ==> out@[i] == kept[i]);
                assert(out@.last() == d);
                assert forall|i: int, t: int|
                    0 <= i < out@.len() && 0 <= t < pending@.len() implies (
                #[trigger] out@[i]).priority >= (#[trigger] pending@[t]).priority by {
                    let pv = if t < b {
                        prev[t]
                    } else {
                        prev[t + 1]
                    };
                    assert(pending@[t] == pv);
                    assert(pv.priority <= prev[b as int].priority);
                    if i < kept.len() {
                        assert(out@[i] == kept[i]);
                        assert(kept[i].priority >= pv.priority);
                    }
                }
                assert forall|i1: int, i2: int| 0 <= i1 < i2 < out@.len() implies (
                #[trigger] out@[i1]).priority >= (#[trigger] out@[i2]).priority by {
                    assert(out@[i1] == kept[i1]);
                    if i2 < kept.len() {
                        assert(out@[i2] == kept[i2]);
                    } else {
                        assert(out@[i2] == d);
                        assert(kept[i1].priority >= prev[b as int].priority);
                    }
                }
            }
        }
        proof {
            assert(pending@.len() == 0);
            assert(out@.len() + pending@.len() == total);
            assert(out@.len() == total);
            assert(total == input@.len());
            assert(out@.len() == input@.len());
        }
        out
    }

    /// Weighs the desires once, highest runtime priority first, earliest
    /// first among ties. A desire whose goal already backs an intention
    /// is left standing; one whose goal the beliefs satisfy is dropped as
    /// achieved; one no plan can reach is dropped and its name reported;
    /// one the planner can serve is promoted to a fresh intention, which
    /// the desire then backs. Afterwards every surviving desire backs an
    /// intention, and the surviving desires stand in descending priority
    /// order. Beliefs are never touched.
    pub fn deliberate(&mut self, planner: &Planner) -> (dropped: Vec<String>)
        requires
            old(self).wf(),
        ensures
            final(self).wf(),
            final(self).beliefs == old(self).beliefs,
            old(self).intentions.intentions@.is_prefix_of(final(self).intentions.intentions@),
            final(self).desires@.len() <= old(self).desires@.len(),
            forall|i: int| #![trigger final(self).desires@[i]]
                0 <= i < final(self).desires@.len() ==> exists|p: int|
                    0 <= p < final(self).intentions.intentions@.len() && (
                    #[trigger] final(self).intentions.intentions@[p]).goal.name@
                        == final(self).desires@[i].goal.name@,
            forall|i1: int, i2: int|
                0 <= i1 < i2 < final(self).desires@.len() ==> (#[trigger] final(self).desires@[i1]).priority >= (#[trigger] final(self).desires@[i2]).priority,
            forall|p: int| #![trigger final(self).intentions.intentions@[p]]
                old(self).intentions.intentions@.len() <= p < final(self).intentions.intentions@.len()
                    ==> final(self).intentions.intentions@[p].current_step == 0,
    {
        let mut dropped: Vec<String> = Vec::new();
        let mut staged: Vec<Desire> = Vec::new();
        core::mem::swap(&mut staged, &mut self.desires);
        proof {
            assert(staged@ == old(self).desires@);
            assert(self.desires@.len() == 0);
        }
        let queue = Self::order_by_priority(staged);
        let n = queue.len();
        let mut k: usize = 0;
        while k < n
            invariant
                self.wf(),
                self.beliefs == old(self).beliefs,
                old(self).intentions.intentions@.is_prefix_of(self.intentions.intentions@),
                n == queue@.len(),
                n == old(self).desires@.len(),
                k <= n,
                self.desires@.len() <= k,
                forall|i1: int, i2: int|
                    0 <= i1 < i2 < n ==> (#[trigger] queue@[i1]).priority >= (
                    #[trigger] queue@[i2]).priority,
                forall|i: int| #![trigger self.desires@[i]]
                    0 <= i < self.desires@.len() ==> exists|p: int|
                        0 <= p < self.intentions.intentions@.len() && (
                        #[trigger] self.intentions.intentions@[p]).goal.name@
                            == self.desires@[i].goal.name@,
                forall|i: int, t: int|
                    0 <= i < self.desires@.len() && k <= t < n ==> (
                    #[trigger] self.desires@[i]).priority >= (#[trigger] queue@[t]).priority,
                forall|i1: int, i2: int|
                    0 <= i1 < i2 < self.desires@.len() ==> (#[trigger] self.desires@[i1]).priority
                        >= (#[trigger] self.desires@[i2]).priority,
                forall|p: int| #![trigger self.intentions.intentions@[p]]
                    old(self).intentions.intentions@.len() <= p < self.intentions.intentions@.len()
                        ==> self.intentions.intentions@[p].current_step == 0,
            decreases n - k,
        {
            let d = queue[k].clone();
            proof {
                assert(d.priority == queue@[k as int].priority);
                assert(d.goal.name@ == queue@[k as int].goal.name@);
            }
            if backs_goal(&self.intentions, d.goal.name.as_str()) {
                let ghost kd = self.desires@;
                let ghost gd = d;
                self.desires.push(d);
                proof {
                    assert(self.desires@ == kd.push(gd));
                    assert(self.desires@.last() == gd);
                    assert(gd.priority == queue@[k as int].priority);
                    assert(gd.goal.name@ == queue@[k as int].goal.name@);
                    lemma_desire_kept(
                        kd,
                        self.desires@,
                        self.intentions.intentions@,
                        queue@,
                        k as int,
                    );
                }
            } else if goal_satisfied(&d.goal, &self.beliefs) {
            } else {
                let planned = match goal_state(&d.goal) {
                    Ok(gst) => {
                        let ws = world_state_of(&self.beliefs);
                        match planner.plan(&ws, &gst) {
                            Ok(p) => Some(
                                crate::planning::plan::Plan {
                                    name: d.goal.name.clone(),
                                    actions: p.actions,
                                },
                            ),
                            Err(_) => None,
                        }
                    },
                    Err(_) => None,
                };
                match planned {
                    Some(p) => {
                        let it = Intention::new(d.goal.clone(), p);
                        let ghost git = it;
                        let ghost gd = d;
                        let ghost ki = self.intentions.intentions@;
                        let ghost kd = self.desires@;
                        self.intentions.push(it);
                        self.desires.push(d);
                        proof {
                            assert(self.intentions.intentions@ == ki.push(git));
                            assert(self.desires@ == kd.push(gd));
                            assert(self.intentions.intentions@.last() == git);
                            assert(self.desires@.last() == gd);
                            assert(git.current_step == 0);
                            assert(git.wf());
                            assert(git.goal.name@ == gd.goal.name@);
                            assert(gd.priority == queue@[k as int].priority);
                            lemma_desire_promoted(
                                kd,
                                self.desires@,
                                ki,
                                self.intentions.intentions@,
                                old(self).intentions.intentions@,
                                queue@,
                                k as int,
                            );
                        }
                    },
                    None => {
                        dropped.push(d.goal.name);
                    },
                }
            }
            k += 1;
        }
        dropped
    }

    /// One deliberation tick: merges the sensed updates, runs inference
    /// to a fixpoint and commits what it derives, weighs desires into
    /// intentions, drops completed intentions, and hands back the action
    /// at the top intention's cursor for the actuator to execute. The
    /// cursor itself moves only when `report_action_outcome` later
    /// reports success.
    pub fn tick(&mut self, updates: Vec<Belief>, planner: &Planner, engine: &ReasoningEngine) -> (r:
        Result<TickOutcome, CognitionError>)
        requires
            old(self).wf(),
        ensures
            final(self).wf(),
            match r {
                Ok(out) => settled(final(self).beliefs@, engine.rules@) && (out.action matches Some(
                    a,
                ) ==> final(self).intentions.intentions@.len() > 0 && {
                    let top = final(self).intentions.intentions@.last();
                    &&& !top.spec_completed()
                    &&& a.name@ == top.plan.actions@[top.current_step as int].name@
                    &&& a.meaning() == top.plan.actions@[top.current_step as int].meaning()
                }),
                Err(e) => (e matches CognitionError::BeliefRevisionFailed(_) || e matches
                    CognitionError::ReasoningError(_)) && final(self).desires == old(self).desires
                    && final(self).intentions == old(self).intentions,
            },
            (forall|i: int| 0 <= i < updates@.len() ==> (#[trigger] updates@[i]).wf()) && settled(
                committed(old(self).beliefs@, updates@),
                engine.rules@,
            ) ==> r is Ok,
    {
        match self.merge_updates(updates) {
            Ok(()) => {},
            Err(e) => {
                return Err(e);
            },
        }
        match self.run_inference(engine) {
            Ok(_) => {},
            Err(e) => {
                return Err(e);
            },
        }
        let dropped = self.deliberate(planner);
        self.intentions.remove_completed();
        let action = match self.intentions.current() {
            Some(top) => {
                if top.current_step < top.plan.actions.len() {
                    Some(top.plan.actions[top.current_step].clone())
                } else {
                    None
                }
            },
            None => None,
        };
        Ok(TickOutcome { action, dropped })
    }

    /// Feeds the actuator's report back. On success the top intention's
    /// cursor advances one action and completed intentions are dropped;
    /// on failure the cursor stays where it was and the top intention is
    /// replanned from the present world state, or dropped with the error
    /// surfaced when no plan reaches its goal any more.
    pub fn report_action_outcome(&mut self, success: bool, planner: &Planner) -> (r: Result<
        (),
        CognitionError,
    >)
        requires
            old(self).wf(),
        ensures
            final(self).wf(),
            final(self).beliefs == old(self).beliefs,
            final(self).desires == old(self).desires,
            match r {
                Ok(()) => true,
                Err(e) => e matches CognitionError::GoalNotAchievable(_) && !success && final(self).intentions.intentions@ == old(self).intentions.intentions@.drop_last(),
            },
            success ==> r is Ok && final(self).intentions.intentions@ == active_only(
                advanced_top(old(self).intentions.intentions@),
            ),
            !success && old(self).intentions.intentions@.len() == 0
                ==> final(self).intentions.intentions@ == old(self).intentions.intentions@,
            !success && old(self).intentions.intentions@.len() > 0 && r is Ok ==> {
                let olds = old(self).intentions.intentions@;
                let news = final(self).intentions.intentions@;
                news.len() == olds.len() && news.last().goal == olds.last().goal
                    && news.last().current_step == 0 && (forall|x: int|
                    0 <= x < olds.len() - 1 ==> news[x] == olds[x])
            },
    {
        if success {
            let ghost before = self.intentions.intentions@;
            self.intentions.advance_current();
            proof {
                if before.len() == 0 {
                    assert(self.intentions.intentions@ =~= advanced_top(before));
                } else {
                    let adv = advanced_top(before);
                    let lastv = (Intention {
                        goal: before.last().goal,
                        plan: before.last().plan,
                        current_step: stepped(
                            before.last().current_step as nat,
                            before.last().plan.actions@.len(),
                        ) as usize,
                    });
                    assert(adv == before.update(before.len() - 1, lastv));
                    assert(adv.len() == before.len());
                    assert forall|i: int|
                        0 <= i < adv.len() implies self.intentions.intentions@[i] == adv[i] by {
                        if i < before.len() - 1 {
                            assert(adv[i] == before[i]);
                        } else {
                            assert(adv[i] == lastv);
                            assert(self.intentions.intentions@.last().goal == lastv.goal);
                            assert(self.intentions.intentions@.last().plan == lastv.plan);
                            assert(self.intentions.intentions@.last().current_step
                                == lastv.current_step);
                        }
                    }
                    assert(self.intentions.intentions@ =~= adv);
                }
            }
            self.intentions.remove_completed();
            return Ok(());
        }
        let top = match self.intentions.pop() {
            Some(t) => t,
            None => {
                return Ok(());
            },
        };
        let gst = match goal_state(&top.goal) {
            Ok(g) => g,
            Err(e) => {
                return Err(e);
            },
        };
        let ws = world_state_of(&self.beliefs);
        match planner.plan(&ws, &gst) {
            Ok(p) => {
                let p = crate::planning::plan::Plan { name: top.goal.name.clone(), actions: p.actions };
                let ghost olds = self.intentions.intentions@;
                self.intentions.push(Intention::new(top.goal, p));
                proof {
                    assert(forall|x: int|
                        0 <= x < olds.len() ==> self.intentions.intentions@[x] == olds[x]);
                }
                Ok(())
            },
            Err(e) => Err(e),
        }
    }
}

impl Default for BDIAgent {
    fn default() -> (r: Self)
        ensures
            r.wf(),
            r.beliefs.beliefs@.len() == 0,
            r.desires@.len() == 0,
            r.intentions.intentions@.len() == 0,
    {
        BDIAgent::new()
    }
}

} // verus!
