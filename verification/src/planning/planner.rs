use vstd::prelude::*;

use super::action::{Action, ActionMeaning};
use super::plan::Plan;
use super::state::State;
use crate::error::CognitionError;

verus! {

/// The planner expands at most this many search nodes; a goal that is not
/// reached within the bound is reported unreachable.
pub const MAX_SEARCH_NODES: usize = 4096;

/// Whether every precondition entry of `a` holds in `m`.
pub open spec fn meaning_applicable(m: Map<Seq<char>, Seq<char>>, a: ActionMeaning) -> bool {
    forall|i: int| #![trigger a.pre[i]]
        0 <= i < a.pre.len() ==> m.contains_key(a.pre[i].0) && m[a.pre[i].0] == a.pre[i].1
}

/// `m` overwritten by the entries of `s`, in order.
pub open spec fn apply_entries(
    m: Map<Seq<char>, Seq<char>>,
    s: Seq<(Seq<char>, Seq<char>)>,
) -> Map<Seq<char>, Seq<char>>
    decreases s.len(),
{
    if s.len() == 0 {
        m
    } else {
        apply_entries(m, s.drop_last()).insert(s.last().0, s.last().1)
    }
}

/// The state after applying `a` in `m`: keys overwritten per its effects.
pub open spec fn meaning_apply(
    m: Map<Seq<char>, Seq<char>>,
    a: ActionMeaning,
) -> Map<Seq<char>, Seq<char>> {
    apply_entries(m, a.eff)
}

/// The state after running the actions of `p` in order from `m`.
pub open spec fn run_meanings(
    m: Map<Seq<char>, Seq<char>>,
    p: Seq<ActionMeaning>,
) -> Map<Seq<char>, Seq<char>>
    decreases p.len(),
{
    if p.len() == 0 {
        m
    } else {
        run_meanings(meaning_apply(m, p[0]), p.drop_first())
    }
}

/// Whether each action of `p` is applicable in the state its predecessors
/// produce from `m`.
pub open spec fn meanings_applicable(m: Map<Seq<char>, Seq<char>>, p: Seq<ActionMeaning>) -> bool
    decreases p.len(),
{
    p.len() == 0 || (meaning_applicable(m, p[0]) && meanings_applicable(
        meaning_apply(m, p[0]),
        p.drop_first(),
    ))
}

/// The planning semantics of an action sequence.
pub open spec fn plan_meanings(acts: Seq<Action>) -> Seq<ActionMeaning> {
    acts.map_values(|a: Action| a.meaning())
}

/// Whether `m` satisfies every key-value pair of the goal state `g`.
pub open spec fn goal_holds(m: Map<Seq<char>, Seq<char>>, g: Map<Seq<char>, Seq<char>>) -> bool {
    forall|k: Seq<char>| #[trigger] g.dom().contains(k) ==> m.contains_key(k) && m[k] == g[k]
}

/// Whether `a` agrees in name and planning semantics with one of the
/// available actions.
pub open spec fn action_of(acts: Seq<Action>, a: Action) -> bool {
    exists|ai: int| #![auto]
        0 <= ai < acts.len() && a.name@ == acts[ai].name@ && a.meaning() == acts[ai].meaning()
}

/// Every index of `p` names an available action.
pub open spec fn path_ok(p: Seq<usize>, acts: Seq<Action>) -> bool {
    forall|t: int| 0 <= t < p.len() ==> p[t] < acts.len()
}

/// Some single available action is applicable in `init` and its outcome
/// already satisfies the goal.
pub open spec fn one_step_reaches(
    acts: Seq<Action>,
    init: Map<Seq<char>, Seq<char>>,
    g: Map<Seq<char>, Seq<char>>,
) -> bool {
    exists|ai: int| #![auto]
        0 <= ai < acts.len() && meaning_applicable(init, acts[ai].meaning()) && goal_holds(
            meaning_apply(init, acts[ai].meaning()),
            g,
        )
}

/// Running an action sequence extended by one action first runs the
/// sequence, then applies the extra action to its outcome.
pub proof fn lemma_run_push(m: Map<Seq<char>, Seq<char>>, p: Seq<ActionMeaning>, a: ActionMeaning)
    ensures
        run_meanings(m, p.push(a)) == meaning_apply(run_meanings(m, p), a),
        meanings_applicable(m, p.push(a)) == (meanings_applicable(m, p) && meaning_applicable(
            run_meanings(m, p),
            a,
        )),
    decreases p.len(),
{
    let pa = p.push(a);
    if p.len() == 0 {
        assert(pa[0] == a);
        assert(pa.drop_first() =~= Seq::<ActionMeaning>::empty());
        assert(run_meanings(m, pa) == run_meanings(meaning_apply(m, a), pa.drop_first()));
        assert(run_meanings(meaning_apply(m, a), pa.drop_first()) == meaning_apply(m, a));
        assert(run_meanings(m, p) == m);
        assert(meanings_applicable(m, pa) == (meaning_applicable(m, a) && meanings_applicable(
            meaning_apply(m, a),
            pa.drop_first(),
        )));
        assert(meanings_applicable(meaning_apply(m, a), pa.drop_first()));
        assert(meanings_applicable(m, p));
    } else {
        let ma = meaning_apply(m, p[0]);
        assert(pa[0] == p[0]);
        assert(pa.drop_first() =~= p.drop_first().push(a));
        lemma_run_push(ma, p.drop_first(), a);
        assert(run_meanings(m, pa) == run_meanings(ma, pa.drop_first()));
        assert(run_meanings(m, p) == run_meanings(ma, p.drop_first()));
        assert(meanings_applicable(m, pa) == (meaning_applicable(m, p[0]) && meanings_applicable(
            ma,
            pa.drop_first(),
        )));
        assert(meanings_applicable(m, p) == (meaning_applicable(m, p[0]) && meanings_applicable(
            ma,
            p.drop_first(),
        )));
    }
}

/// Whether `state` satisfies every key-value pair of the goal state.
pub fn satisfies_goal(state: &State, goal: &State) -> (r: bool)
    requires
        state.wf(),
        goal.wf(),
    ensures
        r == goal_holds(state@, goal@),
{
    let n = goal.vars.len();
    let mut i: usize = 0;
    while i < n
        invariant
            state.wf(),
            goal.wf(),
            n == goal.vars@.len(),
            i <= n,
            forall|j: int| #![trigger goal.entries()[j]]
                0 <= j < i ==> state@.contains_key(goal.entries()[j].0) && state@[goal.entries()[j].0]
                    == goal.entries()[j].1,
        decreases n - i,
    {
        proof {
            crate::kvmap::lemma_assoc_index(goal.entries(), i as int);
        }
        if !state.matches(goal.vars[i].0.as_str(), goal.vars[i].1.as_str()) {
            proof {
                let k = goal.entries()[i as int].0;
                assert(goal@.dom().contains(k));
                assert(!(state@.contains_key(k) && state@[k] == goal@[k]));
            }
            return false;
        }
        i += 1;
    }
    proof {
        assert forall|k: Seq<char>| #[trigger] goal@.dom().contains(k) implies state@.contains_key(k)
            && state@[k] == goal@[k] by {
            crate::kvmap::lemma_assoc_contains(goal.entries(), k);
            let j = choose|j: int| 0 <= j < goal.entries().len() && goal.entries()[j].0 == k;
            assert(goal.entries()[j].0 == k);
            crate::kvmap::lemma_assoc_index(goal.entries(), j);
        }
    }
    true
}

/// Whether every precondition of `action` holds in `state`.
pub fn action_applicable(state: &State, action: &Action) -> (r: bool)
    requires
        state.wf(),
    ensures
        r == meaning_applicable(state@, action.meaning()),
{
    let n = action.preconditions.len();
    let mut i: usize = 0;
    while i < n
        invariant
            state.wf(),
            n == action.preconditions@.len(),
            i <= n,
            forall|j: int| #![trigger action.meaning().pre[j]]
                0 <= j < i ==> state@.contains_key(action.meaning().pre[j].0) && state@[action.meaning().pre[j].0]
                    == action.meaning().pre[j].1,
        decreases n - i,
    {
        if !state.matches(action.preconditions[i].0.as_str(), action.preconditions[i].1.as_str()) {
            proof {
                assert(action.meaning().pre[i as int] == (
                    action.preconditions@[i as int].0@,
                    action.preconditions@[i as int].1@,
                ));
            }
            return false;
        }
        i += 1;
    }
    true
}

/// The state that applying `action` in `state` produces: each effect key
/// overwritten with its effect value, in order.
pub fn apply_action(state: &State, action: &Action) -> (r: State)
    requires
        state.wf(),
    ensures
        r.wf(),
        r@ == meaning_apply(state@, action.meaning()),
{
    let mut cur = state.clone();
    let n = action.effects.len();
    proof {
        assert(action.meaning().eff.subrange(0, 0) =~= Seq::<(Seq<char>, Seq<char>)>::empty());
    }
    let mut i: usize = 0;
    while i < n
        invariant
            cur.wf(),
            n == action.effects@.len(),
            i <= n,
            cur@ == apply_entries(state@, action.meaning().eff.subrange(0, i as int)),
        decreases n - i,
    {
        cur = cur.set(action.effects[i].0.as_str(), action.effects[i].1.as_str());
        proof {
            let eff = action.meaning().eff;
            assert(eff.subrange(0, i + 1 as int).drop_last() =~= eff.subrange(0, i as int));
            assert(eff.subrange(0, i + 1 as int).last() == eff[i as int]);
            assert(eff[i as int] == (action.effects@[i as int].0@, action.effects@[i as int].1@));
        }
        i += 1;
    }
    proof {
        assert(action.meaning().eff.subrange(0, n as int) =~= action.meaning().eff);
    }
    cur
}

/// Copies a vector of action indices.
fn clone_indices(v: &Vec<usize>) -> (r: Vec<usize>)
    ensures
        r@ == v@,
{
    let n = v.len();
    let mut out: Vec<usize> = Vec::new();
    let mut i: usize = 0;
    while i < n
        invariant
            n == v@.len(),
            i <= n,
            out@ == v@.subrange(0, i as int),
        decreases n - i,
    {
        out.push(v[i]);
        proof {
            assert(out@ =~= v@.subrange(0, i + 1 as int));
        }
        i += 1;
    }
    proof {
        assert(out@ =~= v@);
    }
    out
}

/// Whether some already-enqueued state carries exactly the same facts.
fn contains_equivalent(states: &Vec<State>, s: &State) -> (r: bool)
    requires
        s.wf(),
        forall|i: int| #![trigger states@[i]] 0 <= i < states@.len() ==> states@[i].wf(),
    ensures
        r ==> exists|i: int| 0 <= i < states@.len() && #[trigger] states@[i]@ == s@,
{
    let n = states.len();
    let mut i: usize = 0;
    while i < n
        invariant
            s.wf(),
            n == states@.len(),
            i <= n,
            forall|j: int| #![trigger states@[j]] 0 <= j < states@.len() ==> states@[j].wf(),
        decreases n - i,
    {
        if states[i].equivalent(s) {
            proof {
                assert(states@[i as int]@ == s@);
            }
            return true;
        }
        i += 1;
    }
    false
}

/// A breadth-first STRIPS-style planner over explicit world states. It
/// searches the states reachable from the initial state through the
/// available actions, deduplicating visited states by exact equality and
/// stopping at `MAX_SEARCH_NODES` expansions.
#[derive(Debug)]
pub struct Planner {
    pub actions: Vec<Action>,
}

impl Planner {
    /// The planning semantics of an index path through the action list.
    pub open spec fn path_meanings(&self, p: Seq<usize>) -> Seq<ActionMeaning> {
        p.map_values(|x: usize| self.actions@[x as int].meaning())
    }

    /// Creates a planner with no available actions.
    pub fn new() -> (r: Self)
        ensures
            r.actions@.len() == 0,
    {
        Planner { actions: Vec::new() }
    }

    /// Creates a planner over the given available actions.
    pub fn with_actions(actions: Vec<Action>) -> (r: Self)
        ensures
            r.actions == actions,
    {
        Planner { actions }
    }

    /// Makes one more action available.
    pub fn add_action(&mut self, action: Action)
        ensures
            final(self).actions@ == old(self).actions@.push(action),
    {
        self.actions.push(action);
    }

    /// The available actions.
    pub fn actions(&self) -> (r: &Vec<Action>)
        ensures
            r == &self.actions,
    {
        &self.actions
    }

    /// Searches breadth-first for an action sequence that turns `initial`
    /// into a state satisfying every key-value pair of `goal`. The plan
    /// returned is sound: run action by action from `initial`, each action
    /// is applicable when its turn comes and the final state satisfies the
    /// goal. A goal already satisfied yields the empty plan; exhaustion of
    /// the bounded search reports the goal unreachable.
    pub fn plan(&self, initial: &State, goal: &State) -> (r: Result<Plan, CognitionError>)
        requires
            initial.wf(),
            goal.wf(),
        ensures
            match r {
                Ok(p) => meanings_applicable(initial@, plan_meanings(p.actions@)) && goal_holds(
                    run_meanings(initial@, plan_meanings(p.actions@)),
                    goal@,
                ) && p.name@ == "goal_plan"@ && forall|j: int| #![trigger p.actions@[j]]
                    0 <= j < p.actions@.len() ==> action_of(self.actions@, p.actions@[j]),
                Err(e) => e matches CognitionError::GoalNotAchievable(_) && !goal_holds(
                    initial@,
                    goal@,
                ),
            },
            goal_holds(initial@, goal@) ==> (r matches Ok(p) && p.actions@.len() == 0),
            self.actions@.len() < MAX_SEARCH_NODES && one_step_reaches(self.actions@, initial@, goal@)
                ==> r is Ok,
    {
        let mut qs: Vec<State> = Vec::new();
        let mut qp: Vec<Vec<usize>> = Vec::new();
        qs.push(initial.clone());
        qp.push(Vec::new());
        proof {
            assert(self.path_meanings(qp@[0]@) =~= Seq::<ActionMeaning>::empty());
        }
        let mut head: usize = 0;
        while head < qs.len()
            invariant
                initial.wf(),
                goal.wf(),
                qs@.len() == qp@.len(),
                1 <= qs@.len() <= MAX_SEARCH_NODES,
                head <= qs@.len(),
                qp@[0]@.len() == 0,
                qs@[0]@ == initial@,
                forall|n: int| #![trigger qs@[n]] 0 <= n < qs@.len() ==> qs@[n].wf(),
                forall|n: int| #![trigger qp@[n]]
                    0 <= n < qp@.len() ==> path_ok(qp@[n]@, self.actions@),
                forall|n: int| #![trigger qp@[n]]
                    0 <= n < qp@.len() ==> meanings_applicable(initial@, self.path_meanings(qp@[n]@))
                        && run_meanings(initial@, self.path_meanings(qp@[n]@)) == qs@[n]@,
                forall|n: int| #![trigger qs@[n]] 0 <= n < head ==> !goal_holds(qs@[n]@, goal@),
                head == 0 ==> qs@.len() == 1,
                self.actions@.len() < MAX_SEARCH_NODES && one_step_reaches(
                    self.actions@,
                    initial@,
                    goal@,
                ) && head > 0 ==> exists|n: int| #![auto]
                    0 <= n < qs@.len() && goal_holds(qs@[n]@, goal@),
            decreases MAX_SEARCH_NODES - head,
        {
            if satisfies_goal(&qs[head], goal) {
                let m = qp[head].len();
                let mut p = Plan::new("goal_plan");
                proof {
                    assert(plan_meanings(p.actions@) =~= self.path_meanings(
                        qp@[head as int]@.subrange(0, 0),
                    ));
                }
                let mut t: usize = 0;
                while t < m
                    invariant
                        head < qp@.len(),
                        m == qp@[head as int]@.len(),
                        t <= m,
                        path_ok(qp@[head as int]@, self.actions@),
                        plan_meanings(p.actions@) == self.path_meanings(
                            qp@[head as int]@.subrange(0, t as int),
                        ),
                        p.name@ == "goal_plan"@,
                        forall|j: int| #![trigger p.actions@[j]]
                            0 <= j < p.actions@.len() ==> action_of(self.actions@, p.actions@[j]),
                    decreases m - t,
                {
                    let ai = qp[head][t];
                    let act = self.actions[ai].clone();
                    let ghost oldacts = p.actions@;
                    p = p.add_action(act);
                    proof {
                        let path = qp@[head as int]@;
                        assert(p.actions@ == oldacts.push(act));
                        assert(plan_meanings(oldacts) == self.path_meanings(
                            path.subrange(0, t as int),
                        ));
                        assert(plan_meanings(oldacts).len() == oldacts.len());
                        assert(self.path_meanings(path.subrange(0, t as int)).len() == t);
                        assert(oldacts.len() == t);
                        assert(path.subrange(0, t + 1 as int) =~= path.subrange(0, t as int).push(
                            path[t as int],
                        ));
                        assert forall|j: int| 0 <= j < p.actions@.len() implies plan_meanings(
                            p.actions@,
                        )[j] == self.path_meanings(path.subrange(0, t + 1 as int))[j] by {
                            if j < t {
                                assert(p.actions@[j] == oldacts[j]);
                                assert(plan_meanings(oldacts)[j] == oldacts[j].meaning());
                                assert(self.path_meanings(path.subrange(0, t as int))[j]
                                    == self.actions@[path.subrange(0, t as int)[j] as int].meaning());
                            } else {
                                assert(p.actions@[j] == act);
                                assert(act.meaning() == self.actions@[ai as int].meaning());
                                assert(path.subrange(0, t + 1 as int)[j] == path[t as int]);
                            }
                        }
                        assert(plan_meanings(p.actions@) =~= self.path_meanings(
                            path.subrange(0, t + 1 as int),
                        ));
                        assert(act.name@ == self.actions@[ai as int].name@);
                        assert(act.meaning() == self.actions@[ai as int].meaning());
                        assert(action_of(self.actions@, act));
                        assert forall|j: int| #![trigger p.actions@[j]]
                            0 <= j < p.actions@.len() implies action_of(
                            self.actions@,
                            p.actions@[j],
                        ) by {
                            if j < t {
                                assert(p.actions@[j] == oldacts[j]);
                            } else {
                                assert(p.actions@[j] == act);
                            }
                        }
                    }
                    t += 1;
                }
                proof {
                    assert(qp@[head as int]@.subrange(0, m as int) =~= qp@[head as int]@);
                    if head > 0 {
                        assert(!goal_holds(qs@[0]@, goal@));
                    }
                }
                return Ok(p);
            }
            let na = self.actions.len();
            let mut ai: usize = 0;
            while ai < na
                invariant
                    initial.wf(),
                    goal.wf(),
                    na == self.actions@.len(),
                    ai <= na,
                    head < qs@.len(),
                    qs@.len() == qp@.len(),
                    1 <= qs@.len() <= MAX_SEARCH_NODES,
                    qp@[0]@.len() == 0,
                    qs@[0]@ == initial@,
                    forall|n: int| #![trigger qs@[n]] 0 <= n < qs@.len() ==> qs@[n].wf(),
                    forall|n: int| #![trigger qp@[n]]
                        0 <= n < qp@.len() ==> path_ok(qp@[n]@, self.actions@),
                    forall|n: int| #![trigger qp@[n]]
                        0 <= n < qp@.len() ==> meanings_applicable(
                            initial@,
                            self.path_meanings(qp@[n]@),
                        ) && run_meanings(initial@, self.path_meanings(qp@[n]@)) == qs@[n]@,
                    forall|n: int| #![trigger qs@[n]] 0 <= n < head ==> !goal_holds(qs@[n]@, goal@),
                    !goal_holds(qs@[head as int]@, goal@),
                    head == 0 ==> qs@.len() <= 1 + ai,
                    self.actions@.len() < MAX_SEARCH_NODES && one_step_reaches(
                        self.actions@,
                        initial@,
                        goal@,
                    ) && head > 0 ==> exists|n: int| #![auto]
                        0 <= n < qs@.len() && goal_holds(qs@[n]@, goal@),
                    head == 0 && self.actions@.len() < MAX_SEARCH_NODES ==> forall|x: int|
                        #![trigger self.actions@[x]]
                        0 <= x < ai && meaning_applicable(initial@, self.actions@[x].meaning())
                            && goal_holds(
                            meaning_apply(initial@, self.actions@[x].meaning()),
                            goal@,
                        ) ==> exists|n: int| #![auto]
                            0 <= n < qs@.len() && goal_holds(qs@[n]@, goal@),
                decreases na - ai,
            {
                let ghost qs0 = qs@;
                if qs.len() < MAX_SEARCH_NODES && action_applicable(&qs[head], &self.actions[ai]) {
                    let ns = apply_action(&qs[head], &self.actions[ai]);
                    let dup = contains_equivalent(&qs, &ns);
                    if !dup {
                        let mut np = clone_indices(&qp[head]);
                        np.push(ai);
                        proof {
                            let base = qp@[head as int]@;
                            assert(np@ =~= base.push(ai));
                            assert(self.path_meanings(np@) =~= self.path_meanings(base).push(
                                self.actions@[ai as int].meaning(),
                            ));
                            lemma_run_push(
                                initial@,
                                self.path_meanings(base),
                                self.actions@[ai as int].meaning(),
                            );
                        }
                        qp.push(np);
                        qs.push(ns);
                    }
                    proof {
                        if head == 0 {
                            assert(ns@ == meaning_apply(
                                initial@,
                                self.actions@[ai as int].meaning(),
                            ));
                            if goal_holds(ns@, goal@) {
                                if dup {
                                    let i0 = choose|i: int|
                                        0 <= i < qs0.len() && #[trigger] qs0[i]@ == ns@;
                                    assert(qs@[i0]@ == ns@);
                                    assert(goal_holds(qs@[i0]@, goal@));
                                } else {
                                    assert(qs@[qs@.len() - 1]@ == ns@);
                                    assert(goal_holds(qs@[qs@.len() - 1]@, goal@));
                                }
                                assert(exists|n: int| #![auto]
                                    0 <= n < qs@.len() && goal_holds(qs@[n]@, goal@));
                            }
                        }
                    }
                }
                proof {
                    if head > 0 && self.actions@.len() < MAX_SEARCH_NODES && one_step_reaches(
                        self.actions@,
                        initial@,
                        goal@,
                    ) {
                        let n0 = choose|n: int| #![auto]
                            0 <= n < qs0.len() && goal_holds(qs0[n]@, goal@);
                        assert(qs@[n0] == qs0[n0]);
                        assert(goal_holds(qs@[n0]@, goal@));
                        assert(exists|n: int| #![auto]
                            0 <= n < qs@.len() && goal_holds(qs@[n]@, goal@));
                    }
                    if head == 0 && self.actions@.len() < MAX_SEARCH_NODES {
                        assert forall|x: int| #![trigger self.actions@[x]]
                            0 <= x < ai + 1 && meaning_applicable(
                                initial@,
                                self.actions@[x].meaning(),
                            ) && goal_holds(
                                meaning_apply(initial@, self.actions@[x].meaning()),
                                goal@,
                            ) implies exists|n: int| #![auto]
                            0 <= n < qs@.len() && goal_holds(qs@[n]@, goal@) by {
                            if x < ai {
                                assert(exists|n: int| #![auto]
                                    0 <= n < qs0.len() && goal_holds(qs0[n]@, goal@));
                                let n0 = choose|n: int| #![auto]
                                    0 <= n < qs0.len() && goal_holds(qs0[n]@, goal@);
                                assert(qs@[n0] == qs0[n0]);
                                assert(goal_holds(qs@[n0]@, goal@));
                            }
                        }
                    }
                }
                ai += 1;
            }
            proof {
                if head == 0 && self.actions@.len() < MAX_SEARCH_NODES && one_step_reaches(
                    self.actions@,
                    initial@,
                    goal@,
                ) {
                    let ai0 = choose|ai0: int| #![auto]
                        0 <= ai0 < self.actions@.len() && meaning_applicable(
                            initial@,
                            self.actions@[ai0].meaning(),
                        ) && goal_holds(
                            meaning_apply(initial@, self.actions@[ai0].meaning()),
                            goal@,
                        );
                    assert(0 <= ai0 < self.actions@.len() && meaning_applicable(
                        initial@,
                        self.actions@[ai0].meaning(),
                    ));
                    assert(exists|n: int| #![auto]
                        0 <= n < qs@.len() && goal_holds(qs@[n]@, goal@));
                }
            }
            head += 1;
        }
        proof {
            assert(!goal_holds(qs@[0]@, goal@));
            if self.actions@.len() < MAX_SEARCH_NODES && one_step_reaches(
                self.actions@,
                initial@,
                goal@,
            ) {
                let n0 = choose|n: int| #![auto] 0 <= n < qs@.len() && goal_holds(qs@[n]@, goal@);
                assert(!goal_holds(qs@[n0]@, goal@));
                assert(false);
            }
        }
        Err(
            CognitionError::GoalNotAchievable(
                "the goal is unreachable within the search bound".to_owned(),
            ),
        )
    }
}

impl Default for Planner {
    fn default() -> (r: Self)
        ensures
            r.actions@.len() == 0,
    {
        Planner::new()
    }
}

} // verus!
