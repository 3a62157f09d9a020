use vstd::prelude::*;

use super::intention::{stepped, Intention};

verus! {

/// The subsequence of intentions that are not yet completed, in order.
pub open spec fn active_only(s: Seq<Intention>) -> Seq<Intention> {
    s.filter(|i: Intention| !i.spec_completed())
}

/// The stack after advancing the top intention's cursor one action; an
/// empty stack is left as it is.
pub open spec fn advanced_top(s: Seq<Intention>) -> Seq<Intention> {
    if s.len() == 0 {
        s
    } else {
        s.update(
            s.len() - 1,
            (Intention {
                goal: s.last().goal,
                plan: s.last().plan,
                current_step: stepped(
                    s.last().current_step as nat,
                    s.last().plan.actions@.len(),
                ) as usize,
            }),
        )
    }
}

/// The runtime commitment structure: a stack of intentions, the most
/// recently pushed on top, consumed and reconsidered by the deliberation
/// cycle.
#[derive(Debug)]
pub struct IntentionStack {
    pub intentions: Vec<Intention>,
}

impl IntentionStack {
    /// Every held intention keeps its cursor inside its plan.
    pub open spec fn wf(&self) -> bool {
        forall|i: int| #![trigger self.intentions@[i]]
            0 <= i < self.intentions@.len() ==> self.intentions@[i].wf()
    }

    /// Creates an empty stack.
    pub fn new() -> (r: Self)
        ensures
            r.intentions@.len() == 0,
            r.wf(),
    {
        IntentionStack { intentions: Vec::new() }
    }

    /// Pushes an intention on top.
    pub fn push(&mut self, intention: Intention)
        ensures
            final(self).intentions@ == old(self).intentions@.push(intention),
    {
        self.intentions.push(intention);
    }

    /// Pops the top intention, if any.
    pub fn pop(&mut self) -> (r: Option<Intention>)
        ensures
            match r {
                Some(i) => old(self).intentions@.len() > 0 && i == old(self).intentions@.last()
                    && final(self).intentions@ == old(self).intentions@.drop_last(),
                None => old(self).intentions@.len() == 0 && final(self).intentions@ == old(
                    self,
                ).intentions@,
            },
    {
        self.intentions.pop()
    }

    /// The top intention, if any.
    pub fn current(&self) -> (r: Option<&Intention>)
        ensures
            match r {
                Some(i) => self.intentions@.len() > 0 && *i == self.intentions@.last(),
                None => self.intentions@.len() == 0,
            },
    {
        if self.intentions.len() == 0 {
            None
        } else {
            Some(&self.intentions[self.intentions.len() - 1])
        }
    }

    /// Advances the cursor of the top intention past one executed action;
    /// without a top intention this changes nothing.
    pub fn advance_current(&mut self)
        ensures
            old(self).intentions@.len() == 0 ==> final(self).intentions@ == old(self).intentions@,
            old(self).intentions@.len() > 0 ==> {
                &&& final(self).intentions@.len() == old(self).intentions@.len()
                &&& forall|i: int| 0 <= i < old(self).intentions@.len() - 1
                    ==> final(self).intentions@[i] == old(self).intentions@[i]
                &&& final(self).intentions@.last().goal == old(self).intentions@.last().goal
                &&& final(self).intentions@.last().plan == old(self).intentions@.last().plan
                &&& final(self).intentions@.last().current_step == crate::bdi::intention::stepped(
                    old(self).intentions@.last().current_step as nat,
                    old(self).intentions@.last().plan.actions@.len(),
                )
            },
            old(self).wf() ==> final(self).wf(),
    {
        let n = self.intentions.len();
        if n > 0 {
            let mut top = self.intentions.pop().unwrap();
            top.next_step();
            self.intentions.push(top);
            proof {
                assert(forall|i: int|
                    0 <= i < old(self).intentions@.len() - 1 ==> final(self).intentions@[i] == old(
                        self,
                    ).intentions@[i]);
            }
        }
    }

    /// Drops every completed intention, keeping the rest in order.
    pub fn remove_completed(&mut self)
        ensures
            final(self).intentions@ == active_only(old(self).intentions@),
            old(self).wf() ==> final(self).wf(),
    {
        let ghost orig = self.intentions@;
        let ghost n = orig.len() as int;
        let mut out: Vec<Intention> = Vec::new();
        let ghost mut taken: int = 0;
        proof {
            reveal(Seq::filter);
            assert(orig.subrange(0, 0) =~= Seq::<Intention>::empty());
            assert(active_only(orig.subrange(0, 0)) =~= Seq::<Intention>::empty());
            assert(self.intentions@ =~= orig.subrange(0, n));
        }
        while self.intentions.len() > 0
            invariant
                n == orig.len() as int,
                0 <= taken <= n,
                self.intentions@ == orig.subrange(taken, n),
                out@ == active_only(orig.subrange(0, taken)),
            decreases self.intentions@.len(),
        {
            let ghost pre = self.intentions@;
            let it = self.intentions.remove(0);
            proof {
                assert(pre == orig.subrange(taken, n));
                assert(orig.subrange(taken, n)[0] == orig[taken]);
                assert(it == orig[taken]);
                assert(self.intentions@ == pre.remove(0));
                assert(self.intentions@ =~= orig.subrange(taken + 1, n));
                reveal(Seq::filter);
                assert(orig.subrange(0, taken + 1).drop_last() =~= orig.subrange(0, taken));
                assert(orig.subrange(0, taken + 1).last() == orig[taken]);
            }
            if !it.is_completed() {
                out.push(it);
            }
            proof {
                taken = taken + 1;
            }
        }
        proof {
            assert(orig.subrange(0, n) =~= orig);
        }
        self.intentions = out;
    }

    /// Whether the stack holds no intention.
    pub fn is_empty(&self) -> (r: bool)
        ensures
            r == (self.intentions@.len() == 0),
    {
        self.intentions.len() == 0
    }

    /// The number of held intentions.
    pub fn len(&self) -> (r: usize)
        ensures
            r == self.intentions@.len(),
    {
        self.intentions.len()
    }

    /// Drops every intention.
    pub fn clear(&mut self)
        ensures
            final(self).intentions@.len() == 0,
            final(self).wf(),
    {
        self.intentions = Vec::new();
    }
}

impl Default for IntentionStack {
    fn default() -> (r: Self)
        ensures
            r.intentions@.len() == 0,
            r.wf(),
    {
        IntentionStack::new()
    }
}

} // verus!
