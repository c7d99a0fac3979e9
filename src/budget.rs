//! A cooperative iteration budget: after a fixed number of items, an iteration over
//! shared state hands control back to the scheduler before going on.
use vstd::prelude::*;

verus! {

/// Counts the items handed out since the iteration last yielded.
pub struct IterationBudget {
    budget: usize,
    counter: usize,
}

impl IterationBudget {
    pub closed spec fn spec_budget(self) -> nat {
        self.budget as nat
    }

    /// Items handed out since the last yield.
    pub closed spec fn spec_counter(self) -> nat {
        self.counter as nat
    }

    pub open spec fn wf(self) -> bool {
        self.spec_counter() <= self.spec_budget()
    }

    /// A budget of `budget` items between two yields.
    pub fn new(budget: usize) -> (r: Self)
        ensures
            r.wf(),
            r.spec_budget() == budget,
            r.spec_counter() == 0,
    {
        IterationBudget { budget, counter: 0 }
    }

    pub fn budget(&self) -> (r: usize)
        ensures
            r == self.spec_budget(),
    {
        self.budget
    }

    /// Decides the next poll: `true` to hand out one more item, `false` to yield now.
    ///
    /// Once the budget is spent the counter starts again from zero and the caller yields
    /// (after waking itself); otherwise one more item is counted.
    pub fn poll_step(&mut self) -> (r: bool)
        requires
            old(self).wf(),
        ensures
            final(self).wf(),
            final(self).spec_budget() == old(self).spec_budget(),
            r == (old(self).spec_counter() != old(self).spec_budget()),
            r ==> final(self).spec_counter() == old(self).spec_counter() + 1,
            !r ==> final(self).spec_counter() == 0,
    {
        if self.counter == self.budget {
            self.counter = 0;
            false
        } else {
            self.counter = self.counter + 1;
            true
        }
    }
}

} // verus!
