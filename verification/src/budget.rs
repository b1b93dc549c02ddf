//! The concurrency budget: a counter of requests in flight that never
//! passes its limit.

use vstd::prelude::*;

verus! {

/// A counting budget. A unit is taken before a request is made and given
/// back when the request has ended, however it ended.
#[derive(Debug)]
pub struct ConcurrencyBudget {
    limit: usize,
    in_flight: usize,
}

impl ConcurrencyBudget {
    #[verifier::type_invariant]
    spec fn within_limit(self) -> bool {
        self.in_flight <= self.limit
    }

    /// The greatest number of units that can be held at once.
    pub closed spec fn cap(self) -> nat {
        self.limit as nat
    }

    /// The number of units held now.
    pub closed spec fn held(self) -> nat {
        self.in_flight as nat
    }

    /// A budget of `limit` units, none of them held.
    pub fn new(limit: usize) -> (budget: ConcurrencyBudget)
        ensures
            budget.cap() == limit,
            budget.held() == 0,
    {
        ConcurrencyBudget { limit, in_flight: 0 }
    }

    /// The greatest number of units that can be held at once.
    pub fn limit(&self) -> (limit: usize)
        ensures
            limit == self.cap(),
    {
        self.limit
    }

    /// The number of units held now. It is never above the limit.
    pub fn in_flight(&self) -> (held: usize)
        ensures
            held == self.held(),
            held <= self.cap(),
    {
        proof {
            use_type_invariant(self);
        }
        self.in_flight
    }

    /// The number of units that can still be taken.
    pub fn available(&self) -> (free: usize)
        ensures
            free == self.cap() - self.held(),
    {
        proof {
            use_type_invariant(self);
        }
        self.limit - self.in_flight
    }

    /// Takes one unit if one is free, and says whether it did.
    pub fn try_acquire(&mut self) -> (taken: bool)
        ensures
            taken == (old(self).held() < old(self).cap()),
            final(self).cap() == old(self).cap(),
            final(self).held() == old(self).held() + if taken { 1nat } else { 0nat },
            final(self).held() <= final(self).cap(),
    {
        proof {
            use_type_invariant(&*self);
        }
        if self.in_flight < self.limit {
            self.in_flight = self.in_flight + 1;
            true
        } else {
            false
        }
    }

    /// Gives one unit back if one is held, and says whether it did.
    pub fn release(&mut self) -> (given: bool)
        ensures
            given == (old(self).held() > 0),
            final(self).cap() == old(self).cap(),
            final(self).held() == old(self).held() - if given { 1nat } else { 0nat },
            final(self).held() <= final(self).cap(),
    {
        proof {
            use_type_invariant(&*self);
        }
        if self.in_flight > 0 {
            self.in_flight = self.in_flight - 1;
            true
        } else {
            false
        }
    }
}

} // verus!
