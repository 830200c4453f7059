use vstd::prelude::*;

verus! {

/// An in-flight limit: a finite count, or no bound at all.
#[derive(Clone, Copy, Debug, PartialEq, Eq, Structural)]
pub enum Limit {
    Finite(u32),
    Unbounded,
}

impl Limit {
    /// The bound that a count of in-flight tasks must stay strictly below.
    /// No bound is an effectively infinite one, not a separate case.
    pub open spec fn cap(self) -> int {
        match self {
            Limit::Finite(n) => n as int,
            Limit::Unbounded => u64::MAX as int,
        }
    }

    /// Whether one more task may start while `count` are in flight.
    pub open spec fn admits(self, count: int) -> bool {
        count < self.cap()
    }

    pub fn bound(&self) -> (r: u64)
        ensures
            r as int == self.cap(),
    {
        match self {
            Limit::Finite(n) => *n as u64,
            Limit::Unbounded => u64::MAX,
        }
    }
}

/// The limits that scheduling reads at each dequeue.
#[derive(Clone, Copy, Debug, PartialEq, Eq, Structural)]
pub struct Limits {
    pub global: Limit,
    pub per_domain: Limit,
}

} // verus!
