use vstd::prelude::*;

verus! {

/// Aggregated outcomes of a batch of encode attempts.
///
/// The batch driver records one outcome per input and reports both tallies
/// at the end instead of aborting the whole run on the first failure.
pub struct BatchSummary {
    succeeded: usize,
    failed: usize,
}

impl BatchSummary {
    /// How many inputs encoded successfully.
    pub closed spec fn spec_succeeded(&self) -> usize {
        self.succeeded
    }

    /// How many inputs failed.
    pub closed spec fn spec_failed(&self) -> usize {
        self.failed
    }

    /// An empty summary: nothing processed yet.
    pub fn new() -> (s: BatchSummary)
        ensures
            s.spec_succeeded() == 0,
            s.spec_failed() == 0,
    {
        BatchSummary { succeeded: 0, failed: 0 }
    }

    /// Records one outcome: a success bumps the success tally, a failure
    /// the failure tally, and neither touches the other.
    pub fn record(&mut self, ok: bool)
        requires
            old(self).spec_succeeded() + old(self).spec_failed() < usize::MAX,
        ensures
            final(self).spec_succeeded() == old(self).spec_succeeded() + (if ok {
                1int
            } else {
                0int
            }),
            final(self).spec_failed() == old(self).spec_failed() + (if ok {
                0int
            } else {
                1int
            }),
    {
        if ok {
            self.succeeded = self.succeeded + 1;
        } else {
            self.failed = self.failed + 1;
        }
    }

    /// How many inputs encoded successfully.
    pub fn succeeded(&self) -> (n: usize)
        ensures
            n == self.spec_succeeded(),
    {
        self.succeeded
    }

    /// How many inputs failed.
    pub fn failed(&self) -> (n: usize)
        ensures
            n == self.spec_failed(),
    {
        self.failed
    }
}

} // verus!
