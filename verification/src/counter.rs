//! The shared counter of the shared-state demonstration.
//!
//! In the running demonstration the counter sits behind a reference-counted
//! mutex shared by all incrementing threads.  The mutex serialises access, so
//! every concurrent history is some sequence of the calls below; what is
//! proved of every call sequence therefore holds of every interleaving.  The
//! harness that owns the real mutex lives outside the library.

use vstd::prelude::*;
use vstd::arithmetic::mul::lemma_mul_inequality;

verus! {

/// A monotone counter: the value the demonstration's mutex protects.
pub struct Counter {
    value: usize,
}

impl Counter {
    /// The current count.
    pub closed spec fn spec_value(&self) -> nat {
        self.value as nat
    }

    /// A fresh counter starting at zero.
    pub fn new() -> (c: Counter)
        ensures
            c.spec_value() == 0,
    {
        Counter { value: 0 }
    }

    /// Add one to the counter.
    ///
    /// Each call grows the count by exactly one, so `k` calls grow it by
    /// exactly `k`, however the calling threads interleave.
    pub fn increment(&mut self)
        requires
            old(self).spec_value() < usize::MAX,
        ensures
            final(self).spec_value() == old(self).spec_value() + 1,
    {
        self.value = self.value + 1;
    }

    /// Read the current count.
    pub fn get_value(&self) -> (v: usize)
        ensures
            v == self.spec_value(),
    {
        self.value
    }
}

/// The count the shared-state demonstration must reach: `num_threads`
/// incrementing threads, each performing `increments_per_thread` increments,
/// leave the counter at exactly their product — no update is lost.
pub fn run_increments(num_threads: usize, increments_per_thread: usize) -> (total: usize)
    requires
        num_threads * increments_per_thread <= usize::MAX,
    ensures
        total == num_threads * increments_per_thread,
{
    let mut counter = Counter::new();
    let mut t: usize = 0;
    while t < num_threads
        invariant
            t <= num_threads,
            num_threads * increments_per_thread <= usize::MAX,
            counter.spec_value() == t * increments_per_thread,
        decreases num_threads - t,
    {
        let mut j: usize = 0;
        while j < increments_per_thread
            invariant
                t < num_threads,
                j <= increments_per_thread,
                num_threads * increments_per_thread <= usize::MAX,
                counter.spec_value() == t * increments_per_thread + j,
            decreases increments_per_thread - j,
        {
            proof {
                lemma_mul_inequality(t as int + 1, num_threads as int, increments_per_thread as int);
                assert((t as int + 1) * (increments_per_thread as int) == t as int
                    * increments_per_thread as int + increments_per_thread as int)
                    by (nonlinear_arith);
            }
            counter.increment();
            j = j + 1;
        }
        proof {
            assert((t as int + 1) * (increments_per_thread as int) == t as int
                * increments_per_thread as int + increments_per_thread as int) by (nonlinear_arith);
        }
        t = t + 1;
    }
    counter.get_value()
}

} // verus!
