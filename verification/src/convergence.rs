//! Convergence bookkeeping for the annealing loop: a fixed-length history
//! window over the recent total-change statistics, and the counter that
//! decides when the temperature may drop.

use vstd::prelude::*;

verus! {

/// Capacity of a history window.
pub const HISTORY_LEN: usize = 100;

/// A fixed-capacity queue of the most recent statistics, oldest first. The
/// caller stores its samples as opaque 64-bit words; the window only keeps
/// and evicts them in first-in-first-out order.
pub struct History {
    items: Vec<u64>,
}

impl View for History {
    type V = Seq<u64>;

    closed spec fn view(&self) -> Seq<u64> {
        self.items@
    }
}

impl History {
    /// The window never holds more than `HISTORY_LEN` samples.
    pub open spec fn wf(self) -> bool {
        self@.len() <= HISTORY_LEN
    }

    /// An empty window.
    pub fn new() -> (r: History)
        ensures
            r@ == Seq::<u64>::empty(),
            r.wf(),
    {
        History { items: Vec::new() }
    }

    /// Number of samples currently held.
    pub fn len(&self) -> (r: usize)
        ensures
            r == self@.len(),
    {
        self.items.len()
    }

    /// The sample at position `i`, oldest first.
    pub fn get(&self, i: usize) -> (r: u64)
        requires
            i < self@.len(),
        ensures
            r == self@[i as int],
    {
        self.items[i]
    }

    /// Pushes a sample; when the window is full the oldest sample leaves and
    /// is returned.
    pub fn push(&mut self, v: u64) -> (evicted: Option<u64>)
        requires
            old(self).wf(),
        ensures
            final(self).wf(),
            old(self)@.len() < HISTORY_LEN ==> final(self)@ == old(self)@.push(v) && evicted
                is None,
            old(self)@.len() == HISTORY_LEN ==> final(self)@ == old(self)@.subrange(
                1,
                HISTORY_LEN as int,
            ).push(v) && evicted == Some(old(self)@[0]),
    {
        if self.items.len() == HISTORY_LEN {
            let front = self.items.remove(0);
            self.items.push(v);
            Some(front)
        } else {
            self.items.push(v);
            None
        }
    }
}

/// The counter behind the variance-stability convergence trigger. It counts
/// consecutive passes whose variance stayed close to the running variance
/// mean, and fires either on a small palette change or once the streak
/// exceeds `HISTORY_LEN`.
pub struct ConvergenceCounter {
    pub variance_check_count: u64,
}

impl ConvergenceCounter {
    /// The streak can never pass `HISTORY_LEN` without firing and resetting.
    pub open spec fn wf(self) -> bool {
        self.variance_check_count <= HISTORY_LEN
    }

    /// A counter with no streak.
    pub fn new() -> (r: ConvergenceCounter)
        ensures
            r.variance_check_count == 0,
            r.wf(),
    {
        ConvergenceCounter { variance_check_count: 0 }
    }

    /// One convergence decision. `variance_close` says whether the latest
    /// variance fell within the stability band of the running mean;
    /// `change_small` says whether the palette moved less than the palette
    /// threshold. Returns whether the temperature should drop now; the
    /// streak resets on a trigger and on any unstable pass.
    pub fn step(&mut self, variance_close: bool, change_small: bool) -> (trigger: bool)
        requires
            old(self).wf(),
        ensures
            final(self).wf(),
            trigger == (change_small || (variance_close && old(self).variance_check_count + 1
                > HISTORY_LEN)),
            final(self).variance_check_count == if trigger {
                0u64
            } else {
                if variance_close {
                    (old(self).variance_check_count + 1) as u64
                } else {
                    0u64
                }
            },
    {
        let bumped: u64 = if variance_close {
            self.variance_check_count + 1
        } else {
            0
        };
        let trigger = change_small || bumped > HISTORY_LEN as u64;
        self.variance_check_count = if trigger {
            0
        } else {
            bumped
        };
        trigger
    }
}

} // verus!
