//! A grid of instants at a fixed step, used to sample a load test over time.

use vstd::prelude::*;
use crate::time::Instant;

verus! {

/// The step between two points of the grid: five milliseconds.
pub const STEP_NANOS: u64 = 5_000_000;

/// The grid from `from` (included) up to `to` (excluded), at `STEP_NANOS` apart.
pub open spec fn grid(from: int, to: int) -> Seq<int>
    decreases (if to > from { to - from } else { 0 }),
{
    if from >= to {
        Seq::empty()
    } else {
        seq![from] + grid(from + STEP_NANOS, to)
    }
}

/// Every point of the grid lies in `[from, to)`, and the points increase by one step.
pub proof fn lemma_grid_shape(from: int, to: int)
    ensures
        forall|k: int| 0 <= k < grid(from, to).len() ==> from <= #[trigger] grid(from, to)[k] < to,
        forall|k: int| 0 <= k < grid(from, to).len() ==> #[trigger] grid(from, to)[k] == from + k * STEP_NANOS,
    decreases (if to > from { to - from } else { 0 }),
{
    if from < to {
        lemma_grid_shape(from + STEP_NANOS, to);
        let g = grid(from, to);
        let rest = grid(from + STEP_NANOS, to);
        assert forall|k: int| 0 < k < g.len() implies g[k] == rest[k - 1] by {}
        assert forall|k: int| 0 <= k < g.len() implies #[trigger] g[k] == from + k * STEP_NANOS by {
            if k > 0 {
                assert(rest[k - 1] == from + STEP_NANOS + (k - 1) * STEP_NANOS);
                assert(from + STEP_NANOS + (k - 1) * STEP_NANOS == from + k * STEP_NANOS) by (nonlinear_arith);
            }
        }
    }
}

/// An empty range has no point; a range of one step has exactly its start.
pub proof fn lemma_grid_boundaries(t: int)
    ensures
        grid(t, t) == Seq::<int>::empty(),
        grid(t, t + STEP_NANOS) == seq![t],
{
    assert(grid(t + STEP_NANOS, t + STEP_NANOS) =~= Seq::<int>::empty());
    assert(grid(t, t + STEP_NANOS) =~= seq![t]);
}

/// An iterator of instants between a start and an end time, `STEP_NANOS` apart.
pub struct Snapshots {
    curr: Instant,
    max: Instant,
}

impl View for Snapshots {
    type V = Seq<int>;

    /// The points that remain to be produced, in nanoseconds.
    closed spec fn view(&self) -> Seq<int> {
        grid(self.curr.nanos as int, self.max.nanos as int)
    }
}

impl Snapshots {
    /// The next point to produce, in nanoseconds.
    pub closed spec fn cursor(&self) -> int {
        self.curr.nanos as int
    }

    /// The end of the grid (excluded), in nanoseconds.
    pub closed spec fn end(&self) -> int {
        self.max.nanos as int
    }

    /// Returns a new snapshot iterator over `[min, max)`.
    pub fn new(min: Instant, max: Instant) -> (r: Snapshots)
        ensures
            r@ == grid(min.nanos as int, max.nanos as int),
            r.cursor() == min.nanos,
            r.end() == max.nanos,
    {
        Snapshots { curr: min, max }
    }

    /// Produces the next point of the grid, if any remains.
    pub fn next(&mut self) -> (r: Option<Instant>)
        ensures
            final(self).end() == old(self).end(),
            old(self)@.len() == 0 ==> r is None && final(self)@ == old(self)@,
            old(self)@.len() > 0 ==> r == Some(Instant { nanos: old(self)@[0] as u64 })
                && final(self)@ == old(self)@.drop_first(),
    {
        if self.curr.nanos >= self.max.nanos {
            return None;
        }
        let out = self.curr;
        let ghost rest = grid(self.curr.nanos + STEP_NANOS, self.max.nanos as int);
        assert(old(self)@.drop_first() =~= rest);
        if self.curr.nanos <= u64::MAX - STEP_NANOS {
            self.curr = Instant { nanos: self.curr.nanos + STEP_NANOS };
        } else {
            self.curr = Instant { nanos: u64::MAX };
        }
        Some(out)
    }

    /// Reports `(0, Some(n))`, with `n` the whole number of steps from the current point
    /// to the end (zero once the end is passed), or `None` where `n` exceeds `usize`.
    pub fn size_hint(&self) -> (r: (usize, Option<usize>))
        ensures
            r.0 == 0,
            ({
                let n = if self.cursor() <= self.end() {
                    (self.end() - self.cursor()) / (STEP_NANOS as int)
                } else {
                    0
                };
                if n <= usize::MAX { r.1 == Some(n as usize) } else { r.1 is None }
            }),
    {
        let span: u64 = if self.curr.nanos <= self.max.nanos {
            self.max.nanos - self.curr.nanos
        } else {
            0
        };
        let upper: u64 = span / STEP_NANOS;
        if upper as u128 <= usize::MAX as u128 {
            (0, Some(upper as usize))
        } else {
            (0, None)
        }
    }

    /// Produces every remaining point of the grid, in order.
    pub fn into_points(self) -> (r: Vec<Instant>)
        ensures
            r@.len() == self@.len(),
            forall|k: int| 0 <= k < r@.len() ==> (#[trigger] r@[k]).nanos == self@[k],
    {
        let mut it = self;
        let mut out: Vec<Instant> = Vec::new();
        let ghost all = self@;
        loop
            invariant
                all == out@.map_values(|i: Instant| i.nanos as int) + it@,
            ensures
                all == out@.map_values(|i: Instant| i.nanos as int),
            decreases it@.len(),
        {
            match it.next() {
                Some(p) => {
                    out.push(p);
                },
                None => {
                    assert(all =~= out@.map_values(|i: Instant| i.nanos as int));
                    break;
                },
            }
        }
        proof {
            assert forall|k: int| 0 <= k < out@.len() implies (#[trigger] out@[k]).nanos == all[k] by {
                assert(all[k] == out@.map_values(|i: Instant| i.nanos as int)[k]);
            }
        }
        out
    }
}

} // verus!
