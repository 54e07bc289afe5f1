//! Summaries are aggregated views of many reports.

use vstd::prelude::*;
use vstd::relations::{sorted_by, total_ordering};
use vstd::seq_lib::{lemma_sorted_unique, to_multiset_remove, to_multiset_build};
use crate::error::Error;
use crate::report::Report;
use crate::snapshots::{grid, lemma_grid_shape, Snapshots};
use crate::time::{Duration, Instant};

verus! {

broadcast use vstd::multiset::group_multiset_axioms;

/// An exact fraction `numer / denom`.
#[derive(Clone, Copy, Debug, PartialEq, Eq, Structural)]
pub struct Ratio {
    pub numer: u128,
    pub denom: u128,
}

/// The ascending order on integers.
pub open spec fn ascending() -> spec_fn(int, int) -> bool {
    |x: int, y: int| x <= y
}

/// The number of successful reports.
pub open spec fn successes(s: Seq<Report>) -> nat
    decreases s.len(),
{
    if s.len() == 0 {
        0
    } else {
        successes(s.drop_last()) + if s.last().success { 1nat } else { 0nat }
    }
}

/// The `(start, end)` pairs of the reports, in arrival order.
pub open spec fn timestamps_of(s: Seq<Report>) -> Seq<(Instant, Instant)> {
    s.map_values(|r: Report| (r.start, r.end))
}

/// The durations of the reports in nanoseconds, in arrival order.
pub open spec fn durations_of(s: Seq<Report>) -> Seq<int> {
    s.map_values(|r: Report| r.duration.nanos as int)
}

/// The element at index `n / 2` of the durations sorted in ascending order.
pub open spec fn median_of(s: Seq<Report>) -> int {
    durations_of(s).sort()[s.len() as int / 2]
}

/// The smallest instant among all starts and ends.
pub open spec fn earliest(ts: Seq<(Instant, Instant)>) -> int
    decreases ts.len(),
{
    if ts.len() == 0 {
        0
    } else {
        let p = ts.last();
        let here = if p.0.nanos <= p.1.nanos { p.0.nanos as int } else { p.1.nanos as int };
        if ts.len() == 1 || here <= earliest(ts.drop_last()) { here } else { earliest(ts.drop_last()) }
    }
}

/// The largest instant among all starts and ends.
pub open spec fn latest(ts: Seq<(Instant, Instant)>) -> int
    decreases ts.len(),
{
    if ts.len() == 0 {
        0
    } else {
        let p = ts.last();
        let here = if p.0.nanos >= p.1.nanos { p.0.nanos as int } else { p.1.nanos as int };
        if ts.len() == 1 || here >= latest(ts.drop_last()) { here } else { latest(ts.drop_last()) }
    }
}

/// True of a pair of timestamps that encloses `t`.
pub open spec fn encloses(p: (Instant, Instant), t: int) -> bool {
    p.0.nanos <= t && t <= p.1.nanos
}

/// True of a pair of timestamps that ended no later than `t`.
pub open spec fn ended_by(p: (Instant, Instant), t: int) -> bool {
    p.1.nanos <= t
}

/// How many pairs of timestamps enclose `t`.
pub open spec fn in_flight_at(ts: Seq<(Instant, Instant)>, t: int) -> nat
    decreases ts.len(),
{
    if ts.len() == 0 {
        0
    } else {
        in_flight_at(ts.drop_last(), t) + if encloses(ts.last(), t) { 1nat } else { 0nat }
    }
}

/// How many pairs of timestamps ended no later than `t`.
pub open spec fn done_at(ts: Seq<(Instant, Instant)>, t: int) -> nat
    decreases ts.len(),
{
    if ts.len() == 0 {
        0
    } else {
        done_at(ts.drop_last(), t) + if ended_by(ts.last(), t) { 1nat } else { 0nat }
    }
}

/// The sum of the in-flight counts over the points of `g`.
pub open spec fn in_flight_sum(ts: Seq<(Instant, Instant)>, g: Seq<int>) -> nat
    decreases g.len(),
{
    if g.len() == 0 {
        0
    } else {
        in_flight_sum(ts, g.drop_last()) + in_flight_at(ts, g.last())
    }
}

/// The snapshot grid of a set of timestamps: from the earliest to the latest instant.
pub open spec fn grid_of(ts: Seq<(Instant, Instant)>) -> Seq<int> {
    grid(earliest(ts), latest(ts))
}

/// Neither count at an instant exceeds the number of pairs.
pub proof fn lemma_counts_bounded(ts: Seq<(Instant, Instant)>, t: int)
    ensures
        in_flight_at(ts, t) <= ts.len(),
        done_at(ts, t) <= ts.len(),
    decreases ts.len(),
{
    if ts.len() > 0 {
        lemma_counts_bounded(ts.drop_last(), t);
    }
}

/// The number of ended pairs does not decrease as time goes on.
pub proof fn lemma_done_monotone(ts: Seq<(Instant, Instant)>, t1: int, t2: int)
    requires
        t1 <= t2,
    ensures
        done_at(ts, t1) <= done_at(ts, t2),
    decreases ts.len(),
{
    if ts.len() > 0 {
        lemma_done_monotone(ts.drop_last(), t1, t2);
    }
}

/// The earliest and latest instants are attained, and bound every start and end.
pub proof fn lemma_range_bounds(ts: Seq<(Instant, Instant)>)
    requires
        ts.len() > 0,
    ensures
        forall|i: int| 0 <= i < ts.len() ==> earliest(ts) <= (#[trigger] ts[i]).0.nanos && earliest(ts) <= ts[i].1.nanos,
        forall|i: int| 0 <= i < ts.len() ==> (#[trigger] ts[i]).0.nanos <= latest(ts) && ts[i].1.nanos <= latest(ts),
        exists|i: int| 0 <= i < ts.len() && (earliest(ts) == (#[trigger] ts[i]).0.nanos || earliest(ts) == ts[i].1.nanos),
        exists|i: int| 0 <= i < ts.len() && (latest(ts) == (#[trigger] ts[i]).0.nanos || latest(ts) == ts[i].1.nanos),
        0 <= earliest(ts) <= latest(ts) <= u64::MAX,
    decreases ts.len(),
{
    let n = ts.len() as int;
    if n > 1 {
        let rest = ts.drop_last();
        lemma_range_bounds(rest);
        assert forall|i: int| 0 <= i < n - 1 implies #[trigger] ts[i] == rest[i] by {}
        let i0 = choose|i: int| 0 <= i < rest.len() && (earliest(rest) == (#[trigger] rest[i]).0.nanos || earliest(rest) == rest[i].1.nanos);
        let i1 = choose|i: int| 0 <= i < rest.len() && (latest(rest) == (#[trigger] rest[i]).0.nanos || latest(rest) == rest[i].1.nanos);
        assert(ts[i0] == rest[i0]);
        assert(ts[i1] == rest[i1]);
        assert(ts[n - 1] == ts.last());
    } else {
        assert(ts[0] == ts.last());
    }
}

/// Inserting `d` where everything before is at most `d` and everything after is at least
/// `d` keeps a sorted sequence sorted and adds `d` to its elements.
proof fn lemma_insert_sorted(s: Seq<int>, p: int, d: int)
    requires
        sorted_by(s, ascending()),
        0 <= p <= s.len(),
        forall|j: int| 0 <= j < p ==> s[j] <= d,
        p < s.len() ==> d <= s[p],
    ensures
        sorted_by(s.insert(p, d), ascending()),
        s.insert(p, d).to_multiset() == s.to_multiset().insert(d),
{
    let x = s.insert(p, d);
    s.insert_ensures(p, d);
    assert forall|i: int, j: int| 0 <= i < j < x.len() implies #[trigger] ascending()(x[i], x[j]) by {
        if j < p {
            assert(ascending()(s[i], s[j]));
        } else if j == p {
        } else if i < p {
            assert(x[j] == s[j - 1]);
            assert(s[p] <= s[j - 1] || p == j - 1) by {
                if p < j - 1 {
                    assert(ascending()(s[p], s[j - 1]));
                }
            }
        } else if i == p {
            assert(x[j] == s[j - 1]);
            assert(s[p] <= s[j - 1] || p == j - 1) by {
                if p < j - 1 {
                    assert(ascending()(s[p], s[j - 1]));
                }
            }
        } else {
            assert(x[i] == s[i - 1]);
            assert(x[j] == s[j - 1]);
            assert(ascending()(s[i - 1], s[j - 1]));
        }
    }
    assert(x.remove(p) =~= s);
    to_multiset_remove(x, p);
    assert(x.to_multiset().count(d) > 0) by {
        x.to_multiset_ensures();
        assert(x.contains(d)) by {
            assert(x[p] == d);
        }
    }
    assert(x.to_multiset() =~= s.to_multiset().insert(d));
}

/// The ascending order on integers is a total order.
proof fn lemma_ascending_total()
    ensures
        total_ordering(ascending()),
{
}

/// An aggregated summary of many reports.
pub struct Summary {
    success_count: u32,
    total: u32,
    durations: Vec<u64>,
    timestamps: Vec<(Instant, Instant)>,
    reports: Ghost<Seq<Report>>,
}

impl View for Summary {
    type V = Seq<Report>;

    /// The reports received, in arrival order.
    closed spec fn view(&self) -> Seq<Report> {
        self.reports@
    }
}

impl Summary {
    /// The fields agree with the reports received, and each report is well-formed.
    pub closed spec fn wf(&self) -> bool {
        let s = self.reports@;
        &&& forall|i: int| 0 <= i < s.len() ==> (#[trigger] s[i]).wf()
        &&& s.len() <= u32::MAX
        &&& self.total == s.len()
        &&& self.success_count == successes(s)
        &&& self.timestamps@ == timestamps_of(s)
        &&& self.durations@.map_values(|d: u64| d as int) == durations_of(s).sort()
    }

    /// Returns an empty summary.
    pub fn new() -> (r: Summary)
        ensures
            r.wf(),
            r@ == Seq::<Report>::empty(),
    {
        let r = Summary {
            success_count: 0,
            total: 0,
            durations: Vec::new(),
            timestamps: Vec::new(),
            reports: Ghost(Seq::empty()),
        };
        proof {
            let e = Seq::<Report>::empty();
            assert(r.durations@.map_values(|d: u64| d as int) =~= Seq::<int>::empty());
            durations_of(e).lemma_sort_ensures();
            assert(durations_of(e).sort().len() == 0) by {
                durations_of(e).sort().to_multiset_ensures();
                durations_of(e).to_multiset_ensures();
            }
            assert(durations_of(e).sort() =~= Seq::<int>::empty());
            assert(r.timestamps@ =~= timestamps_of(e));
        }
        r
    }

    /// Adds one report to the summary.
    pub fn record(&mut self, report: Report)
        requires
            old(self).wf(),
            report.wf(),
            old(self)@.len() < u32::MAX,
        ensures
            final(self).wf(),
            final(self)@ == old(self)@.push(report),
    {
        let ghost s0 = self.reports@;
        let ghost s1 = s0.push(report);
        let d = report.duration.nanos;
        let mut p: usize = 0;
        while p < self.durations.len() && self.durations[p] <= d
            invariant
                p <= self.durations.len(),
                forall|j: int| 0 <= j < p ==> self.durations@[j] <= d,
            decreases self.durations.len() - p,
        {
            p = p + 1;
        }
        let ghost old_d = self.durations@;
        self.durations.insert(p, d);
        self.timestamps.push((report.start, report.end));
        self.total = self.total + 1;
        proof {
            lemma_successes_bounded(s0);
        }
        if report.success {
            self.success_count = self.success_count + 1;
        }
        self.reports = Ghost(s1);
        proof {
            let f = |x: u64| x as int;
            let old_i = old_d.map_values(f);
            let ds0 = durations_of(s0);
            let ds1 = durations_of(s1);
            assert(self.durations@.map_values(f) =~= old_i.insert(p as int, d as int));
            assert(old_i == ds0.sort());
            ds0.lemma_sort_ensures();
            ds1.lemma_sort_ensures();
            lemma_insert_sorted(old_i, p as int, d as int);
            assert(ds1 =~= ds0.push(d as int));
            to_multiset_build(ds0, d as int);
            lemma_ascending_total();
            lemma_sorted_unique(old_i.insert(p as int, d as int), ds1.sort(), ascending());
            assert(self.timestamps@ =~= timestamps_of(s1));
            assert(s1.drop_last() =~= s0);
            assert forall|i: int| 0 <= i < s1.len() implies (#[trigger] s1[i]).wf() by {
                if i < s0.len() {
                    assert(s1[i] == s0[i]);
                }
            }
        }
    }

    /// Adds reports to the summary, in order.
    pub fn extend(&mut self, reports: Vec<Report>)
        requires
            old(self).wf(),
            forall|i: int| 0 <= i < reports@.len() ==> (#[trigger] reports@[i]).wf(),
            old(self)@.len() + reports@.len() <= u32::MAX,
        ensures
            final(self).wf(),
            final(self)@ == old(self)@ + reports@,
    {
        let ghost s0 = self@;
        let mut i: usize = 0;
        while i < reports.len()
            invariant
                self.wf(),
                i <= reports@.len(),
                self@ == s0 + reports@.subrange(0, i as int),
                forall|j: int| 0 <= j < reports@.len() ==> (#[trigger] reports@[j]).wf(),
                s0.len() + reports@.len() <= u32::MAX,
            decreases reports@.len() - i,
        {
            self.record(reports[i]);
            assert(reports@.subrange(0, i + 1) =~= reports@.subrange(0, i as int).push(reports@[i as int]));
            i = i + 1;
        }
        assert(reports@.subrange(0, i as int) =~= reports@);
    }

    /// Takes one worker result in: a report is recorded, an error is handed back and the
    /// summary left as it was.
    pub fn absorb(&mut self, result: Result<Report, Error>) -> (r: Result<(), Error>)
        requires
            old(self).wf(),
            result is Ok ==> result->Ok_0.wf(),
            old(self)@.len() < u32::MAX,
        ensures
            final(self).wf(),
            match result {
                Ok(report) => r is Ok && final(self)@ == old(self)@.push(report),
                Err(e) => r == Err::<(), Error>(e) && final(self)@ == old(self)@,
            },
    {
        match result {
            Ok(report) => {
                self.record(report);
                Ok(())
            },
            Err(e) => Err(e),
        }
    }

    /// The number of reports received.
    pub fn total(&self) -> (r: u32)
        requires
            self.wf(),
        ensures
            r == self@.len(),
    {
        self.total
    }

    /// The number of successful reports received.
    pub fn success_count(&self) -> (r: u32)
        requires
            self.wf(),
        ensures
            r == successes(self@),
    {
        self.success_count
    }

    /// Returns the success rate, as the fraction of successful reports.
    pub fn success_rate(&self) -> (r: Ratio)
        requires
            self.wf(),
        ensures
            r.numer == successes(self@),
            r.denom == self@.len(),
            r.numer <= r.denom,
    {
        proof {
            lemma_successes_bounded(self@);
        }
        Ratio { numer: self.success_count as u128, denom: self.total as u128 }
    }

    /// Returns the median worker duration: the element at index `n / 2` of the durations in
    /// ascending order.
    pub fn median_duration(&self) -> (r: Result<Duration, Error>)
        requires
            self.wf(),
        ensures
            self@.len() == 0 ==> r == Err::<Duration, Error>(Error::EmptySummary),
            self@.len() > 0 ==> (r matches Ok(d) && d.nanos == median_of(self@)),
    {
        let n = self.durations.len();
        proof {
            durations_of(self@).lemma_sort_ensures();
            durations_of(self@).to_multiset_ensures();
            durations_of(self@).sort().to_multiset_ensures();
        }
        if n == 0 {
            return Err(Error::EmptySummary);
        }
        let d = self.durations[n / 2];
        proof {
            let f = |x: u64| x as int;
            assert(self.durations@.map_values(f)[n as int / 2] == d as int);
        }
        Ok(Duration { nanos: d })
    }

    /// Returns the earliest and the latest instant among all starts and ends.
    pub fn time_range(&self) -> (r: Result<(Instant, Instant), Error>)
        requires
            self.wf(),
        ensures
            self@.len() == 0 ==> r == Err::<(Instant, Instant), Error>(Error::EmptySummary),
            self@.len() > 0 ==> r is Ok,
            r matches Ok((lo, hi)) ==> {
                &&& lo.nanos == earliest(timestamps_of(self@))
                &&& hi.nanos == latest(timestamps_of(self@))
                &&& forall|i: int| 0 <= i < self@.len() ==> lo.nanos <= (#[trigger] self@[i]).start.nanos
                    <= self@[i].end.nanos <= hi.nanos
            },
    {
        let n = self.timestamps.len();
        if n == 0 {
            return Err(Error::EmptySummary);
        }
        let ghost ts = timestamps_of(self@);
        let mut lo: u64 = 0;
        let mut hi: u64 = 0;
        let mut i: usize = 0;
        while i < n
            invariant
                self.wf(),
                ts == timestamps_of(self@),
                n == self.timestamps@.len(),
                i <= n,
                i > 0 ==> lo == earliest(ts.subrange(0, i as int)),
                i > 0 ==> hi == latest(ts.subrange(0, i as int)),
            decreases n - i,
        {
            let (a, b) = self.timestamps[i];
            let here_lo = if a.nanos <= b.nanos { a.nanos } else { b.nanos };
            let here_hi = if a.nanos >= b.nanos { a.nanos } else { b.nanos };
            proof {
                let sub = ts.subrange(0, i + 1);
                assert(sub.drop_last() =~= ts.subrange(0, i as int));
                assert(sub.last() == ts[i as int]);
            }
            if i == 0 || here_lo <= lo {
                lo = here_lo;
            }
            if i == 0 || here_hi >= hi {
                hi = here_hi;
            }
            i = i + 1;
        }
        proof {
            assert(ts.subrange(0, n as int) =~= ts);
            lemma_range_bounds(ts);
            assert forall|i: int| 0 <= i < self@.len() implies lo <= (#[trigger] self@[i]).start.nanos
                <= self@[i].end.nanos <= hi by {
                assert(ts[i] == (self@[i].start, self@[i].end));
                assert(self@[i].wf());
            }
        }
        Ok((Instant { nanos: lo }, Instant { nanos: hi }))
    }
}

impl Summary {
    /// Returns true if a pair of timestamps encloses a given instant.
    fn was_in_flight(ts: (Instant, Instant), when: Instant) -> (r: bool)
        ensures
            r == encloses(ts, when.nanos as int),
    {
        ts.0.nanos <= when.nanos && when.nanos <= ts.1.nanos
    }

    /// Returns true if the timestamps ended no later than a given instant.
    fn was_done(ts: (Instant, Instant), when: Instant) -> (r: bool)
        ensures
            r == ended_by(ts, when.nanos as int),
    {
        when.nanos >= ts.1.nanos
    }

    /// Counts the pairs of timestamps in flight at a given instant.
    fn count_in_flight(timestamps: &Vec<(Instant, Instant)>, when: Instant) -> (r: u32)
        requires
            timestamps@.len() <= u32::MAX,
        ensures
            r == in_flight_at(timestamps@, when.nanos as int),
    {
        let ghost ts = timestamps@;
        let mut count: u32 = 0;
        let mut i: usize = 0;
        while i < timestamps.len()
            invariant
                ts == timestamps@,
                ts.len() <= u32::MAX,
                i <= ts.len(),
                count == in_flight_at(ts.subrange(0, i as int), when.nanos as int),
                count <= i,
            decreases ts.len() - i,
        {
            proof {
                let sub = ts.subrange(0, i + 1);
                assert(sub.drop_last() =~= ts.subrange(0, i as int));
                assert(sub.last() == ts[i as int]);
            }
            if Self::was_in_flight(timestamps[i], when) {
                count = count + 1;
            }
            i = i + 1;
        }
        assert(ts.subrange(0, i as int) =~= ts);
        count
    }

    /// Counts the pairs of timestamps that ended no later than a given instant.
    fn count_done(timestamps: &Vec<(Instant, Instant)>, when: Instant) -> (r: u32)
        requires
            timestamps@.len() <= u32::MAX,
        ensures
            r == done_at(timestamps@, when.nanos as int),
    {
        let ghost ts = timestamps@;
        let mut count: u32 = 0;
        let mut i: usize = 0;
        while i < timestamps.len()
            invariant
                ts == timestamps@,
                ts.len() <= u32::MAX,
                i <= ts.len(),
                count == done_at(ts.subrange(0, i as int), when.nanos as int),
                count <= i,
            decreases ts.len() - i,
        {
            proof {
                let sub = ts.subrange(0, i + 1);
                assert(sub.drop_last() =~= ts.subrange(0, i as int));
                assert(sub.last() == ts[i as int]);
            }
            if Self::was_done(timestamps[i], when) {
                count = count + 1;
            }
            i = i + 1;
        }
        assert(ts.subrange(0, i as int) =~= ts);
        count
    }

    /// Computes the number of in-flight requests at each point of the snapshot grid that
    /// spans the summary's time range, in the grid's order.
    pub fn compute_in_flight_observations(&self) -> (r: Result<Vec<(Instant, u32)>, Error>)
        requires
            self.wf(),
        ensures
            self@.len() == 0 ==> r == Err::<Vec<(Instant, u32)>, Error>(Error::EmptySummary),
            self@.len() > 0 ==> r is Ok,
            r matches Ok(v) ==> {
                let ts = timestamps_of(self@);
                let g = grid_of(ts);
                &&& v@.len() == g.len()
                &&& forall|k: int| 0 <= k < v@.len() ==> (#[trigger] v@[k]).0.nanos == g[k]
                    && v@[k].1 == in_flight_at(ts, g[k])
                    && v@[k].1 <= self@.len()
            },
    {
        let (min, max) = self.time_range()?;
        let ghost ts = timestamps_of(self@);
        let ghost g = grid(min.nanos as int, max.nanos as int);
        let mut snaps = Snapshots::new(min, max);
        let mut out: Vec<(Instant, u32)> = Vec::new();
        proof {
            lemma_grid_shape(min.nanos as int, max.nanos as int);
        }
        loop
            invariant
                self.wf(),
                ts == timestamps_of(self@),
                ts == self.timestamps@,
                g == grid_of(ts),
                out@.len() <= g.len(),
                snaps@ == g.subrange(out@.len() as int, g.len() as int),
                forall|k: int| 0 <= k < g.len() ==> min.nanos <= #[trigger] g[k] < max.nanos,
                forall|k: int| 0 <= k < out@.len() ==> (#[trigger] out@[k]).0.nanos == g[k]
                    && out@[k].1 == in_flight_at(ts, g[k])
                    && out@[k].1 <= self@.len(),
            ensures
                out@.len() == g.len(),
                forall|k: int| 0 <= k < out@.len() ==> (#[trigger] out@[k]).0.nanos == g[k]
                    && out@[k].1 == in_flight_at(ts, g[k])
                    && out@[k].1 <= self@.len(),
            decreases snaps@.len(),
        {
            let ghost before = snaps@;
            match snaps.next() {
                Some(when) => {
                    let k = out.len();
                    assert(before[0] == g[k as int]);
                    assert(when.nanos == g[k as int]);
                    let num = Self::count_in_flight(&self.timestamps, when);
                    proof {
                        lemma_counts_bounded(ts, when.nanos as int);
                    }
                    out.push((when, num));
                    assert(snaps@ =~= g.subrange(out@.len() as int, g.len() as int));
                },
                None => {
                    assert(out@.len() == g.len());
                    break;
                },
            }
        }
        Ok(out)
    }
}

impl Summary {
    /// Computes, at each point of the snapshot grid that spans the summary's time range, the
    /// fraction of reports that had ended by then.
    pub fn compute_progress_observations(&self) -> (r: Result<Vec<(Instant, Ratio)>, Error>)
        requires
            self.wf(),
        ensures
            self@.len() == 0 ==> r == Err::<Vec<(Instant, Ratio)>, Error>(Error::EmptySummary),
            self@.len() > 0 ==> r is Ok,
            r matches Ok(v) ==> {
                let ts = timestamps_of(self@);
                let g = grid_of(ts);
                &&& v@.len() == g.len()
                &&& forall|k: int| 0 <= k < v@.len() ==> (#[trigger] v@[k]).0.nanos == g[k]
                    && v@[k].1.numer == done_at(ts, g[k])
                    && v@[k].1.denom == self@.len()
                    && v@[k].1.numer <= v@[k].1.denom
                &&& forall|j: int, k: int| 0 <= j <= k < v@.len() ==> (#[trigger] v@[j]).1.numer
                    <= (#[trigger] v@[k]).1.numer
            },
    {
        let (min, max) = self.time_range()?;
        let ghost ts = timestamps_of(self@);
        let ghost g = grid(min.nanos as int, max.nanos as int);
        let mut snaps = Snapshots::new(min, max);
        let mut out: Vec<(Instant, Ratio)> = Vec::new();
        proof {
            lemma_grid_shape(min.nanos as int, max.nanos as int);
        }
        loop
            invariant
                self.wf(),
                ts == timestamps_of(self@),
                ts == self.timestamps@,
                g == grid_of(ts),
                g == grid(min.nanos as int, max.nanos as int),
                out@.len() <= g.len(),
                snaps@ == g.subrange(out@.len() as int, g.len() as int),
                forall|k: int| 0 <= k < g.len() ==> min.nanos <= #[trigger] g[k] < max.nanos,
                forall|k: int| 0 <= k < out@.len() ==> (#[trigger] out@[k]).0.nanos == g[k]
                    && out@[k].1.numer == done_at(ts, g[k])
                    && out@[k].1.denom == self@.len()
                    && out@[k].1.numer <= out@[k].1.denom,
            ensures
                out@.len() == g.len(),
                forall|k: int| 0 <= k < out@.len() ==> (#[trigger] out@[k]).0.nanos == g[k]
                    && out@[k].1.numer == done_at(ts, g[k])
                    && out@[k].1.denom == self@.len()
                    && out@[k].1.numer <= out@[k].1.denom,
            decreases snaps@.len(),
        {
            let ghost before = snaps@;
            match snaps.next() {
                Some(when) => {
                    let k = out.len();
                    assert(before[0] == g[k as int]);
                    assert(when.nanos == g[k as int]);
                    let num = Self::count_done(&self.timestamps, when);
                    proof {
                        lemma_counts_bounded(ts, when.nanos as int);
                    }
                    out.push((when, Ratio { numer: num as u128, denom: self.total as u128 }));
                    assert(snaps@ =~= g.subrange(out@.len() as int, g.len() as int));
                },
                None => {
                    assert(out@.len() == g.len());
                    break;
                },
            }
        }
        proof {
            lemma_grid_shape(min.nanos as int, max.nanos as int);
            assert forall|j: int, k: int| 0 <= j <= k < out@.len() implies (#[trigger] out@[j]).1.numer
                <= (#[trigger] out@[k]).1.numer by {
                assert(g[j] == min.nanos + j * 5_000_000);
                assert(g[k] == min.nanos + k * 5_000_000);
                assert(j * 5_000_000 <= k * 5_000_000) by (nonlinear_arith)
                    requires j <= k;
                lemma_done_monotone(ts, g[j], g[k]);
            }
        }
        Ok(out)
    }

    /// Computes the average number of in-flight requests over the snapshot grid, as the sum
    /// of the in-flight counts over the number of grid points. There is none where the
    /// summary is empty or its time range is a single instant.
    pub fn average_in_flight(&self) -> (r: Result<Ratio, Error>)
        requires
            self.wf(),
        ensures
            ({
                let ts = timestamps_of(self@);
                let g = grid_of(ts);
                if self@.len() == 0 || g.len() == 0 {
                    r == Err::<Ratio, Error>(Error::EmptySummary)
                } else {
                    r == Ok::<Ratio, Error>(Ratio { numer: in_flight_sum(ts, g) as u128, denom: g.len() as u128 })
                }
            }),
    {
        let obs = self.compute_in_flight_observations()?;
        let ghost ts = timestamps_of(self@);
        let ghost g = grid_of(ts);
        let n = obs.len();
        if n == 0 {
            return Err(Error::EmptySummary);
        }
        let mut sum: u128 = 0;
        let mut i: usize = 0;
        while i < n
            invariant
                n == obs@.len(),
                n == g.len(),
                i <= n,
                forall|k: int| 0 <= k < n ==> (#[trigger] obs@[k]).1 == in_flight_at(ts, g[k]),
                sum == in_flight_sum(ts, g.subrange(0, i as int)),
                sum <= i * (u32::MAX as int),
            decreases n - i,
        {
            let (_, num) = obs[i];
            proof {
                let sub = g.subrange(0, i + 1);
                assert(sub.drop_last() =~= g.subrange(0, i as int));
                assert(sub.last() == g[i as int]);
                assert(sum + num <= (i + 1) * (u32::MAX as int)) by (nonlinear_arith)
                    requires sum <= i * (u32::MAX as int), num <= u32::MAX;
                assert((i + 1) * (u32::MAX as int) <= (usize::MAX as int + 1) * (u32::MAX as int)) by (nonlinear_arith)
                    requires i < usize::MAX;
            }
            sum = sum + num as u128;
            i = i + 1;
        }
        assert(g.subrange(0, n as int) =~= g);
        Ok(Ratio { numer: sum, denom: n as u128 })
    }
}

impl Default for Summary {
    /// An empty summary.
    fn default() -> (r: Summary)
        ensures
            r.wf(),
            r@ == Seq::<Report>::empty(),
    {
        Summary::new()
    }
}

/// At most as many reports succeed as were received.
proof fn lemma_successes_bounded(s: Seq<Report>)
    ensures
        successes(s) <= s.len(),
    decreases s.len(),
{
    if s.len() > 0 {
        lemma_successes_bounded(s.drop_last());
    }
}

/// `k` copies of one report.
pub open spec fn copies(r: Report, k: nat) -> Seq<Report> {
    Seq::new(k, |i: int| r)
}

/// Counting the successes of `k` copies of a report.
proof fn lemma_copies_successes(r: Report, k: nat)
    ensures
        successes(copies(r, k)) == if r.success { k } else { 0 },
    decreases k,
{
    if k > 0 {
        lemma_copies_successes(r, (k - 1) as nat);
        assert(copies(r, k).drop_last() =~= copies(r, (k - 1) as nat));
    }
}

/// The time range of `k >= 1` copies of a report is the report's own.
proof fn lemma_copies_range(r: Report, k: nat)
    requires
        r.wf(),
        k >= 1,
    ensures
        earliest(timestamps_of(copies(r, k))) == r.start.nanos,
        latest(timestamps_of(copies(r, k))) == r.end.nanos,
    decreases k,
{
    let ts = timestamps_of(copies(r, k));
    if k > 1 {
        lemma_copies_range(r, (k - 1) as nat);
        assert(ts.drop_last() =~= timestamps_of(copies(r, (k - 1) as nat)));
    }
}

/// At an instant within a report's span, all `k` copies of it are in flight.
proof fn lemma_copies_in_flight(r: Report, k: nat, t: int)
    requires
        r.start.nanos <= t <= r.end.nanos,
    ensures
        in_flight_at(timestamps_of(copies(r, k)), t) == k,
    decreases k,
{
    if k > 0 {
        lemma_copies_in_flight(r, (k - 1) as nat, t);
        assert(timestamps_of(copies(r, k)).drop_last() =~= timestamps_of(copies(r, (k - 1) as nat)));
    }
}

/// Summing `k` over the points of a grid that lies within a report's span.
proof fn lemma_copies_in_flight_sum(r: Report, k: nat, g: Seq<int>)
    requires
        forall|j: int| 0 <= j < g.len() ==> r.start.nanos <= #[trigger] g[j] <= r.end.nanos,
    ensures
        in_flight_sum(timestamps_of(copies(r, k)), g) == k * g.len(),
    decreases g.len(),
{
    if g.len() > 0 {
        lemma_copies_in_flight_sum(r, k, g.drop_last());
        lemma_copies_in_flight(r, k, g.last());
        assert(k * (g.len() - 1) + k == k * g.len()) by (nonlinear_arith);
    }
}

/// A summary fed `k` identical reports: its median is their duration, its success count
/// is `k` or zero by the report's outcome, and where the report spans more than one
/// instant, the in-flight counts over the grid average exactly `k`.
pub proof fn lemma_identical_reports(r: Report, k: nat)
    requires
        r.wf(),
        k >= 1,
    ensures
        median_of(copies(r, k)) == r.duration.nanos,
        successes(copies(r, k)) == if r.success { k } else { 0 },
        ({
            let ts = timestamps_of(copies(r, k));
            let g = grid_of(ts);
            r.start.nanos < r.end.nanos ==> g.len() > 0 && in_flight_sum(ts, g) == k * g.len()
        }),
{
    let s = copies(r, k);
    let ds = durations_of(s);
    let d = r.duration.nanos as int;
    ds.lemma_sort_ensures();
    ds.to_multiset_ensures();
    ds.sort().to_multiset_ensures();
    let m = ds.sort()[s.len() as int / 2];
    assert(ds.sort().len() == k);
    assert(ds.sort().contains(m));
    assert(ds.sort().to_multiset().count(m) > 0);
    assert(ds.to_multiset().count(m) > 0);
    assert(ds.contains(m));
    let i = choose|i: int| 0 <= i < ds.len() && ds[i] == m;
    assert(ds[i] == d);
    lemma_copies_successes(r, k);
    lemma_copies_range(r, k);
    let ts = timestamps_of(s);
    lemma_grid_shape(r.start.nanos as int, r.end.nanos as int);
    lemma_copies_in_flight_sum(r, k, grid_of(ts));
    if r.start.nanos < r.end.nanos {
        assert(grid_of(ts).len() > 0);
    }
}

/// A summary of a single report has that report's duration as its median.
pub proof fn lemma_single_report(r: Report)
    requires
        r.wf(),
    ensures
        median_of(seq![r]) == r.duration.nanos,
{
    lemma_identical_reports(r, 1);
    assert(copies(r, 1) =~= seq![r]);
}

} // verus!
