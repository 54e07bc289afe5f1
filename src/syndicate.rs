//! A syndicate is a group of workers: it owns a FIFO of running worker handles, fed by a
//! generator through a channel, and hands the workers' results out in the order in which
//! the workers were enqueued.
//!
//! Polling is driven from outside: the driver reports what the channel gave with
//! `Syndicate::receive`, asks `Syndicate::next_step` what to do, and when told to poll the
//! head, takes it with `Syndicate::take_head` and puts it back with
//! `Syndicate::restore_head` if it is not finished yet.

use vstd::prelude::*;
use crate::address::Host;
use crate::generator::{pause_for_rate, Generator};
use crate::time::Duration;

verus! {

/// A syndicate builder.
#[derive(Clone, Debug)]
pub struct Builder {
    /// The host to send requests to.
    pub host: Host,
    /// The port to send requests to.
    pub port: u16,
    /// The total number of requests to send; `None` for no bound.
    pub total: Option<u32>,
    /// The rate of requests to send per second; `None` for no pause.
    pub rps: Option<u32>,
}

impl Builder {
    /// Sets the total number of requests to send.
    pub fn total(self, total: Option<u32>) -> (r: Builder)
        ensures
            r == (Builder { total, ..self }),
    {
        Builder { total, ..self }
    }

    /// Sets the rate of requests to send per second.
    pub fn rps(self, rps: Option<u32>) -> (r: Builder)
        ensures
            r == (Builder { rps, ..self }),
    {
        Builder { rps, ..self }
    }

    /// The generator that paces the workers: bounded by `total`, and pausing one second
    /// divided by `rps` between two workers.
    pub fn generator(&self) -> (r: Generator)
        requires
            self.rps != Some(0u32),
        ensures
            r@.0 == self.total,
            self.rps is None ==> r@.1 is None,
            self.rps matches Some(n) ==> r@.1 == Some(Duration { nanos: pause_for_rate(n) }),
    {
        Generator::new().with_total(self.total).at_rate_per_second(self.rps)
    }
}

/// What polling the channel of new workers gave.
pub enum Received<H> {
    /// Nothing is available yet.
    Nothing,
    /// A new worker.
    Job(H),
    /// The channel is closed and drained.
    Closed,
}

/// What the driver does next.
#[derive(Clone, Copy, Debug, PartialEq, Eq, Structural)]
pub enum Next {
    /// Poll the worker at the head of the queue.
    PollHead,
    /// Wait for new work to arrive.
    Wait,
    /// The sequence of results has ended.
    End,
}

/// The state of a syndicate: whether its channel is still open, and its queue of workers.
pub struct SyndicateView<H> {
    pub open: bool,
    pub workers: Seq<H>,
}

impl<H> SyndicateView<H> {
    /// The state after the channel gave `event`. Once the channel is closed, nothing is
    /// appended any more.
    pub open spec fn receive(self, event: Received<H>) -> SyndicateView<H> {
        if !self.open {
            self
        } else {
            match event {
                Received::Nothing => self,
                Received::Job(h) => SyndicateView { open: true, workers: self.workers.push(h) },
                Received::Closed => SyndicateView { open: false, workers: self.workers },
            }
        }
    }

    /// What to do next: poll the head while there is one, else wait while the channel is
    /// open, else end.
    pub open spec fn next(self) -> Next {
        if self.workers.len() > 0 {
            Next::PollHead
        } else if self.open {
            Next::Wait
        } else {
            Next::End
        }
    }

    /// The state after each of `jobs` arrived, in order.
    pub open spec fn receive_all(self, jobs: Seq<H>) -> SyndicateView<H>
        decreases jobs.len(),
    {
        if jobs.len() == 0 {
            self
        } else {
            self.receive_all(jobs.drop_last()).receive(Received::Job(jobs.last()))
        }
    }

    /// The results handed out when the head is taken `k` times in a row, each time it is
    /// there, with the state that is left.
    pub open spec fn drain(self, k: nat) -> (Seq<H>, SyndicateView<H>)
        decreases k,
    {
        if k == 0 || self.workers.len() == 0 {
            (Seq::empty(), self)
        } else {
            let rest = SyndicateView { open: self.open, workers: self.workers.drop_first() };
            let (out, last) = rest.drain((k - 1) as nat);
            (seq![self.workers[0]] + out, last)
        }
    }
}

/// A syndicate: a FIFO of running workers fed through a channel.
pub struct Syndicate<H> {
    /// True until the channel of new workers reports that it is closed.
    open: bool,
    /// The running workers, in the order in which they arrived.
    workers: std::collections::VecDeque<H>,
}

impl<H> View for Syndicate<H> {
    type V = SyndicateView<H>;

    closed spec fn view(&self) -> SyndicateView<H> {
        SyndicateView { open: self.open, workers: self.workers@ }
    }
}

impl<H> Syndicate<H> {
    /// Returns a new builder.
    pub fn builder(host: Host, port: u16) -> (r: Builder)
        ensures
            r == (Builder { host, port, total: None, rps: None }),
    {
        Builder { host, port, total: None, rps: None }
    }

    /// Returns a new builder, aimed at the local loopback address.
    pub fn local(port: u16) -> (r: Builder)
        ensures
            r == (Builder { host: Host::Ipv6(1), port, total: None, rps: None }),
    {
        Self::builder(Host::localhost(), port)
    }

    /// A syndicate whose channel is open and whose queue is empty.
    pub fn new() -> (r: Syndicate<H>)
        ensures
            r@ == (SyndicateView { open: true, workers: Seq::<H>::empty() }),
    {
        Syndicate { open: true, workers: std::collections::VecDeque::new() }
    }

    /// Returns true while the channel of new workers is open.
    pub fn is_open(&self) -> (r: bool)
        ensures
            r == self@.open,
    {
        self.open
    }

    /// The number of workers in the queue.
    pub fn len(&self) -> (r: usize)
        ensures
            r == self@.workers.len(),
    {
        self.workers.len()
    }

    /// Takes in what polling the channel gave: a new worker joins the back of the queue,
    /// and a closed channel is marked so.
    pub fn receive(&mut self, event: Received<H>)
        ensures
            final(self)@ == old(self)@.receive(event),
    {
        if self.open {
            match event {
                Received::Nothing => {},
                Received::Job(h) => {
                    self.workers.push_back(h);
                },
                Received::Closed => {
                    self.open = false;
                },
            }
        }
    }

    /// Says what the driver does next.
    pub fn next_step(&self) -> (r: Next)
        ensures
            r == self@.next(),
    {
        if self.workers.len() > 0 {
            Next::PollHead
        } else if self.open {
            Next::Wait
        } else {
            Next::End
        }
    }

    /// Takes the worker at the head of the queue, if any.
    pub fn take_head(&mut self) -> (r: Option<H>)
        ensures
            old(self)@.workers.len() == 0 ==> r is None && final(self)@ == old(self)@,
            old(self)@.workers.len() > 0 ==> r == Some(old(self)@.workers[0])
                && final(self)@ == (SyndicateView { open: old(self)@.open, workers: old(self)@.workers.drop_first() }),
    {
        self.workers.pop_front()
    }

    /// Puts a worker that is not finished back at the head of the queue.
    pub fn restore_head(&mut self, h: H)
        ensures
            final(self)@ == (SyndicateView { open: old(self)@.open, workers: seq![h] + old(self)@.workers }),
    {
        self.workers.push_front(h);
        assert(self.workers@ =~= seq![h] + old(self).workers@);
    }
}

/// A syndicate whose channel closes before any worker arrives ends at once, handing out
/// nothing.
pub proof fn lemma_closed_before_any_job<H>(s: SyndicateView<H>)
    requires
        s == (SyndicateView { open: true, workers: Seq::<H>::empty() }),
    ensures
        s.receive(Received::Closed).next() == Next::End,
        s.receive(Received::Closed).drain(0).0.len() == 0,
{
}

/// Once the channel is closed, no event adds a worker.
pub proof fn lemma_closed_stays_closed<H>(s: SyndicateView<H>, event: Received<H>)
    requires
        !s.open,
    ensures
        s.receive(event) == s,
{
}

/// When `n` workers arrive and the channel then closes, draining hands out exactly those
/// `n` results, in the order of arrival, and then the sequence ends.
pub proof fn lemma_yields_each_job_in_order<H>(jobs: Seq<H>)
    ensures
        ({
            let start = SyndicateView { open: true, workers: Seq::<H>::empty() };
            let closed = start.receive_all(jobs).receive(Received::Closed);
            let (out, last) = closed.drain(jobs.len());
            &&& out == jobs
            &&& last.next() == Next::End
        }),
{
    let start = SyndicateView { open: true, workers: Seq::<H>::empty() };
    lemma_receive_all(start, jobs);
    let closed = start.receive_all(jobs).receive(Received::Closed);
    lemma_drain_all(closed, jobs.len());
    assert(closed.workers =~= jobs);
}

/// While the channel is open, receiving jobs appends them to the queue in order.
proof fn lemma_receive_all<H>(s: SyndicateView<H>, jobs: Seq<H>)
    requires
        s.open,
    ensures
        s.receive_all(jobs) == (SyndicateView { open: true, workers: s.workers + jobs }),
    decreases jobs.len(),
{
    if jobs.len() > 0 {
        lemma_receive_all(s, jobs.drop_last());
        assert(s.workers + jobs.drop_last().push(jobs.last()) =~= s.workers + jobs);
        assert(jobs.drop_last().push(jobs.last()) =~= jobs);
    } else {
        assert(s.workers + jobs =~= s.workers);
    }
}

/// Draining as many times as there are workers hands them all out in order and empties
/// the queue.
proof fn lemma_drain_all<H>(s: SyndicateView<H>, k: nat)
    requires
        k == s.workers.len(),
    ensures
        s.drain(k).0 == s.workers,
        s.drain(k).1 == (SyndicateView { open: s.open, workers: Seq::<H>::empty() }),
    decreases k,
{
    if k == 0 {
        assert(s.workers =~= Seq::<H>::empty());
    } else {
        let rest = SyndicateView { open: s.open, workers: s.workers.drop_first() };
        lemma_drain_all(rest, (k - 1) as nat);
        assert(seq![s.workers[0]] + s.workers.drop_first() =~= s.workers);
    }
}

} // verus!
