//! The pacing rules of a generator, which periodically yields jobs into a bounded channel.
//!
//! The loop that calls the factory, sends into the channel and sleeps is driven from
//! outside: it asks `GeneratorState::should_emit` before each item, reports the outcome of
//! each send to `GeneratorState::on_send`, and performs the action handed back.

use vstd::prelude::*;
use crate::time::{Duration, NANOS_PER_SEC};

verus! {

/// The capacity of the channel between a generator and its consumer.
pub const CHANNEL_SIZE: usize = 256;

/// A generator periodically yields values.
#[derive(Clone, Copy, Debug, PartialEq, Eq, Structural)]
pub struct Generator {
    /// The number of values that this generator will yield; `None` for no bound.
    total: Option<u32>,
    /// The amount of time to pause between yielding values.
    pause: Option<Duration>,
}

impl View for Generator {
    type V = (Option<u32>, Option<Duration>);

    /// The bound on the number of values, and the pause between two of them.
    closed spec fn view(&self) -> (Option<u32>, Option<Duration>) {
        (self.total, self.pause)
    }
}

/// The pause between two values at `rate` values per second: one second divided by the
/// rate, rounded down to the nanosecond.
pub open spec fn pause_for_rate(rate: u32) -> u64 {
    (NANOS_PER_SEC as int / (rate as int)) as u64
}

impl Generator {
    /// Returns a new generator, with no bound and no pause.
    pub fn new() -> (r: Generator)
        ensures
            r@ == (None::<u32>, None::<Duration>),
    {
        Generator { total: None, pause: None }
    }

    /// Sets the total number of values to be yielded.
    pub fn with_total(self, total: Option<u32>) -> (r: Generator)
        ensures
            r@ == (total, self@.1),
    {
        Generator { total, ..self }
    }

    /// Sets the duration to pause between values.
    pub fn with_pause(self, pause: Option<Duration>) -> (r: Generator)
        ensures
            r@ == (self@.0, pause),
    {
        Generator { pause, ..self }
    }

    /// Generates values at `rate` per second: the pause is one second divided by the rate.
    pub fn at_rate_per_second(self, rate: Option<u32>) -> (r: Generator)
        requires
            rate != Some(0u32),
        ensures
            r@.0 == self@.0,
            rate is None ==> r@.1 is None,
            rate matches Some(n) ==> r@.1 == Some(Duration { nanos: pause_for_rate(n) }),
            rate matches Some(n) ==> r@.1->Some_0.nanos * n <= NANOS_PER_SEC
                < (r@.1->Some_0.nanos + 1) * n,
    {
        let pause = match rate {
            Some(amt) => {
                let nanos = NANOS_PER_SEC / (amt as u64);
                proof {
                    let p = nanos as int;
                    let a = amt as int;
                    assert(p * a <= NANOS_PER_SEC < (p + 1) * a) by (nonlinear_arith)
                        requires p == NANOS_PER_SEC as int / a, a > 0;
                }
                Some(Duration { nanos })
            },
            None => None,
        };
        self.with_pause(pause)
    }

    /// The state in which a freshly started generator begins its loop.
    pub fn begin(&self) -> (r: GeneratorState)
        ensures
            r.remaining == self@.0,
            r.pause == self@.1,
            r.yielded == 0,
    {
        GeneratorState { remaining: self.total, pause: self.pause, yielded: 0 }
    }
}

/// What became of an attempt to send a value into the channel without waiting.
#[derive(Clone, Copy, Debug, PartialEq, Eq, Structural)]
pub enum SendOutcome {
    /// The channel took the value.
    Accepted,
    /// The channel is full.
    Full,
    /// The receiver is gone.
    Closed,
}

/// What the generator's loop does after a send.
#[derive(Clone, Copy, Debug, PartialEq, Eq, Structural)]
pub enum GeneratorAction {
    /// Sleep for the duration, then go on.
    Pause(Duration),
    /// Go on at once.
    Continue,
    /// Stop normally, closing the channel.
    Stop,
    /// The channel is full: a fatal condition that ends the generator.
    Overflow,
}

/// The running state of a generator's loop.
#[derive(Clone, Copy, Debug, PartialEq, Eq, Structural)]
pub struct GeneratorState {
    /// How many values remain to be yielded; `None` for no bound.
    pub remaining: Option<u32>,
    /// The pause after each value.
    pub pause: Option<Duration>,
    /// How many values have been yielded, counting up to `u64::MAX`.
    pub yielded: u64,
}

impl GeneratorState {
    /// The loop yields another value unless the bound has been reached.
    pub open spec fn wants_more(self) -> bool {
        self.remaining != Some(0u32)
    }

    /// The state and the action after a send with the given outcome.
    pub open spec fn after(self, outcome: SendOutcome) -> (GeneratorState, GeneratorAction) {
        match outcome {
            SendOutcome::Accepted => {
                let next = GeneratorState {
                    remaining: match self.remaining {
                        Some(n) => Some((n - 1) as u32),
                        None => None,
                    },
                    yielded: if self.yielded < u64::MAX { (self.yielded + 1) as u64 } else { self.yielded },
                    ..self
                };
                let action = match self.pause {
                    Some(d) => GeneratorAction::Pause(d),
                    None => GeneratorAction::Continue,
                };
                (next, action)
            },
            SendOutcome::Full => (self, GeneratorAction::Overflow),
            SendOutcome::Closed => (self, GeneratorAction::Stop),
        }
    }

    /// The state after `k` sends in a row were accepted.
    pub open spec fn after_accepted(self, k: nat) -> GeneratorState
        decreases k,
    {
        if k == 0 {
            self
        } else {
            self.after_accepted((k - 1) as nat).after(SendOutcome::Accepted).0
        }
    }

    /// Returns true if the loop should make and send another value.
    pub fn should_emit(&self) -> (r: bool)
        ensures
            r == self.wants_more(),
    {
        match self.remaining {
            Some(n) => n > 0,
            None => true,
        }
    }

    /// Records the outcome of a send, and returns what the loop does next.
    pub fn on_send(&mut self, outcome: SendOutcome) -> (r: GeneratorAction)
        requires
            old(self).wants_more(),
        ensures
            (*final(self), r) == old(self).after(outcome),
    {
        match outcome {
            SendOutcome::Accepted => {
                if let Some(n) = self.remaining {
                    self.remaining = Some(n - 1);
                }
                self.yielded = self.yielded.saturating_add(1);
                match self.pause {
                    Some(d) => GeneratorAction::Pause(d),
                    None => GeneratorAction::Continue,
                }
            },
            SendOutcome::Full => GeneratorAction::Overflow,
            SendOutcome::Closed => GeneratorAction::Stop,
        }
    }
}

/// A generator bounded by `n` yields exactly `n` values when every send is accepted: it
/// wants another value after `k` accepted sends if and only if `k < n`, and by then it has
/// counted `k` values.
pub proof fn lemma_emits_exactly_total(g: Generator, n: u32, k: nat)
    requires
        g@.0 == Some(n),
        k <= n,
    ensures
        ({
            let s = GeneratorState { remaining: g@.0, pause: g@.1, yielded: 0 }.after_accepted(k);
            &&& s.wants_more() <==> k < n
            &&& s.yielded == k
            &&& s.remaining == Some((n - k) as u32)
        }),
    decreases k,
{
    if k > 0 {
        lemma_emits_exactly_total(g, n, (k - 1) as nat);
    }
}

/// A generator without a bound wants another value after any number of accepted sends;
/// it stops only when its receiver is gone, or on a full channel.
pub proof fn lemma_unbounded_runs_until_closed(s: GeneratorState, k: nat)
    requires
        s.remaining is None,
    ensures
        s.after_accepted(k).wants_more(),
        s.after_accepted(k).remaining is None,
        s.after_accepted(k).after(SendOutcome::Closed).1 == GeneratorAction::Stop,
    decreases k,
{
    if k > 0 {
        lemma_unbounded_runs_until_closed(s, (k - 1) as nat);
    }
}

} // verus!
