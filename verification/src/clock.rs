//! Time, taken as a dependency rather than read from the environment.
//!
//! Every component that needs the current moment receives a [`Clock`]. A test
//! then advances twenty seconds at no wall-clock cost, which is the difference
//! between a timeline test suite that runs in milliseconds and one nobody runs.

use vstd::prelude::*;

use crate::time::Duration;
#[allow(unused_imports)]
use crate::time::{less, LONGEST_SPAN};

verus! {

/// A monotonic instant, measured from an unspecified epoch.
///
/// Unlike [`std::time::Instant`] this is an ordinary value: it can be written
/// down, so a recorded trace replays to exactly the state that was recorded. The
/// epoch is arbitrary and only differences between timestamps are meaningful;
/// comparing timestamps taken from two different [`Clock`] instances is not
/// defined.
#[derive(Debug, Clone, Copy, PartialEq, Eq, PartialOrd, Ord)]
pub struct Timestamp {
    since_epoch: Duration,
}

impl View for Timestamp {
    type V = nat;

    closed spec fn view(&self) -> nat {
        self.since_epoch@
    }
}

impl Timestamp {
    /// The moment the counting starts from.
    pub fn epoch() -> (moment: Self)
        ensures
            moment@ == 0,
    {
        Self { since_epoch: Duration::zero() }
    }

    /// The moment a span after the epoch.
    pub fn after_epoch(since_epoch: Duration) -> (moment: Self)
        ensures
            moment@ == since_epoch@,
    {
        Self { since_epoch }
    }

    /// How much time separates this timestamp from the epoch.
    pub fn since_epoch(self) -> (span: Duration)
        ensures
            span@ == self@,
    {
        self.since_epoch
    }

    /// How much time separates this timestamp from an earlier one.
    ///
    /// Saturates at zero when `earlier` is in fact later, because a monotonic
    /// clock running backwards is a bug in the clock rather than a negative
    /// duration every caller should have to handle.
    pub fn since(self, earlier: Self) -> (span: Duration)
        ensures
            span@ == less(self@, earlier@),
    {
        self.since_epoch.saturating_sub(earlier.since_epoch)
    }
}

/// A source of the current moment.
///
/// Implementations must be monotonic: `now()` never returns a value smaller
/// than one it has already returned.
pub trait Clock: Send + Sync {
    /// The current moment.
    fn now(&self) -> Timestamp;
}

/// `std::time::Instant`, held and never looked into.
#[verifier::external_type_specification]
#[verifier::external_body]
pub struct ExInstant(std::time::Instant);

/// `Instant::now` reads the platform's monotonic clock. Nothing is claimed of
/// what it reads.
#[verifier::external_body]
fn instant_now() -> std::time::Instant {
    std::time::Instant::now()
}

/// `Instant::elapsed` says how long ago an instant was, in whole seconds and the
/// nanoseconds of one more. Nothing is claimed of how long ago it was.
#[verifier::external_body]
fn elapsed_since(origin: &std::time::Instant) -> (elapsed: (u64, u32))
    ensures
        elapsed.1 < 1_000_000_000,
{
    let elapsed = origin.elapsed();
    (elapsed.as_secs(), elapsed.subsec_nanos())
}

/// The real clock, backed by [`std::time::Instant`].
#[derive(Debug)]
pub struct SystemClock {
    origin: std::time::Instant,
}

impl SystemClock {
    /// A clock whose epoch is the moment it was created. Which moment that is
    /// only the platform's clock can say.
    pub fn new() -> Self {
        Self { origin: instant_now() }
    }
}

impl Default for SystemClock {
    fn default() -> Self {
        Self::new()
    }
}

impl Clock for SystemClock {
    /// The moment as far after the epoch as the platform's clock says has gone
    /// by: [`Timestamp::after_epoch`] of what was read. How far that is, and that
    /// a later reading is no smaller, only the platform's clock can say.
    fn now(&self) -> (moment: Timestamp)
        ensures
            moment@ <= LONGEST_SPAN,
    {
        let (secs, nanos) = elapsed_since(&self.origin);
        Timestamp::after_epoch(Duration::new(secs, nanos))
    }
}

/// A clock that moves only when a test moves it.
#[derive(Debug)]
pub struct TestClock {
    elapsed: Duration,
}

impl View for TestClock {
    type V = nat;

    closed spec fn view(&self) -> nat {
        self.elapsed@
    }
}

impl TestClock {
    /// A clock stopped at its epoch.
    pub fn new() -> (clock: Self)
        ensures
            clock@ == 0,
    {
        Self { elapsed: Duration::zero() }
    }

    /// Move the clock forward.
    pub fn advance(&mut self, delta: Duration)
        requires
            old(self)@ + delta@ <= LONGEST_SPAN,
        ensures
            final(self)@ == old(self)@ + delta@,
    {
        self.elapsed = self.elapsed.plus(delta);
    }
}

impl Default for TestClock {
    fn default() -> (clock: Self)
        ensures
            clock@ == 0,
    {
        Self::new()
    }
}

impl Clock for TestClock {
    fn now(&self) -> (moment: Timestamp)
        ensures
            moment@ == self@,
    {
        Timestamp { since_epoch: self.elapsed }
    }
}

/// A test clock that is moved forward reads as much later as it was moved.
pub proof fn law_a_test_clock_moves_only_when_moved(before: nat, delta: nat)
    ensures
        less(before + delta, before) == delta,
        less(before, before) == 0,
{
}

} // verus!
