//! When the next refresh starts.

use vstd::prelude::*;

verus! {

/// Whether a refresh has run yet.
#[derive(Clone, Copy, Debug, PartialEq, Eq, Structural)]
pub enum SchedulerState {
    /// No refresh has run yet: the first one starts at once.
    Warming,
    /// A refresh has run: the next one starts when the interval is over.
    Steady,
}

/// What is left of an interval after part of it has elapsed; nothing when
/// more than the interval has elapsed.
pub open spec fn remaining(interval: int, elapsed: int) -> int {
    if elapsed < interval {
        interval - elapsed
    } else {
        0
    }
}

/// A number of seconds in milliseconds, as far as a `u64` holds it.
pub open spec fn millis_of(seconds: int) -> int {
    if seconds * 1000 <= u64::MAX {
        seconds * 1000
    } else {
        u64::MAX as int
    }
}

/// How long to wait before a refresh, in milliseconds: not at all before the
/// first one, else what is left of the interval after the time that the
/// refresh before took.
pub open spec fn wait_of(state: SchedulerState, interval_millis: int, elapsed_millis: int) -> int {
    match state {
        SchedulerState::Warming => 0,
        SchedulerState::Steady => remaining(interval_millis, elapsed_millis),
    }
}

/// Starts one refresh after another, each one interval after the start of
/// the one before. A refresh that takes longer than the interval is followed
/// at once by the next, and by one only.
#[derive(Clone, Copy, Debug)]
pub struct RefreshScheduler {
    state: SchedulerState,
    interval_millis: u64,
}

impl RefreshScheduler {
    /// Whether a refresh has run yet.
    pub closed spec fn spec_state(&self) -> SchedulerState {
        self.state
    }

    /// The refresh interval in milliseconds.
    pub closed spec fn spec_interval_millis(&self) -> u64 {
        self.interval_millis
    }

    /// A scheduler for the given interval, before the first refresh.
    pub fn new(refresh_interval_in_seconds: u64) -> (scheduler: RefreshScheduler)
        ensures
            scheduler.spec_state() == SchedulerState::Warming,
            scheduler.spec_interval_millis() == millis_of(refresh_interval_in_seconds as int),
    {
        let interval_millis = match refresh_interval_in_seconds.checked_mul(1000) {
            Some(millis) => millis,
            None => u64::MAX,
        };
        RefreshScheduler { state: SchedulerState::Warming, interval_millis }
    }

    /// Whether a refresh has run yet.
    #[verifier::when_used_as_spec(spec_state)]
    pub fn state(&self) -> (state: SchedulerState)
        ensures
            state == self.spec_state(),
    {
        self.state
    }

    /// The refresh interval in milliseconds.
    #[verifier::when_used_as_spec(spec_interval_millis)]
    pub fn interval_millis(&self) -> (millis: u64)
        ensures
            millis == self.spec_interval_millis(),
    {
        self.interval_millis
    }

    /// How many milliseconds to wait before the next refresh, where the
    /// refresh before, if there was one, took `elapsed_millis`.
    pub fn next_wait(&self, elapsed_millis: u64) -> (wait_millis: u64)
        ensures
            wait_millis == wait_of(
                self.state(),
                self.interval_millis() as int,
                elapsed_millis as int,
            ),
    {
        match self.state {
            SchedulerState::Warming => 0,
            SchedulerState::Steady => self.interval_millis.saturating_sub(elapsed_millis),
        }
    }

    /// Takes note that a refresh has ended, whether or not it succeeded.
    pub fn cycle_completed(&mut self)
        ensures
            final(self).state() == SchedulerState::Steady,
            final(self).interval_millis() == old(self).interval_millis(),
    {
        self.state = SchedulerState::Steady;
    }
}

/// A refresh that took no longer than the interval is followed by a wait
/// that fills the interval; a longer one is followed by no wait.
pub proof fn lemma_wait_fills_interval(interval_millis: int, elapsed_millis: int)
    requires
        0 <= elapsed_millis,
        0 <= interval_millis,
    ensures
        elapsed_millis <= interval_millis ==> elapsed_millis + wait_of(
            SchedulerState::Steady,
            interval_millis,
            elapsed_millis,
        ) == interval_millis,
        elapsed_millis >= interval_millis ==> wait_of(
            SchedulerState::Steady,
            interval_millis,
            elapsed_millis,
        ) == 0,
{
}

} // verus!
