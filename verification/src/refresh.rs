//! The cadence at which the interactive display pulls a new snapshot.
//!
//! Time is a count of nanoseconds on a monotonic clock that the caller reads.
//! A tick asks for a new snapshot when more than one interval has passed
//! since the last one was pulled, and otherwise keeps the one at hand.

use vstd::prelude::*;

verus! {

/// The least spacing of two acquisitions, in nanoseconds: one second.
pub const REFRESH_INTERVAL_NANOS: u64 = 1_000_000_000;

/// The delay after which the host is to tick again when nothing else wakes
/// it, in nanoseconds: one interval, so that no frame is staler than that.
pub const WAKE_DELAY_NANOS: u64 = REFRESH_INTERVAL_NANOS;

/// When the last snapshot was pulled; `None` while none has been.
#[derive(Clone, Copy, Debug)]
pub struct RefreshClock {
    pub last_acquired: Option<u64>,
}

impl RefreshClock {
    /// Whether a tick at `now` pulls a new snapshot: always while none was
    /// pulled, else when more than one interval has passed since the last.
    pub open spec fn is_due(self, now: u64) -> bool {
        match self.last_acquired {
            None => true,
            Some(last) => now - last > REFRESH_INTERVAL_NANOS,
        }
    }

    /// The clock on which a snapshot was pulled at `now`.
    pub open spec fn started_at(now: u64) -> RefreshClock {
        RefreshClock { last_acquired: Some(now) }
    }

    /// The clock after a tick at `now`.
    pub open spec fn after_tick(self, now: u64) -> RefreshClock {
        if self.is_due(now) {
            Self::started_at(now)
        } else {
            self
        }
    }

    /// A clock on which no snapshot has been pulled yet.
    pub fn idle() -> (clock: RefreshClock)
        ensures
            clock.last_acquired.is_none(),
    {
        RefreshClock { last_acquired: None }
    }

    /// A clock on which a snapshot was pulled at `now`.
    pub fn started(now: u64) -> (clock: RefreshClock)
        ensures
            clock == Self::started_at(now),
    {
        RefreshClock { last_acquired: Some(now) }
    }

    /// Tells whether a tick at `now` would pull a new snapshot.
    pub fn due(&self, now: u64) -> (due: bool)
        ensures
            due == self.is_due(now),
    {
        match self.last_acquired {
            None => true,
            Some(last) => now > last && now - last > REFRESH_INTERVAL_NANOS,
        }
    }

    /// Takes a tick at `now`: tells whether a new snapshot is to be pulled,
    /// and if so records `now` as the time of the acquisition.
    pub fn tick(&mut self, now: u64) -> (acquire: bool)
        ensures
            acquire == old(self).is_due(now),
            *final(self) == old(self).after_tick(now),
    {
        let acquire = self.due(now);
        if acquire {
            self.last_acquired = Some(now);
        }
        acquire
    }
}

/// The clock after ticks at `times`, taken in turn.
pub open spec fn clock_after(clock: RefreshClock, times: Seq<u64>) -> RefreshClock
    decreases times.len(),
{
    if times.len() == 0 {
        clock
    } else {
        clock_after(clock, times.drop_last()).after_tick(times.last())
    }
}

/// Whether, of the ticks at `times`, the one at index `i` pulls a snapshot.
pub open spec fn acquires_at(clock: RefreshClock, times: Seq<u64>, i: int) -> bool {
    clock_after(clock, times.take(i)).is_due(times[i])
}

/// Once the tick at index `i` has pulled a snapshot, the clock holds a time
/// that is no earlier than that tick, whatever ticks follow.
pub proof fn lemma_clock_keeps_latest(clock: RefreshClock, times: Seq<u64>, i: int, upto: int)
    requires
        0 <= i < upto <= times.len(),
        acquires_at(clock, times, i),
    ensures
        clock_after(clock, times.take(upto)).last_acquired.is_some(),
        clock_after(clock, times.take(upto)).last_acquired.unwrap() >= times[i],
    decreases upto,
{
    assert(times.take(upto).drop_last() == times.take(upto - 1));
    assert(times.take(upto).last() == times[upto - 1]);
    if upto > i + 1 {
        lemma_clock_keeps_latest(clock, times, i, upto - 1);
    }
}

/// No two acquisitions lie within one interval: of any run of ticks, two that
/// pull a snapshot are more than the interval apart.
pub proof fn lemma_acquisitions_are_spaced(clock: RefreshClock, times: Seq<u64>, i: int, j: int)
    requires
        0 <= i < j < times.len(),
        acquires_at(clock, times, i),
        acquires_at(clock, times, j),
    ensures
        times[j] - times[i] > REFRESH_INTERVAL_NANOS,
{
    lemma_clock_keeps_latest(clock, times, i, j);
}

/// A clock started at `start` holds, after any ticks, a time no earlier than
/// `start`.
pub proof fn lemma_started_clock_never_earlier(start: u64, times: Seq<u64>)
    ensures
        clock_after(RefreshClock::started_at(start), times).last_acquired.is_some(),
        clock_after(RefreshClock::started_at(start), times).last_acquired.unwrap() >= start,
    decreases times.len(),
{
    if times.len() > 0 {
        lemma_started_clock_never_earlier(start, times.drop_last());
    }
}

/// A tick that pulls a snapshot comes more than one interval after the
/// acquisition with which the clock was started.
pub proof fn lemma_first_acquisition_is_spaced(start: u64, times: Seq<u64>, i: int)
    requires
        0 <= i < times.len(),
        acquires_at(RefreshClock::started_at(start), times, i),
    ensures
        times[i] - start > REFRESH_INTERVAL_NANOS,
{
    lemma_started_clock_never_earlier(start, times.take(i));
}

} // verus!
