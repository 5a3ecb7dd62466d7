//! Nanosecond UTC timestamps, and a clock that can be made deterministic.
//!
//! The clock is a value the recorder holds: [`Clock::System`] reads the real
//! one, [`Clock::stepping`] returns a fixed sequence, which makes an exported
//! document byte-for-byte reproducible. Durations are computed by subtraction,
//! saturating at zero, so a clock stepped backwards mid-span yields a
//! zero-length span rather than a negative one.
use vstd::prelude::*;

use std::time::{SystemTime, UNIX_EPOCH};

verus! {

/// A point in time, as nanoseconds since the Unix epoch, UTC.
#[derive(Clone, Copy, Debug, Default, PartialEq, Eq, Structural, PartialOrd, Ord, Hash)]
pub struct Timestamp(u64);

impl Timestamp {
    /// The raw nanosecond count.
    pub closed spec fn nanos(self) -> u64 {
        self.0
    }

    /// A timestamp from a raw nanosecond count.
    pub fn from_nanos(nanos: u64) -> (t: Self)
        ensures
            t.nanos() == nanos,
    {
        Timestamp(nanos)
    }

    /// The raw nanosecond count, which is what OTLP carries on the wire.
    pub fn as_nanos(self) -> (n: u64)
        ensures
            n == self.nanos(),
    {
        self.0
    }

    /// Whole milliseconds since the epoch, truncating.
    pub fn as_millis(self) -> (n: u64)
        ensures
            n == self.nanos() / 1_000_000,
    {
        self.0 / 1_000_000
    }

    /// Nanoseconds from `self` to `later`, saturating at zero.
    pub fn elapsed_to(self, later: Self) -> (n: u64)
        ensures
            n == if later.nanos() >= self.nanos() {
                (later.nanos() - self.nanos()) as u64
            } else {
                0u64
            },
    {
        later.0.saturating_sub(self.0)
    }
}

/// Two timestamps are equal exactly when their nanosecond counts are.
pub proof fn lemma_timestamp_nanos_injective(a: Timestamp, b: Timestamp)
    ensures
        a.nanos() == b.nanos() <==> a == b,
{
}

/// Where timestamps come from.
#[derive(Clone, Copy, Debug, Default, PartialEq, Eq, Structural)]
pub enum Clock {
    /// The machine's wall clock.
    #[default]
    System,
    /// A fixed sequence, for tests: returns `next`, then advances by `step`.
    Stepping {
        /// The next value to be returned.
        next: u64,
        /// How far to advance after each reading.
        step: u64,
    },
}

/// `a + b`, saturating at `u64::MAX`.
pub open spec fn sat_add_u64(a: u64, b: u64) -> u64 {
    if a + b > u64::MAX {
        u64::MAX
    } else {
        (a + b) as u64
    }
}

impl Clock {
    /// A clock that starts at `start` nanoseconds and advances `step` per
    /// reading: a span opened and closed with nothing between lasts exactly
    /// `step`.
    pub fn stepping(start: u64, step: u64) -> (c: Self)
        ensures
            c == (Clock::Stepping { next: start, step }),
    {
        Clock::Stepping { next: start, step }
    }

    /// Reads the current time, advancing a stepping clock, which saturates
    /// rather than wrapping. Never fails: a system clock set before the epoch
    /// reads as zero.
    pub fn now(&mut self) -> (t: Timestamp)
        ensures
            match *old(self) {
                Clock::System => *final(self) == Clock::System,
                Clock::Stepping { next, step } => t.nanos() == next && *final(self) == (
                Clock::Stepping { next: sat_add_u64(next, step), step }),
            },
    {
        match self {
            Clock::System => Timestamp(system_nanos()),
            Clock::Stepping { next, step } => {
                let reading = *next;
                *next = next.saturating_add(*step);
                Timestamp(reading)
            },
        }
    }
}

#[verifier::external_type_specification]
#[verifier::external_body]
pub struct ExSystemTime(SystemTime);

/// std's `SystemTime::now`: the wall clock at the moment of the call. Nothing
/// is promised of the value, which is the machine's.
#[verifier::external_body]
fn system_now() -> SystemTime {
    SystemTime::now()
}

/// std's `SystemTime::duration_since` against the Unix epoch: `None` when
/// the clock reads before the epoch. Nothing is promised of the duration.
#[verifier::external_body]
fn duration_since_epoch(t: SystemTime) -> Option<core::time::Duration> {
    t.duration_since(UNIX_EPOCH).ok()
}

/// std's `Duration::as_nanos`: the whole nanoseconds the duration holds.
/// Nothing is stated of it here, since the duration itself is opaque.
#[verifier::external_body]
fn duration_as_nanos(d: core::time::Duration) -> u128 {
    d.as_nanos()
}

/// Nanoseconds since the Unix epoch, saturating at `u64::MAX`, or zero when
/// the clock is set before the epoch.
fn system_nanos() -> u64 {
    match duration_since_epoch(system_now()) {
        Some(since) => {
            let nanos = duration_as_nanos(since);
            if nanos > u64::MAX as u128 {
                u64::MAX
            } else {
                nanos as u64
            }
        },
        None => 0,
    }
}

} // verus!
