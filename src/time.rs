//! Instants and durations, counted in microseconds since the Unix epoch.
use vstd::prelude::*;

verus! {

/// How long a record is kept: twenty-four hours.
pub const RETENTION_WINDOW_MICROS: i64 = 86_400_000_000;

/// How often the cleanup schedule fires: ten minutes.
pub const CLEANUP_INTERVAL_MICROS: i64 = 600_000_000;

/// A point in time, in microseconds since the Unix epoch.
#[derive(Clone, Copy, Debug, PartialEq, Eq, Structural)]
pub struct Timestamp {
    pub micros_since_epoch: i64,
}

/// A span of time in microseconds.
#[derive(Clone, Copy, Debug, PartialEq, Eq, Structural)]
pub struct TimeDuration {
    pub micros: i64,
}

impl Timestamp {
    pub fn from_micros_since_unix_epoch(micros: i64) -> (r: Timestamp)
        ensures
            r.micros_since_epoch == micros,
    {
        Timestamp { micros_since_epoch: micros }
    }

    pub fn to_micros_since_unix_epoch(self) -> (r: i64)
        ensures
            r == self.micros_since_epoch,
    {
        self.micros_since_epoch
    }

    /// `self - d`, or `None` when the difference is not representable.
    pub fn checked_sub(self, d: TimeDuration) -> (r: Option<Timestamp>)
        ensures
            match r {
                Some(t) => t.micros_since_epoch == self.micros_since_epoch - d.micros,
                None => !(i64::MIN <= self.micros_since_epoch - d.micros <= i64::MAX),
            },
    {
        let a = self.micros_since_epoch;
        let b = d.micros;
        if b >= 0 {
            if a < i64::MIN + b {
                None
            } else {
                Some(Timestamp { micros_since_epoch: a - b })
            }
        } else {
            if a > i64::MAX + b {
                None
            } else {
                Some(Timestamp { micros_since_epoch: a - b })
            }
        }
    }

    /// `self + d`, or `None` when the sum is not representable.
    pub fn checked_add(self, d: TimeDuration) -> (r: Option<Timestamp>)
        ensures
            match r {
                Some(t) => t.micros_since_epoch == self.micros_since_epoch + d.micros,
                None => !(i64::MIN <= self.micros_since_epoch + d.micros <= i64::MAX),
            },
    {
        let a = self.micros_since_epoch;
        let b = d.micros;
        if b >= 0 {
            if a > i64::MAX - b {
                None
            } else {
                Some(Timestamp { micros_since_epoch: a + b })
            }
        } else {
            if a < i64::MIN - b {
                None
            } else {
                Some(Timestamp { micros_since_epoch: a + b })
            }
        }
    }

    /// Strict order on instants.
    pub fn is_before(self, other: Timestamp) -> (r: bool)
        ensures
            r == (self.micros_since_epoch < other.micros_since_epoch),
    {
        self.micros_since_epoch < other.micros_since_epoch
    }
}

impl TimeDuration {
    pub fn from_micros(micros: i64) -> (r: TimeDuration)
        ensures
            r.micros == micros,
    {
        TimeDuration { micros }
    }

    pub fn to_micros(self) -> (r: i64)
        ensures
            r == self.micros,
    {
        self.micros
    }
}

/// The instant before which a record counts as expired when the sweep runs at
/// `now`: `now` minus the retention window.
pub open spec fn cutoff_of(now: Timestamp) -> int {
    now.micros_since_epoch - RETENTION_WINDOW_MICROS
}

/// Whether a record created at `created_at` is expired at `now`.
pub open spec fn is_expired_at(created_at: Timestamp, now: Timestamp) -> bool {
    (created_at.micros_since_epoch as int) < cutoff_of(now)
}

/// The retention cutoff for a sweep at `now`, or `None` when it lies before
/// the earliest representable instant, so that nothing can be older.
pub fn retention_cutoff(now: Timestamp) -> (r: Option<Timestamp>)
    ensures
        match r {
            Some(c) => c.micros_since_epoch == cutoff_of(now),
            None => cutoff_of(now) < i64::MIN,
        },
{
    now.checked_sub(TimeDuration::from_micros(RETENTION_WINDOW_MICROS))
}

} // verus!
