//! The recurring cleanup schedule: armed once at bootstrap, then firing the
//! retention sweep at a fixed interval for as long as the store lives.
use vstd::prelude::*;
use crate::api::{delete_old_tweets, unexpired};
use crate::store::TweetStore;
use crate::time::{TimeDuration, Timestamp, CLEANUP_INTERVAL_MICROS};

verus! {

/// The cleanup timer: its identifier and the interval it recurs at.
#[derive(Clone, Copy, Debug, PartialEq, Eq, Structural)]
pub struct CleanupTimer {
    pub scheduled_id: u64,
    pub scheduled_at: TimeDuration,
}

/// The schedule's state: unarmed until bootstrap, then armed with one timer
/// and the instant of its next firing.
#[derive(Clone, Copy, Debug, PartialEq, Eq, Structural)]
pub struct RetentionSchedule {
    pub timer: Option<CleanupTimer>,
    pub next_due: Timestamp,
}

/// One poll of an armed timer with interval `interval` due at `next_due`,
/// made at `now`: it fires when `now` has reached `next_due`, and the next
/// firing is then one interval later.
pub open spec fn poll_step(next_due: int, interval: int, now: int) -> (int, bool) {
    if now >= next_due {
        (next_due + interval, true)
    } else {
        (next_due, false)
    }
}

/// How many of `n` polls fire, made at `first`, `first + interval`, ... from
/// a timer due at `next_due`.
pub open spec fn fires_over(next_due: int, interval: int, first: int, n: nat) -> nat
    decreases n,
{
    if n == 0 {
        0
    } else {
        let (due2, fired) = poll_step(next_due, interval, first);
        (if fired { 1nat } else { 0nat }) + fires_over(due2, interval, first + interval, (n - 1) as nat)
    }
}

impl RetentionSchedule {
    /// A schedule that is not armed yet.
    pub fn new() -> (r: RetentionSchedule)
        ensures
            r.timer is None,
    {
        RetentionSchedule { timer: None, next_due: Timestamp { micros_since_epoch: 0 } }
    }

    /// Bootstrap: arms the cleanup timer to fire every ten minutes, first one
    /// interval after `now`. Once armed, a further call changes nothing, so
    /// only one schedule is ever active. Always succeeds.
    pub fn init(&mut self, now: Timestamp) -> (r: Result<(), String>)
        ensures
            r is Ok,
            old(self).timer is Some ==> *final(self) == *old(self),
            old(self).timer is None ==> final(self).timer == Some(
                CleanupTimer {
                    scheduled_id: 1,
                    scheduled_at: TimeDuration { micros: CLEANUP_INTERVAL_MICROS },
                },
            ),
            old(self).timer is None ==> final(self).next_due.micros_since_epoch == if now.micros_since_epoch
                + CLEANUP_INTERVAL_MICROS <= i64::MAX {
                now.micros_since_epoch + CLEANUP_INTERVAL_MICROS
            } else {
                i64::MAX as int
            },
    {
        if self.timer.is_some() {
            return Ok(());
        }
        let interval = TimeDuration::from_micros(CLEANUP_INTERVAL_MICROS);
        let due = match now.checked_add(interval) {
            Some(t) => t,
            None => Timestamp { micros_since_epoch: i64::MAX },
        };
        self.timer = Some(CleanupTimer { scheduled_id: 1, scheduled_at: interval });
        self.next_due = due;
        Ok(())
    }

    /// Polls the schedule at `now`: an armed timer fires when `now` has
    /// reached its due instant, and is then due one interval later (held at
    /// the last representable instant when that is past it). An unarmed
    /// schedule never fires. Firing leaves the timer armed.
    pub fn poll(&mut self, now: Timestamp) -> (fired: bool)
        requires
            old(self).timer matches Some(t) ==> t.scheduled_at.micros >= 0,
        ensures
            final(self).timer == old(self).timer,
            old(self).timer is None ==> !fired && *final(self) == *old(self),
            old(self).timer matches Some(t) ==> {
                let (due2, f) = poll_step(
                    old(self).next_due.micros_since_epoch as int,
                    t.scheduled_at.micros as int,
                    now.micros_since_epoch as int,
                );
                &&& fired == f
                &&& due2 <= i64::MAX ==> final(self).next_due.micros_since_epoch == due2
                &&& due2 > i64::MAX ==> final(self).next_due.micros_since_epoch == i64::MAX
            },
    {
        match self.timer {
            None => false,
            Some(t) => {
                if now.micros_since_epoch >= self.next_due.micros_since_epoch {
                    self.next_due = match self.next_due.checked_add(t.scheduled_at) {
                        Some(d) => d,
                        None => Timestamp { micros_since_epoch: i64::MAX },
                    };
                    true
                } else {
                    false
                }
            },
        }
    }
}

/// One tick of the host's clock at `now`: polls the schedule and, when it
/// fires, runs the retention sweep with `now` as the current time. Returns
/// whether the sweep ran.
pub fn on_tick(schedule: &mut RetentionSchedule, store: &mut TweetStore, now: Timestamp) -> (fired: bool)
    requires
        old(store).wf(),
        old(schedule).timer matches Some(t) ==> t.scheduled_at.micros >= 0,
    ensures
        final(store).wf(),
        final(schedule).timer == old(schedule).timer,
        fired == (old(schedule).timer is Some && now.micros_since_epoch >= old(schedule).next_due.micros_since_epoch),
        fired ==> final(store).rows_view() == unexpired(old(store).rows_view(), now),
        !fired ==> *final(store) == *old(store),
{
    let fired = schedule.poll(now);
    if fired {
        let _ = delete_old_tweets(store, now);
    }
    fired
}

/// Liveness of the schedule: polled once per interval starting at its due
/// instant, a timer with a positive interval fires at every one of the `n`
/// polls (`poll` follows `poll_step` while due instants stay representable,
/// and bootstrap leaves the timer due one interval after it ran).
pub proof fn lemma_fires_every_interval(next_due: int, interval: int, n: nat)
    requires
        interval > 0,
    ensures
        fires_over(next_due, interval, next_due, n) == n,
    decreases n,
{
    if n > 0 {
        lemma_fires_every_interval(next_due + interval, interval, (n - 1) as nat);
    }
}

} // verus!
