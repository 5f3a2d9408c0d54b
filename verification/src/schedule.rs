//! Scheduler for daily events, on a clock counted in seconds

use vstd::prelude::*;

verus! {

/// Daily interval of release builds: 24h, in seconds
pub const DAILY_INTERVAL: u64 = 86400;

/// Daily interval of debug builds: 30 minutes, in seconds
pub const DEBUG_DAILY_INTERVAL: u64 = 1800;

/// Scheduler for daily events
#[derive(Debug)]
pub struct Daily {
    next: u64,
    interval: u64,
}

impl Daily {
    /// Time of the next event
    pub closed spec fn next_at(&self) -> u64 {
        self.next
    }

    /// Time between events
    pub closed spec fn period(&self) -> u64 {
        self.interval
    }

    /// Create new daily scheduler at the given time, with the given interval: the first event
    /// is one interval from now
    pub fn new(now: u64, interval: u64) -> (r: Self)
        requires
            now + interval <= u64::MAX,
        ensures
            r.period() == interval,
            r.next_at() == now + interval,
    {
        let mut daily = Daily { next: now, interval };
        daily.schedule_next(now);
        daily
    }

    /// Whether the schedule time has come
    pub fn is_expired(&self, now: u64) -> (r: bool)
        ensures
            r == (self.next_at() <= now),
    {
        self.next <= now
    }

    /// Time left until schedule time (zero once it has come)
    pub fn time_left(&self, now: u64) -> (r: u64)
        ensures
            r == if self.next_at() > now {
                self.next_at() - now
            } else {
                0
            },
    {
        if self.next > now {
            self.next - now
        } else {
            0
        }
    }

    /// Time of the next event, to wait for
    pub fn next(&self) -> (r: u64)
        ensures
            r == self.next_at(),
    {
        self.next
    }

    /// After expiring, schedule the next event: one interval after the expired one, or one
    /// interval from now if that has passed too. Before expiring, nothing changes.
    pub fn schedule_next(&mut self, now: u64)
        requires
            now + old(self).period() <= u64::MAX,
        ensures
            final(self).period() == old(self).period(),
            old(self).next_at() > now ==> final(self).next_at() == old(self).next_at(),
            old(self).next_at() <= now && old(self).next_at() + old(self).period() > now
                ==> final(self).next_at() == old(self).next_at() + old(self).period(),
            old(self).next_at() <= now && old(self).next_at() + old(self).period() <= now
                ==> final(self).next_at() == now + old(self).period(),
            old(self).period() > 0 ==> now < final(self).next_at(),
            old(self).next_at() <= now ==> final(self).next_at() <= now + old(self).period(),
    {
        if self.next <= now {
            self.next = self.next + self.interval;
        }
        if self.next <= now {
            self.next = now + self.interval;
        }
    }
}

} // verus!
