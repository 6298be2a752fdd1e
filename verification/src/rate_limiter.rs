//! Pacing of outbound requests.
//!
//! The limiter is the clock state alone: when the last request was let
//! through, and how far apart requests must be. It does not read a clock
//! and does not sleep. The caller hands in the time, gets told how long to
//! wait, and the instant at which the wait ends is kept as the grant.
//! Times are milliseconds on one clock, whichever the caller reads.

use vstd::prelude::*;

verus! {

/// The pacing state shared by all requests. There is one for all who
/// share a quota, so it cannot be copied: whoever paces requests holds it
/// or borrows it.
#[derive(Debug)]
pub struct RateLimiter {
    last_request: u64,
    min_interval: u64,
}

/// The instant of the earliest grant after `last` that keeps `interval`:
/// `last + interval`, or the largest instant there is where that is
/// beyond it.
pub open spec fn due_after(last: u64, interval: u64) -> u64 {
    if last + interval <= u64::MAX {
        (last + interval) as u64
    } else {
        u64::MAX
    }
}

/// The instant at which a request that asks at `now` is let through: at
/// once if the interval has passed, else when it has.
pub open spec fn grant_instant(last: u64, interval: u64, now: u64) -> u64 {
    if now >= due_after(last, interval) {
        now
    } else {
        due_after(last, interval)
    }
}

/// The instants at which requests are let through that ask, one after
/// the other, at the instants `asks`, the last grant before them being at
/// `last`.
pub open spec fn grants(last: u64, interval: u64, asks: Seq<u64>) -> Seq<u64>
    decreases asks.len(),
{
    if asks.len() == 0 {
        Seq::empty()
    } else {
        let earlier = grants(last, interval, asks.drop_last());
        let before = if earlier.len() == 0 {
            last
        } else {
            earlier.last()
        };
        earlier.push(grant_instant(before, interval, asks.last()))
    }
}

impl RateLimiter {
    /// The instant of the last grant; zero before the first.
    pub closed spec fn last_grant(&self) -> u64 {
        self.last_request
    }

    /// The least time between two grants.
    pub closed spec fn interval(&self) -> u64 {
        self.min_interval
    }

    /// A limiter for so many requests a second, with no grant made yet.
    pub fn new(requests_per_second: u64) -> (limiter: RateLimiter)
        requires
            requests_per_second > 0,
        ensures
            limiter.interval() == 1000u64 / requests_per_second,
            limiter.last_grant() == 0,
    {
        RateLimiter { last_request: 0, min_interval: 1000 / requests_per_second }
    }

    /// The least time between two grants, in milliseconds.
    pub fn min_interval_millis(&self) -> (millis: u64)
        ensures
            millis == self.interval(),
    {
        self.min_interval
    }

    /// The instant of the last grant; zero before the first.
    pub fn last_grant_millis(&self) -> (millis: u64)
        ensures
            millis == self.last_grant(),
    {
        self.last_request
    }

    /// Grants the next request to a caller that asks at `now`, and says how
    /// many milliseconds the caller has to let pass first. The grant is
    /// recorded at the instant at which that wait ends.
    pub fn wait_for_next_request(&mut self, now: u64) -> (delay: u64)
        ensures
            final(self).interval() == old(self).interval(),
            final(self).last_grant() == grant_instant(
                old(self).last_grant(),
                old(self).interval(),
                now,
            ),
            now + delay == final(self).last_grant(),
            old(self).last_grant() + old(self).interval() <= u64::MAX ==> final(self).last_grant()
                - old(self).last_grant() >= old(self).interval(),
    {
        let due: u64 = if self.last_request <= u64::MAX - self.min_interval {
            self.last_request + self.min_interval
        } else {
            u64::MAX
        };
        if now >= due {
            self.last_request = now;
            0
        } else {
            self.last_request = due;
            due - now
        }
    }
}

/// The limiter for the provider's quota of ten requests a second.
pub fn get_rate_limiter() -> (limiter: RateLimiter)
    ensures
        limiter.interval() == 100,
        limiter.last_grant() == 0,
{
    RateLimiter::new(10)
}

/// Between one grant and the next lies at least the interval, however the
/// callers' clock readings fall, as long as the instants stay within what
/// a `u64` holds.
pub proof fn lemma_grants_are_spaced(last: u64, interval: u64, asks: Seq<u64>, i: int)
    requires
        0 <= i < asks.len() - 1,
        grants(last, interval, asks)[i] + interval <= u64::MAX,
    ensures
        grants(last, interval, asks).len() == asks.len(),
        grants(last, interval, asks)[i + 1] - grants(last, interval, asks)[i] >= interval,
    decreases asks.len(),
{
    lemma_grants_len(last, interval, asks);
    lemma_grants_len(last, interval, asks.drop_last());
    if i < asks.len() - 2 {
        lemma_grants_are_spaced(last, interval, asks.drop_last(), i);
    }
}

/// Every ask gets its grant, and no grant comes before its ask.
pub proof fn lemma_grants_len(last: u64, interval: u64, asks: Seq<u64>)
    ensures
        grants(last, interval, asks).len() == asks.len(),
        forall|i: int| 0 <= i < asks.len() ==> #[trigger] grants(last, interval, asks)[i] >= asks[i],
    decreases asks.len(),
{
    if asks.len() > 0 {
        lemma_grants_len(last, interval, asks.drop_last());
    }
}

} // verus!
