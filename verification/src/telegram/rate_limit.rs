//! Budgets for remote operations: how often and after what delay a failed
//! operation is tried again, and how many operations may run at once and
//! how closely they may follow one another.
//!
//! Neither waits by itself. Both say what the caller has to do: sleep for
//! the delay that is named, or come back when an operation has ended.

use crate::telegram::retry::{backoff_delay, backoff_ms};
use rand::RngCore;
use vstd::prelude::*;

verus! {

/// A random number from `RngCore::next_u64` on rand's thread-local
/// generator. Nothing is claimed of it.
#[verifier::external_body]
fn random_draw() -> u64 {
    rand::thread_rng().next_u64()
}

/// A delay with jitter: up to a quarter more, as `draw` decides, capped at
/// the largest 64-bit number.
pub open spec fn jittered_ms(delay_ms: u64, draw: u64) -> nat {
    let extra = draw as nat % (delay_ms as nat / 4 + 1);
    if delay_ms + extra > u64::MAX {
        u64::MAX as nat
    } else {
        (delay_ms + extra) as nat
    }
}

/// Add jitter to a delay: up to a quarter more, as `draw` decides.
pub fn jittered(delay_ms: u64, draw: u64) -> (r: u64)
    ensures
        r == jittered_ms(delay_ms, draw),
        delay_ms <= r,
        r - delay_ms <= delay_ms / 4,
{
    let spread = delay_ms / 4 + 1;
    let extra = draw % spread;
    if extra > u64::MAX - delay_ms {
        u64::MAX
    } else {
        delay_ms + extra
    }
}

/// Exponential backoff: the delays before the retries of one operation.
#[derive(Debug, Clone)]
pub struct ExponentialBackoff {
    /// Delay before the first retry, in milliseconds.
    base_delay_ms: u64,
    /// Number of retries that are allowed.
    max_attempts: u32,
    /// Number of retries that were handed out.
    attempt: u32,
}

impl ExponentialBackoff {
    /// Delay before the first retry, in milliseconds.
    pub closed spec fn base(&self) -> u64 {
        self.base_delay_ms
    }

    /// Number of retries that are allowed.
    pub closed spec fn limit(&self) -> u32 {
        self.max_attempts
    }

    /// Number of retries that were handed out.
    pub closed spec fn used(&self) -> u32 {
        self.attempt
    }

    /// Backoff from `base_delay_ms`, for at most `max_attempts` retries.
    pub fn new(base_delay_ms: u64, max_attempts: u32) -> (r: Self)
        ensures
            r.base() == base_delay_ms,
            r.limit() == max_attempts,
            r.used() == 0,
    {
        ExponentialBackoff { base_delay_ms, max_attempts, attempt: 0 }
    }

    /// The delay before the next retry in milliseconds, twice the one
    /// before; nothing when the retries are used up.
    pub fn next_delay(&mut self) -> (r: Option<u64>)
        ensures
            final(self).base() == old(self).base(),
            final(self).limit() == old(self).limit(),
            if old(self).used() < old(self).limit() {
                r == Some(backoff_ms(old(self).base(), old(self).used()) as u64) && final(self).used()
                    == old(self).used() + 1
            } else {
                r.is_none() && final(self).used() == old(self).used()
            },
    {
        if self.attempt >= self.max_attempts {
            return None;
        }
        let delay = backoff_delay(self.base_delay_ms, self.attempt);
        self.attempt = self.attempt + 1;
        Some(delay)
    }

    /// The delay before the next retry with jitter: at least the delay of
    /// `next_delay`, and at most a quarter more.
    pub fn next_delay_jittered(&mut self) -> (r: Option<u64>)
        ensures
            final(self).base() == old(self).base(),
            final(self).limit() == old(self).limit(),
            if old(self).used() < old(self).limit() {
                &&& final(self).used() == old(self).used() + 1
                &&& r matches Some(delay) && backoff_ms(old(self).base(), old(self).used()) <= delay
                    && delay - backoff_ms(old(self).base(), old(self).used()) <= backoff_ms(
                    old(self).base(),
                    old(self).used(),
                ) / 4
            } else {
                r.is_none() && final(self).used() == old(self).used()
            },
    {
        match self.next_delay() {
            Some(delay) => Some(jittered(delay, random_draw())),
            None => None,
        }
    }

    /// Start over, after a success.
    pub fn reset(&mut self)
        ensures
            final(self).base() == old(self).base(),
            final(self).limit() == old(self).limit(),
            final(self).used() == 0,
    {
        self.attempt = 0;
    }

    /// Number of retries that were handed out.
    pub fn attempts(&self) -> (r: u32)
        ensures
            r == self.used(),
    {
        self.attempt
    }
}

/// What a limiter says to an operation that wants to start.
#[derive(Debug, Clone, Copy, PartialEq, Eq)]
pub enum Admission {
    /// The operation may start now; it is counted as running until it is
    /// released.
    Granted,
    /// As many operations are running as may run at once: come back when
    /// one has ended.
    Busy,
    /// The operation before this one started too short a time ago: come
    /// back after this many milliseconds.
    Wait(u64),
}

/// The time between two starts that keeps them to `per_second` starts a
/// second, in milliseconds; 0 stands for no limit.
pub open spec fn interval_for(per_second: u32) -> u64 {
    if per_second == 0 {
        0
    } else {
        ((1000 + per_second - 1) / per_second as int) as u64
    }
}

/// A limiter for remote operations: it caps how many run at once, and how
/// closely their starts follow one another.
#[derive(Debug)]
pub struct RateLimiter {
    /// How many operations may run at once.
    max_concurrent: usize,
    /// Least time between two starts, in milliseconds.
    interval_ms: u64,
    /// How many operations are running.
    in_flight: usize,
    /// The time from which the next operation may start.
    next_free_ms: u64,
}

impl RateLimiter {
    #[verifier::type_invariant]
    spec fn within_cap(&self) -> bool {
        self.in_flight <= self.max_concurrent
    }

    /// How many operations may run at once.
    pub closed spec fn cap(&self) -> usize {
        self.max_concurrent
    }

    /// Least time between two starts, in milliseconds.
    pub closed spec fn interval(&self) -> u64 {
        self.interval_ms
    }

    /// How many operations are running.
    pub closed spec fn running(&self) -> usize {
        self.in_flight
    }

    /// The time from which the next operation may start.
    pub closed spec fn next_free(&self) -> u64 {
        self.next_free_ms
    }

    /// A limiter for at most `max_concurrent` operations at once and at
    /// most `per_second` starts a second (0 = no limit on the rate).
    pub fn new(max_concurrent: usize, per_second: u32) -> (r: Self)
        ensures
            r.cap() == max_concurrent,
            r.interval() == interval_for(per_second),
            r.running() == 0,
            r.next_free() == 0,
    {
        let interval_ms: u64 = if per_second == 0 {
            0
        } else {
            (1000 + (per_second as u64) - 1) / (per_second as u64)
        };
        RateLimiter { max_concurrent, interval_ms, in_flight: 0, next_free_ms: 0 }
    }

    /// Ask to start an operation at time `now_ms`. It is granted if fewer
    /// operations are running than may run at once and the last start is
    /// long enough ago; then it counts as running, and the next start is
    /// put off by the interval. Else the limiter stays as it is.
    pub fn try_acquire(&mut self, now_ms: u64) -> (r: Admission)
        ensures
            final(self).cap() == old(self).cap(),
            final(self).interval() == old(self).interval(),
            final(self).running() <= final(self).cap(),
            r == if old(self).running() >= old(self).cap() {
                Admission::Busy
            } else if now_ms < old(self).next_free() {
                Admission::Wait((old(self).next_free() - now_ms) as u64)
            } else {
                Admission::Granted
            },
            r == Admission::Granted ==> final(self).running() == old(self).running() + 1 && final(self).next_free() == if now_ms + old(self).interval() > u64::MAX {
                u64::MAX
            } else {
                (now_ms + old(self).interval()) as u64
            },
            r != Admission::Granted ==> final(self).running() == old(self).running() && final(self).next_free() == old(self).next_free(),
    {
        proof {
            use_type_invariant(&*self);
        }
        if self.in_flight >= self.max_concurrent {
            return Admission::Busy;
        }
        if now_ms < self.next_free_ms {
            return Admission::Wait(self.next_free_ms - now_ms);
        }
        self.in_flight = self.in_flight + 1;
        self.next_free_ms = if self.interval_ms > u64::MAX - now_ms {
            u64::MAX
        } else {
            now_ms + self.interval_ms
        };
        Admission::Granted
    }

    /// An operation has ended: one fewer is running.
    pub fn release(&mut self)
        ensures
            final(self).cap() == old(self).cap(),
            final(self).interval() == old(self).interval(),
            final(self).next_free() == old(self).next_free(),
            final(self).running() == if old(self).running() > 0 {
                (old(self).running() - 1) as usize
            } else {
                0
            },
    {
        proof {
            use_type_invariant(&*self);
        }
        if self.in_flight > 0 {
            self.in_flight = self.in_flight - 1;
        }
    }

    /// How many operations are running: never more than may run at once.
    pub fn in_flight(&self) -> (r: usize)
        ensures
            r == self.running(),
            r <= self.cap(),
    {
        proof {
            use_type_invariant(self);
        }
        self.in_flight
    }
}

/// Starts keep their distance: where a start was granted at `first_ms` and,
/// with the limiter's next free time untouched since, another at
/// `second_ms`, the second is at least the interval later.
pub proof fn lemma_starts_keep_distance(
    before: RateLimiter,
    first_ms: u64,
    after: RateLimiter,
    later: RateLimiter,
    second_ms: u64,
)
    requires
        after.next_free() == if first_ms + before.interval() > u64::MAX {
            u64::MAX
        } else {
            (first_ms + before.interval()) as u64
        },
        later.next_free() == after.next_free(),
        second_ms >= later.next_free(),
        first_ms + before.interval() <= u64::MAX,
    ensures
        second_ms >= first_ms + before.interval(),
{
}

} // verus!
