//! Retry policy for remote operations.
//!
//! A transient failure is retried after a delay that doubles with every
//! attempt; a rate limit is retried after the time that the remote store
//! names; a fatal failure is never retried.

use crate::error::Error;
use vstd::prelude::*;

verus! {

/// `2^n`.
pub open spec fn pow2(n: nat) -> nat
    decreases n,
{
    if n == 0 {
        1
    } else {
        2 * pow2((n - 1) as nat)
    }
}

/// Delay before retry number `attempt` (counted from 0) with exponential
/// backoff from `base_ms`, capped at the largest 64-bit number.
pub open spec fn backoff_ms(base_ms: u64, attempt: u32) -> nat {
    if base_ms * pow2(attempt as nat) > u64::MAX {
        u64::MAX as nat
    } else {
        (base_ms * pow2(attempt as nat)) as nat
    }
}

/// The delay in milliseconds after which a failed operation is tried again,
/// or nothing where it is not: a fatal failure, or `retry_attempts` retries
/// used up.
pub open spec fn retry_after_ms(error: Error, attempt: u32, retry_attempts: u32, base_ms: u64) -> Option<
    nat,
> {
    if !error.retryable() || attempt >= retry_attempts {
        None
    } else {
        match error {
            Error::TelegramRateLimited { seconds } => Some((seconds * 1000) as nat),
            _ => Some(backoff_ms(base_ms, attempt)),
        }
    }
}

/// The powers of two grow.
proof fn lemma_pow2_grows(n: nat)
    ensures
        pow2(n) >= 1,
        pow2(n + 1) == 2 * pow2(n),
    decreases n,
{
    if n > 0 {
        lemma_pow2_grows((n - 1) as nat);
    }
}

/// Compute the delay of exponential backoff.
pub fn backoff_delay(base_ms: u64, attempt: u32) -> (r: u64)
    ensures
        r == backoff_ms(base_ms, attempt),
{
    let mut delay: u64 = base_ms;
    let mut i: u32 = 0;
    assert(base_ms * pow2(0) == base_ms) by (nonlinear_arith)
        requires
            pow2(0) == 1,
    ;
    while i < attempt
        invariant
            i <= attempt,
            delay == backoff_ms(base_ms, i),
        decreases attempt - i,
    {
        proof {
            lemma_pow2_grows(i as nat);
            assert(base_ms * pow2((i + 1) as nat) == 2 * (base_ms * pow2(i as nat)))
                by (nonlinear_arith)
                requires
                    pow2((i + 1) as nat) == 2 * pow2(i as nat),
            ;
        }
        if delay > u64::MAX / 2 {
            delay = u64::MAX;
        } else {
            delay = delay * 2;
        }
        proof {
            if base_ms * pow2(i as nat) > u64::MAX {
                assert(base_ms * pow2((i + 1) as nat) > u64::MAX);
            }
        }
        i += 1;
    }
    delay
}

/// Decide whether and when to retry a failed operation.
pub fn retry_delay(error: &Error, attempt: u32, retry_attempts: u32, base_ms: u64) -> (r: Option<u64>)
    ensures
        match retry_after_ms(*error, attempt, retry_attempts, base_ms) {
            Some(delay) => r == Some(delay as u64),
            None => r.is_none(),
        },
{
    if !error.is_retryable() || attempt >= retry_attempts {
        return None;
    }
    match error.retry_after() {
        Some(seconds) => Some(seconds as u64 * 1000),
        None => Some(backoff_delay(base_ms, attempt)),
    }
}

} // verus!
