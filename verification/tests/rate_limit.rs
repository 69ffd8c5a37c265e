use tgcryptfs::telegram::rate_limit::{jittered, Admission, ExponentialBackoff, RateLimiter};
use tgcryptfs::telegram::retry::backoff_delay;

#[test]
fn backoff_doubles_until_used_up() {
    let mut backoff = ExponentialBackoff::new(1000, 4);
    assert_eq!(backoff.attempts(), 0);
    assert_eq!(backoff.next_delay(), Some(1000));
    assert_eq!(backoff.next_delay(), Some(2000));
    assert_eq!(backoff.next_delay(), Some(4000));
    assert_eq!(backoff.next_delay(), Some(8000));
    assert_eq!(backoff.attempts(), 4);
    assert_eq!(backoff.next_delay(), None);
    assert_eq!(backoff.next_delay(), None);
    assert_eq!(backoff.attempts(), 4);
    backoff.reset();
    assert_eq!(backoff.attempts(), 0);
    assert_eq!(backoff.next_delay(), Some(1000));
    // No retries at all.
    assert_eq!(ExponentialBackoff::new(1000, 0).next_delay(), None);
    // The delay is capped.
    let mut long = ExponentialBackoff::new(u64::MAX / 2 + 1, 3);
    assert_eq!(long.next_delay(), Some(u64::MAX / 2 + 1));
    assert_eq!(long.next_delay(), Some(u64::MAX));
    assert_eq!(long.next_delay(), Some(u64::MAX));
}

#[test]
fn backoff_jitter_stays_in_its_range() {
    assert_eq!(jittered(1000, 0), 1000);
    assert_eq!(jittered(1000, 250), 1250);
    assert_eq!(jittered(1000, 251), 1000);
    assert_eq!(jittered(1000, 1_000_003), 1000 + 1_000_003 % 251);
    assert_eq!(jittered(0, 77), 0);
    assert_eq!(jittered(3, 77), 3);
    assert_eq!(jittered(u64::MAX, 5), u64::MAX);
    assert_eq!(jittered(u64::MAX - 1, 5), u64::MAX);
    for _ in 0..200 {
        let mut backoff = ExponentialBackoff::new(400, 3);
        for attempt in 0..3u32 {
            let plain = backoff_delay(400, attempt);
            let delay = backoff.next_delay_jittered().unwrap();
            assert!(delay >= plain && delay <= plain + plain / 4);
        }
        assert_eq!(backoff.next_delay_jittered(), None);
    }
}

#[test]
fn limiter_caps_what_runs_at_once() {
    let mut limiter = RateLimiter::new(2, 0);
    assert_eq!(limiter.in_flight(), 0);
    assert_eq!(limiter.try_acquire(10), Admission::Granted);
    assert_eq!(limiter.try_acquire(10), Admission::Granted);
    assert_eq!(limiter.in_flight(), 2);
    assert_eq!(limiter.try_acquire(10), Admission::Busy);
    assert_eq!(limiter.try_acquire(1_000_000), Admission::Busy);
    assert_eq!(limiter.in_flight(), 2);
    limiter.release();
    assert_eq!(limiter.in_flight(), 1);
    assert_eq!(limiter.try_acquire(11), Admission::Granted);
    limiter.release();
    limiter.release();
    limiter.release();
    assert_eq!(limiter.in_flight(), 0);
    // A limiter for nothing at once grants nothing.
    assert_eq!(RateLimiter::new(0, 0).try_acquire(0), Admission::Busy);
}

#[test]
fn limiter_keeps_starts_apart() {
    // Two starts a second: half a second between them.
    let mut limiter = RateLimiter::new(10, 2);
    assert_eq!(limiter.try_acquire(1000), Admission::Granted);
    assert_eq!(limiter.try_acquire(1000), Admission::Wait(500));
    assert_eq!(limiter.try_acquire(1499), Admission::Wait(1));
    assert_eq!(limiter.in_flight(), 1);
    assert_eq!(limiter.try_acquire(1500), Admission::Granted);
    assert_eq!(limiter.try_acquire(1999), Admission::Wait(1));
    // The end of an operation does not bring the next start forward.
    limiter.release();
    assert_eq!(limiter.try_acquire(1999), Admission::Wait(1));
    assert_eq!(limiter.try_acquire(5000), Admission::Granted);
    // Three a second: the interval is rounded up.
    let mut thirds = RateLimiter::new(10, 3);
    assert_eq!(thirds.try_acquire(0), Admission::Granted);
    assert_eq!(thirds.try_acquire(333), Admission::Wait(1));
    assert_eq!(thirds.try_acquire(334), Admission::Granted);
    // At the end of time the limiter still answers.
    let mut last = RateLimiter::new(10, 1);
    assert_eq!(last.try_acquire(u64::MAX - 5), Admission::Granted);
    assert_eq!(last.try_acquire(u64::MAX - 1), Admission::Wait(1));
    assert_eq!(last.try_acquire(u64::MAX), Admission::Granted);
    // The cap on what runs at once comes first.
    let mut both = RateLimiter::new(1, 1);
    assert_eq!(both.try_acquire(0), Admission::Granted);
    assert_eq!(both.try_acquire(1), Admission::Busy);
    both.release();
    assert_eq!(both.try_acquire(1), Admission::Wait(999));
}
