use chainsync_loadtest::clock::Clock;
use chainsync_loadtest::concurrency::rate_limiter::{Allow, RateLimiter};
use chainsync_loadtest::network::{Network, REQUESTS_PER_SECOND};

#[test]
fn a_burst_goes_at_once_and_then_one_per_tick() {
    let clock = Clock::start();
    let mut r = RateLimiter::new(&clock, 100, 3);
    assert_eq!(r.interval(), 100);
    assert!(r.start() <= clock.now());
    let before = clock.now();
    let later = RateLimiter::new(&clock, 100, 3);
    assert!(before <= later.start() && later.start() <= clock.now());
    assert_eq!(r.allow(0), Allow::Now);
    assert_eq!(r.allow(0), Allow::Now);
    assert_eq!(r.allow(0), Allow::Now);
    assert_eq!(r.allow(0), Allow::AtTick(1));
    r.waited();
    // The token of tick 1 is gone.
    assert_eq!(r.allow(1), Allow::AtTick(2));
    r.waited();
    assert_eq!(r.allow(4), Allow::Now);
    assert_eq!(r.allow(4), Allow::Now);
    assert_eq!(r.allow(4), Allow::AtTick(5));
}

#[test]
fn a_bucket_holds_no_more_than_its_burst() {
    let clock = Clock::start();
    let mut r = RateLimiter::new(&clock, 1, 2);
    assert_eq!(r.allow(1_000), Allow::Now);
    assert_eq!(r.allow(1_000), Allow::Now);
    assert_eq!(r.allow(1_000), Allow::AtTick(1_001));
    assert!(r.accepts(1_000));
    assert!(!r.accepts(999));
    assert!(!r.accepts(u64::MAX));
}

#[test]
fn without_a_burst_each_waits() {
    let clock = Clock::start();
    let mut r = RateLimiter::new(&clock, 1, 0);
    assert_eq!(r.allow(7), Allow::AtTick(8));
    r.waited();
    assert_eq!(r.allow(8), Allow::AtTick(9));
}

#[test]
fn requests_are_let_through_at_a_rate() {
    let n: Network<(), ()> = Network::new(1, 1);
    assert_eq!(REQUESTS_PER_SECOND, 10);
    assert_eq!(n.rate().burst, 10);
    assert_eq!(n.rate().interval, 100_000_000);
}
