use netfory_provider::ratelimit::RateLimiter;

const SEC: u64 = 1_000_000_000;

#[test]
fn burst_and_refill() {
    let mut l = RateLimiter::new();
    for _ in 0..5 {
        assert!(l.allow_at("p", 5, 0));
    }
    assert!(!l.allow_at("p", 5, 0));
    assert!(!l.allow_at("p", 5, SEC / 5 - 1));
    assert!(l.allow_at("p", 5, SEC / 5));
    assert!(!l.allow_at("p", 5, SEC / 5));
    // A long pause fills the bucket, and no more than that.
    for _ in 0..5 {
        assert!(l.allow_at("p", 5, 100 * SEC));
    }
    assert!(!l.allow_at("p", 5, 100 * SEC));
}

#[test]
fn no_limit_at_zero() {
    let mut l = RateLimiter::default();
    for _ in 0..1000 {
        assert!(l.allow_at("p", 0, 0));
        assert!(l.allow("p", 0));
    }
    // The unlimited requests left no trace.
    assert!(l.allow_at("p", 1, 0));
    assert!(!l.allow_at("p", 1, 0));
}

#[test]
fn peers_do_not_affect_each_other() {
    let mut l = RateLimiter::new();
    assert!(l.allow_at("a", 1, 0));
    assert!(!l.allow_at("a", 1, 0));
    assert!(l.allow_at("b", 1, 0));
    assert!(!l.allow_at("b", 1, 0));
    assert!(l.allow_at("a", 1, SEC));
}

#[test]
fn limit_over_a_stretch_of_time() {
    let mut l = RateLimiter::new();
    let mut allowed = 0u64;
    for i in 0..=1000u64 {
        if l.allow_at("p", 7, i * SEC / 100) {
            allowed += 1;
        }
    }
    // Seven at once, and seven for each of ten seconds.
    assert_eq!(allowed, 7 + 70);
}

#[test]
fn clock_that_runs_back() {
    let mut l = RateLimiter::new();
    assert!(l.allow_at("p", 1, 5 * SEC));
    assert!(!l.allow_at("p", 1, 4 * SEC));
    assert!(l.allow_at("p", 1, 5 * SEC));
}

#[test]
fn lower_rate_takes_tokens_away() {
    let mut l = RateLimiter::new();
    assert!(l.allow_at("p", 10, 0));
    assert!(l.allow_at("p", 2, 0));
    assert!(l.allow_at("p", 2, 0));
    assert!(!l.allow_at("p", 2, 0));
}

#[test]
fn greatest_rate() {
    let mut l = RateLimiter::new();
    assert!(l.allow_at("p", u32::MAX, 0));
    assert!(l.allow_at("p", u32::MAX, u64::MAX));
}

#[test]
fn requests_now() {
    let mut l = RateLimiter::new();
    assert!(l.allow("p", 1));
    let start = l.now();
    assert!(l.now() >= start);
    assert!(l.allow("q", 1));
}
