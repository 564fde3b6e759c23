use soil_moisture::limiter::{RateLimiter, COST_MS, QUOTA, WINDOW_MS};

#[test]
fn quota_admits_twenty_then_denies() {
    let mut l = RateLimiter::new();
    let t0: u64 = 1_000_000;
    for _ in 0..QUOTA {
        assert!(l.admit_at(b"alice", t0));
    }
    assert!(!l.admit_at(b"alice", t0));
}

#[test]
fn refill_resumes_admission() {
    let mut l = RateLimiter::new();
    let t0: u64 = 1_000_000;
    for _ in 0..QUOTA {
        assert!(l.admit_at(b"alice", t0));
    }
    assert!(!l.admit_at(b"alice", t0));
    // Before one admission's worth of refill has elapsed: still denied.
    assert!(!l.admit_at(b"alice", t0 + COST_MS - 1));
    // Once it has: admission resumes.
    assert!(l.admit_at(b"alice", t0 + COST_MS));
    // And the quota is spent again at once.
    assert!(!l.admit_at(b"alice", t0 + COST_MS));
}

#[test]
fn full_window_restores_full_quota() {
    let mut l = RateLimiter::new();
    let t0: u64 = 5_000;
    for _ in 0..QUOTA {
        assert!(l.admit_at(b"alice", t0));
    }
    assert!(!l.admit_at(b"alice", t0));
    let t1 = t0 + WINDOW_MS;
    for _ in 0..QUOTA {
        assert!(l.admit_at(b"alice", t1));
    }
    assert!(!l.admit_at(b"alice", t1));
}

#[test]
fn identities_have_independent_buckets() {
    let mut l = RateLimiter::new();
    let t0: u64 = 42;
    for _ in 0..QUOTA {
        assert!(l.admit_at(b"alice", t0));
    }
    assert!(!l.admit_at(b"alice", t0));
    // A different caller is untouched by alice's exhaustion.
    for _ in 0..QUOTA {
        assert!(l.admit_at(b"bob", t0));
    }
    assert!(!l.admit_at(b"bob", t0));
    assert!(!l.admit_at(b"alice", t0));
}

#[test]
fn refill_is_continuous_not_a_window_reset() {
    let mut l = RateLimiter::new();
    let t0: u64 = 0;
    for _ in 0..QUOTA {
        assert!(l.admit_at(b"alice", t0));
    }
    // Half a window later, half the quota is back.
    let t1 = t0 + WINDOW_MS / 2;
    for _ in 0..QUOTA / 2 {
        assert!(l.admit_at(b"alice", t1));
    }
    assert!(!l.admit_at(b"alice", t1));
}

#[test]
fn clock_going_backwards_credits_nothing() {
    let mut l = RateLimiter::new();
    let t0: u64 = 1_000_000;
    for _ in 0..QUOTA {
        assert!(l.admit_at(b"alice", t0));
    }
    assert!(!l.admit_at(b"alice", t0 - WINDOW_MS));
    assert!(!l.admit_at(b"alice", t0));
}

#[test]
fn wall_clock_entry_point_admits_fresh_identity() {
    let mut l = RateLimiter::new();
    assert!(l.admit_now(b"carol"));
}
