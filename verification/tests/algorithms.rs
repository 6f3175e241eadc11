//! The five limiter algorithms, run against the counter-store model.

use rrate_limiter::counter_store::{counter_step, CounterState, CounterStore, LimiterReply};
use rrate_limiter::rate_limiter::RateLimiterAlgorithms;

fn run_sequence(
    alg: RateLimiterAlgorithms,
    times: &[u64],
    limit: u64,
    expiration: u64,
) -> Vec<LimiterReply> {
    let mut store = CounterStore::new();
    let key = String::from("k");
    let mut replies = Vec::new();
    for &t in times {
        replies.push(store.step(&key, &alg, t, limit, expiration));
    }
    replies
}

#[test]
fn fixed_window_allows_exactly_limit_requests() {
    // Four requests inside one second against limit 3: the fourth is
    // rejected with no remaining headroom.
    let replies = run_sequence(RateLimiterAlgorithms::FixedWindow, &[100, 100, 100, 101], 3, 5);
    let decisions: Vec<u64> = replies.iter().map(|r| r.decision).collect();
    assert_eq!(decisions, vec![1, 1, 1, 0]);
    assert_eq!(replies[0].remaining, 2);
    assert_eq!(replies[1].remaining, 1);
    assert_eq!(replies[2].remaining, 0);
    assert_eq!(replies[3].remaining, 0);
    assert_eq!(replies[3].limit, 3);
}

#[test]
fn fixed_window_expires_with_its_ttl() {
    // A full rejection period, then a request one second after the window
    // ends succeeds.
    let replies = run_sequence(RateLimiterAlgorithms::FixedWindow, &[100, 101, 105], 1, 5);
    let decisions: Vec<u64> = replies.iter().map(|r| r.decision).collect();
    assert_eq!(decisions, vec![1, 0, 1]);
}

#[test]
fn fixed_window_reset_counts_down() {
    let replies = run_sequence(RateLimiterAlgorithms::FixedWindow, &[100, 103], 5, 10);
    assert_eq!(replies[0].reset, 10);
    assert_eq!(replies[1].reset, 7);
}

#[test]
fn sliding_window_log_evicts_old_entries() {
    let replies = run_sequence(RateLimiterAlgorithms::SlidingWindowLog, &[0, 1, 2, 11], 2, 10);
    let decisions: Vec<u64> = replies.iter().map(|r| r.decision).collect();
    // The third request finds the window full; by second 11 the entry from
    // second 0 has left the window.
    assert_eq!(decisions, vec![1, 1, 0, 1]);
    // Rejected at second 2: the oldest surviving entry is from second 0, so
    // capacity returns at second 10.
    assert_eq!(replies[2].reset, 8);
    assert_eq!(replies[2].remaining, 0);
    assert_eq!(replies[0].remaining, 1);
    assert_eq!(replies[1].remaining, 0);
}

#[test]
fn sliding_window_counter_weights_the_previous_bucket() {
    let replies = run_sequence(RateLimiterAlgorithms::SlidingWindowCounter, &[5, 6, 7], 1, 10);
    let decisions: Vec<u64> = replies.iter().map(|r| r.decision).collect();
    // The weighted count only passes the limit strictly, so the second
    // request in the bucket still lands; the third is rejected.
    assert_eq!(decisions, vec![1, 1, 0]);
    assert_eq!(replies[0].reset, 5);
    assert_eq!(replies[1].reset, 4);
    assert_eq!(replies[2].reset, 3);
}

#[test]
fn token_bucket_starts_full_and_refills() {
    // Ten rapid requests drain the bucket, the eleventh is rejected, and two
    // seconds of refill at one token per second admit two more.
    let mut times = vec![1000u64; 11];
    times.push(1002);
    times.push(1002);
    times.push(1002);
    let replies = run_sequence(RateLimiterAlgorithms::TokenBucket, &times, 10, 10);
    let decisions: Vec<u64> = replies.iter().map(|r| r.decision).collect();
    assert_eq!(decisions, vec![1, 1, 1, 1, 1, 1, 1, 1, 1, 1, 0, 1, 1, 0]);
    assert_eq!(replies[0].remaining, 9);
    assert_eq!(replies[9].remaining, 0);
    assert_eq!(replies[10].remaining, 0);
}

#[test]
fn token_bucket_never_exceeds_its_limit_after_idling() {
    // A long idle period cannot push the level past the cap: after the idle
    // gap the bucket still admits exactly its limit.
    let times = [0u64, 3, 3, 3, 3];
    let replies = run_sequence(RateLimiterAlgorithms::TokenBucket, &times, 3, 1000);
    let decisions: Vec<u64> = replies.iter().map(|r| r.decision).collect();
    assert_eq!(decisions, vec![1, 1, 1, 0, 0]);
}

#[test]
fn leaky_bucket_starts_empty_and_rejects_at_the_brim() {
    let replies = run_sequence(RateLimiterAlgorithms::LeakyBucket, &[50, 50, 50], 2, 100);
    let decisions: Vec<u64> = replies.iter().map(|r| r.decision).collect();
    // The bucket starts at zero, holds two queued requests, and rejects the
    // third because count + 1 would pass the limit.
    assert_eq!(decisions, vec![1, 1, 0]);
    assert_eq!(replies[0].remaining, 1);
    assert_eq!(replies[1].remaining, 0);
}

#[test]
fn reset_stays_within_one_second_of_the_expiration() {
    for alg in [
        RateLimiterAlgorithms::FixedWindow,
        RateLimiterAlgorithms::SlidingWindowLog,
        RateLimiterAlgorithms::SlidingWindowCounter,
        RateLimiterAlgorithms::TokenBucket,
        RateLimiterAlgorithms::LeakyBucket,
    ] {
        let replies = run_sequence(alg, &[97, 98, 99, 100, 101, 102], 2, 7);
        for r in replies {
            assert!(r.reset <= 7 + 1);
        }
    }
}

#[test]
fn counter_keys_are_isolated() {
    let mut store = CounterStore::new();
    let alg = RateLimiterAlgorithms::FixedWindow;
    let a = String::from("fw:r1:alice");
    let b = String::from("fw:r1:bob");
    assert_eq!(store.step(&a, &alg, 10, 1, 60).decision, 1);
    assert_eq!(store.step(&a, &alg, 10, 1, 60).decision, 0);
    // A different caller's key is untouched by the first caller's traffic.
    assert_eq!(store.step(&b, &alg, 10, 1, 60).decision, 1);
    assert_eq!(store.len(), 2);
}

#[test]
fn counter_step_initializes_a_missing_key() {
    let (state, reply) = counter_step(&RateLimiterAlgorithms::TokenBucket, None, 500, 4, 8);
    assert_eq!(reply.decision, 1);
    assert_eq!(reply.remaining, 3);
    match state {
        CounterState::TokenBucket { level, last_ts, expires_at } => {
            // Scaled by the expiration: three tokens left of four.
            assert_eq!(level, 3 * 8);
            assert_eq!(last_ts, 500);
            assert_eq!(expires_at, 508);
        },
        _ => panic!("wrong state variant"),
    }
}
