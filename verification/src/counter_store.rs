//! The meaning of the five limiter scripts.
//!
//! Each script of `RateLimiterAlgorithms::get_script` runs atomically in the
//! counter store against one key and returns the four-tuple
//! `(limit, remaining, reset, decision)`.  This module states that behaviour
//! exactly: a `CounterState` is the data the store holds under one counter
//! key, and `counter_step` computes the state after one request together with
//! the reply, at second resolution.  The gateway model and the tests run
//! against these functions; the deployed scripts carry the same
//! algorithms to the store.
//!
//! Bucket levels are held scaled by `expiration`: a stored level of
//! `k * expiration` stands for `k` tokens (or `k` queued leaks), so the
//! fractional refill `elapsed * limit / expiration` becomes the exact integer
//! `elapsed * limit`.

use vstd::prelude::*;

verus! {

/// Largest accepted `limit` argument.
pub const MAX_LIMIT: u64 = 0x7FFF_FFFF;

/// Largest accepted `expiration` argument, in seconds.
pub const MAX_EXPIRATION: u64 = 0x7FFF_FFFF;

/// Largest accepted clock reading, in seconds.
pub const MAX_NOW: u64 = 0xFFFF_FFFF;

/// Largest scaled bucket level: `MAX_LIMIT` tokens, scaled by
/// `MAX_EXPIRATION`.
pub const MAX_LEVEL: u64 = MAX_LIMIT * MAX_EXPIRATION;

/// The four-tuple a limiter script returns: `decision` is 1 to allow the
/// request and 0 to reject it.
#[derive(Debug, Clone, PartialEq, Eq, Structural)]
pub struct LimiterReply {
    pub limit: u64,
    pub remaining: u64,
    pub reset: u64,
    pub decision: u64,
}

/// Mathematical image of a `LimiterReply`.
pub ghost struct LimiterReplyV {
    pub limit: int,
    pub remaining: int,
    pub reset: int,
    pub decision: int,
}

impl View for LimiterReply {
    type V = LimiterReplyV;

    open spec fn view(&self) -> LimiterReplyV {
        LimiterReplyV {
            limit: self.limit as int,
            remaining: self.remaining as int,
            reset: self.reset as int,
            decision: self.decision as int,
        }
    }
}

/// The mathematical image of a sequence of stored timestamps.
pub open spec fn to_ints(s: Seq<u64>) -> Seq<int> {
    s.map(|i: int, e: u64| e as int)
}

/// What the counter store holds under one counter key.  `expires_at` is the
/// absolute second at which the key's TTL runs out; at `now >= expires_at`
/// the key is gone and the next request starts fresh.
pub enum CounterState {
    /// One counter per window; the count represents attempts.
    FixedWindow { count: u64, expires_at: u64 },
    /// The timestamps of the allowed requests still inside the window,
    /// oldest first, plus the monotone suffix counter that keeps concurrent
    /// members distinct.
    WindowLog { entries: Vec<u64>, counter: u64, expires_at: u64 },
    /// Three rotating buckets of `expiration` seconds each.
    WindowCounter { b0: u64, b1: u64, b2: u64, expires_at: u64 },
    /// Remaining tokens, scaled by `expiration`.
    TokenBucket { level: u64, last_ts: u64, expires_at: u64 },
    /// Queued leaks, scaled by `expiration`.
    LeakyBucket { level: u64, last_ts: u64, expires_at: u64 },
}

/// Mathematical image of a `CounterState`.
pub ghost enum CounterStateV {
    FixedWindow { count: int, expires_at: int },
    WindowLog { entries: Seq<int>, counter: int, expires_at: int },
    WindowCounter { b0: int, b1: int, b2: int, expires_at: int },
    TokenBucket { level: int, last_ts: int, expires_at: int },
    LeakyBucket { level: int, last_ts: int, expires_at: int },
}

impl View for CounterState {
    type V = CounterStateV;

    open spec fn view(&self) -> CounterStateV {
        match self {
            CounterState::FixedWindow { count, expires_at } => CounterStateV::FixedWindow {
                count: *count as int,
                expires_at: *expires_at as int,
            },
            CounterState::WindowLog { entries, counter, expires_at } => CounterStateV::WindowLog {
                entries: to_ints(entries@),
                counter: *counter as int,
                expires_at: *expires_at as int,
            },
            CounterState::WindowCounter { b0, b1, b2, expires_at } => CounterStateV::WindowCounter {
                b0: *b0 as int,
                b1: *b1 as int,
                b2: *b2 as int,
                expires_at: *expires_at as int,
            },
            CounterState::TokenBucket { level, last_ts, expires_at } => CounterStateV::TokenBucket {
                level: *level as int,
                last_ts: *last_ts as int,
                expires_at: *expires_at as int,
            },
            CounterState::LeakyBucket { level, last_ts, expires_at } => CounterStateV::LeakyBucket {
                level: *level as int,
                last_ts: *last_ts as int,
                expires_at: *expires_at as int,
            },
        }
    }
}

pub open spec fn expires_of(st: CounterStateV) -> int {
    match st {
        CounterStateV::FixedWindow { expires_at, .. } => expires_at,
        CounterStateV::WindowLog { expires_at, .. } => expires_at,
        CounterStateV::WindowCounter { expires_at, .. } => expires_at,
        CounterStateV::TokenBucket { expires_at, .. } => expires_at,
        CounterStateV::LeakyBucket { expires_at, .. } => expires_at,
    }
}

pub open spec fn sorted_asc(s: Seq<int>) -> bool {
    forall|i: int, j: int| 0 <= i < j < s.len() ==> s[i] <= s[j]
}

/// The state a key can actually hold at time `now`: counts within the
/// machine caps and recorded times not in the future.
pub open spec fn state_coherent(st: CounterStateV, now: int) -> bool {
    match st {
        CounterStateV::FixedWindow { count, expires_at } => {
            0 <= count <= MAX_LIMIT && 0 <= expires_at <= MAX_NOW + MAX_EXPIRATION + 1
        },
        CounterStateV::WindowLog { entries, counter, expires_at } => {
            &&& sorted_asc(entries)
            &&& forall|i: int| 0 <= i < entries.len() ==> 0 <= #[trigger] entries[i] <= now
            &&& entries.len() <= MAX_LIMIT
            &&& 0 <= counter <= u64::MAX
            &&& 0 <= expires_at <= MAX_NOW + MAX_EXPIRATION + 1
        },
        CounterStateV::WindowCounter { b0, b1, b2, expires_at } => {
            &&& 0 <= b0 <= MAX_LIMIT + 1
            &&& 0 <= b1 <= MAX_LIMIT + 1
            &&& 0 <= b2 <= MAX_LIMIT + 1
            &&& 0 <= expires_at <= MAX_NOW + MAX_EXPIRATION + 1
        },
        CounterStateV::TokenBucket { level, last_ts, expires_at } => {
            0 <= level <= MAX_LEVEL && 0 <= last_ts <= now && 0 <= expires_at <= MAX_NOW
                + MAX_EXPIRATION + 1
        },
        CounterStateV::LeakyBucket { level, last_ts, expires_at } => {
            0 <= level <= MAX_LEVEL && 0 <= last_ts <= now && 0 <= expires_at <= MAX_NOW
                + MAX_EXPIRATION + 1
        },
    }
}

/// Coherence is kept as the clock moves forward.
pub proof fn lemma_state_coherent_monotone(st: CounterStateV, now: int, later: int)
    requires
        state_coherent(st, now),
        now <= later,
    ensures
        state_coherent(st, later),
{
}

/// Whether a state belongs to the given algorithm's key namespace.
pub open spec fn state_matches(
    alg: crate::rate_limiter::RateLimiterAlgorithms,
    st: CounterStateV,
) -> bool {
    match alg {
        crate::rate_limiter::RateLimiterAlgorithms::FixedWindow => st is FixedWindow,
        crate::rate_limiter::RateLimiterAlgorithms::SlidingWindowLog => st is WindowLog,
        crate::rate_limiter::RateLimiterAlgorithms::SlidingWindowCounter => st is WindowCounter,
        crate::rate_limiter::RateLimiterAlgorithms::TokenBucket => st is TokenBucket,
        crate::rate_limiter::RateLimiterAlgorithms::LeakyBucket => st is LeakyBucket,
    }
}

/// The state a first touch at `now` creates, before the request itself is
/// counted.
pub open spec fn spec_fresh(
    alg: crate::rate_limiter::RateLimiterAlgorithms,
    now: int,
    limit: int,
    expiration: int,
) -> CounterStateV {
    match alg {
        crate::rate_limiter::RateLimiterAlgorithms::FixedWindow => CounterStateV::FixedWindow {
            count: 0,
            expires_at: now + expiration,
        },
        crate::rate_limiter::RateLimiterAlgorithms::SlidingWindowLog => CounterStateV::WindowLog {
            entries: Seq::empty(),
            counter: 0,
            expires_at: now + expiration + 1,
        },
        crate::rate_limiter::RateLimiterAlgorithms::SlidingWindowCounter => CounterStateV::WindowCounter {
            b0: 0,
            b1: 0,
            b2: 0,
            expires_at: now + expiration + 1,
        },
        crate::rate_limiter::RateLimiterAlgorithms::TokenBucket => CounterStateV::TokenBucket {
            level: limit * expiration,
            last_ts: now,
            expires_at: now + expiration,
        },
        crate::rate_limiter::RateLimiterAlgorithms::LeakyBucket => CounterStateV::LeakyBucket {
            level: 0,
            last_ts: now,
            expires_at: now + expiration,
        },
    }
}

/// One fixed-window call: increment unless the incremented count would pass
/// the limit; the count is never decremented, it represents attempts.
/// `reset` is the remaining TTL of the window.
pub open spec fn spec_fw_step(
    count: int,
    expires_at: int,
    now: int,
    limit: int,
) -> (CounterStateV, LimiterReplyV) {
    if count + 1 > limit {
        (
            CounterStateV::FixedWindow { count, expires_at },
            LimiterReplyV { limit, remaining: 0, reset: expires_at - now, decision: 0 },
        )
    } else {
        (
            CounterStateV::FixedWindow { count: count + 1, expires_at },
            LimiterReplyV {
                limit,
                remaining: limit - (count + 1),
                reset: expires_at - now,
                decision: 1,
            },
        )
    }
}

/// The log entries still inside the window at `now`: scores at least
/// `now - expiration` survive.
pub open spec fn keep_recent(entries: Seq<int>, now: int, expiration: int) -> Seq<int> {
    entries.filter(|e: int| e + expiration >= now)
}

/// One sliding-window-log call: evict entries older than the window, count
/// the survivors, and either record the request's timestamp or reject.
/// `reset` counts from the oldest surviving entry.
pub open spec fn spec_swl_step(
    entries: Seq<int>,
    counter: int,
    now: int,
    limit: int,
    expiration: int,
) -> (CounterStateV, LimiterReplyV) {
    let kept = keep_recent(entries, now, expiration);
    let count = kept.len() as int;
    if count + 1 > limit {
        (
            CounterStateV::WindowLog { entries: kept, counter, expires_at: now + expiration + 1 },
            LimiterReplyV {
                limit,
                remaining: 0,
                reset: if count > 0 {
                    kept[0] + expiration - now
                } else {
                    expiration
                },
                decision: 0,
            },
        )
    } else {
        (
            CounterStateV::WindowLog {
                entries: kept.push(now),
                // The suffix counter saturates at the machine word; the
                // store's own integer would fail long before that.
                counter: if counter + 1 <= u64::MAX {
                    counter + 1
                } else {
                    counter
                },
                expires_at: now + expiration + 1,
            },
            LimiterReplyV {
                limit,
                remaining: limit - count - 1,
                reset: (if count > 0 {
                    kept[0]
                } else {
                    now
                }) + expiration - now,
                decision: 1,
            },
        )
    }
}

pub open spec fn swc_get(b0: int, b1: int, b2: int, i: int) -> int {
    if i == 0 {
        b0
    } else if i == 1 {
        b1
    } else {
        b2
    }
}

/// One sliding-window-counter call over three rotating buckets of
/// `expiration` seconds.  The weighted count blends the previous bucket by
/// the share of the current bucket not yet elapsed; weights are held scaled
/// by `expiration` so the blend is exact.
pub open spec fn spec_swc_step(
    b0: int,
    b1: int,
    b2: int,
    now: int,
    limit: int,
    expiration: int,
) -> (CounterStateV, LimiterReplyV) {
    let nn = now % (3 * expiration);
    let cur = nn / expiration;
    let nxt = (cur + 1) % 3;
    let prv = (cur + 2) % 3;
    // The bucket to come is erased before counting.
    let c0 = if nxt == 0 { 0 } else { b0 };
    let c1 = if nxt == 1 { 0 } else { b1 };
    let c2 = if nxt == 2 { 0 } else { b2 };
    let ntw = nn % expiration;
    let weight = (expiration - ntw) * swc_get(c0, c1, c2, prv) + expiration * swc_get(
        c0,
        c1,
        c2,
        cur,
    );
    let reset = expiration - (now % expiration);
    let expires_at = now + expiration + 1;
    if weight > limit * expiration {
        (
            CounterStateV::WindowCounter { b0: c0, b1: c1, b2: c2, expires_at },
            LimiterReplyV { limit, remaining: 0, reset, decision: 0 },
        )
    } else {
        let d0 = if cur == 0 { c0 + 1 } else { c0 };
        let d1 = if cur == 1 { c1 + 1 } else { c1 };
        let d2 = if cur == 2 { c2 + 1 } else { c2 };
        let remaining = if limit * expiration - weight - expiration >= 0 {
            (limit * expiration - weight - expiration) / expiration
        } else {
            0
        };
        (
            CounterStateV::WindowCounter { b0: d0, b1: d1, b2: d2, expires_at },
            LimiterReplyV { limit, remaining, reset, decision: 1 },
        )
    }
}

/// One token-bucket call: refill `elapsed * limit / expiration` tokens up to
/// the cap of `limit`, then spend one if available.  The last-request
/// timestamp moves only on an allowed request; the TTL is set on first touch
/// only, so `reset` is the key's remaining life.
pub open spec fn spec_tb_step(
    level: int,
    last_ts: int,
    expires_at: int,
    now: int,
    limit: int,
    expiration: int,
) -> (CounterStateV, LimiterReplyV) {
    let cap = limit * expiration;
    let refill = (now - last_ts) * limit;
    let new_level = if level + refill > cap {
        cap
    } else {
        level + refill
    };
    let ttl = expires_at - now;
    if new_level < expiration {
        (
            CounterStateV::TokenBucket { level: new_level, last_ts, expires_at },
            LimiterReplyV { limit, remaining: 0, reset: ttl, decision: 0 },
        )
    } else {
        (
            CounterStateV::TokenBucket { level: new_level - expiration, last_ts: now, expires_at },
            LimiterReplyV {
                limit,
                remaining: new_level / expiration - 1,
                reset: ttl,
                decision: 1,
            },
        )
    }
}

/// One leaky-bucket call: drain `elapsed * limit / expiration` queued leaks
/// down to zero, then queue this request unless the bucket would pass the
/// limit.  As for the token bucket, the timestamp moves only on an allowed
/// request and the TTL is set on first touch only.
pub open spec fn spec_lb_step(
    level: int,
    last_ts: int,
    expires_at: int,
    now: int,
    limit: int,
    expiration: int,
) -> (CounterStateV, LimiterReplyV) {
    let cap = limit * expiration;
    let drained = (now - last_ts) * limit;
    let new_level = if level > drained {
        level - drained
    } else {
        0
    };
    let ttl = expires_at - now;
    if new_level + expiration > cap {
        (
            CounterStateV::LeakyBucket { level: new_level, last_ts, expires_at },
            LimiterReplyV { limit, remaining: 0, reset: ttl, decision: 0 },
        )
    } else {
        (
            CounterStateV::LeakyBucket { level: new_level + expiration, last_ts: now, expires_at },
            LimiterReplyV {
                limit,
                remaining: limit - ((new_level + expiration - 1) / expiration) - 1,
                reset: ttl,
                decision: 1,
            },
        )
    }
}

/// One call of the given algorithm's script against one key: a missing or
/// expired key is created fresh, then the algorithm's step runs.
pub open spec fn spec_counter_step(
    alg: crate::rate_limiter::RateLimiterAlgorithms,
    prior: Option<CounterStateV>,
    now: int,
    limit: int,
    expiration: int,
) -> (CounterStateV, LimiterReplyV) {
    let st = if prior is Some && state_matches(alg, prior->Some_0) && now < expires_of(
        prior->Some_0,
    ) {
        prior->Some_0
    } else {
        spec_fresh(alg, now, limit, expiration)
    };
    match st {
        CounterStateV::FixedWindow { count, expires_at } => spec_fw_step(
            count,
            expires_at,
            now,
            limit,
        ),
        CounterStateV::WindowLog { entries, counter, .. } => spec_swl_step(
            entries,
            counter,
            now,
            limit,
            expiration,
        ),
        CounterStateV::WindowCounter { b0, b1, b2, .. } => spec_swc_step(
            b0,
            b1,
            b2,
            now,
            limit,
            expiration,
        ),
        CounterStateV::TokenBucket { level, last_ts, expires_at } => spec_tb_step(
            level,
            last_ts,
            expires_at,
            now,
            limit,
            expiration,
        ),
        CounterStateV::LeakyBucket { level, last_ts, expires_at } => spec_lb_step(
            level,
            last_ts,
            expires_at,
            now,
            limit,
            expiration,
        ),
    }
}

pub proof fn lemma_keep_recent_empty(now: int, expiration: int)
    ensures
        keep_recent(Seq::empty(), now, expiration) == Seq::<int>::empty(),
{
    reveal(Seq::filter);
}

pub proof fn lemma_keep_recent_push(s: Seq<int>, x: int, now: int, expiration: int)
    ensures
        keep_recent(s.push(x), now, expiration) == if x + expiration >= now {
            keep_recent(s, now, expiration).push(x)
        } else {
            keep_recent(s, now, expiration)
        },
{
    reveal(Seq::filter);
    assert(s.push(x).drop_last() =~= s);
    assert(s.push(x).last() == x);
}

fn fw_step_exec(count: u64, expires_at: u64, now: u64, limit: u64) -> (r: (
    CounterState,
    LimiterReply,
))
    requires
        count <= MAX_LIMIT,
        limit <= MAX_LIMIT,
        now <= expires_at,
        expires_at <= MAX_NOW + MAX_EXPIRATION + 1,
    ensures
        state_coherent(r.0@, now as int),
        r.0@ == spec_fw_step(count as int, expires_at as int, now as int, limit as int).0,
        r.1@ == spec_fw_step(count as int, expires_at as int, now as int, limit as int).1,
{
    let reset = expires_at - now;
    if count + 1 > limit {
        (
            CounterState::FixedWindow { count, expires_at },
            LimiterReply { limit, remaining: 0, reset, decision: 0 },
        )
    } else {
        (
            CounterState::FixedWindow { count: count + 1, expires_at },
            LimiterReply { limit, remaining: limit - (count + 1), reset, decision: 1 },
        )
    }
}

fn swl_step_exec(entries: &Vec<u64>, counter: u64, now: u64, limit: u64, expiration: u64) -> (r: (
    CounterState,
    LimiterReply,
))
    requires
        sorted_asc(to_ints(entries@)),
        forall|i: int| 0 <= i < entries@.len() ==> entries@[i] <= now,
        entries@.len() <= MAX_LIMIT,
        limit <= MAX_LIMIT,
        1 <= expiration <= MAX_EXPIRATION,
        now <= MAX_NOW,
    ensures
        state_coherent(r.0@, now as int),
        r.0@ == spec_swl_step(
            to_ints(entries@),
            counter as int,
            now as int,
            limit as int,
            expiration as int,
        ).0,
        r.1@ == spec_swl_step(
            to_ints(entries@),
            counter as int,
            now as int,
            limit as int,
            expiration as int,
        ).1,
{
    let ghost ev = to_ints(entries@);
    let mut kept: Vec<u64> = Vec::new();
    let mut i: usize = 0;
    proof {
        lemma_keep_recent_empty(now as int, expiration as int);
        assert(ev.take(0) =~= Seq::<int>::empty());
    }
    while i < entries.len()
        invariant
            i <= entries@.len(),
            ev == to_ints(entries@),
            ev.len() == entries@.len(),
            forall|j: int| 0 <= j < entries@.len() ==> ev[j] == entries@[j] as int,
            forall|j: int| 0 <= j < entries@.len() ==> entries@[j] <= now,
            to_ints(kept@) == keep_recent(ev.take(i as int), now as int, expiration as int),
            kept@.len() <= i,
            forall|j: int| 0 <= j < kept@.len() ==> kept@[j] <= now,
            forall|j: int| 0 <= j < kept@.len() ==> kept@[j] + expiration >= now,
            forall|j: int, k: int|
                0 <= j < kept@.len() && i <= k < entries@.len() ==> kept@[j] <= entries@[k],
            sorted_asc(ev),
            sorted_asc(to_ints(kept@)),
            now <= MAX_NOW,
            1 <= expiration <= MAX_EXPIRATION,
        decreases entries@.len() - i,
    {
        let x = entries[i];
        proof {
            lemma_keep_recent_push(
                ev.take(i as int),
                ev[i as int],
                now as int,
                expiration as int,
            );
            assert(ev.take(i as int).push(ev[i as int]) =~= ev.take(i as int + 1));
        }
        if x + expiration >= now {
            let ghost old_kept = kept@;
            kept.push(x);
            proof {
                assert(to_ints(kept@) =~= to_ints(old_kept).push(x as int));
                assert forall|j: int, k: int|
                    0 <= j < kept@.len() && i + 1 <= k < entries@.len() implies kept@[j]
                    <= entries@[k] by {
                    assert(ev[i as int] <= ev[k]);
                }
                assert forall|j: int, k: int|
                    0 <= j < to_ints(kept@).len() && 0 <= k < j implies to_ints(kept@)[k] <= to_ints(
                    kept@,
                )[j] by {
                    if j < to_ints(kept@).len() - 1 {
                        assert(sorted_asc(to_ints(old_kept)));
                    }
                }
            }
        }
        i = i + 1;
    }
    proof {
        assert(ev.take(entries@.len() as int) =~= ev);
    }
    let count = kept.len();
    let expires_at = now + expiration + 1;
    if count + 1 > limit as usize {
        let reset = if count > 0 {
            kept[0] + expiration - now
        } else {
            expiration
        };
        let reply = LimiterReply { limit, remaining: 0, reset, decision: 0 };
        (CounterState::WindowLog { entries: kept, counter, expires_at }, reply)
    } else {
        let reset = if count > 0 {
            kept[0] + expiration - now
        } else {
            expiration
        };
        let remaining = limit - count as u64 - 1;
        let ghost old_kept = kept@;
        kept.push(now);
        proof {
            assert(to_ints(kept@) =~= to_ints(old_kept).push(now as int));
        }
        let new_counter = if counter < u64::MAX {
            counter + 1
        } else {
            counter
        };
        let reply = LimiterReply { limit, remaining, reset, decision: 1 };
        (CounterState::WindowLog { entries: kept, counter: new_counter, expires_at }, reply)
    }
}

fn swc_step_exec(b0: u64, b1: u64, b2: u64, now: u64, limit: u64, expiration: u64) -> (r: (
    CounterState,
    LimiterReply,
))
    requires
        b0 <= MAX_LIMIT + 1,
        b1 <= MAX_LIMIT + 1,
        b2 <= MAX_LIMIT + 1,
        limit <= MAX_LIMIT,
        1 <= expiration <= MAX_EXPIRATION,
        now <= MAX_NOW,
    ensures
        state_coherent(r.0@, now as int),
        r.0@ == spec_swc_step(
            b0 as int,
            b1 as int,
            b2 as int,
            now as int,
            limit as int,
            expiration as int,
        ).0,
        r.1@ == spec_swc_step(
            b0 as int,
            b1 as int,
            b2 as int,
            now as int,
            limit as int,
            expiration as int,
        ).1,
{
    let m = 3 * expiration;
    let nn = now % m;
    let cur = nn / expiration;
    proof {
        assert(nn < m) by (nonlinear_arith)
            requires
                m == 3 * expiration,
                expiration >= 1,
                nn == now as int % (m as int),
                now >= 0,
        ;
        assert(cur < 3) by (nonlinear_arith)
            requires
                cur == nn as int / (expiration as int),
                nn < 3 * expiration,
                expiration >= 1,
                nn >= 0,
        ;
    }
    let nxt = (cur + 1) % 3;
    let prv = (cur + 2) % 3;
    let c0 = if nxt == 0 { 0 } else { b0 };
    let c1 = if nxt == 1 { 0 } else { b1 };
    let c2 = if nxt == 2 { 0 } else { b2 };
    let ntw = nn % expiration;
    let wprv = if prv == 0 { c0 } else if prv == 1 { c1 } else { c2 };
    let wcur = if cur == 0 { c0 } else if cur == 1 { c1 } else { c2 };
    proof {
        assert(ntw < expiration) by (nonlinear_arith)
            requires
                ntw == nn as int % (expiration as int),
                expiration >= 1,
                nn >= 0,
        ;
        assert((expiration - ntw) * wprv <= 0x7FFF_FFFF * 0x8000_0000) by (nonlinear_arith)
            requires
                0 <= expiration - ntw <= 0x7FFF_FFFF,
                0 <= wprv <= 0x8000_0000,
        ;
        assert(expiration * wcur <= 0x7FFF_FFFF * 0x8000_0000) by (nonlinear_arith)
            requires
                0 <= expiration <= 0x7FFF_FFFF,
                0 <= wcur <= 0x8000_0000,
        ;
        assert(limit * expiration <= 0x7FFF_FFFF * 0x7FFF_FFFF) by (nonlinear_arith)
            requires
                0 <= limit <= 0x7FFF_FFFF,
                0 <= expiration <= 0x7FFF_FFFF,
        ;
    }
    let weight = (expiration - ntw) * wprv + expiration * wcur;
    let cap = limit * expiration;
    let reset = expiration - (now % expiration);
    let expires_at = now + expiration + 1;
    if weight > cap {
        let reply = LimiterReply { limit, remaining: 0, reset, decision: 0 };
        (CounterState::WindowCounter { b0: c0, b1: c1, b2: c2, expires_at }, reply)
    } else {
        proof {
            assert(wcur <= limit) by (nonlinear_arith)
                requires
                    expiration * wcur <= limit * expiration,
                    expiration >= 1,
                    wcur >= 0,
                    limit >= 0,
            ;
        }
        let d0 = if cur == 0 { c0 + 1 } else { c0 };
        let d1 = if cur == 1 { c1 + 1 } else { c1 };
        let d2 = if cur == 2 { c2 + 1 } else { c2 };
        let remaining = if cap >= weight + expiration {
            (cap - weight - expiration) / expiration
        } else {
            0
        };
        let reply = LimiterReply { limit, remaining, reset, decision: 1 };
        (CounterState::WindowCounter { b0: d0, b1: d1, b2: d2, expires_at }, reply)
    }
}

fn tb_step_exec(level: u64, last_ts: u64, expires_at: u64, now: u64, limit: u64, expiration: u64)
    -> (r: (CounterState, LimiterReply))
    requires
        level <= MAX_LEVEL,
        last_ts <= now,
        now <= expires_at,
        expires_at <= MAX_NOW + MAX_EXPIRATION + 1,
        limit <= MAX_LIMIT,
        1 <= expiration <= MAX_EXPIRATION,
        now <= MAX_NOW,
    ensures
        state_coherent(r.0@, now as int),
        r.0@ == spec_tb_step(
            level as int,
            last_ts as int,
            expires_at as int,
            now as int,
            limit as int,
            expiration as int,
        ).0,
        r.1@ == spec_tb_step(
            level as int,
            last_ts as int,
            expires_at as int,
            now as int,
            limit as int,
            expiration as int,
        ).1,
{
    proof {
        assert((now - last_ts) * limit <= 0xFFFF_FFFF * 0x7FFF_FFFF) by (nonlinear_arith)
            requires
                0 <= now - last_ts <= 0xFFFF_FFFF,
                0 <= limit <= 0x7FFF_FFFF,
        ;
        assert(limit * expiration <= 0x7FFF_FFFF * 0x7FFF_FFFF) by (nonlinear_arith)
            requires
                0 <= limit <= 0x7FFF_FFFF,
                0 <= expiration <= 0x7FFF_FFFF,
        ;
    }
    let cap = limit * expiration;
    let refill = (now - last_ts) * limit;
    let new_level = if level + refill > cap {
        cap
    } else {
        level + refill
    };
    let ttl = expires_at - now;
    if new_level < expiration {
        let reply = LimiterReply { limit, remaining: 0, reset: ttl, decision: 0 };
        (CounterState::TokenBucket { level: new_level, last_ts, expires_at }, reply)
    } else {
        proof {
            assert(new_level as int / (expiration as int) >= 1) by (nonlinear_arith)
                requires
                    new_level as int >= expiration as int,
                    expiration as int >= 1,
            ;
        }
        let reply = LimiterReply {
            limit,
            remaining: new_level / expiration - 1,
            reset: ttl,
            decision: 1,
        };
        (CounterState::TokenBucket { level: new_level - expiration, last_ts: now, expires_at }, reply)
    }
}

fn lb_step_exec(level: u64, last_ts: u64, expires_at: u64, now: u64, limit: u64, expiration: u64)
    -> (r: (CounterState, LimiterReply))
    requires
        level <= MAX_LEVEL,
        last_ts <= now,
        now <= expires_at,
        expires_at <= MAX_NOW + MAX_EXPIRATION + 1,
        limit <= MAX_LIMIT,
        1 <= expiration <= MAX_EXPIRATION,
        now <= MAX_NOW,
    ensures
        state_coherent(r.0@, now as int),
        r.0@ == spec_lb_step(
            level as int,
            last_ts as int,
            expires_at as int,
            now as int,
            limit as int,
            expiration as int,
        ).0,
        r.1@ == spec_lb_step(
            level as int,
            last_ts as int,
            expires_at as int,
            now as int,
            limit as int,
            expiration as int,
        ).1,
{
    proof {
        assert((now - last_ts) * limit <= 0xFFFF_FFFF * 0x7FFF_FFFF) by (nonlinear_arith)
            requires
                0 <= now - last_ts <= 0xFFFF_FFFF,
                0 <= limit <= 0x7FFF_FFFF,
        ;
        assert(limit * expiration <= 0x7FFF_FFFF * 0x7FFF_FFFF) by (nonlinear_arith)
            requires
                0 <= limit <= 0x7FFF_FFFF,
                0 <= expiration <= 0x7FFF_FFFF,
        ;
    }
    let cap = limit * expiration;
    let drained = (now - last_ts) * limit;
    let new_level = if level > drained {
        level - drained
    } else {
        0
    };
    let ttl = expires_at - now;
    if new_level + expiration > cap {
        let reply = LimiterReply { limit, remaining: 0, reset: ttl, decision: 0 };
        (CounterState::LeakyBucket { level: new_level, last_ts, expires_at }, reply)
    } else {
        proof {
            assert(limit >= 1) by (nonlinear_arith)
                requires
                    new_level + expiration <= limit * expiration,
                    expiration >= 1,
                    new_level >= 0,
            ;
            assert((new_level as int + expiration as int - 1) / (expiration as int) <= limit as int
                - 1) by (nonlinear_arith)
                requires
                    new_level as int + expiration as int <= limit as int * expiration as int,
                    expiration as int >= 1,
                    new_level as int >= 0,
                    limit as int >= 1,
            ;
        }
        let ceil = (new_level + expiration - 1) / expiration;
        let reply = LimiterReply { limit, remaining: limit - ceil - 1, reset: ttl, decision: 1 };
        (CounterState::LeakyBucket { level: new_level + expiration, last_ts: now, expires_at }, reply)
    }
}

/// Runs one request of `alg` against the state the store holds under one
/// counter key (`None` when the key does not exist), at time `now` with the
/// rule's `limit` and `expiration`.  Returns the state the store holds
/// afterwards together with the script's reply.
#[verifier::rlimit(50)]
pub fn counter_step(
    alg: &crate::rate_limiter::RateLimiterAlgorithms,
    prior: Option<&CounterState>,
    now: u64,
    limit: u64,
    expiration: u64,
) -> (r: (CounterState, LimiterReply))
    requires
        limit <= MAX_LIMIT,
        1 <= expiration <= MAX_EXPIRATION,
        now <= MAX_NOW,
        prior matches Some(st) ==> state_coherent(st@, now as int),
    ensures
        r.0@ == spec_counter_step(
            *alg,
            match prior {
                Some(st) => Some(st@),
                None => None,
            },
            now as int,
            limit as int,
            expiration as int,
        ).0,
        r.1@ == spec_counter_step(
            *alg,
            match prior {
                Some(st) => Some(st@),
                None => None,
            },
            now as int,
            limit as int,
            expiration as int,
        ).1,
        state_coherent(r.0@, now as int),
        state_matches(*alg, r.0@),
        r.1@.decision == 0 || r.1@.decision == 1,
        r.1@.limit == limit,
{
    match alg {
        crate::rate_limiter::RateLimiterAlgorithms::FixedWindow => {
            let mut count: u64 = 0;
            let mut expires_at: u64 = now + expiration;
            if let Some(st) = prior {
                if let CounterState::FixedWindow { count: c, expires_at: e } = st {
                    if now < *e {
                        count = *c;
                        expires_at = *e;
                    }
                }
            }
            proof {
                let pv = match prior {
                    Some(st) => Some(st@),
                    None => None::<CounterStateV>,
                };
                let stv = if pv is Some && state_matches(*alg, pv->Some_0) && now < expires_of(
                    pv->Some_0,
                ) {
                    pv->Some_0
                } else {
                    spec_fresh(*alg, now as int, limit as int, expiration as int)
                };
                assert(stv == CounterStateV::FixedWindow {
                    count: count as int,
                    expires_at: expires_at as int,
                });
            }
            fw_step_exec(count, expires_at, now, limit)
        },
        crate::rate_limiter::RateLimiterAlgorithms::SlidingWindowLog => {
            let empty: Vec<u64> = Vec::new();
            let mut entries: &Vec<u64> = &empty;
            let mut counter: u64 = 0;
            if let Some(st) = prior {
                if let CounterState::WindowLog { entries: es, counter: c, expires_at: e } = st {
                    if now < *e {
                        entries = es;
                        counter = *c;
                    }
                }
            }
            proof {
                assert(to_ints(empty@) =~= Seq::<int>::empty());
                assert forall|j: int| 0 <= j < entries@.len() implies entries@[j] <= now by {
                    assert(to_ints(entries@)[j] == entries@[j] as int);
                }
            }
            swl_step_exec(entries, counter, now, limit, expiration)
        },
        crate::rate_limiter::RateLimiterAlgorithms::SlidingWindowCounter => {
            let mut b0: u64 = 0;
            let mut b1: u64 = 0;
            let mut b2: u64 = 0;
            if let Some(st) = prior {
                if let CounterState::WindowCounter { b0: x0, b1: x1, b2: x2, expires_at: e } = st {
                    if now < *e {
                        b0 = *x0;
                        b1 = *x1;
                        b2 = *x2;
                    }
                }
            }
            swc_step_exec(b0, b1, b2, now, limit, expiration)
        },
        crate::rate_limiter::RateLimiterAlgorithms::TokenBucket => {
            proof {
                assert(limit * expiration <= 0x7FFF_FFFF * 0x7FFF_FFFF) by (nonlinear_arith)
                    requires
                        0 <= limit <= 0x7FFF_FFFF,
                        0 <= expiration <= 0x7FFF_FFFF,
                ;
            }
            let mut level: u64 = limit * expiration;
            let mut last_ts: u64 = now;
            let mut expires_at: u64 = now + expiration;
            if let Some(st) = prior {
                if let CounterState::TokenBucket { level: l, last_ts: t, expires_at: e } = st {
                    if now < *e {
                        level = *l;
                        last_ts = *t;
                        expires_at = *e;
                    }
                }
            }
            tb_step_exec(level, last_ts, expires_at, now, limit, expiration)
        },
        crate::rate_limiter::RateLimiterAlgorithms::LeakyBucket => {
            let mut level: u64 = 0;
            let mut last_ts: u64 = now;
            let mut expires_at: u64 = now + expiration;
            if let Some(st) = prior {
                if let CounterState::LeakyBucket { level: l, last_ts: t, expires_at: e } = st {
                    if now < *e {
                        level = *l;
                        last_ts = *t;
                        expires_at = *e;
                    }
                }
            }
            lb_step_exec(level, last_ts, expires_at, now, limit, expiration)
        },
    }
}

pub open spec fn fw_count(st: CounterStateV) -> int {
    match st {
        CounterStateV::FixedWindow { count, .. } => count,
        _ => 0,
    }
}

pub open spec fn wl_entries(st: CounterStateV) -> Seq<int> {
    match st {
        CounterStateV::WindowLog { entries, .. } => entries,
        _ => Seq::empty(),
    }
}

pub open spec fn bucket_level(st: CounterStateV) -> int {
    match st {
        CounterStateV::TokenBucket { level, .. } => level,
        CounterStateV::LeakyBucket { level, .. } => level,
        _ => 0,
    }
}

/// Every surviving log entry lies inside the window `[now - expiration, now]`,
/// and eviction never grows the log.
pub proof fn lemma_keep_recent_elems(entries: Seq<int>, now: int, expiration: int)
    requires
        forall|i: int| 0 <= i < entries.len() ==> #[trigger] entries[i] <= now,
    ensures
        keep_recent(entries, now, expiration).len() <= entries.len(),
        forall|i: int|
            0 <= i < keep_recent(entries, now, expiration).len() ==> now - expiration
                <= #[trigger] keep_recent(entries, now, expiration)[i] && keep_recent(
                entries,
                now,
                expiration,
            )[i] <= now,
    decreases entries.len(),
{
    reveal(Seq::filter);
    if entries.len() > 0 {
        assert(forall|i: int|
            0 <= i < entries.drop_last().len() ==> #[trigger] entries.drop_last()[i] <= now);
        lemma_keep_recent_elems(entries.drop_last(), now, expiration);
    }
}

/// `reset` is never negative and never exceeds `expiration + 1`, whatever the
/// algorithm and whatever state the key holds, as long as the key was planted
/// with the same `expiration`.
pub proof fn lemma_reset_bounds(
    alg: crate::rate_limiter::RateLimiterAlgorithms,
    prior: Option<CounterStateV>,
    now: int,
    limit: int,
    expiration: int,
)
    requires
        0 <= now,
        1 <= expiration,
        0 <= limit,
        prior matches Some(st) ==> state_coherent(st, now) && expires_of(st) <= now + expiration
            + 1,
    ensures
        0 <= spec_counter_step(alg, prior, now, limit, expiration).1.reset,
        spec_counter_step(alg, prior, now, limit, expiration).1.reset <= expiration + 1,
{
    let st = if prior is Some && state_matches(alg, prior->Some_0) && now < expires_of(
        prior->Some_0,
    ) {
        prior->Some_0
    } else {
        spec_fresh(alg, now, limit, expiration)
    };
    match st {
        CounterStateV::FixedWindow { .. } => {},
        CounterStateV::WindowLog { entries, .. } => {
            if prior is Some && state_matches(alg, prior->Some_0) && now < expires_of(
                prior->Some_0,
            ) {
                lemma_keep_recent_elems(entries, now, expiration);
            } else {
                lemma_keep_recent_empty(now, expiration);
            }
        },
        CounterStateV::WindowCounter { .. } => {
            assert(0 <= now % expiration < expiration) by (nonlinear_arith)
                requires
                    now >= 0,
                    expiration >= 1,
            ;
        },
        CounterStateV::TokenBucket { .. } => {},
        CounterStateV::LeakyBucket { .. } => {},
    }
}

/// Fixed-window runs: the final count and the number of allowed requests
/// after serving `times` against one window.
pub open spec fn spec_fw_run(expires_at: int, times: Seq<int>, limit: int) -> (int, int)
    decreases times.len(),
{
    if times.len() == 0 {
        (0, 0)
    } else {
        let prev = spec_fw_run(expires_at, times.drop_last(), limit);
        let step = spec_fw_step(prev.0, expires_at, times.last(), limit);
        (fw_count(step.0), prev.1 + step.1.decision)
    }
}

/// In one fixed window, exactly the first `limit` requests are allowed: any
/// run of `times.len()` requests inside the window allows
/// `min(times.len(), limit)` of them and counts every attempt.
pub proof fn lemma_fw_window_cap(expires_at: int, times: Seq<int>, limit: int)
    requires
        0 <= limit,
    ensures
        spec_fw_run(expires_at, times, limit).0 == spec_fw_run(expires_at, times, limit).1,
        spec_fw_run(expires_at, times, limit).1 == if times.len() <= limit {
            times.len() as int
        } else {
            limit
        },
    decreases times.len(),
{
    if times.len() > 0 {
        lemma_fw_window_cap(expires_at, times.drop_last(), limit);
    }
}

/// For the fixed window, `remaining` equals the limit minus the requests
/// counted in the current window right after the decision, floored at zero.
pub proof fn lemma_fw_remaining(count: int, expires_at: int, now: int, limit: int)
    ensures
        ({
            let (st, rep) = spec_fw_step(count, expires_at, now, limit);
            rep.remaining == if limit - fw_count(st) >= 0 {
                limit - fw_count(st)
            } else {
                0
            }
        }),
{
}

/// For the sliding-window log, `remaining` equals the limit minus the
/// requests still counted in the window right after the decision, floored at
/// zero.
pub proof fn lemma_swl_remaining(
    entries: Seq<int>,
    counter: int,
    now: int,
    limit: int,
    expiration: int,
)
    ensures
        ({
            let (st, rep) = spec_swl_step(entries, counter, now, limit, expiration);
            rep.remaining == if limit - wl_entries(st).len() >= 0 {
                limit - wl_entries(st).len()
            } else {
                0
            }
        }),
{
}

/// The request after a full window is rejected: once the count has reached
/// the limit, the next request inside the same window gets `decision` 0.
pub proof fn lemma_fw_over_limit(count: int, expires_at: int, now: int, limit: int)
    requires
        count >= limit,
    ensures
        spec_fw_step(count, expires_at, now, limit).1.decision == 0,
{
}

/// A fixed-window key expires with its TTL: at or after `expires_at` the next
/// request starts a new window and is allowed whenever the limit is positive.
pub proof fn lemma_fw_expiry(st: CounterStateV, now: int, limit: int, expiration: int)
    requires
        now >= expires_of(st),
        limit >= 1,
    ensures
        spec_counter_step(
            crate::rate_limiter::RateLimiterAlgorithms::FixedWindow,
            Some(st),
            now,
            limit,
            expiration,
        ).1.decision == 1,
{
}

/// The sliding-window log never holds more than `limit` timestamps, and every
/// timestamp it holds lies inside the window that ends at `now`: at most
/// `limit` requests are allowed within any window of `expiration` seconds.
pub proof fn lemma_swl_window_cap(
    entries: Seq<int>,
    counter: int,
    now: int,
    limit: int,
    expiration: int,
)
    requires
        0 <= expiration,
        entries.len() <= limit,
        forall|i: int| 0 <= i < entries.len() ==> #[trigger] entries[i] <= now,
    ensures
        wl_entries(spec_swl_step(entries, counter, now, limit, expiration).0).len() <= limit,
        forall|i: int|
            0 <= i < wl_entries(spec_swl_step(entries, counter, now, limit, expiration).0).len()
                ==> now - expiration <= #[trigger] wl_entries(
                spec_swl_step(entries, counter, now, limit, expiration).0,
            )[i] && wl_entries(spec_swl_step(entries, counter, now, limit, expiration).0)[i] <= now,
{
    lemma_keep_recent_elems(entries, now, expiration);
    let kept = keep_recent(entries, now, expiration);
    let out = wl_entries(spec_swl_step(entries, counter, now, limit, expiration).0);
    assert forall|i: int| 0 <= i < out.len() implies now - expiration <= out[i] && out[i]
        <= now by {
        if i < kept.len() {
            assert(out[i] == kept[i]);
        } else {
            assert(out[i] == now);
        }
    }
}

/// The token bucket starts full at `limit` tokens and can never hold more,
/// however long the key sits idle: levels stay at or below
/// `limit * expiration`.
pub proof fn lemma_tb_cap(
    prior: Option<CounterStateV>,
    now: int,
    limit: int,
    expiration: int,
)
    requires
        1 <= expiration,
        0 <= limit,
        prior matches Some(st) ==> 0 <= bucket_level(st),
    ensures
        bucket_level(
            spec_fresh(crate::rate_limiter::RateLimiterAlgorithms::TokenBucket, now, limit, expiration),
        ) == limit * expiration,
        bucket_level(
            spec_counter_step(
                crate::rate_limiter::RateLimiterAlgorithms::TokenBucket,
                prior,
                now,
                limit,
                expiration,
            ).0,
        ) <= limit * expiration,
{
}

/// Sliding-window-counter runs at one instant: the buckets and the allowed
/// count after `n` requests in the same second.
pub open spec fn spec_swc_burst(
    b0: int,
    b1: int,
    b2: int,
    n: nat,
    now: int,
    limit: int,
    expiration: int,
) -> ((int, int, int), int)
    decreases n,
{
    if n == 0 {
        ((b0, b1, b2), 0)
    } else {
        let prev = spec_swc_burst(b0, b1, b2, (n - 1) as nat, now, limit, expiration);
        let step = spec_swc_step(prev.0.0, prev.0.1, prev.0.2, now, limit, expiration);
        (
            match step.0 {
                CounterStateV::WindowCounter { b0, b1, b2, .. } => (b0, b1, b2),
                _ => (0, 0, 0),
            },
            prev.1 + step.1.decision,
        )
    }
}

/// The sliding-window counter rejects only when the weighted count passes
/// the limit strictly, so a fresh key admits exactly `limit + 1` requests of
/// a same-second burst: one more than the window law asks of the exact
/// algorithms.
pub proof fn lemma_swc_burst_cap(n: nat, now: int, limit: int, expiration: int)
    requires
        1 <= expiration,
        0 <= limit,
        0 <= now,
    ensures
        spec_swc_burst(0, 0, 0, n, now, limit, expiration).1 == if n <= limit + 1 {
            n as int
        } else {
            limit + 1
        },
    decreases n,
{
    let nn = now % (3 * expiration);
    let cur = nn / expiration;
    assert(0 <= nn < 3 * expiration) by (nonlinear_arith)
        requires
            nn == now % (3 * expiration),
            expiration >= 1,
            now >= 0,
    ;
    assert(0 <= cur < 3) by (nonlinear_arith)
        requires
            cur == nn / expiration,
            0 <= nn < 3 * expiration,
            expiration >= 1,
    ;
    if n > 0 {
        lemma_swc_burst_cap((n - 1) as nat, now, limit, expiration);
        let prev = spec_swc_burst(0, 0, 0, (n - 1) as nat, now, limit, expiration);
        lemma_swc_burst_shape((n - 1) as nat, now, limit, expiration);
        let held = swc_get(prev.0.0, prev.0.1, prev.0.2, cur);
        assert(held == prev.1);
        assert(expiration * held <= limit * expiration <==> held <= limit) by (nonlinear_arith)
            requires
                expiration >= 1,
        ;
    }
}

/// In a same-second burst against fresh buckets, only the current bucket
/// fills, and it counts exactly the allowed requests.
proof fn lemma_swc_burst_shape(n: nat, now: int, limit: int, expiration: int)
    requires
        1 <= expiration,
        0 <= limit,
        0 <= now,
    ensures
        ({
            let nn = now % (3 * expiration);
            let cur = nn / expiration;
            let prev = spec_swc_burst(0, 0, 0, n, now, limit, expiration);
            &&& swc_get(prev.0.0, prev.0.1, prev.0.2, cur) == prev.1
            &&& (cur != 0 ==> prev.0.0 == 0)
            &&& (cur != 1 ==> prev.0.1 == 0)
            &&& (cur != 2 ==> prev.0.2 == 0)
            &&& 0 <= prev.1
        }),
    decreases n,
{
    let nn = now % (3 * expiration);
    let cur = nn / expiration;
    assert(0 <= nn < 3 * expiration) by (nonlinear_arith)
        requires
            nn == now % (3 * expiration),
            expiration >= 1,
            now >= 0,
    ;
    assert(0 <= cur < 3) by (nonlinear_arith)
        requires
            cur == nn / expiration,
            0 <= nn < 3 * expiration,
            expiration >= 1,
    ;
    if n > 0 {
        lemma_swc_burst_shape((n - 1) as nat, now, limit, expiration);
    }
}

/// Token-bucket runs at one instant: the level and the allowed count after
/// `n` requests in the same second, starting from a key whose last request
/// was also that second.
pub open spec fn spec_tb_burst(
    level: int,
    n: nat,
    now: int,
    expires_at: int,
    limit: int,
    expiration: int,
) -> (int, int)
    decreases n,
{
    if n == 0 {
        (level, 0)
    } else {
        let prev = spec_tb_burst(level, (n - 1) as nat, now, expires_at, limit, expiration);
        let step = spec_tb_step(prev.0, now, expires_at, now, limit, expiration);
        (bucket_level(step.0), prev.1 + step.1.decision)
    }
}

/// A same-second burst drains the bucket one token per allowed request: of
/// `n` requests, exactly the tokens on hand are granted.
pub proof fn lemma_tb_burst(
    level: int,
    n: nat,
    now: int,
    expires_at: int,
    limit: int,
    expiration: int,
)
    requires
        1 <= expiration,
        0 <= limit,
        0 <= level <= limit * expiration,
    ensures
        spec_tb_burst(level, n, now, expires_at, limit, expiration).1 == if n
            <= level / expiration {
            n as int
        } else {
            level / expiration
        },
        spec_tb_burst(level, n, now, expires_at, limit, expiration).0 == level - expiration
            * spec_tb_burst(level, n, now, expires_at, limit, expiration).1,
    decreases n,
{
    let tokens = level / expiration;
    assert(expiration * tokens <= level && level < expiration * (tokens + 1) && tokens >= 0)
        by (nonlinear_arith)
        requires
            tokens == level / expiration,
            expiration >= 1,
            level >= 0,
    ;
    if n > 0 {
        lemma_tb_burst(level, (n - 1) as nat, now, expires_at, limit, expiration);
        let prev = spec_tb_burst(level, (n - 1) as nat, now, expires_at, limit, expiration);
        assert(prev.0 <= level);
        assert(expiration * (prev.1 + 1) == expiration * prev.1 + expiration)
            by (nonlinear_arith);
        if n - 1 >= tokens {
            assert(prev.0 == level - expiration * tokens);
            assert(prev.0 < expiration) by (nonlinear_arith)
                requires
                    prev.0 == level - expiration * tokens,
                    level < expiration * (tokens + 1),
            ;
        } else {
            assert(prev.0 == level - expiration * (n - 1));
            assert(prev.0 >= expiration) by (nonlinear_arith)
                requires
                    prev.0 == level - expiration * (n - 1),
                    expiration * tokens <= level,
                    n - 1 <= tokens - 1,
                    expiration >= 1,
            ;
        }
    }
}

/// The bucket part of the window law, at its sharpest provable point: a
/// fresh token bucket grants exactly `limit` of any same-second burst.
pub proof fn lemma_tb_burst_cap(n: nat, now: int, limit: int, expiration: int)
    requires
        1 <= expiration,
        0 <= limit,
    ensures
        spec_tb_burst(limit * expiration, n, now, now + expiration, limit, expiration).1 == if n
            <= limit {
            n as int
        } else {
            limit
        },
{
    assert((limit * expiration) / expiration == limit) by (nonlinear_arith)
        requires
            expiration >= 1,
            limit >= 0,
    ;
    assert(0 <= limit * expiration) by (nonlinear_arith)
        requires
            expiration >= 1,
            limit >= 0,
    ;
    lemma_tb_burst(limit * expiration, n, now, now + expiration, limit, expiration);
}

/// Leaky-bucket runs at one instant: the level and the allowed count after
/// `n` requests in the same second, starting from a key whose last request
/// was also that second.
pub open spec fn spec_lb_burst(
    level: int,
    n: nat,
    now: int,
    expires_at: int,
    limit: int,
    expiration: int,
) -> (int, int)
    decreases n,
{
    if n == 0 {
        (level, 0)
    } else {
        let prev = spec_lb_burst(level, (n - 1) as nat, now, expires_at, limit, expiration);
        let step = spec_lb_step(prev.0, now, expires_at, now, limit, expiration);
        (bucket_level(step.0), prev.1 + step.1.decision)
    }
}

/// The bucket part of the window law for the leaky bucket: a fresh, empty
/// bucket queues exactly `limit` of any same-second burst.
pub proof fn lemma_lb_burst_cap(n: nat, now: int, limit: int, expiration: int)
    requires
        1 <= expiration,
        0 <= limit,
    ensures
        spec_lb_burst(0, n, now, now + expiration, limit, expiration).1 == if n <= limit {
            n as int
        } else {
            limit
        },
        spec_lb_burst(0, n, now, now + expiration, limit, expiration).0 == expiration
            * spec_lb_burst(0, n, now, now + expiration, limit, expiration).1,
    decreases n,
{
    if n > 0 {
        lemma_lb_burst_cap((n - 1) as nat, now, limit, expiration);
        let prev = spec_lb_burst(0, (n - 1) as nat, now, now + expiration, limit, expiration);
        assert(expiration * (prev.1 + 1) == expiration * prev.1 + expiration)
            by (nonlinear_arith);
        if n - 1 >= limit {
            assert(prev.0 == expiration * limit);
            assert(prev.0 + expiration > limit * expiration) by (nonlinear_arith)
                requires
                    prev.0 == expiration * limit,
                    expiration >= 1,
            ;
        } else {
            assert(prev.0 == expiration * (n - 1));
            assert(prev.0 + expiration <= limit * expiration) by (nonlinear_arith)
                requires
                    prev.0 == expiration * (n - 1),
                    n <= limit,
                    expiration >= 1,
            ;
        }
    }
}

/// The leaky bucket starts empty, and a request is rejected exactly when the
/// drained level plus this request would pass the limit.
pub proof fn lemma_lb_start_and_reject(level: int, last_ts: int, expires_at: int, now: int, limit: int, expiration: int)
    requires
        1 <= expiration,
    ensures
        bucket_level(
            spec_fresh(crate::rate_limiter::RateLimiterAlgorithms::LeakyBucket, now, limit, expiration),
        ) == 0,
        ({
            let drained = (now - last_ts) * limit;
            let after = if level > drained {
                level - drained
            } else {
                0
            };
            spec_lb_step(level, last_ts, expires_at, now, limit, expiration).1.decision == 0 <==>
                after + expiration > limit * expiration
        }),
{
}

/// The counter-key/state pairs of a store, read as a map; a later pair with
/// the same key would win, but a well-formed store keeps keys unique.
pub open spec fn assoc_map(s: Seq<(String, CounterState)>) -> Map<Seq<char>, CounterStateV>
    decreases s.len(),
{
    if s.len() == 0 {
        Map::empty()
    } else {
        assoc_map(s.drop_last()).insert(s.last().0@, s.last().1@)
    }
}

pub open spec fn unique_keys(s: Seq<(String, CounterState)>) -> bool {
    forall|i: int, j: int| 0 <= i < j < s.len() ==> s[i].0@ != s[j].0@
}

pub proof fn lemma_assoc_contains(s: Seq<(String, CounterState)>, k: Seq<char>)
    ensures
        assoc_map(s).contains_key(k) <==> exists|i: int| 0 <= i < s.len() && s[i].0@ == k,
    decreases s.len(),
{
    if s.len() > 0 {
        lemma_assoc_contains(s.drop_last(), k);
        if s.last().0@ == k {
            assert(s[s.len() - 1].0@ == k);
        } else if assoc_map(s).contains_key(k) {
            let i = choose|i: int| 0 <= i < s.drop_last().len() && s.drop_last()[i].0@ == k;
            assert(s[i].0@ == k);
        } else {
            assert forall|i: int| 0 <= i < s.len() implies s[i].0@ != k by {
                if i < s.len() - 1 {
                    assert(s.drop_last()[i].0@ == s[i].0@);
                }
            }
        }
    }
}

pub proof fn lemma_assoc_index(s: Seq<(String, CounterState)>, i: int)
    requires
        unique_keys(s),
        0 <= i < s.len(),
    ensures
        assoc_map(s).contains_key(s[i].0@),
        assoc_map(s)[s[i].0@] == s[i].1@,
    decreases s.len(),
{
    if i == s.len() - 1 {
    } else {
        assert(s.drop_last()[i] == s[i]);
        lemma_assoc_index(s.drop_last(), i);
        assert(s[i].0@ != s.last().0@);
    }
}

pub proof fn lemma_assoc_update(s: Seq<(String, CounterState)>, i: int, p: (String, CounterState))
    requires
        unique_keys(s),
        0 <= i < s.len(),
        p.0@ == s[i].0@,
    ensures
        assoc_map(s.update(i, p)) == assoc_map(s).insert(p.0@, p.1@),
    decreases s.len(),
{
    let t = s.update(i, p);
    if i == s.len() - 1 {
        assert(t.drop_last() =~= s.drop_last());
        assert(t.last() == p);
        assert(assoc_map(t) == assoc_map(s.drop_last()).insert(p.0@, p.1@));
        assert(assoc_map(s.drop_last()).insert(s.last().0@, s.last().1@).insert(p.0@, p.1@)
            =~= assoc_map(s.drop_last()).insert(p.0@, p.1@));
    } else {
        assert(t.drop_last() =~= s.drop_last().update(i, p));
        assert(s.drop_last()[i] == s[i]);
        lemma_assoc_update(s.drop_last(), i, p);
        assert(t.last() == s.last());
        assert(p.0@ != s.last().0@);
        assert(assoc_map(s.drop_last()).insert(p.0@, p.1@).insert(s.last().0@, s.last().1@)
            =~= assoc_map(s.drop_last()).insert(s.last().0@, s.last().1@).insert(p.0@, p.1@));
    }
}

pub proof fn lemma_assoc_push(s: Seq<(String, CounterState)>, p: (String, CounterState))
    ensures
        assoc_map(s.push(p)) == assoc_map(s).insert(p.0@, p.1@),
{
    assert(s.push(p).drop_last() =~= s);
    assert(s.push(p).last() == p);
}

fn find_key(entries: &Vec<(String, CounterState)>, key: &String) -> (r: Option<usize>)
    ensures
        match r {
            Some(i) => i < entries@.len() && entries@[i as int].0@ == key@,
            None => forall|j: int| 0 <= j < entries@.len() ==> entries@[j].0@ != key@,
        },
{
    let mut i: usize = 0;
    let n = entries.len();
    while i < n
        invariant
            i <= n,
            n == entries@.len(),
            forall|j: int| 0 <= j < i ==> entries@[j].0@ != key@,
        decreases n - i,
    {
        if entries[i].0 == *key {
            return Some(i);
        }
        i = i + 1;
    }
    None
}

/// The model of the shared counter store: one `CounterState` per counter key,
/// keys held unique.
pub struct CounterStore {
    entries: Vec<(String, CounterState)>,
}

impl View for CounterStore {
    type V = Map<Seq<char>, CounterStateV>;

    closed spec fn view(&self) -> Map<Seq<char>, CounterStateV> {
        assoc_map(self.entries@)
    }
}

impl CounterStore {
    pub closed spec fn wf(self) -> bool {
        unique_keys(self.entries@)
    }

    /// Every state the store holds could exist at time `now`.
    pub open spec fn all_coherent(self, now: int) -> bool {
        forall|k: Seq<char>|
            self@.contains_key(k) ==> state_coherent(#[trigger] self@[k], now)
    }

    pub fn new() -> (r: Self)
        ensures
            r.wf(),
            r@ == Map::<Seq<char>, CounterStateV>::empty(),
            forall|now: int| r.all_coherent(now),
            r.key_count() == 0,
    {
        CounterStore { entries: Vec::new() }
    }

    /// How many counter keys the store holds.
    pub closed spec fn key_count(self) -> nat {
        self.entries@.len()
    }

    pub fn len(&self) -> (r: usize)
        ensures
            r == self.key_count(),
    {
        self.entries.len()
    }

    /// Runs one script call against the key: the key's state is replaced by
    /// the algorithm's step and the script's reply is returned.  No other key
    /// changes.
    pub fn step(
        &mut self,
        key: &String,
        alg: &crate::rate_limiter::RateLimiterAlgorithms,
        now: u64,
        limit: u64,
        expiration: u64,
    ) -> (r: LimiterReply)
        requires
            old(self).wf(),
            old(self).all_coherent(now as int),
            limit <= MAX_LIMIT,
            1 <= expiration <= MAX_EXPIRATION,
            now <= MAX_NOW,
        ensures
            final(self).wf(),
            final(self).all_coherent(now as int),
            final(self)@ == old(self)@.insert(
                key@,
                spec_counter_step(
                    *alg,
                    if old(self)@.contains_key(key@) {
                        Some(old(self)@[key@])
                    } else {
                        None
                    },
                    now as int,
                    limit as int,
                    expiration as int,
                ).0,
            ),
            r@ == spec_counter_step(
                *alg,
                if old(self)@.contains_key(key@) {
                    Some(old(self)@[key@])
                } else {
                    None
                },
                now as int,
                limit as int,
                expiration as int,
            ).1,
    {
        let found = find_key(&self.entries, key);
        if let Some(i) = found {
            proof {
                lemma_assoc_index(self.entries@, i as int);
                assert(self@ == old(self)@);
                assert(self@.contains_key(key@));
                assert(self@[key@] == self.entries@[i as int].1@);
                assert(state_coherent(self@[key@], now as int));
            }
            let (st, reply) = counter_step(
                alg,
                Some(&self.entries[i].1),
                now,
                limit,
                expiration,
            );
            let ghost olds = self.entries@;
            self.entries[i] = (key.clone(), st);
            proof {
                lemma_assoc_update(olds, i as int, self.entries@[i as int]);
            }
            proof {
                assert forall|k: Seq<char>| self@.contains_key(k) implies state_coherent(
                    self@[k],
                    now as int,
                ) by {
                    if k != key@ {
                        assert(self@[k] == old(self)@[k]);
                    }
                }
            }
            reply
        } else {
            proof {
                lemma_assoc_contains(self.entries@, key@);
            }
            let (st, reply) = counter_step(alg, None, now, limit, expiration);
            let ghost olds = self.entries@;
            self.entries.push((key.clone(), st));
            proof {
                lemma_assoc_push(olds, self.entries@.last());
                assert forall|k: Seq<char>| self@.contains_key(k) implies state_coherent(
                    self@[k],
                    now as int,
                ) by {
                    if k != key@ {
                        assert(self@[k] == old(self)@[k]);
                    }
                }
            }
            reply
        }
    }
}

} // verus!

