//! The five limiter algorithms: their wire codes, the server-side script text
//! each one installs in the counter store, and the response-header values a
//! decision produces.
//!
//! The exact meaning of each script is given by the verified step functions in
//! `counter_store`, which this crate's gateway model and tests run against.

use vstd::prelude::*;
use vstd::string::StringExecFns;

use crate::text::{spec_dec, str_eq, u64_to_chars, chars_to_string};

verus! {

/// Response-header values reported after a limiter decision.
#[derive(Debug, Clone)]
pub struct RateLimiterHeaders {
    /// Maximum number of requests allowed.
    pub limit: u64,
    /// Number of requests remaining in the current window.
    pub remaining: u64,
    /// Time in seconds until the rate limit resets.
    pub reset: u64,
    /// The rate limiting policy used.
    pub policy: String,
}

impl RateLimiterHeaders {
    pub fn new(limit: u64, remaining: u64, reset: u64, policy: String) -> (r: Self)
        ensures
            r.limit == limit,
            r.remaining == remaining,
            r.reset == reset,
            r.policy == policy,
    {
        Self { limit, remaining, reset, policy }
    }

    /// The four `X-RateLimit-*` response headers, as name/value pairs with the
    /// numeric values printed in decimal.
    pub fn to_headers(&self) -> (r: Vec<(String, String)>)
        ensures
            r@.len() == 4,
            r@[0].0@ == "X-RateLimit-Limit"@ && r@[0].1@ == spec_dec(self.limit as nat),
            r@[1].0@ == "X-RateLimit-Remaining"@ && r@[1].1@ == spec_dec(self.remaining as nat),
            r@[2].0@ == "X-RateLimit-Reset"@ && r@[2].1@ == spec_dec(self.reset as nat),
            r@[3].0@ == "X-RateLimit-Policy"@ && r@[3].1@ == self.policy@,
    {
        let mut r: Vec<(String, String)> = Vec::new();
        r.push(
            (String::from_str("X-RateLimit-Limit"), chars_to_string(&u64_to_chars(self.limit))),
        );
        r.push(
            (
                String::from_str("X-RateLimit-Remaining"),
                chars_to_string(&u64_to_chars(self.remaining)),
            ),
        );
        r.push(
            (String::from_str("X-RateLimit-Reset"), chars_to_string(&u64_to_chars(self.reset))),
        );
        r.push((String::from_str("X-RateLimit-Policy"), self.policy.clone()));
        r
    }
}

/// The five limiter algorithms.
#[derive(Debug, Clone, Copy, PartialEq, Eq, Structural)]
pub enum RateLimiterAlgorithms {
    FixedWindow,
    SlidingWindowCounter,
    SlidingWindowLog,
    TokenBucket,
    LeakyBucket,
}

impl RateLimiterAlgorithms {
    /// The two- or three-letter wire code of the algorithm: the `policy`
    /// response header and the first component of a counter key.
    pub open spec fn spec_code(self) -> Seq<char> {
        match self {
            RateLimiterAlgorithms::FixedWindow => "fw"@,
            RateLimiterAlgorithms::SlidingWindowCounter => "swc"@,
            RateLimiterAlgorithms::SlidingWindowLog => "swl"@,
            RateLimiterAlgorithms::TokenBucket => "tb"@,
            RateLimiterAlgorithms::LeakyBucket => "lb"@,
        }
    }

    pub fn to_string(&self) -> (r: String)
        ensures
            r@ == self.spec_code(),
    {
        match self {
            RateLimiterAlgorithms::FixedWindow => String::from_str("fw"),
            RateLimiterAlgorithms::SlidingWindowCounter => String::from_str("swc"),
            RateLimiterAlgorithms::SlidingWindowLog => String::from_str("swl"),
            RateLimiterAlgorithms::TokenBucket => String::from_str("tb"),
            RateLimiterAlgorithms::LeakyBucket => String::from_str("lb"),
        }
    }

    pub fn to_str(&self) -> (r: &'static str)
        ensures
            r@ == self.spec_code(),
    {
        match self {
            RateLimiterAlgorithms::FixedWindow => "fw",
            RateLimiterAlgorithms::SlidingWindowCounter => "swc",
            RateLimiterAlgorithms::SlidingWindowLog => "swl",
            RateLimiterAlgorithms::TokenBucket => "tb",
            RateLimiterAlgorithms::LeakyBucket => "lb",
        }
    }

    /// Reads an algorithm back from its wire code; every other string is
    /// rejected.
    pub fn from_string(s: &str) -> (r: Result<Self, ()>)
        ensures
            r is Ok <==> (s@ == RateLimiterAlgorithms::FixedWindow.spec_code() || s@
                == RateLimiterAlgorithms::SlidingWindowCounter.spec_code() || s@
                == RateLimiterAlgorithms::SlidingWindowLog.spec_code() || s@
                == RateLimiterAlgorithms::TokenBucket.spec_code() || s@
                == RateLimiterAlgorithms::LeakyBucket.spec_code()),
            r matches Ok(a) ==> s@ == a.spec_code(),
    {
        if str_eq(s, "fw") {
            Ok(RateLimiterAlgorithms::FixedWindow)
        } else if str_eq(s, "swc") {
            Ok(RateLimiterAlgorithms::SlidingWindowCounter)
        } else if str_eq(s, "swl") {
            Ok(RateLimiterAlgorithms::SlidingWindowLog)
        } else if str_eq(s, "tb") {
            Ok(RateLimiterAlgorithms::TokenBucket)
        } else if str_eq(s, "lb") {
            Ok(RateLimiterAlgorithms::LeakyBucket)
        } else {
            Err(())
        }
    }
}

/// The fixed-window script; its meaning is `counter_store::spec_fw_step`.
pub const FIXED_WINDOW_SCRIPT: &'static str = r#"
local key = KEYS[1]
local limit = tonumber(ARGV[1])
local expiration = tonumber(ARGV[2])

if redis.call('EXISTS', key) == 0 then
    redis.call('SET', key, 0)
    redis.call('EXPIRE', key, expiration)
end

if redis.call('GET', key) + 1 > limit then
    local reset = redis.call('TTL', key)
    return {
        limit,
        0,
        reset,
        '0',
    }
else
    redis.call('INCR', key)
    local remaining = limit - redis.call('GET', key)
    local reset = redis.call('TTL', key)
    return {
        limit,
        remaining,
        reset,
        '1',
    }
end
"#;

/// The sliding-window-log script; its meaning is
/// `counter_store::spec_swl_step`.
pub const SLIDING_WINDOW_LOG_SCRIPT: &'static str = r#"
local k = KEYS[1]
local key = k .. ':ss'
local key_counter = k .. ':counter'

local limit = tonumber(ARGV[1])
local expiration = tonumber(ARGV[2])
local now = redis.call('TIME')[1]

redis.call('ZREMRANGEBYSCORE', key, 0, now - expiration - 1)
local count = redis.call('ZCARD', key)

if count + 1 > limit then
    redis.call('EXPIRE', key, expiration + 1)
    redis.call('EXPIRE', key_counter, expiration + 1)
    local oldest_time_and_member = redis.call('ZRANGE', key, 0, 0, 'WITHSCORES')
    local reset = expiration
    if oldest_time_and_member[2] ~= nil then
        reset = (tonumber(oldest_time_and_member[2]) + expiration) - now
    end
    return {
        limit,
        0,
        reset,
        '0',
    }
else
    redis.call('ZADD', key, now, now .. ':' .. redis.call('INCR', key_counter))
    redis.call('EXPIRE', key, expiration + 1)
    redis.call('EXPIRE', key_counter, expiration + 1)
    local oldest_time_and_member = redis.call('ZRANGE', key, 0, 0, 'WITHSCORES')
    local oldest_time = tonumber(oldest_time_and_member[2])
    local reset = (oldest_time + expiration) - now
    local remaining = limit - count - 1
    return {
        limit,
        remaining,
        reset,
        '1',
    }
end
"#;

/// The sliding-window-counter script; its meaning is
/// `counter_store::spec_swc_step`.
pub const SLIDING_WINDOW_COUNTER_SCRIPT: &'static str = r#"
local key = KEYS[1]
local limit = tonumber(ARGV[1])
local expiration = tonumber(ARGV[2])
local now = redis.call('TIME')[1]
local mod_value = expiration * 3 -- three buckets of 'expiration' seconds each

-- make sure the buckets exist
if redis.call('EXISTS', key) == 0 then
    redis.call('HMSET', key, '0', '0', '1', '0', '2', '0')
end

redis.call('EXPIRE', key, expiration + 1)

local normalized_now = now % mod_value

local current_bucket = math.floor(normalized_now / expiration)
local previous_bucket = (current_bucket + 2) % 3
local next_bucket = (current_bucket + 1) % 3

redis.call('HSET', key, next_bucket, 0) -- reset the counter for the bucket to come

local normalized_to_window = normalized_now % expiration

local previous_bucket_count = tonumber(redis.call('HGET', key, previous_bucket))
local current_bucket_count = tonumber(redis.call('HGET', key, current_bucket))

-- weighted count, scaled by 'expiration' so it stays an integer
local weight = (expiration - normalized_to_window) * previous_bucket_count + expiration * current_bucket_count
local reset = expiration - (now % expiration)
if weight > limit * expiration then
    return {
        limit,
        0,
        reset,
        '0',
    }
else
    redis.call('HINCRBY', key, current_bucket, 1)
    local remaining = 0
    if limit * expiration - weight - expiration >= 0 then
        remaining = math.floor((limit * expiration - weight - expiration) / expiration)
    end
    return {
        limit,
        remaining,
        reset,
        '1',
    }
end
"#;

/// The token-bucket script; its meaning is `counter_store::spec_tb_step`.
/// The token level is held scaled by 'expiration' so refills stay integers.
pub const TOKEN_BUCKET_SCRIPT: &'static str = r#"
local key = KEYS[1]
local limit = tonumber(ARGV[1])
local expiration = tonumber(ARGV[2])
local now = tonumber(redis.call('TIME')[1])
local cap = limit * expiration

-- init the token bucket, full, scaled by 'expiration'
redis.call('HSETNX', key, 'level', cap)
redis.call('HSETNX', key, 'last_rq_timestamp', now)
redis.call('EXPIRE', key, expiration, 'NX')

local ttl = redis.call('TTL', key)

local elapsed = now - tonumber(redis.call('HGET', key, 'last_rq_timestamp'))
local refill = elapsed * limit

local level = tonumber(redis.call('HGET', key, 'level'))
local new_level = math.min(cap, level + refill)

redis.call('HSET', key, 'level', new_level)

if new_level < expiration then
    return {
        limit,
        0,
        ttl,
        '0',
    }
else
    redis.call('HSET', key, 'level', new_level - expiration)
    redis.call('HSET', key, 'last_rq_timestamp', now)
    return {
        limit,
        math.floor(new_level / expiration) - 1,
        ttl,
        '1',
    }
end
"#;

/// The leaky-bucket script; its meaning is `counter_store::spec_lb_step`.
/// The pending-leak level is held scaled by 'expiration'.
pub const LEAKY_BUCKET_SCRIPT: &'static str = r#"
local key = KEYS[1]
local limit = tonumber(ARGV[1])
local expiration = tonumber(ARGV[2])
local now = tonumber(redis.call('TIME')[1])
local cap = limit * expiration

-- init the leaky bucket, empty, scaled by 'expiration'
redis.call('HSETNX', key, 'level', 0)
redis.call('HSETNX', key, 'last_rq_timestamp', now)
redis.call('EXPIRE', key, expiration, 'NX')

local ttl = redis.call('TTL', key)

local elapsed = now - tonumber(redis.call('HGET', key, 'last_rq_timestamp'))
local drained = elapsed * limit

local level = tonumber(redis.call('HGET', key, 'level'))
local new_level = math.max(0, level - drained)

redis.call('HSET', key, 'level', new_level)

if new_level + expiration > cap then
    return {
        limit,
        0,
        ttl,
        '0',
    }
else
    redis.call('HSET', key, 'level', new_level + expiration)
    redis.call('HSET', key, 'last_rq_timestamp', now)
    return {
        limit,
        limit - math.ceil(new_level / expiration) - 1,
        ttl,
        '1',
    }
end
"#;

impl RateLimiterAlgorithms {
    /// The text of the algorithm's counter-store script.
    pub open spec fn spec_script(self) -> Seq<char> {
        match self {
            RateLimiterAlgorithms::FixedWindow => FIXED_WINDOW_SCRIPT@,
            RateLimiterAlgorithms::SlidingWindowCounter => SLIDING_WINDOW_COUNTER_SCRIPT@,
            RateLimiterAlgorithms::SlidingWindowLog => SLIDING_WINDOW_LOG_SCRIPT@,
            RateLimiterAlgorithms::TokenBucket => TOKEN_BUCKET_SCRIPT@,
            RateLimiterAlgorithms::LeakyBucket => LEAKY_BUCKET_SCRIPT@,
        }
    }

    /// The script the algorithm installs in the counter store, invoked with
    /// one counter key and the arguments `(limit, expiration)`.
    pub fn get_script(&self) -> (r: &'static str)
        ensures
            r@ == self.spec_script(),
    {
        match self {
            RateLimiterAlgorithms::FixedWindow => FIXED_WINDOW_SCRIPT,
            RateLimiterAlgorithms::SlidingWindowCounter => SLIDING_WINDOW_COUNTER_SCRIPT,
            RateLimiterAlgorithms::SlidingWindowLog => SLIDING_WINDOW_LOG_SCRIPT,
            RateLimiterAlgorithms::TokenBucket => TOKEN_BUCKET_SCRIPT,
            RateLimiterAlgorithms::LeakyBucket => LEAKY_BUCKET_SCRIPT,
        }
    }
}

/// How the caller of a rate-limited route is identified.
#[derive(Debug, Clone, Copy, PartialEq, Eq, Structural)]
pub enum LimiterTrackingType {
    /// Tracked by the ip address of the requester.
    IP,
    /// A custom header is tracked.
    Header,
}

impl LimiterTrackingType {
    /// The wire code of the tracking type.
    pub open spec fn spec_code(self) -> Seq<char> {
        match self {
            LimiterTrackingType::IP => "ip"@,
            LimiterTrackingType::Header => "header"@,
        }
    }

    pub fn to_string(&self) -> (r: String)
        ensures
            r@ == self.spec_code(),
    {
        match self {
            LimiterTrackingType::IP => String::from_str("ip"),
            LimiterTrackingType::Header => String::from_str("header"),
        }
    }

    /// Reads a tracking type back from its wire code.
    pub fn from_string(s: &str) -> (r: Result<Self, ()>)
        ensures
            r is Ok <==> (s@ == LimiterTrackingType::IP.spec_code() || s@
                == LimiterTrackingType::Header.spec_code()),
            r matches Ok(t) ==> s@ == t.spec_code(),
    {
        if str_eq(s, "ip") {
            Ok(LimiterTrackingType::IP)
        } else if str_eq(s, "header") {
            Ok(LimiterTrackingType::Header)
        } else {
            Err(())
        }
    }
}

/// Reads a limiter script's raw reply, `(limit, remaining, reset, decision)`.
/// A reply that is too short is a counter-store protocol fault; a `decision`
/// of 0 is surfaced as `RateLimitExceeded` carrying the reply's headers.
pub fn execute_rate_limiting(
    result: &Vec<u64>,
    tracked_key: &str,
    algorithm: &RateLimiterAlgorithms,
    route: &str,
) -> (r: Result<RateLimiterHeaders, crate::errors::LimiterError>)
    ensures
        result@.len() < 4 ==> (r matches Err(e) && e is RedisError),
        result@.len() >= 4 && result@[3] == 0 ==> (r matches Err(e) && (
        e matches crate::errors::LimiterError::RateLimitExceeded {
            headers,
            key,
            msg: _,
            route: rt,
        } && headers.limit == result@[0] && headers.remaining == result@[1] && headers.reset
            == result@[2] && headers.policy@ == algorithm.spec_code() && key@ == tracked_key@
            && rt@ == route@)),
        result@.len() >= 4 && result@[3] != 0 ==> (r matches Ok(h) && h.limit == result@[0]
            && h.remaining == result@[1] && h.reset == result@[2] && h.policy@
            == algorithm.spec_code()),
{
    if result.len() < 4 {
        return Err(
            crate::errors::LimiterError::RedisError(
                String::from_str("malformed reply from the limiter script"),
            ),
        );
    }
    let headers = RateLimiterHeaders::new(
        result[0],
        result[1],
        result[2],
        algorithm.to_string(),
    );
    if result[3] == 0 {
        Err(
            crate::errors::LimiterError::RateLimitExceeded {
                headers,
                key: String::from_str(tracked_key),
                msg: String::from_str("Rate limit exceeded"),
                route: String::from_str(route),
            },
        )
    } else {
        Ok(headers)
    }
}

/// The limiter run directly against a counter-store model, for callers that
/// hold one in process.
pub struct RateLimiter {}

impl RateLimiter {
    /// Runs one decision: builds the counter key, steps the store with the
    /// algorithm, and reports the script's verdict as a message together with
    /// the response headers.
    pub fn check(
        store: &mut crate::counter_store::CounterStore,
        now: u64,
        tracked_key: &str,
        hashed_route: &str,
        algorithm: RateLimiterAlgorithms,
        limit: u64,
        expiration: u64,
    ) -> (r: (String, RateLimiterHeaders))
        requires
            old(store).wf(),
            old(store).all_coherent(now as int),
            limit <= crate::counter_store::MAX_LIMIT,
            1 <= expiration <= crate::counter_store::MAX_EXPIRATION,
            now <= crate::counter_store::MAX_NOW,
        ensures
            final(store).wf(),
            final(store).all_coherent(now as int),
            ({
                let key = crate::utils::spec_counter_key(
                    algorithm,
                    hashed_route@,
                    tracked_key@,
                );
                let prior = if old(store)@.contains_key(key) {
                    Some(old(store)@[key])
                } else {
                    None
                };
                let step = crate::counter_store::spec_counter_step(
                    algorithm,
                    prior,
                    now as int,
                    limit as int,
                    expiration as int,
                );
                &&& final(store)@ == old(store)@.insert(key, step.0)
                &&& r.1.limit == step.1.limit
                &&& r.1.remaining == step.1.remaining
                &&& r.1.reset == step.1.reset
                &&& r.1.policy@ == algorithm.spec_code()
                &&& (step.1.decision == 0 ==> r.0@ == "Rate limit exceeded."@)
                &&& (step.1.decision == 1 ==> r.0@ == "Rate limit not exceeded."@)
            }),
    {
        let redis_key = crate::utils::make_redis_key(tracked_key, hashed_route, &algorithm);
        let reply = store.step(&redis_key, &algorithm, now, limit, expiration);
        let headers = RateLimiterHeaders::new(
            reply.limit,
            reply.remaining,
            reply.reset,
            algorithm.to_string(),
        );
        let message = if reply.decision == 0 {
            String::from_str("Rate limit exceeded.")
        } else {
            String::from_str("Rate limit not exceeded.")
        };
        (message, headers)
    }
}

} // verus!
