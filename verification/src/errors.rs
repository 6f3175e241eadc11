//! The gateway's error kinds, and how each one is reported: its HTTP
//! response and the status dimension it contributes to the request metrics.

use vstd::prelude::*;
use vstd::string::StringExecFns;

use crate::rate_limiter::RateLimiterHeaders;
use crate::text::{spec_dec, u64_to_chars, chars_to_string};

verus! {

/// A finished HTTP response: status code, response headers, body text.
pub struct HttpOutcome {
    pub status: u16,
    pub headers: Vec<(String, String)>,
    pub body: String,
}

/// Everything that ends a request without a plain allow.
#[derive(Debug)]
pub enum LimiterError {
    /// No route pattern matched the request path.
    NoRouteMatch(String),
    /// The rule tracks a header that the request does not carry.
    TrackedKeyNotFound(String),
    /// The rule tracks the caller's ip and no recognized header carries one.
    NoIpFound,
    /// The limiter script rejected the request.
    RateLimitExceeded { headers: RateLimiterHeaders, key: String, msg: String, route: String },
    /// The counter store failed or could not be reached.
    RedisError(String),
    /// Anything else.
    Unknown(String),
}

/// The response headers reported with a limiter decision: the four values
/// under their plain names.
pub open spec fn spec_decision_headers(h: RateLimiterHeaders) -> Seq<(Seq<char>, Seq<char>)> {
    seq![
        ("limit"@, spec_dec(h.limit as nat)),
        ("remaining"@, spec_dec(h.remaining as nat)),
        ("reset"@, spec_dec(h.reset as nat)),
        ("policy"@, h.policy@),
    ]
}

/// Builds the four decision headers of `spec_decision_headers`.
pub fn decision_headers(h: &RateLimiterHeaders) -> (r: Vec<(String, String)>)
    ensures
        r@.len() == 4,
        forall|i: int|
            0 <= i < 4 ==> (#[trigger] r@[i].0@, r@[i].1@) == spec_decision_headers(*h)[i],
{
    let mut r: Vec<(String, String)> = Vec::new();
    r.push((String::from_str("limit"), chars_to_string(&u64_to_chars(h.limit))));
    r.push((String::from_str("remaining"), chars_to_string(&u64_to_chars(h.remaining))));
    r.push((String::from_str("reset"), chars_to_string(&u64_to_chars(h.reset))));
    r.push((String::from_str("policy"), h.policy.clone()));
    r
}

impl LimiterError {
    /// The HTTP status the error is reported with.  An unmatched route is
    /// deliberately a 200: a rate limiter must not impersonate the origin's
    /// 404.
    pub open spec fn spec_status(self) -> int {
        match self {
            LimiterError::NoRouteMatch(_) => 200,
            LimiterError::TrackedKeyNotFound(_) => 400,
            LimiterError::NoIpFound => 400,
            LimiterError::RateLimitExceeded { .. } => 429,
            LimiterError::RedisError(_) => 500,
            LimiterError::Unknown(_) => 500,
        }
    }

    /// The status dimension the error contributes to the request metrics;
    /// unlike the response status, a missed route counts as a 404 here.
    pub open spec fn spec_metric_status(self) -> int {
        match self {
            LimiterError::NoRouteMatch(_) => 404,
            _ => self.spec_status(),
        }
    }

    /// The response body the error is reported with.
    pub open spec fn spec_body(self) -> Seq<char> {
        match self {
            LimiterError::NoRouteMatch(_) => "no matching rule"@,
            LimiterError::TrackedKeyNotFound(k) => k@ + " not found in request headers"@,
            LimiterError::NoIpFound => {
                "No IP found in request headers. Are you sure you are using a proxy? looked for [x-forwarded-for, x-real-ip, forwarded]"@
            },
            LimiterError::RateLimitExceeded { .. } => "Rate limit exceeded!"@,
            LimiterError::RedisError(_) => "Internal Server Error"@,
            LimiterError::Unknown(_) => "Internal Server Error"@,
        }
    }

    /// Turns the error into the HTTP response the gateway sends: the status
    /// and body of `spec_status` and `spec_body`, with the four decision
    /// headers when the limit was exceeded and no headers otherwise.
    pub fn into_hyper_response(self) -> (r: HttpOutcome)
        ensures
            r.status as int == self.spec_status(),
            r.body@ == self.spec_body(),
            match self {
                LimiterError::RateLimitExceeded { headers, .. } => r.headers@.len() == 4
                    && forall|i: int|
                    0 <= i < 4 ==> (#[trigger] r.headers@[i].0@, r.headers@[i].1@)
                        == spec_decision_headers(headers)[i],
                _ => r.headers@.len() == 0,
            },
    {
        match self {
            LimiterError::NoRouteMatch(_) => HttpOutcome {
                status: 200,
                headers: Vec::new(),
                body: String::from_str("no matching rule"),
            },
            LimiterError::TrackedKeyNotFound(k) => HttpOutcome {
                status: 400,
                headers: Vec::new(),
                body: k.concat(" not found in request headers"),
            },
            LimiterError::NoIpFound => HttpOutcome {
                status: 400,
                headers: Vec::new(),
                body: String::from_str(
                    "No IP found in request headers. Are you sure you are using a proxy? looked for [x-forwarded-for, x-real-ip, forwarded]",
                ),
            },
            LimiterError::RateLimitExceeded { headers, .. } => HttpOutcome {
                status: 429,
                headers: decision_headers(&headers),
                body: String::from_str("Rate limit exceeded!"),
            },
            LimiterError::RedisError(_) => HttpOutcome {
                status: 500,
                headers: Vec::new(),
                body: String::from_str("Internal Server Error"),
            },
            LimiterError::Unknown(_) => HttpOutcome {
                status: 500,
                headers: Vec::new(),
                body: String::from_str("Internal Server Error"),
            },
        }
    }

    /// Counts the error on the rejected-requests counter, tagging the metric
    /// with the error's status dimension.
    pub fn emit_metric(&self, counter: &mut u64, key_values: &mut Vec<(String, String)>)
        ensures
            *final(counter) == if *old(counter) < u64::MAX {
                *old(counter) + 1
            } else {
                *old(counter) as int
            },
            final(key_values)@.len() == old(key_values)@.len() + 1,
            final(key_values)@[final(key_values)@.len() - 1].0@ == "http"@,
            final(key_values)@[final(key_values)@.len() - 1].1@ == spec_dec(
                self.spec_metric_status() as nat,
            ),
            forall|i: int|
                0 <= i < old(key_values)@.len() ==> final(key_values)@[i] == old(key_values)@[i],
    {
        let status: u64 = match self {
            LimiterError::NoRouteMatch(_) => 404,
            LimiterError::TrackedKeyNotFound(_) => 400,
            LimiterError::NoIpFound => 400,
            LimiterError::RateLimitExceeded { .. } => 429,
            LimiterError::RedisError(_) => 500,
            LimiterError::Unknown(_) => 500,
        };
        key_values.push((String::from_str("http"), chars_to_string(&u64_to_chars(status))));
        *counter = if *counter < u64::MAX {
            *counter + 1
        } else {
            *counter
        };
    }
}

} // verus!
