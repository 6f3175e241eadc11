//! Request-time helpers: building the counter key a limiter script runs
//! against, and extracting the tracking key that identifies the caller.

use vstd::prelude::*;
use vstd::string::StringExecFns;

use crate::errors::LimiterError;
use crate::rate_limiter::{LimiterTrackingType, RateLimiterAlgorithms};
use crate::text::str_eq;

verus! {

/// The composite counter key `{algorithm_code}:{rule_id}:{tracking_key}`,
/// owned exclusively by its algorithm's script.
pub open spec fn spec_counter_key(
    alg: RateLimiterAlgorithms,
    hashed_route: Seq<char>,
    key_tracked: Seq<char>,
) -> Seq<char> {
    alg.spec_code() + ":"@ + hashed_route + ":"@ + key_tracked
}

/// Builds the counter key of `spec_counter_key` for one decision.
pub fn make_redis_key(
    key_tracked: &str,
    hashed_route: &str,
    limit_algorithm: &RateLimiterAlgorithms,
) -> (r: String)
    ensures
        r@ == spec_counter_key(*limit_algorithm, hashed_route@, key_tracked@),
{
    let r = limit_algorithm.to_string().concat(":").concat(hashed_route).concat(":").concat(
        key_tracked,
    );
    proof {
        assert(r@ =~= spec_counter_key(*limit_algorithm, hashed_route@, key_tracked@));
    }
    r
}

/// The headers of one inbound request, as name/value pairs in arrival order.
/// Names are expected lower-case, as HTTP transports normalize them.
pub struct RequestHeaders {
    pub pairs: Vec<(String, String)>,
}

impl View for RequestHeaders {
    type V = Seq<(Seq<char>, Seq<char>)>;

    open spec fn view(&self) -> Seq<(Seq<char>, Seq<char>)> {
        self.pairs@.map(|i: int, p: (String, String)| (p.0@, p.1@))
    }
}

/// The value of the first header with the given name, if any.
pub open spec fn spec_header_lookup(
    hs: Seq<(Seq<char>, Seq<char>)>,
    name: Seq<char>,
) -> Option<Seq<char>>
    decreases hs.len(),
{
    if hs.len() == 0 {
        None
    } else if hs[0].0 == name {
        Some(hs[0].1)
    } else {
        spec_header_lookup(hs.drop_first(), name)
    }
}

impl RequestHeaders {
    pub fn new() -> (r: Self)
        ensures
            r@ =~= Seq::<(Seq<char>, Seq<char>)>::empty(),
    {
        RequestHeaders { pairs: Vec::new() }
    }

    pub fn push(&mut self, name: String, value: String)
        ensures
            final(self)@ =~= old(self)@.push((name@, value@)),
    {
        self.pairs.push((name, value));
    }

    /// Finds the first header with the given name.
    pub fn get(&self, name: &str) -> (r: Option<&String>)
        ensures
            match r {
                Some(v) => spec_header_lookup(self@, name@) == Some(v@),
                None => spec_header_lookup(self@, name@) is None,
            },
    {
        let mut i: usize = 0;
        let n = self.pairs.len();
        proof {
            assert(self@.skip(0) =~= self@);
        }
        while i < n
            invariant
                i <= n,
                n == self.pairs@.len(),
                self@.len() == self.pairs@.len(),
                forall|j: int| 0 <= j < self@.len() ==> #[trigger] self@[j] == (
                    self.pairs@[j].0@,
                    self.pairs@[j].1@,
                ),
                spec_header_lookup(self@, name@) == spec_header_lookup(
                    self@.skip(i as int),
                    name@,
                ),
            decreases n - i,
        {
            proof {
                assert(self@.skip(i as int)[0] == self@[i as int]);
                assert(self@.skip(i as int).drop_first() =~= self@.skip(i as int + 1));
            }
            if str_eq(self.pairs[i].0.as_str(), name) {
                return Some(&self.pairs[i].1);
            }
            i = i + 1;
        }
        proof {
            assert(self@.skip(n as int) =~= Seq::<(Seq<char>, Seq<char>)>::empty());
        }
        None
    }
}

/// A header value that counts as carrying something: an empty value is as
/// good as an absent header.
pub open spec fn spec_nonempty(o: Option<Seq<char>>) -> Option<Seq<char>> {
    match o {
        Some(v) => if v.len() > 0 {
            Some(v)
        } else {
            None
        },
        None => None,
    }
}

/// The value that identifies an ip-tracked caller: the first present
/// non-empty value among the standard proxy headers, in their fixed order.
pub open spec fn spec_ip_key(hs: Seq<(Seq<char>, Seq<char>)>) -> Option<Seq<char>> {
    if spec_nonempty(spec_header_lookup(hs, "x-forwarded-for"@)) is Some {
        spec_nonempty(spec_header_lookup(hs, "x-forwarded-for"@))
    } else if spec_nonempty(spec_header_lookup(hs, "x-real-ip"@)) is Some {
        spec_nonempty(spec_header_lookup(hs, "x-real-ip"@))
    } else {
        spec_nonempty(spec_header_lookup(hs, "forwarded"@))
    }
}

/// Extracts the tracking key for one request.
///
/// For ip tracking, the headers `x-forwarded-for`, `x-real-ip` and
/// `forwarded` are inspected in that order and the first present non-empty
/// value wins; with none carrying a value the request fails with
/// `NoIpFound`.  For header
/// tracking, the rule's custom key is read; a request without it fails with
/// `TrackedKeyNotFound`, and a rule without a custom key is itself in error.
pub fn get_tracked_key_from_header(
    headers: &RequestHeaders,
    tracking_type: &LimiterTrackingType,
    custom_header_key: Option<&String>,
) -> (r: Result<String, LimiterError>)
    ensures
        *tracking_type is IP ==> match spec_ip_key(headers@) {
            Some(v) => r matches Ok(s) && s@ == v,
            None => r matches Err(e) && e is NoIpFound,
        },
        *tracking_type is Header ==> match custom_header_key {
            Some(k) => match spec_header_lookup(headers@, k@) {
                Some(v) => r matches Ok(s) && s@ == v,
                None => r matches Err(e) && (e matches LimiterError::TrackedKeyNotFound(missing)
                    && missing@ == k@),
            },
            None => r matches Err(e) && e is Unknown,
        },
{
    match tracking_type {
        LimiterTrackingType::IP => {
            if let Some(v) = headers.get("x-forwarded-for") {
                if !v.as_str().is_empty() {
                    return Ok(v.clone());
                }
            }
            if let Some(v) = headers.get("x-real-ip") {
                if !v.as_str().is_empty() {
                    return Ok(v.clone());
                }
            }
            if let Some(v) = headers.get("forwarded") {
                if !v.as_str().is_empty() {
                    return Ok(v.clone());
                }
            }
            Err(LimiterError::NoIpFound)
        },
        LimiterTrackingType::Header => {
            match custom_header_key {
                Some(k) => {
                    if let Some(v) = headers.get(k.as_str()) {
                        Ok(v.clone())
                    } else {
                        Err(LimiterError::TrackedKeyNotFound(k.clone()))
                    }
                },
                None => Err(
                    LimiterError::Unknown(
                        String::from_str("custom tracking key missing on a header-tracked rule"),
                    ),
                ),
            }
        },
    }
}

} // verus!
