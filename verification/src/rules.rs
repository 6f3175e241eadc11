//! Rules: the unit of configuration.  A `Rule` is what the authoritative
//! store holds; a `MinimalRule` is its projection without the timestamps,
//! stored in the counter store's snapshot and consumed by the gateway.

use vstd::prelude::*;
use vstd::string::StringExecFns;

use crate::counter_store::{MAX_EXPIRATION, MAX_LIMIT};
use crate::rate_limiter::{LimiterTrackingType, RateLimiterAlgorithms};

verus! {

/// One configured rate-limiting rule.
#[derive(Debug, Clone)]
pub struct Rule {
    /// Stable opaque identifier.
    pub id: String,
    /// Pattern in the matcher grammar: literal segments plus `{name}`
    /// parameter captures.
    pub route: String,
    pub algorithm: RateLimiterAlgorithms,
    /// Maximum permits per window or bucket.
    pub limit: u64,
    /// Window length or refill interval, in seconds.
    pub expiration: u64,
    pub tracking_type: LimiterTrackingType,
    /// Required and non-empty exactly when `tracking_type` is by-header.
    pub custom_tracking_key: Option<String>,
    /// A rule with `status` false exists but never rejects.
    pub status: bool,
    /// Seconds after which a cached copy of the rule should self-expire.
    pub ttl: u64,
    /// Creation time, in microseconds since the epoch; 0 when unknown.
    pub date_creation: u64,
    /// Last modification time, in microseconds since the epoch; 0 when
    /// unknown.
    pub date_modification: u64,
}

/// The projection of a rule that request handling needs.
#[derive(Debug, Clone)]
pub struct MinimalRule {
    pub id: String,
    pub route: String,
    pub algorithm: RateLimiterAlgorithms,
    pub limit: u64,
    pub expiration: u64,
    pub tracking_type: LimiterTrackingType,
    pub custom_tracking_key: Option<String>,
    pub status: bool,
    pub ttl: u64,
}

/// Mathematical image of a `MinimalRule`.
pub ghost struct MinimalRuleV {
    pub id: Seq<char>,
    pub route: Seq<char>,
    pub algorithm: RateLimiterAlgorithms,
    pub limit: int,
    pub expiration: int,
    pub tracking_type: LimiterTrackingType,
    pub custom_tracking_key: Option<Seq<char>>,
    pub status: bool,
    pub ttl: int,
}

impl View for MinimalRule {
    type V = MinimalRuleV;

    open spec fn view(&self) -> MinimalRuleV {
        MinimalRuleV {
            id: self.id@,
            route: self.route@,
            algorithm: self.algorithm,
            limit: self.limit as int,
            expiration: self.expiration as int,
            tracking_type: self.tracking_type,
            custom_tracking_key: match self.custom_tracking_key {
                Some(k) => Some(k@),
                None => None,
            },
            status: self.status,
            ttl: self.ttl as int,
        }
    }
}

/// A rule the gateway can serve: header tracking carries its key, and the
/// numeric arguments fit the machine caps of the counter store.
pub open spec fn rule_wf(r: MinimalRuleV) -> bool {
    &&& r.tracking_type is Header ==> (r.custom_tracking_key matches Some(k) && k.len() > 0)
    &&& 0 <= r.limit <= MAX_LIMIT
    &&& 1 <= r.expiration <= MAX_EXPIRATION
}

impl MinimalRule {
    pub open spec fn wf(self) -> bool {
        rule_wf(self@)
    }

    /// Decides `wf`, so that unverified callers can test a rule before
    /// serving it.
    pub fn check_wf(&self) -> (r: bool)
        ensures
            r == self.wf(),
    {
        let tracking_ok = match (&self.tracking_type, &self.custom_tracking_key) {
            (LimiterTrackingType::Header, Some(k)) => !k.as_str().is_empty(),
            (LimiterTrackingType::Header, None) => false,
            (LimiterTrackingType::IP, _) => true,
        };
        tracking_ok && self.limit <= MAX_LIMIT && 1 <= self.expiration && self.expiration
            <= MAX_EXPIRATION
    }
}

impl Rule {
    pub open spec fn wf(self) -> bool {
        rule_wf(self.to_minimal_spec())
    }

    /// The projection of this rule without its timestamps.
    pub open spec fn to_minimal_spec(self) -> MinimalRuleV {
        MinimalRuleV {
            id: self.id@,
            route: self.route@,
            algorithm: self.algorithm,
            limit: self.limit as int,
            expiration: self.expiration as int,
            tracking_type: self.tracking_type,
            custom_tracking_key: match self.custom_tracking_key {
                Some(k) => Some(k@),
                None => None,
            },
            status: self.status,
            ttl: self.ttl as int,
        }
    }

    /// Builds `to_minimal_spec`.
    pub fn to_minimal(&self) -> (r: MinimalRule)
        ensures
            r@ == self.to_minimal_spec(),
    {
        MinimalRule {
            id: self.id.clone(),
            route: self.route.clone(),
            algorithm: self.algorithm,
            limit: self.limit,
            expiration: self.expiration,
            tracking_type: self.tracking_type,
            custom_tracking_key: match &self.custom_tracking_key {
                Some(k) => Some(k.clone()),
                None => None,
            },
            status: self.status,
            ttl: self.ttl,
        }
    }

    /// A new rule under a fresh identifier.  A header-tracked rule must carry
    /// a non-empty custom tracking key; the timestamps are left for the
    /// authoritative store to assign.
    pub fn new(
        route: String,
        algorithm: RateLimiterAlgorithms,
        limit: u64,
        expiration: u64,
        tracking_type: LimiterTrackingType,
        custom_tracking_key: Option<String>,
        status: bool,
        ttl: u64,
    ) -> (r: Rule)
        requires
            tracking_type is Header ==> (custom_tracking_key matches Some(k) && k@.len() > 0),
            limit <= MAX_LIMIT,
            1 <= expiration <= MAX_EXPIRATION,
        ensures
            r.id@.len() == 36,
            r.route == route,
            r.algorithm == algorithm,
            r.limit == limit,
            r.expiration == expiration,
            r.tracking_type == tracking_type,
            r.custom_tracking_key == custom_tracking_key,
            r.status == status,
            r.ttl == ttl,
            r.date_creation == 0 && r.date_modification == 0,
            r.wf(),
    {
        Rule {
            id: uuid_v4_string(),
            route,
            algorithm,
            limit,
            expiration,
            tracking_type,
            custom_tracking_key,
            status,
            ttl,
            date_creation: 0,
            date_modification: 0,
        }
    }
}

/// Relies on uuid's `Uuid::new_v4` and its hyphenated `Display`: a fresh
/// random identifier prints as exactly 36 characters.  Nothing more is
/// promised of a random value.
#[verifier::external_body]
pub(crate) fn uuid_v4_string() -> (r: String)
    ensures
        r@.len() == 36,
{
    uuid::Uuid::new_v4().to_string()
}

/// A small fixed rule set for local runs and tests: the same four rules on
/// every call.
pub fn generate_dummy_rules() -> (r: Vec<Rule>)
    ensures
        r@.len() == 4,
        forall|i: int| 0 <= i < 4 ==> (#[trigger] r@[i]).wf(),
        r@[0].id@ == "445022216b8783f3a2fff1af63def96e"@ && r@[0].route@ == "/products"@
            && r@[0].algorithm == RateLimiterAlgorithms::FixedWindow && r@[0].limit == 100
            && r@[0].expiration == 60 && r@[0].tracking_type == LimiterTrackingType::Header && (
        r@[0].custom_tracking_key matches Some(k) && k@ == "product_key"@) && r@[0].status
            && r@[0].ttl == 60,
        r@[1].id@ == "2ba810480dabb4007ddb8108a0ef8d55"@ && r@[1].route@ == "/api/v1/orders"@
            && r@[1].algorithm == RateLimiterAlgorithms::LeakyBucket && r@[1].limit == 50
            && r@[1].expiration == 120 && r@[1].tracking_type == LimiterTrackingType::IP
            && r@[1].custom_tracking_key is None && r@[1].status && r@[1].ttl == 120,
        r@[2].id@ == "2ba810480dabb4007ddb8108a0ef8d56"@ && r@[2].route@ == "/api/v1/commands"@
            && r@[2].algorithm == RateLimiterAlgorithms::SlidingWindowLog && r@[2].limit == 50
            && r@[2].expiration == 120 && r@[2].tracking_type == LimiterTrackingType::Header && (
        r@[2].custom_tracking_key matches Some(k) && k@ == "x-api-key"@) && r@[2].status
            && r@[2].ttl == 120,
        r@[3].id@ == "dd0855d5107f37a3d4d817e9d931c7d4"@ && r@[3].route@
            == "/api/v1/users/{id}"@ && r@[3].algorithm == RateLimiterAlgorithms::FixedWindow
            && r@[3].limit == 200 && r@[3].expiration == 300 && r@[3].tracking_type
            == LimiterTrackingType::Header && (r@[3].custom_tracking_key matches Some(k) && k@
            == "x-api-key"@) && r@[3].status && r@[3].ttl == 300,
        forall|i: int|
            0 <= i < 4 ==> (#[trigger] r@[i]).date_creation == 0 && r@[i].date_modification == 0,
{
    let mut rules: Vec<Rule> = Vec::new();
    rules.push(
        Rule {
            id: String::from_str("445022216b8783f3a2fff1af63def96e"),
            route: String::from_str("/products"),
            algorithm: RateLimiterAlgorithms::FixedWindow,
            limit: 100,
            expiration: 60,
            tracking_type: LimiterTrackingType::Header,
            custom_tracking_key: Some(String::from_str("product_key")),
            status: true,
            ttl: 60,
            date_creation: 0,
            date_modification: 0,
        },
    );
    rules.push(
        Rule {
            id: String::from_str("2ba810480dabb4007ddb8108a0ef8d55"),
            route: String::from_str("/api/v1/orders"),
            algorithm: RateLimiterAlgorithms::LeakyBucket,
            limit: 50,
            expiration: 120,
            tracking_type: LimiterTrackingType::IP,
            custom_tracking_key: None,
            status: true,
            ttl: 120,
            date_creation: 0,
            date_modification: 0,
        },
    );
    rules.push(
        Rule {
            id: String::from_str("2ba810480dabb4007ddb8108a0ef8d56"),
            route: String::from_str("/api/v1/commands"),
            algorithm: RateLimiterAlgorithms::SlidingWindowLog,
            limit: 50,
            expiration: 120,
            tracking_type: LimiterTrackingType::Header,
            custom_tracking_key: Some(String::from_str("x-api-key")),
            status: true,
            ttl: 120,
            date_creation: 0,
            date_modification: 0,
        },
    );
    rules.push(
        Rule {
            id: String::from_str("dd0855d5107f37a3d4d817e9d931c7d4"),
            route: String::from_str("/api/v1/users/{id}"),
            algorithm: RateLimiterAlgorithms::FixedWindow,
            limit: 200,
            expiration: 300,
            tracking_type: LimiterTrackingType::Header,
            custom_tracking_key: Some(String::from_str("x-api-key")),
            status: true,
            ttl: 300,
            date_creation: 0,
            date_modification: 0,
        },
    );
    proof {
        reveal_strlit("product_key");
        reveal_strlit("x-api-key");
    }
    rules
}

} // verus!
