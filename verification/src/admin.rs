//! The admin plane's data model: the shapes operators post and patch, how a
//! patch lands on a stored rule, and how admin failures are reported.

use vstd::prelude::*;
use vstd::string::StringExecFns;

use crate::rate_limiter::{LimiterTrackingType, RateLimiterAlgorithms};
use crate::rules::Rule;

verus! {

/// Page selection for rule listings.
#[derive(Debug, Clone)]
pub struct Pagination {
    pub page: u32,
    pub page_size: u32,
    pub route: Option<String>,
}

/// A rule as an operator submits it; the store assigns the identifier.
#[derive(Debug, Clone)]
pub struct PostedRule {
    pub route: String,
    pub algorithm: RateLimiterAlgorithms,
    pub tracking_type: LimiterTrackingType,
    pub limit: u32,
    pub expiration: u32,
    pub custom_tracking_key: Option<String>,
    pub status: bool,
    pub ttl: u32,
}

impl PostedRule {
    /// The custom tracking key as stored: a submitted empty key counts as
    /// absent.
    pub fn normalized_custom_key(&self) -> (r: Option<&String>)
        ensures
            match r {
                Some(k) => self.custom_tracking_key matches Some(k2) && k == k2 && k@.len() > 0,
                None => self.custom_tracking_key is None || (
                self.custom_tracking_key matches Some(k2) && k2@.len() == 0),
            },
    {
        match &self.custom_tracking_key {
            Some(k) => {
                if k.as_str().is_empty() {
                    None
                } else {
                    Some(k)
                }
            },
            None => None,
        }
    }
}

/// A partial update to a rule: absent fields keep their stored values.
#[derive(Debug, Clone)]
pub struct PatchedRule {
    pub route: Option<String>,
    pub algorithm: Option<RateLimiterAlgorithms>,
    pub tracking_type: Option<LimiterTrackingType>,
    pub limit: Option<u32>,
    pub expiration: Option<u32>,
    pub custom_tracking_key: Option<String>,
    pub status: Option<bool>,
    pub ttl: Option<u32>,
}

impl PatchedRule {
    /// Lands the patch on a stored rule: every present field replaces the
    /// stored one, every absent field is kept, the identifier and creation
    /// time never change, and the modification time moves to `now`.
    pub fn apply_to(&self, rule: &Rule, now: u64) -> (r: Rule)
        ensures
            r.id == rule.id,
            r.route == if self.route is Some {
                self.route->0
            } else {
                rule.route
            },
            r.algorithm == if self.algorithm is Some {
                self.algorithm->0
            } else {
                rule.algorithm
            },
            r.tracking_type == if self.tracking_type is Some {
                self.tracking_type->0
            } else {
                rule.tracking_type
            },
            r.limit == if self.limit is Some {
                self.limit->0 as u64
            } else {
                rule.limit
            },
            r.expiration == if self.expiration is Some {
                self.expiration->0 as u64
            } else {
                rule.expiration
            },
            r.custom_tracking_key == if self.custom_tracking_key is Some {
                self.custom_tracking_key
            } else {
                rule.custom_tracking_key
            },
            r.status == if self.status is Some {
                self.status->0
            } else {
                rule.status
            },
            r.ttl == if self.ttl is Some {
                self.ttl->0 as u64
            } else {
                rule.ttl
            },
            r.date_creation == rule.date_creation,
            r.date_modification == now,
    {
        Rule {
            id: rule.id.clone(),
            route: match &self.route {
                Some(v) => v.clone(),
                None => rule.route.clone(),
            },
            algorithm: match self.algorithm {
                Some(v) => v,
                None => rule.algorithm,
            },
            tracking_type: match self.tracking_type {
                Some(v) => v,
                None => rule.tracking_type,
            },
            limit: match self.limit {
                Some(v) => v as u64,
                None => rule.limit,
            },
            expiration: match self.expiration {
                Some(v) => v as u64,
                None => rule.expiration,
            },
            custom_tracking_key: match &self.custom_tracking_key {
                Some(v) => Some(v.clone()),
                None => match &rule.custom_tracking_key {
                    Some(v) => Some(v.clone()),
                    None => None,
                },
            },
            status: match self.status {
                Some(v) => v,
                None => rule.status,
            },
            ttl: match self.ttl {
                Some(v) => v as u64,
                None => rule.ttl,
            },
            date_creation: rule.date_creation,
            date_modification: now,
        }
    }
}

/// Admin-plane failures and how they are reported.
pub enum ServiceError {
    /// The rule store failed; carries the store's own message when it gave
    /// one.
    DatabaseError(Option<String>),
    /// No rule exists under the requested identifier.
    RuleNotFound(String),
    /// Anything else from below.
    Error(String),
    /// The submitted route is not a valid matcher pattern.
    InvalidRoutePattern(String),
    /// A rule for the submitted route already exists.
    AlreadyExistingRoute(String),
    /// Anything else.
    Others(String),
}

impl ServiceError {
    /// The HTTP status the failure is reported with.
    pub open spec fn spec_status(self) -> int {
        match self {
            ServiceError::DatabaseError(m) => if m is Some {
                400
            } else {
                500
            },
            ServiceError::RuleNotFound(_) => 404,
            ServiceError::Error(_) => 500,
            ServiceError::InvalidRoutePattern(_) => 400,
            ServiceError::AlreadyExistingRoute(_) => 400,
            ServiceError::Others(_) => 500,
        }
    }

    /// Turns the failure into its HTTP status and body.
    pub fn into_response(self) -> (r: (u16, String))
        ensures
            r.0 as int == self.spec_status(),
            match self {
                ServiceError::DatabaseError(m) => if m is Some {
                    r.1@ == m->0@
                } else {
                    r.1@ == "Internal Server Error"@
                },
                ServiceError::RuleNotFound(id) => r.1@ == "No match found for rule "@ + id@,
                ServiceError::Error(_) => r.1@ == "Internal Server Error"@,
                ServiceError::InvalidRoutePattern(p) => r.1@ == p@
                    + " is not a valid route pattern"@,
                ServiceError::AlreadyExistingRoute(q) => r.1@ == q@ + " already exists"@,
                ServiceError::Others(_) => r.1@ == "Internal Server Error"@,
            },
    {
        match self {
            ServiceError::DatabaseError(m) => match m {
                Some(msg) => (400, msg),
                None => (500, String::from_str("Internal Server Error")),
            },
            ServiceError::RuleNotFound(id) => (
                404,
                String::from_str("No match found for rule ").concat(id.as_str()),
            ),
            ServiceError::Error(_) => (500, String::from_str("Internal Server Error")),
            ServiceError::InvalidRoutePattern(p) => (
                400,
                p.concat(" is not a valid route pattern"),
            ),
            ServiceError::AlreadyExistingRoute(q) => (400, q.concat(" already exists")),
            ServiceError::Others(_) => (500, String::from_str("Internal Server Error")),
        }
    }
}

} // verus!
