//! The gateway request path: match the route, fetch the rule from the
//! snapshot, extract the tracking key, run the limiter, build the response,
//! and count the outcome.
//!
//! `States` is the state one gateway shares across requests: the current
//! matcher, the rule snapshot it was built from, the counter store, and the
//! three monotone request counters.  `limiter_handler` serves one request
//! against it.

use vstd::prelude::*;
use vstd::string::StringExecFns;

use crate::counter_store::{spec_counter_step, CounterStateV, CounterStore, MAX_NOW};
use crate::errors::{HttpOutcome, LimiterError};
use crate::text::spec_dec;
use crate::matcher::{
    route_match, router_at, router_inserts, spec_rule_inserts, instantiate_matcher_with_rules,
};
use crate::rate_limiter::RateLimiterHeaders;
use crate::rules::{MinimalRule, MinimalRuleV};
use crate::text::str_eq;
use crate::utils::{
    get_tracked_key_from_header, make_redis_key, spec_counter_key, spec_header_lookup, spec_ip_key,
    RequestHeaders,
};

verus! {

/// The rule a snapshot holds under the given id: the first entry with that
/// id, as the JSON object lookup returns it.
pub open spec fn spec_find_rule(rules: Seq<MinimalRule>, id: Seq<char>) -> Option<MinimalRuleV>
    decreases rules.len(),
{
    if rules.len() == 0 {
        None
    } else if rules[0]@.id == id {
        Some(rules[0]@)
    } else {
        spec_find_rule(rules.drop_first(), id)
    }
}

/// Finds the snapshot rule with the given id.
pub fn find_rule<'a>(rules: &'a Vec<MinimalRule>, id: &str) -> (r: Option<&'a MinimalRule>)
    ensures
        match r {
            Some(rule) => spec_find_rule(rules@, id@) == Some(rule@),
            None => spec_find_rule(rules@, id@) is None,
        },
{
    let mut i: usize = 0;
    let n = rules.len();
    proof {
        assert(rules@.skip(0) =~= rules@);
    }
    while i < n
        invariant
            i <= n,
            n == rules@.len(),
            spec_find_rule(rules@, id@) == spec_find_rule(rules@.skip(i as int), id@),
        decreases n - i,
    {
        proof {
            assert(rules@.skip(i as int)[0] == rules@[i as int]);
            assert(rules@.skip(i as int).drop_first() =~= rules@.skip(i as int + 1));
        }
        if str_eq(rules[i].id.as_str(), id) {
            return Some(&rules[i]);
        }
        i = i + 1;
    }
    proof {
        assert(rules@.skip(n as int) =~= Seq::<MinimalRule>::empty());
    }
    None
}

/// A rule found in a snapshot of well-formed rules is itself well-formed.
pub proof fn lemma_find_rule_wf(rules: Seq<MinimalRule>, id: Seq<char>)
    requires
        forall|i: int| 0 <= i < rules.len() ==> (#[trigger] rules[i]).wf(),
    ensures
        spec_find_rule(rules, id) matches Some(r) ==> crate::rules::rule_wf(r),
    decreases rules.len(),
{
    if rules.len() > 0 && rules[0]@.id != id {
        assert(forall|i: int|
            0 <= i < rules.drop_first().len() ==> (#[trigger] rules.drop_first()[i]).wf());
        lemma_find_rule_wf(rules.drop_first(), id);
    }
}

/// How one request ends, decided before any counter is touched: pass an
/// unmatched path through, fail on a missing or ill-served rule, skip a
/// disabled rule, or run the rule's algorithm against a counter key.
pub ghost enum PlanV {
    /// No route matched: the request passes through.
    PassThrough,
    /// The matcher named a rule that the snapshot does not hold.
    MissingRule,
    /// The rule is disabled and never rejects.
    Disabled { rule: MinimalRuleV },
    /// The tracking key could not be extracted.
    BadTracking { rule: MinimalRuleV },
    /// The rule's script runs against the counter key for `tracked`.
    Invoke { rule: MinimalRuleV, tracking_key: Seq<char> },
}

/// The decision plan for one request against one gateway state.
pub open spec fn spec_plan(
    inserts: Seq<(Seq<char>, Seq<char>)>,
    rules: Seq<MinimalRule>,
    headers: Seq<(Seq<char>, Seq<char>)>,
    path: Seq<char>,
) -> PlanV {
    match route_match(inserts, path) {
        None => PlanV::PassThrough,
        Some(id) => match spec_find_rule(rules, id) {
            None => PlanV::MissingRule,
            Some(rule) => {
                if !rule.status {
                    PlanV::Disabled { rule }
                } else {
                    let tk = if rule.tracking_type is IP {
                        spec_ip_key(headers)
                    } else {
                        match rule.custom_tracking_key {
                            Some(k) => spec_header_lookup(headers, k),
                            None => None,
                        }
                    };
                    match tk {
                        None => PlanV::BadTracking { rule },
                        Some(v) => PlanV::Invoke { rule, tracking_key: v },
                    }
                }
            },
        },
    }
}

/// The state one gateway instance shares across request tasks: the route
/// matcher and the snapshot it was built from, the counter store, and the
/// three monotone request counters.
pub struct States {
    pub route_matcher: matchit::Router<String>,
    pub rules: Vec<MinimalRule>,
    pub pool: CounterStore,
    pub rl_total_requests: u64,
    pub rl_allowed_requests: u64,
    pub rl_rejected_requests: u64,
}

impl States {
    /// A gateway state that can serve requests at time `now`: the matcher
    /// was built from the snapshot, every rule is servable, and the counter
    /// store holds nothing from the future.
    pub open spec fn wf(self, now: int) -> bool {
        &&& router_inserts(self.route_matcher) == spec_rule_inserts(self.rules@)
        &&& forall|i: int| 0 <= i < self.rules@.len() ==> (#[trigger] self.rules@[i]).wf()
        &&& self.pool.wf()
        &&& self.pool.all_coherent(now)
    }

    /// A gateway booting with a snapshot: the matcher is built from it, the
    /// counter store starts empty, the counters at zero.
    pub fn new(rules: Vec<MinimalRule>) -> (r: States)
        requires
            forall|i: int| 0 <= i < rules@.len() ==> (#[trigger] rules@[i]).wf(),
        ensures
            forall|now: int| r.wf(now),
            r.rules == rules,
            r.pool@ == Map::<Seq<char>, CounterStateV>::empty(),
            r.rl_total_requests == 0,
            r.rl_allowed_requests == 0,
            r.rl_rejected_requests == 0,
    {
        let route_matcher = instantiate_matcher_with_rules(&rules);
        States {
            route_matcher,
            rules,
            pool: CounterStore::new(),
            rl_total_requests: 0,
            rl_allowed_requests: 0,
            rl_rejected_requests: 0,
        }
    }

    /// The gateway's side of a reconfiguration: a new matcher is built from
    /// the received snapshot and swapped in whole.  Counter state and the
    /// request counters survive the swap.
    pub fn install_snapshot(&mut self, rules: Vec<MinimalRule>)
        requires
            forall|i: int| 0 <= i < rules@.len() ==> (#[trigger] rules@[i]).wf(),
        ensures
            final(self).rules == rules,
            router_inserts(final(self).route_matcher) == spec_rule_inserts(rules@),
            final(self).pool == old(self).pool,
            final(self).rl_total_requests == old(self).rl_total_requests,
            final(self).rl_allowed_requests == old(self).rl_allowed_requests,
            final(self).rl_rejected_requests == old(self).rl_rejected_requests,
    {
        let route_matcher = instantiate_matcher_with_rules(&rules);
        self.route_matcher = route_matcher;
        self.rules = rules;
    }
}

/// The metric labels of one terminal outcome against a matched rule: the
/// rule's identity dimensions, then the HTTP status.
pub open spec fn spec_outcome_labels(
    labels: Seq<(String, String)>,
    rule: MinimalRuleV,
    status: int,
) -> bool {
    &&& labels.len() == 5
    &&& labels[0].0@ == "rule_id"@ && labels[0].1@ == rule.id
    &&& labels[1].0@ == "route"@ && labels[1].1@ == rule.route
    &&& labels[2].0@ == "algorithm"@ && labels[2].1@ == rule.algorithm.spec_code()
    &&& labels[3].0@ == "tracking_type"@ && labels[3].1@ == rule.tracking_type.spec_code()
    &&& labels[4].0@ == "http_status"@ && labels[4].1@ == spec_dec(status as nat)
}

/// Builds a matched rule's four identity labels.
fn rule_labels(rule: &MinimalRule) -> (r: Vec<(String, String)>)
    ensures
        r@.len() == 4,
        r@[0].0@ == "rule_id"@ && r@[0].1@ == rule@.id,
        r@[1].0@ == "route"@ && r@[1].1@ == rule@.route,
        r@[2].0@ == "algorithm"@ && r@[2].1@ == rule@.algorithm.spec_code(),
        r@[3].0@ == "tracking_type"@ && r@[3].1@ == rule@.tracking_type.spec_code(),
{
    let mut r: Vec<(String, String)> = Vec::new();
    r.push((String::from_str("rule_id"), rule.id.clone()));
    r.push((String::from_str("route"), rule.route.clone()));
    r.push((String::from_str("algorithm"), rule.algorithm.to_string()));
    r.push((String::from_str("tracking_type"), rule.tracking_type.to_string()));
    r
}

/// Closes one outcome: the HTTP status joins the labels as the
/// `http_status` dimension.
fn finish(outcome: HttpOutcome, labels: Vec<(String, String)>) -> (r: (
    HttpOutcome,
    Vec<(String, String)>,
))
    ensures
        r.0 == outcome,
        r.1@.len() == labels@.len() + 1,
        forall|i: int| 0 <= i < labels@.len() ==> r.1@[i] == labels@[i],
        r.1@[labels@.len() as int].0@ == "http_status"@,
        r.1@[labels@.len() as int].1@ == spec_dec(outcome.status as nat),
{
    let mut labels = labels;
    labels.push(
        (
            String::from_str("http_status"),
            crate::text::chars_to_string(&crate::text::u64_to_chars(outcome.status as u64)),
        ),
    );
    (outcome, labels)
}

fn bump(c: &mut u64)
    ensures
        *final(c) == if *old(c) < u64::MAX {
            *old(c) + 1
        } else {
            *old(c) as int
        },
{
    *c = if *c < u64::MAX {
        *c + 1
    } else {
        *c
    };
}

/// Serves one request at time `now`: the response of `spec_plan`'s outcome
/// together with the outcome's metric labels, with the counter store
/// advanced exactly when a limiter script ran.
///
/// For a disabled rule no counter-store script is invoked: the store is
/// unchanged.  Every terminal outcome bumps the total counter and exactly one
/// of the allowed and rejected counters, and carries its labels: the matched
/// rule's identity dimensions when a rule was found, and always the HTTP
/// status.
#[verifier::rlimit(100)]
pub fn limiter_handler(
    states: &mut States,
    now: u64,
    path: &str,
    headers: &RequestHeaders,
) -> (r: (HttpOutcome, Vec<(String, String)>))
    requires
        old(states).wf(now as int),
        now <= MAX_NOW,
    ensures
        final(states).wf(now as int),
        final(states).rules == old(states).rules,
        final(states).route_matcher == old(states).route_matcher,
        final(states).rl_total_requests >= old(states).rl_total_requests,
        final(states).rl_allowed_requests >= old(states).rl_allowed_requests,
        final(states).rl_rejected_requests >= old(states).rl_rejected_requests,
        ({
            let plan = spec_plan(
                router_inserts(old(states).route_matcher),
                old(states).rules@,
                headers@,
                path@,
            );
            match plan {
                PlanV::PassThrough => r.0.status == 200 && r.0.body@ == "no matching rule"@
                    && final(states).pool@ == old(states).pool@,
                PlanV::MissingRule => r.0.status == 500 && r.0.body@ == "Internal Server Error"@
                    && final(states).pool@ == old(states).pool@,
                PlanV::Disabled { .. } => r.0.status == 200 && r.0.body@
                    == "rate limit not exceeded"@ && final(states).pool@ == old(states).pool@,
                PlanV::BadTracking { rule } => r.0.status == 400 && final(states).pool@ == old(
                    states,
                ).pool@ && (rule.tracking_type is IP ==> r.0.body@
                    == LimiterError::NoIpFound.spec_body()) && (rule.tracking_type is Header ==> (
                rule.custom_tracking_key matches Some(k) && r.0.body@ == k
                    + " not found in request headers"@)),
                PlanV::Invoke { rule, tracking_key } => {
                    let key = spec_counter_key(rule.algorithm, rule.id, tracking_key);
                    let prior = if old(states).pool@.contains_key(key) {
                        Some(old(states).pool@[key])
                    } else {
                        None
                    };
                    let step = spec_counter_step(
                        rule.algorithm,
                        prior,
                        now as int,
                        rule.limit,
                        rule.expiration,
                    );
                    &&& final(states).pool@ == old(states).pool@.insert(key, step.0)
                    &&& r.0.headers@.len() == 4
                    &&& r.0.headers@[0].0@ == "limit"@ && r.0.headers@[0].1@ == spec_dec(
                        step.1.limit as nat,
                    )
                    &&& r.0.headers@[1].0@ == "remaining"@ && r.0.headers@[1].1@ == spec_dec(
                        step.1.remaining as nat,
                    )
                    &&& r.0.headers@[2].0@ == "reset"@ && r.0.headers@[2].1@ == spec_dec(
                        step.1.reset as nat,
                    )
                    &&& r.0.headers@[3].0@ == "policy"@ && r.0.headers@[3].1@
                        == rule.algorithm.spec_code()
                    &&& (step.1.decision == 1 ==> r.0.status == 200 && r.0.body@
                        == "rate limit not exceeded"@)
                    &&& (step.1.decision == 0 ==> r.0.status == 429 && r.0.body@
                        == "Rate limit exceeded!"@)
                },
            }
        }),
        ({
            let plan = spec_plan(
                router_inserts(old(states).route_matcher),
                old(states).rules@,
                headers@,
                path@,
            );
            let t = old(states).rl_total_requests;
            let a = old(states).rl_allowed_requests;
            let j = old(states).rl_rejected_requests;
            let allowed_outcome = match plan {
                PlanV::Disabled { .. } => true,
                PlanV::Invoke { rule, tracking_key } => {
                    let key = spec_counter_key(rule.algorithm, rule.id, tracking_key);
                    let prior = if old(states).pool@.contains_key(key) {
                        Some(old(states).pool@[key])
                    } else {
                        None
                    };
                    spec_counter_step(
                        rule.algorithm,
                        prior,
                        now as int,
                        rule.limit,
                        rule.expiration,
                    ).1.decision == 1
                },
                _ => false,
            };
            &&& final(states).rl_total_requests == if t < u64::MAX {
                t + 1
            } else {
                t as int
            }
            &&& (allowed_outcome ==> final(states).rl_allowed_requests == if a < u64::MAX {
                a + 1
            } else {
                a as int
            } && final(states).rl_rejected_requests == j)
            &&& (!allowed_outcome ==> final(states).rl_rejected_requests == if j < u64::MAX {
                j + 1
            } else {
                j as int
            } && final(states).rl_allowed_requests == a)
        }),
        ({
            let plan = spec_plan(
                router_inserts(old(states).route_matcher),
                old(states).rules@,
                headers@,
                path@,
            );
            let labels = r.1@;
            &&& labels.len() >= 1
            &&& labels[labels.len() - 1].0@ == "http_status"@
            &&& labels[labels.len() - 1].1@ == spec_dec(r.0.status as nat)
            &&& match plan {
                PlanV::PassThrough => labels.len() == 1,
                PlanV::MissingRule => labels.len() == 1,
                PlanV::Disabled { rule } => spec_outcome_labels(labels, rule, r.0.status as int),
                PlanV::BadTracking { rule } => spec_outcome_labels(
                    labels,
                    rule,
                    r.0.status as int,
                ),
                PlanV::Invoke { rule, .. } => spec_outcome_labels(
                    labels,
                    rule,
                    r.0.status as int,
                ),
            }
        }),
{
    bump(&mut states.rl_total_requests);
    let matched = router_at(&states.route_matcher, path);
    let associated_key = match matched {
        Some(k) => k,
        None => {
            bump(&mut states.rl_rejected_requests);
            let err = LimiterError::NoRouteMatch(String::from_str(path));
            return finish(err.into_hyper_response(), Vec::new());
        },
    };
    proof {
        lemma_find_rule_wf(states.rules@, associated_key@);
    }
    let limiter_rule = match find_rule(&states.rules, associated_key.as_str()) {
        Some(rule) => rule,
        None => {
            bump(&mut states.rl_rejected_requests);
            let err = LimiterError::Unknown(String::from_str("rule missing from snapshot"));
            return finish(err.into_hyper_response(), Vec::new());
        },
    };
    let labels = rule_labels(limiter_rule);
    let ghost planv = spec_plan(
        router_inserts(old(states).route_matcher),
        old(states).rules@,
        headers@,
        path@,
    );
    if !limiter_rule.status {
        proof {
            assert(planv == PlanV::Disabled { rule: limiter_rule@ });
        }
        bump(&mut states.rl_allowed_requests);
        return finish(
            HttpOutcome {
                status: 200,
                headers: Vec::new(),
                body: String::from_str("rate limit not exceeded"),
            },
            labels,
        );
    }
    let extracted = get_tracked_key_from_header(
        headers,
        &limiter_rule.tracking_type,
        limiter_rule.custom_tracking_key.as_ref(),
    );
    let tracking_key = match extracted {
        Ok(v) => v,
        Err(err) => {
            proof {
                assert(planv == PlanV::BadTracking { rule: limiter_rule@ });
            }
            bump(&mut states.rl_rejected_requests);
            return finish(err.into_hyper_response(), labels);
        },
    };
    proof {
        assert(planv == PlanV::Invoke { rule: limiter_rule@, tracking_key: tracking_key@ });
    }
    let algorithm = limiter_rule.algorithm;
    let limit = limiter_rule.limit;
    let expiration = limiter_rule.expiration;
    let redis_key = make_redis_key(
        tracking_key.as_str(),
        limiter_rule.id.as_str(),
        &algorithm,
    );
    let reply = states.pool.step(&redis_key, &algorithm, now, limit, expiration);
    let rl_headers = RateLimiterHeaders::new(
        reply.limit,
        reply.remaining,
        reply.reset,
        algorithm.to_string(),
    );
    if reply.decision == 0 {
        bump(&mut states.rl_rejected_requests);
        let err = LimiterError::RateLimitExceeded {
            headers: rl_headers,
            key: tracking_key,
            msg: String::from_str("Rate limit exceeded"),
            route: String::from_str(path),
        };
        finish(err.into_hyper_response(), labels)
    } else {
        bump(&mut states.rl_allowed_requests);
        finish(
            HttpOutcome {
                status: 200,
                headers: crate::errors::decision_headers(&rl_headers),
                body: String::from_str("rate limit not exceeded"),
            },
            labels,
        )
    }
}

} // verus!
