//! The smaller pieces: algorithm codes, counter keys, tracking-key
//! extraction, error responses, the matcher, and the admin model.

use rrate_limiter::admin::{PatchedRule, PostedRule, ServiceError};
use rrate_limiter::errors::LimiterError;
use rrate_limiter::matcher::{instantiate_matcher_with_rules, router_at};
use rrate_limiter::rate_limiter::{
    execute_rate_limiting, LimiterTrackingType, RateLimiter, RateLimiterAlgorithms,
    RateLimiterHeaders,
};
use rrate_limiter::rules::{generate_dummy_rules, MinimalRule, Rule};
use rrate_limiter::counter_store::CounterStore;
use rrate_limiter::utils::{get_tracked_key_from_header, make_redis_key, RequestHeaders};

#[test]
fn algorithm_codes_round_trip() {
    let algorithms = [
        RateLimiterAlgorithms::FixedWindow,
        RateLimiterAlgorithms::SlidingWindowCounter,
        RateLimiterAlgorithms::SlidingWindowLog,
        RateLimiterAlgorithms::TokenBucket,
        RateLimiterAlgorithms::LeakyBucket,
    ];
    let codes = ["fw", "swc", "swl", "tb", "lb"];
    for (a, c) in algorithms.iter().zip(codes.iter()) {
        assert_eq!(a.to_string(), *c);
        assert_eq!(a.to_str(), *c);
        assert_eq!(
            RateLimiterAlgorithms::from_string(c).unwrap().to_str(),
            *c
        );
    }
    assert!(RateLimiterAlgorithms::from_string("sliding").is_err());
    assert!(RateLimiterAlgorithms::from_string("").is_err());
}

#[test]
fn tracking_codes_round_trip() {
    assert_eq!(LimiterTrackingType::IP.to_string(), "ip");
    assert_eq!(LimiterTrackingType::Header.to_string(), "header");
    assert_eq!(
        LimiterTrackingType::from_string("header").unwrap().to_string(),
        "header"
    );
    assert!(LimiterTrackingType::from_string("cookie").is_err());
}

#[test]
fn scripts_exist_once_per_algorithm() {
    let fw = RateLimiterAlgorithms::FixedWindow.get_script();
    assert!(fw.contains("INCR"));
    let swl = RateLimiterAlgorithms::SlidingWindowLog.get_script();
    assert!(swl.contains("ZREMRANGEBYSCORE"));
    let swc = RateLimiterAlgorithms::SlidingWindowCounter.get_script();
    assert!(swc.contains("HINCRBY"));
    let tb = RateLimiterAlgorithms::TokenBucket.get_script();
    assert!(tb.contains("HSETNX"));
    let lb = RateLimiterAlgorithms::LeakyBucket.get_script();
    assert!(lb.contains("math.ceil"));
}

#[test]
fn counter_keys_carry_code_rule_and_caller() {
    let key = make_redis_key("10.0.0.1", "rule-7", &RateLimiterAlgorithms::TokenBucket);
    assert_eq!(key, "tb:rule-7:10.0.0.1");
}

#[test]
fn rate_limiter_headers_print_in_decimal() {
    let h = RateLimiterHeaders::new(3, 0, 12, "fw".to_string());
    let pairs = h.to_headers();
    assert_eq!(
        pairs,
        vec![
            ("X-RateLimit-Limit".to_string(), "3".to_string()),
            ("X-RateLimit-Remaining".to_string(), "0".to_string()),
            ("X-RateLimit-Reset".to_string(), "12".to_string()),
            ("X-RateLimit-Policy".to_string(), "fw".to_string()),
        ]
    );
    let big = RateLimiterHeaders::new(18446744073709551615, 1000000, 0, "lb".to_string());
    let pairs = big.to_headers();
    assert_eq!(pairs[0].1, "18446744073709551615");
    assert_eq!(pairs[1].1, "1000000");
    assert_eq!(pairs[2].1, "0");
}

#[test]
fn tracked_key_extraction_follows_the_rules() {
    let mut headers = RequestHeaders::new();
    headers.push("forwarded".to_string(), "for=7.7.7.7".to_string());
    let got = get_tracked_key_from_header(&headers, &LimiterTrackingType::IP, None).unwrap();
    assert_eq!(got, "for=7.7.7.7");

    let empty = RequestHeaders::new();
    match get_tracked_key_from_header(&empty, &LimiterTrackingType::IP, None) {
        Err(LimiterError::NoIpFound) => {},
        _ => panic!("missing ip headers must raise NoIpFound"),
    }

    let key = "x-api-key".to_string();
    match get_tracked_key_from_header(&empty, &LimiterTrackingType::Header, Some(&key)) {
        Err(LimiterError::TrackedKeyNotFound(k)) => assert_eq!(k, "x-api-key"),
        _ => panic!("a missing tracked header must raise TrackedKeyNotFound"),
    }
}

#[test]
fn error_responses_match_the_table() {
    let outcome = LimiterError::NoRouteMatch("/x".to_string()).into_hyper_response();
    assert_eq!((outcome.status, outcome.body.as_str()), (200, "no matching rule"));

    let outcome = LimiterError::TrackedKeyNotFound("x-api-key".to_string()).into_hyper_response();
    assert_eq!(outcome.status, 400);
    assert_eq!(outcome.body, "x-api-key not found in request headers");

    let outcome = LimiterError::NoIpFound.into_hyper_response();
    assert_eq!(outcome.status, 400);

    let outcome = LimiterError::RedisError("down".to_string()).into_hyper_response();
    assert_eq!((outcome.status, outcome.body.as_str()), (500, "Internal Server Error"));

    let outcome = LimiterError::RateLimitExceeded {
        headers: RateLimiterHeaders::new(5, 0, 9, "swl".to_string()),
        key: "alice".to_string(),
        msg: "Rate limit exceeded".to_string(),
        route: "/a".to_string(),
    }
    .into_hyper_response();
    assert_eq!(outcome.status, 429);
    assert_eq!(outcome.body, "Rate limit exceeded!");
    assert_eq!(
        outcome.headers,
        vec![
            ("limit".to_string(), "5".to_string()),
            ("remaining".to_string(), "0".to_string()),
            ("reset".to_string(), "9".to_string()),
            ("policy".to_string(), "swl".to_string()),
        ]
    );
}

#[test]
fn rejected_metrics_carry_the_status_dimension() {
    let mut counter = 6u64;
    let mut labels = vec![("route".to_string(), "/x".to_string())];
    LimiterError::NoRouteMatch("/x".to_string()).emit_metric(&mut counter, &mut labels);
    assert_eq!(counter, 7);
    assert_eq!(labels.last().unwrap(), &("http".to_string(), "404".to_string()));
    LimiterError::NoIpFound.emit_metric(&mut counter, &mut labels);
    assert_eq!(counter, 8);
    assert_eq!(labels.last().unwrap(), &("http".to_string(), "400".to_string()));
}

#[test]
fn execute_rate_limiting_reads_the_reply() {
    let ok = execute_rate_limiting(&vec![3, 2, 7, 1], "alice", &RateLimiterAlgorithms::FixedWindow, "/a")
        .expect("decision 1 allows");
    assert_eq!((ok.limit, ok.remaining, ok.reset, ok.policy.as_str()), (3, 2, 7, "fw"));

    match execute_rate_limiting(&vec![3, 0, 7, 0], "alice", &RateLimiterAlgorithms::FixedWindow, "/a") {
        Err(LimiterError::RateLimitExceeded { headers, key, route, .. }) => {
            assert_eq!((headers.limit, headers.remaining, headers.reset), (3, 0, 7));
            assert_eq!(key, "alice");
            assert_eq!(route, "/a");
        },
        _ => panic!("decision 0 must surface RateLimitExceeded"),
    }

    match execute_rate_limiting(&vec![3, 0], "alice", &RateLimiterAlgorithms::FixedWindow, "/a") {
        Err(LimiterError::RedisError(_)) => {},
        _ => panic!("a short reply is a counter-store fault"),
    }
}

#[test]
fn rate_limiter_check_reports_a_message() {
    let mut store = CounterStore::new();
    let (msg, headers) = RateLimiter::check(
        &mut store,
        50,
        "alice",
        "rule-1",
        RateLimiterAlgorithms::FixedWindow,
        1,
        60,
    );
    assert_eq!(msg, "Rate limit not exceeded.");
    assert_eq!((headers.limit, headers.remaining), (1, 0));
    let (msg, _) = RateLimiter::check(
        &mut store,
        51,
        "alice",
        "rule-1",
        RateLimiterAlgorithms::FixedWindow,
        1,
        60,
    );
    assert_eq!(msg, "Rate limit exceeded.");
}

#[test]
fn matcher_rebuilds_agree_and_bind_parameters() {
    let rules: Vec<MinimalRule> = generate_dummy_rules().iter().map(|r| r.to_minimal()).collect();
    let first = instantiate_matcher_with_rules(&rules);
    let second = instantiate_matcher_with_rules(&rules);
    for path in [
        "/products",
        "/api/v1/orders",
        "/api/v1/commands",
        "/api/v1/users/42",
        "/api/v1/users",
        "/nowhere",
        "/",
    ] {
        assert_eq!(router_at(&first, path), router_at(&second, path));
    }
    assert_eq!(
        router_at(&first, "/api/v1/users/42").as_deref(),
        Some("dd0855d5107f37a3d4d817e9d931c7d4")
    );
    assert_eq!(router_at(&first, "/nowhere"), None);
}

#[test]
fn duplicate_routes_are_skipped_not_fatal() {
    let mut rules: Vec<MinimalRule> =
        generate_dummy_rules().iter().map(|r| r.to_minimal()).collect();
    let mut duplicate = rules[0].clone();
    duplicate.id = "shadow".to_string();
    rules.push(duplicate);
    // The second insertion of /products fails inside the matcher and is
    // skipped; the first binding survives.
    let matcher = instantiate_matcher_with_rules(&rules);
    assert_eq!(
        router_at(&matcher, "/products").as_deref(),
        Some("445022216b8783f3a2fff1af63def96e")
    );
}

#[test]
fn new_rules_get_fresh_identifiers() {
    let rule = Rule::new(
        "/fresh".to_string(),
        RateLimiterAlgorithms::SlidingWindowLog,
        5,
        30,
        LimiterTrackingType::Header,
        Some("x-api-key".to_string()),
        true,
        30,
    );
    assert_eq!(rule.id.len(), 36);
    assert_eq!(rule.route, "/fresh");
    assert!(rule.to_minimal().check_wf());
    let other = Rule::new(
        "/fresh".to_string(),
        RateLimiterAlgorithms::SlidingWindowLog,
        5,
        30,
        LimiterTrackingType::IP,
        None,
        true,
        30,
    );
    assert_ne!(rule.id, other.id);
}

#[test]
fn dummy_rules_are_servable() {
    let rules = generate_dummy_rules();
    assert_eq!(rules.len(), 4);
    for r in &rules {
        assert!(r.to_minimal().check_wf());
        assert!(r.status);
    }
    assert_eq!(rules[0].route, "/products");
    assert_eq!(rules[3].route, "/api/v1/users/{id}");
}

#[test]
fn posted_rules_normalize_an_empty_custom_key() {
    let mut posted = PostedRule {
        route: "/p".to_string(),
        algorithm: RateLimiterAlgorithms::FixedWindow,
        tracking_type: LimiterTrackingType::Header,
        limit: 1,
        expiration: 1,
        custom_tracking_key: Some(String::new()),
        status: true,
        ttl: 1,
    };
    assert!(posted.normalized_custom_key().is_none());
    posted.custom_tracking_key = Some("x-api-key".to_string());
    assert_eq!(posted.normalized_custom_key().map(|k| k.as_str()), Some("x-api-key"));
}

#[test]
fn patches_land_only_on_present_fields() {
    let stored = Rule {
        id: "r1".to_string(),
        route: "/a".to_string(),
        algorithm: RateLimiterAlgorithms::FixedWindow,
        limit: 1,
        expiration: 60,
        tracking_type: LimiterTrackingType::IP,
        custom_tracking_key: None,
        status: true,
        ttl: 60,
        date_creation: 11,
        date_modification: 11,
    };
    let patch = PatchedRule {
        route: None,
        algorithm: Some(RateLimiterAlgorithms::TokenBucket),
        tracking_type: None,
        limit: Some(9),
        expiration: None,
        custom_tracking_key: None,
        status: Some(false),
        ttl: None,
    };
    let updated = patch.apply_to(&stored, 99);
    assert_eq!(updated.id, "r1");
    assert_eq!(updated.route, "/a");
    assert_eq!(updated.algorithm.to_str(), "tb");
    assert_eq!(updated.limit, 9);
    assert_eq!(updated.expiration, 60);
    assert_eq!(updated.status, false);
    assert_eq!(updated.date_creation, 11);
    assert_eq!(updated.date_modification, 99);
}

#[test]
fn admin_failures_report_their_status() {
    let (status, body) = ServiceError::RuleNotFound("abc".to_string()).into_response();
    assert_eq!((status, body.as_str()), (404, "No match found for rule abc"));
    let (status, body) = ServiceError::AlreadyExistingRoute("/a".to_string()).into_response();
    assert_eq!((status, body.as_str()), (400, "/a already exists"));
    let (status, _) = ServiceError::DatabaseError(None).into_response();
    assert_eq!(status, 500);
    let (status, body) = ServiceError::DatabaseError(Some("bad column".to_string())).into_response();
    assert_eq!((status, body.as_str()), (400, "bad column"));
    let (status, body) = ServiceError::InvalidRoutePattern("{".to_string()).into_response();
    assert_eq!((status, body.as_str()), (400, "{ is not a valid route pattern"));
}
