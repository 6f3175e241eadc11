//! End-to-end request handling against the gateway model, with the real
//! route matcher linked in.

use rrate_limiter::counter_store::CounterStore;
use rrate_limiter::errors::HttpOutcome;
use rrate_limiter::handler::{limiter_handler, States};
use rrate_limiter::matcher::instantiate_matcher_with_rules;
use rrate_limiter::rate_limiter::{LimiterTrackingType, RateLimiterAlgorithms};
use rrate_limiter::rules::MinimalRule;
use rrate_limiter::utils::RequestHeaders;

fn rule(
    id: &str,
    route: &str,
    algorithm: RateLimiterAlgorithms,
    limit: u64,
    expiration: u64,
    tracking_type: LimiterTrackingType,
    custom_tracking_key: Option<&str>,
    status: bool,
) -> MinimalRule {
    MinimalRule {
        id: id.to_string(),
        route: route.to_string(),
        algorithm,
        limit,
        expiration,
        tracking_type,
        custom_tracking_key: custom_tracking_key.map(|k| k.to_string()),
        status,
        ttl: expiration,
    }
}

fn with_header(name: &str, value: &str) -> RequestHeaders {
    let mut h = RequestHeaders::new();
    h.push(name.to_string(), value.to_string());
    h
}

fn header_value(outcome: &HttpOutcome, name: &str) -> Option<String> {
    outcome.headers.iter().find(|p| p.0 == name).map(|p| p.1.clone())
}

#[test]
fn fixed_window_scenario_by_ip() {
    // Route /fw, fixed window, limit 3 over 5 seconds, tracked by ip: four
    // requests within one second answer 200, 200, 200, 429.
    let rules = vec![rule(
        "r-fw",
        "/fw",
        RateLimiterAlgorithms::FixedWindow,
        3,
        5,
        LimiterTrackingType::IP,
        None,
        true,
    )];
    let mut states = States::new(rules);
    let headers = with_header("x-forwarded-for", "10.0.0.1");
    let mut statuses = Vec::new();
    let mut last = None;
    for t in [100u64, 100, 100, 101] {
        let (outcome, _) = limiter_handler(&mut states, t, "/fw", &headers);
        statuses.push(outcome.status);
        last = Some(outcome);
    }
    assert_eq!(statuses, vec![200, 200, 200, 429]);
    let last = last.unwrap();
    assert_eq!(last.body, "Rate limit exceeded!");
    assert_eq!(header_value(&last, "limit").as_deref(), Some("3"));
    assert_eq!(header_value(&last, "remaining").as_deref(), Some("0"));
    assert_eq!(header_value(&last, "policy").as_deref(), Some("fw"));
}

#[test]
fn header_tracking_isolates_callers() {
    // Limit 1 per minute per x-api-key: alice is limited on her second
    // request while bob still passes.
    let rules = vec![rule(
        "r-api",
        "/api",
        RateLimiterAlgorithms::FixedWindow,
        1,
        60,
        LimiterTrackingType::Header,
        Some("x-api-key"),
        true,
    )];
    let mut states = States::new(rules);
    let alice = with_header("x-api-key", "alice");
    let bob = with_header("x-api-key", "bob");
    assert_eq!(limiter_handler(&mut states, 10, "/api", &alice).0.status, 200);
    assert_eq!(limiter_handler(&mut states, 10, "/api", &alice).0.status, 429);
    assert_eq!(limiter_handler(&mut states, 10, "/api", &bob).0.status, 200);
}

#[test]
fn missing_tracking_header_is_a_bad_request() {
    let rules = vec![rule(
        "r-api",
        "/api",
        RateLimiterAlgorithms::FixedWindow,
        1,
        60,
        LimiterTrackingType::Header,
        Some("x-api-key"),
        true,
    )];
    let mut states = States::new(rules);
    let headers = with_header("x-other", "zzz");
    let (outcome, _) = limiter_handler(&mut states, 10, "/api", &headers);
    assert_eq!(outcome.status, 400);
    assert_eq!(outcome.body, "x-api-key not found in request headers");
}

#[test]
fn unknown_path_passes_through() {
    let rules = vec![rule(
        "r-api",
        "/api",
        RateLimiterAlgorithms::FixedWindow,
        1,
        60,
        LimiterTrackingType::IP,
        None,
        true,
    )];
    let mut states = States::new(rules);
    let headers = with_header("x-forwarded-for", "10.0.0.1");
    let (outcome, _) = limiter_handler(&mut states, 10, "/nowhere", &headers);
    assert_eq!(outcome.status, 200);
    assert_eq!(outcome.body, "no matching rule");
}

#[test]
fn disabled_rule_never_touches_the_counter_store() {
    // A disabled rule answers 200 a thousand times and the counter store
    // stays empty.
    let rules = vec![rule(
        "r-off",
        "/off",
        RateLimiterAlgorithms::FixedWindow,
        0,
        1,
        LimiterTrackingType::IP,
        None,
        false,
    )];
    let mut states = States::new(rules);
    let headers = with_header("x-forwarded-for", "10.0.0.1");
    for _ in 0..1000 {
        let (outcome, _) = limiter_handler(&mut states, 10, "/off", &headers);
        assert_eq!(outcome.status, 200);
        assert_eq!(outcome.body, "rate limit not exceeded");
    }
    assert_eq!(states.pool.len(), 0);
    assert_eq!(states.rl_total_requests, 1000);
    assert_eq!(states.rl_allowed_requests, 1000);
    assert_eq!(states.rl_rejected_requests, 0);
}

#[test]
fn hot_reload_swaps_the_rule_set() {
    // The gateway starts with /a at limit 1; a new snapshot raises /a to 5
    // and adds /b at limit 2.
    let mut states = States::new(vec![rule(
        "r-a",
        "/a",
        RateLimiterAlgorithms::FixedWindow,
        1,
        60,
        LimiterTrackingType::IP,
        None,
        true,
    )]);
    let headers = with_header("x-forwarded-for", "10.0.0.1");
    states.install_snapshot(vec![
        rule(
            "r-a",
            "/a",
            RateLimiterAlgorithms::FixedWindow,
            5,
            60,
            LimiterTrackingType::IP,
            None,
            true,
        ),
        rule(
            "r-b",
            "/b",
            RateLimiterAlgorithms::FixedWindow,
            2,
            60,
            LimiterTrackingType::IP,
            None,
            true,
        ),
    ]);
    for _ in 0..5 {
        assert_eq!(limiter_handler(&mut states, 20, "/a", &headers).0.status, 200);
    }
    assert_eq!(limiter_handler(&mut states, 20, "/b", &headers).0.status, 200);
    assert_eq!(limiter_handler(&mut states, 20, "/b", &headers).0.status, 200);
    assert_eq!(limiter_handler(&mut states, 20, "/b", &headers).0.status, 429);
}

#[test]
fn token_bucket_refills_through_the_gateway() {
    let rules = vec![rule(
        "r-t",
        "/t",
        RateLimiterAlgorithms::TokenBucket,
        10,
        10,
        LimiterTrackingType::IP,
        None,
        true,
    )];
    let mut states = States::new(rules);
    let headers = with_header("x-forwarded-for", "10.0.0.1");
    for _ in 0..10 {
        assert_eq!(limiter_handler(&mut states, 1000, "/t", &headers).0.status, 200);
    }
    assert_eq!(limiter_handler(&mut states, 1000, "/t", &headers).0.status, 429);
    assert_eq!(limiter_handler(&mut states, 1002, "/t", &headers).0.status, 200);
    assert_eq!(limiter_handler(&mut states, 1002, "/t", &headers).0.status, 200);
    assert_eq!(limiter_handler(&mut states, 1002, "/t", &headers).0.status, 429);
}

#[test]
fn ip_headers_are_inspected_in_order() {
    let rules = vec![rule(
        "r-ip",
        "/ip",
        RateLimiterAlgorithms::FixedWindow,
        1,
        60,
        LimiterTrackingType::IP,
        None,
        true,
    )];
    let mut states = States::new(rules);
    // x-forwarded-for wins over x-real-ip, so the two requests hit two
    // different counters and both pass.
    let mut first = RequestHeaders::new();
    first.push("x-real-ip".to_string(), "9.9.9.9".to_string());
    first.push("x-forwarded-for".to_string(), "1.1.1.1".to_string());
    let mut second = RequestHeaders::new();
    second.push("x-real-ip".to_string(), "9.9.9.9".to_string());
    assert_eq!(limiter_handler(&mut states, 10, "/ip", &first).0.status, 200);
    assert_eq!(limiter_handler(&mut states, 10, "/ip", &second).0.status, 200);
    assert_eq!(limiter_handler(&mut states, 10, "/ip", &second).0.status, 429);
}

#[test]
fn no_recognized_ip_header_is_a_bad_request() {
    let rules = vec![rule(
        "r-ip",
        "/ip",
        RateLimiterAlgorithms::FixedWindow,
        1,
        60,
        LimiterTrackingType::IP,
        None,
        true,
    )];
    let mut states = States::new(rules);
    let headers = with_header("user-agent", "tests");
    let (outcome, _) = limiter_handler(&mut states, 10, "/ip", &headers);
    assert_eq!(outcome.status, 400);
    assert!(outcome.body.contains("x-forwarded-for"));
}

#[test]
fn route_parameters_match_concrete_paths() {
    let rules = vec![rule(
        "r-users",
        "/api/v1/users/{id}",
        RateLimiterAlgorithms::FixedWindow,
        2,
        60,
        LimiterTrackingType::IP,
        None,
        true,
    )];
    let mut states = States::new(rules);
    let headers = with_header("x-forwarded-for", "10.0.0.1");
    assert_eq!(limiter_handler(&mut states, 10, "/api/v1/users/42", &headers).0.status, 200);
    // Another id still falls under the same rule and the same caller.
    assert_eq!(limiter_handler(&mut states, 10, "/api/v1/users/43", &headers).0.status, 200);
    assert_eq!(limiter_handler(&mut states, 10, "/api/v1/users/44", &headers).0.status, 429);
}

#[test]
fn a_rule_missing_from_the_snapshot_is_a_server_error() {
    // A matcher and a snapshot that drifted apart: the matched id has no
    // rule behind it.
    let stale = vec![rule(
        "r-gone",
        "/gone",
        RateLimiterAlgorithms::FixedWindow,
        1,
        60,
        LimiterTrackingType::IP,
        None,
        true,
    )];
    let mut states = States {
        route_matcher: instantiate_matcher_with_rules(&stale),
        rules: Vec::new(),
        pool: CounterStore::new(),
        rl_total_requests: 0,
        rl_allowed_requests: 0,
        rl_rejected_requests: 0,
    };
    let headers = with_header("x-forwarded-for", "10.0.0.1");
    let (outcome, _) = limiter_handler(&mut states, 10, "/gone", &headers);
    assert_eq!(outcome.status, 500);
    assert_eq!(outcome.body, "Internal Server Error");
}

#[test]
fn counters_split_every_outcome() {
    let rules = vec![rule(
        "r-a",
        "/a",
        RateLimiterAlgorithms::FixedWindow,
        1,
        60,
        LimiterTrackingType::IP,
        None,
        true,
    )];
    let mut states = States::new(rules);
    let headers = with_header("x-forwarded-for", "10.0.0.1");
    limiter_handler(&mut states, 10, "/a", &headers);
    limiter_handler(&mut states, 10, "/a", &headers);
    limiter_handler(&mut states, 10, "/nowhere", &headers);
    assert_eq!(states.rl_total_requests, 3);
    assert_eq!(
        states.rl_total_requests,
        states.rl_allowed_requests + states.rl_rejected_requests
    );
    assert_eq!(states.rl_allowed_requests, 1);
    assert_eq!(states.rl_rejected_requests, 2);
}

#[test]
fn empty_ip_headers_fall_through() {
    let rules = vec![rule(
        "r-ip",
        "/ip",
        RateLimiterAlgorithms::FixedWindow,
        1,
        60,
        LimiterTrackingType::IP,
        None,
        true,
    )];
    let mut states = States::new(rules);
    // An empty x-forwarded-for does not win: the non-empty x-real-ip does,
    // so the two requests share one counter.
    let mut h = RequestHeaders::new();
    h.push("x-forwarded-for".to_string(), String::new());
    h.push("x-real-ip".to_string(), "10.0.0.9".to_string());
    assert_eq!(limiter_handler(&mut states, 10, "/ip", &h).0.status, 200);
    assert_eq!(limiter_handler(&mut states, 10, "/ip", &h).0.status, 429);
    // With every recognized header empty, no caller can be identified.
    let mut all_empty = RequestHeaders::new();
    all_empty.push("x-forwarded-for".to_string(), String::new());
    all_empty.push("x-real-ip".to_string(), String::new());
    all_empty.push("forwarded".to_string(), String::new());
    assert_eq!(limiter_handler(&mut states, 10, "/ip", &all_empty).0.status, 400);
}

#[test]
fn a_route_with_too_many_captures_is_skipped() {
    // matchit cannot hold a pattern with 26 or more captures; such a rule is
    // skipped like any other broken pattern, and the rest still load.
    let mut wide = String::new();
    for i in 0..26 {
        wide.push_str(&format!("/{{p{}}}", i));
    }
    let rules = vec![
        rule(
            "r-wide",
            &wide,
            RateLimiterAlgorithms::FixedWindow,
            1,
            60,
            LimiterTrackingType::IP,
            None,
            true,
        ),
        rule(
            "r-a",
            "/a",
            RateLimiterAlgorithms::FixedWindow,
            1,
            60,
            LimiterTrackingType::IP,
            None,
            true,
        ),
    ];
    let mut states = States::new(rules);
    let headers = with_header("x-forwarded-for", "10.0.0.1");
    assert_eq!(limiter_handler(&mut states, 10, "/a", &headers).0.status, 200);
}

#[test]
fn outcomes_carry_their_metric_labels() {
    let rules = vec![rule(
        "r-a",
        "/a",
        RateLimiterAlgorithms::FixedWindow,
        1,
        60,
        LimiterTrackingType::IP,
        None,
        true,
    )];
    let mut states = States::new(rules);
    let headers = with_header("x-forwarded-for", "10.0.0.1");
    let (_, labels) = limiter_handler(&mut states, 10, "/a", &headers);
    assert_eq!(
        labels,
        vec![
            ("rule_id".to_string(), "r-a".to_string()),
            ("route".to_string(), "/a".to_string()),
            ("algorithm".to_string(), "fw".to_string()),
            ("tracking_type".to_string(), "ip".to_string()),
            ("http_status".to_string(), "200".to_string()),
        ]
    );
    let (_, labels) = limiter_handler(&mut states, 10, "/a", &headers);
    assert_eq!(labels.last().unwrap(), &("http_status".to_string(), "429".to_string()));
    // Without a matched rule only the status dimension is emitted.
    let (_, labels) = limiter_handler(&mut states, 10, "/nowhere", &headers);
    assert_eq!(labels, vec![("http_status".to_string(), "200".to_string())]);
}
