//! The snapshot wire format: encoding, parsing, and the watcher's script.

use rrate_limiter::rate_limiter::{LimiterTrackingType, RateLimiterAlgorithms};
use rrate_limiter::rules::{MinimalRule, Rule};
use rrate_limiter::snapshot::{
    assign_rule_ids, encode_snapshot, get_rules_route_and_id, make_rules_configuration_script,
    parse_snapshot,
};

fn sample_rule() -> MinimalRule {
    MinimalRule {
        id: "r1".to_string(),
        route: "/a".to_string(),
        algorithm: RateLimiterAlgorithms::FixedWindow,
        limit: 1,
        expiration: 2,
        tracking_type: LimiterTrackingType::IP,
        custom_tracking_key: None,
        status: true,
        ttl: 3,
    }
}

fn assert_rules_equal(a: &MinimalRule, b: &MinimalRule) {
    assert_eq!(a.id, b.id);
    assert_eq!(a.route, b.route);
    assert_eq!(a.algorithm.to_str(), b.algorithm.to_str());
    assert_eq!(a.limit, b.limit);
    assert_eq!(a.expiration, b.expiration);
    assert_eq!(a.tracking_type.to_string(), b.tracking_type.to_string());
    assert_eq!(a.custom_tracking_key, b.custom_tracking_key);
    assert_eq!(a.status, b.status);
    assert_eq!(a.ttl, b.ttl);
}

#[test]
fn snapshot_encodes_canonically() {
    let doc = encode_snapshot(&vec![sample_rule()]);
    assert_eq!(
        doc,
        "{\"r1\":{\"id\":\"r1\",\"route\":\"/a\",\"algorithm\":\"fw\",\"tracking_type\":\"ip\",\
         \"limit\":1,\"expiration\":2,\"custom_tracking_key\":\"\",\"status\":true,\"ttl\":3}}"
    );
}

#[test]
fn snapshot_round_trips() {
    let mut second = sample_rule();
    second.id = "r2".to_string();
    second.route = "/api/{name}".to_string();
    second.algorithm = RateLimiterAlgorithms::LeakyBucket;
    second.tracking_type = LimiterTrackingType::Header;
    second.custom_tracking_key = Some("x-api-key".to_string());
    second.status = false;
    second.limit = 18446744073709551615;
    let rules = vec![sample_rule(), second];
    let doc = encode_snapshot(&rules);
    let parsed = parse_snapshot(&doc).expect("canonical document parses");
    assert_eq!(parsed.len(), 2);
    assert_rules_equal(&parsed[0], &rules[0]);
    assert_rules_equal(&parsed[1], &rules[1]);
}

#[test]
fn snapshot_round_trips_escaped_text() {
    let mut odd = sample_rule();
    odd.id = "quote\"back\\slash".to_string();
    odd.route = "/tab\tnew\nline".to_string();
    let rules = vec![odd];
    let doc = encode_snapshot(&rules);
    let parsed = parse_snapshot(&doc).expect("escapes parse back");
    assert_rules_equal(&parsed[0], &rules[0]);
    assert!(doc.contains("\\\""));
    assert!(doc.contains("\\u0009"));
    assert!(doc.contains("\\u000a"));
}

#[test]
fn empty_snapshot_round_trips() {
    let doc = encode_snapshot(&Vec::new());
    assert_eq!(doc, "{}");
    let parsed = parse_snapshot(&doc).expect("the empty object parses");
    assert!(parsed.is_empty());
}

#[test]
fn parser_rejects_what_the_watcher_never_writes() {
    assert!(parse_snapshot("").is_none());
    assert!(parse_snapshot("{").is_none());
    assert!(parse_snapshot("{}x").is_none());
    assert!(parse_snapshot("{\"r1\":{}}").is_none());
    assert!(parse_snapshot("[1,2]").is_none());
    // A limit past 64 bits is refused rather than wrapped.
    let doc = encode_snapshot(&vec![sample_rule()]);
    let huge = doc.replace("\"limit\":1", "\"limit\":18446744073709551616");
    assert!(parse_snapshot(&huge).is_none());
}

#[test]
fn configuration_script_writes_the_snapshot_and_publishes() {
    let rule = Rule {
        id: "r1".to_string(),
        route: "/a".to_string(),
        algorithm: RateLimiterAlgorithms::FixedWindow,
        limit: 1,
        expiration: 2,
        tracking_type: LimiterTrackingType::IP,
        custom_tracking_key: None,
        status: true,
        ttl: 3,
        date_creation: 0,
        date_modification: 0,
    };
    let script = make_rules_configuration_script(&vec![rule]);
    assert_eq!(
        script,
        "redis.call('JSON.SET', 'rules', '$', '{\"r1\":{\"id\":\"r1\",\"route\":\"/a\",\
         \"algorithm\":\"fw\",\"tracking_type\":\"ip\",\"limit\":1,\"expiration\":2,\
         \"custom_tracking_key\":\"\",\"status\":true,\"ttl\":3}}')\n\
         redis.call('PUBLISH', 'rl_update', 'update')"
    );
}

#[test]
fn route_and_id_pairs_come_back_in_snapshot_order() {
    let mut second = sample_rule();
    second.id = "r2".to_string();
    second.route = "/b".to_string();
    let doc = encode_snapshot(&vec![sample_rule(), second]);
    let pairs = get_rules_route_and_id(&doc).expect("snapshot parses");
    assert_eq!(
        pairs,
        vec![
            ("/a".to_string(), "r1".to_string()),
            ("/b".to_string(), "r2".to_string()),
        ]
    );
}

#[test]
fn known_routes_keep_their_ids_and_new_routes_get_fresh_ones() {
    let mut config_a = sample_rule();
    config_a.id = String::new();
    let mut config_b = sample_rule();
    config_b.id = String::new();
    config_b.route = "/b".to_string();
    let existing = vec![("/a".to_string(), "published-id".to_string())];
    let out = assign_rule_ids(&vec![config_a, config_b], &existing);
    assert_eq!(out.len(), 2);
    assert_eq!(out[0].id, "published-id");
    assert_eq!(out[0].route, "/a");
    // A route never published before gets a fresh 36-character identifier.
    assert_eq!(out[1].id.len(), 36);
    assert_ne!(out[1].id, out[0].id);
}
