use ixmati::api::{parse_api_key_scopes, parse_db_paths, ApiConfig};
use ixmati::auth::{
    authorize, authorize_metadata, validate_api_key, wants_protobuf, ApiKey, AuthConfig,
    AuthCredentials, AuthDecision, Session, MAX_CLOCK_MICROS, MAX_TTL_SECONDS,
};
use ixmati::backpressure::OutboxBacklog;
use ixmati::health::{worst, Health, HealthChecker, SqliteProbe};
use std::collections::HashMap;

fn key(id: &str, stores: &[&str]) -> ApiKey {
    ApiKey {
        key_id: id.into(),
        store_access: stores.iter().map(|s| s.to_string()).collect(),
        created_at: 0,
    }
}

#[test]
fn validate_known_api_key() {
    let keys = vec![key("ix-key-1", &["pedidos"])];
    let found = validate_api_key("ix-key-1", &keys);
    assert!(found.is_some());
    assert_eq!(found.unwrap().store_access, vec!["pedidos"]);
}

#[test]
fn unknown_api_key_returns_none() {
    let keys = vec![key("ix-key-1", &["pedidos"])];
    assert!(validate_api_key("unknown", &keys).is_none());
}

#[test]
fn credentials_from_bearer_header() {
    let creds = AuthCredentials::from_header(Some("Bearer abc123"));
    assert!(matches!(creds, Some(AuthCredentials::BearerToken(t)) if t == "abc123"));
}

#[test]
fn credentials_from_api_key_header() {
    let creds = AuthCredentials::from_header(Some("ApiKey ix-key-1"));
    assert!(matches!(creds, Some(AuthCredentials::ApiKey(k)) if k == "ix-key-1"));
}

#[test]
fn credentials_from_raw_header() {
    let creds = AuthCredentials::from_header(Some("ix-key-raw"));
    assert!(matches!(creds, Some(AuthCredentials::ApiKey(k)) if k == "ix-key-raw"));
}

#[test]
fn no_header_returns_none() {
    assert!(AuthCredentials::from_header(None).is_none());
}

#[test]
fn disabled_auth_allows_requests_without_header() {
    let config = AuthConfig::disabled();
    assert_eq!(authorize(&config, None), AuthDecision::Allow(None));
}

#[test]
fn enabled_auth_rejects_missing_and_unknown_keys() {
    let config = AuthConfig::new(vec![key("ix-key-1", &[])]);
    assert!(matches!(authorize(&config, None), AuthDecision::Reject(_)));
    assert!(matches!(authorize(&config, Some("ApiKey nope")), AuthDecision::Reject(_)));
    assert_eq!(authorize(&config, Some("ApiKey ix-key-1")), AuthDecision::Allow(Some(0)));
}

#[test]
fn metadata_auth_requires_known_key() {
    let config = AuthConfig::new(vec![key("ix-key-1", &[])]);
    assert!(authorize_metadata(&config, Some("ix-key-1")).is_ok());
    assert_eq!(authorize_metadata(&config, Some("other")), Err("invalid API key".to_string()));
    assert_eq!(
        authorize_metadata(&config, None),
        Err("x-api-key metadata is required".to_string())
    );
}

#[test]
fn protobuf_content_type_is_detected() {
    assert!(wants_protobuf(&["application/protobuf".to_string()]));
    assert!(!wants_protobuf(&["application/json".to_string()]));
}

#[test]
fn under_threshold_is_none() {
    let mut bp = OutboxBacklog::new(100);
    bp.update("default", 50);
    assert_eq!(bp.check("default"), None);
}

#[test]
fn over_threshold_returns_depth() {
    let mut bp = OutboxBacklog::new(100);
    bp.update("default", 150);
    assert_eq!(bp.check("default"), Some(150));
}

#[test]
fn unknown_store_is_none() {
    let bp = OutboxBacklog::new(100);
    assert_eq!(bp.check("unknown"), None);
}

#[test]
fn zero_threshold_disables_backpressure() {
    let mut bp = OutboxBacklog::new(0);
    bp.update("default", 999_999);
    assert_eq!(bp.check("default"), None);
}

#[test]
fn reset_missing_zeroes_drained_stores_and_reports_them() {
    let mut bp = OutboxBacklog::new(100);
    bp.update("default", 500);
    bp.update("other", 10);
    let seen = vec!["other".to_string()];
    let reset = bp.reset_missing(&seen);
    assert_eq!(reset, vec!["default".to_string()]);
    assert_eq!(bp.check("default"), None);
}

#[test]
fn reset_missing_is_idempotent_for_already_zero_stores() {
    let mut bp = OutboxBacklog::new(100);
    bp.update("default", 0);
    let reset = bp.reset_missing(&[]);
    assert!(reset.is_empty());
}

#[test]
fn reset_twice_reports_nothing_the_second_time() {
    let mut bp = OutboxBacklog::new(100);
    bp.update("a", 300);
    bp.update("b", 400);
    assert_eq!(bp.reset_missing(&[]), vec!["a".to_string(), "b".to_string()]);
    assert!(bp.reset_missing(&[]).is_empty());
    assert_eq!(bp.threshold(), 100);
}

#[test]
fn health_check_api_only_returns_ok() {
    let checker = HealthChecker::new();
    let status = checker.check(&[], false);
    assert_eq!(status.overall, Health::Healthy);
    assert!(!status.components.is_empty());
}

#[test]
fn worst_health_aggregation() {
    assert_eq!(worst(Health::Healthy, Health::Degraded), Health::Degraded);
    assert_eq!(worst(Health::Unavailable, Health::Healthy), Health::Unavailable);
    assert_eq!(worst(Health::Healthy, Health::Healthy), Health::Healthy);
}

#[test]
fn health_check_with_store_name() {
    let checker = HealthChecker::new().with_store("pedidos");
    let status = checker.check(&[], false);
    assert_eq!(status.store, Some("pedidos".into()));
}

#[test]
fn health_check_names_each_configured_store() {
    let checker = HealthChecker::new()
        .with_store_db("pedidos", "/tmp/a.db")
        .with_store_db("usuarios", "/tmp/b.db");
    let targets = checker.sqlite_targets();
    assert_eq!(targets.len(), 2);
    let status = checker.check(&[SqliteProbe::Connected, SqliteProbe::Connected], false);
    let names: Vec<_> = status.components.iter().map(|c| c.name.as_str()).collect();
    assert!(names.contains(&"sqlite:pedidos"));
    assert!(names.contains(&"sqlite:usuarios"));
    assert_eq!(status.overall, Health::Healthy);
}

#[test]
fn unreachable_broker_degrades_or_fails_health() {
    let checker = HealthChecker::new().with_mqtt("tcp://localhost:1883");
    assert_eq!(checker.mosquitto_address(), Some("localhost:1883".to_string()));
    let status = checker.check(&[], false);
    assert_ne!(status.overall, Health::Healthy);
}

#[test]
fn default_config() {
    let cfg = ApiConfig::default();
    assert_eq!(cfg.host, "127.0.0.1");
    assert_eq!(cfg.port, 8080);
    assert_eq!(cfg.grpc_port, 30100);
}

#[test]
fn api_key_scopes_parse_without_changing_legacy_keys() {
    let scopes: HashMap<String, Vec<String>> =
        parse_api_key_scopes("orders-key=orders|users; audit-key=audit").into_iter().collect();
    assert_eq!(scopes["orders-key"], vec!["orders", "users"]);
    assert_eq!(scopes["audit-key"], vec!["audit"]);
    assert!(parse_api_key_scopes("").is_empty());
}

#[test]
fn db_paths_skip_incomplete_entries() {
    let paths: HashMap<String, String> =
        parse_db_paths(" pedidos = /a.db ,usuarios=,=/c.db,x").into_iter().collect();
    assert_eq!(paths.len(), 1);
    assert_eq!(paths["pedidos"], "/a.db");
}

#[test]
fn session_is_valid_when_not_expired() {
    let session = Session::new("key-1", 3600);
    assert!(session.is_valid());
    assert!(!session.is_expired());
}

#[test]
fn session_expires_after_ttl() {
    let session = Session::new("key-1", 0);
    assert!(session.is_expired());
}

#[test]
fn session_window_is_ttl_in_microseconds() {
    let session = Session::issued("tok".to_string(), "key-1", 1_000, 2);
    assert_eq!(session.token, "tok");
    assert_eq!(session.api_key_id, "key-1");
    assert_eq!(session.created_at, 1_000);
    assert_eq!(session.expires_at, 2_001_000);
    assert!(session.is_valid_at(2_000_999));
    assert!(!session.is_valid_at(2_001_000));
}

#[test]
fn session_token_is_a_fresh_hyphenated_uuid() {
    let a = Session::new("key-1", 60);
    let b = Session::new("key-1", 60);
    assert_eq!(a.token.len(), 36);
    assert_eq!(a.token.matches('-').count(), 4);
    for (i, c) in a.token.chars().enumerate() {
        if [8, 13, 18, 23].contains(&i) {
            assert_eq!(c, '-');
        } else {
            assert!(c.is_ascii_digit() || ('a'..='f').contains(&c));
        }
    }
    assert_eq!(a.token.chars().nth(14), Some('4'));
    assert!(matches!(a.token.chars().nth(19), Some('8' | '9' | 'a' | 'b')));
    assert_ne!(a.token, b.token);
    assert_eq!(a.expires_at - a.created_at, 60_000_000);
}

#[test]
fn session_longest_ttl_does_not_overflow() {
    let session = Session::issued("t".to_string(), "k", i64::MAX, MAX_TTL_SECONDS);
    assert_eq!(session.expires_at, i64::MAX as i128 + MAX_TTL_SECONDS as i128 * 1_000_000);
    let past = Session::issued("t".to_string(), "k", 0, -MAX_TTL_SECONDS);
    assert!(!past.is_valid_at(0));
}

#[test]
fn clock_bound_is_chronos_latest_instant() {
    assert_eq!(MAX_CLOCK_MICROS, chrono::DateTime::<chrono::Utc>::MAX_UTC.timestamp_micros());
}

#[test]
fn session_ending_past_the_clock_range_is_valid() {
    let forever = Session::issued("t".to_string(), "k", 0, MAX_TTL_SECONDS);
    assert!(forever.expires_at > MAX_CLOCK_MICROS as i128);
    assert!(forever.is_valid());
    assert!(!forever.is_expired());
    let ended = Session::issued("t".to_string(), "k", 0, 0);
    assert!(!ended.is_valid());
    assert!(ended.is_expired());
}
