use ixmati::auth::ApiKey;
use ixmati::backpressure::OutboxBacklog;
use ixmati::error::Error;
use ixmati::events::{
    cursor_error, health_code, map_core_error, require_status_fields, require_write_fields,
    retry_after_secs, rpc_ack_status, setting_at_least, status_detail, validate_subscription,
    EventCursor, GrpcCode, StreamAction, SEEN_LIMIT,
};
use ixmati::health::Health;
use ixmati::proxy::{after_subscribe, answer_payload, query_topic};
use ixmati::service::{
    accepted_ack, admit_write, command_topic, commit_ack, effective_idempotency_key, plan_read,
    queue_full, wants_commit, AppliedRow, ApiStatus, CommitOutcome, ReadPlan, StatusQuery,
    WriteStatus,
};
use ixmati::startup::{
    backpressure_threshold, build_api_keys, choose_cache, flag_on, listen_address, number_or,
    parse_i64, parse_migrate_cli, read_mode, server_backend, socket_path, CacheChoice, ReadMode,
};
use ixmati::migrate::Mode;

#[test]
fn committed_write_without_database_is_rejected() {
    let bp = OutboxBacklog::new(100);
    let r = admit_write("committed", false, "pedidos", "ik-1", &bp).unwrap_err();
    assert_eq!(r.status, ApiStatus::BadRequest);
    assert_eq!(r.status.code(), 400);
    match r.error {
        Error::WriteRejected { store, idempotency_key, .. } => {
            assert_eq!(store, "pedidos");
            assert_eq!(idempotency_key, "ik-1");
        }
        _ => panic!("expected WriteRejected"),
    }
}

#[test]
fn accepted_is_an_alias_of_committed() {
    assert!(wants_commit("committed"));
    assert!(wants_commit("accepted"));
    assert!(!wants_commit("fire-and-forget"));
    let bp = OutboxBacklog::new(100);
    assert!(admit_write("accepted", false, "pedidos", "ik", &bp).is_err());
    assert_eq!(admit_write("accepted", true, "pedidos", "ik", &bp).ok(), Some(true));
    assert_eq!(admit_write("", false, "pedidos", "ik", &bp).ok(), Some(false));
}

#[test]
fn backlogged_store_refuses_writes() {
    let mut bp = OutboxBacklog::new(100);
    bp.update("pedidos", 150);
    let r = admit_write("", true, "pedidos", "ik", &bp).unwrap_err();
    assert_eq!(r.status.code(), 429);
    match r.error {
        Error::OutboxBacklog { store, depth, threshold } => {
            assert_eq!(store, "pedidos");
            assert_eq!(depth, 150);
            assert_eq!(threshold, 100);
        }
        _ => panic!("expected OutboxBacklog"),
    }
    assert!(admit_write("", true, "usuarios", "ik", &bp).is_ok());
}

#[test]
fn throttled_write_is_queue_full() {
    let r = queue_full("pedidos");
    assert_eq!(r.status.code(), 429);
    assert!(matches!(r.error, Error::QueueFull { store } if store == "pedidos"));
}

#[test]
fn idempotency_key_is_generated_only_when_missing() {
    assert_eq!(effective_idempotency_key("", "gen-1"), "gen-1");
    assert_eq!(effective_idempotency_key("mine", "gen-1"), "mine");
}

#[test]
fn command_topic_format() {
    assert_eq!(command_topic("pedidos", "pedido", "ped_1"), "ixmati/cmd/pedidos/pedido/ped_1");
}

#[test]
fn acknowledgements() {
    let (status, ack) = accepted_ack("pedidos", "ik-1");
    assert_eq!(status.code(), 200);
    assert_eq!(ack.status, "ACCEPTED");
    assert_eq!(ack.message.as_deref(), Some("published"));

    let applied = CommitOutcome::Applied {
        entity: "pedido".into(),
        key: "p1".into(),
        version: 3,
        applied_at: "2026-01-01".into(),
    };
    let (status, ack) = commit_ack(&applied, "pedidos", "ik-1", 2000);
    assert_eq!(status.code(), 200);
    assert_eq!(ack.status, "APPLIED");
    assert_eq!(ack.message.as_deref(), Some("committed: pedido/p1 v3 at 2026-01-01"));

    let (status, ack) = commit_ack(&CommitOutcome::TimedOut, "pedidos", "ik-1", 2000);
    assert_eq!(status.code(), 202);
    assert_eq!(ack.status, "PENDING");
    assert_eq!(
        ack.message.as_deref(),
        Some("aún no comprometido tras 2000ms; consultar GET /writes/pedidos/ik-1")
    );
}

#[test]
fn projection_reads_use_projection_keys() {
    match plan_read(None, None, Some("u1"), Some("usuarios_mat")).ok().unwrap() {
        ReadPlan::Projection { name, key, cache_key } => {
            assert_eq!(name, "usuarios_mat");
            assert_eq!(key, "u1");
            assert_eq!(cache_key, "p:usuarios_mat:u1");
        }
        _ => panic!("expected a projection read"),
    }
}

#[test]
fn entity_reads_use_cache_keys_then_sql() {
    match plan_read(Some("pedidos"), Some("pedido"), None, None).ok().unwrap() {
        ReadPlan::Entity { store, entity, key, cache_key, sql } => {
            assert_eq!(store, "pedidos");
            assert_eq!(entity, "pedido");
            assert_eq!(key, "");
            assert_eq!(cache_key, "c:pedidos:pedido:");
            assert_eq!(sql, "SELECT payload FROM payload_pedidos WHERE entity = ?1 AND key = ?2");
        }
        _ => panic!("expected an entity read"),
    }
    let r = plan_read(None, Some("pedido"), Some("k"), None).err().unwrap();
    assert_eq!(r.status.code(), 400);
    assert!(matches!(r.error, Error::StoreNotFound { store } if store.is_empty()));
}

#[test]
fn status_query_reports_pending_or_applied() {
    match StatusQuery::from_row("pedidos", "ik-9", None) {
        WriteStatus::Pending { store, idempotency_key } => {
            assert_eq!(store, "pedidos");
            assert_eq!(idempotency_key, "ik-9");
        }
        _ => panic!("expected Pending"),
    }
    let row = AppliedRow {
        idempotency_key: "ik-1".into(),
        store: "pedidos".into(),
        entity: "pedido".into(),
        key: "p1".into(),
        version: 4,
        applied_at: "t".into(),
    };
    let status = StatusQuery::from_row("pedidos", "ik-1", Some(row));
    assert!(matches!(&status, WriteStatus::Applied { version: 4, .. }));
    assert_eq!(status_detail(&status), (2, "APPLIED pedido/p1 v4 at t".to_string()));
    assert_eq!(
        status_detail(&WriteStatus::Pending { store: "s".into(), idempotency_key: "k".into() }),
        (6, "PENDING".to_string())
    );
}

#[test]
fn core_errors_map_to_rpc_codes() {
    assert_eq!(map_core_error(&Error::QueueFull { store: "s".into() }), GrpcCode::ResourceExhausted);
    assert_eq!(
        map_core_error(&Error::EntityNotFound { store: "s".into(), entity: "e".into() }),
        GrpcCode::NotFound
    );
    assert_eq!(
        map_core_error(&Error::Duplicate { detail: "d".into(), store: "s".into(), idempotency_key: "k".into() }),
        GrpcCode::AlreadyExists
    );
    assert_eq!(
        map_core_error(&Error::WriteRejected { detail: "d".into(), store: "s".into(), idempotency_key: "k".into() }),
        GrpcCode::InvalidArgument
    );
    assert_eq!(map_core_error(&Error::Internal { detail: "d".into() }), GrpcCode::Internal);
    assert_eq!(retry_after_secs(None), 1);
    assert_eq!(retry_after_secs(Some("0")), 1);
    assert_eq!(retry_after_secs(Some("7")), 7);
    assert_eq!(retry_after_secs(Some("x")), 1);
}

#[test]
fn subscription_requests_are_validated() {
    assert_eq!(
        validate_subscription("", 0, true),
        Err((GrpcCode::InvalidArgument, "store is required".to_string()))
    );
    assert_eq!(
        validate_subscription("pedidos", -1, true),
        Err((GrpcCode::InvalidArgument, "after_outbox_seq cannot be negative".to_string()))
    );
    assert_eq!(
        validate_subscription("pedidos", 0, false),
        Err((GrpcCode::NotFound, "store database is not configured".to_string()))
    );
    assert!(validate_subscription("pedidos", 5, true).is_ok());
}

#[test]
fn old_cursor_is_reported_when_outbox_history_was_retained_after_cleanup() {
    assert_eq!(
        cursor_error(1, Some(10)),
        Some("outbox cursor 1 is older than retained history starting at 10".to_string())
    );
    assert_eq!(cursor_error(9, Some(10)), None);
    assert_eq!(cursor_error(3, None), None);
}

#[test]
fn event_cursor_skips_duplicates_and_reports_slow_consumers() {
    let mut cursor = EventCursor::new(-5);
    assert_eq!(cursor.cursor(), 0);
    assert_eq!(cursor.on_event(1, "e1", 10), StreamAction::Send);
    assert_eq!(cursor.cursor(), 1);
    assert_eq!(cursor.on_event(2, "e1", 10), StreamAction::Skip);
    assert_eq!(cursor.cursor(), 2);
    assert_eq!(
        cursor.on_event(3, "e3", 1),
        StreamAction::Exhausted("event stream consumer is behind; resume from cursor 2".to_string())
    );
    assert_eq!(cursor.cursor(), 2);
}

#[test]
fn rpc_field_checks_and_codes() {
    assert!(require_write_fields("upsert", "s", "e", "k", "i").is_ok());
    assert_eq!(
        require_write_fields("upsert", "", "e", "k", "i"),
        Err("op, store, entity, key and idempotency_key are required".to_string())
    );
    assert_eq!(
        require_status_fields("s", ""),
        Err("store and idempotency_key are required".to_string())
    );
    assert_eq!(rpc_ack_status("APPLIED"), "COMMITTED");
    assert_eq!(rpc_ack_status("PENDING"), "PENDING");
    assert_eq!(health_code(Health::Healthy), 1);
    assert_eq!(health_code(Health::Unavailable), 3);
    assert_eq!(setting_at_least(Some("1"), u64::MAX, 2, 128), 128);
    assert_eq!(setting_at_least(Some("64"), u64::MAX, 2, 128), 64);
}

#[test]
fn cache_choice_follows_settings() {
    assert_eq!(read_mode("socket"), ReadMode::Socket);
    assert_eq!(read_mode("other"), ReadMode::Direct);
    assert!(matches!(choose_cache(None, "redb", ReadMode::Direct), CacheChoice::NoOp));
    assert!(matches!(choose_cache(Some("/c"), "redb", ReadMode::Mqtt), CacheChoice::NoOp));
    assert!(matches!(choose_cache(Some("/c"), "redb", ReadMode::Direct), CacheChoice::Redb(p) if p == "/c/cache.redb"));
    assert!(matches!(choose_cache(Some("/c"), "sqlite", ReadMode::Direct), CacheChoice::Sqlite(p) if p == "/c/cache.db"));
    assert!(matches!(choose_cache(Some("/c"), "flashdb", ReadMode::Direct), CacheChoice::NoOp));
    assert!(matches!(server_backend("/c", "sqlite"), Ok(CacheChoice::Sqlite(p)) if p == "/c/cache.db"));
    assert_eq!(server_backend("/c", "lmdb").err(), Some("unknown CACHE_BACKEND: lmdb".to_string()));
    assert_eq!(socket_path(None), "/var/run/ixmati/cache.sock");
    assert_eq!(socket_path(Some("/s")), "/s");
}

#[test]
fn numeric_settings() {
    assert_eq!(number_or(Some("25"), u64::MAX, 1000), 25);
    assert_eq!(number_or(Some("x"), u64::MAX, 1000), 1000);
    assert_eq!(parse_i64("-42"), Some(-42));
    assert_eq!(parse_i64("+7"), Some(7));
    assert_eq!(parse_i64("-+7"), None);
    assert_eq!(parse_i64("-9223372036854775808"), Some(i64::MIN));
    assert_eq!(parse_i64("9223372036854775808"), None);
    assert_eq!(backpressure_threshold(None), 5000);
    assert_eq!(backpressure_threshold(Some("0")), 0);
    assert!(flag_on(Some("true")));
    assert!(flag_on(Some("1")));
    assert!(!flag_on(Some("yes")));
    assert_eq!(listen_address("0.0.0.0", 30000), "0.0.0.0:30000");
}

#[test]
fn api_keys_get_their_scopes() {
    let scopes = ixmati::api::parse_api_key_scopes("k1=orders|users");
    let keys: Vec<ApiKey> = build_api_keys(" k1 , ,k2", &scopes, 17);
    assert_eq!(keys.len(), 2);
    assert_eq!(keys[0].key_id, "k1");
    assert_eq!(keys[0].store_access, vec!["orders", "users"]);
    assert_eq!(keys[1].key_id, "k2");
    assert!(keys[1].store_access.is_empty());
    assert_eq!(keys[1].created_at, 17);
}

#[test]
fn migrate_command_line() {
    let args = |v: &[&str]| v.iter().map(|s| s.to_string()).collect::<Vec<String>>();
    assert!(matches!(parse_migrate_cli(&args(&["plan", "--manifest", "m.toml"])), Some((Mode::Plan, p)) if p == "m.toml"));
    assert!(matches!(parse_migrate_cli(&args(&["execute", "--manifest", "a", "--manifest", "b"])), Some((Mode::Execute, p)) if p == "b"));
    assert!(parse_migrate_cli(&args(&["plan"])).is_none());
    assert!(parse_migrate_cli(&args(&["plan", "--manifest"])).is_none());
    assert!(parse_migrate_cli(&args(&["run", "--manifest", "m"])).is_none());
    assert!(parse_migrate_cli(&args(&["plan", "--other", "m"])).is_none());
}

#[test]
fn cache_proxy_topics_and_retries() {
    assert_eq!(query_topic("pedidos", "pedido", "p1"), "ixmati/qry/pedidos/pedido/p1");
    assert_eq!(after_subscribe(0, true), (false, 0));
    assert_eq!(after_subscribe(0, false), (true, 1));
    assert_eq!(after_subscribe(5, false), (false, 0));
    assert_eq!(answer_payload(true, Some(vec![1])), Some(vec![1]));
    assert_eq!(answer_payload(false, Some(vec![1])), None);
}

#[test]
fn event_cursor_remembers_ids_until_the_limit() {
    let mut cursor = EventCursor::new(0);
    for i in 0..SEEN_LIMIT {
        assert_eq!(cursor.on_event(i as i64 + 1, &format!("e{i}"), 10), StreamAction::Send);
    }
    assert_eq!(cursor.on_event(5000, "e0", 10), StreamAction::Skip);
    assert_eq!(cursor.on_event(5001, "e7", 10), StreamAction::Skip);
    assert_eq!(cursor.on_event(5002, "new", 10), StreamAction::Send);
    assert_eq!(cursor.on_event(5003, "e0", 10), StreamAction::Send);
    assert_eq!(cursor.cursor(), 5003);
}
