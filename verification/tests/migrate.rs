use ixmati::migrate::{
    bucket_for_key, checksum, collect, count_rows, default_hash_algorithm, plan_report,
    quote_ident, route, route_counts, target_specs, validate_manifest, Manifest, MigrationError,
    Operation, Report, SourceSpec, TargetSpec, HASH_ALGORITHM,
};
use ixmati::rows::{
    compare_state, merge_idempotency, merge_outbox, merge_states, IdempotencyRow, OutboxRow,
    StateRow,
};
use ixmati::order::Order;

fn manifest(operation: Operation, sources: &[&str], target: Option<&str>, targets: &[&str], quiesced: bool) -> Manifest {
    Manifest {
        operation,
        sources: sources
            .iter()
            .map(|s| SourceSpec { name: s.to_string(), path: format!("{}.db", s) })
            .collect(),
        target: target.map(|t| TargetSpec { name: t.to_string(), path: format!("{}.db", t) }),
        targets: targets
            .iter()
            .map(|t| TargetSpec { name: t.to_string(), path: format!("{}.db", t) })
            .collect(),
        hash_algorithm: HASH_ALGORITHM.into(),
        evidence_dir: "evidence".into(),
        quiesced,
    }
}

fn message(e: MigrationError) -> String {
    match e {
        MigrationError::Manifest(m) => m,
        other => panic!("unexpected error {:?}", other),
    }
}

#[test]
fn manifest_rejects_non_quiesced_execution() {
    let m = manifest(Operation::Rename, &["old"], Some("new"), &[], false);
    assert!(validate_manifest(&m).is_err());
}

#[test]
fn manifest_checks_in_order() {
    assert!(validate_manifest(&manifest(Operation::Rename, &["old"], Some("new"), &[], true)).is_ok());
    assert_eq!(
        message(validate_manifest(&manifest(Operation::Rename, &[], Some("new"), &[], true)).unwrap_err()),
        "sources no puede estar vacío"
    );
    assert_eq!(
        message(validate_manifest(&manifest(Operation::Rename, &["a"], Some("a"), &[], true)).unwrap_err()),
        "nombre duplicado: a"
    );
    assert!(validate_manifest(&manifest(Operation::Merge, &["a", "b"], Some("a"), &[], true)).is_ok());
    assert_eq!(
        message(validate_manifest(&manifest(Operation::Rename, &["bad name"], Some("n"), &[], true)).unwrap_err()),
        "identificador de store inválido: \"bad name\""
    );
    assert_eq!(
        message(validate_manifest(&manifest(Operation::Split, &["s"], None, &["t1"], true)).unwrap_err()),
        "split requiere exactamente un source y al menos dos targets"
    );
    assert_eq!(
        message(validate_manifest(&manifest(Operation::Rename, &["s"], None, &["t1"], true)).unwrap_err()),
        "rename/merge requieren target y no targets"
    );
    let mut m = manifest(Operation::Rename, &["old"], Some("new"), &[], true);
    m.hash_algorithm = "md5".into();
    assert_eq!(message(validate_manifest(&m).unwrap_err()), "hash_algorithm debe ser sha256-key-v1");
    let mut m = manifest(Operation::Rename, &["old"], Some("new"), &[], true);
    m.sources[0].path = String::new();
    assert_eq!(message(validate_manifest(&m).unwrap_err()), "ruta vacía para old");
}

#[test]
fn error_messages_carry_their_kind() {
    assert_eq!(MigrationError::Conflict("x".into()).message(), "conflict: x");
    assert_eq!(MigrationError::Manifest("y".into()).message(), "invalid manifest: y");
    assert_eq!(default_hash_algorithm(), "sha256-key-v1");
}

#[test]
fn bucket_mapping_is_stable() {
    assert_eq!(bucket_for_key("pedido-1", 3), bucket_for_key("pedido-1", 3));
    assert!(bucket_for_key("pedido-1", 3) < 3);
}

#[test]
fn bucket_uses_the_first_digest_bytes() {
    // SHA-256("abc") starts with ba 78 16 bf 8f 01 cf ea.
    let value: u64 = 0xba7816bf8f01cfea;
    assert_eq!(bucket_for_key("abc", 1000) as u64, value % 1000);
    assert_eq!(bucket_for_key("abc", 1), 0);
}

#[test]
fn checksum_is_lowercase_hex_sha256() {
    assert_eq!(
        checksum(b"abc"),
        "ba7816bf8f01cfea414140de5dae2223b00361a396177a9cb410ff61f20015ad"
    );
}

#[test]
fn routing_sends_rename_and_merge_to_the_single_target() {
    assert_eq!(route(Operation::Rename, "k", 1), 0);
    assert_eq!(route(Operation::Merge, "k", 3), 0);
    assert_eq!(route(Operation::Split, "abc", 1000), bucket_for_key("abc", 1000));
}

#[test]
fn quote_ident_doubles_quotes() {
    assert_eq!(quote_ident("payload_x"), "\"payload_x\"");
    assert_eq!(quote_ident("a\"b"), "\"a\"\"b\"");
}

fn state(key: &str, version: u64, ts: &str, source: &str, payload: Option<&str>) -> StateRow {
    StateRow {
        entity: "pedido".into(),
        key: key.into(),
        version,
        timestamp: ts.into(),
        source: source.into(),
        payload: payload.map(|p| p.as_bytes().to_vec()),
        event_id: None,
    }
}

#[test]
fn merge_uses_lww() {
    let rows = vec![
        state("p1", 1, "2026-01-01", "left", Some("left")),
        state("p1", 2, "2026-01-01", "right", Some("right")),
    ];
    let (kept, conflicts) = merge_states(&rows);
    assert_eq!(conflicts, 1);
    assert_eq!(kept.len(), 1);
    assert_eq!(kept[0].version, 2);
    assert_eq!(kept[0].source, "right");
}

#[test]
fn lww_tie_breaks_by_timestamp_then_smaller_source() {
    let a = state("p1", 1, "2026-01-02", "b", Some("x"));
    let b = state("p1", 1, "2026-01-01", "a", Some("x"));
    assert_eq!(compare_state(&a, &b), Order::Greater);
    let c = state("p1", 1, "2026-01-01", "a", Some("x"));
    let d = state("p1", 1, "2026-01-01", "b", Some("x"));
    assert_eq!(compare_state(&c, &d), Order::Greater);
    assert_eq!(compare_state(&c, &c), Order::Equal);
    let (kept, conflicts) = merge_states(&vec![d, c]);
    assert_eq!(kept[0].source, "a");
    assert_eq!(conflicts, 0);
}

#[test]
fn tombstones_and_payloads_are_counted() {
    let rows = vec![state("p1", 1, "t", "s", Some("x")), state("p2", 1, "t", "s", None)];
    let (kept, _) = merge_states(&rows);
    assert_eq!(count_rows(&kept), (1, 1));
}

fn idem(key: &str, digest: &str, source: &str) -> IdempotencyRow {
    IdempotencyRow {
        idempotency_key: key.into(),
        entity: "pedido".into(),
        key: "p1".into(),
        version: 1,
        operation: Some("upsert".into()),
        digest: Some(digest.into()),
        applied_at: "2026-01-01".into(),
        source: source.into(),
    }
}

#[test]
fn merge_rejects_divergent_idempotency_digest() {
    let rows = vec![idem("same-key", "digest-left", "left"), idem("same-key", "digest-right", "right")];
    match merge_idempotency(&rows) {
        Err(MigrationError::Conflict(m)) => {
            assert!(m.contains("same-key"));
            assert_eq!(m, "idempotency_key same-key diverge entre left y right");
        }
        _ => panic!("expected a conflict"),
    }
}

#[test]
fn identical_idempotency_records_are_deduplicated() {
    let rows = vec![idem("k", "d", "left"), idem("k", "d", "right"), idem("j", "d", "left")];
    match merge_idempotency(&rows) {
        Ok((kept, dedup)) => {
            assert_eq!(kept.len(), 2);
            assert_eq!(dedup, 1);
            assert_eq!(kept[0].source, "left");
        }
        Err(e) => panic!("unexpected {:?}", e),
    }
}

fn outbox(id: &str, payload: &str) -> OutboxRow {
    OutboxRow {
        event_id: id.into(),
        event_type: "upsert".into(),
        entity: "pedido".into(),
        key: "p1".into(),
        version: 1,
        occurred_at: "t".into(),
        payload: payload.as_bytes().to_vec(),
        published_at: Some("t".into()),
    }
}

#[test]
fn outbox_events_are_merged_by_id() {
    assert_eq!(merge_outbox(&vec![outbox("e1", "a"), outbox("e1", "a"), outbox("e2", "b")]).ok().map(|v| v.len()), Some(2));
    match merge_outbox(&vec![outbox("e1", "a"), outbox("e1", "b")]) {
        Err(MigrationError::Conflict(m)) => assert_eq!(m, "event_id e1 tiene payload divergente"),
        _ => panic!("expected a conflict"),
    }
}

#[test]
fn split_routes_all_durable_rows_by_stable_hash() {
    let key_a = "key-a";
    let key_b = (0..100)
        .map(|index| format!("key-{index}"))
        .find(|key| bucket_for_key(key_a, 2) != bucket_for_key(key, 2))
        .unwrap();
    let rows = vec![state(key_a, 1, "t", "source", Some("0")), state(&key_b, 1, "t", "source", Some("1"))];
    let (kept, _) = merge_states(&rows);
    let counts = route_counts(Operation::Split, &kept, 2);
    assert_eq!(counts.iter().sum::<usize>(), 2);
    assert_eq!(counts, vec![1, 1]);
}

#[test]
fn plan_report_counts_merged_rows() {
    let m = manifest(Operation::Merge, &["left", "right"], Some("merged"), &[], true);
    let states = vec![
        state("p1", 1, "t", "left", Some("l")),
        state("p1", 2, "t", "right", Some("r")),
        state("p2", 1, "t", "left", None),
    ];
    let collected = collect(&states, &vec![idem("k", "d", "left"), idem("k", "d", "right")], &vec![outbox("e1", "a")]).ok().unwrap();
    let report: Report = plan_report(&m, &collected);
    assert_eq!(report.operation, Some(Operation::Merge));
    assert_eq!(report.sources, vec!["left", "right"]);
    assert_eq!(report.targets, vec!["merged"]);
    assert_eq!(report.payload_rows, 1);
    assert_eq!(report.tombstone_rows, 1);
    assert_eq!(report.conflicts, 1);
    assert_eq!(report.idempotency_rows, 1);
    assert_eq!(report.deduplicated_idempotency, 1);
    assert_eq!(report.outbox_rows, 1);
    assert_eq!(target_specs(&m).len(), 1);
}
