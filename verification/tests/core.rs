use ixmati::config::{Config, StoreConfig};
use ixmati::error::Error;
use ixmati::mqtt::parse_mqtt_broker;
use ixmati::projection::{CopyField, ProjectionConfig, ProjectionPattern, ProjectionRegistry};
use ixmati::store::{Store, StoreRegistry, Topology};

fn store_config(name: &str) -> StoreConfig {
    StoreConfig {
        name: name.into(),
        label: None,
        db_path: format!("/data/{}.db", name),
        topic_cmd: String::new(),
        topic_evt: String::new(),
        mqtt_broker: "tcp://localhost:1883".into(),
        mqtt_client_id: format!("writer-{}", name),
        batch_size: 100,
        batch_interval_ms: 50,
        litestream_config: None,
    }
}

#[test]
fn valid_single_store_config() {
    let cfg = Config {
        stores: vec![StoreConfig {
            name: "pedidos".into(),
            label: Some("Pedidos".into()),
            db_path: "/data/pedidos.db".into(),
            topic_cmd: String::new(),
            topic_evt: String::new(),
            mqtt_broker: "tcp://localhost:1883".into(),
            mqtt_client_id: "writer-pedidos".into(),
            batch_size: 100,
            batch_interval_ms: 50,
            litestream_config: None,
        }],
    };
    assert!(cfg.validate().is_ok());
    assert!(cfg.is_single_store());
}

#[test]
fn empty_stores_invalid() {
    let cfg = Config { stores: vec![] };
    assert!(cfg.validate().is_err());
}

#[test]
fn store_name_with_slash_rejected() {
    let cfg = Config {
        stores: vec![StoreConfig {
            name: "bad/name".into(),
            label: None,
            db_path: "/data/bad.db".into(),
            topic_cmd: String::new(),
            topic_evt: String::new(),
            mqtt_broker: "tcp://localhost:1883".into(),
            mqtt_client_id: "writer-bad".into(),
            batch_size: 1,
            batch_interval_ms: 50,
            litestream_config: None,
        }],
    };
    assert!(cfg.validate().is_err());
}

#[test]
fn topic_defaults() {
    let store = StoreConfig {
        name: "pedidos".into(),
        label: None,
        db_path: "/data/pedidos.db".into(),
        topic_cmd: String::new(),
        topic_evt: String::new(),
        mqtt_broker: "tcp://localhost:1883".into(),
        mqtt_client_id: "writer-pedidos".into(),
        batch_size: 100,
        batch_interval_ms: 50,
        litestream_config: None,
    };
    assert_eq!(store.topic_cmd(), "ixmati/cmd/pedidos");
    assert_eq!(store.topic_evt(), "ixmati/evt/pedidos");
}

#[test]
fn configured_topics_are_kept() {
    let mut store = store_config("pedidos");
    store.topic_cmd = "custom/cmd".into();
    store.topic_evt = "custom/evt".into();
    assert_eq!(store.topic_cmd(), "custom/cmd");
    assert_eq!(store.topic_evt(), "custom/evt");
}

#[test]
fn parse_url_with_port() {
    let (host, port) = parse_mqtt_broker("tcp://mosquitto:30200");
    assert_eq!(host, "mosquitto");
    assert_eq!(port, 30200);
}

#[test]
fn parse_host_port_only() {
    let (host, port) = parse_mqtt_broker("localhost:1883");
    assert_eq!(host, "localhost");
    assert_eq!(port, 1883);
}

#[test]
fn parse_host_default_port() {
    let (host, port) = parse_mqtt_broker("mosquitto");
    assert_eq!(host, "mosquitto");
    assert_eq!(port, 1883);
}

#[test]
fn parse_tcp_without_port() {
    let (host, port) = parse_mqtt_broker("tcp://localhost");
    assert_eq!(host, "localhost");
    assert_eq!(port, 1883);
}

#[test]
fn parse_mqtt_prefix() {
    let (host, port) = parse_mqtt_broker("mqtt://broker:1883");
    assert_eq!(host, "broker");
    assert_eq!(port, 1883);
}

#[test]
fn parse_port_out_of_range_keeps_whole_address() {
    let (host, port) = parse_mqtt_broker("tcp://broker:70000");
    assert_eq!(host, "broker:70000");
    assert_eq!(port, 1883);
}

#[test]
fn broker_round_trip_for_written_address() {
    let url = format!("tcp://{}:{}", "mq-host", 4242u16);
    assert_eq!(parse_mqtt_broker(&url), ("mq-host".to_string(), 4242));
}

fn make_r_projection() -> ProjectionConfig {
    ProjectionConfig {
        name: "pedidos_con_usuario".into(),
        pattern: ProjectionPattern::R,
        source_stores: vec!["pedidos".into(), "usuarios".into()],
        target_key: "pedido_id".into(),
        ttl_seconds: 300,
        copy_fields: None,
    }
}

fn make_m_projection() -> ProjectionConfig {
    ProjectionConfig {
        name: "usuarios_materializados".into(),
        pattern: ProjectionPattern::M,
        source_stores: vec!["usuarios".into()],
        target_key: "usuario_id".into(),
        ttl_seconds: 600,
        copy_fields: Some(vec![CopyField {
            source_store: "usuarios".into(),
            source_entity: "usuario".into(),
            fields: vec!["nombre".into(), "email".into()],
        }]),
    }
}

#[test]
fn registry_finds_by_name() {
    let reg = ProjectionRegistry::new(vec![make_r_projection(), make_m_projection()]);
    assert_eq!(reg.len(), 2);
    assert!(reg.get("pedidos_con_usuario").is_some());
    assert!(reg.get("usuarios_materializados").is_some());
    assert!(reg.get("inexistente").is_none());
}

#[test]
fn for_store_filters_correctly() {
    let reg = ProjectionRegistry::new(vec![make_r_projection(), make_m_projection()]);
    let pedidos_projs = reg.for_store("pedidos");
    assert_eq!(pedidos_projs.len(), 1);
    assert_eq!(pedidos_projs[0].name, "pedidos_con_usuario");
    let usuarios_projs = reg.for_store("usuarios");
    assert_eq!(usuarios_projs.len(), 2);
}

#[test]
fn pattern_r_projections() {
    let reg = ProjectionRegistry::new(vec![make_r_projection(), make_m_projection()]);
    let r_projs = reg.pattern_r_projections();
    assert_eq!(r_projs.len(), 1);
    assert_eq!(r_projs[0].name, "pedidos_con_usuario");
}

#[test]
fn pattern_m_projections() {
    let reg = ProjectionRegistry::new(vec![make_r_projection(), make_m_projection()]);
    let m_projs = reg.pattern_m_projections();
    assert_eq!(m_projs.len(), 1);
    assert_eq!(m_projs[0].name, "usuarios_materializados");
}

#[test]
fn pattern_m_requires_copy_fields() {
    let proj = ProjectionConfig {
        name: "bad".into(),
        pattern: ProjectionPattern::M,
        source_stores: vec!["pedidos".into()],
        target_key: "k".into(),
        ttl_seconds: 300,
        copy_fields: None,
    };
    let reg = ProjectionRegistry::new(vec![proj]);
    assert!(reg.validate().is_err());
}

#[test]
fn empty_source_stores_rejected() {
    let proj = ProjectionConfig {
        name: "bad".into(),
        pattern: ProjectionPattern::R,
        source_stores: vec![],
        target_key: "k".into(),
        ttl_seconds: 300,
        copy_fields: None,
    };
    let reg = ProjectionRegistry::new(vec![proj]);
    assert!(reg.validate().is_err());
}

#[test]
fn valid_registry_passes_validation() {
    let reg = ProjectionRegistry::new(vec![make_r_projection(), make_m_projection()]);
    assert!(reg.validate().is_ok());
}

#[test]
fn pattern_names() {
    assert_eq!(ProjectionPattern::R.as_str(), "R");
    assert_eq!(ProjectionPattern::M.as_str(), "M");
}

#[test]
fn single_store_registry_no_events() {
    let reg = StoreRegistry::new(vec![store_config("pedidos")], Topology::SingleProcess);
    assert!(reg.is_single_store());
    assert_eq!(reg.len(), 1);
    assert!(!reg.should_activate_events());
    assert!(!reg.should_activate_outbox());
    assert!(!reg.should_activate_projectors());
}

#[test]
fn multi_store_registry_activates_events() {
    let reg = StoreRegistry::new(
        vec![store_config("pedidos"), store_config("usuarios"), store_config("catalogo")],
        Topology::PodPerStore,
    );
    assert!(!reg.is_single_store());
    assert_eq!(reg.len(), 3);
    assert!(reg.should_activate_events());
    assert!(reg.should_activate_outbox());
    assert!(reg.should_activate_projectors());
}

#[test]
fn store_lookup_by_name() {
    let reg = StoreRegistry::new(
        vec![store_config("pedidos"), store_config("usuarios")],
        Topology::SingleProcess,
    );
    assert!(reg.owns("pedidos"));
    assert!(reg.owns("usuarios"));
    assert!(!reg.owns("inexistente"));
    let store = reg.get("pedidos").unwrap();
    assert_eq!(store.name(), "pedidos");
}

#[test]
fn topics_generation() {
    let reg = StoreRegistry::new(vec![store_config("pedidos")], Topology::SingleProcess);
    assert_eq!(reg.topics_cmd(), vec!["ixmati/cmd/pedidos"]);
    assert_eq!(reg.topics_evt(), vec!["ixmati/evt/pedidos"]);
}

#[test]
fn entity_topic_format() {
    let store = Store::new(store_config("pedidos"));
    assert_eq!(store.entity_topic("pedido", "ped_abc123"), "ixmati/cmd/pedidos/pedido/ped_abc123");
    assert_eq!(store.event_topic("pedido", "ped_abc123"), "ixmati/evt/pedidos/pedido/ped_abc123");
}

#[test]
fn topology_is_stored() {
    let reg_sp = StoreRegistry::new(vec![store_config("pedidos")], Topology::SingleProcess);
    let reg_pp = StoreRegistry::new(vec![store_config("pedidos")], Topology::PodPerStore);
    assert_eq!(reg_sp.topology(), Topology::SingleProcess);
    assert_eq!(reg_pp.topology(), Topology::PodPerStore);
}

#[test]
fn writer_for_finds_the_named_store() {
    let reg = StoreRegistry::new(
        vec![store_config("pedidos"), store_config("usuarios")],
        Topology::SingleProcess,
    );
    assert_eq!(reg.writer_for("usuarios").unwrap().db_path(), "/data/usuarios.db");
    assert!(reg.writer_for("nadie").is_none());
}

#[test]
fn empty_stores_error_message() {
    let cfg = Config { stores: vec![] };
    assert_eq!(cfg.validate().unwrap_err(), vec!["at least one store required".to_string()]);
}

#[test]
fn error_codes_and_messages() {
    let e = Error::OutboxBacklog { store: "pedidos".into(), depth: 150, threshold: 100 };
    assert_eq!(e.code(), "OUTBOX_BACKLOG");
    assert_eq!(e.message(), "outbox backlog over threshold: pedidos (150 > 100)");
    let q = Error::QueueFull { store: "pedidos".into() };
    assert_eq!(q.code(), "QUEUE_FULL");
    assert_eq!(q.message(), "queue full: pedidos");
}

#[test]
fn attach_statements_and_guard() {
    use_attach();
}

fn use_attach() {
    assert_eq!(ixmati::attach::attach_sql("store_b", "/d/b.db"), "ATTACH DATABASE '/d/b.db' AS store_b");
    assert_eq!(ixmati::attach::detach_sql("store_b"), "DETACH DATABASE store_b");
    assert!(ixmati::attach::contains("not authorized here", "not authorized"));
    assert!(!ixmati::attach::contains("denied", "not authorized"));
    assert!(ixmati::attach::contains("x", ""));
    let guard = ixmati::attach::WriteConnectionGuard::attach_outcome;
    assert_eq!(guard(&Err("ATTACH not authorized".to_string())), Ok(()));
    assert_eq!(guard(&Err("disk I/O error".to_string())), Err("unexpected error: disk I/O error".to_string()));
    assert_eq!(guard(&Ok(())), Err("ATTACH should be blocked on write connections".to_string()));
    assert_eq!(ixmati::attach::WriteConnectionGuard::query_only_update(true), Some(true));
    assert_eq!(ixmati::attach::WriteConnectionGuard::query_only_update(false), None);
}

#[test]
fn every_error_kind_has_its_code() {
    let s = || "pedidos".to_string();
    let cases = vec![
        (Error::VersionConflict { detail: "d".into(), store: s(), idempotency_key: "k".into() }, "VERSION_CONFLICT", "version conflict: d"),
        (Error::Duplicate { detail: "d".into(), store: s(), idempotency_key: "k".into() }, "DUPLICATE", "duplicate: d"),
        (Error::StoreNotFound { store: s() }, "STORE_NOT_FOUND", "store not found: pedidos"),
        (Error::EntityNotFound { store: s(), entity: "pedido".into() }, "ENTITY_NOT_FOUND", "entity not found: pedido in pedidos"),
        (Error::WriteRejected { detail: "d".into(), store: s(), idempotency_key: "k".into() }, "WRITE_REJECTED", "write rejected: d"),
        (Error::PermissionDenied { store: s(), detail: "d".into() }, "PERMISSION_DENIED", "permission denied for store pedidos: d"),
        (Error::ProjectionError { detail: "d".into() }, "PROJECTION_ERROR", "projection error: d"),
        (Error::Internal { detail: "d".into() }, "INTERNAL", "internal error: d"),
    ];
    for (error, code, message) in cases {
        assert_eq!(error.code(), code);
        assert_eq!(error.message(), message);
    }
}
