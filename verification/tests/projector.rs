use ixmati::cache::NoOpBackend;
use ixmati::projection::{CopyField, ProjectionConfig, ProjectionPattern, ProjectionRegistry};
use ixmati::projector::{
    add_dependent, dependency_index_key, dependency_index_prefix, event_key_from_payload,
    extract_target_key, infer_entity_from_store, is_deleted, plan_pattern_m, plan_pattern_r,
    plan_pattern_r_direct,
    refresh_steps, resolve_lookup_key, Admission, Event, EventGate, Field, Payload,
    ProjectorEngine, RPlan, SourceRead, MAX_DEPENDENTS,
};
use std::sync::Arc;

fn text(name: &str, value: &str) -> Field {
    Field { name: name.into(), text: Some(value.into()), json: format!("\"{}\"", value) }
}

fn number(name: &str, value: i64) -> Field {
    Field { name: name.into(), text: None, json: value.to_string() }
}

fn event(store: &str, entity: &str, key: &str, event_type: &str, fields: Vec<Field>) -> Event {
    Event {
        event_id: "evt-1".into(),
        event_type: event_type.into(),
        store: store.into(),
        entity: entity.into(),
        key: key.into(),
        version: 1,
        occurred_at: "2026-07-30T00:00:00Z".into(),
        outbox_seq: 1,
        payload: Payload { fields },
    }
}

fn r_projection() -> ProjectionConfig {
    ProjectionConfig {
        name: "pedidos_con_usuario".into(),
        pattern: ProjectionPattern::R,
        source_stores: vec!["pedidos".into(), "usuarios".into()],
        target_key: "pedido_id".into(),
        ttl_seconds: 300,
        copy_fields: None,
    }
}

fn m_projection(fields: Vec<&str>) -> ProjectionConfig {
    ProjectionConfig {
        name: "usuarios_materializados".into(),
        pattern: ProjectionPattern::M,
        source_stores: vec!["usuarios".into()],
        target_key: "usuario_id".into(),
        ttl_seconds: 600,
        copy_fields: Some(vec![CopyField {
            source_store: "usuarios".into(),
            source_entity: "usuario".into(),
            fields: fields.into_iter().map(String::from).collect(),
        }]),
    }
}

#[test]
fn engine_exposes_registry() {
    let registry = ProjectionRegistry::new(vec![]);
    let cache = Arc::new(NoOpBackend::new());
    let engine = ProjectorEngine::new(registry, cache);
    assert_eq!(engine.registry().len(), 0);
}

#[test]
fn infer_entity_strips_trailing_s() {
    assert_eq!(infer_entity_from_store("usuarios"), "usuario");
    assert_eq!(infer_entity_from_store("pedidos"), "pedido");
    assert_eq!(infer_entity_from_store("inventario"), "inventario");
}

#[test]
fn dependency_index_key_is_reserved_and_stable() {
    let projection = r_projection();
    assert_eq!(
        dependency_index_key(&projection, "usuarios", "usuario", "usr_1"),
        "ridx:pedidos_con_usuario:usuarios:usuario:usr_1"
    );
    assert_eq!(dependency_index_prefix(&projection), "ridx:pedidos_con_usuario:");
}

#[test]
fn resolve_lookup_key_uses_singular_store_id_field() {
    let e = event(
        "pedidos",
        "pedido",
        "ped_1",
        "pedido.creado",
        vec![text("pedido_id", "ped_1"), text("usuario_id", "usr_99"), number("total", 100)],
    );
    assert_eq!(resolve_lookup_key(&e, "usuarios"), "usr_99");
}

#[test]
fn resolve_lookup_key_falls_back_to_event_key() {
    let e = event("pedidos", "pedido", "ped_1", "pedido.creado", vec![number("total", 100)]);
    assert_eq!(resolve_lookup_key(&e, "usuarios"), "ped_1");
}

#[test]
fn pattern_r_cross_store_uses_lookup_key_not_event_key() {
    let e = event(
        "pedidos",
        "pedido",
        "ped_1",
        "pedido.creado",
        vec![text("pedido_id", "ped_1"), text("usuario_id", "usr_99"), number("total", 100)],
    );
    assert_eq!(resolve_lookup_key(&e, "usuarios"), "usr_99");
    assert_eq!(infer_entity_from_store("usuarios"), "usuario");
    assert_ne!(resolve_lookup_key(&e, "usuarios"), e.key);
    match plan_pattern_r(&r_projection(), &e) {
        RPlan::Primary { steps, projection_key, delete, index_keys } => {
            assert_eq!(steps.len(), 2);
            assert!(matches!(steps[0].read, SourceRead::Event));
            match &steps[1].read {
                SourceRead::Lookup { entity, key } => {
                    assert_eq!(entity, "usuario");
                    assert_eq!(key, "usr_99");
                }
                SourceRead::Event => panic!("expected a lookup"),
            }
            assert_eq!(projection_key, "ped_1");
            assert!(!delete);
            assert_eq!(index_keys, vec!["ridx:pedidos_con_usuario:usuarios:usuario:usr_99"]);
        }
        _ => panic!("expected a primary-store plan"),
    }
}

#[test]
fn secondary_store_events_refresh_dependents() {
    let e = event("usuarios", "usuario", "usr_99", "usuario.deleted", vec![]);
    match plan_pattern_r(&r_projection(), &e) {
        RPlan::Secondary { index_key, delete } => {
            assert_eq!(index_key, "ridx:pedidos_con_usuario:usuarios:usuario:usr_99");
            assert!(delete);
        }
        _ => panic!("expected a secondary-store plan"),
    }
    let steps = refresh_steps(&r_projection(), &e, "ped_7");
    assert!(matches!(&steps[0].read, SourceRead::Lookup { entity, key } if entity == "pedido" && key == "ped_7"));
    assert!(matches!(steps[1].read, SourceRead::Event));
}

#[test]
fn extracts_target_key_from_payload() {
    let e = event("pedidos", "pedido", "ped_1", "pedido.creado", vec![text("pedido_id", "abc123"), number("total", 100)]);
    assert_eq!(event_key_from_payload(&e, "pedido_id"), "abc123");
}

#[test]
fn falls_back_to_event_key() {
    let e = event("pedidos", "pedido", "ped_1", "pedido.creado", vec![number("total", 100)]);
    assert_eq!(event_key_from_payload(&e, "pedido_id"), "ped_1");
}

#[test]
fn non_text_key_field_uses_its_json() {
    let e = event("pedidos", "pedido", "ped_1", "pedido.creado", vec![number("pedido_id", 42)]);
    assert_eq!(event_key_from_payload(&e, "pedido_id"), "42");
}

#[test]
fn deleted_event_is_detected_from_event_type() {
    let e = event("usuarios", "usuario", "usr_1", "usuario.deleted", vec![]);
    assert!(is_deleted(&e));
    let f = event("usuarios", "usuario", "usr_1", "usuario.creado", vec![]);
    assert!(!is_deleted(&f));
}

#[test]
fn extract_target_key_from_payload_value() {
    let e = event("usuarios", "usuario", "usr_1", "usuario.creado", vec![text("usuario_id", "usr_1"), text("nombre", "Ana")]);
    assert_eq!(extract_target_key(&e, "usuario_id"), "usr_1");
}

#[test]
fn extract_target_key_falls_back_to_event_key() {
    let e = event("usuarios", "usuario", "usr_1", "usuario.creado", vec![text("nombre", "Ana")]);
    assert_eq!(extract_target_key(&e, "usuario_id"), "usr_1");
}

#[test]
fn pattern_m_copies_specified_fields() {
    let e = event(
        "usuarios",
        "usuario",
        "usr_1",
        "usuario.creado",
        vec![
            text("usuario_id", "usr_1"),
            text("nombre", "Ana"),
            text("email", "ana@example.com"),
            text("password_hash", "secret"),
        ],
    );
    let plan = plan_pattern_m(&m_projection(vec!["nombre", "email"]), &e).unwrap();
    assert_eq!(plan.key, "usr_1");
    assert_eq!(plan.fields, vec!["nombre", "email"]);
}

#[test]
fn pattern_m_skips_event_with_no_matching_store() {
    let e = event("pedidos", "pedido", "ped_1", "pedido.creado", vec![number("total", 100)]);
    assert!(plan_pattern_m(&m_projection(vec!["nombre"]), &e).is_none());
}

#[test]
fn pattern_m_no_copy_fields_returns_early() {
    let mut proj = m_projection(vec![]);
    proj.copy_fields = None;
    let e = event("usuarios", "usuario", "usr_1", "usuario.creado", vec![text("nombre", "Ana")]);
    assert!(plan_pattern_m(&proj, &e).is_none());
}

#[test]
fn reverse_index_is_bounded_and_free_of_repeats() {
    let targets = vec!["a".to_string()];
    assert!(add_dependent(&targets, "a").is_none());
    assert_eq!(add_dependent(&targets, "b"), Some(vec!["a".to_string(), "b".to_string()]));
    let full: Vec<String> = (0..MAX_DEPENDENTS).map(|i| format!("k{}", i)).collect();
    assert!(add_dependent(&full, "new").is_none());
}

#[test]
fn event_gate_drops_stale_and_duplicate_events() {
    let mut gate = EventGate::new(2);
    assert_eq!(gate.accept("pedidos", "pedido", "p1", 2, "e1"), Admission::Process);
    assert_eq!(gate.accept("pedidos", "pedido", "p1", 1, "e0"), Admission::Stale);
    assert_eq!(gate.accept("pedidos", "pedido", "p1", 2, "e1"), Admission::Duplicate);
    assert_eq!(gate.accept("pedidos", "pedido", "p2", 1, "e2"), Admission::Process);
    // The remembered ids reached the capacity and are forgotten.
    assert_eq!(gate.accept("pedidos", "pedido", "p3", 1, "e1"), Admission::Process);
}

#[test]
fn direct_pattern_r_reads_every_store_at_the_event_key() {
    let e = event(
        "usuarios",
        "usuario",
        "usr_99",
        "usuario.actualizado",
        vec![text("pedido_id", "ped_3"), text("nombre", "Ana")],
    );
    let plan = plan_pattern_r_direct(&r_projection(), &e);
    assert_eq!(plan.projection_key, "ped_3");
    assert_eq!(plan.steps.len(), 2);
    assert_eq!(plan.steps[0].store, "pedidos");
    assert_eq!(plan.steps[0].entity, "usuario");
    assert_eq!(plan.steps[0].key, "usr_99");
    assert!(!plan.steps[0].event_fallback);
    assert_eq!(plan.steps[1].store, "usuarios");
    assert!(plan.steps[1].event_fallback);
    let keyless = event("usuarios", "usuario", "usr_99", "usuario.actualizado", vec![]);
    assert_eq!(plan_pattern_r_direct(&r_projection(), &keyless).projection_key, "usr_99");
}

#[test]
fn gate_remembers_ids_until_capacity() {
    let mut gate = EventGate::new(3);
    assert_eq!(gate.accept("s", "e", "k1", 1, "a"), Admission::Process);
    assert_eq!(gate.accept("s", "e", "k2", 1, "b"), Admission::Process);
    assert_eq!(gate.accept("s", "e", "k1", 1, "a"), Admission::Duplicate);
    assert_eq!(gate.accept("s", "e", "k3", 1, "c"), Admission::Process);
    assert_eq!(gate.accept("s", "e", "k2", 1, "b"), Admission::Process);
    assert_eq!(gate.accept("s", "e", "k2", 1, "b"), Admission::Duplicate);
    assert_eq!(gate.accept("s", "e", "k1", 1, "a"), Admission::Process);
}
