use ixmati::projection::{CopyField, ProjectionConfig, ProjectionPattern, ProjectionRegistry};
use ixmati::projector::{event_key_from_value, Field, Payload};
use ixmati::reconciler::{
    parse_store_paths, rebuild_pattern_m_row, rebuild_pattern_r, require_copy_fields, store_path,
    Reconciler, ReconcilerConfig, ReconcilerReport, TableRow,
};
use std::collections::HashMap;

fn text(name: &str, value: &str) -> Field {
    Field { name: name.into(), text: Some(value.into()), json: format!("\"{}\"", value) }
}

fn number(name: &str, value: i64) -> Field {
    Field { name: name.into(), text: None, json: value.to_string() }
}

fn projection(name: &str) -> ProjectionConfig {
    ProjectionConfig {
        name: name.into(),
        pattern: ProjectionPattern::R,
        source_stores: vec!["pedidos".into()],
        target_key: "k".into(),
        ttl_seconds: 300,
        copy_fields: None,
    }
}

#[test]
fn event_key_from_value_extracts_field() {
    let payload = Payload { fields: vec![text("pedido_id", "abc123"), number("total", 100)] };
    assert_eq!(event_key_from_value(&payload, "pedido_id", "fallback"), "abc123");
}

#[test]
fn event_key_from_value_falls_back() {
    let payload = Payload { fields: vec![number("total", 100)] };
    assert_eq!(event_key_from_value(&payload, "pedido_id", "fallback"), "fallback");
}

#[test]
fn reconciler_config_defaults() {
    let config = ReconcilerConfig { projection_filter: None, dry_run: true, store_paths: Vec::new() };
    assert!(config.dry_run);
    assert!(config.projection_filter.is_none());
}

#[test]
fn reconciler_new_stores_registry() {
    let registry = ProjectionRegistry::new(vec![projection("test_prj")]);
    let reconciler = Reconciler::new(registry);
    assert_eq!(reconciler.registry().len(), 1);
}

#[test]
fn report_defaults_to_zero() {
    let r = ReconcilerReport::default();
    assert_eq!(r.total_projections, 0);
    assert_eq!(r.reprojected, 0);
    assert!(r.errors.is_empty());
}

#[test]
fn dry_run_skips_every_selected_projection() {
    let reconciler = Reconciler::new(ProjectionRegistry::new(vec![projection("a"), projection("b")]));
    let config = ReconcilerConfig { projection_filter: None, dry_run: true, store_paths: Vec::new() };
    let report = reconciler.report(&config, &Vec::new());
    assert_eq!(report.total_projections, 2);
    assert_eq!(report.dry_run_skipped, 2);
    assert_eq!(report.reprojected, 0);
}

#[test]
fn report_counts_rebuilt_rows_and_failures() {
    let reconciler = Reconciler::new(ProjectionRegistry::new(vec![projection("a"), projection("b")]));
    let config = ReconcilerConfig { projection_filter: None, dry_run: false, store_paths: Vec::new() };
    let outcomes = vec![Ok(3), Err("no db_path for store 'x'".to_string())];
    let report = reconciler.report(&config, &outcomes);
    assert_eq!(report.reprojected, 1);
    assert_eq!(report.entities_scanned, 3);
    assert_eq!(report.errors, vec!["b: no db_path for store 'x'".to_string()]);
}

#[test]
fn filter_selects_the_named_projection() {
    let reconciler = Reconciler::new(ProjectionRegistry::new(vec![projection("a"), projection("b")]));
    let config = ReconcilerConfig { projection_filter: Some("b".into()), dry_run: true, store_paths: Vec::new() };
    let selected = reconciler.selected_projections(&config);
    assert_eq!(selected.len(), 1);
    assert_eq!(selected[0].name, "b");
}

#[test]
fn store_paths_are_parsed_and_looked_up() {
    let paths = parse_store_paths(" pedidos = /a.db , bad ,usuarios=/b.db,pedidos=/c.db");
    let map: HashMap<String, String> = paths.clone().into_iter().collect();
    assert_eq!(map.len(), 2);
    assert_eq!(map["pedidos"], "/c.db");
    let config = ReconcilerConfig { projection_filter: None, dry_run: false, store_paths: paths };
    assert_eq!(store_path(&config, "usuarios"), Ok("/b.db".to_string()));
    assert_eq!(store_path(&config, "x"), Err("no db_path for store 'x'".to_string()));
}

#[test]
fn pattern_r_rebuild_joins_referenced_rows() {
    let mut proj = projection("pedidos_con_usuario");
    proj.source_stores = vec!["pedidos".into(), "usuarios".into()];
    proj.target_key = "usuario_id".into();
    let pedidos = vec![
        TableRow { key: "p1".into(), payload: Payload { fields: vec![text("usuario_id", "u1")] } },
        TableRow { key: "p2".into(), payload: Payload { fields: vec![number("total", 5)] } },
        TableRow { key: "p1".into(), payload: Payload { fields: vec![text("usuario_id", "u2")] } },
    ];
    let usuarios = vec![TableRow { key: "u2".into(), payload: Payload { fields: vec![] } }];
    let rows = rebuild_pattern_r(&proj, &vec![pedidos, usuarios]);
    assert_eq!(rows.len(), 2);
    assert_eq!(rows[0].primary, 1);
    assert_eq!(rows[0].key, "p2");
    assert!(rows[0].others.is_empty());
    assert_eq!(rows[1].primary, 2);
    assert_eq!(rows[1].key, "u2");
    assert_eq!(rows[1].others, vec![(1, 0)]);
}

#[test]
fn pattern_m_rebuild_copies_present_fields() {
    let row = TableRow {
        key: "u1".into(),
        payload: Payload { fields: vec![text("nombre", "Ana"), text("secreto", "x")] },
    };
    let fields = vec!["nombre".to_string(), "email".to_string()];
    let plan = rebuild_pattern_m_row("usuario_id", &fields, &row).unwrap();
    assert_eq!(plan.key, "u1");
    assert_eq!(plan.fields, vec!["nombre"]);
    let empty = TableRow { key: "u2".into(), payload: Payload { fields: vec![] } };
    assert!(rebuild_pattern_m_row("usuario_id", &fields, &empty).is_none());
    let mut m = projection("m");
    assert_eq!(require_copy_fields(&m), Err("pattern M requires copy_fields".to_string()));
    m.copy_fields = Some(vec![CopyField { source_store: "s".into(), source_entity: "e".into(), fields: vec![] }]);
    assert!(require_copy_fields(&m).is_ok());
}
