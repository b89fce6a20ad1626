use ixmati::config::StoreConfig;
use ixmati::store::{StoreRegistry, Topology};
use ixmati::supervisor::{Supervisor, WriterStatus};

fn make_store(name: &str) -> StoreConfig {
    StoreConfig {
        name: name.into(),
        label: None,
        db_path: format!("/data/{}.db", name),
        topic_cmd: String::new(),
        topic_evt: String::new(),
        mqtt_broker: "tcp://localhost:1883".into(),
        mqtt_client_id: format!("writer-{}", name),
        batch_size: 100,
        batch_interval_ms: 50,
        litestream_config: None,
    }
}

#[test]
fn supervisor_creates_writers_for_each_store() {
    let registry = StoreRegistry::new(vec![make_store("pedidos"), make_store("usuarios")], Topology::SingleProcess);
    let supervisor = Supervisor::new(registry);
    assert_eq!(supervisor.store_count(), 2);
    assert!(supervisor.writer_for("pedidos").is_some());
    assert!(supervisor.writer_for("usuarios").is_some());
}

#[test]
fn single_store_no_events() {
    let registry = StoreRegistry::new(vec![make_store("pedidos")], Topology::PodPerStore);
    let supervisor = Supervisor::new(registry);
    assert_eq!(supervisor.store_count(), 1);
    assert!(!supervisor.should_activate_events());
}

#[test]
fn multi_store_activates_events() {
    let registry = StoreRegistry::new(
        vec![make_store("pedidos"), make_store("usuarios"), make_store("catalogo")],
        Topology::PodPerStore,
    );
    let supervisor = Supervisor::new(registry);
    assert!(supervisor.should_activate_events());
}

#[test]
fn writer_status_transitions() {
    let registry = StoreRegistry::new(vec![make_store("pedidos")], Topology::SingleProcess);
    let mut supervisor = Supervisor::new(registry);
    assert_eq!(supervisor.writer_for("pedidos").unwrap().status, WriterStatus::Initialized);
    supervisor.mark_running("pedidos");
    assert_eq!(supervisor.writer_for("pedidos").unwrap().status, WriterStatus::Running);
    supervisor.mark_stopped("pedidos");
    assert_eq!(supervisor.writer_for("pedidos").unwrap().status, WriterStatus::Stopped);
    supervisor.mark_failed("pedidos", "disk full".into());
    match &supervisor.writer_for("pedidos").unwrap().status {
        WriterStatus::Failed(msg) => assert_eq!(msg, "disk full"),
        _ => panic!("expected Failed status"),
    }
}

#[test]
fn topics_generated_for_all_stores() {
    let registry = StoreRegistry::new(vec![make_store("pedidos"), make_store("usuarios")], Topology::PodPerStore);
    let supervisor = Supervisor::new(registry);
    assert_eq!(supervisor.topics_cmd(), vec!["ixmati/cmd/pedidos", "ixmati/cmd/usuarios"]);
    assert_eq!(supervisor.topics_evt(), vec!["ixmati/evt/pedidos", "ixmati/evt/usuarios"]);
}

#[test]
fn marking_one_writer_leaves_the_others() {
    let registry = StoreRegistry::new(vec![make_store("pedidos"), make_store("usuarios")], Topology::PodPerStore);
    let mut supervisor = Supervisor::new(registry);
    supervisor.mark_running("pedidos");
    assert_eq!(supervisor.writer_for("usuarios").unwrap().status, WriterStatus::Initialized);
    supervisor.mark_running("nadie");
    assert_eq!(supervisor.writers().len(), 2);
    assert_eq!(supervisor.topology(), Topology::PodPerStore);
}
