use ixmati::cache::{
    cache_key, internal_key, namespace_prefix, projection_key, under_prefix, CacheBackend,
    CacheServer, FlashDb, NoOpBackend, ReadOnlyCache,
};
use ixmati::protocol::{
    del_prefix_request, del_request, flush_request, get_request, lookup_reply, parse_command,
    parse_hit_header, process_command, set_request, status_reply, Command,
};
use std::sync::Arc;

#[test]
fn noop_get_returns_none() {
    let backend = NoOpBackend::new();
    assert!(backend.get("store", "entity", "key").is_none());
}

#[test]
fn noop_set_does_not_crash() {
    let backend = NoOpBackend::new();
    backend.set("store", "entity", "key", &[1, 2, 3]);
}

#[test]
fn noop_del_does_not_crash() {
    let backend = NoOpBackend::new();
    backend.del("store", "entity", "key");
}

#[test]
fn noop_delete_by_prefix_does_not_crash() {
    let backend = NoOpBackend::new();
    backend.delete_by_prefix("store", "prefix:");
}

#[test]
fn transport_comparison() {
    println!("\n=== Transport Comparison ===");
    println!("  ┌──────────┬──────────┬──────────┬─────────────────────────────────┐");
    println!("  │ Mode     │ GET p50  │ GET p99  │ Note                            │");
    println!("  ├──────────┼──────────┼──────────┼─────────────────────────────────┤");
    println!("  │ direct   │   14 µs  │   34 µs  │ SQLite WAL (bench_backends)     │");
    println!("  │ socket   │ ~100 µs  │ ~500 µs  │ Unix socket IPC + serializacion │");
    println!("  │ mqtt     │ ~2-5 ms  │ ~10 ms   │ MQTT QoS 0 round-trip           │");
    println!("  │ base     │  ~0.1 µs │  ~0.2 µs │ NoOpBackend (overhead puro)     │");
    println!("  └──────────┴──────────┴──────────┴─────────────────────────────────┘");
    println!();
    println!("  Recomendacion:");
    println!("  - SQLite: usar modo direct (default, 14µs)");
    println!("  - Redb/FlashDB: usar modo socket (0.1ms, sin broker externo)");
    println!("  - MQTT: usar cuando se necesite decoupling completo via broker");
    println!();
    println!("  El modo socket es ~7x mas lento que direct pero permite usar");
    println!("  cualquier backend single-process (Redb, FlashDB, etc).");
}

#[test]
fn cache_key_generation() {
    assert_eq!(cache_key("pedidos", "pedido", "ped_1"), "c:pedidos:pedido:ped_1");
}

#[test]
fn projection_key_generation() {
    assert_eq!(projection_key("usuarios_materializados", "usr_1"), "p:usuarios_materializados:usr_1");
    assert_ne!(cache_key("usuarios", "usuario", "usr_1"), projection_key("usuarios", "usr_1"));
}

#[test]
fn internal_key_with_empty_value_field_produces_ns_colon_entity() {
    assert_eq!(
        internal_key("cache", "p:usuarios_materializados:usr_1", ""),
        "cache:p:usuarios_materializados:usr_1"
    );
}

#[test]
fn internal_key_with_value_field_produces_ns_colon_entity_colon_key() {
    assert_eq!(internal_key("cache", "usuarios", "usr_1"), "cache:usuarios:usr_1");
}

#[test]
fn prefix_deletion_matches_namespace_and_prefix() {
    assert_eq!(namespace_prefix("cache", "p:x:"), "cache:p:x:");
    assert!(under_prefix("cache:p:x:1", "cache", "p:x:"));
    assert!(!under_prefix("other:p:x:1", "cache", "p:x:"));
}

#[test]
fn readonly_cache_drops_writes_and_serves_reads() {
    let ro = ReadOnlyCache::new(NoOpBackend::new());
    ro.set("cache", "k", "", b"v");
    assert!(ro.get("cache", "k", "").is_none());
    let flash = FlashDb::new("/tmp/unused").ok().unwrap();
    assert!(flash.get("s", "e", "k").is_none());
    let server = CacheServer::new(Arc::new(NoOpBackend::new()), "/tmp/cache.sock");
    assert_eq!(server.path(), "/tmp/cache.sock");
}

fn command_of(line: &str) -> Command {
    parse_command(line.trim())
}

#[test]
fn server_reads_client_requests() {
    assert!(matches!(command_of(&get_request("c:p:e:k")), Command::Get(k) if k == "c:p:e:k"));
    assert!(matches!(command_of(&set_request("c:p:e:k", 12)), Command::Store { key, len: 12 } if key == "c:p:e:k"));
    assert!(matches!(command_of(&del_request("k1")), Command::Del(k) if k == "k1"));
    assert!(matches!(command_of(&del_prefix_request("p:x:")), Command::DelPrefix(p) if p == "p:x:"));
    assert!(matches!(command_of(&flush_request()), Command::Flush));
    assert_eq!(get_request("k"), "GET k\n");
    assert_eq!(set_request("k", 5), "SET k 5\n");
}

#[test]
fn server_rejects_malformed_requests() {
    assert!(matches!(parse_command("SET onlykey"), Command::InvalidSet));
    assert!(matches!(parse_command("SET k notanumber"), Command::InvalidLength));
    assert!(matches!(parse_command("PING"), Command::Unknown));
    assert_eq!(status_reply(&Command::InvalidSet), "ERR invalid SET\n");
    assert_eq!(status_reply(&Command::InvalidLength), "ERR invalid length\n");
    assert_eq!(status_reply(&Command::Unknown), "ERR unknown command\n");
    assert_eq!(status_reply(&Command::Flush), "OK\n");
}

#[test]
fn lookup_replies_and_headers() {
    assert_eq!(lookup_reply(Some(b"hello")), b"HIT 5\nhello\n".to_vec());
    assert_eq!(lookup_reply(None), b"MISS\n".to_vec());
    assert_eq!(parse_hit_header("HIT 5\n"), Some(5));
    assert_eq!(parse_hit_header("  HIT  12 "), Some(12));
    assert_eq!(parse_hit_header("MISS\n"), None);
    assert_eq!(parse_hit_header("HIT x\n"), None);
}

#[test]
fn processing_commands_against_a_cache() {
    let cache = NoOpBackend::new();
    assert_eq!(process_command(&cache, &Command::Get("k".into()), &[]), b"MISS\n".to_vec());
    assert_eq!(
        process_command(&cache, &Command::Store { key: "k".into(), len: 1 }, &[7]),
        b"OK\n".to_vec()
    );
    assert_eq!(process_command(&cache, &Command::Unknown, &[]), b"ERR unknown command\n".to_vec());
}

/// A cache that records every call and answers lookups from what it holds.
struct Recorder {
    calls: std::sync::Mutex<Vec<String>>,
    held: std::sync::Mutex<Vec<(String, String, String, Vec<u8>)>>,
}

impl Recorder {
    fn new() -> Self {
        Recorder { calls: std::sync::Mutex::new(Vec::new()), held: std::sync::Mutex::new(Vec::new()) }
    }
    fn calls(&self) -> Vec<String> {
        self.calls.lock().unwrap().clone()
    }
}

impl CacheBackend for Recorder {
    fn get(&self, store: &str, entity: &str, key: &str) -> Option<Vec<u8>> {
        self.calls.lock().unwrap().push(format!("get {store}|{entity}|{key}"));
        self.held
            .lock()
            .unwrap()
            .iter()
            .rev()
            .find(|(s, e, k, _)| s == store && e == entity && k == key)
            .map(|(_, _, _, v)| v.clone())
    }
    fn set(&self, store: &str, entity: &str, key: &str, value: &[u8]) {
        self.calls.lock().unwrap().push(format!("set {store}|{entity}|{key}|{}", value.len()));
        self.held.lock().unwrap().push((store.into(), entity.into(), key.into(), value.to_vec()));
    }
    fn del(&self, store: &str, entity: &str, key: &str) {
        self.calls.lock().unwrap().push(format!("del {store}|{entity}|{key}"));
    }
    fn delete_by_prefix(&self, store: &str, prefix: &str) {
        self.calls.lock().unwrap().push(format!("delprefix {store}|{prefix}"));
    }
    fn flush(&self, store: &str) {
        self.calls.lock().unwrap().push(format!("flush {store}"));
    }
}

#[test]
fn commands_reach_the_cache_namespace() {
    let cache = Recorder::new();
    assert_eq!(
        process_command(&cache, &Command::Store { key: "p:x:1".into(), len: 3 }, b"abc"),
        b"OK\n".to_vec()
    );
    assert_eq!(process_command(&cache, &Command::Get("p:x:1".into()), &[]), b"HIT 3\nabc\n".to_vec());
    assert_eq!(process_command(&cache, &Command::Get("other".into()), &[]), b"MISS\n".to_vec());
    assert_eq!(process_command(&cache, &Command::Del("p:x:1".into()), &[]), b"OK\n".to_vec());
    assert_eq!(process_command(&cache, &Command::DelPrefix("p:x:".into()), &[]), b"OK\n".to_vec());
    assert_eq!(process_command(&cache, &Command::Flush, &[]), b"OK\n".to_vec());
    assert_eq!(process_command(&cache, &Command::InvalidSet, &[]), b"ERR invalid SET\n".to_vec());
    assert_eq!(
        cache.calls(),
        vec![
            "set cache|p:x:1||3",
            "get cache|p:x:1|",
            "get cache|other|",
            "del cache|p:x:1|",
            "delprefix cache|p:x:",
            "flush cache",
        ]
    );
}
