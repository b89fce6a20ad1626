//! The cache interface, its trivial backends, and how cache keys are laid out.
use vstd::prelude::*;
use std::sync::Arc;
use crate::text::{concat, is_prefix, join2, owned, starts_with};

verus! {

/// A key-value cache partitioned by store (namespace).
pub trait CacheBackend: Send + Sync {
    fn get(&self, store: &str, entity: &str, key: &str) -> Option<Vec<u8>>;

    fn set(&self, store: &str, entity: &str, key: &str, value: &[u8]);

    fn del(&self, store: &str, entity: &str, key: &str);

    fn delete_by_prefix(&self, store: &str, prefix: &str);

    fn flush(&self, store: &str);
}

/// One cached value and where it lives.
pub struct CacheEntry {
    pub store: String,
    pub entity: String,
    pub key: String,
    pub value: Vec<u8>,
}

/// A cache that holds nothing: every read misses and every write is dropped.
pub struct NoOpBackend;

impl NoOpBackend {
    pub fn new() -> (r: Self) {
        NoOpBackend
    }
}

impl Default for NoOpBackend {
    fn default() -> (r: Self) {
        NoOpBackend
    }
}

impl CacheBackend for NoOpBackend {
    fn get(&self, store: &str, entity: &str, key: &str) -> (r: Option<Vec<u8>>)
        ensures
            r is None,
    {
        None
    }

    fn set(&self, store: &str, entity: &str, key: &str, value: &[u8]) {
    }

    fn del(&self, store: &str, entity: &str, key: &str) {
    }

    fn delete_by_prefix(&self, store: &str, prefix: &str) {
    }

    fn flush(&self, store: &str) {
    }
}

/// A view of another cache that serves its reads and drops every write.
pub struct ReadOnlyCache<B: CacheBackend> {
    inner: B,
}

impl<B: CacheBackend> ReadOnlyCache<B> {
    pub fn new(inner: B) -> (r: Self)
        ensures
            r.inner() == inner,
    {
        ReadOnlyCache { inner }
    }

    /// The cache whose reads are served.
    pub closed spec fn inner(&self) -> B {
        self.inner
    }
}

impl<B: CacheBackend> CacheBackend for ReadOnlyCache<B> {
    /// What the inner cache's `get` gives for the same store, entity and key.
    fn get(&self, store: &str, entity: &str, key: &str) -> (r: Option<Vec<u8>>)
        ensures
            call_ensures(B::get, (&self.inner(), store, entity, key), r),
    {
        self.inner.get(store, entity, key)
    }

    fn set(&self, store: &str, entity: &str, key: &str, value: &[u8]) {
    }

    fn del(&self, store: &str, entity: &str, key: &str) {
    }

    fn delete_by_prefix(&self, store: &str, prefix: &str) {
    }

    fn flush(&self, store: &str) {
    }
}

/// The embedded flash key-value store, in the build without its native
/// library: it opens without error and holds nothing.
pub struct FlashDb {
    placeholder: (),
}

impl FlashDb {
    pub fn new(data_dir: &str) -> (r: Result<Self, String>)
        ensures
            r is Ok,
    {
        Ok(FlashDb { placeholder: () })
    }
}

impl Default for FlashDb {
    fn default() -> (r: Self) {
        FlashDb { placeholder: () }
    }
}

impl CacheBackend for FlashDb {
    fn get(&self, store: &str, entity: &str, key: &str) -> (r: Option<Vec<u8>>)
        ensures
            r is None,
    {
        None
    }

    fn set(&self, store: &str, entity: &str, key: &str, value: &[u8]) {
    }

    fn del(&self, store: &str, entity: &str, key: &str) {
    }

    fn delete_by_prefix(&self, store: &str, prefix: &str) {
    }

    fn flush(&self, store: &str) {
    }
}

/// The cache server: a cache and the socket path it listens on.
pub struct CacheServer<B: CacheBackend> {
    cache: Arc<B>,
    path: String,
}

impl<B: CacheBackend> CacheServer<B> {
    pub fn new(cache: Arc<B>, path: &str) -> (r: Self)
        ensures
            r.spec_cache() == cache,
            r.spec_path() == path@,
    {
        CacheServer { cache, path: owned(path) }
    }

    pub closed spec fn spec_cache(&self) -> Arc<B> {
        self.cache
    }

    pub closed spec fn spec_path(&self) -> Seq<char> {
        self.path@
    }

    /// The cache the server answers from.
    pub fn cache(&self) -> (r: &Arc<B>)
        ensures
            *r == self.spec_cache(),
    {
        &self.cache
    }

    /// The socket path.
    pub fn path(&self) -> (r: &str)
        ensures
            r@ == self.spec_path(),
    {
        self.path.as_str()
    }
}

/// The server-side key of an entity: `c:{store}:{entity}:{key}`.
pub open spec fn spec_cache_key(store: Seq<char>, entity: Seq<char>, key: Seq<char>) -> Seq<char> {
    "c:"@ + store + ":"@ + entity + ":"@ + key
}

/// The server-side key of a projection row: `p:{name}:{key}`.
pub open spec fn spec_projection_key(name: Seq<char>, key: Seq<char>) -> Seq<char> {
    "p:"@ + name + ":"@ + key
}

/// The key of an entity in the cache server's namespace.
pub fn cache_key(store: &str, entity: &str, key: &str) -> (r: String)
    ensures
        r@ == spec_cache_key(store@, entity@, key@),
{
    proof {
        reveal_strlit("c:");
        reveal_strlit(":");
    }
    let a = concat("c:", store);
    let b = join2(a.as_str(), ':', entity);
    let r = join2(b.as_str(), ':', key);
    assert(r@ =~= spec_cache_key(store@, entity@, key@));
    r
}

/// The key of a projection row in the cache server's namespace.
pub fn projection_key(name: &str, key: &str) -> (r: String)
    ensures
        r@ == spec_projection_key(name@, key@),
{
    proof {
        reveal_strlit("p:");
        reveal_strlit(":");
    }
    let r = join2(concat("p:", name).as_str(), ':', key);
    assert(r@ =~= spec_projection_key(name@, key@));
    r
}

/// An entity key and a projection key never coincide.
pub proof fn lemma_cache_and_projection_keys_differ(
    store: Seq<char>,
    entity: Seq<char>,
    key: Seq<char>,
    name: Seq<char>,
    pkey: Seq<char>,
)
    ensures
        spec_cache_key(store, entity, key) != spec_projection_key(name, pkey),
{
    reveal_strlit("c:");
    reveal_strlit("p:");
    assert(spec_cache_key(store, entity, key)[0] == 'c');
    assert(spec_projection_key(name, pkey)[0] == 'p');
}

/// The key under which a persistent backend stores a value: `{ns}:{entity}`
/// when `key` is empty, `{ns}:{entity}:{key}` otherwise.
pub open spec fn spec_internal_key(ns: Seq<char>, entity: Seq<char>, key: Seq<char>) -> Seq<char> {
    if key.len() == 0 {
        ns + ":"@ + entity
    } else {
        ns + ":"@ + entity + ":"@ + key
    }
}

pub fn internal_key(ns: &str, entity: &str, key: &str) -> (r: String)
    ensures
        r@ == spec_internal_key(ns@, entity@, key@),
{
    proof {
        reveal_strlit(":");
    }
    let a = join2(ns, ':', entity);
    if key.unicode_len() == 0 {
        assert(a@ =~= spec_internal_key(ns@, entity@, key@));
        a
    } else {
        let r = join2(a.as_str(), ':', key);
        assert(r@ =~= spec_internal_key(ns@, entity@, key@));
        r
    }
}

/// The prefix that `delete_by_prefix(ns, prefix)` removes in a persistent backend.
pub fn namespace_prefix(ns: &str, prefix: &str) -> (r: String)
    ensures
        r@ == ns@ + ":"@ + prefix@,
{
    proof {
        reveal_strlit(":");
    }
    let r = join2(ns, ':', prefix);
    assert(r@ =~= ns@ + ":"@ + prefix@);
    r
}

/// Whether a stored key falls under a `delete_by_prefix` of `ns` and `prefix`.
pub fn under_prefix(stored: &str, ns: &str, prefix: &str) -> (r: bool)
    ensures
        r == is_prefix(ns@ + ":"@ + prefix@, stored@),
{
    let p = namespace_prefix(ns, prefix);
    starts_with(stored, p.as_str())
}

} // verus!
