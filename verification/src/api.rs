//! API settings and the parsing of their textual forms.
use vstd::prelude::*;
use crate::keyed::{assoc_insert, assoc_map, distinct_keys};
use crate::text::{owned, spec_split, spec_split_once, spec_trim, split, split_once, trim, views};

verus! {

/// Where the API listens and what it reads from.
#[derive(Debug, Clone)]
pub struct ApiConfig {
    pub host: String,
    pub port: u16,
    pub grpc_host: String,
    pub grpc_port: u16,
    pub mqtt_broker: String,
    pub db_path: Option<String>,
    /// Store name to database path.
    pub db_paths: Vec<(String, String)>,
    pub cache_dir: Option<String>,
}

impl Default for ApiConfig {
    fn default() -> (r: Self)
        ensures
            r.host@ == "127.0.0.1"@,
            r.port == 8080,
            r.grpc_host@ == "127.0.0.1"@,
            r.grpc_port == 30100,
            r.mqtt_broker@ == "tcp://localhost:1883"@,
            r.db_path is None,
            r.db_paths@.len() == 0,
            r.cache_dir is None,
    {
        ApiConfig {
            host: owned("127.0.0.1"),
            port: 8080,
            grpc_host: owned("127.0.0.1"),
            grpc_port: 30100,
            mqtt_broker: owned("tcp://localhost:1883"),
            db_path: None,
            db_paths: Vec::new(),
            cache_dir: None,
        }
    }
}

/// The trimmed, non-empty items of a `|`-separated list.
pub open spec fn store_list(s: Seq<char>) -> Seq<Seq<char>> {
    spec_split(s, '|').map_values(|x: Seq<char>| spec_trim(x)).filter(
        |x: Seq<char>| x.len() > 0,
    )
}

/// The scopes that `key=store|store; ...` entries give; a later entry for the same
/// key replaces an earlier one, and entries without `=` or with an empty key are skipped.
pub open spec fn scopes_of(entries: Seq<Seq<char>>) -> Map<Seq<char>, Seq<Seq<char>>>
    decreases entries.len(),
{
    if entries.len() == 0 {
        Map::empty()
    } else {
        let m = scopes_of(entries.drop_last());
        match spec_split_once(entries.last(), '=') {
            Some((k, stores)) => if spec_trim(k).len() > 0 {
                m.insert(spec_trim(k), store_list(stores))
            } else {
                m
            },
            None => m,
        }
    }
}

/// The scopes of a raw `IXMATI_API_KEY_SCOPES` value.
pub open spec fn spec_api_key_scopes(raw: Seq<char>) -> Map<Seq<char>, Seq<Seq<char>>> {
    scopes_of(spec_split(raw, ';'))
}

/// The map that an association list of string lists denotes, with each list as characters.
pub open spec fn list_map(s: Seq<(String, Vec<String>)>) -> Map<Seq<char>, Seq<Seq<char>>> {
    assoc_map(s).map_values(|v: Vec<String>| views(v@))
}

fn store_list_of(s: &str) -> (r: Vec<String>)
    ensures
        views(r@) == store_list(s@),
{
    let items = split(s, '|');
    let mut out: Vec<String> = Vec::new();
    let n = items.len();
    let mut i: usize = 0;
    let ghost trimmed = spec_split(s@, '|').map_values(|x: Seq<char>| spec_trim(x));
    while i < n
        invariant
            n == items@.len(),
            views(items@) == spec_split(s@, '|'),
            trimmed == spec_split(s@, '|').map_values(|x: Seq<char>| spec_trim(x)),
            i <= n,
            views(out@) == trimmed.take(i as int).filter(|x: Seq<char>| x.len() > 0),
        decreases n - i,
    {
        let t = trim(items[i].as_str());
        let ghost before = views(out@);
        proof {
            assert(views(items@)[i as int] == items@[i as int]@);
            assert(trimmed[i as int] == t@);
            assert(trimmed.take(i + 1) =~= trimmed.take(i as int).push(t@));
            trimmed.take(i as int).lemma_filter_push(t@, |x: Seq<char>| x.len() > 0);
        }
        if t.as_str().unicode_len() > 0 {
            out.push(t);
            assert(views(out@) =~= before.push(t@));
        }
        i = i + 1;
    }
    assert(trimmed.take(n as int) =~= trimmed);
    out
}

/// Parses `key=store|store; key=store`: each key's stores, trimmed, empty ones dropped.
pub fn parse_api_key_scopes(raw: &str) -> (r: Vec<(String, Vec<String>)>)
    ensures
        distinct_keys(r@),
        list_map(r@) == spec_api_key_scopes(raw@),
{
    let entries = split(raw, ';');
    let mut out: Vec<(String, Vec<String>)> = Vec::new();
    let n = entries.len();
    let mut i: usize = 0;
    while i < n
        invariant
            n == entries@.len(),
            views(entries@) == spec_split(raw@, ';'),
            i <= n,
            distinct_keys(out@),
            list_map(out@) == scopes_of(views(entries@).take(i as int)),
        decreases n - i,
    {
        let ghost before = out@;
        assert(views(entries@).take(i + 1).drop_last() =~= views(entries@).take(i as int));
        assert(views(entries@)[i as int] == entries@[i as int]@);
        match split_once(entries[i].as_str(), '=') {
            Some((k, stores)) => {
                let key = trim(k.as_str());
                if key.as_str().unicode_len() > 0 {
                    let list = store_list_of(stores.as_str());
                    let ghost kv = key@;
                    let ghost lv = views(list@);
                    assoc_insert(&mut out, key, list);
                    assert(list_map(out@) =~= list_map(before).insert(kv, lv));
                }
            },
            None => {},
        }
        i = i + 1;
    }
    assert(views(entries@).take(n as int) =~= views(entries@));
    out
}

/// The store paths of a `store=path,store=path` value: both sides trimmed, pairs with an
/// empty side or without `=` skipped, a later pair for a store replacing an earlier one.
pub open spec fn db_paths_of(entries: Seq<Seq<char>>) -> Map<Seq<char>, Seq<char>>
    decreases entries.len(),
{
    if entries.len() == 0 {
        Map::empty()
    } else {
        let m = db_paths_of(entries.drop_last());
        match spec_split_once(entries.last(), '=') {
            Some((k, v)) => if spec_trim(k).len() > 0 && spec_trim(v).len() > 0 {
                m.insert(spec_trim(k), spec_trim(v))
            } else {
                m
            },
            None => m,
        }
    }
}

/// The map that an association list of strings denotes, as characters.
pub open spec fn text_map(s: Seq<(String, String)>) -> Map<Seq<char>, Seq<char>> {
    assoc_map(s).map_values(|v: String| v@)
}

/// Parses a `SQLITE_PATHS` value; see `db_paths_of`.
pub fn parse_db_paths(raw: &str) -> (r: Vec<(String, String)>)
    ensures
        distinct_keys(r@),
        text_map(r@) == db_paths_of(spec_split(raw@, ',')),
{
    let entries = split(raw, ',');
    let mut out: Vec<(String, String)> = Vec::new();
    let n = entries.len();
    let mut i: usize = 0;
    while i < n
        invariant
            n == entries@.len(),
            views(entries@) == spec_split(raw@, ','),
            i <= n,
            distinct_keys(out@),
            text_map(out@) == db_paths_of(views(entries@).take(i as int)),
        decreases n - i,
    {
        let ghost before = out@;
        assert(views(entries@).take(i + 1).drop_last() =~= views(entries@).take(i as int));
        assert(views(entries@)[i as int] == entries@[i as int]@);
        match split_once(entries[i].as_str(), '=') {
            Some((k, v)) => {
                let key = trim(k.as_str());
                let path = trim(v.as_str());
                if key.as_str().unicode_len() > 0 && path.as_str().unicode_len() > 0 {
                    let ghost kv = key@;
                    let ghost pv = path@;
                    assoc_insert(&mut out, key, path);
                    assert(text_map(out@) =~= text_map(before).insert(kv, pv));
                }
            },
            None => {},
        }
        i = i + 1;
    }
    assert(views(entries@).take(n as int) =~= views(entries@));
    out
}

} // verus!
