//! How the services read their settings at start-up: which cache to open, how
//! reads reach it, which API keys exist, and the numeric limits.
use vstd::prelude::*;
use crate::api::list_map;
use crate::auth::ApiKey;
use crate::keyed::{assoc_map, distinct_keys, last_key};
use crate::text::{
    concat, concat3, decimal, format_decimal, owned, spec_parse_unsigned, spec_split, spec_trim,
    split, str_eq, trim, views, parse_unsigned,
};

verus! {

/// How the API reaches the cache for reads.
#[derive(Debug, Clone, Copy, PartialEq, Eq, Structural)]
pub enum ReadMode {
    Direct,
    Mqtt,
    Socket,
}

/// `CACHE_READ_MODE`: `mqtt`, `socket`, or anything else for direct reads.
pub fn read_mode(raw: &str) -> (r: ReadMode)
    ensures
        r == if raw@ == "mqtt"@ {
            ReadMode::Mqtt
        } else if raw@ == "socket"@ {
            ReadMode::Socket
        } else {
            ReadMode::Direct
        },
{
    if str_eq(raw, "mqtt") {
        ReadMode::Mqtt
    } else if str_eq(raw, "socket") {
        ReadMode::Socket
    } else {
        ReadMode::Direct
    }
}

/// The cache the API opens itself.
#[derive(Debug, Clone)]
pub enum CacheChoice {
    NoOp,
    /// A redb file, opened read-only.
    Redb(String),
    /// A SQLite file.
    Sqlite(String),
}

pub open spec fn choice_view(c: CacheChoice) -> (u8, Seq<char>) {
    match c {
        CacheChoice::NoOp => (0u8, Seq::empty()),
        CacheChoice::Redb(p) => (1u8, p@),
        CacheChoice::Sqlite(p) => (2u8, p@),
    }
}

/// Chooses the cache: none without a cache directory or when reads go through
/// MQTT or the cache socket; else the backend that `CACHE_BACKEND` names
/// (`redb` or `sqlite`, in the directory), and none for any other name.
pub fn choose_cache(cache_dir: Option<&str>, backend: &str, mode: ReadMode) -> (r: CacheChoice)
    ensures
        choice_view(r) == match cache_dir {
            None => (0u8, Seq::<char>::empty()),
            Some(dir) => if mode != ReadMode::Direct {
                (0u8, Seq::<char>::empty())
            } else if backend@ == "redb"@ {
                (1u8, dir@ + "/cache.redb"@)
            } else if backend@ == "sqlite"@ {
                (2u8, dir@ + "/cache.db"@)
            } else {
                (0u8, Seq::<char>::empty())
            },
        },
{
    match cache_dir {
        None => CacheChoice::NoOp,
        Some(dir) => {
            if mode != ReadMode::Direct {
                CacheChoice::NoOp
            } else if str_eq(backend, "redb") {
                CacheChoice::Redb(concat(dir, "/cache.redb"))
            } else if str_eq(backend, "sqlite") {
                CacheChoice::Sqlite(concat(dir, "/cache.db"))
            } else {
                CacheChoice::NoOp
            }
        },
    }
}

/// A setting's value, or its default when unset.
pub fn or_default(raw: Option<&str>, default: &str) -> (r: String)
    ensures
        r@ == match raw {
            Some(v) => v@,
            None => default@,
        },
{
    match raw {
        Some(v) => owned(v),
        None => owned(default),
    }
}

/// The cache server's socket path (`CACHE_SOCKET_PATH`).
pub fn socket_path(raw: Option<&str>) -> (r: String)
    ensures
        r@ == match raw {
            Some(v) => v@,
            None => "/var/run/ixmati/cache.sock"@,
        },
{
    or_default(raw, "/var/run/ixmati/cache.sock")
}

/// A numeric setting: its value when it parses, else `default`.
pub fn number_or(raw: Option<&str>, max: u64, default: u64) -> (r: u64)
    ensures
        r == match raw {
            Some(v) => match spec_parse_unsigned(v@, max as nat) {
                Some(n) => n as u64,
                None => default,
            },
            None => default,
        },
{
    match raw {
        Some(v) => match parse_unsigned(v, max) {
            Some(n) => n,
            None => default,
        },
        None => default,
    }
}

/// What `str::parse::<i64>` gives: an optional sign, then decimal digits.
pub open spec fn spec_parse_i64(s: Seq<char>) -> Option<int> {
    if s.len() > 0 && s[0] == '-' {
        let rest = s.drop_first();
        if rest.len() > 0 && rest[0] == '+' {
            None
        } else {
            match spec_parse_unsigned(rest, 0x8000_0000_0000_0000) {
                Some(v) => Some(-v),
                None => None,
            }
        }
    } else {
        match spec_parse_unsigned(s, 0x7fff_ffff_ffff_ffff) {
            Some(v) => Some(v as int),
            None => None,
        }
    }
}

/// Parses a signed 64-bit integer as `str::parse` does.
pub fn parse_i64(s: &str) -> (r: Option<i64>)
    ensures
        match r {
            Some(v) => spec_parse_i64(s@) == Some(v as int),
            None => spec_parse_i64(s@) is None,
        },
{
    let n = s.unicode_len();
    if n > 0 && s.get_char(0) == '-' {
        let rest = crate::text::slice(s, 1, n);
        assert(rest@ =~= s@.drop_first());
        if rest.unicode_len() > 0 && rest.get_char(0) == '+' {
            return None;
        }
        match parse_unsigned(rest.as_str(), 0x8000_0000_0000_0000) {
            Some(v) => {
                if v == 0x8000_0000_0000_0000 {
                    Some(i64::MIN)
                } else {
                    Some(-(v as i64))
                }
            },
            None => None,
        }
    } else {
        match parse_unsigned(s, 0x7fff_ffff_ffff_ffff) {
            Some(v) => Some(v as i64),
            None => None,
        }
    }
}

/// The outbox backlog above which writes are refused
/// (`OUTBOX_BACKPRESSURE_THRESHOLD`, 5000 when unset or unreadable).
pub fn backpressure_threshold(raw: Option<&str>) -> (r: i64)
    ensures
        r == match raw {
            Some(v) => match spec_parse_i64(v@) {
                Some(n) => n as i64,
                None => 5000i64,
            },
            None => 5000i64,
        },
{
    match raw {
        Some(v) => match parse_i64(v) {
            Some(n) => n,
            None => 5000,
        },
        None => 5000,
    }
}

/// Whether a flag's text turns it on: `1` or `true`.
pub fn flag_on(raw: Option<&str>) -> (r: bool)
    ensures
        r == match raw {
            Some(v) => v@ == "1"@ || v@ == "true"@,
            None => false,
        },
{
    match raw {
        Some(v) => str_eq(v, "1") || str_eq(v, "true"),
        None => false,
    }
}

/// The address the HTTP API listens on.
pub fn listen_address(host: &str, port: u16) -> (r: String)
    ensures
        r@ == host@ + ":"@ + decimal(port as nat),
{
    concat3(host, ":", format_decimal(port as u64).as_str())
}

/// The trimmed, non-empty keys of `IXMATI_API_KEYS`.
pub open spec fn key_list(raw: Seq<char>) -> Seq<Seq<char>> {
    spec_split(raw, ',').filter(|k: Seq<char>| spec_trim(k).len() > 0).map_values(
        |k: Seq<char>| spec_trim(k),
    )
}

/// The stores a key may write to: its scopes, or none listed.
pub open spec fn scope_of(scopes: Map<Seq<char>, Seq<Seq<char>>>, key: Seq<char>) -> Seq<Seq<char>> {
    if scopes.contains_key(key) {
        scopes[key]
    } else {
        Seq::empty()
    }
}

/// The API keys of the configuration: each key of `IXMATI_API_KEYS`, with the
/// stores that the parsed `IXMATI_API_KEY_SCOPES` give it, created at `created_at`.
pub fn build_api_keys(api_keys: &str, scopes: &Vec<(String, Vec<String>)>, created_at: i64) -> (r:
    Vec<ApiKey>)
    ensures
        r@.len() == key_list(api_keys@).len(),
        forall|i: int|
            0 <= i < r@.len() ==> (#[trigger] r@[i]).key_id@ == key_list(api_keys@)[i] && views(
                r@[i].store_access@,
            ) == scope_of(list_map(scopes@), key_list(api_keys@)[i]) && r@[i].created_at
                == created_at,
{
    let items = split(api_keys, ',');
    let ghost all = views(items@);
    let ghost keep = |k: Seq<char>| spec_trim(k).len() > 0;
    let ghost tr = |k: Seq<char>| spec_trim(k);
    let mut out: Vec<ApiKey> = Vec::new();
    let mut i: usize = 0;
    while i < items.len()
        invariant
            all == views(items@),
            all == spec_split(api_keys@, ','),
            keep == (|k: Seq<char>| spec_trim(k).len() > 0),
            tr == (|k: Seq<char>| spec_trim(k)),
            i <= items@.len(),
            out@.len() == all.take(i as int).filter(keep).map_values(tr).len(),
            forall|x: int|
                0 <= x < out@.len() ==> (#[trigger] out@[x]).key_id@ == all.take(i as int).filter(
                    keep,
                ).map_values(tr)[x] && views(out@[x].store_access@) == scope_of(
                    list_map(scopes@),
                    all.take(i as int).filter(keep).map_values(tr)[x],
                ) && out@[x].created_at == created_at,
        decreases items@.len() - i,
    {
        let key = trim(items[i].as_str());
        assert(all[i as int] == items@[i as int]@);
        assert(all.take(i + 1).drop_last() =~= all.take(i as int));
        reveal(Seq::filter);
        if key.unicode_len() > 0 {
            let store_access = match last_key(scopes, key.as_str()) {
                Some(k) => {
                    let v = scopes[k].1.clone();
                    proof {
                        assert(list_map(scopes@).contains_key(key@));
                        assert(list_map(scopes@)[key@] == views(scopes@[k as int].1@));
                    }
                    v
                },
                None => {
                    assert(!list_map(scopes@).contains_key(key@));
                    Vec::new()
                },
            };
            let ghost before = out@;
            let ghost prev = all.take(i as int).filter(keep).map_values(tr);
            assert(all.take(i + 1).filter(keep) =~= all.take(i as int).filter(keep).push(all[i as int]));
            assert(all.take(i + 1).filter(keep).map_values(tr) =~= prev.push(key@));
            out.push(ApiKey { key_id: key, store_access, created_at });
            assert forall|x: int| 0 <= x < out@.len() implies (#[trigger] out@[x]).key_id@ == all.take(
                i + 1,
            ).filter(keep).map_values(tr)[x] && views(out@[x].store_access@) == scope_of(
                list_map(scopes@),
                all.take(i + 1).filter(keep).map_values(tr)[x],
            ) && out@[x].created_at == created_at by {
                if x < before.len() {
                    assert(out@[x] == before[x]);
                }
            }
        } else {
            assert(all.take(i + 1).filter(keep) =~= all.take(i as int).filter(keep));
        }
        i = i + 1;
    }
    assert(all.take(items@.len() as int) =~= all);
    out
}

/// The cache server's backend: `redb` or `sqlite` in the cache directory; any
/// other name is refused.
pub fn server_backend(cache_dir: &str, backend: &str) -> (r: Result<CacheChoice, String>)
    ensures
        backend@ == "redb"@ ==> r is Ok && choice_view(r->Ok_0) == (1u8, cache_dir@ + "/cache.redb"@),
        backend@ == "sqlite"@ ==> r is Ok && choice_view(r->Ok_0) == (2u8, cache_dir@ + "/cache.db"@),
        backend@ != "redb"@ && backend@ != "sqlite"@ ==> r is Err && r->Err_0@
            == "unknown CACHE_BACKEND: "@ + backend@,
{
    proof {
        reveal_strlit("redb");
        reveal_strlit("sqlite");
        assert("redb"@.len() != "sqlite"@.len());
    }
    if str_eq(backend, "redb") {
        Ok(CacheChoice::Redb(concat(cache_dir, "/cache.redb")))
    } else if str_eq(backend, "sqlite") {
        Ok(CacheChoice::Sqlite(concat(cache_dir, "/cache.db")))
    } else {
        Err(concat("unknown CACHE_BACKEND: ", backend))
    }
}

/// Reads `--manifest <path>` options left to right, `path` being the value so
/// far: `None` for an unknown argument, else the value left by the last option
/// (`None` when it lacks one).
pub open spec fn scan_manifest(rest: Seq<Seq<char>>, path: Option<Seq<char>>) -> Option<Option<Seq<char>>>
    decreases rest.len(),
{
    if rest.len() == 0 {
        Some(path)
    } else if rest[0] != "--manifest"@ {
        None
    } else if rest.len() == 1 {
        Some(None)
    } else {
        scan_manifest(rest.skip(2), Some(rest[1]))
    }
}

/// The command line of the store migration tool: `<plan|verify|execute>
/// --manifest <path>`. `None` asks for the usage message.
pub open spec fn spec_migrate_cli(args: Seq<Seq<char>>) -> Option<(crate::migrate::Mode, Seq<char>)> {
    if args.len() == 0 {
        None
    } else {
        match scan_manifest(args.drop_first(), None) {
            Some(Some(path)) => if args[0] == "plan"@ {
                Some((crate::migrate::Mode::Plan, path))
            } else if args[0] == "verify"@ {
                Some((crate::migrate::Mode::Verify, path))
            } else if args[0] == "execute"@ {
                Some((crate::migrate::Mode::Execute, path))
            } else {
                None
            },
            _ => None,
        }
    }
}

/// Reads the migration tool's arguments (without the program name).
pub fn parse_migrate_cli(args: &Vec<String>) -> (r: Option<(crate::migrate::Mode, String)>)
    ensures
        match r {
            Some((m, p)) => spec_migrate_cli(views(args@)) == Some((m, p@)),
            None => spec_migrate_cli(views(args@)) is None,
        },
{
    let ghost a = views(args@);
    let n = args.len();
    if n == 0 {
        return None;
    }
    let mut path: Option<String> = None;
    let mut i: usize = 1;
    assert(a.drop_first() =~= a.skip(1));
    while i < n
        invariant
            a == views(args@),
            n == args@.len(),
            1 <= i <= n,
            scan_manifest(a.drop_first(), None) == scan_manifest(a.skip(i as int), match path {
                Some(p) => Some(p@),
                None => None,
            }),
        decreases n - i,
    {
        assert(a.skip(i as int)[0] == args@[i as int]@);
        if !str_eq(args[i].as_str(), "--manifest") {
            return None;
        }
        if i + 1 < n {
            assert(a.skip(i as int)[1] == args@[i + 1]@);
            assert(a.skip(i as int).skip(2) =~= a.skip(i + 2));
            path = Some(args[i + 1].clone());
            i = i + 2;
        } else {
            assert(a.skip(i as int).len() == 1);
            return None;
        }
    }
    assert(a.skip(i as int).len() == 0);
    let p = match path {
        Some(p) => p,
        None => return None,
    };
    let c = args[0].as_str();
    assert(a[0] == args@[0]@);
    if str_eq(c, "plan") {
        Some((crate::migrate::Mode::Plan, p))
    } else if str_eq(c, "verify") {
        Some((crate::migrate::Mode::Verify, p))
    } else if str_eq(c, "execute") {
        Some((crate::migrate::Mode::Execute, p))
    } else {
        None
    }
}

} // verus!
