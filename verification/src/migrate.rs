//! Offline store lifecycle operations: the manifest that describes a rename,
//! merge or split, and the rules that decide where each row goes.
use vstd::prelude::*;
use sha2::Digest;
use crate::rows::{
    IdempotencyRow, IdempotencyView, OutboxRow, OutboxView, StateRow, StateView,
    idempotency_views, merge_idempotency, merge_outbox, merge_states, merged_conflicts,
    merged_idempotency, merged_outbox, merged_states, outbox_views, state_views,
};
use crate::text::{concat, owned, str_eq};

verus! {

/// The store-key hashing scheme that split routing uses.
pub const HASH_ALGORITHM: &'static str = "sha256-key-v1";

/// The lifecycle operation a manifest asks for.
#[derive(Debug, Clone, Copy, PartialEq, Eq, Structural)]
pub enum Operation {
    Rename,
    Merge,
    Split,
}

/// A source store and its database file.
#[derive(Debug, Clone)]
pub struct SourceSpec {
    pub name: String,
    pub path: String,
}

/// A destination store and its database file.
#[derive(Debug, Clone)]
pub struct TargetSpec {
    pub name: String,
    pub path: String,
}

/// What to migrate, from where to where.
#[derive(Debug, Clone)]
pub struct Manifest {
    pub operation: Operation,
    pub sources: Vec<SourceSpec>,
    pub target: Option<TargetSpec>,
    pub targets: Vec<TargetSpec>,
    pub hash_algorithm: String,
    pub evidence_dir: String,
    pub quiesced: bool,
}

/// How far `run` goes.
#[derive(Debug, Clone, Copy, PartialEq, Eq, Structural)]
pub enum Mode {
    Plan,
    Verify,
    Execute,
}

/// Why a migration stopped.
#[derive(Debug, Clone)]
pub enum MigrationError {
    Manifest(String),
    Precondition(String),
    Conflict(String),
    Sqlite(String),
    Io(String),
    Serialization(String),
}

/// The message of an error, as it is shown to the operator.
pub open spec fn migration_error_message(e: MigrationError) -> Seq<char> {
    match e {
        MigrationError::Manifest(m) => "invalid manifest: "@ + m@,
        MigrationError::Precondition(m) => "precondition failed: "@ + m@,
        MigrationError::Conflict(m) => "conflict: "@ + m@,
        MigrationError::Sqlite(m) => "sqlite: "@ + m@,
        MigrationError::Io(m) => "io: "@ + m@,
        MigrationError::Serialization(m) => "serialization: "@ + m@,
    }
}

impl MigrationError {
    /// The error's message.
    pub fn message(&self) -> (r: String)
        ensures
            r@ == migration_error_message(*self),
    {
        match self {
            MigrationError::Manifest(m) => concat("invalid manifest: ", m.as_str()),
            MigrationError::Precondition(m) => concat("precondition failed: ", m.as_str()),
            MigrationError::Conflict(m) => concat("conflict: ", m.as_str()),
            MigrationError::Sqlite(m) => concat("sqlite: ", m.as_str()),
            MigrationError::Io(m) => concat("io: ", m.as_str()),
            MigrationError::Serialization(m) => concat("serialization: ", m.as_str()),
        }
    }
}

/// The hashing scheme that a manifest gets when it names none.
pub fn default_hash_algorithm() -> (r: String)
    ensures
        r@ == HASH_ALGORITHM@,
{
    owned(HASH_ALGORITHM)
}

/// What `{:?}` writes for a string: the text in double quotes, with escapes.
pub uninterp spec fn str_debug(s: Seq<char>) -> Seq<char>;

/// The `Debug` rendering of a string (std's `<str as Debug>::fmt`).
#[verifier::external_body]
fn debug_str(s: &str) -> (r: String)
    ensures
        r@ == str_debug(s@),
{
    format!("{s:?}")
}

pub open spec fn allowed_name_char(c: char) -> bool {
    ('a' <= c && c <= 'z') || ('A' <= c && c <= 'Z') || ('0' <= c && c <= '9') || c == '_' || c
        == '-'
}

/// A store identifier: 1 to 63 characters, each an ASCII letter, digit, `_` or `-`.
pub open spec fn valid_store_name(name: Seq<char>) -> bool {
    0 < name.len() <= 63 && forall|i: int| 0 <= i < name.len() ==> allowed_name_char(name[i])
}

pub open spec fn msg_invalid_name(name: Seq<char>) -> Seq<char> {
    "identificador de store inválido: "@ + str_debug(name)
}

/// Checks that `name` is a valid store identifier.
pub fn validate_store_name(name: &str) -> (r: Result<(), MigrationError>)
    ensures
        match r {
            Ok(()) => valid_store_name(name@),
            Err(e) => !valid_store_name(name@) && (e matches MigrationError::Manifest(m) && m@
                == msg_invalid_name(name@)),
        },
{
    let n = name.unicode_len();
    let mut ok = n > 0 && n <= 63;
    let mut i: usize = 0;
    while ok && i < n
        invariant
            n == name@.len(),
            i <= n,
            ok ==> 0 < n <= 63,
            ok ==> forall|j: int| 0 <= j < i ==> allowed_name_char(name@[j]),
            !ok ==> !valid_store_name(name@),
        decreases n - i,
    {
        let c = name.get_char(i);
        if !(('a' <= c && c <= 'z') || ('A' <= c && c <= 'Z') || ('0' <= c && c <= '9') || c == '_'
            || c == '-') {
            ok = false;
        }
        i = i + 1;
    }
    if ok {
        Ok(())
    } else {
        let d = debug_str(name);
        Err(MigrationError::Manifest(concat("identificador de store inválido: ", d.as_str())))
    }
}

/// The names and paths that a manifest declares: sources, then `target`, then `targets`.
pub open spec fn manifest_specs(m: Manifest) -> Seq<(Seq<char>, Seq<char>)> {
    m.sources@.map_values(|s: SourceSpec| (s.name@, s.path@)) + (match m.target {
        Some(t) => seq![(t.name@, t.path@)],
        None => Seq::empty(),
    }) + m.targets@.map_values(|t: TargetSpec| (t.name@, t.path@))
}

/// The first problem among declared names and paths, scanning from `i` with the
/// names before `i` already seen.
pub open spec fn specs_error(specs: Seq<(Seq<char>, Seq<char>)>, merge: bool, i: int) -> Option<Seq<char>>
    decreases specs.len() - i,
{
    if i < 0 || i >= specs.len() {
        None
    } else {
        let (name, path) = specs[i];
        if !valid_store_name(name) {
            Some(msg_invalid_name(name))
        } else if !merge && exists|j: int| 0 <= j < i && specs[j].0 == name {
            Some("nombre duplicado: "@ + name)
        } else if path.len() == 0 {
            Some("ruta vacía para "@ + name)
        } else {
            specs_error(specs, merge, i + 1)
        }
    }
}

/// The outcome of validating a manifest, check by check.
pub open spec fn spec_validate_manifest(m: Manifest) -> Option<Seq<char>> {
    if m.sources@.len() == 0 {
        Some("sources no puede estar vacío"@)
    } else if !m.quiesced {
        Some("quiesced=true es obligatorio: la herramienta no detiene servicios"@)
    } else if m.hash_algorithm@ != HASH_ALGORITHM@ {
        Some("hash_algorithm debe ser sha256-key-v1"@)
    } else if specs_error(manifest_specs(m), m.operation == Operation::Merge, 0) is Some {
        specs_error(manifest_specs(m), m.operation == Operation::Merge, 0)
    } else {
        match m.operation {
            Operation::Rename | Operation::Merge => if m.target is None || m.targets@.len() > 0 {
                Some("rename/merge requieren target y no targets"@)
            } else {
                None
            },
            Operation::Split => if m.sources@.len() != 1 || m.target is Some || m.targets@.len()
                < 2 {
                Some("split requiere exactamente un source y al menos dos targets"@)
            } else {
                None
            },
        }
    }
}

fn manifest_pairs(m: &Manifest) -> (r: Vec<(String, String)>)
    ensures
        r@.map_values(|p: (String, String)| (p.0@, p.1@)) == manifest_specs(*m),
{
    let mut out: Vec<(String, String)> = Vec::new();
    let n = m.sources.len();
    let mut i: usize = 0;
    while i < n
        invariant
            n == m.sources@.len(),
            i <= n,
            out@.map_values(|p: (String, String)| (p.0@, p.1@)) == m.sources@.take(
                i as int,
            ).map_values(|s: SourceSpec| (s.name@, s.path@)),
        decreases n - i,
    {
        let ghost before = out@;
        let pair = (m.sources[i].name.clone(), m.sources[i].path.clone());
        out.push(pair);
        assert(m.sources@.take(i + 1) =~= m.sources@.take(i as int).push(m.sources@[i as int]));
        assert(out@ == before.push(pair));
        assert(out@.map_values(|p: (String, String)| (p.0@, p.1@)) =~= before.map_values(
            |p: (String, String)| (p.0@, p.1@),
        ).push((pair.0@, pair.1@)));
        assert(out@.map_values(|p: (String, String)| (p.0@, p.1@)) =~= m.sources@.take(
            i + 1,
        ).map_values(|s: SourceSpec| (s.name@, s.path@)));
        i = i + 1;
    }
    assert(m.sources@.take(n as int) =~= m.sources@);
    let ghost head = out@.map_values(|p: (String, String)| (p.0@, p.1@));
    match &m.target {
        Some(t) => out.push((t.name.clone(), t.path.clone())),
        None => {},
    }
    let ghost mid = out@.map_values(|p: (String, String)| (p.0@, p.1@));
    assert(mid =~= head + match m.target {
        Some(t) => seq![(t.name@, t.path@)],
        None => Seq::empty(),
    });
    let k = m.targets.len();
    let mut j: usize = 0;
    while j < k
        invariant
            k == m.targets@.len(),
            j <= k,
            out@.map_values(|p: (String, String)| (p.0@, p.1@)) == mid + m.targets@.take(
                j as int,
            ).map_values(|t: TargetSpec| (t.name@, t.path@)),
        decreases k - j,
    {
        let ghost before = out@;
        let pair = (m.targets[j].name.clone(), m.targets[j].path.clone());
        out.push(pair);
        assert(m.targets@.take(j + 1) =~= m.targets@.take(j as int).push(m.targets@[j as int]));
        assert(out@ == before.push(pair));
        assert(out@.map_values(|p: (String, String)| (p.0@, p.1@)) =~= before.map_values(
            |p: (String, String)| (p.0@, p.1@),
        ).push((pair.0@, pair.1@)));
        assert(out@.map_values(|p: (String, String)| (p.0@, p.1@)) =~= mid + m.targets@.take(
            j + 1,
        ).map_values(|t: TargetSpec| (t.name@, t.path@)));
        j = j + 1;
    }
    assert(m.targets@.take(k as int) =~= m.targets@);
    assert(out@.map_values(|p: (String, String)| (p.0@, p.1@)) =~= manifest_specs(*m));
    out
}

/// Whether the name at `i` already occurs before `i`.
fn name_seen_before(specs: &Vec<(String, String)>, i: usize) -> (r: bool)
    requires
        i < specs@.len(),
    ensures
        r == exists|j: int| 0 <= j < i && #[trigger] specs@[j].0@ == specs@[i as int].0@,
{
    let mut j: usize = 0;
    while j < i
        invariant
            i < specs@.len(),
            j <= i,
            forall|x: int| 0 <= x < j ==> #[trigger] specs@[x].0@ != specs@[i as int].0@,
        decreases i - j,
    {
        if str_eq(specs[j].0.as_str(), specs[i].0.as_str()) {
            return true;
        }
        j = j + 1;
    }
    false
}

/// Checks a manifest; `Err` carries the first problem found, as `spec_validate_manifest`
/// orders the checks.
pub fn validate_manifest(manifest: &Manifest) -> (r: Result<(), MigrationError>)
    ensures
        match r {
            Ok(()) => spec_validate_manifest(*manifest) is None,
            Err(e) => e matches MigrationError::Manifest(m) && spec_validate_manifest(*manifest)
                == Some(m@),
        },
{
    if manifest.sources.len() == 0 {
        return Err(MigrationError::Manifest(owned("sources no puede estar vacío")));
    }
    if !manifest.quiesced {
        return Err(
            MigrationError::Manifest(
                owned("quiesced=true es obligatorio: la herramienta no detiene servicios"),
            ),
        );
    }
    if !str_eq(manifest.hash_algorithm.as_str(), HASH_ALGORITHM) {
        return Err(MigrationError::Manifest(owned("hash_algorithm debe ser sha256-key-v1")));
    }
    let specs = manifest_pairs(manifest);
    let ghost sv = specs@.map_values(|p: (String, String)| (p.0@, p.1@));
    let merge = manifest.operation == Operation::Merge;
    let n = specs.len();
    let mut i: usize = 0;
    while i < n
        invariant
            n == specs@.len(),
            sv == specs@.map_values(|p: (String, String)| (p.0@, p.1@)),
            sv == manifest_specs(*manifest),
            merge == (manifest.operation == Operation::Merge),
            manifest.sources@.len() > 0,
            manifest.quiesced,
            manifest.hash_algorithm@ == HASH_ALGORITHM@,
            i <= n,
            specs_error(sv, merge, 0) == specs_error(sv, merge, i as int),
        decreases n - i,
    {
        let name = specs[i].0.as_str();
        let path = specs[i].1.as_str();
        assert(sv[i as int] == (name@, path@));
        match validate_store_name(name) {
            Err(e) => {
                assert(specs_error(sv, merge, i as int) == Some(msg_invalid_name(name@)));
                return Err(e);
            },
            Ok(()) => {},
        }
        if !merge && name_seen_before(&specs, i) {
            proof {
                let w = choose|j: int| 0 <= j < i && #[trigger] specs@[j].0@ == specs@[i as int].0@;
                assert(sv[w].0 == specs@[w].0@);
                assert(0 <= w < i && sv[w].0 == name@);
            }
            assert(specs_error(sv, merge, i as int) == Some("nombre duplicado: "@ + name@));
            return Err(MigrationError::Manifest(concat("nombre duplicado: ", name)));
        }
        assert(!merge ==> !exists|j: int| 0 <= j < i && sv[j].0 == name@);
        if path.is_empty() {
            assert(specs_error(sv, merge, i as int) == Some("ruta vacía para "@ + name@));
            return Err(MigrationError::Manifest(concat("ruta vacía para ", name)));
        }
        i = i + 1;
    }
    match manifest.operation {
        Operation::Rename | Operation::Merge => {
            if manifest.target.is_none() || manifest.targets.len() > 0 {
                return Err(
                    MigrationError::Manifest(owned("rename/merge requieren target y no targets")),
                );
            }
        },
        Operation::Split => {
            if manifest.sources.len() != 1 || manifest.target.is_some() || manifest.targets.len()
                < 2 {
                return Err(
                    MigrationError::Manifest(
                        owned("split requiere exactamente un source y al menos dos targets"),
                    ),
                );
            }
        },
    }
    Ok(())
}

/// The destinations' names and paths: `target`, then `targets`.
pub open spec fn target_specs_view(m: Manifest) -> Seq<(Seq<char>, Seq<char>)> {
    (match m.target {
        Some(t) => seq![(t.name@, t.path@)],
        None => Seq::empty(),
    }) + m.targets@.map_values(|t: TargetSpec| (t.name@, t.path@))
}

/// The destinations: `target`, then `targets`.
pub fn target_specs(manifest: &Manifest) -> (r: Vec<TargetSpec>)
    ensures
        r@.map_values(|t: TargetSpec| (t.name@, t.path@)) == target_specs_view(*manifest),
{
    let mut out: Vec<TargetSpec> = Vec::new();
    match &manifest.target {
        Some(t) => out.push(TargetSpec { name: t.name.clone(), path: t.path.clone() }),
        None => {},
    }
    let ghost head = out@.map_values(|t: TargetSpec| (t.name@, t.path@));
    let k = manifest.targets.len();
    let mut j: usize = 0;
    while j < k
        invariant
            k == manifest.targets@.len(),
            j <= k,
            out@.map_values(|t: TargetSpec| (t.name@, t.path@)) == head + manifest.targets@.take(
                j as int,
            ).map_values(|t: TargetSpec| (t.name@, t.path@)),
        decreases k - j,
    {
        let t = &manifest.targets[j];
        let ghost before = out@;
        let ts = TargetSpec { name: t.name.clone(), path: t.path.clone() };
        out.push(ts);
        assert(out@.map_values(|t: TargetSpec| (t.name@, t.path@)) =~= before.map_values(
            |t: TargetSpec| (t.name@, t.path@),
        ).push((ts.name@, ts.path@)));
        assert(manifest.targets@.take(j + 1) =~= manifest.targets@.take(j as int).push(*t));
        assert(out@.map_values(|t: TargetSpec| (t.name@, t.path@)) =~= head
            + manifest.targets@.take(j + 1).map_values(|t: TargetSpec| (t.name@, t.path@)));
        j = j + 1;
    }
    assert(manifest.targets@.take(k as int) =~= manifest.targets@);
    out
}

/// `s` with every `"` doubled.
pub open spec fn double_quotes(s: Seq<char>) -> Seq<char>
    decreases s.len(),
{
    if s.len() == 0 {
        Seq::empty()
    } else if s.last() == '"' {
        double_quotes(s.drop_last()) + seq!['"', '"']
    } else {
        double_quotes(s.drop_last()).push(s.last())
    }
}

/// A SQL identifier in double quotes, with inner quotes doubled.
pub fn quote_ident(value: &str) -> (r: String)
    ensures
        r@ == seq!['"'] + double_quotes(value@) + seq!['"'],
{
    let mut out = String::new();
    out.push('"');
    let n = value.unicode_len();
    let mut i: usize = 0;
    while i < n
        invariant
            n == value@.len(),
            i <= n,
            out@ == seq!['"'] + double_quotes(value@.take(i as int)),
        decreases n - i,
    {
        let c = value.get_char(i);
        assert(value@.take(i + 1).drop_last() =~= value@.take(i as int));
        out.push(c);
        if c == '"' {
            out.push('"');
        }
        assert(out@ =~= seq!['"'] + double_quotes(value@.take(i + 1)));
        i = i + 1;
    }
    out.push('"');
    assert(value@.take(n as int) =~= value@);
    out
}

/// SHA-256 of a byte string.
pub uninterp spec fn sha256(data: Seq<u8>) -> Seq<u8>;

/// sha2's `Sha256::digest`: the 32-byte SHA-256 digest of `data`.
#[verifier::external_body]
fn sha256_digest(data: &[u8]) -> (r: Vec<u8>)
    ensures
        r@ == sha256(data@),
        r@.len() == 32,
{
    sha2::Sha256::digest(data).to_vec()
}

/// The number that bytes spell in big-endian order.
pub open spec fn be_value(s: Seq<u8>) -> nat
    decreases s.len(),
{
    if s.len() == 0 {
        0
    } else {
        be_value(s.drop_last()) * 256 + s.last() as nat
    }
}

pub open spec fn pow256(n: nat) -> nat
    decreases n,
{
    if n == 0 {
        1
    } else {
        256 * pow256((n - 1) as nat)
    }
}

proof fn lemma_be_value_bound(s: Seq<u8>)
    ensures
        be_value(s) < pow256(s.len()),
    decreases s.len(),
{
    if s.len() > 0 {
        lemma_be_value_bound(s.drop_last());
    }
}

proof fn lemma_pow256_monotone(a: nat, b: nat)
    requires
        a <= b,
    ensures
        pow256(a) <= pow256(b),
    decreases b - a,
{
    if a < b {
        lemma_pow256_monotone(a, (b - 1) as nat);
    }
}

proof fn lemma_pow256_eight()
    ensures
        pow256(8) == 0x1_0000_0000_0000_0000,
{
    assert(pow256(0) == 1);
    assert(pow256(1) == 0x100);
    assert(pow256(2) == 0x1_0000);
    assert(pow256(3) == 0x100_0000);
    assert(pow256(4) == 0x1_0000_0000);
    assert(pow256(5) == 0x100_0000_0000);
    assert(pow256(6) == 0x1_0000_0000_0000);
    assert(pow256(7) == 0x100_0000_0000_0000);
}

/// The bucket of a store key among `buckets`: the first eight bytes of the
/// SHA-256 of its UTF-8 bytes, read big-endian, modulo `buckets`.
pub open spec fn spec_bucket(key: Seq<char>, buckets: nat) -> nat {
    be_value(sha256(vstd::utf8::encode_utf8(key)).take(8)) % buckets
}

/// The destination bucket of a store key; stable across runs and machines.
pub fn bucket_for_key(key: &str, buckets: usize) -> (r: usize)
    requires
        buckets > 0,
    ensures
        r == spec_bucket(key@, buckets as nat),
        r < buckets,
{
    let digest = sha256_digest(key.as_bytes());
    let ghost d = digest@;
    let mut value: u64 = 0;
    let mut i: usize = 0;
    proof {
        lemma_pow256_eight();
    }
    while i < 8
        invariant
            d == digest@,
            d.len() == 32,
            i <= 8,
            value == be_value(d.take(i as int)),
            pow256(8) == 0x1_0000_0000_0000_0000,
        decreases 8 - i,
    {
        proof {
            lemma_be_value_bound(d.take(i as int));
            assert(d.take(i + 1).drop_last() =~= d.take(i as int));
            lemma_pow256_monotone((i + 1) as nat, 8);
        }
        value = value * 256 + digest[i] as u64;
        i = i + 1;
    }
    (value % (buckets as u64)) as usize
}

/// Where a row goes: its key's bucket for a split, the single target otherwise.
pub open spec fn spec_route(operation: Operation, key: Seq<char>, destinations: nat) -> nat {
    if operation == Operation::Split {
        spec_bucket(key, destinations)
    } else {
        0
    }
}

/// The index of the destination that a row with `key` is written to.
pub fn route(operation: Operation, key: &str, destinations: usize) -> (r: usize)
    requires
        destinations > 0,
    ensures
        r == spec_route(operation, key@, destinations as nat),
        r < destinations,
{
    if operation == Operation::Split {
        bucket_for_key(key, destinations)
    } else {
        0
    }
}

/// How many of `keys` are routed to destination `i`.
pub open spec fn routed_count(operation: Operation, keys: Seq<Seq<char>>, n: nat, i: nat) -> nat
    decreases keys.len(),
{
    if keys.len() == 0 {
        0
    } else {
        routed_count(operation, keys.drop_last(), n, i) + if spec_route(operation, keys.last(), n)
            == i {
            1nat
        } else {
            0nat
        }
    }
}

pub open spec fn seq_sum(s: Seq<usize>) -> nat
    decreases s.len(),
{
    if s.len() == 0 {
        0
    } else {
        seq_sum(s.drop_last()) + s.last() as nat
    }
}

proof fn lemma_seq_sum_update(s: Seq<usize>, k: int, v: usize)
    requires
        0 <= k < s.len(),
    ensures
        seq_sum(s.update(k, v)) == seq_sum(s) - s[k] + v,
    decreases s.len(),
{
    if k < s.len() - 1 {
        assert(s.update(k, v).drop_last() =~= s.drop_last().update(k, v));
        lemma_seq_sum_update(s.drop_last(), k, v);
    } else {
        assert(s.update(k, v).drop_last() =~= s.drop_last());
    }
}

pub open spec fn state_keys(s: Seq<StateView>) -> Seq<Seq<char>> {
    s.map_values(|r: StateView| r.key)
}

/// How many states each destination receives, by destination index; together
/// they account for every state.
pub fn route_counts(operation: Operation, states: &Vec<StateRow>, destinations: usize) -> (r: Vec<
    usize,
>)
    requires
        destinations > 0,
    ensures
        r@.len() == destinations,
        forall|i: int|
            0 <= i < destinations ==> r@[i] == routed_count(
                operation,
                state_keys(state_views(states@)),
                destinations as nat,
                i as nat,
            ),
        seq_sum(r@) == states@.len(),
{
    let ghost keys = state_keys(state_views(states@));
    let mut counts: Vec<usize> = Vec::new();
    let mut j: usize = 0;
    while j < destinations
        invariant
            j <= destinations,
            counts@.len() == j,
            forall|x: int| 0 <= x < j ==> counts@[x] == 0,
            seq_sum(counts@) == 0,
        decreases destinations - j,
    {
        let ghost before = counts@;
        counts.push(0);
        assert(counts@.drop_last() =~= before);
        j = j + 1;
    }
    let mut i: usize = 0;
    while i < states.len()
        invariant
            destinations > 0,
            keys == state_keys(state_views(states@)),
            i <= states@.len(),
            counts@.len() == destinations,
            forall|x: int|
                0 <= x < destinations ==> counts@[x] == routed_count(
                    operation,
                    keys.take(i as int),
                    destinations as nat,
                    x as nat,
                ),
            seq_sum(counts@) == i,
        decreases states@.len() - i,
    {
        let k = route(operation, states[i].key.as_str(), destinations);
        assert(keys.take(i + 1).drop_last() =~= keys.take(i as int));
        assert(keys.take(i + 1).last() == states@[i as int].key@);
        proof {
            lemma_seq_sum_update(counts@, k as int, (counts@[k as int] + 1) as usize);
            assert(counts@[k as int] <= seq_sum(counts@)) by {
                lemma_seq_sum_ge(counts@, k as int);
            }
        }
        let c = counts[k] + 1;
        counts.set(k, c);
        i = i + 1;
    }
    assert(keys.take(states@.len() as int) =~= keys);
    counts
}

proof fn lemma_seq_sum_ge(s: Seq<usize>, k: int)
    requires
        0 <= k < s.len(),
    ensures
        s[k] <= seq_sum(s),
    decreases s.len(),
{
    if k < s.len() - 1 {
        lemma_seq_sum_ge(s.drop_last(), k);
    }
}

/// The rows of all sources after merging: one state per key, one record per
/// idempotency key, one row per event.
pub struct Collected {
    pub states: Vec<StateRow>,
    pub conflicts: usize,
    pub idempotency: Vec<IdempotencyRow>,
    pub deduplicated: usize,
    pub outbox: Vec<OutboxRow>,
}

/// Merges the rows read from the sources (each list in the order read,
/// source by source): states first, then idempotency records, then outbox rows.
pub fn collect(states: &Vec<StateRow>, idempotency: &Vec<IdempotencyRow>, outbox: &Vec<OutboxRow>) -> (r: Result<
    Collected,
    MigrationError,
>)
    ensures
        match r {
            Ok(c) => {
                &&& state_views(c.states@) == merged_states(state_views(states@))
                &&& c.conflicts == merged_conflicts(state_views(states@))
                &&& merged_idempotency(idempotency_views(idempotency@)) == Ok::<
                    (Seq<IdempotencyView>, nat),
                    Seq<char>,
                >((idempotency_views(c.idempotency@), c.deduplicated as nat))
                &&& merged_outbox(outbox_views(outbox@)) == Ok::<Seq<OutboxView>, Seq<char>>(
                    outbox_views(c.outbox@),
                )
            },
            Err(e) => e matches MigrationError::Conflict(m) && (merged_idempotency(
                idempotency_views(idempotency@),
            ) == Err::<(Seq<IdempotencyView>, nat), Seq<char>>(m@) || (merged_idempotency(
                idempotency_views(idempotency@),
            ) is Ok && merged_outbox(outbox_views(outbox@)) == Err::<Seq<OutboxView>, Seq<char>>(
                m@,
            ))),
        },
{
    let (merged, conflicts) = merge_states(states);
    let (kept, deduplicated) = match merge_idempotency(idempotency) {
        Ok(v) => v,
        Err(e) => return Err(e),
    };
    let events = match merge_outbox(outbox) {
        Ok(v) => v,
        Err(e) => return Err(e),
    };
    Ok(
        Collected {
            states: merged,
            conflicts,
            idempotency: kept,
            deduplicated,
            outbox: events,
        },
    )
}

/// How many of the states hold a payload (the rest are tombstones).
pub open spec fn payload_count(s: Seq<StateView>) -> nat
    decreases s.len(),
{
    if s.len() == 0 {
        0
    } else {
        payload_count(s.drop_last()) + if s.last().payload is Some {
            1nat
        } else {
            0nat
        }
    }
}

proof fn lemma_payload_count_bound(s: Seq<StateView>)
    ensures
        payload_count(s) <= s.len(),
    decreases s.len(),
{
    if s.len() > 0 {
        lemma_payload_count_bound(s.drop_last());
    }
}

/// The numbers of payload rows and of tombstone rows among `states`.
pub fn count_rows(states: &Vec<StateRow>) -> (r: (usize, usize))
    ensures
        r.0 == payload_count(state_views(states@)),
        r.0 + r.1 == states@.len(),
{
    let ghost all = state_views(states@);
    let mut payload: usize = 0;
    let mut tombstone: usize = 0;
    let mut i: usize = 0;
    while i < states.len()
        invariant
            all == state_views(states@),
            i <= states@.len(),
            payload == payload_count(all.take(i as int)),
            payload + tombstone == i,
        decreases states@.len() - i,
    {
        assert(all.take(i + 1).drop_last() =~= all.take(i as int));
        if states[i].payload.is_some() {
            payload = payload + 1;
        } else {
            tombstone = tombstone + 1;
        }
        i = i + 1;
    }
    assert(all.take(states@.len() as int) =~= all);
    (payload, tombstone)
}

/// What a migration did or would do.
pub struct Report {
    pub operation: Option<Operation>,
    pub sources: Vec<String>,
    pub targets: Vec<String>,
    pub payload_rows: usize,
    pub tombstone_rows: usize,
    pub idempotency_rows: usize,
    pub outbox_rows: usize,
    pub conflicts: usize,
    pub deduplicated_idempotency: usize,
    pub bucket_counts: Vec<(String, usize)>,
    pub checksums: Vec<(String, String)>,
    pub warnings: Vec<String>,
    pub errors: Vec<String>,
}

impl Default for Report {
    fn default() -> (r: Report)
        ensures
            r.operation is None,
            r.sources@.len() == 0,
            r.targets@.len() == 0,
            r.payload_rows == 0,
            r.tombstone_rows == 0,
            r.idempotency_rows == 0,
            r.outbox_rows == 0,
            r.conflicts == 0,
            r.deduplicated_idempotency == 0,
            r.bucket_counts@.len() == 0,
            r.checksums@.len() == 0,
            r.warnings@.len() == 0,
            r.errors@.len() == 0,
    {
        Report {
            operation: None,
            sources: Vec::new(),
            targets: Vec::new(),
            payload_rows: 0,
            tombstone_rows: 0,
            idempotency_rows: 0,
            outbox_rows: 0,
            conflicts: 0,
            deduplicated_idempotency: 0,
            bucket_counts: Vec::new(),
            checksums: Vec::new(),
            warnings: Vec::new(),
            errors: Vec::new(),
        }
    }
}

pub open spec fn string_views(v: Seq<String>) -> Seq<Seq<char>> {
    v.map_values(|s: String| s@)
}

/// The report of a plan or a verification: the manifest's operation and names,
/// and the counts of the merged rows.
pub fn plan_report(manifest: &Manifest, collected: &Collected) -> (r: Report)
    ensures
        r.operation == Some(manifest.operation),
        string_views(r.sources@) == manifest.sources@.map_values(|s: SourceSpec| s.name@),
        string_views(r.targets@) == target_specs_view(*manifest).map_values(
            |t: (Seq<char>, Seq<char>)| t.0,
        ),
        r.payload_rows == payload_count(state_views(collected.states@)),
        r.payload_rows + r.tombstone_rows == collected.states@.len(),
        r.idempotency_rows == collected.idempotency@.len(),
        r.deduplicated_idempotency == collected.deduplicated,
        r.outbox_rows == collected.outbox@.len(),
        r.conflicts == collected.conflicts,
        r.bucket_counts@.len() == 0,
        r.checksums@.len() == 0,
        r.warnings@.len() == 0,
        r.errors@.len() == 0,
{
    let mut sources: Vec<String> = Vec::new();
    let mut i: usize = 0;
    while i < manifest.sources.len()
        invariant
            i <= manifest.sources@.len(),
            string_views(sources@) == manifest.sources@.take(i as int).map_values(
                |s: SourceSpec| s.name@,
            ),
        decreases manifest.sources@.len() - i,
    {
        let ghost before = sources@;
        let name = manifest.sources[i].name.clone();
        sources.push(name);
        assert(string_views(sources@) =~= string_views(before).push(name@));
        assert(manifest.sources@.take(i + 1) =~= manifest.sources@.take(i as int).push(
            manifest.sources@[i as int],
        ));
        assert(string_views(sources@) =~= manifest.sources@.take(i + 1).map_values(
            |s: SourceSpec| s.name@,
        ));
        i = i + 1;
    }
    assert(manifest.sources@.take(manifest.sources@.len() as int) =~= manifest.sources@);
    let specs = target_specs(manifest);
    let mut targets: Vec<String> = Vec::new();
    let mut j: usize = 0;
    while j < specs.len()
        invariant
            j <= specs@.len(),
            string_views(targets@) == specs@.take(j as int).map_values(|t: TargetSpec| t.name@),
        decreases specs@.len() - j,
    {
        let ghost before = targets@;
        let name = specs[j].name.clone();
        targets.push(name);
        assert(string_views(targets@) =~= string_views(before).push(name@));
        assert(specs@.take(j + 1) =~= specs@.take(j as int).push(specs@[j as int]));
        assert(string_views(targets@) =~= specs@.take(j + 1).map_values(|t: TargetSpec| t.name@));
        j = j + 1;
    }
    assert(specs@.take(specs@.len() as int) =~= specs@);
    assert(string_views(targets@) =~= target_specs_view(*manifest).map_values(
        |t: (Seq<char>, Seq<char>)| t.0,
    )) by {
        assert(specs@.map_values(|t: TargetSpec| t.name@) =~= specs@.map_values(
            |t: TargetSpec| (t.name@, t.path@),
        ).map_values(|t: (Seq<char>, Seq<char>)| t.0));
    }
    let (payload_rows, tombstone_rows) = count_rows(&collected.states);
    Report {
        operation: Some(manifest.operation),
        sources,
        targets,
        payload_rows,
        tombstone_rows,
        idempotency_rows: collected.idempotency.len(),
        outbox_rows: collected.outbox.len(),
        conflicts: collected.conflicts,
        deduplicated_idempotency: collected.deduplicated,
        bucket_counts: Vec::new(),
        checksums: Vec::new(),
        warnings: Vec::new(),
        errors: Vec::new(),
    }
}

pub open spec fn hex_char(n: nat) -> char {
    if n < 10 {
        ('0' as nat + n) as char
    } else {
        ('a' as nat + (n - 10)) as char
    }
}

/// Lower-case hexadecimal, two digits per byte.
pub open spec fn hex(s: Seq<u8>) -> Seq<char>
    decreases s.len(),
{
    if s.len() == 0 {
        Seq::empty()
    } else {
        hex(s.drop_last()) + seq![hex_char(s.last() as nat / 16), hex_char(s.last() as nat % 16)]
    }
}

fn hex_digit(n: u8) -> (c: char)
    requires
        n < 16,
    ensures
        c == hex_char(n as nat),
{
    if n < 10 {
        ((48u8 + n) as char)
    } else {
        ((97u8 + (n - 10)) as char)
    }
}

/// The checksum written to a migration report: the SHA-256 of a file's bytes
/// in lower-case hexadecimal.
pub fn checksum(bytes: &[u8]) -> (r: String)
    ensures
        r@ == hex(sha256(bytes@)),
{
    let digest = sha256_digest(bytes);
    let ghost d = digest@;
    let mut out = String::new();
    let mut i: usize = 0;
    while i < digest.len()
        invariant
            d == digest@,
            i <= d.len(),
            out@ == hex(d.take(i as int)),
        decreases d.len() - i,
    {
        let b = digest[i];
        assert(d.take(i + 1).drop_last() =~= d.take(i as int));
        out.push(hex_digit(b / 16));
        out.push(hex_digit(b % 16));
        assert(out@ =~= hex(d.take(i + 1)));
        i = i + 1;
    }
    assert(d.take(d.len() as int) =~= d);
    out
}

} // verus!
