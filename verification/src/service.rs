//! The decisions of the HTTP API: which writes are admitted, what a write is
//! acknowledged with, where a read looks, and what a status query reports.
use vstd::prelude::*;
use crate::backpressure::{OutboxBacklog, spec_check};
use crate::cache::{cache_key, projection_key, spec_cache_key, spec_projection_key};
use crate::error::Error;
use crate::text::{
    concat, concat3, decimal, format_decimal, owned, signed_decimal, str_eq,
};

verus! {

/// The HTTP statuses that the API answers with.
#[derive(Debug, Clone, Copy, PartialEq, Eq, Structural)]
pub enum ApiStatus {
    Success,
    Accepted,
    BadRequest,
    TooManyRequests,
    InternalServerError,
    ServiceUnavailable,
}

pub open spec fn status_code(s: ApiStatus) -> u16 {
    match s {
        ApiStatus::Success => 200,
        ApiStatus::Accepted => 202,
        ApiStatus::BadRequest => 400,
        ApiStatus::TooManyRequests => 429,
        ApiStatus::InternalServerError => 500,
        ApiStatus::ServiceUnavailable => 503,
    }
}

impl ApiStatus {
    /// The numeric HTTP status.
    pub fn code(&self) -> (r: u16)
        ensures
            r == status_code(*self),
    {
        match self {
            ApiStatus::Success => 200,
            ApiStatus::Accepted => 202,
            ApiStatus::BadRequest => 400,
            ApiStatus::TooManyRequests => 429,
            ApiStatus::InternalServerError => 500,
            ApiStatus::ServiceUnavailable => 503,
        }
    }
}

/// The acknowledgement of a write.
#[derive(Debug, Clone)]
pub struct AckResponse {
    pub status: String,
    pub store: String,
    pub idempotency_key: String,
    pub message: Option<String>,
}

/// A refused request: the status and the error body.
#[derive(Debug, Clone)]
pub struct Rejection {
    pub status: ApiStatus,
    pub error: Error,
}

pub open spec fn opt_view(o: Option<String>) -> Option<Seq<char>> {
    match o {
        Some(s) => Some(s@),
        None => None,
    }
}

pub open spec fn is_write_rejected(e: Error, detail: Seq<char>, store: Seq<char>, key: Seq<char>) -> bool {
    match e {
        Error::WriteRejected { detail: d, store: s, idempotency_key: k } => d@ == detail && s@
            == store && k@ == key,
        _ => false,
    }
}

pub open spec fn is_backlog_error(e: Error, store: Seq<char>, depth: i64, threshold: i64) -> bool {
    match e {
        Error::OutboxBacklog { store: s, depth: d, threshold: t } => s@ == store && d == depth && t
            == threshold,
        _ => false,
    }
}

pub open spec fn is_queue_full(e: Error, store: Seq<char>) -> bool {
    match e {
        Error::QueueFull { store: s } => s@ == store,
        _ => false,
    }
}

pub open spec fn is_internal(e: Error, detail: Seq<char>) -> bool {
    match e {
        Error::Internal { detail: d } => d@ == detail,
        _ => false,
    }
}

pub open spec fn is_store_not_found(e: Error, store: Seq<char>) -> bool {
    match e {
        Error::StoreNotFound { store: s } => s@ == store,
        _ => false,
    }
}

pub open spec fn msg_commit_unsupported() -> Seq<char> {
    "ack_mode=committed requiere que la API tenga SQLITE_PATH configurado para poder confirmar el commit"@
}

/// A write asks for commit confirmation with `ack_mode` `committed`, or its
/// alias `accepted`.
pub open spec fn spec_wants_commit(ack_mode: Seq<char>) -> bool {
    ack_mode == "committed"@ || ack_mode == "accepted"@
}

/// Admission of a write before the throttle: a write that asks for commit
/// confirmation needs a database; a store whose outbox backlog is over the
/// threshold refuses writes. `Ok` tells whether commit confirmation was asked.
pub fn admit_write(
    ack_mode: &str,
    has_db: bool,
    store: &str,
    idempotency_key: &str,
    backlog: &OutboxBacklog,
) -> (r: Result<bool, Rejection>)
    requires
        backlog.wf(),
    ensures
        spec_wants_commit(ack_mode@) && !has_db ==> r is Err && r->Err_0.status == ApiStatus::BadRequest
            && is_write_rejected(r->Err_0.error, msg_commit_unsupported(), store@, idempotency_key@),
        !(spec_wants_commit(ack_mode@) && !has_db) && spec_check(
            backlog.spec_threshold(),
            backlog.spec_depths(),
            store@,
        ) is Some ==> r is Err && r->Err_0.status == ApiStatus::TooManyRequests && is_backlog_error(
            r->Err_0.error,
            store@,
            spec_check(backlog.spec_threshold(), backlog.spec_depths(), store@)->0,
            backlog.spec_threshold(),
        ),
        !(spec_wants_commit(ack_mode@) && !has_db) && spec_check(
            backlog.spec_threshold(),
            backlog.spec_depths(),
            store@,
        ) is None ==> r == Ok::<bool, Rejection>(spec_wants_commit(ack_mode@)),
{
    let wants_commit = wants_commit(ack_mode);
    if wants_commit && !has_db {
        return Err(
            Rejection {
                status: ApiStatus::BadRequest,
                error: Error::WriteRejected {
                    detail: owned(
                        "ack_mode=committed requiere que la API tenga SQLITE_PATH configurado para poder confirmar el commit",
                    ),
                    store: owned(store),
                    idempotency_key: owned(idempotency_key),
                },
            },
        );
    }
    match backlog.check(store) {
        Some(depth) => Err(
            Rejection {
                status: ApiStatus::TooManyRequests,
                error: Error::OutboxBacklog {
                    store: owned(store),
                    depth,
                    threshold: backlog.threshold(),
                },
            },
        ),
        None => Ok(wants_commit),
    }
}

/// The refusal of a write that the throttle does not allow.
pub fn queue_full(store: &str) -> (r: Rejection)
    ensures
        r.status == ApiStatus::TooManyRequests,
        is_queue_full(r.error, store@),
{
    Rejection { status: ApiStatus::TooManyRequests, error: Error::QueueFull { store: owned(store) } }
}

/// A failure inside the API.
pub fn internal_failure(status: ApiStatus, detail: &str) -> (r: Rejection)
    ensures
        r.status == status,
        is_internal(r.error, detail@),
{
    Rejection { status, error: Error::Internal { detail: owned(detail) } }
}

/// The idempotency key a write is published with: the client's, or a fresh one
/// when the client sent none.
pub fn effective_idempotency_key(given: &str, generated: &str) -> (r: String)
    ensures
        r@ == if given@.len() == 0 {
            generated@
        } else {
            given@
        },
{
    if given.unicode_len() == 0 {
        owned(generated)
    } else {
        owned(given)
    }
}

/// The MQTT topic a write command is published on.
pub open spec fn spec_command_topic(store: Seq<char>, entity: Seq<char>, key: Seq<char>) -> Seq<char> {
    "ixmati/cmd/"@ + store + "/"@ + entity + "/"@ + key
}

pub fn command_topic(store: &str, entity: &str, key: &str) -> (r: String)
    ensures
        r@ == spec_command_topic(store@, entity@, key@),
{
    let a = concat3("ixmati/cmd/", store, "/");
    let b = concat3(a.as_str(), entity, "/");
    let r = concat(b.as_str(), key);
    assert(r@ =~= spec_command_topic(store@, entity@, key@));
    r
}

/// How a wait for the commit of a write ended.
pub enum CommitOutcome {
    Applied { entity: String, key: String, version: u64, applied_at: String },
    TimedOut,
}

/// The acknowledgement of a write published without waiting.
pub fn accepted_ack(store: &str, idempotency_key: &str) -> (r: (ApiStatus, AckResponse))
    ensures
        r.0 == ApiStatus::Success,
        r.1.status@ == "ACCEPTED"@,
        r.1.store@ == store@,
        r.1.idempotency_key@ == idempotency_key@,
        opt_view(r.1.message) == Some("published"@),
{
    (
        ApiStatus::Success,
        AckResponse {
            status: owned("ACCEPTED"),
            store: owned(store),
            idempotency_key: owned(idempotency_key),
            message: Some(owned("published")),
        },
    )
}

pub open spec fn msg_committed(entity: Seq<char>, key: Seq<char>, version: u64, applied_at: Seq<char>) -> Seq<char> {
    "committed: "@ + entity + "/"@ + key + " v"@ + decimal(version as nat) + " at "@ + applied_at
}

pub open spec fn msg_pending(timeout_ms: u64, store: Seq<char>, idempotency_key: Seq<char>) -> Seq<char> {
    "aún no comprometido tras "@ + decimal(timeout_ms as nat) + "ms; consultar GET /writes/"@ + store
        + "/"@ + idempotency_key
}

/// The acknowledgement of a write that asked for commit confirmation: applied
/// with where and when, or still pending after the timeout.
pub fn commit_ack(outcome: &CommitOutcome, store: &str, idempotency_key: &str, timeout_ms: u64) -> (r: (
    ApiStatus,
    AckResponse,
))
    ensures
        r.1.store@ == store@,
        r.1.idempotency_key@ == idempotency_key@,
        match outcome {
            CommitOutcome::Applied { entity, key, version, applied_at } => r.0 == ApiStatus::Success
                && r.1.status@ == "APPLIED"@ && opt_view(r.1.message) == Some(
                msg_committed(entity@, key@, *version, applied_at@),
            ),
            CommitOutcome::TimedOut => r.0 == ApiStatus::Accepted && r.1.status@ == "PENDING"@
                && opt_view(r.1.message) == Some(msg_pending(timeout_ms, store@, idempotency_key@)),
        },
{
    match outcome {
        CommitOutcome::Applied { entity, key, version, applied_at } => {
            let a = concat3("committed: ", entity.as_str(), "/");
            let b = concat3(a.as_str(), key.as_str(), " v");
            let c = concat3(b.as_str(), format_decimal(*version).as_str(), " at ");
            let m = concat(c.as_str(), applied_at.as_str());
            assert(m@ =~= msg_committed(entity@, key@, *version, applied_at@));
            (
                ApiStatus::Success,
                AckResponse {
                    status: owned("APPLIED"),
                    store: owned(store),
                    idempotency_key: owned(idempotency_key),
                    message: Some(m),
                },
            )
        },
        CommitOutcome::TimedOut => {
            let a = concat3(
                "aún no comprometido tras ",
                format_decimal(timeout_ms).as_str(),
                "ms; consultar GET /writes/",
            );
            let b = concat3(a.as_str(), store, "/");
            let m = concat(b.as_str(), idempotency_key);
            assert(m@ =~= msg_pending(timeout_ms, store@, idempotency_key@));
            (
                ApiStatus::Accepted,
                AckResponse {
                    status: owned("PENDING"),
                    store: owned(store),
                    idempotency_key: owned(idempotency_key),
                    message: Some(m),
                },
            )
        },
    }
}

/// Where a read looks.
pub enum ReadPlan {
    /// A projection row, cached under `cache_key`.
    Projection { name: String, key: String, cache_key: String },
    /// An entity, cached under `cache_key`, else read from its store's payload
    /// table with `sql` (parameters: entity, key).
    Entity { store: String, entity: String, key: String, cache_key: String, sql: String },
}

/// A plan as values: kind (0 projection, 1 entity), projection or store name,
/// entity, key, cache key and query.
pub open spec fn plan_view(p: ReadPlan) -> (u8, Seq<char>, Seq<char>, Seq<char>, Seq<char>, Seq<char>) {
    match p {
        ReadPlan::Projection { name, key, cache_key } => (
            0u8,
            name@,
            Seq::empty(),
            key@,
            cache_key@,
            Seq::empty(),
        ),
        ReadPlan::Entity { store, entity, key, cache_key, sql } => (
            1u8,
            store@,
            entity@,
            key@,
            cache_key@,
            sql@,
        ),
    }
}

/// The query that reads one entity's payload from its store's table.
pub open spec fn spec_payload_sql(store: Seq<char>) -> Seq<char> {
    "SELECT payload FROM payload_"@ + store + " WHERE entity = ?1 AND key = ?2"@
}

pub open spec fn opt_text(o: Option<&str>) -> Seq<char> {
    match o {
        Some(s) => s@,
        None => Seq::empty(),
    }
}

fn text_or_empty(o: Option<&str>) -> (r: String)
    ensures
        r@ == opt_text(o),
{
    match o {
        Some(s) => owned(s),
        None => String::new(),
    }
}

/// Decides where a read of the query parameters looks: a projection when one
/// is named, else an entity of the named store (missing entity or key read as
/// empty); a read that names neither is refused.
pub fn plan_read(
    store: Option<&str>,
    entity: Option<&str>,
    key: Option<&str>,
    projection: Option<&str>,
) -> (r: Result<ReadPlan, Rejection>)
    ensures
        projection is Some ==> r is Ok && plan_view(r->Ok_0) == (
            0u8,
            opt_text(projection),
            Seq::<char>::empty(),
            opt_text(key),
            spec_projection_key(opt_text(projection), opt_text(key)),
            Seq::<char>::empty(),
        ),
        projection is None && store is None ==> r is Err && r->Err_0.status == ApiStatus::BadRequest
            && is_store_not_found(r->Err_0.error, Seq::empty()),
        projection is None && store is Some ==> r is Ok && plan_view(r->Ok_0) == (
            1u8,
            opt_text(store),
            opt_text(entity),
            opt_text(key),
            spec_cache_key(opt_text(store), opt_text(entity), opt_text(key)),
            spec_payload_sql(opt_text(store)),
        ),
{
    if let Some(p) = projection {
        let k = text_or_empty(key);
        let c = projection_key(p, k.as_str());
        return Ok(ReadPlan::Projection { name: owned(p), key: k, cache_key: c });
    }
    match store {
        None => Err(
            Rejection {
                status: ApiStatus::BadRequest,
                error: Error::StoreNotFound { store: String::new() },
            },
        ),
        Some(s) => {
            let e = text_or_empty(entity);
            let k = text_or_empty(key);
            let c = cache_key(s, e.as_str(), k.as_str());
            let sql = concat3("SELECT payload FROM payload_", s, " WHERE entity = ?1 AND key = ?2");
            Ok(ReadPlan::Entity { store: owned(s), entity: e, key: k, cache_key: c, sql })
        },
    }
}

/// Whether a write is acknowledged only once committed.
pub fn wants_commit(ack_mode: &str) -> (r: bool)
    ensures
        r == spec_wants_commit(ack_mode@),
{
    str_eq(ack_mode, "committed") || str_eq(ack_mode, "accepted")
}

/// What a status query reports for a write.
#[derive(Debug, Clone)]
pub enum WriteStatus {
    Pending { store: String, idempotency_key: String },
    Applied {
        idempotency_key: String,
        store: String,
        entity: String,
        key: String,
        version: u64,
        applied_at: String,
    },
}

/// A status as values: applied?, store, idempotency key, entity, key, version, time.
pub open spec fn status_view(s: WriteStatus) -> (bool, Seq<char>, Seq<char>, Seq<char>, Seq<char>, u64, Seq<char>) {
    match s {
        WriteStatus::Pending { store, idempotency_key } => (
            false,
            store@,
            idempotency_key@,
            Seq::empty(),
            Seq::empty(),
            0u64,
            Seq::empty(),
        ),
        WriteStatus::Applied { idempotency_key, store, entity, key, version, applied_at } => (
            true,
            store@,
            idempotency_key@,
            entity@,
            key@,
            version,
            applied_at@,
        ),
    }
}

/// The idempotency record of an applied write, as stored.
pub struct AppliedRow {
    pub idempotency_key: String,
    pub store: String,
    pub entity: String,
    pub key: String,
    pub version: i64,
    pub applied_at: String,
}

/// Looks up the status of writes in a store's idempotency records.
pub struct StatusQuery;

impl StatusQuery {
    /// The status of a write given the record found for it, if any: applied
    /// with the record's fields, or pending under the requested store and key.
    pub fn from_row(store: &str, idempotency_key: &str, row: Option<AppliedRow>) -> (r: WriteStatus)
        ensures
            match row {
                None => status_view(r) == (false, store@, idempotency_key@, Seq::<char>::empty(), Seq::<char>::empty(), 0u64, Seq::<char>::empty()),
                Some(a) => status_view(r) == (
                    true,
                    a.store@,
                    a.idempotency_key@,
                    a.entity@,
                    a.key@,
                    a.version as u64,
                    a.applied_at@,
                ),
            },
    {
        match row {
            None => WriteStatus::Pending {
                store: owned(store),
                idempotency_key: owned(idempotency_key),
            },
            Some(a) => WriteStatus::Applied {
                idempotency_key: a.idempotency_key,
                store: a.store,
                entity: a.entity,
                key: a.key,
                version: a.version as u64,
                applied_at: a.applied_at,
            },
        }
    }
}

} // verus!
