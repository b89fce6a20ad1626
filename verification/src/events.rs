//! The decisions of the RPC service: status codes, request validation, and the
//! cursor of an event subscription.
use vstd::prelude::*;
use crate::error::Error;
use crate::health::Health;
use crate::service::WriteStatus;
use crate::text::{
    concat, concat3, decimal, format_decimal, format_signed, owned, signed_decimal, str_eq,
};

verus! {

/// The RPC status codes the service answers with.
#[derive(Debug, Clone, Copy, PartialEq, Eq, Structural)]
pub enum GrpcCode {
    InvalidArgument,
    NotFound,
    AlreadyExists,
    PermissionDenied,
    ResourceExhausted,
    OutOfRange,
    Internal,
    Unavailable,
    Unauthenticated,
}

pub open spec fn spec_core_error_code(e: Error) -> GrpcCode {
    match e {
        Error::QueueFull { .. } | Error::OutboxBacklog { .. } => GrpcCode::ResourceExhausted,
        Error::StoreNotFound { .. } | Error::EntityNotFound { .. } => GrpcCode::NotFound,
        Error::VersionConflict { .. } | Error::Duplicate { .. } => GrpcCode::AlreadyExists,
        Error::WriteRejected { .. } => GrpcCode::InvalidArgument,
        Error::PermissionDenied { .. } => GrpcCode::PermissionDenied,
        Error::Internal { .. } | Error::ProjectionError { .. } => GrpcCode::Internal,
    }
}

/// The RPC status of a write-engine error. Refusals for load carry a
/// `retry-after` (see `retry_after_secs`).
pub fn map_core_error(error: &Error) -> (r: GrpcCode)
    ensures
        r == spec_core_error_code(*error),
{
    match error {
        Error::QueueFull { .. } | Error::OutboxBacklog { .. } => GrpcCode::ResourceExhausted,
        Error::StoreNotFound { .. } | Error::EntityNotFound { .. } => GrpcCode::NotFound,
        Error::VersionConflict { .. } | Error::Duplicate { .. } => GrpcCode::AlreadyExists,
        Error::WriteRejected { .. } => GrpcCode::InvalidArgument,
        Error::PermissionDenied { .. } => GrpcCode::PermissionDenied,
        Error::Internal { .. } | Error::ProjectionError { .. } => GrpcCode::Internal,
    }
}

/// The `retry-after` seconds of a refusal for load: the throttle window
/// (`THROTTLE_WINDOW_SECS`, 1 when unset or unreadable), at least 1.
pub fn retry_after_secs(window: Option<&str>) -> (r: u64)
    ensures
        r == match window {
            Some(w) => match crate::text::spec_parse_unsigned(w@, u64::MAX as nat) {
                Some(v) => if v >= 1 {
                    v as u64
                } else {
                    1u64
                },
                None => 1u64,
            },
            None => 1u64,
        },
{
    let v = match window {
        Some(w) => match crate::text::parse_unsigned(w, u64::MAX) {
            Some(v) => v,
            None => 1,
        },
        None => 1,
    };
    if v >= 1 {
        v
    } else {
        1
    }
}

/// A positive setting read from its text: the parsed value when it is at
/// least `min`, else `default`.
pub fn setting_at_least(raw: Option<&str>, max: u64, min: u64, default: u64) -> (r: u64)
    ensures
        r == match raw {
            Some(w) => match crate::text::spec_parse_unsigned(w@, max as nat) {
                Some(v) => if v >= min {
                    v as u64
                } else {
                    default
                },
                None => default,
            },
            None => default,
        },
{
    match raw {
        Some(w) => match crate::text::parse_unsigned(w, max) {
            Some(v) => if v >= min {
                v
            } else {
                default
            },
            None => default,
        },
        None => default,
    }
}

/// Checks a subscription request: a store is named, the cursor is not
/// negative, and the store has a database.
pub fn validate_subscription(store: &str, after_outbox_seq: i64, has_db: bool) -> (r: Result<
    (),
    (GrpcCode, String),
>)
    ensures
        store@.len() == 0 ==> (r matches Err((c, m)) && c == GrpcCode::InvalidArgument && m@
            == "store is required"@),
        store@.len() > 0 && after_outbox_seq < 0 ==> (r matches Err((c, m)) && c
            == GrpcCode::InvalidArgument && m@ == "after_outbox_seq cannot be negative"@),
        store@.len() > 0 && after_outbox_seq >= 0 && !has_db ==> (r matches Err((c, m)) && c
            == GrpcCode::NotFound && m@ == "store database is not configured"@),
        store@.len() > 0 && after_outbox_seq >= 0 && has_db ==> r is Ok,
{
    if store.unicode_len() == 0 {
        return Err((GrpcCode::InvalidArgument, owned("store is required")));
    }
    if after_outbox_seq < 0 {
        return Err((GrpcCode::InvalidArgument, owned("after_outbox_seq cannot be negative")));
    }
    if !has_db {
        return Err((GrpcCode::NotFound, owned("store database is not configured")));
    }
    Ok(())
}

/// `a - b` saturated to the range of `i64`.
pub open spec fn saturating_sub_i64(a: i64, b: i64) -> i64 {
    if a - b < i64::MIN {
        i64::MIN
    } else if a - b > i64::MAX {
        i64::MAX
    } else {
        (a - b) as i64
    }
}

pub open spec fn msg_cursor_too_old(requested: i64, oldest: i64) -> Seq<char> {
    "outbox cursor "@ + signed_decimal(requested as int) + " is older than retained history starting at "@
        + signed_decimal(oldest as int)
}

/// Whether resuming after `requested` would skip events that the outbox no
/// longer holds: `oldest` is the first retained outbox id, if any.
pub fn cursor_error(requested: i64, oldest: Option<i64>) -> (r: Option<String>)
    ensures
        match oldest {
            Some(o) => if requested < saturating_sub_i64(o, 1) {
                r matches Some(m) && m@ == msg_cursor_too_old(requested, o)
            } else {
                r is None
            },
            None => r is None,
        },
{
    match oldest {
        Some(o) => {
            let floor = if o == i64::MIN {
                i64::MIN
            } else {
                o - 1
            };
            if requested < floor {
                let a = concat3(
                    "outbox cursor ",
                    format_signed(requested).as_str(),
                    " is older than retained history starting at ",
                );
                let m = concat(a.as_str(), format_signed(o).as_str());
                assert(m@ =~= msg_cursor_too_old(requested, o));
                Some(m)
            } else {
                None
            }
        },
        None => None,
    }
}

/// How many event ids a subscription remembers before it forgets them all.
pub const SEEN_LIMIT: usize = 4096;

/// What to do with an event read for a subscription.
#[derive(Debug, Clone, PartialEq, Eq)]
pub enum StreamAction {
    /// Already delivered: move past it.
    Skip,
    /// Deliver it.
    Send,
    /// The consumer is too slow: end the stream with this message.
    Exhausted(String),
}

/// The position of an event subscription and the ids it has delivered lately.
pub struct EventCursor {
    cursor: i64,
    seen: Vec<String>,
}

pub open spec fn msg_consumer_behind(cursor: i64) -> Seq<char> {
    "event stream consumer is behind; resume from cursor "@ + signed_decimal(cursor as int)
}

impl EventCursor {
    pub closed spec fn spec_cursor(&self) -> i64 {
        self.cursor
    }

    pub closed spec fn spec_seen(&self) -> Seq<Seq<char>> {
        self.seen@.map_values(|s: String| s@)
    }

    /// The remembered ids are distinct, and there are at most `SEEN_LIMIT` of them.
    pub closed spec fn wf(&self) -> bool {
        &&& self.seen@.len() <= SEEN_LIMIT
        &&& forall|i: int, j: int|
            0 <= i < j < self.seen@.len() ==> self.seen@[i]@ != self.seen@[j]@
    }

    /// A subscription that resumes after `after_outbox_seq` (from 0 when negative).
    pub fn new(after_outbox_seq: i64) -> (r: Self)
        ensures
            r.wf(),
            r.spec_cursor() == if after_outbox_seq > 0 {
                after_outbox_seq
            } else {
                0
            },
            r.spec_seen().len() == 0,
    {
        let c = if after_outbox_seq > 0 {
            after_outbox_seq
        } else {
            0
        };
        EventCursor { cursor: c, seen: Vec::new() }
    }

    /// The id to resume after.
    pub fn cursor(&self) -> (r: i64)
        ensures
            r == self.spec_cursor(),
    {
        self.cursor
    }

    /// Decides what to do with the event `event_id` at outbox id `id`, when the
    /// delivery channel has `capacity` free slots (one is kept for the final
    /// error). A delivered or skipped event moves the cursor to `id`. A new id
    /// is remembered; once more than `SEEN_LIMIT` ids would be remembered, all
    /// are forgotten.
    pub fn on_event(&mut self, id: i64, event_id: &str, capacity: usize) -> (r: StreamAction)
        requires
            old(self).wf(),
        ensures
            final(self).wf(),
            old(self).spec_seen().contains(event_id@) ==> r == StreamAction::Skip
                && final(self).spec_cursor() == id,
            !old(self).spec_seen().contains(event_id@) && capacity <= 1 ==> (r matches StreamAction::Exhausted(
                m,
            ) && m@ == msg_consumer_behind(old(self).spec_cursor())) && final(self).spec_cursor()
                == old(self).spec_cursor(),
            !old(self).spec_seen().contains(event_id@) && capacity > 1 ==> r == StreamAction::Send
                && final(self).spec_cursor() == id,
            old(self).spec_seen().contains(event_id@) ==> final(self).spec_seen() == old(
                self,
            ).spec_seen(),
            !old(self).spec_seen().contains(event_id@) ==> final(self).spec_seen() == if old(
                self,
            ).spec_seen().len() + 1 > SEEN_LIMIT {
                Seq::<Seq<char>>::empty()
            } else {
                old(self).spec_seen().push(event_id@)
            },
    {
        let ghost sv = self.spec_seen();
        let mut known = false;
        let mut i: usize = 0;
        while i < self.seen.len()
            invariant
                sv == self.spec_seen(),
                i <= self.seen@.len(),
                known == exists|j: int| 0 <= j < i && self.seen@[j]@ == event_id@,
            decreases self.seen@.len() - i,
        {
            if str_eq(self.seen[i].as_str(), event_id) {
                known = true;
            }
            i = i + 1;
        }
        assert(known == sv.contains(event_id@)) by {
            if known {
                let j = choose|j: int| 0 <= j < self.seen@.len() && self.seen@[j]@ == event_id@;
                assert(sv[j] == event_id@);
            }
            if sv.contains(event_id@) {
                let j = choose|j: int| 0 <= j < sv.len() && sv[j] == event_id@;
                assert(self.seen@[j]@ == event_id@);
            }
        }
        if !known {
            let ghost before = self.seen@;
            self.seen.push(owned(event_id));
            assert(self.spec_seen() =~= sv.push(event_id@));
            assert(self.spec_seen()[sv.len() as int] == event_id@);
            if self.seen.len() > SEEN_LIMIT {
                self.seen = Vec::new();
                assert(self.spec_seen() =~= Seq::<Seq<char>>::empty());
            }
        }
        if known {
            self.cursor = id;
            return StreamAction::Skip;
        }
        if capacity <= 1 {
            let m = concat(
                "event stream consumer is behind; resume from cursor ",
                format_signed(self.cursor).as_str(),
            );
            return StreamAction::Exhausted(m);
        }
        self.cursor = id;
        StreamAction::Send
    }
}

/// The RPC status number and detail of a write's status.
pub open spec fn spec_status_detail(s: WriteStatus) -> (i32, Seq<char>) {
    match s {
        WriteStatus::Pending { .. } => (6i32, "PENDING"@),
        WriteStatus::Applied { entity, key, version, applied_at, .. } => (
            2i32,
            "APPLIED "@ + entity@ + "/"@ + key@ + " v"@ + decimal(version as nat) + " at "@
                + applied_at@,
        ),
    }
}

pub fn status_detail(s: &WriteStatus) -> (r: (i32, String))
    ensures
        (r.0, r.1@) == spec_status_detail(*s),
{
    match s {
        WriteStatus::Pending { .. } => (6, owned("PENDING")),
        WriteStatus::Applied { entity, key, version, applied_at, .. } => {
            let a = concat3("APPLIED ", entity.as_str(), "/");
            let b = concat3(a.as_str(), key.as_str(), " v");
            let c = concat3(b.as_str(), format_decimal(*version).as_str(), " at ");
            let d = concat(c.as_str(), applied_at.as_str());
            assert(d@ =~= spec_status_detail(*s).1);
            (2, d)
        },
    }
}

/// The status a write acknowledgement carries over RPC: `APPLIED` is reported
/// as `COMMITTED`, every other status as it is.
pub fn rpc_ack_status(status: &str) -> (r: String)
    ensures
        r@ == if status@ == "APPLIED"@ {
            "COMMITTED"@
        } else {
            status@
        },
{
    if str_eq(status, "APPLIED") {
        owned("COMMITTED")
    } else {
        owned(status)
    }
}

/// The RPC number of a health state.
pub fn health_code(h: Health) -> (r: i32)
    ensures
        r == match h {
            Health::Healthy => 1i32,
            Health::Degraded => 2i32,
            Health::Unavailable => 3i32,
        },
{
    match h {
        Health::Healthy => 1,
        Health::Degraded => 2,
        Health::Unavailable => 3,
    }
}

/// Checks the identifying fields of a write received over RPC.
pub fn require_write_fields(op: &str, store: &str, entity: &str, key: &str, idempotency_key: &str) -> (r:
    Result<(), String>)
    ensures
        r is Ok <==> (store@.len() > 0 && entity@.len() > 0 && key@.len() > 0 && op@.len() > 0
            && idempotency_key@.len() > 0),
        r matches Err(m) ==> m@ == "op, store, entity, key and idempotency_key are required"@,
{
    if store.unicode_len() == 0 || entity.unicode_len() == 0 || key.unicode_len() == 0
        || op.unicode_len() == 0 || idempotency_key.unicode_len() == 0 {
        return Err(owned("op, store, entity, key and idempotency_key are required"));
    }
    Ok(())
}

/// Checks a status request: both the store and the idempotency key are named.
pub fn require_status_fields(store: &str, idempotency_key: &str) -> (r: Result<(), String>)
    ensures
        r is Ok <==> (store@.len() > 0 && idempotency_key@.len() > 0),
        r matches Err(m) ==> m@ == "store and idempotency_key are required"@,
{
    if store.unicode_len() == 0 || idempotency_key.unicode_len() == 0 {
        return Err(owned("store and idempotency_key are required"));
    }
    Ok(())
}

} // verus!
