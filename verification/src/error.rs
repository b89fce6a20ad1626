//! The errors that the write path reports to clients.
use vstd::prelude::*;
use crate::text::{concat, concat3, format_signed, signed_decimal};

verus! {

/// An error of the write engine, with the fields that identify what it concerns.
#[derive(Debug, Clone)]
pub enum Error {
    VersionConflict { detail: String, store: String, idempotency_key: String },
    Duplicate { detail: String, store: String, idempotency_key: String },
    StoreNotFound { store: String },
    EntityNotFound { store: String, entity: String },
    WriteRejected { detail: String, store: String, idempotency_key: String },
    PermissionDenied { store: String, detail: String },
    QueueFull { store: String },
    OutboxBacklog { store: String, depth: i64, threshold: i64 },
    ProjectionError { detail: String },
    Internal { detail: String },
}

/// The stable machine-readable code of each error kind.
pub open spec fn error_code(e: Error) -> Seq<char> {
    match e {
        Error::VersionConflict { .. } => "VERSION_CONFLICT"@,
        Error::Duplicate { .. } => "DUPLICATE"@,
        Error::StoreNotFound { .. } => "STORE_NOT_FOUND"@,
        Error::EntityNotFound { .. } => "ENTITY_NOT_FOUND"@,
        Error::WriteRejected { .. } => "WRITE_REJECTED"@,
        Error::PermissionDenied { .. } => "PERMISSION_DENIED"@,
        Error::QueueFull { .. } => "QUEUE_FULL"@,
        Error::OutboxBacklog { .. } => "OUTBOX_BACKLOG"@,
        Error::ProjectionError { .. } => "PROJECTION_ERROR"@,
        Error::Internal { .. } => "INTERNAL"@,
    }
}

/// The human-readable message of each error.
pub open spec fn error_message(e: Error) -> Seq<char> {
    match e {
        Error::VersionConflict { detail, .. } => "version conflict: "@ + detail@,
        Error::Duplicate { detail, .. } => "duplicate: "@ + detail@,
        Error::StoreNotFound { store } => "store not found: "@ + store@,
        Error::EntityNotFound { store, entity } => "entity not found: "@ + entity@ + " in "@
            + store@,
        Error::WriteRejected { detail, .. } => "write rejected: "@ + detail@,
        Error::PermissionDenied { store, detail } => "permission denied for store "@ + store@
            + ": "@ + detail@,
        Error::QueueFull { store } => "queue full: "@ + store@,
        Error::OutboxBacklog { store, depth, threshold } => "outbox backlog over threshold: "@
            + store@ + " ("@ + signed_decimal(depth as int) + " > "@ + signed_decimal(
            threshold as int,
        ) + ")"@,
        Error::ProjectionError { detail } => "projection error: "@ + detail@,
        Error::Internal { detail } => "internal error: "@ + detail@,
    }
}

impl Error {
    /// The error's code.
    pub fn code(&self) -> (r: &'static str)
        ensures
            r@ == error_code(*self),
    {
        match self {
            Error::VersionConflict { .. } => "VERSION_CONFLICT",
            Error::Duplicate { .. } => "DUPLICATE",
            Error::StoreNotFound { .. } => "STORE_NOT_FOUND",
            Error::EntityNotFound { .. } => "ENTITY_NOT_FOUND",
            Error::WriteRejected { .. } => "WRITE_REJECTED",
            Error::PermissionDenied { .. } => "PERMISSION_DENIED",
            Error::QueueFull { .. } => "QUEUE_FULL",
            Error::OutboxBacklog { .. } => "OUTBOX_BACKLOG",
            Error::ProjectionError { .. } => "PROJECTION_ERROR",
            Error::Internal { .. } => "INTERNAL",
        }
    }

    /// The error's message, as it is shown to a client.
    pub fn message(&self) -> (r: String)
        ensures
            r@ == error_message(*self),
    {
        match self {
            Error::VersionConflict { detail, .. } => concat("version conflict: ", detail.as_str()),
            Error::Duplicate { detail, .. } => concat("duplicate: ", detail.as_str()),
            Error::StoreNotFound { store } => concat("store not found: ", store.as_str()),
            Error::EntityNotFound { store, entity } => {
                let a = concat3("entity not found: ", entity.as_str(), " in ");
                concat(a.as_str(), store.as_str())
            },
            Error::WriteRejected { detail, .. } => concat("write rejected: ", detail.as_str()),
            Error::PermissionDenied { store, detail } => {
                let a = concat3("permission denied for store ", store.as_str(), ": ");
                concat(a.as_str(), detail.as_str())
            },
            Error::QueueFull { store } => concat("queue full: ", store.as_str()),
            Error::OutboxBacklog { store, depth, threshold } => {
                let a = concat3("outbox backlog over threshold: ", store.as_str(), " (");
                let d = format_signed(*depth);
                let t = format_signed(*threshold);
                let b = concat3(a.as_str(), d.as_str(), " > ");
                concat3(b.as_str(), t.as_str(), ")")
            },
            Error::ProjectionError { detail } => concat("projection error: ", detail.as_str()),
            Error::Internal { detail } => concat("internal error: ", detail.as_str()),
        }
    }
}

} // verus!
