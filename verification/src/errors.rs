//! Error taxonomy of the join-sound core. Validation failures and the
//! duration ceiling surface from ingestion; storage failures distinguish a
//! missing blob from a backend fault; registry lookups that find nothing fail
//! with a dedicated type, as does a removal aimed at a resource that does not
//! exist.

use vstd::prelude::*;

verus! {

/// Failure of a blob-store operation: either the named blob is not there, or
/// the backend itself failed (a transport fault, in the real backends).
#[derive(Debug, PartialEq, Eq)]
pub enum StorageError {
    NotFound,
    Backend(String),
}

/// Failure of attachment ingestion.
///
/// `UnsupportedType` — the declared media type is neither audio nor video;
/// `TooLong` — the probed duration exceeds the ceiling, or probing failed and
/// the duration must be treated as unbounded;
/// `TranscodeFailed` — a video attachment produced no usable audio output.
#[derive(Debug, PartialEq, Eq, Clone, Copy)]
pub enum IngestError {
    UnsupportedType,
    TooLong,
    TranscodeFailed,
}

/// No sound could be resolved: there is no row for the requested user and
/// scope, or the row carries no media.
#[derive(Debug, PartialEq, Eq, Clone, Copy)]
pub struct NotFoundError;

/// Failure of a removal. `NoSuchSound` — there was nothing to remove, and
/// nothing changed. `Blob` — the row was removed, but deleting its backing
/// media failed; the registry is consistent and the fault is reported.
#[derive(Debug, PartialEq, Eq)]
pub enum RemoveError {
    NoSuchSound,
    Blob(StorageError),
}

} // verus!
