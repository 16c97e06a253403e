//! The error type of the HTTP-facing operations.

use vstd::prelude::*;

use axum::http::HeaderMap;

use crate::storage::StorageError;

verus! {

/// Errors of the HTTP-facing operations, one variant per response status.
#[derive(Debug)]
pub enum ApiError {
    BadRequest(String),
    NotFound(String),
    Internal(String),
    RangeNotSatisfiable(u64),
    Unauthorized(HeaderMap),
    Forbidden(String),
    PreconditionFailed(String),
    Conflict(String),
    /// Carries the number of seconds after which a retry may succeed.
    TooManyRequests(u64),
}

/// Whether `e` is a bad-request error with message `msg`.
pub open spec fn is_bad_request(e: ApiError, msg: Seq<char>) -> bool {
    e matches ApiError::BadRequest(m) && m@ == msg
}

/// A bad-request error with message `msg`.
pub fn bad_request(msg: &str) -> (r: ApiError)
    ensures
        is_bad_request(r, msg@),
{
    ApiError::BadRequest(msg.to_owned())
}

/// Whether `e` is the error for a failed precondition.
pub open spec fn is_precondition_failed(e: ApiError) -> bool {
    e matches ApiError::PreconditionFailed(m) && m@ == "precondition failed"@
}

/// The error for a failed precondition.
pub fn precondition_failed() -> (r: ApiError)
    ensures
        is_precondition_failed(r),
{
    ApiError::PreconditionFailed("precondition failed".to_owned())
}

/// The API error that a storage error maps to.
pub open spec fn storage_error_spec(e: StorageError, r: ApiError) -> bool {
    match e {
        StorageError::InvalidPath => is_bad_request(r, "invalid path"@),
        StorageError::NotFound => r is NotFound,
        StorageError::Io(m) => r matches ApiError::Internal(x) && x@ == m@,
    }
}

/// Maps a storage error to the API error it answers with.
pub fn from_storage(error: StorageError) -> (r: ApiError)
    ensures
        storage_error_spec(error, r),
{
    match error {
        StorageError::InvalidPath => bad_request("invalid path"),
        StorageError::NotFound => ApiError::NotFound("not found".to_owned()),
        StorageError::Io(message) => ApiError::Internal(message),
    }
}

} // verus!
