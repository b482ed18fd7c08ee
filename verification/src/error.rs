//! Errors that the API answers with: a status and a message.
use vstd::prelude::*;

verus! {

/// The HTTP status of an API error.
#[derive(Clone, Copy, PartialEq, Eq, Structural, Debug)]
pub enum ApiStatus {
    BadRequest,
    Conflict,
    InternalServerError,
}

/// An API error: its status and the message that the client is shown.
pub struct ApiError {
    pub status: ApiStatus,
    pub message: String,
}

/// `e` has the given status and message.
pub open spec fn is_error(e: ApiError, status: ApiStatus, message: Seq<char>) -> bool {
    e.status == status && e.message@ == message
}

impl ApiError {
    /// A request the server refuses (400).
    pub fn bad_request(message: &str) -> (res: ApiError)
        ensures
            is_error(res, ApiStatus::BadRequest, message@),
    {
        ApiError { status: ApiStatus::BadRequest, message: String::from_str(message) }
    }

    /// A request that clashes with the server's state (409).
    pub fn conflict(message: String) -> (res: ApiError)
        ensures
            is_error(res, ApiStatus::Conflict, message@),
    {
        ApiError { status: ApiStatus::Conflict, message }
    }

    /// An analysis that was cancelled: answered as a conflict.
    pub fn cancelled(message: String) -> (res: ApiError)
        ensures
            is_error(res, ApiStatus::Conflict, message@),
    {
        Self::conflict(message)
    }

    /// A failure on the server's side (500).
    pub fn internal(message: String) -> (res: ApiError)
        ensures
            is_error(res, ApiStatus::InternalServerError, message@),
    {
        ApiError { status: ApiStatus::InternalServerError, message }
    }

    /// A failed I/O operation, given the operation error's text.
    pub fn internal_from_io(detail: &str) -> (res: ApiError)
        ensures
            is_error(res, ApiStatus::InternalServerError, "io error: "@ + detail@),
    {
        let mut message = String::from_str("io error: ");
        message.append(detail);
        Self::internal(message)
    }
}

} // verus!
