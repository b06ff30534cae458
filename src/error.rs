//! The error that the publish and subscribe operations report to callers.
use vstd::prelude::*;

verus! {

/// The status of a request that the server failed.
pub const INTERNAL_SERVER_ERROR: u16 = 500;

/// A failure reported to a caller: a message and the status to answer with.
pub struct HttpError {
    pub msg: String,
    pub status: u16,
}

impl HttpError {
    /// A server-side failure with message `msg`.
    pub fn internal(msg: String) -> (r: HttpError)
        ensures
            r.msg@ == msg@,
            r.status == INTERNAL_SERVER_ERROR,
    {
        HttpError { msg, status: INTERNAL_SERVER_ERROR }
    }
}

} // verus!
