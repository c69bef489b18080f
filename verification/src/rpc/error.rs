//! Errors of the remote-backend layer.

use vstd::prelude::*;

verus! {

/// What can go wrong when talking to a remote backend.
#[derive(Clone, Debug)]
pub enum RpcError {
    /// No backend could be created for the endpoint.
    InitializationFailed { endpoint: String },
    /// The endpoint is not of the form the backend expects.
    InvalidEndpoint { endpoint: String },
    /// The server at the endpoint could not be reached.
    ConnectionFailed { endpoint: String, reason: String },
    /// The server reported a failure.
    ServerError { message: String },
    /// The backend reported no memory at all.
    MemoryQueryFailed,
    /// An endpoint holds a zero byte at `position` and cannot be handed over.
    StringConversion { position: usize },
    /// Bytes were not valid UTF-8 beyond `valid_up_to`.
    Utf8Error { valid_up_to: usize },
    /// Remote backends are not available in this build.
    NotAvailable,
}

} // verus!
