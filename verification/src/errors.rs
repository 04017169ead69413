//! Error taxonomy and the opaque client-facing error response.  Every
//! internal failure is reported to a caller under one fixed message,
//! with a fresh correlation identifier as the only thread back to
//! server-side logs.

use vstd::prelude::*;

verus! {

/// What went wrong, for the server's own eyes.
#[derive(Clone, Copy, Debug, PartialEq, Eq, Structural)]
pub enum ErrorKind {
    /// A malformed request body or recipient address: the client's fault.
    Validation,
    /// A token that failed signature, structure or expiry checks.
    InvalidToken,
    /// A transport failure towards mail relay, webhook or orchestrator.
    Downstream,
    /// Any other internal failure.
    InternalServerError,
}

/// An error as carried through the service's handlers.
#[derive(Clone, Copy, Debug, PartialEq, Eq, Structural)]
pub struct AppError(pub ErrorKind);

/// The one response shape a caller ever sees for an internal error.
#[derive(Clone, Debug)]
pub struct ErrorResponse {
    pub error_id: String,
    pub message: String,
}

/// Relies on `uuid::Uuid::new_v4` and its `Display` form: a random
/// version-4 UUID prints hyphenated as 36 characters.  The random
/// source decides which, so nothing more is promised.
#[verifier::external_body]
fn new_error_id() -> (r: String)
    ensures
        r@.len() == 36,
{
    uuid::Uuid::new_v4().to_string()
}

impl AppError {
    /// The kind of failure, for logging.
    pub fn kind(&self) -> (k: ErrorKind)
        ensures
            k == self.0,
    {
        self.0
    }

    /// The opaque response for this error: a fresh 36-character
    /// correlation identifier and the fixed message, never the cause.
    pub fn response(&self) -> (r: ErrorResponse)
        ensures
            r.message@ == "Internal Server Error"@,
            r.error_id@.len() == 36,
    {
        ErrorResponse { error_id: new_error_id(), message: "Internal Server Error".to_owned() }
    }
}

impl From<ErrorKind> for AppError {
    /// Wraps a kind, as handlers do with `?`.
    fn from(kind: ErrorKind) -> (r: AppError) {
        AppError(kind)
    }
}

impl vstd::std_specs::convert::FromSpecImpl<ErrorKind> for AppError {
    open spec fn obeys_from_spec() -> bool {
        true
    }

    open spec fn from_spec(kind: ErrorKind) -> AppError {
        AppError(kind)
    }
}

} // verus!
