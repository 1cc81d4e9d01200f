//! The envelope of the control plane's replies: an operation's own body on
//! success, a message under `serverify_error` on failure.
use vstd::prelude::*;

verus! {

/// The message of a failed operation.
#[derive(Clone, Debug, PartialEq, Eq)]
pub struct ServerifyError {
    pub message: String,
}

/// The body of a failed operation's reply.
#[derive(Clone, Debug, PartialEq, Eq)]
pub struct ErrorResBody {
    pub serverify_error: ServerifyError,
}

/// A reply's body: the operation's own, or the error body.
#[derive(Clone, Debug, PartialEq, Eq)]
pub enum WithError<T> {
    Success(T),
    Error(ErrorResBody),
}

/// A successful reply: `status_code` with `body` as it is.
pub fn success_response<T>(status_code: u16, body: T) -> (r: (u16, WithError<T>))
    ensures
        r.0 == status_code,
        r.1 == WithError::Success(body),
{
    (status_code, WithError::Success(body))
}

/// A failed reply: `status_code` with `message` in the error body.
pub fn error_response<T>(status_code: u16, message: &str) -> (r: (u16, WithError<T>))
    ensures
        r.0 == status_code,
        r.1 is Error,
        r.1->Error_0.serverify_error.message@ == message@,
{
    (
        status_code,
        WithError::Error(
            ErrorResBody { serverify_error: ServerifyError { message: message.to_owned() } },
        ),
    )
}

} // verus!
