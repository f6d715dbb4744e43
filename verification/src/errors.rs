use vstd::prelude::*;

verus! {

/// The kinds of failure that the store reports to its callers.
///
/// `NotFound` is returned when a lookup target is absent, `Unauthorized`
/// when credentials do not match, `Validation` when an input breaks an
/// integrity rule (duplicate username, unknown tag, broken foreign key),
/// and `Internal` when an engine below the store (such as the password
/// hashing engine) fails.
#[derive(Clone, Copy, Debug, PartialEq, Eq, Structural)]
pub enum ErrorKind {
    NotFound,
    Unauthorized,
    Validation,
    Internal,
}

/// A failure: its kind, and a caller-facing message.
#[derive(Debug, Clone)]
pub struct Error {
    pub kind: ErrorKind,
    pub message: String,
}

/// The spec-level shape of an [`Error`].
#[verifier::ext_equal]
pub ghost struct ErrorModel {
    pub kind: ErrorKind,
    pub message: Seq<char>,
}

impl View for Error {
    type V = ErrorModel;

    open spec fn view(&self) -> ErrorModel {
        ErrorModel { kind: self.kind, message: self.message@ }
    }
}

impl Error {
    pub fn new(kind: ErrorKind, message: &str) -> (r: Error)
        ensures
            r.kind == kind,
            r.message@ == message@,
    {
        Error { kind, message: message.to_owned() }
    }
}

/// Convert any lower-level failure into an opaque internal error, hiding
/// the underlying engine's message from the caller.
pub fn internal_error<E>(_err: E) -> (r: Error)
    ensures
        r.kind == ErrorKind::Internal,
        r.message@ == "Database error"@,
{
    Error::new(ErrorKind::Internal, "Database error")
}

} // verus!
