//! Structured errors.
//!
//! [`CoreError`] pairs a machine-readable [`ErrorCode`] with human-readable
//! detail. Callers match on the code; the text is never parsed.
use vstd::prelude::*;

use crate::text::append_decimal;

verus! {

/// Machine-readable error codes.
#[derive(Debug, Clone, Copy, PartialEq, Eq, Structural)]
#[non_exhaustive]
pub enum ErrorCode {
    InvalidInput,
    ConnectionFailed,
    Timeout,
    BodyTooLarge,
    HeaderTooLarge,
    PeerRejected,
    Cancelled,
    Internal,
}

/// The name of an error code, as it is spelled in the source.
pub open spec fn code_name(code: ErrorCode) -> Seq<char> {
    match code {
        ErrorCode::InvalidInput => "InvalidInput"@,
        ErrorCode::ConnectionFailed => "ConnectionFailed"@,
        ErrorCode::Timeout => "Timeout"@,
        ErrorCode::BodyTooLarge => "BodyTooLarge"@,
        ErrorCode::HeaderTooLarge => "HeaderTooLarge"@,
        ErrorCode::PeerRejected => "PeerRejected"@,
        ErrorCode::Cancelled => "Cancelled"@,
        ErrorCode::Internal => "Internal"@,
    }
}

impl ErrorCode {
    /// The name of the code.
    pub fn name(&self) -> (r: &'static str)
        ensures
            r@ == code_name(*self),
    {
        match self {
            ErrorCode::InvalidInput => "InvalidInput",
            ErrorCode::ConnectionFailed => "ConnectionFailed",
            ErrorCode::Timeout => "Timeout",
            ErrorCode::BodyTooLarge => "BodyTooLarge",
            ErrorCode::HeaderTooLarge => "HeaderTooLarge",
            ErrorCode::PeerRejected => "PeerRejected",
            ErrorCode::Cancelled => "Cancelled",
            ErrorCode::Internal => "Internal",
        }
    }
}

/// Structured error: `code` is machine-readable, `message` carries detail.
#[derive(Debug, Clone)]
pub struct CoreError {
    pub code: ErrorCode,
    pub message: String,
}

/// What an error says: its code and the characters of its message.
pub type ErrorView = (ErrorCode, Seq<char>);

impl View for CoreError {
    type V = (ErrorCode, Seq<char>);

    open spec fn view(&self) -> (ErrorCode, Seq<char>) {
        (self.code, self.message@)
    }
}

/// What is said of a handle that names nothing.
pub open spec fn unknown_handle(handle: u64) -> ErrorView {
    (ErrorCode::InvalidInput, "unknown handle: "@ + crate::text::decimal(handle as nat))
}

impl CoreError {
    pub fn invalid_input(detail: &str) -> (r: Self)
        ensures
            r@ == (ErrorCode::InvalidInput, detail@),
    {
        CoreError { code: ErrorCode::InvalidInput, message: detail.to_owned() }
    }

    pub fn connection_failed(detail: &str) -> (r: Self)
        ensures
            r@ == (ErrorCode::ConnectionFailed, detail@),
    {
        CoreError { code: ErrorCode::ConnectionFailed, message: detail.to_owned() }
    }

    pub fn timeout(detail: &str) -> (r: Self)
        ensures
            r@ == (ErrorCode::Timeout, detail@),
    {
        CoreError { code: ErrorCode::Timeout, message: detail.to_owned() }
    }

    pub fn body_too_large(detail: &str) -> (r: Self)
        ensures
            r@ == (ErrorCode::BodyTooLarge, detail@),
    {
        CoreError { code: ErrorCode::BodyTooLarge, message: detail.to_owned() }
    }

    pub fn header_too_large(detail: &str) -> (r: Self)
        ensures
            r@ == (ErrorCode::HeaderTooLarge, detail@),
    {
        CoreError { code: ErrorCode::HeaderTooLarge, message: detail.to_owned() }
    }

    pub fn peer_rejected(detail: &str) -> (r: Self)
        ensures
            r@ == (ErrorCode::PeerRejected, detail@),
    {
        CoreError { code: ErrorCode::PeerRejected, message: detail.to_owned() }
    }

    pub fn internal(detail: &str) -> (r: Self)
        ensures
            r@ == (ErrorCode::Internal, detail@),
    {
        CoreError { code: ErrorCode::Internal, message: detail.to_owned() }
    }

    /// A handle that names nothing.
    pub fn invalid_handle(handle: u64) -> (r: Self)
        ensures
            r@ == unknown_handle(handle),
    {
        let mut message: String = String::from_str("unknown handle: ");
        append_decimal(&mut message, handle);
        CoreError { code: ErrorCode::InvalidInput, message }
    }

    /// An operation that its caller called off.
    pub fn cancelled() -> (r: Self)
        ensures
            r@ == (ErrorCode::Cancelled, "aborted"@),
    {
        CoreError { code: ErrorCode::Cancelled, message: String::from_str("aborted") }
    }

    /// The code's name, a colon, and the message.
    pub fn to_string(&self) -> (r: String)
        ensures
            r@ == code_name(self.code) + ": "@ + self.message@,
    {
        let mut s: String = String::from_str(self.code.name());
        s.append(": ");
        s.append(self.message.as_str());
        s
    }

    /// A copy of the error.
    pub fn duplicate(&self) -> (r: Self)
        ensures
            r@ == self@,
    {
        CoreError { code: self.code, message: self.message.clone() }
    }
}

/// An error is seen as it is, its code has its name, and a handle that is not known is an
/// error of the input that says which one it is.
pub proof fn errors_are_seen_whole(e: CoreError, handle: u64)
    ensures
        e@.0 == e.code,
        e@.1 == e.message@,
        code_name(ErrorCode::InvalidInput) == "InvalidInput"@,
        code_name(ErrorCode::ConnectionFailed) == "ConnectionFailed"@,
        code_name(ErrorCode::Timeout) == "Timeout"@,
        code_name(ErrorCode::BodyTooLarge) == "BodyTooLarge"@,
        code_name(ErrorCode::HeaderTooLarge) == "HeaderTooLarge"@,
        code_name(ErrorCode::PeerRejected) == "PeerRejected"@,
        code_name(ErrorCode::Cancelled) == "Cancelled"@,
        code_name(ErrorCode::Internal) == "Internal"@,
        unknown_handle(handle) == (
            ErrorCode::InvalidInput,
            "unknown handle: "@ + crate::text::decimal(handle as nat),
        ),
{
}

} // verus!
