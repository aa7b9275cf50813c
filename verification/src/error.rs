//! The error kinds that the library reports.

use vstd::prelude::*;
use vstd::string::StringExecFns;

verus! {

/// Why an operation of the library failed.
#[derive(Debug, Clone, Copy, PartialEq, Eq, Structural)]
pub enum Error {
    /// The input breaks the structure, the character set or the digit rules
    /// of bencode, or a required field of a dictionary is absent or ill-typed.
    MalformedBencode,
    /// The input ended before the value or frame was complete.
    TruncatedInput,
    /// A frame declares or would need a length above the ceiling.
    OversizedFrame,
    /// The peer sent something that the protocol does not allow at this point.
    ProtocolViolation,
    /// A SHA-1 digest does not match the expected one.
    IntegrityFailure,
}

impl Error {
    /// Whether waiting for more input can help: true of truncated input
    /// only. Every other kind is final for the input or the connection.
    pub fn is_recoverable(&self) -> (recoverable: bool)
        ensures
            recoverable == (*self == Error::TruncatedInput),
    {
        match self {
            Error::TruncatedInput => true,
            _ => false,
        }
    }

    /// A sentence that says what went wrong.
    pub fn describe(&self) -> (text: String)
        ensures
            text@ == (match self {
                Error::MalformedBencode => "the input is not well-formed bencode, or lacks a required field"@,
                Error::TruncatedInput => "the input ends before the value is complete"@,
                Error::OversizedFrame => "the frame is longer than the limit allows"@,
                Error::ProtocolViolation => "the peer violated the protocol"@,
                Error::IntegrityFailure => "the digest of the content is not the expected one"@,
            }),
    {
        match self {
            Error::MalformedBencode => String::from_str(
                "the input is not well-formed bencode, or lacks a required field",
            ),
            Error::TruncatedInput => String::from_str("the input ends before the value is complete"),
            Error::OversizedFrame => String::from_str("the frame is longer than the limit allows"),
            Error::ProtocolViolation => String::from_str("the peer violated the protocol"),
            Error::IntegrityFailure => String::from_str(
                "the digest of the content is not the expected one",
            ),
        }
    }
}

} // verus!
