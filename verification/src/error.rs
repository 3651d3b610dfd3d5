//! The error taxonomy of the library, and the mapping that classifies a
//! low-level transport failure into a domain error kind.

use vstd::prelude::*;

verus! {

/// The failure kinds a transport operation can report, mirroring the
/// relevant subset of the platform's I/O error kinds. The surrounding
/// application translates each real I/O error into one of these before it
/// crosses into the library.
#[derive(Clone, Copy, Debug, PartialEq, Eq, Structural)]
pub enum IoKind {
    NotFound,
    PermissionDenied,
    ConnectionReset,
    ConnectionAborted,
    BrokenPipe,
    WouldBlock,
    TimedOut,
    UnexpectedEof,
    OtherIo,
}

/// A transient transport failure justifies a reconnect and retry within the
/// remaining timeout budget; every other failure is fatal everywhere.
pub open spec fn spec_is_recoverable(kind: IoKind) -> bool {
    match kind {
        IoKind::ConnectionReset => true,
        IoKind::ConnectionAborted => true,
        IoKind::BrokenPipe => true,
        IoKind::WouldBlock => true,
        IoKind::TimedOut => true,
        IoKind::UnexpectedEof => true,
        _ => false,
    }
}

/// Decides whether a transport failure is transient: the fetch loops react
/// to a recoverable failure by reconnecting, and abort on any other.
pub fn is_recoverable(kind: IoKind) -> (r: bool)
    ensures
        r == spec_is_recoverable(kind),
{
    match kind {
        IoKind::ConnectionReset => true,
        IoKind::ConnectionAborted => true,
        IoKind::BrokenPipe => true,
        IoKind::WouldBlock => true,
        IoKind::TimedOut => true,
        IoKind::UnexpectedEof => true,
        _ => false,
    }
}

/// The error-type
#[derive(Debug)]
pub enum ErrorType {
    /// Invalid data (invalid encoding, integrity error etc.)
    InvalidData,
    /// Not enough resources to process data
    ResourceError,
    /// Failed to access element
    IOAccessError,
    /// Failed to read from or write to element
    IOReadWriteError,
    /// A deadline was exhausted during a connect/fetch retry loop
    TimedOut,
    /// Other IO-error
    GenericIOError(IoKind),
    /// Invalid parameter (not in range, does not make sense etc.)
    InvalidParameter,
    /// The parameter might be valid but is unsupported
    Unsupported,
    /// Another error
    Other(String),
}

/// How a transport failure kind surfaces to the caller when it is not
/// retried away: access-class kinds, read/write-class kinds, the exhausted
/// deadline, and a catch-all for the rest.
pub open spec fn spec_error_type_of_io(kind: IoKind) -> ErrorType {
    match kind {
        IoKind::NotFound => ErrorType::IOAccessError,
        IoKind::PermissionDenied => ErrorType::IOAccessError,
        IoKind::ConnectionReset => ErrorType::IOReadWriteError,
        IoKind::ConnectionAborted => ErrorType::IOReadWriteError,
        IoKind::BrokenPipe => ErrorType::IOReadWriteError,
        IoKind::UnexpectedEof => ErrorType::IOReadWriteError,
        IoKind::TimedOut => ErrorType::TimedOut,
        _ => ErrorType::GenericIOError(kind),
    }
}

impl From<IoKind> for ErrorType {
    fn from(kind: IoKind) -> (r: ErrorType) {
        match kind {
            IoKind::NotFound => ErrorType::IOAccessError,
            IoKind::PermissionDenied => ErrorType::IOAccessError,
            IoKind::ConnectionReset => ErrorType::IOReadWriteError,
            IoKind::ConnectionAborted => ErrorType::IOReadWriteError,
            IoKind::BrokenPipe => ErrorType::IOReadWriteError,
            IoKind::UnexpectedEof => ErrorType::IOReadWriteError,
            IoKind::TimedOut => ErrorType::TimedOut,
            _ => ErrorType::GenericIOError(kind),
        }
    }
}

impl vstd::std_specs::convert::FromSpecImpl<IoKind> for ErrorType {
    open spec fn obeys_from_spec() -> bool {
        true
    }

    open spec fn from_spec(kind: IoKind) -> ErrorType {
        spec_error_type_of_io(kind)
    }
}

/// An error-describing structure containing the error kind and a
/// description of what went wrong.
#[derive(Debug)]
pub struct Error {
    /// The error-type
    pub error_type: ErrorType,
    /// Description
    pub description: String,
}

impl Error {
    /// Builds an error of the given kind with an empty description.
    pub fn bare(error_type: ErrorType) -> (r: Error)
        ensures
            r.error_type == error_type,
            r.description@.len() == 0,
    {
        Error { error_type, description: String::new() }
    }

    /// Builds an error of the given kind carrying a description.
    pub fn with_text(error_type: ErrorType, description: &str) -> (r: Error)
        ensures
            r.error_type == error_type,
            r.description@ == description@,
    {
        Error { error_type, description: description.to_owned() }
    }

    /// Builds the error that surfaces an unretried transport failure.
    pub fn of_io(kind: IoKind) -> (r: Error)
        ensures
            r.error_type == spec_error_type_of_io(kind),
            r.description@.len() == 0,
    {
        Error { error_type: ErrorType::from(kind), description: String::new() }
    }
}

} // verus!
