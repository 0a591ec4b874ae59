//! Error taxonomy of the transport and storage engine.
//!
//! Connection-scoped failures never outlive their connection: a handler that
//! fails with `IoError` or `ProtocolError` terminates alone, while listener
//! setup failures are fatal at startup and are not represented here.

use vstd::prelude::*;

verus! {

/// One failure class of the engine.
///
/// - `ConnectError`: transport establishment failed; surfaced to the caller.
/// - `IoError`: a read or write failed mid-transfer; terminates only the
///   affected connection.
/// - `ProtocolError`: a malformed header, wrong type tag, or wrong field
///   count; terminates only the affected connection.
/// - `InvalidInput`: a request rejected before any network activity, such as
///   sending a path that does not name a regular file.
#[derive(Clone, Copy, Debug, PartialEq, Eq, Structural)]
pub enum TransferError {
    ConnectError,
    IoError,
    ProtocolError,
    InvalidInput,
}

impl TransferError {
    /// A short human-readable description of the failure class.
    pub fn describe(&self) -> (r: &'static str)
        ensures
            self is ConnectError ==> r@ == "connection failed"@,
            self is IoError ==> r@ == "read or write failed"@,
            self is ProtocolError ==> r@ == "malformed protocol data"@,
            self is InvalidInput ==> r@ == "invalid input"@,
    {
        match self {
            TransferError::ConnectError => "connection failed",
            TransferError::IoError => "read or write failed",
            TransferError::ProtocolError => "malformed protocol data",
            TransferError::InvalidInput => "invalid input",
        }
    }
}

} // verus!
