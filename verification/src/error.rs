//! The error type shared by the whole system.

use vstd::prelude::*;

verus! {

/// `std::io::Error`, carried through unchanged from the I/O layer.
#[verifier::external_type_specification]
#[verifier::external_body]
pub struct ExIoError(std::io::Error);

/// `serde_json::Error`, carried through unchanged from the JSON layer.
#[verifier::external_type_specification]
#[verifier::external_body]
pub struct ExJsonError(serde_json::Error);

/// Every failure the system reports.
#[derive(Debug)]
pub enum KvError {
    /// An I/O failure (network, reading or writing files).
    Io(std::io::Error),
    /// A JSON encoding or decoding failure.
    Serde(serde_json::Error),
    /// The data file exists but does not hold a valid snapshot.
    CorruptedData(String),
    /// The server sent a reply that could not be understood.
    InvalidResponse(String),
    /// The peer closed the connection unexpectedly.
    ConnectionClosed,
}

} // verus!
