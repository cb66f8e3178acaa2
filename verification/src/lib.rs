//! A persistent, networked key-value store: the verified core.
//!
//! The library holds the logic of the store (an ordered map of string keys
//! to string values), the command language of the command-line client, the
//! line framing of the wire protocol, the decisions that the server takes on
//! each request, and the encoding of the on-disk snapshot. Sockets, files,
//! threads and terminal output live in the companion application crate.

pub mod client;
pub mod error;
pub mod laws;
pub mod persistence;
pub mod protocol;
pub mod server;
pub mod store;
pub mod text;
