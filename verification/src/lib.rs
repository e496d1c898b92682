//! A selective forward HTTP proxy engine.
//!
//! The crate holds the verified core of the proxy: request-line and
//! Host-header parsing, the case-insensitive routing decision, host:port
//! splitting, the DNS resolution cache, the per-connection state machine,
//! and the worker's live-set bookkeeping. Socket and thread plumbing lives
//! outside the library and drives these functions with plain values.

pub mod addr;
pub mod bytes;
pub mod config;
pub mod conn;
pub mod dns;
pub mod error;
pub mod parse;
pub mod worker;

pub use error::{AppError, ArgError, ConnError, IoKind, MainError};
