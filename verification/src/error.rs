//! Error types of the proxy engine.
//!
//! Each per-connection failure is one `ConnError` variant; `AppError` covers
//! startup failures, `ArgError` command-line failures, and `MainError` wraps
//! the two for the process boundary. Socket errors reach the library as an
//! `IoKind`, the few error kinds the engine's decisions distinguish.

use vstd::prelude::*;

verus! {

/// The kinds of socket errors the engine tells apart. Every other kind is
/// `Other`; the engine treats them all alike (fatal for the connection).
#[derive(Clone, Copy, PartialEq, Eq, Structural, Debug)]
pub enum IoKind {
    WouldBlock,
    NotConnected,
    InvalidInput,
    Other,
}

/// A per-connection failure. It terminates only its own connection.
#[derive(Clone, Copy, PartialEq, Eq, Structural, Debug)]
pub enum ConnError {
    NotHttp,
    ParseError,
    DnsError,
    Unknown,
    IOError(IoKind),
}

/// A startup failure of the engine as a whole.
#[derive(Clone, Copy, PartialEq, Eq, Structural, Debug)]
pub enum AppError {
    Unknown,
    IOError(IoKind),
}

/// A command-line argument failure.
#[derive(Debug)]
pub enum ArgError {
    NoProxy,
    NoHosts,
    NoValue(String),
    WrongValue(String),
    Unknown(String),
}

/// Any failure that reaches the process boundary.
#[derive(Debug)]
pub enum MainError {
    ArgError(ArgError),
    AppError(AppError),
}

impl From<ArgError> for MainError {
    fn from(e: ArgError) -> (r: Self)
        ensures
            r == MainError::ArgError(e),
    {
        MainError::ArgError(e)
    }
}

impl vstd::std_specs::convert::FromSpecImpl<ArgError> for MainError {
    open spec fn obeys_from_spec() -> bool {
        true
    }

    open spec fn from_spec(e: ArgError) -> Self {
        MainError::ArgError(e)
    }
}

impl From<AppError> for MainError {
    fn from(e: AppError) -> (r: Self)
        ensures
            r == MainError::AppError(e),
    {
        MainError::AppError(e)
    }
}

impl vstd::std_specs::convert::FromSpecImpl<AppError> for MainError {
    open spec fn obeys_from_spec() -> bool {
        true
    }

    open spec fn from_spec(e: AppError) -> Self {
        MainError::AppError(e)
    }
}

impl ConnError {
    /// A short description of the failure.
    pub fn message(&self) -> (m: &'static str)
        ensures
            self is NotHttp ==> m@ == "not HTTP GET request"@,
            self is ParseError ==> m@ == "unable to parse request"@,
            self is DnsError ==> m@ == "unable to resolve host"@,
            self is Unknown ==> m@ == "an unknown error occured"@,
            self is IOError ==> m@ == "socket error"@,
    {
        match self {
            ConnError::NotHttp => "not HTTP GET request",
            ConnError::ParseError => "unable to parse request",
            ConnError::DnsError => "unable to resolve host",
            ConnError::Unknown => "an unknown error occured",
            ConnError::IOError(_) => "socket error",
        }
    }
}

impl AppError {
    /// A short description of the failure.
    pub fn message(&self) -> (m: &'static str)
        ensures
            self is Unknown ==> m@ == "an unknown error occured"@,
            self is IOError ==> m@ == "socket error"@,
    {
        match self {
            AppError::Unknown => "an unknown error occured",
            AppError::IOError(_) => "socket error",
        }
    }
}

} // verus!
