use selproxy::error::{AppError, ArgError, ConnError, IoKind, MainError};

#[test]
fn conn_error_messages() {
    assert_eq!(ConnError::NotHttp.message(), "not HTTP GET request");
    assert_eq!(ConnError::ParseError.message(), "unable to parse request");
    assert_eq!(ConnError::DnsError.message(), "unable to resolve host");
    assert_eq!(ConnError::Unknown.message(), "an unknown error occured");
    assert_eq!(ConnError::IOError(IoKind::Other).message(), "socket error");
}

#[test]
fn app_error_messages() {
    assert_eq!(AppError::Unknown.message(), "an unknown error occured");
    assert_eq!(AppError::IOError(IoKind::WouldBlock).message(), "socket error");
}

#[test]
fn main_error_wraps_both_sides() {
    assert!(matches!(MainError::from(ArgError::NoProxy), MainError::ArgError(ArgError::NoProxy)));
    assert!(matches!(MainError::from(AppError::Unknown), MainError::AppError(AppError::Unknown)));
}
