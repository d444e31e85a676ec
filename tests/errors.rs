use cxdb::error::{
    contains_connection_pattern, is_connection_error, Error, IoError, IoErrorKind,
    IsConnectionError, ServerError,
};

#[test]
fn is_connection_error_matches_basic_cases() {
    assert!(!is_connection_error(&Error::ClientClosed));
    assert!(!is_connection_error(&Error::Server(ServerError {
        code: 404,
        detail: "not found".into()
    })));
    assert!(is_connection_error(&Error::Io(IoError::new(
        IoErrorKind::ConnectionReset,
        "reset"
    ))));
    assert!(is_connection_error(&Error::Io(IoError::new(
        IoErrorKind::TimedOut,
        "timeout"
    ))));
    assert!(is_connection_error(&Error::Tls("connection refused".into())));
    assert!(is_connection_error(&Error::Io(IoError::new(
        IoErrorKind::Other,
        "use of closed network connection"
    ))));
}

#[test]
fn terminal_errors_are_not_connection_errors() {
    for e in [Error::Timeout, Error::Cancelled, Error::QueueFull, Error::ClientClosed] {
        assert!(!is_connection_error(&e));
        assert!(!IsConnectionError(&e));
    }
    assert!(!is_connection_error(&Error::Server(ServerError {
        code: 1,
        detail: "connection refused".into()
    })));
}

#[test]
fn every_connection_kind_counts() {
    for k in [
        IoErrorKind::ConnectionReset,
        IoErrorKind::ConnectionAborted,
        IoErrorKind::BrokenPipe,
        IoErrorKind::ConnectionRefused,
        IoErrorKind::TimedOut,
        IoErrorKind::UnexpectedEof,
        IoErrorKind::NotConnected,
    ] {
        assert!(is_connection_error(&Error::Io(IoError::new(k, ""))));
    }
    assert!(!is_connection_error(&Error::Io(IoError::new(IoErrorKind::NotFound, "no such file"))));
    assert!(!is_connection_error(&Error::Io(IoError::new(IoErrorKind::PermissionDenied, ""))));
}

#[test]
fn messages_match_without_regard_to_case() {
    assert!(is_connection_error(&Error::Tls("Connection REFUSED by peer".into())));
    assert!(is_connection_error(&Error::InvalidResponse("read: I/O Timeout".into())));
    assert!(is_connection_error(&Error::Io(IoError::new(IoErrorKind::Other, "No Route To Host"))));
    assert!(!is_connection_error(&Error::Tls("certificate expired".into())));
    assert!(!is_connection_error(&Error::InvalidResponse("connection".into())));
}

#[test]
fn all_patterns_are_recognised() {
    for p in [
        "connection reset",
        "connection refused",
        "broken pipe",
        "use of closed network connection",
        "network is unreachable",
        "no route to host",
        "connection timed out",
        "i/o timeout",
    ] {
        assert!(contains_connection_pattern(&format!("xx {} yy", p.to_uppercase())));
    }
    assert!(!contains_connection_pattern(""));
    assert!(!contains_connection_pattern("connectionreset"));
}
