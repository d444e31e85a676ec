//! Error kinds of the protocol and of the reconnecting client, and the rule
//! that tells a transport failure (worth a redial) from any other failure.

use vstd::prelude::*;
use crate::text::{chars_of, contains_chars, contains_seq};

verus! {

/// The kind of an I/O failure, as the transport reported it.
#[derive(Debug, Clone, Copy, PartialEq, Eq, Structural)]
pub enum IoErrorKind {
    NotFound,
    PermissionDenied,
    ConnectionRefused,
    ConnectionReset,
    ConnectionAborted,
    NotConnected,
    AddrInUse,
    AddrNotAvailable,
    BrokenPipe,
    AlreadyExists,
    WouldBlock,
    InvalidInput,
    InvalidData,
    TimedOut,
    WriteZero,
    Interrupted,
    Unsupported,
    UnexpectedEof,
    OutOfMemory,
    Other,
}

/// An I/O failure: its kind and the message it displays as.
#[derive(Debug, Clone)]
pub struct IoError {
    pub kind: IoErrorKind,
    pub message: String,
}

impl IoError {
    pub fn new(kind: IoErrorKind, message: &str) -> (r: IoError)
        ensures
            r.kind == kind,
            r.message@ == message@,
    {
        IoError { kind, message: message.to_string() }
    }
}

/// A well-formed error frame sent by the server.
#[derive(Debug, Clone)]
pub struct ServerError {
    pub code: u32,
    pub detail: String,
}

/// Failure of a protocol operation.
#[derive(Debug, Clone)]
pub enum Error {
    Io(IoError),
    Tls(String),
    InvalidResponse(String),
    Server(ServerError),
    Timeout,
    Cancelled,
    ClientClosed,
    QueueFull,
}

impl Error {
    pub fn invalid_response(msg: &str) -> (r: Error)
        ensures
            r matches Error::InvalidResponse(m) && m@ == msg@,
    {
        Error::InvalidResponse(msg.to_string())
    }

    pub fn server(code: u32, detail: String) -> (r: Error)
        ensures
            r matches Error::Server(s) && s.code == code && s.detail@ == detail@,
    {
        Error::Server(ServerError { code, detail })
    }
}

/// Failure of a lookup in the snapshot store.
#[derive(Debug, Clone)]
pub enum StoreError {
    NotFound(String),
    InvalidInput(String),
    Corrupt(String),
}

/// What `str::to_lowercase` returns for the given characters.
pub uninterp spec fn lower_of(s: Seq<char>) -> Seq<char>;

/// Relies on `str::to_lowercase`: the result is the Unicode lower-case
/// mapping of the characters of `s`, a function of them alone.
#[verifier::external_body]
fn lowercase(s: &str) -> (r: String)
    ensures
        r@ == lower_of(s@),
{
    s.to_lowercase()
}

/// The message fragments that mark a transport failure, in lower case.
pub open spec fn connection_patterns() -> Seq<Seq<char>> {
    seq![
        "connection reset"@,
        "connection refused"@,
        "broken pipe"@,
        "use of closed network connection"@,
        "network is unreachable"@,
        "no route to host"@,
        "connection timed out"@,
        "i/o timeout"@,
    ]
}

/// A lower-cased message holds one of the transport-failure fragments.
pub open spec fn has_connection_pattern(lowered: Seq<char>) -> bool {
    exists|i: int| 0 <= i < connection_patterns().len() && contains_seq(lowered, #[trigger] connection_patterns()[i])
}

/// The I/O kinds that always mean the connection is gone.
pub open spec fn is_connection_kind(k: IoErrorKind) -> bool {
    match k {
        IoErrorKind::ConnectionReset
        | IoErrorKind::ConnectionAborted
        | IoErrorKind::BrokenPipe
        | IoErrorKind::ConnectionRefused
        | IoErrorKind::TimedOut
        | IoErrorKind::UnexpectedEof
        | IoErrorKind::NotConnected => true,
        _ => false,
    }
}

/// Whether a failure justifies a redial.
pub open spec fn connection_error(e: Error) -> bool {
    match e {
        Error::Io(io) => is_connection_kind(io.kind) || has_connection_pattern(lower_of(io.message@)),
        Error::Tls(m) => has_connection_pattern(lower_of(m@)),
        Error::InvalidResponse(m) => has_connection_pattern(lower_of(m@)),
        _ => false,
    }
}

fn connection_pattern(i: usize) -> (r: &'static str)
    requires
        i < connection_patterns().len(),
    ensures
        r@ == connection_patterns()[i as int],
{
    match i {
        0 => "connection reset",
        1 => "connection refused",
        2 => "broken pipe",
        3 => "use of closed network connection",
        4 => "network is unreachable",
        5 => "no route to host",
        6 => "connection timed out",
        _ => "i/o timeout",
    }
}

/// Whether an already lower-cased message holds a transport-failure fragment.
pub fn has_connection_pattern_lowered(lowered: &str) -> (r: bool)
    ensures
        r == has_connection_pattern(lowered@),
{
    let hay = chars_of(lowered);
    let mut i: usize = 0;
    while i < 8
        invariant
            hay@ == lowered@,
            i <= 8,
            forall|k: int| 0 <= k < i ==> !contains_seq(lowered@, #[trigger] connection_patterns()[k]),
        decreases 8 - i,
    {
        let p = chars_of(connection_pattern(i));
        if contains_chars(&hay, &p) {
            return true;
        }
        i = i + 1;
    }
    false
}

/// Whether `msg`, compared without regard to case, holds a
/// transport-failure fragment.
pub fn contains_connection_pattern(msg: &str) -> (r: bool)
    ensures
        r == has_connection_pattern(lower_of(msg@)),
{
    let lowered = lowercase(msg);
    has_connection_pattern_lowered(lowered.as_str())
}

/// Whether `err` is a transport failure after which a redial may help.
pub fn is_connection_error(err: &Error) -> (r: bool)
    ensures
        r == connection_error(*err),
{
    match err {
        Error::ClientClosed => false,
        Error::Server(_) => false,
        Error::Timeout => false,
        Error::Cancelled => false,
        Error::QueueFull => false,
        Error::Io(io) => match io.kind {
            IoErrorKind::ConnectionReset
            | IoErrorKind::ConnectionAborted
            | IoErrorKind::BrokenPipe
            | IoErrorKind::ConnectionRefused
            | IoErrorKind::TimedOut
            | IoErrorKind::UnexpectedEof
            | IoErrorKind::NotConnected => true,
            _ => contains_connection_pattern(io.message.as_str()),
        },
        Error::Tls(msg) => contains_connection_pattern(msg.as_str()),
        Error::InvalidResponse(msg) => contains_connection_pattern(msg.as_str()),
    }
}

/// Same rule as [`is_connection_error`], under the name other clients of
/// the protocol use.
#[allow(non_snake_case)]
pub fn IsConnectionError(err: &Error) -> (r: bool)
    ensures
        r == connection_error(*err),
{
    is_connection_error(err)
}

/// The closing, cancellation, deadline, queue and server-side failures are
/// never transport failures, whatever they carry.
pub proof fn lemma_terminal_errors_are_not_connection_errors(code: u32, detail: String)
    ensures
        !connection_error(Error::ClientClosed),
        !connection_error(Error::Server(ServerError { code, detail })),
        !connection_error(Error::Timeout),
        !connection_error(Error::Cancelled),
        !connection_error(Error::QueueFull),
{
}

/// A reset connection is a transport failure, whatever its message.
pub proof fn lemma_reset_is_connection_error(message: String)
    ensures
        connection_error(Error::Io(IoError { kind: IoErrorKind::ConnectionReset, message })),
{
}

/// A message whose lower-case form holds "connection refused" marks a
/// transport failure, on a TLS failure and on an I/O failure of any kind.
pub proof fn lemma_refused_message_is_connection_error(msg: String, kind: IoErrorKind)
    requires
        contains_seq(lower_of(msg@), "connection refused"@),
    ensures
        connection_error(Error::Tls(msg)),
        connection_error(Error::InvalidResponse(msg)),
        connection_error(Error::Io(IoError { kind, message: msg })),
{
    assert(connection_patterns()[1] == "connection refused"@);
}

} // verus!
