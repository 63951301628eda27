//! Errors of a peer connection and of the commands sent through one.
use vstd::prelude::*;

verus! {

/// `prost::DecodeError`, the error of decoding a protobuf message.
#[verifier::external_type_specification]
#[verifier::external_body]
pub struct ExDecodeError(prost::DecodeError);

/// `std::io::Error`.
#[verifier::external_type_specification]
#[verifier::external_body]
pub struct ExIoError(std::io::Error);

/// Fatal connection errors
#[derive(Debug)]
pub enum PeerConnectionError {
    UnknownPeer,
    InvalidMagicBytes,
    DecodeError(prost::DecodeError),
    TimeoutError,
    Other(String),
}

/// An error that may occur while asking something from a PeerConnection
#[derive(Debug)]
pub enum PeerCommandError {
    ConnectionClosed,
    InvalidFile,
    NoSuchFile,
    ConnectionError(PeerConnectionError),
    IOError(std::io::Error),
    UninitializedError,
    Other(String),
}

/// The text of a `prost::DecodeError` (its `Display`). Trusted, and nothing is
/// stated of the text: the error is opaque here.
#[verifier::external_body]
fn decode_error_text(e: &prost::DecodeError) -> (r: String) {
    format!("{}", e)
}

/// The text of a `std::io::Error` (its `Display`). Trusted, and nothing is
/// stated of the text: the error is opaque here.
#[verifier::external_body]
fn io_error_text(e: &std::io::Error) -> (r: String) {
    format!("{}", e)
}

/// `prost::DecodeError::clone`. Trusted: the type derives `Clone`, whose
/// copy equals the value copied.
#[verifier::external_body]
fn clone_decode_error(e: &prost::DecodeError) -> (r: prost::DecodeError)
    ensures
        r == *e,
{
    e.clone()
}

/// `prefix` followed by `rest`, as a new string.
pub(crate) fn concat_str(prefix: &str, rest: &str) -> (r: String)
    ensures
        r@ == prefix@ + rest@,
{
    let mut s = String::from_str(prefix);
    s.append(rest);
    s
}

/// Whether `e` is `PeerCommandError::Other` with message `msg`.
pub open spec fn is_other_error(e: PeerCommandError, msg: Seq<char>) -> bool {
    match e {
        PeerCommandError::Other(m) => m@ == msg,
        _ => false,
    }
}

/// Whether `e` is `PeerCommandError::Other` with a message that starts with
/// `prefix`.
pub open spec fn is_other_error_after(e: PeerCommandError, prefix: Seq<char>) -> bool {
    match e {
        PeerCommandError::Other(m) => m@.len() >= prefix.len() && m@.subrange(0, prefix.len() as int) == prefix,
        _ => false,
    }
}

/// The message of a connection error that carries no value.
pub open spec fn connection_error_message(e: PeerConnectionError) -> Seq<char> {
    match e {
        PeerConnectionError::UnknownPeer => "Unknown Peer"@,
        PeerConnectionError::InvalidMagicBytes => "Received invalid magic bytes"@,
        PeerConnectionError::DecodeError(_) => "Decode error: "@,
        PeerConnectionError::TimeoutError => "Connection timeout"@,
        PeerConnectionError::Other(_) => "Unknown error: "@,
    }
}

impl PeerConnectionError {
    /// The error as text: its fixed message, followed by the text of what it
    /// carries.
    pub fn describe(&self) -> (r: String)
        ensures
            match self {
                PeerConnectionError::Other(s) => r@ == "Unknown error: "@ + s@,
                PeerConnectionError::DecodeError(_) => r@.len() >= "Decode error: "@.len()
                    && r@.subrange(0, "Decode error: "@.len() as int) == "Decode error: "@,
                _ => r@ == connection_error_message(*self),
            },
    {
        match self {
            PeerConnectionError::UnknownPeer => String::from_str("Unknown Peer"),
            PeerConnectionError::InvalidMagicBytes => String::from_str("Received invalid magic bytes"),
            PeerConnectionError::DecodeError(e) => {
                let t = decode_error_text(e);
                let r = concat_str("Decode error: ", t.as_str());
                proof {
                    assert(r@.subrange(0, "Decode error: "@.len() as int) =~= "Decode error: "@);
                }
                r
            },
            PeerConnectionError::TimeoutError => String::from_str("Connection timeout"),
            PeerConnectionError::Other(s) => concat_str("Unknown error: ", s.as_str()),
        }
    }

    /// A copy of the error.
    pub fn duplicate(&self) -> (r: PeerConnectionError)
        ensures
            r == *self,
    {
        match self {
            PeerConnectionError::UnknownPeer => PeerConnectionError::UnknownPeer,
            PeerConnectionError::InvalidMagicBytes => PeerConnectionError::InvalidMagicBytes,
            PeerConnectionError::DecodeError(e) => PeerConnectionError::DecodeError(clone_decode_error(e)),
            PeerConnectionError::TimeoutError => PeerConnectionError::TimeoutError,
            PeerConnectionError::Other(s) => PeerConnectionError::Other(s.clone()),
        }
    }
}

impl PeerCommandError {
    /// The error as text: its fixed message, followed by the text of what it
    /// carries.
    pub fn describe(&self) -> (r: String)
        ensures
            match self {
                PeerCommandError::ConnectionClosed => r@ == "Connection closed unexpectedly."@,
                PeerCommandError::InvalidFile => r@ == "Invalid file requested"@,
                PeerCommandError::NoSuchFile => r@ == "Inexistent File Requested"@,
                PeerCommandError::UninitializedError => r@ == "Connection not yet initialized"@,
                PeerCommandError::Other(s) => r@ == "Unknown error type: "@ + s@,
                PeerCommandError::ConnectionError(e) => r@.len() >= "Error establishing connection: "@.len()
                    && r@.subrange(0, "Error establishing connection: "@.len() as int) == "Error establishing connection: "@,
                PeerCommandError::IOError(_) => r@.len() >= "I/O Error: "@.len()
                    && r@.subrange(0, "I/O Error: "@.len() as int) == "I/O Error: "@,
            },
    {
        match self {
            PeerCommandError::ConnectionClosed => String::from_str("Connection closed unexpectedly."),
            PeerCommandError::InvalidFile => String::from_str("Invalid file requested"),
            PeerCommandError::NoSuchFile => String::from_str("Inexistent File Requested"),
            PeerCommandError::UninitializedError => String::from_str("Connection not yet initialized"),
            PeerCommandError::Other(s) => concat_str("Unknown error type: ", s.as_str()),
            PeerCommandError::ConnectionError(e) => {
                let t = e.describe();
                let r = concat_str("Error establishing connection: ", t.as_str());
                proof {
                    assert(r@.subrange(0, "Error establishing connection: "@.len() as int)
                        =~= "Error establishing connection: "@);
                }
                r
            },
            PeerCommandError::IOError(e) => {
                let t = io_error_text(e);
                let r = concat_str("I/O Error: ", t.as_str());
                proof {
                    assert(r@.subrange(0, "I/O Error: "@.len() as int) =~= "I/O Error: "@);
                }
                r
            },
        }
    }
}

} // verus!
