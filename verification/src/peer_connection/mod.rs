//! The decisions of a connection to a peer: what to send, how to answer a
//! request, how to merge an index, and how to read the replies. The
//! connection itself (sockets, tasks, channels) runs around this logic.
pub mod cert_verifier;
pub mod delivery;
pub mod error;
pub mod handlers;
pub mod items;
pub mod requests;
pub mod wire;

use vstd::prelude::*;
use error::PeerCommandError;
use items::Response;

verus! {

/// When the submitter of a message wants to hear back about it.
#[derive(Clone, Copy, Debug, PartialEq, Eq, Structural)]
pub enum PeerRequestResponseType {
    /// Nothing at all (never submitted).
    Nothing,
    WhenReady,
    WhenSent,
    WhenResponse,
    WhenClosed,
}

/// What the submitter of a message hears back.
#[derive(Debug)]
pub enum PeerRequestResponse {
    Response(Response),
    Error(PeerCommandError),
    Sent,
    Closed,
}

} // verus!
