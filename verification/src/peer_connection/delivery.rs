//! A receipt for a message handed to a waiting submitter. Only `hand_over`
//! makes one, so a receipt shows that the send was made, to whom and with
//! what.
use vstd::prelude::*;
use super::requests::PeerRequestListener;
use super::PeerRequestResponse;

verus! {

/// The receipt of one message handed to one submitter.
pub struct Delivery {
    to: Ghost<PeerRequestListener>,
    what: Ghost<PeerRequestResponse>,
    received: bool,
}

impl Delivery {
    /// The submitter the message was handed to.
    pub closed spec fn to(&self) -> PeerRequestListener {
        self.to@
    }

    /// The message that was handed over.
    pub closed spec fn what(&self) -> PeerRequestResponse {
        self.what@
    }

    /// Whether the submitter still waited when the message came.
    pub closed spec fn was_received(&self) -> bool {
        self.received
    }

    /// Whether the submitter still waited when the message came.
    pub fn received(&self) -> (r: bool)
        ensures
            r == self.was_received(),
    {
        self.received
    }
}

/// `futures::channel::oneshot::Sender::send` on the listener's channel.
/// Trusted: the receipt names the listener and the message that went into
/// the call. Whether the receiving half still listened depends on the other
/// side, so nothing is stated of `was_received`.
#[verifier::external_body]
pub(crate) fn hand_over(listener: PeerRequestListener, r: PeerRequestResponse) -> (d: Delivery)
    ensures
        d.to() == listener,
        d.what() == r,
{
    let ghost to = listener;
    let ghost what = r;
    let received = listener.peer_connection.send(r).is_ok();
    Delivery { to: Ghost(to), what: Ghost(what), received }
}

} // verus!
