use bep_rs::peer_connection::items::Response;
use bep_rs::peer_connection::requests::{PeerRequestListener, PendingRequests, ResponseDelivery};
use bep_rs::peer_connection::{PeerRequestResponse, PeerRequestResponseType};
use futures::channel::oneshot;

fn response(id: i32) -> Response {
    Response { id, data: vec![1, 2], code: 0 }
}

#[test]
fn responses_reach_their_request() {
    let mut table = PendingRequests::new();
    let (tx, mut rx) = oneshot::channel();
    table.register(PeerRequestListener { id: 5, response_type: PeerRequestResponseType::WhenResponse, peer_connection: tx });
    assert!(matches!(table.answer(response(6)), ResponseDelivery::Unsolicited));
    assert!(matches!(table.answer(response(5)), ResponseDelivery::Delivered(d) if d.received()));
    match rx.try_recv() {
        Ok(Some(PeerRequestResponse::Response(r))) => assert_eq!(r.data, vec![1, 2]),
        _ => panic!("the response should have arrived"),
    }
    // Answered once; a second response under the same id is unsolicited.
    assert!(matches!(table.answer(response(5)), ResponseDelivery::Unsolicited));
}

#[test]
fn mismatched_or_abandoned_requests() {
    let mut table = PendingRequests::new();
    let (tx, _rx) = oneshot::channel();
    table.register(PeerRequestListener { id: 1, response_type: PeerRequestResponseType::WhenReady, peer_connection: tx });
    assert!(matches!(table.answer(response(1)), ResponseDelivery::NotAwaitingResponse));
    let (tx, rx) = oneshot::channel();
    table.register(PeerRequestListener { id: 2, response_type: PeerRequestResponseType::WhenResponse, peer_connection: tx });
    drop(rx);
    assert!(matches!(table.answer(response(2)), ResponseDelivery::Delivered(d) if !d.received()));
}

#[test]
fn closing_tells_every_waiting_request() {
    let mut table = PendingRequests::new();
    let mut receivers = Vec::new();
    for id in 0..3 {
        let (tx, rx) = oneshot::channel();
        table.register(PeerRequestListener { id, response_type: PeerRequestResponseType::WhenResponse, peer_connection: tx });
        receivers.push(rx);
    }
    // Registering an id again replaces the earlier submitter, whose channel closes.
    let (tx, rx) = oneshot::channel();
    table.register(PeerRequestListener { id: 0, response_type: PeerRequestResponseType::WhenResponse, peer_connection: tx });
    let mut first = std::mem::replace(&mut receivers[0], rx);
    assert!(first.try_recv().is_err());
    let receipts = table.close_all();
    assert_eq!(receipts.len(), 3);
    assert!(receipts.iter().all(|d| d.received()));
    for mut rx in receivers {
        assert!(matches!(rx.try_recv(), Ok(Some(PeerRequestResponse::Closed))));
    }
    assert!(matches!(table.answer(response(0)), ResponseDelivery::Unsolicited));
    assert!(table.close_all().is_empty());
}
