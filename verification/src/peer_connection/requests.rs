//! The requests a connection sent and still waits to hear back about, by
//! message id, with the channel on which each submitter waits.
use vstd::prelude::*;
use std::collections::HashMap;
use super::items::Response;
use super::delivery::{hand_over, Delivery};
use super::{PeerRequestResponse, PeerRequestResponseType};

verus! {

broadcast use vstd::std_specs::hash::group_hash_axioms;

/// `futures::channel::oneshot::Sender`, the half of a one-shot channel that
/// sends.
#[verifier::external_type_specification]
#[verifier::external_body]
#[verifier::reject_recursive_types(T)]
pub struct ExOneshotSender<T>(futures::channel::oneshot::Sender<T>);

/// A submitter waiting to hear back about message `id`.
pub struct PeerRequestListener {
    pub id: i32,
    pub response_type: PeerRequestResponseType,
    pub peer_connection: futures::channel::oneshot::Sender<PeerRequestResponse>,
}

/// What became of a response from the peer.
pub enum ResponseDelivery {
    /// Handed to the request that waited for it; the receipt says whether
    /// its submitter still waited (if not, a fatal error for the connection).
    Delivered(Delivery),
    /// No request waits under its id.
    Unsolicited,
    /// The request under its id waits for something else than a response
    /// (a fatal error for the connection).
    NotAwaitingResponse,
}

/// The requests waiting to hear back, keyed by message id.
pub struct PendingRequests {
    requests: HashMap<i32, PeerRequestListener>,
    ids: Vec<i32>,
}

impl PendingRequests {
    /// The waiting submitters, by message id.
    pub closed spec fn view(&self) -> Map<i32, PeerRequestListener> {
        self.requests@
    }

    /// The ids are exactly the keys of the table, each once.
    #[verifier::type_invariant]
    closed spec fn ids_match(&self) -> bool {
        &&& forall|k: i32| self.requests@.contains_key(k) <==> self.ids@.contains(k)
        &&& self.ids@.no_duplicates()
        &&& forall|k: i32| #[trigger] self.requests@.contains_key(k) ==> self.requests@[k].id == k
    }

    /// An empty table.
    pub fn new() -> (r: Self)
        ensures
            r@ == Map::<i32, PeerRequestListener>::empty(),
    {
        let r = PendingRequests { requests: HashMap::new(), ids: Vec::new() };
        proof {
            assert(r.requests@ =~= Map::empty());
        }
        r
    }

    /// Registers a submitter waiting about message `listener.id`; one that
    /// waited under the same id is dropped.
    pub fn register(&mut self, listener: PeerRequestListener)
        ensures
            final(self)@ == old(self)@.insert(listener.id, listener),
    {
        proof {
            use_type_invariant(&*self);
        }
        let id = listener.id;
        let ghost added = listener;
        let ghost old_map = self.requests@;
        let ghost old_ids = self.ids@;
        let mut taken = PendingRequests::new();
        std::mem::swap(&mut taken, self);
        let PendingRequests { mut requests, mut ids } = taken;
        let replaced = requests.insert(id, listener);
        match replaced {
            Some(_) => {},
            None => {
                ids.push(id);
                proof {
                    assert(!old_ids.contains(id));
                    assert forall|i: int, j: int| 0 <= i < j < ids@.len() implies ids@[i] != ids@[j] by {
                        if j == ids@.len() - 1 {
                            assert(old_ids.contains(ids@[i]));
                        }
                    }
                }
            },
        }
        proof {
            assert forall|k: i32| requests@.contains_key(k) <==> ids@.contains(k) by {
                if k == id {
                    if replaced is None {
                        assert(ids@[ids@.len() - 1] == id);
                    }
                } else {
                    if old_ids.contains(k) {
                        let w = choose|w: int| 0 <= w < old_ids.len() && old_ids[w] == k;
                        assert(ids@[w] == k);
                    }
                    if ids@.contains(k) {
                        let w = choose|w: int| 0 <= w < ids@.len() && ids@[w] == k;
                        assert(w < old_ids.len());
                        assert(old_ids[w] == k);
                    }
                }
            }
        }
        *self = PendingRequests { requests, ids };
        proof {
            assert(self@ =~= old(self)@.insert(id, added));
        }
    }

    /// Hands a response from the peer to the request waiting for it under
    /// the response's id, which then no longer waits.
    pub fn answer(&mut self, response: Response) -> (r: ResponseDelivery)
        ensures
            final(self)@ == old(self)@.remove(response.id),
            !old(self)@.contains_key(response.id) <==> r is Unsolicited,
            old(self)@.contains_key(response.id)
                && old(self)@[response.id].response_type != PeerRequestResponseType::WhenResponse
                ==> r is NotAwaitingResponse,
            old(self)@.contains_key(response.id)
                && old(self)@[response.id].response_type == PeerRequestResponseType::WhenResponse
                ==> (r matches ResponseDelivery::Delivered(d)
                    && d.to() == old(self)@[response.id]
                    && d.what() == PeerRequestResponse::Response(response)),
    {
        proof {
            use_type_invariant(&*self);
        }
        let id = response.id;
        let ghost old_map = self.requests@;
        let ghost old_ids = self.ids@;
        let mut taken = PendingRequests::new();
        std::mem::swap(&mut taken, self);
        let PendingRequests { mut requests, mut ids } = taken;
        let removed = requests.remove(&id);
        let r = match removed {
            None => {
                proof {
                    assert(requests@ =~= old_map);
                }
                ResponseDelivery::Unsolicited
            },
            Some(listener) => {
                let mut pos: usize = 0;
                while pos < ids.len() && ids[pos] != id
                    invariant
                        ids@ == old_ids,
                        old_ids.contains(id),
                        0 <= pos <= ids@.len(),
                        forall|q: int| 0 <= q < pos ==> ids@[q] != id,
                    decreases ids@.len() - pos,
                {
                    pos += 1;
                }
                proof {
                    assert(requests@ == old_map.remove(id));
                }
                if pos < ids.len() {
                    ids.remove(pos);
                    proof {
                        assert(old_ids[pos as int] == id);
                        assert forall|k: i32| ids@.contains(k) implies requests@.contains_key(k) by {
                            let w = choose|w: int| 0 <= w < ids@.len() && ids@[w] == k;
                            let ow = if w < pos { w } else { w + 1 };
                            assert(old_ids[ow] == k);
                            assert(ow != pos);
                            assert(k != id);
                            assert(old_ids.contains(k));
                            assert(old_map.contains_key(k));
                        }
                        assert forall|k: i32| requests@.contains_key(k) implies ids@.contains(k) by {
                            assert(k != id);
                            assert(old_map.contains_key(k));
                            assert(old_ids.contains(k));
                            let w = choose|w: int| 0 <= w < old_ids.len() && old_ids[w] == k;
                            assert(w != pos);
                            if w < pos {
                                assert(ids@[w] == k);
                            } else {
                                assert(ids@[w - 1] == k);
                            }
                        }
                        assert forall|i: int, j: int| 0 <= i < j < ids@.len() implies ids@[i] != ids@[j] by {
                            let oi = if i < pos { i } else { i + 1 };
                            let oj = if j < pos { j } else { j + 1 };
                            assert(old_ids[oi] == ids@[i]);
                            assert(old_ids[oj] == ids@[j]);
                        }
                    }
                } else {
                    proof {
                        let w = choose|w: int| 0 <= w < old_ids.len() && old_ids[w] == id;
                        assert(ids@[w] != id);
                    }
                }
                if listener.response_type != PeerRequestResponseType::WhenResponse {
                    ResponseDelivery::NotAwaitingResponse
                } else {
                    ResponseDelivery::Delivered(hand_over(listener, PeerRequestResponse::Response(response)))
                }
            },
        };
        *self = PendingRequests { requests, ids };
        proof {
            assert(self@ =~= old(self)@.remove(id));
        }
        r
    }

    /// Tells every waiting submitter that the connection closed; afterwards
    /// none waits. The receipts come one for each submitter that waited, in
    /// no particular order.
    pub fn close_all(&mut self) -> (told: Vec<Delivery>)
        ensures
            final(self)@ == Map::<i32, PeerRequestListener>::empty(),
            forall|i: int| 0 <= i < told@.len() ==> {
                &&& old(self)@.contains_key(#[trigger] told@[i].to().id)
                &&& told@[i].to() == old(self)@[told@[i].to().id]
                &&& told@[i].what() == PeerRequestResponse::Closed
            },
            forall|k: i32| old(self)@.contains_key(k)
                ==> exists|i: int| 0 <= i < told@.len() && #[trigger] told@[i].to().id == k,
            forall|i: int, j: int| 0 <= i < j < told@.len() ==> told@[i].to().id != told@[j].to().id,
    {
        proof {
            use_type_invariant(&*self);
        }
        let ghost old_map = self.requests@;
        let mut taken = PendingRequests::new();
        std::mem::swap(&mut taken, self);
        let PendingRequests { mut requests, mut ids } = taken;
        let mut told: Vec<Delivery> = Vec::new();
        while ids.len() > 0
            invariant
                forall|k: i32| requests@.contains_key(k) <==> ids@.contains(k),
                ids@.no_duplicates(),
                forall|k: i32| #[trigger] requests@.contains_key(k) ==> old_map.contains_key(k) && requests@[k] == old_map[k],
                forall|k: i32| #[trigger] old_map.contains_key(k) ==> old_map[k].id == k,
                forall|i: int| 0 <= i < told@.len() ==> {
                    &&& old_map.contains_key(#[trigger] told@[i].to().id)
                    &&& told@[i].to() == old_map[told@[i].to().id]
                    &&& told@[i].what() == PeerRequestResponse::Closed
                    &&& !requests@.contains_key(told@[i].to().id)
                },
                forall|k: i32| old_map.contains_key(k) ==> requests@.contains_key(k)
                    || exists|i: int| 0 <= i < told@.len() && #[trigger] told@[i].to().id == k,
                forall|i: int, j: int| 0 <= i < j < told@.len() ==> told@[i].to().id != told@[j].to().id,
            decreases ids@.len(),
        {
            let ghost before = ids@;
            let ghost before_map = requests@;
            let ghost before_told = told@;
            let id = ids.pop().unwrap();
            proof {
                assert(before.last() == id);
                assert(ids@ =~= before.drop_last());
                assert(!ids@.contains(id)) by {
                    if ids@.contains(id) {
                        let w = choose|w: int| 0 <= w < ids@.len() && ids@[w] == id;
                        assert(before[w] == before[before.len() - 1]);
                    }
                }
                assert(before.contains(id)) by {
                    assert(before[before.len() - 1] == id);
                }
                assert(before_map.contains_key(id));
            }
            let removed = requests.remove(&id);
            match removed {
                Some(listener) => {
                    let d = hand_over(listener, PeerRequestResponse::Closed);
                    told.push(d);
                    proof {
                        assert(told@[told@.len() - 1].to().id == id);
                        assert forall|i: int| 0 <= i < before_told.len() implies told@[i] == before_told[i] by {}
                        assert forall|i: int, j: int| 0 <= i < j < told@.len() implies told@[i].to().id != told@[j].to().id by {
                            if j == told@.len() - 1 {
                                assert(told@[i] == before_told[i]);
                                assert(!before_map.contains_key(before_told[i].to().id));
                            } else {
                                assert(told@[i] == before_told[i]);
                                assert(told@[j] == before_told[j]);
                            }
                        }
                        assert forall|k: i32| old_map.contains_key(k) implies requests@.contains_key(k)
                            || exists|i: int| 0 <= i < told@.len() && #[trigger] told@[i].to().id == k by {
                            if k == id {
                                assert(told@[told@.len() - 1].to().id == k);
                            } else if !before_map.contains_key(k) {
                                let i = choose|i: int| 0 <= i < before_told.len() && #[trigger] before_told[i].to().id == k;
                                assert(told@[i] == before_told[i]);
                            }
                        }
                    }
                },
                None => {
                    proof {
                        assert(false);
                    }
                },
            }
            proof {
                assert forall|k: i32| requests@.contains_key(k) <==> ids@.contains(k) by {
                    if k != id {
                        if before.contains(k) {
                            let w = choose|w: int| 0 <= w < before.len() && before[w] == k;
                            assert(w < before.len() - 1);
                            assert(ids@[w] == k);
                        }
                        if ids@.contains(k) {
                            let w = choose|w: int| 0 <= w < ids@.len() && ids@[w] == k;
                            assert(before[w] == k);
                        }
                    }
                }
            }
        }
        proof {
            assert(requests@ =~= Map::empty()) by {
                assert forall|k: i32| !requests@.contains_key(k) by {
                    assert(!ids@.contains(k));
                }
            }
        }
        *self = PendingRequests { requests, ids };
        told
    }
}

} // verus!
