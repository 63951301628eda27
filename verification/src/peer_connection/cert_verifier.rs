//! Which peer a TLS certificate belongs to: a peer's device ID is the
//! SHA-256 digest of its certificate.
use vstd::prelude::*;
use crate::digest::{sha256, sha256_digest, sha256_input_ok};
use crate::models::copy_bytes;
use crate::sync_directory::comp_hashes;

verus! {

/// Compares two byte arrays, as the certificate check does.
pub fn compare_arrays(arr1: &[u8], arr2: &[u8]) -> (r: bool)
    ensures
        r == (arr1@ == arr2@),
{
    comp_hashes(arr1, arr2)
}

/// The device ID a certificate proves, if it is one of `peer_ids`: the first
/// of them that equals the certificate's digest.
pub fn check_cert(cert: &[u8], peer_ids: &Vec<Vec<u8>>) -> (r: Option<Vec<u8>>)
    requires
        sha256_input_ok(cert@),
    ensures
        r is Some ==> r->0@ == sha256(cert@)
            && exists|i: int| 0 <= i < peer_ids@.len() && #[trigger] peer_ids@[i]@ == sha256(cert@),
        r is None ==> forall|i: int| 0 <= i < peer_ids@.len() ==> #[trigger] peer_ids@[i]@ != sha256(cert@),
{
    let hash = sha256_digest(cert);
    let mut i: usize = 0;
    while i < peer_ids.len()
        invariant
            0 <= i <= peer_ids@.len(),
            hash@ == sha256(cert@),
            forall|j: int| 0 <= j < i ==> #[trigger] peer_ids@[j]@ != sha256(cert@),
        decreases peer_ids@.len() - i,
    {
        if compare_arrays(hash.as_slice(), peer_ids[i].as_slice()) {
            assert(peer_ids@[i as int]@ == sha256(cert@));
            return Some(copy_bytes(&peer_ids[i]));
        }
        i += 1;
    }
    None
}

} // verus!

verus! {

/// Law: a connection accepts the certificate of every known peer. When the
/// accepted IDs are those of the known peers (as `peer_device_ids` gives
/// them) and a peer's device ID is the certificate's digest, the check finds
/// an ID, and that ID is the digest.
pub proof fn lemma_known_peer_accepted(
    peers: Seq<crate::models::Peer>,
    ids: Seq<Vec<u8>>,
    k: int,
    cert: Seq<u8>,
    r: Option<Vec<u8>>,
)
    requires
        ids.len() == peers.len(),
        forall|i: int| 0 <= i < peers.len() ==> super::handlers::peer_has_id(#[trigger] peers[i], ids[i]@),
        0 <= k < peers.len(),
        peers[k].device_id is Some,
        peers[k].device_id->0@ == sha256(cert),
        r is Some ==> r->0@ == sha256(cert),
        r is None ==> forall|i: int| 0 <= i < ids.len() ==> #[trigger] ids[i]@ != sha256(cert),
    ensures
        r is Some,
        r->0@ == peers[k].device_id->0@,
{
    assert(super::handlers::peer_has_id(peers[k], ids[k]@));
    assert(ids[k]@ == sha256(cert));
}

} // verus!
