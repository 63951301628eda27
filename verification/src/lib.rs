//! Verified core of a Block Exchange Protocol (BEP) client: device IDs and
//! their text form, hex helpers, block lists and the local index of synced
//! directories, the rows the client stores, and the decisions a connection to
//! a peer makes (framing, requests and answers, index merging, the cluster
//! config, certificate checks, pending requests).

pub mod bep_state;
pub mod device_id;
pub mod digest;
pub mod models;
pub mod peer_connection;
pub mod random;
pub mod storage_backend;
pub mod sync_directory;
pub mod text;
pub mod util;

pub use device_id::DeviceID;

use vstd::prelude::*;

verus! {

/// Adds two numbers; the sum must fit in `usize`.
pub fn add(left: usize, right: usize) -> (r: usize)
    requires
        left + right <= usize::MAX,
    ensures
        r == left + right,
{
    left + right
}

} // verus!
