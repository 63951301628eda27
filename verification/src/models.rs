//! The rows of the client's database, as plain values.
use vstd::prelude::*;

verus! {

/// A copy of a byte vector.
pub fn copy_bytes(v: &Vec<u8>) -> (r: Vec<u8>)
    ensures
        r@ == v@,
{
    let r = v.clone();
    proof {
        assert(r@ =~= v@);
    }
    r
}

/// The options of this device: its name and its TLS certificate and key.
#[derive(Debug)]
pub struct DeviceOption {
    pub id: Option<i32>,
    pub device_name: String,
    pub cert: Vec<u8>,
    pub key: Vec<u8>,
}

/// A folder row. A folder without a path belongs to a peer and has not been
/// accepted here yet.
#[derive(Debug)]
pub struct SyncFolder {
    pub id: String,
    pub label: String,
    pub dir_path: Option<String>,
}

/// A known peer.
#[derive(Debug)]
pub struct Peer {
    pub id: Option<i32>,
    pub device_id: Option<Vec<u8>>,
    pub name: String,
}

/// A folder shared with a peer.
#[derive(Debug)]
pub struct FolderShare {
    pub id: Option<i32>,
    pub sync_folder_id: String,
    pub peer_id: i32,
}

/// An address where a peer can be reached.
#[derive(Debug)]
pub struct PeerAddress {
    pub id: Option<i32>,
    pub address: String,
    pub peer_id: Option<i32>,
}

/// A file row. Counters are stored as `i64` with the bits of the `u64`.
#[derive(Debug)]
pub struct SyncFile {
    pub id: Option<i32>,
    pub name: String,
    pub modified_by: i64,
    pub sequence: i64,
    pub synced_version_id: i64,
    pub hash: Option<Vec<u8>>,
    pub folder_id: String,
}

/// A version row of a file.
#[derive(Debug)]
pub struct SyncFileVersion {
    pub id: Option<i32>,
    pub version_id: i64,
    pub user_id: i64,
    pub sync_file_id: i32,
}

/// A block row of a file.
#[derive(Debug)]
pub struct SyncFileBlock {
    pub id: Option<i32>,
    pub sync_file_id: i32,
    pub offset: i64,
    pub size: i32,
    pub hash: Vec<u8>,
    pub weak_hash: i32,
}

impl Peer {
    /// A copy of the peer.
    pub fn duplicate(&self) -> (r: Peer)
        ensures
            r.id == self.id,
            r.name@ == self.name@,
            r.device_id is Some <==> self.device_id is Some,
            r.device_id is Some ==> r.device_id->0@ == self.device_id->0@,
    {
        let device_id = match &self.device_id {
            Some(d) => Some(copy_bytes(d)),
            None => None,
        };
        Peer { id: self.id, device_id, name: self.name.clone() }
    }
}

} // verus!
