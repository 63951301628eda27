//! The client's state, as the database rows hold it: how files, folders,
//! peers and this device's identity are turned into rows and read back.
use vstd::prelude::*;
use crate::device_id::{to_device_id, DeviceID};
use crate::digest::{sha256, sha256_digest, sha256_input_ok};
use crate::models::{self, copy_bytes, DeviceOption, FolderShare, Peer, PeerAddress, SyncFileBlock, SyncFileVersion, SyncFolder};
use crate::random::{is_ascii_alphanumeric, random_alphanumeric};
use crate::sync_directory::{bep_name, same_block, same_blocks, SyncBlock, SyncDirectory, SyncFile};

verus! {

/// `i` reinterpreted as unsigned: the same 64 bits.
pub open spec fn i64_bits(i: int) -> int {
    if i >= 0 {
        i
    } else {
        i + 0x1_0000_0000_0000_0000
    }
}

/// `u` reinterpreted as signed: the same 64 bits.
pub open spec fn u64_bits(u: int) -> int {
    if u < 0x8000_0000_0000_0000 {
        u
    } else {
        u - 0x1_0000_0000_0000_0000
    }
}

/// Reads a stored `i64` back as the `u64` it holds.
pub fn from_i64(i: i64) -> (r: u64)
    ensures
        r == i64_bits(i as int),
{
    proof {
        assert(i >= 0 ==> i as u64 == i) by (bit_vector);
        assert(i < 0 ==> i as u64 == i + 0x1_0000_0000_0000_0000) by (bit_vector);
    }
    #[verifier::truncate]
    let r = i as u64;
    r
}

/// Stores a `u64` in an `i64` column, keeping its bits.
pub fn from_u64(u: u64) -> (r: i64)
    ensures
        r == u64_bits(u as int),
{
    proof {
        assert(u < 0x8000_0000_0000_0000 ==> u as i64 == u) by (bit_vector);
        assert(u >= 0x8000_0000_0000_0000 ==> u as i64 == u - 0x1_0000_0000_0000_0000) by (bit_vector);
    }
    #[verifier::truncate]
    let r = u as i64;
    r
}

/// Law: a `u64` stored as `i64` reads back unchanged, and so does an `i64`
/// read as `u64` and stored again.
pub proof fn lemma_bits_roundtrip(u: u64, i: i64)
    ensures
        i64_bits(u64_bits(u as int)) == u,
        u64_bits(i64_bits(i as int)) == i,
{
}

/// The directory a folder row describes.
pub fn model_to_sync_dir(folder: SyncFolder) -> (r: SyncDirectory)
    ensures
        r.id@ == folder.id@,
        r.label@ == folder.label@,
        r.path == folder.dir_path,
{
    SyncDirectory { id: folder.id, label: folder.label, path: folder.dir_path }
}

/// The directories the folder rows describe, in order.
pub fn sync_directories_of(folders: Vec<SyncFolder>) -> (r: Vec<SyncDirectory>)
    ensures
        r@.len() == folders@.len(),
        forall|i: int| 0 <= i < folders@.len() ==> {
            &&& (#[trigger] r@[i]).id@ == folders@[i].id@
            &&& r@[i].label@ == folders@[i].label@
            &&& r@[i].path == folders@[i].dir_path
        },
{
    let ghost start = folders@;
    let mut folders = folders;
    let mut out: Vec<SyncDirectory> = Vec::new();
    let mut rest: Vec<SyncDirectory> = Vec::new();
    let n = folders.len();
    // Rows are taken from the back, then put back in order.
    while folders.len() > 0
        invariant
            n == start.len(),
            folders@ == start.take(folders@.len() as int),
            rest@.len() + folders@.len() == n,
            forall|k: int| 0 <= k < rest@.len() ==> {
                let j = n - 1 - k;
                &&& (#[trigger] rest@[k]).id@ == start[j].id@
                &&& rest@[k].label@ == start[j].label@
                &&& rest@[k].path == start[j].dir_path
            },
        decreases folders@.len(),
    {
        let f = folders.pop();
        match f {
            Some(f) => {
                proof {
                    assert(f == start[folders@.len() as int]);
                    assert(folders@ =~= start.take(folders@.len() as int));
                }
                rest.push(model_to_sync_dir(f));
            },
            None => {},
        }
    }
    while rest.len() > 0
        invariant
            n == start.len(),
            rest@.len() + out@.len() == n,
            forall|k: int| 0 <= k < rest@.len() ==> {
                let j = n - 1 - k;
                &&& (#[trigger] rest@[k]).id@ == start[j].id@
                &&& rest@[k].label@ == start[j].label@
                &&& rest@[k].path == start[j].dir_path
            },
            forall|i: int| 0 <= i < out@.len() ==> {
                &&& (#[trigger] out@[i]).id@ == start[i].id@
                &&& out@[i].label@ == start[i].label@
                &&& out@[i].path == start[i].dir_path
            },
        decreases rest@.len(),
    {
        let ghost before = rest@;
        let d = rest.pop();
        match d {
            Some(d) => {
                proof {
                    assert(d == before[before.len() - 1]);
                    assert forall|k: int| 0 <= k < rest@.len() implies {
                        let j = n - 1 - k;
                        &&& (#[trigger] rest@[k]).id@ == start[j].id@
                        &&& rest@[k].label@ == start[j].label@
                        &&& rest@[k].path == start[j].dir_path
                    } by {
                        assert(rest@[k] == before[k]);
                    }
                }
                out.push(d);
            },
            None => {},
        }
    }
    out
}

/// The first directory with the given id.
pub fn find_sync_directory(dirs: Vec<SyncDirectory>, folder_id: &String) -> (r: Option<SyncDirectory>)
    ensures
        r is Some ==> exists|i: int| 0 <= i < dirs@.len() && r->0 == dirs@[i]
            && (#[trigger] dirs@[i]).id@ == folder_id@
            && forall|j: int| 0 <= j < i ==> (#[trigger] dirs@[j]).id@ != folder_id@,
        r is None ==> forall|j: int| 0 <= j < dirs@.len() ==> (#[trigger] dirs@[j]).id@ != folder_id@,
{
    let mut i: usize = 0;
    while i < dirs.len()
        invariant
            0 <= i <= dirs@.len(),
            forall|j: int| 0 <= j < i ==> (#[trigger] dirs@[j]).id@ != folder_id@,
        decreases dirs@.len() - i,
    {
        if dirs[i].id == *folder_id {
            let mut dirs = dirs;
            let ghost all = dirs@;
            let d = dirs.remove(i);
            proof {
                assert(d == all[i as int]);
            }
            return Some(d);
        }
        i += 1;
    }
    None
}

/// `row` is how `file` of `dir` is stored: under its BEP name, with its
/// counters as `i64` bits and no sequence.
pub open spec fn is_row_of(row: models::SyncFile, dir: SyncDirectory, file: SyncFile) -> bool {
    &&& row.id == file.id
    &&& row.name@ == bep_name(file.path@)
    &&& row.modified_by == u64_bits(file.modified_by as int)
    &&& row.sequence == 0
    &&& row.synced_version_id == u64_bits(file.synced_version as int)
    &&& row.hash is Some
    &&& row.hash->0@ == file.hash@
    &&& row.folder_id@ == dir.id@
}

/// The row that stores `file` of `dir`.
pub fn sync_file_row(dir: &SyncDirectory, file: &SyncFile) -> (r: models::SyncFile)
    ensures
        is_row_of(r, *dir, *file),
{
    models::SyncFile {
        id: file.id,
        name: file.get_name(),
        modified_by: from_u64(file.modified_by),
        sequence: from_u64(0),
        synced_version_id: from_u64(file.synced_version),
        hash: Some(copy_bytes(&file.hash)),
        folder_id: dir.id.clone(),
    }
}

/// `row` stores version `v` of file `file_id`.
pub open spec fn is_version_row(row: SyncFileVersion, v: (u64, u64), file_id: i32) -> bool {
    &&& row.id is None
    &&& row.version_id == u64_bits(v.1 as int)
    &&& row.user_id == u64_bits(v.0 as int)
    &&& row.sync_file_id == file_id
}

/// The version rows to add for `file`, stored as `file_id`, when the first
/// `stored` of its versions are stored already: the rest, in order. The
/// database never holds more versions of a file than the file being stored.
pub fn versions_to_insert(file: &SyncFile, stored: usize, file_id: i32) -> (r: Vec<SyncFileVersion>)
    requires
        stored <= file.versions@.len(),
    ensures
        r@.len() == file.versions@.len() - stored,
        forall|k: int| 0 <= k < r@.len() ==> is_version_row(#[trigger] r@[k], file.versions@[stored + k], file_id),
{
    let mut out: Vec<SyncFileVersion> = Vec::new();
    let mut i: usize = stored;
    while i < file.versions.len()
        invariant
            stored <= i <= file.versions@.len(),
            out@.len() == i - stored,
            forall|k: int| 0 <= k < out@.len() ==> is_version_row(#[trigger] out@[k], file.versions@[stored + k], file_id),
        decreases file.versions@.len() - i,
    {
        let v = file.versions[i];
        out.push(SyncFileVersion { id: None, version_id: from_u64(v.1), user_id: from_u64(v.0), sync_file_id: file_id });
        i += 1;
    }
    out
}

/// `row` stores `block` of file `file_id`.
pub open spec fn is_block_row(row: SyncFileBlock, block: SyncBlock, file_id: i32) -> bool {
    &&& row.id is None
    &&& row.sync_file_id == file_id
    &&& row.offset == block.offset
    &&& row.size == block.size
    &&& row.hash@ == block.hash@
    &&& row.weak_hash == 0
}

/// The block rows that replace the stored blocks of `file`, stored as
/// `file_id`; `None` when the file has no blocks, in which case the stored
/// blocks are kept.
pub fn block_rows(file: &SyncFile, file_id: i32) -> (r: Option<Vec<SyncFileBlock>>)
    ensures
        file.blocks@.len() == 0 <==> r is None,
        r is Some ==> r->0@.len() == file.blocks@.len()
            && forall|k: int| 0 <= k < file.blocks@.len() ==> is_block_row(#[trigger] r->0@[k], file.blocks@[k], file_id),
{
    if file.blocks.len() == 0 {
        return None;
    }
    let mut out: Vec<SyncFileBlock> = Vec::new();
    let mut i: usize = 0;
    while i < file.blocks.len()
        invariant
            0 <= i <= file.blocks@.len(),
            out@.len() == i,
            forall|k: int| 0 <= k < i ==> is_block_row(#[trigger] out@[k], file.blocks@[k], file_id),
        decreases file.blocks@.len() - i,
    {
        let b = &file.blocks[i];
        out.push(SyncFileBlock { id: None, sync_file_id: file_id, offset: b.offset, size: b.size, hash: copy_bytes(&b.hash), weak_hash: 0 });
        i += 1;
    }
    Some(out)
}

/// The versions that version rows hold, in order.
pub open spec fn versions_of_rows(rows: Seq<SyncFileVersion>) -> Seq<(u64, u64)> {
    rows.map_values(|r: SyncFileVersion| (i64_bits(r.user_id as int) as u64, i64_bits(r.version_id as int) as u64))
}

/// The versions stored for a file (`get_versions`).
pub fn version_pairs(rows: &Vec<SyncFileVersion>) -> (r: Vec<(u64, u64)>)
    ensures
        r@ == versions_of_rows(rows@),
{
    let mut out: Vec<(u64, u64)> = Vec::new();
    let mut i: usize = 0;
    while i < rows.len()
        invariant
            0 <= i <= rows@.len(),
            out@ == versions_of_rows(rows@.take(i as int)),
        decreases rows@.len() - i,
    {
        out.push((from_i64(rows[i].user_id), from_i64(rows[i].version_id)));
        i += 1;
        proof {
            assert(versions_of_rows(rows@.take(i as int)) =~= versions_of_rows(rows@.take(i - 1)).push(
                (i64_bits(rows@[i - 1].user_id as int) as u64, i64_bits(rows@[i - 1].version_id as int) as u64),
            ));
        }
    }
    proof {
        assert(rows@.take(rows@.len() as int) =~= rows@);
    }
    out
}

/// `block` is what `row` stores.
pub open spec fn block_of_row(block: SyncBlock, row: SyncFileBlock) -> bool {
    &&& block.offset == row.offset
    &&& block.size == row.size
    &&& block.hash@ == row.hash@
}

/// The blocks that block rows hold, in order (`get_blocks`).
pub fn blocks_of_rows(rows: &Vec<SyncFileBlock>) -> (r: Vec<SyncBlock>)
    ensures
        r@.len() == rows@.len(),
        forall|k: int| 0 <= k < rows@.len() ==> #[trigger] block_of_row(r@[k], rows@[k]),
{
    let mut out: Vec<SyncBlock> = Vec::new();
    let mut i: usize = 0;
    while i < rows.len()
        invariant
            0 <= i <= rows@.len(),
            out@.len() == i,
            forall|k: int| 0 <= k < i ==> #[trigger] block_of_row(out@[k], rows@[k]),
        decreases rows@.len() - i,
    {
        out.push(SyncBlock { offset: rows[i].offset, size: rows[i].size, hash: copy_bytes(&rows[i].hash) });
        i += 1;
    }
    out
}

/// `file` is the entry that a file row, its version rows and its block rows
/// describe: its path is the stored name.
pub open spec fn is_file_of_rows(file: SyncFile, row: models::SyncFile, versions: Seq<SyncFileVersion>, blocks: Seq<SyncFileBlock>) -> bool {
    &&& file.id == row.id
    &&& file.path@ == row.name@
    &&& file.hash@ == row.hash->0@
    &&& file.modified_by == i64_bits(row.modified_by as int)
    &&& file.synced_version == i64_bits(row.synced_version_id as int)
    &&& file.versions@ == versions_of_rows(versions)
    &&& file.blocks@.len() == blocks.len()
    &&& forall|k: int| 0 <= k < blocks.len() ==> #[trigger] block_of_row(file.blocks@[k], blocks[k])
}

/// The entry stored in a file row, with its version and block rows. Stored
/// files have a hash and at least one version.
pub fn sync_file_of_rows(row: &models::SyncFile, versions: &Vec<SyncFileVersion>, blocks: &Vec<SyncFileBlock>) -> (r: SyncFile)
    requires
        row.hash is Some,
        versions@.len() > 0,
    ensures
        is_file_of_rows(r, *row, versions@, blocks@),
{
    let hash = match &row.hash {
        Some(h) => copy_bytes(h),
        None => Vec::new(),
    };
    SyncFile {
        id: row.id,
        path: row.name.clone(),
        hash,
        modified_by: from_i64(row.modified_by),
        synced_version: from_i64(row.synced_version_id),
        versions: version_pairs(versions),
        blocks: blocks_of_rows(blocks),
    }
}

/// Law: reading back a stored file gives the file that was stored. When a
/// file's row is written and read back under the id the database gave it,
/// with the version rows already stored (a prefix of its versions) followed
/// by those `versions_to_insert` adds, and its block rows, the entry read has
/// the file's hash, author, synced version, versions and blocks, and its BEP
/// name as path.
pub proof fn lemma_store_then_read(
    dir: SyncDirectory,
    file: SyncFile,
    row: models::SyncFile,
    stored: Seq<SyncFileVersion>,
    added: Seq<SyncFileVersion>,
    blocks: Seq<SyncFileBlock>,
    file_id: i32,
    read: SyncFile,
)
    requires
        is_row_of(row, dir, file),
        stored.len() <= file.versions@.len(),
        forall|k: int| 0 <= k < stored.len() ==> is_version_row(#[trigger] stored[k], file.versions@[k], file_id),
        added.len() == file.versions@.len() - stored.len(),
        forall|k: int| 0 <= k < added.len() ==> is_version_row(#[trigger] added[k], file.versions@[stored.len() + k], file_id),
        blocks.len() == file.blocks@.len(),
        forall|k: int| 0 <= k < blocks.len() ==> is_block_row(#[trigger] blocks[k], file.blocks@[k], file_id),
        is_file_of_rows(read, row, stored + added, blocks),
    ensures
        read.hash@ == file.hash@,
        read.modified_by == file.modified_by,
        read.synced_version == file.synced_version,
        read.versions@ == file.versions@,
        same_blocks(read.blocks@, file.blocks@),
        read.path@ == bep_name(file.path@),
{
    let all = stored + added;
    assert(versions_of_rows(all) =~= file.versions@) by {
        assert forall|k: int| 0 <= k < all.len() implies versions_of_rows(all)[k] == file.versions@[k] by {
            if k < stored.len() {
                assert(all[k] == stored[k]);
                assert(is_version_row(stored[k], file.versions@[k], file_id));
            } else {
                assert(all[k] == added[k - stored.len()]);
                assert(is_version_row(added[k - stored.len()], file.versions@[stored.len() + (k - stored.len())], file_id));
            }
        }
    }
    assert forall|k: int| 0 <= k < read.blocks@.len() implies #[trigger] same_block(read.blocks@[k], file.blocks@[k]) by {
        assert(block_of_row(read.blocks@[k], blocks[k]));
        assert(is_block_row(blocks[k], file.blocks@[k], file_id));
    }
}

/// The device ID of the device whose certificate is `cert`: its SHA-256
/// digest.
pub fn device_id_of_certificate(cert: &[u8]) -> (r: DeviceID)
    requires
        sha256_input_ok(cert@),
    ensures
        r@ == sha256(cert@),
{
    let hash = sha256_digest(cert);
    to_device_id(&hash)
}

/// The little-endian value of bytes.
pub open spec fn le_value(s: Seq<u8>) -> int
    decreases s.len(),
{
    if s.len() == 0 {
        0
    } else {
        s[0] + 0x100 * le_value(s.drop_first())
    }
}

/// The big-endian value of bytes.
pub open spec fn be_value(s: Seq<u8>) -> int
    decreases s.len(),
{
    if s.len() == 0 {
        0
    } else {
        be_value(s.drop_last()) * 0x100 + s.last()
    }
}

/// `u64::from_ne_bytes`. Trusted: std reads the bytes in the machine's
/// byte order, which is little or big endian.
#[verifier::external_body]
fn u64_from_ne_bytes(b: [u8; 8]) -> (r: u64)
    ensures
        r == le_value(b@) || r == be_value(b@),
{
    u64::from_ne_bytes(b)
}

/// The short form of a device ID: its first eight bytes as a `u64`, in the
/// machine's byte order.
pub fn short_id(id: &DeviceID) -> (r: u64)
    ensures
        r == le_value(id@.take(8)) || r == be_value(id@.take(8)),
{
    let b: [u8; 8] = [id[0], id[1], id[2], id[3], id[4], id[5], id[6], id[7]];
    proof {
        assert(b@ =~= id@.take(8));
    }
    u64_from_ne_bytes(b)
}

/// The name of this device: the stored one, or `Device` when no options are
/// stored.
pub fn device_name(options: Option<DeviceOption>) -> (r: String)
    ensures
        options is Some ==> r@ == options->0.device_name@,
        options is None ==> r@ == "Device"@,
{
    match options {
        Some(o) => o.device_name,
        None => String::from_str("Device"),
    }
}

/// `rcgen::Certificate`, a certificate with its key pair.
#[verifier::external_type_specification]
#[verifier::external_body]
pub struct ExCertificate(rcgen::Certificate);

/// `rcgen::generate_simple_self_signed` with the given subject alternative
/// names. Trusted, with nothing stated: the key pair is random. `None` where
/// rcgen returns an error.
#[verifier::external_body]
fn generate_self_signed(names: Vec<String>) -> (r: Option<rcgen::Certificate>) {
    rcgen::generate_simple_self_signed(names).ok()
}

/// `rcgen::Certificate::serialize_der`. Trusted, with nothing stated of the
/// bytes. `None` where rcgen returns an error.
#[verifier::external_body]
fn certificate_der(c: &rcgen::Certificate) -> (r: Option<Vec<u8>>) {
    c.serialize_der().ok()
}

/// `rcgen::Certificate::serialize_private_key_der`. Trusted, with nothing
/// stated of the bytes.
#[verifier::external_body]
fn private_key_der(c: &rcgen::Certificate) -> (r: Vec<u8>) {
    c.serialize_private_key_der()
}

/// The options of a new device with the given certificate and private key:
/// the single options row, named `Device`.
pub fn device_options_with(cert: Vec<u8>, key: Vec<u8>) -> (r: DeviceOption)
    ensures
        r.id == Some(1i32),
        r.device_name@ == "Device"@,
        r.cert@ == cert@,
        r.key@ == key@,
{
    DeviceOption { id: Some(1), device_name: String::from_str("Device"), cert, key }
}

/// The options of a new device, with a fresh self-signed certificate for
/// `syncthing` and its private key. `None` where rcgen fails (a fatal
/// error for the client).
pub fn new_device_options() -> (r: Option<DeviceOption>)
    ensures
        r is Some ==> r->0.id == Some(1i32) && r->0.device_name@ == "Device"@,
{
    let names: Vec<String> = vec![String::from_str("syncthing")];
    let cert = match generate_self_signed(names) {
        Some(c) => c,
        None => {
            return None;
        },
    };
    let der = match certificate_der(&cert) {
        Some(d) => d,
        None => {
            return None;
        },
    };
    let key = private_key_der(&cert);
    Some(device_options_with(der, key))
}

/// The row of a new folder: the given id, or a random one of twelve ASCII
/// letters and digits. (Callers first check that a folder has a path or an
/// id: without either it would exist neither here nor at a peer.)
pub fn new_sync_folder(path: Option<String>, label: String, id: Option<String>) -> (r: SyncFolder)
    ensures
        id is Some ==> r.id@ == id->0@,
        id is None ==> r.id@.len() == 12 && forall|i: int| 0 <= i < 12 ==> is_ascii_alphanumeric(#[trigger] r.id@[i]),
        r.label@ == label@,
        r.dir_path == path,
{
    let folder_id = match id {
        Some(i) => i,
        None => random_alphanumeric(12),
    };
    SyncFolder { id: folder_id, label, dir_path: path }
}

/// The ID of a peer given as bytes. Device IDs are 32 bytes.
pub fn peer_id_array(peer_id: &Vec<u8>) -> (r: DeviceID)
    requires
        peer_id@.len() == 32,
    ensures
        r@ == peer_id@,
{
    to_device_id(peer_id)
}

/// The row of a new peer.
pub fn new_peer(name: String, peer_id: &DeviceID) -> (r: Peer)
    ensures
        r.id is None,
        r.device_id is Some,
        r.device_id->0@ == peer_id@,
        r.name@ == name@,
{
    let mut id: Vec<u8> = Vec::new();
    let mut i: usize = 0;
    while i < 32
        invariant
            0 <= i <= 32,
            id@ == peer_id@.take(i as int),
        decreases 32 - i,
    {
        id.push(peer_id[i]);
        i += 1;
        proof {
            assert(peer_id@.take(i as int) =~= peer_id@.take(i - 1).push(peer_id@[i - 1]));
        }
    }
    proof {
        assert(peer_id@.take(32) =~= peer_id@);
    }
    Peer { id: None, device_id: Some(id), name }
}

/// The row that shares `directory` with `peer`; the peer must be stored
/// (it has an id).
pub fn folder_share(directory: &SyncDirectory, peer: &Peer) -> (r: FolderShare)
    requires
        peer.id is Some,
    ensures
        r.id is None,
        r.sync_folder_id@ == directory.id@,
        r.peer_id == peer.id->0,
{
    let pid = match peer.id {
        Some(p) => p,
        None => 0,
    };
    FolderShare { id: None, sync_folder_id: directory.id.clone(), peer_id: pid }
}

/// The row of an address of `peer`.
pub fn peer_address(peer: &Peer, addr: String) -> (r: PeerAddress)
    ensures
        r.id is None,
        r.address@ == addr@,
        r.peer_id == peer.id,
{
    PeerAddress { id: None, address: addr, peer_id: peer.id }
}

} // verus!

verus! {

/// `ring::signature::EcdsaKeyPair`, an ECDSA key pair.
#[verifier::external_type_specification]
#[verifier::external_body]
pub struct ExEcdsaKeyPair(ring::signature::EcdsaKeyPair);

/// `ring::signature::EcdsaKeyPair::from_pkcs8` with
/// `ECDSA_P256_SHA256_ASN1_SIGNING` and the system random source. Trusted,
/// with nothing stated: ring rejects keys that are not P-256 ECDSA keys in
/// PKCS#8, and also fails when the random source fails; the key pair is
/// opaque here.
#[verifier::external_body]
fn ecdsa_key_pair_from_pkcs8(key: &[u8]) -> (r: Option<ring::signature::EcdsaKeyPair>) {
    ring::signature::EcdsaKeyPair::from_pkcs8(
        &ring::signature::ECDSA_P256_SHA256_ASN1_SIGNING,
        key,
        &ring::rand::SystemRandom::new(),
    ).ok()
}

/// The signing key pair of this device, from its stored private key; `None`
/// where ring refuses it (a fatal error for the client).
pub fn key_pair_of(key: &Vec<u8>) -> (r: Option<ring::signature::EcdsaKeyPair>) {
    ecdsa_key_pair_from_pkcs8(key.as_slice())
}

} // verus!
