//! What a connection decides: which peer it talks to, how it answers a
//! request, how it reads the answer to its own request, how it merges a
//! peer's index and what it announces about itself.
use vstd::prelude::*;
use crate::device_id::DeviceID;
use crate::digest::{sha256, sha256_digest, sha256_input_ok};
use crate::models::{copy_bytes, Peer};
use crate::sync_directory::{
    bep_name, block_views, comp_hashes, file_views, index_version_spec, SyncBlock, SyncBlockView, SyncDirectory,
    SyncFile, SyncFileView,
};
use super::error::{is_other_error, is_other_error_after, PeerCommandError, PeerConnectionError};
use super::items::{
    error_code, error_code_from_i32, error_code_of, error_code_spec, BlockInfo, ClusterConfig,
    Counter, Device, ErrorCode, FileInfo, Folder, Index, Request, Response, Vector,
    FILE_INFO_TYPE_FILE,
};
use super::{PeerRequestResponse, PeerRequestResponseType};

verus! {

/// Whether `peer` is the device with ID `id`; a peer without a known
/// device ID counts as having the empty ID.
pub open spec fn peer_has_id(peer: Peer, id: Seq<u8>) -> bool {
    match peer.device_id {
        Some(d) => d@ == id,
        None => id.len() == 0,
    }
}

/// Position of the first peer with device ID `id`.
pub fn find_peer(peers: &Vec<Peer>, id: &[u8]) -> (r: Option<usize>)
    ensures
        r is Some ==> r->0 < peers@.len() && peer_has_id(peers@[r->0 as int], id@)
            && forall|j: int| 0 <= j < r->0 ==> !peer_has_id(#[trigger] peers@[j], id@),
        r is None ==> forall|j: int| 0 <= j < peers@.len() ==> !peer_has_id(#[trigger] peers@[j], id@),
{
    let mut i: usize = 0;
    while i < peers.len()
        invariant
            0 <= i <= peers@.len(),
            forall|j: int| 0 <= j < i ==> !peer_has_id(#[trigger] peers@[j], id@),
        decreases peers@.len() - i,
    {
        let matches = match &peers[i].device_id {
            Some(d) => comp_hashes(d.as_slice(), id),
            None => id.len() == 0,
        };
        proof {
            assert(matches == peer_has_id(peers@[i as int], id@));
        }
        if matches {
            return Some(i);
        }
        i += 1;
    }
    None
}

/// The peer a connection talks to, among the known peers, given the device
/// ID its TLS handshake showed (`None` until the handshake is done). An
/// unknown device is refused; the caller then closes the connection.
pub fn select_peer(peers: Vec<Peer>, peer_id: &Option<Vec<u8>>) -> (r: Result<Peer, PeerCommandError>)
    ensures
        peer_id is None ==> r == Err::<Peer, PeerCommandError>(PeerCommandError::UninitializedError),
        peer_id is Some ==> {
            let id = peer_id->0@;
            &&& r is Ok ==> exists|i: int| 0 <= i < peers@.len() && peer_has_id(peers@[i], id)
                && (forall|j: int| 0 <= j < i ==> !peer_has_id(#[trigger] peers@[j], id))
                && r->Ok_0 == peers@[i]
            &&& r is Err ==> r->Err_0 == PeerCommandError::ConnectionError(PeerConnectionError::UnknownPeer)
                && forall|j: int| 0 <= j < peers@.len() ==> !peer_has_id(#[trigger] peers@[j], id)
        },
{
    match peer_id {
        None => Err(PeerCommandError::UninitializedError),
        Some(id) => {
            let mut peers = peers;
            let ghost old_peers = peers@;
            match find_peer(&peers, id.as_slice()) {
                Some(i) => {
                    let p = peers.remove(i);
                    proof {
                        assert(p == old_peers[i as int]);
                    }
                    Ok(p)
                },
                None => Err(PeerCommandError::ConnectionError(PeerConnectionError::UnknownPeer)),
            }
        },
    }
}

/// The device IDs a connection accepts in the TLS handshake: those of the
/// known peers, the empty ID for a peer whose ID is unknown.
pub fn peer_device_ids(peers: &Vec<Peer>) -> (r: Vec<Vec<u8>>)
    ensures
        r@.len() == peers@.len(),
        forall|i: int| 0 <= i < peers@.len() ==> peer_has_id(#[trigger] peers@[i], r@[i]@),
{
    let mut out: Vec<Vec<u8>> = Vec::new();
    let mut i: usize = 0;
    while i < peers.len()
        invariant
            0 <= i <= peers@.len(),
            out@.len() == i,
            forall|k: int| 0 <= k < i ==> peer_has_id(#[trigger] peers@[k], out@[k]@),
        decreases peers@.len() - i,
    {
        let id = match &peers[i].device_id {
            Some(d) => copy_bytes(d),
            None => Vec::new(),
        };
        out.push(id);
        i += 1;
    }
    out
}

/// The state of a connection, from the error it stored when it failed:
/// `Ok` unless a fatal error was stored.
pub fn connection_status(error: &Option<Option<PeerConnectionError>>) -> (r: Result<(), PeerConnectionError>)
    ensures
        match error {
            Some(Some(e)) => r == Err::<(), PeerConnectionError>(*e),
            _ => r is Ok,
        },
{
    match error {
        Some(Some(e)) => Err(e.duplicate()),
        Some(None) => Ok(()),
        None => Ok(()),
    }
}

/// Whether a submitted message carries the submitter's channel with it (to
/// hear when it was sent), rather than registering it to wait for a
/// response. Every submission wants to hear back in some way.
pub fn notifies_when_sent(response_type: PeerRequestResponseType) -> (r: bool)
    requires
        response_type != PeerRequestResponseType::Nothing,
    ensures
        r == (response_type == PeerRequestResponseType::WhenSent),
{
    response_type == PeerRequestResponseType::WhenSent
}

/// `base` with `name` pushed onto it as `PathBuf::push` does on Unix: an
/// absolute `name` replaces the path; otherwise a separator is added unless
/// `base` is empty or already ends with one.
pub open spec fn push_path(base: Seq<char>, name: Seq<char>) -> Seq<char> {
    if name.len() > 0 && name[0] == '/' {
        name
    } else if base.len() == 0 || base.last() == '/' {
        base + name
    } else {
        base + seq!['/'] + name
    }
}

pub fn path_push(base: &String, name: &String) -> (r: String)
    ensures
        r@ == push_path(base@, name@),
{
    let b = base.as_str();
    let n = name.as_str();
    if n.unicode_len() > 0 && n.get_char(0) == '/' {
        return name.clone();
    }
    let bl = b.unicode_len();
    if bl == 0 || b.get_char(bl - 1) == '/' {
        let mut r = base.clone();
        r.append(n);
        r
    } else {
        let mut r = base.clone();
        r.append("/");
        proof {
            reveal_strlit("/");
        }
        r.append(n);
        r
    }
}

/// Where a file of a synced directory lies on disk.
pub open spec fn file_path_spec(directory: SyncDirectory, file: SyncFile) -> Seq<char> {
    push_path(directory.path->0@, file.path@)
}

/// The path of a file of `directory`; an error for a directory that has no
/// local path.
pub fn directory_file_path(directory: &SyncDirectory, file: &SyncFile) -> (r: Result<String, PeerCommandError>)
    ensures
        directory.path is None ==> r is Err
            && is_other_error(r->Err_0, "Requested get of non-synced directory"@),
        directory.path is Some ==> r is Ok && r->Ok_0@ == file_path_spec(*directory, *file),
{
    match &directory.path {
        None => {
            let m = String::from_str("Requested get of non-synced directory");
            Err(PeerCommandError::Other(m))
        },
        Some(p) => Ok(path_push(p, &file.path)),
    }
}

/// Whether a file of a directory being synced must be fetched from the peer:
/// it is missing on disk, or a version newer than the synced one exists.
pub fn needs_fetch(file: &SyncFile, exists_on_disk: bool) -> (r: bool)
    ensures
        r == (!exists_on_disk || file.synced_version < index_version_spec(file.versions@)),
{
    !exists_on_disk || file.synced_version < file.get_index_version()
}

} // verus!

verus! {

/// `r` answers request `id` with `data` and result code `code`.
pub open spec fn response_is(r: Response, id: i32, data: Seq<u8>, code: ErrorCode) -> bool {
    &&& r.id == id
    &&& r.data@ == data
    &&& r.code == error_code_spec(code)
}

/// The code of the answer to a request whose file has contents `data`: the
/// file is refused when the request names a hash and the contents do not
/// have it.
pub open spec fn answer_code(request_hash: Seq<u8>, data: Seq<u8>) -> ErrorCode {
    if request_hash.len() > 0 && sha256(data) != request_hash {
        ErrorCode::InvalidFile
    } else {
        ErrorCode::NoError
    }
}

/// Where to read the file a peer requested, or the answer when there is
/// nothing to read: a folder that does not exist or is not shared with the
/// peer is answered `InvalidFile`; a shared folder without a local path has
/// no files (`NoSuchFile`).
pub fn request_target(request: &Request, directory: &Option<SyncDirectory>, shared: bool) -> (r: Result<String, Response>)
    ensures
        (directory is None || !shared) ==> r is Err
            && response_is(r->Err_0, request.id, Seq::empty(), ErrorCode::InvalidFile),
        directory is Some && shared && directory->0.path is None ==> r is Err
            && response_is(r->Err_0, request.id, Seq::empty(), ErrorCode::NoSuchFile),
        directory is Some && shared && directory->0.path is Some ==> r is Ok
            && r->Ok_0@ == push_path(directory->0.path->0@, request.name@),
{
    match directory {
        None => Err(Response { id: request.id, data: Vec::new(), code: error_code(ErrorCode::InvalidFile) }),
        Some(dir) => {
            if !shared {
                return Err(Response { id: request.id, data: Vec::new(), code: error_code(ErrorCode::InvalidFile) });
            }
            match &dir.path {
                None => Err(missing_file_response(request)),
                Some(p) => Ok(path_push(p, &request.name)),
            }
        },
    }
}

/// The answer to a request for a file that cannot be opened.
pub fn missing_file_response(request: &Request) -> (r: Response)
    ensures
        response_is(r, request.id, Seq::empty(), ErrorCode::NoSuchFile),
{
    Response { id: request.id, data: Vec::new(), code: error_code(ErrorCode::NoSuchFile) }
}

/// The answer to a request, given the contents of the requested file: the
/// contents, with `InvalidFile` when the request names a hash the contents
/// do not have, `NoError` otherwise.
pub fn answer_with_contents(request: &Request, data: Vec<u8>) -> (r: Response)
    requires
        sha256_input_ok(data@),
    ensures
        response_is(r, request.id, data@, answer_code(request.hash@, data@)),
{
    let hash = sha256_digest(data.as_slice());
    let mismatch = request.hash.len() > 0 && !comp_hashes(hash.as_slice(), request.hash.as_slice());
    if mismatch {
        Response { id: request.id, data, code: error_code(ErrorCode::InvalidFile) }
    } else {
        Response { id: request.id, data, code: error_code(ErrorCode::NoError) }
    }
}

/// `r` is the request for the single block of `file` in `directory`, with
/// message id `id`.
pub open spec fn request_for_file(r: Request, directory: SyncDirectory, file: SyncFile, id: i32) -> bool {
    &&& r.id == id
    &&& r.folder@ == directory.id@
    &&& r.name@ == bep_name(file.path@)
    &&& r.offset == 0
    &&& r.size == file.blocks@[0].size
    &&& r.hash@ == file.blocks@[0].hash@
    &&& !r.from_temporary
    &&& r.weak_hash == 0
    &&& r.block_no == 0
}

/// The request for a file, with message id `message_id`. Only files of one
/// block can be requested.
pub fn file_request(directory: &SyncDirectory, sync_file: &SyncFile, message_id: i32) -> (r: Result<Request, PeerCommandError>)
    ensures
        sync_file.blocks@.len() == 0 ==> r is Err && is_other_error(r->Err_0, "File object has no blocks"@),
        sync_file.blocks@.len() > 1 ==> r is Err
            && is_other_error(r->Err_0, "Multi-block files are unsupported :/"@),
        sync_file.blocks@.len() == 1 ==> r is Ok
            && request_for_file(r->Ok_0, *directory, *sync_file, message_id),
{
    if sync_file.blocks.len() == 0 {
        return Err(PeerCommandError::Other(String::from_str("File object has no blocks")));
    } else if sync_file.blocks.len() != 1 {
        return Err(PeerCommandError::Other(String::from_str("Multi-block files are unsupported :/")));
    }
    let block = &sync_file.blocks[0];
    let name = sync_file.get_name();
    Ok(Request {
        id: message_id,
        folder: directory.id.clone(),
        name,
        offset: 0,
        size: block.size,
        hash: copy_bytes(&block.hash),
        from_temporary: false,
        weak_hash: 0,
        block_no: 0,
    })
}

/// The request for a file under a fresh random message id.
pub fn new_file_request(directory: &SyncDirectory, sync_file: &SyncFile) -> (r: Result<Request, PeerCommandError>)
    ensures
        sync_file.blocks@.len() == 0 ==> r is Err && is_other_error(r->Err_0, "File object has no blocks"@),
        sync_file.blocks@.len() > 1 ==> r is Err
            && is_other_error(r->Err_0, "Multi-block files are unsupported :/"@),
        sync_file.blocks@.len() == 1 ==> r is Ok
            && request_for_file(r->Ok_0, *directory, *sync_file, r->Ok_0.id),
{
    let message_id = crate::random::random_i32();
    file_request(directory, sync_file, message_id)
}

/// A file received from a peer, to be written to disk: where, what, and
/// the entry to store afterwards.
#[derive(Debug)]
pub struct FileWrite {
    pub path: String,
    pub data: Vec<u8>,
    pub synced: SyncFile,
}

/// `synced` is `file` marked as synced up to its latest version.
pub open spec fn marked_synced(synced: SyncFile, file: SyncFile) -> bool {
    &&& synced.id == file.id
    &&& synced.path@ == file.path@
    &&& synced.hash@ == file.hash@
    &&& synced.modified_by == file.modified_by
    &&& synced.versions@ == file.versions@
    &&& crate::sync_directory::same_blocks(synced.blocks@, file.blocks@)
    &&& synced.synced_version == index_version_spec(file.versions@)
}

/// What reading a `NoError` answer with contents `data` gives.
pub open spec fn accepted_file(r: Result<FileWrite, PeerCommandError>, directory: SyncDirectory, file: SyncFile, data: Seq<u8>) -> bool {
    if sha256(data) != file.hash@ {
        r == Err::<FileWrite, PeerCommandError>(PeerCommandError::InvalidFile)
    } else if directory.path is None {
        r is Err && is_other_error(r->Err_0, "Requesting file from non-synced directory"@)
    } else {
        &&& r is Ok
        &&& r->Ok_0.path@ == push_path(directory.path->0@, bep_name(file.path@))
        &&& r->Ok_0.data@ == data
        &&& marked_synced(r->Ok_0.synced, file)
    }
}

/// Reads what a request for `sync_file` brought back: the file to write, or
/// why there is none.
pub fn received_file(directory: &SyncDirectory, sync_file: &SyncFile, message: PeerRequestResponse) -> (r: Result<FileWrite, PeerCommandError>)
    requires
        message is Response ==> sha256_input_ok(message->Response_0.data@),
    ensures
        match message {
            PeerRequestResponse::Response(resp) => match error_code_of(resp.code) {
                Some(ErrorCode::NoError) => accepted_file(r, *directory, *sync_file, resp.data@),
                Some(ErrorCode::NoSuchFile) => r == Err::<FileWrite, PeerCommandError>(PeerCommandError::NoSuchFile),
                Some(ErrorCode::InvalidFile) => r == Err::<FileWrite, PeerCommandError>(PeerCommandError::InvalidFile),
                Some(ErrorCode::Generic) => r is Err && is_other_error(r->Err_0, "Generic Error"@),
                None => r is Err && is_other_error(
                    r->Err_0,
                    "Invalid error code received: "@ + crate::text::int_decimal(resp.code as int),
                ),
            },
            PeerRequestResponse::Error(_) => r is Err
                && is_other_error_after(r->Err_0, "Received an error while getting file: "@),
            PeerRequestResponse::Closed => r == Err::<FileWrite, PeerCommandError>(PeerCommandError::ConnectionClosed),
            PeerRequestResponse::Sent => r is Err && is_other_error(
                r->Err_0,
                "Got error on file request, and I don't know how to handle errors."@,
            ),
        },
{
    match message {
        PeerRequestResponse::Response(response) => {
            match error_code_from_i32(response.code) {
                Some(ErrorCode::NoError) => {
                    let hash = sha256_digest(response.data.as_slice());
                    if !comp_hashes(hash.as_slice(), sync_file.hash.as_slice()) {
                        return Err(PeerCommandError::InvalidFile);
                    }
                    match &directory.path {
                        None => Err(PeerCommandError::Other(String::from_str("Requesting file from non-synced directory"))),
                        Some(p) => {
                            let path = path_push(p, &sync_file.get_name());
                            let mut synced = sync_file.duplicate();
                            synced.synced_version = sync_file.get_index_version();
                            Ok(FileWrite { path, data: response.data, synced })
                        },
                    }
                },
                Some(ErrorCode::NoSuchFile) => Err(PeerCommandError::NoSuchFile),
                Some(ErrorCode::InvalidFile) => Err(PeerCommandError::InvalidFile),
                Some(ErrorCode::Generic) => Err(PeerCommandError::Other(String::from_str("Generic Error"))),
                None => {
                    let code = crate::text::i32_to_decimal(response.code);
                    let m = super::error::concat_str("Invalid error code received: ", code.as_str());
                    Err(PeerCommandError::Other(m))
                },
            }
        },
        PeerRequestResponse::Error(e) => {
            let t = e.describe();
            let m = super::error::concat_str("Received an error while getting file: ", t.as_str());
            proof {
                assert(m@.subrange(0, "Received an error while getting file: "@.len() as int)
                    =~= "Received an error while getting file: "@);
            }
            Err(PeerCommandError::Other(m))
        },
        PeerRequestResponse::Closed => Err(PeerCommandError::ConnectionClosed),
        PeerRequestResponse::Sent => Err(PeerCommandError::Other(
            String::from_str("Got error on file request, and I don't know how to handle errors."),
        )),
    }
}

} // verus!

verus! {

/// The version vector of a remote file as `(device, counter)` pairs.
pub open spec fn counter_pairs(c: Seq<Counter>) -> Seq<(u64, u64)> {
    c.map_values(|x: Counter| (x.id, x.value))
}

/// The block that a block announcement describes.
pub open spec fn block_of_info(b: BlockInfo) -> SyncBlockView {
    SyncBlockView { offset: b.offset, size: b.size, hash: b.hash@ }
}

/// The blocks that a file announcement describes.
pub open spec fn blocks_of_infos(infos: Seq<BlockInfo>) -> Seq<SyncBlockView> {
    infos.map_values(|b: BlockInfo| block_of_info(b))
}

/// The entry that takes what a peer announced of a file: its versions, its
/// blocks, the hash of its first block as the file's hash, and its author;
/// with the given id, path and synced version.
pub open spec fn remote_entry(id: Option<i32>, path: Seq<char>, synced_version: u64, info: FileInfo) -> SyncFileView {
    SyncFileView {
        id,
        path,
        hash: info.blocks@[0].hash@,
        modified_by: info.modified_by,
        synced_version,
        versions: counter_pairs(info.version->0.counters@),
        blocks: blocks_of_infos(info.blocks@),
    }
}

/// Position of the first entry at or after `i` whose BEP name is `name`.
pub open spec fn first_named_from(local: Seq<SyncFileView>, name: Seq<char>, i: int) -> Option<int>
    decreases local.len() - i,
{
    if i < 0 || i >= local.len() {
        None
    } else if bep_name(local[i].path) == name {
        Some(i)
    } else {
        first_named_from(local, name, i + 1)
    }
}

/// Position of the first entry whose BEP name is `name`.
pub open spec fn first_named(local: Seq<SyncFileView>, name: Seq<char>) -> Option<int> {
    first_named_from(local, name, 0)
}

/// The inputs a remote file announcement must meet: a version vector and at
/// least one block.
pub open spec fn announcement_ok(info: FileInfo) -> bool {
    &&& info.version is Some
    &&& info.blocks@.len() > 0
}

/// Merging one announced file into the local index: the first local entry
/// with its name takes the remote's versions and blocks when the remote has
/// more versions, and is left alone otherwise; a file with no local entry
/// gives a new entry, not yet synced (which is stored, not added to the
/// index being merged). Returns the index after the merge and the entry to
/// store, if any.
pub open spec fn merge_step(local: Seq<SyncFileView>, info: FileInfo) -> (Seq<SyncFileView>, Option<SyncFileView>) {
    match first_named(local, info.name@) {
        Some(i) => if local[i].versions.len() >= info.version->0.counters@.len() {
            (local, None)
        } else {
            let f = remote_entry(local[i].id, local[i].path, local[i].synced_version, info);
            (local.update(i, f), Some(f))
        },
        None => (local, Some(remote_entry(None, info.name@, 0, info))),
    }
}

/// Merging announcements one after the other: the index after all of them,
/// and the entries to store, in order.
pub open spec fn merge_all(local: Seq<SyncFileView>, files: Seq<FileInfo>) -> (Seq<SyncFileView>, Seq<SyncFileView>)
    decreases files.len(),
{
    if files.len() == 0 {
        (local, Seq::empty())
    } else {
        let prev = merge_all(local, files.drop_last());
        let step = merge_step(prev.0, files.last());
        (step.0, match step.1 {
            Some(f) => prev.1.push(f),
            None => prev.1,
        })
    }
}

/// What merging one announced file into the local index does to it.
#[derive(Debug)]
pub enum IndexMerge {
    /// The local entry is at least as new; nothing changes.
    Unchanged,
    /// The entry at this position takes the remote's versions and blocks.
    Update(usize, SyncFile),
    /// A new entry for a file not known here.
    Insert(SyncFile),
}

pub fn counters_to_pairs(counters: &Vec<Counter>) -> (r: Vec<(u64, u64)>)
    ensures
        r@ == counter_pairs(counters@),
{
    let mut out: Vec<(u64, u64)> = Vec::new();
    let mut i: usize = 0;
    while i < counters.len()
        invariant
            0 <= i <= counters@.len(),
            out@ == counter_pairs(counters@.take(i as int)),
        decreases counters@.len() - i,
    {
        out.push((counters[i].id, counters[i].value));
        i += 1;
        proof {
            assert(counter_pairs(counters@.take(i as int)) =~= counter_pairs(counters@.take(i - 1)).push(
                (counters@[i - 1].id, counters@[i - 1].value),
            ));
        }
    }
    proof {
        assert(counters@.take(counters@.len() as int) =~= counters@);
    }
    out
}

pub fn blocks_from_block_infos(infos: &Vec<BlockInfo>) -> (r: Vec<SyncBlock>)
    ensures
        block_views(r@) == blocks_of_infos(infos@),
{
    let mut out: Vec<SyncBlock> = Vec::new();
    let mut i: usize = 0;
    while i < infos.len()
        invariant
            0 <= i <= infos@.len(),
            block_views(out@) == blocks_of_infos(infos@.take(i as int)),
        decreases infos@.len() - i,
    {
        let b = &infos[i];
        let ghost prev = out@;
        let nb = SyncBlock { offset: b.offset, size: b.size, hash: copy_bytes(&b.hash) };
        assert(nb@ == block_of_info(infos@[i as int]));
        out.push(nb);
        proof {
            assert(block_views(out@) =~= block_views(prev).push(nb@));
            assert(blocks_of_infos(infos@.take(i + 1)) =~= blocks_of_infos(infos@.take(i as int)).push(
                block_of_info(infos@[i as int]),
            ));
        }
        i += 1;
    }
    proof {
        assert(infos@.take(infos@.len() as int) =~= infos@);
    }
    out
}

proof fn lemma_first_named_at(v: Seq<SyncFileView>, name: Seq<char>, j: int, i: int)
    requires
        0 <= j <= i < v.len(),
        bep_name(v[i].path) == name,
        forall|q: int| j <= q < i ==> bep_name(#[trigger] v[q].path) != name,
    ensures
        first_named_from(v, name, j) == Some(i),
    decreases i - j,
{
    if j < i {
        lemma_first_named_at(v, name, j + 1, i);
    }
}

proof fn lemma_none_named(v: Seq<SyncFileView>, name: Seq<char>, j: int)
    requires
        0 <= j <= v.len(),
        forall|q: int| j <= q < v.len() ==> bep_name(#[trigger] v[q].path) != name,
    ensures
        first_named_from(v, name, j) is None,
    decreases v.len() - j,
{
    if j < v.len() {
        lemma_none_named(v, name, j + 1);
    }
}

/// Position of the first local entry whose BEP name is `name`.
pub fn find_named(local: &Vec<SyncFile>, name: &String) -> (r: Option<usize>)
    ensures
        r is Some <==> first_named(file_views(local@), name@) is Some,
        r is Some ==> first_named(file_views(local@), name@) == Some(r->0 as int) && r->0 < local@.len(),
{
    let ghost v = file_views(local@);
    let mut i: usize = 0;
    while i < local.len()
        invariant
            0 <= i <= local@.len(),
            v == file_views(local@),
            forall|j: int| 0 <= j < i ==> bep_name(#[trigger] v[j].path) != name@,
        decreases local@.len() - i,
    {
        if local[i].get_name() == *name {
            proof {
                lemma_first_named_at(v, name@, 0, i as int);
            }
            return Some(i);
        }
        i += 1;
    }
    proof {
        lemma_none_named(v, name@, 0);
    }
    None
}

/// What `merge_file` decides, as a change to the index's view.
pub open spec fn merge_matches(local: Seq<SyncFileView>, info: FileInfo, m: IndexMerge) -> bool {
    match m {
        IndexMerge::Unchanged => merge_step(local, info) == (local, None::<SyncFileView>),
        IndexMerge::Update(i, f) => i < local.len() && first_named(local, info.name@) == Some(i as int)
            && merge_step(local, info) == (local.update(i as int, f@), Some(f@)),
        IndexMerge::Insert(f) => first_named(local, info.name@) is None && merge_step(local, info) == (local, Some(f@)),
    }
}

/// `f` holds what the peer announced of a file: the hash of its first block
/// as the file's hash, its author, its whole version vector as
/// `(device, counter)` pairs and its blocks, in order.
pub open spec fn takes_announcement(f: SyncFileView, info: FileInfo) -> bool {
    let counters = info.version->0.counters@;
    &&& f.hash == info.blocks@[0].hash@
    &&& f.modified_by == info.modified_by
    &&& f.versions.len() == counters.len()
    &&& forall|k: int| 0 <= k < f.versions.len() ==> #[trigger] f.versions[k] == (counters[k].id, counters[k].value)
    &&& f.blocks.len() == info.blocks@.len()
    &&& forall|k: int| 0 <= k < f.blocks.len() ==> {
        &&& (#[trigger] f.blocks[k]).offset == info.blocks@[k].offset
        &&& f.blocks[k].size == info.blocks@[k].size
        &&& f.blocks[k].hash == info.blocks@[k].hash@
    }
}

/// What merging one announcement decides, in terms of the local index and
/// the announcement: a file known here (its first entry by name) is kept
/// when it has at least as many versions, and otherwise updated in place to
/// what the peer announced, keeping its id, path and synced version; a file
/// not known here becomes a new, not yet synced entry with what the peer
/// announced.
pub open spec fn merge_decided(local: Seq<SyncFileView>, info: FileInfo, m: IndexMerge) -> bool {
    let name = info.name@;
    let n = info.version->0.counters@.len();
    match m {
        IndexMerge::Unchanged => exists|j: int| {
            &&& 0 <= j < local.len()
            &&& bep_name(#[trigger] local[j].path) == name
            &&& forall|q: int| 0 <= q < j ==> bep_name(#[trigger] local[q].path) != name
            &&& local[j].versions.len() >= n
        },
        IndexMerge::Update(i, f) => {
            &&& i < local.len()
            &&& bep_name(local[i as int].path) == name
            &&& forall|q: int| 0 <= q < i ==> bep_name(#[trigger] local[q].path) != name
            &&& local[i as int].versions.len() < n
            &&& takes_announcement(f@, info)
            &&& f@.id == local[i as int].id
            &&& f@.path == local[i as int].path
            &&& f@.synced_version == local[i as int].synced_version
        },
        IndexMerge::Insert(f) => {
            &&& forall|q: int| 0 <= q < local.len() ==> bep_name(#[trigger] local[q].path) != name
            &&& takes_announcement(f@, info)
            &&& f@.id is None
            &&& f@.path == name
            &&& f@.synced_version == 0
        },
    }
}

/// Law: merging an announcement decides by the local entry of that name and
/// its number of versions, and an entry it stores (updated or new) carries
/// what the peer announced: the first block's hash as the file's hash (the
/// hash a later fetch checks the contents against), every counter of the
/// version vector, and the announced blocks.
pub proof fn lemma_merge_takes_announcement(local: Seq<SyncFileView>, info: FileInfo, m: IndexMerge)
    requires
        announcement_ok(info),
        merge_matches(local, info, m),
    ensures
        merge_decided(local, info, m),
{
    lemma_first_named_props(local, info.name@, 0);
    let counters = info.version->0.counters@;
    match first_named(local, info.name@) {
        Some(j) => {
            if local[j].versions.len() >= counters.len() {
                assert(m is Unchanged);
                assert(bep_name(local[j].path) == info.name@);
            } else {
                assert(m is Update);
            }
        },
        None => {
            assert(m is Insert);
        },
    }
}

/// Decides how one file of a peer's index is merged into the local index.
pub fn merge_file(local: &Vec<SyncFile>, info: &FileInfo) -> (r: IndexMerge)
    requires
        announcement_ok(*info),
    ensures
        merge_matches(file_views(local@), *info, r),
        merge_decided(file_views(local@), *info, r),
{
    let r = decide_merge(local, info);
    proof {
        lemma_merge_takes_announcement(file_views(local@), *info, r);
    }
    r
}

/// The decision of `merge_file`, as a change to the index's view.
fn decide_merge(local: &Vec<SyncFile>, info: &FileInfo) -> (r: IndexMerge)
    requires
        announcement_ok(*info),
    ensures
        merge_matches(file_views(local@), *info, r),
{
    let ghost v = file_views(local@);
    let version = match &info.version {
        Some(v) => v,
        None => {
            return IndexMerge::Unchanged;
        },
    };
    match find_named(local, &info.name) {
        Some(i) => {
            let lf = &local[i];
            assert(v[i as int] == lf@);
            if lf.versions.len() >= version.counters.len() {
                return IndexMerge::Unchanged;
            }
            let f = SyncFile {
                id: lf.id,
                path: lf.path.clone(),
                hash: copy_bytes(&info.blocks[0].hash),
                modified_by: info.modified_by,
                synced_version: lf.synced_version,
                versions: counters_to_pairs(&version.counters),
                blocks: blocks_from_block_infos(&info.blocks),
            };
            proof {
                assert(f@ == remote_entry(v[i as int].id, v[i as int].path, v[i as int].synced_version, *info));
            }
            IndexMerge::Update(i, f)
        },
        None => {
            let f = SyncFile {
                id: None,
                path: info.name.clone(),
                hash: copy_bytes(&info.blocks[0].hash),
                modified_by: info.modified_by,
                synced_version: 0,
                versions: counters_to_pairs(&version.counters),
                blocks: blocks_from_block_infos(&info.blocks),
            };
            proof {
                assert(f@ == remote_entry(None, info.name@, 0, *info));
            }
            IndexMerge::Insert(f)
        },
    }
}

/// Law: merging the same announcement twice changes nothing the second
/// time: once the local entry took the remote's versions, the remote is no
/// newer.
pub proof fn lemma_merge_idempotent(local: Seq<SyncFileView>, info: FileInfo)
    requires
        announcement_ok(info),
        first_named(local, info.name@) is Some,
    ensures
        merge_step(merge_step(local, info).0, info).0 == merge_step(local, info).0,
        merge_step(merge_step(local, info).0, info).1 is None,
{
    let i = first_named(local, info.name@)->0;
    lemma_first_named_props(local, info.name@, 0);
    let n = info.version->0.counters@.len();
    assert(counter_pairs(info.version->0.counters@).len() == n);
    if local[i].versions.len() < n {
        let l2 = merge_step(local, info).0;
        lemma_first_named_props(local, info.name@, 0);
        assert forall|q: int| 0 <= q < i implies bep_name(#[trigger] l2[q].path) != info.name@ by {
            assert(l2[q] == local[q]);
        }
        lemma_first_named_at(l2, info.name@, 0, i);
    }
}

proof fn lemma_first_named_props(v: Seq<SyncFileView>, name: Seq<char>, j: int)
    requires
        0 <= j,
    ensures
        match first_named_from(v, name, j) {
            Some(i) => j <= i < v.len() && bep_name(v[i].path) == name
                && forall|q: int| j <= q < i ==> bep_name(#[trigger] v[q].path) != name,
            None => forall|q: int| j <= q < v.len() ==> bep_name(#[trigger] v[q].path) != name,
        },
    decreases v.len() - j,
{
    if j < v.len() {
        lemma_first_named_props(v, name, j + 1);
    }
}

/// Law: merging a peer's index leaves alone every local entry whose name
/// none of the announcements uses, and keeps the number of entries.
pub proof fn lemma_merge_all_keeps_others(local: Seq<SyncFileView>, files: Seq<FileInfo>, j: int)
    requires
        0 <= j < local.len(),
        forall|k: int| 0 <= k < files.len() ==> (#[trigger] files[k]).name@ != bep_name(local[j].path),
    ensures
        merge_all(local, files).0.len() == local.len(),
        merge_all(local, files).0[j] == local[j],
    decreases files.len(),
{
    if files.len() > 0 {
        let rest = files.drop_last();
        assert forall|k: int| 0 <= k < rest.len() implies (#[trigger] rest[k]).name@ != bep_name(local[j].path) by {
            assert(rest[k] == files[k]);
        }
        lemma_merge_all_keeps_others(local, rest, j);
        let prev = merge_all(local, rest).0;
        let info = files.last();
        assert(info == files[files.len() - 1]);
        lemma_first_named_props(prev, info.name@, 0);
        match first_named(prev, info.name@) {
            Some(i) => {
                assert(i != j);
            },
            None => {},
        }
    }
}

/// Merges a peer's index into the local one, file by file, as the peer
/// announced them: returns the entries to store, in order; entries of
/// `local` that took a remote version are replaced in place, so a later
/// announcement of the same name compares against the updated entry.
pub fn merge_index(local: &mut Vec<SyncFile>, files: &Vec<FileInfo>) -> (stored: Vec<SyncFile>)
    requires
        forall|k: int| 0 <= k < files@.len() ==> announcement_ok(#[trigger] files@[k]),
    ensures
        file_views(final(local)@) == merge_all(file_views(old(local)@), files@).0,
        file_views(stored@) == merge_all(file_views(old(local)@), files@).1,
{
    let ghost start = file_views(local@);
    let mut stored: Vec<SyncFile> = Vec::new();
    let mut k: usize = 0;
    proof {
        assert(files@.take(0) =~= Seq::<FileInfo>::empty());
        assert(file_views(local@) =~= start);
        assert(file_views(stored@) =~= Seq::<SyncFileView>::empty());
    }
    while k < files.len()
        invariant
            0 <= k <= files@.len(),
            forall|q: int| 0 <= q < files@.len() ==> announcement_ok(#[trigger] files@[q]),
            file_views(local@) == merge_all(start, files@.take(k as int)).0,
            file_views(stored@) == merge_all(start, files@.take(k as int)).1,
        decreases files@.len() - k,
    {
        let info = &files[k];
        let ghost before = file_views(local@);
        let ghost stored_before = file_views(stored@);
        proof {
            assert(files@.take(k + 1).drop_last() =~= files@.take(k as int));
            assert(files@.take(k + 1).last() == files@[k as int]);
        }
        let m = merge_file(local, info);
        match m {
            IndexMerge::Unchanged => {},
            IndexMerge::Update(i, f) => {
                let copy = f.duplicate();
                proof {
                    crate::sync_directory::lemma_same_file_view(copy, f);
                }
                local.set(i, copy);
                proof {
                    assert(file_views(local@) =~= before.update(i as int, f@));
                }
                stored.push(f);
                proof {
                    assert(file_views(stored@) =~= stored_before.push(f@));
                }
            },
            IndexMerge::Insert(f) => {
                stored.push(f);
                proof {
                    assert(file_views(stored@) =~= stored_before.push(f@));
                }
            },
        }
        k += 1;
    }
    proof {
        assert(files@.take(files@.len() as int) =~= files@);
    }
    stored
}

} // verus!

verus! {

/// `v as i64` for a `u64`: the same bits, read as signed.
pub open spec fn u64_as_i64(v: int) -> int {
    if v < 0x8000_0000_0000_0000 {
        v
    } else {
        v - 0x1_0000_0000_0000_0000
    }
}

/// `v as i32` for a `u64`: its low 32 bits, read as signed.
pub open spec fn u64_as_i32(v: int) -> int {
    let t = v % 0x1_0000_0000;
    if t < 0x8000_0000 {
        t
    } else {
        t - 0x1_0000_0000
    }
}

/// The version vector announced for `(device, counter)` pairs.
pub open spec fn counters_of(versions: Seq<(u64, u64)>) -> Seq<Counter> {
    versions.map_values(|p: (u64, u64)| Counter { id: p.0, value: p.1 })
}

/// `info` announces `block`: its size and hash, at offset 0 (every block is
/// announced with offset 0).
pub open spec fn info_of_block(info: BlockInfo, block: SyncBlock) -> bool {
    &&& info.offset == 0
    &&& info.size == block.size
    &&& info.hash@ == block.hash@
    &&& info.weak_hash == 0
}

/// `info` is how `file` is announced in an index, with the given
/// modification time and blocks.
pub open spec fn announces(info: FileInfo, file: SyncFile, modified_s: i64, blocks: Seq<SyncBlock>) -> bool {
    let size = crate::sync_directory::blocks_size_sum(file.blocks@);
    &&& info.name@ == bep_name(file.path@)
    &&& info.file_type == FILE_INFO_TYPE_FILE
    &&& info.size == u64_as_i64(size)
    &&& info.permissions == 0
    &&& info.modified_s == modified_s
    &&& info.modified_ns == 0
    &&& info.modified_by == 0
    &&& !info.deleted
    &&& !info.invalid
    &&& info.no_permissions
    &&& info.version is Some
    &&& info.version->0.counters@ == counters_of(file.versions@)
    &&& info.sequence == 1
    &&& info.block_size == u64_as_i32(size)
    &&& info.blocks@.len() == blocks.len()
    &&& (forall|i: int| 0 <= i < blocks.len() ==> #[trigger] info_of_block(info.blocks@[i], blocks[i]))
    &&& info.symlink_target@.len() == 0
    &&& info.blocks_hash@.len() == 0
    &&& info.encrypted@.len() == 0
    &&& info.local_flags == 0
    &&& info.version_hash@.len() == 0
    &&& info.inode_change_ns == 0
    &&& info.encryption_trailer_size == 0
}

pub fn pairs_to_counters(versions: &Vec<(u64, u64)>) -> (r: Vec<Counter>)
    ensures
        r@ == counters_of(versions@),
{
    let mut out: Vec<Counter> = Vec::new();
    let mut i: usize = 0;
    while i < versions.len()
        invariant
            0 <= i <= versions@.len(),
            out@ == counters_of(versions@.take(i as int)),
        decreases versions@.len() - i,
    {
        out.push(Counter { id: versions[i].0, value: versions[i].1 });
        i += 1;
        proof {
            assert(counters_of(versions@.take(i as int)) =~= counters_of(versions@.take(i - 1)).push(
                Counter { id: versions@[i - 1].0, value: versions@[i - 1].1 },
            ));
        }
    }
    proof {
        assert(versions@.take(versions@.len() as int) =~= versions@);
    }
    out
}

/// How a file is announced in the index sent to a peer: its BEP name, its
/// size (the sum of its block sizes, cast to `i64` and `i32` with `as`), the
/// modification time given, its version vector, and the given blocks.
pub fn file_info(file: &SyncFile, modified_s: i64, blocks: &Vec<SyncBlock>) -> (r: FileInfo)
    requires
        crate::sync_directory::blocks_size_sum(file.blocks@) <= u64::MAX,
    ensures
        announces(r, *file, modified_s, blocks@),
{
    let size = file.get_size();
    #[verifier::truncate]
    let size_i64: i64 = size as i64;
    #[verifier::truncate]
    let size_i32: i32 = size as i32;
    proof {
        assert(size < 0x8000_0000_0000_0000 ==> size as i64 == size) by (bit_vector);
        assert(size >= 0x8000_0000_0000_0000 ==> size as i64 == size - 0x1_0000_0000_0000_0000) by (bit_vector);
        assert(size % 0x1_0000_0000 < 0x8000_0000 ==> size as i32 == size % 0x1_0000_0000) by (bit_vector);
        assert(size % 0x1_0000_0000 >= 0x8000_0000 ==> size as i32 == (size % 0x1_0000_0000) - 0x1_0000_0000)
            by (bit_vector);
    }
    let mut infos: Vec<BlockInfo> = Vec::new();
    let mut i: usize = 0;
    while i < blocks.len()
        invariant
            0 <= i <= blocks@.len(),
            infos@.len() == i,
            forall|k: int| 0 <= k < i ==> #[trigger] info_of_block(infos@[k], blocks@[k]),
        decreases blocks@.len() - i,
    {
        infos.push(BlockInfo { offset: 0, size: blocks[i].size, hash: copy_bytes(&blocks[i].hash), weak_hash: 0 });
        i += 1;
    }
    FileInfo {
        name: file.get_name(),
        file_type: FILE_INFO_TYPE_FILE,
        size: size_i64,
        permissions: 0,
        modified_s,
        modified_ns: 0,
        modified_by: 0,
        deleted: false,
        invalid: false,
        no_permissions: true,
        version: Some(Vector { counters: pairs_to_counters(&file.versions) }),
        sequence: 1,
        block_size: size_i32,
        blocks: infos,
        symlink_target: String::new(),
        blocks_hash: Vec::new(),
        encrypted: Vec::new(),
        local_flags: 0,
        version_hash: Vec::new(),
        inode_change_ns: 0,
        encryption_trailer_size: 0,
    }
}

/// The index of a folder, announcing the given files.
pub fn index_message(directory: &SyncDirectory, files: Vec<FileInfo>) -> (r: Index)
    ensures
        r.folder@ == directory.id@,
        r.files@ == files@,
        r.last_sequence == 0,
{
    Index { folder: directory.id.clone(), files, last_sequence: 0 }
}

/// The directories of `dirs` whose flag in `shared` is set, in order.
pub open spec fn shared_in_order(dirs: Seq<SyncDirectory>, shared: Seq<bool>) -> Seq<SyncDirectory>
    decreases dirs.len(),
{
    if dirs.len() == 0 {
        Seq::empty()
    } else {
        let rest = shared_in_order(dirs.drop_first(), shared.drop_first());
        if shared[0] {
            seq![dirs[0]] + rest
        } else {
            rest
        }
    }
}

/// The directories picked out of `dirs` are those at increasing positions
/// `idx` whose flags are set, and every set flag's position is among them.
proof fn lemma_shared_in_order_positions(dirs: Seq<SyncDirectory>, shared: Seq<bool>) -> (idx: Seq<int>)
    requires
        dirs.len() == shared.len(),
    ensures
        idx.len() == shared_in_order(dirs, shared).len(),
        forall|k: int| 0 <= k < idx.len() ==> 0 <= #[trigger] idx[k] < dirs.len() && shared[idx[k]]
            && shared_in_order(dirs, shared)[k] == dirs[idx[k]],
        forall|k1: int, k2: int| 0 <= k1 < k2 < idx.len() ==> idx[k1] < idx[k2],
        forall|i: int| 0 <= i < dirs.len() && #[trigger] shared[i] ==> exists|k: int| 0 <= k < idx.len() && #[trigger] idx[k] == i,
    decreases dirs.len(),
{
    if dirs.len() == 0 {
        Seq::empty()
    } else {
        let rest = lemma_shared_in_order_positions(dirs.drop_first(), shared.drop_first());
        let shifted = Seq::new(rest.len(), |k: int| rest[k] + 1);
        let picked = shared_in_order(dirs, shared);
        let tail = shared_in_order(dirs.drop_first(), shared.drop_first());
        if shared[0] {
            let idx = seq![0int] + shifted;
            assert(picked == seq![dirs[0]] + tail);
            assert forall|k: int| 0 <= k < idx.len() implies 0 <= #[trigger] idx[k] < dirs.len() && shared[idx[k]]
                && picked[k] == dirs[idx[k]] by {
                if k > 0 {
                    assert(idx[k] == rest[k - 1] + 1);
                    assert(picked[k] == tail[k - 1]);
                }
            }
            assert forall|i: int| 0 <= i < dirs.len() && #[trigger] shared[i] implies exists|k: int| 0 <= k < idx.len() && idx[k] == i by {
                if i == 0 {
                    assert(idx[0] == 0);
                } else {
                    assert(shared.drop_first()[i - 1] == shared[i]);
                    let k = choose|k: int| 0 <= k < rest.len() && rest[k] == i - 1;
                    assert(idx[k + 1] == i);
                }
            }
            idx
        } else {
            assert(picked == tail);
            assert forall|k: int| 0 <= k < shifted.len() implies 0 <= #[trigger] shifted[k] < dirs.len() && shared[shifted[k]]
                && picked[k] == dirs[shifted[k]] by {
                assert(shifted[k] == rest[k] + 1);
            }
            assert forall|i: int| 0 <= i < dirs.len() && #[trigger] shared[i] implies exists|k: int| 0 <= k < shifted.len() && shifted[k] == i by {
                assert(i != 0);
                assert(shared.drop_first()[i - 1] == shared[i]);
                let k = choose|k: int| 0 <= k < rest.len() && rest[k] == i - 1;
                assert(shifted[k] == i);
            }
            shifted
        }
    }
}

/// `r` is `dirs` at the increasing positions `idx`, each with its flag in
/// `shared` set, and every position whose flag is set is among `idx`.
pub open spec fn picked_at(dirs: Seq<SyncDirectory>, shared: Seq<bool>, r: Seq<SyncDirectory>, idx: Seq<int>) -> bool {
    &&& idx.len() == r.len()
    &&& forall|k: int| 0 <= k < idx.len() ==> 0 <= #[trigger] idx[k] < dirs.len() && shared[idx[k]] && r[k] == dirs[idx[k]]
    &&& forall|k1: int, k2: int| 0 <= k1 < k2 < idx.len() ==> idx[k1] < idx[k2]
    &&& forall|i: int| 0 <= i < dirs.len() && #[trigger] shared[i] ==> exists|k: int| 0 <= k < idx.len() && #[trigger] idx[k] == i
}

/// Law: the directories indexed for a peer are exactly those shared with it,
/// in their order: the result is `dirs` at increasing positions whose flags
/// are set, and every directory whose flag is set is among them.
pub proof fn lemma_indexed_directories_are_shared(dirs: Seq<SyncDirectory>, shared: Seq<bool>, r: Seq<SyncDirectory>)
    requires
        dirs.len() == shared.len(),
        r == shared_in_order(dirs, shared),
    ensures
        exists|idx: Seq<int>| picked_at(dirs, shared, r, idx),
{
    let idx = lemma_shared_in_order_positions(dirs, shared);
    assert(picked_at(dirs, shared, r, idx));
}

/// The directories whose index is sent to a peer: those shared with it
/// (`shared[i]` for `directories[i]`), in the order given.
pub fn directories_to_index(directories: Vec<SyncDirectory>, shared: &Vec<bool>) -> (r: Vec<SyncDirectory>)
    requires
        directories@.len() == shared@.len(),
    ensures
        r@ == shared_in_order(directories@, shared@),
        exists|idx: Seq<int>| picked_at(directories@, shared@, r@, idx),
{
    let ghost all = directories@;
    let mut rest = directories;
    let mut out: Vec<SyncDirectory> = Vec::new();
    let mut k: usize = 0;
    let total = shared.len();
    proof {
        assert(shared@.skip(0) =~= shared@);
        assert(all.skip(0) =~= all);
        assert(out@ + shared_in_order(all, shared@) =~= shared_in_order(all, shared@));
    }
    while rest.len() > 0
        invariant
            k + rest@.len() == shared@.len(),
            total == shared@.len(),
            all.len() == shared@.len(),
            rest@ == all.skip(k as int),
            out@ + shared_in_order(rest@, shared@.skip(k as int)) == shared_in_order(all, shared@),
        decreases rest@.len(),
    {
        let ghost before = rest@;
        let ghost sh = shared@.skip(k as int);
        assert(k < shared@.len());
        let d = rest.remove(0);
        proof {
            assert(rest@ =~= before.drop_first());
            assert(sh.drop_first() =~= shared@.skip(k + 1));
            assert(rest@ =~= all.skip(k + 1));
            assert(sh[0] == shared@[k as int]);
        }
        if shared[k] {
            let ghost prev = out@;
            out.push(d);
            proof {
                assert(out@ + shared_in_order(rest@, sh.drop_first())
                    =~= prev + (seq![before[0]] + shared_in_order(rest@, sh.drop_first())));
            }
        }
        k += 1;
    }
    proof {
        assert(shared_in_order(rest@, shared@.skip(k as int)) == Seq::<SyncDirectory>::empty());
        assert(out@ + Seq::<SyncDirectory>::empty() =~= out@);
        lemma_indexed_directories_are_shared(all, shared@, out@);
    }
    out
}

/// `d` describes a device with the given ID and name, as this client
/// announces devices: no addresses, compression 1, not an introducer.
pub open spec fn device_is(d: Device, id: Seq<u8>, name: Seq<char>) -> bool {
    &&& d.id@ == id
    &&& d.name@ == name
    &&& d.addresses@.len() == 0
    &&& d.compression == 1
    &&& d.cert_name@.len() == 0
    &&& d.max_sequence == 0
    &&& !d.introducer
    &&& d.index_id == 0
    &&& d.skip_introduction_removals
    &&& d.encryption_password_token@.len() == 0
}

/// A device as announced in a cluster config.
pub fn device_entry(id: Vec<u8>, name: String) -> (r: Device)
    ensures
        device_is(r, id@, name@),
{
    Device {
        id,
        name,
        addresses: Vec::new(),
        compression: 1,
        cert_name: String::new(),
        max_sequence: 0,
        introducer: false,
        index_id: 0,
        skip_introduction_removals: true,
        encryption_password_token: Vec::new(),
    }
}

/// `f` announces `directory`, shared with `peers` and with this device
/// (announced last).
pub open spec fn folder_is(f: Folder, directory: SyncDirectory, peers: Seq<Peer>, my_id: Seq<u8>, my_name: Seq<char>) -> bool {
    &&& f.id@ == directory.id@
    &&& f.label@ == directory.label@
    &&& !f.read_only
    &&& !f.ignore_permissions
    &&& !f.ignore_delete
    &&& f.disable_temp_indexes
    &&& !f.paused
    &&& f.devices@.len() == peers.len() + 1
    &&& (forall|j: int| 0 <= j < peers.len() ==> #[trigger] device_is(
        f.devices@[j],
        peers[j].device_id->0@,
        peers[j].name@,
    ))
    &&& device_is(f.devices@[peers.len() as int], my_id, my_name)
}

/// Every peer of every shared folder has a known device ID.
pub open spec fn peers_identified(shared: Seq<(SyncDirectory, Vec<Peer>)>) -> bool {
    forall|i: int, j: int| 0 <= i < shared.len() && 0 <= j < shared[i].1@.len()
        ==> (#[trigger] shared[i].1@[j]).device_id is Some
}

/// The cluster config sent to a peer: one folder per directory shared with
/// it, listing the devices the directory is shared with and this device.
pub fn generate_cluster_config(my_id: &DeviceID, my_name: &String, shared: &Vec<(SyncDirectory, Vec<Peer>)>) -> (r: ClusterConfig)
    requires
        peers_identified(shared@),
    ensures
        !r.secondary,
        r.folders@.len() == shared@.len(),
        forall|i: int| 0 <= i < shared@.len() ==> #[trigger] folder_is(
            r.folders@[i],
            shared@[i].0,
            shared@[i].1@,
            my_id@,
            my_name@,
        ),
{
    let mut folders: Vec<Folder> = Vec::new();
    let mut i: usize = 0;
    while i < shared.len()
        invariant
            0 <= i <= shared@.len(),
            peers_identified(shared@),
            folders@.len() == i,
            forall|k: int| 0 <= k < i ==> #[trigger] folder_is(folders@[k], shared@[k].0, shared@[k].1@, my_id@, my_name@),
        decreases shared@.len() - i,
    {
        let dir = &shared[i].0;
        let peers = &shared[i].1;
        let mut devices: Vec<Device> = Vec::new();
        let mut j: usize = 0;
        while j < peers.len()
            invariant
                0 <= i < shared@.len(),
                peers == shared@[i as int].1,
                peers_identified(shared@),
                0 <= j <= peers@.len(),
                devices@.len() == j,
                forall|q: int| 0 <= q < j ==> #[trigger] device_is(devices@[q], peers@[q].device_id->0@, peers@[q].name@),
            decreases peers@.len() - j,
        {
            let p = &peers[j];
            assert(shared@[i as int].1@[j as int].device_id is Some);
            let id = match &p.device_id {
                Some(d) => copy_bytes(d),
                None => Vec::new(),
            };
            devices.push(device_entry(id, p.name.clone()));
            j += 1;
        }
        let mut my_bytes: Vec<u8> = Vec::new();
        let mut b: usize = 0;
        while b < 32
            invariant
                0 <= b <= 32,
                my_bytes@ == my_id@.take(b as int),
            decreases 32 - b,
        {
            my_bytes.push(my_id[b]);
            b += 1;
            proof {
                assert(my_id@.take(b as int) =~= my_id@.take(b - 1).push(my_id@[b - 1]));
            }
        }
        proof {
            assert(my_id@.take(32) =~= my_id@);
        }
        devices.push(device_entry(my_bytes, my_name.clone()));
        folders.push(Folder {
            id: dir.id.clone(),
            label: dir.label.clone(),
            read_only: false,
            ignore_permissions: false,
            ignore_delete: false,
            disable_temp_indexes: true,
            paused: false,
            devices,
        });
        i += 1;
    }
    ClusterConfig { folders, secondary: false }
}

} // verus!

verus! {

/// Law: fetching a file from a peer that holds the same contents succeeds.
/// The request for a one-block file names the block's hash; a peer whose
/// file has that hash answers `NoError` with its contents; and reading that
/// answer gives the contents to write, at the file's path in the directory,
/// with the entry marked as synced.
pub proof fn lemma_file_exchange_accepted(
    directory: SyncDirectory,
    file: SyncFile,
    id: i32,
    request: Request,
    response: Response,
    data: Seq<u8>,
    outcome: Result<FileWrite, PeerCommandError>,
)
    requires
        file.blocks@.len() == 1,
        file.blocks@[0].hash@ == file.hash@,
        directory.path is Some,
        request_for_file(request, directory, file, id),
        sha256(data) == file.hash@,
        response_is(response, request.id, data, answer_code(request.hash@, data)),
        accepted_file(outcome, directory, file, response.data@),
    ensures
        response.id == id,
        error_code_of(response.code) == Some(ErrorCode::NoError),
        outcome is Ok,
        outcome->Ok_0.data@ == data,
        outcome->Ok_0.path@ == push_path(directory.path->0@, bep_name(file.path@)),
        marked_synced(outcome->Ok_0.synced, file),
{
}

/// Law: a peer whose file has other contents than the requested hash
/// answers `InvalidFile`, and the requester reads that answer as
/// `InvalidFile`.
pub proof fn lemma_file_exchange_refused(
    directory: SyncDirectory,
    file: SyncFile,
    id: i32,
    request: Request,
    response: Response,
    data: Seq<u8>,
)
    requires
        file.blocks@.len() == 1,
        file.blocks@[0].hash@.len() > 0,
        request_for_file(request, directory, file, id),
        sha256(data) != file.blocks@[0].hash@,
        response_is(response, request.id, data, answer_code(request.hash@, data)),
    ensures
        response.id == id,
        error_code_of(response.code) == Some(ErrorCode::InvalidFile),
{
}

} // verus!

verus! {

/// Law: a newer remote version is fetched. When merging an announcement
/// updates a local entry whose synced version is behind the announcement's
/// latest counter, the updated entry is one that syncing the directory
/// fetches (its synced version is below its latest version).
pub proof fn lemma_update_then_fetched(local: Seq<SyncFileView>, info: FileInfo)
    requires
        announcement_ok(info),
        first_named(local, info.name@) is Some,
        local[first_named(local, info.name@)->0].versions.len() < info.version->0.counters@.len(),
        local[first_named(local, info.name@)->0].synced_version < info.version->0.counters@.last().value,
    ensures
        merge_step(local, info).1 is Some,
        merge_step(local, info).1->0.synced_version < index_version_spec(merge_step(local, info).1->0.versions),
{
    let f = merge_step(local, info).1->0;
    assert(f.versions.last() == (info.version->0.counters@.last().id, info.version->0.counters@.last().value));
}

/// Law: a file announced by a peer and not known here is fetched unless its
/// announced latest counter is zero (the file is then only fetched when it is
/// missing on disk).
pub proof fn lemma_insert_then_fetched(local: Seq<SyncFileView>, info: FileInfo)
    requires
        announcement_ok(info),
        first_named(local, info.name@) is None,
    ensures
        merge_step(local, info).1 is Some,
        merge_step(local, info).1->0.synced_version < index_version_spec(merge_step(local, info).1->0.versions)
            <==> (info.version->0.counters@.len() == 0 || info.version->0.counters@.last().value > 0),
{
    let f = merge_step(local, info).1->0;
    if info.version->0.counters@.len() > 0 {
        assert(f.versions.last() == (info.version->0.counters@.last().id, info.version->0.counters@.last().value));
    }
}

/// Law: a fetched file is in sync: the entry stored after writing it has
/// its latest version as synced version, so syncing again does not fetch it
/// while it is on disk.
pub proof fn lemma_fetched_then_in_sync(synced: SyncFile, file: SyncFile)
    requires
        marked_synced(synced, file),
    ensures
        !(synced.synced_version < index_version_spec(synced.versions@)),
{
}

} // verus!
