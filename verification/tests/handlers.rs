use bep_rs::models::Peer;
use bep_rs::peer_connection::error::{PeerCommandError, PeerConnectionError};
use bep_rs::peer_connection::handlers::{
    answer_with_contents, connection_status, directories_to_index, directory_file_path, file_info, file_request,
    find_peer, generate_cluster_config, index_message, merge_file, merge_index,
    missing_file_response, needs_fetch, new_file_request, notifies_when_sent, path_push,
    peer_device_ids, received_file, request_target, select_peer, IndexMerge,
};
use bep_rs::peer_connection::items::{BlockInfo, Counter, FileInfo, Request, Response, Vector};
use bep_rs::peer_connection::{PeerRequestResponse, PeerRequestResponseType};
use bep_rs::sync_directory::{SyncBlock, SyncDirectory, SyncFile};

const FILE_HASH: &[u8] = b"\xb9\x4d\x27\xb9\x93\x4d\x3e\x08\xa5\x2e\x52\xd7\xda\x7d\xab\xfa\xc4\x84\xef\xe3\x7a\x53\x80\xee\x90\x88\xf7\xac\xe2\xef\xcd\xe9";

fn peer(id: Option<i32>, dev: Option<Vec<u8>>, name: &str) -> Peer {
    Peer { id, device_id: dev, name: name.to_string() }
}

fn dir(path: Option<&str>) -> SyncDirectory {
    SyncDirectory { id: "abc".to_string(), label: "testdir".to_string(), path: path.map(|p| p.to_string()) }
}

fn one_block_file() -> SyncFile {
    SyncFile {
        id: Some(3),
        path: "testfile".to_string(),
        hash: FILE_HASH.to_vec(),
        modified_by: 1,
        synced_version: 0,
        versions: vec![(1, 0), (2, 4)],
        blocks: vec![SyncBlock { offset: 0, size: 11, hash: FILE_HASH.to_vec() }],
    }
}

fn request(hash: &[u8]) -> Request {
    Request {
        id: 17,
        folder: "abc".to_string(),
        name: "testfile".to_string(),
        offset: 0,
        size: 11,
        hash: hash.to_vec(),
        from_temporary: false,
        weak_hash: 0,
        block_no: 0,
    }
}

fn announced(name: &str, counters: Vec<(u64, u64)>, hash: &[u8]) -> FileInfo {
    FileInfo {
        name: name.to_string(),
        file_type: 0,
        size: 11,
        permissions: 0,
        modified_s: 0,
        modified_ns: 0,
        modified_by: 99,
        deleted: false,
        invalid: false,
        no_permissions: true,
        version: Some(Vector { counters: counters.into_iter().map(|(id, value)| Counter { id, value }).collect() }),
        sequence: 1,
        block_size: 11,
        blocks: vec![BlockInfo { offset: 0, size: 11, hash: hash.to_vec(), weak_hash: 0 }],
        symlink_target: String::new(),
        blocks_hash: vec![],
        encrypted: vec![],
        local_flags: 0,
        version_hash: vec![],
        inode_change_ns: 0,
        encryption_trailer_size: 0,
    }
}

#[test]
fn peers_found_by_device_id() {
    let peers = vec![peer(Some(1), Some(vec![1, 2]), "a"), peer(Some(2), None, "b"), peer(Some(3), Some(vec![3]), "c")];
    assert_eq!(find_peer(&peers, &[3]), Some(2));
    assert_eq!(find_peer(&peers, &[]), Some(1));
    assert_eq!(find_peer(&peers, &[9]), None);
    let ids = peer_device_ids(&peers);
    assert_eq!(ids, vec![vec![1, 2], vec![], vec![3]]);
}

#[test]
fn selecting_the_connected_peer() {
    let peers = vec![peer(Some(1), Some(vec![1, 2]), "a"), peer(Some(3), Some(vec![3]), "c")];
    let p = select_peer(peers, &Some(vec![3])).unwrap();
    assert_eq!(p.name, "c");
    let peers = vec![peer(Some(1), Some(vec![1, 2]), "a")];
    assert!(matches!(select_peer(peers, &None), Err(PeerCommandError::UninitializedError)));
    let peers = vec![peer(Some(1), Some(vec![1, 2]), "a")];
    assert!(matches!(
        select_peer(peers, &Some(vec![7])),
        Err(PeerCommandError::ConnectionError(PeerConnectionError::UnknownPeer))
    ));
}

#[test]
fn stored_error_reported() {
    assert!(connection_status(&None).is_ok());
    assert!(connection_status(&Some(None)).is_ok());
    let e = Some(Some(PeerConnectionError::Other("boom".to_string())));
    match connection_status(&e) {
        Err(PeerConnectionError::Other(m)) => assert_eq!(m, "boom"),
        _ => panic!("expected the stored error"),
    }
    assert_eq!(PeerConnectionError::Other("boom".to_string()).describe(), "Unknown error: boom");
    assert_eq!(PeerConnectionError::UnknownPeer.describe(), "Unknown Peer");
    assert_eq!(
        PeerCommandError::ConnectionError(PeerConnectionError::TimeoutError).describe(),
        "Error establishing connection: Connection timeout"
    );
    assert_eq!(PeerCommandError::NoSuchFile.describe(), "Inexistent File Requested");
}

#[test]
fn only_when_sent_travels_with_the_message() {
    assert!(notifies_when_sent(PeerRequestResponseType::WhenSent));
    assert!(!notifies_when_sent(PeerRequestResponseType::WhenResponse));
    assert!(!notifies_when_sent(PeerRequestResponseType::WhenReady));
    assert!(!notifies_when_sent(PeerRequestResponseType::WhenClosed));
}

#[test]
fn paths_are_pushed_like_pathbuf() {
    assert_eq!(path_push(&"/data".to_string(), &"f".to_string()), "/data/f");
    assert_eq!(path_push(&"/data/".to_string(), &"f".to_string()), "/data/f");
    assert_eq!(path_push(&"".to_string(), &"f".to_string()), "f");
    assert_eq!(path_push(&"/data".to_string(), &"/etc/x".to_string()), "/etc/x");
    let f = one_block_file();
    assert_eq!(directory_file_path(&dir(Some("/d")), &f).unwrap(), "/d/testfile");
    match directory_file_path(&dir(None), &f) {
        Err(PeerCommandError::Other(m)) => assert_eq!(m, "Requested get of non-synced directory"),
        _ => panic!("expected an error"),
    }
}

#[test]
fn files_fetched_when_missing_or_behind() {
    let mut f = one_block_file();
    assert!(needs_fetch(&f, false));
    assert!(needs_fetch(&f, true));
    f.synced_version = 4;
    assert!(!needs_fetch(&f, true));
    assert!(needs_fetch(&f, false));
}

#[test]
fn requests_for_unshared_folders_refused() {
    let r = request(FILE_HASH);
    let resp = request_target(&r, &None, true).unwrap_err();
    assert_eq!((resp.id, resp.code, resp.data.len()), (17, 3, 0));
    let resp = request_target(&r, &Some(dir(Some("/d"))), false).unwrap_err();
    assert_eq!(resp.code, 3);
    let resp = request_target(&r, &Some(dir(None)), true).unwrap_err();
    assert_eq!(resp.code, 2);
    assert_eq!(request_target(&r, &Some(dir(Some("/d"))), true).unwrap(), "/d/testfile");
    let m = missing_file_response(&r);
    assert_eq!((m.id, m.code, m.data.len()), (17, 2, 0));
}

#[test]
fn answers_check_the_requested_hash() {
    let ok = answer_with_contents(&request(FILE_HASH), b"hello world".to_vec());
    assert_eq!((ok.id, ok.code), (17, 0));
    assert_eq!(ok.data, b"hello world");
    let bad = answer_with_contents(&request(FILE_HASH), b"hello there".to_vec());
    assert_eq!(bad.code, 3);
    assert_eq!(bad.data, b"hello there");
    let any = answer_with_contents(&request(&[]), b"whatever".to_vec());
    assert_eq!(any.code, 0);
}

#[test]
fn file_requests() {
    let d = dir(Some("/d"));
    let f = one_block_file();
    let r = file_request(&d, &f, 42).unwrap();
    assert_eq!((r.id, r.offset, r.size, r.block_no, r.weak_hash), (42, 0, 11, 0, 0));
    assert_eq!(r.folder, "abc");
    assert_eq!(r.name, "testfile");
    assert_eq!(r.hash, FILE_HASH);
    assert!(!r.from_temporary);
    let random = new_file_request(&d, &f).unwrap();
    assert_eq!(random.name, "testfile");
    let mut none = one_block_file();
    none.blocks.clear();
    match file_request(&d, &none, 1) {
        Err(PeerCommandError::Other(m)) => assert_eq!(m, "File object has no blocks"),
        _ => panic!("expected an error"),
    }
    let mut two = one_block_file();
    two.blocks.push(SyncBlock { offset: 11, size: 1, hash: vec![] });
    match new_file_request(&d, &two) {
        Err(PeerCommandError::Other(m)) => assert_eq!(m, "Multi-block files are unsupported :/"),
        _ => panic!("expected an error"),
    }
}

#[test]
fn received_files() {
    let d = dir(Some("/d"));
    let f = one_block_file();
    let resp = |code: i32, data: &[u8]| PeerRequestResponse::Response(Response { id: 1, data: data.to_vec(), code });
    let w = received_file(&d, &f, resp(0, b"hello world")).unwrap();
    assert_eq!(w.path, "/d/testfile");
    assert_eq!(w.data, b"hello world");
    assert_eq!(w.synced.synced_version, 4);
    assert_eq!(w.synced.versions, f.versions);
    assert!(matches!(received_file(&d, &f, resp(0, b"other")), Err(PeerCommandError::InvalidFile)));
    match received_file(&dir(None), &f, resp(0, b"hello world")) {
        Err(PeerCommandError::Other(m)) => assert_eq!(m, "Requesting file from non-synced directory"),
        _ => panic!("expected an error"),
    }
    assert!(matches!(received_file(&d, &f, resp(2, b"")), Err(PeerCommandError::NoSuchFile)));
    assert!(matches!(received_file(&d, &f, resp(3, b"")), Err(PeerCommandError::InvalidFile)));
    match received_file(&d, &f, resp(1, b"")) {
        Err(PeerCommandError::Other(m)) => assert_eq!(m, "Generic Error"),
        _ => panic!("expected an error"),
    }
    match received_file(&d, &f, resp(-12, b"")) {
        Err(PeerCommandError::Other(m)) => assert_eq!(m, "Invalid error code received: -12"),
        _ => panic!("expected an error"),
    }
    match received_file(&d, &f, resp(i32::MIN, b"")) {
        Err(PeerCommandError::Other(m)) => assert_eq!(m, "Invalid error code received: -2147483648"),
        _ => panic!("expected an error"),
    }
    assert!(matches!(received_file(&d, &f, PeerRequestResponse::Closed), Err(PeerCommandError::ConnectionClosed)));
    match received_file(&d, &f, PeerRequestResponse::Sent) {
        Err(PeerCommandError::Other(m)) => {
            assert_eq!(m, "Got error on file request, and I don't know how to handle errors.")
        }
        _ => panic!("expected an error"),
    }
    match received_file(&d, &f, PeerRequestResponse::Error(PeerCommandError::NoSuchFile)) {
        Err(PeerCommandError::Other(m)) => {
            assert_eq!(m, "Received an error while getting file: Inexistent File Requested")
        }
        _ => panic!("expected an error"),
    }
}

#[test]
fn exchange_between_two_sides() {
    let d = dir(Some("/d"));
    let f = one_block_file();
    let req = file_request(&d, &f, 5).unwrap();
    let answer = answer_with_contents(&req, b"hello world".to_vec());
    let w = received_file(&d, &f, PeerRequestResponse::Response(answer)).unwrap();
    assert_eq!(w.data, b"hello world");
    let answer = answer_with_contents(&req, b"changed".to_vec());
    assert!(matches!(
        received_file(&d, &f, PeerRequestResponse::Response(answer)),
        Err(PeerCommandError::InvalidFile)
    ));
}

#[test]
fn merging_announced_files() {
    let local = vec![one_block_file()];
    match merge_file(&local, &announced("testfile", vec![(1, 0)], &[1])) {
        IndexMerge::Unchanged => {}
        _ => panic!("an older announcement changes nothing"),
    }
    match merge_file(&local, &announced("testfile", vec![(1, 0), (2, 4), (5, 5)], &[1])) {
        IndexMerge::Update(i, f) => {
            assert_eq!(i, 0);
            assert_eq!(f.versions, vec![(1, 0), (2, 4), (5, 5)]);
            assert_eq!(f.hash, vec![1]);
            assert_eq!(f.modified_by, 99);
            assert_eq!(f.id, Some(3));
            assert_eq!(f.synced_version, 0);
        }
        _ => panic!("a newer announcement updates the entry"),
    }
    match merge_file(&local, &announced("new", vec![(5, 0)], &[2])) {
        IndexMerge::Insert(f) => {
            assert_eq!(f.path, "new");
            assert!(f.id.is_none());
            assert_eq!(f.synced_version, 0);
            assert_eq!(f.versions, vec![(5, 0)]);
            assert_eq!(f.blocks.len(), 1);
        }
        _ => panic!("an unknown file is inserted"),
    }
}

#[test]
fn merging_twice_is_idempotent() {
    let mut local = vec![one_block_file()];
    let files = vec![announced("testfile", vec![(1, 0), (2, 4), (5, 5)], &[1]), announced("other", vec![(5, 0)], &[2])];
    let stored = merge_index(&mut local, &files);
    assert_eq!(stored.len(), 2);
    assert_eq!(local[0].versions, vec![(1, 0), (2, 4), (5, 5)]);
    let again = merge_index(&mut local, &vec![announced("testfile", vec![(1, 0), (2, 4), (5, 5)], &[1])]);
    assert!(again.is_empty());
}

#[test]
fn announcing_a_file() {
    let f = one_block_file();
    let blocks = vec![SyncBlock { offset: 0, size: 11, hash: FILE_HASH.to_vec() }];
    let info = file_info(&f, 1234, &blocks);
    assert_eq!(info.name, "testfile");
    assert_eq!((info.size, info.block_size, info.modified_s, info.sequence), (11, 11, 1234, 1));
    assert_eq!(info.modified_by, 0);
    assert!(info.no_permissions);
    let counters: Vec<(u64, u64)> = info.version.as_ref().unwrap().counters.iter().map(|c| (c.id, c.value)).collect();
    assert_eq!(counters, f.versions);
    assert_eq!(info.blocks.len(), 1);
    assert_eq!((info.blocks[0].offset, info.blocks[0].size), (0, 11));
    let index = index_message(&dir(None), vec![info]);
    assert_eq!(index.folder, "abc");
    assert_eq!(index.files.len(), 1);
    assert_eq!(index.last_sequence, 0);
}

#[test]
fn cluster_config_lists_peers_and_self() {
    let my_id = [7u8; 32];
    let shared = vec![(dir(Some("/d")), vec![peer(Some(1), Some(vec![1, 1]), "p1"), peer(Some(2), Some(vec![2]), "p2")])];
    let cc = generate_cluster_config(&my_id, &"me".to_string(), &shared);
    assert!(!cc.secondary);
    assert_eq!(cc.folders.len(), 1);
    let f = &cc.folders[0];
    assert_eq!((f.id.as_str(), f.label.as_str()), ("abc", "testdir"));
    assert!(f.disable_temp_indexes && !f.paused && !f.read_only);
    assert_eq!(f.devices.len(), 3);
    assert_eq!(f.devices[0].id, vec![1, 1]);
    assert_eq!(f.devices[1].name, "p2");
    assert_eq!(f.devices[2].id, my_id.to_vec());
    assert_eq!(f.devices[2].name, "me");
    assert_eq!(f.devices[2].compression, 1);
    assert!(f.devices[2].skip_introduction_removals);
}

#[test]
fn decode_errors_are_kept() {
    let stored = Some(Some(PeerConnectionError::DecodeError(prost::DecodeError::new("bad varint"))));
    match connection_status(&stored) {
        Err(PeerConnectionError::DecodeError(d)) => assert!(d.to_string().contains("bad varint")),
        _ => panic!("expected the stored decode error"),
    }
    let text = PeerConnectionError::DecodeError(prost::DecodeError::new("bad varint")).describe();
    assert!(text.starts_with("Decode error: "));
    let io = PeerCommandError::IOError(std::io::Error::new(std::io::ErrorKind::Other, "disk"));
    assert_eq!(io.describe(), "I/O Error: disk");
}

#[test]
fn newer_remote_versions_are_fetched_then_in_sync() {
    let d = dir(Some("/d"));
    let mut local = vec![one_block_file()];
    local[0].synced_version = 4;
    assert!(!needs_fetch(&local[0], true));
    let stored = merge_index(&mut local, &vec![announced("testfile", vec![(1, 0), (2, 4), (9, 5)], FILE_HASH)]);
    assert_eq!(stored.len(), 1);
    assert!(needs_fetch(&stored[0], true));
    let w = received_file(&d, &stored[0], PeerRequestResponse::Response(Response { id: 1, data: b"hello world".to_vec(), code: 0 }))
        .unwrap();
    assert_eq!(w.synced.synced_version, 5);
    assert!(!needs_fetch(&w.synced, true));
}

#[test]
fn only_shared_directories_are_indexed() {
    let named = |id: &str| SyncDirectory { id: id.to_string(), label: id.to_string(), path: None };
    let dirs = vec![named("a"), named("b"), named("c"), named("d")];
    let picked = directories_to_index(dirs, &vec![true, false, true, false]);
    let ids: Vec<&str> = picked.iter().map(|d| d.id.as_str()).collect();
    assert_eq!(ids, vec!["a", "c"]);
    assert!(directories_to_index(vec![named("x")], &vec![false]).is_empty());
    assert!(directories_to_index(Vec::new(), &Vec::new()).is_empty());
}
