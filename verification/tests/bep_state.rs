use bep_rs::bep_state::{
    block_rows, device_id_of_certificate, device_name, find_sync_directory, folder_share,
    from_i64, from_u64, model_to_sync_dir, new_device_options, new_peer, new_sync_folder,
    peer_address, peer_id_array, short_id, sync_directories_of, sync_file_of_rows, sync_file_row,
    version_pairs, versions_to_insert,
};
use bep_rs::models::{DeviceOption, Peer, SyncFileVersion, SyncFolder};
use bep_rs::storage_backend::StorageError;
use bep_rs::sync_directory::{SyncBlock, SyncDirectory, SyncFile};

fn folder(id: &str, path: Option<&str>) -> SyncFolder {
    SyncFolder { id: id.to_string(), label: format!("label {}", id), dir_path: path.map(|p| p.to_string()) }
}

#[test]
fn counters_keep_their_bits() {
    assert_eq!(from_u64(u64::MAX), -1);
    assert_eq!(from_i64(-1), u64::MAX);
    assert_eq!(from_u64(5), 5);
    assert_eq!(from_i64(from_u64(0x8000_0000_0000_0001)), 0x8000_0000_0000_0001);
    assert_eq!(from_u64(from_i64(i64::MIN)), i64::MIN);
}

#[test]
fn folders_become_directories() {
    let d = model_to_sync_dir(folder("x", Some("/p")));
    assert_eq!((d.id.as_str(), d.label.as_str(), d.path.as_deref()), ("x", "label x", Some("/p")));
    let dirs = sync_directories_of(vec![folder("a", None), folder("b", Some("/b")), folder("c", None)]);
    let ids: Vec<&str> = dirs.iter().map(|d| d.id.as_str()).collect();
    assert_eq!(ids, vec!["a", "b", "c"]);
    assert_eq!(dirs[1].path.as_deref(), Some("/b"));
    let found = find_sync_directory(dirs, &"b".to_string()).unwrap();
    assert_eq!(found.label, "label b");
    assert!(find_sync_directory(vec![], &"b".to_string()).is_none());
}

#[test]
fn stored_file_reads_back() {
    let dir = SyncDirectory { id: "abc".to_string(), label: "l".to_string(), path: None };
    let file = SyncFile {
        id: Some(4),
        path: "sub/./file".to_string(),
        hash: vec![9, 8, 7],
        modified_by: u64::MAX,
        synced_version: 2,
        versions: vec![(1, 0), (u64::MAX, 1), (3, 2)],
        blocks: vec![SyncBlock { offset: 0, size: 5, hash: vec![1] }, SyncBlock { offset: 5, size: 2, hash: vec![2] }],
    };
    let row = sync_file_row(&dir, &file);
    assert_eq!(row.name, "sub/file");
    assert_eq!(row.modified_by, -1);
    assert_eq!(row.sequence, 0);
    assert_eq!(row.folder_id, "abc");
    // Suppose the first version is stored already.
    let mut versions = vec![SyncFileVersion { id: None, version_id: 0, user_id: 1, sync_file_id: 4 }];
    let added = versions_to_insert(&file, 1, 4);
    assert_eq!(added.len(), 2);
    assert_eq!(added[0].user_id, -1);
    versions.extend(added);
    let blocks = block_rows(&file, 4).unwrap();
    assert_eq!(blocks.len(), 2);
    assert_eq!(blocks[1].offset, 5);
    let read = sync_file_of_rows(&row, &versions, &blocks);
    assert_eq!(read.versions, file.versions);
    assert_eq!(read.modified_by, file.modified_by);
    assert_eq!(read.synced_version, 2);
    assert_eq!(read.hash, file.hash);
    assert_eq!(read.path, "sub/file");
    assert_eq!(read.blocks.len(), 2);
    assert_eq!(read.blocks[1].hash, vec![2]);
    assert_eq!(version_pairs(&versions), file.versions);
    let mut empty = file.duplicate();
    empty.blocks.clear();
    assert!(block_rows(&empty, 4).is_none());
}

#[test]
fn device_identity() {
    let cert = b"certificate bytes";
    let id = device_id_of_certificate(cert);
    assert_eq!(id.to_vec(), ring::digest::digest(&ring::digest::SHA256, cert).as_ref().to_vec());
    let s = short_id(&id);
    let first: [u8; 8] = id[0..8].try_into().unwrap();
    assert!(s == u64::from_le_bytes(first) || s == u64::from_be_bytes(first));
    assert_eq!(s, u64::from_ne_bytes(first));
}

#[test]
fn device_names() {
    assert_eq!(device_name(None), "Device");
    let o = DeviceOption { id: Some(1), device_name: "con1".to_string(), cert: vec![], key: vec![] };
    assert_eq!(device_name(Some(o)), "con1");
    let fresh = new_device_options().unwrap();
    assert_eq!(fresh.id, Some(1));
    assert_eq!(fresh.device_name, "Device");
    assert!(!fresh.cert.is_empty());
    assert!(!fresh.key.is_empty());
    assert!(bep_rs::bep_state::key_pair_of(&fresh.key).is_some());
    assert!(bep_rs::bep_state::key_pair_of(&vec![1, 2, 3]).is_none());
}

#[test]
fn new_rows() {
    let f = new_sync_folder(Some("/p".to_string()), "lab".to_string(), None);
    assert_eq!(f.id.len(), 12);
    assert!(f.id.chars().all(|c| c.is_ascii_alphanumeric()));
    assert_eq!(f.dir_path.as_deref(), Some("/p"));
    let g = new_sync_folder(None, "lab".to_string(), Some("given".to_string()));
    assert_eq!(g.id, "given");
    let bytes: Vec<u8> = (0..32).collect();
    let id = peer_id_array(&bytes);
    assert_eq!(id.to_vec(), bytes);
    let p = new_peer("con1".to_string(), &id);
    assert_eq!(p.device_id, Some(bytes));
    assert!(p.id.is_none());
    let stored = Peer { id: Some(9), device_id: None, name: "x".to_string() };
    let share = folder_share(&SyncDirectory { id: "d".to_string(), label: String::new(), path: None }, &stored);
    assert_eq!((share.sync_folder_id.as_str(), share.peer_id), ("d", 9));
    let a = peer_address(&stored, "127.0.0.1:22000".to_string());
    assert_eq!(a.peer_id, Some(9));
    assert_eq!(a.address, "127.0.0.1:22000");
}

#[test]
fn io_errors_convert_to_storage_errors() {
    let e: StorageError = std::io::Error::new(std::io::ErrorKind::Other, "x").into();
    assert!(matches!(e, StorageError::IOError(_)));
}
