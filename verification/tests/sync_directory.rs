use bep_rs::sync_directory::{
    comp_hashes, find_file, IndexedFile, LocalChange, SyncBlock, SyncFile,
};

const HELLO_HASH: &[u8] = b"\xb9\x4d\x27\xb9\x93\x4d\x3e\x08\xa5\x2e\x52\xd7\xda\x7d\xab\xfa\xc4\x84\xef\xe3\x7a\x53\x80\xee\x90\x88\xf7\xac\xe2\xef\xcd\xe9";
const OTHER_HASH: &[u8] = b"\xb9\x59\x57\xc2\x9f\xf5\xe0\xea\xb4\x0c\x20\xcb\xc4\x41\xe8\x6d\x81\xb5\xad\x1a\x59\x19\x99\x36\x7b\xa1\x8c\x9b\x4d\xa7\xab\xae";

fn entry(path: &str, versions: Vec<(u64, u64)>, synced: u64, hash: &[u8]) -> SyncFile {
    SyncFile {
        id: None,
        path: path.to_string(),
        hash: hash.to_vec(),
        modified_by: 0,
        synced_version: synced,
        versions,
        blocks: vec![SyncBlock { offset: 0, size: 11, hash: hash.to_vec() }],
    }
}

#[test]
fn test_get_name() {
    let file = SyncFile {
        id: None,
        path: "somefile".to_string(),
        hash: vec![],
        modified_by: 0,
        synced_version: 0,
        versions: vec![(1, 1)],
        blocks: vec![SyncBlock { offset: 0, size: 0, hash: vec![] }],
    };

    assert_eq!(file.get_name(), "somefile");
}

#[test]
fn get_name_normalises_separators() {
    let mut f = entry("a/b", vec![(1, 0)], 0, HELLO_HASH);
    assert_eq!(f.get_name(), "a/b");
    f.path = "/a//b/".to_string();
    assert_eq!(f.get_name(), "a/b");
    f.path = "a/./b".to_string();
    assert_eq!(f.get_name(), "a/b");
    f.path = "./a".to_string();
    assert_eq!(f.get_name(), "./a");
    f.path = "/".to_string();
    assert_eq!(f.get_name(), "");
    f.path = "a/../b".to_string();
    assert_eq!(f.get_name(), "a/../b");
}

#[test]
fn block_sizes_by_file_size() {
    let mib = 1024 * 1024;
    assert_eq!(SyncFile::get_blocksize(0), 128 * 1024);
    assert_eq!(SyncFile::get_blocksize(250 * mib - 1), 128 * 1024);
    assert_eq!(SyncFile::get_blocksize(250 * mib), 256 * 1024);
    assert_eq!(SyncFile::get_blocksize(500 * mib), 512 * 1024);
    assert_eq!(SyncFile::get_blocksize(1024 * mib), mib);
    assert_eq!(SyncFile::get_blocksize(2048 * mib), 2 * mib);
    assert_eq!(SyncFile::get_blocksize(4096 * mib), 4 * mib);
    assert_eq!(SyncFile::get_blocksize(8192 * mib), 8 * mib);
    assert_eq!(SyncFile::get_blocksize(16384 * mib), 16 * mib);
}

#[test]
fn single_block_file() {
    let blocks = SyncFile::gen_blocks(b"hello world");
    assert_eq!(blocks.len(), 1);
    assert_eq!(blocks[0].offset, 0);
    assert_eq!(blocks[0].size, 11);
    assert_eq!(blocks[0].hash, HELLO_HASH);
}

#[test]
fn test_get_blocks() {
    let mut data = vec![0u8; 192 * 1024];
    for (i, b) in data.iter_mut().enumerate() {
        *b = (i * 7 % 251) as u8;
    }
    let blocks = SyncFile::gen_blocks(&data);
    assert_eq!(blocks.len(), 2);
    assert_eq!(blocks[0].offset, 0);
    assert_eq!(blocks[0].size, 128 * 1024);
    assert_eq!(blocks[1].offset, 128 * 1024);
    assert_eq!(blocks[1].size, 64 * 1024);
    let first = ring::digest::digest(&ring::digest::SHA256, &data[..128 * 1024]);
    assert_eq!(blocks[0].hash, first.as_ref());
    let rest = ring::digest::digest(&ring::digest::SHA256, &data[128 * 1024..]);
    assert_eq!(blocks[1].hash, rest.as_ref());
}

#[test]
fn exact_multiple_has_full_last_block() {
    let data = vec![1u8; 256 * 1024];
    let blocks = SyncFile::gen_blocks(&data);
    assert_eq!(blocks.len(), 2);
    assert_eq!(blocks[1].offset, 128 * 1024);
    assert_eq!(blocks[1].size, 128 * 1024);
    let last = ring::digest::digest(&ring::digest::SHA256, &data[128 * 1024..]);
    assert_eq!(blocks[1].hash, last.as_ref());
}

#[test]
fn one_full_block() {
    let data = vec![0u8; 131072];
    let blocks = SyncFile::gen_blocks(&data);
    assert_eq!(blocks.len(), 1);
    assert_eq!((blocks[0].offset, blocks[0].size), (0, 131072));
    assert_eq!(blocks[0].hash, ring::digest::digest(&ring::digest::SHA256, &data).as_ref());
}

#[test]
fn block_sizes_add_up() {
    let data = vec![3u8; 300 * 1024 + 7];
    let blocks = SyncFile::gen_blocks(&data);
    let total: i64 = blocks.iter().map(|b| b.size as i64).sum();
    assert_eq!(total, data.len() as i64);
    for w in blocks.windows(2) {
        assert_eq!(w[1].offset, w[0].offset + w[0].size as i64);
    }
}

#[test]
fn hashes_compare_bytewise() {
    assert!(comp_hashes(&[1, 2, 3], &[1, 2, 3]));
    assert!(!comp_hashes(&[1, 2, 3], &[1, 2, 4]));
    assert!(!comp_hashes(&[1, 2], &[1, 2, 3]));
    assert!(comp_hashes(&[], &[]));
}

#[test]
fn index_version_and_size() {
    let mut f = entry("f", vec![(1, 0), (2, 5)], 5, HELLO_HASH);
    assert_eq!(f.get_index_version(), 5);
    f.versions.clear();
    assert_eq!(f.get_index_version(), 1);
    f.blocks = vec![
        SyncBlock { offset: 0, size: 100, hash: vec![] },
        SyncBlock { offset: 100, size: 23, hash: vec![] },
    ];
    assert_eq!(f.get_size(), 123);
}

#[test]
fn local_change_decisions() {
    let f = entry("f", vec![(1, 0), (2, 3)], 2, HELLO_HASH);
    assert_eq!(f.local_change(OTHER_HASH), LocalChange::RemoteNewer);
    let g = entry("f", vec![(1, 0)], 0, HELLO_HASH);
    assert_eq!(g.local_change(HELLO_HASH), LocalChange::Unchanged);
    assert_eq!(g.local_change(OTHER_HASH), LocalChange::Modified);
}

#[test]
fn local_version_appended() {
    let mut f = entry("f", vec![(9, 0)], 0, HELLO_HASH);
    f.add_local_version(7, OTHER_HASH.to_vec(), vec![]);
    assert_eq!(f.versions, vec![(9, 0), (7, 1)]);
    assert_eq!(f.synced_version, 1);
    assert_eq!(f.hash, OTHER_HASH);
    assert!(f.blocks.is_empty());
    let n = SyncFile::new_local("g".to_string(), HELLO_HASH.to_vec(), 4, vec![]);
    assert_eq!(n.versions, vec![(4, 0)]);
    assert_eq!(n.modified_by, 4);
    assert_eq!(n.synced_version, 0);
    assert!(n.id.is_none());
}

#[test]
fn find_file_by_path() {
    let files = vec![entry("a", vec![(1, 0)], 0, HELLO_HASH), entry("b", vec![(1, 0)], 0, HELLO_HASH)];
    assert_eq!(find_file(&files, &"b".to_string()), Some(1));
    assert_eq!(find_file(&files, &"c".to_string()), None);
}

#[test]
fn test_update_index() {
    // A new version is recorded only when the contents change.
    let short_id = 0x1234_5678_9abc_def0u64;
    let mut stored: Vec<SyncFile> = Vec::new();
    let name = "testfile".to_string();

    let first: IndexedFile =
        bep_rs::sync_directory::index_disk_file(&mut stored, &name, b"hello world", short_id).unwrap();
    assert!(first.changed);
    assert_eq!(first.entry.path, "testfile");
    assert_eq!(first.entry.hash, HELLO_HASH);
    assert_eq!(first.entry.versions, vec![(short_id, 0)]);
    stored.push(first.entry.duplicate());

    let second = bep_rs::sync_directory::index_disk_file(&mut stored, &name, b"hello world", short_id).unwrap();
    assert!(!second.changed);
    assert_eq!(second.entry.hash, HELLO_HASH);
    assert_eq!(second.entry.versions, vec![(short_id, 0)]);

    let third =
        bep_rs::sync_directory::index_disk_file(&mut stored, &name, b"some other contents", short_id).unwrap();
    assert!(third.changed);
    assert_eq!(third.entry.hash, OTHER_HASH);
    assert_eq!(third.entry.synced_version, 1);
    assert_eq!(third.entry.versions, vec![(short_id, 0), (short_id, 1)]);
    assert_eq!(stored[0].versions, vec![(short_id, 0), (short_id, 1)]);
    assert_eq!(stored[0].hash, OTHER_HASH);
}

#[test]
fn index_skips_files_a_peer_changed() {
    let mut stored = vec![entry("f", vec![(1, 0), (2, 1)], 0, HELLO_HASH)];
    let r = bep_rs::sync_directory::index_disk_file(&mut stored, &"f".to_string(), b"local edit", 5).unwrap();
    assert!(!r.changed);
    assert_eq!(r.entry.versions, vec![(1, 0), (2, 1)]);
    assert_eq!(stored[0].hash, HELLO_HASH);
}

#[test]
fn index_refuses_empty_files_needing_blocks() {
    let mut stored: Vec<SyncFile> = Vec::new();
    assert!(bep_rs::sync_directory::index_disk_file(&mut stored, &"e".to_string(), b"", 5).is_none());
    let first = bep_rs::sync_directory::index_disk_file(&mut stored, &"e".to_string(), b"x", 5).unwrap();
    stored.push(first.entry.duplicate());
    // Emptied after indexing: a modified file whose blocks cannot be made.
    assert!(bep_rs::sync_directory::index_disk_file(&mut stored, &"e".to_string(), b"", 5).is_none());
    assert_eq!(stored[0].versions, vec![(5, 0)]);
}

#[test]
fn duplicate_keeps_fields() {
    let f = entry("x/y", vec![(1, 2)], 2, HELLO_HASH);
    let d = f.duplicate();
    assert_eq!(d.path, f.path);
    assert_eq!(d.versions, f.versions);
    assert_eq!(d.blocks.len(), 1);
    assert_eq!(d.blocks[0].hash, f.blocks[0].hash);
}

#[test]
fn counters_step_by_one_through_edits() {
    let mut stored: Vec<SyncFile> = Vec::new();
    let name = "counted".to_string();
    let first = bep_rs::sync_directory::index_disk_file(&mut stored, &name, b"v0", 3).unwrap();
    stored.push(first.entry.duplicate());
    let contents: [&[u8]; 4] = [b"v1", b"v2", b"v2", b"v3"];
    for data in contents.iter() {
        let r = bep_rs::sync_directory::index_disk_file(&mut stored, &name, data, 3).unwrap();
        for (j, v) in r.entry.versions.iter().enumerate() {
            assert_eq!(v.1, j as u64);
        }
        assert_eq!(r.entry.synced_version, r.entry.versions.last().unwrap().1);
    }
    assert_eq!(stored[0].versions, vec![(3, 0), (3, 1), (3, 2), (3, 3)]);
}
