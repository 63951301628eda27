//! Files and directories that are synced, their block lists, and how a local
//! index entry changes when the file on disk changes.
use vstd::prelude::*;
use crate::digest::{sha256, sha256_digest, sha256_input_ok};
use crate::text::push_char;

verus! {

/// A block of a file
#[derive(Clone, Debug)]
pub struct SyncBlock {
    pub offset: i64,
    pub size: i32,
    pub hash: Vec<u8>,
}

/// A file that we should be syncing
#[derive(Clone, Debug)]
pub struct SyncFile {
    pub id: Option<i32>,
    /// Relative to the directory, with `/` between components.
    pub path: String,
    pub hash: Vec<u8>,
    pub modified_by: u64,
    pub synced_version: u64,
    /// A version consists of the device ID of the version author,
    /// and an incrementing counter, starting at zero.
    pub versions: Vec<(u64, u64)>,
    pub blocks: Vec<SyncBlock>,
}

/// A directory that we should be syncing
#[derive(Clone, Debug)]
pub struct SyncDirectory {
    pub id: String,
    /// Human-readable name. By default, just the name of the directory.
    pub label: String,
    /// Where the directory is on disk; `None` for a folder a peer offered
    /// that we have not accepted yet.
    pub path: Option<String>,
}

/// Compares two hashes byte by byte.
pub fn comp_hashes(h1: &[u8], h2: &[u8]) -> (r: bool)
    ensures
        r == (h1@ == h2@),
{
    if h1.len() != h2.len() {
        return false;
    }
    let mut i: usize = 0;
    while i < h1.len()
        invariant
            h1@.len() == h2@.len(),
            0 <= i <= h1@.len(),
            forall|k: int| 0 <= k < i ==> h1@[k] == h2@[k],
        decreases h1@.len() - i,
    {
        if h1[i] != h2[i] {
            return false;
        }
        i += 1;
    }
    proof {
        assert(h1@ =~= h2@);
    }
    true
}

pub open spec fn kib() -> int {
    1024
}

pub open spec fn mib() -> int {
    1048576
}

pub open spec fn gib() -> int {
    1073741824
}

/// The block size used for a file of the given size.
pub open spec fn block_size_for(file_size: int) -> int {
    if file_size < 250 * mib() {
        128 * kib()
    } else if file_size < 500 * mib() {
        256 * kib()
    } else if file_size < gib() {
        512 * kib()
    } else if file_size < 2 * gib() {
        mib()
    } else if file_size < 4 * gib() {
        2 * mib()
    } else if file_size < 8 * gib() {
        4 * mib()
    } else if file_size < 16 * gib() {
        8 * mib()
    } else {
        16 * mib()
    }
}

/// Law: a larger file never gets a smaller block size, and every block size
/// lies between 128 KiB and 16 MiB.
pub proof fn lemma_block_size_monotone(a: int, b: int)
    requires
        a <= b,
    ensures
        block_size_for(a) <= block_size_for(b),
        128 * kib() <= block_size_for(a) <= 16 * mib(),
{
}

impl SyncFile {
    /// For a file of a given size, get the block size
    pub fn get_blocksize(file_size: usize) -> (r: usize)
        ensures
            r == block_size_for(file_size as int),
    {
        let n = file_size as u64;
        if n < 250 * 1024 * 1024 {
            128 * 1024
        } else if n < 500 * 1024 * 1024 {
            256 * 1024
        } else if n < 1024 * 1024 * 1024 {
            512 * 1024
        } else if n < 2 * 1024 * 1024 * 1024 {
            1024 * 1024
        } else if n < 4 * 1024 * 1024 * 1024 {
            2 * 1024 * 1024
        } else if n < 8 * 1024 * 1024 * 1024 {
            4 * 1024 * 1024
        } else if n < 16 * 1024 * 1024 * 1024 {
            8 * 1024 * 1024
        } else {
            16 * 1024 * 1024
        }
    }
}

} // verus!

verus! {

/// Number of blocks of size `bl` that cover `len` bytes (`len.div_ceil(bl)`).
pub open spec fn num_blocks_for(len: int, bl: int) -> int {
    (len + bl - 1) / bl
}

/// Size of block `i` of a file of `len` bytes cut in blocks of `bl` bytes:
/// a full block, or what remains of the file for the last one.
pub open spec fn block_len_at(len: int, bl: int, i: int) -> int {
    if len - i * bl < bl {
        len - i * bl
    } else {
        bl
    }
}

/// Block `i` of the block list of a file with contents `data`, cut in blocks
/// of `bl` bytes: at `i * bl`, of the size above, hashed over its bytes.
pub open spec fn block_ok(data: Seq<u8>, b: SyncBlock, i: int, bl: int) -> bool {
    let size = block_len_at(data.len() as int, bl, i);
    &&& b.offset == i * bl
    &&& b.size == size
    &&& b.hash@ == sha256(data.subrange(i * bl, i * bl + size))
}

/// The block list of a file with contents `data`: `ceil(len / bl)` blocks of
/// the size chosen for `len`, the last one holding what remains of the file.
pub open spec fn blocks_of(data: Seq<u8>, blocks: Seq<SyncBlock>) -> bool {
    let len = data.len() as int;
    let bl = block_size_for(len);
    let nb = num_blocks_for(len, bl);
    &&& blocks.len() == nb
    &&& forall|i: int| 0 <= i < nb ==> #[trigger] block_ok(data, blocks[i], i, bl)
}

/// The inputs `gen_blocks` accepts: a file with at least one byte (an empty
/// file has no last block to make; indexing refuses it), within what SHA-256
/// takes (at most 2^64 - 1 bits).
pub open spec fn gen_blocks_ok(data: Seq<u8>) -> bool {
    &&& data.len() > 0
    &&& sha256_input_ok(data)
}

proof fn lemma_block_count(len: int, bl: int)
    requires
        len > 0,
        bl > 0,
    ensures
        num_blocks_for(len, bl) >= 1,
        (num_blocks_for(len, bl) - 1) * bl <= len,
        (num_blocks_for(len, bl) - 1) * bl < len,
        len <= num_blocks_for(len, bl) * bl,
{
    let nb = (len + bl - 1) / bl;
    assert(num_blocks_for(len, bl) == nb);
    assert(nb >= 1) by (nonlinear_arith)
        requires
            nb == (len + bl - 1) / bl,
            bl > 0,
            len >= 1,
    ;
    assert(nb * bl < len + bl && len <= nb * bl) by (nonlinear_arith)
        requires
            nb == (len + bl - 1) / bl,
            bl > 0,
    ;
    assert((nb - 1) * bl < len) by (nonlinear_arith)
        requires
            nb * bl < len + bl,
            nb >= 1,
    ;
}

/// Law: the blocks of a file cover it exactly: they are contiguous, in
/// order from offset 0, each but the last is full, none is empty, and their
/// sizes add up to the file's length.
pub proof fn lemma_blocks_cover(data: Seq<u8>, blocks: Seq<SyncBlock>)
    requires
        data.len() > 0,
        blocks_of(data, blocks),
    ensures
        blocks.len() >= 1,
        blocks[0].offset == 0,
        forall|i: int| 0 <= i < blocks.len() - 1 ==> #[trigger] blocks[i + 1].offset == blocks[i].offset + blocks[i].size,
        forall|i: int| 0 <= i < blocks.len() - 1 ==> #[trigger] blocks[i].size == block_size_for(data.len() as int),
        forall|i: int| 0 <= i < blocks.len() ==> #[trigger] blocks[i].size > 0,
        blocks[blocks.len() - 1].offset + blocks[blocks.len() - 1].size == data.len(),
        blocks_size_sum(blocks) == data.len(),
{
    let len = data.len() as int;
    let bl = block_size_for(len);
    let nb = num_blocks_for(len, bl);
    lemma_block_size_monotone(len, len);
    lemma_block_count(len, bl);
    assert(block_ok(data, blocks[0], 0, bl));
    assert forall|i: int| 0 <= i < nb - 1 implies #[trigger] blocks[i].size == bl && blocks[i + 1].offset
        == blocks[i].offset + blocks[i].size by {
        assert(block_ok(data, blocks[i], i, bl));
        assert(block_ok(data, blocks[i + 1], i + 1, bl));
        assert((i + 1) * bl <= (nb - 1) * bl) by (nonlinear_arith)
            requires
                i + 1 <= nb - 1,
                bl > 0,
        ;
        assert(i * bl + bl == (i + 1) * bl) by (nonlinear_arith);
    }
    assert forall|i: int| 0 <= i < nb implies #[trigger] blocks[i].size > 0 by {
        assert(block_ok(data, blocks[i], i, bl));
        assert(i * bl <= (nb - 1) * bl) by (nonlinear_arith)
            requires
                i <= nb - 1,
                bl > 0,
        ;
    }
    assert(block_ok(data, blocks[nb - 1], nb - 1, bl));
    assert(len - (nb - 1) * bl <= bl) by (nonlinear_arith)
        requires
            len <= nb * bl,
    ;
    lemma_blocks_sum(data, blocks, nb - 1);
    assert(blocks.take(nb) =~= blocks);
    assert(blocks.take(nb).drop_last() =~= blocks.take(nb - 1));
}

proof fn lemma_blocks_sum(data: Seq<u8>, blocks: Seq<SyncBlock>, k: int)
    requires
        data.len() > 0,
        blocks_of(data, blocks),
        0 <= k <= blocks.len() - 1,
    ensures
        blocks_size_sum(blocks.take(k)) == k * block_size_for(data.len() as int),
    decreases k,
{
    let len = data.len() as int;
    let bl = block_size_for(len);
    let nb = num_blocks_for(len, bl);
    lemma_block_size_monotone(len, len);
    lemma_block_count(len, bl);
    if k > 0 {
        lemma_blocks_sum(data, blocks, k - 1);
        assert(blocks.take(k).drop_last() =~= blocks.take(k - 1));
        assert(blocks.take(k).last() == blocks[k - 1]);
        assert(block_ok(data, blocks[k - 1], k - 1, bl));
        assert(k * bl <= (nb - 1) * bl) by (nonlinear_arith)
            requires
                k <= nb - 1,
                bl > 0,
        ;
        assert((k - 1) * bl + bl == k * bl) by (nonlinear_arith);
        assert(len - (k - 1) * bl >= bl);
        assert(block_len_at(len, bl, k - 1) == bl);
        assert(blocks[k - 1].size == bl);
        assert(size_as_u64(blocks[k - 1].size) == bl);
        assert(blocks_size_sum(blocks.take(k)) == blocks_size_sum(blocks.take(k - 1)) + bl);
        assert(blocks_size_sum(blocks.take(k)) == k * bl);
    } else {
        assert(blocks.take(0).len() == 0);
        assert(blocks_size_sum(blocks.take(0)) == 0);
        assert(0 * bl == 0);
    }
}

impl SyncFile {
    /// For the contents of a file on disk, generate its set of SyncBlocks.
    /// The file must not be empty.
    pub fn gen_blocks(data: &[u8]) -> (blocks: Vec<SyncBlock>)
        requires
            gen_blocks_ok(data@),
        ensures
            blocks_of(data@, blocks@),
    {
        let ghost dlen = data@.len() as int;
        let dl: usize = data.len();
        let n: u64 = dl as u64;
        let block_len = SyncFile::get_blocksize(data.len());
        let bl = block_len as u64;
        let num_blocks: u64 = (n + bl - 1) / bl;
        proof {
            lemma_block_count(dlen, bl as int);
        }
        let mut blocks: Vec<SyncBlock> = Vec::new();
        let mut i: u64 = 0;
        while i < num_blocks
            invariant
                n == dlen,
                dlen > 0,
                dlen == data@.len(),
                dl == data@.len(),
                n == dl,
                bl == block_size_for(dlen),
                bl == block_len,
                128 * 1024 <= bl <= 16 * 1024 * 1024,
                num_blocks == num_blocks_for(dlen, bl as int),
                (num_blocks - 1) * bl <= n,
                n < 0x2000_0000_0000_0000,
                0 <= i <= num_blocks,
                sha256_input_ok(data@),
                blocks@.len() == i,
                forall|k: int| 0 <= k < i ==> #[trigger] block_ok(data@, blocks@[k], k, bl as int),
            decreases num_blocks - i,
        {
            proof {
                assert(i * bl <= (num_blocks - 1) * bl) by (nonlinear_arith)
                    requires
                        i <= num_blocks - 1,
                        bl > 0,
                ;
            }
            let start: u64 = i * bl;
            let end: u64 = if n - start < bl { n } else { start + bl };
            let size: u64 = end - start;
            assert(start <= end <= n);
            assert(size <= bl);
            let su: usize = start as usize;
            let eu: usize = end as usize;
            assert(su == start && eu == end);
            let part = vstd::slice::slice_subrange(data, su, eu);
            assert(part@.len() == size);
            let hash = sha256_digest(part);
            let ghost prev = blocks@;
            blocks.push(SyncBlock { offset: start as i64, size: size as i32, hash });
            proof {
                assert(block_ok(data@, blocks@[i as int], i as int, bl as int));
                assert forall|k: int| 0 <= k < i + 1 implies #[trigger] block_ok(data@, blocks@[k], k, bl as int) by {
                    if k < i {
                        assert(blocks@[k] == prev[k]);
                    }
                }
            }
            i += 1;
        }
        blocks
    }
}

} // verus!

verus! {

/// The version counter of the latest version of a file (1 if it has none).
pub open spec fn index_version_spec(versions: Seq<(u64, u64)>) -> u64 {
    if versions.len() == 0 {
        1
    } else {
        versions.last().1
    }
}

/// `size as u64` for an `i32` block size.
pub open spec fn size_as_u64(size: i32) -> int {
    if size >= 0 {
        size as int
    } else {
        size as int + 0x1_0000_0000_0000_0000
    }
}

/// Sum of the block sizes of a file, each taken as `u64`.
pub open spec fn blocks_size_sum(blocks: Seq<SyncBlock>) -> int
    decreases blocks.len(),
{
    if blocks.len() == 0 {
        0
    } else {
        blocks_size_sum(blocks.drop_last()) + size_as_u64(blocks.last().size)
    }
}

/// How the file on disk relates to its index entry.
#[derive(Clone, Copy, Debug, PartialEq, Eq, Structural)]
pub enum LocalChange {
    /// A peer has a newer version that we have not synced yet; local changes
    /// are ignored until we have it.
    RemoteNewer,
    /// The contents still have the indexed hash.
    Unchanged,
    /// The contents changed: a new version must be recorded.
    Modified,
}

/// What `local_change` decides for an entry and the current contents' hash.
pub open spec fn local_change_spec(versions: Seq<(u64, u64)>, synced_version: u64, indexed_hash: Seq<u8>, hash: Seq<u8>) -> LocalChange {
    if versions.last().1 > synced_version {
        LocalChange::RemoteNewer
    } else if hash == indexed_hash {
        LocalChange::Unchanged
    } else {
        LocalChange::Modified
    }
}

/// `new` is `old` after recording a local edit by `author` that produced
/// contents with `hash` and `blocks`: a version with the next counter is
/// appended and becomes the synced version.
pub open spec fn is_local_edit(old: SyncFile, new: SyncFile, author: u64, hash: Seq<u8>, blocks: Seq<SyncBlock>) -> bool {
    let next = old.versions@.last().1 + 1;
    &&& new.versions@ == old.versions@.push((author, next as u64))
    &&& new.synced_version == next
    &&& new.hash@ == hash
    &&& new.blocks@ == blocks
    &&& new.id == old.id
    &&& new.path@ == old.path@
    &&& new.modified_by == old.modified_by
}

impl SyncFile {
    pub fn get_index_version(&self) -> (r: u64)
        ensures
            r == index_version_spec(self.versions@),
    {
        if self.versions.len() == 0 {
            1
        } else {
            self.versions[self.versions.len() - 1].1
        }
    }

    /// Total size of the file, the sum of its block sizes, added on `u64`
    /// (the sum must fit).
    pub fn get_size(&self) -> (r: u64)
        requires
            blocks_size_sum(self.blocks@) <= u64::MAX,
        ensures
            r == blocks_size_sum(self.blocks@),
    {
        let mut acc: u64 = 0;
        let mut i: usize = 0;
        while i < self.blocks.len()
            invariant
                0 <= i <= self.blocks@.len(),
                blocks_size_sum(self.blocks@) <= u64::MAX,
                acc == blocks_size_sum(self.blocks@.take(i as int)),
            decreases self.blocks@.len() - i,
        {
            proof {
                assert(self.blocks@.take(i + 1).drop_last() =~= self.blocks@.take(i as int));
                lemma_size_sum_prefix(self.blocks@, i + 1);
            }
            let size = self.blocks[i].size;
            #[verifier::truncate]
            let s = size as u64;
            proof {
                assert(size >= 0 ==> size as u64 == size) by (bit_vector);
                assert(size < 0 ==> size as u64 == size + 0x1_0000_0000_0000_0000) by (bit_vector);
            }
            acc = acc + s;
            i += 1;
        }
        proof {
            assert(self.blocks@.take(self.blocks@.len() as int) =~= self.blocks@);
        }
        acc
    }

    /// How the contents on disk, with the given hash, relate to this entry.
    /// Every index entry has at least one version.
    pub fn local_change(&self, hash: &[u8]) -> (r: LocalChange)
        requires
            self.versions@.len() > 0,
        ensures
            r == local_change_spec(self.versions@, self.synced_version, self.hash@, hash@),
    {
        if self.versions[self.versions.len() - 1].1 > self.synced_version {
            LocalChange::RemoteNewer
        } else if comp_hashes(hash, self.hash.as_slice()) {
            LocalChange::Unchanged
        } else {
            LocalChange::Modified
        }
    }

    /// Records a local edit by `author`: appends a version whose counter is
    /// one more than the latest, makes it the synced version, and stores the
    /// new hash and blocks. The counter is a `u64`, so the latest counter
    /// must be below `u64::MAX`.
    pub fn add_local_version(&mut self, author: u64, hash: Vec<u8>, blocks: Vec<SyncBlock>)
        requires
            old(self).versions@.len() > 0,
            old(self).versions@.last().1 < u64::MAX,
        ensures
            is_local_edit(*old(self), *final(self), author, hash@, blocks@),
    {
        let vnumber = self.versions[self.versions.len() - 1].1 + 1;
        self.synced_version = vnumber;
        self.versions.push((author, vnumber));
        self.hash = hash;
        self.blocks = blocks;
    }

    /// The index entry of a file seen for the first time on disk: version 0
    /// authored by us, already synced.
    pub fn new_local(path: String, hash: Vec<u8>, author: u64, blocks: Vec<SyncBlock>) -> (f: SyncFile)
        ensures
            f.id is None,
            f.path@ == path@,
            f.hash@ == hash@,
            f.modified_by == author,
            f.synced_version == 0,
            f.versions@ == seq![(author, 0u64)],
            f.blocks@ == blocks@,
    {
        let mut versions = Vec::new();
        versions.push((author, 0u64));
        SyncFile { id: None, path, hash, modified_by: author, synced_version: 0, versions, blocks }
    }
}

proof fn lemma_size_sum_prefix(blocks: Seq<SyncBlock>, n: int)
    requires
        0 <= n <= blocks.len(),
    ensures
        blocks_size_sum(blocks.take(n)) <= blocks_size_sum(blocks),
    decreases blocks.len(),
{
    if n < blocks.len() {
        assert(blocks.drop_last().take(n) =~= blocks.take(n));
        lemma_size_sum_prefix(blocks.drop_last(), n);
    } else {
        assert(blocks.take(n) =~= blocks);
    }
}

/// Position of the first file whose path is `path`.
pub fn find_file(files: &Vec<SyncFile>, path: &String) -> (r: Option<usize>)
    ensures
        r matches Some(i) ==> i < files@.len() && files@[i as int].path@ == path@
            && forall|j: int| 0 <= j < i ==> #[trigger] files@[j].path@ != path@,
        r is None ==> forall|j: int| 0 <= j < files@.len() ==> #[trigger] files@[j].path@ != path@,
{
    let mut i: usize = 0;
    while i < files.len()
        invariant
            0 <= i <= files@.len(),
            forall|j: int| 0 <= j < i ==> #[trigger] files@[j].path@ != path@,
        decreases files@.len() - i,
    {
        if files[i].path == *path {
            return Some(i);
        }
        i += 1;
    }
    None
}

/// Law: an entry whose contents are still those it indexed is never
/// reported as modified, so indexing again adds no version.
pub proof fn lemma_unchanged_contents_not_modified(f: SyncFile)
    requires
        f.versions@.len() > 0,
    ensures
        local_change_spec(f.versions@, f.synced_version, f.hash@, f.hash@) != LocalChange::Modified,
{
}

/// Law: after a local edit is recorded, the entry is in sync with the edited
/// contents (indexing the same contents again changes nothing), it has one
/// more version, and the new counter is the previous latest plus one.
pub proof fn lemma_local_edit_then_unchanged(old: SyncFile, new: SyncFile, author: u64, hash: Seq<u8>, blocks: Seq<SyncBlock>)
    requires
        old.versions@.len() > 0,
        is_local_edit(old, new, author, hash, blocks),
    ensures
        local_change_spec(new.versions@, new.synced_version, new.hash@, hash) == LocalChange::Unchanged,
        new.versions@.len() == old.versions@.len() + 1,
        index_version_spec(new.versions@) == index_version_spec(old.versions@) + 1,
        new.synced_version == index_version_spec(new.versions@),
{
}

/// Law: a file seen for the first time is in sync with its contents.
pub proof fn lemma_new_local_unchanged(versions: Seq<(u64, u64)>, author: u64, hash: Seq<u8>)
    requires
        versions == seq![(author, 0u64)],
    ensures
        local_change_spec(versions, 0, hash, hash) == LocalChange::Unchanged,
        index_version_spec(versions) == 0,
{
}

} // verus!

verus! {

/// The pieces of a path between `/` separators, empty pieces included.
pub open spec fn split_slash(p: Seq<char>) -> Seq<Seq<char>>
    decreases p.len(),
{
    if p.len() == 0 {
        seq![Seq::empty()]
    } else {
        let prev = split_slash(p.drop_last());
        if p.last() == '/' {
            prev.push(Seq::empty())
        } else {
            prev.update(prev.len() - 1, prev.last().push(p.last()))
        }
    }
}

/// Whether a piece is a component of the path: pieces are components unless
/// empty (repeated or trailing separators) or `.`, except that a `.` first
/// piece of a relative path is kept (`Path::components` on Unix).
pub open spec fn keep_piece(piece: Seq<char>, idx: int, has_root: bool) -> bool {
    &&& piece.len() > 0
    &&& (piece != seq!['.'] || (idx == 0 && !has_root))
}

/// The components among the first `n` pieces, joined with `/`.
pub open spec fn join_kept(ps: Seq<Seq<char>>, n: nat, has_root: bool) -> Seq<char>
    decreases n,
{
    if n == 0 {
        Seq::empty()
    } else {
        let prev = join_kept(ps, (n - 1) as nat, has_root);
        let pc = ps[n - 1];
        if keep_piece(pc, n - 1, has_root) {
            if prev.len() == 0 {
                pc
            } else {
                prev.push('/') + pc
            }
        } else {
            prev
        }
    }
}

/// The BEP name of a relative path: its components joined with `/`; a root
/// is dropped.
pub open spec fn bep_name(p: Seq<char>) -> Seq<char> {
    let ps = split_slash(p);
    join_kept(ps, ps.len(), p.len() > 0 && p[0] == '/')
}

proof fn lemma_join_kept_prefix(ps1: Seq<Seq<char>>, ps2: Seq<Seq<char>>, n: nat, has_root: bool)
    requires
        n <= ps1.len(),
        n <= ps2.len(),
        ps1.take(n as int) == ps2.take(n as int),
    ensures
        join_kept(ps1, n, has_root) == join_kept(ps2, n, has_root),
    decreases n,
{
    if n > 0 {
        assert(ps1.take(n - 1) =~= ps1.take(n as int).take(n - 1));
        assert(ps2.take(n - 1) =~= ps2.take(n as int).take(n - 1));
        lemma_join_kept_prefix(ps1, ps2, (n - 1) as nat, has_root);
        assert(ps1[n - 1] == ps1.take(n as int)[n - 1]);
        assert(ps2[n - 1] == ps2.take(n as int)[n - 1]);
    }
}

impl SyncFile {
    /// Gets the `name` as formatted in BEP. That means the path of the file,
    /// relative to the sync directory, separated by / regardless of OS
    pub fn get_name(&self) -> (r: String)
        ensures
            r@ == bep_name(self.path@),
    {
        let p = self.path.as_str();
        let n = p.unicode_len();
        let has_root = n > 0 && p.get_char(0) == '/';
        let mut out = String::new();
        let mut cur = String::new();
        let mut idx: usize = 0;
        let mut i: usize = 0;
        while i < n
            invariant
                n == p@.len(),
                p@ == self.path@,
                has_root == (p@.len() > 0 && p@[0] == '/'),
                0 <= i <= n,
                idx < i + 1,
                split_slash(p@.take(i as int)).len() == idx + 1,
                cur@ == split_slash(p@.take(i as int)).last(),
                out@ == join_kept(split_slash(p@.take(i as int)), idx as nat, has_root),
            decreases n - i,
        {
            let c = p.get_char(i);
            let ghost ps = split_slash(p@.take(i as int));
            proof {
                assert(p@.take(i + 1).drop_last() =~= p@.take(i as int));
                assert(p@.take(i + 1).last() == c);
            }
            let ghost ps2 = split_slash(p@.take(i + 1));
            if c == '/' {
                let keep = cur.unicode_len() > 0 && (!(cur.unicode_len() == 1 && cur.as_str().get_char(0) == '.') || (idx == 0 && !has_root));
                proof {
                    assert(ps2 == ps.push(Seq::empty()));
                    assert(ps2.take(idx as int) =~= ps.take(idx as int));
                    lemma_join_kept_prefix(ps, ps2, idx as nat, has_root);
                    assert(ps2[idx as int] == cur@);
                    if cur@.len() == 1 && cur@[0] == '.' {
                        assert(cur@ =~= seq!['.']);
                    }
                    assert(keep == keep_piece(cur@, idx as int, has_root));
                }
                if keep {
                    if out.unicode_len() > 0 {
                        push_char(&mut out, '/');
                    }
                    out.append(cur.as_str());
                }
                cur = String::new();
                idx += 1;
                proof {
                    assert(out@ =~= join_kept(ps2, idx as nat, has_root));
                    assert(cur@ =~= ps2.last());
                }
            } else {
                push_char(&mut cur, c);
                proof {
                    assert(ps2 == ps.update(ps.len() - 1, ps.last().push(c)));
                    assert(ps2.take(idx as int) =~= ps.take(idx as int));
                    lemma_join_kept_prefix(ps, ps2, idx as nat, has_root);
                }
            }
            i += 1;
        }
        proof {
            assert(p@.take(n as int) =~= p@);
        }
        let ghost ps = split_slash(p@);
        let keep = cur.unicode_len() > 0 && (!(cur.unicode_len() == 1 && cur.as_str().get_char(0) == '.') || (idx == 0 && !has_root));
        proof {
            assert(ps[idx as int] == cur@);
            if cur@.len() == 1 && cur@[0] == '.' {
                assert(cur@ =~= seq!['.']);
            }
            assert(keep == keep_piece(cur@, idx as int, has_root));
        }
        if keep {
            if out.unicode_len() > 0 {
                push_char(&mut out, '/');
            }
            out.append(cur.as_str());
        }
        proof {
            assert(out@ =~= join_kept(ps, (idx + 1) as nat, has_root));
        }
        out
    }
}

} // verus!

verus! {

/// `a` and `b` hold the same block.
pub open spec fn same_block(a: SyncBlock, b: SyncBlock) -> bool {
    &&& a.offset == b.offset
    &&& a.size == b.size
    &&& a.hash@ == b.hash@
}

/// Two block lists hold the same blocks in the same order.
pub open spec fn same_blocks(a: Seq<SyncBlock>, b: Seq<SyncBlock>) -> bool {
    &&& a.len() == b.len()
    &&& forall|i: int| 0 <= i < a.len() ==> #[trigger] same_block(a[i], b[i])
}

/// `a` and `b` describe the same file entry.
pub open spec fn same_file(a: SyncFile, b: SyncFile) -> bool {
    &&& a.id == b.id
    &&& a.path@ == b.path@
    &&& a.hash@ == b.hash@
    &&& a.modified_by == b.modified_by
    &&& a.synced_version == b.synced_version
    &&& a.versions@ == b.versions@
    &&& same_blocks(a.blocks@, b.blocks@)
}

impl SyncBlock {
    /// A copy of the block.
    pub fn duplicate(&self) -> (r: SyncBlock)
        ensures
            same_block(r, *self),
    {
        SyncBlock { offset: self.offset, size: self.size, hash: crate::models::copy_bytes(&self.hash) }
    }
}

/// A copy of a block list.
pub fn duplicate_blocks(v: &Vec<SyncBlock>) -> (r: Vec<SyncBlock>)
    ensures
        same_blocks(r@, v@),
{
    let mut out: Vec<SyncBlock> = Vec::new();
    let mut i: usize = 0;
    while i < v.len()
        invariant
            0 <= i <= v@.len(),
            out@.len() == i,
            forall|k: int| 0 <= k < i ==> #[trigger] same_block(out@[k], v@[k]),
        decreases v@.len() - i,
    {
        out.push(v[i].duplicate());
        i += 1;
    }
    out
}

/// A copy of a version list.
pub fn copy_versions(v: &Vec<(u64, u64)>) -> (r: Vec<(u64, u64)>)
    ensures
        r@ == v@,
{
    let mut out: Vec<(u64, u64)> = Vec::new();
    let mut i: usize = 0;
    while i < v.len()
        invariant
            0 <= i <= v@.len(),
            out@ == v@.take(i as int),
        decreases v@.len() - i,
    {
        out.push(v[i]);
        i += 1;
        proof {
            assert(v@.take(i as int) =~= v@.take(i - 1).push(v@[i - 1]));
        }
    }
    proof {
        assert(v@.take(v@.len() as int) =~= v@);
    }
    out
}

impl SyncFile {
    /// A copy of the entry.
    pub fn duplicate(&self) -> (r: SyncFile)
        ensures
            same_file(r, *self),
    {
        SyncFile {
            id: self.id,
            path: self.path.clone(),
            hash: crate::models::copy_bytes(&self.hash),
            modified_by: self.modified_by,
            synced_version: self.synced_version,
            versions: copy_versions(&self.versions),
            blocks: duplicate_blocks(&self.blocks),
        }
    }
}

} // verus!

verus! {

/// What indexing one file on disk gives: the entry for the index, and
/// whether it changed (a changed entry is stored and peers are told).
#[derive(Debug)]
pub struct IndexedFile {
    pub entry: SyncFile,
    pub changed: bool,
}

/// `e` is a new entry for a file first seen on disk with contents `data`:
/// version 0 by `author`, synced, with the contents' hash and blocks.
pub open spec fn new_local_entry(e: SyncFile, name: Seq<char>, data: Seq<u8>, author: u64) -> bool {
    &&& e.id is None
    &&& e.path@ == name
    &&& e.hash@ == sha256(data)
    &&& e.modified_by == author
    &&& e.synced_version == 0
    &&& e.versions@ == seq![(author, 0u64)]
    &&& blocks_of(data, e.blocks@)
}

/// `new` is `old` after a local edit by `author` to contents `data`.
pub open spec fn edited_entry(new: SyncFile, old: SyncFile, data: Seq<u8>, author: u64) -> bool {
    let next = old.versions@.last().1 + 1;
    &&& new.versions@ == old.versions@.push((author, next as u64))
    &&& new.synced_version == next
    &&& new.hash@ == sha256(data)
    &&& blocks_of(data, new.blocks@)
    &&& new.id == old.id
    &&& new.path@ == old.path@
    &&& new.modified_by == old.modified_by
}

/// The version counters of an entry start at zero and step by one, and its
/// synced version is not past the latest.
pub open spec fn counters_ok(f: SyncFile) -> bool {
    &&& f.versions@.len() > 0
    &&& forall|j: int| 0 <= j < f.versions@.len() ==> (#[trigger] f.versions@[j]).1 == j
    &&& f.synced_version <= f.versions@.last().1
}

/// Every entry of a list has well-formed version counters.
pub open spec fn all_counters_ok(files: Seq<SyncFile>) -> bool {
    forall|i: int| 0 <= i < files.len() ==> counters_ok(#[trigger] files[i])
}

/// Every entry of the stored index has a version.
pub open spec fn index_entries_ok(files: Seq<SyncFile>) -> bool {
    forall|i: int| 0 <= i < files.len() ==> (#[trigger] files[i]).versions@.len() > 0
}

/// `i` is the first entry whose path is `name`.
pub open spec fn first_with_path(files: Seq<SyncFile>, name: Seq<char>, i: int) -> bool {
    &&& 0 <= i < files.len()
    &&& files[i].path@ == name
    &&& forall|j: int| 0 <= j < i ==> (#[trigger] files[j]).path@ != name
}

/// Indexes one file found on disk, named `name` in the directory and with
/// contents `data`, against the stored entries `files`: a file a peer has a
/// newer version of is left as it is; an unchanged file too; a modified one
/// gets a new version by `author` (the entry in `files` is updated); a file
/// not yet indexed gets a new entry. `None`, a fatal error for the client,
/// when a modified file's version counter is at its maximum, or when a file
/// that needs new blocks (a new or modified one) is empty.
pub fn index_disk_file(files: &mut Vec<SyncFile>, name: &String, data: &[u8], author: u64) -> (r: Option<IndexedFile>)
    requires
        index_entries_ok(old(files)@),
        sha256_input_ok(data@),
    ensures
        final(files)@.len() == old(files)@.len(),
        index_entries_ok(final(files)@),
        all_counters_ok(old(files)@) ==> all_counters_ok(final(files)@) && (r is Some ==> counters_ok(r->0.entry)),
        (forall|j: int| 0 <= j < old(files)@.len() ==> (#[trigger] old(files)@[j]).path@ != name@) ==> {
            &&& final(files)@ == old(files)@
            &&& (data@.len() > 0 <==> r is Some)
            &&& r is Some ==> r->0.changed && new_local_entry(r->0.entry, name@, data@, author)
        },
        forall|i: int| first_with_path(old(files)@, name@, i) ==> {
            let old_e = old(files)@[i];
            match local_change_spec(old_e.versions@, old_e.synced_version, old_e.hash@, sha256(data@)) {
                LocalChange::Modified => {
                    &&& (old_e.versions@.last().1 == u64::MAX || data@.len() == 0 <==> r is None)
                    &&& r is Some ==> {
                        &&& r->0.changed
                        &&& edited_entry(r->0.entry, old_e, data@, author)
                        &&& same_file(final(files)@[i], r->0.entry)
                        &&& forall|j: int| 0 <= j < old(files)@.len() && j != i
                            ==> #[trigger] final(files)@[j] == old(files)@[j]
                    }
                    &&& r is None ==> final(files)@ == old(files)@
                },
                _ => {
                    &&& final(files)@ == old(files)@
                    &&& r is Some
                    &&& !r->0.changed
                    &&& same_file(r->0.entry, old_e)
                },
            }
        },
{
    let hash = sha256_digest(data);
    match find_file(files, name) {
        Some(i) => {
            proof {
                assert(first_with_path(files@, name@, i as int));
            }
            let change = files[i].local_change(hash.as_slice());
            match change {
                LocalChange::Modified => {
                    let last = files[i].versions[files[i].versions.len() - 1].1;
                    if last == u64::MAX || data.len() == 0 {
                        return None;
                    }
                    let blocks = SyncFile::gen_blocks(data);
                    let mut entry = files[i].duplicate();
                    let ghost old_e = files@[i as int];
                    entry.add_local_version(author, hash, blocks);
                    let stored = entry.duplicate();
                    let ghost before = files@;
                    files.set(i, stored);
                    proof {
                        assert forall|j: int| 0 <= j < files@.len() implies (#[trigger] files@[j]).versions@.len() > 0 by {
                            if j != i as int {
                                assert(files@[j] == before[j]);
                            }
                        }
                        if all_counters_ok(before) {
                            assert(counters_ok(before[i as int]));
                            assert(edited_entry(entry, old_e, data@, author));
                            lemma_indexing_keeps_counters(entry, old_e, name@, data@, author);
                            assert forall|j: int| 0 <= j < files@.len() implies counters_ok(#[trigger] files@[j]) by {
                                if j != i as int {
                                    assert(files@[j] == before[j]);
                                } else {
                                    assert(files@[j].versions@ == entry.versions@);
                                }
                            }
                        }
                    }
                    Some(IndexedFile { entry, changed: true })
                },
                _ => {
                    let entry = files[i].duplicate();
                    proof {
                        if all_counters_ok(files@) {
                            assert(counters_ok(files@[i as int]));
                        }
                    }
                    Some(IndexedFile { entry, changed: false })
                },
            }
        },
        None => {
            if data.len() == 0 {
                return None;
            }
            let blocks = SyncFile::gen_blocks(data);
            let entry = SyncFile::new_local(name.clone(), hash, author, blocks);
            proof {
                lemma_indexing_keeps_counters(entry, entry, name@, data@, author);
            }
            Some(IndexedFile { entry, changed: true })
        },
    }
}

} // verus!

verus! {

/// Law: indexing keeps version counters well formed. A new entry starts at
/// counter zero, and an edit of an entry whose counters start at zero and
/// step by one appends the next counter and syncs to it.
pub proof fn lemma_indexing_keeps_counters(e: SyncFile, old_e: SyncFile, name: Seq<char>, data: Seq<u8>, author: u64)
    requires
        new_local_entry(e, name, data, author)
            || (counters_ok(old_e) && old_e.versions@.last().1 < u64::MAX && edited_entry(e, old_e, data, author)),
    ensures
        counters_ok(e),
        e.synced_version == e.versions@.last().1,
{
    if !new_local_entry(e, name, data, author) {
        let n = old_e.versions@.len();
        assert(old_e.versions@[n - 1].1 == n - 1);
        assert forall|j: int| 0 <= j < e.versions@.len() implies (#[trigger] e.versions@[j]).1 == j by {
            if j < n {
                assert(e.versions@[j] == old_e.versions@[j]);
            }
        }
    }
}

/// Law: indexing is stable. Right after a file is indexed (as a new entry or
/// as an edit), indexing the same contents again finds it unchanged.
pub proof fn lemma_reindex_unchanged(e: SyncFile, old_e: SyncFile, name: Seq<char>, data: Seq<u8>, author: u64)
    requires
        old_e.versions@.len() > 0,
        new_local_entry(e, name, data, author) || edited_entry(e, old_e, data, author),
    ensures
        e.versions@.len() > 0,
        local_change_spec(e.versions@, e.synced_version, e.hash@, sha256(data)) == LocalChange::Unchanged,
{
}

} // verus!

verus! {

/// A block as plain values.
pub struct SyncBlockView {
    pub offset: i64,
    pub size: i32,
    pub hash: Seq<u8>,
}

/// An index entry as plain values.
pub struct SyncFileView {
    pub id: Option<i32>,
    pub path: Seq<char>,
    pub hash: Seq<u8>,
    pub modified_by: u64,
    pub synced_version: u64,
    pub versions: Seq<(u64, u64)>,
    pub blocks: Seq<SyncBlockView>,
}

impl View for SyncBlock {
    type V = SyncBlockView;

    open spec fn view(&self) -> SyncBlockView {
        SyncBlockView { offset: self.offset, size: self.size, hash: self.hash@ }
    }
}

/// The views of a block list.
pub open spec fn block_views(s: Seq<SyncBlock>) -> Seq<SyncBlockView> {
    s.map_values(|b: SyncBlock| b@)
}

impl View for SyncFile {
    type V = SyncFileView;

    open spec fn view(&self) -> SyncFileView {
        SyncFileView {
            id: self.id,
            path: self.path@,
            hash: self.hash@,
            modified_by: self.modified_by,
            synced_version: self.synced_version,
            versions: self.versions@,
            blocks: block_views(self.blocks@),
        }
    }
}

/// The views of a list of entries.
pub open spec fn file_views(s: Seq<SyncFile>) -> Seq<SyncFileView> {
    s.map_values(|f: SyncFile| f@)
}

/// Entries that describe the same file have the same view.
pub proof fn lemma_same_file_view(a: SyncFile, b: SyncFile)
    requires
        same_file(a, b),
    ensures
        a@ == b@,
{
    assert(block_views(a.blocks@) =~= block_views(b.blocks@)) by {
        assert forall|i: int| 0 <= i < a.blocks@.len() implies block_views(a.blocks@)[i] == block_views(b.blocks@)[i] by {
            assert(same_block(a.blocks@[i], b.blocks@[i]));
        }
    }
}

} // verus!
