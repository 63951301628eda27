//! Where the blocks of synced files are read and written.
use vstd::prelude::*;

verus! {

/// Why a storage operation failed.
#[derive(Debug)]
pub enum StorageError {
    InvalidPath,
    IOError(std::io::Error),
    Other,
}

/// A place that stores the blocks of files, addressed by URL and offset.
pub trait StorageBackend {
    /// Writes `data` at `offset` of the file at `url`, creating the file.
    fn write_block(&self, url: &str, offset: usize, data: &[u8]) -> Result<(), StorageError>;

    /// Reads `len` bytes at `offset` of the file at `url`.
    fn read_block(&self, url: &str, offset: usize, len: usize) -> Result<Vec<u8>, StorageError>;
}

/// Blocks stored in files on the local disk.
#[derive(Debug)]
pub struct LocalStorageBackend {}

impl From<std::io::Error> for StorageError {
    fn from(value: std::io::Error) -> (r: Self) {
        StorageError::IOError(value)
    }
}

impl vstd::std_specs::convert::FromSpecImpl<std::io::Error> for StorageError {
    open spec fn obeys_from_spec() -> bool {
        true
    }

    open spec fn from_spec(v: std::io::Error) -> Self {
        StorageError::IOError(v)
    }
}

} // verus!
