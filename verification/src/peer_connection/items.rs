//! The messages of the Block Exchange Protocol, as plain values. Their
//! protobuf encoding is done outside the library; the library decides what
//! goes into them and frames the encoded bytes.
use vstd::prelude::*;

verus! {

/// The kind of a message, as carried in its header.
#[derive(Clone, Copy, Debug, PartialEq, Eq, Structural)]
pub enum MessageType {
    ClusterConfig,
    Index,
    IndexUpdate,
    Request,
    Response,
    DownloadProgress,
    Ping,
    Close,
}

/// The wire code of a message type.
pub open spec fn message_type_code_spec(t: MessageType) -> i32 {
    match t {
        MessageType::ClusterConfig => 0,
        MessageType::Index => 1,
        MessageType::IndexUpdate => 2,
        MessageType::Request => 3,
        MessageType::Response => 4,
        MessageType::DownloadProgress => 5,
        MessageType::Ping => 6,
        MessageType::Close => 7,
    }
}

/// The message type with a given wire code, if any.
pub open spec fn message_type_of_code(c: i32) -> Option<MessageType> {
    if c == 0 {
        Some(MessageType::ClusterConfig)
    } else if c == 1 {
        Some(MessageType::Index)
    } else if c == 2 {
        Some(MessageType::IndexUpdate)
    } else if c == 3 {
        Some(MessageType::Request)
    } else if c == 4 {
        Some(MessageType::Response)
    } else if c == 5 {
        Some(MessageType::DownloadProgress)
    } else if c == 6 {
        Some(MessageType::Ping)
    } else if c == 7 {
        Some(MessageType::Close)
    } else {
        None
    }
}

pub fn message_type_code(t: MessageType) -> (r: i32)
    ensures
        r == message_type_code_spec(t),
{
    match t {
        MessageType::ClusterConfig => 0,
        MessageType::Index => 1,
        MessageType::IndexUpdate => 2,
        MessageType::Request => 3,
        MessageType::Response => 4,
        MessageType::DownloadProgress => 5,
        MessageType::Ping => 6,
        MessageType::Close => 7,
    }
}

pub fn message_type_from_code(c: i32) -> (r: Option<MessageType>)
    ensures
        r == message_type_of_code(c),
{
    if c == 0 {
        Some(MessageType::ClusterConfig)
    } else if c == 1 {
        Some(MessageType::Index)
    } else if c == 2 {
        Some(MessageType::IndexUpdate)
    } else if c == 3 {
        Some(MessageType::Request)
    } else if c == 4 {
        Some(MessageType::Response)
    } else if c == 5 {
        Some(MessageType::DownloadProgress)
    } else if c == 6 {
        Some(MessageType::Ping)
    } else if c == 7 {
        Some(MessageType::Close)
    } else {
        None
    }
}

/// Law: the wire codes of message types are distinct, and reading a code
/// back gives the type it was written for.
pub proof fn lemma_message_type_code_roundtrip(t: MessageType, c: i32)
    ensures
        message_type_of_code(message_type_code_spec(t)) == Some(t),
        message_type_of_code(c) matches Some(u) ==> message_type_code_spec(u) == c,
{
}

/// The result code of a `Response`.
#[derive(Clone, Copy, Debug, PartialEq, Eq, Structural)]
pub enum ErrorCode {
    NoError,
    Generic,
    NoSuchFile,
    InvalidFile,
}

pub open spec fn error_code_spec(e: ErrorCode) -> i32 {
    match e {
        ErrorCode::NoError => 0,
        ErrorCode::Generic => 1,
        ErrorCode::NoSuchFile => 2,
        ErrorCode::InvalidFile => 3,
    }
}

pub open spec fn error_code_of(c: i32) -> Option<ErrorCode> {
    if c == 0 {
        Some(ErrorCode::NoError)
    } else if c == 1 {
        Some(ErrorCode::Generic)
    } else if c == 2 {
        Some(ErrorCode::NoSuchFile)
    } else if c == 3 {
        Some(ErrorCode::InvalidFile)
    } else {
        None
    }
}

pub fn error_code(e: ErrorCode) -> (r: i32)
    ensures
        r == error_code_spec(e),
{
    match e {
        ErrorCode::NoError => 0,
        ErrorCode::Generic => 1,
        ErrorCode::NoSuchFile => 2,
        ErrorCode::InvalidFile => 3,
    }
}

pub fn error_code_from_i32(c: i32) -> (r: Option<ErrorCode>)
    ensures
        r == error_code_of(c),
{
    if c == 0 {
        Some(ErrorCode::NoError)
    } else if c == 1 {
        Some(ErrorCode::Generic)
    } else if c == 2 {
        Some(ErrorCode::NoSuchFile)
    } else if c == 3 {
        Some(ErrorCode::InvalidFile)
    } else {
        None
    }
}

/// Law: reading an error code back gives the code it was written for.
pub proof fn lemma_error_code_roundtrip(e: ErrorCode, c: i32)
    ensures
        error_code_of(error_code_spec(e)) == Some(e),
        error_code_of(c) matches Some(u) ==> error_code_spec(u) == c,
{
}

/// A message that can be sent to a peer after the hello: its header and
/// protobuf body, framed.
pub trait EncodableItem {
    fn encode_for_bep(&self) -> Vec<u8>;
}

/// Wire code of an uncompressed message.
pub const COMPRESSION_NONE: i32 = 0;

/// Wire code of a regular file in `FileInfo.file_type`.
pub const FILE_INFO_TYPE_FILE: i32 = 0;

/// The header that precedes every message after the hello.
#[derive(Clone, Copy, Debug, PartialEq, Eq, Structural)]
pub struct Header {
    pub msg_type: i32,
    pub compression: i32,
}

/// The first message each side sends.
#[derive(Clone, Debug)]
pub struct Hello {
    pub device_name: String,
    pub client_name: String,
    pub client_version: String,
    pub num_connections: i32,
    pub timestamp: i64,
}

#[derive(Clone, Debug)]
pub struct Close {
    pub reason: String,
}

#[derive(Clone, Copy, Debug, PartialEq, Eq, Structural)]
pub struct Ping {}

/// A request for (a block of) a file.
#[derive(Clone, Debug)]
pub struct Request {
    pub id: i32,
    pub folder: String,
    pub name: String,
    pub offset: i64,
    pub size: i32,
    pub hash: Vec<u8>,
    pub from_temporary: bool,
    pub weak_hash: u32,
    pub block_no: i32,
}

/// The answer to a `Request`.
#[derive(Clone, Debug)]
pub struct Response {
    pub id: i32,
    pub data: Vec<u8>,
    pub code: i32,
}

/// One entry of a version vector: who made a change, and its counter.
#[derive(Clone, Copy, Debug, PartialEq, Eq, Structural)]
pub struct Counter {
    pub id: u64,
    pub value: u64,
}

#[derive(Clone, Debug)]
pub struct Vector {
    pub counters: Vec<Counter>,
}

#[derive(Clone, Debug)]
pub struct BlockInfo {
    pub offset: i64,
    pub size: i32,
    pub hash: Vec<u8>,
    pub weak_hash: u32,
}

/// A file as announced in an index. Platform data is never sent.
#[derive(Clone, Debug)]
pub struct FileInfo {
    pub name: String,
    pub file_type: i32,
    pub size: i64,
    pub permissions: u32,
    pub modified_s: i64,
    pub modified_ns: i32,
    pub modified_by: u64,
    pub deleted: bool,
    pub invalid: bool,
    pub no_permissions: bool,
    pub version: Option<Vector>,
    pub sequence: i64,
    pub block_size: i32,
    pub blocks: Vec<BlockInfo>,
    pub symlink_target: String,
    pub blocks_hash: Vec<u8>,
    pub encrypted: Vec<u8>,
    pub local_flags: u32,
    pub version_hash: Vec<u8>,
    pub inode_change_ns: i64,
    pub encryption_trailer_size: i32,
}

/// The files of a folder (also the shape of an index update).
#[derive(Clone, Debug)]
pub struct Index {
    pub folder: String,
    pub files: Vec<FileInfo>,
    pub last_sequence: i64,
}

#[derive(Clone, Debug)]
pub struct Device {
    pub id: Vec<u8>,
    pub name: String,
    pub addresses: Vec<String>,
    pub compression: i32,
    pub cert_name: String,
    pub max_sequence: i64,
    pub introducer: bool,
    pub index_id: u64,
    pub skip_introduction_removals: bool,
    pub encryption_password_token: Vec<u8>,
}

#[derive(Clone, Debug)]
pub struct Folder {
    pub id: String,
    pub label: String,
    pub read_only: bool,
    pub ignore_permissions: bool,
    pub ignore_delete: bool,
    pub disable_temp_indexes: bool,
    pub paused: bool,
    pub devices: Vec<Device>,
}

#[derive(Clone, Debug)]
pub struct ClusterConfig {
    pub folders: Vec<Folder>,
    pub secondary: bool,
}

} // verus!
