//! How messages travel on the connection: the hello preamble, the framing of
//! every later message (big-endian lengths around the encoded header and
//! body), and the checks made on what is read back.
use vstd::prelude::*;
use super::error::PeerConnectionError;
use super::items::{
    message_type_code, message_type_code_spec, message_type_of_code, Header, Hello, MessageType,
    COMPRESSION_NONE,
};

verus! {

/// Every connection starts with these four bytes (big endian).
pub const HELLO_MAGIC: u32 = 0x2EA7D90B_u32;

/// The two bytes of `v` in big-endian order (`u16::to_be_bytes`).
pub open spec fn be16(v: int) -> Seq<u8> {
    seq![((v / 0x100) % 0x100) as u8, (v % 0x100) as u8]
}

/// The four bytes of `v` in big-endian order (`u32::to_be_bytes`).
pub open spec fn be32(v: int) -> Seq<u8> {
    seq![
        ((v / 0x100_0000) % 0x100) as u8,
        ((v / 0x1_0000) % 0x100) as u8,
        ((v / 0x100) % 0x100) as u8,
        (v % 0x100) as u8,
    ]
}

/// The number that two big-endian bytes stand for (`u16::from_be_bytes`).
pub open spec fn be16_value(s: Seq<u8>) -> int {
    s[0] * 0x100 + s[1]
}

/// The number that four big-endian bytes stand for (`u32::from_be_bytes`).
pub open spec fn be32_value(s: Seq<u8>) -> int {
    s[0] * 0x100_0000 + s[1] * 0x1_0000 + s[2] * 0x100 + s[3]
}

/// A framed message: the header's length as `u16` (cast with `as`, keeping
/// its low 16 bits), the header, the body's length
/// as `u32` (low 32 bits), the body.
pub open spec fn framed(header: Seq<u8>, body: Seq<u8>) -> Seq<u8> {
    be16((header.len() % 0x1_0000) as int) + header + be32((body.len() % 0x1_0000_0000) as int) + body
}

/// The hello preamble: the magic, the hello's length as `u16` (low 16 bits),
/// the encoded hello.
pub open spec fn hello_preamble(hello: Seq<u8>) -> Seq<u8> {
    be32(HELLO_MAGIC as int) + be16((hello.len() % 0x1_0000) as int) + hello
}

pub fn u16_to_be(v: u16) -> (r: [u8; 2])
    ensures
        r@ == be16(v as int),
{
    let hi: u8 = (v / 0x100) as u8;
    let lo: u8 = (v % 0x100) as u8;
    let r = [hi, lo];
    proof {
        assert(r@ =~= be16(v as int));
    }
    r
}

pub fn u32_to_be(v: u32) -> (r: [u8; 4])
    ensures
        r@ == be32(v as int),
{
    let b0: u8 = ((v / 0x100_0000) % 0x100) as u8;
    let b1: u8 = ((v / 0x1_0000) % 0x100) as u8;
    let b2: u8 = ((v / 0x100) % 0x100) as u8;
    let b3: u8 = (v % 0x100) as u8;
    let r = [b0, b1, b2, b3];
    proof {
        assert(r@ =~= be32(v as int));
    }
    r
}

/// A big-endian `u16`, as `read_u16` reads it from the stream.
pub fn u16_from_be(b: [u8; 2]) -> (r: u16)
    ensures
        r == be16_value(b@),
{
    (b[0] as u16) * 0x100 + (b[1] as u16)
}

/// A big-endian `u32`, as `read_u32` reads it from the stream.
pub fn u32_from_be(b: [u8; 4]) -> (r: u32)
    ensures
        r == be32_value(b@),
{
    (b[0] as u32) * 0x100_0000 + (b[1] as u32) * 0x1_0000 + (b[2] as u32) * 0x100 + (b[3] as u32)
}

/// Appends bytes to a buffer.
pub(crate) fn append_bytes(out: &mut Vec<u8>, src: &[u8])
    ensures
        final(out)@ == old(out)@ + src@,
{
    let ghost start = out@;
    let mut i: usize = 0;
    while i < src.len()
        invariant
            0 <= i <= src@.len(),
            out@ == start + src@.take(i as int),
        decreases src@.len() - i,
    {
        out.push(src[i]);
        i += 1;
        proof {
            assert(src@.take(i as int) =~= src@.take(i - 1).push(src@[i - 1]));
        }
    }
    proof {
        assert(src@.take(src@.len() as int) =~= src@);
    }
}

/// Frames an encoded header and body for sending.
pub fn frame_message(header: &[u8], body: &[u8]) -> (r: Vec<u8>)
    ensures
        r@ == framed(header@, body@),
{
    let mut out: Vec<u8> = Vec::new();
    #[verifier::truncate]
    let hl: u16 = header.len() as u16;
    let n = header.len();
    let m: u64 = body.len() as u64;
    #[verifier::truncate]
    let bl: u32 = m as u32;
    proof {
        assert(n as u16 == n % 0x1_0000) by (bit_vector);
        assert(m as u32 == m % 0x1_0000_0000) by (bit_vector);
    }
    append_bytes(&mut out, &u16_to_be(hl));
    append_bytes(&mut out, header);
    append_bytes(&mut out, &u32_to_be(bl));
    append_bytes(&mut out, body);
    out
}

/// The preamble that opens a connection, around an encoded hello.
pub fn hello_message(hello: &[u8]) -> (r: Vec<u8>)
    ensures
        r@ == hello_preamble(hello@),
{
    let mut out: Vec<u8> = Vec::new();
    #[verifier::truncate]
    let hl: u16 = hello.len() as u16;
    let n = hello.len();
    proof {
        assert(n as u16 == n % 0x1_0000) by (bit_vector);
    }
    append_bytes(&mut out, &u32_to_be(HELLO_MAGIC));
    append_bytes(&mut out, &u16_to_be(hl));
    append_bytes(&mut out, hello);
    out
}

/// Checks the first four bytes a peer sent: they must be the hello magic.
pub fn check_hello_magic(b: [u8; 4]) -> (r: Result<(), PeerConnectionError>)
    ensures
        r is Ok <==> be32_value(b@) == HELLO_MAGIC,
        r is Err ==> r->Err_0 == PeerConnectionError::InvalidMagicBytes,
{
    let magic = u32_from_be(b);
    if magic == 0 {
        Err(PeerConnectionError::InvalidMagicBytes)
    } else if magic != HELLO_MAGIC {
        Err(PeerConnectionError::InvalidMagicBytes)
    } else {
        Ok(())
    }
}

/// The hello this client sends: our device name, the client's name and
/// version, one connection, and the time of sending (seconds since the
/// epoch).
pub fn make_hello(name: String, timestamp: i64) -> (h: Hello)
    ensures
        h.device_name@ == name@,
        h.client_name@ == "bep.rs"@,
        h.client_version@ == "0.1"@,
        h.num_connections == 1,
        h.timestamp == timestamp,
{
    Hello {
        device_name: name,
        client_name: String::from_str("bep.rs"),
        client_version: String::from_str("0.1"),
        num_connections: 1,
        timestamp,
    }
}

/// The header of an uncompressed message of type `t`.
pub fn header_for(t: MessageType) -> (h: Header)
    ensures
        h.msg_type == message_type_code_spec(t),
        h.compression == 0,
{
    Header { msg_type: message_type_code(t), compression: COMPRESSION_NONE }
}

/// Why a received header is refused.
#[derive(Clone, Copy, Debug, PartialEq, Eq, Structural)]
pub enum HeaderError {
    /// The peer compresses its messages, which this client does not support.
    Compressed,
    /// A message type this client does not handle.
    UnknownType,
}

impl HeaderError {
    pub fn describe(&self) -> (r: String)
        ensures
            *self == HeaderError::Compressed ==> r@ == "Peer is trying to use compression, but we do not support it"@,
            *self == HeaderError::UnknownType ==> r@ == "Unknown message type"@,
    {
        match self {
            HeaderError::Compressed => String::from_str("Peer is trying to use compression, but we do not support it"),
            HeaderError::UnknownType => String::from_str("Unknown message type"),
        }
    }
}

/// The message types a reader handles: all but download progress.
pub open spec fn handled_type(t: MessageType) -> bool {
    t != MessageType::DownloadProgress
}

/// What a header announces, or why it is refused.
pub open spec fn classify_spec(h: Header) -> Result<MessageType, HeaderError> {
    if h.compression != 0 {
        Err(HeaderError::Compressed)
    } else {
        match message_type_of_code(h.msg_type) {
            Some(t) => if handled_type(t) { Ok(t) } else { Err(HeaderError::UnknownType) },
            None => Err(HeaderError::UnknownType),
        }
    }
}

/// Decides what to read after a header: compressed messages are refused,
/// as are types the reader does not handle.
pub fn classify_header(h: &Header) -> (r: Result<MessageType, HeaderError>)
    ensures
        r == classify_spec(*h),
{
    if h.compression != COMPRESSION_NONE {
        return Err(HeaderError::Compressed);
    }
    match super::items::message_type_from_code(h.msg_type) {
        Some(t) => {
            if t == MessageType::DownloadProgress {
                Err(HeaderError::UnknownType)
            } else {
                Ok(t)
            }
        },
        None => Err(HeaderError::UnknownType),
    }
}

/// What the reader does with a message it has read.
#[derive(Clone, Copy, Debug, PartialEq, Eq, Structural)]
pub enum ReaderAction {
    /// Answer the request (in a task of its own).
    HandleRequest,
    /// Merge the index or index update (in a task of its own).
    HandleIndex,
    /// Hand the response to the request waiting for it.
    HandleResponse,
    /// The peer closed the connection: stop reading.
    Stop,
    /// Nothing to do (a ping, or a cluster config, which is not used yet).
    Ignore,
}

/// The reader's decision for a message of a type it handles.
pub fn reader_action(t: MessageType) -> (r: ReaderAction)
    requires
        handled_type(t),
    ensures
        r == match t {
            MessageType::Request => ReaderAction::HandleRequest,
            MessageType::Index => ReaderAction::HandleIndex,
            MessageType::IndexUpdate => ReaderAction::HandleIndex,
            MessageType::Response => ReaderAction::HandleResponse,
            MessageType::Close => ReaderAction::Stop,
            _ => ReaderAction::Ignore,
        },
{
    match t {
        MessageType::Request => ReaderAction::HandleRequest,
        MessageType::Index => ReaderAction::HandleIndex,
        MessageType::IndexUpdate => ReaderAction::HandleIndex,
        MessageType::Response => ReaderAction::HandleResponse,
        MessageType::Close => ReaderAction::Stop,
        _ => ReaderAction::Ignore,
    }
}

/// What the writer's wait on its queue ended with.
#[derive(Clone, Copy, Debug, PartialEq, Eq, Structural)]
pub enum WriterEvent {
    /// A message was queued; `empty` when it has no bytes (a marker that
    /// only asks to be told when everything before it was sent), `notify`
    /// when its submitter waits to hear that it was sent.
    Queued { empty: bool, notify: bool },
    /// Every sender of the queue is gone.
    QueueClosed,
    /// Nothing was queued for a while.
    Idle,
    /// The connection is being shut down.
    Cancelled,
}

/// What the writer does next.
#[derive(Clone, Copy, Debug, PartialEq, Eq, Structural)]
pub enum WriterAction {
    /// Write the message (unless it is empty) and tell its submitter it was
    /// sent (if it waits for that).
    Deliver { write: bool, notify_sent: bool },
    /// Keep the connection alive with a ping.
    SendPing,
    /// Answer whatever is still queued as closed, and stop.
    Stop,
}

/// The writer's decision after waiting on its queue.
pub fn writer_step(e: WriterEvent) -> (r: WriterAction)
    ensures
        r == match e {
            WriterEvent::Queued { empty, notify } => WriterAction::Deliver { write: !empty, notify_sent: notify },
            WriterEvent::Idle => WriterAction::SendPing,
            _ => WriterAction::Stop,
        },
{
    match e {
        WriterEvent::Queued { empty, notify } => WriterAction::Deliver { write: !empty, notify_sent: notify },
        WriterEvent::Idle => WriterAction::SendPing,
        WriterEvent::QueueClosed => WriterAction::Stop,
        WriterEvent::Cancelled => WriterAction::Stop,
    }
}

/// Name for what `lz4_flex::block::decompress_size_prepended` returns on
/// `input`: the decompressed bytes, or `None` where it returns an error.
pub uninterp spec fn lz4_decompressed(input: Seq<u8>) -> Option<Seq<u8>>;

/// `lz4_flex::block::decompress_size_prepended`. Trusted: the result is
/// named `lz4_decompressed`; the source reads a 4-byte size prefix and fails
/// on shorter input.
#[verifier::external_body]
fn lz4_decompress(input: &[u8]) -> (r: Option<Vec<u8>>)
    ensures
        r is Some <==> lz4_decompressed(input@) is Some,
        r is Some ==> lz4_decompressed(input@) == Some(r->0@),
        input@.len() < 4 ==> r is None,
{
    lz4_flex::block::decompress_size_prepended(input).ok()
}

/// The payload of a received message body: the body itself, or its LZ4
/// decompression when the message is compressed. `None` where the
/// compressed body does not decompress (a fatal error for the connection).
pub fn message_payload(body: Vec<u8>, compression: bool) -> (r: Option<Vec<u8>>)
    ensures
        !compression ==> r == Some(body),
        compression ==> (r is Some <==> lz4_decompressed(body@) is Some),
        compression && r is Some ==> lz4_decompressed(body@) == Some(r->0@),
{
    if !compression {
        return Some(body);
    }
    lz4_decompress(body.as_slice())
}

proof fn lemma_be16_value(v: int)
    requires
        0 <= v < 0x1_0000,
    ensures
        be16(v).len() == 2,
        be16_value(be16(v)) == v,
{
    let s = be16(v);
    assert(s[0] == (v / 0x100) % 0x100);
    assert(s[1] == v % 0x100);
}

proof fn lemma_be32_value(v: int)
    requires
        0 <= v < 0x1_0000_0000,
    ensures
        be32(v).len() == 4,
        be32_value(be32(v)) == v,
{
    let s = be32(v);
    assert(s[0] == (v / 0x100_0000) % 0x100);
    assert(s[1] == (v / 0x1_0000) % 0x100);
    assert(s[2] == (v / 0x100) % 0x100);
    assert(s[3] == v % 0x100);
}

/// Law: reading a framed message back, as the reader does (a big-endian
/// `u16` length, that many header bytes, a big-endian `u32` length, that many
/// body bytes), gives the header and body that were framed, whenever their
/// lengths fit the length fields.
#[verifier::spinoff_prover]
pub proof fn lemma_frame_roundtrip(header: Seq<u8>, body: Seq<u8>)
    requires
        header.len() < 0x1_0000,
        body.len() < 0x1_0000_0000,
    ensures
        ({
            let f = framed(header, body);
            let hl = be16_value(f.subrange(0, 2));
            let bl = be32_value(f.subrange(2 + hl, 6 + hl));
            &&& hl == header.len()
            &&& f.subrange(2, 2 + hl) == header
            &&& bl == body.len()
            &&& f.subrange(6 + hl, 6 + hl + bl) == body
            &&& f.len() == 6 + hl + bl
        }),
{
    let h = header.len() as int;
    let b = body.len() as int;
    lemma_be16_value(h);
    lemma_be32_value(b);
    let f = framed(header, body);
    assert(h % 0x1_0000 == h);
    assert(b % 0x1_0000_0000 == b);
    let p16 = be16(h);
    let p32 = be32(b);
    assert(f =~= p16 + header + p32 + body);
    assert(f.subrange(0, 2) =~= p16);
    assert(f.subrange(2, 2 + h) =~= header);
    assert(f.subrange(2 + h, 6 + h) =~= p32);
    assert(f.subrange(6 + h, 6 + h + b) =~= body);
}

/// Law: the preamble this client sends passes the magic check, and no other
/// first four bytes do.
pub proof fn lemma_hello_magic_accepted(hello: Seq<u8>)
    ensures
        be32_value(hello_preamble(hello).subrange(0, 4)) == HELLO_MAGIC,
{
    let p = hello_preamble(hello);
    assert(p.subrange(0, 4) =~= be32(HELLO_MAGIC as int));
}

/// Law: the header a message is sent with is read back as the message's
/// type, for every type the reader handles; download progress, which this
/// client never sends, is refused.
pub proof fn lemma_header_roundtrip(t: MessageType)
    ensures
        handled_type(t) ==> classify_spec(Header { msg_type: message_type_code_spec(t), compression: 0 }) == Ok::<MessageType, HeaderError>(t),
        !handled_type(t) ==> classify_spec(Header { msg_type: message_type_code_spec(t), compression: 0 }) == Err::<MessageType, HeaderError>(HeaderError::UnknownType),
{
}

} // verus!
