use bep_rs::peer_connection::error::PeerConnectionError;
use bep_rs::peer_connection::items::{
    error_code, error_code_from_i32, message_type_code, message_type_from_code, ErrorCode, Header,
    MessageType,
};
use bep_rs::peer_connection::wire::{
    check_hello_magic, classify_header, frame_message, header_for, hello_message, make_hello,
    message_payload, reader_action, u16_from_be, u16_to_be, u32_from_be, u32_to_be, HeaderError,
    HELLO_MAGIC, ReaderAction, WriterAction, WriterEvent, writer_step,
};

#[test]
fn message_type_codes() {
    assert_eq!(message_type_code(MessageType::ClusterConfig), 0);
    assert_eq!(message_type_code(MessageType::Index), 1);
    assert_eq!(message_type_code(MessageType::IndexUpdate), 2);
    assert_eq!(message_type_code(MessageType::Request), 3);
    assert_eq!(message_type_code(MessageType::Response), 4);
    assert_eq!(message_type_code(MessageType::DownloadProgress), 5);
    assert_eq!(message_type_code(MessageType::Ping), 6);
    assert_eq!(message_type_code(MessageType::Close), 7);
    for t in [
        MessageType::ClusterConfig,
        MessageType::Index,
        MessageType::IndexUpdate,
        MessageType::Request,
        MessageType::Response,
        MessageType::DownloadProgress,
        MessageType::Ping,
        MessageType::Close,
    ] {
        assert_eq!(message_type_from_code(message_type_code(t)), Some(t));
    }
    assert_eq!(message_type_from_code(3), Some(MessageType::Request));
    assert_eq!(message_type_from_code(8), None);
    assert_eq!(message_type_from_code(-1), None);
}

#[test]
fn error_codes() {
    assert_eq!(error_code(ErrorCode::NoError), 0);
    assert_eq!(error_code(ErrorCode::Generic), 1);
    assert_eq!(error_code(ErrorCode::NoSuchFile), 2);
    assert_eq!(error_code(ErrorCode::InvalidFile), 3);
    assert_eq!(error_code_from_i32(2), Some(ErrorCode::NoSuchFile));
    assert_eq!(error_code_from_i32(4), None);
}

#[test]
fn big_endian_numbers() {
    assert_eq!(u16_to_be(0x1234), [0x12, 0x34]);
    assert_eq!(u32_to_be(0x2EA7D90B), [0x2E, 0xA7, 0xD9, 0x0B]);
    assert_eq!(u16_from_be([0xAB, 0xCD]), 0xABCD);
    assert_eq!(u32_from_be([0, 0, 1, 2]), 258);
}

#[test]
fn framed_message_layout() {
    let f = frame_message(&[8, 3], &[1, 2, 3]);
    assert_eq!(f, vec![0, 2, 8, 3, 0, 0, 0, 3, 1, 2, 3]);
    let empty = frame_message(&[], &[]);
    assert_eq!(empty, vec![0, 0, 0, 0, 0, 0]);
}

#[test]
fn framed_message_reads_back() {
    let header = vec![7u8; 300];
    let body = vec![9u8; 70000];
    let f = frame_message(&header, &body);
    let hl = u16_from_be([f[0], f[1]]) as usize;
    assert_eq!(hl, 300);
    assert_eq!(&f[2..2 + hl], &header[..]);
    let bl = u32_from_be([f[2 + hl], f[3 + hl], f[4 + hl], f[5 + hl]]) as usize;
    assert_eq!(bl, 70000);
    assert_eq!(&f[6 + hl..], &body[..]);
}

#[test]
fn hello_preamble_and_magic() {
    let m = hello_message(&[5, 6]);
    assert_eq!(m, vec![0x2E, 0xA7, 0xD9, 0x0B, 0, 2, 5, 6]);
    assert!(check_hello_magic([0x2E, 0xA7, 0xD9, 0x0B]).is_ok());
    assert!(matches!(check_hello_magic([0, 0, 0, 0]), Err(PeerConnectionError::InvalidMagicBytes)));
    assert!(matches!(check_hello_magic([0x2E, 0xA7, 0xD9, 0x0C]), Err(PeerConnectionError::InvalidMagicBytes)));
    assert_eq!(HELLO_MAGIC, 0x2EA7D90B);
}

#[test]
fn hello_contents() {
    let h = make_hello("con1".to_string(), 1700000000);
    assert_eq!(h.device_name, "con1");
    assert_eq!(h.client_name, "bep.rs");
    assert_eq!(h.client_version, "0.1");
    assert_eq!(h.num_connections, 1);
    assert_eq!(h.timestamp, 1700000000);
}

#[test]
fn headers_are_classified() {
    let h = header_for(MessageType::Index);
    assert_eq!(h, Header { msg_type: 1, compression: 0 });
    assert_eq!(classify_header(&h), Ok(MessageType::Index));
    assert_eq!(classify_header(&Header { msg_type: 3, compression: 1 }), Err(HeaderError::Compressed));
    assert_eq!(classify_header(&Header { msg_type: 5, compression: 0 }), Err(HeaderError::UnknownType));
    assert_eq!(classify_header(&Header { msg_type: 42, compression: 0 }), Err(HeaderError::UnknownType));
    assert_eq!(
        HeaderError::Compressed.describe(),
        "Peer is trying to use compression, but we do not support it"
    );
    assert_eq!(HeaderError::UnknownType.describe(), "Unknown message type");
}

#[test]
fn reader_actions() {
    assert_eq!(reader_action(MessageType::Close), ReaderAction::Stop);
    assert_eq!(reader_action(MessageType::Ping), ReaderAction::Ignore);
    assert_eq!(reader_action(MessageType::ClusterConfig), ReaderAction::Ignore);
    assert_eq!(reader_action(MessageType::Request), ReaderAction::HandleRequest);
    assert_eq!(reader_action(MessageType::IndexUpdate), ReaderAction::HandleIndex);
    assert_eq!(reader_action(MessageType::Response), ReaderAction::HandleResponse);
}

#[test]
fn writer_steps() {
    assert_eq!(
        writer_step(WriterEvent::Queued { empty: false, notify: true }),
        WriterAction::Deliver { write: true, notify_sent: true }
    );
    assert_eq!(
        writer_step(WriterEvent::Queued { empty: true, notify: false }),
        WriterAction::Deliver { write: false, notify_sent: false }
    );
    assert_eq!(writer_step(WriterEvent::Idle), WriterAction::SendPing);
    assert_eq!(writer_step(WriterEvent::QueueClosed), WriterAction::Stop);
    assert_eq!(writer_step(WriterEvent::Cancelled), WriterAction::Stop);
}

#[test]
fn payload_decompression() {
    let body = vec![1u8, 2, 3];
    assert_eq!(message_payload(body.clone(), false), Some(body.clone()));
    let data = b"hello hello hello hello".to_vec();
    let compressed = lz4_flex::block::compress_prepend_size(&data);
    assert_ne!(compressed, data);
    assert_eq!(message_payload(compressed, true), Some(data));
    assert_eq!(message_payload(vec![1, 2], true), None);
}
