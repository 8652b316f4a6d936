use easyshare::proto::{
    decode_envelope, decode_message, encode_envelope, frame_payload_len, make_envelope,
    message_type_from_i32, split_frame, ClipboardSync, Envelope, FileChunk, FileComplete, FileOffer,
    MessageType, ProtoMessage, CLIP_TYPE_IMAGE, CLIP_TYPE_TEXT,
};
use easyshare::wire::DecodeError;

fn prost_clipboard_sync(m: &ClipboardSync) -> Vec<u8> {
    let mut out = Vec::new();
    if !m.device_name.is_empty() {
        prost::encoding::string::encode(1, &m.device_name, &mut out);
    }
    if m.clip_type != 0 {
        prost::encoding::int32::encode(2, &m.clip_type, &mut out);
    }
    if !m.data.is_empty() {
        prost::encoding::bytes::encode(3, &m.data, &mut out);
    }
    if m.timestamp != 0 {
        prost::encoding::uint64::encode(4, &m.timestamp, &mut out);
    }
    out
}

fn prost_file_offer(m: &FileOffer) -> Vec<u8> {
    let mut out = Vec::new();
    if !m.file_name.is_empty() {
        prost::encoding::string::encode(1, &m.file_name, &mut out);
    }
    if m.file_size != 0 {
        prost::encoding::uint64::encode(2, &m.file_size, &mut out);
    }
    if !m.file_hash.is_empty() {
        prost::encoding::string::encode(3, &m.file_hash, &mut out);
    }
    if m.transfer_id != 0 {
        prost::encoding::uint32::encode(4, &m.transfer_id, &mut out);
    }
    out
}

fn prost_envelope(version: u32, msg_type: i32, payload: &Vec<u8>) -> Vec<u8> {
    let mut out = Vec::new();
    if version != 0 {
        prost::encoding::uint32::encode(1, &version, &mut out);
    }
    if msg_type != 0 {
        prost::encoding::int32::encode(2, &msg_type, &mut out);
    }
    if !payload.is_empty() {
        prost::encoding::bytes::encode(3, payload, &mut out);
    }
    out
}

fn sample_sync() -> ClipboardSync {
    ClipboardSync {
        device_name: "laptop-é".to_string(),
        clip_type: CLIP_TYPE_TEXT,
        data: "hello 世界".as_bytes().to_vec(),
        timestamp: 1_700_000_000_123,
    }
}

#[test]
fn clipboard_sync_encoding_matches_prost() {
    let m = sample_sync();
    assert_eq!(m.encode(), prost_clipboard_sync(&m));
    let img = ClipboardSync { device_name: String::new(), clip_type: CLIP_TYPE_IMAGE, data: vec![0; 200], timestamp: 0 };
    assert_eq!(img.encode(), prost_clipboard_sync(&img));
    let negative = ClipboardSync { device_name: "x".to_string(), clip_type: -3, data: vec![], timestamp: 1 };
    assert_eq!(negative.encode(), prost_clipboard_sync(&negative));
}

#[test]
fn file_offer_encoding_matches_prost() {
    let m = FileOffer {
        file_name: "report.pdf".to_string(),
        file_size: 1 << 40,
        file_hash: "ab".repeat(32),
        transfer_id: 0xDEAD_BEEF,
    };
    assert_eq!(m.encode(), prost_file_offer(&m));
}

#[test]
fn chunk_and_complete_encodings_match_prost() {
    let c = FileChunk { transfer_id: 9, seq: 3, data: vec![1, 2, 3] };
    let mut expected = Vec::new();
    prost::encoding::uint32::encode(1, &9u32, &mut expected);
    prost::encoding::uint32::encode(2, &3u32, &mut expected);
    prost::encoding::bytes::encode(3, &vec![1u8, 2, 3], &mut expected);
    assert_eq!(c.encode(), expected);

    let done = FileComplete { transfer_id: 9, success: true };
    let mut expected = Vec::new();
    prost::encoding::uint32::encode(1, &9u32, &mut expected);
    prost::encoding::bool::encode(2, &true, &mut expected);
    assert_eq!(done.encode(), expected);
    assert!(FileComplete { transfer_id: 0, success: false }.encode().is_empty());
}

#[test]
fn messages_roundtrip() {
    let m = sample_sync();
    let back = decode_message::<ClipboardSync>(&m.encode()).unwrap();
    assert_eq!(back.device_name, m.device_name);
    assert_eq!(back.clip_type, m.clip_type);
    assert_eq!(back.data, m.data);
    assert_eq!(back.timestamp, m.timestamp);

    let o = FileOffer { file_name: "a b.txt".to_string(), file_size: 5, file_hash: String::new(), transfer_id: 77 };
    let back = decode_message::<FileOffer>(&o.encode()).unwrap();
    assert_eq!(back.file_name, "a b.txt");
    assert_eq!(back.file_size, 5);
    assert_eq!(back.file_hash, "");
    assert_eq!(back.transfer_id, 77);

    let c = FileChunk { transfer_id: 1, seq: 2, data: vec![9; 1000] };
    let back = decode_message::<FileChunk>(&c.encode()).unwrap();
    assert_eq!((back.transfer_id, back.seq, back.data), (1, 2, vec![9; 1000]));
}

#[test]
fn make_envelope_frames_an_envelope() {
    let m = sample_sync();
    let frame = make_envelope(MessageType::ClipboardSync.as_i32(), &m);
    let body = prost_envelope(1, 1, &prost_clipboard_sync(&m));
    let mut expected = (body.len() as u32).to_be_bytes().to_vec();
    expected.extend(body);
    assert_eq!(frame, expected);

    let env = Envelope { version: 1, msg_type: 2, payload: vec![5, 6] };
    let framed = encode_envelope(&env);
    assert_eq!(&framed[..4], &[0, 0, 0, 8]);
    assert_eq!(frame_payload_len(&framed[..4]), 8);
}

#[test]
fn envelope_roundtrip_through_a_frame() {
    let m = sample_sync();
    let mut stream = make_envelope(MessageType::ClipboardSync.as_i32(), &m);
    let second = make_envelope(MessageType::Heartbeat.as_i32(), &FileComplete { transfer_id: 0, success: false });
    stream.extend(second.clone());
    let (body, used) = split_frame(&stream).unwrap();
    let env = decode_envelope(&body).unwrap();
    assert_eq!(env.version, 1);
    assert_eq!(message_type_from_i32(env.msg_type), MessageType::ClipboardSync);
    let back = decode_message::<ClipboardSync>(&env.payload).unwrap();
    assert_eq!(back.data, m.data);
    let (body2, used2) = split_frame(&stream[used..]).unwrap();
    assert_eq!(used2, second.len());
    let env2 = decode_envelope(&body2).unwrap();
    assert_eq!(message_type_from_i32(env2.msg_type), MessageType::Heartbeat);
    assert!(env2.payload.is_empty());
}

#[test]
fn incomplete_frames_are_not_split() {
    assert!(split_frame(&[]).is_none());
    assert!(split_frame(&[0, 0, 0]).is_none());
    assert!(split_frame(&[0, 0, 0, 3, 1, 2]).is_none());
    let (body, used) = split_frame(&[0, 0, 0, 0]).unwrap();
    assert!(body.is_empty());
    assert_eq!(used, 4);
    assert_eq!(frame_payload_len(&[0x01, 0x02, 0x03, 0x04]), 0x0102_0304);
}

#[test]
fn message_type_numbers() {
    for t in [
        MessageType::Heartbeat,
        MessageType::ClipboardSync,
        MessageType::FileOffer,
        MessageType::FileChunk,
        MessageType::FileComplete,
    ] {
        assert_eq!(message_type_from_i32(t.as_i32()), t);
    }
    assert_eq!(MessageType::FileComplete.as_i32(), 4);
    assert_eq!(message_type_from_i32(99), MessageType::Heartbeat);
    assert_eq!(message_type_from_i32(-1), MessageType::Heartbeat);
}

#[test]
fn decode_errors() {
    // field 1 of an envelope (uint32) sent as bytes
    assert_eq!(decode_envelope(&[0x0A, 0x00]).unwrap_err(), DecodeError::WireTypeMismatch);
    // bytes field longer than the input
    assert_eq!(decode_envelope(&[0x1A, 0x05, 0x01]).unwrap_err(), DecodeError::BufferUnderflow);
    // device name that is not UTF-8
    assert_eq!(decode_message::<ClipboardSync>(&[0x0A, 0x01, 0xFF]).unwrap_err(), DecodeError::InvalidUtf8);
    // truncated varint
    assert_eq!(decode_envelope(&[0x08, 0x80]).unwrap_err(), DecodeError::InvalidVarint);
    // key with field number 0
    assert_eq!(decode_envelope(&[0x00, 0x01]).unwrap_err(), DecodeError::InvalidTag);
    // key with wire type 7
    assert_eq!(decode_envelope(&[0x0F]).unwrap_err(), DecodeError::InvalidWireType);
}

#[test]
fn later_fields_replace_earlier_ones() {
    // version 1, then version 2; payload [1], then payload [2, 3]
    let bytes = [0x08, 0x01, 0x08, 0x02, 0x1A, 0x01, 0x01, 0x1A, 0x02, 0x02, 0x03];
    let env = decode_envelope(&bytes).unwrap();
    assert_eq!(env.version, 2);
    assert_eq!(env.payload, vec![2, 3]);
}

#[test]
fn empty_input_decodes_to_defaults() {
    let env = decode_envelope(&[]).unwrap();
    assert_eq!((env.version, env.msg_type, env.payload.len()), (0, 0, 0));
    let done = decode_message::<FileComplete>(&[0x10, 0x05]).unwrap();
    assert!(done.success);
}
