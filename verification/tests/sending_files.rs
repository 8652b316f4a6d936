use easyshare::file_transfer::{FileSender, CHUNK_SIZE};
use easyshare::proto::{
    decode_envelope, decode_message, message_type_from_i32, split_frame, FileChunk, FileComplete,
    MessageType,
};
use easyshare::text::{chars_of, hex_lower_chars, is_white_space_char, push_decimal, trim_chars};

#[test]
fn chunk_size_is_256_kib() {
    assert_eq!(CHUNK_SIZE, 256 * 1024);
}

#[test]
fn chunk_frames_carry_the_transfer_and_sequence() {
    let s = FileSender::new(0xABCD);
    assert_eq!(s.id(), 0xABCD);
    let frame = s.chunk_frame(3, &[1, 2, 3, 4]);
    let (body, used) = split_frame(&frame).unwrap();
    assert_eq!(used, frame.len());
    let env = decode_envelope(&body).unwrap();
    assert_eq!(message_type_from_i32(env.msg_type), MessageType::FileChunk);
    let c = decode_message::<FileChunk>(&env.payload).unwrap();
    assert_eq!((c.transfer_id, c.seq, c.data), (0xABCD, 3, vec![1, 2, 3, 4]));
    let big = vec![0x5A; CHUNK_SIZE];
    let frame = s.chunk_frame(0, &big);
    let (body, _) = split_frame(&frame).unwrap();
    let c = decode_message::<FileChunk>(&decode_envelope(&body).unwrap().payload).unwrap();
    assert_eq!(c.data.len(), CHUNK_SIZE);
}

#[test]
fn complete_frame_reports_success() {
    let frame = FileSender::new(12).complete_frame();
    let (body, _) = split_frame(&frame).unwrap();
    let env = decode_envelope(&body).unwrap();
    assert_eq!(message_type_from_i32(env.msg_type), MessageType::FileComplete);
    let d = decode_message::<FileComplete>(&env.payload).unwrap();
    assert_eq!(d.transfer_id, 12);
    assert!(d.success);
}

#[test]
fn sha256_known_digests() {
    assert_eq!(
        FileSender::hash_contents(b"abc"),
        "ba7816bf8f01cfea414140de5dae2223b00361a396177a9cb410ff61f20015ad"
    );
    assert_eq!(
        FileSender::hash_contents(b""),
        "e3b0c44298fc1c149afbf4c8996fb92427ae41e4649b934ca495991b7852b855"
    );
    assert_ne!(FileSender::hash_contents(b"abd"), FileSender::hash_contents(b"abc"));
}

#[test]
fn text_helpers() {
    assert_eq!(trim_chars(&chars_of("\u{2003} a b \u{85}\t")), vec!['a', ' ', 'b']);
    assert!(trim_chars(&chars_of(" \n ")).is_empty());
    for c in [' ', '\t', '\n', '\u{a0}', '\u{3000}', '\u{2028}'] {
        assert_eq!(is_white_space_char(c), c.is_whitespace());
    }
    for c in ['a', '\u{200b}', '\u{180e}', '_'] {
        assert_eq!(is_white_space_char(c), c.is_whitespace());
    }
    let mut v = vec!['#'];
    push_decimal(4_294_967_295, &mut v);
    assert_eq!(v.into_iter().collect::<String>(), "#4294967295");
    let mut v = Vec::new();
    push_decimal(0, &mut v);
    assert_eq!(v, vec!['0']);
    assert_eq!(hex_lower_chars(&[0x00, 0x0f, 0xa5, 0xff]).into_iter().collect::<String>(), "000fa5ff");
}

#[test]
fn white_space_is_exactly_unicode_white_space() {
    for u in 0u32..=0x10FFFF {
        if let Some(c) = char::from_u32(u) {
            assert_eq!(is_white_space_char(c), c.is_whitespace(), "U+{u:04X}");
        }
    }
}
