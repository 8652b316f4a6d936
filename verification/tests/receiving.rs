use easyshare::file_transfer::{assemble_chunks, FileSender, CHUNK_SIZE};
use easyshare::handler::{sanitize_filename, ClipboardWrite, HandlerAction, MessageHandler};
use easyshare::proto::{
    make_envelope, split_frame, ClipboardSync, FileChunk, FileComplete, FileOffer, MessageType,
    CLIP_TYPE_IMAGE, CLIP_TYPE_TEXT,
};
use easyshare::wire::DecodeError;

/// The body of a frame, as the server hands it to the handler.
fn body(frame: Vec<u8>) -> Vec<u8> {
    let (b, used) = split_frame(&frame).unwrap();
    assert_eq!(used, frame.len());
    b
}

fn offer(name: &str, tid: u32) -> Vec<u8> {
    let o = FileOffer { file_name: name.to_string(), file_size: 0, file_hash: String::new(), transfer_id: tid };
    body(make_envelope(MessageType::FileOffer.as_i32(), &o))
}

fn chunk(tid: u32, seq: u32, data: &[u8]) -> Vec<u8> {
    body(FileSender::new(tid).chunk_frame(seq, data))
}

fn complete(tid: u32, success: bool) -> Vec<u8> {
    body(make_envelope(MessageType::FileComplete.as_i32(), &FileComplete { transfer_id: tid, success }))
}

fn clip(clip_type: i32, data: Vec<u8>) -> Vec<u8> {
    let m = ClipboardSync { device_name: "phone".to_string(), clip_type, data, timestamp: 42 };
    body(make_envelope(MessageType::ClipboardSync.as_i32(), &m))
}

fn is_nothing(a: &HandlerAction) -> bool {
    matches!(a, HandlerAction::Nothing)
}

#[test]
fn sanitize_keeps_only_the_last_component() {
    assert_eq!(sanitize_filename("../../etc/passwd"), "passwd");
    assert_eq!(sanitize_filename("C:\\Users\\me\\photo.png"), "photo.png");
    assert_eq!(sanitize_filename("a/b\\c"), "c");
    assert_eq!(sanitize_filename("  report final.pdf \t"), "report final.pdf");
    assert_eq!(sanitize_filename("plain.txt"), "plain.txt");
}

#[test]
fn sanitize_falls_back_to_file_bin() {
    assert_eq!(sanitize_filename(""), "file.bin");
    assert_eq!(sanitize_filename("   "), "file.bin");
    assert_eq!(sanitize_filename("dir/"), "file.bin");
    assert_eq!(sanitize_filename("dir\\ \u{3000}"), "file.bin");
}

#[test]
fn sanitize_refuses_directory_names() {
    assert_eq!(sanitize_filename(".."), "file.bin");
    assert_eq!(sanitize_filename("."), "file.bin");
    assert_eq!(sanitize_filename("a/.."), "file.bin");
    assert_eq!(sanitize_filename("a\\. "), "file.bin");
    assert_eq!(sanitize_filename("..."), "...");
    assert_eq!(sanitize_filename(".hidden"), ".hidden");
}

#[test]
fn sanitize_is_idempotent_and_plain() {
    for name in ["../x", "a\\b/c ", " ", "..", "ok", "x/\u{a0}y\u{a0}"] {
        let once = sanitize_filename(name);
        assert_eq!(sanitize_filename(&once), once);
        assert!(!once.is_empty());
        assert!(!once.contains('/') && !once.contains('\\'));
        assert!(once != "." && once != "..");
    }
}

#[test]
fn whole_transfer_is_saved_under_the_offered_name() {
    let mut h = MessageHandler::new("me".to_string(), "/tmp/in".to_string());
    assert!(is_nothing(&h.handle_message(&offer("../secret/report.pdf", 5)).unwrap()));
    assert!(is_nothing(&h.handle_message(&chunk(5, 0, b"hello ")).unwrap()));
    assert!(is_nothing(&h.handle_message(&chunk(5, 1, b"world")).unwrap()));
    match h.handle_message(&complete(5, true)).unwrap() {
        HandlerAction::SaveFile { path, chunks } => {
            assert_eq!(path, "/tmp/in/report.pdf");
            assert_eq!(chunks.len(), 2);
            assert_eq!(assemble_chunks(&chunks), b"hello world".to_vec());
        }
        other => panic!("unexpected {other:?}"),
    }
    // the chunks are gone: a second completion saves nothing
    assert!(is_nothing(&h.handle_message(&complete(5, true)).unwrap()));
}

#[test]
fn transfer_without_offer_gets_a_generated_name() {
    let mut h = MessageHandler::new("me".to_string(), "dir".to_string());
    h.handle_message(&chunk(4_000_000_000, 0, b"x")).unwrap();
    match h.handle_message(&complete(4_000_000_000, true)).unwrap() {
        HandlerAction::SaveFile { path, .. } => assert_eq!(path, "dir/recv_4000000000.bin"),
        other => panic!("unexpected {other:?}"),
    }
}

#[test]
fn failed_or_unknown_completion_saves_nothing() {
    let mut h = MessageHandler::new("me".to_string(), "dir".to_string());
    h.handle_message(&chunk(1, 0, b"a")).unwrap();
    assert!(is_nothing(&h.handle_message(&complete(1, false)).unwrap()));
    assert!(is_nothing(&h.handle_message(&complete(2, true)).unwrap()));
    // the chunks of transfer 1 are still there
    match h.handle_message(&complete(1, true)).unwrap() {
        HandlerAction::SaveFile { chunks, .. } => assert_eq!(chunks.len(), 1),
        other => panic!("unexpected {other:?}"),
    }
}

#[test]
fn transfers_are_kept_apart() {
    let mut h = MessageHandler::new("me".to_string(), "d".to_string());
    h.handle_message(&offer("one.txt", 1)).unwrap();
    h.handle_message(&offer("two.txt", 2)).unwrap();
    h.handle_message(&chunk(2, 0, b"B")).unwrap();
    h.handle_message(&chunk(1, 0, b"A")).unwrap();
    h.handle_message(&chunk(2, 1, b"b")).unwrap();
    match h.handle_message(&complete(2, true)).unwrap() {
        HandlerAction::SaveFile { path, chunks } => {
            assert_eq!(path, "d/two.txt");
            assert_eq!(assemble_chunks(&chunks), b"Bb".to_vec());
        }
        other => panic!("unexpected {other:?}"),
    }
    match h.handle_message(&complete(1, true)).unwrap() {
        HandlerAction::SaveFile { path, chunks } => {
            assert_eq!(path, "d/one.txt");
            assert_eq!(assemble_chunks(&chunks), b"A".to_vec());
        }
        other => panic!("unexpected {other:?}"),
    }
}

#[test]
fn clipboard_entries_are_written_by_type() {
    let mut h = MessageHandler::new("me".to_string(), "d".to_string());
    match h.handle_message(&clip(CLIP_TYPE_TEXT, "héllo".as_bytes().to_vec())).unwrap() {
        HandlerAction::Clipboard { entry, write: ClipboardWrite::Text(t) } => {
            assert_eq!(t, "héllo");
            assert_eq!(entry.device_name, "phone");
            assert_eq!(entry.timestamp, 42);
        }
        other => panic!("unexpected {other:?}"),
    }
    match h.handle_message(&clip(CLIP_TYPE_IMAGE, vec![0x89, 0x50])).unwrap() {
        HandlerAction::Clipboard { entry, write: ClipboardWrite::Image } => assert_eq!(entry.data, vec![0x89, 0x50]),
        other => panic!("unexpected {other:?}"),
    }
    // unknown clip types are written as text, ill-formed UTF-8 lossily
    match h.handle_message(&clip(7, vec![b'a', 0xFF, b'b'])).unwrap() {
        HandlerAction::Clipboard { write: ClipboardWrite::Text(t), .. } => assert_eq!(t, "a\u{FFFD}b"),
        other => panic!("unexpected {other:?}"),
    }
}

#[test]
fn heartbeats_and_unknown_types_do_nothing() {
    let mut h = MessageHandler::new("me".to_string(), "d".to_string());
    let hb = body(make_envelope(MessageType::Heartbeat.as_i32(), &FileComplete { transfer_id: 0, success: false }));
    assert!(is_nothing(&h.handle_message(&hb).unwrap()));
    let unknown = body(make_envelope(42, &FileComplete { transfer_id: 3, success: true }));
    assert!(is_nothing(&h.handle_message(&unknown).unwrap()));
}

#[test]
fn malformed_messages_are_refused() {
    let mut h = MessageHandler::new("me".to_string(), "d".to_string());
    assert_eq!(h.handle_message(&[0x1A, 0x09, 0x00]).unwrap_err(), DecodeError::BufferUnderflow);
    // an envelope of type FileOffer whose payload has a non-UTF-8 name
    let bad_offer = body(make_envelope(MessageType::FileOffer.as_i32(), &FileChunk { transfer_id: 0, seq: 0, data: vec![0xFF] }));
    assert_eq!(h.handle_message(&bad_offer).unwrap_err(), DecodeError::InvalidUtf8);
}

#[test]
fn chunks_are_assembled_by_sequence_number() {
    let chunks = vec![
        FileChunk { transfer_id: 1, seq: 2, data: b"c".to_vec() },
        FileChunk { transfer_id: 1, seq: 0, data: b"a".to_vec() },
        FileChunk { transfer_id: 1, seq: 1, data: b"b1".to_vec() },
        FileChunk { transfer_id: 1, seq: 1, data: b"b2".to_vec() },
    ];
    assert_eq!(assemble_chunks(&chunks), b"ab1b2c".to_vec());
    assert!(assemble_chunks(&Vec::new()).is_empty());
}

fn std_sanitize(name: &str) -> String {
    let base = name.rsplit('/').next().unwrap_or(name).rsplit('\\').next().unwrap_or(name);
    let trimmed = base.trim();
    if trimmed.is_empty() || trimmed == "." || trimmed == ".." {
        "file.bin".to_string()
    } else {
        trimmed.to_string()
    }
}

#[test]
fn sanitize_agrees_with_std_string_operations() {
    let alphabet = ['a', '/', '\\', ' ', '.', '\u{2003}'];
    let mut words = vec![String::new()];
    let mut last = vec![String::new()];
    for _ in 0..6 {
        let mut next = Vec::new();
        for w in &last {
            for c in alphabet {
                let mut v = w.clone();
                v.push(c);
                next.push(v);
            }
        }
        words.extend(next.iter().cloned());
        last = next;
    }
    for w in words {
        assert_eq!(sanitize_filename(&w), std_sanitize(&w), "name {w:?}");
    }
}

#[test]
fn transfer_frames_deliver_the_file_in_order() {
    let contents: Vec<u8> = (0..(2 * CHUNK_SIZE + 5)).map(|i| (i % 251) as u8).collect();
    let offer_frame = make_envelope(
        MessageType::FileOffer.as_i32(),
        &FileOffer { file_name: "big.dat".to_string(), file_size: 0, file_hash: String::new(), transfer_id: 77 },
    );
    let sender = FileSender::new(77);
    let frames = sender.transfer_frames(offer_frame.clone(), &contents);
    assert_eq!(frames.len(), 1 + 3 + 1);
    assert_eq!(frames[0], offer_frame);
    assert_eq!(frames[1..], sender.data_frames(&contents)[..]);
    let mut h = MessageHandler::new("me".to_string(), "inbox".to_string());
    let mut saved = None;
    for f in &frames {
        match h.handle_message(&body(f.clone())).unwrap() {
            HandlerAction::Nothing => {}
            HandlerAction::SaveFile { path, chunks } => saved = Some((path, chunks)),
            other => panic!("unexpected {other:?}"),
        }
    }
    let (path, chunks) = saved.unwrap();
    assert_eq!(path, "inbox/big.dat");
    assert_eq!(chunks.len(), 3);
    assert_eq!(chunks[2].data.len(), 5);
    assert_eq!(assemble_chunks(&chunks), contents);
}

#[test]
fn an_empty_file_sends_no_chunk_and_is_not_saved() {
    let sender = FileSender::new(8);
    let frames = sender.data_frames(&[]);
    assert_eq!(frames, vec![sender.complete_frame()]);
    let mut h = MessageHandler::new("me".to_string(), "d".to_string());
    h.handle_message(&offer("empty.txt", 8)).unwrap();
    assert!(is_nothing(&h.handle_message(&body(frames[0].clone())).unwrap()));
}

#[test]
fn arrival_order_does_not_change_the_file() {
    let pieces: [&[u8]; 4] = [b"zero ", b"one ", b"two ", b"three"];
    let in_order: Vec<FileChunk> = pieces
        .iter()
        .enumerate()
        .map(|(i, p)| FileChunk { transfer_id: 1, seq: i as u32, data: p.to_vec() })
        .collect();
    let expected = assemble_chunks(&in_order);
    assert_eq!(expected, b"zero one two three".to_vec());
    for perm in [[3usize, 2, 1, 0], [1, 3, 0, 2], [2, 0, 3, 1]] {
        let shuffled: Vec<FileChunk> = perm
            .iter()
            .map(|&i| FileChunk { transfer_id: 1, seq: i as u32, data: pieces[i].to_vec() })
            .collect();
        assert_eq!(assemble_chunks(&shuffled), expected);
        let mut h = MessageHandler::new("me".to_string(), "d".to_string());
        for c in &shuffled {
            h.handle_message(&chunk(1, c.seq, &c.data)).unwrap();
        }
        match h.handle_message(&complete(1, true)).unwrap() {
            HandlerAction::SaveFile { chunks, .. } => assert_eq!(assemble_chunks(&chunks), expected),
            other => panic!("unexpected {other:?}"),
        }
    }
}

#[test]
fn failed_completion_keeps_chunks_and_repeated_completion_saves_nothing() {
    let mut h = MessageHandler::new("me".to_string(), "d".to_string());
    h.handle_message(&chunk(9, 0, b"x")).unwrap();
    assert!(is_nothing(&h.handle_message(&complete(9, false)).unwrap()));
    assert!(matches!(h.handle_message(&complete(9, true)).unwrap(), HandlerAction::SaveFile { .. }));
    assert!(is_nothing(&h.handle_message(&complete(9, true)).unwrap()));
    assert!(is_nothing(&h.handle_message(&complete(9, false)).unwrap()));
}
