use easyshare::api::{
    broadcast_image, broadcast_text, device_name, file_name_of, file_transfer_enabled, is_echo_of_remote,
    is_enabled, mark_remote_write, peers, port, send_file, set_file_transfer, start, stop, sync_images,
    transfer_id, update_peers, SendFileRefusal, ShareState,
};
use easyshare::proto::{
    decode_envelope, decode_message, make_envelope, message_type_from_i32, split_frame, ClipboardSync,
    FileOffer, MessageType, CLIP_TYPE_IMAGE, CLIP_TYPE_TEXT,
};
use easyshare::DEFAULT_PORT;

fn started() -> ShareState {
    let mut s = ShareState::new();
    start(&mut s, "", 0, "desk", true, "/recv");
    update_peers(&mut s, vec!["10.0.0.2".to_string(), "10.0.0.3".to_string()]);
    s
}

#[test]
fn initial_state() {
    let s = ShareState::new();
    assert!(!is_enabled(&s));
    assert!(!file_transfer_enabled(&s));
    assert_eq!(port(&s), 12000);
    assert_eq!(DEFAULT_PORT, 12000);
    assert!(sync_images(&s));
    assert_eq!(device_name(&s), "device");
    assert!(peers(&s).is_empty());
}

#[test]
fn first_start_launches_the_server() {
    let mut s = ShareState::new();
    let launch = start(&mut s, "", 0, "desk", false, "/recv").unwrap();
    assert_eq!(launch.bind, "0.0.0.0");
    assert_eq!(launch.port, DEFAULT_PORT);
    assert_eq!(launch.device_name, "desk");
    assert_eq!(launch.recv_dir, "/recv");
    assert!(is_enabled(&s));
    assert!(!sync_images(&s));
    assert_eq!(device_name(&s), "desk");
}

#[test]
fn the_server_always_listens_on_all_interfaces() {
    for bind in ["", "0.0.0.0", "10.144.144.1", "fe80::1"] {
        let mut s = ShareState::new();
        let launch = start(&mut s, bind, 4000, "a", true, "r").unwrap();
        assert_eq!(launch.bind, "0.0.0.0");
        assert_eq!(launch.port, 4000);
    }
}

#[test]
fn second_start_only_reconfigures() {
    let mut s = ShareState::new();
    assert!(start(&mut s, "", 0, "one", true, "r").is_some());
    stop(&mut s);
    assert!(!is_enabled(&s));
    assert!(start(&mut s, "", 5555, "two", false, "r2").is_none());
    assert!(is_enabled(&s));
    assert_eq!(port(&s), 5555);
    assert_eq!(device_name(&s), "two");
    assert!(!sync_images(&s));
}

#[test]
fn peers_are_replaced_as_a_whole() {
    let mut s = ShareState::new();
    update_peers(&mut s, vec!["a".to_string(), "b".to_string()]);
    assert_eq!(peers(&s), vec!["a".to_string(), "b".to_string()]);
    update_peers(&mut s, vec!["c".to_string()]);
    assert_eq!(peers(&s), vec!["c".to_string()]);
}

#[test]
fn file_transfer_switch() {
    let mut s = ShareState::new();
    set_file_transfer(&mut s, true);
    assert!(file_transfer_enabled(&s));
    set_file_transfer(&mut s, false);
    assert!(!file_transfer_enabled(&s));
}

#[test]
fn echo_detection() {
    let mut s = ShareState::new();
    assert!(!is_echo_of_remote(&s, b""));
    assert!(!is_echo_of_remote(&s, b"x"));
    mark_remote_write(&mut s, b"from B");
    assert!(is_echo_of_remote(&s, b"from B"));
    assert!(!is_echo_of_remote(&s, b"from C"));
    assert!(!is_echo_of_remote(&s, b"from"));
    mark_remote_write(&mut s, b"");
    assert!(!is_echo_of_remote(&s, b""));
}

#[test]
fn broadcast_text_sends_a_clipboard_frame_to_every_peer() {
    let s = started();
    let b = broadcast_text(&s, "copy me", 1234).unwrap();
    assert_eq!(b.targets, vec!["10.0.0.2".to_string(), "10.0.0.3".to_string()]);
    assert_eq!(b.port, DEFAULT_PORT);
    let expected = make_envelope(
        MessageType::ClipboardSync.as_i32(),
        &ClipboardSync { device_name: "desk".to_string(), clip_type: CLIP_TYPE_TEXT, data: b"copy me".to_vec(), timestamp: 1234 },
    );
    assert_eq!(b.frame, expected);
    let (body, _) = split_frame(&b.frame).unwrap();
    let env = decode_envelope(&body).unwrap();
    let m = decode_message::<ClipboardSync>(&env.payload).unwrap();
    assert_eq!(m.data, b"copy me".to_vec());
}

#[test]
fn broadcast_text_refusals() {
    let mut s = started();
    assert!(broadcast_text(&s, "", 1).is_none());
    mark_remote_write(&mut s, b"echo");
    assert!(broadcast_text(&s, "echo", 1).is_none());
    assert!(broadcast_text(&s, "other", 1).is_some());
    update_peers(&mut s, Vec::new());
    assert!(broadcast_text(&s, "other", 1).is_none());
    let s = ShareState::new();
    assert!(broadcast_text(&s, "x", 1).is_none());
}

#[test]
fn broadcast_image_rules() {
    let mut s = started();
    let b = broadcast_image(&s, vec![0x89, 0x50, 0x4E, 0x47], 9).unwrap();
    let (body, _) = split_frame(&b.frame).unwrap();
    let m = decode_message::<ClipboardSync>(&decode_envelope(&body).unwrap().payload).unwrap();
    assert_eq!(m.clip_type, CLIP_TYPE_IMAGE);
    assert!(broadcast_image(&s, Vec::new(), 9).is_none());
    mark_remote_write(&mut s, &[1, 2, 3]);
    assert!(broadcast_image(&s, vec![1, 2, 3], 9).is_none());
    start(&mut s, "", 0, "desk", false, "/recv");
    assert!(broadcast_image(&s, vec![7], 9).is_none());
    stop(&mut s);
    assert!(broadcast_text(&s, "t", 9).is_none());
}

#[test]
fn send_file_offers_the_file_name() {
    let mut s = started();
    assert_eq!(send_file(&s, "/home/u/a.txt", 7).unwrap_err(), SendFileRefusal::NotEnabled);
    set_file_transfer(&mut s, true);
    let f = send_file(&s, "/home/u/a.txt", 7).unwrap();
    assert_eq!(f.path, "/home/u/a.txt");
    assert_eq!(f.transfer_id, 7);
    assert_eq!(f.targets.len(), 2);
    let (body, _) = split_frame(&f.offer_frame).unwrap();
    let env = decode_envelope(&body).unwrap();
    assert_eq!(message_type_from_i32(env.msg_type), MessageType::FileOffer);
    let o = decode_message::<FileOffer>(&env.payload).unwrap();
    assert_eq!(o.file_name, "a.txt");
    assert_eq!(o.transfer_id, 7);
    assert_eq!(o.file_size, 0);
    assert_eq!(o.file_hash, "");
    let g = send_file(&s, "/", 8).unwrap();
    let (body, _) = split_frame(&g.offer_frame).unwrap();
    let o = decode_message::<FileOffer>(&decode_envelope(&body).unwrap().payload).unwrap();
    assert_eq!(o.file_name, "file.bin");
    update_peers(&mut s, Vec::new());
    assert_eq!(send_file(&s, "/home/u/a.txt", 7).unwrap_err(), SendFileRefusal::NoPeers);
    stop(&mut s);
    assert_eq!(send_file(&s, "/home/u/a.txt", 7).unwrap_err(), SendFileRefusal::NotEnabled);
}

#[test]
fn file_names_agree_with_std_path() {
    for p in [
        "a.txt", "/a/b.txt", "a/b/", "a/b//", "a/b/.", "a/b/./", "a/..", "..", ".", "/", "", "a//b",
        "./x", "x/./", "dir/.hidden", "a/b/..", "...", "a/...", "  ", "a/ b ",
    ] {
        let ours = file_name_of(p);
        let std_name = std::path::Path::new(p).file_name().map(|s| s.to_string_lossy().to_string());
        assert_eq!(ours, std_name, "path {p:?}");
    }
}

#[test]
fn transfer_id_folds_the_time() {
    assert_eq!(transfer_id(0), 0);
    assert_eq!(transfer_id(0x1234_5678_9ABC_DEF0), 0x1234_5678 ^ 0x9ABC_DEF0);
    let n: u128 = 1_700_000_000_123_456_789;
    assert_eq!(transfer_id(n), (n ^ (n >> 32)) as u32);
}

fn all_words(alphabet: &[char], max_len: usize) -> Vec<String> {
    let mut words = vec![String::new()];
    let mut last = vec![String::new()];
    for _ in 0..max_len {
        let mut next = Vec::new();
        for w in &last {
            for c in alphabet {
                let mut v = w.clone();
                v.push(*c);
                next.push(v);
            }
        }
        words.extend(next.iter().cloned());
        last = next;
    }
    words
}

#[test]
fn file_names_agree_with_std_path_on_all_short_paths() {
    for p in all_words(&['a', '/', '.', '\\'], 6) {
        let std_name = std::path::Path::new(&p).file_name().map(|s| s.to_string_lossy().to_string());
        assert_eq!(file_name_of(&p), std_name, "path {p:?}");
    }
}

#[test]
fn backslash_is_part_of_a_name() {
    for p in ["\\\\s\\h", "C:\\x\\a.txt", "dir/sub\\x", "a\\..", "/sdcard/a b.txt"] {
        let std_name = std::path::Path::new(p).file_name().map(|s| s.to_string_lossy().to_string());
        assert_eq!(file_name_of(p), std_name, "path {p:?}");
    }
    assert_eq!(file_name_of("\\\\s\\h").as_deref(), Some("\\\\s\\h"));
    assert_eq!(file_name_of("/sdcard/a b.txt").as_deref(), Some("a b.txt"));
    let mut s = started();
    set_file_transfer(&mut s, true);
    let f = send_file(&s, "\\\\s\\h", 3).unwrap();
    let (body, _) = split_frame(&f.offer_frame).unwrap();
    let o = decode_message::<FileOffer>(&decode_envelope(&body).unwrap().payload).unwrap();
    assert_eq!(o.file_name, "\\\\s\\h");
}

#[test]
fn enabled_follows_the_last_start_or_stop() {
    let mut s = ShareState::new();
    assert!(!is_enabled(&s));
    stop(&mut s);
    assert!(!is_enabled(&s));
    for step in 0..6 {
        if step % 3 == 2 {
            stop(&mut s);
            assert!(!is_enabled(&s));
        } else {
            start(&mut s, "", 0, "d", true, "r");
            assert!(is_enabled(&s));
        }
    }
}
