use std::collections::hash_map::DefaultHasher;
use std::hash::{Hash, Hasher};

use easyshare::clipboard::{
    decode_clipboard_image, encode_clipboard_image, exceeds_max, online, simple_hash, simple_hash_bytes,
    ClipboardWatcher, IMAGE_THROTTLE_NANOS, IMAGE_THROTTLE_SECS, MAX_IMAGE_H, MAX_IMAGE_W, POLL_IMAGE_MS,
    POLL_TEXT_MS,
};
use easyshare::proto::{CLIP_TYPE_IMAGE, CLIP_TYPE_TEXT};

const SECOND: u64 = 1_000_000_000;

#[test]
fn polling_constants() {
    assert_eq!(POLL_TEXT_MS, 2000);
    assert_eq!(POLL_IMAGE_MS, 5000);
    assert_eq!(IMAGE_THROTTLE_SECS, 2);
    assert_eq!(IMAGE_THROTTLE_NANOS, IMAGE_THROTTLE_SECS * SECOND);
    assert_eq!((MAX_IMAGE_W, MAX_IMAGE_H), (1920, 1080));
}

#[test]
fn polls_only_when_screen_on_and_peers_online() {
    assert!(online(true, true));
    assert!(!online(false, true));
    assert!(!online(true, false));
    assert!(!online(false, false));
}

#[test]
fn text_hash_is_the_std_hash_of_the_str() {
    for s in ["", "a", "hello world", "日本語テキスト", "x\u{0}y"] {
        let mut h = DefaultHasher::new();
        s.hash(&mut h);
        assert_eq!(simple_hash(s), h.finish(), "{s:?}");
    }
    assert_ne!(simple_hash("a"), simple_hash("b"));
}

#[test]
fn bytes_hash_is_the_std_hash_of_the_slice() {
    for b in [&b""[..], &b"a"[..], &[0u8, 1, 2, 255][..], &[7u8; 1000][..]] {
        let mut h = DefaultHasher::new();
        b.hash(&mut h);
        assert_eq!(simple_hash_bytes(b), h.finish());
    }
}

#[test]
fn text_is_sent_only_when_it_changes() {
    let mut w = ClipboardWatcher::new("desk".to_string());
    let first = w.on_text("alpha", 10).unwrap();
    assert_eq!(first.device_name, "desk");
    assert_eq!(first.clip_type, CLIP_TYPE_TEXT);
    assert_eq!(first.data, b"alpha".to_vec());
    assert_eq!(first.timestamp, 10);
    assert!(w.on_text("alpha", 11).is_none());
    assert!(w.on_text("alpha", 12).is_none());
    assert!(w.on_text("beta", 13).is_some());
    assert!(w.on_text("alpha", 14).is_some());
}

#[test]
fn images_are_throttled() {
    let mut w = ClipboardWatcher::new("desk".to_string());
    let t0 = 100 * SECOND;
    let first = w.on_image(vec![1, 2, 3], t0, 5).unwrap();
    assert_eq!(first.clip_type, CLIP_TYPE_IMAGE);
    assert_eq!(first.data, vec![1, 2, 3]);
    // same image: never again
    assert!(w.on_image(vec![1, 2, 3], t0 + 10 * SECOND, 6).is_none());
    // another image within two seconds: held back, and remembered
    assert!(w.on_image(vec![4], t0 + SECOND, 7).is_none());
    assert!(w.on_image(vec![4], t0 + 5 * SECOND, 8).is_none());
    // a new image two seconds after the last one sent
    assert!(w.on_image(vec![5], t0 + 2 * SECOND, 9).is_some());
    // a clock that went back counts as no time elapsed
    assert!(w.on_image(vec![6], t0, 10).is_none());
}

#[test]
fn text_and_images_are_watched_separately() {
    let mut w = ClipboardWatcher::new("d".to_string());
    assert!(w.on_image(b"same".to_vec(), 0, 1).is_some());
    assert!(w.on_text("same", 1).is_some());
    assert!(w.on_text("same", 2).is_none());
}

fn checkerboard(w: u32, h: u32) -> Vec<u8> {
    let mut px = Vec::new();
    for y in 0..h {
        for x in 0..w {
            let v = if (x + y) % 2 == 0 { 255 } else { 0 };
            px.extend([v, 128, 255 - v, 255]);
        }
    }
    px
}

#[test]
fn images_roundtrip_through_png() {
    let px = checkerboard(3, 2);
    let png = encode_clipboard_image(3, 2, px.clone(), None).unwrap();
    assert_eq!(&png[..8], &[0x89, b'P', b'N', b'G', 0x0D, 0x0A, 0x1A, 0x0A]);
    let img = decode_clipboard_image(&png).unwrap();
    assert_eq!((img.width, img.height), (3, 2));
    assert_eq!(img.pixels, px);
}

#[test]
fn large_images_are_scaled() {
    assert!(exceeds_max(1921, 10, Some((MAX_IMAGE_W, MAX_IMAGE_H))));
    assert!(exceeds_max(10, 1081, Some((MAX_IMAGE_W, MAX_IMAGE_H))));
    assert!(!exceeds_max(1920, 1080, Some((MAX_IMAGE_W, MAX_IMAGE_H))));
    assert!(!exceeds_max(5000, 5000, None));
    let png = encode_clipboard_image(4, 4, checkerboard(4, 4), Some((2, 1))).unwrap();
    let img = decode_clipboard_image(&png).unwrap();
    assert_eq!((img.width, img.height), (2, 1));
    assert_eq!(img.pixels.len(), 8);
}

#[test]
fn short_pixel_buffers_are_refused() {
    assert!(encode_clipboard_image(2, 2, vec![0; 15], None).is_none());
    assert!(encode_clipboard_image(2, 2, vec![0; 15], Some((1, 1))).is_none());
}

#[test]
fn garbage_is_not_an_image() {
    let err = decode_clipboard_image(b"not a png").unwrap_err();
    assert!(!err.message.is_empty());
}

#[test]
fn images_sent_over_many_readings_are_two_seconds_apart() {
    let mut w = ClipboardWatcher::new("desk".to_string());
    let times: [u64; 9] = [0, 1, 2, 5, 4, 7, 7, 20, 21];
    let mut sent_at = Vec::new();
    for (i, t) in times.iter().enumerate() {
        let now = t * SECOND / 2;
        if let Some(e) = w.on_image(vec![i as u8 + 1], now, 0) {
            assert_eq!(e.device_name, "desk");
            assert_eq!(e.clip_type, CLIP_TYPE_IMAGE);
            sent_at.push(now);
        }
    }
    assert_eq!(sent_at, vec![0, 5 * SECOND / 2, 10 * SECOND]);
    for pair in sent_at.windows(2) {
        assert!(pair[1] - pair[0] >= IMAGE_THROTTLE_NANOS);
    }
}
