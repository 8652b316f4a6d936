//! Watching the local clipboard (desktop): the decisions of the polling loop.
//!
//! The host polls the clipboard (text about every [`POLL_TEXT_MS`], images about
//! every [`POLL_IMAGE_MS`]) while the screen is on and some peer is online, and
//! hands each reading to a [`ClipboardWatcher`]. The watcher says whether the
//! reading is a change to synchronise: only when the content's hash differs
//! from the last one seen, so that content written here by a remote device is
//! not sent back; and images at most once per [`IMAGE_THROTTLE_SECS`].

use std::collections::hash_map::DefaultHasher;
use std::hash::Hasher;
use image::codecs::png::{CompressionType, FilterType as PngFilter, PngEncoder};
use image::imageops::FilterType as ResizeFilter;
use image::{ExtendedColorType, ImageEncoder};
use vstd::prelude::*;
use vstd::std_specs::hash::DefaultHasherAdditionalSpecFns;
use vstd::utf8::encode_utf8;
use crate::proto::{ClipboardSync, ClipboardSyncModel, CLIP_TYPE_IMAGE, CLIP_TYPE_TEXT};

verus! {

/// Interval between two readings of the clipboard text, in milliseconds.
pub const POLL_TEXT_MS: u64 = 2000;

/// Interval between two readings of the clipboard image, in milliseconds
/// (offset from the text readings, so that not every round reads an image).
pub const POLL_IMAGE_MS: u64 = 5000;

/// Least time between two images sent by this device, in seconds (against
/// bursts of screenshots).
pub const IMAGE_THROTTLE_SECS: u64 = 2;

/// Largest width of a synchronised image; wider images are scaled down.
pub const MAX_IMAGE_W: u32 = 1920;

/// Largest height of a synchronised image; higher images are scaled down.
pub const MAX_IMAGE_H: u32 = 1080;

/// [`IMAGE_THROTTLE_SECS`] in nanoseconds.
pub const IMAGE_THROTTLE_NANOS: u64 = 2_000_000_000;

/// Whether the clipboard is polled at all: only while the screen is on and
/// some peer is online.
pub fn online(active: bool, screen_on: bool) -> (r: bool)
    ensures
        r == (screen_on && active),
{
    screen_on && active
}

// ---------------------------------------------------------------------------
// Content hashes
// ---------------------------------------------------------------------------

/// The bytes of `n`, as many as a `usize` has, least significant first.
pub open spec fn usize_le_bytes(n: usize) -> Seq<u8> {
    Seq::new((usize::BITS / 8) as nat, |i: int| (n >> (8 * i) as usize) as u8)
}

/// The hash of a text: `DefaultHasher` fed with its UTF-8 bytes and then the
/// byte `0xff`, as `str`'s `Hash` feeds it.
pub open spec fn text_hash(text: Seq<char>) -> u64 {
    DefaultHasher::spec_finish(seq![encode_utf8(text), seq![0xffu8]])
}

/// The hash of a byte string: `DefaultHasher` fed with its length (a `usize`,
/// least significant byte first) and then its bytes, as `[u8]`'s `Hash` feeds
/// it on a little-endian machine.
pub open spec fn bytes_hash(b: Seq<u8>) -> u64 {
    DefaultHasher::spec_finish(seq![usize_le_bytes(b.len() as usize), b])
}

fn usize_le_bytes_of(n: usize) -> (r: Vec<u8>)
    ensures
        r@ == usize_le_bytes(n),
{
    let width: u32 = usize::BITS / 8;
    assert(width <= 8) by {
        assert(usize::BITS == 32 || usize::BITS == 64);
    }
    let mut r: Vec<u8> = Vec::new();
    let mut i: u32 = 0;
    while i < width
        invariant
            width == usize::BITS / 8,
            width <= 8,
            i <= width,
            r@.len() == i,
            forall|k: int| 0 <= k < i ==> r@[k] == (n >> (8 * k) as usize) as u8,
        decreases width - i,
    {
        r.push((n >> (8 * i as usize)) as u8);
        i = i + 1;
    }
    assert(r@ =~= usize_le_bytes(n));
    r
}

/// The hash of a clipboard text.
pub fn simple_hash(s: &str) -> (r: u64)
    ensures
        r == text_hash(s@),
{
    let mut hasher = DefaultHasher::new();
    hasher.write(s.as_bytes());
    let mut end: Vec<u8> = Vec::new();
    end.push(0xffu8);
    hasher.write(end.as_slice());
    assert(hasher@ =~= seq![encode_utf8(s@), seq![0xffu8]]);
    hasher.finish()
}

/// The hash of a clipboard image (its PNG bytes).
pub fn simple_hash_bytes(b: &[u8]) -> (r: u64)
    ensures
        r == bytes_hash(b@),
{
    let mut hasher = DefaultHasher::new();
    let len = usize_le_bytes_of(b.len());
    hasher.write(len.as_slice());
    hasher.write(b);
    assert(hasher@ =~= seq![usize_le_bytes(b@.len() as usize), b@]);
    hasher.finish()
}

// ---------------------------------------------------------------------------
// The watcher
// ---------------------------------------------------------------------------

/// Decides which clipboard readings of this device are changes to synchronise.
pub struct ClipboardWatcher {
    last_hash: u64,
    last_image_hash: u64,
    last_image_send: Option<u64>,
    device_name: String,
}

pub struct WatcherModel {
    /// The hash of the last text seen (0 at first).
    pub last_hash: u64,
    /// The hash of the last image seen (0 at first).
    pub last_image_hash: u64,
    /// When the last image was sent (a monotonic clock, in nanoseconds).
    pub last_image_send: Option<u64>,
    pub device_name: Seq<char>,
}

impl View for ClipboardWatcher {
    type V = WatcherModel;

    closed spec fn view(&self) -> WatcherModel {
        WatcherModel {
            last_hash: self.last_hash,
            last_image_hash: self.last_image_hash,
            last_image_send: self.last_image_send,
            device_name: self.device_name@,
        }
    }
}

/// The clipboard entry of this device for some content.
pub open spec fn entry(w: WatcherModel, clip_type: i32, data: Seq<u8>, timestamp: u64) -> ClipboardSyncModel {
    ClipboardSyncModel { device_name: w.device_name, clip_type, data, timestamp }
}

/// Reading the text `text` at wall-clock time `timestamp` (milliseconds): an
/// entry to send when its hash differs from the last text's.
pub open spec fn spec_on_text(w: WatcherModel, text: Seq<char>, timestamp: u64) -> (
    WatcherModel,
    Option<ClipboardSyncModel>,
) {
    let h = text_hash(text);
    if h != w.last_hash {
        (
            WatcherModel { last_hash: h, ..w },
            Some(entry(w, CLIP_TYPE_TEXT, encode_utf8(text), timestamp)),
        )
    } else {
        (w, None)
    }
}

/// Whether an image may be sent at monotonic time `now`: none was sent yet, or
/// the last one at least [`IMAGE_THROTTLE_SECS`] ago (a clock that went back
/// counts as no time elapsed).
pub open spec fn image_allowed(last_send: Option<u64>, now: u64) -> bool {
    match last_send {
        None => true,
        Some(t) => now >= t && now - t >= IMAGE_THROTTLE_NANOS,
    }
}

/// Reading the image `png` at monotonic time `now` and wall-clock time
/// `timestamp`: a changed image becomes the last image seen whether it is sent
/// or held back by the throttle; it is sent when the throttle allows.
pub open spec fn spec_on_image(w: WatcherModel, png: Seq<u8>, now: u64, timestamp: u64) -> (
    WatcherModel,
    Option<ClipboardSyncModel>,
) {
    let h = bytes_hash(png);
    if h == w.last_image_hash {
        (w, None)
    } else if image_allowed(w.last_image_send, now) {
        (
            WatcherModel { last_image_hash: h, last_image_send: Some(now), ..w },
            Some(entry(w, CLIP_TYPE_IMAGE, png, timestamp)),
        )
    } else {
        (WatcherModel { last_image_hash: h, ..w }, None)
    }
}

pub open spec fn entry_view(e: Option<ClipboardSync>) -> Option<ClipboardSyncModel> {
    match e {
        Some(m) => Some(m@),
        None => None,
    }
}

impl ClipboardWatcher {
    /// A watcher for device `device_name` that has seen nothing yet.
    pub fn new(device_name: String) -> (r: Self)
        ensures
            r@ == (WatcherModel {
                last_hash: 0,
                last_image_hash: 0,
                last_image_send: None,
                device_name: device_name@,
            }),
    {
        ClipboardWatcher { last_hash: 0, last_image_hash: 0, last_image_send: None, device_name }
    }

    /// Takes a reading of the clipboard text; returns the entry to send when it changed.
    pub fn on_text(&mut self, text: &str, timestamp: u64) -> (r: Option<ClipboardSync>)
        ensures
            (final(self)@, entry_view(r)) == spec_on_text(old(self)@, text@, timestamp),
    {
        let hash = simple_hash(text);
        if hash == self.last_hash {
            return None;
        }
        self.last_hash = hash;
        let bytes = text.as_bytes();
        let data = crate::wire::copy_range(bytes, 0, bytes.len());
        assert(bytes@.subrange(0, bytes@.len() as int) =~= bytes@);
        Some(
            ClipboardSync {
                device_name: self.device_name.clone(),
                clip_type: CLIP_TYPE_TEXT,
                data,
                timestamp,
            },
        )
    }

    /// Takes a reading of the clipboard image (PNG bytes) at monotonic time
    /// `now` (nanoseconds); returns the entry to send when it changed and the
    /// throttle allows.
    pub fn on_image(&mut self, png: Vec<u8>, now: u64, timestamp: u64) -> (r: Option<ClipboardSync>)
        ensures
            (final(self)@, entry_view(r)) == spec_on_image(old(self)@, png@, now, timestamp),
    {
        let hash = simple_hash_bytes(png.as_slice());
        if hash == self.last_image_hash {
            return None;
        }
        self.last_image_hash = hash;
        let allow = match self.last_image_send {
            Some(t) => now >= t && now - t >= IMAGE_THROTTLE_NANOS,
            None => true,
        };
        if !allow {
            return None;
        }
        self.last_image_send = Some(now);
        Some(
            ClipboardSync {
                device_name: self.device_name.clone(),
                clip_type: CLIP_TYPE_IMAGE,
                data: png,
                timestamp,
            },
        )
    }
}

/// Law: a text that was read is not sent again by a later reading of the
/// same text (as long as no other text was read in between).
pub proof fn lemma_text_sent_once(w: WatcherModel, text: Seq<char>, t1: u64, t2: u64)
    ensures
        spec_on_text(spec_on_text(w, text, t1).0, text, t2).1 is None,
{
}

/// Law: an image that was read, whether it was sent or held back by the
/// throttle, is not sent by a later reading of the same image.
pub proof fn lemma_image_sent_once(w: WatcherModel, png: Seq<u8>, n1: u64, n2: u64, t1: u64, t2: u64)
    ensures
        spec_on_image(spec_on_image(w, png, n1, t1).0, png, n2, t2).1 is None,
{
}

/// Law: after an image is sent at monotonic time `n1`, no image is sent before
/// `n1` plus [`IMAGE_THROTTLE_SECS`].
pub proof fn lemma_image_throttle(
    w: WatcherModel,
    png1: Seq<u8>,
    png2: Seq<u8>,
    n1: u64,
    n2: u64,
    t1: u64,
    t2: u64,
)
    requires
        spec_on_image(w, png1, n1, t1).1 is Some,
        n1 <= n2,
        n2 - n1 < IMAGE_THROTTLE_NANOS,
    ensures
        spec_on_image(spec_on_image(w, png1, n1, t1).0, png2, n2, t2).1 is None,
{
}

/// Law: readings of the text leave what the watcher knows of images alone, and
/// readings of images leave what it knows of text alone.
pub proof fn lemma_text_and_images_independent(
    w: WatcherModel,
    text: Seq<char>,
    png: Seq<u8>,
    now: u64,
    t: u64,
)
    ensures
        spec_on_text(w, text, t).0.last_image_hash == w.last_image_hash,
        spec_on_text(w, text, t).0.last_image_send == w.last_image_send,
        spec_on_image(w, png, now, t).0.last_hash == w.last_hash,
{
}

/// One reading of the clipboard image: its PNG bytes, the monotonic time of
/// the reading (nanoseconds) and the wall-clock time (milliseconds).
pub struct ImageReading {
    pub png: Seq<u8>,
    pub now: u64,
    pub timestamp: u64,
}

/// Taking the image readings `readings` one after another: the watcher's
/// state after them, and the images sent, each with the monotonic time at
/// which it was sent.
pub open spec fn spec_on_images(w: WatcherModel, readings: Seq<ImageReading>) -> (
    WatcherModel,
    Seq<(u64, ClipboardSyncModel)>,
)
    decreases readings.len(),
{
    if readings.len() == 0 {
        (w, Seq::empty())
    } else {
        let (w1, sent) = spec_on_images(w, readings.drop_last());
        let r = readings.last();
        let (w2, out) = spec_on_image(w1, r.png, r.now, r.timestamp);
        match out {
            Some(e) => (w2, sent.push((r.now, e))),
            None => (w2, sent),
        }
    }
}

/// Law: over any readings of the clipboard image, any two images sent are at
/// least [`IMAGE_THROTTLE_SECS`] apart on the monotonic clock (a clock that
/// goes back delays the next image rather than letting it through), and each
/// image sent is an image entry of this device.
pub proof fn lemma_images_throttled(w: WatcherModel, readings: Seq<ImageReading>)
    ensures
        ({
            let sent = spec_on_images(w, readings).1;
            &&& forall|i: int, j: int|
                0 <= i < j < sent.len() ==> #[trigger] sent[i].0 <= #[trigger] sent[j].0 && sent[j].0
                    - sent[i].0 >= IMAGE_THROTTLE_NANOS
            &&& forall|i: int|
                0 <= i < sent.len() ==> (#[trigger] sent[i]).1.device_name == w.device_name
                    && sent[i].1.clip_type == CLIP_TYPE_IMAGE
            &&& spec_on_images(w, readings).0.device_name == w.device_name
            &&& sent.len() > 0 ==> spec_on_images(w, readings).0.last_image_send == Some(
                sent.last().0,
            )
        }),
    decreases readings.len(),
{
    if readings.len() > 0 {
        lemma_images_throttled(w, readings.drop_last());
        let (w1, sent1) = spec_on_images(w, readings.drop_last());
        let r = readings.last();
        let sent = spec_on_images(w, readings).1;
        if spec_on_image(w1, r.png, r.now, r.timestamp).1 is Some {
            assert(sent == sent1.push((r.now, spec_on_image(w1, r.png, r.now, r.timestamp).1->0)));
            assert forall|i: int, j: int| 0 <= i < j < sent.len() implies #[trigger] sent[i].0
                <= #[trigger] sent[j].0 && sent[j].0 - sent[i].0 >= IMAGE_THROTTLE_NANOS by {
                if j == sent.len() - 1 && sent1.len() > 0 {
                    assert(sent[i] == sent1[i]);
                    if i < sent1.len() - 1 {
                        assert(sent1[i].0 <= sent1[sent1.len() - 1].0);
                    }
                } else if j < sent.len() - 1 {
                    assert(sent[i] == sent1[i] && sent[j] == sent1[j]);
                }
            }
            assert forall|i: int| 0 <= i < sent.len() implies (#[trigger] sent[i]).1.device_name
                == w.device_name && sent[i].1.clip_type == CLIP_TYPE_IMAGE by {
                if i < sent1.len() {
                    assert(sent[i] == sent1[i]);
                }
            }
        } else {
            assert(sent == sent1);
        }
    }
}

// ---------------------------------------------------------------------------
// Clipboard images: RGBA pixels to PNG and back
// ---------------------------------------------------------------------------

#[verifier::external_type_specification]
#[verifier::external_body]
pub struct ExImageError(image::ImageError);

/// What `image::load_from_memory` followed by `to_rgba8` makes of the bytes
/// `png`: the width, the height and the RGBA pixels; nothing when the bytes are
/// not an image that the crate decodes.
pub uninterp spec fn decoded_rgba(png: Seq<u8>) -> Option<(u32, u32, Seq<u8>)>;

/// `image::load_from_memory` (the format guessed from the bytes), then
/// `DynamicImage::to_rgba8`. The result is named by `decoded_rgba`; its pixels
/// are not stated.
#[verifier::external_body]
fn load_rgba(png: &[u8]) -> (r: Result<(u32, u32, Vec<u8>), image::ImageError>)
    ensures
        match r {
            Ok((w, h, p)) => decoded_rgba(png@) == Some((w, h, p@)),
            Err(_) => decoded_rgba(png@) is None,
        },
{
    match image::load_from_memory(png) {
        Ok(img) => {
            let rgba = img.to_rgba8();
            Ok((rgba.width(), rgba.height(), rgba.into_raw()))
        },
        Err(e) => Err(e),
    }
}

/// The `Display` text of an `image::ImageError` (nothing is stated of it).
#[verifier::external_body]
fn image_error_text(e: &image::ImageError) -> String {
    e.to_string()
}

/// What the PNG encoder of the `image` crate, with fast compression and no
/// filter, makes of the RGBA pixels `rgba` of a `width` x `height` image:
/// the PNG bytes, or nothing when it fails.
pub uninterp spec fn png_fast(rgba: Seq<u8>, width: u32, height: u32) -> Option<Seq<u8>>;

/// `PngEncoder::new_with_quality(.., CompressionType::Fast, FilterType::NoFilter)`
/// and `write_image(.., ExtendedColorType::Rgba8)` into a byte buffer.
/// `write_image` asserts that the buffer holds exactly four bytes per pixel;
/// `requires` keeps that case out. The bytes are named by `png_fast`.
#[verifier::external_body]
fn encode_png_fast(rgba: &[u8], width: u32, height: u32) -> (r: Result<Vec<u8>, image::ImageError>)
    requires
        rgba@.len() == 4 * width * height,
    ensures
        match r {
            Ok(p) => png_fast(rgba@, width, height) == Some(p@),
            Err(_) => png_fast(rgba@, width, height) is None,
        },
{
    let mut buf: Vec<u8> = Vec::new();
    let encoder = PngEncoder::new_with_quality(
        std::io::Cursor::new(&mut buf),
        CompressionType::Fast,
        PngFilter::NoFilter,
    );
    match encoder.write_image(rgba, width, height, ExtendedColorType::Rgba8) {
        Ok(()) => Ok(buf),
        Err(e) => Err(e),
    }
}

/// What `image::imageops::resize` with the `Triangle` filter makes of the
/// `width` x `height` RGBA image `rgba` when scaling it to `nwidth` x `nheight`.
pub uninterp spec fn resized_rgba(rgba: Seq<u8>, width: u32, height: u32, nwidth: u32, nheight: u32) -> Seq<u8>;

/// `RgbaImage::from_raw` (which refuses a buffer shorter than four bytes per
/// pixel), then `image::imageops::resize` with the `Triangle` filter and
/// `into_raw`. The new image is `nwidth` x `nheight`, four bytes per pixel
/// (`ImageBuffer::new` makes it); its pixels are named by `resized_rgba`.
/// `ImageBuffer::new` panics when a buffer of `nwidth` x `nheight` pixels, or
/// (for a non-empty image) the intermediate one of `width` x `nheight`, does
/// not fit in memory's address range; `requires` keeps those cases out.
#[verifier::external_body]
fn resize_rgba(rgba: Vec<u8>, width: u32, height: u32, nwidth: u32, nheight: u32) -> (r: Option<Vec<u8>>)
    requires
        width > 0 && height > 0 ==> 4 * width * nheight <= usize::MAX,
        4 * nwidth * nheight <= usize::MAX,
    ensures
        r is Some <==> 4 * width * height <= rgba@.len(),
        r matches Some(p) ==> p@ == resized_rgba(rgba@, width, height, nwidth, nheight)
            && p@.len() == 4 * nwidth * nheight,
{
    match image::RgbaImage::from_raw(width, height, rgba) {
        Some(img) => Some(image::imageops::resize(&img, nwidth, nheight, ResizeFilter::Triangle).into_raw()),
        None => None,
    }
}

/// An image as RGBA pixels, four bytes per pixel, row by row.
#[derive(Debug)]
pub struct RgbaPixels {
    pub width: u32,
    pub height: u32,
    pub pixels: Vec<u8>,
}

/// Why a clipboard image could not be decoded.
#[derive(Debug)]
pub struct ImageDecodeError {
    /// The decoder's message.
    pub message: String,
}

/// Decodes the image `png` received from a remote device into RGBA pixels,
/// as the local clipboard takes them.
pub fn decode_clipboard_image(png: &[u8]) -> (r: Result<RgbaPixels, ImageDecodeError>)
    ensures
        match r {
            Ok(img) => decoded_rgba(png@) == Some((img.width, img.height, img.pixels@)),
            Err(_) => decoded_rgba(png@) is None,
        },
{
    match load_rgba(png) {
        Ok((width, height, pixels)) => Ok(RgbaPixels { width, height, pixels }),
        Err(e) => Err(ImageDecodeError { message: image_error_text(&e) }),
    }
}

/// Whether a `width` x `height` image is larger than `max` allows.
pub fn exceeds_max(width: u32, height: u32, max: Option<(u32, u32)>) -> (r: bool)
    ensures
        r == match max {
            Some((mw, mh)) => width > mw || height > mh,
            None => false,
        },
{
    match max {
        Some((mw, mh)) => width > mw || height > mh,
        None => false,
    }
}

/// The PNG sent for the clipboard image `rgba` of `width` x `height`: nothing
/// when the buffer is shorter than four bytes per pixel; else the image,
/// scaled to `scaled` first when given, encoded with fast compression
/// (nothing when encoding fails).
pub open spec fn spec_clipboard_png(width: u32, height: u32, rgba: Seq<u8>, scaled: Option<(u32, u32)>) -> Option<Seq<u8>> {
    if rgba.len() < 4 * width * height {
        None
    } else {
        match scaled {
            Some((nw, nh)) => png_fast(resized_rgba(rgba, width, height, nw, nh), nw, nh),
            None => png_fast(rgba, width, height),
        }
    }
}

pub open spec fn bytes_option_view(r: Option<Vec<u8>>) -> Option<Seq<u8>> {
    match r {
        Some(v) => Some(v@),
        None => None,
    }
}

/// Encodes a clipboard image for sending: the caller passes the size to scale
/// it to when [`exceeds_max`] says it is too large (that size keeps the aspect
/// ratio and is computed in floating point by the caller).
pub fn encode_clipboard_image(width: u32, height: u32, rgba: Vec<u8>, scaled: Option<(u32, u32)>) -> (r: Option<Vec<u8>>)
    requires
        scaled is None ==> rgba@.len() <= 4 * width * height,
        scaled matches Some((nw, nh)) ==> (width > 0 && height > 0 ==> 4 * width * nh <= usize::MAX)
            && 4 * nw * nh <= usize::MAX,
    ensures
        bytes_option_view(r) == spec_clipboard_png(width, height, rgba@, scaled),
{
    assert((width as u128) * (height as u128) <= 0xffff_ffff_ffff_ffff) by (nonlinear_arith)
        requires
            width <= 0xffff_ffff,
            height <= 0xffff_ffff,
    ;
    let needed: u128 = 4u128 * ((width as u128) * (height as u128));
    assert(needed == 4 * width * height) by (nonlinear_arith)
        requires
            needed == 4 * ((width as u128) * (height as u128)),
    ;
    if (rgba.len() as u128) < needed {
        return None;
    }
    let (pixels, w, h) = match scaled {
        Some((nw, nh)) => {
            let resized = match resize_rgba(rgba, width, height, nw, nh) {
                Some(p) => p,
                None => return None,
            };
            (resized, nw, nh)
        },
        None => (rgba, width, height),
    };
    match encode_png_fast(pixels.as_slice(), w, h) {
        Ok(png) => Some(png),
        Err(_) => None,
    }
}

} // verus!
