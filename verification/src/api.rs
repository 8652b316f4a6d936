//! The runtime API of the service, as a state machine. The host keeps one
//! [`ShareState`] for the process; each API call reads or updates it and, where
//! something has to go out on the network, returns what to send and to whom.

use vstd::prelude::*;
use vstd::utf8::encode_utf8;
use crate::proto::{
    envelope_for, lemma_clipboard_sync_roundtrip, lemma_delivery, lemma_file_offer_roundtrip,
    make_envelope, message_type_code, spec_decode, spec_frame, spec_split_frame, ClipboardSync,
    ClipboardSyncModel, Envelope, EnvelopeModel, FileOffer, FileOfferModel, MessageType,
    ProtoMessage, CLIP_TYPE_IMAGE, CLIP_TYPE_TEXT,
};
use crate::wire::{i32_wire, lemma_bytes_field_len, lemma_varint_field_len, DecodeError};
use crate::text::{after_last, chars_of, copy_chars, segment_start, string_from_chars};
use crate::DEFAULT_PORT;

verus! {

/// The state of the service in this process.
pub struct ShareState {
    started: bool,
    enabled: bool,
    file_transfer: bool,
    port: u16,
    sync_images: bool,
    device_name: String,
    peers: Vec<String>,
    last_remote: Vec<u8>,
}

pub struct ShareModel {
    /// The server was launched (it is launched once per process).
    pub started: bool,
    /// Synchronisation is on (sending and receiving).
    pub enabled: bool,
    /// File transfer is allowed (independent of clipboard synchronisation).
    pub file_transfer: bool,
    pub port: u16,
    pub sync_images: bool,
    pub device_name: Seq<char>,
    /// The virtual IP addresses of the devices online, as the host last gave them.
    pub peers: Seq<Seq<char>>,
    /// The last clipboard contents that a remote device wrote here.
    pub last_remote: Seq<u8>,
}

pub open spec fn strings_view(v: Seq<String>) -> Seq<Seq<char>> {
    v.map_values(|s: String| s@)
}

impl View for ShareState {
    type V = ShareModel;

    closed spec fn view(&self) -> ShareModel {
        ShareModel {
            started: self.started,
            enabled: self.enabled,
            file_transfer: self.file_transfer,
            port: self.port,
            sync_images: self.sync_images,
            device_name: self.device_name@,
            peers: strings_view(self.peers@),
            last_remote: self.last_remote@,
        }
    }
}

/// The state before any call: stopped, port 12000, images synchronised,
/// device name `device`, no peers.
pub open spec fn initial_state() -> ShareModel {
    ShareModel {
        started: false,
        enabled: false,
        file_transfer: false,
        port: DEFAULT_PORT,
        sync_images: true,
        device_name: seq!['d', 'e', 'v', 'i', 'c', 'e'],
        peers: Seq::empty(),
        last_remote: Seq::empty(),
    }
}

impl ShareState {
    pub fn new() -> (r: Self)
        ensures
            r@ == initial_state(),
    {
        let r = ShareState {
            started: false,
            enabled: false,
            file_transfer: false,
            port: DEFAULT_PORT,
            sync_images: true,
            device_name: string_from_chars(vec!['d', 'e', 'v', 'i', 'c', 'e']),
            peers: Vec::new(),
            last_remote: Vec::new(),
        };
        assert(r@.peers =~= Seq::<Seq<char>>::empty());
        r
    }
}

/// The name of this device.
pub fn device_name(state: &ShareState) -> (r: String)
    ensures
        r@ == state@.device_name,
{
    state.device_name.clone()
}

/// The port of the service.
pub fn port(state: &ShareState) -> (r: u16)
    ensures
        r == state@.port,
{
    state.port
}

/// Whether image clipboard entries are synchronised.
pub fn sync_images(state: &ShareState) -> (r: bool)
    ensures
        r == state@.sync_images,
{
    state.sync_images
}

/// Whether synchronisation is on.
pub fn is_enabled(state: &ShareState) -> (r: bool)
    ensures
        r == state@.enabled,
{
    state.enabled
}

/// Turns file transfer on or off.
pub fn set_file_transfer(state: &mut ShareState, v: bool)
    ensures
        final(state)@ == (ShareModel { file_transfer: v, ..old(state)@ }),
{
    state.file_transfer = v;
}

/// Whether file transfer is on.
pub fn file_transfer_enabled(state: &ShareState) -> (r: bool)
    ensures
        r == state@.file_transfer,
{
    state.file_transfer
}

/// Replaces the list of online peers.
pub fn update_peers(state: &mut ShareState, peers: Vec<String>)
    ensures
        final(state)@ == (ShareModel { peers: strings_view(peers@), ..old(state)@ }),
{
    state.peers = peers;
}

fn clone_strings(v: &Vec<String>) -> (r: Vec<String>)
    ensures
        strings_view(r@) == strings_view(v@),
{
    let mut r: Vec<String> = Vec::new();
    let mut i: usize = 0;
    while i < v.len()
        invariant
            i <= v@.len(),
            strings_view(r@) == strings_view(v@.take(i as int)),
        decreases v@.len() - i,
    {
        let ghost before = r@;
        let c = v[i].clone();
        assert(c@ == v@[i as int]@);
        r.push(c);
        assert(v@.take(i + 1) =~= v@.take(i as int).push(v@[i as int]));
        assert(strings_view(r@) =~= strings_view(before).push(c@));
        assert(strings_view(v@.take(i + 1)) =~= strings_view(v@.take(i as int)).push(v@[i as int]@));
        i = i + 1;
    }
    assert(v@.take(v@.len() as int) =~= v@);
    r
}

/// The list of online peers.
pub fn peers(state: &ShareState) -> (r: Vec<String>)
    ensures
        strings_view(r@) == state@.peers,
{
    clone_strings(&state.peers)
}

/// Remembers `data` as the clipboard contents just written by a remote device.
pub fn mark_remote_write(state: &mut ShareState, data: &[u8])
    ensures
        final(state)@ == (ShareModel { last_remote: data@, ..old(state)@ }),
{
    state.last_remote = crate::wire::copy_range(data, 0, data.len());
    assert(data@.subrange(0, data@.len() as int) =~= data@);
}

/// Whether `data` is what a remote device just wrote (then it must not be sent back).
pub open spec fn spec_is_echo(s: ShareModel, data: Seq<u8>) -> bool {
    s.last_remote.len() > 0 && s.last_remote == data
}

/// Whether `data` is what a remote device just wrote to the local clipboard.
pub fn is_echo_of_remote(state: &ShareState, data: &[u8]) -> (r: bool)
    ensures
        r == spec_is_echo(state@, data@),
{
    let last = &state.last_remote;
    if last.len() == 0 || last.len() != data.len() {
        return false;
    }
    let mut i: usize = 0;
    while i < data.len()
        invariant
            i <= data@.len(),
            last@.len() == data@.len(),
            last@ == state@.last_remote,
            forall|k: int| 0 <= k < i ==> last@[k] == data@[k],
        decreases data@.len() - i,
    {
        if last[i] != data[i] {
            return false;
        }
        i = i + 1;
    }
    assert(last@ =~= data@);
    true
}

// ---------------------------------------------------------------------------
// Starting and stopping
// ---------------------------------------------------------------------------

/// What the host has to launch when the service starts for the first time.
#[derive(Debug)]
pub struct ServerLaunch {
    pub bind: String,
    pub port: u16,
    pub device_name: String,
    pub recv_dir: String,
}

/// The address the server listens on: `0.0.0.0` (all interfaces), whatever
/// address the host gives, so that listening does not depend on the virtual
/// network interface being up yet (on mobile it may come up after the service
/// starts).
pub open spec fn listen_address() -> Seq<char> {
    seq!['0', '.', '0', '.', '0', '.', '0']
}

/// The port the service uses: `port`, or the default port when 0.
pub open spec fn spec_port(port: u16) -> u16 {
    if port > 0 {
        port
    } else {
        DEFAULT_PORT
    }
}

/// The state after a start with these settings: started, synchronising, with
/// the given port (0 meaning the default port), device name and image setting.
pub open spec fn spec_started(s: ShareModel, port: u16, device_name: Seq<char>, sync_images: bool) -> ShareModel {
    ShareModel {
        started: true,
        enabled: true,
        port: spec_port(port),
        sync_images,
        device_name,
        ..s
    }
}

/// Starts (or reconfigures) the service: takes the port (0 means the default
/// port), device name and image setting, and turns synchronisation on. Only the
/// first call launches the server: it returns what to launch, listening on
/// `0.0.0.0` and the port whatever `_bind` the host passes; later calls return
/// nothing.
pub fn start(
    state: &mut ShareState,
    _bind: &str,
    port: u16,
    device_name: &str,
    sync_images: bool,
    recv_dir: &str,
) -> (r: Option<ServerLaunch>)
    ensures
        final(state)@ == spec_started(old(state)@, port, device_name@, sync_images),
        old(state)@.started ==> r is None,
        !old(state)@.started ==> (r matches Some(l) && l.bind@ == listen_address() && l.port
            == spec_port(port) && l.device_name@ == device_name@ && l.recv_dir@ == recv_dir@),
{
    let port = if port > 0 {
        port
    } else {
        DEFAULT_PORT
    };
    state.port = port;
    state.sync_images = sync_images;
    state.device_name = string_from_chars(chars_of(device_name));
    state.enabled = true;
    if state.started {
        return None;
    }
    state.started = true;
    let bind = string_from_chars(vec!['0', '.', '0', '.', '0', '.', '0']);
    Some(
        ServerLaunch {
            bind,
            port,
            device_name: string_from_chars(chars_of(device_name)),
            recv_dir: string_from_chars(chars_of(recv_dir)),
        },
    )
}

/// Turns synchronisation off (the server keeps listening, so it can resume quickly).
pub fn stop(state: &mut ShareState)
    ensures
        final(state)@ == (ShareModel { enabled: false, ..old(state)@ }),
{
    state.enabled = false;
}

// ---------------------------------------------------------------------------
// Broadcasting the clipboard
// ---------------------------------------------------------------------------

/// A frame to send to every online peer.
#[derive(Debug)]
pub struct Broadcast {
    pub frame: Vec<u8>,
    pub targets: Vec<String>,
    pub port: u16,
}

/// The frame that carries a clipboard entry of this device.
pub open spec fn spec_clipboard_frame(s: ShareModel, clip_type: i32, data: Seq<u8>, now_ms: u64) -> Seq<
    u8,
> {
    spec_frame(
        Envelope::spec_encode(
            envelope_for(
                message_type_code(MessageType::ClipboardSync),
                ClipboardSync::spec_encode(
                    ClipboardSyncModel {
                        device_name: s.device_name,
                        clip_type,
                        data,
                        timestamp: now_ms,
                    },
                ),
            ),
        ),
    )
}

/// The broadcast of a frame: to every peer, on the service port; nothing when
/// no peer is online.
pub open spec fn spec_broadcast(s: ShareModel, frame: Seq<u8>) -> Option<
    (Seq<u8>, Seq<Seq<char>>, u16),
> {
    if s.peers.len() == 0 {
        None
    } else {
        Some((frame, s.peers, s.port))
    }
}

pub open spec fn broadcast_view(b: Option<Broadcast>) -> Option<(Seq<u8>, Seq<Seq<char>>, u16)> {
    match b {
        Some(b) => Some((b.frame@, strings_view(b.targets@), b.port)),
        None => None,
    }
}

/// What broadcasting the text `text` of the local clipboard sends, taken at time `now_ms`.
pub open spec fn spec_broadcast_text(s: ShareModel, text: Seq<char>, now_ms: u64) -> Option<
    (Seq<u8>, Seq<Seq<char>>, u16),
> {
    let bytes = encode_utf8(text);
    if !s.enabled || bytes.len() == 0 || spec_is_echo(s, bytes) {
        None
    } else {
        spec_broadcast(s, spec_clipboard_frame(s, CLIP_TYPE_TEXT, bytes, now_ms))
    }
}

/// What broadcasting the image `png` of the local clipboard sends, taken at time `now_ms`.
pub open spec fn spec_broadcast_image(s: ShareModel, png: Seq<u8>, now_ms: u64) -> Option<
    (Seq<u8>, Seq<Seq<char>>, u16),
> {
    if !s.enabled || !s.sync_images || png.len() == 0 || spec_is_echo(s, png) {
        None
    } else {
        spec_broadcast(s, spec_clipboard_frame(s, CLIP_TYPE_IMAGE, png, now_ms))
    }
}

fn broadcast_frame(state: &ShareState, frame: Vec<u8>) -> (r: Option<Broadcast>)
    ensures
        broadcast_view(r) == spec_broadcast(state@, frame@),
{
    if state.peers.len() == 0 {
        return None;
    }
    Some(Broadcast { frame, targets: peers(state), port: state.port })
}

/// Sends the text of the local clipboard to every online peer, unless
/// synchronisation is off, the text is empty, or it came from a remote device.
pub fn broadcast_text(state: &ShareState, text: &str, now_ms: u64) -> (r: Option<Broadcast>)
    ensures
        broadcast_view(r) == spec_broadcast_text(state@, text@, now_ms),
{
    if !is_enabled(state) {
        return None;
    }
    let bytes = text.as_bytes();
    if bytes.len() == 0 || is_echo_of_remote(state, bytes) {
        return None;
    }
    let sync = ClipboardSync {
        device_name: device_name(state),
        clip_type: CLIP_TYPE_TEXT,
        data: crate::wire::copy_range(bytes, 0, bytes.len()),
        timestamp: now_ms,
    };
    assert(bytes@.subrange(0, bytes@.len() as int) =~= bytes@);
    let frame = make_envelope(MessageType::ClipboardSync.as_i32(), &sync);
    broadcast_frame(state, frame)
}

/// Sends the image (PNG bytes) of the local clipboard to every online peer,
/// unless synchronisation or image synchronisation is off, the image is empty,
/// or it came from a remote device.
pub fn broadcast_image(state: &ShareState, png: Vec<u8>, now_ms: u64) -> (r: Option<Broadcast>)
    ensures
        broadcast_view(r) == spec_broadcast_image(state@, png@, now_ms),
{
    if !is_enabled(state) || !sync_images(state) || png.len() == 0 {
        return None;
    }
    if is_echo_of_remote(state, png.as_slice()) {
        return None;
    }
    let sync = ClipboardSync {
        device_name: device_name(state),
        clip_type: CLIP_TYPE_IMAGE,
        data: png,
        timestamp: now_ms,
    };
    let frame = make_envelope(MessageType::ClipboardSync.as_i32(), &sync);
    broadcast_frame(state, frame)
}

/// The id of a file transfer, made from the current time in nanoseconds.
pub fn transfer_id(nanos: u128) -> (r: u32)
    ensures
        r == (nanos ^ (nanos >> 32u128)) as u32,
{
    (nanos ^ (nanos >> 32)) as u32
}


// ---------------------------------------------------------------------------
// Sending a file
// ---------------------------------------------------------------------------

/// The final component of a path when it is a file or directory name, as
/// `std::path::Path::file_name` gives it on Android and Linux, where only `/`
/// separates components (a `\` is an ordinary character of a name): empty and
/// `.` components are skipped; a final `..`, or no component at all, gives
/// nothing.
pub open spec fn spec_file_name(p: Seq<char>) -> Option<Seq<char>>
    decreases p.len(),
{
    let seg = after_last(p, '/');
    if seg.len() == 0 || seg == seq!['.'] {
        if seg.len() < p.len() {
            spec_file_name(p.take(p.len() - seg.len() - 1))
        } else {
            None
        }
    } else if seg == seq!['.', '.'] {
        None
    } else {
        Some(seg)
    }
}

/// The final component of `path` when it is a name.
pub fn file_name_of(path: &str) -> (r: Option<String>)
    ensures
        r matches Some(s) ==> spec_file_name(path@) == Some(s@),
        r is None ==> spec_file_name(path@) is None,
{
    let v = chars_of(path);
    let mut end = v.len();
    assert(v@.take(end as int) =~= v@);
    loop
        invariant
            end <= v@.len(),
            v@ == path@,
            spec_file_name(v@) == spec_file_name(v@.take(end as int)),
        decreases end,
    {
        let ghost p = v@.take(end as int);
        let st = segment_start(&v, end, '/');
        let ghost seg = after_last(p, '/');
        assert(seg == v@.subrange(st as int, end as int));
        let len = end - st;
        let is_dot = len == 1 && v[st] == '.';
        let is_dot_dot = len == 2 && v[st] == '.' && v[st + 1] == '.';
        proof {
            if len == 1 {
                if is_dot {
                    assert(seg =~= seq!['.']);
                } else {
                    assert(seg[0] != '.');
                }
            } else {
                assert(seg.len() != 1);
            }
            if len == 2 {
                if is_dot_dot {
                    assert(seg =~= seq!['.', '.']);
                } else {
                    assert(seg[0] != '.' || seg[1] != '.');
                }
            } else {
                assert(seg.len() != 2);
            }
        }
        if len == 0 || is_dot {
            if st == 0 {
                return None;
            }
            assert(p.take(p.len() - seg.len() - 1) =~= v@.take(st - 1));
            end = st - 1;
        } else if is_dot_dot {
            return None;
        } else {
            return Some(string_from_chars(copy_chars(&v, st, end)));
        }
    }
}

/// What sending a file does at first: the offer that announces it (so that
/// receivers know its name), the path to read, the transfer id, and the peers
/// to send the file to.
#[derive(Debug)]
pub struct FileSend {
    pub offer_frame: Vec<u8>,
    pub path: String,
    pub transfer_id: u32,
    pub targets: Vec<String>,
    pub port: u16,
}

/// The frame that announces file `name` for transfer `transfer_id`.
pub open spec fn spec_offer_frame(name: Seq<char>, transfer_id: u32) -> Seq<u8> {
    spec_frame(
        Envelope::spec_encode(
            envelope_for(
                message_type_code(MessageType::FileOffer),
                FileOffer::spec_encode(
                    FileOfferModel {
                        file_name: name,
                        file_size: 0,
                        file_hash: Seq::empty(),
                        transfer_id,
                    },
                ),
            ),
        ),
    )
}

/// The name a file is announced under: its final path component, else `file.bin`.
pub open spec fn spec_offered_name(path: Seq<char>) -> Seq<char> {
    match spec_file_name(path) {
        Some(n) => n,
        None => seq!['f', 'i', 'l', 'e', '.', 'b', 'i', 'n'],
    }
}

/// Why a file is not sent.
#[derive(Debug, Clone, Copy, PartialEq, Eq, Structural)]
pub enum SendFileRefusal {
    /// Synchronisation or file transfer is off.
    NotEnabled,
    /// No peer is online.
    NoPeers,
}

/// What sending the file at `path` as transfer `transfer_id` does: refused
/// when synchronisation or file transfer is off or no peer is online; else the
/// offer frame, the peers and the port.
pub open spec fn spec_send_file(s: ShareModel, path: Seq<char>, transfer_id: u32) -> Result<
    (Seq<u8>, Seq<Seq<char>>, u16),
    SendFileRefusal,
> {
    if !s.enabled || !s.file_transfer {
        Err(SendFileRefusal::NotEnabled)
    } else if s.peers.len() == 0 {
        Err(SendFileRefusal::NoPeers)
    } else {
        Ok((spec_offer_frame(spec_offered_name(path), transfer_id), s.peers, s.port))
    }
}

/// Sends the file at `path` to every online peer: announces it, then the caller
/// sends its chunks to each peer with a [`crate::file_transfer::FileSender`].
pub fn send_file(state: &ShareState, path: &str, transfer_id: u32) -> (r: Result<FileSend, SendFileRefusal>)
    ensures
        spec_send_file(state@, path@, transfer_id) matches Ok((f, t, p)) ==> (r matches Ok(x)
            && x.offer_frame@ == f && strings_view(x.targets@) == t && x.port == p && x.path@
            == path@ && x.transfer_id == transfer_id),
        spec_send_file(state@, path@, transfer_id) matches Err(e) ==> r == Err::<FileSend, SendFileRefusal>(e),
{
    if !is_enabled(state) || !file_transfer_enabled(state) {
        return Err(SendFileRefusal::NotEnabled);
    }
    let name = match file_name_of(path) {
        Some(n) => n,
        None => string_from_chars(vec!['f', 'i', 'l', 'e', '.', 'b', 'i', 'n']),
    };
    if state.peers.len() == 0 {
        return Err(SendFileRefusal::NoPeers);
    }
    let offer = FileOffer {
        file_name: name,
        file_size: 0,
        file_hash: string_from_chars(Vec::new()),
        transfer_id,
    };
    assert(offer@.file_hash =~= Seq::<char>::empty());
    let frame = make_envelope(MessageType::FileOffer.as_i32(), &offer);
    Ok(
        FileSend {
            offer_frame: frame,
            path: string_from_chars(chars_of(path)),
            transfer_id,
            targets: peers(state),
            port: state.port,
        },
    )
}

// ---------------------------------------------------------------------------
// Laws
// ---------------------------------------------------------------------------

/// Law: starting again only reconfigures: the state is that of a single start
/// with the last settings, and (by `start`'s contract) no second server is
/// launched.
pub proof fn lemma_restart_reconfigures(
    s: ShareModel,
    port1: u16,
    name1: Seq<char>,
    images1: bool,
    port2: u16,
    name2: Seq<char>,
    images2: bool,
)
    ensures
        spec_started(s, port1, name1, images1).started,
        spec_started(spec_started(s, port1, name1, images1), port2, name2, images2) == spec_started(
            s,
            port2,
            name2,
            images2,
        ),
{
}

/// Law: content that a remote device has just written to the local clipboard
/// (remembered by `mark_remote_write`) is not broadcast back, neither as an
/// image nor as a text whose UTF-8 bytes it is.
pub proof fn lemma_no_echo(s: ShareModel, data: Seq<u8>, text: Seq<char>, now_ms: u64)
    requires
        data.len() > 0,
    ensures
        spec_broadcast_image(ShareModel { last_remote: data, ..s }, data, now_ms) is None,
        encode_utf8(text) == data ==> spec_broadcast_text(
            ShareModel { last_remote: data, ..s },
            text,
            now_ms,
        ) is None,
{
}

/// Law: once `stop` turned synchronisation off, nothing is broadcast and no
/// file is sent (until the next start).
pub proof fn lemma_stopped_sends_nothing(
    s: ShareModel,
    text: Seq<char>,
    png: Seq<u8>,
    path: Seq<char>,
    transfer_id: u32,
    now_ms: u64,
)
    ensures
        spec_broadcast_text(ShareModel { enabled: false, ..s }, text, now_ms) is None,
        spec_broadcast_image(ShareModel { enabled: false, ..s }, png, now_ms) is None,
        spec_send_file(ShareModel { enabled: false, ..s }, path, transfer_id) == Err::<
            (Seq<u8>, Seq<Seq<char>>, u16),
            SendFileRefusal,
        >(SendFileRefusal::NotEnabled),
{
}

/// Law: a broadcast goes to exactly the peers that the host last gave, on the
/// service port.
pub proof fn lemma_broadcast_targets(s: ShareModel, peers: Seq<Seq<char>>, text: Seq<char>, now_ms: u64)
    ensures
        spec_broadcast_text(ShareModel { peers, ..s }, text, now_ms) matches Some((_, t, p)) ==> t
            == peers && p == s.port,
        peers.len() == 0 ==> spec_broadcast_text(ShareModel { peers, ..s }, text, now_ms) is None,
{
}

/// A call that turns synchronisation on or off.
pub enum Switch {
    Start { port: u16, device_name: Seq<char>, sync_images: bool },
    Stop,
}

/// The state after the calls `calls`, one after another.
pub open spec fn after_switches(s: ShareModel, calls: Seq<Switch>) -> ShareModel
    decreases calls.len(),
{
    if calls.len() == 0 {
        s
    } else {
        let before = after_switches(s, calls.drop_last());
        match calls.last() {
            Switch::Start { port, device_name, sync_images } => spec_started(
                before,
                port,
                device_name,
                sync_images,
            ),
            Switch::Stop => ShareModel { enabled: false, ..before },
        }
    }
}

/// Law: over any sequence of starts and stops, synchronisation is on exactly
/// when the last of them is a start (before any, it is as it was: off in a new
/// process); a start also leaves the server launched for good.
pub proof fn lemma_enabled_follows_last_switch(s: ShareModel, calls: Seq<Switch>)
    ensures
        after_switches(s, calls).enabled == if calls.len() == 0 {
            s.enabled
        } else {
            calls.last() is Start
        },
        !initial_state().enabled,
        (exists|i: int| 0 <= i < calls.len() && calls[i] is Start) ==> after_switches(
            s,
            calls,
        ).started,
    decreases calls.len(),
{
    if calls.len() > 0 {
        lemma_enabled_follows_last_switch(s, calls.drop_last());
        if exists|i: int| 0 <= i < calls.len() && calls[i] is Start {
            let i = choose|i: int| 0 <= i < calls.len() && calls[i] is Start;
            if i < calls.len() - 1 {
                assert(calls.drop_last()[i] is Start);
            }
        }
    }
}

// ---------------------------------------------------------------------------
// Laws on what goes out, stated by what a receiver decodes
// ---------------------------------------------------------------------------

/// `frame` is one whole frame whose envelope (version 1) carries the
/// clipboard entry `c`, as a receiver decodes it.
pub open spec fn carries_clipboard(frame: Seq<u8>, c: ClipboardSyncModel) -> bool {
    &&& spec_split_frame(frame) matches Some((body, n))
    &&& n == frame.len()
    &&& spec_decode::<Envelope>(body) matches Ok(env)
    &&& env.version == 1
    &&& env.msg_type == 1
    &&& spec_decode::<ClipboardSync>(env.payload) == Ok::<ClipboardSyncModel, DecodeError>(c)
}

/// `frame` is one whole frame whose envelope (version 1) carries the file
/// offer `o`, as a receiver decodes it.
pub open spec fn carries_offer(frame: Seq<u8>, o: FileOfferModel) -> bool {
    &&& spec_split_frame(frame) matches Some((body, n))
    &&& n == frame.len()
    &&& spec_decode::<Envelope>(body) matches Ok(env)
    &&& env.version == 1
    &&& env.msg_type == 2
    &&& spec_decode::<FileOffer>(env.payload) == Ok::<FileOfferModel, DecodeError>(o)
}

proof fn lemma_clipboard_frame_carries(c: ClipboardSyncModel)
    requires
        encode_utf8(c.device_name).len() + c.data.len() < 0x8000_0000,
    ensures
        carries_clipboard(
            spec_frame(
                Envelope::spec_encode(
                    envelope_for(message_type_code(MessageType::ClipboardSync), ClipboardSync::spec_encode(c)),
                ),
            ),
            c,
        ),
{
    lemma_bytes_field_len(1, encode_utf8(c.device_name));
    lemma_varint_field_len(2, i32_wire(c.clip_type));
    lemma_bytes_field_len(3, c.data);
    lemma_varint_field_len(4, c.timestamp as nat);
    let payload = ClipboardSync::spec_encode(c);
    lemma_varint_field_len(1, 1);
    lemma_varint_field_len(2, 1);
    lemma_bytes_field_len(3, payload);
    lemma_clipboard_sync_roundtrip(c);
    lemma_delivery::<ClipboardSync>(1, c, Seq::empty());
    let body = Envelope::spec_encode(envelope_for(1, payload));
    assert(spec_frame(body) + Seq::<u8>::empty() =~= spec_frame(body));
}

proof fn lemma_offer_frame_carries(o: FileOfferModel)
    requires
        encode_utf8(o.file_name).len() + encode_utf8(o.file_hash).len() < 0x8000_0000,
    ensures
        carries_offer(
            spec_frame(
                Envelope::spec_encode(
                    envelope_for(message_type_code(MessageType::FileOffer), FileOffer::spec_encode(o)),
                ),
            ),
            o,
        ),
{
    lemma_bytes_field_len(1, encode_utf8(o.file_name));
    lemma_varint_field_len(2, o.file_size as nat);
    lemma_bytes_field_len(3, encode_utf8(o.file_hash));
    lemma_varint_field_len(4, o.transfer_id as nat);
    let payload = FileOffer::spec_encode(o);
    lemma_varint_field_len(1, 1);
    lemma_varint_field_len(2, 2);
    lemma_bytes_field_len(3, payload);
    lemma_file_offer_roundtrip(o);
    lemma_delivery::<FileOffer>(2, o, Seq::empty());
    let body = Envelope::spec_encode(envelope_for(2, payload));
    assert(spec_frame(body) + Seq::<u8>::empty() =~= spec_frame(body));
}

/// Law: broadcasting the clipboard text sends exactly when synchronisation is
/// on, the text is not empty, its bytes are not exactly what a remote device
/// last wrote, and some peer is online; it then goes to every peer the host
/// last gave, on the service port, as a frame that a receiver decodes into a
/// text entry of this device with the text's UTF-8 bytes and the given time.
pub proof fn lemma_broadcast_text_law(s: ShareModel, text: Seq<char>, now_ms: u64)
    requires
        encode_utf8(s.device_name).len() + encode_utf8(text).len() < 0x8000_0000,
    ensures
        spec_broadcast_text(s, text, now_ms) is Some <==> (s.enabled && encode_utf8(text).len() > 0
            && encode_utf8(text) != s.last_remote && s.peers.len() > 0),
        spec_broadcast_text(s, text, now_ms) matches Some((frame, targets, port)) ==> {
            &&& targets == s.peers
            &&& port == s.port
            &&& carries_clipboard(
                frame,
                ClipboardSyncModel {
                    device_name: s.device_name,
                    clip_type: CLIP_TYPE_TEXT,
                    data: encode_utf8(text),
                    timestamp: now_ms,
                },
            )
        },
{
    lemma_clipboard_frame_carries(
        ClipboardSyncModel {
            device_name: s.device_name,
            clip_type: CLIP_TYPE_TEXT,
            data: encode_utf8(text),
            timestamp: now_ms,
        },
    );
}

/// Law: broadcasting the clipboard image sends exactly when synchronisation and
/// image synchronisation are on, the image is not empty, it is not exactly
/// what a remote device last wrote, and some peer is online; it then goes to
/// every peer the host last gave, on the service port, as a frame that a
/// receiver decodes into an image entry of this device with the PNG bytes and
/// the given time.
pub proof fn lemma_broadcast_image_law(s: ShareModel, png: Seq<u8>, now_ms: u64)
    requires
        encode_utf8(s.device_name).len() + png.len() < 0x8000_0000,
    ensures
        spec_broadcast_image(s, png, now_ms) is Some <==> (s.enabled && s.sync_images && png.len()
            > 0 && png != s.last_remote && s.peers.len() > 0),
        spec_broadcast_image(s, png, now_ms) matches Some((frame, targets, port)) ==> {
            &&& targets == s.peers
            &&& port == s.port
            &&& carries_clipboard(
                frame,
                ClipboardSyncModel {
                    device_name: s.device_name,
                    clip_type: CLIP_TYPE_IMAGE,
                    data: png,
                    timestamp: now_ms,
                },
            )
        },
{
    lemma_clipboard_frame_carries(
        ClipboardSyncModel {
            device_name: s.device_name,
            clip_type: CLIP_TYPE_IMAGE,
            data: png,
            timestamp: now_ms,
        },
    );
}

/// Law: content counts as an echo of a remote write exactly when it is, byte
/// for byte, the non-empty content last written by a remote device; anything
/// else (a longer text that starts with it, say) is not an echo.
pub proof fn lemma_echo_is_exact(s: ShareModel, data: Seq<u8>)
    ensures
        spec_is_echo(s, data) <==> (data.len() > 0 && data == s.last_remote),
        data != s.last_remote ==> !spec_is_echo(s, data),
{
}

/// Law: sending a file is refused, for want of the switches, exactly when
/// synchronisation or file transfer is off, and for want of peers exactly when
/// both are on and no peer is online. Otherwise it goes to every peer the host
/// last gave, on the service port, and its offer frame is decoded by a
/// receiver as the offer of the path's file name (or `file.bin`) for this
/// transfer, with no size and no hash.
pub proof fn lemma_send_file_law(s: ShareModel, path: Seq<char>, transfer_id: u32)
    requires
        encode_utf8(spec_offered_name(path)).len() < 0x8000_0000,
    ensures
        (spec_send_file(s, path, transfer_id) == Err::<(Seq<u8>, Seq<Seq<char>>, u16), SendFileRefusal>(
            SendFileRefusal::NotEnabled,
        )) <==> !(s.enabled && s.file_transfer),
        (spec_send_file(s, path, transfer_id) == Err::<(Seq<u8>, Seq<Seq<char>>, u16), SendFileRefusal>(
            SendFileRefusal::NoPeers,
        )) <==> (s.enabled && s.file_transfer && s.peers.len() == 0),
        spec_send_file(s, path, transfer_id) matches Ok((frame, targets, port)) ==> {
            &&& targets == s.peers
            &&& port == s.port
            &&& carries_offer(
                frame,
                FileOfferModel {
                    file_name: match spec_file_name(path) {
                        Some(n) => n,
                        None => seq!['f', 'i', 'l', 'e', '.', 'b', 'i', 'n'],
                    },
                    file_size: 0,
                    file_hash: Seq::empty(),
                    transfer_id,
                },
            )
        },
{
    let o = FileOfferModel {
        file_name: spec_offered_name(path),
        file_size: 0,
        file_hash: Seq::empty(),
        transfer_id,
    };
    assert(encode_utf8(Seq::<char>::empty()).len() == 0);
    lemma_offer_frame_carries(o);
}

} // verus!
