//! What a device does with each frame body that it receives: the decisions of
//! the message handler, as a state machine from (state, bytes) to
//! (state, action). The caller performs the action (writing the clipboard,
//! writing a received file to disk).

use std::collections::HashMap;
use vstd::prelude::*;
use vstd::utf8::{decode_utf8, valid_utf8};
use crate::proto::{
    decode_message, envelope_for, lemma_clipboard_sync_roundtrip, lemma_envelope_roundtrip,
    lemma_file_chunk_roundtrip, lemma_file_complete_roundtrip, lemma_file_offer_roundtrip,
    message_type_code, message_type_from_i32, spec_decode, spec_message_type, ClipboardSync,
    bool_wire, ClipboardSyncModel, Envelope, FileChunk, FileChunkModel, FileComplete, FileCompleteModel,
    FileOffer, FileOfferModel, MessageType, ProtoMessage, CLIP_TYPE_IMAGE,
};
use crate::wire::{lemma_varint_field_len, u64_bound};
use crate::text::{
    after_last, after_last_char, chars_of, decimal, lemma_after_last, lemma_after_last_absent,
    lemma_trim, lemma_trim_fixed, push_decimal, string_from_chars, trim, trim_chars,
};
use crate::wire::DecodeError;

verus! {

broadcast use vstd::std_specs::hash::group_hash_axioms;

// ---------------------------------------------------------------------------
// File names
// ---------------------------------------------------------------------------

/// Whether `t` is `.` or `..`, which name a directory and not a file.
pub open spec fn is_dot_name(t: Seq<char>) -> bool {
    t == seq!['.'] || t == seq!['.', '.']
}

/// The name a sender declares for a file, made safe to save: only the part after
/// the last `/` and then after the last `\`, without surrounding white space;
/// `file.bin` when nothing is left or what is left is `.` or `..`.
pub open spec fn spec_sanitize_filename(name: Seq<char>) -> Seq<char> {
    let t = trim(after_last(after_last(name, '/'), '\\'));
    if t.len() == 0 || is_dot_name(t) {
        seq!['f', 'i', 'l', 'e', '.', 'b', 'i', 'n']
    } else {
        t
    }
}

/// Makes a file name declared by a sender safe to save: no directory part
/// (so no path traversal such as `../../etc/passwd`), and never `.` or `..`.
pub fn sanitize_filename(name: &str) -> (r: String)
    ensures
        r@ == spec_sanitize_filename(name@),
{
    let v = chars_of(name);
    let a = after_last_char(&v, '/');
    let b = after_last_char(&a, '\\');
    let t = trim_chars(&b);
    let dots = (t.len() == 1 && t[0] == '.') || (t.len() == 2 && t[0] == '.' && t[1] == '.');
    proof {
        if t@.len() == 1 {
            if dots {
                assert(t@ =~= seq!['.']);
            } else {
                assert(t@[0] != '.');
            }
        } else {
            assert(t@.len() != seq!['.'].len());
        }
        if t@.len() == 2 {
            if dots {
                assert(t@ =~= seq!['.', '.']);
            } else {
                assert(t@[0] != '.' || t@[1] != '.');
            }
        } else {
            assert(t@.len() != seq!['.', '.'].len());
        }
    }
    if t.len() == 0 || dots {
        string_from_chars(vec!['f', 'i', 'l', 'e', '.', 'b', 'i', 'n'])
    } else {
        string_from_chars(t)
    }
}

/// Law: a sanitized file name is never empty, holds no `/` and no `\`, and
/// is neither `.` nor `..`: it names a file directly inside the save
/// directory, whatever directory parts the sender put in front of it.
pub proof fn lemma_sanitized_name_is_plain(name: Seq<char>)
    ensures
        spec_sanitize_filename(name).len() > 0,
        !spec_sanitize_filename(name).contains('/'),
        !spec_sanitize_filename(name).contains('\\'),
        !is_dot_name(spec_sanitize_filename(name)),
{
    let a = after_last(name, '/');
    let b = after_last(a, '\\');
    lemma_after_last(name, '/');
    lemma_after_last(a, '\\');
    lemma_trim(b);
    let r = spec_sanitize_filename(name);
    let fb = seq!['f', 'i', 'l', 'e', '.', 'b', 'i', 'n'];
    if trim(b).len() == 0 || is_dot_name(trim(b)) {
        assert(r == fb);
        assert(!r.contains('/') && !r.contains('\\')) by {
            if r.contains('/') || r.contains('\\') {
                let k = choose|k: int| 0 <= k < r.len() && (r[k] == '/' || r[k] == '\\');
                assert(0 <= k < 8);
            }
        }
        assert(r.len() == 8);
    } else {
        assert(!b.contains('/')) by {
            if b.contains('/') {
                assert(a.contains('/'));
            }
        }
    }
}

/// Law: sanitizing a sanitized name leaves it as it is.
pub proof fn lemma_sanitize_idempotent(name: Seq<char>)
    ensures
        spec_sanitize_filename(spec_sanitize_filename(name)) == spec_sanitize_filename(name),
{
    let r = spec_sanitize_filename(name);
    lemma_sanitized_name_is_plain(name);
    lemma_after_last_absent(r, '/');
    lemma_after_last_absent(r, '\\');
    let b = after_last(after_last(name, '/'), '\\');
    lemma_trim(b);
    if trim(b).len() == 0 || is_dot_name(trim(b)) {
        lemma_trim_fixed(r);
    }
}

/// The name under which a file without a declared name is saved: `recv_<id>.bin`.
pub open spec fn received_name(transfer_id: u32) -> Seq<char> {
    seq!['r', 'e', 'c', 'v', '_'] + decimal(transfer_id as nat) + seq!['.', 'b', 'i', 'n']
}

fn received_file_name(transfer_id: u32) -> (r: String)
    ensures
        r@ == received_name(transfer_id),
{
    let mut v: Vec<char> = vec!['r', 'e', 'c', 'v', '_'];
    push_decimal(transfer_id, &mut v);
    v.push('.');
    v.push('b');
    v.push('i');
    v.push('n');
    assert(v@ =~= received_name(transfer_id));
    string_from_chars(v)
}

/// The path of a file saved in directory `dir`.
pub open spec fn save_path(dir: Seq<char>, name: Seq<char>) -> Seq<char> {
    dir + seq!['/'] + name
}

// ---------------------------------------------------------------------------
// Text of a clipboard entry
// ---------------------------------------------------------------------------

/// What `String::from_utf8_lossy` of std makes of `b`: its UTF-8 text, with
/// U+FFFD in place of each ill-formed part.
pub uninterp spec fn utf8_lossy(b: Seq<u8>) -> Seq<char>;

/// `String::from_utf8_lossy` of std. When `b` is UTF-8 the result is its text
/// unchanged; otherwise each ill-formed part becomes U+FFFD, which the name
/// `utf8_lossy` stands for without stating it.
#[verifier::external_body]
fn string_from_utf8_lossy(b: &[u8]) -> (r: String)
    ensures
        r@ == utf8_lossy(b@),
        valid_utf8(b@) ==> r@ == decode_utf8(b@),
{
    String::from_utf8_lossy(b).into_owned()
}

// ---------------------------------------------------------------------------
// State and actions
// ---------------------------------------------------------------------------

/// How a received clipboard entry is written to the local clipboard.
#[derive(Debug)]
pub enum ClipboardWrite {
    /// As an image (the entry holds PNG bytes).
    Image,
    /// As text (any other clip type; the bytes are read as UTF-8, lossily).
    Text(String),
}

/// What the caller has to do after a frame was handled.
#[derive(Debug)]
pub enum HandlerAction {
    Nothing,
    /// A clipboard entry arrived: tell the observer, remember its bytes as
    /// written by a remote device, and write it to the local clipboard.
    Clipboard { entry: ClipboardSync, write: ClipboardWrite },
    /// A file transfer is complete: write the chunks, ordered by `seq`, to `path`.
    SaveFile { path: String, chunks: Vec<FileChunk> },
}

pub enum ClipboardWriteModel {
    Image,
    Text(Seq<char>),
}

pub enum ActionModel {
    Nothing,
    Clipboard(ClipboardSyncModel, ClipboardWriteModel),
    SaveFile(Seq<char>, Seq<FileChunkModel>),
}

impl View for HandlerAction {
    type V = ActionModel;

    open spec fn view(&self) -> ActionModel {
        match self {
            HandlerAction::Nothing => ActionModel::Nothing,
            HandlerAction::Clipboard { entry, write } => ActionModel::Clipboard(
                entry@,
                match write {
                    ClipboardWrite::Image => ClipboardWriteModel::Image,
                    ClipboardWrite::Text(t) => ClipboardWriteModel::Text(t@),
                },
            ),
            HandlerAction::SaveFile { path, chunks } => ActionModel::SaveFile(
                path@,
                chunks_view(chunks@),
            ),
        }
    }
}

/// The models of a list of chunks.
pub open spec fn chunks_view(v: Seq<FileChunk>) -> Seq<FileChunkModel> {
    v.map_values(|c: FileChunk| c@)
}

/// The state of a message handler: the chunks received so far and the file
/// names declared so far, per transfer.
pub struct HandlerModel {
    pub device_name: Seq<char>,
    pub chunks: Map<u32, Seq<FileChunkModel>>,
    pub offers: Map<u32, Seq<char>>,
    pub save_dir: Seq<char>,
}

/// Receives frames from other devices and decides what to do with them.
pub struct MessageHandler {
    device_name: String,
    file_chunks: HashMap<u32, Vec<FileChunk>>,
    file_offers: HashMap<u32, String>,
    save_dir: String,
}

impl View for MessageHandler {
    type V = HandlerModel;

    closed spec fn view(&self) -> HandlerModel {
        HandlerModel {
            device_name: self.device_name@,
            chunks: self.file_chunks@.map_values(|v: Vec<FileChunk>| chunks_view(v@)),
            offers: self.file_offers@.map_values(|s: String| s@),
            save_dir: self.save_dir@,
        }
    }
}

/// The name under which the file of a transfer is saved: the declared one, else
/// `recv_<id>.bin`.
pub open spec fn file_name_for(h: HandlerModel, transfer_id: u32) -> Seq<char> {
    if h.offers.contains_key(transfer_id) {
        h.offers[transfer_id]
    } else {
        received_name(transfer_id)
    }
}

/// The chunks received so far for a transfer.
pub open spec fn chunks_of(h: HandlerModel, transfer_id: u32) -> Seq<FileChunkModel> {
    if h.chunks.contains_key(transfer_id) {
        h.chunks[transfer_id]
    } else {
        Seq::empty()
    }
}

/// Handling one frame body: the new state and the action, or why the bytes are
/// not a valid message (the state is then unchanged).
pub open spec fn spec_handle(h: HandlerModel, data: Seq<u8>) -> Result<
    (HandlerModel, ActionModel),
    DecodeError,
> {
    match spec_decode::<Envelope>(data) {
        Err(e) => Err(e),
        Ok(env) => match spec_message_type(env.msg_type) {
            MessageType::ClipboardSync => match spec_decode::<ClipboardSync>(env.payload) {
                Err(e) => Err(e),
                Ok(c) => Ok(
                    (
                        h,
                        ActionModel::Clipboard(
                            c,
                            if c.clip_type == CLIP_TYPE_IMAGE {
                                ClipboardWriteModel::Image
                            } else {
                                ClipboardWriteModel::Text(utf8_lossy(c.data))
                            },
                        ),
                    ),
                ),
            },
            MessageType::FileOffer => match spec_decode::<FileOffer>(env.payload) {
                Err(e) => Err(e),
                Ok(o) => Ok(
                    (
                        HandlerModel {
                            offers: h.offers.insert(
                                o.transfer_id,
                                spec_sanitize_filename(o.file_name),
                            ),
                            ..h
                        },
                        ActionModel::Nothing,
                    ),
                ),
            },
            MessageType::FileChunk => match spec_decode::<FileChunk>(env.payload) {
                Err(e) => Err(e),
                Ok(c) => Ok(
                    (
                        HandlerModel {
                            chunks: h.chunks.insert(
                                c.transfer_id,
                                chunks_of(h, c.transfer_id).push(c),
                            ),
                            ..h
                        },
                        ActionModel::Nothing,
                    ),
                ),
            },
            MessageType::FileComplete => match spec_decode::<FileComplete>(env.payload) {
                Err(e) => Err(e),
                Ok(f) => if f.success && h.chunks.contains_key(f.transfer_id) {
                    Ok(
                        (
                            HandlerModel { chunks: h.chunks.remove(f.transfer_id), ..h },
                            ActionModel::SaveFile(
                                save_path(h.save_dir, file_name_for(h, f.transfer_id)),
                                h.chunks[f.transfer_id],
                            ),
                        ),
                    )
                } else {
                    Ok((h, ActionModel::Nothing))
                },
            },
            MessageType::Heartbeat => Ok((h, ActionModel::Nothing)),
        },
    }
}

/// Every transfer that has chunks buffered has at least one: a list is made
/// for a transfer only when its first chunk arrives.
pub open spec fn chunks_nonempty(h: HandlerModel) -> bool {
    forall|k: u32| #[trigger] h.chunks.contains_key(k) ==> h.chunks[k].len() > 0
}

impl MessageHandler {
    #[verifier::type_invariant]
    spec fn buffered_lists_nonempty(self) -> bool {
        chunks_nonempty(self@)
    }

    /// A handler with no transfer in progress that saves files into `save_dir`.
    pub fn new(device_name: String, save_dir: String) -> (r: Self)
        ensures
            r@ == (HandlerModel {
                device_name: device_name@,
                chunks: Map::empty(),
                offers: Map::empty(),
                save_dir: save_dir@,
            }),
    {
        let r = MessageHandler {
            device_name,
            file_chunks: HashMap::new(),
            file_offers: HashMap::new(),
            save_dir,
        };
        assert(r@.chunks =~= Map::empty());
        assert(r@.offers =~= Map::empty());
        r
    }

    /// Handles one frame body received from another device.
    pub fn handle_message(&mut self, data: &[u8]) -> (res: Result<HandlerAction, DecodeError>)
        ensures
            res matches Ok(a) ==> spec_handle(old(self)@, data@) == Ok::<
                (HandlerModel, ActionModel),
                DecodeError,
            >((final(self)@, a@)),
            res matches Err(e) ==> spec_handle(old(self)@, data@) == Err::<
                (HandlerModel, ActionModel),
                DecodeError,
            >(e) && final(self)@ == old(self)@,
            chunks_nonempty(old(self)@),
            chunks_nonempty(final(self)@),
    {
        proof {
            use_type_invariant(&*self);
        }
        let env = match decode_message::<Envelope>(data) {
            Ok(e) => e,
            Err(e) => return Err(e),
        };
        let ghost h = self@;
        match message_type_from_i32(env.msg_type) {
            MessageType::ClipboardSync => {
                let msg = match decode_message::<ClipboardSync>(env.payload.as_slice()) {
                    Ok(m) => m,
                    Err(e) => return Err(e),
                };
                let write = if msg.clip_type == CLIP_TYPE_IMAGE {
                    ClipboardWrite::Image
                } else {
                    ClipboardWrite::Text(string_from_utf8_lossy(msg.data.as_slice()))
                };
                Ok(HandlerAction::Clipboard { entry: msg, write })
            },
            MessageType::FileOffer => {
                let offer = match decode_message::<FileOffer>(env.payload.as_slice()) {
                    Ok(m) => m,
                    Err(e) => return Err(e),
                };
                let name = sanitize_filename(offer.file_name.as_str());
                let ghost n = name@;
                let mut offers: HashMap<u32, String> = HashMap::new();
                core::mem::swap(&mut offers, &mut self.file_offers);
                offers.insert(offer.transfer_id, name);
                self.file_offers = offers;
                assert(self@.offers =~= h.offers.insert(offer.transfer_id, n));
                assert(self@.chunks =~= h.chunks);
                Ok(HandlerAction::Nothing)
            },
            MessageType::FileChunk => {
                let chunk = match decode_message::<FileChunk>(env.payload.as_slice()) {
                    Ok(m) => m,
                    Err(e) => return Err(e),
                };
                let tid = chunk.transfer_id;
                let ghost cm = chunk@;
                let mut lists: HashMap<u32, Vec<FileChunk>> = HashMap::new();
                core::mem::swap(&mut lists, &mut self.file_chunks);
                let mut list = match lists.remove(&tid) {
                    Some(v) => v,
                    None => Vec::new(),
                };
                assert(chunks_view(list@) =~= chunks_of(h, tid));
                let ghost before = list@;
                list.push(chunk);
                assert(chunks_view(list@) =~= chunks_view(before).push(cm));
                lists.insert(tid, list);
                let ghost new_chunks = h.chunks.insert(tid, chunks_of(h, tid).push(cm));
                assert(lists@.map_values(|v: Vec<FileChunk>| chunks_view(v@)) =~= new_chunks);
                assert(chunks_nonempty(HandlerModel { chunks: new_chunks, ..h }));
                self.file_chunks = lists;
                assert(self@.chunks =~= new_chunks);
                assert(self@.offers =~= h.offers);
                Ok(HandlerAction::Nothing)
            },
            MessageType::FileComplete => {
                let done = match decode_message::<FileComplete>(env.payload.as_slice()) {
                    Ok(m) => m,
                    Err(e) => return Err(e),
                };
                if !done.success {
                    return Ok(HandlerAction::Nothing);
                }
                let tid = done.transfer_id;
                let mut lists: HashMap<u32, Vec<FileChunk>> = HashMap::new();
                core::mem::swap(&mut lists, &mut self.file_chunks);
                let removed = lists.remove(&tid);
                assert(lists@.map_values(|v: Vec<FileChunk>| chunks_view(v@)) =~= h.chunks.remove(tid));
                assert(chunks_nonempty(HandlerModel { chunks: h.chunks.remove(tid), ..h }));
                self.file_chunks = lists;
                match removed {
                    Some(chunks) => {
                        let name = match self.file_offers.get(&tid) {
                            Some(n) => n.clone(),
                            None => received_file_name(tid),
                        };
                        let mut path = self.save_dir.clone();
                        path.append("/");
                        path.append(name.as_str());
                        proof {
                            reveal_strlit("/");
                        }
                        assert(path@ =~= save_path(h.save_dir, file_name_for(h, tid)));
                        assert(self@.chunks =~= h.chunks.remove(tid));
                        assert(self@.offers =~= h.offers);
                        Ok(HandlerAction::SaveFile { path, chunks })
                    },
                    None => {
                        assert(self@.chunks =~= h.chunks);
                        Ok(HandlerAction::Nothing)
                    },
                }
            },
            MessageType::Heartbeat => Ok(HandlerAction::Nothing),
        }
    }
}

// ---------------------------------------------------------------------------
// Laws: what a receiver makes of what a sender sends
// ---------------------------------------------------------------------------

/// The body of the frame in which a sender puts message bytes `payload` of type `t`.
pub open spec fn body_of(t: MessageType, payload: Seq<u8>) -> Seq<u8> {
    Envelope::spec_encode(envelope_for(message_type_code(t), payload))
}

/// Law: a clipboard entry sent by another device reaches the receiver as it was
/// sent, to be written as an image or as text by its clip type; the handler's
/// state does not change.
pub proof fn lemma_clipboard_received(h: HandlerModel, c: ClipboardSyncModel)
    requires
        ClipboardSync::spec_encodable(c),
        ClipboardSync::spec_encode(c).len() < u64_bound(),
    ensures
        spec_handle(h, body_of(MessageType::ClipboardSync, ClipboardSync::spec_encode(c))) == Ok::<
            (HandlerModel, ActionModel),
            DecodeError,
        >(
            (
                h,
                ActionModel::Clipboard(
                    c,
                    if c.clip_type == CLIP_TYPE_IMAGE {
                        ClipboardWriteModel::Image
                    } else {
                        ClipboardWriteModel::Text(utf8_lossy(c.data))
                    },
                ),
            ),
        ),
{
    lemma_envelope_roundtrip(envelope_for(message_type_code(MessageType::ClipboardSync), ClipboardSync::spec_encode(c)));
    lemma_clipboard_sync_roundtrip(c);
}

/// Law: a file offer records the sanitized file name for its transfer.
pub proof fn lemma_offer_recorded(h: HandlerModel, o: FileOfferModel)
    requires
        FileOffer::spec_encodable(o),
        FileOffer::spec_encode(o).len() < u64_bound(),
    ensures
        spec_handle(h, body_of(MessageType::FileOffer, FileOffer::spec_encode(o))) == Ok::<
            (HandlerModel, ActionModel),
            DecodeError,
        >(
            (
                HandlerModel {
                    offers: h.offers.insert(o.transfer_id, spec_sanitize_filename(o.file_name)),
                    ..h
                },
                ActionModel::Nothing,
            ),
        ),
{
    lemma_envelope_roundtrip(envelope_for(message_type_code(MessageType::FileOffer), FileOffer::spec_encode(o)));
    lemma_file_offer_roundtrip(o);
}

/// Law: a file chunk is added after the chunks received before for its transfer.
pub proof fn lemma_chunk_collected(h: HandlerModel, c: FileChunkModel)
    requires
        FileChunk::spec_encodable(c),
        FileChunk::spec_encode(c).len() < u64_bound(),
    ensures
        spec_handle(h, body_of(MessageType::FileChunk, FileChunk::spec_encode(c))) == Ok::<
            (HandlerModel, ActionModel),
            DecodeError,
        >(
            (
                HandlerModel {
                    chunks: h.chunks.insert(c.transfer_id, chunks_of(h, c.transfer_id).push(c)),
                    ..h
                },
                ActionModel::Nothing,
            ),
        ),
{
    lemma_envelope_roundtrip(envelope_for(message_type_code(MessageType::FileChunk), FileChunk::spec_encode(c)));
    lemma_file_chunk_roundtrip(c);
}

/// Law: a successful completion hands the chunks of its transfer over to be
/// saved under the declared name (or `recv_<id>.bin`) in the save directory,
/// and forgets them.
pub proof fn lemma_complete_saves(h: HandlerModel, transfer_id: u32)
    requires
        h.chunks.contains_key(transfer_id),
    ensures
        spec_handle(
            h,
            body_of(
                MessageType::FileComplete,
                FileComplete::spec_encode(FileCompleteModel { transfer_id, success: true }),
            ),
        ) == Ok::<(HandlerModel, ActionModel), DecodeError>(
            (
                HandlerModel { chunks: h.chunks.remove(transfer_id), ..h },
                ActionModel::SaveFile(
                    save_path(h.save_dir, file_name_for(h, transfer_id)),
                    h.chunks[transfer_id],
                ),
            ),
        ),
{
    let m = FileCompleteModel { transfer_id, success: true };
    lemma_file_complete_roundtrip(m);
    lemma_varint_field_len(1, transfer_id as nat);
    lemma_varint_field_len(2, 1);
    lemma_envelope_roundtrip(envelope_for(message_type_code(MessageType::FileComplete), FileComplete::spec_encode(m)));
}

/// Law: a frame of type Heartbeat, or of any type this device does not know,
/// changes nothing and asks for nothing, whatever it carries: chunks buffered
/// before it stay buffered for the completion of their transfer.
pub proof fn lemma_heartbeat_changes_nothing(h: HandlerModel, msg_type: i32, payload: Seq<u8>)
    requires
        !(1 <= msg_type <= 4),
        payload.len() < u64_bound(),
    ensures
        spec_handle(h, Envelope::spec_encode(envelope_for(msg_type, payload))) == Ok::<
            (HandlerModel, ActionModel),
            DecodeError,
        >((h, ActionModel::Nothing)),
{
    lemma_envelope_roundtrip(envelope_for(msg_type, payload));
}

/// The body of the completion of transfer `transfer_id`, successful or not.
pub open spec fn completion_body(transfer_id: u32, success: bool) -> Seq<u8> {
    body_of(
        MessageType::FileComplete,
        FileComplete::spec_encode(FileCompleteModel { transfer_id, success }),
    )
}

/// Law: handling a frame keeps every buffered chunk list non-empty.
pub proof fn lemma_handle_keeps_lists_nonempty(h: HandlerModel, data: Seq<u8>)
    requires
        chunks_nonempty(h),
    ensures
        spec_handle(h, data) matches Ok((h2, _)) ==> chunks_nonempty(h2),
{
    if let Ok((h2, _)) = spec_handle(h, data) {
        assert forall|k: u32| #[trigger] h2.chunks.contains_key(k) implies h2.chunks[k].len() > 0 by {
            if h.chunks.contains_key(k) {
                assert(h.chunks[k].len() > 0);
            }
        }
    }
}

/// Law: handling any frames one after another keeps every buffered chunk list
/// non-empty.
pub proof fn lemma_handle_all_keeps_lists_nonempty(h: HandlerModel, bodies: Seq<Seq<u8>>)
    requires
        chunks_nonempty(h),
    ensures
        spec_handle_all(h, bodies) matches Ok((h2, _)) ==> chunks_nonempty(h2),
    decreases bodies.len(),
{
    if bodies.len() > 0 {
        lemma_handle_all_keeps_lists_nonempty(h, bodies.drop_last());
        if let Ok((h1, _)) = spec_handle_all(h, bodies.drop_last()) {
            lemma_handle_keeps_lists_nonempty(h1, bodies.last());
        }
    }
}

/// Law: a completion is always accepted. A file is saved exactly when it is
/// successful and chunks of its transfer have arrived; the chunks are then
/// forgotten, so a repeated completion saves nothing. An unsuccessful
/// completion leaves the chunks buffered for a later successful one.
pub proof fn lemma_completion(h: HandlerModel, transfer_id: u32, success: bool)
    requires
        chunks_nonempty(h),
    ensures
        spec_handle(h, completion_body(transfer_id, success)) matches Ok((h2, a)) && {
            &&& (a is SaveFile) == (success && chunks_of(h, transfer_id).len() > 0)
            &&& a is SaveFile ==> a == ActionModel::SaveFile(
                save_path(h.save_dir, file_name_for(h, transfer_id)),
                chunks_of(h, transfer_id),
            )
            &&& !success ==> h2 == h
            &&& success ==> h2 == HandlerModel { chunks: h.chunks.remove(transfer_id), ..h }
            &&& success ==> spec_handle(h2, completion_body(transfer_id, true)) == Ok::<
                (HandlerModel, ActionModel),
                DecodeError,
            >((h2, ActionModel::Nothing))
        },
{
    let m = FileCompleteModel { transfer_id, success };
    lemma_file_complete_roundtrip(m);
    lemma_varint_field_len(1, transfer_id as nat);
    lemma_varint_field_len(2, bool_wire(success));
    lemma_envelope_roundtrip(envelope_for(message_type_code(MessageType::FileComplete), FileComplete::spec_encode(m)));
    if h.chunks.contains_key(transfer_id) {
        assert(h.chunks[transfer_id].len() > 0);
    } else {
        assert(h.chunks.remove(transfer_id) =~= h.chunks);
    }
    if success {
        let h2 = HandlerModel { chunks: h.chunks.remove(transfer_id), ..h };
        let m1 = FileCompleteModel { transfer_id, success: true };
        lemma_file_complete_roundtrip(m1);
        lemma_varint_field_len(2, 1);
        lemma_envelope_roundtrip(envelope_for(message_type_code(MessageType::FileComplete), FileComplete::spec_encode(m1)));
        assert(!h2.chunks.contains_key(transfer_id));
    }
}

/// Handling frame bodies one after another: the final state and the last
/// action, or the first refusal.
pub open spec fn spec_handle_all(h: HandlerModel, bodies: Seq<Seq<u8>>) -> Result<
    (HandlerModel, ActionModel),
    DecodeError,
>
    decreases bodies.len(),
{
    if bodies.len() == 0 {
        Ok((h, ActionModel::Nothing))
    } else {
        match spec_handle_all(h, bodies.drop_last()) {
            Err(e) => Err(e),
            Ok((h1, _)) => spec_handle(h1, bodies.last()),
        }
    }
}

/// The body of the offer that announces file `name` for transfer `transfer_id`.
pub open spec fn offer_body(name: Seq<char>, transfer_id: u32) -> Seq<u8> {
    body_of(
        MessageType::FileOffer,
        FileOffer::spec_encode(
            FileOfferModel { file_name: name, file_size: 0, file_hash: Seq::empty(), transfer_id },
        ),
    )
}

/// The bodies of the chunks `chunks`, in order.
pub open spec fn chunk_bodies(chunks: Seq<FileChunkModel>) -> Seq<Seq<u8>> {
    Seq::new(chunks.len(), |i: int| body_of(MessageType::FileChunk, FileChunk::spec_encode(chunks[i])))
}

/// The body of the successful completion of transfer `transfer_id`.
pub open spec fn complete_body(transfer_id: u32) -> Seq<u8> {
    body_of(
        MessageType::FileComplete,
        FileComplete::spec_encode(FileCompleteModel { transfer_id, success: true }),
    )
}

/// Whether a sender can send these chunks of transfer `transfer_id`.
pub open spec fn sendable_chunks(chunks: Seq<FileChunkModel>, transfer_id: u32) -> bool {
    forall|i: int|
        0 <= i < chunks.len() ==> {
            &&& (#[trigger] chunks[i]).transfer_id == transfer_id
            &&& FileChunk::spec_encodable(chunks[i])
            &&& FileChunk::spec_encode(chunks[i]).len() < u64_bound()
        }
}

/// Whether a sender can offer file `name` for transfer `transfer_id`.
pub open spec fn offerable(name: Seq<char>, transfer_id: u32) -> bool {
    let o = FileOfferModel { file_name: name, file_size: 0, file_hash: Seq::empty(), transfer_id };
    FileOffer::spec_encodable(o) && FileOffer::spec_encode(o).len() < u64_bound()
}

proof fn lemma_transfer_prefix(
    h: HandlerModel,
    name: Seq<char>,
    transfer_id: u32,
    chunks: Seq<FileChunkModel>,
    k: nat,
)
    requires
        k <= chunks.len(),
        !h.chunks.contains_key(transfer_id),
        sendable_chunks(chunks, transfer_id),
        offerable(name, transfer_id),
    ensures
        spec_handle_all(h, seq![offer_body(name, transfer_id)] + chunk_bodies(chunks.take(k as int)))
            matches Ok((h1, _)) && h1 == (HandlerModel {
            offers: h.offers.insert(transfer_id, spec_sanitize_filename(name)),
            chunks: if k == 0 {
                h.chunks
            } else {
                h.chunks.insert(transfer_id, chunks.take(k as int))
            },
            ..h
        }),
    decreases k,
{
    let o = FileOfferModel { file_name: name, file_size: 0, file_hash: Seq::empty(), transfer_id };
    let bodies = seq![offer_body(name, transfer_id)] + chunk_bodies(chunks.take(k as int));
    if k == 0 {
        assert(bodies =~= seq![offer_body(name, transfer_id)]);
        assert(bodies.drop_last() =~= Seq::<Seq<u8>>::empty());
        assert(spec_handle_all(h, bodies.drop_last()) == Ok::<(HandlerModel, ActionModel), DecodeError>((h, ActionModel::Nothing)));
        lemma_offer_recorded(h, o);
    } else {
        lemma_transfer_prefix(h, name, transfer_id, chunks, (k - 1) as nat);
        let prev = seq![offer_body(name, transfer_id)] + chunk_bodies(chunks.take(k - 1));
        assert(bodies.drop_last() =~= prev);
        let c = chunks[k - 1];
        assert(bodies.last() == body_of(MessageType::FileChunk, FileChunk::spec_encode(c)));
        let h1 = HandlerModel {
            offers: h.offers.insert(transfer_id, spec_sanitize_filename(name)),
            chunks: if k - 1 == 0 {
                h.chunks
            } else {
                h.chunks.insert(transfer_id, chunks.take(k - 1))
            },
            ..h
        };
        lemma_chunk_collected(h1, c);
        assert(chunks_of(h1, transfer_id).push(c) =~= chunks.take(k as int));
        assert(h1.chunks.insert(transfer_id, chunks.take(k as int)) =~= h.chunks.insert(
            transfer_id,
            chunks.take(k as int),
        ));
        assert(spec_handle_all(h, prev) matches Ok((x, _)) && x == h1);
        assert(spec_handle(h1, bodies.last()) == Ok::<(HandlerModel, ActionModel), DecodeError>((HandlerModel { chunks: h.chunks.insert(transfer_id, chunks.take(k as int)), ..h1 }, ActionModel::Nothing)));
    }
}

/// Law: a whole file transfer as a sender sends it (the offer of file `name`,
/// the chunks in order, the successful completion), received by a handler with
/// no chunk pending for that transfer, makes it save exactly those chunks, in
/// the order received, as the sanitized name in its save directory; afterwards
/// no chunk of that transfer is pending, and the name stays recorded.
pub proof fn lemma_file_transfer(
    h: HandlerModel,
    name: Seq<char>,
    transfer_id: u32,
    chunks: Seq<FileChunkModel>,
)
    requires
        chunks.len() > 0,
        !h.chunks.contains_key(transfer_id),
        sendable_chunks(chunks, transfer_id),
        offerable(name, transfer_id),
    ensures
        spec_handle_all(
            h,
            seq![offer_body(name, transfer_id)] + chunk_bodies(chunks) + seq![complete_body(transfer_id)],
        ) == Ok::<(HandlerModel, ActionModel), DecodeError>(
            (
                HandlerModel {
                    offers: h.offers.insert(transfer_id, spec_sanitize_filename(name)),
                    ..h
                },
                ActionModel::SaveFile(save_path(h.save_dir, spec_sanitize_filename(name)), chunks),
            ),
        ),
{
    let n = chunks.len();
    lemma_transfer_prefix(h, name, transfer_id, chunks, n);
    assert(chunks.take(n as int) =~= chunks);
    let bodies = seq![offer_body(name, transfer_id)] + chunk_bodies(chunks) + seq![complete_body(transfer_id)];
    assert(bodies.drop_last() =~= seq![offer_body(name, transfer_id)] + chunk_bodies(chunks));
    let hn = HandlerModel {
        offers: h.offers.insert(transfer_id, spec_sanitize_filename(name)),
        chunks: h.chunks.insert(transfer_id, chunks),
        ..h
    };
    lemma_complete_saves(hn, transfer_id);
    assert(hn.chunks.remove(transfer_id) =~= h.chunks);
}

} // verus!
