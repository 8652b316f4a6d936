//! The messages that devices exchange, their protobuf encoding, and the frame
//! that carries one encoded envelope over a TCP stream:
//! `[4-byte big-endian length][envelope bytes]`.

use vstd::prelude::*;
use vstd::utf8::*;
use crate::wire::{
    copy_range, decode_field_value, decode_key, encode_bytes_field, encode_varint_field,
    field_value_view, i32_to_wire, i32_wire, max_tag, spec_bytes_field, spec_decode_fields,
    spec_varint_field, trunc_i32, trunc_u32, wire_to_i32, wire_to_u32, DecodeError, FieldVal,
    FieldValue, WireType, RECURSION_LIMIT, lemma_decode_fields_step, lemma_decode_fields_end,
    lemma_decode_opt_bytes_field, lemma_decode_opt_varint_field, lemma_i32_roundtrip, trunc_u64,
    u64_bound,
};

verus! {

/// `clip_type` of a text clipboard entry.
pub const CLIP_TYPE_TEXT: i32 = 0;

/// `clip_type` of an image clipboard entry (PNG bytes).
pub const CLIP_TYPE_IMAGE: i32 = 1;

// ---------------------------------------------------------------------------
// Messages in general
// ---------------------------------------------------------------------------

/// A protobuf message with a known field layout.
pub trait ProtoMessage: Sized + View {
    /// The message with every field at its default value.
    spec fn spec_default() -> <Self as View>::V;

    /// The wire type of each known field number.
    spec fn spec_expect(tag: u32) -> Option<WireType>;

    /// Storing a decoded field value in the message.
    spec fn spec_apply(m: <Self as View>::V, tag: u32, v: FieldVal) -> Result<
        <Self as View>::V,
        DecodeError,
    >;

    /// The encoding of the message.
    spec fn spec_encode(m: <Self as View>::V) -> Seq<u8>;

    /// The values that fit the wire format (lengths below 2^64).
    spec fn spec_encodable(m: <Self as View>::V) -> bool;

    fn empty() -> (r: Self)
        ensures
            r@ == Self::spec_default(),
    ;

    fn expected_wire_type(tag: u32) -> (r: Option<WireType>)
        ensures
            r == Self::spec_expect(tag),
    ;

    fn merge_field(&mut self, tag: u32, v: FieldValue, buf: &[u8]) -> (r: Result<(), DecodeError>)
        requires
            v matches FieldValue::Bytes(a, b) ==> a <= b <= buf@.len(),
        ensures
            Self::spec_apply(old(self)@, tag, field_value_view(v, buf@)) matches Ok(m) ==> r is Ok
                && final(self)@ == m,
            Self::spec_apply(old(self)@, tag, field_value_view(v, buf@)) matches Err(e) ==> r
                == Err::<(), DecodeError>(e),
    ;

    fn encode(&self) -> (r: Vec<u8>)
        ensures
            r@ == Self::spec_encode(self@),
    ;
}

pub open spec fn expect_fn<M: ProtoMessage>() -> spec_fn(u32) -> Option<WireType> {
    |t: u32| M::spec_expect(t)
}

pub open spec fn apply_fn<M: ProtoMessage>() -> spec_fn(<M as View>::V, u32, FieldVal) -> Result<
    <M as View>::V,
    DecodeError,
> {
    |m: <M as View>::V, t: u32, v: FieldVal| M::spec_apply(m, t, v)
}

/// Decoding of a whole byte sequence as a message of type `M`.
pub open spec fn spec_decode<M: ProtoMessage>(s: Seq<u8>) -> Result<<M as View>::V, DecodeError> {
    spec_decode_fields(s, M::spec_default(), expect_fn::<M>(), apply_fn::<M>())
}

/// Decodes `buf` as one message of type `M`.
pub fn decode_message<M: ProtoMessage>(buf: &[u8]) -> (res: Result<M, DecodeError>)
    ensures
        res matches Ok(m) ==> spec_decode::<M>(buf@) == Ok::<<M as View>::V, DecodeError>(m@),
        res matches Err(e) ==> spec_decode::<M>(buf@) == Err::<<M as View>::V, DecodeError>(e),
{
    let mut msg = M::empty();
    let mut pos: usize = 0;
    let total = buf.len();
    let ghost ex = expect_fn::<M>();
    let ghost ap = apply_fn::<M>();
    assert(buf@.skip(0) =~= buf@);
    while pos < total
        invariant
            pos <= total,
            total == buf@.len(),
            ex == expect_fn::<M>(),
            ap == apply_fn::<M>(),
            spec_decode_fields(buf@.skip(pos as int), msg@, ex, ap) == spec_decode::<M>(buf@),
        decreases total - pos,
    {
        let ghost s = buf@.skip(pos as int);
        let ghost before = msg@;
        proof {
            lemma_decode_fields_step(s, before, ex, ap);
        }
        let (tag, w, k) = match decode_key(buf, pos) {
            Ok(r) => r,
            Err(e) => {
                return Err(e);
            },
        };
        assert(ex(tag) == M::spec_expect(tag));
        match M::expected_wire_type(tag) {
            Some(ew) => {
                if ew != w {
                    return Err(DecodeError::WireTypeMismatch);
                }
            },
            None => {},
        }
        assert(s.skip(k as int) =~= buf@.skip((pos + k) as int));
        let (v, n) = match decode_field_value(buf, pos + k, w, tag, RECURSION_LIMIT) {
            Ok(r) => r,
            Err(e) => {
                return Err(e);
            },
        };
        let ghost fv = field_value_view(v, buf@);
        assert(ap(before, tag, fv) == M::spec_apply(before, tag, fv));
        match msg.merge_field(tag, v, buf) {
            Ok(()) => {},
            Err(e) => {
                return Err(e);
            },
        }
        assert(s.skip((k + n) as int) =~= buf@.skip((pos + k + n) as int));
        assert(spec_decode_fields(s, before, ex, ap) == spec_decode_fields(
            buf@.skip((pos + k + n) as int),
            msg@,
            ex,
            ap,
        ));
        pos = pos + k + n;
    }
    proof {
        lemma_decode_fields_end(buf@.skip(pos as int), msg@, ex, ap);
    }
    Ok(msg)
}

/// Appends a string field (its UTF-8 bytes).
fn encode_string_field(tag: u32, s: &String, out: &mut Vec<u8>)
    requires
        1 <= tag <= max_tag(),
    ensures
        final(out)@ == old(out)@ + spec_bytes_field(tag as nat, encode_utf8(s@)),
{
    let b = s.as_str().as_bytes();
    encode_bytes_field(tag, b, out);
}

/// `String::from_utf8` of std: the string that `bytes` encode in UTF-8, or
/// nothing when they are not UTF-8.
#[verifier::external_body]
fn string_from_utf8(bytes: Vec<u8>) -> (res: Option<String>)
    ensures
        res is Some <==> valid_utf8(bytes@),
        res matches Some(s) ==> s@ == decode_utf8(bytes@),
{
    String::from_utf8(bytes).ok()
}

/// Stores a decoded string field value.
fn merge_string(field: &mut String, buf: &[u8], a: usize, b: usize) -> (r: Result<(), DecodeError>)
    requires
        a <= b <= buf@.len(),
    ensures
        valid_utf8(buf@.subrange(a as int, b as int)) ==> r is Ok && final(field)@ == decode_utf8(
            buf@.subrange(a as int, b as int),
        ),
        !valid_utf8(buf@.subrange(a as int, b as int)) ==> r == Err::<(), DecodeError>(
            DecodeError::InvalidUtf8,
        ),
{
    match string_from_utf8(copy_range(buf, a, b)) {
        Some(s) => {
            *field = s;
            Ok(())
        },
        None => Err(DecodeError::InvalidUtf8),
    }
}

/// Storing a string field value: the bytes must be UTF-8.
pub open spec fn apply_string(b: Seq<u8>) -> Result<Seq<char>, DecodeError> {
    if valid_utf8(b) {
        Ok(decode_utf8(b))
    } else {
        Err(DecodeError::InvalidUtf8)
    }
}

// ---------------------------------------------------------------------------
// Message types
// ---------------------------------------------------------------------------

/// The kind of payload an envelope carries.
#[derive(Clone, Copy, Debug, PartialEq, Eq, Structural)]
pub enum MessageType {
    Heartbeat,
    ClipboardSync,
    FileOffer,
    FileChunk,
    FileComplete,
}

/// The number of each message type on the wire.
pub open spec fn message_type_code(t: MessageType) -> i32 {
    match t {
        MessageType::Heartbeat => 0,
        MessageType::ClipboardSync => 1,
        MessageType::FileOffer => 2,
        MessageType::FileChunk => 3,
        MessageType::FileComplete => 4,
    }
}

/// The message type a number stands for; an unknown number is taken as a heartbeat.
pub open spec fn spec_message_type(v: i32) -> MessageType {
    if v == 1 {
        MessageType::ClipboardSync
    } else if v == 2 {
        MessageType::FileOffer
    } else if v == 3 {
        MessageType::FileChunk
    } else if v == 4 {
        MessageType::FileComplete
    } else {
        MessageType::Heartbeat
    }
}

/// Converts a message type number to a [`MessageType`] (unknown numbers give `Heartbeat`).
pub fn message_type_from_i32(v: i32) -> (r: MessageType)
    ensures
        r == spec_message_type(v),
{
    if v == 1 {
        MessageType::ClipboardSync
    } else if v == 2 {
        MessageType::FileOffer
    } else if v == 3 {
        MessageType::FileChunk
    } else if v == 4 {
        MessageType::FileComplete
    } else {
        MessageType::Heartbeat
    }
}

impl MessageType {
    /// The number of this message type on the wire.
    pub fn as_i32(self) -> (r: i32)
        ensures
            r == message_type_code(self),
    {
        match self {
            MessageType::Heartbeat => 0,
            MessageType::ClipboardSync => 1,
            MessageType::FileOffer => 2,
            MessageType::FileChunk => 3,
            MessageType::FileComplete => 4,
        }
    }
}

// ---------------------------------------------------------------------------
// Envelope: { uint32 version = 1; MessageType type = 2; bytes payload = 3; }
// ---------------------------------------------------------------------------

/// The outer message of every frame.
#[derive(Debug)]
pub struct Envelope {
    pub version: u32,
    pub msg_type: i32,
    pub payload: Vec<u8>,
}

pub struct EnvelopeModel {
    pub version: u32,
    pub msg_type: i32,
    pub payload: Seq<u8>,
}

impl View for Envelope {
    type V = EnvelopeModel;

    open spec fn view(&self) -> EnvelopeModel {
        EnvelopeModel { version: self.version, msg_type: self.msg_type, payload: self.payload@ }
    }
}

impl ProtoMessage for Envelope {
    open spec fn spec_default() -> EnvelopeModel {
        EnvelopeModel { version: 0, msg_type: 0, payload: Seq::empty() }
    }

    open spec fn spec_expect(tag: u32) -> Option<WireType> {
        if tag == 1 || tag == 2 {
            Some(WireType::Varint)
        } else if tag == 3 {
            Some(WireType::LengthDelimited)
        } else {
            None
        }
    }

    open spec fn spec_apply(m: EnvelopeModel, tag: u32, v: FieldVal) -> Result<
        EnvelopeModel,
        DecodeError,
    > {
        match v {
            FieldVal::Varint(x) => if tag == 1 {
                Ok(EnvelopeModel { version: trunc_u32(x), ..m })
            } else if tag == 2 {
                Ok(EnvelopeModel { msg_type: trunc_i32(x), ..m })
            } else {
                Ok(m)
            },
            FieldVal::Bytes(b) => if tag == 3 {
                Ok(EnvelopeModel { payload: b, ..m })
            } else {
                Ok(m)
            },
            FieldVal::Skipped => Ok(m),
        }
    }

    open spec fn spec_encode(m: EnvelopeModel) -> Seq<u8> {
        spec_varint_field(1, m.version as nat) + spec_varint_field(2, i32_wire(m.msg_type))
            + spec_bytes_field(3, m.payload)
    }

    open spec fn spec_encodable(m: EnvelopeModel) -> bool {
        m.payload.len() < u64_bound()
    }

    fn empty() -> (r: Self) {
        Envelope { version: 0, msg_type: 0, payload: Vec::new() }
    }

    fn expected_wire_type(tag: u32) -> (r: Option<WireType>) {
        if tag == 1 || tag == 2 {
            Some(WireType::Varint)
        } else if tag == 3 {
            Some(WireType::LengthDelimited)
        } else {
            None
        }
    }

    fn merge_field(&mut self, tag: u32, v: FieldValue, buf: &[u8]) -> (r: Result<(), DecodeError>) {
        match v {
            FieldValue::Varint(x) => {
                if tag == 1 {
                    self.version = wire_to_u32(x);
                } else if tag == 2 {
                    self.msg_type = wire_to_i32(x);
                }
            },
            FieldValue::Bytes(a, b) => {
                if tag == 3 {
                    self.payload = copy_range(buf, a, b);
                }
            },
            FieldValue::Skipped => {},
        }
        Ok(())
    }

    fn encode(&self) -> (r: Vec<u8>) {
        let mut out: Vec<u8> = Vec::new();
        encode_varint_field(1, self.version as u64, &mut out);
        encode_varint_field(2, i32_to_wire(self.msg_type), &mut out);
        encode_bytes_field(3, self.payload.as_slice(), &mut out);
        assert(out@ =~= Self::spec_encode(self@));
        out
    }
}


/// UTF-8 encoding can be undone, and only the empty string encodes to nothing.
proof fn lemma_utf8_roundtrip(c: Seq<char>)
    ensures
        valid_utf8(encode_utf8(c)),
        decode_utf8(encode_utf8(c)) == c,
        encode_utf8(c).len() == 0 ==> c == Seq::<char>::empty(),
{
    encode_utf8_valid_utf8(c);
    encode_utf8_decode_utf8(c);
    if encode_utf8(c).len() == 0 {
        assert(encode_utf8(c) =~= Seq::<u8>::empty());
        encode_utf8_decode_utf8(Seq::<char>::empty());
        assert(encode_utf8(Seq::<char>::empty()) =~= Seq::<u8>::empty());
    }
}


// ---------------------------------------------------------------------------
// ClipboardSync: { string device_name = 1; int32 clip_type = 2; bytes data = 3;
//                  uint64 timestamp = 4; }
// ---------------------------------------------------------------------------

/// A clipboard entry sent to the other devices.
#[derive(Debug)]
pub struct ClipboardSync {
    pub device_name: String,
    pub clip_type: i32,
    pub data: Vec<u8>,
    pub timestamp: u64,
}

pub struct ClipboardSyncModel {
    pub device_name: Seq<char>,
    pub clip_type: i32,
    pub data: Seq<u8>,
    pub timestamp: u64,
}

impl View for ClipboardSync {
    type V = ClipboardSyncModel;

    open spec fn view(&self) -> ClipboardSyncModel {
        ClipboardSyncModel {
            device_name: self.device_name@,
            clip_type: self.clip_type,
            data: self.data@,
            timestamp: self.timestamp,
        }
    }
}

impl ProtoMessage for ClipboardSync {
    open spec fn spec_default() -> ClipboardSyncModel {
        ClipboardSyncModel {
            device_name: Seq::empty(),
            clip_type: 0,
            data: Seq::empty(),
            timestamp: 0,
        }
    }

    open spec fn spec_expect(tag: u32) -> Option<WireType> {
        if tag == 1 || tag == 3 {
            Some(WireType::LengthDelimited)
        } else if tag == 2 || tag == 4 {
            Some(WireType::Varint)
        } else {
            None
        }
    }

    open spec fn spec_apply(m: ClipboardSyncModel, tag: u32, v: FieldVal) -> Result<
        ClipboardSyncModel,
        DecodeError,
    > {
        match v {
            FieldVal::Varint(x) => if tag == 2 {
                Ok(ClipboardSyncModel { clip_type: trunc_i32(x), ..m })
            } else if tag == 4 {
                Ok(ClipboardSyncModel { timestamp: trunc_u64(x), ..m })
            } else {
                Ok(m)
            },
            FieldVal::Bytes(b) => if tag == 1 {
                match apply_string(b) {
                    Ok(c) => Ok(ClipboardSyncModel { device_name: c, ..m }),
                    Err(e) => Err(e),
                }
            } else if tag == 3 {
                Ok(ClipboardSyncModel { data: b, ..m })
            } else {
                Ok(m)
            },
            FieldVal::Skipped => Ok(m),
        }
    }

    open spec fn spec_encode(m: ClipboardSyncModel) -> Seq<u8> {
        spec_bytes_field(1, encode_utf8(m.device_name)) + spec_varint_field(2, i32_wire(m.clip_type))
            + spec_bytes_field(3, m.data) + spec_varint_field(4, m.timestamp as nat)
    }

    open spec fn spec_encodable(m: ClipboardSyncModel) -> bool {
        &&& encode_utf8(m.device_name).len() < u64_bound()
        &&& m.data.len() < u64_bound()
    }

    fn empty() -> (r: Self) {
        ClipboardSync { device_name: String::new(), clip_type: 0, data: Vec::new(), timestamp: 0 }
    }

    fn expected_wire_type(tag: u32) -> (r: Option<WireType>) {
        if tag == 1 || tag == 3 {
            Some(WireType::LengthDelimited)
        } else if tag == 2 || tag == 4 {
            Some(WireType::Varint)
        } else {
            None
        }
    }

    fn merge_field(&mut self, tag: u32, v: FieldValue, buf: &[u8]) -> (r: Result<(), DecodeError>) {
        match v {
            FieldValue::Varint(x) => {
                if tag == 2 {
                    self.clip_type = wire_to_i32(x);
                } else if tag == 4 {
                    self.timestamp = x;
                }
                Ok(())
            },
            FieldValue::Bytes(a, b) => {
                if tag == 1 {
                    merge_string(&mut self.device_name, buf, a, b)
                } else {
                    if tag == 3 {
                        self.data = copy_range(buf, a, b);
                    }
                    Ok(())
                }
            },
            FieldValue::Skipped => Ok(()),
        }
    }

    fn encode(&self) -> (r: Vec<u8>) {
        let mut out: Vec<u8> = Vec::new();
        encode_string_field(1, &self.device_name, &mut out);
        encode_varint_field(2, i32_to_wire(self.clip_type), &mut out);
        encode_bytes_field(3, self.data.as_slice(), &mut out);
        encode_varint_field(4, self.timestamp, &mut out);
        assert(out@ =~= Self::spec_encode(self@));
        out
    }
}

// ---------------------------------------------------------------------------
// FileOffer: { string file_name = 1; uint64 file_size = 2; string file_hash = 3;
//              uint32 transfer_id = 4; }
// ---------------------------------------------------------------------------

/// The announcement of a file transfer, with the file's name.
#[derive(Debug)]
pub struct FileOffer {
    pub file_name: String,
    pub file_size: u64,
    pub file_hash: String,
    pub transfer_id: u32,
}

pub struct FileOfferModel {
    pub file_name: Seq<char>,
    pub file_size: u64,
    pub file_hash: Seq<char>,
    pub transfer_id: u32,
}

impl View for FileOffer {
    type V = FileOfferModel;

    open spec fn view(&self) -> FileOfferModel {
        FileOfferModel {
            file_name: self.file_name@,
            file_size: self.file_size,
            file_hash: self.file_hash@,
            transfer_id: self.transfer_id,
        }
    }
}

impl ProtoMessage for FileOffer {
    open spec fn spec_default() -> FileOfferModel {
        FileOfferModel {
            file_name: Seq::empty(),
            file_size: 0,
            file_hash: Seq::empty(),
            transfer_id: 0,
        }
    }

    open spec fn spec_expect(tag: u32) -> Option<WireType> {
        if tag == 1 || tag == 3 {
            Some(WireType::LengthDelimited)
        } else if tag == 2 || tag == 4 {
            Some(WireType::Varint)
        } else {
            None
        }
    }

    open spec fn spec_apply(m: FileOfferModel, tag: u32, v: FieldVal) -> Result<
        FileOfferModel,
        DecodeError,
    > {
        match v {
            FieldVal::Varint(x) => if tag == 2 {
                Ok(FileOfferModel { file_size: trunc_u64(x), ..m })
            } else if tag == 4 {
                Ok(FileOfferModel { transfer_id: trunc_u32(x), ..m })
            } else {
                Ok(m)
            },
            FieldVal::Bytes(b) => if tag == 1 {
                match apply_string(b) {
                    Ok(c) => Ok(FileOfferModel { file_name: c, ..m }),
                    Err(e) => Err(e),
                }
            } else if tag == 3 {
                match apply_string(b) {
                    Ok(c) => Ok(FileOfferModel { file_hash: c, ..m }),
                    Err(e) => Err(e),
                }
            } else {
                Ok(m)
            },
            FieldVal::Skipped => Ok(m),
        }
    }

    open spec fn spec_encode(m: FileOfferModel) -> Seq<u8> {
        spec_bytes_field(1, encode_utf8(m.file_name)) + spec_varint_field(2, m.file_size as nat)
            + spec_bytes_field(3, encode_utf8(m.file_hash)) + spec_varint_field(
            4,
            m.transfer_id as nat,
        )
    }

    open spec fn spec_encodable(m: FileOfferModel) -> bool {
        &&& encode_utf8(m.file_name).len() < u64_bound()
        &&& encode_utf8(m.file_hash).len() < u64_bound()
    }

    fn empty() -> (r: Self) {
        FileOffer { file_name: String::new(), file_size: 0, file_hash: String::new(), transfer_id: 0 }
    }

    fn expected_wire_type(tag: u32) -> (r: Option<WireType>) {
        if tag == 1 || tag == 3 {
            Some(WireType::LengthDelimited)
        } else if tag == 2 || tag == 4 {
            Some(WireType::Varint)
        } else {
            None
        }
    }

    fn merge_field(&mut self, tag: u32, v: FieldValue, buf: &[u8]) -> (r: Result<(), DecodeError>) {
        match v {
            FieldValue::Varint(x) => {
                if tag == 2 {
                    self.file_size = x;
                } else if tag == 4 {
                    self.transfer_id = wire_to_u32(x);
                }
                Ok(())
            },
            FieldValue::Bytes(a, b) => {
                if tag == 1 {
                    merge_string(&mut self.file_name, buf, a, b)
                } else if tag == 3 {
                    merge_string(&mut self.file_hash, buf, a, b)
                } else {
                    Ok(())
                }
            },
            FieldValue::Skipped => Ok(()),
        }
    }

    fn encode(&self) -> (r: Vec<u8>) {
        let mut out: Vec<u8> = Vec::new();
        encode_string_field(1, &self.file_name, &mut out);
        encode_varint_field(2, self.file_size, &mut out);
        encode_string_field(3, &self.file_hash, &mut out);
        encode_varint_field(4, self.transfer_id as u64, &mut out);
        assert(out@ =~= Self::spec_encode(self@));
        out
    }
}

// ---------------------------------------------------------------------------
// FileChunk: { uint32 transfer_id = 1; uint32 seq = 2; bytes data = 3; }
// ---------------------------------------------------------------------------

/// One piece of a file, numbered by `seq` within its transfer.
#[derive(Debug)]
pub struct FileChunk {
    pub transfer_id: u32,
    pub seq: u32,
    pub data: Vec<u8>,
}

pub struct FileChunkModel {
    pub transfer_id: u32,
    pub seq: u32,
    pub data: Seq<u8>,
}

impl View for FileChunk {
    type V = FileChunkModel;

    open spec fn view(&self) -> FileChunkModel {
        FileChunkModel { transfer_id: self.transfer_id, seq: self.seq, data: self.data@ }
    }
}

impl ProtoMessage for FileChunk {
    open spec fn spec_default() -> FileChunkModel {
        FileChunkModel { transfer_id: 0, seq: 0, data: Seq::empty() }
    }

    open spec fn spec_expect(tag: u32) -> Option<WireType> {
        if tag == 1 || tag == 2 {
            Some(WireType::Varint)
        } else if tag == 3 {
            Some(WireType::LengthDelimited)
        } else {
            None
        }
    }

    open spec fn spec_apply(m: FileChunkModel, tag: u32, v: FieldVal) -> Result<
        FileChunkModel,
        DecodeError,
    > {
        match v {
            FieldVal::Varint(x) => if tag == 1 {
                Ok(FileChunkModel { transfer_id: trunc_u32(x), ..m })
            } else if tag == 2 {
                Ok(FileChunkModel { seq: trunc_u32(x), ..m })
            } else {
                Ok(m)
            },
            FieldVal::Bytes(b) => if tag == 3 {
                Ok(FileChunkModel { data: b, ..m })
            } else {
                Ok(m)
            },
            FieldVal::Skipped => Ok(m),
        }
    }

    open spec fn spec_encode(m: FileChunkModel) -> Seq<u8> {
        spec_varint_field(1, m.transfer_id as nat) + spec_varint_field(2, m.seq as nat)
            + spec_bytes_field(3, m.data)
    }

    open spec fn spec_encodable(m: FileChunkModel) -> bool {
        m.data.len() < u64_bound()
    }

    fn empty() -> (r: Self) {
        FileChunk { transfer_id: 0, seq: 0, data: Vec::new() }
    }

    fn expected_wire_type(tag: u32) -> (r: Option<WireType>) {
        if tag == 1 || tag == 2 {
            Some(WireType::Varint)
        } else if tag == 3 {
            Some(WireType::LengthDelimited)
        } else {
            None
        }
    }

    fn merge_field(&mut self, tag: u32, v: FieldValue, buf: &[u8]) -> (r: Result<(), DecodeError>) {
        match v {
            FieldValue::Varint(x) => {
                if tag == 1 {
                    self.transfer_id = wire_to_u32(x);
                } else if tag == 2 {
                    self.seq = wire_to_u32(x);
                }
            },
            FieldValue::Bytes(a, b) => {
                if tag == 3 {
                    self.data = copy_range(buf, a, b);
                }
            },
            FieldValue::Skipped => {},
        }
        Ok(())
    }

    fn encode(&self) -> (r: Vec<u8>) {
        let mut out: Vec<u8> = Vec::new();
        encode_varint_field(1, self.transfer_id as u64, &mut out);
        encode_varint_field(2, self.seq as u64, &mut out);
        encode_bytes_field(3, self.data.as_slice(), &mut out);
        assert(out@ =~= Self::spec_encode(self@));
        out
    }
}

// ---------------------------------------------------------------------------
// FileComplete: { uint32 transfer_id = 1; bool success = 2; }
// ---------------------------------------------------------------------------

/// The end of a file transfer.
#[derive(Clone, Copy, Debug)]
pub struct FileComplete {
    pub transfer_id: u32,
    pub success: bool,
}

pub struct FileCompleteModel {
    pub transfer_id: u32,
    pub success: bool,
}

impl View for FileComplete {
    type V = FileCompleteModel;

    open spec fn view(&self) -> FileCompleteModel {
        FileCompleteModel { transfer_id: self.transfer_id, success: self.success }
    }
}

/// The varint that stands for a `bool`.
pub open spec fn bool_wire(b: bool) -> nat {
    if b {
        1
    } else {
        0
    }
}

impl ProtoMessage for FileComplete {
    open spec fn spec_default() -> FileCompleteModel {
        FileCompleteModel { transfer_id: 0, success: false }
    }

    open spec fn spec_expect(tag: u32) -> Option<WireType> {
        if tag == 1 || tag == 2 {
            Some(WireType::Varint)
        } else {
            None
        }
    }

    open spec fn spec_apply(m: FileCompleteModel, tag: u32, v: FieldVal) -> Result<
        FileCompleteModel,
        DecodeError,
    > {
        match v {
            FieldVal::Varint(x) => if tag == 1 {
                Ok(FileCompleteModel { transfer_id: trunc_u32(x), ..m })
            } else if tag == 2 {
                Ok(FileCompleteModel { success: x != 0, ..m })
            } else {
                Ok(m)
            },
            _ => Ok(m),
        }
    }

    open spec fn spec_encode(m: FileCompleteModel) -> Seq<u8> {
        spec_varint_field(1, m.transfer_id as nat) + spec_varint_field(2, bool_wire(m.success))
    }

    open spec fn spec_encodable(m: FileCompleteModel) -> bool {
        true
    }

    fn empty() -> (r: Self) {
        FileComplete { transfer_id: 0, success: false }
    }

    fn expected_wire_type(tag: u32) -> (r: Option<WireType>) {
        if tag == 1 || tag == 2 {
            Some(WireType::Varint)
        } else {
            None
        }
    }

    fn merge_field(&mut self, tag: u32, v: FieldValue, buf: &[u8]) -> (r: Result<(), DecodeError>) {
        match v {
            FieldValue::Varint(x) => {
                if tag == 1 {
                    self.transfer_id = wire_to_u32(x);
                } else if tag == 2 {
                    self.success = x != 0;
                }
            },
            _ => {},
        }
        Ok(())
    }

    fn encode(&self) -> (r: Vec<u8>) {
        let mut out: Vec<u8> = Vec::new();
        encode_varint_field(1, self.transfer_id as u64, &mut out);
        encode_varint_field(2, if self.success { 1 } else { 0 }, &mut out);
        assert(out@ =~= Self::spec_encode(self@));
        out
    }
}


// ---------------------------------------------------------------------------
// Laws: decoding undoes encoding
// ---------------------------------------------------------------------------

/// Decoding the encoding of an envelope gives it back.
pub proof fn lemma_envelope_roundtrip(m: EnvelopeModel)
    requires
        Envelope::spec_encodable(m),
    ensures
        spec_decode::<Envelope>(Envelope::spec_encode(m)) == Ok::<EnvelopeModel, DecodeError>(m),
{
    let ex = expect_fn::<Envelope>();
    let ap = apply_fn::<Envelope>();
    let f1 = spec_varint_field(1, m.version as nat);
    let f2 = spec_varint_field(2, i32_wire(m.msg_type));
    let f3 = spec_bytes_field(3, m.payload);
    let e = Seq::<u8>::empty();
    assert(Envelope::spec_encode(m) =~= f1 + (f2 + (f3 + e)));
    lemma_i32_roundtrip(m.msg_type);
    let m0 = Envelope::spec_default();
    let m1 = EnvelopeModel { version: m.version, ..m0 };
    let m2 = EnvelopeModel { msg_type: m.msg_type, ..m1 };
    let m3 = EnvelopeModel { payload: m.payload, ..m2 };
    lemma_decode_opt_varint_field(1, m.version as nat, f2 + (f3 + e), m0, ex, ap);
    lemma_decode_opt_varint_field(2, i32_wire(m.msg_type), f3 + e, m1, ex, ap);
    lemma_decode_opt_bytes_field(3, m.payload, e, m2, ex, ap);
    lemma_decode_fields_end(e, m3, ex, ap);
    if m.payload.len() == 0 {
        assert(m.payload =~= Seq::<u8>::empty());
    }
    assert(m3 == m);
}

/// Decoding the encoding of a clipboard entry gives it back.
pub proof fn lemma_clipboard_sync_roundtrip(m: ClipboardSyncModel)
    requires
        ClipboardSync::spec_encodable(m),
    ensures
        spec_decode::<ClipboardSync>(ClipboardSync::spec_encode(m)) == Ok::<ClipboardSyncModel, DecodeError>(m),
{
    let ex = expect_fn::<ClipboardSync>();
    let ap = apply_fn::<ClipboardSync>();
    let f1 = spec_bytes_field(1, encode_utf8(m.device_name));
    let f2 = spec_varint_field(2, i32_wire(m.clip_type));
    let f3 = spec_bytes_field(3, m.data);
    let f4 = spec_varint_field(4, m.timestamp as nat);
    let e = Seq::<u8>::empty();
    assert(ClipboardSync::spec_encode(m) =~= f1 + (f2 + (f3 + (f4 + e))));
    lemma_i32_roundtrip(m.clip_type);
    lemma_utf8_roundtrip(m.device_name);
    let m0 = ClipboardSync::spec_default();
    let m1 = ClipboardSyncModel { device_name: m.device_name, ..m0 };
    let m2 = ClipboardSyncModel { clip_type: m.clip_type, ..m1 };
    let m3 = ClipboardSyncModel { data: m.data, ..m2 };
    let m4 = ClipboardSyncModel { timestamp: m.timestamp, ..m3 };
    lemma_decode_opt_bytes_field(1, encode_utf8(m.device_name), f2 + (f3 + (f4 + e)), m0, ex, ap);
    lemma_decode_opt_varint_field(2, i32_wire(m.clip_type), f3 + (f4 + e), m1, ex, ap);
    lemma_decode_opt_bytes_field(3, m.data, f4 + e, m2, ex, ap);
    lemma_decode_opt_varint_field(4, m.timestamp as nat, e, m3, ex, ap);
    lemma_decode_fields_end(e, m4, ex, ap);
    if m.data.len() == 0 {
        assert(m.data =~= Seq::<u8>::empty());
    }
    assert(m4 == m);
}

/// Decoding the encoding of a file offer gives it back.
pub proof fn lemma_file_offer_roundtrip(m: FileOfferModel)
    requires
        FileOffer::spec_encodable(m),
    ensures
        spec_decode::<FileOffer>(FileOffer::spec_encode(m)) == Ok::<FileOfferModel, DecodeError>(m),
{
    let ex = expect_fn::<FileOffer>();
    let ap = apply_fn::<FileOffer>();
    let f1 = spec_bytes_field(1, encode_utf8(m.file_name));
    let f2 = spec_varint_field(2, m.file_size as nat);
    let f3 = spec_bytes_field(3, encode_utf8(m.file_hash));
    let f4 = spec_varint_field(4, m.transfer_id as nat);
    let e = Seq::<u8>::empty();
    assert(FileOffer::spec_encode(m) =~= f1 + (f2 + (f3 + (f4 + e))));
    lemma_utf8_roundtrip(m.file_name);
    lemma_utf8_roundtrip(m.file_hash);
    let m0 = FileOffer::spec_default();
    let m1 = FileOfferModel { file_name: m.file_name, ..m0 };
    let m2 = FileOfferModel { file_size: m.file_size, ..m1 };
    let m3 = FileOfferModel { file_hash: m.file_hash, ..m2 };
    let m4 = FileOfferModel { transfer_id: m.transfer_id, ..m3 };
    lemma_decode_opt_bytes_field(1, encode_utf8(m.file_name), f2 + (f3 + (f4 + e)), m0, ex, ap);
    lemma_decode_opt_varint_field(2, m.file_size as nat, f3 + (f4 + e), m1, ex, ap);
    lemma_decode_opt_bytes_field(3, encode_utf8(m.file_hash), f4 + e, m2, ex, ap);
    lemma_decode_opt_varint_field(4, m.transfer_id as nat, e, m3, ex, ap);
    lemma_decode_fields_end(e, m4, ex, ap);
    assert(m4 == m);
}

/// Decoding the encoding of a file chunk gives it back.
pub proof fn lemma_file_chunk_roundtrip(m: FileChunkModel)
    requires
        FileChunk::spec_encodable(m),
    ensures
        spec_decode::<FileChunk>(FileChunk::spec_encode(m)) == Ok::<FileChunkModel, DecodeError>(m),
{
    let ex = expect_fn::<FileChunk>();
    let ap = apply_fn::<FileChunk>();
    let f1 = spec_varint_field(1, m.transfer_id as nat);
    let f2 = spec_varint_field(2, m.seq as nat);
    let f3 = spec_bytes_field(3, m.data);
    let e = Seq::<u8>::empty();
    assert(FileChunk::spec_encode(m) =~= f1 + (f2 + (f3 + e)));
    let m0 = FileChunk::spec_default();
    let m1 = FileChunkModel { transfer_id: m.transfer_id, ..m0 };
    let m2 = FileChunkModel { seq: m.seq, ..m1 };
    let m3 = FileChunkModel { data: m.data, ..m2 };
    lemma_decode_opt_varint_field(1, m.transfer_id as nat, f2 + (f3 + e), m0, ex, ap);
    lemma_decode_opt_varint_field(2, m.seq as nat, f3 + e, m1, ex, ap);
    lemma_decode_opt_bytes_field(3, m.data, e, m2, ex, ap);
    lemma_decode_fields_end(e, m3, ex, ap);
    if m.data.len() == 0 {
        assert(m.data =~= Seq::<u8>::empty());
    }
    assert(m3 == m);
}

/// Decoding the encoding of a file completion gives it back.
pub proof fn lemma_file_complete_roundtrip(m: FileCompleteModel)
    requires
        FileComplete::spec_encodable(m),
    ensures
        spec_decode::<FileComplete>(FileComplete::spec_encode(m)) == Ok::<FileCompleteModel, DecodeError>(m),
{
    let ex = expect_fn::<FileComplete>();
    let ap = apply_fn::<FileComplete>();
    let f1 = spec_varint_field(1, m.transfer_id as nat);
    let f2 = spec_varint_field(2, bool_wire(m.success));
    let e = Seq::<u8>::empty();
    assert(FileComplete::spec_encode(m) =~= f1 + (f2 + e));
    let m0 = FileComplete::spec_default();
    let m1 = FileCompleteModel { transfer_id: m.transfer_id, ..m0 };
    let m2 = FileCompleteModel { success: m.success, ..m1 };
    lemma_decode_opt_varint_field(1, m.transfer_id as nat, f2 + e, m0, ex, ap);
    lemma_decode_opt_varint_field(2, bool_wire(m.success), e, m1, ex, ap);
    lemma_decode_fields_end(e, m2, ex, ap);
    assert(m2 == m);
}


// ---------------------------------------------------------------------------
// Frames: [4-byte big-endian length][envelope bytes]
// ---------------------------------------------------------------------------

/// The four big-endian bytes of a number below 2^32.
pub open spec fn be32_bytes(n: nat) -> Seq<u8> {
    seq![
        ((n / 0x100_0000) % 0x100) as u8,
        ((n / 0x1_0000) % 0x100) as u8,
        ((n / 0x100) % 0x100) as u8,
        (n % 0x100) as u8,
    ]
}

/// The number that four big-endian bytes stand for.
pub open spec fn be32_value(b: Seq<u8>) -> nat {
    b[0] as nat * 0x100_0000 + b[1] as nat * 0x1_0000 + b[2] as nat * 0x100 + b[3] as nat
}

/// The frame that carries `body`: its length (taken modulo 2^32) in four
/// big-endian bytes, then the body.
pub open spec fn spec_frame(body: Seq<u8>) -> Seq<u8> {
    be32_bytes(body.len() % 0x1_0000_0000) + body
}

/// Reading one frame from the front of `s`: the body and the number of bytes the
/// frame takes; nothing when `s` holds no complete frame.
pub open spec fn spec_split_frame(s: Seq<u8>) -> Option<(Seq<u8>, nat)> {
    if s.len() < 4 {
        None
    } else {
        let n = be32_value(s.take(4));
        if s.len() - 4 < n {
            None
        } else {
            Some((s.subrange(4, (4 + n) as int), 4 + n))
        }
    }
}

/// The envelope that carries an encoded message of type `msg_type`.
pub open spec fn envelope_for(msg_type: i32, payload: Seq<u8>) -> EnvelopeModel {
    EnvelopeModel { version: 1, msg_type, payload }
}

/// Puts the length prefix in front of `body`.
fn frame(body: Vec<u8>) -> (r: Vec<u8>)
    ensures
        r@ == spec_frame(body@),
{
    let n: u32 = (body.len() as u64 % 0x1_0000_0000) as u32;
    let mut r: Vec<u8> = Vec::new();
    r.push((n / 0x100_0000) as u8);
    r.push(((n / 0x1_0000) % 0x100) as u8);
    r.push(((n / 0x100) % 0x100) as u8);
    r.push((n % 0x100) as u8);
    let mut body = body;
    let ghost b = body@;
    r.append(&mut body);
    assert(r@ =~= spec_frame(b));
    r
}

/// Encodes an envelope and puts the length prefix in front of it.
pub fn encode_envelope(env: &Envelope) -> (r: Vec<u8>)
    ensures
        r@ == spec_frame(Envelope::spec_encode(env@)),
{
    frame(env.encode())
}

/// Builds the complete frame for one message: the message is encoded into the
/// payload of a version-1 envelope of type `msg_type`, which is encoded and framed.
pub fn make_envelope<M: ProtoMessage>(msg_type: i32, payload: &M) -> (r: Vec<u8>)
    ensures
        r@ == spec_frame(Envelope::spec_encode(envelope_for(msg_type, M::spec_encode(payload@)))),
{
    let env = Envelope { version: 1, msg_type, payload: payload.encode() };
    encode_envelope(&env)
}

/// Decodes the body of a frame as an [`Envelope`].
pub fn decode_envelope(data: &[u8]) -> (res: Result<Envelope, DecodeError>)
    ensures
        res matches Ok(e) ==> spec_decode::<Envelope>(data@) == Ok::<EnvelopeModel, DecodeError>(
            e@,
        ),
        res matches Err(e) ==> spec_decode::<Envelope>(data@) == Err::<EnvelopeModel, DecodeError>(
            e,
        ),
{
    decode_message::<Envelope>(data)
}

/// The body length that a 4-byte frame header announces.
pub fn frame_payload_len(header: &[u8]) -> (n: u32)
    requires
        header@.len() == 4,
    ensures
        n as nat == be32_value(header@),
{
    (header[0] as u32) * 0x100_0000 + (header[1] as u32) * 0x1_0000 + (header[2] as u32) * 0x100
        + (header[3] as u32)
}

/// Reads one frame from the front of `buf`: its body and the number of bytes it
/// takes, or nothing when `buf` does not yet hold a complete frame.
pub fn split_frame(buf: &[u8]) -> (r: Option<(Vec<u8>, usize)>)
    ensures
        r matches Some((body, n)) ==> spec_split_frame(buf@) == Some((body@, n as nat)),
        r is None ==> spec_split_frame(buf@) is None,
{
    if buf.len() < 4 {
        return None;
    }
    let header = vstd::slice::slice_subrange(buf, 0, 4);
    assert(header@ =~= buf@.take(4));
    let n = frame_payload_len(header) as usize;
    if buf.len() - 4 < n {
        return None;
    }
    Some((copy_range(buf, 4, 4 + n), 4 + n))
}

/// The header of a frame announces the length of its body.
proof fn lemma_be32(n: nat)
    requires
        n < 0x1_0000_0000,
    ensures
        be32_value(be32_bytes(n)) == n,
{
}

/// Law: reading a frame from a stream gives back the body that was framed, and
/// says where the next frame starts.
pub proof fn lemma_frame_roundtrip(body: Seq<u8>, rest: Seq<u8>)
    requires
        body.len() < 0x1_0000_0000,
    ensures
        spec_split_frame(spec_frame(body) + rest) == Some((body, body.len() + 4)),
{
    let s = spec_frame(body) + rest;
    lemma_be32(body.len());
    assert(s.take(4) =~= be32_bytes(body.len()));
    assert(s.subrange(4, (4 + body.len()) as int) =~= body);
}

/// Law: `message_type_from_i32` undoes `as_i32`.
pub proof fn lemma_message_type_roundtrip(t: MessageType)
    ensures
        spec_message_type(message_type_code(t)) == t,
{
}

/// Law: what a device sends with `make_envelope` is what the receiver reads back:
/// the frame holds an envelope of version 1 and type `msg_type` whose payload
/// decodes to the message that was sent (for any message type whose decoding
/// undoes its encoding, as the roundtrip laws above show for every message type).
pub proof fn lemma_delivery<M: ProtoMessage>(msg_type: i32, m: <M as View>::V, rest: Seq<u8>)
    requires
        Envelope::spec_encode(envelope_for(msg_type, M::spec_encode(m))).len() < 0x1_0000_0000,
        spec_decode::<M>(M::spec_encode(m)) == Ok::<<M as View>::V, DecodeError>(m),
    ensures
        ({
            let env = envelope_for(msg_type, M::spec_encode(m));
            let body = Envelope::spec_encode(env);
            &&& spec_split_frame(spec_frame(body) + rest) == Some((body, body.len() + 4))
            &&& spec_decode::<Envelope>(body) == Ok::<EnvelopeModel, DecodeError>(env)
            &&& spec_decode::<M>(env.payload) == Ok::<<M as View>::V, DecodeError>(m)
        }),
{
    let env = envelope_for(msg_type, M::spec_encode(m));
    let body = Envelope::spec_encode(env);
    lemma_frame_roundtrip(body, rest);
    assert(body.len() >= env.payload.len());
    lemma_envelope_roundtrip(env);
}

} // verus!
