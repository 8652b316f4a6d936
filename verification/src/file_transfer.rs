//! File transfer: the frames a sender emits for one transfer, how a receiver
//! orders and joins the chunks it collected, and the SHA-256 digest of a file.

use sha2::Digest;
use vstd::prelude::*;
use crate::handler::{
    body_of, chunk_bodies, chunks_view, complete_body, lemma_file_transfer, offer_body, offerable,
    save_path, sendable_chunks, spec_handle_all, spec_sanitize_filename, ActionModel, HandlerModel,
};
use crate::wire::{lemma_bytes_field_len, lemma_varint_field_len, u64_bound, DecodeError};
use crate::proto::{
    envelope_for, lemma_frame_roundtrip, make_envelope, message_type_code, spec_frame,
    spec_split_frame, Envelope, FileChunk,
    FileChunkModel, FileComplete, FileCompleteModel, MessageType, ProtoMessage,
};
use crate::api::spec_offer_frame;
use crate::text::{hex_lower, hex_lower_chars, string_from_chars};

verus! {

/// Size of the pieces a file is sent in: 256 KiB.
pub const CHUNK_SIZE: usize = 262144;

/// The sender of one file transfer, identified by its `transfer_id`.
pub struct FileSender {
    transfer_id: u32,
}

/// The frame that carries chunk `seq` of transfer `transfer_id`.
pub open spec fn spec_chunk_frame(transfer_id: u32, seq: u32, data: Seq<u8>) -> Seq<u8> {
    spec_frame(
        Envelope::spec_encode(
            envelope_for(
                message_type_code(MessageType::FileChunk),
                FileChunk::spec_encode(FileChunkModel { transfer_id, seq, data }),
            ),
        ),
    )
}

/// The frame that ends transfer `transfer_id` successfully.
pub open spec fn spec_complete_frame(transfer_id: u32) -> Seq<u8> {
    spec_frame(
        Envelope::spec_encode(
            envelope_for(
                message_type_code(MessageType::FileComplete),
                FileComplete::spec_encode(FileCompleteModel { transfer_id, success: true }),
            ),
        ),
    )
}

impl FileSender {
    pub fn new(transfer_id: u32) -> (r: Self)
        ensures
            r.transfer_id() == transfer_id,
    {
        FileSender { transfer_id }
    }

    pub closed spec fn transfer_id(&self) -> u32 {
        self.transfer_id
    }

    /// The id of this transfer.
    pub fn id(&self) -> (r: u32)
        ensures
            r == self.transfer_id(),
    {
        self.transfer_id
    }

    /// The frame that carries piece number `seq` of the file.
    pub fn chunk_frame(&self, seq: u32, data: &[u8]) -> (r: Vec<u8>)
        ensures
            r@ == spec_chunk_frame(self.transfer_id(), seq, data@),
    {
        let mut bytes: Vec<u8> = Vec::new();
        let mut i: usize = 0;
        while i < data.len()
            invariant
                i <= data@.len(),
                bytes@ == data@.take(i as int),
            decreases data@.len() - i,
        {
            bytes.push(data[i]);
            assert(data@.take(i + 1) =~= data@.take(i as int).push(data@[i as int]));
            i = i + 1;
        }
        assert(data@.take(data@.len() as int) =~= data@);
        let chunk = FileChunk { transfer_id: self.transfer_id, seq, data: bytes };
        make_envelope(MessageType::FileChunk.as_i32(), &chunk)
    }

    /// The frame that tells the receiver that the whole file was sent.
    pub fn complete_frame(&self) -> (r: Vec<u8>)
        ensures
            r@ == spec_complete_frame(self.transfer_id()),
    {
        let done = FileComplete { transfer_id: self.transfer_id, success: true };
        make_envelope(MessageType::FileComplete.as_i32(), &done)
    }
}

// ---------------------------------------------------------------------------
// The frames of a whole transfer
// ---------------------------------------------------------------------------

/// The number of pieces of [`CHUNK_SIZE`] bytes (the last one shorter) that
/// `len` bytes are sent in.
pub open spec fn piece_count(len: nat) -> nat {
    ((len + (CHUNK_SIZE - 1)) / CHUNK_SIZE as int) as nat
}

/// Piece `i` of `data`.
pub open spec fn piece(data: Seq<u8>, i: int) -> Seq<u8> {
    let end = if (i + 1) * CHUNK_SIZE < data.len() {
        (i + 1) * CHUNK_SIZE
    } else {
        data.len() as int
    };
    data.subrange(i * CHUNK_SIZE, end)
}

/// The pieces that `data` is sent in, in order.
pub open spec fn pieces_of(data: Seq<u8>) -> Seq<Seq<u8>> {
    Seq::new(piece_count(data.len()), |i: int| piece(data, i))
}

/// The frames that carry the file `data` in transfer `transfer_id`, in the
/// order they are sent: the chunk frames numbered 0, 1, 2, ..., then the
/// completion frame.
pub open spec fn spec_data_frames(transfer_id: u32, data: Seq<u8>) -> Seq<Seq<u8>> {
    Seq::new(
        piece_count(data.len()),
        |i: int| spec_chunk_frame(transfer_id, i as u32, piece(data, i)),
    ) + seq![spec_complete_frame(transfer_id)]
}

/// The frames that send the file `data` as transfer `transfer_id` to one
/// peer, in the order they are sent: the offer frame first, then the chunk
/// frames, then the completion frame.
pub open spec fn spec_transfer_frames(offer_frame: Seq<u8>, transfer_id: u32, data: Seq<u8>) -> Seq<
    Seq<u8>,
> {
    seq![offer_frame] + spec_data_frames(transfer_id, data)
}

pub open spec fn frames_view(v: Seq<Vec<u8>>) -> Seq<Seq<u8>> {
    v.map_values(|f: Vec<u8>| f@)
}

impl FileSender {
    /// The frames that carry the file `contents` to one peer, in order: the
    /// chunks, numbered from 0, then the completion.
    pub fn data_frames(&self, contents: &[u8]) -> (r: Vec<Vec<u8>>)
        requires
            piece_count(contents@.len()) <= u32::MAX + 1,
        ensures
            frames_view(r@) == spec_data_frames(self.transfer_id(), contents@),
    {
        let ghost d = contents@;
        let n = contents.len();
        let mut frames: Vec<Vec<u8>> = Vec::new();
        let mut start: usize = 0;
        let mut seq: u32 = 0;
        let ghost mut k: int = 0;
        while start < n
            invariant
                n == d.len(),
                start <= n,
                start < n ==> start == k * CHUNK_SIZE,
                0 <= k,
                start < n ==> k < piece_count(n as nat),
                start == n ==> k == piece_count(n as nat),
                piece_count(n as nat) <= u32::MAX + 1,
                k < piece_count(n as nat) ==> seq == k,
                contents@ == d,
                frames_view(frames@) == Seq::new(
                    k as nat,
                    |i: int| spec_chunk_frame(self.transfer_id(), i as u32, piece(d, i)),
                ),
            decreases n - start,
        {
            let end = if n - start > CHUNK_SIZE {
                start + CHUNK_SIZE
            } else {
                n
            };
            let piece_bytes = crate::wire::copy_range(contents, start, end);
            assert(piece_bytes@ == piece(d, k));
            let frame = self.chunk_frame(seq, piece_bytes.as_slice());
            let ghost before = frames_view(frames@);
            frames.push(frame);
            assert(frames_view(frames@) =~= before.push(frame@));
            assert((k as u32) == seq);
            assert(Seq::new(
                (k + 1) as nat,
                |i: int| spec_chunk_frame(self.transfer_id(), i as u32, piece(d, i)),
            ) =~= Seq::new(
                k as nat,
                |i: int| spec_chunk_frame(self.transfer_id(), i as u32, piece(d, i)),
            ).push(spec_chunk_frame(self.transfer_id(), k as u32, piece(d, k))));
            proof {
                k = k + 1;
            }
            start = end;
            if start < n {
                seq = seq + 1;
            }
        }
        let ghost before = frames_view(frames@);
        frames.push(self.complete_frame());
        assert(frames_view(frames@) =~= spec_data_frames(self.transfer_id(), d));
        frames
    }

    /// The frames to send to one peer for the file `contents`, in order: the
    /// offer frame (announcing the file), then the chunks, then the completion.
    pub fn transfer_frames(&self, offer_frame: Vec<u8>, contents: &[u8]) -> (r: Vec<Vec<u8>>)
        requires
            piece_count(contents@.len()) <= u32::MAX + 1,
        ensures
            frames_view(r@) == spec_transfer_frames(offer_frame@, self.transfer_id(), contents@),
    {
        let ghost first = offer_frame@;
        let mut frames: Vec<Vec<u8>> = Vec::new();
        frames.push(offer_frame);
        let mut rest = self.data_frames(contents);
        let ghost a = frames@;
        let ghost b = rest@;
        frames.append(&mut rest);
        assert(frames@ =~= a + b);
        assert(frames_view(frames@) =~= seq![first] + frames_view(b));
        frames
    }
}

/// The SHA-256 digest of `data` (FIPS 180-4).
pub uninterp spec fn sha256(data: Seq<u8>) -> Seq<u8>;

/// `Sha256::digest` of the `sha2` crate: the SHA-256 digest of `data`, 32 bytes long.
#[verifier::external_body]
fn sha256_digest(data: &[u8]) -> (r: Vec<u8>)
    ensures
        r@ == sha256(data@),
        r@.len() == 32,
{
    sha2::Sha256::digest(data).to_vec()
}

impl FileSender {
    /// The SHA-256 digest of the contents of a file, in lower-case
    /// hexadecimal, for the receiver to check the file.
    pub fn hash_contents(data: &[u8]) -> (r: String)
        ensures
            r@ == hex_lower(sha256(data@)),
            r@.len() == 64,
    {
        let digest = sha256_digest(data);
        let chars = hex_lower_chars(digest.as_slice());
        proof {
            lemma_hex_len(digest@);
        }
        string_from_chars(chars)
    }
}

proof fn lemma_hex_len(b: Seq<u8>)
    ensures
        hex_lower(b).len() == 2 * b.len(),
    decreases b.len(),
{
    if b.len() > 0 {
        lemma_hex_len(b.drop_last());
    }
}

// ---------------------------------------------------------------------------
// Joining the chunks of a transfer
// ---------------------------------------------------------------------------

/// Chunk `a` comes before chunk `b`: by `seq`, and by arrival for equal `seq`.
pub open spec fn chunk_before(chunks: Seq<FileChunkModel>, a: int, b: int) -> bool {
    chunks[a].seq < chunks[b].seq || (chunks[a].seq == chunks[b].seq && a < b)
}

/// `order` lists every chunk once, ordered by `seq` and, for equal `seq`, by
/// arrival (a stable sort by `seq`).
pub open spec fn is_sorted_order(chunks: Seq<FileChunkModel>, order: Seq<usize>) -> bool {
    &&& order.len() == chunks.len()
    &&& forall|i: int| 0 <= i < order.len() ==> order[i] < chunks.len()
    &&& forall|i: int, j: int|
        0 <= i < j < order.len() ==> chunk_before(chunks, order[i] as int, order[j] as int)
}

/// The data of the chunks listed in `order`, one after the other.
pub open spec fn concat_in(chunks: Seq<FileChunkModel>, order: Seq<usize>) -> Seq<u8>
    decreases order.len(),
{
    if order.len() == 0 {
        Seq::empty()
    } else {
        concat_in(chunks, order.drop_last()) + chunks[order.last() as int].data
    }
}

/// The contents of a received file: the data of its chunks sorted by `seq`
/// (chunks with equal `seq` keep their order of arrival).
pub fn assemble_chunks(chunks: &Vec<FileChunk>) -> (r: Vec<u8>)
    ensures
        exists|order: Seq<usize>|
            is_sorted_order(chunks_view(chunks@), order) && r@ == concat_in(
                chunks_view(chunks@),
                order,
            ),
{
    let ghost cs = chunks_view(chunks@);
    let n = chunks.len();
    let mut order: Vec<usize> = Vec::new();
    let mut i: usize = 0;
    while i < n
        invariant
            i <= n,
            n == chunks@.len(),
            cs == chunks_view(chunks@),
            order@.len() == i,
            forall|k: int| 0 <= k < i ==> order@[k] < i,
            forall|a: int, b: int|
                0 <= a < b < i ==> chunk_before(cs, order@[a] as int, order@[b] as int),
        decreases n - i,
    {
        let s = chunks[i].seq;
        let mut p: usize = 0;
        while p < order.len() && chunks[order[p]].seq <= s
            invariant
                p <= order@.len(),
                order@.len() == i,
                i < n,
                n == chunks@.len(),
                cs == chunks_view(chunks@),
                s == cs[i as int].seq,
                forall|k: int| 0 <= k < i ==> order@[k] < i,
                forall|k: int| 0 <= k < p ==> cs[order@[k] as int].seq <= s,
            decreases i - p,
        {
            p = p + 1;
        }
        proof {
            assert forall|k: int| p <= k < i implies cs[order@[k] as int].seq > s by {
                if p < i {
                    assert(cs[order@[p as int] as int].seq > s);
                    if k > p {
                        assert(chunk_before(cs, order@[p as int] as int, order@[k] as int));
                    }
                }
            }
        }
        let ghost old_order = order@;
        order.insert(p, i);
        proof {
            assert(order@ == old_order.insert(p as int, i));
            assert forall|a: int, b: int| 0 <= a < b < i + 1 implies chunk_before(
                cs,
                order@[a] as int,
                order@[b] as int,
            ) by {
                if a < p && b < p {
                    assert(order@[a] == old_order[a] && order@[b] == old_order[b]);
                } else if a < p && b == p {
                    assert(order@[a] == old_order[a]);
                } else if a < p && b > p {
                    assert(order@[a] == old_order[a] && order@[b] == old_order[b - 1]);
                } else if a == p {
                    assert(order@[b] == old_order[b - 1]);
                } else {
                    assert(order@[a] == old_order[a - 1] && order@[b] == old_order[b - 1]);
                }
            }
            assert forall|k: int| 0 <= k < i + 1 implies order@[k] < i + 1 by {
                if k < p {
                    assert(order@[k] == old_order[k]);
                } else if k > p {
                    assert(order@[k] == old_order[k - 1]);
                }
            }
        }
        i = i + 1;
    }
    let mut r: Vec<u8> = Vec::new();
    let mut k: usize = 0;
    assert(order@.take(0) =~= Seq::<usize>::empty());
    while k < n
        invariant
            k <= n,
            n == chunks@.len(),
            cs == chunks_view(chunks@),
            order@.len() == n,
            forall|j: int| 0 <= j < n ==> order@[j] < n,
            r@ == concat_in(cs, order@.take(k as int)),
        decreases n - k,
    {
        let c = &chunks[order[k]];
        let mut j: usize = 0;
        let ghost start = r@;
        while j < c.data.len()
            invariant
                j <= c.data@.len(),
                r@ == start + c.data@.take(j as int),
            decreases c.data@.len() - j,
        {
            r.push(c.data[j]);
            assert(c.data@.take(j + 1) =~= c.data@.take(j as int).push(c.data@[j as int]));
            j = j + 1;
        }
        assert(c.data@.take(c.data@.len() as int) =~= c.data@);
        assert(order@.take(k + 1).drop_last() =~= order@.take(k as int));
        assert(cs[order@[k as int] as int].data == c.data@);
        k = k + 1;
    }
    assert(order@.take(n as int) =~= order@);
    r
}

/// Law: when the chunks of a transfer were numbered 0, 1, 2, ... in the order
/// they arrived, the file they make up is their data one after the other.
pub proof fn lemma_assemble_in_order(chunks: Seq<FileChunkModel>, order: Seq<usize>)
    requires
        chunks.len() <= usize::MAX,
        forall|i: int| 0 <= i < chunks.len() ==> chunks[i].seq == i,
        is_sorted_order(chunks, order),
    ensures
        order == Seq::new(chunks.len(), |i: int| i as usize),
        concat_in(chunks, order) == concat_all(chunks),
{
    // Keys grow with the index, so a sorted order is strictly increasing.
    assert forall|i: int, j: int| 0 <= i < j < order.len() implies order[i] < order[j] by {
        assert(chunk_before(chunks, order[i] as int, order[j] as int));
    }
    lemma_increasing_is_identity(order, chunks.len());
    lemma_concat_identity(chunks, chunks.len());
    assert(chunks.take(chunks.len() as int) =~= chunks);
}

/// The data of all chunks, in the order given.
pub open spec fn concat_all(chunks: Seq<FileChunkModel>) -> Seq<u8>
    decreases chunks.len(),
{
    if chunks.len() == 0 {
        Seq::empty()
    } else {
        concat_all(chunks.drop_last()) + chunks.last().data
    }
}

proof fn lemma_increasing_is_identity(order: Seq<usize>, n: nat)
    requires
        order.len() == n,
        forall|i: int| 0 <= i < n ==> order[i] < n,
        forall|i: int, j: int| 0 <= i < j < n ==> order[i] < order[j],
    ensures
        order == Seq::new(n, |i: int| i as usize),
{
    assert forall|i: int| 0 <= i < n implies order[i] == i by {
        lemma_increasing_lower(order, n, i);
        lemma_increasing_upper(order, n, i);
    }
    assert(order =~= Seq::new(n, |i: int| i as usize));
}

proof fn lemma_increasing_lower(order: Seq<usize>, n: nat, i: int)
    requires
        order.len() == n,
        0 <= i < n,
        forall|a: int, b: int| 0 <= a < b < n ==> order[a] < order[b],
    ensures
        order[i] >= i,
    decreases i,
{
    if i > 0 {
        lemma_increasing_lower(order, n, i - 1);
    }
}

proof fn lemma_increasing_upper(order: Seq<usize>, n: nat, i: int)
    requires
        order.len() == n,
        0 <= i < n,
        forall|k: int| 0 <= k < n ==> order[k] < n,
        forall|a: int, b: int| 0 <= a < b < n ==> order[a] < order[b],
    ensures
        order[i] <= i,
    decreases n - i,
{
    if i < n - 1 {
        lemma_increasing_upper(order, n, i + 1);
    }
}

proof fn lemma_concat_identity(chunks: Seq<FileChunkModel>, k: nat)
    requires
        k <= chunks.len(),
        k <= usize::MAX,
    ensures
        concat_in(chunks, Seq::new(k, |i: int| i as usize)) == concat_all(chunks.take(k as int)),
    decreases k,
{
    let ident = Seq::new(k, |i: int| i as usize);
    if k > 0 {
        lemma_concat_identity(chunks, (k - 1) as nat);
        assert(ident.drop_last() =~= Seq::new((k - 1) as nat, |i: int| i as usize));
        assert(chunks.take(k as int).drop_last() =~= chunks.take(k - 1));
        assert(ident[k - 1] == (k - 1) as usize);
        assert(ident.last() == k - 1);
        assert(chunks.take(k as int).last() == chunks[k - 1]);
    } else {
        assert(ident.len() == 0);
        assert(chunks.take(0).len() == 0);
    }
}

/// The chunks a sender makes of the pieces of a file: piece `i` becomes chunk
/// `i` of the transfer.
pub open spec fn chunks_for(transfer_id: u32, pieces: Seq<Seq<u8>>) -> Seq<FileChunkModel> {
    Seq::new(
        pieces.len(),
        |i: int| FileChunkModel { transfer_id, seq: i as u32, data: pieces[i] },
    )
}

/// The pieces of a file, one after the other.
pub open spec fn joined(pieces: Seq<Seq<u8>>) -> Seq<u8>
    decreases pieces.len(),
{
    if pieces.len() == 0 {
        Seq::empty()
    } else {
        joined(pieces.drop_last()) + pieces.last()
    }
}

proof fn lemma_concat_chunks_for(transfer_id: u32, pieces: Seq<Seq<u8>>)
    ensures
        concat_all(chunks_for(transfer_id, pieces)) == joined(pieces),
    decreases pieces.len(),
{
    if pieces.len() > 0 {
        lemma_concat_chunks_for(transfer_id, pieces.drop_last());
        assert(chunks_for(transfer_id, pieces).drop_last() =~= chunks_for(
            transfer_id,
            pieces.drop_last(),
        ));
    }
}

/// Law: pieces arrive as they were sent. When a sender announces file `name`
/// and sends any pieces in order as chunks 0, 1, 2, ... and then the
/// completion, a receiver with nothing pending for that transfer saves, as the
/// sanitized name in its save directory, chunks whose assembly (ordered by
/// `seq`, as [`assemble_chunks`] orders them) is the pieces one after the
/// other: the file's contents.
pub proof fn lemma_pieces_arrive_intact(
    h: HandlerModel,
    name: Seq<char>,
    transfer_id: u32,
    pieces: Seq<Seq<u8>>,
)
    requires
        0 < pieces.len() <= u32::MAX + 1,
        pieces.len() <= usize::MAX,
        !h.chunks.contains_key(transfer_id),
        sendable_chunks(chunks_for(transfer_id, pieces), transfer_id),
        offerable(name, transfer_id),
    ensures
        spec_handle_all(
            h,
            seq![offer_body(name, transfer_id)] + chunk_bodies(chunks_for(transfer_id, pieces))
                + seq![complete_body(transfer_id)],
        ) matches Ok((_, ActionModel::SaveFile(path, chunks))) && path == save_path(
            h.save_dir,
            spec_sanitize_filename(name),
        ) && forall|order: Seq<usize>|
            #[trigger] is_sorted_order(chunks, order) ==> concat_in(chunks, order) == joined(pieces),
{
    let chunks = chunks_for(transfer_id, pieces);
    lemma_file_transfer(h, name, transfer_id, chunks);
    assert forall|order: Seq<usize>| #[trigger] is_sorted_order(chunks, order) implies concat_in(
        chunks,
        order,
    ) == joined(pieces) by {
        assert forall|i: int| 0 <= i < chunks.len() implies chunks[i].seq == i by {
            assert((i as u32) == i);
        }
        lemma_assemble_in_order(chunks, order);
        lemma_concat_chunks_for(transfer_id, pieces);
    }
}

proof fn lemma_piece_facts(data: Seq<u8>, k: int)
    requires
        0 <= k < piece_count(data.len()),
    ensures
        k * CHUNK_SIZE < data.len(),
        piece(data, k).len() <= CHUNK_SIZE,
        piece(data, k).len() > 0,
{
    let len = data.len() as int;
    let c = CHUNK_SIZE as int;
    assert(k * c < len) by (nonlinear_arith)
        requires
            c == 262144,
            0 <= k,
            k < (len + (c - 1)) / c,
            len >= 0,
    ;
}

proof fn lemma_joined_pieces_prefix(data: Seq<u8>, k: nat)
    requires
        k <= piece_count(data.len()),
    ensures
        joined(pieces_of(data).take(k as int)) == data.take(
            if k * CHUNK_SIZE < data.len() {
                k * CHUNK_SIZE
            } else {
                data.len() as int
            },
        ),
    decreases k,
{
    let p = pieces_of(data);
    if k == 0 {
        assert(p.take(0) =~= Seq::<Seq<u8>>::empty());
        assert(data.take(0) =~= Seq::<u8>::empty());
    } else {
        let j = (k - 1) as nat;
        lemma_joined_pieces_prefix(data, j);
        lemma_piece_facts(data, j as int);
        assert(p.take(k as int).drop_last() =~= p.take(j as int));
        assert(p.take(k as int).last() == piece(data, j as int));
        let end = if k * CHUNK_SIZE < data.len() {
            k * CHUNK_SIZE
        } else {
            data.len() as int
        };
        assert(data.take(j * CHUNK_SIZE) + data.subrange(j * CHUNK_SIZE, end) =~= data.take(end));
    }
}

/// All the pieces of `data`, one after the other, are `data`.
proof fn lemma_joined_pieces(data: Seq<u8>)
    ensures
        joined(pieces_of(data)) == data,
{
    let n = piece_count(data.len());
    lemma_joined_pieces_prefix(data, n);
    assert(pieces_of(data).take(n as int) =~= pieces_of(data));
    let len = data.len() as int;
    let c = CHUNK_SIZE as int;
    assert(n * c >= len) by (nonlinear_arith)
        requires
            c == 262144,
            n == (len + (c - 1)) / c,
            len >= 0,
    ;
    assert(data.take(len) =~= data);
}

/// The frame bodies of a whole transfer of `data` announced as `name`: the
/// offer, the chunks, the completion.
pub open spec fn transfer_bodies(name: Seq<char>, transfer_id: u32, data: Seq<u8>) -> Seq<Seq<u8>> {
    seq![offer_body(name, transfer_id)] + chunk_bodies(chunks_for(transfer_id, pieces_of(data)))
        + seq![complete_body(transfer_id)]
}

proof fn lemma_chunk_body_len(c: FileChunkModel)
    requires
        c.data.len() <= CHUNK_SIZE,
    ensures
        FileChunk::spec_encodable(c),
        FileChunk::spec_encode(c).len() <= 33 + CHUNK_SIZE,
        body_of(MessageType::FileChunk, FileChunk::spec_encode(c)).len() < 0x1_0000_0000,
{
    lemma_varint_field_len(1, c.transfer_id as nat);
    lemma_varint_field_len(2, c.seq as nat);
    lemma_bytes_field_len(3, c.data);
    let payload = FileChunk::spec_encode(c);
    lemma_varint_field_len(1, 1);
    lemma_varint_field_len(2, 3);
    lemma_bytes_field_len(3, payload);
}

/// Law: a file arrives as it was sent. The frames that a sender emits for the
/// file `data` ([`FileSender::transfer_frames`] with the offer of `name`: the
/// offer, then the chunks in order, then the completion) split back, one by
/// one, into the frame bodies of the transfer; a receiver with nothing pending
/// for the transfer that handles those bodies in order saves, as the sanitized
/// name in its save directory, chunks whose assembly (ordered by `seq`, as
/// [`assemble_chunks`] orders them) is exactly `data`. The offer frame is the
/// one that [`crate::api::send_file`] makes for `name`.
pub proof fn lemma_file_arrives_intact(h: HandlerModel, name: Seq<char>, transfer_id: u32, data: Seq<u8>)
    requires
        0 < data.len() <= usize::MAX,
        piece_count(data.len()) <= u32::MAX + 1,
        !h.chunks.contains_key(transfer_id),
        offerable(name, transfer_id),
        offer_body(name, transfer_id).len() < 0x1_0000_0000,
    ensures
        ({
            let frames = spec_transfer_frames(spec_frame(offer_body(name, transfer_id)), transfer_id, data);
            let bodies = transfer_bodies(name, transfer_id, data);
            &&& spec_offer_frame(name, transfer_id) == spec_frame(offer_body(name, transfer_id))
            &&& frames.len() == bodies.len()
            &&& forall|i: int|
                0 <= i < frames.len() ==> spec_split_frame(#[trigger] frames[i]) == Some(
                    (bodies[i], frames[i].len()),
                )
            &&& spec_handle_all(h, bodies) matches Ok((_, ActionModel::SaveFile(path, chunks)))
                && path == save_path(h.save_dir, spec_sanitize_filename(name)) && forall|
                order: Seq<usize>,
            | #[trigger] is_sorted_order(chunks, order) ==> concat_in(chunks, order) == data
        }),
{
    let pieces = pieces_of(data);
    let chunks = chunks_for(transfer_id, pieces);
    let frames = spec_transfer_frames(spec_frame(offer_body(name, transfer_id)), transfer_id, data);
    let bodies = transfer_bodies(name, transfer_id, data);
    let n = pieces.len();
    lemma_piece_facts(data, 0);
    assert forall|i: int| 0 <= i < chunks.len() implies {
        &&& (#[trigger] chunks[i]).transfer_id == transfer_id
        &&& FileChunk::spec_encodable(chunks[i])
        &&& FileChunk::spec_encode(chunks[i]).len() < u64_bound()
    } by {
        lemma_piece_facts(data, i);
        lemma_chunk_body_len(chunks[i]);
    }
    assert(pieces.len() <= data.len()) by {
        let len = data.len() as int;
        let c = CHUNK_SIZE as int;
        assert((len + (c - 1)) / c <= len) by (nonlinear_arith)
            requires
                c == 262144,
                len >= 1,
        ;
    }
    lemma_pieces_arrive_intact(h, name, transfer_id, pieces);
    lemma_joined_pieces(data);
    assert(frames.len() == bodies.len());
    assert forall|i: int| 0 <= i < frames.len() implies spec_split_frame(#[trigger] frames[i])
        == Some((bodies[i], frames[i].len())) by {
        if i == 0 {
            assert(frames[i] == spec_frame(bodies[i]));
        } else if i <= n {
            let c = chunks[i - 1];
            lemma_piece_facts(data, i - 1);
            lemma_chunk_body_len(c);
            assert(bodies[i] == body_of(MessageType::FileChunk, FileChunk::spec_encode(c)));
            assert(frames[i] == spec_frame(bodies[i]));
        } else {
            let m = FileCompleteModel { transfer_id, success: true };
            lemma_varint_field_len(1, transfer_id as nat);
            lemma_varint_field_len(2, 1);
            lemma_varint_field_len(1, 1);
            lemma_varint_field_len(2, 4);
            lemma_bytes_field_len(3, FileComplete::spec_encode(m));
            assert(frames[i] == spec_frame(bodies[i]));
        }
        lemma_frame_roundtrip(bodies[i], Seq::empty());
        assert(spec_frame(bodies[i]) + Seq::<u8>::empty() =~= spec_frame(bodies[i]));
    }
}

// ---------------------------------------------------------------------------
// Joining does not depend on the order of arrival
// ---------------------------------------------------------------------------

/// No two chunks have the same sequence number.
pub open spec fn distinct_seqs(chunks: Seq<FileChunkModel>) -> bool {
    forall|i: int, j: int| 0 <= i < j < chunks.len() ==> chunks[i].seq != chunks[j].seq
}

/// The chunks in the order `order` lists them.
pub open spec fn in_order(chunks: Seq<FileChunkModel>, order: Seq<usize>) -> Seq<FileChunkModel> {
    order.map_values(|i: usize| chunks[i as int])
}

spec fn seq_increasing(s: Seq<FileChunkModel>) -> bool {
    forall|i: int, j: int| 0 <= i < j < s.len() ==> s[i].seq < s[j].seq
}

proof fn lemma_concat_in_order(chunks: Seq<FileChunkModel>, order: Seq<usize>)
    ensures
        concat_in(chunks, order) == concat_all(in_order(chunks, order)),
    decreases order.len(),
{
    if order.len() > 0 {
        lemma_concat_in_order(chunks, order.drop_last());
        assert(in_order(chunks, order).drop_last() =~= in_order(chunks, order.drop_last()));
    }
}

/// A sorted order lists every chunk: its positions are all of `0..n`.
proof fn lemma_sorted_order_covers(chunks: Seq<FileChunkModel>, order: Seq<usize>, j: int)
    requires
        is_sorted_order(chunks, order),
        0 <= j < chunks.len(),
    ensures
        exists|i: int| 0 <= i < order.len() && order[i] == j,
{
    let n = chunks.len() as int;
    let ints = order.map_values(|x: usize| x as int);
    assert(ints.no_duplicates()) by {
        assert forall|p: int, q: int| 0 <= p < ints.len() && 0 <= q < ints.len() && p != q implies ints[p]
            != ints[q] by {
            if p < q {
                assert(chunk_before(chunks, order[p] as int, order[q] as int));
            } else {
                assert(chunk_before(chunks, order[q] as int, order[p] as int));
            }
        }
    }
    ints.unique_seq_to_set();
    vstd::set_lib::lemma_int_range(0, n);
    assert(ints.to_set().subset_of(vstd::set_lib::set_int_range(0, n))) by {
        assert forall|x: int| ints.to_set().contains(x) implies vstd::set_lib::set_int_range(0, n).contains(x) by {
            let p = choose|p: int| 0 <= p < ints.len() && ints[p] == x;
            assert(order[p] < n);
        }
    }
    vstd::set_lib::lemma_subset_equality(ints.to_set(), vstd::set_lib::set_int_range(0, n));
    assert(vstd::set_lib::set_int_range(0, n).contains(j));
    assert(ints.to_set().contains(j));
    let p = choose|p: int| 0 <= p < ints.len() && ints[p] == j;
    assert(order[p] == j);
}

/// The chunks in a sorted order are exactly the chunks, by increasing `seq`.
proof fn lemma_in_sorted_order(chunks: Seq<FileChunkModel>, order: Seq<usize>)
    requires
        distinct_seqs(chunks),
        is_sorted_order(chunks, order),
    ensures
        seq_increasing(in_order(chunks, order)),
        in_order(chunks, order).len() == chunks.len(),
        forall|x: FileChunkModel| in_order(chunks, order).contains(x) <==> chunks.contains(x),
{
    let s = in_order(chunks, order);
    assert forall|i: int, j: int| 0 <= i < j < s.len() implies s[i].seq < s[j].seq by {
        assert(chunk_before(chunks, order[i] as int, order[j] as int));
        let a = order[i] as int;
        let b = order[j] as int;
        if a != b {
            if a < b {
                assert(chunks[a].seq != chunks[b].seq);
            } else {
                assert(chunks[b].seq != chunks[a].seq);
            }
        }
    }
    assert forall|x: FileChunkModel| s.contains(x) <==> chunks.contains(x) by {
        if s.contains(x) {
            let p = choose|p: int| 0 <= p < s.len() && s[p] == x;
            assert(chunks[order[p] as int] == x);
        }
        if chunks.contains(x) {
            let q = choose|q: int| 0 <= q < chunks.len() && chunks[q] == x;
            lemma_sorted_order_covers(chunks, order, q);
            let p = choose|p: int| 0 <= p < order.len() && order[p] == q;
            assert(s[p] == x);
        }
    }
}

/// Two lists of chunks, each by strictly increasing `seq`, with the same
/// chunks, are the same list.
proof fn lemma_increasing_same_chunks(a: Seq<FileChunkModel>, b: Seq<FileChunkModel>)
    requires
        a.len() == b.len(),
        seq_increasing(a),
        seq_increasing(b),
        forall|x: FileChunkModel| a.contains(x) <==> b.contains(x),
    ensures
        a == b,
    decreases a.len(),
{
    if a.len() > 0 {
        let n = a.len() as int;
        assert(a.contains(a.last()));
        assert(b.contains(b.last()));
        let j = choose|j: int| 0 <= j < n && b[j] == a.last();
        let k = choose|k: int| 0 <= k < n && a[k] == b.last();
        if k < n - 1 {
            assert(a[k].seq < a[n - 1].seq);
        }
        if j < n - 1 {
            assert(b[j].seq < b[n - 1].seq);
        }
        assert(j == n - 1);
        let a1 = a.drop_last();
        let b1 = b.drop_last();
        assert forall|x: FileChunkModel| a1.contains(x) <==> b1.contains(x) by {
            if a1.contains(x) {
                let p = choose|p: int| 0 <= p < a1.len() && a1[p] == x;
                assert(a.contains(x)) by {
                    assert(a[p] == x);
                }
                let q = choose|q: int| 0 <= q < n && b[q] == x;
                assert(a[p].seq < a[n - 1].seq);
                assert(q != n - 1);
                assert(b1[q] == x);
            }
            if b1.contains(x) {
                let p = choose|p: int| 0 <= p < b1.len() && b1[p] == x;
                assert(b.contains(x)) by {
                    assert(b[p] == x);
                }
                let q = choose|q: int| 0 <= q < n && a[q] == x;
                assert(b[p].seq < b[n - 1].seq);
                assert(q != n - 1);
                assert(a1[q] == x);
            }
        }
        lemma_increasing_same_chunks(a1, b1);
        assert(a =~= a1.push(a.last()));
        assert(b =~= b1.push(b.last()));
    }
}

/// Law: the file a receiver writes does not depend on the order in which the
/// chunks arrived. For chunks with distinct sequence numbers and any
/// rearrangement of them, joining in sorted order (as [`assemble_chunks`]
/// does) gives the same bytes.
pub proof fn lemma_assembly_ignores_arrival_order(
    chunks: Seq<FileChunkModel>,
    arrived: Seq<FileChunkModel>,
    order: Seq<usize>,
    arrived_order: Seq<usize>,
)
    requires
        distinct_seqs(chunks),
        arrived.to_multiset() == chunks.to_multiset(),
        is_sorted_order(chunks, order),
        is_sorted_order(arrived, arrived_order),
    ensures
        concat_in(arrived, arrived_order) == concat_in(chunks, order),
{
    chunks.to_multiset_ensures();
    arrived.to_multiset_ensures();
    // The chunks are pairwise different, so each occurs once, in both lists.
    assert(chunks.no_duplicates()) by {
        assert forall|i: int, j: int| 0 <= i < chunks.len() && 0 <= j < chunks.len() && i != j implies chunks[i]
            != chunks[j] by {
            if i < j {
                assert(chunks[i].seq != chunks[j].seq);
            } else {
                assert(chunks[j].seq != chunks[i].seq);
            }
        }
    }
    chunks.lemma_multiset_has_no_duplicates();
    arrived.lemma_multiset_has_no_duplicates_conv();
    assert forall|x: FileChunkModel| arrived.contains(x) <==> chunks.contains(x) by {
        assert(arrived.to_multiset().count(x) == chunks.to_multiset().count(x));
        assert(arrived.contains(x) <==> arrived.to_multiset().count(x) > 0);
        assert(chunks.contains(x) <==> chunks.to_multiset().count(x) > 0);
    }
    assert(distinct_seqs(arrived)) by {
        assert forall|i: int, j: int| 0 <= i < j < arrived.len() implies arrived[i].seq != arrived[j].seq by {
            if arrived[i].seq == arrived[j].seq {
                assert(arrived.contains(arrived[i]));
                assert(arrived.contains(arrived[j]));
                let p = choose|p: int| 0 <= p < chunks.len() && chunks[p] == arrived[i];
                let q = choose|q: int| 0 <= q < chunks.len() && chunks[q] == arrived[j];
                if p < q {
                    assert(chunks[p].seq != chunks[q].seq);
                } else if q < p {
                    assert(chunks[q].seq != chunks[p].seq);
                }
                assert(arrived[i] == arrived[j]);
            }
        }
    }
    lemma_in_sorted_order(chunks, order);
    lemma_in_sorted_order(arrived, arrived_order);
    assert forall|x: FileChunkModel| in_order(arrived, arrived_order).contains(x) <==> in_order(
        chunks,
        order,
    ).contains(x) by {
        assert(in_order(arrived, arrived_order).contains(x) <==> arrived.contains(x));
        assert(in_order(chunks, order).contains(x) <==> chunks.contains(x));
        assert(arrived.contains(x) <==> chunks.contains(x));
    }
    lemma_increasing_same_chunks(in_order(arrived, arrived_order), in_order(chunks, order));
    lemma_concat_in_order(chunks, order);
    lemma_concat_in_order(arrived, arrived_order);
}

} // verus!
