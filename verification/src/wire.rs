//! The protobuf wire format: LEB128 varints, field keys and field values.

use vstd::prelude::*;

verus! {

/// Why a byte sequence is not a well-formed protobuf message.
#[derive(Clone, Copy, Debug, PartialEq, Eq, Structural)]
pub enum DecodeError {
    /// A varint runs past the end of the input, past ten bytes, or past 64 bits.
    InvalidVarint,
    /// A field key does not fit in 32 bits.
    InvalidKey,
    /// A field key names wire type 6 or 7.
    InvalidWireType,
    /// A field key names field number 0.
    InvalidTag,
    /// A known field arrives with another wire type than its declaration.
    WireTypeMismatch,
    /// A field value runs past the end of the input.
    BufferUnderflow,
    /// A string field does not hold UTF-8.
    InvalidUtf8,
    /// An end-group key without a matching start-group key.
    UnexpectedEndGroup,
    /// Groups nested deeper than the recursion limit.
    RecursionLimit,
}

/// The low seven bits of a byte.
pub open spec fn low7(b: u8) -> nat {
    (b % 128) as nat
}

/// Powers of 128.
pub open spec fn pow128(n: nat) -> nat
    decreases n,
{
    if n == 0 {
        1
    } else {
        128 * pow128((n - 1) as nat)
    }
}

/// The number that a sequence of varint bytes stands for (least significant group first).
pub open spec fn varint_value(s: Seq<u8>) -> nat
    decreases s.len(),
{
    if s.len() == 0 {
        0
    } else {
        low7(s[0]) + 128 * varint_value(s.drop_first())
    }
}

/// The length of the varint at the front of `s`, looking at no more than `budget` bytes.
pub open spec fn varint_end(s: Seq<u8>, budget: nat) -> Option<nat>
    decreases budget,
{
    if budget == 0 || s.len() == 0 {
        None
    } else if s[0] < 128 {
        Some(1)
    } else {
        match varint_end(s.drop_first(), (budget - 1) as nat) {
            Some(n) => Some(n + 1),
            None => None,
        }
    }
}

/// Decoding of the varint at the front of `s`: its value and its length in bytes.
/// A varint has at most ten bytes, and a tenth byte may only be 0 or 1.
pub open spec fn spec_decode_varint(s: Seq<u8>) -> Result<(nat, nat), DecodeError> {
    match varint_end(s, 10) {
        Some(n) => if n == 10 && s[9] >= 2 {
            Err(DecodeError::InvalidVarint)
        } else {
            Ok((varint_value(s.take(n as int)), n))
        },
        None => Err(DecodeError::InvalidVarint),
    }
}

/// The varint encoding of `v`: seven bits per byte, least significant first,
/// high bit set on every byte but the last.
pub open spec fn spec_varint(v: nat) -> Seq<u8>
    decreases v,
{
    if v < 128 {
        seq![v as u8]
    } else {
        seq![(v % 128 + 128) as u8] + spec_varint(v / 128)
    }
}

pub open spec fn u64_bound() -> nat {
    0x1_0000_0000_0000_0000
}

// ---------------------------------------------------------------------------
// Lemmas on varints
// ---------------------------------------------------------------------------

proof fn lemma_pow128_9()
    ensures
        pow128(9) == 0x8000_0000_0000_0000,
        pow128(8) == 0x100_0000_0000_0000,
{
    reveal_with_fuel(pow128, 10);
}

proof fn lemma_pow128_pos(n: nat)
    ensures
        pow128(n) >= 1,
    decreases n,
{
    if n > 0 {
        lemma_pow128_pos((n - 1) as nat);
    }
}

/// Appending one byte to a varint prefix adds its seven bits at the next position.
proof fn lemma_varint_value_push(a: Seq<u8>, x: u8)
    ensures
        varint_value(a.push(x)) == varint_value(a) + low7(x) * pow128(a.len()),
    decreases a.len(),
{
    if a.len() == 0 {
        assert(a.push(x).drop_first() =~= Seq::<u8>::empty());
        assert(varint_value(Seq::<u8>::empty()) == 0);
    } else {
        let t = a.drop_first();
        assert(a.push(x).drop_first() =~= t.push(x));
        lemma_varint_value_push(t, x);
        let p = pow128(t.len());
        assert(pow128(a.len()) == 128 * p);
        let l = low7(x);
        assert(128 * (varint_value(t) + l * p) == 128 * varint_value(t) + l * (128 * p))
            by (nonlinear_arith);
    }
}

/// A varint prefix of `n` bytes is below `128^n`.
proof fn lemma_varint_value_bound(s: Seq<u8>)
    ensures
        varint_value(s) < pow128(s.len()),
    decreases s.len(),
{
    if s.len() > 0 {
        lemma_varint_value_bound(s.drop_first());
        let v = varint_value(s.drop_first());
        let p = pow128(s.drop_first().len());
        assert(low7(s[0]) + 128 * v < 128 * p) by (nonlinear_arith)
            requires
                low7(s[0]) < 128,
                v < p,
        ;
    }
}

/// Skipping `i` continuation bytes shifts where the varint ends by `i`.
proof fn lemma_varint_end_skip(s: Seq<u8>, budget: nat, i: nat)
    requires
        i <= budget,
        i <= s.len(),
        forall|k: int| 0 <= k < i ==> s[k] >= 128,
    ensures
        varint_end(s, budget) == match varint_end(s.skip(i as int), (budget - i) as nat) {
            Some(n) => Some(n + i),
            None => None,
        },
    decreases i,
{
    if i == 0 {
        assert(s.skip(0) =~= s);
    } else {
        let t = s.drop_first();
        lemma_varint_end_skip(t, (budget - 1) as nat, (i - 1) as nat);
        assert(t.skip(i - 1) =~= s.skip(i as int));
    }
}

/// The encoding of `v` is never empty, and only its last byte is below 128.
proof fn lemma_varint_shape(v: nat)
    ensures
        spec_varint(v).len() >= 1,
        spec_varint(v).last() < 128,
        forall|k: int| 0 <= k < spec_varint(v).len() - 1 ==> spec_varint(v)[k] >= 128,
    decreases v,
{
    if v >= 128 {
        lemma_varint_shape(v / 128);
        let t = spec_varint(v / 128);
        assert(spec_varint(v) =~= seq![(v % 128 + 128) as u8] + t);
        assert forall|k: int| 0 <= k < spec_varint(v).len() - 1 implies spec_varint(v)[k] >= 128 by {
            if k > 0 {
                assert(spec_varint(v)[k] == t[k - 1]);
            }
        }
    }
}

/// The bytes of `spec_varint(v)` stand for `v`.
proof fn lemma_varint_value_encode(v: nat)
    ensures
        varint_value(spec_varint(v)) == v,
    decreases v,
{
    if v < 128 {
        assert(spec_varint(v).drop_first() =~= Seq::<u8>::empty());
        assert(spec_varint(v)[0] == v as u8);
        assert(low7(v as u8) == v);
        assert(varint_value(spec_varint(v).drop_first()) == 0);
    } else {
        lemma_varint_value_encode(v / 128);
        assert(spec_varint(v).drop_first() =~= spec_varint(v / 128));
        assert(spec_varint(v)[0] == (v % 128 + 128) as u8);
        assert(low7((v % 128 + 128) as u8) == v % 128);
        assert(varint_value(spec_varint(v)) == low7(spec_varint(v)[0]) + 128 * varint_value(
            spec_varint(v).drop_first(),
        ));
    }
}

/// The encoding of `v` has at most `n` bytes when `v < 128^n`, and its
/// last byte is `v / 128^(len - 1)`.
proof fn lemma_varint_len(v: nat, n: nat)
    requires
        n >= 1,
        v < pow128(n),
    ensures
        spec_varint(v).len() <= n,
        spec_varint(v).last() as nat == v / pow128((spec_varint(v).len() - 1) as nat),
    decreases v,
{
    if v < 128 {
        assert(pow128(0) == 1);
        assert(spec_varint(v).last() == v as u8);
        assert(v / pow128(0) == v);
        assert(spec_varint(v).len() == 1);
    } else {
        assert(n >= 2) by {
            if n == 1 {
                assert(pow128(1) == 128 * pow128(0));
            }
        }
        let m = (n - 1) as nat;
        assert(pow128(n) == 128 * pow128(m));
        assert(v / 128 < pow128(m)) by (nonlinear_arith)
            requires
                v < 128 * pow128(m),
        ;
        lemma_varint_len(v / 128, m);
        let t = spec_varint(v / 128);
        assert(spec_varint(v) =~= seq![(v % 128 + 128) as u8] + t);
        let j = (t.len() - 1) as nat;
        assert(pow128(j + 1) == 128 * pow128(j));
        lemma_pow128_pos(j);
        assert((v / 128) / pow128(j) == v / (128 * pow128(j))) by {
            vstd::arithmetic::div_mod::lemma_div_denominator(v as int, 128, pow128(j) as int);
        }
        assert(spec_varint(v).last() == t.last());
        assert((spec_varint(v).len() - 1) as nat == j + 1);
        assert(t.last() as nat == (v / 128) / pow128(j));
        assert(spec_varint(v).last() as nat == v / pow128(j + 1));
    }
}

/// A varint field with a small tag and a 64-bit value takes at most 11 bytes.
pub proof fn lemma_varint_field_len(tag: nat, v: nat)
    requires
        tag < 16,
        v < u64_bound(),
    ensures
        spec_varint_field(tag, v).len() <= 11,
{
    if v != 0 {
        assert(pow128(10) == 0x40_0000_0000_0000_0000) by {
            reveal_with_fuel(pow128, 11);
        }
        lemma_varint_len(v, 10);
        assert(pow128(1) == 128) by {
            reveal_with_fuel(pow128, 2);
        }
        lemma_varint_len(tag * 8 + wire_type_code(WireType::Varint), 1);
    }
}

/// A length-delimited field with a small tag takes at most 11 bytes more
/// than its contents.
pub proof fn lemma_bytes_field_len(tag: nat, b: Seq<u8>)
    requires
        tag < 16,
        b.len() < u64_bound(),
    ensures
        spec_bytes_field(tag, b).len() <= 11 + b.len(),
{
    if b.len() != 0 {
        assert(pow128(10) == 0x40_0000_0000_0000_0000) by {
            reveal_with_fuel(pow128, 11);
        }
        lemma_varint_len(b.len(), 10);
        assert(pow128(1) == 128) by {
            reveal_with_fuel(pow128, 2);
        }
        lemma_varint_len(tag * 8 + wire_type_code(WireType::LengthDelimited), 1);
    }
}

/// Decoding the encoding of a 64-bit value gives the value back, whatever follows it.
pub proof fn lemma_varint_roundtrip(v: nat, rest: Seq<u8>)
    requires
        v < u64_bound(),
    ensures
        spec_decode_varint(spec_varint(v) + rest) == Ok::<(nat, nat), DecodeError>(
            (v, spec_varint(v).len()),
        ),
{
    let e = spec_varint(v);
    let s = e + rest;
    lemma_varint_shape(v);
    lemma_pow128_9();
    assert(pow128(10) == 128 * pow128(9));
    lemma_varint_len(v, 10);
    let n = e.len();
    assert forall|k: int| 0 <= k < n - 1 implies s[k] >= 128 by {
        assert(s[k] == e[k]);
    }
    lemma_varint_end_skip(s, 10, (n - 1) as nat);
    assert(s.skip(n - 1)[0] == e[n - 1]);
    assert(s.take(n as int) =~= e);
    lemma_varint_value_encode(v);
    if n == 10 {
        assert(s[9] == e.last());
        assert(v / pow128(9) < 2) by (nonlinear_arith)
            requires
                v < 0x1_0000_0000_0000_0000,
                pow128(9) == 0x8000_0000_0000_0000,
        ;
    }
}

// ---------------------------------------------------------------------------
// Executable varints
// ---------------------------------------------------------------------------

/// Appends the varint encoding of `v` to `out`.
pub fn encode_varint(v: u64, out: &mut Vec<u8>)
    ensures
        final(out)@ == old(out)@ + spec_varint(v as nat),
{
    let ghost start = out@;
    let mut x = v;
    while x >= 128
        invariant
            out@ + spec_varint(x as nat) == start + spec_varint(v as nat),
        decreases x,
    {
        let ghost before = out@;
        out.push((x % 128 + 128) as u8);
        assert(spec_varint(x as nat) =~= seq![(x % 128 + 128) as u8] + spec_varint((x / 128) as nat));
        assert(out@ + spec_varint((x / 128) as nat) =~= before + spec_varint(x as nat));
        x = x / 128;
    }
    out.push(x as u8);
    assert(spec_varint(x as nat) =~= seq![x as u8]);
}

/// Decodes the varint that starts at `pos`: its value and its length.
pub fn decode_varint(buf: &[u8], pos: usize) -> (res: Result<(u64, usize), DecodeError>)
    requires
        pos <= buf@.len(),
    ensures
        res matches Ok((v, n)) ==> spec_decode_varint(buf@.skip(pos as int)) == Ok::<
            (nat, nat),
            DecodeError,
        >((v as nat, n as nat)),
        res matches Ok((_v, n)) ==> 1 <= n && pos + n <= buf@.len(),
        res matches Err(e) ==> spec_decode_varint(buf@.skip(pos as int)) == Err::<
            (nat, nat),
            DecodeError,
        >(e),
{
    let ghost s = buf@.skip(pos as int);
    let mut i: usize = 0;
    let mut acc: u64 = 0;
    let mut mul: u64 = 1;
    proof {
        lemma_pow128_9();
        assert(s.take(0) =~= Seq::<u8>::empty());
    }
    while i < 10
        invariant
            pos <= buf@.len(),
            s == buf@.skip(pos as int),
            i <= 10,
            i <= s.len(),
            forall|k: int| 0 <= k < i ==> s[k] >= 128,
            acc as nat == varint_value(s.take(i as int)),
            mul as nat == pow128(i as nat),
            pow128(9) == 0x8000_0000_0000_0000,
            pow128(8) == 0x100_0000_0000_0000,
        decreases 10 - i,
    {
        proof {
            lemma_varint_value_bound(s.take(i as int));
            lemma_varint_end_skip(s, 10, i as nat);
        }
        if i >= buf.len() - pos {
            assert(s.skip(i as int).len() == 0);
            return Err(DecodeError::InvalidVarint);
        }
        let b = buf[pos + i];
        assert(b == s[i as int]);
        assert(s.skip(i as int)[0] == b);
        proof {
            assert(s.take(i + 1) =~= s.take(i as int).push(b));
            lemma_varint_value_push(s.take(i as int), b);
        }
        proof {
            if i < 9 {
                lemma_pow128_mono(i as nat, 8);
            }
        }
        if b < 128 {
            if i == 9 && b >= 2 {
                return Err(DecodeError::InvalidVarint);
            }
            assert(acc + (b as nat) * mul <= 0xFFFF_FFFF_FFFF_FFFF) by (nonlinear_arith)
                requires
                    acc < mul,
                    i <= 9,
                    b < 128,
                    i == 9 ==> b < 2,
                    i == 9 ==> mul == 0x8000_0000_0000_0000,
                    i < 9 ==> mul <= 0x100_0000_0000_0000,
            {
                if i < 9 {
                    assert((b as nat) * mul <= 127 * 0x100_0000_0000_0000);
                } else {
                    assert((b as nat) * mul <= 1 * 0x8000_0000_0000_0000);
                }
            }
            assert(low7(b) == b);
            acc = acc + (b as u64) * mul;
            return Ok((acc, i + 1));
        }
        if i == 9 {
            assert(varint_end(s.skip(9).drop_first(), 0) is None);
            assert(varint_end(s.skip(9), 1) is None);
            return Err(DecodeError::InvalidVarint);
        }
        assert(acc + ((b - 128) as nat) * mul < 128 * mul) by (nonlinear_arith)
            requires
                acc < mul,
                b >= 128,
        ;
        assert(128 * mul <= 0x8000_0000_0000_0000) by (nonlinear_arith)
            requires
                i < 9,
                mul as nat == pow128(i as nat),
                pow128(8) == 0x100_0000_0000_0000,
        {
            lemma_pow128_mono(i as nat, 8);
        }
        assert(low7(b) == b - 128);
        acc = acc + ((b - 128) as u64) * mul;
        mul = mul * 128;
        i = i + 1;
    }
    proof {
        lemma_varint_end_skip(s, 10, 10);
    }
    Err(DecodeError::InvalidVarint)
}

proof fn lemma_pow128_mono(a: nat, b: nat)
    requires
        a <= b,
    ensures
        pow128(a) <= pow128(b),
    decreases b,
{
    if a < b {
        lemma_pow128_mono(a, (b - 1) as nat);
        lemma_pow128_pos((b - 1) as nat);
    }
}


// ---------------------------------------------------------------------------
// Field keys and field values
// ---------------------------------------------------------------------------

/// Protobuf wire types.
#[derive(Clone, Copy, Debug, PartialEq, Eq, Structural)]
pub enum WireType {
    Varint,
    SixtyFourBit,
    LengthDelimited,
    StartGroup,
    EndGroup,
    ThirtyTwoBit,
}

/// The number that stands for a wire type in the low three bits of a key.
pub open spec fn wire_type_code(w: WireType) -> nat {
    match w {
        WireType::Varint => 0,
        WireType::SixtyFourBit => 1,
        WireType::LengthDelimited => 2,
        WireType::StartGroup => 3,
        WireType::EndGroup => 4,
        WireType::ThirtyTwoBit => 5,
    }
}

/// The wire type that a code below 6 stands for.
pub open spec fn wire_type_of(c: nat) -> WireType {
    if c == 0 {
        WireType::Varint
    } else if c == 1 {
        WireType::SixtyFourBit
    } else if c == 2 {
        WireType::LengthDelimited
    } else if c == 3 {
        WireType::StartGroup
    } else if c == 4 {
        WireType::EndGroup
    } else {
        WireType::ThirtyTwoBit
    }
}

/// The largest field number.
pub open spec fn max_tag() -> nat {
    0x1FFF_FFFF
}

/// Decoding of the field key at the front of `s`: field number, wire type, key length.
pub open spec fn spec_decode_key(s: Seq<u8>) -> Result<(u32, WireType, nat), DecodeError> {
    match spec_decode_varint(s) {
        Err(e) => Err(e),
        Ok((k, n)) => if k > 0xFFFF_FFFF {
            Err(DecodeError::InvalidKey)
        } else if k % 8 >= 6 {
            Err(DecodeError::InvalidWireType)
        } else if k / 8 == 0 {
            Err(DecodeError::InvalidTag)
        } else {
            Ok(((k / 8) as u32, wire_type_of(k % 8), n))
        },
    }
}

/// The encoding of the key of field `tag` with wire type `w`.
pub open spec fn spec_key(tag: nat, w: WireType) -> Seq<u8> {
    spec_varint(tag * 8 + wire_type_code(w))
}

/// How deep groups may nest in an unknown field before decoding gives up.
pub const RECURSION_LIMIT: u32 = 100;

/// The value of one field, as far as a message needs it.
pub enum FieldVal {
    Varint(nat),
    Bytes(Seq<u8>),
    Skipped,
}

/// Decoding of a field value with wire type `w` at the front of `s` (the key is
/// already consumed): the value and its length. `depth` is the remaining group
/// nesting allowance; `tag` is the field number, which a group must close with.
pub open spec fn spec_field_value(s: Seq<u8>, w: WireType, tag: u32, depth: nat) -> Result<
    (FieldVal, nat),
    DecodeError,
>
    decreases depth, s.len(), 1nat,
{
    if depth == 0 {
        Err(DecodeError::RecursionLimit)
    } else {
        match w {
            WireType::Varint => match spec_decode_varint(s) {
                Ok((v, n)) => Ok((FieldVal::Varint(v), n)),
                Err(e) => Err(e),
            },
            WireType::SixtyFourBit => if s.len() < 8 {
                Err(DecodeError::BufferUnderflow)
            } else {
                Ok((FieldVal::Skipped, 8))
            },
            WireType::ThirtyTwoBit => if s.len() < 4 {
                Err(DecodeError::BufferUnderflow)
            } else {
                Ok((FieldVal::Skipped, 4))
            },
            WireType::LengthDelimited => match spec_decode_varint(s) {
                Err(e) => Err(e),
                Ok((len, n)) => if len > s.len() - n {
                    Err(DecodeError::BufferUnderflow)
                } else {
                    Ok((FieldVal::Bytes(s.subrange(n as int, (n + len) as int)), n + len))
                },
            },
            WireType::StartGroup => match spec_skip_group(s, tag, depth) {
                Ok(m) => Ok((FieldVal::Skipped, m)),
                Err(e) => Err(e),
            },
            WireType::EndGroup => Err(DecodeError::UnexpectedEndGroup),
        }
    }
}

/// Skipping the body of group `tag` at the front of `s`, up to and including
/// its end-group key: the number of bytes skipped.
pub open spec fn spec_skip_group(s: Seq<u8>, tag: u32, depth: nat) -> Result<nat, DecodeError>
    decreases depth, s.len(), 0nat,
{
    match spec_decode_key(s) {
        Err(e) => Err(e),
        Ok((t, w, k)) => if w == WireType::EndGroup {
            if t != tag {
                Err(DecodeError::UnexpectedEndGroup)
            } else {
                Ok(k)
            }
        } else if depth == 0 {
            Err(DecodeError::RecursionLimit)
        } else {
            match spec_field_value(s.skip(k as int), w, t, (depth - 1) as nat) {
                Err(e) => Err(e),
                Ok((_v, n)) => if 0 < k + n <= s.len() {
                    match spec_skip_group(s.skip((k + n) as int), tag, depth) {
                        Ok(m) => Ok(k + n + m),
                        Err(e) => Err(e),
                    }
                } else {
                    Err(DecodeError::BufferUnderflow)
                },
            }
        },
    }
}

/// Decoding of a sequence of fields into a message: `expect` gives the wire type of
/// each known field number, `apply` stores a field value in the message.
/// Unknown fields are skipped; a known field with another wire type is an error.
#[verifier::opaque]
pub open spec fn spec_decode_fields<M>(
    s: Seq<u8>,
    m: M,
    expect: spec_fn(u32) -> Option<WireType>,
    apply: spec_fn(M, u32, FieldVal) -> Result<M, DecodeError>,
) -> Result<M, DecodeError>
    decreases s.len(),
{
    if s.len() == 0 {
        Ok(m)
    } else {
        match spec_decode_key(s) {
            Err(e) => Err(e),
            Ok((tag, w, k)) => if expect(tag) is Some && expect(tag)->0 != w {
                Err(DecodeError::WireTypeMismatch)
            } else {
                match spec_field_value(s.skip(k as int), w, tag, RECURSION_LIMIT as nat) {
                    Err(e) => Err(e),
                    Ok((v, n)) => if 0 < k + n <= s.len() {
                        match apply(m, tag, v) {
                            Err(e) => Err(e),
                            Ok(m2) => spec_decode_fields(s.skip((k + n) as int), m2, expect, apply),
                        }
                    } else {
                        Err(DecodeError::BufferUnderflow)
                    },
                }
            },
        }
    }
}

// ---------------------------------------------------------------------------
// Lemmas on fields
// ---------------------------------------------------------------------------

/// A decoded key has at least one byte.
proof fn lemma_varint_len_pos(s: Seq<u8>)
    ensures
        spec_decode_varint(s) matches Ok((_v, n)) ==> 1 <= n <= s.len(),
{
    if let Ok((_v, n)) = spec_decode_varint(s) {
        lemma_varint_end_bounds(s, 10);
    }
}

proof fn lemma_varint_end_bounds(s: Seq<u8>, budget: nat)
    ensures
        varint_end(s, budget) matches Some(n) ==> 1 <= n <= s.len() && n <= budget,
    decreases budget,
{
    if budget > 0 && s.len() > 0 && s[0] >= 128 {
        lemma_varint_end_bounds(s.drop_first(), (budget - 1) as nat);
    }
}

/// Decoding the key of field `tag` gives `tag` and the wire type back.
pub proof fn lemma_key_roundtrip(tag: nat, w: WireType, rest: Seq<u8>)
    requires
        1 <= tag <= max_tag(),
    ensures
        spec_decode_key(spec_key(tag, w) + rest) == Ok::<(u32, WireType, nat), DecodeError>(
            (tag as u32, w, spec_key(tag, w).len()),
        ),
{
    let k = tag * 8 + wire_type_code(w);
    lemma_varint_roundtrip(k, rest);
    assert(k % 8 == wire_type_code(w));
    assert(k / 8 == tag);
}

/// A varint field of a known field number stores its value and decoding goes on after it.
pub proof fn lemma_decode_varint_field<M>(
    tag: nat,
    v: nat,
    rest: Seq<u8>,
    m: M,
    expect: spec_fn(u32) -> Option<WireType>,
    apply: spec_fn(M, u32, FieldVal) -> Result<M, DecodeError>,
)
    requires
        1 <= tag <= max_tag(),
        v < u64_bound(),
        expect(tag as u32) == Some(WireType::Varint),
    ensures
        spec_decode_fields(spec_key(tag, WireType::Varint) + spec_varint(v) + rest, m, expect, apply)
            == match apply(m, tag as u32, FieldVal::Varint(v)) {
            Ok(m2) => spec_decode_fields(rest, m2, expect, apply),
            Err(e) => Err(e),
        },
{
    reveal(spec_decode_fields);
    let key = spec_key(tag, WireType::Varint);
    let val = spec_varint(v);
    let s = key + val + rest;
    assert(s =~= key + (val + rest));
    lemma_key_roundtrip(tag, WireType::Varint, val + rest);
    let k = key.len();
    assert(s.skip(k as int) =~= val + rest);
    lemma_varint_roundtrip(v, rest);
    assert(s.skip((k + val.len()) as int) =~= rest);
    lemma_varint_shape(tag * 8 + wire_type_code(WireType::Varint));
}

/// A length-delimited field of a known field number stores its bytes and decoding
/// goes on after it.
pub proof fn lemma_decode_bytes_field<M>(
    tag: nat,
    b: Seq<u8>,
    rest: Seq<u8>,
    m: M,
    expect: spec_fn(u32) -> Option<WireType>,
    apply: spec_fn(M, u32, FieldVal) -> Result<M, DecodeError>,
)
    requires
        1 <= tag <= max_tag(),
        b.len() < u64_bound(),
        expect(tag as u32) == Some(WireType::LengthDelimited),
    ensures
        spec_decode_fields(
            spec_key(tag, WireType::LengthDelimited) + spec_varint(b.len()) + b + rest,
            m,
            expect,
            apply,
        ) == match apply(m, tag as u32, FieldVal::Bytes(b)) {
            Ok(m2) => spec_decode_fields(rest, m2, expect, apply),
            Err(e) => Err(e),
        },
{
    reveal(spec_decode_fields);
    let key = spec_key(tag, WireType::LengthDelimited);
    let len = spec_varint(b.len());
    let s = key + len + b + rest;
    assert(s =~= key + (len + (b + rest)));
    lemma_key_roundtrip(tag, WireType::LengthDelimited, len + (b + rest));
    let k = key.len();
    let t = s.skip(k as int);
    assert(t =~= len + (b + rest));
    lemma_varint_roundtrip(b.len(), b + rest);
    assert(t.subrange(len.len() as int, (len.len() + b.len()) as int) =~= b);
    assert(s.skip((k + len.len() + b.len()) as int) =~= rest);
    lemma_varint_shape(tag * 8 + wire_type_code(WireType::LengthDelimited));
}

/// Decoding fields ends at the end of the input.
pub proof fn lemma_decode_fields_end<M>(
    s: Seq<u8>,
    m: M,
    expect: spec_fn(u32) -> Option<WireType>,
    apply: spec_fn(M, u32, FieldVal) -> Result<M, DecodeError>,
)
    requires
        s.len() == 0,
    ensures
        spec_decode_fields(s, m, expect, apply) == Ok::<M, DecodeError>(m),
{
    reveal(spec_decode_fields);
}

/// One step of decoding fields: what the first field gives.
pub proof fn lemma_decode_fields_step<M>(
    s: Seq<u8>,
    m: M,
    expect: spec_fn(u32) -> Option<WireType>,
    apply: spec_fn(M, u32, FieldVal) -> Result<M, DecodeError>,
)
    requires
        s.len() > 0,
    ensures
        spec_decode_key(s) matches Err(e) ==> spec_decode_fields(s, m, expect, apply) == Err::<
            M,
            DecodeError,
        >(e),
        spec_decode_key(s) matches Ok((tag, w, k)) ==> {
            &&& (expect(tag) is Some && expect(tag)->0 != w) ==> spec_decode_fields(
                s,
                m,
                expect,
                apply,
            ) == Err::<M, DecodeError>(DecodeError::WireTypeMismatch)
            &&& !(expect(tag) is Some && expect(tag)->0 != w) ==> {
                &&& spec_field_value(s.skip(k as int), w, tag, RECURSION_LIMIT as nat) matches Err(
                    e,
                ) ==> spec_decode_fields(s, m, expect, apply) == Err::<M, DecodeError>(e)
                &&& spec_field_value(s.skip(k as int), w, tag, RECURSION_LIMIT as nat) matches Ok(
                    (v, n),
                ) ==> (0 < k + n <= s.len() ==> {
                    &&& apply(m, tag, v) matches Err(e) ==> spec_decode_fields(s, m, expect, apply)
                        == Err::<M, DecodeError>(e)
                    &&& apply(m, tag, v) matches Ok(m2) ==> spec_decode_fields(s, m, expect, apply)
                        == spec_decode_fields(s.skip((k + n) as int), m2, expect, apply)
                })
            }
        },
{
    reveal(spec_decode_fields);
}

// ---------------------------------------------------------------------------
// Executable keys and field values
// ---------------------------------------------------------------------------

/// The value of one decoded field; a length-delimited value is given by its
/// start and end position in the input.
#[derive(Clone, Copy, Debug, PartialEq, Eq, Structural)]
pub enum FieldValue {
    Varint(u64),
    Bytes(usize, usize),
    Skipped,
}

/// The meaning of a decoded field value in the input `buf`.
pub open spec fn field_value_view(v: FieldValue, buf: Seq<u8>) -> FieldVal {
    match v {
        FieldValue::Varint(x) => FieldVal::Varint(x as nat),
        FieldValue::Bytes(a, b) => FieldVal::Bytes(buf.subrange(a as int, b as int)),
        FieldValue::Skipped => FieldVal::Skipped,
    }
}

/// Appends the key of field `tag` with wire type `w`.
pub fn encode_key(tag: u32, w: WireType, out: &mut Vec<u8>)
    requires
        tag <= max_tag(),
    ensures
        final(out)@ == old(out)@ + spec_key(tag as nat, w),
{
    let code: u64 = match w {
        WireType::Varint => 0,
        WireType::SixtyFourBit => 1,
        WireType::LengthDelimited => 2,
        WireType::StartGroup => 3,
        WireType::EndGroup => 4,
        WireType::ThirtyTwoBit => 5,
    };
    encode_varint((tag as u64) * 8 + code, out);
}

/// Decodes the field key that starts at `pos`.
pub fn decode_key(buf: &[u8], pos: usize) -> (res: Result<(u32, WireType, usize), DecodeError>)
    requires
        pos <= buf@.len(),
    ensures
        res matches Ok((t, w, n)) ==> spec_decode_key(buf@.skip(pos as int)) == Ok::<
            (u32, WireType, nat),
            DecodeError,
        >((t, w, n as nat)),
        res matches Ok((_t, _w, n)) ==> 1 <= n && pos + n <= buf@.len(),
        res matches Err(e) ==> spec_decode_key(buf@.skip(pos as int)) == Err::<
            (u32, WireType, nat),
            DecodeError,
        >(e),
{
    let (k, n) = decode_varint(buf, pos)?;
    if k > 0xFFFF_FFFF {
        return Err(DecodeError::InvalidKey);
    }
    let c = k % 8;
    let w = if c == 0 {
        WireType::Varint
    } else if c == 1 {
        WireType::SixtyFourBit
    } else if c == 2 {
        WireType::LengthDelimited
    } else if c == 3 {
        WireType::StartGroup
    } else if c == 4 {
        WireType::EndGroup
    } else if c == 5 {
        WireType::ThirtyTwoBit
    } else {
        return Err(DecodeError::InvalidWireType);
    };
    if k / 8 == 0 {
        return Err(DecodeError::InvalidTag);
    }
    Ok(((k / 8) as u32, w, n))
}

/// The outcome of skipping from a later position, seen from an earlier one.
pub open spec fn shift_len(r: Result<nat, DecodeError>, d: nat) -> Result<nat, DecodeError> {
    match r {
        Ok(m) => Ok(m + d),
        Err(e) => Err(e),
    }
}

/// Decodes the field value with wire type `w` that starts at `pos`.
pub fn decode_field_value(buf: &[u8], pos: usize, w: WireType, tag: u32, depth: u32) -> (res: Result<
    (FieldValue, usize),
    DecodeError,
>)
    requires
        pos <= buf@.len(),
    ensures
        res matches Ok((v, n)) ==> {
            &&& spec_field_value(buf@.skip(pos as int), w, tag, depth as nat) == Ok::<
                (FieldVal, nat),
                DecodeError,
            >((field_value_view(v, buf@), n as nat))
            &&& pos + n <= buf@.len()
            &&& v matches FieldValue::Bytes(a, b) ==> a <= b <= buf@.len()
        },
        res matches Err(e) ==> spec_field_value(buf@.skip(pos as int), w, tag, depth as nat)
            == Err::<(FieldVal, nat), DecodeError>(e),
    decreases depth, 1nat,
{
    let ghost s = buf@.skip(pos as int);
    if depth == 0 {
        return Err(DecodeError::RecursionLimit);
    }
    match w {
        WireType::Varint => {
            let (v, n) = decode_varint(buf, pos)?;
            proof {
                lemma_varint_len_pos(s);
            }
            Ok((FieldValue::Varint(v), n))
        },
        WireType::SixtyFourBit => {
            if buf.len() - pos < 8 {
                Err(DecodeError::BufferUnderflow)
            } else {
                Ok((FieldValue::Skipped, 8))
            }
        },
        WireType::ThirtyTwoBit => {
            if buf.len() - pos < 4 {
                Err(DecodeError::BufferUnderflow)
            } else {
                Ok((FieldValue::Skipped, 4))
            }
        },
        WireType::LengthDelimited => {
            let (len, n) = decode_varint(buf, pos)?;
            proof {
                lemma_varint_len_pos(s);
            }
            if len > (buf.len() - pos - n) as u64 {
                Err(DecodeError::BufferUnderflow)
            } else {
                let start = pos + n;
                let end = start + len as usize;
                assert(s.subrange(n as int, (n + len) as int) =~= buf@.subrange(
                    start as int,
                    end as int,
                ));
                Ok((FieldValue::Bytes(start, end), n + len as usize))
            }
        },
        WireType::StartGroup => {
            let m = skip_group(buf, pos, tag, depth)?;
            Ok((FieldValue::Skipped, m))
        },
        WireType::EndGroup => Err(DecodeError::UnexpectedEndGroup),
    }
}

/// Skips the body of group `tag` that starts at `pos`, up to and including its
/// end-group key; returns the number of bytes skipped.
pub fn skip_group(buf: &[u8], pos: usize, tag: u32, depth: u32) -> (res: Result<usize, DecodeError>)
    requires
        pos <= buf@.len(),
    ensures
        res matches Ok(m) ==> spec_skip_group(buf@.skip(pos as int), tag, depth as nat) == Ok::<
            nat,
            DecodeError,
        >(m as nat) && pos + m <= buf@.len(),
        res matches Err(e) ==> spec_skip_group(buf@.skip(pos as int), tag, depth as nat) == Err::<
            nat,
            DecodeError,
        >(e),
    decreases depth, 0nat,
{
    let mut p = pos;
    let total = buf.len();
    loop
        invariant
            pos <= p <= buf@.len(),
            total == buf@.len(),
            spec_skip_group(buf@.skip(pos as int), tag, depth as nat) == shift_len(
                spec_skip_group(buf@.skip(p as int), tag, depth as nat),
                (p - pos) as nat,
            ),
        decreases buf@.len() - p,
    {
        let ghost s = buf@.skip(p as int);
        let (t, w, k) = match decode_key(buf, p) {
            Ok(r) => r,
            Err(e) => return Err(e),
        };
        if w == WireType::EndGroup {
            if t != tag {
                return Err(DecodeError::UnexpectedEndGroup);
            }
            return Ok(p + k - pos);
        }
        if depth == 0 {
            return Err(DecodeError::RecursionLimit);
        }
        assert(s.skip(k as int) =~= buf@.skip((p + k) as int));
        let (_v, n) = match decode_field_value(buf, p + k, w, t, depth - 1) {
            Ok(r) => r,
            Err(e) => return Err(e),
        };
        assert(s.skip((k + n) as int) =~= buf@.skip((p + k + n) as int));
        p = p + k + n;
    }
}


// ---------------------------------------------------------------------------
// Scalar and length-delimited fields (proto3: a field with its default value is
// not written)
// ---------------------------------------------------------------------------

/// A varint field: nothing when the value is 0, else its key and its varint.
pub open spec fn spec_varint_field(tag: nat, v: nat) -> Seq<u8> {
    if v == 0 {
        Seq::empty()
    } else {
        spec_key(tag, WireType::Varint) + spec_varint(v)
    }
}

/// A length-delimited field: nothing when empty, else its key, its length and its bytes.
pub open spec fn spec_bytes_field(tag: nat, b: Seq<u8>) -> Seq<u8> {
    if b.len() == 0 {
        Seq::empty()
    } else {
        spec_key(tag, WireType::LengthDelimited) + spec_varint(b.len()) + b
    }
}

/// The varint that stands for an `int32` value: negative values are sign-extended to 64 bits.
pub open spec fn i32_wire(v: i32) -> nat {
    if v >= 0 {
        v as nat
    } else {
        (v + u64_bound()) as nat
    }
}

/// An `int32` field read from a varint: the low 32 bits, as two's complement.
pub open spec fn trunc_i32(x: nat) -> i32 {
    let t = x % 0x1_0000_0000;
    if t < 0x8000_0000 {
        t as i32
    } else {
        (t - 0x1_0000_0000) as i32
    }
}

/// A `uint32` field read from a varint: the low 32 bits.
pub open spec fn trunc_u32(x: nat) -> u32 {
    (x % 0x1_0000_0000) as u32
}

/// A `uint64` field read from a varint.
pub open spec fn trunc_u64(x: nat) -> u64 {
    (x % u64_bound()) as u64
}

/// Appends a varint field.
pub fn encode_varint_field(tag: u32, v: u64, out: &mut Vec<u8>)
    requires
        1 <= tag <= max_tag(),
    ensures
        final(out)@ == old(out)@ + spec_varint_field(tag as nat, v as nat),
{
    if v != 0 {
        let ghost start = out@;
        encode_key(tag, WireType::Varint, out);
        encode_varint(v, out);
        assert(out@ =~= start + spec_varint_field(tag as nat, v as nat));
    } else {
        assert(out@ =~= out@ + spec_varint_field(tag as nat, v as nat));
    }
}

/// Appends a length-delimited field.
pub fn encode_bytes_field(tag: u32, b: &[u8], out: &mut Vec<u8>)
    requires
        1 <= tag <= max_tag(),
    ensures
        final(out)@ == old(out)@ + spec_bytes_field(tag as nat, b@),
{
    let ghost start = out@;
    if b.len() != 0 {
        encode_key(tag, WireType::LengthDelimited, out);
        encode_varint(b.len() as u64, out);
        let mut i: usize = 0;
        let ghost mid = out@;
        while i < b.len()
            invariant
                i <= b@.len(),
                out@ == mid + b@.take(i as int),
            decreases b@.len() - i,
        {
            out.push(b[i]);
            assert(b@.take(i + 1) =~= b@.take(i as int).push(b@[i as int]));
            i = i + 1;
        }
        assert(b@.take(b@.len() as int) =~= b@);
        assert(out@ =~= start + spec_bytes_field(tag as nat, b@));
    } else {
        assert(out@ =~= start + spec_bytes_field(tag as nat, b@));
    }
}

/// The varint of an `int32` value.
pub fn i32_to_wire(v: i32) -> (r: u64)
    ensures
        r as nat == i32_wire(v),
{
    if v >= 0 {
        v as u64
    } else {
        let m: u64 = (-(v as i64) - 1) as u64;
        0xFFFF_FFFF_FFFF_FFFF - m
    }
}

/// An `int32` value read from a varint.
pub fn wire_to_i32(x: u64) -> (r: i32)
    ensures
        r == trunc_i32(x as nat),
{
    let t: u64 = x % 0x1_0000_0000;
    if t < 0x8000_0000 {
        t as i32
    } else {
        (t as i64 - 0x1_0000_0000) as i32
    }
}

/// A `uint32` value read from a varint.
pub fn wire_to_u32(x: u64) -> (r: u32)
    ensures
        r == trunc_u32(x as nat),
{
    (x % 0x1_0000_0000) as u32
}

/// The bytes `buf[a..b]`.
pub fn copy_range(buf: &[u8], a: usize, b: usize) -> (r: Vec<u8>)
    requires
        a <= b <= buf@.len(),
    ensures
        r@ == buf@.subrange(a as int, b as int),
{
    let mut r: Vec<u8> = Vec::new();
    let mut i = a;
    while i < b
        invariant
            a <= i <= b,
            b <= buf@.len(),
            r@ == buf@.subrange(a as int, i as int),
        decreases b - i,
    {
        r.push(buf[i]);
        assert(buf@.subrange(a as int, i + 1) =~= buf@.subrange(a as int, i as int).push(
            buf@[i as int],
        ));
        i = i + 1;
    }
    r
}

/// Decoding the `int32` varint of `v` gives `v` back.
pub proof fn lemma_i32_roundtrip(v: i32)
    ensures
        i32_wire(v) < u64_bound(),
        trunc_i32(i32_wire(v)) == v,
{
    if v < 0 {
        let x = (v + u64_bound()) as nat;
        assert(x % 0x1_0000_0000 == v + 0x1_0000_0000) by {
            assert(x == (v + 0x1_0000_0000) + 0xFFFF_FFFF * 0x1_0000_0000);
            vstd::arithmetic::div_mod::lemma_mod_multiples_vanish(
                0xFFFF_FFFF,
                v + 0x1_0000_0000,
                0x1_0000_0000,
            );
            vstd::arithmetic::div_mod::lemma_small_mod(
                (v + 0x1_0000_0000) as nat,
                0x1_0000_0000,
            );
        }
    }
}

/// A varint field that may be absent (value 0) stores its value, and decoding
/// goes on after it.
pub proof fn lemma_decode_opt_varint_field<M>(
    tag: nat,
    v: nat,
    rest: Seq<u8>,
    m: M,
    expect: spec_fn(u32) -> Option<WireType>,
    apply: spec_fn(M, u32, FieldVal) -> Result<M, DecodeError>,
)
    requires
        1 <= tag <= max_tag(),
        v < u64_bound(),
        expect(tag as u32) == Some(WireType::Varint),
    ensures
        spec_decode_fields(spec_varint_field(tag, v) + rest, m, expect, apply) == if v == 0 {
            spec_decode_fields(rest, m, expect, apply)
        } else {
            match apply(m, tag as u32, FieldVal::Varint(v)) {
                Ok(m2) => spec_decode_fields(rest, m2, expect, apply),
                Err(e) => Err(e),
            }
        },
{
    if v == 0 {
        assert(spec_varint_field(tag, v) + rest =~= rest);
    } else {
        lemma_decode_varint_field(tag, v, rest, m, expect, apply);
    }
}

/// A length-delimited field that may be absent (empty) stores its bytes, and
/// decoding goes on after it.
pub proof fn lemma_decode_opt_bytes_field<M>(
    tag: nat,
    b: Seq<u8>,
    rest: Seq<u8>,
    m: M,
    expect: spec_fn(u32) -> Option<WireType>,
    apply: spec_fn(M, u32, FieldVal) -> Result<M, DecodeError>,
)
    requires
        1 <= tag <= max_tag(),
        b.len() < u64_bound(),
        expect(tag as u32) == Some(WireType::LengthDelimited),
    ensures
        spec_decode_fields(spec_bytes_field(tag, b) + rest, m, expect, apply) == if b.len() == 0 {
            spec_decode_fields(rest, m, expect, apply)
        } else {
            match apply(m, tag as u32, FieldVal::Bytes(b)) {
                Ok(m2) => spec_decode_fields(rest, m2, expect, apply),
                Err(e) => Err(e),
            }
        },
{
    if b.len() == 0 {
        assert(spec_bytes_field(tag, b) + rest =~= rest);
    } else {
        lemma_decode_bytes_field(tag, b, rest, m, expect, apply);
    }
}

} // verus!
