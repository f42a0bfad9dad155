//! Protocol Buffers wire encoding: varints, field keys and raw fields.
//!
//! A message on the wire is a sequence of fields. Each field starts with a
//! key, the varint `tag * 8 + wire type`, followed by a payload whose shape
//! the wire type gives. This module states that format as spec functions,
//! proves that what is written reads back, and reads and writes fields with
//! the primitives of the `prost` crate. Groups, which no message of the API
//! has, are skipped as `prost` skips them: each level of nesting uses up one
//! level of the allowance that a decode starts with.
use prost::DecodeError;
use vstd::prelude::*;

verus! {

/// The largest field number the wire format allows.
pub const MAX_TAG: u32 = 536870911;

/// The LEB128 encoding of `v`: seven bits per byte, least significant group
/// first, high bit set on every byte but the last.
pub open spec fn varint_bytes(v: nat) -> Seq<u8>
    decreases v,
{
    if v < 128 {
        seq![v as u8]
    } else {
        seq![(v % 128 + 128) as u8] + varint_bytes(v / 128)
    }
}

/// Reads a varint from the front of `s`, where `k` bytes of it have already
/// been read: at most ten bytes in all, and the tenth may only be 0 or 1 (a
/// larger value would not fit in 64 bits). Gives the value and the number of
/// bytes read from `s`.
pub open spec fn varint_parse_from(s: Seq<u8>, k: nat) -> Option<(int, nat)>
    decreases 10 - k,
{
    if k >= 10 || s.len() == 0 {
        None
    } else if s[0] < 128 {
        if k == 9 && s[0] >= 2 {
            None
        } else {
            Some((s[0] as int, 1))
        }
    } else {
        match varint_parse_from(s.drop_first(), k + 1) {
            Some((v, n)) => Some((s[0] - 128 + 128 * v, n + 1)),
            None => None,
        }
    }
}

/// The varint at the front of `s`, with the number of bytes it takes.
pub open spec fn varint_parse(s: Seq<u8>) -> Option<(int, nat)> {
    varint_parse_from(s, 0)
}

/// The bound below which a varint read from position `k` on stays.
pub open spec fn varint_bound(k: nat) -> int
    decreases 9 - k,
{
    if k >= 9 {
        2
    } else {
        128 * varint_bound(k + 1)
    }
}

pub proof fn lemma_varint_bound_zero()
    ensures
        varint_bound(0) == 0x1_0000_0000_0000_0000,
{
    reveal_with_fuel(varint_bound, 10);
}

proof fn lemma_varint_parse_from_bytes(v: nat, k: nat, rest: Seq<u8>)
    requires
        k <= 9,
        v < varint_bound(k),
    ensures
        varint_parse_from(varint_bytes(v) + rest, k) == Some((v as int, varint_bytes(v).len())),
        1 <= varint_bytes(v).len() <= 10 - k,
    decreases v,
{
    let s = varint_bytes(v) + rest;
    if v < 128 {
        assert(s[0] == v as u8);
    } else {
        if k == 9 {
            assert(varint_bound(9) == 2);
        }
        assert(k < 9);
        assert(varint_bound(k) == 128 * varint_bound(k + 1));
        assert(v / 128 < varint_bound(k + 1));
        lemma_varint_parse_from_bytes(v / 128, k + 1, rest);
        assert(s[0] == (v % 128 + 128) as u8);
        assert(s.drop_first() =~= varint_bytes(v / 128) + rest);
        assert(v == v % 128 + 128 * (v / 128));
    }
}

/// A varint written with `varint_bytes` reads back, whatever follows it.
pub proof fn lemma_varint_roundtrip(v: nat, rest: Seq<u8>)
    requires
        v < 0x1_0000_0000_0000_0000,
    ensures
        varint_parse(varint_bytes(v) + rest) == Some((v as int, varint_bytes(v).len())),
        1 <= varint_bytes(v).len() <= 10,
{
    lemma_varint_bound_zero();
    lemma_varint_parse_from_bytes(v, 0, rest);
}

proof fn lemma_varint_parse_from_len(s: Seq<u8>, k: nat)
    ensures
        varint_parse_from(s, k) matches Some((v, n)) ==> 1 <= n <= s.len() && 0 <= v
            < varint_bound(k),
    decreases 10 - k,
{
    if k < 10 && s.len() > 0 && s[0] >= 128 {
        lemma_varint_parse_from_len(s.drop_first(), k + 1);
        if k < 9 {
            assert(varint_bound(k) == 128 * varint_bound(k + 1));
        }
    }
    if k <= 9 && varint_bound(k) < 2 {
        lemma_varint_bound_ge_two(k);
    }
}

proof fn lemma_varint_bound_ge_two(k: nat)
    ensures
        varint_bound(k) >= 2,
    decreases 9 - k,
{
    if k < 9 {
        lemma_varint_bound_ge_two(k + 1);
    }
}

/// A varint read from `s` takes between one byte and all of `s`, and its
/// value fits in 64 bits.
pub proof fn lemma_varint_parse_len(s: Seq<u8>)
    ensures
        varint_parse(s) matches Some((v, n)) ==> 1 <= n <= s.len() && 0 <= v
            < 0x1_0000_0000_0000_0000,
{
    lemma_varint_parse_from_len(s, 0);
    lemma_varint_bound_zero();
}


/// The wire types of the format, in the order of their codes (0 to 5).
#[derive(Clone, Copy, Debug, PartialEq, Eq, Structural)]
pub enum WireKind {
    Varint,
    SixtyFourBit,
    LengthDelimited,
    StartGroup,
    EndGroup,
    ThirtyTwoBit,
}

/// The code of a wire type, as it stands in the low three bits of a key.
pub open spec fn wire_code(w: WireKind) -> nat {
    match w {
        WireKind::Varint => 0,
        WireKind::SixtyFourBit => 1,
        WireKind::LengthDelimited => 2,
        WireKind::StartGroup => 3,
        WireKind::EndGroup => 4,
        WireKind::ThirtyTwoBit => 5,
    }
}

/// The wire type with code `c`, for `c` from 0 to 5.
pub open spec fn wire_of_code(c: int) -> WireKind {
    if c == 0 {
        WireKind::Varint
    } else if c == 1 {
        WireKind::SixtyFourBit
    } else if c == 2 {
        WireKind::LengthDelimited
    } else if c == 3 {
        WireKind::StartGroup
    } else if c == 4 {
        WireKind::EndGroup
    } else {
        WireKind::ThirtyTwoBit
    }
}

/// The key of a field: the varint `tag * 8 + code`.
pub open spec fn key_bytes(tag: u32, w: WireKind) -> Seq<u8> {
    varint_bytes((tag * 8 + wire_code(w)) as nat)
}

/// Reads a key: a varint that fits in 32 bits, whose low three bits name one
/// of the six wire types and whose tag, the rest, is at least 1.
pub open spec fn key_parse(s: Seq<u8>) -> Option<(u32, WireKind, nat)> {
    match varint_parse(s) {
        Some((key, n)) => if key > 0xffff_ffff || key % 8 > 5 || key / 8 < 1 {
            None
        } else {
            Some(((key / 8) as u32, wire_of_code(key % 8), n))
        },
        None => None,
    }
}

/// A key written with `key_bytes` reads back.
pub proof fn lemma_key_roundtrip(tag: u32, w: WireKind, rest: Seq<u8>)
    requires
        1 <= tag <= MAX_TAG,
    ensures
        key_parse(key_bytes(tag, w) + rest) == Some((tag, w, key_bytes(tag, w).len())),
        1 <= key_bytes(tag, w).len(),
{
    let key = (tag * 8 + wire_code(w)) as nat;
    lemma_varint_roundtrip(key, rest);
    assert(key % 8 == wire_code(w));
    assert(key / 8 == tag);
}

/// The little-endian value of a byte sequence.
pub open spec fn le_value(s: Seq<u8>) -> int
    decreases s.len(),
{
    if s.len() == 0 {
        0
    } else {
        s[0] + 256 * le_value(s.drop_first())
    }
}

/// The payload of a field as read from the wire.
pub enum RawData {
    Varint(u64),
    Fixed64(u64),
    Bytes(Seq<u8>),
    Fixed32(u32),
    /// A group, which is skipped: its content is not kept.
    Group,
}

/// A field as read from the wire: its tag and payload.
pub struct RawField {
    pub tag: u32,
    pub data: RawData,
}

/// How many bytes `prost` skips for a payload of wire type `w` at the front
/// of `r`, for a field with tag `tag`, where `depth` is what is left of the
/// nesting allowance: none at all stops the skip, and the fields inside a
/// group are skipped with one level less. `None` where the payload is
/// malformed, runs past the end of `r`, or nests too deep.
pub open spec fn skip_len(tag: u32, w: WireKind, r: Seq<u8>, depth: nat) -> Option<nat>
    decreases r.len(), 1nat,
{
    if depth == 0 {
        None
    } else {
        match w {
            WireKind::Varint => match varint_parse(r) {
                Some((_, m)) => Some(m),
                None => None,
            },
            WireKind::SixtyFourBit => if r.len() >= 8 {
                Some(8)
            } else {
                None
            },
            WireKind::LengthDelimited => match varint_parse(r) {
                Some((len, m)) => if len <= r.len() - m {
                    Some((m + len) as nat)
                } else {
                    None
                },
                None => None,
            },
            WireKind::StartGroup => group_len(tag, r, (depth - 1) as nat),
            WireKind::EndGroup => None,
            WireKind::ThirtyTwoBit => if r.len() >= 4 {
                Some(4)
            } else {
                None
            },
        }
    }
}

/// How many bytes the rest of a group with tag `tag` takes at the front of
/// `r`: fields, each skipped with allowance `depth`, up to and including an
/// end key with the group's own tag. `None` where an end key has another tag
/// or a field does not skip.
pub open spec fn group_len(tag: u32, r: Seq<u8>, depth: nat) -> Option<nat>
    decreases r.len(), 0nat,
{
    match key_parse(r) {
        Some((t, w, n)) => if w == WireKind::EndGroup {
            if t == tag {
                Some(n)
            } else {
                None
            }
        } else {
            proof {
                lemma_varint_parse_len(r);
            }
            let r1 = r.skip(n as int);
            match skip_len(t, w, r1, depth) {
                Some(m) => if m <= r1.len() {
                    match group_len(tag, r1.skip(m as int), depth) {
                        Some(k) => Some(n + m + k),
                        None => None,
                    }
                } else {
                    None
                },
                None => None,
            }
        },
        None => None,
    }
}

/// A skipped payload lies within what it is skipped from.
pub proof fn lemma_skip_len_bound(tag: u32, w: WireKind, r: Seq<u8>, depth: nat)
    ensures
        skip_len(tag, w, r, depth) matches Some(m) ==> m <= r.len(),
    decreases r.len(), 1nat,
{
    lemma_varint_parse_len(r);
    if depth > 0 && w == WireKind::StartGroup {
        lemma_group_len_bound(tag, r, (depth - 1) as nat);
    }
}

/// The rest of a group takes at least its end key and no more than `r` has.
pub proof fn lemma_group_len_bound(tag: u32, r: Seq<u8>, depth: nat)
    ensures
        group_len(tag, r, depth) matches Some(k) ==> 1 <= k <= r.len(),
    decreases r.len(), 0nat,
{
    lemma_varint_parse_len(r);
    if let Some((t, w, n)) = key_parse(r) {
        if w != WireKind::EndGroup {
            let r1 = r.skip(n as int);
            if let Some(m) = skip_len(t, w, r1, depth) {
                if m <= r1.len() {
                    lemma_group_len_bound(tag, r1.skip(m as int), depth);
                }
            }
        }
    }
}

/// Reads the payload of a field of wire type `w` from the front of `r`. A
/// group is skipped as `prost` skips an unknown field, with allowance `depth`.
pub open spec fn payload_parse(tag: u32, w: WireKind, r: Seq<u8>, depth: nat) -> Option<(RawData, nat)> {
    match w {
        WireKind::Varint => match varint_parse(r) {
            Some((v, m)) => Some((RawData::Varint(v as u64), m)),
            None => None,
        },
        WireKind::SixtyFourBit => if r.len() >= 8 {
            Some((RawData::Fixed64(le_value(r.take(8)) as u64), 8))
        } else {
            None
        },
        WireKind::LengthDelimited => match varint_parse(r) {
            Some((len, m)) => if len <= r.len() - m {
                Some((RawData::Bytes(r.subrange(m as int, m + len)), (m + len) as nat))
            } else {
                None
            },
            None => None,
        },
        WireKind::StartGroup => match skip_len(tag, w, r, depth) {
            Some(m) => Some((RawData::Group, m)),
            None => None,
        },
        WireKind::EndGroup => None,
        WireKind::ThirtyTwoBit => if r.len() >= 4 {
            Some((RawData::Fixed32(le_value(r.take(4)) as u32), 4))
        } else {
            None
        },
    }
}

/// Reads one field from the front of `s`: its key, then its payload, a
/// group skipped with allowance `depth`.
pub open spec fn field_parse(s: Seq<u8>, depth: nat) -> Option<(RawField, nat)> {
    match key_parse(s) {
        Some((tag, w, n)) => match payload_parse(tag, w, s.skip(n as int), depth) {
            Some((d, m)) => Some((RawField { tag, data: d }, n + m)),
            None => None,
        },
        None => None,
    }
}

/// A field read from `s` takes at least one byte and no more than `s` has.
pub proof fn lemma_field_parse_len(s: Seq<u8>, depth: nat)
    ensures
        field_parse(s, depth) matches Some((f, n)) ==> 1 <= n <= s.len(),
{
    lemma_varint_parse_len(s);
    if let Some((tag, w, n)) = key_parse(s) {
        let r = s.skip(n as int);
        lemma_varint_parse_len(r);
        lemma_skip_len_bound(tag, w, r, depth);
    }
}

/// The wire type that a payload is written with.
pub open spec fn data_kind(d: RawData) -> WireKind {
    match d {
        RawData::Varint(_) => WireKind::Varint,
        RawData::Fixed64(_) => WireKind::SixtyFourBit,
        RawData::Bytes(_) => WireKind::LengthDelimited,
        RawData::Fixed32(_) => WireKind::ThirtyTwoBit,
        RawData::Group => WireKind::StartGroup,
    }
}

/// The four little-endian bytes of `v`.
pub open spec fn le32_bytes(v: u32) -> Seq<u8> {
    seq![(v % 256) as u8, ((v / 256) % 256) as u8, ((v / 0x1_0000) % 256) as u8, (v / 0x100_0000) as u8]
}

/// The four little-endian bytes of `v` read back as `v`.
pub proof fn lemma_le32_roundtrip(v: u32)
    ensures
        le_value(le32_bytes(v)) == v,
{
    let b = le32_bytes(v);
    reveal_with_fuel(le_value, 5);
    assert(b.drop_first().drop_first().drop_first().drop_first() =~= Seq::<u8>::empty());
    assert(b.drop_first().drop_first().drop_first() =~= seq![(v / 0x100_0000) as u8]);
    assert(b.drop_first().drop_first() =~= seq![((v / 0x1_0000) % 256) as u8, (v / 0x100_0000) as u8]);
    assert(b.drop_first() =~= seq![((v / 256) % 256) as u8, ((v / 0x1_0000) % 256) as u8, (v / 0x100_0000) as u8]);
    assert(v == v % 256 + 256 * ((v / 256) % 256 + 256 * ((v / 0x1_0000) % 256 + 256 * (v / 0x100_0000)))) by (nonlinear_arith);
}

/// The bytes of a varint, length-delimited or 32-bit payload.
pub open spec fn data_bytes(d: RawData) -> Seq<u8> {
    match d {
        RawData::Varint(v) => varint_bytes(v as nat),
        RawData::Bytes(b) => varint_bytes(b.len()) + b,
        RawData::Fixed32(v) => le32_bytes(v),
        _ => Seq::empty(),
    }
}

/// The fields that this library writes: a tag in range and a varint,
/// length-delimited or 32-bit payload.
pub open spec fn field_wf(f: RawField) -> bool {
    &&& 1 <= f.tag <= MAX_TAG
    &&& match f.data {
        RawData::Varint(_) => true,
        RawData::Bytes(b) => b.len() < 0x1_0000_0000_0000_0000,
        RawData::Fixed32(_) => true,
        _ => false,
    }
}

/// The bytes of one field.
pub open spec fn field_bytes(f: RawField) -> Seq<u8> {
    key_bytes(f.tag, data_kind(f.data)) + data_bytes(f.data)
}

/// A field written with `field_bytes` reads back, whatever follows it and
/// whatever the allowance.
pub proof fn lemma_field_roundtrip(f: RawField, rest: Seq<u8>, depth: nat)
    requires
        field_wf(f),
    ensures
        field_parse(field_bytes(f) + rest, depth) == Some((f, field_bytes(f).len())),
{
    let k = key_bytes(f.tag, data_kind(f.data));
    let p = data_bytes(f.data);
    let s = field_bytes(f) + rest;
    assert(s =~= k + (p + rest));
    lemma_key_roundtrip(f.tag, data_kind(f.data), p + rest);
    assert(s.skip(k.len() as int) =~= p + rest);
    match f.data {
        RawData::Varint(v) => {
            lemma_varint_roundtrip(v as nat, rest);
        },
        RawData::Bytes(b) => {
            let vb = varint_bytes(b.len());
            assert(p + rest =~= vb + (b + rest));
            lemma_varint_roundtrip(b.len(), b + rest);
            assert((p + rest).subrange(vb.len() as int, (vb.len() + b.len()) as int) =~= b);
        },
        RawData::Fixed32(v) => {
            assert((p + rest).take(4) =~= le32_bytes(v));
            lemma_le32_roundtrip(v);
        },
        _ => {},
    }
}

/// The payload of a field as this library holds it.
pub enum FieldData {
    Varint(u64),
    Fixed64(u64),
    Bytes(Vec<u8>),
    Fixed32(u32),
    Group,
}

/// A field read from a buffer.
pub struct Field {
    pub tag: u32,
    pub data: FieldData,
}

impl View for Field {
    type V = RawField;

    open spec fn view(&self) -> RawField {
        RawField {
            tag: self.tag,
            data: match self.data {
                FieldData::Varint(v) => RawData::Varint(v),
                FieldData::Fixed64(v) => RawData::Fixed64(v),
                FieldData::Bytes(b) => RawData::Bytes(b@),
                FieldData::Fixed32(v) => RawData::Fixed32(v),
                FieldData::Group => RawData::Group,
            },
        }
    }
}

/// A length-delimited field with tag `tag` and content `b`.
pub open spec fn bytes_field(tag: u32, b: Seq<u8>) -> RawField {
    RawField { tag, data: RawData::Bytes(b) }
}

/// A varint field with tag `tag` and value `v`.
pub open spec fn varint_field(tag: u32, v: u64) -> RawField {
    RawField { tag, data: RawData::Varint(v) }
}

/// The varint that a `bool` is written as.
pub open spec fn bool_code(b: bool) -> u64 {
    if b {
        1
    } else {
        0
    }
}

/// The varint that an `i32` is written as: its sign extension to 64 bits.
pub open spec fn i32_code(v: i32) -> u64 {
    if v >= 0 {
        v as u64
    } else {
        (v + 0x1_0000_0000_0000_0000) as u64
    }
}

/// The `i32` a varint is read as: its low 32 bits, as two's complement.
pub open spec fn i32_of_code(v: u64) -> i32 {
    let low = v % 0x1_0000_0000;
    if low < 0x8000_0000 {
        low as i32
    } else {
        (low - 0x1_0000_0000) as i32
    }
}

/// An `i32` written as a varint reads back as itself.
pub proof fn lemma_i32_code_roundtrip(v: i32)
    ensures
        i32_of_code(i32_code(v)) == v,
{
    if v < 0 {
        let c = v + 0x1_0000_0000_0000_0000;
        assert(c % 0x1_0000_0000 == v + 0x1_0000_0000) by (nonlinear_arith)
            requires
                c == v + 0x1_0000_0000_0000_0000,
                -0x8000_0000 <= v < 0,
        ;
    }
}

/// The varint that an `i64` is written as: its 64 bits, as two's complement.
pub open spec fn i64_code(v: i64) -> u64 {
    if v >= 0 {
        v as u64
    } else {
        (v + 0x1_0000_0000_0000_0000) as u64
    }
}

/// An `i64` written as a varint reads back as itself.
pub proof fn lemma_i64_code_roundtrip(v: i64)
    ensures
        i64_of_code(i64_code(v)) == v,
{
}

/// The `i64` a varint is read as: its 64 bits, as two's complement.
pub open spec fn i64_of_code(v: u64) -> i64 {
    if v < 0x8000_0000_0000_0000 {
        v as i64
    } else {
        (v - 0x1_0000_0000_0000_0000) as i64
    }
}

/// The zigzag varint that an `i64` is written as: the non-negative numbers
/// as even codes, the negative ones as odd codes.
pub open spec fn zigzag_code(v: i64) -> u64 {
    if v >= 0 {
        (2 * v) as u64
    } else {
        (-2 * v - 1) as u64
    }
}

/// The zigzag code of an optional `i64`.
pub open spec fn opt_zigzag_code(o: Option<i64>) -> Option<u64> {
    match o {
        Some(v) => Some(zigzag_code(v)),
        None => None,
    }
}

/// An `i64` written as a zigzag varint reads back as itself.
pub proof fn lemma_zigzag_code_roundtrip(v: i64)
    ensures
        zigzag_of_code(zigzag_code(v)) == v,
{
}

/// The `i64` a zigzag varint is read as: even codes are the non-negative
/// numbers, odd codes the negative ones.
pub open spec fn zigzag_of_code(v: u64) -> i64 {
    if v % 2 == 0 {
        (v / 2) as i64
    } else {
        (-(v / 2) - 1) as i64
    }
}

/// The `u32` a varint is read as: its low 32 bits.
pub open spec fn u32_of_code(v: u64) -> u32 {
    (v % 0x1_0000_0000) as u32
}

/// Skips a payload of wire type `w` at the front of `buf`, for a field with
/// tag `tag`, as `prost` skips an unknown field: with no allowance left it
/// fails, and it skips the fields of a group with one level less. Gives what
/// follows the payload.
pub fn skip_payload(tag: u32, w: WireKind, buf: &[u8], depth: u32) -> (res: Result<&[u8], DecodeError>)
    ensures
        match res {
            Ok(rest) => skip_len(tag, w, buf@, depth as nat) matches Some(m) && rest@ == buf@.skip(
                m as int,
            ),
            Err(_) => skip_len(tag, w, buf@, depth as nat) is None,
        },
    decreases buf@.len(), 1nat,
{
    if depth == 0 {
        return Err(decode_error("recursion limit reached"));
    }
    match w {
        WireKind::Varint => match read_varint(buf) {
            Ok((_, rest)) => Ok(rest),
            Err(e) => Err(e),
        },
        WireKind::SixtyFourBit => match read_fixed64(buf) {
            Ok((_, rest)) => Ok(rest),
            Err(e) => Err(e),
        },
        WireKind::LengthDelimited => match read_len_delimited(buf) {
            Ok((_, rest)) => {
                proof {
                    lemma_varint_parse_len(buf@);
                }
                Ok(rest)
            },
            Err(e) => Err(e),
        },
        WireKind::StartGroup => skip_group_rest(tag, buf, depth - 1),
        WireKind::EndGroup => Err(decode_error("unexpected end group tag")),
        WireKind::ThirtyTwoBit => match read_fixed32(buf) {
            Ok((_, rest)) => Ok(rest),
            Err(e) => Err(e),
        },
    }
}

/// Skips the rest of a group with tag `tag`: its fields, each with allowance
/// `depth`, and its end key, which must carry the group's tag. Gives what
/// follows the end key.
fn skip_group_rest(tag: u32, buf: &[u8], depth: u32) -> (res: Result<&[u8], DecodeError>)
    ensures
        match res {
            Ok(rest) => group_len(tag, buf@, depth as nat) matches Some(k) && rest@ == buf@.skip(
                k as int,
            ),
            Err(_) => group_len(tag, buf@, depth as nat) is None,
        },
    decreases buf@.len(), 0nat,
{
    let mut cur = buf;
    let ghost mut used: nat = 0;
    loop
        invariant
            used + cur@.len() == buf@.len(),
            cur@ == buf@.skip(used as int),
            group_len(tag, buf@, depth as nat) == match group_len(tag, cur@, depth as nat) {
                Some(k) => Some(used + k),
                None => None::<nat>,
            },
        decreases cur@.len(),
    {
        let (t, w, r1) = match read_key(cur) {
            Ok(k) => k,
            Err(e) => return Err(e),
        };
        proof {
            lemma_varint_parse_len(cur@);
        }
        let ghost n = (cur@.len() - r1@.len()) as nat;
        if w == WireKind::EndGroup {
            if t == tag {
                proof {
                    assert(r1@ =~= buf@.skip((used + n) as int));
                }
                return Ok(r1);
            } else {
                return Err(decode_error("unexpected end group tag"));
            }
        }
        let r2 = match skip_payload(t, w, r1, depth) {
            Ok(r) => r,
            Err(e) => return Err(e),
        };
        proof {
            lemma_skip_len_bound(t, w, r1@, depth as nat);
            let m = (r1@.len() - r2@.len()) as nat;
            assert(r2@ =~= r1@.skip(m as int));
            assert(r2@ =~= buf@.skip((used + n + m) as int));
            used = used + n + m;
        }
        cur = r2;
    }
}

/// Reads one field from the front of `buf`: its key, then a payload of the
/// key's wire type, a group skipped with allowance `depth`. Gives the field
/// and what follows it.
pub fn read_field(buf: &[u8], depth: u32) -> (res: Result<(Field, &[u8]), DecodeError>)
    ensures
        match res {
            Ok((f, rest)) => field_parse(buf@, depth as nat) matches Some((g, n)) && g == f@
                && rest@ == buf@.skip(n as int),
            Err(_) => field_parse(buf@, depth as nat) is None,
        },
{
    let (tag, w, r) = match read_key(buf) {
        Ok(k) => k,
        Err(e) => return Err(e),
    };
    let ghost n = (buf@.len() - r@.len()) as nat;
    proof {
        lemma_varint_parse_len(buf@);
    }
    match w {
        WireKind::Varint => match read_varint(r) {
            Ok((v, rest)) => {
                proof {
                    lemma_varint_parse_len(r@);
                    assert(rest@ =~= buf@.skip((n + (r@.len() - rest@.len())) as int));
                }
                Ok((Field { tag, data: FieldData::Varint(v) }, rest))
            },
            Err(e) => Err(e),
        },
        WireKind::SixtyFourBit => match read_fixed64(r) {
            Ok((v, rest)) => {
                proof {
                    assert(rest@ =~= buf@.skip((n + 8) as int));
                }
                Ok((Field { tag, data: FieldData::Fixed64(v) }, rest))
            },
            Err(e) => Err(e),
        },
        WireKind::LengthDelimited => match read_len_delimited(r) {
            Ok((v, rest)) => {
                proof {
                    lemma_varint_parse_len(r@);
                    assert(rest@ =~= buf@.skip((n + (r@.len() - rest@.len())) as int));
                }
                Ok((Field { tag, data: FieldData::Bytes(v) }, rest))
            },
            Err(e) => Err(e),
        },
        WireKind::StartGroup => match skip_payload(tag, w, r, depth) {
            Ok(rest) => {
                proof {
                    lemma_skip_len_bound(tag, w, r@, depth as nat);
                    assert(rest@ =~= buf@.skip((n + (r@.len() - rest@.len())) as int));
                }
                Ok((Field { tag, data: FieldData::Group }, rest))
            },
            Err(e) => Err(e),
        },
        WireKind::EndGroup => Err(decode_error("unexpected end group tag")),
        WireKind::ThirtyTwoBit => match read_fixed32(r) {
            Ok((v, rest)) => {
                proof {
                    assert(rest@ =~= buf@.skip((n + 4) as int));
                }
                Ok((Field { tag, data: FieldData::Fixed32(v) }, rest))
            },
            Err(e) => Err(e),
        },
    }
}

/// Appends the bytes of `data` to `buf`.
pub fn append_bytes(buf: &mut Vec<u8>, data: &[u8])
    ensures
        final(buf)@ == old(buf)@ + data@,
{
    let mut i: usize = 0;
    while i < data.len()
        invariant
            i <= data@.len(),
            buf@ == old(buf)@ + data@.take(i as int),
        decreases data@.len() - i,
    {
        buf.push(data[i]);
        i = i + 1;
        proof {
            assert(data@.take(i as int) =~= data@.take(i - 1) + seq![data@[i - 1]]);
        }
    }
    proof {
        assert(data@.take(i as int) =~= data@);
    }
}

/// Appends a length-delimited field: its key, the length of `data`, then
/// `data`.
pub fn put_bytes_field(buf: &mut Vec<u8>, tag: u32, data: &[u8])
    requires
        1 <= tag <= MAX_TAG,
    ensures
        final(buf)@ == old(buf)@ + field_bytes(bytes_field(tag, data@)),
{
    put_key(buf, tag, WireKind::LengthDelimited);
    put_varint(buf, data.len() as u64);
    append_bytes(buf, data);
    proof {
        assert(final(buf)@ =~= old(buf)@ + field_bytes(bytes_field(tag, data@)));
    }
}

/// Appends a varint field: its key, then the varint of `v`.
pub fn put_varint_field(buf: &mut Vec<u8>, tag: u32, v: u64)
    requires
        1 <= tag <= MAX_TAG,
    ensures
        final(buf)@ == old(buf)@ + field_bytes(varint_field(tag, v)),
{
    put_key(buf, tag, WireKind::Varint);
    put_varint(buf, v);
    proof {
        assert(final(buf)@ =~= old(buf)@ + field_bytes(varint_field(tag, v)));
    }
}

/// The `i32` that a varint field holds, read as `prost` reads it.
pub fn i32_from_code(v: u64) -> (r: i32)
    ensures
        r == i32_of_code(v),
{
    let low: u64 = v % 0x1_0000_0000;
    if low < 0x8000_0000 {
        low as i32
    } else {
        let neg: i64 = low as i64 - 0x1_0000_0000;
        neg as i32
    }
}

/// The code that an `i32` is written as.
pub fn i32_to_code(v: i32) -> (r: u64)
    ensures
        r == i32_code(v),
{
    if v >= 0 {
        v as u64
    } else {
        let w: i128 = v as i128 + 0x1_0000_0000_0000_0000;
        w as u64
    }
}

/// The `i64` that a varint field holds.
pub fn i64_from_code(v: u64) -> (r: i64)
    ensures
        r == i64_of_code(v),
{
    if v < 0x8000_0000_0000_0000 {
        v as i64
    } else {
        let w: i128 = v as i128 - 0x1_0000_0000_0000_0000;
        w as i64
    }
}

/// The `i64` that a zigzag varint field holds.
pub fn zigzag_from_code(v: u64) -> (r: i64)
    ensures
        r == zigzag_of_code(v),
{
    let h: i64 = (v / 2) as i64;
    if v % 2 == 0 {
        h
    } else {
        -h - 1
    }
}

/// The `u32` that a varint field holds.
pub fn u32_from_code(v: u64) -> (r: u32)
    ensures
        r == u32_of_code(v),
{
    (v % 0x1_0000_0000) as u32
}

/// The bytes of a length-delimited field.
pub open spec fn bytes_piece(tag: u32, b: Seq<u8>) -> Seq<u8> {
    field_bytes(bytes_field(tag, b))
}

/// The bytes of an optional length-delimited field: nothing where it is
/// absent.
pub open spec fn opt_bytes_piece(tag: u32, o: Option<Seq<u8>>) -> Seq<u8> {
    match o {
        Some(b) => bytes_piece(tag, b),
        None => Seq::empty(),
    }
}

/// The bytes of a varint field.
pub open spec fn varint_piece(tag: u32, v: u64) -> Seq<u8> {
    field_bytes(varint_field(tag, v))
}

/// The bytes of an optional varint field: nothing where it is absent.
pub open spec fn opt_varint_piece(tag: u32, o: Option<u64>) -> Seq<u8> {
    match o {
        Some(v) => varint_piece(tag, v),
        None => Seq::empty(),
    }
}

/// A 32-bit field with tag `tag` and value `v`.
pub open spec fn fixed32_field(tag: u32, v: u32) -> RawField {
    RawField { tag, data: RawData::Fixed32(v) }
}

/// The bytes of an optional 32-bit field: nothing where it is absent.
pub open spec fn opt_fixed32_piece(tag: u32, o: Option<u32>) -> Seq<u8> {
    match o {
        Some(v) => field_bytes(fixed32_field(tag, v)),
        None => Seq::empty(),
    }
}

/// The bytes of a repeated length-delimited field: one field per element,
/// in order.
pub open spec fn rep_bytes_piece(tag: u32, s: Seq<Seq<u8>>) -> Seq<u8>
    decreases s.len(),
{
    if s.len() == 0 {
        Seq::empty()
    } else {
        rep_bytes_piece(tag, s.drop_last()) + bytes_piece(tag, s.last())
    }
}

/// The code of an optional `u32`.
pub open spec fn opt_u32_code(o: Option<u32>) -> Option<u64> {
    match o {
        Some(v) => Some(v as u64),
        None => None,
    }
}

/// The code of an optional `bool`.
pub open spec fn opt_bool_code(o: Option<bool>) -> Option<u64> {
    match o {
        Some(v) => Some(bool_code(v)),
        None => None,
    }
}

/// The code of an optional `i32`.
pub open spec fn opt_i32_code(o: Option<i32>) -> Option<u64> {
    match o {
        Some(v) => Some(i32_code(v)),
        None => None,
    }
}

/// The content of an optional byte vector.
pub open spec fn opt_bytes_view(o: Option<Vec<u8>>) -> Option<Seq<u8>> {
    match o {
        Some(v) => Some(v@),
        None => None,
    }
}

/// The contents of a sequence of byte vectors.
pub open spec fn bytes_seq_view(s: Seq<Vec<u8>>) -> Seq<Seq<u8>> {
    s.map_values(|v: Vec<u8>| v@)
}

/// The bytes of an optional byte sequence, or nothing where it is absent.
pub open spec fn bytes_or_empty(o: Option<Seq<u8>>) -> Seq<u8> {
    match o {
        Some(b) => b,
        None => Seq::empty(),
    }
}

/// The value of an optional `bool`, or `false` where it is absent.
pub open spec fn bool_or_false(o: Option<bool>) -> bool {
    match o {
        Some(b) => b,
        None => false,
    }
}

/// Appends an optional length-delimited field.
pub fn put_opt_bytes(buf: &mut Vec<u8>, tag: u32, o: &Option<Vec<u8>>)
    requires
        1 <= tag <= MAX_TAG,
    ensures
        final(buf)@ == old(buf)@ + opt_bytes_piece(tag, opt_bytes_view(*o)),
{
    match o {
        Some(b) => put_bytes_field(buf, tag, b.as_slice()),
        None => {
            proof {
                assert(final(buf)@ =~= old(buf)@ + opt_bytes_piece(tag, opt_bytes_view(*o)));
            }
        },
    }
}

/// Appends an optional varint field.
pub fn put_opt_varint(buf: &mut Vec<u8>, tag: u32, o: Option<u64>)
    requires
        1 <= tag <= MAX_TAG,
    ensures
        final(buf)@ == old(buf)@ + opt_varint_piece(tag, o),
{
    match o {
        Some(v) => put_varint_field(buf, tag, v),
        None => {
            proof {
                assert(final(buf)@ =~= old(buf)@ + opt_varint_piece(tag, o));
            }
        },
    }
}

/// Appends an optional `u32` field.
pub fn put_opt_u32(buf: &mut Vec<u8>, tag: u32, o: Option<u32>)
    requires
        1 <= tag <= MAX_TAG,
    ensures
        final(buf)@ == old(buf)@ + opt_varint_piece(tag, opt_u32_code(o)),
{
    let c: Option<u64> = match o {
        Some(v) => Some(v as u64),
        None => None,
    };
    put_opt_varint(buf, tag, c);
}

/// Appends an optional `bool` field.
pub fn put_opt_bool(buf: &mut Vec<u8>, tag: u32, o: Option<bool>)
    requires
        1 <= tag <= MAX_TAG,
    ensures
        final(buf)@ == old(buf)@ + opt_varint_piece(tag, opt_bool_code(o)),
{
    let c: Option<u64> = match o {
        Some(v) => Some(
            if v {
                1
            } else {
                0
            },
        ),
        None => None,
    };
    put_opt_varint(buf, tag, c);
}

/// Appends an optional enumeration field.
pub fn put_opt_i32(buf: &mut Vec<u8>, tag: u32, o: Option<i32>)
    requires
        1 <= tag <= MAX_TAG,
    ensures
        final(buf)@ == old(buf)@ + opt_varint_piece(tag, opt_i32_code(o)),
{
    let c: Option<u64> = match o {
        Some(v) => Some(i32_to_code(v)),
        None => None,
    };
    put_opt_varint(buf, tag, c);
}

/// Appends a repeated length-delimited field, one field per element.
pub fn put_rep_bytes(buf: &mut Vec<u8>, tag: u32, v: &Vec<Vec<u8>>)
    requires
        1 <= tag <= MAX_TAG,
    ensures
        final(buf)@ == old(buf)@ + rep_bytes_piece(tag, bytes_seq_view(v@)),
{
    let mut i: usize = 0;
    while i < v.len()
        invariant
            1 <= tag <= MAX_TAG,
            i <= v@.len(),
            buf@ == old(buf)@ + rep_bytes_piece(tag, bytes_seq_view(v@).take(i as int)),
        decreases v@.len() - i,
    {
        proof {
            let s = bytes_seq_view(v@);
            assert(s.take(i + 1).drop_last() =~= s.take(i as int));
            assert(s.take(i + 1).last() == v[i as int]@);
        }
        put_bytes_field(buf, tag, v[i].as_slice());
        i = i + 1;
        proof {
            let s = bytes_seq_view(v@);
            assert(buf@ =~= old(buf)@ + rep_bytes_piece(tag, s.take(i as int)));
        }
    }
    proof {
        assert(bytes_seq_view(v@).take(i as int) =~= bytes_seq_view(v@));
    }
}

/// Concatenation is associative.
pub proof fn lemma_concat_assoc(a: Seq<u8>, b: Seq<u8>, c: Seq<u8>)
    ensures
        (a + b) + c == a + (b + c),
{
    assert((a + b) + c =~= a + (b + c));
}

/// A message that this library writes to the wire.
pub trait WireMessage: Sized {
    /// The bytes of the message.
    spec fn wire_bytes(&self) -> Seq<u8>;

    /// Appends the bytes of the message to `buf`.
    fn encode(&self, buf: &mut Vec<u8>)
        ensures
            final(buf)@ == old(buf)@ + self.wire_bytes(),
    ;
}

/// The bytes of each message of a sequence.
pub open spec fn messages_bytes<M: WireMessage>(v: Seq<M>) -> Seq<Seq<u8>> {
    v.map_values(|m: M| m.wire_bytes())
}

/// Appends a message field: its key, the length of the message, then the
/// message.
pub fn put_message<M: WireMessage>(buf: &mut Vec<u8>, tag: u32, m: &M)
    requires
        1 <= tag <= MAX_TAG,
    ensures
        final(buf)@ == old(buf)@ + bytes_piece(tag, m.wire_bytes()),
{
    let mut sub: Vec<u8> = Vec::new();
    m.encode(&mut sub);
    proof {
        assert(sub@ =~= m.wire_bytes());
    }
    put_bytes_field(buf, tag, sub.as_slice());
}

/// Appends an optional message field.
pub fn put_opt_message<M: WireMessage>(buf: &mut Vec<u8>, tag: u32, o: &Option<M>)
    requires
        1 <= tag <= MAX_TAG,
    ensures
        final(buf)@ == old(buf)@ + opt_bytes_piece(
            tag,
            match o {
                Some(m) => Some(m.wire_bytes()),
                None => None,
            },
        ),
{
    match o {
        Some(m) => put_message(buf, tag, m),
        None => {
            proof {
                assert(final(buf)@ =~= old(buf)@);
            }
        },
    }
}

/// Appends a repeated message field, one field per message.
pub fn put_rep_message<M: WireMessage>(buf: &mut Vec<u8>, tag: u32, v: &Vec<M>)
    requires
        1 <= tag <= MAX_TAG,
    ensures
        final(buf)@ == old(buf)@ + rep_bytes_piece(tag, messages_bytes(v@)),
{
    let mut i: usize = 0;
    while i < v.len()
        invariant
            1 <= tag <= MAX_TAG,
            i <= v@.len(),
            buf@ == old(buf)@ + rep_bytes_piece(tag, messages_bytes(v@).take(i as int)),
        decreases v@.len() - i,
    {
        proof {
            let s = messages_bytes(v@);
            assert(s.take(i + 1).drop_last() =~= s.take(i as int));
            assert(s.take(i + 1).last() == v@[i as int].wire_bytes());
        }
        put_message(buf, tag, &v[i]);
        i = i + 1;
        proof {
            let s = messages_bytes(v@);
            assert(buf@ =~= old(buf)@ + rep_bytes_piece(tag, s.take(i as int)));
        }
    }
    proof {
        assert(messages_bytes(v@).take(i as int) =~= messages_bytes(v@));
    }
}

/// `prost::DecodeError`, the error that reading a malformed message gives.
#[verifier::external_type_specification]
#[verifier::external_body]
pub struct ExDecodeError(prost::DecodeError);

/// Appends the varint of `v` with `prost::encoding::encode_varint`, which
/// writes the LEB128 bytes of the value.
#[verifier::external_body]
pub(crate) fn put_varint(buf: &mut Vec<u8>, v: u64)
    ensures
        final(buf)@ == old(buf)@ + varint_bytes(v as nat),
{
    prost::encoding::encode_varint(v, buf);
}

/// Appends a field key with `prost::encoding::encode_key`, which writes the
/// varint of `tag * 8 + code` (its tag must be in range).
#[verifier::external_body]
pub(crate) fn put_key(buf: &mut Vec<u8>, tag: u32, w: WireKind)
    requires
        1 <= tag <= MAX_TAG,
    ensures
        final(buf)@ == old(buf)@ + key_bytes(tag, w),
{
    let wire_type = match w {
        WireKind::Varint => prost::encoding::WireType::Varint,
        WireKind::SixtyFourBit => prost::encoding::WireType::SixtyFourBit,
        WireKind::LengthDelimited => prost::encoding::WireType::LengthDelimited,
        WireKind::StartGroup => prost::encoding::WireType::StartGroup,
        WireKind::EndGroup => prost::encoding::WireType::EndGroup,
        WireKind::ThirtyTwoBit => prost::encoding::WireType::ThirtyTwoBit,
    };
    prost::encoding::encode_key(tag, wire_type, buf);
}

/// Reads a varint with `prost::encoding::decode_varint`: at most ten bytes,
/// the tenth no more than 1, failing on input that ends first. Gives the
/// value and what follows it.
#[verifier::external_body]
pub(crate) fn read_varint(buf: &[u8]) -> (res: Result<(u64, &[u8]), DecodeError>)
    ensures
        match res {
            Ok((v, rest)) => varint_parse(buf@) matches Some((w, n)) && w == v && rest@ == buf@.skip(
                n as int,
            ),
            Err(_) => varint_parse(buf@) is None,
        },
{
    let mut rest = buf;
    match prost::encoding::decode_varint(&mut rest) {
        Ok(v) => Ok((v, rest)),
        Err(e) => Err(e),
    }
}

/// Reads a field key with `prost::encoding::decode_key`: a varint no larger
/// than `u32::MAX` whose low three bits are a wire type code from 0 to 5 and
/// whose tag is at least 1. Gives the tag, the wire type and what follows.
#[verifier::external_body]
pub(crate) fn read_key(buf: &[u8]) -> (res: Result<(u32, WireKind, &[u8]), DecodeError>)
    ensures
        match res {
            Ok((tag, w, rest)) => key_parse(buf@) matches Some((t, k, n)) && t == tag && k == w
                && rest@ == buf@.skip(n as int),
            Err(_) => key_parse(buf@) is None,
        },
{
    let mut rest = buf;
    match prost::encoding::decode_key(&mut rest) {
        Ok((tag, wire_type)) => {
            let w = match wire_type {
                prost::encoding::WireType::Varint => WireKind::Varint,
                prost::encoding::WireType::SixtyFourBit => WireKind::SixtyFourBit,
                prost::encoding::WireType::LengthDelimited => WireKind::LengthDelimited,
                prost::encoding::WireType::StartGroup => WireKind::StartGroup,
                prost::encoding::WireType::EndGroup => WireKind::EndGroup,
                prost::encoding::WireType::ThirtyTwoBit => WireKind::ThirtyTwoBit,
            };
            Ok((tag, w, rest))
        },
        Err(e) => Err(e),
    }
}

/// Reads a length-delimited payload with `prost::encoding::bytes::merge`: a
/// varint length, then that many bytes, failing where fewer remain. Gives the
/// bytes and what follows them.
#[verifier::external_body]
pub(crate) fn read_len_delimited(buf: &[u8]) -> (res: Result<(Vec<u8>, &[u8]), DecodeError>)
    ensures
        match res {
            Ok((v, rest)) => varint_parse(buf@) matches Some((len, m)) && len <= buf@.len() - m
                && v@ == buf@.subrange(m as int, m + len) && rest@ == buf@.skip(m + len),
            Err(_) => !(varint_parse(buf@) matches Some((len, m)) && len <= buf@.len() - m),
        },
{
    let mut rest = buf;
    let mut v: Vec<u8> = Vec::new();
    match prost::encoding::bytes::merge(
        prost::encoding::WireType::LengthDelimited,
        &mut v,
        &mut rest,
        prost::encoding::DecodeContext::default(),
    ) {
        Ok(()) => Ok((v, rest)),
        Err(e) => Err(e),
    }
}

/// Reads a 32-bit little-endian payload with `prost::encoding::fixed32::merge`,
/// failing where fewer than four bytes remain.
#[verifier::external_body]
pub(crate) fn read_fixed32(buf: &[u8]) -> (res: Result<(u32, &[u8]), DecodeError>)
    ensures
        match res {
            Ok((v, rest)) => buf@.len() >= 4 && v == le_value(buf@.take(4)) && rest@ == buf@.skip(
                4,
            ),
            Err(_) => buf@.len() < 4,
        },
{
    let mut rest = buf;
    let mut v: u32 = 0;
    match prost::encoding::fixed32::merge(
        prost::encoding::WireType::ThirtyTwoBit,
        &mut v,
        &mut rest,
        prost::encoding::DecodeContext::default(),
    ) {
        Ok(()) => Ok((v, rest)),
        Err(e) => Err(e),
    }
}

/// Reads a 64-bit little-endian payload with `prost::encoding::fixed64::merge`,
/// failing where fewer than eight bytes remain.
#[verifier::external_body]
pub(crate) fn read_fixed64(buf: &[u8]) -> (res: Result<(u64, &[u8]), DecodeError>)
    ensures
        match res {
            Ok((v, rest)) => buf@.len() >= 8 && v == le_value(buf@.take(8)) && rest@ == buf@.skip(
                8,
            ),
            Err(_) => buf@.len() < 8,
        },
{
    let mut rest = buf;
    let mut v: u64 = 0;
    match prost::encoding::fixed64::merge(
        prost::encoding::WireType::SixtyFourBit,
        &mut v,
        &mut rest,
        prost::encoding::DecodeContext::default(),
    ) {
        Ok(()) => Ok((v, rest)),
        Err(e) => Err(e),
    }
}

/// A `prost::DecodeError` with the given description, from
/// `prost::DecodeError::new`. Nothing is stated of it.
#[verifier::external_body]
pub(crate) fn decode_error(description: &'static str) -> DecodeError {
    DecodeError::new(description)
}

} // verus!
