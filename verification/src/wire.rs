//! The protobuf wire format: varints, field keys and fields.
//!
//! A message is a run of fields, each a key (a field number and a wire type)
//! followed by its payload. What prost computes of that stands behind the
//! trusted functions of this module; the layout of a field is stated and
//! proved here.
use vstd::prelude::*;
use vstd::slice::slice_subrange;

use crate::error::{DecodeFault, Malformed};

verus! {

// --- Varints ---

/// The LEB128 encoding of `n`: seven bits a byte, the lowest first, the top
/// bit of each byte telling whether another follows.
pub open spec fn varint(n: nat) -> Seq<u8>
    decreases n,
{
    if n < 128 {
        seq![n as u8]
    } else {
        seq![(n % 128 + 128) as u8] + varint(n / 128)
    }
}

/// The number that the low seven bits of each byte spell, the lowest first.
pub open spec fn leb128(bytes: Seq<u8>) -> nat
    decreases bytes.len(),
{
    if bytes.len() == 0 {
        0
    } else {
        (bytes[0] % 128) as nat + 128 * leb128(bytes.skip(1))
    }
}

/// The length of the varint at the front of `bytes`: up to and with the
/// first byte whose top bit is clear.
pub open spec fn varint_len(bytes: Seq<u8>) -> Option<nat>
    decreases bytes.len(),
{
    if bytes.len() == 0 {
        None
    } else if bytes[0] < 128 {
        Some(1)
    } else {
        match varint_len(bytes.skip(1)) {
            Some(n) => Some(n + 1),
            None => None,
        }
    }
}

/// Reads the varint at the front of `bytes`: its value and what follows it.
/// A varint has at most ten bytes and a value that fits in 64 bits.
pub open spec fn read_varint(bytes: Seq<u8>) -> Option<(u64, Seq<u8>)> {
    match varint_len(bytes) {
        Some(n) if n <= 10 && leb128(bytes.take(n as int)) <= u64::MAX => Some(
            (leb128(bytes.take(n as int)) as u64, bytes.skip(n as int)),
        ),
        _ => None,
    }
}

/// `prost::encoding::encode_varint`: appends the LEB128 encoding of `value`.
#[verifier::external_body]
pub(crate) fn put_varint(value: u64, buf: &mut Vec<u8>)
    ensures
        final(buf)@ == old(buf)@ + varint(value as nat),
{
    prost::encoding::encode_varint(value, buf)
}

/// `prost::encoding::decode_varint`: reads the varint at the front of
/// `bytes` and moves past it; fails where there is none, where it runs over
/// ten bytes and where its value does not fit in 64 bits.
#[verifier::external_body]
pub(crate) fn take_varint(bytes: &[u8]) -> (out: Result<(u64, &[u8]), prost::DecodeError>)
    ensures
        match out {
            Ok((value, rest)) => read_varint(bytes@) == Some((value, rest@)),
            Err(_) => read_varint(bytes@) is None,
        },
{
    let mut rest = bytes;
    let value = prost::encoding::decode_varint(&mut rest)?;
    Ok((value, rest))
}

proof fn lemma_varint_len_bound(n: nat, k: nat)
    requires
        n < vstd::arithmetic::power::pow(128, k),
        k >= 1,
    ensures
        1 <= varint(n).len() <= k,
    decreases k,
{
    vstd::arithmetic::power::lemma_pow1(128);
    if n >= 128 {
        assert(k > 1);
        reveal(vstd::arithmetic::power::pow);
        assert(vstd::arithmetic::power::pow(128, k) == 128 * vstd::arithmetic::power::pow(
            128,
            (k - 1) as nat,
        ));
        lemma_varint_len_bound(n / 128, (k - 1) as nat);
    }
}

/// What a varint is, read back: the bytes of `varint(n)` in front of any
/// others give `n` and leave the others.
pub proof fn varint_round_trip(n: u64, tail: Seq<u8>)
    ensures
        read_varint(varint(n as nat) + tail) == Some((n, tail)),
        1 <= varint(n as nat).len() <= 10,
{
    assert(n < vstd::arithmetic::power::pow(128, 10)) by {
        reveal_with_fuel(vstd::arithmetic::power::pow, 11);
        assert(128 * 128 * 128 * 128 * 128 * 128 * 128 * 128 * 128 * 128 > u64::MAX)
            by (nonlinear_arith);
    }
    lemma_varint_len_bound(n as nat, 10);
    lemma_varint_parts(n as nat, tail);
}

/// A varint has no more bytes than its number needs: its last byte is zero for
/// the number zero alone. Each byte but the last has its top bit set.
pub proof fn varints_are_minimal(n: nat, i: int)
    requires
        0 <= i < varint(n).len(),
    ensures
        varint(n).last() == 0 ==> n == 0 && varint(n).len() == 1,
        varint(n)[i] >= 128 <==> i < varint(n).len() - 1,
    decreases n,
{
    if n >= 128 {
        let rest = varint(n / 128);
        assert(rest.len() >= 1) by {
            reveal_with_fuel(varint, 2);
        }
        if i > 0 {
            varints_are_minimal(n / 128, i - 1);
            assert(varint(n)[i] == rest[i - 1]);
        } else {
            varints_are_minimal(n / 128, 0);
        }
        assert(varint(n).last() == rest.last());
    }
}

proof fn lemma_varint_parts(n: nat, tail: Seq<u8>)
    ensures
        varint_len(varint(n) + tail) == Some(varint(n).len()),
        leb128((varint(n) + tail).take(varint(n).len() as int)) == n,
        (varint(n) + tail).skip(varint(n).len() as int) == tail,
    decreases n,
{
    let all = varint(n) + tail;
    assert(all.take(varint(n).len() as int) =~= varint(n));
    assert(all.skip(varint(n).len() as int) =~= tail);
    if n < 128 {
        assert(varint(n).skip(1) =~= seq![]);
        assert(leb128(varint(n).skip(1)) == 0);
    } else {
        let rest = varint(n / 128);
        lemma_varint_parts(n / 128, tail);
        assert(all.skip(1) =~= rest + tail);
        assert((rest + tail).take(rest.len() as int) =~= rest);
        assert(varint(n).skip(1) =~= rest);
        assert(n == n % 128 + 128 * (n / 128));
        assert(varint(n)[0] == (n % 128 + 128) as u8);
    }
}

// --- Fixed width ---

/// The `width` low bytes of `n`, the lowest first.
pub open spec fn little_endian(n: nat, width: nat) -> Seq<u8>
    decreases width,
{
    if width == 0 {
        seq![]
    } else {
        seq![(n % 256) as u8] + little_endian(n / 256, (width - 1) as nat)
    }
}

/// The number that bytes spell, the lowest first.
pub open spec fn from_little_endian(bytes: Seq<u8>) -> nat
    decreases bytes.len(),
{
    if bytes.len() == 0 {
        0
    } else {
        bytes[0] as nat + 256 * from_little_endian(bytes.skip(1))
    }
}

/// Little-endian bytes spell the number that they were made of.
pub proof fn little_endian_round_trip(n: nat, width: nat)
    requires
        n < vstd::arithmetic::power::pow(256, width),
    ensures
        little_endian(n, width).len() == width,
        from_little_endian(little_endian(n, width)) == n,
    decreases width,
{
    reveal(vstd::arithmetic::power::pow);
    if width > 0 {
        little_endian_round_trip(n / 256, (width - 1) as nat);
        assert(little_endian(n, width).skip(1) =~= little_endian(n / 256, (width - 1) as nat));
    }
}

pub(crate) proof fn lemma_from_little_endian_bound(bytes: Seq<u8>)
    ensures
        from_little_endian(bytes) < vstd::arithmetic::power::pow(256, bytes.len()),
    decreases bytes.len(),
{
    reveal(vstd::arithmetic::power::pow);
    if bytes.len() > 0 {
        lemma_from_little_endian_bound(bytes.skip(1));
    }
}

pub(crate) proof fn lemma_widths()
    ensures
        vstd::arithmetic::power::pow(256, 4) == 0x1_0000_0000,
        vstd::arithmetic::power::pow(256, 8) == 0x1_0000_0000_0000_0000,
{
    reveal_with_fuel(vstd::arithmetic::power::pow, 9);
    assert(256 * (256 * (256 * 256)) == 0x1_0000_0000int) by (nonlinear_arith);
    assert(256 * (256 * (256 * (256 * (256 * (256 * (256 * 256)))))) == 0x1_0000_0000_0000_0000int)
        by (nonlinear_arith);
}

/// Reads the four bytes at the front of `bytes`, the lowest first: their value
/// and what follows.
pub open spec fn read_bits32(bytes: Seq<u8>) -> Option<(u32, Seq<u8>)> {
    if bytes.len() >= 4 {
        Some((from_little_endian(bytes.take(4)) as u32, bytes.skip(4)))
    } else {
        None
    }
}

/// `prost::encoding::fixed32::encode`: appends a field of 32 bits, its key and
/// then the value in four bytes, the lowest first.
#[verifier::external_body]
pub(crate) fn put_bits32(tag: u32, value: u32, buf: &mut Vec<u8>)
    requires
        valid_tag(tag),
    ensures
        final(buf)@ == old(buf)@ + key_bytes(tag, WireType::ThirtyTwoBit) + little_endian(
            value as nat,
            4,
        ),
{
    prost::encoding::fixed32::encode(tag, &value, buf)
}

/// `prost::encoding::fixed32::merge`: reads a value of 32 bits, the lowest
/// byte first, and moves past it; fails where fewer than four bytes are left.
#[verifier::external_body]
pub(crate) fn take_bits32(bytes: &[u8]) -> (out: Result<(u32, &[u8]), prost::DecodeError>)
    ensures
        match out {
            Ok((value, rest)) => read_bits32(bytes@) == Some((value, rest@)),
            Err(_) => read_bits32(bytes@) is None,
        },
{
    let wire = prost::encoding::WireType::ThirtyTwoBit;
    let context = prost::encoding::DecodeContext::default();
    let mut rest = bytes;
    let mut value: u32 = 0;
    prost::encoding::fixed32::merge(wire, &mut value, &mut rest, context)?;
    Ok((value, rest))
}

/// Four bytes are read back as they were written.
pub proof fn bits32_round_trip(value: u32, tail: Seq<u8>)
    ensures
        read_bits32(little_endian(value as nat, 4) + tail) == Some((value, tail)),
{
    lemma_widths();
    little_endian_round_trip(value as nat, 4);
    let bytes = little_endian(value as nat, 4);
    assert((bytes + tail).take(4) =~= bytes);
    assert((bytes + tail).skip(4) =~= tail);
}

// --- Keys ---

/// How the payload of a field is laid out.
#[derive(Clone, Copy, Debug, PartialEq, Eq, Structural)]
pub enum WireType {
    Varint,
    SixtyFourBit,
    LengthDelimited,
    StartGroup,
    EndGroup,
    ThirtyTwoBit,
}

impl WireType {
    /// The number of the wire type in a key.
    pub open spec fn number(self) -> nat {
        match self {
            WireType::Varint => 0,
            WireType::SixtyFourBit => 1,
            WireType::LengthDelimited => 2,
            WireType::StartGroup => 3,
            WireType::EndGroup => 4,
            WireType::ThirtyTwoBit => 5,
        }
    }

    /// The wire type with number `n`.
    pub open spec fn numbered(n: u64) -> Option<WireType> {
        match n {
            0 => Some(WireType::Varint),
            1 => Some(WireType::SixtyFourBit),
            2 => Some(WireType::LengthDelimited),
            3 => Some(WireType::StartGroup),
            4 => Some(WireType::EndGroup),
            5 => Some(WireType::ThirtyTwoBit),
            _ => None,
        }
    }
}

/// The field numbers that a key can hold.
pub open spec fn valid_tag(tag: u32) -> bool {
    1 <= tag <= 0x1fff_ffff
}

/// The bytes of the key of field `tag` with wire type `wire`.
pub open spec fn key_bytes(tag: u32, wire: WireType) -> Seq<u8> {
    varint(tag as nat * 8 + wire.number())
}

/// Reads the key at the front of `bytes`: the field number, the wire type and
/// what follows.
pub open spec fn read_key(bytes: Seq<u8>) -> Option<(u32, WireType, Seq<u8>)> {
    match read_varint(bytes) {
        Some((key, rest)) if 8 <= key <= u32::MAX => match WireType::numbered(key % 8) {
            Some(wire) => Some(((key / 8) as u32, wire, rest)),
            None => None,
        },
        _ => None,
    }
}

/// `prost::encoding::encode_key`: appends the key of a field, the varint of
/// eight times the field number plus the number of the wire type.
#[verifier::external_body]
pub(crate) fn put_key(tag: u32, wire: WireType, buf: &mut Vec<u8>)
    requires
        valid_tag(tag),
    ensures
        final(buf)@ == old(buf)@ + key_bytes(tag, wire),
{
    let wire = match wire {
        WireType::Varint => prost::encoding::WireType::Varint,
        WireType::SixtyFourBit => prost::encoding::WireType::SixtyFourBit,
        WireType::LengthDelimited => prost::encoding::WireType::LengthDelimited,
        WireType::StartGroup => prost::encoding::WireType::StartGroup,
        WireType::EndGroup => prost::encoding::WireType::EndGroup,
        WireType::ThirtyTwoBit => prost::encoding::WireType::ThirtyTwoBit,
    };
    prost::encoding::encode_key(tag, wire, buf)
}

/// `prost::encoding::decode_key`: reads the key at the front of `bytes` and
/// moves past it; fails where there is no varint, where it does not fit in 32
/// bits, where its low three bits number no wire type and where the field
/// number is zero.
#[verifier::external_body]
pub(crate) fn take_key(bytes: &[u8]) -> (out: Result<(u32, WireType, &[u8]), prost::DecodeError>)
    ensures
        match out {
            Ok((tag, wire, rest)) => read_key(bytes@) == Some((tag, wire, rest@)),
            Err(_) => read_key(bytes@) is None,
        },
{
    let mut rest = bytes;
    let (tag, wire) = prost::encoding::decode_key(&mut rest)?;
    let wire = match wire {
        prost::encoding::WireType::Varint => WireType::Varint,
        prost::encoding::WireType::SixtyFourBit => WireType::SixtyFourBit,
        prost::encoding::WireType::LengthDelimited => WireType::LengthDelimited,
        prost::encoding::WireType::StartGroup => WireType::StartGroup,
        prost::encoding::WireType::EndGroup => WireType::EndGroup,
        prost::encoding::WireType::ThirtyTwoBit => WireType::ThirtyTwoBit,
    };
    Ok((tag, wire, rest))
}

/// A key is read back as it was written.
pub proof fn key_round_trip(tag: u32, wire: WireType, tail: Seq<u8>)
    requires
        valid_tag(tag),
    ensures
        read_key(key_bytes(tag, wire) + tail) == Some((tag, wire, tail)),
        key_bytes(tag, wire).len() >= 1,
{
    let key = (tag * 8 + wire.number()) as u64;
    varint_round_trip(key, tail);
    assert(key % 8 == wire.number());
    assert(key / 8 == tag);
}

// --- Fields ---

/// How deep messages and groups may stand within one another: the depth that
/// is left inside an outermost message. It is prost's limit.
pub const DEPTH_LIMIT: u32 = 100;

/// What follows the end of the group of field `tag` that `bytes` are the
/// inside of, where the depth `depth` is left. Fields follow each other up to
/// an end with the same number.
pub open spec fn after_group(tag: u32, bytes: Seq<u8>, depth: nat) -> Option<Seq<u8>>
    decreases depth, bytes.len(), 0nat,
{
    match read_key(bytes) {
        Some((inner, WireType::EndGroup, rest)) => if inner == tag {
            Some(rest)
        } else {
            None
        },
        Some((inner, wire, rest)) => if depth == 0 {
            None
        } else {
            match after_payload(inner, wire, rest, (depth - 1) as nat) {
                Some(rest) if rest.len() < bytes.len() => after_group(tag, rest, depth),
                _ => None,
            }
        },
        None => None,
    }
}

/// What follows the payload at the front of `bytes` of a field with the key
/// `(tag, wire)`, where the depth `depth` is left.
pub open spec fn after_payload(tag: u32, wire: WireType, bytes: Seq<u8>, depth: nat) -> Option<
    Seq<u8>,
>
    decreases depth, bytes.len(), 1nat,
{
    if depth == 0 {
        None
    } else {
        match wire {
            WireType::Varint => match read_varint(bytes) {
                Some((_, rest)) => Some(rest),
                None => None,
            },
            WireType::SixtyFourBit => if bytes.len() >= 8 {
                Some(bytes.skip(8))
            } else {
                None
            },
            WireType::LengthDelimited => match read_delimited(bytes) {
                Some((_, rest)) => Some(rest),
                None => None,
            },
            WireType::StartGroup => after_group(tag, bytes, depth),
            WireType::EndGroup => None,
            WireType::ThirtyTwoBit => if bytes.len() >= 4 {
                Some(bytes.skip(4))
            } else {
                None
            },
        }
    }
}

/// Reads the run of bytes behind a length prefix at the front of `bytes`: the
/// run and what follows.
pub open spec fn read_delimited(bytes: Seq<u8>) -> Option<(Seq<u8>, Seq<u8>)> {
    match read_varint(bytes) {
        Some((len, rest)) if len <= rest.len() => Some(
            (rest.take(len as int), rest.skip(len as int)),
        ),
        _ => None,
    }
}

/// `prost::encoding::skip_field`, as for a field of an outermost message:
/// moves past the payload of a field. Of a group it skips the fields up to the
/// end of the group, which must have the number of the group. Each group takes
/// one off the depth for the fields inside it, and with none left a field is
/// refused.
#[verifier::external_body]
pub(crate) fn skip_payload(tag: u32, wire: WireType, bytes: &[u8]) -> (out: Result<
    &[u8],
    prost::DecodeError,
>)
    ensures
        match out {
            Ok(rest) => after_payload(tag, wire, bytes@, DEPTH_LIMIT as nat) == Some(rest@),
            Err(_) => after_payload(tag, wire, bytes@, DEPTH_LIMIT as nat) is None,
        },
{
    let wire = match wire {
        WireType::Varint => prost::encoding::WireType::Varint,
        WireType::SixtyFourBit => prost::encoding::WireType::SixtyFourBit,
        WireType::LengthDelimited => prost::encoding::WireType::LengthDelimited,
        WireType::StartGroup => prost::encoding::WireType::StartGroup,
        WireType::EndGroup => prost::encoding::WireType::EndGroup,
        WireType::ThirtyTwoBit => prost::encoding::WireType::ThirtyTwoBit,
    };
    let context = prost::encoding::DecodeContext::default();
    let mut rest = bytes;
    prost::encoding::skip_field(wire, tag, &mut rest, context)?;
    Ok(rest)
}

/// `prost::encoding::bytes::merge`: reads the run of bytes behind a length
/// prefix and moves past it; fails where the prefix is no varint and where
/// fewer bytes follow than it says.
#[verifier::external_body]
pub(crate) fn take_delimited(bytes: &[u8]) -> (out: Result<(Vec<u8>, &[u8]), prost::DecodeError>)
    ensures
        match out {
            Ok((run, rest)) => read_delimited(bytes@) == Some((run@, rest@)),
            Err(_) => read_delimited(bytes@) is None,
        },
{
    let wire = prost::encoding::WireType::LengthDelimited;
    let context = prost::encoding::DecodeContext::default();
    let mut rest = bytes;
    let mut run = Vec::new();
    prost::encoding::bytes::merge(wire, &mut run, &mut rest, context)?;
    Ok((run, rest))
}

/// The payload of a field. No message here has a field of 64 bits or a group;
/// of such a payload only the wire type is kept.
pub enum Payload {
    Varint(u64),
    Bits32(u32),
    Bytes(Vec<u8>),
    Other(WireType),
}

/// A field of a message.
pub struct Field {
    pub tag: u32,
    pub payload: Payload,
}

/// [`Payload`] as a value.
pub enum PayloadView {
    Varint(u64),
    Bits32(u32),
    Bytes(Seq<u8>),
    Other(WireType),
}

/// [`Field`] as a value.
pub struct FieldView {
    pub tag: u32,
    pub payload: PayloadView,
}

impl View for Payload {
    type V = PayloadView;

    open spec fn view(&self) -> PayloadView {
        match self {
            Payload::Varint(value) => PayloadView::Varint(*value),
            Payload::Bits32(value) => PayloadView::Bits32(*value),
            Payload::Bytes(bytes) => PayloadView::Bytes(bytes@),
            Payload::Other(wire) => PayloadView::Other(*wire),
        }
    }
}

impl View for Field {
    type V = FieldView;

    open spec fn view(&self) -> FieldView {
        FieldView { tag: self.tag, payload: self.payload@ }
    }
}

/// Reads the payload at the front of `bytes` of a field with the key
/// `(tag, wire)`, where the depth `depth` is left: the payload and what
/// follows.
pub open spec fn read_payload(tag: u32, wire: WireType, bytes: Seq<u8>, depth: nat) -> Option<
    (PayloadView, Seq<u8>),
> {
    match wire {
        WireType::Varint => match read_varint(bytes) {
            Some((value, rest)) => Some((PayloadView::Varint(value), rest)),
            None => None,
        },
        WireType::ThirtyTwoBit => match read_bits32(bytes) {
            Some((value, rest)) => Some((PayloadView::Bits32(value), rest)),
            None => None,
        },
        WireType::LengthDelimited => match read_delimited(bytes) {
            Some((run, rest)) => Some((PayloadView::Bytes(run), rest)),
            None => None,
        },
        _ => match after_payload(tag, wire, bytes, depth) {
            Some(rest) => Some((PayloadView::Other(wire), rest)),
            None => None,
        },
    }
}

/// Reads the field at the front of `bytes`, where the depth `depth` is left:
/// the field and what follows.
pub open spec fn read_field(bytes: Seq<u8>, depth: nat) -> Option<(FieldView, Seq<u8>)> {
    match read_key(bytes) {
        Some((tag, wire, rest)) => match read_payload(tag, wire, rest, depth) {
            Some((payload, rest)) => Some((FieldView { tag, payload }, rest)),
            None => None,
        },
        None => None,
    }
}

/// A field that can be written: its number fits in a key, its payload is a
/// varint, 32 bits or a run of bytes whose length fits in a varint.
pub open spec fn writable(field: FieldView) -> bool {
    &&& valid_tag(field.tag)
    &&& match field.payload {
        PayloadView::Varint(_) => true,
        PayloadView::Bits32(_) => true,
        PayloadView::Bytes(run) => run.len() <= u64::MAX,
        PayloadView::Other(_) => false,
    }
}

/// The bytes of a field.
pub open spec fn field_bytes(field: FieldView) -> Seq<u8> {
    match field.payload {
        PayloadView::Varint(value) => key_bytes(field.tag, WireType::Varint) + varint(
            value as nat,
        ),
        PayloadView::Bits32(value) => key_bytes(field.tag, WireType::ThirtyTwoBit) + little_endian(
            value as nat,
            4,
        ),
        PayloadView::Bytes(run) => key_bytes(field.tag, WireType::LengthDelimited) + varint(
            run.len(),
        ) + run,
        PayloadView::Other(wire) => key_bytes(field.tag, wire),
    }
}

/// The bytes of a run of fields.
pub open spec fn fields_bytes(fields: Seq<FieldView>) -> Seq<u8>
    decreases fields.len(),
{
    if fields.len() == 0 {
        seq![]
    } else {
        field_bytes(fields[0]) + fields_bytes(fields.skip(1))
    }
}

pub(crate) proof fn lemma_varint_shortens(bytes: Seq<u8>)
    ensures
        varint_len(bytes) matches Some(n) ==> 1 <= n <= bytes.len(),
    decreases bytes.len(),
{
    if bytes.len() > 0 {
        lemma_varint_shortens(bytes.skip(1));
    }
}

proof fn lemma_group_shortens(tag: u32, bytes: Seq<u8>, depth: nat)
    ensures
        after_group(tag, bytes, depth) matches Some(rest) ==> rest.len() < bytes.len(),
    decreases depth, bytes.len(), 0nat,
{
    lemma_varint_shortens(bytes);
    match read_key(bytes) {
        Some((inner, wire, rest)) if wire != WireType::EndGroup && depth > 0 => {
            if let Some(next) = after_payload(inner, wire, rest, (depth - 1) as nat) {
                if next.len() < bytes.len() {
                    lemma_group_shortens(tag, next, depth);
                }
            }
        },
        _ => {},
    }
}

/// Skipping a payload does not move back. So the comparison of lengths in
/// [`after_group`] refuses nothing.
pub proof fn payload_shortens(tag: u32, wire: WireType, bytes: Seq<u8>, depth: nat)
    ensures
        after_payload(tag, wire, bytes, depth) matches Some(rest) ==> rest.len() <= bytes.len(),
{
    lemma_varint_shortens(bytes);
    lemma_group_shortens(tag, bytes, depth);
}

/// Reading a field moves on.
pub proof fn read_field_shortens(bytes: Seq<u8>, depth: nat)
    ensures
        read_field(bytes, depth) matches Some((_, rest)) ==> rest.len() < bytes.len(),
{
    lemma_varint_shortens(bytes);
    if let Some((tag, wire, rest)) = read_key(bytes) {
        lemma_varint_shortens(rest);
        payload_shortens(tag, wire, rest, depth);
    }
}

/// A run of bytes behind its length is read back as it was written.
pub proof fn delimited_round_trip(run: Seq<u8>, tail: Seq<u8>)
    requires
        run.len() <= u64::MAX,
    ensures
        read_delimited(varint(run.len()) + run + tail) == Some((run, tail)),
{
    varint_round_trip(run.len() as u64, run + tail);
    assert(varint(run.len()) + run + tail =~= varint(run.len()) + (run + tail));
    assert((run + tail).take(run.len() as int) =~= run);
    assert((run + tail).skip(run.len() as int) =~= tail);
}

proof fn lemma_payload_follows(
    tag: u32,
    wire: WireType,
    payload: Seq<u8>,
    tail: Seq<u8>,
    depth: nat,
)
    requires
        valid_tag(tag),
    ensures
        read_field(key_bytes(tag, wire) + payload + tail, depth) == match read_payload(
            tag,
            wire,
            payload + tail,
            depth,
        ) {
            Some((payload, rest)) => Some((FieldView { tag, payload }, rest)),
            None => None,
        },
{
    key_round_trip(tag, wire, payload + tail);
    assert(key_bytes(tag, wire) + payload + tail =~= key_bytes(tag, wire) + (payload + tail));
}

/// A field is read back as it was written.
pub proof fn field_round_trip(field: FieldView, tail: Seq<u8>, depth: nat)
    requires
        writable(field),
    ensures
        read_field(field_bytes(field) + tail, depth) == Some((field, tail)),
        field_bytes(field).len() >= 1,
{
    let tag = field.tag;
    match field.payload {
        PayloadView::Varint(value) => {
            key_round_trip(tag, WireType::Varint, seq![]);
            lemma_payload_follows(tag, WireType::Varint, varint(value as nat), tail, depth);
            varint_round_trip(value, tail);
        },
        PayloadView::Bits32(value) => {
            let bytes = little_endian(value as nat, 4);
            key_round_trip(tag, WireType::ThirtyTwoBit, seq![]);
            lemma_payload_follows(tag, WireType::ThirtyTwoBit, bytes, tail, depth);
            bits32_round_trip(value, tail);
        },
        PayloadView::Bytes(run) => {
            key_round_trip(tag, WireType::LengthDelimited, seq![]);
            lemma_payload_follows(
                tag,
                WireType::LengthDelimited,
                varint(run.len()) + run,
                tail,
                depth,
            );
            delimited_round_trip(run, tail);
            let key = key_bytes(tag, WireType::LengthDelimited);
            assert(key + varint(run.len()) + run =~= key + (varint(run.len()) + run));
        },
        PayloadView::Other(_) => {},
    }
}

// --- Skipping at a depth ---

proof fn lemma_varint_local(bytes: Seq<u8>, tail: Seq<u8>)
    ensures
        varint_len(bytes) matches Some(n) ==> 1 <= n <= bytes.len() && varint_len(
            bytes.take(n as int) + tail,
        ) == Some(n),
    decreases bytes.len(),
{
    lemma_varint_shortens(bytes);
    if let Some(n) = varint_len(bytes) {
        let front = bytes.take(n as int) + tail;
        assert(front[0] == bytes[0]);
        if bytes[0] >= 128 {
            lemma_varint_local(bytes.skip(1), tail);
            assert(front.skip(1) =~= bytes.skip(1).take(n - 1) + tail);
        }
    }
}

/// What a varint is read as depends on its own bytes alone.
proof fn lemma_read_varint_local(bytes: Seq<u8>, tail: Seq<u8>)
    ensures
        read_varint(bytes) matches Some((value, rest)) ==> rest.len() < bytes.len() && rest
            == bytes.skip(bytes.len() - rest.len()) && read_varint(
            bytes.take(bytes.len() - rest.len()) + tail,
        ) == Some((value, tail)),
{
    lemma_varint_local(bytes, tail);
    if let Some((_, rest)) = read_varint(bytes) {
        let n = bytes.len() - rest.len();
        let front = bytes.take(n) + tail;
        assert(front.take(n) =~= bytes.take(n));
        assert(front.skip(n) =~= tail);
    }
}

proof fn lemma_read_key_local(bytes: Seq<u8>, tail: Seq<u8>)
    ensures
        read_key(bytes) matches Some((tag, wire, rest)) ==> rest.len() < bytes.len() && rest
            == bytes.skip(bytes.len() - rest.len()) && read_key(
            bytes.take(bytes.len() - rest.len()) + tail,
        ) == Some((tag, wire, tail)),
{
    lemma_read_varint_local(bytes, tail);
}

/// How a payload is skipped depends on its own bytes alone: with `tail` in
/// place of what follows, `tail` is what is left.
proof fn lemma_payload_local(
    tag: u32,
    wire: WireType,
    bytes: Seq<u8>,
    depth: nat,
    tail: Seq<u8>,
)
    ensures
        after_payload(tag, wire, bytes, depth) matches Some(rest) ==> rest.len() <= bytes.len()
            && rest == bytes.skip(bytes.len() - rest.len()) && after_payload(
            tag,
            wire,
            bytes.take(bytes.len() - rest.len()) + tail,
            depth,
        ) == Some(tail),
    decreases depth, bytes.len(), 1nat,
{
    if let Some(rest) = after_payload(tag, wire, bytes, depth) {
        let n = bytes.len() - rest.len();
        match wire {
            WireType::Varint => lemma_read_varint_local(bytes, tail),
            WireType::LengthDelimited => {
                let (len, run) = read_varint(bytes)->0;
                let middle = run.take(len as int) + tail;
                lemma_read_varint_local(bytes, middle);
                assert(bytes.take(n) + tail =~= bytes.take(bytes.len() - run.len()) + middle);
                assert(middle.skip(len as int) =~= tail);
                assert(rest =~= bytes.skip(n));
            },
            WireType::StartGroup => lemma_group_local(tag, bytes, depth, tail),
            _ => {
                assert((bytes.take(n) + tail).skip(n) =~= tail);
            },
        }
    }
}

proof fn lemma_group_local(tag: u32, bytes: Seq<u8>, depth: nat, tail: Seq<u8>)
    ensures
        after_group(tag, bytes, depth) matches Some(rest) ==> rest.len() <= bytes.len() && rest
            == bytes.skip(bytes.len() - rest.len()) && after_group(
            tag,
            bytes.take(bytes.len() - rest.len()) + tail,
            depth,
        ) == Some(tail),
    decreases depth, bytes.len(), 0nat,
{
    if let Some(rest) = after_group(tag, bytes, depth) {
        let (inner, wire, first) = read_key(bytes)->0;
        if wire == WireType::EndGroup {
            lemma_read_key_local(bytes, tail);
        } else {
            let next = after_payload(inner, wire, first, (depth - 1) as nat)->0;
            lemma_group_local(tag, next, depth, tail);
            let after_next = next.take(next.len() - rest.len()) + tail;
            lemma_payload_local(inner, wire, first, (depth - 1) as nat, after_next);
            let after_first = first.take(first.len() - next.len()) + after_next;
            lemma_read_key_local(bytes, after_first);
            let front = bytes.take(bytes.len() - rest.len()) + tail;
            assert(front == bytes.take(bytes.len() - first.len()) + after_first
                && after_next.len() < front.len() && rest == bytes.skip(bytes.len() - rest.len()))
                by {
                lemma_split(bytes, first, next, rest, tail);
            }
            lemma_group_step(tag, front, depth, inner, wire, after_first);
        }
    }
}

proof fn lemma_split(
    bytes: Seq<u8>,
    first: Seq<u8>,
    next: Seq<u8>,
    rest: Seq<u8>,
    tail: Seq<u8>,
)
    requires
        rest.len() <= next.len() <= first.len() < bytes.len(),
        first == bytes.skip(bytes.len() - first.len()),
        next == first.skip(first.len() - next.len()),
        rest == next.skip(next.len() - rest.len()),
    ensures
        rest == bytes.skip(bytes.len() - rest.len()),
        bytes.take(bytes.len() - rest.len()) + tail == bytes.take(bytes.len() - first.len()) + (
        first.take(first.len() - next.len()) + (next.take(next.len() - rest.len()) + tail)),
{
    assert(rest =~= bytes.skip(bytes.len() - rest.len()));
    assert(bytes.take(bytes.len() - rest.len()) + tail =~= bytes.take(bytes.len() - first.len()) + (
    first.take(first.len() - next.len()) + (next.take(next.len() - rest.len()) + tail)));
}

proof fn lemma_group_step(
    tag: u32,
    bytes: Seq<u8>,
    depth: nat,
    inner: u32,
    wire: WireType,
    first: Seq<u8>,
)
    requires
        read_key(bytes) == Some((inner, wire, first)),
        wire != WireType::EndGroup,
        depth > 0,
    ensures
        after_group(tag, bytes, depth) == match after_payload(
            inner,
            wire,
            first,
            (depth - 1) as nat,
        ) {
            Some(next) => after_group(tag, next, depth),
            None => None,
        },
{
    lemma_varint_shortens(bytes);
    payload_shortens(inner, wire, first, (depth - 1) as nat);
}

/// How a field is read depends on its own bytes alone: with `tail` in place of
/// what follows, the field is the same and `tail` is what is left.
pub proof fn fields_stand_for_themselves(bytes: Seq<u8>, depth: nat, tail: Seq<u8>)
    ensures
        read_field(bytes, depth) matches Some((field, rest)) ==> rest.len() < bytes.len() && rest
            == bytes.skip(bytes.len() - rest.len()) && read_field(
            bytes.take(bytes.len() - rest.len()) + tail,
            depth,
        ) == Some((field, tail)),
{
    if let Some((field, rest)) = read_field(bytes, depth) {
        let (tag, wire, first) = read_key(bytes)->0;
        let n = first.len() - rest.len();
        let after = first.take(n) + tail;
        lemma_read_key_local(bytes, after);
        match wire {
            WireType::Varint => lemma_read_varint_local(first, tail),
            WireType::ThirtyTwoBit => {
                assert(after.take(4) =~= first.take(4));
                assert(after.skip(4) =~= tail);
            },
            WireType::LengthDelimited => {
                let (len, run) = read_varint(first)->0;
                let middle = run.take(len as int) + tail;
                lemma_read_varint_local(first, middle);
                assert(after =~= first.take(first.len() - run.len()) + middle);
                assert(middle.take(len as int) =~= run.take(len as int));
                assert(middle.skip(len as int) =~= tail);
            },
            _ => lemma_payload_local(tag, wire, first, depth, tail),
        }
        assert(rest =~= bytes.skip(bytes.len() - rest.len()));
        assert(bytes.take(bytes.len() - rest.len()) + tail =~= bytes.take(
            bytes.len() - first.len(),
        ) + after);
    }
}

/// What can be skipped with some depth left is skipped alike with more.
proof fn lemma_payload_deeper(tag: u32, wire: WireType, bytes: Seq<u8>, depth: nat, more: nat)
    requires
        depth <= more,
    ensures
        after_payload(tag, wire, bytes, depth) matches Some(rest) ==> after_payload(
            tag,
            wire,
            bytes,
            more,
        ) == Some(rest),
    decreases depth, bytes.len(), 1nat,
{
    if wire == WireType::StartGroup && depth > 0 {
        lemma_group_deeper(tag, bytes, depth, more);
    }
}

proof fn lemma_group_deeper(tag: u32, bytes: Seq<u8>, depth: nat, more: nat)
    requires
        depth <= more,
    ensures
        after_group(tag, bytes, depth) matches Some(rest) ==> after_group(tag, bytes, more) == Some(
            rest,
        ),
    decreases depth, bytes.len(), 0nat,
{
    if let Some((inner, wire, first)) = read_key(bytes) {
        if wire != WireType::EndGroup && depth > 0 {
            lemma_payload_deeper(inner, wire, first, (depth - 1) as nat, (more - 1) as nat);
            if let Some(next) = after_payload(inner, wire, first, (depth - 1) as nat) {
                if next.len() < bytes.len() {
                    lemma_group_deeper(tag, next, depth, more);
                }
            }
        }
    }
}

/// A payload of one length is skipped or not whatever follows it.
proof fn lemma_payload_alike(
    tag: u32,
    wire: WireType,
    payload: Seq<u8>,
    rest: Seq<u8>,
    depth: nat,
    tail: Seq<u8>,
)
    requires
        depth <= DEPTH_LIMIT,
        after_payload(tag, wire, payload + rest, DEPTH_LIMIT as nat) == Some(rest),
    ensures
        after_payload(tag, wire, payload + tail, depth) == if after_payload(
            tag,
            wire,
            payload + rest,
            depth,
        ) is Some {
            Some(tail)
        } else {
            None
        },
{
    let limit = DEPTH_LIMIT as nat;
    assert((payload + rest).take(payload.len() as int) =~= payload);
    assert((payload + tail).take(payload.len() as int) =~= payload);
    lemma_payload_local(tag, wire, payload + rest, limit, tail);
    lemma_payload_deeper(tag, wire, payload + rest, depth, limit);
    lemma_payload_deeper(tag, wire, payload + tail, depth, limit);
    lemma_payload_local(tag, wire, payload + rest, depth, tail);
    lemma_payload_local(tag, wire, payload + tail, depth, rest);
}

/// A field inside `n` groups with the same number, behind the key of the
/// outermost.
spec fn inside_groups(tag: u32, wire: WireType, payload: Seq<u8>, n: nat) -> Seq<u8>
    decreases n,
{
    if n == 0 {
        payload
    } else {
        key_bytes(tag, outermost(wire, (n - 1) as nat)) + inside_groups(
            tag,
            wire,
            payload,
            (n - 1) as nat,
        ) + key_bytes(tag, WireType::EndGroup)
    }
}

/// The wire type of the outermost of `n` groups around a field.
spec fn outermost(wire: WireType, n: nat) -> WireType {
    if n == 0 {
        wire
    } else {
        WireType::StartGroup
    }
}

/// Whether a payload is skipped, or is not, whatever follows it.
spec fn skipped_alike(
    tag: u32,
    wire: WireType,
    payload: Seq<u8>,
    depth: nat,
    skipped: bool,
) -> bool {
    forall|rest: Seq<u8>| #[trigger]
        after_payload(tag, wire, payload + rest, depth) == if skipped {
            Some(rest)
        } else {
            None
        }
}

/// Each group around a field takes one off the depth that is left for it.
proof fn lemma_inside_groups(
    tag: u32,
    wire: WireType,
    payload: Seq<u8>,
    n: nat,
    depth: nat,
    tail: Seq<u8>,
    skipped: bool,
)
    requires
        valid_tag(tag),
        wire != WireType::EndGroup,
        n <= depth,
        skipped_alike(tag, wire, payload, (depth - n) as nat, skipped),
    ensures
        after_payload(
            tag,
            outermost(wire, n),
            inside_groups(tag, wire, payload, n) + tail,
            depth,
        ) == if skipped {
            Some(tail)
        } else {
            None
        },
    decreases n,
{
    if n > 0 {
        let inner_wire = outermost(wire, (n - 1) as nat);
        let inner = inside_groups(tag, wire, payload, (n - 1) as nat);
        let end = key_bytes(tag, WireType::EndGroup);
        let bytes = inside_groups(tag, wire, payload, n) + tail;
        assert(bytes =~= key_bytes(tag, inner_wire) + (inner + (end + tail)));
        key_round_trip(tag, inner_wire, inner + (end + tail));
        lemma_inside_groups(
            tag,
            wire,
            payload,
            (n - 1) as nat,
            (depth - 1) as nat,
            end + tail,
            skipped,
        );
        lemma_group_step(tag, bytes, depth, tag, inner_wire, inner + (end + tail));
        key_round_trip(tag, WireType::EndGroup, tail);
        assert(after_group(tag, end + tail, depth) == Some(tail));
    }
}

fn put_inside_groups(tag: u32, wire: WireType, payload: &[u8], n: u32, buf: &mut Vec<u8>)
    requires
        valid_tag(tag),
    ensures
        final(buf)@ == old(buf)@ + inside_groups(tag, wire, payload@, n as nat),
    decreases n,
{
    if n == 0 {
        buf.extend_from_slice(payload);
    } else {
        let outermost = if n == 1 {
            wire
        } else {
            WireType::StartGroup
        };
        put_key(tag, outermost, buf);
        put_inside_groups(tag, wire, payload, n - 1, buf);
        put_key(tag, WireType::EndGroup, buf);
        assert(buf@ =~= old(buf)@ + inside_groups(tag, wire, payload@, n as nat));
    }
}

/// Moves past the payload of a field, where the depth `depth` is left.
///
/// What is skipped starts with the whole depth. So where less is left, the
/// field has to pass once more inside groups that take up the difference.
fn skip_payload_at(tag: u32, wire: WireType, bytes: &[u8], depth: u32) -> (out: Result<
    &[u8],
    prost::DecodeError,
>)
    requires
        valid_tag(tag),
        depth <= DEPTH_LIMIT,
    ensures
        match out {
            Ok(rest) => after_payload(tag, wire, bytes@, depth as nat) == Some(rest@),
            Err(_) => after_payload(tag, wire, bytes@, depth as nat) is None,
        },
{
    let ghost limit = DEPTH_LIMIT as nat;
    proof {
        lemma_payload_deeper(tag, wire, bytes@, depth as nat, limit);
        lemma_payload_local(tag, wire, bytes@, limit, seq![]);
    }
    let rest = skip_payload(tag, wire, bytes)?;
    if depth < DEPTH_LIMIT {
        let payload = slice_subrange(bytes, 0, bytes.len() - rest.len());
        let groups: u32 = DEPTH_LIMIT - depth;
        let mut nested: Vec<u8> = Vec::new();
        put_inside_groups(tag, wire, payload, groups, &mut nested);
        proof {
            let skipped = after_payload(tag, wire, bytes@, depth as nat) is Some;
            assert(bytes@ =~= payload@ + rest@);
            assert(skipped_alike(tag, wire, payload@, depth as nat, skipped)) by {
                assert forall|tail: Seq<u8>| #[trigger]
                    after_payload(tag, wire, payload@ + tail, depth as nat) == if skipped {
                        Some(tail)
                    } else {
                        None
                    } by {
                    lemma_payload_alike(tag, wire, payload@, rest@, depth as nat, tail);
                }
            }
            lemma_inside_groups(tag, wire, payload@, groups as nat, limit, seq![], skipped);
            assert(nested@ + seq![] =~= nested@);
        }
        skip_payload(tag, WireType::StartGroup, &nested)?;
    }
    Ok(rest)
}

/// Reads the field at the front of `bytes`, where the depth `depth` is left,
/// and moves past it.
pub fn take_field(bytes: &[u8], depth: u32) -> (out: Result<(Field, &[u8]), Malformed>)
    requires
        depth <= DEPTH_LIMIT,
    ensures
        match out {
            Ok((field, rest)) => read_field(bytes@, depth as nat) == Some((field@, rest@)),
            Err(e) => read_field(bytes@, depth as nat) is None && e@ == DecodeFault::Wire,
        },
{
    let (tag, wire, rest) = match take_key(bytes) {
        Ok(key) => key,
        Err(e) => return Err(Malformed::Wire(e)),
    };
    match wire {
        WireType::Varint => match take_varint(rest) {
            Ok((value, rest)) => Ok((Field { tag, payload: Payload::Varint(value) }, rest)),
            Err(e) => Err(Malformed::Wire(e)),
        },
        WireType::ThirtyTwoBit => match take_bits32(rest) {
            Ok((value, rest)) => Ok((Field { tag, payload: Payload::Bits32(value) }, rest)),
            Err(e) => Err(Malformed::Wire(e)),
        },
        WireType::LengthDelimited => match take_delimited(rest) {
            Ok((run, rest)) => Ok((Field { tag, payload: Payload::Bytes(run) }, rest)),
            Err(e) => Err(Malformed::Wire(e)),
        },
        _ => match skip_payload_at(tag, wire, rest, depth) {
            Ok(rest) => Ok((Field { tag, payload: Payload::Other(wire) }, rest)),
            Err(e) => Err(Malformed::Wire(e)),
        },
    }
}

/// Appends a field with a varint.
pub fn put_varint_field(tag: u32, value: u64, buf: &mut Vec<u8>)
    requires
        valid_tag(tag),
    ensures
        final(buf)@ == old(buf)@ + field_bytes(
            FieldView { tag, payload: PayloadView::Varint(value) },
        ),
{
    put_key(tag, WireType::Varint, buf);
    put_varint(value, buf);
}

/// Appends a field with a run of bytes.
pub fn put_bytes_field(tag: u32, run: &[u8], buf: &mut Vec<u8>)
    requires
        valid_tag(tag),
    ensures
        final(buf)@ == old(buf)@ + field_bytes(
            FieldView { tag, payload: PayloadView::Bytes(run@) },
        ),
{
    put_key(tag, WireType::LengthDelimited, buf);
    put_varint(run.len() as u64, buf);
    buf.extend_from_slice(run);
}

}
