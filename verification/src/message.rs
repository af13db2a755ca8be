//! Protobuf messages: what they are written as, and how they are read.
use vstd::prelude::*;
use vstd::utf8::{decode_utf8, encode_utf8, valid_utf8};

use crate::codec::Float;
use crate::error::{DecodeFault, Malformed};
use crate::wire::{
    put_bits32, put_bytes_field, put_varint, put_varint_field, take_field, take_varint, Field,
    Payload, WireType, DEPTH_LIMIT,
};

verus! {

use crate::wire::{
    field_bytes, field_round_trip, fields_bytes, fields_stand_for_themselves, lemma_varint_shortens,
    read_field, read_field_shortens, read_varint, valid_tag, varint, varint_round_trip, writable,
    FieldView, PayloadView,
};

/// The layout of a protobuf message: what it is written as, and what a field
/// that is read changes.
pub trait Layout: View + Sized {
    /// The message without any field set.
    spec fn empty() -> Self::V;

    /// The fields that the message is written as, in the order of their
    /// numbers. A field that holds its default is not written.
    spec fn fields(m: Self::V) -> Seq<FieldView>;

    /// The message after a field was merged into it. A number or a text
    /// replaces the one before, a repeated field grows by an item, a field
    /// that the message does not know changes nothing.
    ///
    /// A message within this one is read with one off `depth`, the depth that
    /// is left. With none left, neither such a message nor a field that the
    /// message does not know is read.
    spec fn merged(m: Self::V, field: FieldView, depth: nat) -> Result<Self::V, DecodeFault>;

    /// Whether the message is read back as it was written, where the depth
    /// `depth` is left.
    spec fn reads_back(m: Self::V, depth: nat) -> bool;

    /// The numbers of the fields that the message has.
    spec fn knows(tag: u32) -> bool;
}

/// The bytes that a message is written as.
pub open spec fn message_bytes<M: Layout>(m: M::V) -> Seq<u8> {
    fields_bytes(M::fields(m))
}

/// The message after a run of fields was merged into it.
pub open spec fn merge_fields<M: Layout>(m: M::V, fields: Seq<FieldView>, depth: nat) -> Result<
    M::V,
    DecodeFault,
>
    decreases fields.len(),
{
    if fields.len() == 0 {
        Ok(m)
    } else {
        match M::merged(m, fields[0], depth) {
            Ok(m) => merge_fields::<M>(m, fields.skip(1), depth),
            Err(e) => Err(e),
        }
    }
}

/// The message after the fields that `bytes` hold were merged into it, where
/// the depth `depth` is left.
pub open spec fn merge_bytes<M: Layout>(m: M::V, bytes: Seq<u8>, depth: nat) -> Result<
    M::V,
    DecodeFault,
>
    decreases bytes.len(),
{
    if bytes.len() == 0 {
        Ok(m)
    } else {
        match read_field(bytes, depth) {
            Some((field, rest)) => match M::merged(m, field, depth) {
                Ok(m) => {
                    proof {
                        read_field_shortens(bytes, depth);
                    }
                    merge_bytes::<M>(m, rest, depth)
                },
                Err(e) => Err(e),
            },
            None => Err(DecodeFault::Wire),
        }
    }
}

/// What the bytes of a whole message decode to.
pub open spec fn read_message<M: Layout>(bytes: Seq<u8>) -> Result<M::V, DecodeFault> {
    merge_bytes::<M>(M::empty(), bytes, DEPTH_LIMIT as nat)
}

/// A protobuf message: a value that is written as a run of fields and read by
/// merging one field after another into an empty message.
pub trait Message: Layout {
    fn new() -> (m: Self)
        ensures
            m@ == Self::empty(),
    ;

    fn put_fields(&self, buf: &mut Vec<u8>)
        ensures
            final(buf)@ == old(buf)@ + message_bytes::<Self>(self@),
    ;

    fn merge_field(&mut self, field: Field, depth: u32) -> (out: Result<(), Malformed>)
        requires
            depth <= DEPTH_LIMIT,
        ensures
            Self::merged(old(self)@, field@, depth as nat) == match out {
                Ok(()) => Ok::<Self::V, DecodeFault>(final(self)@),
                Err(e) => Err::<Self::V, DecodeFault>(e@),
            },
    ;

    /// Merging the fields that a message is written as gives the message.
    proof fn fields_give_message(m: Self::V, depth: nat)
        requires
            message_bytes::<Self>(m).len() <= u64::MAX,
            Self::reads_back(m, depth),
        ensures
            merge_fields::<Self>(Self::empty(), Self::fields(m), depth) == Ok::<
                Self::V,
                DecodeFault,
            >(m),
            forall|i: int|
                0 <= i < Self::fields(m).len() ==> writable(#[trigger] Self::fields(m)[i]),
    ;

    /// A field that the message does not have changes nothing.
    proof fn unknown_changes_nothing(m: Self::V, field: FieldView, depth: nat)
        requires
            !Self::knows(field.tag),
            depth > 0,
        ensures
            Self::merged(m, field, depth) == Ok::<Self::V, DecodeFault>(m),
    ;
}

/// Writes a message.
pub fn encode_message<M: Message>(m: &M) -> (bytes: Vec<u8>)
    ensures
        bytes@ == message_bytes::<M>(m@),
{
    let mut buf: Vec<u8> = Vec::new();
    m.put_fields(&mut buf);
    buf
}

/// Merges the fields that `bytes` hold into a message, where the depth `depth`
/// is left.
pub fn merge_message<M: Message>(m: &mut M, bytes: &[u8], depth: u32) -> (out: Result<
    (),
    Malformed,
>)
    requires
        depth <= DEPTH_LIMIT,
    ensures
        merge_bytes::<M>(old(m)@, bytes@, depth as nat) == match out {
            Ok(()) => Ok::<M::V, DecodeFault>(final(m)@),
            Err(e) => Err::<M::V, DecodeFault>(e@),
        },
{
    let mut rest = bytes;
    while rest.len() > 0
        invariant
            depth <= DEPTH_LIMIT,
            merge_bytes::<M>(m@, rest@, depth as nat) == merge_bytes::<M>(
                old(m)@,
                bytes@,
                depth as nat,
            ),
        decreases rest@.len(),
    {
        proof {
            read_field_shortens(rest@, depth as nat);
        }
        let (field, after) = take_field(rest, depth)?;
        m.merge_field(field, depth)?;
        rest = after;
    }
    Ok(())
}

/// Reads a message. The whole of `bytes` has to be in the wire format.
pub fn decode_message<M: Message>(bytes: &[u8]) -> (out: Result<M, Malformed>)
    ensures
        match out {
            Ok(m) => read_message::<M>(bytes@) == Ok::<M::V, DecodeFault>(m@),
            Err(e) => read_message::<M>(bytes@) == Err::<M::V, DecodeFault>(e@),
        },
{
    let mut m = M::new();
    merge_message(&mut m, bytes, DEPTH_LIMIT)?;
    Ok(m)
}

pub(crate) proof fn lemma_merge_written<M: Layout>(m: M::V, fields: Seq<FieldView>, depth: nat)
    requires
        forall|i: int| 0 <= i < fields.len() ==> writable(#[trigger] fields[i]),
    ensures
        merge_bytes::<M>(m, fields_bytes(fields), depth) == merge_fields::<M>(m, fields, depth),
    decreases fields.len(),
{
    if fields.len() > 0 {
        let rest = fields_bytes(fields.skip(1));
        field_round_trip(fields[0], rest, depth);
        if let Ok(next) = M::merged(m, fields[0], depth) {
            assert forall|i: int| 0 <= i < fields.skip(1).len() implies writable(
                #[trigger] fields.skip(1)[i],
            ) by {
                assert(fields.skip(1)[i] == fields[i + 1]);
            }
            lemma_merge_written::<M>(next, fields.skip(1), depth);
        }
    }
}

/// A message is read back as it was written, but for what protobuf does not
/// keep: the sign of a zero, and messages that stand deeper within one another
/// than a reader goes.
pub proof fn message_round_trip<M: Message>(m: M::V)
    requires
        message_bytes::<M>(m).len() <= u64::MAX,
        M::reads_back(m, DEPTH_LIMIT as nat),
    ensures
        read_message::<M>(message_bytes::<M>(m)) == Ok::<M::V, DecodeFault>(m),
{
    lemma_inner_round_trip::<M>(m, DEPTH_LIMIT as nat);
}

pub(crate) proof fn lemma_inner_round_trip<M: Message>(m: M::V, depth: nat)
    requires
        message_bytes::<M>(m).len() <= u64::MAX,
        M::reads_back(m, depth),
    ensures
        merge_bytes::<M>(M::empty(), message_bytes::<M>(m), depth) == Ok::<M::V, DecodeFault>(m),
{
    M::fields_give_message(m, depth);
    lemma_merge_written::<M>(M::empty(), M::fields(m), depth);
}

/// The bytes of two messages, one behind the other, are those of the first
/// with the second merged into it.
pub proof fn joined_bytes_are_merged<M: Layout>(m: M::V, a: Seq<u8>, b: Seq<u8>, depth: nat)
    requires
        merge_bytes::<M>(m, a, depth) is Ok,
    ensures
        merge_bytes::<M>(m, a + b, depth) == merge_bytes::<M>(
            merge_bytes::<M>(m, a, depth)->Ok_0,
            b,
            depth,
        ),
    decreases a.len(),
{
    if a.len() == 0 {
        assert(a + b =~= b);
    } else {
        let (field, rest) = read_field(a, depth)->0;
        fields_stand_for_themselves(a, depth, rest + b);
        assert(a + b =~= a.take(a.len() - rest.len()) + (rest + b));
        read_field_shortens(a, depth);
        read_field_shortens(a + b, depth);
        let next = M::merged(m, field, depth)->Ok_0;
        joined_bytes_are_merged::<M>(next, rest, b, depth);
    }
}

/// No bytes at all are the message without any field set, and bytes that do not
/// start with a field are no message.
pub proof fn empty_bytes_are_the_empty_message<M: Layout>(bytes: Seq<u8>)
    ensures
        read_message::<M>(seq![]) == Ok::<M::V, DecodeFault>(M::empty()),
        bytes.len() > 0 && read_field(bytes, DEPTH_LIMIT as nat) is None ==> read_message::<M>(
            bytes,
        ) == Err::<M::V, DecodeFault>(DecodeFault::Wire),
{
}

/// A payload is a number, a text, bytes or a floating-point number where its
/// wire type is that of one, and nothing else: a text has to be UTF-8, the rest
/// is taken as it is.
pub proof fn payloads_are_taken_as_they_are(value: u64, run: Seq<u8>, bits: u32, wire: WireType)
    ensures
        number_in(PayloadView::Varint(value)) == Ok::<u64, DecodeFault>(value),
        number_in(PayloadView::Bytes(run)) == Err::<u64, DecodeFault>(DecodeFault::WireType),
        number_in(PayloadView::Bits32(bits)) == Err::<u64, DecodeFault>(DecodeFault::WireType),
        number_in(PayloadView::Other(wire)) == Err::<u64, DecodeFault>(DecodeFault::WireType),
        bytes_in(PayloadView::Bytes(run)) == Ok::<Seq<u8>, DecodeFault>(run),
        bytes_in(PayloadView::Varint(value)) == Err::<Seq<u8>, DecodeFault>(DecodeFault::WireType),
        bytes_in(PayloadView::Bits32(bits)) == Err::<Seq<u8>, DecodeFault>(DecodeFault::WireType),
        valid_utf8(run) ==> text_in(PayloadView::Bytes(run)) == Ok::<Seq<char>, DecodeFault>(
            decode_utf8(run),
        ),
        !valid_utf8(run) ==> text_in(PayloadView::Bytes(run)) == Err::<Seq<char>, DecodeFault>(
            DecodeFault::FieldText,
        ),
        text_in(PayloadView::Varint(value)) == Err::<Seq<char>, DecodeFault>(DecodeFault::WireType),
        float_in(PayloadView::Bits32(bits)) == Ok::<Float, DecodeFault>(Float { bits }),
        float_in(PayloadView::Varint(value)) == Err::<Float, DecodeFault>(DecodeFault::WireType),
        float_in(PayloadView::Bytes(run)) == Err::<Float, DecodeFault>(DecodeFault::WireType),
{
}

/// A field that the message does not have is skipped, whatever its wire type:
/// with such fields in front, behind or between, a message reads the same.
pub proof fn unknown_field_is_skipped<M: Message>(
    m: M::V,
    bytes: Seq<u8>,
    field: FieldView,
    rest: Seq<u8>,
    depth: nat,
)
    requires
        read_field(bytes, depth) == Some((field, rest)),
        !M::knows(field.tag),
        depth > 0,
    ensures
        merge_bytes::<M>(m, bytes, depth) == merge_bytes::<M>(m, rest, depth),
{
    read_field_shortens(bytes, depth);
    M::unknown_changes_nothing(m, field, depth);
}

// --- Fields by type ---

/// `std::str::from_utf8`: the text that the bytes are the UTF-8 encoding of;
/// fails exactly where they are not valid UTF-8.
pub assume_specification[ std::str::from_utf8 ](v: &[u8]) -> (res: std::result::Result<
    &str,
    std::str::Utf8Error,
>)
    ensures
        match res {
            Ok(text) => valid_utf8(v@) && text@ == decode_utf8(v@),
            Err(_) => !valid_utf8(v@),
        },
;

/// A field with a number, left out where it is zero.
pub open spec fn number_field(tag: u32, value: u64) -> Seq<FieldView> {
    if value == 0 {
        seq![]
    } else {
        seq![FieldView { tag, payload: PayloadView::Varint(value) }]
    }
}

/// The number that a truth value is written as.
pub open spec fn flag(value: bool) -> u64 {
    if value {
        1
    } else {
        0
    }
}

/// Whether a floating-point number is kept where it is written as a field. A
/// field with zero is left out, and negative zero counts as zero.
pub open spec fn keeps(value: Float) -> bool {
    value.bits != 0x8000_0000
}

/// A field with a floating-point number, left out where it is zero.
pub open spec fn float_field(tag: u32, value: Float) -> Seq<FieldView> {
    if value.bits == 0 || value.bits == 0x8000_0000 {
        seq![]
    } else {
        seq![FieldView { tag, payload: PayloadView::Bits32(value.bits) }]
    }
}

/// A repeated field with numbers, which stand in one run of bytes; left out
/// where there are none.
pub open spec fn packed_field(tag: u32, values: Seq<i32>) -> Seq<FieldView> {
    if values.len() == 0 {
        seq![]
    } else {
        seq![FieldView { tag, payload: PayloadView::Bytes(packed(values)) }]
    }
}

/// The varints of numbers, one after another.
pub open spec fn packed(values: Seq<i32>) -> Seq<u8>
    decreases values.len(),
{
    if values.len() == 0 {
        seq![]
    } else {
        packed(values.drop_last()) + varint((values.last() as u64) as nat)
    }
}

/// A field with a run of bytes, left out where it is empty.
pub open spec fn bytes_field(tag: u32, run: Seq<u8>) -> Seq<FieldView> {
    if run.len() == 0 {
        seq![]
    } else {
        seq![FieldView { tag, payload: PayloadView::Bytes(run) }]
    }
}

/// A field with a text, left out where it is empty.
pub open spec fn text_field(tag: u32, text: Seq<char>) -> Seq<FieldView> {
    if text.len() == 0 {
        seq![]
    } else {
        seq![FieldView { tag, payload: PayloadView::Bytes(encode_utf8(text)) }]
    }
}

/// A field with a message, left out where there is none.
pub open spec fn message_field<M: Layout>(tag: u32, m: Option<M::V>) -> Seq<FieldView> {
    match m {
        Some(m) => seq![FieldView { tag, payload: PayloadView::Bytes(message_bytes::<M>(m)) }],
        None => seq![],
    }
}

/// A repeated field with runs of bytes.
pub open spec fn repeated_bytes(tag: u32, runs: Seq<Seq<u8>>) -> Seq<FieldView> {
    Seq::new(runs.len(), |i: int| FieldView { tag, payload: PayloadView::Bytes(runs[i]) })
}

/// A repeated field with messages.
pub open spec fn repeated_messages<M: Layout>(tag: u32, ms: Seq<M::V>) -> Seq<FieldView> {
    repeated_bytes(tag, Seq::new(ms.len(), |i: int| message_bytes::<M>(ms[i])))
}

/// What becomes of a message at a field that it does not know, where the depth
/// `depth` is left.
pub open spec fn unknown_in<V>(m: V, depth: nat) -> Result<V, DecodeFault> {
    if depth == 0 {
        Err(DecodeFault::TooDeep)
    } else {
        Ok(m)
    }
}

/// The number in a payload.
pub open spec fn number_in(payload: PayloadView) -> Result<u64, DecodeFault> {
    match payload {
        PayloadView::Varint(value) => Ok(value),
        _ => Err(DecodeFault::WireType),
    }
}

/// The floating-point number in a payload.
pub open spec fn float_in(payload: PayloadView) -> Result<Float, DecodeFault> {
    match payload {
        PayloadView::Bits32(bits) => Ok(Float { bits }),
        _ => Err(DecodeFault::WireType),
    }
}

/// `values` with the numbers behind them whose varints are `bytes`.
pub open spec fn unpacked(values: Seq<i32>, bytes: Seq<u8>) -> Result<Seq<i32>, DecodeFault>
    decreases bytes.len(),
{
    if bytes.len() == 0 {
        Ok(values)
    } else {
        match read_varint(bytes) {
            Some((value, rest)) if rest.len() < bytes.len() => unpacked(
                values.push(value as i32),
                rest,
            ),
            _ => Err(DecodeFault::Wire),
        }
    }
}

/// `values` with the numbers behind them that a payload holds: one number, or
/// a run of them.
pub open spec fn packed_in(values: Seq<i32>, payload: PayloadView) -> Result<
    Seq<i32>,
    DecodeFault,
> {
    match payload {
        PayloadView::Varint(value) => Ok(values.push(value as i32)),
        PayloadView::Bytes(run) => unpacked(values, run),
        _ => Err(DecodeFault::WireType),
    }
}

/// The run of bytes in a payload.
pub open spec fn bytes_in(payload: PayloadView) -> Result<Seq<u8>, DecodeFault> {
    match payload {
        PayloadView::Bytes(run) => Ok(run),
        _ => Err(DecodeFault::WireType),
    }
}

/// The text in a payload.
pub open spec fn text_in(payload: PayloadView) -> Result<Seq<char>, DecodeFault> {
    match payload {
        PayloadView::Bytes(run) => if valid_utf8(run) {
            Ok(decode_utf8(run))
        } else {
            Err(DecodeFault::FieldText)
        },
        _ => Err(DecodeFault::WireType),
    }
}

/// The message that a payload makes of `m`, where the depth `depth` is left
/// around it.
pub open spec fn message_in<M: Layout>(m: M::V, payload: PayloadView, depth: nat) -> Result<
    M::V,
    DecodeFault,
> {
    match payload {
        PayloadView::Bytes(run) => if depth == 0 {
            Err(DecodeFault::TooDeep)
        } else {
            merge_bytes::<M>(m, run, (depth - 1) as nat)
        },
        _ => Err(DecodeFault::WireType),
    }
}

/// Whether a message that stands within another is read back, where the depth
/// `depth` is left around it.
pub open spec fn inner_reads_back<M: Layout>(m: M::V, depth: nat) -> bool {
    depth > 0 && M::reads_back(m, (depth - 1) as nat)
}

/// The views of a vector of messages.
pub open spec fn views<M: View>(ms: Seq<M>) -> Seq<M::V> {
    Seq::new(ms.len(), |i: int| ms[i]@)
}

pub(crate) proof fn lemma_fields_concat(a: Seq<FieldView>, b: Seq<FieldView>)
    ensures
        fields_bytes(a + b) == fields_bytes(a) + fields_bytes(b),
    decreases a.len(),
{
    if a.len() == 0 {
        assert(a + b =~= b);
        assert(fields_bytes(a) + fields_bytes(b) =~= fields_bytes(b));
    } else {
        assert((a + b).skip(1) =~= a.skip(1) + b);
        lemma_fields_concat(a.skip(1), b);
        assert(fields_bytes(a + b) =~= fields_bytes(a) + fields_bytes(b));
    }
}

pub(crate) proof fn lemma_merge_concat<M: Layout>(
    m: M::V,
    a: Seq<FieldView>,
    b: Seq<FieldView>,
    depth: nat,
)
    ensures
        merge_fields::<M>(m, a + b, depth) == match merge_fields::<M>(m, a, depth) {
            Ok(m) => merge_fields::<M>(m, b, depth),
            Err(e) => Err(e),
        },
    decreases a.len(),
{
    if a.len() == 0 {
        assert(a + b =~= b);
    } else {
        assert((a + b).skip(1) =~= a.skip(1) + b);
        if let Ok(next) = M::merged(m, a[0], depth) {
            lemma_merge_concat::<M>(next, a.skip(1), b, depth);
        }
    }
}

pub(crate) proof fn lemma_one_field(field: FieldView)
    ensures
        fields_bytes(seq![field]) == field_bytes(field),
{
    assert(seq![field].skip(1) =~= seq![]);
    assert(fields_bytes(seq![field].skip(1)) =~= seq![]);
    assert(fields_bytes(seq![field]) =~= field_bytes(field));
}

/// The bytes of a field are among the bytes of the run that it is in.
pub(crate) proof fn lemma_field_fits(fields: Seq<FieldView>, i: int)
    requires
        0 <= i < fields.len(),
    ensures
        field_bytes(fields[i]).len() <= fields_bytes(fields).len(),
        fields[i].payload matches PayloadView::Bytes(run) ==> run.len() <= fields_bytes(
            fields,
        ).len(),
    decreases fields.len(),
{
    if i > 0 {
        lemma_field_fits(fields.skip(1), i - 1);
    }
}

/// One field with a varint takes few bytes.
pub(crate) proof fn lemma_small_field(fields: Seq<FieldView>)
    requires
        fields.len() <= 1,
        fields.len() == 1 ==> fields[0].payload is Varint && valid_tag(fields[0].tag),
    ensures
        fields_bytes(fields).len() <= u64::MAX,
{
    if fields.len() == 1 {
        lemma_one_field(fields[0]);
        assert(fields =~= seq![fields[0]]);
        let value = fields[0].payload->Varint_0;
        varint_round_trip(value, seq![]);
        varint_round_trip((fields[0].tag * 8) as u64, seq![]);
    }
}

pub(crate) fn put_number(tag: u32, value: u64, buf: &mut Vec<u8>)
    requires
        valid_tag(tag),
    ensures
        final(buf)@ == old(buf)@ + fields_bytes(number_field(tag, value)),
{
    if value != 0 {
        proof {
            lemma_one_field(number_field(tag, value)[0]);
        }
        put_varint_field(tag, value, buf);
    }
    assert(value == 0 ==> buf@ =~= old(buf)@ + fields_bytes(number_field(tag, value)));
}

pub(crate) fn put_flag(tag: u32, value: bool, buf: &mut Vec<u8>)
    requires
        valid_tag(tag),
    ensures
        final(buf)@ == old(buf)@ + fields_bytes(number_field(tag, flag(value))),
{
    let number: u64 = if value {
        1
    } else {
        0
    };
    put_number(tag, number, buf);
}

pub(crate) fn put_float(tag: u32, value: Float, buf: &mut Vec<u8>)
    requires
        valid_tag(tag),
    ensures
        final(buf)@ == old(buf)@ + fields_bytes(float_field(tag, value)),
{
    let fields: Ghost<Seq<FieldView>> = Ghost(float_field(tag, value));
    if value.bits != 0 && value.bits != 0x8000_0000 {
        proof {
            lemma_one_field(fields@[0]);
        }
        put_bits32(tag, value.bits, buf);
    }
    assert(buf@ =~= old(buf)@ + fields_bytes(fields@));
}

pub(crate) fn put_packed(tag: u32, values: &Vec<i32>, buf: &mut Vec<u8>)
    requires
        valid_tag(tag),
    ensures
        final(buf)@ == old(buf)@ + fields_bytes(packed_field(tag, values@)),
{
    if values.len() == 0 {
        assert(buf@ =~= old(buf)@ + fields_bytes(packed_field(tag, values@)));
        return;
    }
    let mut run: Vec<u8> = Vec::new();
    assert(values@.take(0) =~= seq![]);
    for i in 0..values.len()
        invariant
            run@ == packed(values@.take(i as int)),
    {
        put_varint(values[i] as u64, &mut run);
        assert(values@.take(i + 1).drop_last() =~= values@.take(i as int));
    }
    assert(values@.take(values@.len() as int) =~= values@);
    proof {
        lemma_one_field(packed_field(tag, values@)[0]);
    }
    put_bytes_field(tag, &run, buf);
}

pub(crate) fn put_bytes(tag: u32, run: &[u8], buf: &mut Vec<u8>)
    requires
        valid_tag(tag),
    ensures
        final(buf)@ == old(buf)@ + fields_bytes(bytes_field(tag, run@)),
{
    if run.len() != 0 {
        proof {
            lemma_one_field(bytes_field(tag, run@)[0]);
        }
        put_bytes_field(tag, run, buf);
    }
    assert(run@.len() == 0 ==> buf@ =~= old(buf)@ + fields_bytes(bytes_field(tag, run@)));
}

pub(crate) fn put_text(tag: u32, text: &str, buf: &mut Vec<u8>)
    requires
        valid_tag(tag),
    ensures
        final(buf)@ == old(buf)@ + fields_bytes(text_field(tag, text@)),
{
    if !text.is_empty() {
        proof {
            lemma_one_field(text_field(tag, text@)[0]);
        }
        put_bytes_field(tag, text.as_bytes(), buf);
    }
    assert(text@.len() == 0 ==> buf@ =~= old(buf)@ + fields_bytes(text_field(tag, text@)));
}

pub(crate) fn put_message<M: Message>(tag: u32, m: &Option<M>, buf: &mut Vec<u8>)
    requires
        valid_tag(tag),
    ensures
        final(buf)@ == old(buf)@ + fields_bytes(message_field::<M>(tag, optional_view(*m))),
{
    match m {
        Some(m) => {
            let run = encode_message(m);
            proof {
                lemma_one_field(message_field::<M>(tag, Some(m@))[0]);
            }
            put_bytes_field(tag, &run, buf);
        },
        None => {
            assert(buf@ =~= old(buf)@ + fields_bytes(message_field::<M>(tag, None)));
        },
    }
}

pub(crate) fn put_repeated_bytes(tag: u32, runs: &Vec<Vec<u8>>, buf: &mut Vec<u8>)
    requires
        valid_tag(tag),
    ensures
        final(buf)@ == old(buf)@ + fields_bytes(repeated_bytes(tag, views(runs@))),
{
    let ghost all = repeated_bytes(tag, views(runs@));
    assert(buf@ =~= old(buf)@ + fields_bytes(all.take(0)));
    for i in 0..runs.len()
        invariant
            valid_tag(tag),
            all == repeated_bytes(tag, views(runs@)),
            buf@ == old(buf)@ + fields_bytes(all.take(i as int)),
    {
        put_bytes_field(tag, &runs[i], buf);
        proof {
            assert(all.take(i + 1) =~= all.take(i as int) + seq![all[i as int]]);
            lemma_fields_concat(all.take(i as int), seq![all[i as int]]);
            lemma_one_field(all[i as int]);
            assert(buf@ =~= old(buf)@ + fields_bytes(all.take(i + 1)));
        }
    }
    assert(all.take(runs@.len() as int) =~= all);
}

pub(crate) fn put_repeated_messages<M: Message>(tag: u32, ms: &Vec<M>, buf: &mut Vec<u8>)
    requires
        valid_tag(tag),
    ensures
        final(buf)@ == old(buf)@ + fields_bytes(repeated_messages::<M>(tag, views(ms@))),
{
    let ghost all = repeated_messages::<M>(tag, views(ms@));
    assert(buf@ =~= old(buf)@ + fields_bytes(all.take(0)));
    for i in 0..ms.len()
        invariant
            valid_tag(tag),
            all == repeated_messages::<M>(tag, views(ms@)),
            buf@ == old(buf)@ + fields_bytes(all.take(i as int)),
    {
        let run = encode_message(&ms[i]);
        put_bytes_field(tag, &run, buf);
        proof {
            assert(all.take(i + 1) =~= all.take(i as int) + seq![all[i as int]]);
            lemma_fields_concat(all.take(i as int), seq![all[i as int]]);
            lemma_one_field(all[i as int]);
            assert(buf@ =~= old(buf)@ + fields_bytes(all.take(i + 1)));
        }
    }
    assert(all.take(ms@.len() as int) =~= all);
}

pub(crate) fn skip_unknown(depth: u32) -> (out: Result<(), Malformed>)
    ensures
        unknown_in((), depth as nat) == match out {
            Ok(()) => Ok::<(), DecodeFault>(()),
            Err(e) => Err::<(), DecodeFault>(e@),
        },
{
    if depth == 0 {
        Err(Malformed::TooDeep)
    } else {
        Ok(())
    }
}

pub(crate) fn number_of(payload: Payload) -> (out: Result<u64, Malformed>)
    ensures
        match out {
            Ok(value) => number_in(payload@) == Ok::<u64, DecodeFault>(value),
            Err(e) => number_in(payload@) == Err::<u64, DecodeFault>(e@),
        },
{
    match payload {
        Payload::Varint(value) => Ok(value),
        _ => Err(Malformed::WireType),
    }
}

pub(crate) fn float_of(payload: Payload) -> (out: Result<Float, Malformed>)
    ensures
        match out {
            Ok(value) => float_in(payload@) == Ok::<Float, DecodeFault>(value),
            Err(e) => float_in(payload@) == Err::<Float, DecodeFault>(e@),
        },
{
    match payload {
        Payload::Bits32(bits) => Ok(Float { bits }),
        _ => Err(Malformed::WireType),
    }
}

pub(crate) fn merge_packed(values: &mut Vec<i32>, payload: Payload) -> (out: Result<(), Malformed>)
    ensures
        packed_in(old(values)@, payload@) == match out {
            Ok(()) => Ok::<Seq<i32>, DecodeFault>(final(values)@),
            Err(e) => Err::<Seq<i32>, DecodeFault>(e@),
        },
{
    match payload {
        Payload::Varint(value) => {
            values.push(value as i32);
            Ok(())
        },
        Payload::Bytes(run) => {
            let mut rest = run.as_slice();
            while rest.len() > 0
                invariant
                    unpacked(values@, rest@) == packed_in(old(values)@, payload@),
                decreases rest@.len(),
            {
                proof {
                    lemma_varint_shortens(rest@);
                }
                let (value, after) = match take_varint(rest) {
                    Ok(read) => read,
                    Err(e) => return Err(Malformed::Wire(e)),
                };
                values.push(value as i32);
                rest = after;
            }
            Ok(())
        },
        _ => Err(Malformed::WireType),
    }
}

pub(crate) fn bytes_of(payload: Payload) -> (out: Result<Vec<u8>, Malformed>)
    ensures
        match out {
            Ok(run) => bytes_in(payload@) == Ok::<Seq<u8>, DecodeFault>(run@),
            Err(e) => bytes_in(payload@) == Err::<Seq<u8>, DecodeFault>(e@),
        },
{
    match payload {
        Payload::Bytes(run) => Ok(run),
        _ => Err(Malformed::WireType),
    }
}

pub(crate) fn text_of(payload: Payload) -> (out: Result<String, Malformed>)
    ensures
        match out {
            Ok(text) => text_in(payload@) == Ok::<Seq<char>, DecodeFault>(text@),
            Err(e) => text_in(payload@) == Err::<Seq<char>, DecodeFault>(e@),
        },
{
    match payload {
        Payload::Bytes(run) => match std::str::from_utf8(&run) {
            Ok(text) => Ok(text.to_string()),
            Err(_) => Err(Malformed::FieldText),
        },
        _ => Err(Malformed::WireType),
    }
}

pub(crate) fn merge_payload<M: Message>(m: &mut M, payload: Payload, depth: u32) -> (out: Result<
    (),
    Malformed,
>)
    requires
        depth <= DEPTH_LIMIT,
    ensures
        message_in::<M>(old(m)@, payload@, depth as nat) == match out {
            Ok(()) => Ok::<M::V, DecodeFault>(final(m)@),
            Err(e) => Err::<M::V, DecodeFault>(e@),
        },
{
    match payload {
        Payload::Bytes(run) => if depth == 0 {
            Err(Malformed::TooDeep)
        } else {
            merge_message(m, &run, depth - 1)
        },
        _ => Err(Malformed::WireType),
    }
}

/// The view of a message that may be absent.
pub open spec fn optional_view<M: View>(m: Option<M>) -> Option<M::V> {
    match m {
        Some(m) => Some(m@),
        None => None,
    }
}

/// A message that may be absent, as the field that is merged next finds it.
pub open spec fn present_or_empty<M: Layout>(m: Option<M::V>) -> M::V {
    match m {
        Some(m) => m,
        None => M::empty(),
    }
}

// --- What written fields merge to ---

/// A run of fields that can be written but for the length of a payload.
pub open spec fn plain(fields: Seq<FieldView>) -> bool {
    forall|i: int|
        0 <= i < fields.len() ==> valid_tag((#[trigger] fields[i]).tag)
            && !(fields[i].payload is Other)
}

pub(crate) proof fn lemma_plain_writable(fields: Seq<FieldView>)
    requires
        plain(fields),
        fields_bytes(fields).len() <= u64::MAX,
    ensures
        forall|i: int| 0 <= i < fields.len() ==> writable(#[trigger] fields[i]),
{
    assert forall|i: int| 0 <= i < fields.len() implies writable(#[trigger] fields[i]) by {
        lemma_field_fits(fields, i);
    }
}

pub(crate) proof fn lemma_plain_concat(a: Seq<FieldView>, b: Seq<FieldView>)
    requires
        plain(a),
        plain(b),
    ensures
        plain(a + b),
{
    assert forall|i: int| 0 <= i < (a + b).len() implies valid_tag((#[trigger] (a + b)[i]).tag)
        && !((a + b)[i].payload is Other) by {
        if i < a.len() {
            assert((a + b)[i] == a[i]);
        } else {
            assert((a + b)[i] == b[i - a.len()]);
        }
    }
}

/// Bytes with the fields `a` behind `start` and then the fields `b` are those
/// with both.
pub(crate) proof fn lemma_put_more(
    start: Seq<u8>,
    a: Seq<FieldView>,
    b: Seq<FieldView>,
    before: Seq<u8>,
    after: Seq<u8>,
)
    requires
        before == start + fields_bytes(a),
        after == before + fields_bytes(b),
    ensures
        after == start + fields_bytes(a + b),
{
    lemma_fields_concat(a, b);
    assert(after =~= start + fields_bytes(a + b));
}

pub(crate) proof fn lemma_one_merges<M: Layout>(
    m: M::V,
    fields: Seq<FieldView>,
    next: M::V,
    depth: nat,
)
    requires
        fields.len() <= 1,
        fields.len() == 0 ==> next == m,
        fields.len() == 1 ==> M::merged(m, fields[0], depth) == Ok::<M::V, DecodeFault>(next),
    ensures
        merge_fields::<M>(m, fields, depth) == Ok::<M::V, DecodeFault>(next),
{
    reveal_with_fuel(merge_fields, 2);
}

pub(crate) proof fn lemma_chain_merges<M: Layout>(
    states: Seq<M::V>,
    fields: Seq<FieldView>,
    depth: nat,
)
    requires
        states.len() == fields.len() + 1,
        forall|i: int|
            0 <= i < fields.len() ==> M::merged(#[trigger] states[i], fields[i], depth) == Ok::<
                M::V,
                DecodeFault,
            >(states[i + 1]),
    ensures
        merge_fields::<M>(states[0], fields, depth) == Ok::<M::V, DecodeFault>(states.last()),
    decreases fields.len(),
{
    if fields.len() > 0 {
        let rest = states.skip(1);
        assert forall|i: int| 0 <= i < fields.skip(1).len() implies M::merged(
            #[trigger] rest[i],
            fields.skip(1)[i],
            depth,
        ) == Ok::<M::V, DecodeFault>(rest[i + 1]) by {
            assert(rest[i] == states[i + 1]);
        }
        lemma_chain_merges::<M>(rest, fields.skip(1), depth);
        assert(M::merged(states[0], fields[0], depth) == Ok::<M::V, DecodeFault>(
            states[0int + 1],
        ));
    }
}

pub(crate) proof fn lemma_both_merge<M: Layout>(
    m: M::V,
    a: Seq<FieldView>,
    mid: M::V,
    b: Seq<FieldView>,
    last: M::V,
    depth: nat,
)
    requires
        merge_fields::<M>(m, a, depth) == Ok::<M::V, DecodeFault>(mid),
        merge_fields::<M>(mid, b, depth) == Ok::<M::V, DecodeFault>(last),
    ensures
        merge_fields::<M>(m, a + b, depth) == Ok::<M::V, DecodeFault>(last),
{
    lemma_merge_concat::<M>(m, a, b, depth);
}

proof fn lemma_unpack(done: Seq<i32>, values: Seq<i32>, tail: Seq<u8>)
    ensures
        unpacked(done, packed(values) + tail) == unpacked(done + values, tail),
    decreases values.len(),
{
    if values.len() == 0 {
        assert(packed(values) + tail =~= tail);
        assert(done + values =~= done);
    } else {
        let front = values.drop_last();
        let value = values.last();
        let bytes = varint((value as u64) as nat);
        lemma_unpack(done, front, bytes + tail);
        assert(packed(values) + tail =~= packed(front) + (bytes + tail));
        varint_round_trip(value as u64, tail);
        lemma_i32_varint(value);
        assert((done + front).push(value) =~= done + values);
    }
}

/// Numbers in a run of bytes are read back as they were written.
pub(crate) proof fn lemma_packed(values: Seq<i32>)
    ensures
        unpacked(seq![], packed(values)) == Ok::<Seq<i32>, DecodeFault>(values),
        values.len() == 0 ==> values == Seq::<i32>::empty(),
{
    lemma_unpack(seq![], values, seq![]);
    assert(packed(values) + seq![] =~= packed(values));
    assert(seq![] + values =~= values);
}

pub(crate) proof fn lemma_text(text: Seq<char>)
    ensures
        valid_utf8(encode_utf8(text)),
        decode_utf8(encode_utf8(text)) == text,
        text.len() == 0 ==> text == Seq::<char>::empty(),
{
    vstd::utf8::encode_utf8_valid_utf8(text);
    vstd::utf8::encode_utf8_decode_utf8(text);
    assert(text.len() == 0 ==> text =~= Seq::<char>::empty());
}

/// A number of 32 bits is written as the one of 64 bits with the same sign;
/// its low bits are the number.
pub(crate) proof fn lemma_i32_varint(value: i32)
    ensures
        (value as u64) as i32 == value,
        value as u64 == 0 ==> value == 0,
{
    assert((value as u64) as i32 == value) by (bit_vector);
    assert(value as u64 == 0 ==> value == 0) by (bit_vector);
}

}
