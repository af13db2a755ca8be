//! Conversion between values and kRPC's wire encoding.
//!
//! kRPC encodes every procedure argument and return value as a standalone
//! protobuf-style value: varints for integers (zigzag for signed),
//! little-endian for floats, length-prefixed bytes for strings, and protobuf
//! messages for collections ([`List`], [`Dictionary`] and friends). The
//! [`Encode`] and [`Decode`] traits implement that mapping; [`arg`] packs an
//! encoded value into a positioned procedure argument.
//!
//! [`Decode`] takes a [`ClientRef`] so that decoded remote-object handles
//! (and any collection containing them) capture the connection they came
//! from; scalar impls ignore it.
use std::collections::{HashMap, HashSet};
use std::hash::Hash;

use vstd::prelude::*;

use crate::client::ClientRef;
use crate::error::{Error, Malformed, Result};
use crate::krpc::schema::{
    Argument, Dictionary, DictionaryEntry, ItemSet, List, ProcedureCall, Services, Status, Stream,
    Tuple,
};
use crate::message::{decode_message, encode_message};
use crate::wire::{put_varint, take_varint};

verus! {

use vstd::std_specs::hash::{obeys_key_model, spec_hash_map_iter, spec_hash_keys_iter};
use vstd::std_specs::iter::IteratorSpec;
use vstd::utf8::{decode_utf8, encode_utf8, valid_utf8};

use crate::client::ClientView;
use crate::error::{DecodeFault, Fault};
use crate::krpc::schema::{
    DictionaryEntryView, DictionaryView, ItemSetView, ListView, ProcedureCallView, TupleView,
};
use crate::message::{message_bytes, read_message, views};
use crate::wire::{
    from_little_endian, lemma_from_little_endian_bound, lemma_widths, little_endian, read_varint,
    varint,
};

/// Encoding of a value as a kRPC procedure argument or return value.
pub trait Encode {
    /// Whether `bytes` encode the value. For most types one run of bytes
    /// does; a hashed collection may list its items in any order.
    spec fn krpc_encodes(&self, bytes: Seq<u8>) -> bool;

    fn encode_krpc(&self) -> (bytes: Vec<u8>)
        ensures
            self.krpc_encodes(bytes@),
    ;
}

/// Decoding of a kRPC return value. Takes the client so that decoded class
/// instances (remote object handles) can hold a reference for future calls.
pub trait Decode: Sized {
    /// Why `bytes` encode no value of the type; `None` where they do.
    spec fn krpc_fault(bytes: Seq<u8>) -> Option<DecodeFault>;

    /// Whether `value` is what `bytes` from the connection `client` encode.
    spec fn krpc_decodes(client: ClientView, bytes: Seq<u8>, value: Self) -> bool;

    fn decode_krpc(client: &ClientRef, bytes: &[u8]) -> (out: Result<Self>)
        ensures
            match out {
                Ok(value) => Self::krpc_fault(bytes@) is None && Self::krpc_decodes(
                    client@,
                    bytes@,
                    value,
                ),
                Err(e) => match Self::krpc_fault(bytes@) {
                    Some(fault) => e@ == Fault::Decode(fault),
                    None => false,
                },
            },
    ;
}

// --- Varint helpers ---

/// The varint encoding of a number.
pub fn encode_varint(value: u64) -> (bytes: Vec<u8>)
    ensures
        bytes@ == varint(value as nat),
{
    let mut buf: Vec<u8> = Vec::new();
    put_varint(value, &mut buf);
    assert(buf@ =~= varint(value as nat));
    buf
}

/// The varint at the front of `bytes`, and the number of bytes that it takes.
pub fn decode_varint(bytes: &[u8]) -> (out: Result<(u64, usize)>)
    ensures
        match out {
            Ok((value, consumed)) => consumed <= bytes@.len() && read_varint(bytes@) == Some(
                (value, bytes@.skip(consumed as int)),
            ),
            Err(e) => read_varint(bytes@) is None && e@ == Fault::Decode(DecodeFault::Wire),
        },
{
    match take_varint(bytes) {
        Ok((value, rest)) => {
            proof {
                lemma_rest_is_tail(bytes@);
            }
            Ok((value, bytes.len() - rest.len()))
        },
        Err(e) => Err(Error::Decode(Malformed::Wire(e))),
    }
}

proof fn lemma_rest_is_tail(bytes: Seq<u8>)
    ensures
        read_varint(bytes) matches Some((_, rest)) ==> rest.len() <= bytes.len() && rest
            == bytes.skip(bytes.len() - rest.len()),
{
    crate::wire::lemma_varint_shortens(bytes);
}

/// Zigzag: small numbers of either sign become small numbers, `0, -1, 1, -2`
/// becoming `0, 1, 2, 3`.
pub open spec fn zigzag(n: int) -> nat {
    if n >= 0 {
        (2 * n) as nat
    } else {
        (-2 * n - 1) as nat
    }
}

/// The number that zigzag makes `n` of.
pub open spec fn unzigzag(n: nat) -> int {
    if n % 2 == 0 {
        n as int / 2
    } else {
        -(n as int / 2) - 1
    }
}

/// Zigzag loses nothing, in either direction.
pub proof fn zigzag_round_trip(n: int, z: nat)
    ensures
        unzigzag(zigzag(n)) == n,
        zigzag(unzigzag(z)) == z,
{
}

pub fn zigzag_encode32(n: i32) -> (z: u32)
    ensures
        z == zigzag(n as int),
{
    let z = ((n << 1) ^ (n >> 31)) as u32;
    assert(n >= 0 ==> ((n << 1) ^ (n >> 31)) as u32 == 2 * n) by (bit_vector);
    assert(n < 0 ==> ((n << 1) ^ (n >> 31)) as u32 == -2 * n - 1) by (bit_vector);
    z
}

pub fn zigzag_decode32(n: u32) -> (z: i32)
    ensures
        z == unzigzag(n as nat),
{
    assert((n & 1) as i32 == 0 || (n & 1) as i32 == 1) by (bit_vector);
    let sign: i32 = -((n & 1) as i32);
    assert(n % 2 == 0 ==> (n & 1) as i32 == 0) by (bit_vector);
    assert(n % 2 == 1 ==> (n & 1) as i32 == 1) by (bit_vector);
    assert(((n >> 1) as i32) ^ 0i32 == n / 2) by (bit_vector);
    assert(((n >> 1) as i32) ^ -1i32 == 0 - (n / 2) - 1) by (bit_vector);
    ((n >> 1) as i32) ^ sign
}

pub fn zigzag_encode64(n: i64) -> (z: u64)
    ensures
        z == zigzag(n as int),
{
    let z = ((n << 1) ^ (n >> 63)) as u64;
    assert(n >= 0 ==> ((n << 1) ^ (n >> 63)) as u64 == 2 * n) by (bit_vector);
    assert(n < 0 ==> ((n << 1) ^ (n >> 63)) as u64 == -2 * n - 1) by (bit_vector);
    z
}

pub fn zigzag_decode64(n: u64) -> (z: i64)
    ensures
        z == unzigzag(n as nat),
{
    assert((n & 1) as i64 == 0 || (n & 1) as i64 == 1) by (bit_vector);
    let sign: i64 = -((n & 1) as i64);
    assert(n % 2 == 0 ==> (n & 1) as i64 == 0) by (bit_vector);
    assert(n % 2 == 1 ==> (n & 1) as i64 == 1) by (bit_vector);
    assert(((n >> 1) as i64) ^ 0i64 == n / 2) by (bit_vector);
    assert(((n >> 1) as i64) ^ -1i64 == 0 - (n / 2) - 1) by (bit_vector);
    ((n >> 1) as i64) ^ sign
}

/// The region behind a length prefix. What follows the region is not looked at.
pub open spec fn prefixed_region(bytes: Seq<u8>) -> std::result::Result<Seq<u8>, DecodeFault> {
    match read_varint(bytes) {
        Some((len, rest)) => if len <= rest.len() {
            Ok(rest.take(len as int))
        } else {
            Err(DecodeFault::LengthPrefix)
        },
        None => Err(DecodeFault::Wire),
    }
}

/// Decodes a length-prefixed byte region, bounds-checked.
pub fn decode_length_prefixed(bytes: &[u8]) -> (out: Result<&[u8]>)
    ensures
        match out {
            Ok(region) => prefixed_region(bytes@) == Ok::<Seq<u8>, DecodeFault>(region@),
            Err(e) => match prefixed_region(bytes@) {
                Ok(_) => false,
                Err(fault) => e@ == Fault::Decode(fault),
            },
        },
{
    let (len, offset) = decode_varint(bytes)?;
    let left = bytes.len() - offset;
    if len <= left as u64 {
        let end = offset + len as usize;
        assert(bytes@.subrange(offset as int, end as int) =~= bytes@.skip(offset as int).take(
            len as int,
        ));
        Ok(vstd::slice::slice_subrange(bytes, offset, end))
    } else {
        Err(Error::Decode(Malformed::LengthPrefix))
    }
}

/// The run of bytes behind its length.
pub open spec fn prefixed(region: Seq<u8>) -> Seq<u8> {
    varint(region.len()) + region
}

fn encode_length_prefixed(region: &[u8]) -> (bytes: Vec<u8>)
    ensures
        bytes@ == prefixed(region@),
{
    let mut buf = encode_varint(region.len() as u64);
    buf.extend_from_slice(region);
    buf
}

// --- Primitive impls ---

/// Why `bytes` start with no varint.
pub open spec fn varint_fault(bytes: Seq<u8>) -> Option<DecodeFault> {
    match read_varint(bytes) {
        Some(_) => None,
        None => Some(DecodeFault::Wire),
    }
}

/// The low half of a number.
pub open spec fn low32(n: u64) -> u32 {
    (n % 0x1_0000_0000) as u32
}

fn decode_number(bytes: &[u8]) -> (out: Result<u64>)
    ensures
        match out {
            Ok(value) => read_varint(bytes@) matches Some((v, _)) && v == value,
            Err(e) => read_varint(bytes@) is None && e@ == Fault::Decode(DecodeFault::Wire),
        },
{
    let (value, _) = decode_varint(bytes)?;
    Ok(value)
}

fn truncate32(n: u64) -> (low: u32)
    ensures
        low == low32(n),
{
    assert(n as u32 == n % 0x1_0000_0000) by (bit_vector);
    n as u32
}

impl Encode for u32 {
    open spec fn krpc_encodes(&self, bytes: Seq<u8>) -> bool {
        bytes == varint(*self as nat)
    }

    fn encode_krpc(&self) -> (bytes: Vec<u8>) {
        encode_varint(*self as u64)
    }
}

impl Decode for u32 {
    open spec fn krpc_fault(bytes: Seq<u8>) -> Option<DecodeFault> {
        varint_fault(bytes)
    }

    open spec fn krpc_decodes(client: ClientView, bytes: Seq<u8>, value: Self) -> bool {
        read_varint(bytes) matches Some((v, _)) && value == low32(v)
    }

    fn decode_krpc(_client: &ClientRef, bytes: &[u8]) -> (out: Result<Self>) {
        let v = decode_number(bytes)?;
        Ok(truncate32(v))
    }
}

impl Encode for u64 {
    open spec fn krpc_encodes(&self, bytes: Seq<u8>) -> bool {
        bytes == varint(*self as nat)
    }

    fn encode_krpc(&self) -> (bytes: Vec<u8>) {
        encode_varint(*self)
    }
}

impl Decode for u64 {
    open spec fn krpc_fault(bytes: Seq<u8>) -> Option<DecodeFault> {
        varint_fault(bytes)
    }

    open spec fn krpc_decodes(client: ClientView, bytes: Seq<u8>, value: Self) -> bool {
        read_varint(bytes) matches Some((v, _)) && value == v
    }

    fn decode_krpc(_client: &ClientRef, bytes: &[u8]) -> (out: Result<Self>) {
        decode_number(bytes)
    }
}

impl Encode for i32 {
    open spec fn krpc_encodes(&self, bytes: Seq<u8>) -> bool {
        bytes == varint(zigzag(*self as int))
    }

    fn encode_krpc(&self) -> (bytes: Vec<u8>) {
        encode_varint(zigzag_encode32(*self) as u64)
    }
}

impl Decode for i32 {
    open spec fn krpc_fault(bytes: Seq<u8>) -> Option<DecodeFault> {
        varint_fault(bytes)
    }

    open spec fn krpc_decodes(client: ClientView, bytes: Seq<u8>, value: Self) -> bool {
        read_varint(bytes) matches Some((v, _)) && value == unzigzag(low32(v) as nat)
    }

    fn decode_krpc(_client: &ClientRef, bytes: &[u8]) -> (out: Result<Self>) {
        let v = decode_number(bytes)?;
        Ok(zigzag_decode32(truncate32(v)))
    }
}

impl Encode for i64 {
    open spec fn krpc_encodes(&self, bytes: Seq<u8>) -> bool {
        bytes == varint(zigzag(*self as int))
    }

    fn encode_krpc(&self) -> (bytes: Vec<u8>) {
        encode_varint(zigzag_encode64(*self))
    }
}

impl Decode for i64 {
    open spec fn krpc_fault(bytes: Seq<u8>) -> Option<DecodeFault> {
        varint_fault(bytes)
    }

    open spec fn krpc_decodes(client: ClientView, bytes: Seq<u8>, value: Self) -> bool {
        read_varint(bytes) matches Some((v, _)) && value == unzigzag(v as nat)
    }

    fn decode_krpc(_client: &ClientRef, bytes: &[u8]) -> (out: Result<Self>) {
        let v = decode_number(bytes)?;
        Ok(zigzag_decode64(v))
    }
}

/// A single-precision number, by the bits of its IEEE 754 representation.
#[derive(Clone, Copy, Debug, PartialEq, Eq, Structural)]
pub struct Float {
    pub bits: u32,
}

/// A double-precision number, by the bits of its IEEE 754 representation.
#[derive(Clone, Copy, Debug, PartialEq, Eq, Structural)]
pub struct Double {
    pub bits: u64,
}

fn put_little_endian(n: u64, width: usize) -> (bytes: Vec<u8>)
    ensures
        bytes@ == little_endian(n as nat, width as nat),
{
    let mut buf: Vec<u8> = Vec::new();
    let mut rest = n;
    let mut left = width;
    while left > 0
        invariant
            buf@ + little_endian(rest as nat, left as nat) == little_endian(
                n as nat,
                width as nat,
            ),
        decreases left,
    {
        let ghost before = buf@;
        buf.push((rest % 256) as u8);
        assert(before + little_endian(rest as nat, left as nat) =~= buf@ + little_endian(
            rest as nat / 256,
            (left - 1) as nat,
        ));
        rest = rest / 256;
        left = left - 1;
    }
    assert(buf@ + little_endian(rest as nat, 0) =~= buf@);
    buf
}

fn take_little_endian(bytes: &[u8]) -> (n: u64)
    requires
        bytes@.len() <= 8,
    ensures
        n == from_little_endian(bytes@),
{
    let mut n: u64 = 0;
    let mut i = bytes.len();
    assert(bytes@.skip(i as int) =~= seq![]);
    while i > 0
        invariant
            i <= bytes@.len() <= 8,
            n == from_little_endian(bytes@.skip(i as int)),
        decreases i,
    {
        i = i - 1;
        proof {
            let tail = bytes@.skip(i as int);
            assert(tail.skip(1) =~= bytes@.skip(i + 1));
            lemma_from_little_endian_bound(tail);
            lemma_widths();
            vstd::arithmetic::power::lemma_pow_increases(256, tail.len(), 8);
        }
        n = bytes[i] as u64 + 256 * n;
    }
    assert(bytes@.skip(0) =~= bytes@);
    n
}

impl Encode for Float {
    open spec fn krpc_encodes(&self, bytes: Seq<u8>) -> bool {
        bytes == little_endian(self.bits as nat, 4)
    }

    fn encode_krpc(&self) -> (bytes: Vec<u8>) {
        put_little_endian(self.bits as u64, 4)
    }
}

impl Decode for Float {
    open spec fn krpc_fault(bytes: Seq<u8>) -> Option<DecodeFault> {
        if bytes.len() == 4 {
            None
        } else {
            Some(DecodeFault::FloatWidth { expected: 4 })
        }
    }

    open spec fn krpc_decodes(client: ClientView, bytes: Seq<u8>, value: Self) -> bool {
        value.bits == from_little_endian(bytes)
    }

    fn decode_krpc(_client: &ClientRef, bytes: &[u8]) -> (out: Result<Self>) {
        if bytes.len() != 4 {
            return Err(Error::Decode(Malformed::FloatWidth { expected: 4 }));
        }
        proof {
            lemma_from_little_endian_bound(bytes@);
            lemma_widths();
        }
        Ok(Float { bits: take_little_endian(bytes) as u32 })
    }
}

impl Encode for Double {
    open spec fn krpc_encodes(&self, bytes: Seq<u8>) -> bool {
        bytes == little_endian(self.bits as nat, 8)
    }

    fn encode_krpc(&self) -> (bytes: Vec<u8>) {
        put_little_endian(self.bits, 8)
    }
}

impl Decode for Double {
    open spec fn krpc_fault(bytes: Seq<u8>) -> Option<DecodeFault> {
        if bytes.len() == 8 {
            None
        } else {
            Some(DecodeFault::FloatWidth { expected: 8 })
        }
    }

    open spec fn krpc_decodes(client: ClientView, bytes: Seq<u8>, value: Self) -> bool {
        value.bits == from_little_endian(bytes)
    }

    fn decode_krpc(_client: &ClientRef, bytes: &[u8]) -> (out: Result<Self>) {
        if bytes.len() != 8 {
            return Err(Error::Decode(Malformed::FloatWidth { expected: 8 }));
        }
        Ok(Double { bits: take_little_endian(bytes) })
    }
}

impl Encode for bool {
    open spec fn krpc_encodes(&self, bytes: Seq<u8>) -> bool {
        bytes == varint(if *self { 1 } else { 0 })
    }

    fn encode_krpc(&self) -> (bytes: Vec<u8>) {
        encode_varint(if *self { 1 } else { 0 })
    }
}

impl Decode for bool {
    open spec fn krpc_fault(bytes: Seq<u8>) -> Option<DecodeFault> {
        varint_fault(bytes)
    }

    open spec fn krpc_decodes(client: ClientView, bytes: Seq<u8>, value: Self) -> bool {
        read_varint(bytes) matches Some((v, _)) && value == (v != 0)
    }

    fn decode_krpc(_client: &ClientRef, bytes: &[u8]) -> (out: Result<Self>) {
        let v = decode_number(bytes)?;
        Ok(v != 0)
    }
}

impl Encode for str {
    open spec fn krpc_encodes(&self, bytes: Seq<u8>) -> bool {
        bytes == prefixed(encode_utf8(self@))
    }

    fn encode_krpc(&self) -> (bytes: Vec<u8>) {
        encode_length_prefixed(self.as_bytes())
    }
}

impl Encode for String {
    open spec fn krpc_encodes(&self, bytes: Seq<u8>) -> bool {
        bytes == prefixed(encode_utf8(self@))
    }

    fn encode_krpc(&self) -> (bytes: Vec<u8>) {
        self.as_str().encode_krpc()
    }
}

impl Decode for String {
    open spec fn krpc_fault(bytes: Seq<u8>) -> Option<DecodeFault> {
        match prefixed_region(bytes) {
            Ok(region) => if valid_utf8(region) {
                None
            } else {
                Some(DecodeFault::Utf8)
            },
            Err(fault) => Some(fault),
        }
    }

    open spec fn krpc_decodes(client: ClientView, bytes: Seq<u8>, value: Self) -> bool {
        prefixed_region(bytes) matches Ok(region) && value@ == decode_utf8(region)
    }

    fn decode_krpc(_client: &ClientRef, bytes: &[u8]) -> (out: Result<Self>) {
        let region = decode_length_prefixed(bytes)?;
        match std::str::from_utf8(region) {
            Ok(text) => Ok(text.to_string()),
            Err(e) => Err(Error::Decode(Malformed::Utf8(e))),
        }
    }
}

impl<T: Encode + ?Sized> Encode for &T {
    open spec fn krpc_encodes(&self, bytes: Seq<u8>) -> bool {
        (**self).krpc_encodes(bytes)
    }

    fn encode_krpc(&self) -> (bytes: Vec<u8>) {
        (**self).encode_krpc()
    }
}

impl Encode for [u8] {
    open spec fn krpc_encodes(&self, bytes: Seq<u8>) -> bool {
        bytes == prefixed(self@)
    }

    fn encode_krpc(&self) -> (bytes: Vec<u8>) {
        encode_length_prefixed(self)
    }
}

impl Encode for Vec<u8> {
    open spec fn krpc_encodes(&self, bytes: Seq<u8>) -> bool {
        bytes == prefixed(self@)
    }

    fn encode_krpc(&self) -> (bytes: Vec<u8>) {
        self.as_slice().encode_krpc()
    }
}

impl Decode for Vec<u8> {
    open spec fn krpc_fault(bytes: Seq<u8>) -> Option<DecodeFault> {
        match prefixed_region(bytes) {
            Ok(_) => None,
            Err(fault) => Some(fault),
        }
    }

    open spec fn krpc_decodes(client: ClientView, bytes: Seq<u8>, value: Self) -> bool {
        prefixed_region(bytes) matches Ok(region) && value@ == region
    }

    fn decode_krpc(_client: &ClientRef, bytes: &[u8]) -> (out: Result<Self>) {
        let region = decode_length_prefixed(bytes)?;
        Ok(vstd::slice::slice_to_vec(region))
    }
}

// --- Collection impls ---

/// Whether each of `items` encodes the value at its place.
pub open spec fn items_encode<T: Encode>(values: Seq<T>, items: Seq<Seq<u8>>) -> bool {
    &&& items.len() == values.len()
    &&& forall|i: int| 0 <= i < items.len() ==> (#[trigger] values[i]).krpc_encodes(items[i])
}

/// Why the first of `items` that encodes no value does not.
pub open spec fn items_fault<T: Decode>(items: Seq<Seq<u8>>) -> Option<DecodeFault>
    decreases items.len(),
{
    if items.len() == 0 {
        None
    } else {
        match T::krpc_fault(items[0]) {
            Some(fault) => Some(fault),
            None => items_fault::<T>(items.skip(1)),
        }
    }
}

/// Whether each of `values` is what the item at its place encodes.
pub open spec fn items_decode<T: Decode>(
    client: ClientView,
    items: Seq<Seq<u8>>,
    values: Seq<T>,
) -> bool {
    &&& values.len() == items.len()
    &&& forall|i: int|
        0 <= i < items.len() ==> T::krpc_decodes(client, items[i], #[trigger] values[i])
}

fn encode_items<T: Encode>(values: &Vec<T>) -> (items: Vec<Vec<u8>>)
    ensures
        items_encode(values@, views(items@)),
{
    let mut items: Vec<Vec<u8>> = Vec::new();
    for i in 0..values.len()
        invariant
            items@.len() == i,
            forall|j: int| 0 <= j < i ==> (#[trigger] values@[j]).krpc_encodes(items@[j]@),
    {
        let item = values[i].encode_krpc();
        items.push(item);
    }
    items
}

fn decode_items<T: Decode>(client: &ClientRef, items: &Vec<Vec<u8>>) -> (out: Result<Vec<T>>)
    ensures
        match out {
            Ok(values) => items_fault::<T>(views(items@)) is None && items_decode(
                client@,
                views(items@),
                values@,
            ),
            Err(e) => match items_fault::<T>(views(items@)) {
                Some(fault) => e@ == Fault::Decode(fault),
                None => false,
            },
        },
{
    let ghost all = views(items@);
    let mut values: Vec<T> = Vec::new();
    assert(all.skip(0) =~= all);
    for i in 0..items.len()
        invariant
            all == views(items@),
            items_fault::<T>(all.skip(i as int)) == items_fault::<T>(all),
            values@.len() == i,
            forall|j: int| 0 <= j < i ==> T::krpc_decodes(client@, all[j], #[trigger] values@[j]),
    {
        proof {
            assert(all.skip(i as int)[0] == items@[i as int]@);
            assert(all.skip(i as int).skip(1) =~= all.skip(i + 1));
        }
        let value = T::decode_krpc(client, &items[i])?;
        values.push(value);
    }
    Ok(values)
}

impl<T: Encode> Encode for Vec<T> {
    open spec fn krpc_encodes(&self, bytes: Seq<u8>) -> bool {
        exists|items: Seq<Seq<u8>>| #[trigger]
            items_encode(self@, items) && bytes == message_bytes::<List>(ListView { items })
    }

    fn encode_krpc(&self) -> (bytes: Vec<u8>) {
        let list = List { items: encode_items(self) };
        encode_message(&list)
    }
}

impl<T: Decode> Decode for Vec<T> {
    open spec fn krpc_fault(bytes: Seq<u8>) -> Option<DecodeFault> {
        match read_message::<List>(bytes) {
            Ok(list) => items_fault::<T>(list.items),
            Err(fault) => Some(fault),
        }
    }

    open spec fn krpc_decodes(client: ClientView, bytes: Seq<u8>, value: Self) -> bool {
        read_message::<List>(bytes) matches Ok(list) && items_decode(client, list.items, value@)
    }

    fn decode_krpc(client: &ClientRef, bytes: &[u8]) -> (out: Result<Self>) {
        match decode_message::<List>(bytes) {
            Ok(list) => decode_items(client, &list.items),
            Err(e) => Err(Error::Decode(e)),
        }
    }
}

/// Whether each of `entries` encodes the key and the value at its place.
pub open spec fn entries_encode<K: Encode, V: Encode>(
    pairs: Seq<(K, V)>,
    entries: Seq<DictionaryEntryView>,
) -> bool {
    &&& entries.len() == pairs.len()
    &&& forall|i: int|
        0 <= i < entries.len() ==> (#[trigger] pairs[i]).0.krpc_encodes(entries[i].key)
            && pairs[i].1.krpc_encodes(entries[i].value)
}

/// Whether `pairs` are the entries of `map`, each once.
pub open spec fn lists_map<K, V>(pairs: Seq<(K, V)>, map: Map<K, V>) -> bool {
    &&& pairs.len() == map.dom().len()
    &&& pairs.to_set() == map.kv_pairs()
    &&& pairs.no_duplicates()
}

/// Why the first of `entries` that encodes no key and value does not.
pub open spec fn entries_fault<K: Decode, V: Decode>(
    entries: Seq<DictionaryEntryView>,
) -> Option<DecodeFault>
    decreases entries.len(),
{
    if entries.len() == 0 {
        None
    } else {
        match K::krpc_fault(entries[0].key) {
            Some(fault) => Some(fault),
            None => match V::krpc_fault(entries[0].value) {
                Some(fault) => Some(fault),
                None => entries_fault::<K, V>(entries.skip(1)),
            },
        }
    }
}

/// Whether each of `pairs` is what the entry at its place encodes.
pub open spec fn entries_decode<K: Decode, V: Decode>(
    client: ClientView,
    entries: Seq<DictionaryEntryView>,
    pairs: Seq<(K, V)>,
) -> bool {
    &&& pairs.len() == entries.len()
    &&& forall|i: int|
        0 <= i < entries.len() ==> K::krpc_decodes(
            client,
            entries[i].key,
            (#[trigger] pairs[i]).0,
        ) && V::krpc_decodes(client, entries[i].value, pairs[i].1)
}

/// The map of the pairs; where a key occurs more than once, the last counts.
pub open spec fn collected<K, V>(pairs: Seq<(K, V)>) -> Map<K, V>
    decreases pairs.len(),
{
    if pairs.len() == 0 {
        Map::empty()
    } else {
        collected(pairs.drop_last()).insert(pairs.last().0, pairs.last().1)
    }
}

/// The next item of an iterator.
fn next_item<I: Iterator>(it: &mut I) -> (out: Option<I::Item>)
    ensures
        <I as IteratorSpec>::obeys_prophetic_iter_laws(old(it)) ==> {
            let before = <I as IteratorSpec>::remaining(old(it));
            let after = <I as IteratorSpec>::remaining(final(it));
            &&& <I as IteratorSpec>::obeys_prophetic_iter_laws(final(it))
            &&& if before.len() > 0 {
                after == before.drop_first() && out == Some(before[0])
            } else {
                after == before && out is None
            }
        },
{
    it.next()
}

impl<K: Encode, V: Encode> Encode for HashMap<K, V> {
    /// The entries may come in any order. That they are those of the map is
    /// stated for keys whose hashing and equality are known to be in order.
    open spec fn krpc_encodes(&self, bytes: Seq<u8>) -> bool {
        exists|pairs: Seq<(K, V)>, entries: Seq<DictionaryEntryView>| #[trigger]
            entries_encode(pairs, entries) && bytes == message_bytes::<Dictionary>(
                DictionaryView { entries },
            ) && (obeys_key_model::<K>() ==> lists_map(pairs, self@))
    }

    fn encode_krpc(&self) -> (bytes: Vec<u8>) {
        broadcast use vstd::std_specs::hash::group_hash_axioms;

        let mut entries: Vec<DictionaryEntry> = Vec::new();
        let ghost mut pairs: Seq<(K, V)> = seq![];
        let mut it = self.iter();
        let n = self.len();
        let mut i: usize = 0;
        assert(obeys_key_model::<K>() ==> it.remaining().skip(0) =~= it.remaining());
        // The iterator gives as many entries as the map has.
        while i < n
            invariant
                i <= n,
                n == self.len(),
                entries_encode(pairs, views(entries@)),
                obeys_key_model::<K>() ==> {
                    &&& n == self@.dom().len()
                    &&& spec_hash_map_iter(self).remaining().no_duplicates()
                    &&& it.remaining() == spec_hash_map_iter(self).remaining().skip(i as int)
                    &&& pairs == spec_hash_map_iter(self).remaining().unref().take(i as int)
                },
            decreases n - i,
        {
            match next_item(&mut it) {
                Some((key, value)) => {
                    let ghost before = views(entries@);
                    let entry = DictionaryEntry {
                        key: key.encode_krpc(),
                        value: value.encode_krpc(),
                    };
                    entries.push(entry);
                    proof {
                        pairs = pairs.push((*key, *value));
                        assert(views(entries@) =~= before.push(entry@));
                    }
                },
                None => {},
            }
            i = i + 1;
        }
        proof {
            if obeys_key_model::<K>() {
                let all = spec_hash_map_iter(self).remaining();
                assert(pairs =~= all.unref());
                assert forall|a: int, b: int|
                    0 <= a < b < pairs.len() implies pairs[a] != pairs[b] by {
                    assert(all[a] != all[b]);
                }
                assert(pairs.to_set() == self@.kv_pairs());
            }
        }
        let dict = Dictionary { entries };
        let bytes = encode_message(&dict);
        assert(entries_encode(pairs, dict@.entries));
        bytes
    }
}

/// Why `bytes` encode no dictionary.
pub open spec fn dictionary_fault<K: Decode, V: Decode>(bytes: Seq<u8>) -> Option<DecodeFault> {
    match read_message::<Dictionary>(bytes) {
        Ok(dict) => entries_fault::<K, V>(dict.entries),
        Err(fault) => Some(fault),
    }
}

/// Decodes the entries of a dictionary, in order.
pub fn decode_entries<K: Decode, V: Decode>(client: &ClientRef, bytes: &[u8]) -> (out: Result<
    Vec<(K, V)>,
>)
    ensures
        match out {
            Ok(pairs) => dictionary_fault::<K, V>(bytes@) is None && (read_message::<Dictionary>(
                bytes@,
            ) matches Ok(dict) && entries_decode(client@, dict.entries, pairs@)),
            Err(e) => match dictionary_fault::<K, V>(bytes@) {
                Some(fault) => e@ == Fault::Decode(fault),
                None => false,
            },
        },
{
    let dict = match decode_message::<Dictionary>(bytes) {
        Ok(dict) => dict,
        Err(e) => return Err(Error::Decode(e)),
    };
    let ghost all = dict@.entries;
    let mut pairs: Vec<(K, V)> = Vec::new();
    assert(all.skip(0) =~= all);
    for i in 0..dict.entries.len()
        invariant
            read_message::<Dictionary>(bytes@) == Ok::<DictionaryView, DecodeFault>(dict@),
            all == views(dict.entries@),
            entries_fault::<K, V>(all.skip(i as int)) == entries_fault::<K, V>(all),
            pairs@.len() == i,
            forall|j: int|
                0 <= j < i ==> K::krpc_decodes(client@, all[j].key, (#[trigger] pairs@[j]).0)
                    && V::krpc_decodes(client@, all[j].value, pairs@[j].1),
    {
        proof {
            assert(all.skip(i as int)[0] == dict.entries@[i as int]@);
            assert(all.skip(i as int).skip(1) =~= all.skip(i + 1));
        }
        let entry = &dict.entries[i];
        let key = K::decode_krpc(client, &entry.key)?;
        let value = V::decode_krpc(client, &entry.value)?;
        pairs.push((key, value));
    }
    Ok(pairs)
}

impl<K: Decode + Eq + Hash, V: Decode> Decode for HashMap<K, V> {
    open spec fn krpc_fault(bytes: Seq<u8>) -> Option<DecodeFault> {
        dictionary_fault::<K, V>(bytes)
    }

    /// That the map holds the entries is stated for keys whose hashing and
    /// equality are known to be in order.
    open spec fn krpc_decodes(client: ClientView, bytes: Seq<u8>, value: Self) -> bool {
        read_message::<Dictionary>(bytes) matches Ok(dict) && exists|pairs: Seq<(K, V)>| #[trigger]
            entries_decode(client, dict.entries, pairs) && (obeys_key_model::<K>() ==> value@
                == collected(pairs))
    }

    fn decode_krpc(client: &ClientRef, bytes: &[u8]) -> (out: Result<Self>) {
        broadcast use vstd::std_specs::hash::group_hash_axioms;

        let pairs = decode_entries::<K, V>(client, bytes)?;
        let ghost all = pairs@;
        let mut map: HashMap<K, V> = HashMap::new();
        assert(all.take(0) =~= seq![]);
        for (key, value) in it: pairs
            invariant
                it.seq() == all,
                obeys_key_model::<K>() ==> map@ == collected(all.take(it.index() as int)),
        {
            proof {
                let next = all.take(it.index() + 1);
                assert(next.drop_last() =~= all.take(it.index() as int));
                assert(next.last() == (key, value));
            }
            map.insert(key, value);
        }
        assert(all.take(all.len() as int) =~= all);
        Ok(map)
    }
}

/// Whether `values` are the items of `set`, each once.
pub open spec fn lists_set<T>(values: Seq<T>, set: Set<T>) -> bool {
    &&& values.to_set() == set
    &&& values.no_duplicates()
}

impl<T: Encode> Encode for HashSet<T> {
    /// The items may come in any order. That they are those of the set is
    /// stated for items whose hashing and equality are known to be in order.
    open spec fn krpc_encodes(&self, bytes: Seq<u8>) -> bool {
        exists|values: Seq<T>, items: Seq<Seq<u8>>| #[trigger]
            items_encode(values, items) && bytes == message_bytes::<ItemSet>(
                ItemSetView { items },
            ) && (obeys_key_model::<T>() ==> lists_set(values, self@))
    }

    fn encode_krpc(&self) -> (bytes: Vec<u8>) {
        broadcast use vstd::std_specs::hash::group_hash_axioms;

        let mut items: Vec<Vec<u8>> = Vec::new();
        let ghost mut values: Seq<T> = seq![];
        let mut it = self.iter();
        let n = self.len();
        let mut i: usize = 0;
        assert(obeys_key_model::<T>() ==> it.remaining().skip(0) =~= it.remaining());
        // The iterator gives as many items as the set has.
        while i < n
            invariant
                i <= n,
                n == self.len(),
                items_encode(values, views(items@)),
                obeys_key_model::<T>() ==> {
                    &&& n == self@.len()
                    &&& it.remaining() == spec_hash_keys_iter(self).remaining().skip(i as int)
                    &&& values == spec_hash_keys_iter(self).remaining().unref().take(i as int)
                },
            decreases n - i,
        {
            match next_item(&mut it) {
                Some(value) => {
                    let ghost before = views(items@);
                    let item = value.encode_krpc();
                    items.push(item);
                    proof {
                        values = values.push(*value);
                        assert(views(items@) =~= before.push(item@));
                    }
                },
                None => {},
            }
            i = i + 1;
        }
        proof {
            if obeys_key_model::<T>() {
                let all = spec_hash_keys_iter(self).remaining();
                assert(values =~= all.unref());
                assert forall|a: int, b: int|
                    0 <= a < b < values.len() implies values[a] != values[b] by {
                    assert(all[a] != all[b]);
                }
            }
        }
        let set = ItemSet { items };
        let bytes = encode_message(&set);
        assert(items_encode(values, set@.items));
        bytes
    }
}

impl<T: Decode + Eq + Hash> Decode for HashSet<T> {
    open spec fn krpc_fault(bytes: Seq<u8>) -> Option<DecodeFault> {
        match read_message::<ItemSet>(bytes) {
            Ok(set) => items_fault::<T>(set.items),
            Err(fault) => Some(fault),
        }
    }

    /// That the set holds the items is stated for items whose hashing and
    /// equality are known to be in order.
    open spec fn krpc_decodes(client: ClientView, bytes: Seq<u8>, value: Self) -> bool {
        read_message::<ItemSet>(bytes) matches Ok(set) && exists|values: Seq<T>| #[trigger]
            items_decode(client, set.items, values) && (obeys_key_model::<T>() ==> value@
                == values.to_set())
    }

    fn decode_krpc(client: &ClientRef, bytes: &[u8]) -> (out: Result<Self>) {
        broadcast use vstd::std_specs::hash::group_hash_axioms;

        let set = match decode_message::<ItemSet>(bytes) {
            Ok(set) => set,
            Err(e) => return Err(Error::Decode(e)),
        };
        let values = decode_items::<T>(client, &set.items)?;
        let ghost all = values@;
        let mut hashed: HashSet<T> = HashSet::new();
        assert(all.take(0).to_set() =~= Set::empty());
        for value in it: values
            invariant
                it.seq() == all,
                obeys_key_model::<T>() ==> hashed@ == all.take(it.index() as int).to_set(),
        {
            proof {
                let before = all.take(it.index() as int);
                let next = all.take(it.index() + 1);
                assert(next =~= before.push(value));
                lemma_push_to_set(before, value);
            }
            hashed.insert(value);
        }
        assert(all.take(all.len() as int) =~= all);
        Ok(hashed)
    }
}

proof fn lemma_push_to_set<T>(values: Seq<T>, value: T)
    ensures
        values.push(value).to_set() == values.to_set().insert(value),
{
    let next = values.push(value);
    assert forall|v: T| next.to_set().contains(v) <==> values.to_set().insert(value).contains(
        v,
    ) by {
        if values.contains(v) {
            let k = choose|k: int| 0 <= k < values.len() && values[k] == v;
            assert(next[k] == v);
        }
        if v == value {
            assert(next[values.len() as int] == v);
        }
        if next.contains(v) {
            let k = choose|k: int| 0 <= k < next.len() && next[k] == v;
            assert(k < values.len() ==> values[k] == v);
        }
    }
    assert(next.to_set() =~= values.to_set().insert(value));
}

// --- Tuple impls ---

/// Why item `index` of a tuple encodes no value of the type.
pub open spec fn tuple_item_fault<T: Decode>(
    items: Seq<Seq<u8>>,
    index: nat,
) -> Option<DecodeFault> {
    if index < items.len() {
        T::krpc_fault(items[index as int])
    } else {
        Some(DecodeFault::TupleTooShort { index })
    }
}

/// The first fault, if any, of two that were looked for in turn.
pub open spec fn first_fault(
    a: Option<DecodeFault>,
    b: Option<DecodeFault>,
) -> Option<DecodeFault> {
    if a is Some {
        a
    } else {
        b
    }
}

/// The encoded item `index` of a tuple.
pub fn tuple_item(tuple: &Tuple, index: usize) -> (out: Result<&[u8]>)
    ensures
        match out {
            Ok(item) => index < tuple@.items.len() && item@ == tuple@.items[index as int],
            Err(e) => index >= tuple@.items.len() && e@ == Fault::Decode(
                DecodeFault::TupleTooShort { index: index as nat },
            ),
        },
{
    if index < tuple.items.len() {
        Ok(tuple.items[index].as_slice())
    } else {
        Err(Error::Decode(Malformed::TupleTooShort { index }))
    }
}

fn decode_tuple_item<T: Decode>(client: &ClientRef, tuple: &Tuple, index: usize) -> (out: Result<T>)
    ensures
        match out {
            Ok(value) => tuple_item_fault::<T>(tuple@.items, index as nat) is None
                && T::krpc_decodes(client@, tuple@.items[index as int], value),
            Err(e) => match tuple_item_fault::<T>(tuple@.items, index as nat) {
                Some(fault) => e@ == Fault::Decode(fault),
                None => false,
            },
        },
{
    let item = tuple_item(tuple, index)?;
    T::decode_krpc(client, item)
}

impl<A: Encode, B: Encode> Encode for (A, B) {
    open spec fn krpc_encodes(&self, bytes: Seq<u8>) -> bool {
        exists|a: Seq<u8>, b: Seq<u8>| #[trigger]
            self.0.krpc_encodes(a) && #[trigger] self.1.krpc_encodes(b) && bytes == message_bytes::<
                Tuple,
            >(TupleView { items: seq![a, b] })
    }

    fn encode_krpc(&self) -> (bytes: Vec<u8>) {
        let a = self.0.encode_krpc();
        let b = self.1.encode_krpc();
        let ghost items = seq![a@, b@];
        let tuple = Tuple { items: vec![a, b] };
        assert(tuple@.items =~= items);
        encode_message(&tuple)
    }
}

impl<A: Decode, B: Decode> Decode for (A, B) {
    open spec fn krpc_fault(bytes: Seq<u8>) -> Option<DecodeFault> {
        match read_message::<Tuple>(bytes) {
            Ok(tuple) => first_fault(
                tuple_item_fault::<A>(tuple.items, 0),
                tuple_item_fault::<B>(tuple.items, 1),
            ),
            Err(fault) => Some(fault),
        }
    }

    open spec fn krpc_decodes(client: ClientView, bytes: Seq<u8>, value: Self) -> bool {
        read_message::<Tuple>(bytes) matches Ok(tuple) && A::krpc_decodes(
            client,
            tuple.items[0],
            value.0,
        ) && B::krpc_decodes(client, tuple.items[1], value.1)
    }

    fn decode_krpc(client: &ClientRef, bytes: &[u8]) -> (out: Result<Self>) {
        let tuple = match decode_message::<Tuple>(bytes) {
            Ok(tuple) => tuple,
            Err(e) => return Err(Error::Decode(e)),
        };
        let a = decode_tuple_item::<A>(client, &tuple, 0)?;
        let b = decode_tuple_item::<B>(client, &tuple, 1)?;
        Ok((a, b))
    }
}

impl<A: Encode, B: Encode, C: Encode> Encode for (A, B, C) {
    open spec fn krpc_encodes(&self, bytes: Seq<u8>) -> bool {
        exists|a: Seq<u8>, b: Seq<u8>, c: Seq<u8>| #[trigger]
            self.0.krpc_encodes(a) && #[trigger] self.1.krpc_encodes(b)
                && #[trigger] self.2.krpc_encodes(c) && bytes == message_bytes::<Tuple>(
                TupleView { items: seq![a, b, c] },
            )
    }

    fn encode_krpc(&self) -> (bytes: Vec<u8>) {
        let a = self.0.encode_krpc();
        let b = self.1.encode_krpc();
        let c = self.2.encode_krpc();
        let ghost items = seq![a@, b@, c@];
        let tuple = Tuple { items: vec![a, b, c] };
        assert(tuple@.items =~= items);
        encode_message(&tuple)
    }
}

impl<A: Decode, B: Decode, C: Decode> Decode for (A, B, C) {
    open spec fn krpc_fault(bytes: Seq<u8>) -> Option<DecodeFault> {
        match read_message::<Tuple>(bytes) {
            Ok(tuple) => first_fault(
                tuple_item_fault::<A>(tuple.items, 0),
                first_fault(
                    tuple_item_fault::<B>(tuple.items, 1),
                    tuple_item_fault::<C>(tuple.items, 2),
                ),
            ),
            Err(fault) => Some(fault),
        }
    }

    open spec fn krpc_decodes(client: ClientView, bytes: Seq<u8>, value: Self) -> bool {
        read_message::<Tuple>(bytes) matches Ok(tuple) && A::krpc_decodes(
            client,
            tuple.items[0],
            value.0,
        ) && B::krpc_decodes(client, tuple.items[1], value.1) && C::krpc_decodes(
            client,
            tuple.items[2],
            value.2,
        )
    }

    fn decode_krpc(client: &ClientRef, bytes: &[u8]) -> (out: Result<Self>) {
        let tuple = match decode_message::<Tuple>(bytes) {
            Ok(tuple) => tuple,
            Err(e) => return Err(Error::Decode(e)),
        };
        let a = decode_tuple_item::<A>(client, &tuple, 0)?;
        let b = decode_tuple_item::<B>(client, &tuple, 1)?;
        let c = decode_tuple_item::<C>(client, &tuple, 2)?;
        Ok((a, b, c))
    }
}

impl<A: Encode, B: Encode, C: Encode, D: Encode> Encode for (A, B, C, D) {
    open spec fn krpc_encodes(&self, bytes: Seq<u8>) -> bool {
        exists|a: Seq<u8>, b: Seq<u8>, c: Seq<u8>, d: Seq<u8>| #[trigger]
            self.0.krpc_encodes(a) && #[trigger] self.1.krpc_encodes(b)
                && #[trigger] self.2.krpc_encodes(c) && #[trigger] self.3.krpc_encodes(d) && bytes
                == message_bytes::<Tuple>(TupleView { items: seq![a, b, c, d] })
    }

    fn encode_krpc(&self) -> (bytes: Vec<u8>) {
        let a = self.0.encode_krpc();
        let b = self.1.encode_krpc();
        let c = self.2.encode_krpc();
        let d = self.3.encode_krpc();
        let ghost items = seq![a@, b@, c@, d@];
        let tuple = Tuple { items: vec![a, b, c, d] };
        assert(tuple@.items =~= items);
        encode_message(&tuple)
    }
}

impl<A: Decode, B: Decode, C: Decode, D: Decode> Decode for (A, B, C, D) {
    open spec fn krpc_fault(bytes: Seq<u8>) -> Option<DecodeFault> {
        match read_message::<Tuple>(bytes) {
            Ok(tuple) => first_fault(
                tuple_item_fault::<A>(tuple.items, 0),
                first_fault(
                    tuple_item_fault::<B>(tuple.items, 1),
                    first_fault(
                        tuple_item_fault::<C>(tuple.items, 2),
                        tuple_item_fault::<D>(tuple.items, 3),
                    ),
                ),
            ),
            Err(fault) => Some(fault),
        }
    }

    open spec fn krpc_decodes(client: ClientView, bytes: Seq<u8>, value: Self) -> bool {
        read_message::<Tuple>(bytes) matches Ok(tuple) && A::krpc_decodes(
            client,
            tuple.items[0],
            value.0,
        ) && B::krpc_decodes(client, tuple.items[1], value.1) && C::krpc_decodes(
            client,
            tuple.items[2],
            value.2,
        ) && D::krpc_decodes(client, tuple.items[3], value.3)
    }

    fn decode_krpc(client: &ClientRef, bytes: &[u8]) -> (out: Result<Self>) {
        let tuple = match decode_message::<Tuple>(bytes) {
            Ok(tuple) => tuple,
            Err(e) => return Err(Error::Decode(e)),
        };
        let a = decode_tuple_item::<A>(client, &tuple, 0)?;
        let b = decode_tuple_item::<B>(client, &tuple, 1)?;
        let c = decode_tuple_item::<C>(client, &tuple, 2)?;
        let d = decode_tuple_item::<D>(client, &tuple, 3)?;
        Ok((a, b, c, d))
    }
}

// --- Protocol message types ---
//
// Some procedures of the KRPC service traffic in messages of the protocol.
// These are encoded as plain protobuf messages.

impl Encode for ProcedureCall {
    open spec fn krpc_encodes(&self, bytes: Seq<u8>) -> bool {
        bytes == message_bytes::<ProcedureCall>(self@)
    }

    fn encode_krpc(&self) -> (bytes: Vec<u8>) {
        encode_message(self)
    }
}

impl Decode for ProcedureCall {
    open spec fn krpc_fault(bytes: Seq<u8>) -> Option<DecodeFault> {
        match read_message::<ProcedureCall>(bytes) {
            Ok(_) => None,
            Err(fault) => Some(fault),
        }
    }

    open spec fn krpc_decodes(client: ClientView, bytes: Seq<u8>, value: Self) -> bool {
        read_message::<ProcedureCall>(bytes) matches Ok(call) && value@ == call
    }

    fn decode_krpc(_client: &ClientRef, bytes: &[u8]) -> (out: Result<Self>) {
        match decode_message::<ProcedureCall>(bytes) {
            Ok(call) => Ok(call),
            Err(e) => Err(Error::Decode(e)),
        }
    }
}

impl Encode for Stream {
    open spec fn krpc_encodes(&self, bytes: Seq<u8>) -> bool {
        bytes == message_bytes::<Stream>(self@)
    }

    fn encode_krpc(&self) -> (bytes: Vec<u8>) {
        encode_message(self)
    }
}

impl Decode for Stream {
    open spec fn krpc_fault(bytes: Seq<u8>) -> Option<DecodeFault> {
        match read_message::<Stream>(bytes) {
            Ok(_) => None,
            Err(fault) => Some(fault),
        }
    }

    open spec fn krpc_decodes(client: ClientView, bytes: Seq<u8>, value: Self) -> bool {
        read_message::<Stream>(bytes) matches Ok(stream) && value@ == stream
    }

    fn decode_krpc(_client: &ClientRef, bytes: &[u8]) -> (out: Result<Self>) {
        match decode_message::<Stream>(bytes) {
            Ok(stream) => Ok(stream),
            Err(e) => Err(Error::Decode(e)),
        }
    }
}

impl Encode for Status {
    open spec fn krpc_encodes(&self, bytes: Seq<u8>) -> bool {
        bytes == message_bytes::<Status>(self@)
    }

    fn encode_krpc(&self) -> (bytes: Vec<u8>) {
        encode_message(self)
    }
}

impl Decode for Status {
    open spec fn krpc_fault(bytes: Seq<u8>) -> Option<DecodeFault> {
        match read_message::<Status>(bytes) {
            Ok(_) => None,
            Err(fault) => Some(fault),
        }
    }

    open spec fn krpc_decodes(client: ClientView, bytes: Seq<u8>, value: Self) -> bool {
        read_message::<Status>(bytes) matches Ok(status) && value@ == status
    }

    fn decode_krpc(_client: &ClientRef, bytes: &[u8]) -> (out: Result<Self>) {
        match decode_message::<Status>(bytes) {
            Ok(status) => Ok(status),
            Err(e) => Err(Error::Decode(e)),
        }
    }
}

impl Encode for Services {
    open spec fn krpc_encodes(&self, bytes: Seq<u8>) -> bool {
        bytes == message_bytes::<Services>(self@)
    }

    fn encode_krpc(&self) -> (bytes: Vec<u8>) {
        encode_message(self)
    }
}

impl Decode for Services {
    open spec fn krpc_fault(bytes: Seq<u8>) -> Option<DecodeFault> {
        match read_message::<Services>(bytes) {
            Ok(_) => None,
            Err(fault) => Some(fault),
        }
    }

    open spec fn krpc_decodes(client: ClientView, bytes: Seq<u8>, value: Self) -> bool {
        read_message::<Services>(bytes) matches Ok(services) && value@ == services
    }

    fn decode_krpc(_client: &ClientRef, bytes: &[u8]) -> (out: Result<Self>) {
        match decode_message::<Services>(bytes) {
            Ok(services) => Ok(services),
            Err(e) => Err(Error::Decode(e)),
        }
    }
}

// --- Unit type (for void returns) ---

impl Decode for () {
    open spec fn krpc_fault(bytes: Seq<u8>) -> Option<DecodeFault> {
        None
    }

    open spec fn krpc_decodes(client: ClientView, bytes: Seq<u8>, value: Self) -> bool {
        true
    }

    fn decode_krpc(_client: &ClientRef, _bytes: &[u8]) -> (out: Result<Self>) {
        Ok(())
    }
}

// --- Calls ---

/// Builds a kRPC procedure argument from any encodable value.
pub fn arg<T: Encode + ?Sized>(position: u32, value: &T) -> (argument: Argument)
    ensures
        argument@.position == position,
        value.krpc_encodes(argument@.value),
{
    Argument { position, value: value.encode_krpc() }
}

/// Builds a [`ProcedureCall`] from a service name, procedure name, and
/// arguments.
pub fn call(service: &str, procedure: &str, arguments: Vec<Argument>) -> (call: ProcedureCall)
    ensures
        call@ == (ProcedureCallView {
            service: service@,
            procedure: procedure@,
            arguments: views(arguments@),
            service_id: 0,
            procedure_id: 0,
        }),
{
    ProcedureCall {
        service: service.to_string(),
        procedure: procedure.to_string(),
        arguments,
        service_id: 0,
        procedure_id: 0,
    }
}

}
