//! What an encoded value decodes to.
use std::collections::{HashMap, HashSet};
use std::hash::Hash;

use vstd::prelude::*;

use crate::codec::{Decode, Double, Encode, Float};
use crate::krpc::schema::{
    Dictionary, DictionaryEntry, ItemSet, List, ProcedureCall, Services, Status, Stream, Tuple,
};
use crate::message::Layout;
use crate::wire::DEPTH_LIMIT;

verus! {

use vstd::std_specs::hash::obeys_key_model;

use crate::client::ClientView;
use crate::error::DecodeFault;
use crate::codec::{
    collected, entries_decode, entries_encode, entries_fault, items_decode, items_encode,
    items_fault, lists_map, lists_set, prefixed, zigzag, zigzag_round_trip,
};
use crate::krpc::schema::{DictionaryEntryView, DictionaryView, ItemSetView, ListView, TupleView};
use crate::message::{
    lemma_field_fits, lemma_text, message_bytes, message_round_trip, repeated_bytes,
    repeated_messages,
};
use crate::wire::{
    fields_bytes, lemma_widths, little_endian, little_endian_round_trip, varint_round_trip,
    FieldView, PayloadView,
};

/// A type whose values are decoded as they were encoded.
pub trait RoundTrip: Encode + Decode {
    /// Whether two values count as the same.
    spec fn same(self, other: Self) -> bool;

    /// Bytes that encode a value decode, from whichever connection, to that
    /// value and to no other.
    proof fn round_trip(client: ClientView, value: Self, bytes: Seq<u8>)
        requires
            value.krpc_encodes(bytes),
            bytes.len() <= u64::MAX,
        ensures
            Self::krpc_fault(bytes) is None,
            forall|back: Self| #[trigger]
                Self::krpc_decodes(client, bytes, back) ==> value.same(back),
    ;
}

/// A type whose values can be keys of a hashed collection: equal values are
/// the same, and `Hash` and `Eq` go by that.
pub trait HashKey: RoundTrip + Eq + Hash {
    proof fn is_key()
        ensures
            obeys_key_model::<Self>(),
            forall|a: Self, b: Self| #[trigger] a.same(b) ==> a == b,
    ;
}

pub(crate) proof fn lemma_number(n: u64)
    ensures
        crate::wire::read_varint(crate::wire::varint(n as nat)) == Some((n, Seq::<u8>::empty())),
{
    varint_round_trip(n, seq![]);
    assert(crate::wire::varint(n as nat) + Seq::<u8>::empty() =~= crate::wire::varint(n as nat));
}

proof fn lemma_region(region: Seq<u8>)
    requires
        region.len() <= u64::MAX,
    ensures
        crate::codec::prefixed_region(prefixed(region)) == Ok::<Seq<u8>, crate::error::DecodeFault>(
            region,
        ),
{
    varint_round_trip(region.len() as u64, region);
    assert(region.take(region.len() as int) =~= region);
}

impl RoundTrip for u32 {
    open spec fn same(self, other: Self) -> bool {
        self == other
    }

    proof fn round_trip(client: ClientView, value: Self, bytes: Seq<u8>) {
        lemma_number(value as u64);
    }
}

impl RoundTrip for u64 {
    open spec fn same(self, other: Self) -> bool {
        self == other
    }

    proof fn round_trip(client: ClientView, value: Self, bytes: Seq<u8>) {
        lemma_number(value);
    }
}

impl RoundTrip for i32 {
    open spec fn same(self, other: Self) -> bool {
        self == other
    }

    proof fn round_trip(client: ClientView, value: Self, bytes: Seq<u8>) {
        lemma_number(zigzag(value as int) as u64);
        zigzag_round_trip(value as int, 0);
    }
}

impl RoundTrip for i64 {
    open spec fn same(self, other: Self) -> bool {
        self == other
    }

    proof fn round_trip(client: ClientView, value: Self, bytes: Seq<u8>) {
        lemma_number(zigzag(value as int) as u64);
        zigzag_round_trip(value as int, 0);
    }
}

impl RoundTrip for Float {
    open spec fn same(self, other: Self) -> bool {
        self == other
    }

    proof fn round_trip(client: ClientView, value: Self, bytes: Seq<u8>) {
        lemma_widths();
        little_endian_round_trip(value.bits as nat, 4);
    }
}

impl RoundTrip for Double {
    open spec fn same(self, other: Self) -> bool {
        self == other
    }

    proof fn round_trip(client: ClientView, value: Self, bytes: Seq<u8>) {
        lemma_widths();
        little_endian_round_trip(value.bits as nat, 8);
    }
}

impl RoundTrip for bool {
    open spec fn same(self, other: Self) -> bool {
        self == other
    }

    proof fn round_trip(client: ClientView, value: Self, bytes: Seq<u8>) {
        lemma_number(if value { 1 } else { 0 });
    }
}

impl RoundTrip for String {
    open spec fn same(self, other: Self) -> bool {
        self@ == other@
    }

    proof fn round_trip(client: ClientView, value: Self, bytes: Seq<u8>) {
        lemma_text(value@);
        lemma_region(vstd::utf8::encode_utf8(value@));
    }
}

impl RoundTrip for Vec<u8> {
    open spec fn same(self, other: Self) -> bool {
        self@ == other@
    }

    proof fn round_trip(client: ClientView, value: Self, bytes: Seq<u8>) {
        lemma_region(value@);
    }
}

impl HashKey for u32 {
    proof fn is_key() {
        broadcast use vstd::std_specs::hash::group_hash_axioms;

    }
}

impl HashKey for u64 {
    proof fn is_key() {
        broadcast use vstd::std_specs::hash::group_hash_axioms;

    }
}

impl HashKey for i32 {
    proof fn is_key() {
        broadcast use vstd::std_specs::hash::group_hash_axioms;

    }
}

impl HashKey for i64 {
    proof fn is_key() {
        broadcast use vstd::std_specs::hash::group_hash_axioms;

    }
}

impl HashKey for bool {
    proof fn is_key() {
        broadcast use vstd::std_specs::hash::group_hash_axioms;

    }
}

// --- Collections ---

/// Whether two runs of values are the same, value by value.
pub open spec fn all_same<T: RoundTrip>(values: Seq<T>, backs: Seq<T>) -> bool {
    &&& backs.len() == values.len()
    &&& forall|i: int| 0 <= i < values.len() ==> (#[trigger] values[i]).same(backs[i])
}

proof fn lemma_item_fits(items: Seq<Seq<u8>>, i: int)
    requires
        0 <= i < items.len(),
    ensures
        items[i].len() <= fields_bytes(repeated_bytes(1, items)).len(),
{
    lemma_field_fits(repeated_bytes(1, items), i);
}

proof fn lemma_no_item_fault<T: RoundTrip>(client: ClientView, values: Seq<T>, items: Seq<Seq<u8>>)
    requires
        items_encode(values, items),
        forall|i: int| 0 <= i < items.len() ==> (#[trigger] items[i]).len() <= u64::MAX,
    ensures
        items_fault::<T>(items) is None,
    decreases items.len(),
{
    if items.len() > 0 {
        assert(values[0].krpc_encodes(items[0]));
        T::round_trip(client, values[0], items[0]);
        assert forall|i: int| 0 <= i < items.skip(1).len() implies (
            #[trigger] values.skip(1)[i]).krpc_encodes(items.skip(1)[i]) by {
            assert(values[i + 1].krpc_encodes(items[i + 1]));
        }
        lemma_no_item_fault(client, values.skip(1), items.skip(1));
    }
}

proof fn lemma_items_round_trip<T: RoundTrip>(
    client: ClientView,
    values: Seq<T>,
    items: Seq<Seq<u8>>,
)
    requires
        items_encode(values, items),
        forall|i: int| 0 <= i < items.len() ==> (#[trigger] items[i]).len() <= u64::MAX,
    ensures
        items_fault::<T>(items) is None,
        forall|backs: Seq<T>| #[trigger]
            items_decode(client, items, backs) ==> all_same(values, backs),
{
    lemma_no_item_fault(client, values, items);
    assert forall|backs: Seq<T>| #[trigger] items_decode(client, items, backs) implies all_same(
        values,
        backs,
    ) by {
        assert forall|i: int| 0 <= i < values.len() implies (#[trigger] values[i]).same(
            backs[i],
        ) by {
            assert(items[i].len() <= u64::MAX);
            T::round_trip(client, values[i], items[i]);
            assert(T::krpc_decodes(client, items[i], backs[i]));
        }
    }
}

impl<T: RoundTrip> RoundTrip for Vec<T> {
    open spec fn same(self, other: Self) -> bool {
        all_same(self@, other@)
    }

    proof fn round_trip(client: ClientView, value: Self, bytes: Seq<u8>) {
        let items = choose|items: Seq<Seq<u8>>| #[trigger]
            items_encode(value@, items) && bytes == message_bytes::<List>(ListView { items });
        message_round_trip::<List>(ListView { items });
        assert forall|i: int| 0 <= i < items.len() implies (#[trigger] items[i]).len()
            <= u64::MAX by {
            lemma_item_fits(items, i);
        }
        lemma_items_round_trip(client, value@, items);
    }
}

impl<A: RoundTrip, B: RoundTrip> RoundTrip for (A, B) {
    open spec fn same(self, other: Self) -> bool {
        self.0.same(other.0) && self.1.same(other.1)
    }

    proof fn round_trip(client: ClientView, value: Self, bytes: Seq<u8>) {
        let (a, b) = choose|a: Seq<u8>, b: Seq<u8>| #[trigger]
            value.0.krpc_encodes(a) && #[trigger] value.1.krpc_encodes(b) && bytes
                == message_bytes::<Tuple>(TupleView { items: seq![a, b] });
        let items = seq![a, b];
        message_round_trip::<Tuple>(TupleView { items });
        lemma_item_fits(items, 0);
        lemma_item_fits(items, 1);
        A::round_trip(client, value.0, a);
        B::round_trip(client, value.1, b);
    }
}

impl<A: RoundTrip, B: RoundTrip, C: RoundTrip> RoundTrip for (A, B, C) {
    open spec fn same(self, other: Self) -> bool {
        self.0.same(other.0) && self.1.same(other.1) && self.2.same(other.2)
    }

    proof fn round_trip(client: ClientView, value: Self, bytes: Seq<u8>) {
        let (a, b, c) = choose|a: Seq<u8>, b: Seq<u8>, c: Seq<u8>| #[trigger]
            value.0.krpc_encodes(a) && #[trigger] value.1.krpc_encodes(b)
                && #[trigger] value.2.krpc_encodes(c) && bytes == message_bytes::<Tuple>(
                TupleView { items: seq![a, b, c] },
            );
        let items = seq![a, b, c];
        message_round_trip::<Tuple>(TupleView { items });
        lemma_item_fits(items, 0);
        lemma_item_fits(items, 1);
        lemma_item_fits(items, 2);
        A::round_trip(client, value.0, a);
        B::round_trip(client, value.1, b);
        C::round_trip(client, value.2, c);
    }
}

impl<A: RoundTrip, B: RoundTrip, C: RoundTrip, D: RoundTrip> RoundTrip for (A, B, C, D) {
    open spec fn same(self, other: Self) -> bool {
        self.0.same(other.0) && self.1.same(other.1) && self.2.same(other.2) && self.3.same(
            other.3,
        )
    }

    proof fn round_trip(client: ClientView, value: Self, bytes: Seq<u8>) {
        let (a, b, c, d) = choose|a: Seq<u8>, b: Seq<u8>, c: Seq<u8>, d: Seq<u8>| #[trigger]
            value.0.krpc_encodes(a) && #[trigger] value.1.krpc_encodes(b)
                && #[trigger] value.2.krpc_encodes(c) && #[trigger] value.3.krpc_encodes(d)
                && bytes == message_bytes::<Tuple>(TupleView { items: seq![a, b, c, d] });
        let items = seq![a, b, c, d];
        message_round_trip::<Tuple>(TupleView { items });
        lemma_item_fits(items, 0);
        lemma_item_fits(items, 1);
        lemma_item_fits(items, 2);
        lemma_item_fits(items, 3);
        A::round_trip(client, value.0, a);
        B::round_trip(client, value.1, b);
        C::round_trip(client, value.2, c);
        D::round_trip(client, value.3, d);
    }
}

impl RoundTrip for ProcedureCall {
    open spec fn same(self, other: Self) -> bool {
        self@ == other@
    }

    proof fn round_trip(client: ClientView, value: Self, bytes: Seq<u8>) {
        message_round_trip::<ProcedureCall>(value@);
    }
}

impl RoundTrip for Stream {
    open spec fn same(self, other: Self) -> bool {
        self@ == other@
    }

    proof fn round_trip(client: ClientView, value: Self, bytes: Seq<u8>) {
        message_round_trip::<Stream>(value@);
    }
}

/// A status comes back as it was encoded, but for the sign of a zero.
pub proof fn status_comes_back(client: ClientView, value: Status, bytes: Seq<u8>)
    requires
        value.krpc_encodes(bytes),
        bytes.len() <= u64::MAX,
        Status::reads_back(value@, DEPTH_LIMIT as nat),
    ensures
        Status::krpc_fault(bytes) is None,
        forall|back: Status| #[trigger]
            Status::krpc_decodes(client, bytes, back) ==> back@ == value@,
{
    message_round_trip::<Status>(value@);
}

/// Services come back as they were encoded, as long as the types in them do
/// not stand deeper within one another than a reader goes.
pub proof fn services_come_back(client: ClientView, value: Services, bytes: Seq<u8>)
    requires
        value.krpc_encodes(bytes),
        bytes.len() <= u64::MAX,
        Services::reads_back(value@, DEPTH_LIMIT as nat),
    ensures
        Services::krpc_fault(bytes) is None,
        forall|back: Services| #[trigger]
            Services::krpc_decodes(client, bytes, back) ==> back@ == value@,
{
    message_round_trip::<Services>(value@);
}

impl<T: HashKey> RoundTrip for HashSet<T> {
    open spec fn same(self, other: Self) -> bool {
        self@ == other@
    }

    proof fn round_trip(client: ClientView, value: Self, bytes: Seq<u8>) {
        T::is_key();
        let (values, items) = choose|values: Seq<T>, items: Seq<Seq<u8>>| #[trigger]
            items_encode(values, items) && bytes == message_bytes::<ItemSet>(
                ItemSetView { items },
            ) && (obeys_key_model::<T>() ==> lists_set(values, value@));
        message_round_trip::<ItemSet>(ItemSetView { items });
        assert forall|i: int| 0 <= i < items.len() implies (#[trigger] items[i]).len()
            <= u64::MAX by {
            lemma_item_fits(items, i);
        }
        lemma_items_round_trip(client, values, items);
        assert forall|back: Self| #[trigger]
            Self::krpc_decodes(client, bytes, back) implies value.same(back) by {
            let backs = choose|backs: Seq<T>| #[trigger]
                items_decode(client, items, backs) && (obeys_key_model::<T>() ==> back@
                    == backs.to_set());
            assert(all_same(values, backs));
            assert forall|i: int| 0 <= i < values.len() implies values[i] == backs[i] by {
                assert(values[i].same(backs[i]));
            }
            assert(values =~= backs);
        }
    }
}

proof fn lemma_collected<K, V>(pairs: Seq<(K, V)>)
    requires
        forall|i: int, j: int|
            0 <= i < j < pairs.len() ==> (#[trigger] pairs[i]).0 != (#[trigger] pairs[j]).0,
    ensures
        forall|i: int|
            0 <= i < pairs.len() ==> collected(pairs).contains_key((#[trigger] pairs[i]).0)
                && collected(pairs)[pairs[i].0] == pairs[i].1,
        forall|k: K| #[trigger]
            collected(pairs).contains_key(k) ==> exists|i: int|
                0 <= i < pairs.len() && (#[trigger] pairs[i]).0 == k,
    decreases pairs.len(),
{
    if pairs.len() > 0 {
        let front = pairs.drop_last();
        lemma_collected(front);
        assert forall|i: int| 0 <= i < pairs.len() implies collected(pairs).contains_key(
            (#[trigger] pairs[i]).0,
        ) && collected(pairs)[pairs[i].0] == pairs[i].1 by {
            if i < front.len() {
                assert(front[i] == pairs[i]);
                assert(pairs[i].0 != pairs[pairs.len() - 1].0);
            }
        }
        assert forall|k: K| #[trigger] collected(pairs).contains_key(k) implies exists|i: int|
            0 <= i < pairs.len() && (#[trigger] pairs[i]).0 == k by {
            if k == pairs.last().0 {
                assert(pairs[pairs.len() - 1].0 == k);
            } else {
                assert(collected(front).contains_key(k));
                let i = choose|i: int| 0 <= i < front.len() && (#[trigger] front[i]).0 == k;
                assert(pairs[i].0 == k);
            }
        }
    }
}

proof fn lemma_no_entry_fault<K: RoundTrip, V: RoundTrip>(
    client: ClientView,
    pairs: Seq<(K, V)>,
    entries: Seq<DictionaryEntryView>,
)
    requires
        entries_encode(pairs, entries),
        forall|i: int|
            0 <= i < entries.len() ==> (#[trigger] entries[i]).key.len() <= u64::MAX
                && entries[i].value.len() <= u64::MAX,
    ensures
        entries_fault::<K, V>(entries) is None,
    decreases entries.len(),
{
    if entries.len() > 0 {
        assert(pairs[0].0.krpc_encodes(entries[0].key));
        K::round_trip(client, pairs[0].0, entries[0].key);
        V::round_trip(client, pairs[0].1, entries[0].value);
        assert forall|i: int| 0 <= i < entries.skip(1).len() implies (
            #[trigger] pairs.skip(1)[i]).0.krpc_encodes(entries.skip(1)[i].key) && pairs.skip(
            1,
        )[i].1.krpc_encodes(entries.skip(1)[i].value) by {
            assert(pairs[i + 1].0.krpc_encodes(entries[i + 1].key));
        }
        lemma_no_entry_fault(client, pairs.skip(1), entries.skip(1));
    }
}

proof fn lemma_entry_fits(entries: Seq<DictionaryEntryView>, i: int)
    requires
        0 <= i < entries.len(),
    ensures
        entries[i].key.len() <= message_bytes::<Dictionary>(DictionaryView { entries }).len(),
        entries[i].value.len() <= message_bytes::<Dictionary>(DictionaryView { entries }).len(),
{
    let entry = entries[i];
    lemma_field_fits(repeated_messages::<DictionaryEntry>(1, entries), i);
    let fields = crate::message::bytes_field(1, entry.key) + crate::message::bytes_field(
        2,
        entry.value,
    );
    if entry.key.len() > 0 {
        lemma_field_fits(fields, 0);
        assert(fields[0] == FieldView { tag: 1, payload: PayloadView::Bytes(entry.key) });
    }
    if entry.value.len() > 0 {
        let k = fields.len() - 1;
        lemma_field_fits(fields, k);
        assert(fields[k] == FieldView { tag: 2, payload: PayloadView::Bytes(entry.value) });
    }
}

impl<K: HashKey, V: RoundTrip> RoundTrip for HashMap<K, V> {
    open spec fn same(self, other: Self) -> bool {
        &&& self@.dom() == other@.dom()
        &&& forall|k: K| #[trigger] self@.contains_key(k) ==> self@[k].same(other@[k])
    }

    proof fn round_trip(client: ClientView, value: Self, bytes: Seq<u8>) {
        K::is_key();
        let (pairs, entries) = choose|
            pairs: Seq<(K, V)>,
            entries: Seq<DictionaryEntryView>,
        | #[trigger]
            entries_encode(pairs, entries) && bytes == message_bytes::<Dictionary>(
                DictionaryView { entries },
            ) && (obeys_key_model::<K>() ==> lists_map(pairs, value@));
        message_round_trip::<Dictionary>(DictionaryView { entries });
        assert forall|i: int| 0 <= i < entries.len() implies (#[trigger] entries[i]).key.len()
            <= u64::MAX && entries[i].value.len() <= u64::MAX by {
            lemma_entry_fits(entries, i);
        }
        lemma_no_entry_fault(client, pairs, entries);
        assert forall|i: int| 0 <= i < pairs.len() implies value@.contains_key(
            (#[trigger] pairs[i]).0,
        ) && value@[pairs[i].0] == pairs[i].1 by {
            assert(pairs.to_set().contains(pairs[i]));
            assert(value@.kv_pairs().contains(pairs[i]));
        }
        assert forall|back: Self| #[trigger]
            Self::krpc_decodes(client, bytes, back) implies value.same(back) by {
            let backs = choose|backs: Seq<(K, V)>| #[trigger]
                entries_decode(client, entries, backs) && (obeys_key_model::<K>() ==> back@
                    == collected(backs));
            assert forall|i: int| 0 <= i < pairs.len() implies (#[trigger] pairs[i]).0
                == backs[i].0 && pairs[i].1.same(backs[i].1) by {
                assert(entries[i].key.len() <= u64::MAX);
                K::round_trip(client, pairs[i].0, entries[i].key);
                V::round_trip(client, pairs[i].1, entries[i].value);
                assert(K::krpc_decodes(client, entries[i].key, backs[i].0));
                assert(V::krpc_decodes(client, entries[i].value, backs[i].1));
                assert(pairs[i].0.same(backs[i].0));
            }
            assert forall|i: int, j: int| 0 <= i < j < backs.len() implies (
            #[trigger] backs[i]).0 != (#[trigger] backs[j]).0 by {
                assert(pairs[i].0 == backs[i].0);
                assert(pairs[j].0 == backs[j].0);
                assert(pairs[i] != pairs[j]);
            }
            lemma_collected(backs);
            assert forall|k: K| #[trigger] value@.contains_key(k) implies back@.contains_key(k)
                && value@[k].same(back@[k]) by {
                assert(value@.kv_pairs().contains((k, value@[k])));
                let i = choose|i: int| 0 <= i < pairs.len() && pairs[i] == (k, value@[k]);
                assert(backs[i].0 == k);
            }
            assert forall|k: K| #[trigger] back@.contains_key(k) implies value@.contains_key(
                k,
            ) by {
                assert(collected(backs).contains_key(k));
                let i = choose|i: int| 0 <= i < backs.len() && (#[trigger] backs[i]).0 == k;
                assert(pairs[i].0 == k);
            }
            assert(value@.dom() =~= back@.dom());
        }
    }
}

// --- What bytes decode to ---

/// Zigzag counts outwards from zero: zero first, then each number behind its
/// negative, which comes behind the number before it.
pub proof fn zigzag_counts_outwards(n: int)
    requires
        n > 0,
    ensures
        zigzag(0) == 0,
        zigzag(-n) == zigzag(n - 1) + 1,
        zigzag(n) == zigzag(-n) + 1,
{
}

/// A number in front of any other bytes decodes, and those bytes are not looked
/// at: in 64 bits as itself, in 32 bits as what is left modulo two to the
/// thirty-second, as a truth value whether it is other than zero, and signed as
/// the number that zigzag makes it of.
pub proof fn numbers_decode(client: ClientView, n: u64, tail: Seq<u8>)
    ensures
        ({
            let bytes = crate::wire::varint(n as nat) + tail;
            &&& u64::krpc_fault(bytes) is None
            &&& u32::krpc_fault(bytes) is None
            &&& i64::krpc_fault(bytes) is None
            &&& i32::krpc_fault(bytes) is None
            &&& bool::krpc_fault(bytes) is None
            &&& forall|v: u64| u64::krpc_decodes(client, bytes, v) <==> v == n
            &&& forall|v: u32| u32::krpc_decodes(client, bytes, v) <==> v as int == n as int
                % 0x1_0000_0000
            &&& forall|v: bool| bool::krpc_decodes(client, bytes, v) <==> (v <==> n != 0)
            &&& forall|v: i64| i64::krpc_decodes(client, bytes, v) <==> zigzag(v as int) == n
            &&& forall|v: i32| i32::krpc_decodes(client, bytes, v) <==> zigzag(v as int) == n as int
                % 0x1_0000_0000
        }),
{
    let bytes = crate::wire::varint(n as nat) + tail;
    varint_round_trip(n, tail);
    let low = (n as int % 0x1_0000_0000) as nat;
    zigzag_round_trip(0, n as nat);
    zigzag_round_trip(0, low);
    assert forall|v: i64| i64::krpc_decodes(client, bytes, v) <==> zigzag(v as int) == n by {
        zigzag_round_trip(v as int, n as nat);
    }
    assert forall|v: i32| i32::krpc_decodes(client, bytes, v) <==> zigzag(v as int) == n as int
        % 0x1_0000_0000 by {
        zigzag_round_trip(v as int, low);
    }
}

/// Bytes that start with no varint are no number.
pub proof fn broken_numbers_are_refused(bytes: Seq<u8>)
    requires
        crate::wire::read_varint(bytes) is None,
    ensures
        u64::krpc_fault(bytes) == Some(DecodeFault::Wire),
        u32::krpc_fault(bytes) == Some(DecodeFault::Wire),
        i64::krpc_fault(bytes) == Some(DecodeFault::Wire),
        i32::krpc_fault(bytes) == Some(DecodeFault::Wire),
        bool::krpc_fault(bytes) == Some(DecodeFault::Wire),
        String::krpc_fault(bytes) == Some(DecodeFault::Wire),
        Vec::<u8>::krpc_fault(bytes) == Some(DecodeFault::Wire),
{
}

/// A number is encoded as a varint and nothing behind it: unsigned as itself,
/// signed by zigzag, a truth value as one or zero.
pub proof fn numbers_are_encoded(a: u64, b: u32, c: i64, d: i32, e: bool, bytes: Seq<u8>)
    ensures
        a.krpc_encodes(bytes) ==> crate::wire::read_varint(bytes) == Some(
            (a, Seq::<u8>::empty()),
        ),
        b.krpc_encodes(bytes) ==> crate::wire::read_varint(bytes) == Some(
            (b as u64, Seq::<u8>::empty()),
        ),
        c.krpc_encodes(bytes) ==> crate::wire::read_varint(bytes) == Some(
            ((if c >= 0 { c + c } else { -1 - c - c }) as u64, Seq::<u8>::empty()),
        ),
        d.krpc_encodes(bytes) ==> crate::wire::read_varint(bytes) == Some(
            ((if d >= 0 { d + d } else { -1 - d - d }) as u64, Seq::<u8>::empty()),
        ),
        e.krpc_encodes(bytes) ==> crate::wire::read_varint(bytes) == Some(
            (if e { 1u64 } else { 0u64 }, Seq::<u8>::empty()),
        ),
{
    lemma_number(a);
    lemma_number(b as u64);
    lemma_number((if c >= 0 { c + c } else { -1 - c - c }) as u64);
    lemma_number((if d >= 0 { d + d } else { -1 - d - d }) as u64);
    lemma_number(if e { 1 } else { 0 });
}

/// A floating-point number is its bits in four or eight bytes, the lowest
/// first; bytes of another length are none.
pub proof fn floats_are_their_bits(client: ClientView, bytes: Seq<u8>, f: Float, d: Double, i: nat)
    ensures
        f.krpc_encodes(bytes) ==> bytes.len() == 4 && (i < 4 ==> bytes[i as int] == (f.bits as nat
            / vstd::arithmetic::power::pow(256, i) as nat) % 256),
        d.krpc_encodes(bytes) ==> bytes.len() == 8 && (i < 8 ==> bytes[i as int] == (d.bits as nat
            / vstd::arithmetic::power::pow(256, i) as nat) % 256),
        bytes.len() == 4 ==> Float::krpc_fault(bytes) is None,
        bytes.len() != 4 ==> Float::krpc_fault(bytes) == Some(
            DecodeFault::FloatWidth { expected: 4 },
        ),
        bytes.len() == 8 ==> Double::krpc_fault(bytes) is None,
        bytes.len() != 8 ==> Double::krpc_fault(bytes) == Some(
            DecodeFault::FloatWidth { expected: 8 },
        ),
{
    if f.krpc_encodes(bytes) {
        lemma_little_endian_byte(f.bits as nat, 4, i);
    }
    if d.krpc_encodes(bytes) {
        lemma_little_endian_byte(d.bits as nat, 8, i);
    }
}

proof fn lemma_little_endian_byte(n: nat, width: nat, i: nat)
    ensures
        little_endian(n, width).len() == width,
        i < width ==> little_endian(n, width)[i as int] == (n / vstd::arithmetic::power::pow(
            256,
            i,
        ) as nat) % 256,
    decreases width,
{
    reveal(vstd::arithmetic::power::pow);
    if width > 0 {
        if i == 0 {
            lemma_little_endian_byte(n / 256, (width - 1) as nat, 0);
            assert(vstd::arithmetic::power::pow(256, 0) == 1);
            assert(n / 1 == n);
        } else {
            let j = (i - 1) as nat;
            lemma_little_endian_byte(n / 256, (width - 1) as nat, j);
            let p = vstd::arithmetic::power::pow(256, j);
            vstd::arithmetic::power::lemma_pow_positive(256, j);
            assert(vstd::arithmetic::power::pow(256, i) == 256 * p);
            vstd::arithmetic::div_mod::lemma_div_denominator(n as int, 256, p);
        }
    }
}

/// A text or a run of bytes stands behind its length; what follows is not
/// looked at. A length that goes beyond the bytes is refused, and so is a text
/// that is no UTF-8.
pub proof fn regions_decode(client: ClientView, region: Seq<u8>, tail: Seq<u8>, n: u64)
    requires
        region.len() <= u64::MAX,
    ensures
        ({
            let bytes = crate::wire::varint(region.len()) + region + tail;
            &&& Vec::<u8>::krpc_fault(bytes) is None
            &&& forall|v: Vec<u8>| #[trigger]
                Vec::<u8>::krpc_decodes(client, bytes, v) <==> v@ == region
            &&& String::krpc_fault(bytes) == if vstd::utf8::valid_utf8(region) {
                None
            } else {
                Some(DecodeFault::Utf8)
            }
            &&& vstd::utf8::valid_utf8(region) ==> forall|v: String| #[trigger]
                String::krpc_decodes(client, bytes, v) <==> v@ == vstd::utf8::decode_utf8(region)
        }),
        n > region.len() ==> {
            let short = crate::wire::varint(n as nat) + region;
            &&& Vec::<u8>::krpc_fault(short) == Some(DecodeFault::LengthPrefix)
            &&& String::krpc_fault(short) == Some(DecodeFault::LengthPrefix)
        },
{
    let bytes = crate::wire::varint(region.len()) + region + tail;
    assert(bytes =~= crate::wire::varint(region.len()) + (region + tail));
    varint_round_trip(region.len() as u64, region + tail);
    assert((region + tail).take(region.len() as int) =~= region);
    varint_round_trip(n, region);
}

/// A run of items is in order exactly where each of them is; otherwise what is
/// wrong is what is wrong with the first that is not.
pub proof fn first_bad_item_counts<T: Decode>(items: Seq<Seq<u8>>, i: int)
    requires
        0 <= i < items.len(),
        forall|j: int| 0 <= j < i ==> T::krpc_fault(#[trigger] items[j]) is None,
    ensures
        T::krpc_fault(items[i]) is Some ==> items_fault::<T>(items) == T::krpc_fault(items[i]),
        T::krpc_fault(items[i]) is None && i == items.len() - 1 ==> items_fault::<T>(items) is None,
        items_fault::<T>(seq![]) is None,
    decreases items.len(),
{
    assert(T::krpc_fault(items[0]) is None || i == 0);
    if i > 0 {
        let rest = items.skip(1);
        assert forall|j: int| 0 <= j < i - 1 implies T::krpc_fault(#[trigger] rest[j]) is None by {
            assert(rest[j] == items[j + 1]);
        }
        first_bad_item_counts::<T>(rest, i - 1);
        assert(rest[i - 1] == items[i]);
    } else if items.len() == 1 {
        assert(items.skip(1) =~= seq![]);
    }
}

/// A dictionary's entries are in order exactly where each key and each value
/// is; otherwise what is wrong is what is wrong with the first entry that is
/// not, with its key before its value.
pub proof fn first_bad_entry_counts<K: Decode, V: Decode>(
    entries: Seq<DictionaryEntryView>,
    i: int,
)
    requires
        0 <= i < entries.len(),
        forall|j: int|
            0 <= j < i ==> K::krpc_fault((#[trigger] entries[j]).key) is None && V::krpc_fault(
                entries[j].value,
            ) is None,
    ensures
        K::krpc_fault(entries[i].key) is Some ==> entries_fault::<K, V>(entries) == K::krpc_fault(
            entries[i].key,
        ),
        K::krpc_fault(entries[i].key) is None && V::krpc_fault(entries[i].value) is Some
            ==> entries_fault::<K, V>(entries) == V::krpc_fault(entries[i].value),
        K::krpc_fault(entries[i].key) is None && V::krpc_fault(entries[i].value) is None && i
            == entries.len() - 1 ==> entries_fault::<K, V>(entries) is None,
        entries_fault::<K, V>(seq![]) is None,
    decreases entries.len(),
{
    if i > 0 {
        assert(K::krpc_fault(entries[0].key) is None);
        let rest = entries.skip(1);
        assert forall|j: int| 0 <= j < i - 1 implies K::krpc_fault((#[trigger] rest[j]).key) is None
            && V::krpc_fault(rest[j].value) is None by {
            assert(rest[j] == entries[j + 1]);
        }
        first_bad_entry_counts::<K, V>(rest, i - 1);
        assert(rest[i - 1] == entries[i]);
    } else if entries.len() == 1 {
        assert(entries.skip(1) =~= seq![]);
    }
}

/// Of pairs with one key the last counts, and a map holds no key that no pair
/// has.
pub proof fn last_pair_of_a_key_counts<K, V>(pairs: Seq<(K, V)>, key: K, i: int)
    ensures
        0 <= i < pairs.len() && pairs[i].0 == key && (forall|j: int|
            i < j < pairs.len() ==> (#[trigger] pairs[j]).0 != key) ==> collected(
            pairs,
        ).contains_key(key) && collected(pairs)[key] == pairs[i].1,
        (forall|j: int| 0 <= j < pairs.len() ==> (#[trigger] pairs[j]).0 != key) ==> !collected(
            pairs,
        ).contains_key(key),
    decreases pairs.len(),
{
    if pairs.len() > 0 {
        let front = pairs.drop_last();
        last_pair_of_a_key_counts(front, key, i);
        assert(pairs.last() == pairs[pairs.len() - 1]);
        assert(forall|j: int| 0 <= j < front.len() ==> front[j] == pairs[j]);
    }
}

/// A tuple has an item for each place; one that ends before it lacks that
/// place, and items behind the last place are not looked at.
pub proof fn tuples_need_every_place<A: Decode, B: Decode, C: Decode, D: Decode>(
    items: Seq<Seq<u8>>,
    bytes: Seq<u8>,
)
    requires
        bytes == message_bytes::<Tuple>(TupleView { items }),
        bytes.len() <= u64::MAX,
    ensures
        items.len() == 0 ==> <(A, B)>::krpc_fault(bytes) == Some(
            DecodeFault::TupleTooShort { index: 0 },
        ) && <(A, B, C)>::krpc_fault(bytes) == Some(DecodeFault::TupleTooShort { index: 0 })
            && <(A, B, C, D)>::krpc_fault(bytes) == Some(DecodeFault::TupleTooShort { index: 0 }),
        items.len() >= 1 && A::krpc_fault(items[0]) is Some ==> <(A, B)>::krpc_fault(bytes)
            == A::krpc_fault(items[0]) && <(A, B, C)>::krpc_fault(bytes) == A::krpc_fault(items[0])
            && <(A, B, C, D)>::krpc_fault(bytes) == A::krpc_fault(items[0]),
        items.len() == 1 && A::krpc_fault(items[0]) is None ==> <(A, B)>::krpc_fault(bytes) == Some(
            DecodeFault::TupleTooShort { index: 1 },
        ),
        items.len() >= 2 && A::krpc_fault(items[0]) is None ==> <(A, B)>::krpc_fault(bytes)
            == B::krpc_fault(items[1]),
        items.len() == 2 && A::krpc_fault(items[0]) is None && B::krpc_fault(items[1]) is None
            ==> <(A, B, C)>::krpc_fault(bytes) == Some(DecodeFault::TupleTooShort { index: 2 }),
        items.len() >= 3 && A::krpc_fault(items[0]) is None && B::krpc_fault(items[1]) is None
            ==> <(A, B, C)>::krpc_fault(bytes) == C::krpc_fault(items[2]),
        items.len() == 3 && A::krpc_fault(items[0]) is None && B::krpc_fault(items[1]) is None
            && C::krpc_fault(items[2]) is None ==> <(A, B, C, D)>::krpc_fault(bytes) == Some(
            DecodeFault::TupleTooShort { index: 3 },
        ),
        items.len() >= 4 && A::krpc_fault(items[0]) is None && B::krpc_fault(items[1]) is None
            && C::krpc_fault(items[2]) is None ==> <(A, B, C, D)>::krpc_fault(bytes)
            == D::krpc_fault(items[3]),
{
    message_round_trip::<Tuple>(TupleView { items });
}

/// Lists, sets and dictionaries are decoded from what they hold: a list whose
/// bytes hold `items` is wrong exactly as its items are, its values are those
/// of its items in order, and so on.
pub proof fn collections_decode_their_items<T: Decode + Eq + Hash>(
    client: ClientView,
    items: Seq<Seq<u8>>,
    list: Vec<T>,
)
    requires
        message_bytes::<List>(ListView { items }).len() <= u64::MAX,
        message_bytes::<ItemSet>(ItemSetView { items }).len() <= u64::MAX,
    ensures
        Vec::<T>::krpc_fault(message_bytes::<List>(ListView { items })) == items_fault::<T>(items),
        HashSet::<T>::krpc_fault(message_bytes::<ItemSet>(ItemSetView { items })) == items_fault::<
            T,
        >(items),
        Vec::<T>::krpc_decodes(client, message_bytes::<List>(ListView { items }), list) <==> (
        list@.len() == items.len() && forall|i: int|
            0 <= i < items.len() ==> T::krpc_decodes(client, items[i], #[trigger] list@[i])),
{
    message_round_trip::<List>(ListView { items });
    message_round_trip::<ItemSet>(ItemSetView { items });
}

}
