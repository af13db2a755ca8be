//! The KRPC service: server-side expressions and their types.
use std::collections::HashMap;

use vstd::prelude::*;

use crate::client::ClientRef;
use crate::codec::{Decode, Encode};
use crate::error::Result;
use crate::round_trip::{HashKey, RoundTrip};

verus! {

use vstd::std_specs::hash::obeys_key_model;

use crate::client::ClientView;
use crate::codec::{collected, entries_decode};
use crate::error::DecodeFault;
use crate::krpc::schema::{Dictionary, List};
use crate::message::read_message;
use crate::wire::{read_varint, varint};

/// A remote object as a value: its id, and the connection that it is reached
/// through.
#[verifier::ext_equal]
pub struct ObjectView {
    pub id: u64,
    pub client: ClientView,
}

/// A server-side expression.
#[derive(Debug)]
pub struct Expression {
    id: u64,
    client: ClientRef,
}

impl View for Expression {
    type V = ObjectView;

    closed spec fn view(&self) -> ObjectView {
        ObjectView { id: self.id, client: self.client@ }
    }
}

impl Clone for Expression {
    fn clone(&self) -> (out: Self)
        ensures
            out@ == self@,
    {
        Expression { id: self.id, client: self.client.clone() }
    }
}

impl Expression {
    /// The expression with the id that the server gave it.
    pub fn new(id: u64, client: ClientRef) -> (out: Self)
        ensures
            out@ == (ObjectView { id, client: client@ }),
    {
        Expression { id, client }
    }

    /// The id that the server gave the expression.
    pub fn id(&self) -> (id: u64)
        ensures
            id == self@.id,
    {
        self.id
    }

    /// The connection that the expression is reached through.
    pub fn client(&self) -> (client: &ClientRef)
        ensures
            client@ == self@.client,
    {
        &self.client
    }
}

impl Encode for Expression {
    open spec fn krpc_encodes(&self, bytes: Seq<u8>) -> bool {
        bytes == varint(self@.id as nat)
    }

    fn encode_krpc(&self) -> (bytes: Vec<u8>) {
        self.id.encode_krpc()
    }
}

impl Decode for Expression {
    open spec fn krpc_fault(bytes: Seq<u8>) -> Option<DecodeFault> {
        u64::krpc_fault(bytes)
    }

    /// The handle captures the connection that it came from.
    open spec fn krpc_decodes(client: ClientView, bytes: Seq<u8>, value: Self) -> bool {
        read_varint(bytes) matches Some((id, _)) && value@ == (ObjectView { id, client })
    }

    fn decode_krpc(client: &ClientRef, bytes: &[u8]) -> (out: Result<Self>) {
        let id = u64::decode_krpc(client, bytes)?;
        Ok(Expression { id, client: client.clone() })
    }
}

impl RoundTrip for Expression {
    /// A handle is encoded by its id alone.
    open spec fn same(self, other: Self) -> bool {
        self@.id == other@.id
    }

    proof fn round_trip(client: ClientView, value: Self, bytes: Seq<u8>) {
        crate::round_trip::lemma_number(value@.id);
    }
}

proof fn lemma_collected_from<K, V>(pairs: Seq<(K, V)>, key: K)
    requires
        collected(pairs).contains_key(key),
    ensures
        exists|i: int| 0 <= i < pairs.len() && (#[trigger] pairs[i]).1 == collected(pairs)[key],
    decreases pairs.len(),
{
    if pairs.len() > 0 {
        let front = pairs.drop_last();
        if key == pairs.last().0 {
            assert(pairs[pairs.len() - 1].1 == collected(pairs)[key]);
        } else {
            lemma_collected_from(front, key);
            let i = choose|i: int|
                0 <= i < front.len() && (#[trigger] front[i]).1 == collected(front)[key];
            assert(pairs[i].1 == collected(pairs)[key]);
        }
    }
}

/// A decoded handle captures the connection that it came from, and so do
/// those in a decoded list, pair or dictionary.
pub proof fn handles_capture_their_connection<K: HashKey>(
    client: ClientView,
    bytes: Seq<u8>,
    handle: Expression,
    list: Vec<Expression>,
    pair: (Expression, Expression),
    map: HashMap<K, Expression>,
)
    ensures
        Expression::krpc_decodes(client, bytes, handle) ==> handle@.client == client,
        Vec::<Expression>::krpc_decodes(client, bytes, list) ==> forall|i: int|
            0 <= i < list@.len() ==> (#[trigger] list@[i])@.client == client,
        <(Expression, Expression)>::krpc_decodes(client, bytes, pair) ==> pair.0@.client == client
            && pair.1@.client == client,
        HashMap::<K, Expression>::krpc_decodes(client, bytes, map) ==> forall|key: K| #[trigger]
            map@.contains_key(key) ==> map@[key]@.client == client,
{
    if Vec::<Expression>::krpc_decodes(client, bytes, list) {
        assert forall|i: int| 0 <= i < list@.len() implies (#[trigger] list@[i])@.client
            == client by {
            if let Ok(message) = read_message::<List>(bytes) {
                assert(Expression::krpc_decodes(client, message.items[i], list@[i]));
            }
        }
    }
    if HashMap::<K, Expression>::krpc_decodes(client, bytes, map) {
        K::is_key();
        if let Ok(dict) = read_message::<Dictionary>(bytes) {
            let pairs = choose|pairs: Seq<(K, Expression)>| #[trigger]
                entries_decode(client, dict.entries, pairs) && (obeys_key_model::<K>() ==> map@
                    == collected(pairs));
            assert forall|key: K| #[trigger] map@.contains_key(key) implies map@[key]@.client
                == client by {
                lemma_collected_from(pairs, key);
                let i = choose|i: int|
                    0 <= i < pairs.len() && (#[trigger] pairs[i]).1 == collected(pairs)[key];
                assert(Expression::krpc_decodes(client, dict.entries[i].value, pairs[i].1));
            }
        }
    }
}

}
