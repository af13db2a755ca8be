//! Streams: procedures that the server executes over and over, pushing each
//! result.
use std::collections::HashMap;
use std::marker::PhantomData;

use vstd::prelude::*;

use crate::client::ClientRef;
use crate::codec::{arg, call, Decode, Float};
use crate::error::{Error, Result};
use crate::krpc::schema;
use crate::krpc::schema::{ProcedureCall, ProcedureResult, StreamUpdate};
use crate::message::{decode_message, Message};
use crate::round_trip::RoundTrip;

verus! {

use crate::client::ClientView;
use crate::error::{DecodeFault, Fault};
use crate::krpc::schema::{
    ArgumentView, ErrorView, ProcedureCallView, ProcedureResultView, StreamResultView,
    StreamUpdateView,
};
use crate::message::{
    message_bytes, message_round_trip, present_or_empty, read_message, views,
};
use crate::wire::{
    from_little_endian, lemma_widths, little_endian, little_endian_round_trip, read_varint, varint,
};

// --- Values ---

/// Latest raw value for a stream: the encoded value, or the per-update error
/// reported by the server.
pub type StreamValue = std::result::Result<Vec<u8>, schema::Error>;

/// [`StreamValue`] as a value.
pub type StreamValueView = std::result::Result<Seq<u8>, ErrorView>;

/// The view of a raw value.
pub open spec fn value_view(value: StreamValue) -> StreamValueView {
    match value {
        Ok(bytes) => Ok(bytes@),
        Err(e) => Err(e@),
    }
}

/// The error that a stream delivers for an error of the streamed procedure.
pub open spec fn procedure_fault(e: ErrorView) -> Fault {
    Fault::Procedure { service: e.service, name: e.name, description: e.description }
}

/// Decodes a value that a stream delivered. An error of the streamed procedure
/// is [`Error::Procedure`].
pub fn decode_value<T: Decode>(client: &ClientRef, value: &StreamValue) -> (out: Result<T>)
    ensures
        delivers(client@, Some(value_view(*value)), out),
{
    match value {
        Ok(bytes) => T::decode_krpc(client, bytes),
        Err(e) => Err(
            Error::Procedure {
                service: e.service.clone(),
                name: e.name.clone(),
                description: e.description.clone(),
            },
        ),
    }
}

// --- Registry ---

/// A stream that handles are subscribed to: where its values go, and how many
/// handles there are.
///
/// The server deduplicates identical `AddStream` calls and returns the same
/// stream id, so several handles can share one entry. The server stream is
/// only removed when the last handle goes away.
#[derive(Debug)]
pub struct Entry<C> {
    pub tx: C,
    pub refs: usize,
}

/// Routes the results in a [`StreamUpdate`] to the channel of each live
/// stream.
#[derive(Debug)]
pub struct StreamRegistry<C> {
    entries: HashMap<u64, Entry<C>>,
}

impl<C> View for StreamRegistry<C> {
    type V = Map<u64, Entry<C>>;

    closed spec fn view(&self) -> Map<u64, Entry<C>> {
        self.entries@
    }
}

/// What every registry keeps: a stream without handles has no entry.
pub open spec fn all_in_use<C>(entries: Map<u64, Entry<C>>) -> bool {
    forall|id: u64| #[trigger] entries.contains_key(id) ==> entries[id].refs >= 1
}

/// The entries after one more subscription to stream `id`, where `tx` becomes
/// the channel on first use.
pub open spec fn registered<C>(entries: Map<u64, Entry<C>>, id: u64, tx: C) -> Map<u64, Entry<C>> {
    if entries.contains_key(id) {
        entries.insert(
            id,
            Entry { tx: entries[id].tx, refs: (entries[id].refs + 1) as usize },
        )
    } else {
        entries.insert(id, Entry { tx, refs: 1 })
    }
}

/// Whether one subscription to stream `id` is the last.
pub open spec fn is_last<C>(entries: Map<u64, Entry<C>>, id: u64) -> bool {
    entries.contains_key(id) && entries[id].refs <= 1
}

/// The entries after one subscription to stream `id` was dropped.
pub open spec fn released<C>(entries: Map<u64, Entry<C>>, id: u64) -> Map<u64, Entry<C>> {
    if !entries.contains_key(id) {
        entries
    } else if entries[id].refs > 1 {
        entries.insert(
            id,
            Entry { tx: entries[id].tx, refs: (entries[id].refs - 1) as usize },
        )
    } else {
        entries.remove(id)
    }
}

/// The channel of stream `id`, if it is live.
pub open spec fn channel_of<C>(entries: Map<u64, Entry<C>>, id: u64) -> Option<C> {
    if entries.contains_key(id) {
        Some(entries[id].tx)
    } else {
        None
    }
}

/// The number of subscriptions to stream `id`.
pub open spec fn handles_to<C>(entries: Map<u64, Entry<C>>, id: u64) -> nat {
    if entries.contains_key(id) {
        entries[id].refs as nat
    } else {
        0
    }
}

/// The value that a result carries. A result without an outcome carries an
/// empty value.
pub open spec fn carried(result: StreamResultView) -> StreamValueView {
    let outcome = present_or_empty::<ProcedureResult>(result.result);
    match outcome.error {
        Some(e) => Err(e),
        None => Ok(outcome.value),
    }
}

/// The values to deliver for a run of results, with the streams that they are
/// for: one for each result of a live stream, in order.
pub open spec fn deliveries<C>(
    entries: Map<u64, Entry<C>>,
    results: Seq<StreamResultView>,
) -> Seq<(u64, StreamValueView)>
    decreases results.len(),
{
    if results.len() == 0 {
        seq![]
    } else {
        let front = deliveries(entries, results.drop_last());
        if entries.contains_key(results.last().id) {
            front.push((results.last().id, carried(results.last())))
        } else {
            front
        }
    }
}

/// The views of values with the streams that they are for.
pub open spec fn delivery_views(values: Seq<(u64, StreamValue)>) -> Seq<(u64, StreamValueView)> {
    Seq::new(values.len(), |i: int| (values[i].0, value_view(values[i].1)))
}

/// The update in what was received on the stream connection.
pub open spec fn update_in(received: Option<&[u8]>) -> Option<StreamUpdateView> {
    match received {
        Some(message) => match read_message::<StreamUpdate>(message@) {
            Ok(update) => Some(update),
            Err(_) => None,
        },
        None => None,
    }
}

impl<C> StreamRegistry<C> {
    /// A registry without streams.
    pub fn new() -> (out: Self)
        ensures
            out@ == Map::<u64, Entry<C>>::empty(),
            all_in_use(out@),
    {
        StreamRegistry { entries: HashMap::new() }
    }

    /// Subscribes to stream `id`. On first use `tx` becomes its channel.
    pub fn register(&mut self, id: u64, tx: C)
        requires
            old(self)@.contains_key(id) ==> old(self)@[id].refs < usize::MAX,
        ensures
            final(self)@ == registered(old(self)@, id, tx),
            all_in_use(old(self)@) ==> all_in_use(final(self)@),
    {
        broadcast use vstd::std_specs::hash::group_hash_axioms;

        let ghost before = self.entries@;
        match self.entries.remove(&id) {
            Some(entry) => {
                self.entries.insert(id, Entry { tx: entry.tx, refs: entry.refs + 1 });
                assert(self.entries@ =~= registered(before, id, tx));
            },
            None => {
                self.entries.insert(id, Entry { tx, refs: 1 });
                assert(self.entries@ =~= registered(before, id, tx));
            },
        }
    }

    /// The channel of stream `id`, if it is live.
    pub fn channel(&self, id: u64) -> (out: Option<&C>)
        ensures
            channel_of(self@, id) == match out {
                Some(tx) => Some(*tx),
                None => None,
            },
    {
        broadcast use vstd::std_specs::hash::group_hash_axioms;

        match self.entries.get(&id) {
            Some(entry) => Some(&entry.tx),
            None => None,
        }
    }

    /// The number of subscriptions to stream `id`.
    pub fn subscriptions(&self, id: u64) -> (n: usize)
        ensures
            n == handles_to(self@, id),
    {
        broadcast use vstd::std_specs::hash::group_hash_axioms;

        match self.entries.get(&id) {
            Some(entry) => entry.refs,
            None => 0,
        }
    }

    /// Drops one subscription to stream `id`. Returns true if it was the last
    /// one, in which case the caller should remove the server stream.
    pub fn release(&mut self, id: u64) -> (last: bool)
        ensures
            last == is_last(old(self)@, id),
            final(self)@ == released(old(self)@, id),
            all_in_use(old(self)@) ==> all_in_use(final(self)@),
    {
        broadcast use vstd::std_specs::hash::group_hash_axioms;

        let ghost before = self.entries@;
        match self.entries.remove(&id) {
            Some(entry) => if entry.refs > 1 {
                self.entries.insert(id, Entry { tx: entry.tx, refs: entry.refs - 1 });
                assert(self.entries@ =~= released(before, id));
                false
            } else {
                true
            },
            None => {
                assert(self.entries@ =~= before);
                false
            },
        }
    }

    /// The values to deliver for an update, with the streams that they are
    /// for.
    pub fn dispatch(&self, update: StreamUpdate) -> (out: Vec<(u64, StreamValue)>)
        ensures
            delivery_views(out@) == deliveries(self@, update@.results),
    {
        broadcast use vstd::std_specs::hash::group_hash_axioms;

        let ghost all = update@.results;
        let mut out: Vec<(u64, StreamValue)> = Vec::new();
        assert(all.take(0) =~= seq![]);
        assert(delivery_views(out@) =~= seq![]);
        for result in it: update.results
            invariant
                all == views(it.seq()),
                delivery_views(out@) == deliveries(self@, all.take(it.index() as int)),
        {
            let ghost i = it.index() as int;
            let ghost before = delivery_views(out@);
            proof {
                assert(result@ == all[i]);
                assert(all.take(i + 1).drop_last() =~= all.take(i));
                assert(all.take(i + 1).last() == all[i]);
            }
            let id = result.id;
            if self.entries.contains_key(&id) {
                let outcome = match result.result {
                    Some(outcome) => outcome,
                    None => ProcedureResult::new(),
                };
                let value: StreamValue = match outcome.error {
                    Some(e) => Err(e),
                    None => Ok(outcome.value),
                };
                let ghost viewed = (id, value_view(value));
                out.push((id, value));
                assert(delivery_views(out@) =~= before.push(viewed));
            }
        }
        assert(all.take(all.len() as int) =~= all);
        out
    }

    /// Takes what was received on the stream connection: a message, or `None`
    /// where receiving failed. The values to deliver come out. Where there is
    /// no message, or one that is no [`StreamUpdate`], every channel is closed
    /// and reading ends.
    pub fn read_update(&mut self, received: Option<&[u8]>) -> (out: Option<
        Vec<(u64, StreamValue)>,
    >)
        ensures
            match update_in(received) {
                Some(update) => final(self)@ == old(self)@ && (out matches Some(values)
                    && delivery_views(values@) == deliveries(old(self)@, update.results)),
                None => final(self)@ == Map::<u64, Entry<C>>::empty() && out is None,
            },
            all_in_use(old(self)@) ==> all_in_use(final(self)@),
    {
        if let Some(message) = received {
            if let Ok(update) = decode_message::<StreamUpdate>(message) {
                return Some(self.dispatch(update));
            }
        }
        self.close();
        None
    }

    /// Closes every channel; consumers observe [`Error::Disconnected`].
    pub fn close(&mut self)
        ensures
            final(self)@ == Map::<u64, Entry<C>>::empty(),
            all_in_use(final(self)@),
    {
        self.entries.clear();
    }
}

// --- What a registry keeps ---

/// A subscription that is dropped again leaves no trace, and is the last one
/// exactly where there was none before.
pub proof fn register_then_release<C>(entries: Map<u64, Entry<C>>, id: u64, tx: C)
    requires
        all_in_use(entries),
        entries.contains_key(id) ==> entries[id].refs < usize::MAX,
    ensures
        released(registered(entries, id, tx), id) == entries,
        is_last(registered(entries, id, tx), id) == !entries.contains_key(id),
{
    assert(released(registered(entries, id, tx), id) =~= entries);
}

/// Subscriptions to one stream leave the others alone.
pub proof fn streams_are_independent<C>(entries: Map<u64, Entry<C>>, id: u64, tx: C, other: u64)
    requires
        other != id,
    ensures
        registered(entries, id, tx).contains_key(other) == entries.contains_key(other),
        released(entries, id).contains_key(other) == entries.contains_key(other),
        entries.contains_key(other) ==> registered(entries, id, tx)[other] == entries[other]
            && released(entries, id)[other] == entries[other],
{
}

/// The entries after `n` subscriptions to stream `id`.
pub open spec fn registered_times<C>(
    entries: Map<u64, Entry<C>>,
    id: u64,
    tx: C,
    n: nat,
) -> Map<u64, Entry<C>>
    decreases n,
{
    if n == 0 {
        entries
    } else {
        registered(registered_times(entries, id, tx, (n - 1) as nat), id, tx)
    }
}

/// The entries after `n` subscriptions to stream `id` were dropped.
pub open spec fn released_times<C>(entries: Map<u64, Entry<C>>, id: u64, n: nat) -> Map<
    u64,
    Entry<C>,
>
    decreases n,
{
    if n == 0 {
        entries
    } else {
        released(released_times(entries, id, (n - 1) as nat), id)
    }
}

proof fn lemma_registered_times<C>(entries: Map<u64, Entry<C>>, id: u64, tx: C, n: nat)
    requires
        !entries.contains_key(id),
        1 <= n <= usize::MAX,
    ensures
        registered_times(entries, id, tx, n) == entries.insert(id, Entry { tx, refs: n as usize }),
    decreases n,
{
    reveal_with_fuel(registered_times, 2);
    if n > 1 {
        lemma_registered_times(entries, id, tx, (n - 1) as nat);
    }
    assert(registered_times(entries, id, tx, n) =~= entries.insert(
        id,
        Entry { tx, refs: n as usize },
    ));
}

proof fn lemma_released_times<C>(entries: Map<u64, Entry<C>>, id: u64, tx: C, n: nat, k: nat)
    requires
        !entries.contains_key(id),
        k < n <= usize::MAX,
    ensures
        released_times(entries.insert(id, Entry { tx, refs: n as usize }), id, k)
            == entries.insert(id, Entry { tx, refs: (n - k) as usize }),
    decreases k,
{
    if k > 0 {
        lemma_released_times(entries, id, tx, n, (k - 1) as nat);
        assert(released_times(entries.insert(id, Entry { tx, refs: n as usize }), id, k)
            =~= entries.insert(id, Entry { tx, refs: (n - k) as usize }));
    }
}

/// A stream that `n` handles subscribed to is given up by the `n`-th release
/// and by none before it, and then nothing is left of it.
pub proof fn last_release_gives_up<C>(
    entries: Map<u64, Entry<C>>,
    id: u64,
    tx: C,
    n: nat,
    k: nat,
)
    requires
        !entries.contains_key(id),
        1 <= n <= usize::MAX,
        1 <= k <= n,
    ensures
        is_last(
            released_times(registered_times(entries, id, tx, n), id, (k - 1) as nat),
            id,
        ) <==> k == n,
        released_times(registered_times(entries, id, tx, n), id, n) == entries,
{
    lemma_registered_times(entries, id, tx, n);
    lemma_released_times(entries, id, tx, n, (k - 1) as nat);
    lemma_released_times(entries, id, tx, n, (n - 1) as nat);
    assert(released_times(registered_times(entries, id, tx, n), id, n) =~= entries);
}

/// Values are delivered to live streams only, and to none once the registry
/// was closed.
pub proof fn delivered_to_live_streams_only<C>(
    entries: Map<u64, Entry<C>>,
    results: Seq<StreamResultView>,
)
    ensures
        forall|i: int|
            0 <= i < deliveries(entries, results).len() ==> entries.contains_key(
                (#[trigger] deliveries(entries, results)[i]).0,
            ),
        deliveries(Map::<u64, Entry<C>>::empty(), results).len() == 0,
    decreases results.len(),
{
    if results.len() > 0 {
        let front = deliveries(entries, results.drop_last());
        delivered_to_live_streams_only(entries, results.drop_last());
        let all = deliveries(entries, results);
        assert forall|i: int| 0 <= i < all.len() implies entries.contains_key(
            (#[trigger] all[i]).0,
        ) by {
            if i < front.len() {
                assert(all[i] == front[i]);
            }
        }
    }
}

/// Where the stream of every result is live, every result is delivered, in
/// order.
pub proof fn all_live_results_are_delivered<C>(
    entries: Map<u64, Entry<C>>,
    results: Seq<StreamResultView>,
)
    requires
        forall|i: int| 0 <= i < results.len() ==> entries.contains_key((#[trigger] results[i]).id),
    ensures
        deliveries(entries, results) == Seq::new(
            results.len(),
            |i: int| (results[i].id, carried(results[i])),
        ),
    decreases results.len(),
{
    if results.len() > 0 {
        let front = results.drop_last();
        assert forall|i: int| 0 <= i < front.len() implies entries.contains_key(
            (#[trigger] front[i]).id,
        ) by {
            assert(front[i] == results[i]);
        }
        all_live_results_are_delivered(entries, front);
        assert(entries.contains_key(results[results.len() - 1].id));
    }
    assert(deliveries(entries, results) =~= Seq::new(
        results.len(),
        |i: int| (results[i].id, carried(results[i])),
    ));
}

/// Results are delivered one by one, in order: what comes of two runs is what
/// comes of the first and then what comes of the second.
pub proof fn results_are_delivered_in_order<C>(
    entries: Map<u64, Entry<C>>,
    first: Seq<StreamResultView>,
    second: Seq<StreamResultView>,
)
    ensures
        deliveries(entries, first + second) == deliveries(entries, first) + deliveries(
            entries,
            second,
        ),
    decreases second.len(),
{
    let all = first + second;
    if second.len() == 0 {
        assert(all =~= first);
        assert(deliveries(entries, first) + Seq::<(u64, StreamValueView)>::empty() =~= deliveries(
            entries,
            first,
        ));
    } else {
        assert(all.drop_last() =~= first + second.drop_last());
        results_are_delivered_in_order(entries, first, second.drop_last());
        assert(deliveries(entries, all) =~= deliveries(entries, first) + deliveries(
            entries,
            second,
        ));
    }
}

/// A result of a live stream is delivered once, to that stream: as the error
/// of its outcome where it has one, whatever its value, and otherwise as the
/// value of its outcome. A result of another stream is not delivered.
pub proof fn outcomes_are_delivered<C>(
    entries: Map<u64, Entry<C>>,
    id: u64,
    outcome: ProcedureResultView,
)
    ensures
        ({
            let results = seq![StreamResultView { id, result: Some(outcome) }];
            let out = deliveries(entries, results);
            if !entries.contains_key(id) {
                out.len() == 0
            } else {
                &&& out.len() == 1
                &&& out[0].0 == id
                &&& outcome.error matches Some(e) ==> out[0].1 == Err::<Seq<u8>, ErrorView>(e)
                &&& outcome.error is None ==> out[0].1 == Ok::<Seq<u8>, ErrorView>(outcome.value)
            }
        }),
{
    let results = seq![StreamResultView { id, result: Some(outcome) }];
    assert(results.drop_last() =~= seq![]);
    reveal_with_fuel(deliveries, 2);
}

/// A result without an outcome is delivered as one with no error and an empty
/// value.
pub proof fn missing_outcomes_are_empty_values<C>(entries: Map<u64, Entry<C>>, id: u64)
    ensures
        deliveries(entries, seq![StreamResultView { id, result: None }]) == if entries.contains_key(
            id,
        ) {
            seq![(id, Ok::<Seq<u8>, ErrorView>(Seq::<u8>::empty()))]
        } else {
            seq![]
        },
{
    let results = seq![StreamResultView { id, result: None }];
    assert(results.drop_last() =~= seq![]);
    reveal_with_fuel(deliveries, 2);
    assert(deliveries(entries, results) =~= if entries.contains_key(id) {
        seq![(id, Ok::<Seq<u8>, ErrorView>(Seq::<u8>::empty()))]
    } else {
        seq![]
    });
}

/// An update that the server sends is read as it was sent; reading ends exactly
/// where nothing was received or what was received is no update.
pub proof fn updates_arrive(received: &[u8], update: StreamUpdateView)
    ensures
        update_in(None) is None,
        update_in(Some(received)) is Some <==> read_message::<StreamUpdate>(received@) is Ok,
        received@ == message_bytes::<StreamUpdate>(update) && received@.len() <= u64::MAX
            ==> update_in(Some(received)) == Some(update),
{
    if received@ == message_bytes::<StreamUpdate>(update) && received@.len() <= u64::MAX {
        message_round_trip::<StreamUpdate>(update);
    }
}

/// Each subscription counts one and each release takes one off, down to none.
/// A stream has a channel exactly while it has handles: that of the first
/// subscription, until the last release.
pub proof fn handles_are_counted<C>(entries: Map<u64, Entry<C>>, id: u64, tx: C)
    requires
        all_in_use(entries),
        handles_to(entries, id) < usize::MAX,
    ensures
        handles_to(registered(entries, id, tx), id) == handles_to(entries, id) + 1,
        handles_to(released(entries, id), id) == if handles_to(entries, id) == 0 {
            0
        } else {
            handles_to(entries, id) - 1
        },
        is_last(entries, id) <==> handles_to(entries, id) == 1,
        channel_of(entries, id) is Some <==> handles_to(entries, id) > 0,
        channel_of(registered(entries, id, tx), id) == if handles_to(entries, id) == 0 {
            Some(tx)
        } else {
            channel_of(entries, id)
        },
        handles_to(entries, id) > 1 ==> channel_of(released(entries, id), id) == channel_of(
            entries,
            id,
        ),
        channel_of(Map::<u64, Entry<C>>::empty(), id) is None,
{
}

/// Releasing a stream that nobody subscribed to changes nothing and is not the
/// last release.
pub proof fn unknown_streams_are_not_released<C>(entries: Map<u64, Entry<C>>, id: u64)
    requires
        !entries.contains_key(id),
    ensures
        released(entries, id) == entries,
        !is_last(entries, id),
{
}

/// The first subscriber's channel is the stream's channel for all of them: it
/// stays through every further subscription and every release but the last.
pub proof fn first_channel_stays<C>(entries: Map<u64, Entry<C>>, id: u64, tx: C)
    requires
        all_in_use(entries),
        entries.contains_key(id) ==> entries[id].refs < usize::MAX,
    ensures
        ({
            let more = registered(entries, id, tx);
            &&& more.contains_key(id)
            &&& !entries.contains_key(id) ==> more[id].tx == tx && more[id].refs == 1
            &&& entries.contains_key(id) ==> more[id].tx == entries[id].tx && more[id].refs
                == entries[id].refs + 1
        }),
        entries.contains_key(id) && !is_last(entries, id) ==> released(entries, id).contains_key(id)
            && released(entries, id)[id].tx == entries[id].tx && released(entries, id)[id].refs + 1
            == entries[id].refs,
        is_last(entries, id) ==> !released(entries, id).contains_key(id),
{
}

// --- Handles ---

/// A handle to a server-side kRPC stream: the server repeatedly executes a
/// procedure and pushes the result, replacing polling with push updates.
///
/// Dropping the handle removes the server stream once no other handle refers
/// to it.
#[derive(Debug)]
pub struct Stream<T> {
    id: u64,
    client: ClientRef,
    removed: bool,
    marker: PhantomData<T>,
}

/// [`Stream`] as a value.
#[verifier::ext_equal]
pub struct StreamView {
    pub id: u64,
    pub client: ClientView,
    /// Whether the handle's subscription was dropped.
    pub removed: bool,
}

impl<T> View for Stream<T> {
    type V = StreamView;

    closed spec fn view(&self) -> StreamView {
        StreamView { id: self.id, client: self.client@, removed: self.removed }
    }
}

/// What came of waiting for a stream's channel.
#[derive(Debug)]
pub enum Polled {
    /// The channel's content changed; before the first update there is none.
    Update(Option<StreamValue>),
    /// The channel was closed.
    Ended,
    /// Nothing yet.
    Pending,
}

/// What an asynchronous iteration over a stream does next.
#[derive(Debug)]
pub enum Polling<T> {
    /// Yields an update.
    Yield(Result<T>),
    /// Asks the channel again.
    Again,
    /// Ends.
    End,
    /// Waits.
    Pending,
}

/// The call that sets the update rate of stream `id`.
pub open spec fn set_stream_rate(id: u64, hz: Float) -> ProcedureCallView {
    ProcedureCallView {
        service: "KRPC"@,
        procedure: "SetStreamRate"@,
        arguments: seq![
            ArgumentView { position: 0, value: varint(id as nat) },
            ArgumentView { position: 1, value: little_endian(hz.bits as nat, 4) },
        ],
        service_id: 0,
        procedure_id: 0,
    }
}

/// The call that removes stream `id` from the server.
pub open spec fn remove_stream(id: u64) -> ProcedureCallView {
    ProcedureCallView {
        service: "KRPC"@,
        procedure: "RemoveStream"@,
        arguments: seq![ArgumentView { position: 0, value: varint(id as nat) }],
        service_id: 0,
        procedure_id: 0,
    }
}

/// Whether a value, or an error, is what a stream delivers for the raw value
/// `observed`; `None` stands for a channel that was closed.
pub open spec fn delivers<T: Decode>(
    client: ClientView,
    observed: Option<StreamValueView>,
    out: Result<T>,
) -> bool {
    match observed {
        Some(Ok(bytes)) => match T::krpc_fault(bytes) {
            None => out matches Ok(value) && T::krpc_decodes(client, bytes, value),
            Some(fault) => out matches Err(e) && e@ == Fault::Decode(fault),
        },
        Some(Err(error)) => out matches Err(e) && e@ == procedure_fault(error),
        None => out matches Err(e) && e@ == Fault::Disconnected,
    }
}

/// Whether an iteration does `out` next, after `polled` came of asking the
/// channel.
pub open spec fn polls<T: Decode>(client: ClientView, polled: Polled, out: Polling<T>) -> bool {
    match polled {
        Polled::Update(Some(value)) => out matches Polling::Yield(item) && delivers(
            client,
            Some(value_view(value)),
            item,
        ),
        Polled::Update(None) => out is Again,
        Polled::Ended => out is End,
        Polled::Pending => out is Pending,
    }
}

/// An iteration ends exactly where the channel was closed and waits exactly
/// where there is nothing yet. It yields every update, values and errors alike,
/// as what reading the stream at that moment gives, and nothing else.
pub proof fn iterations_yield_every_update<T: Decode>(
    client: ClientView,
    polled: Polled,
    out: Polling<T>,
)
    requires
        polls(client, polled, out),
    ensures
        out is End <==> polled is Ended,
        out is Pending <==> polled is Pending,
        out is Yield <==> polled matches Polled::Update(Some(_)),
        polled matches Polled::Update(Some(value)) ==> delivers(
            client,
            Some(value_view(value)),
            out->Yield_0,
        ),
{
}

impl StreamView {
    /// The entries once the handle's subscription is dropped.
    pub open spec fn dropped<C>(self, entries: Map<u64, Entry<C>>) -> Map<u64, Entry<C>> {
        if self.removed {
            entries
        } else {
            released(entries, self.id)
        }
    }

    /// The call that goes out as the handle's subscription is dropped.
    pub open spec fn farewell<C>(self, entries: Map<u64, Entry<C>>) -> Option<ProcedureCallView> {
        if !self.removed && is_last(entries, self.id) {
            Some(remove_stream(self.id))
        } else {
            None
        }
    }
}

/// A handle's subscription is dropped once, however often that is asked for.
/// The stream is removed from the server exactly as the last handle goes: with
/// two handles to a stream that nobody else subscribed to, by the second and
/// not by the first.
pub proof fn last_handle_removes_the_stream<C>(
    entries: Map<u64, Entry<C>>,
    first: StreamView,
    second: StreamView,
    tx: C,
)
    requires
        first.id == second.id,
        !first.removed && !second.removed,
        !entries.contains_key(first.id),
    ensures
        ({
            let gone = StreamView { removed: true, ..first };
            let both = registered(registered(entries, first.id, tx), first.id, tx);
            let one = first.dropped(both);
            &&& gone.dropped(both) == both && gone.farewell(both) is None
            &&& first.farewell(both) is None
            &&& one.contains_key(first.id)
            &&& second.farewell(one) == Some(remove_stream(first.id))
            &&& second.dropped(one) == entries
        }),
{
    let both = registered(registered(entries, first.id, tx), first.id, tx);
    assert(second.dropped(first.dropped(both)) =~= entries);
}

/// The calls about a stream go to the KRPC service, their arguments at their
/// positions, the stream's id first: the rate is set to what was asked for, in
/// the four bytes of its bits, and the stream that is removed is that one.
pub proof fn streams_are_called_by_their_id(id: u64, hz: Float)
    ensures
        set_stream_rate(id, hz).service == "KRPC"@,
        set_stream_rate(id, hz).procedure == "SetStreamRate"@,
        set_stream_rate(id, hz).service_id == 0 && set_stream_rate(id, hz).procedure_id == 0,
        set_stream_rate(id, hz).arguments.len() == 2,
        forall|i: int|
            0 <= i < 2 ==> (#[trigger] set_stream_rate(id, hz).arguments[i]).position == i,
        read_varint(set_stream_rate(id, hz).arguments[0].value) == Some((id, Seq::<u8>::empty())),
        set_stream_rate(id, hz).arguments[1].value.len() == 4,
        from_little_endian(set_stream_rate(id, hz).arguments[1].value) == hz.bits,
        remove_stream(id).service == "KRPC"@,
        remove_stream(id).procedure == "RemoveStream"@,
        remove_stream(id).service_id == 0 && remove_stream(id).procedure_id == 0,
        remove_stream(id).arguments.len() == 1,
        remove_stream(id).arguments[0].position == 0,
        read_varint(remove_stream(id).arguments[0].value) == Some((id, Seq::<u8>::empty())),
{
    crate::round_trip::lemma_number(id);
    lemma_widths();
    little_endian_round_trip(hz.bits as nat, 4);
}

/// What a stream delivers: the error of the streamed procedure, with its
/// service, name and description; the value, where the bytes encode one; and
/// that the connection is gone, where the channel was closed.
pub proof fn deliveries_are_reported<T: RoundTrip>(
    client: ClientView,
    error: ErrorView,
    value: T,
    bytes: Seq<u8>,
    out: Result<T>,
)
    requires
        value.krpc_encodes(bytes),
        bytes.len() <= u64::MAX,
    ensures
        delivers(client, Some(Err::<Seq<u8>, ErrorView>(error)), out) ==> (out matches Err(e)
            && e@ == (Fault::Procedure {
            service: error.service,
            name: error.name,
            description: error.description,
        })),
        delivers(client, Some(Ok::<Seq<u8>, ErrorView>(bytes)), out) ==> (out matches Ok(got)
            && value.same(got)),
        delivers(client, None, out) ==> (out matches Err(e) && e@ == Fault::Disconnected),
{
    T::round_trip(client, value, bytes);
}

/// Bytes that encode no value are delivered as a decoding failure.
pub proof fn undecodable_values_are_reported<T: Decode>(
    client: ClientView,
    bytes: Seq<u8>,
    fault: DecodeFault,
    out: Result<T>,
)
    requires
        T::krpc_fault(bytes) == Some(fault),
        delivers(client, Some(Ok::<Seq<u8>, ErrorView>(bytes)), out),
    ensures
        out matches Err(e) && e@ == Fault::Decode(fault),
{
}

impl<T> Stream<T> {
    /// The handle to a stream that was subscribed to.
    pub fn new(id: u64, client: ClientRef) -> (out: Self)
        ensures
            out@ == (StreamView { id, client: client@, removed: false }),
    {
        Stream { id, client, removed: false, marker: PhantomData }
    }

    /// The id the server assigned to this stream.
    pub fn id(&self) -> (id: u64)
        ensures
            id == self@.id,
    {
        self.id
    }

    /// The call that sets the update rate in hertz. A rate of zero updates
    /// every game tick.
    pub fn set_rate(&self, hz: Float) -> (out: ProcedureCall)
        ensures
            out@ == set_stream_rate(self@.id, hz),
    {
        let arguments = vec![arg(0, &self.id), arg(1, &hz)];
        assert(views(arguments@) =~= set_stream_rate(self@.id, hz).arguments);
        call("KRPC", "SetStreamRate", arguments)
    }

    /// Drops the handle's subscription. Where it was the last one, the call
    /// comes out that removes the stream from the server.
    ///
    /// This also happens on drop; use this to observe errors.
    pub fn remove<C>(&mut self, registry: &mut StreamRegistry<C>) -> (out: Option<ProcedureCall>)
        requires
            !old(self)@.removed,
        ensures
            final(self)@ == (StreamView { removed: true, ..old(self)@ }),
            final(registry)@ == old(self)@.dropped(old(registry)@),
            all_in_use(old(registry)@) ==> all_in_use(final(registry)@),
            old(self)@.farewell(old(registry)@) == match out {
                Some(call) => Some(call@),
                None => None,
            },
    {
        self.removed = true;
        if registry.release(self.id) {
            let arguments = vec![arg(0, &self.id)];
            assert(views(arguments@) =~= remove_stream(self@.id).arguments);
            Some(call("KRPC", "RemoveStream", arguments))
        } else {
            None
        }
    }

    /// What dropping the handle does: as [`Stream::remove`], unless that came
    /// before.
    pub fn on_drop<C>(&mut self, registry: &mut StreamRegistry<C>) -> (out: Option<ProcedureCall>)
        ensures
            final(self)@ == (StreamView { removed: true, ..old(self)@ }),
            final(registry)@ == old(self)@.dropped(old(registry)@),
            old(self)@.farewell(old(registry)@) == match out {
                Some(call) => Some(call@),
                None => None,
            },
            all_in_use(old(registry)@) ==> all_in_use(final(registry)@),
    {
        if self.removed {
            None
        } else {
            self.remove(registry)
        }
    }
}

impl ClientRef {
    /// Subscribes to a stream the server already created. On first use `tx`
    /// becomes its channel.
    pub fn adopt_stream<T, C>(&self, registry: &mut StreamRegistry<C>, id: u64, tx: C) -> (out:
        Stream<T>)
        requires
            old(registry)@.contains_key(id) ==> old(registry)@[id].refs < usize::MAX,
        ensures
            final(registry)@ == registered(old(registry)@, id, tx),
            all_in_use(old(registry)@) ==> all_in_use(final(registry)@),
            out@ == (StreamView { id, client: self@, removed: false }),
    {
        registry.register(id, tx);
        Stream::new(id, self.clone())
    }
}

impl<T: Decode> Stream<T> {
    fn receive(&self, observed: Option<&StreamValue>) -> (out: Result<T>)
        ensures
            delivers(
                self@.client,
                match observed {
                    Some(value) => Some(value_view(*value)),
                    None => None,
                },
                out,
            ),
    {
        match observed {
            Some(value) => decode_value(&self.client, value),
            None => Err(Error::Disconnected),
        }
    }

    /// The latest value: `latest` is what the channel holds once an update
    /// has arrived, or `None` where it was closed before that.
    pub fn get(&self, latest: Option<&StreamValue>) -> (out: Result<T>)
        ensures
            delivers(
                self@.client,
                match latest {
                    Some(value) => Some(value_view(*value)),
                    None => None,
                },
                out,
            ),
    {
        self.receive(latest)
    }

    /// The value of the next update: `update` is what the channel holds once
    /// it changed, or `None` where it was closed before that.
    pub fn next(&self, update: Option<&StreamValue>) -> (out: Result<T>)
        ensures
            delivers(
                self@.client,
                match update {
                    Some(value) => Some(value_view(*value)),
                    None => None,
                },
                out,
            ),
    {
        self.receive(update)
    }

    /// What an asynchronous iteration does with what came of asking the
    /// channel: it yields each update as a `Result` and ends when the channel
    /// is closed.
    pub fn poll_next(&self, polled: &Polled) -> (out: Polling<T>)
        ensures
            polls(self@.client, *polled, out),
    {
        match polled {
            Polled::Update(Some(value)) => Polling::Yield(decode_value(&self.client, value)),
            // The initial placeholder is never re-sent. Skip defensively.
            Polled::Update(None) => Polling::Again,
            Polled::Ended => Polling::End,
            Polled::Pending => Polling::Pending,
        }
    }
}

}
