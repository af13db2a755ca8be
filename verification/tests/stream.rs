//! Streams and their registry.
use stayputnik::codec::{Double, Encode, Float};
use stayputnik::krpc::schema::{
    Error as ServerError, ProcedureResult, StreamResult, StreamUpdate,
};
use stayputnik::message::encode_message;
use stayputnik::stream::{
    decode_value, Polled, Polling, Stream, StreamRegistry, StreamValue,
};
use stayputnik::{ClientRef, Error, Malformed};

fn client() -> ClientRef {
    ClientRef::new("localhost".to_string(), vec![1])
}

fn result(id: u64, value: &[u8]) -> StreamResult {
    StreamResult { id, result: Some(ProcedureResult { error: None, value: value.to_vec() }) }
}

fn failure(description: &str) -> ServerError {
    ServerError {
        service: "SpaceCenter".to_string(),
        name: "InvalidOperationException".to_string(),
        description: description.to_string(),
        stack_trace: String::new(),
    }
}

#[test]
fn the_last_release_gives_a_stream_up() {
    let mut registry = StreamRegistry::new();
    registry.register(5, "first");
    registry.register(5, "second");
    registry.register(5, "third");
    assert_eq!(registry.subscriptions(5), 3);
    // The channel is the one of the first use.
    assert_eq!(registry.channel(5), Some(&"first"));
    assert!(!registry.release(5));
    assert!(!registry.release(5));
    assert!(registry.release(5));
    assert_eq!(registry.channel(5), None);
    assert_eq!(registry.subscriptions(5), 0);
    assert!(!registry.release(5));
}

#[test]
fn streams_do_not_touch_each_other() {
    let mut registry = StreamRegistry::new();
    registry.register(1, 'a');
    registry.register(2, 'b');
    assert!(registry.release(1));
    assert_eq!(registry.channel(2), Some(&'b'));
    assert!(!registry.release(3));
    assert!(registry.release(2));
}

#[test]
fn a_stream_that_was_given_up_starts_anew() {
    let mut registry = StreamRegistry::new();
    registry.register(1, 'a');
    assert!(registry.release(1));
    registry.register(1, 'b');
    assert_eq!(registry.channel(1), Some(&'b'));
    assert_eq!(registry.subscriptions(1), 1);
}

#[test]
fn updates_go_to_live_streams_in_order() {
    let mut registry = StreamRegistry::new();
    registry.register(1, ());
    registry.register(3, ());
    let update = StreamUpdate {
        results: vec![
            result(3, &[30]),
            result(2, &[20]),
            result(1, &[10]),
            StreamResult {
                id: 3,
                result: Some(ProcedureResult { error: Some(failure("gone")), value: vec![9] }),
            },
            StreamResult { id: 1, result: None },
        ],
    };
    assert_eq!(
        registry.dispatch(update),
        vec![
            (3, Ok(vec![30])),
            (1, Ok(vec![10])),
            (3, Err(failure("gone"))),
            (1, Ok(vec![])),
        ]
    );
}

#[test]
fn reading_ends_with_the_connection() {
    let mut registry = StreamRegistry::new();
    registry.register(1, ());
    let update = encode_message(&StreamUpdate { results: vec![result(1, &[4])] });
    assert_eq!(registry.read_update(Some(&update)), Some(vec![(1, Ok(vec![4]))]));
    assert_eq!(registry.read_update(Some(&[])), Some(vec![]));
    assert_eq!(registry.subscriptions(1), 1);
    assert_eq!(registry.read_update(None), None);
    assert_eq!(registry.channel(1), None);

    registry.register(2, ());
    assert_eq!(registry.read_update(Some(&[0x0a])), None);
    assert_eq!(registry.channel(2), None);
}

#[test]
fn closing_ends_every_stream() {
    let mut registry = StreamRegistry::new();
    registry.register(1, ());
    registry.register(2, ());
    registry.close();
    assert_eq!(registry.channel(1), None);
    assert_eq!(registry.dispatch(StreamUpdate { results: vec![result(2, &[1])] }), vec![]);
}

#[test]
fn values_are_decoded_for_the_stream() {
    let value: StreamValue = Ok(Double { bits: 77 }.encode_krpc());
    assert_eq!(decode_value::<Double>(&client(), &value).unwrap().bits, 77);
    let short: StreamValue = Ok(vec![1]);
    assert!(matches!(
        decode_value::<Double>(&client(), &short),
        Err(Error::Decode(Malformed::FloatWidth { expected: 8 }))
    ));
    let failed: StreamValue = Err(failure("no vessel"));
    match decode_value::<Double>(&client(), &failed) {
        Err(Error::Procedure { service, name, description }) => {
            assert_eq!(service, "SpaceCenter");
            assert_eq!(name, "InvalidOperationException");
            assert_eq!(description, "no vessel");
        }
        other => panic!("unexpected outcome: {other:?}"),
    }
}

#[test]
fn handles_deliver_values_and_disconnections() {
    let stream: Stream<u32> = Stream::new(9, client());
    assert_eq!(stream.id(), 9);
    let value: StreamValue = Ok(vec![5]);
    assert_eq!(stream.get(Some(&value)).unwrap(), 5);
    assert_eq!(stream.next(Some(&value)).unwrap(), 5);
    assert!(matches!(stream.get(None), Err(Error::Disconnected)));
    assert!(matches!(stream.next(None), Err(Error::Disconnected)));
}

#[test]
fn iteration_follows_the_channel() {
    let stream: Stream<u32> = Stream::new(9, client());
    assert!(matches!(
        stream.poll_next(&Polled::Update(Some(Ok(vec![5])))),
        Polling::Yield(Ok(5))
    ));
    assert!(matches!(
        stream.poll_next(&Polled::Update(Some(Err(failure("x"))))),
        Polling::Yield(Err(Error::Procedure { .. }))
    ));
    assert!(matches!(stream.poll_next(&Polled::Update(None)), Polling::Again));
    assert!(matches!(stream.poll_next(&Polled::Ended), Polling::End));
    assert!(matches!(stream.poll_next(&Polled::Pending), Polling::Pending));
}

#[test]
fn rates_are_set_by_a_call() {
    let stream: Stream<u32> = Stream::new(300, client());
    let call = stream.set_rate(Float { bits: 10.0f32.to_bits() });
    assert_eq!((call.service.as_str(), call.procedure.as_str()), ("KRPC", "SetStreamRate"));
    assert_eq!(call.arguments[0].value, vec![0xac, 0x02]);
    assert_eq!(call.arguments[1].position, 1);
    assert_eq!(call.arguments[1].value, 10.0f32.to_le_bytes().to_vec());
}

#[test]
fn the_last_handle_removes_the_stream() {
    let mut registry = StreamRegistry::new();
    let mut a: Stream<u32> = client().adopt_stream(&mut registry, 4, ());
    let mut b: Stream<u32> = client().adopt_stream(&mut registry, 4, ());
    assert_eq!(registry.subscriptions(4), 2);
    assert!(a.remove(&mut registry).is_none());
    // The handle is dropped after it was removed: nothing more happens.
    assert!(a.on_drop(&mut registry).is_none());
    assert_eq!(registry.subscriptions(4), 1);
    let call = b.on_drop(&mut registry).unwrap();
    assert_eq!((call.service.as_str(), call.procedure.as_str()), ("KRPC", "RemoveStream"));
    assert_eq!(call.arguments.len(), 1);
    assert_eq!(call.arguments[0].value, vec![4]);
    assert!(b.on_drop(&mut registry).is_none());
    assert_eq!(registry.channel(4), None);
}

#[test]
fn handles_of_a_closed_registry_remove_nothing() {
    let mut registry = StreamRegistry::new();
    let mut stream: Stream<u32> = client().adopt_stream(&mut registry, 4, ());
    registry.close();
    assert!(stream.remove(&mut registry).is_none());
}
