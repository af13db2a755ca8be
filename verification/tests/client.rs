//! Connections, frames and calls.
use stayputnik::client::{
    accept_response, add_stream_call, added_stream_id, call_bytes, call_result, frame_message,
    invoke_result, Client, FramePrefix, RpcActor,
};
use stayputnik::codec::{arg, call};
use stayputnik::krpc::schema::{
    ConnectionRequest, ConnectionResponse, Error as ServerError, Event, ProcedureCall,
    ProcedureResult, Request, Response, ConnectionStatus, Stream,
};
use stayputnik::message::{decode_message, encode_message, Message};
use stayputnik::{Error, Malformed};

fn answer(status_code: i32, message: &str, client_identifier: &[u8]) -> Vec<u8> {
    encode_message(&ConnectionResponse {
        status_code,
        message: message.to_string(),
        client_identifier: client_identifier.to_vec(),
    })
}

fn server_error(name: &str) -> ServerError {
    ServerError {
        service: "KRPC".to_string(),
        name: name.to_string(),
        description: "it failed".to_string(),
        stack_trace: "at line one".to_string(),
    }
}

/// Feeds a frame to a prefix: the length that comes out, and where the message
/// starts.
fn prefix_of(frame: &[u8]) -> (usize, usize) {
    let mut prefix = FramePrefix::new();
    for (i, byte) in frame.iter().enumerate() {
        if let Some(size) = prefix.push(*byte).unwrap() {
            return (size, i + 1);
        }
    }
    panic!("the prefix does not end");
}

#[test]
fn messages_go_behind_their_length() {
    let stream = Stream { id: 300 };
    assert_eq!(frame_message(&stream), vec![3, 0x08, 0xac, 0x02]);
    assert_eq!(frame_message(&Stream { id: 0 }), vec![0]);
}

#[test]
fn frames_are_received_as_they_were_sent() {
    for n in [0usize, 1, 127, 128, 300, 20_000] {
        let message = ConnectionResponse {
            status_code: 0,
            message: "x".repeat(n),
            client_identifier: vec![],
        };
        let mut frame = frame_message(&message);
        frame.push(0xee);
        let (size, start) = prefix_of(&frame);
        assert_eq!(start + size + 1, frame.len());
        let back: ConnectionResponse = decode_message(&frame[start..start + size]).unwrap();
        assert_eq!(back, message);
    }
}

#[test]
fn prefixes_go_on_while_the_top_bit_is_set() {
    let mut prefix = FramePrefix::new();
    assert_eq!(prefix.push(0xac).unwrap(), None);
    assert_eq!(prefix.push(0x02).unwrap(), Some(300));
    // Twelve bytes are more than a varint has.
    let mut prefix = FramePrefix::new();
    for _ in 0..11 {
        assert_eq!(prefix.push(0x80).unwrap(), None);
    }
    assert!(matches!(prefix.push(0), Err(Error::Decode(Malformed::Wire(_)))));
}

#[test]
fn connecting_opens_two_connections() {
    let mut connecting = Client::connect("hello", "10.0.0.1", 50000);
    assert_eq!(connecting.port(), 50000);
    assert_eq!(
        connecting.request(),
        ConnectionRequest {
            type_code: 0,
            client_name: "hello".to_string(),
            client_identifier: vec![],
        }
    );
    assert!(connecting.answer(&answer(0, "", &[7, 8])).unwrap().is_none());

    assert_eq!(connecting.port(), 50001);
    assert_eq!(
        connecting.request(),
        ConnectionRequest {
            type_code: 1,
            client_name: String::new(),
            client_identifier: vec![7, 8],
        }
    );
    // What the stream connection is told is not looked at.
    let client = connecting.answer(&answer(0, "", &[9])).unwrap().unwrap();
    assert_eq!(client.client_identifier(), &[7, 8]);
    assert_eq!(client.into_shared().address(), "10.0.0.1");
}

#[test]
fn requests_are_written_by_the_schema() {
    let connecting = Client::connect("ab", "x", 1);
    assert_eq!(encode_message(&connecting.request()), vec![0x12, 2, b'a', b'b']);
    let request = ConnectionRequest {
        type_code: 1,
        client_name: String::new(),
        client_identifier: vec![5],
    };
    assert_eq!(encode_message(&request), vec![0x08, 1, 0x1a, 1, 5]);
}

#[test]
fn failed_connections_tell_which() {
    let mut connecting = Client::connect("n", "host", 40);
    let refused = || std::io::Error::from(std::io::ErrorKind::ConnectionRefused);
    match connecting.refused(refused()) {
        Error::Connect { address, port, source } => {
            assert_eq!(address, "host");
            assert_eq!(port, 40);
            assert_eq!(source.kind(), std::io::ErrorKind::ConnectionRefused);
        }
        other => panic!("unexpected error: {other:?}"),
    }
    connecting.answer(&answer(0, "", &[1])).unwrap();
    assert!(matches!(connecting.refused(refused()), Error::Connect { port: 41, .. }));
}

#[test]
fn rejected_connections_tell_why() {
    for (code, status) in [
        (1, ConnectionStatus::MalformedMessage),
        (2, ConnectionStatus::Timeout),
        (3, ConnectionStatus::WrongType),
    ] {
        let mut connecting = Client::connect("n", "host", 40);
        match connecting.answer(&answer(code, "go away", &[])) {
            Err(Error::ConnectionRejected { status: got, message }) => {
                assert_eq!(got, status);
                assert_eq!(message, "go away");
            }
            other => panic!("unexpected outcome: {other:?}"),
        }
        // The RPC connection is still the one to open.
        assert_eq!(connecting.port(), 40);
    }
    // A status that nobody knows counts as accepted.
    assert_eq!(accept_response(&answer(9, "", &[4])).unwrap().client_identifier, vec![4]);
    assert_eq!(accept_response(&answer(-1, "", &[])).unwrap().status_code, -1);
    assert!(matches!(
        accept_response(&[0x12]),
        Err(Error::Decode(Malformed::Wire(_)))
    ));
}

#[test]
fn calls_are_sent_as_requests() {
    let made = call("S", "P", vec![arg(0, &5u32)]);
    assert_eq!(
        call_bytes(made.clone()),
        vec![13, 0x0a, 11, 0x0a, 1, b'S', 0x12, 1, b'P', 0x1a, 3, 0x12, 1, 5]
    );
    let bytes = call_bytes(made.clone());
    let request: Request = decode_message(&bytes[1..]).unwrap();
    assert_eq!(request.calls, vec![made]);
}

fn response(error: Option<ServerError>, results: Vec<ProcedureResult>) -> Vec<u8> {
    encode_message(&Response { error, results })
}

#[test]
fn values_come_out_of_responses() {
    let result = |value: &[u8]| ProcedureResult { error: None, value: value.to_vec() };
    assert_eq!(call_result(&response(None, vec![result(&[1, 2])])).unwrap(), vec![1, 2]);
    // Results behind the first are not looked at.
    let two = response(None, vec![result(&[1]), result(&[2])]);
    assert_eq!(call_result(&two).unwrap(), vec![1]);
    assert_eq!(call_result(&[0x12, 0]).unwrap(), Vec::<u8>::new());
}

#[test]
fn errors_come_out_of_responses() {
    let result = || ProcedureResult { error: None, value: vec![1] };
    match call_result(&response(Some(server_error("BadCall")), vec![result()])) {
        Err(Error::Rpc { service, name, description }) => {
            assert_eq!(service, "KRPC");
            assert_eq!(name, "BadCall");
            assert_eq!(description, "it failed");
        }
        other => panic!("unexpected outcome: {other:?}"),
    }
    let failed = ProcedureResult { error: Some(server_error("Oops")), value: vec![1] };
    match call_result(&response(None, vec![failed])) {
        Err(Error::Procedure { service, name, description }) => {
            assert_eq!(service, "KRPC");
            assert_eq!(name, "Oops");
            assert_eq!(description, "it failed");
        }
        other => panic!("unexpected outcome: {other:?}"),
    }
    assert!(matches!(call_result(&[]), Err(Error::EmptyResponse)));
    assert!(matches!(call_result(&[0x0a, 5]), Err(Error::Decode(Malformed::Wire(_)))));
}

#[test]
fn split_messages_are_merged() {
    // The error of the response in two pieces: the name, then the description.
    let bytes = vec![0x0a, 3, 0x12, 1, b'N', 0x0a, 3, 0x1a, 1, b'D'];
    match call_result(&bytes) {
        Err(Error::Rpc { service, name, description }) => {
            assert_eq!((service.as_str(), name.as_str(), description.as_str()), ("", "N", "D"));
        }
        other => panic!("unexpected outcome: {other:?}"),
    }
}

/// Enqueues calls of the procedures `names`, each answered through its index.
fn actor(names: &[&str]) -> RpcActor<usize> {
    let mut actor = RpcActor::new();
    for (i, name) in names.iter().enumerate() {
        assert_eq!(actor.enqueue(call("S", name, vec![]), i), None);
    }
    actor
}

#[test]
fn only_unknown_states_close_the_connection() {
    let broken = || Error::Io(std::io::Error::from(std::io::ErrorKind::BrokenPipe));
    let refused = || call_result(&response(Some(server_error("A")), vec![]));
    let failed = || {
        let result = ProcedureResult { error: Some(server_error("B")), value: vec![] };
        call_result(&response(None, vec![result]))
    };
    let outcomes = vec![
        (Ok(vec![3]), true),
        (refused(), true),
        (failed(), true),
        (Err(Error::EmptyResponse), true),
        (call_result(&[0xff]), false),
        (Err(broken()), false),
    ];
    for (outcome, open) in outcomes {
        let mut actor = actor(&["P"]);
        assert!(actor.start_call().is_some());
        assert_eq!(actor.finish_call(outcome).len(), 1);
        assert_eq!(actor.is_open(), open);
    }
}

#[test]
fn calls_are_sent_one_at_a_time_in_order() {
    let mut actor = actor(&["P", "Q"]);
    assert_eq!(actor.start_call().unwrap(), call_bytes(call("S", "P", vec![])));
    // One is under way.
    assert!(actor.start_call().is_none());
    assert_eq!(actor.enqueue(call("S", "R", vec![]), 2), None);
    let answers = actor.finish_call(Ok(vec![1]));
    assert!(matches!(answers.as_slice(), [(0, Ok(value))] if value == &vec![1]));

    assert_eq!(actor.start_call().unwrap(), call_bytes(call("S", "Q", vec![])));
    let answers = actor.finish_call(Err(Error::EmptyResponse));
    assert!(matches!(answers.as_slice(), [(1, Err(Error::EmptyResponse))]));

    assert_eq!(actor.start_call().unwrap(), call_bytes(call("S", "R", vec![])));
    let answers = actor.finish_call(Ok(vec![]));
    assert!(matches!(answers.as_slice(), [(2, Ok(_))]));
    assert!(actor.start_call().is_none());
    assert!(actor.is_open());
}

#[test]
fn waiting_and_later_calls_are_disconnected() {
    let mut actor = actor(&["P", "Q", "R"]);
    assert!(actor.start_call().is_some());
    let answers = actor.finish_call(call_result(&[0xff]));
    assert!(matches!(
        answers.as_slice(),
        [
            (0, Err(Error::Decode(_))),
            (1, Err(Error::Disconnected)),
            (2, Err(Error::Disconnected))
        ]
    ));
    assert!(!actor.is_open());
    assert!(actor.start_call().is_none());
    assert_eq!(actor.enqueue(call("S", "T", vec![]), 3), Some(3));
    assert!(actor.start_call().is_none());
}

#[test]
fn calls_without_an_outcome_are_disconnected() {
    assert!(matches!(invoke_result(None), Err(Error::Disconnected)));
    assert_eq!(invoke_result(Some(Ok(vec![1]))).unwrap(), vec![1]);
    assert!(matches!(
        invoke_result(Some(Err(Error::EmptyResponse))),
        Err(Error::EmptyResponse)
    ));
}

#[test]
fn streams_are_added_started() {
    let streamed = call("SpaceCenter", "get_UT", vec![]);
    let made = add_stream_call(&streamed);
    assert_eq!(made.service, "KRPC");
    assert_eq!(made.procedure, "AddStream");
    assert_eq!(made.arguments.len(), 2);
    let back: ProcedureCall = decode_message(&made.arguments[0].value).unwrap();
    assert_eq!(back, streamed);
    assert_eq!((made.arguments[1].position, made.arguments[1].value.clone()), (1, vec![1]));

    assert_eq!(added_stream_id(&[0x08, 42]).unwrap(), 42);
    assert_eq!(added_stream_id(&[]).unwrap(), 0);
    assert!(matches!(added_stream_id(&[0x08]), Err(Error::Decode(Malformed::Wire(_)))));
    assert!(matches!(added_stream_id(&[0x0a, 0]), Err(Error::Decode(Malformed::WireType))));
}

#[test]
fn new_messages_are_empty() {
    assert_eq!(encode_message(&Response::new()), Vec::<u8>::new());
    assert_eq!(decode_message::<Response>(&[]).unwrap(), Response::new());
}

#[test]
fn events_hold_their_stream() {
    let event: Event = decode_message(&[0x0a, 2, 0x08, 6]).unwrap();
    assert_eq!(event, Event { stream: Some(Stream { id: 6 }) });
    assert_eq!(encode_message(&event), vec![0x0a, 2, 0x08, 6]);
    assert_eq!(encode_message(&Event { stream: Some(Stream { id: 0 }) }), vec![0x0a, 0]);
    assert_eq!(decode_message::<Event>(&[]).unwrap(), Event { stream: None });
}
