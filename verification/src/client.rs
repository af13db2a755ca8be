//! Connections to a kRPC server.
//!
//! A client holds two connections: one for calls, on the port that was asked
//! for, and one for streams, on the port after it. What goes over them, and
//! what the answers mean, is worked out here; opening, reading and writing is
//! left to the caller.
use std::collections::VecDeque;

use vstd::prelude::*;

use crate::codec::{arg, call};
use crate::error::{Error, Malformed, Result};
use crate::krpc::schema::{
    ConnectionRequest, ConnectionResponse, ConnectionType, ProcedureCall, Request, Response,
    ConnectionStatus, Stream,
};
use crate::message::{decode_message, encode_message, Layout, Message};
use crate::wire::{put_varint, take_varint};

verus! {

use crate::error::{DecodeFault, Fault};
use crate::krpc::schema::{
    ArgumentView, ConnectionRequestView, ConnectionResponseView, ErrorView, ProcedureCallView,
    ProcedureResultView, RequestView, ResponseView, StreamView,
};
use crate::message::{message_bytes, message_round_trip, read_message, views};
use crate::wire::{read_varint, varint, varint_round_trip};

// --- Handles ---

/// A handle to a connection, held by everything that was decoded from it.
#[derive(Debug)]
pub struct ClientRef {
    address: String,
    client_identifier: Vec<u8>,
}

/// [`ClientRef`] as a value: the address that was connected to and the
/// identifier that the server gave to the connection.
#[verifier::ext_equal]
pub struct ClientView {
    pub address: Seq<char>,
    pub client_identifier: Seq<u8>,
}

impl View for ClientRef {
    type V = ClientView;

    closed spec fn view(&self) -> ClientView {
        ClientView { address: self.address@, client_identifier: self.client_identifier@ }
    }
}

impl Clone for ClientRef {
    fn clone(&self) -> (out: Self)
        ensures
            out@ == self@,
    {
        ClientRef {
            address: self.address.clone(),
            client_identifier: self.client_identifier.clone(),
        }
    }
}

impl ClientRef {
    /// The handle to the connection with the given address and identifier.
    pub fn new(address: String, client_identifier: Vec<u8>) -> (out: Self)
        ensures
            out@ == (ClientView { address: address@, client_identifier: client_identifier@ }),
    {
        ClientRef { address, client_identifier }
    }

    /// The address that was connected to.
    pub fn address(&self) -> (address: &str)
        ensures
            address@ == self@.address,
    {
        self.address.as_str()
    }
}

/// A connection to a kRPC server.
#[derive(Debug)]
pub struct Client {
    inner: ClientRef,
}

impl View for Client {
    type V = ClientView;

    closed spec fn view(&self) -> ClientView {
        self.inner@
    }
}

impl Client {
    /// The identifier that the server gave to the connection.
    pub fn client_identifier(&self) -> (identifier: &[u8])
        ensures
            identifier@ == self@.client_identifier,
    {
        self.inner.client_identifier.as_slice()
    }

    /// The handle to share.
    pub fn into_shared(self) -> (client: ClientRef)
        ensures
            client@ == self@,
    {
        self.inner
    }
}

// --- Frames ---

/// A message as it goes over a connection: behind its length.
pub open spec fn framed(message: Seq<u8>) -> Seq<u8> {
    varint(message.len()) + message
}

/// The bytes to send for a message.
pub fn frame_message<M: Message>(message: &M) -> (bytes: Vec<u8>)
    ensures
        bytes@ == framed(message_bytes::<M>(message@)),
{
    let message_bytes = encode_message(message);
    let mut buf: Vec<u8> = Vec::new();
    put_varint(message_bytes.len() as u64, &mut buf);
    buf.extend_from_slice(&message_bytes);
    assert(buf@ =~= framed(message_bytes@));
    buf
}

/// What the bytes of a length prefix come to as the last of them is received:
/// nothing yet as long as its top bit is set, and then the length.
pub open spec fn prefix_outcome(bytes: Seq<u8>) -> std::result::Result<Option<usize>, Fault> {
    if bytes.last() >= 128 {
        Ok(None)
    } else {
        match read_varint(bytes) {
            Some((size, _)) => Ok(Some(size as usize)),
            None => Err(Fault::Decode(DecodeFault::Wire)),
        }
    }
}

/// The length prefix of a message, as far as it was received.
#[derive(Debug)]
pub struct FramePrefix {
    bytes: Vec<u8>,
}

impl View for FramePrefix {
    type V = Seq<u8>;

    closed spec fn view(&self) -> Seq<u8> {
        self.bytes@
    }
}

impl FramePrefix {
    /// Nothing received yet.
    pub fn new() -> (out: Self)
        ensures
            out@ == Seq::<u8>::empty(),
    {
        FramePrefix { bytes: Vec::new() }
    }

    /// Takes the next byte. The prefix goes on as long as the top bit of its
    /// bytes is set; with the last byte comes the length of the message.
    pub fn push(&mut self, byte: u8) -> (out: Result<Option<usize>>)
        ensures
            final(self)@ == old(self)@.push(byte),
            match out {
                Ok(size) => prefix_outcome(old(self)@.push(byte)) == Ok::<Option<usize>, Fault>(
                    size,
                ),
                Err(e) => prefix_outcome(old(self)@.push(byte)) == Err::<Option<usize>, Fault>(e@),
            },
    {
        self.bytes.push(byte);
        assert(byte & 0x80 == 0 <==> byte < 128) by (bit_vector);
        if byte & 0x80 != 0 {
            return Ok(None);
        }
        match take_varint(&self.bytes) {
            Ok((size, _)) => Ok(Some(size as usize)),
            Err(e) => Err(Error::Decode(Malformed::Wire(e))),
        }
    }
}

/// A message is received as it was sent: in the bytes of its frame the first
/// without the top bit ends the prefix, the prefix tells the length of the
/// message, and that many bytes behind it are the message.
pub proof fn frame_round_trip(message: Seq<u8>, tail: Seq<u8>)
    requires
        message.len() <= u64::MAX,
    ensures
        ({
            let bytes = framed(message) + tail;
            let n = varint(message.len()).len() as int;
            &&& forall|i: int| 0 <= i < n - 1 ==> #[trigger] bytes[i] >= 128
            &&& bytes[n - 1] < 128
            &&& read_varint(bytes.take(n)) matches Some((size, _)) && size == message.len()
            &&& bytes.subrange(n, n + message.len()) == message
            &&& bytes.skip(n + message.len()) == tail
        }),
{
    let prefix = varint(message.len());
    let bytes = framed(message) + tail;
    let n = prefix.len() as int;
    varint_round_trip(message.len() as u64, seq![]);
    assert(prefix + Seq::<u8>::empty() =~= prefix);
    assert(bytes.take(n) =~= prefix);
    assert(bytes.subrange(n, n + message.len()) =~= message);
    assert(bytes.skip(n + message.len()) =~= tail);
    lemma_prefix_bits(message.len());
    assert forall|i: int| 0 <= i < n - 1 implies #[trigger] bytes[i] >= 128 by {
        assert(bytes[i] == prefix[i]);
    }
    assert(bytes[n - 1] == prefix[n - 1]);
}

/// Of the prefix of a message each byte but the last asks for more, and the
/// last gives the length of the message, whatever it is.
pub proof fn prefix_gives_the_length(message: Seq<u8>, i: int)
    requires
        message.len() <= usize::MAX,
        1 <= i <= varint(message.len()).len(),
    ensures
        ({
            let received = framed(message).take(i);
            let n = framed(message).len() - message.len();
            &&& i < n ==> prefix_outcome(received) == Ok::<Option<usize>, Fault>(None)
            &&& i == n ==> prefix_outcome(received) == Ok::<Option<usize>, Fault>(
                Some(message.len() as usize),
            )
        }),
{
    let prefix = varint(message.len());
    let received = framed(message).take(i);
    lemma_prefix_bits(message.len());
    assert(received.last() == prefix[i - 1]);
    if i == prefix.len() {
        assert(received =~= prefix + Seq::<u8>::empty());
        varint_round_trip(message.len() as u64, seq![]);
    }
}

proof fn lemma_prefix_bits(n: nat)
    ensures
        varint(n).len() >= 1,
        forall|i: int| 0 <= i < varint(n).len() - 1 ==> #[trigger] varint(n)[i] >= 128,
        varint(n).last() < 128,
    decreases n,
{
    if n >= 128 {
        let rest = varint(n / 128);
        lemma_prefix_bits(n / 128);
        assert forall|i: int| 0 <= i < varint(n).len() - 1 implies #[trigger] varint(n)[i]
            >= 128 by {
            if i > 0 {
                assert(varint(n)[i] == rest[i - 1]);
            }
        }
    }
}

// --- Opening connections ---

/// What the opening of a connection comes to, by the server's answer.
pub open spec fn handshake_outcome(response: Seq<u8>) -> std::result::Result<
    ConnectionResponseView,
    Fault,
> {
    match read_message::<ConnectionResponse>(response) {
        Ok(answer) => if ConnectionStatus::numbered(answer.status_code)
            == ConnectionStatus::Accepted {
            Ok(answer)
        } else {
            Err(
                Fault::ConnectionRejected {
                    status: ConnectionStatus::numbered(answer.status_code),
                    message: answer.message,
                },
            )
        },
        Err(fault) => Err(Fault::Decode(fault)),
    }
}

/// Reads the server's answer to the opening of a connection. An answer with
/// another status than [`ConnectionStatus::Accepted`] is an error.
pub fn accept_response(response: &[u8]) -> (out: Result<ConnectionResponse>)
    ensures
        match out {
            Ok(answer) => handshake_outcome(response@) == Ok::<ConnectionResponseView, Fault>(
                answer@,
            ),
            Err(e) => handshake_outcome(response@) == Err::<ConnectionResponseView, Fault>(e@),
        },
{
    let answer = match decode_message::<ConnectionResponse>(response) {
        Ok(answer) => answer,
        Err(e) => return Err(Error::Decode(e)),
    };
    let status = answer.status();
    match status {
        ConnectionStatus::Accepted => Ok(answer),
        _ => Err(Error::ConnectionRejected { status, message: answer.message }),
    }
}

/// An answer is accepted exactly where its status is the accepted one,
/// whatever its message and its identifier, and is then what was received; the
/// other statuses are refusals, which tell the status and the message. A number
/// that no status has counts as accepted.
pub proof fn accepted_by_status_alone(response: Seq<u8>, answer: ConnectionResponseView)
    requires
        read_message::<ConnectionResponse>(response) == Ok::<ConnectionResponseView, DecodeFault>(
            answer,
        ),
    ensures
        handshake_outcome(response) is Ok <==> !(1 <= answer.status_code <= 3),
        !(1 <= answer.status_code <= 3) ==> handshake_outcome(response) == Ok::<
            ConnectionResponseView,
            Fault,
        >(answer),
        answer.status_code == 1 ==> handshake_outcome(response) == Err::<
            ConnectionResponseView,
            Fault,
        >(
            Fault::ConnectionRejected {
                status: ConnectionStatus::MalformedMessage,
                message: answer.message,
            },
        ),
        answer.status_code == 2 ==> handshake_outcome(response) == Err::<
            ConnectionResponseView,
            Fault,
        >(
            Fault::ConnectionRejected {
                status: ConnectionStatus::Timeout,
                message: answer.message,
            },
        ),
        answer.status_code == 3 ==> handshake_outcome(response) == Err::<
            ConnectionResponseView,
            Fault,
        >(
            Fault::ConnectionRejected {
                status: ConnectionStatus::WrongType,
                message: answer.message,
            },
        ),
{
}

/// What the server answers arrives: the bytes of an answer come to what its
/// status says, and bytes that are no answer to a decoding failure.
pub proof fn answers_arrive(message: Seq<char>, client_identifier: Seq<u8>, status_code: i32)
    ensures
        ({
            let answer = ConnectionResponseView { status_code, message, client_identifier };
            let response = message_bytes::<ConnectionResponse>(answer);
            response.len() <= u64::MAX ==> {
                &&& status_code == 0 ==> handshake_outcome(response) == Ok::<
                    ConnectionResponseView,
                    Fault,
                >(answer)
                &&& 1 <= status_code <= 3 ==> (handshake_outcome(response) matches Err(fault)
                    && fault is ConnectionRejected)
            }
        }),
        forall|response: Seq<u8>|
            read_message::<ConnectionResponse>(response) matches Err(fault)
                ==> #[trigger] handshake_outcome(response) == Err::<ConnectionResponseView, Fault>(
                Fault::Decode(fault),
            ),
{
    let answer = ConnectionResponseView { status_code, message, client_identifier };
    let response = message_bytes::<ConnectionResponse>(answer);
    if response.len() <= u64::MAX {
        message_round_trip::<ConnectionResponse>(answer);
        accepted_by_status_alone(response, answer);
    }
}

/// A client that is being connected. The RPC connection comes first; the
/// stream connection refers to the identifier that the server gave there.
#[derive(Debug)]
pub struct Connecting {
    name: String,
    address: String,
    rpc_port: u16,
    client_identifier: Option<Vec<u8>>,
}

/// [`Connecting`] as a value.
#[verifier::ext_equal]
pub struct ConnectingView {
    pub name: Seq<char>,
    pub address: Seq<char>,
    pub rpc_port: u16,
    /// The identifier that the server gave to the RPC connection.
    pub client_identifier: Option<Seq<u8>>,
}

impl ConnectingView {
    /// The port of the connection to open next.
    pub open spec fn port(self) -> int {
        if self.client_identifier is None {
            self.rpc_port as int
        } else {
            self.rpc_port + 1
        }
    }

    /// The request to open it with.
    pub open spec fn request(self) -> ConnectionRequestView {
        match self.client_identifier {
            None => ConnectionRequestView {
                type_code: ConnectionType::Rpc.number(),
                client_name: self.name,
                client_identifier: seq![],
            },
            Some(client_identifier) => ConnectionRequestView {
                type_code: ConnectionType::Stream.number(),
                client_name: seq![],
                client_identifier,
            },
        }
    }

    /// After the server's answer to the request.
    pub open spec fn answered(self, response: Seq<u8>) -> ConnectingView {
        match handshake_outcome(response) {
            Ok(answer) if self.client_identifier is None => ConnectingView {
                client_identifier: Some(answer.client_identifier),
                ..self
            },
            _ => self,
        }
    }

    /// What comes out as the server answers the request.
    pub open spec fn outcome(self, response: Seq<u8>) -> std::result::Result<
        Option<ClientView>,
        Fault,
    > {
        match handshake_outcome(response) {
            Ok(_) => Ok(
                match self.client_identifier {
                    None => None,
                    Some(client_identifier) => Some(
                        ClientView { address: self.address, client_identifier },
                    ),
                },
            ),
            Err(fault) => Err(fault),
        }
    }
}

/// Connecting takes two accepted answers. The first request names the client
/// and is for calls, on the port that was asked for; the second is for streams,
/// on the port after it, and refers to the identifier that the first answer
/// gave. The client then has that identifier, and the address that was asked
/// for.
pub proof fn two_answers_connect(
    start: ConnectingView,
    first: ConnectionResponseView,
    second: ConnectionResponseView,
)
    requires
        start.client_identifier is None,
        first.status_code == 0,
        second.status_code == 0,
        message_bytes::<ConnectionResponse>(first).len() <= u64::MAX,
        message_bytes::<ConnectionResponse>(second).len() <= u64::MAX,
    ensures
        ({
            let answer1 = message_bytes::<ConnectionResponse>(first);
            let answer2 = message_bytes::<ConnectionResponse>(second);
            let next = start.answered(answer1);
            &&& start.port() == start.rpc_port
            &&& start.request().type_code == 0
            &&& start.request().client_name == start.name
            &&& start.request().client_identifier.len() == 0
            &&& start.outcome(answer1) == Ok::<Option<ClientView>, Fault>(None)
            &&& next.port() == start.rpc_port + 1
            &&& next.request().type_code == 1
            &&& next.request().client_name.len() == 0
            &&& next.request().client_identifier == first.client_identifier
            &&& next.outcome(answer2) == Ok::<Option<ClientView>, Fault>(
                Some(
                    ClientView {
                        address: start.address,
                        client_identifier: first.client_identifier,
                    },
                ),
            )
            &&& next.answered(answer2) == next
        }),
{
    answers_arrive(first.message, first.client_identifier, 0);
    answers_arrive(second.message, second.client_identifier, 0);
    assert(first == ConnectionResponseView {
        status_code: 0,
        message: first.message,
        client_identifier: first.client_identifier,
    });
    assert(second == ConnectionResponseView {
        status_code: 0,
        message: second.message,
        client_identifier: second.client_identifier,
    });
}

/// An answer that is not accepted changes nothing, and its failure is what
/// comes out.
pub proof fn refusals_change_nothing(state: ConnectingView, response: Seq<u8>)
    requires
        handshake_outcome(response) is Err,
    ensures
        state.answered(response) == state,
        state.outcome(response) == Err::<Option<ClientView>, Fault>(
            handshake_outcome(response)->Err_0,
        ),
{
}

impl View for Connecting {
    type V = ConnectingView;

    closed spec fn view(&self) -> ConnectingView {
        ConnectingView {
            name: self.name@,
            address: self.address@,
            rpc_port: self.rpc_port,
            client_identifier: match self.client_identifier {
                Some(client_identifier) => Some(client_identifier@),
                None => None,
            },
        }
    }
}

impl Client {
    /// Starts to connect to a kRPC server.
    ///
    /// Both the RPC connection and the stream connection are established; the
    /// stream server is expected to listen on `rpc_port + 1`, the kRPC
    /// default. Connecting both up front means stream- and event-creating
    /// procedures work unconditionally: the server requires the stream
    /// connection to exist before they are called.
    pub fn connect(name: &str, address: &str, rpc_port: u16) -> (out: Connecting)
        requires
            rpc_port < u16::MAX,
        ensures
            out@ == (ConnectingView {
                name: name@,
                address: address@,
                rpc_port,
                client_identifier: None,
            }),
    {
        Connecting {
            name: name.to_string(),
            address: address.to_string(),
            rpc_port,
            client_identifier: None,
        }
    }
}

impl Connecting {
    /// There is a port after the one for calls.
    #[verifier::type_invariant]
    spec fn has_stream_port(self) -> bool {
        self.rpc_port < u16::MAX
    }

    /// The port of the connection to open next.
    pub fn port(&self) -> (port: u16)
        ensures
            port == self@.port(),
    {
        proof {
            use_type_invariant(self);
        }
        match self.client_identifier {
            None => self.rpc_port,
            Some(_) => self.rpc_port + 1,
        }
    }

    /// The request to open it with.
    pub fn request(&self) -> (request: ConnectionRequest)
        ensures
            request@ == self@.request(),
    {
        match &self.client_identifier {
            None => {
                let request = ConnectionRequest {
                    type_code: ConnectionType::Rpc.code(),
                    client_name: self.name.clone(),
                    client_identifier: Vec::new(),
                };
                assert(request@ =~= self@.request());
                request
            },
            Some(client_identifier) => {
                let request = ConnectionRequest {
                    type_code: ConnectionType::Stream.code(),
                    client_name: String::new(),
                    client_identifier: client_identifier.clone(),
                };
                assert(request@ =~= self@.request());
                request
            },
        }
    }

    /// The error for a connection that could not be opened.
    pub fn refused(&self, source: std::io::Error) -> (error: Error)
        ensures
            error@ == (Fault::Connect { address: self@.address, port: self@.port() as u16 }),
            error matches Error::Connect { address: _, port: _, source: cause } && cause == source,
    {
        Error::Connect { address: self.address.clone(), port: self.port(), source }
    }

    /// Takes the server's answer to the request. Once both connections were
    /// accepted, the client comes out.
    pub fn answer(&mut self, response: &[u8]) -> (out: Result<Option<Client>>)
        ensures
            final(self)@ == old(self)@.answered(response@),
            match out {
                Ok(Some(client)) => old(self)@.outcome(response@) == Ok::<
                    Option<ClientView>,
                    Fault,
                >(Some(client@)),
                Ok(None) => old(self)@.outcome(response@) == Ok::<Option<ClientView>, Fault>(None),
                Err(e) => old(self)@.outcome(response@) == Err::<Option<ClientView>, Fault>(e@),
            },
    {
        proof {
            use_type_invariant(&*self);
        }
        let answer = accept_response(response)?;
        match &self.client_identifier {
            None => {
                self.client_identifier = Some(answer.client_identifier);
                Ok(None)
            },
            Some(client_identifier) => Ok(
                Some(
                    Client {
                        inner: ClientRef {
                            address: self.address.clone(),
                            client_identifier: client_identifier.clone(),
                        },
                    },
                ),
            ),
        }
    }
}

// --- Calls ---

/// The request that makes one call.
pub open spec fn request_of(call: ProcedureCallView) -> RequestView {
    RequestView { calls: seq![call] }
}

/// The bytes to send for a call.
pub fn call_bytes(call: ProcedureCall) -> (bytes: Vec<u8>)
    ensures
        bytes@ == framed(message_bytes::<Request>(request_of(call@))),
{
    let ghost expected = request_of(call@);
    let request = Request { calls: vec![call] };
    assert(request@ =~= expected) by {
        assert(request@.calls =~= expected.calls);
    }
    frame_message(&request)
}

/// What a call comes to, by the server's response: an error of the request as
/// a whole, an error of the call, or the encoded value. Results behind the
/// first are not looked at.
pub open spec fn call_outcome(response: Seq<u8>) -> std::result::Result<Seq<u8>, Fault> {
    match read_message::<Response>(response) {
        Ok(response) => match response.error {
            Some(error) => Err(
                Fault::Rpc {
                    service: error.service,
                    name: error.name,
                    description: error.description,
                },
            ),
            None => if response.results.len() == 0 {
                Err(Fault::EmptyResponse)
            } else {
                match response.results[0].error {
                    Some(error) => Err(
                        Fault::Procedure {
                            service: error.service,
                            name: error.name,
                            description: error.description,
                        },
                    ),
                    None => Ok(response.results[0].value),
                }
            },
        },
        Err(fault) => Err(Fault::Decode(fault)),
    }
}

/// Reads the server's response to a call.
pub fn call_result(response: &[u8]) -> (out: Result<Vec<u8>>)
    ensures
        match out {
            Ok(value) => call_outcome(response@) == Ok::<Seq<u8>, Fault>(value@),
            Err(e) => call_outcome(response@) == Err::<Seq<u8>, Fault>(e@),
        },
{
    let response = match decode_message::<Response>(response) {
        Ok(response) => response,
        Err(e) => return Err(Error::Decode(e)),
    };
    if let Some(error) = response.error {
        return Err(
            Error::Rpc {
                service: error.service,
                name: error.name,
                description: error.description,
            },
        );
    }
    let mut results = response.results;
    if results.len() == 0 {
        return Err(Error::EmptyResponse);
    }
    let result = results.swap_remove(0);
    if let Some(error) = result.error {
        return Err(
            Error::Procedure {
                service: error.service,
                name: error.name,
                description: error.description,
            },
        );
    }
    Ok(result.value)
}

/// What a response says of a call is what the caller gets, whatever else the
/// response holds: an error of the request as a whole, or else the error of the
/// first result, or else its value.
pub proof fn responses_are_reported(response: Seq<u8>, read: ResponseView)
    requires
        read_message::<Response>(response) == Ok::<ResponseView, DecodeFault>(read),
    ensures
        read.error matches Some(e) ==> call_outcome(response) == Err::<Seq<u8>, Fault>(
            Fault::Rpc { service: e.service, name: e.name, description: e.description },
        ),
        read.error is None && read.results.len() == 0 ==> call_outcome(response) == Err::<
            Seq<u8>,
            Fault,
        >(Fault::EmptyResponse),
        read.error is None && read.results.len() > 0 ==> match read.results[0].error {
            Some(e) => call_outcome(response) == Err::<Seq<u8>, Fault>(
                Fault::Procedure { service: e.service, name: e.name, description: e.description },
            ),
            None => call_outcome(response) == Ok::<Seq<u8>, Fault>(read.results[0].value),
        },
{
}

/// A response that cannot be read is a decoding failure.
pub proof fn unreadable_responses_are_reported(response: Seq<u8>, fault: DecodeFault)
    requires
        read_message::<Response>(response) == Err::<ResponseView, DecodeFault>(fault),
    ensures
        call_outcome(response) == Err::<Seq<u8>, Fault>(Fault::Decode(fault)),
{
}

/// An error that the server reports for a call arrives, whatever value and
/// whatever further results stand beside it.
pub proof fn reported_error_arrives(
    error: ErrorView,
    value: Seq<u8>,
    further: Seq<ProcedureResultView>,
)
    requires
        message_bytes::<Response>(failed(error, value, further)).len() <= u64::MAX,
    ensures
        call_outcome(message_bytes::<Response>(failed(error, value, further))) == Err::<
            Seq<u8>,
            Fault,
        >(
            Fault::Procedure {
                service: error.service,
                name: error.name,
                description: error.description,
            },
        ),
{
    message_round_trip::<Response>(failed(error, value, further));
}

/// The response to a call that failed.
pub open spec fn failed(
    error: ErrorView,
    value: Seq<u8>,
    further: Seq<ProcedureResultView>,
) -> ResponseView {
    ResponseView {
        error: None,
        results: seq![ProcedureResultView { error: Some(error), value }] + further,
    }
}

/// The bytes that are sent for a call hold a request with that call and no
/// other.
pub proof fn one_call_goes_out(call: ProcedureCallView)
    requires
        message_bytes::<Request>(request_of(call)).len() <= u64::MAX,
    ensures
        read_message::<Request>(message_bytes::<Request>(request_of(call))) matches Ok(request)
            && request.calls.len() == 1 && request.calls[0] == call,
{
    message_round_trip::<Request>(request_of(call));
}

/// Whether a failure leaves the connection in an unknown state.
pub open spec fn fatal(fault: Fault) -> bool {
    fault is Io || fault is Decode
}

/// Whether a call came to a failure that leaves the connection in an unknown
/// state.
pub open spec fn broken(outcome: Result<Vec<u8>>) -> bool {
    outcome matches Err(e) && fatal(e@)
}

/// A call breaks the connection exactly where a read or write failed or what
/// was read was not understood; no value and no error of the server does.
pub proof fn broken_by_transport_alone(outcome: Result<Vec<u8>>)
    ensures
        broken(outcome) <==> (outcome matches Err(e) && (e is Io || e is Decode)),
{
}

/// What the server reports of a call leaves the connection in use; only a
/// response that cannot be understood does not.
pub proof fn server_errors_leave_it_open(response: Seq<u8>)
    ensures
        call_outcome(response) matches Err(fault) ==> (fatal(fault) <==> read_message::<Response>(
            response,
        ) is Err),
{
}

/// A value that the server returns is what the caller gets.
pub proof fn returned_value_arrives(value: Seq<u8>)
    requires
        message_bytes::<Response>(returned(value)).len() <= u64::MAX,
    ensures
        call_outcome(message_bytes::<Response>(returned(value))) == Ok::<Seq<u8>, Fault>(value),
{
    message_round_trip::<Response>(returned(value));
}

/// The response that returns a value.
pub open spec fn returned(value: Seq<u8>) -> ResponseView {
    ResponseView { error: None, results: seq![ProcedureResultView { error: None, value }] }
}

/// Owns the RPC connection. Calls are carried out one at a time, in the order
/// in which they came, until a failure leaves the connection in an unknown
/// state; the calls that wait then, and all later ones, fail with
/// [`Error::Disconnected`]. `R` is what a caller is answered through.
#[derive(Debug)]
pub struct RpcActor<R> {
    open: bool,
    waiting: VecDeque<(ProcedureCall, R)>,
    current: Option<R>,
}

/// [`RpcActor`] as a value: whether the connection is in use, the calls that
/// wait, and who waits for the one that is under way.
#[verifier::ext_equal]
pub struct RpcActorView<R> {
    pub open: bool,
    pub waiting: Seq<(ProcedureCallView, R)>,
    pub current: Option<R>,
}

impl<R> RpcActorView<R> {
    /// With one more call, unless none is carried out any more.
    pub open spec fn enqueued(self, call: ProcedureCallView, resp: R) -> Self {
        if self.open {
            RpcActorView { waiting: self.waiting.push((call, resp)), ..self }
        } else {
            self
        }
    }

    /// Whether a call is to be sent.
    pub open spec fn can_start(self) -> bool {
        self.open && self.current is None && self.waiting.len() > 0
    }

    /// With the call that waits longest under way.
    pub open spec fn started(self) -> Self {
        RpcActorView {
            waiting: self.waiting.skip(1),
            current: Some(self.waiting[0].1),
            ..self
        }
    }

    /// With the call that was under way come to `outcome`.
    pub open spec fn finished(self, outcome: Result<Vec<u8>>) -> Self {
        if broken(outcome) {
            RpcActorView { open: false, waiting: seq![], current: None }
        } else {
            RpcActorView { current: None, ..self }
        }
    }

    /// The answers that are given as the call that was under way comes to
    /// `outcome`.
    pub open spec fn answers(self, outcome: Result<Vec<u8>>) -> Seq<(R, Result<Vec<u8>>)> {
        let answer = (self.current->0, outcome);
        if broken(outcome) {
            seq![answer] + disconnected(self.waiting)
        } else {
            seq![answer]
        }
    }
}

/// The answers to calls that are not carried out.
pub open spec fn disconnected<R>(waiting: Seq<(ProcedureCallView, R)>) -> Seq<
    (R, Result<Vec<u8>>),
> {
    Seq::new(waiting.len(), |i: int| (waiting[i].1, Err(Error::Disconnected)))
}

impl<R> View for RpcActor<R> {
    type V = RpcActorView<R>;

    closed spec fn view(&self) -> RpcActorView<R> {
        RpcActorView {
            open: self.open,
            waiting: Seq::new(
                self.waiting@.len(),
                |i: int| (self.waiting@[i].0@, self.waiting@[i].1),
            ),
            current: self.current,
        }
    }
}

impl<R> RpcActor<R> {
    /// The actor of a connection that was just opened.
    pub fn new() -> (out: Self)
        ensures
            out@ == (RpcActorView::<R> { open: true, waiting: seq![], current: None }),
    {
        RpcActor { open: true, waiting: VecDeque::new(), current: None }
    }

    /// Whether calls are carried out.
    pub fn is_open(&self) -> (open: bool)
        ensures
            open == self@.open,
    {
        self.open
    }

    /// Takes a call that is to be carried out after those that wait. Where
    /// none is carried out any more, hands back whom to answer so.
    pub fn enqueue(&mut self, call: ProcedureCall, resp: R) -> (refused: Option<R>)
        ensures
            final(self)@ == old(self)@.enqueued(call@, resp),
            refused == if old(self)@.open {
                None
            } else {
                Some(resp)
            },
    {
        if self.open {
            let ghost view = call@;
            self.waiting.push_back((call, resp));
            assert(self@.waiting =~= old(self)@.waiting.push((view, resp)));
            None
        } else {
            Some(resp)
        }
    }

    /// The bytes to send for the call that waits longest, which is then under
    /// way. There are none where a call is under way or the connection is no
    /// longer in use.
    pub fn start_call(&mut self) -> (out: Option<Vec<u8>>)
        ensures
            match out {
                Some(bytes) => {
                    &&& old(self)@.can_start()
                    &&& bytes@ == framed(
                        message_bytes::<Request>(request_of(old(self)@.waiting[0].0)),
                    )
                    &&& final(self)@ == old(self)@.started()
                },
                None => !old(self)@.can_start() && final(self)@ == old(self)@,
            },
    {
        if !self.open || self.current.is_some() {
            return None;
        }
        let (call, resp) = self.waiting.pop_front()?;
        self.current = Some(resp);
        assert(self@.waiting =~= old(self)@.waiting.skip(1));
        Some(call_bytes(call))
    }

    /// Takes the outcome of the call that was under way: whom to answer, and
    /// what with.
    pub fn finish_call(&mut self, outcome: Result<Vec<u8>>) -> (answers: Vec<
        (R, Result<Vec<u8>>),
    >)
        requires
            old(self)@.current is Some,
        ensures
            answers@ == old(self)@.answers(outcome),
            final(self)@ == old(self)@.finished(outcome),
    {
        let ends = match &outcome {
            Err(Error::Io(_)) | Err(Error::Decode(_)) => true,
            _ => false,
        };
        let mut answers = Vec::new();
        if let Some(resp) = self.current.take() {
            answers.push((resp, outcome));
        }
        if ends {
            self.open = false;
            let ghost waiting = old(self)@.waiting;
            assert(self@.waiting =~= waiting);
            while self.waiting.len() > 0
                invariant
                    !self.open,
                    self.current is None,
                    self@.waiting.len() <= waiting.len(),
                    self@.waiting == waiting.skip(waiting.len() - self@.waiting.len()),
                    answers@ == seq![(old(self)@.current->0, outcome)] + disconnected(
                        waiting.take(waiting.len() - self@.waiting.len()),
                    ),
                decreases self.waiting@.len(),
            {
                let ghost m = waiting.len() - self@.waiting.len();
                let ghost before = self@.waiting;
                if let Some((_, resp)) = self.waiting.pop_front() {
                    answers.push((resp, Err(Error::Disconnected)));
                    proof {
                        assert(before[0] == waiting[m]);
                        assert(self@.waiting =~= before.skip(1));
                        assert(before.skip(1) =~= waiting.skip(m + 1));
                        assert(disconnected(waiting.take(m + 1)) =~= disconnected(
                            waiting.take(m),
                        ).push((resp, Err(Error::Disconnected))));
                    }
                }
            }
        }
        answers
    }
}

/// Calls wait in the order in which they came, behind those that waited
/// before: the first to come to an actor that is idle is the first to start.
/// To one whose connection is no longer in use none comes.
pub proof fn calls_wait_in_order<R>(
    s: RpcActorView<R>,
    a: ProcedureCallView,
    to_a: R,
    b: ProcedureCallView,
    to_b: R,
)
    ensures
        s.open ==> s.enqueued(a, to_a).enqueued(b, to_b).waiting == s.waiting + seq![
            (a, to_a),
            (b, to_b),
        ],
        s.open ==> s.enqueued(a, to_a).open && s.enqueued(a, to_a).current == s.current,
        s.open && s.current is None && s.waiting.len() == 0 ==> {
            let both = s.enqueued(a, to_a).enqueued(b, to_b);
            &&& both.can_start()
            &&& both.started().current == Some(to_a)
            &&& !both.started().can_start()
            &&& both.started().waiting == seq![(b, to_b)]
        },
        !s.open ==> s.enqueued(a, to_a) == s && !s.can_start(),
{
    let both = s.enqueued(a, to_a).enqueued(b, to_b);
    if s.open {
        assert(both.waiting =~= s.waiting + seq![(a, to_a), (b, to_b)]);
        if s.waiting.len() == 0 {
            assert(both.started().waiting =~= seq![(b, to_b)]);
        }
    }
}

/// What became of the calls that waited in `s`, after up to `k` of them came
/// to `outcomes`: the actor, the calls that were sent and the answers that
/// were given.
pub open spec fn served<R>(
    s: RpcActorView<R>,
    outcomes: Seq<Result<Vec<u8>>>,
    k: nat,
) -> (RpcActorView<R>, Seq<ProcedureCallView>, Seq<(R, Result<Vec<u8>>)>)
    decreases k,
{
    if k == 0 {
        (s, seq![], seq![])
    } else {
        let (s, sent, answered) = served(s, outcomes, (k - 1) as nat);
        if s.can_start() {
            let outcome = outcomes[k - 1];
            (
                s.started().finished(outcome),
                sent.push(s.waiting[0].0),
                answered + s.started().answers(outcome),
            )
        } else {
            (s, sent, answered)
        }
    }
}

/// Whether none of the first `i` outcomes left the connection in an unknown
/// state.
pub open spec fn unbroken(outcomes: Seq<Result<Vec<u8>>>, i: int) -> bool {
    forall|j: int| 0 <= j < i ==> !broken(#[trigger] outcomes[j])
}

proof fn lemma_served<R>(s: RpcActorView<R>, outcomes: Seq<Result<Vec<u8>>>, k: nat)
    requires
        s.open,
        s.current is None,
        k <= s.waiting.len() == outcomes.len(),
    ensures
        ({
            let (after, sent, answered) = served(s, outcomes, k);
            &&& sent.len() <= k
            &&& forall|i: int|
                0 <= i < sent.len() ==> #[trigger] sent[i] == s.waiting[i].0 && unbroken(
                    outcomes,
                    i,
                )
            &&& after.open == unbroken(outcomes, k as int)
            &&& after.open ==> sent.len() == k && after == (RpcActorView {
                waiting: s.waiting.skip(k as int),
                ..s
            }) && answered == Seq::new(k, |i: int| (s.waiting[i].1, outcomes[i]))
            &&& !after.open ==> !unbroken(outcomes, sent.len() as int) && answered == Seq::new(
                s.waiting.len(),
                |i: int|
                    (
                        s.waiting[i].1,
                        if i < sent.len() {
                            outcomes[i]
                        } else {
                            Err(Error::Disconnected)
                        },
                    ),
            )
        }),
    decreases k,
{
    if k == 0 {
        assert(s.waiting.skip(0) =~= s.waiting);
        assert(served(s, outcomes, 0).2 =~= Seq::new(0, |i: int| (s.waiting[i].1, outcomes[i])));
    } else {
        let n = (k - 1) as nat;
        lemma_served(s, outcomes, n);
        let (before, sent, answered) = served(s, outcomes, n);
        let (after, sent_after, answered_after) = served(s, outcomes, k);
        if before.open {
            assert(before.waiting[0] == s.waiting[n as int]);
            assert(before.waiting.skip(1) =~= s.waiting.skip(k as int));
            assert(unbroken(outcomes, k as int) == !broken(outcomes[n as int])) by {
                if !broken(outcomes[n as int]) {
                    assert forall|j: int| 0 <= j < k implies !broken(#[trigger] outcomes[j]) by {
                        assert(j < n || j == n);
                    }
                }
            }
            if broken(outcomes[n as int]) {
                let rest = disconnected(before.started().waiting);
                assert(answered_after =~= Seq::new(
                    s.waiting.len(),
                    |i: int|
                        (
                            s.waiting[i].1,
                            if i < sent_after.len() {
                                outcomes[i]
                            } else {
                                Err(Error::Disconnected)
                            },
                        ),
                ));
            } else {
                assert(answered_after =~= Seq::new(
                    k,
                    |i: int| (s.waiting[i].1, outcomes[i]),
                ));
            }
        } else {
            assert(!unbroken(outcomes, k as int));
        }
    }
}

/// Calls are carried out one at a time in the order in which they came, and
/// each caller gets an answer of its own. A call is sent exactly where none
/// before it left the connection in an unknown state, and is then answered
/// with its outcome; every other call is answered with
/// [`Error::Disconnected`].
pub proof fn calls_are_served_in_order<R>(s: RpcActorView<R>, outcomes: Seq<Result<Vec<u8>>>)
    requires
        s.open,
        s.current is None,
        outcomes.len() == s.waiting.len(),
    ensures
        ({
            let (after, sent, answered) = served(s, outcomes, outcomes.len());
            &&& after.open <==> unbroken(outcomes, outcomes.len() as int)
            &&& !after.can_start()
            &&& sent.len() <= s.waiting.len()
            &&& forall|i: int| 0 <= i < sent.len() ==> #[trigger] sent[i] == s.waiting[i].0
            &&& forall|i: int|
                0 <= i < s.waiting.len() ==> (i < sent.len() <==> #[trigger] unbroken(outcomes, i))
            &&& answered == Seq::new(
                s.waiting.len(),
                |i: int|
                    (
                        s.waiting[i].1,
                        if unbroken(outcomes, i) {
                            outcomes[i]
                        } else {
                            Err(Error::Disconnected)
                        },
                    ),
            )
        }),
{
    let n = outcomes.len();
    lemma_served(s, outcomes, n);
    let (after, sent, answered) = served(s, outcomes, n);
    assert forall|i: int| 0 <= i < n implies (i < sent.len() <==> #[trigger] unbroken(
        outcomes,
        i,
    )) by {
        if i < sent.len() {
            assert(sent[i] == s.waiting[i].0);
        } else if unbroken(outcomes, i) {
            assert(unbroken(outcomes, sent.len() as int));
        }
    }
    assert(answered =~= Seq::new(
        n,
        |i: int|
            (
                s.waiting[i].1,
                if unbroken(outcomes, i) {
                    outcomes[i]
                } else {
                    Err(Error::Disconnected)
                },
            ),
    ));
}

/// What a caller gets: the outcome of the call, or [`Error::Disconnected`]
/// where the connection's task was gone before there was one.
pub fn invoke_result(outcome: Option<Result<Vec<u8>>>) -> (out: Result<Vec<u8>>)
    ensures
        match outcome {
            Some(outcome) => out == outcome,
            None => out matches Err(e) && e@ == Fault::Disconnected,
        },
{
    match outcome {
        Some(outcome) => outcome,
        None => Err(Error::Disconnected),
    }
}

/// The call that creates a stream for `call` on the server and starts it.
pub open spec fn add_stream(call: ProcedureCallView) -> ProcedureCallView {
    ProcedureCallView {
        service: "KRPC"@,
        procedure: "AddStream"@,
        arguments: seq![
            ArgumentView { position: 0, value: message_bytes::<ProcedureCall>(call) },
            ArgumentView { position: 1, value: varint(1) },
        ],
        service_id: 0,
        procedure_id: 0,
    }
}

/// The call for a stream goes to `AddStream` of the KRPC service with the
/// streamed call at position 0 and true at position 1: the stream is started.
pub proof fn streams_are_asked_for(call: ProcedureCallView)
    requires
        message_bytes::<ProcedureCall>(call).len() <= u64::MAX,
    ensures
        add_stream(call).service == "KRPC"@,
        add_stream(call).procedure == "AddStream"@,
        add_stream(call).service_id == 0 && add_stream(call).procedure_id == 0,
        add_stream(call).arguments.len() == 2,
        forall|i: int|
            0 <= i < add_stream(call).arguments.len() ==> (
            #[trigger] add_stream(call).arguments[i]).position == i,
        read_message::<ProcedureCall>(add_stream(call).arguments[0].value) == Ok::<
            ProcedureCallView,
            DecodeFault,
        >(call),
        read_varint(add_stream(call).arguments[1].value) == Some((1u64, Seq::<u8>::empty())),
{
    message_round_trip::<ProcedureCall>(call);
    crate::round_trip::lemma_number(1);
}

/// The id of the stream that the server created, by the value of the call.
pub open spec fn stream_id_in(value: Seq<u8>) -> std::result::Result<u64, Fault> {
    match read_message::<Stream>(value) {
        Ok(stream) => Ok(stream.id),
        Err(fault) => Err(Fault::Decode(fault)),
    }
}

/// The id that the server gives a stream arrives, and a value that is no stream
/// is a decoding failure.
pub proof fn stream_id_arrives(id: u64)
    ensures
        stream_id_in(message_bytes::<Stream>(StreamView { id })) == Ok::<u64, Fault>(id),
        forall|value: Seq<u8>|
            read_message::<Stream>(value) matches Err(fault) ==> #[trigger] stream_id_in(value)
                == Err::<u64, Fault>(Fault::Decode(fault)),
{
    let stream = StreamView { id };
    assert(message_bytes::<Stream>(stream).len() <= u64::MAX) by {
        varint_round_trip(id, seq![]);
        crate::wire::key_round_trip(1, crate::wire::WireType::Varint, seq![]);
        crate::message::lemma_small_field(Stream::fields(stream));
    }
    message_round_trip::<Stream>(stream);
}

/// The call that creates a server-side stream for the given procedure.
pub fn add_stream_call(streamed: &ProcedureCall) -> (out: ProcedureCall)
    ensures
        out@ == add_stream(streamed@),
{
    let arguments = vec![arg(0, streamed), arg(1, &true)];
    assert(views(arguments@) =~= add_stream(streamed@).arguments);
    call("KRPC", "AddStream", arguments)
}

/// The id of the stream that the server created, from the value of the call.
pub fn added_stream_id(value: &[u8]) -> (out: Result<u64>)
    ensures
        match out {
            Ok(id) => stream_id_in(value@) == Ok::<u64, Fault>(id),
            Err(e) => stream_id_in(value@) == Err::<u64, Fault>(e@),
        },
{
    match decode_message::<Stream>(value) {
        Ok(stream) => Ok(stream.id),
        Err(e) => Err(Error::Decode(e)),
    }
}

}
