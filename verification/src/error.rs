//! What can go wrong with a client operation.
use vstd::prelude::*;

use crate::krpc::schema::ConnectionStatus;

verus! {

/// The error of a socket operation, carried through.
#[verifier::external_type_specification]
#[verifier::external_body]
pub struct ExIoError(std::io::Error);

/// The error that prost reports for bytes that are not in the wire format,
/// carried through.
#[verifier::external_type_specification]
#[verifier::external_body]
pub struct ExProstDecodeError(prost::DecodeError);

/// The error of `std::str::from_utf8`, carried through.
#[verifier::external_type_specification]
#[verifier::external_body]
pub struct ExUtf8Error(std::str::Utf8Error);

/// Any error a kRPC client operation can produce.
///
/// Errors fall into three broad groups:
///
/// - **Connection setup**: `Connect` and `ConnectionRejected`, only while a
///   connection is established.
/// - **Server-reported**: `Rpc` and `Procedure`. The connection is healthy,
///   but the server declined or failed the call.
/// - **Transport**: `Disconnected`, `EmptyResponse`, `Io` and `Decode`. The
///   connection failed or produced data that could not be understood.
#[derive(Debug)]
pub enum Error {
    /// A TCP connection to the server could not be established. `port` tells
    /// which of the two connections failed.
    Connect { address: String, port: u16, source: std::io::Error },
    /// The server refused the connection during the handshake.
    ConnectionRejected { status: ConnectionStatus, message: String },
    /// The server rejected an entire request before executing it.
    Rpc { service: String, name: String, description: String },
    /// A procedure executed on the server and threw an error.
    Procedure { service: String, name: String, description: String },
    /// The server's response contained no result for the call.
    EmptyResponse,
    /// The connection task has shut down.
    Disconnected,
    /// A socket read or write failed mid-operation.
    Io(std::io::Error),
    /// A server message or value could not be decoded, or an expression
    /// could not be encoded.
    Decode(Malformed),
}

/// Why bytes could not be decoded.
#[derive(Debug)]
pub enum Malformed {
    /// The bytes are not in the protobuf wire format.
    Wire(prost::DecodeError),
    /// A known field of a message has another wire type than the schema says.
    WireType,
    /// A string field of a message is not UTF-8.
    FieldText,
    /// Messages stand deeper within one another than a reader goes.
    TooDeep,
    /// A length prefix exceeds the buffer.
    LengthPrefix,
    /// A string value is not UTF-8.
    Utf8(std::str::Utf8Error),
    /// A floating-point value has another width than `expected` bytes.
    FloatWidth { expected: usize },
    /// A tuple has no item `index`.
    TupleTooShort { index: usize },
    /// An expression uses a lambda parameter outside its lambda.
    UnboundParameter,
}

/// [`Malformed`] without the outside errors that it carries.
pub enum DecodeFault {
    Wire,
    WireType,
    FieldText,
    TooDeep,
    LengthPrefix,
    Utf8,
    FloatWidth { expected: nat },
    TupleTooShort { index: nat },
    UnboundParameter,
}

/// [`Error`] without the outside errors that it carries, its texts as
/// sequences of characters.
pub enum Fault {
    Connect { address: Seq<char>, port: u16 },
    ConnectionRejected { status: ConnectionStatus, message: Seq<char> },
    Rpc { service: Seq<char>, name: Seq<char>, description: Seq<char> },
    Procedure { service: Seq<char>, name: Seq<char>, description: Seq<char> },
    EmptyResponse,
    Disconnected,
    Io,
    Decode(DecodeFault),
}

impl View for Malformed {
    type V = DecodeFault;

    open spec fn view(&self) -> DecodeFault {
        match self {
            Malformed::Wire(_) => DecodeFault::Wire,
            Malformed::WireType => DecodeFault::WireType,
            Malformed::FieldText => DecodeFault::FieldText,
            Malformed::TooDeep => DecodeFault::TooDeep,
            Malformed::LengthPrefix => DecodeFault::LengthPrefix,
            Malformed::Utf8(_) => DecodeFault::Utf8,
            Malformed::FloatWidth { expected } => DecodeFault::FloatWidth {
                expected: *expected as nat,
            },
            Malformed::TupleTooShort { index } => DecodeFault::TupleTooShort {
                index: *index as nat,
            },
            Malformed::UnboundParameter => DecodeFault::UnboundParameter,
        }
    }
}

impl View for Error {
    type V = Fault;

    open spec fn view(&self) -> Fault {
        match self {
            Error::Connect { address, port, source: _ } => Fault::Connect {
                address: address@,
                port: *port,
            },
            Error::ConnectionRejected { status, message } => Fault::ConnectionRejected {
                status: *status,
                message: message@,
            },
            Error::Rpc { service, name, description } => Fault::Rpc {
                service: service@,
                name: name@,
                description: description@,
            },
            Error::Procedure { service, name, description } => Fault::Procedure {
                service: service@,
                name: name@,
                description: description@,
            },
            Error::EmptyResponse => Fault::EmptyResponse,
            Error::Disconnected => Fault::Disconnected,
            Error::Io(_) => Fault::Io,
            Error::Decode(e) => Fault::Decode(e@),
        }
    }
}

impl From<std::io::Error> for Error {
    fn from(e: std::io::Error) -> (out: Self) {
        Error::Io(e)
    }
}

impl vstd::std_specs::convert::FromSpecImpl<std::io::Error> for Error {
    open spec fn obeys_from_spec() -> bool {
        true
    }

    open spec fn from_spec(e: std::io::Error) -> Self {
        Error::Io(e)
    }
}

impl From<Malformed> for Error {
    fn from(e: Malformed) -> (out: Self) {
        Error::Decode(e)
    }
}

impl vstd::std_specs::convert::FromSpecImpl<Malformed> for Error {
    open spec fn obeys_from_spec() -> bool {
        true
    }

    open spec fn from_spec(e: Malformed) -> Self {
        Error::Decode(e)
    }
}

/// Shorthand for `Result` with this crate's [`Error`].
pub type Result<T> = std::result::Result<T, Error>;

}
