//! The numbers of the protocol's fields.
//!
//! A message that holds one thing is written as one field, under the number
//! that the protocol has for it.
use vstd::prelude::*;

use crate::codec::Float;
use crate::krpc::schema::{
    Argument, Class, ConnectionRequest, ConnectionResponse, Dictionary, DictionaryEntry,
    Enumeration, EnumerationValue, Error, Event, Exception, ItemSet, List, Parameter, Procedure,
    ProcedureCall, ProcedureResult, Request, Response, Service, Services, Status, Stream,
    StreamResult, StreamUpdate, Tuple, Type,
};
use crate::message::Layout;
use crate::wire::WireType;

verus! {

use vstd::utf8::encode_utf8;

use crate::krpc::schema::{
    ArgumentView, ClassView, ConnectionRequestView, ConnectionResponseView, DictionaryView,
    DictionaryEntryView, EnumerationView, EnumerationValueView, ErrorView, EventView, ExceptionView,
    ItemSetView, ListView, ParameterView, ProcedureView, ProcedureCallView, ProcedureResultView,
    RequestView, ResponseView, ServiceView, ServicesView, StatusView, StreamView, StreamResultView,
    StreamUpdateView, TupleView, TypeView,
};
use crate::error::DecodeFault;
use crate::krpc::schema::lemma_type_arrives;
use crate::message::{
    lemma_i32_varint, lemma_inner_round_trip, lemma_text, message_bytes, packed,
};
use crate::wire::{varint, FieldView, PayloadView};

/// The field with number `tag` and no other.
pub open spec fn alone(tag: u32, payload: PayloadView) -> Seq<FieldView> {
    seq![FieldView { tag, payload }]
}

/// The numbers of the fields of [`Argument`].
pub proof fn argument_numbers(position: u32, value: Seq<u8>)
    ensures
        position != 0 ==> Argument::fields(ArgumentView { position, ..Argument::empty() }) == alone(
            1,
            PayloadView::Varint(position as u64),
        ),
        value.len() > 0 ==> Argument::fields(ArgumentView { value, ..Argument::empty() }) == alone(
            2,
            PayloadView::Bytes(value),
        ),
{
    if position != 0 {
        assert(Argument::fields(ArgumentView { position, ..Argument::empty() }) =~= alone(
            1,
            PayloadView::Varint(position as u64),
        ));
    }
    if value.len() > 0 {
        assert(Argument::fields(ArgumentView { value, ..Argument::empty() }) =~= alone(
            2,
            PayloadView::Bytes(value),
        ));
    }
}

/// The numbers of the fields of [`ProcedureCall`].
pub proof fn procedure_call_numbers(
    service: Seq<char>,
    procedure: Seq<char>,
    arguments: ArgumentView,
    service_id: u32,
    procedure_id: u32,
)
    ensures
        service.len() > 0 ==> ProcedureCall::fields(
            ProcedureCallView { service, ..ProcedureCall::empty() },
        ) == alone(
            1,
            PayloadView::Bytes(encode_utf8(service)),
        ),
        procedure.len() > 0 ==> ProcedureCall::fields(
            ProcedureCallView { procedure, ..ProcedureCall::empty() },
        ) == alone(
            2,
            PayloadView::Bytes(encode_utf8(procedure)),
        ),
        ProcedureCall::fields(
            ProcedureCallView { arguments: seq![arguments], ..ProcedureCall::empty() },
        ) == alone(
            3,
            PayloadView::Bytes(message_bytes::<Argument>(arguments)),
        ),
        service_id != 0 ==> ProcedureCall::fields(
            ProcedureCallView { service_id, ..ProcedureCall::empty() },
        ) == alone(
            4,
            PayloadView::Varint(service_id as u64),
        ),
        procedure_id != 0 ==> ProcedureCall::fields(
            ProcedureCallView { procedure_id, ..ProcedureCall::empty() },
        ) == alone(
            5,
            PayloadView::Varint(procedure_id as u64),
        ),
{
    if service.len() > 0 {
        assert(ProcedureCall::fields(
            ProcedureCallView { service, ..ProcedureCall::empty() },
        ) =~= alone(
            1,
            PayloadView::Bytes(encode_utf8(service)),
        ));
    }
    if procedure.len() > 0 {
        assert(ProcedureCall::fields(
            ProcedureCallView { procedure, ..ProcedureCall::empty() },
        ) =~= alone(
            2,
            PayloadView::Bytes(encode_utf8(procedure)),
        ));
    }
    assert(ProcedureCall::fields(
        ProcedureCallView { arguments: seq![arguments], ..ProcedureCall::empty() },
    ) =~= alone(
        3,
        PayloadView::Bytes(message_bytes::<Argument>(arguments)),
    ));
    if service_id != 0 {
        assert(ProcedureCall::fields(
            ProcedureCallView { service_id, ..ProcedureCall::empty() },
        ) =~= alone(
            4,
            PayloadView::Varint(service_id as u64),
        ));
    }
    if procedure_id != 0 {
        assert(ProcedureCall::fields(
            ProcedureCallView { procedure_id, ..ProcedureCall::empty() },
        ) =~= alone(
            5,
            PayloadView::Varint(procedure_id as u64),
        ));
    }
}

/// The numbers of the fields of [`Request`].
pub proof fn request_numbers(calls: ProcedureCallView)
    ensures
        Request::fields(RequestView { calls: seq![calls], ..Request::empty() }) == alone(
            1,
            PayloadView::Bytes(message_bytes::<ProcedureCall>(calls)),
        ),
{
    assert(Request::fields(RequestView { calls: seq![calls], ..Request::empty() }) =~= alone(
        1,
        PayloadView::Bytes(message_bytes::<ProcedureCall>(calls)),
    ));
}

/// The numbers of the fields of [`Error`].
pub proof fn error_numbers(
    service: Seq<char>,
    name: Seq<char>,
    description: Seq<char>,
    stack_trace: Seq<char>,
)
    ensures
        service.len() > 0 ==> Error::fields(ErrorView { service, ..Error::empty() }) == alone(
            1,
            PayloadView::Bytes(encode_utf8(service)),
        ),
        name.len() > 0 ==> Error::fields(ErrorView { name, ..Error::empty() }) == alone(
            2,
            PayloadView::Bytes(encode_utf8(name)),
        ),
        description.len() > 0 ==> Error::fields(
            ErrorView { description, ..Error::empty() },
        ) == alone(
            3,
            PayloadView::Bytes(encode_utf8(description)),
        ),
        stack_trace.len() > 0 ==> Error::fields(
            ErrorView { stack_trace, ..Error::empty() },
        ) == alone(
            4,
            PayloadView::Bytes(encode_utf8(stack_trace)),
        ),
{
    if service.len() > 0 {
        assert(Error::fields(ErrorView { service, ..Error::empty() }) =~= alone(
            1,
            PayloadView::Bytes(encode_utf8(service)),
        ));
    }
    if name.len() > 0 {
        assert(Error::fields(ErrorView { name, ..Error::empty() }) =~= alone(
            2,
            PayloadView::Bytes(encode_utf8(name)),
        ));
    }
    if description.len() > 0 {
        assert(Error::fields(ErrorView { description, ..Error::empty() }) =~= alone(
            3,
            PayloadView::Bytes(encode_utf8(description)),
        ));
    }
    if stack_trace.len() > 0 {
        assert(Error::fields(ErrorView { stack_trace, ..Error::empty() }) =~= alone(
            4,
            PayloadView::Bytes(encode_utf8(stack_trace)),
        ));
    }
}

/// The numbers of the fields of [`ProcedureResult`].
pub proof fn procedure_result_numbers(error: ErrorView, value: Seq<u8>)
    ensures
        ProcedureResult::fields(
            ProcedureResultView { error: Some(error), ..ProcedureResult::empty() },
        ) == alone(
            1,
            PayloadView::Bytes(message_bytes::<Error>(error)),
        ),
        value.len() > 0 ==> ProcedureResult::fields(
            ProcedureResultView { value, ..ProcedureResult::empty() },
        ) == alone(
            2,
            PayloadView::Bytes(value),
        ),
{
    assert(ProcedureResult::fields(
        ProcedureResultView { error: Some(error), ..ProcedureResult::empty() },
    ) =~= alone(
        1,
        PayloadView::Bytes(message_bytes::<Error>(error)),
    ));
    if value.len() > 0 {
        assert(ProcedureResult::fields(
            ProcedureResultView { value, ..ProcedureResult::empty() },
        ) =~= alone(
            2,
            PayloadView::Bytes(value),
        ));
    }
}

/// The numbers of the fields of [`Response`].
pub proof fn response_numbers(error: ErrorView, results: ProcedureResultView)
    ensures
        Response::fields(ResponseView { error: Some(error), ..Response::empty() }) == alone(
            1,
            PayloadView::Bytes(message_bytes::<Error>(error)),
        ),
        Response::fields(ResponseView { results: seq![results], ..Response::empty() }) == alone(
            2,
            PayloadView::Bytes(message_bytes::<ProcedureResult>(results)),
        ),
{
    assert(Response::fields(ResponseView { error: Some(error), ..Response::empty() }) =~= alone(
        1,
        PayloadView::Bytes(message_bytes::<Error>(error)),
    ));
    assert(Response::fields(ResponseView { results: seq![results], ..Response::empty() }) =~= alone(
        2,
        PayloadView::Bytes(message_bytes::<ProcedureResult>(results)),
    ));
}

/// The numbers of the fields of [`StreamResult`].
pub proof fn stream_result_numbers(id: u64, result: ProcedureResultView)
    ensures
        id != 0 ==> StreamResult::fields(StreamResultView { id, ..StreamResult::empty() }) == alone(
            1,
            PayloadView::Varint(id),
        ),
        StreamResult::fields(
            StreamResultView { result: Some(result), ..StreamResult::empty() },
        ) == alone(
            2,
            PayloadView::Bytes(message_bytes::<ProcedureResult>(result)),
        ),
{
    if id != 0 {
        assert(StreamResult::fields(StreamResultView { id, ..StreamResult::empty() }) =~= alone(
            1,
            PayloadView::Varint(id),
        ));
    }
    assert(StreamResult::fields(
        StreamResultView { result: Some(result), ..StreamResult::empty() },
    ) =~= alone(
        2,
        PayloadView::Bytes(message_bytes::<ProcedureResult>(result)),
    ));
}

/// The numbers of the fields of [`StreamUpdate`].
pub proof fn stream_update_numbers(results: StreamResultView)
    ensures
        StreamUpdate::fields(
            StreamUpdateView { results: seq![results], ..StreamUpdate::empty() },
        ) == alone(
            1,
            PayloadView::Bytes(message_bytes::<StreamResult>(results)),
        ),
{
    assert(StreamUpdate::fields(
        StreamUpdateView { results: seq![results], ..StreamUpdate::empty() },
    ) =~= alone(
        1,
        PayloadView::Bytes(message_bytes::<StreamResult>(results)),
    ));
}

/// The numbers of the fields of [`Stream`].
pub proof fn stream_numbers(id: u64)
    ensures
        id != 0 ==> Stream::fields(StreamView { id, ..Stream::empty() }) == alone(
            1,
            PayloadView::Varint(id),
        ),
{
    if id != 0 {
        assert(Stream::fields(StreamView { id, ..Stream::empty() }) =~= alone(
            1,
            PayloadView::Varint(id),
        ));
    }
}

/// The numbers of the fields of [`Event`].
pub proof fn event_numbers(stream: StreamView)
    ensures
        Event::fields(EventView { stream: Some(stream), ..Event::empty() }) == alone(
            1,
            PayloadView::Bytes(message_bytes::<Stream>(stream)),
        ),
{
    assert(Event::fields(EventView { stream: Some(stream), ..Event::empty() }) =~= alone(
        1,
        PayloadView::Bytes(message_bytes::<Stream>(stream)),
    ));
}

/// The numbers of the fields of [`Tuple`].
pub proof fn tuple_numbers(items: Seq<u8>)
    ensures
        Tuple::fields(TupleView { items: seq![items], ..Tuple::empty() }) == alone(
            1,
            PayloadView::Bytes(items),
        ),
{
    assert(Tuple::fields(TupleView { items: seq![items], ..Tuple::empty() }) =~= alone(
        1,
        PayloadView::Bytes(items),
    ));
}

/// The numbers of the fields of [`List`].
pub proof fn list_numbers(items: Seq<u8>)
    ensures
        List::fields(ListView { items: seq![items], ..List::empty() }) == alone(
            1,
            PayloadView::Bytes(items),
        ),
{
    assert(List::fields(ListView { items: seq![items], ..List::empty() }) =~= alone(
        1,
        PayloadView::Bytes(items),
    ));
}

/// The numbers of the fields of [`ItemSet`].
pub proof fn item_set_numbers(items: Seq<u8>)
    ensures
        ItemSet::fields(ItemSetView { items: seq![items], ..ItemSet::empty() }) == alone(
            1,
            PayloadView::Bytes(items),
        ),
{
    assert(ItemSet::fields(ItemSetView { items: seq![items], ..ItemSet::empty() }) =~= alone(
        1,
        PayloadView::Bytes(items),
    ));
}

/// The numbers of the fields of [`DictionaryEntry`].
pub proof fn dictionary_entry_numbers(key: Seq<u8>, value: Seq<u8>)
    ensures
        key.len() > 0 ==> DictionaryEntry::fields(
            DictionaryEntryView { key, ..DictionaryEntry::empty() },
        ) == alone(
            1,
            PayloadView::Bytes(key),
        ),
        value.len() > 0 ==> DictionaryEntry::fields(
            DictionaryEntryView { value, ..DictionaryEntry::empty() },
        ) == alone(
            2,
            PayloadView::Bytes(value),
        ),
{
    if key.len() > 0 {
        assert(DictionaryEntry::fields(
            DictionaryEntryView { key, ..DictionaryEntry::empty() },
        ) =~= alone(
            1,
            PayloadView::Bytes(key),
        ));
    }
    if value.len() > 0 {
        assert(DictionaryEntry::fields(
            DictionaryEntryView { value, ..DictionaryEntry::empty() },
        ) =~= alone(
            2,
            PayloadView::Bytes(value),
        ));
    }
}

/// The numbers of the fields of [`Dictionary`].
pub proof fn dictionary_numbers(entries: DictionaryEntryView)
    ensures
        Dictionary::fields(
            DictionaryView { entries: seq![entries], ..Dictionary::empty() },
        ) == alone(
            1,
            PayloadView::Bytes(message_bytes::<DictionaryEntry>(entries)),
        ),
{
    assert(Dictionary::fields(
        DictionaryView { entries: seq![entries], ..Dictionary::empty() },
    ) =~= alone(
        1,
        PayloadView::Bytes(message_bytes::<DictionaryEntry>(entries)),
    ));
}

/// The numbers of the fields of [`Status`].
pub proof fn status_numbers(
    version: Seq<char>,
    bytes_read: u64,
    bytes_written: u64,
    bytes_read_rate: Float,
    bytes_written_rate: Float,
    rpcs_executed: u64,
    rpc_rate: Float,
    one_rpc_per_update: bool,
    max_time_per_update: u32,
    adaptive_rate_control: bool,
    blocking_recv: bool,
    recv_timeout: u32,
    time_per_rpc_update: Float,
    poll_time_per_rpc_update: Float,
    exec_time_per_rpc_update: Float,
    stream_rpcs: u32,
    stream_rpcs_executed: u64,
    stream_rpc_rate: Float,
    time_per_stream_update: Float,
)
    ensures
        version.len() > 0 ==> Status::fields(StatusView { version, ..Status::empty() }) == alone(
            1,
            PayloadView::Bytes(encode_utf8(version)),
        ),
        bytes_read != 0 ==> Status::fields(StatusView { bytes_read, ..Status::empty() }) == alone(
            2,
            PayloadView::Varint(bytes_read),
        ),
        bytes_written != 0 ==> Status::fields(
            StatusView { bytes_written, ..Status::empty() },
        ) == alone(
            3,
            PayloadView::Varint(bytes_written),
        ),
        bytes_read_rate.bits != 0 && bytes_read_rate.bits != 0x8000_0000 ==> Status::fields(
            StatusView { bytes_read_rate, ..Status::empty() },
        ) == alone(
            4,
            PayloadView::Bits32(bytes_read_rate.bits),
        ),
        bytes_written_rate.bits != 0 && bytes_written_rate.bits != 0x8000_0000 ==> Status::fields(
            StatusView { bytes_written_rate, ..Status::empty() },
        ) == alone(
            5,
            PayloadView::Bits32(bytes_written_rate.bits),
        ),
        rpcs_executed != 0 ==> Status::fields(
            StatusView { rpcs_executed, ..Status::empty() },
        ) == alone(
            6,
            PayloadView::Varint(rpcs_executed),
        ),
        rpc_rate.bits != 0 && rpc_rate.bits != 0x8000_0000 ==> Status::fields(
            StatusView { rpc_rate, ..Status::empty() },
        ) == alone(
            7,
            PayloadView::Bits32(rpc_rate.bits),
        ),
        one_rpc_per_update ==> Status::fields(
            StatusView { one_rpc_per_update, ..Status::empty() },
        ) == alone(
            8,
            PayloadView::Varint(1),
        ),
        max_time_per_update != 0 ==> Status::fields(
            StatusView { max_time_per_update, ..Status::empty() },
        ) == alone(
            9,
            PayloadView::Varint(max_time_per_update as u64),
        ),
        adaptive_rate_control ==> Status::fields(
            StatusView { adaptive_rate_control, ..Status::empty() },
        ) == alone(
            10,
            PayloadView::Varint(1),
        ),
        blocking_recv ==> Status::fields(StatusView { blocking_recv, ..Status::empty() }) == alone(
            11,
            PayloadView::Varint(1),
        ),
        recv_timeout != 0 ==> Status::fields(
            StatusView { recv_timeout, ..Status::empty() },
        ) == alone(
            12,
            PayloadView::Varint(recv_timeout as u64),
        ),
        time_per_rpc_update.bits != 0 && time_per_rpc_update.bits != 0x8000_0000 ==> Status::fields(
            StatusView { time_per_rpc_update, ..Status::empty() },
        ) == alone(
            13,
            PayloadView::Bits32(time_per_rpc_update.bits),
        ),
        poll_time_per_rpc_update.bits != 0 && poll_time_per_rpc_update.bits != 0x8000_0000 ==> Status::fields(
            StatusView { poll_time_per_rpc_update, ..Status::empty() },
        ) == alone(
            14,
            PayloadView::Bits32(poll_time_per_rpc_update.bits),
        ),
        exec_time_per_rpc_update.bits != 0 && exec_time_per_rpc_update.bits != 0x8000_0000 ==> Status::fields(
            StatusView { exec_time_per_rpc_update, ..Status::empty() },
        ) == alone(
            15,
            PayloadView::Bits32(exec_time_per_rpc_update.bits),
        ),
        stream_rpcs != 0 ==> Status::fields(StatusView { stream_rpcs, ..Status::empty() }) == alone(
            16,
            PayloadView::Varint(stream_rpcs as u64),
        ),
        stream_rpcs_executed != 0 ==> Status::fields(
            StatusView { stream_rpcs_executed, ..Status::empty() },
        ) == alone(
            17,
            PayloadView::Varint(stream_rpcs_executed),
        ),
        stream_rpc_rate.bits != 0 && stream_rpc_rate.bits != 0x8000_0000 ==> Status::fields(
            StatusView { stream_rpc_rate, ..Status::empty() },
        ) == alone(
            18,
            PayloadView::Bits32(stream_rpc_rate.bits),
        ),
        time_per_stream_update.bits != 0 && time_per_stream_update.bits != 0x8000_0000 ==> Status::fields(
            StatusView { time_per_stream_update, ..Status::empty() },
        ) == alone(
            19,
            PayloadView::Bits32(time_per_stream_update.bits),
        ),
{
    if version.len() > 0 {
        assert(Status::fields(StatusView { version, ..Status::empty() }) =~= alone(
            1,
            PayloadView::Bytes(encode_utf8(version)),
        ));
    }
    if bytes_read != 0 {
        assert(Status::fields(StatusView { bytes_read, ..Status::empty() }) =~= alone(
            2,
            PayloadView::Varint(bytes_read),
        ));
    }
    if bytes_written != 0 {
        assert(Status::fields(StatusView { bytes_written, ..Status::empty() }) =~= alone(
            3,
            PayloadView::Varint(bytes_written),
        ));
    }
    if bytes_read_rate.bits != 0 && bytes_read_rate.bits != 0x8000_0000 {
        assert(Status::fields(StatusView { bytes_read_rate, ..Status::empty() }) =~= alone(
            4,
            PayloadView::Bits32(bytes_read_rate.bits),
        ));
    }
    if bytes_written_rate.bits != 0 && bytes_written_rate.bits != 0x8000_0000 {
        assert(Status::fields(StatusView { bytes_written_rate, ..Status::empty() }) =~= alone(
            5,
            PayloadView::Bits32(bytes_written_rate.bits),
        ));
    }
    if rpcs_executed != 0 {
        assert(Status::fields(StatusView { rpcs_executed, ..Status::empty() }) =~= alone(
            6,
            PayloadView::Varint(rpcs_executed),
        ));
    }
    if rpc_rate.bits != 0 && rpc_rate.bits != 0x8000_0000 {
        assert(Status::fields(StatusView { rpc_rate, ..Status::empty() }) =~= alone(
            7,
            PayloadView::Bits32(rpc_rate.bits),
        ));
    }
    if one_rpc_per_update {
        assert(Status::fields(StatusView { one_rpc_per_update, ..Status::empty() }) =~= alone(
            8,
            PayloadView::Varint(1),
        ));
    }
    if max_time_per_update != 0 {
        assert(Status::fields(StatusView { max_time_per_update, ..Status::empty() }) =~= alone(
            9,
            PayloadView::Varint(max_time_per_update as u64),
        ));
    }
    if adaptive_rate_control {
        assert(Status::fields(StatusView { adaptive_rate_control, ..Status::empty() }) =~= alone(
            10,
            PayloadView::Varint(1),
        ));
    }
    if blocking_recv {
        assert(Status::fields(StatusView { blocking_recv, ..Status::empty() }) =~= alone(
            11,
            PayloadView::Varint(1),
        ));
    }
    if recv_timeout != 0 {
        assert(Status::fields(StatusView { recv_timeout, ..Status::empty() }) =~= alone(
            12,
            PayloadView::Varint(recv_timeout as u64),
        ));
    }
    if time_per_rpc_update.bits != 0 && time_per_rpc_update.bits != 0x8000_0000 {
        assert(Status::fields(StatusView { time_per_rpc_update, ..Status::empty() }) =~= alone(
            13,
            PayloadView::Bits32(time_per_rpc_update.bits),
        ));
    }
    if poll_time_per_rpc_update.bits != 0 && poll_time_per_rpc_update.bits != 0x8000_0000 {
        assert(Status::fields(StatusView { poll_time_per_rpc_update, ..Status::empty() }) =~= alone(
            14,
            PayloadView::Bits32(poll_time_per_rpc_update.bits),
        ));
    }
    if exec_time_per_rpc_update.bits != 0 && exec_time_per_rpc_update.bits != 0x8000_0000 {
        assert(Status::fields(StatusView { exec_time_per_rpc_update, ..Status::empty() }) =~= alone(
            15,
            PayloadView::Bits32(exec_time_per_rpc_update.bits),
        ));
    }
    if stream_rpcs != 0 {
        assert(Status::fields(StatusView { stream_rpcs, ..Status::empty() }) =~= alone(
            16,
            PayloadView::Varint(stream_rpcs as u64),
        ));
    }
    if stream_rpcs_executed != 0 {
        assert(Status::fields(StatusView { stream_rpcs_executed, ..Status::empty() }) =~= alone(
            17,
            PayloadView::Varint(stream_rpcs_executed),
        ));
    }
    if stream_rpc_rate.bits != 0 && stream_rpc_rate.bits != 0x8000_0000 {
        assert(Status::fields(StatusView { stream_rpc_rate, ..Status::empty() }) =~= alone(
            18,
            PayloadView::Bits32(stream_rpc_rate.bits),
        ));
    }
    if time_per_stream_update.bits != 0 && time_per_stream_update.bits != 0x8000_0000 {
        assert(Status::fields(StatusView { time_per_stream_update, ..Status::empty() }) =~= alone(
            19,
            PayloadView::Bits32(time_per_stream_update.bits),
        ));
    }
}

/// The numbers of the fields of [`Class`].
pub proof fn class_numbers(name: Seq<char>, documentation: Seq<char>)
    ensures
        name.len() > 0 ==> Class::fields(ClassView { name, ..Class::empty() }) == alone(
            1,
            PayloadView::Bytes(encode_utf8(name)),
        ),
        documentation.len() > 0 ==> Class::fields(
            ClassView { documentation, ..Class::empty() },
        ) == alone(
            2,
            PayloadView::Bytes(encode_utf8(documentation)),
        ),
{
    if name.len() > 0 {
        assert(Class::fields(ClassView { name, ..Class::empty() }) =~= alone(
            1,
            PayloadView::Bytes(encode_utf8(name)),
        ));
    }
    if documentation.len() > 0 {
        assert(Class::fields(ClassView { documentation, ..Class::empty() }) =~= alone(
            2,
            PayloadView::Bytes(encode_utf8(documentation)),
        ));
    }
}

/// The numbers of the fields of [`EnumerationValue`].
pub proof fn enumeration_value_numbers(name: Seq<char>, value: i32, documentation: Seq<char>)
    ensures
        name.len() > 0 ==> EnumerationValue::fields(
            EnumerationValueView { name, ..EnumerationValue::empty() },
        ) == alone(
            1,
            PayloadView::Bytes(encode_utf8(name)),
        ),
        value != 0 ==> EnumerationValue::fields(
            EnumerationValueView { value, ..EnumerationValue::empty() },
        ) == alone(
            2,
            PayloadView::Varint(value as u64),
        ),
        documentation.len() > 0 ==> EnumerationValue::fields(
            EnumerationValueView { documentation, ..EnumerationValue::empty() },
        ) == alone(
            3,
            PayloadView::Bytes(encode_utf8(documentation)),
        ),
{
    if name.len() > 0 {
        assert(EnumerationValue::fields(
            EnumerationValueView { name, ..EnumerationValue::empty() },
        ) =~= alone(
            1,
            PayloadView::Bytes(encode_utf8(name)),
        ));
    }
    lemma_i32_varint(value);
    if value != 0 {
        assert(EnumerationValue::fields(
            EnumerationValueView { value, ..EnumerationValue::empty() },
        ) =~= alone(
            2,
            PayloadView::Varint(value as u64),
        ));
    }
    if documentation.len() > 0 {
        assert(EnumerationValue::fields(
            EnumerationValueView { documentation, ..EnumerationValue::empty() },
        ) =~= alone(
            3,
            PayloadView::Bytes(encode_utf8(documentation)),
        ));
    }
}

/// The numbers of the fields of [`Enumeration`].
pub proof fn enumeration_numbers(
    name: Seq<char>,
    values: EnumerationValueView,
    documentation: Seq<char>,
)
    ensures
        name.len() > 0 ==> Enumeration::fields(
            EnumerationView { name, ..Enumeration::empty() },
        ) == alone(
            1,
            PayloadView::Bytes(encode_utf8(name)),
        ),
        Enumeration::fields(
            EnumerationView { values: seq![values], ..Enumeration::empty() },
        ) == alone(
            2,
            PayloadView::Bytes(message_bytes::<EnumerationValue>(values)),
        ),
        documentation.len() > 0 ==> Enumeration::fields(
            EnumerationView { documentation, ..Enumeration::empty() },
        ) == alone(
            3,
            PayloadView::Bytes(encode_utf8(documentation)),
        ),
{
    if name.len() > 0 {
        assert(Enumeration::fields(EnumerationView { name, ..Enumeration::empty() }) =~= alone(
            1,
            PayloadView::Bytes(encode_utf8(name)),
        ));
    }
    assert(Enumeration::fields(
        EnumerationView { values: seq![values], ..Enumeration::empty() },
    ) =~= alone(
        2,
        PayloadView::Bytes(message_bytes::<EnumerationValue>(values)),
    ));
    if documentation.len() > 0 {
        assert(Enumeration::fields(
            EnumerationView { documentation, ..Enumeration::empty() },
        ) =~= alone(
            3,
            PayloadView::Bytes(encode_utf8(documentation)),
        ));
    }
}

/// The numbers of the fields of [`Exception`].
pub proof fn exception_numbers(name: Seq<char>, documentation: Seq<char>)
    ensures
        name.len() > 0 ==> Exception::fields(ExceptionView { name, ..Exception::empty() }) == alone(
            1,
            PayloadView::Bytes(encode_utf8(name)),
        ),
        documentation.len() > 0 ==> Exception::fields(
            ExceptionView { documentation, ..Exception::empty() },
        ) == alone(
            2,
            PayloadView::Bytes(encode_utf8(documentation)),
        ),
{
    if name.len() > 0 {
        assert(Exception::fields(ExceptionView { name, ..Exception::empty() }) =~= alone(
            1,
            PayloadView::Bytes(encode_utf8(name)),
        ));
    }
    if documentation.len() > 0 {
        assert(Exception::fields(ExceptionView { documentation, ..Exception::empty() }) =~= alone(
            2,
            PayloadView::Bytes(encode_utf8(documentation)),
        ));
    }
}

/// The numbers of the fields of [`Parameter`].
pub proof fn parameter_numbers(name: Seq<char>, parameter_type: TypeView, default_value: Seq<u8>)
    ensures
        name.len() > 0 ==> Parameter::fields(ParameterView { name, ..Parameter::empty() }) == alone(
            1,
            PayloadView::Bytes(encode_utf8(name)),
        ),
        Parameter::fields(
            ParameterView { parameter_type: Some(parameter_type), ..Parameter::empty() },
        ) == alone(
            2,
            PayloadView::Bytes(message_bytes::<Type>(parameter_type)),
        ),
        default_value.len() > 0 ==> Parameter::fields(
            ParameterView { default_value, ..Parameter::empty() },
        ) == alone(
            3,
            PayloadView::Bytes(default_value),
        ),
{
    if name.len() > 0 {
        assert(Parameter::fields(ParameterView { name, ..Parameter::empty() }) =~= alone(
            1,
            PayloadView::Bytes(encode_utf8(name)),
        ));
    }
    assert(Parameter::fields(
        ParameterView { parameter_type: Some(parameter_type), ..Parameter::empty() },
    ) =~= alone(
        2,
        PayloadView::Bytes(message_bytes::<Type>(parameter_type)),
    ));
    if default_value.len() > 0 {
        assert(Parameter::fields(ParameterView { default_value, ..Parameter::empty() }) =~= alone(
            3,
            PayloadView::Bytes(default_value),
        ));
    }
}

/// The numbers of the fields of [`Procedure`].
pub proof fn procedure_numbers(
    name: Seq<char>,
    parameters: ParameterView,
    return_type: TypeView,
    return_is_nullable: bool,
    documentation: Seq<char>,
    game_scenes: i32,
)
    ensures
        name.len() > 0 ==> Procedure::fields(ProcedureView { name, ..Procedure::empty() }) == alone(
            1,
            PayloadView::Bytes(encode_utf8(name)),
        ),
        Procedure::fields(
            ProcedureView { parameters: seq![parameters], ..Procedure::empty() },
        ) == alone(
            2,
            PayloadView::Bytes(message_bytes::<Parameter>(parameters)),
        ),
        Procedure::fields(
            ProcedureView { return_type: Some(return_type), ..Procedure::empty() },
        ) == alone(
            3,
            PayloadView::Bytes(message_bytes::<Type>(return_type)),
        ),
        return_is_nullable ==> Procedure::fields(
            ProcedureView { return_is_nullable, ..Procedure::empty() },
        ) == alone(
            4,
            PayloadView::Varint(1),
        ),
        documentation.len() > 0 ==> Procedure::fields(
            ProcedureView { documentation, ..Procedure::empty() },
        ) == alone(
            5,
            PayloadView::Bytes(encode_utf8(documentation)),
        ),
        Procedure::fields(
            ProcedureView { game_scenes: seq![game_scenes], ..Procedure::empty() },
        ) == alone(
            6,
            PayloadView::Bytes(varint((game_scenes as u64) as nat)),
        ),
{
    if name.len() > 0 {
        assert(Procedure::fields(ProcedureView { name, ..Procedure::empty() }) =~= alone(
            1,
            PayloadView::Bytes(encode_utf8(name)),
        ));
    }
    assert(Procedure::fields(
        ProcedureView { parameters: seq![parameters], ..Procedure::empty() },
    ) =~= alone(
        2,
        PayloadView::Bytes(message_bytes::<Parameter>(parameters)),
    ));
    assert(Procedure::fields(
        ProcedureView { return_type: Some(return_type), ..Procedure::empty() },
    ) =~= alone(
        3,
        PayloadView::Bytes(message_bytes::<Type>(return_type)),
    ));
    if return_is_nullable {
        assert(Procedure::fields(
            ProcedureView { return_is_nullable, ..Procedure::empty() },
        ) =~= alone(
            4,
            PayloadView::Varint(1),
        ));
    }
    if documentation.len() > 0 {
        assert(Procedure::fields(ProcedureView { documentation, ..Procedure::empty() }) =~= alone(
            5,
            PayloadView::Bytes(encode_utf8(documentation)),
        ));
    }
    assert(seq![game_scenes].drop_last() =~= seq![]);
    assert(packed(seq![game_scenes].drop_last()) + varint((game_scenes as u64) as nat) =~= varint((game_scenes as u64) as nat));
    reveal_with_fuel(packed, 2);
    assert(Procedure::fields(
        ProcedureView { game_scenes: seq![game_scenes], ..Procedure::empty() },
    ) =~= alone(
        6,
        PayloadView::Bytes(varint((game_scenes as u64) as nat)),
    ));
}

/// The numbers of the fields of [`Service`].
pub proof fn service_numbers(
    name: Seq<char>,
    procedures: ProcedureView,
    classes: ClassView,
    enumerations: EnumerationView,
    exceptions: ExceptionView,
    documentation: Seq<char>,
)
    ensures
        name.len() > 0 ==> Service::fields(ServiceView { name, ..Service::empty() }) == alone(
            1,
            PayloadView::Bytes(encode_utf8(name)),
        ),
        Service::fields(ServiceView { procedures: seq![procedures], ..Service::empty() }) == alone(
            2,
            PayloadView::Bytes(message_bytes::<Procedure>(procedures)),
        ),
        Service::fields(ServiceView { classes: seq![classes], ..Service::empty() }) == alone(
            3,
            PayloadView::Bytes(message_bytes::<Class>(classes)),
        ),
        Service::fields(
            ServiceView { enumerations: seq![enumerations], ..Service::empty() },
        ) == alone(
            4,
            PayloadView::Bytes(message_bytes::<Enumeration>(enumerations)),
        ),
        Service::fields(ServiceView { exceptions: seq![exceptions], ..Service::empty() }) == alone(
            5,
            PayloadView::Bytes(message_bytes::<Exception>(exceptions)),
        ),
        documentation.len() > 0 ==> Service::fields(
            ServiceView { documentation, ..Service::empty() },
        ) == alone(
            6,
            PayloadView::Bytes(encode_utf8(documentation)),
        ),
{
    if name.len() > 0 {
        assert(Service::fields(ServiceView { name, ..Service::empty() }) =~= alone(
            1,
            PayloadView::Bytes(encode_utf8(name)),
        ));
    }
    assert(Service::fields(
        ServiceView { procedures: seq![procedures], ..Service::empty() },
    ) =~= alone(
        2,
        PayloadView::Bytes(message_bytes::<Procedure>(procedures)),
    ));
    assert(Service::fields(ServiceView { classes: seq![classes], ..Service::empty() }) =~= alone(
        3,
        PayloadView::Bytes(message_bytes::<Class>(classes)),
    ));
    assert(Service::fields(
        ServiceView { enumerations: seq![enumerations], ..Service::empty() },
    ) =~= alone(
        4,
        PayloadView::Bytes(message_bytes::<Enumeration>(enumerations)),
    ));
    assert(Service::fields(
        ServiceView { exceptions: seq![exceptions], ..Service::empty() },
    ) =~= alone(
        5,
        PayloadView::Bytes(message_bytes::<Exception>(exceptions)),
    ));
    if documentation.len() > 0 {
        assert(Service::fields(ServiceView { documentation, ..Service::empty() }) =~= alone(
            6,
            PayloadView::Bytes(encode_utf8(documentation)),
        ));
    }
}

/// The numbers of the fields of [`Services`].
pub proof fn services_numbers(services: ServiceView)
    ensures
        Services::fields(ServicesView { services: seq![services], ..Services::empty() }) == alone(
            1,
            PayloadView::Bytes(message_bytes::<Service>(services)),
        ),
{
    assert(Services::fields(
        ServicesView { services: seq![services], ..Services::empty() },
    ) =~= alone(
        1,
        PayloadView::Bytes(message_bytes::<Service>(services)),
    ));
}

/// The numbers of the fields of [`ConnectionRequest`].
pub proof fn connection_request_numbers(
    type_code: i32,
    client_name: Seq<char>,
    client_identifier: Seq<u8>,
)
    ensures
        type_code != 0 ==> ConnectionRequest::fields(
            ConnectionRequestView { type_code, ..ConnectionRequest::empty() },
        ) == alone(
            1,
            PayloadView::Varint(type_code as u64),
        ),
        client_name.len() > 0 ==> ConnectionRequest::fields(
            ConnectionRequestView { client_name, ..ConnectionRequest::empty() },
        ) == alone(
            2,
            PayloadView::Bytes(encode_utf8(client_name)),
        ),
        client_identifier.len() > 0 ==> ConnectionRequest::fields(
            ConnectionRequestView { client_identifier, ..ConnectionRequest::empty() },
        ) == alone(
            3,
            PayloadView::Bytes(client_identifier),
        ),
{
    lemma_i32_varint(type_code);
    if type_code != 0 {
        assert(ConnectionRequest::fields(
            ConnectionRequestView { type_code, ..ConnectionRequest::empty() },
        ) =~= alone(
            1,
            PayloadView::Varint(type_code as u64),
        ));
    }
    if client_name.len() > 0 {
        assert(ConnectionRequest::fields(
            ConnectionRequestView { client_name, ..ConnectionRequest::empty() },
        ) =~= alone(
            2,
            PayloadView::Bytes(encode_utf8(client_name)),
        ));
    }
    if client_identifier.len() > 0 {
        assert(ConnectionRequest::fields(
            ConnectionRequestView { client_identifier, ..ConnectionRequest::empty() },
        ) =~= alone(
            3,
            PayloadView::Bytes(client_identifier),
        ));
    }
}

/// The numbers of the fields of [`ConnectionResponse`].
pub proof fn connection_response_numbers(
    status_code: i32,
    message: Seq<char>,
    client_identifier: Seq<u8>,
)
    ensures
        status_code != 0 ==> ConnectionResponse::fields(
            ConnectionResponseView { status_code, ..ConnectionResponse::empty() },
        ) == alone(
            1,
            PayloadView::Varint(status_code as u64),
        ),
        message.len() > 0 ==> ConnectionResponse::fields(
            ConnectionResponseView { message, ..ConnectionResponse::empty() },
        ) == alone(
            2,
            PayloadView::Bytes(encode_utf8(message)),
        ),
        client_identifier.len() > 0 ==> ConnectionResponse::fields(
            ConnectionResponseView { client_identifier, ..ConnectionResponse::empty() },
        ) == alone(
            3,
            PayloadView::Bytes(client_identifier),
        ),
{
    lemma_i32_varint(status_code);
    if status_code != 0 {
        assert(ConnectionResponse::fields(
            ConnectionResponseView { status_code, ..ConnectionResponse::empty() },
        ) =~= alone(
            1,
            PayloadView::Varint(status_code as u64),
        ));
    }
    if message.len() > 0 {
        assert(ConnectionResponse::fields(
            ConnectionResponseView { message, ..ConnectionResponse::empty() },
        ) =~= alone(
            2,
            PayloadView::Bytes(encode_utf8(message)),
        ));
    }
    if client_identifier.len() > 0 {
        assert(ConnectionResponse::fields(
            ConnectionResponseView { client_identifier, ..ConnectionResponse::empty() },
        ) =~= alone(
            3,
            PayloadView::Bytes(client_identifier),
        ));
    }
}

/// The numbers of the fields of [`Type`].
pub proof fn type_numbers(code: i32, service: Seq<char>, name: Seq<char>, types: TypeView)
    ensures
        code != 0 ==> Type::fields(TypeView { code, ..Type::empty() }) == alone(
            1,
            PayloadView::Varint(code as u64),
        ),
        service.len() > 0 ==> Type::fields(TypeView { service, ..Type::empty() }) == alone(
            2,
            PayloadView::Bytes(encode_utf8(service)),
        ),
        name.len() > 0 ==> Type::fields(TypeView { name, ..Type::empty() }) == alone(
            3,
            PayloadView::Bytes(encode_utf8(name)),
        ),
        Type::fields(TypeView { types: seq![types], ..Type::empty() }) == alone(
            4,
            PayloadView::Bytes(message_bytes::<Type>(types)),
        ),
{
    lemma_i32_varint(code);
    if code != 0 {
        assert(Type::fields(TypeView { code, ..Type::empty() }) =~= alone(
            1,
            PayloadView::Varint(code as u64),
        ));
    }
    if service.len() > 0 {
        assert(Type::fields(TypeView { service, ..Type::empty() }) =~= alone(
            2,
            PayloadView::Bytes(encode_utf8(service)),
        ));
    }
    if name.len() > 0 {
        assert(Type::fields(TypeView { name, ..Type::empty() }) =~= alone(
            3,
            PayloadView::Bytes(encode_utf8(name)),
        ));
    }
    assert(seq![types].drop_last() =~= seq![]);
    reveal_with_fuel(crate::krpc::schema::types_bytes, 2);
    assert(Type::fields(TypeView { types: seq![types], ..Type::empty() }) =~= alone(
        4,
        PayloadView::Bytes(message_bytes::<Type>(types)),
    ));
}

/// Whether a message arrives where it stands within another, with the depth
/// `depth` left around it.
pub open spec fn arrives<M: Layout>(m: M::V, depth: nat) -> bool {
    depth > 0 && M::reads_back(m, (depth - 1) as nat) && message_bytes::<M>(m).len() <= u64::MAX
}

/// What each field of [`Argument`] changes as it is read, whatever was there.
#[verifier::rlimit(40)]
pub proof fn argument_fields_are_read(
    m: ArgumentView,
    depth: nat,
    wire: WireType,
    position: u32,
    value: Seq<u8>,
)
    ensures
        Argument::merged(
            m,
            FieldView { tag: 1, payload: PayloadView::Varint(position as u64) },
            depth,
        ) == Ok::<ArgumentView, DecodeFault>(ArgumentView { position, ..m }),
        Argument::merged(
            m,
            FieldView { tag: 1, payload: PayloadView::Other(wire) },
            depth,
        ) == Err::<ArgumentView, DecodeFault>(DecodeFault::WireType),
        Argument::merged(
            m,
            FieldView { tag: 2, payload: PayloadView::Bytes(value) },
            depth,
        ) == Ok::<ArgumentView, DecodeFault>(ArgumentView { value, ..m }),
        Argument::merged(
            m,
            FieldView { tag: 2, payload: PayloadView::Other(wire) },
            depth,
        ) == Err::<ArgumentView, DecodeFault>(DecodeFault::WireType),
{
    assert((position as u64) as u32 == position);
}

/// What each field of [`ProcedureCall`] changes as it is read, whatever was there.
#[verifier::rlimit(40)]
pub proof fn procedure_call_fields_are_read(
    m: ProcedureCallView,
    depth: nat,
    wire: WireType,
    service: Seq<char>,
    procedure: Seq<char>,
    arguments: ArgumentView,
    service_id: u32,
    procedure_id: u32,
)
    ensures
        ProcedureCall::merged(
            m,
            FieldView { tag: 1, payload: PayloadView::Bytes(encode_utf8(service)) },
            depth,
        ) == Ok::<ProcedureCallView, DecodeFault>(ProcedureCallView { service, ..m }),
        ProcedureCall::merged(
            m,
            FieldView { tag: 1, payload: PayloadView::Other(wire) },
            depth,
        ) == Err::<ProcedureCallView, DecodeFault>(DecodeFault::WireType),
        ProcedureCall::merged(
            m,
            FieldView { tag: 2, payload: PayloadView::Bytes(encode_utf8(procedure)) },
            depth,
        ) == Ok::<ProcedureCallView, DecodeFault>(ProcedureCallView { procedure, ..m }),
        ProcedureCall::merged(
            m,
            FieldView { tag: 2, payload: PayloadView::Other(wire) },
            depth,
        ) == Err::<ProcedureCallView, DecodeFault>(DecodeFault::WireType),
        arrives::<Argument>(arguments, depth) ==> ProcedureCall::merged(
            m,
            FieldView { tag: 3, payload: PayloadView::Bytes(message_bytes::<Argument>(arguments)) },
            depth,
        ) == Ok::<ProcedureCallView, DecodeFault>(ProcedureCallView { arguments: m.arguments.push(arguments), ..m }),
        ProcedureCall::merged(
            m,
            FieldView { tag: 3, payload: PayloadView::Other(wire) },
            depth,
        ) == Err::<ProcedureCallView, DecodeFault>(DecodeFault::WireType),
        ProcedureCall::merged(
            m,
            FieldView { tag: 4, payload: PayloadView::Varint(service_id as u64) },
            depth,
        ) == Ok::<ProcedureCallView, DecodeFault>(ProcedureCallView { service_id, ..m }),
        ProcedureCall::merged(
            m,
            FieldView { tag: 4, payload: PayloadView::Other(wire) },
            depth,
        ) == Err::<ProcedureCallView, DecodeFault>(DecodeFault::WireType),
        ProcedureCall::merged(
            m,
            FieldView { tag: 5, payload: PayloadView::Varint(procedure_id as u64) },
            depth,
        ) == Ok::<ProcedureCallView, DecodeFault>(ProcedureCallView { procedure_id, ..m }),
        ProcedureCall::merged(
            m,
            FieldView { tag: 5, payload: PayloadView::Other(wire) },
            depth,
        ) == Err::<ProcedureCallView, DecodeFault>(DecodeFault::WireType),
{
    lemma_text(service);
    lemma_text(procedure);
    if arrives::<Argument>(arguments, depth) {
        lemma_inner_round_trip::<Argument>(arguments, (depth - 1) as nat);
    }
    assert((service_id as u64) as u32 == service_id);
    assert((procedure_id as u64) as u32 == procedure_id);
}

/// What each field of [`Request`] changes as it is read, whatever was there.
#[verifier::rlimit(40)]
pub proof fn request_fields_are_read(
    m: RequestView,
    depth: nat,
    wire: WireType,
    calls: ProcedureCallView,
)
    ensures
        arrives::<ProcedureCall>(calls, depth) ==> Request::merged(
            m,
            FieldView { tag: 1, payload: PayloadView::Bytes(message_bytes::<ProcedureCall>(calls)) },
            depth,
        ) == Ok::<RequestView, DecodeFault>(RequestView { calls: m.calls.push(calls), ..m }),
        Request::merged(
            m,
            FieldView { tag: 1, payload: PayloadView::Other(wire) },
            depth,
        ) == Err::<RequestView, DecodeFault>(DecodeFault::WireType),
{
    if arrives::<ProcedureCall>(calls, depth) {
        lemma_inner_round_trip::<ProcedureCall>(calls, (depth - 1) as nat);
    }
}

/// What each field of [`Error`] changes as it is read, whatever was there.
#[verifier::rlimit(40)]
pub proof fn error_fields_are_read(
    m: ErrorView,
    depth: nat,
    wire: WireType,
    service: Seq<char>,
    name: Seq<char>,
    description: Seq<char>,
    stack_trace: Seq<char>,
)
    ensures
        Error::merged(
            m,
            FieldView { tag: 1, payload: PayloadView::Bytes(encode_utf8(service)) },
            depth,
        ) == Ok::<ErrorView, DecodeFault>(ErrorView { service, ..m }),
        Error::merged(
            m,
            FieldView { tag: 1, payload: PayloadView::Other(wire) },
            depth,
        ) == Err::<ErrorView, DecodeFault>(DecodeFault::WireType),
        Error::merged(
            m,
            FieldView { tag: 2, payload: PayloadView::Bytes(encode_utf8(name)) },
            depth,
        ) == Ok::<ErrorView, DecodeFault>(ErrorView { name, ..m }),
        Error::merged(
            m,
            FieldView { tag: 2, payload: PayloadView::Other(wire) },
            depth,
        ) == Err::<ErrorView, DecodeFault>(DecodeFault::WireType),
        Error::merged(
            m,
            FieldView { tag: 3, payload: PayloadView::Bytes(encode_utf8(description)) },
            depth,
        ) == Ok::<ErrorView, DecodeFault>(ErrorView { description, ..m }),
        Error::merged(
            m,
            FieldView { tag: 3, payload: PayloadView::Other(wire) },
            depth,
        ) == Err::<ErrorView, DecodeFault>(DecodeFault::WireType),
        Error::merged(
            m,
            FieldView { tag: 4, payload: PayloadView::Bytes(encode_utf8(stack_trace)) },
            depth,
        ) == Ok::<ErrorView, DecodeFault>(ErrorView { stack_trace, ..m }),
        Error::merged(
            m,
            FieldView { tag: 4, payload: PayloadView::Other(wire) },
            depth,
        ) == Err::<ErrorView, DecodeFault>(DecodeFault::WireType),
{
    lemma_text(service);
    lemma_text(name);
    lemma_text(description);
    lemma_text(stack_trace);
}

/// What each field of [`ProcedureResult`] changes as it is read, whatever was there.
#[verifier::rlimit(40)]
pub proof fn procedure_result_fields_are_read(
    m: ProcedureResultView,
    depth: nat,
    wire: WireType,
    error: ErrorView,
    value: Seq<u8>,
)
    ensures
        m.error is None && arrives::<Error>(error, depth) ==> ProcedureResult::merged(
            m,
            FieldView { tag: 1, payload: PayloadView::Bytes(message_bytes::<Error>(error)) },
            depth,
        ) == Ok::<ProcedureResultView, DecodeFault>(ProcedureResultView { error: Some(error), ..m }),
        ProcedureResult::merged(
            m,
            FieldView { tag: 1, payload: PayloadView::Other(wire) },
            depth,
        ) == Err::<ProcedureResultView, DecodeFault>(DecodeFault::WireType),
        ProcedureResult::merged(
            m,
            FieldView { tag: 2, payload: PayloadView::Bytes(value) },
            depth,
        ) == Ok::<ProcedureResultView, DecodeFault>(ProcedureResultView { value, ..m }),
        ProcedureResult::merged(
            m,
            FieldView { tag: 2, payload: PayloadView::Other(wire) },
            depth,
        ) == Err::<ProcedureResultView, DecodeFault>(DecodeFault::WireType),
{
    if arrives::<Error>(error, depth) {
        lemma_inner_round_trip::<Error>(error, (depth - 1) as nat);
    }
}

/// What each field of [`Response`] changes as it is read, whatever was there.
#[verifier::rlimit(40)]
pub proof fn response_fields_are_read(
    m: ResponseView,
    depth: nat,
    wire: WireType,
    error: ErrorView,
    results: ProcedureResultView,
)
    ensures
        m.error is None && arrives::<Error>(error, depth) ==> Response::merged(
            m,
            FieldView { tag: 1, payload: PayloadView::Bytes(message_bytes::<Error>(error)) },
            depth,
        ) == Ok::<ResponseView, DecodeFault>(ResponseView { error: Some(error), ..m }),
        Response::merged(
            m,
            FieldView { tag: 1, payload: PayloadView::Other(wire) },
            depth,
        ) == Err::<ResponseView, DecodeFault>(DecodeFault::WireType),
        arrives::<ProcedureResult>(results, depth) ==> Response::merged(
            m,
            FieldView { tag: 2, payload: PayloadView::Bytes(message_bytes::<ProcedureResult>(results)) },
            depth,
        ) == Ok::<ResponseView, DecodeFault>(ResponseView { results: m.results.push(results), ..m }),
        Response::merged(
            m,
            FieldView { tag: 2, payload: PayloadView::Other(wire) },
            depth,
        ) == Err::<ResponseView, DecodeFault>(DecodeFault::WireType),
{
    if arrives::<Error>(error, depth) {
        lemma_inner_round_trip::<Error>(error, (depth - 1) as nat);
    }
    if arrives::<ProcedureResult>(results, depth) {
        lemma_inner_round_trip::<ProcedureResult>(results, (depth - 1) as nat);
    }
}

/// What each field of [`StreamResult`] changes as it is read, whatever was there.
#[verifier::rlimit(40)]
pub proof fn stream_result_fields_are_read(
    m: StreamResultView,
    depth: nat,
    wire: WireType,
    id: u64,
    result: ProcedureResultView,
)
    ensures
        StreamResult::merged(
            m,
            FieldView { tag: 1, payload: PayloadView::Varint(id) },
            depth,
        ) == Ok::<StreamResultView, DecodeFault>(StreamResultView { id, ..m }),
        StreamResult::merged(
            m,
            FieldView { tag: 1, payload: PayloadView::Other(wire) },
            depth,
        ) == Err::<StreamResultView, DecodeFault>(DecodeFault::WireType),
        m.result is None && arrives::<ProcedureResult>(result, depth) ==> StreamResult::merged(
            m,
            FieldView { tag: 2, payload: PayloadView::Bytes(message_bytes::<ProcedureResult>(result)) },
            depth,
        ) == Ok::<StreamResultView, DecodeFault>(StreamResultView { result: Some(result), ..m }),
        StreamResult::merged(
            m,
            FieldView { tag: 2, payload: PayloadView::Other(wire) },
            depth,
        ) == Err::<StreamResultView, DecodeFault>(DecodeFault::WireType),
{
    if arrives::<ProcedureResult>(result, depth) {
        lemma_inner_round_trip::<ProcedureResult>(result, (depth - 1) as nat);
    }
}

/// What each field of [`StreamUpdate`] changes as it is read, whatever was there.
#[verifier::rlimit(40)]
pub proof fn stream_update_fields_are_read(
    m: StreamUpdateView,
    depth: nat,
    wire: WireType,
    results: StreamResultView,
)
    ensures
        arrives::<StreamResult>(results, depth) ==> StreamUpdate::merged(
            m,
            FieldView { tag: 1, payload: PayloadView::Bytes(message_bytes::<StreamResult>(results)) },
            depth,
        ) == Ok::<StreamUpdateView, DecodeFault>(StreamUpdateView { results: m.results.push(results), ..m }),
        StreamUpdate::merged(
            m,
            FieldView { tag: 1, payload: PayloadView::Other(wire) },
            depth,
        ) == Err::<StreamUpdateView, DecodeFault>(DecodeFault::WireType),
{
    if arrives::<StreamResult>(results, depth) {
        lemma_inner_round_trip::<StreamResult>(results, (depth - 1) as nat);
    }
}

/// What each field of [`Stream`] changes as it is read, whatever was there.
#[verifier::rlimit(40)]
pub proof fn stream_fields_are_read(
    m: StreamView,
    depth: nat,
    wire: WireType,
    id: u64,
)
    ensures
        Stream::merged(
            m,
            FieldView { tag: 1, payload: PayloadView::Varint(id) },
            depth,
        ) == Ok::<StreamView, DecodeFault>(StreamView { id, ..m }),
        Stream::merged(
            m,
            FieldView { tag: 1, payload: PayloadView::Other(wire) },
            depth,
        ) == Err::<StreamView, DecodeFault>(DecodeFault::WireType),
{

}

/// What each field of [`Event`] changes as it is read, whatever was there.
#[verifier::rlimit(40)]
pub proof fn event_fields_are_read(
    m: EventView,
    depth: nat,
    wire: WireType,
    stream: StreamView,
)
    ensures
        m.stream is None && arrives::<Stream>(stream, depth) ==> Event::merged(
            m,
            FieldView { tag: 1, payload: PayloadView::Bytes(message_bytes::<Stream>(stream)) },
            depth,
        ) == Ok::<EventView, DecodeFault>(EventView { stream: Some(stream), ..m }),
        Event::merged(
            m,
            FieldView { tag: 1, payload: PayloadView::Other(wire) },
            depth,
        ) == Err::<EventView, DecodeFault>(DecodeFault::WireType),
{
    if arrives::<Stream>(stream, depth) {
        lemma_inner_round_trip::<Stream>(stream, (depth - 1) as nat);
    }
}

/// What each field of [`Tuple`] changes as it is read, whatever was there.
#[verifier::rlimit(40)]
pub proof fn tuple_fields_are_read(
    m: TupleView,
    depth: nat,
    wire: WireType,
    items: Seq<u8>,
)
    ensures
        Tuple::merged(
            m,
            FieldView { tag: 1, payload: PayloadView::Bytes(items) },
            depth,
        ) == Ok::<TupleView, DecodeFault>(TupleView { items: m.items.push(items), ..m }),
        Tuple::merged(
            m,
            FieldView { tag: 1, payload: PayloadView::Other(wire) },
            depth,
        ) == Err::<TupleView, DecodeFault>(DecodeFault::WireType),
{

}

/// What each field of [`List`] changes as it is read, whatever was there.
#[verifier::rlimit(40)]
pub proof fn list_fields_are_read(
    m: ListView,
    depth: nat,
    wire: WireType,
    items: Seq<u8>,
)
    ensures
        List::merged(
            m,
            FieldView { tag: 1, payload: PayloadView::Bytes(items) },
            depth,
        ) == Ok::<ListView, DecodeFault>(ListView { items: m.items.push(items), ..m }),
        List::merged(
            m,
            FieldView { tag: 1, payload: PayloadView::Other(wire) },
            depth,
        ) == Err::<ListView, DecodeFault>(DecodeFault::WireType),
{

}

/// What each field of [`ItemSet`] changes as it is read, whatever was there.
#[verifier::rlimit(40)]
pub proof fn item_set_fields_are_read(
    m: ItemSetView,
    depth: nat,
    wire: WireType,
    items: Seq<u8>,
)
    ensures
        ItemSet::merged(
            m,
            FieldView { tag: 1, payload: PayloadView::Bytes(items) },
            depth,
        ) == Ok::<ItemSetView, DecodeFault>(ItemSetView { items: m.items.push(items), ..m }),
        ItemSet::merged(
            m,
            FieldView { tag: 1, payload: PayloadView::Other(wire) },
            depth,
        ) == Err::<ItemSetView, DecodeFault>(DecodeFault::WireType),
{

}

/// What each field of [`DictionaryEntry`] changes as it is read, whatever was there.
#[verifier::rlimit(40)]
pub proof fn dictionary_entry_fields_are_read(
    m: DictionaryEntryView,
    depth: nat,
    wire: WireType,
    key: Seq<u8>,
    value: Seq<u8>,
)
    ensures
        DictionaryEntry::merged(
            m,
            FieldView { tag: 1, payload: PayloadView::Bytes(key) },
            depth,
        ) == Ok::<DictionaryEntryView, DecodeFault>(DictionaryEntryView { key, ..m }),
        DictionaryEntry::merged(
            m,
            FieldView { tag: 1, payload: PayloadView::Other(wire) },
            depth,
        ) == Err::<DictionaryEntryView, DecodeFault>(DecodeFault::WireType),
        DictionaryEntry::merged(
            m,
            FieldView { tag: 2, payload: PayloadView::Bytes(value) },
            depth,
        ) == Ok::<DictionaryEntryView, DecodeFault>(DictionaryEntryView { value, ..m }),
        DictionaryEntry::merged(
            m,
            FieldView { tag: 2, payload: PayloadView::Other(wire) },
            depth,
        ) == Err::<DictionaryEntryView, DecodeFault>(DecodeFault::WireType),
{

}

/// What each field of [`Dictionary`] changes as it is read, whatever was there.
#[verifier::rlimit(40)]
pub proof fn dictionary_fields_are_read(
    m: DictionaryView,
    depth: nat,
    wire: WireType,
    entries: DictionaryEntryView,
)
    ensures
        arrives::<DictionaryEntry>(entries, depth) ==> Dictionary::merged(
            m,
            FieldView { tag: 1, payload: PayloadView::Bytes(message_bytes::<DictionaryEntry>(entries)) },
            depth,
        ) == Ok::<DictionaryView, DecodeFault>(DictionaryView { entries: m.entries.push(entries), ..m }),
        Dictionary::merged(
            m,
            FieldView { tag: 1, payload: PayloadView::Other(wire) },
            depth,
        ) == Err::<DictionaryView, DecodeFault>(DecodeFault::WireType),
{
    if arrives::<DictionaryEntry>(entries, depth) {
        lemma_inner_round_trip::<DictionaryEntry>(entries, (depth - 1) as nat);
    }
}

/// What each field of [`Status`] changes as it is read, whatever was there.
#[verifier::rlimit(40)]
pub proof fn status_fields_are_read(
    m: StatusView,
    depth: nat,
    wire: WireType,
    version: Seq<char>,
    bytes_read: u64,
    bytes_written: u64,
    bytes_read_rate: Float,
    bytes_written_rate: Float,
    rpcs_executed: u64,
    rpc_rate: Float,
    one_rpc_per_update: u64,
    max_time_per_update: u32,
    adaptive_rate_control: u64,
    blocking_recv: u64,
    recv_timeout: u32,
    time_per_rpc_update: Float,
    poll_time_per_rpc_update: Float,
    exec_time_per_rpc_update: Float,
    stream_rpcs: u32,
    stream_rpcs_executed: u64,
    stream_rpc_rate: Float,
    time_per_stream_update: Float,
)
    ensures
        Status::merged(
            m,
            FieldView { tag: 1, payload: PayloadView::Bytes(encode_utf8(version)) },
            depth,
        ) == Ok::<StatusView, DecodeFault>(StatusView { version, ..m }),
        Status::merged(
            m,
            FieldView { tag: 1, payload: PayloadView::Other(wire) },
            depth,
        ) == Err::<StatusView, DecodeFault>(DecodeFault::WireType),
        Status::merged(
            m,
            FieldView { tag: 2, payload: PayloadView::Varint(bytes_read) },
            depth,
        ) == Ok::<StatusView, DecodeFault>(StatusView { bytes_read, ..m }),
        Status::merged(
            m,
            FieldView { tag: 2, payload: PayloadView::Other(wire) },
            depth,
        ) == Err::<StatusView, DecodeFault>(DecodeFault::WireType),
        Status::merged(
            m,
            FieldView { tag: 3, payload: PayloadView::Varint(bytes_written) },
            depth,
        ) == Ok::<StatusView, DecodeFault>(StatusView { bytes_written, ..m }),
        Status::merged(
            m,
            FieldView { tag: 3, payload: PayloadView::Other(wire) },
            depth,
        ) == Err::<StatusView, DecodeFault>(DecodeFault::WireType),
        Status::merged(
            m,
            FieldView { tag: 4, payload: PayloadView::Bits32(bytes_read_rate.bits) },
            depth,
        ) == Ok::<StatusView, DecodeFault>(StatusView { bytes_read_rate, ..m }),
        Status::merged(
            m,
            FieldView { tag: 4, payload: PayloadView::Other(wire) },
            depth,
        ) == Err::<StatusView, DecodeFault>(DecodeFault::WireType),
        Status::merged(
            m,
            FieldView { tag: 5, payload: PayloadView::Bits32(bytes_written_rate.bits) },
            depth,
        ) == Ok::<StatusView, DecodeFault>(StatusView { bytes_written_rate, ..m }),
        Status::merged(
            m,
            FieldView { tag: 5, payload: PayloadView::Other(wire) },
            depth,
        ) == Err::<StatusView, DecodeFault>(DecodeFault::WireType),
        Status::merged(
            m,
            FieldView { tag: 6, payload: PayloadView::Varint(rpcs_executed) },
            depth,
        ) == Ok::<StatusView, DecodeFault>(StatusView { rpcs_executed, ..m }),
        Status::merged(
            m,
            FieldView { tag: 6, payload: PayloadView::Other(wire) },
            depth,
        ) == Err::<StatusView, DecodeFault>(DecodeFault::WireType),
        Status::merged(
            m,
            FieldView { tag: 7, payload: PayloadView::Bits32(rpc_rate.bits) },
            depth,
        ) == Ok::<StatusView, DecodeFault>(StatusView { rpc_rate, ..m }),
        Status::merged(
            m,
            FieldView { tag: 7, payload: PayloadView::Other(wire) },
            depth,
        ) == Err::<StatusView, DecodeFault>(DecodeFault::WireType),
        Status::merged(
            m,
            FieldView { tag: 8, payload: PayloadView::Varint(one_rpc_per_update) },
            depth,
        ) == Ok::<StatusView, DecodeFault>(StatusView { one_rpc_per_update: one_rpc_per_update != 0, ..m }),
        Status::merged(
            m,
            FieldView { tag: 8, payload: PayloadView::Other(wire) },
            depth,
        ) == Err::<StatusView, DecodeFault>(DecodeFault::WireType),
        Status::merged(
            m,
            FieldView { tag: 9, payload: PayloadView::Varint(max_time_per_update as u64) },
            depth,
        ) == Ok::<StatusView, DecodeFault>(StatusView { max_time_per_update, ..m }),
        Status::merged(
            m,
            FieldView { tag: 9, payload: PayloadView::Other(wire) },
            depth,
        ) == Err::<StatusView, DecodeFault>(DecodeFault::WireType),
        Status::merged(
            m,
            FieldView { tag: 10, payload: PayloadView::Varint(adaptive_rate_control) },
            depth,
        ) == Ok::<StatusView, DecodeFault>(StatusView { adaptive_rate_control: adaptive_rate_control != 0, ..m }),
        Status::merged(
            m,
            FieldView { tag: 10, payload: PayloadView::Other(wire) },
            depth,
        ) == Err::<StatusView, DecodeFault>(DecodeFault::WireType),
        Status::merged(
            m,
            FieldView { tag: 11, payload: PayloadView::Varint(blocking_recv) },
            depth,
        ) == Ok::<StatusView, DecodeFault>(StatusView { blocking_recv: blocking_recv != 0, ..m }),
        Status::merged(
            m,
            FieldView { tag: 11, payload: PayloadView::Other(wire) },
            depth,
        ) == Err::<StatusView, DecodeFault>(DecodeFault::WireType),
        Status::merged(
            m,
            FieldView { tag: 12, payload: PayloadView::Varint(recv_timeout as u64) },
            depth,
        ) == Ok::<StatusView, DecodeFault>(StatusView { recv_timeout, ..m }),
        Status::merged(
            m,
            FieldView { tag: 12, payload: PayloadView::Other(wire) },
            depth,
        ) == Err::<StatusView, DecodeFault>(DecodeFault::WireType),
        Status::merged(
            m,
            FieldView { tag: 13, payload: PayloadView::Bits32(time_per_rpc_update.bits) },
            depth,
        ) == Ok::<StatusView, DecodeFault>(StatusView { time_per_rpc_update, ..m }),
        Status::merged(
            m,
            FieldView { tag: 13, payload: PayloadView::Other(wire) },
            depth,
        ) == Err::<StatusView, DecodeFault>(DecodeFault::WireType),
        Status::merged(
            m,
            FieldView { tag: 14, payload: PayloadView::Bits32(poll_time_per_rpc_update.bits) },
            depth,
        ) == Ok::<StatusView, DecodeFault>(StatusView { poll_time_per_rpc_update, ..m }),
        Status::merged(
            m,
            FieldView { tag: 14, payload: PayloadView::Other(wire) },
            depth,
        ) == Err::<StatusView, DecodeFault>(DecodeFault::WireType),
        Status::merged(
            m,
            FieldView { tag: 15, payload: PayloadView::Bits32(exec_time_per_rpc_update.bits) },
            depth,
        ) == Ok::<StatusView, DecodeFault>(StatusView { exec_time_per_rpc_update, ..m }),
        Status::merged(
            m,
            FieldView { tag: 15, payload: PayloadView::Other(wire) },
            depth,
        ) == Err::<StatusView, DecodeFault>(DecodeFault::WireType),
        Status::merged(
            m,
            FieldView { tag: 16, payload: PayloadView::Varint(stream_rpcs as u64) },
            depth,
        ) == Ok::<StatusView, DecodeFault>(StatusView { stream_rpcs, ..m }),
        Status::merged(
            m,
            FieldView { tag: 16, payload: PayloadView::Other(wire) },
            depth,
        ) == Err::<StatusView, DecodeFault>(DecodeFault::WireType),
        Status::merged(
            m,
            FieldView { tag: 17, payload: PayloadView::Varint(stream_rpcs_executed) },
            depth,
        ) == Ok::<StatusView, DecodeFault>(StatusView { stream_rpcs_executed, ..m }),
        Status::merged(
            m,
            FieldView { tag: 17, payload: PayloadView::Other(wire) },
            depth,
        ) == Err::<StatusView, DecodeFault>(DecodeFault::WireType),
        Status::merged(
            m,
            FieldView { tag: 18, payload: PayloadView::Bits32(stream_rpc_rate.bits) },
            depth,
        ) == Ok::<StatusView, DecodeFault>(StatusView { stream_rpc_rate, ..m }),
        Status::merged(
            m,
            FieldView { tag: 18, payload: PayloadView::Other(wire) },
            depth,
        ) == Err::<StatusView, DecodeFault>(DecodeFault::WireType),
        Status::merged(
            m,
            FieldView { tag: 19, payload: PayloadView::Bits32(time_per_stream_update.bits) },
            depth,
        ) == Ok::<StatusView, DecodeFault>(StatusView { time_per_stream_update, ..m }),
        Status::merged(
            m,
            FieldView { tag: 19, payload: PayloadView::Other(wire) },
            depth,
        ) == Err::<StatusView, DecodeFault>(DecodeFault::WireType),
{
    lemma_text(version);
    assert((max_time_per_update as u64) as u32 == max_time_per_update);
    assert((recv_timeout as u64) as u32 == recv_timeout);
    assert((stream_rpcs as u64) as u32 == stream_rpcs);
}

/// What each field of [`Class`] changes as it is read, whatever was there.
#[verifier::rlimit(40)]
pub proof fn class_fields_are_read(
    m: ClassView,
    depth: nat,
    wire: WireType,
    name: Seq<char>,
    documentation: Seq<char>,
)
    ensures
        Class::merged(
            m,
            FieldView { tag: 1, payload: PayloadView::Bytes(encode_utf8(name)) },
            depth,
        ) == Ok::<ClassView, DecodeFault>(ClassView { name, ..m }),
        Class::merged(
            m,
            FieldView { tag: 1, payload: PayloadView::Other(wire) },
            depth,
        ) == Err::<ClassView, DecodeFault>(DecodeFault::WireType),
        Class::merged(
            m,
            FieldView { tag: 2, payload: PayloadView::Bytes(encode_utf8(documentation)) },
            depth,
        ) == Ok::<ClassView, DecodeFault>(ClassView { documentation, ..m }),
        Class::merged(
            m,
            FieldView { tag: 2, payload: PayloadView::Other(wire) },
            depth,
        ) == Err::<ClassView, DecodeFault>(DecodeFault::WireType),
{
    lemma_text(name);
    lemma_text(documentation);
}

/// What each field of [`EnumerationValue`] changes as it is read, whatever was there.
#[verifier::rlimit(40)]
pub proof fn enumeration_value_fields_are_read(
    m: EnumerationValueView,
    depth: nat,
    wire: WireType,
    name: Seq<char>,
    value: i32,
    documentation: Seq<char>,
)
    ensures
        EnumerationValue::merged(
            m,
            FieldView { tag: 1, payload: PayloadView::Bytes(encode_utf8(name)) },
            depth,
        ) == Ok::<EnumerationValueView, DecodeFault>(EnumerationValueView { name, ..m }),
        EnumerationValue::merged(
            m,
            FieldView { tag: 1, payload: PayloadView::Other(wire) },
            depth,
        ) == Err::<EnumerationValueView, DecodeFault>(DecodeFault::WireType),
        EnumerationValue::merged(
            m,
            FieldView { tag: 2, payload: PayloadView::Varint(value as u64) },
            depth,
        ) == Ok::<EnumerationValueView, DecodeFault>(EnumerationValueView { value, ..m }),
        EnumerationValue::merged(
            m,
            FieldView { tag: 2, payload: PayloadView::Other(wire) },
            depth,
        ) == Err::<EnumerationValueView, DecodeFault>(DecodeFault::WireType),
        EnumerationValue::merged(
            m,
            FieldView { tag: 3, payload: PayloadView::Bytes(encode_utf8(documentation)) },
            depth,
        ) == Ok::<EnumerationValueView, DecodeFault>(EnumerationValueView { documentation, ..m }),
        EnumerationValue::merged(
            m,
            FieldView { tag: 3, payload: PayloadView::Other(wire) },
            depth,
        ) == Err::<EnumerationValueView, DecodeFault>(DecodeFault::WireType),
{
    lemma_text(name);
    lemma_i32_varint(value);
    lemma_text(documentation);
}

/// What each field of [`Enumeration`] changes as it is read, whatever was there.
#[verifier::rlimit(40)]
pub proof fn enumeration_fields_are_read(
    m: EnumerationView,
    depth: nat,
    wire: WireType,
    name: Seq<char>,
    values: EnumerationValueView,
    documentation: Seq<char>,
)
    ensures
        Enumeration::merged(
            m,
            FieldView { tag: 1, payload: PayloadView::Bytes(encode_utf8(name)) },
            depth,
        ) == Ok::<EnumerationView, DecodeFault>(EnumerationView { name, ..m }),
        Enumeration::merged(
            m,
            FieldView { tag: 1, payload: PayloadView::Other(wire) },
            depth,
        ) == Err::<EnumerationView, DecodeFault>(DecodeFault::WireType),
        arrives::<EnumerationValue>(values, depth) ==> Enumeration::merged(
            m,
            FieldView { tag: 2, payload: PayloadView::Bytes(message_bytes::<EnumerationValue>(values)) },
            depth,
        ) == Ok::<EnumerationView, DecodeFault>(EnumerationView { values: m.values.push(values), ..m }),
        Enumeration::merged(
            m,
            FieldView { tag: 2, payload: PayloadView::Other(wire) },
            depth,
        ) == Err::<EnumerationView, DecodeFault>(DecodeFault::WireType),
        Enumeration::merged(
            m,
            FieldView { tag: 3, payload: PayloadView::Bytes(encode_utf8(documentation)) },
            depth,
        ) == Ok::<EnumerationView, DecodeFault>(EnumerationView { documentation, ..m }),
        Enumeration::merged(
            m,
            FieldView { tag: 3, payload: PayloadView::Other(wire) },
            depth,
        ) == Err::<EnumerationView, DecodeFault>(DecodeFault::WireType),
{
    lemma_text(name);
    if arrives::<EnumerationValue>(values, depth) {
        lemma_inner_round_trip::<EnumerationValue>(values, (depth - 1) as nat);
    }
    lemma_text(documentation);
}

/// What each field of [`Exception`] changes as it is read, whatever was there.
#[verifier::rlimit(40)]
pub proof fn exception_fields_are_read(
    m: ExceptionView,
    depth: nat,
    wire: WireType,
    name: Seq<char>,
    documentation: Seq<char>,
)
    ensures
        Exception::merged(
            m,
            FieldView { tag: 1, payload: PayloadView::Bytes(encode_utf8(name)) },
            depth,
        ) == Ok::<ExceptionView, DecodeFault>(ExceptionView { name, ..m }),
        Exception::merged(
            m,
            FieldView { tag: 1, payload: PayloadView::Other(wire) },
            depth,
        ) == Err::<ExceptionView, DecodeFault>(DecodeFault::WireType),
        Exception::merged(
            m,
            FieldView { tag: 2, payload: PayloadView::Bytes(encode_utf8(documentation)) },
            depth,
        ) == Ok::<ExceptionView, DecodeFault>(ExceptionView { documentation, ..m }),
        Exception::merged(
            m,
            FieldView { tag: 2, payload: PayloadView::Other(wire) },
            depth,
        ) == Err::<ExceptionView, DecodeFault>(DecodeFault::WireType),
{
    lemma_text(name);
    lemma_text(documentation);
}

/// What each field of [`Parameter`] changes as it is read, whatever was there.
#[verifier::rlimit(40)]
pub proof fn parameter_fields_are_read(
    m: ParameterView,
    depth: nat,
    wire: WireType,
    name: Seq<char>,
    parameter_type: TypeView,
    default_value: Seq<u8>,
)
    ensures
        Parameter::merged(
            m,
            FieldView { tag: 1, payload: PayloadView::Bytes(encode_utf8(name)) },
            depth,
        ) == Ok::<ParameterView, DecodeFault>(ParameterView { name, ..m }),
        Parameter::merged(
            m,
            FieldView { tag: 1, payload: PayloadView::Other(wire) },
            depth,
        ) == Err::<ParameterView, DecodeFault>(DecodeFault::WireType),
        m.parameter_type is None && arrives::<Type>(parameter_type, depth) ==> Parameter::merged(
            m,
            FieldView { tag: 2, payload: PayloadView::Bytes(message_bytes::<Type>(parameter_type)) },
            depth,
        ) == Ok::<ParameterView, DecodeFault>(ParameterView { parameter_type: Some(parameter_type), ..m }),
        Parameter::merged(
            m,
            FieldView { tag: 2, payload: PayloadView::Other(wire) },
            depth,
        ) == Err::<ParameterView, DecodeFault>(DecodeFault::WireType),
        Parameter::merged(
            m,
            FieldView { tag: 3, payload: PayloadView::Bytes(default_value) },
            depth,
        ) == Ok::<ParameterView, DecodeFault>(ParameterView { default_value, ..m }),
        Parameter::merged(
            m,
            FieldView { tag: 3, payload: PayloadView::Other(wire) },
            depth,
        ) == Err::<ParameterView, DecodeFault>(DecodeFault::WireType),
{
    lemma_text(name);
    if arrives::<Type>(parameter_type, depth) {
        lemma_inner_round_trip::<Type>(parameter_type, (depth - 1) as nat);
    }
}

/// What each field of [`Procedure`] changes as it is read, whatever was there.
#[verifier::rlimit(40)]
pub proof fn procedure_fields_are_read(
    m: ProcedureView,
    depth: nat,
    wire: WireType,
    name: Seq<char>,
    parameters: ParameterView,
    return_type: TypeView,
    return_is_nullable: u64,
    documentation: Seq<char>,
    game_scenes: i32,
)
    ensures
        Procedure::merged(
            m,
            FieldView { tag: 1, payload: PayloadView::Bytes(encode_utf8(name)) },
            depth,
        ) == Ok::<ProcedureView, DecodeFault>(ProcedureView { name, ..m }),
        Procedure::merged(
            m,
            FieldView { tag: 1, payload: PayloadView::Other(wire) },
            depth,
        ) == Err::<ProcedureView, DecodeFault>(DecodeFault::WireType),
        arrives::<Parameter>(parameters, depth) ==> Procedure::merged(
            m,
            FieldView { tag: 2, payload: PayloadView::Bytes(message_bytes::<Parameter>(parameters)) },
            depth,
        ) == Ok::<ProcedureView, DecodeFault>(ProcedureView { parameters: m.parameters.push(parameters), ..m }),
        Procedure::merged(
            m,
            FieldView { tag: 2, payload: PayloadView::Other(wire) },
            depth,
        ) == Err::<ProcedureView, DecodeFault>(DecodeFault::WireType),
        m.return_type is None && arrives::<Type>(return_type, depth) ==> Procedure::merged(
            m,
            FieldView { tag: 3, payload: PayloadView::Bytes(message_bytes::<Type>(return_type)) },
            depth,
        ) == Ok::<ProcedureView, DecodeFault>(ProcedureView { return_type: Some(return_type), ..m }),
        Procedure::merged(
            m,
            FieldView { tag: 3, payload: PayloadView::Other(wire) },
            depth,
        ) == Err::<ProcedureView, DecodeFault>(DecodeFault::WireType),
        Procedure::merged(
            m,
            FieldView { tag: 4, payload: PayloadView::Varint(return_is_nullable) },
            depth,
        ) == Ok::<ProcedureView, DecodeFault>(ProcedureView { return_is_nullable: return_is_nullable != 0, ..m }),
        Procedure::merged(
            m,
            FieldView { tag: 4, payload: PayloadView::Other(wire) },
            depth,
        ) == Err::<ProcedureView, DecodeFault>(DecodeFault::WireType),
        Procedure::merged(
            m,
            FieldView { tag: 5, payload: PayloadView::Bytes(encode_utf8(documentation)) },
            depth,
        ) == Ok::<ProcedureView, DecodeFault>(ProcedureView { documentation, ..m }),
        Procedure::merged(
            m,
            FieldView { tag: 5, payload: PayloadView::Other(wire) },
            depth,
        ) == Err::<ProcedureView, DecodeFault>(DecodeFault::WireType),
        Procedure::merged(
            m,
            FieldView { tag: 6, payload: PayloadView::Varint(game_scenes as u64) },
            depth,
        ) == Ok::<ProcedureView, DecodeFault>(ProcedureView { game_scenes: m.game_scenes.push(game_scenes), ..m }),
        Procedure::merged(
            m,
            FieldView { tag: 6, payload: PayloadView::Other(wire) },
            depth,
        ) == Err::<ProcedureView, DecodeFault>(DecodeFault::WireType),
{
    lemma_text(name);
    if arrives::<Parameter>(parameters, depth) {
        lemma_inner_round_trip::<Parameter>(parameters, (depth - 1) as nat);
    }
    if arrives::<Type>(return_type, depth) {
        lemma_inner_round_trip::<Type>(return_type, (depth - 1) as nat);
    }
    lemma_text(documentation);
    lemma_i32_varint(game_scenes);
}

/// What each field of [`Service`] changes as it is read, whatever was there.
#[verifier::rlimit(40)]
pub proof fn service_fields_are_read(
    m: ServiceView,
    depth: nat,
    wire: WireType,
    name: Seq<char>,
    procedures: ProcedureView,
    classes: ClassView,
    enumerations: EnumerationView,
    exceptions: ExceptionView,
    documentation: Seq<char>,
)
    ensures
        Service::merged(
            m,
            FieldView { tag: 1, payload: PayloadView::Bytes(encode_utf8(name)) },
            depth,
        ) == Ok::<ServiceView, DecodeFault>(ServiceView { name, ..m }),
        Service::merged(
            m,
            FieldView { tag: 1, payload: PayloadView::Other(wire) },
            depth,
        ) == Err::<ServiceView, DecodeFault>(DecodeFault::WireType),
        arrives::<Procedure>(procedures, depth) ==> Service::merged(
            m,
            FieldView { tag: 2, payload: PayloadView::Bytes(message_bytes::<Procedure>(procedures)) },
            depth,
        ) == Ok::<ServiceView, DecodeFault>(ServiceView { procedures: m.procedures.push(procedures), ..m }),
        Service::merged(
            m,
            FieldView { tag: 2, payload: PayloadView::Other(wire) },
            depth,
        ) == Err::<ServiceView, DecodeFault>(DecodeFault::WireType),
        arrives::<Class>(classes, depth) ==> Service::merged(
            m,
            FieldView { tag: 3, payload: PayloadView::Bytes(message_bytes::<Class>(classes)) },
            depth,
        ) == Ok::<ServiceView, DecodeFault>(ServiceView { classes: m.classes.push(classes), ..m }),
        Service::merged(
            m,
            FieldView { tag: 3, payload: PayloadView::Other(wire) },
            depth,
        ) == Err::<ServiceView, DecodeFault>(DecodeFault::WireType),
        arrives::<Enumeration>(enumerations, depth) ==> Service::merged(
            m,
            FieldView { tag: 4, payload: PayloadView::Bytes(message_bytes::<Enumeration>(enumerations)) },
            depth,
        ) == Ok::<ServiceView, DecodeFault>(ServiceView { enumerations: m.enumerations.push(enumerations), ..m }),
        Service::merged(
            m,
            FieldView { tag: 4, payload: PayloadView::Other(wire) },
            depth,
        ) == Err::<ServiceView, DecodeFault>(DecodeFault::WireType),
        arrives::<Exception>(exceptions, depth) ==> Service::merged(
            m,
            FieldView { tag: 5, payload: PayloadView::Bytes(message_bytes::<Exception>(exceptions)) },
            depth,
        ) == Ok::<ServiceView, DecodeFault>(ServiceView { exceptions: m.exceptions.push(exceptions), ..m }),
        Service::merged(
            m,
            FieldView { tag: 5, payload: PayloadView::Other(wire) },
            depth,
        ) == Err::<ServiceView, DecodeFault>(DecodeFault::WireType),
        Service::merged(
            m,
            FieldView { tag: 6, payload: PayloadView::Bytes(encode_utf8(documentation)) },
            depth,
        ) == Ok::<ServiceView, DecodeFault>(ServiceView { documentation, ..m }),
        Service::merged(
            m,
            FieldView { tag: 6, payload: PayloadView::Other(wire) },
            depth,
        ) == Err::<ServiceView, DecodeFault>(DecodeFault::WireType),
{
    lemma_text(name);
    if arrives::<Procedure>(procedures, depth) {
        lemma_inner_round_trip::<Procedure>(procedures, (depth - 1) as nat);
    }
    if arrives::<Class>(classes, depth) {
        lemma_inner_round_trip::<Class>(classes, (depth - 1) as nat);
    }
    if arrives::<Enumeration>(enumerations, depth) {
        lemma_inner_round_trip::<Enumeration>(enumerations, (depth - 1) as nat);
    }
    if arrives::<Exception>(exceptions, depth) {
        lemma_inner_round_trip::<Exception>(exceptions, (depth - 1) as nat);
    }
    lemma_text(documentation);
}

/// What each field of [`Services`] changes as it is read, whatever was there.
#[verifier::rlimit(40)]
pub proof fn services_fields_are_read(
    m: ServicesView,
    depth: nat,
    wire: WireType,
    services: ServiceView,
)
    ensures
        arrives::<Service>(services, depth) ==> Services::merged(
            m,
            FieldView { tag: 1, payload: PayloadView::Bytes(message_bytes::<Service>(services)) },
            depth,
        ) == Ok::<ServicesView, DecodeFault>(ServicesView { services: m.services.push(services), ..m }),
        Services::merged(
            m,
            FieldView { tag: 1, payload: PayloadView::Other(wire) },
            depth,
        ) == Err::<ServicesView, DecodeFault>(DecodeFault::WireType),
{
    if arrives::<Service>(services, depth) {
        lemma_inner_round_trip::<Service>(services, (depth - 1) as nat);
    }
}

/// What each field of [`ConnectionRequest`] changes as it is read, whatever was there.
#[verifier::rlimit(40)]
pub proof fn connection_request_fields_are_read(
    m: ConnectionRequestView,
    depth: nat,
    wire: WireType,
    type_code: i32,
    client_name: Seq<char>,
    client_identifier: Seq<u8>,
)
    ensures
        ConnectionRequest::merged(
            m,
            FieldView { tag: 1, payload: PayloadView::Varint(type_code as u64) },
            depth,
        ) == Ok::<ConnectionRequestView, DecodeFault>(ConnectionRequestView { type_code, ..m }),
        ConnectionRequest::merged(
            m,
            FieldView { tag: 1, payload: PayloadView::Other(wire) },
            depth,
        ) == Err::<ConnectionRequestView, DecodeFault>(DecodeFault::WireType),
        ConnectionRequest::merged(
            m,
            FieldView { tag: 2, payload: PayloadView::Bytes(encode_utf8(client_name)) },
            depth,
        ) == Ok::<ConnectionRequestView, DecodeFault>(ConnectionRequestView { client_name, ..m }),
        ConnectionRequest::merged(
            m,
            FieldView { tag: 2, payload: PayloadView::Other(wire) },
            depth,
        ) == Err::<ConnectionRequestView, DecodeFault>(DecodeFault::WireType),
        ConnectionRequest::merged(
            m,
            FieldView { tag: 3, payload: PayloadView::Bytes(client_identifier) },
            depth,
        ) == Ok::<ConnectionRequestView, DecodeFault>(ConnectionRequestView { client_identifier, ..m }),
        ConnectionRequest::merged(
            m,
            FieldView { tag: 3, payload: PayloadView::Other(wire) },
            depth,
        ) == Err::<ConnectionRequestView, DecodeFault>(DecodeFault::WireType),
{
    lemma_i32_varint(type_code);
    lemma_text(client_name);
}

/// What each field of [`ConnectionResponse`] changes as it is read, whatever was there.
#[verifier::rlimit(40)]
pub proof fn connection_response_fields_are_read(
    m: ConnectionResponseView,
    depth: nat,
    wire: WireType,
    status_code: i32,
    message: Seq<char>,
    client_identifier: Seq<u8>,
)
    ensures
        ConnectionResponse::merged(
            m,
            FieldView { tag: 1, payload: PayloadView::Varint(status_code as u64) },
            depth,
        ) == Ok::<ConnectionResponseView, DecodeFault>(ConnectionResponseView { status_code, ..m }),
        ConnectionResponse::merged(
            m,
            FieldView { tag: 1, payload: PayloadView::Other(wire) },
            depth,
        ) == Err::<ConnectionResponseView, DecodeFault>(DecodeFault::WireType),
        ConnectionResponse::merged(
            m,
            FieldView { tag: 2, payload: PayloadView::Bytes(encode_utf8(message)) },
            depth,
        ) == Ok::<ConnectionResponseView, DecodeFault>(ConnectionResponseView { message, ..m }),
        ConnectionResponse::merged(
            m,
            FieldView { tag: 2, payload: PayloadView::Other(wire) },
            depth,
        ) == Err::<ConnectionResponseView, DecodeFault>(DecodeFault::WireType),
        ConnectionResponse::merged(
            m,
            FieldView { tag: 3, payload: PayloadView::Bytes(client_identifier) },
            depth,
        ) == Ok::<ConnectionResponseView, DecodeFault>(ConnectionResponseView { client_identifier, ..m }),
        ConnectionResponse::merged(
            m,
            FieldView { tag: 3, payload: PayloadView::Other(wire) },
            depth,
        ) == Err::<ConnectionResponseView, DecodeFault>(DecodeFault::WireType),
{
    lemma_i32_varint(status_code);
    lemma_text(message);
}

/// What each field of [`Type`] changes as it is read, whatever was there.
#[verifier::rlimit(40)]
pub proof fn type_fields_are_read(
    m: TypeView,
    depth: nat,
    wire: WireType,
    code: i32,
    service: Seq<char>,
    name: Seq<char>,
    types: TypeView,
)
    ensures
        Type::merged(
            m,
            FieldView { tag: 1, payload: PayloadView::Varint(code as u64) },
            depth,
        ) == Ok::<TypeView, DecodeFault>(TypeView { code, ..m }),
        Type::merged(
            m,
            FieldView { tag: 1, payload: PayloadView::Other(wire) },
            depth,
        ) == Err::<TypeView, DecodeFault>(DecodeFault::WireType),
        Type::merged(
            m,
            FieldView { tag: 2, payload: PayloadView::Bytes(encode_utf8(service)) },
            depth,
        ) == Ok::<TypeView, DecodeFault>(TypeView { service, ..m }),
        Type::merged(
            m,
            FieldView { tag: 2, payload: PayloadView::Other(wire) },
            depth,
        ) == Err::<TypeView, DecodeFault>(DecodeFault::WireType),
        Type::merged(
            m,
            FieldView { tag: 3, payload: PayloadView::Bytes(encode_utf8(name)) },
            depth,
        ) == Ok::<TypeView, DecodeFault>(TypeView { name, ..m }),
        Type::merged(
            m,
            FieldView { tag: 3, payload: PayloadView::Other(wire) },
            depth,
        ) == Err::<TypeView, DecodeFault>(DecodeFault::WireType),
        arrives::<Type>(types, depth) ==> Type::merged(
            m,
            FieldView { tag: 4, payload: PayloadView::Bytes(message_bytes::<Type>(types)) },
            depth,
        ) == Ok::<TypeView, DecodeFault>(TypeView { types: m.types.push(types), ..m }),
        Type::merged(
            m,
            FieldView { tag: 4, payload: PayloadView::Other(wire) },
            depth,
        ) == Err::<TypeView, DecodeFault>(DecodeFault::WireType),
{
    lemma_i32_varint(code);
    lemma_text(service);
    lemma_text(name);
    if arrives::<Type>(types, depth) {
        lemma_type_arrives(types, (depth - 1) as nat);
    }
}

}
