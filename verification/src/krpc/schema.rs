//! The messages of the kRPC protocol.
use vstd::prelude::*;

use crate::codec::Float;
use crate::error::Malformed;
use crate::message::{
    bytes_of, float_of, merge_packed, merge_payload, number_of, put_bytes, put_flag, put_float,
    put_message, put_number, put_packed, put_repeated_bytes, put_repeated_messages, put_text,
    skip_unknown, text_of, Layout, Message,
};
use crate::wire::{put_bytes_field, take_field, Field, DEPTH_LIMIT};

verus! {

use crate::error::DecodeFault;
use crate::message::{
    bytes_field, bytes_in, flag, float_field, float_in, inner_reads_back, keeps, lemma_both_merge,
    lemma_chain_merges, lemma_field_fits, lemma_fields_concat, lemma_i32_varint,
    lemma_inner_round_trip, lemma_merge_written, lemma_one_field, lemma_one_merges, lemma_packed,
    lemma_plain_concat, lemma_plain_writable, lemma_put_more, lemma_text, merge_bytes, merge_fields,
    message_bytes, message_field, message_in, number_field, number_in, optional_view, packed_field,
    packed_in, plain, present_or_empty, repeated_bytes, repeated_messages, text_field, text_in,
    unknown_in, views,
};
use crate::wire::{
    fields_bytes, read_field, read_field_shortens, writable, FieldView, PayloadView,
};

/// The status that the server answers a handshake with.
#[derive(Clone, Copy, Debug, PartialEq, Eq, Structural)]
pub enum ConnectionStatus {
    Accepted,
    MalformedMessage,
    Timeout,
    WrongType,
}

/// What a connection is for.
#[derive(Clone, Copy, Debug, PartialEq, Eq, Structural)]
pub enum ConnectionType {
    Rpc,
    Stream,
}

/// A type of a parameter or a return value: the number of its kind, the
/// service and the name where it is a type of a service, and the types that it
/// is made of.
#[derive(Debug, PartialEq)]
pub struct Type {
    pub code: i32,
    pub service: String,
    pub name: String,
    pub types: Vec<Type>,
}

/// [`Type`] as a value.
#[verifier::ext_equal]
pub struct TypeView {
    pub code: i32,
    pub service: Seq<char>,
    pub name: Seq<char>,
    pub types: Seq<TypeView>,
}

/// The value of a type.
pub open spec fn type_view(t: Type) -> TypeView
    decreases t,
{
    TypeView { code: t.code, service: t.service@, name: t.name@, types: type_views(t.types@) }
}

/// The values of a run of types.
pub open spec fn type_views(ts: Seq<Type>) -> Seq<TypeView>
    decreases ts,
{
    if ts.len() == 0 {
        seq![]
    } else {
        type_views(ts.drop_last()).push(type_view(ts.last()))
    }
}

impl View for Type {
    type V = TypeView;

    open spec fn view(&self) -> TypeView {
        type_view(*self)
    }
}

proof fn lemma_type_views(ts: Seq<Type>)
    ensures
        type_views(ts) == views(ts),
    decreases ts.len(),
{
    if ts.len() > 0 {
        lemma_type_views(ts.drop_last());
    }
    assert(type_views(ts) =~= views(ts));
}

/// The fields that a type is written as.
pub open spec fn type_fields(m: TypeView) -> Seq<FieldView>
    decreases m,
{
    number_field(1, m.code as u64) + text_field(2, m.service) + text_field(3, m.name)
        + repeated_bytes(4, types_bytes(m.types))
}

/// The bytes of each of a run of types.
pub open spec fn types_bytes(ms: Seq<TypeView>) -> Seq<Seq<u8>>
    decreases ms,
{
    if ms.len() == 0 {
        seq![]
    } else {
        types_bytes(ms.drop_last()).push(fields_bytes(type_fields(ms.last())))
    }
}

proof fn lemma_types_bytes(ms: Seq<TypeView>)
    ensures
        types_bytes(ms).len() == ms.len(),
        forall|i: int|
            0 <= i < ms.len() ==> #[trigger] types_bytes(ms)[i] == fields_bytes(type_fields(ms[i])),
    decreases ms.len(),
{
    if ms.len() > 0 {
        lemma_types_bytes(ms.drop_last());
    }
}

/// The type after a field was merged into it.
pub open spec fn type_merged(m: TypeView, field: FieldView, depth: nat) -> Result<
    TypeView,
    DecodeFault,
>
    decreases depth, 0nat,
{
    match field.tag {
        1 => match number_in(field.payload) {
            Ok(value) => Ok(TypeView { code: value as i32, ..m }),
            Err(e) => Err(e),
        },
        2 => match text_in(field.payload) {
            Ok(service) => Ok(TypeView { service, ..m }),
            Err(e) => Err(e),
        },
        3 => match text_in(field.payload) {
            Ok(name) => Ok(TypeView { name, ..m }),
            Err(e) => Err(e),
        },
        4 => match bytes_in(field.payload) {
            Ok(run) => if depth == 0 {
                Err(DecodeFault::TooDeep)
            } else {
                match type_merge_bytes(empty_type(), run, (depth - 1) as nat) {
                    Ok(item) => Ok(TypeView { types: m.types.push(item), ..m }),
                    Err(e) => Err(e),
                }
            },
            Err(e) => Err(e),
        },
        _ => unknown_in(m, depth),
    }
}

/// The type after the fields that `bytes` hold were merged into it.
pub open spec fn type_merge_bytes(m: TypeView, bytes: Seq<u8>, depth: nat) -> Result<
    TypeView,
    DecodeFault,
>
    decreases depth, bytes.len(),
{
    if bytes.len() == 0 {
        Ok(m)
    } else {
        match read_field(bytes, depth) {
            Some((field, rest)) => match type_merged(m, field, depth) {
                Ok(m) => {
                    proof {
                        read_field_shortens(bytes, depth);
                    }
                    type_merge_bytes(m, rest, depth)
                },
                Err(e) => Err(e),
            },
            None => Err(DecodeFault::Wire),
        }
    }
}

/// The type without any field set.
pub open spec fn empty_type() -> TypeView {
    TypeView { code: 0, service: seq![], name: seq![], types: seq![] }
}

/// Whether a type is read back as it was written: with each type that it is
/// made of one off the depth.
pub open spec fn type_reads_back(m: TypeView, depth: nat) -> bool
    decreases m,
{
    types_read_back(m.types, depth)
}

/// Whether each of a run of types is read back inside a type.
pub open spec fn types_read_back(ms: Seq<TypeView>, depth: nat) -> bool
    decreases ms,
{
    ms.len() == 0 || (types_read_back(ms.drop_last(), depth) && depth > 0 && type_reads_back(
        ms.last(),
        (depth - 1) as nat,
    ))
}

impl Layout for Type {
    open spec fn empty() -> TypeView {
        empty_type()
    }

    open spec fn fields(m: TypeView) -> Seq<FieldView> {
        type_fields(m)
    }

    open spec fn merged(m: TypeView, field: FieldView, depth: nat) -> Result<
        TypeView,
        DecodeFault,
    > {
        type_merged(m, field, depth)
    }

    open spec fn reads_back(m: TypeView, depth: nat) -> bool {
        type_reads_back(m, depth)
    }

    open spec fn knows(tag: u32) -> bool {
        1 <= tag <= 4
    }
}

proof fn lemma_type_merge(m: TypeView, bytes: Seq<u8>, depth: nat)
    ensures
        merge_bytes::<Type>(m, bytes, depth) == type_merge_bytes(m, bytes, depth),
    decreases bytes.len(),
{
    if bytes.len() > 0 {
        read_field_shortens(bytes, depth);
        if let Some((field, rest)) = read_field(bytes, depth) {
            if let Ok(next) = type_merged(m, field, depth) {
                lemma_type_merge(next, rest, depth);
            }
        }
    }
}

fn put_type(t: &Type, buf: &mut Vec<u8>)
    ensures
        final(buf)@ == old(buf)@ + fields_bytes(type_fields(t@)),
    decreases t,
{
    let ghost m = t@;
    let ghost start = buf@;
    let ghost g1 = number_field(1, m.code as u64);
    let ghost g2 = text_field(2, m.service);
    let ghost g3 = text_field(3, m.name);
    let ghost g4 = repeated_bytes(4, types_bytes(m.types));
    put_number(1, t.code as u64, buf);
    let ghost before2 = buf@;
    put_text(2, t.service.as_str(), buf);
    let ghost before3 = buf@;
    put_text(3, t.name.as_str(), buf);
    let ghost before4 = buf@;
    proof {
        lemma_put_more(start, g1, g2, before2, before3);
        lemma_put_more(start, g1 + g2, g3, before3, before4);
        lemma_type_views(t.types@);
        lemma_types_bytes(m.types);
        assert(before4 =~= before4 + fields_bytes(g4.take(0)));
    }
    for i in 0..t.types.len()
        invariant
            m == t@,
            m.types == views(t.types@),
            g4 == repeated_bytes(4, types_bytes(m.types)),
            types_bytes(m.types).len() == m.types.len(),
            forall|j: int|
                0 <= j < m.types.len() ==> #[trigger] types_bytes(m.types)[j] == fields_bytes(
                    type_fields(m.types[j]),
                ),
            buf@ == before4 + fields_bytes(g4.take(i as int)),
    {
        proof {
            assert(decreases_to!(*t => t.types));
            assert(decreases_to!(t.types => t.types@));
            assert(decreases_to!(t.types@ => t.types@[i as int]));
        }
        let mut run: Vec<u8> = Vec::new();
        put_type(&t.types[i], &mut run);
        put_bytes_field(4, &run, buf);
        proof {
            assert(run@ =~= types_bytes(m.types)[i as int]);
            assert(g4.take(i + 1) =~= g4.take(i as int) + seq![g4[i as int]]);
            lemma_fields_concat(g4.take(i as int), seq![g4[i as int]]);
            lemma_one_field(g4[i as int]);
            assert(buf@ =~= before4 + fields_bytes(g4.take(i + 1)));
        }
    }
    proof {
        assert(g4.take(t.types@.len() as int) =~= g4);
        lemma_put_more(start, g1 + g2 + g3, g4, before4, buf@);
    }
}

fn merge_type(t: &mut Type, bytes: &[u8], depth: u32) -> (out: Result<(), Malformed>)
    requires
        depth <= DEPTH_LIMIT,
    ensures
        type_merge_bytes(old(t)@, bytes@, depth as nat) == match out {
            Ok(()) => Ok::<TypeView, DecodeFault>(final(t)@),
            Err(e) => Err::<TypeView, DecodeFault>(e@),
        },
    decreases depth, 1int,
{
    let mut rest = bytes;
    while rest.len() > 0
        invariant
            depth <= DEPTH_LIMIT,
            type_merge_bytes(t@, rest@, depth as nat) == type_merge_bytes(
                old(t)@,
                bytes@,
                depth as nat,
            ),
        decreases rest@.len(),
    {
        proof {
            read_field_shortens(rest@, depth as nat);
        }
        let (field, after) = take_field(rest, depth)?;
        merge_type_field(t, field, depth)?;
        rest = after;
    }
    Ok(())
}

fn merge_type_field(t: &mut Type, field: Field, depth: u32) -> (out: Result<(), Malformed>)
    requires
        depth <= DEPTH_LIMIT,
    ensures
        type_merged(old(t)@, field@, depth as nat) == match out {
            Ok(()) => Ok::<TypeView, DecodeFault>(final(t)@),
            Err(e) => Err::<TypeView, DecodeFault>(e@),
        },
    decreases depth, 0int,
{
    match field.tag {
        1 => {
            t.code = number_of(field.payload)? as i32;
        },
        2 => {
            t.service = text_of(field.payload)?;
        },
        3 => {
            t.name = text_of(field.payload)?;
        },
        4 => {
            let run = bytes_of(field.payload)?;
            if depth == 0 {
                return Err(Malformed::TooDeep);
            }
            let mut item = Type {
                code: 0,
                service: String::new(),
                name: String::new(),
                types: Vec::new(),
            };
            assert(item@ =~= empty_type());
            merge_type(&mut item, &run, depth - 1)?;
            t.types.push(item);
            proof {
                assert(t.types@.drop_last() =~= old(t).types@);
                assert(t@.types =~= old(t)@.types.push(item@));
            }
        },
        _ => {
            skip_unknown(depth)?;
        },
    }
    Ok(())
}

/// Whether each of a run of types is read as it is from its bytes.
spec fn types_come_back(ms: Seq<TypeView>, depth: nat) -> bool {
    forall|i: int|
        0 <= i < ms.len() ==> type_merge_bytes(
            empty_type(),
            #[trigger] types_bytes(ms)[i],
            depth,
        ) == Ok::<TypeView, DecodeFault>(ms[i])
}

proof fn lemma_types_merge(m: TypeView, ms: Seq<TypeView>, depth: nat)
    requires
        m.types.len() == 0,
        ms.len() > 0 ==> depth > 0 && types_come_back(ms, (depth - 1) as nat),
    ensures
        merge_fields::<Type>(m, repeated_bytes(4, types_bytes(ms)), depth) == Ok::<
            TypeView,
            DecodeFault,
        >(TypeView { types: ms, ..m }),
{
    let fields = repeated_bytes(4, types_bytes(ms));
    let states = Seq::new(ms.len() + 1, |i: int| TypeView { types: ms.take(i), ..m });
    lemma_types_bytes(ms);
    assert forall|i: int| 0 <= i < ms.len() implies Type::merged(
        #[trigger] states[i],
        fields[i],
        depth,
    ) == Ok::<TypeView, DecodeFault>(states[i + 1]) by {
        assert(fields[i].payload == PayloadView::Bytes(types_bytes(ms)[i]));
        assert(ms.take(i).push(ms[i]) =~= ms.take(i + 1));
    }
    assert(ms.take(0) =~= m.types);
    assert(ms.take(ms.len() as int) =~= ms);
    lemma_chain_merges::<Type>(states, fields, depth);
}

proof fn lemma_type_fields(m: TypeView, depth: nat)
    requires
        fields_bytes(type_fields(m)).len() <= u64::MAX,
        m.types.len() > 0 ==> depth > 0 && types_come_back(m.types, (depth - 1) as nat),
    ensures
        merge_fields::<Type>(empty_type(), type_fields(m), depth) == Ok::<TypeView, DecodeFault>(m),
        forall|i: int| 0 <= i < type_fields(m).len() ==> writable(#[trigger] type_fields(m)[i]),
{
    let m0 = empty_type();
    let g1 = number_field(1, m.code as u64);
    let g2 = text_field(2, m.service);
    let g3 = text_field(3, m.name);
    let g4 = repeated_bytes(4, types_bytes(m.types));
    let m1 = TypeView { code: m.code, ..m0 };
    lemma_i32_varint(m.code);
    lemma_one_merges::<Type>(m0, g1, m1, depth);
    let m2 = TypeView { service: m.service, ..m1 };
    lemma_text(m.service);
    lemma_one_merges::<Type>(m1, g2, m2, depth);
    lemma_both_merge::<Type>(m0, g1, m1, g2, m2, depth);
    let m3 = TypeView { name: m.name, ..m2 };
    lemma_text(m.name);
    lemma_one_merges::<Type>(m2, g3, m3, depth);
    lemma_both_merge::<Type>(m0, g1 + g2, m2, g3, m3, depth);
    lemma_types_merge(m3, m.types, depth);
    lemma_both_merge::<Type>(m0, g1 + g2 + g3, m3, g4, m, depth);
    lemma_plain_writable(type_fields(m));
}

proof fn lemma_type_comes_back(m: TypeView, depth: nat)
    requires
        fields_bytes(type_fields(m)).len() <= u64::MAX,
        type_reads_back(m, depth),
    ensures
        merge_fields::<Type>(empty_type(), type_fields(m), depth) == Ok::<TypeView, DecodeFault>(m),
        forall|i: int| 0 <= i < type_fields(m).len() ==> writable(#[trigger] type_fields(m)[i]),
        type_merge_bytes(empty_type(), fields_bytes(type_fields(m)), depth) == Ok::<
            TypeView,
            DecodeFault,
        >(m),
    decreases m,
{
    let front = number_field(1, m.code as u64) + text_field(2, m.service) + text_field(3, m.name);
    lemma_fields_concat(front, repeated_bytes(4, types_bytes(m.types)));
    lemma_types_come_back(m.types, depth);
    lemma_type_fields(m, depth);
    lemma_merge_written::<Type>(empty_type(), type_fields(m), depth);
    lemma_type_merge(empty_type(), fields_bytes(type_fields(m)), depth);
}

proof fn lemma_types_come_back(ms: Seq<TypeView>, depth: nat)
    requires
        fields_bytes(repeated_bytes(4, types_bytes(ms))).len() <= u64::MAX,
        types_read_back(ms, depth),
    ensures
        ms.len() > 0 ==> depth > 0 && types_come_back(ms, (depth - 1) as nat),
    decreases ms,
{
    if ms.len() > 0 {
        let front = ms.drop_last();
        let all = repeated_bytes(4, types_bytes(ms));
        let front_fields = repeated_bytes(4, types_bytes(front));
        lemma_types_bytes(ms);
        lemma_types_bytes(front);
        assert(all =~= front_fields + seq![all.last()]);
        lemma_fields_concat(front_fields, seq![all.last()]);
        lemma_field_fits(all, all.len() - 1);
        lemma_types_come_back(front, depth);
        lemma_type_comes_back(ms.last(), (depth - 1) as nat);
        assert forall|i: int| 0 <= i < ms.len() implies type_merge_bytes(
            empty_type(),
            #[trigger] types_bytes(ms)[i],
            (depth - 1) as nat,
        ) == Ok::<TypeView, DecodeFault>(ms[i]) by {
            if i < front.len() {
                assert(types_bytes(ms)[i] == types_bytes(front)[i]);
            }
        }
    }
}

pub(crate) proof fn lemma_type_arrives(m: TypeView, depth: nat)
    requires
        message_bytes::<Type>(m).len() <= u64::MAX,
        Type::reads_back(m, depth),
    ensures
        type_merge_bytes(empty_type(), message_bytes::<Type>(m), depth) == Ok::<
            TypeView,
            DecodeFault,
        >(m),
{
    lemma_type_comes_back(m, depth);
}

impl Message for Type {
    fn new() -> (m: Self) {
        let m = Type { code: 0, service: String::new(), name: String::new(), types: Vec::new() };
        assert(m@ =~= Type::empty());
        m
    }

    fn put_fields(&self, buf: &mut Vec<u8>) {
        put_type(self, buf);
    }

    fn merge_field(&mut self, field: Field, depth: u32) -> (out: Result<(), Malformed>) {
        merge_type_field(self, field, depth)
    }

    proof fn fields_give_message(m: TypeView, depth: nat) {
        lemma_type_comes_back(m, depth);
    }

    proof fn unknown_changes_nothing(m: TypeView, field: FieldView, depth: nat) {
    }
}

/// An argument of a procedure call: its position and its encoded value.
#[derive(Debug, PartialEq)]
pub struct Argument {
    pub position: u32,
    pub value: Vec<u8>,
}

/// [`Argument`] as a value.
#[verifier::ext_equal]
pub struct ArgumentView {
    pub position: u32,
    pub value: Seq<u8>,
}

impl View for Argument {
    type V = ArgumentView;

    open spec fn view(&self) -> ArgumentView {
        ArgumentView {
            position: self.position,
            value: self.value@,
        }
    }
}

impl Layout for Argument {
    open spec fn empty() -> ArgumentView {
        ArgumentView { position: 0, value: seq![] }
    }

    open spec fn fields(m: ArgumentView) -> Seq<FieldView> {
        number_field(1, m.position as u64) + bytes_field(2, m.value)
    }

    open spec fn merged(m: ArgumentView, field: FieldView, depth: nat) -> Result<
        ArgumentView,
        DecodeFault,
    > {
        match field.tag {
            1 => match number_in(field.payload) {
                Ok(value) => Ok(ArgumentView { position: value as u32, ..m }),
                Err(e) => Err(e),
            },
            2 => match bytes_in(field.payload) {
                Ok(value) => Ok(ArgumentView { value, ..m }),
                Err(e) => Err(e),
            },
            _ => unknown_in(m, depth),
        }
    }

    open spec fn reads_back(m: ArgumentView, depth: nat) -> bool {
        true
    }

    open spec fn knows(tag: u32) -> bool {
        1 <= tag <= 2
    }
}

impl Message for Argument {
    fn new() -> (m: Self) {
        let m = Argument { position: 0, value: Vec::new() };
        assert(m@ =~= Argument::empty());
        m
    }

    fn put_fields(&self, buf: &mut Vec<u8>) {
        proof {
            let m = self@;
            let g1 = number_field(1, m.position as u64);
            let g2 = bytes_field(2, m.value);
            lemma_fields_concat(g1, g2);
        }
        put_number(1, self.position as u64, buf);
        put_bytes(2, &self.value, buf);
        assert(buf@ =~= old(buf)@ + message_bytes::<Argument>(self@));
    }

    fn merge_field(&mut self, field: Field, depth: u32) -> (out: Result<(), Malformed>) {
        match field.tag {
            1 => {
                self.position = number_of(field.payload)? as u32;
            },
            2 => {
                self.value = bytes_of(field.payload)?;
            },
            _ => {
                skip_unknown(depth)?;
            },
        }
        Ok(())
    }

    proof fn fields_give_message(m: ArgumentView, depth: nat) {
        let m0 = Argument::empty();
        let g1 = number_field(1, m.position as u64);
        let g2 = bytes_field(2, m.value);
        let m1 = ArgumentView { position: m.position, ..m0 };
        lemma_one_merges::<Argument>(m0, g1, m1, depth);
        let m2 = ArgumentView { value: m.value, ..m1 };
        assert(m.value.len() == 0 ==> m.value =~= seq![]);
        lemma_one_merges::<Argument>(m1, g2, m2, depth);
        lemma_both_merge::<Argument>(m0, g1, m1, g2, m2, depth);
        assert(m2 =~= m);
        lemma_plain_writable(Argument::fields(m));
    }

    proof fn unknown_changes_nothing(m: ArgumentView, field: FieldView, depth: nat) {
    }
}

/// A call of a procedure of a service. The two ids stand for the names where the
/// names are empty; this library leaves them zero.
#[derive(Debug, PartialEq)]
pub struct ProcedureCall {
    pub service: String,
    pub procedure: String,
    pub arguments: Vec<Argument>,
    pub service_id: u32,
    pub procedure_id: u32,
}

/// [`ProcedureCall`] as a value.
#[verifier::ext_equal]
pub struct ProcedureCallView {
    pub service: Seq<char>,
    pub procedure: Seq<char>,
    pub arguments: Seq<ArgumentView>,
    pub service_id: u32,
    pub procedure_id: u32,
}

impl View for ProcedureCall {
    type V = ProcedureCallView;

    open spec fn view(&self) -> ProcedureCallView {
        ProcedureCallView {
            service: self.service@,
            procedure: self.procedure@,
            arguments: views(self.arguments@),
            service_id: self.service_id,
            procedure_id: self.procedure_id,
        }
    }
}

impl Layout for ProcedureCall {
    open spec fn empty() -> ProcedureCallView {
        ProcedureCallView {
            service: seq![],
            procedure: seq![],
            arguments: seq![],
            service_id: 0,
            procedure_id: 0,
        }
    }

    open spec fn fields(m: ProcedureCallView) -> Seq<FieldView> {
        text_field(1, m.service) + text_field(2, m.procedure)
            + repeated_messages::<Argument>(3, m.arguments) + number_field(4, m.service_id as u64)
            + number_field(5, m.procedure_id as u64)
    }

    open spec fn merged(m: ProcedureCallView, field: FieldView, depth: nat) -> Result<
        ProcedureCallView,
        DecodeFault,
    > {
        match field.tag {
            1 => match text_in(field.payload) {
                Ok(service) => Ok(ProcedureCallView { service, ..m }),
                Err(e) => Err(e),
            },
            2 => match text_in(field.payload) {
                Ok(procedure) => Ok(ProcedureCallView { procedure, ..m }),
                Err(e) => Err(e),
            },
            3 => match message_in::<Argument>(Argument::empty(), field.payload, depth) {
                Ok(item) => Ok(ProcedureCallView { arguments: m.arguments.push(item), ..m }),
                Err(e) => Err(e),
            },
            4 => match number_in(field.payload) {
                Ok(value) => Ok(ProcedureCallView { service_id: value as u32, ..m }),
                Err(e) => Err(e),
            },
            5 => match number_in(field.payload) {
                Ok(value) => Ok(ProcedureCallView { procedure_id: value as u32, ..m }),
                Err(e) => Err(e),
            },
            _ => unknown_in(m, depth),
        }
    }

    open spec fn reads_back(m: ProcedureCallView, depth: nat) -> bool {
        &&& forall|i: int|
            0 <= i < m.arguments.len() ==> inner_reads_back::<Argument>(
                #[trigger] m.arguments[i],
                depth,
            )
    }

    open spec fn knows(tag: u32) -> bool {
        1 <= tag <= 5
    }
}

impl Message for ProcedureCall {
    fn new() -> (m: Self) {
        let m = ProcedureCall {
            service: String::new(),
            procedure: String::new(),
            arguments: Vec::new(),
            service_id: 0,
            procedure_id: 0,
        };
        assert(m@ =~= ProcedureCall::empty());
        m
    }

    fn put_fields(&self, buf: &mut Vec<u8>) {
        proof {
            let m = self@;
            let g1 = text_field(1, m.service);
            let g2 = text_field(2, m.procedure);
            let g3 = repeated_messages::<Argument>(3, m.arguments);
            let g4 = number_field(4, m.service_id as u64);
            let g5 = number_field(5, m.procedure_id as u64);
            lemma_fields_concat(g1, g2);
            lemma_fields_concat(g1 + g2, g3);
            lemma_fields_concat(g1 + g2 + g3, g4);
            lemma_fields_concat(g1 + g2 + g3 + g4, g5);
        }
        put_text(1, self.service.as_str(), buf);
        put_text(2, self.procedure.as_str(), buf);
        put_repeated_messages(3, &self.arguments, buf);
        put_number(4, self.service_id as u64, buf);
        put_number(5, self.procedure_id as u64, buf);
        assert(buf@ =~= old(buf)@ + message_bytes::<ProcedureCall>(self@));
    }

    fn merge_field(&mut self, field: Field, depth: u32) -> (out: Result<(), Malformed>) {
        match field.tag {
            1 => {
                self.service = text_of(field.payload)?;
            },
            2 => {
                self.procedure = text_of(field.payload)?;
            },
            3 => {
                let mut item = Argument::new();
                merge_payload(&mut item, field.payload, depth)?;
                self.arguments.push(item);
                assert(views(self.arguments@) =~= views(old(self).arguments@).push(item@));
            },
            4 => {
                self.service_id = number_of(field.payload)? as u32;
            },
            5 => {
                self.procedure_id = number_of(field.payload)? as u32;
            },
            _ => {
                skip_unknown(depth)?;
            },
        }
        Ok(())
    }

    proof fn fields_give_message(m: ProcedureCallView, depth: nat) {
        let m0 = ProcedureCall::empty();
        let g1 = text_field(1, m.service);
        let g2 = text_field(2, m.procedure);
        let g3 = repeated_messages::<Argument>(3, m.arguments);
        let g4 = number_field(4, m.service_id as u64);
        let g5 = number_field(5, m.procedure_id as u64);
        let m1 = ProcedureCallView { service: m.service, ..m0 };
        lemma_text(m.service);
        lemma_one_merges::<ProcedureCall>(m0, g1, m1, depth);
        let m2 = ProcedureCallView { procedure: m.procedure, ..m1 };
        lemma_text(m.procedure);
        lemma_one_merges::<ProcedureCall>(m1, g2, m2, depth);
        lemma_both_merge::<ProcedureCall>(m0, g1, m1, g2, m2, depth);
        let m3 = ProcedureCallView { arguments: m.arguments, ..m2 };
        let states = Seq::new(
            m.arguments.len() + 1,
            |i: int| ProcedureCallView { arguments: m.arguments.take(i), ..m2 },
        );
        assert forall|i: int| 0 <= i < m.arguments.len() implies ProcedureCall::merged(
            #[trigger] states[i],
            g3[i],
            depth,
        ) == Ok::<ProcedureCallView, DecodeFault>(states[i + 1]) by {
            assert(ProcedureCall::fields(m)[(g1 + g2).len() + i] == g3[i]);
            lemma_field_fits(ProcedureCall::fields(m), (g1 + g2).len() + i);
            lemma_inner_round_trip::<Argument>(m.arguments[i], (depth - 1) as nat);
            assert(m.arguments.take(i).push(m.arguments[i]) =~= m.arguments.take(i + 1));
        }
        assert(states[0] =~= m2);
        assert(states.last() =~= m3);
        lemma_chain_merges::<ProcedureCall>(states, g3, depth);
        lemma_both_merge::<ProcedureCall>(m0, g1 + g2, m2, g3, m3, depth);
        let m4 = ProcedureCallView { service_id: m.service_id, ..m3 };
        lemma_one_merges::<ProcedureCall>(m3, g4, m4, depth);
        lemma_both_merge::<ProcedureCall>(m0, g1 + g2 + g3, m3, g4, m4, depth);
        let m5 = ProcedureCallView { procedure_id: m.procedure_id, ..m4 };
        lemma_one_merges::<ProcedureCall>(m4, g5, m5, depth);
        lemma_both_merge::<ProcedureCall>(m0, g1 + g2 + g3 + g4, m4, g5, m5, depth);
        assert(m5 =~= m);
        lemma_plain_writable(ProcedureCall::fields(m));
    }

    proof fn unknown_changes_nothing(m: ProcedureCallView, field: FieldView, depth: nat) {
    }
}

/// What a client sends: the calls that it makes.
#[derive(Debug, PartialEq)]
pub struct Request {
    pub calls: Vec<ProcedureCall>,
}

/// [`Request`] as a value.
#[verifier::ext_equal]
pub struct RequestView {
    pub calls: Seq<ProcedureCallView>,
}

impl View for Request {
    type V = RequestView;

    open spec fn view(&self) -> RequestView {
        RequestView {
            calls: views(self.calls@),
        }
    }
}

impl Layout for Request {
    open spec fn empty() -> RequestView {
        RequestView { calls: seq![] }
    }

    open spec fn fields(m: RequestView) -> Seq<FieldView> {
        repeated_messages::<ProcedureCall>(1, m.calls)
    }

    open spec fn merged(m: RequestView, field: FieldView, depth: nat) -> Result<
        RequestView,
        DecodeFault,
    > {
        match field.tag {
            1 => match message_in::<ProcedureCall>(ProcedureCall::empty(), field.payload, depth) {
                Ok(item) => Ok(RequestView { calls: m.calls.push(item), ..m }),
                Err(e) => Err(e),
            },
            _ => unknown_in(m, depth),
        }
    }

    open spec fn reads_back(m: RequestView, depth: nat) -> bool {
        &&& forall|i: int|
            0 <= i < m.calls.len() ==> inner_reads_back::<ProcedureCall>(
                #[trigger] m.calls[i],
                depth,
            )
    }

    open spec fn knows(tag: u32) -> bool {
        1 <= tag <= 1
    }
}

impl Message for Request {
    fn new() -> (m: Self) {
        let m = Request { calls: Vec::new() };
        assert(m@ =~= Request::empty());
        m
    }

    fn put_fields(&self, buf: &mut Vec<u8>) {
        put_repeated_messages(1, &self.calls, buf);
        assert(buf@ =~= old(buf)@ + message_bytes::<Request>(self@));
    }

    fn merge_field(&mut self, field: Field, depth: u32) -> (out: Result<(), Malformed>) {
        match field.tag {
            1 => {
                let mut item = ProcedureCall::new();
                merge_payload(&mut item, field.payload, depth)?;
                self.calls.push(item);
                assert(views(self.calls@) =~= views(old(self).calls@).push(item@));
            },
            _ => {
                skip_unknown(depth)?;
            },
        }
        Ok(())
    }

    proof fn fields_give_message(m: RequestView, depth: nat) {
        let m0 = Request::empty();
        let g1 = repeated_messages::<ProcedureCall>(1, m.calls);
        let m1 = RequestView { calls: m.calls, ..m0 };
        let states = Seq::new(
            m.calls.len() + 1,
            |i: int| RequestView { calls: m.calls.take(i), ..m0 },
        );
        assert forall|i: int| 0 <= i < m.calls.len() implies Request::merged(
            #[trigger] states[i],
            g1[i],
            depth,
        ) == Ok::<RequestView, DecodeFault>(states[i + 1]) by {
            assert(Request::fields(m)[i] == g1[i]);
            lemma_field_fits(Request::fields(m), i);
            lemma_inner_round_trip::<ProcedureCall>(m.calls[i], (depth - 1) as nat);
            assert(m.calls.take(i).push(m.calls[i]) =~= m.calls.take(i + 1));
        }
        assert(states[0] =~= m0);
        assert(states.last() =~= m1);
        lemma_chain_merges::<Request>(states, g1, depth);
        assert(m1 =~= m);
        lemma_plain_writable(Request::fields(m));
    }

    proof fn unknown_changes_nothing(m: RequestView, field: FieldView, depth: nat) {
    }
}

/// What the server reports of a failure.
#[derive(Debug, PartialEq)]
pub struct Error {
    pub service: String,
    pub name: String,
    pub description: String,
    pub stack_trace: String,
}

/// [`Error`] as a value.
#[verifier::ext_equal]
pub struct ErrorView {
    pub service: Seq<char>,
    pub name: Seq<char>,
    pub description: Seq<char>,
    pub stack_trace: Seq<char>,
}

impl View for Error {
    type V = ErrorView;

    open spec fn view(&self) -> ErrorView {
        ErrorView {
            service: self.service@,
            name: self.name@,
            description: self.description@,
            stack_trace: self.stack_trace@,
        }
    }
}

impl Layout for Error {
    open spec fn empty() -> ErrorView {
        ErrorView { service: seq![], name: seq![], description: seq![], stack_trace: seq![] }
    }

    open spec fn fields(m: ErrorView) -> Seq<FieldView> {
        text_field(1, m.service) + text_field(2, m.name) + text_field(3, m.description)
            + text_field(4, m.stack_trace)
    }

    open spec fn merged(m: ErrorView, field: FieldView, depth: nat) -> Result<
        ErrorView,
        DecodeFault,
    > {
        match field.tag {
            1 => match text_in(field.payload) {
                Ok(service) => Ok(ErrorView { service, ..m }),
                Err(e) => Err(e),
            },
            2 => match text_in(field.payload) {
                Ok(name) => Ok(ErrorView { name, ..m }),
                Err(e) => Err(e),
            },
            3 => match text_in(field.payload) {
                Ok(description) => Ok(ErrorView { description, ..m }),
                Err(e) => Err(e),
            },
            4 => match text_in(field.payload) {
                Ok(stack_trace) => Ok(ErrorView { stack_trace, ..m }),
                Err(e) => Err(e),
            },
            _ => unknown_in(m, depth),
        }
    }

    open spec fn reads_back(m: ErrorView, depth: nat) -> bool {
        true
    }

    open spec fn knows(tag: u32) -> bool {
        1 <= tag <= 4
    }
}

impl Message for Error {
    fn new() -> (m: Self) {
        let m = Error {
            service: String::new(),
            name: String::new(),
            description: String::new(),
            stack_trace: String::new(),
        };
        assert(m@ =~= Error::empty());
        m
    }

    fn put_fields(&self, buf: &mut Vec<u8>) {
        proof {
            let m = self@;
            let g1 = text_field(1, m.service);
            let g2 = text_field(2, m.name);
            let g3 = text_field(3, m.description);
            let g4 = text_field(4, m.stack_trace);
            lemma_fields_concat(g1, g2);
            lemma_fields_concat(g1 + g2, g3);
            lemma_fields_concat(g1 + g2 + g3, g4);
        }
        put_text(1, self.service.as_str(), buf);
        put_text(2, self.name.as_str(), buf);
        put_text(3, self.description.as_str(), buf);
        put_text(4, self.stack_trace.as_str(), buf);
        assert(buf@ =~= old(buf)@ + message_bytes::<Error>(self@));
    }

    fn merge_field(&mut self, field: Field, depth: u32) -> (out: Result<(), Malformed>) {
        match field.tag {
            1 => {
                self.service = text_of(field.payload)?;
            },
            2 => {
                self.name = text_of(field.payload)?;
            },
            3 => {
                self.description = text_of(field.payload)?;
            },
            4 => {
                self.stack_trace = text_of(field.payload)?;
            },
            _ => {
                skip_unknown(depth)?;
            },
        }
        Ok(())
    }

    proof fn fields_give_message(m: ErrorView, depth: nat) {
        let m0 = Error::empty();
        let g1 = text_field(1, m.service);
        let g2 = text_field(2, m.name);
        let g3 = text_field(3, m.description);
        let g4 = text_field(4, m.stack_trace);
        let m1 = ErrorView { service: m.service, ..m0 };
        lemma_text(m.service);
        lemma_one_merges::<Error>(m0, g1, m1, depth);
        let m2 = ErrorView { name: m.name, ..m1 };
        lemma_text(m.name);
        lemma_one_merges::<Error>(m1, g2, m2, depth);
        lemma_both_merge::<Error>(m0, g1, m1, g2, m2, depth);
        let m3 = ErrorView { description: m.description, ..m2 };
        lemma_text(m.description);
        lemma_one_merges::<Error>(m2, g3, m3, depth);
        lemma_both_merge::<Error>(m0, g1 + g2, m2, g3, m3, depth);
        let m4 = ErrorView { stack_trace: m.stack_trace, ..m3 };
        lemma_text(m.stack_trace);
        lemma_one_merges::<Error>(m3, g4, m4, depth);
        lemma_both_merge::<Error>(m0, g1 + g2 + g3, m3, g4, m4, depth);
        assert(m4 =~= m);
        lemma_plain_writable(Error::fields(m));
    }

    proof fn unknown_changes_nothing(m: ErrorView, field: FieldView, depth: nat) {
    }
}

/// The outcome of one call: an error, or else the encoded value.
#[derive(Debug, PartialEq)]
pub struct ProcedureResult {
    pub error: Option<Error>,
    pub value: Vec<u8>,
}

/// [`ProcedureResult`] as a value.
#[verifier::ext_equal]
pub struct ProcedureResultView {
    pub error: Option<ErrorView>,
    pub value: Seq<u8>,
}

impl View for ProcedureResult {
    type V = ProcedureResultView;

    open spec fn view(&self) -> ProcedureResultView {
        ProcedureResultView {
            error: optional_view(self.error),
            value: self.value@,
        }
    }
}

impl Layout for ProcedureResult {
    open spec fn empty() -> ProcedureResultView {
        ProcedureResultView { error: None, value: seq![] }
    }

    open spec fn fields(m: ProcedureResultView) -> Seq<FieldView> {
        message_field::<Error>(1, m.error) + bytes_field(2, m.value)
    }

    open spec fn merged(m: ProcedureResultView, field: FieldView, depth: nat) -> Result<
        ProcedureResultView,
        DecodeFault,
    > {
        match field.tag {
            1 => match message_in::<Error>(
                present_or_empty::<Error>(m.error),
                field.payload,
                depth,
            ) {
                Ok(error) => Ok(ProcedureResultView { error: Some(error), ..m }),
                Err(e) => Err(e),
            },
            2 => match bytes_in(field.payload) {
                Ok(value) => Ok(ProcedureResultView { value, ..m }),
                Err(e) => Err(e),
            },
            _ => unknown_in(m, depth),
        }
    }

    open spec fn reads_back(m: ProcedureResultView, depth: nat) -> bool {
        &&& m.error matches Some(error) ==> inner_reads_back::<Error>(error, depth)
    }

    open spec fn knows(tag: u32) -> bool {
        1 <= tag <= 2
    }
}

impl Message for ProcedureResult {
    fn new() -> (m: Self) {
        let m = ProcedureResult { error: None, value: Vec::new() };
        assert(m@ =~= ProcedureResult::empty());
        m
    }

    fn put_fields(&self, buf: &mut Vec<u8>) {
        proof {
            let m = self@;
            let g1 = message_field::<Error>(1, m.error);
            let g2 = bytes_field(2, m.value);
            lemma_fields_concat(g1, g2);
        }
        put_message(1, &self.error, buf);
        put_bytes(2, &self.value, buf);
        assert(buf@ =~= old(buf)@ + message_bytes::<ProcedureResult>(self@));
    }

    fn merge_field(&mut self, field: Field, depth: u32) -> (out: Result<(), Malformed>) {
        match field.tag {
            1 => {
                let mut error = match self.error.take() {
                    Some(error) => error,
                    None => Error::new(),
                };
                merge_payload(&mut error, field.payload, depth)?;
                self.error = Some(error);
            },
            2 => {
                self.value = bytes_of(field.payload)?;
            },
            _ => {
                skip_unknown(depth)?;
            },
        }
        Ok(())
    }

    proof fn fields_give_message(m: ProcedureResultView, depth: nat) {
        let m0 = ProcedureResult::empty();
        let g1 = message_field::<Error>(1, m.error);
        let g2 = bytes_field(2, m.value);
        let m1 = ProcedureResultView { error: m.error, ..m0 };
        if let Some(error) = m.error {
            lemma_field_fits(ProcedureResult::fields(m), 0);
            lemma_inner_round_trip::<Error>(error, (depth - 1) as nat);
        }
        lemma_one_merges::<ProcedureResult>(m0, g1, m1, depth);
        let m2 = ProcedureResultView { value: m.value, ..m1 };
        assert(m.value.len() == 0 ==> m.value =~= seq![]);
        lemma_one_merges::<ProcedureResult>(m1, g2, m2, depth);
        lemma_both_merge::<ProcedureResult>(m0, g1, m1, g2, m2, depth);
        assert(m2 =~= m);
        lemma_plain_writable(ProcedureResult::fields(m));
    }

    proof fn unknown_changes_nothing(m: ProcedureResultView, field: FieldView, depth: nat) {
    }
}

/// What the server answers a request with: an error of the request as a whole, or
/// else one result for each call.
#[derive(Debug, PartialEq)]
pub struct Response {
    pub error: Option<Error>,
    pub results: Vec<ProcedureResult>,
}

/// [`Response`] as a value.
#[verifier::ext_equal]
pub struct ResponseView {
    pub error: Option<ErrorView>,
    pub results: Seq<ProcedureResultView>,
}

impl View for Response {
    type V = ResponseView;

    open spec fn view(&self) -> ResponseView {
        ResponseView {
            error: optional_view(self.error),
            results: views(self.results@),
        }
    }
}

impl Layout for Response {
    open spec fn empty() -> ResponseView {
        ResponseView { error: None, results: seq![] }
    }

    open spec fn fields(m: ResponseView) -> Seq<FieldView> {
        message_field::<Error>(1, m.error) + repeated_messages::<ProcedureResult>(2, m.results)
    }

    open spec fn merged(m: ResponseView, field: FieldView, depth: nat) -> Result<
        ResponseView,
        DecodeFault,
    > {
        match field.tag {
            1 => match message_in::<Error>(
                present_or_empty::<Error>(m.error),
                field.payload,
                depth,
            ) {
                Ok(error) => Ok(ResponseView { error: Some(error), ..m }),
                Err(e) => Err(e),
            },
            2 => match message_in::<ProcedureResult>(
                ProcedureResult::empty(),
                field.payload,
                depth,
            ) {
                Ok(item) => Ok(ResponseView { results: m.results.push(item), ..m }),
                Err(e) => Err(e),
            },
            _ => unknown_in(m, depth),
        }
    }

    open spec fn reads_back(m: ResponseView, depth: nat) -> bool {
        &&& m.error matches Some(error) ==> inner_reads_back::<Error>(error, depth)
        &&& forall|i: int|
            0 <= i < m.results.len() ==> inner_reads_back::<ProcedureResult>(
                #[trigger] m.results[i],
                depth,
            )
    }

    open spec fn knows(tag: u32) -> bool {
        1 <= tag <= 2
    }
}

impl Message for Response {
    fn new() -> (m: Self) {
        let m = Response { error: None, results: Vec::new() };
        assert(m@ =~= Response::empty());
        m
    }

    fn put_fields(&self, buf: &mut Vec<u8>) {
        proof {
            let m = self@;
            let g1 = message_field::<Error>(1, m.error);
            let g2 = repeated_messages::<ProcedureResult>(2, m.results);
            lemma_fields_concat(g1, g2);
        }
        put_message(1, &self.error, buf);
        put_repeated_messages(2, &self.results, buf);
        assert(buf@ =~= old(buf)@ + message_bytes::<Response>(self@));
    }

    fn merge_field(&mut self, field: Field, depth: u32) -> (out: Result<(), Malformed>) {
        match field.tag {
            1 => {
                let mut error = match self.error.take() {
                    Some(error) => error,
                    None => Error::new(),
                };
                merge_payload(&mut error, field.payload, depth)?;
                self.error = Some(error);
            },
            2 => {
                let mut item = ProcedureResult::new();
                merge_payload(&mut item, field.payload, depth)?;
                self.results.push(item);
                assert(views(self.results@) =~= views(old(self).results@).push(item@));
            },
            _ => {
                skip_unknown(depth)?;
            },
        }
        Ok(())
    }

    proof fn fields_give_message(m: ResponseView, depth: nat) {
        let m0 = Response::empty();
        let g1 = message_field::<Error>(1, m.error);
        let g2 = repeated_messages::<ProcedureResult>(2, m.results);
        let m1 = ResponseView { error: m.error, ..m0 };
        if let Some(error) = m.error {
            lemma_field_fits(Response::fields(m), 0);
            lemma_inner_round_trip::<Error>(error, (depth - 1) as nat);
        }
        lemma_one_merges::<Response>(m0, g1, m1, depth);
        let m2 = ResponseView { results: m.results, ..m1 };
        let states = Seq::new(
            m.results.len() + 1,
            |i: int| ResponseView { results: m.results.take(i), ..m1 },
        );
        assert forall|i: int| 0 <= i < m.results.len() implies Response::merged(
            #[trigger] states[i],
            g2[i],
            depth,
        ) == Ok::<ResponseView, DecodeFault>(states[i + 1]) by {
            assert(Response::fields(m)[g1.len() + i] == g2[i]);
            lemma_field_fits(Response::fields(m), g1.len() + i);
            lemma_inner_round_trip::<ProcedureResult>(m.results[i], (depth - 1) as nat);
            assert(m.results.take(i).push(m.results[i]) =~= m.results.take(i + 1));
        }
        assert(states[0] =~= m1);
        assert(states.last() =~= m2);
        lemma_chain_merges::<Response>(states, g2, depth);
        lemma_both_merge::<Response>(m0, g1, m1, g2, m2, depth);
        assert(m2 =~= m);
        lemma_plain_writable(Response::fields(m));
    }

    proof fn unknown_changes_nothing(m: ResponseView, field: FieldView, depth: nat) {
    }
}

/// The outcome of one execution of a streamed procedure.
#[derive(Debug, PartialEq)]
pub struct StreamResult {
    pub id: u64,
    pub result: Option<ProcedureResult>,
}

/// [`StreamResult`] as a value.
#[verifier::ext_equal]
pub struct StreamResultView {
    pub id: u64,
    pub result: Option<ProcedureResultView>,
}

impl View for StreamResult {
    type V = StreamResultView;

    open spec fn view(&self) -> StreamResultView {
        StreamResultView {
            id: self.id,
            result: optional_view(self.result),
        }
    }
}

impl Layout for StreamResult {
    open spec fn empty() -> StreamResultView {
        StreamResultView { id: 0, result: None }
    }

    open spec fn fields(m: StreamResultView) -> Seq<FieldView> {
        number_field(1, m.id) + message_field::<ProcedureResult>(2, m.result)
    }

    open spec fn merged(m: StreamResultView, field: FieldView, depth: nat) -> Result<
        StreamResultView,
        DecodeFault,
    > {
        match field.tag {
            1 => match number_in(field.payload) {
                Ok(value) => Ok(StreamResultView { id: value, ..m }),
                Err(e) => Err(e),
            },
            2 => match message_in::<ProcedureResult>(
                present_or_empty::<ProcedureResult>(m.result),
                field.payload,
                depth,
            ) {
                Ok(result) => Ok(StreamResultView { result: Some(result), ..m }),
                Err(e) => Err(e),
            },
            _ => unknown_in(m, depth),
        }
    }

    open spec fn reads_back(m: StreamResultView, depth: nat) -> bool {
        &&& m.result matches Some(result) ==> inner_reads_back::<ProcedureResult>(result, depth)
    }

    open spec fn knows(tag: u32) -> bool {
        1 <= tag <= 2
    }
}

impl Message for StreamResult {
    fn new() -> (m: Self) {
        let m = StreamResult { id: 0, result: None };
        assert(m@ =~= StreamResult::empty());
        m
    }

    fn put_fields(&self, buf: &mut Vec<u8>) {
        proof {
            let m = self@;
            let g1 = number_field(1, m.id);
            let g2 = message_field::<ProcedureResult>(2, m.result);
            lemma_fields_concat(g1, g2);
        }
        put_number(1, self.id, buf);
        put_message(2, &self.result, buf);
        assert(buf@ =~= old(buf)@ + message_bytes::<StreamResult>(self@));
    }

    fn merge_field(&mut self, field: Field, depth: u32) -> (out: Result<(), Malformed>) {
        match field.tag {
            1 => {
                self.id = number_of(field.payload)?;
            },
            2 => {
                let mut result = match self.result.take() {
                    Some(result) => result,
                    None => ProcedureResult::new(),
                };
                merge_payload(&mut result, field.payload, depth)?;
                self.result = Some(result);
            },
            _ => {
                skip_unknown(depth)?;
            },
        }
        Ok(())
    }

    proof fn fields_give_message(m: StreamResultView, depth: nat) {
        let m0 = StreamResult::empty();
        let g1 = number_field(1, m.id);
        let g2 = message_field::<ProcedureResult>(2, m.result);
        let m1 = StreamResultView { id: m.id, ..m0 };
        lemma_one_merges::<StreamResult>(m0, g1, m1, depth);
        let m2 = StreamResultView { result: m.result, ..m1 };
        if let Some(result) = m.result {
            lemma_field_fits(StreamResult::fields(m), g1.len() as int);
            lemma_inner_round_trip::<ProcedureResult>(result, (depth - 1) as nat);
        }
        lemma_one_merges::<StreamResult>(m1, g2, m2, depth);
        lemma_both_merge::<StreamResult>(m0, g1, m1, g2, m2, depth);
        assert(m2 =~= m);
        lemma_plain_writable(StreamResult::fields(m));
    }

    proof fn unknown_changes_nothing(m: StreamResultView, field: FieldView, depth: nat) {
    }
}

/// What the server pushes on the stream connection.
#[derive(Debug, PartialEq)]
pub struct StreamUpdate {
    pub results: Vec<StreamResult>,
}

/// [`StreamUpdate`] as a value.
#[verifier::ext_equal]
pub struct StreamUpdateView {
    pub results: Seq<StreamResultView>,
}

impl View for StreamUpdate {
    type V = StreamUpdateView;

    open spec fn view(&self) -> StreamUpdateView {
        StreamUpdateView {
            results: views(self.results@),
        }
    }
}

impl Layout for StreamUpdate {
    open spec fn empty() -> StreamUpdateView {
        StreamUpdateView { results: seq![] }
    }

    open spec fn fields(m: StreamUpdateView) -> Seq<FieldView> {
        repeated_messages::<StreamResult>(1, m.results)
    }

    open spec fn merged(m: StreamUpdateView, field: FieldView, depth: nat) -> Result<
        StreamUpdateView,
        DecodeFault,
    > {
        match field.tag {
            1 => match message_in::<StreamResult>(StreamResult::empty(), field.payload, depth) {
                Ok(item) => Ok(StreamUpdateView { results: m.results.push(item), ..m }),
                Err(e) => Err(e),
            },
            _ => unknown_in(m, depth),
        }
    }

    open spec fn reads_back(m: StreamUpdateView, depth: nat) -> bool {
        &&& forall|i: int|
            0 <= i < m.results.len() ==> inner_reads_back::<StreamResult>(
                #[trigger] m.results[i],
                depth,
            )
    }

    open spec fn knows(tag: u32) -> bool {
        1 <= tag <= 1
    }
}

impl Message for StreamUpdate {
    fn new() -> (m: Self) {
        let m = StreamUpdate { results: Vec::new() };
        assert(m@ =~= StreamUpdate::empty());
        m
    }

    fn put_fields(&self, buf: &mut Vec<u8>) {
        put_repeated_messages(1, &self.results, buf);
        assert(buf@ =~= old(buf)@ + message_bytes::<StreamUpdate>(self@));
    }

    fn merge_field(&mut self, field: Field, depth: u32) -> (out: Result<(), Malformed>) {
        match field.tag {
            1 => {
                let mut item = StreamResult::new();
                merge_payload(&mut item, field.payload, depth)?;
                self.results.push(item);
                assert(views(self.results@) =~= views(old(self).results@).push(item@));
            },
            _ => {
                skip_unknown(depth)?;
            },
        }
        Ok(())
    }

    proof fn fields_give_message(m: StreamUpdateView, depth: nat) {
        let m0 = StreamUpdate::empty();
        let g1 = repeated_messages::<StreamResult>(1, m.results);
        let m1 = StreamUpdateView { results: m.results, ..m0 };
        let states = Seq::new(
            m.results.len() + 1,
            |i: int| StreamUpdateView { results: m.results.take(i), ..m0 },
        );
        assert forall|i: int| 0 <= i < m.results.len() implies StreamUpdate::merged(
            #[trigger] states[i],
            g1[i],
            depth,
        ) == Ok::<StreamUpdateView, DecodeFault>(states[i + 1]) by {
            assert(StreamUpdate::fields(m)[i] == g1[i]);
            lemma_field_fits(StreamUpdate::fields(m), i);
            lemma_inner_round_trip::<StreamResult>(m.results[i], (depth - 1) as nat);
            assert(m.results.take(i).push(m.results[i]) =~= m.results.take(i + 1));
        }
        assert(states[0] =~= m0);
        assert(states.last() =~= m1);
        lemma_chain_merges::<StreamUpdate>(states, g1, depth);
        assert(m1 =~= m);
        lemma_plain_writable(StreamUpdate::fields(m));
    }

    proof fn unknown_changes_nothing(m: StreamUpdateView, field: FieldView, depth: nat) {
    }
}

/// A stream on the server.
#[derive(Debug, PartialEq)]
pub struct Stream {
    pub id: u64,
}

/// [`Stream`] as a value.
#[verifier::ext_equal]
pub struct StreamView {
    pub id: u64,
}

impl View for Stream {
    type V = StreamView;

    open spec fn view(&self) -> StreamView {
        StreamView {
            id: self.id,
        }
    }
}

impl Layout for Stream {
    open spec fn empty() -> StreamView {
        StreamView { id: 0 }
    }

    open spec fn fields(m: StreamView) -> Seq<FieldView> {
        number_field(1, m.id)
    }

    open spec fn merged(m: StreamView, field: FieldView, depth: nat) -> Result<
        StreamView,
        DecodeFault,
    > {
        match field.tag {
            1 => match number_in(field.payload) {
                Ok(value) => Ok(StreamView { id: value, ..m }),
                Err(e) => Err(e),
            },
            _ => unknown_in(m, depth),
        }
    }

    open spec fn reads_back(m: StreamView, depth: nat) -> bool {
        true
    }

    open spec fn knows(tag: u32) -> bool {
        1 <= tag <= 1
    }
}

impl Message for Stream {
    fn new() -> (m: Self) {
        let m = Stream { id: 0 };
        assert(m@ =~= Stream::empty());
        m
    }

    fn put_fields(&self, buf: &mut Vec<u8>) {
        put_number(1, self.id, buf);
        assert(buf@ =~= old(buf)@ + message_bytes::<Stream>(self@));
    }

    fn merge_field(&mut self, field: Field, depth: u32) -> (out: Result<(), Malformed>) {
        match field.tag {
            1 => {
                self.id = number_of(field.payload)?;
            },
            _ => {
                skip_unknown(depth)?;
            },
        }
        Ok(())
    }

    proof fn fields_give_message(m: StreamView, depth: nat) {
        let m0 = Stream::empty();
        let g1 = number_field(1, m.id);
        let m1 = StreamView { id: m.id, ..m0 };
        lemma_one_merges::<Stream>(m0, g1, m1, depth);
        assert(m1 =~= m);
        lemma_plain_writable(Stream::fields(m));
    }

    proof fn unknown_changes_nothing(m: StreamView, field: FieldView, depth: nat) {
    }
}

/// An event on the server: the stream that tells when it occurs.
#[derive(Debug, PartialEq)]
pub struct Event {
    pub stream: Option<Stream>,
}

/// [`Event`] as a value.
#[verifier::ext_equal]
pub struct EventView {
    pub stream: Option<StreamView>,
}

impl View for Event {
    type V = EventView;

    open spec fn view(&self) -> EventView {
        EventView {
            stream: optional_view(self.stream),
        }
    }
}

impl Layout for Event {
    open spec fn empty() -> EventView {
        EventView { stream: None }
    }

    open spec fn fields(m: EventView) -> Seq<FieldView> {
        message_field::<Stream>(1, m.stream)
    }

    open spec fn merged(m: EventView, field: FieldView, depth: nat) -> Result<
        EventView,
        DecodeFault,
    > {
        match field.tag {
            1 => match message_in::<Stream>(
                present_or_empty::<Stream>(m.stream),
                field.payload,
                depth,
            ) {
                Ok(stream) => Ok(EventView { stream: Some(stream), ..m }),
                Err(e) => Err(e),
            },
            _ => unknown_in(m, depth),
        }
    }

    open spec fn reads_back(m: EventView, depth: nat) -> bool {
        &&& m.stream matches Some(stream) ==> inner_reads_back::<Stream>(stream, depth)
    }

    open spec fn knows(tag: u32) -> bool {
        1 <= tag <= 1
    }
}

impl Message for Event {
    fn new() -> (m: Self) {
        let m = Event { stream: None };
        assert(m@ =~= Event::empty());
        m
    }

    fn put_fields(&self, buf: &mut Vec<u8>) {
        put_message(1, &self.stream, buf);
        assert(buf@ =~= old(buf)@ + message_bytes::<Event>(self@));
    }

    fn merge_field(&mut self, field: Field, depth: u32) -> (out: Result<(), Malformed>) {
        match field.tag {
            1 => {
                let mut stream = match self.stream.take() {
                    Some(stream) => stream,
                    None => Stream::new(),
                };
                merge_payload(&mut stream, field.payload, depth)?;
                self.stream = Some(stream);
            },
            _ => {
                skip_unknown(depth)?;
            },
        }
        Ok(())
    }

    proof fn fields_give_message(m: EventView, depth: nat) {
        let m0 = Event::empty();
        let g1 = message_field::<Stream>(1, m.stream);
        let m1 = EventView { stream: m.stream, ..m0 };
        if let Some(stream) = m.stream {
            lemma_field_fits(Event::fields(m), 0);
            lemma_inner_round_trip::<Stream>(stream, (depth - 1) as nat);
        }
        lemma_one_merges::<Event>(m0, g1, m1, depth);
        assert(m1 =~= m);
        lemma_plain_writable(Event::fields(m));
    }

    proof fn unknown_changes_nothing(m: EventView, field: FieldView, depth: nat) {
    }
}

/// The encoded items of a tuple.
#[derive(Debug, PartialEq)]
pub struct Tuple {
    pub items: Vec<Vec<u8>>,
}

/// [`Tuple`] as a value.
#[verifier::ext_equal]
pub struct TupleView {
    pub items: Seq<Seq<u8>>,
}

impl View for Tuple {
    type V = TupleView;

    open spec fn view(&self) -> TupleView {
        TupleView {
            items: views(self.items@),
        }
    }
}

impl Layout for Tuple {
    open spec fn empty() -> TupleView {
        TupleView { items: seq![] }
    }

    open spec fn fields(m: TupleView) -> Seq<FieldView> {
        repeated_bytes(1, m.items)
    }

    open spec fn merged(m: TupleView, field: FieldView, depth: nat) -> Result<
        TupleView,
        DecodeFault,
    > {
        match field.tag {
            1 => match bytes_in(field.payload) {
                Ok(item) => Ok(TupleView { items: m.items.push(item), ..m }),
                Err(e) => Err(e),
            },
            _ => unknown_in(m, depth),
        }
    }

    open spec fn reads_back(m: TupleView, depth: nat) -> bool {
        true
    }

    open spec fn knows(tag: u32) -> bool {
        1 <= tag <= 1
    }
}

impl Message for Tuple {
    fn new() -> (m: Self) {
        let m = Tuple { items: Vec::new() };
        assert(m@ =~= Tuple::empty());
        m
    }

    fn put_fields(&self, buf: &mut Vec<u8>) {
        put_repeated_bytes(1, &self.items, buf);
        assert(buf@ =~= old(buf)@ + message_bytes::<Tuple>(self@));
    }

    fn merge_field(&mut self, field: Field, depth: u32) -> (out: Result<(), Malformed>) {
        match field.tag {
            1 => {
                let item = bytes_of(field.payload)?;
                self.items.push(item);
                assert(views(self.items@) =~= views(old(self).items@).push(item@));
            },
            _ => {
                skip_unknown(depth)?;
            },
        }
        Ok(())
    }

    proof fn fields_give_message(m: TupleView, depth: nat) {
        let m0 = Tuple::empty();
        let g1 = repeated_bytes(1, m.items);
        let m1 = TupleView { items: m.items, ..m0 };
        let states = Seq::new(
            m.items.len() + 1,
            |i: int| TupleView { items: m.items.take(i), ..m0 },
        );
        assert forall|i: int| 0 <= i < m.items.len() implies Tuple::merged(
            #[trigger] states[i],
            g1[i],
            depth,
        ) == Ok::<TupleView, DecodeFault>(states[i + 1]) by {
            assert(m.items.take(i).push(m.items[i]) =~= m.items.take(i + 1));
        }
        assert(states[0] =~= m0);
        assert(states.last() =~= m1);
        lemma_chain_merges::<Tuple>(states, g1, depth);
        assert(m1 =~= m);
        lemma_plain_writable(Tuple::fields(m));
    }

    proof fn unknown_changes_nothing(m: TupleView, field: FieldView, depth: nat) {
    }
}

/// The encoded items of a list.
#[derive(Debug, PartialEq)]
pub struct List {
    pub items: Vec<Vec<u8>>,
}

/// [`List`] as a value.
#[verifier::ext_equal]
pub struct ListView {
    pub items: Seq<Seq<u8>>,
}

impl View for List {
    type V = ListView;

    open spec fn view(&self) -> ListView {
        ListView {
            items: views(self.items@),
        }
    }
}

impl Layout for List {
    open spec fn empty() -> ListView {
        ListView { items: seq![] }
    }

    open spec fn fields(m: ListView) -> Seq<FieldView> {
        repeated_bytes(1, m.items)
    }

    open spec fn merged(m: ListView, field: FieldView, depth: nat) -> Result<
        ListView,
        DecodeFault,
    > {
        match field.tag {
            1 => match bytes_in(field.payload) {
                Ok(item) => Ok(ListView { items: m.items.push(item), ..m }),
                Err(e) => Err(e),
            },
            _ => unknown_in(m, depth),
        }
    }

    open spec fn reads_back(m: ListView, depth: nat) -> bool {
        true
    }

    open spec fn knows(tag: u32) -> bool {
        1 <= tag <= 1
    }
}

impl Message for List {
    fn new() -> (m: Self) {
        let m = List { items: Vec::new() };
        assert(m@ =~= List::empty());
        m
    }

    fn put_fields(&self, buf: &mut Vec<u8>) {
        put_repeated_bytes(1, &self.items, buf);
        assert(buf@ =~= old(buf)@ + message_bytes::<List>(self@));
    }

    fn merge_field(&mut self, field: Field, depth: u32) -> (out: Result<(), Malformed>) {
        match field.tag {
            1 => {
                let item = bytes_of(field.payload)?;
                self.items.push(item);
                assert(views(self.items@) =~= views(old(self).items@).push(item@));
            },
            _ => {
                skip_unknown(depth)?;
            },
        }
        Ok(())
    }

    proof fn fields_give_message(m: ListView, depth: nat) {
        let m0 = List::empty();
        let g1 = repeated_bytes(1, m.items);
        let m1 = ListView { items: m.items, ..m0 };
        let states = Seq::new(
            m.items.len() + 1,
            |i: int| ListView { items: m.items.take(i), ..m0 },
        );
        assert forall|i: int| 0 <= i < m.items.len() implies List::merged(
            #[trigger] states[i],
            g1[i],
            depth,
        ) == Ok::<ListView, DecodeFault>(states[i + 1]) by {
            assert(m.items.take(i).push(m.items[i]) =~= m.items.take(i + 1));
        }
        assert(states[0] =~= m0);
        assert(states.last() =~= m1);
        lemma_chain_merges::<List>(states, g1, depth);
        assert(m1 =~= m);
        lemma_plain_writable(List::fields(m));
    }

    proof fn unknown_changes_nothing(m: ListView, field: FieldView, depth: nat) {
    }
}

/// The encoded items of a set.
#[derive(Debug, PartialEq)]
pub struct ItemSet {
    pub items: Vec<Vec<u8>>,
}

/// [`ItemSet`] as a value.
#[verifier::ext_equal]
pub struct ItemSetView {
    pub items: Seq<Seq<u8>>,
}

impl View for ItemSet {
    type V = ItemSetView;

    open spec fn view(&self) -> ItemSetView {
        ItemSetView {
            items: views(self.items@),
        }
    }
}

impl Layout for ItemSet {
    open spec fn empty() -> ItemSetView {
        ItemSetView { items: seq![] }
    }

    open spec fn fields(m: ItemSetView) -> Seq<FieldView> {
        repeated_bytes(1, m.items)
    }

    open spec fn merged(m: ItemSetView, field: FieldView, depth: nat) -> Result<
        ItemSetView,
        DecodeFault,
    > {
        match field.tag {
            1 => match bytes_in(field.payload) {
                Ok(item) => Ok(ItemSetView { items: m.items.push(item), ..m }),
                Err(e) => Err(e),
            },
            _ => unknown_in(m, depth),
        }
    }

    open spec fn reads_back(m: ItemSetView, depth: nat) -> bool {
        true
    }

    open spec fn knows(tag: u32) -> bool {
        1 <= tag <= 1
    }
}

impl Message for ItemSet {
    fn new() -> (m: Self) {
        let m = ItemSet { items: Vec::new() };
        assert(m@ =~= ItemSet::empty());
        m
    }

    fn put_fields(&self, buf: &mut Vec<u8>) {
        put_repeated_bytes(1, &self.items, buf);
        assert(buf@ =~= old(buf)@ + message_bytes::<ItemSet>(self@));
    }

    fn merge_field(&mut self, field: Field, depth: u32) -> (out: Result<(), Malformed>) {
        match field.tag {
            1 => {
                let item = bytes_of(field.payload)?;
                self.items.push(item);
                assert(views(self.items@) =~= views(old(self).items@).push(item@));
            },
            _ => {
                skip_unknown(depth)?;
            },
        }
        Ok(())
    }

    proof fn fields_give_message(m: ItemSetView, depth: nat) {
        let m0 = ItemSet::empty();
        let g1 = repeated_bytes(1, m.items);
        let m1 = ItemSetView { items: m.items, ..m0 };
        let states = Seq::new(
            m.items.len() + 1,
            |i: int| ItemSetView { items: m.items.take(i), ..m0 },
        );
        assert forall|i: int| 0 <= i < m.items.len() implies ItemSet::merged(
            #[trigger] states[i],
            g1[i],
            depth,
        ) == Ok::<ItemSetView, DecodeFault>(states[i + 1]) by {
            assert(m.items.take(i).push(m.items[i]) =~= m.items.take(i + 1));
        }
        assert(states[0] =~= m0);
        assert(states.last() =~= m1);
        lemma_chain_merges::<ItemSet>(states, g1, depth);
        assert(m1 =~= m);
        lemma_plain_writable(ItemSet::fields(m));
    }

    proof fn unknown_changes_nothing(m: ItemSetView, field: FieldView, depth: nat) {
    }
}

/// An entry of a dictionary: its encoded key and its encoded value.
#[derive(Debug, PartialEq)]
pub struct DictionaryEntry {
    pub key: Vec<u8>,
    pub value: Vec<u8>,
}

/// [`DictionaryEntry`] as a value.
#[verifier::ext_equal]
pub struct DictionaryEntryView {
    pub key: Seq<u8>,
    pub value: Seq<u8>,
}

impl View for DictionaryEntry {
    type V = DictionaryEntryView;

    open spec fn view(&self) -> DictionaryEntryView {
        DictionaryEntryView {
            key: self.key@,
            value: self.value@,
        }
    }
}

impl Layout for DictionaryEntry {
    open spec fn empty() -> DictionaryEntryView {
        DictionaryEntryView { key: seq![], value: seq![] }
    }

    open spec fn fields(m: DictionaryEntryView) -> Seq<FieldView> {
        bytes_field(1, m.key) + bytes_field(2, m.value)
    }

    open spec fn merged(m: DictionaryEntryView, field: FieldView, depth: nat) -> Result<
        DictionaryEntryView,
        DecodeFault,
    > {
        match field.tag {
            1 => match bytes_in(field.payload) {
                Ok(key) => Ok(DictionaryEntryView { key, ..m }),
                Err(e) => Err(e),
            },
            2 => match bytes_in(field.payload) {
                Ok(value) => Ok(DictionaryEntryView { value, ..m }),
                Err(e) => Err(e),
            },
            _ => unknown_in(m, depth),
        }
    }

    open spec fn reads_back(m: DictionaryEntryView, depth: nat) -> bool {
        true
    }

    open spec fn knows(tag: u32) -> bool {
        1 <= tag <= 2
    }
}

impl Message for DictionaryEntry {
    fn new() -> (m: Self) {
        let m = DictionaryEntry { key: Vec::new(), value: Vec::new() };
        assert(m@ =~= DictionaryEntry::empty());
        m
    }

    fn put_fields(&self, buf: &mut Vec<u8>) {
        proof {
            let m = self@;
            let g1 = bytes_field(1, m.key);
            let g2 = bytes_field(2, m.value);
            lemma_fields_concat(g1, g2);
        }
        put_bytes(1, &self.key, buf);
        put_bytes(2, &self.value, buf);
        assert(buf@ =~= old(buf)@ + message_bytes::<DictionaryEntry>(self@));
    }

    fn merge_field(&mut self, field: Field, depth: u32) -> (out: Result<(), Malformed>) {
        match field.tag {
            1 => {
                self.key = bytes_of(field.payload)?;
            },
            2 => {
                self.value = bytes_of(field.payload)?;
            },
            _ => {
                skip_unknown(depth)?;
            },
        }
        Ok(())
    }

    proof fn fields_give_message(m: DictionaryEntryView, depth: nat) {
        let m0 = DictionaryEntry::empty();
        let g1 = bytes_field(1, m.key);
        let g2 = bytes_field(2, m.value);
        let m1 = DictionaryEntryView { key: m.key, ..m0 };
        assert(m.key.len() == 0 ==> m.key =~= seq![]);
        lemma_one_merges::<DictionaryEntry>(m0, g1, m1, depth);
        let m2 = DictionaryEntryView { value: m.value, ..m1 };
        assert(m.value.len() == 0 ==> m.value =~= seq![]);
        lemma_one_merges::<DictionaryEntry>(m1, g2, m2, depth);
        lemma_both_merge::<DictionaryEntry>(m0, g1, m1, g2, m2, depth);
        assert(m2 =~= m);
        lemma_plain_writable(DictionaryEntry::fields(m));
    }

    proof fn unknown_changes_nothing(m: DictionaryEntryView, field: FieldView, depth: nat) {
    }
}

/// The encoded entries of a dictionary.
#[derive(Debug, PartialEq)]
pub struct Dictionary {
    pub entries: Vec<DictionaryEntry>,
}

/// [`Dictionary`] as a value.
#[verifier::ext_equal]
pub struct DictionaryView {
    pub entries: Seq<DictionaryEntryView>,
}

impl View for Dictionary {
    type V = DictionaryView;

    open spec fn view(&self) -> DictionaryView {
        DictionaryView {
            entries: views(self.entries@),
        }
    }
}

impl Layout for Dictionary {
    open spec fn empty() -> DictionaryView {
        DictionaryView { entries: seq![] }
    }

    open spec fn fields(m: DictionaryView) -> Seq<FieldView> {
        repeated_messages::<DictionaryEntry>(1, m.entries)
    }

    open spec fn merged(m: DictionaryView, field: FieldView, depth: nat) -> Result<
        DictionaryView,
        DecodeFault,
    > {
        match field.tag {
            1 => match message_in::<DictionaryEntry>(
                DictionaryEntry::empty(),
                field.payload,
                depth,
            ) {
                Ok(item) => Ok(DictionaryView { entries: m.entries.push(item), ..m }),
                Err(e) => Err(e),
            },
            _ => unknown_in(m, depth),
        }
    }

    open spec fn reads_back(m: DictionaryView, depth: nat) -> bool {
        &&& forall|i: int|
            0 <= i < m.entries.len() ==> inner_reads_back::<DictionaryEntry>(
                #[trigger] m.entries[i],
                depth,
            )
    }

    open spec fn knows(tag: u32) -> bool {
        1 <= tag <= 1
    }
}

impl Message for Dictionary {
    fn new() -> (m: Self) {
        let m = Dictionary { entries: Vec::new() };
        assert(m@ =~= Dictionary::empty());
        m
    }

    fn put_fields(&self, buf: &mut Vec<u8>) {
        put_repeated_messages(1, &self.entries, buf);
        assert(buf@ =~= old(buf)@ + message_bytes::<Dictionary>(self@));
    }

    fn merge_field(&mut self, field: Field, depth: u32) -> (out: Result<(), Malformed>) {
        match field.tag {
            1 => {
                let mut item = DictionaryEntry::new();
                merge_payload(&mut item, field.payload, depth)?;
                self.entries.push(item);
                assert(views(self.entries@) =~= views(old(self).entries@).push(item@));
            },
            _ => {
                skip_unknown(depth)?;
            },
        }
        Ok(())
    }

    proof fn fields_give_message(m: DictionaryView, depth: nat) {
        let m0 = Dictionary::empty();
        let g1 = repeated_messages::<DictionaryEntry>(1, m.entries);
        let m1 = DictionaryView { entries: m.entries, ..m0 };
        let states = Seq::new(
            m.entries.len() + 1,
            |i: int| DictionaryView { entries: m.entries.take(i), ..m0 },
        );
        assert forall|i: int| 0 <= i < m.entries.len() implies Dictionary::merged(
            #[trigger] states[i],
            g1[i],
            depth,
        ) == Ok::<DictionaryView, DecodeFault>(states[i + 1]) by {
            assert(Dictionary::fields(m)[i] == g1[i]);
            lemma_field_fits(Dictionary::fields(m), i);
            lemma_inner_round_trip::<DictionaryEntry>(m.entries[i], (depth - 1) as nat);
            assert(m.entries.take(i).push(m.entries[i]) =~= m.entries.take(i + 1));
        }
        assert(states[0] =~= m0);
        assert(states.last() =~= m1);
        lemma_chain_merges::<Dictionary>(states, g1, depth);
        assert(m1 =~= m);
        lemma_plain_writable(Dictionary::fields(m));
    }

    proof fn unknown_changes_nothing(m: DictionaryView, field: FieldView, depth: nat) {
    }
}

/// How the server does, as it tells.
#[derive(Debug, PartialEq)]
pub struct Status {
    pub version: String,
    pub bytes_read: u64,
    pub bytes_written: u64,
    pub bytes_read_rate: Float,
    pub bytes_written_rate: Float,
    pub rpcs_executed: u64,
    pub rpc_rate: Float,
    pub one_rpc_per_update: bool,
    pub max_time_per_update: u32,
    pub adaptive_rate_control: bool,
    pub blocking_recv: bool,
    pub recv_timeout: u32,
    pub time_per_rpc_update: Float,
    pub poll_time_per_rpc_update: Float,
    pub exec_time_per_rpc_update: Float,
    pub stream_rpcs: u32,
    pub stream_rpcs_executed: u64,
    pub stream_rpc_rate: Float,
    pub time_per_stream_update: Float,
}

/// [`Status`] as a value.
#[verifier::ext_equal]
pub struct StatusView {
    pub version: Seq<char>,
    pub bytes_read: u64,
    pub bytes_written: u64,
    pub bytes_read_rate: Float,
    pub bytes_written_rate: Float,
    pub rpcs_executed: u64,
    pub rpc_rate: Float,
    pub one_rpc_per_update: bool,
    pub max_time_per_update: u32,
    pub adaptive_rate_control: bool,
    pub blocking_recv: bool,
    pub recv_timeout: u32,
    pub time_per_rpc_update: Float,
    pub poll_time_per_rpc_update: Float,
    pub exec_time_per_rpc_update: Float,
    pub stream_rpcs: u32,
    pub stream_rpcs_executed: u64,
    pub stream_rpc_rate: Float,
    pub time_per_stream_update: Float,
}

impl View for Status {
    type V = StatusView;

    open spec fn view(&self) -> StatusView {
        StatusView {
            version: self.version@,
            bytes_read: self.bytes_read,
            bytes_written: self.bytes_written,
            bytes_read_rate: self.bytes_read_rate,
            bytes_written_rate: self.bytes_written_rate,
            rpcs_executed: self.rpcs_executed,
            rpc_rate: self.rpc_rate,
            one_rpc_per_update: self.one_rpc_per_update,
            max_time_per_update: self.max_time_per_update,
            adaptive_rate_control: self.adaptive_rate_control,
            blocking_recv: self.blocking_recv,
            recv_timeout: self.recv_timeout,
            time_per_rpc_update: self.time_per_rpc_update,
            poll_time_per_rpc_update: self.poll_time_per_rpc_update,
            exec_time_per_rpc_update: self.exec_time_per_rpc_update,
            stream_rpcs: self.stream_rpcs,
            stream_rpcs_executed: self.stream_rpcs_executed,
            stream_rpc_rate: self.stream_rpc_rate,
            time_per_stream_update: self.time_per_stream_update,
        }
    }
}

impl Layout for Status {
    open spec fn empty() -> StatusView {
        StatusView {
            version: seq![],
            bytes_read: 0,
            bytes_written: 0,
            bytes_read_rate: Float { bits: 0 },
            bytes_written_rate: Float { bits: 0 },
            rpcs_executed: 0,
            rpc_rate: Float { bits: 0 },
            one_rpc_per_update: false,
            max_time_per_update: 0,
            adaptive_rate_control: false,
            blocking_recv: false,
            recv_timeout: 0,
            time_per_rpc_update: Float { bits: 0 },
            poll_time_per_rpc_update: Float { bits: 0 },
            exec_time_per_rpc_update: Float { bits: 0 },
            stream_rpcs: 0,
            stream_rpcs_executed: 0,
            stream_rpc_rate: Float { bits: 0 },
            time_per_stream_update: Float { bits: 0 },
        }
    }

    open spec fn fields(m: StatusView) -> Seq<FieldView> {
        text_field(1, m.version) + number_field(2, m.bytes_read) + number_field(3, m.bytes_written)
            + float_field(4, m.bytes_read_rate) + float_field(5, m.bytes_written_rate)
            + number_field(6, m.rpcs_executed) + float_field(7, m.rpc_rate)
            + number_field(8, flag(m.one_rpc_per_update))
            + number_field(9, m.max_time_per_update as u64)
            + number_field(10, flag(m.adaptive_rate_control))
            + number_field(11, flag(m.blocking_recv)) + number_field(12, m.recv_timeout as u64)
            + float_field(13, m.time_per_rpc_update) + float_field(14, m.poll_time_per_rpc_update)
            + float_field(15, m.exec_time_per_rpc_update) + number_field(16, m.stream_rpcs as u64)
            + number_field(17, m.stream_rpcs_executed) + float_field(18, m.stream_rpc_rate)
            + float_field(19, m.time_per_stream_update)
    }

    open spec fn merged(m: StatusView, field: FieldView, depth: nat) -> Result<
        StatusView,
        DecodeFault,
    > {
        match field.tag {
            1 => match text_in(field.payload) {
                Ok(version) => Ok(StatusView { version, ..m }),
                Err(e) => Err(e),
            },
            2 => match number_in(field.payload) {
                Ok(value) => Ok(StatusView { bytes_read: value, ..m }),
                Err(e) => Err(e),
            },
            3 => match number_in(field.payload) {
                Ok(value) => Ok(StatusView { bytes_written: value, ..m }),
                Err(e) => Err(e),
            },
            4 => match float_in(field.payload) {
                Ok(bytes_read_rate) => Ok(StatusView { bytes_read_rate, ..m }),
                Err(e) => Err(e),
            },
            5 => match float_in(field.payload) {
                Ok(bytes_written_rate) => Ok(StatusView { bytes_written_rate, ..m }),
                Err(e) => Err(e),
            },
            6 => match number_in(field.payload) {
                Ok(value) => Ok(StatusView { rpcs_executed: value, ..m }),
                Err(e) => Err(e),
            },
            7 => match float_in(field.payload) {
                Ok(rpc_rate) => Ok(StatusView { rpc_rate, ..m }),
                Err(e) => Err(e),
            },
            8 => match number_in(field.payload) {
                Ok(value) => Ok(StatusView { one_rpc_per_update: value != 0, ..m }),
                Err(e) => Err(e),
            },
            9 => match number_in(field.payload) {
                Ok(value) => Ok(StatusView { max_time_per_update: value as u32, ..m }),
                Err(e) => Err(e),
            },
            10 => match number_in(field.payload) {
                Ok(value) => Ok(StatusView { adaptive_rate_control: value != 0, ..m }),
                Err(e) => Err(e),
            },
            11 => match number_in(field.payload) {
                Ok(value) => Ok(StatusView { blocking_recv: value != 0, ..m }),
                Err(e) => Err(e),
            },
            12 => match number_in(field.payload) {
                Ok(value) => Ok(StatusView { recv_timeout: value as u32, ..m }),
                Err(e) => Err(e),
            },
            13 => match float_in(field.payload) {
                Ok(time_per_rpc_update) => Ok(StatusView { time_per_rpc_update, ..m }),
                Err(e) => Err(e),
            },
            14 => match float_in(field.payload) {
                Ok(poll_time_per_rpc_update) => Ok(StatusView { poll_time_per_rpc_update, ..m }),
                Err(e) => Err(e),
            },
            15 => match float_in(field.payload) {
                Ok(exec_time_per_rpc_update) => Ok(StatusView { exec_time_per_rpc_update, ..m }),
                Err(e) => Err(e),
            },
            16 => match number_in(field.payload) {
                Ok(value) => Ok(StatusView { stream_rpcs: value as u32, ..m }),
                Err(e) => Err(e),
            },
            17 => match number_in(field.payload) {
                Ok(value) => Ok(StatusView { stream_rpcs_executed: value, ..m }),
                Err(e) => Err(e),
            },
            18 => match float_in(field.payload) {
                Ok(stream_rpc_rate) => Ok(StatusView { stream_rpc_rate, ..m }),
                Err(e) => Err(e),
            },
            19 => match float_in(field.payload) {
                Ok(time_per_stream_update) => Ok(StatusView { time_per_stream_update, ..m }),
                Err(e) => Err(e),
            },
            _ => unknown_in(m, depth),
        }
    }

    open spec fn reads_back(m: StatusView, depth: nat) -> bool {
        &&& keeps(m.bytes_read_rate)
        &&& keeps(m.bytes_written_rate)
        &&& keeps(m.rpc_rate)
        &&& keeps(m.time_per_rpc_update)
        &&& keeps(m.poll_time_per_rpc_update)
        &&& keeps(m.exec_time_per_rpc_update)
        &&& keeps(m.stream_rpc_rate)
        &&& keeps(m.time_per_stream_update)
    }

    open spec fn knows(tag: u32) -> bool {
        1 <= tag <= 19
    }
}

impl Message for Status {
    fn new() -> (m: Self) {
        let m = Status {
            version: String::new(),
            bytes_read: 0,
            bytes_written: 0,
            bytes_read_rate: Float { bits: 0 },
            bytes_written_rate: Float { bits: 0 },
            rpcs_executed: 0,
            rpc_rate: Float { bits: 0 },
            one_rpc_per_update: false,
            max_time_per_update: 0,
            adaptive_rate_control: false,
            blocking_recv: false,
            recv_timeout: 0,
            time_per_rpc_update: Float { bits: 0 },
            poll_time_per_rpc_update: Float { bits: 0 },
            exec_time_per_rpc_update: Float { bits: 0 },
            stream_rpcs: 0,
            stream_rpcs_executed: 0,
            stream_rpc_rate: Float { bits: 0 },
            time_per_stream_update: Float { bits: 0 },
        };
        assert(m@ =~= Status::empty());
        m
    }

    fn put_fields(&self, buf: &mut Vec<u8>) {
        let ghost m = self@;
        let ghost start = buf@;
        let ghost before = buf@;
        let ghost g1 = text_field(1, m.version);
        put_text(1, self.version.as_str(), buf);
        let ghost before = buf@;
        let ghost g2 = number_field(2, m.bytes_read);
        put_number(2, self.bytes_read, buf);
        let ghost all2 = g1 + g2;
        proof {
            lemma_put_more(start, g1, g2, before, buf@);
        }
        let ghost before = buf@;
        let ghost g3 = number_field(3, m.bytes_written);
        put_number(3, self.bytes_written, buf);
        let ghost all3 = all2 + g3;
        proof {
            lemma_put_more(start, all2, g3, before, buf@);
        }
        let ghost before = buf@;
        let ghost g4 = float_field(4, m.bytes_read_rate);
        put_float(4, self.bytes_read_rate, buf);
        let ghost all4 = all3 + g4;
        proof {
            lemma_put_more(start, all3, g4, before, buf@);
        }
        let ghost before = buf@;
        let ghost g5 = float_field(5, m.bytes_written_rate);
        put_float(5, self.bytes_written_rate, buf);
        let ghost all5 = all4 + g5;
        proof {
            lemma_put_more(start, all4, g5, before, buf@);
        }
        let ghost before = buf@;
        let ghost g6 = number_field(6, m.rpcs_executed);
        put_number(6, self.rpcs_executed, buf);
        let ghost all6 = all5 + g6;
        proof {
            lemma_put_more(start, all5, g6, before, buf@);
        }
        let ghost before = buf@;
        let ghost g7 = float_field(7, m.rpc_rate);
        put_float(7, self.rpc_rate, buf);
        let ghost all7 = all6 + g7;
        proof {
            lemma_put_more(start, all6, g7, before, buf@);
        }
        let ghost before = buf@;
        let ghost g8 = number_field(8, flag(m.one_rpc_per_update));
        put_flag(8, self.one_rpc_per_update, buf);
        let ghost all8 = all7 + g8;
        proof {
            lemma_put_more(start, all7, g8, before, buf@);
        }
        let ghost before = buf@;
        let ghost g9 = number_field(9, m.max_time_per_update as u64);
        put_number(9, self.max_time_per_update as u64, buf);
        let ghost all9 = all8 + g9;
        proof {
            lemma_put_more(start, all8, g9, before, buf@);
        }
        let ghost before = buf@;
        let ghost g10 = number_field(10, flag(m.adaptive_rate_control));
        put_flag(10, self.adaptive_rate_control, buf);
        let ghost all10 = all9 + g10;
        proof {
            lemma_put_more(start, all9, g10, before, buf@);
        }
        let ghost before = buf@;
        let ghost g11 = number_field(11, flag(m.blocking_recv));
        put_flag(11, self.blocking_recv, buf);
        let ghost all11 = all10 + g11;
        proof {
            lemma_put_more(start, all10, g11, before, buf@);
        }
        let ghost before = buf@;
        let ghost g12 = number_field(12, m.recv_timeout as u64);
        put_number(12, self.recv_timeout as u64, buf);
        let ghost all12 = all11 + g12;
        proof {
            lemma_put_more(start, all11, g12, before, buf@);
        }
        let ghost before = buf@;
        let ghost g13 = float_field(13, m.time_per_rpc_update);
        put_float(13, self.time_per_rpc_update, buf);
        let ghost all13 = all12 + g13;
        proof {
            lemma_put_more(start, all12, g13, before, buf@);
        }
        let ghost before = buf@;
        let ghost g14 = float_field(14, m.poll_time_per_rpc_update);
        put_float(14, self.poll_time_per_rpc_update, buf);
        let ghost all14 = all13 + g14;
        proof {
            lemma_put_more(start, all13, g14, before, buf@);
        }
        let ghost before = buf@;
        let ghost g15 = float_field(15, m.exec_time_per_rpc_update);
        put_float(15, self.exec_time_per_rpc_update, buf);
        let ghost all15 = all14 + g15;
        proof {
            lemma_put_more(start, all14, g15, before, buf@);
        }
        let ghost before = buf@;
        let ghost g16 = number_field(16, m.stream_rpcs as u64);
        put_number(16, self.stream_rpcs as u64, buf);
        let ghost all16 = all15 + g16;
        proof {
            lemma_put_more(start, all15, g16, before, buf@);
        }
        let ghost before = buf@;
        let ghost g17 = number_field(17, m.stream_rpcs_executed);
        put_number(17, self.stream_rpcs_executed, buf);
        let ghost all17 = all16 + g17;
        proof {
            lemma_put_more(start, all16, g17, before, buf@);
        }
        let ghost before = buf@;
        let ghost g18 = float_field(18, m.stream_rpc_rate);
        put_float(18, self.stream_rpc_rate, buf);
        let ghost all18 = all17 + g18;
        proof {
            lemma_put_more(start, all17, g18, before, buf@);
        }
        let ghost before = buf@;
        let ghost g19 = float_field(19, m.time_per_stream_update);
        put_float(19, self.time_per_stream_update, buf);
        let ghost all19 = all18 + g19;
        proof {
            lemma_put_more(start, all18, g19, before, buf@);
        }
    }

    fn merge_field(&mut self, field: Field, depth: u32) -> (out: Result<(), Malformed>) {
        match field.tag {
            1 => {
                self.version = text_of(field.payload)?;
            },
            2 => {
                self.bytes_read = number_of(field.payload)?;
            },
            3 => {
                self.bytes_written = number_of(field.payload)?;
            },
            4 => {
                self.bytes_read_rate = float_of(field.payload)?;
            },
            5 => {
                self.bytes_written_rate = float_of(field.payload)?;
            },
            6 => {
                self.rpcs_executed = number_of(field.payload)?;
            },
            7 => {
                self.rpc_rate = float_of(field.payload)?;
            },
            8 => {
                self.one_rpc_per_update = number_of(field.payload)? != 0;
            },
            9 => {
                self.max_time_per_update = number_of(field.payload)? as u32;
            },
            10 => {
                self.adaptive_rate_control = number_of(field.payload)? != 0;
            },
            11 => {
                self.blocking_recv = number_of(field.payload)? != 0;
            },
            12 => {
                self.recv_timeout = number_of(field.payload)? as u32;
            },
            13 => {
                self.time_per_rpc_update = float_of(field.payload)?;
            },
            14 => {
                self.poll_time_per_rpc_update = float_of(field.payload)?;
            },
            15 => {
                self.exec_time_per_rpc_update = float_of(field.payload)?;
            },
            16 => {
                self.stream_rpcs = number_of(field.payload)? as u32;
            },
            17 => {
                self.stream_rpcs_executed = number_of(field.payload)?;
            },
            18 => {
                self.stream_rpc_rate = float_of(field.payload)?;
            },
            19 => {
                self.time_per_stream_update = float_of(field.payload)?;
            },
            _ => {
                skip_unknown(depth)?;
            },
        }
        Ok(())
    }

    #[verifier::spinoff_prover]
    #[verifier::rlimit(100)]
    proof fn fields_give_message(m: StatusView, depth: nat) {
        let m0 = Status::empty();
        let g1 = text_field(1, m.version);
        let g2 = number_field(2, m.bytes_read);
        let g3 = number_field(3, m.bytes_written);
        let g4 = float_field(4, m.bytes_read_rate);
        let g5 = float_field(5, m.bytes_written_rate);
        let g6 = number_field(6, m.rpcs_executed);
        let g7 = float_field(7, m.rpc_rate);
        let g8 = number_field(8, flag(m.one_rpc_per_update));
        let g9 = number_field(9, m.max_time_per_update as u64);
        let g10 = number_field(10, flag(m.adaptive_rate_control));
        let g11 = number_field(11, flag(m.blocking_recv));
        let g12 = number_field(12, m.recv_timeout as u64);
        let g13 = float_field(13, m.time_per_rpc_update);
        let g14 = float_field(14, m.poll_time_per_rpc_update);
        let g15 = float_field(15, m.exec_time_per_rpc_update);
        let g16 = number_field(16, m.stream_rpcs as u64);
        let g17 = number_field(17, m.stream_rpcs_executed);
        let g18 = float_field(18, m.stream_rpc_rate);
        let g19 = float_field(19, m.time_per_stream_update);
        let all2 = g1 + g2;
        lemma_fields_concat(g1, g2);
        let all3 = all2 + g3;
        lemma_fields_concat(all2, g3);
        let all4 = all3 + g4;
        lemma_fields_concat(all3, g4);
        let all5 = all4 + g5;
        lemma_fields_concat(all4, g5);
        let all6 = all5 + g6;
        lemma_fields_concat(all5, g6);
        let all7 = all6 + g7;
        lemma_fields_concat(all6, g7);
        let all8 = all7 + g8;
        lemma_fields_concat(all7, g8);
        let all9 = all8 + g9;
        lemma_fields_concat(all8, g9);
        let all10 = all9 + g10;
        lemma_fields_concat(all9, g10);
        let all11 = all10 + g11;
        lemma_fields_concat(all10, g11);
        let all12 = all11 + g12;
        lemma_fields_concat(all11, g12);
        let all13 = all12 + g13;
        lemma_fields_concat(all12, g13);
        let all14 = all13 + g14;
        lemma_fields_concat(all13, g14);
        let all15 = all14 + g15;
        lemma_fields_concat(all14, g15);
        let all16 = all15 + g16;
        lemma_fields_concat(all15, g16);
        let all17 = all16 + g17;
        lemma_fields_concat(all16, g17);
        let all18 = all17 + g18;
        lemma_fields_concat(all17, g18);
        let all19 = all18 + g19;
        lemma_fields_concat(all18, g19);
        let m1 = StatusView { version: m.version, ..m0 };
        assert(merge_fields::<Status>(m0, g1, depth) == Ok::<StatusView, DecodeFault>(m1)
            && plain(g1)) by {
            lemma_text(m.version);
            lemma_one_merges::<Status>(m0, g1, m1, depth);
        }
        let m2 = StatusView { bytes_read: m.bytes_read, ..m1 };
        assert(merge_fields::<Status>(m1, g2, depth) == Ok::<StatusView, DecodeFault>(m2)
            && plain(g2)) by {
            lemma_one_merges::<Status>(m1, g2, m2, depth);
        }
        lemma_both_merge::<Status>(m0, g1, m1, g2, m2, depth);
        lemma_plain_concat(g1, g2);
        let m3 = StatusView { bytes_written: m.bytes_written, ..m2 };
        assert(merge_fields::<Status>(m2, g3, depth) == Ok::<StatusView, DecodeFault>(m3)
            && plain(g3)) by {
            lemma_one_merges::<Status>(m2, g3, m3, depth);
        }
        lemma_both_merge::<Status>(m0, all2, m2, g3, m3, depth);
        lemma_plain_concat(all2, g3);
        let m4 = StatusView { bytes_read_rate: m.bytes_read_rate, ..m3 };
        assert(merge_fields::<Status>(m3, g4, depth) == Ok::<StatusView, DecodeFault>(m4)
            && plain(g4)) by {
            lemma_one_merges::<Status>(m3, g4, m4, depth);
        }
        lemma_both_merge::<Status>(m0, all3, m3, g4, m4, depth);
        lemma_plain_concat(all3, g4);
        let m5 = StatusView { bytes_written_rate: m.bytes_written_rate, ..m4 };
        assert(merge_fields::<Status>(m4, g5, depth) == Ok::<StatusView, DecodeFault>(m5)
            && plain(g5)) by {
            lemma_one_merges::<Status>(m4, g5, m5, depth);
        }
        lemma_both_merge::<Status>(m0, all4, m4, g5, m5, depth);
        lemma_plain_concat(all4, g5);
        let m6 = StatusView { rpcs_executed: m.rpcs_executed, ..m5 };
        assert(merge_fields::<Status>(m5, g6, depth) == Ok::<StatusView, DecodeFault>(m6)
            && plain(g6)) by {
            lemma_one_merges::<Status>(m5, g6, m6, depth);
        }
        lemma_both_merge::<Status>(m0, all5, m5, g6, m6, depth);
        lemma_plain_concat(all5, g6);
        let m7 = StatusView { rpc_rate: m.rpc_rate, ..m6 };
        assert(merge_fields::<Status>(m6, g7, depth) == Ok::<StatusView, DecodeFault>(m7)
            && plain(g7)) by {
            lemma_one_merges::<Status>(m6, g7, m7, depth);
        }
        lemma_both_merge::<Status>(m0, all6, m6, g7, m7, depth);
        lemma_plain_concat(all6, g7);
        let m8 = StatusView { one_rpc_per_update: m.one_rpc_per_update, ..m7 };
        assert(merge_fields::<Status>(m7, g8, depth) == Ok::<StatusView, DecodeFault>(m8)
            && plain(g8)) by {
            lemma_one_merges::<Status>(m7, g8, m8, depth);
        }
        lemma_both_merge::<Status>(m0, all7, m7, g8, m8, depth);
        lemma_plain_concat(all7, g8);
        let m9 = StatusView { max_time_per_update: m.max_time_per_update, ..m8 };
        assert(merge_fields::<Status>(m8, g9, depth) == Ok::<StatusView, DecodeFault>(m9)
            && plain(g9)) by {
            lemma_one_merges::<Status>(m8, g9, m9, depth);
        }
        lemma_both_merge::<Status>(m0, all8, m8, g9, m9, depth);
        lemma_plain_concat(all8, g9);
        let m10 = StatusView { adaptive_rate_control: m.adaptive_rate_control, ..m9 };
        assert(merge_fields::<Status>(m9, g10, depth) == Ok::<StatusView, DecodeFault>(m10)
            && plain(g10)) by {
            lemma_one_merges::<Status>(m9, g10, m10, depth);
        }
        lemma_both_merge::<Status>(m0, all9, m9, g10, m10, depth);
        lemma_plain_concat(all9, g10);
        let m11 = StatusView { blocking_recv: m.blocking_recv, ..m10 };
        assert(merge_fields::<Status>(m10, g11, depth) == Ok::<StatusView, DecodeFault>(m11)
            && plain(g11)) by {
            lemma_one_merges::<Status>(m10, g11, m11, depth);
        }
        lemma_both_merge::<Status>(m0, all10, m10, g11, m11, depth);
        lemma_plain_concat(all10, g11);
        let m12 = StatusView { recv_timeout: m.recv_timeout, ..m11 };
        assert(merge_fields::<Status>(m11, g12, depth) == Ok::<StatusView, DecodeFault>(m12)
            && plain(g12)) by {
            lemma_one_merges::<Status>(m11, g12, m12, depth);
        }
        lemma_both_merge::<Status>(m0, all11, m11, g12, m12, depth);
        lemma_plain_concat(all11, g12);
        let m13 = StatusView { time_per_rpc_update: m.time_per_rpc_update, ..m12 };
        assert(merge_fields::<Status>(m12, g13, depth) == Ok::<StatusView, DecodeFault>(m13)
            && plain(g13)) by {
            lemma_one_merges::<Status>(m12, g13, m13, depth);
        }
        lemma_both_merge::<Status>(m0, all12, m12, g13, m13, depth);
        lemma_plain_concat(all12, g13);
        let m14 = StatusView { poll_time_per_rpc_update: m.poll_time_per_rpc_update, ..m13 };
        assert(merge_fields::<Status>(m13, g14, depth) == Ok::<StatusView, DecodeFault>(m14)
            && plain(g14)) by {
            lemma_one_merges::<Status>(m13, g14, m14, depth);
        }
        lemma_both_merge::<Status>(m0, all13, m13, g14, m14, depth);
        lemma_plain_concat(all13, g14);
        let m15 = StatusView { exec_time_per_rpc_update: m.exec_time_per_rpc_update, ..m14 };
        assert(merge_fields::<Status>(m14, g15, depth) == Ok::<StatusView, DecodeFault>(m15)
            && plain(g15)) by {
            lemma_one_merges::<Status>(m14, g15, m15, depth);
        }
        lemma_both_merge::<Status>(m0, all14, m14, g15, m15, depth);
        lemma_plain_concat(all14, g15);
        let m16 = StatusView { stream_rpcs: m.stream_rpcs, ..m15 };
        assert(merge_fields::<Status>(m15, g16, depth) == Ok::<StatusView, DecodeFault>(m16)
            && plain(g16)) by {
            lemma_one_merges::<Status>(m15, g16, m16, depth);
        }
        lemma_both_merge::<Status>(m0, all15, m15, g16, m16, depth);
        lemma_plain_concat(all15, g16);
        let m17 = StatusView { stream_rpcs_executed: m.stream_rpcs_executed, ..m16 };
        assert(merge_fields::<Status>(m16, g17, depth) == Ok::<StatusView, DecodeFault>(m17)
            && plain(g17)) by {
            lemma_one_merges::<Status>(m16, g17, m17, depth);
        }
        lemma_both_merge::<Status>(m0, all16, m16, g17, m17, depth);
        lemma_plain_concat(all16, g17);
        let m18 = StatusView { stream_rpc_rate: m.stream_rpc_rate, ..m17 };
        assert(merge_fields::<Status>(m17, g18, depth) == Ok::<StatusView, DecodeFault>(m18)
            && plain(g18)) by {
            lemma_one_merges::<Status>(m17, g18, m18, depth);
        }
        lemma_both_merge::<Status>(m0, all17, m17, g18, m18, depth);
        lemma_plain_concat(all17, g18);
        let m19 = StatusView { time_per_stream_update: m.time_per_stream_update, ..m18 };
        assert(merge_fields::<Status>(m18, g19, depth) == Ok::<StatusView, DecodeFault>(m19)
            && plain(g19)) by {
            lemma_one_merges::<Status>(m18, g19, m19, depth);
        }
        lemma_both_merge::<Status>(m0, all18, m18, g19, m19, depth);
        lemma_plain_concat(all18, g19);
        assert(m19 =~= m);
        lemma_plain_writable(Status::fields(m));
    }

    proof fn unknown_changes_nothing(m: StatusView, field: FieldView, depth: nat) {
    }
}

/// A class of remote objects.
#[derive(Debug, PartialEq)]
pub struct Class {
    pub name: String,
    pub documentation: String,
}

/// [`Class`] as a value.
#[verifier::ext_equal]
pub struct ClassView {
    pub name: Seq<char>,
    pub documentation: Seq<char>,
}

impl View for Class {
    type V = ClassView;

    open spec fn view(&self) -> ClassView {
        ClassView {
            name: self.name@,
            documentation: self.documentation@,
        }
    }
}

impl Layout for Class {
    open spec fn empty() -> ClassView {
        ClassView { name: seq![], documentation: seq![] }
    }

    open spec fn fields(m: ClassView) -> Seq<FieldView> {
        text_field(1, m.name) + text_field(2, m.documentation)
    }

    open spec fn merged(m: ClassView, field: FieldView, depth: nat) -> Result<
        ClassView,
        DecodeFault,
    > {
        match field.tag {
            1 => match text_in(field.payload) {
                Ok(name) => Ok(ClassView { name, ..m }),
                Err(e) => Err(e),
            },
            2 => match text_in(field.payload) {
                Ok(documentation) => Ok(ClassView { documentation, ..m }),
                Err(e) => Err(e),
            },
            _ => unknown_in(m, depth),
        }
    }

    open spec fn reads_back(m: ClassView, depth: nat) -> bool {
        true
    }

    open spec fn knows(tag: u32) -> bool {
        1 <= tag <= 2
    }
}

impl Message for Class {
    fn new() -> (m: Self) {
        let m = Class { name: String::new(), documentation: String::new() };
        assert(m@ =~= Class::empty());
        m
    }

    fn put_fields(&self, buf: &mut Vec<u8>) {
        proof {
            let m = self@;
            let g1 = text_field(1, m.name);
            let g2 = text_field(2, m.documentation);
            lemma_fields_concat(g1, g2);
        }
        put_text(1, self.name.as_str(), buf);
        put_text(2, self.documentation.as_str(), buf);
        assert(buf@ =~= old(buf)@ + message_bytes::<Class>(self@));
    }

    fn merge_field(&mut self, field: Field, depth: u32) -> (out: Result<(), Malformed>) {
        match field.tag {
            1 => {
                self.name = text_of(field.payload)?;
            },
            2 => {
                self.documentation = text_of(field.payload)?;
            },
            _ => {
                skip_unknown(depth)?;
            },
        }
        Ok(())
    }

    proof fn fields_give_message(m: ClassView, depth: nat) {
        let m0 = Class::empty();
        let g1 = text_field(1, m.name);
        let g2 = text_field(2, m.documentation);
        let m1 = ClassView { name: m.name, ..m0 };
        lemma_text(m.name);
        lemma_one_merges::<Class>(m0, g1, m1, depth);
        let m2 = ClassView { documentation: m.documentation, ..m1 };
        lemma_text(m.documentation);
        lemma_one_merges::<Class>(m1, g2, m2, depth);
        lemma_both_merge::<Class>(m0, g1, m1, g2, m2, depth);
        assert(m2 =~= m);
        lemma_plain_writable(Class::fields(m));
    }

    proof fn unknown_changes_nothing(m: ClassView, field: FieldView, depth: nat) {
    }
}

/// A value of an enumeration.
#[derive(Debug, PartialEq)]
pub struct EnumerationValue {
    pub name: String,
    pub value: i32,
    pub documentation: String,
}

/// [`EnumerationValue`] as a value.
#[verifier::ext_equal]
pub struct EnumerationValueView {
    pub name: Seq<char>,
    pub value: i32,
    pub documentation: Seq<char>,
}

impl View for EnumerationValue {
    type V = EnumerationValueView;

    open spec fn view(&self) -> EnumerationValueView {
        EnumerationValueView {
            name: self.name@,
            value: self.value,
            documentation: self.documentation@,
        }
    }
}

impl Layout for EnumerationValue {
    open spec fn empty() -> EnumerationValueView {
        EnumerationValueView { name: seq![], value: 0, documentation: seq![] }
    }

    open spec fn fields(m: EnumerationValueView) -> Seq<FieldView> {
        text_field(1, m.name) + number_field(2, m.value as u64) + text_field(3, m.documentation)
    }

    open spec fn merged(m: EnumerationValueView, field: FieldView, depth: nat) -> Result<
        EnumerationValueView,
        DecodeFault,
    > {
        match field.tag {
            1 => match text_in(field.payload) {
                Ok(name) => Ok(EnumerationValueView { name, ..m }),
                Err(e) => Err(e),
            },
            2 => match number_in(field.payload) {
                Ok(value) => Ok(EnumerationValueView { value: value as i32, ..m }),
                Err(e) => Err(e),
            },
            3 => match text_in(field.payload) {
                Ok(documentation) => Ok(EnumerationValueView { documentation, ..m }),
                Err(e) => Err(e),
            },
            _ => unknown_in(m, depth),
        }
    }

    open spec fn reads_back(m: EnumerationValueView, depth: nat) -> bool {
        true
    }

    open spec fn knows(tag: u32) -> bool {
        1 <= tag <= 3
    }
}

impl Message for EnumerationValue {
    fn new() -> (m: Self) {
        let m = EnumerationValue { name: String::new(), value: 0, documentation: String::new() };
        assert(m@ =~= EnumerationValue::empty());
        m
    }

    fn put_fields(&self, buf: &mut Vec<u8>) {
        proof {
            let m = self@;
            let g1 = text_field(1, m.name);
            let g2 = number_field(2, m.value as u64);
            let g3 = text_field(3, m.documentation);
            lemma_fields_concat(g1, g2);
            lemma_fields_concat(g1 + g2, g3);
        }
        put_text(1, self.name.as_str(), buf);
        put_number(2, self.value as u64, buf);
        put_text(3, self.documentation.as_str(), buf);
        assert(buf@ =~= old(buf)@ + message_bytes::<EnumerationValue>(self@));
    }

    fn merge_field(&mut self, field: Field, depth: u32) -> (out: Result<(), Malformed>) {
        match field.tag {
            1 => {
                self.name = text_of(field.payload)?;
            },
            2 => {
                self.value = number_of(field.payload)? as i32;
            },
            3 => {
                self.documentation = text_of(field.payload)?;
            },
            _ => {
                skip_unknown(depth)?;
            },
        }
        Ok(())
    }

    proof fn fields_give_message(m: EnumerationValueView, depth: nat) {
        let m0 = EnumerationValue::empty();
        let g1 = text_field(1, m.name);
        let g2 = number_field(2, m.value as u64);
        let g3 = text_field(3, m.documentation);
        let m1 = EnumerationValueView { name: m.name, ..m0 };
        lemma_text(m.name);
        lemma_one_merges::<EnumerationValue>(m0, g1, m1, depth);
        let m2 = EnumerationValueView { value: m.value, ..m1 };
        lemma_i32_varint(m.value);
        lemma_one_merges::<EnumerationValue>(m1, g2, m2, depth);
        lemma_both_merge::<EnumerationValue>(m0, g1, m1, g2, m2, depth);
        let m3 = EnumerationValueView { documentation: m.documentation, ..m2 };
        lemma_text(m.documentation);
        lemma_one_merges::<EnumerationValue>(m2, g3, m3, depth);
        lemma_both_merge::<EnumerationValue>(m0, g1 + g2, m2, g3, m3, depth);
        assert(m3 =~= m);
        lemma_plain_writable(EnumerationValue::fields(m));
    }

    proof fn unknown_changes_nothing(m: EnumerationValueView, field: FieldView, depth: nat) {
    }
}

/// An enumeration of a service.
#[derive(Debug, PartialEq)]
pub struct Enumeration {
    pub name: String,
    pub values: Vec<EnumerationValue>,
    pub documentation: String,
}

/// [`Enumeration`] as a value.
#[verifier::ext_equal]
pub struct EnumerationView {
    pub name: Seq<char>,
    pub values: Seq<EnumerationValueView>,
    pub documentation: Seq<char>,
}

impl View for Enumeration {
    type V = EnumerationView;

    open spec fn view(&self) -> EnumerationView {
        EnumerationView {
            name: self.name@,
            values: views(self.values@),
            documentation: self.documentation@,
        }
    }
}

impl Layout for Enumeration {
    open spec fn empty() -> EnumerationView {
        EnumerationView { name: seq![], values: seq![], documentation: seq![] }
    }

    open spec fn fields(m: EnumerationView) -> Seq<FieldView> {
        text_field(1, m.name) + repeated_messages::<EnumerationValue>(2, m.values)
            + text_field(3, m.documentation)
    }

    open spec fn merged(m: EnumerationView, field: FieldView, depth: nat) -> Result<
        EnumerationView,
        DecodeFault,
    > {
        match field.tag {
            1 => match text_in(field.payload) {
                Ok(name) => Ok(EnumerationView { name, ..m }),
                Err(e) => Err(e),
            },
            2 => match message_in::<EnumerationValue>(
                EnumerationValue::empty(),
                field.payload,
                depth,
            ) {
                Ok(item) => Ok(EnumerationView { values: m.values.push(item), ..m }),
                Err(e) => Err(e),
            },
            3 => match text_in(field.payload) {
                Ok(documentation) => Ok(EnumerationView { documentation, ..m }),
                Err(e) => Err(e),
            },
            _ => unknown_in(m, depth),
        }
    }

    open spec fn reads_back(m: EnumerationView, depth: nat) -> bool {
        &&& forall|i: int|
            0 <= i < m.values.len() ==> inner_reads_back::<EnumerationValue>(
                #[trigger] m.values[i],
                depth,
            )
    }

    open spec fn knows(tag: u32) -> bool {
        1 <= tag <= 3
    }
}

impl Message for Enumeration {
    fn new() -> (m: Self) {
        let m = Enumeration {
            name: String::new(),
            values: Vec::new(),
            documentation: String::new(),
        };
        assert(m@ =~= Enumeration::empty());
        m
    }

    fn put_fields(&self, buf: &mut Vec<u8>) {
        proof {
            let m = self@;
            let g1 = text_field(1, m.name);
            let g2 = repeated_messages::<EnumerationValue>(2, m.values);
            let g3 = text_field(3, m.documentation);
            lemma_fields_concat(g1, g2);
            lemma_fields_concat(g1 + g2, g3);
        }
        put_text(1, self.name.as_str(), buf);
        put_repeated_messages(2, &self.values, buf);
        put_text(3, self.documentation.as_str(), buf);
        assert(buf@ =~= old(buf)@ + message_bytes::<Enumeration>(self@));
    }

    fn merge_field(&mut self, field: Field, depth: u32) -> (out: Result<(), Malformed>) {
        match field.tag {
            1 => {
                self.name = text_of(field.payload)?;
            },
            2 => {
                let mut item = EnumerationValue::new();
                merge_payload(&mut item, field.payload, depth)?;
                self.values.push(item);
                assert(views(self.values@) =~= views(old(self).values@).push(item@));
            },
            3 => {
                self.documentation = text_of(field.payload)?;
            },
            _ => {
                skip_unknown(depth)?;
            },
        }
        Ok(())
    }

    proof fn fields_give_message(m: EnumerationView, depth: nat) {
        let m0 = Enumeration::empty();
        let g1 = text_field(1, m.name);
        let g2 = repeated_messages::<EnumerationValue>(2, m.values);
        let g3 = text_field(3, m.documentation);
        let m1 = EnumerationView { name: m.name, ..m0 };
        lemma_text(m.name);
        lemma_one_merges::<Enumeration>(m0, g1, m1, depth);
        let m2 = EnumerationView { values: m.values, ..m1 };
        let states = Seq::new(
            m.values.len() + 1,
            |i: int| EnumerationView { values: m.values.take(i), ..m1 },
        );
        assert forall|i: int| 0 <= i < m.values.len() implies Enumeration::merged(
            #[trigger] states[i],
            g2[i],
            depth,
        ) == Ok::<EnumerationView, DecodeFault>(states[i + 1]) by {
            assert(Enumeration::fields(m)[g1.len() + i] == g2[i]);
            lemma_field_fits(Enumeration::fields(m), g1.len() + i);
            lemma_inner_round_trip::<EnumerationValue>(m.values[i], (depth - 1) as nat);
            assert(m.values.take(i).push(m.values[i]) =~= m.values.take(i + 1));
        }
        assert(states[0] =~= m1);
        assert(states.last() =~= m2);
        lemma_chain_merges::<Enumeration>(states, g2, depth);
        lemma_both_merge::<Enumeration>(m0, g1, m1, g2, m2, depth);
        let m3 = EnumerationView { documentation: m.documentation, ..m2 };
        lemma_text(m.documentation);
        lemma_one_merges::<Enumeration>(m2, g3, m3, depth);
        lemma_both_merge::<Enumeration>(m0, g1 + g2, m2, g3, m3, depth);
        assert(m3 =~= m);
        lemma_plain_writable(Enumeration::fields(m));
    }

    proof fn unknown_changes_nothing(m: EnumerationView, field: FieldView, depth: nat) {
    }
}

/// An exception that a procedure can throw.
#[derive(Debug, PartialEq)]
pub struct Exception {
    pub name: String,
    pub documentation: String,
}

/// [`Exception`] as a value.
#[verifier::ext_equal]
pub struct ExceptionView {
    pub name: Seq<char>,
    pub documentation: Seq<char>,
}

impl View for Exception {
    type V = ExceptionView;

    open spec fn view(&self) -> ExceptionView {
        ExceptionView {
            name: self.name@,
            documentation: self.documentation@,
        }
    }
}

impl Layout for Exception {
    open spec fn empty() -> ExceptionView {
        ExceptionView { name: seq![], documentation: seq![] }
    }

    open spec fn fields(m: ExceptionView) -> Seq<FieldView> {
        text_field(1, m.name) + text_field(2, m.documentation)
    }

    open spec fn merged(m: ExceptionView, field: FieldView, depth: nat) -> Result<
        ExceptionView,
        DecodeFault,
    > {
        match field.tag {
            1 => match text_in(field.payload) {
                Ok(name) => Ok(ExceptionView { name, ..m }),
                Err(e) => Err(e),
            },
            2 => match text_in(field.payload) {
                Ok(documentation) => Ok(ExceptionView { documentation, ..m }),
                Err(e) => Err(e),
            },
            _ => unknown_in(m, depth),
        }
    }

    open spec fn reads_back(m: ExceptionView, depth: nat) -> bool {
        true
    }

    open spec fn knows(tag: u32) -> bool {
        1 <= tag <= 2
    }
}

impl Message for Exception {
    fn new() -> (m: Self) {
        let m = Exception { name: String::new(), documentation: String::new() };
        assert(m@ =~= Exception::empty());
        m
    }

    fn put_fields(&self, buf: &mut Vec<u8>) {
        proof {
            let m = self@;
            let g1 = text_field(1, m.name);
            let g2 = text_field(2, m.documentation);
            lemma_fields_concat(g1, g2);
        }
        put_text(1, self.name.as_str(), buf);
        put_text(2, self.documentation.as_str(), buf);
        assert(buf@ =~= old(buf)@ + message_bytes::<Exception>(self@));
    }

    fn merge_field(&mut self, field: Field, depth: u32) -> (out: Result<(), Malformed>) {
        match field.tag {
            1 => {
                self.name = text_of(field.payload)?;
            },
            2 => {
                self.documentation = text_of(field.payload)?;
            },
            _ => {
                skip_unknown(depth)?;
            },
        }
        Ok(())
    }

    proof fn fields_give_message(m: ExceptionView, depth: nat) {
        let m0 = Exception::empty();
        let g1 = text_field(1, m.name);
        let g2 = text_field(2, m.documentation);
        let m1 = ExceptionView { name: m.name, ..m0 };
        lemma_text(m.name);
        lemma_one_merges::<Exception>(m0, g1, m1, depth);
        let m2 = ExceptionView { documentation: m.documentation, ..m1 };
        lemma_text(m.documentation);
        lemma_one_merges::<Exception>(m1, g2, m2, depth);
        lemma_both_merge::<Exception>(m0, g1, m1, g2, m2, depth);
        assert(m2 =~= m);
        lemma_plain_writable(Exception::fields(m));
    }

    proof fn unknown_changes_nothing(m: ExceptionView, field: FieldView, depth: nat) {
    }
}

/// A parameter of a procedure, with the encoded value that stands for it where
/// it is left out.
#[derive(Debug, PartialEq)]
pub struct Parameter {
    pub name: String,
    pub parameter_type: Option<Type>,
    pub default_value: Vec<u8>,
}

/// [`Parameter`] as a value.
#[verifier::ext_equal]
pub struct ParameterView {
    pub name: Seq<char>,
    pub parameter_type: Option<TypeView>,
    pub default_value: Seq<u8>,
}

impl View for Parameter {
    type V = ParameterView;

    open spec fn view(&self) -> ParameterView {
        ParameterView {
            name: self.name@,
            parameter_type: optional_view(self.parameter_type),
            default_value: self.default_value@,
        }
    }
}

impl Layout for Parameter {
    open spec fn empty() -> ParameterView {
        ParameterView { name: seq![], parameter_type: None, default_value: seq![] }
    }

    open spec fn fields(m: ParameterView) -> Seq<FieldView> {
        text_field(1, m.name) + message_field::<Type>(2, m.parameter_type)
            + bytes_field(3, m.default_value)
    }

    open spec fn merged(m: ParameterView, field: FieldView, depth: nat) -> Result<
        ParameterView,
        DecodeFault,
    > {
        match field.tag {
            1 => match text_in(field.payload) {
                Ok(name) => Ok(ParameterView { name, ..m }),
                Err(e) => Err(e),
            },
            2 => match message_in::<Type>(
                present_or_empty::<Type>(m.parameter_type),
                field.payload,
                depth,
            ) {
                Ok(parameter_type) => Ok(ParameterView { parameter_type: Some(parameter_type), ..m }),
                Err(e) => Err(e),
            },
            3 => match bytes_in(field.payload) {
                Ok(default_value) => Ok(ParameterView { default_value, ..m }),
                Err(e) => Err(e),
            },
            _ => unknown_in(m, depth),
        }
    }

    open spec fn reads_back(m: ParameterView, depth: nat) -> bool {
        &&& m.parameter_type matches Some(parameter_type) ==> inner_reads_back::<Type>(parameter_type, depth)
    }

    open spec fn knows(tag: u32) -> bool {
        1 <= tag <= 3
    }
}

impl Message for Parameter {
    fn new() -> (m: Self) {
        let m = Parameter { name: String::new(), parameter_type: None, default_value: Vec::new() };
        assert(m@ =~= Parameter::empty());
        m
    }

    fn put_fields(&self, buf: &mut Vec<u8>) {
        proof {
            let m = self@;
            let g1 = text_field(1, m.name);
            let g2 = message_field::<Type>(2, m.parameter_type);
            let g3 = bytes_field(3, m.default_value);
            lemma_fields_concat(g1, g2);
            lemma_fields_concat(g1 + g2, g3);
        }
        put_text(1, self.name.as_str(), buf);
        put_message(2, &self.parameter_type, buf);
        put_bytes(3, &self.default_value, buf);
        assert(buf@ =~= old(buf)@ + message_bytes::<Parameter>(self@));
    }

    fn merge_field(&mut self, field: Field, depth: u32) -> (out: Result<(), Malformed>) {
        match field.tag {
            1 => {
                self.name = text_of(field.payload)?;
            },
            2 => {
                let mut parameter_type = match self.parameter_type.take() {
                    Some(parameter_type) => parameter_type,
                    None => Type::new(),
                };
                merge_payload(&mut parameter_type, field.payload, depth)?;
                self.parameter_type = Some(parameter_type);
            },
            3 => {
                self.default_value = bytes_of(field.payload)?;
            },
            _ => {
                skip_unknown(depth)?;
            },
        }
        Ok(())
    }

    proof fn fields_give_message(m: ParameterView, depth: nat) {
        let m0 = Parameter::empty();
        let g1 = text_field(1, m.name);
        let g2 = message_field::<Type>(2, m.parameter_type);
        let g3 = bytes_field(3, m.default_value);
        let m1 = ParameterView { name: m.name, ..m0 };
        lemma_text(m.name);
        lemma_one_merges::<Parameter>(m0, g1, m1, depth);
        let m2 = ParameterView { parameter_type: m.parameter_type, ..m1 };
        if let Some(parameter_type) = m.parameter_type {
            lemma_field_fits(Parameter::fields(m), g1.len() as int);
            lemma_inner_round_trip::<Type>(parameter_type, (depth - 1) as nat);
        }
        lemma_one_merges::<Parameter>(m1, g2, m2, depth);
        lemma_both_merge::<Parameter>(m0, g1, m1, g2, m2, depth);
        let m3 = ParameterView { default_value: m.default_value, ..m2 };
        assert(m.default_value.len() == 0 ==> m.default_value =~= seq![]);
        lemma_one_merges::<Parameter>(m2, g3, m3, depth);
        lemma_both_merge::<Parameter>(m0, g1 + g2, m2, g3, m3, depth);
        assert(m3 =~= m);
        lemma_plain_writable(Parameter::fields(m));
    }

    proof fn unknown_changes_nothing(m: ParameterView, field: FieldView, depth: nat) {
    }
}

/// A procedure of a service. `game_scenes` are the numbers of the scenes of the
/// game in which it can be called.
#[derive(Debug, PartialEq)]
pub struct Procedure {
    pub name: String,
    pub parameters: Vec<Parameter>,
    pub return_type: Option<Type>,
    pub return_is_nullable: bool,
    pub documentation: String,
    pub game_scenes: Vec<i32>,
}

/// [`Procedure`] as a value.
#[verifier::ext_equal]
pub struct ProcedureView {
    pub name: Seq<char>,
    pub parameters: Seq<ParameterView>,
    pub return_type: Option<TypeView>,
    pub return_is_nullable: bool,
    pub documentation: Seq<char>,
    pub game_scenes: Seq<i32>,
}

impl View for Procedure {
    type V = ProcedureView;

    open spec fn view(&self) -> ProcedureView {
        ProcedureView {
            name: self.name@,
            parameters: views(self.parameters@),
            return_type: optional_view(self.return_type),
            return_is_nullable: self.return_is_nullable,
            documentation: self.documentation@,
            game_scenes: self.game_scenes@,
        }
    }
}

impl Layout for Procedure {
    open spec fn empty() -> ProcedureView {
        ProcedureView {
            name: seq![],
            parameters: seq![],
            return_type: None,
            return_is_nullable: false,
            documentation: seq![],
            game_scenes: seq![],
        }
    }

    open spec fn fields(m: ProcedureView) -> Seq<FieldView> {
        text_field(1, m.name) + repeated_messages::<Parameter>(2, m.parameters)
            + message_field::<Type>(3, m.return_type) + number_field(4, flag(m.return_is_nullable))
            + text_field(5, m.documentation) + packed_field(6, m.game_scenes)
    }

    open spec fn merged(m: ProcedureView, field: FieldView, depth: nat) -> Result<
        ProcedureView,
        DecodeFault,
    > {
        match field.tag {
            1 => match text_in(field.payload) {
                Ok(name) => Ok(ProcedureView { name, ..m }),
                Err(e) => Err(e),
            },
            2 => match message_in::<Parameter>(Parameter::empty(), field.payload, depth) {
                Ok(item) => Ok(ProcedureView { parameters: m.parameters.push(item), ..m }),
                Err(e) => Err(e),
            },
            3 => match message_in::<Type>(
                present_or_empty::<Type>(m.return_type),
                field.payload,
                depth,
            ) {
                Ok(return_type) => Ok(ProcedureView { return_type: Some(return_type), ..m }),
                Err(e) => Err(e),
            },
            4 => match number_in(field.payload) {
                Ok(value) => Ok(ProcedureView { return_is_nullable: value != 0, ..m }),
                Err(e) => Err(e),
            },
            5 => match text_in(field.payload) {
                Ok(documentation) => Ok(ProcedureView { documentation, ..m }),
                Err(e) => Err(e),
            },
            6 => match packed_in(m.game_scenes, field.payload) {
                Ok(game_scenes) => Ok(ProcedureView { game_scenes, ..m }),
                Err(e) => Err(e),
            },
            _ => unknown_in(m, depth),
        }
    }

    open spec fn reads_back(m: ProcedureView, depth: nat) -> bool {
        &&& forall|i: int|
            0 <= i < m.parameters.len() ==> inner_reads_back::<Parameter>(
                #[trigger] m.parameters[i],
                depth,
            )
        &&& m.return_type matches Some(return_type) ==> inner_reads_back::<Type>(return_type, depth)
    }

    open spec fn knows(tag: u32) -> bool {
        1 <= tag <= 6
    }
}

impl Message for Procedure {
    fn new() -> (m: Self) {
        let m = Procedure {
            name: String::new(),
            parameters: Vec::new(),
            return_type: None,
            return_is_nullable: false,
            documentation: String::new(),
            game_scenes: Vec::new(),
        };
        assert(m@ =~= Procedure::empty());
        m
    }

    fn put_fields(&self, buf: &mut Vec<u8>) {
        let ghost m = self@;
        let ghost start = buf@;
        let ghost before = buf@;
        let ghost g1 = text_field(1, m.name);
        put_text(1, self.name.as_str(), buf);
        let ghost before = buf@;
        let ghost g2 = repeated_messages::<Parameter>(2, m.parameters);
        put_repeated_messages(2, &self.parameters, buf);
        let ghost all2 = g1 + g2;
        proof {
            lemma_put_more(start, g1, g2, before, buf@);
        }
        let ghost before = buf@;
        let ghost g3 = message_field::<Type>(3, m.return_type);
        put_message(3, &self.return_type, buf);
        let ghost all3 = all2 + g3;
        proof {
            lemma_put_more(start, all2, g3, before, buf@);
        }
        let ghost before = buf@;
        let ghost g4 = number_field(4, flag(m.return_is_nullable));
        put_flag(4, self.return_is_nullable, buf);
        let ghost all4 = all3 + g4;
        proof {
            lemma_put_more(start, all3, g4, before, buf@);
        }
        let ghost before = buf@;
        let ghost g5 = text_field(5, m.documentation);
        put_text(5, self.documentation.as_str(), buf);
        let ghost all5 = all4 + g5;
        proof {
            lemma_put_more(start, all4, g5, before, buf@);
        }
        let ghost before = buf@;
        let ghost g6 = packed_field(6, m.game_scenes);
        put_packed(6, &self.game_scenes, buf);
        let ghost all6 = all5 + g6;
        proof {
            lemma_put_more(start, all5, g6, before, buf@);
        }
    }

    fn merge_field(&mut self, field: Field, depth: u32) -> (out: Result<(), Malformed>) {
        match field.tag {
            1 => {
                self.name = text_of(field.payload)?;
            },
            2 => {
                let mut item = Parameter::new();
                merge_payload(&mut item, field.payload, depth)?;
                self.parameters.push(item);
                assert(views(self.parameters@) =~= views(old(self).parameters@).push(item@));
            },
            3 => {
                let mut return_type = match self.return_type.take() {
                    Some(return_type) => return_type,
                    None => Type::new(),
                };
                merge_payload(&mut return_type, field.payload, depth)?;
                self.return_type = Some(return_type);
            },
            4 => {
                self.return_is_nullable = number_of(field.payload)? != 0;
            },
            5 => {
                self.documentation = text_of(field.payload)?;
            },
            6 => {
                merge_packed(&mut self.game_scenes, field.payload)?;
            },
            _ => {
                skip_unknown(depth)?;
            },
        }
        Ok(())
    }

    #[verifier::spinoff_prover]
    #[verifier::rlimit(100)]
    proof fn fields_give_message(m: ProcedureView, depth: nat) {
        let m0 = Procedure::empty();
        let g1 = text_field(1, m.name);
        let g2 = repeated_messages::<Parameter>(2, m.parameters);
        let g3 = message_field::<Type>(3, m.return_type);
        let g4 = number_field(4, flag(m.return_is_nullable));
        let g5 = text_field(5, m.documentation);
        let g6 = packed_field(6, m.game_scenes);
        let all2 = g1 + g2;
        lemma_fields_concat(g1, g2);
        let all3 = all2 + g3;
        lemma_fields_concat(all2, g3);
        let all4 = all3 + g4;
        lemma_fields_concat(all3, g4);
        let all5 = all4 + g5;
        lemma_fields_concat(all4, g5);
        let all6 = all5 + g6;
        lemma_fields_concat(all5, g6);
        let m1 = ProcedureView { name: m.name, ..m0 };
        assert(merge_fields::<Procedure>(m0, g1, depth) == Ok::<ProcedureView, DecodeFault>(m1)
            && plain(g1)) by {
            lemma_text(m.name);
            lemma_one_merges::<Procedure>(m0, g1, m1, depth);
        }
        let m2 = ProcedureView { parameters: m.parameters, ..m1 };
        assert(merge_fields::<Procedure>(m1, g2, depth) == Ok::<ProcedureView, DecodeFault>(m2)
            && plain(g2)) by {
            let states = Seq::new(
                m.parameters.len() + 1,
                |i: int| ProcedureView { parameters: m.parameters.take(i), ..m1 },
            );
            assert forall|i: int| 0 <= i < m.parameters.len() implies Procedure::merged(
                #[trigger] states[i],
                g2[i],
                depth,
            ) == Ok::<ProcedureView, DecodeFault>(states[i + 1]) by {
                lemma_field_fits(g2, i);
                lemma_inner_round_trip::<Parameter>(m.parameters[i], (depth - 1) as nat);
                assert(m.parameters.take(i).push(m.parameters[i]) =~= m.parameters.take(i + 1));
            }
            assert(states[0] =~= m1);
            assert(states.last() =~= m2);
            lemma_chain_merges::<Procedure>(states, g2, depth);
        }
        lemma_both_merge::<Procedure>(m0, g1, m1, g2, m2, depth);
        lemma_plain_concat(g1, g2);
        let m3 = ProcedureView { return_type: m.return_type, ..m2 };
        assert(merge_fields::<Procedure>(m2, g3, depth) == Ok::<ProcedureView, DecodeFault>(m3)
            && plain(g3)) by {
            if let Some(return_type) = m.return_type {
                lemma_field_fits(g3, 0);
                lemma_inner_round_trip::<Type>(return_type, (depth - 1) as nat);
            }
            lemma_one_merges::<Procedure>(m2, g3, m3, depth);
        }
        lemma_both_merge::<Procedure>(m0, all2, m2, g3, m3, depth);
        lemma_plain_concat(all2, g3);
        let m4 = ProcedureView { return_is_nullable: m.return_is_nullable, ..m3 };
        assert(merge_fields::<Procedure>(m3, g4, depth) == Ok::<ProcedureView, DecodeFault>(m4)
            && plain(g4)) by {
            lemma_one_merges::<Procedure>(m3, g4, m4, depth);
        }
        lemma_both_merge::<Procedure>(m0, all3, m3, g4, m4, depth);
        lemma_plain_concat(all3, g4);
        let m5 = ProcedureView { documentation: m.documentation, ..m4 };
        assert(merge_fields::<Procedure>(m4, g5, depth) == Ok::<ProcedureView, DecodeFault>(m5)
            && plain(g5)) by {
            lemma_text(m.documentation);
            lemma_one_merges::<Procedure>(m4, g5, m5, depth);
        }
        lemma_both_merge::<Procedure>(m0, all4, m4, g5, m5, depth);
        lemma_plain_concat(all4, g5);
        let m6 = ProcedureView { game_scenes: m.game_scenes, ..m5 };
        lemma_packed(m.game_scenes);
        assert(merge_fields::<Procedure>(m5, g6, depth) == Ok::<ProcedureView, DecodeFault>(m6)
            && plain(g6)) by {
            lemma_one_merges::<Procedure>(m5, g6, m6, depth);
        }
        lemma_both_merge::<Procedure>(m0, all5, m5, g6, m6, depth);
        lemma_plain_concat(all5, g6);
        assert(m6 =~= m);
        lemma_plain_writable(Procedure::fields(m));
    }

    proof fn unknown_changes_nothing(m: ProcedureView, field: FieldView, depth: nat) {
    }
}

/// A service of the server.
#[derive(Debug, PartialEq)]
pub struct Service {
    pub name: String,
    pub procedures: Vec<Procedure>,
    pub classes: Vec<Class>,
    pub enumerations: Vec<Enumeration>,
    pub exceptions: Vec<Exception>,
    pub documentation: String,
}

/// [`Service`] as a value.
#[verifier::ext_equal]
pub struct ServiceView {
    pub name: Seq<char>,
    pub procedures: Seq<ProcedureView>,
    pub classes: Seq<ClassView>,
    pub enumerations: Seq<EnumerationView>,
    pub exceptions: Seq<ExceptionView>,
    pub documentation: Seq<char>,
}

impl View for Service {
    type V = ServiceView;

    open spec fn view(&self) -> ServiceView {
        ServiceView {
            name: self.name@,
            procedures: views(self.procedures@),
            classes: views(self.classes@),
            enumerations: views(self.enumerations@),
            exceptions: views(self.exceptions@),
            documentation: self.documentation@,
        }
    }
}

impl Layout for Service {
    open spec fn empty() -> ServiceView {
        ServiceView {
            name: seq![],
            procedures: seq![],
            classes: seq![],
            enumerations: seq![],
            exceptions: seq![],
            documentation: seq![],
        }
    }

    open spec fn fields(m: ServiceView) -> Seq<FieldView> {
        text_field(1, m.name) + repeated_messages::<Procedure>(2, m.procedures)
            + repeated_messages::<Class>(3, m.classes)
            + repeated_messages::<Enumeration>(4, m.enumerations)
            + repeated_messages::<Exception>(5, m.exceptions) + text_field(6, m.documentation)
    }

    open spec fn merged(m: ServiceView, field: FieldView, depth: nat) -> Result<
        ServiceView,
        DecodeFault,
    > {
        match field.tag {
            1 => match text_in(field.payload) {
                Ok(name) => Ok(ServiceView { name, ..m }),
                Err(e) => Err(e),
            },
            2 => match message_in::<Procedure>(Procedure::empty(), field.payload, depth) {
                Ok(item) => Ok(ServiceView { procedures: m.procedures.push(item), ..m }),
                Err(e) => Err(e),
            },
            3 => match message_in::<Class>(Class::empty(), field.payload, depth) {
                Ok(item) => Ok(ServiceView { classes: m.classes.push(item), ..m }),
                Err(e) => Err(e),
            },
            4 => match message_in::<Enumeration>(Enumeration::empty(), field.payload, depth) {
                Ok(item) => Ok(ServiceView { enumerations: m.enumerations.push(item), ..m }),
                Err(e) => Err(e),
            },
            5 => match message_in::<Exception>(Exception::empty(), field.payload, depth) {
                Ok(item) => Ok(ServiceView { exceptions: m.exceptions.push(item), ..m }),
                Err(e) => Err(e),
            },
            6 => match text_in(field.payload) {
                Ok(documentation) => Ok(ServiceView { documentation, ..m }),
                Err(e) => Err(e),
            },
            _ => unknown_in(m, depth),
        }
    }

    open spec fn reads_back(m: ServiceView, depth: nat) -> bool {
        &&& forall|i: int|
            0 <= i < m.procedures.len() ==> inner_reads_back::<Procedure>(
                #[trigger] m.procedures[i],
                depth,
            )
        &&& forall|i: int|
            0 <= i < m.classes.len() ==> inner_reads_back::<Class>(#[trigger] m.classes[i], depth)
        &&& forall|i: int|
            0 <= i < m.enumerations.len() ==> inner_reads_back::<Enumeration>(
                #[trigger] m.enumerations[i],
                depth,
            )
        &&& forall|i: int|
            0 <= i < m.exceptions.len() ==> inner_reads_back::<Exception>(
                #[trigger] m.exceptions[i],
                depth,
            )
    }

    open spec fn knows(tag: u32) -> bool {
        1 <= tag <= 6
    }
}

impl Message for Service {
    fn new() -> (m: Self) {
        let m = Service {
            name: String::new(),
            procedures: Vec::new(),
            classes: Vec::new(),
            enumerations: Vec::new(),
            exceptions: Vec::new(),
            documentation: String::new(),
        };
        assert(m@ =~= Service::empty());
        m
    }

    fn put_fields(&self, buf: &mut Vec<u8>) {
        let ghost m = self@;
        let ghost start = buf@;
        let ghost before = buf@;
        let ghost g1 = text_field(1, m.name);
        put_text(1, self.name.as_str(), buf);
        let ghost before = buf@;
        let ghost g2 = repeated_messages::<Procedure>(2, m.procedures);
        put_repeated_messages(2, &self.procedures, buf);
        let ghost all2 = g1 + g2;
        proof {
            lemma_put_more(start, g1, g2, before, buf@);
        }
        let ghost before = buf@;
        let ghost g3 = repeated_messages::<Class>(3, m.classes);
        put_repeated_messages(3, &self.classes, buf);
        let ghost all3 = all2 + g3;
        proof {
            lemma_put_more(start, all2, g3, before, buf@);
        }
        let ghost before = buf@;
        let ghost g4 = repeated_messages::<Enumeration>(4, m.enumerations);
        put_repeated_messages(4, &self.enumerations, buf);
        let ghost all4 = all3 + g4;
        proof {
            lemma_put_more(start, all3, g4, before, buf@);
        }
        let ghost before = buf@;
        let ghost g5 = repeated_messages::<Exception>(5, m.exceptions);
        put_repeated_messages(5, &self.exceptions, buf);
        let ghost all5 = all4 + g5;
        proof {
            lemma_put_more(start, all4, g5, before, buf@);
        }
        let ghost before = buf@;
        let ghost g6 = text_field(6, m.documentation);
        put_text(6, self.documentation.as_str(), buf);
        let ghost all6 = all5 + g6;
        proof {
            lemma_put_more(start, all5, g6, before, buf@);
        }
    }

    fn merge_field(&mut self, field: Field, depth: u32) -> (out: Result<(), Malformed>) {
        match field.tag {
            1 => {
                self.name = text_of(field.payload)?;
            },
            2 => {
                let mut item = Procedure::new();
                merge_payload(&mut item, field.payload, depth)?;
                self.procedures.push(item);
                assert(views(self.procedures@) =~= views(old(self).procedures@).push(item@));
            },
            3 => {
                let mut item = Class::new();
                merge_payload(&mut item, field.payload, depth)?;
                self.classes.push(item);
                assert(views(self.classes@) =~= views(old(self).classes@).push(item@));
            },
            4 => {
                let mut item = Enumeration::new();
                merge_payload(&mut item, field.payload, depth)?;
                self.enumerations.push(item);
                assert(views(self.enumerations@) =~= views(old(self).enumerations@).push(item@));
            },
            5 => {
                let mut item = Exception::new();
                merge_payload(&mut item, field.payload, depth)?;
                self.exceptions.push(item);
                assert(views(self.exceptions@) =~= views(old(self).exceptions@).push(item@));
            },
            6 => {
                self.documentation = text_of(field.payload)?;
            },
            _ => {
                skip_unknown(depth)?;
            },
        }
        Ok(())
    }

    #[verifier::spinoff_prover]
    #[verifier::rlimit(100)]
    proof fn fields_give_message(m: ServiceView, depth: nat) {
        let m0 = Service::empty();
        let g1 = text_field(1, m.name);
        let g2 = repeated_messages::<Procedure>(2, m.procedures);
        let g3 = repeated_messages::<Class>(3, m.classes);
        let g4 = repeated_messages::<Enumeration>(4, m.enumerations);
        let g5 = repeated_messages::<Exception>(5, m.exceptions);
        let g6 = text_field(6, m.documentation);
        let all2 = g1 + g2;
        lemma_fields_concat(g1, g2);
        let all3 = all2 + g3;
        lemma_fields_concat(all2, g3);
        let all4 = all3 + g4;
        lemma_fields_concat(all3, g4);
        let all5 = all4 + g5;
        lemma_fields_concat(all4, g5);
        let all6 = all5 + g6;
        lemma_fields_concat(all5, g6);
        let m1 = ServiceView { name: m.name, ..m0 };
        assert(merge_fields::<Service>(m0, g1, depth) == Ok::<ServiceView, DecodeFault>(m1)
            && plain(g1)) by {
            lemma_text(m.name);
            lemma_one_merges::<Service>(m0, g1, m1, depth);
        }
        let m2 = ServiceView { procedures: m.procedures, ..m1 };
        assert(merge_fields::<Service>(m1, g2, depth) == Ok::<ServiceView, DecodeFault>(m2)
            && plain(g2)) by {
            let states = Seq::new(
                m.procedures.len() + 1,
                |i: int| ServiceView { procedures: m.procedures.take(i), ..m1 },
            );
            assert forall|i: int| 0 <= i < m.procedures.len() implies Service::merged(
                #[trigger] states[i],
                g2[i],
                depth,
            ) == Ok::<ServiceView, DecodeFault>(states[i + 1]) by {
                lemma_field_fits(g2, i);
                lemma_inner_round_trip::<Procedure>(m.procedures[i], (depth - 1) as nat);
                assert(m.procedures.take(i).push(m.procedures[i]) =~= m.procedures.take(i + 1));
            }
            assert(states[0] =~= m1);
            assert(states.last() =~= m2);
            lemma_chain_merges::<Service>(states, g2, depth);
        }
        lemma_both_merge::<Service>(m0, g1, m1, g2, m2, depth);
        lemma_plain_concat(g1, g2);
        let m3 = ServiceView { classes: m.classes, ..m2 };
        assert(merge_fields::<Service>(m2, g3, depth) == Ok::<ServiceView, DecodeFault>(m3)
            && plain(g3)) by {
            let states = Seq::new(
                m.classes.len() + 1,
                |i: int| ServiceView { classes: m.classes.take(i), ..m2 },
            );
            assert forall|i: int| 0 <= i < m.classes.len() implies Service::merged(
                #[trigger] states[i],
                g3[i],
                depth,
            ) == Ok::<ServiceView, DecodeFault>(states[i + 1]) by {
                lemma_field_fits(g3, i);
                lemma_inner_round_trip::<Class>(m.classes[i], (depth - 1) as nat);
                assert(m.classes.take(i).push(m.classes[i]) =~= m.classes.take(i + 1));
            }
            assert(states[0] =~= m2);
            assert(states.last() =~= m3);
            lemma_chain_merges::<Service>(states, g3, depth);
        }
        lemma_both_merge::<Service>(m0, all2, m2, g3, m3, depth);
        lemma_plain_concat(all2, g3);
        let m4 = ServiceView { enumerations: m.enumerations, ..m3 };
        assert(merge_fields::<Service>(m3, g4, depth) == Ok::<ServiceView, DecodeFault>(m4)
            && plain(g4)) by {
            let states = Seq::new(
                m.enumerations.len() + 1,
                |i: int| ServiceView { enumerations: m.enumerations.take(i), ..m3 },
            );
            assert forall|i: int| 0 <= i < m.enumerations.len() implies Service::merged(
                #[trigger] states[i],
                g4[i],
                depth,
            ) == Ok::<ServiceView, DecodeFault>(states[i + 1]) by {
                lemma_field_fits(g4, i);
                lemma_inner_round_trip::<Enumeration>(m.enumerations[i], (depth - 1) as nat);
                assert(m.enumerations.take(i).push(m.enumerations[i]) =~= m.enumerations.take(i + 1));
            }
            assert(states[0] =~= m3);
            assert(states.last() =~= m4);
            lemma_chain_merges::<Service>(states, g4, depth);
        }
        lemma_both_merge::<Service>(m0, all3, m3, g4, m4, depth);
        lemma_plain_concat(all3, g4);
        let m5 = ServiceView { exceptions: m.exceptions, ..m4 };
        assert(merge_fields::<Service>(m4, g5, depth) == Ok::<ServiceView, DecodeFault>(m5)
            && plain(g5)) by {
            let states = Seq::new(
                m.exceptions.len() + 1,
                |i: int| ServiceView { exceptions: m.exceptions.take(i), ..m4 },
            );
            assert forall|i: int| 0 <= i < m.exceptions.len() implies Service::merged(
                #[trigger] states[i],
                g5[i],
                depth,
            ) == Ok::<ServiceView, DecodeFault>(states[i + 1]) by {
                lemma_field_fits(g5, i);
                lemma_inner_round_trip::<Exception>(m.exceptions[i], (depth - 1) as nat);
                assert(m.exceptions.take(i).push(m.exceptions[i]) =~= m.exceptions.take(i + 1));
            }
            assert(states[0] =~= m4);
            assert(states.last() =~= m5);
            lemma_chain_merges::<Service>(states, g5, depth);
        }
        lemma_both_merge::<Service>(m0, all4, m4, g5, m5, depth);
        lemma_plain_concat(all4, g5);
        let m6 = ServiceView { documentation: m.documentation, ..m5 };
        assert(merge_fields::<Service>(m5, g6, depth) == Ok::<ServiceView, DecodeFault>(m6)
            && plain(g6)) by {
            lemma_text(m.documentation);
            lemma_one_merges::<Service>(m5, g6, m6, depth);
        }
        lemma_both_merge::<Service>(m0, all5, m5, g6, m6, depth);
        lemma_plain_concat(all5, g6);
        assert(m6 =~= m);
        lemma_plain_writable(Service::fields(m));
    }

    proof fn unknown_changes_nothing(m: ServiceView, field: FieldView, depth: nat) {
    }
}

/// The services of the server.
#[derive(Debug, PartialEq)]
pub struct Services {
    pub services: Vec<Service>,
}

/// [`Services`] as a value.
#[verifier::ext_equal]
pub struct ServicesView {
    pub services: Seq<ServiceView>,
}

impl View for Services {
    type V = ServicesView;

    open spec fn view(&self) -> ServicesView {
        ServicesView {
            services: views(self.services@),
        }
    }
}

impl Layout for Services {
    open spec fn empty() -> ServicesView {
        ServicesView { services: seq![] }
    }

    open spec fn fields(m: ServicesView) -> Seq<FieldView> {
        repeated_messages::<Service>(1, m.services)
    }

    open spec fn merged(m: ServicesView, field: FieldView, depth: nat) -> Result<
        ServicesView,
        DecodeFault,
    > {
        match field.tag {
            1 => match message_in::<Service>(Service::empty(), field.payload, depth) {
                Ok(item) => Ok(ServicesView { services: m.services.push(item), ..m }),
                Err(e) => Err(e),
            },
            _ => unknown_in(m, depth),
        }
    }

    open spec fn reads_back(m: ServicesView, depth: nat) -> bool {
        &&& forall|i: int|
            0 <= i < m.services.len() ==> inner_reads_back::<Service>(
                #[trigger] m.services[i],
                depth,
            )
    }

    open spec fn knows(tag: u32) -> bool {
        1 <= tag <= 1
    }
}

impl Message for Services {
    fn new() -> (m: Self) {
        let m = Services { services: Vec::new() };
        assert(m@ =~= Services::empty());
        m
    }

    fn put_fields(&self, buf: &mut Vec<u8>) {
        put_repeated_messages(1, &self.services, buf);
        assert(buf@ =~= old(buf)@ + message_bytes::<Services>(self@));
    }

    fn merge_field(&mut self, field: Field, depth: u32) -> (out: Result<(), Malformed>) {
        match field.tag {
            1 => {
                let mut item = Service::new();
                merge_payload(&mut item, field.payload, depth)?;
                self.services.push(item);
                assert(views(self.services@) =~= views(old(self).services@).push(item@));
            },
            _ => {
                skip_unknown(depth)?;
            },
        }
        Ok(())
    }

    proof fn fields_give_message(m: ServicesView, depth: nat) {
        let m0 = Services::empty();
        let g1 = repeated_messages::<Service>(1, m.services);
        let m1 = ServicesView { services: m.services, ..m0 };
        let states = Seq::new(
            m.services.len() + 1,
            |i: int| ServicesView { services: m.services.take(i), ..m0 },
        );
        assert forall|i: int| 0 <= i < m.services.len() implies Services::merged(
            #[trigger] states[i],
            g1[i],
            depth,
        ) == Ok::<ServicesView, DecodeFault>(states[i + 1]) by {
            assert(Services::fields(m)[i] == g1[i]);
            lemma_field_fits(Services::fields(m), i);
            lemma_inner_round_trip::<Service>(m.services[i], (depth - 1) as nat);
            assert(m.services.take(i).push(m.services[i]) =~= m.services.take(i + 1));
        }
        assert(states[0] =~= m0);
        assert(states.last() =~= m1);
        lemma_chain_merges::<Services>(states, g1, depth);
        assert(m1 =~= m);
        lemma_plain_writable(Services::fields(m));
    }

    proof fn unknown_changes_nothing(m: ServicesView, field: FieldView, depth: nat) {
    }
}

/// What a client opens a connection with. `type_code` is the number of a
/// [`ConnectionType`].
#[derive(Debug, PartialEq)]
pub struct ConnectionRequest {
    pub type_code: i32,
    pub client_name: String,
    pub client_identifier: Vec<u8>,
}

/// [`ConnectionRequest`] as a value.
#[verifier::ext_equal]
pub struct ConnectionRequestView {
    pub type_code: i32,
    pub client_name: Seq<char>,
    pub client_identifier: Seq<u8>,
}

impl View for ConnectionRequest {
    type V = ConnectionRequestView;

    open spec fn view(&self) -> ConnectionRequestView {
        ConnectionRequestView {
            type_code: self.type_code,
            client_name: self.client_name@,
            client_identifier: self.client_identifier@,
        }
    }
}

impl Layout for ConnectionRequest {
    open spec fn empty() -> ConnectionRequestView {
        ConnectionRequestView { type_code: 0, client_name: seq![], client_identifier: seq![] }
    }

    open spec fn fields(m: ConnectionRequestView) -> Seq<FieldView> {
        number_field(1, m.type_code as u64) + text_field(2, m.client_name)
            + bytes_field(3, m.client_identifier)
    }

    open spec fn merged(m: ConnectionRequestView, field: FieldView, depth: nat) -> Result<
        ConnectionRequestView,
        DecodeFault,
    > {
        match field.tag {
            1 => match number_in(field.payload) {
                Ok(value) => Ok(ConnectionRequestView { type_code: value as i32, ..m }),
                Err(e) => Err(e),
            },
            2 => match text_in(field.payload) {
                Ok(client_name) => Ok(ConnectionRequestView { client_name, ..m }),
                Err(e) => Err(e),
            },
            3 => match bytes_in(field.payload) {
                Ok(client_identifier) => Ok(ConnectionRequestView { client_identifier, ..m }),
                Err(e) => Err(e),
            },
            _ => unknown_in(m, depth),
        }
    }

    open spec fn reads_back(m: ConnectionRequestView, depth: nat) -> bool {
        true
    }

    open spec fn knows(tag: u32) -> bool {
        1 <= tag <= 3
    }
}

impl Message for ConnectionRequest {
    fn new() -> (m: Self) {
        let m = ConnectionRequest {
            type_code: 0,
            client_name: String::new(),
            client_identifier: Vec::new(),
        };
        assert(m@ =~= ConnectionRequest::empty());
        m
    }

    fn put_fields(&self, buf: &mut Vec<u8>) {
        proof {
            let m = self@;
            let g1 = number_field(1, m.type_code as u64);
            let g2 = text_field(2, m.client_name);
            let g3 = bytes_field(3, m.client_identifier);
            lemma_fields_concat(g1, g2);
            lemma_fields_concat(g1 + g2, g3);
        }
        put_number(1, self.type_code as u64, buf);
        put_text(2, self.client_name.as_str(), buf);
        put_bytes(3, &self.client_identifier, buf);
        assert(buf@ =~= old(buf)@ + message_bytes::<ConnectionRequest>(self@));
    }

    fn merge_field(&mut self, field: Field, depth: u32) -> (out: Result<(), Malformed>) {
        match field.tag {
            1 => {
                self.type_code = number_of(field.payload)? as i32;
            },
            2 => {
                self.client_name = text_of(field.payload)?;
            },
            3 => {
                self.client_identifier = bytes_of(field.payload)?;
            },
            _ => {
                skip_unknown(depth)?;
            },
        }
        Ok(())
    }

    proof fn fields_give_message(m: ConnectionRequestView, depth: nat) {
        let m0 = ConnectionRequest::empty();
        let g1 = number_field(1, m.type_code as u64);
        let g2 = text_field(2, m.client_name);
        let g3 = bytes_field(3, m.client_identifier);
        let m1 = ConnectionRequestView { type_code: m.type_code, ..m0 };
        lemma_i32_varint(m.type_code);
        lemma_one_merges::<ConnectionRequest>(m0, g1, m1, depth);
        let m2 = ConnectionRequestView { client_name: m.client_name, ..m1 };
        lemma_text(m.client_name);
        lemma_one_merges::<ConnectionRequest>(m1, g2, m2, depth);
        lemma_both_merge::<ConnectionRequest>(m0, g1, m1, g2, m2, depth);
        let m3 = ConnectionRequestView { client_identifier: m.client_identifier, ..m2 };
        assert(m.client_identifier.len() == 0 ==> m.client_identifier =~= seq![]);
        lemma_one_merges::<ConnectionRequest>(m2, g3, m3, depth);
        lemma_both_merge::<ConnectionRequest>(m0, g1 + g2, m2, g3, m3, depth);
        assert(m3 =~= m);
        lemma_plain_writable(ConnectionRequest::fields(m));
    }

    proof fn unknown_changes_nothing(m: ConnectionRequestView, field: FieldView, depth: nat) {
    }
}

/// What the server answers the opening of a connection with. `status_code` is the
/// number of a [`ConnectionStatus`].
#[derive(Debug, PartialEq)]
pub struct ConnectionResponse {
    pub status_code: i32,
    pub message: String,
    pub client_identifier: Vec<u8>,
}

/// [`ConnectionResponse`] as a value.
#[verifier::ext_equal]
pub struct ConnectionResponseView {
    pub status_code: i32,
    pub message: Seq<char>,
    pub client_identifier: Seq<u8>,
}

impl View for ConnectionResponse {
    type V = ConnectionResponseView;

    open spec fn view(&self) -> ConnectionResponseView {
        ConnectionResponseView {
            status_code: self.status_code,
            message: self.message@,
            client_identifier: self.client_identifier@,
        }
    }
}

impl Layout for ConnectionResponse {
    open spec fn empty() -> ConnectionResponseView {
        ConnectionResponseView { status_code: 0, message: seq![], client_identifier: seq![] }
    }

    open spec fn fields(m: ConnectionResponseView) -> Seq<FieldView> {
        number_field(1, m.status_code as u64) + text_field(2, m.message)
            + bytes_field(3, m.client_identifier)
    }

    open spec fn merged(m: ConnectionResponseView, field: FieldView, depth: nat) -> Result<
        ConnectionResponseView,
        DecodeFault,
    > {
        match field.tag {
            1 => match number_in(field.payload) {
                Ok(value) => Ok(ConnectionResponseView { status_code: value as i32, ..m }),
                Err(e) => Err(e),
            },
            2 => match text_in(field.payload) {
                Ok(message) => Ok(ConnectionResponseView { message, ..m }),
                Err(e) => Err(e),
            },
            3 => match bytes_in(field.payload) {
                Ok(client_identifier) => Ok(ConnectionResponseView { client_identifier, ..m }),
                Err(e) => Err(e),
            },
            _ => unknown_in(m, depth),
        }
    }

    open spec fn reads_back(m: ConnectionResponseView, depth: nat) -> bool {
        true
    }

    open spec fn knows(tag: u32) -> bool {
        1 <= tag <= 3
    }
}

impl Message for ConnectionResponse {
    fn new() -> (m: Self) {
        let m = ConnectionResponse {
            status_code: 0,
            message: String::new(),
            client_identifier: Vec::new(),
        };
        assert(m@ =~= ConnectionResponse::empty());
        m
    }

    fn put_fields(&self, buf: &mut Vec<u8>) {
        proof {
            let m = self@;
            let g1 = number_field(1, m.status_code as u64);
            let g2 = text_field(2, m.message);
            let g3 = bytes_field(3, m.client_identifier);
            lemma_fields_concat(g1, g2);
            lemma_fields_concat(g1 + g2, g3);
        }
        put_number(1, self.status_code as u64, buf);
        put_text(2, self.message.as_str(), buf);
        put_bytes(3, &self.client_identifier, buf);
        assert(buf@ =~= old(buf)@ + message_bytes::<ConnectionResponse>(self@));
    }

    fn merge_field(&mut self, field: Field, depth: u32) -> (out: Result<(), Malformed>) {
        match field.tag {
            1 => {
                self.status_code = number_of(field.payload)? as i32;
            },
            2 => {
                self.message = text_of(field.payload)?;
            },
            3 => {
                self.client_identifier = bytes_of(field.payload)?;
            },
            _ => {
                skip_unknown(depth)?;
            },
        }
        Ok(())
    }

    proof fn fields_give_message(m: ConnectionResponseView, depth: nat) {
        let m0 = ConnectionResponse::empty();
        let g1 = number_field(1, m.status_code as u64);
        let g2 = text_field(2, m.message);
        let g3 = bytes_field(3, m.client_identifier);
        let m1 = ConnectionResponseView { status_code: m.status_code, ..m0 };
        lemma_i32_varint(m.status_code);
        lemma_one_merges::<ConnectionResponse>(m0, g1, m1, depth);
        let m2 = ConnectionResponseView { message: m.message, ..m1 };
        lemma_text(m.message);
        lemma_one_merges::<ConnectionResponse>(m1, g2, m2, depth);
        lemma_both_merge::<ConnectionResponse>(m0, g1, m1, g2, m2, depth);
        let m3 = ConnectionResponseView { client_identifier: m.client_identifier, ..m2 };
        assert(m.client_identifier.len() == 0 ==> m.client_identifier =~= seq![]);
        lemma_one_merges::<ConnectionResponse>(m2, g3, m3, depth);
        lemma_both_merge::<ConnectionResponse>(m0, g1 + g2, m2, g3, m3, depth);
        assert(m3 =~= m);
        lemma_plain_writable(ConnectionResponse::fields(m));
    }

    proof fn unknown_changes_nothing(m: ConnectionResponseView, field: FieldView, depth: nat) {
    }
}

impl Clone for Argument {
    fn clone(&self) -> (out: Self)
        ensures
            out@ == self@,
    {
        Argument { position: self.position, value: self.value.clone() }
    }
}

impl Clone for ProcedureCall {
    fn clone(&self) -> (out: Self)
        ensures
            out@ == self@,
    {
        let mut arguments: Vec<Argument> = Vec::new();
        for i in 0..self.arguments.len()
            invariant
                views(arguments@) =~= views(self.arguments@).take(i as int),
        {
            let ghost before = views(arguments@);
            let argument = self.arguments[i].clone();
            arguments.push(argument);
            assert(views(arguments@) =~= before.push(argument@));
            assert(views(self.arguments@).take(i + 1) =~= before.push(argument@));
        }
        assert(views(self.arguments@).take(self.arguments@.len() as int) =~= views(
            self.arguments@,
        ));
        ProcedureCall {
            service: self.service.clone(),
            procedure: self.procedure.clone(),
            arguments,
            service_id: self.service_id,
            procedure_id: self.procedure_id,
        }
    }
}

impl Clone for Error {
    fn clone(&self) -> (out: Self)
        ensures
            out@ == self@,
    {
        Error {
            service: self.service.clone(),
            name: self.name.clone(),
            description: self.description.clone(),
            stack_trace: self.stack_trace.clone(),
        }
    }
}

impl ConnectionType {
    /// The number of the connection type in a request.
    pub open spec fn number(self) -> i32 {
        match self {
            ConnectionType::Rpc => 0,
            ConnectionType::Stream => 1,
        }
    }

    /// The number of the connection type in a request.
    pub fn code(self) -> (code: i32)
        ensures
            code == self.number(),
    {
        match self {
            ConnectionType::Rpc => 0,
            ConnectionType::Stream => 1,
        }
    }
}

impl ConnectionStatus {
    /// The status with number `code`. A number that no status has counts as
    /// the first one.
    pub open spec fn numbered(code: i32) -> ConnectionStatus {
        match code {
            1 => ConnectionStatus::MalformedMessage,
            2 => ConnectionStatus::Timeout,
            3 => ConnectionStatus::WrongType,
            _ => ConnectionStatus::Accepted,
        }
    }
}

impl ConnectionResponse {
    /// The status that the response holds.
    pub fn status(&self) -> (status: ConnectionStatus)
        ensures
            status == ConnectionStatus::numbered(self@.status_code),
    {
        match self.status_code {
            1 => ConnectionStatus::MalformedMessage,
            2 => ConnectionStatus::Timeout,
            3 => ConnectionStatus::WrongType,
            _ => ConnectionStatus::Accepted,
        }
    }
}

}
