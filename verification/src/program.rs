//! Construction of an expression tree on the server.
//!
//! Every node of a tree is an object on the server, made by a call that takes
//! the objects of the nodes below as arguments. Which calls those are, and
//! which object each refers to, depends on the tree alone: it becomes a
//! [`Program`], a run of steps each of which refers to the objects that steps
//! before it made. A [`Build`] carries a program out, one reply after another.
use std::collections::HashMap;

use vstd::prelude::*;
use vstd::string::StringExecFns;

use crate::client::ClientRef;
use crate::codec::{arg, call, Decode, Double, Encode, Float};
use crate::error::{Error, Malformed, Result};
use crate::expr::{
    BinaryOp, CollBinaryOp, CollLambdaOp, CollUnaryOp, Lambda, Node, TypeKind, UnaryOp,
};
use crate::krpc::schema::{Argument, ProcedureCall};
use crate::services::krpc::Expression;

verus! {

use vstd::utf8::encode_utf8;

use crate::client::ClientView;
use crate::codec::{items_encode, prefixed, zigzag};
use crate::error::{DecodeFault, Fault};
use crate::expr::{lemma_node_views, node_views, LambdaView, NodeView};
use crate::krpc::schema::{ArgumentView, List, ListView, ProcedureCallView};
use crate::message::{message_bytes, optional_view, views};
use crate::services::krpc::ObjectView;
use crate::wire::{little_endian, read_varint, varint};

/// A procedure of the KRPC service that makes an object on the server.
#[derive(Clone, Copy, Debug, PartialEq, Eq, Structural)]
pub enum Op {
    ConstantDouble,
    ConstantFloat,
    ConstantInt,
    ConstantBool,
    ConstantString,
    CreateList,
    Call,
    Not,
    Cast,
    Parameter,
    Function,
    Select,
    Where,
    Any,
    All,
    OrderBy,
    Aggregate,
    AggregateWithSeed,
    ToList,
    Count,
    Sum,
    Min,
    Max,
    Average,
    Contains,
    Get,
    Concat,
    Equal,
    NotEqual,
    GreaterThan,
    GreaterThanOrEqual,
    LessThan,
    LessThanOrEqual,
    And,
    Or,
    ExclusiveOr,
    Add,
    Subtract,
    Multiply,
    Divide,
    Modulo,
    Power,
    LeftShift,
    RightShift,
    DoubleType,
    FloatType,
    IntType,
    BoolType,
    StringType,
}

impl Op {
    /// The name of the procedure: a static method of the server's class
    /// `Expression` or `Type`.
    pub open spec fn name(self) -> Seq<char> {
        match self {
            Op::ConstantDouble => "Expression_static_ConstantDouble"@,
            Op::ConstantFloat => "Expression_static_ConstantFloat"@,
            Op::ConstantInt => "Expression_static_ConstantInt"@,
            Op::ConstantBool => "Expression_static_ConstantBool"@,
            Op::ConstantString => "Expression_static_ConstantString"@,
            Op::CreateList => "Expression_static_CreateList"@,
            Op::Call => "Expression_static_Call"@,
            Op::Not => "Expression_static_Not"@,
            Op::Cast => "Expression_static_Cast"@,
            Op::Parameter => "Expression_static_Parameter"@,
            Op::Function => "Expression_static_Function"@,
            Op::Select => "Expression_static_Select"@,
            Op::Where => "Expression_static_Where"@,
            Op::Any => "Expression_static_Any"@,
            Op::All => "Expression_static_All"@,
            Op::OrderBy => "Expression_static_OrderBy"@,
            Op::Aggregate => "Expression_static_Aggregate"@,
            Op::AggregateWithSeed => "Expression_static_AggregateWithSeed"@,
            Op::ToList => "Expression_static_ToList"@,
            Op::Count => "Expression_static_Count"@,
            Op::Sum => "Expression_static_Sum"@,
            Op::Min => "Expression_static_Min"@,
            Op::Max => "Expression_static_Max"@,
            Op::Average => "Expression_static_Average"@,
            Op::Contains => "Expression_static_Contains"@,
            Op::Get => "Expression_static_Get"@,
            Op::Concat => "Expression_static_Concat"@,
            Op::Equal => "Expression_static_Equal"@,
            Op::NotEqual => "Expression_static_NotEqual"@,
            Op::GreaterThan => "Expression_static_GreaterThan"@,
            Op::GreaterThanOrEqual => "Expression_static_GreaterThanOrEqual"@,
            Op::LessThan => "Expression_static_LessThan"@,
            Op::LessThanOrEqual => "Expression_static_LessThanOrEqual"@,
            Op::And => "Expression_static_And"@,
            Op::Or => "Expression_static_Or"@,
            Op::ExclusiveOr => "Expression_static_ExclusiveOr"@,
            Op::Add => "Expression_static_Add"@,
            Op::Subtract => "Expression_static_Subtract"@,
            Op::Multiply => "Expression_static_Multiply"@,
            Op::Divide => "Expression_static_Divide"@,
            Op::Modulo => "Expression_static_Modulo"@,
            Op::Power => "Expression_static_Power"@,
            Op::LeftShift => "Expression_static_LeftShift"@,
            Op::RightShift => "Expression_static_RightShift"@,
            Op::DoubleType => "Type_static_Double"@,
            Op::FloatType => "Type_static_Float"@,
            Op::IntType => "Type_static_Int"@,
            Op::BoolType => "Type_static_Bool"@,
            Op::StringType => "Type_static_String"@,
        }
    }

    /// The name of the procedure.
    pub fn procedure(self) -> (name: &'static str)
        ensures
            name@ == self.name(),
    {
        match self {
            Op::ConstantDouble => "Expression_static_ConstantDouble",
            Op::ConstantFloat => "Expression_static_ConstantFloat",
            Op::ConstantInt => "Expression_static_ConstantInt",
            Op::ConstantBool => "Expression_static_ConstantBool",
            Op::ConstantString => "Expression_static_ConstantString",
            Op::CreateList => "Expression_static_CreateList",
            Op::Call => "Expression_static_Call",
            Op::Not => "Expression_static_Not",
            Op::Cast => "Expression_static_Cast",
            Op::Parameter => "Expression_static_Parameter",
            Op::Function => "Expression_static_Function",
            Op::Select => "Expression_static_Select",
            Op::Where => "Expression_static_Where",
            Op::Any => "Expression_static_Any",
            Op::All => "Expression_static_All",
            Op::OrderBy => "Expression_static_OrderBy",
            Op::Aggregate => "Expression_static_Aggregate",
            Op::AggregateWithSeed => "Expression_static_AggregateWithSeed",
            Op::ToList => "Expression_static_ToList",
            Op::Count => "Expression_static_Count",
            Op::Sum => "Expression_static_Sum",
            Op::Min => "Expression_static_Min",
            Op::Max => "Expression_static_Max",
            Op::Average => "Expression_static_Average",
            Op::Contains => "Expression_static_Contains",
            Op::Get => "Expression_static_Get",
            Op::Concat => "Expression_static_Concat",
            Op::Equal => "Expression_static_Equal",
            Op::NotEqual => "Expression_static_NotEqual",
            Op::GreaterThan => "Expression_static_GreaterThan",
            Op::GreaterThanOrEqual => "Expression_static_GreaterThanOrEqual",
            Op::LessThan => "Expression_static_LessThan",
            Op::LessThanOrEqual => "Expression_static_LessThanOrEqual",
            Op::And => "Expression_static_And",
            Op::Or => "Expression_static_Or",
            Op::ExclusiveOr => "Expression_static_ExclusiveOr",
            Op::Add => "Expression_static_Add",
            Op::Subtract => "Expression_static_Subtract",
            Op::Multiply => "Expression_static_Multiply",
            Op::Divide => "Expression_static_Divide",
            Op::Modulo => "Expression_static_Modulo",
            Op::Power => "Expression_static_Power",
            Op::LeftShift => "Expression_static_LeftShift",
            Op::RightShift => "Expression_static_RightShift",
            Op::DoubleType => "Type_static_Double",
            Op::FloatType => "Type_static_Float",
            Op::IntType => "Type_static_Int",
            Op::BoolType => "Type_static_Bool",
            Op::StringType => "Type_static_String",
        }
    }
}
/// An object that a step takes: one that an earlier step made, or one that was
/// there before.
#[derive(Debug)]
pub enum Operand {
    Step(usize),
    Object(Expression),
}

/// What a step passes to its procedure.
#[derive(Debug)]
pub enum Input {
    Double(Double),
    Float(Float),
    Int(i32),
    Bool(bool),
    Text(String),
    Call(ProcedureCall),
    Handle(Operand),
    Handles(Vec<Operand>),
}

/// One call of a construction.
#[derive(Debug)]
pub struct Step {
    pub op: Op,
    pub inputs: Vec<Input>,
}

/// [`Operand`] as a value.
pub enum OperandView {
    Step(nat),
    Object(ObjectView),
}

/// [`Input`] as a value.
pub enum InputView {
    Double(Double),
    Float(Float),
    Int(i32),
    Bool(bool),
    Text(Seq<char>),
    Call(ProcedureCallView),
    Handle(OperandView),
    Handles(Seq<OperandView>),
}

/// [`Step`] as a value.
pub struct StepView {
    pub op: Op,
    pub inputs: Seq<InputView>,
}

impl View for Operand {
    type V = OperandView;

    open spec fn view(&self) -> OperandView {
        match self {
            Operand::Step(i) => OperandView::Step(*i as nat),
            Operand::Object(object) => OperandView::Object(object@),
        }
    }
}

impl View for Input {
    type V = InputView;

    open spec fn view(&self) -> InputView {
        match self {
            Input::Double(v) => InputView::Double(*v),
            Input::Float(v) => InputView::Float(*v),
            Input::Int(v) => InputView::Int(*v),
            Input::Bool(v) => InputView::Bool(*v),
            Input::Text(v) => InputView::Text(v@),
            Input::Call(call) => InputView::Call(call@),
            Input::Handle(operand) => InputView::Handle(operand@),
            Input::Handles(operands) => InputView::Handles(views(operands@)),
        }
    }
}

impl View for Step {
    type V = StepView;

    open spec fn view(&self) -> StepView {
        StepView { op: self.op, inputs: views(self.inputs@) }
    }
}

// --- From trees to steps ---

/// How far a construction has been worked out: the steps so far, and for each
/// lambda parameter in scope the step that made it.
///
/// LINQ requires every reference to a lambda parameter to resolve to the
/// *same* server-side object, so each parameter id maps to exactly one step.
#[verifier::ext_equal]
pub struct Drafted {
    pub steps: Seq<StepView>,
    pub params: Map<u64, nat>,
}

/// One more step, and the object that it makes.
pub open spec fn emitted(s: Drafted, op: Op, inputs: Seq<InputView>) -> (
    Drafted,
    Option<OperandView>,
) {
    (
        Drafted { steps: s.steps.push(StepView { op, inputs }), ..s },
        Some(OperandView::Step(s.steps.len())),
    )
}

/// The procedure that gives the server's type for `kind`.
pub open spec fn type_op(kind: TypeKind) -> Op {
    match kind {
        TypeKind::Double => Op::DoubleType,
        TypeKind::Float => Op::FloatType,
        TypeKind::Int => Op::IntType,
        TypeKind::Bool => Op::BoolType,
        TypeKind::String => Op::StringType,
    }
}

pub open spec fn unary_op(op: UnaryOp) -> Op {
    match op {
        UnaryOp::Not => Op::Not,
    }
}

pub open spec fn binary_op(op: BinaryOp) -> Op {
    match op {
        BinaryOp::Eq => Op::Equal,
        BinaryOp::Ne => Op::NotEqual,
        BinaryOp::Gt => Op::GreaterThan,
        BinaryOp::Ge => Op::GreaterThanOrEqual,
        BinaryOp::Lt => Op::LessThan,
        BinaryOp::Le => Op::LessThanOrEqual,
        BinaryOp::And => Op::And,
        BinaryOp::Or => Op::Or,
        BinaryOp::Xor => Op::ExclusiveOr,
        BinaryOp::Add => Op::Add,
        BinaryOp::Sub => Op::Subtract,
        BinaryOp::Mul => Op::Multiply,
        BinaryOp::Div => Op::Divide,
        BinaryOp::Rem => Op::Modulo,
        BinaryOp::Pow => Op::Power,
        BinaryOp::Shl => Op::LeftShift,
        BinaryOp::Shr => Op::RightShift,
    }
}

pub open spec fn coll_lambda_op(op: CollLambdaOp) -> Op {
    match op {
        CollLambdaOp::MapEach => Op::Select,
        CollLambdaOp::Filter => Op::Where,
        CollLambdaOp::Any => Op::Any,
        CollLambdaOp::All => Op::All,
        CollLambdaOp::SortedBy => Op::OrderBy,
        CollLambdaOp::Reduce => Op::Aggregate,
    }
}

pub open spec fn coll_unary_op(op: CollUnaryOp) -> Op {
    match op {
        CollUnaryOp::Count => Op::Count,
        CollUnaryOp::Sum => Op::Sum,
        CollUnaryOp::Min => Op::Min,
        CollUnaryOp::Max => Op::Max,
        CollUnaryOp::Avg => Op::Average,
    }
}

pub open spec fn coll_binary_op(op: CollBinaryOp) -> Op {
    match op {
        CollBinaryOp::Contains => Op::Contains,
        CollBinaryOp::Get => Op::Get,
        CollBinaryOp::Concat => Op::Concat,
    }
}

/// Lazy server-side enumerables: the results of these ops lack the
/// concrete-list members that `Count` and `Get` compile against, so a `ToList`
/// goes between when one feeds the other.
pub open spec fn lazy(node: NodeView) -> bool {
    match node {
        NodeView::CollLambda(op, _, _) => op == CollLambdaOp::MapEach || op == CollLambdaOp::Filter
            || op == CollLambdaOp::SortedBy,
        NodeView::CollBinary(op, _, _) => op == CollBinaryOp::Concat,
        _ => false,
    }
}

/// The decimal digits of `n`.
pub open spec fn decimal(n: nat) -> Seq<char>
    decreases n,
{
    let digit = (('0' as int) + n % 10) as char;
    if n < 10 {
        seq![digit]
    } else {
        decimal(n / 10).push(digit)
    }
}

/// The name of a lambda parameter on the server.
pub open spec fn param_text(id: u64) -> Seq<char> {
    seq!['p'] + decimal(id as nat)
}

/// Makes the parameters of a lambda, in order: for each its type and then the
/// parameter itself. The steps that made the parameters come out.
pub open spec fn bound(params: Seq<(u64, TypeKind)>, s: Drafted) -> (Drafted, Seq<OperandView>)
    decreases params.len(),
{
    if params.len() == 0 {
        (s, seq![])
    } else {
        let (id, kind) = params.last();
        let (s, made) = bound(params.drop_last(), s);
        let ty = OperandView::Step(s.steps.len());
        let (s, _) = emitted(s, type_op(kind), seq![]);
        let param = s.steps.len();
        let (s, _) = emitted(
            s,
            Op::Parameter,
            seq![InputView::Text(param_text(id)), InputView::Handle(ty)],
        );
        (
            Drafted { params: s.params.insert(id, param), ..s },
            made.push(OperandView::Step(param)),
        )
    }
}

/// Makes the object of a lambda: its parameters, its body, and a function of
/// the two. The parameters are known inside the lambda alone.
pub open spec fn built_lambda(lambda: LambdaView, s: Drafted) -> (Drafted, Option<OperandView>)
    decreases lambda,
{
    let outer = s.params;
    let (s, params) = bound(lambda.params, s);
    let (s, body) = built(*lambda.body, s);
    let s = Drafted { params: outer, ..s };
    match body {
        Some(body) => emitted(
            s,
            Op::Function,
            seq![InputView::Handles(params), InputView::Handle(body)],
        ),
        None => (s, None),
    }
}

/// Makes the objects of a run of trees, in order.
pub open spec fn built_all(nodes: Seq<NodeView>, s: Drafted) -> (Drafted, Option<Seq<OperandView>>)
    decreases nodes,
{
    if nodes.len() == 0 {
        (s, Some(seq![]))
    } else {
        let (s, front) = built_all(nodes.drop_last(), s);
        match front {
            Some(front) => {
                let (s, last) = built(nodes.last(), s);
                match last {
                    Some(last) => (s, Some(front.push(last))),
                    None => (s, None),
                }
            },
            None => (s, None),
        }
    }
}

/// Makes the object of a collection; where `list` is set, of the list of its
/// items.
pub open spec fn listed(list: bool, coll: OperandView, s: Drafted) -> (Drafted, OperandView) {
    if list {
        (
            emitted(s, Op::ToList, seq![InputView::Handle(coll)]).0,
            OperandView::Step(s.steps.len()),
        )
    } else {
        (s, coll)
    }
}

/// Makes the object of a tree bottom-up. No object comes out where the
/// construction comes to a lambda parameter outside its lambda; the steps up
/// to there stand.
pub open spec fn built(node: NodeView, s: Drafted) -> (Drafted, Option<OperandView>)
    decreases node,
{
    match node {
        NodeView::ConstDouble(v) => emitted(s, Op::ConstantDouble, seq![InputView::Double(v)]),
        NodeView::ConstFloat(v) => emitted(s, Op::ConstantFloat, seq![InputView::Float(v)]),
        NodeView::ConstInt(v) => emitted(s, Op::ConstantInt, seq![InputView::Int(v)]),
        NodeView::ConstBool(v) => emitted(s, Op::ConstantBool, seq![InputView::Bool(v)]),
        NodeView::ConstString(v) => emitted(s, Op::ConstantString, seq![InputView::Text(v)]),
        NodeView::ConstList(items) => {
            let (s, items) = built_all(items, s);
            match items {
                Some(items) => emitted(s, Op::CreateList, seq![InputView::Handles(items)]),
                None => (s, None),
            }
        },
        NodeView::Call(call) => emitted(s, Op::Call, seq![InputView::Call(call)]),
        NodeView::Raw(object) => (s, Some(OperandView::Object(object))),
        NodeView::Param(id) => (
            s,
            if s.params.contains_key(id) {
                Some(OperandView::Step(s.params[id]))
            } else {
                None
            },
        ),
        NodeView::Unary(op, a) => {
            let (s, a) = built(*a, s);
            match a {
                Some(a) => emitted(s, unary_op(op), seq![InputView::Handle(a)]),
                None => (s, None),
            }
        },
        NodeView::Cast(a, kind) => {
            let (s, a) = built(*a, s);
            match a {
                Some(a) => {
                    let ty = OperandView::Step(s.steps.len());
                    let (s, _) = emitted(s, type_op(kind), seq![]);
                    emitted(s, Op::Cast, seq![InputView::Handle(a), InputView::Handle(ty)])
                },
                None => (s, None),
            }
        },
        NodeView::CollLambda(op, coll, lambda) => {
            let (s, coll) = built(*coll, s);
            match coll {
                Some(coll) => {
                    let (s, func) = built_lambda(lambda, s);
                    match func {
                        Some(func) => emitted(
                            s,
                            coll_lambda_op(op),
                            seq![InputView::Handle(coll), InputView::Handle(func)],
                        ),
                        None => (s, None),
                    }
                },
                None => (s, None),
            }
        },
        NodeView::Fold(coll, seed, lambda) => {
            let (s, coll) = built(*coll, s);
            match coll {
                Some(coll) => {
                    let (s, seed) = built(*seed, s);
                    match seed {
                        Some(seed) => {
                            let (s, func) = built_lambda(lambda, s);
                            match func {
                                Some(func) => emitted(
                                    s,
                                    Op::AggregateWithSeed,
                                    seq![
                                        InputView::Handle(coll),
                                        InputView::Handle(seed),
                                        InputView::Handle(func),
                                    ],
                                ),
                                None => (s, None),
                            }
                        },
                        None => (s, None),
                    }
                },
                None => (s, None),
            }
        },
        NodeView::CollUnary(op, coll) => {
            let list = op == CollUnaryOp::Count && lazy(*coll);
            let (s, coll) = built(*coll, s);
            match coll {
                Some(coll) => {
                    let (s, coll) = listed(list, coll, s);
                    emitted(s, coll_unary_op(op), seq![InputView::Handle(coll)])
                },
                None => (s, None),
            }
        },
        NodeView::CollBinary(op, coll, rhs) => {
            let list = op == CollBinaryOp::Get && lazy(*coll);
            let (s, coll) = built(*coll, s);
            match coll {
                Some(coll) => {
                    let (s, coll) = listed(list, coll, s);
                    let (s, rhs) = built(*rhs, s);
                    match rhs {
                        Some(rhs) => emitted(
                            s,
                            coll_binary_op(op),
                            seq![InputView::Handle(coll), InputView::Handle(rhs)],
                        ),
                        None => (s, None),
                    }
                },
                None => (s, None),
            }
        },
        NodeView::Binary(op, a, b) => {
            let (s, a) = built(*a, s);
            match a {
                Some(a) => {
                    let (s, b) = built(*b, s);
                    match b {
                        Some(b) => emitted(
                            s,
                            binary_op(op),
                            seq![InputView::Handle(a), InputView::Handle(b)],
                        ),
                        None => (s, None),
                    }
                },
                None => (s, None),
            }
        },
    }
}

/// A construction that is being worked out.
struct Draft {
    steps: Vec<Step>,
    params: HashMap<u64, usize>,
}

impl View for Draft {
    type V = Drafted;

    closed spec fn view(&self) -> Drafted {
        Drafted {
            steps: views(self.steps@),
            params: self.params@.map_values(|i: usize| i as nat),
        }
    }
}

fn digit_text(digit: u64) -> (text: &'static str)
    requires
        digit < 10,
    ensures
        text@ == decimal(digit as nat),
{
    proof {
        reveal_strlit("0");
        reveal_strlit("1");
        reveal_strlit("2");
        reveal_strlit("3");
        reveal_strlit("4");
        reveal_strlit("5");
        reveal_strlit("6");
        reveal_strlit("7");
        reveal_strlit("8");
        reveal_strlit("9");
    }
    let text = match digit {
        0 => "0",
        1 => "1",
        2 => "2",
        3 => "3",
        4 => "4",
        5 => "5",
        6 => "6",
        7 => "7",
        8 => "8",
        _ => "9",
    };
    assert(text@ =~= decimal(digit as nat));
    text
}

/// Appends the decimal digits of a number.
fn append_decimal(n: u64, text: &mut String)
    ensures
        final(text)@ == old(text)@ + decimal(n as nat),
    decreases n,
{
    if n >= 10 {
        append_decimal(n / 10, text);
    }
    text.append(digit_text(n % 10));
    assert(text@ =~= old(text)@ + decimal(n as nat));
}

fn param_name(id: u64) -> (name: String)
    ensures
        name@ == param_text(id),
{
    proof {
        reveal_strlit("p");
    }
    let mut name = "p".to_string();
    append_decimal(id, &mut name);
    assert(name@ =~= param_text(id));
    name
}

/// Whether the objects of a node are lazy server-side enumerables.
pub fn is_lazy(node: &Node) -> (out: bool)
    ensures
        out == lazy(node@),
{
    match node {
        Node::CollLambda(op, _, _) => match op {
            CollLambdaOp::MapEach | CollLambdaOp::Filter | CollLambdaOp::SortedBy => true,
            _ => false,
        },
        Node::CollBinary(op, _, _) => match op {
            CollBinaryOp::Concat => true,
            _ => false,
        },
        _ => false,
    }
}

fn make_type(kind: TypeKind) -> (op: Op)
    ensures
        op == type_op(kind),
{
    match kind {
        TypeKind::Double => Op::DoubleType,
        TypeKind::Float => Op::FloatType,
        TypeKind::Int => Op::IntType,
        TypeKind::Bool => Op::BoolType,
        TypeKind::String => Op::StringType,
    }
}

fn make_binary(op: BinaryOp) -> (out: Op)
    ensures
        out == binary_op(op),
{
    match op {
        BinaryOp::Eq => Op::Equal,
        BinaryOp::Ne => Op::NotEqual,
        BinaryOp::Gt => Op::GreaterThan,
        BinaryOp::Ge => Op::GreaterThanOrEqual,
        BinaryOp::Lt => Op::LessThan,
        BinaryOp::Le => Op::LessThanOrEqual,
        BinaryOp::And => Op::And,
        BinaryOp::Or => Op::Or,
        BinaryOp::Xor => Op::ExclusiveOr,
        BinaryOp::Add => Op::Add,
        BinaryOp::Sub => Op::Subtract,
        BinaryOp::Mul => Op::Multiply,
        BinaryOp::Div => Op::Divide,
        BinaryOp::Rem => Op::Modulo,
        BinaryOp::Pow => Op::Power,
        BinaryOp::Shl => Op::LeftShift,
        BinaryOp::Shr => Op::RightShift,
    }
}

fn make_coll_lambda(op: CollLambdaOp) -> (out: Op)
    ensures
        out == coll_lambda_op(op),
{
    match op {
        CollLambdaOp::MapEach => Op::Select,
        CollLambdaOp::Filter => Op::Where,
        CollLambdaOp::Any => Op::Any,
        CollLambdaOp::All => Op::All,
        CollLambdaOp::SortedBy => Op::OrderBy,
        CollLambdaOp::Reduce => Op::Aggregate,
    }
}

fn make_coll_unary(op: CollUnaryOp) -> (out: Op)
    ensures
        out == coll_unary_op(op),
{
    match op {
        CollUnaryOp::Count => Op::Count,
        CollUnaryOp::Sum => Op::Sum,
        CollUnaryOp::Min => Op::Min,
        CollUnaryOp::Max => Op::Max,
        CollUnaryOp::Avg => Op::Average,
    }
}

fn make_coll_binary(op: CollBinaryOp) -> (out: Op)
    ensures
        out == coll_binary_op(op),
{
    match op {
        CollBinaryOp::Contains => Op::Contains,
        CollBinaryOp::Get => Op::Get,
        CollBinaryOp::Concat => Op::Concat,
    }
}

impl Draft {
    /// Adds a step and gives the object that it makes.
    fn emit(&mut self, op: Op, inputs: Vec<Input>) -> (operand: Operand)
        ensures
            emitted(old(self)@, op, views(inputs@)) == (final(self)@, Some(operand@)),
    {
        let ghost before = views(self.steps@);
        let i = self.steps.len();
        let step = Step { op, inputs };
        self.steps.push(step);
        assert(views(self.steps@) =~= before.push(step@));
        Operand::Step(i)
    }

    fn emit1(&mut self, op: Op, a: Input) -> (operand: Operand)
        ensures
            emitted(old(self)@, op, seq![a@]) == (final(self)@, Some(operand@)),
    {
        let ghost inputs = seq![a@];
        let v = vec![a];
        assert(views(v@) =~= inputs);
        self.emit(op, v)
    }

    fn emit2(&mut self, op: Op, a: Input, b: Input) -> (operand: Operand)
        ensures
            emitted(old(self)@, op, seq![a@, b@]) == (final(self)@, Some(operand@)),
    {
        let ghost inputs = seq![a@, b@];
        let v = vec![a, b];
        assert(views(v@) =~= inputs);
        self.emit(op, v)
    }

    fn build_params(&mut self, params: &Vec<(u64, TypeKind)>) -> (made: Vec<Operand>)
        ensures
            bound(params@, old(self)@) == (final(self)@, views(made@)),
    {
        broadcast use vstd::std_specs::hash::group_hash_axioms;

        let mut made: Vec<Operand> = Vec::new();
        assert(params@.take(0) =~= seq![]);
        assert(views(made@) =~= seq![]);
        for i in 0..params.len()
            invariant
                bound(params@.take(i as int), old(self)@) == (self@, views(made@)),
        {
            let (id, kind) = params[i];
            let ghost s = self@;
            let ghost before = views(made@);
            proof {
                let next = params@.take(i + 1);
                assert(next.drop_last() =~= params@.take(i as int));
                assert(next.last() == params@[i as int]);
            }
            let ty = self.emit(make_type(kind), Vec::new());
            assert(views(Seq::<Input>::empty()) =~= seq![]);
            let ghost typed = self@;
            let n = self.steps.len();
            let param = self.emit2(
                Op::Parameter,
                Input::Text(param_name(id)),
                Input::Handle(ty),
            );
            let ghost parametered = self@;
            self.params.insert(id, n);
            assert(self@.params =~= parametered.params.insert(id, n as nat));
            made.push(param);
            assert(views(made@) =~= before.push(param@));
        }
        assert(params@.take(params@.len() as int) =~= params@);
        made
    }

    fn build_lambda(&mut self, lambda: &Lambda) -> (out: Option<Operand>)
        ensures
            built_lambda(lambda@, old(self)@) == (final(self)@, optional_view(out)),
        decreases *lambda,
    {
        let outer = self.params.clone();
        let params = self.build_params(&lambda.params);
        let body = self.build_node(&lambda.body);
        self.params = outer;
        let body = body?;
        Some(self.emit2(Op::Function, Input::Handles(params), Input::Handle(body)))
    }

    /// Builds a node bottom-up.
    fn build_node(&mut self, node: &Node) -> (out: Option<Operand>)
        ensures
            built(node@, old(self)@) == (final(self)@, optional_view(out)),
        decreases *node,
    {
        match node {
            Node::ConstDouble(v) => Some(self.emit1(Op::ConstantDouble, Input::Double(*v))),
            Node::ConstFloat(v) => Some(self.emit1(Op::ConstantFloat, Input::Float(*v))),
            Node::ConstInt(v) => Some(self.emit1(Op::ConstantInt, Input::Int(*v))),
            Node::ConstBool(v) => Some(self.emit1(Op::ConstantBool, Input::Bool(*v))),
            Node::ConstString(v) => Some(self.emit1(Op::ConstantString, Input::Text(v.clone()))),
            Node::ConstList(items) => {
                let mut made: Vec<Operand> = Vec::new();
                let ghost all = node_views(items@);
                proof {
                    lemma_node_views(items@);
                    assert(all.take(0) =~= seq![]);
                    assert(views(made@) =~= seq![]);
                }
                for i in 0..items.len()
                    invariant
                        *node == Node::ConstList(*items),
                        all == node_views(items@),
                        all.len() == items@.len(),
                        forall|j: int| 0 <= j < all.len() ==> #[trigger] all[j] == items@[j]@,
                        built_all(all.take(i as int), old(self)@) == (self@, Some(views(made@))),
                {
                    proof {
                        assert(decreases_to!(*node => node->ConstList_0));
                        assert(decreases_to!(node->ConstList_0 => node->ConstList_0@));
                        assert(decreases_to!(items@ => items@[i as int]));
                        let next = all.take(i + 1);
                        assert(next.drop_last() =~= all.take(i as int));
                        assert(next.last() == items@[i as int]@);
                    }
                    let ghost before = views(made@);
                    match self.build_node(&items[i]) {
                        Some(item) => {
                            made.push(item);
                            assert(views(made@) =~= before.push(item@));
                        },
                        None => {
                            proof {
                                lemma_stops(all, i + 1, old(self)@);
                                assert(all.take(all.len() as int) =~= all);
                            }
                            return None;
                        },
                    }
                }
                assert(all.take(all.len() as int) =~= all);
                Some(self.emit1(Op::CreateList, Input::Handles(made)))
            },
            Node::Call(call) => Some(self.emit1(Op::Call, Input::Call(call.clone()))),
            Node::Raw(expression) => Some(Operand::Object(expression.clone())),
            Node::Param(id) => {
                broadcast use vstd::std_specs::hash::group_hash_axioms;

                match self.params.get(id) {
                    Some(i) => Some(Operand::Step(*i)),
                    None => None,
                }
            },
            Node::Unary(op, a) => {
                let a = self.build_node(a)?;
                match op {
                    UnaryOp::Not => Some(self.emit1(Op::Not, Input::Handle(a))),
                }
            },
            Node::Cast(a, kind) => {
                let a = self.build_node(a)?;
                let ty = self.emit(make_type(*kind), Vec::new());
                assert(views(Seq::<Input>::empty()) =~= seq![]);
                Some(self.emit2(Op::Cast, Input::Handle(a), Input::Handle(ty)))
            },
            Node::CollLambda(op, coll, lambda) => {
                let coll = self.build_node(coll)?;
                let func = self.build_lambda(lambda)?;
                Some(self.emit2(make_coll_lambda(*op), Input::Handle(coll), Input::Handle(func)))
            },
            Node::Fold(coll, seed, lambda) => {
                let coll = self.build_node(coll)?;
                let seed = self.build_node(seed)?;
                let func = self.build_lambda(lambda)?;
                let ghost inputs = seq![
                    InputView::Handle(coll@),
                    InputView::Handle(seed@),
                    InputView::Handle(func@),
                ];
                let v = vec![Input::Handle(coll), Input::Handle(seed), Input::Handle(func)];
                assert(views(v@) =~= inputs);
                Some(self.emit(Op::AggregateWithSeed, v))
            },
            Node::CollUnary(op, coll) => {
                // `Count` compiles against concrete-list members that lazy
                // enumerables (map/filter/... results) lack; normalize.
                let needs_list = matches!(op, CollUnaryOp::Count) && is_lazy(coll);
                let mut coll = self.build_node(coll)?;
                if needs_list {
                    coll = self.emit1(Op::ToList, Input::Handle(coll));
                }
                Some(self.emit1(make_coll_unary(*op), Input::Handle(coll)))
            },
            Node::CollBinary(op, coll, rhs) => {
                // `Get` indexes via concrete-list members; normalize.
                let needs_list = matches!(op, CollBinaryOp::Get) && is_lazy(coll);
                let mut coll = self.build_node(coll)?;
                if needs_list {
                    coll = self.emit1(Op::ToList, Input::Handle(coll));
                }
                let rhs = self.build_node(rhs)?;
                Some(self.emit2(make_coll_binary(*op), Input::Handle(coll), Input::Handle(rhs)))
            },
            Node::Binary(op, a, b) => {
                let a = self.build_node(a)?;
                let b = self.build_node(b)?;
                Some(self.emit2(make_binary(*op), Input::Handle(a), Input::Handle(b)))
            },
        }
    }
}

/// Where some front of a run of trees comes to an unknown parameter, the run
/// stops there.
proof fn lemma_stops(nodes: Seq<NodeView>, n: int, s: Drafted)
    requires
        0 <= n <= nodes.len(),
        built_all(nodes.take(n), s).1 is None,
    ensures
        built_all(nodes.take(nodes.len() as int), s) == built_all(nodes.take(n), s),
    decreases nodes.len() - n,
{
    if n < nodes.len() {
        assert(nodes.take(n + 1).drop_last() =~= nodes.take(n));
        lemma_stops(nodes, n + 1, s);
    }
}

// --- Steps refer back ---

/// Whether an object is there once `n` steps were carried out.
pub open spec fn in_range(operand: OperandView, n: nat) -> bool {
    match operand {
        OperandView::Step(i) => i < n,
        OperandView::Object(_) => true,
    }
}

/// Whether the objects in an input are there once `n` steps were carried out.
pub open spec fn input_in_range(input: InputView, n: nat) -> bool {
    match input {
        InputView::Handle(operand) => in_range(operand, n),
        InputView::Handles(operands) => forall|i: int|
            0 <= i < operands.len() ==> in_range(#[trigger] operands[i], n),
        _ => true,
    }
}

/// Whether all that a step takes is there once `n` steps were carried out.
pub open spec fn step_in_range(step: StepView, n: nat) -> bool {
    forall|i: int|
        0 <= i < step.inputs.len() ==> input_in_range(#[trigger] step.inputs[i], n)
}

/// Whether each step takes only what the steps before it made.
pub open spec fn refers_back(steps: Seq<StepView>) -> bool {
    forall|k: int| 0 <= k < steps.len() ==> step_in_range(#[trigger] steps[k], k as nat)
}

/// Whether each step takes only what the steps before it made, and each known
/// parameter was made.
#[verifier::opaque]
pub open spec fn sound(s: Drafted) -> bool {
    &&& refers_back(s.steps)
    &&& forall|id: u64| #[trigger] s.params.contains_key(id) ==> s.params[id] < s.steps.len()
}

/// Whether `later` has the steps of `s`, and perhaps more behind them.
#[verifier::opaque]
pub open spec fn extends(s: Drafted, later: Drafted) -> bool {
    &&& s.steps.len() <= later.steps.len()
    &&& forall|k: int| 0 <= k < s.steps.len() ==> #[trigger] later.steps[k] == s.steps[k]
}

pub(crate) proof fn lemma_extends_itself(s: Drafted)
    ensures
        extends(s, s),
{
    reveal(extends);
}

pub(crate) proof fn lemma_extends_further(a: Drafted, b: Drafted, c: Drafted)
    requires
        extends(a, b),
        extends(b, c),
    ensures
        extends(a, c),
        a.steps.len() <= b.steps.len() <= c.steps.len(),
{
    reveal(extends);
}

pub(crate) proof fn lemma_emitted(s: Drafted, t: Drafted, op: Op, inputs: Seq<InputView>)
    requires
        sound(t),
        extends(s, t),
        forall|i: int|
            0 <= i < inputs.len() ==> input_in_range(#[trigger] inputs[i], t.steps.len()),
    ensures
        sound(emitted(t, op, inputs).0),
        extends(s, emitted(t, op, inputs).0),
        extends(t, emitted(t, op, inputs).0),
        emitted(t, op, inputs).0.steps.len() == t.steps.len() + 1,
{
    reveal(sound);
    reveal(extends);
}

proof fn lemma_bound_sound(params: Seq<(u64, TypeKind)>, s: Drafted)
    requires
        sound(s),
    ensures
        sound(bound(params, s).0),
        extends(s, bound(params, s).0),
        bound(params, s).1.len() == params.len(),
        forall|i: int|
            0 <= i < params.len() ==> in_range(
                #[trigger] bound(params, s).1[i],
                bound(params, s).0.steps.len(),
            ),
    decreases params.len(),
{
    if params.len() == 0 {
        lemma_extends_itself(s);
    } else {
        lemma_bound_sound(params.drop_last(), s);
        let (id, kind) = params.last();
        let (s1, _) = bound(params.drop_last(), s);
        lemma_emitted(s, s1, type_op(kind), seq![]);
        let (s2, _) = emitted(s1, type_op(kind), seq![]);
        let ty = OperandView::Step(s1.steps.len());
        let inputs = seq![InputView::Text(param_text(id)), InputView::Handle(ty)];
        lemma_emitted(s, s2, Op::Parameter, inputs);
        let (s3, _) = emitted(s2, Op::Parameter, inputs);
        let s4 = Drafted { params: s3.params.insert(id, s2.steps.len()), ..s3 };
        assert(sound(s4) && extends(s, s4)) by {
            reveal(sound);
            reveal(extends);
        }
    }
}

proof fn lemma_lambda_sound(lambda: LambdaView, s: Drafted)
    requires
        sound(s),
    ensures
        sound(built_lambda(lambda, s).0),
        extends(s, built_lambda(lambda, s).0),
        built_lambda(lambda, s).1 matches Some(operand) ==> in_range(
            operand,
            built_lambda(lambda, s).0.steps.len(),
        ),
    decreases lambda,
{
    lemma_bound_sound(lambda.params, s);
    let (s1, params) = bound(lambda.params, s);
    lemma_built_sound(*lambda.body, s1);
    let (s2, body) = built(*lambda.body, s1);
    lemma_extends_further(s, s1, s2);
    let s3 = Drafted { params: s.params, ..s2 };
    assert(sound(s3) && extends(s, s3)) by {
        reveal(sound);
        reveal(extends);
    }
    if let Some(body) = body {
        lemma_emitted(
            s,
            s3,
            Op::Function,
            seq![InputView::Handles(params), InputView::Handle(body)],
        );
    }
}

proof fn lemma_all_sound(nodes: Seq<NodeView>, s: Drafted)
    requires
        sound(s),
    ensures
        sound(built_all(nodes, s).0),
        extends(s, built_all(nodes, s).0),
        built_all(nodes, s).1 matches Some(operands) ==> operands.len() == nodes.len()
            && forall|i: int|
            0 <= i < operands.len() ==> in_range(
                #[trigger] operands[i],
                built_all(nodes, s).0.steps.len(),
            ),
    decreases nodes,
{
    if nodes.len() == 0 {
        lemma_extends_itself(s);
    } else {
        lemma_all_sound(nodes.drop_last(), s);
        let (s1, front) = built_all(nodes.drop_last(), s);
        if front is Some {
            lemma_built_sound(nodes.last(), s1);
            lemma_extends_further(s, s1, built(nodes.last(), s1).0);
        }
    }
}

/// Working out a tree keeps the steps that are there, adds steps that refer
/// back, and gives an object that is there.
#[verifier::spinoff_prover]
#[verifier::rlimit(40)]
proof fn lemma_built_sound(node: NodeView, s: Drafted)
    requires
        sound(s),
    ensures
        sound(built(node, s).0),
        extends(s, built(node, s).0),
        built(node, s).1 matches Some(operand) ==> in_range(
            operand,
            built(node, s).0.steps.len(),
        ),
    decreases node,
{
    lemma_extends_itself(s);
    match node {
        NodeView::ConstDouble(v) => lemma_emitted(
            s,
            s,
            Op::ConstantDouble,
            seq![InputView::Double(v)],
        ),
        NodeView::ConstFloat(v) => lemma_emitted(
            s,
            s,
            Op::ConstantFloat,
            seq![InputView::Float(v)],
        ),
        NodeView::ConstInt(v) => lemma_emitted(s, s, Op::ConstantInt, seq![InputView::Int(v)]),
        NodeView::ConstBool(v) => lemma_emitted(s, s, Op::ConstantBool, seq![InputView::Bool(v)]),
        NodeView::ConstString(v) => lemma_emitted(
            s,
            s,
            Op::ConstantString,
            seq![InputView::Text(v)],
        ),
        NodeView::ConstList(items) => {
            lemma_all_sound(items, s);
            let (s1, operands) = built_all(items, s);
            if let Some(operands) = operands {
                lemma_emitted(s, s1, Op::CreateList, seq![InputView::Handles(operands)]);
            }
        },
        NodeView::Call(call) => lemma_emitted(s, s, Op::Call, seq![InputView::Call(call)]),
        NodeView::Raw(_) => {},
        NodeView::Param(id) => {
            assert(s.params.contains_key(id) ==> s.params[id] < s.steps.len()) by {
                reveal(sound);
            }
        },
        NodeView::Unary(op, a) => {
            lemma_built_sound(*a, s);
            let (s1, a) = built(*a, s);
            if let Some(a) = a {
                lemma_emitted(s, s1, unary_op(op), seq![InputView::Handle(a)]);
            }
        },
        NodeView::Cast(a, kind) => {
            lemma_built_sound(*a, s);
            let (s1, a) = built(*a, s);
            if let Some(a) = a {
                lemma_emitted(s, s1, type_op(kind), seq![]);
                let ty = OperandView::Step(s1.steps.len());
                let (s2, _) = emitted(s1, type_op(kind), seq![]);
                lemma_emitted(s, s2, Op::Cast, seq![InputView::Handle(a), InputView::Handle(ty)]);
            }
        },
        NodeView::CollLambda(op, coll, lambda) => {
            lemma_built_sound(*coll, s);
            let (s1, coll) = built(*coll, s);
            if let Some(coll) = coll {
                lemma_lambda_sound(lambda, s1);
                let (s2, func) = built_lambda(lambda, s1);
                lemma_extends_further(s, s1, s2);
                if let Some(func) = func {
                    lemma_emitted(
                        s,
                        s2,
                        coll_lambda_op(op),
                        seq![InputView::Handle(coll), InputView::Handle(func)],
                    );
                }
            }
        },
        NodeView::Fold(coll, seed, lambda) => {
            lemma_built_sound(*coll, s);
            let (s1, coll) = built(*coll, s);
            if let Some(coll) = coll {
                lemma_built_sound(*seed, s1);
                let (s2, seed) = built(*seed, s1);
                lemma_extends_further(s, s1, s2);
                if let Some(seed) = seed {
                    lemma_lambda_sound(lambda, s2);
                    let (s3, func) = built_lambda(lambda, s2);
                    lemma_extends_further(s, s2, s3);
                    if let Some(func) = func {
                        lemma_emitted(
                            s,
                            s3,
                            Op::AggregateWithSeed,
                            seq![
                                InputView::Handle(coll),
                                InputView::Handle(seed),
                                InputView::Handle(func),
                            ],
                        );
                    }
                }
            }
        },
        NodeView::CollUnary(op, coll) => {
            let list = op == CollUnaryOp::Count && lazy(*coll);
            lemma_built_sound(*coll, s);
            let (s1, coll) = built(*coll, s);
            if let Some(coll) = coll {
                lemma_listed_sound(list, coll, s, s1);
                let (s2, coll) = listed(list, coll, s1);
                lemma_emitted(s, s2, coll_unary_op(op), seq![InputView::Handle(coll)]);
            }
        },
        NodeView::CollBinary(op, coll, rhs) => {
            let list = op == CollBinaryOp::Get && lazy(*coll);
            lemma_built_sound(*coll, s);
            let (s1, coll) = built(*coll, s);
            if let Some(coll) = coll {
                lemma_listed_sound(list, coll, s, s1);
                let (s2, coll) = listed(list, coll, s1);
                lemma_built_sound(*rhs, s2);
                let (s3, rhs) = built(*rhs, s2);
                lemma_extends_further(s, s2, s3);
                if let Some(rhs) = rhs {
                    lemma_emitted(
                        s,
                        s3,
                        coll_binary_op(op),
                        seq![InputView::Handle(coll), InputView::Handle(rhs)],
                    );
                }
            }
        },
        NodeView::Binary(op, a, b) => {
            lemma_built_sound(*a, s);
            let (s1, a) = built(*a, s);
            if let Some(a) = a {
                lemma_built_sound(*b, s1);
                let (s2, b) = built(*b, s1);
                lemma_extends_further(s, s1, s2);
                if let Some(b) = b {
                    lemma_emitted(
                        s,
                        s2,
                        binary_op(op),
                        seq![InputView::Handle(a), InputView::Handle(b)],
                    );
                }
            }
        },
    }
}

proof fn lemma_listed_sound(list: bool, coll: OperandView, s: Drafted, t: Drafted)
    requires
        sound(t),
        extends(s, t),
        in_range(coll, t.steps.len()),
    ensures
        sound(listed(list, coll, t).0),
        extends(s, listed(list, coll, t).0),
        in_range(listed(list, coll, t).1, listed(list, coll, t).0.steps.len()),
{
    if list {
        lemma_emitted(s, t, Op::ToList, seq![InputView::Handle(coll)]);
    }
}

// --- Carrying a program out ---

/// Nothing worked out yet.
pub open spec fn blank() -> Drafted {
    Drafted { steps: seq![], params: Map::empty() }
}

/// The calls that construct a tree on the server, and the object that is the
/// tree's. There is no such object where the tree uses a lambda parameter
/// outside its lambda.
#[derive(Debug)]
pub struct Program {
    pub steps: Vec<Step>,
    pub root: Option<Operand>,
}

/// [`Program`] as a value.
pub struct ProgramView {
    pub steps: Seq<StepView>,
    pub root: Option<OperandView>,
}

impl View for Program {
    type V = ProgramView;

    open spec fn view(&self) -> ProgramView {
        ProgramView { steps: views(self.steps@), root: optional_view(self.root) }
    }
}

/// The program of a tree.
pub open spec fn program_of(node: NodeView) -> ProgramView {
    let (s, root) = built(node, blank());
    ProgramView { steps: s.steps, root }
}

/// Whether each step takes only what the steps before it made, and the root
/// was made.
pub open spec fn well_formed(program: ProgramView) -> bool {
    &&& refers_back(program.steps)
    &&& program.root matches Some(root) ==> in_range(root, program.steps.len())
}

/// The program of a tree can be carried out from the front: each call takes
/// only objects that calls before it made.
pub proof fn program_is_well_formed(node: NodeView)
    ensures
        well_formed(program_of(node)),
{
    reveal(sound);
    lemma_built_sound(node, blank());
}

impl Program {
    /// Works out the program of a tree.
    pub fn new(node: &Node) -> (program: Self)
        ensures
            program@ == program_of(node@),
            well_formed(program@),
    {
        let mut draft = Draft { steps: Vec::new(), params: HashMap::new() };
        proof {
            assert(draft@ =~= blank());
            program_is_well_formed(node@);
        }
        let root = draft.build_node(node);
        Program { steps: draft.steps, root }
    }
}

/// The id of an object, where `ids` are those that the steps made.
pub open spec fn resolved(operand: OperandView, ids: Seq<u64>) -> u64 {
    match operand {
        OperandView::Step(i) => ids[i as int],
        OperandView::Object(object) => object.id,
    }
}

/// The encoded argument for an input, where `ids` are those that the steps
/// made.
pub open spec fn input_bytes(input: InputView, ids: Seq<u64>) -> Seq<u8> {
    match input {
        InputView::Double(v) => little_endian(v.bits as nat, 8),
        InputView::Float(v) => little_endian(v.bits as nat, 4),
        InputView::Int(v) => varint(zigzag(v as int)),
        InputView::Bool(v) => varint(if v { 1 } else { 0 }),
        InputView::Text(v) => prefixed(encode_utf8(v)),
        InputView::Call(call) => message_bytes::<ProcedureCall>(call),
        InputView::Handle(operand) => varint(resolved(operand, ids) as nat),
        InputView::Handles(operands) => message_bytes::<List>(
            ListView {
                items: Seq::new(
                    operands.len(),
                    |i: int| varint(resolved(operands[i], ids) as nat),
                ),
            },
        ),
    }
}

/// The call of a step, where `ids` are those that the steps before it made:
/// the step's procedure, and its inputs in order.
pub open spec fn step_call(step: StepView, ids: Seq<u64>) -> ProcedureCallView {
    ProcedureCallView {
        service: "KRPC"@,
        procedure: step.op.name(),
        arguments: Seq::new(
            step.inputs.len(),
            |i: int| ArgumentView {
                position: i as u32,
                value: input_bytes(step.inputs[i], ids),
            },
        ),
        service_id: 0,
        procedure_id: 0,
    }
}

fn resolve(operand: &Operand, ids: &Vec<u64>) -> (id: u64)
    requires
        in_range(operand@, ids@.len()),
    ensures
        id == resolved(operand@, ids@),
{
    match operand {
        Operand::Step(i) => ids[*i],
        Operand::Object(object) => object.id(),
    }
}

fn encode_input(position: u32, input: &Input, ids: &Vec<u64>) -> (argument: Argument)
    requires
        input_in_range(input@, ids@.len()),
    ensures
        argument@ == (ArgumentView { position, value: input_bytes(input@, ids@) }),
{
    match input {
        Input::Double(v) => arg(position, v),
        Input::Float(v) => arg(position, v),
        Input::Int(v) => arg(position, v),
        Input::Bool(v) => arg(position, v),
        Input::Text(v) => arg(position, v.as_str()),
        Input::Call(call) => arg(position, call),
        Input::Handle(operand) => arg(position, &resolve(operand, ids)),
        Input::Handles(operands) => {
            let mut items: Vec<u64> = Vec::new();
            assert forall|j: int| 0 <= j < operands@.len() implies in_range(
                #[trigger] operands@[j]@,
                ids@.len(),
            ) by {
                assert(in_range((input@->Handles_0)[j], ids@.len()));
            }
            for i in 0..operands.len()
                invariant
                    forall|j: int|
                        0 <= j < operands@.len() ==> in_range(
                            #[trigger] operands@[j]@,
                            ids@.len(),
                        ),
                    items@.len() == i,
                    forall|j: int|
                        0 <= j < i ==> #[trigger] items@[j] == resolved(operands@[j]@, ids@),
            {
                items.push(resolve(&operands[i], ids));
            }
            let argument = arg(position, &items);
            proof {
                let encoded = choose|encoded: Seq<Seq<u8>>| #[trigger]
                    items_encode(items@, encoded) && argument@.value == message_bytes::<List>(
                        ListView { items: encoded },
                    );
                let expected = Seq::new(
                    views(operands@).len(),
                    |i: int| varint(resolved(views(operands@)[i], ids@) as nat),
                );
                assert forall|i: int| 0 <= i < encoded.len() implies encoded[i] == expected[i] by {
                    assert(items@[i].krpc_encodes(encoded[i]));
                }
                assert(encoded =~= expected);
            }
            argument
        },
    }
}

fn make_call(step: &Step, ids: &Vec<u64>) -> (out: ProcedureCall)
    requires
        step_in_range(step@, ids@.len()),
    ensures
        out@ == step_call(step@, ids@),
{
    let mut arguments: Vec<Argument> = Vec::new();
    for i in 0..step.inputs.len()
        invariant
            step_in_range(step@, ids@.len()),
            arguments@.len() == i,
            forall|j: int|
                0 <= j < i ==> (#[trigger] arguments@[j])@ == (ArgumentView {
                    position: j as u32,
                    value: input_bytes(step@.inputs[j], ids@),
                }),
    {
        assert(input_in_range(step@.inputs[i as int], ids@.len()));
        let argument = encode_input(i as u32, &step.inputs[i], ids);
        arguments.push(argument);
    }
    assert(views(arguments@) =~= step_call(step@, ids@).arguments);
    call("KRPC", step.op.procedure(), arguments)
}

/// A program that is being carried out: the calls that were answered so far
/// made the objects `ids`. The first failure ends it.
#[derive(Debug)]
pub struct Build {
    client: ClientRef,
    program: Program,
    ids: Vec<u64>,
    failure: Option<Error>,
}

/// [`Build`] as a value.
pub struct BuildView {
    pub client: ClientView,
    pub program: ProgramView,
    pub ids: Seq<u64>,
    pub failure: Option<Error>,
}

impl BuildView {
    /// Whether a call is to be made: none failed, and not all were answered.
    pub open spec fn pending(self) -> bool {
        self.failure is None && self.ids.len() < self.program.steps.len()
    }

    /// The call to make next.
    pub open spec fn next(self) -> Option<ProcedureCallView> {
        if self.pending() {
            Some(step_call(self.program.steps[self.ids.len() as int], self.ids))
        } else {
            None
        }
    }

    /// Whether `after` is the build once `reply` came to the call that was to
    /// be made next.
    pub open spec fn replied(self, reply: Result<Vec<u8>>, after: BuildView) -> bool {
        &&& after.client == self.client
        &&& after.program == self.program
        &&& match reply {
            Ok(bytes) => match read_varint(bytes@) {
                Some((id, _)) => after.ids == self.ids.push(id) && after.failure is None,
                None => after.ids == self.ids && (after.failure matches Some(e) && e@
                    == Fault::Decode(DecodeFault::Wire)),
            },
            Err(cause) => after.ids == self.ids && after.failure == Some(cause),
        }
    }

    /// Whether the construction came to `out`.
    pub open spec fn came_to(self, out: Result<Expression>) -> bool {
        match self.failure {
            Some(e) => out == Err::<Expression, Error>(e),
            None => match self.program.root {
                Some(OperandView::Step(i)) => out matches Ok(expression) && expression@ == (
                ObjectView { id: self.ids[i as int], client: self.client }),
                Some(OperandView::Object(object)) => out matches Ok(expression) && expression@
                    == object,
                None => out matches Err(e) && e@ == Fault::Decode(DecodeFault::UnboundParameter),
            },
        }
    }
}

/// Where every call of a program is answered with a handle, the calls are
/// those of its steps in order, each given the handles of the calls before it;
/// what comes out is the object that the root's call was answered with, on the
/// connection that the build is for. `views` are the build before each call and
/// at the end, `replies` the answers and `handles` the ids in them.
pub proof fn answered_builds_come_to_their_root(
    views: Seq<BuildView>,
    replies: Seq<Result<Vec<u8>>>,
    handles: Seq<u64>,
    k: int,
    out: Result<Expression>,
)
    requires
        views.len() == views[0].program.steps.len() + 1,
        replies.len() == handles.len() == views.len() - 1,
        well_formed(views[0].program),
        views[0].ids.len() == 0,
        views[0].failure is None,
        forall|i: int|
            0 <= i < replies.len() ==> (#[trigger] views[i]).replied(replies[i], views[i + 1]),
        forall|i: int|
            0 <= i < replies.len() ==> (#[trigger] replies[i] matches Ok(bytes) && (read_varint(
                bytes@,
            ) matches Some((id, _)) && id == handles[i])),
        0 <= k < views.len(),
        views.last().came_to(out),
    ensures
        k < replies.len() ==> views[k].next() == Some(
            step_call(views[0].program.steps[k], handles.take(k)),
        ),
        views.last().next() is None,
        match views[0].program.root {
            Some(OperandView::Step(i)) => out matches Ok(expression) && expression@.id
                == handles[i as int] && expression@.client == views[0].client,
            Some(OperandView::Object(object)) => out matches Ok(expression) && expression@
                == object,
            None => out matches Err(e) && e@ == Fault::Decode(DecodeFault::UnboundParameter),
        },
{
    lemma_answered(views, replies, handles, k);
    lemma_answered(views, replies, handles, views.len() - 1);
    assert(handles.take(handles.len() as int) =~= handles);
}

proof fn lemma_answered(
    views: Seq<BuildView>,
    replies: Seq<Result<Vec<u8>>>,
    handles: Seq<u64>,
    k: int,
)
    requires
        views.len() == replies.len() + 1,
        replies.len() == handles.len(),
        views[0].ids.len() == 0,
        views[0].failure is None,
        forall|i: int|
            0 <= i < replies.len() ==> (#[trigger] views[i]).replied(replies[i], views[i + 1]),
        forall|i: int|
            0 <= i < replies.len() ==> (#[trigger] replies[i] matches Ok(bytes) && (read_varint(
                bytes@,
            ) matches Some((id, _)) && id == handles[i])),
        0 <= k < views.len(),
    ensures
        views[k].ids == handles.take(k),
        views[k].failure is None,
        views[k].program == views[0].program,
        views[k].client == views[0].client,
    decreases k,
{
    if k > 0 {
        lemma_answered(views, replies, handles, k - 1);
        assert(views[k - 1].replied(replies[k - 1], views[k - 1 + 1]));
        assert(replies[k - 1] is Ok);
        assert(handles.take(k) =~= handles.take(k - 1).push(handles[k - 1]));
    } else {
        assert(views[0].ids =~= handles.take(0));
    }
}

/// The first failed call ends a construction: no call is made after it, and its
/// own failure is what comes out. A reply that is no handle is such a failure.
pub proof fn first_failure_ends_a_build(
    before: BuildView,
    reply: Result<Vec<u8>>,
    after: BuildView,
    out: Result<Expression>,
)
    requires
        before.replied(reply, after),
        after.came_to(out),
        reply matches Ok(bytes) ==> read_varint(bytes@) is None,
    ensures
        after.next() is None,
        reply matches Err(cause) ==> out == Err::<Expression, Error>(cause),
        reply is Ok ==> (out matches Err(e) && e@ == Fault::Decode(DecodeFault::Wire)),
{
}

impl View for Build {
    type V = BuildView;

    closed spec fn view(&self) -> BuildView {
        BuildView {
            client: self.client@,
            program: self.program@,
            ids: self.ids@,
            failure: self.failure,
        }
    }
}

impl Build {
    /// The objects are those that the first steps of the program made, whose
    /// steps refer back.
    #[verifier::type_invariant]
    spec fn in_step(self) -> bool {
        well_formed(self.program@) && self.ids@.len() <= self.program@.steps.len()
    }

    /// Starts on the program of a tree.
    pub fn new(client: &ClientRef, node: &Node) -> (build: Self)
        ensures
            build@ == (BuildView {
                client: client@,
                program: program_of(node@),
                ids: seq![],
                failure: None,
            }),
    {
        Build {
            client: client.clone(),
            program: Program::new(node),
            ids: Vec::new(),
            failure: None,
        }
    }

    /// The call to make next; `None` once all were answered or one failed.
    pub fn next_call(&self) -> (out: Option<ProcedureCall>)
        ensures
            self@.next() == match out {
                Some(call) => Some(call@),
                None => None,
            },
    {
        proof {
            use_type_invariant(self);
        }
        let n = self.ids.len();
        if self.failure.is_none() && n < self.program.steps.len() {
            assert(step_in_range(self@.program.steps[n as int], n as nat));
            Some(make_call(&self.program.steps[n], &self.ids))
        } else {
            None
        }
    }

    /// Takes the reply to the call that was to be made next. A reply that is
    /// an error, or that is no handle, ends the construction with that error.
    pub fn reply(&mut self, reply: Result<Vec<u8>>)
        requires
            old(self)@.pending(),
        ensures
            old(self)@.replied(reply, final(self)@),
    {
        proof {
            use_type_invariant(&*self);
        }
        match reply {
            Ok(bytes) => match Expression::decode_krpc(&self.client, &bytes) {
                Ok(object) => {
                    let mut ids = Vec::new();
                    std::mem::swap(&mut ids, &mut self.ids);
                    ids.push(object.id());
                    self.ids = ids;
                },
                Err(e) => {
                    self.failure = Some(e);
                },
            },
            Err(e) => {
                self.failure = Some(e);
            },
        }
    }

    /// What the construction came to, once no call is to be made: the first
    /// failure, or else the object of the tree. A lambda parameter that is
    /// used outside its lambda shows here.
    pub fn finish(self) -> (out: Result<Expression>)
        requires
            !self@.pending(),
        ensures
            self@.came_to(out),
    {
        proof {
            use_type_invariant(&self);
        }
        if let Some(e) = self.failure {
            return Err(e);
        }
        match self.program.root {
            Some(Operand::Step(i)) => Ok(Expression::new(self.ids[i], self.client)),
            Some(Operand::Object(expression)) => Ok(expression),
            None => Err(Error::Decode(Malformed::UnboundParameter)),
        }
    }
}

}
