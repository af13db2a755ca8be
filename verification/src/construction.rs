//! What a construction sends to the server.
//!
//! The laws here speak of the calls that a program makes, over the procedures
//! that they name and the arguments that they carry.
use vstd::prelude::*;

use crate::codec::{Double, Float};
use crate::expr::{
    BinaryOp, CastTarget, CollBinaryOp, CollLambdaOp, CollUnaryOp, Expr, Integer, IntoExpr, Number,
    ParamId, ParamType, TypeKind, UnaryOp,
};
use crate::krpc::schema::{List, ProcedureCall};
use crate::program::Op;

verus! {

use vstd::utf8::encode_utf8;

use crate::error::DecodeFault;
use crate::expr::{binary_node, lambda1_view, lambda2_view, LambdaView, NodeView};
use crate::krpc::schema::{ListView, ProcedureCallView};
use crate::message::{message_bytes, message_round_trip, read_message};
use crate::round_trip::lemma_number;
use crate::wire::{
    delimited_round_trip, from_little_endian, lemma_widths, little_endian_round_trip,
    read_delimited, read_varint, varint,
};
use crate::program::{
    binary_op, blank, bound, built, built_all, built_lambda, coll_binary_op, coll_lambda_op,
    coll_unary_op, decimal, emitted, extends, in_range, input_in_range, lazy, lemma_emitted,
    lemma_extends_further, lemma_extends_itself, listed, param_text, program_of, sound,
    step_call, step_in_range, type_op, unary_op, Drafted, InputView, OperandView, StepView,
};

// --- Lists stand between ---

/// Whether an object was made by one of the procedures whose results are lazy:
/// they lack what a list has.
pub open spec fn made_lazy(operand: OperandView, steps: Seq<StepView>) -> bool {
    operand matches OperandView::Step(i) && i < steps.len() && {
        ||| steps[i as int].op == Op::Select
        ||| steps[i as int].op == Op::Where
        ||| steps[i as int].op == Op::OrderBy
        ||| steps[i as int].op == Op::Concat
    }
}

/// Whether an object is the list that was made of a collection.
pub open spec fn made_list(operand: OperandView, steps: Seq<StepView>) -> bool {
    operand matches OperandView::Step(i) && i < steps.len() && steps[i as int].op == Op::ToList
}

/// Whether an input holds no list that was made of a collection.
pub open spec fn no_list(input: InputView, steps: Seq<StepView>) -> bool {
    match input {
        InputView::Handle(operand) => !made_list(operand, steps),
        InputView::Handles(operands) => forall|i: int|
            0 <= i < operands.len() ==> !made_list(#[trigger] operands[i], steps),
        _ => true,
    }
}

/// Whether a procedure needs a list.
pub open spec fn needs_list(op: Op) -> bool {
    op == Op::Count || op == Op::Get
}

/// Whether a step takes lists where it needs one, and only there: what `Count`
/// and `Get` are given first is not lazy, a list is made of a lazy collection
/// alone, and nothing else takes such a list.
pub open spec fn takes_lists(step: StepView, steps: Seq<StepView>) -> bool {
    &&& needs_list(step.op) ==> step.inputs.len() >= 1 && (
    step.inputs[0] matches InputView::Handle(coll) && !made_lazy(coll, steps))
    &&& step.op == Op::ToList ==> step.inputs.len() == 1 && (
    step.inputs[0] matches InputView::Handle(coll) && made_lazy(coll, steps))
    &&& forall|p: int|
        0 <= p < step.inputs.len() ==> no_list(#[trigger] step.inputs[p], steps) || (p == 0
            && needs_list(step.op))
}

/// What a construction keeps: every step takes lists where it needs them, and
/// the parameters in scope are parameters.
#[verifier::opaque]
spec fn orderly(s: Drafted) -> bool {
    &&& sound(s)
    &&& forall|i: int| 0 <= i < s.steps.len() ==> takes_lists(#[trigger] s.steps[i], s.steps)
    &&& forall|id: u64| #[trigger]
        s.params.contains_key(id) ==> s.params[id] < s.steps.len()
            && s.steps[s.params[id] as int].op == Op::Parameter
}

proof fn lemma_no_list_stays(input: InputView, s: Drafted, later: Drafted)
    requires
        extends(s, later),
        input_in_range(input, s.steps.len()),
    ensures
        no_list(input, later.steps) == no_list(input, s.steps),
{
    reveal(extends);
    if let InputView::Handles(operands) = input {
        assert forall|i: int| 0 <= i < operands.len() implies made_list(
            #[trigger] operands[i],
            later.steps,
        ) == made_list(operands[i], s.steps) by {
            assert(in_range(operands[i], s.steps.len()));
        }
    }
}

proof fn lemma_takes_lists_stays(step: StepView, s: Drafted, later: Drafted)
    requires
        extends(s, later),
        takes_lists(step, s.steps),
        forall|p: int|
            0 <= p < step.inputs.len() ==> input_in_range(
                #[trigger] step.inputs[p],
                s.steps.len(),
            ),
    ensures
        takes_lists(step, later.steps),
{
    reveal(extends);
    assert forall|p: int| 0 <= p < step.inputs.len() implies no_list(
        #[trigger] step.inputs[p],
        later.steps,
    ) || (p == 0 && needs_list(step.op)) by {
        assert(input_in_range(step.inputs[p], s.steps.len()));
        lemma_no_list_stays(step.inputs[p], s, later);
    }
    if step.inputs.len() > 0 {
        assert(input_in_range(step.inputs[0], s.steps.len()));
    }
}

proof fn lemma_orderly_emit(s: Drafted, op: Op, inputs: Seq<InputView>)
    requires
        orderly(s),
        forall|p: int|
            0 <= p < inputs.len() ==> input_in_range(#[trigger] inputs[p], s.steps.len()),
        takes_lists(StepView { op, inputs }, s.steps),
    ensures
        orderly(emitted(s, op, inputs).0),
{
    let later = emitted(s, op, inputs).0;
    assert(sound(s)) by {
        reveal(orderly);
    }
    lemma_extends_itself(s);
    lemma_emitted(s, s, op, inputs);
    lemma_takes_lists_stays(StepView { op, inputs }, s, later);
    assert forall|i: int| 0 <= i < later.steps.len() implies takes_lists(
        #[trigger] later.steps[i],
        later.steps,
    ) by {
        if i < s.steps.len() {
            assert(later.steps[i] == s.steps[i]);
            assert(takes_lists(s.steps[i], s.steps)) by {
                reveal(orderly);
            }
            assert(step_in_range(s.steps[i], i as nat)) by {
                reveal(sound);
            }
            assert forall|p: int| 0 <= p < s.steps[i].inputs.len() implies input_in_range(
                #[trigger] s.steps[i].inputs[p],
                s.steps.len(),
            ) by {
                lemma_in_range_later(s.steps[i].inputs[p], i as nat, s.steps.len());
            }
            lemma_takes_lists_stays(s.steps[i], s, later);
        }
    }
    reveal(orderly);
}

proof fn lemma_in_range_later(input: InputView, n: nat, m: nat)
    requires
        input_in_range(input, n),
        n <= m,
    ensures
        input_in_range(input, m),
{
    if let InputView::Handles(operands) = input {
        assert forall|i: int| 0 <= i < operands.len() implies in_range(
            #[trigger] operands[i],
            m,
        ) by {
            assert(in_range(operands[i], n));
        }
    }
}

/// Whether an object is there, is no list that was made of a collection, and
/// is lazy exactly where `lazily` says so.
#[verifier::opaque]
spec fn good(operand: OperandView, lazily: bool, s: Drafted) -> bool {
    &&& in_range(operand, s.steps.len())
    &&& !made_list(operand, s.steps)
    &&& made_lazy(operand, s.steps) == lazily
}

proof fn lemma_good_stays(operand: OperandView, lazily: bool, s: Drafted, later: Drafted)
    requires
        good(operand, lazily, s),
        extends(s, later),
    ensures
        good(operand, lazily, later),
{
    reveal(extends);
    reveal(good);
}

/// Whether the results of a procedure are lazy.
pub open spec fn gives_lazy(op: Op) -> bool {
    op == Op::Select || op == Op::Where || op == Op::OrderBy || op == Op::Concat
}

/// One more step of a procedure that neither needs nor makes a list.
proof fn lemma_plain_step(s: Drafted, op: Op, inputs: Seq<InputView>)
    requires
        orderly(s),
        !needs_list(op),
        op != Op::ToList,
        forall|p: int|
            0 <= p < inputs.len() ==> input_in_range(#[trigger] inputs[p], s.steps.len())
                && no_list(inputs[p], s.steps),
    ensures
        orderly(emitted(s, op, inputs).0),
        extends(s, emitted(s, op, inputs).0),
        good(
            OperandView::Step(s.steps.len()),
            gives_lazy(op),
            emitted(s, op, inputs).0,
        ),
{
    reveal(good);
    lemma_orderly_emit(s, op, inputs);
    assert(extends(s, emitted(s, op, inputs).0)) by {
        reveal(extends);
    }
}

proof fn lemma_plain1(s: Drafted, op: Op, a: OperandView, lazy_a: bool)
    requires
        orderly(s),
        !needs_list(op),
        op != Op::ToList,
        good(a, lazy_a, s),
    ensures
        orderly(emitted(s, op, seq![InputView::Handle(a)]).0),
        extends(s, emitted(s, op, seq![InputView::Handle(a)]).0),
        good(
            OperandView::Step(s.steps.len()),
            gives_lazy(op),
            emitted(s, op, seq![InputView::Handle(a)]).0,
        ),
{
    reveal(good);
    lemma_plain_step(s, op, seq![InputView::Handle(a)]);
}

proof fn lemma_plain2(
    s: Drafted,
    op: Op,
    a: OperandView,
    lazy_a: bool,
    b: OperandView,
    lazy_b: bool,
)
    requires
        orderly(s),
        !needs_list(op),
        op != Op::ToList,
        good(a, lazy_a, s),
        good(b, lazy_b, s),
    ensures
        orderly(emitted(s, op, seq![InputView::Handle(a), InputView::Handle(b)]).0),
        extends(s, emitted(s, op, seq![InputView::Handle(a), InputView::Handle(b)]).0),
        good(
            OperandView::Step(s.steps.len()),
            gives_lazy(op),
            emitted(s, op, seq![InputView::Handle(a), InputView::Handle(b)]).0,
        ),
{
    reveal(good);
    lemma_plain_step(s, op, seq![InputView::Handle(a), InputView::Handle(b)]);
}

/// One more step of a procedure that needs a list first.
proof fn lemma_list_step(s: Drafted, op: Op, coll: OperandView, rest: Seq<InputView>)
    requires
        orderly(s),
        needs_list(op),
        in_range(coll, s.steps.len()),
        !made_lazy(coll, s.steps),
        forall|p: int|
            0 <= p < rest.len() ==> input_in_range(#[trigger] rest[p], s.steps.len()) && no_list(
                rest[p],
                s.steps,
            ),
    ensures
        orderly(emitted(s, op, seq![InputView::Handle(coll)] + rest).0),
        extends(s, emitted(s, op, seq![InputView::Handle(coll)] + rest).0),
        good(
            OperandView::Step(s.steps.len()),
            false,
            emitted(s, op, seq![InputView::Handle(coll)] + rest).0,
        ),
{
    let inputs = seq![InputView::Handle(coll)] + rest;
    assert forall|p: int| 0 <= p < inputs.len() implies input_in_range(
        #[trigger] inputs[p],
        s.steps.len(),
    ) by {
        if p > 0 {
            assert(inputs[p] == rest[p - 1]);
        }
    }
    assert forall|p: int| 0 <= p < inputs.len() implies no_list(#[trigger] inputs[p], s.steps) || (p
        == 0 && needs_list(op)) by {
        if p > 0 {
            assert(inputs[p] == rest[p - 1]);
        }
    }
    lemma_orderly_emit(s, op, inputs);
    reveal(good);
    assert(extends(s, emitted(s, op, inputs).0)) by {
        reveal(extends);
    }
}

proof fn lemma_orderly_listed(list: bool, coll: OperandView, s: Drafted)
    requires
        orderly(s),
        good(coll, list, s),
    ensures
        orderly(listed(list, coll, s).0),
        extends(s, listed(list, coll, s).0),
        in_range(listed(list, coll, s).1, listed(list, coll, s).0.steps.len()),
        !made_lazy(listed(list, coll, s).1, listed(list, coll, s).0.steps),
{
    reveal(good);
    if list {
        lemma_orderly_emit(s, Op::ToList, seq![InputView::Handle(coll)]);
    }
    assert(extends(s, listed(list, coll, s).0)) by {
        reveal(extends);
    }
}

proof fn lemma_orderly_bound(params: Seq<(u64, TypeKind)>, s: Drafted)
    requires
        orderly(s),
    ensures
        orderly(bound(params, s).0),
        extends(s, bound(params, s).0),
        forall|i: int|
            0 <= i < bound(params, s).1.len() ==> good(
                #[trigger] bound(params, s).1[i],
                false,
                bound(params, s).0,
            ),
    decreases params.len(),
{
    if params.len() == 0 {
        lemma_extends_itself(s);
    } else {
        let front = params.drop_last();
        let (id, kind) = params.last();
        lemma_orderly_bound(front, s);
        let (s1, made) = bound(front, s);
        lemma_plain_step(s1, type_op(kind), seq![]);
        let (s2, _) = emitted(s1, type_op(kind), seq![]);
        let ty = OperandView::Step(s1.steps.len());
        let inputs = seq![InputView::Text(param_text(id)), InputView::Handle(ty)];
        assert(!made_list(ty, s2.steps) && in_range(ty, s2.steps.len())) by {
            reveal(good);
        }
        lemma_plain_step(s2, Op::Parameter, inputs);
        let (s3, _) = emitted(s2, Op::Parameter, inputs);
        let param = s2.steps.len();
        let s4 = Drafted { params: s3.params.insert(id, param), ..s3 };
        lemma_extends_further(s, s1, s2);
        lemma_extends_further(s, s2, s3);
        lemma_extends_further(s1, s2, s3);
        assert(extends(s, s4) && extends(s1, s4)) by {
            reveal(extends);
        }
        assert(orderly(s4)) by {
            reveal(orderly);
            reveal(sound);
        }
        assert forall|i: int| 0 <= i < bound(params, s).1.len() implies good(
            #[trigger] bound(params, s).1[i],
            false,
            s4,
        ) by {
            reveal(good);
            if i < made.len() {
                assert(good(bound(front, s).1[i], false, s1));
                lemma_good_stays(made[i], false, s1, s4);
            }
        }
    }
}

proof fn lemma_orderly_lambda(lambda: LambdaView, s: Drafted)
    requires
        orderly(s),
    ensures
        orderly(built_lambda(lambda, s).0),
        extends(s, built_lambda(lambda, s).0),
        built_lambda(lambda, s).1 matches Some(operand) ==> good(
            operand,
            false,
            built_lambda(lambda, s).0,
        ),
    decreases lambda,
{
    lemma_orderly_bound(lambda.params, s);
    let (s1, params) = bound(lambda.params, s);
    lemma_orderly(*lambda.body, s1);
    let (s2, body) = built(*lambda.body, s1);
    lemma_extends_further(s, s1, s2);
    let s3 = Drafted { params: s.params, ..s2 };
    assert(extends(s, s3) && extends(s1, s3)) by {
        reveal(extends);
    }
    assert(orderly(s3)) by {
        reveal(orderly);
        reveal(sound);
        reveal(extends);
    }
    if let Some(body) = body {
        assert forall|i: int| 0 <= i < params.len() implies good(
            #[trigger] params[i],
            false,
            s3,
        ) by {
            assert(good(bound(lambda.params, s).1[i], false, s1));
            lemma_good_stays(params[i], false, s1, s3);
        }
        assert(good(body, lazy(*lambda.body), s3)) by {
            reveal(good);
        }
        let inputs = seq![InputView::Handles(params), InputView::Handle(body)];
        assert forall|p: int| 0 <= p < inputs.len() implies input_in_range(
            #[trigger] inputs[p],
            s3.steps.len(),
        ) && no_list(inputs[p], s3.steps) by {
            reveal(good);
        }
        lemma_plain_step(s3, Op::Function, inputs);
        lemma_extends_further(s, s3, built_lambda(lambda, s).0);
    }
}

proof fn lemma_orderly_all(nodes: Seq<NodeView>, s: Drafted)
    requires
        orderly(s),
    ensures
        orderly(built_all(nodes, s).0),
        extends(s, built_all(nodes, s).0),
        built_all(nodes, s).1 matches Some(operands) ==> forall|i: int|
            0 <= i < operands.len() ==> in_range(
                #[trigger] operands[i],
                built_all(nodes, s).0.steps.len(),
            ) && !made_list(operands[i], built_all(nodes, s).0.steps),
    decreases nodes,
{
    if nodes.len() == 0 {
        lemma_extends_itself(s);
    } else {
        let front = nodes.drop_last();
        lemma_orderly_all(front, s);
        let (s1, made) = built_all(front, s);
        if let Some(made) = made {
            lemma_orderly(nodes.last(), s1);
            let (s2, last) = built(nodes.last(), s1);
            lemma_extends_further(s, s1, s2);
            if let Some(last) = last {
                let all = made.push(last);
                assert forall|i: int| 0 <= i < all.len() implies in_range(
                    #[trigger] all[i],
                    s2.steps.len(),
                ) && !made_list(all[i], s2.steps) by {
                    if i < made.len() {
                        assert(all[i] == made[i]);
                        assert(in_range(made[i], s1.steps.len()));
                        reveal(extends);
                    } else {
                        reveal(good);
                    }
                }
            }
        }
    }
}

#[verifier::spinoff_prover]
#[verifier::rlimit(60)]
proof fn lemma_orderly(node: NodeView, s: Drafted)
    requires
        orderly(s),
    ensures
        orderly(built(node, s).0),
        extends(s, built(node, s).0),
        built(node, s).1 matches Some(operand) ==> good(operand, lazy(node), built(node, s).0),
    decreases node,
{
    lemma_extends_itself(s);
    match node {
        NodeView::ConstDouble(v) => lemma_plain_step(
            s,
            Op::ConstantDouble,
            seq![InputView::Double(v)],
        ),
        NodeView::ConstFloat(v) => lemma_plain_step(
            s,
            Op::ConstantFloat,
            seq![InputView::Float(v)],
        ),
        NodeView::ConstInt(v) => lemma_plain_step(s, Op::ConstantInt, seq![InputView::Int(v)]),
        NodeView::ConstBool(v) => lemma_plain_step(s, Op::ConstantBool, seq![InputView::Bool(v)]),
        NodeView::ConstString(v) => lemma_plain_step(
            s,
            Op::ConstantString,
            seq![InputView::Text(v)],
        ),
        NodeView::ConstList(items) => {
            lemma_orderly_all(items, s);
            let (s1, operands) = built_all(items, s);
            if let Some(operands) = operands {
                lemma_plain_step(s1, Op::CreateList, seq![InputView::Handles(operands)]);
                lemma_extends_further(s, s1, built(node, s).0);
            }
        },
        NodeView::Call(call) => lemma_plain_step(s, Op::Call, seq![InputView::Call(call)]),
        NodeView::Raw(_) => {
            reveal(good);
        },
        NodeView::Param(id) => {
            assert(s.params.contains_key(id) ==> s.params[id] < s.steps.len()
                && s.steps[s.params[id] as int].op == Op::Parameter) by {
                reveal(orderly);
            }
            reveal(good);
        },
        NodeView::Unary(op, a) => {
            let lazily = lazy(*a);
            lemma_orderly(*a, s);
            let (s1, a) = built(*a, s);
            if let Some(a) = a {
                lemma_plain1(s1, unary_op(op), a, lazily);
                lemma_extends_further(s, s1, built(node, s).0);
            }
        },
        NodeView::Cast(a, kind) => {
            let lazily = lazy(*a);
            lemma_orderly(*a, s);
            let (s1, a) = built(*a, s);
            if let Some(a) = a {
                lemma_plain_step(s1, type_op(kind), seq![]);
                let ty = OperandView::Step(s1.steps.len());
                let (s2, _) = emitted(s1, type_op(kind), seq![]);
                lemma_good_stays(a, lazily, s1, s2);
                lemma_plain2(s2, Op::Cast, a, lazily, ty, false);
                lemma_extends_further(s, s1, s2);
                lemma_extends_further(s, s2, built(node, s).0);
            }
        },
        NodeView::CollLambda(op, coll, lambda) => {
            let lazily = lazy(*coll);
            lemma_orderly(*coll, s);
            let (s1, coll) = built(*coll, s);
            if let Some(coll) = coll {
                lemma_orderly_lambda(lambda, s1);
                let (s2, func) = built_lambda(lambda, s1);
                lemma_extends_further(s, s1, s2);
                if let Some(func) = func {
                    lemma_good_stays(coll, lazily, s1, s2);
                    lemma_plain2(s2, coll_lambda_op(op), coll, lazily, func, false);
                    lemma_extends_further(s, s2, built(node, s).0);
                }
            }
        },
        NodeView::Fold(coll, seed, lambda) => {
            let (lazily, lazily_seed) = (lazy(*coll), lazy(*seed));
            lemma_orderly(*coll, s);
            let (s1, coll) = built(*coll, s);
            if let Some(coll) = coll {
                lemma_orderly(*seed, s1);
                let (s2, seed) = built(*seed, s1);
                lemma_extends_further(s, s1, s2);
                if let Some(seed) = seed {
                    lemma_good_stays(coll, lazily, s1, s2);
                    lemma_orderly_lambda(lambda, s2);
                    let (s3, func) = built_lambda(lambda, s2);
                    lemma_extends_further(s, s2, s3);
                    if let Some(func) = func {
                        lemma_good_stays(coll, lazily, s2, s3);
                        lemma_good_stays(seed, lazily_seed, s2, s3);
                        let inputs = seq![
                            InputView::Handle(coll),
                            InputView::Handle(seed),
                            InputView::Handle(func),
                        ];
                        assert forall|p: int| 0 <= p < inputs.len() implies input_in_range(
                            #[trigger] inputs[p],
                            s3.steps.len(),
                        ) && no_list(inputs[p], s3.steps) by {
                            reveal(good);
                        }
                        lemma_plain_step(s3, Op::AggregateWithSeed, inputs);
                        lemma_extends_further(s, s3, built(node, s).0);
                    }
                }
            }
        },
        NodeView::CollUnary(op, coll) => {
            let lazily = lazy(*coll);
            lemma_orderly(*coll, s);
            let (s1, coll) = built(*coll, s);
            if let Some(coll) = coll {
                if op == CollUnaryOp::Count {
                    lemma_orderly_listed(lazily, coll, s1);
                    let (s2, coll) = listed(lazily, coll, s1);
                    lemma_extends_further(s, s1, s2);
                    lemma_list_step(s2, Op::Count, coll, seq![]);
                    assert(seq![InputView::Handle(coll)] + seq![] =~= seq![
                        InputView::Handle(coll),
                    ]);
                    lemma_extends_further(s, s2, built(node, s).0);
                } else {
                    lemma_plain1(s1, coll_unary_op(op), coll, lazily);
                    lemma_extends_further(s, s1, built(node, s).0);
                }
            }
        },
        NodeView::CollBinary(op, coll, rhs) => {
            let (lazily, lazily_rhs) = (lazy(*coll), lazy(*rhs));
            lemma_orderly(*coll, s);
            let (s1, coll) = built(*coll, s);
            if let Some(coll) = coll {
                if op == CollBinaryOp::Get {
                    lemma_orderly_listed(lazily, coll, s1);
                    let (s2, coll) = listed(lazily, coll, s1);
                    lemma_extends_further(s, s1, s2);
                    lemma_orderly(*rhs, s2);
                    let (s3, rhs) = built(*rhs, s2);
                    lemma_extends_further(s, s2, s3);
                    if let Some(rhs) = rhs {
                        assert(in_range(coll, s3.steps.len()) && !made_lazy(coll, s3.steps)) by {
                            reveal(extends);
                        }
                        assert(in_range(rhs, s3.steps.len()) && !made_list(rhs, s3.steps)) by {
                            reveal(good);
                        }
                        lemma_list_step(s3, Op::Get, coll, seq![InputView::Handle(rhs)]);
                        assert(seq![InputView::Handle(coll)] + seq![InputView::Handle(rhs)]
                            =~= seq![InputView::Handle(coll), InputView::Handle(rhs)]);
                        lemma_extends_further(s, s3, built(node, s).0);
                    }
                } else {
                    lemma_orderly(*rhs, s1);
                    let (s2, rhs) = built(*rhs, s1);
                    lemma_extends_further(s, s1, s2);
                    if let Some(rhs) = rhs {
                        lemma_good_stays(coll, lazily, s1, s2);
                        lemma_plain2(s2, coll_binary_op(op), coll, lazily, rhs, lazily_rhs);
                        lemma_extends_further(s, s2, built(node, s).0);
                    }
                }
            }
        },
        NodeView::Binary(op, a, b) => {
            let (lazily, lazily_b) = (lazy(*a), lazy(*b));
            lemma_orderly(*a, s);
            let (s1, a) = built(*a, s);
            if let Some(a) = a {
                lemma_orderly(*b, s1);
                let (s2, b) = built(*b, s1);
                lemma_extends_further(s, s1, s2);
                if let Some(b) = b {
                    lemma_good_stays(a, lazily, s1, s2);
                    lemma_plain2(s2, binary_op(op), a, lazily, b, lazily_b);
                    lemma_extends_further(s, s2, built(node, s).0);
                }
            }
        },
    }
}

/// In the program of every tree, what `Count` and `Get` are given first was
/// not made by `Select`, `Where`, `OrderBy` or `Concat`, whose results are
/// lazy: where one of these feeds them, the list that `ToList` makes of it
/// stands between. A list is made for nothing else.
pub proof fn lists_stand_between(node: NodeView)
    ensures
        forall|i: int|
            0 <= i < program_of(node).steps.len() ==> takes_lists(
                #[trigger] program_of(node).steps[i],
                program_of(node).steps,
            ),
        program_of(node).root matches Some(root) ==> !made_list(root, program_of(node).steps)
            && made_lazy(root, program_of(node).steps) == lazy(node),
{
    assert(orderly(blank())) by {
        reveal(orderly);
        reveal(sound);
    }
    lemma_orderly(node, blank());
    reveal(orderly);
    reveal(good);
}

// --- What is called ---

/// The procedure of the server that gives a type.
pub open spec fn type_procedure(kind: TypeKind) -> Seq<char> {
    match kind {
        TypeKind::Double => "Type_static_Double"@,
        TypeKind::Float => "Type_static_Float"@,
        TypeKind::Int => "Type_static_Int"@,
        TypeKind::Bool => "Type_static_Bool"@,
        TypeKind::String => "Type_static_String"@,
    }
}

/// The procedure of the server that makes the object of a tree out of those of
/// its parts; there is none for what is there before.
pub open spec fn tree_procedure(node: NodeView) -> Option<Seq<char>> {
    match node {
        NodeView::Raw(_) => None,
        NodeView::Param(_) => None,
        NodeView::ConstDouble(_) => Some("Expression_static_ConstantDouble"@),
        NodeView::ConstFloat(_) => Some("Expression_static_ConstantFloat"@),
        NodeView::ConstInt(_) => Some("Expression_static_ConstantInt"@),
        NodeView::ConstBool(_) => Some("Expression_static_ConstantBool"@),
        NodeView::ConstString(_) => Some("Expression_static_ConstantString"@),
        NodeView::ConstList(_) => Some("Expression_static_CreateList"@),
        NodeView::Call(_) => Some("Expression_static_Call"@),
        NodeView::Unary(UnaryOp::Not, _) => Some("Expression_static_Not"@),
        NodeView::Cast(_, _) => Some("Expression_static_Cast"@),
        NodeView::Fold(_, _, _) => Some("Expression_static_AggregateWithSeed"@),
        NodeView::CollLambda(op, _, _) => Some(
            match op {
                CollLambdaOp::MapEach => "Expression_static_Select"@,
                CollLambdaOp::Filter => "Expression_static_Where"@,
                CollLambdaOp::Any => "Expression_static_Any"@,
                CollLambdaOp::All => "Expression_static_All"@,
                CollLambdaOp::SortedBy => "Expression_static_OrderBy"@,
                CollLambdaOp::Reduce => "Expression_static_Aggregate"@,
            },
        ),
        NodeView::CollUnary(op, _) => Some(
            match op {
                CollUnaryOp::Count => "Expression_static_Count"@,
                CollUnaryOp::Sum => "Expression_static_Sum"@,
                CollUnaryOp::Min => "Expression_static_Min"@,
                CollUnaryOp::Max => "Expression_static_Max"@,
                CollUnaryOp::Avg => "Expression_static_Average"@,
            },
        ),
        NodeView::CollBinary(op, _, _) => Some(
            match op {
                CollBinaryOp::Contains => "Expression_static_Contains"@,
                CollBinaryOp::Get => "Expression_static_Get"@,
                CollBinaryOp::Concat => "Expression_static_Concat"@,
            },
        ),
        NodeView::Binary(op, _, _) => Some(
            match op {
                BinaryOp::Eq => "Expression_static_Equal"@,
                BinaryOp::Ne => "Expression_static_NotEqual"@,
                BinaryOp::Gt => "Expression_static_GreaterThan"@,
                BinaryOp::Ge => "Expression_static_GreaterThanOrEqual"@,
                BinaryOp::Lt => "Expression_static_LessThan"@,
                BinaryOp::Le => "Expression_static_LessThanOrEqual"@,
                BinaryOp::And => "Expression_static_And"@,
                BinaryOp::Or => "Expression_static_Or"@,
                BinaryOp::Xor => "Expression_static_ExclusiveOr"@,
                BinaryOp::Add => "Expression_static_Add"@,
                BinaryOp::Sub => "Expression_static_Subtract"@,
                BinaryOp::Mul => "Expression_static_Multiply"@,
                BinaryOp::Div => "Expression_static_Divide"@,
                BinaryOp::Rem => "Expression_static_Modulo"@,
                BinaryOp::Pow => "Expression_static_Power"@,
                BinaryOp::Shl => "Expression_static_LeftShift"@,
                BinaryOp::Shr => "Expression_static_RightShift"@,
            },
        ),
    }
}

/// The operation of the last step of a tree.
spec fn last_op(node: NodeView) -> Op {
    match node {
        NodeView::ConstDouble(_) => Op::ConstantDouble,
        NodeView::ConstFloat(_) => Op::ConstantFloat,
        NodeView::ConstInt(_) => Op::ConstantInt,
        NodeView::ConstBool(_) => Op::ConstantBool,
        NodeView::ConstString(_) => Op::ConstantString,
        NodeView::ConstList(_) => Op::CreateList,
        NodeView::Call(_) => Op::Call,
        NodeView::Unary(op, _) => unary_op(op),
        NodeView::Cast(_, _) => Op::Cast,
        NodeView::Fold(_, _, _) => Op::AggregateWithSeed,
        NodeView::CollLambda(op, _, _) => coll_lambda_op(op),
        NodeView::CollUnary(op, _) => coll_unary_op(op),
        NodeView::CollBinary(op, _, _) => coll_binary_op(op),
        NodeView::Binary(op, _, _) => binary_op(op),
        _ => arbitrary(),
    }
}

proof fn lemma_last_name(node: NodeView)
    requires
        !(node is Raw),
        !(node is Param),
    ensures
        tree_procedure(node) == Some(last_op(node).name()),
{
    match node {
        NodeView::Unary(UnaryOp::Not, _) => {},
        NodeView::CollLambda(op, _, _) => match op {
            CollLambdaOp::MapEach => {},
            CollLambdaOp::Filter => {},
            CollLambdaOp::Any => {},
            CollLambdaOp::All => {},
            CollLambdaOp::SortedBy => {},
            CollLambdaOp::Reduce => {},
        },
        NodeView::Binary(op, _, _) => match op {
            BinaryOp::Eq => {},
            BinaryOp::Ne => {},
            BinaryOp::Gt => {},
            BinaryOp::Ge => {},
            BinaryOp::Lt => {},
            BinaryOp::Le => {},
            _ => {},
        },
        _ => {},
    }
}

/// Whether the last step is of `op` and makes the object.
spec fn ends_with(made: (Drafted, Option<OperandView>), op: Op) -> bool {
    made.1 is Some ==> made.0.steps.len() > 0 && made.0.steps.last().op == op && made.1 == Some(
        OperandView::Step((made.0.steps.len() - 1) as nat),
    )
}

proof fn lemma_last_op(node: NodeView, s: Drafted)
    requires
        !(node is Raw),
        !(node is Param),
    ensures
        ends_with(built(node, s), last_op(node)),
{
    match node {
        NodeView::ConstDouble(_) => {},
        NodeView::ConstFloat(_) => {},
        NodeView::ConstInt(_) => {},
        NodeView::ConstBool(_) => {},
        NodeView::ConstString(_) => {},
        NodeView::ConstList(_) => {},
        NodeView::Call(_) => {},
        NodeView::Unary(_, _) => {},
        NodeView::Cast(_, _) => {},
        NodeView::CollLambda(_, _, _) => {},
        NodeView::Fold(_, _, _) => {},
        NodeView::CollUnary(_, _) => {},
        NodeView::CollBinary(_, _, _) => {},
        NodeView::Binary(_, _, _) => {},
        _ => {},
    }
}

/// The last call of a constructed tree is of the procedure that the server has
/// for the tree's operation, and its object is the tree's.
pub proof fn trees_call_their_procedure(node: NodeView, ids: Seq<u64>)
    requires
        program_of(node).root is Some,
    ensures
        tree_procedure(node) matches Some(procedure) ==> {
            let steps = program_of(node).steps;
            &&& steps.len() > 0
            &&& step_call(steps.last(), ids).service == "KRPC"@
            &&& step_call(steps.last(), ids).procedure == procedure
            &&& program_of(node).root == Some(OperandView::Step((steps.len() - 1) as nat))
        },
        node matches NodeView::Raw(object) ==> program_of(node).steps.len() == 0 && program_of(
            node,
        ).root == Some(OperandView::Object(object)),
{
    if !(node is Raw) && !(node is Param) {
        lemma_last_name(node);
        lemma_last_op(node, blank());
    }
}

/// A parameter is made of its name and of the server's type for it, a lambda
/// of its parameters and its body, a list of a collection: the calls for them
/// name these procedures and no other.
pub proof fn parts_call_their_procedure(kind: TypeKind, ids: Seq<u64>, inputs: Seq<InputView>)
    ensures
        step_call(StepView { op: type_op(kind), inputs }, ids).procedure == type_procedure(kind),
        step_call(StepView { op: Op::Parameter, inputs }, ids).procedure
            == "Expression_static_Parameter"@,
        step_call(StepView { op: Op::Function, inputs }, ids).procedure
            == "Expression_static_Function"@,
        step_call(StepView { op: Op::ToList, inputs }, ids).procedure
            == "Expression_static_ToList"@,
{
}

/// A cast is to the type that it was asked for: the call before it is of the
/// procedure that gives that type, and the cast takes its object second.
pub proof fn casts_are_to_their_type(a: NodeView, kind: TypeKind, ids: Seq<u64>)
    requires
        program_of(NodeView::Cast(Box::new(a), kind)).root is Some,
    ensures
        ({
            let steps = program_of(NodeView::Cast(Box::new(a), kind)).steps;
            let n = steps.len();
            &&& n >= 2
            &&& step_call(steps[n - 2], ids).procedure == type_procedure(kind)
            &&& steps[n - 2].inputs.len() == 0
            &&& steps[n - 1].inputs.len() == 2
            &&& steps[n - 1].inputs[1] == InputView::Handle(OperandView::Step((n - 2) as nat))
        }),
{
}

// --- What the arguments carry ---

/// The id of an object, where `ids` are those that the calls so far made.
pub open spec fn id_of(operand: OperandView, ids: Seq<u64>) -> u64 {
    match operand {
        OperandView::Step(i) => ids[i as int],
        OperandView::Object(object) => object.id,
    }
}

/// Whether an argument carries an input: the bytes read as the input and as
/// nothing else.
pub open spec fn carries(bytes: Seq<u8>, input: InputView, ids: Seq<u64>) -> bool {
    match input {
        InputView::Double(v) => bytes.len() == 8 && from_little_endian(bytes) == v.bits,
        InputView::Float(v) => bytes.len() == 4 && from_little_endian(bytes) == v.bits,
        InputView::Int(v) => read_varint(bytes) == Some(
            ((if v >= 0 { v + v } else { -1 - v - v }) as u64, Seq::<u8>::empty()),
        ),
        InputView::Bool(v) => read_varint(bytes) == Some(
            (if v { 1u64 } else { 0u64 }, Seq::<u8>::empty()),
        ),
        InputView::Text(v) => read_delimited(bytes) == Some(
            (encode_utf8(v), Seq::<u8>::empty()),
        ),
        InputView::Call(call) => read_message::<ProcedureCall>(bytes) == Ok::<
            ProcedureCallView,
            DecodeFault,
        >(call),
        InputView::Handle(operand) => read_varint(bytes) == Some(
            (id_of(operand, ids), Seq::<u8>::empty()),
        ),
        InputView::Handles(operands) => read_message::<List>(bytes) matches Ok(list)
            && list.items.len() == operands.len() && forall|k: int|
            0 <= k < operands.len() ==> read_varint(#[trigger] list.items[k]) == Some(
                (id_of(operands[k], ids), Seq::<u8>::empty()),
            ),
    }
}

/// The call of a step has an argument for each input, argument `i` at position
/// `i`, which carries input `i`: the value itself, or the id of the object
/// that an earlier call made.
pub proof fn arguments_carry_their_inputs(step: StepView, ids: Seq<u64>, i: int)
    requires
        0 <= i < step.inputs.len() <= u32::MAX,
        step_call(step, ids).arguments[i].value.len() <= u64::MAX,
    ensures
        step_call(step, ids).arguments.len() == step.inputs.len(),
        step_call(step, ids).arguments[i].position == i,
        carries(step_call(step, ids).arguments[i].value, step.inputs[i], ids),
        step_call(step, ids).service_id == 0,
        step_call(step, ids).procedure_id == 0,
{
    let input = step.inputs[i];
    let bytes = step_call(step, ids).arguments[i].value;
    match input {
        InputView::Double(v) => {
            lemma_widths();
            little_endian_round_trip(v.bits as nat, 8);
        },
        InputView::Float(v) => {
            lemma_widths();
            little_endian_round_trip(v.bits as nat, 4);
        },
        InputView::Int(v) => lemma_number((if v >= 0 { v + v } else { -1 - v - v }) as u64),
        InputView::Bool(v) => lemma_number(if v { 1 } else { 0 }),
        InputView::Text(v) => {
            let text = encode_utf8(v);
            delimited_round_trip(text, seq![]);
            assert(varint(text.len()) + text + Seq::<u8>::empty() =~= bytes);
        },
        InputView::Call(call) => message_round_trip::<ProcedureCall>(call),
        InputView::Handle(operand) => lemma_number(id_of(operand, ids)),
        InputView::Handles(operands) => {
            let items = Seq::new(operands.len(), |k: int| varint(id_of(operands[k], ids) as nat));
            let list = ListView { items };
            assert(bytes == message_bytes::<List>(list)) by {
                assert(items =~= Seq::new(
                    operands.len(),
                    |k: int| varint(crate::program::resolved(operands[k], ids) as nat),
                ));
            }
            message_round_trip::<List>(list);
            assert forall|k: int| 0 <= k < operands.len() implies read_varint(
                #[trigger] list.items[k],
            ) == Some((id_of(operands[k], ids), Seq::<u8>::empty())) by {
                lemma_number(id_of(operands[k], ids));
            }
        },
    }
}

/// No step of a program has more inputs than positions go.
pub proof fn steps_have_few_inputs(node: NodeView, i: int)
    requires
        0 <= i < program_of(node).steps.len(),
    ensures
        program_of(node).steps[i].inputs.len() <= 3,
{
    lemma_few_inputs(node, blank());
}

spec fn few_inputs(s: Drafted) -> bool {
    forall|i: int| 0 <= i < s.steps.len() ==> (#[trigger] s.steps[i]).inputs.len() <= 3
}

proof fn lemma_few_bound(params: Seq<(u64, TypeKind)>, s: Drafted)
    requires
        few_inputs(s),
    ensures
        few_inputs(bound(params, s).0),
    decreases params.len(),
{
    if params.len() > 0 {
        lemma_few_bound(params.drop_last(), s);
    }
}

proof fn lemma_few_lambda(lambda: LambdaView, s: Drafted)
    requires
        few_inputs(s),
    ensures
        few_inputs(built_lambda(lambda, s).0),
    decreases lambda,
{
    lemma_few_bound(lambda.params, s);
    lemma_few_inputs(*lambda.body, bound(lambda.params, s).0);
}

proof fn lemma_few_all(nodes: Seq<NodeView>, s: Drafted)
    requires
        few_inputs(s),
    ensures
        few_inputs(built_all(nodes, s).0),
    decreases nodes,
{
    if nodes.len() > 0 {
        lemma_few_all(nodes.drop_last(), s);
        lemma_few_inputs(nodes.last(), built_all(nodes.drop_last(), s).0);
    }
}

proof fn lemma_few_inputs(node: NodeView, s: Drafted)
    requires
        few_inputs(s),
    ensures
        few_inputs(built(node, s).0),
    decreases node,
{
    match node {
        NodeView::ConstList(items) => lemma_few_all(items, s),
        NodeView::Unary(_, a) => lemma_few_inputs(*a, s),
        NodeView::Cast(a, _) => lemma_few_inputs(*a, s),
        NodeView::CollLambda(_, coll, lambda) => {
            lemma_few_inputs(*coll, s);
            lemma_few_lambda(lambda, built(*coll, s).0);
        },
        NodeView::Fold(coll, seed, lambda) => {
            lemma_few_inputs(*coll, s);
            let (s1, _) = built(*coll, s);
            lemma_few_inputs(*seed, s1);
            lemma_few_lambda(lambda, built(*seed, s1).0);
        },
        NodeView::CollUnary(_, coll) => lemma_few_inputs(*coll, s),
        NodeView::CollBinary(op, coll, rhs) => {
            let list = op == CollBinaryOp::Get && lazy(*coll);
            lemma_few_inputs(*coll, s);
            let (s1, coll) = built(*coll, s);
            if let Some(coll) = coll {
                lemma_few_inputs(*rhs, listed(list, coll, s1).0);
            }
        },
        NodeView::Binary(_, a, b) => {
            lemma_few_inputs(*a, s);
            lemma_few_inputs(*b, built(*a, s).0);
        },
        _ => {},
    }
}

// --- Names ---

/// The number that decimal digits spell.
pub open spec fn spelled(digits: Seq<char>) -> int
    decreases digits.len(),
{
    if digits.len() == 0 {
        0
    } else {
        10 * spelled(digits.drop_last()) + (digits.last() as int - '0' as int)
    }
}

proof fn lemma_spelled(n: nat)
    ensures
        spelled(decimal(n)) == n,
        decimal(n).len() >= 1,
        n > 0 ==> decimal(n)[0] != '0',
        n == 0 ==> decimal(n).len() == 1,
        forall|i: int| 0 <= i < decimal(n).len() ==> '0' <= #[trigger] decimal(n)[i] <= '9',
    decreases n,
{
    let digit = ('0' as int) + n % 10;
    assert((digit as char) as int == digit);
    if n < 10 {
        assert(decimal(n).drop_last() =~= Seq::<char>::empty());
        assert(spelled(decimal(n).drop_last()) == 0);
    } else {
        lemma_spelled(n / 10);
        assert(decimal(n).drop_last() =~= decimal(n / 10));
        assert forall|i: int| 0 <= i < decimal(n).len() implies '0' <= #[trigger] decimal(n)[i]
            <= '9' by {
            if i < decimal(n / 10).len() {
                assert(decimal(n)[i] == decimal(n / 10)[i]);
            }
        }
    }
}

/// A parameter is named by the letter `p` and the decimal digits of its id,
/// without leading zeros.
pub proof fn parameters_are_named_by_their_id(id: u64)
    ensures
        param_text(id).len() >= 2,
        param_text(id)[0] == 'p',
        forall|i: int| 1 <= i < param_text(id).len() ==> '0' <= #[trigger] param_text(id)[i] <= '9',
        spelled(param_text(id).skip(1)) == id,
        param_text(id)[1] == '0' ==> param_text(id).len() == 2,
{
    lemma_spelled(id as nat);
    assert(param_text(id).skip(1) =~= decimal(id as nat));
    assert forall|i: int| 1 <= i < param_text(id).len() implies '0' <= #[trigger] param_text(id)[i]
        <= '9' by {
        assert(param_text(id)[i] == decimal(id as nat)[i - 1]);
    }
}

// --- Trees as they are written ---

/// An operation on two operands takes the first first: the construction starts
/// with that of the first operand, and the last call is given its object and
/// then that of the second.
pub proof fn operands_keep_their_sides(op: BinaryOp, a: NodeView, b: NodeView)
    requires
        program_of(binary_node(op, a, b)).root is Some,
    ensures
        ({
            let steps = program_of(binary_node(op, a, b)).steps;
            let first = program_of(a);
            let second = built(b, Drafted { steps: first.steps, params: Map::empty() });
            &&& first.root is Some
            &&& second.1 is Some
            &&& steps.len() == second.0.steps.len() + 1
            &&& steps.drop_last() == second.0.steps
            &&& steps.last().inputs == seq![
                InputView::Handle(first.root->0),
                InputView::Handle(second.1->0),
            ]
        }),
{
    let (s1, _) = built(a, blank());
    crate::meaning::parameters_end_with_their_lambda(a, blank());
    assert(s1 == Drafted { steps: s1.steps, params: Map::empty() });
    let steps = program_of(binary_node(op, a, b)).steps;
    assert(steps.drop_last() =~= built(b, s1).0.steps);
}

/// A constant is one call that is given the constant, and a call of a procedure
/// is given the call.
pub proof fn leaves_are_given_as_they_are(
    d: Double,
    f: Float,
    i: i32,
    b: bool,
    text: String,
    call: crate::expr::Call<Double>,
)
    ensures
        program_of(d.as_node()).steps == seq![
            StepView { op: Op::ConstantDouble, inputs: seq![InputView::Double(d)] },
        ],
        program_of(f.as_node()).steps == seq![
            StepView { op: Op::ConstantFloat, inputs: seq![InputView::Float(f)] },
        ],
        program_of(i.as_node()).steps == seq![
            StepView { op: Op::ConstantInt, inputs: seq![InputView::Int(i)] },
        ],
        program_of(b.as_node()).steps == seq![
            StepView { op: Op::ConstantBool, inputs: seq![InputView::Bool(b)] },
        ],
        program_of(text.as_node()).steps == seq![
            StepView { op: Op::ConstantString, inputs: seq![InputView::Text(text@)] },
        ],
        program_of(call.as_node()).steps == seq![
            StepView { op: Op::Call, inputs: seq![InputView::Call(call@)] },
        ],
{
    assert(program_of(d.as_node()).steps =~= seq![
        StepView { op: Op::ConstantDouble, inputs: seq![InputView::Double(d)] },
    ]);
    assert(program_of(f.as_node()).steps =~= seq![
        StepView { op: Op::ConstantFloat, inputs: seq![InputView::Float(f)] },
    ]);
    assert(program_of(i.as_node()).steps =~= seq![
        StepView { op: Op::ConstantInt, inputs: seq![InputView::Int(i)] },
    ]);
    assert(program_of(b.as_node()).steps =~= seq![
        StepView { op: Op::ConstantBool, inputs: seq![InputView::Bool(b)] },
    ]);
    assert(program_of(text.as_node()).steps =~= seq![
        StepView { op: Op::ConstantString, inputs: seq![InputView::Text(text@)] },
    ]);
    assert(program_of(call.as_node()).steps =~= seq![
        StepView { op: Op::Call, inputs: seq![InputView::Call(call@)] },
    ]);
}

/// The parameters of a lambda, and the casts, have the server's types for the
/// types that they are written with.
pub proof fn types_are_the_servers()
    ensures
        type_procedure(<Double as ParamType>::kind()) == "Type_static_Double"@,
        type_procedure(<Float as ParamType>::kind()) == "Type_static_Float"@,
        type_procedure(<i32 as ParamType>::kind()) == "Type_static_Int"@,
        type_procedure(<bool as ParamType>::kind()) == "Type_static_Bool"@,
        type_procedure(<String as ParamType>::kind()) == "Type_static_String"@,
        type_procedure(<Double as CastTarget>::kind()) == "Type_static_Double"@,
        type_procedure(<Float as CastTarget>::kind()) == "Type_static_Float"@,
        type_procedure(<i32 as CastTarget>::kind()) == "Type_static_Int"@,
{
}

/// A lambda of one parameter binds that one, a lambda of two binds the first
/// and then the second, each with its own type, and their bodies are what was
/// written.
pub proof fn lambdas_bind_their_parameters(
    a: u64,
    a_kind: TypeKind,
    b: u64,
    b_kind: TypeKind,
    body: NodeView,
    s: Drafted,
)
    requires
        a != b,
    ensures
        ({
            let one = bound(lambda1_view(a, a_kind, body).params, s).0;
            &&& *lambda1_view(a, a_kind, body).body == body
            &&& one.steps.len() == s.steps.len() + 2
            &&& one.params == s.params.insert(a, s.steps.len() + 1)
            &&& step_call(one.steps[s.steps.len() as int], seq![]).procedure == type_procedure(
                a_kind,
            )
            &&& one.steps[s.steps.len() + 1int].inputs[0] == InputView::Text(param_text(a))
        }),
        ({
            let two = bound(lambda2_view(a, a_kind, b, b_kind, body).params, s).0;
            let n = s.steps.len();
            &&& *lambda2_view(a, a_kind, b, b_kind, body).body == body
            &&& two.steps.len() == n + 4
            &&& two.params == s.params.insert(a, n + 1).insert(b, n + 3)
            &&& step_call(two.steps[n as int], seq![]).procedure == type_procedure(a_kind)
            &&& step_call(two.steps[n + 2int], seq![]).procedure == type_procedure(b_kind)
            &&& two.steps[n + 1int].inputs[0] == InputView::Text(param_text(a))
            &&& two.steps[n + 3int].inputs[0] == InputView::Text(param_text(b))
        }),
{
    let one = lambda1_view(a, a_kind, body).params;
    let two = lambda2_view(a, a_kind, b, b_kind, body).params;
    assert(one.drop_last() =~= seq![]);
    assert(two.drop_last() =~= one);
    reveal_with_fuel(bound, 3);
    parts_call_their_procedure(a_kind, seq![], seq![]);
    parts_call_their_procedure(b_kind, seq![], seq![]);
}

// --- What the operators build ---

/// Whether a tree is the operation `procedure` of the server on `a` and `b`, in
/// this order.
pub open spec fn operates(out: NodeView, procedure: Seq<char>, a: NodeView, b: NodeView) -> bool {
    &&& tree_procedure(out) == Some(procedure)
    &&& out matches NodeView::Binary(_, left, right) && *left == a && *right == b
}

/// Each comparison builds the server's comparison of that name, of its operands
/// in their order.
pub proof fn comparisons_compare<T, R: IntoExpr<T>>(a: Expr<T>, b: R, out: Expr<bool>)
    ensures
        call_ensures(Expr::<T>::eq::<R>, (a, b), out) ==> operates(
            out@,
            "Expression_static_Equal"@,
            a@,
            b.as_node(),
        ),
        call_ensures(Expr::<T>::ne::<R>, (a, b), out) ==> operates(
            out@,
            "Expression_static_NotEqual"@,
            a@,
            b.as_node(),
        ),
        call_ensures(Expr::<T>::gt::<R>, (a, b), out) ==> operates(
            out@,
            "Expression_static_GreaterThan"@,
            a@,
            b.as_node(),
        ),
        call_ensures(Expr::<T>::ge::<R>, (a, b), out) ==> operates(
            out@,
            "Expression_static_GreaterThanOrEqual"@,
            a@,
            b.as_node(),
        ),
        call_ensures(Expr::<T>::lt::<R>, (a, b), out) ==> operates(
            out@,
            "Expression_static_LessThan"@,
            a@,
            b.as_node(),
        ),
        call_ensures(Expr::<T>::le::<R>, (a, b), out) ==> operates(
            out@,
            "Expression_static_LessThanOrEqual"@,
            a@,
            b.as_node(),
        ),
{
}

/// Each arithmetic operator builds the server's operation of that name, of its
/// operands in their order.
pub proof fn arithmetic_calculates<T: Number, R: IntoExpr<T>>(a: Expr<T>, b: R, out: Expr<T>)
    ensures
        call_ensures(<Expr<T> as core::ops::Add<R>>::add, (a, b), out) ==> operates(
            out@,
            "Expression_static_Add"@,
            a@,
            b.as_node(),
        ),
        call_ensures(<Expr<T> as core::ops::Sub<R>>::sub, (a, b), out) ==> operates(
            out@,
            "Expression_static_Subtract"@,
            a@,
            b.as_node(),
        ),
        call_ensures(<Expr<T> as core::ops::Mul<R>>::mul, (a, b), out) ==> operates(
            out@,
            "Expression_static_Multiply"@,
            a@,
            b.as_node(),
        ),
        call_ensures(<Expr<T> as core::ops::Div<R>>::div, (a, b), out) ==> operates(
            out@,
            "Expression_static_Divide"@,
            a@,
            b.as_node(),
        ),
        call_ensures(<Expr<T> as core::ops::Rem<R>>::rem, (a, b), out) ==> operates(
            out@,
            "Expression_static_Modulo"@,
            a@,
            b.as_node(),
        ),
        call_ensures(Expr::<T>::pow::<R>, (a, b), out) ==> operates(
            out@,
            "Expression_static_Power"@,
            a@,
            b.as_node(),
        ),
{
}

/// The shifts build the server's shifts.
pub proof fn shifts_shift<T: Integer, R: IntoExpr<T>>(a: Expr<T>, b: R, out: Expr<T>)
    ensures
        call_ensures(<Expr<T> as core::ops::Shl<R>>::shl, (a, b), out) ==> operates(
            out@,
            "Expression_static_LeftShift"@,
            a@,
            b.as_node(),
        ),
        call_ensures(<Expr<T> as core::ops::Shr<R>>::shr, (a, b), out) ==> operates(
            out@,
            "Expression_static_RightShift"@,
            a@,
            b.as_node(),
        ),
{
}

/// The logical operators build the server's operations of their names.
pub proof fn logic_combines<R: IntoExpr<bool>>(a: Expr<bool>, b: R, out: Expr<bool>)
    ensures
        call_ensures(<Expr<bool> as core::ops::BitAnd<R>>::bitand, (a, b), out) ==> operates(
            out@,
            "Expression_static_And"@,
            a@,
            b.as_node(),
        ),
        call_ensures(<Expr<bool> as core::ops::BitOr<R>>::bitor, (a, b), out) ==> operates(
            out@,
            "Expression_static_Or"@,
            a@,
            b.as_node(),
        ),
        call_ensures(<Expr<bool> as core::ops::BitXor<R>>::bitxor, (a, b), out) ==> operates(
            out@,
            "Expression_static_ExclusiveOr"@,
            a@,
            b.as_node(),
        ),
        call_ensures(<Expr<bool> as core::ops::Not>::not, (a,), out) ==> tree_procedure(out@)
            == Some("Expression_static_Not"@) && (out@ matches NodeView::Unary(_, inner) && *inner
            == a@),
{
}

/// Whether a tree is the operation `procedure` of the server on the collection
/// `coll`.
pub open spec fn operates_on(out: NodeView, procedure: Seq<char>, coll: NodeView) -> bool {
    &&& tree_procedure(out) == Some(procedure)
    &&& out matches NodeView::CollUnary(_, inner) && *inner == coll
}

/// Whether a tree is the operation `procedure` of the server on the collection
/// `coll` and `other`.
pub open spec fn operates_with(
    out: NodeView,
    procedure: Seq<char>,
    coll: NodeView,
    other: NodeView,
) -> bool {
    &&& tree_procedure(out) == Some(procedure)
    &&& out matches NodeView::CollBinary(_, inner, second) && *inner == coll && *second == other
}

/// The operations on a whole collection build the server's of their names.
pub proof fn collections_are_summed_up<T: Number>(
    coll: Expr<Vec<T>>,
    count: Expr<i32>,
    out: Expr<T>,
    avg: Expr<T::Avg>,
)
    ensures
        call_ensures(Expr::<Vec<T>>::count, (coll,), count) ==> operates_on(
            count@,
            "Expression_static_Count"@,
            coll@,
        ),
        call_ensures(Expr::<Vec<T>>::sum, (coll,), out) ==> operates_on(
            out@,
            "Expression_static_Sum"@,
            coll@,
        ),
        call_ensures(Expr::<Vec<T>>::min, (coll,), out) ==> operates_on(
            out@,
            "Expression_static_Min"@,
            coll@,
        ),
        call_ensures(Expr::<Vec<T>>::max, (coll,), out) ==> operates_on(
            out@,
            "Expression_static_Max"@,
            coll@,
        ),
        call_ensures(Expr::<Vec<T>>::avg, (coll,), avg) ==> operates_on(
            avg@,
            "Expression_static_Average"@,
            coll@,
        ),
{
}

/// The operations on a collection and a second operand build the server's of
/// their names, the collection first.
pub proof fn collections_take_their_operand<
    T,
    R: IntoExpr<T>,
    I: IntoExpr<i32>,
    C: IntoExpr<Vec<T>>,
>(
    coll: Expr<Vec<T>>,
    value: R,
    index: I,
    other: C,
    contained: Expr<bool>,
    item: Expr<T>,
    all: Expr<Vec<T>>,
)
    ensures
        call_ensures(Expr::<Vec<T>>::contains::<R>, (coll, value), contained) ==> operates_with(
            contained@,
            "Expression_static_Contains"@,
            coll@,
            value.as_node(),
        ),
        call_ensures(Expr::<Vec<T>>::get::<I>, (coll, index), item) ==> operates_with(
            item@,
            "Expression_static_Get"@,
            coll@,
            index.as_node(),
        ),
        call_ensures(Expr::<Vec<T>>::concat::<C>, (coll, other), all) ==> operates_with(
            all@,
            "Expression_static_Concat"@,
            coll@,
            other.as_node(),
        ),
{
}

/// Whether a tree is the operation `procedure` of the server on the collection
/// `coll` and a lambda of the one parameter `id` of type `kind`.
pub open spec fn operates_by(
    out: NodeView,
    procedure: Seq<char>,
    coll: NodeView,
    id: u64,
    kind: TypeKind,
) -> bool {
    &&& tree_procedure(out) == Some(procedure)
    &&& out matches NodeView::CollLambda(_, inner, lambda) && *inner == coll && lambda.params
        == seq![(id, kind)]
}

/// The operations that take a predicate build the server's of their names, with
/// a lambda of the element.
pub proof fn predicates_are_lambdas<T: ParamType, F: FnOnce(Expr<T>) -> Expr<bool>>(
    coll: Expr<Vec<T>>,
    id: ParamId,
    f: F,
    kept: Expr<Vec<T>>,
    out: Expr<bool>,
)
    ensures
        call_ensures(Expr::<Vec<T>>::filter::<F>, (coll, id, f), kept) ==> operates_by(
            kept@,
            "Expression_static_Where"@,
            coll@,
            id@,
            T::kind(),
        ),
        call_ensures(Expr::<Vec<T>>::any::<F>, (coll, id, f), out) ==> operates_by(
            out@,
            "Expression_static_Any"@,
            coll@,
            id@,
            T::kind(),
        ),
        call_ensures(Expr::<Vec<T>>::all::<F>, (coll, id, f), out) ==> operates_by(
            out@,
            "Expression_static_All"@,
            coll@,
            id@,
            T::kind(),
        ),
{
}

/// Mapping and sorting build the server's operations, with a lambda of the
/// element.
pub proof fn keys_are_lambdas<T: ParamType, U, F: FnOnce(Expr<T>) -> Expr<U>>(
    coll: Expr<Vec<T>>,
    id: ParamId,
    f: F,
    mapped: Expr<Vec<U>>,
    sorted: Expr<Vec<T>>,
)
    ensures
        call_ensures(Expr::<Vec<T>>::map::<U, F>, (coll, id, f), mapped) ==> operates_by(
            mapped@,
            "Expression_static_Select"@,
            coll@,
            id@,
            T::kind(),
        ),
        call_ensures(Expr::<Vec<T>>::sorted_by::<U, F>, (coll, id, f), sorted) ==> operates_by(
            sorted@,
            "Expression_static_OrderBy"@,
            coll@,
            id@,
            T::kind(),
        ),
{
}

}
