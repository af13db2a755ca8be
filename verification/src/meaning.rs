//! What a program constructs.
//!
//! The object that a step makes is described by the [`Term`] of the calls that
//! lead to it. The program of a tree constructs the term that the tree stands
//! for, in which every reference to a lambda parameter is one object.
use vstd::prelude::*;

use crate::codec::{Double, Float};
use crate::expr::{CollBinaryOp, CollUnaryOp, TypeKind};
use crate::program::Op;

verus! {

use crate::expr::{LambdaView, NodeView};
use crate::krpc::schema::ProcedureCallView;
use crate::program::{
    binary_op, blank, bound, built, built_all, built_lambda, coll_binary_op, coll_lambda_op,
    coll_unary_op, decimal, emitted, extends, in_range, input_in_range, lazy, lemma_extends_further,
    lemma_extends_itself, listed, param_text, program_of, sound, step_in_range, type_op, unary_op,
    Drafted, InputView, OperandView, StepView,
};
use crate::services::krpc::ObjectView;

/// An object on the server, by the calls that made it.
pub enum Term {
    /// What a procedure makes of its arguments.
    Made(Op, Seq<TermInput>),
    /// An object that was there before.
    Object(ObjectView),
}

/// An argument of a call, its objects by the calls that made them.
pub enum TermInput {
    Double(Double),
    Float(Float),
    Int(i32),
    Bool(bool),
    Text(Seq<char>),
    Call(ProcedureCallView),
    Handle(Term),
    Handles(Seq<Term>),
}

// --- The terms of a program ---

/// What step `i` makes.
pub open spec fn term_at(steps: Seq<StepView>, i: nat) -> Term
    decreases i, 2nat,
{
    let step = steps[i as int];
    Term::Made(
        step.op,
        Seq::new(step.inputs.len(), |j: int| input_term(step.inputs[j], steps, i)),
    )
}

/// What an input of step `n` stands for.
pub open spec fn input_term(input: InputView, steps: Seq<StepView>, n: nat) -> TermInput
    decreases n, 1nat,
{
    match input {
        InputView::Double(v) => TermInput::Double(v),
        InputView::Float(v) => TermInput::Float(v),
        InputView::Int(v) => TermInput::Int(v),
        InputView::Bool(v) => TermInput::Bool(v),
        InputView::Text(v) => TermInput::Text(v),
        InputView::Call(call) => TermInput::Call(call),
        InputView::Handle(operand) => TermInput::Handle(operand_term(operand, steps, n)),
        InputView::Handles(operands) => TermInput::Handles(
            Seq::new(operands.len(), |k: int| operand_term(operands[k], steps, n)),
        ),
    }
}

/// What an object is, of those that are there once `n` steps were carried out.
pub open spec fn operand_term(operand: OperandView, steps: Seq<StepView>, n: nat) -> Term
    decreases n, 0nat,
{
    match operand {
        OperandView::Step(i) => if i < n {
            term_at(steps, i)
        } else {
            arbitrary()
        },
        OperandView::Object(object) => Term::Object(object),
    }
}

/// What an object of a construction is.
pub open spec fn term_of(s: Drafted, operand: OperandView) -> Term {
    operand_term(operand, s.steps, s.steps.len())
}

// --- The term of a tree ---

/// The server's type for `kind`.
pub open spec fn type_term(kind: TypeKind) -> Term {
    Term::Made(type_op(kind), seq![])
}

/// The lambda parameter `id` of type `kind`.
pub open spec fn param_term(id: u64, kind: TypeKind) -> Term {
    Term::Made(
        Op::Parameter,
        seq![TermInput::Text(param_text(id)), TermInput::Handle(type_term(kind))],
    )
}

/// The types of the parameters that are in scope inside a lambda.
pub open spec fn scope_with(params: Seq<(u64, TypeKind)>, scope: Map<u64, TypeKind>) -> Map<
    u64,
    TypeKind,
>
    decreases params.len(),
{
    if params.len() == 0 {
        scope
    } else {
        scope_with(params.drop_last(), scope).insert(params.last().0, params.last().1)
    }
}

/// The term of a lambda: a function of its parameters and its body.
pub open spec fn lambda_meaning(lambda: LambdaView, scope: Map<u64, TypeKind>) -> Term
    decreases lambda,
{
    Term::Made(
        Op::Function,
        seq![
            TermInput::Handles(
                Seq::new(
                    lambda.params.len(),
                    |i: int| param_term(lambda.params[i].0, lambda.params[i].1),
                ),
            ),
            TermInput::Handle(meaning(*lambda.body, scope_with(lambda.params, scope))),
        ],
    )
}

/// The terms of a run of trees.
pub open spec fn meanings(nodes: Seq<NodeView>, scope: Map<u64, TypeKind>) -> Seq<Term>
    decreases nodes,
{
    if nodes.len() == 0 {
        seq![]
    } else {
        meanings(nodes.drop_last(), scope).push(meaning(nodes.last(), scope))
    }
}

/// The term of a collection where its operation needs a concrete list.
pub open spec fn listed_term(list: bool, coll: Term) -> Term {
    if list {
        Term::Made(Op::ToList, seq![TermInput::Handle(coll)])
    } else {
        coll
    }
}

/// The term that a tree stands for, where `scope` gives the types of the
/// parameters of the lambdas around it.
pub open spec fn meaning(node: NodeView, scope: Map<u64, TypeKind>) -> Term
    decreases node,
{
    match node {
        NodeView::ConstDouble(v) => Term::Made(Op::ConstantDouble, seq![TermInput::Double(v)]),
        NodeView::ConstFloat(v) => Term::Made(Op::ConstantFloat, seq![TermInput::Float(v)]),
        NodeView::ConstInt(v) => Term::Made(Op::ConstantInt, seq![TermInput::Int(v)]),
        NodeView::ConstBool(v) => Term::Made(Op::ConstantBool, seq![TermInput::Bool(v)]),
        NodeView::ConstString(v) => Term::Made(Op::ConstantString, seq![TermInput::Text(v)]),
        NodeView::ConstList(items) => Term::Made(
            Op::CreateList,
            seq![TermInput::Handles(meanings(items, scope))],
        ),
        NodeView::Call(call) => Term::Made(Op::Call, seq![TermInput::Call(call)]),
        NodeView::Raw(object) => Term::Object(object),
        NodeView::Param(id) => param_term(id, scope[id]),
        NodeView::Unary(op, a) => Term::Made(
            unary_op(op),
            seq![TermInput::Handle(meaning(*a, scope))],
        ),
        NodeView::Cast(a, kind) => Term::Made(
            Op::Cast,
            seq![TermInput::Handle(meaning(*a, scope)), TermInput::Handle(type_term(kind))],
        ),
        NodeView::CollLambda(op, coll, lambda) => Term::Made(
            coll_lambda_op(op),
            seq![
                TermInput::Handle(meaning(*coll, scope)),
                TermInput::Handle(lambda_meaning(lambda, scope)),
            ],
        ),
        NodeView::Fold(coll, seed, lambda) => Term::Made(
            Op::AggregateWithSeed,
            seq![
                TermInput::Handle(meaning(*coll, scope)),
                TermInput::Handle(meaning(*seed, scope)),
                TermInput::Handle(lambda_meaning(lambda, scope)),
            ],
        ),
        NodeView::CollUnary(op, coll) => {
            let list = op == CollUnaryOp::Count && lazy(*coll);
            Term::Made(
                coll_unary_op(op),
                seq![TermInput::Handle(listed_term(list, meaning(*coll, scope)))],
            )
        },
        NodeView::CollBinary(op, coll, rhs) => {
            let list = op == CollBinaryOp::Get && lazy(*coll);
            Term::Made(
                coll_binary_op(op),
                seq![
                    TermInput::Handle(listed_term(list, meaning(*coll, scope))),
                    TermInput::Handle(meaning(*rhs, scope)),
                ],
            )
        },
        NodeView::Binary(op, a, b) => Term::Made(
            binary_op(op),
            seq![
                TermInput::Handle(meaning(*a, scope)),
                TermInput::Handle(meaning(*b, scope)),
            ],
        ),
    }
}

// --- Which trees are in order ---

/// Whether a lambda uses only parameters that are in scope, or its own.
pub open spec fn lambda_scoped(lambda: LambdaView, scope: Map<u64, TypeKind>) -> bool
    decreases lambda,
{
    scoped(*lambda.body, scope_with(lambda.params, scope))
}

/// Whether each of a run of trees is in order.
pub open spec fn all_scoped(nodes: Seq<NodeView>, scope: Map<u64, TypeKind>) -> bool
    decreases nodes,
{
    nodes.len() == 0 || (all_scoped(nodes.drop_last(), scope) && scoped(nodes.last(), scope))
}

/// Whether a tree uses only parameters that are in scope: each stands inside a
/// lambda that binds it, in the tree or around it.
pub open spec fn scoped(node: NodeView, scope: Map<u64, TypeKind>) -> bool
    decreases node,
{
    match node {
        NodeView::Param(id) => scope.contains_key(id),
        NodeView::ConstList(items) => all_scoped(items, scope),
        NodeView::Unary(_, a) => scoped(*a, scope),
        NodeView::Cast(a, _) => scoped(*a, scope),
        NodeView::CollLambda(_, coll, lambda) => scoped(*coll, scope) && lambda_scoped(
            lambda,
            scope,
        ),
        NodeView::Fold(coll, seed, lambda) => scoped(*coll, scope) && scoped(*seed, scope)
            && lambda_scoped(lambda, scope),
        NodeView::CollUnary(_, coll) => scoped(*coll, scope),
        NodeView::CollBinary(_, coll, rhs) => scoped(*coll, scope) && scoped(*rhs, scope),
        NodeView::Binary(_, a, b) => scoped(*a, scope) && scoped(*b, scope),
        _ => true,
    }
}

// --- A tree is constructed as written ---

/// Whether the parameters in scope were made, each as what it stands for.
#[verifier::opaque]
pub open spec fn holds(s: Drafted, scope: Map<u64, TypeKind>) -> bool {
    &&& sound(s)
    &&& forall|id: u64| #[trigger]
        scope.contains_key(id) ==> s.params.contains_key(id) && term_at(s.steps, s.params[id])
            == param_term(id, scope[id])
}

proof fn lemma_input_stays(s: Drafted, later: Drafted, input: InputView, n: nat)
    requires
        sound(s),
        extends(s, later),
        n <= s.steps.len(),
        input_in_range(input, n),
    ensures
        input_term(input, later.steps, n) == input_term(input, s.steps, n),
    decreases n, 0nat,
{
    reveal(sound);
    reveal(extends);
    reveal_with_fuel(input_term, 2);
    reveal_with_fuel(operand_term, 2);
    match input {
        InputView::Handle(operand) => {
            if let OperandView::Step(k) = operand {
                lemma_term_stays(s, later, k);
            }
        },
        InputView::Handles(operands) => {
            assert forall|k: int| 0 <= k < operands.len() implies operand_term(
                operands[k],
                later.steps,
                n,
            ) == operand_term(operands[k], s.steps, n) by {
                assert(in_range(operands[k], n));
                if let OperandView::Step(m) = operands[k] {
                    lemma_term_stays(s, later, m);
                }
            }
            assert(input_term(input, later.steps, n)->Handles_0 =~= input_term(
                input,
                s.steps,
                n,
            )->Handles_0);
        },
        _ => {},
    }
}

proof fn lemma_term_stays(s: Drafted, later: Drafted, i: nat)
    requires
        sound(s),
        extends(s, later),
        i < s.steps.len(),
    ensures
        term_at(later.steps, i) == term_at(s.steps, i),
    decreases i, 1nat,
{
    reveal(sound);
    reveal(extends);
    reveal_with_fuel(term_at, 2);
    reveal_with_fuel(input_term, 2);
    let step = s.steps[i as int];
    assert(later.steps[i as int] == step);
    assert(step_in_range(step, i));
    assert forall|j: int| 0 <= j < step.inputs.len() implies input_term(
        step.inputs[j],
        later.steps,
        i,
    ) == input_term(step.inputs[j], s.steps, i) by {
        lemma_input_stays(s, later, step.inputs[j], i);
    }
    assert(term_at(later.steps, i)->Made_1 =~= term_at(s.steps, i)->Made_1);
}

/// What an object is does not change as the construction goes on.
proof fn lemma_stays(s: Drafted, scope: Map<u64, TypeKind>, later: Drafted, operand: OperandView)
    requires
        holds(s, scope),
        extends(s, later),
        in_range(operand, s.steps.len()),
    ensures
        in_range(operand, later.steps.len()),
        term_of(later, operand) == term_of(s, operand),
{
    reveal(holds);
    reveal(sound);
    reveal(extends);
    if let OperandView::Step(i) = operand {
        lemma_term_stays(s, later, i);
    }
}

/// One more step makes what its procedure makes of its inputs.
proof fn lemma_emit(s: Drafted, scope: Map<u64, TypeKind>, op: Op, inputs: Seq<InputView>)
    requires
        holds(s, scope),
        forall|i: int|
            0 <= i < inputs.len() ==> input_in_range(#[trigger] inputs[i], s.steps.len()),
    ensures
        holds(emitted(s, op, inputs).0, scope),
        extends(s, emitted(s, op, inputs).0),
        in_range(
            OperandView::Step(s.steps.len()),
            emitted(s, op, inputs).0.steps.len(),
        ),
        term_of(emitted(s, op, inputs).0, OperandView::Step(s.steps.len())) == Term::Made(
            op,
            Seq::new(
                inputs.len(),
                |j: int| input_term(inputs[j], s.steps, s.steps.len()),
            ),
        ),
{
    reveal(holds);
    reveal(sound);
    reveal(extends);
    let later = emitted(s, op, inputs).0;
    let n = s.steps.len();
    assert forall|id: u64| #[trigger] scope.contains_key(id) implies later.params.contains_key(id)
        && term_at(later.steps, later.params[id]) == param_term(id, scope[id]) by {
        lemma_term_stays(s, later, s.params[id]);
    }
    assert forall|j: int| 0 <= j < inputs.len() implies input_term(inputs[j], later.steps, n)
        == input_term(inputs[j], s.steps, n) by {
        lemma_input_stays(s, later, inputs[j], n);
    }
    reveal_with_fuel(term_at, 2);
    reveal_with_fuel(operand_term, 2);
    assert(later.steps[n as int].inputs == inputs);
    assert(term_at(later.steps, n)->Made_1 =~= Seq::new(
        inputs.len(),
        |j: int| input_term(inputs[j], s.steps, n),
    ));
}

proof fn lemma_emit1(s: Drafted, scope: Map<u64, TypeKind>, op: Op, a: InputView)
    requires
        holds(s, scope),
        input_in_range(a, s.steps.len()),
    ensures
        holds(emitted(s, op, seq![a]).0, scope),
        extends(s, emitted(s, op, seq![a]).0),
        in_range(
            OperandView::Step(s.steps.len()),
            emitted(s, op, seq![a]).0.steps.len(),
        ),
        term_of(emitted(s, op, seq![a]).0, OperandView::Step(s.steps.len())) == Term::Made(
            op,
            seq![input_term(a, s.steps, s.steps.len())],
        ),
{
    lemma_emit(s, scope, op, seq![a]);
    assert(Seq::new(
        seq![a].len(),
        |j: int| input_term(seq![a][j], s.steps, s.steps.len()),
    ) =~= seq![input_term(a, s.steps, s.steps.len())]);
}

proof fn lemma_emit2(s: Drafted, scope: Map<u64, TypeKind>, op: Op, a: InputView, b: InputView)
    requires
        holds(s, scope),
        input_in_range(a, s.steps.len()),
        input_in_range(b, s.steps.len()),
    ensures
        holds(emitted(s, op, seq![a, b]).0, scope),
        extends(s, emitted(s, op, seq![a, b]).0),
        in_range(
            OperandView::Step(s.steps.len()),
            emitted(s, op, seq![a, b]).0.steps.len(),
        ),
        term_of(emitted(s, op, seq![a, b]).0, OperandView::Step(s.steps.len())) == Term::Made(
            op,
            seq![
                input_term(a, s.steps, s.steps.len()),
                input_term(b, s.steps, s.steps.len()),
            ],
        ),
{
    lemma_emit(s, scope, op, seq![a, b]);
    assert(Seq::new(
        seq![a, b].len(),
        |j: int| input_term(seq![a, b][j], s.steps, s.steps.len()),
    ) =~= seq![input_term(a, s.steps, s.steps.len()), input_term(b, s.steps, s.steps.len())]);
}

proof fn lemma_emit3(
    s: Drafted,
    scope: Map<u64, TypeKind>,
    op: Op,
    a: InputView,
    b: InputView,
    c: InputView,
)
    requires
        holds(s, scope),
        input_in_range(a, s.steps.len()),
        input_in_range(b, s.steps.len()),
        input_in_range(c, s.steps.len()),
    ensures
        holds(emitted(s, op, seq![a, b, c]).0, scope),
        extends(s, emitted(s, op, seq![a, b, c]).0),
        in_range(
            OperandView::Step(s.steps.len()),
            emitted(s, op, seq![a, b, c]).0.steps.len(),
        ),
        term_of(emitted(s, op, seq![a, b, c]).0, OperandView::Step(s.steps.len())) == Term::Made(
            op,
            seq![
                input_term(a, s.steps, s.steps.len()),
                input_term(b, s.steps, s.steps.len()),
                input_term(c, s.steps, s.steps.len()),
            ],
        ),
{
    lemma_emit(s, scope, op, seq![a, b, c]);
    assert(Seq::new(
        seq![a, b, c].len(),
        |j: int| input_term(seq![a, b, c][j], s.steps, s.steps.len()),
    ) =~= seq![
        input_term(a, s.steps, s.steps.len()),
        input_term(b, s.steps, s.steps.len()),
        input_term(c, s.steps, s.steps.len()),
    ]);
}

proof fn lemma_type(s: Drafted, scope: Map<u64, TypeKind>, kind: TypeKind)
    requires
        holds(s, scope),
    ensures
        holds(emitted(s, type_op(kind), seq![]).0, scope),
        extends(s, emitted(s, type_op(kind), seq![]).0),
        in_range(
            OperandView::Step(s.steps.len()),
            emitted(s, type_op(kind), seq![]).0.steps.len(),
        ),
        term_of(emitted(s, type_op(kind), seq![]).0, OperandView::Step(s.steps.len()))
            == type_term(kind),
{
    let none: Seq<InputView> = seq![];
    lemma_emit(s, scope, type_op(kind), none);
    assert(Seq::new(
        none.len(),
        |j: int| input_term(none[j], s.steps, s.steps.len()),
    ) =~= Seq::<TermInput>::empty());
}

/// The parameters of a lambda are made as what they stand for.
proof fn lemma_bound_means(params: Seq<(u64, TypeKind)>, s: Drafted, scope: Map<u64, TypeKind>)
    requires
        holds(s, scope),
    ensures
        holds(bound(params, s).0, scope_with(params, scope)),
        extends(s, bound(params, s).0),
        bound(params, s).1.len() == params.len(),
        forall|i: int|
            0 <= i < params.len() ==> in_range(
                #[trigger] bound(params, s).1[i],
                bound(params, s).0.steps.len(),
            ) && term_of(bound(params, s).0, bound(params, s).1[i]) == param_term(
                params[i].0,
                params[i].1,
            ),
    decreases params.len(),
{
    if params.len() == 0 {
        lemma_extends_itself(s);
    } else {
        let front = params.drop_last();
        let (id, kind) = params.last();
        let front_scope = scope_with(front, scope);
        lemma_bound_means(front, s, scope);
        let (s1, made) = bound(front, s);
        lemma_type(s1, front_scope, kind);
        let ty = OperandView::Step(s1.steps.len());
        let (s2, _) = emitted(s1, type_op(kind), seq![]);
        let name = InputView::Text(param_text(id));
        lemma_emit2(s2, front_scope, Op::Parameter, name, InputView::Handle(ty));
        let param = s2.steps.len();
        let (s3, _) = emitted(s2, Op::Parameter, seq![name, InputView::Handle(ty)]);
        let s4 = Drafted { params: s3.params.insert(id, param), ..s3 };
        lemma_extends_further(s, s1, s2);
        lemma_extends_further(s, s2, s3);
        assert(extends(s3, s4) && extends(s, s4) && extends(s1, s3)) by {
            reveal(extends);
        }
        assert(term_of(s3, OperandView::Step(param)) == param_term(id, kind));
        assert(holds(s4, scope_with(params, scope))) by {
            reveal(holds);
            reveal(sound);
            reveal_with_fuel(operand_term, 2);
        }
        assert forall|i: int| 0 <= i < params.len() implies in_range(
            #[trigger] bound(params, s).1[i],
            s4.steps.len(),
        ) && term_of(s4, bound(params, s).1[i]) == param_term(params[i].0, params[i].1) by {
            if i < front.len() {
                assert(bound(params, s).1[i] == made[i]);
                lemma_stays(s1, front_scope, s3, made[i]);
                assert(front[i] == params[i]);
            }
        }
    }
}

proof fn lemma_lambda_means(lambda: LambdaView, s: Drafted, scope: Map<u64, TypeKind>)
    requires
        holds(s, scope),
        lambda_scoped(lambda, scope),
    ensures
        built_lambda(lambda, s).1 is Some,
        holds(built_lambda(lambda, s).0, scope),
        extends(s, built_lambda(lambda, s).0),
        in_range(built_lambda(lambda, s).1->0, built_lambda(lambda, s).0.steps.len()),
        term_of(built_lambda(lambda, s).0, built_lambda(lambda, s).1->0) == lambda_meaning(
            lambda,
            scope,
        ),
    decreases lambda,
{
    let inner = scope_with(lambda.params, scope);
    lemma_bound_means(lambda.params, s, scope);
    let (s1, params) = bound(lambda.params, s);
    lemma_meaning(*lambda.body, s1, inner);
    let (s2, body) = built(*lambda.body, s1);
    let body = body->0;
    assert forall|i: int| 0 <= i < params.len() implies in_range(
        #[trigger] params[i],
        s2.steps.len(),
    ) && term_of(s2, params[i]) == param_term(lambda.params[i].0, lambda.params[i].1) by {
        assert(in_range(bound(lambda.params, s).1[i], s1.steps.len()));
        lemma_stays(s1, inner, s2, params[i]);
    }
    lemma_extends_further(s, s1, s2);
    let s3 = Drafted { params: s.params, ..s2 };
    assert(extends(s, s3)) by {
        reveal(extends);
    }
    assert(holds(s3, scope)) by {
        reveal(holds);
        reveal(sound);
        reveal(extends);
        assert forall|id: u64| #[trigger] scope.contains_key(id) implies s3.params.contains_key(id)
            && term_at(s3.steps, s3.params[id]) == param_term(id, scope[id]) by {
            lemma_term_stays(s, s3, s.params[id]);
        }
    }
    let handles = InputView::Handles(params);
    lemma_emit2(s3, scope, Op::Function, handles, InputView::Handle(body));
    assert(input_term(handles, s3.steps, s3.steps.len())->Handles_0 =~= Seq::new(
        lambda.params.len(),
        |i: int| param_term(lambda.params[i].0, lambda.params[i].1),
    )) by {
        reveal_with_fuel(input_term, 2);
        assert forall|i: int| 0 <= i < params.len() implies operand_term(
            params[i],
            s3.steps,
            s3.steps.len(),
        ) == param_term(lambda.params[i].0, lambda.params[i].1) by {
            assert(term_of(s2, params[i]) == param_term(lambda.params[i].0, lambda.params[i].1));
        }
    }
    lemma_extends_further(s, s3, built_lambda(lambda, s).0);
}

proof fn lemma_meanings(nodes: Seq<NodeView>, s: Drafted, scope: Map<u64, TypeKind>)
    requires
        holds(s, scope),
        all_scoped(nodes, scope),
    ensures
        built_all(nodes, s).1 is Some,
        holds(built_all(nodes, s).0, scope),
        extends(s, built_all(nodes, s).0),
        (built_all(nodes, s).1->0).len() == nodes.len(),
        meanings(nodes, scope).len() == nodes.len(),
        forall|i: int|
            0 <= i < nodes.len() ==> in_range(
                #[trigger] (built_all(nodes, s).1->0)[i],
                built_all(nodes, s).0.steps.len(),
            ) && term_of(built_all(nodes, s).0, (built_all(nodes, s).1->0)[i]) == meanings(
                nodes,
                scope,
            )[i],
    decreases nodes,
{
    if nodes.len() == 0 {
        lemma_extends_itself(s);
    } else {
        let front = nodes.drop_last();
        lemma_meanings(front, s, scope);
        let (s1, operands) = built_all(front, s);
        let operands = operands->0;
        lemma_meaning(nodes.last(), s1, scope);
        let (s2, last) = built(nodes.last(), s1);
        lemma_extends_further(s, s1, s2);
        assert forall|i: int| 0 <= i < nodes.len() implies in_range(
            #[trigger] (built_all(nodes, s).1->0)[i],
            s2.steps.len(),
        ) && term_of(s2, (built_all(nodes, s).1->0)[i]) == meanings(nodes, scope)[i] by {
            if i < front.len() {
                assert((built_all(nodes, s).1->0)[i] == operands[i]);
                assert(in_range((built_all(front, s).1->0)[i], s1.steps.len()));
                lemma_stays(s1, scope, s2, operands[i]);
            }
        }
    }
}

/// The object of a tree is what the tree stands for.
proof fn lemma_meaning(node: NodeView, s: Drafted, scope: Map<u64, TypeKind>)
    requires
        holds(s, scope),
        scoped(node, scope),
    ensures
        built(node, s).1 is Some,
        holds(built(node, s).0, scope),
        extends(s, built(node, s).0),
        in_range(built(node, s).1->0, built(node, s).0.steps.len()),
        term_of(built(node, s).0, built(node, s).1->0) == meaning(node, scope),
    decreases node,
{
    match node {
        NodeView::ConstDouble(v) => lemma_emit1(
            s,
            scope,
            Op::ConstantDouble,
            InputView::Double(v),
        ),
        NodeView::ConstFloat(v) => lemma_emit1(s, scope, Op::ConstantFloat, InputView::Float(v)),
        NodeView::ConstInt(v) => lemma_emit1(s, scope, Op::ConstantInt, InputView::Int(v)),
        NodeView::ConstBool(v) => lemma_emit1(s, scope, Op::ConstantBool, InputView::Bool(v)),
        NodeView::ConstString(v) => lemma_emit1(s, scope, Op::ConstantString, InputView::Text(v)),
        NodeView::ConstList(items) => {
            lemma_meanings(items, s, scope);
            let (s1, operands) = built_all(items, s);
            let operands = operands->0;
            let handles = InputView::Handles(operands);
            assert(input_in_range(handles, s1.steps.len())) by {
                assert forall|i: int| 0 <= i < operands.len() implies in_range(
                    #[trigger] operands[i],
                    s1.steps.len(),
                ) by {
                    assert(in_range((built_all(items, s).1->0)[i], s1.steps.len()));
                }
            }
            lemma_emit1(s1, scope, Op::CreateList, handles);
            assert(input_term(handles, s1.steps, s1.steps.len())->Handles_0 =~= meanings(
                items,
                scope,
            )) by {
                reveal_with_fuel(input_term, 2);
                assert forall|i: int| 0 <= i < operands.len() implies operand_term(
                    operands[i],
                    s1.steps,
                    s1.steps.len(),
                ) == meanings(items, scope)[i] by {
                    assert(term_of(s1, (built_all(items, s).1->0)[i]) == meanings(items, scope)[i]);
                }
            }
            lemma_extends_further(s, s1, built(node, s).0);
        },
        NodeView::Call(call) => lemma_emit1(s, scope, Op::Call, InputView::Call(call)),
        NodeView::Raw(_) => lemma_extends_itself(s),
        NodeView::Param(id) => {
            lemma_extends_itself(s);
            reveal(holds);
            reveal(sound);
            reveal_with_fuel(operand_term, 2);
        },
        NodeView::Unary(op, a) => {
            lemma_meaning(*a, s, scope);
            let (s1, a) = built(*a, s);
            lemma_emit1(s1, scope, unary_op(op), InputView::Handle(a->0));
            lemma_extends_further(s, s1, built(node, s).0);
        },
        NodeView::Cast(a, kind) => {
            lemma_meaning(*a, s, scope);
            let (s1, a) = built(*a, s);
            lemma_type(s1, scope, kind);
            let ty = OperandView::Step(s1.steps.len());
            let (s2, _) = emitted(s1, type_op(kind), seq![]);
            lemma_stays(s1, scope, s2, a->0);
            lemma_emit2(s2, scope, Op::Cast, InputView::Handle(a->0), InputView::Handle(ty));
            lemma_extends_further(s, s1, s2);
            lemma_extends_further(s, s2, built(node, s).0);
        },
        NodeView::CollLambda(op, coll, lambda) => {
            lemma_meaning(*coll, s, scope);
            let (s1, coll) = built(*coll, s);
            lemma_lambda_means(lambda, s1, scope);
            let (s2, func) = built_lambda(lambda, s1);
            lemma_stays(s1, scope, s2, coll->0);
            lemma_emit2(
                s2,
                scope,
                coll_lambda_op(op),
                InputView::Handle(coll->0),
                InputView::Handle(func->0),
            );
            lemma_extends_further(s, s1, s2);
            lemma_extends_further(s, s2, built(node, s).0);
        },
        NodeView::Fold(coll, seed, lambda) => {
            lemma_meaning(*coll, s, scope);
            let (s1, coll) = built(*coll, s);
            lemma_meaning(*seed, s1, scope);
            let (s2, seed) = built(*seed, s1);
            lemma_stays(s1, scope, s2, coll->0);
            lemma_lambda_means(lambda, s2, scope);
            let (s3, func) = built_lambda(lambda, s2);
            lemma_stays(s2, scope, s3, coll->0);
            lemma_stays(s2, scope, s3, seed->0);
            lemma_emit3(
                s3,
                scope,
                Op::AggregateWithSeed,
                InputView::Handle(coll->0),
                InputView::Handle(seed->0),
                InputView::Handle(func->0),
            );
            lemma_extends_further(s, s1, s2);
            lemma_extends_further(s, s2, s3);
            lemma_extends_further(s, s3, built(node, s).0);
        },
        NodeView::CollUnary(op, coll) => {
            let list = op == CollUnaryOp::Count && lazy(*coll);
            lemma_meaning(*coll, s, scope);
            let (s1, coll) = built(*coll, s);
            lemma_listed(list, coll->0, s1, scope);
            let (s2, coll) = listed(list, coll->0, s1);
            lemma_emit1(s2, scope, coll_unary_op(op), InputView::Handle(coll));
            lemma_extends_further(s, s1, s2);
            lemma_extends_further(s, s2, built(node, s).0);
        },
        NodeView::CollBinary(op, coll, rhs) => {
            let list = op == CollBinaryOp::Get && lazy(*coll);
            lemma_meaning(*coll, s, scope);
            let (s1, coll) = built(*coll, s);
            lemma_listed(list, coll->0, s1, scope);
            let (s2, coll) = listed(list, coll->0, s1);
            lemma_meaning(*rhs, s2, scope);
            let (s3, rhs) = built(*rhs, s2);
            lemma_stays(s2, scope, s3, coll);
            lemma_emit2(
                s3,
                scope,
                coll_binary_op(op),
                InputView::Handle(coll),
                InputView::Handle(rhs->0),
            );
            lemma_extends_further(s, s1, s2);
            lemma_extends_further(s, s2, s3);
            lemma_extends_further(s, s3, built(node, s).0);
        },
        NodeView::Binary(op, a, b) => {
            lemma_meaning(*a, s, scope);
            let (s1, a) = built(*a, s);
            lemma_meaning(*b, s1, scope);
            let (s2, b) = built(*b, s1);
            lemma_stays(s1, scope, s2, a->0);
            lemma_emit2(
                s2,
                scope,
                binary_op(op),
                InputView::Handle(a->0),
                InputView::Handle(b->0),
            );
            lemma_extends_further(s, s1, s2);
            lemma_extends_further(s, s2, built(node, s).0);
        },
    }
}

proof fn lemma_listed(list: bool, coll: OperandView, s: Drafted, scope: Map<u64, TypeKind>)
    requires
        holds(s, scope),
        in_range(coll, s.steps.len()),
    ensures
        holds(listed(list, coll, s).0, scope),
        extends(s, listed(list, coll, s).0),
        in_range(listed(list, coll, s).1, listed(list, coll, s).0.steps.len()),
        term_of(listed(list, coll, s).0, listed(list, coll, s).1) == listed_term(
            list,
            term_of(s, coll),
        ),
{
    if list {
        lemma_emit1(s, scope, Op::ToList, InputView::Handle(coll));
    } else {
        lemma_extends_itself(s);
    }
}

/// A tree that uses each lambda parameter inside its lambda is constructed as
/// written: its program has a root, and what the program makes there is the
/// term that the tree stands for.
pub proof fn constructed_as_written(node: NodeView)
    requires
        scoped(node, Map::empty()),
    ensures
        program_of(node).root matches Some(root) && operand_term(
            root,
            program_of(node).steps,
            program_of(node).steps.len(),
        ) == meaning(node, Map::empty()),
{
    assert(holds(blank(), Map::empty())) by {
        reveal(holds);
        reveal(sound);
    }
    lemma_meaning(node, blank(), Map::empty());
}

// --- Where a parameter is known ---

/// The parameters that a lambda's function takes are the objects that its body
/// refers to: behind the parameters of a lambda, each is known by the step
/// that the function is given for it.
pub proof fn function_takes_its_parameters(params: Seq<(u64, TypeKind)>, s: Drafted, i: int)
    requires
        0 <= i < params.len(),
        forall|a: int, b: int|
            0 <= a < b < params.len() ==> (#[trigger] params[a]).0 != (#[trigger] params[b]).0,
    ensures
        bound(params, s).1.len() == params.len(),
        bound(params, s).0.params.contains_key(params[i].0),
        bound(params, s).1[i] == OperandView::Step(bound(params, s).0.params[params[i].0]),
    decreases params.len(),
{
    let front = params.drop_last();
    lemma_bound_count(params, s);
    lemma_bound_count(front, s);
    if i < front.len() {
        assert forall|a: int, b: int| 0 <= a < b < front.len() implies (#[trigger] front[a]).0 != (
        #[trigger] front[b]).0 by {
            assert(front[a] == params[a] && front[b] == params[b]);
        }
        function_takes_its_parameters(front, s, i);
        assert(front[i] == params[i]);
        assert(params[i].0 != params[params.len() - 1].0);
    }
}

proof fn lemma_scope_names(
    params: Seq<(u64, TypeKind)>,
    s: Drafted,
    scope: Map<u64, TypeKind>,
)
    requires
        s.params.dom() == scope.dom(),
    ensures
        bound(params, s).0.params.dom() == scope_with(params, scope).dom(),
    decreases params.len(),
{
    if params.len() > 0 {
        lemma_scope_names(params.drop_last(), s, scope);
    }
    assert(bound(params, s).0.params.dom() =~= scope_with(params, scope).dom());
}

proof fn lemma_lambda_constructed(lambda: LambdaView, s: Drafted, scope: Map<u64, TypeKind>)
    requires
        s.params.dom() == scope.dom(),
    ensures
        built_lambda(lambda, s).0.params == s.params,
        built_lambda(lambda, s).1 is Some <==> lambda_scoped(lambda, scope),
    decreases lambda,
{
    lemma_scope_names(lambda.params, s, scope);
    let (s1, _) = bound(lambda.params, s);
    lemma_constructed(*lambda.body, s1, scope_with(lambda.params, scope));
}

proof fn lemma_all_constructed(nodes: Seq<NodeView>, s: Drafted, scope: Map<u64, TypeKind>)
    requires
        s.params.dom() == scope.dom(),
    ensures
        built_all(nodes, s).0.params == s.params,
        built_all(nodes, s).1 is Some <==> all_scoped(nodes, scope),
    decreases nodes,
{
    if nodes.len() > 0 {
        lemma_all_constructed(nodes.drop_last(), s, scope);
        lemma_constructed(nodes.last(), built_all(nodes.drop_last(), s).0, scope);
    }
}

proof fn lemma_constructed(node: NodeView, s: Drafted, scope: Map<u64, TypeKind>)
    requires
        s.params.dom() == scope.dom(),
    ensures
        built(node, s).0.params == s.params,
        built(node, s).1 is Some <==> scoped(node, scope),
    decreases node,
{
    match node {
        NodeView::Param(id) => assert(s.params.dom().contains(id) == scope.dom().contains(id)),
        NodeView::ConstList(items) => lemma_all_constructed(items, s, scope),
        NodeView::Unary(_, a) => lemma_constructed(*a, s, scope),
        NodeView::Cast(a, _) => lemma_constructed(*a, s, scope),
        NodeView::CollLambda(_, coll, lambda) => {
            lemma_constructed(*coll, s, scope);
            lemma_lambda_constructed(lambda, built(*coll, s).0, scope);
        },
        NodeView::Fold(coll, seed, lambda) => {
            lemma_constructed(*coll, s, scope);
            let (s1, _) = built(*coll, s);
            lemma_constructed(*seed, s1, scope);
            lemma_lambda_constructed(lambda, built(*seed, s1).0, scope);
        },
        NodeView::CollUnary(_, coll) => lemma_constructed(*coll, s, scope),
        NodeView::CollBinary(op, coll, rhs) => {
            let list = op == CollBinaryOp::Get && lazy(*coll);
            lemma_constructed(*coll, s, scope);
            let (s1, coll) = built(*coll, s);
            if let Some(coll) = coll {
                lemma_constructed(*rhs, listed(list, coll, s1).0, scope);
            }
        },
        NodeView::Binary(_, a, b) => {
            lemma_constructed(*a, s, scope);
            lemma_constructed(*b, built(*a, s).0, scope);
        },
        _ => {},
    }
}

/// A parameter is known inside its lambda alone: behind a tree the known
/// parameters are those from before it, each made by the same step.
pub proof fn parameters_end_with_their_lambda(node: NodeView, s: Drafted)
    ensures
        built(node, s).0.params == s.params,
{
    let scope = s.params.map_values(|_i: nat| TypeKind::Bool);
    assert(scope.dom() =~= s.params.dom());
    lemma_constructed(node, s, scope);
}

/// A tree is constructed exactly where every parameter in it stands inside a
/// lambda that binds it. A reference to a parameter outside its lambda, before
/// it or behind it, is refused.
pub proof fn constructed_where_scoped(node: NodeView)
    ensures
        program_of(node).root is Some <==> scoped(node, Map::empty()),
{
    assert(blank().params.dom() =~= Map::<u64, TypeKind>::empty().dom());
    lemma_constructed(node, blank(), Map::empty());
}

// --- How many calls a construction takes ---

/// The calls of a lambda: two for each parameter, those of the body, and one
/// for the function.
pub open spec fn lambda_calls(lambda: LambdaView) -> nat
    decreases lambda,
{
    2 * lambda.params.len() + calls(*lambda.body) + 1
}

/// The calls of a run of trees.
pub open spec fn all_calls(nodes: Seq<NodeView>) -> nat
    decreases nodes,
{
    if nodes.len() == 0 {
        0
    } else {
        all_calls(nodes.drop_last()) + calls(nodes.last())
    }
}

/// The calls of a tree: one for each node that is not there yet, one more for
/// the type of each cast and for each `ToList`.
pub open spec fn calls(node: NodeView) -> nat
    decreases node,
{
    match node {
        NodeView::Raw(_) => 0,
        NodeView::Param(_) => 0,
        NodeView::ConstList(items) => all_calls(items) + 1,
        NodeView::Unary(_, a) => calls(*a) + 1,
        NodeView::Cast(a, _) => calls(*a) + 2,
        NodeView::CollLambda(_, coll, lambda) => calls(*coll) + lambda_calls(lambda) + 1,
        NodeView::Fold(coll, seed, lambda) => calls(*coll) + calls(*seed) + lambda_calls(lambda)
            + 1,
        NodeView::CollUnary(op, coll) => if op == CollUnaryOp::Count && lazy(*coll) {
            calls(*coll) + 2
        } else {
            calls(*coll) + 1
        },
        NodeView::CollBinary(op, coll, rhs) => if op == CollBinaryOp::Get && lazy(*coll) {
            calls(*coll) + calls(*rhs) + 2
        } else {
            calls(*coll) + calls(*rhs) + 1
        },
        NodeView::Binary(_, a, b) => calls(*a) + calls(*b) + 1,
        _ => 1,
    }
}

proof fn lemma_bound_count(params: Seq<(u64, TypeKind)>, s: Drafted)
    ensures
        bound(params, s).0.steps.len() == s.steps.len() + 2 * params.len(),
        bound(params, s).1.len() == params.len(),
    decreases params.len(),
{
    if params.len() > 0 {
        lemma_bound_count(params.drop_last(), s);
    }
}

proof fn lemma_lambda_count(lambda: LambdaView, s: Drafted)
    ensures
        built_lambda(lambda, s).1 is Some ==> built_lambda(lambda, s).0.steps.len()
            == s.steps.len() + lambda_calls(lambda),
    decreases lambda,
{
    lemma_bound_count(lambda.params, s);
    lemma_count(*lambda.body, bound(lambda.params, s).0);
}

proof fn lemma_all_count(nodes: Seq<NodeView>, s: Drafted)
    ensures
        built_all(nodes, s).1 is Some ==> built_all(nodes, s).0.steps.len() == s.steps.len()
            + all_calls(nodes),
    decreases nodes,
{
    if nodes.len() > 0 {
        lemma_all_count(nodes.drop_last(), s);
        lemma_count(nodes.last(), built_all(nodes.drop_last(), s).0);
    }
}

proof fn lemma_count(node: NodeView, s: Drafted)
    ensures
        built(node, s).1 is Some ==> built(node, s).0.steps.len() == s.steps.len() + calls(node),
    decreases node,
{
    match node {
        NodeView::ConstList(items) => lemma_all_count(items, s),
        NodeView::Unary(_, a) => lemma_count(*a, s),
        NodeView::Cast(a, _) => lemma_count(*a, s),
        NodeView::CollLambda(_, coll, lambda) => {
            lemma_count(*coll, s);
            lemma_lambda_count(lambda, built(*coll, s).0);
        },
        NodeView::Fold(coll, seed, lambda) => {
            lemma_count(*coll, s);
            let (s1, _) = built(*coll, s);
            lemma_count(*seed, s1);
            lemma_lambda_count(lambda, built(*seed, s1).0);
        },
        NodeView::CollUnary(_, coll) => lemma_count(*coll, s),
        NodeView::CollBinary(op, coll, rhs) => {
            let list = op == CollBinaryOp::Get && lazy(*coll);
            lemma_count(*coll, s);
            let (s1, coll) = built(*coll, s);
            if let Some(coll) = coll {
                lemma_count(*rhs, listed(list, coll, s1).0);
            }
        },
        NodeView::Binary(_, a, b) => {
            lemma_count(*a, s);
            lemma_count(*b, built(*a, s).0);
        },
        _ => {},
    }
}

/// A construction takes as many calls as its tree has.
pub proof fn one_call_for_each_node(node: NodeView)
    ensures
        program_of(node).root is Some ==> program_of(node).steps.len() == calls(node),
{
    lemma_count(node, blank());
}

// --- The names of parameters ---

/// The parameters that a lambda binds, those inside it last.
pub open spec fn lambda_binders(lambda: LambdaView) -> Seq<u64>
    decreases lambda,
{
    lambda.params.map_values(|param: (u64, TypeKind)| param.0) + binders(*lambda.body)
}

/// The parameters that the lambdas in a run of trees bind.
pub open spec fn all_binders(nodes: Seq<NodeView>) -> Seq<u64>
    decreases nodes,
{
    if nodes.len() == 0 {
        seq![]
    } else {
        all_binders(nodes.drop_last()) + binders(nodes.last())
    }
}

/// The parameters that the lambdas in a tree bind, one for each place.
pub open spec fn binders(node: NodeView) -> Seq<u64>
    decreases node,
{
    match node {
        NodeView::ConstList(items) => all_binders(items),
        NodeView::Unary(_, a) => binders(*a),
        NodeView::Cast(a, _) => binders(*a),
        NodeView::CollLambda(_, coll, lambda) => binders(*coll) + lambda_binders(lambda),
        NodeView::Fold(coll, seed, lambda) => binders(*coll) + binders(*seed) + lambda_binders(
            lambda,
        ),
        NodeView::CollUnary(_, coll) => binders(*coll),
        NodeView::CollBinary(_, coll, rhs) => binders(*coll) + binders(*rhs),
        NodeView::Binary(_, a, b) => binders(*a) + binders(*b),
        _ => seq![],
    }
}

/// The names of the parameters that steps make, in order.
pub open spec fn param_names(steps: Seq<StepView>) -> Seq<Seq<char>>
    decreases steps.len(),
{
    if steps.len() == 0 {
        seq![]
    } else if steps.last().op == Op::Parameter {
        param_names(steps.drop_last()).push(steps.last().inputs[0]->Text_0)
    } else {
        param_names(steps.drop_last())
    }
}

/// The names of the parameters `ids`.
pub open spec fn names_of(ids: Seq<u64>) -> Seq<Seq<char>> {
    ids.map_values(|id: u64| param_text(id))
}

/// Whether `later` has the parameters of `s` and behind them those of `ids`.
spec fn names_more(s: Drafted, later: Drafted, ids: Seq<u64>) -> bool {
    param_names(later.steps) == param_names(s.steps) + names_of(ids)
}

proof fn lemma_names_none(s: Drafted)
    ensures
        names_more(s, s, seq![]),
{
    assert(param_names(s.steps) + names_of(seq![]) =~= param_names(s.steps));
}

proof fn lemma_names_further(s: Drafted, mid: Drafted, later: Drafted, a: Seq<u64>, b: Seq<u64>)
    requires
        names_more(s, mid, a),
        names_more(mid, later, b),
    ensures
        names_more(s, later, a + b),
{
    assert(names_of(a + b) =~= names_of(a) + names_of(b));
    assert(param_names(s.steps) + names_of(a) + names_of(b) =~= param_names(s.steps) + names_of(
        a + b,
    ));
}

proof fn lemma_names_emitted(
    s: Drafted,
    mid: Drafted,
    ids: Seq<u64>,
    op: Op,
    inputs: Seq<InputView>,
)
    requires
        names_more(s, mid, ids),
        op != Op::Parameter,
    ensures
        names_more(s, emitted(mid, op, inputs).0, ids),
{
    assert(emitted(mid, op, inputs).0.steps.drop_last() =~= mid.steps);
}

proof fn lemma_names_bound(params: Seq<(u64, TypeKind)>, s: Drafted)
    ensures
        names_more(s, bound(params, s).0, params.map_values(|param: (u64, TypeKind)| param.0)),
    decreases params.len(),
{
    let ids = params.map_values(|param: (u64, TypeKind)| param.0);
    if params.len() == 0 {
        lemma_names_none(s);
        assert(ids =~= seq![]);
    } else {
        let front = params.drop_last();
        let front_ids = front.map_values(|param: (u64, TypeKind)| param.0);
        lemma_names_bound(front, s);
        let (id, kind) = params.last();
        let (s1, _) = bound(front, s);
        lemma_names_emitted(s, s1, front_ids, type_op(kind), seq![]);
        let (s2, _) = emitted(s1, type_op(kind), seq![]);
        let inputs = seq![
            InputView::Text(param_text(id)),
            InputView::Handle(OperandView::Step(s1.steps.len())),
        ];
        let (s3, _) = emitted(s2, Op::Parameter, inputs);
        assert(s3.steps.drop_last() =~= s2.steps);
        assert(ids =~= front_ids.push(id));
        assert(names_of(ids) =~= names_of(front_ids).push(param_text(id)));
        assert(param_names(s3.steps) =~= param_names(s.steps) + names_of(ids));
    }
}

proof fn lemma_names_lambda(lambda: LambdaView, s: Drafted)
    requires
        built_lambda(lambda, s).1 is Some,
    ensures
        names_more(s, built_lambda(lambda, s).0, lambda_binders(lambda)),
    decreases lambda,
{
    let ids = lambda.params.map_values(|param: (u64, TypeKind)| param.0);
    lemma_names_bound(lambda.params, s);
    let (s1, params) = bound(lambda.params, s);
    lemma_names(*lambda.body, s1);
    let (s2, body) = built(*lambda.body, s1);
    lemma_names_further(s, s1, s2, ids, binders(*lambda.body));
    lemma_names_emitted(
        s,
        Drafted { params: s.params, ..s2 },
        lambda_binders(lambda),
        Op::Function,
        seq![InputView::Handles(params), InputView::Handle(body->0)],
    );
}

proof fn lemma_names_all(nodes: Seq<NodeView>, s: Drafted)
    requires
        built_all(nodes, s).1 is Some,
    ensures
        names_more(s, built_all(nodes, s).0, all_binders(nodes)),
    decreases nodes,
{
    lemma_names_none(s);
    if nodes.len() > 0 {
        let front = nodes.drop_last();
        lemma_names_all(front, s);
        let (s1, _) = built_all(front, s);
        lemma_names(nodes.last(), s1);
        lemma_names_further(
            s,
            s1,
            built(nodes.last(), s1).0,
            all_binders(front),
            binders(nodes.last()),
        );
    }
}

#[verifier::spinoff_prover]
#[verifier::rlimit(40)]
proof fn lemma_names(node: NodeView, s: Drafted)
    requires
        built(node, s).1 is Some,
    ensures
        names_more(s, built(node, s).0, binders(node)),
    decreases node,
{
    lemma_names_none(s);
    match node {
        NodeView::ConstDouble(v) => lemma_names_emitted(
            s,
            s,
            seq![],
            Op::ConstantDouble,
            seq![InputView::Double(v)],
        ),
        NodeView::ConstFloat(v) => lemma_names_emitted(
            s,
            s,
            seq![],
            Op::ConstantFloat,
            seq![InputView::Float(v)],
        ),
        NodeView::ConstInt(v) => lemma_names_emitted(
            s,
            s,
            seq![],
            Op::ConstantInt,
            seq![InputView::Int(v)],
        ),
        NodeView::ConstBool(v) => lemma_names_emitted(
            s,
            s,
            seq![],
            Op::ConstantBool,
            seq![InputView::Bool(v)],
        ),
        NodeView::ConstString(v) => lemma_names_emitted(
            s,
            s,
            seq![],
            Op::ConstantString,
            seq![InputView::Text(v)],
        ),
        NodeView::ConstList(items) => {
            lemma_names_all(items, s);
            let (s1, operands) = built_all(items, s);
            lemma_names_emitted(
                s,
                s1,
                all_binders(items),
                Op::CreateList,
                seq![InputView::Handles(operands->0)],
            );
        },
        NodeView::Call(call) => lemma_names_emitted(
            s,
            s,
            seq![],
            Op::Call,
            seq![InputView::Call(call)],
        ),
        NodeView::Raw(_) => {},
        NodeView::Param(_) => {},
        NodeView::Unary(op, a) => {
            lemma_names(*a, s);
            let (s1, operand) = built(*a, s);
            lemma_names_emitted(
                s,
                s1,
                binders(*a),
                unary_op(op),
                seq![InputView::Handle(operand->0)],
            );
        },
        NodeView::Cast(a, kind) => {
            lemma_names(*a, s);
            let (s1, operand) = built(*a, s);
            lemma_names_emitted(s, s1, binders(*a), type_op(kind), seq![]);
            let ty = OperandView::Step(s1.steps.len());
            lemma_names_emitted(
                s,
                emitted(s1, type_op(kind), seq![]).0,
                binders(*a),
                Op::Cast,
                seq![InputView::Handle(operand->0), InputView::Handle(ty)],
            );
        },
        NodeView::CollLambda(op, coll, lambda) => {
            lemma_names(*coll, s);
            let (s1, operand) = built(*coll, s);
            lemma_names_lambda(lambda, s1);
            let (s2, func) = built_lambda(lambda, s1);
            lemma_names_further(s, s1, s2, binders(*coll), lambda_binders(lambda));
            lemma_names_emitted(
                s,
                s2,
                binders(node),
                coll_lambda_op(op),
                seq![InputView::Handle(operand->0), InputView::Handle(func->0)],
            );
        },
        NodeView::Fold(coll, seed, lambda) => {
            lemma_names(*coll, s);
            let (s1, operand) = built(*coll, s);
            lemma_names(*seed, s1);
            let (s2, start) = built(*seed, s1);
            lemma_names_further(s, s1, s2, binders(*coll), binders(*seed));
            lemma_names_lambda(lambda, s2);
            let (s3, func) = built_lambda(lambda, s2);
            lemma_names_further(
                s,
                s2,
                s3,
                binders(*coll) + binders(*seed),
                lambda_binders(lambda),
            );
            lemma_names_emitted(
                s,
                s3,
                binders(node),
                Op::AggregateWithSeed,
                seq![
                    InputView::Handle(operand->0),
                    InputView::Handle(start->0),
                    InputView::Handle(func->0),
                ],
            );
        },
        NodeView::CollUnary(op, coll) => {
            let list = op == CollUnaryOp::Count && lazy(*coll);
            lemma_names(*coll, s);
            let (s1, operand) = built(*coll, s);
            lemma_names_listed(list, operand->0, s, s1, binders(*coll));
            let (s2, operand) = listed(list, operand->0, s1);
            lemma_names_emitted(
                s,
                s2,
                binders(*coll),
                coll_unary_op(op),
                seq![InputView::Handle(operand)],
            );
        },
        NodeView::CollBinary(op, coll, rhs) => {
            let list = op == CollBinaryOp::Get && lazy(*coll);
            lemma_names(*coll, s);
            let (s1, operand) = built(*coll, s);
            lemma_names_listed(list, operand->0, s, s1, binders(*coll));
            let (s2, operand) = listed(list, operand->0, s1);
            lemma_names(*rhs, s2);
            let (s3, right) = built(*rhs, s2);
            lemma_names_further(s, s2, s3, binders(*coll), binders(*rhs));
            lemma_names_emitted(
                s,
                s3,
                binders(node),
                coll_binary_op(op),
                seq![InputView::Handle(operand), InputView::Handle(right->0)],
            );
        },
        NodeView::Binary(op, a, b) => {
            lemma_names(*a, s);
            let (s1, left) = built(*a, s);
            lemma_names(*b, s1);
            let (s2, right) = built(*b, s1);
            lemma_names_further(s, s1, s2, binders(*a), binders(*b));
            lemma_names_emitted(
                s,
                s2,
                binders(node),
                binary_op(op),
                seq![InputView::Handle(left->0), InputView::Handle(right->0)],
            );
        },
    }
}

proof fn lemma_names_listed(
    list: bool,
    coll: OperandView,
    s: Drafted,
    mid: Drafted,
    ids: Seq<u64>,
)
    requires
        names_more(s, mid, ids),
    ensures
        names_more(s, listed(list, coll, mid).0, ids),
{
    if list {
        lemma_names_emitted(s, mid, ids, Op::ToList, seq![InputView::Handle(coll)]);
    }
}

proof fn lemma_decimal_differs(a: nat, b: nat)
    requires
        decimal(a) == decimal(b),
    ensures
        a == b,
    decreases a,
{
    reveal_with_fuel(decimal, 2);
    let (x, y) = (('0' as int) + a % 10, ('0' as int) + b % 10);
    assert(decimal(a).last() == x as char && decimal(b).last() == y as char);
    assert((x as char) as int == x && (y as char) as int == y);
    if a >= 10 && b >= 10 {
        assert(decimal(a).drop_last() =~= decimal(a / 10));
        assert(decimal(b).drop_last() =~= decimal(b / 10));
        lemma_decimal_differs(a / 10, b / 10);
    }
}

/// Two parameters have two names.
pub proof fn parameters_have_names_of_their_own(a: u64, b: u64)
    requires
        a != b,
    ensures
        param_text(a) != param_text(b),
{
    if param_text(a) == param_text(b) {
        assert(param_text(a).skip(1) =~= decimal(a as nat));
        assert(param_text(b).skip(1) =~= decimal(b as nat));
        lemma_decimal_differs(a as nat, b as nat);
    }
}

/// A construction makes one parameter for each that a lambda binds, in order,
/// under its name. So where the ids that a tree binds are pairwise distinct,
/// as those of one supply are, no two parameters have one name.
pub proof fn one_name_for_each_binder(node: NodeView)
    requires
        program_of(node).root is Some,
    ensures
        param_names(program_of(node).steps) == names_of(binders(node)),
        binders(node).no_duplicates() ==> param_names(program_of(node).steps).no_duplicates(),
{
    lemma_names(node, blank());
    let ids = binders(node);
    let names = names_of(ids);
    assert(param_names(blank().steps) + names =~= names);
    if ids.no_duplicates() {
        assert forall|i: int, j: int|
            0 <= i < names.len() && 0 <= j < names.len() && i != j implies names[i] != names[j] by {
            parameters_have_names_of_their_own(ids[i], ids[j]);
        }
    }
}

}
