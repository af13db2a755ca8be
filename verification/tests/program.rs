//! Construction of expressions on the server.
use stayputnik::codec::{call, Double, Encode, Float};
use stayputnik::expr::{Call, CollLambdaOp, Expr, Lambda, Node, ParamIds, TypeKind};
use stayputnik::krpc::schema::ProcedureCall;
use stayputnik::program::{is_lazy, Build, Input, Op, Operand, Program};
use stayputnik::services::krpc::Expression;
use stayputnik::{ClientRef, Error, Malformed};

fn client() -> ClientRef {
    ClientRef::new("localhost".to_string(), vec![1])
}

fn double(v: f64) -> Double {
    Double { bits: v.to_bits() }
}

fn cloud() -> Expr<Vec<Double>> {
    Expr::from(Call::new(call("Laser", "Cloud", vec![])))
}

/// Carries a construction out, answering every call with the next id from 100
/// on: the calls that were made, and the outcome.
fn run(mut build: Build) -> (Vec<ProcedureCall>, stayputnik::Result<Expression>) {
    let mut calls = Vec::new();
    while let Some(call) = build.next_call() {
        let id = 100 + calls.len() as u64;
        calls.push(call);
        build.reply(Ok(id.encode_krpc()));
    }
    (calls, build.finish())
}

fn names(calls: &[ProcedureCall]) -> Vec<&str> {
    calls
        .iter()
        .map(|call| {
            assert_eq!(call.service, "KRPC");
            for (i, argument) in call.arguments.iter().enumerate() {
                assert_eq!(argument.position as usize, i);
            }
            call.procedure.as_str()
        })
        .collect()
}

fn values(call: &ProcedureCall) -> Vec<Vec<u8>> {
    call.arguments.iter().map(|argument| argument.value.clone()).collect()
}

fn ops(program: &Program) -> Vec<Op> {
    program.steps.iter().map(|step| step.op).collect()
}

#[test]
fn leaves_are_one_call_each() {
    let cases: Vec<(Node, &str, Vec<u8>)> = vec![
        (Node::ConstDouble(double(1.5)), "ConstantDouble", 1.5f64.to_le_bytes().to_vec()),
        (
            Node::ConstFloat(Float { bits: 2.5f32.to_bits() }),
            "ConstantFloat",
            2.5f32.to_le_bytes().to_vec(),
        ),
        (Node::ConstInt(-1), "ConstantInt", vec![1]),
        (Node::ConstBool(true), "ConstantBool", vec![1]),
        (Node::ConstString("hi".to_string()), "ConstantString", vec![2, b'h', b'i']),
        (Node::Call(call("S", "", vec![])), "Call", vec![0x0a, 1, b'S']),
    ];
    for (node, name, value) in cases {
        let (calls, outcome) = run(Build::new(&client(), &node));
        assert_eq!(names(&calls), vec![format!("Expression_static_{name}")]);
        assert_eq!(values(&calls[0]), vec![value]);
        assert_eq!(outcome.unwrap().id(), 100);
    }
}

#[test]
fn comparisons_refer_to_their_sides() {
    let expr = cloud().get(3).gt(double(2.0));
    let (calls, outcome) = run(expr.build(&client()));
    assert_eq!(
        names(&calls),
        vec![
            "Expression_static_Call",
            "Expression_static_ConstantInt",
            "Expression_static_Get",
            "Expression_static_ConstantDouble",
            "Expression_static_GreaterThan",
        ]
    );
    assert_eq!(values(&calls[2]), vec![vec![100], vec![101]]);
    assert_eq!(values(&calls[4]), vec![vec![102], vec![103]]);
    let expression = outcome.unwrap();
    assert_eq!(expression.id(), 104);
    assert_eq!(expression.client().address(), "localhost");
}

#[test]
fn every_operator_has_its_procedure() {
    let a = || Expr::<i32>::from(1);
    let t = || Expr::from(true);
    let cases: Vec<(Node, Op)> = vec![
        (a().eq(2).node, Op::Equal),
        (a().ne(2).node, Op::NotEqual),
        (a().gt(2).node, Op::GreaterThan),
        (a().ge(2).node, Op::GreaterThanOrEqual),
        (a().lt(2).node, Op::LessThan),
        (a().le(2).node, Op::LessThanOrEqual),
        ((t() & false).node, Op::And),
        ((t() | false).node, Op::Or),
        ((t() ^ false).node, Op::ExclusiveOr),
        ((a() + 2).node, Op::Add),
        ((a() - 2).node, Op::Subtract),
        ((a() * 2).node, Op::Multiply),
        ((a() / 2).node, Op::Divide),
        ((a() % 2).node, Op::Modulo),
        (a().pow(2).node, Op::Power),
        ((a() << 2).node, Op::LeftShift),
        ((a() >> 2).node, Op::RightShift),
    ];
    for (node, op) in cases {
        let program = Program::new(&node);
        assert_eq!(program.steps.len(), 3);
        assert_eq!(program.steps[2].op, op);
        assert!(matches!(program.root, Some(Operand::Step(2))));
    }
    let (calls, _) = run((!t()).build(&client()));
    assert_eq!(names(&calls), vec!["Expression_static_ConstantBool", "Expression_static_Not"]);
}

#[test]
fn casts_make_their_type_after_their_operand() {
    let expr = Expr::<i32>::from(7).cast::<Double>();
    let (calls, _) = run(expr.build(&client()));
    assert_eq!(
        names(&calls),
        vec![
            "Expression_static_ConstantInt",
            "Type_static_Double",
            "Expression_static_Cast",
        ]
    );
    assert!(calls[1].arguments.is_empty());
    assert_eq!(values(&calls[2]), vec![vec![100], vec![101]]);
    assert_eq!(
        ops(&Program::new(&Expr::<i32>::from(7).cast::<Float>().node))[1],
        Op::FloatType
    );
    assert_eq!(ops(&Program::new(&Expr::<i32>::from(7).cast::<i32>().node))[1], Op::IntType);
}

#[test]
fn lists_take_their_items_in_order() {
    let expr = Expr::<Vec<i32>>::list(vec![5, 6]).contains(6);
    let (calls, _) = run(expr.build(&client()));
    assert_eq!(
        names(&calls),
        vec![
            "Expression_static_ConstantInt",
            "Expression_static_ConstantInt",
            "Expression_static_CreateList",
            "Expression_static_ConstantInt",
            "Expression_static_Contains",
        ]
    );
    assert_eq!(values(&calls[2]), vec![vec![0x0a, 1, 100, 0x0a, 1, 101]]);
    let (calls, _) = run(Expr::<Vec<i32>>::list(Vec::<i32>::new()).build(&client()));
    assert_eq!(values(&calls[0]), vec![vec![]]);
}

#[test]
fn lambdas_make_parameter_body_and_function() {
    let mut ids = ParamIds::new();
    for _ in 0..12 {
        ids.next_param_id();
    }
    let expr = cloud().any(ids.next_param_id(), |d: Expr<Double>| d.lt(double(50.0)));
    let (calls, _) = run(expr.build(&client()));
    assert_eq!(
        names(&calls),
        vec![
            "Expression_static_Call",
            "Type_static_Double",
            "Expression_static_Parameter",
            "Expression_static_ConstantDouble",
            "Expression_static_LessThan",
            "Expression_static_Function",
            "Expression_static_Any",
        ]
    );
    // The parameter is named by its id, and the body refers to the object that
    // the function takes.
    assert_eq!(values(&calls[2]), vec![vec![3, b'p', b'1', b'2'], vec![101]]);
    assert_eq!(values(&calls[4]), vec![vec![102], vec![103]]);
    assert_eq!(values(&calls[5]), vec![vec![0x0a, 1, 102], vec![104]]);
    assert_eq!(values(&calls[6]), vec![vec![100], vec![105]]);
}

#[test]
fn every_collection_operation_has_its_procedure() {
    let mut ids = ParamIds::new();
    let last = |expr: Node| Program::new(&expr).steps.pop().unwrap().op;
    let same = |d: Expr<Double>| d;
    let holds = |d: Expr<Double>| d.gt(double(0.0));
    assert_eq!(last(cloud().map(ids.next_param_id(), same).node), Op::Select);
    assert_eq!(last(cloud().filter(ids.next_param_id(), holds).node), Op::Where);
    assert_eq!(last(cloud().any(ids.next_param_id(), holds).node), Op::Any);
    assert_eq!(last(cloud().all(ids.next_param_id(), holds).node), Op::All);
    assert_eq!(last(cloud().sorted_by(ids.next_param_id(), same).node), Op::OrderBy);
    let plus = |a: Expr<Double>, d: Expr<Double>| a + d;
    let (a, b) = (ids.next_param_id(), ids.next_param_id());
    assert_eq!(last(cloud().reduce(a, b, plus).node), Op::Aggregate);
    let (a, b) = (ids.next_param_id(), ids.next_param_id());
    assert_eq!(last(cloud().fold(double(0.0), a, b, plus).node), Op::AggregateWithSeed);
    assert_eq!(last(cloud().count().node), Op::Count);
    assert_eq!(last(cloud().sum().node), Op::Sum);
    assert_eq!(last(cloud().min().node), Op::Min);
    assert_eq!(last(cloud().max().node), Op::Max);
    assert_eq!(last(cloud().avg().node), Op::Average);
    assert_eq!(last(cloud().contains(double(1.0)).node), Op::Contains);
    assert_eq!(last(cloud().get(0).node), Op::Get);
    assert_eq!(last(cloud().concat(cloud()).node), Op::Concat);
}

#[test]
fn folds_take_collection_seed_and_function() {
    let mut ids = ParamIds::new();
    let (acc, item) = (ids.next_param_id(), ids.next_param_id());
    let expr = cloud().fold(0, acc, item, |n: Expr<i32>, _d: Expr<Double>| n + 1);
    let program = Program::new(&expr.node);
    assert_eq!(
        ops(&program),
        vec![
            Op::Call,
            Op::ConstantInt,
            Op::IntType,
            Op::Parameter,
            Op::DoubleType,
            Op::Parameter,
            Op::ConstantInt,
            Op::Add,
            Op::Function,
            Op::AggregateWithSeed,
        ]
    );
    let handles: Vec<usize> = program.steps[9]
        .inputs
        .iter()
        .map(|input| match input {
            Input::Handle(Operand::Step(i)) => *i,
            other => panic!("unexpected input: {other:?}"),
        })
        .collect();
    assert_eq!(handles, vec![0, 1, 8]);
}

#[test]
fn count_and_get_need_concrete_lists() {
    let mut ids = ParamIds::new();
    let mut mapped = || cloud().map(ids.next_param_id(), |d: Expr<Double>| d + double(1.0));
    let counted = Program::new(&mapped().count().node);
    assert_eq!(ops(&counted)[7..], [Op::ToList, Op::Count]);
    let got = Program::new(&mapped().get(2).node);
    assert_eq!(ops(&got)[7..], [Op::ToList, Op::ConstantInt, Op::Get]);
    // The other operations take lazy collections as they are.
    assert_eq!(ops(&Program::new(&mapped().sum().node))[7..], [Op::Sum]);
    assert_eq!(
        ops(&Program::new(&mapped().contains(double(1.0)).node))[7..],
        [Op::ConstantDouble, Op::Contains]
    );
    // A concatenation is lazy, a call is not.
    assert_eq!(
        ops(&Program::new(&cloud().concat(cloud()).count().node)),
        vec![Op::Call, Op::Call, Op::Concat, Op::ToList, Op::Count]
    );
    assert_eq!(ops(&Program::new(&cloud().count().node)), vec![Op::Call, Op::Count]);
    assert!(is_lazy(&cloud().concat(cloud()).node));
    assert!(!is_lazy(&cloud().node));
}

#[test]
fn raw_expressions_are_used_as_they_are() {
    let raw = Expression::new(77, ClientRef::new("elsewhere".to_string(), vec![]));
    let (calls, outcome) = run(Expr::<bool>::raw(raw.clone()).build(&client()));
    assert!(calls.is_empty());
    let same = outcome.unwrap();
    assert_eq!(same.id(), 77);
    assert_eq!(same.client().address(), "elsewhere");

    let (calls, _) = run((!Expr::<bool>::raw(raw)).build(&client()));
    assert_eq!(values(&calls[0]), vec![vec![77]]);
}

#[test]
fn parameters_outside_their_lambda_are_refused() {
    let stray = Node::Param(9);
    let (calls, outcome) = run(Build::new(&client(), &stray));
    assert!(calls.is_empty());
    assert!(matches!(outcome, Err(Error::Decode(Malformed::UnboundParameter))));

    // The calls up to the stray parameter are made.
    let list = Node::ConstList(vec![Node::ConstInt(1), Node::Param(9), Node::ConstInt(2)]);
    let (calls, outcome) = run(Build::new(&client(), &list));
    assert_eq!(names(&calls), vec!["Expression_static_ConstantInt"]);
    assert!(matches!(outcome, Err(Error::Decode(Malformed::UnboundParameter))));
}

#[test]
fn parameters_end_with_their_lambda() {
    let mut ids = ParamIds::new();
    let mut leaked = None;
    let any = cloud().any(ids.next_param_id(), |d: Expr<Double>| {
        leaked = Some(d.clone());
        d.gt(double(0.0))
    });
    let stray = leaked.unwrap().gt(double(0.0));
    assert!(Program::new(&any.node).root.is_some());

    let behind = any.clone() & stray.clone();
    let (calls, outcome) = run(behind.build(&client()));
    // The calls of the lambda are made, none for what refers to its parameter.
    assert_eq!(calls.len(), 7);
    assert!(matches!(outcome, Err(Error::Decode(Malformed::UnboundParameter))));

    let before = stray.clone() & any.clone();
    let (calls, outcome) = run(before.build(&client()));
    assert!(calls.is_empty());
    assert!(matches!(outcome, Err(Error::Decode(Malformed::UnboundParameter))));

    let listed = Node::ConstList(vec![any.node, stray.node]);
    assert!(Program::new(&listed).root.is_none());
}

#[test]
fn parameters_are_known_in_lambdas_within_theirs() {
    let mut ids = ParamIds::new();
    let (outer, inner) = (ids.next_param_id(), ids.next_param_id());
    let nested = cloud().any(outer, |a: Expr<Double>| {
        let within = cloud().any(inner, |b: Expr<Double>| b.gt(a.clone()));
        // Behind the inner lambda the parameter of the outer one is there.
        within & a.gt(double(0.0))
    });
    let (calls, outcome) = run(nested.build(&client()));
    assert!(outcome.is_ok());
    // Both refer to the object that the outer function takes.
    assert_eq!(calls[2].procedure, "Expression_static_Parameter");
    assert_eq!(values(&calls[6]), vec![vec![105], vec![102]]);
    assert_eq!(values(&calls[10]), vec![vec![102], vec![109]]);
}

#[test]
fn parameters_are_named_by_their_number() {
    for (id, name) in [(0, "p0"), (9, "p9"), (10, "p10"), (1234, "p1234")] {
        let lambda = Lambda {
            params: vec![(id, TypeKind::Int)],
            body: Box::new(Node::Param(id)),
        };
        let node = Node::CollLambda(CollLambdaOp::MapEach, Box::new(cloud().node), lambda);
        let (calls, outcome) = run(Build::new(&client(), &node));
        assert!(outcome.is_ok());
        assert_eq!(calls[2].procedure, "Expression_static_Parameter");
        assert_eq!(values(&calls[2]), vec![name.to_string().encode_krpc(), vec![101]]);
    }
    let most = Node::CollLambda(
        CollLambdaOp::MapEach,
        Box::new(cloud().node),
        Lambda { params: vec![(u64::MAX, TypeKind::Int)], body: Box::new(Node::ConstInt(1)) },
    );
    let (calls, _) = run(Build::new(&client(), &most));
    let name = "p18446744073709551615".to_string();
    assert_eq!(values(&calls[2])[0], name.encode_krpc());
}

#[test]
fn a_tree_can_be_used_twice() {
    let mut ids = ParamIds::new();
    let any = cloud().any(ids.next_param_id(), |d: Expr<Double>| d.gt(double(0.0)));
    let both = any.clone() & any;
    let (calls, outcome) = run(both.build(&client()));
    assert_eq!(calls.len(), 15);
    // Each copy of the lambda has a parameter of its own.
    assert_eq!(values(&calls[4])[0], vec![102]);
    assert_eq!(values(&calls[11])[0], vec![109]);
    assert_eq!(outcome.unwrap().id(), 114);
}

#[test]
fn a_failed_call_ends_the_construction() {
    let mut build = (Expr::from(true) & false).build(&client());
    assert!(build.next_call().is_some());
    build.reply(Err(Error::Rpc {
        service: "KRPC".to_string(),
        name: "N".to_string(),
        description: "D".to_string(),
    }));
    assert!(build.next_call().is_none());
    match build.finish() {
        Err(Error::Rpc { service, name, description }) => {
            assert_eq!((service.as_str(), name.as_str()), ("KRPC", "N"));
            assert_eq!(description, "D");
        }
        other => panic!("unexpected outcome: {other:?}"),
    }
}

#[test]
fn a_reply_that_is_no_handle_ends_the_construction() {
    let mut build = (Expr::from(true) & false).build(&client());
    build.reply(Ok(vec![7]));
    assert!(build.next_call().is_some());
    build.reply(Ok(vec![0x80]));
    assert!(build.next_call().is_none());
    assert!(matches!(build.finish(), Err(Error::Decode(Malformed::Wire(_)))));
}

#[test]
fn ids_come_in_order() {
    let mut ids = ParamIds::new();
    let mut seen = Vec::new();
    for _ in 0..5 {
        let any = cloud().any(ids.next_param_id(), |d: Expr<Double>| d.gt(double(0.0)));
        if let Node::CollLambda(_, _, lambda) = any.node {
            seen.push(lambda.params[0].0);
        }
    }
    assert_eq!(seen, vec![0, 1, 2, 3, 4]);
}

#[test]
fn typed_calls_are_plain_calls_too() {
    let typed: Call<Double> = Call::new(call("S", "P", vec![]));
    let plain: ProcedureCall = typed.clone().into();
    assert_eq!(plain, typed.call);
}

#[test]
fn texts_are_operands() {
    let name: Call<String> = Call::new(call("S", "Name", vec![]));
    let expr = Expr::from(name.clone()).eq("Kerbal X");
    let again = Expr::from(name).eq("Kerbal X".to_string());
    for node in [expr.node, again.node] {
        match node {
            Node::Binary(_, _, rhs) => {
                assert!(matches!(*rhs, Node::ConstString(ref s) if s == "Kerbal X"));
            }
            other => panic!("unexpected node: {other:?}"),
        }
    }
}
