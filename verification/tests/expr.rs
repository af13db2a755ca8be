//! Expression trees and their construction.
use stayputnik::codec::{call as make_call, Double, Float};
use stayputnik::expr::{
    BinaryOp, Call, CollBinaryOp, CollLambdaOp, CollUnaryOp, Expr, Node, ParamIds, TypeKind,
    UnaryOp,
};
use stayputnik::program::is_lazy;

fn call<T>(procedure: &str) -> Call<T> {
    Call::new(make_call("Test", procedure, vec![]))
}

fn double(v: f64) -> Double {
    Double { bits: v.to_bits() }
}

fn float(v: f32) -> Float {
    Float { bits: v.to_bits() }
}

#[test]
fn comparison_shape() {
    let expr = Expr::from(call::<Double>("Alt")).gt(double(80_000.0));
    match expr.node {
        Node::Binary(BinaryOp::Gt, lhs, rhs) => {
            assert!(matches!(*lhs, Node::Call(ref c) if c.procedure == "Alt"));
            assert!(matches!(*rhs, Node::ConstDouble(v) if f64::from_bits(v.bits) == 80_000.0));
        }
        other => panic!("unexpected node: {other:?}"),
    }
}

#[test]
fn operator_shape() {
    let throttle = Expr::from(call::<Float>("Throttle"));
    let expr = (throttle + float(0.1f32)).le(float(1.0f32)) & Expr::from(true);
    match expr.node {
        Node::Binary(BinaryOp::And, lhs, rhs) => {
            assert!(matches!(*rhs, Node::ConstBool(true)));
            match *lhs {
                Node::Binary(BinaryOp::Le, le_lhs, _) => {
                    assert!(matches!(*le_lhs, Node::Binary(BinaryOp::Add, _, _)));
                }
                other => panic!("unexpected node: {other:?}"),
            }
        }
        other => panic!("unexpected node: {other:?}"),
    }
}

#[test]
fn not_and_cast() {
    let expr = !Expr::from(call::<bool>("Flag"));
    assert!(matches!(expr.node, Node::Unary(UnaryOp::Not, _)));

    let cast = Expr::from(call::<i32>("Count")).cast::<Double>();
    assert!(matches!(cast.node, Node::Cast(_, TypeKind::Double)));
}

#[test]
fn lambda_shape() {
    let mut ids = ParamIds::new();
    let expr = Expr::from(call::<Vec<Double>>("Cloud"))
        .filter(ids.next_param_id(), |d: Expr<Double>| d.lt(double(50.0)));
    match expr.node {
        Node::CollLambda(CollLambdaOp::Filter, coll, lambda) => {
            assert!(matches!(*coll, Node::Call(_)));
            let (id, kind) = lambda.params[0];
            assert!(matches!(kind, TypeKind::Double));
            // The body references the declared parameter by id.
            match *lambda.body {
                Node::Binary(BinaryOp::Lt, lhs, _) => {
                    assert!(matches!(*lhs, Node::Param(pid) if pid == id));
                }
                other => panic!("unexpected body: {other:?}"),
            }
        }
        other => panic!("unexpected node: {other:?}"),
    }
}

#[test]
fn fresh_param_ids() {
    let mut ids = ParamIds::new();
    let a = Expr::from(call::<Vec<Double>>("A"))
        .any(ids.next_param_id(), |d: Expr<Double>| d.gt(double(0.0)));
    let b = Expr::from(call::<Vec<Double>>("B"))
        .any(ids.next_param_id(), |d: Expr<Double>| d.gt(double(0.0)));
    let id_of = |expr: Expr<bool>| match expr.node {
        Node::CollLambda(_, _, lambda) => lambda.params[0].0,
        other => panic!("unexpected node: {other:?}"),
    };
    assert_ne!(id_of(a), id_of(b));
}

#[test]
fn reduce_binds_two_params() {
    let mut ids = ParamIds::new();
    let expr = Expr::from(call::<Vec<Double>>("Cloud")).reduce(
        ids.next_param_id(),
        ids.next_param_id(),
        |acc: Expr<Double>, d: Expr<Double>| acc + d,
    );
    match expr.node {
        Node::CollLambda(CollLambdaOp::Reduce, _, lambda) => {
            assert_eq!(lambda.params.len(), 2);
            assert_ne!(lambda.params[0].0, lambda.params[1].0);
        }
        other => panic!("unexpected node: {other:?}"),
    }
}

#[test]
fn lazy_detection() {
    let mut ids = ParamIds::new();
    let lazy = Expr::from(call::<Vec<Double>>("Cloud"))
        .filter(ids.next_param_id(), |d: Expr<Double>| d.gt(double(0.0)));
    assert!(is_lazy(&lazy.node));
    let concrete = Expr::<Vec<Double>>::list(vec![double(1.0), double(2.0)]);
    assert!(!is_lazy(&concrete.node));
}
