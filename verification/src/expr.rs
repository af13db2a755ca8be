//! A builder for server-side expression trees.
//!
//! kRPC expressions are constructed node by node over RPC. This module
//! provides [`Expr<T>`]: a local, *typed* expression tree, from which
//! [`Expr::build`] works out all of the calls.
//!
//! Leaves are literals (via `From`) and procedure calls (a typed
//! [`Call<T>`]). Combine them with comparison methods ([`Expr::gt`],
//! [`Expr::eq`], ...), arithmetic operators (`+ - * / %`), and logical
//! operators (`&`, `|`, `^`, `!`).
//!
//! The types are advisory but checked: both sides of a comparison must have
//! the same `T`, logical operators require `Expr<bool>`, and [`Expr::cast`]
//! converts between numeric widths explicitly. The server performs the
//! authoritative type check when the tree is built.
//!
//! # Collections and lambdas
//!
//! Expressions over collections (`Expr<Vec<T>>`) support iterator-style
//! operations whose closures run *on the server*. The closure receives an
//! [`Expr`] placeholder for the bound element and returns the body tree; it
//! runs once, locally, during construction. Each lambda parameter has an id of
//! its own, taken from a [`ParamIds`].
//!
//! Lambda parameters can only be the five primitive types ([`ParamType`]); the
//! server cannot bind remote-class elements.
use core::marker::PhantomData;

use vstd::prelude::*;

use crate::client::ClientRef;
use crate::codec::{Double, Float};
use crate::krpc::schema::ProcedureCall;
use crate::program::Build;
use crate::sealed::Sealed;
use crate::services::krpc::Expression;

verus! {

use crate::krpc::schema::ProcedureCallView;
use crate::program::{program_of, BuildView};
use crate::services::krpc::ObjectView;

// --- Operand types ---

/// Numeric expression operand types; enables the arithmetic operators.
pub trait Number: Sealed {
    /// The result type of [`Expr::avg`]. Averaging integers produces a
    /// double, mirroring the server's LINQ semantics.
    type Avg;
}

/// Integer expression operand types; enables the shift operators.
pub trait Integer: Number {

}

impl Sealed for Double {

}

impl Sealed for Float {

}

impl Sealed for i32 {

}

impl Sealed for i64 {

}

impl Sealed for u32 {

}

impl Sealed for u64 {

}

impl Sealed for bool {

}

impl Sealed for String {

}

impl Number for Double {
    type Avg = Double;
}

impl Number for Float {
    type Avg = Float;
}

impl Number for i32 {
    type Avg = Double;
}

impl Number for i64 {
    type Avg = Double;
}

impl Number for u32 {
    type Avg = Double;
}

impl Number for u64 {
    type Avg = Double;
}

impl Integer for i32 {

}

impl Integer for i64 {

}

impl Integer for u32 {

}

impl Integer for u64 {

}

/// The server's types that an expression tree can name.
#[derive(Clone, Copy, Debug, PartialEq, Eq, Structural)]
pub enum TypeKind {
    Double,
    Float,
    Int,
    Bool,
    String,
}

/// Numeric types an expression can be [`Expr::cast`] to.
pub trait CastTarget: Sealed {
    const KIND: TypeKind;

    /// The value of `KIND`.
    spec fn kind() -> TypeKind;

    proof fn kind_is()
        ensures
            Self::KIND == Self::kind(),
    ;
}

impl CastTarget for Double {
    const KIND: TypeKind = TypeKind::Double;

    open spec fn kind() -> TypeKind {
        TypeKind::Double
    }

    proof fn kind_is() {
    }
}

impl CastTarget for Float {
    const KIND: TypeKind = TypeKind::Float;

    open spec fn kind() -> TypeKind {
        TypeKind::Float
    }

    proof fn kind_is() {
    }
}

impl CastTarget for i32 {
    const KIND: TypeKind = TypeKind::Int;

    open spec fn kind() -> TypeKind {
        TypeKind::Int
    }

    proof fn kind_is() {
    }
}

/// Types usable as lambda parameters in collection operations.
///
/// The server can only declare expression parameters of these five primitive
/// types.
pub trait ParamType: Sealed {
    const KIND: TypeKind;

    /// The value of `KIND`.
    spec fn kind() -> TypeKind;

    proof fn kind_is()
        ensures
            Self::KIND == Self::kind(),
    ;
}

impl ParamType for Double {
    const KIND: TypeKind = TypeKind::Double;

    open spec fn kind() -> TypeKind {
        TypeKind::Double
    }

    proof fn kind_is() {
    }
}

impl ParamType for Float {
    const KIND: TypeKind = TypeKind::Float;

    open spec fn kind() -> TypeKind {
        TypeKind::Float
    }

    proof fn kind_is() {
    }
}

impl ParamType for i32 {
    const KIND: TypeKind = TypeKind::Int;

    open spec fn kind() -> TypeKind {
        TypeKind::Int
    }

    proof fn kind_is() {
    }
}

impl ParamType for bool {
    const KIND: TypeKind = TypeKind::Bool;

    open spec fn kind() -> TypeKind {
        TypeKind::Bool
    }

    proof fn kind_is() {
    }
}

impl ParamType for String {
    const KIND: TypeKind = TypeKind::String;

    open spec fn kind() -> TypeKind {
        TypeKind::String
    }

    proof fn kind_is() {
    }
}

// --- Trees ---

#[derive(Clone, Copy, Debug, PartialEq, Eq, Structural)]
pub enum UnaryOp {
    Not,
}

#[derive(Clone, Copy, Debug, PartialEq, Eq, Structural)]
pub enum BinaryOp {
    Eq,
    Ne,
    Gt,
    Ge,
    Lt,
    Le,
    And,
    Or,
    Xor,
    Add,
    Sub,
    Mul,
    Div,
    Rem,
    Pow,
    Shl,
    Shr,
}

/// Operations on a collection that take a lambda.
#[derive(Clone, Copy, Debug, PartialEq, Eq, Structural)]
pub enum CollLambdaOp {
    MapEach,
    Filter,
    Any,
    All,
    SortedBy,
    Reduce,
}

/// Operations on a collection as a whole.
#[derive(Clone, Copy, Debug, PartialEq, Eq, Structural)]
pub enum CollUnaryOp {
    Count,
    Sum,
    Min,
    Max,
    Avg,
}

/// Operations on a collection and a second operand.
#[derive(Clone, Copy, Debug, PartialEq, Eq, Structural)]
pub enum CollBinaryOp {
    Contains,
    Get,
    Concat,
}

/// A node of an expression tree.
#[derive(Debug)]
pub enum Node {
    ConstDouble(Double),
    ConstFloat(Float),
    ConstInt(i32),
    ConstBool(bool),
    ConstString(String),
    ConstList(Vec<Node>),
    Call(ProcedureCall),
    Raw(Expression),
    Unary(UnaryOp, Box<Node>),
    Binary(BinaryOp, Box<Node>, Box<Node>),
    Cast(Box<Node>, TypeKind),
    /// A lambda-bound variable. Its type stands in the lambda that binds it.
    Param(u64),
    /// Collection op taking a lambda (map, filter, ...).
    CollLambda(CollLambdaOp, Box<Node>, Lambda),
    /// Fold carries a seed in addition to the lambda.
    Fold(Box<Node>, Box<Node>, Lambda),
    /// Collection op over the whole collection (count, sum, ...).
    CollUnary(CollUnaryOp, Box<Node>),
    /// Collection op taking a second scalar/collection operand.
    CollBinary(CollBinaryOp, Box<Node>, Box<Node>),
}

/// A lambda in a tree: parameter ids and types plus the body that references
/// them via [`Node::Param`].
#[derive(Debug)]
pub struct Lambda {
    pub params: Vec<(u64, TypeKind)>,
    pub body: Box<Node>,
}

/// [`Node`] as a value.
pub enum NodeView {
    ConstDouble(Double),
    ConstFloat(Float),
    ConstInt(i32),
    ConstBool(bool),
    ConstString(Seq<char>),
    ConstList(Seq<NodeView>),
    Call(ProcedureCallView),
    Raw(ObjectView),
    Unary(UnaryOp, Box<NodeView>),
    Binary(BinaryOp, Box<NodeView>, Box<NodeView>),
    Cast(Box<NodeView>, TypeKind),
    Param(u64),
    CollLambda(CollLambdaOp, Box<NodeView>, LambdaView),
    Fold(Box<NodeView>, Box<NodeView>, LambdaView),
    CollUnary(CollUnaryOp, Box<NodeView>),
    CollBinary(CollBinaryOp, Box<NodeView>, Box<NodeView>),
}

/// [`Lambda`] as a value.
pub struct LambdaView {
    pub params: Seq<(u64, TypeKind)>,
    pub body: Box<NodeView>,
}

impl View for Node {
    type V = NodeView;

    open spec fn view(&self) -> NodeView {
        node_view(*self)
    }
}

impl View for Lambda {
    type V = LambdaView;

    open spec fn view(&self) -> LambdaView {
        lambda_view(*self)
    }
}

/// The value of a tree.
pub open spec fn node_view(node: Node) -> NodeView
    decreases node,
{
    match node {
        Node::ConstDouble(v) => NodeView::ConstDouble(v),
        Node::ConstFloat(v) => NodeView::ConstFloat(v),
        Node::ConstInt(v) => NodeView::ConstInt(v),
        Node::ConstBool(v) => NodeView::ConstBool(v),
        Node::ConstString(v) => NodeView::ConstString(v@),
        Node::ConstList(items) => NodeView::ConstList(node_views(items@)),
        Node::Call(call) => NodeView::Call(call@),
        Node::Raw(expression) => NodeView::Raw(expression@),
        Node::Unary(op, a) => NodeView::Unary(op, Box::new(node_view(*a))),
        Node::Binary(op, a, b) => NodeView::Binary(
            op,
            Box::new(node_view(*a)),
            Box::new(node_view(*b)),
        ),
        Node::Cast(a, kind) => NodeView::Cast(Box::new(node_view(*a)), kind),
        Node::Param(id) => NodeView::Param(id),
        Node::CollLambda(op, coll, lambda) => NodeView::CollLambda(
            op,
            Box::new(node_view(*coll)),
            lambda_view(lambda),
        ),
        Node::Fold(coll, seed, lambda) => NodeView::Fold(
            Box::new(node_view(*coll)),
            Box::new(node_view(*seed)),
            lambda_view(lambda),
        ),
        Node::CollUnary(op, coll) => NodeView::CollUnary(op, Box::new(node_view(*coll))),
        Node::CollBinary(op, coll, rhs) => NodeView::CollBinary(
            op,
            Box::new(node_view(*coll)),
            Box::new(node_view(*rhs)),
        ),
    }
}

/// The value of a lambda.
pub open spec fn lambda_view(lambda: Lambda) -> LambdaView
    decreases lambda,
{
    LambdaView { params: lambda.params@, body: Box::new(node_view(*lambda.body)) }
}

/// The values of a run of trees.
pub open spec fn node_views(nodes: Seq<Node>) -> Seq<NodeView>
    decreases nodes,
{
    if nodes.len() == 0 {
        seq![]
    } else {
        seq![node_view(nodes[0])] + node_views(nodes.skip(1))
    }
}

pub(crate) proof fn lemma_node_views(nodes: Seq<Node>)
    ensures
        node_views(nodes).len() == nodes.len(),
        forall|i: int| 0 <= i < nodes.len() ==> #[trigger] node_views(nodes)[i] == nodes[i]@,
    decreases nodes.len(),
{
    if nodes.len() > 0 {
        lemma_node_views(nodes.skip(1));
        assert forall|i: int| 0 <= i < nodes.len() implies #[trigger] node_views(nodes)[i]
            == nodes[i]@ by {
            if i > 0 {
                assert(nodes[i] == nodes.skip(1)[i - 1]);
                assert(node_views(nodes)[i] == node_views(nodes.skip(1))[i - 1]);
            }
        }
    }
}

impl Clone for Lambda {
    fn clone(&self) -> (out: Self)
        ensures
            out@ == self@,
        decreases *self,
    {
        let mut params: Vec<(u64, TypeKind)> = Vec::new();
        for i in 0..self.params.len()
            invariant
                params@ == self.params@.take(i as int),
        {
            params.push(self.params[i]);
            assert(params@ =~= self.params@.take(i + 1));
        }
        assert(self.params@.take(self.params@.len() as int) =~= self.params@);
        Lambda { params, body: Box::new((&*self.body).clone()) }
    }
}

impl Clone for Node {
    fn clone(&self) -> (out: Self)
        ensures
            out@ == self@,
        decreases *self,
    {
        match self {
            Node::ConstDouble(v) => Node::ConstDouble(*v),
            Node::ConstFloat(v) => Node::ConstFloat(*v),
            Node::ConstInt(v) => Node::ConstInt(*v),
            Node::ConstBool(v) => Node::ConstBool(*v),
            Node::ConstString(v) => Node::ConstString(v.clone()),
            Node::ConstList(items) => {
                let mut copies: Vec<Node> = Vec::new();
                for i in 0..items.len()
                    invariant
                        *self == Node::ConstList(*items),
                        copies@.len() == i,
                        forall|j: int| 0 <= j < i ==> (#[trigger] copies@[j])@ == items@[j]@,
                {
                    assert(decreases_to!(*self => self->ConstList_0));
                    assert(decreases_to!(self->ConstList_0 => self->ConstList_0@));
                    assert(decreases_to!(items@ => items@[i as int]));
                    let copy = items[i].clone();
                    copies.push(copy);
                }
                proof {
                    lemma_node_views(items@);
                    lemma_node_views(copies@);
                    assert(node_views(copies@) =~= node_views(items@));
                }
                Node::ConstList(copies)
            },
            Node::Call(call) => Node::Call(call.clone()),
            Node::Raw(expression) => Node::Raw(expression.clone()),
            Node::Unary(op, a) => Node::Unary(*op, Box::new((&**a).clone())),
            Node::Binary(op, a, b) => Node::Binary(
                *op,
                Box::new((&**a).clone()),
                Box::new((&**b).clone()),
            ),
            Node::Cast(a, kind) => Node::Cast(Box::new((&**a).clone()), *kind),
            Node::Param(id) => Node::Param(*id),
            Node::CollLambda(op, coll, lambda) => Node::CollLambda(
                *op,
                Box::new((&**coll).clone()),
                lambda.clone(),
            ),
            Node::Fold(coll, seed, lambda) => Node::Fold(
                Box::new((&**coll).clone()),
                Box::new((&**seed).clone()),
                lambda.clone(),
            ),
            Node::CollUnary(op, coll) => Node::CollUnary(*op, Box::new((&**coll).clone())),
            Node::CollBinary(op, coll, rhs) => Node::CollBinary(
                *op,
                Box::new((&**coll).clone()),
                Box::new((&**rhs).clone()),
            ),
        }
    }
}

// --- Typed trees ---

/// A [`ProcedureCall`] tagged with the type of value it returns.
///
/// Convert into a plain [`ProcedureCall`] with `.into()` when the type tag is
/// not needed.
#[derive(Debug)]
pub struct Call<T> {
    pub call: ProcedureCall,
    pub marker: PhantomData<T>,
}

impl<T> View for Call<T> {
    type V = ProcedureCallView;

    open spec fn view(&self) -> ProcedureCallView {
        self.call@
    }
}

impl<T> Call<T> {
    pub fn new(call: ProcedureCall) -> (out: Self)
        ensures
            out.call == call,
    {
        Call { call, marker: PhantomData }
    }
}

impl<T> Clone for Call<T> {
    fn clone(&self) -> (out: Self)
        ensures
            out@ == self@,
    {
        Call { call: self.call.clone(), marker: PhantomData }
    }
}

impl<T> From<Call<T>> for ProcedureCall {
    fn from(call: Call<T>) -> (out: ProcedureCall) {
        call.call
    }
}

impl<T> vstd::std_specs::convert::FromSpecImpl<Call<T>> for ProcedureCall {
    open spec fn obeys_from_spec() -> bool {
        true
    }

    open spec fn from_spec(call: Call<T>) -> ProcedureCall {
        call.call
    }
}

/// A typed, locally-built expression tree. See the [module docs](self).
#[derive(Debug)]
pub struct Expr<T> {
    pub node: Node,
    pub marker: PhantomData<T>,
}

impl<T> View for Expr<T> {
    type V = NodeView;

    open spec fn view(&self) -> NodeView {
        self.node@
    }
}

impl<T> Clone for Expr<T> {
    fn clone(&self) -> (out: Self)
        ensures
            out@ == self@,
    {
        Expr { node: self.node.clone(), marker: PhantomData }
    }
}

// --- Leaves ---

impl From<Double> for Expr<Double> {
    fn from(value: Double) -> (out: Self) {
        Expr { node: Node::ConstDouble(value), marker: PhantomData }
    }
}

impl vstd::std_specs::convert::FromSpecImpl<Double> for Expr<Double> {
    open spec fn obeys_from_spec() -> bool {
        true
    }

    open spec fn from_spec(value: Double) -> Self {
        Expr { node: Node::ConstDouble(value), marker: PhantomData }
    }
}

impl From<Float> for Expr<Float> {
    fn from(value: Float) -> (out: Self) {
        Expr { node: Node::ConstFloat(value), marker: PhantomData }
    }
}

impl vstd::std_specs::convert::FromSpecImpl<Float> for Expr<Float> {
    open spec fn obeys_from_spec() -> bool {
        true
    }

    open spec fn from_spec(value: Float) -> Self {
        Expr { node: Node::ConstFloat(value), marker: PhantomData }
    }
}

impl From<i32> for Expr<i32> {
    fn from(value: i32) -> (out: Self) {
        Expr { node: Node::ConstInt(value), marker: PhantomData }
    }
}

impl vstd::std_specs::convert::FromSpecImpl<i32> for Expr<i32> {
    open spec fn obeys_from_spec() -> bool {
        true
    }

    open spec fn from_spec(value: i32) -> Self {
        Expr { node: Node::ConstInt(value), marker: PhantomData }
    }
}

impl From<bool> for Expr<bool> {
    fn from(value: bool) -> (out: Self) {
        Expr { node: Node::ConstBool(value), marker: PhantomData }
    }
}

impl vstd::std_specs::convert::FromSpecImpl<bool> for Expr<bool> {
    open spec fn obeys_from_spec() -> bool {
        true
    }

    open spec fn from_spec(value: bool) -> Self {
        Expr { node: Node::ConstBool(value), marker: PhantomData }
    }
}

impl From<String> for Expr<String> {
    fn from(value: String) -> (out: Self) {
        Expr { node: Node::ConstString(value), marker: PhantomData }
    }
}

impl vstd::std_specs::convert::FromSpecImpl<String> for Expr<String> {
    open spec fn obeys_from_spec() -> bool {
        true
    }

    open spec fn from_spec(value: String) -> Self {
        Expr { node: Node::ConstString(value), marker: PhantomData }
    }
}

impl From<&str> for Expr<String> {
    fn from(value: &str) -> (out: Self)
        ensures
            out@ == NodeView::ConstString(value@),
    {
        Expr { node: Node::ConstString(value.to_string()), marker: PhantomData }
    }
}

impl vstd::std_specs::convert::FromSpecImpl<&str> for Expr<String> {
    /// What the tree holds is said of its value.
    open spec fn obeys_from_spec() -> bool {
        false
    }

    open spec fn from_spec(value: &str) -> Self {
        arbitrary()
    }
}

impl<T> From<Call<T>> for Expr<T> {
    fn from(call: Call<T>) -> (out: Self) {
        Expr { node: Node::Call(call.call), marker: PhantomData }
    }
}

impl<T> vstd::std_specs::convert::FromSpecImpl<Call<T>> for Expr<T> {
    open spec fn obeys_from_spec() -> bool {
        true
    }

    open spec fn from_spec(call: Call<T>) -> Self {
        Expr { node: Node::Call(call.call), marker: PhantomData }
    }
}

/// What can stand as an operand of type `T`: a tree, or a leaf that becomes
/// one.
pub trait IntoExpr<T>: Sized {
    /// The tree of the operand.
    spec fn as_node(self) -> NodeView;

    fn into_expr(self) -> (out: Expr<T>)
        ensures
            out@ == self.as_node(),
    ;
}

impl<T> IntoExpr<T> for Expr<T> {
    open spec fn as_node(self) -> NodeView {
        self@
    }

    fn into_expr(self) -> (out: Expr<T>) {
        self
    }
}

impl<T> IntoExpr<T> for Call<T> {
    open spec fn as_node(self) -> NodeView {
        NodeView::Call(self@)
    }

    fn into_expr(self) -> (out: Expr<T>) {
        Expr::from(self)
    }
}

impl IntoExpr<Double> for Double {
    open spec fn as_node(self) -> NodeView {
        NodeView::ConstDouble(self)
    }

    fn into_expr(self) -> (out: Expr<Double>) {
        Expr::from(self)
    }
}

impl IntoExpr<Float> for Float {
    open spec fn as_node(self) -> NodeView {
        NodeView::ConstFloat(self)
    }

    fn into_expr(self) -> (out: Expr<Float>) {
        Expr::from(self)
    }
}

impl IntoExpr<i32> for i32 {
    open spec fn as_node(self) -> NodeView {
        NodeView::ConstInt(self)
    }

    fn into_expr(self) -> (out: Expr<i32>) {
        Expr::from(self)
    }
}

impl IntoExpr<bool> for bool {
    open spec fn as_node(self) -> NodeView {
        NodeView::ConstBool(self)
    }

    fn into_expr(self) -> (out: Expr<bool>) {
        Expr::from(self)
    }
}

impl IntoExpr<String> for String {
    open spec fn as_node(self) -> NodeView {
        NodeView::ConstString(self@)
    }

    fn into_expr(self) -> (out: Expr<String>) {
        Expr::from(self)
    }
}

impl IntoExpr<String> for &str {
    open spec fn as_node(self) -> NodeView {
        NodeView::ConstString(self@)
    }

    fn into_expr(self) -> (out: Expr<String>) {
        Expr::from(self)
    }
}

// --- Combinators ---

/// The tree of a binary operation.
pub open spec fn binary_node(op: BinaryOp, a: NodeView, b: NodeView) -> NodeView {
    NodeView::Binary(op, Box::new(a), Box::new(b))
}

impl<T> Expr<T> {
    pub(crate) fn wrap(node: Node) -> (out: Self)
        ensures
            out@ == node@,
    {
        Expr { node, marker: PhantomData }
    }

    fn binary<U>(self, op: BinaryOp, rhs: Expr<T>) -> (out: Expr<U>)
        ensures
            out@ == binary_node(op, self@, rhs@),
    {
        Expr::wrap(Node::Binary(op, Box::new(self.node), Box::new(rhs.node)))
    }

    /// Embeds an already-built server-side [`Expression`], asserting its
    /// type. The escape hatch for functionality the builder doesn't cover.
    pub fn raw(expression: Expression) -> (out: Self)
        ensures
            out@ == NodeView::Raw(expression@),
    {
        Expr::wrap(Node::Raw(expression))
    }

    /// `self == rhs`
    pub fn eq<R: IntoExpr<T>>(self, rhs: R) -> (out: Expr<bool>)
        ensures
            out@ == binary_node(BinaryOp::Eq, self@, rhs.as_node()),
    {
        self.binary(BinaryOp::Eq, rhs.into_expr())
    }

    /// `self != rhs`
    pub fn ne<R: IntoExpr<T>>(self, rhs: R) -> (out: Expr<bool>)
        ensures
            out@ == binary_node(BinaryOp::Ne, self@, rhs.as_node()),
    {
        self.binary(BinaryOp::Ne, rhs.into_expr())
    }

    /// `self > rhs`
    pub fn gt<R: IntoExpr<T>>(self, rhs: R) -> (out: Expr<bool>)
        ensures
            out@ == binary_node(BinaryOp::Gt, self@, rhs.as_node()),
    {
        self.binary(BinaryOp::Gt, rhs.into_expr())
    }

    /// `self >= rhs`
    pub fn ge<R: IntoExpr<T>>(self, rhs: R) -> (out: Expr<bool>)
        ensures
            out@ == binary_node(BinaryOp::Ge, self@, rhs.as_node()),
    {
        self.binary(BinaryOp::Ge, rhs.into_expr())
    }

    /// `self < rhs`
    pub fn lt<R: IntoExpr<T>>(self, rhs: R) -> (out: Expr<bool>)
        ensures
            out@ == binary_node(BinaryOp::Lt, self@, rhs.as_node()),
    {
        self.binary(BinaryOp::Lt, rhs.into_expr())
    }

    /// `self <= rhs`
    pub fn le<R: IntoExpr<T>>(self, rhs: R) -> (out: Expr<bool>)
        ensures
            out@ == binary_node(BinaryOp::Le, self@, rhs.as_node()),
    {
        self.binary(BinaryOp::Le, rhs.into_expr())
    }

    /// Converts to another numeric type, via the server's cast machinery.
    pub fn cast<U: CastTarget>(self) -> (out: Expr<U>)
        ensures
            out@ == NodeView::Cast(Box::new(self@), U::kind()),
    {
        proof {
            U::kind_is();
        }
        Expr::wrap(Node::Cast(Box::new(self.node), U::KIND))
    }

    /// Starts to build the tree on the server, one RPC per node.
    ///
    /// Note that the server type-checks lambdas when the finished expression
    /// is *used*, so some invalid expressions build successfully and fail
    /// there.
    pub fn build(self, client: &ClientRef) -> (build: Build)
        ensures
            build@ == (BuildView {
                client: client@,
                program: program_of(self@),
                ids: seq![],
                failure: None,
            }),
    {
        Build::new(client, &self.node)
    }
}

impl<T: Number> Expr<T> {
    /// `self` raised to the power `rhs`.
    pub fn pow<R: IntoExpr<T>>(self, rhs: R) -> (out: Expr<T>)
        ensures
            out@ == binary_node(BinaryOp::Pow, self@, rhs.as_node()),
    {
        self.binary(BinaryOp::Pow, rhs.into_expr())
    }
}

// --- Lambda parameters ---

/// The `n`-th id after `start`.
pub open spec fn nth_id(start: u64, n: nat) -> u64 {
    ((start + n) % 0x1_0000_0000_0000_0000) as u64
}

/// Fresh ids for lambda parameters; uniqueness is all that matters.
///
/// Each supply counts from zero, so the ids of two supplies are not told
/// apart: all ids of one tree have to come from one supply. A program that
/// keeps a single supply gets no id twice.
#[derive(Debug)]
pub struct ParamIds {
    next: u64,
}

/// The id of one lambda parameter, good for one lambda.
#[derive(Debug)]
pub struct ParamId {
    id: u64,
}

impl View for ParamIds {
    type V = u64;

    closed spec fn view(&self) -> u64 {
        self.next
    }
}

impl View for ParamId {
    type V = u64;

    closed spec fn view(&self) -> u64 {
        self.id
    }
}

impl ParamIds {
    /// A supply that no id was taken from.
    pub fn new() -> (out: Self)
        ensures
            out@ == 0,
    {
        ParamIds { next: 0 }
    }

    /// The next id. After the largest comes zero again.
    pub fn next_param_id(&mut self) -> (out: ParamId)
        ensures
            out@ == old(self)@,
            final(self)@ == nth_id(old(self)@, 1),
    {
        let id = self.next;
        self.next = id.wrapping_add(1);
        ParamId { id }
    }
}

/// No two ids that one supply gives are the same, as long as it does not come
/// round.
pub proof fn param_ids_differ(start: u64, a: nat, b: nat)
    requires
        a < b < a + 0x1_0000_0000_0000_0000,
    ensures
        nth_id(start, a) != nth_id(start, b),
        nth_id(nth_id(start, a), 1) == nth_id(start, a + 1),
{
    let m = 0x1_0000_0000_0000_0000int;
    let x = start + a;
    let y = start + b;
    if x % m == y % m {
        vstd::arithmetic::div_mod::lemma_fundamental_div_mod(x, m);
        vstd::arithmetic::div_mod::lemma_fundamental_div_mod(y, m);
        assert(y - x == m * (y / m) - m * (x / m));
        assert(m * (y / m) - m * (x / m) == m * (y / m - x / m)) by (nonlinear_arith);
        let q = y / m - x / m;
        assert(q <= 0 ==> m * q <= 0) by (nonlinear_arith)
            requires
                m > 0,
        ;
        assert(q >= 1 ==> m * q >= m) by (nonlinear_arith)
            requires
                m > 0,
        ;
    }
    vstd::arithmetic::div_mod::lemma_add_mod_noop(x, 1, m);
}

// --- Collections ---

/// Whether a closure can be called on the parameter `id`.
pub open spec fn takes_param<T, U, F: FnOnce(Expr<T>) -> Expr<U>>(f: F, id: u64) -> bool {
    forall|p: Expr<T>| p@ == NodeView::Param(id) ==> #[trigger] call_requires(f, (p,))
}

/// Whether `then` holds of the body that a closure gave for the parameter
/// `id`.
pub open spec fn lambda_gives<T, U, F: FnOnce(Expr<T>) -> Expr<U>>(
    f: F,
    id: u64,
    then: spec_fn(NodeView) -> bool,
) -> bool {
    exists|p: Expr<T>, body: Expr<U>|
        p@ == NodeView::Param(id) && #[trigger] call_ensures(f, (p,), body) && then(body@)
}

/// Whether a closure can be called on the parameters `a` and `b`.
pub open spec fn takes_params<A, B, U, F: FnOnce(Expr<A>, Expr<B>) -> Expr<U>>(
    f: F,
    a: u64,
    b: u64,
) -> bool {
    forall|p: Expr<A>, q: Expr<B>|
        p@ == NodeView::Param(a) && q@ == NodeView::Param(b) ==> #[trigger] call_requires(f, (p, q))
}

/// Whether `then` holds of the body that a closure gave for the parameters
/// `a` and `b`.
pub open spec fn lambda2_gives<A, B, U, F: FnOnce(Expr<A>, Expr<B>) -> Expr<U>>(
    f: F,
    a: u64,
    b: u64,
    then: spec_fn(NodeView) -> bool,
) -> bool {
    exists|p: Expr<A>, q: Expr<B>, body: Expr<U>|
        p@ == NodeView::Param(a) && q@ == NodeView::Param(b) && #[trigger] call_ensures(
            f,
            (p, q),
            body,
        ) && then(body@)
}

/// The lambda of one parameter.
pub open spec fn lambda1_view(id: u64, kind: TypeKind, body: NodeView) -> LambdaView {
    LambdaView { params: seq![(id, kind)], body: Box::new(body) }
}

/// The lambda of two parameters.
pub open spec fn lambda2_view(
    a: u64,
    a_kind: TypeKind,
    b: u64,
    b_kind: TypeKind,
    body: NodeView,
) -> LambdaView {
    LambdaView { params: seq![(a, a_kind), (b, b_kind)], body: Box::new(body) }
}

fn lambda1<P: ParamType, R, F: FnOnce(Expr<P>) -> Expr<R>>(id: ParamId, f: F) -> (out: Lambda)
    requires
        takes_param(f, id@),
    ensures
        lambda_gives(f, id@, |body: NodeView| out@ == lambda1_view(id@, P::kind(), body)),
{
    proof {
        P::kind_is();
    }
    let body = f(Expr::wrap(Node::Param(id.id)));
    let out = Lambda { params: vec![(id.id, P::KIND)], body: Box::new(body.node) };
    assert(out@.params =~= seq![(id@, P::kind())]);
    out
}

fn lambda2<A: ParamType, B: ParamType, R, F: FnOnce(Expr<A>, Expr<B>) -> Expr<R>>(
    a: ParamId,
    b: ParamId,
    f: F,
) -> (out: Lambda)
    requires
        a@ != b@,
        takes_params(f, a@, b@),
    ensures
        lambda2_gives(
            f,
            a@,
            b@,
            |body: NodeView| out@ == lambda2_view(a@, A::kind(), b@, B::kind(), body),
        ),
{
    proof {
        A::kind_is();
        B::kind_is();
    }
    let body = f(Expr::wrap(Node::Param(a.id)), Expr::wrap(Node::Param(b.id)));
    let out = Lambda {
        params: vec![(a.id, A::KIND), (b.id, B::KIND)],
        body: Box::new(body.node),
    };
    assert(out@.params =~= seq![(a@, A::kind()), (b@, B::kind())]);
    out
}

impl<T> Expr<Vec<T>> {
    fn coll_lambda<U>(self, op: CollLambdaOp, lambda: Lambda) -> (out: Expr<U>)
        ensures
            out@ == NodeView::CollLambda(op, Box::new(self@), lambda@),
    {
        Expr::wrap(Node::CollLambda(op, Box::new(self.node), lambda))
    }

    fn coll_unary<U>(self, op: CollUnaryOp) -> (out: Expr<U>)
        ensures
            out@ == NodeView::CollUnary(op, Box::new(self@)),
    {
        Expr::wrap(Node::CollUnary(op, Box::new(self.node)))
    }

    fn coll_binary<U>(self, op: CollBinaryOp, rhs: Node) -> (out: Expr<U>)
        ensures
            out@ == NodeView::CollBinary(op, Box::new(self@), Box::new(rhs@)),
    {
        Expr::wrap(Node::CollBinary(op, Box::new(self.node), Box::new(rhs)))
    }

    /// A literal list of constants.
    pub fn list<R: IntoExpr<T>>(items: Vec<R>) -> (out: Self)
        ensures
            out@ == NodeView::ConstList(
                Seq::new(items@.len(), |i: int| items@[i].as_node()),
            ),
    {
        let ghost all = items@;
        let mut nodes: Vec<Node> = Vec::new();
        for item in it: items
            invariant
                it.seq() == all,
                nodes@.len() == it.index(),
                forall|j: int|
                    0 <= j < it.index() ==> (#[trigger] nodes@[j])@ == all[j].as_node(),
        {
            let expr: Expr<T> = item.into_expr();
            nodes.push(expr.node);
        }
        proof {
            lemma_node_views(nodes@);
            assert(node_views(nodes@) =~= Seq::new(all.len(), |i: int| all[i].as_node()));
        }
        Expr::wrap(Node::ConstList(nodes))
    }

    /// Transforms each element (kRPC `Select`).
    pub fn map<U, F: FnOnce(Expr<T>) -> Expr<U>>(
        self,
        id: ParamId,
        f: F,
    ) -> (out: Expr<Vec<U>>) where T: ParamType
        requires
            takes_param(f, id@),
        ensures
            lambda_gives(
                f,
                id@,
                |body: NodeView|
                    out@ == NodeView::CollLambda(
                        CollLambdaOp::MapEach,
                        Box::new(self@),
                        lambda1_view(id@, T::kind(), body),
                    ),
            ),
    {
        let lambda = lambda1(id, f);
        self.coll_lambda(CollLambdaOp::MapEach, lambda)
    }

    /// Keeps the elements the predicate holds for (kRPC `Where`).
    pub fn filter<F: FnOnce(Expr<T>) -> Expr<bool>>(
        self,
        id: ParamId,
        f: F,
    ) -> (out: Expr<Vec<T>>) where T: ParamType
        requires
            takes_param(f, id@),
        ensures
            lambda_gives(
                f,
                id@,
                |body: NodeView|
                    out@ == NodeView::CollLambda(
                        CollLambdaOp::Filter,
                        Box::new(self@),
                        lambda1_view(id@, T::kind(), body),
                    ),
            ),
    {
        let lambda = lambda1(id, f);
        self.coll_lambda(CollLambdaOp::Filter, lambda)
    }

    /// True if the predicate holds for any element (kRPC `Any`).
    pub fn any<F: FnOnce(Expr<T>) -> Expr<bool>>(
        self,
        id: ParamId,
        f: F,
    ) -> (out: Expr<bool>) where T: ParamType
        requires
            takes_param(f, id@),
        ensures
            lambda_gives(
                f,
                id@,
                |body: NodeView|
                    out@ == NodeView::CollLambda(
                        CollLambdaOp::Any,
                        Box::new(self@),
                        lambda1_view(id@, T::kind(), body),
                    ),
            ),
    {
        let lambda = lambda1(id, f);
        self.coll_lambda(CollLambdaOp::Any, lambda)
    }

    /// True if the predicate holds for every element (kRPC `All`).
    pub fn all<F: FnOnce(Expr<T>) -> Expr<bool>>(
        self,
        id: ParamId,
        f: F,
    ) -> (out: Expr<bool>) where T: ParamType
        requires
            takes_param(f, id@),
        ensures
            lambda_gives(
                f,
                id@,
                |body: NodeView|
                    out@ == NodeView::CollLambda(
                        CollLambdaOp::All,
                        Box::new(self@),
                        lambda1_view(id@, T::kind(), body),
                    ),
            ),
    {
        let lambda = lambda1(id, f);
        self.coll_lambda(CollLambdaOp::All, lambda)
    }

    /// Sorts ascending by the computed key (kRPC `OrderBy`).
    pub fn sorted_by<K, F: FnOnce(Expr<T>) -> Expr<K>>(
        self,
        id: ParamId,
        f: F,
    ) -> (out: Expr<Vec<T>>) where T: ParamType
        requires
            takes_param(f, id@),
        ensures
            lambda_gives(
                f,
                id@,
                |body: NodeView|
                    out@ == NodeView::CollLambda(
                        CollLambdaOp::SortedBy,
                        Box::new(self@),
                        lambda1_view(id@, T::kind(), body),
                    ),
            ),
    {
        let lambda = lambda1(id, f);
        self.coll_lambda(CollLambdaOp::SortedBy, lambda)
    }

    /// Folds the elements pairwise, without a seed (kRPC `Aggregate`).
    pub fn reduce<F: FnOnce(Expr<T>, Expr<T>) -> Expr<T>>(
        self,
        acc: ParamId,
        item: ParamId,
        f: F,
    ) -> (out: Expr<T>) where T: ParamType
        requires
            acc@ != item@,
            takes_params(f, acc@, item@),
        ensures
            lambda2_gives(
                f,
                acc@,
                item@,
                |body: NodeView|
                    out@ == NodeView::CollLambda(
                        CollLambdaOp::Reduce,
                        Box::new(self@),
                        lambda2_view(acc@, T::kind(), item@, T::kind(), body),
                    ),
            ),
    {
        let lambda = lambda2(acc, item, f);
        self.coll_lambda(CollLambdaOp::Reduce, lambda)
    }

    /// Folds the elements onto a seed (kRPC `AggregateWithSeed`).
    pub fn fold<A: ParamType, R: IntoExpr<A>, F: FnOnce(Expr<A>, Expr<T>) -> Expr<A>>(
        self,
        seed: R,
        acc: ParamId,
        item: ParamId,
        f: F,
    ) -> (out: Expr<A>) where T: ParamType
        requires
            acc@ != item@,
            takes_params(f, acc@, item@),
        ensures
            lambda2_gives(
                f,
                acc@,
                item@,
                |body: NodeView|
                    out@ == NodeView::Fold(
                        Box::new(self@),
                        Box::new(seed.as_node()),
                        lambda2_view(acc@, A::kind(), item@, T::kind(), body),
                    ),
            ),
    {
        let lambda = lambda2(acc, item, f);
        let seed: Expr<A> = seed.into_expr();
        Expr::wrap(Node::Fold(Box::new(self.node), Box::new(seed.node), lambda))
    }

    /// The number of elements (kRPC `Count`).
    pub fn count(self) -> (out: Expr<i32>)
        ensures
            out@ == NodeView::CollUnary(CollUnaryOp::Count, Box::new(self@)),
    {
        self.coll_unary(CollUnaryOp::Count)
    }

    /// True if the collection contains `value` (kRPC `Contains`).
    pub fn contains<R: IntoExpr<T>>(self, value: R) -> (out: Expr<bool>)
        ensures
            out@ == NodeView::CollBinary(
                CollBinaryOp::Contains,
                Box::new(self@),
                Box::new(value.as_node()),
            ),
    {
        let value: Expr<T> = value.into_expr();
        self.coll_binary(CollBinaryOp::Contains, value.node)
    }

    /// The element at `index` (kRPC `Get`).
    pub fn get<R: IntoExpr<i32>>(self, index: R) -> (out: Expr<T>)
        ensures
            out@ == NodeView::CollBinary(
                CollBinaryOp::Get,
                Box::new(self@),
                Box::new(index.as_node()),
            ),
    {
        let index: Expr<i32> = index.into_expr();
        self.coll_binary(CollBinaryOp::Get, index.node)
    }

    /// Both collections, concatenated (kRPC `Concat`).
    pub fn concat<R: IntoExpr<Vec<T>>>(self, other: R) -> (out: Expr<Vec<T>>)
        ensures
            out@ == NodeView::CollBinary(
                CollBinaryOp::Concat,
                Box::new(self@),
                Box::new(other.as_node()),
            ),
    {
        let other: Expr<Vec<T>> = other.into_expr();
        self.coll_binary(CollBinaryOp::Concat, other.node)
    }
}

impl<T: Number> Expr<Vec<T>> {
    /// The sum of the elements (kRPC `Sum`).
    pub fn sum(self) -> (out: Expr<T>)
        ensures
            out@ == NodeView::CollUnary(CollUnaryOp::Sum, Box::new(self@)),
    {
        self.coll_unary(CollUnaryOp::Sum)
    }

    /// The smallest element (kRPC `Min`).
    pub fn min(self) -> (out: Expr<T>)
        ensures
            out@ == NodeView::CollUnary(CollUnaryOp::Min, Box::new(self@)),
    {
        self.coll_unary(CollUnaryOp::Min)
    }

    /// The largest element (kRPC `Max`).
    pub fn max(self) -> (out: Expr<T>)
        ensures
            out@ == NodeView::CollUnary(CollUnaryOp::Max, Box::new(self@)),
    {
        self.coll_unary(CollUnaryOp::Max)
    }

    /// The mean of the elements (kRPC `Average`). Averaging integers
    /// produces a double, mirroring the server's LINQ semantics.
    pub fn avg(self) -> (out: Expr<T::Avg>)
        ensures
            out@ == NodeView::CollUnary(CollUnaryOp::Avg, Box::new(self@)),
    {
        self.coll_unary(CollUnaryOp::Avg)
    }
}

// --- Operators ---

impl<T: Number, R: IntoExpr<T>> core::ops::Add<R> for Expr<T> {
    type Output = Expr<T>;

    fn add(self, rhs: R) -> (out: Expr<T>)
        ensures
            out@ == binary_node(BinaryOp::Add, self@, rhs.as_node()),
    {
        self.binary(BinaryOp::Add, rhs.into_expr())
    }
}

impl<T: Number, R: IntoExpr<T>> vstd::std_specs::ops::AddSpecImpl<R> for Expr<T> {
    open spec fn obeys_add_spec() -> bool {
        false
    }

    open spec fn add_req(self, rhs: R) -> bool {
        true
    }

    open spec fn add_spec(self, rhs: R) -> Expr<T> {
        arbitrary()
    }
}

impl<T: Number, R: IntoExpr<T>> core::ops::Sub<R> for Expr<T> {
    type Output = Expr<T>;

    fn sub(self, rhs: R) -> (out: Expr<T>)
        ensures
            out@ == binary_node(BinaryOp::Sub, self@, rhs.as_node()),
    {
        self.binary(BinaryOp::Sub, rhs.into_expr())
    }
}

impl<T: Number, R: IntoExpr<T>> vstd::std_specs::ops::SubSpecImpl<R> for Expr<T> {
    open spec fn obeys_sub_spec() -> bool {
        false
    }

    open spec fn sub_req(self, rhs: R) -> bool {
        true
    }

    open spec fn sub_spec(self, rhs: R) -> Expr<T> {
        arbitrary()
    }
}

impl<T: Number, R: IntoExpr<T>> core::ops::Mul<R> for Expr<T> {
    type Output = Expr<T>;

    fn mul(self, rhs: R) -> (out: Expr<T>)
        ensures
            out@ == binary_node(BinaryOp::Mul, self@, rhs.as_node()),
    {
        self.binary(BinaryOp::Mul, rhs.into_expr())
    }
}

impl<T: Number, R: IntoExpr<T>> vstd::std_specs::ops::MulSpecImpl<R> for Expr<T> {
    open spec fn obeys_mul_spec() -> bool {
        false
    }

    open spec fn mul_req(self, rhs: R) -> bool {
        true
    }

    open spec fn mul_spec(self, rhs: R) -> Expr<T> {
        arbitrary()
    }
}

impl<T: Number, R: IntoExpr<T>> core::ops::Div<R> for Expr<T> {
    type Output = Expr<T>;

    fn div(self, rhs: R) -> (out: Expr<T>)
        ensures
            out@ == binary_node(BinaryOp::Div, self@, rhs.as_node()),
    {
        self.binary(BinaryOp::Div, rhs.into_expr())
    }
}

impl<T: Number, R: IntoExpr<T>> vstd::std_specs::ops::DivSpecImpl<R> for Expr<T> {
    open spec fn obeys_div_spec() -> bool {
        false
    }

    open spec fn div_req(self, rhs: R) -> bool {
        true
    }

    open spec fn div_spec(self, rhs: R) -> Expr<T> {
        arbitrary()
    }
}

impl<T: Number, R: IntoExpr<T>> core::ops::Rem<R> for Expr<T> {
    type Output = Expr<T>;

    fn rem(self, rhs: R) -> (out: Expr<T>)
        ensures
            out@ == binary_node(BinaryOp::Rem, self@, rhs.as_node()),
    {
        self.binary(BinaryOp::Rem, rhs.into_expr())
    }
}

impl<T: Number, R: IntoExpr<T>> vstd::std_specs::ops::RemSpecImpl<R> for Expr<T> {
    open spec fn obeys_rem_spec() -> bool {
        false
    }

    open spec fn rem_req(self, rhs: R) -> bool {
        true
    }

    open spec fn rem_spec(self, rhs: R) -> Expr<T> {
        arbitrary()
    }
}

impl<T: Integer, R: IntoExpr<T>> core::ops::Shl<R> for Expr<T> {
    type Output = Expr<T>;

    fn shl(self, rhs: R) -> (out: Expr<T>)
        ensures
            out@ == binary_node(BinaryOp::Shl, self@, rhs.as_node()),
    {
        self.binary(BinaryOp::Shl, rhs.into_expr())
    }
}

impl<T: Integer, R: IntoExpr<T>> vstd::std_specs::ops::ShlSpecImpl<R> for Expr<T> {
    open spec fn obeys_shl_spec() -> bool {
        false
    }

    open spec fn shl_req(self, rhs: R) -> bool {
        true
    }

    open spec fn shl_spec(self, rhs: R) -> Expr<T> {
        arbitrary()
    }
}

impl<T: Integer, R: IntoExpr<T>> core::ops::Shr<R> for Expr<T> {
    type Output = Expr<T>;

    fn shr(self, rhs: R) -> (out: Expr<T>)
        ensures
            out@ == binary_node(BinaryOp::Shr, self@, rhs.as_node()),
    {
        self.binary(BinaryOp::Shr, rhs.into_expr())
    }
}

impl<T: Integer, R: IntoExpr<T>> vstd::std_specs::ops::ShrSpecImpl<R> for Expr<T> {
    open spec fn obeys_shr_spec() -> bool {
        false
    }

    open spec fn shr_req(self, rhs: R) -> bool {
        true
    }

    open spec fn shr_spec(self, rhs: R) -> Expr<T> {
        arbitrary()
    }
}

impl<R: IntoExpr<bool>> core::ops::BitAnd<R> for Expr<bool> {
    type Output = Expr<bool>;

    fn bitand(self, rhs: R) -> (out: Expr<bool>)
        ensures
            out@ == binary_node(BinaryOp::And, self@, rhs.as_node()),
    {
        self.binary(BinaryOp::And, rhs.into_expr())
    }
}

impl<R: IntoExpr<bool>> vstd::std_specs::ops::BitAndSpecImpl<R> for Expr<bool> {
    open spec fn obeys_bitand_spec() -> bool {
        false
    }

    open spec fn bitand_req(self, rhs: R) -> bool {
        true
    }

    open spec fn bitand_spec(self, rhs: R) -> Expr<bool> {
        arbitrary()
    }
}

impl<R: IntoExpr<bool>> core::ops::BitOr<R> for Expr<bool> {
    type Output = Expr<bool>;

    fn bitor(self, rhs: R) -> (out: Expr<bool>)
        ensures
            out@ == binary_node(BinaryOp::Or, self@, rhs.as_node()),
    {
        self.binary(BinaryOp::Or, rhs.into_expr())
    }
}

impl<R: IntoExpr<bool>> vstd::std_specs::ops::BitOrSpecImpl<R> for Expr<bool> {
    open spec fn obeys_bitor_spec() -> bool {
        false
    }

    open spec fn bitor_req(self, rhs: R) -> bool {
        true
    }

    open spec fn bitor_spec(self, rhs: R) -> Expr<bool> {
        arbitrary()
    }
}

impl<R: IntoExpr<bool>> core::ops::BitXor<R> for Expr<bool> {
    type Output = Expr<bool>;

    fn bitxor(self, rhs: R) -> (out: Expr<bool>)
        ensures
            out@ == binary_node(BinaryOp::Xor, self@, rhs.as_node()),
    {
        self.binary(BinaryOp::Xor, rhs.into_expr())
    }
}

impl<R: IntoExpr<bool>> vstd::std_specs::ops::BitXorSpecImpl<R> for Expr<bool> {
    open spec fn obeys_bitxor_spec() -> bool {
        false
    }

    open spec fn bitxor_req(self, rhs: R) -> bool {
        true
    }

    open spec fn bitxor_spec(self, rhs: R) -> Expr<bool> {
        arbitrary()
    }
}

impl core::ops::Not for Expr<bool> {
    type Output = Expr<bool>;

    fn not(self) -> (out: Expr<bool>)
        ensures
            out@ == NodeView::Unary(UnaryOp::Not, Box::new(self@)),
    {
        Expr::wrap(Node::Unary(UnaryOp::Not, Box::new(self.node)))
    }
}

impl vstd::std_specs::ops::NotSpecImpl for Expr<bool> {
    open spec fn obeys_not_spec() -> bool {
        false
    }

    open spec fn not_req(self) -> bool {
        true
    }

    open spec fn not_spec(self) -> Expr<bool> {
        arbitrary()
    }
}

}
