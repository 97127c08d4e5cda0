pub mod block;
pub mod call;
pub mod conditional;
pub mod init;
pub mod intrinsic;
pub mod literal;
pub mod loops;
pub mod member_access;
pub mod operations;

use vstd::prelude::*;
use crate::ast::{Definition, Import};
use crate::ast::expressions::block::Block;
use crate::ast::expressions::call::Call;
use crate::ast::expressions::conditional::Conditional;
use crate::ast::expressions::init::StructInit;
use crate::ast::expressions::intrinsic::{Intrinsic, IntrinsicKind};
use crate::ast::expressions::literal::Literal;
use crate::ast::expressions::loops::{LoopExpression, WhileLoop};
use crate::ast::expressions::member_access::{MemberAccess, MethodCall};
use crate::ast::expressions::operations::{BinaryOperation, BinaryOperator, UnaryOperation, UnaryOperator};
use crate::general::path::{QualifiedName, QualifiedNameSegment};
use crate::general::types::Type;

verus! {

#[derive(Debug, PartialEq)]
pub enum Statement {
    Import(Import),
    Definition(Definition),
    Expression(Expression),
    Break(Option<String>),
    Continue,
    Use(QualifiedName),
    Return(Option<Expression>),
    /// the value of a block expression
    Value(Option<Expression>),
}

#[derive(Debug, PartialEq)]
pub enum ExpressionKind {
    MethodCall(MethodCall),
    MemberAccess(MemberAccess),
    Index(Expression, Expression),
    StructInit(StructInit),
    Block(Block),
    If(Conditional),
    Loop(LoopExpression),
    While(WhileLoop),
    Literal(Literal),
    Identifier(QualifiedName),
    Intrinsic(Intrinsic),
    BinaryOperation(BinaryOperation),
    UnaryOperation(UnaryOperation),
    Call(Call),
    Assignment(Expression, Expression),
}

/// An expression, its type once it is known, and whether it is constant.
#[derive(Debug, PartialEq)]
pub struct Expression {
    pub kind: Box<ExpressionKind>,
    pub ret_ty: Option<Type>,
    pub constant: bool,
}

/// The expression of the given kind, its type not yet known.
pub open spec fn spec_expr(kind: ExpressionKind, constant: bool) -> Expression {
    Expression { kind: Box::new(kind), ret_ty: None, constant }
}

impl Expression {
    /// `var = value`
    pub fn assignment(var: Expression, value: Expression) -> (r: Self)
        ensures
            *r.kind == ExpressionKind::Assignment(var, value),
            r.ret_ty.is_none(),
            !r.constant,
    {
        Expression { kind: Box::new(ExpressionKind::Assignment(var, value)), ret_ty: None, constant: false }
    }

    /// `val[index]`
    pub fn index_access(val: Expression, index: Expression) -> (r: Self)
        ensures
            *r.kind == ExpressionKind::Index(val, index),
            r.ret_ty.is_none(),
            !r.constant,
    {
        Expression { kind: Box::new(ExpressionKind::Index(val, index)), ret_ty: None, constant: false }
    }

    /// `object.method(params...)`
    pub fn method_call(object: Expression, method: QualifiedNameSegment, params: Vec<Expression>) -> (r: Self)
        ensures
            *r.kind == ExpressionKind::MethodCall(MethodCall { object, method, params }),
            r.ret_ty.is_none(),
            r.constant,
    {
        Expression {
            kind: Box::new(ExpressionKind::MethodCall(MethodCall { object, method, params })),
            constant: true,
            ret_ty: None,
        }
    }

    /// `object.member`
    pub fn member_access(object: Expression, member: QualifiedNameSegment) -> (r: Self)
        ensures
            *r.kind == ExpressionKind::MemberAccess(MemberAccess { object, member }),
            r.ret_ty.is_none(),
            r.constant,
    {
        Expression {
            kind: Box::new(ExpressionKind::MemberAccess(MemberAccess { object, member })),
            constant: true,
            ret_ty: None,
        }
    }

    /// A constant literal expression.
    pub fn from_literal(l: Literal) -> (r: Self)
        ensures
            *r.kind == ExpressionKind::Literal(l),
            r.ret_ty.is_none(),
            r.constant,
    {
        Expression { kind: Box::new(ExpressionKind::Literal(l)), ret_ty: None, constant: true }
    }

    /// A non-constant expression of the given kind, type not yet known.
    pub fn new(kind: ExpressionKind) -> (r: Self)
        ensures
            *r.kind == kind,
            r.ret_ty.is_none(),
            !r.constant,
    {
        Expression { ret_ty: None, kind: Box::new(kind), constant: false }
    }

    pub fn block(block: Block) -> (r: Self)
        ensures
            *r.kind == ExpressionKind::Block(block),
            r.ret_ty.is_none(),
            !r.constant,
    {
        Self::new(ExpressionKind::Block(block))
    }

    pub fn if_(conditional: Conditional) -> (r: Self)
        ensures
            *r.kind == ExpressionKind::If(conditional),
            r.ret_ty.is_none(),
            !r.constant,
    {
        Self::new(ExpressionKind::If(conditional))
    }

    pub fn loop_(body: Expression, label: Option<String>) -> (r: Self)
        ensures
            *r.kind == ExpressionKind::Loop(LoopExpression { label, body }),
            r.ret_ty.is_none(),
            !r.constant,
    {
        Self::new(ExpressionKind::Loop(LoopExpression { label, body }))
    }

    pub fn while_(while_loop: WhileLoop) -> (r: Self)
        ensures
            *r.kind == ExpressionKind::While(while_loop),
            r.ret_ty.is_none(),
            !r.constant,
    {
        Self::new(ExpressionKind::While(while_loop))
    }

    /// A literal expression (not marked constant).
    pub fn literal(literal: Literal) -> (r: Self)
        ensures
            *r.kind == ExpressionKind::Literal(literal),
            r.ret_ty.is_none(),
            !r.constant,
    {
        Self::new(ExpressionKind::Literal(literal))
    }

    pub fn identifier(path: QualifiedName) -> (r: Self)
        ensures
            *r.kind == ExpressionKind::Identifier(path),
            r.ret_ty.is_none(),
            !r.constant,
    {
        Self::new(ExpressionKind::Identifier(path))
    }

    pub fn intrinsic(kind: IntrinsicKind, parameters: Vec<Expression>) -> (r: Self)
        ensures
            *r.kind == ExpressionKind::Intrinsic(Intrinsic { kind, parameters }),
            r.ret_ty.is_none(),
            !r.constant,
    {
        Self::new(ExpressionKind::Intrinsic(Intrinsic::new(kind, parameters)))
    }

    /// `a <operation> b`
    pub fn binary_operation(operation: BinaryOperator, a: Expression, b: Expression) -> (r: Self)
        ensures
            *r.kind == ExpressionKind::BinaryOperation(BinaryOperation { operator: operation, operands: [a, b] }),
            r.ret_ty.is_none(),
            !r.constant,
    {
        Self::new(ExpressionKind::BinaryOperation(BinaryOperation { operator: operation, operands: [a, b] }))
    }

    pub fn unary_operation(operator: UnaryOperator, operand: Expression) -> (r: Self)
        ensures
            *r.kind == ExpressionKind::UnaryOperation(UnaryOperation { operator, operand }),
            r.ret_ty.is_none(),
            !r.constant,
    {
        Self::new(ExpressionKind::UnaryOperation(UnaryOperation { operator, operand }))
    }

    /// `called(params...)`
    pub fn call(called: Expression, params: Vec<Expression>) -> (r: Self)
        ensures
            *r.kind == ExpressionKind::Call(Call { called, parameters: params }),
            r.ret_ty.is_none(),
            !r.constant,
    {
        Self::new(ExpressionKind::Call(Call::new(called, params)))
    }
}

} // verus!
