use vstd::prelude::*;
use crate::ast::expressions::Expression;

verus! {

/// `loop label { body }`
#[derive(Debug, PartialEq)]
pub struct LoopExpression {
    pub label: Option<String>,
    pub body: Expression,
}

/// `while condition { then_ }`
#[derive(Debug, PartialEq)]
pub struct WhileLoop {
    pub label: Option<String>,
    pub condition: Expression,
    pub then_: Expression,
}

impl LoopExpression {
    /// An unlabelled loop.
    pub fn new(body: Expression) -> (r: Self)
        ensures
            r.body == body,
            r.label.is_none(),
    {
        LoopExpression { body, label: None }
    }

    /// The loop as an expression.
    pub fn into_expression(self) -> (r: Expression)
        ensures
            *r.kind == crate::ast::expressions::ExpressionKind::Loop(self),
            r.ret_ty.is_none(),
            !r.constant,
    {
        Expression::new(crate::ast::expressions::ExpressionKind::Loop(self))
    }
}

impl WhileLoop {
    /// An unlabelled while loop.
    pub fn new(condition: Expression, then_: Expression) -> (r: Self)
        ensures
            r.condition == condition,
            r.then_ == then_,
            r.label.is_none(),
    {
        WhileLoop { condition, then_, label: None }
    }
}

} // verus!
