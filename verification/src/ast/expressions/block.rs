use vstd::prelude::*;
use crate::ast::expressions::{Expression, ExpressionKind, Statement};

verus! {

/// A `{ ... }` block: a list of statements.
#[derive(Debug, PartialEq)]
pub struct Block {
    pub statements: Vec<Statement>,
}

/// Why a block cannot be used as an expression.
#[derive(Debug, Clone, Copy, PartialEq, Eq, Structural)]
pub enum BlockError {
    /// the block does not end with an expression statement
    NoFinalExpression,
}

impl Block {
    /// Appends a statement at the end of the block.
    pub fn add_statement(&mut self, stmt: Statement)
        ensures
            final(self).statements@ == old(self).statements@.push(stmt),
    {
        self.statements.push(stmt);
    }

    /// The empty block.
    pub fn new() -> (r: Self)
        ensures
            r.statements@.len() == 0,
    {
        Block { statements: Vec::new() }
    }

    /// The block as a block expression, when its last statement is an
    /// expression.
    pub fn into_expression(self) -> (r: Result<Expression, BlockError>)
        ensures
            self.statements@.len() > 0 && self.statements@.last() is Expression ==> (r matches Ok(e) && *e.kind
                == ExpressionKind::Block(self) && e.ret_ty.is_none() && !e.constant),
            !(self.statements@.len() > 0 && self.statements@.last() is Expression) ==> r == Err::<Expression, BlockError>(
                BlockError::NoFinalExpression,
            ),
    {
        let n = self.statements.len();
        if n > 0 {
            if let Statement::Expression(_) = &self.statements[n - 1] {
                return Ok(Expression::block(self));
            }
        }
        Err(BlockError::NoFinalExpression)
    }
}

} // verus!
