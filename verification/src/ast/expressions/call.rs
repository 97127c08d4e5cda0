use vstd::prelude::*;
use crate::ast::expressions::Expression;

verus! {

/// `called(parameters...)`
#[derive(Debug, PartialEq)]
pub struct Call {
    pub called: Expression,
    pub parameters: Vec<Expression>,
}

impl Call {
    pub fn new(called: Expression, parameters: Vec<Expression>) -> (r: Self)
        ensures
            r == (Call { called, parameters }),
    {
        Call { called, parameters }
    }

    /// Appends an argument.
    pub fn add_parameter(&mut self, parameter: Expression)
        ensures
            final(self).called == old(self).called,
            final(self).parameters@ == old(self).parameters@.push(parameter),
    {
        self.parameters.push(parameter);
    }
}

} // verus!
