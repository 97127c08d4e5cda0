use vstd::prelude::*;
use crate::ast::expressions::Expression;
use crate::general::path::QualifiedNameSegment;

verus! {

/// `object.member`
#[derive(Debug, PartialEq)]
pub struct MemberAccess {
    pub object: Expression,
    pub member: QualifiedNameSegment,
}

/// `object.method(params...)`
#[derive(Debug, PartialEq)]
pub struct MethodCall {
    pub object: Expression,
    pub method: QualifiedNameSegment,
    pub params: Vec<Expression>,
}

} // verus!
