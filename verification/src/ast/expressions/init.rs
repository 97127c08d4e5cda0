use vstd::prelude::*;
use crate::ast::expressions::Expression;
use crate::general::path::QualifiedName;

verus! {

/// `Name { field: value, ... }`
#[derive(Debug, PartialEq)]
pub struct StructInit {
    pub ident: QualifiedName,
    pub params: Vec<(String, Expression)>,
}

} // verus!
