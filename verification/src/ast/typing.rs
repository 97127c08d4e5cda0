use vstd::prelude::*;
use crate::general::path::QualifiedName;
use crate::general::types::Type;

verus! {

/// Either a type or a path naming one.
#[derive(Debug, PartialEq)]
pub enum TypeName {
    Type(Type),
    Name(QualifiedName),
}

impl TypeName {
    pub fn from_path(path: QualifiedName) -> (r: Self)
        ensures
            r == TypeName::Name(path),
    {
        TypeName::Name(path)
    }

    pub fn from_type(ty: Type) -> (r: Self)
        ensures
            r == TypeName::Type(ty),
    {
        TypeName::Type(ty)
    }
}

} // verus!
