use vstd::prelude::*;

verus! {

/// What a literal denotes; widths and signedness when written.
#[derive(Debug, Clone, Copy, PartialEq, Eq, Structural)]
pub enum LiteralInfo {
    Integer { signed: Option<bool>, precision: Option<u64> },
    String,
    Float { precision: Option<u64> },
}

/// A literal: its kind and its source text.
#[derive(Debug, PartialEq)]
pub struct Literal {
    pub info: LiteralInfo,
    pub data: String,
}

impl Literal {
    /// A string literal holding `value`.
    pub fn string(value: String) -> (r: Self)
        ensures
            r.info == LiteralInfo::String,
            r.data == value,
    {
        Literal { info: LiteralInfo::String, data: value }
    }

    /// A float literal written as `value`.
    pub fn float(value: String, precision: Option<u64>) -> (r: Self)
        ensures
            r.info == (LiteralInfo::Float { precision }),
            r.data == value,
    {
        Literal { info: LiteralInfo::Float { precision }, data: value }
    }

    /// An integer literal written as `value`.
    pub fn integer(value: String, signed: Option<bool>, precision: Option<u64>) -> (r: Self)
        ensures
            r.info == (LiteralInfo::Integer { signed, precision }),
            r.data == value,
    {
        Literal { info: LiteralInfo::Integer { signed, precision }, data: value }
    }
}

} // verus!
