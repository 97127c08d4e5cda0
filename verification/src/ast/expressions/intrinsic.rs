use vstd::prelude::*;
use crate::ast::expressions::Expression;
use crate::numbers::{decimal_text, spec_parse_usize, parse_usize, usize_to_text, lemma_parse_decimal_text, lemma_decimal_text, is_digit, all_digits};
use crate::text::{chars_of, push_char, push_str, string_of};

verus! {

/// The built-in operations on numbers, written `@name(args)`.
#[derive(Debug, Clone, Copy, PartialEq, Eq, Structural)]
pub enum IntrinsicKind {
    Copy,
    NegI { prec: usize },
    AddI { prec: usize },
    SubI { prec: usize },
    MulI { prec: usize },
    DivI { prec: usize },
    EqI { prec: usize },
    NEqI { prec: usize },
    LEqI { prec: usize },
    GEqI { prec: usize },
    LesI { prec: usize },
    GreI { prec: usize },
    IToU { src_prec: usize, out_prec: usize },
    IToF { src_prec: usize, out_prec: usize },
    NegU { prec: usize },
    AddU { prec: usize },
    SubU { prec: usize },
    MulU { prec: usize },
    DivU { prec: usize },
    EqU { prec: usize },
    NEqU { prec: usize },
    LEqU { prec: usize },
    GEqU { prec: usize },
    LesU { prec: usize },
    GreU { prec: usize },
    UToI { src_prec: usize, out_prec: usize },
    UToF { src_prec: usize, out_prec: usize },
    NegF { prec: usize },
    AddF { prec: usize },
    SubF { prec: usize },
    MulF { prec: usize },
    DivF { prec: usize },
    EqF { prec: usize },
    NEqF { prec: usize },
    LEqF { prec: usize },
    GEqF { prec: usize },
    LesF { prec: usize },
    GreF { prec: usize },
    FToI { src_prec: usize, out_prec: usize },
    FToU { src_prec: usize, out_prec: usize },
}

/// The three numeric families, written `i`, `u` and `f` in names.
#[derive(Debug, Clone, Copy, PartialEq, Eq, Structural)]
pub enum NumericKind {
    Int,
    Uint,
    Float,
}

/// The operation part of an intrinsic name.
#[derive(Debug, Clone, Copy, PartialEq, Eq, Structural)]
pub enum IntrinsicOp {
    Neg,
    Add,
    Sub,
    Mul,
    Div,
    Eq,
    NEq,
    LEq,
    GEq,
    Les,
    Gre,
}

/// Why a name is not the name of an intrinsic.
#[derive(Debug, Clone, Copy, PartialEq, Eq, Structural)]
pub enum IntrinsicError {
    /// `<src>_to_<out>` whose `<src>` is not `i`, `u` or `f` with a width
    InvalidSourceType,
    /// `<src>_to_<out>` whose `<out>` is not `i`, `u` or `f` with a width
    InvalidOutputType,
    /// a conversion between two types of the same family
    UnsupportedConversion,
    /// a name without `_`
    MissingOperandType,
    /// a name with more than one `_`
    InvalidName,
    /// `<op>_<operand>` whose operand is not `i`, `u` or `f` with a width
    InvalidOperandType,
    /// `<op>_<operand>` whose operation is not known
    UnknownIntrinsic,
}

/// An intrinsic call.
#[derive(Debug, PartialEq)]
pub struct Intrinsic {
    pub kind: IntrinsicKind,
    pub parameters: Vec<Expression>,
}

impl Intrinsic {
    pub fn new(kind: IntrinsicKind, parameters: Vec<Expression>) -> (r: Self)
        ensures
            r == (Intrinsic { kind, parameters }),
    {
        Intrinsic { kind, parameters }
    }
}

pub open spec fn kind_letter(k: NumericKind) -> char {
    match k {
        NumericKind::Int => 'i',
        NumericKind::Uint => 'u',
        NumericKind::Float => 'f',
    }
}

pub open spec fn letter_kind(c: char) -> Option<NumericKind> {
    if c == 'i' {
        Some(NumericKind::Int)
    } else if c == 'u' {
        Some(NumericKind::Uint)
    } else if c == 'f' {
        Some(NumericKind::Float)
    } else {
        None
    }
}

pub open spec fn op_name(op: IntrinsicOp) -> Seq<char> {
    match op {
        IntrinsicOp::Neg => seq!['n', 'e', 'g'],
        IntrinsicOp::Add => seq!['a', 'd', 'd'],
        IntrinsicOp::Sub => seq!['s', 'u', 'b'],
        IntrinsicOp::Mul => seq!['m', 'u', 'l'],
        IntrinsicOp::Div => seq!['d', 'i', 'v'],
        IntrinsicOp::Eq => seq!['e', 'q'],
        IntrinsicOp::NEq => seq!['n', 'e', 'q'],
        IntrinsicOp::LEq => seq!['l', 'e', 'q'],
        IntrinsicOp::GEq => seq!['g', 'e', 'q'],
        IntrinsicOp::Les => seq!['l', 'e', 's'],
        IntrinsicOp::Gre => seq!['g', 'r', 'e'],
    }
}

/// The operation a name part stands for, if any.
pub open spec fn name_op(s: Seq<char>) -> Option<IntrinsicOp> {
    if s == op_name(IntrinsicOp::Neg) {
        Some(IntrinsicOp::Neg)
    } else if s == op_name(IntrinsicOp::Add) {
        Some(IntrinsicOp::Add)
    } else if s == op_name(IntrinsicOp::Sub) {
        Some(IntrinsicOp::Sub)
    } else if s == op_name(IntrinsicOp::Mul) {
        Some(IntrinsicOp::Mul)
    } else if s == op_name(IntrinsicOp::Div) {
        Some(IntrinsicOp::Div)
    } else if s == op_name(IntrinsicOp::Eq) {
        Some(IntrinsicOp::Eq)
    } else if s == op_name(IntrinsicOp::NEq) {
        Some(IntrinsicOp::NEq)
    } else if s == op_name(IntrinsicOp::LEq) {
        Some(IntrinsicOp::LEq)
    } else if s == op_name(IntrinsicOp::GEq) {
        Some(IntrinsicOp::GEq)
    } else if s == op_name(IntrinsicOp::Les) {
        Some(IntrinsicOp::Les)
    } else if s == op_name(IntrinsicOp::Gre) {
        Some(IntrinsicOp::Gre)
    } else {
        None
    }
}

/// The operation intrinsic with the given operation, family and width.
pub open spec fn make_op_kind(op: IntrinsicOp, k: NumericKind, p: usize) -> IntrinsicKind {
    match (op, k) {
        (IntrinsicOp::Neg, NumericKind::Int) => IntrinsicKind::NegI { prec: p },
        (IntrinsicOp::Add, NumericKind::Int) => IntrinsicKind::AddI { prec: p },
        (IntrinsicOp::Sub, NumericKind::Int) => IntrinsicKind::SubI { prec: p },
        (IntrinsicOp::Mul, NumericKind::Int) => IntrinsicKind::MulI { prec: p },
        (IntrinsicOp::Div, NumericKind::Int) => IntrinsicKind::DivI { prec: p },
        (IntrinsicOp::Eq, NumericKind::Int) => IntrinsicKind::EqI { prec: p },
        (IntrinsicOp::NEq, NumericKind::Int) => IntrinsicKind::NEqI { prec: p },
        (IntrinsicOp::LEq, NumericKind::Int) => IntrinsicKind::LEqI { prec: p },
        (IntrinsicOp::GEq, NumericKind::Int) => IntrinsicKind::GEqI { prec: p },
        (IntrinsicOp::Les, NumericKind::Int) => IntrinsicKind::LesI { prec: p },
        (IntrinsicOp::Gre, NumericKind::Int) => IntrinsicKind::GreI { prec: p },
        (IntrinsicOp::Neg, NumericKind::Uint) => IntrinsicKind::NegU { prec: p },
        (IntrinsicOp::Add, NumericKind::Uint) => IntrinsicKind::AddU { prec: p },
        (IntrinsicOp::Sub, NumericKind::Uint) => IntrinsicKind::SubU { prec: p },
        (IntrinsicOp::Mul, NumericKind::Uint) => IntrinsicKind::MulU { prec: p },
        (IntrinsicOp::Div, NumericKind::Uint) => IntrinsicKind::DivU { prec: p },
        (IntrinsicOp::Eq, NumericKind::Uint) => IntrinsicKind::EqU { prec: p },
        (IntrinsicOp::NEq, NumericKind::Uint) => IntrinsicKind::NEqU { prec: p },
        (IntrinsicOp::LEq, NumericKind::Uint) => IntrinsicKind::LEqU { prec: p },
        (IntrinsicOp::GEq, NumericKind::Uint) => IntrinsicKind::GEqU { prec: p },
        (IntrinsicOp::Les, NumericKind::Uint) => IntrinsicKind::LesU { prec: p },
        (IntrinsicOp::Gre, NumericKind::Uint) => IntrinsicKind::GreU { prec: p },
        (IntrinsicOp::Neg, NumericKind::Float) => IntrinsicKind::NegF { prec: p },
        (IntrinsicOp::Add, NumericKind::Float) => IntrinsicKind::AddF { prec: p },
        (IntrinsicOp::Sub, NumericKind::Float) => IntrinsicKind::SubF { prec: p },
        (IntrinsicOp::Mul, NumericKind::Float) => IntrinsicKind::MulF { prec: p },
        (IntrinsicOp::Div, NumericKind::Float) => IntrinsicKind::DivF { prec: p },
        (IntrinsicOp::Eq, NumericKind::Float) => IntrinsicKind::EqF { prec: p },
        (IntrinsicOp::NEq, NumericKind::Float) => IntrinsicKind::NEqF { prec: p },
        (IntrinsicOp::LEq, NumericKind::Float) => IntrinsicKind::LEqF { prec: p },
        (IntrinsicOp::GEq, NumericKind::Float) => IntrinsicKind::GEqF { prec: p },
        (IntrinsicOp::Les, NumericKind::Float) => IntrinsicKind::LesF { prec: p },
        (IntrinsicOp::Gre, NumericKind::Float) => IntrinsicKind::GreF { prec: p },
    }
}

/// The conversion intrinsic between two families, if the families differ.
pub open spec fn make_conversion(a: NumericKind, p: usize, b: NumericKind, q: usize) -> Option<IntrinsicKind> {
    match (a, b) {
        (NumericKind::Int, NumericKind::Uint) => Some(IntrinsicKind::IToU { src_prec: p, out_prec: q }),
        (NumericKind::Int, NumericKind::Float) => Some(IntrinsicKind::IToF { src_prec: p, out_prec: q }),
        (NumericKind::Uint, NumericKind::Int) => Some(IntrinsicKind::UToI { src_prec: p, out_prec: q }),
        (NumericKind::Uint, NumericKind::Float) => Some(IntrinsicKind::UToF { src_prec: p, out_prec: q }),
        (NumericKind::Float, NumericKind::Int) => Some(IntrinsicKind::FToI { src_prec: p, out_prec: q }),
        (NumericKind::Float, NumericKind::Uint) => Some(IntrinsicKind::FToU { src_prec: p, out_prec: q }),
        _ => None,
    }
}

/// The operation, family and width of an operation intrinsic.
pub open spec fn op_parts(k: IntrinsicKind) -> Option<(IntrinsicOp, NumericKind, usize)> {
    match k {
        IntrinsicKind::NegI { prec } => Some((IntrinsicOp::Neg, NumericKind::Int, prec)),
        IntrinsicKind::AddI { prec } => Some((IntrinsicOp::Add, NumericKind::Int, prec)),
        IntrinsicKind::SubI { prec } => Some((IntrinsicOp::Sub, NumericKind::Int, prec)),
        IntrinsicKind::MulI { prec } => Some((IntrinsicOp::Mul, NumericKind::Int, prec)),
        IntrinsicKind::DivI { prec } => Some((IntrinsicOp::Div, NumericKind::Int, prec)),
        IntrinsicKind::EqI { prec } => Some((IntrinsicOp::Eq, NumericKind::Int, prec)),
        IntrinsicKind::NEqI { prec } => Some((IntrinsicOp::NEq, NumericKind::Int, prec)),
        IntrinsicKind::LEqI { prec } => Some((IntrinsicOp::LEq, NumericKind::Int, prec)),
        IntrinsicKind::GEqI { prec } => Some((IntrinsicOp::GEq, NumericKind::Int, prec)),
        IntrinsicKind::LesI { prec } => Some((IntrinsicOp::Les, NumericKind::Int, prec)),
        IntrinsicKind::GreI { prec } => Some((IntrinsicOp::Gre, NumericKind::Int, prec)),
        IntrinsicKind::NegU { prec } => Some((IntrinsicOp::Neg, NumericKind::Uint, prec)),
        IntrinsicKind::AddU { prec } => Some((IntrinsicOp::Add, NumericKind::Uint, prec)),
        IntrinsicKind::SubU { prec } => Some((IntrinsicOp::Sub, NumericKind::Uint, prec)),
        IntrinsicKind::MulU { prec } => Some((IntrinsicOp::Mul, NumericKind::Uint, prec)),
        IntrinsicKind::DivU { prec } => Some((IntrinsicOp::Div, NumericKind::Uint, prec)),
        IntrinsicKind::EqU { prec } => Some((IntrinsicOp::Eq, NumericKind::Uint, prec)),
        IntrinsicKind::NEqU { prec } => Some((IntrinsicOp::NEq, NumericKind::Uint, prec)),
        IntrinsicKind::LEqU { prec } => Some((IntrinsicOp::LEq, NumericKind::Uint, prec)),
        IntrinsicKind::GEqU { prec } => Some((IntrinsicOp::GEq, NumericKind::Uint, prec)),
        IntrinsicKind::LesU { prec } => Some((IntrinsicOp::Les, NumericKind::Uint, prec)),
        IntrinsicKind::GreU { prec } => Some((IntrinsicOp::Gre, NumericKind::Uint, prec)),
        IntrinsicKind::NegF { prec } => Some((IntrinsicOp::Neg, NumericKind::Float, prec)),
        IntrinsicKind::AddF { prec } => Some((IntrinsicOp::Add, NumericKind::Float, prec)),
        IntrinsicKind::SubF { prec } => Some((IntrinsicOp::Sub, NumericKind::Float, prec)),
        IntrinsicKind::MulF { prec } => Some((IntrinsicOp::Mul, NumericKind::Float, prec)),
        IntrinsicKind::DivF { prec } => Some((IntrinsicOp::Div, NumericKind::Float, prec)),
        IntrinsicKind::EqF { prec } => Some((IntrinsicOp::Eq, NumericKind::Float, prec)),
        IntrinsicKind::NEqF { prec } => Some((IntrinsicOp::NEq, NumericKind::Float, prec)),
        IntrinsicKind::LEqF { prec } => Some((IntrinsicOp::LEq, NumericKind::Float, prec)),
        IntrinsicKind::GEqF { prec } => Some((IntrinsicOp::GEq, NumericKind::Float, prec)),
        IntrinsicKind::LesF { prec } => Some((IntrinsicOp::Les, NumericKind::Float, prec)),
        IntrinsicKind::GreF { prec } => Some((IntrinsicOp::Gre, NumericKind::Float, prec)),
        _ => None,
    }
}

/// The families and widths of a conversion intrinsic.
pub open spec fn conversion_parts(k: IntrinsicKind) -> Option<(NumericKind, usize, NumericKind, usize)> {
    match k {
        IntrinsicKind::IToU { src_prec, out_prec } => Some((NumericKind::Int, src_prec, NumericKind::Uint, out_prec)),
        IntrinsicKind::IToF { src_prec, out_prec } => Some((NumericKind::Int, src_prec, NumericKind::Float, out_prec)),
        IntrinsicKind::UToI { src_prec, out_prec } => Some((NumericKind::Uint, src_prec, NumericKind::Int, out_prec)),
        IntrinsicKind::UToF { src_prec, out_prec } => Some((NumericKind::Uint, src_prec, NumericKind::Float, out_prec)),
        IntrinsicKind::FToI { src_prec, out_prec } => Some((NumericKind::Float, src_prec, NumericKind::Int, out_prec)),
        IntrinsicKind::FToU { src_prec, out_prec } => Some((NumericKind::Float, src_prec, NumericKind::Uint, out_prec)),
        _ => None,
    }
}

pub open spec fn copy_name() -> Seq<char> {
    seq!['c', 'o', 'p', 'y']
}

pub open spec fn to_separator() -> Seq<char> {
    seq!['_', 't', 'o', '_']
}

/// `<op>_<letter><width>`
pub open spec fn op_text(op: Seq<char>, k: NumericKind, p: usize) -> Seq<char> {
    op + seq!['_', kind_letter(k)] + decimal_text(p as nat)
}

/// The name an intrinsic is written and displayed with: `copy`,
/// `<op>_<letter><width>` or `<letter><width>_to_<letter><width>`.
pub open spec fn kind_name(k: IntrinsicKind) -> Seq<char> {
    if let Some((op, nk, p)) = op_parts(k) {
        op_text(op_name(op), nk, p)
    } else if let Some((a, p, b, q)) = conversion_parts(k) {
        seq![kind_letter(a)] + decimal_text(p as nat) + to_separator() + seq![kind_letter(b)] + decimal_text(q as nat)
    } else {
        copy_name()
    }
}

/// The family and width that `s` (a letter, then a width as
/// `usize::from_str` reads it) stands for.
pub open spec fn spec_numeric(s: Seq<char>) -> Option<(NumericKind, usize)> {
    if s.len() > 0 && letter_kind(s[0]) is Some && spec_parse_usize(s.drop_first()) is Some {
        Some((letter_kind(s[0]).unwrap(), spec_parse_usize(s.drop_first()).unwrap()))
    } else {
        None
    }
}

/// Splitting off the first character of `s` at byte 1 succeeds: `s` is
/// not empty and starts with a one-byte (ASCII) character.
pub open spec fn splits_at_one(s: Seq<char>) -> bool {
    s.len() > 0 && s[0] < '\u{80}'
}

/// The first position at or after `p` where `_to_` occurs in `s`.
pub open spec fn find_to_from(s: Seq<char>, p: int) -> Option<int>
    decreases s.len() - p,
{
    if p < 0 || p + 4 > s.len() {
        None
    } else if s.subrange(p, p + 4) == to_separator() {
        Some(p)
    } else {
        find_to_from(s, p + 1)
    }
}

/// The first position at or after `p` where `c` occurs in `s`.
pub open spec fn find_char_from(s: Seq<char>, c: char, p: int) -> Option<int>
    decreases s.len() - p,
{
    if p < 0 || p >= s.len() {
        None
    } else if s[p] == c {
        Some(p)
    } else {
        find_char_from(s, c, p + 1)
    }
}

/// What reading `s` as an intrinsic name gives.
pub open spec fn spec_from_str(s: Seq<char>) -> Result<IntrinsicKind, IntrinsicError> {
    if s == copy_name() {
        Ok(IntrinsicKind::Copy)
    } else if let Some(p) = find_to_from(s, 0) {
        let src = s.subrange(0, p);
        let out = s.subrange(p + 4, s.len() as int);
        match spec_numeric(src) {
            None => Err(IntrinsicError::InvalidSourceType),
            Some((a, sp)) => match spec_numeric(out) {
                None => Err(IntrinsicError::InvalidOutputType),
                Some((b, op)) => match make_conversion(a, sp, b, op) {
                    Some(k) => Ok(k),
                    None => Err(IntrinsicError::UnsupportedConversion),
                },
            },
        }
    } else {
        match find_char_from(s, '_', 0) {
            None => Err(IntrinsicError::MissingOperandType),
            Some(u) => {
                let op = s.subrange(0, u);
                let rest = s.subrange(u + 1, s.len() as int);
                if find_char_from(rest, '_', 0) is Some {
                    Err(IntrinsicError::InvalidName)
                } else {
                    match spec_numeric(rest) {
                        None => Err(IntrinsicError::InvalidOperandType),
                        Some((k, p)) => match name_op(op) {
                            Some(o) => Ok(make_op_kind(o, k, p)),
                            None => Err(IntrinsicError::UnknownIntrinsic),
                        },
                    }
                }
            },
        }
    }
}

/// Reading `s` as an intrinsic name splits a part that is empty or starts
/// with a multi-byte character at its first byte, which std refuses with a
/// panic.
pub open spec fn from_str_panics(s: Seq<char>) -> bool {
    if s == copy_name() {
        false
    } else if let Some(p) = find_to_from(s, 0) {
        let src = s.subrange(0, p);
        let out = s.subrange(p + 4, s.len() as int);
        if !splits_at_one(src) {
            true
        } else if spec_numeric(src) is None {
            false
        } else {
            !splits_at_one(out)
        }
    } else {
        match find_char_from(s, '_', 0) {
            None => false,
            Some(u) => {
                let rest = s.subrange(u + 1, s.len() as int);
                find_char_from(rest, '_', 0) is None && !splits_at_one(rest)
            },
        }
    }
}

proof fn lemma_no_t_no_to(s: Seq<char>, p: int)
    requires
        0 <= p,
        forall|i: int| p <= i < s.len() ==> s[i] != 't',
    ensures
        find_to_from(s, p) is None,
    decreases s.len() - p,
{
    if p + 4 <= s.len() {
        assert(s.subrange(p, p + 4)[1] == s[p + 1]);
        assert(s.subrange(p, p + 4) != to_separator());
        lemma_no_t_no_to(s, p + 1);
    }
}

proof fn lemma_find_char_at(s: Seq<char>, c: char, p: int, q: int)
    requires
        0 <= p <= q < s.len(),
        s[q] == c,
        forall|i: int| p <= i < q ==> s[i] != c,
    ensures
        find_char_from(s, c, p) == Some(q),
    decreases q - p,
{
    if p < q {
        lemma_find_char_at(s, c, p + 1, q);
    }
}

proof fn lemma_find_char_none(s: Seq<char>, c: char, p: int)
    requires
        0 <= p,
        forall|i: int| p <= i < s.len() ==> s[i] != c,
    ensures
        find_char_from(s, c, p) is None,
    decreases s.len() - p,
{
    if p < s.len() {
        lemma_find_char_none(s, c, p + 1);
    }
}

proof fn lemma_find_to_at(s: Seq<char>, p: int, q: int)
    requires
        0 <= p <= q,
        q + 4 <= s.len(),
        s.subrange(q, q + 4) == to_separator(),
        forall|i: int| p <= i < q ==> s[i] != '_',
    ensures
        find_to_from(s, p) == Some(q),
    decreases q - p,
{
    if p < q {
        assert(s.subrange(p, p + 4)[0] == s[p]);
        assert(s.subrange(p, p + 4) != to_separator());
        lemma_find_to_at(s, p + 1, q);
    }
}

proof fn lemma_digits_not_special(d: Seq<char>)
    requires
        all_digits(d),
    ensures
        forall|i: int| 0 <= i < d.len() ==> d[i] != 't' && d[i] != '_' && d[i] < '\u{80}',
{
    assert forall|i: int| 0 <= i < d.len() implies d[i] != 't' && d[i] != '_' && d[i] < '\u{80}' by {
        assert(is_digit(d[i]));
    }
}

/// The numeric part `<letter><width>` of a name reads back as its family
/// and width.
proof fn lemma_numeric_text(k: NumericKind, p: usize)
    ensures
        spec_numeric(seq![kind_letter(k)] + decimal_text(p as nat)) == Some((k, p)),
{
    let t = seq![kind_letter(k)] + decimal_text(p as nat);
    assert(t.drop_first() =~= decimal_text(p as nat));
    lemma_parse_decimal_text(p);
}

proof fn lemma_name_op(op: IntrinsicOp)
    ensures
        name_op(op_name(op)) == Some(op),
        forall|i: int| 0 <= i < op_name(op).len() ==> op_name(op)[i] != 't' && op_name(op)[i] != '_',
        2 <= op_name(op).len() <= 3,
{
}

proof fn lemma_op_name_roundtrip(op: IntrinsicOp, nk: NumericKind, p: usize)
    ensures
        !from_str_panics(op_text(op_name(op), nk, p)),
        spec_from_str(op_text(op_name(op), nk, p)) == Ok::<IntrinsicKind, IntrinsicError>(make_op_kind(op, nk, p)),
{
    let o = op_name(op);
    lemma_name_op(op);
    let s = op_text(o, nk, p);
    let d = decimal_text(p as nat);
    lemma_decimal_text(p as nat);
    lemma_digits_not_special(d);
    let rest = seq![kind_letter(nk)] + d;
    assert(s =~= o + seq!['_'] + rest);
    assert(s != copy_name()) by {
        assert(s.len() > 4);
    }
    assert forall|i: int| 0 <= i < s.len() implies s[i] != 't' by {
        if i >= o.len() + 2 {
            assert(s[i] == d[i - o.len() - 2]);
        } else if i < o.len() {
            assert(s[i] == o[i]);
        }
    }
    lemma_no_t_no_to(s, 0);
    assert(s[o.len() as int] == '_');
    assert forall|i: int| 0 <= i < o.len() implies s[i] != '_' by {
        assert(s[i] == o[i]);
    }
    lemma_find_char_at(s, '_', 0, o.len() as int);
    assert(s.subrange(0, o.len() as int) =~= o);
    assert(s.subrange(o.len() as int + 1, s.len() as int) =~= rest);
    assert forall|i: int| 0 <= i < rest.len() implies rest[i] != '_' by {
        if i >= 1 {
            assert(rest[i] == d[i - 1]);
        }
    }
    lemma_find_char_none(rest, '_', 0);
    lemma_numeric_text(nk, p);
}

proof fn lemma_conversion_name_roundtrip(a: NumericKind, p: usize, b: NumericKind, q: usize)
    requires
        make_conversion(a, p, b, q) is Some,
    ensures
        !from_str_panics(seq![kind_letter(a)] + decimal_text(p as nat) + to_separator() + seq![kind_letter(b)] + decimal_text(q as nat)),
        spec_from_str(seq![kind_letter(a)] + decimal_text(p as nat) + to_separator() + seq![kind_letter(b)] + decimal_text(q as nat))
            == Ok::<IntrinsicKind, IntrinsicError>(make_conversion(a, p, b, q).unwrap()),
{
    let s = seq![kind_letter(a)] + decimal_text(p as nat) + to_separator() + seq![kind_letter(b)] + decimal_text(q as nat);
    let d1 = decimal_text(p as nat);
    let d2 = decimal_text(q as nat);
    lemma_decimal_text(p as nat);
    lemma_decimal_text(q as nat);
    lemma_digits_not_special(d1);
    lemma_digits_not_special(d2);
    let src = seq![kind_letter(a)] + d1;
    let out = seq![kind_letter(b)] + d2;
    assert(s =~= src + to_separator() + out);
    assert(s != copy_name()) by {
        assert(s.len() >= 7);
    }
    assert(s.subrange(src.len() as int, src.len() as int + 4) =~= to_separator());
    assert forall|i: int| 0 <= i < src.len() implies s[i] != '_' by {
        if i >= 1 {
            assert(s[i] == d1[i - 1]);
        }
    }
    lemma_find_to_at(s, 0, src.len() as int);
    assert(s.subrange(0, src.len() as int) =~= src);
    assert(s.subrange(src.len() as int + 4, s.len() as int) =~= out);
    lemma_numeric_text(a, p);
    lemma_numeric_text(b, q);
}

/// Reading the name of an intrinsic gives back the intrinsic, and reading
/// it never splits a part badly.
pub proof fn lemma_intrinsic_name_roundtrip(k: IntrinsicKind)
    ensures
        !from_str_panics(kind_name(k)),
        spec_from_str(kind_name(k)) == Ok::<IntrinsicKind, IntrinsicError>(k),
{
    if let Some((op, nk, p)) = op_parts(k) {
        lemma_op_name_roundtrip(op, nk, p);
        assert(make_op_kind(op, nk, p) == k);
    } else if let Some((a, p, b, q)) = conversion_parts(k) {
        assert(make_conversion(a, p, b, q) == Some(k));
        lemma_conversion_name_roundtrip(a, p, b, q);
    } else {
        assert(k == IntrinsicKind::Copy);
    }
}

/// Whether `cs[from..to]` holds exactly the characters of `lit`.
pub fn range_is(cs: &Vec<char>, from: usize, to: usize, lit: &str) -> (r: bool)
    requires
        from <= to <= cs@.len(),
    ensures
        r == (cs@.subrange(from as int, to as int) == lit@),
{
    let l = chars_of(lit);
    if to - from != l.len() {
        return false;
    }
    let mut i: usize = 0;
    while i < l.len()
        invariant
            to - from == l@.len(),
            from <= to <= cs@.len(),
            i <= l@.len(),
            l@ == lit@,
            forall|j: int| 0 <= j < i ==> cs@[from + j] == l@[j],
        decreases l@.len() - i,
    {
        if cs[from + i] != l[i] {
            assert(cs@.subrange(from as int, to as int)[i as int] != lit@[i as int]);
            return false;
        }
        i += 1;
    }
    assert(cs@.subrange(from as int, to as int) =~= lit@);
    true
}

/// The first position at or after `p` where `_to_` occurs in `cs`.
fn find_to(cs: &Vec<char>, p: usize) -> (r: Option<usize>)
    requires
        p <= cs@.len(),
    ensures
        match r {
            Some(x) => find_to_from(cs@, p as int) == Some(x as int) && p <= x && x + 4 <= cs@.len(),
            None => find_to_from(cs@, p as int) is None,
        },
    decreases cs@.len() - p,
{
    if cs.len() < 4 || p > cs.len() - 4 {
        return None;
    }
    proof {
        reveal_strlit("_to_");
        assert("_to_"@ =~= to_separator());
    }
    if range_is(cs, p, p + 4, "_to_") {
        Some(p)
    } else {
        find_to(cs, p + 1)
    }
}

/// The first position at or after `p` where `c` occurs in `cs[..to]`.
fn find_char(cs: &Vec<char>, c: char, p: usize, to: usize) -> (r: Option<usize>)
    requires
        p <= to <= cs@.len(),
    ensures
        match r {
            Some(x) => find_char_from(cs@.subrange(0, to as int), c, p as int) == Some(x as int) && p <= x < to,
            None => find_char_from(cs@.subrange(0, to as int), c, p as int) is None,
        },
    decreases to - p,
{
    if p >= to {
        return None;
    }
    if cs[p] == c {
        Some(p)
    } else {
        find_char(cs, c, p + 1, to)
    }
}

/// Where `c` occurs in `s[a..]`, seen from `s[a..]` or from `s`.
proof fn lemma_find_char_shift(s: Seq<char>, c: char, a: int, p: int)
    requires
        0 <= a <= s.len(),
        0 <= p,
    ensures
        match find_char_from(s.subrange(a, s.len() as int), c, p) {
            Some(x) => find_char_from(s, c, a + p) == Some(x + a),
            None => find_char_from(s, c, a + p) is None,
        },
    decreases s.len() - a - p,
{
    let t = s.subrange(a, s.len() as int);
    if p < t.len() {
        assert(t[p] == s[a + p]);
        if t[p] != c {
            lemma_find_char_shift(s, c, a, p + 1);
        }
    }
}

fn letter_of(c: char) -> (r: Option<NumericKind>)
    ensures
        r == letter_kind(c),
{
    if c == 'i' {
        Some(NumericKind::Int)
    } else if c == 'u' {
        Some(NumericKind::Uint)
    } else if c == 'f' {
        Some(NumericKind::Float)
    } else {
        None
    }
}

/// The family and width that `cs[from..to]` stands for.
fn numeric_at(cs: &Vec<char>, from: usize, to: usize) -> (r: Option<(NumericKind, usize)>)
    requires
        from < to <= cs@.len(),
    ensures
        r == spec_numeric(cs@.subrange(from as int, to as int)),
{
    let ghost s = cs@.subrange(from as int, to as int);
    assert(s.drop_first() =~= cs@.subrange(from + 1, to as int));
    let prec = parse_usize(cs, from + 1, to);
    let kind = letter_of(cs[from]);
    match (kind, prec) {
        (Some(k), Some(p)) => Some((k, p)),
        _ => None,
    }
}

/// The family and width that `value` (a letter, then a width) stands for.
pub fn parse_numeric_kind(value: &str) -> (r: Option<(NumericKind, usize)>)
    requires
        splits_at_one(value@),
    ensures
        r == spec_numeric(value@),
{
    let cs = chars_of(value);
    assert(cs@.subrange(0, cs@.len() as int) =~= cs@);
    numeric_at(&cs, 0, cs.len())
}

/// The operation named by `cs[from..to]`.
fn op_at(cs: &Vec<char>, from: usize, to: usize) -> (r: Option<IntrinsicOp>)
    requires
        from <= to <= cs@.len(),
    ensures
        r == name_op(cs@.subrange(from as int, to as int)),
{
    proof {
        reveal_strlit("neg");
        reveal_strlit("add");
        reveal_strlit("sub");
        reveal_strlit("mul");
        reveal_strlit("div");
        reveal_strlit("eq");
        reveal_strlit("neq");
        reveal_strlit("leq");
        reveal_strlit("geq");
        reveal_strlit("les");
        reveal_strlit("gre");
    }
    let ghost s = cs@.subrange(from as int, to as int);
    proof {
        assert("neg"@ =~= op_name(IntrinsicOp::Neg));
        assert("add"@ =~= op_name(IntrinsicOp::Add));
        assert("sub"@ =~= op_name(IntrinsicOp::Sub));
        assert("mul"@ =~= op_name(IntrinsicOp::Mul));
        assert("div"@ =~= op_name(IntrinsicOp::Div));
        assert("eq"@ =~= op_name(IntrinsicOp::Eq));
        assert("neq"@ =~= op_name(IntrinsicOp::NEq));
        assert("leq"@ =~= op_name(IntrinsicOp::LEq));
        assert("geq"@ =~= op_name(IntrinsicOp::GEq));
        assert("les"@ =~= op_name(IntrinsicOp::Les));
        assert("gre"@ =~= op_name(IntrinsicOp::Gre));
    }
    if range_is(cs, from, to, "neg") {
        assert(s =~= op_name(IntrinsicOp::Neg));
        Some(IntrinsicOp::Neg)
    } else if range_is(cs, from, to, "add") {
        assert(s =~= op_name(IntrinsicOp::Add));
        Some(IntrinsicOp::Add)
    } else if range_is(cs, from, to, "sub") {
        assert(s =~= op_name(IntrinsicOp::Sub));
        Some(IntrinsicOp::Sub)
    } else if range_is(cs, from, to, "mul") {
        assert(s =~= op_name(IntrinsicOp::Mul));
        Some(IntrinsicOp::Mul)
    } else if range_is(cs, from, to, "div") {
        assert(s =~= op_name(IntrinsicOp::Div));
        Some(IntrinsicOp::Div)
    } else if range_is(cs, from, to, "eq") {
        assert(s =~= op_name(IntrinsicOp::Eq));
        Some(IntrinsicOp::Eq)
    } else if range_is(cs, from, to, "neq") {
        assert(s =~= op_name(IntrinsicOp::NEq));
        Some(IntrinsicOp::NEq)
    } else if range_is(cs, from, to, "leq") {
        assert(s =~= op_name(IntrinsicOp::LEq));
        Some(IntrinsicOp::LEq)
    } else if range_is(cs, from, to, "geq") {
        assert(s =~= op_name(IntrinsicOp::GEq));
        Some(IntrinsicOp::GEq)
    } else if range_is(cs, from, to, "les") {
        assert(s =~= op_name(IntrinsicOp::Les));
        Some(IntrinsicOp::Les)
    } else if range_is(cs, from, to, "gre") {
        assert(s =~= op_name(IntrinsicOp::Gre));
        Some(IntrinsicOp::Gre)
    } else {
        None
    }
}

fn op_kind(op: IntrinsicOp, k: NumericKind, p: usize) -> (r: IntrinsicKind)
    ensures
        r == make_op_kind(op, k, p),
{
    match k {
        NumericKind::Int => match op {
            IntrinsicOp::Neg => IntrinsicKind::NegI { prec: p },
            IntrinsicOp::Add => IntrinsicKind::AddI { prec: p },
            IntrinsicOp::Sub => IntrinsicKind::SubI { prec: p },
            IntrinsicOp::Mul => IntrinsicKind::MulI { prec: p },
            IntrinsicOp::Div => IntrinsicKind::DivI { prec: p },
            IntrinsicOp::Eq => IntrinsicKind::EqI { prec: p },
            IntrinsicOp::NEq => IntrinsicKind::NEqI { prec: p },
            IntrinsicOp::LEq => IntrinsicKind::LEqI { prec: p },
            IntrinsicOp::GEq => IntrinsicKind::GEqI { prec: p },
            IntrinsicOp::Les => IntrinsicKind::LesI { prec: p },
            IntrinsicOp::Gre => IntrinsicKind::GreI { prec: p },
        },
        NumericKind::Uint => match op {
            IntrinsicOp::Neg => IntrinsicKind::NegU { prec: p },
            IntrinsicOp::Add => IntrinsicKind::AddU { prec: p },
            IntrinsicOp::Sub => IntrinsicKind::SubU { prec: p },
            IntrinsicOp::Mul => IntrinsicKind::MulU { prec: p },
            IntrinsicOp::Div => IntrinsicKind::DivU { prec: p },
            IntrinsicOp::Eq => IntrinsicKind::EqU { prec: p },
            IntrinsicOp::NEq => IntrinsicKind::NEqU { prec: p },
            IntrinsicOp::LEq => IntrinsicKind::LEqU { prec: p },
            IntrinsicOp::GEq => IntrinsicKind::GEqU { prec: p },
            IntrinsicOp::Les => IntrinsicKind::LesU { prec: p },
            IntrinsicOp::Gre => IntrinsicKind::GreU { prec: p },
        },
        NumericKind::Float => match op {
            IntrinsicOp::Neg => IntrinsicKind::NegF { prec: p },
            IntrinsicOp::Add => IntrinsicKind::AddF { prec: p },
            IntrinsicOp::Sub => IntrinsicKind::SubF { prec: p },
            IntrinsicOp::Mul => IntrinsicKind::MulF { prec: p },
            IntrinsicOp::Div => IntrinsicKind::DivF { prec: p },
            IntrinsicOp::Eq => IntrinsicKind::EqF { prec: p },
            IntrinsicOp::NEq => IntrinsicKind::NEqF { prec: p },
            IntrinsicOp::LEq => IntrinsicKind::LEqF { prec: p },
            IntrinsicOp::GEq => IntrinsicKind::GEqF { prec: p },
            IntrinsicOp::Les => IntrinsicKind::LesF { prec: p },
            IntrinsicOp::Gre => IntrinsicKind::GreF { prec: p },
        },
    }
}

fn conversion(a: NumericKind, p: usize, b: NumericKind, q: usize) -> (r: Option<IntrinsicKind>)
    ensures
        r == make_conversion(a, p, b, q),
{
    match (a, b) {
        (NumericKind::Int, NumericKind::Uint) => Some(IntrinsicKind::IToU { src_prec: p, out_prec: q }),
        (NumericKind::Int, NumericKind::Float) => Some(IntrinsicKind::IToF { src_prec: p, out_prec: q }),
        (NumericKind::Uint, NumericKind::Int) => Some(IntrinsicKind::UToI { src_prec: p, out_prec: q }),
        (NumericKind::Uint, NumericKind::Float) => Some(IntrinsicKind::UToF { src_prec: p, out_prec: q }),
        (NumericKind::Float, NumericKind::Int) => Some(IntrinsicKind::FToI { src_prec: p, out_prec: q }),
        (NumericKind::Float, NumericKind::Uint) => Some(IntrinsicKind::FToU { src_prec: p, out_prec: q }),
        _ => None,
    }
}

impl NumericKind {
    /// The letter of the family: `i`, `u` or `f`.
    pub fn to_text(&self) -> (r: String)
        ensures
            r@ == seq![kind_letter(*self)],
    {
        let mut s = String::new();
        let c = match self {
            NumericKind::Int => 'i',
            NumericKind::Uint => 'u',
            NumericKind::Float => 'f',
        };
        push_char(&mut s, c);
        assert(s@ =~= seq![kind_letter(*self)]);
        s
    }
}

/// `<op>_<letter><width>`
pub fn format_binary_intrinsic(op: &str, kind: NumericKind, prec: usize) -> (r: String)
    ensures
        r@ == op_text(op@, kind, prec),
{
    let mut s = string_of(op);
    push_char(&mut s, '_');
    let k = kind.to_text();
    push_str(&mut s, k.as_str());
    let p = usize_to_text(prec);
    push_str(&mut s, p.as_str());
    assert(s@ =~= op_text(op@, kind, prec));
    s
}

fn op_str(op: IntrinsicOp) -> (r: &'static str)
    ensures
        r@ == op_name(op),
{
    proof {
        reveal_strlit("neg");
        reveal_strlit("add");
        reveal_strlit("sub");
        reveal_strlit("mul");
        reveal_strlit("div");
        reveal_strlit("eq");
        reveal_strlit("neq");
        reveal_strlit("leq");
        reveal_strlit("geq");
        reveal_strlit("les");
        reveal_strlit("gre");
    }
    let r = match op {
        IntrinsicOp::Neg => "neg",
        IntrinsicOp::Add => "add",
        IntrinsicOp::Sub => "sub",
        IntrinsicOp::Mul => "mul",
        IntrinsicOp::Div => "div",
        IntrinsicOp::Eq => "eq",
        IntrinsicOp::NEq => "neq",
        IntrinsicOp::LEq => "leq",
        IntrinsicOp::GEq => "geq",
        IntrinsicOp::Les => "les",
        IntrinsicOp::Gre => "gre",
    };
    assert(r@ =~= op_name(op));
    r
}

impl IntrinsicKind {
    /// The operation, family and width of an operation intrinsic.
    pub fn op_parts(&self) -> (r: Option<(IntrinsicOp, NumericKind, usize)>)
        ensures
            r == op_parts(*self),
    {
        match *self {
            IntrinsicKind::NegI { prec } => Some((IntrinsicOp::Neg, NumericKind::Int, prec)),
            IntrinsicKind::AddI { prec } => Some((IntrinsicOp::Add, NumericKind::Int, prec)),
            IntrinsicKind::SubI { prec } => Some((IntrinsicOp::Sub, NumericKind::Int, prec)),
            IntrinsicKind::MulI { prec } => Some((IntrinsicOp::Mul, NumericKind::Int, prec)),
            IntrinsicKind::DivI { prec } => Some((IntrinsicOp::Div, NumericKind::Int, prec)),
            IntrinsicKind::EqI { prec } => Some((IntrinsicOp::Eq, NumericKind::Int, prec)),
            IntrinsicKind::NEqI { prec } => Some((IntrinsicOp::NEq, NumericKind::Int, prec)),
            IntrinsicKind::LEqI { prec } => Some((IntrinsicOp::LEq, NumericKind::Int, prec)),
            IntrinsicKind::GEqI { prec } => Some((IntrinsicOp::GEq, NumericKind::Int, prec)),
            IntrinsicKind::LesI { prec } => Some((IntrinsicOp::Les, NumericKind::Int, prec)),
            IntrinsicKind::GreI { prec } => Some((IntrinsicOp::Gre, NumericKind::Int, prec)),
            IntrinsicKind::NegU { prec } => Some((IntrinsicOp::Neg, NumericKind::Uint, prec)),
            IntrinsicKind::AddU { prec } => Some((IntrinsicOp::Add, NumericKind::Uint, prec)),
            IntrinsicKind::SubU { prec } => Some((IntrinsicOp::Sub, NumericKind::Uint, prec)),
            IntrinsicKind::MulU { prec } => Some((IntrinsicOp::Mul, NumericKind::Uint, prec)),
            IntrinsicKind::DivU { prec } => Some((IntrinsicOp::Div, NumericKind::Uint, prec)),
            IntrinsicKind::EqU { prec } => Some((IntrinsicOp::Eq, NumericKind::Uint, prec)),
            IntrinsicKind::NEqU { prec } => Some((IntrinsicOp::NEq, NumericKind::Uint, prec)),
            IntrinsicKind::LEqU { prec } => Some((IntrinsicOp::LEq, NumericKind::Uint, prec)),
            IntrinsicKind::GEqU { prec } => Some((IntrinsicOp::GEq, NumericKind::Uint, prec)),
            IntrinsicKind::LesU { prec } => Some((IntrinsicOp::Les, NumericKind::Uint, prec)),
            IntrinsicKind::GreU { prec } => Some((IntrinsicOp::Gre, NumericKind::Uint, prec)),
            IntrinsicKind::NegF { prec } => Some((IntrinsicOp::Neg, NumericKind::Float, prec)),
            IntrinsicKind::AddF { prec } => Some((IntrinsicOp::Add, NumericKind::Float, prec)),
            IntrinsicKind::SubF { prec } => Some((IntrinsicOp::Sub, NumericKind::Float, prec)),
            IntrinsicKind::MulF { prec } => Some((IntrinsicOp::Mul, NumericKind::Float, prec)),
            IntrinsicKind::DivF { prec } => Some((IntrinsicOp::Div, NumericKind::Float, prec)),
            IntrinsicKind::EqF { prec } => Some((IntrinsicOp::Eq, NumericKind::Float, prec)),
            IntrinsicKind::NEqF { prec } => Some((IntrinsicOp::NEq, NumericKind::Float, prec)),
            IntrinsicKind::LEqF { prec } => Some((IntrinsicOp::LEq, NumericKind::Float, prec)),
            IntrinsicKind::GEqF { prec } => Some((IntrinsicOp::GEq, NumericKind::Float, prec)),
            IntrinsicKind::LesF { prec } => Some((IntrinsicOp::Les, NumericKind::Float, prec)),
            IntrinsicKind::GreF { prec } => Some((IntrinsicOp::Gre, NumericKind::Float, prec)),
            _ => None,
        }
    }

    /// The families and widths of a conversion intrinsic.
    pub fn conversion_parts(&self) -> (r: Option<(NumericKind, usize, NumericKind, usize)>)
        ensures
            r == conversion_parts(*self),
    {
        match *self {
            IntrinsicKind::IToU { src_prec, out_prec } => Some((NumericKind::Int, src_prec, NumericKind::Uint, out_prec)),
            IntrinsicKind::IToF { src_prec, out_prec } => Some((NumericKind::Int, src_prec, NumericKind::Float, out_prec)),
            IntrinsicKind::UToI { src_prec, out_prec } => Some((NumericKind::Uint, src_prec, NumericKind::Int, out_prec)),
            IntrinsicKind::UToF { src_prec, out_prec } => Some((NumericKind::Uint, src_prec, NumericKind::Float, out_prec)),
            IntrinsicKind::FToI { src_prec, out_prec } => Some((NumericKind::Float, src_prec, NumericKind::Int, out_prec)),
            IntrinsicKind::FToU { src_prec, out_prec } => Some((NumericKind::Float, src_prec, NumericKind::Uint, out_prec)),
            _ => None,
        }
    }

    /// The name the intrinsic is displayed with.
    pub fn to_name(&self) -> (r: String)
        ensures
            r@ == kind_name(*self),
    {
        if let Some((op, nk, p)) = self.op_parts() {
            return format_binary_intrinsic(op_str(op), nk, p);
        }
        if let Some((a, p, b, q)) = self.conversion_parts() {
            let mut s = a.to_text();
            push_str(&mut s, usize_to_text(p).as_str());
            push_str(&mut s, "_to_");
            push_str(&mut s, b.to_text().as_str());
            push_str(&mut s, usize_to_text(q).as_str());
            proof { reveal_strlit("_to_"); }
            assert(s@ =~= kind_name(*self));
            return s;
        }
        proof { reveal_strlit("copy"); }
        let s = string_of("copy");
        assert(s@ =~= kind_name(*self));
        s
    }

    /// Whether reading `value` as an intrinsic name would split one of its
    /// parts at a byte that is not a character boundary.
    pub fn name_splits_badly(value: &str) -> (r: bool)
        ensures
            r == from_str_panics(value@),
    {
        let cs = chars_of(value);
        assert(cs@.subrange(0, cs@.len() as int) =~= cs@);
        proof {
            reveal_strlit("copy");
            assert("copy"@ =~= copy_name());
        }
        if range_is(&cs, 0, cs.len(), "copy") {
            return false;
        }
        if let Some(p) = find_to(&cs, 0) {
            let src_ok = p > 0 && cs[0] < '\u{80}';
            if !src_ok {
                return true;
            }
            assert(cs@.subrange(0, p as int)[0] == cs@[0]);
            if numeric_at(&cs, 0, p).is_none() {
                return false;
            }
            let out_ok = p + 4 < cs.len() && cs[p + 4] < '\u{80}';
            assert(p + 4 < cs@.len() ==> cs@.subrange(p + 4, cs@.len() as int)[0] == cs@[p + 4]);
            return !out_ok;
        }
        match find_char(&cs, '_', 0, cs.len()) {
            None => false,
            Some(u) => {
                let ghost rest = cs@.subrange(u + 1, cs@.len() as int);
                proof { lemma_find_char_shift(cs@, '_', u + 1, 0); }
                assert(rest.subrange(0, rest.len() as int) =~= rest);
                let more = find_char(&cs, '_', u + 1, cs.len());
                if more.is_some() {
                    return false;
                }
                let ok = u + 1 < cs.len() && cs[u + 1] < '\u{80}';
                assert(u + 1 < cs@.len() ==> rest[0] == cs@[u + 1]);
                !ok
            },
        }
    }

    /// Reads an intrinsic name: `copy`, `<op>_<letter><width>` or
    /// `<letter><width>_to_<letter><width>`, widths as `usize::from_str`
    /// reads them.
    pub fn from_str(value: &str) -> (r: Result<IntrinsicKind, IntrinsicError>)
        requires
            !from_str_panics(value@),
        ensures
            r == spec_from_str(value@),
    {
        let cs = chars_of(value);
        assert(cs@.subrange(0, cs@.len() as int) =~= cs@);
        proof {
            reveal_strlit("copy");
            assert("copy"@ =~= copy_name());
        }
        if range_is(&cs, 0, cs.len(), "copy") {
            return Ok(IntrinsicKind::Copy);
        }
        if let Some(p) = find_to(&cs, 0) {
            let src = numeric_at(&cs, 0, p);
            match src {
                None => {
                    return Err(IntrinsicError::InvalidSourceType);
                },
                Some((a, sp)) => {
                    let out = numeric_at(&cs, p + 4, cs.len());
                    match out {
                        None => {
                            return Err(IntrinsicError::InvalidOutputType);
                        },
                        Some((b, op)) => {
                            return match conversion(a, sp, b, op) {
                                Some(k) => Ok(k),
                                None => Err(IntrinsicError::UnsupportedConversion),
                            };
                        },
                    }
                },
            }
        }
        match find_char(&cs, '_', 0, cs.len()) {
            None => Err(IntrinsicError::MissingOperandType),
            Some(u) => {
                proof { lemma_find_char_shift(cs@, '_', u + 1, 0); }
                let ghost rest = cs@.subrange(u + 1, cs@.len() as int);
                assert(rest.subrange(0, rest.len() as int) =~= rest);
                if find_char(&cs, '_', u + 1, cs.len()).is_some() {
                    return Err(IntrinsicError::InvalidName);
                }
                match numeric_at(&cs, u + 1, cs.len()) {
                    None => Err(IntrinsicError::InvalidOperandType),
                    Some((k, p)) => match op_at(&cs, 0, u) {
                        Some(o) => Ok(op_kind(o, k, p)),
                        None => Err(IntrinsicError::UnknownIntrinsic),
                    },
                }
            },
        }
    }
}

} // verus!
