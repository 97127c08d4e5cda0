use vstd::prelude::*;
use crate::ast::expressions::Expression;
use crate::general::path::{QualifiedName, QualifiedNameSegment};
use crate::text::string_of;

verus! {

/// The binary operators, in the order by which they compare.
#[derive(Debug, Clone, Copy, PartialEq, Eq, Structural)]
pub enum BinaryOperator {
    BitShitLeft,
    BitShitRight,
    BitwiseOr,
    BitwiseAnd,
    BitwiseXor,
    Addition,
    Multiplication,
    Substraction,
    Division,
    Module,
    Greater,
    Lesser,
    GreaterOrEqual,
    LesserOrEqual,
    Equal,
    NotEqual,
}

/// The unary operators, in the order by which they compare.
#[derive(Debug, Clone, Copy, PartialEq, Eq, Structural)]
pub enum UnaryOperator {
    Deref,
    Ref,
    Negation,
    Increase,
    Decrease,
    EarlyRet,
}

#[derive(Debug, PartialEq)]
pub struct UnaryOperation {
    pub operator: UnaryOperator,
    pub operand: Expression,
}

#[derive(Debug, PartialEq)]
pub struct BinaryOperation {
    pub operator: BinaryOperator,
    pub operands: [Expression; 2],
}

/// Position of a binary operator in the declaration order.
pub open spec fn binary_rank(op: BinaryOperator) -> int {
    match op {
        BinaryOperator::BitShitLeft => 0,
        BinaryOperator::BitShitRight => 1,
        BinaryOperator::BitwiseOr => 2,
        BinaryOperator::BitwiseAnd => 3,
        BinaryOperator::BitwiseXor => 4,
        BinaryOperator::Addition => 5,
        BinaryOperator::Multiplication => 6,
        BinaryOperator::Substraction => 7,
        BinaryOperator::Division => 8,
        BinaryOperator::Module => 9,
        BinaryOperator::Greater => 10,
        BinaryOperator::Lesser => 11,
        BinaryOperator::GreaterOrEqual => 12,
        BinaryOperator::LesserOrEqual => 13,
        BinaryOperator::Equal => 14,
        BinaryOperator::NotEqual => 15,
    }
}

/// Position of a unary operator in the declaration order.
pub open spec fn unary_rank(op: UnaryOperator) -> int {
    match op {
        UnaryOperator::Deref => 0,
        UnaryOperator::Ref => 1,
        UnaryOperator::Negation => 2,
        UnaryOperator::Increase => 3,
        UnaryOperator::Decrease => 4,
        UnaryOperator::EarlyRet => 5,
    }
}

/// The text an operator is displayed as.
pub open spec fn binary_symbol(op: BinaryOperator) -> Seq<char> {
    match op {
        BinaryOperator::BitShitLeft => seq!['>', '>'],
        BinaryOperator::BitShitRight => seq!['<', '<'],
        BinaryOperator::BitwiseOr => seq!['|'],
        BinaryOperator::BitwiseAnd => seq!['&'],
        BinaryOperator::BitwiseXor => seq!['^'],
        BinaryOperator::Addition => seq!['+'],
        BinaryOperator::Multiplication => seq!['*'],
        BinaryOperator::Substraction => seq!['-'],
        BinaryOperator::Division => seq!['/'],
        BinaryOperator::Module => seq!['%'],
        BinaryOperator::Greater => seq!['>'],
        BinaryOperator::Lesser => seq!['<'],
        BinaryOperator::GreaterOrEqual => seq!['>', '='],
        BinaryOperator::LesserOrEqual => seq!['<', '='],
        BinaryOperator::Equal => seq!['=', '='],
        BinaryOperator::NotEqual => seq!['!', '='],
    }
}

/// The text a unary operator is displayed as.
pub open spec fn unary_symbol(op: UnaryOperator) -> Seq<char> {
    match op {
        UnaryOperator::Deref => seq!['*'],
        UnaryOperator::Ref => seq!['&'],
        UnaryOperator::Negation => seq!['-'],
        UnaryOperator::Increase => seq!['-', '-'],
        UnaryOperator::Decrease => seq!['+', '+'],
        UnaryOperator::EarlyRet => seq!['?'],
    }
}

impl BinaryOperator {
    /// Position of the operator in the declaration order (the order in
    /// which operators compare).
    pub fn rank(&self) -> (r: u8)
        ensures
            r == binary_rank(*self),
    {
        match self {
            BinaryOperator::BitShitLeft => 0,
            BinaryOperator::BitShitRight => 1,
            BinaryOperator::BitwiseOr => 2,
            BinaryOperator::BitwiseAnd => 3,
            BinaryOperator::BitwiseXor => 4,
            BinaryOperator::Addition => 5,
            BinaryOperator::Multiplication => 6,
            BinaryOperator::Substraction => 7,
            BinaryOperator::Division => 8,
            BinaryOperator::Module => 9,
            BinaryOperator::Greater => 10,
            BinaryOperator::Lesser => 11,
            BinaryOperator::GreaterOrEqual => 12,
            BinaryOperator::LesserOrEqual => 13,
            BinaryOperator::Equal => 14,
            BinaryOperator::NotEqual => 15,
        }
    }

    /// The text the operator is displayed as.
    pub fn to_text(&self) -> (r: String)
        ensures
            r@ == binary_symbol(*self),
    {
        let s = match self {
            BinaryOperator::BitShitLeft => ">>",
            BinaryOperator::BitShitRight => "<<",
            BinaryOperator::BitwiseOr => "|",
            BinaryOperator::BitwiseAnd => "&",
            BinaryOperator::BitwiseXor => "^",
            BinaryOperator::Addition => "+",
            BinaryOperator::Multiplication => "*",
            BinaryOperator::Substraction => "-",
            BinaryOperator::Division => "/",
            BinaryOperator::Module => "%",
            BinaryOperator::Greater => ">",
            BinaryOperator::Lesser => "<",
            BinaryOperator::GreaterOrEqual => ">=",
            BinaryOperator::LesserOrEqual => "<=",
            BinaryOperator::Equal => "==",
            BinaryOperator::NotEqual => "!=",
        };
        proof {
            reveal_strlit(">>");
            reveal_strlit("<<");
            reveal_strlit("|");
            reveal_strlit("&");
            reveal_strlit("^");
            reveal_strlit("+");
            reveal_strlit("*");
            reveal_strlit("-");
            reveal_strlit("/");
            reveal_strlit("%");
            reveal_strlit(">");
            reveal_strlit("<");
            reveal_strlit(">=");
            reveal_strlit("<=");
            reveal_strlit("==");
            reveal_strlit("!=");
        }
        let r = string_of(s);
        assert(r@ =~= binary_symbol(*self));
        r
    }

    /// The path `add::core` of the trait method that implements the
    /// operator; only addition has one.
    pub fn into_path(&self) -> (r: QualifiedName)
        requires
            *self == BinaryOperator::Addition,
        ensures
            r.v@.len() == 2,
            r.v@[0].ident@ == seq!['a', 'd', 'd'],
            r.v@[1].ident@ == seq!['c', 'o', 'r', 'e'],
            r.v@[0].template_spec@.len() == 0,
            r.v@[1].template_spec@.len() == 0,
    {
        let mut v = Vec::new();
        v.push(QualifiedNameSegment::from_ident("add"));
        v.push(QualifiedNameSegment::from_ident("core"));
        proof {
            reveal_strlit("add");
            reveal_strlit("core");
        }
        QualifiedName { v }
    }

    /// The method of the core trait that implements the operator (see
    /// `binary_method`), if the operator has one.
    pub fn into_member_access(&self) -> (r: Option<QualifiedNameSegment>)
        ensures
            match (r, binary_method(*self)) {
                (Some(s), Some(m)) => s.ident@ == m && s.template_spec@.len() == 0,
                (None, None) => true,
                _ => false,
            },
    {
        let name = match self {
            BinaryOperator::Addition => "add",
            BinaryOperator::Substraction => "sub",
            BinaryOperator::Multiplication => "mul",
            BinaryOperator::Division => "div",
            BinaryOperator::Equal => "eq",
            BinaryOperator::NotEqual => "neq",
            BinaryOperator::LesserOrEqual => "leq",
            BinaryOperator::GreaterOrEqual => "geq",
            BinaryOperator::Lesser => "les",
            BinaryOperator::Greater => "gre",
            _ => {
                return None;
            },
        };
        proof {
            reveal_strlit("add");
            reveal_strlit("sub");
            reveal_strlit("mul");
            reveal_strlit("div");
            reveal_strlit("eq");
            reveal_strlit("neq");
            reveal_strlit("leq");
            reveal_strlit("geq");
            reveal_strlit("les");
            reveal_strlit("gre");
        }
        Some(QualifiedNameSegment::from_ident(name))
    }
}

/// The method of the core trait (`Add`, `Sub`, `Mul`, `Div`, `Eq`, `NEq`,
/// `LEq`, `GEq`, `Les`, `Gre`) that implements a binary operator: the
/// trait's name in lower case. The shifts, the bitwise operators and `%`
/// have no core trait.
pub open spec fn binary_method(op: BinaryOperator) -> Option<Seq<char>> {
    match op {
        BinaryOperator::Addition => Some(seq!['a', 'd', 'd']),
        BinaryOperator::Substraction => Some(seq!['s', 'u', 'b']),
        BinaryOperator::Multiplication => Some(seq!['m', 'u', 'l']),
        BinaryOperator::Division => Some(seq!['d', 'i', 'v']),
        BinaryOperator::Equal => Some(seq!['e', 'q']),
        BinaryOperator::NotEqual => Some(seq!['n', 'e', 'q']),
        BinaryOperator::LesserOrEqual => Some(seq!['l', 'e', 'q']),
        BinaryOperator::GreaterOrEqual => Some(seq!['g', 'e', 'q']),
        BinaryOperator::Lesser => Some(seq!['l', 'e', 's']),
        BinaryOperator::Greater => Some(seq!['g', 'r', 'e']),
        _ => None,
    }
}

/// The method of the core trait that implements a unary operator: `neg`
/// (trait `Neg`) for `-`; the other unary operators have no core trait.
pub open spec fn unary_method(op: UnaryOperator) -> Option<Seq<char>> {
    match op {
        UnaryOperator::Negation => Some(seq!['n', 'e', 'g']),
        _ => None,
    }
}

impl UnaryOperator {
    /// The method of the core trait that implements the operator (see
    /// `unary_method`), if the operator has one.
    pub fn into_member_access(&self) -> (r: Option<QualifiedNameSegment>)
        ensures
            match (r, unary_method(*self)) {
                (Some(s), Some(m)) => s.ident@ == m && s.template_spec@.len() == 0,
                (None, None) => true,
                _ => false,
            },
    {
        match self {
            UnaryOperator::Negation => {
                proof {
                    reveal_strlit("neg");
                }
                Some(QualifiedNameSegment::from_ident("neg"))
            },
            _ => None,
        }
    }

    /// Position of the operator in the declaration order.
    pub fn rank(&self) -> (r: u8)
        ensures
            r == unary_rank(*self),
    {
        match self {
            UnaryOperator::Deref => 0,
            UnaryOperator::Ref => 1,
            UnaryOperator::Negation => 2,
            UnaryOperator::Increase => 3,
            UnaryOperator::Decrease => 4,
            UnaryOperator::EarlyRet => 5,
        }
    }

    /// The text the operator is displayed as.
    pub fn to_text(&self) -> (r: String)
        ensures
            r@ == unary_symbol(*self),
    {
        let s = match self {
            UnaryOperator::Deref => "*",
            UnaryOperator::Ref => "&",
            UnaryOperator::Negation => "-",
            UnaryOperator::Increase => "--",
            UnaryOperator::Decrease => "++",
            UnaryOperator::EarlyRet => "?",
        };
        proof {
            reveal_strlit("*");
            reveal_strlit("&");
            reveal_strlit("-");
            reveal_strlit("--");
            reveal_strlit("++");
            reveal_strlit("?");
        }
        let r = string_of(s);
        assert(r@ =~= unary_symbol(*self));
        r
    }
}

impl UnaryOperation {
    pub fn new(operator: UnaryOperator, operand: Expression) -> (r: Self)
        ensures
            r == (UnaryOperation { operator, operand }),
    {
        UnaryOperation { operator, operand }
    }
}

impl BinaryOperation {
    pub fn new(operator: BinaryOperator, left: Expression, right: Expression) -> (r: Self)
        ensures
            r == (BinaryOperation { operator, operands: [left, right] }),
    {
        BinaryOperation { operator, operands: [left, right] }
    }
}

} // verus!
