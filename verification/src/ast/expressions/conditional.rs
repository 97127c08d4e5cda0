use vstd::prelude::*;
use crate::ast::expressions::{Expression, ExpressionKind};

verus! {

/// `if condition { then_ } else { else_ }`
#[derive(Debug, PartialEq)]
pub struct Conditional {
    pub condition: Expression,
    pub then_: Expression,
    pub else_: Option<Expression>,
}

/// Collects `if / else if / else` arms and builds the nested conditional.
#[derive(Debug, PartialEq)]
pub struct ConditionalBuilder {
    pub ifs: Vec<Conditional>,
    pub else_: Option<Expression>,
}

/// The expression `if c` (type unknown, not constant).
pub open spec fn spec_if_expression(c: Conditional) -> Expression {
    Expression { kind: Box::new(ExpressionKind::If(c)), ret_ty: None, constant: false }
}

/// The conditional chain that the arms `ifs[from..]` and the final `els`
/// denote: each arm's else branch is the conditional of the arms after it,
/// and the last arm takes `els` (when there is one).
pub open spec fn spec_chain(ifs: Seq<Conditional>, from: int, els: Option<Expression>) -> Conditional
    decreases ifs.len() - from,
{
    if from >= ifs.len() - 1 {
        Conditional {
            condition: ifs.last().condition,
            then_: ifs.last().then_,
            else_: if els is Some { els } else { ifs.last().else_ },
        }
    } else {
        Conditional {
            condition: ifs[from].condition,
            then_: ifs[from].then_,
            else_: Some(spec_if_expression(spec_chain(ifs, from + 1, els))),
        }
    }
}

impl Conditional {
    /// `if condition { then_ }` without an else branch.
    pub fn new(condition: Expression, then_: Expression) -> (r: Self)
        ensures
            r == (Conditional { condition, then_, else_: None }),
    {
        Conditional { condition, then_, else_: None }
    }

    /// Sets the else branch.
    pub fn set_else(&mut self, else_: Expression)
        ensures
            *final(self) == (Conditional { condition: old(self).condition, then_: old(self).then_, else_: Some(else_) }),
    {
        self.else_ = Some(else_);
    }
}

impl ConditionalBuilder {
    /// A builder with one arm.
    pub fn new(condition: Expression, then_: Expression) -> (r: Self)
        ensures
            r.ifs@ == seq![Conditional { condition, then_, else_: None }],
            r.else_.is_none(),
    {
        let mut ifs = Vec::new();
        ifs.push(Conditional::new(condition, then_));
        ConditionalBuilder { ifs, else_: None }
    }

    /// Adds an `else if` arm.
    pub fn add_if(self, condition: Expression, then_: Expression) -> (r: Self)
        ensures
            r.ifs@ == self.ifs@.push(Conditional { condition, then_, else_: None }),
            r.else_ == self.else_,
    {
        let mut s = self;
        s.ifs.push(Conditional::new(condition, then_));
        s
    }

    /// Sets the final `else` branch.
    pub fn set_else(self, else_: Expression) -> (r: Self)
        ensures
            r.ifs == self.ifs,
            r.else_ == Some(else_),
    {
        let mut s = self;
        s.else_ = Some(else_);
        s
    }

    /// The nested conditional: the first arm, whose else branch is the
    /// conditional of the remaining arms, down to the final else.
    pub fn build(self) -> (r: Conditional)
        requires
            self.ifs@.len() > 0,
        ensures
            r == spec_chain(self.ifs@, 0, self.else_),
    {
        let ghost ifs = self.ifs@;
        let ghost els = self.else_;
        let mut ifs_v = self.ifs;
        let mut last = ifs_v.pop().unwrap();
        if let Some(e) = self.else_ {
            last.set_else(e);
        }
        assert(last == spec_chain(ifs, ifs.len() - 1, els));
        while ifs_v.len() > 0
            invariant
                ifs_v@ == ifs.take(ifs_v@.len() as int),
                ifs_v@.len() < ifs.len(),
                last == spec_chain(ifs, ifs_v@.len() as int, els),
            decreases ifs_v@.len(),
        {
            let mut if_ = ifs_v.pop().unwrap();
            if_.set_else(Expression::if_(last));
            last = if_;
            assert(ifs_v@ =~= ifs.take(ifs_v@.len() as int));
        }
        last
    }
}

} // verus!
