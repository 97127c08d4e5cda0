use vstd::prelude::*;
use crate::ast::expressions::{Expression, ExpressionKind, spec_expr};
use crate::ast::expressions::call::Call;
use crate::ast::expressions::member_access::{MemberAccess, MethodCall};
use crate::ast::expressions::operations::{
    BinaryOperation, BinaryOperator, UnaryOperation, UnaryOperator, binary_rank, unary_rank,
};
use crate::general::path::QualifiedNameSegment;

verus! {

/// What follows an operand: an operator applied to the value before it.
/// `Binary` also takes the operand after it.
#[derive(Debug, PartialEq)]
pub enum Operation {
    /// `(params)`
    Call(Vec<Expression>),
    /// `.method(params)`
    Method(QualifiedNameSegment, Vec<Expression>),
    /// `= value`
    Assign(Expression),
    /// `.member`
    Access(QualifiedNameSegment),
    /// `[index]`
    Index(Expression),
    /// a postfix unary operator
    Unary(UnaryOperator),
    /// a binary operator
    Binary(BinaryOperator),
}

/// An operand or an operator, in the order they were written.
#[derive(Debug, PartialEq)]
pub enum ExpressionString {
    Val(Expression),
    Oper(Operation),
}

/// Whether the operator `top`, waiting on the stack, is applied before
/// `incoming` is pushed: binary operators wait for any operator that is not
/// binary and for binary operators that come later in the declaration
/// order; unary operators wait only for unary operators that come later;
/// every other operator is applied at once.
pub open spec fn pops(top: Operation, incoming: Operation) -> bool {
    match top {
        Operation::Binary(a) => match incoming {
            Operation::Binary(b) => binary_rank(a) >= binary_rank(b),
            _ => false,
        },
        Operation::Unary(a) => match incoming {
            Operation::Unary(b) => unary_rank(a) >= unary_rank(b),
            _ => true,
        },
        _ => true,
    }
}

/// Moves the operators that `o` does not wait behind from the stack to the
/// output, then pushes `o`.
pub open spec fn drain(out: Seq<ExpressionString>, st: Seq<Operation>, o: Operation) -> (Seq<ExpressionString>, Seq<Operation>)
    decreases st.len(),
{
    if st.len() > 0 && pops(st.last(), o) {
        drain(out.push(ExpressionString::Oper(st.last())), st.drop_last(), o)
    } else {
        (out, st.push(o))
    }
}

/// One step of the shunting yard.
pub open spec fn shunt_step(state: (Seq<ExpressionString>, Seq<Operation>), e: ExpressionString) -> (Seq<ExpressionString>, Seq<Operation>) {
    match e {
        ExpressionString::Val(v) => (state.0.push(ExpressionString::Val(v)), state.1),
        ExpressionString::Oper(o) => drain(state.0, state.1, o),
    }
}

/// The output and the operator stack after the items of `s`.
pub open spec fn shunt_state(s: Seq<ExpressionString>) -> (Seq<ExpressionString>, Seq<Operation>)
    decreases s.len(),
{
    if s.len() == 0 {
        (Seq::empty(), Seq::empty())
    } else {
        shunt_step(shunt_state(s.drop_last()), s.last())
    }
}

/// The output followed by the stacked operators, the top first.
pub open spec fn flush(out: Seq<ExpressionString>, st: Seq<Operation>) -> Seq<ExpressionString>
    decreases st.len(),
{
    if st.len() == 0 {
        out
    } else {
        flush(out.push(ExpressionString::Oper(st.last())), st.drop_last())
    }
}

/// `s` in postfix order.
pub open spec fn to_postfix(s: Seq<ExpressionString>) -> Seq<ExpressionString> {
    flush(shunt_state(s).0, shunt_state(s).1)
}

/// The expression that an operator other than `Binary` makes of its operand.
pub open spec fn apply_one(o: Operation, e: Expression) -> Expression {
    match o {
        Operation::Call(ps) => spec_expr(ExpressionKind::Call(Call { called: e, parameters: ps }), false),
        Operation::Method(m, ps) => spec_expr(ExpressionKind::MethodCall(MethodCall { object: e, method: m, params: ps }), true),
        Operation::Assign(v) => spec_expr(ExpressionKind::Assignment(e, v), false),
        Operation::Access(m) => spec_expr(ExpressionKind::MemberAccess(MemberAccess { object: e, member: m }), true),
        Operation::Index(i) => spec_expr(ExpressionKind::Index(e, i), false),
        Operation::Unary(u) => spec_expr(ExpressionKind::UnaryOperation(UnaryOperation { operator: u, operand: e }), false),
        Operation::Binary(b) => e,
    }
}

/// The value stack after applying `o` to `vals`; `None` when it holds too
/// few operands.
pub open spec fn apply(o: Operation, vals: Seq<Expression>) -> Option<Seq<Expression>> {
    match o {
        Operation::Binary(b) => if vals.len() >= 2 {
            Some(vals.drop_last().drop_last().push(spec_expr(
                ExpressionKind::BinaryOperation(BinaryOperation { operator: b, operands: [vals[vals.len() - 2], vals.last()] }),
                false,
            )))
        } else {
            None
        },
        _ => if vals.len() >= 1 {
            Some(vals.drop_last().push(apply_one(o, vals.last())))
        } else {
            None
        },
    }
}

/// The value stack after one item of a postfix sequence.
pub open spec fn step(e: ExpressionString, vals: Seq<Expression>) -> Option<Seq<Expression>> {
    match e {
        ExpressionString::Val(v) => Some(vals.push(v)),
        ExpressionString::Oper(o) => apply(o, vals),
    }
}

/// The value stack after the postfix sequence `ts`, from `vals`.
pub open spec fn run(ts: Seq<ExpressionString>, vals: Seq<Expression>) -> Option<Seq<Expression>>
    decreases ts.len(),
{
    if ts.len() == 0 {
        Some(vals)
    } else {
        match run(ts.drop_last(), vals) {
            Some(w) => step(ts.last(), w),
            None => None,
        }
    }
}

/// The expression that the written sequence `s` denotes: its postfix form
/// evaluated on an empty stack, when that leaves exactly one value.
pub open spec fn spec_build(s: Seq<ExpressionString>) -> Option<Expression> {
    match run(to_postfix(s), Seq::empty()) {
        Some(w) => if w.len() == 1 {
            Some(w[0])
        } else {
            None
        },
        None => None,
    }
}

/// Whether `e` is a binary operator.
pub open spec fn is_binary_item(e: ExpressionString) -> bool {
    e matches ExpressionString::Oper(Operation::Binary(_))
}

/// A sequence as the grammar writes it: an operand first, an operand
/// exactly after each binary operator, and no binary operator last.
pub open spec fn well_formed(s: Seq<ExpressionString>) -> bool {
    &&& s.len() >= 1
    &&& s[0] is Val
    &&& forall|i: int| 1 <= i < s.len() ==> ((#[trigger] s[i] is Val) <==> is_binary_item(s[i - 1]))
    &&& !is_binary_item(s.last())
}

/// The number of binary operators in `st`.
pub open spec fn count_binary(st: Seq<Operation>) -> int
    decreases st.len(),
{
    if st.len() == 0 {
        0
    } else {
        count_binary(st.drop_last()) + if st.last() is Binary { 1int } else { 0int }
    }
}

proof fn lemma_run_push(ts: Seq<ExpressionString>, x: ExpressionString, vals: Seq<Expression>)
    ensures
        run(ts.push(x), vals) == match run(ts, vals) {
            Some(w) => step(x, w),
            None => None,
        },
{
    assert(ts.push(x).drop_last() =~= ts);
}

proof fn lemma_count_binary_nonneg(st: Seq<Operation>)
    ensures
        count_binary(st) >= 0,
    decreases st.len(),
{
    if st.len() > 0 {
        lemma_count_binary_nonneg(st.drop_last());
    }
}

proof fn lemma_drain_depth(out: Seq<ExpressionString>, st: Seq<Operation>, o: Operation, w: Seq<Expression>)
    requires
        run(out, Seq::empty()) == Some(w),
        w.len() == 1 + count_binary(st),
    ensures
        ({
            let (out2, st2) = drain(out, st, o);
            &&& st2.len() >= 1
            &&& st2.last() == o
            &&& run(out2, Seq::empty()) is Some
            &&& run(out2, Seq::empty())->0.len() == 1 + count_binary(st2.drop_last())
        }),
    decreases st.len(),
{
    if st.len() > 0 && pops(st.last(), o) {
        let top = st.last();
        lemma_count_binary_nonneg(st.drop_last());
        assert(count_binary(st) == count_binary(st.drop_last()) + if top is Binary { 1int } else { 0int });
        lemma_run_push(out, ExpressionString::Oper(top), Seq::empty());
        let w2 = apply(top, w)->0;
        lemma_drain_depth(out.push(ExpressionString::Oper(top)), st.drop_last(), o, w2);
    } else {
        assert(st.push(o).drop_last() =~= st);
    }
}

proof fn lemma_flush_depth(out: Seq<ExpressionString>, st: Seq<Operation>, w: Seq<Expression>)
    requires
        run(out, Seq::empty()) == Some(w),
        w.len() == 1 + count_binary(st),
    ensures
        run(flush(out, st), Seq::empty()) is Some,
        run(flush(out, st), Seq::empty())->0.len() == 1,
    decreases st.len(),
{
    if st.len() > 0 {
        let top = st.last();
        lemma_count_binary_nonneg(st.drop_last());
        assert(count_binary(st) == count_binary(st.drop_last()) + if top is Binary { 1int } else { 0int });
        lemma_run_push(out, ExpressionString::Oper(top), Seq::empty());
        let w2 = apply(top, w)->0;
        lemma_flush_depth(out.push(ExpressionString::Oper(top)), st.drop_last(), w2);
    }
}

proof fn lemma_prefix_depth(s: Seq<ExpressionString>, k: int)
    requires
        well_formed(s),
        1 <= k <= s.len(),
    ensures
        run(shunt_state(s.take(k)).0, Seq::empty()) is Some,
        run(shunt_state(s.take(k)).0, Seq::empty())->0.len() == 1 + count_binary(shunt_state(s.take(k)).1) - if is_binary_item(s[k - 1]) {
            1int
        } else {
            0int
        },
    decreases k,
{
    let p = s.take(k);
    assert(p.drop_last() =~= s.take(k - 1));
    assert(p.last() == s[k - 1]);
    if k == 1 {
        assert(s.take(0) =~= Seq::<ExpressionString>::empty());
        let v = s[0]->Val_0;
        assert(shunt_state(p).0 =~= seq![ExpressionString::Val(v)]);
        lemma_run_push(Seq::empty(), ExpressionString::Val(v), Seq::empty());
        assert(Seq::<ExpressionString>::empty().push(ExpressionString::Val(v)) =~= seq![ExpressionString::Val(v)]);
    } else {
        lemma_prefix_depth(s, k - 1);
        let (out, st) = shunt_state(s.take(k - 1));
        let w = run(out, Seq::empty())->0;
        assert(s[k - 1] is Val <==> is_binary_item(s[k - 2]));
        match s[k - 1] {
            ExpressionString::Val(v) => {
                lemma_run_push(out, ExpressionString::Val(v), Seq::empty());
            },
            ExpressionString::Oper(o) => {
                lemma_drain_depth(out, st, o, w);
                let st2 = drain(out, st, o).1;
                assert(count_binary(st2) == count_binary(st2.drop_last()) + if o is Binary { 1int } else { 0int });
            },
        }
    }
}

/// A sequence written as the grammar allows (an operand first, an operand
/// right after each binary operator, no binary operator last) always
/// denotes an expression: the postfix form never runs out of operands and
/// leaves exactly one value.
pub proof fn lemma_well_formed_builds(s: Seq<ExpressionString>)
    requires
        well_formed(s),
    ensures
        spec_build(s) is Some,
{
    lemma_prefix_depth(s, s.len() as int);
    assert(s.take(s.len() as int) =~= s);
    let (out, st) = shunt_state(s);
    lemma_flush_depth(out, st, run(out, Seq::empty())->0);
}

fn pops_exec(top: &Operation, incoming: &Operation) -> (r: bool)
    ensures
        r == pops(*top, *incoming),
{
    match top {
        Operation::Binary(a) => match incoming {
            Operation::Binary(b) => a.rank() >= b.rank(),
            _ => false,
        },
        Operation::Unary(a) => match incoming {
            Operation::Unary(b) => a.rank() >= b.rank(),
            _ => true,
        },
        _ => true,
    }
}

proof fn lemma_run_fails_on(ts: Seq<ExpressionString>, k: int)
    requires
        0 <= k <= ts.len(),
        run(ts.take(k), Seq::empty()) is None,
    ensures
        run(ts, Seq::empty()) is None,
    decreases ts.len() - k,
{
    if k < ts.len() {
        assert(ts.take(k + 1).drop_last() =~= ts.take(k));
        lemma_run_fails_on(ts, k + 1);
    } else {
        assert(ts.take(k) =~= ts);
    }
}

/// The expression that the written sequence `s` denotes (see
/// `spec_build`): operators are ordered by the shunting yard, then the
/// postfix form is evaluated.
pub fn build_expression(s: Vec<ExpressionString>) -> (r: Option<Expression>)
    ensures
        r == spec_build(s@),
{
    let ghost orig = s@;
    let n = s.len();
    let mut rest = s;
    let mut out: Vec<ExpressionString> = Vec::new();
    let mut st: Vec<Operation> = Vec::new();
    let mut i: usize = 0;
    while rest.len() > 0
        invariant
            i + rest@.len() == orig.len(),
            orig.len() == n,
            rest@ == orig.skip(i as int),
            (out@, st@) == shunt_state(orig.take(i as int)),
        decreases rest@.len(),
    {
        let e = rest.remove(0);
        assert(e == orig[i as int]);
        assert(orig.take(i + 1).drop_last() =~= orig.take(i as int));
        match e {
            ExpressionString::Val(v) => {
                out.push(ExpressionString::Val(v));
            },
            ExpressionString::Oper(o) => {
                let ghost out0 = out@;
                let ghost st0 = st@;
                while st.len() > 0 && pops_exec(&st[st.len() - 1], &o)
                    invariant
                        drain(out@, st@, o) == drain(out0, st0, o),
                    decreases st@.len(),
                {
                    let top = st.pop().unwrap();
                    out.push(ExpressionString::Oper(top));
                }
                st.push(o);
            },
        }
        i += 1;
        assert(rest@ =~= orig.skip(i as int));
    }
    assert(orig.take(i as int) =~= orig);
    let ghost out1 = out@;
    let ghost st1 = st@;
    while st.len() > 0
        invariant
            flush(out@, st@) == flush(out1, st1),
        decreases st@.len(),
    {
        let top = st.pop().unwrap();
        out.push(ExpressionString::Oper(top));
    }
    let ghost post = out@;
    let m = out.len();
    assert(post == to_postfix(orig));
    let mut vals: Vec<Expression> = Vec::new();
    let mut j: usize = 0;
    while out.len() > 0
        invariant
            j + out@.len() == post.len(),
            post.len() == m,
            post == to_postfix(orig),
            orig == s@,
            out@ == post.skip(j as int),
            run(post.take(j as int), Seq::empty()) == Some(vals@),
        decreases out@.len(),
    {
        let t = out.remove(0);
        assert(t == post[j as int]);
        assert(post.take(j + 1).drop_last() =~= post.take(j as int));
        match t {
            ExpressionString::Val(v) => {
                vals.push(v);
            },
            ExpressionString::Oper(o) => {
                match o {
                    Operation::Binary(b) => {
                        if vals.len() < 2 {
                            proof {
                                assert(post.take(j + 1).last() == post[j as int]);
                                assert(run(post.take(j + 1), Seq::empty()) is None);
                                lemma_run_fails_on(post, j + 1);
                            }
                            return None;
                        }
                        let rhs = vals.pop().unwrap();
                        let lhs = vals.pop().unwrap();
                        vals.push(Expression::binary_operation(b, lhs, rhs));
                    },
                    _ => {
                        if vals.len() < 1 {
                            proof {
                                assert(post.take(j + 1).last() == post[j as int]);
                                assert(run(post.take(j + 1), Seq::empty()) is None);
                                lemma_run_fails_on(post, j + 1);
                            }
                            return None;
                        }
                        let v = vals.pop().unwrap();
                        let made = match o {
                            Operation::Call(ps) => Expression::call(v, ps),
                            Operation::Method(m, ps) => Expression::method_call(v, m, ps),
                            Operation::Assign(x) => Expression::assignment(v, x),
                            Operation::Access(m) => Expression::member_access(v, m),
                            Operation::Index(x) => Expression::index_access(v, x),
                            Operation::Unary(u) => Expression::unary_operation(u, v),
                            Operation::Binary(_) => v,
                        };
                        vals.push(made);
                    },
                }
            },
        }
        j += 1;
        assert(out@ =~= post.skip(j as int));
    }
    assert(post.take(j as int) =~= post);
    if vals.len() == 1 {
        vals.pop()
    } else {
        None
    }
}

} // verus!
