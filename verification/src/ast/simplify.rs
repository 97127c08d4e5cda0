use vstd::prelude::*;
use crate::ast::DefinitionKind;
use crate::ast::expressions::{Expression, ExpressionKind, Statement};
use crate::ast::expressions::block::Block;
use crate::ast::expressions::conditional::Conditional;
use crate::ast::expressions::operations::{binary_method, unary_method};
use crate::ast::project::Project;

verus! {

pub proof fn lemma_block_decreases(e: Expression)
    ensures
        *e.kind matches ExpressionKind::Block(blk) ==> forall|i: int| #![trigger blk.statements@[i]] 0 <= i < blk.statements@.len()
            && blk.statements@[i] is Expression ==> decreases_to!(e => blk.statements@[i]->Expression_0),
{
    if let ExpressionKind::Block(blk) = *e.kind {
        assert forall|i: int| #![trigger blk.statements@[i]] 0 <= i < blk.statements@.len() && blk.statements@[i] is Expression
            implies decreases_to!(e => blk.statements@[i]->Expression_0) by {
            assert(decreases_to!(e => e.kind));
            assert(decreases_to!(e.kind => blk));
            assert(decreases_to!(blk => blk.statements));
            assert(decreases_to!(blk.statements => blk.statements@));
            assert(decreases_to!(blk.statements@ => blk.statements@[i]));
            assert(decreases_to!(blk.statements@[i] => blk.statements@[i]->Expression_0));
        }
    }
}

/// `r` is the simplification of `e`: an operator that a core trait
/// implements becomes a call of the trait's method (`a + b` becomes
/// `a.add(b)`, `-a` becomes `a.neg()`), `while c { t }` becomes
/// `loop { if c { t } else { break; } }`, which runs `t` while `c` holds
/// and leaves as soon as it does not, a block has its statements simplified,
/// and anything else stays as it is.
pub open spec fn simplified(e: Expression, r: Expression) -> bool
    decreases e,
{
    match *e.kind {
        ExpressionKind::BinaryOperation(b) => match binary_method(b.operator) {
            Some(name) => {
                &&& *r.kind matches ExpressionKind::MethodCall(m)
                &&& m.object == b.operands[0]
                &&& m.method.ident@ == name
                &&& m.method.template_spec@.len() == 0
                &&& m.params@ == seq![b.operands[1]]
                &&& r.ret_ty is None
                &&& r.constant
            },
            None => r == e,
        },
        ExpressionKind::UnaryOperation(u) => match unary_method(u.operator) {
            Some(name) => {
                &&& *r.kind matches ExpressionKind::MethodCall(m)
                &&& m.object == u.operand
                &&& m.method.ident@ == name
                &&& m.method.template_spec@.len() == 0
                &&& m.params@.len() == 0
                &&& r.ret_ty is None
                &&& r.constant
            },
            None => r == e,
        },
        ExpressionKind::While(w) => {
            &&& r.ret_ty is None
            &&& !r.constant
            &&& *r.kind matches ExpressionKind::Loop(l)
            &&& l.label is None
            &&& l.body.ret_ty is None
            &&& *l.body.kind matches ExpressionKind::Block(body)
            &&& body.statements@.len() == 1
            &&& body.statements@[0] matches Statement::Expression(if_)
            &&& if_.ret_ty is None
            &&& *if_.kind matches ExpressionKind::If(c)
            &&& c.condition == w.condition
            &&& c.then_ == w.then_
            &&& c.else_ matches Some(x)
            &&& x.ret_ty is None
            &&& *x.kind matches ExpressionKind::Block(exit)
            &&& exit.statements@ == seq![Statement::Break(None)]
        },
        ExpressionKind::Block(blk) => {
            &&& r.ret_ty is None
            &&& !r.constant
            &&& *r.kind matches ExpressionKind::Block(blk2)
            &&& blk2.statements@.len() == blk.statements@.len()
            &&& {
                proof { lemma_block_decreases(e); }
                forall|i: int| #![trigger blk.statements@[i]] 0 <= i < blk.statements@.len() ==> if blk.statements@[i] is Expression {
                    blk2.statements@[i] is Expression && simplified(blk.statements@[i]->Expression_0, blk2.statements@[i]->Expression_0)
                } else {
                    blk2.statements@[i] == blk.statements@[i]
                }
            }
        },
        _ => r == e,
    }
}

/// The statements of `b2` are those of `b` simplified.
pub open spec fn block_simplified(b: Block, b2: Block) -> bool {
    &&& b2.statements@.len() == b.statements@.len()
    &&& forall|i: int| #![trigger b.statements@[i]] 0 <= i < b.statements@.len() ==> if b.statements@[i] is Expression {
        b2.statements@[i] is Expression && simplified(b.statements@[i]->Expression_0, b2.statements@[i]->Expression_0)
    } else {
        b2.statements@[i] == b.statements@[i]
    }
}

/// Rewrites operators and `while` loops into method calls and plain loops
/// (see `simplified`).
pub fn basic_simplify_expression(expr: Expression) -> (r: Expression)
    ensures
        simplified(expr, r),
    decreases expr, 1nat,
{
    let ghost e0 = expr;
    let Expression { kind, ret_ty, constant } = expr;
    match *kind {
        ExpressionKind::BinaryOperation(bin) => {
            let method = match bin.operator.into_member_access() {
                Some(m) => m,
                None => {
                    return Expression { kind: Box::new(ExpressionKind::BinaryOperation(bin)), ret_ty, constant };
                },
            };
            let mut ops = bin.operands;
            let mut a = Expression::literal(crate::ast::expressions::literal::Literal::string(String::new()));
            let mut b = Expression::literal(crate::ast::expressions::literal::Literal::string(String::new()));
            std::mem::swap(&mut ops[0], &mut a);
            std::mem::swap(&mut ops[1], &mut b);
            let mut params = Vec::new();
            params.push(b);
            assert(params@ =~= seq![e0.kind->BinaryOperation_0.operands[1]]);
            Expression::method_call(a, method, params)
        },
        ExpressionKind::UnaryOperation(un) => match un.operator.into_member_access() {
            Some(method) => Expression::method_call(un.operand, method, Vec::new()),
            None => Expression { kind: Box::new(ExpressionKind::UnaryOperation(un)), ret_ty, constant },
        },
        ExpressionKind::While(while_loop) => {
            // the loop runs its body while the condition holds, and leaves once it does not
            let mut exit = Block::new();
            exit.add_statement(Statement::Break(None));
            assert(exit.statements@ =~= seq![Statement::Break(None)]);
            let step = Conditional { condition: while_loop.condition, then_: while_loop.then_, else_: Some(Expression::block(exit)) };
            let mut loop_body = Block::new();
            loop_body.add_statement(Statement::Expression(Expression::if_(step)));
            Expression::loop_(Expression::block(loop_body), None)
        },
        ExpressionKind::Block(block) => {
            proof { lemma_block_decreases(e0); }
            Expression::block(basic_simplify_block(block))
        },
        k => Expression { kind: Box::new(k), ret_ty, constant },
    }
}

/// Simplifies each statement expression of the block.
pub fn basic_simplify_block(block: Block) -> (r: Block)
    ensures
        block_simplified(block, r),
    decreases block, 0nat,
{
    let ghost b0 = block;
    let ghost n = block.statements@.len();
    let mut rest = block.statements;
    let mut out = Block::new();
    while rest.len() > 0
        invariant
            out.statements@.len() + rest@.len() == n,
            n == b0.statements@.len(),
            b0 == block,
            rest@ == b0.statements@.skip(out.statements@.len() as int),
            forall|i: int| #![trigger b0.statements@[i]] 0 <= i < out.statements@.len() ==> if b0.statements@[i] is Expression {
                out.statements@[i] is Expression && simplified(b0.statements@[i]->Expression_0, out.statements@[i]->Expression_0)
            } else {
                out.statements@[i] == b0.statements@[i]
            },
        decreases rest@.len(),
    {
        let ghost k = out.statements@.len() as int;
        let ghost before = out.statements@;
        let stmt = rest.remove(0);
        assert(stmt == b0.statements@[k]);
        let s2 = match stmt {
            Statement::Expression(e) => {
                proof {
                    assert(decreases_to!(b0 => b0.statements));
                    assert(decreases_to!(b0.statements => b0.statements@));
                    assert(decreases_to!(b0.statements@ => b0.statements@[k]));
                    assert(decreases_to!(b0.statements@[k] => b0.statements@[k]->Expression_0));
                    assert(e == b0.statements@[k]->Expression_0);
                    assert(decreases_to!(b0 => e));
                }
                Statement::Expression(basic_simplify_expression(e))
            },
            other => other,
        };
        out.add_statement(s2);
        proof {
            assert forall|i: int| #![trigger b0.statements@[i]] 0 <= i < k + 1 implies if b0.statements@[i] is Expression {
                out.statements@[i] is Expression && simplified(b0.statements@[i]->Expression_0, out.statements@[i]->Expression_0)
            } else {
                out.statements@[i] == b0.statements@[i]
            } by {
                if i < k {
                    assert(out.statements@[i] == before[i]);
                }
            }
        }
        assert(rest@ =~= b0.statements@.skip(out.statements@.len() as int));
    }
    out
}

/// Simplifies the body of every function of the root module.
pub fn basic_simplify_project(project: &mut Project)
    ensures
        final(project).root_module.definitions@.len() == old(project).root_module.definitions@.len(),
        forall|i: int| #![trigger final(project).root_module.definitions@[i]] 0 <= i < old(project).root_module.definitions@.len() ==> {
            let d = old(project).root_module.definitions@[i];
            let d2 = final(project).root_module.definitions@[i];
            &&& d2.name == d.name
            &&& d2.visibility == d.visibility
            &&& match d.kind {
                DefinitionKind::FunctionDefinition(f) => d2.kind matches DefinitionKind::FunctionDefinition(f2) && f2.decl == f.decl
                    && block_simplified(f.body, f2.body),
                _ => d2.kind == d.kind,
            }
        },
        final(project).root_module.imports == old(project).root_module.imports,
        final(project).name == old(project).name,
{
    let ghost defs0 = project.root_module.definitions@;
    let n = project.root_module.definitions.len();
    let mut defs: Vec<crate::ast::Definition> = Vec::new();
    std::mem::swap(&mut defs, &mut project.root_module.definitions);
    let mut out: Vec<crate::ast::Definition> = Vec::new();
    while defs.len() > 0
        invariant
            out@.len() + defs@.len() == n,
            n == defs0.len(),
            defs@ == defs0.skip(out@.len() as int),
            forall|i: int| #![trigger out@[i]] 0 <= i < out@.len() ==> {
                let d = defs0[i];
                let d2 = out@[i];
                &&& d2.name == d.name
                &&& d2.visibility == d.visibility
                &&& match d.kind {
                    DefinitionKind::FunctionDefinition(f) => d2.kind matches DefinitionKind::FunctionDefinition(f2) && f2.decl == f.decl
                        && block_simplified(f.body, f2.body),
                    _ => d2.kind == d.kind,
                }
            },
        decreases defs@.len(),
    {
        let ghost k = out@.len() as int;
        let ghost before = out@;
        let d = defs.remove(0);
        assert(d == defs0[k]);
        let crate::ast::Definition { kind, visibility, name } = d;
        let kind = match kind {
            DefinitionKind::FunctionDefinition(f) => {
                let crate::ast::function::FunctionDefinition { decl, body } = f;
                DefinitionKind::FunctionDefinition(crate::ast::function::FunctionDefinition { decl, body: basic_simplify_block(body) })
            },
            other => other,
        };
        out.push(crate::ast::Definition { kind, visibility, name });
        proof {
            assert forall|i: int| #![trigger out@[i]] 0 <= i < k + 1 implies {
                let d = defs0[i];
                let d2 = out@[i];
                &&& d2.name == d.name
                &&& d2.visibility == d.visibility
                &&& match d.kind {
                    DefinitionKind::FunctionDefinition(f) => d2.kind matches DefinitionKind::FunctionDefinition(f2) && f2.decl == f.decl
                        && block_simplified(f.body, f2.body),
                    _ => d2.kind == d.kind,
                }
            } by {
                if i < k {
                    assert(out@[i] == before[i]);
                }
            }
        }
        assert(defs@ =~= defs0.skip(out@.len() as int));
    }
    project.root_module.definitions = out;
}

} // verus!
