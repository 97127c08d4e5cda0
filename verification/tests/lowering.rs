use niebo::ast::expressions::block::Block;
use niebo::ast::expressions::conditional::Conditional;
use niebo::ast::expressions::literal::Literal;
use niebo::ast::expressions::loops::WhileLoop;
use niebo::ast::expressions::{Expression, Statement};
use niebo::ast::project::cimports::{CCache, CEntity, CType, CTypeKind};
use niebo::ast::project::Project;
use niebo::ast::Definition;
use niebo::general::path::QualifiedName;
use niebo::general::types::Type;
use niebo::ir::lowering::{
    lower_expression, lower_project, lower_statement, BlockKind, IrInst, IrRet, IrType, IrValue, LowerEnv, LowerError,
    LowerState,
};
use niebo::parser::items::parse_module;

fn sized(kind: CTypeKind, size: usize) -> CType {
    CType {
        kind,
        size: Some(size),
        display_name: String::new(),
        pointee: None,
        canonical: None,
        result: None,
        arguments: None,
        variadic: false,
        element: None,
        record: None,
    }
}

fn int_lit(s: &str) -> Expression {
    Expression::literal(Literal::integer(s.to_string(), None, None))
}

fn ident(s: &str) -> Expression {
    Expression::identifier(QualifiedName::from_ident(s))
}

fn fresh() -> LowerState {
    LowerState {
        blocks: vec![BlockKind::Entry],
        insts: vec![],
        current: 0,
        next_reg: 0,
        locals: vec![],
        labels: vec![],
    }
}

fn no_env() -> LowerEnv {
    LowerEnv { functions: vec![], types: vec![] }
}

fn is_int(v: &IrValue, text: &str) -> bool {
    matches!(v, IrValue::Int(t) if t == text)
}

#[test]
fn a_project_declares_its_c_imports_and_defines_its_functions() {
    let m = parse_module("header stdio::puts;\nfn main() -> i32 { puts(\"hi\"); return 0; }").unwrap();
    let p = Project::load_script(m, None);
    let mut cache = CCache::new();
    let puts = CEntity {
        name: "puts".to_string(),
        is_function: true,
        variadic: false,
        result: Some(sized(CTypeKind::Int, 4)),
        params: vec![(Some("c".to_string()), sized(CTypeKind::Int, 4))],
    };
    cache.resolve_c_definitions("stdio", vec![puts]);
    let ir = lower_project(&p, &cache).unwrap();
    assert_eq!(ir.name, p.name);
    assert_eq!(ir.functions.len(), 2);
    let f = &ir.functions[0];
    assert_eq!(f.name, "puts");
    assert!(f.external);
    assert_eq!(f.params, vec![IrType::I32]);
    assert_eq!(f.ret, IrRet::Value(IrType::I32));
    let main = &ir.functions[1];
    assert_eq!(main.name, "main");
    assert!(!main.external);
    assert_eq!(main.ret, IrRet::Void);
    assert_eq!(main.blocks, vec![BlockKind::Entry]);
    assert_eq!(main.insts.len(), 2);
    match &main.insts[0] {
        (0, IrInst::Call { dst: Some(0), callee, args }) => {
            assert_eq!(callee, "puts");
            assert!(matches!(&args[..], [IrValue::Str(s)] if s == "hi"));
        },
        other => panic!("not the call: {other:?}"),
    }
    assert!(matches!(&main.insts[1], (0, IrInst::Return(Some(v))) if is_int(v, "0")));
}

#[test]
fn a_missing_c_symbol_is_an_unknown_name() {
    let m = parse_module("header stdio::puts;").unwrap();
    let p = Project::load_script(m, None);
    assert!(matches!(lower_project(&p, &CCache::new()), Err(LowerError::UnknownName)));
}

#[test]
fn while_branches_between_its_three_blocks() {
    let mut body = Block::new();
    body.add_statement(Statement::Break(Some("w".to_string())));
    let w = WhileLoop { label: Some("w".to_string()), condition: int_lit("1"), then_: Expression::block(body) };
    let e = Expression::while_(w);
    let mut st = fresh();
    let r = lower_expression(&e, &no_env(), &vec![], &mut st, 100);
    assert!(matches!(r, Ok(None)));
    assert_eq!(st.blocks, vec![BlockKind::Entry, BlockKind::WhileCond, BlockKind::WhileBody, BlockKind::WhileEnd]);
    assert_eq!(st.current, 3);
    assert_eq!(st.insts.len(), 4);
    assert!(matches!(&st.insts[0], (0, IrInst::Jump(1))));
    assert!(matches!(&st.insts[1], (1, IrInst::Branch { cond, then_: 2, else_: 3 }) if is_int(cond, "1")));
    assert!(matches!(&st.insts[2], (2, IrInst::Jump(3))));
    assert!(matches!(&st.insts[3], (2, IrInst::Jump(1))));
}

#[test]
fn if_without_else_joins_after_its_branch() {
    let c = Conditional { condition: int_lit("1"), then_: Expression::block(Block::new()), else_: None };
    let mut st = fresh();
    let r = lower_expression(&Expression::if_(c), &no_env(), &vec![], &mut st, 100);
    assert!(matches!(r, Ok(None)));
    assert_eq!(st.blocks, vec![BlockKind::Entry, BlockKind::IfCond, BlockKind::IfThen, BlockKind::IfEnd]);
    assert!(matches!(&st.insts[0], (0, IrInst::Jump(1))));
    assert!(matches!(&st.insts[1], (1, IrInst::Branch { then_: 2, else_: 3, .. })));
    assert!(matches!(&st.insts[2], (2, IrInst::Jump(3))));
    assert_eq!(st.current, 3);
}

#[test]
fn a_local_gets_a_room_and_is_loaded_when_read() {
    let mut st = fresh();
    let def = Statement::Definition(Definition::variable("x".to_string(), int_lit("5"), false, Some(Type::int_t())));
    assert_eq!(lower_statement(&def, &no_env(), &vec![], &mut st, 100), Ok(()));
    assert!(matches!(&st.insts[0], (0, IrInst::Alloca { dst: 0, ty: IrType::I32 })));
    assert!(matches!(&st.insts[1], (0, IrInst::Store { ptr: IrValue::Reg(0), val }) if is_int(val, "5")));
    let r = lower_expression(&ident("x"), &no_env(), &vec![], &mut st, 100);
    assert!(matches!(r, Ok(Some(IrValue::Reg(1)))));
    assert!(matches!(&st.insts[2], (0, IrInst::Load { dst: 1, ty: IrType::I32, ptr: IrValue::Reg(0) })));
    assert_eq!(st.next_reg, 2);
}

#[test]
fn what_cannot_be_lowered_says_why() {
    let mut st = fresh();
    let float = Expression::literal(Literal::float("1.5".to_string(), None));
    assert!(matches!(lower_expression(&float, &no_env(), &vec![], &mut st, 100), Err(LowerError::Unsupported)));
    assert!(matches!(lower_expression(&ident("y"), &no_env(), &vec![], &mut st, 100), Err(LowerError::UnknownName)));
    let call = Expression::call(ident("f"), vec![]);
    assert!(matches!(lower_expression(&call, &no_env(), &vec![], &mut st, 100), Err(LowerError::UnknownName)));
    let add = Expression::binary_operation(
        niebo::ast::expressions::operations::BinaryOperator::Addition,
        int_lit("1"),
        int_lit("2"),
    );
    assert!(matches!(lower_expression(&add, &no_env(), &vec![], &mut st, 100), Err(LowerError::Untyped)));
    assert!(matches!(lower_expression(&ident("nullptr"), &no_env(), &vec![], &mut st, 100), Ok(Some(IrValue::Null))));
    assert!(matches!(lower_expression(&int_lit("3"), &no_env(), &vec![], &mut st, 0), Err(LowerError::Unsupported)));
}
