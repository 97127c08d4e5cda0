use niebo::ast::expressions::operations::UnaryOperation;
use niebo::ast::validator::expressions::{resolve_binary, validate_binary, validate_unary, validate_while};
use niebo::ast::expressions::operations::BinaryOperation;
use niebo::ast::expressions::block::Block;
use niebo::ast::expressions::literal::{Literal, LiteralInfo};
use niebo::ast::expressions::operations::{BinaryOperator, UnaryOperator};
use niebo::ast::expressions::intrinsic::IntrinsicKind;
use niebo::ast::expressions::loops::WhileLoop;
use niebo::ast::expressions::{Expression, ExpressionKind, Statement};
use niebo::ast::function::FunctionBuilder;
use niebo::ast::module::Module;
use niebo::ast::project::cimports::{rec_from, CCache, CEntity, CRecord, CType, CTypeKind};
use niebo::ast::project::{entry_file_name, module_file_name, Chmura, Lib, LibKinds, ManifestProject, Project};
use niebo::ast::simplify::{basic_simplify_block, basic_simplify_expression};
use niebo::ast::traits::insert_function;
use niebo::ast::validator::expressions::{intrinsic_params, intrinsic_ret_ty, literal_type, resolve_ret_ty, validate_expression};
use niebo::ast::validator::expressions::{resolve_block, resolve_identifier, validate_block, validate_local_definition};
use niebo::ast::project::cimports::record_to_expand;
use niebo::general::types::Params;
use niebo::ast::validator::{Symbol, ValidationError, Validator};
use niebo::ast::{Definition, DefinitionKind, Visibility};
use niebo::general::path::{QualifiedName, QualifiedNameSegment};
use niebo::general::types::{PrimitiveType, Type, TypeKind};
use niebo::ir::core_project::create_core_project;
use niebo::parser::items::parse_module;
use niebo::parser::precedence::{build_expression, ExpressionString, Operation};
use niebo::ast::expressions::conditional::Conditional;

fn ctype(kind: CTypeKind) -> CType {
    CType {
        kind,
        size: None,
        display_name: String::new(),
        pointee: None,
        canonical: None,
        result: None,
        arguments: None,
        variadic: false,
        element: None,
        record: None,
    }
}

fn sized(kind: CTypeKind, size: usize) -> CType {
    let mut t = ctype(kind);
    t.size = Some(size);
    t
}

fn ident(s: &str) -> Expression {
    Expression::identifier(QualifiedName::from_ident(s))
}

fn int_lit(s: &str) -> Expression {
    Expression::literal(Literal::integer(s.to_string(), None, None))
}

#[test]
fn c_scalars_take_their_width_from_their_size() {
    let mut vis = Vec::new();
    let mut deps = Vec::new();
    let t = rec_from(&sized(CTypeKind::Int, 4), &mut vis, &mut deps);
    assert_eq!(t.kind, TypeKind::Primitive(PrimitiveType::Int(32)));
    let t = rec_from(&sized(CTypeKind::ULong, 8), &mut vis, &mut deps);
    assert_eq!(t.kind, TypeKind::Primitive(PrimitiveType::Uint(64)));
    let t = rec_from(&ctype(CTypeKind::Double), &mut vis, &mut deps);
    assert_eq!(t.kind, TypeKind::Primitive(PrimitiveType::Float(32)));
    let t = rec_from(&ctype(CTypeKind::CharS), &mut vis, &mut deps);
    assert_eq!(t.kind, TypeKind::Primitive(PrimitiveType::Int(8)));
    assert!(deps.is_empty());
}

#[test]
fn c_pointer_to_typedef_goes_through_the_canonical_type() {
    let mut td = ctype(CTypeKind::Typedef);
    td.canonical = Some(Box::new(ctype(CTypeKind::UChar)));
    let mut p = ctype(CTypeKind::Pointer);
    p.pointee = Some(Box::new(td));
    let t = rec_from(&p, &mut Vec::new(), &mut Vec::new());
    assert_eq!(t, Type::pointer(Type::uint_p(8)));
}

#[test]
fn c_function_type_has_unnamed_parameters() {
    let mut f = ctype(CTypeKind::FunctionPrototype);
    f.result = Some(Box::new(sized(CTypeKind::Int, 4)));
    f.arguments = Some(vec![ctype(CTypeKind::Bool)]);
    f.variadic = true;
    let t = rec_from(&f, &mut Vec::new(), &mut Vec::new());
    match t.kind {
        TypeKind::Function(ft) => {
            assert!(ft.varidic);
            assert_eq!(ft.ret_ty.kind, TypeKind::Primitive(PrimitiveType::Int(32)));
            assert_eq!(ft.params.len(), 1);
            assert_eq!(ft.params[0].name.as_deref(), Some(""));
            assert_eq!(ft.params[0].ty.kind, TypeKind::Primitive(PrimitiveType::Bool));
        }
        other => panic!("not a function type: {other:?}"),
    }
}

#[test]
fn c_named_record_is_a_named_type_and_a_dependency() {
    let mut r = ctype(CTypeKind::Record);
    r.record = Some(CRecord { name: Some("FILE".to_string()), is_union: false, usr: None, fields: vec![] });
    let mut deps = Vec::new();
    let t = rec_from(&r, &mut Vec::new(), &mut deps);
    assert_eq!(t, Type::named(QualifiedName::from_ident("FILE")));
    assert_eq!(deps, vec!["FILE".to_string()]);
}

#[test]
fn c_anonymous_record_expands_its_fields() {
    let mut r = ctype(CTypeKind::Record);
    r.record = Some(CRecord {
        name: None,
        is_union: true,
        usr: Some("c:@U@anon".to_string()),
        fields: vec![("a".to_string(), sized(CTypeKind::Int, 4)), ("b".to_string(), ctype(CTypeKind::Float))],
    });
    let t = rec_from(&r, &mut Vec::new(), &mut Vec::new());
    assert_eq!(t, Type::union(vec![("a".to_string(), Type::int_p(32)), ("b".to_string(), Type::float_p(32))]));
    // a record already being expanded is an empty struct
    let mut vis = vec!["c:@U@anon".to_string()];
    let t = rec_from(&r, &mut vis, &mut Vec::new());
    assert_eq!(t, Type::struct_t(vec![]));
    assert_eq!(vis, vec!["c:@U@anon".to_string()]);
}

#[test]
fn header_cache_keeps_functions_and_their_records() {
    let mut file = ctype(CTypeKind::Record);
    file.record = Some(CRecord { name: Some("FILE".to_string()), is_union: false, usr: None, fields: vec![] });
    let mut ptr = ctype(CTypeKind::Pointer);
    ptr.pointee = Some(Box::new(file));
    let fclose = CEntity {
        name: "fclose".to_string(),
        is_function: true,
        variadic: false,
        result: Some(sized(CTypeKind::Int, 4)),
        params: vec![(Some("stream".to_string()), ptr)],
    };
    let mut cache = CCache::new();
    cache.resolve_c_definitions("stdio", vec![fclose]);
    assert!(cache.has_header("stdio"));
    let mut path = QualifiedName::from_ident("stdio");
    path.add_ident("fclose");
    assert!(cache.has_definition(&path));
    match &cache.get_definition(&path).kind {
        DefinitionKind::FunctionC(f) => {
            assert_eq!(f.parameters.len(), 1);
            assert_eq!(f.return_ty, Some(Type::int_p(32)));
        }
        other => panic!("not a C function: {other:?}"),
    }
    let mut rec = QualifiedName::from_ident("stdio");
    rec.add_ident("FILE");
    assert!(cache.has_definition(&rec));
    // a header read again is left as it is
    cache.resolve_c_definitions("stdio", vec![]);
    assert!(cache.has_definition(&path));
}

fn manifest(name: &str, lib: bool) -> Chmura {
    Chmura {
        project: ManifestProject { name: name.to_string(), version: "0.1.0".to_string(), edition: "2025".to_string() },
        lib: if lib { Some(Lib { project_type: LibKinds::NieboLib }) } else { None },
    }
}

#[test]
fn project_load_adds_core_dependency_and_operator_imports() {
    let root = parse_module("fn main() -> i32 { return 0; }").unwrap();
    let project = Project::load_inner(manifest("test", false), root, true, Some(create_core_project()));
    assert!(project.external_projects.iter().any(|(n, _)| n == "core"));
    assert!(project
        .root_module
        .imports
        .iter()
        .any(|import| !import.c_import && import.path.to_text() == "core::operations"));
    assert!(project
        .root_module
        .imports
        .iter()
        .any(|import| !import.c_import && import.path.to_text() == "core::traits::Add"));
}

#[test]
fn core_project_load_does_not_depend_on_itself() {
    let root = Module::new();
    let project = Project::load_inner(manifest("core", true), root, true, Some(create_core_project()));
    assert_eq!(project.name, "core");
    assert!(!project.external_projects.iter().any(|(n, _)| n == "core"));
    assert!(project.root_module.imports.is_empty());
}

#[test]
fn core_imports_come_after_the_own_imports() {
    let mut m = parse_module("import a::b;").unwrap();
    Project::add_core_imports(&mut m);
    assert_eq!(m.imports.len(), 14);
    assert_eq!(m.imports[0].path.to_text(), "a::b");
    assert_eq!(m.imports[1].path.to_text(), "core::operations");
    assert_eq!(m.imports[2].path.to_text(), "core::traits::Add");
    assert_eq!(m.imports[13].path.to_text(), "core::traits::Copy");
}

#[test]
fn script_project_has_no_name_and_the_core_dependency() {
    let p = Project::load_script(Module::new(), Some(create_core_project()));
    assert_eq!(p.name, "");
    assert_eq!(p.version, (0, 1, 0));
    assert_eq!(p.root_module.imports.len(), 13);
    assert_eq!(p.external_projects.len(), 1);
    let p = Project::load_script(Module::new(), None);
    assert!(p.external_projects.is_empty());
}

#[test]
fn entry_and_module_files() {
    assert_eq!(entry_file_name(&manifest("x", true)), "lib.nb");
    assert_eq!(entry_file_name(&manifest("x", false)), "main.nb");
    assert_eq!(module_file_name("util"), "util.nb");
}

#[test]
fn adding_a_dependency_twice_keeps_one() {
    let mut p = Project::load_script(Module::new(), None);
    p.add_external_project("core".to_string(), create_core_project());
    p.add_external_project("core".to_string(), create_core_project());
    assert_eq!(p.external_projects.len(), 1);
}

#[test]
fn core_project_has_the_operation_module() {
    let core = create_core_project();
    assert_eq!(core.name, "core");
    assert_eq!(core.root_module.definitions.len(), 1);
    match &core.root_module.definitions[0].kind {
        DefinitionKind::Module(op) => {
            let names: Vec<&str> = op.definitions.iter().map(|d| d.name.as_str()).collect();
            assert_eq!(names, vec!["Add", "Mul", "Sub", "Div"]);
        }
        other => panic!("not a module: {other:?}"),
    }
}

#[test]
fn validator_knows_nullptr_and_finds_globals_before_locals() {
    let mut v = Validator::new();
    let np = v.find_symbol(&QualifiedName::from_ident("nullptr")).unwrap();
    assert!(matches!(np, Symbol::Variable(t) if t == Type::pointer(Type::void())));
    v.push_scope();
    v.register_local_symbol(QualifiedName::from_ident("x"), Symbol::Variable(Type::bool()));
    assert!(matches!(v.find_symbol(&QualifiedName::from_ident("x")), Some(Symbol::Variable(t)) if t == Type::bool()));
    v.register_global_symbol(QualifiedName::from_ident("x"), Symbol::Type(Type::void()));
    assert!(matches!(v.find_symbol(&QualifiedName::from_ident("x")), Some(Symbol::Type(_))));
    v.pop_scope();
    assert!(v.local_scope.is_empty());
    assert!(v.find_symbol(&QualifiedName::from_ident("y")).is_none());
}

#[test]
fn inner_scope_shadows_outer_scope() {
    let mut v = Validator::new();
    v.push_scope();
    v.register_local_symbol(QualifiedName::from_ident("x"), Symbol::Variable(Type::bool()));
    v.push_scope();
    v.register_local_symbol(QualifiedName::from_ident("x"), Symbol::Variable(Type::int_t()));
    assert!(matches!(v.find_symbol(&QualifiedName::from_ident("x")), Some(Symbol::Variable(t)) if t == Type::int_t()));
    v.pop_scope();
    assert!(matches!(v.find_symbol(&QualifiedName::from_ident("x")), Some(Symbol::Variable(t)) if t == Type::bool()));
}

#[test]
fn literal_types() {
    assert_eq!(literal_type(LiteralInfo::String), Type::string());
    assert_eq!(literal_type(LiteralInfo::Integer { signed: None, precision: None }), Type::int_t());
    assert_eq!(literal_type(LiteralInfo::Float { precision: None }), Type::float());
    let mut v = Validator::new();
    let mut e = int_lit("3");
    assert_eq!(resolve_ret_ty(&mut e, &mut v, usize::MAX), Ok(Type::int_t()));
    assert_eq!(e.ret_ty, Some(Type::int_t()));
}

#[test]
fn intrinsic_signatures() {
    assert_eq!(intrinsic_params(IntrinsicKind::AddI { prec: 32 }), vec![Type::int_p(32), Type::int_p(32)]);
    assert_eq!(intrinsic_params(IntrinsicKind::FToU { src_prec: 64, out_prec: 8 }), vec![Type::float_p(64)]);
    assert_eq!(intrinsic_ret_ty(IntrinsicKind::LesU { prec: 16 }), Some(Type::bool()));
    assert_eq!(intrinsic_ret_ty(IntrinsicKind::IToF { src_prec: 32, out_prec: 64 }), Some(Type::float_p(64)));
    assert_eq!(intrinsic_ret_ty(IntrinsicKind::Copy), None);
}

#[test]
fn intrinsic_argument_errors() {
    let mut v = Validator::new();
    let mut e = Expression::intrinsic(IntrinsicKind::AddI { prec: 32 }, vec![int_lit("1")]);
    assert_eq!(validate_expression(&mut e, &mut v, usize::MAX), Err(ValidationError::WrongParameterCount));
    let mut e = Expression::intrinsic(IntrinsicKind::NegU { prec: 32 }, vec![int_lit("1")]);
    assert_eq!(validate_expression(&mut e, &mut v, usize::MAX), Err(ValidationError::WrongParameterType));
    let mut e = Expression::intrinsic(IntrinsicKind::NegI { prec: 32 }, vec![int_lit("1")]);
    assert_eq!(validate_expression(&mut e, &mut v, usize::MAX), Ok(()));
    assert_eq!(resolve_ret_ty(&mut e, &mut v, usize::MAX), Ok(Type::int_p(32)));
}

#[test]
fn expression_errors() {
    let mut v = Validator::new();
    let mut e = ident("missing");
    assert_eq!(validate_expression(&mut e, &mut v, usize::MAX), Err(ValidationError::SymbolNotFound));
    let mut e = Expression::binary_operation(BinaryOperator::Addition, int_lit("1"), Expression::literal(Literal::string("s".to_string())));
    assert_eq!(validate_expression(&mut e, &mut v, usize::MAX), Err(ValidationError::OperandTypesDiffer));
    let mut e = Expression::binary_operation(BinaryOperator::Lesser, int_lit("1"), int_lit("2"));
    assert_eq!(resolve_ret_ty(&mut e, &mut v, usize::MAX), Ok(Type::bool()));
    let w = WhileLoop::new(int_lit("1"), Expression::block(Block::new()));
    let mut e = Expression::while_(w);
    assert_eq!(validate_expression(&mut e, &mut v, usize::MAX), Err(ValidationError::ConditionNotBool));
    let mut e = Expression::call(int_lit("1"), vec![]);
    assert_eq!(resolve_ret_ty(&mut e, &mut v, usize::MAX), Err(ValidationError::CallOfNonFunction));
    let mut e = Expression::unary_operation(niebo::ast::expressions::operations::UnaryOperator::Deref, int_lit("1"));
    assert_eq!(validate_expression(&mut e, &mut v, usize::MAX), Err(ValidationError::CannotDeref));
    let mut e = int_lit("1");
    assert_eq!(validate_expression(&mut e, &mut v, 0), Err(ValidationError::Unsupported));
}

#[test]
fn process_module_defines_every_definition() {
    let mut m = parse_module("type T = i32; fn main() -> i32 { return 0; }").unwrap();
    let mut v = Validator::new();
    let cache = CCache::new();
    assert_eq!(v.process_module(&mut m, &cache), Ok(()));
    assert!(matches!(v.find_symbol(&QualifiedName::from_ident("T")), Some(Symbol::Type(_))));
    assert!(matches!(v.find_symbol(&QualifiedName::from_ident("main")), Some(Symbol::Function { .. })));
    assert_eq!(v.type_data.len(), 1);
}

#[test]
fn process_module_needs_the_c_symbols() {
    let mut m = parse_module("header stdio::puts;").unwrap();
    let mut v = Validator::new();
    assert_eq!(v.process_module(&mut m, &CCache::new()), Err(ValidationError::Unsupported));
    let mut cache = CCache::new();
    let puts = CEntity {
        name: "puts".to_string(),
        is_function: true,
        variadic: false,
        result: Some(sized(CTypeKind::Int, 4)),
        params: vec![],
    };
    cache.resolve_c_definitions("stdio", vec![puts]);
    assert_eq!(v.process_module(&mut m, &cache), Ok(()));
    assert!(matches!(v.find_symbol(&QualifiedName::from_ident("puts")), Some(Symbol::Function { .. })));
}

#[test]
fn addition_becomes_a_method_call() {
    let e = Expression::binary_operation(BinaryOperator::Addition, ident("a"), ident("b"));
    let r = basic_simplify_expression(e);
    assert_eq!(r, Expression::method_call(ident("a"), QualifiedNameSegment::from_ident("add"), vec![ident("b")]));
}

#[test]
fn while_becomes_a_loop_that_leaves_when_the_condition_fails() {
    let w = WhileLoop::new(ident("c"), ident("t"));
    let r = basic_simplify_expression(Expression::while_(w));
    match *r.kind {
        ExpressionKind::Loop(l) => {
            assert!(l.label.is_none());
            match *l.body.kind {
                ExpressionKind::Block(b) => {
                    assert_eq!(b.statements.len(), 1);
                    let mut exit = Block::new();
                    exit.add_statement(Statement::Break(None));
                    let step = Conditional { condition: ident("c"), then_: ident("t"), else_: Some(Expression::block(exit)) };
                    assert_eq!(b.statements[0], Statement::Expression(Expression::if_(step)));
                }
                other => panic!("loop body is not a block: {other:?}"),
            }
        }
        other => panic!("not a loop: {other:?}"),
    }
}

#[test]
fn block_simplification_leaves_other_statements() {
    let mut b = Block::new();
    b.add_statement(Statement::Break(None));
    b.add_statement(Statement::Expression(int_lit("1")));
    let r = basic_simplify_block(b);
    assert_eq!(r.statements, vec![Statement::Break(None), Statement::Expression(int_lit("1"))]);
}

#[test]
fn shunting_yard_applies_postfix_operators_in_order() {
    let s = vec![
        ExpressionString::Val(ident("a")),
        ExpressionString::Oper(Operation::Call(vec![])),
        ExpressionString::Oper(Operation::Access(QualifiedNameSegment::from_ident("b"))),
        ExpressionString::Oper(Operation::Binary(BinaryOperator::Addition)),
        ExpressionString::Val(ident("c")),
    ];
    let e = build_expression(s).unwrap();
    let expected = Expression::binary_operation(
        BinaryOperator::Addition,
        Expression::member_access(Expression::call(ident("a"), vec![]), QualifiedNameSegment::from_ident("b")),
        ident("c"),
    );
    assert_eq!(e, expected);
    // a binary operator without its right operand leaves no single value
    let bad = vec![ExpressionString::Val(ident("a")), ExpressionString::Oper(Operation::Binary(BinaryOperator::Addition))];
    assert!(build_expression(bad).is_none());
}

#[test]
fn trait_functions_are_kept_one_per_name() {
    let mut fs = Vec::new();
    let f = || match FunctionBuilder::new("f").set_body(Block::new()).build_def().kind {
        DefinitionKind::FunctionDefinition(f) => f,
        _ => unreachable!(),
    };
    insert_function(&mut fs, "f".to_string(), f());
    insert_function(&mut fs, "g".to_string(), f());
    insert_function(&mut fs, "f".to_string(), f());
    assert_eq!(fs.len(), 2);
    assert_eq!(fs[0].0, "f");
    assert_eq!(fs[1].0, "g");
}

#[test]
fn global_definition_needs_a_return_type() {
    let mut v = Validator::new();
    let mut d = FunctionBuilder::new("f").set_body(Block::new()).build_def();
    assert_eq!(v.validate_global_definition(&mut d), Err(ValidationError::Unsupported));
    let mut d = Definition::type_def("T".to_string(), Type::bool(), Visibility::Public);
    assert_eq!(v.validate_global_definition(&mut d), Ok(()));
}

#[test]
fn process_project_validates_the_root_module() {
    let mut p = Project::load_script(parse_module("fn main() -> i32 { return 0; }").unwrap(), None);
    p.name = "demo".to_string();
    let mut v = Validator::new();
    let out = v.process_project(p, &CCache::new()).unwrap();
    assert_eq!(out.name, "demo");
    assert!(matches!(v.find_symbol(&QualifiedName::from_ident("main")), Some(Symbol::Function { .. })));
    let bad = Project::load_script(parse_module("header stdio::puts;").unwrap(), None);
    assert_eq!(Validator::new().process_project(bad, &CCache::new()).map(|p| p.name), Err(ValidationError::Unsupported));
}

#[test]
fn identifier_type_is_the_variable_type() {
    let mut v = Validator::new();
    v.register_global_symbol(QualifiedName::from_ident("x"), Symbol::Variable(Type::primitive(PrimitiveType::Uint(8))));
    let mut e = ident("x");
    assert_eq!(validate_expression(&mut e, &mut v, usize::MAX), Ok(()));
    assert_eq!(resolve_ret_ty(&mut e, &mut v, usize::MAX), Ok(Type::primitive(PrimitiveType::Uint(8))));
    assert_eq!(e.ret_ty, Some(Type::primitive(PrimitiveType::Uint(8))));
    let mut m = Expression::method_call(ident("x"), QualifiedNameSegment::from_ident("f"), vec![]);
    assert_eq!(resolve_ret_ty(&mut m, &mut v, usize::MAX), Err(ValidationError::MethodCallNotImplemented));
}

#[test]
fn conditional_needs_a_bool_and_matching_branches() {
    let mut v = Validator::new();
    let c = Conditional { condition: Expression::literal(Literal::string("s".to_string())), then_: int_lit("1"), else_: None };
    let mut e = Expression::if_(c);
    assert_eq!(validate_expression(&mut e, &mut v, usize::MAX), Err(ValidationError::ConditionNotBool));
    let cond = Expression::binary_operation(BinaryOperator::Equal, int_lit("1"), int_lit("2"));
    let c = Conditional { condition: cond, then_: int_lit("1"), else_: Some(Expression::literal(Literal::string("s".to_string()))) };
    let mut e = Expression::if_(c);
    assert_eq!(validate_expression(&mut e, &mut v, usize::MAX), Err(ValidationError::BranchTypesDiffer));
}

#[test]
fn type_equivalence_through_same_as() {
    let a = Type::pointer(Type::primitive(PrimitiveType::Int(32)));
    let b = a.copy();
    assert!(a.same_as(&b) && b.same_as(&a));
    assert!(!a.same_as(&Type::primitive(PrimitiveType::Int(32))));
}

#[test]
fn header_cache_keeps_the_last_function_of_a_name_and_records_yield_to_functions() {
    let mut rec = ctype(CTypeKind::Record);
    rec.record = Some(CRecord { name: Some("f".to_string()), is_union: false, usr: None, fields: vec![] });
    let first = CEntity { name: "f".to_string(), is_function: true, variadic: false, result: Some(sized(CTypeKind::Int, 4)), params: vec![] };
    let second = CEntity {
        name: "f".to_string(),
        is_function: true,
        variadic: true,
        result: Some(sized(CTypeKind::Int, 8)),
        params: vec![(None, rec)],
    };
    let mut cache = CCache::new();
    cache.resolve_c_definitions("h", vec![first, second]);
    let mut path = QualifiedName::from_ident("h");
    path.add_ident("f");
    match &cache.get_definition(&path).kind {
        DefinitionKind::FunctionC(f) => {
            assert!(f.varidic);
            assert_eq!(f.return_ty, Some(Type::int_p(64)));
            assert_eq!(f.parameters.len(), 1);
            assert_eq!(f.parameters[0].0, None);
        }
        other => panic!("the record replaced the function: {other:?}"),
    }
}

#[test]
fn operators_with_a_core_trait_become_its_method() {

    let e = Expression::binary_operation(BinaryOperator::Substraction, ident("a"), ident("b"));
    let expected = Expression::method_call(ident("a"), QualifiedNameSegment::from_ident("sub"), vec![ident("b")]);
    assert_eq!(basic_simplify_expression(e), expected);
    let e = Expression::binary_operation(BinaryOperator::LesserOrEqual, ident("a"), ident("b"));
    let expected = Expression::method_call(ident("a"), QualifiedNameSegment::from_ident("leq"), vec![ident("b")]);
    assert_eq!(basic_simplify_expression(e), expected);
    let e = Expression::unary_operation(UnaryOperator::Negation, ident("a"));
    let expected = Expression::method_call(ident("a"), QualifiedNameSegment::from_ident("neg"), vec![]);
    assert_eq!(basic_simplify_expression(e), expected);
    let e = Expression::binary_operation(BinaryOperator::BitwiseOr, ident("a"), ident("b"));
    assert_eq!(basic_simplify_expression(e), Expression::binary_operation(BinaryOperator::BitwiseOr, ident("a"), ident("b")));
    let e = Expression::unary_operation(UnaryOperator::Deref, ident("p"));
    assert_eq!(basic_simplify_expression(e), Expression::unary_operation(UnaryOperator::Deref, ident("p")));
}

#[test]
fn intrinsic_names_read_back_as_the_same_intrinsic() {
    let kinds = vec![
        IntrinsicKind::Copy,
        IntrinsicKind::AddI { prec: 32 },
        IntrinsicKind::GreF { prec: 64 },
        IntrinsicKind::NegU { prec: 8 },
        IntrinsicKind::IToF { src_prec: 32, out_prec: 64 },
        IntrinsicKind::FToU { src_prec: 64, out_prec: 16 },
    ];
    for k in kinds {
        let name = k.to_name();
        assert!(!IntrinsicKind::name_splits_badly(&name));
        assert_eq!(IntrinsicKind::from_str(&name), Ok(k));
    }
    assert_eq!(IntrinsicKind::AddI { prec: 32 }.to_name(), "add_i32");
    assert_eq!(IntrinsicKind::IToF { src_prec: 32, out_prec: 64 }.to_name(), "i32_to_f64");
}

#[test]
fn implementations_record_methods_and_traits_once() {
    let mut m = parse_module(
        "type V = i32;
extend V { fn add(o: V) -> V { return o; } fn add(o: i32) -> i32 { return o; } }
extend V as Add { fn add(o: V) -> V { return o; } }",
    )
    .unwrap();
    let mut v = Validator::new();
    assert_eq!(v.process_module(&mut m, &CCache::new()), Ok(()));
    v.register_impl(&m.impls[0]);
    assert_eq!(v.register_trait_impl(&m.trait_impls[0]), Ok(()));
    let (_, data) = &v.type_data[0];
    assert_eq!(data.methods.len(), 1);
    assert_eq!(data.methods[0].0, "add");
    assert_eq!(data.methods[0].1.parameters[0].1, Type::primitive(PrimitiveType::Int(32)));
    assert_eq!(data.traits, vec![QualifiedName::from_ident("Add")]);
    // the same trait a second time is refused
    assert_eq!(v.register_trait_impl(&m.trait_impls[0]), Err(ValidationError::AlreadyImplements));
    // a type that is not known is left alone
    let u = niebo::ast::TraitImplementation {
        trait_path: QualifiedName::from_ident("Add"),
        target: QualifiedName::from_ident("Unknown"),
        definitions: vec![],
    };
    assert_eq!(v.register_trait_impl(&u), Ok(()));
    assert_eq!(v.type_data.len(), 1);
}

#[test]
fn call_takes_the_type_that_its_function_returns() {
    let mut v = Validator::new();
    v.push_scope();
    v.register_global_symbol(
        QualifiedName::from_ident("f"),
        Symbol::Function { ret_ty: Type::bool(), params: vec![Type::int_t()] },
    );
    let mut call = Expression::call(ident("f"), vec![int_lit("3")]);
    assert_eq!(validate_expression(&mut call, &mut v, 100), Ok(()));
    let t = resolve_ret_ty(&mut call, &mut v, 100).unwrap();
    assert_eq!(t.kind, TypeKind::Primitive(PrimitiveType::Bool));
    assert!(call.ret_ty.is_some());
    if let ExpressionKind::Call(c) = &*call.kind {
        assert!(c.parameters[0].ret_ty.is_some());
        assert!(c.called.ret_ty.is_some());
    } else {
        panic!("the call changed its kind");
    }
}

#[test]
fn calling_a_variable_is_refused() {
    let mut v = Validator::new();
    v.push_scope();
    v.register_local_symbol(QualifiedName::from_ident("n"), Symbol::Variable(Type::int_t()));
    let mut call = Expression::call(ident("n"), vec![]);
    assert_eq!(resolve_ret_ty(&mut call, &mut v, 100), Err(ValidationError::CallOfNonFunction));
    assert!(call.ret_ty.is_none());
}

#[test]
fn deref_needs_a_pointer_and_ref_makes_one() {
    let mut v = Validator::new();
    v.push_scope();
    v.register_local_symbol(QualifiedName::from_ident("n"), Symbol::Variable(Type::int_t()));
    let mut d = Expression::unary_operation(UnaryOperator::Deref, ident("n"));
    assert_eq!(resolve_ret_ty(&mut d, &mut v, 100), Err(ValidationError::CannotDeref));
    let mut r = Expression::unary_operation(UnaryOperator::Ref, ident("n"));
    let t = resolve_ret_ty(&mut r, &mut v, 100).unwrap();
    assert_eq!(t.kind, TypeKind::Pointer(Box::new(Type::int_t())));
    let mut back = Expression::unary_operation(UnaryOperator::Deref, r);
    let t = resolve_ret_ty(&mut back, &mut v, 100).unwrap();
    assert_eq!(t.kind, TypeKind::Primitive(PrimitiveType::Int(32)));
}

#[test]
fn indexing_needs_elements() {
    let mut v = Validator::new();
    v.push_scope();
    v.register_local_symbol(QualifiedName::from_ident("n"), Symbol::Variable(Type::int_t()));
    v.register_local_symbol(QualifiedName::from_ident("p"), Symbol::Variable(Type::pointer(Type::bool())));
    let mut bad = Expression::index_access(ident("n"), int_lit("0"));
    assert_eq!(resolve_ret_ty(&mut bad, &mut v, 100), Err(ValidationError::IndexNotArray));
    assert_eq!(validate_expression(&mut bad, &mut v, 100), Err(ValidationError::IndexNotArray));
    let mut good = Expression::index_access(ident("p"), int_lit("0"));
    assert_eq!(validate_expression(&mut good, &mut v, 100), Ok(()));
    let t = resolve_ret_ty(&mut good, &mut v, 100).unwrap();
    assert_eq!(t.kind, TypeKind::Primitive(PrimitiveType::Bool));
}

#[test]
fn assignment_sides_must_agree() {
    let mut v = Validator::new();
    v.push_scope();
    v.register_local_symbol(QualifiedName::from_ident("n"), Symbol::Variable(Type::int_t()));
    v.register_local_symbol(QualifiedName::from_ident("b"), Symbol::Variable(Type::bool()));
    let mut bad = Expression::assignment(ident("b"), int_lit("1"));
    assert_eq!(validate_expression(&mut bad, &mut v, 100), Err(ValidationError::AssignmentTypesDiffer));
    let mut good = Expression::assignment(ident("n"), int_lit("1"));
    assert_eq!(validate_expression(&mut good, &mut v, 100), Ok(()));
    let t = resolve_ret_ty(&mut good, &mut v, 100).unwrap();
    assert_eq!(t.kind, TypeKind::Primitive(PrimitiveType::Int(32)));
}

#[test]
fn process_module_records_each_type_once_by_name() {
    let mut m = parse_module("type A = i32;\ntype B = bool;\ntype A = u8;").unwrap();
    let mut v = Validator::new();
    assert_eq!(v.process_module(&mut m, &CCache::new()), Ok(()));
    assert_eq!(v.type_data.len(), 2);
    assert_eq!(v.type_data[0].0, QualifiedName::from_ident("A"));
    assert_eq!(v.type_data[1].0, QualifiedName::from_ident("B"));
    assert_eq!(v.type_data[0].1.ty.kind, TypeKind::Alias(Box::new(Type::primitive(PrimitiveType::Uint(8)))));
    // the last definition of a name is what the name stands for
    match v.find_symbol(&QualifiedName::from_ident("A")) {
        Some(Symbol::Type(t)) => assert_eq!(t.kind, TypeKind::Alias(Box::new(Type::primitive(PrimitiveType::Uint(8))))),
        other => panic!("{:?}", other),
    }
}

#[test]
fn leaf_operands_decide_the_checks() {
    let mut v = Validator::new();
    v.push_scope();
    v.register_local_symbol(QualifiedName::from_ident("b"), Symbol::Variable(Type::bool()));
    let mut same = BinaryOperation::new(BinaryOperator::Addition, int_lit("1"), int_lit("2"));
    assert_eq!(validate_binary(&mut same, &mut v, 10), Ok(()));
    let mut mixed = BinaryOperation::new(BinaryOperator::Addition, int_lit("1"), ident("b"));
    assert_eq!(validate_binary(&mut mixed, &mut v, 10), Err(ValidationError::OperandTypesDiffer));
    let mut cmp = BinaryOperation::new(BinaryOperator::Equal, int_lit("1"), int_lit("2"));
    assert_eq!(resolve_binary(&mut cmp, &mut v, 10).unwrap().kind, TypeKind::Primitive(PrimitiveType::Bool));
    let mut neg = UnaryOperation::new(UnaryOperator::Negation, ident("b"));
    assert_eq!(validate_unary(&mut neg, &mut v, 10), Err(ValidationError::CannotNegate));
    let mut w = WhileLoop::new(int_lit("1"), ident("b"));
    assert_eq!(validate_while(&mut w, &mut v, 10), Err(ValidationError::ConditionNotBool));
}

#[test]
fn assigning_an_integer_to_nullptr_is_refused() {
    let mut v = Validator::new();
    let mut e = Expression::assignment(ident("nullptr"), int_lit("0"));
    assert_eq!(validate_expression(&mut e, &mut v, 100), Err(ValidationError::AssignmentTypesDiffer));
    assert!(v.find_symbol(&QualifiedName::from_ident("nullptr")).is_some());
    assert!(v.find_symbol(&QualifiedName::from_ident("null")).is_none());
}

#[test]
fn c_import_name_resolves_to_its_function_type() {
    let mut m = parse_module("header stdio::puts;").unwrap();
    let mut v = Validator::new();
    let mut cache = CCache::new();
    let puts = CEntity {
        name: "puts".to_string(),
        is_function: true,
        variadic: false,
        result: Some(sized(CTypeKind::Int, 4)),
        params: vec![(Some("c".to_string()), sized(CTypeKind::Short, 2))],
    };
    cache.resolve_c_definitions("stdio", vec![puts]);
    assert_eq!(v.process_module(&mut m, &cache), Ok(()));
    let int_t = rec_from(&sized(CTypeKind::Int, 4), &mut vec![], &mut vec![]);
    let short_t = rec_from(&sized(CTypeKind::Short, 2), &mut vec![], &mut vec![]);
    let expected = Type::function(vec![Params { name: None, ty: short_t }], int_t, false);
    let mut e = ident("puts");
    assert_eq!(resolve_ret_ty(&mut e, &mut v, 10), Ok(expected));
}

#[test]
fn a_function_name_gives_unnamed_parameters_of_its_types() {
    let mut v = Validator::new();
    v.register_global_symbol(
        QualifiedName::from_ident("f"),
        Symbol::Function { ret_ty: Type::bool(), params: vec![Type::int_t(), Type::string()] },
    );
    let t = resolve_identifier(&QualifiedName::from_ident("f"), &v).unwrap();
    let TypeKind::Function(f) = t.kind else { panic!("not a function type") };
    assert_eq!(f.params.len(), 2);
    assert_eq!(f.params[0], Params { name: None, ty: Type::int_t() });
    assert_eq!(f.params[1], Params { name: None, ty: Type::string() });
    assert_eq!(*f.ret_ty, Type::bool());
    assert!(!f.varidic);
}

fn settled_block() -> Block {
    let mut b = Block::new();
    b.add_statement(Statement::Expression(int_lit("1")));
    b.add_statement(Statement::Definition(Definition::type_def("T".to_string(), Type::bool(), Visibility::Public)));
    b.add_statement(Statement::Definition(Definition::variable("x".to_string(), int_lit("2"), false, Some(Type::int_t()))));
    b.add_statement(Statement::Definition(FunctionBuilder::new("g").set_ret_ty(Type::void()).set_body(Block::new()).build_def()));
    b.add_statement(Statement::Expression(ident("nullptr")));
    b
}

#[test]
fn a_block_of_leaves_and_definitions_checks_and_is_void() {
    let mut v = Validator::new();
    let mut b = settled_block();
    assert_eq!(validate_block(&mut b, &mut v, 3), Ok(()));
    assert!(v.local_scope.is_empty());
    let mut b = settled_block();
    assert_eq!(resolve_block(&mut b, &mut v, 2).unwrap(), Type::void());
    let mut e = Expression::block(settled_block());
    assert_eq!(validate_expression(&mut e, &mut v, 3), Ok(()));
    let mut b = settled_block();
    assert_eq!(validate_block(&mut b, &mut v, 0), Err(ValidationError::Unsupported));
}

#[test]
fn local_definitions_define_their_names() {
    let mut v = Validator::new();
    v.push_scope();
    let mut f = FunctionBuilder::new("g").set_ret_ty(Type::bool()).add_param("a".to_string(), Type::int_t()).set_body(Block::new()).build_def();
    assert_eq!(validate_local_definition(&mut f, &mut v, 2), Ok(()));
    assert!(matches!(v.find_symbol(&QualifiedName::from_ident("g")), Some(Symbol::Function { .. })));
    let mut no_ret = FunctionBuilder::new("h").set_body(Block::new()).build_def();
    assert_eq!(validate_local_definition(&mut no_ret, &mut v, 2), Err(ValidationError::Unsupported));
    let mut t = Definition::type_def("T".to_string(), Type::bool(), Visibility::Public);
    assert_eq!(validate_local_definition(&mut t, &mut v, 0), Ok(()));
    let mut x = Definition::variable("x".to_string(), ident("g"), false, Some(Type::bool()));
    assert_eq!(validate_local_definition(&mut x, &mut v, 2), Ok(()));
    assert!(matches!(v.find_symbol(&QualifiedName::from_ident("x")), Some(Symbol::Variable(t)) if t == Type::bool()));
    let mut y = Definition::variable("y".to_string(), ident("nowhere"), false, Some(Type::bool()));
    assert_eq!(validate_local_definition(&mut y, &mut v, 2), Err(ValidationError::SymbolNotFound));
}

#[test]
fn operations_on_leaves_check_as_their_types_say() {
    let mut v = Validator::new();
    let mut add = Expression::binary_operation(BinaryOperator::Addition, int_lit("1"), int_lit("2"));
    assert_eq!(validate_expression(&mut add, &mut v, 2), Ok(()));
    let s = Expression::literal(Literal::string("s".to_string()));
    let mut mixed = Expression::binary_operation(BinaryOperator::Lesser, int_lit("1"), s);
    assert_eq!(validate_expression(&mut mixed, &mut v, 2), Err(ValidationError::OperandTypesDiffer));
    v.register_global_symbol(QualifiedName::from_ident("flag"), Symbol::Variable(Type::bool()));
    let mut w = Expression::while_(WhileLoop::new(ident("flag"), int_lit("1")));
    assert_eq!(validate_expression(&mut w, &mut v, 2), Ok(()));
    let mut w = Expression::while_(WhileLoop::new(int_lit("0"), int_lit("1")));
    assert_eq!(validate_expression(&mut w, &mut v, 2), Err(ValidationError::ConditionNotBool));
    let c = Conditional { condition: ident("flag"), then_: int_lit("1"), else_: Some(int_lit("2")) };
    let mut e = Expression::if_(c);
    assert_eq!(validate_expression(&mut e, &mut v, 2), Ok(()));
}

#[test]
fn only_anonymous_records_not_being_read_are_expanded() {
    let mut t = ctype(CTypeKind::Record);
    t.display_name = String::new();
    let anon = CRecord { name: None, is_union: true, usr: None, fields: vec![] };
    assert_eq!(record_to_expand(&t, &anon, &vec![]), Some("union:<anonymous>".to_string()));
    assert_eq!(record_to_expand(&t, &anon, &vec!["union:<anonymous>".to_string()]), None);
    let named = CRecord { name: Some("point".to_string()), is_union: false, usr: None, fields: vec![] };
    assert_eq!(record_to_expand(&t, &named, &vec![]), None);
    let keyed = CRecord { name: None, is_union: false, usr: Some("c:@S@x".to_string()), fields: vec![] };
    assert_eq!(record_to_expand(&t, &keyed, &vec![]), Some("c:@S@x".to_string()));
}

#[test]
fn paths_default_to_no_segments_and_name_types() {
    let q = QualifiedName::default();
    assert!(q.v.is_empty());
    let seg = QualifiedNameSegment::default();
    assert!(seg.ident.is_empty() && seg.template_spec.is_empty());
    let t: Type = Type::from(QualifiedName::from_ident("T"));
    assert_eq!(t.kind, TypeKind::Named(QualifiedName::from_ident("T")));
    let p: Params = Params::from(("a".to_string(), Type::bool()));
    assert_eq!(p, Params { name: Some("a".to_string()), ty: Type::bool() });
    let p: Params = Params::from(Type::bool());
    assert_eq!(p.name, None);
}
