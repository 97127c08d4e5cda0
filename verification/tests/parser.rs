use niebo::parser::expressions::parse_postfixes;
use niebo::parser::precedence::{build_expression, ExpressionString, Operation};
use niebo::parser::string_literal;
use niebo::parser::type_handling::{handle_template_def, parse_ident_root};
use niebo::ast::expressions::intrinsic::IntrinsicKind;
use niebo::ast::expressions::literal::Literal;
use niebo::ast::expressions::operations::BinaryOperator;
use niebo::ast::expressions::{Expression, ExpressionKind, Statement};
use niebo::general::path::{QualifiedName, QualifiedNameSegment};
use niebo::parser::expressions::{handle_block_expression, handle_expression};
use niebo::parser::items::{parse_module, Rule, TokenStream};
use niebo::parser::ParseError;
use niebo::parser::items::{handle_c_imports, handle_imports, handle_niebo_imports, handle_fn_params};
use niebo::ast::DefinitionKind;
use niebo::general::types::{PrimitiveType, Type, TypeKind};
use niebo::parser::type_handling::{
    handle_type_expression, handle_type_alias_definitions, handle_type_definitions, handle_type_struct_declaration, handle_type_struct_definitions,
    handle_type_union_definitions, handle_type_variant_definitions,
};
use niebo::ast::function::FunctionBuilder;

fn chars(s: &str) -> Vec<char> {
    s.chars().collect()
}

fn expr(s: &str) -> Expression {
    handle_expression(&chars(s), 0, true).unwrap().value
}

fn ident(s: &str) -> Expression {
    Expression::identifier(QualifiedName::from_ident(s))
}

#[test]
fn test_operator_precedence() {
    let parsed = expr("a().b + c.d()");
    let expected = Expression::binary_operation(
        BinaryOperator::Addition,
        Expression::member_access(Expression::call(ident("a"), vec![]), QualifiedNameSegment::from_ident("b")),
        Expression::method_call(ident("c"), QualifiedNameSegment::from_ident("d"), vec![]),
    );
    assert!(parsed == expected, "{:?} != {:?}", parsed, expected);
}

#[test]
fn test_member_access() {
    let exp = expr("(a().b)(10)");
    if let ExpressionKind::Call(call) = &*exp.kind {
        if let ExpressionKind::MemberAccess(member) = &*call.called.kind {
            assert!(member.member == QualifiedNameSegment::from_ident("b"));
            if let ExpressionKind::Call(called2) = &*member.object.kind {
                assert!(matches!(&*called2.called.kind, ExpressionKind::Identifier(_)))
            } else {
                panic!("b was not a member access from a()")
            }
        } else {
            panic!("called was not (a().b)")
        }
    } else {
        panic!("there was no (a().b)(10) call!")
    }
}

#[test]
fn test_method_call() {
    let exp = expr("a().b(10)");
    if let ExpressionKind::MethodCall(method) = &*exp.kind {
        assert!(method.method == QualifiedNameSegment::from_ident("b"));
        if let ExpressionKind::Call(called2) = &*method.object.kind {
            assert!(matches!(&*called2.called.kind, ExpressionKind::Identifier(_)))
        } else {
            panic!("b(10) was not a method call from a()")
        }
    } else {
        panic!("there was no a().b(10) method call!")
    }
}

#[test]
fn test_functions() {
    TokenStream::parse(
        Rule::fn_definition,
        "fn main() -> i32 {
    let i = 0;
    while i < 10 {
        i++;
    }
    return 0;
}",
    )
    .unwrap();
    TokenStream::parse(Rule::ident_root, "a: A<T>, b: B, c: B<T: S<T>>").unwrap();
}

#[test]
fn test_params() {
    TokenStream::parse(Rule::ident_root, "a: A, b: B, c: B").unwrap();
    TokenStream::parse(Rule::ident_root, "a: A<T>, b: B, c: B<T: S<T>>").unwrap();
}

#[test]
fn test_traits() {
    TokenStream::parse(
        Rule::definition,
        "inter TestTrait<T: A<T>>{\n\ttype DeclaredType = T;\n\ttype DefinedType = T;\n\tfn func() -> Type;\n}",
    )
    .unwrap();

    TokenStream::parse(
        Rule::trait_definition,
        "inter testTrait<T: Add<T>>{
    type TestType = i32;
    
    fn test_function<T: Add<T>>(t: T) -> T ;
}",
    )
    .unwrap();
}

#[test]
fn test_extend_impl() {
    TokenStream::parse(
        Rule::trait_implementation,
        "extend Vec2 as Add<Vec2> {
    fn add(other: Vec2) -> Vec2 {
        return self;
    }
}",
    )
    .unwrap();
}

#[test]
fn test_idents() {
    TokenStream::parse(Rule::stream, "").unwrap();
    TokenStream::parse(Rule::ident_root, "test_ident<T: A<T>, U: B>").unwrap();
    TokenStream::parse(Rule::ident_root, "test_ident").unwrap();

    TokenStream::parse(Rule::fn_declaration, "fn test_fn_declaration(t: T, u: U) -> U").unwrap();
    TokenStream::parse(
        Rule::fn_declaration,
        "fn test_fn_declaration_template<T: global::A<T> >(t: T, u: U) -> U",
    )
    .unwrap();
}

#[test]
fn test_call_expression() {
    TokenStream::parse(Rule::expression, "printf(\"%d\", i)").unwrap();
}

#[test]
fn test_intrinsic_expression() {
    let parsed = expr("@add_i32(self, other)");
    match parsed.kind.as_ref() {
        ExpressionKind::Intrinsic(intrinsic) => {
            assert_eq!(intrinsic.kind, IntrinsicKind::AddI { prec: 32 });
            assert_eq!(intrinsic.parameters.len(), 2);
        }
        other => panic!("expected intrinsic expression, got {other:?}"),
    }
}

#[test]
fn test_conversion_intrinsic_expression() {
    let parsed = expr("@i32_to_u32(self)");
    match parsed.kind.as_ref() {
        ExpressionKind::Intrinsic(intrinsic) => {
            assert_eq!(intrinsic.kind, IntrinsicKind::IToU { src_prec: 32, out_prec: 32 });
            assert_eq!(intrinsic.parameters.len(), 1);
        }
        other => panic!("expected intrinsic expression, got {other:?}"),
    }
}

#[test]
fn test_neg_intrinsic_expression() {
    let parsed = expr("@neg_i32(self)");
    match parsed.kind.as_ref() {
        ExpressionKind::Intrinsic(intrinsic) => {
            assert_eq!(intrinsic.kind, IntrinsicKind::NegI { prec: 32 });
            assert_eq!(intrinsic.parameters.len(), 1);
        }
        other => panic!("expected intrinsic expression, got {other:?}"),
    }
}

#[test]
fn test_copy_intrinsic_expression() {
    let parsed = expr("@copy(i32)");
    match parsed.kind.as_ref() {
        ExpressionKind::Intrinsic(intrinsic) => {
            assert_eq!(intrinsic.kind, IntrinsicKind::Copy);
            assert_eq!(intrinsic.parameters.len(), 1);
        }
        other => panic!("expected intrinsic expression, got {other:?}"),
    }
}

#[test]
fn test_grouped_header_import() {
    let module = parse_module("header stdio::{printf, scanf, };\n").unwrap();
    assert_eq!(module.imports.len(), 2);
    assert!(module.imports.iter().all(|import| import.c_import));
    assert_eq!(module.imports[0].path.to_text(), "stdio::printf");
    assert_eq!(module.imports[1].path.to_text(), "stdio::scanf");
}

#[test]
fn test_grouped_niebo_import() {
    let module = parse_module("import core::{i32, traits, };\n").unwrap();
    assert_eq!(module.imports.len(), 2);
    assert!(module.imports.iter().all(|import| !import.c_import));
    assert_eq!(module.imports[0].path.to_text(), "core::i32");
    assert_eq!(module.imports[1].path.to_text(), "core::traits");
}

#[test]
fn test_string_escape_newline() {
    let parsed = expr("\"a\\nb\"");
    let expected = Expression::literal(Literal::string("a\nb".to_string()));
    assert_eq!(parsed, expected);
}

#[test]
fn test_break() {
    let text = "{
    scanf(\"%d\", &i);

    if i == 0{
        printf(\"exiting...\");
        break;
    }
}";
    let block = handle_block_expression(&chars(text), 0, true).unwrap().value;
    assert_eq!(block.statements.len(), 2);
    let Statement::Expression(if_) = &block.statements[1] else { panic!("no if statement") };
    let ExpressionKind::If(cond) = if_.kind.as_ref() else { panic!("no if expression") };
    let ExpressionKind::Block(then_) = cond.then_.kind.as_ref() else { panic!("then is not a block") };
    if let Statement::Break(None) = then_.statements[1] {
        return;
    }
    panic!("break statement not found");
}

#[test]
fn test_min_clike() {
    TokenStream::parse(
        Rule::module,
        "header stdio::printf;

type TestType = i32;

fn main() -> i32 {
    let i = 0;
    while i < 10 {
        printf(\"%d\", i);
        i = i + 1;
    }
    return 0;
} ",
    )
    .unwrap();
}

#[test]
fn module_text_builds_definitions_in_order() {
    let m = parse_module(
        "header stdio::printf;

type TestType = i32;

fn main() -> i32 {
    let i = 0;
    while i < 10 {
        printf(\"%d\", i);
        i = i + 1;
    }
    return 0;
} ",
    )
    .unwrap();
    assert_eq!(m.imports.len(), 1);
    assert!(m.imports[0].c_import);
    assert_eq!(m.definitions.len(), 2);
    assert_eq!(m.definitions[0].name, "TestType");
    assert_eq!(m.definitions[1].name, "main");
}

#[test]
fn template_function_is_refused_by_the_tree_builder() {
    let r = parse_module("fn id<T>(t: T) -> T { return t; }");
    assert!(matches!(r, Err(ParseError::Unsupported(_))));
    assert!(TokenStream::parse(Rule::module, "fn id<T>(t: T) -> T { return t; }").is_ok());
}

#[test]
fn unknown_intrinsic_is_an_error() {
    let r = handle_expression(&chars("@frobnicate_i32(a)"), 0, true);
    assert!(matches!(r, Err(ParseError::UnknownIntrinsic(_))));
}

#[test]
fn header_import_needs_two_segments() {
    let r = parse_module("header stdio;");
    assert!(matches!(r, Err(ParseError::BadHeaderPath(_))));
}

#[test]
fn trailing_garbage_is_refused() {
    assert!(matches!(parse_module("type A = i32; ?"), Err(ParseError::UnexpectedInput(_))));
    assert!(TokenStream::parse(Rule::module, "type A = i32; ?").is_err());
}

#[test]
fn too_wide_integer_type_is_an_error() {
    let r = parse_module("type A = i99999999999999999999999;");
    assert!(matches!(r, Err(ParseError::NumberTooLarge(_))));
}

#[test]
fn binary_operators_nest_to_the_right() {
    let parsed = expr("a * b + c");
    let expected = Expression::binary_operation(
        BinaryOperator::Multiplication,
        ident("a"),
        Expression::binary_operation(BinaryOperator::Addition, ident("b"), ident("c")),
    );
    assert_eq!(parsed, expected);
}

#[test]
fn grouped_import_path_names_each_segment_under_the_prefix() {
    let cs = chars("stdio::{printf, puts,}");
    let p = niebo::parser::type_handling::handle_grouped_import_path(&cs, 0, true).unwrap();
    assert_eq!(p.end, cs.len());
    let mut printf = QualifiedName::from_ident("stdio");
    printf.add_ident("printf");
    let mut puts = QualifiedName::from_ident("stdio");
    puts.add_ident("puts");
    assert_eq!(p.value, vec![printf, puts]);
    let plain = chars("stdio::printf");
    assert_eq!(
        niebo::parser::type_handling::handle_grouped_import_path(&plain, 0, true).map(|p| p.end),
        Err(ParseError::UnexpectedInput(13))
    );
}

#[test]
fn c_and_niebo_imports_are_told_apart_by_keyword() {
    let c = chars("header stdio::{printf, puts};");
    let imports = handle_c_imports(&c, 0, true).unwrap().value;
    assert_eq!(imports.len(), 2);
    assert!(imports.iter().all(|i| i.c_import && i.path.len() == 2));
    assert_eq!(handle_niebo_imports(&c, 0, true).map(|p| p.end), Err(ParseError::UnexpectedInput(0)));
    let n = chars("import core::traits::Add;");
    let imports = handle_niebo_imports(&n, 0, true).unwrap().value;
    assert_eq!(imports.len(), 1);
    assert!(!imports[0].c_import);
    assert_eq!(imports[0].path.len(), 3);
    assert_eq!(handle_imports(&n, 0, true).unwrap().value, imports);
    let bad = chars("header stdio;");
    assert_eq!(handle_c_imports(&bad, 0, true).map(|p| p.end), Err(ParseError::BadHeaderPath(6)));
    let other = chars("fn f() {}");
    assert_eq!(handle_imports(&other, 0, true).map(|p| p.end), Err(ParseError::UnexpectedInput(0)));
}

#[test]
fn type_definitions_by_keyword() {
    let alias = chars("type Int = i32;");
    let d = handle_type_alias_definitions(&alias, 0, true).unwrap();
    assert_eq!(d.end, alias.len());
    assert_eq!(d.value.name, "Int");
    assert_eq!(d.value.kind, DefinitionKind::Type(Type::alias(Type::primitive(PrimitiveType::Int(32)))));
    assert_eq!(handle_type_definitions(&alias, 0, true).unwrap().value, d.value);

    let st = chars("struct P { x: i32, y: u8 }");
    let d = handle_type_struct_definitions(&st, 0, true).unwrap().value;
    assert_eq!(d.name, "P");
    let members = vec![
        ("x".to_string(), Type::primitive(PrimitiveType::Int(32))),
        ("y".to_string(), Type::primitive(PrimitiveType::Uint(8))),
    ];
    assert_eq!(d.kind, DefinitionKind::Type(Type::struct_t(members)));

    let decl = chars("struct Opaque;");
    assert_eq!(handle_type_struct_declaration(&decl, 0).unwrap().value, "Opaque");

    let un = chars("union U { a: i32 }");
    assert_eq!(handle_type_union_definitions(&un, 0, true).map(|p| p.end), Err(ParseError::Unsupported(0)));
    let u = handle_type_union_definitions(&un, 0, false).unwrap().value;
    assert!(matches!(u.kind, DefinitionKind::Type(Type { kind: TypeKind::Union(_) })));
    let va = chars("variant V { a: i32 }");
    assert_eq!(handle_type_variant_definitions(&va, 0, true).map(|p| p.end), Err(ParseError::Unsupported(0)));
    assert_eq!(handle_type_definitions(&va, 0, true).map(|p| p.end), Err(ParseError::Unsupported(0)));
    let none = chars("fn f() {}");
    assert_eq!(handle_type_definitions(&none, 0, true).map(|p| p.end), Err(ParseError::UnexpectedInput(0)));
}

#[test]
fn fn_params_are_appended_to_the_builder() {
    let cs = chars("a: i32, b: u8");
    let builder = FunctionBuilder::new("f").add_anon_param(Type::bool());
    let p = handle_fn_params(&cs, 0, true, builder).unwrap();
    assert_eq!(p.end, cs.len());
    assert_eq!(
        p.value.params,
        vec![
            (None, Type::bool()),
            (Some("a".to_string()), Type::primitive(PrimitiveType::Int(32))),
            (Some("b".to_string()), Type::primitive(PrimitiveType::Uint(8))),
        ]
    );
    assert_eq!(p.value.ident, "f");
}

#[test]
fn readme_example_parses_into_an_import_and_main() {
    let m = parse_module(
        "header stdio::printf;

fn main() -> testType {
    let mut i : i32 = 0;
    while i < 10 {
        printf(\"%d\\n\", i);
        i = i + 1;
    }
}",
    )
    .unwrap();
    assert_eq!(m.imports.len(), 1);
    assert!(m.imports[0].c_import);
    let mut printf = QualifiedName::from_ident("stdio");
    printf.add_ident("printf");
    assert_eq!(m.imports[0].path, printf);
    assert_eq!(m.definitions.len(), 1);
    assert_eq!(m.definitions[0].name, "main");
    match &m.definitions[0].kind {
        DefinitionKind::FunctionDefinition(f) => {
            assert_eq!(f.body.statements.len(), 2);
            match &f.body.statements[0] {
                Statement::Definition(d) => {
                    assert_eq!(d.name, "i");
                    assert!(matches!(&d.kind, niebo::ast::DefinitionKind::Variable(v) if v.mutable));
                }
                other => panic!("expected the let, got {:?}", other),
            }
            match &f.body.statements[1] {
                Statement::Expression(e) => assert!(matches!(&*e.kind, ExpressionKind::While(_))),
                other => panic!("expected the while, got {:?}", other),
            }
        }
        other => panic!("expected a function, got {:?}", other),
    }
}

#[test]
fn prefix_operators_apply_to_the_whole_expression() {
    use_prefix("-a + b", niebo::ast::expressions::operations::UnaryOperator::Negation);
    use_prefix("&x", niebo::ast::expressions::operations::UnaryOperator::Ref);
    use_prefix("*p.q", niebo::ast::expressions::operations::UnaryOperator::Deref);
}

fn use_prefix(text: &str, op: niebo::ast::expressions::operations::UnaryOperator) {
    match &*expr(text).kind {
        ExpressionKind::UnaryOperation(u) => assert_eq!(u.operator, op),
        other => panic!("{} gave {:?}", text, other),
    }
}

fn number(s: &str) -> Expression {
    Expression::literal(Literal::integer(s.to_string(), None, None))
}

#[test]
fn test_operator_chain_reads_back() {
    let cs = chars("  a + 1 * b;");
    let p = handle_expression(&cs, 0, true).unwrap();
    let expected = Expression::binary_operation(
        BinaryOperator::Addition,
        ident("a"),
        Expression::binary_operation(BinaryOperator::Multiplication, number("1"), ident("b")),
    );
    assert!(p.value == expected, "{:?} != {:?}", p.value, expected);
    assert_eq!(p.end, cs.len() - 1);
}

#[test]
fn test_operator_chain_nests_to_the_right() {
    let cs = chars("x * 20 == y)");
    let p = handle_expression(&cs, 0, true).unwrap();
    let expected = Expression::binary_operation(
        BinaryOperator::Multiplication,
        ident("x"),
        Expression::binary_operation(BinaryOperator::Equal, number("20"), ident("y")),
    );
    assert!(p.value == expected, "{:?} != {:?}", p.value, expected);
    assert_eq!(p.end, cs.len() - 1);
}

#[test]
fn test_single_operand_chain() {
    let cs = chars("count }");
    let p = handle_expression(&cs, 0, true).unwrap();
    assert!(p.value == ident("count"));
    assert_eq!(p.end, 5);
}

#[test]
fn test_type_expression_shapes() {
    let r = handle_type_expression(&chars(" &mut i64"), 0, true).unwrap();
    assert_eq!(r.value.kind, TypeKind::MutableReference(Box::new(Type::primitive(PrimitiveType::Int(64)))));
    assert_eq!(r.end, 9);
    let p = handle_type_expression(&chars("*mut Node"), 0, true).unwrap();
    assert_eq!(p.value.kind, TypeKind::MutablePointer(Box::new(Type::named(QualifiedName::from_ident("Node")))));
    let n = handle_type_expression(&chars("geo::Point,"), 0, true).unwrap();
    match n.value.kind {
        TypeKind::Named(q) => assert_eq!(q.v.len(), 2),
        other => panic!("{:?}", other),
    }
    assert_eq!(n.end, 10);
}

#[test]
fn test_expression_statement_takes_its_semicolon() {
    let cs = chars("a + 2 ;x");
    let p = niebo::parser::expressions::handle_statement(&cs, 0, true).unwrap();
    let expected = Expression::binary_operation(BinaryOperator::Addition, ident("a"), number("2"));
    match p.value {
        Statement::Expression(e) => assert!(e == expected),
        other => panic!("{:?}", other),
    }
    assert_eq!(p.end, 7);
    assert_eq!(TokenStream::parse(Rule::statement, "a + 2 ;x"), Ok(7));
    assert_eq!(TokenStream::parse(Rule::expression, "a + 2 ;x"), Ok(5));
}

#[test]
fn test_path_reads_back_segment_by_segment() {
    let cs = chars("  core::op::Add ;");
    let p = niebo::parser::type_handling::handle_qualified_name(&cs, 0, true).unwrap();
    assert_eq!(p.end, 15);
    let idents: Vec<String> = p.value.v.iter().map(|s| s.ident.clone()).collect();
    assert_eq!(idents, vec!["core".to_string(), "op".to_string(), "Add".to_string()]);
    assert!(p.value.v.iter().all(|s| s.template_spec.is_empty()));
    assert_eq!(TokenStream::parse(Rule::path, "a::b"), Ok(4));
}

#[test]
fn test_block_of_chains_reads_back() {
    let cs = chars(" { a + 1; 7 ;b*c; } x");
    let p = handle_block_expression(&cs, 0, true).unwrap();
    assert_eq!(p.end, 19);
    assert_eq!(p.value.statements.len(), 3);
    let expected = vec![
        Expression::binary_operation(BinaryOperator::Addition, ident("a"), number("1")),
        number("7"),
        Expression::binary_operation(BinaryOperator::Multiplication, ident("b"), ident("c")),
    ];
    for (s, e) in p.value.statements.iter().zip(expected.iter()) {
        match s {
            Statement::Expression(x) => assert!(x == e, "{:?} != {:?}", x, e),
            other => panic!("{:?}", other),
        }
    }
}

#[test]
fn test_template_definition_and_ident_root() {
    assert_eq!(handle_template_def(&chars(" <T, U>x"), 0), Some(7));
    assert_eq!(handle_template_def(&chars("<>"), 0), Some(2));
    assert_eq!(handle_template_def(&chars("T"), 0), None);
    let r = parse_ident_root(&chars("name<A> rest"), 0).unwrap();
    assert_eq!((r.0.as_str(), r.1, r.2), ("name", true, 7));
    let r = parse_ident_root(&chars(" plain rest"), 0).unwrap();
    assert_eq!((r.0.as_str(), r.1, r.2), ("plain", false, 6));
    assert!(parse_ident_root(&chars("fn"), 0).is_none());
}

#[test]
fn test_string_literal_bounds() {
    let r = string_literal(&chars("  \"a\\\"b\" x"), 0).unwrap();
    assert_eq!(r.0, "\"a\\\"b\"");
    assert_eq!(r.1, 8);
    assert!(string_literal(&chars("\"open"), 0).is_none());
    assert!(string_literal(&chars("x\"\""), 0).is_none());
}

#[test]
fn test_module_blank_and_refused() {
    let m = parse_module("  \n\t ").unwrap();
    assert!(m.definitions.is_empty() && m.imports.is_empty());
    assert_eq!(parse_module("  42").map(|_| ()), Err(ParseError::UnexpectedInput(2)));
}

#[test]
fn test_call_of_chains_reads_back() {
    let cs = chars("f(a + 1, 2);");
    let p = handle_expression(&cs, 0, true).unwrap();
    let expected = Expression::call(
        ident("f"),
        vec![Expression::binary_operation(BinaryOperator::Addition, ident("a"), number("1")), number("2")],
    );
    assert!(p.value == expected, "{:?} != {:?}", p.value, expected);
    assert_eq!(p.end, 11);
}

#[test]
fn a_run_of_imports_gives_each_import_in_order() {
    let m = parse_module("header stdio::puts;\nimport core::{i32, u32, };\nimport core::traits::Add;\n").unwrap();
    assert_eq!(m.imports.len(), 4);
    assert!(m.imports[0].c_import);
    assert_eq!(m.imports[0].path.to_text(), "stdio::puts");
    assert!(!m.imports[1].c_import && !m.imports[2].c_import && !m.imports[3].c_import);
    assert_eq!(m.imports[1].path.to_text(), "core::i32");
    assert_eq!(m.imports[2].path.to_text(), "core::u32");
    assert_eq!(m.imports[3].path.to_text(), "core::traits::Add");
    assert!(m.definitions.is_empty() && m.impls.is_empty() && m.trait_impls.is_empty());
}

#[test]
fn a_grouped_path_ends_after_its_brace() {
    let cs = chars("stdio :: { printf , scanf } ;");
    let p = niebo::parser::type_handling::handle_grouped_import_path(&cs, 0, true).unwrap();
    assert_eq!(p.end, 27);
    assert_eq!(p.value.len(), 2);
    assert_eq!(p.value[1].to_text(), "stdio::scanf");
    let single = chars("core::traits::Add;");
    let q = niebo::parser::type_handling::handle_import_path(&single, 0, true).unwrap();
    assert_eq!(q.end, 17);
    assert_eq!(q.value.len(), 1);
    assert_eq!(q.value[0].to_text(), "core::traits::Add");
}

#[test]
fn let_reads_name_mutability_type_and_value() {
    let cs = chars("let mut x: i32 = a + 1;");
    let p = niebo::parser::expressions::handle_let_declaration(&cs, 0, true).unwrap();
    assert_eq!(p.end, cs.len());
    match p.value {
        Statement::Definition(d) => {
            assert_eq!(d.name, "x");
            match d.kind {
                DefinitionKind::Variable(v) => {
                    assert!(v.mutable);
                    assert_eq!(v.ty.unwrap().kind, TypeKind::Primitive(PrimitiveType::Int(32)));
                    assert!(v.value == expr("a + 1"));
                },
                _ => panic!("not a variable"),
            }
        },
        _ => panic!("not a definition"),
    }
    let cs = chars("let y = 5;");
    match niebo::parser::expressions::handle_let_declaration(&cs, 0, true).unwrap().value {
        Statement::Definition(d) => match d.kind {
            DefinitionKind::Variable(v) => {
                assert!(!v.mutable && v.ty.is_none());
                assert_eq!(d.name, "y");
            },
            _ => panic!("not a variable"),
        },
        _ => panic!("not a definition"),
    }
}

#[test]
fn fn_definition_reads_parameters_return_type_and_body() {
    let cs = chars("fn add(a: i32, b: u8,) -> i64 { a + b; a * 2; }");
    let p = niebo::parser::items::handle_fn_definitions(&cs, 0, true).unwrap();
    assert_eq!(p.end, cs.len());
    assert_eq!(p.value.name, "add");
    match p.value.kind {
        DefinitionKind::FunctionDefinition(f) => {
            assert_eq!(f.decl.parameters.len(), 2);
            assert_eq!(f.decl.parameters[0].0, "a");
            assert_eq!(f.decl.parameters[0].1.kind, TypeKind::Primitive(PrimitiveType::Int(32)));
            assert_eq!(f.decl.parameters[1].0, "b");
            assert_eq!(f.decl.parameters[1].1.kind, TypeKind::Primitive(PrimitiveType::Uint(8)));
            assert_eq!(f.decl.return_ty.unwrap().kind, TypeKind::Primitive(PrimitiveType::Int(64)));
            assert_eq!(f.body.statements.len(), 2);
            assert!(f.body.statements[1] == Statement::Expression(expr("a * 2")));
        },
        _ => panic!("not a function"),
    }
    let d = niebo::parser::items::handle_definition(&chars("fn main() { }"), 0, true).unwrap().value;
    assert_eq!(d.name, "main");
    assert_eq!(d.visibility, niebo::ast::Visibility::Private);
}

#[test]
fn trait_keeps_each_declared_function_under_its_name() {
    let cs = chars("inter Shape { fn area(s: i32) -> i32; fn name(); fn area(t: u32); }");
    let p = niebo::parser::items::handle_trait_definitions(&cs, 0, true).unwrap();
    assert_eq!(p.end, cs.len());
    assert_eq!(p.value.name, "Shape");
    match p.value.kind {
        DefinitionKind::Trait(t) => {
            assert_eq!(t.functions.len(), 2);
            assert_eq!(t.functions[0].0, "area");
            assert_eq!(t.functions[0].1.decl.parameters.len(), 1);
            assert_eq!(t.functions[0].1.decl.parameters[0].0, "t");
            assert!(t.functions[0].1.decl.return_ty.is_none());
            assert_eq!(t.functions[1].0, "name");
            assert!(t.functions[1].1.body.statements.is_empty());
        },
        _ => panic!("not a trait"),
    }
}

#[test]
fn type_definitions_read_alias_and_struct_members() {
    let cs = chars("type Count = u64;");
    let p = handle_type_definitions(&cs, 0, true).unwrap();
    assert_eq!(p.end, cs.len());
    assert_eq!(p.value.name, "Count");
    match p.value.kind {
        DefinitionKind::Type(t) => match t.kind {
            TypeKind::Alias(inner) => assert_eq!(inner.kind, TypeKind::Primitive(PrimitiveType::Uint(64))),
            _ => panic!("not an alias"),
        },
        _ => panic!("not a type"),
    }
    let cs = chars("struct Point { x: i32, y: f64, }");
    let p = handle_type_definitions(&cs, 0, true).unwrap();
    assert_eq!(p.end, cs.len());
    assert_eq!(p.value.name, "Point");
    match p.value.kind {
        DefinitionKind::Type(t) => match t.kind {
            TypeKind::Struct(s) => {
                assert_eq!(s.members.len(), 2);
                assert_eq!(s.members[1].0, "y");
                assert_eq!(s.members[1].1.kind, TypeKind::Primitive(PrimitiveType::Float(64)));
            },
            _ => panic!("not a struct"),
        },
        _ => panic!("not a type"),
    }
}

#[test]
fn a_module_of_imports_and_functions_keeps_both_in_order() {
    let m = parse_module("import core::i32;\nfn main() -> i32 { a + 1; }\nheader stdio::{puts};\nfn helper(x: u8) { x; }\n").unwrap();
    assert_eq!(m.imports.len(), 2);
    assert_eq!(m.imports[0].path.to_text(), "core::i32");
    assert!(m.imports[1].c_import);
    assert_eq!(m.imports[1].path.to_text(), "stdio::puts");
    assert_eq!(m.definitions.len(), 2);
    assert_eq!(m.definitions[0].name, "main");
    assert_eq!(m.definitions[1].name, "helper");
    match &m.definitions[1].kind {
        DefinitionKind::FunctionDefinition(f) => {
            assert_eq!(f.decl.parameters.len(), 1);
            assert_eq!(f.body.statements.len(), 1);
        },
        _ => panic!("not a function"),
    }
}

#[test]
fn a_block_keeps_each_statement_in_order_break_included() {
    let cs = chars("{ a + 1; break; b; }");
    let p = handle_block_expression(&cs, 0, true).unwrap();
    assert_eq!(p.end, cs.len());
    assert_eq!(p.value.statements.len(), 3);
    assert!(p.value.statements[0] == Statement::Expression(expr("a + 1")));
    assert!(p.value.statements[1] == Statement::Break(None));
    assert!(p.value.statements[2] == Statement::Expression(expr("b")));
}

#[test]
fn a_name_with_postfixes_builds_them_in_turn() {
    let e = expr("a().b(10).c");
    let expected = Expression::member_access(
        Expression::method_call(Expression::call(ident("a"), vec![]), QualifiedNameSegment::from_ident("b"), vec![expr("10")]),
        QualifiedNameSegment::from_ident("c"),
    );
    assert!(e == expected, "{:?} != {:?}", e, expected);
    let p = handle_expression(&chars("x.y(1, z + 2) ;"), 0, true).unwrap();
    assert_eq!(p.end, 13);
    match *p.value.kind {
        ExpressionKind::MethodCall(m) => {
            assert_eq!(m.params.len(), 2);
            assert!(m.params[1] == expr("z + 2"));
        },
        _ => panic!("not a method call"),
    }
}

#[test]
fn postfixes_then_an_operator_take_the_term_after_it() {
    let cs = chars("().b + c.d()");
    let mut items = vec![ExpressionString::Val(ident("a"))];
    let e = parse_postfixes(&cs, 0, true, &mut items).unwrap();
    assert_eq!(e, cs.len());
    assert_eq!(items.len(), 5);
    assert!(items[3] == ExpressionString::Oper(Operation::Binary(BinaryOperator::Addition)));
    let built = build_expression(items).unwrap();
    let expected = Expression::binary_operation(
        BinaryOperator::Addition,
        Expression::member_access(Expression::call(ident("a"), vec![]), QualifiedNameSegment::from_ident("b")),
        Expression::method_call(ident("c"), QualifiedNameSegment::from_ident("d"), vec![]),
    );
    assert!(built == expected);
}

#[test]
fn a_module_keeps_aliases_traits_structs_and_functions_in_order() {
    let m = parse_module("type Count = u64;\ninter Shape { fn area(s: i32) -> i32; }\nheader stdio::puts;\nstruct Point { x: i32 }\nfn main() { }\n").unwrap();
    assert_eq!(m.imports.len(), 1);
    assert_eq!(m.definitions.len(), 4);
    assert_eq!(m.definitions[0].name, "Count");
    assert_eq!(m.definitions[1].name, "Shape");
    assert_eq!(m.definitions[2].name, "Point");
    assert_eq!(m.definitions[3].name, "main");
    assert!(matches!(m.definitions[1].kind, DefinitionKind::Trait(_)));
    assert!(matches!(m.definitions[2].kind, DefinitionKind::Type(_)));
    assert!(matches!(m.definitions[3].kind, DefinitionKind::FunctionDefinition(_)));
}

#[test]
fn continue_is_a_statement_of_its_own() {
    let block = handle_block_expression(&chars("{ continue; }"), 0, true).unwrap().value;
    assert_eq!(block.statements.len(), 1);
    assert!(matches!(block.statements[0], Statement::Continue));
    assert_eq!(TokenStream::parse(Rule::statement, "continue;"), Ok(9));
}

#[test]
fn const_and_imports_inside_a_block_are_refused() {
    let r = handle_block_expression(&chars("{ const x = 1; }"), 0, true);
    assert!(matches!(r, Err(ParseError::Unsupported(_))));
    let r = handle_block_expression(&chars("{ import a::b; }"), 0, true);
    assert!(matches!(r, Err(ParseError::Unsupported(_))));
    let r = handle_block_expression(&chars("{ header stdio::puts; }"), 0, false);
    assert!(matches!(r, Err(ParseError::UnexpectedInput(_))));
    assert!(TokenStream::parse(Rule::statement, "const x = 1;").is_err());
}

#[test]
fn an_unknown_intrinsic_is_refused_in_either_mode() {
    let r = handle_expression(&chars("@frobnicate_i32(a)"), 0, false);
    assert!(matches!(r, Err(ParseError::UnexpectedInput(_))));
}

#[test]
fn a_loop_without_label_is_read() {
    let e = expr("loop { break; }");
    let ExpressionKind::Loop(l) = e.kind.as_ref() else { panic!("not a loop") };
    assert_eq!(l.label, None);
    let ExpressionKind::Block(b) = l.body.kind.as_ref() else { panic!("loop body is not a block") };
    assert!(matches!(b.statements[0], Statement::Break(None)));
    let e = expr("loop outer { break outer; }");
    let ExpressionKind::Loop(l) = e.kind.as_ref() else { panic!("not a loop") };
    assert_eq!(l.label, Some("outer".to_string()));
}

#[test]
fn a_term_in_brackets_takes_the_postfixes_after_it() {
    let e = expr("(a.b)(1)");
    let ExpressionKind::Call(c) = e.kind.as_ref() else { panic!("not a call") };
    assert_eq!(c.parameters.len(), 1);
    let ExpressionKind::MemberAccess(m) = c.called.kind.as_ref() else { panic!("not a member access") };
    assert_eq!(m.member.ident, "b");
    assert_eq!(m.object, ident("a"));
    assert_eq!(expr("(x)"), ident("x"));
}

#[test]
fn postfixed_terms_joined_by_an_operator() {
    let e = expr("f(1) * g.h");
    let ExpressionKind::BinaryOperation(b) = e.kind.as_ref() else { panic!("not a binary operation") };
    assert_eq!(b.operator, BinaryOperator::Multiplication);
    assert!(matches!(b.operands[0].kind.as_ref(), ExpressionKind::Call(_)));
    assert!(matches!(b.operands[1].kind.as_ref(), ExpressionKind::MemberAccess(_)));
}

#[test]
fn comparisons_take_the_chain_after_them() {
    let p = handle_expression(&chars("i < 10;"), 0, true).unwrap();
    assert_eq!(p.value, Expression::binary_operation(BinaryOperator::Lesser, ident("i"), number("10")));
    assert_eq!(p.end, 6);
    let e = expr("a <= b");
    assert_eq!(e, Expression::binary_operation(BinaryOperator::LesserOrEqual, ident("a"), ident("b")));
    let e = expr("a < b + c");
    let expected = Expression::binary_operation(
        BinaryOperator::Lesser,
        ident("a"),
        Expression::binary_operation(BinaryOperator::Addition, ident("b"), ident("c")),
    );
    assert_eq!(e, expected);
    let e = expr("b < a");
    assert_eq!(e, Expression::binary_operation(BinaryOperator::Lesser, ident("b"), ident("a")));
}

#[test]
fn trait_keeps_defined_functions_with_their_bodies() {
    let cs = chars("inter Shape { fn area(s: i32) -> i32 { s * s; } fn name(); fn area(t: u32) -> u32 { break; t; } }");
    let p = niebo::parser::items::handle_trait_definitions(&cs, 0, true).unwrap();
    assert_eq!(p.end, cs.len());
    match p.value.kind {
        DefinitionKind::Trait(t) => {
            assert_eq!(t.functions.len(), 2);
            assert_eq!(t.functions[0].0, "area");
            assert_eq!(t.functions[0].1.decl.parameters[0].0, "t");
            assert_eq!(t.functions[0].1.body.statements.len(), 2);
            assert!(matches!(t.functions[0].1.body.statements[0], Statement::Break(None)));
            assert_eq!(t.functions[1].0, "name");
            assert!(t.functions[1].1.body.statements.is_empty());
        },
        _ => panic!("not a trait"),
    }
}

fn int_lit(s: &str) -> Expression {
    Expression::literal(Literal::integer(s.to_string(), None, None))
}

fn body_i_break() -> Expression {
    let mut b = niebo::ast::expressions::block::Block::new();
    b.add_statement(Statement::Expression(ident("i")));
    b.add_statement(Statement::Break(None));
    Expression::block(b)
}

#[test]
fn while_reads_condition_then_body() {
    let parsed = expr("while (i == 0) { i; break; }");
    let cond = Expression::binary_operation(BinaryOperator::Equal, ident("i"), int_lit("0"));
    let expected = Expression::while_(niebo::ast::expressions::loops::WhileLoop::new(cond, body_i_break()));
    assert!(parsed == expected, "{:?} != {:?}", parsed, expected);
}

#[test]
fn if_else_reads_condition_then_and_else_in_order() {
    let parsed = expr("if (a + 1) { i; break; } else { }");
    let cond = Expression::binary_operation(BinaryOperator::Addition, ident("a"), int_lit("1"));
    let mut b = niebo::ast::expressions::conditional::ConditionalBuilder::new(cond, body_i_break());
    b = b.set_else(Expression::block(niebo::ast::expressions::block::Block::new()));
    let expected = Expression::if_(b.build());
    assert!(parsed == expected, "{:?} != {:?}", parsed, expected);
    let no_else = expr("if (a) { }");
    if let ExpressionKind::If(c) = &*no_else.kind {
        assert!(c.else_.is_none());
    } else {
        panic!("not an if");
    }
}

#[test]
fn loop_reads_its_body() {
    let parsed = expr("loop { i; break; }");
    assert!(parsed == Expression::loop_(body_i_break(), None), "{:?}", parsed);
}

#[test]
fn block_operand_holds_its_statements() {
    let parsed = expr("{ i; break; }");
    assert!(parsed == body_i_break(), "{:?}", parsed);
}

#[test]
fn assignment_takes_the_whole_chain() {
    let parsed = expr("x = i + 1");
    let expected = Expression::assignment(ident("x"), Expression::binary_operation(BinaryOperator::Addition, ident("i"), int_lit("1")));
    assert!(parsed == expected, "{:?} != {:?}", parsed, expected);
}

#[test]
fn index_reads_the_chain_in_brackets() {
    let parsed = expr("v[i * 2]");
    let expected = Expression::index_access(ident("v"), Expression::binary_operation(BinaryOperator::Multiplication, ident("i"), int_lit("2")));
    assert!(parsed == expected, "{:?} != {:?}", parsed, expected);
}

#[test]
fn block_reads_a_call_on_a_string_then_break() {
    let text = "{ printf(\"exiting...\"); break; }";
    let block = handle_block_expression(&chars(text), 0, true).unwrap().value;
    assert_eq!(block.statements.len(), 2);
    let call = Expression::call(ident("printf"), vec![Expression::literal(Literal::string("exiting...".to_string()))]);
    assert!(block.statements[0] == Statement::Expression(call), "{:?}", block.statements[0]);
    assert!(block.statements[1] == Statement::Break(None));
}

#[test]
fn struct_literal_reads_its_fields_in_order() {
    let parsed = expr("P { x: 1, y: a + b }");
    let init = niebo::ast::expressions::init::StructInit {
        ident: QualifiedName::from_ident("P"),
        params: vec![
            ("x".to_string(), int_lit("1")),
            ("y".to_string(), Expression::binary_operation(BinaryOperator::Addition, ident("a"), ident("b"))),
        ],
    };
    let expected = Expression::new(ExpressionKind::StructInit(init));
    assert!(parsed == expected, "{:?} != {:?}", parsed, expected);
}

#[test]
fn prefix_operator_takes_the_whole_chain() {
    let parsed = expr("-a + 1");
    let expected = Expression::unary_operation(
        niebo::ast::expressions::operations::UnaryOperator::Negation,
        Expression::binary_operation(BinaryOperator::Addition, ident("a"), int_lit("1")),
    );
    assert!(parsed == expected, "{:?} != {:?}", parsed, expected);
    assert!(expr("&i") == Expression::unary_operation(niebo::ast::expressions::operations::UnaryOperator::Ref, ident("i")));
}

#[test]
fn trait_with_template_names_keeps_its_functions() {
    let cs = chars("inter Pair<A, B> { fn first(a: i32) -> i32; fn second() { x; } }");
    let p = niebo::parser::items::handle_trait_definitions(&cs, 0, true).unwrap();
    assert_eq!(p.end, cs.len());
    assert_eq!(p.value.name, "Pair");
    match p.value.kind {
        DefinitionKind::Trait(t) => {
            assert_eq!(t.functions.len(), 2);
            assert_eq!(t.functions[0].0, "first");
            assert_eq!(t.functions[1].0, "second");
            assert_eq!(t.functions[1].1.body.statements.len(), 1);
        },
        _ => panic!("not a trait"),
    }
}
