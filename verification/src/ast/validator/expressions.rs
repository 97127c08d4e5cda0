use vstd::prelude::*;
use crate::ast::{Definition, DefinitionKind};
use crate::ast::expressions::{Expression, ExpressionKind, Statement};
use crate::ast::expressions::block::Block;
use crate::ast::expressions::call::Call;
use crate::ast::expressions::conditional::Conditional;
use crate::ast::expressions::intrinsic::{Intrinsic, IntrinsicKind};
use crate::ast::expressions::literal::LiteralInfo;
use crate::ast::expressions::loops::WhileLoop;
use crate::ast::expressions::operations::{BinaryOperation, BinaryOperator, UnaryOperation, UnaryOperator};
use crate::ast::validator::{
    Symbol, ValidationError, Validator, copy_types, defines_symbol, is_single_name, scope_find,
};
use crate::general::path::{QualifiedName, QualifiedNameSegment};
use crate::general::types::{
    Params, PrimitiveType, Type, TypeKind, ty_eqv, spec_is_pointer, lemma_ty_eqv_sym, lemma_ty_eqv_trans,
};
use crate::text::string_of;

verus! {

/// The type of a literal: `string`, or the default integer or float.
pub open spec fn spec_literal_type(info: LiteralInfo) -> Type {
    match info {
        LiteralInfo::String => Type { kind: TypeKind::Primitive(PrimitiveType::String) },
        LiteralInfo::Integer { .. } => Type { kind: TypeKind::Primitive(PrimitiveType::Int(32)) },
        LiteralInfo::Float { .. } => Type { kind: TypeKind::Primitive(PrimitiveType::Float(32)) },
    }
}

/// The type of a literal (see `spec_literal_type`).
pub fn literal_type(info: LiteralInfo) -> (r: Type)
    ensures
        r == spec_literal_type(info),
{
    match info {
        LiteralInfo::String => Type::string(),
        LiteralInfo::Integer { .. } => Type::int_t(),
        LiteralInfo::Float { .. } => Type::float(),
    }
}

pub open spec fn int_ty(p: usize) -> Type {
    Type { kind: TypeKind::Primitive(PrimitiveType::Int(p)) }
}

pub open spec fn uint_ty(p: usize) -> Type {
    Type { kind: TypeKind::Primitive(PrimitiveType::Uint(p)) }
}

pub open spec fn float_ty(p: usize) -> Type {
    Type { kind: TypeKind::Primitive(PrimitiveType::Float(p)) }
}

pub open spec fn bool_ty() -> Type {
    Type { kind: TypeKind::Primitive(PrimitiveType::Bool) }
}

/// The argument types an intrinsic expects (none listed for `copy`, which
/// takes one argument of any type): one operand for negations and
/// conversions, two for the other operations, all of the operation's type.
pub open spec fn expected_params(k: IntrinsicKind) -> Seq<Type> {
    match k {
        IntrinsicKind::Copy => Seq::empty(),
        IntrinsicKind::NegI { prec } => seq![int_ty(prec)],
        IntrinsicKind::AddI { prec } | IntrinsicKind::SubI { prec } | IntrinsicKind::MulI { prec } | IntrinsicKind::DivI {
            prec,
        } | IntrinsicKind::EqI { prec } | IntrinsicKind::NEqI { prec } | IntrinsicKind::LEqI { prec }
        | IntrinsicKind::GEqI { prec } | IntrinsicKind::LesI { prec } | IntrinsicKind::GreI { prec } => seq![int_ty(prec), int_ty(prec)],
        IntrinsicKind::NegU { prec } => seq![uint_ty(prec)],
        IntrinsicKind::AddU { prec } | IntrinsicKind::SubU { prec } | IntrinsicKind::MulU { prec } | IntrinsicKind::DivU {
            prec,
        } | IntrinsicKind::EqU { prec } | IntrinsicKind::NEqU { prec } | IntrinsicKind::LEqU { prec }
        | IntrinsicKind::GEqU { prec } | IntrinsicKind::LesU { prec } | IntrinsicKind::GreU { prec } => seq![uint_ty(prec), uint_ty(prec)],
        IntrinsicKind::NegF { prec } => seq![float_ty(prec)],
        IntrinsicKind::AddF { prec } | IntrinsicKind::SubF { prec } | IntrinsicKind::MulF { prec } | IntrinsicKind::DivF {
            prec,
        } | IntrinsicKind::EqF { prec } | IntrinsicKind::NEqF { prec } | IntrinsicKind::LEqF { prec }
        | IntrinsicKind::GEqF { prec } | IntrinsicKind::LesF { prec } | IntrinsicKind::GreF { prec } => seq![float_ty(prec), float_ty(prec)],
        IntrinsicKind::IToU { src_prec, .. } | IntrinsicKind::IToF { src_prec, .. } => seq![int_ty(src_prec)],
        IntrinsicKind::UToI { src_prec, .. } | IntrinsicKind::UToF { src_prec, .. } => seq![uint_ty(src_prec)],
        IntrinsicKind::FToI { src_prec, .. } | IntrinsicKind::FToU { src_prec, .. } => seq![float_ty(src_prec)],
    }
}

/// The type an intrinsic returns (`copy` returns its argument's type):
/// comparisons give `bool`, conversions their output type, the other
/// operations their operand type.
pub open spec fn intrinsic_result(k: IntrinsicKind) -> Option<Type> {
    match k {
        IntrinsicKind::Copy => None,
        IntrinsicKind::NegI { prec } | IntrinsicKind::AddI { prec } | IntrinsicKind::SubI { prec } | IntrinsicKind::MulI {
            prec,
        } | IntrinsicKind::DivI { prec } => Some(int_ty(prec)),
        IntrinsicKind::EqI { .. } | IntrinsicKind::NEqI { .. } | IntrinsicKind::LEqI { .. } | IntrinsicKind::GEqI { .. }
        | IntrinsicKind::LesI { .. } | IntrinsicKind::GreI { .. } | IntrinsicKind::EqU { .. } | IntrinsicKind::NEqU { .. }
        | IntrinsicKind::LEqU { .. } | IntrinsicKind::GEqU { .. } | IntrinsicKind::LesU { .. } | IntrinsicKind::GreU { .. }
        | IntrinsicKind::EqF { .. } | IntrinsicKind::NEqF { .. } | IntrinsicKind::LEqF { .. } | IntrinsicKind::GEqF { .. }
        | IntrinsicKind::LesF { .. } | IntrinsicKind::GreF { .. } => Some(bool_ty()),
        IntrinsicKind::IToU { out_prec, .. } | IntrinsicKind::FToU { out_prec, .. } => Some(uint_ty(out_prec)),
        IntrinsicKind::IToF { out_prec, .. } | IntrinsicKind::UToF { out_prec, .. } => Some(float_ty(out_prec)),
        IntrinsicKind::UToI { out_prec, .. } | IntrinsicKind::FToI { out_prec, .. } => Some(int_ty(out_prec)),
        IntrinsicKind::NegU { prec } | IntrinsicKind::AddU { prec } | IntrinsicKind::SubU { prec } | IntrinsicKind::MulU {
            prec,
        } | IntrinsicKind::DivU { prec } => Some(uint_ty(prec)),
        IntrinsicKind::NegF { prec } | IntrinsicKind::AddF { prec } | IntrinsicKind::SubF { prec } | IntrinsicKind::MulF {
            prec,
        } | IntrinsicKind::DivF { prec } => Some(float_ty(prec)),
    }
}

/// The argument types an intrinsic expects (see `expected_params`).
pub fn intrinsic_params(k: IntrinsicKind) -> (r: Vec<Type>)
    ensures
        r@ == expected_params(k),
{
    let mut v: Vec<Type> = Vec::new();
    match k {
        IntrinsicKind::Copy => {},
        IntrinsicKind::NegI { prec } => {
            v.push(Type::int_p(prec));
        },
        IntrinsicKind::AddI { prec } | IntrinsicKind::SubI { prec } | IntrinsicKind::MulI { prec } | IntrinsicKind::DivI {
            prec,
        } | IntrinsicKind::EqI { prec } | IntrinsicKind::NEqI { prec } | IntrinsicKind::LEqI { prec }
        | IntrinsicKind::GEqI { prec } | IntrinsicKind::LesI { prec } | IntrinsicKind::GreI { prec } => {
            v.push(Type::int_p(prec));
            v.push(Type::int_p(prec));
        },
        IntrinsicKind::NegU { prec } => {
            v.push(Type::uint_p(prec));
        },
        IntrinsicKind::AddU { prec } | IntrinsicKind::SubU { prec } | IntrinsicKind::MulU { prec } | IntrinsicKind::DivU {
            prec,
        } | IntrinsicKind::EqU { prec } | IntrinsicKind::NEqU { prec } | IntrinsicKind::LEqU { prec }
        | IntrinsicKind::GEqU { prec } | IntrinsicKind::LesU { prec } | IntrinsicKind::GreU { prec } => {
            v.push(Type::uint_p(prec));
            v.push(Type::uint_p(prec));
        },
        IntrinsicKind::NegF { prec } => {
            v.push(Type::float_p(prec));
        },
        IntrinsicKind::AddF { prec } | IntrinsicKind::SubF { prec } | IntrinsicKind::MulF { prec } | IntrinsicKind::DivF {
            prec,
        } | IntrinsicKind::EqF { prec } | IntrinsicKind::NEqF { prec } | IntrinsicKind::LEqF { prec }
        | IntrinsicKind::GEqF { prec } | IntrinsicKind::LesF { prec } | IntrinsicKind::GreF { prec } => {
            v.push(Type::float_p(prec));
            v.push(Type::float_p(prec));
        },
        IntrinsicKind::IToU { src_prec, .. } | IntrinsicKind::IToF { src_prec, .. } => {
            v.push(Type::int_p(src_prec));
        },
        IntrinsicKind::UToI { src_prec, .. } | IntrinsicKind::UToF { src_prec, .. } => {
            v.push(Type::uint_p(src_prec));
        },
        IntrinsicKind::FToI { src_prec, .. } | IntrinsicKind::FToU { src_prec, .. } => {
            v.push(Type::float_p(src_prec));
        },
    }
    assert(v@ =~= expected_params(k));
    v
}

/// The type an intrinsic returns (see `intrinsic_result`).
pub fn intrinsic_ret_ty(k: IntrinsicKind) -> (r: Option<Type>)
    ensures
        r == intrinsic_result(k),
{
    match k {
        IntrinsicKind::Copy => None,
        IntrinsicKind::NegI { prec } | IntrinsicKind::AddI { prec } | IntrinsicKind::SubI { prec } | IntrinsicKind::MulI {
            prec,
        } | IntrinsicKind::DivI { prec } => Some(Type::int_p(prec)),
        IntrinsicKind::EqI { .. } | IntrinsicKind::NEqI { .. } | IntrinsicKind::LEqI { .. } | IntrinsicKind::GEqI { .. }
        | IntrinsicKind::LesI { .. } | IntrinsicKind::GreI { .. } | IntrinsicKind::EqU { .. } | IntrinsicKind::NEqU { .. }
        | IntrinsicKind::LEqU { .. } | IntrinsicKind::GEqU { .. } | IntrinsicKind::LesU { .. } | IntrinsicKind::GreU { .. }
        | IntrinsicKind::EqF { .. } | IntrinsicKind::NEqF { .. } | IntrinsicKind::LEqF { .. } | IntrinsicKind::GEqF { .. }
        | IntrinsicKind::LesF { .. } | IntrinsicKind::GreF { .. } => Some(Type::bool()),
        IntrinsicKind::IToU { out_prec, .. } | IntrinsicKind::FToU { out_prec, .. } => Some(Type::uint_p(out_prec)),
        IntrinsicKind::IToF { out_prec, .. } | IntrinsicKind::UToF { out_prec, .. } => Some(Type::float_p(out_prec)),
        IntrinsicKind::UToI { out_prec, .. } | IntrinsicKind::FToI { out_prec, .. } => Some(Type::int_p(out_prec)),
        IntrinsicKind::NegU { prec } | IntrinsicKind::AddU { prec } | IntrinsicKind::SubU { prec } | IntrinsicKind::MulU {
            prec,
        } | IntrinsicKind::DivU { prec } => Some(Type::uint_p(prec)),
        IntrinsicKind::NegF { prec } | IntrinsicKind::AddF { prec } | IntrinsicKind::SubF { prec } | IntrinsicKind::MulF {
            prec,
        } | IntrinsicKind::DivF { prec } => Some(Type::float_p(prec)),
    }
}

/// Whether the binary operator compares (and so gives a `bool`).
pub open spec fn is_comparison(op: BinaryOperator) -> bool {
    op == BinaryOperator::Greater || op == BinaryOperator::Lesser || op == BinaryOperator::GreaterOrEqual
        || op == BinaryOperator::LesserOrEqual || op == BinaryOperator::Equal || op == BinaryOperator::NotEqual
}

/// The type of a unary operation whose operand has type `t`: `&` makes a
/// pointer to it, `++` and `--` give the default integer, `-` keeps it, `*`
/// gives what a pointer points to; `?` is not handled yet.
pub open spec fn spec_unary_type(op: UnaryOperator, t: Type) -> Result<Type, ValidationError> {
    match op {
        UnaryOperator::Ref => Ok(Type { kind: TypeKind::Pointer(Box::new(t)) }),
        UnaryOperator::Increase | UnaryOperator::Decrease => Ok(int_ty(32)),
        UnaryOperator::EarlyRet => Err(ValidationError::Unsupported),
        UnaryOperator::Deref => match t.kind {
            TypeKind::Pointer(p) => Ok(*p),
            _ => Err(ValidationError::CannotDeref),
        },
        UnaryOperator::Negation => Ok(t),
    }
}

/// The type of a unary operation (see `spec_unary_type`), up to
/// equivalence.
pub fn unary_type(op: UnaryOperator, t: Type) -> (r: Result<Type, ValidationError>)
    ensures
        match (r, spec_unary_type(op, t)) {
            (Ok(a), Ok(b)) => ty_eqv(a, b),
            (Err(a), Err(b)) => a == b,
            _ => false,
        },
{
    match op {
        UnaryOperator::Ref => {
            let r = Type::pointer(t);
            proof { crate::general::types::lemma_ty_eqv_refl(r); }
            Ok(r)
        },
        UnaryOperator::Increase | UnaryOperator::Decrease => Ok(Type::int_t()),
        UnaryOperator::EarlyRet => Err(ValidationError::Unsupported),
        UnaryOperator::Deref => match t.kind {
            TypeKind::Pointer(p) => {
                proof { crate::general::types::lemma_ty_eqv_refl(*p); }
                Ok(*p)
            },
            _ => Err(ValidationError::CannotDeref),
        },
        UnaryOperator::Negation => {
            proof { crate::general::types::lemma_ty_eqv_refl(t); }
            Ok(t)
        },
    }
}

fn is_number(t: &Type) -> (r: bool)
    ensures
        r == (t.kind matches TypeKind::Primitive(p) && (p is Int || p is Uint || p is Float)),
{
    match &t.kind {
        TypeKind::Primitive(PrimitiveType::Int(_)) | TypeKind::Primitive(PrimitiveType::Uint(_))
        | TypeKind::Primitive(PrimitiveType::Float(_)) => true,
        _ => false,
    }
}

fn is_bool(t: &Type) -> (r: bool)
    ensures
        r == (t.kind == TypeKind::Primitive(PrimitiveType::Bool)),
{
    match &t.kind {
        TypeKind::Primitive(PrimitiveType::Bool) => true,
        _ => false,
    }
}

fn name_of(s: &String) -> (r: QualifiedName)
    ensures
        r.v@.len() == 1,
        r.v@[0].ident@ == s@,
        r.v@[0].template_spec@.len() == 0,
{
    QualifiedName::from_segment(QualifiedNameSegment::from_string(string_of(s.as_str())))
}

pub open spec fn locals_view_len(v: Validator) -> nat {
    crate::ast::validator::locals_view(v).len()
}

/// The global scope and the types stay as they are, and so does every
/// local scope that was open: more may be left open after them (a block
/// that returns early keeps its scope open).
pub open spec fn scopes_kept(old_v: Validator, new_v: Validator) -> bool {
    &&& new_v.local_scope@.len() >= old_v.local_scope@.len()
    &&& forall|i: int| 0 <= i < old_v.local_scope@.len() ==> #[trigger] crate::ast::validator::locals_view(new_v)[i]
        == crate::ast::validator::locals_view(old_v)[i]
    &&& new_v.global_scope == old_v.global_scope
    &&& new_v.type_data == old_v.type_data
}

/// As `scopes_kept`, but the innermost local scope that was open may have
/// gained definitions.
pub open spec fn outer_scopes_kept(old_v: Validator, new_v: Validator) -> bool {
    &&& new_v.local_scope@.len() >= old_v.local_scope@.len()
    &&& forall|i: int| 0 <= i < old_v.local_scope@.len() - 1 ==> #[trigger] crate::ast::validator::locals_view(new_v)[i]
        == crate::ast::validator::locals_view(old_v)[i]
    &&& new_v.global_scope == old_v.global_scope
    &&& new_v.type_data == old_v.type_data
}

/// A symbol defined under the one-segment name `nm` in the innermost local
/// scope is found there under every one-segment name with the same text.
proof fn lemma_local_defined(v: Validator, nm: QualifiedName, sy: Symbol, n: Seq<char>)
    requires
        is_single_name(nm, n),
        crate::ast::validator::locals_view(v).len() > 0,
        scope_find(crate::ast::validator::locals_view(v).last(), nm) == Some(sy),
    ensures
        forall|q: QualifiedName| is_single_name(q, n) ==> scope_find(crate::ast::validator::locals_view(v).last(), q) == Some(sy),
{
    assert forall|q: QualifiedName| is_single_name(q, n) implies scope_find(crate::ast::validator::locals_view(v).last(), q)
        == Some(sy) by {
        crate::ast::validator::lemma_single_names_eqv(nm, q, n);
        crate::ast::validator::lemma_scope_find_eqv(crate::ast::validator::locals_view(v).last(), nm, q);
    }
}

/// Checks a definition inside a block and defines its name in the
/// innermost local scope: a function (its return type and parameter
/// types), a variable (once its value checks) or a type.
pub fn validate_local_definition(def: &mut Definition, v: &mut Validator, fuel: usize) -> (r: Result<(), ValidationError>)
    requires
        old(v).local_scope@.len() > 0,
    ensures
        outer_scopes_kept(*old(v), *final(v)),
        final(def).name == old(def).name,
        r is Ok ==> forall|q: QualifiedName| is_single_name(q, old(def).name@) ==> (scope_find(
            crate::ast::validator::locals_view(*final(v)).last(),
            q,
        ) matches Some(s) && defines_symbol(old(def).kind, s)),
        !(old(def).kind is FunctionDefinition || old(def).kind is Variable || old(def).kind is Type) ==> r == Err::<
            (),
            ValidationError,
        >(ValidationError::Unsupported),
        old(def).kind matches DefinitionKind::FunctionDefinition(f) ==> (r is Ok <==> f.decl.return_ty is Some) && (r is Err ==> r
            == Err::<(), ValidationError>(ValidationError::Unsupported)),
        old(def).kind is Type ==> r is Ok,
        fuel > 1 ==> (old(def).kind matches DefinitionKind::Variable(var) ==> (var.ty is Some && leaf_type(var.value, *old(v))
            is Some ==> r is Ok)),
    decreases fuel, 0nat,
{
    let ghost k0 = def.kind;
    match &mut def.kind {
        DefinitionKind::FunctionDefinition(func) => {
            let ret = match &func.decl.return_ty {
                Some(t) => t.copy(),
                None => {
                    return Err(ValidationError::Unsupported);
                },
            };
            let mut params: Vec<Type> = Vec::new();
            let mut i: usize = 0;
            while i < func.decl.parameters.len()
                invariant
                    i <= func.decl.parameters@.len(),
                    params@.len() == i,
                    forall|j: int| #![trigger params@[j]] 0 <= j < i ==> ty_eqv(params@[j], func.decl.parameters@[j].1),
                decreases func.decl.parameters@.len() - i,
            {
                params.push(func.decl.parameters[i].1.copy());
                i += 1;
            }
            let sym = Symbol::Function { ret_ty: ret, params };
            let ghost sy = sym;
            assert(defines_symbol(k0, sy));
            let name = name_of(&def.name);
            let ghost nm = name;
            v.register_local_symbol(name, sym);
            proof { lemma_local_defined(*v, nm, sy, def.name@); }
            Ok(())
        },
        DefinitionKind::Variable(var) => {
            if fuel == 0 {
                return Err(ValidationError::Unsupported);
            }
            validate_expression(&mut var.value, v, fuel - 1)?;
            let t = match &var.ty {
                Some(t) => t.copy(),
                None => {
                    return Err(ValidationError::Unsupported);
                },
            };
            if v.local_scope.len() == 0 {
                return Err(ValidationError::Unsupported);
            }
            let sym = Symbol::Variable(t);
            let ghost sy = sym;
            assert(defines_symbol(k0, sy));
            let name = name_of(&def.name);
            let ghost nm = name;
            v.register_local_symbol(name, sym);
            proof { lemma_local_defined(*v, nm, sy, def.name@); }
            Ok(())
        },
        DefinitionKind::Type(ty) => {
            let t = ty.copy();
            let sym = Symbol::Type(t);
            let ghost sy = sym;
            assert(defines_symbol(k0, sy));
            let name = name_of(&def.name);
            let ghost nm = name;
            v.register_local_symbol(name, sym);
            proof { lemma_local_defined(*v, nm, sy, def.name@); }
            Ok(())
        },
        _ => Err(ValidationError::Unsupported),
    }
}

/// No `return` or `break` comes before statement `i`: a check of the
/// block reaches it.
pub open spec fn reached(stmts: Seq<Statement>, i: int) -> bool {
    forall|j: int| 0 <= j < i ==> !(#[trigger] stmts[j] is Return || stmts[j] is Break)
}

/// What a check of a block has found of a statement that it reached: a
/// definition (defined in the block's scope), an expression or a returned
/// value checked by its parts (see `checked_by_parts`), or a `break`; an
/// import, `use`, `continue` or a block's value is not supported there.
pub open spec fn statement_checked(s: Statement) -> bool {
    match s {
        Statement::Definition(_) => true,
        Statement::Expression(ex) => checked_by_parts(*ex.kind),
        Statement::Return(Some(ex)) => checked_by_parts(*ex.kind),
        Statement::Return(None) => true,
        Statement::Break(_) => true,
        _ => false,
    }
}

/// Two statements of the same variant (a `return` with or without a value).
pub open spec fn same_statement_kind(a: Statement, b: Statement) -> bool {
    match (a, b) {
        (Statement::Definition(_), Statement::Definition(_)) => true,
        (Statement::Expression(_), Statement::Expression(_)) => true,
        (Statement::Return(x), Statement::Return(y)) => x is Some == y is Some,
        _ => a == b,
    }
}

/// An expression whose check and type do not depend on the local scopes
/// and are decided at once: a literal, or the name of a variable or a type
/// of the global scope, its type not worked out yet.
pub open spec fn settled_leaf(e: Expression, v: Validator) -> bool {
    &&& e.ret_ty is None
    &&& match *e.kind {
        ExpressionKind::Literal(_) => true,
        ExpressionKind::Identifier(p) => scope_find(v.global_scope@, p) matches Some(s) && (s is Variable || s is Type),
        _ => false,
    }
}

/// A statement that a check of a block accepts whatever the block defined
/// before it: an expression or a returned value that is a settled leaf (see
/// `settled_leaf`), a function definition with a return type, a type, a
/// typed variable whose value is a settled leaf, a `return` without a value
/// or a `break`.
pub open spec fn settled_statement(s: Statement, v: Validator) -> bool {
    match s {
        Statement::Expression(ex) => settled_leaf(ex, v),
        Statement::Definition(d) => match d.kind {
            DefinitionKind::FunctionDefinition(f) => f.decl.return_ty is Some,
            DefinitionKind::Type(_) => true,
            DefinitionKind::Variable(var) => var.ty is Some && settled_leaf(var.value, v),
            _ => false,
        },
        Statement::Return(None) => true,
        Statement::Return(Some(ex)) => settled_leaf(ex, v),
        Statement::Break(_) => true,
        _ => false,
    }
}

/// Checks a block in a new local scope: its definitions, expressions, and
/// the value of a `return`; a `return` or `break` ends the check (and
/// leaves the scope open).
#[verifier::loop_isolation(false)]
pub fn validate_block(b: &mut Block, v: &mut Validator, fuel: usize) -> (r: Result<(), ValidationError>)
    ensures
        scopes_kept(*old(v), *final(v)),
        fuel == 0 ==> r == Err::<(), ValidationError>(ValidationError::Unsupported),
        final(b).statements@.len() == old(b).statements@.len(),
        forall|i: int| 0 <= i < old(b).statements@.len() ==> same_statement_kind(
            #[trigger] old(b).statements@[i],
            final(b).statements@[i],
        ),
        r is Ok ==> forall|i: int| 0 <= i < final(b).statements@.len() && reached(final(b).statements@, i) ==> statement_checked(
            #[trigger] final(b).statements@[i],
        ),
        fuel >= 3 && (forall|i: int| 0 <= i < old(b).statements@.len() && reached(old(b).statements@, i) ==> settled_statement(
            #[trigger] old(b).statements@[i],
            *old(v),
        )) ==> r is Ok,
    decreases fuel, 1nat,
{
    if fuel == 0 {
        return Err(ValidationError::Unsupported);
    }
    let ghost settled = fuel >= 3 && (forall|i: int| 0 <= i < old(b).statements@.len() && reached(old(b).statements@, i)
        ==> settled_statement(#[trigger] old(b).statements@[i], *old(v)));
    let ghost n0 = v.local_scope@.len();
    v.push_scope();
    assert(v.local_scope@.len() == locals_view_len(*v));
    assert(old(v).local_scope@.len() == locals_view_len(*old(v)));
    let mut i: usize = 0;
    while i < b.statements.len()
        invariant
            fuel > 0,
            n0 == old(v).local_scope@.len(),
            v.local_scope@.len() >= n0 + 1,
            forall|k: int| 0 <= k < n0 ==> #[trigger] crate::ast::validator::locals_view(*v)[k]
                == crate::ast::validator::locals_view(*old(v))[k],
            v.global_scope == old(v).global_scope,
            v.type_data == old(v).type_data,
            i <= b.statements@.len(),
            b.statements@.len() == old(b).statements@.len(),
            forall|j: int| i <= j < b.statements@.len() ==> #[trigger] b.statements@[j] == old(b).statements@[j],
            forall|j: int| 0 <= j < i ==> same_statement_kind(old(b).statements@[j], #[trigger] b.statements@[j]),
            forall|j: int| 0 <= j < i ==> statement_checked(#[trigger] b.statements@[j]),
            reached(b.statements@, i as int),
            reached(old(b).statements@, i as int),
        decreases b.statements@.len() - i,
    {
        assert(settled ==> settled_statement(b.statements@[i as int], *old(v)));
        match &b.statements[i] {
            Statement::Break(_) => {
                return Ok(());
            },
            Statement::Definition(_) | Statement::Expression(_) | Statement::Return(_) => {},
            _ => {
                return Err(ValidationError::Unsupported);
            },
        }
        match &mut b.statements[i] {
            Statement::Definition(def) => {
                validate_local_definition(def, v, fuel - 1)?;
            },
            Statement::Expression(ex) => {
                validate_expression(ex, v, fuel - 1)?;
            },
            Statement::Return(ex) => {
                if let Some(s) = ex {
                    validate_expression(s, v, fuel - 1)?;
                }
                return Ok(());
            },
            // answered above
            _ => unreached(),
        }
        i += 1;
    }
    let ghost before_pop = *v;
    assert(v.local_scope@.len() == locals_view_len(*v));
    v.pop_scope();
    assert(v.local_scope@.len() == locals_view_len(*v));
    assert forall|k: int| 0 <= k < n0 implies #[trigger] crate::ast::validator::locals_view(*v)[k]
        == crate::ast::validator::locals_view(*old(v))[k] by {
        assert(crate::ast::validator::locals_view(before_pop).drop_last()[k] == crate::ast::validator::locals_view(before_pop)[k]);
    }
    Ok(())
}

/// The type of a block: every expression statement is checked, then
/// typed, and the block itself is `void`.
pub fn resolve_block(b: &mut Block, v: &mut Validator, fuel: usize) -> (r: Result<Type, ValidationError>)
    ensures
        scopes_kept(*old(v), *final(v)),
        fuel == 0 ==> r == Err::<Type, ValidationError>(ValidationError::Unsupported),
        r matches Ok(t) ==> t.kind == TypeKind::Primitive(PrimitiveType::Void),
        final(b).statements@.len() == old(b).statements@.len(),
        forall|i: int| 0 <= i < old(b).statements@.len() ==> same_statement_kind(
            #[trigger] old(b).statements@[i],
            final(b).statements@[i],
        ),
        r is Ok ==> forall|i: int| 0 <= i < final(b).statements@.len() ==> (#[trigger] final(b).statements@[i] matches Statement::Expression(ex)
            ==> ex.ret_ty is Some),
        fuel >= 2 && (forall|i: int| 0 <= i < old(b).statements@.len() ==> (#[trigger] old(b).statements@[i] matches Statement::Expression(ex)
            ==> leaf_type(ex, *old(v)) is Some)) ==> r is Ok && *final(v) == *old(v),
    decreases fuel, 1nat,
{
    if fuel == 0 {
        return Err(ValidationError::Unsupported);
    }
    let ghost leaves = fuel >= 2 && (forall|i: int| 0 <= i < old(b).statements@.len() ==> (#[trigger] old(b).statements@[i] matches Statement::Expression(ex)
        ==> leaf_type(ex, *old(v)) is Some));
    let mut i: usize = 0;
    while i < b.statements.len()
        invariant
            fuel > 0,
            scopes_kept(*old(v), *v),
            i <= b.statements@.len(),
            b.statements@.len() == old(b).statements@.len(),
            forall|j: int| i <= j < b.statements@.len() ==> #[trigger] b.statements@[j] == old(b).statements@[j],
            forall|j: int| 0 <= j < i ==> same_statement_kind(old(b).statements@[j], #[trigger] b.statements@[j]),
            forall|j: int| 0 <= j < i ==> (#[trigger] b.statements@[j] matches Statement::Expression(ex) ==> ex.ret_ty is Some),
            leaves == (fuel >= 2 && (forall|j: int| 0 <= j < old(b).statements@.len() ==> (#[trigger] old(b).statements@[j] matches Statement::Expression(ex)
                ==> leaf_type(ex, *old(v)) is Some))),
            leaves ==> *v == *old(v),
        decreases b.statements@.len() - i,
    {
        assert(leaves ==> (old(b).statements@[i as int] matches Statement::Expression(ex) ==> leaf_type(ex, *old(v)) is Some));
        if let Statement::Expression(exp) = &mut b.statements[i] {
            validate_expression(exp, v, fuel - 1)?;
            resolve_ret_ty(exp, v, fuel - 1)?;
        }
        i += 1;
    }
    Ok(Type::void())
}

/// Every expression of `ps` is a leaf under `v` (see `leaf_type`).
pub open spec fn all_leaves(ps: Seq<Expression>, v: Validator) -> bool {
    forall|k: int| 0 <= k < ps.len() ==> leaf_type(#[trigger] ps[k], v) is Some
}

/// The leaves of `ps` have the types of `ts`, one for one (up to
/// equivalence).
pub open spec fn leaves_typed(ps: Seq<Expression>, v: Validator, ts: Seq<Type>) -> bool {
    &&& ps.len() == ts.len()
    &&& forall|k: int| 0 <= k < ps.len() ==> ty_eqv(leaf_type(#[trigger] ps[k], v)->0, ts[k])
}

/// A number type: an integer, unsigned or floating type of any width.
pub open spec fn is_number_type(t: Type) -> bool {
    t.kind matches TypeKind::Primitive(p) && (p is Int || p is Uint || p is Float)
}

/// Equivalent types are pointers alike.
proof fn lemma_pointer_eqv(a: Type, b: Type)
    requires
        ty_eqv(a, b),
    ensures
        spec_is_pointer(a) == spec_is_pointer(b),
{
}

/// Two equivalent pairs of types agree on being equivalent.
proof fn lemma_eqv_pairs(a: Type, x: Type, b: Type, y: Type)
    requires
        ty_eqv(a, x),
        ty_eqv(b, y),
    ensures
        ty_eqv(a, b) == ty_eqv(x, y),
{
    lemma_ty_eqv_sym(a, x);
    lemma_ty_eqv_sym(b, y);
    if ty_eqv(a, b) {
        lemma_ty_eqv_trans(x, a, b);
        lemma_ty_eqv_trans(x, b, y);
    }
    if ty_eqv(x, y) {
        lemma_ty_eqv_trans(a, x, y);
        lemma_ty_eqv_trans(a, y, b);
    }
}

/// Whether two operand types are accepted together: both pointers, or
/// of one type.
pub open spec fn operands_agree(x: Type, y: Type) -> bool {
    (spec_is_pointer(x) && spec_is_pointer(y)) || ty_eqv(x, y)
}

/// Checks both operands; their types must be the same, unless both are
/// pointers.
pub fn validate_binary(b: &mut BinaryOperation, v: &mut Validator, fuel: usize) -> (r: Result<(), ValidationError>)
    ensures
        scopes_kept(*old(v), *final(v)),
        r is Ok ==> final(b).operands[0].ret_ty is Some,
        r is Ok ==> (final(b).operands[0].ret_ty matches Some(x) && final(b).operands[1].ret_ty matches Some(y)
            && ((spec_is_pointer(x) && spec_is_pointer(y)) || ty_eqv(x, y))),
        final(b).operator == old(b).operator,
        fuel >= 2 ==> (leaf_type(old(b).operands[0], *old(v)) matches Some(x) ==> (leaf_type(old(b).operands[1], *old(v)) matches Some(y)
            ==> (r is Ok <==> operands_agree(x, y)) && (r is Err ==> r == Err::<(), ValidationError>(ValidationError::OperandTypesDiffer))
            && (r is Ok ==> (final(b).operands[0].ret_ty matches Some(c) && ty_eqv(c, x))))),
    decreases fuel, 1nat,
{
    if fuel == 0 {
        return Err(ValidationError::Unsupported);
    }
    let ghost b0 = *b;
    let ghost v0 = *v;
    validate_expression(&mut b.operands[0], v, fuel - 1)?;
    validate_expression(&mut b.operands[1], v, fuel - 1)?;
    let a_ty = resolve_ret_ty(&mut b.operands[0], v, fuel - 1)?;
    let b_ty = resolve_ret_ty(&mut b.operands[1], v, fuel - 1)?;
    let ghost x = b.operands[0].ret_ty->0;
    let ghost y = b.operands[1].ret_ty->0;
    proof {
        if fuel >= 2 && leaf_type(b0.operands[0], v0) is Some && leaf_type(b0.operands[1], v0) is Some {
            let lx = leaf_type(b0.operands[0], v0)->0;
            let ly = leaf_type(b0.operands[1], v0)->0;
            lemma_pointer_eqv(a_ty, lx);
            lemma_pointer_eqv(b_ty, ly);
            lemma_eqv_pairs(a_ty, lx, b_ty, ly);
        }
    }
    if a_ty.is_pointer() && b_ty.is_pointer() {
        return Ok(());
    }
    if !a_ty.same_as(&b_ty) {
        return Err(ValidationError::OperandTypesDiffer);
    }
    proof {
        lemma_ty_eqv_sym(a_ty, x);
        lemma_ty_eqv_trans(x, a_ty, b_ty);
        lemma_ty_eqv_trans(x, b_ty, y);
    }
    Ok(())
}

/// The type of a binary operation, once it checks: `bool` for a
/// comparison, else the type of its left operand.
pub fn resolve_binary(b: &mut BinaryOperation, v: &mut Validator, fuel: usize) -> (r: Result<Type, ValidationError>)
    ensures
        scopes_kept(*old(v), *final(v)),
        r matches Ok(t) ==> is_comparison(old(b).operator) ==> t == bool_ty(),
        r matches Ok(t) ==> !is_comparison(old(b).operator) ==> (final(b).operands[0].ret_ty matches Some(a) && ty_eqv(t, a)),
        final(b).operator == old(b).operator,
        fuel >= 2 ==> (leaf_type(old(b).operands[0], *old(v)) matches Some(x) ==> (leaf_type(old(b).operands[1], *old(v)) matches Some(y)
            ==> (r is Ok <==> operands_agree(x, y)) && (r is Err ==> r == Err::<Type, ValidationError>(ValidationError::OperandTypesDiffer))
            && (r matches Ok(t) ==> !is_comparison(old(b).operator) ==> ty_eqv(t, x)))),
    decreases fuel, 2nat,
{
    let ghost b0 = *b;
    let ghost v0 = *v;
    validate_binary(b, v, fuel)?;
    match b.operator {
        BinaryOperator::Greater | BinaryOperator::Lesser | BinaryOperator::GreaterOrEqual | BinaryOperator::LesserOrEqual
        | BinaryOperator::Equal | BinaryOperator::NotEqual => Ok(Type::bool()),
        _ => match &b.operands[0].ret_ty {
            Some(t) => {
                let c = t.copy();
                proof {
                    if fuel >= 2 && leaf_type(b0.operands[0], v0) is Some && leaf_type(b0.operands[1], v0) is Some {
                        lemma_ty_eqv_trans(c, *t, leaf_type(b0.operands[0], v0)->0);
                    }
                }
                Ok(c)
            },
            None => Err(ValidationError::Unsupported),
        },
    }
}

/// Checks the arguments of an intrinsic, their number and their types
/// (see `expected_params`); `copy` takes exactly one argument.
pub fn validate_intrinsic(i: &mut Intrinsic, v: &mut Validator, fuel: usize) -> (r: Result<(), ValidationError>)
    ensures
        scopes_kept(*old(v), *final(v)),
        final(i).kind == old(i).kind,
        final(i).parameters@.len() == old(i).parameters@.len(),
        r is Ok ==> (old(i).kind == IntrinsicKind::Copy ==> old(i).parameters@.len() == 1),
        r is Ok ==> (old(i).kind != IntrinsicKind::Copy ==> old(i).parameters@.len() == expected_params(old(i).kind).len()),
        old(i).kind != IntrinsicKind::Copy && old(i).parameters@.len() != expected_params(old(i).kind).len() ==> r is Err,
        r is Ok && old(i).kind != IntrinsicKind::Copy ==> forall|k: int| 0 <= k < expected_params(old(i).kind).len()
            ==> ((#[trigger] final(i).parameters@[k]).ret_ty matches Some(t) && ty_eqv(t, expected_params(old(i).kind)[k])),
        fuel >= 2 && all_leaves(old(i).parameters@, *old(v)) ==> {
            &&& old(i).kind == IntrinsicKind::Copy ==> (r is Ok <==> old(i).parameters@.len() == 1) && (r is Err ==> r == Err::<
                (),
                ValidationError,
            >(ValidationError::WrongParameterCount))
            &&& old(i).kind != IntrinsicKind::Copy ==> (r is Ok <==> leaves_typed(
                old(i).parameters@,
                *old(v),
                expected_params(old(i).kind),
            ))
            &&& old(i).kind != IntrinsicKind::Copy && old(i).parameters@.len() != expected_params(old(i).kind).len() ==> r == Err::<
                (),
                ValidationError,
            >(ValidationError::WrongParameterCount)
            &&& old(i).kind != IntrinsicKind::Copy && old(i).parameters@.len() == expected_params(old(i).kind).len() && r is Err
                ==> r == Err::<(), ValidationError>(ValidationError::WrongParameterType)
            &&& r is Ok ==> *final(v) == *old(v) && final(i).parameters@.len() == old(i).parameters@.len()
            &&& r is Ok && old(i).kind == IntrinsicKind::Copy ==> final(i).parameters@ == old(i).parameters@
        },
    decreases fuel, 1nat,
{
    if fuel == 0 {
        return Err(ValidationError::Unsupported);
    }
    let ghost leaves = fuel >= 2 && all_leaves(old(i).parameters@, *old(v));
    let mut k: usize = 0;
    while k < i.parameters.len()
        invariant
            fuel > 0,
            scopes_kept(*old(v), *v),
            i.kind == old(i).kind,
            i.parameters@.len() == old(i).parameters@.len(),
            leaves == (fuel >= 2 && all_leaves(old(i).parameters@, *old(v))),
            leaves ==> *v == *old(v) && i.parameters@ == old(i).parameters@,
        decreases i.parameters@.len() - k,
    {
        proof {
            if leaves {
                assert(leaf_type(i.parameters@[k as int], *v) is Some);
            }
        }
        validate_expression(&mut i.parameters[k], v, fuel - 1)?;
        k += 1;
    }
    if i.kind == IntrinsicKind::Copy {
        if i.parameters.len() != 1 {
            return Err(ValidationError::WrongParameterCount);
        }
        return Ok(());
    }
    let expected = intrinsic_params(i.kind);
    if i.parameters.len() != expected.len() {
        return Err(ValidationError::WrongParameterCount);
    }
    let mut idx: usize = 0;
    while idx < expected.len()
        invariant
            fuel > 0,
            scopes_kept(*old(v), *v),
            i.kind == old(i).kind,
            i.parameters@.len() == old(i).parameters@.len(),
            i.parameters@.len() == expected@.len(),
            expected@ == expected_params(i.kind),
            idx <= expected@.len(),
            forall|k: int| 0 <= k < idx ==> ((#[trigger] i.parameters@[k]).ret_ty matches Some(t) && ty_eqv(t, expected@[k])),
            leaves == (fuel >= 2 && all_leaves(old(i).parameters@, *old(v))),
            leaves ==> *v == *old(v),
            leaves ==> forall|k: int| idx <= k < expected@.len() ==> #[trigger] i.parameters@[k] == old(i).parameters@[k],
            leaves ==> forall|k: int| 0 <= k < idx ==> ty_eqv(leaf_type(#[trigger] old(i).parameters@[k], *old(v))->0, expected@[k]),
        decreases expected@.len() - idx,
    {
        let ghost ps0 = i.parameters@;
        proof {
            if leaves {
                assert(leaf_type(old(i).parameters@[idx as int], *old(v)) is Some);
            }
        }
        let actual = resolve_ret_ty(&mut i.parameters[idx], v, fuel - 1)?;
        proof {
            crate::general::types::lemma_ty_eqv_refl(expected@[idx as int]);
            if leaves {
                lemma_eqv_pairs(actual, leaf_type(old(i).parameters@[idx as int], *old(v))->0, expected@[idx as int], expected@[idx as int]);
                assert forall|k: int| idx < k < expected@.len() implies #[trigger] i.parameters@[k] == old(i).parameters@[k] by {
                    assert(i.parameters@[k] == ps0[k]);
                }
            }
        }
        if !actual.same_as(&expected[idx]) {
            return Err(ValidationError::WrongParameterType);
        }
        proof {
            let c = i.parameters@[idx as int].ret_ty->0;
            lemma_ty_eqv_sym(actual, c);
            lemma_ty_eqv_trans(c, actual, expected@[idx as int]);
        }
        idx += 1;
    }
    Ok(())
}

/// The type of an intrinsic, once it checks (see `intrinsic_result`);
/// `copy` has the type of its argument.
pub fn resolve_intrinsic(i: &mut Intrinsic, v: &mut Validator, fuel: usize) -> (r: Result<Type, ValidationError>)
    ensures
        scopes_kept(*old(v), *final(v)),
        final(i).kind == old(i).kind,
        r matches Ok(t) ==> (old(i).kind != IntrinsicKind::Copy ==> Some(t) == intrinsic_result(old(i).kind)),
        r matches Ok(t) ==> (old(i).kind == IntrinsicKind::Copy ==> final(i).parameters@.len() == 1 && (
        final(i).parameters@[0].ret_ty matches Some(pt) && ty_eqv(t, pt))),
        fuel >= 2 && all_leaves(old(i).parameters@, *old(v)) ==> {
            &&& old(i).kind == IntrinsicKind::Copy ==> (r is Ok <==> old(i).parameters@.len() == 1) && (r is Err ==> r == Err::<
                Type,
                ValidationError,
            >(ValidationError::WrongParameterCount))
            &&& old(i).kind == IntrinsicKind::Copy ==> (r matches Ok(t) ==> ty_eqv(t, leaf_type(old(i).parameters@[0], *old(v))->0))
            &&& old(i).kind != IntrinsicKind::Copy ==> (r is Ok <==> leaves_typed(
                old(i).parameters@,
                *old(v),
                expected_params(old(i).kind),
            ))
            &&& old(i).kind != IntrinsicKind::Copy && old(i).parameters@.len() != expected_params(old(i).kind).len() ==> r == Err::<
                Type,
                ValidationError,
            >(ValidationError::WrongParameterCount)
            &&& old(i).kind != IntrinsicKind::Copy && old(i).parameters@.len() == expected_params(old(i).kind).len() && r is Err
                ==> r == Err::<Type, ValidationError>(ValidationError::WrongParameterType)
        },
    decreases fuel, 2nat,
{
    let ghost i0 = *i;
    validate_intrinsic(i, v, fuel)?;
    proof {
        if fuel >= 2 && all_leaves(i0.parameters@, *old(v)) && i0.kind == IntrinsicKind::Copy {
            assert(leaf_type(i0.parameters@[0], *old(v)) is Some);
        }
    }
    if fuel == 0 {
        return Err(ValidationError::Unsupported);
    }
    match intrinsic_ret_ty(i.kind) {
        Some(t) => Ok(t),
        None => resolve_ret_ty(&mut i.parameters[0], v, fuel - 1),
    }
}

/// `u` is the type of a function with the parameter types `params`
/// (unnamed) and the return type `ret`, not variadic.
pub open spec fn is_fn_type(u: Type, params: Seq<Type>, ret: Type) -> bool {
    &&& u.kind matches TypeKind::Function(f)
    &&& ty_eqv(*u.kind->Function_0.ret_ty, ret)
    &&& !u.kind->Function_0.varidic
    &&& u.kind->Function_0.params@.len() == params.len()
    &&& forall|j: int| 0 <= j < params.len() ==> (#[trigger] u.kind->Function_0.params@[j]).name is None && ty_eqv(
        u.kind->Function_0.params@[j].ty,
        params[j],
    )
}

/// A type equivalent to a function type is that function type.
proof fn lemma_fn_type_eqv(a: Type, b: Type, params: Seq<Type>, ret: Type)
    requires
        ty_eqv(a, b),
        is_fn_type(b, params, ret),
    ensures
        is_fn_type(a, params, ret),
{
    assert(a.kind is Function);
    let f = a.kind->Function_0;
    let g = b.kind->Function_0;
    assert(crate::general::types::params_eqv(f.params@, g.params@));
    lemma_ty_eqv_trans(*f.ret_ty, *g.ret_ty, ret);
    assert forall|j: int| 0 <= j < params.len() implies (#[trigger] f.params@[j]).name is None && ty_eqv(
        f.params@[j].ty,
        params[j],
    ) by {
        assert(crate::general::types::opt_name_eqv(f.params@[j].name, g.params@[j].name));
        assert(g.params@[j].name is None);
        lemma_ty_eqv_trans(f.params@[j].ty, g.params@[j].ty, params[j]);
    }
}

/// What a name stands for as a type: a variable or a type gives its type,
/// a function its function type (unnamed parameters, not variadic).
pub fn resolve_identifier(p: &QualifiedName, v: &Validator) -> (r: Result<Type, ValidationError>)
    ensures
        crate::ast::validator::spec_find(*v, *p) is None <==> r == Err::<Type, ValidationError>(ValidationError::SymbolNotFound),
        r is Ok || r == Err::<Type, ValidationError>(ValidationError::SymbolNotFound),
        crate::ast::validator::spec_find(*v, *p) matches Some(Symbol::Variable(t)) ==> (r matches Ok(u) && ty_eqv(u, t)),
        crate::ast::validator::spec_find(*v, *p) matches Some(Symbol::Type(t)) ==> (r matches Ok(u) && ty_eqv(u, t)),
        crate::ast::validator::spec_find(*v, *p) matches Some(Symbol::Function { ret_ty, params }) ==> (r matches Ok(u)
            && is_fn_type(u, params@, ret_ty)),
{
    match v.find_symbol(p) {
        None => Err(ValidationError::SymbolNotFound),
        Some(Symbol::Type(t)) => Ok(t),
        Some(Symbol::Variable(t)) => Ok(t),
        Some(Symbol::Function { ret_ty, params }) => {
            let ghost p0 = params@;
            let mut ps: Vec<Params> = Vec::new();
            let mut params = params;
            let ghost n = params@.len();
            while params.len() > 0
                invariant
                    ps@.len() + params@.len() == n,
                    p0.len() == n,
                    params@ == p0.subrange(ps@.len() as int, n as int),
                    forall|j: int| 0 <= j < ps@.len() ==> (#[trigger] ps@[j]).name is None && ps@[j].ty == p0[j],
                decreases params@.len(),
            {
                let ghost before = params@;
                let t = params.remove(0);
                assert(t == p0[ps@.len() as int]);
                ps.push(Params { name: None, ty: t });
                assert(params@ =~= p0.subrange(ps@.len() as int, n as int));
            }
            let r = Type::function(ps, ret_ty, false);
            proof {
                let ghost sp = crate::ast::validator::spec_find(*v, *p)->0;
                crate::general::types::lemma_ty_eqv_refl(ret_ty);
                assert forall|j: int| 0 <= j < p0.len() implies (#[trigger] r.kind->Function_0.params@[j]).name is None && ty_eqv(
                    r.kind->Function_0.params@[j].ty,
                    sp->params@[j],
                ) by {
                    assert(r.kind->Function_0.params@[j] == ps@[j]);
                }
            }
            Ok(r)
        },
    }
}

/// Checks a conditional: its parts, that both branches have the same type
/// when there is an `else`, and that the condition is a `bool`.
pub fn validate_conditional(c: &mut Conditional, v: &mut Validator, fuel: usize) -> (r: Result<(), ValidationError>)
    ensures
        scopes_kept(*old(v), *final(v)),
        r is Ok ==> final(c).condition.ret_ty == Some(bool_ty()),
        final(c).else_ is Some <==> old(c).else_ is Some,
        r is Ok && old(c).else_ is Some ==> (final(c).else_ matches Some(x) && x.ret_ty matches Some(a)
            && final(c).then_.ret_ty matches Some(b) && ty_eqv(a, b)),
        fuel >= 2 ==> (leaf_type(old(c).condition, *old(v)) matches Some(ct) ==> (leaf_type(old(c).then_, *old(v)) matches Some(tt)
            ==> (match old(c).else_ {
            None => (r is Ok <==> ty_eqv(ct, bool_ty())) && (r is Err ==> r == Err::<(), ValidationError>(
                ValidationError::ConditionNotBool,
            )),
            Some(x) => leaf_type(x, *old(v)) matches Some(te) ==> {
                &&& r is Ok <==> ty_eqv(te, tt) && ty_eqv(ct, bool_ty())
                &&& !ty_eqv(te, tt) ==> r == Err::<(), ValidationError>(ValidationError::BranchTypesDiffer)
                &&& ty_eqv(te, tt) && r is Err ==> r == Err::<(), ValidationError>(ValidationError::ConditionNotBool)
            },
        }))),
    decreases fuel, 1nat,
{
    if fuel == 0 {
        return Err(ValidationError::Unsupported);
    }
    let ghost c0 = *c;
    let ghost v0 = *v;
    proof { crate::general::types::lemma_ty_eqv_refl(bool_ty()); }
    validate_expression(&mut c.condition, v, fuel - 1)?;
    validate_expression(&mut c.then_, v, fuel - 1)?;
    if let Some(s) = &mut c.else_ {
        validate_expression(s, v, fuel - 1)?;
        let a = resolve_ret_ty(s, v, fuel - 1)?;
        let ghost x = s.ret_ty->0;
        let b = resolve_ret_ty(&mut c.then_, v, fuel - 1)?;
        let ghost y = c.then_.ret_ty->0;
        proof {
            if fuel >= 2 && leaf_type(c0.condition, v0) is Some && leaf_type(c0.then_, v0) is Some && leaf_type(c0.else_->0, v0) is Some {
                lemma_eqv_pairs(a, leaf_type(c0.else_->0, v0)->0, b, leaf_type(c0.then_, v0)->0);
            }
        }
        if !a.same_as(&b) {
            return Err(ValidationError::BranchTypesDiffer);
        }
        proof {
            lemma_ty_eqv_sym(a, x);
            lemma_ty_eqv_trans(x, a, b);
            lemma_ty_eqv_trans(x, b, y);
        }
    }
    let t = resolve_ret_ty(&mut c.condition, v, fuel - 1)?;
    proof {
        if fuel >= 2 && leaf_type(c0.condition, v0) is Some && leaf_type(c0.then_, v0) is Some && (c0.else_ is None || leaf_type(
            c0.else_->0,
            v0,
        ) is Some) {
            lemma_eqv_pairs(t, leaf_type(c0.condition, v0)->0, bool_ty(), bool_ty());
        }
    }
    if is_bool(&t) {
        return Ok(());
    }
    Err(ValidationError::ConditionNotBool)
}

/// Checks a `while` loop: its parts, and that the condition is a `bool`.
pub fn validate_while(w: &mut WhileLoop, v: &mut Validator, fuel: usize) -> (r: Result<(), ValidationError>)
    ensures
        scopes_kept(*old(v), *final(v)),
        r is Ok ==> final(w).condition.ret_ty == Some(bool_ty()),
        fuel >= 2 ==> (leaf_type(old(w).condition, *old(v)) matches Some(c) ==> (leaf_type(old(w).then_, *old(v)) is Some ==> (r is Ok
            <==> ty_eqv(c, bool_ty())) && (r is Err ==> r == Err::<(), ValidationError>(ValidationError::ConditionNotBool)))),
    decreases fuel, 1nat,
{
    if fuel == 0 {
        return Err(ValidationError::Unsupported);
    }
    let ghost w0 = *w;
    let ghost v0 = *v;
    validate_expression(&mut w.condition, v, fuel - 1)?;
    validate_expression(&mut w.then_, v, fuel - 1)?;
    let t = resolve_ret_ty(&mut w.condition, v, fuel - 1)?;
    proof {
        crate::general::types::lemma_ty_eqv_refl(bool_ty());
        if fuel >= 2 && leaf_type(w0.condition, v0) is Some && leaf_type(w0.then_, v0) is Some {
            lemma_eqv_pairs(t, leaf_type(w0.condition, v0)->0, bool_ty(), bool_ty());
        }
    }
    if !t.same_as(&Type::bool()) {
        return Err(ValidationError::ConditionNotBool);
    }
    Ok(())
}

/// Checks a unary operation: its operand, which `*` needs to be a pointer
/// and `-` a number.
pub fn validate_unary(u: &mut UnaryOperation, v: &mut Validator, fuel: usize) -> (r: Result<(), ValidationError>)
    ensures
        scopes_kept(*old(v), *final(v)),
        final(u).operator == old(u).operator,
        r is Ok ==> final(u).operand.ret_ty is Some,
        r is Ok && old(u).operator == UnaryOperator::Deref ==> final(u).operand.ret_ty->0.kind is Pointer,
        r is Ok && old(u).operator == UnaryOperator::Negation ==> (final(u).operand.ret_ty->0.kind matches TypeKind::Primitive(p)
            && (p is Int || p is Uint || p is Float)),
        fuel >= 2 ==> (leaf_type(old(u).operand, *old(v)) matches Some(t) ==> {
            &&& old(u).operator == UnaryOperator::Deref ==> (r is Ok <==> t.kind is Pointer) && (r is Err ==> r == Err::<
                (),
                ValidationError,
            >(ValidationError::CannotDeref))
            &&& old(u).operator == UnaryOperator::Negation ==> (r is Ok <==> is_number_type(t)) && (r is Err ==> r == Err::<
                (),
                ValidationError,
            >(ValidationError::CannotNegate))
            &&& old(u).operator != UnaryOperator::Deref && old(u).operator != UnaryOperator::Negation ==> r is Ok
        }),
    decreases fuel, 1nat,
{
    if fuel == 0 {
        return Err(ValidationError::Unsupported);
    }
    let ghost u0 = *u;
    let ghost v0 = *v;
    validate_expression(&mut u.operand, v, fuel - 1)?;
    let t = resolve_ret_ty(&mut u.operand, v, fuel - 1)?;
    proof {
        if fuel >= 2 && leaf_type(u0.operand, v0) is Some {
            let lt = leaf_type(u0.operand, v0)->0;
            assert(ty_eqv(t, lt));
            assert((t.kind is Pointer) == (lt.kind is Pointer));
            assert(is_number_type(t) == is_number_type(lt));
        }
    }
    match u.operator {
        UnaryOperator::Deref => match t.kind {
            TypeKind::Pointer(_) => Ok(()),
            _ => Err(ValidationError::CannotDeref),
        },
        UnaryOperator::Negation => if is_number(&t) {
            Ok(())
        } else {
            Err(ValidationError::CannotNegate)
        },
        _ => Ok(()),
    }
}

/// What a check of an expression of kind `k` has found of its parts: the
/// operands of a binary operation typed, both pointers or of one type; the
/// condition of `while` and `if` a `bool`, the branches of an `if` with an
/// `else` of one type; the operand of a unary operation typed, a pointer
/// under `*`, a number under `-`; both sides of an assignment typed and of
/// one type; an indexed value that has elements and an integer index, where
/// their types are known; an intrinsic given as many arguments as it takes,
/// of the types it takes (`copy` one argument). Calls, method calls, loops
/// and blocks check their parts as expressions of their own: see
/// `parts_checked`.
pub open spec fn checked_by_parts(k: ExpressionKind) -> bool {
    match k {
        ExpressionKind::BinaryOperation(b) => b.operands[0].ret_ty matches Some(x) && (b.operands[1].ret_ty matches Some(y) && (
        (spec_is_pointer(x) && spec_is_pointer(y)) || ty_eqv(x, y))),
        ExpressionKind::While(w) => w.condition.ret_ty == Some(bool_ty()),
        ExpressionKind::If(c) => c.condition.ret_ty == Some(bool_ty()) && (c.else_ matches Some(x) ==> (x.ret_ty matches Some(a)
            && (c.then_.ret_ty matches Some(b) && ty_eqv(a, b)))),
        ExpressionKind::UnaryOperation(u) => u.operand.ret_ty matches Some(t) && (u.operator == UnaryOperator::Deref ==> t.kind is Pointer)
            && (u.operator == UnaryOperator::Negation ==> (t.kind matches TypeKind::Primitive(p) && (p is Int || p is Uint
            || p is Float))),
        ExpressionKind::Assignment(a, b) => a.ret_ty matches Some(x) && (b.ret_ty matches Some(y) && ty_eqv(x, y)),
        ExpressionKind::Index(x, i) => (x.ret_ty matches Some(xt) ==> element_type(xt) is Some) && (i.ret_ty matches Some(it) ==> (
        it.kind matches TypeKind::Primitive(p) && (p is Int || p is Uint))),
        ExpressionKind::Intrinsic(i) => if i.kind == IntrinsicKind::Copy {
            i.parameters@.len() == 1
        } else {
            &&& i.parameters@.len() == expected_params(i.kind).len()
            &&& forall|k: int| 0 <= k < expected_params(i.kind).len() ==> ((#[trigger] i.parameters@[k]).ret_ty matches Some(t)
                && ty_eqv(t, expected_params(i.kind)[k]))
        },
        _ => true,
    }
}

/// What a check of a call, a method call, a loop or a block has found of the
/// expressions in it: each was checked in turn (the callee or object and
/// every argument, the loop's body, every statement that the block's check
/// reaches). A call's arguments are not compared with the callee's
/// parameters.
pub open spec fn parts_checked(k: ExpressionKind) -> bool {
    match k {
        ExpressionKind::Call(c) => checked_by_parts(*c.called.kind) && forall|i: int| 0 <= i < c.parameters@.len()
            ==> checked_by_parts(*(#[trigger] c.parameters@[i]).kind),
        ExpressionKind::MethodCall(m) => checked_by_parts(*m.object.kind) && forall|i: int| 0 <= i < m.params@.len()
            ==> checked_by_parts(*(#[trigger] m.params@[i]).kind),
        ExpressionKind::Loop(l) => checked_by_parts(*l.body.kind),
        ExpressionKind::Block(b) => forall|i: int| 0 <= i < b.statements@.len() && reached(b.statements@, i) ==> statement_checked(
            #[trigger] b.statements@[i],
        ),
        _ => true,
    }
}

/// Checks an expression and the expressions in it: names must be defined,
/// operands, conditions, calls and indexes well typed.
///
/// `fuel` bounds the depth of the check; a tree deeper than `fuel` is
/// refused as not supported (no tree that fits in memory is as deep as
/// `usize::MAX`).
#[verifier::loop_isolation(false)]
pub fn validate_expression(e: &mut Expression, v: &mut Validator, fuel: usize) -> (r: Result<(), ValidationError>)
    ensures
        scopes_kept(*old(v), *final(v)),
        fuel == 0 ==> r == Err::<(), ValidationError>(ValidationError::Unsupported),
        fuel > 0 && *old(e).kind is Literal ==> r is Ok,
        fuel > 0 ==> (*old(e).kind matches ExpressionKind::Identifier(p) ==> ((r is Ok
            <==> crate::ast::validator::spec_find(*old(v), p) is Some) && *final(v) == *old(v))),
        fuel > 0 && *old(e).kind is MemberAccess ==> r == Err::<(), ValidationError>(ValidationError::Unsupported),
        fuel > 0 ==> (*old(e).kind matches ExpressionKind::StructInit(init) && crate::ast::validator::spec_find(*old(v), init.ident)
            is None ==> r == Err::<(), ValidationError>(ValidationError::TypeNotFound)),
        same_shape(*old(e).kind, *final(e).kind),
        final(e).ret_ty == old(e).ret_ty,
        r is Ok ==> checked_by_parts(*final(e).kind),
        r is Ok ==> parts_checked(*final(e).kind),
        fuel > 0 && leaf_type(*old(e), *old(v)) is Some ==> r is Ok && *final(v) == *old(v) && *final(e) == *old(e),
        fuel > 1 ==> (*old(e).kind matches ExpressionKind::Assignment(a, b) ==> (leaf_type(a, *old(v)) matches Some(x) ==> (leaf_type(
            b,
            *old(v),
        ) matches Some(y) ==> (r is Ok <==> ty_eqv(x, y)) && (!ty_eqv(x, y) ==> r == Err::<(), ValidationError>(
            ValidationError::AssignmentTypesDiffer,
        ))))),
        fuel > 1 ==> (*old(e).kind matches ExpressionKind::BinaryOperation(bo) ==> (leaf_type(bo.operands[0], *old(v)) matches Some(x)
            ==> (leaf_type(bo.operands[1], *old(v)) matches Some(y) ==> (r is Ok <==> operands_agree(x, y)) && (r is Err ==> r
            == Err::<(), ValidationError>(ValidationError::OperandTypesDiffer))))),
        fuel > 1 ==> (*old(e).kind matches ExpressionKind::While(w) ==> (leaf_type(w.condition, *old(v)) matches Some(c) ==> (
        leaf_type(w.then_, *old(v)) is Some ==> (r is Ok <==> ty_eqv(c, bool_ty())) && (r is Err ==> r == Err::<(), ValidationError>(
            ValidationError::ConditionNotBool,
        ))))),
        fuel > 1 ==> (*old(e).kind matches ExpressionKind::If(cd) ==> (leaf_type(cd.condition, *old(v)) matches Some(ct) ==> (leaf_type(
            cd.then_,
            *old(v),
        ) matches Some(tt) ==> (match cd.else_ {
            None => (r is Ok <==> ty_eqv(ct, bool_ty())) && (r is Err ==> r == Err::<(), ValidationError>(
                ValidationError::ConditionNotBool,
            )),
            Some(x) => leaf_type(x, *old(v)) matches Some(te) ==> {
                &&& r is Ok <==> ty_eqv(te, tt) && ty_eqv(ct, bool_ty())
                &&& !ty_eqv(te, tt) ==> r == Err::<(), ValidationError>(ValidationError::BranchTypesDiffer)
                &&& ty_eqv(te, tt) && r is Err ==> r == Err::<(), ValidationError>(ValidationError::ConditionNotBool)
            },
        })))),
        fuel > 1 ==> (*old(e).kind matches ExpressionKind::UnaryOperation(u) ==> (leaf_type(u.operand, *old(v)) matches Some(t) ==> {
            &&& u.operator == UnaryOperator::Deref ==> (r is Ok <==> t.kind is Pointer) && (r is Err ==> r == Err::<
                (),
                ValidationError,
            >(ValidationError::CannotDeref))
            &&& u.operator == UnaryOperator::Negation ==> (r is Ok <==> is_number_type(t)) && (r is Err ==> r == Err::<
                (),
                ValidationError,
            >(ValidationError::CannotNegate))
            &&& u.operator != UnaryOperator::Deref && u.operator != UnaryOperator::Negation ==> r is Ok
        })),
        fuel >= 3 ==> (*old(e).kind matches ExpressionKind::Block(bl) ==> ((forall|i: int| 0 <= i < bl.statements@.len() && reached(
            bl.statements@,
            i,
        ) ==> settled_statement(#[trigger] bl.statements@[i], *old(v))) ==> r is Ok)),
    decreases fuel, 3nat,
{
    if fuel == 0 {
        return Err(ValidationError::Unsupported);
    }
    match &*e.kind {
        ExpressionKind::Identifier(p) => {
            return match v.find_symbol(p) {
                Some(_) => Ok(()),
                None => Err(ValidationError::SymbolNotFound),
            };
        },
        ExpressionKind::Literal(_) => {
            return Ok(());
        },
        ExpressionKind::MemberAccess(_) => {
            return Err(ValidationError::Unsupported);
        },
        _ => {},
    }
    match &mut *e.kind {
        ExpressionKind::BinaryOperation(b) => validate_binary(b, v, fuel),
        ExpressionKind::While(w) => validate_while(w, v, fuel),
        ExpressionKind::Intrinsic(i) => validate_intrinsic(i, v, fuel),
        ExpressionKind::Block(b) => validate_block(b, v, fuel),
        ExpressionKind::Call(c) => {
            validate_expression(&mut c.called, v, fuel - 1)?;
            let ghost called = c.called;
            let mut k: usize = 0;
            while k < c.parameters.len()
                invariant
                    fuel > 0,
                    scopes_kept(*old(v), *v),
                    c.called == called,
                    k <= c.parameters@.len(),
                    forall|i: int| 0 <= i < k ==> checked_by_parts(*(#[trigger] c.parameters@[i]).kind),
                decreases c.parameters@.len() - k,
            {
                let ghost before = c.parameters@;
                validate_expression(&mut c.parameters[k], v, fuel - 1)?;
                assert forall|i: int| 0 <= i < k + 1 implies checked_by_parts(*(#[trigger] c.parameters@[i]).kind) by {
                    if i < k {
                        assert(c.parameters@[i] == before[i]);
                    }
                }
                k += 1;
            }
            Ok(())
        },
        ExpressionKind::MethodCall(m) => {
            validate_expression(&mut m.object, v, fuel - 1)?;
            let ghost method = m.method;
            let ghost object = m.object;
            let mut k: usize = 0;
            while k < m.params.len()
                invariant
                    fuel > 0,
                    scopes_kept(*old(v), *v),
                    m.method == method,
                    m.object == object,
                    k <= m.params@.len(),
                    forall|i: int| 0 <= i < k ==> checked_by_parts(*(#[trigger] m.params@[i]).kind),
                decreases m.params@.len() - k,
            {
                let ghost before = m.params@;
                validate_expression(&mut m.params[k], v, fuel - 1)?;
                assert forall|i: int| 0 <= i < k + 1 implies checked_by_parts(*(#[trigger] m.params@[i]).kind) by {
                    if i < k {
                        assert(m.params@[i] == before[i]);
                    }
                }
                k += 1;
            }
            Ok(())
        },
        ExpressionKind::Assignment(a, b) => {
            validate_expression(a, v, fuel - 1)?;
            validate_expression(b, v, fuel - 1)?;
            let aty = resolve_ret_ty(a, v, fuel - 1)?;
            let bty = resolve_ret_ty(b, v, fuel - 1)?;
            proof {
                if old(e).kind->Assignment_0.ret_ty is None && old(e).kind->Assignment_1.ret_ty is None {
                    let oa = old(e).kind->Assignment_0;
                    let ob = old(e).kind->Assignment_1;
                    if leaf_type(oa, *old(v)) is Some && leaf_type(ob, *old(v)) is Some {
                        let x = leaf_type(oa, *old(v))->0;
                        let y = leaf_type(ob, *old(v))->0;
                        if ty_eqv(x, y) {
                            lemma_ty_eqv_sym(aty, x);
                            lemma_ty_eqv_trans(aty, x, y);
                            lemma_ty_eqv_sym(bty, y);
                            lemma_ty_eqv_trans(aty, y, bty);
                        } else if ty_eqv(aty, bty) {
                            lemma_ty_eqv_trans(aty, bty, y);
                            lemma_ty_eqv_sym(aty, x);
                            lemma_ty_eqv_trans(x, aty, y);
                        }
                    }
                }
            }
            if !aty.same_as(&bty) {
                return Err(ValidationError::AssignmentTypesDiffer);
            }
            proof {
                let x = a.ret_ty->0;
                let y = b.ret_ty->0;
                lemma_ty_eqv_sym(aty, x);
                lemma_ty_eqv_trans(x, aty, bty);
                lemma_ty_eqv_trans(x, bty, y);
            }
            Ok(())
        },
        ExpressionKind::UnaryOperation(u) => validate_unary(u, v, fuel),
        ExpressionKind::Loop(l) => validate_expression(&mut l.body, v, fuel - 1),
        ExpressionKind::If(c) => validate_conditional(c, v, fuel),
        ExpressionKind::Index(x, index) => {
            validate_expression(x, v, fuel - 1)?;
            validate_expression(index, v, fuel - 1)?;
            if let Some(t) = &x.ret_ty {
                match t.kind {
                    TypeKind::Array(_) | TypeKind::Pointer(_) | TypeKind::MutablePointer(_) => {},
                    _ => {
                        return Err(ValidationError::IndexNotArray);
                    },
                }
            }
            if let Some(t) = &index.ret_ty {
                match t.kind {
                    TypeKind::Primitive(PrimitiveType::Uint(_)) | TypeKind::Primitive(PrimitiveType::Int(_)) => {},
                    _ => {
                        return Err(ValidationError::IndexNotInteger);
                    },
                }
            }
            Ok(())
        },
        ExpressionKind::StructInit(init) => {
            if v.find_symbol(&init.ident).is_none() {
                return Err(ValidationError::TypeNotFound);
            }
            let ghost ident = init.ident;
            let mut k: usize = 0;
            while k < init.params.len()
                invariant
                    fuel > 0,
                    scopes_kept(*old(v), *v),
                    init.ident == ident,
                decreases init.params@.len() - k,
            {
                validate_expression(&mut init.params[k].1, v, fuel - 1)?;
                k += 1;
            }
            Ok(())
        },
        // answered above
        ExpressionKind::Identifier(_) | ExpressionKind::Literal(_) | ExpressionKind::MemberAccess(_) => unreached(),
    }
}

/// The type of a leaf expression under `v`, whose check and type are
/// decided at once: a literal has its literal type, the name of a variable
/// or of a type the type it stands for. `None` for any other expression, or
/// one whose type is already known.
pub open spec fn leaf_type(e: Expression, v: Validator) -> Option<Type> {
    if e.ret_ty is Some {
        None
    } else {
        match *e.kind {
            ExpressionKind::Literal(l) => Some(spec_literal_type(l.info)),
            ExpressionKind::Identifier(p) => match crate::ast::validator::spec_find(v, p) {
                Some(Symbol::Variable(t)) => Some(t),
                Some(Symbol::Type(t)) => Some(t),
                _ => None,
            },
            _ => None,
        }
    }
}

/// What indexing into a value of type `t` gives: the element type of an
/// array, or what a pointer points to.
pub open spec fn element_type(t: Type) -> Option<Type> {
    match t.kind {
        TypeKind::Array(x) => Some(*x),
        TypeKind::Pointer(x) => Some(*x),
        TypeKind::MutablePointer(x) => Some(*x),
        _ => None,
    }
}

/// Two expression kinds of the same variant, with the same operator, the
/// same literal, name, intrinsic, method or struct where they have one.
pub open spec fn same_shape(a: ExpressionKind, b: ExpressionKind) -> bool {
    match (a, b) {
        (ExpressionKind::UnaryOperation(x), ExpressionKind::UnaryOperation(y)) => x.operator == y.operator,
        (ExpressionKind::BinaryOperation(x), ExpressionKind::BinaryOperation(y)) => x.operator == y.operator,
        (ExpressionKind::Literal(x), ExpressionKind::Literal(y)) => x == y,
        (ExpressionKind::Identifier(x), ExpressionKind::Identifier(y)) => x == y,
        (ExpressionKind::Intrinsic(x), ExpressionKind::Intrinsic(y)) => x.kind == y.kind,
        (ExpressionKind::Call(_), ExpressionKind::Call(_)) => true,
        (ExpressionKind::Assignment(_, _), ExpressionKind::Assignment(_, _)) => true,
        (ExpressionKind::Loop(_), ExpressionKind::Loop(_)) => true,
        (ExpressionKind::If(_), ExpressionKind::If(_)) => true,
        (ExpressionKind::While(_), ExpressionKind::While(_)) => true,
        (ExpressionKind::Index(_, _), ExpressionKind::Index(_, _)) => true,
        (ExpressionKind::Block(_), ExpressionKind::Block(_)) => true,
        (ExpressionKind::MethodCall(x), ExpressionKind::MethodCall(y)) => x.method == y.method,
        (ExpressionKind::StructInit(x), ExpressionKind::StructInit(y)) => x.ident == y.ident,
        _ => a == b,
    }
}

/// The type `t` that an expression of kind `k` has, in terms of the types
/// of its parts: a call gives what the called function returns, an
/// assignment the type of its target, a unary operation what
/// `spec_unary_type` gives, `loop`, `if` and `while` the type of their body,
/// an index the element type of what is indexed, a block `void`, a
/// comparison `bool` and another binary operation the type of its left
/// operand, a literal its literal type, an intrinsic its result type (`copy`
/// the type of its argument). A name is typed by the scopes; a method call,
/// a struct literal or a member access has no type yet.
pub open spec fn typed_from_parts(k: ExpressionKind, t: Type) -> bool {
    match k {
        ExpressionKind::Call(c) => c.called.ret_ty matches Some(ft) && ft.kind matches TypeKind::Function(f) && ty_eqv(t, *f.ret_ty),
        ExpressionKind::Assignment(a, _) => a.ret_ty matches Some(at) && ty_eqv(t, at),
        ExpressionKind::UnaryOperation(u) => u.operand.ret_ty matches Some(ot) && spec_unary_type(u.operator, ot) matches Ok(ut)
            && ty_eqv(t, ut),
        ExpressionKind::Loop(l) => l.body.ret_ty matches Some(bt) && ty_eqv(t, bt),
        ExpressionKind::If(c) => c.then_.ret_ty matches Some(bt) && ty_eqv(t, bt),
        ExpressionKind::While(w) => w.then_.ret_ty matches Some(bt) && ty_eqv(t, bt),
        ExpressionKind::Index(x, i) => i.ret_ty is Some && (x.ret_ty matches Some(xt) && element_type(xt) matches Some(et)
            && ty_eqv(t, et)),
        ExpressionKind::Block(_) => t.kind == TypeKind::Primitive(PrimitiveType::Void),
        ExpressionKind::BinaryOperation(b) => if is_comparison(b.operator) {
            t == bool_ty()
        } else {
            (b.operands[0].ret_ty matches Some(a) && ty_eqv(t, a))
        },
        ExpressionKind::Literal(l) => ty_eqv(t, spec_literal_type(l.info)),
        ExpressionKind::Intrinsic(i) => if i.kind == IntrinsicKind::Copy {
            i.parameters@.len() >= 1 && (i.parameters@[0].ret_ty matches Some(pt) && ty_eqv(t, pt))
        } else {
            Some(t) == intrinsic_result(i.kind)
        },
        ExpressionKind::Identifier(_) => true,
        _ => false,
    }
}

/// Why an expression of kind `k` gets no type, in terms of its parts: once
/// the called value and every argument are typed, a call fails only for
/// calling what is no function; once its operand is typed, a unary
/// operation fails as `spec_unary_type` says; once both parts are typed, an
/// index fails only for indexing what has no elements; an assignment,
/// `loop`, `if` and `while` fail only where the part that gives their type
/// does. A method call is not worked out yet, a struct literal and a member
/// access are not supported.
pub open spec fn refused_by_parts(k: ExpressionKind, x: ValidationError) -> bool {
    match k {
        ExpressionKind::Call(c) => match c.called.ret_ty {
            Some(ft) => (forall|j: int| 0 <= j < c.parameters@.len() ==> (#[trigger] c.parameters@[j]).ret_ty is Some) ==> (x
                == ValidationError::CallOfNonFunction && !(ft.kind is Function)),
            None => true,
        },
        ExpressionKind::UnaryOperation(u) => u.operand.ret_ty matches Some(ot) ==> spec_unary_type(u.operator, ot) == Err::<
            Type,
            ValidationError,
        >(x),
        ExpressionKind::Index(xe, i) => match xe.ret_ty {
            Some(xt) => i.ret_ty is Some ==> (x == ValidationError::IndexNotArray && element_type(xt) is None),
            None => true,
        },
        ExpressionKind::Assignment(a, _) => a.ret_ty is None,
        ExpressionKind::Loop(l) => l.body.ret_ty is None,
        ExpressionKind::If(c) => c.then_.ret_ty is None,
        ExpressionKind::While(w) => w.then_.ret_ty is None,
        ExpressionKind::Literal(_) => false,
        ExpressionKind::MethodCall(_) => x == ValidationError::MethodCallNotImplemented,
        ExpressionKind::StructInit(_) => x == ValidationError::Unsupported,
        ExpressionKind::MemberAccess(_) => x == ValidationError::Unsupported,
        _ => true,
    }
}

/// Equivalent operand types give equivalent unary results, or the same
/// refusal.
proof fn lemma_unary_type_eqv(op: UnaryOperator, a: Type, b: Type)
    requires
        ty_eqv(a, b),
    ensures
        match (spec_unary_type(op, a), spec_unary_type(op, b)) {
            (Ok(x), Ok(y)) => ty_eqv(x, y),
            (Err(x), Err(y)) => x == y,
            _ => false,
        },
{
    match op {
        UnaryOperator::Ref => {
            assert(ty_eqv(Type { kind: TypeKind::Pointer(Box::new(a)) }, Type { kind: TypeKind::Pointer(Box::new(b)) }));
        },
        UnaryOperator::Increase | UnaryOperator::Decrease => {
            crate::general::types::lemma_ty_eqv_refl(int_ty(32));
        },
        _ => {},
    }
}

/// A type equivalent to one that the parts give is one that they give.
proof fn lemma_typed_from_parts_eqv(k: ExpressionKind, t1: Type, t2: Type)
    requires
        typed_from_parts(k, t2),
        ty_eqv(t1, t2),
    ensures
        typed_from_parts(k, t1),
{
    match k {
        ExpressionKind::Call(c) => {
            let f = c.called.ret_ty->0.kind->Function_0;
            lemma_ty_eqv_trans(t1, t2, *f.ret_ty);
        },
        ExpressionKind::Assignment(a, _) => {
            lemma_ty_eqv_trans(t1, t2, a.ret_ty->0);
        },
        ExpressionKind::UnaryOperation(u) => {
            lemma_ty_eqv_trans(t1, t2, spec_unary_type(u.operator, u.operand.ret_ty->0)->Ok_0);
        },
        ExpressionKind::Loop(l) => {
            lemma_ty_eqv_trans(t1, t2, l.body.ret_ty->0);
        },
        ExpressionKind::If(c) => {
            lemma_ty_eqv_trans(t1, t2, c.then_.ret_ty->0);
        },
        ExpressionKind::While(w) => {
            lemma_ty_eqv_trans(t1, t2, w.then_.ret_ty->0);
        },
        ExpressionKind::Index(x, _) => {
            lemma_ty_eqv_trans(t1, t2, element_type(x.ret_ty->0)->0);
        },
        ExpressionKind::BinaryOperation(b) => {
            if !is_comparison(b.operator) {
                lemma_ty_eqv_trans(t1, t2, b.operands[0].ret_ty->0);
            }
        },
        ExpressionKind::Literal(l) => {
            lemma_ty_eqv_trans(t1, t2, spec_literal_type(l.info));
        },
        ExpressionKind::Intrinsic(i) => {
            if i.kind == IntrinsicKind::Copy {
                lemma_ty_eqv_trans(t1, t2, i.parameters@[0].ret_ty->0);
            }
        },
        _ => {},
    }
}

/// The type of an expression, worked out once and kept in `ret_ty`: an
/// expression whose type is known keeps it.
///
/// `fuel` bounds the depth as for `validate_expression`.
#[verifier::loop_isolation(false)]
pub fn resolve_ret_ty(e: &mut Expression, v: &mut Validator, fuel: usize) -> (r: Result<Type, ValidationError>)
    ensures
        scopes_kept(*old(v), *final(v)),
        old(e).ret_ty matches Some(t) ==> r matches Ok(t2) && ty_eqv(t2, t) && *final(e) == *old(e) && *final(v) == *old(v),
        r matches Ok(t) ==> final(e).ret_ty matches Some(c) && ty_eqv(t, c),
        fuel > 0 && old(e).ret_ty is None && *old(e).kind is Literal ==> r == Ok::<Type, ValidationError>(
            spec_literal_type(old(e).kind->Literal_0.info),
        ),
        fuel == 0 && old(e).ret_ty is None ==> r == Err::<Type, ValidationError>(ValidationError::Unsupported),
        fuel > 0 && old(e).ret_ty is None ==> (*old(e).kind matches ExpressionKind::Identifier(p) ==> (
            (r is Ok <==> crate::ast::validator::spec_find(*old(v), p) is Some)
            && (crate::ast::validator::spec_find(*old(v), p) matches Some(Symbol::Variable(t)) ==> (r matches Ok(u) && ty_eqv(u, t)))
            && (crate::ast::validator::spec_find(*old(v), p) matches Some(Symbol::Type(t)) ==> (r matches Ok(u) && ty_eqv(u, t)))
            && (crate::ast::validator::spec_find(*old(v), p) matches Some(Symbol::Function { ret_ty, params }) ==> (r matches Ok(u)
            && is_fn_type(u, params@, ret_ty))))),
        fuel > 0 && old(e).ret_ty is None && *old(e).kind is MethodCall ==> r == Err::<Type, ValidationError>(
            ValidationError::MethodCallNotImplemented,
        ),
        fuel > 0 && old(e).ret_ty is None && (*old(e).kind is StructInit || *old(e).kind is MemberAccess) ==> r == Err::<
            Type,
            ValidationError,
        >(ValidationError::Unsupported),
        r is Err ==> final(e).ret_ty == old(e).ret_ty,
        old(e).ret_ty is None ==> same_shape(*old(e).kind, *final(e).kind),
        old(e).ret_ty is None ==> (r matches Ok(t) ==> typed_from_parts(*final(e).kind, t)),
        fuel > 0 && old(e).ret_ty is None ==> (r matches Err(x) ==> refused_by_parts(*final(e).kind, x)),
        fuel > 0 ==> (leaf_type(*old(e), *old(v)) matches Some(t) ==> (r matches Ok(u) && ty_eqv(u, t) && *final(v) == *old(v)
            && final(e).kind == old(e).kind && (final(e).ret_ty matches Some(c) && ty_eqv(c, t)))),
    decreases fuel, 3nat,
{
    if let Some(t) = &e.ret_ty {
        return Ok(t.copy());
    }
    if fuel == 0 {
        return Err(ValidationError::Unsupported);
    }
    match &*e.kind {
        ExpressionKind::MethodCall(_) => {
            return Err(ValidationError::MethodCallNotImplemented);
        },
        ExpressionKind::StructInit(_) | ExpressionKind::MemberAccess(_) => {
            return Err(ValidationError::Unsupported);
        },
        _ => {},
    }
    let ty = match &mut *e.kind {
        ExpressionKind::BinaryOperation(b) => resolve_binary(b, v, fuel)?,
        ExpressionKind::While(w) => resolve_ret_ty(&mut w.then_, v, fuel - 1)?,
        ExpressionKind::Identifier(p) => resolve_identifier(p, v)?,
        ExpressionKind::Intrinsic(i) => resolve_intrinsic(i, v, fuel)?,
        ExpressionKind::Literal(l) => literal_type(l.info),
        ExpressionKind::Block(b) => resolve_block(b, v, fuel)?,
        ExpressionKind::Call(c) => {
            let f = resolve_ret_ty(&mut c.called, v, fuel - 1)?;
            let ghost called = c.called;
            let mut k: usize = 0;
            while k < c.parameters.len()
                invariant
                    fuel > 0,
                    scopes_kept(*old(v), *v),
                    c.called == called,
                    k <= c.parameters@.len(),
                    forall|j: int| 0 <= j < k ==> (#[trigger] c.parameters@[j]).ret_ty is Some,
                decreases c.parameters@.len() - k,
            {
                let ghost before = c.parameters@;
                match resolve_ret_ty(&mut c.parameters[k], v, fuel - 1) {
                    Ok(_) => {},
                    Err(x) => {
                        assert(c.parameters@[k as int].ret_ty is None);
                        return Err(x);
                    },
                }
                assert forall|j: int| 0 <= j < k + 1 implies (#[trigger] c.parameters@[j]).ret_ty is Some by {
                    if j < k {
                        assert(c.parameters@[j] == before[j]);
                    }
                }
                k += 1;
            }
            match f.kind {
                TypeKind::Function(ft) => *ft.ret_ty,
                _ => {
                    assert(!(called.ret_ty->0.kind is Function));
                    return Err(ValidationError::CallOfNonFunction);
                },
            }
        },
        ExpressionKind::Assignment(a, _) => resolve_ret_ty(a, v, fuel - 1)?,
        ExpressionKind::UnaryOperation(u) => {
            let t = resolve_ret_ty(&mut u.operand, v, fuel - 1)?;
            proof { lemma_unary_type_eqv(u.operator, t, u.operand.ret_ty->0); }
            let r = unary_type(u.operator, t);
            match r {
                Ok(ut) => {
                    proof { lemma_ty_eqv_trans(ut, spec_unary_type(u.operator, t)->Ok_0, spec_unary_type(u.operator, u.operand.ret_ty->0)->Ok_0); }
                    ut
                },
                Err(x) => {
                    return Err(x);
                },
            }
        },
        ExpressionKind::Loop(l) => resolve_ret_ty(&mut l.body, v, fuel - 1)?,
        ExpressionKind::If(c) => resolve_ret_ty(&mut c.then_, v, fuel - 1)?,
        ExpressionKind::Index(x, index) => {
            resolve_ret_ty(index, v, fuel - 1)?;
            let t = resolve_ret_ty(x, v, fuel - 1)?;
            match t.kind {
                TypeKind::Array(inner) | TypeKind::Pointer(inner) | TypeKind::MutablePointer(inner) => *inner,
                _ => {
                    return Err(ValidationError::IndexNotArray);
                },
            }
        },
        // answered above
        ExpressionKind::MethodCall(_) | ExpressionKind::StructInit(_) | ExpressionKind::MemberAccess(_) => unreached(),
    };
    let out = ty.copy();
    let ghost kept = ty;
    e.ret_ty = Some(ty);
    proof {
        lemma_typed_from_parts_eqv(*e.kind, out, kept);
        crate::general::types::lemma_ty_eqv_refl(out);
        if let ExpressionKind::Identifier(p) = *old(e).kind {
            match crate::ast::validator::spec_find(*old(v), p) {
                Some(Symbol::Variable(t)) | Some(Symbol::Type(t)) => {
                    lemma_ty_eqv_trans(out, kept, t);
                },
                Some(Symbol::Function { ret_ty, params }) => {
                    lemma_fn_type_eqv(out, kept, params@, ret_ty);
                },
                _ => {},
            }
        }
    }
    Ok(out)
}

} // verus!
