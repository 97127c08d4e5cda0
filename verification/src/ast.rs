pub mod expressions;
pub mod function;
pub mod module;
pub mod project;
pub mod simplify;
pub mod validator;
pub mod traits;
pub mod typing;

use vstd::prelude::*;
use crate::general::path::QualifiedName;
use crate::general::types::Type;
use crate::ast::expressions::Expression;
use crate::ast::function::{FunctionDeclaration, FunctionDefinition, FunctionC};
use crate::ast::module::Module;
use crate::ast::traits::Trait;

verus! {

/// Who may refer to a definition.
#[derive(Debug, Clone, Copy, PartialEq, Eq, Structural)]
pub enum Visibility {
    Private,
    Module,
    Public,
}

/// A variable definition: mutability, initial value and optional type.
#[derive(Debug, PartialEq)]
pub struct Variable {
    pub mutable: bool,
    pub value: Expression,
    pub ty: Option<Type>,
}

/// `extend Target { ... }`
#[derive(Debug, PartialEq)]
pub struct Implementation {
    pub target: QualifiedName,
    pub definitions: Vec<Definition>,
}

/// `extend Target as Trait { ... }`
#[derive(Debug, PartialEq)]
pub struct TraitImplementation {
    pub trait_path: QualifiedName,
    pub target: QualifiedName,
    pub definitions: Vec<Definition>,
}

#[derive(Debug, PartialEq)]
pub enum DefinitionKind {
    Variable(Variable),
    Type(Type),
    FunctionDefinition(FunctionDefinition),
    FunctionDeclaration(FunctionDeclaration),
    Module(Module),
    Trait(Trait),
    Implementation(Implementation),
    TraitImplementation(TraitImplementation),
    /// hidden definition used for C symbol resolution
    FunctionC(FunctionC),
    /// hidden definition used for C symbol resolution
    VarC(Variable),
}

/// A named definition with its visibility.
#[derive(Debug, PartialEq)]
pub struct Definition {
    pub kind: DefinitionKind,
    pub visibility: Visibility,
    pub name: String,
}

/// An import of a Niebo path, or of a symbol of a C header
/// (`header stdio::printf;`).
#[derive(Debug, PartialEq)]
pub struct Import {
    pub c_import: bool,
    pub path: QualifiedName,
}

impl Visibility {
    /// The default visibility of a definition.
    pub fn default_visibility() -> (r: Self)
        ensures
            r == Visibility::Public,
    {
        Visibility::Public
    }
}

impl Definition {
    /// A public module definition.
    pub fn module(ident: String, module: Module) -> (r: Self)
        ensures
            r.kind == DefinitionKind::Module(module),
            r.name == ident,
            r.visibility == Visibility::Public,
    {
        Definition { kind: DefinitionKind::Module(module), name: ident, visibility: Visibility::Public }
    }

    /// A type definition.
    pub fn type_def(ident: String, ty: Type, visibility: Visibility) -> (r: Self)
        ensures
            r.kind == DefinitionKind::Type(ty),
            r.name == ident,
            r.visibility == visibility,
    {
        Definition { name: ident, kind: DefinitionKind::Type(ty), visibility }
    }

    /// A public variable definition.
    pub fn variable(ident: String, value: Expression, mutable: bool, ty: Option<Type>) -> (r: Self)
        ensures
            r.kind == DefinitionKind::Variable(Variable { mutable, value, ty }),
            r.name == ident,
            r.visibility == Visibility::Public,
    {
        Definition {
            kind: DefinitionKind::Variable(Variable { mutable, value, ty }),
            visibility: Visibility::Public,
            name: ident,
        }
    }

    /// A public variable definition (arguments in another order).
    pub fn variable_with_mut(ident: String, value: Expression, ty: Option<Type>, mutable: bool) -> (r: Self)
        ensures
            r.kind == DefinitionKind::Variable(Variable { mutable, value, ty }),
            r.name == ident,
            r.visibility == Visibility::Public,
    {
        Definition {
            kind: DefinitionKind::Variable(Variable { mutable, value, ty }),
            visibility: Visibility::Public,
            name: ident,
        }
    }
}

impl Import {
    /// A C import; its path is always `header::symbol`.
    pub fn c_import(path: QualifiedName) -> (r: Self)
        requires
            path.v@.len() == 2,
        ensures
            r.c_import,
            r.path == path,
    {
        Import { c_import: true, path }
    }

    /// An import of a Niebo path.
    pub fn niebo_import(path: QualifiedName) -> (r: Self)
        ensures
            !r.c_import,
            r.path == path,
    {
        Import { c_import: false, path }
    }
}

} // verus!
