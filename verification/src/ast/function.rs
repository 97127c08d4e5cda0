use vstd::prelude::*;
use crate::ast::{Definition, DefinitionKind, Visibility};
use crate::ast::expressions::Statement;
use crate::ast::expressions::block::Block;
use crate::general::types::Type;

verus! {

/// Collects the parts of a function and builds its definition.
#[derive(Debug, PartialEq)]
pub struct FunctionBuilder {
    pub ident: String,
    pub ret_ty: Option<Type>,
    pub params: Vec<(Option<String>, Type)>,
    pub varidic: bool,
    pub constant: bool,
    pub body: Option<Block>,
    pub visibility: Visibility,
}

/// A function with a body.
#[derive(Debug, PartialEq)]
pub struct FunctionDefinition {
    pub decl: FunctionDeclaration,
    pub body: Block,
}

/// A function signature.
#[derive(Debug, PartialEq)]
pub struct FunctionDeclaration {
    pub constant: bool,
    pub return_ty: Option<Type>,
    pub parameters: Vec<(String, Type)>,
}

/// A function declared by a C header.
#[derive(Debug, PartialEq)]
pub struct FunctionC {
    pub varidic: bool,
    pub constant: bool,
    pub return_ty: Option<Type>,
    pub parameters: Vec<(Option<String>, Type)>,
}

/// Every parameter has a name.
pub open spec fn all_params_named(ps: Seq<(Option<String>, Type)>) -> bool {
    forall|i: int| 0 <= i < ps.len() ==> (#[trigger] ps[i]).0 is Some
}

impl FunctionBuilder {
    /// A private, non-variadic, non-constant function named `ident` with
    /// no parameters, return type or body yet.
    pub fn new(ident: &str) -> (r: Self)
        ensures
            r.ident@ == ident@,
            r.visibility == Visibility::Private,
            !r.constant,
            r.ret_ty.is_none(),
            r.params@.len() == 0,
            !r.varidic,
            r.body.is_none(),
    {
        FunctionBuilder {
            visibility: Visibility::Private,
            constant: false,
            ident: crate::text::string_of(ident),
            ret_ty: None,
            params: Vec::new(),
            varidic: false,
            body: None,
        }
    }

    pub fn set_body(self, body: Block) -> (r: Self)
        ensures
            r == (FunctionBuilder { body: Some(body), ..self }),
    {
        FunctionBuilder { body: Some(body), ..self }
    }

    pub fn set_ret_ty(self, ty: Type) -> (r: Self)
        ensures
            r == (FunctionBuilder { ret_ty: Some(ty), ..self }),
    {
        FunctionBuilder { ret_ty: Some(ty), ..self }
    }

    pub fn set_constant(self) -> (r: Self)
        ensures
            r == (FunctionBuilder { constant: true, ..self }),
    {
        FunctionBuilder { constant: true, ..self }
    }

    pub fn set_varidic(self, varidic: bool) -> (r: Self)
        ensures
            r == (FunctionBuilder { varidic, ..self }),
    {
        FunctionBuilder { varidic, ..self }
    }

    pub fn varidic(self) -> (r: Self)
        ensures
            r == (FunctionBuilder { varidic: true, ..self }),
    {
        FunctionBuilder { varidic: true, ..self }
    }

    /// Appends a named parameter.
    pub fn add_param(self, ident: String, ty: Type) -> (r: Self)
        ensures
            r.params@ == self.params@.push((Some(ident), ty)),
            r.ident == self.ident,
            r.ret_ty == self.ret_ty,
            r.varidic == self.varidic,
            r.constant == self.constant,
            r.body == self.body,
            r.visibility == self.visibility,
    {
        let mut s = self;
        s.params.push((Some(ident), ty));
        s
    }

    /// Appends an unnamed parameter.
    pub fn add_anon_param(self, ty: Type) -> (r: Self)
        ensures
            r.params@ == self.params@.push((None, ty)),
            r.ident == self.ident,
            r.ret_ty == self.ret_ty,
            r.varidic == self.varidic,
            r.constant == self.constant,
            r.body == self.body,
            r.visibility == self.visibility,
    {
        let mut s = self;
        s.params.push((None, ty));
        s
    }

    /// Appends a definition statement (such as `let x = 10;`) to the body.
    pub fn add_definition(self, dec: Definition) -> (r: Self)
        ensures
            r.body matches Some(b) && b.statements@ == (match self.body {
                Some(ob) => ob.statements@,
                None => Seq::empty(),
            }).push(Statement::Definition(dec)),
            r.ident == self.ident,
            r.ret_ty == self.ret_ty,
            r.params == self.params,
            r.varidic == self.varidic,
            r.constant == self.constant,
            r.visibility == self.visibility,
    {
        self.add_statement(Statement::Definition(dec))
    }

    /// Appends a statement to the body, creating the body if there is none.
    pub fn add_statement(self, stmt: Statement) -> (r: Self)
        ensures
            r.body matches Some(b) && b.statements@ == (match self.body {
                Some(ob) => ob.statements@,
                None => Seq::empty(),
            }).push(stmt),
            r.ident == self.ident,
            r.ret_ty == self.ret_ty,
            r.params == self.params,
            r.varidic == self.varidic,
            r.constant == self.constant,
            r.visibility == self.visibility,
    {
        let mut s = self;
        let body = match s.body {
            Some(b) => {
                let mut b = b;
                b.add_statement(stmt);
                b
            },
            None => {
                let mut b = Block::new();
                b.add_statement(stmt);
                assert(b.statements@ =~= Seq::<Statement>::empty().push(stmt));
                b
            },
        };
        FunctionBuilder { body: Some(body), ..s }
    }

    /// The public C function declaration described so far.
    pub fn build_c_function(self) -> (r: Definition)
        ensures
            r.kind == DefinitionKind::FunctionC(FunctionC {
                varidic: self.varidic,
                return_ty: self.ret_ty,
                constant: false,
                parameters: self.params,
            }),
            r.visibility == Visibility::Public,
            r.name == self.ident,
    {
        let fun_c = FunctionC {
            varidic: self.varidic,
            return_ty: self.ret_ty,
            constant: false,
            parameters: self.params,
        };
        Definition { kind: DefinitionKind::FunctionC(fun_c), visibility: Visibility::Public, name: self.ident }
    }

    /// The function definition: its body, its named parameters in order,
    /// its return type and constness, under the builder's name and
    /// visibility.
    pub fn build_def(self) -> (r: Definition)
        requires
            self.body.is_some(),
            all_params_named(self.params@),
        ensures
            r.name == self.ident,
            r.visibility == self.visibility,
            r.kind matches DefinitionKind::FunctionDefinition(f) && {
                &&& f.body == self.body.unwrap()
                &&& f.decl.constant == self.constant
                &&& f.decl.return_ty == self.ret_ty
                &&& f.decl.parameters@.len() == self.params@.len()
                &&& forall|i: int| 0 <= i < self.params@.len() ==> #[trigger] f.decl.parameters@[i]
                    == (self.params@[i].0.unwrap(), self.params@[i].1)
            },
    {
        let ghost ps = self.params@;
        let body = self.body.unwrap();
        let mut params = self.params;
        let mut parameters: Vec<(String, Type)> = Vec::new();
        while params.len() > 0
            invariant
                params@.len() + parameters@.len() == ps.len(),
                params@ == ps.skip(parameters@.len() as int),
                all_params_named(ps),
                forall|i: int| 0 <= i < parameters@.len() ==> #[trigger] parameters@[i] == (ps[i].0.unwrap(), ps[i].1),
            decreases params@.len(),
        {
            let ghost k = parameters@.len() as int;
            let (n, t) = params.remove(0);
            assert(ps[k] == (n, t));
            assert(ps[k].0 is Some);
            let n = n.unwrap();
            parameters.push((n, t));
            assert(params@ =~= ps.skip(parameters@.len() as int));
        }
        let f = FunctionDefinition {
            body,
            decl: FunctionDeclaration { constant: self.constant, parameters, return_ty: self.ret_ty },
        };
        Definition { kind: DefinitionKind::FunctionDefinition(f), visibility: self.visibility, name: self.ident }
    }
}

} // verus!
