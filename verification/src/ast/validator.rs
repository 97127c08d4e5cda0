pub mod expressions;

use vstd::prelude::*;
use crate::ast::{Definition, DefinitionKind, Implementation, TraitImplementation};
use crate::ast::module::Module;
use crate::ast::project::cimports::{CCache, header_symbols, symbol_def};
use crate::ast::project::Project;
use crate::ast::validator::expressions::validate_expression;
use crate::general::path::{QualifiedNameSegment, seg_eqv, lemma_seg_eqv_sym, lemma_seg_eqv_trans};
use crate::text::{same_text, string_of};
use crate::ast::function::{FunctionC, FunctionDeclaration};
use crate::ast::Import;
use crate::general::path::{QualifiedName, name_eqv, lemma_name_eqv_refl, lemma_name_eqv_sym, lemma_name_eqv_trans};
use crate::general::types::{Type, ty_eqv, lemma_ty_eqv_refl};

verus! {

/// What a name stands for.
#[derive(Debug)]
pub enum Symbol {
    Variable(Type),
    Type(Type),
    Function { ret_ty: Type, params: Vec<Type> },
}

/// Why a module or an expression does not validate.
#[derive(Debug, Clone, Copy, PartialEq, Eq, Structural)]
pub enum ValidationError {
    /// a name that no scope defines
    SymbolNotFound,
    /// a struct literal of a type that no scope defines
    TypeNotFound,
    /// `*e` where `e` is not a pointer
    CannotDeref,
    /// `-e` where `e` is not a number
    CannotNegate,
    /// a call of something that is not a function
    CallOfNonFunction,
    /// the type of a method call, which is not worked out yet
    MethodCallNotImplemented,
    /// an intrinsic given the wrong number of arguments
    WrongParameterCount,
    /// an intrinsic argument of the wrong type
    WrongParameterType,
    /// the two branches of an `if` have different types
    BranchTypesDiffer,
    /// a condition that is not a boolean
    ConditionNotBool,
    /// `a = b` with `a` and `b` of different types
    AssignmentTypesDiffer,
    /// indexing into something that is neither an array nor a pointer
    IndexNotArray,
    /// an index that is not an integer
    IndexNotInteger,
    /// the operands of a binary operation have different types
    OperandTypesDiffer,
    /// a type implements the same trait twice
    AlreadyImplements,
    /// a form that the validator does not handle yet
    Unsupported,
}

/// Two lists of types agree pointwise.
pub open spec fn types_eqv(a: Seq<Type>, b: Seq<Type>) -> bool {
    &&& a.len() == b.len()
    &&& forall|i: int| #![trigger a[i]] 0 <= i < a.len() ==> ty_eqv(a[i], b[i])
}

/// Two symbols stand for the same thing.
pub open spec fn sym_eqv(a: Symbol, b: Symbol) -> bool {
    match (a, b) {
        (Symbol::Variable(x), Symbol::Variable(y)) => ty_eqv(x, y),
        (Symbol::Type(x), Symbol::Type(y)) => ty_eqv(x, y),
        (Symbol::Function { ret_ty: r1, params: p1 }, Symbol::Function { ret_ty: r2, params: p2 }) => ty_eqv(r1, r2)
            && types_eqv(p1@, p2@),
        _ => false,
    }
}

/// A copy of a list of types.
pub fn copy_types(ts: &Vec<Type>) -> (r: Vec<Type>)
    ensures
        types_eqv(r@, ts@),
{
    let mut out: Vec<Type> = Vec::new();
    let mut i: usize = 0;
    while i < ts.len()
        invariant
            i <= ts@.len(),
            out@.len() == i,
            forall|j: int| #![trigger out@[j]] 0 <= j < i ==> ty_eqv(out@[j], ts@[j]),
        decreases ts@.len() - i,
    {
        out.push(ts[i].copy());
        i += 1;
    }
    out
}

impl Symbol {
    /// A copy of the symbol.
    pub fn copy(&self) -> (r: Symbol)
        ensures
            sym_eqv(r, *self),
    {
        match self {
            Symbol::Variable(t) => Symbol::Variable(t.copy()),
            Symbol::Type(t) => Symbol::Type(t.copy()),
            Symbol::Function { ret_ty, params } => Symbol::Function { ret_ty: ret_ty.copy(), params: copy_types(params) },
        }
    }
}

/// What is known of a type defined in the module: the traits it
/// implements and its methods.
#[derive(Debug)]
pub struct TypeData {
    pub ty: Type,
    pub traits: Vec<QualifiedName>,
    pub methods: Vec<(String, FunctionDeclaration)>,
}

/// The symbol tables of a validation: the global scope, a stack of local
/// scopes (the innermost last), and the types defined so far.
#[derive(Debug)]
pub struct Validator {
    pub local_scope: Vec<Vec<(QualifiedName, Symbol)>>,
    pub global_scope: Vec<(QualifiedName, Symbol)>,
    pub type_data: Vec<(QualifiedName, TypeData)>,
}

/// The symbol that a scope holds under `p` (its first entry of that name).
pub open spec fn scope_find(scope: Seq<(QualifiedName, Symbol)>, p: QualifiedName) -> Option<Symbol>
    decreases scope.len(),
{
    if scope.len() == 0 {
        None
    } else if name_eqv(scope[0].0, p) {
        Some(scope[0].1)
    } else {
        scope_find(scope.drop_first(), p)
    }
}

/// The symbol that the local scopes hold under `p`, the innermost first.
pub open spec fn locals_find(locals: Seq<Seq<(QualifiedName, Symbol)>>, p: QualifiedName) -> Option<Symbol>
    decreases locals.len(),
{
    if locals.len() == 0 {
        None
    } else {
        match scope_find(locals.last(), p) {
            Some(s) => Some(s),
            None => locals_find(locals.drop_last(), p),
        }
    }
}

/// The view of the local scopes.
pub open spec fn locals_view(v: Validator) -> Seq<Seq<(QualifiedName, Symbol)>> {
    v.local_scope@.map_values(|s: Vec<(QualifiedName, Symbol)>| s@)
}

/// What a name stands for: the global scope first, then the local scopes
/// from the innermost out.
pub open spec fn spec_find(v: Validator, p: QualifiedName) -> Option<Symbol> {
    match scope_find(v.global_scope@, p) {
        Some(s) => Some(s),
        None => locals_find(locals_view(v), p),
    }
}

/// The index of the first entry of `scope` named like `p`.
fn scope_index(scope: &Vec<(QualifiedName, Symbol)>, p: &QualifiedName) -> (r: Option<usize>)
    ensures
        match r {
            Some(i) => i < scope@.len() && name_eqv(scope@[i as int].0, *p) && scope_find(scope@, *p) == Some(
                scope@[i as int].1,
            ) && forall|j: int| 0 <= j < i ==> !name_eqv(#[trigger] scope@[j].0, *p),
            None => scope_find(scope@, *p) is None && forall|j: int| 0 <= j < scope@.len() ==> !name_eqv(#[trigger] scope@[j].0, *p),
        },
{
    let mut i: usize = 0;
    assert(scope@.skip(0) =~= scope@);
    while i < scope.len()
        invariant
            i <= scope@.len(),
            forall|j: int| 0 <= j < i ==> !name_eqv(#[trigger] scope@[j].0, *p),
            scope_find(scope@, *p) == scope_find(scope@.skip(i as int), *p),
        decreases scope@.len() - i,
    {
        let ghost rest = scope@.skip(i as int);
        if scope[i].0.same_as(p) {
            assert(rest[0] == scope@[i as int]);
            return Some(i);
        }
        assert(rest.drop_first() =~= scope@.skip(i + 1));
        i += 1;
    }
    None
}

/// Puts `sym` under `p` in `scope`: in place of the first entry named like
/// `p`, or at the end.
fn scope_insert(scope: &mut Vec<(QualifiedName, Symbol)>, p: QualifiedName, sym: Symbol)
    ensures
        scope_find(final(scope)@, p) == Some(sym),
        forall|q: QualifiedName| !name_eqv(q, p) ==> scope_find(final(scope)@, q) == scope_find(old(scope)@, q),
{
    let ghost s0 = scope@;
    let ghost pp = p;
    let ghost ss = sym;
    match scope_index(scope, &p) {
        Some(i) => {
            scope.set(i, (p, sym));
            proof {
                lemma_name_eqv_refl(pp);
                lemma_scope_find_set(s0, i as int, pp, ss);
            }
        },
        None => {
            scope.push((p, sym));
            proof {
                lemma_name_eqv_refl(pp);
                lemma_scope_find_push(s0, pp, ss);
            }
        },
    }
}

proof fn lemma_scope_find_skip(s: Seq<(QualifiedName, Symbol)>, q: QualifiedName, k: int)
    requires
        0 <= k <= s.len(),
        forall|j: int| 0 <= j < k ==> !name_eqv(#[trigger] s[j].0, q),
    ensures
        scope_find(s, q) == scope_find(s.skip(k), q),
    decreases k,
{
    if k > 0 {
        assert(s.skip(1) =~= s.drop_first());
        assert(!name_eqv(s[0].0, q));
        assert forall|j: int| 0 <= j < k - 1 implies !name_eqv(#[trigger] s.drop_first()[j].0, q) by {
            assert(s.drop_first()[j] == s[j + 1]);
        }
        lemma_scope_find_skip(s.drop_first(), q, k - 1);
        assert(s.drop_first().skip(k - 1) =~= s.skip(k));
    } else {
        assert(s.skip(0) =~= s);
    }
}

proof fn lemma_scope_find_set(s: Seq<(QualifiedName, Symbol)>, i: int, p: QualifiedName, sym: Symbol)
    requires
        0 <= i < s.len(),
        name_eqv(s[i].0, p),
        name_eqv(p, p),
        forall|j: int| 0 <= j < i ==> !name_eqv(#[trigger] s[j].0, p),
    ensures
        scope_find(s.update(i, (p, sym)), p) == Some(sym),
        forall|q: QualifiedName| !name_eqv(q, p) ==> scope_find(s.update(i, (p, sym)), q) == scope_find(s, q),
{
    let t = s.update(i, (p, sym));
    assert forall|j: int| 0 <= j < i implies !name_eqv(#[trigger] t[j].0, p) by {
        assert(t[j] == s[j]);
    }
    lemma_scope_find_skip(t, p, i);
    assert(t.skip(i)[0] == (p, sym));
    assert forall|q: QualifiedName| !name_eqv(q, p) implies scope_find(t, q) == scope_find(s, q) by {
        // the entry at i matches q neither before nor after
        if name_eqv(s[i].0, q) {
            lemma_name_eqv_sym(s[i].0, q);
            lemma_name_eqv_sym(s[i].0, p);
            lemma_name_eqv_trans(q, s[i].0, p);
        }
        if name_eqv(p, q) {
            lemma_name_eqv_sym(p, q);
        }
        assert(!name_eqv(s[i].0, q));
        assert(!name_eqv(t[i].0, q));
        assert forall|j: int| 0 <= j < s.len() && s[j] != t[j] implies !name_eqv(#[trigger] s[j].0, q) && !name_eqv(t[j].0, q) by {
            assert(j == i);
        }
        lemma_scope_find_prefix(s, t, q, 0);
        assert(s.skip(0) =~= s);
        assert(t.skip(0) =~= t);
    }
}

/// Two scopes that differ only in entries that are not named like `q`
/// find the same symbol under `q`.
proof fn lemma_scope_find_prefix(s: Seq<(QualifiedName, Symbol)>, t: Seq<(QualifiedName, Symbol)>, q: QualifiedName, k: int)
    requires
        s.len() == t.len(),
        0 <= k <= s.len(),
        forall|j: int| 0 <= j < s.len() && s[j] != t[j] ==> !name_eqv(#[trigger] s[j].0, q) && !name_eqv(t[j].0, q),
    ensures
        scope_find(s.skip(k), q) == scope_find(t.skip(k), q),
    decreases s.len() - k,
{
    if k < s.len() {
        lemma_scope_find_prefix(s, t, q, k + 1);
        assert(s.skip(k).drop_first() =~= s.skip(k + 1));
        assert(t.skip(k).drop_first() =~= t.skip(k + 1));
        assert(s.skip(k)[0] == s[k]);
        assert(t.skip(k)[0] == t[k]);
    } else {
        assert(s.skip(k) =~= Seq::<(QualifiedName, Symbol)>::empty());
        assert(t.skip(k) =~= Seq::<(QualifiedName, Symbol)>::empty());
    }
    if k == 0 {
        assert(s.skip(0) =~= s);
        assert(t.skip(0) =~= t);
    }
}

proof fn lemma_scope_find_push(s: Seq<(QualifiedName, Symbol)>, p: QualifiedName, sym: Symbol)
    requires
        forall|j: int| 0 <= j < s.len() ==> !name_eqv(#[trigger] s[j].0, p),
        name_eqv(p, p),
    ensures
        scope_find(s.push((p, sym)), p) == Some(sym),
        forall|q: QualifiedName| !name_eqv(q, p) ==> scope_find(s.push((p, sym)), q) == scope_find(s, q),
    decreases s.len(),
{
    let t = s.push((p, sym));
    if s.len() == 0 {
        assert(t[0] == (p, sym));
    } else {
        assert(t[0] == s[0]);
        assert(t.drop_first() =~= s.drop_first().push((p, sym)));
        assert forall|j: int| 0 <= j < s.drop_first().len() implies !name_eqv(#[trigger] s.drop_first()[j].0, p) by {
            assert(s.drop_first()[j] == s[j + 1]);
        }
        lemma_scope_find_push(s.drop_first(), p, sym);
    }
    assert forall|q: QualifiedName| !name_eqv(q, p) implies scope_find(t, q) == scope_find(s, q) by {
        if name_eqv(p, q) {
            lemma_name_eqv_sym(p, q);
        }
        lemma_scope_find_push_other(s, p, sym, q);
    }
}

proof fn lemma_scope_find_push_other(s: Seq<(QualifiedName, Symbol)>, p: QualifiedName, sym: Symbol, q: QualifiedName)
    requires
        !name_eqv(p, q),
    ensures
        scope_find(s.push((p, sym)), q) == scope_find(s, q),
    decreases s.len(),
{
    let t = s.push((p, sym));
    if s.len() > 0 {
        assert(t[0] == s[0]);
        assert(t.drop_first() =~= s.drop_first().push((p, sym)));
        lemma_scope_find_push_other(s.drop_first(), p, sym, q);
        if name_eqv(s[0].0, q) {
            assert(scope_find(t, q) == Some(s[0].1));
        } else {
            assert(scope_find(t, q) == scope_find(t.drop_first(), q));
        }
    } else {
        assert(t[0] == (p, sym));
        assert(!name_eqv(t[0].0, q));
        assert(t.drop_first() =~= Seq::<(QualifiedName, Symbol)>::empty());
        assert(scope_find(t, q) == scope_find(t.drop_first(), q));
    }
}

impl Validator {
    /// Opens a new innermost local scope.
    pub fn push_scope(&mut self)
        ensures
            locals_view(*final(self)) == locals_view(*old(self)).push(Seq::empty()),
            final(self).global_scope == old(self).global_scope,
            final(self).type_data == old(self).type_data,
    {
        self.local_scope.push(Vec::new());
        assert(locals_view(*self) =~= locals_view(*old(self)).push(Seq::empty()));
    }

    /// Closes the innermost local scope (if there is one).
    pub fn pop_scope(&mut self)
        ensures
            locals_view(*final(self)) == if locals_view(*old(self)).len() > 0 {
                locals_view(*old(self)).drop_last()
            } else {
                locals_view(*old(self))
            },
            final(self).global_scope == old(self).global_scope,
            final(self).type_data == old(self).type_data,
    {
        if self.local_scope.len() > 0 {
            self.local_scope.pop();
            assert(locals_view(*self) =~= locals_view(*old(self)).drop_last());
        }
    }

    /// Defines `path` in the innermost local scope.
    pub fn register_local_symbol(&mut self, path: QualifiedName, kind: Symbol)
        requires
            old(self).local_scope@.len() > 0,
        ensures
            final(self).global_scope == old(self).global_scope,
            final(self).type_data == old(self).type_data,
            locals_view(*final(self)).len() == locals_view(*old(self)).len(),
            locals_view(*final(self)).drop_last() == locals_view(*old(self)).drop_last(),
            forall|i: int| 0 <= i < locals_view(*old(self)).len() - 1 ==> #[trigger] locals_view(*final(self))[i] == locals_view(
                *old(self),
            )[i],
            scope_find(locals_view(*final(self)).last(), path) == Some(kind),
            forall|q: QualifiedName| !name_eqv(q, path) ==> scope_find(locals_view(*final(self)).last(), q) == scope_find(
                locals_view(*old(self)).last(),
                q,
            ),
    {
        let n = self.local_scope.len();
        let mut last = self.local_scope.pop().unwrap();
        scope_insert(&mut last, path, kind);
        self.local_scope.push(last);
        assert(locals_view(*self).drop_last() =~= locals_view(*old(self)).drop_last());
        assert forall|i: int| 0 <= i < locals_view(*old(self)).len() - 1 implies #[trigger] locals_view(*self)[i] == locals_view(
            *old(self),
        )[i] by {
            assert(locals_view(*self).drop_last()[i] == locals_view(*self)[i]);
            assert(locals_view(*old(self)).drop_last()[i] == locals_view(*old(self))[i]);
        }
    }

    /// Defines `path` in the global scope.
    pub fn register_global_symbol(&mut self, path: QualifiedName, kind: Symbol)
        ensures
            scope_find(final(self).global_scope@, path) == Some(kind),
            forall|q: QualifiedName| !name_eqv(q, path) ==> scope_find(final(self).global_scope@, q) == scope_find(
                old(self).global_scope@,
                q,
            ),
            final(self).local_scope == old(self).local_scope,
            final(self).type_data == old(self).type_data,
    {
        scope_insert(&mut self.global_scope, path, kind);
    }

    /// What `path` stands for (see `spec_find`): the global scope first,
    /// then the local scopes from the innermost out.
    pub fn find_symbol(&self, path: &QualifiedName) -> (r: Option<Symbol>)
        ensures
            match (r, spec_find(*self, *path)) {
                (None, None) => true,
                (Some(a), Some(b)) => sym_eqv(a, b),
                _ => false,
            },
    {
        if let Some(i) = scope_index(&self.global_scope, path) {
            return Some(self.global_scope[i].1.copy());
        }
        let mut k = self.local_scope.len();
        let ghost lv = locals_view(*self);
        assert(lv.take(k as int) =~= lv);
        while k > 0
            invariant
                k <= self.local_scope@.len(),
                lv == locals_view(*self),
                scope_find(self.global_scope@, *path) is None,
                locals_find(lv, *path) == locals_find(lv.take(k as int), *path),
            decreases k,
        {
            let ghost pre = lv.take(k as int);
            assert(pre.drop_last() =~= lv.take(k - 1));
            assert(pre.last() == self.local_scope@[k - 1]@);
            if let Some(i) = scope_index(&self.local_scope[k - 1], path) {
                return Some(self.local_scope[k - 1][i].1.copy());
            }
            k -= 1;
        }
        None
    }

    /// A validator that knows only `nullptr`, a pointer to `void`.
    pub fn new() -> (r: Self)
        ensures
            r.local_scope@.len() == 0,
            r.type_data@.len() == 0,
            r.global_scope@.len() == 1,
            r.global_scope@[0].0.v@.len() == 1,
            r.global_scope@[0].0.v@[0].ident@ == seq!['n', 'u', 'l', 'l', 'p', 't', 'r'],
            r.global_scope@[0].0.v@[0].template_spec@.len() == 0,
            r.global_scope@[0].1 matches Symbol::Variable(t) && t.kind matches crate::general::types::TypeKind::Pointer(b)
                && b.kind == crate::general::types::TypeKind::Primitive(crate::general::types::PrimitiveType::Void),
            forall|p: QualifiedName| p.v@.len() == 1 && p.v@[0].ident@ == seq!['n', 'u', 'l', 'l', 'p', 't', 'r']
                && p.v@[0].template_spec@.len() == 0 ==> #[trigger] spec_find(r, p) == Some(r.global_scope@[0].1),
            forall|p: QualifiedName| !name_eqv(r.global_scope@[0].0, p) ==> #[trigger] spec_find(r, p) is None,
    {
        proof {
            reveal_strlit("nullptr");
        }
        let mut g: Vec<(QualifiedName, Symbol)> = Vec::new();
        g.push((QualifiedName::from_ident("nullptr"), Symbol::Variable(Type::pointer(Type::void()))));
        let r = Validator { local_scope: Vec::new(), global_scope: g, type_data: Vec::new() };
        proof {
            assert(locals_view(r) =~= Seq::<Seq<(QualifiedName, Symbol)>>::empty());
            assert(r.global_scope@.drop_first() =~= Seq::<(QualifiedName, Symbol)>::empty());
            assert(locals_find(locals_view(r), r.global_scope@[0].0) is None);
            assert forall|p: QualifiedName| p.v@.len() == 1 && p.v@[0].ident@ == seq!['n', 'u', 'l', 'l', 'p', 't', 'r']
                && p.v@[0].template_spec@.len() == 0 implies #[trigger] spec_find(r, p) == Some(r.global_scope@[0].1) by {
                let n = r.global_scope@[0].0;
                assert(n.v@[0].ident@ =~= seq!['n', 'u', 'l', 'l', 'p', 't', 'r']);
                assert(n.v@[0].ident@ =~= p.v@[0].ident@);
                assert(crate::general::path::seg_eqv(n.v@[0], p.v@[0]));
                assert(name_eqv(n, p));
            }
            assert forall|p: QualifiedName| !name_eqv(r.global_scope@[0].0, p) implies #[trigger] spec_find(r, p) is None by {
                assert(scope_find(r.global_scope@.drop_first(), p) is None);
                assert(locals_find(locals_view(r), p) is None);
            }
        }
        r
    }
}

/// Registering a global symbol makes it what its name stands for.
pub proof fn lemma_registered_global_is_found(before: Validator, after: Validator, p: QualifiedName, s: Symbol)
    requires
        scope_find(after.global_scope@, p) == Some(s),
    ensures
        spec_find(after, p) == Some(s),
{
}

/// Closing a scope just opened leaves the local scopes as they were.
pub proof fn lemma_push_pop_scope(locals: Seq<Seq<(QualifiedName, Symbol)>>)
    ensures
        locals.push(Seq::empty()).drop_last() == locals,
{
    assert(locals.push(Seq::empty()).drop_last() =~= locals);
}

/// A symbol defined in the innermost local scope is what its name stands
/// for, unless the global scope defines that name.
pub proof fn lemma_local_shadows_outer(v: Validator, p: QualifiedName, s: Symbol)
    requires
        locals_view(v).len() > 0,
        scope_find(locals_view(v).last(), p) == Some(s),
        scope_find(v.global_scope@, p) is None,
    ensures
        spec_find(v, p) == Some(s),
{
}

/// `q` is the one-segment name `n`.
pub open spec fn is_single_name(q: QualifiedName, n: Seq<char>) -> bool {
    &&& q.v@.len() == 1
    &&& q.v@[0].ident@ == n
    &&& q.v@[0].template_spec@.len() == 0
}

/// The symbol that a definition stands for once validated: a function
/// (its return type and parameter types), a variable (its type) or a type.
pub open spec fn defines_symbol(k: DefinitionKind, s: Symbol) -> bool {
    match k {
        DefinitionKind::FunctionDefinition(f) => s matches Symbol::Function { ret_ty, params } && f.decl.return_ty matches Some(
            t,
        ) && ty_eqv(ret_ty, t) && params@.len() == f.decl.parameters@.len() && forall|i: int|
            #![trigger params@[i]]
            0 <= i < params@.len() ==> ty_eqv(params@[i], f.decl.parameters@[i].1),
        DefinitionKind::Variable(var) => s matches Symbol::Variable(t) && var.ty matches Some(u) && ty_eqv(t, u),
        DefinitionKind::Type(ty) => s matches Symbol::Type(t) && ty_eqv(t, ty),
        _ => false,
    }
}

/// A C import that validation can resolve: a path `header::symbol` whose
/// header has been read and declares `symbol` as a function with a return
/// type.
pub open spec fn c_import_resolvable(cache: CCache, path: QualifiedName) -> bool {
    &&& path.v@.len() >= 2
    &&& header_symbols(cache.headers@, path.v@[0].ident@) matches Some(syms)
    &&& symbol_def(syms, path.v@[1].ident@) matches Some(d)
    &&& d.kind matches DefinitionKind::FunctionC(f)
    &&& f.return_ty is Some
}

/// The C function that the headers read declare for the C import `path`.
pub open spec fn c_import_decl(cache: CCache, path: QualifiedName) -> FunctionC {
    symbol_def(header_symbols(cache.headers@, path.v@[0].ident@)->0, path.v@[1].ident@)->0.kind->FunctionC_0
}

/// `s` is the symbol of the C function `f`: a function of its return type
/// and of its parameter types, in order.
pub open spec fn c_function_symbol(s: Symbol, f: FunctionC) -> bool {
    &&& s matches Symbol::Function { ret_ty, params }
    &&& f.return_ty matches Some(t)
    &&& ty_eqv(s->ret_ty, t)
    &&& s->params@.len() == f.parameters@.len()
    &&& forall|j: int| 0 <= j < f.parameters@.len() ==> ty_eqv(#[trigger] s->params@[j], f.parameters@[j].1)
}

/// No C import of `imports` after the `k`-th and before the `end`-th names
/// the same symbol.
pub open spec fn last_c_import(imports: Seq<Import>, k: int, end: int) -> bool {
    forall|j: int| k < j < end && (#[trigger] imports[j]).c_import ==> !seg_eqv(imports[j].path.v@[1], imports[k].path.v@[1])
}

/// No definition of `defs` is named like the symbol of the C import `path`.
pub open spec fn not_redefined(defs: Seq<Definition>, path: QualifiedName) -> bool {
    forall|j: int| 0 <= j < defs.len() ==> (#[trigger] defs[j]).name@ != path.v@[1].ident@
}

/// `q` is the one-segment name made of the segment `s`.
pub open spec fn names_segment(q: QualifiedName, s: QualifiedNameSegment) -> bool {
    &&& q.v@.len() == 1
    &&& seg_eqv(q.v@[0], s)
}

/// Two one-segment names with the same text denote the same path.
pub proof fn lemma_single_names_eqv(a: QualifiedName, b: QualifiedName, n: Seq<char>)
    requires
        is_single_name(a, n),
        is_single_name(b, n),
    ensures
        name_eqv(a, b),
{
    assert(crate::general::path::seg_eqv(a.v@[0], b.v@[0]));
}

/// A scope finds the same symbol under two names of the same path.
pub proof fn lemma_scope_find_eqv(s: Seq<(QualifiedName, Symbol)>, p: QualifiedName, q: QualifiedName)
    requires
        name_eqv(p, q),
    ensures
        scope_find(s, p) == scope_find(s, q),
    decreases s.len(),
{
    if s.len() > 0 {
        if name_eqv(s[0].0, p) {
            lemma_name_eqv_trans(s[0].0, p, q);
        } else if name_eqv(s[0].0, q) {
            lemma_name_eqv_sym(p, q);
            lemma_name_eqv_trans(s[0].0, q, p);
        }
        lemma_scope_find_eqv(s.drop_first(), p, q);
    }
}

fn single_name(s: &String) -> (r: QualifiedName)
    ensures
        is_single_name(r, s@),
{
    QualifiedName::from_segment(QualifiedNameSegment::from_string(string_of(s.as_str())))
}

/// Two declarations agree: constness, return type and parameters (names
/// and types) alike.
pub open spec fn decl_eqv(a: FunctionDeclaration, b: FunctionDeclaration) -> bool {
    &&& a.constant == b.constant
    &&& match (a.return_ty, b.return_ty) {
        (None, None) => true,
        (Some(x), Some(y)) => ty_eqv(x, y),
        _ => false,
    }
    &&& a.parameters@.len() == b.parameters@.len()
    &&& forall|i: int| #![trigger a.parameters@[i]] 0 <= i < a.parameters@.len() ==> a.parameters@[i].0@ == b.parameters@[i].0@
        && ty_eqv(a.parameters@[i].1, b.parameters@[i].1)
}

/// The declaration that `ms` holds under the name `n`: that of its first
/// entry of that name.
pub open spec fn method_of(ms: Seq<(String, FunctionDeclaration)>, n: Seq<char>) -> Option<FunctionDeclaration>
    decreases ms.len(),
{
    if ms.len() == 0 {
        None
    } else if ms[0].0@ == n {
        Some(ms[0].1)
    } else {
        method_of(ms.drop_first(), n)
    }
}

/// Replacing the first entry named `n` keeps every other name's method and
/// gives `n` the new one.
proof fn lemma_method_of_set(ms: Seq<(String, FunctionDeclaration)>, f: int, e: (String, FunctionDeclaration))
    requires
        0 <= f < ms.len(),
        ms[f].0@ == e.0@,
        forall|j: int| 0 <= j < f ==> (#[trigger] ms[j]).0@ != e.0@,
    ensures
        method_of(ms.update(f, e), e.0@) == Some(e.1),
        forall|m: Seq<char>| m != e.0@ ==> method_of(ms.update(f, e), m) == method_of(ms, m),
    decreases f,
{
    if f > 0 {
        lemma_method_of_set(ms.drop_first(), f - 1, e);
        assert(ms.update(f, e).drop_first() =~= ms.drop_first().update(f - 1, e));
        assert(ms.update(f, e)[0] == ms[0]);
        assert forall|m: Seq<char>| m != e.0@ implies method_of(ms.update(f, e), m) == method_of(ms, m) by {
            assert(method_of(ms.drop_first().update(f - 1, e), m) == method_of(ms.drop_first(), m));
        }
    } else {
        assert(ms.update(f, e).drop_first() =~= ms.drop_first());
    }
}

/// Appending an entry under a name not present gives that name its method
/// and keeps the others.
proof fn lemma_method_of_push(ms: Seq<(String, FunctionDeclaration)>, e: (String, FunctionDeclaration))
    requires
        forall|j: int| 0 <= j < ms.len() ==> (#[trigger] ms[j]).0@ != e.0@,
    ensures
        method_of(ms.push(e), e.0@) == Some(e.1),
        forall|m: Seq<char>| m != e.0@ ==> method_of(ms.push(e), m) == method_of(ms, m),
    decreases ms.len(),
{
    if ms.len() > 0 {
        lemma_method_of_push(ms.drop_first(), e);
        assert(ms.push(e).drop_first() =~= ms.drop_first().push(e));
        assert(ms.push(e)[0] == ms[0]);
        assert forall|m: Seq<char>| m != e.0@ implies method_of(ms.push(e), m) == method_of(ms, m) by {
            assert(method_of(ms.drop_first().push(e), m) == method_of(ms.drop_first(), m));
        }
    } else {
        assert(ms.push(e).drop_first() =~= Seq::<(String, FunctionDeclaration)>::empty());
        assert forall|m: Seq<char>| m != e.0@ implies method_of(ms.push(e), m) == method_of(ms, m) by {
            assert(method_of(ms.push(e).drop_first(), m) == None::<FunctionDeclaration>);
        }
    }
}

fn copy_declaration(d: &FunctionDeclaration) -> (r: FunctionDeclaration)
    ensures
        r.constant == d.constant,
        r.parameters@.len() == d.parameters@.len(),
        r.return_ty is Some == d.return_ty is Some,
        decl_eqv(r, *d),
{
    let return_ty = match &d.return_ty {
        Some(t) => Some(t.copy()),
        None => None,
    };
    let mut parameters: Vec<(String, Type)> = Vec::new();
    let mut i: usize = 0;
    while i < d.parameters.len()
        invariant
            i <= d.parameters@.len(),
            parameters@.len() == i,
            forall|j: int| #![trigger parameters@[j]] 0 <= j < i ==> parameters@[j].0@ == d.parameters@[j].0@ && ty_eqv(
                parameters@[j].1,
                d.parameters@[j].1,
            ),
        decreases d.parameters@.len() - i,
    {
        parameters.push((string_of(d.parameters[i].0.as_str()), d.parameters[i].1.copy()));
        i += 1;
    }
    FunctionDeclaration { constant: d.constant, return_ty, parameters }
}

fn param_types(ps: &Vec<(String, Type)>) -> (r: Vec<Type>)
    ensures
        r@.len() == ps@.len(),
        forall|i: int| #![trigger r@[i]] 0 <= i < ps@.len() ==> ty_eqv(r@[i], ps@[i].1),
{
    let mut out: Vec<Type> = Vec::new();
    let mut i: usize = 0;
    while i < ps.len()
        invariant
            i <= ps@.len(),
            out@.len() == i,
            forall|j: int| #![trigger out@[j]] 0 <= j < i ==> ty_eqv(out@[j], ps@[j].1),
        decreases ps@.len() - i,
    {
        out.push(ps[i].1.copy());
        i += 1;
    }
    out
}

/// `i` is the first entry of `td` named like `p`.
pub open spec fn type_slot(td: Seq<(QualifiedName, TypeData)>, p: QualifiedName, i: int) -> bool {
    &&& 0 <= i < td.len()
    &&& name_eqv(td[i].0, p)
    &&& forall|j: int| 0 <= j < i ==> !name_eqv(#[trigger] td[j].0, p)
}

/// Some entry of `td` records, under the name `n`, the type `t`.
pub open spec fn type_recorded(td: Seq<(QualifiedName, TypeData)>, n: Seq<char>, t: Type) -> bool {
    exists|i: int| 0 <= i < td.len() && is_single_name(#[trigger] td[i].0, n) && ty_eqv(td[i].1.ty, t)
}

/// `b` names its entries, and records their types, as `a` does.
pub open spec fn type_keys_kept(a: Seq<(QualifiedName, TypeData)>, b: Seq<(QualifiedName, TypeData)>) -> bool {
    &&& b.len() == a.len()
    &&& forall|j: int| 0 <= j < a.len() ==> (#[trigger] b[j]).0 == a[j].0 && b[j].1.ty == a[j].1.ty
}

/// A definition that validation accepts whatever else is defined: a type,
/// a function with a return type, or a variable with a type whose value is
/// a literal.
pub open spec fn definition_accepted(d: Definition) -> bool {
    match d.kind {
        DefinitionKind::Type(_) => true,
        DefinitionKind::FunctionDefinition(f) => f.decl.return_ty is Some,
        DefinitionKind::Variable(x) => x.ty is Some && *x.value.kind is Literal,
        _ => false,
    }
}

/// What a module's validation needs: every C import can be resolved from
/// the headers read, and every definition is accepted.
pub open spec fn module_accepted(m: Module, cache: CCache) -> bool {
    &&& forall|k: int| 0 <= k < m.imports@.len() && (#[trigger] m.imports@[k]).c_import ==> c_import_resolvable(cache, m.imports@[k].path)
    &&& forall|k: int| 0 <= k < m.definitions@.len() ==> definition_accepted(#[trigger] m.definitions@[k])
}

/// No definition after `defs[k]` and before `defs[end]` has its name.
pub open spec fn last_def(defs: Seq<Definition>, k: int, end: int) -> bool {
    forall|j: int| k < j < end ==> (#[trigger] defs[j]).name@ != defs[k].name@
}

/// `defs[k]` defines a type, and no type definition after it and before
/// `defs[end]` has its name.
pub open spec fn last_type_def(defs: Seq<Definition>, k: int, end: int) -> bool {
    &&& defs[k].kind is Type
    &&& forall|j: int| k < j < end && (#[trigger] defs[j]).kind is Type ==> defs[j].name@ != defs[k].name@
}

/// No entry of `td` is named like `p`.
pub open spec fn no_type_slot(td: Seq<(QualifiedName, TypeData)>, p: QualifiedName) -> bool {
    forall|j: int| 0 <= j < td.len() ==> !name_eqv(#[trigger] td[j].0, p)
}

/// Some trait of `ts` is named like `p`.
pub open spec fn has_trait(ts: Seq<QualifiedName>, p: QualifiedName) -> bool {
    exists|k: int| 0 <= k < ts.len() && name_eqv(#[trigger] ts[k], p)
}

/// `b` is `a` with entry `i` changed at most in its methods.
pub open spec fn only_methods_changed(a: Seq<(QualifiedName, TypeData)>, b: Seq<(QualifiedName, TypeData)>, i: int) -> bool {
    &&& b.len() == a.len()
    &&& forall|j: int| 0 <= j < a.len() && j != i ==> #[trigger] b[j] == a[j]
    &&& b[i].0 == a[i].0
    &&& b[i].1.ty == a[i].1.ty
    &&& b[i].1.traits == a[i].1.traits
}

/// No function definition after `defs[k]` and before `defs[end]` has its
/// name.
pub open spec fn last_fn_def(defs: Seq<Definition>, k: int, end: int) -> bool {
    forall|j: int| k < j < end && (#[trigger] defs[j]).kind is FunctionDefinition ==> defs[j].name@ != defs[k].name@
}

/// Some function definition among the first `end` of `defs` is named `n`.
pub open spec fn defines_fn_named(defs: Seq<Definition>, n: Seq<char>, end: int) -> bool {
    exists|j: int| 0 <= j < end && (#[trigger] defs[j]).kind is FunctionDefinition && defs[j].name@ == n
}

/// After the first `end` definitions of an implementation were recorded
/// into `ms` (starting from `ms0`): the last function of each name has its
/// declaration there, and the other names keep theirs.
pub open spec fn methods_recorded(defs: Seq<Definition>, end: int, ms0: Seq<(String, FunctionDeclaration)>, ms: Seq<(String, FunctionDeclaration)>) -> bool {
    &&& forall|k: int| 0 <= k < end && (#[trigger] defs[k]).kind is FunctionDefinition && last_fn_def(defs, k, end)
        ==> (method_of(ms, defs[k].name@) matches Some(d) && decl_eqv(d, defs[k].kind->FunctionDefinition_0.decl))
    &&& forall|n: Seq<char>| !defines_fn_named(defs, n, end) ==> #[trigger] method_of(ms, n) == method_of(ms0, n)
}

/// `b` is `a` with entry `i` changed only in its traits, which gained the
/// trait `p` at the end.
pub open spec fn trait_added(a: Seq<(QualifiedName, TypeData)>, b: Seq<(QualifiedName, TypeData)>, i: int, p: QualifiedName) -> bool {
    &&& b.len() == a.len()
    &&& forall|j: int| 0 <= j < a.len() && j != i ==> #[trigger] b[j] == a[j]
    &&& b[i].0 == a[i].0
    &&& b[i].1.ty == a[i].1.ty
    &&& b[i].1.methods == a[i].1.methods
    &&& b[i].1.traits@.len() == a[i].1.traits@.len() + 1
    &&& b[i].1.traits@.drop_last() == a[i].1.traits@
    &&& name_eqv(b[i].1.traits@.last(), p)
}

/// The index of the type data of the type named like `p`.
fn type_index(v: &Validator, p: &QualifiedName) -> (r: Option<usize>)
    ensures
        r matches Some(i) ==> i < v.type_data@.len() && name_eqv(v.type_data@[i as int].0, *p),
        r matches Some(i) ==> type_slot(v.type_data@, *p, i as int),
        r is None ==> no_type_slot(v.type_data@, *p),
        r is None ==> forall|j: int| 0 <= j < v.type_data@.len() ==> !name_eqv(#[trigger] v.type_data@[j].0, *p),
{
    let mut i: usize = 0;
    while i < v.type_data.len()
        invariant
            i <= v.type_data@.len(),
            forall|j: int| 0 <= j < i ==> !name_eqv(#[trigger] v.type_data@[j].0, *p),
        decreases v.type_data@.len() - i,
    {
        if v.type_data[i].0.same_as(p) {
            return Some(i);
        }
        i += 1;
    }
    None
}

impl Validator {
    /// Defines a definition of the module in the global scope: a function
    /// (its return type and parameter types), a variable (once its value
    /// checks) or a type. A function without a return type, a variable
    /// without a type and the other kinds of definitions are not supported.
    pub fn validate_global_definition(&mut self, def: &mut Definition) -> (r: Result<(), ValidationError>)
        ensures
            final(def).name == old(def).name,
            final(self).type_data == old(self).type_data,
            r is Ok ==> forall|q: QualifiedName| is_single_name(q, old(def).name@) ==> scope_find(final(self).global_scope@, q) is Some,
            r is Ok ==> forall|q: QualifiedName| is_single_name(q, old(def).name@) ==> (scope_find(final(self).global_scope@, q) matches Some(
                s,
            ) && defines_symbol(old(def).kind, s)),
            !(old(def).kind is FunctionDefinition || old(def).kind is Variable || old(def).kind is Type) ==> r == Err::<
                (),
                ValidationError,
            >(ValidationError::Unsupported),
            (old(def).kind matches DefinitionKind::FunctionDefinition(f) && f.decl.return_ty is None) ==> r == Err::<
                (),
                ValidationError,
            >(ValidationError::Unsupported),
            forall|q: QualifiedName| #![trigger scope_find(final(self).global_scope@, q)] scope_find(old(self).global_scope@, q) is Some ==> scope_find(final(self).global_scope@, q) is Some,
            r is Ok ==> forall|q: QualifiedName| #![trigger scope_find(final(self).global_scope@, q)] !is_single_name(q, old(def).name@)
                ==> scope_find(final(self).global_scope@, q) == scope_find(old(self).global_scope@, q),
            definition_accepted(*old(def)) ==> r is Ok,
    {
        let name = single_name(&def.name);
        let ghost nm = name;
        let sym = match &mut def.kind {
            DefinitionKind::FunctionDefinition(func) => {
                let ret = match &func.decl.return_ty {
                    Some(t) => t.copy(),
                    None => {
                        return Err(ValidationError::Unsupported);
                    },
                };
                Symbol::Function { ret_ty: ret, params: param_types(&func.decl.parameters) }
            },
            DefinitionKind::Variable(var) => {
                validate_expression(&mut var.value, self, usize::MAX)?;
                match &var.ty {
                    Some(t) => Symbol::Variable(t.copy()),
                    None => {
                        return Err(ValidationError::Unsupported);
                    },
                }
            },
            DefinitionKind::Type(ty) => Symbol::Type(ty.copy()),
            _ => {
                return Err(ValidationError::Unsupported);
            },
        };
        let ghost g1 = self.global_scope@;
        let ghost sy = sym;
        assert(defines_symbol(old(def).kind, sy));
        self.register_global_symbol(name, sym);
        proof {
            assert forall|q: QualifiedName| is_single_name(q, old(def).name@) implies scope_find(self.global_scope@, q) is Some by {
                lemma_single_names_eqv(nm, q, old(def).name@);
                lemma_scope_find_eqv(self.global_scope@, nm, q);
            }
            assert forall|q: QualifiedName| is_single_name(q, old(def).name@) implies (scope_find(self.global_scope@, q) matches Some(
                s,
            ) && defines_symbol(old(def).kind, s)) by {
                lemma_single_names_eqv(nm, q, old(def).name@);
                lemma_scope_find_eqv(self.global_scope@, nm, q);
            }
            assert forall|q: QualifiedName| #![trigger scope_find(self.global_scope@, q)] scope_find(old(self).global_scope@, q) is Some implies scope_find(self.global_scope@, q) is Some by {
                if name_eqv(q, nm) {
                    lemma_name_eqv_sym(q, nm);
                    lemma_scope_find_eqv(self.global_scope@, nm, q);
                }
            }
            assert forall|q: QualifiedName| #![trigger scope_find(self.global_scope@, q)] !is_single_name(q, old(def).name@) implies scope_find(
                self.global_scope@,
                q,
            ) == scope_find(old(self).global_scope@, q) by {
                if name_eqv(q, nm) {
                    assert(crate::general::path::seg_eqv(q.v@[0], nm.v@[0]));
                }
            }
        }
        Ok(())
    }

    /// Records the methods that an implementation gives its target type,
    /// when the type is known (a method replaces one of the same name).
    pub fn register_impl(&mut self, i: &Implementation)
        ensures
            final(self).global_scope == old(self).global_scope,
            final(self).local_scope == old(self).local_scope,
            final(self).type_data@.len() == old(self).type_data@.len(),
            type_keys_kept(old(self).type_data@, final(self).type_data@),
            no_type_slot(old(self).type_data@, i.target) ==> final(self).type_data == old(self).type_data,
            forall|s: int| #[trigger] type_slot(old(self).type_data@, i.target, s) ==> {
                &&& only_methods_changed(old(self).type_data@, final(self).type_data@, s)
                &&& methods_recorded(
                    i.definitions@,
                    i.definitions@.len() as int,
                    old(self).type_data@[s].1.methods@,
                    final(self).type_data@[s].1.methods@,
                )
            },
    {
        let idx = match type_index(self, &i.target) {
            Some(k) => k,
            None => {
                return;
            },
        };
        let ghost td0 = self.type_data@;
        let ghost defs = i.definitions@;
        proof {
            assert forall|s: int| #[trigger] type_slot(td0, i.target, s) implies s == idx by {
                if s < idx {
                    assert(!name_eqv(td0[s].0, i.target));
                } else if s > idx {
                    assert(!name_eqv(td0[idx as int].0, i.target));
                }
            }
        }
        let mut k: usize = 0;
        while k < i.definitions.len()
            invariant
                idx < self.type_data@.len(),
                self.global_scope == old(self).global_scope,
                self.local_scope == old(self).local_scope,
                self.type_data@.len() == old(self).type_data@.len(),
                td0 == old(self).type_data@,
                defs == i.definitions@,
                type_slot(td0, i.target, idx as int),
                k <= defs.len(),
                only_methods_changed(td0, self.type_data@, idx as int),
                methods_recorded(defs, k as int, td0[idx as int].1.methods@, self.type_data@[idx as int].1.methods@),
            decreases i.definitions@.len() - k,
        {
            let ghost before = self.type_data@;
            if let DefinitionKind::FunctionDefinition(func) = &i.definitions[k].kind {
                let decl = copy_declaration(&func.decl);
                let name = string_of(i.definitions[k].name.as_str());
                let (key, mut data) = self.type_data.remove(idx);
                let ghost ms_old = data.methods@;
                let mut m: usize = 0;
                let mut found: Option<usize> = None;
                while m < data.methods.len() && found.is_none()
                    invariant
                        m <= data.methods@.len(),
                        data.methods@ == ms_old,
                        found is None ==> forall|j: int| 0 <= j < m ==> (#[trigger] data.methods@[j]).0@ != name@,
                        found matches Some(f) ==> f < m && data.methods@[f as int].0@ == name@ && forall|j: int|
                            0 <= j < f ==> (#[trigger] data.methods@[j]).0@ != name@,
                    decreases data.methods@.len() - m,
                {
                    if same_text(data.methods[m].0.as_str(), name.as_str()) {
                        found = Some(m);
                    }
                    m += 1;
                }
                let ghost entry = (name, decl);
                match found {
                    Some(f) => {
                        proof { lemma_method_of_set(ms_old, f as int, entry); }
                        data.methods.set(f, (name, decl));
                    },
                    None => {
                        proof { lemma_method_of_push(ms_old, entry); }
                        data.methods.push((name, decl));
                    },
                }
                let ghost ms_new = data.methods@;
                self.type_data.insert(idx, (key, data));
                proof {
                    assert(self.type_data@ =~= before.update(idx as int, (key, data)));
                    assert(method_of(ms_new, defs[k as int].name@) == Some(entry.1));
                    assert forall|n: Seq<char>| n != defs[k as int].name@ implies method_of(ms_new, n) == method_of(ms_old, n) by {
                    }
                    let ms0 = td0[idx as int].1.methods@;
                    assert forall|k2: int| 0 <= k2 < k + 1 && (#[trigger] defs[k2]).kind is FunctionDefinition && last_fn_def(defs, k2, k + 1)
                        implies (method_of(ms_new, defs[k2].name@) matches Some(d) && decl_eqv(d, defs[k2].kind->FunctionDefinition_0.decl)) by {
                        if k2 < k {
                            assert(defs[k2].name@ != defs[k as int].name@);
                            assert(last_fn_def(defs, k2, k as int));
                        }
                    }
                    assert forall|n: Seq<char>| !defines_fn_named(defs, n, k + 1) implies #[trigger] method_of(ms_new, n) == method_of(ms0, n) by {
                        if n == defs[k as int].name@ {
                            assert(defines_fn_named(defs, n, k + 1));
                        }
                        if defines_fn_named(defs, n, k as int) {
                            let j = choose|j: int| 0 <= j < k && (#[trigger] defs[j]).kind is FunctionDefinition && defs[j].name@ == n;
                            assert(defines_fn_named(defs, n, k + 1));
                        }
                    }
                }
            } else {
                proof {
                    let ms = self.type_data@[idx as int].1.methods@;
                    let ms0 = td0[idx as int].1.methods@;
                    assert forall|k2: int| 0 <= k2 < k + 1 && (#[trigger] defs[k2]).kind is FunctionDefinition && last_fn_def(defs, k2, k + 1)
                        implies (method_of(ms, defs[k2].name@) matches Some(d) && decl_eqv(d, defs[k2].kind->FunctionDefinition_0.decl)) by {
                        assert(last_fn_def(defs, k2, k as int));
                    }
                    assert forall|n: Seq<char>| !defines_fn_named(defs, n, k + 1) implies #[trigger] method_of(ms, n) == method_of(ms0, n) by {
                        if defines_fn_named(defs, n, k as int) {
                            let j = choose|j: int| 0 <= j < k && (#[trigger] defs[j]).kind is FunctionDefinition && defs[j].name@ == n;
                            assert(defines_fn_named(defs, n, k + 1));
                        }
                    }
                }
            }
            k += 1;
        }
    }

    /// Records that the target type of a trait implementation implements
    /// the trait, when the type is known; implementing it twice is an error.
    pub fn register_trait_impl(&mut self, t: &TraitImplementation) -> (r: Result<(), ValidationError>)
        ensures
            final(self).global_scope == old(self).global_scope,
            final(self).local_scope == old(self).local_scope,
            final(self).type_data@.len() == old(self).type_data@.len(),
            type_keys_kept(old(self).type_data@, final(self).type_data@),
            r is Err ==> r == Err::<(), ValidationError>(ValidationError::AlreadyImplements),
            no_type_slot(old(self).type_data@, t.target) ==> r is Ok && final(self).type_data == old(self).type_data,
            forall|i: int| #[trigger] type_slot(old(self).type_data@, t.target, i) ==> {
                &&& has_trait(old(self).type_data@[i].1.traits@, t.trait_path) ==> r == Err::<(), ValidationError>(
                    ValidationError::AlreadyImplements,
                ) && final(self).type_data == old(self).type_data
                &&& !has_trait(old(self).type_data@[i].1.traits@, t.trait_path) ==> r is Ok && trait_added(
                    old(self).type_data@,
                    final(self).type_data@,
                    i,
                    t.trait_path,
                )
            },
    {
        let idx = match type_index(self, &t.target) {
            Some(k) => k,
            None => {
                return Ok(());
            },
        };
        let mut k: usize = 0;
        while k < self.type_data[idx].1.traits.len()
            invariant
                idx < self.type_data@.len(),
                *self == *old(self),
                type_slot(self.type_data@, t.target, idx as int),
                forall|j: int| 0 <= j < k ==> !name_eqv(#[trigger] self.type_data@[idx as int].1.traits@[j], t.trait_path),
            decreases self.type_data@[idx as int].1.traits@.len() - k,
        {
            if self.type_data[idx].1.traits[k].same_as(&t.trait_path) {
                return Err(ValidationError::AlreadyImplements);
            }
            k += 1;
        }
        let ghost td0 = self.type_data@;
        let (key, mut data) = self.type_data.remove(idx);
        let ghost tr0 = data.traits@;
        data.traits.push(t.trait_path.copy());
        assert(data.traits@.drop_last() =~= tr0);
        self.type_data.insert(idx, (key, data));
        proof {
            assert forall|i: int| #[trigger] type_slot(td0, t.target, i) implies i == idx by {
                if i < idx {
                    assert(!name_eqv(td0[i].0, t.target));
                } else if i > idx {
                    assert(!name_eqv(td0[idx as int].0, t.target));
                }
            }
            assert forall|j: int| 0 <= j < td0.len() && j != idx implies #[trigger] self.type_data@[j] == td0[j] by {
            }
        }
        Ok(())
    }

    /// Validates a project: its root module, whose C headers have been
    /// read into `ccache` beforehand. The project comes back unchanged but
    /// for what validating the module does to it.
    pub fn process_project(&mut self, project: Project, ccache: &CCache) -> (r: Result<Project, ValidationError>)
        ensures
            r matches Ok(p) ==> p.name == project.name && p.version == project.version && p.edition == project.edition
                && p.external_projects == project.external_projects
                && p.root_module.definitions@.len() == project.root_module.definitions@.len()
                && p.root_module.imports == project.root_module.imports,
            module_accepted(project.root_module, *ccache) ==> r is Ok,
            r is Ok ==> forall|k: int| 0 <= k < project.root_module.definitions@.len() ==> {
                let kd = (#[trigger] project.root_module.definitions@[k]).kind;
                kd is FunctionDefinition || kd is Variable || kd is Type
            },
            r is Ok ==> forall|k: int, q: QualifiedName| #![trigger project.root_module.definitions@[k], scope_find(final(self).global_scope@, q)] 0 <= k < project.root_module.definitions@.len() && is_single_name(q, project.root_module.definitions@[k].name@)
                ==> scope_find(final(self).global_scope@, q) is Some,
    {
        let mut project = project;
        self.process_module(&mut project.root_module, ccache)?;
        Ok(project)
    }

    /// Validates a module: defines the functions imported from C headers
    /// (their headers read into `ccache` beforehand) under their own names,
    /// records its types, implementations and trait implementations, then
    /// defines each definition in the global scope.
    pub fn process_module(&mut self, module: &mut Module, ccache: &CCache) -> (r: Result<(), ValidationError>)
        ensures
            r is Ok ==> forall|k: int, q: QualifiedName| #![trigger old(module).imports@[k], scope_find(final(self).global_scope@, q)] 0 <= k < old(module).imports@.len()
                && old(module).imports@[k].c_import && last_c_import(old(module).imports@, k, old(module).imports@.len() as int)
                && not_redefined(old(module).definitions@, old(module).imports@[k].path) && names_segment(q, old(module).imports@[k].path.v@[1])
                ==> (scope_find(final(self).global_scope@, q) matches Some(s) && c_function_symbol(s, c_import_decl(*ccache, old(module).imports@[k].path))),
            module_accepted(*old(module), *ccache) ==> r is Ok,
            r is Ok ==> forall|k: int| 0 <= k < old(module).definitions@.len() ==> {
                let kd = (#[trigger] old(module).definitions@[k]).kind;
                kd is FunctionDefinition || kd is Variable || kd is Type
            },
            final(module).definitions@.len() == old(module).definitions@.len(),
            forall|k: int| 0 <= k < old(module).definitions@.len() ==> (#[trigger] final(module).definitions@[k]).name
                == old(module).definitions@[k].name,
            final(module).imports == old(module).imports,
            r is Ok ==> forall|k: int| 0 <= k < old(module).imports@.len() && (#[trigger] old(module).imports@[k]).c_import
                ==> c_import_resolvable(*ccache, old(module).imports@[k].path),
            r is Ok ==> forall|k: int, q: QualifiedName| #![trigger old(module).imports@[k], scope_find(final(self).global_scope@, q)] 0 <= k < old(module).imports@.len() && old(module).imports@[k].c_import
                && names_segment(q, old(module).imports@[k].path.v@[1]) ==> scope_find(final(self).global_scope@, q) is Some,
            r is Ok ==> forall|k: int, q: QualifiedName| #![trigger old(module).definitions@[k], scope_find(final(self).global_scope@, q)] 0 <= k < old(module).definitions@.len() && is_single_name(q, old(module).definitions@[k].name@)
                ==> scope_find(final(self).global_scope@, q) is Some,
            r is Ok ==> forall|k: int, q: QualifiedName| #![trigger old(module).definitions@[k], scope_find(final(self).global_scope@, q)] 0 <= k < old(module).definitions@.len()
                && last_def(old(module).definitions@, k, old(module).definitions@.len() as int) && is_single_name(q, old(module).definitions@[k].name@)
                ==> (scope_find(final(self).global_scope@, q) matches Some(s) && defines_symbol(old(module).definitions@[k].kind, s)),
            r is Ok ==> forall|k: int| 0 <= k < old(module).definitions@.len() && #[trigger] last_type_def(
                old(module).definitions@,
                k,
                old(module).definitions@.len() as int,
            ) ==> type_recorded(
                final(self).type_data@,
                old(module).definitions@[k].name@,
                old(module).definitions@[k].kind->Type_0,
            ),
    {
        let mut k: usize = 0;
        while k < module.imports.len()
            invariant
                k <= module.imports@.len(),
                module.definitions@.len() == old(module).definitions@.len(),
                module.definitions@ == old(module).definitions@,
                module.imports == old(module).imports,
                forall|j: int| 0 <= j < k && (#[trigger] module.imports@[j]).c_import ==> c_import_resolvable(*ccache, module.imports@[j].path),
                forall|j: int, q: QualifiedName| #![trigger module.imports@[j], scope_find(self.global_scope@, q)] 0 <= j < k && module.imports@[j].c_import
                    && names_segment(q, module.imports@[j].path.v@[1]) ==> scope_find(self.global_scope@, q) is Some,
                forall|j: int, q: QualifiedName| #![trigger module.imports@[j], scope_find(self.global_scope@, q)] 0 <= j < k && module.imports@[j].c_import
                    && last_c_import(module.imports@, j, k as int) && names_segment(q, module.imports@[j].path.v@[1]) ==> (scope_find(
                    self.global_scope@,
                    q,
                ) matches Some(s) && c_function_symbol(s, c_import_decl(*ccache, module.imports@[j].path))),
            decreases module.imports@.len() - k,
        {
            let ghost g0 = self.global_scope@;
            if module.imports[k].c_import {
                let path = &module.imports[k].path;
                if path.len() < 2 || !ccache.has_definition(path) {
                    return Err(ValidationError::Unsupported);
                }
                let def = ccache.get_definition(path);
                match &def.kind {
                    DefinitionKind::FunctionC(f) => {
                        let ret = match &f.return_ty {
                            Some(t) => t.copy(),
                            None => {
                                return Err(ValidationError::Unsupported);
                            },
                        };
                        let mut params: Vec<Type> = Vec::new();
                        let mut j: usize = 0;
                        while j < f.parameters.len()
                            invariant
                                j <= f.parameters@.len(),
                                params@.len() == j,
                                forall|i: int| 0 <= i < j ==> ty_eqv(#[trigger] params@[i], f.parameters@[i].1),
                            decreases f.parameters@.len() - j,
                        {
                            params.push(f.parameters[j].1.copy());
                            j += 1;
                        }
                        let seg = path.get(1).copy();
                        let ghost sg = seg;
                        let name = QualifiedName::from_segment(seg);
                        let ghost nm = name;
                        let sym = Symbol::Function { ret_ty: ret, params };
                        assert(c_function_symbol(sym, c_import_decl(*ccache, module.imports@[k as int].path)));
                        self.register_global_symbol(name, sym);
                        proof {
                            assert forall|j: int, q: QualifiedName| #![trigger module.imports@[j], scope_find(self.global_scope@, q)] 0 <= j < k + 1 && module.imports@[j].c_import
                                && last_c_import(module.imports@, j, k + 1) && names_segment(q, module.imports@[j].path.v@[1]) implies (scope_find(
                                self.global_scope@,
                                q,
                            ) matches Some(s) && c_function_symbol(s, c_import_decl(*ccache, module.imports@[j].path))) by {
                                if j == k {
                                    lemma_seg_eqv_sym(sg, module.imports@[j].path.v@[1]);
                                    lemma_seg_eqv_trans(q.v@[0], module.imports@[j].path.v@[1], sg);
                                    assert(name_eqv(q, nm));
                                    lemma_name_eqv_sym(q, nm);
                                    lemma_scope_find_eqv(self.global_scope@, nm, q);
                                } else {
                                    assert(last_c_import(module.imports@, j, k as int));
                                    if name_eqv(q, nm) {
                                        assert(seg_eqv(q.v@[0], sg));
                                        lemma_seg_eqv_sym(q.v@[0], module.imports@[j].path.v@[1]);
                                        lemma_seg_eqv_sym(sg, module.imports@[k as int].path.v@[1]);
                                        lemma_seg_eqv_trans(module.imports@[j].path.v@[1], q.v@[0], sg);
                                        lemma_seg_eqv_trans(module.imports@[j].path.v@[1], sg, module.imports@[k as int].path.v@[1]);
                                        lemma_seg_eqv_sym(module.imports@[j].path.v@[1], module.imports@[k as int].path.v@[1]);
                                        assert(false);
                                    }
                                }
                            }
                            assert forall|j: int, q: QualifiedName| #![trigger module.imports@[j], scope_find(self.global_scope@, q)] 0 <= j < k + 1 && module.imports@[j].c_import
                                && names_segment(q, module.imports@[j].path.v@[1]) implies scope_find(self.global_scope@, q) is Some by {
                                if name_eqv(q, nm) {
                                    lemma_name_eqv_sym(q, nm);
                                    lemma_scope_find_eqv(self.global_scope@, nm, q);
                                } else if j == k {
                                    lemma_seg_eqv_sym(sg, module.imports@[j].path.v@[1]);
                                    lemma_seg_eqv_trans(q.v@[0], module.imports@[j].path.v@[1], sg);
                                    assert(name_eqv(q, nm));
                                } else {
                                    assert(scope_find(g0, q) is Some);
                                }
                            }
                        }
                    },
                    _ => {
                        return Err(ValidationError::Unsupported);
                    },
                }
            }
            k += 1;
        }
        let ghost g1 = self.global_scope;
        let mut k: usize = 0;
        while k < module.definitions.len()
            invariant
                k <= module.definitions@.len(),
                module.definitions@ == old(module).definitions@,
                module.imports == old(module).imports,
                self.global_scope == g1,
                forall|j: int| 0 <= j < k && #[trigger] last_type_def(module.definitions@, j, k as int) ==> type_recorded(
                    self.type_data@,
                    module.definitions@[j].name@,
                    module.definitions@[j].kind->Type_0,
                ),
            decreases module.definitions@.len() - k,
        {
            let ghost td0 = self.type_data@;
            if let DefinitionKind::Type(ty) = &module.definitions[k].kind {
                let key = single_name(&module.definitions[k].name);
                let ghost kq = key;
                let data = TypeData { ty: ty.copy(), traits: Vec::new(), methods: Vec::new() };
                match type_index(self, &key) {
                    Some(i) => {
                        self.type_data.set(i, (key, data));
                        proof {
                            assert forall|j: int| 0 <= j < k + 1 && #[trigger] last_type_def(module.definitions@, j, k + 1) implies type_recorded(
                                self.type_data@,
                                module.definitions@[j].name@,
                                module.definitions@[j].kind->Type_0,
                            ) by {
                                if j == k {
                                    assert(is_single_name(self.type_data@[i as int].0, module.definitions@[j].name@));
                                    assert(ty_eqv(self.type_data@[i as int].1.ty, module.definitions@[k as int].kind->Type_0));
                                } else {
                                    let n = module.definitions@[j].name@;
                                    assert(last_type_def(module.definitions@, j, k as int));
                                    let w = choose|w: int| 0 <= w < td0.len() && is_single_name(#[trigger] td0[w].0, n) && ty_eqv(
                                        td0[w].1.ty,
                                        module.definitions@[j].kind->Type_0,
                                    );
                                    if w == i {
                                        assert(seg_eqv(td0[w].0.v@[0], kq.v@[0]));
                                        assert(n == module.definitions@[k as int].name@);
                                    } else {
                                        assert(self.type_data@[w] == td0[w]);
                                    }
                                }
                            }
                        }
                    },
                    None => {
                        self.type_data.push((key, data));
                        proof {
                            assert forall|j: int| 0 <= j < k + 1 && #[trigger] last_type_def(module.definitions@, j, k + 1) implies type_recorded(
                                self.type_data@,
                                module.definitions@[j].name@,
                                module.definitions@[j].kind->Type_0,
                            ) by {
                                if j == k {
                                    assert(is_single_name(self.type_data@[td0.len() as int].0, module.definitions@[j].name@));
                                    assert(ty_eqv(self.type_data@[td0.len() as int].1.ty, module.definitions@[k as int].kind->Type_0));
                                } else {
                                    let n = module.definitions@[j].name@;
                                    assert(last_type_def(module.definitions@, j, k as int));
                                    let w = choose|w: int| 0 <= w < td0.len() && is_single_name(#[trigger] td0[w].0, n) && ty_eqv(
                                        td0[w].1.ty,
                                        module.definitions@[j].kind->Type_0,
                                    );
                                    assert(self.type_data@[w] == td0[w]);
                                }
                            }
                        }
                    },
                }
            } else {
                proof {
                    assert forall|j: int| 0 <= j < k + 1 && #[trigger] last_type_def(module.definitions@, j, k + 1) implies type_recorded(
                        self.type_data@,
                        module.definitions@[j].name@,
                        module.definitions@[j].kind->Type_0,
                    ) by {
                        assert(last_type_def(module.definitions@, j, k as int));
                    }
                }
            }
            k += 1;
        }
        let ghost td1 = self.type_data@;
        let mut k: usize = 0;
        while k < module.definitions.len()
            invariant
                k <= module.definitions@.len(),
                module.definitions@ == old(module).definitions@,
                module.imports == old(module).imports,
                self.global_scope == g1,
                type_keys_kept(td1, self.type_data@),
            decreases module.definitions@.len() - k,
        {
            match &module.definitions[k].kind {
                DefinitionKind::Implementation(i) => {
                    self.register_impl(i);
                },
                DefinitionKind::TraitImplementation(t) => {
                    self.register_trait_impl(t)?;
                },
                _ => {},
            }
            k += 1;
        }
        let ghost td2 = self.type_data@;
        proof {
            assert forall|j: int| 0 <= j < module.definitions@.len() && #[trigger] last_type_def(
                module.definitions@,
                j,
                module.definitions@.len() as int,
            ) implies type_recorded(td2, module.definitions@[j].name@, module.definitions@[j].kind->Type_0) by {
                let n = module.definitions@[j].name@;
                let w = choose|w: int| 0 <= w < td1.len() && is_single_name(#[trigger] td1[w].0, n) && ty_eqv(
                    td1[w].1.ty,
                    module.definitions@[j].kind->Type_0,
                );
                assert(td2[w].0 == td1[w].0);
            }
        }
        let ghost defs0 = module.definitions@;
        let mut defs: Vec<Definition> = Vec::new();
        std::mem::swap(&mut defs, &mut module.definitions);
        let n = defs.len();
        let mut done: Vec<Definition> = Vec::new();
        while defs.len() > 0
            invariant
                done@.len() + defs@.len() == n,
                n == defs0.len(),
                defs0 == old(module).definitions@,
                defs@ == defs0.skip(done@.len() as int),
                forall|j: int| #![trigger done@[j]] 0 <= j < done@.len() ==> done@[j].name == defs0[j].name,
                forall|j: int| 0 <= j < done@.len() ==> ((#[trigger] defs0[j]).kind is FunctionDefinition || defs0[j].kind is Variable
                    || defs0[j].kind is Type),
                forall|j: int, q: QualifiedName| #![trigger defs0[j], scope_find(self.global_scope@, q)] 0 <= j < done@.len() && is_single_name(q, defs0[j].name@)
                    ==> scope_find(self.global_scope@, q) is Some,
                forall|j: int, q: QualifiedName| #![trigger defs0[j], scope_find(self.global_scope@, q)] 0 <= j < done@.len() && last_def(
                    defs0,
                    j,
                    done@.len() as int,
                ) && is_single_name(q, defs0[j].name@) ==> (scope_find(self.global_scope@, q) matches Some(s) && defines_symbol(
                    defs0[j].kind,
                    s,
                )),
                module.definitions@.len() == 0,
                module.imports == old(module).imports,
                self.type_data@ == td2,
                forall|j: int, q: QualifiedName| #![trigger module.imports@[j], scope_find(self.global_scope@, q)] 0 <= j < module.imports@.len() && module.imports@[j].c_import
                    && names_segment(q, module.imports@[j].path.v@[1]) ==> scope_find(self.global_scope@, q) is Some,
                forall|j: int, q: QualifiedName| #![trigger module.imports@[j], scope_find(self.global_scope@, q)] 0 <= j < module.imports@.len()
                    && module.imports@[j].c_import && last_c_import(module.imports@, j, module.imports@.len() as int) && not_redefined(
                    defs0,
                    module.imports@[j].path,
                ) && names_segment(q, module.imports@[j].path.v@[1]) ==> (scope_find(self.global_scope@, q) matches Some(s)
                    && c_function_symbol(s, c_import_decl(*ccache, module.imports@[j].path))),
            decreases defs@.len(),
        {
            let ghost j0 = done@.len() as int;
            let mut d = defs.remove(0);
            assert(d == defs0[j0]);
            let ghost g0 = self.global_scope@;
            let res = self.validate_global_definition(&mut d);
            let ghost before = done@;
            done.push(d);
            if res.is_err() {
                let mut rest = defs;
                done.append(&mut rest);
                module.definitions = done;
                return res;
            }
            proof {
                assert forall|j: int, q: QualifiedName| #![trigger defs0[j], scope_find(self.global_scope@, q)] 0 <= j < done@.len() && is_single_name(q, defs0[j].name@)
                    implies scope_find(self.global_scope@, q) is Some by {
                    if j < j0 {
                        assert(done@[j] == before[j]);
                        assert(scope_find(g0, q) is Some);
                    }
                }
                assert forall|j: int, q: QualifiedName| #![trigger module.imports@[j], scope_find(self.global_scope@, q)] 0 <= j < module.imports@.len() && module.imports@[j].c_import
                    && names_segment(q, module.imports@[j].path.v@[1]) implies scope_find(self.global_scope@, q) is Some by {
                    assert(scope_find(g0, q) is Some);
                }
                assert forall|j: int, q: QualifiedName| #![trigger module.imports@[j], scope_find(self.global_scope@, q)] 0 <= j < module.imports@.len()
                    && module.imports@[j].c_import && last_c_import(module.imports@, j, module.imports@.len() as int) && not_redefined(
                    defs0,
                    module.imports@[j].path,
                ) && names_segment(q, module.imports@[j].path.v@[1]) implies (scope_find(self.global_scope@, q) matches Some(s)
                    && c_function_symbol(s, c_import_decl(*ccache, module.imports@[j].path))) by {
                    assert(defs0[j0].name@ != module.imports@[j].path.v@[1].ident@);
                    assert(!is_single_name(q, defs0[j0].name@));
                    assert(scope_find(self.global_scope@, q) == scope_find(g0, q));
                }
                assert forall|j: int, q: QualifiedName| #![trigger defs0[j], scope_find(self.global_scope@, q)] 0 <= j < done@.len() && last_def(
                    defs0,
                    j,
                    done@.len() as int,
                ) && is_single_name(q, defs0[j].name@) implies (scope_find(self.global_scope@, q) matches Some(s) && defines_symbol(
                    defs0[j].kind,
                    s,
                )) by {
                    if j < j0 {
                        assert(defs0[j0].name@ != defs0[j].name@);
                        assert(last_def(defs0, j, j0));
                        assert(!is_single_name(q, defs0[j0].name@));
                        assert(scope_find(self.global_scope@, q) == scope_find(g0, q));
                    }
                }
            }
            assert(defs@ =~= defs0.skip(done@.len() as int));
        }
        module.definitions = done;
        Ok(())
    }
}

} // verus!
