use vstd::prelude::*;
use crate::general::path::{QualifiedName, name_eqv, lemma_name_eqv_refl, lemma_name_eqv_sym, lemma_name_eqv_trans};
use crate::text::same_text;

verus! {

/// The built-in scalar types; numeric kinds carry their bit width.
#[derive(Debug, Clone, Copy, PartialEq, Eq, Structural)]
pub enum PrimitiveType {
    Bool,
    Int(usize),
    Uint(usize),
    Float(usize),
    String,
    Void,
}

#[derive(Debug, PartialEq, Eq)]
pub struct StructType {
    pub members: Vec<(String, Type)>,
}

#[derive(Debug, PartialEq, Eq)]
pub struct UnionType {
    pub members: Vec<(String, Type)>,
}

#[derive(Debug, PartialEq, Eq)]
pub struct VariantType {
    pub members: Vec<(String, Type)>,
}

/// A function parameter: an optional name and its type.
#[derive(Debug, PartialEq, Eq)]
pub struct Params {
    pub name: Option<String>,
    pub ty: Type,
}

#[derive(Debug, PartialEq, Eq)]
pub struct FunctionType {
    pub params: Vec<Params>,
    pub ret_ty: Box<Type>,
    pub varidic: bool,
}

#[derive(Debug, PartialEq, Eq)]
pub struct Template {
    pub restrictions: Vec<String>,
}

#[derive(Debug, PartialEq, Eq)]
pub enum TypeKind {
    Primitive(PrimitiveType),
    Struct(StructType),
    Array(Box<Type>),
    Union(UnionType),
    Variant(VariantType),
    Pointer(Box<Type>),
    MutablePointer(Box<Type>),
    Reference(Box<Type>),
    MutableReference(Box<Type>),
    Function(FunctionType),
    Template(Template),
    /// alias to a type
    Alias(Box<Type>),
    /// path to a type that is resolved later
    Named(QualifiedName),
}

#[derive(Debug, PartialEq, Eq)]
pub struct Type {
    pub kind: TypeKind,
}

/// Two member lists (of a struct, union or variant) agree: same length,
/// same member names and equivalent member types.
pub open spec fn members_eqv(a: Seq<(String, Type)>, b: Seq<(String, Type)>) -> bool
    decreases a,
{
    &&& a.len() == b.len()
    &&& forall|j: int| #![trigger a[j]] 0 <= j < a.len() ==> a[j].0@ == b[j].0@ && ty_eqv(a[j].1, b[j].1)
}

/// Two optional parameter names agree.
pub open spec fn opt_name_eqv(a: Option<String>, b: Option<String>) -> bool {
    match (a, b) {
        (None, None) => true,
        (Some(x), Some(y)) => x@ == y@,
        _ => false,
    }
}

/// Two parameter lists agree.
pub open spec fn params_eqv(a: Seq<Params>, b: Seq<Params>) -> bool
    decreases a,
{
    &&& a.len() == b.len()
    &&& forall|j: int| #![trigger a[j]] 0 <= j < a.len() ==> opt_name_eqv(a[j].name, b[j].name) && ty_eqv(a[j].ty, b[j].ty)
}

/// Two types are the same type: the same shape, the same widths, names and
/// flags everywhere.
pub open spec fn ty_eqv(a: Type, b: Type) -> bool
    decreases a,
{
    match (a.kind, b.kind) {
        (TypeKind::Primitive(p), TypeKind::Primitive(q)) => p == q,
        (TypeKind::Struct(s), TypeKind::Struct(t)) => members_eqv(s.members@, t.members@),
        (TypeKind::Union(s), TypeKind::Union(t)) => members_eqv(s.members@, t.members@),
        (TypeKind::Variant(s), TypeKind::Variant(t)) => members_eqv(s.members@, t.members@),
        (TypeKind::Array(x), TypeKind::Array(y)) => ty_eqv(*x, *y),
        (TypeKind::Pointer(x), TypeKind::Pointer(y)) => ty_eqv(*x, *y),
        (TypeKind::MutablePointer(x), TypeKind::MutablePointer(y)) => ty_eqv(*x, *y),
        (TypeKind::Reference(x), TypeKind::Reference(y)) => ty_eqv(*x, *y),
        (TypeKind::MutableReference(x), TypeKind::MutableReference(y)) => ty_eqv(*x, *y),
        (TypeKind::Alias(x), TypeKind::Alias(y)) => ty_eqv(*x, *y),
        (TypeKind::Function(f), TypeKind::Function(g)) => {
            &&& params_eqv(f.params@, g.params@)
            &&& ty_eqv(*f.ret_ty, *g.ret_ty)
            &&& f.varidic == g.varidic
        },
        (TypeKind::Template(s), TypeKind::Template(t)) => {
            &&& s.restrictions@.len() == t.restrictions@.len()
            &&& forall|j: int| #![trigger s.restrictions@[j]] 0 <= j < s.restrictions@.len()
                ==> s.restrictions@[j]@ == t.restrictions@[j]@
        },
        (TypeKind::Named(x), TypeKind::Named(y)) => name_eqv(x, y),
        _ => false,
    }
}

/// A pointer kind (immutable or mutable).
pub open spec fn spec_is_pointer(t: Type) -> bool {
    t.kind is Pointer || t.kind is MutablePointer
}

/// Type equivalence is reflexive.
pub proof fn lemma_ty_eqv_refl(a: Type)
    ensures
        ty_eqv(a, a),
    decreases a,
{
    match a.kind {
        TypeKind::Struct(s) => {
            assert forall|j: int| #![trigger s.members@[j]] 0 <= j < s.members@.len()
                implies ty_eqv(s.members@[j].1, s.members@[j].1) by {
                assert(decreases_to!(a => a.kind));
                assert(decreases_to!(a.kind => s));
                assert(decreases_to!(s => s.members));
                assert(decreases_to!(s.members => s.members@));
                assert(decreases_to!(s.members@ => s.members@[j]));
                assert(decreases_to!(s.members@[j] => s.members@[j].1));
                lemma_ty_eqv_refl(s.members@[j].1);
            }
            assert(members_eqv(s.members@, s.members@));
        },
        TypeKind::Union(s) => {
            assert forall|j: int| #![trigger s.members@[j]] 0 <= j < s.members@.len()
                implies ty_eqv(s.members@[j].1, s.members@[j].1) by {
                assert(decreases_to!(a => a.kind));
                assert(decreases_to!(a.kind => s));
                assert(decreases_to!(s => s.members));
                assert(decreases_to!(s.members => s.members@));
                assert(decreases_to!(s.members@ => s.members@[j]));
                assert(decreases_to!(s.members@[j] => s.members@[j].1));
                lemma_ty_eqv_refl(s.members@[j].1);
            }
            assert(members_eqv(s.members@, s.members@));
        },
        TypeKind::Variant(s) => {
            assert forall|j: int| #![trigger s.members@[j]] 0 <= j < s.members@.len()
                implies ty_eqv(s.members@[j].1, s.members@[j].1) by {
                assert(decreases_to!(a => a.kind));
                assert(decreases_to!(a.kind => s));
                assert(decreases_to!(s => s.members));
                assert(decreases_to!(s.members => s.members@));
                assert(decreases_to!(s.members@ => s.members@[j]));
                assert(decreases_to!(s.members@[j] => s.members@[j].1));
                lemma_ty_eqv_refl(s.members@[j].1);
            }
            assert(members_eqv(s.members@, s.members@));
        },
        TypeKind::Array(x) => lemma_ty_eqv_refl(*x),
        TypeKind::Pointer(x) => lemma_ty_eqv_refl(*x),
        TypeKind::MutablePointer(x) => lemma_ty_eqv_refl(*x),
        TypeKind::Reference(x) => lemma_ty_eqv_refl(*x),
        TypeKind::MutableReference(x) => lemma_ty_eqv_refl(*x),
        TypeKind::Alias(x) => lemma_ty_eqv_refl(*x),
        TypeKind::Function(f) => {
            assert forall|j: int| #![trigger f.params@[j]] 0 <= j < f.params@.len()
                implies ty_eqv(f.params@[j].ty, f.params@[j].ty) by {
                assert(decreases_to!(a => a.kind));
                assert(decreases_to!(a.kind => f));
                assert(decreases_to!(f => f.params));
                assert(decreases_to!(f.params => f.params@));
                assert(decreases_to!(f.params@ => f.params@[j]));
                assert(decreases_to!(f.params@[j] => f.params@[j].ty));
                lemma_ty_eqv_refl(f.params@[j].ty);
            }
            assert(params_eqv(f.params@, f.params@));
            lemma_ty_eqv_refl(*f.ret_ty);
        },
        TypeKind::Named(n) => lemma_name_eqv_refl(n),
        _ => {},
    }
}

/// Type equivalence is symmetric.
pub proof fn lemma_ty_eqv_sym(a: Type, b: Type)
    requires
        ty_eqv(a, b),
    ensures
        ty_eqv(b, a),
    decreases a,
{
    match (a.kind, b.kind) {
        (TypeKind::Struct(s), TypeKind::Struct(t)) => {
            assert(members_eqv(s.members@, t.members@));
            assert forall|j: int| #![trigger t.members@[j]] 0 <= j < t.members@.len()
                implies t.members@[j].0@ == s.members@[j].0@ && ty_eqv(t.members@[j].1, s.members@[j].1) by {
                assert(decreases_to!(a => a.kind));
                assert(decreases_to!(a.kind => s));
                assert(decreases_to!(s => s.members));
                assert(decreases_to!(s.members => s.members@));
                assert(decreases_to!(s.members@ => s.members@[j]));
                assert(decreases_to!(s.members@[j] => s.members@[j].1));
                assert(ty_eqv(s.members@[j].1, t.members@[j].1));
                lemma_ty_eqv_sym(s.members@[j].1, t.members@[j].1);
            }
            assert(members_eqv(t.members@, s.members@));
        },
        (TypeKind::Union(s), TypeKind::Union(t)) => {
            assert(members_eqv(s.members@, t.members@));
            assert forall|j: int| #![trigger t.members@[j]] 0 <= j < t.members@.len()
                implies t.members@[j].0@ == s.members@[j].0@ && ty_eqv(t.members@[j].1, s.members@[j].1) by {
                assert(decreases_to!(a => a.kind));
                assert(decreases_to!(a.kind => s));
                assert(decreases_to!(s => s.members));
                assert(decreases_to!(s.members => s.members@));
                assert(decreases_to!(s.members@ => s.members@[j]));
                assert(decreases_to!(s.members@[j] => s.members@[j].1));
                assert(ty_eqv(s.members@[j].1, t.members@[j].1));
                lemma_ty_eqv_sym(s.members@[j].1, t.members@[j].1);
            }
            assert(members_eqv(t.members@, s.members@));
        },
        (TypeKind::Variant(s), TypeKind::Variant(t)) => {
            assert(members_eqv(s.members@, t.members@));
            assert forall|j: int| #![trigger t.members@[j]] 0 <= j < t.members@.len()
                implies t.members@[j].0@ == s.members@[j].0@ && ty_eqv(t.members@[j].1, s.members@[j].1) by {
                assert(decreases_to!(a => a.kind));
                assert(decreases_to!(a.kind => s));
                assert(decreases_to!(s => s.members));
                assert(decreases_to!(s.members => s.members@));
                assert(decreases_to!(s.members@ => s.members@[j]));
                assert(decreases_to!(s.members@[j] => s.members@[j].1));
                assert(ty_eqv(s.members@[j].1, t.members@[j].1));
                lemma_ty_eqv_sym(s.members@[j].1, t.members@[j].1);
            }
            assert(members_eqv(t.members@, s.members@));
        },
        (TypeKind::Array(x), TypeKind::Array(y)) => lemma_ty_eqv_sym(*x, *y),
        (TypeKind::Pointer(x), TypeKind::Pointer(y)) => lemma_ty_eqv_sym(*x, *y),
        (TypeKind::MutablePointer(x), TypeKind::MutablePointer(y)) => lemma_ty_eqv_sym(*x, *y),
        (TypeKind::Reference(x), TypeKind::Reference(y)) => lemma_ty_eqv_sym(*x, *y),
        (TypeKind::MutableReference(x), TypeKind::MutableReference(y)) => lemma_ty_eqv_sym(*x, *y),
        (TypeKind::Alias(x), TypeKind::Alias(y)) => lemma_ty_eqv_sym(*x, *y),
        (TypeKind::Function(f), TypeKind::Function(g)) => {
            assert(params_eqv(f.params@, g.params@));
            assert forall|j: int| #![trigger g.params@[j]] 0 <= j < g.params@.len()
                implies opt_name_eqv(g.params@[j].name, f.params@[j].name) && ty_eqv(g.params@[j].ty, f.params@[j].ty) by {
                assert(decreases_to!(a => a.kind));
                assert(decreases_to!(a.kind => f));
                assert(decreases_to!(f => f.params));
                assert(decreases_to!(f.params => f.params@));
                assert(decreases_to!(f.params@ => f.params@[j]));
                assert(decreases_to!(f.params@[j] => f.params@[j].ty));
                assert(ty_eqv(f.params@[j].ty, g.params@[j].ty));
                lemma_ty_eqv_sym(f.params@[j].ty, g.params@[j].ty);
            }
            assert(params_eqv(g.params@, f.params@));
            lemma_ty_eqv_sym(*f.ret_ty, *g.ret_ty);
        },
        (TypeKind::Template(s), TypeKind::Template(t)) => {
            assert forall|j: int| #![trigger t.restrictions@[j]] 0 <= j < t.restrictions@.len()
                implies t.restrictions@[j]@ == s.restrictions@[j]@ by {
                assert(s.restrictions@[j]@ == t.restrictions@[j]@);
            }
        },
        (TypeKind::Named(x), TypeKind::Named(y)) => lemma_name_eqv_sym(x, y),
        _ => {},
    }
}

/// Type equivalence is transitive.
pub proof fn lemma_ty_eqv_trans(a: Type, b: Type, c: Type)
    requires
        ty_eqv(a, b),
        ty_eqv(b, c),
    ensures
        ty_eqv(a, c),
    decreases a,
{
    match (a.kind, b.kind, c.kind) {
        (TypeKind::Struct(s), TypeKind::Struct(t), TypeKind::Struct(u)) => {
            assert(members_eqv(s.members@, t.members@));
            assert(members_eqv(t.members@, u.members@));
            assert forall|j: int| #![trigger s.members@[j]] 0 <= j < s.members@.len()
                implies s.members@[j].0@ == u.members@[j].0@ && ty_eqv(s.members@[j].1, u.members@[j].1) by {
                assert(decreases_to!(a => a.kind));
                assert(decreases_to!(a.kind => s));
                assert(decreases_to!(s => s.members));
                assert(decreases_to!(s.members => s.members@));
                assert(decreases_to!(s.members@ => s.members@[j]));
                assert(decreases_to!(s.members@[j] => s.members@[j].1));
                assert(s.members@[j].0@ == t.members@[j].0@ && ty_eqv(s.members@[j].1, t.members@[j].1));
                assert(t.members@[j].0@ == u.members@[j].0@ && ty_eqv(t.members@[j].1, u.members@[j].1));
                lemma_ty_eqv_trans(s.members@[j].1, t.members@[j].1, u.members@[j].1);
            }
            assert(members_eqv(s.members@, u.members@));
        },
        (TypeKind::Union(s), TypeKind::Union(t), TypeKind::Union(u)) => {
            assert(members_eqv(s.members@, t.members@));
            assert(members_eqv(t.members@, u.members@));
            assert forall|j: int| #![trigger s.members@[j]] 0 <= j < s.members@.len()
                implies s.members@[j].0@ == u.members@[j].0@ && ty_eqv(s.members@[j].1, u.members@[j].1) by {
                assert(decreases_to!(a => a.kind));
                assert(decreases_to!(a.kind => s));
                assert(decreases_to!(s => s.members));
                assert(decreases_to!(s.members => s.members@));
                assert(decreases_to!(s.members@ => s.members@[j]));
                assert(decreases_to!(s.members@[j] => s.members@[j].1));
                assert(s.members@[j].0@ == t.members@[j].0@ && ty_eqv(s.members@[j].1, t.members@[j].1));
                assert(t.members@[j].0@ == u.members@[j].0@ && ty_eqv(t.members@[j].1, u.members@[j].1));
                lemma_ty_eqv_trans(s.members@[j].1, t.members@[j].1, u.members@[j].1);
            }
            assert(members_eqv(s.members@, u.members@));
        },
        (TypeKind::Variant(s), TypeKind::Variant(t), TypeKind::Variant(u)) => {
            assert(members_eqv(s.members@, t.members@));
            assert(members_eqv(t.members@, u.members@));
            assert forall|j: int| #![trigger s.members@[j]] 0 <= j < s.members@.len()
                implies s.members@[j].0@ == u.members@[j].0@ && ty_eqv(s.members@[j].1, u.members@[j].1) by {
                assert(decreases_to!(a => a.kind));
                assert(decreases_to!(a.kind => s));
                assert(decreases_to!(s => s.members));
                assert(decreases_to!(s.members => s.members@));
                assert(decreases_to!(s.members@ => s.members@[j]));
                assert(decreases_to!(s.members@[j] => s.members@[j].1));
                assert(s.members@[j].0@ == t.members@[j].0@ && ty_eqv(s.members@[j].1, t.members@[j].1));
                assert(t.members@[j].0@ == u.members@[j].0@ && ty_eqv(t.members@[j].1, u.members@[j].1));
                lemma_ty_eqv_trans(s.members@[j].1, t.members@[j].1, u.members@[j].1);
            }
            assert(members_eqv(s.members@, u.members@));
        },
        (TypeKind::Array(x), TypeKind::Array(y), TypeKind::Array(z)) => lemma_ty_eqv_trans(*x, *y, *z),
        (TypeKind::Pointer(x), TypeKind::Pointer(y), TypeKind::Pointer(z)) => lemma_ty_eqv_trans(*x, *y, *z),
        (TypeKind::MutablePointer(x), TypeKind::MutablePointer(y), TypeKind::MutablePointer(z)) => lemma_ty_eqv_trans(*x, *y, *z),
        (TypeKind::Reference(x), TypeKind::Reference(y), TypeKind::Reference(z)) => lemma_ty_eqv_trans(*x, *y, *z),
        (TypeKind::MutableReference(x), TypeKind::MutableReference(y), TypeKind::MutableReference(z)) => lemma_ty_eqv_trans(*x, *y, *z),
        (TypeKind::Alias(x), TypeKind::Alias(y), TypeKind::Alias(z)) => lemma_ty_eqv_trans(*x, *y, *z),
        (TypeKind::Function(f), TypeKind::Function(g), TypeKind::Function(h)) => {
            assert(params_eqv(f.params@, g.params@));
            assert(params_eqv(g.params@, h.params@));
            assert forall|j: int| #![trigger f.params@[j]] 0 <= j < f.params@.len()
                implies opt_name_eqv(f.params@[j].name, h.params@[j].name) && ty_eqv(f.params@[j].ty, h.params@[j].ty) by {
                assert(decreases_to!(a => a.kind));
                assert(decreases_to!(a.kind => f));
                assert(decreases_to!(f => f.params));
                assert(decreases_to!(f.params => f.params@));
                assert(decreases_to!(f.params@ => f.params@[j]));
                assert(decreases_to!(f.params@[j] => f.params@[j].ty));
                assert(opt_name_eqv(f.params@[j].name, g.params@[j].name) && ty_eqv(f.params@[j].ty, g.params@[j].ty));
                assert(opt_name_eqv(g.params@[j].name, h.params@[j].name) && ty_eqv(g.params@[j].ty, h.params@[j].ty));
                lemma_ty_eqv_trans(f.params@[j].ty, g.params@[j].ty, h.params@[j].ty);
            }
            assert(params_eqv(f.params@, h.params@));
            lemma_ty_eqv_trans(*f.ret_ty, *g.ret_ty, *h.ret_ty);
        },
        (TypeKind::Template(s), TypeKind::Template(t), TypeKind::Template(u)) => {
            assert forall|j: int| #![trigger s.restrictions@[j]] 0 <= j < s.restrictions@.len()
                implies s.restrictions@[j]@ == u.restrictions@[j]@ by {
                assert(s.restrictions@[j]@ == t.restrictions@[j]@);
                assert(t.restrictions@[j]@ == u.restrictions@[j]@);
            }
        },
        (TypeKind::Named(x), TypeKind::Named(y), TypeKind::Named(z)) => lemma_name_eqv_trans(x, y, z),
        _ => {},
    }
}

/// A copy of a member list that agrees with it.
pub fn copy_members(ms: &Vec<(String, Type)>) -> (r: Vec<(String, Type)>)
    ensures
        members_eqv(r@, ms@),
    decreases ms,
{
    let mut out: Vec<(String, Type)> = Vec::new();
    let mut i: usize = 0;
    while i < ms.len()
        invariant
            i <= ms@.len(),
            out@.len() == i,
            forall|j: int| #![trigger out@[j]] 0 <= j < i ==> out@[j].0 == ms@[j].0 && ty_eqv(out@[j].1, ms@[j].1),
        decreases ms@.len() - i,
    {
        proof {
            assert(decreases_to!(*ms => ms@));
            assert(decreases_to!(ms@ => ms@[i as int]));
            assert(decreases_to!(ms@[i as int] => ms@[i as int].1));
        }
        let t = ms[i].1.copy();
        let n = ms[i].0.clone();
        out.push((n, t));
        i += 1;
    }
    out
}

/// Whether two member lists agree.
pub fn same_members(a: &Vec<(String, Type)>, b: &Vec<(String, Type)>) -> (r: bool)
    ensures
        r == members_eqv(a@, b@),
    decreases a,
{
    if a.len() != b.len() {
        return false;
    }
    let mut i: usize = 0;
    while i < a.len()
        invariant
            i <= a@.len(),
            a@.len() == b@.len(),
            forall|j: int| #![trigger a@[j]] 0 <= j < i ==> a@[j].0@ == b@[j].0@ && ty_eqv(a@[j].1, b@[j].1),
        decreases a@.len() - i,
    {
        proof {
            assert(decreases_to!(*a => a@));
            assert(decreases_to!(a@ => a@[i as int]));
            assert(decreases_to!(a@[i as int] => a@[i as int].1));
        }
        if !same_text(a[i].0.as_str(), b[i].0.as_str()) {
            return false;
        }
        if !a[i].1.same_as(&b[i].1) {
            return false;
        }
        i += 1;
    }
    true
}

/// A copy of a parameter list that agrees with it.
pub fn copy_params(ps: &Vec<Params>) -> (r: Vec<Params>)
    ensures
        params_eqv(r@, ps@),
    decreases ps,
{
    let mut out: Vec<Params> = Vec::new();
    let mut i: usize = 0;
    while i < ps.len()
        invariant
            i <= ps@.len(),
            out@.len() == i,
            forall|j: int| #![trigger out@[j]] 0 <= j < i ==> out@[j].name == ps@[j].name && ty_eqv(out@[j].ty, ps@[j].ty),
        decreases ps@.len() - i,
    {
        proof {
            assert(decreases_to!(*ps => ps@));
            assert(decreases_to!(ps@ => ps@[i as int]));
            assert(decreases_to!(ps@[i as int] => ps@[i as int].ty));
        }
        let t = ps[i].ty.copy();
        let n = match &ps[i].name {
            Some(n) => Some(n.clone()),
            None => None,
        };
        out.push(Params { name: n, ty: t });
        i += 1;
    }
    out
}

/// Whether two parameter lists agree.
pub fn same_params(a: &Vec<Params>, b: &Vec<Params>) -> (r: bool)
    ensures
        r == params_eqv(a@, b@),
    decreases a,
{
    if a.len() != b.len() {
        return false;
    }
    let mut i: usize = 0;
    while i < a.len()
        invariant
            i <= a@.len(),
            a@.len() == b@.len(),
            forall|j: int| #![trigger a@[j]] 0 <= j < i ==> opt_name_eqv(a@[j].name, b@[j].name) && ty_eqv(a@[j].ty, b@[j].ty),
        decreases a@.len() - i,
    {
        proof {
            assert(decreases_to!(*a => a@));
            assert(decreases_to!(a@ => a@[i as int]));
            assert(decreases_to!(a@[i as int] => a@[i as int].ty));
        }
        let names_same = match (&a[i].name, &b[i].name) {
            (None, None) => true,
            (Some(x), Some(y)) => same_text(x.as_str(), y.as_str()),
            _ => false,
        };
        if !names_same {
            return false;
        }
        if !a[i].ty.same_as(&b[i].ty) {
            return false;
        }
        i += 1;
    }
    true
}

fn copy_strings(v: &Vec<String>) -> (r: Vec<String>)
    ensures
        r@ == v@,
{
    let mut out: Vec<String> = Vec::new();
    let mut i: usize = 0;
    while i < v.len()
        invariant
            i <= v@.len(),
            out@ == v@.take(i as int),
        decreases v@.len() - i,
    {
        out.push(v[i].clone());
        assert(v@.take(i + 1) == v@.take(i as int).push(v@[i as int]));
        i += 1;
    }
    assert(v@.take(i as int) =~= v@);
    out
}

fn same_strings(a: &Vec<String>, b: &Vec<String>) -> (r: bool)
    ensures
        r == (a@.len() == b@.len() && forall|j: int| #![trigger a@[j]] 0 <= j < a@.len() ==> a@[j]@ == b@[j]@),
{
    if a.len() != b.len() {
        return false;
    }
    let mut i: usize = 0;
    while i < a.len()
        invariant
            i <= a@.len(),
            a@.len() == b@.len(),
            forall|j: int| #![trigger a@[j]] 0 <= j < i ==> a@[j]@ == b@[j]@,
        decreases a@.len() - i,
    {
        if !same_text(a[i].as_str(), b[i].as_str()) {
            return false;
        }
        i += 1;
    }
    true
}

impl Params {
    /// A named parameter.
    pub fn named(name: String, ty: Type) -> (r: Self)
        ensures
            r.name == Some(name),
            r.ty == ty,
    {
        Params { name: Some(name), ty }
    }

    /// An unnamed parameter.
    pub fn anonymous(ty: Type) -> (r: Self)
        ensures
            r.name.is_none(),
            r.ty == ty,
    {
        Params { name: None, ty }
    }
}

impl Type {
    pub fn alias(ty: Type) -> (r: Self)
        ensures
            r.kind == TypeKind::Alias(Box::new(ty)),
    {
        Type { kind: TypeKind::Alias(Box::new(ty)) }
    }

    pub fn primitive(p: PrimitiveType) -> (r: Self)
        ensures
            r.kind == TypeKind::Primitive(p),
    {
        Type { kind: TypeKind::Primitive(p) }
    }

    /// The default signed integer, 32 bits wide.
    pub fn int_t() -> (r: Self)
        ensures
            r.kind == TypeKind::Primitive(PrimitiveType::Int(32)),
    {
        Type { kind: TypeKind::Primitive(PrimitiveType::Int(32)) }
    }

    /// The default unsigned integer, 32 bits wide.
    pub fn uint() -> (r: Self)
        ensures
            r.kind == TypeKind::Primitive(PrimitiveType::Uint(32)),
    {
        Type { kind: TypeKind::Primitive(PrimitiveType::Uint(32)) }
    }

    pub fn int_p(prec: usize) -> (r: Self)
        ensures
            r.kind == TypeKind::Primitive(PrimitiveType::Int(prec)),
    {
        Type { kind: TypeKind::Primitive(PrimitiveType::Int(prec)) }
    }

    pub fn uint_p(prec: usize) -> (r: Self)
        ensures
            r.kind == TypeKind::Primitive(PrimitiveType::Uint(prec)),
    {
        Type { kind: TypeKind::Primitive(PrimitiveType::Uint(prec)) }
    }

    /// The default float, 32 bits wide.
    pub fn float() -> (r: Self)
        ensures
            r.kind == TypeKind::Primitive(PrimitiveType::Float(32)),
    {
        Type { kind: TypeKind::Primitive(PrimitiveType::Float(32)) }
    }

    pub fn float_p(prec: usize) -> (r: Self)
        ensures
            r.kind == TypeKind::Primitive(PrimitiveType::Float(prec)),
    {
        Type { kind: TypeKind::Primitive(PrimitiveType::Float(prec)) }
    }

    pub fn bool() -> (r: Self)
        ensures
            r.kind == TypeKind::Primitive(PrimitiveType::Bool),
    {
        Type { kind: TypeKind::Primitive(PrimitiveType::Bool) }
    }

    pub fn string() -> (r: Self)
        ensures
            r.kind == TypeKind::Primitive(PrimitiveType::String),
    {
        Type { kind: TypeKind::Primitive(PrimitiveType::String) }
    }

    pub fn void() -> (r: Self)
        ensures
            r.kind == TypeKind::Primitive(PrimitiveType::Void),
    {
        Type { kind: TypeKind::Primitive(PrimitiveType::Void) }
    }

    pub fn struct_t(members: Vec<(String, Type)>) -> (r: Self)
        ensures
            r.kind == TypeKind::Struct(StructType { members }),
    {
        Type { kind: TypeKind::Struct(StructType { members }) }
    }

    pub fn union(members: Vec<(String, Type)>) -> (r: Self)
        ensures
            r.kind == TypeKind::Union(UnionType { members }),
    {
        Type { kind: TypeKind::Union(UnionType { members }) }
    }

    pub fn array(element: Type) -> (r: Self)
        ensures
            r.kind == TypeKind::Array(Box::new(element)),
    {
        Type { kind: TypeKind::Array(Box::new(element)) }
    }

    pub fn pointer(ty: Type) -> (r: Self)
        ensures
            r.kind == TypeKind::Pointer(Box::new(ty)),
    {
        Type { kind: TypeKind::Pointer(Box::new(ty)) }
    }

    pub fn reference(ty: Type) -> (r: Self)
        ensures
            r.kind == TypeKind::Reference(Box::new(ty)),
    {
        Type { kind: TypeKind::Reference(Box::new(ty)) }
    }

    pub fn mutable_pointer(ty: Type) -> (r: Self)
        ensures
            r.kind == TypeKind::MutablePointer(Box::new(ty)),
    {
        Type { kind: TypeKind::MutablePointer(Box::new(ty)) }
    }

    pub fn mutable_reference(ty: Type) -> (r: Self)
        ensures
            r.kind == TypeKind::MutableReference(Box::new(ty)),
    {
        Type { kind: TypeKind::MutableReference(Box::new(ty)) }
    }

    /// The function type with the given parameters, return type and
    /// variadic flag.
    pub fn function(params: Vec<Params>, ret_ty: Type, varidic: bool) -> (r: Self)
        ensures
            r.kind == TypeKind::Function(FunctionType { params, ret_ty: Box::new(ret_ty), varidic }),
    {
        Type { kind: TypeKind::Function(FunctionType { params, ret_ty: Box::new(ret_ty), varidic }) }
    }

    /// A type named by a path, to be resolved later.
    pub fn named(path: QualifiedName) -> (r: Self)
        ensures
            r.kind == TypeKind::Named(path),
    {
        Type { kind: TypeKind::Named(path) }
    }

    /// Whether the type is a pointer (immutable or mutable).
    pub fn is_pointer(&self) -> (r: bool)
        ensures
            r == spec_is_pointer(*self),
    {
        match &self.kind {
            TypeKind::Pointer(_) => true,
            TypeKind::MutablePointer(_) => true,
            _ => false,
        }
    }

    /// A copy of the type that is the same type.
    pub fn copy(&self) -> (r: Self)
        ensures
            ty_eqv(r, *self),
        decreases self,
    {
        proof {
            assert(decreases_to!(*self => self.kind));
        }
        let kind = match &self.kind {
            TypeKind::Primitive(p) => TypeKind::Primitive(*p),
            TypeKind::Struct(s) => TypeKind::Struct(StructType { members: copy_members(&s.members) }),
            TypeKind::Union(s) => TypeKind::Union(UnionType { members: copy_members(&s.members) }),
            TypeKind::Variant(s) => TypeKind::Variant(VariantType { members: copy_members(&s.members) }),
            TypeKind::Array(x) => TypeKind::Array(Box::new(x.copy())),
            TypeKind::Pointer(x) => TypeKind::Pointer(Box::new(x.copy())),
            TypeKind::MutablePointer(x) => TypeKind::MutablePointer(Box::new(x.copy())),
            TypeKind::Reference(x) => TypeKind::Reference(Box::new(x.copy())),
            TypeKind::MutableReference(x) => TypeKind::MutableReference(Box::new(x.copy())),
            TypeKind::Alias(x) => TypeKind::Alias(Box::new(x.copy())),
            TypeKind::Function(f) => TypeKind::Function(FunctionType {
                params: copy_params(&f.params),
                ret_ty: Box::new(f.ret_ty.copy()),
                varidic: f.varidic,
            }),
            TypeKind::Template(t) => TypeKind::Template(Template { restrictions: copy_strings(&t.restrictions) }),
            TypeKind::Named(n) => TypeKind::Named(n.copy()),
        };
        Type { kind }
    }

    /// Whether the two types are the same type.
    pub fn same_as(&self, other: &Type) -> (r: bool)
        ensures
            r == ty_eqv(*self, *other),
        decreases self,
    {
        proof {
            assert(decreases_to!(*self => self.kind));
        }
        match (&self.kind, &other.kind) {
            (TypeKind::Primitive(p), TypeKind::Primitive(q)) => *p == *q,
            (TypeKind::Struct(s), TypeKind::Struct(t)) => same_members(&s.members, &t.members),
            (TypeKind::Union(s), TypeKind::Union(t)) => same_members(&s.members, &t.members),
            (TypeKind::Variant(s), TypeKind::Variant(t)) => same_members(&s.members, &t.members),
            (TypeKind::Array(x), TypeKind::Array(y)) => x.same_as(y),
            (TypeKind::Pointer(x), TypeKind::Pointer(y)) => x.same_as(y),
            (TypeKind::MutablePointer(x), TypeKind::MutablePointer(y)) => x.same_as(y),
            (TypeKind::Reference(x), TypeKind::Reference(y)) => x.same_as(y),
            (TypeKind::MutableReference(x), TypeKind::MutableReference(y)) => x.same_as(y),
            (TypeKind::Alias(x), TypeKind::Alias(y)) => x.same_as(y),
            (TypeKind::Function(f), TypeKind::Function(g)) => {
                same_params(&f.params, &g.params) && f.ret_ty.same_as(&g.ret_ty) && f.varidic == g.varidic
            },
            (TypeKind::Template(s), TypeKind::Template(t)) => same_strings(&s.restrictions, &t.restrictions),
            (TypeKind::Named(x), TypeKind::Named(y)) => x.same_as(y),
            _ => false,
        }
    }
}

impl From<QualifiedName> for Type {
    /// The type named by a path, to be resolved later.
    fn from(path: QualifiedName) -> (r: Self) {
        Type { kind: TypeKind::Named(path) }
    }
}

impl vstd::std_specs::convert::FromSpecImpl<QualifiedName> for Type {
    open spec fn obeys_from_spec() -> bool {
        true
    }

    open spec fn from_spec(path: QualifiedName) -> Type {
        Type { kind: TypeKind::Named(path) }
    }
}

impl From<(String, Type)> for Params {
    /// A named parameter.
    fn from(value: (String, Type)) -> (r: Self) {
        Params { name: Some(value.0), ty: value.1 }
    }
}

impl vstd::std_specs::convert::FromSpecImpl<(String, Type)> for Params {
    open spec fn obeys_from_spec() -> bool {
        true
    }

    open spec fn from_spec(value: (String, Type)) -> Params {
        Params { name: Some(value.0), ty: value.1 }
    }
}

impl From<Type> for Params {
    /// An unnamed parameter.
    fn from(value: Type) -> (r: Self) {
        Params { name: None, ty: value }
    }
}

impl vstd::std_specs::convert::FromSpecImpl<Type> for Params {
    open spec fn obeys_from_spec() -> bool {
        true
    }

    open spec fn from_spec(value: Type) -> Params {
        Params { name: None, ty: value }
    }
}

} // verus!
