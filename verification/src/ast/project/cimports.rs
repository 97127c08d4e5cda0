use vstd::prelude::*;
use crate::ast::{Definition, DefinitionKind, Visibility};
use crate::ast::function::{FunctionBuilder, FunctionC};
use crate::general::path::{QualifiedName, QualifiedNameSegment};
use crate::general::types::{Params, PrimitiveType, StructType, Type, TypeKind, UnionType};
use crate::text::{push_str, same_text, string_of};

verus! {

/// The kinds of C types that a header declares, as the C front end names
/// them; `Other` is every kind that has no counterpart here.
#[derive(Debug, Clone, Copy, PartialEq, Eq, Structural)]
pub enum CTypeKind {
    Void,
    Bool,
    SChar,
    CharS,
    CharU,
    UChar,
    WChar,
    Char16,
    Char32,
    Short,
    Int,
    Long,
    LongLong,
    Int128,
    UShort,
    UInt,
    ULong,
    ULongLong,
    UInt128,
    Half,
    Float16,
    Float,
    Double,
    LongDouble,
    Float128,
    Pointer,
    BlockPointer,
    MemberPointer,
    LValueReference,
    RValueReference,
    Enum,
    Typedef,
    Elaborated,
    Auto,
    Unexposed,
    FunctionPrototype,
    FunctionNoPrototype,
    ConstantArray,
    DependentSizedArray,
    IncompleteArray,
    VariableArray,
    Vector,
    Record,
    Other,
}

/// A C type as the front end describes it: its kind, its size in bytes
/// when known, and the related types that the conversion follows.
#[derive(Debug)]
pub struct CType {
    pub kind: CTypeKind,
    pub size: Option<usize>,
    pub display_name: String,
    /// the type pointed to (pointers and references)
    pub pointee: Option<Box<CType>>,
    /// the type without sugar (typedefs and the like)
    pub canonical: Option<Box<CType>>,
    /// the result of a function type
    pub result: Option<Box<CType>>,
    /// the argument types of a function type
    pub arguments: Option<Vec<CType>>,
    pub variadic: bool,
    /// the element of an array or vector type
    pub element: Option<Box<CType>>,
    /// the declaration of a record type
    pub record: Option<CRecord>,
}

/// The declaration of a struct or union.
#[derive(Debug)]
pub struct CRecord {
    pub name: Option<String>,
    pub is_union: bool,
    /// the unique symbol of the declaration
    pub usr: Option<String>,
    /// the typed fields, in order (an unnamed one has the empty name)
    pub fields: Vec<(String, CType)>,
}

/// The width in bits of a type of `size` bytes (32 when unknown).
pub open spec fn bits_of(size: Option<usize>) -> usize {
    match size {
        Some(s) => (s * 8) as usize,
        None => 32,
    }
}

pub open spec fn is_signed_sized(k: CTypeKind) -> bool {
    k == CTypeKind::WChar || k == CTypeKind::Short || k == CTypeKind::Int || k == CTypeKind::Long
        || k == CTypeKind::LongLong || k == CTypeKind::Int128 || k == CTypeKind::Enum
}

pub open spec fn is_unsigned_sized(k: CTypeKind) -> bool {
    k == CTypeKind::Char16 || k == CTypeKind::Char32 || k == CTypeKind::UShort || k == CTypeKind::UInt
        || k == CTypeKind::ULong || k == CTypeKind::ULongLong || k == CTypeKind::UInt128
}

pub open spec fn is_float_kind(k: CTypeKind) -> bool {
    k == CTypeKind::Half || k == CTypeKind::Float16 || k == CTypeKind::Float || k == CTypeKind::Double
        || k == CTypeKind::LongDouble || k == CTypeKind::Float128
}

pub open spec fn is_sugar_kind(k: CTypeKind) -> bool {
    k == CTypeKind::Typedef || k == CTypeKind::Elaborated || k == CTypeKind::Auto || k == CTypeKind::Unexposed
}

pub open spec fn is_array_kind(k: CTypeKind) -> bool {
    k == CTypeKind::ConstantArray || k == CTypeKind::DependentSizedArray || k == CTypeKind::IncompleteArray
        || k == CTypeKind::VariableArray || k == CTypeKind::Vector
}

pub open spec fn is_function_kind(k: CTypeKind) -> bool {
    k == CTypeKind::FunctionPrototype || k == CTypeKind::FunctionNoPrototype
}

pub open spec fn anonymous_text() -> Seq<char> {
    seq!['<', 'a', 'n', 'o', 'n', 'y', 'm', 'o', 'u', 's', '>']
}

/// The name of a record type: its declaration's name, else the type's
/// display name, else `<anonymous>`.
pub open spec fn record_name(t: CType, rec: CRecord) -> Seq<char> {
    let n = match rec.name {
        Some(n) => n@,
        None => t.display_name@,
    };
    if n.len() == 0 {
        anonymous_text()
    } else {
        n
    }
}

/// The key under which a record is being expanded: its unique symbol, else
/// `struct:name` or `union:name`.
pub open spec fn record_key(t: CType, rec: CRecord) -> Seq<char> {
    match rec.usr {
        Some(u) => u@,
        None => (if rec.is_union {
            seq!['u', 'n', 'i', 'o', 'n']
        } else {
            seq!['s', 't', 'r', 'u', 'c', 't']
        }) + seq![':'] + record_name(t, rec),
    }
}

/// The sub-type that a pointer-like type is converted through.
pub open spec fn pointer_target(t: CType) -> Option<Box<CType>> {
    if t.kind == CTypeKind::BlockPointer || t.kind == CTypeKind::MemberPointer {
        match t.pointee {
            Some(p) => Some(p),
            None => t.canonical,
        }
    } else {
        t.pointee
    }
}

/// Every part of `t` that the conversion reads is there and of a known
/// kind, and every size fits when counted in bits.
pub open spec fn convertible(t: CType) -> bool
    decreases t,
{
    &&& t.kind != CTypeKind::Other
    &&& (t.size is Some ==> t.size->0 * 8 <= usize::MAX)
    &&& (t.kind == CTypeKind::Pointer || t.kind == CTypeKind::BlockPointer || t.kind == CTypeKind::MemberPointer
        || t.kind == CTypeKind::LValueReference || t.kind == CTypeKind::RValueReference) ==> (pointer_target(t) is Some
        && t.pointee is Some == (t.kind == CTypeKind::Pointer || t.kind == CTypeKind::LValueReference
        || t.kind == CTypeKind::RValueReference || t.pointee is Some) && {
        proof { lemma_pointer_target_decreases(t); }
        convertible(*pointer_target(t)->0)
    })
    &&& is_sugar_kind(t.kind) ==> (t.canonical is Some && convertible(*t.canonical->0))
    &&& is_array_kind(t.kind) ==> (t.element is Some && convertible(*t.element->0))
    &&& is_function_kind(t.kind) ==> (t.result is Some ==> convertible(*t.result->0))
    &&& is_function_kind(t.kind) ==> (t.arguments is Some ==> forall|i: int| #![trigger t.arguments->0@[i]] 0 <= i < t.arguments->0@.len() ==> convertible(t.arguments->0@[i]))
    &&& t.kind == CTypeKind::Record ==> (t.record is Some ==> {
        proof { lemma_fields_decrease(t); }
        forall|i: int| #![trigger t.record->0.fields@[i]] 0 <= i < t.record->0.fields@.len() ==> convertible(t.record->0.fields@[i].1)
    })
}

pub proof fn lemma_args_decrease(t: CType)
    ensures
        t.arguments matches Some(args) ==> forall|i: int| #![trigger args@[i]] 0 <= i < args@.len() ==> decreases_to!(t => args@[i]),
{
    if let Some(args) = t.arguments {
        assert forall|i: int| #![trigger args@[i]] 0 <= i < args@.len() implies decreases_to!(t => args@[i]) by {
            assert(decreases_to!(t => t.arguments));
            assert(decreases_to!(t.arguments => args));
            assert(decreases_to!(args => args@));
            assert(decreases_to!(args@ => args@[i]));
        }
    }
}

pub proof fn lemma_fields_decrease(t: CType)
    ensures
        t.record matches Some(rec) ==> forall|i: int| #![trigger rec.fields@[i]] 0 <= i < rec.fields@.len() ==> decreases_to!(t => rec.fields@[i].1),
{
    if let Some(rec) = t.record {
        assert forall|i: int| #![trigger rec.fields@[i]] 0 <= i < rec.fields@.len() implies decreases_to!(t => rec.fields@[i].1) by {
            assert(decreases_to!(t => t.record));
            assert(decreases_to!(t.record => rec));
            assert(decreases_to!(rec => rec.fields));
            assert(decreases_to!(rec.fields => rec.fields@));
            assert(decreases_to!(rec.fields@ => rec.fields@[i]));
            assert(decreases_to!(rec.fields@[i] => rec.fields@[i].1));
        }
    }
}

pub proof fn lemma_pointer_target_decreases(t: CType)
    requires
        pointer_target(t) is Some,
    ensures
        decreases_to!(t => *pointer_target(t)->0),
{
    if (t.kind == CTypeKind::BlockPointer || t.kind == CTypeKind::MemberPointer) && t.pointee is None {
        let c = t.canonical->0;
        assert(decreases_to!(t => t.canonical));
    } else {
        assert(decreases_to!(t => t.pointee));
    }
}

proof fn lemma_arg_convertible(t: CType, i: int)
    requires
        convertible(t),
        is_function_kind(t.kind),
        t.arguments is Some,
        0 <= i < t.arguments->0@.len(),
    ensures
        convertible(t.arguments->0@[i]),
{
    let args = t.arguments->0;
    assert(convertible(args@[i]));
}

proof fn lemma_field_convertible(t: CType, i: int)
    requires
        convertible(t),
        t.kind == CTypeKind::Record,
        t.record is Some,
        0 <= i < t.record->0.fields@.len(),
    ensures
        convertible(t.record->0.fields@[i].1),
{
    let rec = t.record->0;
    assert(convertible(rec.fields@[i].1));
}

/// `r` is what the conversion makes of `t` while the anonymous records
/// keyed `visiting` are being expanded: scalars by kind and width,
/// pointers, references and arrays around the conversion of what they
/// hold, sugar through its canonical type, functions with unnamed
/// (empty-named) parameters, named records as a named type, a record
/// already being expanded as an empty struct, and other records as a struct
/// or union of their converted fields.
pub open spec fn converts(t: CType, visiting: Seq<Seq<char>>, r: Type) -> bool
    decreases t,
{
    let k = t.kind;
    if k == CTypeKind::Void {
        r.kind == TypeKind::Primitive(PrimitiveType::Void)
    } else if k == CTypeKind::Bool {
        r.kind == TypeKind::Primitive(PrimitiveType::Bool)
    } else if k == CTypeKind::SChar || k == CTypeKind::CharS {
        r.kind == TypeKind::Primitive(PrimitiveType::Int(8))
    } else if k == CTypeKind::CharU || k == CTypeKind::UChar {
        r.kind == TypeKind::Primitive(PrimitiveType::Uint(8))
    } else if is_signed_sized(k) {
        r.kind == TypeKind::Primitive(PrimitiveType::Int(bits_of(t.size)))
    } else if is_unsigned_sized(k) {
        r.kind == TypeKind::Primitive(PrimitiveType::Uint(bits_of(t.size)))
    } else if is_float_kind(k) {
        r.kind == TypeKind::Primitive(PrimitiveType::Float(bits_of(t.size)))
    } else if k == CTypeKind::Pointer || k == CTypeKind::BlockPointer || k == CTypeKind::MemberPointer {
        pointer_target(t) is Some && r.kind is Pointer && {
            proof { lemma_pointer_target_decreases(t); }
            converts(*pointer_target(t)->0, visiting, *r.kind->Pointer_0)
        }
    } else if k == CTypeKind::LValueReference || k == CTypeKind::RValueReference {
        t.pointee is Some && r.kind is Reference && converts(*t.pointee->0, visiting, *r.kind->Reference_0)
    } else if is_sugar_kind(k) {
        t.canonical is Some && converts(*t.canonical->0, visiting, r)
    } else if is_function_kind(k) {
        &&& r.kind is Function
        &&& r.kind->Function_0.varidic == t.variadic
        &&& (t.result is Some ==> converts(*t.result->0, visiting, *r.kind->Function_0.ret_ty))
        &&& (t.result is None ==> r.kind->Function_0.ret_ty.kind == TypeKind::Primitive(PrimitiveType::Void))
        &&& (t.arguments is None ==> r.kind->Function_0.params@.len() == 0)
        &&& (t.arguments is Some ==> {
            proof { lemma_args_decrease(t); }
            &&& r.kind->Function_0.params@.len() == t.arguments->0@.len()
            &&& forall|i: int| #![trigger t.arguments->0@[i]] 0 <= i < t.arguments->0@.len() ==> param_from(r.kind->Function_0.params@[i])
                && converts(t.arguments->0@[i], visiting, r.kind->Function_0.params@[i].ty)
        })
    } else if is_array_kind(k) {
        t.element is Some && r.kind is Array && converts(*t.element->0, visiting, *r.kind->Array_0)
    } else if k == CTypeKind::Record {
        if t.record is None {
            r.kind is Struct && r.kind->Struct_0.members@.len() == 0
        } else if record_name(t, t.record->0) != anonymous_text() {
            &&& r.kind is Named
            &&& r.kind->Named_0.v@.len() == 1
            &&& r.kind->Named_0.v@[0].ident@ == record_name(t, t.record->0)
            &&& r.kind->Named_0.v@[0].template_spec@.len() == 0
        } else if visiting.contains(record_key(t, t.record->0)) {
            r.kind is Struct && r.kind->Struct_0.members@.len() == 0
        } else {
            &&& record_members(r, t.record->0.is_union) is Some
            &&& record_members(r, t.record->0.is_union)->0.len() == t.record->0.fields@.len()
            &&& {
                proof { lemma_fields_decrease(t); }
                forall|i: int| #![trigger t.record->0.fields@[i]] 0 <= i < t.record->0.fields@.len() ==> record_members(r, t.record->0.is_union)->0[i].0@
                    == t.record->0.fields@[i].0@ && converts(t.record->0.fields@[i].1, visiting.push(record_key(t, t.record->0)),
                    record_members(r, t.record->0.is_union)->0[i].1)
            }
        }
    } else {
        false
    }
}

/// A parameter made by the conversion: it has a name, the empty one.
pub open spec fn param_from(p: Params) -> bool {
    p.name is Some && p.name->0@.len() == 0
}

/// The members of a struct (or, for `is_union`, a union) type.
pub open spec fn record_members(r: Type, is_union: bool) -> Option<Seq<(String, Type)>> {
    match r.kind {
        TypeKind::Struct(s) => if is_union {
            None
        } else {
            Some(s.members@)
        },
        TypeKind::Union(u) => if is_union {
            Some(u.members@)
        } else {
            None
        },
        _ => None,
    }
}

/// `x` is the name of a named record that the conversion of `t` meets
/// (and so records as a dependency).
pub open spec fn dep_of(t: CType, visiting: Seq<Seq<char>>, x: Seq<char>) -> bool
    decreases t,
{
    let k = t.kind;
    if k == CTypeKind::Pointer || k == CTypeKind::BlockPointer || k == CTypeKind::MemberPointer {
        pointer_target(t) is Some && {
            proof { lemma_pointer_target_decreases(t); }
            dep_of(*pointer_target(t)->0, visiting, x)
        }
    } else if k == CTypeKind::LValueReference || k == CTypeKind::RValueReference {
        t.pointee is Some && dep_of(*t.pointee->0, visiting, x)
    } else if is_sugar_kind(k) {
        t.canonical is Some && dep_of(*t.canonical->0, visiting, x)
    } else if is_function_kind(k) {
        ||| (t.result is Some && dep_of(*t.result->0, visiting, x))
        ||| (t.arguments is Some && {
            proof { lemma_args_decrease(t); }
            exists|i: int| #![trigger t.arguments->0@[i]] 0 <= i < t.arguments->0@.len() && dep_of(t.arguments->0@[i], visiting, x)
        })
    } else if is_array_kind(k) {
        t.element is Some && dep_of(*t.element->0, visiting, x)
    } else if k == CTypeKind::Record {
        if t.record is None {
            false
        } else if record_name(t, t.record->0) != anonymous_text() {
            x == record_name(t, t.record->0)
        } else if visiting.contains(record_key(t, t.record->0)) {
            false
        } else {
            proof { lemma_fields_decrease(t); }
            exists|i: int| #![trigger t.record->0.fields@[i]] 0 <= i < t.record->0.fields@.len() && dep_of(t.record->0.fields@[i].1, visiting.push(record_key(t, t.record->0)), x)
        }
    } else {
        false
    }
}

/// The texts of a list of strings.
pub open spec fn texts(v: Seq<String>) -> Seq<Seq<char>> {
    v.map_values(|s: String| s@)
}

/// Some string of `v` holds the text `x`.
pub open spec fn has_text(v: Seq<String>, x: Seq<char>) -> bool {
    exists|i: int| 0 <= i < v.len() && (#[trigger] v[i])@ == x
}

fn contains_text(v: &Vec<String>, x: &String) -> (r: bool)
    ensures
        r == texts(v@).contains(x@),
        r == has_text(v@, x@),
{
    let mut i: usize = 0;
    while i < v.len()
        invariant
            i <= v@.len(),
            forall|j: int| 0 <= j < i ==> (#[trigger] v@[j])@ != x@,
        decreases v@.len() - i,
    {
        if same_text(v[i].as_str(), x.as_str()) {
            assert(texts(v@)[i as int] == x@);
            return true;
        }
        i += 1;
    }
    assert(!texts(v@).contains(x@)) by {
        if texts(v@).contains(x@) {
            let j = choose|j: int| 0 <= j < texts(v@).len() && texts(v@)[j] == x@;
            assert(v@[j]@ == x@);
        }
    }
    false
}

/// Adds `x` to `deps` unless some string there holds its text.
fn insert_text(deps: &mut Vec<String>, x: String)
    ensures
        forall|y: Seq<char>| #![trigger has_text(final(deps)@, y)] has_text(final(deps)@, y) <==> has_text(old(deps)@, y) || y == x@,
{
    if !contains_text(deps, &x) {
        let ghost x_text = x@;
        deps.push(x);
        assert forall|y: Seq<char>| has_text(deps@, y) <==> has_text(old(deps)@, y) || y == x_text by {
            if has_text(deps@, y) {
                let i = choose|i: int| 0 <= i < deps@.len() && (#[trigger] deps@[i])@ == y;
                if i < old(deps)@.len() {
                    assert(old(deps)@[i] == deps@[i]);
                }
            }
            if has_text(old(deps)@, y) {
                let i = choose|i: int| 0 <= i < old(deps)@.len() && (#[trigger] old(deps)@[i])@ == y;
                assert(deps@[i] == old(deps)@[i]);
            }
            if y == x_text {
                assert(deps@[deps@.len() - 1]@ == y);
            }
        }
    }
}

fn bits(size: Option<usize>) -> (r: usize)
    requires
        size matches Some(s) ==> s * 8 <= usize::MAX,
    ensures
        r == bits_of(size),
{
    match size {
        Some(s) => s * 8,
        None => 32,
    }
}

/// The name of a record type (see `record_name`).
fn record_name_of(t: &CType, rec: &CRecord) -> (r: String)
    ensures
        r@ == record_name(*t, *rec),
{
    let n = match &rec.name {
        Some(n) => string_of(n.as_str()),
        None => string_of(t.display_name.as_str()),
    };
    if n.unicode_len() == 0 {
        proof {
            reveal_strlit("<anonymous>");
            assert("<anonymous>"@ =~= anonymous_text());
        }
        string_of("<anonymous>")
    } else {
        n
    }
}

/// The key of a record being expanded (see `record_key`).
fn record_key_of(t: &CType, rec: &CRecord) -> (r: String)
    ensures
        r@ == record_key(*t, *rec),
{
    match &rec.usr {
        Some(u) => string_of(u.as_str()),
        None => {
            proof {
                reveal_strlit("union:");
                reveal_strlit("struct:");
                assert("union:"@ =~= seq!['u', 'n', 'i', 'o', 'n'] + seq![':']);
                assert("struct:"@ =~= seq!['s', 't', 'r', 'u', 'c', 't'] + seq![':']);
            }
            let mut k = if rec.is_union { string_of("union:") } else { string_of("struct:") };
            let name = record_name_of(t, rec);
            push_str(&mut k, name.as_str());
            k
        },
    }
}

/// Whether the fields of the record `rec` of the type `t` are to be read
/// while the anonymous records keyed `visiting` are being expanded: only an
/// anonymous record that is not among them (one met again inside itself is
/// left without fields, a named one is referred to by its name). `Some`
/// gives the key to expand it under.
pub fn record_to_expand(t: &CType, rec: &CRecord, visiting: &Vec<String>) -> (r: Option<String>)
    ensures
        r matches Some(k) ==> k@ == record_key(*t, *rec),
        r is Some <==> record_name(*t, *rec) == anonymous_text() && !has_text(visiting@, record_key(*t, *rec)),
{
    let name = record_name_of(t, rec);
    proof {
        reveal_strlit("<anonymous>");
        assert("<anonymous>"@ =~= anonymous_text());
    }
    if !same_text(name.as_str(), "<anonymous>") {
        return None;
    }
    let key = record_key_of(t, rec);
    if contains_text(visiting, &key) {
        return None;
    }
    Some(key)
}

/// The type that the C type `value` denotes (see `converts`), while the
/// anonymous records keyed `visiting` are being expanded; the names of the
/// named records it meets are added to `deps` (see `dep_of`).
pub fn rec_from(value: &CType, visiting: &mut Vec<String>, deps: &mut Vec<String>) -> (r: Type)
    requires
        convertible(*value),
    ensures
        converts(*value, texts(old(visiting)@), r),
        final(visiting)@ == old(visiting)@,
        forall|x: Seq<char>| #![trigger has_text(final(deps)@, x)] has_text(final(deps)@, x) <==> has_text(old(deps)@, x) || dep_of(*value, texts(old(visiting)@), x),
    decreases value, 1nat,
{
    proof {
        lemma_args_decrease(*value);
        lemma_fields_decrease(*value);
        if pointer_target(*value) is Some {
            lemma_pointer_target_decreases(*value);
        }
    }
    let ghost vis = texts(visiting@);
    let k = value.kind;
    match k {
        CTypeKind::Void => Type::void(),
        CTypeKind::Bool => Type::bool(),
        CTypeKind::SChar | CTypeKind::CharS => Type::int_p(8),
        CTypeKind::CharU | CTypeKind::UChar => Type::uint_p(8),
        CTypeKind::WChar | CTypeKind::Short | CTypeKind::Int | CTypeKind::Long | CTypeKind::LongLong
        | CTypeKind::Int128 | CTypeKind::Enum => Type::int_p(bits(value.size)),
        CTypeKind::Char16 | CTypeKind::Char32 | CTypeKind::UShort | CTypeKind::UInt | CTypeKind::ULong
        | CTypeKind::ULongLong | CTypeKind::UInt128 => Type::uint_p(bits(value.size)),
        CTypeKind::Half | CTypeKind::Float16 | CTypeKind::Float | CTypeKind::Double | CTypeKind::LongDouble
        | CTypeKind::Float128 => Type::primitive(PrimitiveType::Float(bits(value.size))),
        CTypeKind::Pointer | CTypeKind::BlockPointer | CTypeKind::MemberPointer => {
            let target: &Box<CType> = if k == CTypeKind::Pointer {
                value.pointee.as_ref().unwrap()
            } else {
                match &value.pointee {
                    Some(p) => p,
                    None => value.canonical.as_ref().unwrap(),
                }
            };
            proof {
                lemma_pointer_target_decreases(*value);
                assert(pointer_target(*value) == Some(*target));
            }
            Type::pointer(rec_from(&**target, visiting, deps))
        },
        CTypeKind::LValueReference | CTypeKind::RValueReference => {
            let target = value.pointee.as_ref().unwrap();
            proof {
                lemma_pointer_target_decreases(*value);
            }
            Type::reference(rec_from(&**target, visiting, deps))
        },
        CTypeKind::Typedef | CTypeKind::Elaborated | CTypeKind::Auto | CTypeKind::Unexposed => {
            let c = value.canonical.as_ref().unwrap();
            proof {
                assert(decreases_to!(*value => value.canonical));
            }
            rec_from(&**c, visiting, deps)
        },
        CTypeKind::FunctionPrototype | CTypeKind::FunctionNoPrototype => rec_function(value, visiting, deps),
        CTypeKind::ConstantArray | CTypeKind::DependentSizedArray | CTypeKind::IncompleteArray
        | CTypeKind::VariableArray | CTypeKind::Vector => {
            let e = value.element.as_ref().unwrap();
            proof {
                assert(decreases_to!(*value => value.element));
            }
            Type::array(rec_from(&**e, visiting, deps))
        },
        CTypeKind::Record => rec_record(value, visiting, deps),
        CTypeKind::Other => {
            assert(false);
            Type::void()
        },
    }
}

fn rec_function(value: &CType, visiting: &mut Vec<String>, deps: &mut Vec<String>) -> (r: Type)
    requires
        convertible(*value),
        is_function_kind(value.kind),
    ensures
        converts(*value, texts(old(visiting)@), r),
        final(visiting)@ == old(visiting)@,
        forall|x: Seq<char>| #![trigger has_text(final(deps)@, x)] has_text(final(deps)@, x) <==> has_text(old(deps)@, x) || dep_of(*value, texts(old(visiting)@), x),
    decreases value, 0nat,
{
    proof {
        lemma_args_decrease(*value);
    }
    let ghost vis = texts(visiting@);
    let ghost deps0 = deps@;
    let ret = match &value.result {
        Some(res) => {
            proof {
                assert(decreases_to!(*value => value.result));
            }
            rec_from(&**res, visiting, deps)
        },
        None => Type::void(),
    };
    let ghost deps1 = deps@;
    assert(forall|x: Seq<char>| has_text(deps1, x) <==> has_text(deps0, x) || (value.result is Some && dep_of(
        *value.result->0,
        vis,
        x,
    )));
    let mut params: Vec<Params> = Vec::new();
    match &value.arguments {
        Some(args) => {
            let mut i: usize = 0;
            while i < args.len()
                invariant
                    value.arguments == Some(*args),
                    convertible(*value),
                    is_function_kind(value.kind),
                    i <= args@.len(),
                    params@.len() == i,
                    visiting@ == old(visiting)@,
                    vis == texts(old(visiting)@),
                    forall|j: int| #![trigger args@[j]] #![trigger params@[j]] 0 <= j < i ==> param_from(params@[j]) && converts(args@[j], vis, params@[j].ty),
                    forall|x: Seq<char>| #![trigger has_text(deps@, x)] has_text(deps@, x) <==> has_text(deps1, x) || exists|j: int| #![trigger args@[j]] 0 <= j < i && dep_of(args@[j], vis, x),
                decreases args@.len() - i,
            {
                proof {
                    assert(decreases_to!(*value => value.arguments));
                    assert(decreases_to!(value.arguments => value.arguments->0));
                    assert(decreases_to!(value.arguments->0 => value.arguments->0@));
                    assert(decreases_to!(value.arguments->0@ => value.arguments->0@[i as int]));
                    lemma_arg_convertible(*value, i as int);
                }
                let ghost before = deps@;
                let ghost old_params = params@;
                let t = rec_from(&args[i], visiting, deps);
                assert(converts(args@[i as int], vis, t));
                assert(forall|x: Seq<char>| #![trigger has_text(deps@, x)] has_text(deps@, x) <==> has_text(before, x) || dep_of(args@[i as int], vis, x));
                let nm = String::new();
                params.push(Params { name: Some(nm), ty: t });
                proof {
                    assert forall|x: Seq<char>| #![trigger has_text(deps@, x)] has_text(deps@, x) <==> has_text(deps1, x) || exists|j: int| #![trigger args@[j]] 0 <= j < i + 1 && dep_of(args@[j], vis, x) by {
                        if has_text(deps@, x) && !has_text(deps1, x) {
                            if has_text(before, x) {
                                let j = choose|j: int| #![trigger args@[j]] 0 <= j < i && dep_of(args@[j], vis, x);
                                assert(0 <= j < i + 1 && dep_of(args@[j], vis, x));
                            } else {
                                assert(dep_of(args@[i as int], vis, x));
                            }
                        }
                        if exists|j: int| #![trigger args@[j]] 0 <= j < i + 1 && dep_of(args@[j], vis, x) {
                            let j = choose|j: int| #![trigger args@[j]] 0 <= j < i + 1 && dep_of(args@[j], vis, x);
                            if j < i {
                                assert(has_text(before, x));
                            }
                        }
                        if has_text(deps1, x) {
                            assert(has_text(before, x));
                        }
                    }
                    assert forall|j: int| #![trigger args@[j]] 0 <= j < i + 1 implies param_from(params@[j]) && converts(args@[j], vis, params@[j].ty) by {
                        if j < i {
                            assert(params@[j] == old_params[j]);
                        }
                    }
                }
                i += 1;
            }
        },
        None => {},
    }
    proof {
        assert forall|x: Seq<char>| has_text(deps@, x) <==> has_text(deps0, x) || dep_of(*value, vis, x) by {
            assert(dep_of(*value, vis, x) == ((value.result is Some && dep_of(*value.result->0, vis, x)) || (value.arguments is Some && exists|i: int| #![trigger value.arguments->0@[i]] 0 <= i < value.arguments->0@.len() && dep_of(value.arguments->0@[i], vis, x))));
        }
    }
    Type::function(params, ret, value.variadic)
}

fn rec_record(value: &CType, visiting: &mut Vec<String>, deps: &mut Vec<String>) -> (r: Type)
    requires
        convertible(*value),
        value.kind == CTypeKind::Record,
    ensures
        converts(*value, texts(old(visiting)@), r),
        final(visiting)@ == old(visiting)@,
        forall|x: Seq<char>| #![trigger has_text(final(deps)@, x)] has_text(final(deps)@, x) <==> has_text(old(deps)@, x) || dep_of(*value, texts(old(visiting)@), x),
    decreases value, 0nat,
{
    proof {
        lemma_args_decrease(*value);
        lemma_fields_decrease(*value);
        if pointer_target(*value) is Some {
            lemma_pointer_target_decreases(*value);
        }
    }
    let ghost vis = texts(visiting@);
    let rec = match &value.record {
        Some(rec) => rec,
        None => {
            return Type::struct_t(Vec::new());
        },
    };
    let name = record_name_of(value, rec);
    proof {
        reveal_strlit("<anonymous>");
        assert("<anonymous>"@ =~= anonymous_text());
    }
    if !same_text(name.as_str(), "<anonymous>") {
        let ident = string_of(name.as_str());
        insert_text(deps, name);
        let path = QualifiedName::from_segment(QualifiedNameSegment::from_string(ident));
        return Type::named(path);
    }
    let key = record_key_of(value, rec);
    if contains_text(visiting, &key) {
        return Type::struct_t(Vec::new());
    }
    let ghost key_text = key@;
    visiting.push(key);
    let ghost inner = texts(visiting@);
    assert(inner =~= vis.push(key_text));
    let ghost deps0 = deps@;
    let mut members: Vec<(String, Type)> = Vec::new();
    let mut i: usize = 0;
    while i < rec.fields.len()
        invariant
            value.record == Some(*rec),
            convertible(*value),
            value.kind == CTypeKind::Record,
            i <= rec.fields@.len(),
            members@.len() == i,
            texts(visiting@) == inner,
            visiting@ == old(visiting)@.push(visiting@.last()),
            visiting@.len() == old(visiting)@.len() + 1,
            forall|j: int| #![trigger rec.fields@[j]] #![trigger members@[j]] 0 <= j < i ==> members@[j].0@ == rec.fields@[j].0@
                && converts(rec.fields@[j].1, inner, members@[j].1),
            forall|x: Seq<char>| #![trigger has_text(deps@, x)] has_text(deps@, x) <==> has_text(deps0, x) || exists|j: int| #![trigger rec.fields@[j]] 0 <= j < i && dep_of(rec.fields@[j].1, inner, x),
        decreases rec.fields@.len() - i,
    {
        proof {
            assert(decreases_to!(*value => value.record));
            assert(decreases_to!(value.record => value.record->0));
            assert(decreases_to!(value.record->0 => value.record->0.fields));
            assert(decreases_to!(value.record->0.fields => value.record->0.fields@));
            assert(decreases_to!(value.record->0.fields@ => value.record->0.fields@[i as int]));
            assert(decreases_to!(value.record->0.fields@[i as int] => value.record->0.fields@[i as int].1));
            lemma_field_convertible(*value, i as int);
        }
        let ghost before = deps@;
        let ghost old_members = members@;
        let t = rec_from(&rec.fields[i].1, visiting, deps);
        assert(converts(rec.fields@[i as int].1, inner, t));
        assert(forall|x: Seq<char>| #![trigger has_text(deps@, x)] has_text(deps@, x) <==> has_text(before, x) || dep_of(rec.fields@[i as int].1, inner, x));
        members.push((string_of(rec.fields[i].0.as_str()), t));
        proof {
            assert forall|x: Seq<char>| #![trigger has_text(deps@, x)] has_text(deps@, x) <==> has_text(deps0, x) || exists|j: int| #![trigger rec.fields@[j]] 0 <= j < i + 1 && dep_of(rec.fields@[j].1, inner, x) by {
                if has_text(deps@, x) && !has_text(deps0, x) {
                    if has_text(before, x) {
                        let j = choose|j: int| #![trigger rec.fields@[j]] 0 <= j < i && dep_of(rec.fields@[j].1, inner, x);
                        assert(0 <= j < i + 1 && dep_of(rec.fields@[j].1, inner, x));
                    } else {
                        assert(dep_of(rec.fields@[i as int].1, inner, x));
                    }
                }
                if exists|j: int| #![trigger rec.fields@[j]] 0 <= j < i + 1 && dep_of(rec.fields@[j].1, inner, x) {
                    let j = choose|j: int| #![trigger rec.fields@[j]] 0 <= j < i + 1 && dep_of(rec.fields@[j].1, inner, x);
                    if j < i {
                        assert(has_text(before, x));
                    }
                }
                if has_text(deps0, x) {
                    assert(has_text(before, x));
                }
            }
            assert forall|j: int| #![trigger rec.fields@[j]] 0 <= j < i + 1 implies members@[j].0@ == rec.fields@[j].0@
                && converts(rec.fields@[j].1, inner, members@[j].1) by {
                if j < i {
                    assert(members@[j] == old_members[j]);
                }
            }
        }
        i += 1;
    }
    visiting.pop();
    assert(visiting@ =~= old(visiting)@);
    proof {
        assert(!vis.contains(key_text));
        assert forall|x: Seq<char>| has_text(deps@, x) <==> has_text(deps0, x) || dep_of(*value, vis, x) by {
            assert(dep_of(*value, vis, x) == exists|j: int| #![trigger value.record->0.fields@[j]] 0 <= j < value.record->0.fields@.len() && dep_of(value.record->0.fields@[j].1, vis.push(record_key(*value, value.record->0)), x));
        }
    }
    if rec.is_union {
        Type::union(members)
    } else {
        Type::struct_t(members)
    }
}

/// A named top-level declaration of a header: a function (with its
/// result and its typed parameters, named or not), or anything else.
#[derive(Debug)]
pub struct CEntity {
    pub name: String,
    pub is_function: bool,
    pub variadic: bool,
    pub result: Option<CType>,
    pub params: Vec<(Option<String>, CType)>,
}

/// The symbols of the C headers read so far: for each header, its
/// functions and the records they name, each under its name.
pub struct CCache {
    pub headers: Vec<(String, Vec<(String, Definition)>)>,
}

/// The symbols of header `h`, if it was read.
pub open spec fn header_symbols(hs: Seq<(String, Vec<(String, Definition)>)>, h: Seq<char>) -> Option<Seq<(String, Definition)>>
    decreases hs.len(),
{
    if hs.len() == 0 {
        None
    } else if hs.last().0@ == h {
        Some(hs.last().1@)
    } else {
        header_symbols(hs.drop_last(), h)
    }
}

/// The definition of the symbol named `n` (the last one of that name).
pub open spec fn symbol_def(syms: Seq<(String, Definition)>, n: Seq<char>) -> Option<Definition>
    decreases syms.len(),
{
    if syms.len() == 0 {
        None
    } else if syms.last().0@ == n {
        Some(syms.last().1)
    } else {
        symbol_def(syms.drop_last(), n)
    }
}

/// What a header declaration needs to be read: a function has a result
/// type, and every type it names can be converted.
pub open spec fn entity_readable(e: CEntity) -> bool {
    e.is_function ==> (e.result is Some && convertible(e.result->0) && forall|i: int|
        #![trigger e.params@[i]]
        0 <= i < e.params@.len() ==> convertible(e.params@[i].1))
}

/// The declaration a header keeps for the C function `e`: a public C
/// function under its name, variadic as `e` is, not constant, with its
/// parameters in order (named where `e` names them, their types
/// converted) and its result type converted.
pub open spec fn declares_function(d: Definition, e: CEntity) -> bool {
    &&& d.name@ == e.name@
    &&& d.visibility == Visibility::Public
    &&& d.kind matches DefinitionKind::FunctionC(f)
    &&& f.varidic == e.variadic
    &&& !f.constant
    &&& f.parameters@.len() == e.params@.len()
    &&& (forall|j: int| #![trigger f.parameters@[j]] 0 <= j < e.params@.len() ==> f.parameters@[j].0 == e.params@[j].0
        && converts(e.params@[j].1, Seq::<Seq<char>>::empty(), f.parameters@[j].1))
    &&& f.return_ty matches Some(t)
    &&& converts(e.result->0, Seq::<Seq<char>>::empty(), t)
}

/// A record named `x` appears in the result or parameter types of the C
/// function `e`.
pub open spec fn entity_names_record(e: CEntity, x: Seq<char>) -> bool {
    &&& e.is_function
    &&& (dep_of(e.result->0, Seq::<Seq<char>>::empty(), x) || exists|j: int|
        #![trigger e.params@[j]]
        0 <= j < e.params@.len() && dep_of(e.params@[j].1, Seq::<Seq<char>>::empty(), x))
}

/// The declaration a header keeps for a record named `x`: the public
/// named type `x`.
pub open spec fn declares_record(d: Definition, x: Seq<char>) -> bool {
    &&& d.name@ == x
    &&& d.visibility == Visibility::Public
    &&& d.kind matches DefinitionKind::Type(t)
    &&& t.kind matches TypeKind::Named(q)
    &&& q.v@.len() == 1
    &&& q.v@[0].ident@ == x
    &&& q.v@[0].template_spec@.len() == 0
}

/// Some function among `ents` is named `x`.
pub open spec fn some_function_named(ents: Seq<CEntity>, x: Seq<char>) -> bool {
    exists|i: int| 0 <= i < ents.len() && (#[trigger] ents[i]).is_function && ents[i].name@ == x
}

/// No function after `ents[i]` and before `ents[k]` has its name.
pub open spec fn last_function_before(ents: Seq<CEntity>, i: int, k: int) -> bool {
    forall|j: int| i < j < k && (#[trigger] ents[j]).is_function ==> ents[j].name@ != ents[i].name@
}

/// Reads the C function `e` into `symbols` (see `declares_function`) and
/// adds the records that its types name to `deps`.
fn read_function(e: CEntity, symbols: &mut Vec<(String, Definition)>, deps: &mut Vec<String>)
    requires
        e.is_function,
        entity_readable(e),
    ensures
        symbol_def(final(symbols)@, e.name@) matches Some(d) && declares_function(d, e),
        forall|m: Seq<char>| m != e.name@ ==> symbol_def(final(symbols)@, m) == symbol_def(old(symbols)@, m),
        forall|x: Seq<char>| #![trigger has_text(final(deps)@, x)] has_text(final(deps)@, x) <==> has_text(old(deps)@, x)
            || entity_names_record(e, x),
{
    let ghost deps0 = deps@;
    let mut visiting: Vec<String> = Vec::new();
    let res = e.result.unwrap();
    assert(texts(visiting@) =~= Seq::<Seq<char>>::empty());
    let ret = rec_from(&res, &mut visiting, deps);
    let ghost ret_v = ret;
    let ghost deps_r = deps@;
    let mut builder = FunctionBuilder::new(e.name.as_str()).set_varidic(e.variadic).set_ret_ty(ret);
    let ghost ps = e.params@;
    let mut params = e.params;
    let m = params.len();
    let mut j: usize = 0;
    while params.len() > 0
        invariant
            j + params@.len() == ps.len(),
            ps.len() == m,
            params@ == ps.skip(j as int),
            forall|i: int| #![trigger ps[i]] 0 <= i < ps.len() ==> convertible(ps[i].1),
            builder.params@.len() == j,
            forall|jj: int| #![trigger builder.params@[jj]] 0 <= jj < j ==> builder.params@[jj].0 == ps[jj].0
                && converts(ps[jj].1, Seq::<Seq<char>>::empty(), builder.params@[jj].1),
            builder.varidic == e.variadic,
            builder.ident@ == e.name@,
            builder.ret_ty == Some(ret_v),
            !builder.constant,
            forall|x: Seq<char>| #![trigger has_text(deps@, x)] has_text(deps@, x) <==> has_text(deps_r, x) || exists|jj: int|
                0 <= jj < j && #[trigger] dep_of(ps[jj].1, Seq::<Seq<char>>::empty(), x),
        decreases params@.len(),
    {
        let (pn, pt) = params.remove(0);
        assert((pn, pt) == ps[j as int]);
        let mut v2: Vec<String> = Vec::new();
        assert(texts(v2@) =~= Seq::<Seq<char>>::empty());
        let ghost deps_j = deps@;
        let ty = rec_from(&pt, &mut v2, deps);
        proof {
            assert forall|x: Seq<char>| #![trigger has_text(deps@, x)] has_text(deps@, x) <==> has_text(deps_r, x) || exists|jj: int|
                0 <= jj < j + 1 && #[trigger] dep_of(ps[jj].1, Seq::<Seq<char>>::empty(), x) by {
                if has_text(deps@, x) && !has_text(deps_j, x) {
                    assert(dep_of(ps[j as int].1, Seq::<Seq<char>>::empty(), x));
                }
                if exists|jj: int| 0 <= jj < j + 1 && #[trigger] dep_of(ps[jj].1, Seq::<Seq<char>>::empty(), x) {
                    let jj = choose|jj: int| 0 <= jj < j + 1 && #[trigger] dep_of(ps[jj].1, Seq::<Seq<char>>::empty(), x);
                    if jj < j {
                        assert(has_text(deps_j, x));
                    }
                }
            }
        }
        builder = match pn {
            Some(ident) => builder.add_param(ident, ty),
            None => builder.add_anon_param(ty),
        };
        j += 1;
        assert(params@ =~= ps.skip(j as int));
    }
    let name = e.name;
    let def = builder.build_c_function();
    assert(declares_function(def, e));
    put_symbol(symbols, name, def);
    proof {
        assert forall|x: Seq<char>| #![trigger has_text(deps@, x)] has_text(deps@, x) <==> has_text(deps0, x)
            || entity_names_record(e, x) by {
            if entity_names_record(e, x) && !dep_of(res, Seq::<Seq<char>>::empty(), x) {
                let jj = choose|jj: int| #![trigger ps[jj]] 0 <= jj < ps.len() && dep_of(ps[jj].1, Seq::<Seq<char>>::empty(), x);
                assert(dep_of(ps[jj].1, Seq::<Seq<char>>::empty(), x));
            }
        }
    }
}

/// One more entity read: the records named so far are those of the
/// first `k + 1` entities.
proof fn lemma_read_step_deps(ents: Seq<CEntity>, k: int, deps_k: Seq<String>, deps_new: Seq<String>)
    requires
        0 <= k < ents.len(),
        forall|x: Seq<char>| #![trigger has_text(deps_k, x)] has_text(deps_k, x) <==> exists|i: int| 0 <= i < k
            && #[trigger] entity_names_record(ents[i], x),
        ents[k].is_function ==> forall|x: Seq<char>| #![trigger has_text(deps_new, x)] has_text(deps_new, x) <==> has_text(deps_k, x)
            || entity_names_record(ents[k], x),
        !ents[k].is_function ==> deps_new == deps_k,
    ensures
        forall|x: Seq<char>| #![trigger has_text(deps_new, x)] has_text(deps_new, x) <==> exists|i: int| 0 <= i < k + 1
            && #[trigger] entity_names_record(ents[i], x),
{
    assert forall|x: Seq<char>| #![trigger has_text(deps_new, x)] has_text(deps_new, x) <==> exists|i: int| 0 <= i < k + 1
        && #[trigger] entity_names_record(ents[i], x) by {
        if has_text(deps_new, x) {
            if has_text(deps_k, x) {
                let i = choose|i: int| 0 <= i < k && #[trigger] entity_names_record(ents[i], x);
                assert(0 <= i < k + 1 && entity_names_record(ents[i], x));
            } else {
                assert(entity_names_record(ents[k], x));
            }
        }
        if exists|i: int| 0 <= i < k + 1 && #[trigger] entity_names_record(ents[i], x) {
            let i = choose|i: int| 0 <= i < k + 1 && #[trigger] entity_names_record(ents[i], x);
            if i < k {
                assert(has_text(deps_k, x));
            }
        }
    }
}

/// One more entity read: every symbol is still the name of a function
/// read so far.
proof fn lemma_read_step_symbols(ents: Seq<CEntity>, k: int, before: Seq<(String, Definition)>, after: Seq<(String, Definition)>)
    requires
        0 <= k < ents.len(),
        forall|x: Seq<char>| #![trigger symbol_def(before, x)] symbol_def(before, x) is Some ==> some_function_named(ents.take(k), x),
        ents[k].is_function ==> symbol_def(after, ents[k].name@) is Some,
        ents[k].is_function ==> forall|m: Seq<char>| m != ents[k].name@ ==> symbol_def(after, m) == symbol_def(before, m),
        !ents[k].is_function ==> after == before,
    ensures
        forall|x: Seq<char>| #![trigger symbol_def(after, x)] symbol_def(after, x) is Some ==> some_function_named(ents.take(k + 1), x),
{
    assert forall|x: Seq<char>| #![trigger symbol_def(after, x)] symbol_def(after, x) is Some implies some_function_named(
        ents.take(k + 1),
        x,
    ) by {
        if ents[k].is_function && x == ents[k].name@ {
            assert(ents.take(k + 1)[k] == ents[k]);
        } else {
            assert(symbol_def(before, x) is Some);
            let i = choose|i: int| 0 <= i < k && (#[trigger] ents.take(k)[i]).is_function && ents.take(k)[i].name@ == x;
            assert(ents.take(k + 1)[i] == ents.take(k)[i]);
        }
    }
}

/// One more entity read: each function read so far has a symbol, and the
/// last function of each name its declaration.
proof fn lemma_read_step_functions(ents: Seq<CEntity>, k: int, before: Seq<(String, Definition)>, after: Seq<(String, Definition)>)
    requires
        0 <= k < ents.len(),
        forall|i: int| 0 <= i < k && (#[trigger] ents[i]).is_function ==> symbol_def(before, ents[i].name@) is Some,
        forall|i: int| 0 <= i < k && (#[trigger] ents[i]).is_function && last_function_before(ents, i, k)
            ==> (symbol_def(before, ents[i].name@) matches Some(d) && declares_function(d, ents[i])),
        ents[k].is_function ==> (symbol_def(after, ents[k].name@) matches Some(d) && declares_function(d, ents[k])),
        ents[k].is_function ==> forall|m: Seq<char>| m != ents[k].name@ ==> symbol_def(after, m) == symbol_def(before, m),
        !ents[k].is_function ==> after == before,
    ensures
        forall|i: int| 0 <= i < k + 1 && (#[trigger] ents[i]).is_function ==> symbol_def(after, ents[i].name@) is Some,
        forall|i: int| 0 <= i < k + 1 && (#[trigger] ents[i]).is_function && last_function_before(ents, i, k + 1)
            ==> (symbol_def(after, ents[i].name@) matches Some(d) && declares_function(d, ents[i])),
{
    assert forall|i: int| 0 <= i < k + 1 && (#[trigger] ents[i]).is_function implies symbol_def(after, ents[i].name@) is Some by {
        if i < k && !(ents[k].is_function && ents[i].name@ == ents[k].name@) {
            assert(symbol_def(before, ents[i].name@) is Some);
        }
    }
    assert forall|i: int| 0 <= i < k + 1 && (#[trigger] ents[i]).is_function && last_function_before(ents, i, k + 1)
        implies (symbol_def(after, ents[i].name@) matches Some(d) && declares_function(d, ents[i])) by {
        if i < k {
            assert(last_function_before(ents, i, k));
            if ents[k].is_function {
                assert(ents[i].name@ != ents[k].name@);
            }
        }
    }
}

/// Puts `d` under `n` in `syms`: in place of a symbol of that name, or at
/// the end.
fn put_symbol(syms: &mut Vec<(String, Definition)>, n: String, d: Definition)
    ensures
        symbol_def(final(syms)@, n@) == Some(d),
        forall|m: Seq<char>| m != n@ ==> symbol_def(final(syms)@, m) == symbol_def(old(syms)@, m),
{
    let ghost nt = n@;
    syms.push((n, d));
    assert(syms@.drop_last() =~= old(syms)@);
}

fn find_symbol_index(syms: &Vec<(String, Definition)>, n: &str) -> (r: Option<usize>)
    ensures
        match r {
            Some(i) => i < syms@.len() && syms@[i as int].0@ == n@ && symbol_def(syms@, n@) == Some(syms@[i as int].1),
            None => symbol_def(syms@, n@) is None,
        },
{
    let mut i = syms.len();
    assert(syms@.take(i as int) =~= syms@);
    while i > 0
        invariant
            i <= syms@.len(),
            symbol_def(syms@, n@) == symbol_def(syms@.take(i as int), n@),
        decreases i,
    {
        let ghost pre = syms@.take(i as int);
        assert(pre.drop_last() =~= syms@.take(i - 1));
        if same_text(syms[i - 1].0.as_str(), n) {
            return Some(i - 1);
        }
        i -= 1;
    }
    None
}

impl CCache {
    /// A cache that has read no header.
    pub fn new() -> (r: Self)
        ensures
            r.headers@.len() == 0,
    {
        CCache { headers: Vec::new() }
    }

    fn header_index(&self, header: &str) -> (r: Option<usize>)
        ensures
            match r {
                Some(i) => i < self.headers@.len() && header_symbols(self.headers@, header@) == Some(self.headers@[i as int].1@),
                None => header_symbols(self.headers@, header@) is None,
            },
    {
        let mut i = self.headers.len();
        assert(self.headers@.take(i as int) =~= self.headers@);
        while i > 0
            invariant
                i <= self.headers@.len(),
                header_symbols(self.headers@, header@) == header_symbols(self.headers@.take(i as int), header@),
            decreases i,
        {
            let ghost pre = self.headers@.take(i as int);
            assert(pre.drop_last() =~= self.headers@.take(i - 1));
            if same_text(self.headers[i - 1].0.as_str(), header) {
                return Some(i - 1);
            }
            i -= 1;
        }
        None
    }

    /// Whether the header was read.
    pub fn has_header(&self, header: &str) -> (r: bool)
        ensures
            r == header_symbols(self.headers@, header@) is Some,
    {
        self.header_index(header).is_some()
    }

    /// Whether the symbol `path[1]` of header `path[0]` is known.
    pub fn has_definition(&self, path: &QualifiedName) -> (r: bool)
        requires
            path.v@.len() >= 2,
        ensures
            r == (header_symbols(self.headers@, path.v@[0].ident@) matches Some(syms) && symbol_def(syms, path.v@[1].ident@) is Some),
    {
        match self.header_index(path.get(0).ident.as_str()) {
            Some(h) => find_symbol_index(&self.headers[h].1, path.get(1).ident.as_str()).is_some(),
            None => false,
        }
    }

    /// The definition of the symbol `path[1]` of header `path[0]`.
    pub fn get_definition(&self, path: &QualifiedName) -> (r: &Definition)
        requires
            path.v@.len() >= 2,
            header_symbols(self.headers@, path.v@[0].ident@) matches Some(syms) && symbol_def(syms, path.v@[1].ident@) is Some,
        ensures
            Some(*r) == symbol_def(header_symbols(self.headers@, path.v@[0].ident@)->0, path.v@[1].ident@),
    {
        let h = self.header_index(path.get(0).ident.as_str()).unwrap();
        let i = find_symbol_index(&self.headers[h].1, path.get(1).ident.as_str()).unwrap();
        &self.headers[h].1[i].1
    }

    /// Reads the declarations of a header not read yet: each function under
    /// its name (a later one in place of an earlier one of the same name),
    /// then each record that their types name, under its name, as a named
    /// type, unless a function already has that name. A header already read
    /// is left as it is.
    pub fn resolve_c_definitions(&mut self, header: &str, entities: Vec<CEntity>)
        requires
            forall|i: int| 0 <= i < entities@.len() ==> entity_readable(#[trigger] entities@[i]),
        ensures
            header_symbols(old(self).headers@, header@) is Some ==> final(self).headers@ == old(self).headers@,
            header_symbols(old(self).headers@, header@) is None ==> {
                &&& final(self).headers@.len() == old(self).headers@.len() + 1
                &&& final(self).headers@.drop_last() == old(self).headers@
                &&& final(self).headers@.last().0@ == header@
                &&& forall|i: int| 0 <= i < entities@.len() && (#[trigger] entities@[i]).is_function ==> symbol_def(
                    final(self).headers@.last().1@,
                    entities@[i].name@,
                ) is Some
                &&& forall|i: int| 0 <= i < entities@.len() && (#[trigger] entities@[i]).is_function
                    && last_function_before(entities@, i, entities@.len() as int) ==> (symbol_def(
                    final(self).headers@.last().1@,
                    entities@[i].name@,
                ) matches Some(d) && declares_function(d, entities@[i]))
                &&& forall|x: Seq<char>| (exists|i: int| 0 <= i < entities@.len() && #[trigger] entity_names_record(entities@[i], x))
                    && !some_function_named(entities@, x) ==> (symbol_def(final(self).headers@.last().1@, x) matches Some(d)
                    && declares_record(d, x))
            },
    {
        if self.has_header(header) {
            return;
        }
        let ghost ents = entities@;
        let mut symbols: Vec<(String, Definition)> = Vec::new();
        let mut deps: Vec<String> = Vec::new();
        let mut entities = entities;
        let mut k: usize = 0;
        let n = entities.len();
        while entities.len() > 0
            invariant
                k + entities@.len() == ents.len(),
                n == ents.len(),
                entities@ == ents.skip(k as int),
                forall|i: int| 0 <= i < ents.len() ==> entity_readable(#[trigger] ents[i]),
                forall|i: int| 0 <= i < k && (#[trigger] ents[i]).is_function ==> symbol_def(symbols@, ents[i].name@) is Some,
                forall|i: int| 0 <= i < k && (#[trigger] ents[i]).is_function && last_function_before(ents, i, k as int)
                    ==> (symbol_def(symbols@, ents[i].name@) matches Some(d) && declares_function(d, ents[i])),
                forall|x: Seq<char>| #![trigger has_text(deps@, x)] has_text(deps@, x) <==> exists|i: int| 0 <= i < k
                    && #[trigger] entity_names_record(ents[i], x),
                forall|x: Seq<char>| #![trigger symbol_def(symbols@, x)] symbol_def(symbols@, x) is Some ==> some_function_named(
                    ents.take(k as int),
                    x,
                ),
            decreases entities@.len(),
        {
            let e = entities.remove(0);
            assert(e == ents[k as int]);
            let ghost before = symbols@;
            let ghost deps_k = deps@;
            if e.is_function {
                read_function(e, &mut symbols, &mut deps);
            }
            proof {
                lemma_read_step_deps(ents, k as int, deps_k, deps@);
                lemma_read_step_symbols(ents, k as int, before, symbols@);
                lemma_read_step_functions(ents, k as int, before, symbols@);
            }
            k += 1;
            assert(entities@ =~= ents.skip(k as int));
        }
        let mut deps = deps;
        let ghost all = deps@;
        let nd = deps.len();
        let mut dn: usize = 0;
        assert(ents.take(n as int) =~= ents);
        while deps.len() > 0
            invariant
                forall|i: int| 0 <= i < ents.len() && (#[trigger] ents[i]).is_function ==> symbol_def(symbols@, ents[i].name@) is Some,
                dn + deps@.len() == all.len(),
                all.len() == nd,
                deps@ == all.skip(dn as int),
                forall|y: Seq<char>| #![trigger symbol_def(symbols@, y)] symbol_def(symbols@, y) is Some ==> some_function_named(ents, y)
                    || declares_record(symbol_def(symbols@, y)->0, y),
                forall|jj: int| 0 <= jj < dn ==> symbol_def(symbols@, (#[trigger] all[jj])@) is Some,
                forall|i: int| 0 <= i < ents.len() && (#[trigger] ents[i]).is_function && last_function_before(ents, i, ents.len() as int)
                    ==> (symbol_def(symbols@, ents[i].name@) matches Some(d) && declares_function(d, ents[i])),
            decreases deps@.len(),
        {
            let d = deps.remove(0);
            assert(d == all[dn as int]);
            let ghost before_d = symbols@;
            if find_symbol_index(&symbols, d.as_str()).is_none() {
                let ghost before = symbols@;
                let ghost dt = d@;
                let ident = string_of(d.as_str());
                let path = QualifiedName::from_segment(QualifiedNameSegment::from_string(ident));
                let def = Definition { kind: DefinitionKind::Type(Type::named(path)), visibility: Visibility::Public, name: string_of(d.as_str()) };
                put_symbol(&mut symbols, d, def);
                assert forall|i: int| 0 <= i < ents.len() && (#[trigger] ents[i]).is_function implies symbol_def(symbols@, ents[i].name@) is Some by {
                    if ents[i].name@ != dt {
                        assert(symbol_def(before, ents[i].name@) is Some);
                    }
                }
                assert forall|i: int| 0 <= i < ents.len() && (#[trigger] ents[i]).is_function && last_function_before(ents, i, ents.len() as int)
                    implies (symbol_def(symbols@, ents[i].name@) matches Some(d) && declares_function(d, ents[i])) by {
                    assert(symbol_def(before, ents[i].name@) is Some);
                }
                assert forall|y: Seq<char>| #![trigger symbol_def(symbols@, y)] symbol_def(symbols@, y) is Some implies some_function_named(ents, y)
                    || declares_record(symbol_def(symbols@, y)->0, y) by {
                    if y != dt {
                        assert(symbol_def(before, y) == symbol_def(symbols@, y));
                    }
                }
                assert forall|jj: int| 0 <= jj < dn + 1 implies symbol_def(symbols@, (#[trigger] all[jj])@) is Some by {
                    if all[jj]@ != dt {
                        assert(symbol_def(before, all[jj]@) is Some);
                    }
                }
            }
            dn += 1;
            assert(deps@ =~= all.skip(dn as int));
        }
        proof {
            assert forall|x: Seq<char>| (exists|i: int| 0 <= i < ents.len() && #[trigger] entity_names_record(ents[i], x))
                && !some_function_named(ents, x) implies (symbol_def(symbols@, x) matches Some(d) && declares_record(d, x)) by {
                assert(has_text(all, x));
                let jj = choose|jj: int| 0 <= jj < all.len() && (#[trigger] all[jj])@ == x;
                assert(symbol_def(symbols@, all[jj]@) is Some);
            }
        }
        self.headers.push((string_of(header), symbols));
        assert(self.headers@.drop_last() =~= old(self).headers@);
    }
}

impl CType {
    /// Whether the conversion can read this type (see `convertible`).
    #[verifier::loop_isolation(false)]
    pub fn is_convertible(&self) -> (r: bool)
        ensures
            r == convertible(*self),
        decreases self,
    {
        proof {
            lemma_args_decrease(*self);
            lemma_fields_decrease(*self);
            if pointer_target(*self) is Some {
                lemma_pointer_target_decreases(*self);
            }
        }
        let k = self.kind;
        if k == CTypeKind::Other {
            return false;
        }
        if let Some(s) = self.size {
            if s > usize::MAX / 8 {
                return false;
            }
        }
        match k {
            CTypeKind::Pointer | CTypeKind::LValueReference | CTypeKind::RValueReference => match &self.pointee {
                Some(p) => p.is_convertible(),
                None => false,
            },
            CTypeKind::BlockPointer | CTypeKind::MemberPointer => match &self.pointee {
                Some(p) => p.is_convertible(),
                None => match &self.canonical {
                    Some(c) => c.is_convertible(),
                    None => false,
                },
            },
            CTypeKind::Typedef | CTypeKind::Elaborated | CTypeKind::Auto | CTypeKind::Unexposed => match &self.canonical {
                Some(c) => c.is_convertible(),
                None => false,
            },
            CTypeKind::ConstantArray | CTypeKind::DependentSizedArray | CTypeKind::IncompleteArray
            | CTypeKind::VariableArray | CTypeKind::Vector => match &self.element {
                Some(e) => e.is_convertible(),
                None => false,
            },
            CTypeKind::FunctionPrototype | CTypeKind::FunctionNoPrototype => {
                if let Some(r) = &self.result {
                    if !r.is_convertible() {
                        return false;
                    }
                }
                if let Some(args) = &self.arguments {
                    let mut i: usize = 0;
                    while i < args.len()
                        invariant
                            self.arguments == Some(*args),
                            i <= args@.len(),
                            forall|j: int| #![trigger args@[j]] 0 <= j < i ==> convertible(args@[j]),
                        decreases args@.len() - i,
                    {
                        proof {
                            lemma_args_decrease(*self);
                            assert(args@[i as int] == self.arguments->0@[i as int]);
                        }
                        if !args[i].is_convertible() {
                            return false;
                        }
                        i += 1;
                    }
                }
                true
            },
            CTypeKind::Record => {
                if let Some(rec) = &self.record {
                    let mut i: usize = 0;
                    while i < rec.fields.len()
                        invariant
                            self.record == Some(*rec),
                            i <= rec.fields@.len(),
                            forall|j: int| #![trigger rec.fields@[j]] 0 <= j < i ==> convertible(rec.fields@[j].1),
                        decreases rec.fields@.len() - i,
                    {
                        proof {
                            lemma_fields_decrease(*self);
                            assert(rec.fields@[i as int] == self.record->0.fields@[i as int]);
                        }
                        if !rec.fields[i].1.is_convertible() {
                            return false;
                        }
                        i += 1;
                    }
                }
                true
            },
            _ => true,
        }
    }
}

impl CEntity {
    /// Whether the header cache can read this declaration (see
    /// `entity_readable`).
    #[verifier::loop_isolation(false)]
    pub fn is_readable(&self) -> (r: bool)
        ensures
            r == entity_readable(*self),
    {
        if !self.is_function {
            return true;
        }
        match &self.result {
            Some(t) => {
                if !t.is_convertible() {
                    return false;
                }
            },
            None => {
                return false;
            },
        }
        let mut i: usize = 0;
        while i < self.params.len()
            invariant
                i <= self.params@.len(),
                forall|j: int| #![trigger self.params@[j]] 0 <= j < i ==> convertible(self.params@[j].1),
            decreases self.params@.len() - i,
        {
            if !self.params[i].1.is_convertible() {
                return false;
            }
            i += 1;
        }
        true
    }
}

/// C integers keep their signedness and width: an unsigned kind (`unsigned
/// short`, `unsigned int`, `unsigned long`, `unsigned long long`,
/// `unsigned __int128`, `char16_t`, `char32_t`) of `s` bytes becomes the
/// unsigned integer of `8 * s` bits, and a signed kind (`wchar_t`, `short`,
/// `int`, `long`, `long long`, `__int128`, an enum) the signed one; an
/// unsigned `char` becomes the unsigned byte and a signed one the signed
/// byte; floating-point kinds of `s` bytes become floats of `8 * s` bits,
/// and `bool` and `void` stay what they are.
pub proof fn lemma_integer_signedness(t: CType, visiting: Seq<Seq<char>>, r: Type)
    requires
        converts(t, visiting, r),
    ensures
        (t.kind == CTypeKind::UShort || t.kind == CTypeKind::UInt || t.kind == CTypeKind::ULong || t.kind == CTypeKind::ULongLong
            || t.kind == CTypeKind::UInt128 || t.kind == CTypeKind::Char16 || t.kind == CTypeKind::Char32) ==> (t.size matches Some(s)
            ==> r.kind == TypeKind::Primitive(PrimitiveType::Uint((s * 8) as usize))),
        (t.kind == CTypeKind::WChar || t.kind == CTypeKind::Short || t.kind == CTypeKind::Int || t.kind == CTypeKind::Long
            || t.kind == CTypeKind::LongLong || t.kind == CTypeKind::Int128 || t.kind == CTypeKind::Enum) ==> (t.size matches Some(s)
            ==> r.kind == TypeKind::Primitive(PrimitiveType::Int((s * 8) as usize))),
        (t.kind == CTypeKind::UChar || t.kind == CTypeKind::CharU) ==> r.kind == TypeKind::Primitive(PrimitiveType::Uint(8)),
        (t.kind == CTypeKind::SChar || t.kind == CTypeKind::CharS) ==> r.kind == TypeKind::Primitive(PrimitiveType::Int(8)),
        (t.kind == CTypeKind::Half || t.kind == CTypeKind::Float16 || t.kind == CTypeKind::Float || t.kind == CTypeKind::Double
            || t.kind == CTypeKind::LongDouble || t.kind == CTypeKind::Float128) ==> (t.size matches Some(s) ==> r.kind
            == TypeKind::Primitive(PrimitiveType::Float((s * 8) as usize))),
        t.kind == CTypeKind::Bool ==> r.kind == TypeKind::Primitive(PrimitiveType::Bool),
        t.kind == CTypeKind::Void ==> r.kind == TypeKind::Primitive(PrimitiveType::Void),
{
}

} // verus!
