use vstd::prelude::*;
use crate::ast::{Definition, DefinitionKind, Import};
use crate::ast::project::Project;
use crate::ast::project::cimports::{CCache, header_symbols, symbol_def};
use crate::ast::expressions::{Expression, ExpressionKind, Statement};
use crate::ast::expressions::literal::LiteralInfo;
use crate::ast::expressions::operations::{BinaryOperator, UnaryOperator};
use crate::general::path::QualifiedName;
use crate::general::types::{PrimitiveType, Type, TypeKind};
use crate::text::{same_text, string_of};

verus! {

/// A type of the machine form: a 32-bit integer, a 32-bit float, a
/// pointer, or a structure of fields.
#[derive(Debug, PartialEq, Eq)]
pub enum IrType {
    I32,
    F32,
    Ptr,
    Struct(IrFields),
}

/// The fields of a structure type, the first one first.
#[derive(Debug, PartialEq, Eq)]
pub enum IrFields {
    End,
    Field(Box<IrType>, Box<IrFields>),
}

/// What a function returns: nothing, or a value of a type.
#[derive(Debug, PartialEq, Eq)]
pub enum IrRet {
    Void,
    Value(IrType),
}

/// An operand: an integer constant (its decimal text), a pointer to a
/// global string, the null pointer, or the value of a register.
#[derive(Debug)]
pub enum IrValue {
    Int(String),
    Str(String),
    Null,
    Reg(usize),
}

/// How two operands are compared: signed less-than, or equality.
#[derive(Debug, PartialEq, Eq, Clone, Copy)]
pub enum IrPred {
    Slt,
    Eq,
}

/// One instruction; `dst` is the register it defines.
#[allow(inconsistent_fields)]
#[derive(Debug)]
pub enum IrInst {
    /// stack room for a value of `ty`
    Alloca { dst: usize, ty: IrType },
    Store { ptr: IrValue, val: IrValue },
    Load { dst: usize, ty: IrType, ptr: IrValue },
    Compare { dst: usize, pred: IrPred, a: IrValue, b: IrValue },
    Add { dst: usize, a: IrValue, b: IrValue },
    Mul { dst: usize, a: IrValue, b: IrValue },
    /// a call of the function named `callee`; `dst` holds what it returns
    Call { dst: Option<usize>, callee: String, args: Vec<IrValue> },
    /// the address `index` elements of `ty` after `ptr`
    Offset { dst: usize, ty: IrType, ptr: IrValue, index: IrValue },
    /// a jump to a block of the function
    Jump(usize),
    Branch { cond: IrValue, then_: usize, else_: usize },
    Return(Option<IrValue>),
}

/// What a basic block is for.
#[derive(Debug, PartialEq, Eq, Clone, Copy)]
pub enum BlockKind {
    Entry,
    WhileCond,
    WhileBody,
    WhileEnd,
    LoopBody,
    LoopEnd,
    IfCond,
    IfThen,
    IfElse,
    IfEnd,
}

/// A function: declared outside (a C import) with no blocks, or defined,
/// with its blocks in order and its instructions in the order they were
/// emitted, each with the block it was emitted into.
#[derive(Debug)]
pub struct IrFunction {
    pub name: String,
    pub ret: IrRet,
    pub params: Vec<IrType>,
    pub variadic: bool,
    pub external: bool,
    pub blocks: Vec<BlockKind>,
    pub insts: Vec<(usize, IrInst)>,
}

/// The machine form of a project: its name and its functions, in order.
#[derive(Debug)]
pub struct IrModule {
    pub name: String,
    pub functions: Vec<IrFunction>,
}

/// Why a project could not be lowered.
#[derive(Debug, PartialEq, Eq, Clone, Copy, Structural)]
pub enum LowerError {
    /// a form the lowering does not handle
    Unsupported,
    /// a name that stands for no function, local, type, label or C symbol
    UnknownName,
    /// an operand that gives no value
    NoValue,
    /// an operand whose type was not worked out
    Untyped,
    /// more registers than a `usize` counts
    TooLarge,
}

/// An operand as plain values.
pub enum ValueV {
    Int(Seq<char>),
    Str(Seq<char>),
    Null,
    Reg(nat),
}

/// An instruction as plain values.
#[allow(inconsistent_fields)]
pub enum InstV {
    Alloca { dst: nat, ty: IrType },
    Store { ptr: ValueV, val: ValueV },
    Load { dst: nat, ty: IrType, ptr: ValueV },
    Compare { dst: nat, pred: IrPred, a: ValueV, b: ValueV },
    Add { dst: nat, a: ValueV, b: ValueV },
    Mul { dst: nat, a: ValueV, b: ValueV },
    Call { dst: Option<nat>, callee: Seq<char>, args: Seq<ValueV> },
    Offset { dst: nat, ty: IrType, ptr: ValueV, index: ValueV },
    Jump(nat),
    Branch { cond: ValueV, then_: nat, else_: nat },
    Return(Option<ValueV>),
}

pub open spec fn value_view(v: IrValue) -> ValueV {
    match v {
        IrValue::Int(s) => ValueV::Int(s@),
        IrValue::Str(s) => ValueV::Str(s@),
        IrValue::Null => ValueV::Null,
        IrValue::Reg(r) => ValueV::Reg(r as nat),
    }
}

pub open spec fn values_view(v: Seq<IrValue>) -> Seq<ValueV> {
    v.map_values(|a: IrValue| value_view(a))
}

pub open spec fn opt_value_view(v: Option<IrValue>) -> Option<ValueV> {
    match v {
        Some(x) => Some(value_view(x)),
        None => None,
    }
}

pub open spec fn inst_view(i: IrInst) -> InstV {
    match i {
        IrInst::Alloca { dst, ty } => InstV::Alloca { dst: dst as nat, ty },
        IrInst::Store { ptr, val } => InstV::Store { ptr: value_view(ptr), val: value_view(val) },
        IrInst::Load { dst, ty, ptr } => InstV::Load { dst: dst as nat, ty, ptr: value_view(ptr) },
        IrInst::Compare { dst, pred, a, b } => InstV::Compare { dst: dst as nat, pred, a: value_view(a), b: value_view(b) },
        IrInst::Add { dst, a, b } => InstV::Add { dst: dst as nat, a: value_view(a), b: value_view(b) },
        IrInst::Mul { dst, a, b } => InstV::Mul { dst: dst as nat, a: value_view(a), b: value_view(b) },
        IrInst::Call { dst, callee, args } => InstV::Call {
            dst: match dst {
                Some(d) => Some(d as nat),
                None => None,
            },
            callee: callee@,
            args: values_view(args@),
        },
        IrInst::Offset { dst, ty, ptr, index } => InstV::Offset { dst: dst as nat, ty, ptr: value_view(ptr), index: value_view(index) },
        IrInst::Jump(b) => InstV::Jump(b as nat),
        IrInst::Branch { cond, then_, else_ } => InstV::Branch { cond: value_view(cond), then_: then_ as nat, else_: else_ as nat },
        IrInst::Return(v) => InstV::Return(opt_value_view(v)),
    }
}

/// The state of a lowering as plain values: the blocks of the function
/// being lowered and its instructions (each with its block), the block
/// instructions go into, the next free register, the locals (name, the
/// register of their room, how a read of them loads), and the labels of
/// the loops (name, the block after the loop); a later entry of a name
/// stands before an earlier one.
#[verifier::ext_equal]
pub struct Model {
    pub blocks: Seq<BlockKind>,
    pub insts: Seq<(nat, InstV)>,
    pub current: nat,
    pub next_reg: nat,
    pub locals: Seq<(Seq<char>, nat, Option<IrType>)>,
    pub labels: Seq<(Seq<char>, nat)>,
}

/// Instructions with their blocks, as plain values.
pub open spec fn insts_view(v: Seq<(usize, IrInst)>) -> Seq<(nat, InstV)> {
    v.map_values(|p: (usize, IrInst)| (p.0 as nat, inst_view(p.1)))
}

/// Locals (name, room, load type), as plain values.
pub open spec fn locals_view(v: Seq<(String, usize, Option<IrType>)>) -> Seq<(Seq<char>, nat, Option<IrType>)> {
    v.map_values(|l: (String, usize, Option<IrType>)| (l.0@, l.1 as nat, l.2))
}

/// Named numbers, as plain values.
pub open spec fn names_view(v: Seq<(String, usize)>) -> Seq<(Seq<char>, nat)> {
    v.map_values(|l: (String, usize)| (l.0@, l.1 as nat))
}

/// Functions (name, what they return), as plain values.
pub open spec fn functions_view(v: Seq<(String, IrRet)>) -> Seq<(Seq<char>, IrRet)> {
    v.map_values(|f: (String, IrRet)| (f.0@, f.1))
}

/// The state of a lowering.
pub struct LowerState {
    pub blocks: Vec<BlockKind>,
    pub insts: Vec<(usize, IrInst)>,
    pub current: usize,
    pub next_reg: usize,
    pub locals: Vec<(String, usize, Option<IrType>)>,
    pub labels: Vec<(String, usize)>,
}

impl LowerState {
    pub open spec fn view(&self) -> Model {
        Model {
            blocks: self.blocks@,
            insts: insts_view(self.insts@),
            current: self.current as nat,
            next_reg: self.next_reg as nat,
            locals: locals_view(self.locals@),
            labels: names_view(self.labels@),
        }
    }
}

/// `m` with the instruction `i` emitted into its current block.
pub open spec fn emit(m: Model, i: InstV) -> Model {
    Model { insts: m.insts.push((m.current, i)), ..m }
}

/// `m` with a new block of kind `k` after its blocks.
pub open spec fn add_block(m: Model, k: BlockKind) -> Model {
    Model { blocks: m.blocks.push(k), ..m }
}

/// `m` with instructions going into block `b` from now on.
pub open spec fn at_block(m: Model, b: nat) -> Model {
    Model { current: b, ..m }
}

/// `m` with one more register taken.
pub open spec fn take_reg(m: Model) -> Model {
    Model { next_reg: m.next_reg + 1, ..m }
}

/// What the lowering knows of the module: its functions (name and what
/// they return) and its type definitions (name and where the definition
/// stands among the module's definitions); a later entry of a name stands
/// before an earlier one.
pub struct LowerEnv {
    pub functions: Vec<(String, IrRet)>,
    pub types: Vec<(String, usize)>,
}

/// What the lowering knows of the module, as plain values.
pub struct EnvModel {
    pub functions: Seq<(Seq<char>, IrRet)>,
    pub types: Seq<(Seq<char>, nat)>,
}

impl LowerEnv {
    pub open spec fn view(&self) -> EnvModel {
        EnvModel {
            functions: functions_view(self.functions@),
            types: names_view(self.types@),
        }
    }
}

/// The name of a path of one segment without template arguments.
pub open spec fn plain_name(p: QualifiedName) -> Option<Seq<char>> {
    if p.v@.len() == 1 && p.v@[0].template_spec@.len() == 0 {
        Some(p.v@[0].ident@)
    } else {
        None
    }
}

/// What the last function named `n` returns.
pub open spec fn find_fn(fs: Seq<(Seq<char>, IrRet)>, n: Seq<char>) -> Option<IrRet>
    decreases fs.len(),
{
    if fs.len() == 0 {
        None
    } else if fs.last().0 == n {
        Some(fs.last().1)
    } else {
        find_fn(fs.drop_last(), n)
    }
}

/// The number of the last entry named `n`.
pub open spec fn find_index(ts: Seq<(Seq<char>, nat)>, n: Seq<char>) -> Option<nat>
    decreases ts.len(),
{
    if ts.len() == 0 {
        None
    } else if ts.last().0 == n {
        Some(ts.last().1)
    } else {
        find_index(ts.drop_last(), n)
    }
}

/// The room and the load type of the last local named `n`.
pub open spec fn find_local(ls: Seq<(Seq<char>, nat, Option<IrType>)>, n: Seq<char>) -> Option<(nat, Option<IrType>)>
    decreases ls.len(),
{
    if ls.len() == 0 {
        None
    } else if ls.last().0 == n {
        Some((ls.last().1, ls.last().2))
    } else {
        find_local(ls.drop_last(), n)
    }
}

/// A copy of a machine type.
pub fn copy_ir_type(t: &IrType) -> (r: IrType)
    ensures
        r == *t,
    decreases t, 0nat,
{
    match t {
        IrType::I32 => IrType::I32,
        IrType::F32 => IrType::F32,
        IrType::Ptr => IrType::Ptr,
        IrType::Struct(f) => IrType::Struct(copy_ir_fields(f)),
    }
}

/// A copy of the fields of a structure type.
pub fn copy_ir_fields(f: &IrFields) -> (r: IrFields)
    ensures
        r == *f,
    decreases f, 0nat,
{
    match f {
        IrFields::End => IrFields::End,
        IrFields::Field(t, rest) => IrFields::Field(Box::new(copy_ir_type(t)), Box::new(copy_ir_fields(rest))),
    }
}

/// A copy of what a function returns.
pub fn copy_ir_ret(r0: &IrRet) -> (r: IrRet)
    ensures
        r == *r0,
{
    match r0 {
        IrRet::Void => IrRet::Void,
        IrRet::Value(t) => IrRet::Value(copy_ir_type(t)),
    }
}

/// What the last function named `n` returns (see `find_fn`).
pub fn lookup_fn(fs: &Vec<(String, IrRet)>, n: &str) -> (r: Option<IrRet>)
    ensures
        r == find_fn(functions_view(fs@), n@),
{
    let ghost all = functions_view(fs@);
    let mut k = fs.len();
    assert(all.take(k as int) =~= all);
    while k > 0
        invariant
            k <= fs@.len(),
            all == functions_view(fs@),
            find_fn(all.take(k as int), n@) == find_fn(all, n@),
        decreases k,
    {
        let ghost pre = all.take(k as int);
        assert(pre.last() == all[k - 1]);
        if same_text(fs[k - 1].0.as_str(), n) {
            return Some(copy_ir_ret(&fs[k - 1].1));
        }
        assert(pre.drop_last() =~= all.take(k - 1));
        k -= 1;
    }
    None
}

/// The number of the last entry named `n` (see `find_index`).
pub fn lookup_index(ts: &Vec<(String, usize)>, n: &str) -> (r: Option<usize>)
    ensures
        match r {
            Some(x) => find_index(names_view(ts@), n@) == Some(x as nat),
            None => find_index(names_view(ts@), n@) is None,
        },
{
    let ghost all = names_view(ts@);
    let mut k = ts.len();
    assert(all.take(k as int) =~= all);
    while k > 0
        invariant
            k <= ts@.len(),
            all == names_view(ts@),
            find_index(all.take(k as int), n@) == find_index(all, n@),
        decreases k,
    {
        let ghost pre = all.take(k as int);
        assert(pre.last() == all[k - 1]);
        if same_text(ts[k - 1].0.as_str(), n) {
            return Some(ts[k - 1].1);
        }
        assert(pre.drop_last() =~= all.take(k - 1));
        k -= 1;
    }
    None
}

/// The room and the load type of the last local named `n` (see
/// `find_local`).
pub fn lookup_local(ls: &Vec<(String, usize, Option<IrType>)>, n: &str) -> (r: Option<(usize, Option<IrType>)>)
    ensures
        match r {
            Some((j, u)) => find_local(locals_view(ls@), n@) == Some((j as nat, u)),
            None => find_local(locals_view(ls@), n@) is None,
        },
{
    let ghost all = locals_view(ls@);
    let mut k = ls.len();
    assert(all.take(k as int) =~= all);
    while k > 0
        invariant
            k <= ls@.len(),
            all == locals_view(ls@),
            find_local(all.take(k as int), n@) == find_local(all, n@),
        decreases k,
    {
        let ghost pre = all.take(k as int);
        assert(pre.last() == all[k - 1]);
        if same_text(ls[k - 1].0.as_str(), n) {
            let t = match &ls[k - 1].2 {
                Some(t) => Some(copy_ir_type(t)),
                None => None,
            };
            return Some((ls[k - 1].1, t));
        }
        assert(pre.drop_last() =~= all.take(k - 1));
        k -= 1;
    }
    None
}

/// The single name of a path without template arguments (see
/// `plain_name`).
pub fn plain_name_of(p: &QualifiedName) -> (r: Option<&str>)
    ensures
        match plain_name(*p) {
            Some(n) => r matches Some(x) && x@ == n,
            None => r is None,
        },
{
    if p.v.len() == 1 && p.v[0].template_spec.len() == 0 {
        Some(p.v[0].ident.as_str())
    } else {
        None
    }
}

/// The machine type of `t`: integers are 32-bit, floats 32-bit, strings
/// and pointers pointers, a structure the structure of its members' types,
/// a named type that of its last definition; nothing for another type, or
/// past `fuel` levels of names and members.
pub open spec fn ir_type(t: Type, env: EnvModel, defs: Seq<Definition>, fuel: nat) -> Option<IrType>
    decreases fuel, 0nat, 0nat,
{
    if fuel == 0 {
        None
    } else {
        match t.kind {
            TypeKind::Primitive(PrimitiveType::Int(_)) => Some(IrType::I32),
            TypeKind::Primitive(PrimitiveType::String) => Some(IrType::Ptr),
            TypeKind::Primitive(PrimitiveType::Float(_)) => Some(IrType::F32),
            TypeKind::Pointer(_) | TypeKind::MutablePointer(_) => Some(IrType::Ptr),
            TypeKind::Struct(st) => match ir_fields(st.members@, 0, env, defs, (fuel - 1) as nat) {
                Some(f) => Some(IrType::Struct(f)),
                None => None,
            },
            TypeKind::Named(p) => match plain_name(p) {
                Some(n) => match find_index(env.types, n) {
                    Some(i) => if i < defs.len() && defs[i as int].kind is Type {
                        ir_type(defs[i as int].kind->Type_0, env, defs, (fuel - 1) as nat)
                    } else {
                        None
                    },
                    None => None,
                },
                None => None,
            },
            _ => None,
        }
    }
}

/// The machine types of the members from the `i`-th on.
pub open spec fn ir_fields(ms: Seq<(String, Type)>, i: int, env: EnvModel, defs: Seq<Definition>, fuel: nat) -> Option<IrFields>
    decreases fuel, 1nat, ms.len() - i,
{
    if i < 0 || i >= ms.len() {
        Some(IrFields::End)
    } else {
        match (ir_type(ms[i].1, env, defs, fuel), ir_fields(ms, i + 1, env, defs, fuel)) {
            (Some(t), Some(rest)) => Some(IrFields::Field(Box::new(t), Box::new(rest))),
            _ => None,
        }
    }
}

/// The machine type of `t` (see `ir_type`).
pub fn lower_type(t: &Type, env: &LowerEnv, defs: &Vec<Definition>, fuel: usize) -> (r: Option<IrType>)
    ensures
        r == ir_type(*t, env@, defs@, fuel as nat),
    decreases fuel, 0nat, 0nat,
{
    if fuel == 0 {
        return None;
    }
    match &t.kind {
        TypeKind::Primitive(PrimitiveType::Int(_)) => {
            Some(IrType::I32)
        },
        TypeKind::Primitive(PrimitiveType::String) => {
            Some(IrType::Ptr)
        },
        TypeKind::Primitive(PrimitiveType::Float(_)) => {
            Some(IrType::F32)
        },
        TypeKind::Pointer(_) | TypeKind::MutablePointer(_) => {
            Some(IrType::Ptr)
        },
        TypeKind::Struct(st) => match lower_fields(&st.members, 0, env, defs, fuel - 1) {
            Some(f) => Some(IrType::Struct(f)),
            None => None,
        },
        TypeKind::Named(p) => match plain_name_of(p) {
            Some(n) => match lookup_index(&env.types, n) {
                None => {
                    assert(find_index(env@.types, n@) is None);
                    None
                },
                Some(i) => if i < defs.len() {
                    match &defs[i].kind {
                        DefinitionKind::Type(d) => {
                            assert(defs@[i as int].kind->Type_0 == *d);
                            assert(plain_name(*p) == Some(n@));
                            assert(find_index(env@.types, n@) == Some(i as nat));
                            lower_type(d, env, defs, fuel - 1)
                        },
                        _ => {
                            assert(ir_type(*t, env@, defs@, fuel as nat) is None);
                            None
                        },
                    }
                } else {
                    assert(ir_type(*t, env@, defs@, fuel as nat) is None);
                    None
                },
            },
            None => {
                assert(ir_type(*t, env@, defs@, fuel as nat) is None);
                None
            },
        },
        _ => {
            assert(ir_type(*t, env@, defs@, fuel as nat) is None);
            None
        },
    }
}

/// The machine types of the members from the `i`-th on (see `ir_fields`).
pub fn lower_fields(ms: &Vec<(String, Type)>, i: usize, env: &LowerEnv, defs: &Vec<Definition>, fuel: usize) -> (r: Option<IrFields>)
    ensures
        r == ir_fields(ms@, i as int, env@, defs@, fuel as nat),
    decreases fuel, 1nat, ms@.len() - i,
{
    if i >= ms.len() {
        return Some(IrFields::End);
    }
    let t = lower_type(&ms[i].1, env, defs, fuel);
    let rest = lower_fields(ms, i + 1, env, defs, fuel);
    match (t, rest) {
        (Some(t), Some(rest)) => Some(IrFields::Field(Box::new(t), Box::new(rest))),
        _ => None,
    }
}

/// How a read of a local of type `t` loads it: a 32-bit integer as one, a
/// pointer as a pointer; nothing for another type.
pub open spec fn load_type(t: Type) -> Option<IrType> {
    match t.kind {
        TypeKind::Primitive(PrimitiveType::Int(32)) => Some(IrType::I32),
        TypeKind::Pointer(_) | TypeKind::MutablePointer(_) => Some(IrType::Ptr),
        _ => None,
    }
}

/// How a read of a local of type `t` loads it (see `load_type`).
pub fn local_load_type(t: &Type) -> (r: Option<IrType>)
    ensures
        r == load_type(*t),
{
    match &t.kind {
        TypeKind::Primitive(PrimitiveType::Int(w)) => if *w == 32 {
            Some(IrType::I32)
        } else {
            None
        },
        TypeKind::Pointer(_) | TypeKind::MutablePointer(_) => Some(IrType::Ptr),
        _ => None,
    }
}

/// What a function of return type `t` returns: nothing for `void`, a
/// value of the machine type of another primitive type or a pointer;
/// nothing is decided for another type.
pub open spec fn ret_type(t: Type, env: EnvModel, defs: Seq<Definition>, fuel: nat) -> Option<IrRet> {
    match t.kind {
        TypeKind::Primitive(PrimitiveType::Void) => Some(IrRet::Void),
        TypeKind::Primitive(_) => match ir_type(t, env, defs, fuel) {
            Some(x) => Some(IrRet::Value(x)),
            None => None,
        },
        TypeKind::Pointer(_) => Some(IrRet::Value(IrType::Ptr)),
        _ => None,
    }
}

/// What a function of return type `t` returns (see `ret_type`).
pub fn lower_ret_type(t: &Type, env: &LowerEnv, defs: &Vec<Definition>, fuel: usize) -> (r: Option<IrRet>)
    ensures
        r == ret_type(*t, env@, defs@, fuel as nat),
{
    match &t.kind {
        TypeKind::Primitive(PrimitiveType::Void) => Some(IrRet::Void),
        TypeKind::Primitive(_) => match lower_type(t, env, defs, fuel) {
            Some(x) => Some(IrRet::Value(x)),
            None => None,
        },
        TypeKind::Pointer(_) => Some(IrRet::Value(IrType::Ptr)),
        _ => None,
    }
}

/// The name of the null pointer constant.
pub open spec fn nullptr_name() -> Seq<char> {
    seq!['n', 'u', 'l', 'l', 'p', 't', 'r']
}

/// The labels without those named `n`.
pub open spec fn drop_label(ls: Seq<(Seq<char>, nat)>, n: Seq<char>) -> Seq<(Seq<char>, nat)>
    decreases ls.len(),
{
    if ls.len() == 0 {
        ls
    } else if ls.last().0 == n {
        drop_label(ls.drop_last(), n)
    } else {
        drop_label(ls.drop_last(), n).push(ls.last())
    }
}

/// The last instruction emitted into block `b`.
pub open spec fn last_in_block(insts: Seq<(nat, InstV)>, b: nat) -> Option<InstV>
    decreases insts.len(),
{
    if insts.len() == 0 {
        None
    } else if insts.last().0 == b {
        Some(insts.last().1)
    } else {
        last_in_block(insts.drop_last(), b)
    }
}

/// Whether block `b` already ends by leaving it: its last instruction is a
/// jump, a branch or a return.
pub open spec fn ends_block(insts: Seq<(nat, InstV)>, b: nat) -> bool {
    match last_in_block(insts, b) {
        Some(InstV::Jump(_)) | Some(InstV::Branch { .. }) | Some(InstV::Return(_)) => true,
        _ => false,
    }
}

/// How the operands of a binary operation are taken: `Some(true)` as
/// pointers (pointer and pointer, mutable pointer and pointer, mutable
/// pointer and mutable pointer), `Some(false)` as integers; `None` for
/// other types.
pub open spec fn operand_class(a: Type, b: Type) -> Option<bool> {
    match (a.kind, b.kind) {
        (TypeKind::Pointer(_), TypeKind::Pointer(_)) => Some(true),
        (TypeKind::MutablePointer(_), TypeKind::Pointer(_)) => Some(true),
        (TypeKind::MutablePointer(_), TypeKind::MutablePointer(_)) => Some(true),
        (TypeKind::Primitive(PrimitiveType::Int(_)), TypeKind::Primitive(PrimitiveType::Int(_))) => Some(false),
        _ => None,
    }
}

/// The instruction of a binary operation into register `d`: `<` a signed
/// comparison, `==` an equality, `+` an addition, and, on integers only,
/// `*` a multiplication; nothing for another operator.
pub open spec fn binary_inst(op: BinaryOperator, pointers: bool, d: nat, a: ValueV, b: ValueV) -> Option<InstV> {
    match op {
        BinaryOperator::Lesser => Some(InstV::Compare { dst: d, pred: IrPred::Slt, a, b }),
        BinaryOperator::Equal => Some(InstV::Compare { dst: d, pred: IrPred::Eq, a, b }),
        BinaryOperator::Addition => Some(InstV::Add { dst: d, a, b }),
        BinaryOperator::Multiplication => if pointers {
            None
        } else {
            Some(InstV::Mul { dst: d, a, b })
        },
        _ => None,
    }
}

/// Whether another register can be taken.
pub open spec fn reg_free(m: Model) -> bool {
    m.next_reg < usize::MAX
}

/// The lowering of `e` from the state `m`: the state after it and the
/// value `e` gives, or why it cannot be lowered; at most `fuel` levels
/// deep.
pub open spec fn lower_expr(e: Expression, env: EnvModel, defs: Seq<Definition>, m: Model, fuel: nat) -> Result<(Model, Option<ValueV>), LowerError>
    decreases fuel, 2nat, 0nat,
{
    if fuel == 0 {
        Err(LowerError::Unsupported)
    } else {
        match *e.kind {
            ExpressionKind::While(w) => lower_while(w.label, w.condition, w.then_, env, defs, m, fuel),
            ExpressionKind::BinaryOperation(b) => lower_binary(b.operator, b.operands[0], b.operands[1], env, defs, m, fuel),
            ExpressionKind::Identifier(p) => lower_name(p, m),
            ExpressionKind::Literal(l) => match l.info {
                LiteralInfo::Integer { precision, .. } => if precision is None || precision == Some(32u64) {
                    Ok((m, Some(ValueV::Int(l.data@))))
                } else {
                    Err(LowerError::Unsupported)
                },
                LiteralInfo::String => Ok((m, Some(ValueV::Str(l.data@)))),
                LiteralInfo::Float { .. } => Err(LowerError::Unsupported),
            },
            ExpressionKind::Block(b) => match lower_stmts(b.statements@, 0, env, defs, m, fuel) {
                Ok(m1) => Ok((m1, None)),
                Err(x) => Err(x),
            },
            ExpressionKind::Call(c) => lower_call(c.called, c.parameters@, env, defs, m, fuel),
            ExpressionKind::Assignment(a, b) => match lower_place(a, env, defs, m, (fuel - 1) as nat) {
                Err(x) => Err(x),
                Ok((m1, ptr)) => match lower_expr(b, env, defs, m1, (fuel - 1) as nat) {
                    Err(x) => Err(x),
                    Ok((_, None)) => Err(LowerError::NoValue),
                    Ok((m2, Some(v))) => Ok((emit(m2, InstV::Store { ptr, val: v }), None)),
                },
            },
            ExpressionKind::UnaryOperation(u) => if u.operator == UnaryOperator::Ref {
                match lower_place(u.operand, env, defs, m, (fuel - 1) as nat) {
                    Err(x) => Err(x),
                    Ok((m1, ptr)) => Ok((m1, Some(ptr))),
                }
            } else {
                Err(LowerError::Unsupported)
            },
            ExpressionKind::Loop(l) => lower_loop(l.label, l.body, env, defs, m, fuel),
            ExpressionKind::If(c) => lower_if(c.condition, c.then_, c.else_, env, defs, m, fuel),
            ExpressionKind::Index(x, i) => lower_index(x, i, env, defs, m, fuel),
            _ => Err(LowerError::Unsupported),
        }
    }
}

/// The lowering of a name: `nullptr` gives the null pointer; a local is
/// loaded from its room into a new register, by its load type.
pub open spec fn lower_name(p: QualifiedName, m: Model) -> Result<(Model, Option<ValueV>), LowerError> {
    match plain_name(p) {
        None => Err(LowerError::UnknownName),
        Some(n) => if n == nullptr_name() {
            Ok((m, Some(ValueV::Null)))
        } else {
            match find_local(m.locals, n) {
                None => Err(LowerError::UnknownName),
                Some((room, lt)) => match lt {
                    None => Err(LowerError::Unsupported),
                    Some(t) => if reg_free(m) {
                        Ok((take_reg(emit(m, InstV::Load { dst: m.next_reg, ty: t, ptr: ValueV::Reg(room) })), Some(ValueV::Reg(m.next_reg))))
                    } else {
                        Err(LowerError::TooLarge)
                    },
                },
            }
        },
    }
}

/// `while c { t }`: three new blocks, for the condition, the body and
/// what follows; a jump to the condition, which branches to the body or
/// past the loop; the body jumps back to the condition. A label names the
/// block after the loop.
pub open spec fn lower_while(label: Option<String>, c: Expression, t: Expression, env: EnvModel, defs: Seq<Definition>, m: Model, fuel: nat) -> Result<(Model, Option<ValueV>), LowerError>
    decreases fuel, 1nat, 0nat,
{
    if fuel == 0 {
        Err(LowerError::Unsupported)
    } else {
        let cond = m.blocks.len();
        let body = cond + 1;
        let end = cond + 2;
        let m1 = add_block(add_block(add_block(m, BlockKind::WhileCond), BlockKind::WhileBody), BlockKind::WhileEnd);
        let m2 = match label {
            Some(l) => Model { labels: m1.labels.push((l@, end)), ..m1 },
            None => m1,
        };
        let m3 = at_block(emit(m2, InstV::Jump(cond)), cond);
        match lower_expr(c, env, defs, m3, (fuel - 1) as nat) {
            Err(x) => Err(x),
            Ok((_, None)) => Err(LowerError::NoValue),
            Ok((m4, Some(v))) => {
                let m5 = at_block(emit(m4, InstV::Branch { cond: v, then_: body, else_: end }), body);
                match lower_expr(t, env, defs, m5, (fuel - 1) as nat) {
                    Err(x) => Err(x),
                    Ok((m6, _)) => Ok((at_block(emit(m6, InstV::Jump(cond)), end), None)),
                }
            },
        }
    }
}

/// A binary operation: both operands, then the instruction of the
/// operator on them, into a new register.
pub open spec fn lower_binary(op: BinaryOperator, a: Expression, b: Expression, env: EnvModel, defs: Seq<Definition>, m: Model, fuel: nat) -> Result<(Model, Option<ValueV>), LowerError>
    decreases fuel, 1nat, 0nat,
{
    if fuel == 0 {
        Err(LowerError::Unsupported)
    } else {
        match lower_expr(a, env, defs, m, (fuel - 1) as nat) {
            Err(x) => Err(x),
            Ok((_, None)) => Err(LowerError::NoValue),
            Ok((m1, Some(va))) => match lower_expr(b, env, defs, m1, (fuel - 1) as nat) {
                Err(x) => Err(x),
                Ok((_, None)) => Err(LowerError::NoValue),
                Ok((m2, Some(vb))) => match (a.ret_ty, b.ret_ty) {
                    (Some(ta), Some(tb)) => match operand_class(ta, tb) {
                        None => Err(LowerError::Unsupported),
                        Some(ptrs) => match binary_inst(op, ptrs, m2.next_reg, va, vb) {
                            None => Err(LowerError::Unsupported),
                            Some(i) => if reg_free(m2) {
                                Ok((take_reg(emit(m2, i)), Some(ValueV::Reg(m2.next_reg))))
                            } else {
                                Err(LowerError::TooLarge)
                            },
                        },
                    },
                    _ => Err(LowerError::Untyped),
                },
            },
        }
    }
}

/// A call of a function by its name: the arguments in order, then the
/// call; a function that returns a value gives it in a new register.
pub open spec fn lower_call(called: Expression, ps: Seq<Expression>, env: EnvModel, defs: Seq<Definition>, m: Model, fuel: nat) -> Result<(Model, Option<ValueV>), LowerError>
    decreases fuel, 1nat, 0nat,
{
    match *called.kind {
        ExpressionKind::Identifier(p) => match plain_name(p) {
            None => Err(LowerError::UnknownName),
            Some(n) => match find_fn(env.functions, n) {
                None => Err(LowerError::UnknownName),
                Some(ret) => match lower_args(ps, 0, env, defs, m, Seq::empty(), fuel) {
                    Err(x) => Err(x),
                    Ok((m1, vals)) => match ret {
                        IrRet::Void => Ok((emit(m1, InstV::Call { dst: None, callee: n, args: vals }), None)),
                        IrRet::Value(_) => if reg_free(m1) {
                            Ok((take_reg(emit(m1, InstV::Call { dst: Some(m1.next_reg), callee: n, args: vals })), Some(ValueV::Reg(m1.next_reg))))
                        } else {
                            Err(LowerError::TooLarge)
                        },
                    },
                },
            },
        },
        _ => Err(LowerError::Unsupported),
    }
}

/// `loop { b }`: a body block and a block after it; a jump into the body,
/// which jumps back to its start. A label names the block after the loop
/// while the body is lowered.
pub open spec fn lower_loop(label: Option<String>, b: Expression, env: EnvModel, defs: Seq<Definition>, m: Model, fuel: nat) -> Result<(Model, Option<ValueV>), LowerError>
    decreases fuel, 1nat, 0nat,
{
    if fuel == 0 {
        Err(LowerError::Unsupported)
    } else {
        let body = m.blocks.len();
        let end = body + 1;
        let m1 = add_block(add_block(m, BlockKind::LoopBody), BlockKind::LoopEnd);
        let m2 = match label {
            Some(l) => Model { labels: m1.labels.push((l@, end)), ..m1 },
            None => m1,
        };
        let m3 = at_block(emit(m2, InstV::Jump(body)), body);
        match lower_expr(b, env, defs, m3, (fuel - 1) as nat) {
            Err(x) => Err(x),
            Ok((m4, _)) => {
                let m5 = match label {
                    Some(l) => Model { labels: drop_label(m4.labels, l@), ..m4 },
                    None => m4,
                };
                Ok((at_block(emit(m5, InstV::Jump(body)), end), None))
            },
        }
    }
}

/// `if c { t } else { e }`: blocks for the condition, the branch, the
/// `else` branch if there is one, and what follows; a jump to the
/// condition, which branches; the branch jumps past the end unless its
/// block already ends so; the `else` branch jumps past the end.
pub open spec fn lower_if(c: Expression, t: Expression, e: Option<Expression>, env: EnvModel, defs: Seq<Definition>, m: Model, fuel: nat) -> Result<(Model, Option<ValueV>), LowerError>
    decreases fuel, 1nat, 0nat,
{
    if fuel == 0 {
        Err(LowerError::Unsupported)
    } else {
        let cb = m.blocks.len();
        let tb = cb + 1;
        let eb = cb + 2;
        let endb = if e is Some { cb + 3 } else { cb + 2 };
        let m1 = add_block(add_block(m, BlockKind::IfCond), BlockKind::IfThen);
        let m2 = if e is Some {
            add_block(add_block(m1, BlockKind::IfElse), BlockKind::IfEnd)
        } else {
            add_block(m1, BlockKind::IfEnd)
        };
        let m3 = at_block(emit(m2, InstV::Jump(cb)), cb);
        match lower_expr(c, env, defs, m3, (fuel - 1) as nat) {
            Err(x) => Err(x),
            Ok((_, None)) => Err(LowerError::NoValue),
            Ok((m4, Some(v))) => {
                let m5 = at_block(emit(m4, InstV::Branch { cond: v, then_: tb, else_: eb }), tb);
                match lower_expr(t, env, defs, m5, (fuel - 1) as nat) {
                    Err(x) => Err(x),
                    Ok((m6, _)) => {
                        let m7 = if ends_block(m6.insts, tb) {
                            m6
                        } else {
                            emit(m6, InstV::Jump(endb))
                        };
                        match e {
                            None => Ok((at_block(m7, endb), None)),
                            Some(x) => match lower_expr(x, env, defs, at_block(m7, eb), (fuel - 1) as nat) {
                                Err(y) => Err(y),
                                Ok((m8, _)) => Ok((at_block(emit(m8, InstV::Jump(endb)), endb), None)),
                            },
                        }
                    },
                }
            },
        }
    }
}

/// Reading `x[i]`: the index, then `x`, then the address of the element
/// (by the machine type of `x`'s type) and a load of a 32-bit integer from
/// it.
pub open spec fn lower_index(x: Expression, i: Expression, env: EnvModel, defs: Seq<Definition>, m: Model, fuel: nat) -> Result<(Model, Option<ValueV>), LowerError>
    decreases fuel, 1nat, 0nat,
{
    if fuel == 0 {
        Err(LowerError::Unsupported)
    } else {
        match lower_expr(i, env, defs, m, (fuel - 1) as nat) {
            Err(y) => Err(y),
            Ok((_, None)) => Err(LowerError::NoValue),
            Ok((m1, Some(off))) => match lower_expr(x, env, defs, m1, (fuel - 1) as nat) {
                Err(y) => Err(y),
                Ok((_, None)) => Err(LowerError::NoValue),
                Ok((m2, Some(ptr))) => match x.ret_ty {
                    None => Err(LowerError::Untyped),
                    Some(t) => match ir_type(t, env, defs, fuel) {
                        None => Err(LowerError::Unsupported),
                        Some(it) => if m2.next_reg + 1 < usize::MAX {
                            let d = m2.next_reg;
                            let m3 = take_reg(emit(m2, InstV::Offset { dst: d, ty: it, ptr, index: off }));
                            Ok((take_reg(emit(m3, InstV::Load { dst: d + 1, ty: IrType::I32, ptr: ValueV::Reg(d) })), Some(ValueV::Reg(d + 1))))
                        } else {
                            Err(LowerError::TooLarge)
                        },
                    },
                },
            },
        }
    }
}

/// Where `e` is stored: a local's room, or the address of an element
/// `x[i]` (by the machine type of the elements of an array or mutable
/// pointer `x`).
pub open spec fn lower_place(e: Expression, env: EnvModel, defs: Seq<Definition>, m: Model, fuel: nat) -> Result<(Model, ValueV), LowerError>
    decreases fuel, 2nat, 0nat,
{
    if fuel == 0 {
        Err(LowerError::Unsupported)
    } else {
        match *e.kind {
            ExpressionKind::Identifier(p) => match plain_name(p) {
                None => Err(LowerError::UnknownName),
                Some(n) => if n == nullptr_name() {
                    Err(LowerError::Unsupported)
                } else {
                    match find_local(m.locals, n) {
                        None => Err(LowerError::UnknownName),
                        Some((room, _)) => Ok((m, ValueV::Reg(room))),
                    }
                },
            },
            ExpressionKind::Index(x, i) => match lower_expr(i, env, defs, m, (fuel - 1) as nat) {
                Err(y) => Err(y),
                Ok((_, None)) => Err(LowerError::NoValue),
                Ok((m1, Some(off))) => match lower_expr(x, env, defs, m1, (fuel - 1) as nat) {
                    Err(y) => Err(y),
                    Ok((_, None)) => Err(LowerError::NoValue),
                    Ok((m2, Some(ptr))) => match x.ret_ty {
                        None => Err(LowerError::Untyped),
                        Some(t) => match t.kind {
                            TypeKind::Array(et) | TypeKind::MutablePointer(et) => match ir_type(*et, env, defs, fuel) {
                                None => Err(LowerError::Unsupported),
                                Some(it) => if reg_free(m2) {
                                    Ok((take_reg(emit(m2, InstV::Offset { dst: m2.next_reg, ty: it, ptr, index: off })), ValueV::Reg(m2.next_reg)))
                                } else {
                                    Err(LowerError::TooLarge)
                                },
                            },
                            _ => Err(LowerError::Unsupported),
                        },
                    },
                },
            },
            _ => Err(LowerError::Unsupported),
        }
    }
}

/// The lowering of one statement: a typed variable gets a room, becomes a
/// local, and has its value stored; an expression is lowered for what it
/// does; a labelled `break` jumps past its loop; `return` returns the value
/// of its expression, if any.
pub open spec fn lower_stmt(s: Statement, env: EnvModel, defs: Seq<Definition>, m: Model, fuel: nat) -> Result<Model, LowerError>
    decreases fuel, 2nat, 0nat,
{
    if fuel == 0 {
        Err(LowerError::Unsupported)
    } else {
        match s {
            Statement::Definition(d) => match d.kind {
                DefinitionKind::Variable(v) => match v.ty {
                    None => Err(LowerError::Untyped),
                    Some(t) => match ir_type(t, env, defs, fuel) {
                        None => Err(LowerError::Unsupported),
                        Some(it) => if reg_free(m) {
                            let room = m.next_reg;
                            let m1 = take_reg(emit(m, InstV::Alloca { dst: room, ty: it }));
                            let m2 = Model { locals: m1.locals.push((d.name@, room, load_type(t))), ..m1 };
                            match lower_expr(v.value, env, defs, m2, (fuel - 1) as nat) {
                                Err(x) => Err(x),
                                Ok((_, None)) => Err(LowerError::NoValue),
                                Ok((m3, Some(val))) => Ok(emit(m3, InstV::Store { ptr: ValueV::Reg(room), val })),
                            }
                        } else {
                            Err(LowerError::TooLarge)
                        },
                    },
                },
                _ => Err(LowerError::Unsupported),
            },
            Statement::Expression(e) => match lower_expr(e, env, defs, m, (fuel - 1) as nat) {
                Err(x) => Err(x),
                Ok((m1, _)) => Ok(m1),
            },
            Statement::Break(Some(l)) => match find_index(m.labels, l@) {
                None => Err(LowerError::UnknownName),
                Some(b) => Ok(emit(m, InstV::Jump(b))),
            },
            Statement::Return(Some(e)) => match lower_expr(e, env, defs, m, (fuel - 1) as nat) {
                Err(x) => Err(x),
                Ok((m1, v)) => Ok(emit(m1, InstV::Return(v))),
            },
            Statement::Return(None) => Ok(emit(m, InstV::Return(None))),
            _ => Err(LowerError::Unsupported),
        }
    }
}

/// The statements from the `i`-th on, in order.
pub open spec fn lower_stmts(sts: Seq<Statement>, i: int, env: EnvModel, defs: Seq<Definition>, m: Model, fuel: nat) -> Result<Model, LowerError>
    decreases fuel, 0nat, sts.len() - i,
{
    if fuel == 0 {
        Err(LowerError::Unsupported)
    } else if i < 0 || i >= sts.len() {
        Ok(m)
    } else {
        match lower_stmt(sts[i], env, defs, m, (fuel - 1) as nat) {
            Err(x) => Err(x),
            Ok(m1) => lower_stmts(sts, i + 1, env, defs, m1, fuel),
        }
    }
}

/// The arguments from the `i`-th on, in order, their values after `vals`.
pub open spec fn lower_args(ps: Seq<Expression>, i: int, env: EnvModel, defs: Seq<Definition>, m: Model, vals: Seq<ValueV>, fuel: nat) -> Result<(Model, Seq<ValueV>), LowerError>
    decreases fuel, 0nat, ps.len() - i,
{
    if fuel == 0 {
        Err(LowerError::Unsupported)
    } else if i < 0 || i >= ps.len() {
        Ok((m, vals))
    } else {
        match lower_expr(ps[i], env, defs, m, (fuel - 1) as nat) {
            Err(x) => Err(x),
            Ok((_, None)) => Err(LowerError::NoValue),
            Ok((m1, Some(v))) => lower_args(ps, i + 1, env, defs, m1, vals.push(v), fuel),
        }
    }
}

impl LowerState {
    /// Emits `i` into the current block.
    pub fn emit_inst(&mut self, i: IrInst)
        ensures
            final(self)@ == emit(old(self)@, inst_view(i)),
    {
        let ghost before = self.insts@;
        let ghost iv = inst_view(i);
        self.insts.push((self.current, i));
        proof {
            assert(insts_view(self.insts@) =~= insts_view(before).push((self.current as nat, iv)));
        }
        assert(self@ =~= emit(old(self)@, iv));
    }

    /// A new block of kind `k`, after the others: its number.
    pub fn new_block(&mut self, k: BlockKind) -> (r: usize)
        ensures
            r == old(self).blocks@.len(),
            final(self)@ == add_block(old(self)@, k),
    {
        let r = self.blocks.len();
        self.blocks.push(k);
        assert(self@ =~= add_block(old(self)@, k));
        r
    }

    /// Instructions go into block `b` from now on.
    pub fn set_block(&mut self, b: usize)
        ensures
            final(self)@ == at_block(old(self)@, b as nat),
    {
        self.current = b;
        assert(self@ =~= at_block(old(self)@, b as nat));
    }

    /// Takes the next free register.
    pub fn take(&mut self) -> (r: usize)
        requires
            old(self).next_reg < usize::MAX,
        ensures
            r == old(self).next_reg,
            final(self)@ == take_reg(old(self)@),
    {
        let r = self.next_reg;
        self.next_reg = r + 1;
        assert(self@ =~= take_reg(old(self)@));
        r
    }

    /// Names the block `b` by the label `l`.
    pub fn push_label(&mut self, l: &String, b: usize)
        ensures
            final(self)@ == (Model { labels: old(self)@.labels.push((l@, b as nat)), ..old(self)@ }),
    {
        let ghost before = self.labels@;
        self.labels.push((string_of(l.as_str()), b));
        proof {
            assert(names_view(self.labels@) =~= names_view(before).push((l@, b as nat)));
        }
        assert(self@ =~= Model { labels: old(self)@.labels.push((l@, b as nat)), ..old(self)@ });
    }

    /// Drops the labels named `l`.
    pub fn drop_labels(&mut self, l: &String)
        ensures
            final(self)@ == (Model { labels: drop_label(old(self)@.labels, l@), ..old(self)@ }),
    {
        let ghost all = names_view(self.labels@);
        let mut kept: Vec<(String, usize)> = Vec::new();
        let mut k: usize = 0;
        assert(all.take(0) =~= Seq::<(Seq<char>, nat)>::empty());
        while k < self.labels.len()
            invariant
                k <= self.labels@.len(),
                all == names_view(self.labels@),
                self.labels@ == old(self).labels@,
                names_view(kept@) == drop_label(all.take(k as int), l@),
            decreases self.labels@.len() - k,
        {
            let ghost pre = kept@;
            assert(all.take(k + 1).drop_last() =~= all.take(k as int));
            assert(all.take(k + 1).last() == all[k as int]);
            if !same_text(self.labels[k].0.as_str(), l.as_str()) {
                kept.push((string_of(self.labels[k].0.as_str()), self.labels[k].1));
                assert(names_view(kept@) =~= names_view(pre).push(all[k as int]));
            }
            k += 1;
        }
        assert(all.take(k as int) =~= all);
        self.labels = kept;
        assert(self@ =~= Model { labels: drop_label(old(self)@.labels, l@), ..old(self)@ });
    }

    /// Defines the local `n`, stored in the room `room`, read by `lt`.
    pub fn push_local(&mut self, n: &String, room: usize, lt: Option<IrType>)
        ensures
            final(self)@ == (Model { locals: old(self)@.locals.push((n@, room as nat, lt)), ..old(self)@ }),
    {
        let ghost before = self.locals@;
        self.locals.push((string_of(n.as_str()), room, lt));
        proof {
            assert(locals_view(self.locals@) =~= locals_view(before).push((n@, room as nat, lt)));
        }
        assert(self@ =~= Model { locals: old(self)@.locals.push((n@, room as nat, lt)), ..old(self)@ });
    }
}

/// `r` is what the lowering `s` gives, and `st` the state after it.
pub open spec fn expr_lowered(r: Result<Option<IrValue>, LowerError>, s: Result<(Model, Option<ValueV>), LowerError>, st: Model) -> bool {
    match s {
        Ok((m, v)) => r matches Ok(x) && st == m && opt_value_view(x) == v,
        Err(e) => r == Err::<Option<IrValue>, LowerError>(e),
    }
}

/// `r` is the place that the lowering `s` gives, and `st` the state after it.
pub open spec fn place_lowered(r: Result<IrValue, LowerError>, s: Result<(Model, ValueV), LowerError>, st: Model) -> bool {
    match s {
        Ok((m, v)) => r matches Ok(x) && st == m && value_view(x) == v,
        Err(e) => r == Err::<IrValue, LowerError>(e),
    }
}

/// `r` is what the lowering `s` of statements gives, and `st` the state
/// after it.
pub open spec fn stmts_lowered(r: Result<(), LowerError>, s: Result<Model, LowerError>, st: Model) -> bool {
    match s {
        Ok(m) => r is Ok && st == m,
        Err(e) => r == Err::<(), LowerError>(e),
    }
}

/// `r` is what the lowering `s` of arguments gives, and `st` the state
/// after it.
pub open spec fn args_lowered(r: Result<Vec<IrValue>, LowerError>, s: Result<(Model, Seq<ValueV>), LowerError>, st: Model) -> bool {
    match s {
        Ok((m, vs)) => r matches Ok(x) && st == m && values_view(x@) == vs,
        Err(e) => r == Err::<Vec<IrValue>, LowerError>(e),
    }
}

/// Whether block `b` already ends by leaving it (see `ends_block`).
pub fn block_ends(insts: &Vec<(usize, IrInst)>, b: usize) -> (r: bool)
    ensures
        r == ends_block(insts_view(insts@), b as nat),
{
    let ghost all = insts_view(insts@);
    let mut k = insts.len();
    assert(all.take(k as int) =~= all);
    while k > 0
        invariant
            k <= insts@.len(),
            all == insts_view(insts@),
            last_in_block(all.take(k as int), b as nat) == last_in_block(all, b as nat),
        decreases k,
    {
        let ghost pre = all.take(k as int);
        assert(pre.last() == all[k - 1]);
        if insts[k - 1].0 == b {
            return match &insts[k - 1].1 {
                IrInst::Jump(_) | IrInst::Branch { .. } | IrInst::Return(_) => true,
                _ => false,
            };
        }
        assert(pre.drop_last() =~= all.take(k - 1));
        k -= 1;
    }
    false
}

/// How the operands of a binary operation are taken (see `operand_class`).
fn operand_class_of(a: &Type, b: &Type) -> (r: Option<bool>)
    ensures
        r == operand_class(*a, *b),
{
    match (&a.kind, &b.kind) {
        (TypeKind::Pointer(_), TypeKind::Pointer(_)) => Some(true),
        (TypeKind::MutablePointer(_), TypeKind::Pointer(_)) => Some(true),
        (TypeKind::MutablePointer(_), TypeKind::MutablePointer(_)) => Some(true),
        (TypeKind::Primitive(PrimitiveType::Int(_)), TypeKind::Primitive(PrimitiveType::Int(_))) => Some(false),
        _ => None,
    }
}

/// The instruction of a binary operation (see `binary_inst`).
fn binary_instruction(op: BinaryOperator, pointers: bool, d: usize, a: IrValue, b: IrValue) -> (r: Option<IrInst>)
    ensures
        match binary_inst(op, pointers, d as nat, value_view(a), value_view(b)) {
            Some(i) => r matches Some(x) && inst_view(x) == i,
            None => r is None,
        },
{
    match op {
        BinaryOperator::Lesser => Some(IrInst::Compare { dst: d, pred: IrPred::Slt, a, b }),
        BinaryOperator::Equal => Some(IrInst::Compare { dst: d, pred: IrPred::Eq, a, b }),
        BinaryOperator::Addition => Some(IrInst::Add { dst: d, a, b }),
        BinaryOperator::Multiplication => if pointers {
            None
        } else {
            Some(IrInst::Mul { dst: d, a, b })
        },
        _ => None,
    }
}

/// The lowering of an expression (see `lower_expr`).
pub fn lower_expression(e: &Expression, env: &LowerEnv, defs: &Vec<Definition>, st: &mut LowerState, fuel: usize) -> (r: Result<Option<IrValue>, LowerError>)
    ensures
        expr_lowered(r, lower_expr(*e, env@, defs@, old(st)@, fuel as nat), final(st)@),
    decreases fuel, 2nat, 0nat,
{
    if fuel == 0 {
        return Err(LowerError::Unsupported);
    }
    match &*e.kind {
        ExpressionKind::While(w) => lower_while_exec(&w.label, &w.condition, &w.then_, env, defs, st, fuel),
        ExpressionKind::BinaryOperation(b) => lower_binary_exec(b.operator, &b.operands[0], &b.operands[1], env, defs, st, fuel),
        ExpressionKind::Identifier(p) => lower_name_exec(p, st),
        ExpressionKind::Literal(l) => match &l.info {
            LiteralInfo::Integer { precision, .. } => {
                let ok = match precision {
                    None => true,
                    Some(w) => *w == 32,
                };
                if ok {
                    Ok(Some(IrValue::Int(string_of(l.data.as_str()))))
                } else {
                    Err(LowerError::Unsupported)
                }
            },
            LiteralInfo::String => Ok(Some(IrValue::Str(string_of(l.data.as_str())))),
            LiteralInfo::Float { .. } => Err(LowerError::Unsupported),
        },
        ExpressionKind::Block(b) => match lower_statements(&b.statements, 0, env, defs, st, fuel) {
            Ok(()) => Ok(None),
            Err(x) => Err(x),
        },
        ExpressionKind::Call(c) => lower_call_exec(&c.called, &c.parameters, env, defs, st, fuel),
        ExpressionKind::Assignment(a, b) => {
            let ptr = lower_place_exec(a, env, defs, st, fuel - 1)?;
            let v = match lower_expression(b, env, defs, st, fuel - 1)? {
                Some(v) => v,
                None => {
                    return Err(LowerError::NoValue);
                },
            };
            st.emit_inst(IrInst::Store { ptr, val: v });
            Ok(None)
        },
        ExpressionKind::UnaryOperation(u) => match u.operator {
            UnaryOperator::Ref => {
                let ptr = lower_place_exec(&u.operand, env, defs, st, fuel - 1)?;
                Ok(Some(ptr))
            },
            _ => Err(LowerError::Unsupported),
        },
        ExpressionKind::Loop(l) => lower_loop_exec(&l.label, &l.body, env, defs, st, fuel),
        ExpressionKind::If(c) => lower_if_exec(&c.condition, &c.then_, &c.else_, env, defs, st, fuel),
        ExpressionKind::Index(x, i) => lower_index_exec(x, i, env, defs, st, fuel),
        _ => Err(LowerError::Unsupported),
    }
}

/// The lowering of a name (see `lower_name`).
fn lower_name_exec(p: &QualifiedName, st: &mut LowerState) -> (r: Result<Option<IrValue>, LowerError>)
    ensures
        expr_lowered(r, lower_name(*p, old(st)@), final(st)@),
{
    proof {
        reveal_strlit("nullptr");
        assert("nullptr"@ =~= nullptr_name());
    }
    let n = match plain_name_of(p) {
        Some(n) => n,
        None => {
            return Err(LowerError::UnknownName);
        },
    };
    if same_text(n, "nullptr") {
        return Ok(Some(IrValue::Null));
    }
    match lookup_local(&st.locals, n) {
        None => Err(LowerError::UnknownName),
        Some((room, lt)) => match lt {
            None => Err(LowerError::Unsupported),
            Some(t) => {
                if st.next_reg == usize::MAX {
                    return Err(LowerError::TooLarge);
                }
                let d = st.next_reg;
                st.emit_inst(IrInst::Load { dst: d, ty: t, ptr: IrValue::Reg(room) });
                st.take();
                Ok(Some(IrValue::Reg(d)))
            },
        },
    }
}

/// The lowering of `while` (see `lower_while`).
fn lower_while_exec(label: &Option<String>, c: &Expression, t: &Expression, env: &LowerEnv, defs: &Vec<Definition>, st: &mut LowerState, fuel: usize) -> (r: Result<Option<IrValue>, LowerError>)
    ensures
        expr_lowered(r, lower_while(*label, *c, *t, env@, defs@, old(st)@, fuel as nat), final(st)@),
    decreases fuel, 1nat, 0nat,
{
    if fuel == 0 {
        return Err(LowerError::Unsupported);
    }
    let cond = st.new_block(BlockKind::WhileCond);
    let body = st.new_block(BlockKind::WhileBody);
    let end = st.new_block(BlockKind::WhileEnd);
    if let Some(l) = label {
        st.push_label(l, end);
    }
    st.emit_inst(IrInst::Jump(cond));
    st.set_block(cond);
    let v = match lower_expression(c, env, defs, st, fuel - 1)? {
        Some(v) => v,
        None => {
            return Err(LowerError::NoValue);
        },
    };
    st.emit_inst(IrInst::Branch { cond: v, then_: body, else_: end });
    st.set_block(body);
    let _ = lower_expression(t, env, defs, st, fuel - 1)?;
    st.emit_inst(IrInst::Jump(cond));
    st.set_block(end);
    Ok(None)
}

/// The lowering of a binary operation (see `lower_binary`).
fn lower_binary_exec(op: BinaryOperator, a: &Expression, b: &Expression, env: &LowerEnv, defs: &Vec<Definition>, st: &mut LowerState, fuel: usize) -> (r: Result<Option<IrValue>, LowerError>)
    ensures
        expr_lowered(r, lower_binary(op, *a, *b, env@, defs@, old(st)@, fuel as nat), final(st)@),
    decreases fuel, 1nat, 0nat,
{
    if fuel == 0 {
        return Err(LowerError::Unsupported);
    }
    let va = match lower_expression(a, env, defs, st, fuel - 1)? {
        Some(v) => v,
        None => {
            return Err(LowerError::NoValue);
        },
    };
    let vb = match lower_expression(b, env, defs, st, fuel - 1)? {
        Some(v) => v,
        None => {
            return Err(LowerError::NoValue);
        },
    };
    let ptrs = match (&a.ret_ty, &b.ret_ty) {
        (Some(ta), Some(tb)) => match operand_class_of(ta, tb) {
            Some(x) => x,
            None => {
                return Err(LowerError::Unsupported);
            },
        },
        _ => {
            return Err(LowerError::Untyped);
        },
    };
    let d = st.next_reg;
    let i = match binary_instruction(op, ptrs, d, va, vb) {
        Some(i) => i,
        None => {
            return Err(LowerError::Unsupported);
        },
    };
    if st.next_reg == usize::MAX {
        return Err(LowerError::TooLarge);
    }
    st.emit_inst(i);
    st.take();
    Ok(Some(IrValue::Reg(d)))
}

/// The lowering of a call (see `lower_call`).
fn lower_call_exec(called: &Expression, ps: &Vec<Expression>, env: &LowerEnv, defs: &Vec<Definition>, st: &mut LowerState, fuel: usize) -> (r: Result<Option<IrValue>, LowerError>)
    ensures
        expr_lowered(r, lower_call(*called, ps@, env@, defs@, old(st)@, fuel as nat), final(st)@),
    decreases fuel, 1nat, 0nat,
{
    let p = match &*called.kind {
        ExpressionKind::Identifier(p) => p,
        _ => {
            return Err(LowerError::Unsupported);
        },
    };
    let n = match plain_name_of(p) {
        Some(n) => n,
        None => {
            return Err(LowerError::UnknownName);
        },
    };
    let ret = match lookup_fn(&env.functions, n) {
        Some(r) => r,
        None => {
            return Err(LowerError::UnknownName);
        },
    };
    let none: Vec<IrValue> = Vec::new();
    assert(values_view(none@) =~= Seq::<ValueV>::empty());
    let vals = lower_arguments(ps, 0, env, defs, st, none, fuel)?;
    match ret {
        IrRet::Void => {
            st.emit_inst(IrInst::Call { dst: None, callee: string_of(n), args: vals });
            Ok(None)
        },
        IrRet::Value(_) => {
            if st.next_reg == usize::MAX {
                return Err(LowerError::TooLarge);
            }
            let d = st.next_reg;
            st.emit_inst(IrInst::Call { dst: Some(d), callee: string_of(n), args: vals });
            st.take();
            Ok(Some(IrValue::Reg(d)))
        },
    }
}

/// The lowering of `loop` (see `lower_loop`).
fn lower_loop_exec(label: &Option<String>, b: &Expression, env: &LowerEnv, defs: &Vec<Definition>, st: &mut LowerState, fuel: usize) -> (r: Result<Option<IrValue>, LowerError>)
    ensures
        expr_lowered(r, lower_loop(*label, *b, env@, defs@, old(st)@, fuel as nat), final(st)@),
    decreases fuel, 1nat, 0nat,
{
    if fuel == 0 {
        return Err(LowerError::Unsupported);
    }
    let body = st.new_block(BlockKind::LoopBody);
    let end = st.new_block(BlockKind::LoopEnd);
    if let Some(l) = label {
        st.push_label(l, end);
    }
    st.emit_inst(IrInst::Jump(body));
    st.set_block(body);
    let _ = lower_expression(b, env, defs, st, fuel - 1)?;
    if let Some(l) = label {
        st.drop_labels(l);
    }
    st.emit_inst(IrInst::Jump(body));
    st.set_block(end);
    Ok(None)
}

/// The lowering of `if` (see `lower_if`).
fn lower_if_exec(c: &Expression, t: &Expression, e: &Option<Expression>, env: &LowerEnv, defs: &Vec<Definition>, st: &mut LowerState, fuel: usize) -> (r: Result<Option<IrValue>, LowerError>)
    ensures
        expr_lowered(r, lower_if(*c, *t, *e, env@, defs@, old(st)@, fuel as nat), final(st)@),
    decreases fuel, 1nat, 0nat,
{
    if fuel == 0 {
        return Err(LowerError::Unsupported);
    }
    let cb = st.new_block(BlockKind::IfCond);
    let tb = st.new_block(BlockKind::IfThen);
    let (eb, endb) = if e.is_some() {
        let eb = st.new_block(BlockKind::IfElse);
        let endb = st.new_block(BlockKind::IfEnd);
        (eb, endb)
    } else {
        let endb = st.new_block(BlockKind::IfEnd);
        (endb, endb)
    };
    st.emit_inst(IrInst::Jump(cb));
    st.set_block(cb);
    let v = match lower_expression(c, env, defs, st, fuel - 1)? {
        Some(v) => v,
        None => {
            return Err(LowerError::NoValue);
        },
    };
    st.emit_inst(IrInst::Branch { cond: v, then_: tb, else_: eb });
    st.set_block(tb);
    let _ = lower_expression(t, env, defs, st, fuel - 1)?;
    if !block_ends(&st.insts, tb) {
        st.emit_inst(IrInst::Jump(endb));
    }
    match e {
        None => {
            st.set_block(endb);
            Ok(None)
        },
        Some(x) => {
            st.set_block(eb);
            let _ = lower_expression(x, env, defs, st, fuel - 1)?;
            st.emit_inst(IrInst::Jump(endb));
            st.set_block(endb);
            Ok(None)
        },
    }
}

/// The lowering of reading `x[i]` (see `lower_index`).
fn lower_index_exec(x: &Expression, i: &Expression, env: &LowerEnv, defs: &Vec<Definition>, st: &mut LowerState, fuel: usize) -> (r: Result<Option<IrValue>, LowerError>)
    ensures
        expr_lowered(r, lower_index(*x, *i, env@, defs@, old(st)@, fuel as nat), final(st)@),
    decreases fuel, 1nat, 0nat,
{
    if fuel == 0 {
        return Err(LowerError::Unsupported);
    }
    let off = match lower_expression(i, env, defs, st, fuel - 1)? {
        Some(v) => v,
        None => {
            return Err(LowerError::NoValue);
        },
    };
    let ptr = match lower_expression(x, env, defs, st, fuel - 1)? {
        Some(v) => v,
        None => {
            return Err(LowerError::NoValue);
        },
    };
    let t = match &x.ret_ty {
        Some(t) => t,
        None => {
            return Err(LowerError::Untyped);
        },
    };
    let it = match lower_type(t, env, defs, fuel) {
        Some(it) => it,
        None => {
            return Err(LowerError::Unsupported);
        },
    };
    if st.next_reg >= usize::MAX - 1 {
        return Err(LowerError::TooLarge);
    }
    let d = st.next_reg;
    st.emit_inst(IrInst::Offset { dst: d, ty: it, ptr, index: off });
    st.take();
    st.emit_inst(IrInst::Load { dst: d + 1, ty: IrType::I32, ptr: IrValue::Reg(d) });
    st.take();
    Ok(Some(IrValue::Reg(d + 1)))
}

/// Where an expression is stored (see `lower_place`).
pub fn lower_place_exec(e: &Expression, env: &LowerEnv, defs: &Vec<Definition>, st: &mut LowerState, fuel: usize) -> (r: Result<IrValue, LowerError>)
    ensures
        place_lowered(r, lower_place(*e, env@, defs@, old(st)@, fuel as nat), final(st)@),
    decreases fuel, 2nat, 0nat,
{
    if fuel == 0 {
        return Err(LowerError::Unsupported);
    }
    proof {
        reveal_strlit("nullptr");
        assert("nullptr"@ =~= nullptr_name());
    }
    match &*e.kind {
        ExpressionKind::Identifier(p) => {
            let n = match plain_name_of(p) {
                Some(n) => n,
                None => {
                    return Err(LowerError::UnknownName);
                },
            };
            if same_text(n, "nullptr") {
                return Err(LowerError::Unsupported);
            }
            match lookup_local(&st.locals, n) {
                None => Err(LowerError::UnknownName),
                Some((room, _)) => Ok(IrValue::Reg(room)),
            }
        },
        ExpressionKind::Index(x, i) => {
            let off = match lower_expression(i, env, defs, st, fuel - 1)? {
                Some(v) => v,
                None => {
                    return Err(LowerError::NoValue);
                },
            };
            let ptr = match lower_expression(x, env, defs, st, fuel - 1)? {
                Some(v) => v,
                None => {
                    return Err(LowerError::NoValue);
                },
            };
            let t = match &x.ret_ty {
                Some(t) => t,
                None => {
                    return Err(LowerError::Untyped);
                },
            };
            let et = match &t.kind {
                TypeKind::Array(et) | TypeKind::MutablePointer(et) => et,
                _ => {
                    return Err(LowerError::Unsupported);
                },
            };
            let it = match lower_type(et, env, defs, fuel) {
                Some(it) => it,
                None => {
                    return Err(LowerError::Unsupported);
                },
            };
            if st.next_reg == usize::MAX {
                return Err(LowerError::TooLarge);
            }
            let d = st.next_reg;
            st.emit_inst(IrInst::Offset { dst: d, ty: it, ptr, index: off });
            st.take();
            Ok(IrValue::Reg(d))
        },
        _ => Err(LowerError::Unsupported),
    }
}

/// The lowering of a statement (see `lower_stmt`).
pub fn lower_statement(s: &Statement, env: &LowerEnv, defs: &Vec<Definition>, st: &mut LowerState, fuel: usize) -> (r: Result<(), LowerError>)
    ensures
        stmts_lowered(r, lower_stmt(*s, env@, defs@, old(st)@, fuel as nat), final(st)@),
    decreases fuel, 2nat, 0nat,
{
    if fuel == 0 {
        return Err(LowerError::Unsupported);
    }
    match s {
        Statement::Definition(d) => match &d.kind {
            DefinitionKind::Variable(v) => {
                let t = match &v.ty {
                    Some(t) => t,
                    None => {
                        return Err(LowerError::Untyped);
                    },
                };
                let it = match lower_type(t, env, defs, fuel) {
                    Some(it) => it,
                    None => {
                        return Err(LowerError::Unsupported);
                    },
                };
                if st.next_reg == usize::MAX {
                    return Err(LowerError::TooLarge);
                }
                let room = st.next_reg;
                st.emit_inst(IrInst::Alloca { dst: room, ty: it });
                st.take();
                st.push_local(&d.name, room, local_load_type(t));
                let val = match lower_expression(&v.value, env, defs, st, fuel - 1)? {
                    Some(v) => v,
                    None => {
                        return Err(LowerError::NoValue);
                    },
                };
                st.emit_inst(IrInst::Store { ptr: IrValue::Reg(room), val });
                Ok(())
            },
            _ => Err(LowerError::Unsupported),
        },
        Statement::Expression(e) => {
            let _ = lower_expression(e, env, defs, st, fuel - 1)?;
            Ok(())
        },
        Statement::Break(Some(l)) => match lookup_index(&st.labels, l.as_str()) {
            None => Err(LowerError::UnknownName),
            Some(b) => {
                st.emit_inst(IrInst::Jump(b));
                Ok(())
            },
        },
        Statement::Return(Some(e)) => {
            let v = lower_expression(e, env, defs, st, fuel - 1)?;
            st.emit_inst(IrInst::Return(v));
            Ok(())
        },
        Statement::Return(None) => {
            st.emit_inst(IrInst::Return(None));
            Ok(())
        },
        _ => Err(LowerError::Unsupported),
    }
}

/// The lowering of the statements from the `i`-th on (see `lower_stmts`).
pub fn lower_statements(sts: &Vec<Statement>, i: usize, env: &LowerEnv, defs: &Vec<Definition>, st: &mut LowerState, fuel: usize) -> (r: Result<(), LowerError>)
    ensures
        stmts_lowered(r, lower_stmts(sts@, i as int, env@, defs@, old(st)@, fuel as nat), final(st)@),
    decreases fuel, 0nat, sts@.len() - i,
{
    if fuel == 0 {
        return Err(LowerError::Unsupported);
    }
    if i >= sts.len() {
        return Ok(());
    }
    lower_statement(&sts[i], env, defs, st, fuel - 1)?;
    lower_statements(sts, i + 1, env, defs, st, fuel)
}

/// The lowering of the arguments from the `i`-th on (see `lower_args`).
pub fn lower_arguments(ps: &Vec<Expression>, i: usize, env: &LowerEnv, defs: &Vec<Definition>, st: &mut LowerState, vals: Vec<IrValue>, fuel: usize) -> (r: Result<Vec<IrValue>, LowerError>)
    ensures
        args_lowered(r, lower_args(ps@, i as int, env@, defs@, old(st)@, values_view(vals@), fuel as nat), final(st)@),
    decreases fuel, 0nat, ps@.len() - i,
{
    if fuel == 0 {
        return Err(LowerError::Unsupported);
    }
    if i >= ps.len() {
        return Ok(vals);
    }
    let v = match lower_expression(&ps[i], env, defs, st, fuel - 1)? {
        Some(v) => v,
        None => {
            return Err(LowerError::NoValue);
        },
    };
    let mut vals = vals;
    let ghost before = vals@;
    let ghost vv = value_view(v);
    vals.push(v);
    assert(values_view(vals@) =~= values_view(before).push(vv));
    lower_arguments(ps, i + 1, env, defs, st, vals, fuel)
}

/// A function as plain values.
pub struct FnV {
    pub name: Seq<char>,
    pub ret: IrRet,
    pub params: Seq<IrType>,
    pub variadic: bool,
    pub external: bool,
    pub blocks: Seq<BlockKind>,
    pub insts: Seq<(nat, InstV)>,
}

pub open spec fn fn_view(f: IrFunction) -> FnV {
    FnV {
        name: f.name@,
        ret: f.ret,
        params: f.params@,
        variadic: f.variadic,
        external: f.external,
        blocks: f.blocks@,
        insts: insts_view(f.insts@),
    }
}

pub open spec fn fns_view(v: Seq<IrFunction>) -> Seq<FnV> {
    v.map_values(|f: IrFunction| fn_view(f))
}

/// The machine types of the first `n` parameters of a C function.
pub open spec fn c_params(ps: Seq<(Option<String>, Type)>, n: int, env: EnvModel, defs: Seq<Definition>, fuel: nat) -> Option<Seq<IrType>>
    decreases n,
{
    if n <= 0 {
        Some(Seq::empty())
    } else {
        match (c_params(ps, n - 1, env, defs, fuel), ir_type(ps[n - 1].1, env, defs, fuel)) {
            (Some(prev), Some(t)) => Some(prev.push(t)),
            _ => None,
        }
    }
}

/// The C imports from the `i`-th on: each C function that the headers
/// read declare under the import's path is declared outside, under its
/// name, with the machine types of its parameters and of what it returns;
/// a C variable is passed over. The functions come after `fns`.
pub open spec fn lower_imports(imps: Seq<Import>, i: int, cache: CCache, env: EnvModel, defs: Seq<Definition>, fns: Seq<FnV>, fuel: nat) -> Result<(Seq<FnV>, EnvModel), LowerError>
    decreases imps.len() - i,
{
    if i < 0 || i >= imps.len() {
        Ok((fns, env))
    } else if !imps[i].c_import {
        lower_imports(imps, i + 1, cache, env, defs, fns, fuel)
    } else {
        let path = imps[i].path;
        if path.v@.len() < 2 {
            Err(LowerError::Unsupported)
        } else {
            match header_symbols(cache.headers@, path.v@[0].ident@) {
                None => Err(LowerError::UnknownName),
                Some(syms) => match symbol_def(syms, path.v@[1].ident@) {
                    None => Err(LowerError::UnknownName),
                    Some(d) => match d.kind {
                        DefinitionKind::FunctionC(f) => match c_params(f.parameters@, f.parameters@.len() as int, env, defs, fuel) {
                            None => Err(LowerError::Unsupported),
                            Some(ps) => match f.return_ty {
                                None => Err(LowerError::Untyped),
                                Some(t) => match ret_type(t, env, defs, fuel) {
                                    None => Err(LowerError::Unsupported),
                                    Some(ret) => {
                                        let name = path.v@[1].ident@;
                                        let fv = FnV {
                                            name,
                                            ret,
                                            params: ps,
                                            variadic: f.varidic,
                                            external: true,
                                            blocks: Seq::empty(),
                                            insts: Seq::empty(),
                                        };
                                        let env1 = EnvModel { functions: env.functions.push((name, ret)), ..env };
                                        lower_imports(imps, i + 1, cache, env1, defs, fns.push(fv), fuel)
                                    },
                                },
                            },
                        },
                        DefinitionKind::VarC(_) => lower_imports(imps, i + 1, cache, env, defs, fns, fuel),
                        _ => Err(LowerError::Unsupported),
                    },
                },
            }
        }
    }
}

/// The state at the start of a function's body: one entry block, no
/// instructions yet; the registers, locals and labels carry on.
pub open spec fn fn_start(m: Model) -> Model {
    Model { blocks: seq![BlockKind::Entry], insts: Seq::empty(), current: 0, ..m }
}

/// The definitions from the `i`-th on: a function is defined under its
/// name, returning nothing and taking nothing, its body lowered from a
/// fresh entry block (the function is known to its own body); a type
/// becomes known under its name. The functions come after `fns`.
pub open spec fn lower_defs(defs: Seq<Definition>, i: int, env: EnvModel, m: Model, fns: Seq<FnV>, fuel: nat) -> Result<Seq<FnV>, LowerError>
    decreases defs.len() - i,
{
    if i < 0 || i >= defs.len() {
        Ok(fns)
    } else {
        match defs[i].kind {
            DefinitionKind::FunctionDefinition(f) => {
                let name = defs[i].name@;
                let env1 = EnvModel { functions: env.functions.push((name, IrRet::Void)), ..env };
                match lower_stmts(f.body.statements@, 0, env1, defs, fn_start(m), fuel) {
                    Err(x) => Err(x),
                    Ok(m1) => {
                        let fv = FnV {
                            name,
                            ret: IrRet::Void,
                            params: Seq::empty(),
                            variadic: false,
                            external: false,
                            blocks: m1.blocks,
                            insts: m1.insts,
                        };
                        lower_defs(defs, i + 1, env1, Model { blocks: Seq::empty(), insts: Seq::empty(), ..m1 }, fns.push(fv), fuel)
                    },
                }
            },
            DefinitionKind::Type(_) => {
                let env1 = EnvModel { types: env.types.push((defs[i].name@, i as nat)), ..env };
                lower_defs(defs, i + 1, env1, m, fns, fuel)
            },
            _ => Err(LowerError::Unsupported),
        }
    }
}

/// The empty state: no blocks, instructions, registers, locals or labels.
pub open spec fn empty_model() -> Model {
    Model {
        blocks: Seq::empty(),
        insts: Seq::empty(),
        current: 0,
        next_reg: 0,
        locals: Seq::empty(),
        labels: Seq::empty(),
    }
}

/// The machine form of a project: named as the project, its root module's
/// C imports declared, then its definitions lowered; `None` with why it
/// cannot be lowered.
pub open spec fn project_lowering(p: Project, cache: CCache, fuel: nat) -> Result<(Seq<char>, Seq<FnV>), LowerError> {
    let env0 = EnvModel { functions: Seq::empty(), types: Seq::empty() };
    let defs = p.root_module.definitions@;
    match lower_imports(p.root_module.imports@, 0, cache, env0, defs, Seq::empty(), fuel) {
        Err(x) => Err(x),
        Ok((fns, env)) => match lower_defs(defs, 0, env, empty_model(), fns, fuel) {
            Err(x) => Err(x),
            Ok(all) => Ok((p.name@, all)),
        },
    }
}

/// The import `imp` is a C import of a function that the headers read
/// declare, named `name`, variadic as `variadic` says, with `n` parameters.
pub open spec fn imports_c_function(imp: Import, cache: CCache, name: Seq<char>, variadic: bool, n: nat) -> bool {
    &&& imp.c_import
    &&& imp.path.v@.len() >= 2
    &&& name == imp.path.v@[1].ident@
    &&& header_symbols(cache.headers@, imp.path.v@[0].ident@) matches Some(syms)
    &&& symbol_def(syms, name) matches Some(d)
    &&& d.kind matches DefinitionKind::FunctionC(f)
    &&& variadic == f.varidic
    &&& n == f.parameters@.len()
}

/// The machine types of the first `n` parameters are `n` types.
proof fn lemma_c_params_len(ps: Seq<(Option<String>, Type)>, n: int, env: EnvModel, defs: Seq<Definition>, fuel: nat)
    requires
        0 <= n,
        c_params(ps, n, env, defs, fuel) is Some,
    ensures
        c_params(ps, n, env, defs, fuel)->0.len() == n,
    decreases n,
{
    if n > 0 {
        lemma_c_params_len(ps, n - 1, env, defs, fuel);
    }
}

/// Lowering the C imports from the `i`-th on keeps the functions before
/// them and declares, outside, each C function that one of them names.
proof fn lemma_imports_declare(imps: Seq<Import>, i: int, cache: CCache, env: EnvModel, defs: Seq<Definition>, fns: Seq<FnV>, fuel: nat)
    requires
        0 <= i,
        lower_imports(imps, i, cache, env, defs, fns, fuel) is Ok,
    ensures
        ({
            let out = lower_imports(imps, i, cache, env, defs, fns, fuel)->Ok_0.0;
            &&& fns.len() <= out.len()
            &&& out.take(fns.len() as int) == fns
            &&& forall|k: int, name: Seq<char>, v: bool, n: nat| i <= k < imps.len() && #[trigger] imports_c_function(imps[k], cache, name, v, n)
                ==> exists|j: int| fns.len() <= j < out.len() && #[trigger] out[j].name == name && out[j].external && out[j].variadic == v
                && out[j].params.len() == n
        }),
    decreases imps.len() - i,
{
    if i >= imps.len() {
        assert(fns.take(fns.len() as int) =~= fns);
    } else if !imps[i].c_import {
        lemma_imports_declare(imps, i + 1, cache, env, defs, fns, fuel);
    } else {
        let path = imps[i].path;
        let syms = header_symbols(cache.headers@, path.v@[0].ident@)->0;
        let d = symbol_def(syms, path.v@[1].ident@)->0;
        match d.kind {
            DefinitionKind::FunctionC(f) => {
                let ps = c_params(f.parameters@, f.parameters@.len() as int, env, defs, fuel)->0;
                lemma_c_params_len(f.parameters@, f.parameters@.len() as int, env, defs, fuel);
                let ret = ret_type(f.return_ty->0, env, defs, fuel)->0;
                let name = path.v@[1].ident@;
                let fv = FnV {
                    name,
                    ret,
                    params: ps,
                    variadic: f.varidic,
                    external: true,
                    blocks: Seq::empty(),
                    insts: Seq::empty(),
                };
                let env1 = EnvModel { functions: env.functions.push((name, ret)), ..env };
                lemma_imports_declare(imps, i + 1, cache, env1, defs, fns.push(fv), fuel);
                let out = lower_imports(imps, i, cache, env, defs, fns, fuel)->Ok_0.0;
                assert(out.take((fns.len() + 1) as int) == fns.push(fv));
                assert(out[fns.len() as int] == out.take((fns.len() + 1) as int)[fns.len() as int]);
                assert(out[fns.len() as int] == fv);
                assert forall|k: int, name2: Seq<char>, v: bool, n: nat| i <= k < imps.len() && #[trigger] imports_c_function(imps[k], cache, name2, v, n)
                    implies exists|j: int| fns.len() <= j < out.len() && #[trigger] out[j].name == name2 && out[j].external && out[j].variadic == v
                    && out[j].params.len() == n by {
                    if k == i {
                        assert(out[fns.len() as int].name == name2);
                    } else {
                        let j = choose|j: int| fns.len() + 1 <= j < out.len() && #[trigger] out[j].name == name2 && out[j].external
                            && out[j].variadic == v && out[j].params.len() == n;
                        assert(out[j].name == name2);
                    }
                }
                assert(out.take(fns.len() as int) =~= fns) by {
                    assert forall|j: int| 0 <= j < fns.len() implies out.take(fns.len() as int)[j] == fns[j] by {
                        assert(out.take((fns.len() + 1) as int)[j] == fns.push(fv)[j]);
                    }
                }
            },
            _ => {
                lemma_imports_declare(imps, i + 1, cache, env, defs, fns, fuel);
            },
        }
    }
}

/// Lowering the definitions from the `i`-th on keeps the functions before
/// them and defines each function among them, under its name, returning
/// nothing and taking nothing.
proof fn lemma_defs_define(defs: Seq<Definition>, i: int, env: EnvModel, m: Model, fns: Seq<FnV>, fuel: nat)
    requires
        0 <= i,
        lower_defs(defs, i, env, m, fns, fuel) is Ok,
    ensures
        ({
            let out = lower_defs(defs, i, env, m, fns, fuel)->Ok_0;
            &&& fns.len() <= out.len()
            &&& out.take(fns.len() as int) == fns
            &&& forall|k: int| i <= k < defs.len() && #[trigger] defs[k].kind is FunctionDefinition ==> exists|j: int| fns.len() <= j
                < out.len() && #[trigger] out[j].name == defs[k].name@ && !out[j].external && out[j].ret == IrRet::Void
                && out[j].params.len() == 0
        }),
    decreases defs.len() - i,
{
    if i >= defs.len() {
        assert(fns.take(fns.len() as int) =~= fns);
    } else {
        match defs[i].kind {
            DefinitionKind::FunctionDefinition(f) => {
                let name = defs[i].name@;
                let env1 = EnvModel { functions: env.functions.push((name, IrRet::Void)), ..env };
                let m1 = lower_stmts(f.body.statements@, 0, env1, defs, fn_start(m), fuel)->Ok_0;
                let fv = FnV {
                    name,
                    ret: IrRet::Void,
                    params: Seq::empty(),
                    variadic: false,
                    external: false,
                    blocks: m1.blocks,
                    insts: m1.insts,
                };
                let m2 = Model { blocks: Seq::empty(), insts: Seq::empty(), ..m1 };
                lemma_defs_define(defs, i + 1, env1, m2, fns.push(fv), fuel);
                let out = lower_defs(defs, i, env, m, fns, fuel)->Ok_0;
                assert(out.take((fns.len() + 1) as int) == fns.push(fv));
                assert(out[fns.len() as int] == out.take((fns.len() + 1) as int)[fns.len() as int]);
                assert(out[fns.len() as int] == fv);
                assert forall|k: int| i <= k < defs.len() && #[trigger] defs[k].kind is FunctionDefinition implies exists|j: int| fns.len()
                    <= j < out.len() && #[trigger] out[j].name == defs[k].name@ && !out[j].external && out[j].ret == IrRet::Void
                    && out[j].params.len() == 0 by {
                    if k == i {
                        assert(out[fns.len() as int].name == defs[k].name@);
                    } else {
                        let j = choose|j: int| fns.len() + 1 <= j < out.len() && #[trigger] out[j].name == defs[k].name@ && !out[j].external
                            && out[j].ret == IrRet::Void && out[j].params.len() == 0;
                        assert(out[j].name == defs[k].name@);
                    }
                }
                assert(out.take(fns.len() as int) =~= fns) by {
                    assert forall|j: int| 0 <= j < fns.len() implies out.take(fns.len() as int)[j] == fns[j] by {
                        assert(out.take((fns.len() + 1) as int)[j] == fns.push(fv)[j]);
                    }
                }
            },
            DefinitionKind::Type(_) => {
                let env1 = EnvModel { types: env.types.push((defs[i].name@, i as nat)), ..env };
                lemma_defs_define(defs, i + 1, env1, m, fns, fuel);
            },
            _ => {},
        }
    }
}

/// A lowered project declares, outside it, every C function that its root
/// module imports from a header, under the function's name, variadic as
/// the header says and with as many parameters; and it defines every
/// function of its root module under its name, returning nothing and
/// taking nothing.
pub proof fn lemma_lowering_declares_functions(p: Project, cache: CCache, fuel: nat)
    requires
        project_lowering(p, cache, fuel) is Ok,
    ensures
        ({
            let fns = project_lowering(p, cache, fuel)->Ok_0.1;
            let imps = p.root_module.imports@;
            let defs = p.root_module.definitions@;
            &&& forall|k: int, name: Seq<char>, v: bool, n: nat| 0 <= k < imps.len() && #[trigger] imports_c_function(imps[k], cache, name, v, n)
                ==> exists|j: int| 0 <= j < fns.len() && #[trigger] fns[j].name == name && fns[j].external && fns[j].variadic == v
                && fns[j].params.len() == n
            &&& forall|k: int| 0 <= k < defs.len() && #[trigger] defs[k].kind is FunctionDefinition ==> exists|j: int| 0 <= j < fns.len()
                && #[trigger] fns[j].name == defs[k].name@ && !fns[j].external && fns[j].ret == IrRet::Void && fns[j].params.len() == 0
        }),
{
    let env0 = EnvModel { functions: Seq::empty(), types: Seq::empty() };
    let imps = p.root_module.imports@;
    let defs = p.root_module.definitions@;
    lemma_imports_declare(imps, 0, cache, env0, defs, Seq::empty(), fuel);
    let (f1, env) = lower_imports(imps, 0, cache, env0, defs, Seq::empty(), fuel)->Ok_0;
    lemma_defs_define(defs, 0, env, empty_model(), f1, fuel);
    let fns = project_lowering(p, cache, fuel)->Ok_0.1;
    assert forall|k: int, name: Seq<char>, v: bool, n: nat| 0 <= k < imps.len() && #[trigger] imports_c_function(imps[k], cache, name, v, n)
        implies exists|j: int| 0 <= j < fns.len() && #[trigger] fns[j].name == name && fns[j].external && fns[j].variadic == v
        && fns[j].params.len() == n by {
        let j = choose|j: int| 0 <= j < f1.len() && #[trigger] f1[j].name == name && f1[j].external && f1[j].variadic == v
            && f1[j].params.len() == n;
        assert(fns.take(f1.len() as int)[j] == fns[j]);
    }
}

/// Once a parameter has no machine type, no longer run of them has one.
proof fn lemma_c_params_none(ps: Seq<(Option<String>, Type)>, k: int, n: int, env: EnvModel, defs: Seq<Definition>, fuel: nat)
    requires
        0 < k <= n,
        c_params(ps, k, env, defs, fuel) is None,
    ensures
        c_params(ps, n, env, defs, fuel) is None,
    decreases n - k,
{
    if n > k {
        lemma_c_params_none(ps, k, n - 1, env, defs, fuel);
    }
}

/// The machine types of the parameters of a C function (see `c_params`).
fn lower_c_params(ps: &Vec<(Option<String>, Type)>, env: &LowerEnv, defs: &Vec<Definition>, fuel: usize) -> (r: Option<Vec<IrType>>)
    ensures
        match c_params(ps@, ps@.len() as int, env@, defs@, fuel as nat) {
            Some(s) => r matches Some(v) && v@ == s,
            None => r is None,
        },
{
    let mut out: Vec<IrType> = Vec::new();
    let mut k: usize = 0;
    while k < ps.len()
        invariant
            k <= ps@.len(),
            c_params(ps@, k as int, env@, defs@, fuel as nat) == Some(out@),
        decreases ps@.len() - k,
    {
        match lower_type(&ps[k].1, env, defs, fuel) {
            Some(t) => {
                out.push(t);
            },
            None => {
                proof {
                    lemma_c_params_none(ps@, (k + 1) as int, ps@.len() as int, env@, defs@, fuel as nat);
                }
                return None;
            },
        }
        k += 1;
    }
    Some(out)
}

/// The C imports from the `i`-th on (see `lower_imports`).
fn lower_imports_exec(imps: &Vec<Import>, cache: &CCache, env: &mut LowerEnv, defs: &Vec<Definition>, fns: &mut Vec<IrFunction>, fuel: usize) -> (r: Result<(), LowerError>)
    ensures
        match lower_imports(imps@, 0, *cache, old(env)@, defs@, fns_view(old(fns)@), fuel as nat) {
            Ok((fs, e)) => r is Ok && fns_view(final(fns)@) == fs && final(env)@ == e,
            Err(x) => r == Err::<(), LowerError>(x),
        },
{
    let mut i: usize = 0;
    while i < imps.len()
        invariant
            i <= imps@.len(),
            lower_imports(imps@, 0, *cache, old(env)@, defs@, fns_view(old(fns)@), fuel as nat) == lower_imports(
                imps@,
                i as int,
                *cache,
                env@,
                defs@,
                fns_view(fns@),
                fuel as nat,
            ),
        decreases imps@.len() - i,
    {
        let imp = &imps[i];
        if imp.c_import {
            if imp.path.v.len() < 2 {
                return Err(LowerError::Unsupported);
            }
            if !cache.has_definition(&imp.path) {
                return Err(LowerError::UnknownName);
            }
            let d = cache.get_definition(&imp.path);
            match &d.kind {
                DefinitionKind::FunctionC(f) => {
                    let ps = match lower_c_params(&f.parameters, env, defs, fuel) {
                        Some(ps) => ps,
                        None => {
                            return Err(LowerError::Unsupported);
                        },
                    };
                    let t = match &f.return_ty {
                        Some(t) => t,
                        None => {
                            return Err(LowerError::Untyped);
                        },
                    };
                    let ret = match lower_ret_type(t, env, defs, fuel) {
                        Some(ret) => ret,
                        None => {
                            return Err(LowerError::Unsupported);
                        },
                    };
                    let name = string_of(imp.path.v[1].ident.as_str());
                    let ghost before_f = fns@;
                    let ghost before_e = env.functions@;
                    let ghost rv = ret;
                    env.functions.push((string_of(imp.path.v[1].ident.as_str()), copy_ir_ret(&ret)));
                    let func = IrFunction {
                        name,
                        ret,
                        params: ps,
                        variadic: f.varidic,
                        external: true,
                        blocks: Vec::new(),
                        insts: Vec::new(),
                    };
                    let ghost fv = fn_view(func);
                    fns.push(func);
                    proof {
                        assert(functions_view(env.functions@) =~= functions_view(before_e).push((imp.path.v@[1].ident@, rv)));
                        assert(fns_view(fns@) =~= fns_view(before_f).push(fv));
                        assert(insts_view(Seq::<(usize, IrInst)>::empty()) =~= Seq::<(nat, InstV)>::empty());
                    }
                },
                DefinitionKind::VarC(_) => {},
                _ => {
                    return Err(LowerError::Unsupported);
                },
            }
        }
        i += 1;
    }
    Ok(())
}

/// The definitions from the `i`-th on (see `lower_defs`).
fn lower_defs_exec(defs: &Vec<Definition>, env: &mut LowerEnv, st: &mut LowerState, fns: &mut Vec<IrFunction>, fuel: usize) -> (r: Result<(), LowerError>)
    ensures
        match lower_defs(defs@, 0, old(env)@, old(st)@, fns_view(old(fns)@), fuel as nat) {
            Ok(fs) => r is Ok && fns_view(final(fns)@) == fs,
            Err(x) => r == Err::<(), LowerError>(x),
        },
{
    let mut i: usize = 0;
    while i < defs.len()
        invariant
            i <= defs@.len(),
            lower_defs(defs@, 0, old(env)@, old(st)@, fns_view(old(fns)@), fuel as nat) == lower_defs(
                defs@,
                i as int,
                env@,
                st@,
                fns_view(fns@),
                fuel as nat,
            ),
        decreases defs@.len() - i,
    {
        let d = &defs[i];
        match &d.kind {
            DefinitionKind::FunctionDefinition(f) => {
                let ghost before_e = env.functions@;
                env.functions.push((string_of(d.name.as_str()), IrRet::Void));
                proof {
                    assert(functions_view(env.functions@) =~= functions_view(before_e).push((d.name@, IrRet::Void)));
                }
                st.blocks = Vec::new();
                st.blocks.push(BlockKind::Entry);
                st.insts = Vec::new();
                st.current = 0;
                proof {
                    assert(insts_view(st.insts@) =~= Seq::<(nat, InstV)>::empty());
                    assert(st.blocks@ =~= seq![BlockKind::Entry]);
                }
                lower_statements(&f.body.statements, 0, env, defs, st, fuel)?;
                let mut blocks: Vec<BlockKind> = Vec::new();
                let mut insts: Vec<(usize, IrInst)> = Vec::new();
                std::mem::swap(&mut blocks, &mut st.blocks);
                std::mem::swap(&mut insts, &mut st.insts);
                let ghost before_f = fns@;
                let func = IrFunction {
                    name: string_of(d.name.as_str()),
                    ret: IrRet::Void,
                    params: Vec::new(),
                    variadic: false,
                    external: false,
                    blocks,
                    insts,
                };
                let ghost fv = fn_view(func);
                fns.push(func);
                proof {
                    assert(fns_view(fns@) =~= fns_view(before_f).push(fv));
                    assert(insts_view(st.insts@) =~= Seq::<(nat, InstV)>::empty());
                    assert(st.blocks@ =~= Seq::<BlockKind>::empty());
                }
            },
            DefinitionKind::Type(_) => {
                let ghost before_t = env.types@;
                env.types.push((string_of(d.name.as_str()), i));
                proof {
                    assert(names_view(env.types@) =~= names_view(before_t).push((d.name@, i as nat)));
                }
            },
            _ => {
                return Err(LowerError::Unsupported);
            },
        }
        i += 1;
    }
    Ok(())
}

pub open spec fn module_view(m: IrModule) -> (Seq<char>, Seq<FnV>) {
    (m.name@, fns_view(m.functions@))
}

/// The machine form of a project (see `project_lowering`), at most `fuel`
/// levels deep.
pub fn lower_project_with(project: &Project, cache: &CCache, fuel: usize) -> (r: Result<IrModule, LowerError>)
    ensures
        match project_lowering(*project, *cache, fuel as nat) {
            Ok(mv) => r matches Ok(m) && module_view(m) == mv,
            Err(x) => r == Err::<IrModule, LowerError>(x),
        },
{
    let mut env = LowerEnv { functions: Vec::new(), types: Vec::new() };
    let mut fns: Vec<IrFunction> = Vec::new();
    proof {
        assert(env@.functions =~= Seq::<(Seq<char>, IrRet)>::empty());
        assert(env@.types =~= Seq::<(Seq<char>, nat)>::empty());
        assert(fns_view(fns@) =~= Seq::<FnV>::empty());
    }
    lower_imports_exec(&project.root_module.imports, cache, &mut env, &project.root_module.definitions, &mut fns, fuel)?;
    let mut st = LowerState {
        blocks: Vec::new(),
        insts: Vec::new(),
        current: 0,
        next_reg: 0,
        locals: Vec::new(),
        labels: Vec::new(),
    };
    proof {
        assert(st@ =~= empty_model());
    }
    lower_defs_exec(&project.root_module.definitions, &mut env, &mut st, &mut fns, fuel)?;
    Ok(IrModule { name: string_of(project.name.as_str()), functions: fns })
}

/// The machine form of a project (see `project_lowering`): the project's
/// name, then a function for each C import of its root module and each of
/// its function definitions, in order.
pub fn lower_project(project: &Project, cache: &CCache) -> (r: Result<IrModule, LowerError>)
    ensures
        match project_lowering(*project, *cache, usize::MAX as nat) {
            Ok(mv) => r matches Ok(m) && module_view(m) == mv,
            Err(x) => r == Err::<IrModule, LowerError>(x),
        },
        r matches Ok(m) ==> m.name@ == project.name@,
{
    lower_project_with(project, cache, usize::MAX)
}

/// `b` extends `a`: the blocks and instructions of `a` stay, in place, and
/// more may follow them.
pub open spec fn grows(a: Model, b: Model) -> bool {
    &&& a.blocks.len() <= b.blocks.len()
    &&& forall|i: int| 0 <= i < a.blocks.len() ==> #[trigger] b.blocks[i] == a.blocks[i]
    &&& a.insts.len() <= b.insts.len()
    &&& forall|i: int| 0 <= i < a.insts.len() ==> #[trigger] b.insts[i] == a.insts[i]
}

/// Lowering an expression only adds blocks and instructions.
proof fn lemma_expr_grows(e: Expression, env: EnvModel, defs: Seq<Definition>, m: Model, fuel: nat)
    requires
        lower_expr(e, env, defs, m, fuel) is Ok,
    ensures
        grows(m, lower_expr(e, env, defs, m, fuel)->Ok_0.0),
    decreases fuel, 2nat, 0nat,
{
    assert(fuel > 0);
    let f1 = (fuel - 1) as nat;
    match *e.kind {
        ExpressionKind::While(w) => {
            assert(lower_expr(e, env, defs, m, fuel) == lower_while(w.label, w.condition, w.then_, env, defs, m, fuel));
            let cond = m.blocks.len();
            let end = cond + 2;
            let m1 = add_block(add_block(add_block(m, BlockKind::WhileCond), BlockKind::WhileBody), BlockKind::WhileEnd);
            let m2 = match w.label {
                Some(l) => Model { labels: m1.labels.push((l@, end)), ..m1 },
                None => m1,
            };
            let m3 = at_block(emit(m2, InstV::Jump(cond)), cond);
            lemma_expr_grows(w.condition, env, defs, m3, f1);
            let (m4, v) = lower_expr(w.condition, env, defs, m3, f1)->Ok_0;
            let m5 = at_block(emit(m4, InstV::Branch { cond: v->0, then_: cond + 1, else_: end }), cond + 1);
            lemma_expr_grows(w.then_, env, defs, m5, f1);
        },
        ExpressionKind::BinaryOperation(b) => {
            assert(lower_expr(e, env, defs, m, fuel) == lower_binary(b.operator, b.operands[0], b.operands[1], env, defs, m, fuel));
            lemma_expr_grows(b.operands[0], env, defs, m, f1);
            let m1 = lower_expr(b.operands[0], env, defs, m, f1)->Ok_0.0;
            lemma_expr_grows(b.operands[1], env, defs, m1, f1);
        },
        ExpressionKind::Block(b) => {
            lemma_stmts_grows(b.statements@, 0, env, defs, m, fuel);
        },
        ExpressionKind::Call(c) => {
            assert(lower_expr(e, env, defs, m, fuel) == lower_call(c.called, c.parameters@, env, defs, m, fuel));
            lemma_args_grows(c.parameters@, 0, env, defs, m, Seq::empty(), fuel);
        },
        ExpressionKind::Assignment(a, b) => {
            lemma_place_grows(a, env, defs, m, f1);
            let m1 = lower_place(a, env, defs, m, f1)->Ok_0.0;
            lemma_expr_grows(b, env, defs, m1, f1);
        },
        ExpressionKind::UnaryOperation(u) => {
            lemma_place_grows(u.operand, env, defs, m, f1);
        },
        ExpressionKind::Loop(l) => {
            assert(lower_expr(e, env, defs, m, fuel) == lower_loop(l.label, l.body, env, defs, m, fuel));
            let body = m.blocks.len();
            let end = body + 1;
            let m1 = add_block(add_block(m, BlockKind::LoopBody), BlockKind::LoopEnd);
            let m2 = match l.label {
                Some(n) => Model { labels: m1.labels.push((n@, end)), ..m1 },
                None => m1,
            };
            let m3 = at_block(emit(m2, InstV::Jump(body)), body);
            lemma_expr_grows(l.body, env, defs, m3, f1);
        },
        ExpressionKind::If(c) => {
            assert(lower_expr(e, env, defs, m, fuel) == lower_if(c.condition, c.then_, c.else_, env, defs, m, fuel));
            let cb = m.blocks.len();
            let tb = cb + 1;
            let eb = cb + 2;
            let endb = if c.else_ is Some { cb + 3 } else { cb + 2 };
            let m1 = add_block(add_block(m, BlockKind::IfCond), BlockKind::IfThen);
            let m2 = if c.else_ is Some {
                add_block(add_block(m1, BlockKind::IfElse), BlockKind::IfEnd)
            } else {
                add_block(m1, BlockKind::IfEnd)
            };
            let m3 = at_block(emit(m2, InstV::Jump(cb)), cb);
            lemma_expr_grows(c.condition, env, defs, m3, f1);
            let (m4, v) = lower_expr(c.condition, env, defs, m3, f1)->Ok_0;
            let m5 = at_block(emit(m4, InstV::Branch { cond: v->0, then_: tb, else_: eb }), tb);
            lemma_expr_grows(c.then_, env, defs, m5, f1);
            let m6 = lower_expr(c.then_, env, defs, m5, f1)->Ok_0.0;
            let m7 = if ends_block(m6.insts, tb) {
                m6
            } else {
                emit(m6, InstV::Jump(endb))
            };
            if let Some(x) = c.else_ {
                lemma_expr_grows(x, env, defs, at_block(m7, eb), f1);
            }
        },
        ExpressionKind::Index(x, i) => {
            assert(lower_expr(e, env, defs, m, fuel) == lower_index(x, i, env, defs, m, fuel));
            lemma_expr_grows(i, env, defs, m, f1);
            let m1 = lower_expr(i, env, defs, m, f1)->Ok_0.0;
            lemma_expr_grows(x, env, defs, m1, f1);
        },
        _ => {},
    }
}

/// Finding where an expression is stored only adds blocks and
/// instructions.
proof fn lemma_place_grows(e: Expression, env: EnvModel, defs: Seq<Definition>, m: Model, fuel: nat)
    requires
        lower_place(e, env, defs, m, fuel) is Ok,
    ensures
        grows(m, lower_place(e, env, defs, m, fuel)->Ok_0.0),
    decreases fuel, 2nat, 0nat,
{
    let f1 = (fuel - 1) as nat;
    match *e.kind {
        ExpressionKind::Index(x, i) => {
            lemma_expr_grows(i, env, defs, m, f1);
            let m1 = lower_expr(i, env, defs, m, f1)->Ok_0.0;
            lemma_expr_grows(x, env, defs, m1, f1);
        },
        _ => {},
    }
}

/// Lowering a statement only adds blocks and instructions.
proof fn lemma_stmt_grows(st: Statement, env: EnvModel, defs: Seq<Definition>, m: Model, fuel: nat)
    requires
        lower_stmt(st, env, defs, m, fuel) is Ok,
    ensures
        grows(m, lower_stmt(st, env, defs, m, fuel)->Ok_0),
    decreases fuel, 2nat, 0nat,
{
    let f1 = (fuel - 1) as nat;
    match st {
        Statement::Definition(d) => {
            let v = d.kind->Variable_0;
            let t = v.ty->0;
            let it = ir_type(t, env, defs, fuel)->0;
            let room = m.next_reg;
            let m1 = take_reg(emit(m, InstV::Alloca { dst: room, ty: it }));
            let m2 = Model { locals: m1.locals.push((d.name@, room, load_type(t))), ..m1 };
            lemma_expr_grows(v.value, env, defs, m2, f1);
        },
        Statement::Expression(e) => {
            lemma_expr_grows(e, env, defs, m, f1);
        },
        Statement::Return(Some(e)) => {
            lemma_expr_grows(e, env, defs, m, f1);
        },
        _ => {},
    }
}

/// Lowering statements only adds blocks and instructions.
proof fn lemma_stmts_grows(sts: Seq<Statement>, i: int, env: EnvModel, defs: Seq<Definition>, m: Model, fuel: nat)
    requires
        lower_stmts(sts, i, env, defs, m, fuel) is Ok,
    ensures
        grows(m, lower_stmts(sts, i, env, defs, m, fuel)->Ok_0),
    decreases fuel, 0nat, sts.len() - i,
{
    if fuel > 0 && 0 <= i < sts.len() {
        lemma_stmt_grows(sts[i], env, defs, m, (fuel - 1) as nat);
        let m1 = lower_stmt(sts[i], env, defs, m, (fuel - 1) as nat)->Ok_0;
        lemma_stmts_grows(sts, i + 1, env, defs, m1, fuel);
    }
}

/// Lowering arguments only adds blocks and instructions.
proof fn lemma_args_grows(ps: Seq<Expression>, i: int, env: EnvModel, defs: Seq<Definition>, m: Model, vals: Seq<ValueV>, fuel: nat)
    requires
        lower_args(ps, i, env, defs, m, vals, fuel) is Ok,
    ensures
        grows(m, lower_args(ps, i, env, defs, m, vals, fuel)->Ok_0.0),
    decreases fuel, 0nat, ps.len() - i,
{
    if fuel > 0 && 0 <= i < ps.len() {
        lemma_expr_grows(ps[i], env, defs, m, (fuel - 1) as nat);
        let (m1, v) = lower_expr(ps[i], env, defs, m, (fuel - 1) as nat)->Ok_0;
        lemma_args_grows(ps, i + 1, env, defs, m1, vals.push(v->0), fuel);
    }
}

/// A binary operation lowers its left operand first, then its right
/// operand from the state the left one left, and then emits, into a new
/// register, the instruction of its operator with the left operand's value
/// as its first operand and the right operand's value as its second: `<` a
/// signed less-than comparison, `==` an equality, `+` an addition and `*`
/// a multiplication. The operation's value is that register.
pub proof fn lemma_binary_keeps_operand_order(e: Expression, env: EnvModel, defs: Seq<Definition>, m: Model, fuel: nat)
    requires
        *e.kind is BinaryOperation,
        lower_expr(e, env, defs, m, fuel) is Ok,
    ensures
        ({
            let b = (*e.kind)->BinaryOperation_0;
            let left = lower_expr(b.operands[0], env, defs, m, (fuel - 1) as nat);
            let right = lower_expr(b.operands[1], env, defs, left->Ok_0.0, (fuel - 1) as nat);
            let out = lower_expr(e, env, defs, m, fuel)->Ok_0;
            let m2 = right->Ok_0.0;
            let va = left->Ok_0.1->0;
            let vb = right->Ok_0.1->0;
            let d = m2.next_reg;
            &&& left matches Ok((_, Some(_)))
            &&& right matches Ok((_, Some(_)))
            &&& out.0.insts == m2.insts.push((m2.current, out.0.insts.last().1))
            &&& out.1 == Some(ValueV::Reg(d))
            &&& out.0.next_reg == d + 1
            &&& b.operator == BinaryOperator::Lesser ==> out.0.insts.last().1 == (InstV::Compare { dst: d, pred: IrPred::Slt, a: va, b: vb })
            &&& b.operator == BinaryOperator::Equal ==> out.0.insts.last().1 == (InstV::Compare { dst: d, pred: IrPred::Eq, a: va, b: vb })
            &&& b.operator == BinaryOperator::Addition ==> out.0.insts.last().1 == (InstV::Add { dst: d, a: va, b: vb })
            &&& b.operator == BinaryOperator::Multiplication ==> out.0.insts.last().1 == (InstV::Mul { dst: d, a: va, b: vb })
        }),
{
    let b = (*e.kind)->BinaryOperation_0;
    assert(fuel > 0);
    assert(lower_expr(e, env, defs, m, fuel) == lower_binary(b.operator, b.operands[0], b.operands[1], env, defs, m, fuel));
    let left = lower_expr(b.operands[0], env, defs, m, (fuel - 1) as nat);
    let right = lower_expr(b.operands[1], env, defs, left->Ok_0.0, (fuel - 1) as nat);
    let m2 = right->Ok_0.0;
    let i = binary_inst(b.operator, operand_class(b.operands[0].ret_ty->0, b.operands[1].ret_ty->0)->0, m2.next_reg, left->Ok_0.1->0, right->Ok_0.1->0)->0;
    let out = lower_expr(e, env, defs, m, fuel)->Ok_0;
    assert(out.0 == take_reg(emit(m2, i)));
    assert(out.0.insts.last().1 == i);
}

/// A comparison, an equality, an addition or a multiplication of two
/// integer operands lowers whenever both operands lower to values and a
/// register is left for its result.
pub proof fn lemma_integer_binary_lowers(e: Expression, env: EnvModel, defs: Seq<Definition>, m: Model, fuel: nat)
    requires
        fuel > 0,
        *e.kind is BinaryOperation,
        ({
            let b = (*e.kind)->BinaryOperation_0;
            let left = lower_expr(b.operands[0], env, defs, m, (fuel - 1) as nat);
            let right = lower_expr(b.operands[1], env, defs, left->Ok_0.0, (fuel - 1) as nat);
            &&& b.operator == BinaryOperator::Lesser || b.operator == BinaryOperator::Equal || b.operator == BinaryOperator::Addition
                || b.operator == BinaryOperator::Multiplication
            &&& b.operands[0].ret_ty is Some
            &&& b.operands[0].ret_ty->0.kind is Primitive
            &&& b.operands[0].ret_ty->0.kind->Primitive_0 is Int
            &&& b.operands[1].ret_ty is Some
            &&& b.operands[1].ret_ty->0.kind is Primitive
            &&& b.operands[1].ret_ty->0.kind->Primitive_0 is Int
            &&& left is Ok
            &&& left->Ok_0.1 is Some
            &&& right is Ok
            &&& right->Ok_0.1 is Some
            &&& reg_free(right->Ok_0.0)
        }),
    ensures
        lower_expr(e, env, defs, m, fuel) is Ok,
{
    let b = (*e.kind)->BinaryOperation_0;
    assert(lower_expr(e, env, defs, m, fuel) == lower_binary(b.operator, b.operands[0], b.operands[1], env, defs, m, fuel));
}

/// A `loop` creates its body block first, at the index after the blocks
/// there were, and the block after the loop right after it; lowering it
/// ends with a jump back to the start of the body (the back edge), and
/// what follows goes into the block after the loop. A loop gives no
/// value.
pub proof fn lemma_loop_jumps_back(e: Expression, env: EnvModel, defs: Seq<Definition>, m: Model, fuel: nat)
    requires
        *e.kind is Loop,
        lower_expr(e, env, defs, m, fuel) is Ok,
    ensures
        ({
            let out = lower_expr(e, env, defs, m, fuel)->Ok_0;
            let body = m.blocks.len();
            &&& grows(m, out.0)
            &&& out.0.blocks[body as int] == BlockKind::LoopBody
            &&& out.0.blocks[(body + 1) as int] == BlockKind::LoopEnd
            &&& out.0.insts[m.insts.len() as int] == (m.current, InstV::Jump(body))
            &&& out.0.insts.len() > m.insts.len() + 1
            &&& out.0.insts.last().1 == InstV::Jump(body)
            &&& out.0.current == body + 1
            &&& out.1 is None
        }),
{
    let l = (*e.kind)->Loop_0;
    assert(fuel > 0);
    assert(lower_expr(e, env, defs, m, fuel) == lower_loop(l.label, l.body, env, defs, m, fuel));
    lemma_expr_grows(e, env, defs, m, fuel);
    let body = m.blocks.len();
    let m1 = add_block(add_block(m, BlockKind::LoopBody), BlockKind::LoopEnd);
    let m2 = match l.label {
        Some(n) => Model { labels: m1.labels.push((n@, body + 1)), ..m1 },
        None => m1,
    };
    let m3 = at_block(emit(m2, InstV::Jump(body)), body);
    lemma_expr_grows(l.body, env, defs, m3, (fuel - 1) as nat);
    assert(m3.insts[m.insts.len() as int] == (m.current, InstV::Jump(body)));
}

/// A `while` creates the block of its condition first, at the index after
/// the blocks there were, then the block of its body and the block after
/// it; it jumps into the condition block, where the condition is lowered;
/// the condition's value then branches to the body when it holds and past
/// the loop when it does not; lowering ends with a jump back to the
/// condition block, and what follows goes into the block after the loop.
pub proof fn lemma_while_shape(e: Expression, env: EnvModel, defs: Seq<Definition>, m: Model, fuel: nat)
    requires
        *e.kind is While,
        lower_expr(e, env, defs, m, fuel) is Ok,
    ensures
        ({
            let w = (*e.kind)->While_0;
            let out = lower_expr(e, env, defs, m, fuel)->Ok_0;
            let cond = m.blocks.len();
            let m1 = add_block(add_block(add_block(m, BlockKind::WhileCond), BlockKind::WhileBody), BlockKind::WhileEnd);
            let m2 = match w.label {
                Some(l) => Model { labels: m1.labels.push((l@, cond + 2)), ..m1 },
                None => m1,
            };
            let c = lower_expr(w.condition, env, defs, at_block(emit(m2, InstV::Jump(cond)), cond), (fuel - 1) as nat);
            let m4 = c->Ok_0.0;
            &&& grows(m, out.0)
            &&& out.0.blocks[cond as int] == BlockKind::WhileCond
            &&& out.0.blocks[(cond + 1) as int] == BlockKind::WhileBody
            &&& out.0.blocks[(cond + 2) as int] == BlockKind::WhileEnd
            &&& out.0.insts[m.insts.len() as int] == (m.current, InstV::Jump(cond))
            &&& c matches Ok((_, Some(_)))
            &&& m4.insts.len() < out.0.insts.len()
            &&& out.0.insts[m4.insts.len() as int] == (m4.current, InstV::Branch { cond: c->Ok_0.1->0, then_: cond + 1, else_: cond + 2 })
            &&& out.0.insts.last().1 == InstV::Jump(cond)
            &&& out.0.current == cond + 2
            &&& out.1 is None
        }),
{
    let w = (*e.kind)->While_0;
    assert(fuel > 0);
    assert(lower_expr(e, env, defs, m, fuel) == lower_while(w.label, w.condition, w.then_, env, defs, m, fuel));
    lemma_expr_grows(e, env, defs, m, fuel);
    let cond = m.blocks.len();
    let f1 = (fuel - 1) as nat;
    let m1 = add_block(add_block(add_block(m, BlockKind::WhileCond), BlockKind::WhileBody), BlockKind::WhileEnd);
    let m2 = match w.label {
        Some(l) => Model { labels: m1.labels.push((l@, cond + 2)), ..m1 },
        None => m1,
    };
    let m3 = at_block(emit(m2, InstV::Jump(cond)), cond);
    lemma_expr_grows(w.condition, env, defs, m3, f1);
    let (m4, v) = lower_expr(w.condition, env, defs, m3, f1)->Ok_0;
    let m5 = at_block(emit(m4, InstV::Branch { cond: v->0, then_: cond + 1, else_: cond + 2 }), cond + 1);
    lemma_expr_grows(w.then_, env, defs, m5, f1);
    assert(m3.insts[m.insts.len() as int] == (m.current, InstV::Jump(cond)));
    assert(m5.insts[m4.insts.len() as int] == (m4.current, InstV::Branch { cond: v->0, then_: cond + 1, else_: cond + 2 }));
}

/// An `if` creates the block of its condition first, at the index after
/// the blocks there were, then the block of its branch, then, with an
/// `else`, the block of the `else` branch, and the block after it; it jumps
/// into the condition block, where the condition is lowered; the
/// condition's value then branches to the branch's block when it holds and
/// otherwise to the `else` block (without one, past the `if`); what follows
/// goes into the block after the `if`, and an `else` branch ends by
/// jumping there.
pub proof fn lemma_if_shape(e: Expression, env: EnvModel, defs: Seq<Definition>, m: Model, fuel: nat)
    requires
        *e.kind is If,
        lower_expr(e, env, defs, m, fuel) is Ok,
    ensures
        ({
            let c = (*e.kind)->If_0;
            let out = lower_expr(e, env, defs, m, fuel)->Ok_0;
            let cb = m.blocks.len();
            let endb = if c.else_ is Some { cb + 3 } else { cb + 2 };
            let m1 = add_block(add_block(m, BlockKind::IfCond), BlockKind::IfThen);
            let m2 = if c.else_ is Some {
                add_block(add_block(m1, BlockKind::IfElse), BlockKind::IfEnd)
            } else {
                add_block(m1, BlockKind::IfEnd)
            };
            let cv = lower_expr(c.condition, env, defs, at_block(emit(m2, InstV::Jump(cb)), cb), (fuel - 1) as nat);
            let m4 = cv->Ok_0.0;
            &&& grows(m, out.0)
            &&& out.0.blocks[cb as int] == BlockKind::IfCond
            &&& out.0.blocks[(cb + 1) as int] == BlockKind::IfThen
            &&& (c.else_ is Some ==> out.0.blocks[(cb + 2) as int] == BlockKind::IfElse)
            &&& out.0.blocks[endb as int] == BlockKind::IfEnd
            &&& out.0.insts[m.insts.len() as int] == (m.current, InstV::Jump(cb))
            &&& cv matches Ok((_, Some(_)))
            &&& m4.insts.len() < out.0.insts.len()
            &&& out.0.insts[m4.insts.len() as int] == (m4.current, InstV::Branch { cond: cv->Ok_0.1->0, then_: cb + 1, else_: cb + 2 })
            &&& (c.else_ is Some ==> out.0.insts.last().1 == InstV::Jump(endb))
            &&& out.0.current == endb
            &&& out.1 is None
        }),
{
    let c = (*e.kind)->If_0;
    assert(fuel > 0);
    assert(lower_expr(e, env, defs, m, fuel) == lower_if(c.condition, c.then_, c.else_, env, defs, m, fuel));
    lemma_expr_grows(e, env, defs, m, fuel);
    let f1 = (fuel - 1) as nat;
    let cb = m.blocks.len();
    let tb = cb + 1;
    let eb = cb + 2;
    let endb = if c.else_ is Some { cb + 3 } else { cb + 2 };
    let m1 = add_block(add_block(m, BlockKind::IfCond), BlockKind::IfThen);
    let m2 = if c.else_ is Some {
        add_block(add_block(m1, BlockKind::IfElse), BlockKind::IfEnd)
    } else {
        add_block(m1, BlockKind::IfEnd)
    };
    let m3 = at_block(emit(m2, InstV::Jump(cb)), cb);
    lemma_expr_grows(c.condition, env, defs, m3, f1);
    let (m4, v) = lower_expr(c.condition, env, defs, m3, f1)->Ok_0;
    let m5 = at_block(emit(m4, InstV::Branch { cond: v->0, then_: tb, else_: eb }), tb);
    lemma_expr_grows(c.then_, env, defs, m5, f1);
    let m6 = lower_expr(c.then_, env, defs, m5, f1)->Ok_0.0;
    let m7 = if ends_block(m6.insts, tb) {
        m6
    } else {
        emit(m6, InstV::Jump(endb))
    };
    if let Some(x) = c.else_ {
        lemma_expr_grows(x, env, defs, at_block(m7, eb), f1);
    }
    assert(m3.insts[m.insts.len() as int] == (m.current, InstV::Jump(cb)));
    assert(m5.insts[m4.insts.len() as int] == (m4.current, InstV::Branch { cond: v->0, then_: tb, else_: eb }));
}

} // verus!
