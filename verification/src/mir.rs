//! The IR the interpreter executes: control-flow graphs of basic blocks
//! holding typed three-address statements and a terminator, plus the program
//! description the front-end hands over (types, layouts, adts, bodies,
//! vtable descriptions and the target record).

use vstd::prelude::*;
use crate::primval::{BinOp, UnOp};
use crate::ty::{AdtDef, TyDesc, TyId};
use crate::memory::TargetDataLayout;

verus! {

/// A place in the frame or memory.
#[derive(Debug)]
pub enum Lvalue {
    /// The current frame's return slot.
    ReturnPointer,
    /// The i-th argument local.
    Arg(usize),
    /// The i-th variable local.
    Var(usize),
    /// The i-th temporary local.
    Temp(usize),
    /// A static item, by definition id.
    Static(u64),
    Projection(Box<Projection>),
}

#[derive(Debug)]
pub struct Projection {
    pub base: Lvalue,
    /// The type of `base`, as the front-end lowered it.
    pub ty: TyId,
    pub elem: ProjectionElem,
}

#[derive(Debug)]
pub enum ProjectionElem {
    /// Follow the pointer stored at the base.
    Deref,
    /// The i-th field, at the offset the base type's layout dictates.
    Field(usize),
    /// Fix the active variant of a sum type.
    Downcast(usize),
    /// Element selection with a run-time index.
    Index(Operand),
    /// Unsupported: reported as a classified error.
    ConstantIndex,
    /// Unsupported: reported as a classified error.
    Subslice,
}

#[derive(Debug)]
pub enum Operand {
    /// A place and its type.
    Consume(Lvalue, TyId),
    Constant(Constant),
}

#[derive(Debug)]
pub struct Constant {
    pub ty: TyId,
    pub span: usize,
    pub literal: Literal,
}

#[derive(Debug)]
pub enum Literal {
    /// A value the front-end already computed.
    Value(ConstVal),
    /// A global item: a static, constant or associated constant.
    Item { def_id: u64, substs: u64 },
    /// A constant the front-end extracted from the enclosing body.
    Promoted(usize),
}

#[derive(Debug)]
pub enum ConstVal {
    Bool(bool),
    Char(u32),
    /// A signed integer and its byte count.
    Int(i64, usize),
    /// An unsigned integer and its byte count.
    Uint(u64, usize),
    F32Bits(u32),
    F64Bits(u64),
    /// A UTF-8 string, stored behind a fat pointer.
    Str(Vec<u8>),
    /// A byte string, stored behind a thin pointer.
    ByteStr(Vec<u8>),
}

#[derive(Clone, Copy, Debug, PartialEq, Eq, Structural)]
pub enum CastKind {
    /// Thin-to-thin numeric or pointer cast, fat-to-fat copy, fat-to-thin
    /// extraction.
    Misc,
    /// Sized-to-unsized pointer coercion: compute the metadata word.
    Unsize,
    /// Mint a function pointer from a function item.
    ReifyFnPointer,
    /// Re-tag a function pointer with an unsafe function type.
    UnsafeFnPointer,
}

#[derive(Clone, Copy, Debug, PartialEq, Eq, Structural)]
pub enum AggregateKind {
    Tuple,
    Array,
    /// `(adt index, variant index)`.
    Adt(usize, usize),
}

#[derive(Debug)]
pub enum Rvalue {
    Use(Operand),
    /// The overflow bit is dropped; the front-end inserts its own checks.
    BinaryOp(BinOp, Operand, Operand),
    /// Additionally writes the overflow bit into the destination tuple's
    /// second field.
    CheckedBinaryOp(BinOp, Operand, Operand),
    UnaryOp(UnOp, Operand),
    Aggregate(AggregateKind, Vec<Operand>),
    Repeat(Operand, usize),
    /// The length of the array or slice at the place (of the given type).
    Len(Lvalue, TyId),
    Ref(Lvalue),
    /// Allocate heap storage for the given type and store the pointer.
    BoxAlloc(TyId),
    Cast(CastKind, Operand, TyId),
    /// Unsupported: reported as a classified error.
    InlineAsm,
}

#[derive(Debug)]
pub struct Statement {
    pub span: usize,
    pub lvalue: Lvalue,
    /// The type of the assigned place.
    pub ty: TyId,
    pub rvalue: Rvalue,
}

#[derive(Debug)]
pub enum Terminator {
    Goto { target: usize },
    /// Branch on a boolean.
    If { cond: Operand, then_target: usize, else_target: usize },
    /// Branch on an integer of `discr_size` bytes; the last target is the
    /// "otherwise" edge.
    SwitchInt { discr: Lvalue, discr_size: usize, values: Vec<u64>, targets: Vec<usize> },
    /// Branch on an enum's active variant; one target per variant.
    Switch { discr: Lvalue, ty: TyId, targets: Vec<usize> },
    Return,
    Call { func: Operand, args: Vec<Operand>, destination: Option<(Lvalue, usize)> },
    /// Drop elaboration is assumed already performed; only the edge remains.
    Drop { target: usize },
    Unreachable,
}

#[derive(Debug)]
pub struct BasicBlock {
    pub statements: Vec<Statement>,
    pub terminator: Terminator,
    pub span: usize,
}

/// One function body: a control-flow graph plus the types of its locals,
/// laid out as arguments, then variables, then temporaries.
#[derive(Debug)]
pub struct Mir {
    pub basic_blocks: Vec<BasicBlock>,
    pub promoted: Vec<Mir>,
    pub arg_tys: Vec<TyId>,
    pub var_tys: Vec<TyId>,
    pub temp_tys: Vec<TyId>,
    pub return_ty: TyId,
    pub span: usize,
}

/// What a definition id resolves to when called.
#[derive(Clone, Copy, Debug, PartialEq, Eq, Structural)]
pub enum DefKind {
    /// An IR body, by index into the program's body table.
    Body(usize),
    Intrinsic(Intrinsic),
    /// A foreign (C ABI) function: calling it is a classified failure.
    Foreign,
}

#[derive(Clone, Copy, Debug, PartialEq, Eq, Structural)]
pub enum Intrinsic {
    /// Reinterpret the argument's bytes as the return type.
    Transmute,
}

#[derive(Clone, Copy, Debug, PartialEq, Eq, Structural)]
pub struct DefEntry {
    pub def_id: u64,
    pub kind: DefKind,
}

/// The method table to build for a coercion of `self_ty` to the trait
/// object of `trait_id`: each method as `(def_id, substs, fn_ty)`.
#[derive(Debug)]
pub struct VtableDesc {
    pub self_ty: TyId,
    pub trait_id: u64,
    pub methods: Vec<(u64, u64, TyId)>,
}

/// Everything the front-end provides: the typed IR plus the type/layout
/// oracle and the target record.
#[derive(Debug)]
pub struct Program {
    pub types: Vec<TyDesc>,
    pub adts: Vec<AdtDef>,
    pub defs: Vec<DefEntry>,
    pub bodies: Vec<Mir>,
    pub vtables: Vec<VtableDesc>,
    pub layout: TargetDataLayout,
}

} // verus!
