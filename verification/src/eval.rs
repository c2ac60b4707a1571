//! The evaluator: the frame stack, place and operand evaluation, rvalue
//! assignment, casts, the vtable builder, the single-step driver with its
//! constant extractor, and the top-level entry point.

use vstd::prelude::*;
use crate::error::{EvalError, EvalResult, Unsupported};
use crate::memory::{AllocId, Memory, Pointer, zst_alloc_id};
use crate::mir::{
    AggregateKind, BasicBlock, CastKind, ConstVal, Constant, DefEntry, DefKind, Intrinsic,
    Literal, Lvalue, Mir, Operand, Program, ProjectionElem, Rvalue, Statement, Terminator,
};
use crate::primval::{BinOp, PrimVal, UnOp};
use crate::ty::{IntWidth, LayoutShape, StructLayout, Ty, TyDesc, TyId, UintWidth};

verus! {

/// Which body a frame runs: one of the program's bodies, or the `i`-th
/// promoted constant extracted from one of them.
#[derive(Clone, Copy, Debug, PartialEq, Eq, Structural)]
pub enum CachedMir {
    Ref(usize),
    Promoted(usize, usize),
}

/// What happens when a frame is popped.
#[derive(Clone, Copy, Debug, PartialEq, Eq, Structural)]
pub enum StackPopCleanup {
    /// The frame computed a static's initial value: seal it read-only.
    Freeze(AllocId),
    /// An ordinary call: continue at this block of the caller.
    Goto(usize),
    /// The entry frame (or a diverging call): nowhere to return to.
    Nothing,
}

/// Uniquely identifies a constant, static or promoted.
#[derive(Clone, Copy, Debug, PartialEq, Eq, Structural)]
pub struct ConstantId {
    /// The constant's own definition, or for promoteds the definition of the
    /// function they were extracted from.
    pub def_id: u64,
    pub substs: u64,
    pub kind: ConstantKind,
}

#[derive(Clone, Copy, Debug, PartialEq, Eq, Structural)]
pub enum ConstantKind {
    Promoted(usize),
    Global,
}

/// A stack frame.
#[derive(Debug)]
pub struct Frame {
    pub mir: CachedMir,
    pub def_id: u64,
    pub substs: u64,
    pub span: usize,
    /// Where to write the return value, if the call does not diverge.
    pub return_ptr: Option<Pointer>,
    pub return_to_block: StackPopCleanup,
    /// Pointers to the locals, ordered arguments, variables, temporaries.
    pub locals: Vec<Pointer>,
    pub var_offset: usize,
    pub temp_offset: usize,
    pub block: usize,
    pub stmt: usize,
}

/// A computed place: an address plus what extra the fat pointer carried.
#[derive(Clone, Copy, Debug, PartialEq, Eq, Structural)]
pub struct Place {
    pub ptr: Pointer,
    pub extra: PlaceExtra,
}

#[derive(Clone, Copy, Debug, PartialEq, Eq, Structural)]
pub enum PlaceExtra {
    Nothing,
    Length(u64),
    Vtable(Pointer),
    DowncastVariant(usize),
}

/// The result of moving a pointer forward by `off` bytes.
pub open spec fn spec_ptr_add(p: Pointer, off: nat) -> EvalResult<Pointer> {
    if p.offset + off <= usize::MAX {
        Ok(Pointer { alloc_id: p.alloc_id, offset: (p.offset + off) as usize })
    } else {
        Err(EvalError::Unimplemented(Unsupported::ValueDoesNotFit))
    }
}

/// The first constant-cache hit for a key, scanning from the front.
pub open spec fn statics_lookup(s: Seq<(ConstantId, Pointer)>, cid: ConstantId) -> Option<Pointer>
    decreases s.len(),
{
    if s.len() == 0 {
        None
    } else if s[0].0 == cid {
        Some(s[0].1)
    } else {
        statics_lookup(s.drop_first(), cid)
    }
}

/// Every key the cache answered before, it still answers the same way:
/// constants are computed once and cached forever.
pub open spec fn statics_preserved(
    pre: Seq<(ConstantId, Pointer)>,
    post: Seq<(ConstantId, Pointer)>,
) -> bool {
    forall|cid: ConstantId|
        (#[trigger] statics_lookup(pre, cid)) is Some ==> statics_lookup(post, cid)
            == statics_lookup(pre, cid)
}

proof fn lemma_statics_push(s: Seq<(ConstantId, Pointer)>, e: (ConstantId, Pointer))
    ensures
        statics_preserved(s, s.push(e)),
        forall|cid: ConstantId|
            e.0 != cid ==> #[trigger] statics_lookup(s.push(e), cid) == statics_lookup(s, cid),
        statics_lookup(s, e.0) is None ==> statics_lookup(s.push(e), e.0) == Some(e.1),
{
    assert forall|cid: ConstantId| (#[trigger] statics_lookup(s, cid)) is Some implies
        statics_lookup(s.push(e), cid) == statics_lookup(s, cid) by {
        lemma_statics_push_one(s, e, cid);
    }
    assert forall|cid: ConstantId| e.0 != cid implies #[trigger] statics_lookup(s.push(e), cid)
        == statics_lookup(s, cid) by {
        lemma_statics_push_one(s, e, cid);
    }
    lemma_statics_push_one(s, e, e.0);
}

proof fn lemma_statics_push_one(
    s: Seq<(ConstantId, Pointer)>,
    e: (ConstantId, Pointer),
    cid: ConstantId,
)
    ensures
        statics_lookup(s, cid) is Some ==> statics_lookup(s.push(e), cid) == statics_lookup(
            s,
            cid,
        ),
        e.0 != cid ==> statics_lookup(s.push(e), cid) == statics_lookup(s, cid),
        statics_lookup(s, cid) is None && e.0 == cid ==> statics_lookup(s.push(e), cid) == Some(
            e.1,
        ),
    decreases s.len(),
{
    if s.len() == 0 {
        assert(s.push(e).len() == 1);
        assert(s.push(e)[0] == e);
        assert(s.push(e).drop_first() =~= Seq::<(ConstantId, Pointer)>::empty());
        if e.0 == cid {
            assert(statics_lookup(s.push(e), cid) == Some(e.1));
        } else {
            assert(statics_lookup(s.push(e), cid) == statics_lookup(
                s.push(e).drop_first(),
                cid,
            ));
            assert(statics_lookup(s.push(e), cid) is None);
        }
    } else {
        assert(s.push(e)[0] == s[0]);
        assert(s.push(e).drop_first() =~= s.drop_first().push(e));
        lemma_statics_push_one(s.drop_first(), e, cid);
        if s[0].0 == cid {
            assert(statics_lookup(s, cid) == Some(s[0].1));
            assert(statics_lookup(s.push(e), cid) == Some(s[0].1));
        } else {
            assert(statics_lookup(s, cid) == statics_lookup(s.drop_first(), cid));
            assert(statics_lookup(s.push(e), cid) == statics_lookup(
                s.drop_first().push(e),
                cid,
            ));
        }
    }
}

/// The interpreter's mutable state: virtual memory, the constant cache and
/// the frame stack.
pub struct Machine {
    pub memory: Memory,
    pub statics: Vec<(ConstantId, Pointer)>,
    pub stack: Vec<Frame>,
    pub stack_limit: usize,
}

impl Machine {
    pub open spec fn inv(&self) -> bool {
        self.memory.inv()
    }

    /// What every evaluation step preserves: the memory invariant, the
    /// target description, the configured limits, and every constant-cache
    /// answer given so far.
    pub open spec fn evolves_to(&self, post: &Machine) -> bool {
        &&& post.inv()
        &&& post.memory.layout_spec() == self.memory.layout_spec()
        &&& post.memory.size_spec() == self.memory.size_spec()
        &&& post.stack_limit == self.stack_limit
        &&& statics_preserved(self.statics@, post.statics@)
    }

    /// Look a constant up in the cache.
    #[verifier::loop_isolation(false)]
    pub fn lookup_constant(&self, cid: ConstantId) -> (r: Option<Pointer>)
        ensures
            r == statics_lookup(self.statics@, cid),
    {
        let n = self.statics.len();
        proof {
            assert(self.statics@.skip(0) =~= self.statics@);
        }
        let mut i: usize = 0;
        while i < n
            invariant
                i <= n,
                statics_lookup(self.statics@, cid) == statics_lookup(
                    self.statics@.skip(i as int),
                    cid,
                ),
            decreases n - i,
        {
            let (key, ptr) = self.statics[i];
            proof {
                assert(self.statics@.skip(i as int)[0] == self.statics@[i as int]);
                assert(self.statics@.skip(i as int).drop_first() =~= self.statics@.skip(i + 1));
            }
            if key.def_id == cid.def_id && key.substs == cid.substs && match (key.kind, cid.kind) {
                (ConstantKind::Global, ConstantKind::Global) => true,
                (ConstantKind::Promoted(a), ConstantKind::Promoted(b)) => a == b,
                _ => false,
            } {
                proof {
                    assert(key == cid);
                }
                return Some(ptr);
            }
            i = i + 1;
        }
        proof {
            assert(self.statics@.skip(n as int) =~= Seq::<(ConstantId, Pointer)>::empty());
        }
        None
    }

    /// Record a freshly allocated slot for a constant.
    fn cache_constant(&mut self, cid: ConstantId, ptr: Pointer)
        ensures
            final(self).memory == old(self).memory,
            final(self).stack == old(self).stack,
            final(self).stack_limit == old(self).stack_limit,
            final(self).statics@ == old(self).statics@.push((cid, ptr)),
            statics_preserved(old(self).statics@, final(self).statics@),
            statics_lookup(old(self).statics@, cid) is None ==> statics_lookup(
                final(self).statics@,
                cid,
            ) == Some(ptr),
    {
        proof {
            lemma_statics_push(self.statics@, (cid, ptr));
        }
        self.statics.push((cid, ptr));
    }
}

/// The place the current frame's return slot designates.
pub open spec fn spec_return_place(m: Machine) -> EvalResult<Place> {
    if m.stack@.len() == 0 {
        Err(EvalError::Unimplemented(Unsupported::MalformedProgram))
    } else {
        match m.stack@.last().return_ptr {
            Some(p) => Ok(Place { ptr: p, extra: PlaceExtra::Nothing }),
            None => Err(EvalError::Unimplemented(Unsupported::MalformedProgram)),
        }
    }
}

/// The place the `i`-th local of the given section (0 = arguments, 1 =
/// variables, 2 = temporaries) of the current frame designates.
pub open spec fn spec_local_place(m: Machine, section: int, i: int) -> EvalResult<Place> {
    if m.stack@.len() == 0 {
        Err(EvalError::Unimplemented(Unsupported::MalformedProgram))
    } else {
        let f = m.stack@.last();
        let base = if section == 0 {
            0int
        } else if section == 1 {
            f.var_offset as int
        } else {
            f.temp_offset as int
        };
        if base + i < f.locals@.len() {
            Ok(Place { ptr: f.locals@[base + i], extra: PlaceExtra::Nothing })
        } else {
            Err(EvalError::Unimplemented(Unsupported::MalformedProgram))
        }
    }
}

/// The place a static designates: its cached slot.
pub open spec fn spec_static_place(m: Machine, def_id: u64) -> EvalResult<Place> {
    match statics_lookup(
        m.statics@,
        ConstantId { def_id, substs: 0, kind: ConstantKind::Global },
    ) {
        Some(p) => Ok(Place { ptr: p, extra: PlaceExtra::Nothing }),
        None => Err(EvalError::Unimplemented(Unsupported::ConstantNotCached)),
    }
}

/// What a non-projection place designator resolves to; `None` for
/// projections, whose result is built by the projection helpers.
pub open spec fn spec_designator(m: Machine, lv: Lvalue) -> Option<EvalResult<Place>> {
    match lv {
        Lvalue::ReturnPointer => Some(spec_return_place(m)),
        Lvalue::Arg(i) => Some(spec_local_place(m, 0, i as int)),
        Lvalue::Var(i) => Some(spec_local_place(m, 1, i as int)),
        Lvalue::Temp(i) => Some(spec_local_place(m, 2, i as int)),
        Lvalue::Static(d) => Some(spec_static_place(m, d)),
        Lvalue::Projection(_) => None,
    }
}

/// What a global-item operand answers: the canonical zero-sized pointer for
/// a function item, else the constant cache's entry for the key.
pub open spec fn spec_item_operand(
    prog: Program,
    m: Machine,
    ty: TyId,
    def_id: u64,
    substs: u64,
) -> EvalResult<Pointer> {
    if ty >= prog.types@.len() {
        Err(EvalError::Unimplemented(Unsupported::MalformedProgram))
    } else if prog.types@[ty as int].ty is FnDef {
        Ok(Pointer { alloc_id: zst_alloc_id(), offset: 0 })
    } else {
        match statics_lookup(
            m.statics@,
            ConstantId { def_id, substs, kind: ConstantKind::Global },
        ) {
            Some(p) => Ok(p),
            None => Err(EvalError::Unimplemented(Unsupported::ConstantNotCached)),
        }
    }
}

/// What a promoted operand answers: the cache's entry under the current
/// frame's definition and substitutions.
pub open spec fn spec_promoted_operand(m: Machine, index: usize) -> EvalResult<Pointer> {
    if m.stack@.len() == 0 {
        Err(EvalError::Unimplemented(Unsupported::MalformedProgram))
    } else {
        match statics_lookup(
            m.statics@,
            ConstantId {
                def_id: m.stack@.last().def_id,
                substs: m.stack@.last().substs,
                kind: ConstantKind::Promoted(index),
            },
        ) {
            Some(p) => Ok(p),
            None => Err(EvalError::Unimplemented(Unsupported::ConstantNotCached)),
        }
    }
}

/// Collapsing an evaluated place to a flat pointer.
pub open spec fn spec_place_to_ptr(res: EvalResult<Place>) -> EvalResult<Pointer> {
    match res {
        Ok(pl) => if pl.extra is Nothing {
            Ok(pl.ptr)
        } else {
            Err(EvalError::Unimplemented(Unsupported::FatPointerRead))
        },
        Err(e) => Err(e),
    }
}

/// A literal unsigned-integer operand whose declared type matches its
/// width: the value and its byte count.
pub open spec fn spec_uint_const(prog: Program, psize: nat, op: Operand) -> Option<(u64, nat)> {
    match op {
        Operand::Constant(c) => match c.literal {
            Literal::Value(v) => match v {
                ConstVal::Uint(u, size) => if c.ty < prog.types@.len() && (match prog.types@[
                    c.ty as int
                ].ty {
                    Ty::Uint(w) => (match w {
                        UintWidth::U8 => 1nat,
                        UintWidth::U16 => 2nat,
                        UintWidth::U32 => 4nat,
                        UintWidth::U64 => 8nat,
                        UintWidth::USize => psize,
                    }) == size,
                    _ => false,
                }) && crate::endian::valid_int_size(size as nat) {
                    Some((u, size as nat))
                } else {
                    None
                },
                _ => None,
            },
            _ => None,
        },
        _ => None,
    }
}

/// The edge an integer switch takes: the first matching value's target,
/// else the final "otherwise" target.
pub open spec fn spec_switch_pick(values: Seq<u64>, targets: Seq<usize>, v: u64, i: int) -> usize
    decreases values.len() - i,
{
    if i < 0 || i >= values.len() {
        targets[values.len() as int]
    } else if values[i] == v {
        targets[i]
    } else {
        spec_switch_pick(values, targets, v, i + 1)
    }
}

/// A literal boolean operand's value.
pub open spec fn spec_bool_const(op: Operand) -> Option<bool> {
    match op {
        Operand::Constant(c) => match c.literal {
            Literal::Value(v) => match v {
                ConstVal::Bool(b) => Some(b),
                _ => None,
            },
            _ => None,
        },
        _ => None,
    }
}

/// The numeric reading of a castable primitive.
pub open spec fn spec_numeric(v: PrimVal) -> Option<int> {
    match v {
        PrimVal::Bool(b) => Some(
            if b {
                1int
            } else {
                0int
            },
        ),
        PrimVal::Char(c) => Some(c as int),
        PrimVal::IntegerPtr(n) => Some(n as int),
        PrimVal::I8(_) | PrimVal::I16(_) | PrimVal::I32(_) | PrimVal::I64(_) | PrimVal::U8(_)
            | PrimVal::U16(_) | PrimVal::U32(_) | PrimVal::U64(_) => Some(
            crate::primval::int_val(v),
        ),
        _ => None,
    }
}

/// What one projection step over an already-resolved base yields; `None`
/// for run-time indexing, whose operand is evaluated separately.
pub open spec fn spec_project_step(
    mem: Memory,
    prog: Program,
    bres: EvalResult<Place>,
    ty: TyId,
    elem: ProjectionElem,
) -> Option<EvalResult<Place>> {
    match bres {
        Err(e) => Some(Err(e)),
        Ok(base) => if ty >= prog.types@.len() {
            Some(Err(EvalError::Unimplemented(Unsupported::MalformedProgram)))
        } else {
            let desc = prog.types@[ty as int];
            match elem {
                ProjectionElem::Field(f) => Some(
                    spec_project_field(
                        desc,
                        mem.layout_spec().pointer_size as nat,
                        base,
                        f as int,
                    ),
                ),
                ProjectionElem::Downcast(v) => Some(spec_project_downcast(desc, base, v as int)),
                ProjectionElem::Deref => match desc.ty.spec_pointee() {
                    None => Some(Err(EvalError::Unimplemented(Unsupported::MalformedProgram))),
                    Some(t) => if t >= prog.types@.len() {
                        Some(Err(EvalError::Unimplemented(Unsupported::MalformedProgram)))
                    } else {
                        Some(spec_deref_place(mem, base.ptr, prog.types@[t as int].ty))
                    },
                },
                ProjectionElem::ConstantIndex => Some(
                    Err(EvalError::Unimplemented(Unsupported::ConstantIndexProjection)),
                ),
                ProjectionElem::Subslice => Some(
                    Err(EvalError::Unimplemented(Unsupported::SubsliceProjection)),
                ),
                ProjectionElem::Index(_) => None,
            }
        },
    }
}

/// The flat destination pointer a plain-place designator names.
pub open spec fn spec_dest(m: Machine, lv: Lvalue) -> Option<Pointer> {
    match spec_designator(m, lv) {
        Some(res) => match res {
            Ok(pl) => if pl.extra is Nothing {
                Some(pl.ptr)
            } else {
                None
            },
            Err(_) => None,
        },
        None => None,
    }
}

/// The source a plain-place operand consumes: its address and type.
pub open spec fn spec_leaf_consume_src(m: Machine, op: Operand) -> Option<(Pointer, TyId)> {
    match op {
        Operand::Consume(lv, t) => match spec_designator(m, lv) {
            Some(res) => match res {
                Ok(pl) => if pl.extra is Nothing {
                    Some((pl.ptr, t))
                } else {
                    None
                },
                Err(_) => None,
            },
            None => None,
        },
        _ => None,
    }
}

/// Whether evaluating the operand can change the machine: only lowering a
/// front-end literal allocates fresh storage; everything else reads.
pub open spec fn operand_mutates(op: Operand) -> bool
    decreases op,
{
    match op {
        Operand::Consume(lv, _) => lvalue_mutates(lv),
        Operand::Constant(c) => c.literal is Value,
    }
}

/// Whether the constant extractor has anything to look at in the operand: a
/// global item, a promoted, or a place that mentions one.
pub open spec fn operand_extracts(op: Operand) -> bool
    decreases op,
{
    match op {
        Operand::Consume(lv, _) => lvalue_extracts(lv),
        Operand::Constant(c) => c.literal is Item || c.literal is Promoted,
    }
}

/// Whether the place designator mentions a static or an index operand the
/// extractor must visit.
pub open spec fn lvalue_extracts(lv: Lvalue) -> bool
    decreases lv,
{
    match lv {
        Lvalue::Static(_) => true,
        Lvalue::Projection(p) => lvalue_extracts(p.base) || (match p.elem {
            ProjectionElem::Index(op) => operand_extracts(op),
            _ => false,
        }),
        _ => false,
    }
}

/// Whether the rvalue mentions anything the extractor must visit.
pub open spec fn rvalue_extracts(rv: Rvalue) -> bool
    decreases rv,
{
    match rv {
        Rvalue::Use(op) => operand_extracts(op),
        Rvalue::BinaryOp(_, a, b) => operand_extracts(a) || operand_extracts(b),
        Rvalue::CheckedBinaryOp(_, a, b) => operand_extracts(a) || operand_extracts(b),
        Rvalue::UnaryOp(_, op) => operand_extracts(op),
        Rvalue::Aggregate(_, ops) => exists|i: int|
            0 <= i < ops@.len() && operand_extracts(#[trigger] ops@[i]),
        Rvalue::Repeat(op, _) => operand_extracts(op),
        Rvalue::Len(lv, _) => lvalue_extracts(lv),
        Rvalue::Ref(lv) => lvalue_extracts(lv),
        Rvalue::Cast(_, op, _) => operand_extracts(op),
        Rvalue::BoxAlloc(_) => false,
        Rvalue::InlineAsm => false,
    }
}

/// Whether the terminator mentions anything the extractor must visit.
pub open spec fn terminator_extracts(term: Terminator) -> bool {
    match term {
        Terminator::If { cond, .. } => operand_extracts(cond),
        Terminator::SwitchInt { discr, .. } => lvalue_extracts(discr),
        Terminator::Switch { discr, .. } => lvalue_extracts(discr),
        Terminator::Call { func, args, destination } => operand_extracts(func) || (exists|i: int|
            0 <= i < args@.len() && operand_extracts(#[trigger] args@[i])) || (match destination {
            Some((lv, _)) => lvalue_extracts(lv),
            None => false,
        }),
        _ => false,
    }
}

/// Whether evaluating the place designator can change the machine.
pub open spec fn lvalue_mutates(lv: Lvalue) -> bool
    decreases lv,
{
    match lv {
        Lvalue::Projection(p) => lvalue_mutates(p.base) || (match p.elem {
            ProjectionElem::Index(op) => operand_mutates(op),
            _ => false,
        }),
        _ => false,
    }
}

/// The address of field `field` of a place whose type has this descriptor.
pub open spec fn spec_project_field(desc: TyDesc, psize: nat, base: Place, field: int) -> EvalResult<
    Place,
> {
    match desc.shape {
        LayoutShape::Univariant(v) => if 0 <= field < v.field_offsets@.len() {
            match spec_ptr_add(base.ptr, v.field_offsets@[field] as nat) {
                Ok(p) => Ok(Place { ptr: p, extra: PlaceExtra::Nothing }),
                Err(e) => Err(e),
            }
        } else {
            Err(EvalError::Unimplemented(Unsupported::MalformedProgram))
        },
        LayoutShape::General { discr_size, variants } => match base.extra {
            PlaceExtra::DowncastVariant(vi) => if vi < variants@.len() && 0 <= field
                < variants@[vi as int].field_offsets@.len() && variants@[
                vi as int
            ].field_offsets@[field] >= discr_size {
                match spec_ptr_add(
                    base.ptr,
                    (variants@[vi as int].field_offsets@[field] - discr_size) as nat,
                ) {
                    Ok(p) => Ok(Place { ptr: p, extra: PlaceExtra::Nothing }),
                    Err(e) => Err(e),
                }
            } else {
                Err(EvalError::Unimplemented(Unsupported::MalformedProgram))
            },
            _ => Err(EvalError::Unimplemented(Unsupported::MalformedProgram)),
        },
        LayoutShape::RawNullablePointer { .. } => if field == 0 {
            Ok(base)
        } else {
            Err(EvalError::Unimplemented(Unsupported::MalformedProgram))
        },
        LayoutShape::StructWrappedNullablePointer { nonnull, .. } => if 0 <= field
            < nonnull.field_offsets@.len() {
            match spec_ptr_add(base.ptr, nonnull.field_offsets@[field] as nat) {
                Ok(p) => Ok(Place { ptr: p, extra: PlaceExtra::Nothing }),
                Err(e) => Err(e),
            }
        } else {
            Err(EvalError::Unimplemented(Unsupported::MalformedProgram))
        },
        LayoutShape::FatPointer => if field == 0 {
            Ok(Place { ptr: base.ptr, extra: PlaceExtra::Nothing })
        } else if field == 1 {
            match spec_ptr_add(base.ptr, psize) {
                Ok(p) => Ok(Place { ptr: p, extra: PlaceExtra::Nothing }),
                Err(e) => Err(e),
            }
        } else {
            Err(EvalError::Unimplemented(Unsupported::MalformedProgram))
        },
        _ => Err(EvalError::Unimplemented(Unsupported::MalformedProgram)),
    }
}

/// The place a variant downcast fixes: past the discriminant for a general
/// enum, the base itself for the nullable-pointer shapes.
pub open spec fn spec_project_downcast(desc: TyDesc, base: Place, variant: int) -> EvalResult<
    Place,
> {
    match desc.shape {
        LayoutShape::General { discr_size, .. } => match spec_ptr_add(
            base.ptr,
            discr_size as nat,
        ) {
            Ok(p) => Ok(Place { ptr: p, extra: PlaceExtra::DowncastVariant(variant as usize) }),
            Err(e) => Err(e),
        },
        LayoutShape::RawNullablePointer { .. } | LayoutShape::StructWrappedNullablePointer {
            ..
        } => Ok(base),
        _ => Err(EvalError::Unimplemented(Unsupported::MalformedProgram)),
    }
}

/// The place a dereference reaches: the stored pointer, with the length or
/// vtable word as metadata when the pointee is unsized.
pub open spec fn spec_deref_place(mem: Memory, base: Pointer, pointee: Ty) -> EvalResult<Place> {
    let psize = mem.layout_spec().pointer_size as nat;
    match mem.spec_read_ptr(base) {
        Err(e) => Err(e),
        Ok(p) => if pointee is Slice || pointee is Str {
            match spec_ptr_add(base, psize) {
                Err(e) => Err(e),
                Ok(extra) => match mem.spec_read_uint(extra, psize) {
                    Ok(n) => Ok(Place { ptr: p, extra: PlaceExtra::Length(n) }),
                    Err(e) => Err(e),
                },
            }
        } else if pointee is Trait {
            match spec_ptr_add(base, psize) {
                Err(e) => Err(e),
                Ok(extra) => match mem.spec_read_ptr(extra) {
                    Ok(v) => Ok(Place { ptr: p, extra: PlaceExtra::Vtable(v) }),
                    Err(e) => Err(e),
                },
            }
        } else {
            Ok(Place { ptr: p, extra: PlaceExtra::Nothing })
        },
    }
}

/// A code point the interpreter accepts as a `char`.
pub open spec fn valid_char(c: u64) -> bool {
    c < 0xD800 || (0xE000 <= c && c <= 0x10FFFF)
}

/// What a primitive read returns, for every type whose reading is pure;
/// `None` for a function item, which mints a function pointer instead.
pub open spec fn spec_read_primval(mem: Memory, prog: Program, ptr: Pointer, ty: TyId) -> Option<
    EvalResult<PrimVal>,
> {
    let psize = mem.layout_spec().pointer_size as nat;
    if ty >= prog.types@.len() {
        Some(Err(EvalError::Unimplemented(Unsupported::MalformedProgram)))
    } else {
        let desc = prog.types@[ty as int];
        match desc.ty {
            Ty::Bool => Some(
                match mem.spec_read_bool(ptr) {
                    Ok(b) => Ok(PrimVal::Bool(b)),
                    Err(e) => Err(e),
                },
            ),
            Ty::Char => Some(
                match mem.spec_read_uint(ptr, 4) {
                    Ok(c) => if valid_char(c) {
                        Ok(PrimVal::Char(c as u32))
                    } else {
                        Err(EvalError::InvalidChar(c))
                    },
                    Err(e) => Err(e),
                },
            ),
            Ty::Int(w) => {
                let size: nat = match w {
                    IntWidth::I8 => 1,
                    IntWidth::I16 => 2,
                    IntWidth::I32 => 4,
                    IntWidth::I64 => 8,
                    IntWidth::ISize => psize,
                };
                Some(
                    match mem.spec_read_int(ptr, size) {
                        Ok(v) => Ok(crate::primval::mk_int(8 * size, true, v as int)),
                        Err(e) => Err(e),
                    },
                )
            },
            Ty::Uint(w) => {
                let size: nat = match w {
                    UintWidth::U8 => 1,
                    UintWidth::U16 => 2,
                    UintWidth::U32 => 4,
                    UintWidth::U64 => 8,
                    UintWidth::USize => psize,
                };
                Some(
                    match mem.spec_read_uint(ptr, size) {
                        Ok(v) => Ok(crate::primval::mk_bits(8 * size, false, v)),
                        Err(e) => Err(e),
                    },
                )
            },
            Ty::F32 => Some(
                match mem.spec_read_uint(ptr, 4) {
                    Ok(v) => Ok(PrimVal::F32Bits(v as u32)),
                    Err(e) => Err(e),
                },
            ),
            Ty::F64 => Some(
                match mem.spec_read_uint(ptr, 8) {
                    Ok(v) => Ok(PrimVal::F64Bits(v)),
                    Err(e) => Err(e),
                },
            ),
            Ty::FnDef(_, _, _) => None,
            Ty::FnPtr => Some(
                match mem.spec_read_ptr(ptr) {
                    Ok(p) => Ok(PrimVal::FnPtr(p)),
                    Err(e) => Err(e),
                },
            ),
            Ty::Ref(t) | Ty::RawPtr(t) | Ty::Boxed(t) => if t >= prog.types@.len() {
                Some(Err(EvalError::Unimplemented(Unsupported::MalformedProgram)))
            } else if prog.types@[t as int].ty.spec_is_sized() {
                Some(
                    match mem.spec_read_ptr(ptr) {
                        Ok(p) => Ok(PrimVal::AbstractPtr(p)),
                        Err(e) => if e == EvalError::ReadBytesAsPointer {
                            match mem.spec_read_uint(ptr, psize) {
                                Ok(n) => Ok(PrimVal::IntegerPtr(n)),
                                Err(e2) => Err(e2),
                            }
                        } else {
                            Err(e)
                        },
                    },
                )
            } else {
                Some(Err(EvalError::Unimplemented(Unsupported::FatPointerRead)))
            },
            Ty::Adt(_) => match desc.shape {
                LayoutShape::CEnum { discr_size, signed } => if crate::endian::valid_int_size(
                    discr_size as nat,
                ) {
                    if signed {
                        Some(
                            match mem.spec_read_int(ptr, discr_size as nat) {
                                Ok(v) => Ok(
                                    crate::primval::mk_int(8 * discr_size as nat, true, v as int),
                                ),
                                Err(e) => Err(e),
                            },
                        )
                    } else {
                        Some(
                            match mem.spec_read_uint(ptr, discr_size as nat) {
                                Ok(v) => Ok(
                                    crate::primval::mk_bits(8 * discr_size as nat, false, v),
                                ),
                                Err(e) => Err(e),
                            },
                        )
                    }
                } else {
                    Some(Err(EvalError::Unimplemented(Unsupported::MalformedProgram)))
                },
                _ => Some(Err(EvalError::Unimplemented(Unsupported::PrimitiveRead))),
            },
            _ => Some(Err(EvalError::Unimplemented(Unsupported::PrimitiveRead))),
        }
    }
}

/// Whether a `CachedMir` names a body the program actually holds.
pub open spec fn mir_ok(prog: Program, m: CachedMir) -> bool {
    match m {
        CachedMir::Ref(b) => b < prog.bodies@.len(),
        CachedMir::Promoted(b, i) => b < prog.bodies@.len() && i
            < prog.bodies@[b as int].promoted@.len(),
    }
}

/// The body a valid `CachedMir` names.
pub open spec fn spec_body(prog: Program, m: CachedMir) -> Mir {
    match m {
        CachedMir::Ref(b) => prog.bodies@[b as int],
        CachedMir::Promoted(b, i) => prog.bodies@[b as int].promoted@[i as int],
    }
}

/// The types of a body's locals: arguments, then variables, temporaries.
pub open spec fn spec_local_tys(m: Mir) -> Seq<TyId> {
    m.arg_tys@ + m.var_tys@ + m.temp_tys@
}

/// Whether allocating slots for these types, in order from position `k`
/// with `usage` bytes already taken, stays within the byte budget —
/// mirroring the allocator's own checks.
pub open spec fn spec_locals_fit(
    prog: Program,
    tys: Seq<TyId>,
    k: int,
    usage: int,
    budget: int,
) -> bool
    decreases tys.len() - k,
{
    if k < 0 || k >= tys.len() {
        true
    } else {
        &&& tys[k] < prog.types@.len()
        &&& {
            let d = prog.types@[tys[k] as int];
            &&& d.size + d.align + 63 <= usize::MAX
            &&& (d.size == 0 ==> spec_locals_fit(prog, tys, k + 1, usage, budget))
            &&& (d.size > 0 ==> d.size + d.align <= budget - usage && spec_locals_fit(
                prog,
                tys,
                k + 1,
                usage + d.size + d.align,
                budget,
            ))
        }
    }
}

/// The body a frame's `CachedMir` names.
pub fn cached_mir<'p>(prog: &'p Program, m: CachedMir) -> (r: EvalResult<&'p Mir>)
    ensures
        r matches Ok(mir) ==> (match m {
            CachedMir::Ref(b) => b < prog.bodies@.len() && *mir == prog.bodies@[b as int],
            CachedMir::Promoted(b, i) => b < prog.bodies@.len() && i
                < prog.bodies@[b as int].promoted@.len() && *mir
                == prog.bodies@[b as int].promoted@[i as int],
        }),
        (r matches Ok(_)) <==> (match m {
            CachedMir::Ref(b) => b < prog.bodies@.len(),
            CachedMir::Promoted(b, i) => b < prog.bodies@.len() && i
                < prog.bodies@[b as int].promoted@.len(),
        }),
        r matches Err(e) ==> e == EvalError::Unimplemented(Unsupported::MalformedProgram),
{
    match m {
        CachedMir::Ref(b) => {
            if b < prog.bodies.len() {
                Ok(&prog.bodies[b])
            } else {
                Err(EvalError::Unimplemented(Unsupported::MalformedProgram))
            }
        },
        CachedMir::Promoted(b, i) => {
            if b < prog.bodies.len() {
                let body = &prog.bodies[b];
                if i < body.promoted.len() {
                    Ok(&body.promoted[i])
                } else {
                    Err(EvalError::Unimplemented(Unsupported::MalformedProgram))
                }
            } else {
                Err(EvalError::Unimplemented(Unsupported::MalformedProgram))
            }
        },
    }
}

/// The descriptor of a type.
pub fn type_desc<'p>(prog: &'p Program, ty: TyId) -> (r: EvalResult<&'p TyDesc>)
    ensures
        r matches Ok(d) ==> ty < prog.types@.len() && *d == prog.types@[ty as int],
        (r matches Ok(_)) <==> ty < prog.types@.len(),
        r matches Err(e) ==> e == EvalError::Unimplemented(Unsupported::MalformedProgram),
{
    if ty < prog.types.len() {
        Ok(&prog.types[ty])
    } else {
        Err(EvalError::Unimplemented(Unsupported::MalformedProgram))
    }
}

/// The first definition-table hit for an id, scanning from the front.
pub open spec fn defs_lookup(s: Seq<DefEntry>, def_id: u64) -> Option<DefKind>
    decreases s.len(),
{
    if s.len() == 0 {
        None
    } else if s[0].def_id == def_id {
        Some(s[0].kind)
    } else {
        defs_lookup(s.drop_first(), def_id)
    }
}

/// What resolving a definition answers.
pub open spec fn spec_resolve(prog: Program, def_id: u64) -> EvalResult<DefKind> {
    match defs_lookup(prog.defs@, def_id) {
        Some(k) => Ok(k),
        None => Err(EvalError::MirNotFound(def_id)),
    }
}

/// Resolve a definition id to what calling it means.
#[verifier::loop_isolation(false)]
pub fn resolve_def(prog: &Program, def_id: u64) -> (r: EvalResult<DefKind>)
    ensures
        r == spec_resolve(*prog, def_id),
{
    let n = prog.defs.len();
    proof {
        assert(prog.defs@.skip(0) =~= prog.defs@);
    }
    let mut i: usize = 0;
    while i < n
        invariant
            i <= n,
            defs_lookup(prog.defs@, def_id) == defs_lookup(prog.defs@.skip(i as int), def_id),
        decreases n - i,
    {
        proof {
            assert(prog.defs@.skip(i as int)[0] == prog.defs@[i as int]);
            assert(prog.defs@.skip(i as int).drop_first() =~= prog.defs@.skip(i + 1));
        }
        if prog.defs[i].def_id == def_id {
            return Ok(prog.defs[i].kind);
        }
        i = i + 1;
    }
    proof {
        assert(prog.defs@.skip(n as int) =~= Seq::<DefEntry>::empty());
    }
    Err(EvalError::MirNotFound(def_id))
}

/// The place a variant downcast fixes; see `spec_project_downcast`.
fn project_downcast(desc: &TyDesc, base: Place, variant: usize) -> (r: EvalResult<Place>)
    ensures
        r == spec_project_downcast(*desc, base, variant as int),
{
    match &desc.shape {
        LayoutShape::General { discr_size, .. } => {
            let p = ptr_add(base.ptr, *discr_size)?;
            Ok(Place { ptr: p, extra: PlaceExtra::DowncastVariant(variant) })
        },
        LayoutShape::RawNullablePointer { .. } | LayoutShape::StructWrappedNullablePointer {
            ..
        } => Ok(base),
        _ => Err(EvalError::Unimplemented(Unsupported::MalformedProgram)),
    }
}

/// Move a pointer forward without leaving the address space.
fn ptr_add(p: Pointer, off: usize) -> (r: EvalResult<Pointer>)
    ensures
        r == spec_ptr_add(p, off as nat),
        r matches Ok(q) ==> q.alloc_id == p.alloc_id && q.offset == p.offset + off,
{
    if off > usize::MAX - p.offset {
        Err(EvalError::Unimplemented(Unsupported::ValueDoesNotFit))
    } else {
        Ok(Pointer { alloc_id: p.alloc_id, offset: p.offset + off })
    }
}

impl Machine {
    /// Allocate with the overflow guard the raw allocator demands.
    fn allocate_checked(&mut self, size: usize, align: usize) -> (r: EvalResult<Pointer>)
        requires
            old(self).inv(),
        ensures
            old(self).evolves_to(final(self)),
            crate::memory::preserves_allocs(&old(self).memory, &final(self).memory),
            final(self).stack == old(self).stack,
            final(self).statics == old(self).statics,
            size == 0 && size + align + 63 <= usize::MAX ==> r == Ok::<_, EvalError>(
                Pointer { alloc_id: zst_alloc_id(), offset: 0 },
            ) && *final(self) == *old(self),
            r matches Ok(p) ==> (size == 0 ==> p == (Pointer {
                alloc_id: zst_alloc_id(),
                offset: 0,
            })),
            r matches Ok(p) ==> (size > 0 ==> {
                &&& p.offset == align
                &&& final(self).memory.is_alloc(p.alloc_id)
                &&& !old(self).memory.is_alloc(p.alloc_id)
                &&& p.alloc_id.0 == old(self).memory.entries().len()
                &&& final(self).memory.allocation(p.alloc_id).bytes@.len() == size + align
                &&& final(self).memory.allocation(p.alloc_id).align == align
                &&& !final(self).memory.allocation(p.alloc_id).immutable
                &&& final(self).memory.allocation(p.alloc_id).relocations@ == Seq::new(
                    (size + align) as nat,
                    |i: int| Option::<crate::memory::AllocId>::None,
                )
                &&& final(self).memory.usage_spec() == old(self).memory.usage_spec() + size
                    + align
                &&& (forall|i: int|
                    0 <= i < old(self).memory.entries().len()
                        ==> final(self).memory.entries()[i] == old(self).memory.entries()[i])
            }),
            r matches Ok(_) ==> (size == 0 ==> *final(self) == *old(self)),
            size > 0 && size + align + 63 <= usize::MAX ==> ((r matches Ok(_)) <==> size + align
                <= old(self).memory.size_spec() - old(self).memory.usage_spec()),
            r matches Err(e) ==> e matches EvalError::OutOfMemory { .. } && *final(self) == *old(self),
    {
        if size > usize::MAX - 63 || align > usize::MAX - 63 - size {
            return Err(
                EvalError::OutOfMemory {
                    allocation_size: size,
                    memory_size: self.memory.stats().max_virtual_bytes,
                    memory_usage: self.memory.stats().virtual_bytes_allocated,
                },
            );
        }
        self.memory.allocate(size, align)
    }

    /// Allocate the return slot for a value of the given type.
    pub fn alloc_ret_ptr(&mut self, prog: &Program, ty: TyId) -> (r: EvalResult<Pointer>)
        requires
            old(self).inv(),
        ensures
            old(self).evolves_to(final(self)),
            crate::memory::preserves_allocs(&old(self).memory, &final(self).memory),
            final(self).stack == old(self).stack,
            final(self).statics == old(self).statics,
            ty >= prog.types@.len() ==> r == Err::<Pointer, _>(
                EvalError::Unimplemented(Unsupported::MalformedProgram),
            ) && *final(self) == *old(self),
            r matches Err(e) ==> (e == EvalError::Unimplemented(Unsupported::MalformedProgram)
                || e matches EvalError::OutOfMemory { .. }) && *final(self) == *old(self),
            ty < prog.types@.len() ==> (r matches Ok(p) ==> {
                let d = prog.types@[ty as int];
                &&& (d.size == 0 ==> p == (Pointer { alloc_id: zst_alloc_id(), offset: 0 })
                    && *final(self) == *old(self))
                &&& (d.size > 0 ==> p.offset == d.align && final(self).memory.is_alloc(p.alloc_id)
                    && !old(self).memory.is_alloc(p.alloc_id) && final(self).memory.allocation(
                    p.alloc_id,
                ).bytes@.len() == d.size + d.align)
            }),
    {
        let d = type_desc(prog, ty)?;
        let (size, align) = (d.size, d.align);
        self.allocate_checked(size, align)
    }

    /// Push a frame: allocate every local (arguments, variables and
    /// temporaries, in that order), then check the depth limit. The limit
    /// error fires exactly when this push brought the stack past it.
    #[verifier::loop_isolation(false)]
    pub fn push_stack_frame(
        &mut self,
        prog: &Program,
        def_id: u64,
        span: usize,
        mir: CachedMir,
        substs: u64,
        return_ptr: Option<Pointer>,
        return_to_block: StackPopCleanup,
    ) -> (r: EvalResult<()>)
        requires
            old(self).inv(),
        ensures
            old(self).evolves_to(final(self)),
            final(self).statics == old(self).statics,
            final(self).stack@.len() >= old(self).stack@.len(),
            final(self).stack@.len() <= old(self).stack@.len() + 1,
            forall|i: int|
                0 <= i < old(self).stack@.len() ==> final(self).stack@[i] == old(self).stack@[i],
            // what a pushed frame holds
            final(self).stack@.len() == old(self).stack@.len() + 1 ==> ({
                let f = final(self).stack@.last();
                &&& f.mir == mir
                &&& f.def_id == def_id
                &&& f.substs == substs
                &&& f.span == span
                &&& f.return_ptr == return_ptr
                &&& f.return_to_block == return_to_block
                &&& f.block == 0
                &&& f.stmt == 0
                &&& mir_ok(*prog, mir)
                &&& f.locals@.len() == spec_local_tys(spec_body(*prog, mir)).len()
                &&& f.var_offset == spec_body(*prog, mir).arg_tys@.len()
                &&& f.temp_offset == spec_body(*prog, mir).arg_tys@.len() + spec_body(
                    *prog,
                    mir,
                ).var_tys@.len()
                // every local is a freshly allocated slot of its type's size
                // and alignment (the zero-sized ones share the one canonical
                // pointer); no two sized locals alias
                &&& (forall|i: int|
                    0 <= i < f.locals@.len() ==> #[trigger] spec_local_tys(
                        spec_body(*prog, mir),
                    )[i] < prog.types@.len())
                &&& (forall|i: int|
                    0 <= i < f.locals@.len() && prog.types@[
                        spec_local_tys(spec_body(*prog, mir))[i] as int
                    ].size == 0 ==> #[trigger] f.locals@[i] == (Pointer {
                        alloc_id: zst_alloc_id(),
                        offset: 0,
                    }))
                &&& (forall|i: int|
                    0 <= i < f.locals@.len() && prog.types@[
                        spec_local_tys(spec_body(*prog, mir))[i] as int
                    ].size > 0 ==> (#[trigger] f.locals@[i]).offset == prog.types@[
                        spec_local_tys(spec_body(*prog, mir))[i] as int
                    ].align && final(self).memory.is_alloc(f.locals@[i].alloc_id) && !old(self).memory.is_alloc(f.locals@[i].alloc_id) && final(self).memory.allocation(
                        f.locals@[i].alloc_id,
                    ).bytes@.len() == prog.types@[
                        spec_local_tys(spec_body(*prog, mir))[i] as int
                    ].size + prog.types@[
                        spec_local_tys(spec_body(*prog, mir))[i] as int
                    ].align)
                &&& (forall|i: int, j: int|
                    0 <= i < j < f.locals@.len() && prog.types@[
                        spec_local_tys(spec_body(*prog, mir))[i] as int
                    ].size > 0 && prog.types@[
                        spec_local_tys(spec_body(*prog, mir))[j] as int
                    ].size > 0 ==> (#[trigger] f.locals@[i]).alloc_id != (#[trigger] f.locals@[
                        j
                    ]).alloc_id)
            }),
            r matches Ok(_) ==> final(self).stack@.len() == old(self).stack@.len() + 1
                && final(self).stack@.len() <= old(self).stack_limit,
            // the depth-limit error fires exactly when this push brought the
            // stack past the limit
            (r == Err::<(), EvalError>(EvalError::StackFrameLimitReached)) <==> (final(self).stack@.len() == old(self).stack@.len() + 1 && final(self).stack@.len() > old(self).stack_limit),
            // a failure before the push leaves the stack as it was, and is
            // either the body resolution or an allocation refusal
            r matches Err(e) ==> (e == EvalError::StackFrameLimitReached || ((e
                == EvalError::Unimplemented(Unsupported::MalformedProgram) || e matches
                EvalError::OutOfMemory { .. }) && final(self).stack@ == old(self).stack@)),
            r == Err::<(), EvalError>(EvalError::Unimplemented(Unsupported::MalformedProgram))
                ==> !mir_ok(*prog, mir) || spec_local_tys(spec_body(*prog, mir)).len()
                > usize::MAX || (exists|k: int|
                0 <= k < spec_local_tys(spec_body(*prog, mir)).len() && spec_local_tys(
                    spec_body(*prog, mir),
                )[k] >= prog.types@.len()),
            // success is owed when the body resolves, its locals fit the
            // budget, and the limit is respected
            mir_ok(*prog, mir) && spec_locals_fit(
                *prog,
                spec_local_tys(spec_body(*prog, mir)),
                0,
                old(self).memory.usage_spec() as int,
                old(self).memory.size_spec() as int,
            ) && spec_local_tys(spec_body(*prog, mir)).len() <= usize::MAX && old(self).stack@.len() + 1 <= old(self).stack_limit ==> r matches Ok(_),
    {
        let body = cached_mir(prog, mir)?;
        let num_args = body.arg_tys.len();
        let num_vars = body.var_tys.len();
        let num_temps = body.temp_tys.len();
        if num_args > usize::MAX - num_vars || num_args + num_vars > usize::MAX - num_temps {
            return Err(EvalError::Unimplemented(Unsupported::MalformedProgram));
        }
        let total = num_args + num_vars + num_temps;
        let ghost tys = spec_local_tys(spec_body(*prog, mir));
        let ghost fit = spec_locals_fit(
            *prog,
            tys,
            0,
            old(self).memory.usage_spec() as int,
            old(self).memory.size_spec() as int,
        );
        let mut locals: Vec<Pointer> = Vec::new();
        let mut k: usize = 0;
        while k < total
            invariant
                self.inv(),
                old(self).evolves_to(self),
                crate::memory::preserves_allocs(&old(self).memory, &self.memory),
                self.stack == old(self).stack,
                self.statics == old(self).statics,
                k <= total,
                locals@.len() == k,
                fit ==> spec_locals_fit(
                    *prog,
                    tys,
                    k as int,
                    self.memory.usage_spec() as int,
                    self.memory.size_spec() as int,
                ),
                forall|i: int| 0 <= i < k ==> #[trigger] tys[i] < prog.types@.len(),
                forall|i: int|
                    0 <= i < k && prog.types@[tys[i] as int].size == 0 ==> #[trigger] locals@[i]
                        == (Pointer { alloc_id: zst_alloc_id(), offset: 0 }),
                forall|i: int|
                    0 <= i < k && prog.types@[tys[i] as int].size > 0 ==> (
                    #[trigger] locals@[i]).offset == prog.types@[tys[i] as int].align
                        && self.memory.is_alloc(locals@[i].alloc_id) && !old(self).memory.is_alloc(locals@[i].alloc_id) && self.memory.allocation(
                        locals@[i].alloc_id,
                    ).bytes@.len() == prog.types@[tys[i] as int].size + prog.types@[
                        tys[i] as int
                    ].align && locals@[i].alloc_id.0 < self.memory.entries().len(),
                forall|i: int, j: int|
                    0 <= i < j < k && prog.types@[tys[i] as int].size > 0 && prog.types@[
                        tys[j] as int
                    ].size > 0 ==> (#[trigger] locals@[i]).alloc_id != (#[trigger] locals@[
                        j
                    ]).alloc_id,
            decreases total - k,
        {
            let ty = if k < num_args {
                body.arg_tys[k]
            } else if k < num_args + num_vars {
                body.var_tys[k - num_args]
            } else {
                body.temp_tys[k - num_args - num_vars]
            };
            proof {
                assert(tys[k as int] == ty);
            }
            let d = match type_desc(prog, ty) {
                Ok(d) => d,
                Err(e) => {
                    proof {
                        assert(!fit);
                    }
                    return Err(e);
                },
            };
            let (size, align) = (d.size, d.align);
            let ghost pre_alloc = self.memory;
            let p = match self.allocate_checked(size, align) {
                Ok(p) => p,
                Err(e) => {
                    proof {
                        assert(!fit);
                    }
                    return Err(e);
                },
            };
            locals.push(p);
            proof {
                assert forall|i: int|
                    0 <= i < k + 1 && prog.types@[tys[i] as int].size > 0 implies (
                #[trigger] locals@[i]).offset == prog.types@[tys[i] as int].align
                    && self.memory.is_alloc(locals@[i].alloc_id) && !old(self).memory.is_alloc(
                    locals@[i].alloc_id,
                ) && self.memory.allocation(locals@[i].alloc_id).bytes@.len() == prog.types@[
                    tys[i] as int
                ].size + prog.types@[tys[i] as int].align && locals@[i].alloc_id.0
                    < self.memory.entries().len() by {
                    if i < k {
                        assert(self.memory.entries()[locals@[i].alloc_id.0 as int]
                            == pre_alloc.entries()[locals@[i].alloc_id.0 as int]);
                    }
                }
            }
            k = k + 1;
        }
        self.stack.push(
            Frame {
                mir,
                def_id,
                substs,
                span,
                return_ptr,
                return_to_block,
                locals,
                var_offset: num_args,
                temp_offset: num_args + num_vars,
                block: 0,
                stmt: 0,
            },
        );
        if self.stack.len() > self.stack_limit {
            Err(EvalError::StackFrameLimitReached)
        } else {
            Ok(())
        }
    }

    /// Set the current frame's position.
    fn goto_block(&mut self, block: usize) -> (r: EvalResult<()>)
        requires
            old(self).inv(),
        ensures
            old(self).evolves_to(final(self)),
            final(self).memory == old(self).memory,
            final(self).statics == old(self).statics,
            old(self).stack@.len() == 0 ==> r == Err::<(), _>(
                EvalError::Unimplemented(Unsupported::MalformedProgram),
            ) && *final(self) == *old(self),
            old(self).stack@.len() > 0 ==> r == Ok::<(), EvalError>(()) && final(self).stack@
                == old(self).stack@.update(
                old(self).stack@.len() - 1,
                Frame { block, stmt: 0, ..old(self).stack@.last() },
            ),
    {
        let n = self.stack.len();
        if n == 0 {
            return Err(EvalError::Unimplemented(Unsupported::MalformedProgram));
        }
        let f = &mut self.stack[n - 1];
        f.block = block;
        f.stmt = 0;
        Ok(())
    }

    /// Pop the top frame and apply its cleanup: seal a computed constant,
    /// or continue the caller after its call.
    pub fn pop_stack_frame(&mut self) -> (r: EvalResult<()>)
        requires
            old(self).inv(),
        ensures
            old(self).evolves_to(final(self)),
            final(self).statics == old(self).statics,
            old(self).stack@.len() == 0 ==> r == Err::<(), _>(
                EvalError::Unimplemented(Unsupported::MalformedProgram),
            ) && final(self).memory == old(self).memory && final(self).stack@ == old(self).stack@,
            // the frame always comes off; its cleanup decides the rest
            old(self).stack@.len() > 0 ==> match old(self).stack@.last().return_to_block {
                StackPopCleanup::Freeze(id) => {
                    &&& final(self).stack@ == old(self).stack@.drop_last()
                    &&& ((r matches Ok(_)) <==> old(self).memory.is_alloc(id))
                    &&& (r matches Ok(_) ==> final(self).memory.is_alloc(id) && final(self).memory.allocation(id) == (crate::memory::Allocation {
                        immutable: true,
                        ..old(self).memory.allocation(id)
                    }) && (forall|i: int|
                        0 <= i < old(self).memory.entries().len() && i != id.0
                            ==> final(self).memory.entries()[i] == old(self).memory.entries()[i]))
                },
                StackPopCleanup::Goto(target) => {
                    &&& final(self).memory == old(self).memory
                    &&& ((r matches Ok(_)) <==> old(self).stack@.len() >= 2)
                    // the frame is popped even when no caller remains
                    &&& (r matches Err(_) ==> final(self).stack@ == old(self).stack@.drop_last())
                    &&& (r matches Ok(_) ==> final(self).stack@ == old(self).stack@.drop_last().update(
                        old(self).stack@.len() - 2,
                        Frame {
                            block: target,
                            stmt: 0,
                            ..old(self).stack@[old(self).stack@.len() - 2]
                        },
                    ))
                },
                StackPopCleanup::Nothing => r == Ok::<(), EvalError>(()) && final(self).memory
                    == old(self).memory && final(self).stack@ == old(self).stack@.drop_last(),
            },
    {
        let frame = match self.stack.pop() {
            Some(f) => f,
            None => {
                return Err(EvalError::Unimplemented(Unsupported::MalformedProgram));
            },
        };
        proof {
            assert(old(self).stack@.len() > 0);
            assert(frame == old(self).stack@.last());
            assert(self.stack@ == old(self).stack@.drop_last());
        }
        match frame.return_to_block {
            StackPopCleanup::Freeze(id) => {
                match self.memory.freeze(id) {
                    Ok(_) => Ok(()),
                    Err(e) => Err(e),
                }
            },
            StackPopCleanup::Goto(target) => {
                let n = self.stack.len();
                if n == 0 {
                    return Err(EvalError::Unimplemented(Unsupported::MalformedProgram));
                }
                let f = &mut self.stack[n - 1];
                f.block = target;
                f.stmt = 0;
                Ok(())
            },
            StackPopCleanup::Nothing => Ok(()),
        }
    }
}

/// The byte count of a signed integer width, as a specification.
pub open spec fn iwidth_nat(psize: nat, w: IntWidth) -> nat {
    match w {
        IntWidth::I8 => 1,
        IntWidth::I16 => 2,
        IntWidth::I32 => 4,
        IntWidth::I64 => 8,
        IntWidth::ISize => psize,
    }
}

/// The byte count of an unsigned integer width, as a specification.
pub open spec fn uwidth_nat(psize: nat, w: UintWidth) -> nat {
    match w {
        UintWidth::U8 => 1,
        UintWidth::U16 => 2,
        UintWidth::U32 => 4,
        UintWidth::U64 => 8,
        UintWidth::USize => psize,
    }
}

/// The byte size of a signed integer width on this target.
fn iwidth_size(psize: usize, w: IntWidth) -> (r: usize)
    ensures
        r == match w {
            IntWidth::I8 => 1usize,
            IntWidth::I16 => 2usize,
            IntWidth::I32 => 4usize,
            IntWidth::I64 => 8usize,
            IntWidth::ISize => psize,
        },
{
    match w {
        IntWidth::I8 => 1,
        IntWidth::I16 => 2,
        IntWidth::I32 => 4,
        IntWidth::I64 => 8,
        IntWidth::ISize => psize,
    }
}

/// The byte size of an unsigned integer width on this target.
fn uwidth_size(psize: usize, w: UintWidth) -> (r: usize)
    ensures
        r == match w {
            UintWidth::U8 => 1usize,
            UintWidth::U16 => 2usize,
            UintWidth::U32 => 4usize,
            UintWidth::U64 => 8usize,
            UintWidth::USize => psize,
        },
{
    match w {
        UintWidth::U8 => 1,
        UintWidth::U16 => 2,
        UintWidth::U32 => 4,
        UintWidth::U64 => 8,
        UintWidth::USize => psize,
    }
}

impl Place {
    /// Collapse to a flat pointer; a place still carrying metadata cannot.
    pub fn to_ptr(self) -> (r: EvalResult<Pointer>)
        ensures
            self.extra is Nothing ==> r == Ok::<_, EvalError>(self.ptr),
            !(self.extra is Nothing) ==> r is Err,
    {
        match self.extra {
            PlaceExtra::Nothing => Ok(self.ptr),
            _ => Err(EvalError::Unimplemented(Unsupported::FatPointerRead)),
        }
    }
}

impl Machine {
    /// The data word and the metadata word of a fat pointer slot.
    fn get_fat_ptr(&self, ptr: Pointer) -> (r: EvalResult<(Pointer, Pointer)>)
        ensures
            r matches Ok(p) ==> p.0 == ptr && p.1.alloc_id == ptr.alloc_id && p.1.offset
                == ptr.offset + self.memory.layout_spec().pointer_size,
            (r matches Ok(_)) <==> ptr.offset + self.memory.layout_spec().pointer_size
                <= usize::MAX,
    {
        let extra = ptr_add(ptr, self.memory.pointer_size())?;
        Ok((ptr, extra))
    }

    /// Write a pointer-sized unsigned integer, failing cleanly when the
    /// value does not fit the target's pointer width.
    fn write_usize_checked(&mut self, ptr: Pointer, n: u64) -> (r: EvalResult<()>)
        requires
            old(self).inv(),
        ensures
            old(self).evolves_to(final(self)),
            final(self).memory.entries().len() == old(self).memory.entries().len(),
            forall|i: int|
                0 <= i < old(self).memory.entries().len() && i != ptr.alloc_id.0
                    ==> final(self).memory.entries()[i] == old(self).memory.entries()[i],
            final(self).stack == old(self).stack,
            final(self).statics == old(self).statics,
            r matches Ok(_) ==> final(self).memory.is_alloc(ptr.alloc_id),
            (r matches Ok(_)) <==> ((n as nat) < crate::endian::pow256(old(self).memory.psize())
                && ptr.offset as int % old(self).memory.int_align_spec(
                old(self).memory.psize(),
            ) as int == 0 && old(self).memory.writable(ptr, old(self).memory.psize())),
            r matches Ok(_) ==> final(self).memory.write_effect(
                &old(self).memory,
                ptr,
                crate::endian::target_bytes_of(
                    old(self).memory.layout_spec().endian,
                    n,
                    old(self).memory.psize(),
                ),
                Option::<crate::memory::AllocId>::None,
            ),
    {
        proof {
            crate::endian::lemma_pow256_values();
        }
        let psize = self.memory.pointer_size();
        if psize < 8 {
            let limit: u64 = if psize == 2 {
                0x10000
            } else {
                0x1_0000_0000
            };
            if n >= limit {
                return Err(EvalError::Unimplemented(Unsupported::ValueDoesNotFit));
            }
        }
        self.memory.write_usize(ptr, n)
    }

    /// Write a pointer, failing cleanly when its offset does not fit.
    fn write_ptr_checked(&mut self, dest: Pointer, ptr: Pointer) -> (r: EvalResult<()>)
        requires
            old(self).inv(),
        ensures
            old(self).evolves_to(final(self)),
            final(self).memory.entries().len() == old(self).memory.entries().len(),
            forall|i: int|
                0 <= i < old(self).memory.entries().len() && i != dest.alloc_id.0
                    ==> final(self).memory.entries()[i] == old(self).memory.entries()[i],
            final(self).stack == old(self).stack,
            final(self).statics == old(self).statics,
            r matches Ok(_) ==> final(self).memory.is_alloc(dest.alloc_id),
            (r matches Ok(_)) <==> ((ptr.offset as nat) < crate::endian::pow256(
                old(self).memory.psize(),
            ) && old(self).memory.writable(dest, old(self).memory.psize())),
            r matches Ok(_) ==> final(self).memory.write_effect(
                &old(self).memory,
                dest,
                crate::endian::target_bytes_of(
                    old(self).memory.layout_spec().endian,
                    ptr.offset as u64,
                    old(self).memory.psize(),
                ),
                Some(ptr.alloc_id),
            ),
    {
        proof {
            crate::endian::lemma_pow256_values();
        }
        let psize = self.memory.pointer_size();
        if psize < 8 {
            let limit: usize = if psize == 2 {
                0xffff
            } else {
                0xffff_ffff
            };
            if ptr.offset > limit {
                return Err(EvalError::Unimplemented(Unsupported::ValueDoesNotFit));
            }
        }
        self.memory.write_ptr(dest, ptr)
    }

    /// Fresh storage of `size` bytes holding the unsigned value `val`.
    fn fresh_uint_alloc(&mut self, val: u64, size: usize) -> (r: EvalResult<Pointer>)
        requires
            old(self).inv(),
            crate::endian::valid_int_size(size as nat),
            size == 8 || (val as nat) < crate::endian::pow256(size as nat),
        ensures
            old(self).evolves_to(final(self)),
            crate::memory::preserves_allocs(&old(self).memory, &final(self).memory),
            final(self).stack == old(self).stack,
            final(self).statics == old(self).statics,
            r matches Ok(p) ==> !old(self).memory.is_alloc(p.alloc_id) && final(self).memory.is_alloc(p.alloc_id) && final(self).memory.spec_read_uint(p, size as nat)
                == Ok::<u64, EvalError>(val),
            // success is owed: only the byte budget or a target alignment
            // stricter than the slot's can refuse the literal
            (r matches Ok(_)) <==> (2 * size <= old(self).memory.size_spec() - old(self).memory.usage_spec() && size as int % old(self).memory.int_align_spec(
                size as nat,
            ) as int == 0),
    {
        proof {
            crate::endian::lemma_pow256_values();
        }
        let p = self.allocate_checked(size, size)?;
        self.memory.write_uint(p, val, size)?;
        proof {
            let m = final(self).memory;
            let enc = crate::endian::target_bytes_of(
                m.layout_spec().endian,
                val,
                size as nat,
            );
            assert(m.allocation(p.alloc_id).bytes@.subrange(p.offset as int, p.offset + size)
                =~= enc);
            crate::endian::lemma_target_round_trip(m.layout_spec().endian, val, size as nat);
            assert(m.range_defined(p, size as nat));
            assert(!m.has_reloc_overlapping(p, size as nat));
        }
        Ok(p)
    }

    /// Fresh storage of `size` bytes holding the signed value `val`.
    fn fresh_int_alloc(&mut self, val: i64, size: usize) -> (r: EvalResult<Pointer>)
        requires
            old(self).inv(),
            crate::endian::valid_int_size(size as nat),
            size == 8 || crate::endian::in_signed_range(val as int, size as nat),
        ensures
            old(self).evolves_to(final(self)),
            crate::memory::preserves_allocs(&old(self).memory, &final(self).memory),
            final(self).stack == old(self).stack,
            final(self).statics == old(self).statics,
            r matches Ok(p) ==> !old(self).memory.is_alloc(p.alloc_id) && final(self).memory.is_alloc(p.alloc_id) && final(self).memory.spec_read_int(p, size as nat)
                == Ok::<i64, EvalError>(val),
            (r matches Ok(_)) <==> (2 * size <= old(self).memory.size_spec() - old(self).memory.usage_spec() && size as int % old(self).memory.int_align_spec(
                size as nat,
            ) as int == 0),
    {
        proof {
            crate::endian::lemma_pow256_values();
        }
        let p = self.allocate_checked(size, size)?;
        self.memory.write_int(p, val, size)?;
        proof {
            let m = final(self).memory;
            let u = crate::endian::to_unsigned(val as int, size as nat) as u64;
            let enc = crate::endian::target_bytes_of(m.layout_spec().endian, u, size as nat);
            assert(m.allocation(p.alloc_id).bytes@.subrange(p.offset as int, p.offset + size)
                =~= enc);
            crate::endian::lemma_target_round_trip(m.layout_spec().endian, u, size as nat);
            assert(m.range_defined(p, size as nat));
            assert(!m.has_reloc_overlapping(p, size as nat));
        }
        Ok(p)
    }

    /// Lower a front-end literal into a fresh, initialized allocation.
    pub fn const_to_ptr(&mut self, val: &ConstVal) -> (r: EvalResult<Pointer>)
        requires
            old(self).inv(),
        ensures
            old(self).evolves_to(final(self)),
            crate::memory::preserves_allocs(&old(self).memory, &final(self).memory),
            final(self).stack == old(self).stack,
            final(self).statics == old(self).statics,
            // the slot is fresh, and each scalar literal reads back exactly
            r matches Ok(p) ==> !old(self).memory.is_alloc(p.alloc_id),
            val matches ConstVal::Bool(b) ==> (r matches Ok(p) ==> final(self).memory.spec_read_bool(p) == Ok::<bool, EvalError>(*b)),
            val matches ConstVal::Char(c) ==> (r matches Ok(p) ==> final(self).memory.spec_read_uint(p, 4) == Ok::<u64, EvalError>(*c as u64)),
            val matches ConstVal::Uint(u, size) ==> (r matches Ok(p) ==> final(self).memory.spec_read_uint(p, *size as nat) == Ok::<u64, EvalError>(*u)),
            val matches ConstVal::Int(i, size) ==> (r matches Ok(p) ==> final(self).memory.spec_read_int(p, *size as nat) == Ok::<i64, EvalError>(*i)),
            val matches ConstVal::F32Bits(x) ==> (r matches Ok(p) ==> final(self).memory.spec_read_uint(p, 4) == Ok::<u64, EvalError>(*x as u64)),
            val matches ConstVal::F64Bits(x) ==> (r matches Ok(p) ==> final(self).memory.spec_read_uint(p, 8) == Ok::<u64, EvalError>(*x)),
            // success is owed: for a well-formed scalar literal, only the
            // byte budget or a stricter target alignment can refuse
            val matches ConstVal::Bool(b) ==> ((r matches Ok(_)) <==> (2 <= old(self).memory.size_spec() - old(self).memory.usage_spec() && 1 as int % old(self).memory.layout_spec().i1_align as int == 0)),
            val matches ConstVal::Char(c) ==> ((r matches Ok(_)) <==> (8 <= old(self).memory.size_spec() - old(self).memory.usage_spec() && 4 as int % old(self).memory.int_align_spec(4) as int == 0)),
            val matches ConstVal::F32Bits(x) ==> ((r matches Ok(_)) <==> (8 <= old(self).memory.size_spec() - old(self).memory.usage_spec() && 4 as int % old(self).memory.int_align_spec(4) as int == 0)),
            val matches ConstVal::F64Bits(x) ==> ((r matches Ok(_)) <==> (16 <= old(self).memory.size_spec() - old(self).memory.usage_spec() && 8 as int % old(self).memory.int_align_spec(8) as int == 0)),
            val matches ConstVal::Uint(u, size) ==> (crate::endian::valid_int_size(*size as nat) && (*size == 8 || (*u as nat) < crate::endian::pow256(*size as nat)) ==> ((r matches Ok(_)) <==> (2 * *size <= old(self).memory.size_spec() - old(self).memory.usage_spec() && *size as int % old(self).memory.int_align_spec(*size as nat) as int == 0))),
            val matches ConstVal::Uint(u, size) ==> (!(crate::endian::valid_int_size(*size as nat) && (*size == 8 || (*u as nat) < crate::endian::pow256(*size as nat))) ==> r == Err::<Pointer, _>(EvalError::Unimplemented(Unsupported::MalformedProgram))),
            val matches ConstVal::Int(i2, size) ==> (crate::endian::valid_int_size(*size as nat) && (*size == 8 || crate::endian::in_signed_range(*i2 as int, *size as nat)) ==> ((r matches Ok(_)) <==> (2 * *size <= old(self).memory.size_spec() - old(self).memory.usage_spec() && *size as int % old(self).memory.int_align_spec(*size as nat) as int == 0))),
            val matches ConstVal::Int(i2, size) ==> (!(crate::endian::valid_int_size(*size as nat) && (*size == 8 || crate::endian::in_signed_range(*i2 as int, *size as nat))) ==> r == Err::<Pointer, _>(EvalError::Unimplemented(Unsupported::MalformedProgram))),
            // a string literal lowers to a fat pointer: a data pointer to a
            // buffer holding exactly the literal's bytes, then the length
            val matches ConstVal::Str(bytes) ==> (r matches Ok(p) ==> ({
                let psz = old(self).memory.psize();
                &&& (final(self).memory.spec_read_ptr(p) matches Ok(sp) && ((bytes@.len() > 0 ==> sp.offset == 1 && final(self).memory.range_defined(sp, bytes@.len()) && final(self).memory.allocation(sp.alloc_id).bytes@.subrange(1, 1 + bytes@.len() as int) == bytes@) && (bytes@.len() == 0 ==> sp == (Pointer { alloc_id: crate::memory::zst_alloc_id(), offset: 0 }))))
                &&& p.offset + 2 * psz <= usize::MAX
                &&& final(self).memory.spec_read_uint(Pointer { alloc_id: p.alloc_id, offset: (p.offset + psz) as usize }, psz) == Ok::<u64, EvalError>(bytes@.len() as u64)
            })),
            // a byte-string literal lowers to a thin pointer to such a buffer
            val matches ConstVal::ByteStr(bytes) ==> (r matches Ok(p) ==> (final(self).memory.spec_read_ptr(p) matches Ok(sp) && ((bytes@.len() > 0 ==> sp.offset == 1 && final(self).memory.range_defined(sp, bytes@.len()) && final(self).memory.allocation(sp.alloc_id).bytes@.subrange(1, 1 + bytes@.len() as int) == bytes@) && (bytes@.len() == 0 ==> sp == (Pointer { alloc_id: crate::memory::zst_alloc_id(), offset: 0 }))))),
    {
        proof {
            crate::endian::lemma_pow256_values();
        }
        match val {
            ConstVal::Bool(b) => {
                let ptr = self.allocate_checked(1, 1)?;
                self.memory.write_bool(ptr, *b)?;
                Ok(ptr)
            },
            ConstVal::Char(c) => self.fresh_uint_alloc(*c as u64, 4),
            ConstVal::Int(i, size) => {
                let size = *size;
                let i = *i;
                if !(size == 1 || size == 2 || size == 4 || size == 8) {
                    return Err(EvalError::Unimplemented(Unsupported::MalformedProgram));
                }
                if size < 8 {
                    let half: i64 = if size == 1 {
                        0x80
                    } else if size == 2 {
                        0x8000
                    } else {
                        0x8000_0000
                    };
                    if i < -half || i >= half {
                        return Err(EvalError::Unimplemented(Unsupported::MalformedProgram));
                    }
                }
                self.fresh_int_alloc(i, size)
            },
            ConstVal::Uint(u, size) => {
                let size = *size;
                let u = *u;
                if !(size == 1 || size == 2 || size == 4 || size == 8) {
                    return Err(EvalError::Unimplemented(Unsupported::MalformedProgram));
                }
                if size < 8 {
                    let limit: u64 = if size == 1 {
                        0x100
                    } else if size == 2 {
                        0x10000
                    } else {
                        0x1_0000_0000
                    };
                    if u >= limit {
                        return Err(EvalError::Unimplemented(Unsupported::MalformedProgram));
                    }
                }
                self.fresh_uint_alloc(u, size)
            },
            ConstVal::F32Bits(x) => self.fresh_uint_alloc(*x as u64, 4),
            ConstVal::F64Bits(x) => self.fresh_uint_alloc(*x, 8),
            ConstVal::Str(bytes) => {
                let psize = self.memory.pointer_size();
                let static_ptr = self.allocate_checked(bytes.len(), 1)?;
                if psize > usize::MAX / 2 {
                    return Err(EvalError::Unimplemented(Unsupported::ValueDoesNotFit));
                }
                let ptr = self.allocate_checked(psize * 2, psize)?;
                let (data, extra) = self.get_fat_ptr(ptr)?;
                if bytes.len() > 0 {
                    self.memory.write_bytes(static_ptr, bytes)?;
                }
                let ghost g1 = *self;
                self.write_ptr_checked(data, static_ptr)?;
                let ghost g2 = *self;
                proof {
                    crate::endian::lemma_pow256_values();
                    crate::memory::lemma_pointer_round_trip(
                        g1.memory,
                        g2.memory,
                        data,
                        static_ptr,
                    );
                }
                self.write_usize_checked(extra, bytes.len() as u64)?;
                proof {
                    let psz = g1.memory.psize();
                    crate::memory::lemma_uint_write_read_back(
                        g2.memory,
                        self.memory,
                        extra,
                        bytes@.len() as u64,
                        psz,
                    );
                    // the data slot's relocation entry was just written at
                    // `data.offset`; the length write's scan range starts
                    // past it, in an otherwise relocation-free allocation
                    let rel2 = g2.memory.allocation(data.alloc_id).relocations@;
                    let rel1 = g1.memory.allocation(data.alloc_id).relocations@;
                    assert(rel2 == crate::memory::relocs_cleared(
                        rel1,
                        psz,
                        data.offset as int,
                        data.offset + psz,
                    ).update(data.offset as int, Some(static_ptr.alloc_id)));
                    assert forall|k: int|
                        crate::memory::reloc_scan_start(psz, extra.offset as int) <= k
                            < extra.offset + psz && 0 <= k < rel2.len() implies !(rel2[k]
                        is Some) by {
                        assert(k != data.offset as int);
                        assert(rel2[k] == crate::memory::relocs_cleared(
                            rel1,
                            psz,
                            data.offset as int,
                            data.offset + psz,
                        )[k]);
                    }
                    assert(!g2.memory.allocation(data.alloc_id).has_reloc_in(
                        crate::memory::reloc_scan_start(psz, extra.offset as int),
                        extra.offset + psz,
                    ));
                    crate::memory::lemma_ptr_read_stable_after_write(
                        g2.memory,
                        self.memory,
                        data,
                        extra,
                        crate::endian::target_bytes_of(
                            g2.memory.layout_spec().endian,
                            bytes@.len() as u64,
                            psz,
                        ),
                        Option::<crate::memory::AllocId>::None,
                        static_ptr,
                    );
                }
                Ok(ptr)
            },
            ConstVal::ByteStr(bytes) => {
                let psize = self.memory.pointer_size();
                let static_ptr = self.allocate_checked(bytes.len(), 1)?;
                let ptr = self.allocate_checked(psize, psize)?;
                if bytes.len() > 0 {
                    self.memory.write_bytes(static_ptr, bytes)?;
                }
                let ghost g1 = *self;
                self.write_ptr_checked(ptr, static_ptr)?;
                proof {
                    crate::endian::lemma_pow256_values();
                    crate::memory::lemma_pointer_round_trip(
                        g1.memory,
                        self.memory,
                        ptr,
                        static_ptr,
                    );
                }
                Ok(ptr)
            },
        }
    }

    /// The top frame's identity: which body it runs, and under which
    /// definition and substitutions.
    fn frame_identity(&self) -> (r: EvalResult<(CachedMir, u64, u64, usize)>)
        ensures
            r == (if self.stack@.len() == 0 {
                Err::<(CachedMir, u64, u64, usize), EvalError>(
                    EvalError::Unimplemented(Unsupported::MalformedProgram),
                )
            } else {
                Ok(
                    (
                        self.stack@.last().mir,
                        self.stack@.last().def_id,
                        self.stack@.last().substs,
                        self.stack@.last().span,
                    ),
                )
            }),
    {
        let n = self.stack.len();
        if n == 0 {
            return Err(EvalError::Unimplemented(Unsupported::MalformedProgram));
        }
        let f = &self.stack[n - 1];
        Ok((f.mir, f.def_id, f.substs, f.span))
    }

    /// The address of the i-th local of the given section of the top frame
    /// (0 = arguments, 1 = variables, 2 = temporaries).
    fn local_ptr(&self, section: u32, i: usize) -> (r: EvalResult<Pointer>)
        requires
            section <= 2,
        ensures
            r == (match spec_local_place(*self, section as int, i as int) {
                Ok(pl) => Ok::<Pointer, EvalError>(pl.ptr),
                Err(e) => Err(e),
            }),
    {
        let n = self.stack.len();
        if n == 0 {
            return Err(EvalError::Unimplemented(Unsupported::MalformedProgram));
        }
        let f = &self.stack[n - 1];
        let base = if section == 0 {
            0
        } else if section == 1 {
            f.var_offset
        } else {
            f.temp_offset
        };
        let nlocals = f.locals.len();
        if i > usize::MAX - base || base + i >= nlocals {
            return Err(EvalError::Unimplemented(Unsupported::MalformedProgram));
        }
        Ok(f.locals[base + i])
    }

    /// Evaluate a place designator to an address plus metadata.
    pub fn eval_lvalue(&mut self, prog: &Program, lvalue: &Lvalue) -> (r: EvalResult<Place>)
        requires
            old(self).inv(),
        ensures
            old(self).evolves_to(final(self)),
            crate::memory::preserves_allocs(&old(self).memory, &final(self).memory),
            final(self).stack == old(self).stack,
            final(self).statics == old(self).statics,
            // non-projection designators resolve exactly, touching nothing
            spec_designator(*old(self), *lvalue) matches Some(res) ==> r == res && *final(self)
                == *old(self),
            // one projection step over a plain base — a field, a variant
            // downcast, or a dereference — resolves exactly as well
            lvalue matches Lvalue::Projection(pr) ==> (spec_designator(
                *old(self),
                pr.base,
            ) matches Some(bres) ==> (spec_project_step(
                old(self).memory,
                *prog,
                bres,
                pr.ty,
                pr.elem,
            ) matches Some(res2) ==> r == res2 && *final(self) == *old(self))),
            // only lowering a literal (inside an index operand) can change
            // the machine
            !lvalue_mutates(*lvalue) ==> *final(self) == *old(self),
        decreases *lvalue,
    {
        match lvalue {
            Lvalue::ReturnPointer => {
                let n = self.stack.len();
                if n == 0 {
                    return Err(EvalError::Unimplemented(Unsupported::MalformedProgram));
                }
                match self.stack[n - 1].return_ptr {
                    Some(p) => Ok(Place { ptr: p, extra: PlaceExtra::Nothing }),
                    None => Err(EvalError::Unimplemented(Unsupported::MalformedProgram)),
                }
            },
            Lvalue::Arg(i) => {
                let p = self.local_ptr(0, *i)?;
                Ok(Place { ptr: p, extra: PlaceExtra::Nothing })
            },
            Lvalue::Var(i) => {
                let p = self.local_ptr(1, *i)?;
                Ok(Place { ptr: p, extra: PlaceExtra::Nothing })
            },
            Lvalue::Temp(i) => {
                let p = self.local_ptr(2, *i)?;
                Ok(Place { ptr: p, extra: PlaceExtra::Nothing })
            },
            Lvalue::Static(def_id) => {
                let cid = ConstantId { def_id: *def_id, substs: 0, kind: ConstantKind::Global };
                match self.lookup_constant(cid) {
                    Some(p) => Ok(Place { ptr: p, extra: PlaceExtra::Nothing }),
                    None => Err(EvalError::Unimplemented(Unsupported::ConstantNotCached)),
                }
            },
            Lvalue::Projection(proj) => {
                let base = self.eval_lvalue(prog, &proj.base)?;
                let base_desc = type_desc(prog, proj.ty)?;
                let base_ty = base_desc.ty;
                match &proj.elem {
                    ProjectionElem::Field(field) => {
                        self.project_field(prog, base, proj.ty, *field)
                    },
                    ProjectionElem::Downcast(variant) => project_downcast(base_desc, base, *variant),
                    ProjectionElem::Deref => {
                        let pointee = match base_ty.pointee() {
                            Some(t) => t,
                            None => {
                                return Err(
                                    EvalError::Unimplemented(Unsupported::MalformedProgram),
                                );
                            },
                        };
                        let pointee_ty = type_desc(prog, pointee)?.ty;
                        self.project_deref(base.ptr, pointee_ty)
                    },
                    ProjectionElem::Index(operand) => {
                        let elem = match base_ty {
                            Ty::Array(t, _) => t,
                            Ty::Slice(t) => t,
                            _ => {
                                return Err(
                                    EvalError::Unimplemented(Unsupported::MalformedProgram),
                                );
                            },
                        };
                        let elem_size = type_desc(prog, elem)?.size;
                        let n_ptr = self.eval_operand(prog, operand)?;
                        let n = self.memory.read_usize(n_ptr)?;
                        proof {
                            assert(((n as u128) as int) * ((elem_size as u128) as int)
                                < 0x1_0000_0000_0000_0000_0000_0000_0000_0000) by (nonlinear_arith)
                                requires
                                    (n as u128) as int <= 0xffff_ffff_ffff_ffff,
                                    (elem_size as u128) as int <= 0xffff_ffff_ffff_ffff,
                            ;
                        }
                        let byte_off = (n as u128) * (elem_size as u128);
                        if byte_off > (usize::MAX as u128) {
                            return Err(EvalError::Unimplemented(Unsupported::ValueDoesNotFit));
                        }
                        let p = ptr_add(base.ptr, byte_off as usize)?;
                        Ok(Place { ptr: p, extra: PlaceExtra::Nothing })
                    },
                    ProjectionElem::ConstantIndex => Err(
                        EvalError::Unimplemented(Unsupported::ConstantIndexProjection),
                    ),
                    ProjectionElem::Subslice => Err(
                        EvalError::Unimplemented(Unsupported::SubsliceProjection),
                    ),
                }
            },
        }
    }

    /// The address of field `field` of a place of type `ty`.
    pub fn project_field(&self, prog: &Program, base: Place, ty: TyId, field: usize) -> (r:
        EvalResult<Place>)
        ensures
            ty < prog.types@.len() ==> r == spec_project_field(
                prog.types@[ty as int],
                self.memory.layout_spec().pointer_size as nat,
                base,
                field as int,
            ),
            ty >= prog.types@.len() ==> r == Err::<Place, EvalError>(
                EvalError::Unimplemented(Unsupported::MalformedProgram),
            ),
    {
        let psize = self.memory.pointer_size();
        let desc = type_desc(prog, ty)?;
        match &desc.shape {
            LayoutShape::Univariant(v) => {
                if field >= v.field_offsets.len() {
                    return Err(EvalError::Unimplemented(Unsupported::MalformedProgram));
                }
                let p = ptr_add(base.ptr, v.field_offsets[field])?;
                Ok(Place { ptr: p, extra: PlaceExtra::Nothing })
            },
            LayoutShape::General { discr_size, variants } => {
                let variant_idx = match base.extra {
                    PlaceExtra::DowncastVariant(v) => v,
                    _ => {
                        return Err(EvalError::Unimplemented(Unsupported::MalformedProgram));
                    },
                };
                if variant_idx >= variants.len() {
                    return Err(EvalError::Unimplemented(Unsupported::MalformedProgram));
                }
                let v = &variants[variant_idx];
                if field >= v.field_offsets.len() {
                    return Err(EvalError::Unimplemented(Unsupported::MalformedProgram));
                }
                let off = v.field_offsets[field];
                if off < *discr_size {
                    return Err(EvalError::Unimplemented(Unsupported::MalformedProgram));
                }
                // the base pointer already skipped the discriminant
                let p = ptr_add(base.ptr, off - *discr_size)?;
                Ok(Place { ptr: p, extra: PlaceExtra::Nothing })
            },
            LayoutShape::RawNullablePointer { .. } => {
                if field != 0 {
                    return Err(EvalError::Unimplemented(Unsupported::MalformedProgram));
                }
                Ok(base)
            },
            LayoutShape::StructWrappedNullablePointer { nonnull, .. } => {
                if field >= nonnull.field_offsets.len() {
                    return Err(EvalError::Unimplemented(Unsupported::MalformedProgram));
                }
                let p = ptr_add(base.ptr, nonnull.field_offsets[field])?;
                Ok(Place { ptr: p, extra: PlaceExtra::Nothing })
            },
            LayoutShape::FatPointer => {
                if field > 1 {
                    return Err(EvalError::Unimplemented(Unsupported::MalformedProgram));
                }
                if field == 0 {
                    Ok(Place { ptr: base.ptr, extra: PlaceExtra::Nothing })
                } else {
                    let p = ptr_add(base.ptr, psize)?;
                    Ok(Place { ptr: p, extra: PlaceExtra::Nothing })
                }
            },
            _ => Err(EvalError::Unimplemented(Unsupported::MalformedProgram)),
        }
    }

    /// The place a dereference of the pointer at `base` reaches, with the
    /// metadata word the pointee's kind demands.
    pub fn project_deref(&self, base: Pointer, pointee: Ty) -> (r: EvalResult<Place>)
        requires
            self.inv(),
        ensures
            r == spec_deref_place(self.memory, base, pointee),
    {
        let ptr = self.memory.read_ptr(base)?;
        match pointee {
            Ty::Slice(_) | Ty::Str => {
                let extra = ptr_add(base, self.memory.pointer_size())?;
                let len = self.memory.read_usize(extra)?;
                Ok(Place { ptr, extra: PlaceExtra::Length(len) })
            },
            Ty::Trait(_) => {
                let extra = ptr_add(base, self.memory.pointer_size())?;
                let vtable = self.memory.read_ptr(extra)?;
                Ok(Place { ptr, extra: PlaceExtra::Vtable(vtable) })
            },
            _ => Ok(Place { ptr, extra: PlaceExtra::Nothing }),
        }
    }

    /// Evaluate an operand to the address of its value, lowering literals
    /// into fresh storage and looking cached constants up.
    pub fn eval_operand(&mut self, prog: &Program, op: &Operand) -> (r: EvalResult<Pointer>)
        requires
            old(self).inv(),
        ensures
            old(self).evolves_to(final(self)),
            crate::memory::preserves_allocs(&old(self).memory, &final(self).memory),
            final(self).stack == old(self).stack,
            final(self).statics == old(self).statics,
            !operand_mutates(*op) ==> *final(self) == *old(self),
            // consuming a non-projection place answers that place's address
            op matches Operand::Consume(lv, t) ==> (spec_designator(*old(self), *lv) matches Some(
                res,
            ) ==> r == spec_place_to_ptr(res)),
            // a global item answers from the constant cache (or, for a
            // function item, with the canonical zero-sized pointer)
            op matches Operand::Constant(c) ==> (c.literal matches Literal::Item {
                def_id,
                substs,
            } ==> r == spec_item_operand(*prog, *old(self), c.ty, def_id, substs)),
            // a promoted answers from the cache under the frame's key
            op matches Operand::Constant(c) ==> (c.literal matches Literal::Promoted(i) ==> r
                == spec_promoted_operand(*old(self), i)),
            // a lowered literal sits in fresh storage reading back exactly,
            // and only the budget or target alignment can refuse it
            op matches Operand::Constant(c) ==> (c.literal matches Literal::Value(v) ==> ((
            r matches Ok(p) ==> !old(self).memory.is_alloc(p.alloc_id)) && (
            v matches ConstVal::Bool(b) ==> (r matches Ok(p) ==> final(self).memory.spec_read_bool(
                p,
            ) == Ok::<bool, EvalError>(b))) && (v matches ConstVal::Uint(u, size) ==> (
            r matches Ok(p) ==> final(self).memory.spec_read_uint(p, size as nat) == Ok::<
                u64,
                EvalError,
            >(u))) && (v matches ConstVal::Int(i2, size) ==> (r matches Ok(p) ==> final(self).memory.spec_read_int(p, size as nat) == Ok::<i64, EvalError>(i2))) && (
            v matches ConstVal::Char(ch) ==> (r matches Ok(p) ==> final(self).memory.spec_read_uint(p, 4) == Ok::<u64, EvalError>(ch as u64))) && (
            v matches ConstVal::F32Bits(x) ==> (r matches Ok(p) ==> final(self).memory.spec_read_uint(p, 4) == Ok::<u64, EvalError>(x as u64))) && (
            v matches ConstVal::F64Bits(x) ==> (r matches Ok(p) ==> final(self).memory.spec_read_uint(p, 8) == Ok::<u64, EvalError>(x))) && (
            v matches ConstVal::Bool(b2) ==> ((r matches Ok(_)) <==> (2 <= old(self).memory.size_spec() - old(self).memory.usage_spec() && 1 as int % old(self).memory.layout_spec().i1_align as int == 0))) && (
            v matches ConstVal::Uint(u2, size2) ==> (crate::endian::valid_int_size(size2 as nat) && (size2 == 8 || (u2 as nat) < crate::endian::pow256(size2 as nat)) ==> ((r matches Ok(_)) <==> (2 * size2 <= old(self).memory.size_spec() - old(self).memory.usage_spec() && size2 as int % old(self).memory.int_align_spec(size2 as nat) as int == 0)))) && (
            v matches ConstVal::Int(i3, size3) ==> (crate::endian::valid_int_size(size3 as nat) && (size3 == 8 || crate::endian::in_signed_range(i3 as int, size3 as nat)) ==> ((r matches Ok(_)) <==> (2 * size3 <= old(self).memory.size_spec() - old(self).memory.usage_spec() && size3 as int % old(self).memory.int_align_spec(size3 as nat) as int == 0)))))),
        decreases *op,
    {
        match op {
            Operand::Consume(lv, _) => {
                let place = self.eval_lvalue(prog, lv)?;
                place.to_ptr()
            },
            Operand::Constant(c) => {
                match &c.literal {
                    Literal::Value(v) => self.const_to_ptr(v),
                    Literal::Item { def_id, substs } => {
                        let d = type_desc(prog, c.ty)?;
                        if matches!(d.ty, Ty::FnDef(_, _, _)) {
                            // function items are zero-sized; the meaning is
                            // carried by the type
                            self.allocate_checked(0, 0)
                        } else {
                            let cid = ConstantId {
                                def_id: *def_id,
                                substs: *substs,
                                kind: ConstantKind::Global,
                            };
                            match self.lookup_constant(cid) {
                                Some(p) => Ok(p),
                                None => Err(
                                    EvalError::Unimplemented(Unsupported::ConstantNotCached),
                                ),
                            }
                        }
                    },
                    Literal::Promoted(index) => {
                        let (_, def_id, substs, _) = self.frame_identity()?;
                        let cid = ConstantId {
                            def_id,
                            substs,
                            kind: ConstantKind::Promoted(*index),
                        };
                        match self.lookup_constant(cid) {
                            Some(p) => Ok(p),
                            None => Err(EvalError::Unimplemented(Unsupported::ConstantNotCached)),
                        }
                    },
                }
            },
        }
    }

    /// Read the primitive value of the given type stored at `ptr`.
    pub fn read_primval(&mut self, prog: &Program, ptr: Pointer, ty: TyId) -> (r: EvalResult<
        PrimVal,
    >)
        requires
            old(self).inv(),
        ensures
            old(self).evolves_to(final(self)),
            crate::memory::preserves_allocs(&old(self).memory, &final(self).memory),
            final(self).stack == old(self).stack,
            final(self).statics == old(self).statics,
            // every type but a function item reads without side effects, and
            // the value is a function of the state
            spec_read_primval(old(self).memory, *prog, ptr, ty) matches Some(res) ==> r == res
                && *final(self) == *old(self),
            // a function item mints the definition's function pointer
            ty < prog.types@.len() ==> (prog.types@[ty as int].ty matches Ty::FnDef(d, su, f)
                ==> (r matches Ok(v) && v matches PrimVal::FnPtr(p) && p.offset == 0
                && final(self).memory.is_func(p.alloc_id) && final(self).memory.func_def(
                    p.alloc_id,
                ) == (crate::memory::FunctionDefinition { def_id: d, substs: su, fn_ty: f }))),
    {
        proof {
            crate::endian::lemma_pow256_values();
        }
        let psize = self.memory.pointer_size();
        let desc = type_desc(prog, ty)?;
        match desc.ty {
            Ty::Bool => Ok(PrimVal::Bool(self.memory.read_bool(ptr)?)),
            Ty::Char => {
                let c = self.memory.read_uint(ptr, 4)?;
                let c32 = c as u32;
                if c32 < 0xD800 || (0xE000 <= c32 && c32 <= 0x10FFFF) {
                    Ok(PrimVal::Char(c32))
                } else {
                    Err(EvalError::InvalidChar(c))
                }
            },
            Ty::Int(w) => {
                let size = iwidth_size(psize, w);
                let v = self.memory.read_int(ptr, size)?;
                match size {
                    1 => Ok(PrimVal::I8(v as i8)),
                    2 => Ok(PrimVal::I16(v as i16)),
                    4 => Ok(PrimVal::I32(v as i32)),
                    _ => Ok(PrimVal::I64(v)),
                }
            },
            Ty::Uint(w) => {
                let size = uwidth_size(psize, w);
                let v = self.memory.read_uint(ptr, size)?;
                match size {
                    1 => Ok(PrimVal::U8(v as u8)),
                    2 => Ok(PrimVal::U16(v as u16)),
                    4 => Ok(PrimVal::U32(v as u32)),
                    _ => Ok(PrimVal::U64(v)),
                }
            },
            Ty::F32 => Ok(PrimVal::F32Bits(self.memory.read_uint(ptr, 4)? as u32)),
            Ty::F64 => Ok(PrimVal::F64Bits(self.memory.read_uint(ptr, 8)?)),
            Ty::FnDef(def_id, substs, fn_ty) => {
                Ok(PrimVal::FnPtr(self.memory.create_fn_ptr(def_id, substs, fn_ty)))
            },
            Ty::FnPtr => Ok(PrimVal::FnPtr(self.memory.read_ptr(ptr)?)),
            Ty::Ref(t) | Ty::RawPtr(t) | Ty::Boxed(t) => {
                let pointee = type_desc(prog, t)?;
                if pointee.ty.is_sized() {
                    match self.memory.read_ptr(ptr) {
                        Ok(p) => Ok(PrimVal::AbstractPtr(p)),
                        Err(EvalError::ReadBytesAsPointer) => {
                            Ok(PrimVal::IntegerPtr(self.memory.read_usize(ptr)?))
                        },
                        Err(e) => Err(e),
                    }
                } else {
                    Err(EvalError::Unimplemented(Unsupported::FatPointerRead))
                }
            },
            Ty::Adt(_) => {
                match &desc.shape {
                    LayoutShape::CEnum { discr_size, signed } => {
                        let size = *discr_size;
                        if !(size == 1 || size == 2 || size == 4 || size == 8) {
                            return Err(EvalError::Unimplemented(Unsupported::MalformedProgram));
                        }
                        if *signed {
                            let v = self.memory.read_int(ptr, size)?;
                            match size {
                                1 => Ok(PrimVal::I8(v as i8)),
                                2 => Ok(PrimVal::I16(v as i16)),
                                4 => Ok(PrimVal::I32(v as i32)),
                                _ => Ok(PrimVal::I64(v)),
                            }
                        } else {
                            let v = self.memory.read_uint(ptr, size)?;
                            match size {
                                1 => Ok(PrimVal::U8(v as u8)),
                                2 => Ok(PrimVal::U16(v as u16)),
                                4 => Ok(PrimVal::U32(v as u32)),
                                _ => Ok(PrimVal::U64(v)),
                            }
                        }
                    },
                    _ => Err(EvalError::Unimplemented(Unsupported::PrimitiveRead)),
                }
            },
            _ => Err(EvalError::Unimplemented(Unsupported::PrimitiveRead)),
        }
    }
}

/// The product of two sizes, wide enough never to overflow.
fn mul_to_u128(a: usize, b: usize) -> (r: u128)
    ensures
        r == (a as int) * (b as int),
{
    proof {
        assert(((a as u128) as int) * ((b as u128) as int)
            < 0x1_0000_0000_0000_0000_0000_0000_0000_0000) by (nonlinear_arith)
            requires
                (a as u128) as int <= 0xffff_ffff_ffff_ffff,
                (b as u128) as int <= 0xffff_ffff_ffff_ffff,
        ;
    }
    (a as u128) * (b as u128)
}

/// The type an operand carries.
pub open spec fn spec_operand_ty(op: Operand) -> TyId {
    match op {
        Operand::Consume(_, t) => t,
        Operand::Constant(c) => c.ty,
    }
}

/// The type an operand carries.
fn operand_ty(op: &Operand) -> (r: TyId)
    ensures
        r == spec_operand_ty(*op),
{
    match op {
        Operand::Consume(_, t) => *t,
        Operand::Constant(c) => c.ty,
    }
}

/// Is the type a pointer whose pointee is unsized (so values of it occupy
/// two words)?
fn type_is_fat_ptr(prog: &Program, ty: TyId) -> (r: EvalResult<bool>) {
    let d = type_desc(prog, ty)?;
    match d.ty.pointee() {
        Some(p) => {
            let pd = type_desc(prog, p)?;
            Ok(!pd.ty.is_sized())
        },
        None => Ok(false),
    }
}

impl Machine {
    /// Copy a typed value: `size_of(ty)` bytes with their init bits and
    /// relocations.
    pub fn move_value(&mut self, prog: &Program, src: Pointer, dest: Pointer, ty: TyId) -> (r:
        EvalResult<()>)
        requires
            old(self).inv(),
        ensures
            old(self).evolves_to(final(self)),
            final(self).stack == old(self).stack,
            final(self).statics == old(self).statics,
            ty >= prog.types@.len() ==> r == Err::<(), _>(
                EvalError::Unimplemented(Unsupported::MalformedProgram),
            ) && *final(self) == *old(self),
            ty < prog.types@.len() ==> {
                let size = prog.types@[ty as int].size as nat;
                &&& ((r matches Ok(_)) <==> old(self).memory.copy_ok(src, dest, size))
                &&& (r matches Ok(_) ==> final(self).memory.copy_effect(
                    &old(self).memory,
                    src,
                    dest,
                    size,
                ))
                &&& (r matches Err(_) ==> final(self).memory.same_memory(&old(self).memory))
            },
    {
        let size = type_desc(prog, ty)?.size;
        self.memory.copy(src, dest, size)
    }

    /// Evaluate each operand and write it at its field offset.
    fn assign_fields(
        &mut self,
        prog: &Program,
        dest: Pointer,
        offsets: &Vec<usize>,
        operands: &Vec<Operand>,
    ) -> (r: EvalResult<()>)
        requires
            old(self).inv(),
        ensures
            old(self).evolves_to(final(self)),
            final(self).stack@.len() == old(self).stack@.len(),
    {
        let n = if offsets.len() < operands.len() {
            offsets.len()
        } else {
            operands.len()
        };
        let mut i: usize = 0;
        while i < n
            invariant
                self.inv(),
                old(self).evolves_to(self),
                self.stack == old(self).stack,
                self.statics == old(self).statics,
                n <= offsets@.len(),
                n <= operands@.len(),
            decreases n - i,
        {
            let operand = &operands[i];
            let src = self.eval_operand(prog, operand)?;
            let src_ty = operand_ty(operand);
            let field_dest = ptr_add(dest, offsets[i])?;
            self.move_value(prog, src, field_dest, src_ty)?;
            i = i + 1;
        }
        Ok(())
    }

    /// Apply the binary operation to the operands and write the result;
    /// returns whether it overflowed.
    #[verifier::rlimit(100)]
    #[verifier::spinoff_prover]
    pub fn intrinsic_overflowing(
        &mut self,
        prog: &Program,
        op: BinOp,
        left: &Operand,
        right: &Operand,
        dest: Pointer,
    ) -> (r: EvalResult<bool>)
        requires
            old(self).inv(),
        ensures
            old(self).evolves_to(final(self)),
            final(self).stack == old(self).stack,
            final(self).statics == old(self).statics,
            // for literal unsigned operands of one width, the result and
            // the flag are the typed operation's, and the destination holds
            // the result's bits
            ({
                &&& spec_uint_const(*prog, old(self).memory.psize(), *left) matches Some(ac)
                &&& spec_uint_const(*prog, old(self).memory.psize(), *right) matches Some(bc)
                    && ac.1 == bc.1
            }) ==> (r matches Ok(flag) ==> ({
                let ac = spec_uint_const(*prog, old(self).memory.psize(), *left)->Some_0;
                let bc = spec_uint_const(*prog, old(self).memory.psize(), *right)->Some_0;
                let lv = crate::primval::mk_bits(8 * ac.1, false, ac.0);
                let rv2 = crate::primval::mk_bits(8 * bc.1, false, bc.0);
                crate::primval::spec_binary_op(op, lv, rv2) matches Ok(pair) && flag == pair.1
                    && (crate::primval::is_int(pair.0)
                    && crate::primval::int_width(pair.0) == 8 * ac.1
                    ==> final(self).memory.spec_read_uint(dest, ac.1) == Ok::<u64, EvalError>(
                    crate::primval::int_bits(pair.0),
                ))
            })),
    {
        proof {
            crate::endian::lemma_pow256_values();
        }
        let ghost psz = old(self).memory.psize();
        let ghost hyp = spec_uint_const(*prog, psz, *left) matches Some(ac)
            && spec_uint_const(*prog, psz, *right) matches Some(bc) && ac.1 == bc.1;
        let left_ptr = self.eval_operand(prog, left)?;
        let left_val = self.read_primval(prog, left_ptr, operand_ty(left))?;
        proof {
            if hyp {
                let ac = spec_uint_const(*prog, psz, *left)->Some_0;
                assert(left_val == crate::primval::mk_bits(8 * ac.1, false, ac.0));
            }
        }
        let right_ptr = self.eval_operand(prog, right)?;
        let right_val = self.read_primval(prog, right_ptr, operand_ty(right))?;
        proof {
            if hyp {
                let bc = spec_uint_const(*prog, psz, *right)->Some_0;
                assert(right_val == crate::primval::mk_bits(8 * bc.1, false, bc.0));
            }
        }
        let (val, overflow) = crate::primval::binary_op(op, left_val, right_val)?;
        let ghost pre_write = *self;
        self.memory.write_primval(dest, val)?;
        proof {
            if hyp && crate::primval::is_int(val) {
                let k = (crate::primval::int_width(val) / 8) as nat;
                crate::memory::lemma_uint_write_read_back(
                    pre_write.memory,
                    self.memory,
                    dest,
                    crate::primval::int_bits(val),
                    k,
                );
            }
        }
        Ok(overflow)
    }

    /// Like `intrinsic_overflowing`, but also store the overflow bit in the
    /// destination tuple's second field.
    #[verifier::rlimit(100)]
    pub fn intrinsic_with_overflow(
        &mut self,
        prog: &Program,
        op: BinOp,
        left: &Operand,
        right: &Operand,
        dest: Pointer,
        dest_ty: TyId,
    ) -> (r: EvalResult<()>)
        requires
            old(self).inv(),
        ensures
            old(self).evolves_to(final(self)),
            final(self).stack == old(self).stack,
            final(self).statics == old(self).statics,
            // for literal unsigned operands, the destination tuple holds the
            // wrapped result and, at the layout's second offset, the flag
            ({
                &&& spec_uint_const(*prog, old(self).memory.psize(), *left) matches Some(ac)
                &&& spec_uint_const(*prog, old(self).memory.psize(), *right) matches Some(bc)
                    && ac.1 == bc.1
                &&& dest_ty < prog.types@.len()
                &&& prog.types@[dest_ty as int].shape matches LayoutShape::Univariant(v)
                    && v.field_offsets@.len() >= 2 && v.field_offsets@[1] >= ac.1
            }) ==> (r matches Ok(_) ==> ({
                let ac = spec_uint_const(*prog, old(self).memory.psize(), *left)->Some_0;
                let bc = spec_uint_const(*prog, old(self).memory.psize(), *right)->Some_0;
                let fo = prog.types@[dest_ty as int].shape->Univariant_0.field_offsets@[1];
                let lv = crate::primval::mk_bits(8 * ac.1, false, ac.0);
                let rv2 = crate::primval::mk_bits(8 * bc.1, false, bc.0);
                crate::primval::spec_binary_op(op, lv, rv2) matches Ok(pair)
                    && (crate::primval::is_int(pair.0)
                    && crate::primval::int_width(pair.0) == 8 * ac.1
                    ==> final(self).memory.spec_read_uint(dest, ac.1) == Ok::<u64, EvalError>(
                    crate::primval::int_bits(pair.0),
                )) && (spec_ptr_add(dest, fo as nat) matches Ok(fp)
                    && final(self).memory.spec_read_bool(fp) == Ok::<bool, EvalError>(pair.1))
            })),
    {
        let ghost psz = old(self).memory.psize();
        let ghost hyp = spec_uint_const(*prog, psz, *left) matches Some(ac) && spec_uint_const(
            *prog,
            psz,
            *right,
        ) matches Some(bc) && ac.1 == bc.1;
        let flag_offset = match &type_desc(prog, dest_ty)?.shape {
            LayoutShape::Univariant(v) => {
                if v.field_offsets.len() < 2 {
                    return Err(EvalError::Unimplemented(Unsupported::MalformedProgram));
                }
                v.field_offsets[1]
            },
            _ => {
                return Err(EvalError::Unimplemented(Unsupported::MalformedProgram));
            },
        };
        let overflowed = self.intrinsic_overflowing(prog, op, left, right, dest)?;
        let ghost mid = *self;
        let flag_ptr = ptr_add(dest, flag_offset)?;
        self.memory.write_bool(flag_ptr, overflowed)?;
        proof {
            if hyp {
                let ac = spec_uint_const(*prog, psz, *left)->Some_0;
                let lv2 = crate::primval::mk_bits(8 * ac.1, false, ac.0);
                let bc = spec_uint_const(*prog, psz, *right)->Some_0;
                let rv3 = crate::primval::mk_bits(8 * bc.1, false, bc.0);
                match crate::primval::spec_binary_op(op, lv2, rv3) {
                    Ok(pair) => {
                        if crate::primval::is_int(pair.0) && crate::primval::int_width(pair.0)
                            == 8 * ac.1 && flag_offset >= ac.1 {
                            crate::memory::lemma_uint_read_stable_after_write(
                                mid.memory,
                                self.memory,
                                dest,
                                ac.1,
                                flag_ptr,
                                seq![if overflowed { 1u8 } else { 0u8 }],
                                Option::<crate::memory::AllocId>::None,
                                crate::primval::int_bits(pair.0),
                            );
                        }
                        crate::memory::lemma_bool_write_read_back(
                            mid.memory,
                            self.memory,
                            flag_ptr,
                            overflowed,
                        );
                    },
                    Err(_) => {},
                }
            }
        }
        Ok(())
    }

    /// Walk the discriminant-field path of a struct-wrapped nullable enum to
    /// the byte offset whose zero marks the null variant.
    #[verifier::loop_isolation(false)]
    fn nonnull_offset(
        &self,
        prog: &Program,
        enum_ty: TyId,
        nndiscr: u64,
        discrfield: &Vec<usize>,
    ) -> (r: EvalResult<usize>) {
        let psize = self.memory.pointer_size();
        let desc = type_desc(prog, enum_ty)?;
        let (nonnull_offsets, adt_idx) = match (&desc.shape, desc.ty) {
            (LayoutShape::StructWrappedNullablePointer { nonnull, .. }, Ty::Adt(a)) => (
                &nonnull.field_offsets,
                a,
            ),
            _ => {
                return Err(EvalError::Unimplemented(Unsupported::MalformedProgram));
            },
        };
        if discrfield.len() == 0 {
            return Err(EvalError::Unimplemented(Unsupported::MalformedProgram));
        }
        let idx0 = discrfield[0];
        if idx0 >= nonnull_offsets.len() {
            return Err(EvalError::Unimplemented(Unsupported::MalformedProgram));
        }
        let mut offset = nonnull_offsets[idx0];
        if adt_idx >= prog.adts.len() {
            return Err(EvalError::Unimplemented(Unsupported::MalformedProgram));
        }
        let variants = &prog.adts[adt_idx].variants;
        if nndiscr >= variants.len() as u64 {
            return Err(EvalError::Unimplemented(Unsupported::MalformedProgram));
        }
        let fields = &variants[nndiscr as usize].fields;
        if idx0 >= fields.len() {
            return Err(EvalError::Unimplemented(Unsupported::MalformedProgram));
        }
        let mut cur_ty = fields[idx0];
        let mut k: usize = 1;
        let n = discrfield.len();
        while k < n
            decreases n - k,
        {
            let idx = discrfield[k];
            let d = type_desc(prog, cur_ty)?;
            let (field_off, next_ty): (usize, TyId) = match (&d.shape, d.ty) {
                (LayoutShape::Univariant(v), Ty::Adt(a)) => {
                    if idx >= v.field_offsets.len() || a >= prog.adts.len() {
                        return Err(EvalError::Unimplemented(Unsupported::MalformedProgram));
                    }
                    let vs = &prog.adts[a].variants;
                    if vs.len() == 0 || idx >= vs[0].fields.len() {
                        return Err(EvalError::Unimplemented(Unsupported::MalformedProgram));
                    }
                    (v.field_offsets[idx], vs[0].fields[idx])
                },
                (_, Ty::Ref(t)) | (_, Ty::RawPtr(t)) | (_, Ty::Boxed(t)) => {
                    if idx != 0 {
                        return Err(EvalError::Unimplemented(Unsupported::MalformedProgram));
                    }
                    (0, t)
                },
                _ => {
                    return Err(EvalError::Unimplemented(Unsupported::MalformedProgram));
                },
            };
            if field_off > usize::MAX - offset {
                return Err(EvalError::Unimplemented(Unsupported::ValueDoesNotFit));
            }
            offset = offset + field_off;
            cur_ty = next_ty;
            k = k + 1;
        }
        Ok(offset)
    }

    /// Build the method table for a coercion of `self_ty` to the trait
    /// object of `trait_id`: `[drop, size, align, method_0, ...]`.
    #[verifier::loop_isolation(false)]
    pub fn get_vtable(&mut self, prog: &Program, self_ty: TyId, trait_id: u64) -> (r: EvalResult<
        Pointer,
    >)
        requires
            old(self).inv(),
        ensures
            old(self).evolves_to(final(self)),
            final(self).stack == old(self).stack,
            final(self).statics == old(self).statics,
            // with no description for the pair, the coercion is refused
            !(exists|i: int|
                0 <= i < prog.vtables@.len() && (#[trigger] prog.vtables@[i]).self_ty == self_ty
                    && prog.vtables@[i].trait_id == trait_id) ==> r == Err::<Pointer, _>(
                EvalError::Unimplemented(Unsupported::VtableMissing),
            ) && *final(self) == *old(self),
            // the table's header is three pointer-sized words: no drop glue
            // (always zero), then the concrete type's size and alignment;
            // the method slots follow
            r matches Ok(vt) ==> ({
                let psz = old(self).memory.psize();
                let d = prog.types@[self_ty as int];
                &&& self_ty < prog.types@.len()
                &&& vt.offset + 3 * psz <= usize::MAX
                &&& final(self).memory.spec_read_uint(vt, psz) == Ok::<u64, EvalError>(0u64)
                &&& final(self).memory.spec_read_uint(
                    Pointer { alloc_id: vt.alloc_id, offset: (vt.offset + psz) as usize },
                    psz,
                ) == Ok::<u64, EvalError>(d.size as u64)
                &&& final(self).memory.spec_read_uint(
                    Pointer { alloc_id: vt.alloc_id, offset: (vt.offset + 2 * psz) as usize },
                    psz,
                ) == Ok::<u64, EvalError>(d.align as u64)
            }),
    {
        let psize = self.memory.pointer_size();
        let nv = prog.vtables.len();
        let mut vi: usize = 0;
        let mut found: Option<usize> = None;
        while vi < nv
            invariant
                vi <= nv,
                found matches Some(f) ==> f < nv && prog.vtables@[f as int].self_ty == self_ty
                    && prog.vtables@[f as int].trait_id == trait_id,
                found is None ==> forall|j: int|
                    0 <= j < vi ==> !((#[trigger] prog.vtables@[j]).self_ty == self_ty
                        && prog.vtables@[j].trait_id == trait_id),
            decreases nv - vi,
        {
            if found.is_none() && prog.vtables[vi].self_ty == self_ty && prog.vtables[vi].trait_id
                == trait_id {
                found = Some(vi);
            }
            vi = vi + 1;
        }
        let idx = match found {
            Some(i) => i,
            None => {
                return Err(EvalError::Unimplemented(Unsupported::VtableMissing));
            },
        };
        let methods = &prog.vtables[idx].methods;
        let n_methods = methods.len();
        if n_methods > usize::MAX / 8 - 3 || psize > 8 {
            return Err(EvalError::Unimplemented(Unsupported::ValueDoesNotFit));
        }
        proof {
            assert((3 + n_methods) * psize <= usize::MAX) by (nonlinear_arith)
                requires
                    n_methods <= usize::MAX / 8 - 3,
                    psize <= 8,
            ;
            assert((3 + n_methods) * psize > 0) by (nonlinear_arith)
                requires
                    psize >= 2,
            ;
        }
        let size = (3 + n_methods) * psize;
        let vtable = self.allocate_checked(size, psize)?;
        let self_desc = type_desc(prog, self_ty)?;
        let (ssize, salign) = (self_desc.size, self_desc.align);
        // no drop glue: elaboration happened before the IR reached us
        let ghost g0 = *self;
        self.write_usize_checked(vtable, 0)?;
        let ghost g1 = *self;
        proof {
            crate::memory::lemma_uint_write_read_back(
                g0.memory,
                g1.memory,
                vtable,
                0u64,
                psize as nat,
            );
        }
        let p1 = ptr_add(vtable, psize)?;
        self.write_usize_checked(p1, ssize as u64)?;
        let ghost g2 = *self;
        proof {
            crate::memory::lemma_uint_write_read_back(
                g1.memory,
                g2.memory,
                p1,
                ssize as u64,
                psize as nat,
            );
            crate::memory::lemma_uint_read_stable_after_write(
                g1.memory,
                g2.memory,
                vtable,
                psize as nat,
                p1,
                crate::endian::target_bytes_of(
                    g1.memory.layout_spec().endian,
                    ssize as u64,
                    g1.memory.psize(),
                ),
                Option::<crate::memory::AllocId>::None,
                0u64,
            );
        }
        let p2 = ptr_add(p1, psize)?;
        self.write_usize_checked(p2, salign as u64)?;
        let ghost g3 = *self;
        proof {
            crate::memory::lemma_uint_write_read_back(
                g2.memory,
                g3.memory,
                p2,
                salign as u64,
                psize as nat,
            );
            let src = crate::endian::target_bytes_of(
                g2.memory.layout_spec().endian,
                salign as u64,
                g2.memory.psize(),
            );
            crate::memory::lemma_uint_read_stable_after_write(
                g2.memory,
                g3.memory,
                vtable,
                psize as nat,
                p2,
                src,
                Option::<crate::memory::AllocId>::None,
                0u64,
            );
            crate::memory::lemma_uint_read_stable_after_write(
                g2.memory,
                g3.memory,
                p1,
                psize as nat,
                p2,
                src,
                Option::<crate::memory::AllocId>::None,
                ssize as u64,
            );
        }
        let mut i: usize = 0;
        while i < n_methods
            invariant
                self.inv(),
                old(self).evolves_to(self),
                self.stack == old(self).stack,
                self.statics == old(self).statics,
                n_methods == methods@.len(),
                psize <= 8,
                psize == self.memory.psize(),
                n_methods <= usize::MAX / 8 - 3,
                p1.alloc_id == vtable.alloc_id && p1.offset == vtable.offset + psize,
                p2.alloc_id == vtable.alloc_id && p2.offset == vtable.offset + 2 * psize,
                vtable.offset + 3 * psize <= usize::MAX,
                self.memory.spec_read_uint(vtable, psize as nat) == Ok::<u64, EvalError>(0u64),
                self.memory.spec_read_uint(p1, psize as nat) == Ok::<u64, EvalError>(
                    ssize as u64,
                ),
                self.memory.spec_read_uint(p2, psize as nat) == Ok::<u64, EvalError>(
                    salign as u64,
                ),
            decreases n_methods - i,
        {
            let (def_id, substs, fn_ty) = methods[i];
            let ghost gm0 = self.memory;
            let fn_ptr = self.memory.create_fn_ptr(def_id, substs, fn_ty);
            proof {
                assert(gm0.readable(vtable, psize as nat));
                assert(self.memory.is_alloc(vtable.alloc_id) && self.memory.allocation(
                    vtable.alloc_id,
                ) == gm0.allocation(vtable.alloc_id));
                crate::memory::lemma_read_stable(gm0, self.memory, vtable, psize as nat);
                crate::memory::lemma_read_stable(gm0, self.memory, p1, psize as nat);
                crate::memory::lemma_read_stable(gm0, self.memory, p2, psize as nat);
                assert((3 + i) * psize <= (3 + n_methods) * psize) by (nonlinear_arith)
                    requires
                        i < n_methods,
                        psize >= 0,
                ;
                assert((3 + n_methods) * psize <= usize::MAX) by (nonlinear_arith)
                    requires
                        n_methods <= usize::MAX / 8 - 3,
                        psize <= 8,
                ;
                assert(3 * psize <= (3 + i) * psize) by (nonlinear_arith)
                    requires
                        i >= 0,
                        psize >= 0,
                ;
            }
            let slot = ptr_add(vtable, (3 + i) * psize)?;
            let ghost gm1 = self.memory;
            self.write_ptr_checked(slot, fn_ptr)?;
            proof {
                let src = crate::endian::target_bytes_of(
                    gm1.layout_spec().endian,
                    fn_ptr.offset as u64,
                    gm1.psize(),
                );
                assert(gm1.allocation(slot.alloc_id).wf(gm1.psize()));
                assert((slot.offset as int) < gm1.allocation(slot.alloc_id).relocations@.len());
                crate::memory::lemma_uint_read_stable_after_write(
                    gm1,
                    self.memory,
                    vtable,
                    psize as nat,
                    slot,
                    src,
                    Some(fn_ptr.alloc_id),
                    0u64,
                );
                crate::memory::lemma_uint_read_stable_after_write(
                    gm1,
                    self.memory,
                    p1,
                    psize as nat,
                    slot,
                    src,
                    Some(fn_ptr.alloc_id),
                    ssize as u64,
                );
                crate::memory::lemma_uint_read_stable_after_write(
                    gm1,
                    self.memory,
                    p2,
                    psize as nat,
                    slot,
                    src,
                    Some(fn_ptr.alloc_id),
                    salign as u64,
                );
            }
            i = i + 1;
        }
        Ok(vtable)
    }

    /// Convert a primitive value to the given destination type.
    pub fn cast_primval(&mut self, prog: &Program, val: PrimVal, dest_ty: TyId) -> (r: EvalResult<
        PrimVal,
    >)
        requires
            old(self).inv(),
        ensures
            old(self).evolves_to(final(self)),
            *final(self) == *old(self),
            // a numeric cast to an integer type truncates two's-complement
            ({
                &&& dest_ty < prog.types@.len()
                &&& prog.types@[dest_ty as int].ty is Uint
                &&& spec_numeric(val) is Some
            }) ==> r == Ok::<PrimVal, EvalError>(
                crate::primval::mk_int(
                    8 * uwidth_nat(
                        old(self).memory.psize(),
                        prog.types@[dest_ty as int].ty->Uint_0,
                    ),
                    false,
                    crate::primval::wrap(
                        spec_numeric(val)->Some_0,
                        8 * uwidth_nat(
                            old(self).memory.psize(),
                            prog.types@[dest_ty as int].ty->Uint_0,
                        ),
                        false,
                    ),
                ),
            ),
            ({
                &&& dest_ty < prog.types@.len()
                &&& prog.types@[dest_ty as int].ty is Int
                &&& spec_numeric(val) is Some
            }) ==> r == Ok::<PrimVal, EvalError>(
                crate::primval::mk_int(
                    8 * iwidth_nat(
                        old(self).memory.psize(),
                        prog.types@[dest_ty as int].ty->Int_0,
                    ),
                    true,
                    crate::primval::wrap(
                        spec_numeric(val)->Some_0,
                        8 * iwidth_nat(
                            old(self).memory.psize(),
                            prog.types@[dest_ty as int].ty->Int_0,
                        ),
                        true,
                    ),
                ),
            ),
    {
        let psize = self.memory.pointer_size();
        let desc = type_desc(prog, dest_ty)?;
        let numeric: Option<i128> = match val {
            PrimVal::Bool(b) => Some(
                if b {
                    1
                } else {
                    0
                },
            ),
            PrimVal::Char(c) => Some(c as i128),
            PrimVal::IntegerPtr(n) => Some(n as i128),
            PrimVal::I8(x) => Some(x as i128),
            PrimVal::I16(x) => Some(x as i128),
            PrimVal::I32(x) => Some(x as i128),
            PrimVal::I64(x) => Some(x as i128),
            PrimVal::U8(x) => Some(x as i128),
            PrimVal::U16(x) => Some(x as i128),
            PrimVal::U32(x) => Some(x as i128),
            PrimVal::U64(x) => Some(x as i128),
            _ => None,
        };
        match desc.ty {
            Ty::Int(w) => {
                match numeric {
                    Some(n) => {
                        let size = iwidth_size(psize, w);
                        Ok(cast_to_int(n, size, true))
                    },
                    None => Err(EvalError::Unimplemented(Unsupported::InvalidCast)),
                }
            },
            Ty::Uint(w) => {
                match numeric {
                    Some(n) => {
                        let size = uwidth_size(psize, w);
                        Ok(cast_to_int(n, size, false))
                    },
                    None => Err(EvalError::Unimplemented(Unsupported::InvalidCast)),
                }
            },
            Ty::Char => {
                match numeric {
                    Some(n) => {
                        if 0 <= n && (n < 0xD800 || (0xE000 <= n && n <= 0x10FFFF)) {
                            Ok(PrimVal::Char(n as u32))
                        } else {
                            Err(EvalError::InvalidChar(if n >= 0 {
                                n as u64
                            } else {
                                0
                            }))
                        }
                    },
                    None => Err(EvalError::Unimplemented(Unsupported::InvalidCast)),
                }
            },
            Ty::RawPtr(_) | Ty::Ref(_) | Ty::Boxed(_) | Ty::FnPtr => {
                match val {
                    PrimVal::AbstractPtr(p) => Ok(PrimVal::AbstractPtr(p)),
                    PrimVal::FnPtr(p) => Ok(PrimVal::FnPtr(p)),
                    PrimVal::IntegerPtr(n) => Ok(PrimVal::IntegerPtr(n)),
                    _ => {
                        match numeric {
                            Some(n) => {
                                if n >= 0 && n <= u64::MAX as i128 {
                                    Ok(PrimVal::IntegerPtr(n as u64))
                                } else {
                                    Err(EvalError::Unimplemented(Unsupported::InvalidCast))
                                }
                            },
                            None => Err(EvalError::Unimplemented(Unsupported::InvalidCast)),
                        }
                    },
                }
            },
            _ => Err(EvalError::Unimplemented(Unsupported::InvalidCast)),
        }
    }
}

impl Machine {
    /// Execute one assignment: evaluate the rvalue and write it into the
    /// destination place of type `dest_ty`.
    #[verifier::loop_isolation(false)]
    pub fn eval_assignment(
        &mut self,
        prog: &Program,
        lvalue: &Lvalue,
        dest_ty: TyId,
        rvalue: &Rvalue,
    ) -> (r: EvalResult<()>)
        requires
            old(self).inv(),
        ensures
            old(self).evolves_to(final(self)),
            final(self).stack == old(self).stack,
            final(self).statics == old(self).statics,
            // a `Use` of a plain place into a plain place is the typed copy,
            // and succeeds exactly when the copy is legal
            ({
                &&& spec_dest(*old(self), *lvalue) matches Some(dp)
                &&& rvalue matches Rvalue::Use(op) && spec_leaf_consume_src(
                    *old(self),
                    *op,
                ) is Some
                &&& dest_ty < prog.types@.len()
            }) ==> ({
                let dp = spec_dest(*old(self), *lvalue)->Some_0;
                let src = spec_leaf_consume_src(*old(self), rvalue->Use_0)->Some_0;
                let size = prog.types@[dest_ty as int].size as nat;
                &&& ((r matches Ok(_)) <==> old(self).memory.copy_ok(src.0, dp, size))
                &&& (r matches Ok(_) ==> final(self).memory.copy_effect(
                    &old(self).memory,
                    src.0,
                    dp,
                    size,
                ))
            }),
            // referencing a plain place stores its address with provenance,
            // and succeeds exactly when the pointer slot takes it
            ({
                &&& spec_dest(*old(self), *lvalue) matches Some(dp)
                &&& rvalue matches Rvalue::Ref(lv) && spec_designator(*old(self), *lv) matches Some(
                    res,
                ) && res matches Ok(pl) && pl.extra is Nothing
            }) ==> ({
                let dp = spec_dest(*old(self), *lvalue)->Some_0;
                let pl = spec_designator(*old(self), rvalue->Ref_0)->Some_0->Ok_0;
                let psize = old(self).memory.psize();
                &&& ((r matches Ok(_)) <==> ((pl.ptr.offset as nat) < crate::endian::pow256(psize)
                    && dp.offset + psize <= usize::MAX && old(self).memory.writable(dp, psize)))
                &&& (r matches Ok(_) ==> final(self).memory.spec_read_ptr(dp) == Ok::<
                    Pointer,
                    EvalError,
                >(pl.ptr))
            }),
            // a checked binary operation on literal unsigned operands lands
            // the wrapped result and, at the tuple layout's second offset,
            // the overflow flag
            ({
                &&& spec_dest(*old(self), *lvalue) matches Some(dp)
                &&& rvalue matches Rvalue::CheckedBinaryOp(op2, l2, r2) && (spec_uint_const(
                    *prog,
                    old(self).memory.psize(),
                    *l2,
                ) matches Some(ac) && (spec_uint_const(
                    *prog,
                    old(self).memory.psize(),
                    *r2,
                ) matches Some(bc) && ac.1 == bc.1))
                &&& dest_ty < prog.types@.len()
                &&& prog.types@[dest_ty as int].shape matches LayoutShape::Univariant(v)
                    && v.field_offsets@.len() >= 2 && v.field_offsets@[1]
                    >= spec_uint_const(*prog, old(self).memory.psize(), rvalue->CheckedBinaryOp_1)->Some_0.1
            }) ==> (r matches Ok(_) ==> ({
                let dp = spec_dest(*old(self), *lvalue)->Some_0;
                let op2 = rvalue->CheckedBinaryOp_0;
                let ac = spec_uint_const(
                    *prog,
                    old(self).memory.psize(),
                    rvalue->CheckedBinaryOp_1,
                )->Some_0;
                let bc = spec_uint_const(
                    *prog,
                    old(self).memory.psize(),
                    rvalue->CheckedBinaryOp_2,
                )->Some_0;
                let fo = prog.types@[dest_ty as int].shape->Univariant_0.field_offsets@[1];
                let lv2 = crate::primval::mk_bits(8 * ac.1, false, ac.0);
                let rv3 = crate::primval::mk_bits(8 * bc.1, false, bc.0);
                crate::primval::spec_binary_op(op2, lv2, rv3) matches Ok(pair)
                    && (crate::primval::is_int(pair.0)
                    && crate::primval::int_width(pair.0) == 8 * ac.1
                    ==> final(self).memory.spec_read_uint(dp, ac.1) == Ok::<u64, EvalError>(
                    crate::primval::int_bits(pair.0),
                )) && (spec_ptr_add(dp, fo as nat) matches Ok(fp)
                    && final(self).memory.spec_read_bool(fp) == Ok::<bool, EvalError>(pair.1))
            })),
            // aggregate effects surface here for a plain destination: the
            // discriminant of a general or C-like enum, and both variants of
            // a nullable-pointer enum
            ({
                &&& spec_dest(*old(self), *lvalue) matches Some(dp)
                &&& rvalue matches Rvalue::Aggregate(kind, ops) && (
                kind matches AggregateKind::Adt(a, v) && ops@.len() == 0 && a < prog.adts@.len()
                    && v < prog.adts@[a as int].variants@.len() && dest_ty < prog.types@.len()
                    && (prog.types@[dest_ty as int].shape matches LayoutShape::General {
                    discr_size,
                    ..
                } && crate::endian::valid_int_size(discr_size as nat)))
            }) ==> (r matches Ok(_) ==> ({
                let dp = spec_dest(*old(self), *lvalue)->Some_0;
                let kind = rvalue->Aggregate_0;
                let ds = prog.types@[dest_ty as int].shape->General_discr_size;
                let dv = prog.adts@[kind->Adt_0 as int].variants@[kind->Adt_1 as int].disr_val;
                final(self).memory.spec_read_uint(dp, ds as nat) == Ok::<u64, EvalError>(dv)
            })),
            ({
                &&& spec_dest(*old(self), *lvalue) matches Some(dp)
                &&& rvalue matches Rvalue::Aggregate(kind, ops) && (
                kind matches AggregateKind::Adt(a, v) && a < prog.adts@.len() && v < prog.adts@[
                    a as int
                ].variants@.len() && dest_ty < prog.types@.len() && (prog.types@[
                    dest_ty as int
                ].shape matches LayoutShape::CEnum { discr_size, signed } && !signed
                    && crate::endian::valid_int_size(discr_size as nat)))
            }) ==> (r matches Ok(_) ==> ({
                let dp = spec_dest(*old(self), *lvalue)->Some_0;
                let kind = rvalue->Aggregate_0;
                let ds = prog.types@[dest_ty as int].shape->CEnum_discr_size;
                let dv = prog.adts@[kind->Adt_0 as int].variants@[kind->Adt_1 as int].disr_val;
                final(self).memory.spec_read_uint(dp, ds as nat) == Ok::<u64, EvalError>(dv)
            })),
            ({
                &&& spec_dest(*old(self), *lvalue) matches Some(dp)
                &&& rvalue matches Rvalue::Aggregate(kind, ops) && (
                kind matches AggregateKind::Adt(a, v) && a < prog.adts@.len() && v < prog.adts@[
                    a as int
                ].variants@.len() && dest_ty < prog.types@.len() && (prog.types@[
                    dest_ty as int
                ].shape matches LayoutShape::CEnum { discr_size, signed } && signed
                    && crate::endian::valid_int_size(discr_size as nat)))
            }) ==> (r matches Ok(_) ==> ({
                let dp = spec_dest(*old(self), *lvalue)->Some_0;
                let kind = rvalue->Aggregate_0;
                let ds = prog.types@[dest_ty as int].shape->CEnum_discr_size;
                let dv = prog.adts@[kind->Adt_0 as int].variants@[kind->Adt_1 as int].disr_val;
                final(self).memory.spec_read_int(dp, ds as nat) == Ok::<i64, EvalError>(dv as i64)
            })),
            // the non-null variant of a nullable-pointer enum copies its
            // single plain-place operand unchanged
            ({
                &&& spec_dest(*old(self), *lvalue) matches Some(dp)
                &&& rvalue matches Rvalue::Aggregate(kind, ops) && (
                kind matches AggregateKind::Adt(a, v) && ops@.len() == 1 && dest_ty
                    < prog.types@.len() && (prog.types@[dest_ty as int].shape matches
                LayoutShape::RawNullablePointer { nndiscr } && v as u64 == nndiscr))
                &&& spec_leaf_consume_src(*old(self), rvalue->Aggregate_1@[0]) matches Some(src)
                    && src.1 < prog.types@.len()
            }) ==> (r matches Ok(_) ==> ({
                let dp = spec_dest(*old(self), *lvalue)->Some_0;
                let src = spec_leaf_consume_src(*old(self), rvalue->Aggregate_1@[0])->Some_0;
                final(self).memory.copy_effect(
                    &old(self).memory,
                    src.0,
                    dp,
                    prog.types@[src.1 as int].size as nat,
                )
            })),
            // the null variant of a nullable-pointer enum assigns the
            // all-zero pointer-sized pattern
            ({
                &&& spec_dest(*old(self), *lvalue) matches Some(dp)
                &&& rvalue matches Rvalue::Aggregate(kind, ops) && (
                kind matches AggregateKind::Adt(a, v) && ops@.len() == 0 && dest_ty
                    < prog.types@.len()
                    && (prog.types@[dest_ty as int].shape matches
                LayoutShape::RawNullablePointer { nndiscr } && v as u64 != nndiscr))
            }) ==> (r matches Ok(_) ==> final(self).memory.spec_read_uint(
                spec_dest(*old(self), *lvalue)->Some_0,
                old(self).memory.psize(),
            ) == Ok::<u64, EvalError>(0)) && ((r matches Ok(_)) <==> ({
                let dp = spec_dest(*old(self), *lvalue)->Some_0;
                dp.offset as int % old(self).memory.int_align_spec(
                    old(self).memory.psize(),
                ) as int == 0 && old(self).memory.writable(dp, old(self).memory.psize())
            })),
    {
        proof {
            crate::endian::lemma_pow256_values();
        }
        let psize = self.memory.pointer_size();
        let dest = self.eval_lvalue(prog, lvalue)?.to_ptr()?;
        match rvalue {
            Rvalue::Use(operand) => {
                let src = self.eval_operand(prog, operand)?;
                self.move_value(prog, src, dest, dest_ty)
            },
            Rvalue::BinaryOp(bin_op, left, right) => {
                // the overflow bit is dropped: the front-end inserted its
                // own check branches
                let _ = self.intrinsic_overflowing(prog, *bin_op, left, right, dest)?;
                Ok(())
            },
            Rvalue::CheckedBinaryOp(bin_op, left, right) => {
                self.intrinsic_with_overflow(prog, *bin_op, left, right, dest, dest_ty)
            },
            Rvalue::UnaryOp(un_op, operand) => {
                let ptr = self.eval_operand(prog, operand)?;
                let val = self.read_primval(prog, ptr, operand_ty(operand))?;
                let result = crate::primval::unary_op(*un_op, val)?;
                self.memory.write_primval(dest, result)
            },
            Rvalue::Aggregate(kind, operands) => {
                self.eval_aggregate(prog, dest, dest_ty, *kind, operands)
            },
            Rvalue::Repeat(operand, _) => {
                let (elem_ty, length) = match type_desc(prog, dest_ty)?.ty {
                    Ty::Array(t, n) => (t, n),
                    _ => {
                        return Err(EvalError::Unimplemented(Unsupported::MalformedProgram));
                    },
                };
                let elem_size = type_desc(prog, elem_ty)?.size;
                let src = self.eval_operand(prog, operand)?;
                let mut i: usize = 0;
                while i < length
                    invariant
                        self.inv(),
                        old(self).evolves_to(self),
                        self.stack == old(self).stack,
                        self.statics == old(self).statics,
                    decreases length - i,
                {
                    let off = mul_to_u128(i, elem_size);
                    if off > usize::MAX as u128 {
                        return Err(EvalError::Unimplemented(Unsupported::ValueDoesNotFit));
                    }
                    let elem_dest = ptr_add(dest, off as usize)?;
                    self.memory.copy(src, elem_dest, elem_size)?;
                    i = i + 1;
                }
                Ok(())
            },
            Rvalue::Len(lv, lv_ty) => {
                let place = self.eval_lvalue(prog, lv)?;
                match type_desc(prog, *lv_ty)?.ty {
                    Ty::Array(_, n) => self.write_usize_checked(dest, n as u64),
                    Ty::Slice(_) => {
                        match place.extra {
                            PlaceExtra::Length(n) => self.write_usize_checked(dest, n),
                            _ => Err(EvalError::Unimplemented(Unsupported::MalformedProgram)),
                        }
                    },
                    _ => Err(EvalError::Unimplemented(Unsupported::MalformedProgram)),
                }
            },
            Rvalue::Ref(lv) => {
                let place = self.eval_lvalue(prog, lv)?;
                let (ptr, extra) = self.get_fat_ptr(dest)?;
                let ghost pre_write = *self;
                self.write_ptr_checked(ptr, place.ptr)?;
                proof {
                    assert(pre_write.memory.inv());
                    assert(self.memory.inv());
                    assert(pre_write.memory.writable(ptr, pre_write.memory.psize()));
                    assert((place.ptr.offset as nat) < crate::endian::pow256(
                        pre_write.memory.psize(),
                    ));
                    assert(self.memory.write_effect(
                        &pre_write.memory,
                        ptr,
                        crate::endian::target_bytes_of(
                            pre_write.memory.layout_spec().endian,
                            place.ptr.offset as u64,
                            pre_write.memory.psize(),
                        ),
                        Some(place.ptr.alloc_id),
                    ));
                    crate::memory::lemma_pointer_round_trip(
                        pre_write.memory,
                        self.memory,
                        ptr,
                        place.ptr,
                    );
                }
                match place.extra {
                    PlaceExtra::Nothing => Ok(()),
                    PlaceExtra::Length(len) => self.write_usize_checked(extra, len),
                    PlaceExtra::Vtable(vt) => self.write_ptr_checked(extra, vt),
                    PlaceExtra::DowncastVariant(_) => Err(
                        EvalError::Unimplemented(Unsupported::ReferenceToDowncast),
                    ),
                }
            },
            Rvalue::BoxAlloc(ty) => {
                let d = type_desc(prog, *ty)?;
                let (size, align) = (d.size, d.align);
                let ptr = self.allocate_checked(size, align)?;
                self.write_ptr_checked(dest, ptr)
            },
            Rvalue::Cast(kind, operand, cast_ty) => {
                match kind {
                    CastKind::Unsize => {
                        let src = self.eval_operand(prog, operand)?;
                        let src_ty = operand_ty(operand);
                        let (ptr, extra) = self.get_fat_ptr(dest)?;
                        self.move_value(prog, src, ptr, src_ty)?;
                        let src_pointee = match type_desc(prog, src_ty)?.ty.pointee() {
                            Some(t) => t,
                            None => {
                                return Err(
                                    EvalError::Unimplemented(Unsupported::InvalidUnsize),
                                );
                            },
                        };
                        let dest_pointee = match type_desc(prog, *cast_ty)?.ty.pointee() {
                            Some(t) => t,
                            None => {
                                return Err(
                                    EvalError::Unimplemented(Unsupported::InvalidUnsize),
                                );
                            },
                        };
                        let spt = type_desc(prog, src_pointee)?.ty;
                        let dpt = type_desc(prog, dest_pointee)?.ty;
                        match (spt, dpt) {
                            (Ty::Array(_, length), Ty::Slice(_)) => {
                                self.write_usize_checked(extra, length as u64)
                            },
                            (Ty::Trait(_), Ty::Trait(_)) => {
                                // marker-trait upcasts keep the same vtable
                                let (_, src_extra) = self.get_fat_ptr(src)?;
                                let vt = self.memory.read_ptr(src_extra)?;
                                self.write_ptr_checked(extra, vt)
                            },
                            (_, Ty::Trait(trait_id)) => {
                                let vt = self.get_vtable(prog, src_pointee, trait_id)?;
                                self.write_ptr_checked(extra, vt)
                            },
                            _ => Err(EvalError::Unimplemented(Unsupported::InvalidUnsize)),
                        }
                    },
                    CastKind::Misc => {
                        let src = self.eval_operand(prog, operand)?;
                        let src_ty = operand_ty(operand);
                        if type_is_fat_ptr(prog, src_ty)? {
                            if type_is_fat_ptr(prog, *cast_ty)? {
                                if psize > usize::MAX / 2 {
                                    return Err(
                                        EvalError::Unimplemented(Unsupported::ValueDoesNotFit),
                                    );
                                }
                                self.memory.copy(src, dest, psize * 2)
                            } else {
                                // fat to thin keeps the data pointer only
                                self.memory.copy(src, dest, psize)
                            }
                        } else {
                            let src_val = self.read_primval(prog, src, src_ty)?;
                            let dest_val = self.cast_primval(prog, src_val, *cast_ty)?;
                            self.memory.write_primval(dest, dest_val)
                        }
                    },
                    CastKind::ReifyFnPointer => {
                        match type_desc(prog, operand_ty(operand))?.ty {
                            Ty::FnDef(def_id, substs, fn_ty) => {
                                let fn_ptr = self.memory.create_fn_ptr(def_id, substs, fn_ty);
                                self.write_ptr_checked(dest, fn_ptr)
                            },
                            _ => Err(EvalError::Unimplemented(Unsupported::MalformedProgram)),
                        }
                    },
                    CastKind::UnsafeFnPointer => {
                        let src = self.eval_operand(prog, operand)?;
                        let ptr = self.memory.read_ptr(src)?;
                        let def = self.memory.get_fn(ptr.alloc_id)?;
                        let fn_ptr = self.memory.create_fn_ptr(def.def_id, def.substs, *cast_ty);
                        self.write_ptr_checked(dest, fn_ptr)
                    },
                }
            },
            Rvalue::InlineAsm => Err(EvalError::Unimplemented(Unsupported::InlineAsm)),
        }
    }

    /// Initialize a composite value, dispatching on the destination layout.
    #[verifier::rlimit(100)]
    pub fn eval_aggregate(
        &mut self,
        prog: &Program,
        dest: Pointer,
        dest_ty: TyId,
        kind: AggregateKind,
        operands: &Vec<Operand>,
    ) -> (r: EvalResult<()>)
        requires
            old(self).inv(),
        ensures
            old(self).evolves_to(final(self)),
            final(self).stack == old(self).stack,
            final(self).statics == old(self).statics,
            // the null variant of a nullable-pointer enum is a pointer-sized
            // zero: the all-zero pattern names it
            ({
                &&& dest_ty < prog.types@.len()
                &&& prog.types@[dest_ty as int].shape matches LayoutShape::RawNullablePointer {
                    nndiscr,
                } && (kind matches AggregateKind::Adt(a, v) && v as u64 != nndiscr)
                &&& operands@.len() == 0
            }) ==> (r matches Ok(_) ==> final(self).memory.spec_read_uint(
                dest,
                old(self).memory.psize(),
            ) == Ok::<u64, EvalError>(0)) && ((r matches Ok(_)) <==> (dest.offset as int % old(self).memory.int_align_spec(old(self).memory.psize()) as int == 0 && old(self).memory.writable(dest, old(self).memory.psize()))),
            // the non-null variant copies its single operand's bytes (with
            // their init bits and provenance) to the destination unchanged
            ({
                &&& dest_ty < prog.types@.len()
                &&& prog.types@[dest_ty as int].shape matches LayoutShape::RawNullablePointer {
                    nndiscr,
                } && (kind matches AggregateKind::Adt(a, v) && v as u64 == nndiscr)
                &&& operands@.len() == 1
                &&& spec_leaf_consume_src(*old(self), operands@[0]) matches Some(src) && src.1
                    < prog.types@.len()
            }) ==> (r matches Ok(_) ==> ({
                let src = spec_leaf_consume_src(*old(self), operands@[0])->Some_0;
                final(self).memory.copy_effect(
                    &old(self).memory,
                    src.0,
                    dest,
                    prog.types@[src.1 as int].size as nat,
                )
            })),
            // a C-like enum stores the variant's declared discriminant,
            // unsigned or signed per the layout
            ({
                &&& dest_ty < prog.types@.len()
                &&& prog.types@[dest_ty as int].shape matches LayoutShape::CEnum {
                    discr_size,
                    signed,
                } && !signed && crate::endian::valid_int_size(discr_size as nat)
                &&& kind matches AggregateKind::Adt(a, v) && a < prog.adts@.len() && v
                    < prog.adts@[a as int].variants@.len()
            }) ==> (r matches Ok(_) ==> ({
                let ds = prog.types@[dest_ty as int].shape->CEnum_discr_size;
                let dv = prog.adts@[kind->Adt_0 as int].variants@[kind->Adt_1 as int].disr_val;
                final(self).memory.spec_read_uint(dest, ds as nat) == Ok::<u64, EvalError>(dv)
            })),
            ({
                &&& dest_ty < prog.types@.len()
                &&& prog.types@[dest_ty as int].shape matches LayoutShape::CEnum {
                    discr_size,
                    signed,
                } && signed && crate::endian::valid_int_size(discr_size as nat)
                &&& kind matches AggregateKind::Adt(a, v) && a < prog.adts@.len() && v
                    < prog.adts@[a as int].variants@.len()
            }) ==> (r matches Ok(_) ==> ({
                let ds = prog.types@[dest_ty as int].shape->CEnum_discr_size;
                let dv = prog.adts@[kind->Adt_0 as int].variants@[kind->Adt_1 as int].disr_val;
                final(self).memory.spec_read_int(dest, ds as nat) == Ok::<i64, EvalError>(
                    dv as i64,
                )
            })),
            // a general enum's discriminant lands at offset 0 (for a variant
            // without payload nothing else is touched)
            ({
                &&& dest_ty < prog.types@.len()
                &&& prog.types@[dest_ty as int].shape matches LayoutShape::General {
                    discr_size,
                    variants,
                } && crate::endian::valid_int_size(discr_size as nat)
                &&& kind matches AggregateKind::Adt(a, v) && a < prog.adts@.len() && v
                    < prog.adts@[a as int].variants@.len()
                &&& operands@.len() == 0
            }) ==> (r matches Ok(_) ==> ({
                let ds = prog.types@[dest_ty as int].shape->General_discr_size;
                let dv = prog.adts@[kind->Adt_0 as int].variants@[kind->Adt_1 as int].disr_val;
                final(self).memory.spec_read_uint(dest, ds as nat) == Ok::<u64, EvalError>(dv)
            })),
    {
        proof {
            crate::endian::lemma_pow256_values();
        }
        let desc = type_desc(prog, dest_ty)?;
        match &desc.shape {
            LayoutShape::Univariant(v) => {
                let offsets = &v.field_offsets;
                self.assign_fields_slice(prog, dest, offsets, operands, 0)
            },
            LayoutShape::Array => {
                let elem_ty = match desc.ty {
                    Ty::Array(t, _) => t,
                    _ => {
                        return Err(EvalError::Unimplemented(Unsupported::MalformedProgram));
                    },
                };
                let elem_size = type_desc(prog, elem_ty)?.size;
                let n = operands.len();
                let mut i: usize = 0;
                while i < n
                    invariant
                        self.inv(),
                        old(self).evolves_to(self),
                        self.stack == old(self).stack,
                        self.statics == old(self).statics,
                        n == operands@.len(),
                    decreases n - i,
                {
                    let off = mul_to_u128(i, elem_size);
                    if off > usize::MAX as u128 {
                        return Err(EvalError::Unimplemented(Unsupported::ValueDoesNotFit));
                    }
                    let operand = &operands[i];
                    let src = self.eval_operand(prog, operand)?;
                    let field_dest = ptr_add(dest, off as usize)?;
                    self.move_value(prog, src, field_dest, operand_ty(operand))?;
                    i = i + 1;
                }
                Ok(())
            },
            LayoutShape::General { discr_size, variants } => {
                let (adt_idx, variant) = match kind {
                    AggregateKind::Adt(a, v) => (a, v),
                    _ => {
                        return Err(EvalError::Unimplemented(Unsupported::MalformedProgram));
                    },
                };
                if adt_idx >= prog.adts.len() || variant >= prog.adts[adt_idx].variants.len()
                    || variant >= variants.len() {
                    return Err(EvalError::Unimplemented(Unsupported::MalformedProgram));
                }
                let discr_val = prog.adts[adt_idx].variants[variant].disr_val;
                let size = *discr_size;
                if !(size == 1 || size == 2 || size == 4 || size == 8) {
                    return Err(EvalError::Unimplemented(Unsupported::MalformedProgram));
                }
                if size < 8 {
                    let limit: u64 = if size == 1 {
                        0x100
                    } else if size == 2 {
                        0x10000
                    } else {
                        0x1_0000_0000
                    };
                    if discr_val >= limit {
                        return Err(EvalError::Unimplemented(Unsupported::MalformedProgram));
                    }
                }
                let ghost pre = *self;
                self.memory.write_uint(dest, discr_val, size)?;
                proof {
                    crate::memory::lemma_uint_write_read_back(
                        pre.memory,
                        self.memory,
                        dest,
                        discr_val,
                        size as nat,
                    );
                }
                let offsets = &variants[variant].field_offsets;
                self.assign_fields_slice(prog, dest, offsets, operands, 0)
            },
            LayoutShape::RawNullablePointer { nndiscr } => {
                let variant = match kind {
                    AggregateKind::Adt(_, v) => v,
                    _ => {
                        return Err(EvalError::Unimplemented(Unsupported::MalformedProgram));
                    },
                };
                if *nndiscr == variant as u64 {
                    if operands.len() != 1 {
                        return Err(EvalError::Unimplemented(Unsupported::MalformedProgram));
                    }
                    let operand = &operands[0];
                    let src = self.eval_operand(prog, operand)?;
                    self.move_value(prog, src, dest, operand_ty(operand))
                } else {
                    if operands.len() != 0 {
                        return Err(EvalError::Unimplemented(Unsupported::MalformedProgram));
                    }
                    let ghost pre = *self;
                    self.memory.write_isize(dest, 0)?;
                    proof {
                        crate::memory::lemma_uint_write_read_back(
                            pre.memory,
                            self.memory,
                            dest,
                            0,
                            pre.memory.psize(),
                        );
                    }
                    Ok(())
                }
            },
            LayoutShape::StructWrappedNullablePointer { nndiscr, nonnull, discrfield } => {
                let variant = match kind {
                    AggregateKind::Adt(_, v) => v,
                    _ => {
                        return Err(EvalError::Unimplemented(Unsupported::MalformedProgram));
                    },
                };
                if *nndiscr == variant as u64 {
                    let offsets = &nonnull.field_offsets;
                    self.assign_fields_slice(prog, dest, offsets, operands, 0)
                } else {
                    if operands.len() != 0 {
                        return Err(EvalError::Unimplemented(Unsupported::MalformedProgram));
                    }
                    let offset = self.nonnull_offset(prog, dest_ty, *nndiscr, discrfield)?;
                    let field_dest = ptr_add(dest, offset)?;
                    self.memory.write_isize(field_dest, 0)
                }
            },
            LayoutShape::CEnum { discr_size, signed } => {
                if operands.len() != 0 {
                    return Err(EvalError::Unimplemented(Unsupported::MalformedProgram));
                }
                let (adt_idx, variant) = match kind {
                    AggregateKind::Adt(a, v) => (a, v),
                    _ => {
                        return Err(EvalError::Unimplemented(Unsupported::MalformedProgram));
                    },
                };
                if adt_idx >= prog.adts.len() || variant >= prog.adts[adt_idx].variants.len() {
                    return Err(EvalError::Unimplemented(Unsupported::MalformedProgram));
                }
                let val = prog.adts[adt_idx].variants[variant].disr_val;
                let size = *discr_size;
                if !(size == 1 || size == 2 || size == 4 || size == 8) {
                    return Err(EvalError::Unimplemented(Unsupported::MalformedProgram));
                }
                if *signed {
                    if size < 8 {
                        let half: u64 = if size == 1 {
                            0x80
                        } else if size == 2 {
                            0x8000
                        } else {
                            0x8000_0000
                        };
                        let v = val as i64;
                        if v < -(half as i64) || v >= half as i64 {
                            return Err(EvalError::Unimplemented(Unsupported::MalformedProgram));
                        }
                        let ghost pre = *self;
                        self.memory.write_int(dest, v, size)?;
                        proof {
                            crate::memory::lemma_int_write_read_back(
                                pre.memory,
                                self.memory,
                                dest,
                                v,
                                size as nat,
                            );
                        }
                        Ok(())
                    } else {
                        let ghost pre = *self;
                        self.memory.write_int(dest, val as i64, size)?;
                        proof {
                            crate::memory::lemma_int_write_read_back(
                                pre.memory,
                                self.memory,
                                dest,
                                val as i64,
                                size as nat,
                            );
                        }
                        Ok(())
                    }
                } else {
                    if size < 8 {
                        let limit: u64 = if size == 1 {
                            0x100
                        } else if size == 2 {
                            0x10000
                        } else {
                            0x1_0000_0000
                        };
                        if val >= limit {
                            return Err(EvalError::Unimplemented(Unsupported::MalformedProgram));
                        }
                    }
                    let ghost pre = *self;
                    self.memory.write_uint(dest, val, size)?;
                    proof {
                        crate::memory::lemma_uint_write_read_back(
                            pre.memory,
                            self.memory,
                            dest,
                            val,
                            size as nat,
                        );
                    }
                    Ok(())
                }
            },
            _ => Err(EvalError::Unimplemented(Unsupported::AssignmentLayout)),
        }
    }

    /// Like `assign_fields`, but skipping the first `skip` layout offsets.
    fn assign_fields_slice(
        &mut self,
        prog: &Program,
        dest: Pointer,
        offsets: &Vec<usize>,
        operands: &Vec<Operand>,
        skip: usize,
    ) -> (r: EvalResult<()>)
        requires
            old(self).inv(),
        ensures
            old(self).evolves_to(final(self)),
            final(self).stack == old(self).stack,
            final(self).statics == old(self).statics,
            operands@.len() == 0 && skip <= offsets@.len() ==> r == Ok::<(), EvalError>(())
                && *final(self) == *old(self),
    {
        if skip > offsets.len() {
            return Err(EvalError::Unimplemented(Unsupported::MalformedProgram));
        }
        let avail = offsets.len() - skip;
        let n = if avail < operands.len() {
            avail
        } else {
            operands.len()
        };
        let mut i: usize = 0;
        while i < n
            invariant
                self.inv(),
                old(self).evolves_to(self),
                self.stack == old(self).stack,
                self.statics == old(self).statics,
                n == 0 ==> *self == *old(self),
                n + skip <= offsets@.len(),
                n + skip <= usize::MAX,
                n <= operands@.len(),
            decreases n - i,
        {
            let operand = &operands[i];
            let src = self.eval_operand(prog, operand)?;
            let field_dest = ptr_add(dest, offsets[skip + i])?;
            self.move_value(prog, src, field_dest, operand_ty(operand))?;
            i = i + 1;
        }
        Ok(())
    }
}

/// Add two extraction counts without overflowing (the exact number only
/// matters as zero or nonzero).
fn addc(a: u64, b: u64) -> (r: u64)
    ensures
        (r == 0) <==> (a == 0 && b == 0),
{
    if a > u64::MAX - b {
        u64::MAX
    } else {
        a + b
    }
}

impl Machine {
    /// Execute a terminator: change control flow, return, or call.
    #[verifier::loop_isolation(false)]
    #[verifier::rlimit(100)]
    #[verifier::spinoff_prover]
    pub fn eval_terminator(&mut self, prog: &Program, span: usize, term: &Terminator) -> (r:
        EvalResult<()>)
        requires
            old(self).inv(),
        ensures
            old(self).evolves_to(final(self)),
            // a pushed callee frame leaves every caller frame untouched
            final(self).stack@.len() > old(self).stack@.len() ==> forall|i: int|
                0 <= i < old(self).stack@.len() ==> final(self).stack@[i] == old(self).stack@[i],
            // plain jumps move the current frame's position and nothing else
            term matches Terminator::Goto { target } ==> (old(self).stack@.len() > 0 ==> r
                == Ok::<(), EvalError>(()) && final(self).memory == old(self).memory && final(self).stack@ == old(self).stack@.update(
                old(self).stack@.len() - 1,
                Frame { block: *target, stmt: 0, ..old(self).stack@.last() },
            )),
            term matches Terminator::Drop { target } ==> (old(self).stack@.len() > 0 ==> r
                == Ok::<(), EvalError>(()) && final(self).memory == old(self).memory && final(self).stack@ == old(self).stack@.update(
                old(self).stack@.len() - 1,
                Frame { block: *target, stmt: 0, ..old(self).stack@.last() },
            )),
            term matches Terminator::Unreachable ==> r == Err::<(), _>(
                EvalError::Unimplemented(Unsupported::InvalidOperation),
            ) && *final(self) == *old(self),
            // a return pops its frame
            term matches Terminator::Return ==> (r matches Ok(_) ==> final(self).stack@.len() + 1
                == old(self).stack@.len()),
            // an integer switch on a plain place takes the matching value's
            // edge, else the otherwise edge; a read failure is the result
            term matches Terminator::SwitchInt { discr, discr_size, values, targets } ==> (({
                &&& spec_designator(*old(self), *discr) matches Some(bres) && bres matches Ok(pl)
                    && pl.extra is Nothing
                &&& crate::endian::valid_int_size(discr_size as nat)
                &&& targets@.len() == values@.len() + 1
            }) ==> ({
                let pl = spec_designator(*old(self), *discr)->Some_0->Ok_0;
                match old(self).memory.spec_read_uint(pl.ptr, discr_size as nat) {
                    Ok(v) => r matches Ok(_) ==> (old(self).stack@.len() > 0 && final(self).stack@ == old(self).stack@.update(
                        old(self).stack@.len() - 1,
                        Frame {
                            block: spec_switch_pick(values@, targets@, v, 0),
                            stmt: 0,
                            ..old(self).stack@.last()
                        },
                    )),
                    Err(e) => r == Err::<(), EvalError>(e),
                }
            })),
            // a variant switch on a plain place takes one of its per-variant
            // edges (which one, the discriminant read decides)
            term matches Terminator::Switch { discr, ty, targets } ==> (({
                &&& spec_designator(*old(self), *discr) matches Some(bres) && bres matches Ok(pl)
                    && pl.extra is Nothing
            }) ==> (r matches Ok(_) ==> (old(self).stack@.len() > 0 && exists|vr: int|
                0 <= vr < targets@.len() && final(self).stack@ == old(self).stack@.update(
                    old(self).stack@.len() - 1,
                    Frame {
                        block: #[trigger] targets@[vr],
                        stmt: 0,
                        ..old(self).stack@.last()
                    },
                )))),
            // a branch on a literal condition takes exactly its edge
            term matches Terminator::If { cond, then_target, else_target } ==> (spec_bool_const(
                *cond,
            ) matches Some(b) ==> (r matches Ok(_) ==> (old(self).stack@.len() > 0 && final(self).stack@ == old(self).stack@.update(
                old(self).stack@.len() - 1,
                Frame {
                    block: if b {
                        *then_target
                    } else {
                        *else_target
                    },
                    stmt: 0,
                    ..old(self).stack@.last()
                },
            )))),
    {
        match term {
            Terminator::Goto { target } => self.goto_block(*target),
            Terminator::If { cond, then_target, else_target } => {
                let ptr = self.eval_operand(prog, cond)?;
                let b = self.memory.read_bool(ptr)?;
                self.goto_block(
                    if b {
                        *then_target
                    } else {
                        *else_target
                    },
                )
            },
            Terminator::SwitchInt { discr, discr_size, values, targets } => {
                let place = self.eval_lvalue(prog, discr)?;
                let ptr = place.to_ptr()?;
                let size = *discr_size;
                if !(size == 1 || size == 2 || size == 4 || size == 8) {
                    return Err(EvalError::Unimplemented(Unsupported::MalformedProgram));
                }
                let v = self.memory.read_uint(ptr, size)?;
                if values.len() >= targets.len() || targets.len() != values.len() + 1 {
                    return Err(EvalError::Unimplemented(Unsupported::MalformedProgram));
                }
                let n = values.len();
                let mut i: usize = 0;
                while i < n
                    invariant
                        self.inv(),
                        old(self).evolves_to(self),
                        self.stack == old(self).stack,
                        n < targets@.len(),
                        n == values@.len(),
                        spec_switch_pick(values@, targets@, v, 0) == spec_switch_pick(
                            values@,
                            targets@,
                            v,
                            i as int,
                        ),
                    decreases n - i,
                {
                    if values[i] == v {
                        proof {
                            assert(spec_switch_pick(values@, targets@, v, i as int)
                                == targets@[i as int]);
                        }
                        return self.goto_block(targets[i]);
                    }
                    i = i + 1;
                }
                proof {
                    assert(spec_switch_pick(values@, targets@, v, n as int)
                        == targets@[n as int]);
                }
                self.goto_block(targets[n])
            },
            Terminator::Switch { discr, ty, targets } => {
                let place = self.eval_lvalue(prog, discr)?;
                let ptr = place.to_ptr()?;
                let variant = self.read_discriminant(prog, ptr, *ty)?;
                if variant >= targets.len() {
                    return Err(EvalError::Unimplemented(Unsupported::MalformedProgram));
                }
                self.goto_block(targets[variant])
            },
            Terminator::Return => self.pop_stack_frame(),
            Terminator::Drop { target } => self.goto_block(*target),
            Terminator::Unreachable => Err(
                EvalError::Unimplemented(Unsupported::InvalidOperation),
            ),
            Terminator::Call { func, args, destination } => {
                self.eval_call(prog, span, func, args, destination)
            },
        }
    }

    /// Which variant an enum value currently holds.
    #[verifier::loop_isolation(false)]
    pub fn read_discriminant(&mut self, prog: &Program, ptr: Pointer, ty: TyId) -> (r: EvalResult<
        usize,
    >)
        requires
            old(self).inv(),
        ensures
            old(self).evolves_to(final(self)),
            *final(self) == *old(self),
            // a nullable-pointer enum's variant is decided by the zero test
            // (a slot holding a pointer is never all-zero plain bytes)
            ({
                &&& ty < prog.types@.len()
                &&& prog.types@[ty as int].ty matches Ty::Adt(a) && a < prog.adts@.len()
                &&& prog.types@[ty as int].shape matches LayoutShape::RawNullablePointer {
                    nndiscr,
                } && nndiscr <= 1
            }) ==> r == ({
                let nn = prog.types@[ty as int].shape->RawNullablePointer_nndiscr;
                match old(self).memory.spec_read_uint(ptr, old(self).memory.psize()) {
                    Ok(v) => if v == 0 {
                        Ok((1 - nn) as usize)
                    } else {
                        Ok(nn as usize)
                    },
                    Err(e) => if e == EvalError::ReadPointerAsBytes {
                        Ok::<usize, EvalError>(nn as usize)
                    } else {
                        Err(e)
                    },
                }
            }),
            // a read discriminant names the variant that declared it
            ({
                &&& ty < prog.types@.len()
                &&& prog.types@[ty as int].ty matches Ty::Adt(a) && a < prog.adts@.len()
                &&& (prog.types@[ty as int].shape matches LayoutShape::General { discr_size, .. }
                    && crate::endian::valid_int_size(discr_size as nat))
            }) ==> (r matches Ok(v) ==> ({
                let a = prog.types@[ty as int].ty->Adt_0;
                let ds = prog.types@[ty as int].shape->General_discr_size;
                v < prog.adts@[a as int].variants@.len() && old(self).memory.spec_read_uint(
                    ptr,
                    ds as nat,
                ) == Ok::<u64, EvalError>(prog.adts@[a as int].variants@[v as int].disr_val)
            })),
    {
        let desc = type_desc(prog, ty)?;
        let adt_idx = match desc.ty {
            Ty::Adt(a) => a,
            _ => {
                return Err(EvalError::Unimplemented(Unsupported::MalformedProgram));
            },
        };
        if adt_idx >= prog.adts.len() {
            return Err(EvalError::Unimplemented(Unsupported::MalformedProgram));
        }
        let variants = &prog.adts[adt_idx].variants;
        match &desc.shape {
            LayoutShape::General { discr_size, .. } | LayoutShape::CEnum {
                discr_size,
                ..
            } => {
                let size = *discr_size;
                if !(size == 1 || size == 2 || size == 4 || size == 8) {
                    return Err(EvalError::Unimplemented(Unsupported::MalformedProgram));
                }
                let v = self.memory.read_uint(ptr, size)?;
                let n = variants.len();
                let mut i: usize = 0;
                while i < n
                    decreases n - i,
                {
                    if variants[i].disr_val == v {
                        return Ok(i);
                    }
                    i = i + 1;
                }
                Err(EvalError::Unimplemented(Unsupported::InvalidOperation))
            },
            LayoutShape::RawNullablePointer { nndiscr } => {
                let nn = *nndiscr;
                if nn > 1 {
                    return Err(EvalError::Unimplemented(Unsupported::MalformedProgram));
                }
                match self.memory.read_usize(ptr) {
                    Ok(v) => {
                        if v == 0 {
                            Ok((1 - nn) as usize)
                        } else {
                            Ok(nn as usize)
                        }
                    },
                    // a stored pointer cannot be read as plain bytes: the
                    // slot holds the non-null variant
                    Err(EvalError::ReadPointerAsBytes) => Ok(nn as usize),
                    Err(e) => Err(e),
                }
            },
            LayoutShape::StructWrappedNullablePointer { nndiscr, discrfield, .. } => {
                let nn = *nndiscr;
                if nn > 1 {
                    return Err(EvalError::Unimplemented(Unsupported::MalformedProgram));
                }
                let offset = self.nonnull_offset(prog, ty, nn, discrfield)?;
                let field_ptr = ptr_add(ptr, offset)?;
                match self.memory.read_usize(field_ptr) {
                    Ok(v) => {
                        if v == 0 {
                            Ok((1 - nn) as usize)
                        } else {
                            Ok(nn as usize)
                        }
                    },
                    // a stored pointer cannot be read as plain bytes: the
                    // slot holds the non-null variant
                    Err(EvalError::ReadPointerAsBytes) => Ok(nn as usize),
                    Err(e) => Err(e),
                }
            },
            _ => Err(EvalError::Unimplemented(Unsupported::MalformedProgram)),
        }
    }

    /// Resolve and perform a call: push a frame for an IR body, dispatch an
    /// intrinsic, or fail (classified) on a foreign function.
    #[verifier::loop_isolation(false)]
    fn eval_call(
        &mut self,
        prog: &Program,
        span: usize,
        func: &Operand,
        args: &Vec<Operand>,
        destination: &Option<(Lvalue, usize)>,
    ) -> (r: EvalResult<()>)
        requires
            old(self).inv(),
        ensures
            old(self).evolves_to(final(self)),
            // a call pushes at most the callee's frame; frames below the
            // caller's stay untouched (the caller's own position may move)
            final(self).stack@.len() >= old(self).stack@.len(),
            final(self).stack@.len() <= old(self).stack@.len() + 1,
            forall|i: int|
                0 <= i < old(self).stack@.len() - 1 ==> final(self).stack@[i] == old(self).stack@[i],
            final(self).stack@.len() > old(self).stack@.len() ==> forall|i: int|
                0 <= i < old(self).stack@.len() ==> final(self).stack@[i] == old(self).stack@[i],
            // a callee with a body runs in a fresh frame for its definition
            ({
                &&& func matches Operand::Constant(c) && c.ty < prog.types@.len()
                &&& prog.types@[spec_operand_ty(*func) as int].ty matches Ty::FnDef(d, su, f2)
                    && spec_resolve(*prog, d) matches Ok(k) && k is Body
            }) ==> (r matches Ok(_) ==> ({
                let d = prog.types@[spec_operand_ty(*func) as int].ty->FnDef_0;
                &&& final(self).stack@.len() == old(self).stack@.len() + 1
                &&& final(self).stack@.last().def_id == d
                &&& final(self).stack@.last().mir == CachedMir::Ref(
                    spec_resolve(*prog, d)->Ok_0->Body_0,
                )
            })),
            // an intrinsic writes into the caller's frame and stays there
            ({
                &&& func matches Operand::Constant(c) && c.ty < prog.types@.len()
                &&& prog.types@[spec_operand_ty(*func) as int].ty matches Ty::FnDef(d, su, f2)
                    && spec_resolve(*prog, d) matches Ok(k) && k is Intrinsic
            }) ==> (r matches Ok(_) ==> final(self).stack@.len() == old(self).stack@.len()),
    {
        let fty = type_desc(prog, operand_ty(func))?;
        let (def_id, substs) = match fty.ty {
            Ty::FnDef(d, s, _) => (d, s),
            Ty::FnPtr => {
                let p = self.eval_operand(prog, func)?;
                let fp = self.memory.read_ptr(p)?;
                let def = self.memory.get_fn(fp.alloc_id)?;
                (def.def_id, def.substs)
            },
            _ => {
                return Err(EvalError::Unimplemented(Unsupported::BadCallee));
            },
        };
        let dest: Option<(Pointer, usize)> = match destination {
            Some((lv, target)) => {
                let p = self.eval_lvalue(prog, lv)?.to_ptr()?;
                Some((p, *target))
            },
            None => None,
        };
        let nargs = args.len();
        let mut arg_srcs: Vec<(Pointer, TyId)> = Vec::new();
        let mut i: usize = 0;
        while i < nargs
            invariant
                self.inv(),
                old(self).evolves_to(self),
                self.stack == old(self).stack,
                nargs == args@.len(),
            decreases nargs - i,
        {
            let op = &args[i];
            let p = self.eval_operand(prog, op)?;
            arg_srcs.push((p, operand_ty(op)));
            i = i + 1;
        }
        match resolve_def(prog, def_id)? {
            DefKind::Body(b) => {
                let (ret_ptr, cleanup): (Option<Pointer>, StackPopCleanup) = match dest {
                    Some((p, t)) => (Some(p), StackPopCleanup::Goto(t)),
                    None => (None, StackPopCleanup::Nothing),
                };
                self.push_stack_frame(
                    prog,
                    def_id,
                    span,
                    CachedMir::Ref(b),
                    substs,
                    ret_ptr,
                    cleanup,
                )?;
                let ghost pushed_stack = self.stack@;
                let n = arg_srcs.len();
                let mut i: usize = 0;
                while i < n
                    invariant
                        self.inv(),
                        old(self).evolves_to(self),
                        n == arg_srcs@.len(),
                        self.stack@ == pushed_stack,
                        pushed_stack.len() == old(self).stack@.len() + 1,
                        forall|j: int|
                            0 <= j < old(self).stack@.len() ==> pushed_stack[j] == old(self).stack@[j],
                    decreases n - i,
                {
                    let (src, ty) = arg_srcs[i];
                    let nf = self.stack.len();
                    if nf == 0 {
                        return Err(EvalError::Unimplemented(Unsupported::MalformedProgram));
                    }
                    let f = &self.stack[nf - 1];
                    if i >= f.locals.len() {
                        return Err(EvalError::Unimplemented(Unsupported::MalformedProgram));
                    }
                    let dst = f.locals[i];
                    self.move_value(prog, src, dst, ty)?;
                    i = i + 1;
                }
                Ok(())
            },
            DefKind::Intrinsic(intr) => {
                match intr {
                    Intrinsic::Transmute => {
                        let (dptr, target) = match dest {
                            Some(x) => x,
                            None => {
                                return Err(
                                    EvalError::Unimplemented(Unsupported::MalformedProgram),
                                );
                            },
                        };
                        if arg_srcs.len() != 1 {
                            return Err(EvalError::Unimplemented(Unsupported::MalformedProgram));
                        }
                        let (src, ty) = arg_srcs[0];
                        self.move_value(prog, src, dptr, ty)?;
                        self.goto_block(target)
                    },
                }
            },
            DefKind::Foreign => Err(EvalError::CantCallCAbi(def_id)),
        }
    }

    /// Push frames for every global item or promoted the place references
    /// that is not cached yet; returns how many were pushed.
    fn extract_lvalue(
        &mut self,
        prog: &Program,
        fr_def: u64,
        fr_substs: u64,
        span: usize,
        lv: &Lvalue,
    ) -> (r: EvalResult<u64>)
        requires
            old(self).inv(),
        ensures
            old(self).evolves_to(final(self)),
            final(self).stack@.len() >= old(self).stack@.len(),
            forall|i: int|
                0 <= i < old(self).stack@.len() ==> final(self).stack@[i] == old(self).stack@[i],
            r matches Ok(n) ==> (n == 0 ==> *final(self) == *old(self)),
            r matches Ok(n) ==> (n != 0 ==> final(self).stack@.len() > old(self).stack@.len()),
            !lvalue_extracts(*lv) ==> r == Ok::<u64, EvalError>(0) && *final(self) == *old(self),
        decreases *lv,
    {
        match lv {
            Lvalue::Static(def_id) => self.global_item(prog, *def_id, 0, span),
            Lvalue::Projection(proj) => {
                let a = self.extract_lvalue(prog, fr_def, fr_substs, span, &proj.base)?;
                let b = match &proj.elem {
                    ProjectionElem::Index(op) => {
                        self.extract_operand(prog, fr_def, fr_substs, span, op)?
                    },
                    _ => 0,
                };
                Ok(addc(a, b))
            },
            _ => Ok(0),
        }
    }

    /// See `extract_lvalue`.
    fn extract_operand(
        &mut self,
        prog: &Program,
        fr_def: u64,
        fr_substs: u64,
        span: usize,
        op: &Operand,
    ) -> (r: EvalResult<u64>)
        requires
            old(self).inv(),
        ensures
            old(self).evolves_to(final(self)),
            final(self).stack@.len() >= old(self).stack@.len(),
            forall|i: int|
                0 <= i < old(self).stack@.len() ==> final(self).stack@[i] == old(self).stack@[i],
            r matches Ok(n) ==> (n == 0 ==> *final(self) == *old(self)),
            r matches Ok(n) ==> (n != 0 ==> final(self).stack@.len() > old(self).stack@.len()),
            !operand_extracts(*op) ==> r == Ok::<u64, EvalError>(0) && *final(self) == *old(self),
        decreases *op,
    {
        match op {
            Operand::Consume(lv, _) => self.extract_lvalue(prog, fr_def, fr_substs, span, lv),
            Operand::Constant(c) => {
                match &c.literal {
                    Literal::Value(_) => Ok(0),
                    Literal::Item { def_id, substs } => {
                        let d = type_desc(prog, c.ty)?;
                        if matches!(d.ty, Ty::FnDef(_, _, _)) {
                            Ok(0)
                        } else {
                            self.global_item(prog, *def_id, *substs, c.span)
                        }
                    },
                    Literal::Promoted(index) => {
                        self.promoted_item(prog, fr_def, fr_substs, *index, c.span)
                    },
                }
            },
        }
    }

    /// See `extract_lvalue`.
    #[verifier::loop_isolation(false)]
    fn extract_rvalue(
        &mut self,
        prog: &Program,
        fr_def: u64,
        fr_substs: u64,
        span: usize,
        rv: &Rvalue,
    ) -> (r: EvalResult<u64>)
        requires
            old(self).inv(),
        ensures
            old(self).evolves_to(final(self)),
            final(self).stack@.len() >= old(self).stack@.len(),
            forall|i: int|
                0 <= i < old(self).stack@.len() ==> final(self).stack@[i] == old(self).stack@[i],
            r matches Ok(n) ==> (n == 0 ==> *final(self) == *old(self)),
            r matches Ok(n) ==> (n != 0 ==> final(self).stack@.len() > old(self).stack@.len()),
            !rvalue_extracts(*rv) ==> r == Ok::<u64, EvalError>(0) && *final(self) == *old(self),
        decreases *rv,
    {
        match rv {
            Rvalue::Use(op) => self.extract_operand(prog, fr_def, fr_substs, span, op),
            Rvalue::BinaryOp(_, l, r2) | Rvalue::CheckedBinaryOp(_, l, r2) => {
                let a = self.extract_operand(prog, fr_def, fr_substs, span, l)?;
                let b = self.extract_operand(prog, fr_def, fr_substs, span, r2)?;
                Ok(addc(a, b))
            },
            Rvalue::UnaryOp(_, op) => self.extract_operand(prog, fr_def, fr_substs, span, op),
            Rvalue::Aggregate(_, ops) => {
                let n = ops.len();
                let mut total: u64 = 0;
                let mut i: usize = 0;
                while i < n
                    invariant
                        self.inv(),
                        old(self).evolves_to(self),
                        n == ops@.len(),
                        self.stack@.len() >= old(self).stack@.len(),
                        forall|j: int|
                            0 <= j < old(self).stack@.len() ==> self.stack@[j] == old(self).stack@[j],
                        total == 0 ==> *self == *old(self),
                        total != 0 ==> self.stack@.len() > old(self).stack@.len(),
                        !rvalue_extracts(*rv) ==> total == 0 && *self == *old(self),
                    decreases n - i,
                {
                    proof {
                        if operand_extracts(ops@[i as int]) {
                            assert(exists|j: int|
                                0 <= j < ops@.len() && operand_extracts(#[trigger] ops@[j])) by {
                                assert(operand_extracts(ops@[i as int]));
                            }
                            assert(rvalue_extracts(*rv));
                        }
                    }
                    let c = self.extract_operand(prog, fr_def, fr_substs, span, &ops[i])?;
                    total = addc(total, c);
                    i = i + 1;
                }
                Ok(total)
            },
            Rvalue::Repeat(op, _) => self.extract_operand(prog, fr_def, fr_substs, span, op),
            Rvalue::Len(lv, _) => self.extract_lvalue(prog, fr_def, fr_substs, span, lv),
            Rvalue::Ref(lv) => self.extract_lvalue(prog, fr_def, fr_substs, span, lv),
            Rvalue::Cast(_, op, _) => self.extract_operand(prog, fr_def, fr_substs, span, op),
            Rvalue::BoxAlloc(_) => Ok(0),
            Rvalue::InlineAsm => Ok(0),
        }
    }

    /// See `extract_lvalue`.
    fn extract_statement(
        &mut self,
        prog: &Program,
        fr_def: u64,
        fr_substs: u64,
        st: &Statement,
    ) -> (r: EvalResult<u64>)
        requires
            old(self).inv(),
        ensures
            old(self).evolves_to(final(self)),
            final(self).stack@.len() >= old(self).stack@.len(),
            forall|i: int|
                0 <= i < old(self).stack@.len() ==> final(self).stack@[i] == old(self).stack@[i],
            r matches Ok(n) ==> (n == 0 ==> *final(self) == *old(self)),
            r matches Ok(n) ==> (n != 0 ==> final(self).stack@.len() > old(self).stack@.len()),
            !lvalue_extracts(st.lvalue) && !rvalue_extracts(st.rvalue) ==> r == Ok::<
                u64,
                EvalError,
            >(0) && *final(self) == *old(self),
    {
        let a = self.extract_lvalue(prog, fr_def, fr_substs, st.span, &st.lvalue)?;
        let b = self.extract_rvalue(prog, fr_def, fr_substs, st.span, &st.rvalue)?;
        Ok(addc(a, b))
    }

    /// See `extract_lvalue`.
    #[verifier::loop_isolation(false)]
    fn extract_terminator(
        &mut self,
        prog: &Program,
        fr_def: u64,
        fr_substs: u64,
        span: usize,
        term: &Terminator,
    ) -> (r: EvalResult<u64>)
        requires
            old(self).inv(),
        ensures
            old(self).evolves_to(final(self)),
            final(self).stack@.len() >= old(self).stack@.len(),
            forall|i: int|
                0 <= i < old(self).stack@.len() ==> final(self).stack@[i] == old(self).stack@[i],
            r matches Ok(n) ==> (n == 0 ==> *final(self) == *old(self)),
            r matches Ok(n) ==> (n != 0 ==> final(self).stack@.len() > old(self).stack@.len()),
            !terminator_extracts(*term) ==> r == Ok::<u64, EvalError>(0) && *final(self)
                == *old(self),
    {
        match term {
            Terminator::If { cond, .. } => {
                self.extract_operand(prog, fr_def, fr_substs, span, cond)
            },
            Terminator::SwitchInt { discr, .. } => {
                self.extract_lvalue(prog, fr_def, fr_substs, span, discr)
            },
            Terminator::Switch { discr, .. } => {
                self.extract_lvalue(prog, fr_def, fr_substs, span, discr)
            },
            Terminator::Call { func, args, destination } => {
                let mut total = self.extract_operand(prog, fr_def, fr_substs, span, func)?;
                let n = args.len();
                let mut i: usize = 0;
                while i < n
                    invariant
                        self.inv(),
                        old(self).evolves_to(self),
                        n == args@.len(),
                        self.stack@.len() >= old(self).stack@.len(),
                        forall|j: int|
                            0 <= j < old(self).stack@.len() ==> self.stack@[j] == old(self).stack@[j],
                        total == 0 ==> *self == *old(self),
                        total != 0 ==> self.stack@.len() > old(self).stack@.len(),
                        !terminator_extracts(*term) ==> total == 0 && *self == *old(self),
                    decreases n - i,
                {
                    proof {
                        if operand_extracts(args@[i as int]) {
                            assert(exists|j: int|
                                0 <= j < args@.len() && operand_extracts(#[trigger] args@[j])) by {
                                assert(operand_extracts(args@[i as int]));
                            }
                            assert(terminator_extracts(*term));
                        }
                    }
                    let c = self.extract_operand(prog, fr_def, fr_substs, span, &args[i])?;
                    total = addc(total, c);
                    i = i + 1;
                }
                match destination {
                    Some((lv, _)) => {
                        let c = self.extract_lvalue(prog, fr_def, fr_substs, span, lv)?;
                        Ok(addc(total, c))
                    },
                    None => Ok(total),
                }
            },
            _ => Ok(0),
        }
    }

    /// Materialize a global item if it is not cached: allocate its slot,
    /// record it, and push a frame that computes and then freezes it.
    fn global_item(&mut self, prog: &Program, def_id: u64, substs: u64, span: usize) -> (r:
        EvalResult<u64>)
        requires
            old(self).inv(),
        ensures
            old(self).evolves_to(final(self)),
            final(self).stack@.len() >= old(self).stack@.len(),
            forall|i: int|
                0 <= i < old(self).stack@.len() ==> final(self).stack@[i] == old(self).stack@[i],
            r matches Ok(n) ==> n == 0 || n == 1,
            // a cache hit touches nothing
            statics_lookup(
                old(self).statics@,
                ConstantId { def_id, substs, kind: ConstantKind::Global },
            ) is Some ==> r == Ok::<u64, EvalError>(0) && *final(self) == *old(self),
            r matches Ok(n) ==> (n == 0 ==> *final(self) == *old(self)),
            r matches Ok(n) ==> (n != 0 ==> final(self).stack@.len() > old(self).stack@.len()),
            // a miss allocates the slot, caches it under the key, and pushes
            // the frame that will compute it and seal it on return
            r matches Ok(n) ==> (n != 0 ==> ({
                let cid = ConstantId { def_id, substs, kind: ConstantKind::Global };
                &&& statics_lookup(old(self).statics@, cid) is None
                &&& statics_lookup(final(self).statics@, cid) is Some
                &&& final(self).stack@.len() == old(self).stack@.len() + 1
                &&& ({
                    let f = final(self).stack@.last();
                    let slot = statics_lookup(final(self).statics@, cid)->Some_0;
                    &&& f.def_id == def_id
                    &&& f.substs == substs
                    &&& f.block == 0
                    &&& f.stmt == 0
                    &&& f.return_ptr == Some(slot)
                    &&& f.return_to_block == (if slot.alloc_id == zst_alloc_id() {
                        StackPopCleanup::Nothing
                    } else {
                        StackPopCleanup::Freeze(slot.alloc_id)
                    })
                })
            })),
    {
        let cid = ConstantId { def_id, substs, kind: ConstantKind::Global };
        if self.lookup_constant(cid).is_some() {
            return Ok(0);
        }
        let b = match resolve_def(prog, def_id)? {
            DefKind::Body(b) => b,
            _ => {
                return Err(EvalError::Unimplemented(Unsupported::MalformedProgram));
            },
        };
        let mir = cached_mir(prog, CachedMir::Ref(b))?;
        let return_ty = mir.return_ty;
        let ptr = self.alloc_ret_ptr(prog, return_ty)?;
        self.cache_constant(cid, ptr);
        let cleanup = if ptr.points_to_zst() {
            StackPopCleanup::Nothing
        } else {
            StackPopCleanup::Freeze(ptr.alloc_id)
        };
        self.push_stack_frame(prog, def_id, span, CachedMir::Ref(b), substs, Some(ptr), cleanup)?;
        Ok(1)
    }

    /// Materialize a promoted constant of the current body, if not cached.
    fn promoted_item(
        &mut self,
        prog: &Program,
        fr_def: u64,
        fr_substs: u64,
        index: usize,
        span: usize,
    ) -> (r: EvalResult<u64>)
        requires
            old(self).inv(),
        ensures
            old(self).evolves_to(final(self)),
            final(self).stack@.len() >= old(self).stack@.len(),
            forall|i: int|
                0 <= i < old(self).stack@.len() ==> final(self).stack@[i] == old(self).stack@[i],
            r matches Ok(n) ==> n == 0 || n == 1,
            statics_lookup(
                old(self).statics@,
                ConstantId { def_id: fr_def, substs: fr_substs, kind: ConstantKind::Promoted(index) },
            ) is Some ==> r == Ok::<u64, EvalError>(0) && *final(self) == *old(self),
            r matches Ok(n) ==> (n == 0 ==> *final(self) == *old(self)),
            r matches Ok(n) ==> (n != 0 ==> final(self).stack@.len() > old(self).stack@.len()),
            r matches Ok(n) ==> (n != 0 ==> ({
                let cid = ConstantId {
                    def_id: fr_def,
                    substs: fr_substs,
                    kind: ConstantKind::Promoted(index),
                };
                &&& statics_lookup(old(self).statics@, cid) is None
                &&& statics_lookup(final(self).statics@, cid) is Some
                &&& final(self).stack@.len() == old(self).stack@.len() + 1
                &&& ({
                    let f = final(self).stack@.last();
                    let slot = statics_lookup(final(self).statics@, cid)->Some_0;
                    &&& f.def_id == fr_def
                    &&& f.substs == fr_substs
                    &&& f.block == 0
                    &&& f.stmt == 0
                    &&& f.return_ptr == Some(slot)
                    &&& f.return_to_block == (if slot.alloc_id == zst_alloc_id() {
                        StackPopCleanup::Nothing
                    } else {
                        StackPopCleanup::Freeze(slot.alloc_id)
                    })
                })
            })),
    {
        let cid = ConstantId { def_id: fr_def, substs: fr_substs, kind: ConstantKind::Promoted(index) };
        if self.lookup_constant(cid).is_some() {
            return Ok(0);
        }
        let (cm, _, _, _) = self.frame_identity()?;
        let b = match cm {
            CachedMir::Ref(b) => b,
            CachedMir::Promoted(_, _) => {
                // a promoted body referencing further promoteds is not
                // produced by the front-end
                return Err(EvalError::Unimplemented(Unsupported::MalformedProgram));
            },
        };
        let pm = cached_mir(prog, CachedMir::Promoted(b, index))?;
        let return_ty = pm.return_ty;
        let ptr = self.alloc_ret_ptr(prog, return_ty)?;
        self.cache_constant(cid, ptr);
        let cleanup = if ptr.points_to_zst() {
            StackPopCleanup::Nothing
        } else {
            StackPopCleanup::Freeze(ptr.alloc_id)
        };
        self.push_stack_frame(
            prog,
            fr_def,
            span,
            CachedMir::Promoted(b, index),
            fr_substs,
            Some(ptr),
            cleanup,
        )?;
        Ok(1)
    }

    /// One step of execution: run the constant extractor over the current
    /// statement or terminator, and if it pushed nothing, execute it.
    /// `Ok(true)` while work remains; `Ok(false)` on an empty stack, which
    /// leaves the machine untouched.
    pub fn step(&mut self, prog: &Program) -> (r: EvalResult<bool>)
        requires
            old(self).inv(),
        ensures
            old(self).evolves_to(final(self)),
            old(self).stack@.len() == 0 ==> r == Ok::<bool, EvalError>(false) && *final(self)
                == *old(self),
            r == Ok::<bool, EvalError>(false) ==> old(self).stack@.len() == 0,
            // while the stack is non-empty, work remains
            old(self).stack@.len() > 0 ==> (r matches Ok(b) ==> b == true),
            // frames the extractor pushed run first: every frame that was
            // already there, the interrupted one included, is untouched
            r matches Ok(_) ==> (final(self).stack@.len() > old(self).stack@.len()
                ==> forall|i: int|
                    0 <= i < old(self).stack@.len() ==> final(self).stack@[i] == old(self).stack@[i]),
            // at a pending statement, either constants were extracted (and
            // the statement waits), or it executed and the position advanced
            ({
                &&& old(self).stack@.len() > 0
                &&& mir_ok(*prog, old(self).stack@.last().mir)
                &&& old(self).stack@.last().block < spec_body(
                    *prog,
                    old(self).stack@.last().mir,
                ).basic_blocks@.len()
                &&& old(self).stack@.last().stmt < spec_body(
                    *prog,
                    old(self).stack@.last().mir,
                ).basic_blocks@[old(self).stack@.last().block as int].statements@.len()
            }) ==> (r matches Ok(_) ==> (final(self).stack@.len() > old(self).stack@.len()
                || final(self).stack@ == old(self).stack@.update(
                old(self).stack@.len() - 1,
                Frame {
                    stmt: (old(self).stack@.last().stmt + 1) as usize,
                    ..old(self).stack@.last()
                },
            ))),
    {
        let nf = self.stack.len();
        if nf == 0 {
            return Ok(false);
        }
        let (cm, fr_def, fr_substs, _) = match self.frame_identity() {
            Ok(x) => x,
            Err(e) => {
                return Err(e);
            },
        };
        let (block, stmt) = {
            let f = &self.stack[nf - 1];
            (f.block, f.stmt)
        };
        let mir = cached_mir(prog, cm)?;
        if block >= mir.basic_blocks.len() {
            return Err(EvalError::Unimplemented(Unsupported::MalformedProgram));
        }
        let bb = &mir.basic_blocks[block];
        if stmt < bb.statements.len() {
            let st = &bb.statements[stmt];
            let pushed = self.extract_statement(prog, fr_def, fr_substs, st)?;
            if pushed == 0 {
                self.eval_assignment(prog, &st.lvalue, st.ty, &st.rvalue)?;
                let n2 = self.stack.len();
                if n2 == 0 {
                    return Err(EvalError::Unimplemented(Unsupported::MalformedProgram));
                }
                let f = &mut self.stack[n2 - 1];
                if f.stmt < usize::MAX {
                    f.stmt = f.stmt + 1;
                }
            }
            // when the extractor pushed frames, they must run first; the
            // statement is retried on a later step
            return Ok(true);
        }
        let pushed = self.extract_terminator(prog, fr_def, fr_substs, bb.span, &bb.terminator)?;
        if pushed == 0 {
            self.eval_terminator(prog, bb.span, &bb.terminator)?;
        }
        Ok(true)
    }
}

/// Law: the constant cache only grows. Once a `(def_id, substs, kind)` key
/// answers with an allocation, every later machine state — after any number
/// of evaluation steps — answers the same key with the same allocation.
pub proof fn lemma_constant_caching(m1: Machine, m2: Machine, cid: ConstantId, p: Pointer)
    requires
        statics_lookup(m1.statics@, cid) == Some(p),
        m1.evolves_to(&m2),
    ensures
        statics_lookup(m2.statics@, cid) == Some(p),
{
    assert(statics_lookup(m1.statics@, cid) is Some);
}

/// One accepted step of the machine: what `step` guarantees whenever it
/// answers `Ok(true)` — the state evolves, frames pushed by the extractor
/// leave existing frames untouched, and a pending statement either waits
/// for them or executes and advances.
pub open spec fn step_ok(prog: Program, pre: Machine, post: Machine) -> bool {
    &&& pre.inv()
    &&& pre.evolves_to(&post)
    &&& pre.stack@.len() > 0
    &&& (post.stack@.len() > pre.stack@.len() ==> forall|i: int|
        0 <= i < pre.stack@.len() ==> post.stack@[i] == pre.stack@[i])
    &&& (({
        &&& mir_ok(prog, pre.stack@.last().mir)
        &&& pre.stack@.last().block < spec_body(prog, pre.stack@.last().mir).basic_blocks@.len()
        &&& pre.stack@.last().stmt < spec_body(prog, pre.stack@.last().mir).basic_blocks@[
            pre.stack@.last().block as int
        ].statements@.len()
    }) ==> (post.stack@.len() > pre.stack@.len() || post.stack@ == pre.stack@.update(
        pre.stack@.len() - 1,
        Frame { stmt: (pre.stack@.last().stmt + 1) as usize, ..pre.stack@.last() },
    )))
}

/// Every adjacent pair of the trace is an accepted step.
pub open spec fn steps_trace(prog: Program, trace: Seq<Machine>) -> bool {
    forall|i: int| 0 <= i < trace.len() - 1 ==> step_ok(prog, trace[i], #[trigger] trace[i + 1])
}

/// The complete interpreter: the front-end's program description plus the
/// machine state.
pub struct EvalContext {
    pub program: Program,
    pub machine: Machine,
}

impl EvalContext {
    pub open spec fn inv(&self) -> bool {
        self.machine.inv()
    }

    pub fn new(program: Program, memory_size: usize, stack_limit: usize) -> (r: Self)
        requires
            program.layout.wf(),
        ensures
            r.inv(),
            r.program == program,
            r.machine.stack@.len() == 0,
            r.machine.statics@.len() == 0,
            r.machine.stack_limit == stack_limit,
            r.machine.memory.layout_spec() == program.layout,
            r.machine.memory.size_spec() == memory_size,
            r.machine.memory.usage_spec() == 0,
            r.machine.memory.entries().len() == 1,
    {
        let layout = program.layout;
        EvalContext {
            program,
            machine: Machine {
                memory: Memory::new(layout, memory_size),
                statics: Vec::new(),
                stack: Vec::new(),
                stack_limit,
            },
        }
    }

    pub fn memory(&self) -> (r: &Memory)
        ensures
            r == &self.machine.memory,
    {
        &self.machine.memory
    }

    pub fn memory_mut(&mut self) -> (r: &mut Memory)
        ensures
            *r == old(self).machine.memory,
            *final(self) == (EvalContext {
                machine: Machine { memory: *final(r), ..old(self).machine },
                ..*old(self)
            }),
    {
        &mut self.machine.memory
    }

    pub fn stack(&self) -> (r: &Vec<Frame>)
        ensures
            r == &self.machine.stack,
    {
        &self.machine.stack
    }

    /// The current (topmost) frame.
    pub fn frame(&self) -> (r: EvalResult<&Frame>)
        ensures
            (r matches Ok(_)) <==> self.machine.stack@.len() > 0,
            r matches Ok(f) ==> *f == self.machine.stack@.last(),
    {
        let n = self.machine.stack.len();
        if n == 0 {
            return Err(EvalError::Unimplemented(Unsupported::MalformedProgram));
        }
        Ok(&self.machine.stack[n - 1])
    }

    /// The current frame, for mutation by the host.
    pub fn frame_mut(&mut self) -> (r: EvalResult<&mut Frame>)
        ensures
            (r matches Ok(_)) <==> old(self).machine.stack@.len() > 0,
            old(self).machine.stack@.len() == 0 ==> *final(self) == *old(self),
            r matches Ok(f) ==> {
                &&& *f == old(self).machine.stack@.last()
                &&& final(self).program == old(self).program
                &&& final(self).machine.memory == old(self).machine.memory
                &&& final(self).machine.statics == old(self).machine.statics
                &&& final(self).machine.stack_limit == old(self).machine.stack_limit
                &&& final(self).machine.stack@ == old(self).machine.stack@.update(
                    old(self).machine.stack@.len() - 1,
                    *final(f),
                )
            },
    {
        let n = self.machine.stack.len();
        if n == 0 {
            return Err(EvalError::Unimplemented(Unsupported::MalformedProgram));
        }
        Ok(&mut self.machine.stack[n - 1])
    }

    /// The body of a definition, as a frame would reference it. A missing
    /// body is a classified failure.
    pub fn load_mir(&self, def_id: u64) -> (r: EvalResult<CachedMir>)
        ensures
            r == (match spec_resolve(self.program, def_id) {
                Ok(k) => match k {
                    DefKind::Body(b) => Ok::<CachedMir, EvalError>(CachedMir::Ref(b)),
                    _ => Err(EvalError::MirNotFound(def_id)),
                },
                Err(e) => Err(e),
            }),
    {
        match resolve_def(&self.program, def_id)? {
            DefKind::Body(b) => Ok(CachedMir::Ref(b)),
            _ => Err(EvalError::MirNotFound(def_id)),
        }
    }

    /// The program's types arrive monomorphized, so substitution is already
    /// applied; the query is kept as the evaluator's interface to the
    /// adapter.
    pub fn monomorphize(&self, ty: TyId, _substs: u64) -> (r: TyId)
        ensures
            r == ty,
    {
        ty
    }

    pub fn alloc_ret_ptr(&mut self, ty: TyId, _substs: u64) -> (r: EvalResult<Pointer>)
        requires
            old(self).inv(),
        ensures
            final(self).inv(),
            final(self).program == old(self).program,
            old(self).machine.evolves_to(&final(self).machine),
            final(self).machine.stack == old(self).machine.stack,
            final(self).machine.statics == old(self).machine.statics,
            ty >= old(self).program.types@.len() ==> r == Err::<Pointer, _>(
                EvalError::Unimplemented(Unsupported::MalformedProgram),
            ),
            r matches Err(e) ==> (e == EvalError::Unimplemented(Unsupported::MalformedProgram)
                || e matches EvalError::OutOfMemory { .. }),
            ty < old(self).program.types@.len() ==> (r matches Ok(p) ==> {
                let d = old(self).program.types@[ty as int];
                &&& (d.size == 0 ==> p == (Pointer { alloc_id: zst_alloc_id(), offset: 0 }))
                &&& (d.size > 0 ==> p.offset == d.align && final(self).machine.memory.is_alloc(
                    p.alloc_id,
                ) && !old(self).machine.memory.is_alloc(p.alloc_id))
            }),
    {
        self.machine.alloc_ret_ptr(&self.program, ty)
    }

    pub fn push_stack_frame(
        &mut self,
        def_id: u64,
        span: usize,
        mir: CachedMir,
        substs: u64,
        return_ptr: Option<Pointer>,
        return_to_block: StackPopCleanup,
    ) -> (r: EvalResult<()>)
        requires
            old(self).inv(),
        ensures
            final(self).inv(),
            final(self).program == old(self).program,
            old(self).machine.evolves_to(&final(self).machine),
            final(self).machine.stack@.len() >= old(self).machine.stack@.len(),
            final(self).machine.stack@.len() <= old(self).machine.stack@.len() + 1,
            forall|i: int|
                0 <= i < old(self).machine.stack@.len() ==> final(self).machine.stack@[i] == old(self).machine.stack@[i],
            r matches Ok(_) ==> final(self).machine.stack@.len()
                == old(self).machine.stack@.len() + 1 && final(self).machine.stack@.len() <= old(self).machine.stack_limit,
            // what a pushed frame holds
            final(self).machine.stack@.len() == old(self).machine.stack@.len() + 1 ==> ({
                let f = final(self).machine.stack@.last();
                &&& f.mir == mir
                &&& f.def_id == def_id
                &&& f.substs == substs
                &&& f.span == span
                &&& f.return_ptr == return_ptr
                &&& f.return_to_block == return_to_block
                &&& f.block == 0
                &&& f.stmt == 0
            }),
            // the depth-limit error fires exactly when this push brought the
            // stack past the limit
            (r == Err::<(), EvalError>(EvalError::StackFrameLimitReached)) <==> (final(self).machine.stack@.len() == old(self).machine.stack@.len() + 1 && final(self).machine.stack@.len() > old(self).machine.stack_limit),
            // success is owed when the body resolves, its locals fit the
            // budget, and the limit is respected
            mir_ok(old(self).program, mir) && spec_locals_fit(
                old(self).program,
                spec_local_tys(spec_body(old(self).program, mir)),
                0,
                old(self).machine.memory.usage_spec() as int,
                old(self).machine.memory.size_spec() as int,
            ) && spec_local_tys(spec_body(old(self).program, mir)).len() <= usize::MAX && old(self).machine.stack@.len() + 1 <= old(self).machine.stack_limit ==> r matches Ok(_),
    {
        self.machine.push_stack_frame(
            &self.program,
            def_id,
            span,
            mir,
            substs,
            return_ptr,
            return_to_block,
        )
    }

    pub fn read_primval(&mut self, ptr: Pointer, ty: TyId) -> (r: EvalResult<PrimVal>)
        requires
            old(self).inv(),
        ensures
            final(self).inv(),
            final(self).program == old(self).program,
            old(self).machine.evolves_to(&final(self).machine),
            // every type but a function item reads purely, with the value a
            // function of the state
            spec_read_primval(old(self).machine.memory, old(self).program, ptr, ty) matches Some(
                res,
            ) ==> r == res && *final(self) == *old(self),
    {
        self.machine.read_primval(&self.program, ptr, ty)
    }

    /// One IR statement or terminator. `Ok(true)` while work remains;
    /// `Ok(false)` on an empty stack, with the state untouched.
    pub fn step(&mut self) -> (r: EvalResult<bool>)
        requires
            old(self).inv(),
        ensures
            final(self).inv(),
            final(self).program == old(self).program,
            old(self).machine.evolves_to(&final(self).machine),
            old(self).machine.stack@.len() == 0 ==> (r == Ok::<bool, EvalError>(false)
                && *final(self) == *old(self)),
            r == Ok::<bool, EvalError>(false) ==> old(self).machine.stack@.len() == 0,
            // while the stack is non-empty, work remains; pushed frames
            // leave every existing frame untouched
            old(self).machine.stack@.len() > 0 ==> (r matches Ok(b) ==> b == true),
            r matches Ok(_) ==> (final(self).machine.stack@.len() > old(self).machine.stack@.len() ==> forall|i: int|
                0 <= i < old(self).machine.stack@.len() ==> final(self).machine.stack@[i] == old(self).machine.stack@[i]),
            // at a pending statement, either constants were extracted (and
            // the statement waits), or it executed and the position advanced
            ({
                &&& old(self).machine.stack@.len() > 0
                &&& mir_ok(old(self).program, old(self).machine.stack@.last().mir)
                &&& old(self).machine.stack@.last().block < spec_body(
                    old(self).program,
                    old(self).machine.stack@.last().mir,
                ).basic_blocks@.len()
                &&& old(self).machine.stack@.last().stmt < spec_body(
                    old(self).program,
                    old(self).machine.stack@.last().mir,
                ).basic_blocks@[old(self).machine.stack@.last().block as int].statements@.len()
            }) ==> (r matches Ok(_) ==> (final(self).machine.stack@.len() > old(self).machine.stack@.len() || final(self).machine.stack@ == old(self).machine.stack@.update(
                old(self).machine.stack@.len() - 1,
                Frame {
                    stmt: (old(self).machine.stack@.last().stmt + 1) as usize,
                    ..old(self).machine.stack@.last()
                },
            ))),
    {
        Machine::step(&mut self.machine, &self.program)
    }

    /// Drive the stepper until the program finishes or the step budget is
    /// exhausted; a success means the frame stack ran empty. The final
    /// machine is reached from the initial one by a trace of accepted steps
    /// within the budget; the time-limit error comes only with a full trace.
    pub fn run(&mut self, step_limit: u64) -> (r: EvalResult<()>)
        requires
            old(self).inv(),
        ensures
            final(self).inv(),
            final(self).program == old(self).program,
            old(self).machine.evolves_to(&final(self).machine),
            r matches Ok(_) ==> final(self).machine.stack@.len() == 0,
            // an already-finished program needs no budget
            old(self).machine.stack@.len() == 0 ==> r == Ok::<(), EvalError>(()) && *final(self)
                == *old(self),
            exists|trace: Seq<Machine>|
                {
                    &&& 1 <= trace.len() <= step_limit + 1
                    &&& trace[0] == old(self).machine
                    &&& #[trigger] steps_trace(old(self).program, trace)
                    &&& (r matches Ok(_) ==> final(self).machine == trace.last() && trace.last().stack@.len() == 0)
                    &&& (r matches Err(e) ==> ((e == EvalError::ExecutionTimeLimitReached
                        && trace.len() == step_limit + 1 && final(self).machine == trace.last())
                        || trace.last().evolves_to(&final(self).machine)))
                },
    {
        let ghost mut trace: Seq<Machine> = seq![old(self).machine];
        if self.machine.stack.len() == 0 {
            proof {
                assert(steps_trace(old(self).program, trace));
            }
            return Ok(());
        }
        let mut k: u64 = 0;
        while k < step_limit
            invariant
                self.inv(),
                self.program == old(self).program,
                old(self).machine.evolves_to(&self.machine),
                old(self).machine.stack@.len() > 0,
                trace.len() == k + 1,
                k <= step_limit,
                trace[0] == old(self).machine,
                trace.last() == self.machine,
                steps_trace(old(self).program, trace),
            decreases step_limit - k,
        {
            let ghost pre_step = self.machine;
            match self.step() {
                Ok(true) => {},
                Ok(false) => {
                    return Ok(());
                },
                Err(e) => {
                    return Err(e);
                },
            }
            proof {
                assert(step_ok(old(self).program, pre_step, self.machine));
                let prev = trace;
                trace = trace.push(self.machine);
                assert(trace.last() == self.machine);
                assert forall|i: int| 0 <= i < trace.len() - 1 implies step_ok(
                    old(self).program,
                    trace[i],
                    #[trigger] trace[i + 1],
                ) by {
                    if i < prev.len() - 1 {
                        assert(trace[i] == prev[i] && trace[i + 1] == prev[i + 1]);
                        assert(step_ok(old(self).program, prev[i], prev[i + 1]));
                    } else {
                        assert(trace[i] == pre_step && trace[i + 1] == self.machine);
                    }
                }
            }
            k = k + 1;
        }
        Err(EvalError::ExecutionTimeLimitReached)
    }
}

/// Run a program from its entry function until it terminates or a limit is
/// reached. The context is returned for inspection together with the
/// outcome; the caller decides how to report a failure.
pub fn eval_main(
    program: Program,
    def_id: u64,
    memory_size: usize,
    step_limit: u64,
    stack_limit: usize,
) -> (r: (EvalContext, EvalResult<()>))
    requires
        program.layout.wf(),
    ensures
        r.0.inv(),
        r.1 matches Ok(_) ==> r.0.machine.stack@.len() == 0,
        // a normal exit is reached by stepping: the returned context's
        // machine ends a step-relation trace that drained the stack
        r.1 matches Ok(_) ==> exists|trace: Seq<Machine>|
            {
                &&& 1 <= trace.len() <= step_limit + 1
                &&& #[trigger] steps_trace(r.0.program, trace)
                &&& r.0.machine == trace.last()
                &&& trace.last().stack@.len() == 0
            },
        // an entry point without a body is the classified failure
        !(spec_resolve(r.0.program, def_id) matches Ok(k) && k is Body) ==> r.1 == (
        match spec_resolve(r.0.program, def_id) {
            Ok(_) => Err::<(), EvalError>(EvalError::MirNotFound(def_id)),
            Err(e) => Err(e),
        }),
{
    let ghost prog_in = program;
    let mut ecx = EvalContext::new(program, memory_size, stack_limit);
    proof {
        assert(ecx.program == prog_in);
    }
    let cm = match ecx.load_mir(def_id) {
        Ok(m) => m,
        Err(e) => {
            return (ecx, Err(e));
        },
    };
    let (return_ty, span, num_args) = {
        let mir = match cached_mir(&ecx.program, cm) {
            Ok(m) => m,
            Err(e) => {
                return (ecx, Err(e));
            },
        };
        (mir.return_ty, mir.span, mir.arg_tys.len())
    };
    let return_ptr = match ecx.alloc_ret_ptr(return_ty, 0) {
        Ok(p) => p,
        Err(e) => {
            return (ecx, Err(e));
        },
    };
    match ecx.push_stack_frame(def_id, span, cm, 0, Some(return_ptr), StackPopCleanup::Nothing) {
        Ok(_) => {},
        Err(e) => {
            return (ecx, Err(e));
        },
    }
    if num_args == 2 {
        // the entry function is a start wrapper: hand it zero program
        // arguments
        let psize = ecx.machine.memory.pointer_size();
        let nargs = match ecx.machine.allocate_checked(psize, psize) {
            Ok(p) => p,
            Err(e) => {
                return (ecx, Err(e));
            },
        };
        match ecx.machine.write_usize_checked(nargs, 0) {
            Ok(_) => {},
            Err(e) => {
                return (ecx, Err(e));
            },
        }
        let argv = match ecx.machine.allocate_checked(psize, psize) {
            Ok(p) => p,
            Err(e) => {
                return (ecx, Err(e));
            },
        };
        match ecx.machine.write_usize_checked(argv, 0) {
            Ok(_) => {},
            Err(e) => {
                return (ecx, Err(e));
            },
        }
        let nf = ecx.machine.stack.len();
        if nf == 0 {
            return (ecx, Err(EvalError::Unimplemented(Unsupported::MalformedProgram)));
        }
        let f = &mut ecx.machine.stack[nf - 1];
        if f.locals.len() < 2 {
            return (ecx, Err(EvalError::Unimplemented(Unsupported::MalformedProgram)));
        }
        f.locals.set(0, nargs);
        f.locals.set(1, argv);
    }
    let ghost g_pre_run = ecx;
    let result = ecx.run(step_limit);
    proof {
        if result is Ok {
            let trace = choose|trace: Seq<Machine>|
                {
                    &&& 1 <= trace.len() <= step_limit + 1
                    &&& trace[0] == g_pre_run.machine
                    &&& #[trigger] steps_trace(g_pre_run.program, trace)
                    &&& (result matches Ok(_) ==> ecx.machine == trace.last()
                        && trace.last().stack@.len() == 0)
                    &&& (result matches Err(e) ==> ((e == EvalError::ExecutionTimeLimitReached
                        && trace.len() == step_limit + 1 && ecx.machine == trace.last())
                        || trace.last().evolves_to(&ecx.machine)))
                };
            assert(steps_trace(ecx.program, trace));
        }
    }
    (ecx, result)
}

/// Truncate a numeric value into an integer kind of `size` bytes.
fn cast_to_int(n: i128, size: usize, signed: bool) -> (r: PrimVal)
    requires
        size == 1 || size == 2 || size == 4 || size == 8,
        -0x1_0000_0000_0000_0000 <= n <= 0xffff_ffff_ffff_ffff,
    ensures
        r == crate::primval::mk_int(
            8 * size as nat,
            signed,
            crate::primval::wrap(n as int, 8 * size as nat, signed),
        ),
{
    let w: u32 = match size {
        1 => 8,
        2 => 16,
        4 => 32,
        _ => 64,
    };
    let v = crate::primval::wrap_to_width(n, w, signed);
    crate::primval::make_int_value(w, signed, v)
}

} // verus!
