//! The type/layout adapter: the library's own descriptors for the
//! monomorphized types the front-end hands over, together with each type's
//! size, alignment and layout shape. The evaluator asks this module for
//! sizes, field offsets, discriminant encodings and fat-pointer shapes.

use vstd::prelude::*;

verus! {

/// An index into the program's type table.
pub type TyId = usize;

#[derive(Clone, Copy, Debug, PartialEq, Eq, Structural)]
pub enum IntWidth {
    I8,
    I16,
    I32,
    I64,
    ISize,
}

#[derive(Clone, Copy, Debug, PartialEq, Eq, Structural)]
pub enum UintWidth {
    U8,
    U16,
    U32,
    U64,
    USize,
}

/// What a type is, as far as the evaluator needs to know.
#[derive(Clone, Copy, Debug, PartialEq, Eq, Structural)]
pub enum Ty {
    Bool,
    Char,
    Int(IntWidth),
    Uint(UintWidth),
    F32,
    F64,
    /// A raw pointer to the given pointee.
    RawPtr(TyId),
    /// A reference to the given pointee.
    Ref(TyId),
    /// An owning heap pointer to the given pointee.
    Boxed(TyId),
    Array(TyId, usize),
    Slice(TyId),
    Str,
    /// The type of one particular function: `(def_id, substs, fn_ptr_ty)`.
    /// Values of it are zero-sized; the meaning lives in the type.
    FnDef(u64, u64, TyId),
    FnPtr,
    /// A struct or enum, by its index into the program's adt table.
    Adt(usize),
    /// A tuple of the given arity (field placement comes from the layout).
    Tuple(usize),
    /// A trait object, by the trait's id; unsized.
    Trait(u64),
}

/// Per-field byte offsets from the outer base.
#[derive(Clone, Debug)]
pub struct StructLayout {
    pub field_offsets: Vec<usize>,
}

/// The layout shapes the evaluator can assign into.
#[derive(Clone, Debug)]
pub enum LayoutShape {
    /// A single scalar (integer, bool, char, float, thin pointer).
    Scalar,
    /// One variant: a struct, tuple, or single-variant enum.
    Univariant(StructLayout),
    /// Elements strided by the element type's size.
    Array,
    /// Two pointer-sized words: data, then length or vtable.
    FatPointer,
    /// A discriminant of `discr_size` bytes at offset 0, then the fields of
    /// the active variant at its recorded offsets (from the enum's base).
    General { discr_size: usize, variants: Vec<StructLayout> },
    /// An enum of a null and a non-null pointer variant, occupying exactly
    /// one pointer: all-zero bits are the null variant.
    RawNullablePointer { nndiscr: u64 },
    /// Like `RawNullablePointer`, but the non-null variant is a struct; the
    /// path `discrfield` descends to the field whose zero marks null.
    StructWrappedNullablePointer { nndiscr: u64, nonnull: StructLayout, discrfield: Vec<usize> },
    /// A C-like enum: just a discriminant, signed or not.
    CEnum { discr_size: usize, signed: bool },
}

/// Everything the adapter produces for one monomorphized type.
#[derive(Clone, Debug)]
pub struct TyDesc {
    pub ty: Ty,
    pub size: usize,
    pub align: usize,
    pub shape: LayoutShape,
}

/// One variant of a sum type: its declared discriminant value and its field
/// types.
#[derive(Clone, Debug)]
pub struct AdtVariant {
    pub disr_val: u64,
    pub fields: Vec<TyId>,
}

#[derive(Clone, Debug)]
pub struct AdtDef {
    pub variants: Vec<AdtVariant>,
}

impl Ty {
    /// Unsized types need fat pointers.
    pub open spec fn spec_is_sized(self) -> bool {
        !(self is Slice || self is Str || self is Trait)
    }

    pub fn is_sized(&self) -> (r: bool)
        ensures
            r == self.spec_is_sized(),
    {
        match self {
            Ty::Slice(_) | Ty::Str | Ty::Trait(_) => false,
            _ => true,
        }
    }

    /// The pointee of a pointer-like type.
    pub open spec fn spec_pointee(self) -> Option<TyId> {
        match self {
            Ty::RawPtr(t) => Some(t),
            Ty::Ref(t) => Some(t),
            Ty::Boxed(t) => Some(t),
            _ => None,
        }
    }

    pub fn pointee(&self) -> (r: Option<TyId>)
        ensures
            r == self.spec_pointee(),
    {
        match self {
            Ty::RawPtr(t) => Some(*t),
            Ty::Ref(t) => Some(*t),
            Ty::Boxed(t) => Some(*t),
            _ => None,
        }
    }
}

} // verus!
