//! The interpreter's diagnostics. Every operation returns a `Result`; errors
//! are values and never abort the host.

use vstd::prelude::*;
use crate::memory::Pointer;

verus! {

/// A construct or situation the interpreter deliberately does not handle.
/// Reported inside `EvalError::Unimplemented`, recoverable by the host.
#[derive(Clone, Copy, Debug, PartialEq, Eq, Structural)]
pub enum Unsupported {
    /// Inline assembly statements.
    InlineAsm,
    /// `ConstantIndex` place projections.
    ConstantIndexProjection,
    /// `Subslice` place projections.
    SubsliceProjection,
    /// A primitive read of a fat-pointer typed place.
    FatPointerRead,
    /// A primitive read of a type with no primitive representation.
    PrimitiveRead,
    /// An assignment whose destination layout has no handler.
    AssignmentLayout,
    /// `reallocate`/`deallocate` on a pointer that is not the base pointer
    /// its allocation was created with.
    NonBasePointer,
    /// A write into an allocation sealed after computing a static's value.
    FrozenMemory,
    /// A binary operation over operands of different widths or signedness.
    MixedOperandTypes,
    /// An operation on a primitive value that has no defined result.
    InvalidOperation,
    /// Integer division or remainder by zero.
    DivisionByZero,
    /// A binary operation over pointers into different allocations.
    PointerArithmetic,
    /// Arithmetic over floating-point values.
    FloatArithmetic,
    /// Storing an opaque (tagged or function) pointer through a primitive
    /// write.
    WriteOpaquePointer,
    /// A numeric value too wide for the target's pointer size.
    ValueDoesNotFit,
    /// A block, statement, local, type, field or constant reference that the
    /// program description does not contain.
    MalformedProgram,
    /// A constant that should have been extracted before execution reached
    /// its use.
    ConstantNotCached,
    /// Taking a reference to an enum-downcast place.
    ReferenceToDowncast,
    /// An unsizing coercion between types the interpreter cannot relate.
    InvalidUnsize,
    /// A cast between values the interpreter cannot convert.
    InvalidCast,
    /// A callee operand that is not a function.
    BadCallee,
    /// No vtable description for the requested (type, trait) pair.
    VtableMissing,
}

/// The interpreter's error kinds. Memory-level errors surface through the
/// evaluator unchanged; limit errors end execution; `Unimplemented` is
/// recoverable for corpus testing.
#[derive(Clone, Copy, Debug, PartialEq, Eq, Structural)]
pub enum EvalError {
    /// The configured memory budget cannot cover the requested allocation.
    OutOfMemory { allocation_size: usize, memory_size: usize, memory_usage: usize },
    /// An access of `size` bytes at `ptr` falls outside its allocation.
    PointerOutOfBounds { ptr: Pointer, size: usize, allocation_size: usize },
    /// The pointer's offset is not a multiple of the required alignment;
    /// `has` is the largest power of two that divides the offset.
    AlignmentCheckFailed { required: usize, has: usize },
    /// Reading bytes that are covered by a relocation.
    ReadPointerAsBytes,
    /// Reading a pointer from bytes with no relocation entry.
    ReadBytesAsPointer,
    /// Reading bytes that were never written.
    ReadUndefBytes,
    /// Dereferencing a pointer into a deallocated or never-allocated id.
    DanglingPointerDeref,
    /// Dereferencing a pointer into a function allocation.
    DerefFunctionPointer,
    /// Calling through a pointer into a byte allocation.
    ExecuteMemory,
    /// Calling through a pointer whose id names no allocation at all.
    InvalidFunctionPointer,
    /// A boolean read found a byte other than 0 or 1.
    InvalidBool,
    /// A char read found a value outside the scalar-value range.
    InvalidChar(u64),
    /// The frame stack grew past the configured limit.
    StackFrameLimitReached,
    /// The step budget ran out before the program finished.
    ExecutionTimeLimitReached,
    /// No IR body is available for the given definition.
    MirNotFound(u64),
    /// The callee is a foreign (C ABI) function, identified by definition.
    CantCallCAbi(u64),
    /// The callee is an intrinsic with no handler, identified by definition.
    UnimplementedIntrinsic(u64),
    /// A construct the interpreter classifies and skips rather than executes.
    Unimplemented(Unsupported),
}

/// The result type every interpreter operation returns.
pub type EvalResult<T> = Result<T, EvalError>;

} // verus!
