//! The primitive operations: two's-complement results, overflow flags, and
//! the classified failures.

use mirvm::error::{EvalError, Unsupported};
use mirvm::memory::{AllocId, Pointer};
use mirvm::primval::{binary_op, unary_op, BinOp, PrimVal, UnOp};

#[test]
fn add_wraps_and_flags() {
    assert_eq!(
        binary_op(BinOp::Add, PrimVal::U8(255), PrimVal::U8(1)).unwrap(),
        (PrimVal::U8(0), true)
    );
    assert_eq!(
        binary_op(BinOp::Add, PrimVal::U8(2), PrimVal::U8(3)).unwrap(),
        (PrimVal::U8(5), false)
    );
    assert_eq!(
        binary_op(BinOp::Add, PrimVal::I8(127), PrimVal::I8(1)).unwrap(),
        (PrimVal::I8(-128), true)
    );
}

#[test]
fn sub_and_mul() {
    assert_eq!(
        binary_op(BinOp::Sub, PrimVal::U16(0), PrimVal::U16(1)).unwrap(),
        (PrimVal::U16(0xFFFF), true)
    );
    assert_eq!(
        binary_op(BinOp::Mul, PrimVal::U64(u64::MAX), PrimVal::U64(2)).unwrap(),
        (PrimVal::U64(u64::MAX - 1), true)
    );
    assert_eq!(
        binary_op(BinOp::Mul, PrimVal::I32(-3), PrimVal::I32(7)).unwrap(),
        (PrimVal::I32(-21), false)
    );
}

#[test]
fn division() {
    assert_eq!(
        binary_op(BinOp::Div, PrimVal::I32(-7), PrimVal::I32(2)).unwrap(),
        (PrimVal::I32(-3), false)
    );
    assert_eq!(
        binary_op(BinOp::Rem, PrimVal::I32(-7), PrimVal::I32(2)).unwrap(),
        (PrimVal::I32(-1), false)
    );
    assert_eq!(
        binary_op(BinOp::Div, PrimVal::U8(1), PrimVal::U8(0)),
        Err(EvalError::Unimplemented(Unsupported::DivisionByZero))
    );
    assert_eq!(
        binary_op(BinOp::Div, PrimVal::I64(i64::MIN), PrimVal::I64(-1)).unwrap(),
        (PrimVal::I64(i64::MIN), true)
    );
}

#[test]
fn bit_ops_and_shifts() {
    assert_eq!(
        binary_op(BinOp::BitXor, PrimVal::U8(0b1100), PrimVal::U8(0b1010)).unwrap(),
        (PrimVal::U8(0b0110), false)
    );
    assert_eq!(
        binary_op(BinOp::Shl, PrimVal::U8(1), PrimVal::U32(3)).unwrap(),
        (PrimVal::U8(8), false)
    );
    assert_eq!(
        binary_op(BinOp::Shl, PrimVal::U8(1), PrimVal::U32(9)).unwrap(),
        (PrimVal::U8(2), true)
    );
    assert_eq!(
        binary_op(BinOp::Shr, PrimVal::I8(-2), PrimVal::U32(1)).unwrap(),
        (PrimVal::I8(-1), false)
    );
}

#[test]
fn comparisons() {
    assert_eq!(
        binary_op(BinOp::Lt, PrimVal::I16(-5), PrimVal::I16(3)).unwrap(),
        (PrimVal::Bool(true), false)
    );
    assert_eq!(
        binary_op(BinOp::Eq, PrimVal::Char(97), PrimVal::Char(97)).unwrap(),
        (PrimVal::Bool(true), false)
    );
    assert_eq!(
        binary_op(BinOp::Eq, PrimVal::U8(1), PrimVal::U16(1)),
        Err(EvalError::Unimplemented(Unsupported::MixedOperandTypes))
    );
}

#[test]
fn unary_ops() {
    assert_eq!(unary_op(UnOp::Not, PrimVal::Bool(true)).unwrap(), PrimVal::Bool(false));
    assert_eq!(unary_op(UnOp::Not, PrimVal::U8(0b1)).unwrap(), PrimVal::U8(0xFE));
    assert_eq!(unary_op(UnOp::Neg, PrimVal::I32(5)).unwrap(), PrimVal::I32(-5));
    assert_eq!(unary_op(UnOp::Neg, PrimVal::I8(i8::MIN)).unwrap(), PrimVal::I8(i8::MIN));
}

#[test]
fn pointer_arithmetic_keeps_provenance() {
    let p = Pointer { alloc_id: AllocId(3), offset: 16 };
    assert_eq!(
        binary_op(BinOp::Add, PrimVal::AbstractPtr(p), PrimVal::U64(4)).unwrap(),
        (
            PrimVal::AbstractPtr(Pointer { alloc_id: AllocId(3), offset: 20 }),
            false
        )
    );
    let q = Pointer { alloc_id: AllocId(4), offset: 16 };
    assert_eq!(
        binary_op(BinOp::Eq, PrimVal::AbstractPtr(p), PrimVal::AbstractPtr(q)),
        Err(EvalError::Unimplemented(Unsupported::PointerArithmetic))
    );
    assert_eq!(
        binary_op(
            BinOp::Lt,
            PrimVal::AbstractPtr(p),
            PrimVal::AbstractPtr(Pointer { alloc_id: AllocId(3), offset: 20 })
        )
        .unwrap(),
        (PrimVal::Bool(true), false)
    );
}

#[test]
fn floats_are_moved_not_computed() {
    assert_eq!(
        binary_op(BinOp::Add, PrimVal::F32Bits(1), PrimVal::F32Bits(2)),
        Err(EvalError::Unimplemented(Unsupported::FloatArithmetic))
    );
}
