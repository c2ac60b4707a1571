//! Primitive values: the unboxed representation of scalars, and the typed
//! binary and unary operations over them.
//!
//! Each integer variant carries both the numeric value and its width and
//! signedness; operations are defined for matching kinds only, and return
//! the two's-complement result together with an overflow flag.

use vstd::prelude::*;
use vstd::arithmetic::div_mod::{
    lemma_fundamental_div_mod, lemma_fundamental_div_mod_converse_mod,
};
use crate::error::{EvalError, EvalResult, Unsupported};
use crate::memory::Pointer;

verus! {

#[derive(Clone, Copy, Debug, PartialEq, Eq, Structural)]
pub enum PrimVal {
    Bool(bool),
    I8(i8),
    I16(i16),
    I32(i32),
    I64(i64),
    U8(u8),
    U16(u16),
    U32(u32),
    U64(u64),
    /// A unicode scalar value, stored as its code point.
    Char(u32),
    /// A 32-bit float, stored as its bit pattern: the interpreter moves
    /// floats but does not compute with them.
    F32Bits(u32),
    /// A 64-bit float, stored as its bit pattern.
    F64Bits(u64),
    /// A pointer to a function allocation.
    FnPtr(Pointer),
    /// A pointer with provenance.
    AbstractPtr(Pointer),
    /// An untyped address with no provenance.
    IntegerPtr(u64),
}

#[derive(Clone, Copy, Debug, PartialEq, Eq, Structural)]
pub enum BinOp {
    Add,
    Sub,
    Mul,
    Div,
    Rem,
    BitXor,
    BitAnd,
    BitOr,
    Shl,
    Shr,
    Eq,
    Ne,
    Lt,
    Le,
    Gt,
    Ge,
}

#[derive(Clone, Copy, Debug, PartialEq, Eq, Structural)]
pub enum UnOp {
    Not,
    Neg,
}

pub open spec fn is_int(v: PrimVal) -> bool {
    v is I8 || v is I16 || v is I32 || v is I64 || v is U8 || v is U16 || v is U32 || v is U64
}

/// Width in bits.
pub open spec fn int_width(v: PrimVal) -> nat {
    match v {
        PrimVal::I8(_) | PrimVal::U8(_) => 8,
        PrimVal::I16(_) | PrimVal::U16(_) => 16,
        PrimVal::I32(_) | PrimVal::U32(_) => 32,
        _ => 64,
    }
}

pub open spec fn int_signed(v: PrimVal) -> bool {
    v is I8 || v is I16 || v is I32 || v is I64
}

/// The numeric value.
pub open spec fn int_val(v: PrimVal) -> int {
    match v {
        PrimVal::I8(x) => x as int,
        PrimVal::I16(x) => x as int,
        PrimVal::I32(x) => x as int,
        PrimVal::I64(x) => x as int,
        PrimVal::U8(x) => x as int,
        PrimVal::U16(x) => x as int,
        PrimVal::U32(x) => x as int,
        PrimVal::U64(x) => x as int,
        _ => 0,
    }
}

/// The raw two's-complement bit pattern, zero-extended to 64 bits.
pub open spec fn int_bits(v: PrimVal) -> u64 {
    match v {
        PrimVal::I8(x) => (x as u8) as u64,
        PrimVal::I16(x) => (x as u16) as u64,
        PrimVal::I32(x) => (x as u32) as u64,
        PrimVal::I64(x) => x as u64,
        PrimVal::U8(x) => x as u64,
        PrimVal::U16(x) => x as u64,
        PrimVal::U32(x) => x as u64,
        PrimVal::U64(x) => x,
        _ => 0,
    }
}

pub open spec fn same_int_kind(a: PrimVal, b: PrimVal) -> bool {
    is_int(a) && is_int(b) && int_width(a) == int_width(b) && int_signed(a) == int_signed(b)
}

/// The two's-complement wrap of `n` into a `w`-bit (signed or unsigned)
/// integer.
pub open spec fn wrap(n: int, w: nat, signed: bool) -> int {
    let m = base_of(w) as int;
    let r = n % m;
    if signed && r >= m / 2 {
        r - m
    } else {
        r
    }
}

/// The number of values a `w`-bit integer can hold, for the four widths the
/// machine knows.
pub open spec fn base_of(w: nat) -> nat {
    if w == 8 {
        0x100
    } else if w == 16 {
        0x10000
    } else if w == 32 {
        0x1_0000_0000
    } else {
        0x1_0000_0000_0000_0000
    }
}

pub open spec fn valid_width(w: nat) -> bool {
    w == 8 || w == 16 || w == 32 || w == 64
}

/// The integer value of the given kind holding numeric value `n` (which must
/// be in range for the claim to be useful).
pub open spec fn mk_int(w: nat, signed: bool, n: int) -> PrimVal {
    if signed {
        if w == 8 {
            PrimVal::I8(n as i8)
        } else if w == 16 {
            PrimVal::I16(n as i16)
        } else if w == 32 {
            PrimVal::I32(n as i32)
        } else {
            PrimVal::I64(n as i64)
        }
    } else {
        if w == 8 {
            PrimVal::U8(n as u8)
        } else if w == 16 {
            PrimVal::U16(n as u16)
        } else if w == 32 {
            PrimVal::U32(n as u32)
        } else {
            PrimVal::U64(n as u64)
        }
    }
}

/// The integer value of the given kind holding bit pattern `bits`.
pub open spec fn mk_bits(w: nat, signed: bool, bits: u64) -> PrimVal {
    if signed {
        if w == 8 {
            PrimVal::I8(bits as i8)
        } else if w == 16 {
            PrimVal::I16(bits as i16)
        } else if w == 32 {
            PrimVal::I32(bits as i32)
        } else {
            PrimVal::I64(bits as i64)
        }
    } else {
        if w == 8 {
            PrimVal::U8(bits as u8)
        } else if w == 16 {
            PrimVal::U16(bits as u16)
        } else if w == 32 {
            PrimVal::U32(bits as u32)
        } else {
            PrimVal::U64(bits as u64)
        }
    }
}

pub open spec fn mask_of(w: nat) -> u64 {
    if w == 8 {
        0xffu64
    } else if w == 16 {
        0xffffu64
    } else if w == 32 {
        0xffff_ffffu64
    } else {
        0xffff_ffff_ffff_ffffu64
    }
}

pub open spec fn abs_i(a: int) -> int {
    if a >= 0 {
        a
    } else {
        -a
    }
}

/// Division truncating toward zero, as the interpreted machine computes it.
pub open spec fn trunc_div(a: int, b: int) -> int {
    if (a >= 0) == (b >= 0) {
        abs_i(a) / abs_i(b)
    } else {
        -(abs_i(a) / abs_i(b))
    }
}

/// The remainder matching `trunc_div` (same sign as the dividend).
pub open spec fn trunc_rem(a: int, b: int) -> int {
    if a >= 0 {
        abs_i(a) % abs_i(b)
    } else {
        -(abs_i(a) % abs_i(b))
    }
}

/// A binary operation over two integers of one kind: the exact result and
/// its overflow flag.
pub open spec fn spec_int_binop(op: BinOp, w: nat, s: bool, a: int, b: int, ab: u64, bb: u64) -> EvalResult<
    (PrimVal, bool),
> {
    match op {
        BinOp::Add => Ok((mk_int(w, s, wrap(a + b, w, s)), wrap(a + b, w, s) != a + b)),
        BinOp::Sub => Ok((mk_int(w, s, wrap(a - b, w, s)), wrap(a - b, w, s) != a - b)),
        BinOp::Mul => Ok((mk_int(w, s, wrap(a * b, w, s)), wrap(a * b, w, s) != a * b)),
        BinOp::Div => if b == 0 {
            Err(EvalError::Unimplemented(Unsupported::DivisionByZero))
        } else {
            Ok(
                (
                    mk_int(w, s, wrap(trunc_div(a, b), w, s)),
                    wrap(trunc_div(a, b), w, s) != trunc_div(a, b),
                ),
            )
        },
        BinOp::Rem => if b == 0 {
            Err(EvalError::Unimplemented(Unsupported::DivisionByZero))
        } else {
            Ok((mk_int(w, s, trunc_rem(a, b)), false))
        },
        BinOp::BitAnd => Ok((mk_bits(w, s, ab & bb), false)),
        BinOp::BitOr => Ok((mk_bits(w, s, ab | bb), false)),
        BinOp::BitXor => Ok((mk_bits(w, s, ab ^ bb), false)),
        BinOp::Eq => Ok((PrimVal::Bool(a == b), false)),
        BinOp::Ne => Ok((PrimVal::Bool(a != b), false)),
        BinOp::Lt => Ok((PrimVal::Bool(a < b), false)),
        BinOp::Le => Ok((PrimVal::Bool(a <= b), false)),
        BinOp::Gt => Ok((PrimVal::Bool(a > b), false)),
        BinOp::Ge => Ok((PrimVal::Bool(a >= b), false)),
        _ => Err(EvalError::Unimplemented(Unsupported::InvalidOperation)),
    }
}

/// A shift: the amount comes from an integer of any kind; an amount at or
/// past the width wraps (modulo the width) and raises the overflow flag.
pub open spec fn spec_shift(op: BinOp, w: nat, s: bool, ab: u64, a: int, amt: int) -> EvalResult<
    (PrimVal, bool),
> {
    if amt < 0 {
        Err(EvalError::Unimplemented(Unsupported::InvalidOperation))
    } else {
        let eff = (amt % w as int) as u64;
        let flag = amt >= w;
        match op {
            BinOp::Shl => Ok((mk_bits(w, s, (ab << eff) & mask_of(w)), flag)),
            BinOp::Shr => if s {
                Ok((mk_bits(w, s, (((a as i64) >> eff) as u64) & mask_of(w)), flag))
            } else {
                Ok((mk_bits(w, s, ab >> eff), flag))
            },
            _ => Err(EvalError::Unimplemented(Unsupported::InvalidOperation)),
        }
    }
}

pub open spec fn is_float(v: PrimVal) -> bool {
    v is F32Bits || v is F64Bits
}

/// Whether a value can serve as the integer side of pointer arithmetic.
pub open spec fn int_like(v: PrimVal) -> bool {
    is_int(v) || v is IntegerPtr
}

pub open spec fn int_like_val(v: PrimVal) -> int {
    match v {
        PrimVal::IntegerPtr(n) => n as int,
        _ => int_val(v),
    }
}

/// The full model of `binary_op`.
pub open spec fn spec_binary_op(op: BinOp, l: PrimVal, r: PrimVal) -> EvalResult<(PrimVal, bool)> {
    if is_int(l) && is_int(r) && (op is Shl || op is Shr) {
        spec_shift(op, int_width(l), int_signed(l), int_bits(l), int_val(l), int_val(r))
    } else if is_int(l) && is_int(r) {
        if same_int_kind(l, r) {
            spec_int_binop(op, int_width(l), int_signed(l), int_val(l), int_val(r), int_bits(l), int_bits(r))
        } else {
            Err(EvalError::Unimplemented(Unsupported::MixedOperandTypes))
        }
    } else if l is Bool && r is Bool {
        let a = l->Bool_0;
        let b = r->Bool_0;
        match op {
            BinOp::Eq => Ok((PrimVal::Bool(a == b), false)),
            BinOp::Ne => Ok((PrimVal::Bool(a != b), false)),
            BinOp::BitAnd => Ok((PrimVal::Bool(a && b), false)),
            BinOp::BitOr => Ok((PrimVal::Bool(a || b), false)),
            BinOp::BitXor => Ok((PrimVal::Bool(a != b), false)),
            _ => Err(EvalError::Unimplemented(Unsupported::InvalidOperation)),
        }
    } else if l is Char && r is Char {
        let a = l->Char_0;
        let b = r->Char_0;
        match op {
            BinOp::Eq => Ok((PrimVal::Bool(a == b), false)),
            BinOp::Ne => Ok((PrimVal::Bool(a != b), false)),
            BinOp::Lt => Ok((PrimVal::Bool(a < b), false)),
            BinOp::Le => Ok((PrimVal::Bool(a <= b), false)),
            BinOp::Gt => Ok((PrimVal::Bool(a > b), false)),
            BinOp::Ge => Ok((PrimVal::Bool(a >= b), false)),
            _ => Err(EvalError::Unimplemented(Unsupported::InvalidOperation)),
        }
    } else if l is IntegerPtr && r is IntegerPtr {
        let a = l->IntegerPtr_0;
        let b = r->IntegerPtr_0;
        match op {
            BinOp::Add => Ok(
                (
                    PrimVal::IntegerPtr(wrap(a + b, 64, false) as u64),
                    wrap(a + b, 64, false) != a + b,
                ),
            ),
            BinOp::Sub => Ok(
                (
                    PrimVal::IntegerPtr(wrap(a - b, 64, false) as u64),
                    wrap(a - b, 64, false) != a - b,
                ),
            ),
            BinOp::Eq => Ok((PrimVal::Bool(a == b), false)),
            BinOp::Ne => Ok((PrimVal::Bool(a != b), false)),
            BinOp::Lt => Ok((PrimVal::Bool(a < b), false)),
            BinOp::Le => Ok((PrimVal::Bool(a <= b), false)),
            BinOp::Gt => Ok((PrimVal::Bool(a > b), false)),
            BinOp::Ge => Ok((PrimVal::Bool(a >= b), false)),
            _ => Err(EvalError::Unimplemented(Unsupported::PointerArithmetic)),
        }
    } else if l is AbstractPtr && int_like(r) && (op is Add || op is Sub) {
        let p = l->AbstractPtr_0;
        let n = int_like_val(r);
        let noff = if op is Add {
            p.offset + n
        } else {
            p.offset - n
        };
        if 0 <= noff <= usize::MAX {
            Ok(
                (
                    PrimVal::AbstractPtr(
                        Pointer { alloc_id: p.alloc_id, offset: noff as usize },
                    ),
                    false,
                ),
            )
        } else {
            Err(EvalError::Unimplemented(Unsupported::ValueDoesNotFit))
        }
    } else if int_like(l) && r is AbstractPtr && op is Add {
        let p = r->AbstractPtr_0;
        let n = int_like_val(l);
        let noff = p.offset + n;
        if 0 <= noff <= usize::MAX {
            Ok(
                (
                    PrimVal::AbstractPtr(
                        Pointer { alloc_id: p.alloc_id, offset: noff as usize },
                    ),
                    false,
                ),
            )
        } else {
            Err(EvalError::Unimplemented(Unsupported::ValueDoesNotFit))
        }
    } else if l is AbstractPtr && r is AbstractPtr {
        let p = l->AbstractPtr_0;
        let q = r->AbstractPtr_0;
        if p.alloc_id == q.alloc_id {
            match op {
                BinOp::Eq => Ok((PrimVal::Bool(p.offset == q.offset), false)),
                BinOp::Ne => Ok((PrimVal::Bool(p.offset != q.offset), false)),
                BinOp::Lt => Ok((PrimVal::Bool(p.offset < q.offset), false)),
                BinOp::Le => Ok((PrimVal::Bool(p.offset <= q.offset), false)),
                BinOp::Gt => Ok((PrimVal::Bool(p.offset > q.offset), false)),
                BinOp::Ge => Ok((PrimVal::Bool(p.offset >= q.offset), false)),
                _ => Err(EvalError::Unimplemented(Unsupported::PointerArithmetic)),
            }
        } else {
            // pointers into different allocations have no defined relation
            Err(EvalError::Unimplemented(Unsupported::PointerArithmetic))
        }
    } else if is_float(l) || is_float(r) {
        Err(EvalError::Unimplemented(Unsupported::FloatArithmetic))
    } else {
        Err(EvalError::Unimplemented(Unsupported::MixedOperandTypes))
    }
}

/// The numeric value, bit pattern, width and signedness of an integer-kind
/// value.
fn int_parts(v: &PrimVal) -> (r: Option<(i128, u64, u32, bool)>)
    ensures
        (r is Some) <==> is_int(*v),
        r matches Some(p) ==> p.0 == int_val(*v) && p.1 == int_bits(*v) && p.2 == int_width(*v)
            && p.3 == int_signed(*v),
{
    match v {
        PrimVal::I8(x) => Some(((*x as i128), (*x as u8) as u64, 8, true)),
        PrimVal::I16(x) => Some(((*x as i128), (*x as u16) as u64, 16, true)),
        PrimVal::I32(x) => Some(((*x as i128), (*x as u32) as u64, 32, true)),
        PrimVal::I64(x) => Some(((*x as i128), (*x as u64), 64, true)),
        PrimVal::U8(x) => Some(((*x as i128), (*x as u64), 8, false)),
        PrimVal::U16(x) => Some(((*x as i128), (*x as u64), 16, false)),
        PrimVal::U32(x) => Some(((*x as i128), (*x as u64), 32, false)),
        PrimVal::U64(x) => Some(((*x as i128), *x, 64, false)),
        _ => None,
    }
}

pub fn make_int_value(w: u32, s: bool, n: i128) -> (r: PrimVal)
    requires
        valid_width(w as nat),
        s ==> -(base_of(w as nat) / 2) <= n < base_of(w as nat) / 2,
        !s ==> 0 <= n < base_of(w as nat),
    ensures
        r == mk_int(w as nat, s, n as int),
{
    if s {
        if w == 8 {
            PrimVal::I8(n as i8)
        } else if w == 16 {
            PrimVal::I16(n as i16)
        } else if w == 32 {
            PrimVal::I32(n as i32)
        } else {
            PrimVal::I64(n as i64)
        }
    } else {
        if w == 8 {
            PrimVal::U8(n as u8)
        } else if w == 16 {
            PrimVal::U16(n as u16)
        } else if w == 32 {
            PrimVal::U32(n as u32)
        } else {
            PrimVal::U64(n as u64)
        }
    }
}

fn mk_bits_exec(w: u32, s: bool, bits: u64) -> (r: PrimVal)
    requires
        valid_width(w as nat),
    ensures
        r == mk_bits(w as nat, s, bits),
{
    if s {
        if w == 8 {
            PrimVal::I8(bits as i8)
        } else if w == 16 {
            PrimVal::I16(bits as i16)
        } else if w == 32 {
            PrimVal::I32(bits as i32)
        } else {
            PrimVal::I64(bits as i64)
        }
    } else {
        if w == 8 {
            PrimVal::U8(bits as u8)
        } else if w == 16 {
            PrimVal::U16(bits as u16)
        } else if w == 32 {
            PrimVal::U32(bits as u32)
        } else {
            PrimVal::U64(bits as u64)
        }
    }
}

fn base_exec(w: u32) -> (r: u128)
    requires
        valid_width(w as nat),
    ensures
        r == base_of(w as nat),
{
    if w == 8 {
        0x100
    } else if w == 16 {
        0x10000
    } else if w == 32 {
        0x1_0000_0000
    } else {
        0x1_0000_0000_0000_0000
    }
}

fn mask_exec(w: u32) -> (r: u64)
    requires
        valid_width(w as nat),
    ensures
        r == mask_of(w as nat),
{
    if w == 8 {
        0xff
    } else if w == 16 {
        0xffff
    } else if w == 32 {
        0xffff_ffff
    } else {
        0xffff_ffff_ffff_ffff
    }
}

/// Euclidean remainder of `n` modulo `m`, computed over magnitudes.
fn euclid_mod(n: i128, m: u128) -> (r: i128)
    requires
        2 <= m <= 0x1_0000_0000_0000_0000,
        -0x4000_0000_0000_0000_0000_0000_0000_0000 <= n,
        n <= 0x4000_0000_0000_0000_0000_0000_0000_0000,
    ensures
        r == (n as int) % (m as int),
        0 <= r < m,
{
    if n >= 0 {
        let r = ((n as u128) % m) as i128;
        r
    } else {
        let k = (-n) as u128;
        let rm = k % m;
        proof {
            lemma_fundamental_div_mod(k as int, m as int);
            let ki = k as int;
            let mi = m as int;
            let qi = ki / mi;
            if rm == 0 {
                assert(n as int == (-qi) * mi + 0) by (nonlinear_arith)
                    requires
                        ki == mi * qi,
                        n as int == -ki,
                ;
                lemma_fundamental_div_mod_converse_mod(n as int, mi, -qi, 0);
            } else {
                assert(n as int == (-qi - 1) * mi + (mi - (rm as int))) by (nonlinear_arith)
                    requires
                        ki == mi * qi + (rm as int),
                        n as int == -ki,
                ;
                lemma_fundamental_div_mod_converse_mod(n as int, mi, -qi - 1, mi - (rm as int));
            }
        }
        if rm == 0 {
            0
        } else {
            (m - rm) as i128
        }
    }
}

/// The two's-complement wrap of `n` into a `w`-bit integer.
pub fn wrap_to_width(n: i128, w: u32, s: bool) -> (r: i128)
    requires
        valid_width(w as nat),
        -0x4000_0000_0000_0000_0000_0000_0000_0000 <= n,
        n <= 0x4000_0000_0000_0000_0000_0000_0000_0000,
    ensures
        r == wrap(n as int, w as nat, s),
        s ==> -(base_of(w as nat) / 2) <= r < base_of(w as nat) / 2,
        !s ==> 0 <= r < base_of(w as nat),
{
    let m = base_exec(w);
    let r0 = euclid_mod(n, m);
    if s && r0 >= (m / 2) as i128 {
        r0 - (m as i128)
    } else {
        r0
    }
}

/// Apply the binary operation; see `spec_binary_op` for the meaning of every
/// case, including the overflow flag.
#[verifier::rlimit(60)]
pub fn binary_op(op: BinOp, left: PrimVal, right: PrimVal) -> (r: EvalResult<(PrimVal, bool)>)
    ensures
        r == spec_binary_op(op, left, right),
{
    let lp = int_parts(&left);
    let rp = int_parts(&right);
    match (lp, rp) {
        (Some((a, ab, w, s)), Some((b, bb, w2, s2))) => {
            let shift = match op {
                BinOp::Shl | BinOp::Shr => true,
                _ => false,
            };
            if shift {
                if b < 0 {
                    return Err(EvalError::Unimplemented(Unsupported::InvalidOperation));
                }
                let amt = b as u128;
                let eff = (amt % (w as u128)) as u32;
                let flag = amt >= w as u128;
                let mask = mask_exec(w);
                match op {
                    BinOp::Shl => Ok((mk_bits_exec(w, s, (ab << (eff as u64)) & mask), flag)),
                    _ => {
                        if s {
                            let v = ((a as i64) >> (eff as u64)) as u64;
                            Ok((mk_bits_exec(w, s, v & mask), flag))
                        } else {
                            Ok((mk_bits_exec(w, s, ab >> (eff as u64)), flag))
                        }
                    },
                }
            } else if w != w2 || s != s2 {
                Err(EvalError::Unimplemented(Unsupported::MixedOperandTypes))
            } else {
                match op {
                    BinOp::Add => {
                        let n = a + b;
                        let r0 = wrap_to_width(n, w, s);
                        Ok((make_int_value(w, s, r0), r0 != n))
                    },
                    BinOp::Sub => {
                        let n = a - b;
                        let r0 = wrap_to_width(n, w, s);
                        Ok((make_int_value(w, s, r0), r0 != n))
                    },
                    BinOp::Mul => {
                        if !s && w == 64 {
                            proof {
                                assert(((ab as u128) as int) * ((bb as u128) as int)
                                    < 0x1_0000_0000_0000_0000_0000_0000_0000_0000) by (nonlinear_arith)
                                    requires
                                        (ab as u128) as int <= 0xffff_ffff_ffff_ffff,
                                        (bb as u128) as int <= 0xffff_ffff_ffff_ffff,
                                ;
                            }
                            let prod = (ab as u128) * (bb as u128);
                            let wrapped = (prod % 0x1_0000_0000_0000_0000u128) as u64;
                            let flag = prod >= 0x1_0000_0000_0000_0000u128;
                            proof {
                                assert(wrap(a as int * b as int, 64, false) == wrapped as int
                                    && (flag <==> wrap(a as int * b as int, 64, false) != a as int
                                    * b as int)) by (nonlinear_arith)
                                    requires
                                        a == ab as int,
                                        b == bb as int,
                                        prod == (ab as u128) as int * (bb as u128) as int,
                                        wrapped == prod as int % 0x1_0000_0000_0000_0000,
                                        (flag <==> prod >= 0x1_0000_0000_0000_0000),
                                        wrap(a as int * b as int, 64, false) == (a as int
                                            * b as int) % 0x1_0000_0000_0000_0000,
                                ;
                            }
                            Ok((PrimVal::U64(wrapped), flag))
                        } else {
                            proof {
                                let ai = a as int;
                                let bi = b as int;
                                if s {
                                    assert(-0x8000_0000_0000_0000 <= ai < 0x8000_0000_0000_0000);
                                    assert(-0x8000_0000_0000_0000 <= bi < 0x8000_0000_0000_0000);
                                    assert(-0x4000_0000_0000_0000_0000_0000_0000_0000 <= ai * bi
                                        <= 0x4000_0000_0000_0000_0000_0000_0000_0000)
                                        by (nonlinear_arith)
                                        requires
                                            -0x8000_0000_0000_0000 <= ai
                                                <= 0x8000_0000_0000_0000,
                                            -0x8000_0000_0000_0000 <= bi
                                                <= 0x8000_0000_0000_0000,
                                    ;
                                } else {
                                    assert(0 <= ai < 0x1_0000_0000);
                                    assert(0 <= bi < 0x1_0000_0000);
                                    assert(0 <= ai * bi < 0x1_0000_0000_0000_0000)
                                        by (nonlinear_arith)
                                        requires
                                            0 <= ai < 0x1_0000_0000,
                                            0 <= bi < 0x1_0000_0000,
                                    ;
                                }
                            }
                            let n = a * b;
                            let r0 = wrap_to_width(n, w, s);
                            Ok((make_int_value(w, s, r0), r0 != n))
                        }
                    },
                    BinOp::Div => {
                        if b == 0 {
                            return Err(EvalError::Unimplemented(Unsupported::DivisionByZero));
                        }
                        let ua: u128 = if a >= 0 {
                            a as u128
                        } else {
                            (-a) as u128
                        };
                        let ub: u128 = if b >= 0 {
                            b as u128
                        } else {
                            (-b) as u128
                        };
                        let q = ua / ub;
                        let n: i128 = if (a >= 0) == (b >= 0) {
                            q as i128
                        } else {
                            -(q as i128)
                        };
                        let r0 = wrap_to_width(n, w, s);
                        Ok((make_int_value(w, s, r0), r0 != n))
                    },
                    BinOp::Rem => {
                        if b == 0 {
                            return Err(EvalError::Unimplemented(Unsupported::DivisionByZero));
                        }
                        let ua: u128 = if a >= 0 {
                            a as u128
                        } else {
                            (-a) as u128
                        };
                        let ub: u128 = if b >= 0 {
                            b as u128
                        } else {
                            (-b) as u128
                        };
                        let rm = ua % ub;
                        let n: i128 = if a >= 0 {
                            rm as i128
                        } else {
                            -(rm as i128)
                        };
                        Ok((make_int_value(w, s, n), false))
                    },
                    BinOp::BitAnd => Ok((mk_bits_exec(w, s, ab & bb), false)),
                    BinOp::BitOr => Ok((mk_bits_exec(w, s, ab | bb), false)),
                    BinOp::BitXor => Ok((mk_bits_exec(w, s, ab ^ bb), false)),
                    BinOp::Eq => Ok((PrimVal::Bool(a == b), false)),
                    BinOp::Ne => Ok((PrimVal::Bool(a != b), false)),
                    BinOp::Lt => Ok((PrimVal::Bool(a < b), false)),
                    BinOp::Le => Ok((PrimVal::Bool(a <= b), false)),
                    BinOp::Gt => Ok((PrimVal::Bool(a > b), false)),
                    BinOp::Ge => Ok((PrimVal::Bool(a >= b), false)),
                    BinOp::Shl | BinOp::Shr => {
                        proof {
                            assert(false);
                        }
                        Err(EvalError::Unimplemented(Unsupported::InvalidOperation))
                    },
                }
            }
        },
        _ => binary_op_rest(op, left, right),
    }
}

/// Comparison of two pointers with provenance: defined within one
/// allocation only.
fn abstract_cmp(op: BinOp, p: Pointer, q: Pointer) -> (r: EvalResult<(PrimVal, bool)>)
    ensures
        r == (if p.alloc_id == q.alloc_id {
            match op {
                BinOp::Eq => Ok::<(PrimVal, bool), EvalError>((PrimVal::Bool(p.offset == q.offset), false)),
                BinOp::Ne => Ok((PrimVal::Bool(p.offset != q.offset), false)),
                BinOp::Lt => Ok((PrimVal::Bool(p.offset < q.offset), false)),
                BinOp::Le => Ok((PrimVal::Bool(p.offset <= q.offset), false)),
                BinOp::Gt => Ok((PrimVal::Bool(p.offset > q.offset), false)),
                BinOp::Ge => Ok((PrimVal::Bool(p.offset >= q.offset), false)),
                _ => Err(EvalError::Unimplemented(Unsupported::PointerArithmetic)),
            }
        } else {
            Err(EvalError::Unimplemented(Unsupported::PointerArithmetic))
        }),
{
    if p.alloc_id.0 == q.alloc_id.0 {
        match op {
            BinOp::Eq => Ok((PrimVal::Bool(p.offset == q.offset), false)),
            BinOp::Ne => Ok((PrimVal::Bool(p.offset != q.offset), false)),
            BinOp::Lt => Ok((PrimVal::Bool(p.offset < q.offset), false)),
            BinOp::Le => Ok((PrimVal::Bool(p.offset <= q.offset), false)),
            BinOp::Gt => Ok((PrimVal::Bool(p.offset > q.offset), false)),
            BinOp::Ge => Ok((PrimVal::Bool(p.offset >= q.offset), false)),
            _ => Err(EvalError::Unimplemented(Unsupported::PointerArithmetic)),
        }
    } else {
        Err(EvalError::Unimplemented(Unsupported::PointerArithmetic))
    }
}

/// The error a value that cannot join a numeric operation classifies to.
fn non_numeric_err(v: PrimVal) -> (r: EvalResult<(PrimVal, bool)>)
    ensures
        r == (if is_float(v) {
            Err::<(PrimVal, bool), EvalError>(EvalError::Unimplemented(Unsupported::FloatArithmetic))
        } else {
            Err(EvalError::Unimplemented(Unsupported::MixedOperandTypes))
        }),
{
    match v {
        PrimVal::F32Bits(_) | PrimVal::F64Bits(_) => Err(
            EvalError::Unimplemented(Unsupported::FloatArithmetic),
        ),
        _ => Err(EvalError::Unimplemented(Unsupported::MixedOperandTypes)),
    }
}

/// The non-integer cases of `binary_op`.
fn binary_op_rest(op: BinOp, left: PrimVal, right: PrimVal) -> (r: EvalResult<(PrimVal, bool)>)
    requires
        !(is_int(left) && is_int(right)),
    ensures
        r == spec_binary_op(op, left, right),
{
    match (left, right) {
        (PrimVal::Bool(a), PrimVal::Bool(b)) => {
            match op {
                BinOp::Eq => Ok((PrimVal::Bool(a == b), false)),
                BinOp::Ne => Ok((PrimVal::Bool(a != b), false)),
                BinOp::BitAnd => Ok((PrimVal::Bool(a && b), false)),
                BinOp::BitOr => Ok((PrimVal::Bool(a || b), false)),
                BinOp::BitXor => Ok((PrimVal::Bool(a != b), false)),
                _ => Err(EvalError::Unimplemented(Unsupported::InvalidOperation)),
            }
        },
        (PrimVal::Char(a), PrimVal::Char(b)) => {
            match op {
                BinOp::Eq => Ok((PrimVal::Bool(a == b), false)),
                BinOp::Ne => Ok((PrimVal::Bool(a != b), false)),
                BinOp::Lt => Ok((PrimVal::Bool(a < b), false)),
                BinOp::Le => Ok((PrimVal::Bool(a <= b), false)),
                BinOp::Gt => Ok((PrimVal::Bool(a > b), false)),
                BinOp::Ge => Ok((PrimVal::Bool(a >= b), false)),
                _ => Err(EvalError::Unimplemented(Unsupported::InvalidOperation)),
            }
        },
        (PrimVal::IntegerPtr(a), PrimVal::IntegerPtr(b)) => {
            match op {
                BinOp::Add => {
                    let n = (a as i128) + (b as i128);
                    let r0 = wrap_to_width(n, 64, false);
                    Ok((PrimVal::IntegerPtr(r0 as u64), r0 != n))
                },
                BinOp::Sub => {
                    let n = (a as i128) - (b as i128);
                    let r0 = wrap_to_width(n, 64, false);
                    Ok((PrimVal::IntegerPtr(r0 as u64), r0 != n))
                },
                BinOp::Eq => Ok((PrimVal::Bool(a == b), false)),
                BinOp::Ne => Ok((PrimVal::Bool(a != b), false)),
                BinOp::Lt => Ok((PrimVal::Bool(a < b), false)),
                BinOp::Le => Ok((PrimVal::Bool(a <= b), false)),
                BinOp::Gt => Ok((PrimVal::Bool(a > b), false)),
                BinOp::Ge => Ok((PrimVal::Bool(a >= b), false)),
                _ => Err(EvalError::Unimplemented(Unsupported::PointerArithmetic)),
            }
        },
        (PrimVal::AbstractPtr(p), rv) => {
            let add = match op {
                BinOp::Add => true,
                _ => false,
            };
            let sub = match op {
                BinOp::Sub => true,
                _ => false,
            };
            let nval: Option<i128> = match rv {
                PrimVal::IntegerPtr(n) => Some(n as i128),
                _ => match int_parts(&rv) {
                    Some((n, _, _, _)) => Some(n),
                    Option::None => Option::None,
                },
            };
            match nval {
                Some(n) => {
                    if add || sub {
                        let noff: i128 = if add {
                            (p.offset as i128) + n
                        } else {
                            (p.offset as i128) - n
                        };
                        if 0 <= noff && noff <= usize::MAX as i128 {
                            Ok(
                                (
                                    PrimVal::AbstractPtr(
                                        Pointer { alloc_id: p.alloc_id, offset: noff as usize },
                                    ),
                                    false,
                                ),
                            )
                        } else {
                            Err(EvalError::Unimplemented(Unsupported::ValueDoesNotFit))
                        }
                    } else {
                        match rv {
                            PrimVal::AbstractPtr(q) => abstract_cmp(op, p, q),
                            PrimVal::F32Bits(_) | PrimVal::F64Bits(_) => Err(
                                EvalError::Unimplemented(Unsupported::FloatArithmetic),
                            ),
                            _ => Err(EvalError::Unimplemented(Unsupported::MixedOperandTypes)),
                        }
                    }
                },
                Option::None => {
                    match rv {
                        PrimVal::AbstractPtr(q) => {
                            if p.alloc_id.0 == q.alloc_id.0 {
                                match op {
                                    BinOp::Eq => Ok((PrimVal::Bool(p.offset == q.offset), false)),
                                    BinOp::Ne => Ok((PrimVal::Bool(p.offset != q.offset), false)),
                                    BinOp::Lt => Ok((PrimVal::Bool(p.offset < q.offset), false)),
                                    BinOp::Le => Ok((PrimVal::Bool(p.offset <= q.offset), false)),
                                    BinOp::Gt => Ok((PrimVal::Bool(p.offset > q.offset), false)),
                                    BinOp::Ge => Ok((PrimVal::Bool(p.offset >= q.offset), false)),
                                    _ => Err(
                                        EvalError::Unimplemented(Unsupported::PointerArithmetic),
                                    ),
                                }
                            } else {
                                Err(EvalError::Unimplemented(Unsupported::PointerArithmetic))
                            }
                        },
                        PrimVal::F32Bits(_) | PrimVal::F64Bits(_) => Err(
                            EvalError::Unimplemented(Unsupported::FloatArithmetic),
                        ),
                        _ => Err(EvalError::Unimplemented(Unsupported::MixedOperandTypes)),
                    }
                },
            }
        },
        (lv, PrimVal::AbstractPtr(p)) => {
            let add = match op {
                BinOp::Add => true,
                _ => false,
            };
            let nval: Option<i128> = match lv {
                PrimVal::IntegerPtr(n) => Some(n as i128),
                _ => match int_parts(&lv) {
                    Some((n, _, _, _)) => Some(n),
                    Option::None => Option::None,
                },
            };
            if add {
                match nval {
                    Some(n) => {
                        let noff: i128 = (p.offset as i128) + n;
                        if 0 <= noff && noff <= usize::MAX as i128 {
                            Ok(
                                (
                                    PrimVal::AbstractPtr(
                                        Pointer { alloc_id: p.alloc_id, offset: noff as usize },
                                    ),
                                    false,
                                ),
                            )
                        } else {
                            Err(EvalError::Unimplemented(Unsupported::ValueDoesNotFit))
                        }
                    },
                    Option::None => non_numeric_err(lv),
                }
            } else {
                match int_parts(&lv) {
                    _ => non_numeric_err(lv),
                }
            }
        },
        (PrimVal::F32Bits(_), _) | (PrimVal::F64Bits(_), _) | (_, PrimVal::F32Bits(_)) | (
            _,
            PrimVal::F64Bits(_),
        ) => Err(EvalError::Unimplemented(Unsupported::FloatArithmetic)),
        _ => Err(EvalError::Unimplemented(Unsupported::MixedOperandTypes)),
    }
}

/// Apply the unary operation; see `spec_unary_op`.
pub fn unary_op(op: UnOp, v: PrimVal) -> (r: EvalResult<PrimVal>)
    ensures
        r == spec_unary_op(op, v),
{
    match op {
        UnOp::Not => {
            match v {
                PrimVal::Bool(b) => Ok(PrimVal::Bool(!b)),
                _ => {
                    match int_parts(&v) {
                        Some((_, ab, w, s)) => {
                            let mask = mask_exec(w);
                            Ok(mk_bits_exec(w, s, (!ab) & mask))
                        },
                        Option::None => Err(
                            EvalError::Unimplemented(Unsupported::InvalidOperation),
                        ),
                    }
                },
            }
        },
        UnOp::Neg => {
            match int_parts(&v) {
                Some((a, _, w, s)) if s => {
                    let r0 = wrap_to_width(-a, w, true);
                    Ok(make_int_value(w, true, r0))
                },
                _ => {
                    match v {
                        PrimVal::F32Bits(_) | PrimVal::F64Bits(_) => Err(
                            EvalError::Unimplemented(Unsupported::FloatArithmetic),
                        ),
                        _ => Err(EvalError::Unimplemented(Unsupported::InvalidOperation)),
                    }
                },
            }
        },
    }
}

/// The full model of `unary_op`.
pub open spec fn spec_unary_op(op: UnOp, v: PrimVal) -> EvalResult<PrimVal> {
    match op {
        UnOp::Not => if v is Bool {
            Ok(PrimVal::Bool(!v->Bool_0))
        } else if is_int(v) {
            Ok(mk_bits(int_width(v), int_signed(v), (!int_bits(v)) & mask_of(int_width(v))))
        } else {
            Err(EvalError::Unimplemented(Unsupported::InvalidOperation))
        },
        UnOp::Neg => if is_int(v) && int_signed(v) {
            Ok(mk_int(int_width(v), true, wrap(-int_val(v), int_width(v), true)))
        } else if is_float(v) {
            Err(EvalError::Unimplemented(Unsupported::FloatArithmetic))
        } else {
            Err(EvalError::Unimplemented(Unsupported::InvalidOperation))
        },
    }
}

} // verus!
