//! Encoding and decoding of unsigned integers in the target's byte order.
//!
//! The actual byte shuffling is done by the `byteorder` crate; the two
//! wrappers below state exactly which bytes it produces and reads.

use vstd::prelude::*;
use vstd::arithmetic::div_mod::{
    lemma_div_denominator, lemma_fundamental_div_mod, lemma_multiply_divide_lt,
};
use vstd::arithmetic::mul::lemma_mul_strict_inequality;

verus! {

/// Which byte order the target stores multi-byte integers in.
#[derive(Clone, Copy, Debug, PartialEq, Eq, Structural)]
pub enum Endian {
    Little,
    Big,
}

/// 256 to the `n`-th power: the number of values `n` bytes can hold.
pub open spec fn pow256(n: nat) -> nat
    decreases n,
{
    if n == 0 {
        1
    } else {
        256 * pow256((n - 1) as nat)
    }
}

/// Base-256 digit `i` of `v`, counting from the least significant end.
pub open spec fn uint_byte(v: u64, i: nat) -> u8 {
    (((v as nat) / pow256(i)) % 256) as u8
}

/// The little-endian encoding of `v` in `len` bytes.
pub open spec fn le_bytes_of(v: u64, len: nat) -> Seq<u8> {
    Seq::new(len, |i: int| uint_byte(v, i as nat))
}

/// The big-endian encoding of `v` in `len` bytes.
pub open spec fn be_bytes_of(v: u64, len: nat) -> Seq<u8> {
    Seq::new(len, |i: int| uint_byte(v, (len - 1 - i) as nat))
}

/// The value of a byte sequence read as a little-endian unsigned integer.
pub open spec fn le_uint_of(bytes: Seq<u8>) -> nat
    decreases bytes.len(),
{
    if bytes.len() == 0 {
        0
    } else {
        (bytes[0] as nat) + 256 * le_uint_of(bytes.subrange(1, bytes.len() as int))
    }
}

/// The value of a byte sequence read as a big-endian unsigned integer.
pub open spec fn be_uint_of(bytes: Seq<u8>) -> nat
    decreases bytes.len(),
{
    if bytes.len() == 0 {
        0
    } else {
        256 * be_uint_of(bytes.subrange(0, bytes.len() - 1)) + (bytes[bytes.len() - 1] as nat)
    }
}

/// The encoding of `v` in `len` bytes under the given byte order.
pub open spec fn target_bytes_of(endian: Endian, v: u64, len: nat) -> Seq<u8> {
    match endian {
        Endian::Little => le_bytes_of(v, len),
        Endian::Big => be_bytes_of(v, len),
    }
}

/// The value of a byte sequence under the given byte order.
pub open spec fn target_uint_of(endian: Endian, bytes: Seq<u8>) -> nat {
    match endian {
        Endian::Little => le_uint_of(bytes),
        Endian::Big => be_uint_of(bytes),
    }
}

pub proof fn lemma_pow256_pos(n: nat)
    ensures
        pow256(n) >= 1,
    decreases n,
{
    if n > 0 {
        lemma_pow256_pos((n - 1) as nat);
    }
}

/// Every value below `pow256(len)` decodes back from its `len`-byte
/// little-endian encoding.
pub proof fn lemma_le_round_trip(v: u64, len: nat)
    requires
        (v as nat) < pow256(len),
    ensures
        le_uint_of(le_bytes_of(v, len)) == v as nat,
    decreases len,
{
    let s = le_bytes_of(v, len);
    if len == 0 {
        assert(v as nat == 0);
    } else {
        let tail = pow256((len - 1) as nat);
        lemma_pow256_pos((len - 1) as nat);
        lemma_multiply_divide_lt(v as int, 256, tail as int);
        let q = ((v as nat) / 256) as u64;
        assert forall|i: int| 0 <= i < len - 1 implies s.subrange(1, len as int)[i]
            == le_bytes_of(q, (len - 1) as nat)[i] by {
            lemma_pow256_pos(i as nat);
            lemma_div_denominator(v as int, 256, pow256(i as nat) as int);
        }
        assert(s.subrange(1, len as int) =~= le_bytes_of(q, (len - 1) as nat));
        lemma_le_round_trip(q, (len - 1) as nat);
        assert(pow256(0) == 1);
        assert(s[0] == uint_byte(v, 0));
        lemma_fundamental_div_mod(v as int, 256);
    }
}

/// Every value below `pow256(len)` decodes back from its `len`-byte
/// big-endian encoding.
pub proof fn lemma_be_round_trip(v: u64, len: nat)
    requires
        (v as nat) < pow256(len),
    ensures
        be_uint_of(be_bytes_of(v, len)) == v as nat,
    decreases len,
{
    let s = be_bytes_of(v, len);
    if len == 0 {
        assert(v as nat == 0);
    } else {
        let tail = pow256((len - 1) as nat);
        lemma_pow256_pos((len - 1) as nat);
        lemma_multiply_divide_lt(v as int, 256, tail as int);
        let q = ((v as nat) / 256) as u64;
        assert forall|i: int| 0 <= i < len - 1 implies #[trigger] s.subrange(0, len - 1)[i]
            == be_bytes_of(q, (len - 1) as nat)[i] by {
            lemma_pow256_pos((len - 2 - i) as nat);
            lemma_div_denominator(v as int, 256, pow256((len - 2 - i) as nat) as int);
        }
        assert(s.subrange(0, len - 1) =~= be_bytes_of(q, (len - 1) as nat));
        lemma_be_round_trip(q, (len - 1) as nat);
        assert(pow256(0) == 1);
        assert(s[len - 1] == uint_byte(v, 0));
        lemma_fundamental_div_mod(v as int, 256);
    }
}

/// A round trip under either byte order.
pub proof fn lemma_target_round_trip(endian: Endian, v: u64, len: nat)
    requires
        (v as nat) < pow256(len),
    ensures
        target_uint_of(endian, target_bytes_of(endian, v, len)) == v as nat,
{
    match endian {
        Endian::Little => lemma_le_round_trip(v, len),
        Endian::Big => lemma_be_round_trip(v, len),
    }
}

/// The value of `len` bytes is below `pow256(len)`.
pub proof fn lemma_le_uint_bound(bytes: Seq<u8>)
    ensures
        le_uint_of(bytes) < pow256(bytes.len()),
    decreases bytes.len(),
{
    if bytes.len() > 0 {
        let rest = bytes.subrange(1, bytes.len() as int);
        lemma_le_uint_bound(rest);
        lemma_mul_strict_inequality(le_uint_of(rest) as int, pow256(rest.len()) as int, 256);
    }
}

/// The value of `len` bytes is below `pow256(len)`.
pub proof fn lemma_be_uint_bound(bytes: Seq<u8>)
    ensures
        be_uint_of(bytes) < pow256(bytes.len()),
    decreases bytes.len(),
{
    if bytes.len() > 0 {
        let rest = bytes.subrange(0, bytes.len() - 1);
        lemma_be_uint_bound(rest);
        lemma_mul_strict_inequality(be_uint_of(rest) as int, pow256(rest.len()) as int, 256);
    }
}

pub proof fn lemma_target_uint_bound(endian: Endian, bytes: Seq<u8>)
    ensures
        target_uint_of(endian, bytes) < pow256(bytes.len()),
{
    match endian {
        Endian::Little => lemma_le_uint_bound(bytes),
        Endian::Big => lemma_be_uint_bound(bytes),
    }
}

/// Relies on byteorder's `LittleEndian::write_uint`: it stores the `nbytes`
/// low-order base-256 digits of `n` at the start of `buf`, least significant
/// digit first, and touches nothing else; it panics only when `nbytes` is
/// outside `1..=8`, the buffer is shorter than `nbytes`, or `n` does not fit.
#[verifier::external_body]
fn le_write_uint(buf: &mut Vec<u8>, n: u64, nbytes: usize)
    requires
        1 <= nbytes <= 8,
        nbytes <= old(buf).len(),
        (n as nat) < pow256(nbytes as nat),
    ensures
        final(buf)@.len() == old(buf)@.len(),
        final(buf)@.subrange(0, nbytes as int) == le_bytes_of(n, nbytes as nat),
        forall|i: int| nbytes <= i < old(buf)@.len() ==> final(buf)@[i] == old(buf)@[i],
{
    <byteorder::LittleEndian as byteorder::ByteOrder>::write_uint(buf.as_mut_slice(), n, nbytes);
}

/// Relies on byteorder's `BigEndian::write_uint`: it stores the `nbytes`
/// low-order base-256 digits of `n` at the start of `buf`, most significant
/// digit first, and touches nothing else; same panic conditions as the
/// little-endian variant.
#[verifier::external_body]
fn be_write_uint(buf: &mut Vec<u8>, n: u64, nbytes: usize)
    requires
        1 <= nbytes <= 8,
        nbytes <= old(buf).len(),
        (n as nat) < pow256(nbytes as nat),
    ensures
        final(buf)@.len() == old(buf)@.len(),
        final(buf)@.subrange(0, nbytes as int) == be_bytes_of(n, nbytes as nat),
        forall|i: int| nbytes <= i < old(buf)@.len() ==> final(buf)@[i] == old(buf)@[i],
{
    <byteorder::BigEndian as byteorder::ByteOrder>::write_uint(buf.as_mut_slice(), n, nbytes);
}

/// Relies on byteorder's `LittleEndian::read_uint`: it returns the value of
/// the first `nbytes` bytes of `buf` read as a little-endian unsigned
/// integer; it panics only when `nbytes` is outside `1..=8` or the buffer is
/// shorter than `nbytes`.
#[verifier::external_body]
fn le_read_uint(buf: &Vec<u8>, nbytes: usize) -> (r: u64)
    requires
        1 <= nbytes <= 8,
        nbytes <= buf.len(),
    ensures
        r as nat == le_uint_of(buf@.subrange(0, nbytes as int)),
{
    <byteorder::LittleEndian as byteorder::ByteOrder>::read_uint(buf.as_slice(), nbytes)
}

/// Relies on byteorder's `BigEndian::read_uint`: it returns the value of the
/// first `nbytes` bytes of `buf` read as a big-endian unsigned integer; same
/// panic conditions as the little-endian variant.
#[verifier::external_body]
fn be_read_uint(buf: &Vec<u8>, nbytes: usize) -> (r: u64)
    requires
        1 <= nbytes <= 8,
        nbytes <= buf.len(),
    ensures
        r as nat == be_uint_of(buf@.subrange(0, nbytes as int)),
{
    <byteorder::BigEndian as byteorder::ByteOrder>::read_uint(buf.as_slice(), nbytes)
}

/// Encode `n` into the first `nbytes` bytes of `buf` in the target's order.
pub fn write_target_uint(endian: Endian, buf: &mut Vec<u8>, n: u64, nbytes: usize)
    requires
        1 <= nbytes <= 8,
        nbytes <= old(buf).len(),
        (n as nat) < pow256(nbytes as nat),
    ensures
        final(buf)@.len() == old(buf)@.len(),
        final(buf)@.subrange(0, nbytes as int) == target_bytes_of(endian, n, nbytes as nat),
        forall|i: int| nbytes <= i < old(buf)@.len() ==> final(buf)@[i] == old(buf)@[i],
{
    match endian {
        Endian::Little => le_write_uint(buf, n, nbytes),
        Endian::Big => be_write_uint(buf, n, nbytes),
    }
}

/// The byte counts supported for integer access.
pub open spec fn valid_int_size(size: nat) -> bool {
    size == 1 || size == 2 || size == 4 || size == 8
}

/// The concrete powers the integer accessors work with.
pub proof fn lemma_pow256_values()
    ensures
        pow256(1) == 0x100,
        pow256(2) == 0x10000,
        pow256(4) == 0x1_0000_0000,
        pow256(8) == 0x1_0000_0000_0000_0000,
{
    assert(pow256(0) == 1);
    assert(pow256(1) == 0x100);
    assert(pow256(2) == 0x10000);
    assert(pow256(3) == 0x100_0000);
    assert(pow256(4) == 0x1_0000_0000);
    assert(pow256(5) == 0x100_0000_0000);
    assert(pow256(6) == 0x1_0000_0000_0000);
    assert(pow256(7) == 0x100_0000_0000_0000);
    assert(pow256(8) == 0x1_0000_0000_0000_0000);
}

/// The unsigned (two's complement) image of a signed value in `size` bytes.
pub open spec fn to_unsigned(n: int, size: nat) -> nat {
    if n >= 0 {
        n as nat
    } else {
        (n + pow256(size)) as nat
    }
}

/// The signed reading of an unsigned value of `size` bytes.
pub open spec fn from_unsigned(u: nat, size: nat) -> int {
    if u < pow256(size) / 2 {
        u as int
    } else {
        u - pow256(size)
    }
}

/// The signed values representable in `size` bytes.
pub open spec fn in_signed_range(n: int, size: nat) -> bool {
    -(pow256(size) / 2) <= n < pow256(size) / 2
}

/// Decode the first `nbytes` bytes of `buf` in the target's order.
pub fn read_target_uint(endian: Endian, buf: &Vec<u8>, nbytes: usize) -> (r: u64)
    requires
        1 <= nbytes <= 8,
        nbytes <= buf.len(),
    ensures
        r as nat == target_uint_of(endian, buf@.subrange(0, nbytes as int)),
{
    match endian {
        Endian::Little => le_read_uint(buf, nbytes),
        Endian::Big => be_read_uint(buf, nbytes),
    }
}

} // verus!
