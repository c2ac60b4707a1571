//! Byte-level memory behaviour: provenance round trips, the init mask,
//! alignment, the zero-sized allocation, overlapping copies, reallocation.

use mirvm::endian::Endian;
use mirvm::error::{EvalError, Unsupported};
use mirvm::memory::{AllocId, Memory, Pointer, TargetDataLayout};

fn mem() -> Memory {
    Memory::new(TargetDataLayout::host_default(), 1 << 20)
}

#[test]
fn pointer_round_trip() {
    let mut m = mem();
    let slot = m.allocate(8, 8).unwrap();
    let target = m.allocate(16, 4).unwrap();
    let p = Pointer { alloc_id: target.alloc_id, offset: 11 };
    m.write_ptr(slot, p).unwrap();
    let back = m.read_ptr(slot).unwrap();
    assert_eq!(back, p);
}

#[test]
fn int_is_not_a_pointer() {
    let mut m = mem();
    let slot = m.allocate(8, 8).unwrap();
    m.write_uint(slot, 42, 8).unwrap();
    assert_eq!(m.read_ptr(slot), Err(EvalError::ReadBytesAsPointer));
}

#[test]
fn pointer_is_not_bytes() {
    let mut m = mem();
    let slot = m.allocate(8, 8).unwrap();
    let target = m.allocate(4, 4).unwrap();
    m.write_ptr(slot, target).unwrap();
    assert_eq!(m.read_uint(slot, 8), Err(EvalError::ReadPointerAsBytes));
}

#[test]
fn write_defines_range_and_clips_relocations() {
    let mut m = mem();
    let a = m.allocate(24, 8).unwrap();
    m.write_ptr(a, Pointer { alloc_id: a.alloc_id, offset: 8 }).unwrap();
    // overwrite the first two bytes of the stored pointer: the rest of its
    // bytes become undefined and the relocation is gone
    let src = vec![1u8, 2u8];
    m.write_bytes(a, &src).unwrap();
    assert_eq!(m.read_bytes(a, 2).unwrap(), vec![1, 2]);
    let tail = Pointer { alloc_id: a.alloc_id, offset: a.offset + 2 };
    assert_eq!(m.read_bytes(tail, 6), Err(EvalError::ReadUndefBytes));
}

#[test]
fn reading_fresh_memory_is_undefined() {
    let mut m = mem();
    let a = m.allocate(4, 4).unwrap();
    assert_eq!(m.read_uint(a, 4), Err(EvalError::ReadUndefBytes));
}

#[test]
fn alignment_symmetry() {
    let mut m = mem();
    let p = m.allocate(16, 8).unwrap();
    assert_eq!(p.offset, 8);
    assert!(p.check_align(1).is_ok());
    assert!(p.check_align(2).is_ok());
    assert!(p.check_align(4).is_ok());
    assert!(p.check_align(8).is_ok());
    assert_eq!(
        p.check_align(16),
        Err(EvalError::AlignmentCheckFailed { required: 16, has: 8 })
    );
}

#[test]
fn zst_identity() {
    let mut m = mem();
    let a = m.allocate(0, 8).unwrap();
    let b = m.allocate(0, 1).unwrap();
    assert_eq!(a, b);
    assert_eq!(a.alloc_id, AllocId(0));
    assert!(a.points_to_zst());
    let before = m.stats().virtual_bytes_allocated;
    m.deallocate(a).unwrap();
    m.deallocate(a).unwrap();
    assert_eq!(m.stats().virtual_bytes_allocated, before);
}

#[test]
fn copy_with_overlap() {
    let mut m = mem();
    let a = m.allocate(16, 1).unwrap();
    let src = vec![1u8, 2, 3, 4, 5, 6];
    m.write_bytes(a, &src).unwrap();
    // shift by two within the same allocation: reads the source before the
    // destination changes
    let dest = Pointer { alloc_id: a.alloc_id, offset: a.offset + 2 };
    m.copy(a, dest, 6).unwrap();
    assert_eq!(m.read_bytes(dest, 6).unwrap(), vec![1, 2, 3, 4, 5, 6]);
}

#[test]
fn copy_moves_init_bits_and_relocations() {
    let mut m = mem();
    let a = m.allocate(8, 8).unwrap();
    let b = m.allocate(8, 8).unwrap();
    let t = m.allocate(4, 4).unwrap();
    m.write_ptr(a, t).unwrap();
    m.copy(a, b, 8).unwrap();
    assert_eq!(m.read_ptr(b).unwrap(), t);
}

#[test]
fn scenario_write_bytes_read_int() {
    let mut m = mem();
    let slot = m.allocate(4, 4).unwrap();
    let src = vec![0x2Au8, 0, 0, 0];
    m.write_bytes(slot, &src).unwrap();
    assert_eq!(m.read_int(slot, 4).unwrap(), 42);
}

#[test]
fn scenario_reallocate_preserves_init_prefix() {
    let mut m = mem();
    let p = m.allocate(16, 8).unwrap();
    m.write_uint(p, 0xDEAD, 8).unwrap();
    let q = m.reallocate(p, 32, 8).unwrap();
    assert_eq!(q.alloc_id, p.alloc_id);
    assert_eq!(m.read_uint(q, 8).unwrap(), 0xDEAD);
    let grown = Pointer { alloc_id: q.alloc_id, offset: q.offset + 16 };
    assert_eq!(m.read_int(grown, 4), Err(EvalError::ReadUndefBytes));
}

#[test]
fn reallocate_shrink_drops_cut_relocations() {
    let mut m = mem();
    let p = m.allocate(24, 8).unwrap();
    let t = m.allocate(4, 4).unwrap();
    let slot = Pointer { alloc_id: p.alloc_id, offset: p.offset + 12 };
    m.write_ptr(slot, t).unwrap();
    // shrink so that the stored pointer's bytes are cut in half
    let q = m.reallocate(p, 8, 8).unwrap();
    assert_eq!(m.read_ptr(Pointer { alloc_id: q.alloc_id, offset: q.offset + 4 }).err(),
        Some(EvalError::ReadUndefBytes));
}

#[test]
fn reallocate_rejects_interior_pointer() {
    let mut m = mem();
    let p = m.allocate(16, 8).unwrap();
    let interior = Pointer { alloc_id: p.alloc_id, offset: p.offset + 1 };
    assert_eq!(
        m.reallocate(interior, 32, 8),
        Err(EvalError::Unimplemented(Unsupported::NonBasePointer))
    );
}

#[test]
fn deallocate_then_use_is_dangling() {
    let mut m = mem();
    let p = m.allocate(8, 8).unwrap();
    m.deallocate(p).unwrap();
    assert_eq!(m.read_uint(p, 8), Err(EvalError::DanglingPointerDeref));
    assert_eq!(m.deallocate(p), Err(EvalError::DanglingPointerDeref));
}

#[test]
fn function_pointers_are_memoized() {
    let mut m = mem();
    let a = m.create_fn_ptr(7, 0, 3);
    let b = m.create_fn_ptr(7, 0, 3);
    let c = m.create_fn_ptr(8, 0, 3);
    assert_eq!(a, b);
    assert_ne!(a, c);
    assert_eq!(m.get_fn(a.alloc_id).unwrap().def_id, 7);
    assert_eq!(m.read_uint(a, 8), Err(EvalError::DerefFunctionPointer));
}

#[test]
fn calling_bytes_fails() {
    let mut m = mem();
    let p = m.allocate(8, 8).unwrap();
    assert_eq!(m.get_fn(p.alloc_id), Err(EvalError::ExecuteMemory));
    assert_eq!(m.get_fn(AllocId(999)), Err(EvalError::InvalidFunctionPointer));
}

#[test]
fn frozen_memory_rejects_writes() {
    let mut m = mem();
    let p = m.allocate(4, 4).unwrap();
    m.write_uint(p, 5, 4).unwrap();
    m.freeze(p.alloc_id).unwrap();
    assert_eq!(m.read_uint(p, 4).unwrap(), 5);
    assert_eq!(
        m.write_uint(p, 6, 4),
        Err(EvalError::Unimplemented(Unsupported::FrozenMemory))
    );
}

#[test]
fn out_of_memory_is_reported() {
    let mut m = Memory::new(TargetDataLayout::host_default(), 16);
    let r = m.allocate(32, 1);
    assert!(matches!(r, Err(EvalError::OutOfMemory { .. })));
}

#[test]
fn big_endian_round_trip() {
    let layout = TargetDataLayout {
        endian: Endian::Big,
        ..TargetDataLayout::host_default()
    };
    let mut m = Memory::new(layout, 1 << 20);
    let p = m.allocate(4, 4).unwrap();
    m.write_uint(p, 0x0102_0304, 4).unwrap();
    assert_eq!(m.read_bytes(p, 4).unwrap(), vec![1, 2, 3, 4]);
    assert_eq!(m.read_uint(p, 4).unwrap(), 0x0102_0304);
    assert_eq!(m.read_int(p, 4).unwrap(), 0x0102_0304);
}

#[test]
fn signed_round_trip() {
    let mut m = mem();
    let p = m.allocate(2, 2).unwrap();
    m.write_int(p, -2, 2).unwrap();
    assert_eq!(m.read_int(p, 2).unwrap(), -2);
    assert_eq!(m.read_uint(p, 2).unwrap(), 0xFFFE);
}

#[test]
fn bool_encoding() {
    let mut m = mem();
    let p = m.allocate(1, 1).unwrap();
    m.write_bool(p, true).unwrap();
    assert_eq!(m.read_bool(p).unwrap(), true);
    let src = vec![2u8];
    m.write_bytes(p, &src).unwrap();
    assert_eq!(m.read_bool(p), Err(EvalError::InvalidBool));
}
