//! Allocations and pointers: the interpreter's byte-level virtual memory.
//!
//! Every pointer carries the id of the allocation it points into; the
//! relocation map of each allocation is the ground truth for which of its
//! byte ranges hold pointers, and the initialization mask records which
//! bytes have been written.

use vstd::prelude::*;
use crate::error::{EvalError, EvalResult, Unsupported};
use crate::undef_mask::UndefMask;
use crate::endian::Endian;

verus! {


/// Names one allocation. Ids are handed out in order and never reused;
/// id 0 is reserved for the zero-sized allocation.
#[derive(Copy, Clone, Debug, Eq, Hash, PartialEq, Structural)]
pub struct AllocId(pub u64);

/// The reserved id of the single zero-sized allocation.
pub open spec fn zst_alloc_id() -> AllocId {
    AllocId(0)
}

/// An address: an allocation id together with a byte offset into it.
#[derive(Copy, Clone, Debug, Eq, PartialEq, Structural)]
pub struct Pointer {
    pub alloc_id: AllocId,
    pub offset: usize,
}

/// The largest power of two dividing `n` (for `n == 0`, 1).
pub open spec fn pow2_divisor(n: nat) -> nat
    decreases n,
{
    if n == 0 || n % 2 == 1 {
        1
    } else {
        2 * pow2_divisor(n / 2)
    }
}

impl Pointer {
    /// The same address moved by `i` bytes.
    pub fn offset(self, i: isize) -> (r: Self)
        requires
            0 <= self.offset + i <= usize::MAX,
        ensures
            r.alloc_id == self.alloc_id,
            r.offset == self.offset + i,
    {
        if i >= 0 {
            Pointer { offset: self.offset + (i as usize), ..self }
        } else {
            let back = (-(i + 1)) as usize + 1;
            Pointer { offset: self.offset - back, ..self }
        }
    }

    pub fn points_to_zst(&self) -> (r: bool)
        ensures
            r == (self.alloc_id == zst_alloc_id()),
    {
        self.alloc_id.0 == 0
    }

    fn zst_ptr() -> (r: Self)
        ensures
            r == (Pointer { alloc_id: zst_alloc_id(), offset: 0 }),
    {
        Pointer { alloc_id: AllocId(0), offset: 0 }
    }

    pub fn is_aligned_to(&self, align: usize) -> (r: bool)
        requires
            align >= 1,
        ensures
            r == (self.offset as int % align as int == 0),
    {
        self.offset % align == 0
    }

    /// Ok exactly when the offset is a multiple of `align`; the error names
    /// the largest power-of-two divisor the offset actually has.
    #[verifier::loop_isolation(false)]
    pub fn check_align(&self, align: usize) -> (r: EvalResult<()>)
        requires
            align >= 1,
        ensures
            r matches Ok(_) <==> self.offset as int % align as int == 0,
            self.offset as int % align as int != 0 ==> r == Err::<(), _>(
                EvalError::AlignmentCheckFailed {
                    required: align,
                    has: pow2_divisor(self.offset as nat) as usize,
                },
            ),
    {
        if self.offset % align == 0 {
            Ok(())
        } else {
            let mut best: usize = self.offset;
            let mut i: usize = 1;
            while best % 2 == 0 && best > 0
                invariant
                    1 <= i,
                    i * best == self.offset,
                    pow2_divisor(self.offset as nat) == i * pow2_divisor(best as nat),
                decreases best,
            {
                proof {
                    assert(pow2_divisor(best as nat) == 2 * pow2_divisor((best / 2) as nat));
                    assert(i * pow2_divisor(best as nat) == (i * 2) * pow2_divisor(
                        (best / 2) as nat,
                    )) by (nonlinear_arith)
                        requires
                            pow2_divisor(best as nat) == 2 * pow2_divisor((best / 2) as nat),
                    ;
                    assert((i * 2) * (best / 2) == i * best) by (nonlinear_arith)
                        requires
                            best % 2 == 0,
                            best > 0,
                    ;
                    assert(i * 2 <= i * best) by (nonlinear_arith)
                        requires
                            1 <= i,
                            2 <= best,
                    ;
                }
                best = best / 2;
                i = i * 2;
            }
            proof {
                if best == 0 {
                    assert(i * best == 0) by (nonlinear_arith)
                        requires
                            best == 0,
                    ;
                    assert(self.offset == 0);
                    assert(self.offset as int % align as int == 0) by (nonlinear_arith)
                        requires
                            self.offset == 0,
                            align >= 1,
                    ;
                }
                assert(best % 2 == 1);
                assert(pow2_divisor(best as nat) == 1);
                assert(i * pow2_divisor(best as nat) == i) by (nonlinear_arith)
                    requires
                        pow2_divisor(best as nat) == 1,
                ;
            }
            Err(EvalError::AlignmentCheckFailed { required: align, has: i })
        }
    }
}

/// A function "allocation": no bytes, only the identity of a monomorphized
/// function, so that function pointers have something to point to.
#[derive(Debug, Copy, Clone, Hash, Eq, PartialEq, Structural)]
pub struct FunctionDefinition {
    pub def_id: u64,
    pub substs: u64,
    pub fn_ty: usize,
}

/// The target machine description the memory works under.
#[derive(Debug, Copy, Clone, PartialEq, Eq, Structural)]
pub struct TargetDataLayout {
    pub pointer_size: usize,
    pub endian: Endian,
    pub i1_align: usize,
    pub i8_align: usize,
    pub i16_align: usize,
    pub i32_align: usize,
    pub i64_align: usize,
    pub f32_align: usize,
    pub f64_align: usize,
}

impl TargetDataLayout {
    pub open spec fn wf(&self) -> bool {
        &&& (self.pointer_size == 2 || self.pointer_size == 4 || self.pointer_size == 8)
        &&& self.i1_align >= 1
        &&& self.i8_align >= 1
        &&& self.i16_align >= 1
        &&& self.i32_align >= 1
        &&& self.i64_align >= 1
        &&& self.f32_align >= 1
        &&& self.f64_align >= 1
    }

    /// A 64-bit little-endian target with natural alignments.
    pub fn host_default() -> (r: Self)
        ensures
            r.wf(),
            r == (TargetDataLayout {
                pointer_size: 8,
                endian: Endian::Little,
                i1_align: 1,
                i8_align: 1,
                i16_align: 2,
                i32_align: 4,
                i64_align: 8,
                f32_align: 4,
                f64_align: 8,
            }),
    {
        TargetDataLayout {
            pointer_size: 8,
            endian: Endian::Little,
            i1_align: 1,
            i8_align: 1,
            i16_align: 2,
            i32_align: 4,
            i64_align: 8,
            f32_align: 4,
            f64_align: 8,
        }
    }
}

/// A mutable byte buffer together with its relocation map (which byte ranges
/// hold tagged pointers), its initialization mask, its declared alignment,
/// and whether it has been sealed read-only.
#[derive(Debug)]
pub struct Allocation {
    /// The buffer itself.
    pub bytes: Vec<u8>,
    /// `Some(id)` at index `i` records that the `pointer_size` bytes starting
    /// at `i` are a pointer into allocation `id`.
    pub relocations: Vec<Option<AllocId>>,
    /// One bit per byte; 1 = defined.
    pub undef_mask: UndefMask,
    /// The alignment the allocation was created with.
    pub align: usize,
    /// Sealed after computing a static's initial value; writes then fail.
    pub immutable: bool,
}

impl Allocation {
    /// Relocation and mask bookkeeping lines up with the buffer: the mask has
    /// one bit per byte, and every relocation covers `psize` bytes in bounds.
    pub open spec fn wf(&self, psize: nat) -> bool {
        &&& self.undef_mask.wf()
        &&& self.undef_mask@.len() == self.bytes@.len()
        &&& self.relocations@.len() == self.bytes@.len()
        &&& forall|i: int|
            0 <= i < self.relocations@.len() && self.relocations@[i] is Some ==> i + psize
                <= self.bytes@.len()
    }

    /// Is a relocation entry present anywhere in `start..end` (clipped to the
    /// buffer)?
    pub open spec fn has_reloc_in(&self, start: int, end: int) -> bool {
        exists|k: int|
            0 <= k < self.relocations@.len() && start <= k < end && self.relocations@[k] is Some
    }
}

/// One slot of the allocation table. Ids are indices into it.
pub enum AllocEntry {
    /// A live byte allocation.
    Bytes(Allocation),
    /// A function allocation.
    Func(FunctionDefinition),
    /// Deallocated; the id is never reused.
    Dead,
}

/// How many bytes of the budget an entry holds.
pub open spec fn entry_bytes(e: AllocEntry) -> nat {
    match e {
        AllocEntry::Bytes(a) => a.bytes@.len(),
        AllocEntry::Func(_) => 0,
        AllocEntry::Dead => 0,
    }
}

/// The bytes held by all entries together: what `memory_usage` tracks.
pub open spec fn sum_bytes(s: Seq<AllocEntry>) -> nat
    decreases s.len(),
{
    if s.len() == 0 {
        0
    } else {
        sum_bytes(s.drop_last()) + entry_bytes(s.last())
    }
}

proof fn lemma_sum_bytes_update(s: Seq<AllocEntry>, i: int, e: AllocEntry)
    requires
        0 <= i < s.len(),
    ensures
        sum_bytes(s.update(i, e)) == sum_bytes(s) - entry_bytes(s[i]) + entry_bytes(e),
    decreases s.len(),
{
    let t = s.update(i, e);
    if i == s.len() - 1 {
        assert(t.drop_last() =~= s.drop_last());
    } else {
        assert(t.drop_last() =~= s.drop_last().update(i, e));
        lemma_sum_bytes_update(s.drop_last(), i, e);
    }
}

proof fn lemma_sum_bytes_entry_bound(s: Seq<AllocEntry>, i: int)
    requires
        0 <= i < s.len(),
    ensures
        entry_bytes(s[i]) <= sum_bytes(s),
    decreases s.len(),
{
    if i < s.len() - 1 {
        lemma_sum_bytes_entry_bound(s.drop_last(), i);
    }
}

/// Top-level interpreter memory: the allocation table, the byte budget, and
/// the target description.
pub struct Memory {
    allocs: Vec<AllocEntry>,
    memory_usage: usize,
    memory_size: usize,
    pub layout: TargetDataLayout,
}

impl Memory {
    /// The allocation table, for specification purposes.
    pub closed spec fn entries(&self) -> Seq<AllocEntry> {
        self.allocs@
    }

    pub closed spec fn usage_spec(&self) -> nat {
        self.memory_usage as nat
    }

    pub closed spec fn size_spec(&self) -> nat {
        self.memory_size as nat
    }

    /// The target description, for specification purposes.
    pub closed spec fn layout_spec(&self) -> TargetDataLayout {
        self.layout
    }

    pub open spec fn psize(&self) -> nat {
        self.layout_spec().pointer_size as nat
    }

    /// `id` names a live byte allocation.
    pub open spec fn is_alloc(&self, id: AllocId) -> bool {
        id.0 < self.entries().len() && self.entries()[id.0 as int] is Bytes
    }

    /// `id` names a function allocation.
    pub open spec fn is_func(&self, id: AllocId) -> bool {
        id.0 < self.entries().len() && self.entries()[id.0 as int] is Func
    }

    /// The live byte allocation named by `id`.
    pub open spec fn allocation(&self, id: AllocId) -> Allocation {
        self.entries()[id.0 as int]->Bytes_0
    }

    pub open spec fn func_def(&self, id: AllocId) -> FunctionDefinition {
        self.entries()[id.0 as int]->Func_0
    }

    /// `size` bytes at `ptr` lie inside a live allocation.
    pub open spec fn in_bounds(&self, ptr: Pointer, size: nat) -> bool {
        self.is_alloc(ptr.alloc_id) && ptr.offset + size <= self.allocation(
            ptr.alloc_id,
        ).bytes@.len()
    }

    /// The observable state is the same: same table, budget and target.
    pub open spec fn same_memory(&self, other: &Memory) -> bool {
        &&& self.entries() == other.entries()
        &&& self.usage_spec() == other.usage_spec()
        &&& self.size_spec() == other.size_spec()
        &&& self.layout_spec() == other.layout_spec()
    }

    /// Everything the rest of the crate may assume about a memory value.
    pub open spec fn inv(&self) -> bool {
        &&& self.layout_spec().wf()
        &&& self.entries().len() >= 1
        &&& self.entries()[0] is Bytes
        &&& self.allocation(zst_alloc_id()).bytes@.len() == 0
        &&& self.allocation(zst_alloc_id()).align == 0
        &&& forall|i: int|
            0 <= i < self.entries().len() && self.entries()[i] is Bytes
                ==> (#[trigger] self.entries()[i])->Bytes_0.wf(self.psize())
        &&& self.usage_spec() == sum_bytes(self.entries())
        &&& self.usage_spec() <= self.size_spec()
    }

    /// A fresh memory with the reserved zero-sized allocation and an empty
    /// budget of `max_memory` bytes.
    pub fn new(layout: TargetDataLayout, max_memory: usize) -> (r: Self)
        requires
            layout.wf(),
        ensures
            r.inv(),
            r.layout_spec() == layout,
            r.size_spec() == max_memory,
            r.usage_spec() == 0,
            r.entries().len() == 1,
    {
        let zst = Allocation {
            bytes: Vec::new(),
            relocations: Vec::new(),
            undef_mask: UndefMask::new(0),
            align: 0,
            immutable: false,
        };
        let mut allocs: Vec<AllocEntry> = Vec::new();
        allocs.push(AllocEntry::Bytes(zst));
        let m = Memory { allocs, memory_usage: 0, memory_size: max_memory, layout };
        proof {
            let s = m.entries();
            assert(s =~= seq![AllocEntry::Bytes(zst)]);
            assert(s.len() == 1);
            assert(s.last() == AllocEntry::Bytes(zst));
            assert(entry_bytes(s.last()) == 0);
            assert(s.drop_last() =~= Seq::<AllocEntry>::empty());
            assert(sum_bytes(s.drop_last()) == 0);
            assert(sum_bytes(s) == sum_bytes(s.drop_last()) + entry_bytes(s.last()));
        }
        m
    }

    pub fn pointer_size(&self) -> (r: usize)
        ensures
            r == self.layout_spec().pointer_size,
    {
        self.layout.pointer_size
    }

    pub fn endianess(&self) -> (r: Endian)
        ensures
            r == self.layout_spec().endian,
    {
        self.layout.endian
    }

    /// A pointer into a fresh allocation of `size + align` bytes, placed at
    /// offset `align` so that misaligned accesses run off the end and fail
    /// the same bounds check as any other bad access. Zero-sized requests
    /// share the one reserved allocation.
    pub fn allocate(&mut self, size: usize, align: usize) -> (r: EvalResult<Pointer>)
        requires
            old(self).inv(),
            size + align + 63 <= usize::MAX,
        ensures
            final(self).inv(),
            final(self).layout_spec() == old(self).layout_spec(),
            final(self).size_spec() == old(self).size_spec(),
            size == 0 ==> r == Ok::<_, EvalError>(Pointer { alloc_id: zst_alloc_id(), offset: 0 })
                && *final(self) == *old(self),
            size > 0 ==> ((r matches Ok(_)) <==> size + align <= old(self).size_spec() - old(
                self,
            ).usage_spec()),
            r matches Err(_) ==> *final(self) == *old(self) && r == Err::<Pointer, _>(
                EvalError::OutOfMemory {
                    allocation_size: (size + align) as usize,
                    memory_size: old(self).size_spec() as usize,
                    memory_usage: old(self).usage_spec() as usize,
                },
            ),
            size > 0 ==> (r matches Ok(p) ==> {
                &&& p.alloc_id.0 == old(self).entries().len()
                &&& p.offset == align
                &&& final(self).entries().len() == old(self).entries().len() + 1
                &&& forall|i: int|
                    0 <= i < old(self).entries().len() ==> final(self).entries()[i] == old(
                        self,
                    ).entries()[i]
                &&& final(self).is_alloc(p.alloc_id)
                &&& final(self).allocation(p.alloc_id).bytes@ == Seq::new(
                    (size + align) as nat,
                    |i: int| 0u8,
                )
                &&& final(self).allocation(p.alloc_id).undef_mask@ == Seq::new(
                    (size + align) as nat,
                    |i: int| false,
                )
                &&& final(self).allocation(p.alloc_id).relocations@ == Seq::new(
                    (size + align) as nat,
                    |i: int| Option::<AllocId>::None,
                )
                &&& final(self).allocation(p.alloc_id).align == align
                &&& !final(self).allocation(p.alloc_id).immutable
                &&& final(self).usage_spec() == old(self).usage_spec() + size + align
            }),
    {
        if size == 0 {
            return Ok(Pointer::zst_ptr());
        }
        let least_aligned_size = size + align;
        if self.memory_size - self.memory_usage < least_aligned_size {
            return Err(EvalError::OutOfMemory {
                allocation_size: least_aligned_size,
                memory_size: self.memory_size,
                memory_usage: self.memory_usage,
            });
        }
        self.memory_usage = self.memory_usage + least_aligned_size;
        let mut bytes: Vec<u8> = Vec::new();
        let mut relocations: Vec<Option<AllocId>> = Vec::new();
        let mut i: usize = 0;
        while i < least_aligned_size
            invariant
                i <= least_aligned_size,
                bytes@ =~= Seq::new(i as nat, |j: int| 0u8),
                relocations@ =~= Seq::new(i as nat, |j: int| Option::<AllocId>::None),
            decreases least_aligned_size - i,
        {
            bytes.push(0);
            relocations.push(Option::None);
            i = i + 1;
        }
        let alloc = Allocation {
            bytes,
            relocations,
            undef_mask: UndefMask::new(least_aligned_size),
            align,
            immutable: false,
        };
        let id = self.allocs.len();
        proof {
            assert(sum_bytes(old(self).entries().push(AllocEntry::Bytes(alloc))) == sum_bytes(
                old(self).entries(),
            ) + entry_bytes(AllocEntry::Bytes(alloc))) by {
                assert(old(self).entries().push(AllocEntry::Bytes(alloc)).drop_last() =~= old(
                    self,
                ).entries());
            }
        }
        self.allocs.push(AllocEntry::Bytes(alloc));
        Ok(Pointer { alloc_id: AllocId(id as u64), offset: align })
    }

    /// Return the allocation's bytes to the budget and mark the id dead. The
    /// pointer must be the base pointer the allocation was created with;
    /// deallocating the zero-sized allocation is a no-op.
    pub fn deallocate(&mut self, ptr: Pointer) -> (r: EvalResult<()>)
        requires
            old(self).inv(),
        ensures
            final(self).inv(),
            final(self).layout_spec() == old(self).layout_spec(),
            final(self).size_spec() == old(self).size_spec(),
            ptr.alloc_id == zst_alloc_id() ==> ((r matches Ok(_)) && final(self).same_memory(
                old(self),
            )),
            r matches Err(_) ==> final(self).same_memory(old(self)),
            ptr.alloc_id != zst_alloc_id() ==> ((r matches Ok(_)) <==> (old(self).is_alloc(
                ptr.alloc_id,
            ) && ptr.offset == old(self).allocation(ptr.alloc_id).align)),
            ptr.alloc_id != zst_alloc_id() ==> (r matches Ok(_) ==> {
                &&& final(self).entries() == old(self).entries().update(
                    ptr.alloc_id.0 as int,
                    AllocEntry::Dead,
                )
                &&& final(self).usage_spec() == old(self).usage_spec() - old(self).allocation(
                    ptr.alloc_id,
                ).bytes@.len()
            }),
            !old(self).is_alloc(ptr.alloc_id) && old(self).is_func(ptr.alloc_id) ==> r == Err::<
                (),
                _,
            >(EvalError::DerefFunctionPointer),
            !old(self).is_alloc(ptr.alloc_id) && !old(self).is_func(ptr.alloc_id) && ptr.alloc_id
                != zst_alloc_id() ==> r == Err::<(), _>(EvalError::DanglingPointerDeref),
    {
        if ptr.points_to_zst() {
            return Ok(());
        }
        let idx = ptr.alloc_id.0;
        if idx >= self.allocs.len() as u64 {
            return Err(EvalError::DanglingPointerDeref);
        }
        let idx = idx as usize;
        let mut entry = AllocEntry::Dead;
        self.allocs.set_and_swap(idx, &mut entry);
        match entry {
            AllocEntry::Bytes(a) => {
                if ptr.offset != a.align {
                    let mut put_back = AllocEntry::Bytes(a);
                    self.allocs.set_and_swap(idx, &mut put_back);
                    proof {
                        assert(self.entries() =~= old(self).entries());
                    }
                    return Err(EvalError::Unimplemented(Unsupported::NonBasePointer));
                }
                proof {
                    lemma_sum_bytes_update(
                        old(self).entries(),
                        idx as int,
                        AllocEntry::Dead,
                    );
                    lemma_sum_bytes_entry_bound(old(self).entries(), idx as int);
                }
                self.memory_usage = self.memory_usage - a.bytes.len();
                Ok(())
            },
            AllocEntry::Func(f) => {
                let mut put_back = AllocEntry::Func(f);
                self.allocs.set_and_swap(idx, &mut put_back);
                proof {
                    assert(self.entries() =~= old(self).entries());
                }
                Err(EvalError::DerefFunctionPointer)
            },
            AllocEntry::Dead => {
                proof {
                    assert(self.entries() =~= old(self).entries());
                }
                Err(EvalError::DanglingPointerDeref)
            },
        }
    }

    /// Seal an allocation after its initializer finished: it computed a
    /// static's value, which must not change any more.
    pub fn freeze(&mut self, id: AllocId) -> (r: EvalResult<()>)
        requires
            old(self).inv(),
        ensures
            final(self).inv(),
            final(self).layout_spec() == old(self).layout_spec(),
            final(self).size_spec() == old(self).size_spec(),
            (r matches Ok(_)) <==> old(self).is_alloc(id),
            r matches Err(_) ==> final(self).same_memory(old(self)),
            r matches Ok(_) ==> {
                &&& final(self).entries().len() == old(self).entries().len()
                &&& forall|i: int|
                    0 <= i < old(self).entries().len() && i != id.0 ==> final(self).entries()[i]
                        == old(self).entries()[i]
                &&& final(self).is_alloc(id)
                &&& final(self).allocation(id) == Allocation {
                    immutable: true,
                    ..old(self).allocation(id)
                }
            },
    {
        let idx = id.0;
        if idx >= self.allocs.len() as u64 {
            return Err(EvalError::DanglingPointerDeref);
        }
        let idx = idx as usize;
        let mut entry = AllocEntry::Dead;
        self.allocs.set_and_swap(idx, &mut entry);
        match entry {
            AllocEntry::Bytes(a) => {
                let frozen = Allocation { immutable: true, ..a };
                proof {
                    lemma_sum_bytes_update(
                        self.entries(),
                        idx as int,
                        AllocEntry::Bytes(frozen),
                    );
                    lemma_sum_bytes_update(old(self).entries(), idx as int, AllocEntry::Dead);
                }
                self.allocs.set(idx, AllocEntry::Bytes(frozen));
                Ok(())
            },
            AllocEntry::Func(f) => {
                let mut put_back = AllocEntry::Func(f);
                self.allocs.set_and_swap(idx, &mut put_back);
                proof {
                    assert(self.entries() =~= old(self).entries());
                }
                Err(EvalError::DerefFunctionPointer)
            },
            AllocEntry::Dead => {
                proof {
                    assert(self.entries() =~= old(self).entries());
                }
                Err(EvalError::DanglingPointerDeref)
            },
        }
    }

    /// The first table index holding this function definition.
    pub open spec fn first_func_index(s: Seq<AllocEntry>, def: FunctionDefinition) -> Option<int>
        decreases s.len(),
    {
        if s.len() == 0 {
            None
        } else if s[0] is Func && s[0]->Func_0 == def {
            Some(0)
        } else {
            match Self::first_func_index(s.drop_first(), def) {
                Some(i) => Some(i + 1),
                None => None,
            }
        }
    }

    /// Memoized minting of function pointers: the same definition always
    /// yields the same allocation id.
    #[verifier::loop_isolation(false)]
    pub fn create_fn_ptr(&mut self, def_id: u64, substs: u64, fn_ty: usize) -> (r: Pointer)
        requires
            old(self).inv(),
        ensures
            final(self).inv(),
            final(self).layout_spec() == old(self).layout_spec(),
            final(self).size_spec() == old(self).size_spec(),
            final(self).usage_spec() == old(self).usage_spec(),
            r.offset == 0,
            final(self).is_func(r.alloc_id),
            final(self).func_def(r.alloc_id) == (FunctionDefinition { def_id, substs, fn_ty }),
            // the old entries are untouched, so previously minted pointers
            // keep their meaning
            forall|i: int|
                0 <= i < old(self).entries().len() ==> final(self).entries()[i] == old(
                    self,
                ).entries()[i],
            // the minted id is the first table index carrying the
            // definition (fresh if there was none): the same definition
            // always answers the same id
            Memory::first_func_index(
                old(self).entries(),
                FunctionDefinition { def_id, substs, fn_ty },
            ) matches Some(fi) ==> r.alloc_id.0 as int == fi,
            Memory::first_func_index(
                old(self).entries(),
                FunctionDefinition { def_id, substs, fn_ty },
            ) is None ==> r.alloc_id.0 == old(self).entries().len(),
            // memoization: an id already carrying this definition is reused
            (exists|id: AllocId|
                old(self).is_func(id) && old(self).func_def(id) == (FunctionDefinition {
                    def_id,
                    substs,
                    fn_ty,
                })) ==> final(self).same_memory(old(self)) && old(self).is_func(r.alloc_id),
            // otherwise one entry is appended
            !(exists|id: AllocId|
                old(self).is_func(id) && old(self).func_def(id) == (FunctionDefinition {
                    def_id,
                    substs,
                    fn_ty,
                })) ==> final(self).entries() == old(self).entries().push(
                AllocEntry::Func(FunctionDefinition { def_id, substs, fn_ty }),
            ),
    {
        let def = FunctionDefinition { def_id, substs, fn_ty };
        let n = self.allocs.len();
        let mut i: usize = 0;
        while i < n
            invariant
                old(self).inv(),
                self == old(self),
                n == self.entries().len(),
                i <= n,
                forall|k: int|
                    0 <= k < i ==> !(self.entries()[k] is Func && self.entries()[k]->Func_0
                        == def),
            decreases n - i,
        {
            match &self.allocs[i] {
                AllocEntry::Func(f) => {
                    if f.def_id == def_id && f.substs == substs && f.fn_ty == fn_ty {
                        proof {
                            let id = AllocId(i as u64);
                            assert(*f == def);
                            assert(self.entries()[i as int] is Func);
                            assert(self.entries()[i as int]->Func_0 == def);
                            assert(old(self).is_func(id) && old(self).func_def(id) == def);
                            lemma_first_func_index_at(old(self).entries(), def, i as int);
                        }
                        return Pointer { alloc_id: AllocId(i as u64), offset: 0 };
                    }
                },
                _ => {},
            }
            i = i + 1;
        }
        let id = self.allocs.len();
        proof {
            assert forall|q: AllocId| !(old(self).is_func(q) && old(self).func_def(q)
                == def) by {}
            if Memory::first_func_index(old(self).entries(), def) is Some {
                lemma_first_func_index_bounds(old(self).entries(), def);
                assert(false);
            }
            lemma_first_func_index_push(self.entries(), def);
            assert(sum_bytes(old(self).entries().push(AllocEntry::Func(def))) == sum_bytes(
                old(self).entries(),
            )) by {
                assert(old(self).entries().push(AllocEntry::Func(def)).drop_last() =~= old(
                    self,
                ).entries());
            }
        }
        self.allocs.push(AllocEntry::Func(def));
        Pointer { alloc_id: AllocId(id as u64), offset: 0 }
    }

    /// Resolve a pointer to the function definition it names.
    pub fn get_fn(&self, id: AllocId) -> (r: EvalResult<FunctionDefinition>)
        requires
            self.inv(),
        ensures
            (r matches Ok(_)) <==> self.is_func(id),
            self.is_func(id) ==> r == Ok::<_, EvalError>(self.func_def(id)),
            self.is_alloc(id) ==> r == Err::<FunctionDefinition, _>(EvalError::ExecuteMemory),
            !self.is_func(id) && !self.is_alloc(id) ==> r == Err::<FunctionDefinition, _>(
                EvalError::InvalidFunctionPointer,
            ),
    {
        if id.0 >= self.allocs.len() as u64 {
            return Err(EvalError::InvalidFunctionPointer);
        }
        match &self.allocs[id.0 as usize] {
            AllocEntry::Func(f) => Ok(*f),
            AllocEntry::Bytes(_) => Err(EvalError::ExecuteMemory),
            AllocEntry::Dead => Err(EvalError::InvalidFunctionPointer),
        }
    }

    /// Look a live byte allocation up.
    pub fn get(&self, id: AllocId) -> (r: EvalResult<&Allocation>)
        requires
            self.inv(),
        ensures
            (r matches Ok(_)) <==> self.is_alloc(id),
            r matches Ok(a) ==> *a == self.allocation(id),
            self.is_func(id) ==> r == Err::<&Allocation, _>(EvalError::DerefFunctionPointer),
            !self.is_alloc(id) && !self.is_func(id) ==> r == Err::<&Allocation, _>(
                EvalError::DanglingPointerDeref,
            ),
    {
        if id.0 >= self.allocs.len() as u64 {
            return Err(EvalError::DanglingPointerDeref);
        }
        match &self.allocs[id.0 as usize] {
            AllocEntry::Bytes(a) => Ok(a),
            AllocEntry::Func(_) => Err(EvalError::DerefFunctionPointer),
            AllocEntry::Dead => Err(EvalError::DanglingPointerDeref),
        }
    }
}

/// A snapshot of the memory's book-keeping, for inspection by the host.
pub struct Stats {
    /// The number of currently allocated virtual bytes.
    pub virtual_bytes_allocated: usize,
    /// The limit as configured when the `Memory` was created.
    pub max_virtual_bytes: usize,
    /// The number of live byte allocations.
    pub allocations: usize,
    /// The id the next allocation will get.
    pub current_alloc_id: AllocId,
}

/// How many live byte allocations the table holds.
pub open spec fn count_live(s: Seq<AllocEntry>) -> nat
    decreases s.len(),
{
    if s.len() == 0 {
        0
    } else {
        count_live(s.drop_last()) + if s.last() is Bytes {
            1nat
        } else {
            0nat
        }
    }
}

impl Memory {
    /// A snapshot of the memory's book-keeping.
    #[verifier::loop_isolation(false)]
    pub fn stats(&self) -> (r: Stats)
        requires
            self.inv(),
        ensures
            r.virtual_bytes_allocated == self.usage_spec(),
            r.max_virtual_bytes == self.size_spec(),
            r.allocations == count_live(self.entries()),
            r.current_alloc_id.0 == self.entries().len(),
    {
        let n = self.allocs.len();
        let mut count: usize = 0;
        let mut i: usize = 0;
        while i < n
            invariant
                i <= n,
                count <= i,
                count == count_live(self.entries().subrange(0, i as int)),
            decreases n - i,
        {
            let live = match &self.allocs[i] {
                AllocEntry::Bytes(_) => true,
                _ => false,
            };
            proof {
                assert(self.entries().subrange(0, i + 1).drop_last() =~= self.entries().subrange(
                    0,
                    i as int,
                ));
                assert(self.entries().subrange(0, i + 1).last() == self.entries()[i as int]);
            }
            if live {
                count = count + 1;
            }
            i = i + 1;
        }
        proof {
            assert(self.entries().subrange(0, n as int) =~= self.entries());
        }
        Stats {
            virtual_bytes_allocated: self.memory_usage,
            max_virtual_bytes: self.memory_size,
            allocations: count,
            current_alloc_id: AllocId(n as u64),
        }
    }
}

/// The error a failed allocation lookup classifies to.
pub open spec fn lookup_error(m: &Memory, id: AllocId) -> EvalError {
    if m.is_func(id) {
        EvalError::DerefFunctionPointer
    } else {
        EvalError::DanglingPointerDeref
    }
}

/// Where a relocation range query for `size` bytes at `offset` begins: far
/// enough back to catch a pointer whose bytes straddle the range's start.
pub open spec fn reloc_scan_start(psize: nat, offset: int) -> int {
    offset - (psize - 1)
}

/// `b0` with `src` laid over it starting at `offset`.
pub open spec fn bytes_written(b0: Seq<u8>, offset: int, src: Seq<u8>) -> Seq<u8> {
    Seq::new(
        b0.len(),
        |i: int|
            if offset <= i < offset + src.len() {
                src[i - offset]
            } else {
                b0[i]
            },
    )
}

/// `r0` with every relocation overlapping `[offset, end)` removed.
pub open spec fn relocs_cleared(
    r0: Seq<Option<AllocId>>,
    psize: nat,
    offset: int,
    end: int,
) -> Seq<Option<AllocId>> {
    Seq::new(
        r0.len(),
        |k: int|
            if reloc_scan_start(psize, offset) <= k < end {
                Option::<AllocId>::None
            } else {
                r0[k]
            },
    )
}

/// The mask after clearing relocations for a write of `[offset, end)`: the
/// written range itself is untouched here, but the bytes of a clipped
/// relocation that fall outside the range become undefined.
pub open spec fn mask_after_clear(
    m0: Seq<bool>,
    r0: Seq<Option<AllocId>>,
    psize: nat,
    offset: int,
    end: int,
) -> Seq<bool> {
    Seq::new(
        m0.len(),
        |j: int|
            if offset <= j < end {
                m0[j]
            } else if exists|k: int|
                reloc_scan_start(psize, offset) <= k < end && 0 <= k < r0.len() && r0[k] is Some
                    && k <= j < k + psize {
                false
            } else {
                m0[j]
            },
    )
}

/// The mask after a write of `[offset, end)`: the range is defined, and the
/// clipped parts of cleared relocations are undefined.
pub open spec fn mask_after_write(
    m0: Seq<bool>,
    r0: Seq<Option<AllocId>>,
    psize: nat,
    offset: int,
    end: int,
) -> Seq<bool> {
    Seq::new(
        m0.len(),
        |j: int|
            if offset <= j < end {
                true
            } else {
                mask_after_clear(m0, r0, psize, offset, end)[j]
            },
    )
}

impl Memory {
    /// The whole range is inside a live allocation and every byte of it is
    /// defined.
    pub open spec fn range_defined(&self, ptr: Pointer, size: nat) -> bool {
        &&& self.is_alloc(ptr.alloc_id)
        &&& ptr.offset + size <= self.allocation(ptr.alloc_id).undef_mask@.len()
        &&& forall|i: int|
            ptr.offset <= i < ptr.offset + size ==> self.allocation(ptr.alloc_id).undef_mask@[i]
    }

    /// Some relocation overlaps `size` bytes at `ptr` (including one whose
    /// pointer bytes begin before the range but straddle its start).
    pub open spec fn has_reloc_overlapping(&self, ptr: Pointer, size: nat) -> bool {
        self.allocation(ptr.alloc_id).has_reloc_in(
            reloc_scan_start(self.psize(), ptr.offset as int),
            ptr.offset + size,
        )
    }

    /// The range can be read as plain bytes.
    pub open spec fn readable(&self, ptr: Pointer, size: nat) -> bool {
        &&& self.is_alloc(ptr.alloc_id)
        &&& !self.has_reloc_overlapping(ptr, size)
        &&& self.range_defined(ptr, size)
    }

    /// The range can be written: live, not sealed, and inside the buffer.
    pub open spec fn writable(&self, ptr: Pointer, size: nat) -> bool {
        &&& self.is_alloc(ptr.alloc_id)
        &&& !self.allocation(ptr.alloc_id).immutable
        &&& self.in_bounds(ptr, size)
    }

    /// All entries except `id` agree with `pre`, and budget, target and table
    /// length are unchanged.
    pub open spec fn same_except(&self, pre: &Memory, id: AllocId) -> bool {
        &&& self.entries().len() == pre.entries().len()
        &&& forall|i: int|
            0 <= i < pre.entries().len() && i != id.0 ==> self.entries()[i] == pre.entries()[i]
        &&& self.usage_spec() == pre.usage_spec()
        &&& self.size_spec() == pre.size_spec()
        &&& self.layout_spec() == pre.layout_spec()
    }

    /// What a write of `src` at `ptr` (with an optional relocation entry for
    /// the written slot) does to the memory.
    pub open spec fn write_effect(
        &self,
        pre: &Memory,
        ptr: Pointer,
        src: Seq<u8>,
        new_reloc: Option<AllocId>,
    ) -> bool {
        let a = pre.allocation(ptr.alloc_id);
        let b = self.allocation(ptr.alloc_id);
        let offset = ptr.offset as int;
        let end = offset + src.len();
        let psize = pre.psize();
        &&& self.same_except(pre, ptr.alloc_id)
        &&& self.is_alloc(ptr.alloc_id)
        &&& b.bytes@ == bytes_written(a.bytes@, offset, src)
        &&& b.undef_mask@ == mask_after_write(a.undef_mask@, a.relocations@, psize, offset, end)
        &&& b.relocations@ == (match new_reloc {
            Option::Some(id) => relocs_cleared(a.relocations@, psize, offset, end).update(
                offset,
                Option::Some(id),
            ),
            Option::None => relocs_cleared(a.relocations@, psize, offset, end),
        })
        &&& b.align == a.align
        &&& b.immutable == a.immutable
    }
}

/// A first-match answer names a matching index.
proof fn lemma_first_func_index_bounds(s: Seq<AllocEntry>, def: FunctionDefinition)
    requires
        Memory::first_func_index(s, def) is Some,
    ensures
        ({
            let fi = Memory::first_func_index(s, def)->Some_0;
            0 <= fi < s.len() && s[fi] is Func && s[fi]->Func_0 == def
        }),
    decreases s.len(),
{
    if s.len() == 0 {
    } else if s[0] is Func && s[0]->Func_0 == def {
    } else {
        lemma_first_func_index_bounds(s.drop_first(), def);
        assert(s.drop_first()[Memory::first_func_index(s.drop_first(), def)->Some_0]
            == s[Memory::first_func_index(s.drop_first(), def)->Some_0 + 1]);
    }
}

/// A first-match hit at `i`: nothing before matched, `i` does.
proof fn lemma_first_func_index_at(s: Seq<AllocEntry>, def: FunctionDefinition, i: int)
    requires
        0 <= i < s.len(),
        s[i] is Func && s[i]->Func_0 == def,
        forall|k: int| 0 <= k < i ==> !((#[trigger] s[k]) is Func && s[k]->Func_0 == def),
    ensures
        Memory::first_func_index(s, def) == Some(i),
    decreases i,
{
    if i == 0 {
    } else {
        assert(s.drop_first()[i - 1] == s[i]);
        assert forall|k: int| 0 <= k < i - 1 implies !((#[trigger] s.drop_first()[k]) is Func
            && s.drop_first()[k]->Func_0 == def) by {
            assert(s.drop_first()[k] == s[k + 1]);
        }
        lemma_first_func_index_at(s.drop_first(), def, i - 1);
    }
}

/// Appending the definition to a table without it puts it at the end.
pub proof fn lemma_first_func_index_push(s: Seq<AllocEntry>, def: FunctionDefinition)
    requires
        forall|k: int| 0 <= k < s.len() ==> !((#[trigger] s[k]) is Func && s[k]->Func_0 == def),
    ensures
        Memory::first_func_index(s.push(AllocEntry::Func(def)), def) == Some(s.len() as int),
{
    assert(s.push(AllocEntry::Func(def))[s.len() as int] == AllocEntry::Func(def));
    assert forall|k: int| 0 <= k < s.len() implies !((#[trigger] s.push(AllocEntry::Func(def))[
        k
    ]) is Func && s.push(AllocEntry::Func(def))[k]->Func_0 == def) by {
        assert(s.push(AllocEntry::Func(def))[k] == s[k]);
    }
    lemma_first_func_index_at(s.push(AllocEntry::Func(def)), def, s.len() as int);
}

/// A first-match index survives any extension that keeps the prefix.
proof fn lemma_first_func_index_extend(
    s1: Seq<AllocEntry>,
    s2: Seq<AllocEntry>,
    def: FunctionDefinition,
)
    requires
        s1.len() <= s2.len(),
        forall|k: int| 0 <= k < s1.len() ==> s2[k] == s1[k],
        Memory::first_func_index(s1, def) is Some,
    ensures
        Memory::first_func_index(s2, def) == Memory::first_func_index(s1, def),
    decreases s1.len(),
{
    assert(s1.len() > 0);
    assert(s2[0] == s1[0]);
    if s1[0] is Func && s1[0]->Func_0 == def {
    } else {
        assert forall|k: int| 0 <= k < s1.drop_first().len() implies #[trigger] s2.drop_first()[k]
            == s1.drop_first()[k] by {
            assert(s1.drop_first()[k] == s1[k + 1] && s2.drop_first()[k] == s2[k + 1]);
        }
        lemma_first_func_index_extend(s1.drop_first(), s2.drop_first(), def);
    }
}

/// Law: function pointers are memoized for good. Once a definition holds
/// the first-matching id, every later state that keeps existing entries (as
/// all operations do) answers the same id.
pub proof fn lemma_fn_ptr_memoized(m1: Memory, m2: Memory, def: FunctionDefinition, id: AllocId)
    requires
        preserves_allocs(&m1, &m2),
        Memory::first_func_index(m1.entries(), def) == Some(id.0 as int),
    ensures
        Memory::first_func_index(m2.entries(), def) == Some(id.0 as int),
{
    lemma_first_func_index_extend(m1.entries(), m2.entries(), def);
}

/// Every allocation the earlier state had, the later state keeps unchanged
/// (new ones may have been appended): how evaluation treats the heap while
/// it only reads and lowers literals into fresh storage.
pub open spec fn preserves_allocs(pre: &Memory, post: &Memory) -> bool {
    &&& post.entries().len() >= pre.entries().len()
    &&& forall|i: int| 0 <= i < pre.entries().len() ==> post.entries()[i] == pre.entries()[i]
}

/// Reads are stable across states that agree on the allocation and target.
pub proof fn lemma_read_stable(m1: Memory, m2: Memory, p: Pointer, size: nat)
    requires
        m1.layout_spec() == m2.layout_spec(),
        m1.is_alloc(p.alloc_id),
        m2.is_alloc(p.alloc_id),
        m2.allocation(p.alloc_id) == m1.allocation(p.alloc_id),
    ensures
        m1.spec_read_uint(p, size) == m2.spec_read_uint(p, size),
        m1.spec_read_int(p, size) == m2.spec_read_int(p, size),
        m1.spec_read_bool(p) == m2.spec_read_bool(p),
        m1.spec_read_ptr(p) == m2.spec_read_ptr(p),
{
    assert(m1.readable(p, size) == m2.readable(p, size));
    assert(m1.range_defined(p, size) == m2.range_defined(p, size));
    assert(m1.uint_at(p, size) == m2.uint_at(p, size));
    assert(m1.readable(p, 1) == m2.readable(p, 1));
    assert(m1.range_defined(p, m1.psize()) == m2.range_defined(p, m2.psize()));
    assert(m1.uint_at(p, m1.psize()) == m2.uint_at(p, m2.psize()));
}

/// After a write of the encoded value, the unsigned read answers it.
pub proof fn lemma_uint_write_read_back(
    pre: Memory,
    post: Memory,
    dest: Pointer,
    payload: u64,
    k: nat,
)
    requires
        pre.inv(),
        post.inv(),
        crate::endian::valid_int_size(k),
        k == 8 || (payload as nat) < crate::endian::pow256(k),
        post.write_effect(
            &pre,
            dest,
            crate::endian::target_bytes_of(pre.layout_spec().endian, payload, k),
            Option::<AllocId>::None,
        ),
        pre.writable(dest, k),
        dest.offset as int % pre.int_align_spec(k) as int == 0,
    ensures
        post.spec_read_uint(dest, k) == Ok::<u64, EvalError>(payload),
{
    crate::endian::lemma_pow256_values();
    let enc = crate::endian::target_bytes_of(pre.layout_spec().endian, payload, k);
    assert(post.allocation(dest.alloc_id).bytes@.subrange(dest.offset as int, dest.offset + k)
        =~= enc);
    crate::endian::lemma_target_round_trip(pre.layout_spec().endian, payload, k);
    assert(post.range_defined(dest, k));
    assert(!post.has_reloc_overlapping(dest, k));
}

/// After a write of the signed value's encoding, the signed read answers it.
pub proof fn lemma_int_write_read_back(
    pre: Memory,
    post: Memory,
    dest: Pointer,
    val: i64,
    k: nat,
)
    requires
        pre.inv(),
        post.inv(),
        crate::endian::valid_int_size(k),
        k == 8 || crate::endian::in_signed_range(val as int, k),
        post.write_effect(
            &pre,
            dest,
            crate::endian::target_bytes_of(
                pre.layout_spec().endian,
                crate::endian::to_unsigned(val as int, k) as u64,
                k,
            ),
            Option::<AllocId>::None,
        ),
        pre.writable(dest, k),
        dest.offset as int % pre.int_align_spec(k) as int == 0,
    ensures
        post.spec_read_int(dest, k) == Ok::<i64, EvalError>(val),
{
    crate::endian::lemma_pow256_values();
    let u = crate::endian::to_unsigned(val as int, k) as u64;
    lemma_uint_write_read_back(pre, post, dest, u, k);
}

/// After a boolean write, the boolean read answers it.
pub proof fn lemma_bool_write_read_back(pre: Memory, post: Memory, fp: Pointer, b: bool)
    requires
        pre.inv(),
        post.inv(),
        post.write_effect(
            &pre,
            fp,
            seq![if b { 1u8 } else { 0u8 }],
            Option::<AllocId>::None,
        ),
        pre.writable(fp, 1),
        fp.offset as int % pre.layout_spec().i1_align as int == 0,
    ensures
        post.spec_read_bool(fp) == Ok::<bool, EvalError>(b),
{
    assert(post.allocation(fp.alloc_id).bytes@[fp.offset as int] == if b {
        1u8
    } else {
        0u8
    });
    assert(post.range_defined(fp, 1));
    assert(!post.has_reloc_overlapping(fp, 1));
}

/// A readable unsigned slot keeps its value across a later write that
/// begins at or past its end.
pub proof fn lemma_uint_read_stable_after_write(
    m1: Memory,
    m2: Memory,
    dest: Pointer,
    k: nat,
    wp: Pointer,
    src: Seq<u8>,
    reloc: Option<AllocId>,
    v: u64,
)
    requires
        m1.inv(),
        m2.inv(),
        m2.write_effect(&m1, wp, src, reloc),
        wp.alloc_id == dest.alloc_id ==> wp.offset >= dest.offset + k,
        wp.alloc_id == dest.alloc_id && reloc is Some ==> (wp.offset as int) < m1.allocation(
            wp.alloc_id,
        ).relocations@.len(),
        m1.spec_read_uint(dest, k) == Ok::<u64, EvalError>(v),
    ensures
        m2.spec_read_uint(dest, k) == Ok::<u64, EvalError>(v),
{
    if wp.alloc_id != dest.alloc_id {
        lemma_read_stable(m1, m2, dest, k);
    } else {
        let a = m1.allocation(dest.alloc_id);
        let b = m2.allocation(dest.alloc_id);
        let psize = m1.psize();
        assert(m1.readable(dest, k));
        assert forall|j: int| dest.offset <= j < dest.offset + k implies b.bytes@[j]
            == a.bytes@[j] && b.undef_mask@[j] == a.undef_mask@[j] by {
            assert(b.undef_mask@[j] == mask_after_write(
                a.undef_mask@,
                a.relocations@,
                psize,
                wp.offset as int,
                wp.offset + src.len(),
            )[j]);
            if exists|k0: int|
                reloc_scan_start(psize, wp.offset as int) <= k0 < wp.offset + src.len() && 0 <= k0
                    < a.relocations@.len() && a.relocations@[k0] is Some && k0 <= j < k0 + psize {
                let k0 = choose|k0: int|
                    reloc_scan_start(psize, wp.offset as int) <= k0 < wp.offset + src.len() && 0
                        <= k0 < a.relocations@.len() && a.relocations@[k0] is Some && k0 <= j < k0
                        + psize;
                assert(reloc_scan_start(psize, dest.offset as int) <= k0 < dest.offset + k);
                assert(!m1.has_reloc_overlapping(dest, k));
                assert(false);
            }
        }
        assert forall|j: int|
            reloc_scan_start(psize, dest.offset as int) <= j < dest.offset + k && 0 <= j
                < b.relocations@.len() implies !(b.relocations@[j] is Some) by {
            assert(!m1.has_reloc_overlapping(dest, k));
            assert(j < wp.offset);
            let cleared = relocs_cleared(a.relocations@, psize, wp.offset as int, wp.offset
                + src.len());
            assert(cleared.len() == a.relocations@.len());
            let rj = cleared[j];
            if reloc_scan_start(psize, wp.offset as int) <= j {
                assert(rj is None);
            } else {
                assert(rj == a.relocations@[j]);
                assert(!(a.relocations@[j] is Some));
            }
            match reloc {
                Option::Some(id) => {
                    assert(b.relocations@ == cleared.update(
                        wp.offset as int,
                        Option::Some(id),
                    ));
                    assert(0 <= j < cleared.len());
                    assert(j != wp.offset as int);
                    assert(cleared.update(wp.offset as int, Option::Some(id))[j] == cleared[j]);
                    assert(b.relocations@[j] == rj);
                },
                Option::None => {
                    assert(b.relocations@ == cleared);
                    assert(b.relocations@[j] == rj);
                },
            }
        }
        assert(m2.range_defined(dest, k));
        assert(!m2.has_reloc_overlapping(dest, k));
        assert(m2.uint_at(dest, k) == m1.uint_at(dest, k)) by {
            assert(b.bytes@.subrange(dest.offset as int, dest.offset + k) =~= a.bytes@.subrange(
                dest.offset as int,
                dest.offset + k,
            ));
        }
    }
}

/// A readable pointer slot keeps its value across a later write that
/// begins at or past its end and does not straddle a relocation.
pub proof fn lemma_ptr_read_stable_after_write(
    m1: Memory,
    m2: Memory,
    dest: Pointer,
    wp: Pointer,
    src: Seq<u8>,
    reloc: Option<AllocId>,
    v: Pointer,
)
    requires
        m1.inv(),
        m2.inv(),
        m2.write_effect(&m1, wp, src, reloc),
        wp.alloc_id == dest.alloc_id ==> wp.offset >= dest.offset + m1.psize(),
        wp.alloc_id == dest.alloc_id ==> !m1.allocation(wp.alloc_id).has_reloc_in(
            reloc_scan_start(m1.psize(), wp.offset as int),
            wp.offset + src.len(),
        ),
        wp.alloc_id == dest.alloc_id && reloc is Some ==> (wp.offset as int) < m1.allocation(
            wp.alloc_id,
        ).relocations@.len(),
        m1.spec_read_ptr(dest) == Ok::<Pointer, EvalError>(v),
    ensures
        m2.spec_read_ptr(dest) == Ok::<Pointer, EvalError>(v),
{
    let psize = m1.psize();
    if wp.alloc_id != dest.alloc_id {
        lemma_read_stable(m1, m2, dest, psize);
    } else {
        let a = m1.allocation(dest.alloc_id);
        let b = m2.allocation(dest.alloc_id);
        assert(m1.range_defined(dest, psize));
        assert(a.wf(psize));
        assert forall|j: int| dest.offset <= j < dest.offset + psize implies b.bytes@[j]
            == a.bytes@[j] && b.undef_mask@[j] == a.undef_mask@[j] by {
            assert(b.undef_mask@[j] == mask_after_write(
                a.undef_mask@,
                a.relocations@,
                psize,
                wp.offset as int,
                wp.offset + src.len(),
            )[j]);
            if exists|k0: int|
                reloc_scan_start(psize, wp.offset as int) <= k0 < wp.offset + src.len() && 0 <= k0
                    < a.relocations@.len() && a.relocations@[k0] is Some && k0 <= j < k0 + psize {
                let k0 = choose|k0: int|
                    reloc_scan_start(psize, wp.offset as int) <= k0 < wp.offset + src.len() && 0
                        <= k0 < a.relocations@.len() && a.relocations@[k0] is Some && k0 <= j < k0
                        + psize;
                assert(a.has_reloc_in(
                    reloc_scan_start(psize, wp.offset as int),
                    wp.offset + src.len(),
                ));
                assert(false);
            }
        }
        let cleared = relocs_cleared(a.relocations@, psize, wp.offset as int, wp.offset
            + src.len());
        assert(0 <= dest.offset < a.relocations@.len());
        assert((dest.offset as int) < reloc_scan_start(psize, wp.offset as int));
        assert(cleared[dest.offset as int] == a.relocations@[dest.offset as int]);
        match reloc {
            Option::Some(id) => {
                assert(b.relocations@ == cleared.update(wp.offset as int, Option::Some(id)));
                assert((dest.offset as int) != (wp.offset as int));
                assert(b.relocations@[dest.offset as int] == cleared[dest.offset as int]);
            },
            Option::None => {
                assert(b.relocations@[dest.offset as int] == cleared[dest.offset as int]);
            },
        }
        assert(b.bytes@.subrange(dest.offset as int, dest.offset + psize) =~= a.bytes@.subrange(
            dest.offset as int,
            dest.offset + psize,
        ));
        assert(m2.range_defined(dest, psize));
    }
}

/// Law: a pointer stored at `dest` reads back exactly, offset and
/// provenance both. `write_ptr`'s postcondition establishes the write
/// effect; this law says a subsequent `read_ptr` returns the pointer that
/// was written.
pub proof fn lemma_pointer_round_trip(pre: Memory, post: Memory, dest: Pointer, p: Pointer)
    requires
        pre.inv(),
        post.inv(),
        pre.writable(dest, pre.psize()),
        (p.offset as nat) < crate::endian::pow256(pre.psize()),
        post.write_effect(
            &pre,
            dest,
            crate::endian::target_bytes_of(
                pre.layout_spec().endian,
                p.offset as u64,
                pre.psize(),
            ),
            Option::Some(p.alloc_id),
        ),
    ensures
        post.spec_read_ptr(dest) == Ok::<Pointer, EvalError>(p),
{
    let psize = pre.psize();
    let endian = pre.layout_spec().endian;
    let enc = crate::endian::target_bytes_of(endian, p.offset as u64, psize);
    let a = pre.allocation(dest.alloc_id);
    let b = post.allocation(dest.alloc_id);
    assert(b.bytes@.subrange(dest.offset as int, dest.offset + psize) =~= enc);
    crate::endian::lemma_target_round_trip(endian, p.offset as u64, psize);
    assert(post.range_defined(dest, psize));
    assert(b.relocations@[dest.offset as int] == Option::Some(p.alloc_id));
}

/// Law: a slot that was last written as a plain integer has no relocation
/// entry, so reading it as a pointer fails with `ReadBytesAsPointer`.
pub proof fn lemma_int_read_as_pointer_fails(pre: Memory, post: Memory, dest: Pointer, n: u64)
    requires
        pre.inv(),
        post.inv(),
        pre.writable(dest, pre.psize()),
        post.write_effect(
            &pre,
            dest,
            crate::endian::target_bytes_of(pre.layout_spec().endian, n, pre.psize()),
            Option::<AllocId>::None,
        ),
    ensures
        post.spec_read_ptr(dest) == Err::<Pointer, EvalError>(EvalError::ReadBytesAsPointer),
{
    let psize = pre.psize();
    assert(post.range_defined(dest, psize));
    assert(post.allocation(dest.alloc_id).relocations@[dest.offset as int] is None);
}

/// Law: writing `src` at `ptr` leaves every byte of the written range
/// defined, and the bytes of a relocation the write clipped — outside the
/// written range — become undefined.
pub proof fn lemma_init_mask_discipline(
    pre: Memory,
    post: Memory,
    ptr: Pointer,
    src: Seq<u8>,
    new_reloc: Option<AllocId>,
)
    requires
        pre.inv(),
        post.inv(),
        pre.writable(ptr, src.len()),
        post.write_effect(&pre, ptr, src, new_reloc),
    ensures
        forall|j: int|
            ptr.offset <= j < ptr.offset + src.len() ==> post.allocation(
                ptr.alloc_id,
            ).undef_mask@[j],
        forall|j: int, k: int|
            {
                &&& reloc_scan_start(pre.psize(), ptr.offset as int) <= k < ptr.offset + src.len()
                &&& 0 <= k < pre.allocation(ptr.alloc_id).relocations@.len()
                &&& pre.allocation(ptr.alloc_id).relocations@[k] is Some
                &&& k <= j < k + pre.psize()
                &&& !(ptr.offset <= j < ptr.offset + src.len())
                &&& 0 <= j < pre.allocation(ptr.alloc_id).undef_mask@.len()
            } ==> !post.allocation(ptr.alloc_id).undef_mask@[j],
{
    let psize = pre.psize();
    let offset = ptr.offset as int;
    let end = offset + src.len();
    let a = pre.allocation(ptr.alloc_id);
    assert forall|j: int, k: int|
        {
            &&& reloc_scan_start(psize, offset) <= k < end
            &&& 0 <= k < a.relocations@.len()
            &&& a.relocations@[k] is Some
            &&& k <= j < k + psize
            &&& !(offset <= j < end)
            &&& 0 <= j < a.undef_mask@.len()
        } implies !post.allocation(ptr.alloc_id).undef_mask@[j] by {
        assert(exists|k2: int|
            reloc_scan_start(psize, offset) <= k2 < end && 0 <= k2 < a.relocations@.len()
                && a.relocations@[k2] is Some && k2 <= j < k2 + psize);
    }
}

/// Law: an allocation request for `(size, align)` answers with a pointer
/// whose offset is the alignment itself, so an alignment check for `k`
/// succeeds exactly when `k` divides the declared alignment.
pub proof fn lemma_alignment_symmetry(p: Pointer, align: usize, k: usize)
    requires
        p.offset == align,
        k >= 1,
    ensures
        (p.offset as int % k as int == 0) <==> (align as int % k as int == 0),
{
}

/// Law: a copy reads its source before touching the destination, so even an
/// overlapping copy within one allocation lands the source's original bytes
/// and init bits in the destination range.
pub proof fn lemma_copy_overlap_safe(
    pre: Memory,
    post: Memory,
    src: Pointer,
    dest: Pointer,
    size: nat,
)
    requires
        pre.inv(),
        post.inv(),
        pre.copy_ok(src, dest, size),
        post.copy_effect(&pre, src, dest, size),
    ensures
        forall|j: int|
            0 <= j < size ==> #[trigger] post.allocation(dest.alloc_id).bytes@[dest.offset + j]
                == pre.allocation(src.alloc_id).bytes@[src.offset + j],
        forall|j: int|
            0 <= j < size ==> #[trigger] post.allocation(dest.alloc_id).undef_mask@[dest.offset
                + j] == pre.allocation(src.alloc_id).undef_mask@[src.offset + j],
{
    let sa = pre.allocation(src.alloc_id);
    let da = pre.allocation(dest.alloc_id);
    let b = post.allocation(dest.alloc_id);
    assert forall|j: int| 0 <= j < size implies #[trigger] b.bytes@[dest.offset + j]
        == sa.bytes@[src.offset + j] by {
        assert(b.bytes@[dest.offset + j] == bytes_written(
            da.bytes@,
            dest.offset as int,
            sa.bytes@.subrange(src.offset as int, src.offset + size),
        )[dest.offset + j]);
    }
}

/// Clear every relocation overlapping `[offset, offset + size)` and mark
/// the bytes of a clipped relocation that fall outside that range undefined.
#[verifier::loop_isolation(false)]
fn clear_relocations(a: &mut Allocation, psize: usize, offset: usize, size: usize)
    requires
        old(a).wf(psize as nat),
        psize >= 1,
        offset + size <= old(a).bytes@.len(),
    ensures
        final(a).wf(psize as nat),
        final(a).bytes@ == old(a).bytes@,
        final(a).undef_mask@ == mask_after_clear(
            old(a).undef_mask@,
            old(a).relocations@,
            psize as nat,
            offset as int,
            offset + size,
        ),
        final(a).relocations@ == relocs_cleared(
            old(a).relocations@,
            psize as nat,
            offset as int,
            offset + size,
        ),
        final(a).align == old(a).align,
        final(a).immutable == old(a).immutable,
{
    let ghost m0 = a.undef_mask@;
    let ghost r0 = a.relocations@;
    let ghost b0 = a.bytes@;
    let blen = a.bytes.len();
    let end = offset + size;
    let rs = if offset >= psize - 1 {
        offset - (psize - 1)
    } else {
        0
    };
    proof {
        assert(a.relocations@ =~= Seq::new(r0.len(), |x: int| if rs <= x < rs { Option::<
            AllocId,
        >::None } else { r0[x] }));
        assert(a.undef_mask@ =~= Seq::new(m0.len(), |j: int| if offset <= j < end { m0[j] } else
            if exists|k: int|
                rs <= k < rs && 0 <= k < r0.len() && r0[k] is Some && k <= j < k + psize {
                false
            } else { m0[j] }));
    }
    let mut k = rs;
    while k < end
        invariant
            a.wf(psize as nat),
            rs <= k,
            k <= end || k == rs,
            a.bytes@ == b0,
            a.align == old(a).align,
            a.immutable == old(a).immutable,
            a.relocations@ == Seq::new(
                r0.len(),
                |x: int|
                    if rs <= x < k && x < end {
                        Option::<AllocId>::None
                    } else {
                        r0[x]
                    },
            ),
            a.undef_mask@ == Seq::new(
                m0.len(),
                |j: int|
                    if offset <= j < end {
                        m0[j]
                    } else if exists|x: int|
                        rs <= x < k && x < end && 0 <= x < r0.len() && r0[x] is Some && x <= j < x
                            + psize {
                        false
                    } else {
                        m0[j]
                    },
            ),
        decreases end - k,
    {
        let ghost rprev = a.relocations@;
        let ghost mprev = a.undef_mask@;
        if k < a.relocations.len() {
            let is_some = a.relocations[k].is_some();
            if is_some {
                a.relocations.set(k, Option::None);
                if k < offset {
                    a.undef_mask.set_range_inbounds(k, offset, false);
                }
                if k + psize > end {
                    a.undef_mask.set_range_inbounds(end, k + psize, false);
                }
                proof {
                    assert(r0[k as int] is Some);
                    assert forall|j: int| 0 <= j < m0.len() implies a.undef_mask@[j] == Seq::new(
                        m0.len(),
                        |j: int|
                            if offset <= j < end {
                                m0[j]
                            } else if exists|x: int|
                                rs <= x < k + 1 && x < end && 0 <= x < r0.len() && r0[x] is Some
                                    && x <= j < x + psize {
                                false
                            } else {
                                m0[j]
                            },
                    )[j] by {
                        if offset <= j < end {
                        } else if k <= j < k + psize && (j < offset || j >= end) {
                            let kk = k as int;
                            assert(rs <= kk < kk + 1 && kk < end && 0 <= kk < r0.len()
                                && r0[kk] is Some && kk <= j < kk + psize);
                        } else {
                            if exists|x: int|
                                rs <= x < k && x < end && 0 <= x < r0.len() && r0[x] is Some && x
                                    <= j < x + psize {
                            } else {
                                assert(forall|x: int|
                                    !(rs <= x < k + 1 && x < end && 0 <= x < r0.len()
                                        && r0[x] is Some && x <= j < x + psize));
                            }
                        }
                    }
                    assert(a.undef_mask@ =~= Seq::new(
                        m0.len(),
                        |j: int|
                            if offset <= j < end {
                                m0[j]
                            } else if exists|x: int|
                                rs <= x < k + 1 && x < end && 0 <= x < r0.len() && r0[x] is Some
                                    && x <= j < x + psize {
                                false
                            } else {
                                m0[j]
                            },
                    ));
                    assert(a.relocations@ =~= Seq::new(
                        r0.len(),
                        |x: int|
                            if rs <= x < k + 1 && x < end {
                                Option::<AllocId>::None
                            } else {
                                r0[x]
                            },
                    ));
                }
            } else {
                proof {
                    assert(a.relocations@ =~= Seq::new(
                        r0.len(),
                        |x: int|
                            if rs <= x < k + 1 && x < end {
                                Option::<AllocId>::None
                            } else {
                                r0[x]
                            },
                    ));
                    assert forall|j: int| 0 <= j < m0.len() implies a.undef_mask@[j] == Seq::new(
                        m0.len(),
                        |j: int|
                            if offset <= j < end {
                                m0[j]
                            } else if exists|x: int|
                                rs <= x < k + 1 && x < end && 0 <= x < r0.len() && r0[x] is Some
                                    && x <= j < x + psize {
                                false
                            } else {
                                m0[j]
                            },
                    )[j] by {
                        if exists|x: int|
                            rs <= x < k + 1 && x < end && 0 <= x < r0.len() && r0[x] is Some && x
                                <= j < x + psize {
                            let x = choose|x: int|
                                rs <= x < k + 1 && x < end && 0 <= x < r0.len() && r0[x] is Some
                                    && x <= j < x + psize;
                            assert(x != k);
                        }
                    }
                    assert(a.undef_mask@ =~= Seq::new(
                        m0.len(),
                        |j: int|
                            if offset <= j < end {
                                m0[j]
                            } else if exists|x: int|
                                rs <= x < k + 1 && x < end && 0 <= x < r0.len() && r0[x] is Some
                                    && x <= j < x + psize {
                                false
                            } else {
                                m0[j]
                            },
                    ));
                }
            }
        } else {
            proof {
                assert(a.relocations@ =~= Seq::new(
                    r0.len(),
                    |x: int|
                        if rs <= x < k + 1 && x < end {
                            Option::<AllocId>::None
                        } else {
                            r0[x]
                        },
                ));
                assert forall|j: int| 0 <= j < m0.len() implies a.undef_mask@[j] == Seq::new(
                    m0.len(),
                    |j: int|
                        if offset <= j < end {
                            m0[j]
                        } else if exists|x: int|
                            rs <= x < k + 1 && x < end && 0 <= x < r0.len() && r0[x] is Some && x
                                <= j < x + psize {
                            false
                        } else {
                            m0[j]
                        },
                )[j] by {
                    if exists|x: int|
                        rs <= x < k + 1 && x < end && 0 <= x < r0.len() && r0[x] is Some && x <= j
                            < x + psize {
                        let x = choose|x: int|
                            rs <= x < k + 1 && x < end && 0 <= x < r0.len() && r0[x] is Some && x
                                <= j < x + psize;
                        assert(x != k);
                    }
                }
                assert(a.undef_mask@ =~= Seq::new(
                    m0.len(),
                    |j: int|
                        if offset <= j < end {
                            m0[j]
                        } else if exists|x: int|
                            rs <= x < k + 1 && x < end && 0 <= x < r0.len() && r0[x] is Some && x
                                <= j < x + psize {
                            false
                        } else {
                            m0[j]
                        },
                ));
            }
        }
        k = k + 1;
    }
    proof {
        assert(a.relocations@ =~= relocs_cleared(r0, psize as nat, offset as int, end as int));
        assert(a.undef_mask@ =~= mask_after_clear(
            m0,
            r0,
            psize as nat,
            offset as int,
            end as int,
        ));
    }
}

/// Clear every relocation overlapping the write range, mark the clipped
/// bytes of those relocations undefined, define the written range, lay the
/// new bytes down, and (for a pointer write) record the new relocation.
#[verifier::loop_isolation(false)]
fn apply_write(
    a: &mut Allocation,
    psize: usize,
    offset: usize,
    src: &Vec<u8>,
    new_reloc: Option<AllocId>,
)
    requires
        old(a).wf(psize as nat),
        psize >= 1,
        offset + src@.len() <= old(a).bytes@.len(),
        new_reloc is Some ==> src@.len() == psize,
    ensures
        final(a).wf(psize as nat),
        final(a).bytes@ == bytes_written(old(a).bytes@, offset as int, src@),
        final(a).undef_mask@ == mask_after_write(
            old(a).undef_mask@,
            old(a).relocations@,
            psize as nat,
            offset as int,
            offset + src@.len(),
        ),
        final(a).relocations@ == (match new_reloc {
            Option::Some(id) => relocs_cleared(
                old(a).relocations@,
                psize as nat,
                offset as int,
                offset + src@.len(),
            ).update(offset as int, Option::Some(id)),
            Option::None => relocs_cleared(
                old(a).relocations@,
                psize as nat,
                offset as int,
                offset + src@.len(),
            ),
        }),
        final(a).align == old(a).align,
        final(a).immutable == old(a).immutable,
{
    let ghost m0 = a.undef_mask@;
    let ghost r0 = a.relocations@;
    let ghost b0 = a.bytes@;
    let size = src.len();
    let blen = a.bytes.len();
    let end = offset + size;
    clear_relocations(a, psize, offset, size);
    a.undef_mask.set_range_inbounds(offset, end, true);
    proof {
        assert(a.undef_mask@ =~= mask_after_write(m0, r0, psize as nat, offset as int, end as int));
    }
    let mut i: usize = 0;
    while i < size
        invariant
            i <= size,
            a.bytes@.len() == b0.len(),
            a.bytes@ == Seq::new(
                b0.len(),
                |x: int|
                    if offset <= x < offset + i {
                        src@[x - offset]
                    } else {
                        b0[x]
                    },
            ),
            a.relocations@ == relocs_cleared(r0, psize as nat, offset as int, end as int),
            a.undef_mask@ == mask_after_write(m0, r0, psize as nat, offset as int, end as int),
            a.align == old(a).align,
            a.immutable == old(a).immutable,
            a.undef_mask.wf(),
        decreases size - i,
    {
        a.bytes.set(offset + i, src[i]);
        proof {
            assert(a.bytes@ =~= Seq::new(
                b0.len(),
                |x: int|
                    if offset <= x < offset + i + 1 {
                        src@[x - offset]
                    } else {
                        b0[x]
                    },
            ));
        }
        i = i + 1;
    }
    proof {
        assert(a.bytes@ =~= bytes_written(b0, offset as int, src@));
    }
    match new_reloc {
        Option::Some(id) => {
            a.relocations.set(offset, Option::Some(id));
        },
        Option::None => {},
    }
}

/// Overwrite a range with captured bytes, init bits and relocation entries.
/// Used by `copy` after the destination range has been cleared; the captured
/// relocations may not reach past the spliced range.
#[verifier::loop_isolation(false)]
fn splice_range(
    a: &mut Allocation,
    psize: usize,
    offset: usize,
    sbytes: &Vec<u8>,
    smask: &Vec<bool>,
    srelocs: &Vec<Option<AllocId>>,
)
    requires
        old(a).wf(psize as nat),
        psize >= 1,
        smask@.len() == sbytes@.len(),
        srelocs@.len() == sbytes@.len(),
        offset + sbytes@.len() <= old(a).bytes@.len(),
        forall|i: int|
            0 <= i < srelocs@.len() && srelocs@[i] is Some ==> i + psize <= srelocs@.len(),
    ensures
        final(a).wf(psize as nat),
        final(a).bytes@ == bytes_written(old(a).bytes@, offset as int, sbytes@),
        final(a).undef_mask@ == Seq::new(
            old(a).undef_mask@.len(),
            |j: int|
                if offset <= j < offset + sbytes@.len() {
                    smask@[j - offset]
                } else {
                    old(a).undef_mask@[j]
                },
        ),
        final(a).relocations@ == Seq::new(
            old(a).relocations@.len(),
            |k: int|
                if offset <= k < offset + sbytes@.len() {
                    srelocs@[k - offset]
                } else {
                    old(a).relocations@[k]
                },
        ),
        final(a).align == old(a).align,
        final(a).immutable == old(a).immutable,
{
    let size = sbytes.len();
    let blen = a.bytes.len();
    let mut i: usize = 0;
    while i < size
        invariant
            i <= size,
            a.undef_mask.wf(),
            a.bytes@.len() == old(a).bytes@.len(),
            a.undef_mask@.len() == old(a).undef_mask@.len(),
            a.relocations@.len() == old(a).relocations@.len(),
            a.bytes@ == Seq::new(
                old(a).bytes@.len(),
                |x: int|
                    if offset <= x < offset + i {
                        sbytes@[x - offset]
                    } else {
                        old(a).bytes@[x]
                    },
            ),
            a.undef_mask@ == Seq::new(
                old(a).undef_mask@.len(),
                |j: int|
                    if offset <= j < offset + i {
                        smask@[j - offset]
                    } else {
                        old(a).undef_mask@[j]
                    },
            ),
            a.relocations@ == Seq::new(
                old(a).relocations@.len(),
                |k: int|
                    if offset <= k < offset + i {
                        srelocs@[k - offset]
                    } else {
                        old(a).relocations@[k]
                    },
            ),
            a.align == old(a).align,
            a.immutable == old(a).immutable,
        decreases size - i,
    {
        a.bytes.set(offset + i, sbytes[i]);
        a.undef_mask.set(offset + i, smask[i]);
        a.relocations.set(offset + i, srelocs[i]);
        proof {
            assert(a.bytes@ =~= Seq::new(
                old(a).bytes@.len(),
                |x: int|
                    if offset <= x < offset + i + 1 {
                        sbytes@[x - offset]
                    } else {
                        old(a).bytes@[x]
                    },
            ));
            assert(a.undef_mask@ =~= Seq::new(
                old(a).undef_mask@.len(),
                |j: int|
                    if offset <= j < offset + i + 1 {
                        smask@[j - offset]
                    } else {
                        old(a).undef_mask@[j]
                    },
            ));
            assert(a.relocations@ =~= Seq::new(
                old(a).relocations@.len(),
                |k: int|
                    if offset <= k < offset + i + 1 {
                        srelocs@[k - offset]
                    } else {
                        old(a).relocations@[k]
                    },
            ));
        }
        i = i + 1;
    }
    proof {
        assert(a.bytes@ =~= bytes_written(old(a).bytes@, offset as int, sbytes@));
        assert forall|k: int|
            0 <= k < a.relocations@.len() && a.relocations@[k] is Some implies k + psize
            <= a.bytes@.len() by {
            if offset <= k < offset + size {
                assert(srelocs@[k - offset] is Some);
            }
        }
    }
}

/// A copy of `size` bytes of `v` starting at `offset`.
#[verifier::loop_isolation(false)]
fn copy_range(v: &Vec<u8>, offset: usize, size: usize) -> (r: Vec<u8>)
    requires
        offset + size <= v@.len(),
    ensures
        r@ == v@.subrange(offset as int, offset + size),
{
    let vlen = v.len();
    let mut r: Vec<u8> = Vec::new();
    let mut i: usize = 0;
    while i < size
        invariant
            i <= size,
            r@ =~= v@.subrange(offset as int, offset + i),
        decreases size - i,
    {
        r.push(v[offset + i]);
        proof {
            assert(r@ =~= v@.subrange(offset as int, offset + i + 1));
        }
        i = i + 1;
    }
    r
}

/// Scan for a relocation overlapping `size` bytes at `offset` (the scan
/// starts `psize - 1` bytes early to catch a pointer straddling the start).
#[verifier::loop_isolation(false)]
fn scan_relocs(a: &Allocation, psize: usize, offset: usize, size: usize) -> (r: bool)
    requires
        a.wf(psize as nat),
        psize >= 1,
    ensures
        r == a.has_reloc_in(reloc_scan_start(psize as nat, offset as int), offset + size),
{
    let rs = if offset >= psize - 1 {
        offset - (psize - 1)
    } else {
        0
    };
    let rlen = a.relocations.len();
    let end = if size >= rlen || offset > rlen - size {
        rlen
    } else {
        offset + size
    };
    let mut k = rs;
    while k < end
        invariant
            rs <= k,
            k <= end || k == rs,
            end <= rlen,
            forall|x: int| rs <= x < k ==> !(a.relocations@[x] is Some),
        decreases end - k,
    {
        if a.relocations[k].is_some() {
            return true;
        }
        k = k + 1;
    }
    false
}

impl Memory {
    /// What a pointer read at `ptr` returns, as a function of the state.
    pub open spec fn spec_read_ptr(&self, ptr: Pointer) -> EvalResult<Pointer> {
        let psize = self.psize();
        let a = self.allocation(ptr.alloc_id);
        let value = crate::endian::target_uint_of(
            self.layout_spec().endian,
            a.bytes@.subrange(ptr.offset as int, ptr.offset + psize),
        );
        if !self.is_alloc(ptr.alloc_id) {
            Err(lookup_error(self, ptr.alloc_id))
        } else if !self.range_defined(ptr, psize) {
            Err(EvalError::ReadUndefBytes)
        } else if a.relocations@[ptr.offset as int] is Some {
            if value <= usize::MAX as nat {
                Ok(
                    Pointer {
                        alloc_id: a.relocations@[ptr.offset as int]->Some_0,
                        offset: value as usize,
                    },
                )
            } else {
                Err(EvalError::Unimplemented(Unsupported::ValueDoesNotFit))
            }
        } else {
            Err(EvalError::ReadBytesAsPointer)
        }
    }

    /// Write `src` at `ptr`, optionally recording a relocation for the slot.
    fn write_with(&mut self, ptr: Pointer, src: &Vec<u8>, new_reloc: Option<AllocId>) -> (r:
        EvalResult<()>)
        requires
            old(self).inv(),
            new_reloc is Some ==> src@.len() == old(self).psize(),
        ensures
            final(self).inv(),
            (r matches Ok(_)) <==> old(self).writable(ptr, src@.len()),
            r matches Ok(_) ==> final(self).write_effect(old(self), ptr, src@, new_reloc),
            r matches Err(_) ==> final(self).same_memory(old(self)),
            !old(self).is_alloc(ptr.alloc_id) ==> r == Err::<(), _>(
                lookup_error(old(self), ptr.alloc_id),
            ),
            old(self).is_alloc(ptr.alloc_id) && old(self).allocation(ptr.alloc_id).immutable ==> r
                == Err::<(), _>(EvalError::Unimplemented(Unsupported::FrozenMemory)),
            old(self).is_alloc(ptr.alloc_id) && !old(self).allocation(ptr.alloc_id).immutable
                && !old(self).in_bounds(ptr, src@.len()) ==> r == Err::<(), _>(
                EvalError::PointerOutOfBounds {
                    ptr,
                    size: src@.len() as usize,
                    allocation_size: old(self).allocation(ptr.alloc_id).bytes@.len() as usize,
                },
            ),
    {
        let idx = ptr.alloc_id.0;
        if idx >= self.allocs.len() as u64 {
            return Err(EvalError::DanglingPointerDeref);
        }
        let idx = idx as usize;
        let mut entry = AllocEntry::Dead;
        self.allocs.set_and_swap(idx, &mut entry);
        match entry {
            AllocEntry::Bytes(mut a) => {
                if a.immutable {
                    let mut put_back = AllocEntry::Bytes(a);
                    self.allocs.set_and_swap(idx, &mut put_back);
                    proof {
                        assert(self.entries() =~= old(self).entries());
                    }
                    return Err(EvalError::Unimplemented(Unsupported::FrozenMemory));
                }
                let len = a.bytes.len();
                if src.len() > len || ptr.offset > len - src.len() {
                    let mut put_back = AllocEntry::Bytes(a);
                    self.allocs.set_and_swap(idx, &mut put_back);
                    proof {
                        assert(self.entries() =~= old(self).entries());
                    }
                    return Err(
                        EvalError::PointerOutOfBounds { ptr, size: src.len(), allocation_size: len },
                    );
                }
                apply_write(&mut a, self.layout.pointer_size, ptr.offset, src, new_reloc);
                proof {
                    lemma_sum_bytes_update(old(self).entries(), idx as int, AllocEntry::Dead);
                }
                let ghost mid = self.entries();
                proof {
                    lemma_sum_bytes_update(mid, idx as int, AllocEntry::Bytes(a));
                }
                self.allocs.set(idx, AllocEntry::Bytes(a));
                proof {
                    assert(self.entries() =~= old(self).entries().update(
                        idx as int,
                        AllocEntry::Bytes(a),
                    ));
                }
                Ok(())
            },
            AllocEntry::Func(f) => {
                let mut put_back = AllocEntry::Func(f);
                self.allocs.set_and_swap(idx, &mut put_back);
                proof {
                    assert(self.entries() =~= old(self).entries());
                }
                Err(EvalError::DerefFunctionPointer)
            },
            AllocEntry::Dead => {
                proof {
                    assert(self.entries() =~= old(self).entries());
                }
                Err(EvalError::DanglingPointerDeref)
            },
        }
    }

    /// Write plain bytes: the range becomes defined and loses any
    /// relocations it overlapped.
    pub fn write_bytes(&mut self, ptr: Pointer, src: &Vec<u8>) -> (r: EvalResult<()>)
        requires
            old(self).inv(),
        ensures
            final(self).inv(),
            (r matches Ok(_)) <==> old(self).writable(ptr, src@.len()),
            r matches Ok(_) ==> final(self).write_effect(
                old(self),
                ptr,
                src@,
                Option::<AllocId>::None,
            ),
            r matches Err(_) ==> final(self).same_memory(old(self)),
            !old(self).is_alloc(ptr.alloc_id) ==> r == Err::<(), _>(
                lookup_error(old(self), ptr.alloc_id),
            ),
    {
        self.write_with(ptr, src, Option::None)
    }

    /// Write `count` copies of one byte.
    pub fn write_repeat(&mut self, ptr: Pointer, val: u8, count: usize) -> (r: EvalResult<()>)
        requires
            old(self).inv(),
        ensures
            final(self).inv(),
            (r matches Ok(_)) <==> old(self).writable(ptr, count as nat),
            r matches Ok(_) ==> final(self).write_effect(
                old(self),
                ptr,
                Seq::new(count as nat, |i: int| val),
                Option::<AllocId>::None,
            ),
            r matches Err(_) ==> final(self).same_memory(old(self)),
    {
        let mut src: Vec<u8> = Vec::new();
        let mut i: usize = 0;
        while i < count
            invariant
                i <= count,
                src@ =~= Seq::new(i as nat, |j: int| val),
            decreases count - i,
        {
            src.push(val);
            proof {
                assert(src@ =~= Seq::new((i + 1) as nat, |j: int| val));
            }
            i = i + 1;
        }
        self.write_with(ptr, &src, Option::None)
    }

    /// Read plain bytes: every byte must be defined and free of relocations.
    pub fn read_bytes(&self, ptr: Pointer, size: usize) -> (r: EvalResult<Vec<u8>>)
        requires
            self.inv(),
        ensures
            (r matches Ok(_)) <==> self.readable(ptr, size as nat),
            r matches Ok(v) ==> v@ == self.allocation(ptr.alloc_id).bytes@.subrange(
                ptr.offset as int,
                ptr.offset + size,
            ),
            !self.is_alloc(ptr.alloc_id) ==> r == Err::<Vec<u8>, _>(
                lookup_error(self, ptr.alloc_id),
            ),
            self.is_alloc(ptr.alloc_id) && self.has_reloc_overlapping(ptr, size as nat) ==> r
                == Err::<Vec<u8>, _>(EvalError::ReadPointerAsBytes),
            self.is_alloc(ptr.alloc_id) && !self.has_reloc_overlapping(ptr, size as nat)
                && !self.range_defined(ptr, size as nat) ==> r == Err::<Vec<u8>, _>(
                EvalError::ReadUndefBytes,
            ),
    {
        let a = match self.get(ptr.alloc_id) {
            Ok(a) => a,
            Err(e) => {
                return Err(e);
            },
        };
        if scan_relocs(a, self.layout.pointer_size, ptr.offset, size) {
            return Err(EvalError::ReadPointerAsBytes);
        }
        let alen = a.bytes.len();
        if size > usize::MAX - ptr.offset {
            proof {
                assert(!self.range_defined(ptr, size as nat));
            }
            return Err(EvalError::ReadUndefBytes);
        }
        if !a.undef_mask.is_range_defined(ptr.offset, ptr.offset + size) {
            return Err(EvalError::ReadUndefBytes);
        }
        Ok(copy_range(&a.bytes, ptr.offset, size))
    }

    /// Read a pointer: the slot must be fully defined and carry a relocation
    /// entry at exactly this offset; its numeric payload becomes the offset.
    pub fn read_ptr(&self, ptr: Pointer) -> (r: EvalResult<Pointer>)
        requires
            self.inv(),
        ensures
            r == self.spec_read_ptr(ptr),
    {
        let psize = self.layout.pointer_size;
        let a = match self.get(ptr.alloc_id) {
            Ok(a) => a,
            Err(e) => {
                return Err(e);
            },
        };
        let alen = a.bytes.len();
        if ptr.offset > usize::MAX - psize {
            proof {
                assert(!self.range_defined(ptr, self.psize()));
            }
            return Err(EvalError::ReadUndefBytes);
        }
        if !a.undef_mask.is_range_defined(ptr.offset, ptr.offset + psize) {
            return Err(EvalError::ReadUndefBytes);
        }
        let bytes = copy_range(&a.bytes, ptr.offset, psize);
        let value = crate::endian::read_target_uint(self.layout.endian, &bytes, psize);
        proof {
            assert(bytes@.subrange(0, psize as int) =~= a.bytes@.subrange(
                ptr.offset as int,
                ptr.offset + psize,
            ));
        }
        match a.relocations[ptr.offset] {
            Option::Some(alloc_id) => {
                if value <= usize::MAX as u64 {
                    Ok(Pointer { alloc_id, offset: value as usize })
                } else {
                    Err(EvalError::Unimplemented(Unsupported::ValueDoesNotFit))
                }
            },
            Option::None => Err(EvalError::ReadBytesAsPointer),
        }
    }

    /// Write a pointer: its offset as the numeric payload, plus a relocation
    /// entry recording the allocation it points into.
    pub fn write_ptr(&mut self, dest: Pointer, ptr: Pointer) -> (r: EvalResult<()>)
        requires
            old(self).inv(),
            (ptr.offset as nat) < crate::endian::pow256(old(self).psize()),
        ensures
            final(self).inv(),
            (r matches Ok(_)) <==> old(self).writable(dest, old(self).psize()),
            r matches Ok(_) ==> final(self).write_effect(
                old(self),
                dest,
                crate::endian::target_bytes_of(
                    old(self).layout_spec().endian,
                    ptr.offset as u64,
                    old(self).psize(),
                ),
                Option::Some(ptr.alloc_id),
            ),
            r matches Err(_) ==> final(self).same_memory(old(self)),
    {
        let psize = self.layout.pointer_size;
        let mut src: Vec<u8> = Vec::new();
        let mut i: usize = 0;
        while i < psize
            invariant
                i <= psize,
                src@.len() == i,
            decreases psize - i,
        {
            src.push(0);
            i = i + 1;
        }
        crate::endian::write_target_uint(self.layout.endian, &mut src, ptr.offset as u64, psize);
        proof {
            assert(src@ =~= src@.subrange(0, psize as int));
        }
        self.write_with(dest, &src, Option::Some(ptr.alloc_id))
    }

    /// The alignment the target demands of a `size`-byte integer access.
    pub open spec fn int_align_spec(&self, size: nat) -> nat {
        if size == 1 {
            self.layout_spec().i8_align as nat
        } else if size == 2 {
            self.layout_spec().i16_align as nat
        } else if size == 4 {
            self.layout_spec().i32_align as nat
        } else {
            self.layout_spec().i64_align as nat
        }
    }

    /// The value of `size` defined bytes at `ptr`, in the target's order.
    pub open spec fn uint_at(&self, ptr: Pointer, size: nat) -> nat {
        crate::endian::target_uint_of(
            self.layout_spec().endian,
            self.allocation(ptr.alloc_id).bytes@.subrange(ptr.offset as int, ptr.offset + size),
        )
    }

    /// The error a failed plain read classifies to.
    pub open spec fn read_error(&self, ptr: Pointer, size: nat) -> EvalError {
        if !self.is_alloc(ptr.alloc_id) {
            lookup_error(self, ptr.alloc_id)
        } else if self.has_reloc_overlapping(ptr, size) {
            EvalError::ReadPointerAsBytes
        } else {
            EvalError::ReadUndefBytes
        }
    }

    fn int_align(&self, size: usize) -> (r: usize)
        requires
            self.inv(),
            crate::endian::valid_int_size(size as nat),
        ensures
            r == self.int_align_spec(size as nat),
            r >= 1,
    {
        match size {
            1 => self.layout.i8_align,
            2 => self.layout.i16_align,
            4 => self.layout.i32_align,
            _ => self.layout.i64_align,
        }
    }

    /// What an unsigned-integer read returns, as a function of the state.
    pub open spec fn spec_read_uint(&self, ptr: Pointer, size: nat) -> EvalResult<u64> {
        if ptr.offset as int % self.int_align_spec(size) as int != 0 {
            Err(
                EvalError::AlignmentCheckFailed {
                    required: self.int_align_spec(size) as usize,
                    has: pow2_divisor(ptr.offset as nat) as usize,
                },
            )
        } else if !self.readable(ptr, size) {
            Err(self.read_error(ptr, size))
        } else {
            Ok(self.uint_at(ptr, size) as u64)
        }
    }

    /// What a signed-integer read returns: the unsigned read, reinterpreted.
    pub open spec fn spec_read_int(&self, ptr: Pointer, size: nat) -> EvalResult<i64> {
        match self.spec_read_uint(ptr, size) {
            Ok(v) => Ok(crate::endian::from_unsigned(v as nat, size) as i64),
            Err(e) => Err(e),
        }
    }

    /// What a boolean read returns, as a function of the state.
    pub open spec fn spec_read_bool(&self, ptr: Pointer) -> EvalResult<bool> {
        if ptr.offset as int % self.layout_spec().i1_align as int != 0 {
            Err(
                EvalError::AlignmentCheckFailed {
                    required: self.layout_spec().i1_align,
                    has: pow2_divisor(ptr.offset as nat) as usize,
                },
            )
        } else if !self.readable(ptr, 1) {
            Err(self.read_error(ptr, 1))
        } else if self.allocation(ptr.alloc_id).bytes@[ptr.offset as int] == 0 {
            Ok(false)
        } else if self.allocation(ptr.alloc_id).bytes@[ptr.offset as int] == 1 {
            Ok(true)
        } else {
            Err(EvalError::InvalidBool)
        }
    }

    /// Read an unsigned integer of `size` bytes.
    pub fn read_uint(&self, ptr: Pointer, size: usize) -> (r: EvalResult<u64>)
        requires
            self.inv(),
            crate::endian::valid_int_size(size as nat),
        ensures
            r == self.spec_read_uint(ptr, size as nat),
            r matches Ok(v) ==> v as nat == self.uint_at(ptr, size as nat) && (v as nat)
                < crate::endian::pow256(size as nat),
    {
        let align = self.int_align(size);
        match ptr.check_align(align) {
            Ok(_) => {},
            Err(e) => {
                return Err(e);
            },
        }
        let bytes = match self.read_bytes(ptr, size) {
            Ok(b) => b,
            Err(e) => {
                return Err(e);
            },
        };
        let v = crate::endian::read_target_uint(self.layout.endian, &bytes, size);
        proof {
            assert(bytes@.subrange(0, size as int) =~= bytes@);
            crate::endian::lemma_target_uint_bound(self.layout_spec().endian, bytes@);
        }
        Ok(v)
    }

    /// Write an unsigned integer of `size` bytes.
    pub fn write_uint(&mut self, ptr: Pointer, n: u64, size: usize) -> (r: EvalResult<()>)
        requires
            old(self).inv(),
            crate::endian::valid_int_size(size as nat),
            size == 8 || (n as nat) < crate::endian::pow256(size as nat),
        ensures
            final(self).inv(),
            (r matches Ok(_)) <==> (ptr.offset as int % old(self).int_align_spec(
                size as nat,
            ) as int == 0 && old(self).writable(ptr, size as nat)),
            r matches Ok(_) ==> final(self).write_effect(
                old(self),
                ptr,
                crate::endian::target_bytes_of(old(self).layout_spec().endian, n, size as nat),
                Option::<AllocId>::None,
            ),
            r matches Err(_) ==> final(self).same_memory(old(self)),
            ptr.offset as int % old(self).int_align_spec(size as nat) as int != 0 ==> r == Err::<
                (),
                _,
            >(
                EvalError::AlignmentCheckFailed {
                    required: old(self).int_align_spec(size as nat) as usize,
                    has: pow2_divisor(ptr.offset as nat) as usize,
                },
            ),
    {
        proof {
            crate::endian::lemma_pow256_values();
        }
        let align = self.int_align(size);
        match ptr.check_align(align) {
            Ok(_) => {},
            Err(e) => {
                return Err(e);
            },
        }
        let mut src: Vec<u8> = Vec::new();
        let mut i: usize = 0;
        while i < size
            invariant
                i <= size,
                src@.len() == i,
            decreases size - i,
        {
            src.push(0);
            i = i + 1;
        }
        crate::endian::write_target_uint(self.layout.endian, &mut src, n, size);
        proof {
            assert(src@ =~= src@.subrange(0, size as int));
        }
        self.write_with(ptr, &src, Option::None)
    }

    /// Read a signed integer of `size` bytes (two's complement).
    pub fn read_int(&self, ptr: Pointer, size: usize) -> (r: EvalResult<i64>)
        requires
            self.inv(),
            crate::endian::valid_int_size(size as nat),
        ensures
            r == self.spec_read_int(ptr, size as nat),
    {
        proof {
            crate::endian::lemma_pow256_values();
        }
        let u = match self.read_uint(ptr, size) {
            Ok(u) => u,
            Err(e) => {
                return Err(e);
            },
        };
        if size == 8 {
            if u >= 0x8000_0000_0000_0000u64 {
                let m = u64::MAX - u;
                Ok(-(m as i64) - 1)
            } else {
                Ok(u as i64)
            }
        } else {
            let p: u64 = match size {
                1 => 0x100,
                2 => 0x10000,
                _ => 0x1_0000_0000,
            };
            if u >= p / 2 {
                Ok(-((p - u) as i64))
            } else {
                Ok(u as i64)
            }
        }
    }

    /// Write a signed integer of `size` bytes (two's complement).
    pub fn write_int(&mut self, ptr: Pointer, n: i64, size: usize) -> (r: EvalResult<()>)
        requires
            old(self).inv(),
            crate::endian::valid_int_size(size as nat),
            size == 8 || crate::endian::in_signed_range(n as int, size as nat),
        ensures
            final(self).inv(),
            (r matches Ok(_)) <==> (ptr.offset as int % old(self).int_align_spec(
                size as nat,
            ) as int == 0 && old(self).writable(ptr, size as nat)),
            r matches Ok(_) ==> final(self).write_effect(
                old(self),
                ptr,
                crate::endian::target_bytes_of(
                    old(self).layout_spec().endian,
                    crate::endian::to_unsigned(n as int, size as nat) as u64,
                    size as nat,
                ),
                Option::<AllocId>::None,
            ),
            r matches Err(_) ==> final(self).same_memory(old(self)),
    {
        proof {
            crate::endian::lemma_pow256_values();
        }
        let u: u64 = if n >= 0 {
            n as u64
        } else if size == 8 {
            let m = (-(n + 1)) as u64;
            u64::MAX - m
        } else {
            let p: u64 = match size {
                1 => 0x100,
                2 => 0x10000,
                _ => 0x1_0000_0000,
            };
            p - ((-(n + 1)) as u64 + 1)
        };
        self.write_uint(ptr, u, size)
    }

    /// Read a pointer-sized unsigned integer.
    pub fn read_usize(&self, ptr: Pointer) -> (r: EvalResult<u64>)
        requires
            self.inv(),
        ensures
            r == self.spec_read_uint(ptr, self.psize()),
            r matches Ok(v) ==> v as nat == self.uint_at(ptr, self.psize()) && (v as nat)
                < crate::endian::pow256(self.psize()),
    {
        self.read_uint(ptr, self.layout.pointer_size)
    }

    /// Write a pointer-sized unsigned integer.
    pub fn write_usize(&mut self, ptr: Pointer, n: u64) -> (r: EvalResult<()>)
        requires
            old(self).inv(),
            old(self).psize() == 8 || (n as nat) < crate::endian::pow256(old(self).psize()),
        ensures
            final(self).inv(),
            (r matches Ok(_)) <==> (ptr.offset as int % old(self).int_align_spec(
                old(self).psize(),
            ) as int == 0 && old(self).writable(ptr, old(self).psize())),
            r matches Ok(_) ==> final(self).write_effect(
                old(self),
                ptr,
                crate::endian::target_bytes_of(
                    old(self).layout_spec().endian,
                    n,
                    old(self).psize(),
                ),
                Option::<AllocId>::None,
            ),
            r matches Err(_) ==> final(self).same_memory(old(self)),
    {
        self.write_uint(ptr, n, self.layout.pointer_size)
    }

    /// Read a pointer-sized signed integer.
    pub fn read_isize(&self, ptr: Pointer) -> (r: EvalResult<i64>)
        requires
            self.inv(),
        ensures
            r == self.spec_read_int(ptr, self.psize()),
    {
        self.read_int(ptr, self.layout.pointer_size)
    }

    /// Write a pointer-sized signed integer.
    pub fn write_isize(&mut self, ptr: Pointer, n: i64) -> (r: EvalResult<()>)
        requires
            old(self).inv(),
            old(self).psize() == 8 || crate::endian::in_signed_range(n as int, old(self).psize()),
        ensures
            final(self).inv(),
            (r matches Ok(_)) <==> (ptr.offset as int % old(self).int_align_spec(
                old(self).psize(),
            ) as int == 0 && old(self).writable(ptr, old(self).psize())),
            r matches Ok(_) ==> final(self).write_effect(
                old(self),
                ptr,
                crate::endian::target_bytes_of(
                    old(self).layout_spec().endian,
                    crate::endian::to_unsigned(n as int, old(self).psize()) as u64,
                    old(self).psize(),
                ),
                Option::<AllocId>::None,
            ),
            r matches Err(_) ==> final(self).same_memory(old(self)),
    {
        self.write_int(ptr, n, self.layout.pointer_size)
    }

    /// Read a boolean: one defined byte holding 0 or 1.
    pub fn read_bool(&self, ptr: Pointer) -> (r: EvalResult<bool>)
        requires
            self.inv(),
        ensures
            r == self.spec_read_bool(ptr),
    {
        match ptr.check_align(self.layout.i1_align) {
            Ok(_) => {},
            Err(e) => {
                return Err(e);
            },
        }
        let bytes = match self.read_bytes(ptr, 1) {
            Ok(b) => b,
            Err(e) => {
                return Err(e);
            },
        };
        match bytes[0] {
            0 => Ok(false),
            1 => Ok(true),
            _ => Err(EvalError::InvalidBool),
        }
    }

    /// Write a boolean as one byte.
    pub fn write_bool(&mut self, ptr: Pointer, b: bool) -> (r: EvalResult<()>)
        requires
            old(self).inv(),
        ensures
            final(self).inv(),
            (r matches Ok(_)) <==> (ptr.offset as int % old(self).layout_spec().i1_align as int
                == 0 && old(self).writable(ptr, 1)),
            r matches Ok(_) ==> final(self).write_effect(
                old(self),
                ptr,
                seq![if b { 1u8 } else { 0u8 }],
                Option::<AllocId>::None,
            ),
            r matches Err(_) ==> final(self).same_memory(old(self)),
    {
        match ptr.check_align(self.layout.i1_align) {
            Ok(_) => {},
            Err(e) => {
                return Err(e);
            },
        }
        let mut src: Vec<u8> = Vec::new();
        src.push(if b { 1 } else { 0 });
        proof {
            assert(src@ =~= seq![if b { 1u8 } else { 0u8 }]);
        }
        self.write_with(ptr, &src, Option::None)
    }

    /// Grow or shrink an allocation in place. Valid only on the base pointer
    /// the allocation was created with. Growth's new bytes are undefined;
    /// truncation drops relocations whose bytes are cut and marks the
    /// surviving bytes of partially clipped ones undefined.
    pub fn reallocate(&mut self, ptr: Pointer, new_size: usize, align: usize) -> (r: EvalResult<
        Pointer,
    >)
        requires
            old(self).inv(),
            new_size + align + 63 <= usize::MAX,
        ensures
            final(self).inv(),
            final(self).layout_spec() == old(self).layout_spec(),
            final(self).size_spec() == old(self).size_spec(),
            r matches Err(_) ==> final(self).same_memory(old(self)),
            !old(self).is_alloc(ptr.alloc_id) ==> r == Err::<Pointer, _>(
                lookup_error(old(self), ptr.alloc_id),
            ),
            old(self).is_alloc(ptr.alloc_id) && ptr.offset != old(self).allocation(
                ptr.alloc_id,
            ).align ==> r == Err::<Pointer, _>(
                EvalError::Unimplemented(Unsupported::NonBasePointer),
            ),
            // success is owed to a live, mutable base pointer; only growth
            // past the byte budget can refuse it
            ptr.alloc_id != zst_alloc_id() && old(self).is_alloc(ptr.alloc_id) && ptr.offset
                == old(self).allocation(ptr.alloc_id).align && !old(self).allocation(
                ptr.alloc_id,
            ).immutable ==> ((r matches Ok(_)) <==> (new_size + align >= old(self).allocation(
                ptr.alloc_id,
            ).bytes@.len() ==> new_size + align - old(self).allocation(ptr.alloc_id).bytes@.len()
                <= old(self).size_spec() - old(self).usage_spec())),
            // a zero-sized base behaves like a fresh allocation
            ptr.alloc_id == zst_alloc_id() && ptr.offset == 0 && new_size > 0 ==> ((
            r matches Ok(_)) <==> new_size + align <= old(self).size_spec() - old(
                self,
            ).usage_spec()),
            ptr.alloc_id == zst_alloc_id() && ptr.offset == 0 && new_size == 0 ==> r == Ok::<
                _,
                EvalError,
            >(Pointer { alloc_id: zst_alloc_id(), offset: 0 }) && final(self).same_memory(
                old(self),
            ),
            ptr.alloc_id == zst_alloc_id() && ptr.offset == 0 && new_size > 0 ==> (
            r matches Ok(p) ==> {
                &&& p.alloc_id.0 == old(self).entries().len()
                &&& p.offset == align
                &&& final(self).entries().len() == old(self).entries().len() + 1
                &&& final(self).is_alloc(p.alloc_id)
                &&& final(self).allocation(p.alloc_id).bytes@ == Seq::new(
                    (new_size + align) as nat,
                    |i: int| 0u8,
                )
                &&& final(self).allocation(p.alloc_id).undef_mask@ == Seq::new(
                    (new_size + align) as nat,
                    |i: int| false,
                )
                &&& final(self).allocation(p.alloc_id).align == align
            }),
            // in-place growth keeps the old bytes, init bits and relocations
            // and appends undefined zeroes
            ptr.alloc_id != zst_alloc_id() && old(self).is_alloc(ptr.alloc_id) && ptr.offset
                == old(self).allocation(ptr.alloc_id).align && !old(self).allocation(
                ptr.alloc_id,
            ).immutable && new_size + align >= old(self).allocation(ptr.alloc_id).bytes@.len()
                ==> (r matches Ok(p) ==> {
                let a = old(self).allocation(ptr.alloc_id);
                let b = final(self).allocation(ptr.alloc_id);
                let amount = new_size + align - a.bytes@.len();
                &&& final(self).is_alloc(ptr.alloc_id)
                &&& p == (Pointer { alloc_id: ptr.alloc_id, offset: align })
                &&& b.bytes@ == a.bytes@ + Seq::new(amount as nat, |i: int| 0u8)
                &&& b.undef_mask@ == a.undef_mask@ + Seq::new(amount as nat, |i: int| false)
                &&& b.relocations@ == a.relocations@ + Seq::new(
                    amount as nat,
                    |i: int| Option::<AllocId>::None,
                )
                &&& b.align == a.align
                &&& final(self).usage_spec() == old(self).usage_spec() + amount
                &&& final(self).entries().len() == old(self).entries().len()
                &&& forall|i: int|
                    0 <= i < old(self).entries().len() && i != ptr.alloc_id.0
                        ==> final(self).entries()[i] == old(self).entries()[i]
            }),
            // shrinking truncates bytes, init bits and relocations, clearing
            // relocations whose bytes are cut
            ptr.alloc_id != zst_alloc_id() && old(self).is_alloc(ptr.alloc_id) && ptr.offset
                == old(self).allocation(ptr.alloc_id).align && !old(self).allocation(
                ptr.alloc_id,
            ).immutable && new_size + align < old(self).allocation(ptr.alloc_id).bytes@.len()
                ==> (r matches Ok(p) ==> {
                let a = old(self).allocation(ptr.alloc_id);
                let b = final(self).allocation(ptr.alloc_id);
                let least = new_size + align;
                let psize = old(self).psize();
                &&& final(self).is_alloc(ptr.alloc_id)
                &&& p == (Pointer { alloc_id: ptr.alloc_id, offset: align })
                &&& b.bytes@ == a.bytes@.subrange(0, least as int)
                &&& b.undef_mask@ == mask_after_clear(
                    a.undef_mask@,
                    a.relocations@,
                    psize,
                    least as int,
                    a.bytes@.len() as int,
                ).subrange(0, least as int)
                &&& b.relocations@ == relocs_cleared(
                    a.relocations@,
                    psize,
                    least as int,
                    a.bytes@.len() as int,
                ).subrange(0, least as int)
                &&& b.align == a.align
                &&& final(self).usage_spec() == old(self).usage_spec() - (a.bytes@.len() - least)
                &&& final(self).entries().len() == old(self).entries().len()
                &&& forall|i: int|
                    0 <= i < old(self).entries().len() && i != ptr.alloc_id.0
                        ==> final(self).entries()[i] == old(self).entries()[i]
            }),
    {
        let base_align = match self.get(ptr.alloc_id) {
            Ok(a) => a.align,
            Err(e) => {
                return Err(e);
            },
        };
        if ptr.offset != base_align {
            return Err(EvalError::Unimplemented(Unsupported::NonBasePointer));
        }
        if ptr.points_to_zst() {
            return self.allocate(new_size, align);
        }
        let n = self.allocs.len();
        proof {
            assert(ptr.alloc_id.0 < n as u64);
        }
        let idx = ptr.alloc_id.0 as usize;
        let mut entry = AllocEntry::Dead;
        self.allocs.set_and_swap(idx, &mut entry);
        match entry {
            AllocEntry::Bytes(mut a) => {
                if a.immutable {
                    let mut put_back = AllocEntry::Bytes(a);
                    self.allocs.set_and_swap(idx, &mut put_back);
                    proof {
                        assert(self.entries() =~= old(self).entries());
                    }
                    return Err(EvalError::Unimplemented(Unsupported::FrozenMemory));
                }
                let size = a.bytes.len();
                let least = new_size + align;
                if least >= size {
                    let amount = least - size;
                    if amount > self.memory_size - self.memory_usage {
                        let mut put_back = AllocEntry::Bytes(a);
                        self.allocs.set_and_swap(idx, &mut put_back);
                        proof {
                            assert(self.entries() =~= old(self).entries());
                        }
                        return Err(
                            EvalError::OutOfMemory {
                                allocation_size: amount,
                                memory_size: self.memory_size,
                                memory_usage: self.memory_usage,
                            },
                        );
                    }
                    self.memory_usage = self.memory_usage + amount;
                    let ghost ab = a.bytes@;
                    let ghost ar = a.relocations@;
                    let ghost am = a.undef_mask@;
                    let mut i: usize = 0;
                    while i < amount
                        invariant
                            i <= amount,
                            a.bytes@ =~= ab + Seq::new(i as nat, |j: int| 0u8),
                            a.relocations@ =~= ar + Seq::new(
                                i as nat,
                                |j: int| Option::<AllocId>::None,
                            ),
                            a.undef_mask == old(self).allocation(ptr.alloc_id).undef_mask,
                            a.align == old(self).allocation(ptr.alloc_id).align,
                            a.immutable == old(self).allocation(ptr.alloc_id).immutable,
                            am == a.undef_mask@,
                        decreases amount - i,
                    {
                        a.bytes.push(0);
                        a.relocations.push(Option::None);
                        proof {
                            assert(a.bytes@ =~= ab + Seq::new((i + 1) as nat, |j: int| 0u8));
                            assert(a.relocations@ =~= ar + Seq::new(
                                (i + 1) as nat,
                                |j: int| Option::<AllocId>::None,
                            ));
                        }
                        i = i + 1;
                    }
                    a.undef_mask.grow(amount, false);
                    proof {
                        assert(a.undef_mask@ =~= am + Seq::new(amount as nat, |j: int| false));
                        lemma_sum_bytes_update(old(self).entries(), idx as int, AllocEntry::Dead);
                    }
                    let ghost mid = self.entries();
                    proof {
                        lemma_sum_bytes_update(mid, idx as int, AllocEntry::Bytes(a));
                    }
                    self.allocs.set(idx, AllocEntry::Bytes(a));
                    proof {
                        assert(self.entries() =~= old(self).entries().update(
                            idx as int,
                            AllocEntry::Bytes(a),
                        ));
                    }
                    Ok(Pointer { alloc_id: ptr.alloc_id, offset: align })
                } else {
                    proof {
                        lemma_sum_bytes_entry_bound(old(self).entries(), idx as int);
                    }
                    self.memory_usage = self.memory_usage - (size - least);
                    clear_relocations(&mut a, self.layout.pointer_size, least, size - least);
                    a.bytes.truncate(least);
                    a.relocations.truncate(least);
                    a.undef_mask.truncate(least);
                    proof {
                        lemma_sum_bytes_update(old(self).entries(), idx as int, AllocEntry::Dead);
                    }
                    let ghost mid = self.entries();
                    proof {
                        lemma_sum_bytes_update(mid, idx as int, AllocEntry::Bytes(a));
                        lemma_sum_bytes_entry_bound(old(self).entries(), idx as int);
                    }
                    self.allocs.set(idx, AllocEntry::Bytes(a));
                    proof {
                        assert(self.entries() =~= old(self).entries().update(
                            idx as int,
                            AllocEntry::Bytes(a),
                        ));
                    }
                    Ok(Pointer { alloc_id: ptr.alloc_id, offset: align })
                }
            },
            AllocEntry::Func(f) => {
                let mut put_back = AllocEntry::Func(f);
                self.allocs.set_and_swap(idx, &mut put_back);
                proof {
                    assert(self.entries() =~= old(self).entries());
                }
                Err(EvalError::DerefFunctionPointer)
            },
            AllocEntry::Dead => {
                proof {
                    assert(self.entries() =~= old(self).entries());
                }
                Err(EvalError::DanglingPointerDeref)
            },
        }
    }

    /// A relocation's bytes straddle the start or the end of the range: the
    /// copy would tear a pointer apart.
    pub open spec fn reloc_edges_torn(&self, ptr: Pointer, size: nat) -> bool {
        let psize = self.psize();
        let a = self.allocation(ptr.alloc_id);
        a.has_reloc_in(reloc_scan_start(psize, ptr.offset as int), ptr.offset as int)
            || a.has_reloc_in(
            reloc_scan_start(psize, ptr.offset + size),
            ptr.offset + size,
        )
    }

    /// The copy succeeds: both ranges are live and in bounds, no relocation
    /// straddles the source edges, and the destination is not sealed.
    pub open spec fn copy_ok(&self, src: Pointer, dest: Pointer, size: nat) -> bool {
        &&& self.is_alloc(src.alloc_id)
        &&& self.in_bounds(src, size)
        &&& !self.reloc_edges_torn(src, size)
        &&& self.is_alloc(dest.alloc_id)
        &&& !self.allocation(dest.alloc_id).immutable
        &&& self.in_bounds(dest, size)
    }

    /// What a successful copy does: the destination range takes the source's
    /// bytes, init bits and (shifted) relocations as they were before the
    /// call, so an overlapping copy within one allocation is safe.
    pub open spec fn copy_effect(&self, pre: &Memory, src: Pointer, dest: Pointer, size: nat) -> bool {
        let sa = pre.allocation(src.alloc_id);
        let da = pre.allocation(dest.alloc_id);
        let b = self.allocation(dest.alloc_id);
        let shift = src.offset - dest.offset;
        let offset = dest.offset as int;
        let end = offset + size;
        let psize = pre.psize();
        &&& self.entries().len() == pre.entries().len()
        &&& (forall|i: int|
            0 <= i < pre.entries().len() && i != dest.alloc_id.0 ==> self.entries()[i]
                == pre.entries()[i])
        &&& self.usage_spec() == pre.usage_spec()
        &&& self.size_spec() == pre.size_spec()
        &&& self.layout_spec() == pre.layout_spec()
        &&& self.is_alloc(dest.alloc_id)
        &&& b.bytes@ == bytes_written(
            da.bytes@,
            offset,
            sa.bytes@.subrange(src.offset as int, src.offset + size),
        )
        &&& b.undef_mask@ == Seq::new(
            da.undef_mask@.len(),
            |j: int|
                if offset <= j < end {
                    sa.undef_mask@[j + shift]
                } else {
                    mask_after_clear(da.undef_mask@, da.relocations@, psize, offset, end)[j]
                },
        )
        &&& b.relocations@ == Seq::new(
            da.relocations@.len(),
            |k: int|
                if offset <= k < end {
                    sa.relocations@[k + shift]
                } else {
                    relocs_cleared(da.relocations@, psize, offset, end)[k]
                },
        )
        &&& b.align == da.align
        &&& b.immutable == da.immutable
    }

    /// Copy bytes, init bits and relocations. Overlap within one allocation
    /// is safe: the source is read before the destination changes.
    #[verifier::loop_isolation(false)]
    pub fn copy(&mut self, src: Pointer, dest: Pointer, size: usize) -> (r: EvalResult<()>)
        requires
            old(self).inv(),
        ensures
            final(self).inv(),
            (r matches Ok(_)) <==> old(self).copy_ok(src, dest, size as nat),
            r matches Ok(_) ==> final(self).copy_effect(old(self), src, dest, size as nat),
            r matches Err(_) ==> final(self).same_memory(old(self)),
            !old(self).is_alloc(src.alloc_id) ==> r == Err::<(), _>(
                lookup_error(old(self), src.alloc_id),
            ),
            old(self).is_alloc(src.alloc_id) && !old(self).in_bounds(src, size as nat) ==> r
                == Err::<(), _>(
                EvalError::PointerOutOfBounds {
                    ptr: src,
                    size,
                    allocation_size: old(self).allocation(src.alloc_id).bytes@.len() as usize,
                },
            ),
            old(self).is_alloc(src.alloc_id) && old(self).in_bounds(src, size as nat) && old(
                self,
            ).reloc_edges_torn(src, size as nat) ==> r == Err::<(), _>(
                EvalError::ReadPointerAsBytes,
            ),
    {
        let psize = self.layout.pointer_size;
        let (sbytes, smask, srelocs) = {
            let a = match self.get(src.alloc_id) {
                Ok(a) => a,
                Err(e) => {
                    return Err(e);
                },
            };
            let alen = a.bytes.len();
            if size > alen || src.offset > alen - size {
                return Err(
                    EvalError::PointerOutOfBounds { ptr: src, size, allocation_size: alen },
                );
            }
            if scan_relocs(a, psize, src.offset, 0) {
                return Err(EvalError::ReadPointerAsBytes);
            }
            if scan_relocs(a, psize, src.offset + size, 0) {
                return Err(EvalError::ReadPointerAsBytes);
            }
            let sbytes = copy_range(&a.bytes, src.offset, size);
            let mut smask: Vec<bool> = Vec::new();
            let mut srelocs: Vec<Option<AllocId>> = Vec::new();
            let mut i: usize = 0;
            while i < size
                invariant
                    i <= size,
                    src.offset + size <= a.bytes@.len(),
                    a.wf(psize as nat),
                    a == old(self).allocation(src.alloc_id),
                    smask@ =~= a.undef_mask@.subrange(src.offset as int, src.offset + i),
                    srelocs@ =~= a.relocations@.subrange(src.offset as int, src.offset + i),
                decreases size - i,
            {
                smask.push(a.undef_mask.get(src.offset + i));
                srelocs.push(a.relocations[src.offset + i]);
                proof {
                    assert(smask@ =~= a.undef_mask@.subrange(src.offset as int, src.offset + i + 1));
                    assert(srelocs@ =~= a.relocations@.subrange(
                        src.offset as int,
                        src.offset + i + 1,
                    ));
                }
                i = i + 1;
            }
            (sbytes, smask, srelocs)
        };
        let n = self.allocs.len();
        if dest.alloc_id.0 >= n as u64 {
            return Err(EvalError::DanglingPointerDeref);
        }
        let idx = dest.alloc_id.0 as usize;
        let mut entry = AllocEntry::Dead;
        self.allocs.set_and_swap(idx, &mut entry);
        match entry {
            AllocEntry::Bytes(mut a) => {
                if a.immutable {
                    let mut put_back = AllocEntry::Bytes(a);
                    self.allocs.set_and_swap(idx, &mut put_back);
                    proof {
                        assert(self.entries() =~= old(self).entries());
                    }
                    return Err(EvalError::Unimplemented(Unsupported::FrozenMemory));
                }
                let dlen = a.bytes.len();
                if size > dlen || dest.offset > dlen - size {
                    let mut put_back = AllocEntry::Bytes(a);
                    self.allocs.set_and_swap(idx, &mut put_back);
                    proof {
                        assert(self.entries() =~= old(self).entries());
                    }
                    return Err(
                        EvalError::PointerOutOfBounds { ptr: dest, size, allocation_size: dlen },
                    );
                }
                clear_relocations(&mut a, psize, dest.offset, size);
                splice_range(&mut a, psize, dest.offset, &sbytes, &smask, &srelocs);
                proof {
                    lemma_sum_bytes_update(old(self).entries(), idx as int, AllocEntry::Dead);
                }
                let ghost mid = self.entries();
                proof {
                    lemma_sum_bytes_update(mid, idx as int, AllocEntry::Bytes(a));
                }
                self.allocs.set(idx, AllocEntry::Bytes(a));
                proof {
                    assert(self.entries() =~= old(self).entries().update(
                        idx as int,
                        AllocEntry::Bytes(a),
                    ));
                    let sa = old(self).allocation(src.alloc_id);
                    let da = old(self).allocation(dest.alloc_id);
                    let b = self.allocation(dest.alloc_id);
                    let shift = src.offset - dest.offset;
                    let offset = dest.offset as int;
                    let end = offset + size;
                    assert(b.bytes@ =~= bytes_written(
                        da.bytes@,
                        offset,
                        sa.bytes@.subrange(src.offset as int, src.offset + size),
                    ));
                    assert(b.undef_mask@ =~= Seq::new(
                        da.undef_mask@.len(),
                        |j: int|
                            if offset <= j < end {
                                sa.undef_mask@[j + shift]
                            } else {
                                mask_after_clear(
                                    da.undef_mask@,
                                    da.relocations@,
                                    psize as nat,
                                    offset,
                                    end,
                                )[j]
                            },
                    ));
                    assert(b.relocations@ =~= Seq::new(
                        da.relocations@.len(),
                        |k: int|
                            if offset <= k < end {
                                sa.relocations@[k + shift]
                            } else {
                                relocs_cleared(da.relocations@, psize as nat, offset, end)[k]
                            },
                    ));
                }
                Ok(())
            },
            AllocEntry::Func(f) => {
                let mut put_back = AllocEntry::Func(f);
                self.allocs.set_and_swap(idx, &mut put_back);
                proof {
                    assert(self.entries() =~= old(self).entries());
                }
                Err(EvalError::DerefFunctionPointer)
            },
            AllocEntry::Dead => {
                proof {
                    assert(self.entries() =~= old(self).entries());
                }
                Err(EvalError::DanglingPointerDeref)
            },
        }
    }

    /// How many bytes the primitive occupies in memory.
    pub open spec fn primval_size(&self, v: crate::primval::PrimVal) -> nat {
        match v {
            crate::primval::PrimVal::Bool(_) => 1,
            crate::primval::PrimVal::Char(_) => 4,
            crate::primval::PrimVal::F32Bits(_) => 4,
            crate::primval::PrimVal::F64Bits(_) => 8,
            crate::primval::PrimVal::FnPtr(_) => self.psize(),
            crate::primval::PrimVal::AbstractPtr(_) => self.psize(),
            crate::primval::PrimVal::IntegerPtr(_) => self.psize(),
            _ => crate::primval::int_width(v) / 8,
        }
    }

    /// The numeric payload the primitive stores.
    pub open spec fn primval_payload(&self, v: crate::primval::PrimVal) -> u64 {
        match v {
            crate::primval::PrimVal::Bool(b) => if b {
                1u64
            } else {
                0u64
            },
            crate::primval::PrimVal::Char(c) => c as u64,
            crate::primval::PrimVal::F32Bits(x) => x as u64,
            crate::primval::PrimVal::F64Bits(x) => x,
            crate::primval::PrimVal::FnPtr(p) => p.offset as u64,
            crate::primval::PrimVal::AbstractPtr(p) => p.offset as u64,
            crate::primval::PrimVal::IntegerPtr(n) => n,
            _ => crate::primval::int_bits(v),
        }
    }

    /// The alignment the store must satisfy.
    pub open spec fn primval_align(&self, v: crate::primval::PrimVal) -> nat {
        match v {
            crate::primval::PrimVal::Bool(_) => self.layout_spec().i1_align as nat,
            crate::primval::PrimVal::Char(_) => self.layout_spec().i32_align as nat,
            crate::primval::PrimVal::F32Bits(_) => self.layout_spec().f32_align as nat,
            crate::primval::PrimVal::F64Bits(_) => self.layout_spec().f64_align as nat,
            crate::primval::PrimVal::FnPtr(_) | crate::primval::PrimVal::AbstractPtr(_)
                | crate::primval::PrimVal::IntegerPtr(_) => self.int_align_spec(self.psize()),
            _ => self.int_align_spec(crate::primval::int_width(v) / 8),
        }
    }

    /// The relocation entry the store records, if any: pointers with
    /// provenance keep it, everything else stores plain bytes.
    pub open spec fn primval_reloc(&self, v: crate::primval::PrimVal) -> Option<AllocId> {
        match v {
            crate::primval::PrimVal::FnPtr(p) => Option::Some(p.alloc_id),
            crate::primval::PrimVal::AbstractPtr(p) => Option::Some(p.alloc_id),
            _ => Option::<AllocId>::None,
        }
    }

    /// The payload can be encoded in the primitive's byte count.
    pub open spec fn primval_fits(&self, v: crate::primval::PrimVal) -> bool {
        self.primval_size(v) == 8 || (self.primval_payload(v) as nat) < crate::endian::pow256(
            self.primval_size(v),
        )
    }

    /// Store a primitive value: its payload in the target's byte order, and
    /// for a pointer with provenance also its relocation entry.
    pub fn write_primval(&mut self, ptr: Pointer, val: crate::primval::PrimVal) -> (r: EvalResult<
        (),
    >)
        requires
            old(self).inv(),
        ensures
            final(self).inv(),
            (r matches Ok(_)) <==> (old(self).primval_fits(val) && ptr.offset as int % old(
                self,
            ).primval_align(val) as int == 0 && old(self).writable(
                ptr,
                old(self).primval_size(val),
            )),
            r matches Ok(_) ==> final(self).write_effect(
                old(self),
                ptr,
                crate::endian::target_bytes_of(
                    old(self).layout_spec().endian,
                    old(self).primval_payload(val),
                    old(self).primval_size(val),
                ),
                old(self).primval_reloc(val),
            ),
            r matches Err(_) ==> final(self).same_memory(old(self)),
    {
        proof {
            crate::endian::lemma_pow256_values();
        }
        let psize = self.layout.pointer_size;
        let (payload, size, align, reloc): (u64, usize, usize, Option<AllocId>) = match val {
            crate::primval::PrimVal::Bool(b) => (
                if b {
                    1
                } else {
                    0
                },
                1,
                self.layout.i1_align,
                Option::None,
            ),
            crate::primval::PrimVal::I8(x) => ((x as u8) as u64, 1, self.layout.i8_align, Option::None),
            crate::primval::PrimVal::I16(x) => (
                (x as u16) as u64,
                2,
                self.layout.i16_align,
                Option::None,
            ),
            crate::primval::PrimVal::I32(x) => (
                (x as u32) as u64,
                4,
                self.layout.i32_align,
                Option::None,
            ),
            crate::primval::PrimVal::I64(x) => (x as u64, 8, self.layout.i64_align, Option::None),
            crate::primval::PrimVal::U8(x) => (x as u64, 1, self.layout.i8_align, Option::None),
            crate::primval::PrimVal::U16(x) => (x as u64, 2, self.layout.i16_align, Option::None),
            crate::primval::PrimVal::U32(x) => (x as u64, 4, self.layout.i32_align, Option::None),
            crate::primval::PrimVal::U64(x) => (x, 8, self.layout.i64_align, Option::None),
            crate::primval::PrimVal::Char(c) => (c as u64, 4, self.layout.i32_align, Option::None),
            crate::primval::PrimVal::F32Bits(x) => (
                x as u64,
                4,
                self.layout.f32_align,
                Option::None,
            ),
            crate::primval::PrimVal::F64Bits(x) => (x, 8, self.layout.f64_align, Option::None),
            crate::primval::PrimVal::FnPtr(p) => (
                p.offset as u64,
                psize,
                self.int_align(psize),
                Option::Some(p.alloc_id),
            ),
            crate::primval::PrimVal::AbstractPtr(p) => (
                p.offset as u64,
                psize,
                self.int_align(psize),
                Option::Some(p.alloc_id),
            ),
            crate::primval::PrimVal::IntegerPtr(n) => (
                n,
                psize,
                self.int_align(psize),
                Option::None,
            ),
        };
        if size != 8 {
            let limit: u64 = if size == 1 {
                0x100
            } else if size == 2 {
                0x10000
            } else {
                0x1_0000_0000
            };
            if payload >= limit {
                return Err(EvalError::Unimplemented(Unsupported::ValueDoesNotFit));
            }
        }
        match ptr.check_align(align) {
            Ok(_) => {},
            Err(e) => {
                return Err(e);
            },
        }
        let mut src: Vec<u8> = Vec::new();
        let mut i: usize = 0;
        while i < size
            invariant
                i <= size,
                src@.len() == i,
            decreases size - i,
        {
            src.push(0);
            i = i + 1;
        }
        crate::endian::write_target_uint(self.layout.endian, &mut src, payload, size);
        proof {
            assert(src@ =~= src@.subrange(0, size as int));
        }
        self.write_with(ptr, &src, reloc)
    }

    /// Force the definedness of a range without touching its bytes.
    pub fn mark_definedness(&mut self, ptr: Pointer, size: usize, new_state: bool) -> (r:
        EvalResult<()>)
        requires
            old(self).inv(),
        ensures
            final(self).inv(),
            (r matches Ok(_)) <==> (old(self).is_alloc(ptr.alloc_id) && !old(self).allocation(
                ptr.alloc_id,
            ).immutable && old(self).in_bounds(ptr, size as nat)),
            r matches Err(_) ==> final(self).same_memory(old(self)),
            r matches Ok(_) ==> {
                &&& final(self).same_except(old(self), ptr.alloc_id)
                &&& final(self).is_alloc(ptr.alloc_id)
                &&& final(self).allocation(ptr.alloc_id).bytes@ == old(self).allocation(
                    ptr.alloc_id,
                ).bytes@
                &&& final(self).allocation(ptr.alloc_id).relocations@ == old(self).allocation(
                    ptr.alloc_id,
                ).relocations@
                &&& final(self).allocation(ptr.alloc_id).align == old(self).allocation(
                    ptr.alloc_id,
                ).align
                &&& final(self).allocation(ptr.alloc_id).immutable == old(self).allocation(
                    ptr.alloc_id,
                ).immutable
                &&& final(self).allocation(ptr.alloc_id).undef_mask@ == Seq::new(
                    old(self).allocation(ptr.alloc_id).undef_mask@.len(),
                    |j: int|
                        if ptr.offset <= j < ptr.offset + size {
                            new_state
                        } else {
                            old(self).allocation(ptr.alloc_id).undef_mask@[j]
                        },
                )
            },
    {
        let idx = ptr.alloc_id.0;
        if idx >= self.allocs.len() as u64 {
            return Err(EvalError::DanglingPointerDeref);
        }
        let idx = idx as usize;
        let mut entry = AllocEntry::Dead;
        self.allocs.set_and_swap(idx, &mut entry);
        match entry {
            AllocEntry::Bytes(mut a) => {
                if a.immutable {
                    let mut put_back = AllocEntry::Bytes(a);
                    self.allocs.set_and_swap(idx, &mut put_back);
                    proof {
                        assert(self.entries() =~= old(self).entries());
                    }
                    return Err(EvalError::Unimplemented(Unsupported::FrozenMemory));
                }
                let len = a.bytes.len();
                if size > len || ptr.offset > len - size {
                    let mut put_back = AllocEntry::Bytes(a);
                    self.allocs.set_and_swap(idx, &mut put_back);
                    proof {
                        assert(self.entries() =~= old(self).entries());
                    }
                    return Err(
                        EvalError::PointerOutOfBounds { ptr, size, allocation_size: len },
                    );
                }
                a.undef_mask.set_range_inbounds(ptr.offset, ptr.offset + size, new_state);
                proof {
                    lemma_sum_bytes_update(old(self).entries(), idx as int, AllocEntry::Dead);
                }
                let ghost mid = self.entries();
                proof {
                    lemma_sum_bytes_update(mid, idx as int, AllocEntry::Bytes(a));
                }
                self.allocs.set(idx, AllocEntry::Bytes(a));
                proof {
                    assert(self.entries() =~= old(self).entries().update(
                        idx as int,
                        AllocEntry::Bytes(a),
                    ));
                    assert(self.allocation(ptr.alloc_id).undef_mask@ =~= Seq::new(
                        old(self).allocation(ptr.alloc_id).undef_mask@.len(),
                        |j: int|
                            if ptr.offset <= j < ptr.offset + size {
                                new_state
                            } else {
                                old(self).allocation(ptr.alloc_id).undef_mask@[j]
                            },
                    ));
                }
                Ok(())
            },
            AllocEntry::Func(f) => {
                let mut put_back = AllocEntry::Func(f);
                self.allocs.set_and_swap(idx, &mut put_back);
                proof {
                    assert(self.entries() =~= old(self).entries());
                }
                Err(EvalError::DerefFunctionPointer)
            },
            AllocEntry::Dead => {
                proof {
                    assert(self.entries() =~= old(self).entries());
                }
                Err(EvalError::DanglingPointerDeref)
            },
        }
    }
}

} // verus!
