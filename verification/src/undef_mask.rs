//! The initialization bitmap: one bit per byte of an allocation, packed into
//! 64-bit blocks. Bit `i` is `true` exactly when byte `i` has been written.

use vstd::prelude::*;

verus! {

pub const BLOCK_SIZE: usize = 64;

/// Bit `i` of a packed block sequence.
pub open spec fn block_bit(blocks: Seq<u64>, i: int) -> bool {
    (blocks[i / 64] >> ((i % 64) as u64)) & 1 == 1
}

/// A packed bit-vector recording which bytes of an allocation are defined.
#[derive(Clone, Debug)]
pub struct UndefMask {
    blocks: Vec<u64>,
    len: usize,
}

impl View for UndefMask {
    type V = Seq<bool>;

    closed spec fn view(&self) -> Seq<bool> {
        Seq::new(self.len as nat, |i: int| block_bit(self.blocks@, i))
    }
}

proof fn lemma_bit_update(b: u64, i: u64, j: u64)
    by (bit_vector)
    requires
        i < 64,
        j < 64,
    ensures
        i == j ==> ((b | (1u64 << i)) >> j) & 1 == 1,
        i != j ==> ((b | (1u64 << i)) >> j) & 1 == (b >> j) & 1,
        i == j ==> ((b & !(1u64 << i)) >> j) & 1 == 0,
        i != j ==> ((b & !(1u64 << i)) >> j) & 1 == (b >> j) & 1,
{
}

fn bit_index(bits: usize) -> (r: (usize, usize))
    ensures
        r.0 == bits as int / 64,
        r.1 == bits as int % 64,
{
    (bits / BLOCK_SIZE, bits % BLOCK_SIZE)
}

impl UndefMask {
    /// The invariant every mask maintains: the blocks cover all `len` bits.
    pub closed spec fn wf(&self) -> bool {
        self.len as nat <= self.blocks@.len() * 64
    }

    proof fn lemma_index_in_blocks(&self, i: int)
        requires
            self.wf(),
            0 <= i < self.len,
        ensures
            0 <= i / 64 < self.blocks@.len(),
    {
        assert(i / 64 < self.blocks@.len()) by (nonlinear_arith)
            requires
                0 <= i < self.len,
                self.len as nat <= self.blocks@.len() * 64,
        ;
    }

    /// A fresh mask of `size` bits, all undefined.
    pub fn new(size: usize) -> (r: Self)
        requires
            size + 63 <= usize::MAX,
        ensures
            r.wf(),
            r@.len() == size,
            forall|i: int| 0 <= i < size ==> !r@[i],
    {
        let mut m = UndefMask { blocks: Vec::new(), len: 0 };
        m.grow(size, false);
        m
    }

    /// Whether the range `start..end` (end-exclusive) is entirely defined.
    /// A range reaching past the mask is never defined.
    #[verifier::loop_isolation(false)]
    pub fn is_range_defined(&self, start: usize, end: usize) -> (r: bool)
        requires
            self.wf(),
        ensures
            r <==> (end <= self@.len() && forall|i: int| start <= i < end ==> self@[i]),
    {
        if end > self.len {
            return false;
        }
        let mut i: usize = start;
        while i < end
            invariant
                self.wf(),
                start <= i,
                end <= self@.len(),
                i <= end || i == start,
                forall|j: int| start <= j < i && j < end ==> self@[j],
            decreases end - i,
        {
            if !self.get(i) {
                return false;
            }
            i = i + 1;
        }
        true
    }

    /// Set every bit in `start..end`, growing the mask if `end` reaches past
    /// it (the grown bits take the new state).
    pub fn set_range(&mut self, start: usize, end: usize, new_state: bool)
        requires
            old(self).wf(),
            start <= end,
            end + 63 <= usize::MAX,
        ensures
            final(self).wf(),
            final(self)@.len() == if end > old(self)@.len() { end as nat } else { old(self)@.len() },
            forall|i: int|
                0 <= i < final(self)@.len() ==> final(self)@[i] == if start <= i < end || i
                    >= old(self)@.len() {
                    new_state
                } else {
                    old(self)@[i]
                },
    {
        let len = self.len;
        if end > len {
            self.grow(end - len, new_state);
        }
        self.set_range_inbounds(start, end, new_state);
    }

    #[verifier::loop_isolation(false)]
    pub fn set_range_inbounds(&mut self, start: usize, end: usize, new_state: bool)
        requires
            old(self).wf(),
            start <= end,
            end <= old(self)@.len(),
        ensures
            final(self).wf(),
            final(self)@.len() == old(self)@.len(),
            forall|i: int|
                0 <= i < final(self)@.len() ==> final(self)@[i] == if start <= i < end {
                    new_state
                } else {
                    old(self)@[i]
                },
    {
        let mut i: usize = start;
        while i < end
            invariant
                self.wf(),
                start <= i <= end || i == start,
                end <= self@.len(),
                self@.len() == old(self)@.len(),
                forall|j: int|
                    0 <= j < self@.len() ==> self@[j] == if start <= j < i {
                        new_state
                    } else {
                        old(self)@[j]
                    },
            decreases end - i,
        {
            self.set(i, new_state);
            i = i + 1;
        }
    }

    /// Bit `i`.
    pub fn get(&self, i: usize) -> (r: bool)
        requires
            self.wf(),
            i < self@.len(),
        ensures
            r == self@[i as int],
    {
        proof {
            self.lemma_index_in_blocks(i as int);
        }
        let (block, bit) = bit_index(i);
        (self.blocks[block] >> (bit as u64)) & 1 == 1
    }

    /// Set bit `i`.
    pub fn set(&mut self, i: usize, new_state: bool)
        requires
            old(self).wf(),
            i < old(self)@.len(),
        ensures
            final(self).wf(),
            final(self)@ == old(self)@.update(i as int, new_state),
    {
        proof {
            self.lemma_index_in_blocks(i as int);
        }
        let (block, bit) = bit_index(i);
        let b = self.blocks[block];
        let nb = if new_state {
            b | (1u64 << (bit as u64))
        } else {
            b & !(1u64 << (bit as u64))
        };
        self.blocks.set(block, nb);
        proof {
            assert forall|j: int| 0 <= j < self.len implies self@[j] == old(self)@.update(
                i as int,
                new_state,
            )[j] by {
                old(self).lemma_index_in_blocks(j);
                lemma_bit_update(b, (i as int % 64) as u64, (j % 64) as u64);
                if j / 64 == i as int / 64 && j % 64 == i as int % 64 {
                    assert(j == 64 * (j / 64) + j % 64);
                    assert(i as int == 64 * (i as int / 64) + i as int % 64);
                }
            }
            assert(self@ =~= old(self)@.update(i as int, new_state));
        }
    }

    /// Append `amount` bits, each in `new_state`.
    #[verifier::loop_isolation(false)]
    pub fn grow(&mut self, amount: usize, new_state: bool)
        requires
            old(self).wf(),
            old(self)@.len() + amount + 63 <= usize::MAX,
        ensures
            final(self).wf(),
            final(self)@.len() == old(self)@.len() + amount,
            forall|i: int|
                0 <= i < final(self)@.len() ==> final(self)@[i] == if i < old(self)@.len() {
                    old(self)@[i]
                } else {
                    new_state
                },
    {
        let new_len = self.len + amount;
        let needed = (new_len + 63) / 64;
        while self.blocks.len() < needed
            invariant
                self.wf(),
                self.len == old(self).len,
                self@ == old(self)@,
                self.blocks@.len() >= old(self).blocks@.len(),
            decreases needed - self.blocks.len(),
        {
            let ghost before = self@;
            self.blocks.push(0);
            proof {
                assert forall|j: int| 0 <= j < self.len implies self@[j] == before[j] by {
                    old(self).lemma_index_in_blocks(j);
                }
                assert(self@ =~= before);
            }
        }
        proof {
            assert(new_len as nat <= self.blocks@.len() * 64) by (nonlinear_arith)
                requires
                    self.blocks@.len() >= (new_len + 63) / 64,
                    new_len + 63 <= usize::MAX,
            ;
        }
        let ghost mid = self@;
        let start = self.len;
        self.len = new_len;
        proof {
            assert forall|j: int| 0 <= j < start implies self@[j] == mid[j] by {}
        }
        self.set_range_inbounds(start, new_len, new_state);
    }

    /// Drop all bits from `length` on.
    pub fn truncate(&mut self, length: usize)
        requires
            old(self).wf(),
            length <= old(self)@.len(),
        ensures
            final(self).wf(),
            final(self)@ == old(self)@.subrange(0, length as int),
    {
        let ghost before = self@;
        self.len = length;
        let keep = if length / 64 + 1 <= self.blocks.len() {
            length / 64 + 1
        } else {
            self.blocks.len()
        };
        let ghost blocks_before = self.blocks@;
        self.blocks.truncate(keep);
        proof {
            assert(self.wf()) by (nonlinear_arith)
                requires
                    self.len == length,
                    self.blocks@.len() >= if length as int / 64 + 1 <= blocks_before.len() {
                        length as int / 64 + 1
                    } else {
                        blocks_before.len() as int
                    },
                    length as nat <= blocks_before.len() * 64,
            ;
            assert forall|j: int| 0 <= j < length implies self@[j] == before[j] by {
                assert(j / 64 < self.blocks@.len()) by (nonlinear_arith)
                    requires
                        0 <= j < length,
                        self.blocks@.len() >= length as int / 64 + 1
                            || self.blocks@.len() == blocks_before.len(),
                        length as nat <= blocks_before.len() * 64,
                ;
                assert(self.blocks@[j / 64] == blocks_before[j / 64]);
            }
            assert(self@ =~= before.subrange(0, length as int));
        }
    }
}

} // verus!
