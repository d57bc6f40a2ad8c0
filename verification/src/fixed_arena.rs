//! A bump arena over one block of memory reserved up front: each allocation
//! is written at the next offset aligned for it, after all earlier
//! allocations, and never past the end of the block.
use vstd::prelude::*;
use crate::align::{align_up, check_alignment, is_alignment, round_up};
use crate::arena::overwritten;

verus! {

pub struct Arena {
    memory: Vec<u8>,
    capacity: usize,
    offset: usize,
}

impl Arena {
    /// The whole block, allocated or not.
    pub closed spec fn contents(&self) -> Seq<u8> {
        self.memory@
    }

    /// How many bytes from the start of the block are taken by allocations
    /// and their alignment padding.
    pub closed spec fn used(&self) -> nat {
        self.offset as nat
    }

    pub closed spec fn wf(&self) -> bool {
        &&& self.memory@.len() == self.capacity
        &&& self.offset <= self.capacity
    }

    /// Whether a value of `size` bytes aligned to `align` fits after the
    /// allocations made so far.
    pub open spec fn fits_spec(&self, size: nat, align: usize) -> bool {
        &&& is_alignment(align)
        &&& self.used() + align - 1 <= usize::MAX
        &&& round_up(self.used(), align as nat) + size <= self.contents().len()
    }

    /// An arena over a block of `capacity` bytes, as the block that the
    /// global allocator gives for a layout of that size aligned to 8.
    pub fn new(capacity: usize) -> (arena: Self)
        requires
            0 < capacity,
            round_up(capacity as nat, 8) <= isize::MAX,
        ensures
            arena.wf(),
            arena.used() == 0,
            arena.contents().len() == capacity,
    {
        Arena { memory: vec![0u8; capacity], capacity, offset: 0 }
    }

    /// Whether `alloc_bytes` of `size` bytes with alignment `align` has room;
    /// where it does not, the arena is out of memory.
    pub fn fits(&self, size: usize, align: usize) -> (b: bool)
        requires
            self.wf(),
        ensures
            b == self.fits_spec(size as nat, align),
    {
        if !check_alignment(align) {
            return false;
        }
        if self.offset > usize::MAX - (align - 1) {
            return false;
        }
        let start = align_up(self.offset, align);
        start <= self.capacity && size <= self.capacity - start
    }

    /// Writes `value` at the next offset aligned to `align` and returns that
    /// offset.
    pub fn alloc_bytes(&mut self, value: &[u8], align: usize) -> (start: usize)
        requires
            old(self).wf(),
            old(self).fits_spec(value@.len(), align),
        ensures
            final(self).wf(),
            start as nat == round_up(old(self).used(), align as nat),
            start % align == 0,
            old(self).used() <= start < old(self).used() + align,
            final(self).used() == start + value@.len(),
            final(self).contents() == overwritten(old(self).contents(), start as int, value@),
    {
        let start = align_up(self.offset, align);
        self.write_at(start, value);
        self.offset = start + value.len();
        start
    }

    /// The `len` bytes from `start`, inside what has been allocated.
    pub fn read(&self, start: usize, len: usize) -> (bytes: Vec<u8>)
        requires
            self.wf(),
            start + len <= self.used(),
        ensures
            bytes@ == self.contents().subrange(start as int, start + len),
    {
        let mut bytes: Vec<u8> = Vec::new();
        let mut k: usize = 0;
        while k < len
            invariant
                self.wf(),
                start + len <= self.offset,
                k <= len,
                bytes@ == self.memory@.subrange(start as int, start + k),
            decreases len - k,
        {
            bytes.push(self.memory[start + k]);
            assert(bytes@ =~= self.memory@.subrange(start as int, start + k + 1));
            k += 1;
        }
        bytes
    }

    /// Overwrites the allocated bytes from `start` with `bytes`.
    pub fn write(&mut self, start: usize, bytes: &[u8])
        requires
            old(self).wf(),
            start + bytes@.len() <= old(self).used(),
        ensures
            final(self).wf(),
            final(self).used() == old(self).used(),
            final(self).contents() == overwritten(old(self).contents(), start as int, bytes@),
    {
        self.write_at(start, bytes);
    }

    fn write_at(&mut self, start: usize, bytes: &[u8])
        requires
            old(self).wf(),
            start + bytes@.len() <= old(self).contents().len(),
        ensures
            final(self).memory@.len() == old(self).memory@.len(),
            final(self).capacity == old(self).capacity,
            final(self).offset == old(self).offset,
            final(self).contents() == overwritten(old(self).contents(), start as int, bytes@),
    {
        let ghost before = self.memory@;
        let mut k: usize = 0;
        while k < bytes.len()
            invariant
                self.memory@.len() == before.len(),
                before == old(self).memory@,
                self.capacity == old(self).capacity,
                self.offset == old(self).offset,
                self.capacity == before.len(),
                start + bytes@.len() <= before.len(),
                k <= bytes.len(),
                self.memory@ == before.take(start as int) + bytes@.take(k as int) + before.skip(start + k),
            decreases bytes.len() - k,
        {
            self.memory.set(start + k, bytes[k]);
            assert(self.memory@ =~= before.take(start as int) + bytes@.take(k + 1) + before.skip(start + k + 1));
            k += 1;
        }
        assert(bytes@.take(bytes.len() as int) =~= bytes@);
    }
}

} // verus!
