//! A bump arena over a growable byte buffer: each allocation is placed at the
//! next offset aligned for it, after all earlier allocations, within a fixed
//! capacity. Unused alignment gaps are filled with zero bytes.
use vstd::prelude::*;
use crate::align::{align_up, check_alignment, is_alignment, round_up, lemma_round_up};

verus! {

pub struct Arena {
    buffer: Vec<u8>,
    capacity: usize,
    offset: usize,
}

/// The bytes that `alloc_bytes` leaves in the arena: the earlier bytes, zero padding
/// up to `start`, then the value.
pub open spec fn placed(before: Seq<u8>, start: nat, value: Seq<u8>) -> Seq<u8> {
    before + Seq::new((start - before.len()) as nat, |i: int| 0u8) + value
}

/// `bytes` written over `contents` from `start` on.
pub open spec fn overwritten(contents: Seq<u8>, start: int, bytes: Seq<u8>) -> Seq<u8> {
    contents.take(start) + bytes + contents.skip(start + bytes.len())
}

/// Reading an allocation gives back the value that was placed there; the
/// bytes of everything allocated before stay as they were; the arena grows
/// by exactly the padding and the value.
pub proof fn law_alloc_then_read(before: Seq<u8>, start: nat, value: Seq<u8>)
    requires
        before.len() <= start,
    ensures
        placed(before, start, value).subrange(start as int, (start + value.len()) as int) == value,
        placed(before, start, value).take(before.len() as int) == before,
        placed(before, start, value).len() == start + value.len(),
{
    let p = placed(before, start, value);
    assert(p.subrange(start as int, (start + value.len()) as int) =~= value);
    assert(p.take(before.len() as int) =~= before);
}

/// Reading what was written gives it back, and no byte outside the written
/// range changes.
pub proof fn law_write_then_read(contents: Seq<u8>, start: int, bytes: Seq<u8>)
    requires
        0 <= start,
        start + bytes.len() <= contents.len(),
    ensures
        overwritten(contents, start, bytes).len() == contents.len(),
        overwritten(contents, start, bytes).subrange(start, start + bytes.len()) == bytes,
        forall|i: int|
            0 <= i < contents.len() && !(start <= i < start + bytes.len())
                ==> #[trigger] overwritten(contents, start, bytes)[i] == contents[i],
{
    let w = overwritten(contents, start, bytes);
    assert(w.subrange(start, start + bytes.len()) =~= bytes);
}

impl Arena {
    /// Every byte written so far, alignment padding included.
    pub closed spec fn contents(&self) -> Seq<u8> {
        self.buffer@
    }

    /// The most bytes the arena will hold.
    pub closed spec fn limit(&self) -> nat {
        self.capacity as nat
    }

    pub closed spec fn wf(&self) -> bool {
        &&& self.buffer@.len() == self.offset
        &&& self.offset <= self.capacity
    }

    /// Where a value of `size` bytes aligned to `align` would start, and
    /// whether it fits.
    pub open spec fn fits_spec(&self, size: nat, align: usize) -> bool {
        &&& is_alignment(align)
        &&& self.contents().len() + align - 1 <= usize::MAX
        &&& round_up(self.contents().len(), align as nat) + size <= self.limit()
    }

    /// An empty arena that can hold `capacity` bytes.
    pub fn new(capacity: usize) -> (arena: Self)
        ensures
            arena.wf(),
            arena.contents() == Seq::<u8>::empty(),
            arena.limit() == capacity,
    {
        Arena { buffer: Vec::with_capacity(capacity), capacity, offset: 0 }
    }

    /// Where the next allocation would begin before alignment: the number
    /// of bytes written so far.
    pub fn offset(&self) -> (n: usize)
        requires
            self.wf(),
        ensures
            n == self.contents().len(),
    {
        self.offset
    }

    /// Whether `alloc_bytes` of `size` bytes with alignment `align` has room; where
    /// it does not, allocating is out of memory.
    pub fn fits(&self, size: usize, align: usize) -> (b: bool)
        requires
            self.wf(),
        ensures
            b == self.fits_spec(size as nat, align),
    {
        if !check_alignment(align) {
            return false;
        }
        if self.offset > usize::MAX - (align - 1) {
            return false;
        }
        let start = align_up(self.offset, align);
        start <= self.capacity && size <= self.capacity - start
    }

    /// Places `value` at the next offset aligned to `align` and returns that
    /// offset.
    pub fn alloc_bytes(&mut self, value: &[u8], align: usize) -> (start: usize)
        requires
            old(self).wf(),
            old(self).fits_spec(value@.len(), align),
        ensures
            final(self).wf(),
            start as nat == round_up(old(self).contents().len(), align as nat),
            start % align == 0,
            old(self).contents().len() <= start < old(self).contents().len() + align,
            final(self).contents() == placed(old(self).contents(), start as nat, value@),
            final(self).limit() == old(self).limit(),
    {
        let start = align_up(self.offset, align);
        let end = start + value.len();
        let ghost before = self.buffer@;
        while self.buffer.len() < start
            invariant
                self.offset == before.len(),
                self.capacity == old(self).capacity,
                end <= self.capacity,
                start <= end,
                before.len() <= self.buffer@.len() <= start,
                self.buffer@ == before + Seq::new((self.buffer@.len() - before.len()) as nat, |i: int| 0u8),
            decreases start - self.buffer@.len(),
        {
            let ghost prev = self.buffer@;
            self.buffer.push(0u8);
            assert(self.buffer@ =~= before + Seq::new((self.buffer@.len() - before.len()) as nat, |i: int| 0u8));
        }
        let ghost padded = self.buffer@;
        let mut k: usize = 0;
        while k < value.len()
            invariant
                padded.len() == start,
                self.capacity == old(self).capacity,
                end <= self.capacity,
                end == start + value@.len(),
                k <= value.len(),
                self.buffer@ == padded + value@.take(k as int),
            decreases value.len() - k,
        {
            self.buffer.push(value[k]);
            assert(self.buffer@ =~= padded + value@.take(k + 1));
            k += 1;
        }
        assert(value@.take(value.len() as int) =~= value@);
        self.offset = end;
        start
    }

    /// The `len` bytes from `start`.
    pub fn read(&self, start: usize, len: usize) -> (bytes: Vec<u8>)
        requires
            self.wf(),
            start + len <= self.contents().len(),
        ensures
            bytes@ == self.contents().subrange(start as int, start + len),
    {
        let mut bytes: Vec<u8> = Vec::new();
        let mut k: usize = 0;
        while k < len
            invariant
                self.wf(),
                start + len <= self.buffer@.len(),
                k <= len,
                bytes@ == self.buffer@.subrange(start as int, start + k),
            decreases len - k,
        {
            bytes.push(self.buffer[start + k]);
            assert(bytes@ =~= self.buffer@.subrange(start as int, start + k + 1));
            k += 1;
        }
        bytes
    }

    /// Overwrites the bytes from `start` with `bytes`.
    pub fn write(&mut self, start: usize, bytes: &[u8])
        requires
            old(self).wf(),
            start + bytes@.len() <= old(self).contents().len(),
        ensures
            final(self).wf(),
            final(self).limit() == old(self).limit(),
            final(self).contents() == overwritten(old(self).contents(), start as int, bytes@),
    {
        let ghost before = self.buffer@;
        let mut k: usize = 0;
        while k < bytes.len()
            invariant
                self.buffer@.len() == before.len(),
                self.offset == before.len(),
                self.capacity == old(self).capacity,
                self.offset <= self.capacity,
                start + bytes@.len() <= before.len(),
                k <= bytes.len(),
                self.buffer@ == before.take(start as int) + bytes@.take(k as int) + before.skip(start + k),
            decreases bytes.len() - k,
        {
            self.buffer.set(start + k, bytes[k]);
            assert(self.buffer@ =~= before.take(start as int) + bytes@.take(k + 1) + before.skip(start + k + 1));
            k += 1;
        }
        assert(bytes@.take(bytes.len() as int) =~= bytes@);
    }
}

} // verus!
