//! Bump allocator: hands out memory linearly and never frees.
use vstd::prelude::*;
use crate::align::{align_up_spec, align_up_usize, is_pow2};

verus! {

/// Heap bounds, the next free address and the number of allocations made.
pub struct BumpAllocator {
    heap_start: usize,
    heap_end: usize,
    next: usize,
    allocations: usize,
}

/// The allocator's state as plain numbers.
pub struct BumpState {
    pub heap_start: usize,
    pub heap_end: usize,
    pub next: usize,
    pub allocations: usize,
}

impl View for BumpAllocator {
    type V = BumpState;

    closed spec fn view(&self) -> BumpState {
        BumpState {
            heap_start: self.heap_start,
            heap_end: self.heap_end,
            next: self.next,
            allocations: self.allocations,
        }
    }
}

/// One allocation of `size` bytes aligned to `align` from state `st`: the
/// block starts at `next` rounded up, and must end at or before the heap end.
pub open spec fn bump_alloc_spec(st: BumpState, size: int, align: int) -> (Option<usize>, BumpState) {
    let a = align_up_spec(st.next as int, align);
    if a + size > usize::MAX || a + size > st.heap_end {
        (None, st)
    } else {
        (Some(a as usize), BumpState { next: (a + size) as usize, allocations: (st.allocations + 1) as usize, ..st })
    }
}

impl BumpAllocator {
    /// An allocator over an empty heap.
    pub fn new() -> (b: BumpAllocator)
        ensures
            b@ == (BumpState { heap_start: 0, heap_end: 0, next: 0, allocations: 0 }),
    {
        BumpAllocator { heap_start: 0, heap_end: 0, next: 0, allocations: 0 }
    }

    /// Give the allocator the heap `[heap_start, heap_start + heap_size)`.
    pub fn init(&mut self, heap_start: usize, heap_size: usize)
        requires
            heap_start + heap_size <= usize::MAX,
        ensures
            final(self)@ == (BumpState {
                heap_start,
                heap_end: (heap_start + heap_size) as usize,
                next: heap_start,
                allocations: old(self)@.allocations,
            }),
    {
        self.heap_start = heap_start;
        self.heap_end = heap_start + heap_size;
        self.next = heap_start;
    }

    /// Allocate `size` bytes aligned to the power of two `align`; `None`
    /// when the block would not end inside the heap.
    pub fn allocate(&mut self, size: usize, align: usize) -> (r: Option<usize>)
        requires
            is_pow2(align as int),
            old(self)@.next + align - 1 <= usize::MAX,
            old(self)@.allocations < usize::MAX,
        ensures
            (r, final(self)@) == bump_alloc_spec(old(self)@, size as int, align as int),
    {
        let alloc_start = align_up_usize(self.next, align);
        let alloc_end = match alloc_start.checked_add(size) {
            Some(end) => end,
            None => return None,
        };
        if alloc_end > self.heap_end {
            None
        } else {
            self.next = alloc_end;
            self.allocations += 1;
            Some(alloc_start)
        }
    }

    /// Memory handed out is never taken back.
    pub fn deallocate(&mut self, _addr: usize, _size: usize, _align: usize)
        ensures
            final(self)@ == old(self)@,
    {
    }
}

/// Two blocks handed out one after the other do not overlap, and each lies
/// between where the free space started and the heap end.
pub proof fn lemma_bump_disjoint(st: BumpState, s1: int, a1: int, s2: int, a2: int)
    requires
        is_pow2(a1),
        is_pow2(a2),
        0 <= s1,
        0 <= s2,
    ensures
        ({
            let (r1, st1) = bump_alloc_spec(st, s1, a1);
            let (r2, st2) = bump_alloc_spec(st1, s2, a2);
            &&& r1 matches Some(x) ==> st.next <= x && x + s1 <= st.heap_end
            &&& (r1 is Some && r2 is Some) ==> r1->0 + s1 <= r2->0 && r2->0 + s2 <= st.heap_end
        }),
{
    crate::align::lemma_pow2_positive(a1);
    crate::align::lemma_pow2_positive(a2);
    let y = st.next + a1 - 1;
    vstd::arithmetic::div_mod::lemma_mod_bound(y, a1);
    let (r1, st1) = bump_alloc_spec(st, s1, a1);
    let y2 = st1.next + a2 - 1;
    vstd::arithmetic::div_mod::lemma_mod_bound(y2, a2);
}

} // verus!
