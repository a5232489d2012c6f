//! Free-list heap allocator: free regions kept sorted by address, coalesced
//! with their neighbours when a region is returned.
use vstd::prelude::*;
use crate::align::{align_up_spec, align_up_usize, is_pow2, is_align_up, lemma_pow2_positive, lemma_pow2_8, lemma_pow2_at_most_half, lemma_pow2_multiple};

verus! {

/// Bytes taken by one free-list node (a size and a link).
pub const NODE_SIZE: usize = 16;
/// Alignment of a free-list node.
pub const NODE_ALIGN: usize = 8;

/// One free region of the heap: `size` bytes starting at `start`.
#[derive(Clone, Copy, Debug, PartialEq, Eq, Structural)]
pub struct ListNode {
    pub start: usize,
    pub size: usize,
}

impl ListNode {
    /// One past the last byte of the region.
    pub open spec fn end(self) -> int {
        self.start + self.size
    }

    /// A region of `size` bytes at `start`.
    pub fn new(start: usize, size: usize) -> (n: ListNode)
        ensures
            n.start == start,
            n.size == size,
    {
        ListNode { start, size }
    }

    /// First address of the region.
    pub fn start_addr(&self) -> (a: usize)
        ensures
            a == self.start,
    {
        self.start
    }

    /// One past the last address of the region.
    pub fn end_addr(&self) -> (a: usize)
        requires
            self.end() <= usize::MAX,
        ensures
            a == self.end(),
    {
        self.start + self.size
    }
}

/// A node that can stand in the free list: large enough to hold itself,
/// aligned for itself, and not wrapping around the address space.
pub open spec fn node_ok(n: ListNode) -> bool {
    &&& n.size >= NODE_SIZE
    &&& n.start as int % NODE_ALIGN as int == 0
    &&& n.end() <= usize::MAX
}

/// The free list is sorted by address and its regions do not overlap.
pub open spec fn nodes_wf(s: Seq<ListNode>) -> bool {
    &&& forall|i: int| 0 <= i < s.len() ==> node_ok(#[trigger] s[i])
    &&& forall|i: int, j: int| 0 <= i < j < s.len() ==> #[trigger] s[i].end() <= #[trigger] s[j].start
}

/// Address `x` lies in some free region of `s`.
pub open spec fn covers(s: Seq<ListNode>, x: int) -> bool {
    exists|i: int| 0 <= i < s.len() && #[trigger] s[i].start <= x && x < s[i].end()
}

/// The range `[addr, addr + size)` shares no byte with any region of `s`.
pub open spec fn disjoint_from(s: Seq<ListNode>, addr: int, size: int) -> bool {
    forall|i: int| 0 <= i < s.len() ==> #[trigger] s[i].end() <= addr || addr + size <= s[i].start
}

/// Index of the first region that starts at or after `addr`.
pub open spec fn insert_pos(s: Seq<ListNode>, addr: int) -> nat
    decreases s.len(),
{
    if s.len() == 0 {
        0
    } else if s[0].start >= addr {
        0
    } else {
        1 + insert_pos(s.drop_first(), addr)
    }
}

/// The free list after returning `size` bytes at `addr`: regions smaller
/// than a node are dropped; otherwise the region goes in address order and
/// is merged with the following region when it ends where that one starts,
/// and with the preceding region when that one ends where it starts.
pub open spec fn insert_spec(s: Seq<ListNode>, addr: int, size: int) -> Seq<ListNode> {
    if size < NODE_SIZE {
        s
    } else {
        let p = insert_pos(s, addr) as int;
        let new_addr = align_up_spec(addr, NODE_ALIGN as int);
        let merge_next = p < s.len() && new_addr + size == s[p].start;
        let s1 = if merge_next { s.remove(p) } else { s };
        let sz = if merge_next { size + s[p].size } else { size };
        if p > 0 && s1[p - 1].size > 0 && s1[p - 1].end() == new_addr {
            s1.update(p - 1, ListNode { start: s1[p - 1].start, size: (s1[p - 1].size + sz) as usize })
        } else {
            s1.insert(p, ListNode { start: new_addr as usize, size: sz as usize })
        }
    }
}

proof fn lemma_insert_pos(s: Seq<ListNode>, addr: int, p: int)
    requires
        0 <= p <= s.len(),
        forall|j: int| 0 <= j < p ==> (#[trigger] s[j]).start < addr,
        p == s.len() || s[p].start >= addr,
    ensures
        insert_pos(s, addr) == p,
    decreases s.len(),
{
    if s.len() > 0 && p > 0 {
        assert(s[0].start < addr);
        let t = s.drop_first();
        assert forall|j: int| 0 <= j < p - 1 implies (#[trigger] t[j]).start < addr by {
            assert(t[j] == s[j + 1]);
        }
        lemma_insert_pos(t, addr, p - 1);
    }
}

proof fn lemma_insert_pos_bounds(s: Seq<ListNode>, addr: int)
    ensures
        insert_pos(s, addr) <= s.len(),
        forall|j: int| 0 <= j < insert_pos(s, addr) ==> (#[trigger] s[j]).start < addr,
        insert_pos(s, addr) < s.len() ==> s[insert_pos(s, addr) as int].start >= addr,
    decreases s.len(),
{
    if s.len() > 0 && s[0].start < addr {
        let t = s.drop_first();
        lemma_insert_pos_bounds(t, addr);
        assert forall|j: int| 0 <= j < insert_pos(s, addr) implies (#[trigger] s[j]).start < addr by {
            if j > 0 {
                assert(s[j] == t[j - 1]);
            }
        }
    }
}

/// Layout facts about the range `[addr, addr + size)` in `s`, relative to the
/// insertion point `p`: regions before it end at or before `addr`, regions
/// from it on start at or after the range's end.
pub open spec fn range_fits_at(s: Seq<ListNode>, p: int, addr: int, end: int) -> bool {
    &&& 0 <= p <= s.len()
    &&& addr <= end <= usize::MAX
    &&& forall|j: int| 0 <= j < p ==> #[trigger] s[j].end() <= addr
    &&& forall|j: int| p <= j < s.len() ==> end <= #[trigger] s[j].start
}

proof fn lemma_fits(s: Seq<ListNode>, addr: int, size: int)
    requires
        nodes_wf(s),
        0 <= size,
        addr + size <= usize::MAX,
        disjoint_from(s, addr, size),
    ensures
        range_fits_at(s, insert_pos(s, addr) as int, addr, addr + size),
{
    lemma_insert_pos_bounds(s, addr);
    let p = insert_pos(s, addr) as int;
    assert forall|j: int| 0 <= j < p implies #[trigger] s[j].end() <= addr by {
        assert(s[j].start < addr);
    }
    assert forall|j: int| p <= j < s.len() implies addr + size <= #[trigger] s[j].start by {
        assert(s[j].start >= addr) by {
            if j > p {
                assert(s[p].end() <= s[j].start);
            }
        }
    }
}

/// Absorbing the region at `p` that starts where the range ends.
proof fn lemma_absorb_next(s: Seq<ListNode>, p: int, addr: int, size: int)
    requires
        nodes_wf(s),
        range_fits_at(s, p, addr, addr + size),
        p < s.len(),
        addr + size == s[p].start,
    ensures
        nodes_wf(s.remove(p)),
        range_fits_at(s.remove(p), p, addr, addr + size + s[p].size),
        forall|x: int| covers(s.remove(p), x) || (addr <= x < addr + size + s[p].size)
            <==> covers(s, x) || (addr <= x < addr + size),
{
    let s1 = s.remove(p);
    assert forall|i: int, j: int| 0 <= i < j < s1.len() implies #[trigger] s1[i].end() <= #[trigger] s1[j].start by {
        let ii = if i < p { i } else { i + 1 };
        let jj = if j < p { j } else { j + 1 };
        assert(s1[i] == s[ii] && s1[j] == s[jj]);
    }
    assert forall|i: int| 0 <= i < s1.len() implies node_ok(#[trigger] s1[i]) by {
        let ii = if i < p { i } else { i + 1 };
        assert(s1[i] == s[ii]);
    }
    assert(node_ok(s[p]));
    let nend = addr + size + s[p].size;
    assert forall|j: int| p <= j < s1.len() implies nend <= #[trigger] s1[j].start by {
        assert(s1[j] == s[j + 1]);
        assert(s[p].end() <= s[j + 1].start);
    }
    assert forall|j: int| 0 <= j < p implies #[trigger] s1[j].end() <= addr by {
        assert(s1[j] == s[j]);
    }
    assert forall|x: int| covers(s1, x) || (addr <= x < nend) <==> covers(s, x) || (addr <= x < addr + size) by {
        if covers(s1, x) {
            let i = choose|i: int| 0 <= i < s1.len() && #[trigger] s1[i].start <= x && x < s1[i].end();
            let ii = if i >= p { i + 1 } else { i };
            assert(s1[i] == s[ii]);
        }
        if covers(s, x) {
            let i = choose|i: int| 0 <= i < s.len() && #[trigger] s[i].start <= x && x < s[i].end();
            if i != p {
                let ii = if i > p { i - 1 } else { i };
                assert(s1[ii] == s[i]);
            }
        }
    }
}

/// Extending the region before `p`, which ends where the range starts.
proof fn lemma_extend_prev(s1: Seq<ListNode>, p: int, addr: int, nend: int)
    requires
        nodes_wf(s1),
        range_fits_at(s1, p, addr, nend),
        0 < p,
        s1[p - 1].end() == addr,
    ensures
        ({
            let r = s1.update(p - 1, ListNode { start: s1[p - 1].start, size: (s1[p - 1].size + (nend - addr)) as usize });
            &&& nodes_wf(r)
            &&& forall|x: int| covers(r, x) <==> covers(s1, x) || (addr <= x < nend)
        }),
{
    let q = s1[p - 1];
    let m = ListNode { start: q.start, size: (q.size + (nend - addr)) as usize };
    let r = s1.update(p - 1, m);
    assert(m.end() == nend);
    assert forall|i: int| 0 <= i < r.len() implies node_ok(#[trigger] r[i]) by {
        if i != p - 1 {
            assert(r[i] == s1[i]);
        }
    }
    assert forall|i: int, j: int| 0 <= i < j < r.len() implies #[trigger] r[i].end() <= #[trigger] r[j].start by {
        if i == p - 1 {
            assert(r[j] == s1[j]);
        } else if j == p - 1 {
            assert(r[i] == s1[i]);
            assert(s1[i].end() <= s1[p - 1].start);
        } else {
            assert(r[i] == s1[i] && r[j] == s1[j]);
        }
    }
    assert forall|x: int| covers(r, x) <==> covers(s1, x) || (addr <= x < nend) by {
        if covers(r, x) {
            let i = choose|i: int| 0 <= i < r.len() && #[trigger] r[i].start <= x && x < r[i].end();
            if i != p - 1 {
                assert(r[i] == s1[i]);
            } else if x < addr {
                assert(s1[p - 1].start <= x && x < s1[p - 1].end());
            }
        }
        if covers(s1, x) {
            let i = choose|i: int| 0 <= i < s1.len() && #[trigger] s1[i].start <= x && x < s1[i].end();
            if i != p - 1 {
                assert(r[i] == s1[i]);
            } else {
                assert(r[p - 1].start <= x && x < r[p - 1].end());
            }
        }
        if addr <= x < nend {
            assert(r[p - 1].start <= x && x < r[p - 1].end());
        }
    }
}

/// Placing a new region for the range at `p`.
proof fn lemma_place_new(s1: Seq<ListNode>, p: int, addr: int, nend: int)
    requires
        nodes_wf(s1),
        range_fits_at(s1, p, addr, nend),
        addr % NODE_ALIGN as int == 0,
        0 <= addr,
        nend - addr >= NODE_SIZE,
    ensures
        ({
            let r = s1.insert(p, ListNode { start: addr as usize, size: (nend - addr) as usize });
            &&& nodes_wf(r)
            &&& forall|x: int| covers(r, x) <==> covers(s1, x) || (addr <= x < nend)
        }),
{
    let m = ListNode { start: addr as usize, size: (nend - addr) as usize };
    let r = s1.insert(p, m);
    assert forall|i: int| 0 <= i < r.len() implies node_ok(#[trigger] r[i]) by {
        if i < p {
            assert(r[i] == s1[i]);
        } else if i > p {
            assert(r[i] == s1[i - 1]);
        }
    }
    assert forall|i: int, j: int| 0 <= i < j < r.len() implies #[trigger] r[i].end() <= #[trigger] r[j].start by {
        if j < p {
            assert(r[i] == s1[i] && r[j] == s1[j]);
        } else if j == p {
            assert(r[i] == s1[i]);
        } else if i == p {
            assert(r[j] == s1[j - 1]);
        } else if i < p {
            assert(r[i] == s1[i] && r[j] == s1[j - 1]);
        } else {
            assert(r[i] == s1[i - 1] && r[j] == s1[j - 1]);
        }
    }
    assert forall|x: int| covers(r, x) <==> covers(s1, x) || (addr <= x < nend) by {
        if covers(r, x) {
            let i = choose|i: int| 0 <= i < r.len() && #[trigger] r[i].start <= x && x < r[i].end();
            if i < p {
                assert(r[i] == s1[i]);
            } else if i > p {
                assert(r[i] == s1[i - 1]);
            }
        }
        if covers(s1, x) {
            let i = choose|i: int| 0 <= i < s1.len() && #[trigger] s1[i].start <= x && x < s1[i].end();
            if i < p {
                assert(r[i] == s1[i]);
            } else {
                assert(r[i + 1] == s1[i]);
            }
        }
        if addr <= x < nend {
            assert(r[p] == m);
        }
    }
}

/// Returning a free range keeps the list sorted and non-overlapping, and the
/// free bytes afterwards are exactly the free bytes before plus the range.
pub proof fn lemma_insert_spec(s: Seq<ListNode>, addr: int, size: int)
    requires
        nodes_wf(s),
        addr % NODE_ALIGN as int == 0,
        0 <= addr,
        NODE_SIZE <= size,
        addr + size <= usize::MAX,
        disjoint_from(s, addr, size),
    ensures
        nodes_wf(insert_spec(s, addr, size)),
        forall|x: int| #[trigger] covers(insert_spec(s, addr, size), x) <==> (covers(s, x) || (addr <= x < addr + size)),
{
    lemma_fits(s, addr, size);
    let p = insert_pos(s, addr) as int;
    assert(align_up_spec(addr, NODE_ALIGN as int) == addr) by {
        vstd::arithmetic::div_mod::lemma_mod_adds(addr, 7, 8);
    }
    let merge_next = p < s.len() && addr + size == s[p].start;
    let s1 = if merge_next { s.remove(p) } else { s };
    let sz = if merge_next { size + s[p].size } else { size };
    if merge_next {
        lemma_absorb_next(s, p, addr, size);
    }
    if p > 0 && s1[p - 1].size > 0 && s1[p - 1].end() == addr {
        lemma_extend_prev(s1, p, addr, addr + sz);
    } else {
        lemma_place_new(s1, p, addr, addr + sz);
    }
}

/// No two free regions touch: between any two there is a byte that is not
/// free, so touching regions always end up merged.
pub open spec fn nodes_apart(s: Seq<ListNode>) -> bool {
    forall|i: int, j: int| 0 <= i < j < s.len() ==> #[trigger] s[i].end() < #[trigger] s[j].start
}

proof fn lemma_remove_apart(s: Seq<ListNode>, i: int)
    requires
        nodes_apart(s),
        0 <= i < s.len(),
    ensures
        nodes_apart(s.remove(i)),
{
    let t = s.remove(i);
    assert forall|a: int, b: int| 0 <= a < b < t.len() implies #[trigger] t[a].end() < #[trigger] t[b].start by {
        let aa = if a < i { a } else { a + 1 };
        let bb = if b < i { b } else { b + 1 };
        assert(t[a] == s[aa] && t[b] == s[bb]);
    }
}

/// The range `[addr, nend)` sits at `p` with a gap before every later region.
pub open spec fn range_apart_at(s1: Seq<ListNode>, p: int, addr: int, nend: int) -> bool {
    &&& nodes_wf(s1)
    &&& nodes_apart(s1)
    &&& range_fits_at(s1, p, addr, nend)
    &&& forall|j: int| p <= j < s1.len() ==> nend < #[trigger] s1[j].start
}

proof fn lemma_apart_extend_prev(s1: Seq<ListNode>, p: int, addr: int, nend: int)
    requires
        range_apart_at(s1, p, addr, nend),
        0 < p,
    ensures
        nodes_apart(s1.update(p - 1, ListNode { start: s1[p - 1].start, size: (s1[p - 1].size + (nend - addr)) as usize })),
{
    let m = ListNode { start: s1[p - 1].start, size: (s1[p - 1].size + (nend - addr)) as usize };
    let r = s1.update(p - 1, m);
    assert forall|i: int, j: int| 0 <= i < j < r.len() implies #[trigger] r[i].end() < #[trigger] r[j].start by {
        if i == p - 1 {
            assert(r[j] == s1[j]);
        } else if j == p - 1 {
            assert(r[i] == s1[i]);
        } else {
            assert(r[i] == s1[i] && r[j] == s1[j]);
        }
    }
}

proof fn lemma_apart_place_new(s1: Seq<ListNode>, p: int, addr: int, nend: int)
    requires
        range_apart_at(s1, p, addr, nend),
        0 <= addr,
        p > 0 ==> s1[p - 1].end() < addr,
    ensures
        nodes_apart(s1.insert(p, ListNode { start: addr as usize, size: (nend - addr) as usize })),
{
    let m = ListNode { start: addr as usize, size: (nend - addr) as usize };
    let r = s1.insert(p, m);
    assert(m.start == addr && m.end() == nend);
    assert forall|i: int, j: int| 0 <= i < j < r.len() implies #[trigger] r[i].end() < #[trigger] r[j].start by {
        if j < p {
            assert(r[i] == s1[i] && r[j] == s1[j]);
        } else if j == p {
            assert(r[i] == s1[i]);
            if i < p - 1 {
                assert(node_ok(s1[p - 1]));
                assert(s1[i].end() < s1[p - 1].start);
            }
        } else if i == p {
            assert(r[j] == s1[j - 1]);
        } else if i < p {
            assert(r[i] == s1[i] && r[j] == s1[j - 1]);
        } else {
            assert(r[i] == s1[i - 1] && r[j] == s1[j - 1]);
        }
    }
}

/// Returning a free range to a list whose regions do not touch leaves a list
/// whose regions do not touch: the range is merged with a neighbour exactly
/// when it touches one.
pub proof fn lemma_insert_apart(s: Seq<ListNode>, addr: int, size: int)
    requires
        nodes_wf(s),
        nodes_apart(s),
        addr % NODE_ALIGN as int == 0,
        0 <= addr,
        addr + size <= usize::MAX,
        disjoint_from(s, addr, size),
    ensures
        nodes_apart(insert_spec(s, addr, size)),
{
    if size < NODE_SIZE {
        return;
    }
    lemma_fits(s, addr, size);
    let p = insert_pos(s, addr) as int;
    assert(align_up_spec(addr, NODE_ALIGN as int) == addr) by {
        vstd::arithmetic::div_mod::lemma_mod_adds(addr, 7, 8);
    }
    let merge_next = p < s.len() && addr + size == s[p].start;
    let s1 = if merge_next { s.remove(p) } else { s };
    let sz = if merge_next { size + s[p].size } else { size };
    let nend = addr + sz;
    if merge_next {
        lemma_absorb_next(s, p, addr, size);
        lemma_remove_apart(s, p);
        assert forall|j: int| p <= j < s1.len() implies nend < #[trigger] s1[j].start by {
            assert(s1[j] == s[j + 1]);
        }
    } else {
        assert forall|j: int| p <= j < s1.len() implies nend < #[trigger] s1[j].start by {
            if j > p {
                assert(node_ok(s[p]));
                assert(s[p].end() < s[j].start);
            }
        }
    }
    assert(range_apart_at(s1, p, addr, nend));
    if p > 0 && s1[p - 1].size > 0 && s1[p - 1].end() == addr {
        lemma_apart_extend_prev(s1, p, addr, nend);
    } else {
        if p > 0 {
            assert(node_ok(s1[p - 1]));
        }
        lemma_apart_place_new(s1, p, addr, nend);
    }
}

/// Where an allocation of `size` bytes aligned to `align` would start in
/// region `r`, if it fits: the aligned start must not overflow, the block
/// must end inside the region, and what is left after it must be either
/// nothing or large enough to hold a node.
pub open spec fn alloc_from_region_spec(r: ListNode, size: int, align: int) -> Option<int> {
    let a = align_up_spec(r.start as int, align);
    if a + size > usize::MAX {
        None
    } else if a + size > r.end() {
        None
    } else if r.end() - (a + size) > 0 && r.end() - (a + size) < NODE_SIZE {
        None
    } else {
        Some(a)
    }
}

/// Index of the first region in which the allocation fits (the length of
/// `s` when there is none).
pub open spec fn first_fit(s: Seq<ListNode>, size: int, align: int) -> nat
    decreases s.len(),
{
    if s.len() == 0 {
        0
    } else if alloc_from_region_spec(s[0], size, align) is Some {
        0
    } else {
        1 + first_fit(s.drop_first(), size, align)
    }
}

proof fn lemma_first_fit(s: Seq<ListNode>, size: int, align: int, p: int)
    requires
        0 <= p <= s.len(),
        forall|j: int| 0 <= j < p ==> alloc_from_region_spec(#[trigger] s[j], size, align) is None,
        p == s.len() || alloc_from_region_spec(s[p], size, align) is Some,
    ensures
        first_fit(s, size, align) == p,
    decreases s.len(),
{
    if s.len() > 0 && p > 0 {
        assert(alloc_from_region_spec(s[0], size, align) is None);
        let t = s.drop_first();
        assert forall|j: int| 0 <= j < p - 1 implies alloc_from_region_spec(#[trigger] t[j], size, align) is None by {
            assert(t[j] == s[j + 1]);
        }
        lemma_first_fit(t, size, align, p - 1);
    }
}

proof fn lemma_first_fit_none(s: Seq<ListNode>, size: int, align: int, j: int)
    requires
        first_fit(s, size, align) == s.len(),
        0 <= j < s.len(),
    ensures
        alloc_from_region_spec(s[j], size, align) is None,
    decreases s.len(),
{
    if j > 0 {
        let t = s.drop_first();
        assert(t[j - 1] == s[j]);
        lemma_first_fit_none(t, size, align, j - 1);
    }
}

proof fn lemma_first_fit_le(s: Seq<ListNode>, size: int, align: int)
    ensures
        first_fit(s, size, align) <= s.len(),
    decreases s.len(),
{
    if s.len() > 0 {
        lemma_first_fit_le(s.drop_first(), size, align);
    }
}

proof fn lemma_first_fit_some(s: Seq<ListNode>, size: int, align: int)
    requires
        first_fit(s, size, align) < s.len(),
    ensures
        alloc_from_region_spec(s[first_fit(s, size, align) as int], size, align) is Some,
    decreases s.len(),
{
    if alloc_from_region_spec(s[0], size, align) is None {
        let t = s.drop_first();
        lemma_first_fit_some(t, size, align);
        assert(t[first_fit(t, size, align) as int] == s[first_fit(s, size, align) as int]);
    }
}

/// The rounded-up value satisfies the characterisation of `is_align_up`.
proof fn is_align_up_of(addr: int, align: int)
    requires
        is_pow2(align),
        0 <= addr,
    ensures
        is_align_up(addr, align, align_up_spec(addr, align)),
{
    lemma_pow2_positive(align);
    let y = addr + align - 1;
    vstd::arithmetic::div_mod::lemma_fundamental_div_mod(y, align);
    vstd::arithmetic::div_mod::lemma_mod_bound(y, align);
    vstd::arithmetic::div_mod::lemma_mod_multiples_basic(y / align, align);
    assert(y - y % align == (y / align) * align) by (nonlinear_arith)
        requires y == align * (y / align) + y % align;
}

/// Every region's start can be rounded up to `align` without overflow.
pub open spec fn align_fits(s: Seq<ListNode>, align: int) -> bool {
    forall|i: int| 0 <= i < s.len() ==> #[trigger] s[i].start + align - 1 <= usize::MAX
}

/// The alignment actually used: at least that of a node.
pub open spec fn adjusted_align(align: int) -> int {
    if align > NODE_ALIGN { align } else { NODE_ALIGN as int }
}

/// The size actually reserved: the requested size padded to the adjusted
/// alignment, and at least a node's size so that the block can be returned.
pub open spec fn adjusted_size(size: int, align: int) -> int {
    let padded = align_up_spec(size, adjusted_align(align));
    if padded > NODE_SIZE { padded } else { NODE_SIZE as int }
}

/// A layout the allocator accepts: a power-of-two alignment and a size that
/// stays within `isize::MAX` once padded to the adjusted alignment.
pub open spec fn layout_ok(size: int, align: int) -> bool {
    &&& is_pow2(align)
    &&& 0 <= size
    &&& align_up_spec(size, adjusted_align(align)) <= isize::MAX
}

/// Taking region `i` out of a well-formed list leaves a well-formed list
/// whose free bytes are the old ones minus that region, and which shares no
/// byte with the region.
proof fn lemma_remove_node(s: Seq<ListNode>, i: int)
    requires
        nodes_wf(s),
        0 <= i < s.len(),
    ensures
        nodes_wf(s.remove(i)),
        disjoint_from(s.remove(i), s[i].start as int, s[i].size as int),
        forall|x: int| covers(s.remove(i), x) <==> covers(s, x) && !(s[i].start <= x < s[i].end()),
{
    let t = s.remove(i);
    assert forall|a: int, b: int| 0 <= a < b < t.len() implies #[trigger] t[a].end() <= #[trigger] t[b].start by {
        let aa = if a < i { a } else { a + 1 };
        let bb = if b < i { b } else { b + 1 };
        assert(t[a] == s[aa] && t[b] == s[bb]);
    }
    assert forall|a: int| 0 <= a < t.len() implies node_ok(#[trigger] t[a]) by {
        let aa = if a < i { a } else { a + 1 };
        assert(t[a] == s[aa]);
    }
    assert forall|a: int| 0 <= a < t.len() implies #[trigger] t[a].end() <= s[i].start || s[i].end() <= t[a].start by {
        let aa = if a < i { a } else { a + 1 };
        assert(t[a] == s[aa]);
    }
    assert forall|x: int| covers(t, x) <==> covers(s, x) && !(s[i].start <= x < s[i].end()) by {
        if covers(t, x) {
            let a = choose|a: int| 0 <= a < t.len() && #[trigger] t[a].start <= x && x < t[a].end();
            let aa = if a < i { a } else { a + 1 };
            assert(t[a] == s[aa]);
        }
        if covers(s, x) && !(s[i].start <= x < s[i].end()) {
            let a = choose|a: int| 0 <= a < s.len() && #[trigger] s[a].start <= x && x < s[a].end();
            let aa = if a < i { a } else { a - 1 };
            assert(t[aa] == s[a]);
        }
    }
}

/// The free list as a sequence of regions in address order.
pub struct LinkedListAllocator {
    nodes: Vec<ListNode>,
}

impl View for LinkedListAllocator {
    type V = Seq<ListNode>;

    closed spec fn view(&self) -> Seq<ListNode> {
        self.nodes@
    }
}

impl LinkedListAllocator {
    /// The list is sorted, made of usable nodes, and no two of them overlap
    /// or touch.
    pub open spec fn wf(&self) -> bool {
        nodes_wf(self@) && nodes_apart(self@)
    }

    /// The free regions in address order.
    pub fn regions(&self) -> (r: Vec<ListNode>)
        ensures
            r@ == self@,
    {
        self.nodes.clone()
    }

    /// Every free region's start can be rounded up to `align` without
    /// overflow.
    pub fn align_fits_all(&self, align: usize) -> (r: bool)
        ensures
            r == align_fits(self@, align as int),
    {
        let mut i: usize = 0;
        while i < self.nodes.len()
            invariant
                i <= self@.len(),
                forall|j: int| 0 <= j < i ==> #[trigger] self@[j].start + align - 1 <= usize::MAX,
            decreases self@.len() - i,
        {
            if align > 0 && self.nodes[i].start > usize::MAX - (align - 1) {
                return false;
            }
            i = i + 1;
        }
        true
    }

    /// `[addr, addr + size)` shares a byte with a free region.
    pub fn overlaps_free(&self, addr: usize, size: usize) -> (r: bool)
        ensures
            r == !disjoint_from(self@, addr as int, size as int),
    {
        let mut i: usize = 0;
        while i < self.nodes.len()
            invariant
                i <= self@.len(),
                forall|j: int| 0 <= j < i ==> #[trigger] self@[j].end() <= addr || addr + size <= self@[j].start,
            decreases self@.len() - i,
        {
            let n = self.nodes[i];
            let end = n.start as u128 + n.size as u128;
            if !(end <= addr as u128 || addr as u128 + size as u128 <= n.start as u128) {
                assert(!(self@[i as int].end() <= addr || addr + size <= self@[i as int].start));
                return true;
            }
            i = i + 1;
        }
        false
    }

    /// An allocator with no free memory.
    pub fn new() -> (a: LinkedListAllocator)
        ensures
            a@ == Seq::<ListNode>::empty(),
            a.wf(),
    {
        LinkedListAllocator { nodes: Vec::new() }
    }

    /// Hand the heap `[heap_start, heap_start + heap_size)` to the allocator:
    /// it becomes a single free region, starting at the first node-aligned
    /// address.
    pub fn init(&mut self, heap_start: usize, heap_size: usize)
        requires
            heap_start + heap_size <= usize::MAX,
            align_up_spec(heap_start as int, NODE_ALIGN as int) + NODE_SIZE <= heap_start + heap_size,
        ensures
            final(self)@ == seq![ListNode {
                start: align_up_spec(heap_start as int, NODE_ALIGN as int) as usize,
                size: (heap_size - (align_up_spec(heap_start as int, NODE_ALIGN as int) - heap_start)) as usize,
            }],
            final(self).wf(),
    {
        proof {
            assert(is_pow2(8)) by {
                vstd::arithmetic::power2::lemma2_to64();
                assert(vstd::arithmetic::power2::pow2(3) == 8);
            }
        }
        let aligned = align_up_usize(heap_start, NODE_ALIGN);
        let size = heap_size - (aligned - heap_start);
        let mut nodes = Vec::new();
        nodes.push(ListNode::new(aligned, size));
        self.nodes = nodes;
    }

    /// Return `[addr, addr + size)` to the free list (see `insert_spec`).
    fn insert_free_region(&mut self, addr: usize, size: usize)
        requires
            old(self).wf(),
            addr as int % NODE_ALIGN as int == 0,
            addr + size <= usize::MAX,
            disjoint_from(old(self)@, addr as int, size as int),
        ensures
            final(self)@ == insert_spec(old(self)@, addr as int, size as int),
            final(self).wf(),
            size >= NODE_SIZE ==> forall|x: int| covers(final(self)@, x) <==> (covers(old(self)@, x) || (addr <= x < addr + size)),
    {
        proof { lemma_pow2_8(); }
        let aligned = align_up_usize(addr, NODE_ALIGN);
        if size < NODE_SIZE {
            return;
        }
        let ghost s = self@;
        let mut p: usize = 0;
        while p < self.nodes.len() && self.nodes[p].start < addr
            invariant
                self@ == s,
                p <= s.len(),
                forall|j: int| 0 <= j < p ==> (#[trigger] s[j]).start < addr,
            decreases s.len() - p,
        {
            p = p + 1;
        }
        proof {
            lemma_insert_pos(s, addr as int, p as int);
            lemma_fits(s, addr as int, size as int);
        }
        let mut new_size = size;
        if p < self.nodes.len() && aligned + size == self.nodes[p].start {
            proof { assert(node_ok(s[p as int])); }
            new_size = size + self.nodes[p].size;
            self.nodes.remove(p);
        }
        if p > 0 && self.nodes[p - 1].size > 0 && self.nodes[p - 1].start + self.nodes[p - 1].size == aligned {
            let prev = self.nodes[p - 1];
            self.nodes.set(p - 1, ListNode { start: prev.start, size: prev.size + new_size });
        } else {
            self.nodes.insert(p, ListNode { start: aligned, size: new_size });
        }
        assert(self@ == insert_spec(s, addr as int, size as int));
        proof {
            lemma_insert_spec(s, addr as int, size as int);
            lemma_insert_apart(s, addr as int, size as int);
        }
    }

    /// Where an allocation would start in `region`, or `Err` when it does not
    /// fit there (see `alloc_from_region_spec`).
    fn alloc_from_region(region: &ListNode, size: usize, align: usize) -> (r: Result<usize, ()>)
        requires
            is_pow2(align as int),
            region.start + align - 1 <= usize::MAX,
            region.end() <= usize::MAX,
        ensures
            match r {
                Ok(a) => alloc_from_region_spec(*region, size as int, align as int) == Some(a as int),
                Err(_) => alloc_from_region_spec(*region, size as int, align as int) is None,
            },
    {
        let alloc_start = align_up_usize(region.start_addr(), align);
        let alloc_end = match alloc_start.checked_add(size) {
            Some(e) => e,
            None => return Err(()),
        };
        if alloc_end > region.end_addr() {
            return Err(());
        }
        let excess_size = region.end_addr() - alloc_end;
        if excess_size > 0 && excess_size < NODE_SIZE {
            return Err(());
        }
        Ok(alloc_start)
    }

    /// Take the first region in which the allocation fits out of the list,
    /// together with where the allocation starts in it.
    fn find_region(&mut self, size: usize, align: usize) -> (r: Option<(ListNode, usize)>)
        requires
            old(self).wf(),
            is_pow2(align as int),
            align_fits(old(self)@, align as int),
        ensures
            ({
                let s = old(self)@;
                let i = first_fit(s, size as int, align as int) as int;
                if i < s.len() {
                    &&& r == Some((s[i], alloc_from_region_spec(s[i], size as int, align as int)->0 as usize))
                    &&& final(self)@ == s.remove(i)
                } else {
                    &&& r is None
                    &&& final(self)@ == s
                }
            }),
    {
        let ghost s = self@;
        let mut i: usize = 0;
        while i < self.nodes.len()
            invariant
                self@ == s,
                old(self)@ == s,
                nodes_wf(s),
                is_pow2(align as int),
                align_fits(s, align as int),
                i <= s.len(),
                forall|j: int| 0 <= j < i ==> alloc_from_region_spec(#[trigger] s[j], size as int, align as int) is None,
            decreases s.len() - i,
        {
            proof { assert(node_ok(s[i as int])); }
            match Self::alloc_from_region(&self.nodes[i], size, align) {
                Ok(alloc_start) => {
                    proof { lemma_first_fit(s, size as int, align as int, i as int); }
                    let region = self.nodes.remove(i);
                    assert(alloc_from_region_spec(s[i as int], size as int, align as int)->0 as usize == alloc_start);
                    assert(first_fit(s, size as int, align as int) == i);
                    assert(region == s[i as int]);
                    assert(self@ == s.remove(i as int));
                    return Some((region, alloc_start));
                }
                Err(_) => {}
            }
            i = i + 1;
        }
        proof { lemma_first_fit(s, size as int, align as int, i as int); }
        assert(first_fit(s, size as int, align as int) == s.len());
        None
    }

    /// The size and alignment actually used for a request.
    fn size_align(size: usize, align: usize) -> (r: (usize, usize))
        requires
            layout_ok(size as int, align as int),
        ensures
            r.0 == adjusted_size(size as int, align as int),
            r.1 == adjusted_align(align as int),
            is_pow2(r.1 as int),
            r.0 as int % NODE_ALIGN as int == 0,
    {
        proof { lemma_pow2_8(); }
        let a = if align > NODE_ALIGN { align } else { NODE_ALIGN };
        proof {
            lemma_pow2_at_most_half(a as int);
            lemma_pow2_positive(a as int);
            let y = size + a - 1;
            vstd::arithmetic::div_mod::lemma_mod_bound(y, a as int);
        }
        let padded = align_up_usize(size, a);
        let s = if padded > NODE_SIZE { padded } else { NODE_SIZE };
        proof {
            if s != NODE_SIZE {
                is_align_up_of(size as int, a as int);
                lemma_pow2_multiple(a as int, 8, padded as int);
            }
        }
        (s, a)
    }

    /// Allocate `size` bytes aligned to `align`: the first region in which
    /// the padded request fits is taken out of the list and what remains
    /// after the block goes back in; `None` when no region fits.
    pub fn allocate(&mut self, size: usize, align: usize) -> (r: Option<usize>)
        requires
            old(self).wf(),
            layout_ok(size as int, align as int),
            align_fits(old(self)@, adjusted_align(align as int)),
        ensures
            final(self).wf(),
            ({
                let s = old(self)@;
                let sz = adjusted_size(size as int, align as int);
                let al = adjusted_align(align as int);
                let i = first_fit(s, sz, al) as int;
                if i < s.len() {
                    let a = alloc_from_region_spec(s[i], sz, al)->0;
                    &&& r == Some(a as usize)
                    &&& final(self)@ == after_alloc(s, i, a, sz)
                    &&& forall|x: int| covers(final(self)@, x) <==> covers(s, x) && !(s[i].start <= x < a + sz)
                } else {
                    &&& r is None
                    &&& final(self)@ == s
                }
            }),
            r is Some <==> exists|i: int| 0 <= i < old(self)@.len()
                && alloc_from_region_spec(#[trigger] old(self)@[i], adjusted_size(size as int, align as int),
                    adjusted_align(align as int)) is Some,
            r matches Some(a) ==> {
                &&& a as int % align as int == 0
                &&& forall|x: int| a <= x < a + size ==> covers(old(self)@, x) && !covers(final(self)@, x)
            },
    {
        let ghost s = self@;
        let (size2, align2) = Self::size_align(size, align);
        match self.find_region(size2, align2) {
            Some((region, alloc_start)) => {
                let ghost i = first_fit(s, size2 as int, align2 as int) as int;
                proof {
                    lemma_first_fit_some(s, size2 as int, align2 as int);
                    lemma_remove_node(s, i);
                    lemma_remove_apart(s, i);
                    assert(node_ok(s[i]));
                }
                let alloc_end = alloc_start + size2;
                let excess_size = region.end_addr() - alloc_end;
                proof {
                    is_align_up_of(region.start as int, align2 as int);
                    lemma_pow2_8();
                    lemma_pow2_multiple(align2 as int, 8, alloc_start as int);
                    vstd::arithmetic::div_mod::lemma_mod_adds(alloc_start as int, size2 as int, 8);
                    assert forall|j: int| 0 <= j < s.remove(i).len() implies
                        #[trigger] s.remove(i)[j].end() <= alloc_end || alloc_end + excess_size <= s.remove(i)[j].start by {
                    }
                }
                if excess_size > 0 {
                    self.insert_free_region(alloc_end, excess_size);
                }
                proof {
                    lemma_pow2_positive(align as int);
                    if align2 == align {
                    } else {
                        lemma_pow2_multiple(8, align as int, alloc_start as int);
                    }
                    assert(adjusted_size(size as int, align as int) >= size) by {
                        is_align_up_of(size as int, align2 as int);
                    }
                    assert(exists|j: int| 0 <= j < s.len() && alloc_from_region_spec(#[trigger] s[j], size2 as int, align2 as int) is Some) by {
                        assert(alloc_from_region_spec(s[i], size2 as int, align2 as int) is Some);
                    }
                }
                Some(alloc_start)
            }
            None => {
                proof {
                    lemma_first_fit_le(s, size2 as int, align2 as int);
                    assert forall|j: int| 0 <= j < s.len() implies alloc_from_region_spec(#[trigger] s[j], size2 as int, align2 as int) is None by {
                        lemma_first_fit_none(s, size2 as int, align2 as int, j);
                    }
                }
                None
            }
        }
    }

    /// Give back a block of `size` bytes at `addr` that was allocated with
    /// alignment `align`: the padded block returns to the free list.
    pub fn deallocate(&mut self, addr: usize, size: usize, align: usize)
        requires
            old(self).wf(),
            layout_ok(size as int, align as int),
            addr as int % NODE_ALIGN as int == 0,
            addr + adjusted_size(size as int, align as int) <= usize::MAX,
            disjoint_from(old(self)@, addr as int, adjusted_size(size as int, align as int)),
        ensures
            final(self).wf(),
            final(self)@ == insert_spec(old(self)@, addr as int, adjusted_size(size as int, align as int)),
            forall|x: int| covers(final(self)@, x) <==> (covers(old(self)@, x)
                || (addr <= x < addr + adjusted_size(size as int, align as int))),
    {
        let (size2, _) = Self::size_align(size, align);
        self.insert_free_region(addr, size2);
    }
}

/// The free list after taking an allocation out of region `i`: the region
/// leaves the list and what follows the block goes back in.
pub open spec fn after_alloc(s: Seq<ListNode>, i: int, a: int, sz: int) -> Seq<ListNode> {
    insert_spec(s.remove(i), a + sz, s[i].end() - (a + sz))
}

/// Taking a block of `sz` bytes at `a` out of region `i` (where it fits)
/// leaves a well-formed list whose free bytes are the old ones minus the
/// region's start up to the block's end.
proof fn lemma_alloc_state(s: Seq<ListNode>, i: int, sz: int, al: int)
    requires
        nodes_wf(s),
        0 <= i < s.len(),
        is_pow2(al),
        al >= NODE_ALIGN,
        sz % NODE_ALIGN as int == 0,
        sz >= 0,
        alloc_from_region_spec(s[i], sz, al) is Some,
    ensures
        ({
            let a = alloc_from_region_spec(s[i], sz, al)->0;
            &&& a % NODE_ALIGN as int == 0
            &&& s[i].start <= a
            &&& a + sz <= s[i].end()
            &&& nodes_wf(after_alloc(s, i, a, sz))
            &&& nodes_apart(s) ==> nodes_apart(after_alloc(s, i, a, sz))
            &&& forall|x: int| #[trigger] covers(after_alloc(s, i, a, sz), x) <==> covers(s, x) && !(s[i].start <= x < a + sz)
        }),
{
    let a = alloc_from_region_spec(s[i], sz, al)->0;
    let r = s[i];
    assert(node_ok(r));
    lemma_remove_node(s, i);
    is_align_up_of(r.start as int, al);
    lemma_pow2_8();
    lemma_pow2_multiple(al, 8, a);
    vstd::arithmetic::div_mod::lemma_mod_adds(a, sz, 8);
    let t = s.remove(i);
    let e = a + sz;
    let ex = r.end() - e;
    assert(r.start <= e && e + ex == r.end());
    if ex >= NODE_SIZE {
        assert(disjoint_from(t, e, ex)) by {
            assert forall|j: int| 0 <= j < t.len() implies #[trigger] t[j].end() <= e || e + ex <= t[j].start by {
                assert(t[j].end() <= r.start || r.end() <= t[j].start);
            }
        }
        lemma_insert_spec(t, e, ex);
        if nodes_apart(s) {
            lemma_remove_apart(s, i);
            lemma_insert_apart(t, e, ex);
        }
    } else if nodes_apart(s) {
        lemma_remove_apart(s, i);
    }
}

/// Freeing a block straight after allocating it gives all of its bytes
/// back: afterwards exactly the bytes free before are free, except those
/// skipped at the region's start to align the block.
pub proof fn lemma_alloc_then_free(s: Seq<ListNode>, size: int, align: int)
    requires
        nodes_wf(s),
        layout_ok(size, align),
        first_fit(s, adjusted_size(size, align), adjusted_align(align)) < s.len(),
    ensures
        ({
            let sz = adjusted_size(size, align);
            let i = first_fit(s, sz, adjusted_align(align)) as int;
            let a = alloc_from_region_spec(s[i], sz, adjusted_align(align))->0;
            let s1 = after_alloc(s, i, a, sz);
            &&& a % NODE_ALIGN as int == 0
            &&& a + sz <= usize::MAX
            &&& disjoint_from(s1, a, sz)
            &&& nodes_wf(insert_spec(s1, a, sz))
            &&& forall|x: int| covers(insert_spec(s1, a, sz), x) <==> covers(s, x) && !(s[i].start <= x < a)
        }),
{
    let sz = adjusted_size(size, align);
    let al = adjusted_align(align);
    lemma_pow2_8();
    lemma_first_fit_some(s, sz, al);
    let i = first_fit(s, sz, al) as int;
    let a = alloc_from_region_spec(s[i], sz, al)->0;
    // the adjusted size is a multiple of eight and at least a node
    assert(sz % 8 == 0 && sz >= NODE_SIZE) by {
        if sz != NODE_SIZE {
            is_align_up_of(size, al);
            lemma_pow2_multiple(al, 8, align_up_spec(size, al));
        }
    }
    lemma_alloc_state(s, i, sz, al);
    let s1 = after_alloc(s, i, a, sz);
    assert(node_ok(s[i]));
    assert(disjoint_from(s1, a, sz)) by {
        assert forall|j: int| 0 <= j < s1.len() implies #[trigger] s1[j].end() <= a || a + sz <= s1[j].start by {
            assert(node_ok(s1[j]));
            if !(s1[j].end() <= a || a + sz <= s1[j].start) {
                let x = if s1[j].start > a { s1[j].start as int } else { a };
                assert(s1[j].start <= x && x < s1[j].end());
                assert(covers(s1, x));
                assert(covers(s, x) && !(s[i].start <= x < a + sz));
                assert(false);
            }
        }
    }
    lemma_insert_spec(s1, a, sz);
    assert forall|x: int| covers(insert_spec(s1, a, sz), x) <==> covers(s, x) && !(s[i].start <= x < a) by {
        if a <= x < a + sz {
            assert(s[i].start <= x && x < s[i].end());
            assert(covers(s, x));
        }
    }
}

/// The regions after the first of a list whose regions do not touch: they
/// cover exactly the free bytes past the first region.
proof fn lemma_tail_covers(s: Seq<ListNode>)
    requires
        nodes_wf(s),
        nodes_apart(s),
        s.len() > 0,
    ensures
        nodes_wf(s.drop_first()),
        nodes_apart(s.drop_first()),
        forall|x: int| covers(s.drop_first(), x) <==> covers(s, x) && x >= s[0].end(),
{
    let t = s.drop_first();
    assert forall|a: int| 0 <= a < t.len() implies node_ok(#[trigger] t[a]) by {
        assert(t[a] == s[a + 1]);
    }
    assert forall|a: int, b: int| 0 <= a < b < t.len() implies #[trigger] t[a].end() <= #[trigger] t[b].start by {
        assert(t[a] == s[a + 1] && t[b] == s[b + 1]);
    }
    assert forall|a: int, b: int| 0 <= a < b < t.len() implies #[trigger] t[a].end() < #[trigger] t[b].start by {
        assert(t[a] == s[a + 1] && t[b] == s[b + 1]);
    }
    assert forall|x: int| covers(t, x) <==> covers(s, x) && x >= s[0].end() by {
        if covers(t, x) {
            let a = choose|a: int| 0 <= a < t.len() && #[trigger] t[a].start <= x && x < t[a].end();
            assert(t[a] == s[a + 1]);
            assert(s[0].end() < s[a + 1].start);
        }
        if covers(s, x) && x >= s[0].end() {
            let a = choose|a: int| 0 <= a < s.len() && #[trigger] s[a].start <= x && x < s[a].end();
            assert(a != 0);
            assert(t[a - 1] == s[a]);
        }
    }
}

/// A free list whose regions do not touch is determined by its free bytes:
/// two such lists with the same free bytes are the same list.
pub proof fn lemma_free_list_unique(s: Seq<ListNode>, t: Seq<ListNode>)
    requires
        nodes_wf(s),
        nodes_apart(s),
        nodes_wf(t),
        nodes_apart(t),
        forall|x: int| covers(s, x) <==> covers(t, x),
    ensures
        s == t,
    decreases s.len(),
{
    if s.len() == 0 || t.len() == 0 {
        if t.len() > 0 {
            assert(node_ok(t[0]));
            assert(covers(t, t[0].start as int));
        }
        if s.len() > 0 {
            assert(node_ok(s[0]));
            assert(covers(s, s[0].start as int));
        }
        assert(s =~= t);
    } else {
        let a = s[0];
        let b = t[0];
        assert(node_ok(a) && node_ok(b));
        // the first regions start at the lowest free byte
        assert(covers(t, b.start as int));
        assert(covers(s, a.start as int));
        assert(a.start <= b.start) by {
            let i = choose|i: int| 0 <= i < s.len() && #[trigger] s[i].start <= b.start && b.start < s[i].end();
            if i > 0 {
                assert(s[0].end() <= s[i].start);
            }
        }
        assert(b.start <= a.start) by {
            let i = choose|i: int| 0 <= i < t.len() && #[trigger] t[i].start <= a.start && a.start < t[i].end();
            if i > 0 {
                assert(t[0].end() <= t[i].start);
            }
        }
        // and end at the first byte after it that is not free
        assert(a.end() == b.end()) by {
            if a.end() < b.end() {
                let x = a.end();
                assert(t[0].start <= x && x < t[0].end());
                assert(covers(t, x));
                let i = choose|i: int| 0 <= i < s.len() && #[trigger] s[i].start <= x && x < s[i].end();
                if i > 0 {
                    assert(s[0].end() < s[i].start);
                }
            }
            if b.end() < a.end() {
                let x = b.end();
                assert(s[0].start <= x && x < s[0].end());
                assert(covers(s, x));
                let i = choose|i: int| 0 <= i < t.len() && #[trigger] t[i].start <= x && x < t[i].end();
                if i > 0 {
                    assert(t[0].end() < t[i].start);
                }
            }
        }
        assert(a == b);
        lemma_tail_covers(s);
        lemma_tail_covers(t);
        assert forall|x: int| covers(s.drop_first(), x) <==> covers(t.drop_first(), x) by {
            assert(covers(s.drop_first(), x) <==> covers(s, x) && x >= s[0].end());
            assert(covers(t.drop_first(), x) <==> covers(t, x) && x >= t[0].end());
            assert(covers(s, x) <==> covers(t, x));
        }
        lemma_free_list_unique(s.drop_first(), t.drop_first());
        assert(s =~= t) by {
            assert forall|k: int| 0 <= k < s.len() implies s[k] == t[k] by {
                if k > 0 {
                    assert(s[k] == s.drop_first()[k - 1]);
                    assert(t[k] == t.drop_first()[k - 1]);
                }
            }
        }
    }
}

/// Freeing a block straight after allocating it restores the free list
/// itself, region for region, whenever the block began at the start of the
/// region it came from; that is always so for alignments up to a node's.
pub proof fn lemma_alloc_then_free_regions(s: Seq<ListNode>, size: int, align: int)
    requires
        nodes_wf(s),
        nodes_apart(s),
        layout_ok(size, align),
        first_fit(s, adjusted_size(size, align), adjusted_align(align)) < s.len(),
    ensures
        ({
            let sz = adjusted_size(size, align);
            let i = first_fit(s, sz, adjusted_align(align)) as int;
            let a = alloc_from_region_spec(s[i], sz, adjusted_align(align))->0;
            &&& align <= NODE_ALIGN ==> a == s[i].start
            &&& a == s[i].start ==> insert_spec(after_alloc(s, i, a, sz), a, sz) == s
        }),
{
    let sz = adjusted_size(size, align);
    let al = adjusted_align(align);
    lemma_alloc_then_free(s, size, align);
    lemma_first_fit_some(s, sz, al);
    let i = first_fit(s, sz, al) as int;
    let a = alloc_from_region_spec(s[i], sz, al)->0;
    assert(node_ok(s[i]));
    if align <= NODE_ALIGN {
        assert(align_up_spec(s[i].start as int, NODE_ALIGN as int) == s[i].start) by {
            vstd::arithmetic::div_mod::lemma_mod_adds(s[i].start as int, 7, 8);
        }
    }
    if a == s[i].start {
        lemma_pow2_8();
        assert(sz % 8 == 0 && sz >= NODE_SIZE) by {
            if sz != NODE_SIZE {
                is_align_up_of(size, al);
                lemma_pow2_multiple(al, 8, align_up_spec(size, al));
            }
        }
        lemma_alloc_state(s, i, sz, al);
        let s1 = after_alloc(s, i, a, sz);
        lemma_insert_apart(s1, a, sz);
        let r = insert_spec(s1, a, sz);
        assert forall|x: int| covers(r, x) <==> covers(s, x) by {}
        lemma_free_list_unique(r, s);
    }
}

/// No free byte lies in any of the blocks in use (each a start and a size).
pub open spec fn free_apart_from(s: Seq<ListNode>, live: Seq<(int, int)>) -> bool {
    forall|k: int, x: int| #![trigger live[k], covers(s, x)]
        0 <= k < live.len() && live[k].0 <= x < live[k].0 + live[k].1 ==> !covers(s, x)
}

/// The blocks in use share no byte with each other.
pub open spec fn blocks_disjoint(live: Seq<(int, int)>) -> bool {
    forall|k: int, l: int| #![trigger live[k], live[l]]
        0 <= k < live.len() && 0 <= l < live.len() && k != l
            ==> live[k].0 + live[k].1 <= live[l].0 || live[l].0 + live[l].1 <= live[k].0
}

/// An allocation never hands out a byte of a block still in use: when no
/// free byte lies in a block in use, the new block overlaps none of them,
/// and afterwards no free byte lies in any of them or in the new block.
pub proof fn lemma_alloc_avoids_live(s: Seq<ListNode>, live: Seq<(int, int)>, size: int, align: int)
    requires
        nodes_wf(s),
        layout_ok(size, align),
        free_apart_from(s, live),
        forall|k: int| 0 <= k < live.len() ==> (#[trigger] live[k]).1 > 0,
        first_fit(s, adjusted_size(size, align), adjusted_align(align)) < s.len(),
    ensures
        ({
            let sz = adjusted_size(size, align);
            let al = adjusted_align(align);
            let i = first_fit(s, sz, al) as int;
            let a = alloc_from_region_spec(s[i], sz, al)->0;
            &&& blocks_disjoint(live) ==> blocks_disjoint(live.push((a, sz)))
            &&& forall|k: int| 0 <= k < live.len() ==> #[trigger] live[k].0 + live[k].1 <= a || a + sz <= live[k].0
            &&& free_apart_from(after_alloc(s, i, a, sz), live.push((a, sz)))
        }),
{
    let sz = adjusted_size(size, align);
    let al = adjusted_align(align);
    let i = first_fit(s, sz, al) as int;
    lemma_pow2_8();
    lemma_first_fit_some(s, sz, al);
    assert(sz % 8 == 0 && sz >= NODE_SIZE) by {
        if sz != NODE_SIZE {
            is_align_up_of(size, al);
            lemma_pow2_multiple(al, 8, align_up_spec(size, al));
        }
    }
    lemma_alloc_state(s, i, sz, al);
    let a = alloc_from_region_spec(s[i], sz, al)->0;
    let s1 = after_alloc(s, i, a, sz);
    assert forall|k: int| 0 <= k < live.len() implies #[trigger] live[k].0 + live[k].1 <= a || a + sz <= live[k].0 by {
        if !(live[k].0 + live[k].1 <= a || a + sz <= live[k].0) {
            let x = if live[k].0 > a { live[k].0 } else { a };
            assert(s[i].start <= x && x < s[i].end());
            assert(covers(s, x));
        }
    }
    let l2 = live.push((a, sz));
    assert forall|k: int, x: int| #![trigger l2[k], covers(s1, x)]
        0 <= k < l2.len() && l2[k].0 <= x < l2[k].0 + l2[k].1 implies !covers(s1, x) by {
        if k < live.len() {
            assert(l2[k] == live[k]);
        }
    }
    if blocks_disjoint(live) {
        assert forall|k: int, l: int| #![trigger l2[k], l2[l]]
            0 <= k < l2.len() && 0 <= l < l2.len() && k != l
                implies l2[k].0 + l2[k].1 <= l2[l].0 || l2[l].0 + l2[l].1 <= l2[k].0 by {
            if k < live.len() {
                assert(l2[k] == live[k]);
            }
            if l < live.len() {
                assert(l2[l] == live[l]);
            }
        }
    }
}

/// Freeing block `j` of the blocks in use (which do not overlap) returns its
/// bytes and no others: afterwards no free byte lies in the blocks still in
/// use.
pub proof fn lemma_free_avoids_live(s: Seq<ListNode>, live: Seq<(int, int)>, j: int)
    requires
        nodes_wf(s),
        free_apart_from(s, live),
        blocks_disjoint(live),
        0 <= j < live.len(),
        live[j].0 % NODE_ALIGN as int == 0,
        0 <= live[j].0,
        NODE_SIZE <= live[j].1,
        live[j].0 + live[j].1 <= usize::MAX,
    ensures
        disjoint_from(s, live[j].0, live[j].1),
        free_apart_from(insert_spec(s, live[j].0, live[j].1), live.remove(j)),
{
    let (addr, size) = live[j];
    assert forall|q: int| 0 <= q < s.len() implies #[trigger] s[q].end() <= addr || addr + size <= s[q].start by {
        if !(s[q].end() <= addr || addr + size <= s[q].start) {
            let x = if s[q].start > addr { s[q].start as int } else { addr };
            assert(s[q].start <= x && x < s[q].end());
            assert(covers(s, x));
            assert(live[j].0 <= x < live[j].0 + live[j].1);
        }
    }
    lemma_insert_spec(s, addr, size);
    let r = insert_spec(s, addr, size);
    let l2 = live.remove(j);
    assert forall|k: int, x: int| #![trigger l2[k], covers(r, x)]
        0 <= k < l2.len() && l2[k].0 <= x < l2[k].0 + l2[k].1 implies !covers(r, x) by {
        let kk = if k < j { k } else { k + 1 };
        assert(l2[k] == live[kk]);
        assert(!covers(s, x));
        assert(live[kk].0 + live[kk].1 <= live[j].0 || live[j].0 + live[j].1 <= live[kk].0);
    }
}

/// What holds of the heap between calls, for the free regions `s` and the
/// blocks in use `live` of a heap spanning `[lo, hi)`: the free list is well
/// formed with no two regions touching, every free byte and every block in
/// use lies in the heap, the blocks in use do not overlap, and no free byte
/// lies in a block in use.
pub open spec fn heap_inv(s: Seq<ListNode>, live: Seq<(int, int)>, lo: int, hi: int) -> bool {
    &&& nodes_wf(s)
    &&& nodes_apart(s)
    &&& forall|x: int| #[trigger] covers(s, x) ==> lo <= x < hi
    &&& forall|k: int| 0 <= k < live.len() ==> lo <= (#[trigger] live[k]).0 && live[k].0 + live[k].1 <= hi && live[k].1 > 0
    &&& blocks_disjoint(live)
    &&& free_apart_from(s, live)
}

/// `init` starts the heap invariant, with no block in use.
pub proof fn lemma_heap_inv_init(heap_start: int, heap_size: int)
    requires
        0 <= heap_start,
        heap_start + heap_size <= usize::MAX,
        align_up_spec(heap_start, NODE_ALIGN as int) + NODE_SIZE <= heap_start + heap_size,
    ensures
        heap_inv(seq![ListNode {
            start: align_up_spec(heap_start, NODE_ALIGN as int) as usize,
            size: (heap_size - (align_up_spec(heap_start, NODE_ALIGN as int) - heap_start)) as usize,
        }], Seq::empty(), heap_start, heap_start + heap_size),
{
    lemma_pow2_8();
    is_align_up_of(heap_start, 8);
    let s = seq![ListNode {
        start: align_up_spec(heap_start, NODE_ALIGN as int) as usize,
        size: (heap_size - (align_up_spec(heap_start, NODE_ALIGN as int) - heap_start)) as usize,
    }];
    assert(node_ok(s[0]));
    assert forall|x: int| #[trigger] covers(s, x) implies heap_start <= x < heap_start + heap_size by {
        let i = choose|i: int| 0 <= i < s.len() && #[trigger] s[i].start <= x && x < s[i].end();
        assert(i == 0);
    }
}

/// An allocation that succeeds returns a block aligned as asked, inside the
/// heap, overlapping no block in use; with it added to the blocks in use
/// the invariant holds of the free list afterwards.
pub proof fn lemma_heap_inv_alloc(s: Seq<ListNode>, live: Seq<(int, int)>, lo: int, hi: int, size: int, align: int)
    requires
        heap_inv(s, live, lo, hi),
        layout_ok(size, align),
        first_fit(s, adjusted_size(size, align), adjusted_align(align)) < s.len(),
    ensures
        ({
            let sz = adjusted_size(size, align);
            let al = adjusted_align(align);
            let i = first_fit(s, sz, al) as int;
            let a = alloc_from_region_spec(s[i], sz, al)->0;
            &&& a % align == 0
            &&& size <= sz
            &&& lo <= a && a + sz <= hi
            &&& forall|k: int| 0 <= k < live.len() ==> #[trigger] live[k].0 + live[k].1 <= a || a + sz <= live[k].0
            &&& heap_inv(after_alloc(s, i, a, sz), live.push((a, sz)), lo, hi)
        }),
{
    let sz = adjusted_size(size, align);
    let al = adjusted_align(align);
    let i = first_fit(s, sz, al) as int;
    lemma_pow2_8();
    lemma_first_fit_some(s, sz, al);
    let a = alloc_from_region_spec(s[i], sz, al)->0;
    assert(node_ok(s[i]));
    lemma_pow2_positive(align);
    assert(sz % 8 == 0 && sz >= NODE_SIZE && sz >= size) by {
        is_align_up_of(size, al);
        if sz != NODE_SIZE {
            lemma_pow2_multiple(al, 8, align_up_spec(size, al));
        }
    }
    lemma_alloc_state(s, i, sz, al);
    lemma_alloc_avoids_live(s, live, size, align);
    is_align_up_of(s[i].start as int, al);
    if al != align {
        lemma_pow2_multiple(8, align, a);
    }
    // the block lies in region `i`, so inside the heap
    assert(covers(s, s[i].start as int));
    assert(covers(s, s[i].end() - 1));
    let s1 = after_alloc(s, i, a, sz);
    let l2 = live.push((a, sz));
    assert forall|x: int| #[trigger] covers(s1, x) implies lo <= x < hi by {
        assert(covers(s, x));
    }
    assert forall|k: int| 0 <= k < l2.len() implies lo <= (#[trigger] l2[k]).0 && l2[k].0 + l2[k].1 <= hi && l2[k].1 > 0 by {
        if k < live.len() {
            assert(l2[k] == live[k]);
        }
    }
}

/// Freeing block `j` of the blocks in use keeps the invariant, with the
/// block no longer in use, provided the block is one the allocator could
/// have handed out (aligned to a node, at least a node long).
pub proof fn lemma_heap_inv_free(s: Seq<ListNode>, live: Seq<(int, int)>, lo: int, hi: int, j: int)
    requires
        heap_inv(s, live, lo, hi),
        0 <= j < live.len(),
        live[j].0 % NODE_ALIGN as int == 0,
        NODE_SIZE <= live[j].1,
        0 <= lo,
        hi <= usize::MAX,
    ensures
        heap_inv(insert_spec(s, live[j].0, live[j].1), live.remove(j), lo, hi),
{
    let (addr, size) = live[j];
    lemma_free_avoids_live(s, live, j);
    lemma_insert_spec(s, addr, size);
    lemma_insert_apart(s, addr, size);
    let r = insert_spec(s, addr, size);
    let l2 = live.remove(j);
    assert forall|x: int| #[trigger] covers(r, x) implies lo <= x < hi by {
        if !(addr <= x < addr + size) {
            assert(covers(s, x));
        }
    }
    assert forall|k: int| 0 <= k < l2.len() implies lo <= (#[trigger] l2[k]).0 && l2[k].0 + l2[k].1 <= hi && l2[k].1 > 0 by {
        let kk = if k < j { k } else { k + 1 };
        assert(l2[k] == live[kk]);
    }
    assert forall|k: int, l: int| #![trigger l2[k], l2[l]]
        0 <= k < l2.len() && 0 <= l < l2.len() && k != l
            implies l2[k].0 + l2[k].1 <= l2[l].0 || l2[l].0 + l2[l].1 <= l2[k].0 by {
        let kk = if k < j { k } else { k + 1 };
        let ll = if l < j { l } else { l + 1 };
        assert(l2[k] == live[kk] && l2[l] == live[ll]);
    }
}

} // verus!
