//! Physical frame allocator fed by the firmware's E820 memory map.
use vstd::prelude::*;
use crate::align::{align_up_spec, align_up_u64, is_pow2, lemma_pow2_positive};

verus! {

/// Size of a physical frame.
pub const PAGE_SIZE: u64 = 4096;
/// Usable memory below this address is never handed out.
pub const LOW_MEMORY_END: u64 = 0x0010_0000;
/// Memory below this address holds the kernel image.
pub const KERNEL_END: u64 = 0x0020_0000;
/// E820 type of usable RAM.
pub const E820_USABLE: u32 = 1;

/// One entry of the firmware memory map.
#[derive(Clone, Copy, Debug, PartialEq, Eq, Structural)]
pub struct E820Entry {
    pub base: u64,
    pub length: u64,
    pub kind: u32,
    pub _ext: u32,
}

/// The largest usable region at or above 1 MiB among `s`, as (base, length);
/// the earliest one wins a tie, and (0, 0) stands for none.
pub open spec fn best_region(s: Seq<E820Entry>) -> (u64, u64)
    decreases s.len(),
{
    if s.len() == 0 {
        (0, 0)
    } else {
        let (b, l) = best_region(s.drop_last());
        let e = s.last();
        if e.kind == E820_USABLE && e.base >= LOW_MEMORY_END && e.length > l {
            (e.base, e.length)
        } else {
            (b, l)
        }
    }
}

/// Entry `e` is usable memory at or above 1 MiB.
pub open spec fn candidate(e: E820Entry) -> bool {
    e.kind == E820_USABLE && e.base >= LOW_MEMORY_END
}

/// The region chosen from the memory map is the largest one: when some
/// usable entry at or above 1 MiB has memory, the choice is such an entry,
/// no such entry is longer, and every such entry before it is shorter (the
/// earliest wins a tie); otherwise nothing (length 0) is chosen.
pub proof fn lemma_best_region_largest(s: Seq<E820Entry>)
    ensures
        ({
            let (b, l) = best_region(s);
            &&& forall|j: int| 0 <= j < s.len() && candidate(#[trigger] s[j]) ==> s[j].length <= l
            &&& l == 0 ==> b == 0
            &&& l > 0 ==> exists|i: int| 0 <= i < s.len() && candidate(#[trigger] s[i])
                && s[i].base == b && s[i].length == l
                && forall|j: int| 0 <= j < i && candidate(#[trigger] s[j]) ==> s[j].length < l
        }),
    decreases s.len(),
{
    if s.len() > 0 {
        let t = s.drop_last();
        lemma_best_region_largest(t);
        let (b0, l0) = best_region(t);
        let (b, l) = best_region(s);
        let n = s.len() - 1;
        assert forall|j: int| 0 <= j < s.len() && candidate(#[trigger] s[j]) implies s[j].length <= l by {
            if j < n {
                assert(s[j] == t[j]);
            }
        }
        if l > 0 {
            if candidate(s[n]) && s[n].length > l0 {
                assert forall|j: int| 0 <= j < n && candidate(#[trigger] s[j]) implies s[j].length < l by {
                    assert(s[j] == t[j]);
                }
            } else {
                let i = choose|i: int| 0 <= i < t.len() && candidate(#[trigger] t[i])
                    && t[i].base == b0 && t[i].length == l0
                    && forall|j: int| 0 <= j < i && candidate(#[trigger] t[j]) ==> t[j].length < l0;
                assert(s[i] == t[i]);
                assert forall|j: int| 0 <= j < i && candidate(#[trigger] s[j]) implies s[j].length < l by {
                    assert(s[j] == t[j]);
                }
            }
        }
    }
}

/// The chosen region with the kernel image cut off its front, as
/// (base, length), or `None` when nothing usable is left.
pub open spec fn usable_region(s: Seq<E820Entry>) -> Option<(u64, u64)> {
    let (b, l) = best_region(s);
    if l == 0 {
        None
    } else if b < KERNEL_END {
        if l <= KERNEL_END - b {
            None
        } else {
            Some((KERNEL_END, (l - (KERNEL_END - b)) as u64))
        }
    } else {
        Some((b, l))
    }
}

/// The chosen region can be addressed without overflow.
pub open spec fn region_addressable(s: Seq<E820Entry>) -> bool {
    let (b, l) = best_region(s);
    l > 0 ==> b + l <= u64::MAX && b + PAGE_SIZE - 1 <= u64::MAX
}

/// Frames are handed out from `current` upwards while they fit below `end`.
pub struct PhysicalMemoryManager {
    current: u64,
    end: u64,
}

impl View for PhysicalMemoryManager {
    type V = (u64, u64);

    /// (next free frame, end of the managed region)
    closed spec fn view(&self) -> (u64, u64) {
        (self.current, self.end)
    }
}

/// One frame allocation from the state (current, end): the frame and the
/// next state.
pub open spec fn alloc_frame_spec(st: (u64, u64)) -> (Option<u64>, (u64, u64)) {
    if st.0 + PAGE_SIZE > st.1 {
        (None, st)
    } else {
        (Some(st.0), ((st.0 + PAGE_SIZE) as u64, st.1))
    }
}

proof fn lemma_page_size_pow2()
    ensures
        is_pow2(PAGE_SIZE as int),
{
    vstd::arithmetic::power2::lemma2_to64();
    assert(vstd::arithmetic::power2::pow2(12) == 4096);
}

impl PhysicalMemoryManager {
    /// Build the manager over the largest usable region of the memory map at
    /// or above 1 MiB, skipping the first 2 MiB (the kernel image) and
    /// starting at a page boundary. `None` when no usable memory remains.
    pub fn new(e820: &[E820Entry]) -> (r: Option<PhysicalMemoryManager>)
        requires
            region_addressable(e820@),
        ensures
            match usable_region(e820@) {
                None => r is None,
                Some((b, l)) => r matches Some(p) && p@ == (align_up_spec(b as int, PAGE_SIZE as int) as u64, (b + l) as u64),
            },
            r matches Some(p) ==> p@.0 % PAGE_SIZE == 0 && p@.0 >= KERNEL_END,
    {
        let mut best_base: u64 = 0;
        let mut best_len: u64 = 0;
        let mut i: usize = 0;
        while i < e820.len()
            invariant
                i <= e820@.len(),
                (best_base, best_len) == best_region(e820@.subrange(0, i as int)),
            decreases e820@.len() - i,
        {
            let e = e820[i];
            proof {
                assert(e820@.subrange(0, i + 1).drop_last() == e820@.subrange(0, i as int));
            }
            if e.kind == E820_USABLE && e.base >= LOW_MEMORY_END {
                if e.length > best_len {
                    best_base = e.base;
                    best_len = e.length;
                }
            }
            i = i + 1;
        }
        assert(e820@.subrange(0, i as int) == e820@);
        if best_len == 0 {
            return None;
        }
        let kernel_end = KERNEL_END;
        if best_base < kernel_end {
            let diff = kernel_end - best_base;
            if best_len <= diff {
                return None;
            }
            best_base = kernel_end;
            best_len -= diff;
        }
        proof {
            lemma_page_size_pow2();
        }
        let start = align_up_u64(best_base, PAGE_SIZE);
        let end = best_base + best_len;
        assert(best_base >= KERNEL_END);
        Some(PhysicalMemoryManager { current: start, end })
    }

    /// The next free frame and the end of the managed region.
    pub fn get_state(&self) -> (r: (u64, u64))
        ensures
            r == self@,
    {
        (self.current, self.end)
    }

    /// Move the next free frame to `new_current`.
    pub fn advance_to(&mut self, new_current: u64)
        ensures
            final(self)@ == (new_current, old(self)@.1),
    {
        self.current = new_current;
    }

    /// Hand out the next frame, or `None` when a whole frame no longer fits
    /// below the end.
    pub fn alloc_frame(&mut self) -> (r: Option<u64>)
        requires
            old(self)@.0 + PAGE_SIZE <= u64::MAX,
        ensures
            (r, final(self)@) == alloc_frame_spec(old(self)@),
    {
        if self.current + PAGE_SIZE > self.end {
            return None;
        }
        let frame = self.current;
        self.current += PAGE_SIZE;
        Some(frame)
    }
}

/// Two frames handed out one after the other do not overlap: the second
/// starts at least a page after the first, both lie inside the region, and
/// from a page-aligned start both are page-aligned.
pub proof fn lemma_frames_disjoint(st: (u64, u64))
    requires
        st.0 + 2 * PAGE_SIZE <= u64::MAX,
    ensures
        ({
            let (f1, st1) = alloc_frame_spec(st);
            let (f2, st2) = alloc_frame_spec(st1);
            &&& f1 matches Some(a) ==> st.0 <= a && a + PAGE_SIZE <= st.1
            &&& st.0 % PAGE_SIZE == 0 ==> (f1 matches Some(a) ==> a % PAGE_SIZE == 0) && (f2 matches Some(b) ==> b % PAGE_SIZE == 0)
            &&& (f1 is Some && f2 is Some) ==> f1->0 + PAGE_SIZE <= f2->0 && f2->0 + PAGE_SIZE <= st.1
            &&& f1 is None ==> f2 is None
        }),
{
}

/// Results and state of `k` calls of `alloc_frame` in a row from `st`.
pub open spec fn alloc_frames_spec(st: (u64, u64), k: nat) -> (Seq<Option<u64>>, (u64, u64))
    decreases k,
{
    if k == 0 {
        (Seq::empty(), st)
    } else {
        let (rs, st1) = alloc_frames_spec(st, (k - 1) as nat);
        let (r, st2) = alloc_frame_spec(st1);
        (rs.push(r), st2)
    }
}

/// How many whole frames fit between the cursor and the end.
pub open spec fn frames_left(st: (u64, u64)) -> int {
    if st.0 <= st.1 { (st.1 - st.0) / PAGE_SIZE as int } else { 0 }
}

/// The `i`-th frame from the cursor on.
pub open spec fn frame_at(st: (u64, u64), i: int) -> int {
    st.0 + PAGE_SIZE * i
}

proof fn lemma_frame_at(st: (u64, u64), i: int)
    requires
        0 <= i < frames_left(st),
    ensures
        frame_at(st, i) + PAGE_SIZE <= st.1,
        st.0 % PAGE_SIZE == 0 ==> frame_at(st, i) % PAGE_SIZE as int == 0,
{
    let f = frames_left(st);
    vstd::arithmetic::div_mod::lemma_fundamental_div_mod((st.1 - st.0) as int, PAGE_SIZE as int);
    assert(PAGE_SIZE * i + PAGE_SIZE <= PAGE_SIZE * f) by (nonlinear_arith) requires i < f;
    vstd::arithmetic::div_mod::lemma_mod_multiples_vanish(i, st.0 as int, PAGE_SIZE as int);
    assert(PAGE_SIZE * i == i * PAGE_SIZE) by (nonlinear_arith);
}

/// `k` calls of `alloc_frame` in a row: call `i` gives the frame a page
/// after the one before, `st.0 + 4096 * i`, as long as that whole frame
/// lies below the end, and `None` from then on (once a call gives `None`,
/// every later one does). Every frame given lies inside the region, and is
/// page-aligned when the cursor was; the cursor ends past the last one.
pub proof fn lemma_frames_in_sequence(st: (u64, u64), k: nat)
    ensures
        ({
            let (rs, stk) = alloc_frames_spec(st, k);
            let n = if k <= frames_left(st) { k as int } else { frames_left(st) };
            &&& rs.len() == k
            &&& forall|i: int| 0 <= i < k ==> {
                &&& #[trigger] rs[i] == (if i < frames_left(st) { Some(frame_at(st, i) as u64) } else { None::<u64> })
                &&& i < frames_left(st) ==> frame_at(st, i) + PAGE_SIZE <= st.1
                &&& i < frames_left(st) && st.0 % PAGE_SIZE == 0 ==> frame_at(st, i) % PAGE_SIZE as int == 0
            }
            &&& stk == (frame_at(st, n) as u64, st.1)
        }),
    decreases k,
{
    let f = frames_left(st);
    if k > 0 {
        lemma_frames_in_sequence(st, (k - 1) as nat);
        let (rs1, st1) = alloc_frames_spec(st, (k - 1) as nat);
        let (rs, stk) = alloc_frames_spec(st, k);
        let j = k - 1;
        if j < f {
            lemma_frame_at(st, j);
            assert(st1.0 == frame_at(st, j));
            assert(frame_at(st, j + 1) == frame_at(st, j) + PAGE_SIZE) by (nonlinear_arith);
        } else {
            assert(st1.0 == frame_at(st, f));
            if st.0 <= st.1 {
                vstd::arithmetic::div_mod::lemma_fundamental_div_mod((st.1 - st.0) as int, PAGE_SIZE as int);
                assert(st.0 + PAGE_SIZE * f + PAGE_SIZE > st.1) by (nonlinear_arith)
                    requires (st.1 - st.0) == PAGE_SIZE * f + (st.1 - st.0) % (PAGE_SIZE as int),
                        (st.1 - st.0) % (PAGE_SIZE as int) < PAGE_SIZE;
            }
        }
        assert forall|i: int| 0 <= i < k implies {
            &&& #[trigger] rs[i] == (if i < f { Some(frame_at(st, i) as u64) } else { None::<u64> })
            &&& i < f ==> frame_at(st, i) + PAGE_SIZE <= st.1
            &&& i < f && st.0 % PAGE_SIZE == 0 ==> frame_at(st, i) % PAGE_SIZE as int == 0
        } by {
            if i < j {
                assert(rs[i] == rs1[i]);
            }
            if i < f {
                lemma_frame_at(st, i);
            }
        }
    }
}

/// The frames a manager built by `new` from memory map `e820` hands out in
/// its first `k` calls of `alloc_frame`: call `i` gives
/// `first + 4096 * i`, where `first` is page-aligned and at or above the
/// end of the kernel image, for as long as the frame lies inside the chosen
/// region, and `None` from the first call on where it no longer does.
pub proof fn lemma_frames_from_new(e820: Seq<E820Entry>, k: nat)
    requires
        region_addressable(e820),
        usable_region(e820) is Some,
    ensures
        ({
            let (b, l) = usable_region(e820)->0;
            let st = (align_up_spec(b as int, PAGE_SIZE as int) as u64, (b + l) as u64);
            let (rs, _) = alloc_frames_spec(st, k);
            &&& st.0 % PAGE_SIZE == 0
            &&& st.0 >= KERNEL_END
            &&& rs.len() == k
            &&& forall|i: int| 0 <= i < k ==> (#[trigger] rs[i] matches Some(f) ==> {
                &&& f == st.0 + PAGE_SIZE * i
                &&& f % PAGE_SIZE == 0
                &&& f >= KERNEL_END
                &&& f + PAGE_SIZE <= b + l
            })
            &&& forall|i: int, j: int| 0 <= i <= j < k && #[trigger] rs[i] is None ==> #[trigger] rs[j] is None
        }),
{
    let (bb, ll) = best_region(e820);
    let (b, l) = usable_region(e820)->0;
    let y = b + PAGE_SIZE - 1;
    vstd::arithmetic::div_mod::lemma_fundamental_div_mod(y as int, PAGE_SIZE as int);
    vstd::arithmetic::div_mod::lemma_mod_multiples_basic(y / PAGE_SIZE as int, PAGE_SIZE as int);
    assert(PAGE_SIZE * (y / PAGE_SIZE as int) == (y / PAGE_SIZE as int) * PAGE_SIZE) by (nonlinear_arith);
    let a = align_up_spec(b as int, PAGE_SIZE as int);
    assert(a == PAGE_SIZE * (y / PAGE_SIZE as int));
    assert(a >= b && a % PAGE_SIZE as int == 0);
    assert(b + l <= bb + ll);
    let st = (a as u64, (b + l) as u64);
    lemma_frames_in_sequence(st, k);
    let (rs, _) = alloc_frames_spec(st, k);
    assert forall|i: int| 0 <= i < k implies (#[trigger] rs[i] matches Some(f) ==> {
        &&& f == st.0 + PAGE_SIZE * i
        &&& f % PAGE_SIZE == 0
        &&& f >= KERNEL_END
        &&& f + PAGE_SIZE <= b + l
    }) by {
        if i < frames_left(st) {
            assert(PAGE_SIZE * i >= 0) by (nonlinear_arith) requires i >= 0;
        }
    }
}

/// The same frame allocator, used while mapping the kernel heap.
pub struct HeapFrameAllocator {
    pub current: u64,
    pub end: u64,
}

impl HeapFrameAllocator {
    /// Hand out the next frame, or `None` when a whole frame no longer fits
    /// below the end.
    pub fn alloc_frame(&mut self) -> (r: Option<u64>)
        requires
            old(self).current + PAGE_SIZE <= u64::MAX,
        ensures
            (r, (final(self).current, final(self).end)) == alloc_frame_spec((old(self).current, old(self).end)),
    {
        if self.current + 4096 > self.end {
            return None;
        }
        let frame = self.current;
        self.current += 4096;
        Some(frame)
    }
}

} // verus!
