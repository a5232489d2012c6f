//! The kernel heap: where it lives, how it is mapped page by page, and the
//! lock that wraps the global allocator.
use vstd::prelude::*;
use crate::pmm::{alloc_frame_spec, HeapFrameAllocator, PAGE_SIZE};

verus! {

/// Virtual start of the kernel heap.
pub const HEAP_START: u64 = 0xFFFF_C444_4444_0000;
/// Bytes of the kernel heap.
pub const HEAP_SIZE: usize = 1024 * 1024;
/// Pages of the kernel heap.
pub const HEAP_PAGES: usize = 256;
/// Flags of a heap page besides present: writable.
pub const HEAP_PAGE_FLAGS: u64 = 0x2;
/// Pattern written and read back to check the heap is reachable.
pub const HEAP_TEST_PATTERN: u64 = 0xDEAD_BEEF_CAFE_1234;

/// Why setting up the heap failed.
#[derive(Clone, Copy, Debug, PartialEq, Eq, Structural)]
pub enum HeapInitError {
    OutOfMemory,
    MapFailed,
    VerifyFailed,
}

impl HeapInitError {
    /// The message reported for the failure.
    pub fn message(&self) -> (m: &'static str)
        ensures
            m@ == (match self {
                HeapInitError::OutOfMemory => "Out of physical memory for heap"@,
                HeapInitError::MapFailed => "Failed to map heap page"@,
                HeapInitError::VerifyFailed => "Heap memory verification failed"@,
            }),
    {
        match self {
            HeapInitError::OutOfMemory => "Out of physical memory for heap",
            HeapInitError::MapFailed => "Failed to map heap page",
            HeapInitError::VerifyFailed => "Heap memory verification failed",
        }
    }
}

/// Virtual address of heap page `i`.
pub fn heap_page_virt(i: usize) -> (r: u64)
    requires
        i < HEAP_PAGES,
    ensures
        r == HEAP_START + i * 4096,
{
    HEAP_START + (i as u64) * 4096
}

/// The heap reads back what was written to it.
pub fn heap_check(read_back: u64) -> (r: Result<(), HeapInitError>)
    ensures
        read_back == HEAP_TEST_PATTERN ==> r is Ok,
        read_back != HEAP_TEST_PATTERN ==> r == Err::<(), HeapInitError>(HeapInitError::VerifyFailed),
{
    if read_back != HEAP_TEST_PATTERN {
        Err(HeapInitError::VerifyFailed)
    } else {
        Ok(())
    }
}

/// Where setting up the heap stands.
#[derive(Clone, Copy, Debug)]
pub enum HeapStage {
    /// Pages below `page` are mapped; the next one is to be mapped.
    Mapping,
    /// A frame for page `page` was handed out and its mapping is under way.
    AwaitingMap,
    /// Every page is mapped; the test pattern is to be written and read back.
    Verifying,
    /// Finished, with the frame cursor or the reason for failure.
    Finished(Result<u64, HeapInitError>),
}

/// What the heap setup asks for next.
#[derive(Clone, Copy, Debug)]
pub enum HeapStep {
    /// Map heap page `virt` to frame `phys` (table frames come from
    /// `table_frame`), then report with `after_map`.
    MapPage { virt: u64, phys: u64 },
    /// Write the test pattern at `HEAP_START`, read it back, and report with
    /// `after_verify`.
    Verify,
    /// Setup is over.
    Done(Result<u64, HeapInitError>),
}

/// Mapping the heap's pages one after the other with frames taken from
/// the frame cursor, then checking that the heap is reachable.
pub struct HeapSetup {
    pub frames: HeapFrameAllocator,
    /// Index of the page being mapped or to be mapped next.
    pub page: usize,
    pub stage: HeapStage,
}

impl HeapSetup {
    /// The page index stays within the heap.
    pub open spec fn wf(&self) -> bool {
        self.page <= HEAP_PAGES
    }

    /// Start with page 0 and frames from `pmm_current` up to `pmm_end`.
    pub fn new(pmm_current: u64, pmm_end: u64) -> (s: HeapSetup)
        ensures
            s.wf(),
            s.frames.current == pmm_current && s.frames.end == pmm_end,
            s.page == 0,
            s.stage == HeapStage::Mapping,
    {
        HeapSetup { frames: HeapFrameAllocator { current: pmm_current, end: pmm_end }, page: 0, stage: HeapStage::Mapping }
    }

    /// The next request. While mapping: once all pages are mapped, verify;
    /// otherwise take the next frame for page `page` at
    /// `HEAP_START + 4096 * page`, or finish with `OutOfMemory` when none is
    /// left. While verifying, verify; when finished, the outcome.
    pub fn next(&mut self) -> (a: HeapStep)
        requires
            old(self).wf(),
            !(old(self).stage is AwaitingMap),
            old(self).stage is Mapping && old(self).page < HEAP_PAGES
                ==> old(self).frames.current + PAGE_SIZE <= u64::MAX,
        ensures
            final(self).wf(),
            final(self).page == old(self).page,
            old(self).stage is Mapping && old(self).page == HEAP_PAGES ==> {
                &&& a == HeapStep::Verify
                &&& final(self).stage == HeapStage::Verifying
                &&& final(self).frames == old(self).frames
            },
            old(self).stage is Mapping && old(self).page < HEAP_PAGES ==> {
                let (f, st) = alloc_frame_spec((old(self).frames.current, old(self).frames.end));
                &&& (final(self).frames.current, final(self).frames.end) == st
                &&& match f {
                    None => a == HeapStep::Done(Err(HeapInitError::OutOfMemory))
                        && final(self).stage == HeapStage::Finished(Err(HeapInitError::OutOfMemory)),
                    Some(phys) => a == (HeapStep::MapPage { virt: (HEAP_START + 4096 * old(self).page) as u64, phys })
                        && final(self).stage == HeapStage::AwaitingMap,
                }
            },
            old(self).stage is Verifying ==> a == HeapStep::Verify && *final(self) == *old(self),
            old(self).stage matches HeapStage::Finished(r) ==> a == HeapStep::Done(r) && *final(self) == *old(self),
    {
        match self.stage {
            HeapStage::Mapping => {
                if self.page == HEAP_PAGES {
                    self.stage = HeapStage::Verifying;
                    HeapStep::Verify
                } else {
                    match self.frames.alloc_frame() {
                        None => {
                            self.stage = HeapStage::Finished(Err(HeapInitError::OutOfMemory));
                            HeapStep::Done(Err(HeapInitError::OutOfMemory))
                        },
                        Some(phys) => {
                            self.stage = HeapStage::AwaitingMap;
                            HeapStep::MapPage { virt: heap_page_virt(self.page), phys }
                        },
                    }
                }
            },
            HeapStage::Verifying => HeapStep::Verify,
            HeapStage::Finished(r) => HeapStep::Done(r),
            HeapStage::AwaitingMap => HeapStep::Verify,
        }
    }

    /// A frame for a page table needed while mapping the current page.
    pub fn table_frame(&mut self) -> (r: Option<u64>)
        requires
            old(self).stage is AwaitingMap,
            old(self).frames.current + PAGE_SIZE <= u64::MAX,
        ensures
            (r, (final(self).frames.current, final(self).frames.end))
                == alloc_frame_spec((old(self).frames.current, old(self).frames.end)),
            final(self).page == old(self).page,
            final(self).stage == old(self).stage,
    {
        self.frames.alloc_frame()
    }

    /// Report whether the current page was mapped: on to the next page, or
    /// finish with `MapFailed`.
    pub fn after_map(&mut self, ok: bool)
        requires
            old(self).wf(),
            old(self).stage is AwaitingMap,
            old(self).page < HEAP_PAGES,
        ensures
            final(self).wf(),
            final(self).frames == old(self).frames,
            ok ==> final(self).page == old(self).page + 1 && final(self).stage == HeapStage::Mapping,
            !ok ==> final(self).page == old(self).page
                && final(self).stage == HeapStage::Finished(Err(HeapInitError::MapFailed)),
    {
        if ok {
            self.page = self.page + 1;
            self.stage = HeapStage::Mapping;
        } else {
            self.stage = HeapStage::Finished(Err(HeapInitError::MapFailed));
        }
    }

    /// Report the value read back from the heap: finish with the frame
    /// cursor when it is the test pattern, else with `VerifyFailed`.
    pub fn after_verify(&mut self, read_back: u64)
        requires
            old(self).stage is Verifying,
        ensures
            final(self).frames == old(self).frames,
            final(self).page == old(self).page,
            read_back == HEAP_TEST_PATTERN ==> final(self).stage == HeapStage::Finished(Ok(old(self).frames.current)),
            read_back != HEAP_TEST_PATTERN ==> final(self).stage == HeapStage::Finished(Err(HeapInitError::VerifyFailed)),
    {
        match heap_check(read_back) {
            Ok(()) => { self.stage = HeapStage::Finished(Ok(self.frames.current)); },
            Err(e) => { self.stage = HeapStage::Finished(Err(e)); },
        }
    }
}

/// Exclusive access to an allocator shared as the global one.
pub struct Locked<T> {
    inner: T,
}

impl<T> Locked<T> {
    pub closed spec fn value(&self) -> T {
        self.inner
    }

    pub fn new(inner: T) -> (l: Locked<T>)
        ensures
            l.value() == inner,
    {
        Locked { inner }
    }

    /// The wrapped value, for changing it.
    pub fn lock(&mut self) -> (r: &mut T)
        ensures
            *r == old(self).value(),
            final(self).value() == *final(r),
    {
        &mut self.inner
    }
}

} // verus!
