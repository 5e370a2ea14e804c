//! The kernel heap: backing a range of virtual addresses with frames, and
//! handing out blocks of it.
//!
//! The heap allocator keeps its free list beside the heap, not in it: it
//! decides on addresses and never touches the memory behind them. Free
//! memory is a sorted list of holes that neither overlap nor touch, so every
//! free stretch of addresses is one hole. Allocation is first fit: the
//! lowest address at which the request can be placed.

use vstd::prelude::*;
use vstd::arithmetic::div_mod::{lemma_fundamental_div_mod, lemma_mod_multiples_basic};
use crate::memory::frame::{
    nth_frame,
    total_frames,
    BootInfoFrameAllocator,
    MemoryRegion,
    PhysFrame,
};
use crate::memory::paging::{
    is_canonical,
    map_outcome,
    missing,
    page_number,
    HardwareOp,
    Layout,
    MapError,
    Mapper,
    Mapping,
    Page,
    PageTableFlags,
};

verus! {

/// First address of the kernel heap.
pub const HEAP_START: u64 = 0x4444_4444_0000;

/// Size of the kernel heap in bytes.
pub const HEAP_SIZE: u64 = 102_400;

/// The flags that heap pages are mapped with: present and writable.
pub open spec fn heap_flags() -> PageTableFlags {
    PageTableFlags {
        writable: true,
        user_accessible: false,
        write_through: false,
        no_cache: false,
        no_execute: false,
    }
}

/// Number of pages that hold a byte of `[heap_start, heap_start + heap_size)`.
pub open spec fn heap_pages(heap_start: u64, heap_size: u64) -> nat {
    if heap_size == 0 {
        0
    } else {
        (page_number((heap_start + heap_size - 1) as u64) - page_number(heap_start) + 1) as nat
    }
}

/// The range is empty, or it stays inside the address space and inside one
/// half of the canonical addresses.
pub open spec fn heap_range_valid(heap_start: u64, heap_size: u64) -> bool {
    heap_size > 0 ==> {
        &&& heap_start + heap_size - 1 <= u64::MAX
        &&& is_canonical(heap_start)
        &&& is_canonical((heap_start + heap_size - 1) as u64)
        &&& (heap_start < 0x8000_0000_0000 <==> heap_start + heap_size - 1 < 0x8000_0000_0000)
    }
}

/// What backing one page leads to: the next frame is taken and the page is
/// mapped to it, present and writable. Where no frame is left nothing
/// changes; where the mapping is refused the frame that was taken is lost.
pub open spec fn page_outcome(
    before: Layout,
    root: u64,
    regions: Seq<MemoryRegion>,
    page: Page,
) -> (Layout, Result<(), MapError>) {
    match nth_frame(regions, before.allocated) {
        None => (before, Err(MapError::FrameAllocationFailed)),
        Some(address) => map_outcome(
            Layout {
                level3: before.level3,
                level2: before.level2,
                level1: before.level1,
                mappings: before.mappings,
                journal: before.journal,
                allocated: before.allocated + 1,
            },
            root,
            regions,
            page,
            PhysFrame::at(address),
            heap_flags(),
        ),
    }
}

/// What backing `count` pages from `page` on leads to: the pages are
/// backed one after the other, and the first that cannot be backed ends
/// the work with its error.
pub open spec fn heap_outcome(
    before: Layout,
    root: u64,
    regions: Seq<MemoryRegion>,
    page: Page,
    count: nat,
) -> (Layout, Result<(), MapError>)
    decreases count,
{
    if count == 0 {
        (before, Ok(()))
    } else {
        let backed = page_outcome(before, root, regions, page);
        match backed.1 {
            Err(e) => backed,
            Ok(()) => heap_outcome(backed.0, root, regions, page.following(), (count - 1) as nat),
        }
    }
}

/// Whether the range can be backed: see `heap_range_valid`.
pub fn heap_range_ok(heap_start: u64, heap_size: u64) -> (ok: bool)
    ensures
        ok == heap_range_valid(heap_start, heap_size),
{
    if heap_size == 0 {
        return true;
    }
    if heap_size - 1 > u64::MAX - heap_start {
        return false;
    }
    let last: u64 = heap_start + (heap_size - 1);
    if heap_start < 0x8000_0000_0000 {
        last < 0x8000_0000_0000
    } else {
        heap_start >= 0xffff_8000_0000_0000
    }
}

/// The pages numbered `first`, `first + 1`, ... are mapped writable, one
/// frame each: page `first + i` to the frame that the allocator handed out
/// as number `taken[i]`. The frames were taken in the order of the pages,
/// between allocation `lo` and allocation `hi`.
pub open spec fn backed(
    mappings: Map<u64, Mapping>,
    regions: Seq<MemoryRegion>,
    first: u64,
    taken: Seq<nat>,
    lo: nat,
    hi: nat,
) -> bool {
    &&& forall|i: int|
        0 <= i < taken.len() ==> {
            &&& lo <= #[trigger] taken[i] < hi
            &&& mappings.contains_key((first + i) as u64)
            &&& mappings[(first + i) as u64].flags == heap_flags()
            &&& nth_frame(regions, taken[i]) == Some(
                mappings[(first + i) as u64].frame.addr() as int,
            )
        }
    &&& forall|i: int, j: int| 0 <= i < j < taken.len() ==> #[trigger] taken[i] < #[trigger] taken[j]
}

/// The mappings of all pages but those numbered `first .. first + count`
/// are the same in `before` and `after`.
pub open spec fn unchanged_outside(
    before: Map<u64, Mapping>,
    after: Map<u64, Mapping>,
    first: u64,
    count: nat,
) -> bool {
    forall|n: u64|
        !(first <= n < first + count) ==> (#[trigger] after.contains_key(n) <==> before.contains_key(
            n,
        )) && (before.contains_key(n) ==> after[n] == before[n])
}

/// Whether `longer` starts with `shorter`.
pub open spec fn starts_with_steps(longer: Seq<HardwareOp>, shorter: Seq<HardwareOp>) -> bool {
    shorter.len() <= longer.len() && longer.subrange(0, shorter.len() as int) == shorter
}

/// Whether every table of `before` is a table of `after`.
pub open spec fn tables_kept(before: Map<u64, u64>, after: Map<u64, u64>) -> bool {
    forall|k: u64| #[trigger] before.contains_key(k) ==> after.contains_key(k) && after[k] == before[k]
}

/// What is known of the heap once the work has ended with `res`: the
/// first pages of the range, all of them on success, are backed by frames
/// taken in their order; every other page is mapped as before; and an
/// error says what stopped the work at the first page that is not backed.
pub open spec fn backs(
    before: Layout,
    after: Layout,
    regions: Seq<MemoryRegion>,
    first: u64,
    count: nat,
    res: Result<(), MapError>,
) -> bool {
    exists|taken: Seq<nat>|
        {
            &&& taken.len() <= count
            &&& #[trigger] backed(
                after.mappings,
                regions,
                first,
                taken,
                before.allocated,
                after.allocated,
            )
            &&& unchanged_outside(before.mappings, after.mappings, first, taken.len())
            &&& match res {
                Ok(()) => taken.len() == count,
                Err(e) => taken.len() < count && stopped_by(
                    e,
                    before.mappings,
                    after,
                    total_frames(regions),
                    (first + taken.len()) as u64,
                ),
            }
        }
}

/// What stopped the backing of the heap at the page numbered `n`: no frame
/// was left for the page or for its page tables, or the page was mapped
/// before.
pub open spec fn stopped_by(
    e: MapError,
    before: Map<u64, Mapping>,
    after: Layout,
    total: nat,
    n: u64,
) -> bool {
    match e {
        MapError::FrameAllocationFailed => after.allocated >= total || (!before.contains_key(n)
            && after.allocated + missing(after.level3, n / 0x800_0000) + missing(
            after.level2,
            n / 0x4_0000,
        ) + missing(after.level1, n / 512) > total),
        MapError::PageAlreadyMapped(frame) => before.contains_key(n) && before[n].frame == frame,
    }
}

/// A maximal stretch `[start, end)` of free addresses.
#[derive(Clone, Copy)]
struct Hole {
    start: u64,
    end: u64,
}

/// Whether some hole of the list holds address `a`.
spec fn covers(holes: Seq<Hole>, a: int) -> bool {
    exists|i: int| 0 <= i < holes.len() && (#[trigger] holes[i]).start <= a < holes[i].end
}

/// The list is sorted, its holes are not empty, lie inside `[start, end)`,
/// and no two of them overlap or touch.
spec fn well_formed(holes: Seq<Hole>, start: int, end: int) -> bool {
    &&& forall|i: int|
        0 <= i < holes.len() ==> start <= (#[trigger] holes[i]).start < holes[i].end <= end
    &&& forall|i: int, j: int|
        0 <= i < j < holes.len() ==> (#[trigger] holes[i]).end < (#[trigger] holes[j]).start
}

/// Whether every address of `[b, b + size)` lies in a hole.
spec fn stretch_free(holes: Seq<Hole>, b: int, size: int) -> bool {
    forall|a: int| b <= a < b + size ==> covers(holes, a)
}

/// The lowest multiple of `align` that is not below `a`.
pub open spec fn align_up(a: int, align: int) -> int {
    if a % align == 0 {
        a
    } else {
        a + align - a % align
    }
}

/// Whether a block of `size` bytes aligned to `align` fits into the hole.
spec fn hole_fits(h: Hole, size: int, align: int) -> bool {
    align_up(h.start as int, align) + size <= h.end
}

/// The list after the block `[at, at + size)` was cut out of hole `i`.
spec fn carved(holes: Seq<Hole>, i: int, at: int, size: int) -> Seq<Hole> {
    let h = holes[i];
    let front = if h.start < at {
        seq![Hole { start: h.start, end: at as u64 }]
    } else {
        Seq::empty()
    };
    let back = if at + size < h.end {
        seq![Hole { start: (at + size) as u64, end: h.end }]
    } else {
        Seq::empty()
    };
    holes.subrange(0, i) + front + back + holes.subrange(i + 1, holes.len() as int)
}

/// `align_up` yields a multiple of `align` at or above `a`, less than
/// `align` away.
pub proof fn lemma_align_up(a: int, align: int)
    requires
        0 <= a,
        0 < align,
    ensures
        a <= align_up(a, align) < a + align,
        align_up(a, align) % align == 0,
{
    let q = a / align;
    let r = a % align;
    lemma_fundamental_div_mod(a, align);
    assert(0 <= r < align) by (nonlinear_arith)
        requires
            r == a % align,
            0 < align,
    ;
    let u = align_up(a, align);
    if r != 0 {
        assert(u == (q + 1) * align) by (nonlinear_arith)
            requires
                u == a + align - r,
                a == align * q + r,
        ;
        lemma_mod_multiples_basic(q + 1, align);
    }
}

/// No multiple of `align` lies between `a` and `align_up(a, align)`.
pub proof fn lemma_align_up_least(a: int, align: int, b: int)
    requires
        0 <= a <= b,
        0 < align,
        b % align == 0,
    ensures
        align_up(a, align) <= b,
{
    let q = a / align;
    let r = a % align;
    lemma_fundamental_div_mod(a, align);
    assert(0 <= r < align) by (nonlinear_arith)
        requires
            r == a % align,
            0 < align,
    ;
    let u = align_up(a, align);
    if r != 0 {
        let k = b / align;
        lemma_fundamental_div_mod(b, align);
        assert(b == align * k);
        assert(k >= q + 1) by (nonlinear_arith)
            requires
                b == align * k,
                a == align * q + r,
                a <= b,
                0 < r,
                0 < align,
        ;
        assert(u <= b) by (nonlinear_arith)
            requires
                u == a + align - r,
                a == align * q + r,
                b == align * k,
                k >= q + 1,
                0 < align,
        ;
    }
}

/// A stretch of addresses that is free throughout lies inside one hole.
proof fn lemma_stretch_in_one_hole(holes: Seq<Hole>, start: int, end: int, b: int, size: int)
    requires
        well_formed(holes, start, end),
        size > 0,
        stretch_free(holes, b, size),
    ensures
        exists|j: int|
            0 <= j < holes.len() && (#[trigger] holes[j]).start <= b && b + size <= holes[j].end,
{
    assert(covers(holes, b));
    let j = choose|j: int| 0 <= j < holes.len() && (#[trigger] holes[j]).start <= b < holes[j].end;
    if b + size > holes[j].end {
        let e = holes[j].end as int;
        assert(covers(holes, e));
        let k = choose|k: int|
            0 <= k < holes.len() && (#[trigger] holes[k]).start <= e < holes[k].end;
        if k < j {
            assert(holes[k].end < holes[j].start);
        } else if k > j {
            assert(holes[j].end < holes[k].start);
        }
        assert(false);
    }
}

/// The heap allocator.
pub struct Heap {
    start: u64,
    end: u64,
    holes: Vec<Hole>,
}

impl Heap {
    #[verifier::type_invariant]
    spec fn holes_in_order(self) -> bool {
        self.start <= self.end && well_formed(self.holes@, self.start as int, self.end as int)
    }

    /// First address of the region that the heap manages.
    pub closed spec fn region_start(self) -> int {
        self.start as int
    }

    /// First address after the region that the heap manages.
    pub closed spec fn region_end(self) -> int {
        self.end as int
    }

    /// Whether address `a` is free: inside the region and in no live block.
    pub closed spec fn is_free(self, a: int) -> bool {
        covers(self.holes@, a)
    }

    /// Whether a block of `size` bytes aligned to `align` can be placed at
    /// address `at`: the address is aligned and every byte of the block is
    /// free.
    pub open spec fn can_place(self, at: int, size: int, align: int) -> bool {
        &&& size > 0
        &&& align > 0
        &&& at % align == 0
        &&& forall|a: int| at <= a < at + size ==> self.is_free(a)
    }

    /// A heap that manages no memory: every allocation fails.
    pub fn empty() -> (heap: Heap)
        ensures
            heap.region_start() == 0,
            heap.region_end() == 0,
            forall|a: int| !heap.is_free(a),
    {
        Heap { start: 0, end: 0, holes: Vec::new() }
    }

    /// A heap over `[heap_start, heap_start + heap_size)`, all of it free.
    /// `None` where the region would reach beyond the address space.
    pub fn new(heap_start: u64, heap_size: u64) -> (heap: Option<Heap>)
        ensures
            heap is Some <==> heap_start + heap_size <= u64::MAX,
            heap matches Some(h) ==> {
                &&& h.region_start() == heap_start
                &&& h.region_end() == heap_start + heap_size
                &&& forall|a: int| h.is_free(a) <==> heap_start <= a < heap_start + heap_size
            },
    {
        if heap_size > u64::MAX - heap_start {
            return None;
        }
        let end: u64 = heap_start + heap_size;
        let mut holes: Vec<Hole> = Vec::new();
        if heap_size > 0 {
            holes.push(Hole { start: heap_start, end });
        }
        let heap = Heap { start: heap_start, end, holes };
        assert forall|a: int| heap.is_free(a) <==> heap_start <= a < heap_start + heap_size by {
            if heap_start <= a < heap_start + heap_size {
                assert(heap.holes@[0].start <= a < heap.holes@[0].end);
            }
        }
        Some(heap)
    }

    /// Allocates `size` bytes aligned to `align` at the lowest address at
    /// which they can be placed. `None` where they can be placed nowhere,
    /// which is always so for a size or an alignment of zero.
    #[verifier::rlimit(30)]
    pub fn allocate(&mut self, size: u64, align: u64) -> (block: Option<u64>)
        ensures
            final(self).region_start() == old(self).region_start(),
            final(self).region_end() == old(self).region_end(),
            match block {
                Some(at) => {
                    &&& old(self).can_place(at as int, size as int, align as int)
                    &&& forall|b: int|
                        0 <= b < at ==> !#[trigger] old(self).can_place(b, size as int, align as int)
                    &&& old(self).region_start() <= at
                    &&& at + size <= old(self).region_end()
                    &&& forall|a: int|
                        #![trigger final(self).is_free(a)]
                        final(self).is_free(a) <==> old(self).is_free(a) && !(at <= a < at + size)
                },
                None => {
                    &&& forall|b: int| !#[trigger] old(self).can_place(b, size as int, align as int)
                    &&& forall|a: int|
                        #![trigger final(self).is_free(a)]
                        final(self).is_free(a) <==> old(self).is_free(a)
                },
            },
    {
        proof {
            use_type_invariant(&*self);
        }
        if size == 0 || align == 0 {
            return None;
        }
        let ghost before = self.holes@;
        let ghost lo = self.start as int;
        let ghost hi = self.end as int;
        let mut i: usize = 0;
        while i < self.holes.len()
            invariant
                self.holes@ == before,
                self.start == lo,
                self.end == hi,
                before == old(self).holes@,
                lo == old(self).start,
                hi == old(self).end,
                well_formed(before, lo, hi),
                size > 0,
                align > 0,
                i <= self.holes.len(),
                forall|j: int| 0 <= j < i ==> !hole_fits(#[trigger] before[j], size as int, align as int),
            decreases self.holes.len() - i,
        {
            let h = self.holes[i];
            let rem: u64 = h.start % align;
            let pad: u64 = if rem == 0 {
                0
            } else {
                align - rem
            };
            if pad <= h.end - h.start && size <= h.end - (h.start + pad) {
                let at: u64 = h.start + pad;
                let mut holes: Vec<Hole> = Vec::new();
                std::mem::swap(&mut self.holes, &mut holes);
                if h.start < at && at + size < h.end {
                    holes.set(i, Hole { start: h.start, end: at });
                    holes.insert(i + 1, Hole { start: at + size, end: h.end });
                } else if h.start < at {
                    holes.set(i, Hole { start: h.start, end: at });
                } else if at + size < h.end {
                    holes.set(i, Hole { start: at + size, end: h.end });
                } else {
                    holes.remove(i);
                }
                proof {
                    assert(holes@ =~= carved(before, i as int, at as int, size as int));
                    lemma_carved(before, lo, hi, i as int, at as int, size as int);
                    lemma_first_fit(before, lo, hi, i as int, size as int, align as int);
                    assert forall|b: int| 0 <= b < at implies !#[trigger] old(self).can_place(
                        b,
                        size as int,
                        align as int,
                    ) by {
                        if old(self).can_place(b, size as int, align as int) {
                            assert forall|a: int| b <= a < b + size implies covers(before, a) by {
                                assert(old(self).is_free(a));
                            }
                            assert(stretch_free(before, b, size as int));
                        }
                    }
                }
                std::mem::swap(&mut self.holes, &mut holes);
                return Some(at);
            }
            i = i + 1;
        }
        proof {
            lemma_no_fit(before, lo, hi, size as int, align as int);
            assert forall|b: int| !#[trigger] old(self).can_place(
                b,
                size as int,
                align as int,
            ) by {
                if old(self).can_place(b, size as int, align as int) {
                    assert forall|a: int| b <= a < b + size implies covers(before, a) by {
                        assert(old(self).is_free(a));
                    }
                    assert(stretch_free(before, b, size as int));
                }
            }
        }
        None
    }

    /// Gives the block `[address, address + size)` back. A block that is
    /// empty, reaches outside the region or holds a free byte is refused, and
    /// nothing changes.
    #[verifier::rlimit(30)]
    pub fn deallocate(&mut self, address: u64, size: u64) -> (released: bool)
        ensures
            final(self).region_start() == old(self).region_start(),
            final(self).region_end() == old(self).region_end(),
            released <==> {
                &&& size > 0
                &&& old(self).region_start() <= address
                &&& address + size <= old(self).region_end()
                &&& forall|a: int| address <= a < address + size ==> !old(self).is_free(a)
            },
            forall|a: int|
                #![trigger final(self).is_free(a)]
                final(self).is_free(a) <==> old(self).is_free(a) || (released && address <= a
                    < address + size),
    {
        proof {
            use_type_invariant(&*self);
        }
        if size == 0 || address < self.start || address > self.end || size > self.end - address {
            return false;
        }
        let ghost before = self.holes@;
        let ghost lo = self.start as int;
        let ghost hi = self.end as int;
        let stop: u64 = address + size;
        let mut i: usize = 0;
        while i < self.holes.len() && self.holes[i].start < address
            invariant
                self.holes@ == before,
                well_formed(before, lo, hi),
                i <= self.holes.len(),
                forall|j: int| 0 <= j < i ==> (#[trigger] before[j]).start < address,
            decreases self.holes.len() - i,
        {
            i = i + 1;
        }
        let len = self.holes.len();
        if i > 0 && self.holes[i - 1].end > address {
            assert(before[i - 1].start <= address < before[i - 1].end);
            assert(old(self).is_free(address as int));
            return false;
        }
        if i < len && self.holes[i].start < stop {
            assert(before[i as int].start <= before[i as int].start < before[i as int].end);
            assert(old(self).is_free(before[i as int].start as int));
            return false;
        }
        proof {
            lemma_gap(before, lo, hi, i as int, address as int, stop as int);
        }
        let joins_lower = i > 0 && self.holes[i - 1].end == address;
        let joins_upper = i < len && self.holes[i].start == stop;
        let mut holes: Vec<Hole> = Vec::new();
        std::mem::swap(&mut self.holes, &mut holes);
        if joins_lower && joins_upper {
            let merged = Hole { start: holes[i - 1].start, end: holes[i].end };
            holes.set(i - 1, merged);
            holes.remove(i);
            proof {
                lemma_release_between(before, holes@, lo, hi, i as int, address as int, stop as int);
            }
        } else if joins_lower {
            let merged = Hole { start: holes[i - 1].start, end: stop };
            holes.set(i - 1, merged);
            proof {
                lemma_release_above(before, holes@, lo, hi, i as int, address as int, stop as int);
            }
        } else if joins_upper {
            let merged = Hole { start: address, end: holes[i].end };
            holes.set(i, merged);
            proof {
                lemma_release_below(before, holes@, lo, hi, i as int, address as int, stop as int);
            }
        } else {
            holes.insert(i, Hole { start: address, end: stop });
            proof {
                lemma_release_apart(before, holes@, lo, hi, i as int, address as int, stop as int);
            }
        }
        std::mem::swap(&mut self.holes, &mut holes);
        true
    }
}

/// Cutting a block out of a hole that holds it keeps the list in order and
/// frees exactly what was free before and is not in the block.
#[verifier::rlimit(30)]
proof fn lemma_carved(holes: Seq<Hole>, lo: int, hi: int, i: int, at: int, size: int)
    requires
        well_formed(holes, lo, hi),
        0 <= i < holes.len(),
        size > 0,
        holes[i].start <= at,
        at + size <= holes[i].end,
    ensures
        well_formed(carved(holes, i, at, size), lo, hi),
        forall|a: int|
            covers(carved(holes, i, at, size), a) <==> covers(holes, a) && !(at <= a < at + size),
{
    let after = carved(holes, i, at, size);
    let h = holes[i];
    let front: int = if h.start < at { 1 } else { 0 };
    let back: int = if at + size < h.end { 1 } else { 0 };
    assert(after.len() == holes.len() - 1 + front + back);
    // Where each hole of the new list comes from.
    assert forall|k: int| 0 <= k < after.len() implies ({
        &&& k < i ==> after[k] == holes[k]
        &&& k == i && front == 1 ==> after[k] == (Hole { start: h.start, end: at as u64 })
        &&& k == i + front && back == 1 ==> after[k] == (Hole {
            start: (at + size) as u64,
            end: h.end,
        })
        &&& k >= i + front + back ==> after[k] == holes[k + 1 - front - back]
    }) by {}
    assert forall|k: int| 0 <= k < after.len() implies lo <= (#[trigger] after[k]).start
        < after[k].end <= hi by {
        if k >= i + front + back {
            assert(after[k] == holes[k + 1 - front - back]);
        } else if k < i {
            assert(after[k] == holes[k]);
        }
    }
    assert forall|k: int, l: int| 0 <= k < l < after.len() implies (#[trigger] after[k]).end < (
    #[trigger] after[l]).start by {
        let sk = if k < i {
            k
        } else if k >= i + front + back {
            k + 1 - front - back
        } else {
            i
        };
        let sl = if l < i {
            l
        } else if l >= i + front + back {
            l + 1 - front - back
        } else {
            i
        };
        assert(holes[sk].start <= after[k].start && after[k].end <= holes[sk].end);
        assert(holes[sl].start <= after[l].start && after[l].end <= holes[sl].end);
        if sk < sl {
            assert(holes[sk].end < holes[sl].start);
        }
    }
    assert forall|a: int| covers(after, a) <==> covers(holes, a) && !(at <= a < at + size) by {
        if covers(after, a) {
            let k = choose|k: int|
                0 <= k < after.len() && (#[trigger] after[k]).start <= a < after[k].end;
            let sk = if k < i {
                k
            } else if k >= i + front + back {
                k + 1 - front - back
            } else {
                i
            };
            assert(holes[sk].start <= a < holes[sk].end);
            if sk < i {
                assert(holes[sk].end < holes[i].start);
            } else if sk > i {
                assert(holes[i].end < holes[sk].start);
            }
        }
        if covers(holes, a) && !(at <= a < at + size) {
            let j = choose|j: int|
                0 <= j < holes.len() && (#[trigger] holes[j]).start <= a < holes[j].end;
            if j < i {
                assert(after[j].start <= a < after[j].end);
            } else if j > i {
                let k = j - 1 + front + back;
                assert(after[k].start <= a < after[k].end);
            } else if a < at {
                assert(after[i].start <= a < after[i].end);
            } else {
                let k = i + front;
                assert(after[k].start <= a < after[k].end);
            }
        }
    }
}

/// Where hole `i` is the first that fits, the block can be placed at its
/// first aligned address and nowhere below.
proof fn lemma_first_fit(holes: Seq<Hole>, lo: int, hi: int, i: int, size: int, align: int)
    requires
        well_formed(holes, lo, hi),
        0 <= i < holes.len(),
        size > 0,
        align > 0,
        hole_fits(holes[i], size, align),
        forall|j: int| 0 <= j < i ==> !hole_fits(#[trigger] holes[j], size, align),
    ensures
        ({
            let at = align_up(holes[i].start as int, align);
            &&& at % align == 0
            &&& holes[i].start <= at
            &&& stretch_free(holes, at, size)
            &&& forall|b: int|
                0 <= b < at && b % align == 0 ==> !#[trigger] stretch_free(holes, b, size)
        }),
{
    let at = align_up(holes[i].start as int, align);
    lemma_align_up(holes[i].start as int, align);
    assert forall|a: int| at <= a < at + size implies covers(holes, a) by {
        assert(holes[i].start <= a < holes[i].end);
    }
    assert forall|b: int| 0 <= b < at && b % align == 0 implies !#[trigger] stretch_free(
        holes,
        b,
        size,
    ) by {
        if stretch_free(holes, b, size) {
            lemma_stretch_in_one_hole(holes, lo, hi, b, size);
            let j = choose|j: int|
                0 <= j < holes.len() && (#[trigger] holes[j]).start <= b && b + size
                    <= holes[j].end;
            lemma_align_up_least(holes[j].start as int, align, b);
            assert(hole_fits(holes[j], size, align));
            if j > i {
                assert(holes[i].end < holes[j].start);
            }
            assert(false);
        }
    }
}

/// Where no hole fits, the block can be placed nowhere.
proof fn lemma_no_fit(holes: Seq<Hole>, lo: int, hi: int, size: int, align: int)
    requires
        well_formed(holes, lo, hi),
        size > 0,
        align > 0,
        forall|j: int| 0 <= j < holes.len() ==> !hole_fits(#[trigger] holes[j], size, align),
    ensures
        forall|b: int| b % align == 0 ==> !#[trigger] stretch_free(holes, b, size),
{
    assert forall|b: int| b % align == 0 implies !#[trigger] stretch_free(holes, b, size) by {
        if stretch_free(holes, b, size) {
            lemma_stretch_in_one_hole(holes, lo, hi, b, size);
            let j = choose|j: int|
                0 <= j < holes.len() && (#[trigger] holes[j]).start <= b && b + size
                    <= holes[j].end;
            lemma_align_up_least(holes[j].start as int, align, b);
            assert(hole_fits(holes[j], size, align));
            assert(false);
        }
    }
}

/// Where the holes below index `i` end at or before a block and those from
/// `i` on start at or after it, no byte of the block is free.
proof fn lemma_gap(before: Seq<Hole>, lo: int, hi: int, i: int, address: int, stop: int)
    requires
        well_formed(before, lo, hi),
        0 <= i <= before.len(),
        address < stop,
        i > 0 ==> before[i - 1].end <= address,
        i < before.len() ==> stop <= before[i].start,
    ensures
        forall|j: int| 0 <= j < i ==> (#[trigger] before[j]).end <= address,
        forall|j: int| 0 <= j < i - 1 ==> (#[trigger] before[j]).end < address,
        forall|j: int| i <= j < before.len() ==> stop <= (#[trigger] before[j]).start,
        forall|j: int| i < j < before.len() ==> stop < (#[trigger] before[j]).start,
        forall|a: int| address <= a < stop ==> !#[trigger] covers(before, a),
{
    assert forall|j: int| 0 <= j < i - 1 implies (#[trigger] before[j]).end < address by {
        assert(before[j].end < before[i - 1].start);
    }
    assert forall|j: int| i < j < before.len() implies stop < (#[trigger] before[j]).start by {
        assert(before[i].end < before[j].start);
    }
    assert forall|a: int| address <= a < stop implies !#[trigger] covers(before, a) by {
        if covers(before, a) {
            let j = choose|j: int|
                0 <= j < before.len() && (#[trigger] before[j]).start <= a < before[j].end;
            if j < i {
                assert(before[j].end <= address);
            } else {
                assert(stop <= before[j].start);
            }
        }
    }
}

/// A block that touches neither neighbour becomes a hole of its own.
proof fn lemma_release_apart(
    before: Seq<Hole>,
    after: Seq<Hole>,
    lo: int,
    hi: int,
    i: int,
    address: int,
    stop: int,
)
    requires
        well_formed(before, lo, hi),
        0 <= i <= before.len(),
        0 <= lo <= address < stop <= hi,
        stop <= u64::MAX,
        forall|j: int| 0 <= j < i ==> (#[trigger] before[j]).end < address,
        forall|j: int| i <= j < before.len() ==> stop < (#[trigger] before[j]).start,
        after == before.insert(i, Hole { start: address as u64, end: stop as u64 }),
    ensures
        well_formed(after, lo, hi),
        forall|a: int| #[trigger] covers(after, a) <==> covers(before, a) || address <= a < stop,
{
    before.insert_ensures(i, Hole { start: address as u64, end: stop as u64 });
    assert forall|k: int| 0 <= k < after.len() implies (k < i ==> (#[trigger] after[k])
        == before[k]) && (k > i ==> after[k] == before[k - 1]) by {}
    assert forall|k: int, l: int| 0 <= k < l < after.len() implies (#[trigger] after[k]).end < (
    #[trigger] after[l]).start by {
        let sk = if k > i { k - 1 } else { k };
        let sl = if l > i { l - 1 } else { l };
        if k != i && l != i {
            assert(before[sk].end < before[sl].start);
        } else if k == i {
            assert(stop < before[sl].start);
        } else {
            assert(before[sk].end < address);
        }
    }
    assert forall|a: int| #[trigger] covers(after, a) <==> covers(before, a) || address <= a
        < stop by {
        if covers(after, a) {
            let k = choose|k: int|
                0 <= k < after.len() && (#[trigger] after[k]).start <= a < after[k].end;
            if k != i {
                let sk = if k > i { k - 1 } else { k };
                assert(before[sk].start <= a < before[sk].end);
            }
        }
        if covers(before, a) {
            let j = choose|j: int|
                0 <= j < before.len() && (#[trigger] before[j]).start <= a < before[j].end;
            let k = if j >= i { j + 1 } else { j };
            assert(after[k] == before[j]);
            assert(after[k].start <= a < after[k].end);
        }
        if address <= a < stop {
            assert(after[i].start <= a < after[i].end);
        }
    }
}

/// A block that touches only the hole below it extends that hole upwards.
proof fn lemma_release_above(
    before: Seq<Hole>,
    after: Seq<Hole>,
    lo: int,
    hi: int,
    i: int,
    address: int,
    stop: int,
)
    requires
        well_formed(before, lo, hi),
        0 < i <= before.len(),
        0 <= lo <= address < stop <= hi,
        stop <= u64::MAX,
        before[i - 1].end == address,
        forall|j: int| i <= j < before.len() ==> stop < (#[trigger] before[j]).start,
        after == before.update(i - 1, Hole { start: before[i - 1].start, end: stop as u64 }),
    ensures
        well_formed(after, lo, hi),
        forall|a: int| #[trigger] covers(after, a) <==> covers(before, a) || address <= a < stop,
{
    assert forall|k: int, l: int| 0 <= k < l < after.len() implies (#[trigger] after[k]).end < (
    #[trigger] after[l]).start by {
        assert(before[k].end < before[l].start);
        if k == i - 1 {
            assert(stop < before[l].start);
        }
    }
    assert forall|a: int| #[trigger] covers(after, a) <==> covers(before, a) || address <= a
        < stop by {
        if covers(after, a) {
            let k = choose|k: int|
                0 <= k < after.len() && (#[trigger] after[k]).start <= a < after[k].end;
            if !(address <= a < stop) {
                assert(before[k].start <= a < before[k].end);
            }
        }
        if covers(before, a) {
            let j = choose|j: int|
                0 <= j < before.len() && (#[trigger] before[j]).start <= a < before[j].end;
            assert(after[j].start <= a < after[j].end);
        }
        if address <= a < stop {
            assert(after[i - 1].start <= a < after[i - 1].end);
        }
    }
}

/// A block that touches only the hole above it extends that hole downwards.
proof fn lemma_release_below(
    before: Seq<Hole>,
    after: Seq<Hole>,
    lo: int,
    hi: int,
    i: int,
    address: int,
    stop: int,
)
    requires
        well_formed(before, lo, hi),
        0 <= i < before.len(),
        0 <= lo <= address < stop <= hi,
        stop <= u64::MAX,
        before[i].start == stop,
        forall|j: int| 0 <= j < i ==> (#[trigger] before[j]).end < address,
        after == before.update(i, Hole { start: address as u64, end: before[i].end }),
    ensures
        well_formed(after, lo, hi),
        forall|a: int| #[trigger] covers(after, a) <==> covers(before, a) || address <= a < stop,
{
    assert forall|k: int, l: int| 0 <= k < l < after.len() implies (#[trigger] after[k]).end < (
    #[trigger] after[l]).start by {
        assert(before[k].end < before[l].start);
        if l == i {
            assert(before[k].end < address);
        }
    }
    assert forall|a: int| #[trigger] covers(after, a) <==> covers(before, a) || address <= a
        < stop by {
        if covers(after, a) {
            let k = choose|k: int|
                0 <= k < after.len() && (#[trigger] after[k]).start <= a < after[k].end;
            if !(address <= a < stop) {
                assert(before[k].start <= a < before[k].end);
            }
        }
        if covers(before, a) {
            let j = choose|j: int|
                0 <= j < before.len() && (#[trigger] before[j]).start <= a < before[j].end;
            assert(after[j].start <= a < after[j].end);
        }
        if address <= a < stop {
            assert(after[i].start <= a < after[i].end);
        }
    }
}

/// A block that touches both neighbours joins them into one hole.
#[verifier::rlimit(30)]
proof fn lemma_release_between(
    before: Seq<Hole>,
    after: Seq<Hole>,
    lo: int,
    hi: int,
    i: int,
    address: int,
    stop: int,
)
    requires
        well_formed(before, lo, hi),
        0 < i < before.len(),
        0 <= lo <= address < stop <= hi,
        before[i - 1].end == address,
        before[i].start == stop,
        after == before.update(
            i - 1,
            Hole { start: before[i - 1].start, end: before[i].end },
        ).remove(i),
    ensures
        well_formed(after, lo, hi),
        forall|a: int| #[trigger] covers(after, a) <==> covers(before, a) || address <= a < stop,
{
    let merged = Hole { start: before[i - 1].start, end: before[i].end };
    let middle = before.update(i - 1, merged);
    middle.remove_ensures(i);
    assert forall|k: int| 0 <= k < after.len() implies (k < i - 1 ==> (#[trigger] after[k])
        == before[k]) && (k == i - 1 ==> after[k] == merged) && (k >= i ==> after[k] == before[k
        + 1]) by {
        if k < i {
            assert(after[k] == middle[k]);
        } else {
            assert(after[k] == middle[k + 1]);
        }
    }
    assert forall|k: int| 0 <= k < after.len() implies lo <= (#[trigger] after[k]).start
        < after[k].end <= hi by {
        if k < i - 1 {
            assert(after[k] == before[k]);
        } else if k >= i {
            assert(after[k] == before[k + 1]);
        } else {
            assert(before[i - 1].end < before[i].start || true);
        }
    }
    assert forall|k: int, l: int| 0 <= k < l < after.len() implies (#[trigger] after[k]).end < (
    #[trigger] after[l]).start by {
        let sk = if k >= i { k + 1 } else { k };
        let sl = if l >= i { l + 1 } else { l };
        assert(before[sk].end < before[sl].start);
        if k == i - 1 {
            assert(before[i].end < before[sl].start);
        }
    }
    assert forall|a: int| #[trigger] covers(after, a) <==> covers(before, a) || address <= a
        < stop by {
        if covers(after, a) {
            let k = choose|k: int|
                0 <= k < after.len() && (#[trigger] after[k]).start <= a < after[k].end;
            if !(address <= a < stop) {
                if k == i - 1 {
                    if a < address {
                        assert(before[i - 1].start <= a < before[i - 1].end);
                    } else {
                        assert(before[i].start <= a < before[i].end);
                    }
                } else {
                    let sk = if k >= i { k + 1 } else { k };
                    assert(before[sk].start <= a < before[sk].end);
                }
            }
        }
        if covers(before, a) {
            let j = choose|j: int|
                0 <= j < before.len() && (#[trigger] before[j]).start <= a < before[j].end;
            let k = if j >= i { j - 1 } else { j };
            assert(after[k].start <= a < after[k].end);
        }
        if address <= a < stop {
            assert(after[i - 1].start <= a < after[i - 1].end);
        }
    }
}

/// Within one half of the canonical addresses, page numbers grow with the
/// addresses.
proof fn lemma_page_numbers_ordered(a: u64, b: u64)
    requires
        a <= b,
        is_canonical(a),
        is_canonical(b),
        a < 0x8000_0000_0000 <==> b < 0x8000_0000_0000,
    ensures
        page_number(a) <= page_number(b),
        page_number(b) < 0x10_0000_0000,
        a % 4096 == 0 && b % 4096 == 0 && a < b ==> a + 4096 <= b,
{
    assert((a % 0x1_0000_0000_0000) / 4096 <= (b % 0x1_0000_0000_0000) / 4096 && (b
        % 0x1_0000_0000_0000) / 4096 < 0x10_0000_0000 && (a % 4096 == 0 && b % 4096 == 0 && a < b
        ==> a <= b - 4096)) by (bit_vector)
        requires
            a <= b,
            a < 0x8000_0000_0000 || a >= 0xffff_8000_0000_0000,
            b < 0x8000_0000_0000 || b >= 0xffff_8000_0000_0000,
            a < 0x8000_0000_0000 <==> b < 0x8000_0000_0000,
    ;
}

/// The pages of two addresses stand in the order of the addresses, each in
/// the half of its address.
proof fn lemma_page_starts(a: u64, b: u64, page_a: u64, page_b: u64)
    requires
        a <= b,
        page_a == a - a % 4096,
        page_b == b - b % 4096,
    ensures
        page_a <= page_b,
        page_a < 0x8000_0000_0000 <==> a < 0x8000_0000_0000,
        page_b < 0x8000_0000_0000 <==> b < 0x8000_0000_0000,
{
    assert(page_a <= page_b && (page_a < 0x8000_0000_0000 <==> a < 0x8000_0000_0000) && (page_b
        < 0x8000_0000_0000 <==> b < 0x8000_0000_0000)) by (bit_vector)
        requires
            a <= b,
            page_a == a - a % 4096,
            page_b == b - b % 4096,
    ;
}

/// One more page backed: the page after those that `taken` speaks of was
/// mapped to the frame handed out as number `index`.
proof fn lemma_backed_step(
    start: Map<u64, Mapping>,
    before: Map<u64, Mapping>,
    after: Map<u64, Mapping>,
    regions: Seq<MemoryRegion>,
    first: u64,
    taken: Seq<nat>,
    lo: nat,
    index: nat,
    hi: nat,
    mapping: Mapping,
)
    requires
        first + taken.len() < 0x10_0000_0000,
        backed(before, regions, first, taken, lo, index),
        unchanged_outside(start, before, first, taken.len()),
        lo <= index < hi,
        mapping.flags == heap_flags(),
        nth_frame(regions, index) == Some(mapping.frame.addr() as int),
        after == before.insert((first + taken.len()) as u64, mapping) || (after == before
            && before.contains_key((first + taken.len()) as u64) && before[(first
            + taken.len()) as u64] == mapping),
    ensures
        backed(after, regions, first, taken.push(index), lo, hi),
        unchanged_outside(start, after, first, taken.len() + 1),
{
    let grown = taken.push(index);
    let n = (first + taken.len()) as u64;
    assert(after.contains_key(n) && after[n] == mapping);
    assert forall|i: int| 0 <= i < grown.len() implies {
        &&& lo <= #[trigger] grown[i] < hi
        &&& after.contains_key((first + i) as u64)
        &&& after[(first + i) as u64].flags == heap_flags()
        &&& nth_frame(regions, grown[i]) == Some(after[(first + i) as u64].frame.addr() as int)
    } by {
        if i < taken.len() {
            assert(grown[i] == taken[i]);
            assert(before.contains_key((first + i) as u64));
            assert(after[(first + i) as u64] == before[(first + i) as u64]);
        }
    }
    assert forall|i: int, j: int| 0 <= i < j < grown.len() implies #[trigger] grown[i]
        < #[trigger] grown[j] by {
        assert(grown[i] == taken[i]);
        if j < taken.len() {
            assert(grown[j] == taken[j]);
        }
    }
    assert forall|m: u64| !(first <= m < first + taken.len() + 1) implies (#[trigger] after.contains_key(
        m,
    ) <==> start.contains_key(m)) && (start.contains_key(m) ==> after[m] == start[m]) by {
        assert(m != n);
        assert(!(first <= m < first + taken.len()));
        assert(before.contains_key(m) <==> start.contains_key(m));
        assert(after.contains_key(m) <==> before.contains_key(m));
        if start.contains_key(m) {
            assert(before[m] == start[m]);
            assert(after[m] == before[m]);
        }
    }
    assert(unchanged_outside(start, after, first, taken.len() + 1));
}

/// What backing one page does to the layout, whatever comes of it: frames
/// are only taken, steps only added, tables only created; and on success
/// the page is mapped to the frame that was next, else no mapping changes.
proof fn lemma_page_outcome(before: Layout, root: u64, regions: Seq<MemoryRegion>, page: Page)
    ensures
        ({
            let after = page_outcome(before, root, regions, page).0;
            let res = page_outcome(before, root, regions, page).1;
            let n = page.number();
            &&& before.allocated <= after.allocated
            &&& starts_with_steps(after.journal, before.journal)
            &&& tables_kept(before.level3, after.level3)
            &&& tables_kept(before.level2, after.level2)
            &&& tables_kept(before.level1, after.level1)
            &&& match res {
                Ok(()) => {
                    &&& nth_frame(regions, before.allocated) is Some
                    &&& before.allocated < after.allocated
                    &&& ({
                        let mapping = Mapping {
                            frame: PhysFrame::at(nth_frame(regions, before.allocated).unwrap()),
                            flags: heap_flags(),
                        };
                        after.mappings == before.mappings.insert(n, mapping) || (after.mappings
                            == before.mappings && before.mappings.contains_key(n)
                            && before.mappings[n] == mapping)
                    })
                },
                Err(e) => after.mappings == before.mappings && stopped_by(
                    e,
                    before.mappings,
                    after,
                    total_frames(regions),
                    n,
                ),
            }
        }),
{
    let after = page_outcome(before, root, regions, page).0;
    assert(before.journal.subrange(0, before.journal.len() as int) =~= before.journal);
    assert(after.journal.subrange(0, before.journal.len() as int) =~= before.journal);
    if nth_frame(regions, before.allocated) is None {
        crate::memory::frame::lemma_frames_exhausted(regions, before.allocated);
    }
}

/// Backs one page: takes the next frame and maps the page to it.
fn back_page(mapper: &mut Mapper, frame_allocator: &mut BootInfoFrameAllocator, page: Page) -> (res:
    Result<(), MapError>)
    ensures
        final(mapper).physical_memory_offset() == old(mapper).physical_memory_offset(),
        final(mapper).root_table() == old(mapper).root_table(),
        final(frame_allocator).regions() == old(frame_allocator).regions(),
        (final(mapper).layout(final(frame_allocator).allocated()), res) == page_outcome(
            old(mapper).layout(old(frame_allocator).allocated()),
            old(mapper).root_table().addr(),
            old(frame_allocator).regions(),
            page,
        ),
{
    let frame = match frame_allocator.allocate_frame() {
        Some(frame) => frame,
        None => {
            return Err(MapError::FrameAllocationFailed);
        },
    };
    mapper.map_page(page, frame, PageTableFlags::read_write(), frame_allocator)
}

/// Backs the heap: every page that holds a byte of
/// `[heap_start, heap_start + heap_size)` gets a frame of its own from
/// `frame_allocator` and is mapped to it, present and writable, lowest page
/// first.
///
/// The first page that cannot be backed ends the work with its error. The
/// pages before it stay mapped and the frames taken stay taken: nothing is
/// rolled back.
#[verifier::spinoff_prover]
#[verifier::rlimit(40)]
pub fn init_heap(
    mapper: &mut Mapper,
    frame_allocator: &mut BootInfoFrameAllocator,
    heap_start: u64,
    heap_size: u64,
) -> (res: Result<(), MapError>)
    requires
        heap_range_valid(heap_start, heap_size),
    ensures
        final(mapper).physical_memory_offset() == old(mapper).physical_memory_offset(),
        final(mapper).root_table() == old(mapper).root_table(),
        final(frame_allocator).regions() == old(frame_allocator).regions(),
        (final(mapper).layout(final(frame_allocator).allocated()), res) == heap_outcome(
            old(mapper).layout(old(frame_allocator).allocated()),
            old(mapper).root_table().addr(),
            old(frame_allocator).regions(),
            Page::holding(heap_start),
            heap_pages(heap_start, heap_size),
        ),
        old(frame_allocator).allocated() <= final(frame_allocator).allocated(),
        starts_with_steps(final(mapper).journal(), old(mapper).journal()),
        tables_kept(old(mapper).level3_tables(), final(mapper).level3_tables()),
        tables_kept(old(mapper).level2_tables(), final(mapper).level2_tables()),
        tables_kept(old(mapper).level1_tables(), final(mapper).level1_tables()),
        backs(
            old(mapper).layout(old(frame_allocator).allocated()),
            final(mapper).layout(final(frame_allocator).allocated()),
            old(frame_allocator).regions(),
            page_number(heap_start),
            heap_pages(heap_start, heap_size),
            res,
        ),
{
    let ghost regions = frame_allocator.regions();
    let ghost first = page_number(heap_start);
    let ghost count = heap_pages(heap_start, heap_size);
    let ghost start = mapper.layout(frame_allocator.allocated());
    let ghost root = mapper.root_table().addr();
    let ghost first_page = Page::holding(heap_start);
    proof {
        lemma_started(start, root, regions, first_page, first, count);
    }
    if heap_size == 0 {
        proof {
            lemma_finished(start, start, root, regions, first_page, first_page, first, count, Seq::empty());
        }
        return Ok(());
    }
    let last: u64 = heap_start + (heap_size - 1);
    let last_page: u64 = Page::containing_address(last).unwrap().start_address();
    let mut page: Page = Page::containing_address(heap_start).unwrap();
    let ghost mut taken: Seq<nat> = Seq::empty();
    proof {
        lemma_page_starts(heap_start, last, page.addr(), last_page);
        lemma_page_numbers_ordered(heap_start, last);
        lemma_page_numbers_ordered(page.addr(), last_page);
    }
    loop
        invariant
            mapper.physical_memory_offset() == old(mapper).physical_memory_offset(),
            mapper.root_table() == old(mapper).root_table(),
            frame_allocator.regions() == regions,
            regions == old(frame_allocator).regions(),
            start == old(mapper).layout(old(frame_allocator).allocated()),
            root == old(mapper).root_table().addr(),
            first_page == Page::holding(heap_start),
            first == page_number(heap_start),
            count == heap_pages(heap_start, heap_size),
            page.addr() % 4096 == 0,
            is_canonical(page.addr()),
            is_canonical(last_page),
            last_page % 4096 == 0,
            page.addr() <= last_page,
            page.addr() < 0x8000_0000_0000 <==> last_page < 0x8000_0000_0000,
            page_number(last_page) == first + count - 1,
            page.number() == first + taken.len(),
            taken.len() < count,
            progress(
                start,
                mapper.layout(frame_allocator.allocated()),
                root,
                regions,
                first_page,
                page,
                first,
                count,
                taken,
            ),
        decreases last_page - page.addr(),
    {
        let ghost before = mapper.layout(frame_allocator.allocated());
        proof {
            lemma_page_numbers_ordered(page.addr(), last_page);
        }
        match back_page(mapper, frame_allocator, page) {
            Ok(()) => {},
            Err(e) => {
                proof {
                    lemma_stopped(start, before, root, regions, first_page, page, first, count, taken);
                }
                return Err(e);
            },
        }
        proof {
            lemma_progress(start, before, root, regions, first_page, page, first, count, taken);
            taken = taken.push(before.allocated);
        }
        if page.start_address() == last_page {
            proof {
                lemma_finished(
                    start,
                    mapper.layout(frame_allocator.allocated()),
                    root,
                    regions,
                    first_page,
                    page.following(),
                    first,
                    count,
                    taken,
                );
            }
            return Ok(());
        }
        page = page.next().unwrap();
    }
}

/// How far the backing of the heap has come: the pages that `taken` speaks
/// of are backed, the others are as they were, and what is left to do from
/// `page` on leads to what the whole leads to.
#[verifier::opaque]
spec fn progress(
    start: Layout,
    now: Layout,
    root: u64,
    regions: Seq<MemoryRegion>,
    first_page: Page,
    page: Page,
    first: u64,
    count: nat,
    taken: Seq<nat>,
) -> bool {
    &&& taken.len() <= count
    &&& start.allocated <= now.allocated
    &&& heap_outcome(start, root, regions, first_page, count) == heap_outcome(
        now,
        root,
        regions,
        page,
        (count - taken.len()) as nat,
    )
    &&& starts_with_steps(now.journal, start.journal)
    &&& tables_kept(start.level3, now.level3)
    &&& tables_kept(start.level2, now.level2)
    &&& tables_kept(start.level1, now.level1)
    &&& backed(now.mappings, regions, first, taken, start.allocated, now.allocated)
    &&& unchanged_outside(start.mappings, now.mappings, first, taken.len())
}

/// Before the first page nothing has changed.
proof fn lemma_started(
    start: Layout,
    root: u64,
    regions: Seq<MemoryRegion>,
    first_page: Page,
    first: u64,
    count: nat,
)
    ensures
        progress(start, start, root, regions, first_page, first_page, first, count, Seq::empty()),
{
    reveal(progress);
    assert(start.journal.subrange(0, start.journal.len() as int) =~= start.journal);
}

/// Once all pages are backed the work has ended well.
proof fn lemma_finished(
    start: Layout,
    now: Layout,
    root: u64,
    regions: Seq<MemoryRegion>,
    first_page: Page,
    page: Page,
    first: u64,
    count: nat,
    taken: Seq<nat>,
)
    requires
        progress(start, now, root, regions, first_page, page, first, count, taken),
        taken.len() == count,
    ensures
        heap_outcome(start, root, regions, first_page, count) == (now, Ok::<(), MapError>(())),
        start.allocated <= now.allocated,
        starts_with_steps(now.journal, start.journal),
        tables_kept(start.level3, now.level3),
        tables_kept(start.level2, now.level2),
        tables_kept(start.level1, now.level1),
        backs(start, now, regions, first, count, Ok(())),
{
    reveal(progress);
    assert(backed(now.mappings, regions, first, taken, start.allocated, now.allocated));
}

/// Backing one more page carries the progress on.
proof fn lemma_progress(
    start: Layout,
    before: Layout,
    root: u64,
    regions: Seq<MemoryRegion>,
    first_page: Page,
    page: Page,
    first: u64,
    count: nat,
    taken: Seq<nat>,
)
    requires
        progress(start, before, root, regions, first_page, page, first, count, taken),
        taken.len() < count,
        page.number() == first + taken.len(),
        first + taken.len() < 0x10_0000_0000,
        page_outcome(before, root, regions, page).1 is Ok,
    ensures
        progress(
            start,
            page_outcome(before, root, regions, page).0,
            root,
            regions,
            first_page,
            page.following(),
            first,
            count,
            taken.push(before.allocated),
        ),
{
    reveal(progress);
    let after = page_outcome(before, root, regions, page).0;
    lemma_page_outcome(before, root, regions, page);
    let address = nth_frame(regions, before.allocated).unwrap();
    let mapping = Mapping { frame: PhysFrame::at(address), flags: heap_flags() };
    lemma_at_address(regions, before.allocated);
    lemma_backed_step(
        start.mappings,
        before.mappings,
        after.mappings,
        regions,
        first,
        taken,
        start.allocated,
        before.allocated,
        after.allocated,
        mapping,
    );
    assert(after.journal.subrange(0, start.journal.len() as int) =~= before.journal.subrange(
        0,
        start.journal.len() as int,
    ));
    assert(starts_with_steps(after.journal, start.journal));
    lemma_tables_kept(start.level3, before.level3, after.level3);
    lemma_tables_kept(start.level2, before.level2, after.level2);
    lemma_tables_kept(start.level1, before.level1, after.level1);
}

/// Tables that are kept twice are kept.
proof fn lemma_tables_kept(a: Map<u64, u64>, b: Map<u64, u64>, c: Map<u64, u64>)
    requires
        tables_kept(a, b),
        tables_kept(b, c),
    ensures
        tables_kept(a, c),
{
    assert forall|k: u64| #[trigger] a.contains_key(k) implies c.contains_key(k) && c[k] == a[k] by {
        assert(b.contains_key(k));
    }
}

/// The frame at the address of a frame on offer has that address.
proof fn lemma_at_address(regions: Seq<MemoryRegion>, n: nat)
    requires
        nth_frame(regions, n) is Some,
    ensures
        PhysFrame::at(nth_frame(regions, n).unwrap()).addr() == nth_frame(regions, n).unwrap(),
{
    crate::memory::frame::lemma_frame_aligned_and_usable(regions, n);
    crate::memory::frame::lemma_frame_at(nth_frame(regions, n).unwrap());
}

/// A page that cannot be backed ends the work: what was reached before it
/// stands, and the error says what stopped it.
proof fn lemma_stopped(
    start: Layout,
    before: Layout,
    root: u64,
    regions: Seq<MemoryRegion>,
    first_page: Page,
    page: Page,
    first: u64,
    count: nat,
    taken: Seq<nat>,
)
    requires
        progress(start, before, root, regions, first_page, page, first, count, taken),
        taken.len() < count,
        page.number() == first + taken.len(),
        first + taken.len() < 0x10_0000_0000,
        page_outcome(before, root, regions, page).1 is Err,
    ensures
        ({
            let after = page_outcome(before, root, regions, page).0;
            &&& heap_outcome(start, root, regions, first_page, count) == page_outcome(
                before,
                root,
                regions,
                page,
            )
            &&& start.allocated <= after.allocated
            &&& starts_with_steps(after.journal, start.journal)
            &&& tables_kept(start.level3, after.level3)
            &&& tables_kept(start.level2, after.level2)
            &&& tables_kept(start.level1, after.level1)
            &&& backs(start, after, regions, first, count, page_outcome(before, root, regions, page).1)
        }),
{
    reveal(progress);
    let after = page_outcome(before, root, regions, page).0;
    let e = page_outcome(before, root, regions, page).1->Err_0;
    lemma_page_outcome(before, root, regions, page);
    assert(after.journal.subrange(0, start.journal.len() as int) =~= before.journal.subrange(
        0,
        start.journal.len() as int,
    ));
    assert(starts_with_steps(after.journal, start.journal));
    lemma_tables_kept(start.level3, before.level3, after.level3);
    lemma_tables_kept(start.level2, before.level2, after.level2);
    lemma_tables_kept(start.level1, before.level1, after.level1);
    assert(start.mappings.contains_key(page.number()) <==> before.mappings.contains_key(
        page.number(),
    ));
    if before.mappings.contains_key(page.number()) {
        assert(start.mappings[page.number()] == before.mappings[page.number()]);
    }
    assert(stopped_by(e, start.mappings, after, total_frames(regions), page.number()));
    lemma_backed_wider(
        before.mappings,
        regions,
        first,
        taken,
        start.allocated,
        before.allocated,
        after.allocated,
    );
    assert(backed(after.mappings, regions, first, taken, start.allocated, after.allocated));
}

/// What is backed by frames taken up to one number is backed by frames
/// taken up to a later one.
proof fn lemma_backed_wider(
    mappings: Map<u64, Mapping>,
    regions: Seq<MemoryRegion>,
    first: u64,
    taken: Seq<nat>,
    lo: nat,
    hi: nat,
    later: nat,
)
    requires
        backed(mappings, regions, first, taken, lo, hi),
        hi <= later,
    ensures
        backed(mappings, regions, first, taken, lo, later),
{
    assert forall|i: int| 0 <= i < taken.len() implies lo <= #[trigger] taken[i] < later by {
        assert(lo <= taken[i] < hi);
    }
}

/// Two blocks that are live at the same time share no byte: what the first
/// allocation took is not free for the second.
pub proof fn lemma_live_blocks_apart(
    before: Heap,
    between: Heap,
    first: int,
    first_size: int,
    second: int,
    second_size: int,
    align: int,
)
    requires
        first_size > 0,
        forall|a: int|
            #![trigger between.is_free(a)]
            between.is_free(a) <==> before.is_free(a) && !(first <= a < first + first_size),
        between.can_place(second, second_size, align),
    ensures
        first + first_size <= second || second + second_size <= first,
{
    if second <= first < second + second_size {
        assert(between.is_free(first));
    } else if first <= second < first + first_size {
        assert(between.is_free(second));
    }
}

/// Giving a block back undoes its allocation: the same addresses are free
/// as before the block was taken.
pub proof fn lemma_release_restores(
    before: Heap,
    taken: Heap,
    released: Heap,
    at: int,
    size: int,
    align: int,
    a: int,
)
    requires
        before.can_place(at, size, align),
        forall|x: int|
            #![trigger taken.is_free(x)]
            taken.is_free(x) <==> before.is_free(x) && !(at <= x < at + size),
        forall|x: int|
            #![trigger released.is_free(x)]
            released.is_free(x) <==> taken.is_free(x) || at <= x < at + size,
    ensures
        released.is_free(a) <==> before.is_free(a),
{
    assert(taken.is_free(a) <==> before.is_free(a) && !(at <= a < at + size));
    if at <= a < at + size {
        assert(before.is_free(a));
    }
}

} // verus!
