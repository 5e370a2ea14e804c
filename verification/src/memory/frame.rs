//! The physical frame allocator.
//!
//! Frames are handed out lazily from the usable regions of the boot-time
//! memory inventory: the `n`-th allocation returns the `n`-th frame-sized,
//! frame-aligned chunk that lies completely inside a usable region, regions
//! taken in the order in which they were supplied. Frames are never returned.

use vstd::prelude::*;

verus! {

/// Size of a physical frame and of a virtual page, in bytes.
pub const FRAME_SIZE: u64 = 4096;

/// First address beyond the 52-bit physical address space.
pub const PHYSICAL_ADDRESS_LIMIT: u64 = 0x10_0000_0000_0000;

/// What a stretch of physical memory may be used for.
#[derive(Clone, Copy, Debug, PartialEq, Eq, Structural)]
pub enum MemoryRegionKind {
    /// Free for the kernel to use.
    Usable,
    /// Occupied by firmware, the boot loader, devices or anything else.
    Reserved,
}

/// A contiguous range `[start, end)` of physical addresses.
#[derive(Clone, Copy, Debug, PartialEq, Eq, Structural)]
pub struct MemoryRegion {
    pub start: u64,
    pub end: u64,
    pub kind: MemoryRegionKind,
}

/// A 4 KiB-aligned unit of physical memory below the physical address limit,
/// named by its first address.
#[derive(Clone, Copy, Debug, PartialEq, Eq, Structural)]
pub struct PhysFrame {
    start: u64,
}

/// Address of the first aligned frame boundary at or after the region's start.
pub open spec fn first_frame(r: MemoryRegion) -> int {
    if r.start % 4096 == 0 {
        r.start as int
    } else {
        r.start + 4096 - r.start % 4096
    }
}

/// End of the part of a region that physical addresses can reach.
pub open spec fn usable_end(r: MemoryRegion) -> int {
    if r.end < 0x10_0000_0000_0000 {
        r.end as int
    } else {
        0x10_0000_0000_0000
    }
}

/// Number of whole aligned frames that a region offers.
pub open spec fn frames_in(r: MemoryRegion) -> nat {
    if r.kind == MemoryRegionKind::Usable && first_frame(r) + 4096 <= usable_end(r) {
        ((usable_end(r) - first_frame(r)) / 4096) as nat
    } else {
        0
    }
}

/// Number of frames offered by the regions before index `i`.
pub open spec fn frames_before(regions: Seq<MemoryRegion>, i: int) -> nat
    decreases i,
{
    if i <= 0 {
        0
    } else {
        frames_before(regions, i - 1) + frames_in(regions[i - 1])
    }
}

/// Number of frames offered by all regions together.
pub open spec fn total_frames(regions: Seq<MemoryRegion>) -> nat {
    frames_before(regions, regions.len() as int)
}

/// Start address of the `n`-th frame counted from region `i` on, if there is one.
pub open spec fn nth_frame_from(regions: Seq<MemoryRegion>, i: int, n: nat) -> Option<int>
    decreases regions.len() - i,
{
    if i < 0 || i >= regions.len() {
        None
    } else if n < frames_in(regions[i]) {
        Some(first_frame(regions[i]) + 4096 * n)
    } else {
        nth_frame_from(regions, i + 1, (n - frames_in(regions[i])) as nat)
    }
}

/// Start address of the `n`-th frame of the inventory, if there is one.
pub open spec fn nth_frame(regions: Seq<MemoryRegion>, n: nat) -> Option<int> {
    nth_frame_from(regions, 0, n)
}

/// Two regions share no address.
pub open spec fn regions_apart(a: MemoryRegion, b: MemoryRegion) -> bool {
    a.end <= b.start || b.end <= a.start
}

/// No two usable regions of the inventory overlap.
pub open spec fn usable_regions_disjoint(regions: Seq<MemoryRegion>) -> bool {
    forall|i: int, j: int|
        0 <= i < j < regions.len() && regions[i].kind == MemoryRegionKind::Usable
            && regions[j].kind == MemoryRegionKind::Usable ==> regions_apart(
            #[trigger] regions[i],
            #[trigger] regions[j],
        )
}

impl PhysFrame {
    #[verifier::type_invariant]
    spec fn aligned(self) -> bool {
        self.start % 4096 == 0 && self.start < 0x10_0000_0000_0000
    }

    /// The frame's first address.
    pub closed spec fn addr(self) -> u64 {
        self.start
    }

    /// The frame that starts at `address`.
    pub closed spec fn at(address: int) -> PhysFrame {
        PhysFrame { start: address as u64 }
    }

    /// The frame that contains `address`, if `address` is a physical address.
    pub fn containing_address(address: u64) -> (frame: Option<PhysFrame>)
        ensures
            frame is Some <==> address < PHYSICAL_ADDRESS_LIMIT,
            frame matches Some(f) ==> f.addr() == address - address % 4096,
    {
        if address < PHYSICAL_ADDRESS_LIMIT {
            Some(PhysFrame { start: address - address % 4096 })
        } else {
            None
        }
    }

    /// The frame that starts at `address`, if `address` is a frame boundary
    /// below the physical address limit.
    pub fn from_start_address(address: u64) -> (frame: Option<PhysFrame>)
        ensures
            frame is Some <==> address % 4096 == 0 && address < PHYSICAL_ADDRESS_LIMIT,
            frame matches Some(f) ==> f.addr() == address,
    {
        if address % 4096 == 0 && address < PHYSICAL_ADDRESS_LIMIT {
            Some(PhysFrame { start: address })
        } else {
            None
        }
    }

    /// The frame's first address.
    pub fn start_address(&self) -> (address: u64)
        ensures
            address == self.addr(),
            address % 4096 == 0,
            address < PHYSICAL_ADDRESS_LIMIT,
    {
        proof {
            use_type_invariant(self);
        }
        self.start
    }
}

/// Number of whole aligned frames in `r`, and the address of the first.
fn region_frames(r: &MemoryRegion) -> (res: (u64, u64))
    ensures
        res.0 == frames_in(*r),
        res.0 > 0 ==> res.1 == first_frame(*r),
        res.0 <= 0x10_0000_0000_0000,
{
    match r.kind {
        MemoryRegionKind::Reserved => (0, 0),
        MemoryRegionKind::Usable => {
            let rem: u64 = r.start % 4096;
            let pad: u64 = if rem == 0 { 0 } else { 4096 - rem };
            if r.start > u64::MAX - pad {
                return (0, 0);
            }
            let first: u64 = r.start + pad;
            let end: u64 = if r.end < PHYSICAL_ADDRESS_LIMIT {
                r.end
            } else {
                PHYSICAL_ADDRESS_LIMIT
            };
            if first > end || end - first < 4096 {
                (0, 0)
            } else {
                ((end - first) / 4096, first)
            }
        },
    }
}

/// The frame allocator over a boot-time memory inventory.
pub struct BootInfoFrameAllocator {
    regions: Vec<MemoryRegion>,
    /// Index of the region that the next frame is looked for in.
    region: usize,
    /// Number of frames of that region that were handed out already.
    taken: u64,
}

impl BootInfoFrameAllocator {
    #[verifier::type_invariant]
    spec fn cursor_in_range(self) -> bool {
        &&& self.region <= self.regions.len()
        &&& self.region < self.regions.len() ==> self.taken <= frames_in(self.regions[self.region as int])
        &&& self.region == self.regions.len() ==> self.taken == 0
    }

    /// The inventory that the allocator draws from.
    pub closed spec fn regions(self) -> Seq<MemoryRegion> {
        self.regions@
    }

    /// Number of frames handed out so far.
    pub closed spec fn allocated(self) -> nat {
        frames_before(self.regions@, self.region as int) + self.taken as nat
    }

    /// Takes over the inventory. Nothing is indexed up front.
    pub fn init(memory_regions: Vec<MemoryRegion>) -> (allocator: BootInfoFrameAllocator)
        ensures
            allocator.regions() == memory_regions@,
            allocator.allocated() == 0,
    {
        BootInfoFrameAllocator { regions: memory_regions, region: 0, taken: 0 }
    }

    /// Whether `n` more frames can be handed out.
    pub fn has_frames(&self, n: u64) -> (enough: bool)
        ensures
            enough == (self.allocated() + n <= total_frames(self.regions())),
    {
        proof {
            use_type_invariant(self);
            if self.region < self.regions.len() {
                lemma_frames_before_monotonic(
                    self.regions@,
                    self.region as int + 1,
                    self.regions.len() as int,
                );
            }
        }
        if n == 0 {
            return true;
        }
        let mut found: u64 = 0;
        let mut i: usize = self.region;
        while i < self.regions.len()
            invariant
                self.region <= i <= self.regions.len(),
                self.region < self.regions.len() ==> self.taken <= frames_in(
                    self.regions[self.region as int],
                ),
                self.region == self.regions.len() ==> self.taken == 0,
                found < n,
                i == self.region ==> found == 0,
                i > self.region ==> found + self.allocated() == frames_before(
                    self.regions@,
                    i as int,
                ),
            decreases self.regions.len() - i,
        {
            let (count, _) = region_frames(&self.regions[i]);
            let offer: u64 = if i == self.region {
                count - self.taken
            } else {
                count
            };
            proof {
                lemma_frames_before_monotonic(
                    self.regions@,
                    i as int + 1,
                    self.regions.len() as int,
                );
            }
            if offer >= n - found {
                return true;
            }
            found = found + offer;
            i = i + 1;
        }
        false
    }

    /// Hands out the next unused frame, or `None` once every usable region is
    /// used up.
    pub fn allocate_frame(&mut self) -> (frame: Option<PhysFrame>)
        ensures
            final(self).regions() == old(self).regions(),
            match nth_frame(old(self).regions(), old(self).allocated()) {
                Some(address) => frame matches Some(f) && f.addr() == address && f
                    == PhysFrame::at(address) && final(self).allocated() == old(self).allocated()
                    + 1,
                None => frame is None && final(self).allocated() == old(self).allocated(),
            },
    {
        proof {
            use_type_invariant(&*self);
            lemma_nth_frame_shift(self.regions@, self.region as int, self.taken as nat);
        }
        let ghost start_count = self.allocated();
        while self.region < self.regions.len()
            invariant
                self.regions@ == old(self).regions@,
                self.region <= self.regions.len(),
                self.region < self.regions.len() ==> self.taken <= frames_in(
                    self.regions[self.region as int],
                ),
                self.region == self.regions.len() ==> self.taken == 0,
                start_count == old(self).allocated(),
                self.allocated() == start_count,
                nth_frame(self.regions@, start_count) == nth_frame_from(
                    self.regions@,
                    self.region as int,
                    self.taken as nat,
                ),
            decreases self.regions.len() - self.region,
        {
            let (count, first) = region_frames(&self.regions[self.region]);
            if self.taken < count {
                proof {
                    lemma_slot_inside(self.regions[self.region as int], self.taken as nat);
                }
                let start: u64 = first + 4096 * self.taken;
                self.taken = self.taken + 1;
                return Some(PhysFrame { start });
            }
            self.taken = 0;
            self.region = self.region + 1;
        }
        None
    }
}

/// A frame is known by its first address.
pub proof fn lemma_frame_by_address(frame: PhysFrame)
    ensures
        frame == PhysFrame::at(frame.addr() as int),
        PhysFrame::at(frame.addr() as int).addr() == frame.addr(),
{
}

/// The frame at an address has that address.
pub proof fn lemma_frame_at(address: int)
    requires
        0 <= address <= u64::MAX,
    ensures
        PhysFrame::at(address).addr() == address,
{
}

/// Counting from region `i` after skipping what the earlier regions offer is
/// the same as counting from the start.
pub proof fn lemma_nth_frame_shift(regions: Seq<MemoryRegion>, i: int, k: nat)
    requires
        0 <= i <= regions.len(),
    ensures
        nth_frame(regions, frames_before(regions, i) + k) == nth_frame_from(regions, i, k),
{
    lemma_nth_frame_skip(regions, 0, i, k);
}

proof fn lemma_nth_frame_skip(regions: Seq<MemoryRegion>, j: int, i: int, k: nat)
    requires
        0 <= j <= i <= regions.len(),
    ensures
        frames_before(regions, j) <= frames_before(regions, i),
        nth_frame_from(regions, j, (frames_before(regions, i) - frames_before(regions, j) + k) as nat)
            == nth_frame_from(regions, i, k),
    decreases i - j,
{
    if j < i {
        lemma_nth_frame_skip(regions, j + 1, i, k);
        assert(frames_before(regions, j + 1) == frames_before(regions, j) + frames_in(regions[j]));
    }
}

/// Index of the region that holds the `n`-th frame counted from region `i` on.
pub open spec fn frame_region_from(regions: Seq<MemoryRegion>, i: int, n: nat) -> int
    decreases regions.len() - i,
{
    if i < 0 || i >= regions.len() {
        regions.len() as int
    } else if n < frames_in(regions[i]) {
        i
    } else {
        frame_region_from(regions, i + 1, (n - frames_in(regions[i])) as nat)
    }
}

/// Position of the `n`-th frame counted from region `i` on inside its region.
pub open spec fn frame_slot_from(regions: Seq<MemoryRegion>, i: int, n: nat) -> nat
    decreases regions.len() - i,
{
    if i < 0 || i >= regions.len() {
        0
    } else if n < frames_in(regions[i]) {
        n
    } else {
        frame_slot_from(regions, i + 1, (n - frames_in(regions[i])) as nat)
    }
}

proof fn lemma_frames_before_monotonic(regions: Seq<MemoryRegion>, i: int, j: int)
    requires
        0 <= i <= j,
    ensures
        frames_before(regions, i) <= frames_before(regions, j),
    decreases j - i,
{
    if i < j {
        lemma_frames_before_monotonic(regions, i, j - 1);
    }
}

/// Where a frame comes from: the region, the slot in it, and how the address
/// and the running number follow from the two.
pub proof fn lemma_frame_located(regions: Seq<MemoryRegion>, i: int, n: nat)
    requires
        0 <= i,
        nth_frame_from(regions, i, n) is Some,
    ensures
        ({
            let r = frame_region_from(regions, i, n);
            let k = frame_slot_from(regions, i, n);
            &&& i <= r < regions.len()
            &&& k < frames_in(regions[r])
            &&& nth_frame_from(regions, i, n) == Some(first_frame(regions[r]) + 4096 * k)
            &&& frames_before(regions, i) + n == frames_before(regions, r) + k
        }),
    decreases regions.len() - i,
{
    if i < regions.len() && n >= frames_in(regions[i]) {
        lemma_frame_located(regions, i + 1, (n - frames_in(regions[i])) as nat);
    }
}

/// A frame is on offer exactly as long as the running number is below the
/// total: after that many allocations the inventory is exhausted.
pub proof fn lemma_frames_exhausted(regions: Seq<MemoryRegion>, n: nat)
    ensures
        nth_frame(regions, n) is Some <==> n < total_frames(regions),
{
    lemma_offer_from(regions, 0, n);
}

proof fn lemma_offer_from(regions: Seq<MemoryRegion>, i: int, n: nat)
    requires
        0 <= i <= regions.len(),
    ensures
        frames_before(regions, i) <= total_frames(regions),
        nth_frame_from(regions, i, n) is Some <==> n < total_frames(regions) - frames_before(
            regions,
            i,
        ),
    decreases regions.len() - i,
{
    lemma_frames_before_monotonic(regions, i, regions.len() as int);
    if i < regions.len() {
        assert(frames_before(regions, i + 1) == frames_before(regions, i) + frames_in(regions[i]));
        lemma_frames_before_monotonic(regions, i + 1, regions.len() as int);
        if n >= frames_in(regions[i]) {
            lemma_offer_from(regions, i + 1, (n - frames_in(regions[i])) as nat);
        }
    }
}

/// Every frame on offer starts on a frame boundary and lies completely inside
/// a usable region of the inventory.
pub proof fn lemma_frame_aligned_and_usable(regions: Seq<MemoryRegion>, n: nat)
    requires
        nth_frame(regions, n) is Some,
    ensures
        ({
            let address = nth_frame(regions, n).unwrap();
            let r = frame_region_from(regions, 0, n);
            &&& address % 4096 == 0
            &&& 0 <= r < regions.len()
            &&& regions[r].kind == MemoryRegionKind::Usable
            &&& regions[r].start <= address
            &&& address + 4096 <= regions[r].end
        }),
{
    lemma_frame_located(regions, 0, n);
    let r = frame_region_from(regions, 0, n);
    let k = frame_slot_from(regions, 0, n);
    lemma_slot_inside(regions[r], k);
}

proof fn lemma_slot_inside(r: MemoryRegion, k: nat)
    requires
        k < frames_in(r),
    ensures
        r.kind == MemoryRegionKind::Usable,
        (first_frame(r) + 4096 * k) % 4096 == 0,
        r.start <= first_frame(r) + 4096 * k,
        first_frame(r) + 4096 * k + 4096 <= r.end,
        first_frame(r) + 4096 * k + 4096 <= 0x10_0000_0000_0000,
{
    let first = first_frame(r);
    let count = frames_in(r);
    let end = usable_end(r);
    assert(first % 4096 == 0);
    assert(count * 4096 <= end - first) by (nonlinear_arith)
        requires
            count == (end - first) / 4096,
            end - first >= 0,
    ;
    assert(4096 * k + 4096 <= count * 4096) by (nonlinear_arith)
        requires
            k < count,
    ;
    assert((first + 4096 * k) % 4096 == 0) by (nonlinear_arith)
        requires
            first % 4096 == 0,
    ;
}

/// Where no two usable regions overlap, two different allocations never
/// share a byte: the frames handed out are pairwise distinct.
pub proof fn lemma_frames_distinct(regions: Seq<MemoryRegion>, m: nat, n: nat)
    requires
        usable_regions_disjoint(regions),
        m != n,
        nth_frame(regions, m) is Some,
        nth_frame(regions, n) is Some,
    ensures
        ({
            let a = nth_frame(regions, m).unwrap();
            let b = nth_frame(regions, n).unwrap();
            a + 4096 <= b || b + 4096 <= a
        }),
{
    lemma_frame_located(regions, 0, m);
    lemma_frame_located(regions, 0, n);
    let r1 = frame_region_from(regions, 0, m);
    let k1 = frame_slot_from(regions, 0, m);
    let r2 = frame_region_from(regions, 0, n);
    let k2 = frame_slot_from(regions, 0, n);
    lemma_slot_inside(regions[r1], k1);
    lemma_slot_inside(regions[r2], k2);
    if r1 < r2 {
        assert(regions_apart(regions[r1], regions[r2]));
    } else if r2 < r1 {
        assert(regions_apart(regions[r2], regions[r1]));
    }
}

} // verus!
