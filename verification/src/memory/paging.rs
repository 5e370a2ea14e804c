//! The virtual memory mapper.
//!
//! The mapper keeps the kernel's view of the four-level page-table hierarchy:
//! which tables exist, which frame each of them occupies, and which page is
//! mapped to which frame with which flags. It decides what has to change when
//! a page is mapped, and records every change to page-table memory and every
//! translation-cache flush in a journal. The owner of the hardware replays
//! the journal: table addresses in it are physical, and are reached through
//! the offset at which all physical memory is mapped.

use std::collections::BTreeMap;
use vstd::prelude::*;
use crate::memory::frame::{
    lemma_frames_exhausted,
    nth_frame,
    total_frames,
    BootInfoFrameAllocator,
    MemoryRegion,
    PhysFrame,
};

verus! {

/// Number of entries in a page table of any level.
pub const ENTRY_COUNT: u64 = 512;

/// Whether the upper 16 bits of a virtual address repeat bit 47.
pub open spec fn is_canonical(address: u64) -> bool {
    address < 0x8000_0000_0000 || address >= 0xffff_8000_0000_0000
}

/// Number of the page that holds `address` in the 48-bit address space.
pub open spec fn page_number(address: u64) -> u64 {
    ((address % 0x1_0000_0000_0000) / 4096) as u64
}

/// A 4 KiB-aligned page of canonical virtual addresses, named by its first
/// address.
#[derive(Clone, Copy, Debug, PartialEq, Eq, Structural)]
pub struct Page {
    start: u64,
}

impl Page {
    #[verifier::type_invariant]
    spec fn aligned(self) -> bool {
        self.start % 4096 == 0 && is_canonical(self.start)
    }

    /// The page's first address.
    pub closed spec fn addr(self) -> u64 {
        self.start
    }

    /// The page's number in the 48-bit address space.
    pub open spec fn number(self) -> u64 {
        page_number(self.addr())
    }

    /// The page that holds `address`.
    pub closed spec fn holding(address: u64) -> Page {
        Page { start: (address - address % 4096) as u64 }
    }

    /// The page after this one.
    pub closed spec fn following(self) -> Page {
        Page { start: (self.start + 4096) as u64 }
    }

    /// The page that contains `address`, if `address` is canonical.
    pub fn containing_address(address: u64) -> (page: Option<Page>)
        ensures
            page is Some <==> is_canonical(address),
            page matches Some(p) ==> p == Page::holding(address) && p.addr() == address - address
                % 4096 && p.number() == page_number(address),
    {
        if address < 0x8000_0000_0000 || address >= 0xffff_8000_0000_0000 {
            let start: u64 = address - address % 4096;
            assert(start % 4096 == 0 && (start < 0x8000_0000_0000 || start
                >= 0xffff_8000_0000_0000) && (start % 0x1_0000_0000_0000) / 4096 == (address
                % 0x1_0000_0000_0000) / 4096) by (bit_vector)
                requires
                    start == address - address % 4096,
                    address < 0x8000_0000_0000 || address >= 0xffff_8000_0000_0000,
            ;
            Some(Page { start })
        } else {
            None
        }
    }

    /// The page's first address.
    pub fn start_address(&self) -> (address: u64)
        ensures
            address == self.addr(),
            address % 4096 == 0,
            is_canonical(address),
    {
        proof {
            use_type_invariant(self);
        }
        self.start
    }

    /// The page after this one, if there is one in the same half of the
    /// address space.
    pub fn next(&self) -> (page: Option<Page>)
        ensures
            page is Some <==> self.addr() + 4096 <= u64::MAX && is_canonical(
                (self.addr() + 4096) as u64,
            ),
            page matches Some(p) ==> p == self.following() && p.addr() == self.addr() + 4096
                && p.number() == self.number() + 1,
    {
        proof {
            use_type_invariant(self);
        }
        let start: u64 = self.start;
        if start >= 0xffff_ffff_ffff_f000 || start == 0x7fff_ffff_f000 {
            return None;
        }
        let next: u64 = start + 4096;
        assert(next % 4096 == 0 && (next < 0x8000_0000_0000 || next >= 0xffff_8000_0000_0000) && (
        next % 0x1_0000_0000_0000) / 4096 == (start % 0x1_0000_0000_0000) / 4096 + 1)
            by (bit_vector)
            requires
                next == start + 4096,
                start % 4096 == 0,
                start < 0x8000_0000_0000 || start >= 0xffff_8000_0000_0000,
                start < 0xffff_ffff_ffff_f000,
                start != 0x7fff_ffff_f000,
        ;
        Some(Page { start: next })
    }
}

/// The permissions of a present mapping.
#[derive(Clone, Copy, Debug, PartialEq, Eq, Structural)]
pub struct PageTableFlags {
    pub writable: bool,
    pub user_accessible: bool,
    pub write_through: bool,
    pub no_cache: bool,
    pub no_execute: bool,
}

impl PageTableFlags {
    /// The flag bits as they stand in a page-table entry; the present bit is
    /// always set.
    pub open spec fn entry_bits(self) -> u64 {
        (1 + (if self.writable { 2int } else { 0 }) + (if self.user_accessible { 4int } else { 0 })
            + (if self.write_through { 8int } else { 0 }) + (if self.no_cache { 16int } else { 0 })
            + (if self.no_execute { 0x8000_0000_0000_0000int } else { 0 })) as u64
    }

    /// The flag bits as they stand in a page-table entry.
    pub fn bits(&self) -> (bits: u64)
        ensures
            bits == self.entry_bits(),
    {
        let mut bits: u64 = 1;
        if self.writable {
            bits = bits + 2;
        }
        if self.user_accessible {
            bits = bits + 4;
        }
        if self.write_through {
            bits = bits + 8;
        }
        if self.no_cache {
            bits = bits + 16;
        }
        if self.no_execute {
            bits = bits + 0x8000_0000_0000_0000;
        }
        bits
    }

    /// Present and writable, nothing else: what kernel data is mapped with.
    pub fn read_write() -> (flags: PageTableFlags)
        ensures
            flags == (PageTableFlags {
                writable: true,
                user_accessible: false,
                write_through: false,
                no_cache: false,
                no_execute: false,
            }),
    {
        PageTableFlags {
            writable: true,
            user_accessible: false,
            write_through: false,
            no_cache: false,
            no_execute: false,
        }
    }
}

/// What a page is mapped to.
#[derive(Clone, Copy, Debug, PartialEq, Eq, Structural)]
pub struct Mapping {
    pub frame: PhysFrame,
    pub flags: PageTableFlags,
}

/// Why a page could not be mapped.
#[derive(Clone, Copy, Debug, PartialEq, Eq, Structural)]
pub enum MapError {
    /// The frame allocator cannot supply the page tables that are missing.
    FrameAllocationFailed,
    /// The page is mapped already, to the given frame, and the existing
    /// mapping differs from the one asked for.
    PageAlreadyMapped(PhysFrame),
}

/// One step for the owner of the hardware to carry out.
#[derive(Clone, Copy, Debug, PartialEq, Eq, Structural)]
pub enum HardwareOp {
    /// Fill the table at physical address `table` with zeroes.
    ClearTable { table: u64 },
    /// Store `value` in entry `index` of the table at physical address `table`.
    WriteEntry { table: u64, index: u64, value: u64 },
    /// Invalidate the translation-cache entry of `page`.
    FlushPage { page: Page },
}

/// The value of the page-table entry that points to `frame` with `flags`.
pub open spec fn entry_value(frame: PhysFrame, flags: PageTableFlags) -> u64 {
    (frame.addr() + flags.entry_bits()) as u64
}

/// The value of an entry that points to the next-level table at `table`:
/// present and writable.
pub open spec fn table_entry_value(table: u64) -> u64 {
    (table + 3) as u64
}

/// The frame address that an entry value points to.
pub open spec fn entry_address(value: u64) -> u64 {
    ((value % 0x10_0000_0000_0000) / 4096 * 4096) as u64
}

/// The steps that put a fresh table at `table` under entry `index` of `parent`.
pub open spec fn install_table(parent: u64, index: u64, table: u64) -> Seq<HardwareOp> {
    seq![
        HardwareOp::ClearTable { table },
        HardwareOp::WriteEntry { table: parent, index, value: table_entry_value(table) },
    ]
}

/// The table registered under `key`, or `fresh` where there is none yet.
pub open spec fn table_or(tables: Map<u64, u64>, key: u64, fresh: u64) -> u64 {
    if tables.contains_key(key) {
        tables[key]
    } else {
        fresh
    }
}

/// The steps that make sure a table is registered under `key`.
pub open spec fn install_if_missing(
    tables: Map<u64, u64>,
    key: u64,
    parent: u64,
    index: u64,
    fresh: u64,
) -> Seq<HardwareOp> {
    if tables.contains_key(key) {
        Seq::empty()
    } else {
        install_table(parent, index, fresh)
    }
}

/// `1` where no table is registered under `key`, else `0`.
pub open spec fn missing(tables: Map<u64, u64>, key: u64) -> nat {
    if tables.contains_key(key) {
        0
    } else {
        1
    }
}

/// The tables of the three lower levels once the page numbered `n` can be
/// mapped: those that there are, and for each that is missing on the way
/// to the page one in the next frame that `regions` offers from number
/// `allocated` on.
pub open spec fn tables_for(
    level3: Map<u64, u64>,
    level2: Map<u64, u64>,
    level1: Map<u64, u64>,
    n: u64,
    regions: Seq<MemoryRegion>,
    allocated: nat,
) -> (Map<u64, u64>, Map<u64, u64>, Map<u64, u64>) {
    let k3 = n / 0x800_0000;
    let k2 = n / 0x4_0000;
    let k1 = n / 512;
    let m3 = missing(level3, k3);
    let m2 = missing(level2, k2);
    (
        level3.insert(k3, table_or(level3, k3, nth_frame(regions, allocated).unwrap() as u64)),
        level2.insert(k2, table_or(level2, k2, nth_frame(regions, allocated + m3).unwrap() as u64)),
        level1.insert(
            k1,
            table_or(level1, k1, nth_frame(regions, allocated + m3 + m2).unwrap() as u64),
        ),
    )
}

/// The steps that map `page` to `frame` in a hierarchy with the given
/// tables under the level-4 table at `root`, where the missing tables take
/// the frames that `regions` offers from number `allocated` on.
pub open spec fn steps_for(
    level3: Map<u64, u64>,
    level2: Map<u64, u64>,
    level1: Map<u64, u64>,
    root: u64,
    page: Page,
    frame: PhysFrame,
    flags: PageTableFlags,
    regions: Seq<MemoryRegion>,
    allocated: nat,
) -> Seq<HardwareOp> {
    let n = page.number();
    let k3 = n / 0x800_0000;
    let k2 = n / 0x4_0000;
    let k1 = n / 512;
    let m3 = missing(level3, k3);
    let m2 = missing(level2, k2);
    let t3 = table_or(level3, k3, nth_frame(regions, allocated).unwrap() as u64);
    let t2 = table_or(level2, k2, nth_frame(regions, allocated + m3).unwrap() as u64);
    let t1 = table_or(level1, k1, nth_frame(regions, allocated + m3 + m2).unwrap() as u64);
    install_if_missing(level3, k3, root, k3, t3) + install_if_missing(level2, k2, t3, k2 % 512, t2)
        + install_if_missing(level1, k1, t2, k1 % 512, t1) + seq![
        HardwareOp::WriteEntry { table: t1, index: n % 512, value: entry_value(frame, flags) },
        HardwareOp::FlushPage { page },
    ]
}

/// What a mapper knows and has decided, together with the number of frames
/// that its allocator has handed out.
pub struct Layout {
    pub level3: Map<u64, u64>,
    pub level2: Map<u64, u64>,
    pub level1: Map<u64, u64>,
    pub mappings: Map<u64, Mapping>,
    pub journal: Seq<HardwareOp>,
    pub allocated: nat,
}

/// What mapping `page` to `frame` with `flags` leads to: the layout after
/// it, and success or the reason for the refusal. A refusal changes
/// nothing.
pub open spec fn map_outcome(
    before: Layout,
    root: u64,
    regions: Seq<MemoryRegion>,
    page: Page,
    frame: PhysFrame,
    flags: PageTableFlags,
) -> (Layout, Result<(), MapError>) {
    let n = page.number();
    let needed = missing(before.level3, n / 0x800_0000) + missing(before.level2, n / 0x4_0000)
        + missing(before.level1, n / 512);
    if before.mappings.contains_key(n) {
        if before.mappings[n] == (Mapping { frame, flags }) {
            (before, Ok(()))
        } else {
            (before, Err(MapError::PageAlreadyMapped(before.mappings[n].frame)))
        }
    } else if before.allocated + needed > total_frames(regions) {
        (before, Err(MapError::FrameAllocationFailed))
    } else {
        let tables = tables_for(
            before.level3,
            before.level2,
            before.level1,
            n,
            regions,
            before.allocated,
        );
        (
            Layout {
                level3: tables.0,
                level2: tables.1,
                level1: tables.2,
                mappings: before.mappings.insert(n, Mapping { frame, flags }),
                journal: before.journal + steps_for(
                    before.level3,
                    before.level2,
                    before.level1,
                    root,
                    page,
                    frame,
                    flags,
                    regions,
                    before.allocated,
                ),
                allocated: before.allocated + needed,
            },
            Ok(()),
        )
    }
}

/// What a virtual address translates to under the given mappings.
pub open spec fn translation(mappings: Map<u64, Mapping>, address: u64) -> Option<u64> {
    if is_canonical(address) && mappings.contains_key(page_number(address)) {
        Some((mappings[page_number(address)].frame.addr() + address % 4096) as u64)
    } else {
        None
    }
}

/// The tables and mappings of a hierarchy, and the steps not yet handed out.
struct Hierarchy {
    /// Level-3 tables by the level-4 index that leads to them.
    tables3: BTreeMap<u64, u64>,
    /// Level-2 tables by the level-4 and level-3 indices that lead to them.
    tables2: BTreeMap<u64, u64>,
    /// Level-1 tables by the three indices that lead to them.
    tables1: BTreeMap<u64, u64>,
    /// Mapped pages by page number.
    leaves: BTreeMap<u64, Mapping>,
    journal: Vec<HardwareOp>,
}

impl Hierarchy {
    /// Every mapping has its level-1 table, every table its parent.
    spec fn closed_under_parents(self) -> bool {
        &&& forall|p: u64| #[trigger]
            self.leaves@.contains_key(p) ==> p < 0x10_0000_0000 && self.tables1@.contains_key(
                p / 512,
            )
        &&& forall|k: u64| #[trigger]
            self.tables1@.contains_key(k) ==> self.tables1@[k] < 0x10_0000_0000_0000
                && self.tables2@.contains_key(k / 512)
        &&& forall|k: u64| #[trigger]
            self.tables2@.contains_key(k) ==> self.tables2@[k] < 0x10_0000_0000_0000
                && self.tables3@.contains_key(k / 512)
        &&& forall|k: u64| #[trigger]
            self.tables3@.contains_key(k) ==> self.tables3@[k] < 0x10_0000_0000_0000
    }

    fn empty() -> (h: Hierarchy)
        ensures
            h.tables3@ == Map::<u64, u64>::empty(),
            h.tables2@ == Map::<u64, u64>::empty(),
            h.tables1@ == Map::<u64, u64>::empty(),
            h.leaves@ == Map::<u64, Mapping>::empty(),
            h.journal@ == Seq::<HardwareOp>::empty(),
            h.closed_under_parents(),
    {
        Hierarchy {
            tables3: BTreeMap::new(),
            tables2: BTreeMap::new(),
            tables1: BTreeMap::new(),
            leaves: BTreeMap::new(),
            journal: Vec::new(),
        }
    }
}

/// The kernel's page-table hierarchy.
pub struct Mapper {
    offset: u64,
    root: PhysFrame,
    state: Hierarchy,
}

impl Mapper {
    #[verifier::type_invariant]
    spec fn hierarchy_closed(self) -> bool {
        self.state.closed_under_parents()
    }

    /// The virtual address at which physical address 0 is mapped.
    pub closed spec fn physical_memory_offset(self) -> u64 {
        self.offset
    }

    /// The frame of the level-4 table.
    pub closed spec fn root_table(self) -> PhysFrame {
        self.root
    }

    /// The mapped pages, by page number.
    pub closed spec fn mappings(self) -> Map<u64, Mapping> {
        self.state.leaves@
    }

    /// Physical addresses of the level-3 tables, by `page number / 512^3`.
    pub closed spec fn level3_tables(self) -> Map<u64, u64> {
        self.state.tables3@
    }

    /// Physical addresses of the level-2 tables, by `page number / 512^2`.
    pub closed spec fn level2_tables(self) -> Map<u64, u64> {
        self.state.tables2@
    }

    /// Physical addresses of the level-1 tables, by `page number / 512`.
    pub closed spec fn level1_tables(self) -> Map<u64, u64> {
        self.state.tables1@
    }

    /// The steps decided on and not yet handed out.
    pub closed spec fn journal(self) -> Seq<HardwareOp> {
        self.state.journal@
    }

    /// Number of page tables that have to be created before the page with
    /// number `n` can be mapped.
    pub open spec fn missing_tables_for(self, n: u64) -> nat {
        missing(self.level3_tables(), n / 0x800_0000) + missing(self.level2_tables(), n / 0x4_0000)
            + missing(self.level1_tables(), n / 512)
    }

    /// Number of page tables that have to be created before `page` can be mapped.
    pub open spec fn missing_tables(self, page: Page) -> nat {
        self.missing_tables_for(page.number())
    }

    /// The tables of the three lower levels once `page` can be mapped: those
    /// that there are, and for each that is missing on the way to `page` one
    /// in the next frame that `regions` offers from number `allocated` on.
    pub open spec fn tables_with(
        self,
        page: Page,
        regions: Seq<MemoryRegion>,
        allocated: nat,
    ) -> (Map<u64, u64>, Map<u64, u64>, Map<u64, u64>) {
        tables_for(
            self.level3_tables(),
            self.level2_tables(),
            self.level1_tables(),
            page.number(),
            regions,
            allocated,
        )
    }

    /// The steps that map `page` to `frame`, where the missing tables take
    /// the frames that `regions` offers from number `allocated` on.
    pub open spec fn steps_to_map(
        self,
        page: Page,
        frame: PhysFrame,
        flags: PageTableFlags,
        regions: Seq<MemoryRegion>,
        allocated: nat,
    ) -> Seq<HardwareOp> {
        steps_for(
            self.level3_tables(),
            self.level2_tables(),
            self.level1_tables(),
            self.root_table().addr(),
            page,
            frame,
            flags,
            regions,
            allocated,
        )
    }

    /// What the mapper knows and has decided, together with the number of
    /// frames that its allocator has handed out.
    pub open spec fn layout(self, allocated: nat) -> Layout {
        Layout {
            level3: self.level3_tables(),
            level2: self.level2_tables(),
            level1: self.level1_tables(),
            mappings: self.mappings(),
            journal: self.journal(),
            allocated,
        }
    }

    /// A mapper for the hierarchy whose level-4 table occupies `level_4_table`,
    /// with all physical memory mapped at `physical_memory_offset`. No page is
    /// mapped through it yet.
    pub fn new(physical_memory_offset: u64, level_4_table: PhysFrame) -> (mapper: Mapper)
        ensures
            mapper.physical_memory_offset() == physical_memory_offset,
            mapper.root_table() == level_4_table,
            mapper.mappings() == Map::<u64, Mapping>::empty(),
            mapper.level3_tables() == Map::<u64, u64>::empty(),
            mapper.level2_tables() == Map::<u64, u64>::empty(),
            mapper.level1_tables() == Map::<u64, u64>::empty(),
            mapper.journal() == Seq::<HardwareOp>::empty(),
    {
        Mapper { offset: physical_memory_offset, root: level_4_table, state: Hierarchy::empty() }
    }

    /// The virtual address at which physical address 0 is mapped.
    pub fn offset(&self) -> (offset: u64)
        ensures
            offset == self.physical_memory_offset(),
    {
        self.offset
    }

    /// The frame of the level-4 table.
    pub fn level_4_table(&self) -> (frame: PhysFrame)
        ensures
            frame == self.root_table(),
    {
        self.root
    }

    /// Walks the hierarchy for `address`. `None` where a table or the mapping
    /// itself is not present, or the address is not canonical.
    pub fn translate(&self, address: u64) -> (physical: Option<u64>)
        ensures
            physical == translation(self.mappings(), address),
    {
        proof {
            use_type_invariant(self);
        }
        if !(address < 0x8000_0000_0000 || address >= 0xffff_8000_0000_0000) {
            return None;
        }
        let n: u64 = (address % 0x1_0000_0000_0000) / 4096;
        let k3: u64 = n / 0x800_0000;
        let k2: u64 = n / 0x4_0000;
        let k1: u64 = n / 512;
        assert(k1 / 512 == k2 && k2 / 512 == k3);
        if !self.state.tables3.contains_key(&k3) {
            return None;
        }
        if !self.state.tables2.contains_key(&k2) {
            return None;
        }
        if !self.state.tables1.contains_key(&k1) {
            return None;
        }
        match self.state.leaves.get(&n) {
            Some(mapping) => {
                let frame = mapping.frame.start_address();
                Some(frame + address % 4096)
            },
            None => None,
        }
    }

    /// Maps `page` to `frame` with `flags`.
    ///
    /// A page that is mapped already is left as it is: mapping it again to the
    /// same frame with the same flags succeeds and changes nothing, anything
    /// else is refused. Page tables that are missing on the way are created in
    /// frames taken from `allocator`; where it cannot supply all of them, no
    /// frame is taken and nothing changes. On success the journal gains the
    /// table writes and, last, the flush of the page's translation-cache entry.
    #[verifier::rlimit(30)]
    pub fn map_page(
        &mut self,
        page: Page,
        frame: PhysFrame,
        flags: PageTableFlags,
        allocator: &mut BootInfoFrameAllocator,
    ) -> (res: Result<(), MapError>)
        ensures
            final(self).physical_memory_offset() == old(self).physical_memory_offset(),
            final(self).root_table() == old(self).root_table(),
            final(allocator).regions() == old(allocator).regions(),
            (final(self).layout(final(allocator).allocated()), res) == map_outcome(
                old(self).layout(old(allocator).allocated()),
                old(self).root_table().addr(),
                old(allocator).regions(),
                page,
                frame,
                flags,
            ),
            match res {
                Ok(()) => if old(self).mappings().contains_key(page.number()) {
                    &&& old(self).mappings()[page.number()] == (Mapping { frame, flags })
                    &&& *final(self) == *old(self)
                    &&& final(allocator).allocated() == old(allocator).allocated()
                } else {
                    &&& final(self).mappings() == old(self).mappings().insert(
                        page.number(),
                        Mapping { frame, flags },
                    )
                    &&& old(allocator).allocated() + old(self).missing_tables(page) <= total_frames(
                        old(allocator).regions(),
                    )
                    &&& final(allocator).allocated() == old(allocator).allocated() + old(
                        self,
                    ).missing_tables(page)
                    &&& final(self).journal() == old(self).journal() + old(self).steps_to_map(
                        page,
                        frame,
                        flags,
                        old(allocator).regions(),
                        old(allocator).allocated(),
                    )
                    &&& final(self).level3_tables() == old(self).tables_with(
                        page,
                        old(allocator).regions(),
                        old(allocator).allocated(),
                    ).0
                    &&& final(self).level2_tables() == old(self).tables_with(
                        page,
                        old(allocator).regions(),
                        old(allocator).allocated(),
                    ).1
                    &&& final(self).level1_tables() == old(self).tables_with(
                        page,
                        old(allocator).regions(),
                        old(allocator).allocated(),
                    ).2
                },
                Err(MapError::PageAlreadyMapped(existing)) => {
                    &&& old(self).mappings().contains_key(page.number())
                    &&& old(self).mappings()[page.number()] != (Mapping { frame, flags })
                    &&& existing == old(self).mappings()[page.number()].frame
                    &&& *final(self) == *old(self)
                    &&& final(allocator).allocated() == old(allocator).allocated()
                },
                Err(MapError::FrameAllocationFailed) => {
                    &&& !old(self).mappings().contains_key(page.number())
                    &&& old(allocator).allocated() + old(self).missing_tables(page) > total_frames(
                        old(allocator).regions(),
                    )
                    &&& *final(self) == *old(self)
                    &&& final(allocator).allocated() == old(allocator).allocated()
                },
            },
    {
        proof {
            use_type_invariant(&*self);
            use_type_invariant(&page);
        }
        let n: u64 = (page.start_address() % 0x1_0000_0000_0000) / 4096;
        let k3: u64 = n / 0x800_0000;
        let k2: u64 = n / 0x4_0000;
        let k1: u64 = n / 512;
        assert(k1 / 512 == k2 && k2 / 512 == k3);
        assert(n < 0x10_0000_0000);
        match self.state.leaves.get(&n) {
            Some(existing) => {
                if existing.frame == frame && existing.flags == flags {
                    return Ok(());
                } else {
                    return Err(MapError::PageAlreadyMapped(existing.frame));
                }
            },
            None => {},
        }
        let has3 = self.state.tables3.contains_key(&k3);
        let has2 = self.state.tables2.contains_key(&k2);
        let has1 = self.state.tables1.contains_key(&k1);
        let mut needed: u64 = 0;
        if !has3 {
            needed = needed + 1;
        }
        if !has2 {
            needed = needed + 1;
        }
        if !has1 {
            needed = needed + 1;
        }
        assert(needed == self.missing_tables(page));
        if !allocator.has_frames(needed) {
            return Err(MapError::FrameAllocationFailed);
        }
        let ghost regions = allocator.regions();
        let ghost first = allocator.allocated();
        let ghost steps = self.steps_to_map(page, frame, flags, regions, first);
        proof {
            lemma_frames_exhausted(regions, first);
            lemma_frames_exhausted(regions, first + 1);
            lemma_frames_exhausted(regions, first + 2);
        }
        let root: u64 = self.root.start_address();
        let mut state = Hierarchy::empty();
        std::mem::swap(&mut self.state, &mut state);
        let t3: u64 = if has3 {
            *state.tables3.get(&k3).unwrap()
        } else {
            let table = allocator.allocate_frame().unwrap().start_address();
            state.tables3.insert(k3, table);
            state.journal.push(HardwareOp::ClearTable { table });
            state.journal.push(HardwareOp::WriteEntry { table: root, index: k3, value: table + 3 });
            table
        };
        let t2: u64 = if has2 {
            *state.tables2.get(&k2).unwrap()
        } else {
            let table = allocator.allocate_frame().unwrap().start_address();
            state.tables2.insert(k2, table);
            state.journal.push(HardwareOp::ClearTable { table });
            state.journal.push(
                HardwareOp::WriteEntry { table: t3, index: k2 % 512, value: table + 3 },
            );
            table
        };
        let t1: u64 = if has1 {
            *state.tables1.get(&k1).unwrap()
        } else {
            let table = allocator.allocate_frame().unwrap().start_address();
            state.tables1.insert(k1, table);
            state.journal.push(HardwareOp::ClearTable { table });
            state.journal.push(
                HardwareOp::WriteEntry { table: t2, index: k1 % 512, value: table + 3 },
            );
            table
        };
        let value: u64 = frame.start_address() + flags.bits();
        state.leaves.insert(n, Mapping { frame, flags });
        state.journal.push(HardwareOp::WriteEntry { table: t1, index: n % 512, value });
        state.journal.push(HardwareOp::FlushPage { page });
        assert(state.journal@ =~= old(self).journal() + steps);
        proof {
            let with = old(self).tables_with(page, regions, first);
            assert(state.tables3@ =~= with.0);
            assert(state.tables2@ =~= with.1);
            assert(state.tables1@ =~= with.2);
            assert(state.leaves@ =~= old(self).mappings().insert(n, Mapping { frame, flags }));
        }
        std::mem::swap(&mut self.state, &mut state);
        Ok(())
    }

    /// Hands out the recorded steps, oldest first, and clears the record.
    pub fn take_journal(&mut self) -> (steps: Vec<HardwareOp>)
        ensures
            steps@ == old(self).journal(),
            final(self).journal() == Seq::<HardwareOp>::empty(),
            final(self).mappings() == old(self).mappings(),
            final(self).level3_tables() == old(self).level3_tables(),
            final(self).level2_tables() == old(self).level2_tables(),
            final(self).level1_tables() == old(self).level1_tables(),
            final(self).physical_memory_offset() == old(self).physical_memory_offset(),
            final(self).root_table() == old(self).root_table(),
    {
        proof {
            use_type_invariant(&*self);
        }
        let mut steps: Vec<HardwareOp> = Vec::new();
        std::mem::swap(&mut self.state.journal, &mut steps);
        steps
    }
}

/// Creates the mapper for the active hierarchy: all physical memory is
/// mapped at `physical_memory_offset`, the level-4 table lies in
/// `level_4_table`.
pub fn init(physical_memory_offset: u64, level_4_table: PhysFrame) -> (mapper: Mapper)
    ensures
        mapper.physical_memory_offset() == physical_memory_offset,
        mapper.root_table() == level_4_table,
        mapper.mappings() == Map::<u64, Mapping>::empty(),
        mapper.level3_tables() == Map::<u64, u64>::empty(),
        mapper.level2_tables() == Map::<u64, u64>::empty(),
        mapper.level1_tables() == Map::<u64, u64>::empty(),
        mapper.journal() == Seq::<HardwareOp>::empty(),
{
    Mapper::new(physical_memory_offset, level_4_table)
}

/// Every address of a page that was just mapped translates to the same
/// offset in the frame it was mapped to.
pub proof fn lemma_mapped_page_translates(
    mappings: Map<u64, Mapping>,
    page: Page,
    frame: PhysFrame,
    flags: PageTableFlags,
    address: u64,
)
    requires
        is_canonical(address),
        page_number(address) == page.number(),
    ensures
        translation(mappings.insert(page.number(), Mapping { frame, flags }), address) == Some(
            (frame.addr() + address % 4096) as u64,
        ),
{
}

/// Mapping one page leaves the translation of every address outside that
/// page as it was.
pub proof fn lemma_other_pages_unchanged(
    mappings: Map<u64, Mapping>,
    page: Page,
    frame: PhysFrame,
    flags: PageTableFlags,
    address: u64,
)
    requires
        page_number(address) != page.number(),
    ensures
        translation(mappings.insert(page.number(), Mapping { frame, flags }), address)
            == translation(mappings, address),
{
}

/// An address whose page is not mapped is not present, and so is every
/// address that is not canonical.
pub proof fn lemma_unmapped_not_present(mappings: Map<u64, Mapping>, address: u64)
    requires
        !mappings.contains_key(page_number(address)) || !is_canonical(address),
    ensures
        translation(mappings, address) is None,
{
}

/// The addresses of a page are canonical and carry the page's number.
pub proof fn lemma_addresses_of_page(start: u64, offset: u64)
    requires
        start % 4096 == 0,
        is_canonical(start),
        offset < 4096,
    ensures
        start + offset <= u64::MAX,
        is_canonical((start + offset) as u64),
        page_number((start + offset) as u64) == page_number(start),
        (start + offset) % 4096 == offset as int,
{
    assert(start <= 0xffff_ffff_ffff_f000) by (bit_vector)
        requires
            start % 4096 == 0,
    ;
    let address: u64 = (start + offset) as u64;
    assert((address < 0x8000_0000_0000 || address >= 0xffff_8000_0000_0000) && (address
        % 0x1_0000_0000_0000) / 4096 == (start % 0x1_0000_0000_0000) / 4096 && address % 4096
        == offset) by (bit_vector)
        requires
            address == start + offset,
            start % 4096 == 0,
            start < 0x8000_0000_0000 || start >= 0xffff_8000_0000_0000,
            offset < 4096,
    ;
}

/// The frame address can be read back from an entry value: the flag bits
/// and the address bits do not touch.
pub proof fn lemma_entry_keeps_address(frame: PhysFrame, flags: PageTableFlags)
    requires
        frame.addr() % 4096 == 0,
        frame.addr() < 0x10_0000_0000_0000,
    ensures
        entry_address(entry_value(frame, flags)) == frame.addr(),
        entry_value(frame, flags) % 2 == 1,
{
    let address = frame.addr();
    let bits = flags.entry_bits();
    let low: u64 = (if bits >= 0x8000_0000_0000_0000 {
        bits - 0x8000_0000_0000_0000
    } else {
        bits as int
    }) as u64;
    let high: u64 = (bits - low) as u64;
    let value = entry_value(frame, flags);
    assert(value == address + low + high);
    assert((value % 0x10_0000_0000_0000) / 4096 * 4096 == address && value % 2 == 1)
        by (bit_vector)
        requires
            value == address + low + high,
            address % 4096 == 0,
            address < 0x10_0000_0000_0000,
            low < 32,
            low % 2 == 1,
            high == 0 || high == 0x8000_0000_0000_0000,
    ;
}

} // verus!
