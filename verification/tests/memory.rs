use rust_os::allocator::{heap_range_ok, init_heap, HEAP_SIZE, HEAP_START};
use rust_os::memory::frame::{BootInfoFrameAllocator, MemoryRegion, MemoryRegionKind, PhysFrame};
use rust_os::memory::paging::{init, HardwareOp, MapError, Mapper, Page, PageTableFlags};

fn usable(start: u64, end: u64) -> MemoryRegion {
    MemoryRegion { start, end, kind: MemoryRegionKind::Usable }
}

fn reserved(start: u64, end: u64) -> MemoryRegion {
    MemoryRegion { start, end, kind: MemoryRegionKind::Reserved }
}

fn mapper() -> Mapper {
    init(0xffff_8000_0000_0000, PhysFrame::from_start_address(0x1000).unwrap())
}

#[test]
fn frames_come_in_order_and_run_out() {
    let regions = vec![
        reserved(0, 0x1000),
        usable(0x1000, 0x4000),
        reserved(0x4000, 0x10000),
        usable(0x10000, 0x12000),
    ];
    let mut allocator = BootInfoFrameAllocator::init(regions);
    let mut got = Vec::new();
    while let Some(frame) = allocator.allocate_frame() {
        got.push(frame.start_address());
    }
    assert_eq!(got, vec![0x1000, 0x2000, 0x3000, 0x10000, 0x11000]);
    assert!(allocator.allocate_frame().is_none());
    assert!(allocator.allocate_frame().is_none());
}

#[test]
fn frames_are_distinct_and_aligned() {
    let regions = vec![usable(0x1234, 0x9000), usable(0x20_0000, 0x20_5fff), usable(0x9000, 0x9fff)];
    let mut allocator = BootInfoFrameAllocator::init(regions);
    let mut got: Vec<u64> = Vec::new();
    while let Some(frame) = allocator.allocate_frame() {
        let address = frame.start_address();
        assert_eq!(address % 4096, 0);
        assert!(!got.contains(&address));
        got.push(address);
    }
    // 0x2000..0x9000 holds seven frames, 0x200000..0x205000 five, the last region none.
    assert_eq!(got.len(), 12);
    assert_eq!(got[0], 0x2000);
    assert_eq!(got[7], 0x20_0000);
}

#[test]
fn unaligned_and_short_regions_offer_nothing() {
    let regions = vec![usable(0x1001, 0x2fff), usable(0x5000, 0x5fff), usable(0x7000, 0x6000)];
    let mut allocator = BootInfoFrameAllocator::init(regions);
    assert!(!allocator.has_frames(1));
    assert!(allocator.has_frames(0));
    assert!(allocator.allocate_frame().is_none());
}

#[test]
fn frames_stop_at_the_physical_address_limit() {
    let regions = vec![usable(0x000f_ffff_ffff_e000, u64::MAX)];
    let mut allocator = BootInfoFrameAllocator::init(regions);
    assert_eq!(allocator.allocate_frame().unwrap().start_address(), 0x000f_ffff_ffff_e000);
    assert_eq!(allocator.allocate_frame().unwrap().start_address(), 0x000f_ffff_ffff_f000);
    assert!(allocator.allocate_frame().is_none());
}

#[test]
fn has_frames_counts_what_is_left() {
    let mut allocator = BootInfoFrameAllocator::init(vec![usable(0, 0x3000), usable(0x8000, 0xa000)]);
    assert!(allocator.has_frames(5));
    assert!(!allocator.has_frames(6));
    allocator.allocate_frame().unwrap();
    allocator.allocate_frame().unwrap();
    assert!(allocator.has_frames(3));
    assert!(!allocator.has_frames(4));
}

#[test]
fn frame_constructors_check_alignment_and_range() {
    assert!(PhysFrame::from_start_address(0x1001).is_none());
    assert!(PhysFrame::from_start_address(0x10_0000_0000_0000).is_none());
    assert_eq!(PhysFrame::from_start_address(0x3000).unwrap().start_address(), 0x3000);
    assert_eq!(PhysFrame::containing_address(0x3fff).unwrap().start_address(), 0x3000);
    assert!(PhysFrame::containing_address(0x10_0000_0000_0000).is_none());
}

#[test]
fn pages_are_canonical() {
    assert!(Page::containing_address(0x0000_8000_0000_0000).is_none());
    assert!(Page::containing_address(0xffff_7fff_ffff_ffff).is_none());
    let low = Page::containing_address(0x0000_7fff_ffff_ffff).unwrap();
    assert_eq!(low.start_address(), 0x0000_7fff_ffff_f000);
    assert!(low.next().is_none());
    let high = Page::containing_address(0xffff_8000_0000_0123).unwrap();
    assert_eq!(high.start_address(), 0xffff_8000_0000_0000);
    assert_eq!(high.next().unwrap().start_address(), 0xffff_8000_0000_1000);
    assert!(Page::containing_address(u64::MAX).unwrap().next().is_none());
}

#[test]
fn mapped_page_translates_to_frame_and_offset() {
    let mut allocator = BootInfoFrameAllocator::init(vec![usable(0x10_0000, 0x20_0000)]);
    let mut mapper = mapper();
    let page = Page::containing_address(0x4444_4444_0000).unwrap();
    let frame = PhysFrame::from_start_address(0xb8000).unwrap();
    assert_eq!(mapper.translate(0x4444_4444_0abc), None);
    assert_eq!(mapper.map_page(page, frame, PageTableFlags::read_write(), &mut allocator), Ok(()));
    assert_eq!(mapper.translate(0x4444_4444_0000), Some(0xb8000));
    assert_eq!(mapper.translate(0x4444_4444_0abc), Some(0xb8abc));
    assert_eq!(mapper.translate(0x4444_4444_0fff), Some(0xb8fff));
    assert_eq!(mapper.translate(0x4444_4444_1000), None);
    assert_eq!(mapper.translate(0x4444_4443_ffff), None);
    assert_eq!(mapper.translate(0x0000_8000_0000_0000), None);
}

#[test]
fn mapping_creates_the_missing_tables_once() {
    let mut allocator = BootInfoFrameAllocator::init(vec![usable(0x10_0000, 0x20_0000)]);
    let mut mapper = mapper();
    let flags = PageTableFlags::read_write();
    let page = Page::containing_address(0x4444_4444_0000).unwrap();
    let frame = PhysFrame::from_start_address(0x5000).unwrap();
    mapper.map_page(page, frame, flags, &mut allocator).unwrap();
    let steps = mapper.take_journal();
    // indices of 0x4444_4444_0000: 136, 273, 34, 64
    assert_eq!(
        steps,
        vec![
            HardwareOp::ClearTable { table: 0x10_0000 },
            HardwareOp::WriteEntry { table: 0x1000, index: 136, value: 0x10_0003 },
            HardwareOp::ClearTable { table: 0x10_1000 },
            HardwareOp::WriteEntry { table: 0x10_0000, index: 273, value: 0x10_1003 },
            HardwareOp::ClearTable { table: 0x10_2000 },
            HardwareOp::WriteEntry { table: 0x10_1000, index: 34, value: 0x10_2003 },
            HardwareOp::WriteEntry { table: 0x10_2000, index: 64, value: 0x5003 },
            HardwareOp::FlushPage { page },
        ]
    );
    assert!(mapper.take_journal().is_empty());
    // The neighbouring page shares all three tables.
    let next = page.next().unwrap();
    let other = PhysFrame::from_start_address(0x6000).unwrap();
    mapper.map_page(next, other, flags, &mut allocator).unwrap();
    assert_eq!(
        mapper.take_journal(),
        vec![
            HardwareOp::WriteEntry { table: 0x10_2000, index: 65, value: 0x6003 },
            HardwareOp::FlushPage { page: next },
        ]
    );
    assert_eq!(allocator.allocate_frame().unwrap().start_address(), 0x10_3000);
}

#[test]
fn entry_values_carry_the_flags() {
    let mut allocator = BootInfoFrameAllocator::init(vec![usable(0x10_0000, 0x20_0000)]);
    let mut mapper = mapper();
    let flags = PageTableFlags {
        writable: false,
        user_accessible: true,
        write_through: true,
        no_cache: true,
        no_execute: true,
    };
    assert_eq!(flags.bits(), 0x8000_0000_0000_001d);
    assert_eq!(PageTableFlags::read_write().bits(), 3);
    let page = Page::containing_address(0xffff_ffff_ffff_f000).unwrap();
    let frame = PhysFrame::from_start_address(0x000f_ffff_ffff_f000).unwrap();
    mapper.map_page(page, frame, flags, &mut allocator).unwrap();
    let steps = mapper.take_journal();
    assert_eq!(
        steps[6],
        HardwareOp::WriteEntry { table: 0x10_2000, index: 511, value: 0x800f_ffff_ffff_f01d }
    );
    assert_eq!(mapper.translate(u64::MAX), Some(0x000f_ffff_ffff_ffff));
}

#[test]
fn mapping_again_is_refused_unless_it_is_the_same() {
    let mut allocator = BootInfoFrameAllocator::init(vec![usable(0x10_0000, 0x20_0000)]);
    let mut mapper = mapper();
    let flags = PageTableFlags::read_write();
    let page = Page::containing_address(0x1000).unwrap();
    let frame = PhysFrame::from_start_address(0x5000).unwrap();
    let other = PhysFrame::from_start_address(0x6000).unwrap();
    assert_eq!(mapper.map_page(page, frame, flags, &mut allocator), Ok(()));
    mapper.take_journal();
    assert_eq!(mapper.map_page(page, frame, flags, &mut allocator), Ok(()));
    assert!(mapper.take_journal().is_empty());
    assert_eq!(
        mapper.map_page(page, other, flags, &mut allocator),
        Err(MapError::PageAlreadyMapped(frame))
    );
    let read_only = PageTableFlags { writable: false, ..flags };
    assert_eq!(
        mapper.map_page(page, frame, read_only, &mut allocator),
        Err(MapError::PageAlreadyMapped(frame))
    );
    assert_eq!(mapper.translate(0x1234), Some(0x5234));
}

#[test]
fn mapping_fails_without_frames_for_the_tables_and_takes_none() {
    let mut allocator = BootInfoFrameAllocator::init(vec![usable(0x10_0000, 0x10_2000)]);
    let mut mapper = mapper();
    let page = Page::containing_address(0x1000).unwrap();
    let frame = PhysFrame::from_start_address(0x5000).unwrap();
    assert_eq!(
        mapper.map_page(page, frame, PageTableFlags::read_write(), &mut allocator),
        Err(MapError::FrameAllocationFailed)
    );
    assert!(mapper.take_journal().is_empty());
    assert_eq!(mapper.translate(0x1000), None);
    assert!(allocator.has_frames(2));
    assert_eq!(mapper.offset(), 0xffff_8000_0000_0000);
    assert_eq!(mapper.level_4_table().start_address(), 0x1000);
}

#[test]
fn heap_is_backed_page_by_page() {
    let mut allocator = BootInfoFrameAllocator::init(vec![usable(0x10_0000, 0x20_0000)]);
    let mut mapper = mapper();
    assert_eq!(init_heap(&mut mapper, &mut allocator, HEAP_START, HEAP_SIZE), Ok(()));
    // 100 KiB are 25 pages; the first page's frame comes before its three tables.
    assert_eq!(mapper.translate(HEAP_START), Some(0x10_0000));
    assert_eq!(mapper.translate(HEAP_START + 0x1000), Some(0x10_4000));
    assert_eq!(mapper.translate(HEAP_START + 0x1fff), Some(0x10_4fff));
    assert_eq!(mapper.translate(HEAP_START + HEAP_SIZE - 1), Some(0x10_0000 + 27 * 0x1000 + 0xfff));
    assert_eq!(mapper.translate(HEAP_START + HEAP_SIZE), None);
    assert_eq!(mapper.translate(HEAP_START - 1), None);
    assert_eq!(allocator.allocate_frame().unwrap().start_address(), 0x10_0000 + 28 * 0x1000);
    let mut frames = Vec::new();
    for i in 0..25 {
        let frame = mapper.translate(HEAP_START + i * 0x1000).unwrap();
        assert!(!frames.contains(&frame));
        frames.push(frame);
    }
}

#[test]
fn heap_backing_reports_exhaustion_and_keeps_what_was_mapped() {
    // Room for the first page with its tables and two more pages.
    let mut allocator = BootInfoFrameAllocator::init(vec![usable(0x10_0000, 0x10_6000)]);
    let mut mapper = mapper();
    assert_eq!(
        init_heap(&mut mapper, &mut allocator, HEAP_START, HEAP_SIZE),
        Err(MapError::FrameAllocationFailed)
    );
    assert_eq!(mapper.translate(HEAP_START), Some(0x10_0000));
    assert_eq!(mapper.translate(HEAP_START + 0x2000), Some(0x10_5000));
    assert_eq!(mapper.translate(HEAP_START + 0x3000), None);
    assert!(allocator.allocate_frame().is_none());
}

#[test]
fn heap_backing_stops_at_a_page_that_is_mapped_elsewhere() {
    let mut allocator = BootInfoFrameAllocator::init(vec![usable(0x10_0000, 0x20_0000)]);
    let mut mapper = mapper();
    let taken = Page::containing_address(HEAP_START + 0x2000).unwrap();
    let frame = PhysFrame::from_start_address(0x5000).unwrap();
    mapper.map_page(taken, frame, PageTableFlags::read_write(), &mut allocator).unwrap();
    assert_eq!(
        init_heap(&mut mapper, &mut allocator, HEAP_START, HEAP_SIZE),
        Err(MapError::PageAlreadyMapped(frame))
    );
    assert!(mapper.translate(HEAP_START + 0x1000).is_some());
    assert_eq!(mapper.translate(HEAP_START + 0x2000), Some(0x5000));
    assert_eq!(mapper.translate(HEAP_START + 0x3000), None);
}

#[test]
fn heap_ranges_stay_in_one_half_of_the_address_space() {
    assert!(heap_range_ok(HEAP_START, HEAP_SIZE));
    assert!(heap_range_ok(0x1234, 0));
    assert!(heap_range_ok(0x0000_8000_0000_0000, 0));
    assert!(heap_range_ok(0, 0x0000_8000_0000_0000));
    assert!(!heap_range_ok(0, 0x0000_8000_0000_0001));
    assert!(!heap_range_ok(0x0000_8000_0000_0000, 1));
    assert!(!heap_range_ok(0xffff_7fff_ffff_ffff, 2));
    assert!(heap_range_ok(0xffff_8000_0000_0000, 0x0000_8000_0000_0000));
    assert!(!heap_range_ok(0xffff_8000_0000_0000, 0x0000_8000_0000_0001));
    assert!(!heap_range_ok(u64::MAX, 2));
    assert!(heap_range_ok(u64::MAX, 1));
}

#[test]
fn empty_heap_needs_nothing() {
    let mut allocator = BootInfoFrameAllocator::init(Vec::new());
    let mut mapper = mapper();
    assert_eq!(init_heap(&mut mapper, &mut allocator, HEAP_START, 0), Ok(()));
    assert!(mapper.take_journal().is_empty());
}
