use rust_os::allocator::Heap;

#[test]
fn blocks_come_lowest_first_and_aligned() {
    let mut heap = Heap::new(0x1000, 0x1000).unwrap();
    assert_eq!(heap.allocate(10, 1), Some(0x1000));
    assert_eq!(heap.allocate(16, 16), Some(0x1010));
    assert_eq!(heap.allocate(1, 1), Some(0x100a));
    assert_eq!(heap.allocate(8, 4096), None);
    assert_eq!(heap.allocate(0x1000, 1), None);
    assert_eq!(heap.allocate(0xfe0, 32), Some(0x1020));
}

#[test]
fn zero_size_and_zero_alignment_are_refused() {
    let mut heap = Heap::new(0x1000, 0x1000).unwrap();
    assert_eq!(heap.allocate(0, 8), None);
    assert_eq!(heap.allocate(8, 0), None);
    assert_eq!(heap.allocate(0x1000, 3), None);
    assert_eq!(heap.allocate(0xfff, 3), None);
    assert_eq!(heap.allocate(0xffe, 3), Some(0x1002));
}

#[test]
fn heap_reaches_no_further_than_its_region() {
    assert!(Heap::new(u64::MAX, 1).is_none());
    let mut top = Heap::new(u64::MAX - 16, 16).unwrap();
    assert_eq!(top.allocate(16, 1), Some(u64::MAX - 16));
    assert_eq!(top.allocate(1, 1), None);
    let mut none = Heap::empty();
    assert_eq!(none.allocate(1, 1), None);
    assert!(!none.deallocate(0, 1));
}

#[test]
fn freed_blocks_are_joined_and_used_again() {
    let mut heap = Heap::new(0, 64).unwrap();
    let a = heap.allocate(16, 1).unwrap();
    let b = heap.allocate(16, 1).unwrap();
    let c = heap.allocate(16, 1).unwrap();
    let d = heap.allocate(16, 1).unwrap();
    assert_eq!((a, b, c, d), (0, 16, 32, 48));
    assert_eq!(heap.allocate(1, 1), None);
    assert!(heap.deallocate(b, 16));
    assert!(heap.deallocate(d, 16));
    assert_eq!(heap.allocate(32, 1), None);
    assert!(heap.deallocate(c, 16));
    assert_eq!(heap.allocate(48, 1), Some(16));
    assert!(heap.deallocate(a, 16));
    assert!(heap.deallocate(16, 48));
    assert_eq!(heap.allocate(64, 1), Some(0));
}

#[test]
fn freeing_what_is_not_allocated_is_refused() {
    let mut heap = Heap::new(0x100, 0x100).unwrap();
    let a = heap.allocate(0x40, 1).unwrap();
    assert!(!heap.deallocate(a, 0));
    assert!(!heap.deallocate(0xff, 2));
    assert!(!heap.deallocate(0x1f0, 0x20));
    assert!(!heap.deallocate(a, 0x41));
    assert!(!heap.deallocate(0x180, 8));
    assert!(heap.deallocate(a + 0x10, 0x10));
    assert!(!heap.deallocate(a + 0x10, 0x10));
    assert!(heap.deallocate(a, 0x10));
    assert!(heap.deallocate(a + 0x20, 0x20));
    assert_eq!(heap.allocate(0x100, 1), Some(0x100));
}

#[test]
fn round_trips_keep_blocks_apart_and_patterns_intact() {
    const START: u64 = 0x4444_4444_0000;
    const SIZE: u64 = 100 * 1024;
    let mut heap = Heap::new(START, SIZE).unwrap();
    let mut memory = vec![0u8; SIZE as usize];
    let mut live: Vec<(u64, u64, u8)> = Vec::new();
    let mut seed: u64 = 0x2545_f491_4f6c_dd1d;
    for round in 0..2000u32 {
        seed ^= seed << 13;
        seed ^= seed >> 7;
        seed ^= seed << 17;
        let size = 1 + seed % 3000;
        let align = 1 << ((seed >> 20) % 8);
        if let Some(at) = heap.allocate(size, align) {
            assert_eq!(at % align, 0);
            assert!(at >= START && at + size <= START + SIZE);
            for &(other, other_size, _) in &live {
                assert!(at + size <= other || other + other_size <= at);
            }
            let pattern = round as u8;
            for byte in &mut memory[(at - START) as usize..(at - START + size) as usize] {
                *byte = pattern;
            }
            live.push((at, size, pattern));
        }
        if (seed >> 40) % 3 != 0 && !live.is_empty() {
            let (at, size, pattern) = live.swap_remove((seed >> 44) as usize % live.len());
            for byte in &memory[(at - START) as usize..(at - START + size) as usize] {
                assert_eq!(*byte, pattern);
            }
            assert!(heap.deallocate(at, size));
        }
    }
    for (at, size, pattern) in live {
        for byte in &memory[(at - START) as usize..(at - START + size) as usize] {
            assert_eq!(*byte, pattern);
        }
        assert!(heap.deallocate(at, size));
    }
    assert_eq!(heap.allocate(SIZE, 1), Some(START));
}
