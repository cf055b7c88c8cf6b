use kernel_core::memory::frame::{
    bitmap_placement, BitmapFrameAllocator, BitmapPlacement, FrameInitError, MemoryRegion,
};

fn four_mib() -> Vec<MemoryRegion> {
    vec![MemoryRegion { base: 0, length: 4 * 1024 * 1024, usable: true }]
}

fn allocator_over(map: &Vec<MemoryRegion>) -> BitmapFrameAllocator {
    let place = bitmap_placement(map).unwrap();
    BitmapFrameAllocator::init(map, vec![0xffu8; place.size]).unwrap()
}

#[test]
fn placement_of_four_mib() {
    let place = bitmap_placement(&four_mib()).unwrap();
    assert_eq!(place, BitmapPlacement { address: 0, size: 128 });
}

#[test]
fn init_reserves_own_frame() {
    let allocator = allocator_over(&four_mib());
    assert_eq!(allocator.frame_count(), 1024);
    assert_eq!(allocator.usable_frames(), 1023);
    assert!(!allocator.is_free(0));
    assert!(allocator.is_free(4096));
    assert!(allocator.is_free(1023 * 4096));
    assert!(!allocator.is_free(1024 * 4096));
}

#[test]
fn frame_round_trip() {
    let mut allocator = allocator_over(&four_mib());
    let before: Vec<bool> = (0..1024u64).map(|f| allocator.is_free(f * 4096)).collect();
    let mut taken = Vec::new();
    for _ in 0..300 {
        let frame = allocator.allocate_frame().unwrap();
        assert_eq!(frame % 4096, 0);
        assert!(!allocator.is_free(frame));
        assert!(!taken.contains(&frame));
        taken.push(frame);
    }
    assert_eq!(allocator.usable_frames(), 723);
    for frame in taken.iter().rev() {
        allocator.deallocate_frame(*frame);
    }
    assert_eq!(allocator.usable_frames(), 1023);
    let after: Vec<bool> = (0..1024u64).map(|f| allocator.is_free(f * 4096)).collect();
    assert_eq!(before, after);
    let base = allocator.allocate_frames(512).unwrap();
    assert_eq!(base % 4096, 0);
    for f in 0..512u64 {
        assert!(!allocator.is_free(base + f * 4096));
    }
    assert_eq!(allocator.usable_frames(), 511);
}

#[test]
fn init_errors() {
    assert_eq!(bitmap_placement(&Vec::new()), Err(FrameInitError::NoRegions));
    let reserved = vec![MemoryRegion { base: 0, length: 1 << 20, usable: false }];
    assert_eq!(bitmap_placement(&reserved), Err(FrameInitError::NoRoomForBitmap));
    let huge = vec![MemoryRegion { base: u64::MAX, length: 4096, usable: true }];
    assert_eq!(bitmap_placement(&huge), Err(FrameInitError::TooLarge));
    assert!(matches!(
        BitmapFrameAllocator::init(&four_mib(), vec![0u8; 5]),
        Err(FrameInitError::BufferSize)
    ));
}

#[test]
fn run_of_frames_is_taken_and_given_back() {
    let mut allocator = allocator_over(&four_mib());
    let before: Vec<bool> = (0..1024u64).map(|f| allocator.is_free(f * 4096)).collect();
    let base = allocator.allocate_frames(7).unwrap();
    assert_eq!(base, 2 * 4096);
    for f in 0..1024u64 {
        let inside = f >= 2 && f < 9;
        assert_eq!(allocator.is_free(f * 4096), before[f as usize] && !inside);
    }
    assert_eq!(allocator.usable_frames(), 1023 - 7);
    for f in (0..7u64).rev() {
        allocator.deallocate_frame(base + f * 4096 + 123);
    }
    let after: Vec<bool> = (0..1024u64).map(|f| allocator.is_free(f * 4096)).collect();
    assert_eq!(before, after);
    assert_eq!(allocator.usable_frames(), 1023);
}

#[test]
fn placement_takes_the_first_region_with_room() {
    let map = vec![
        MemoryRegion { base: 0, length: 4096, usable: true },
        MemoryRegion { base: 0x10_0000, length: 0x10_0000, usable: false },
        MemoryRegion { base: 0x20_0000, length: 0x4000_0000, usable: true },
    ];
    let place = bitmap_placement(&map).unwrap();
    assert_eq!(place.size, (0x4020_0000usize / 4096 + 7) / 8);
    assert_eq!(place.address, 0x20_0000);
    let allocator = BitmapFrameAllocator::init(&map, vec![0u8; place.size]).unwrap();
    assert!(allocator.is_free(0));
    assert!(!allocator.is_free(0x10_0000));
    let own = (place.size as u64 + 4095) / 4096;
    assert!(!allocator.is_free(0x20_0000));
    assert!(!allocator.is_free(0x20_0000 + (own - 1) * 4096));
    assert!(allocator.is_free(0x20_0000 + own * 4096));
    assert_eq!(allocator.usable_frames() as u64, 1 + 0x4000_0000 / 4096 - own);
}

#[test]
fn run_below_the_hint_is_found() {
    let map = vec![MemoryRegion { base: 0, length: 32 * 4096, usable: true }];
    let place = bitmap_placement(&map).unwrap();
    let mut allocator = BitmapFrameAllocator::init(&map, vec![0u8; place.size]).unwrap();
    let first = allocator.allocate_frames(30).unwrap();
    assert_eq!(first, 2 * 4096);
    assert_eq!(allocator.usable_frames(), 1);
    assert_eq!(allocator.allocate_frames(2), None);
    for frame in 4..8u64 {
        allocator.deallocate_frame(frame * 4096);
    }
    assert_eq!(allocator.allocate_frames(5), None);
    assert_eq!(allocator.allocate_frames(3), Some(4 * 4096));
    assert_eq!(allocator.allocate_frames(1), Some(4096));
    assert_eq!(allocator.allocate_frames(1), Some(7 * 4096));
    assert_eq!(allocator.allocate_frames(1), None);
    assert_eq!(allocator.usable_frames(), 0);
}

#[test]
fn hint_turns_round_to_a_free_frame() {
    let map = vec![MemoryRegion { base: 0, length: 8 * 4096, usable: true }];
    let place = bitmap_placement(&map).unwrap();
    let mut allocator = BitmapFrameAllocator::init(&map, vec![0u8; place.size]).unwrap();
    let mut taken = Vec::new();
    while let Some(frame) = allocator.allocate_frame() {
        taken.push(frame / 4096);
    }
    assert_eq!(taken, vec![2, 3, 4, 5, 6, 7, 1]);
    allocator.deallocate_frame(3 * 4096);
    allocator.deallocate_frame(6 * 4096);
    assert_eq!(allocator.allocate_frame(), Some(3 * 4096));
    assert_eq!(allocator.allocate_frames(1), Some(6 * 4096));
    allocator.deallocate_frame(2 * 4096);
    allocator.deallocate_frame(5 * 4096);
    assert_eq!(allocator.allocate_frame(), Some(2 * 4096));
    assert_eq!(allocator.allocate_frame(), Some(5 * 4096));
    assert_eq!(allocator.allocate_frame(), None);
}
