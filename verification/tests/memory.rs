use kernel_core::drivers::{alloc_for_dma, dealloc_for_dma};
use kernel_core::memory::address::{convert_physical_to_virtual, convert_virtual_to_physical};
use kernel_core::memory::frame::{bitmap_placement, BitmapFrameAllocator, MemoryRegion};
use kernel_core::memory::page_table::{
    CloneError, GeneralPageTable, MapAction, MapToError, PageTableEntry, TableMemory,
};
use kernel_core::memory::user_heap::{HeapStep, HeapType, PageMapping, ProcessHeap};

const HEAP_START: u64 = 20 * 1024 * 1024 * 1024 * 1024;

fn machine() -> BitmapFrameAllocator {
    let map = vec![
        MemoryRegion { base: 0, length: 64 * 1024, usable: false },
        MemoryRegion { base: 64 * 1024, length: 4 * 1024 * 1024 - 64 * 1024, usable: true },
    ];
    let place = bitmap_placement(&map).unwrap();
    assert_eq!(place.address, 64 * 1024);
    BitmapFrameAllocator::init(&map, vec![0u8; place.size]).unwrap()
}

fn blank() -> Vec<PageTableEntry> {
    vec![PageTableEntry { addr: 0, flags: 0 }; 512]
}

fn boot_tables() -> TableMemory {
    let mut memory = TableMemory::new();
    let mut l4 = blank();
    l4[0] = PageTableEntry { addr: 0x2000, flags: 3 };
    let mut l3 = blank();
    l3[0] = PageTableEntry { addr: 0x3000, flags: 3 };
    l3[1] = PageTableEntry { addr: 0x4000_0000, flags: 0x83 };
    let mut l2 = blank();
    l2[5] = PageTableEntry { addr: 0x4000, flags: 7 };
    let mut l1 = blank();
    l1[9] = PageTableEntry { addr: 0x5000, flags: 7 };
    assert!(memory.load(0x1000, l4));
    assert!(memory.load(0x2000, l3));
    assert!(memory.load(0x3000, l2));
    assert!(memory.load(0x4000, l1));
    memory
}

#[test]
fn direct_map() {
    let offset = 0xffff_8000_0000_0000u64;
    assert_eq!(convert_physical_to_virtual(0x1000, offset), Some(0xffff_8000_0000_1000));
    assert_eq!(convert_virtual_to_physical(0xffff_8000_0000_1000, offset), Some(0x1000));
    assert_eq!(convert_physical_to_virtual(0x1000, 0x8000_0000_0000), None);
    assert_eq!(convert_physical_to_virtual(u64::MAX, 1), None);
    assert_eq!(convert_virtual_to_physical(0x1000, offset), None);
    assert_eq!(convert_virtual_to_physical(u64::MAX, 0), None);
}

#[test]
fn allocator_skips_reserved_memory() {
    let mut allocator = machine();
    assert_eq!(allocator.usable_frames(), 1024 - 16 - 1);
    let frame = allocator.allocate_frame().unwrap();
    assert_eq!(frame, 18 * 4096);
    assert_eq!(allocator.allocate_frames(0), None);
    assert_eq!(allocator.allocate_frames(2000), None);
    assert_eq!(allocator.allocate_frames(3), Some(19 * 4096));
    assert_eq!(allocator.allocate_frame(), Some(22 * 4096));
    allocator.deallocate_frame(19 * 4096);
    allocator.deallocate_frame(19 * 4096);
    assert_eq!(allocator.usable_frames(), 1024 - 16 - 1 - 4);
    assert_eq!(allocator.allocate_frame(), Some(23 * 4096));
}

#[test]
fn single_frames_wrap_round_to_freed_ones() {
    let map = vec![MemoryRegion { base: 0, length: 16 * 4096, usable: true }];
    let place = bitmap_placement(&map).unwrap();
    let mut allocator = BitmapFrameAllocator::init(&map, vec![0u8; place.size]).unwrap();
    let mut taken = Vec::new();
    while let Some(frame) = allocator.allocate_frame() {
        taken.push(frame);
    }
    assert_eq!(taken.len(), 15);
    assert_eq!(allocator.usable_frames(), 0);
    allocator.deallocate_frame(3 * 4096);
    assert_eq!(allocator.allocate_frame(), Some(3 * 4096));
    assert_eq!(allocator.allocate_frame(), None);
}

#[test]
fn contiguous_run_is_the_first_from_the_hint() {
    let mut allocator = machine();
    let a = allocator.allocate_frames(4).unwrap();
    let b = allocator.allocate_frames(4).unwrap();
    assert_eq!(b, a + 4 * 4096);
    allocator.deallocate_frame(a);
    allocator.deallocate_frame(a + 4096);
    let c = allocator.allocate_frames(2).unwrap();
    assert_eq!(c, b + 4 * 4096);
    let many = allocator.allocate_many(3).unwrap();
    assert_eq!(many, vec![c + 2 * 4096, c + 3 * 4096, c + 4 * 4096]);
    assert_eq!(allocator.allocate_many(5000), None);
}

#[test]
fn clone_has_tables_of_its_own_and_shares_leaves() {
    let mut allocator = machine();
    let mut memory = boot_tables();
    let free_before = allocator.usable_frames();
    let copy = GeneralPageTable::new_from_address(&mut allocator, &mut memory, 0x1000).unwrap();
    assert_eq!(allocator.usable_frames(), free_before - 4);
    assert_eq!(memory.len(), 8);
    let root = copy.physical_address;
    assert!(root != 0x1000);
    let e4 = memory.entry(root, 0).unwrap();
    assert_eq!(e4.flags, 3);
    assert!(![0x1000, 0x2000, 0x3000, 0x4000].contains(&e4.addr));
    assert_eq!(memory.entry(root, 1).unwrap(), PageTableEntry { addr: 0, flags: 0 });
    let e3 = memory.entry(e4.addr, 0).unwrap();
    assert_eq!(e3.flags, 3);
    assert!(![0x1000, 0x2000, 0x3000, 0x4000].contains(&e3.addr));
    assert_eq!(memory.entry(e4.addr, 1).unwrap(), PageTableEntry { addr: 0x4000_0000, flags: 0x83 });
    let e2 = memory.entry(e3.addr, 5).unwrap();
    assert_eq!(e2.flags, 7);
    assert!(![0x1000, 0x2000, 0x3000, 0x4000].contains(&e2.addr));
    assert_eq!(memory.entry(e2.addr, 9).unwrap(), PageTableEntry { addr: 0x5000, flags: 7 });
    let mut frames = vec![root, e4.addr, e3.addr, e2.addr];
    frames.dedup();
    assert_eq!(frames.len(), 4);
    for frame in frames {
        assert!(!allocator.is_free(frame));
    }
}

#[test]
fn writing_the_clone_leaves_the_source() {
    let mut allocator = machine();
    let mut memory = boot_tables();
    let copy = GeneralPageTable::new_from_address(&mut allocator, &mut memory, 0x1000).unwrap();
    let before: Vec<PageTableEntry> = (0..512).map(|i| memory.entry(0x1000, i).unwrap()).collect();
    for index in 0..512 {
        assert!(memory.set_entry(copy.physical_address, index, PageTableEntry { addr: 0x7000, flags: 1 }));
    }
    let after: Vec<PageTableEntry> = (0..512).map(|i| memory.entry(0x1000, i).unwrap()).collect();
    assert_eq!(before, after);
    assert_eq!(memory.entry(copy.physical_address, 0).unwrap().addr, 0x7000);
    assert!(!memory.set_entry(0x9000, 0, PageTableEntry { addr: 0, flags: 0 }));
    assert!(!memory.set_entry(0x1000, 512, PageTableEntry { addr: 0, flags: 0 }));
}

#[test]
fn clone_errors() {
    let mut allocator = machine();
    let mut memory = boot_tables();
    assert_eq!(
        GeneralPageTable::new_from_address(&mut allocator, &mut memory, 0x8000),
        Err(CloneError::MissingTable)
    );
    let mut broken = boot_tables();
    assert!(broken.set_entry(0x3000, 7, PageTableEntry { addr: 0x9000, flags: 3 }));
    assert_eq!(
        GeneralPageTable::new_from_address(&mut allocator, &mut broken, 0x1000),
        Err(CloneError::MissingTable)
    );
    let mut loose = boot_tables();
    assert!(loose.load(100 * 4096, blank()));
    assert_eq!(
        GeneralPageTable::new_from_address(&mut allocator, &mut loose, 0x1000),
        Err(CloneError::TableInFreeFrame)
    );
    let free = allocator.usable_frames();
    allocator.allocate_many(free - 3).unwrap();
    assert_eq!(
        GeneralPageTable::new_from_address(&mut allocator, &mut memory, 0x1000),
        Err(CloneError::OutOfMemory)
    );
    assert_eq!(allocator.usable_frames(), 3);
    assert_eq!(memory.len(), 4);
    assert!(!memory.load(0x1000, blank()));
    assert!(!memory.load(0x6000, vec![PageTableEntry { addr: 0, flags: 0 }; 3]));
}

#[test]
fn new_table_is_empty() {
    let mut allocator = machine();
    let mut memory = TableMemory::new();
    let table = GeneralPageTable::new(&mut allocator, &mut memory).unwrap();
    assert_eq!(table.physical_address, 18 * 4096);
    for index in 0..512 {
        assert_eq!(memory.entry(table.physical_address, index).unwrap(), PageTableEntry { addr: 0, flags: 0 });
    }
    assert_eq!(memory.entry(table.physical_address, 512), None);
    assert!(memory.contains(table.physical_address));
    assert!(!memory.contains(0));
}

#[test]
fn map_decisions() {
    assert_eq!(GeneralPageTable::map_to_with_table_flags_general(Ok(())), MapAction::Flush);
    assert_eq!(
        GeneralPageTable::map_to_with_table_flags_general(Err(MapToError::ParentEntryHugePage)),
        MapAction::Nothing
    );
    assert_eq!(
        GeneralPageTable::map_to_with_table_flags_general(Err(MapToError::PageAlreadyMapped(0x5000))),
        MapAction::Remap
    );
    assert_eq!(
        GeneralPageTable::map_to_with_table_flags_general(Err(MapToError::FrameAllocationFailed)),
        MapAction::OutOfMemory
    );
}

#[test]
fn copies_between_address_spaces() {
    let offset = 0xffff_8000_0000_0000u64;
    assert_eq!(
        GeneralPageTable::byte_addresses(0x40_0ffe, 4),
        Some(vec![0x40_0ffe, 0x40_0fff, 0x40_1000, 0x40_1001])
    );
    assert_eq!(GeneralPageTable::byte_addresses(0x7fff_ffff_fffe, 3), None);
    assert_eq!(GeneralPageTable::byte_addresses(u64::MAX, 2), None);
    assert_eq!(GeneralPageTable::byte_addresses(5, 0), Some(vec![]));
    let translated = vec![Some(0x5ffe), Some(0x5fff), Some(0x9000)];
    assert_eq!(
        GeneralPageTable::read(&translated, offset),
        Ok(vec![offset + 0x5ffe, offset + 0x5fff, offset + 0x9000])
    );
    assert_eq!(
        GeneralPageTable::write(&translated, offset),
        Ok(vec![offset + 0x5ffe, offset + 0x5fff, offset + 0x9000])
    );
    let failing = vec![Some(0x5ffe), None, Some(0x9000)];
    assert_eq!(GeneralPageTable::read(&failing, offset), Err(()));
    assert_eq!(GeneralPageTable::write(&failing, offset), Err(()));
    assert_eq!(GeneralPageTable::read(&vec![Some(5)], u64::MAX), Err(()));
}

#[test]
fn heap_begins_with_32_pages() {
    let mut allocator = machine();
    let heap = ProcessHeap::new(HeapType::User);
    assert_eq!(heap.len(), 128 * 1024);
    assert_eq!(heap.usable(), 128 * 1024);
    assert!(heap.is_user());
    let free = allocator.usable_frames();
    let mappings = heap.init(&mut allocator).unwrap();
    assert_eq!(mappings.len(), 32);
    assert_eq!(allocator.usable_frames(), free - 32);
    for (i, mapping) in mappings.iter().enumerate() {
        assert_eq!(mapping.page, HEAP_START + i as u64 * 4096);
        assert_eq!(mapping.flags, 7);
        assert!(!allocator.is_free(mapping.frame));
    }
    assert_eq!(mappings[0], PageMapping { page: HEAP_START, frame: 18 * 4096, flags: 7 });
    let kernel = ProcessHeap::new(HeapType::Kernel);
    assert_eq!(kernel.len(), 0);
    assert!(!kernel.is_user());
    assert_eq!(kernel.init(&mut allocator).unwrap().len(), 0);
    assert_eq!(allocator.usable_frames(), free - 32);
}

#[test]
fn heap_grows_once_for_a_large_allocation() {
    let mut allocator = machine();
    let mut heap = ProcessHeap::new(HeapType::User);
    heap.init(&mut allocator).unwrap();
    let free = allocator.usable_frames();
    let size = 128 * 1024 + 1;
    let growth = match heap.allocate(size, None, &mut allocator) {
        HeapStep::Grown(growth) => growth,
        other => panic!("the heap did not grow: {:?}", other),
    };
    assert_eq!(growth.old_size, 128 * 1024);
    assert_eq!(growth.bytes, 2 * size);
    assert_eq!(growth.mappings.len(), 65);
    assert_eq!(growth.mappings[0].page, HEAP_START + 128 * 1024);
    assert_eq!(growth.mappings[64].page, HEAP_START + 128 * 1024 + 64 * 4096);
    assert_eq!(allocator.usable_frames(), free - 65);
    assert_eq!(heap.len(), 128 * 1024 + 65 * 4096);
    assert_eq!(heap.len(), 397312);
    assert!(heap.len() >= 256 * 1024 + 4096);
    assert!(heap.holds(HEAP_START + 128 * 1024, size));
    assert_eq!(heap.allocate_after_growth(size, HEAP_START + 0x100), Some(HEAP_START + 0x100));
    assert_eq!(heap.usable(), 128 * 1024 + 65 * 4096 - size);
    assert_eq!(heap.allocate_after_growth(size, HEAP_START + 400000), None);
    assert_eq!(heap.allocate_after_growth(size, HEAP_START - 1), None);
    assert_eq!(heap.usable(), 128 * 1024 + 65 * 4096 - size);
}

#[test]
fn heap_books_what_is_handed_out() {
    let mut allocator = machine();
    let free = allocator.usable_frames();
    let mut heap = ProcessHeap::new(HeapType::User);
    assert_eq!(
        heap.allocate(1000, Some(HEAP_START + 64), &mut allocator),
        HeapStep::Done(HEAP_START + 64)
    );
    assert_eq!(heap.usable(), 128 * 1024 - 1000);
    heap.deallocate(HEAP_START + 64, 1000);
    assert_eq!(heap.usable(), 128 * 1024);
    assert_eq!(
        heap.allocate(128 * 1024, Some(HEAP_START), &mut allocator),
        HeapStep::Done(HEAP_START)
    );
    assert_eq!(heap.usable(), 0);
    assert_eq!(
        heap.allocate(128 * 1024, Some(HEAP_START + 1), &mut allocator),
        HeapStep::Misplaced(HEAP_START + 1)
    );
    assert_eq!(heap.allocate(8, Some(0x1000), &mut allocator), HeapStep::Misplaced(0x1000));
    assert_eq!(heap.usable(), 0);
    assert_eq!(heap.len(), 128 * 1024);
    assert_eq!(allocator.usable_frames(), free);
    assert!(heap.holds(HEAP_START + 128 * 1024 - 8, 8));
    assert!(!heap.holds(HEAP_START + 128 * 1024 - 8, 9));
}

#[test]
fn heap_that_cannot_grow_says_so() {
    let mut allocator = machine();
    let mut heap = ProcessHeap::new(HeapType::User);
    let free = allocator.usable_frames();
    assert_eq!(heap.allocate(free * 4096, None, &mut allocator), HeapStep::Exhausted);
    assert_eq!(heap.len(), 128 * 1024);
    assert_eq!(heap.usable(), 128 * 1024);
    assert_eq!(allocator.usable_frames(), free);
}

#[test]
fn heap_refuses_to_grow_without_frames() {
    let mut allocator = machine();
    let mut heap = ProcessHeap::new(HeapType::User);
    let free = allocator.usable_frames();
    assert!(heap.sbrk((free + 1) * 4096, &mut allocator).is_none());
    assert_eq!(heap.len(), 128 * 1024);
    assert_eq!(allocator.usable_frames(), free);
    assert!(heap.sbrk(usize::MAX, &mut allocator).is_none());
    assert!(heap.sbrk(0x7000_0000_0000, &mut allocator).is_none());
    let growth = heap.sbrk(1, &mut allocator).unwrap();
    assert_eq!(growth.mappings.len(), 1);
    assert_eq!(heap.sbrk(0, &mut allocator).unwrap().mappings.len(), 0);
}

#[test]
fn heap_clear_gives_the_frames_back() {
    let mut allocator = machine();
    let mut heap = ProcessHeap::new(HeapType::User);
    let free = allocator.usable_frames();
    let mut frames: Vec<u64> = heap.init(&mut allocator).unwrap().iter().map(|m| m.frame).collect();
    frames.extend(heap.sbrk(10000, &mut allocator).unwrap().mappings.iter().map(|m| m.frame));
    let pages = heap.pages();
    assert_eq!(pages.len(), 35);
    assert_eq!(pages[34], HEAP_START + 34 * 4096);
    assert_eq!(allocator.usable_frames(), free - 35);
    heap.clear(&frames, &mut allocator);
    assert_eq!(heap.len(), 0);
    assert_eq!(heap.usable(), 0);
    assert_eq!(heap.pages().len(), 0);
    assert_eq!(allocator.usable_frames(), free);
}

#[test]
fn memory_for_devices() {
    let offset = 0xffff_8000_0000_0000u64;
    let mut allocator = machine();
    let free = allocator.usable_frames();
    let (physical, virtual_address) = alloc_for_dma(&mut allocator, 3, offset).unwrap();
    assert_eq!(physical, 18 * 4096);
    assert_eq!(virtual_address, offset + 18 * 4096);
    assert_eq!(allocator.usable_frames(), free - 3);
    assert!(!allocator.is_free(physical + 2 * 4096));
    assert_eq!(alloc_for_dma(&mut allocator, 0, offset), None);
    assert_eq!(alloc_for_dma(&mut allocator, 5000, offset), None);
    assert_eq!(alloc_for_dma(&mut allocator, 2, 0x8000_0000_0000), None);
    assert_eq!(allocator.usable_frames(), free - 3);
    assert!(allocator.is_free(21 * 4096));
    assert!(allocator.is_free(22 * 4096));

    assert!(!dealloc_for_dma(&mut allocator, 0x1000, offset, 3));
    assert!(!dealloc_for_dma(&mut allocator, offset + 1022 * 4096, offset, 3));
    assert_eq!(allocator.usable_frames(), free - 3);
    assert!(dealloc_for_dma(&mut allocator, virtual_address + 5, offset, 3));
    assert_eq!(allocator.usable_frames(), free);
    for frame in 18..21u64 {
        assert!(allocator.is_free(frame * 4096));
    }
    assert!(dealloc_for_dma(&mut allocator, offset + 1021 * 4096, offset, 3));
    assert!(dealloc_for_dma(&mut allocator, offset, offset, 0));
}

#[test]
fn entries_that_a_copy_shares() {
    let unused = PageTableEntry { addr: 0, flags: 0 };
    let table = PageTableEntry { addr: 0x3000, flags: 3 };
    let huge = PageTableEntry { addr: 0x4000_0000, flags: 0x83 };
    for level in 1..=4u8 {
        assert!(unused.is_shared(level));
        assert!(huge.is_shared(level));
        assert_eq!(table.is_shared(level), level == 1);
    }
    assert!(unused.is_unused());
    assert!(!table.is_unused());
}
