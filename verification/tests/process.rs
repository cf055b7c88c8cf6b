use kernel_core::arch::smp::{ap_entry, ApAction, ApStage, SyncFlags};
use kernel_core::memory::frame::{bitmap_placement, BitmapFrameAllocator, MemoryRegion};
use kernel_core::memory::page_table::GeneralPageTable;
use kernel_core::memory::user_heap::HeapType;
use kernel_core::start_schedule;
use kernel_core::task::process::{
    Process, ProcessBinary, ProcessId, ProcessTable, Segment, SpawnError,
};
use kernel_core::task::scheduler::{init, Scheduler};
use kernel_core::task::signal::Signal;
use kernel_core::task::thread::{Thread, ThreadId, ThreadState, UserStack};

fn machine() -> BitmapFrameAllocator {
    let map = vec![MemoryRegion { base: 0, length: 4 * 1024 * 1024, usable: true }];
    let place = bitmap_placement(&map).unwrap();
    BitmapFrameAllocator::init(&map, vec![0u8; place.size]).unwrap()
}

fn table() -> GeneralPageTable {
    GeneralPageTable { physical_address: 0x7000 }
}

#[test]
fn kernel_process() {
    let mut next_pid = 0;
    let kernel = Process::new_kernel_process(&mut next_pid, table());
    assert_eq!(kernel.id, ProcessId(0));
    assert_eq!(kernel.get_name(), "kernel");
    assert_eq!(kernel.heap.len(), 0);
    assert!(!kernel.heap.is_user());
    assert!(kernel.threads.is_empty());
    assert_eq!(kernel.father, None);
    assert_eq!(kernel.signal_manager.capacity(), 512);
    assert_eq!(next_pid, 1);
    let user = Process::new(&mut next_pid, "shell", HeapType::User, table());
    assert_eq!(user.id, ProcessId(1));
    assert_eq!(user.get_name(), "shell");
    assert_eq!(user.heap.len(), 128 * 1024);
    assert_eq!(user.page_table, table());
}

#[test]
fn process_table() {
    let mut next_pid = 0;
    let mut processes = ProcessTable::new();
    let a = Process::new(&mut next_pid, "a", HeapType::User, table());
    let b = Process::new(&mut next_pid, "b", HeapType::User, table());
    assert!(processes.add_process(a).is_none());
    assert!(processes.add_process(b).is_none());
    assert_eq!(processes.len(), 2);
    assert_eq!(processes.get_process(ProcessId(1)).unwrap().get_name(), "b");
    assert!(processes.get_process(ProcessId(2)).is_none());
    let mut again = 1;
    let twin = Process::new(&mut again, "twin", HeapType::User, table());
    assert_eq!(processes.add_process(twin).unwrap().get_name(), "twin");
    assert_eq!(processes.remove(ProcessId(0)).unwrap().get_name(), "a");
    assert!(processes.remove(ProcessId(0)).is_none());
    assert!(processes.get_process(ProcessId(0)).is_none());
    assert_eq!(processes.len(), 1);
}

#[test]
fn segments_are_mapped_page_by_page() {
    let mut allocator = machine();
    let segment = Segment { address: 0x40_0800, size: 64 * 1024 };
    assert!(ProcessBinary::check(&vec![segment]));
    let free = allocator.usable_frames();
    let mappings = ProcessBinary::map_segment(segment, &mut allocator).unwrap();
    assert_eq!(mappings.len(), 17);
    assert_eq!(allocator.usable_frames(), free - 17);
    for (i, mapping) in mappings.iter().enumerate() {
        assert_eq!(mapping.page, 0x40_0000 + i as u64 * 4096);
        assert_eq!(mapping.flags, 7);
    }
    let aligned = Segment { address: 0x40_0000, size: 64 * 1024 };
    assert_eq!(ProcessBinary::map_segment(aligned, &mut allocator).unwrap().len(), 16);
    let large = Segment { address: 0x40_0000, size: 64 * 1024 * 1024 };
    let left = allocator.usable_frames();
    assert!(ProcessBinary::map_segment(large, &mut allocator).is_none());
    assert_eq!(allocator.usable_frames(), left);
    assert!(!ProcessBinary::check(&vec![Segment { address: 0x40_0000, size: 0 }]));
    assert!(!ProcessBinary::check(&vec![aligned, Segment { address: 0x8000_0000_0000, size: 1 }]));
    assert!(!ProcessBinary::check(&vec![Segment { address: u64::MAX, size: 2 }]));
    assert!(!ProcessBinary::check(&vec![Segment { address: 0x7fff_ffff_f000, size: 0x2000 }]));
}

#[test]
fn process_exit() {
    let mut allocator = machine();
    let mut next_pid = 0;
    let mut next_tid = 0;
    let mut scheduler = Scheduler::new(&vec![(0u32, 0u64)], &mut next_tid, ProcessId(0));
    let mut processes = ProcessTable::new();
    let kernel = Process::new_kernel_process(&mut next_pid, table());
    processes.add_process(kernel);
    let free = allocator.usable_frames();
    let mut process = Process::new(&mut next_pid, "user", HeapType::User, table());
    let pid = process.id;
    let mut frames: Vec<u64> = process.heap.init(&mut allocator).unwrap().iter().map(|m| m.frame).collect();
    let segment = Segment { address: 0x40_0000, size: 64 * 1024 };
    frames.extend(ProcessBinary::map_segment(segment, &mut allocator).unwrap().iter().map(|m| m.frame));
    assert_eq!(allocator.usable_frames(), free - 48);
    let tid = Thread::new_user_thread(&mut next_tid, &mut scheduler, &mut process, 0x9000, 0x8f00).unwrap();
    assert_eq!(process.threads, vec![tid]);
    assert_eq!(scheduler.thread(tid).unwrap().priority, 20);
    assert_eq!(scheduler.thread(tid).unwrap().process, pid);
    processes.add_process(process);
    assert_eq!(scheduler.schedule(0, 0).thread, tid);

    let process = processes.exit(pid, &mut scheduler, &mut allocator, &frames).unwrap();
    assert!(processes.get_process(pid).is_none());
    assert_eq!(allocator.usable_frames(), free);
    assert_eq!(process.heap.len(), 0);
    assert_eq!(scheduler.thread(tid).unwrap().state, ThreadState::Terminated);
    for _ in 0..10 {
        assert_eq!(scheduler.schedule(0, 0).thread, ThreadId(0));
    }
}

#[test]
fn signal_wakeup() {
    let mut next_pid = 1;
    let mut next_tid = 0;
    let mut scheduler = Scheduler::new(&vec![(0u32, 0u64), (1, 0)], &mut next_tid, ProcessId(0));
    let mut process = Process::new(&mut next_pid, "waiter", HeapType::User, table());
    let mut other = Process::new(&mut next_pid, "other", HeapType::User, table());
    let tid = Thread::new_user_thread(&mut next_tid, &mut scheduler, &mut process, 0, 0).unwrap();
    let blocked = Thread::new_user_thread(&mut next_tid, &mut scheduler, &mut process, 0, 0).unwrap();
    let bystander = Thread::new_user_thread(&mut next_tid, &mut scheduler, &mut other, 0, 0).unwrap();
    process.register_wait_for(5);
    assert!(scheduler.set_state(tid, ThreadState::Waiting));
    assert!(scheduler.set_state(blocked, ThreadState::Blocked));
    assert!(scheduler.set_state(bystander, ThreadState::Waiting));
    let signal = Signal { ty: 4, data: [0; 8] };
    process.register_signal(&mut scheduler, 4, signal);
    assert_eq!(scheduler.thread(tid).unwrap().state, ThreadState::Waiting);
    let cpu = scheduler.thread(tid).unwrap().cpu_id;
    assert_eq!(scheduler.schedule(cpu, 0).thread, ThreadId(cpu as u64));
    let signal = Signal { ty: 5, data: [1, 2, 3, 4, 5, 6, 7, 8] };
    process.register_signal(&mut scheduler, 5, signal);
    assert_eq!(scheduler.thread(tid).unwrap().state, ThreadState::Ready);
    assert_eq!(scheduler.thread(blocked).unwrap().state, ThreadState::Ready);
    assert_eq!(scheduler.thread(bystander).unwrap().state, ThreadState::Waiting);
    assert_eq!(scheduler.schedule(cpu, 0).thread, tid);
    assert_eq!(scheduler.thread(tid).unwrap().state, ThreadState::Running);
    assert_eq!(process.signal_manager.get_signal(5).unwrap().data, [1, 2, 3, 4, 5, 6, 7, 8]);
    assert!(scheduler.set_state(tid, ThreadState::Waiting));
    process.register_signal(&mut scheduler, 5, signal);
    assert_eq!(scheduler.thread(tid).unwrap().state, ThreadState::Waiting);
}

#[test]
fn kernel_threads_have_priority_ten() {
    let mut next_pid = 0;
    let mut next_tid = 0;
    let mut scheduler = Scheduler::new(&vec![(0u32, 0u64)], &mut next_tid, ProcessId(0));
    let mut kernel = Process::new_kernel_process(&mut next_pid, table());
    let tid = Thread::new_kernel_thread(&mut next_tid, &mut scheduler, &mut kernel, 0x5000, 0x4f00).unwrap();
    let thread = scheduler.thread(tid).unwrap();
    assert_eq!(thread.priority, 10);
    assert_eq!(thread.vruntime, -1);
    assert_eq!(thread.state, ThreadState::Ready);
    assert_eq!(thread.kernel_stack_top, 0x5000);
    assert_eq!(thread.context, 0x4f00);
    assert_eq!(kernel.threads, vec![tid]);
    let mut stale = 0;
    assert_eq!(Thread::new_kernel_thread(&mut stale, &mut scheduler, &mut kernel, 0, 0), None);
    assert_eq!(kernel.threads, vec![tid]);
    let mut allocator = machine();
    kernel.exit(&mut scheduler, &mut allocator, &Vec::new());
    assert_eq!(scheduler.thread(tid).unwrap().state, ThreadState::Ready);
    assert_eq!(scheduler.schedule(0, 0).thread, tid);
    assert_eq!(scheduler.schedule(0, 0).thread, ThreadId(0));
}

#[test]
fn smp_barrier() {
    let mut flags = SyncFlags::new();
    let mut stages = vec![ApStage::Started; 3];
    let mut interrupts = vec![false; 3];
    let mut run = |stages: &mut Vec<ApStage>, interrupts: &mut Vec<bool>, flags: &SyncFlags| {
        for _ in 0..10 {
            for cpu in 0..3 {
                let (next, action) = ap_entry(stages[cpu], flags);
                if action == ApAction::EnableInterrupts {
                    interrupts[cpu] = true;
                }
                stages[cpu] = next;
            }
        }
    };
    run(&mut stages, &mut interrupts, &flags);
    assert_eq!(stages, vec![ApStage::WaitingForHpet; 3]);
    flags.set_hpet_init();
    run(&mut stages, &mut interrupts, &flags);
    assert_eq!(stages, vec![ApStage::WaitingForScheduler; 3]);
    init(&mut flags);
    run(&mut stages, &mut interrupts, &flags);
    assert_eq!(stages, vec![ApStage::WaitingForStart; 3]);
    assert_eq!(interrupts, vec![false; 3]);
    assert_eq!(ap_entry(ApStage::WaitingForStart, &flags), (ApStage::WaitingForStart, ApAction::Spin));
    start_schedule(&mut flags);
    assert_eq!(flags, SyncFlags { hpet_init: true, scheduler_init: true, start_schedule: true });
    assert_eq!(ap_entry(ApStage::WaitingForStart, &flags), (ApStage::Idle, ApAction::EnableInterrupts));
    run(&mut stages, &mut interrupts, &flags);
    assert_eq!(stages, vec![ApStage::Idle; 3]);
    assert_eq!(interrupts, vec![true; 3]);
    assert_eq!(ap_entry(ApStage::Idle, &flags), (ApStage::Idle, ApAction::Halt));
    assert_eq!(ap_entry(ApStage::Started, &flags), (ApStage::WaitingForHpet, ApAction::LoadTables));
    assert_eq!(ap_entry(ApStage::WaitingForHpet, &flags), (ApStage::WaitingForScheduler, ApAction::StartTimer));
    assert_eq!(ap_entry(ApStage::WaitingForScheduler, &flags), (ApStage::WaitingForStart, ApAction::InitUser));

    let mut next_tid = 0;
    let mut scheduler = Scheduler::new(&vec![(0u32, 0u64), (1, 0), (2, 0), (3, 0)], &mut next_tid, ProcessId(0));
    for cpu in 0..4u32 {
        assert_eq!(scheduler.schedule(cpu, 0).thread, ThreadId(cpu as u64));
    }
}

#[test]
fn user_process_from_a_program() {
    let mut allocator = machine();
    let mut next_pid = 0;
    let mut next_tid = 0;
    let mut scheduler = Scheduler::new(&vec![(0u32, 0u64)], &mut next_tid, ProcessId(0));
    let mut processes = ProcessTable::new();
    processes.add_process(Process::new_kernel_process(&mut next_pid, table()));
    let free = allocator.usable_frames();
    let segments = vec![
        Segment { address: 0x40_0000, size: 64 * 1024 },
        Segment { address: 0x60_0010, size: 0x1000 },
    ];
    let loaded = Process::new_user_process(
        &mut next_pid,
        &mut next_tid,
        "init",
        table(),
        &segments,
        0x9000,
        0x8f00,
        &mut allocator,
        &mut scheduler,
        &mut processes,
    )
    .unwrap();
    assert_eq!(loaded.pid, ProcessId(1));
    assert_eq!(loaded.thread, ThreadId(1));
    assert_eq!((next_pid, next_tid), (2, 2));
    assert_eq!(loaded.heap.len(), 32);
    assert_eq!(loaded.segments.len(), 2);
    assert_eq!(loaded.segments[0].len(), 16);
    assert_eq!(loaded.segments[1].len(), 2);
    assert_eq!(loaded.segments[1][0].page, 0x60_0000);
    assert_eq!(loaded.segments[1][1].page, 0x60_1000);
    assert_eq!(loaded.stack.end_address, 18 << 40);
    assert_eq!(loaded.stack.mappings.len(), 16);
    assert_eq!(loaded.stack.mappings[0].page, (18 << 40) - 16 * 4096);
    assert_eq!(loaded.stack.mappings[15].page, (18 << 40) - 4096);
    assert_eq!(loaded.stack.mappings[15].flags, 7);
    assert_eq!(allocator.usable_frames(), free - 66);
    let mut frames: Vec<u64> = loaded.heap.iter().map(|m| m.frame).collect();
    frames.extend(loaded.segments.iter().flatten().map(|m| m.frame));
    frames.extend(loaded.stack.mappings.iter().map(|m| m.frame));
    let mut distinct = frames.clone();
    distinct.sort();
    distinct.dedup();
    assert_eq!(distinct.len(), 66);
    assert!(frames.windows(2).all(|pair| pair[0] < pair[1]));
    let process = processes.get_process(loaded.pid).unwrap();
    assert_eq!(process.get_name(), "init");
    assert_eq!(process.threads, vec![loaded.thread]);
    assert_eq!(process.heap.len(), 128 * 1024);
    let thread = scheduler.thread(loaded.thread).unwrap();
    assert_eq!((thread.priority, thread.process, thread.context), (20, loaded.pid, 0x8f00));
    assert_eq!(scheduler.schedule(0, 0).thread, loaded.thread);

    let ended = processes.exit(loaded.pid, &mut scheduler, &mut allocator, &frames).unwrap();
    assert_eq!(ended.heap.len(), 0);
    assert!(processes.get_process(loaded.pid).is_none());
    assert_eq!(processes.len(), 1);
    assert_eq!(allocator.usable_frames(), free);
    assert_eq!(scheduler.thread(loaded.thread).unwrap().state, ThreadState::Terminated);
    assert_eq!(scheduler.schedule(0, 0).thread, ThreadId(0));
    assert!(processes.exit(loaded.pid, &mut scheduler, &mut allocator, &frames).is_none());
}

#[test]
fn user_process_is_refused() {
    let mut allocator = machine();
    let mut next_pid = 0;
    let mut next_tid = 0;
    let mut scheduler = Scheduler::new(&vec![(0u32, 0u64)], &mut next_tid, ProcessId(0));
    let mut processes = ProcessTable::new();
    processes.add_process(Process::new_kernel_process(&mut next_pid, table()));
    let free = allocator.usable_frames();
    let good = vec![Segment { address: 0x40_0000, size: 64 * 1024 }];
    let bad = vec![Segment { address: 0x40_0000, size: 0 }];
    let huge = vec![Segment { address: 0x40_0000, size: 1 << 30 }];
    let mut attempt = |pid: &mut u64, tid: &mut u64, segments: &Vec<Segment>, allocator: &mut BitmapFrameAllocator| {
        Process::new_user_process(
            pid, tid, "p", table(), segments, 0, 0, allocator, &mut scheduler, &mut processes,
        )
        .map(|loaded| loaded.pid)
    };
    assert_eq!(attempt(&mut next_pid, &mut next_tid, &bad, &mut allocator), Err(SpawnError::BadSegment));
    assert_eq!(attempt(&mut next_pid, &mut next_tid, &huge, &mut allocator), Err(SpawnError::OutOfMemory));
    let mut stale = 0;
    assert_eq!(attempt(&mut stale, &mut next_tid, &good, &mut allocator), Err(SpawnError::IdentityTaken));
    assert_eq!(attempt(&mut next_pid, &mut stale, &good, &mut allocator), Err(SpawnError::IdentityTaken));
    assert_eq!((next_pid, next_tid, stale), (1, 1, 0));
    assert_eq!(allocator.usable_frames(), free);
    assert_eq!(attempt(&mut next_pid, &mut next_tid, &good, &mut allocator), Ok(ProcessId(1)));
    assert_eq!(allocator.usable_frames(), free - 64);
    let left = allocator.usable_frames();
    allocator.allocate_many(left - 63).unwrap();
    assert_eq!(attempt(&mut next_pid, &mut next_tid, &good, &mut allocator), Err(SpawnError::OutOfMemory));
    assert_eq!(allocator.usable_frames(), 63);
}

#[test]
fn user_stack_lies_below_the_program() {
    let mut allocator = machine();
    let free = allocator.usable_frames();
    let stack = UserStack::new(&mut allocator).unwrap();
    assert_eq!(stack.end_address, 0x1200_0000_0000);
    assert_eq!(stack.mappings.len(), 16);
    for (i, mapping) in stack.mappings.iter().enumerate() {
        assert_eq!(mapping.page, 0x1200_0000_0000 - (16 - i as u64) * 4096);
        assert_eq!(mapping.flags, 7);
        assert!(!allocator.is_free(mapping.frame));
    }
    assert_eq!(allocator.usable_frames(), free - 16);
    let left = allocator.usable_frames();
    allocator.allocate_many(left - 15).unwrap();
    assert!(UserStack::new(&mut allocator).is_none());
    assert_eq!(allocator.usable_frames(), 15);
}
