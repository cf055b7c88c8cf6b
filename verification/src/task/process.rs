//! Processes: what belongs to one, how they come to be and how they end.

use crate::memory::address::{
    aligned_down, check_virtual, is_canonical, page_containing, user_page_flags, PAGE_SIZE,
    USER_PAGE_FLAGS,
};
use crate::memory::frame::{
    lemma_after_adds, release_all, AllocatorView, BitmapFrameAllocator, FRAME_SIZE,
};
use crate::memory::page_table::GeneralPageTable;
use crate::memory::user_heap::{
    frame_numbers, frames_taken, heap_mappings, HeapType, PageMapping, ProcessHeap,
    USER_HEAP_INIT_SIZE,
};
use crate::task::scheduler::{Scheduler, SchedulerView};
use crate::task::signal::{Signal, SignalManager};
use crate::task::thread::{
    counter_after, stack_mappings, Thread, ThreadId, ThreadState, UserStack, USER_PRIORITY,
    USER_STACK_PAGES,
};
use vstd::pervasive::unreached;
use vstd::prelude::*;

verus! {

/// The number of bytes in a process's presence bitmap of signals.
pub const SIGNAL_TYPE_NUM: usize = 64;

/// The identity of a process. Identities are handed out in rising order.
#[derive(Debug, Clone, Copy, PartialEq, Eq, PartialOrd, Ord)]
pub struct ProcessId(pub u64);

impl ProcessId {
    /// Takes the next identity from the counter `next` and moves the counter on.
    pub fn new(next: &mut u64) -> (id: Self)
        ensures
            id.0 == *old(next),
            *final(next) == counter_after(*old(next), 1),
    {
        let id = ProcessId(*next);
        *next = if *next == u64::MAX {
            0
        } else {
            *next + 1
        };
        id
    }
}

/// A process.
pub struct Process {
    pub id: ProcessId,
    pub name: String,
    pub page_table: GeneralPageTable,
    /// The threads of the process, in the order in which they were made.
    pub threads: Vec<ThreadId>,
    pub heap: ProcessHeap,
    pub signal_manager: SignalManager,
    /// The process that made this one.
    pub father: Option<ProcessId>,
}

/// One loadable segment of a program: where it goes in the address space and
/// how many bytes it takes there.
#[derive(Debug, Clone, Copy, PartialEq, Eq)]
pub struct Segment {
    pub address: u64,
    pub size: u64,
}

/// Whether a segment lies in canonical addresses and can be counted in pages.
pub open spec fn segment_valid(segment: Segment) -> bool {
    &&& segment.size > 0
    &&& segment.address + segment.size <= u64::MAX
    &&& is_canonical(segment.address)
    &&& is_canonical((segment.address + segment.size - 1) as u64)
    &&& segment_pages(segment) <= usize::MAX
}

/// The number of pages that a segment touches.
pub open spec fn segment_pages(segment: Segment) -> int {
    (aligned_down((segment.address + segment.size - 1) as u64) - aligned_down(segment.address))
        / PAGE_SIZE as int + 1
}

/// The number of pages that the first `upto` segments touch together.
pub open spec fn pages_before(segments: Seq<Segment>, upto: int) -> int
    decreases upto,
{
    if upto <= 0 {
        0
    } else {
        pages_before(segments, upto - 1) + segment_pages(segments[upto - 1])
    }
}

/// Whether every segment can be mapped.
pub open spec fn segments_valid(segments: Seq<Segment>) -> bool {
    forall|s: int| 0 <= s < segments.len() ==> segment_valid(#[trigger] segments[s])
}

/// Segments that can be mapped touch at least one page each.
pub proof fn lemma_pages_before(segments: Seq<Segment>, a: int, b: int)
    requires
        segments_valid(segments),
        0 <= a <= b <= segments.len(),
    ensures
        0 <= pages_before(segments, a) <= pages_before(segments, b),
    decreases b,
{
    if a < b {
        lemma_pages_before(segments, a, b - 1);
        assert(segment_valid(segments[b - 1]));
    } else if a > 0 {
        lemma_pages_before(segments, a - 1, a - 1);
        assert(segment_valid(segments[a - 1]));
    }
}

/// Why a user process was not made.
#[derive(Debug, Clone, Copy, PartialEq, Eq)]
pub enum SpawnError {
    /// A segment of the program cannot be mapped.
    BadSegment,
    /// There are not enough free frames for the heap and the segments.
    OutOfMemory,
    /// The next identity of a process or of a thread is taken.
    IdentityTaken,
    /// The scheduler has as many threads as can be counted.
    TooManyThreads,
}

/// What making a user process asks of the caller: the pages to map for the
/// heap, for each segment and for the stack of the first thread; after that
/// the segments' bytes are copied in.
#[derive(Debug)]
pub struct Loaded {
    pub pid: ProcessId,
    pub thread: ThreadId,
    pub heap: Vec<PageMapping>,
    pub segments: Vec<Vec<PageMapping>>,
    pub stack: UserStack,
}

/// The number of frames that a user process with these segments takes when
/// it is made: those of the heap, of the segments and of the first stack.
pub open spec fn frames_to_load(segments: Seq<Segment>) -> int {
    USER_HEAP_INIT_SIZE / 4096 + pages_before(segments, segments.len() as int) + USER_STACK_PAGES
}

/// The mappings of a segment's pages, one for each of `frames`.
pub open spec fn segment_mappings(segment: Segment, frames: Seq<u64>) -> Seq<PageMapping> {
    Seq::new(
        frames.len(),
        |i: int|
            PageMapping {
                page: (aligned_down(segment.address) + i * PAGE_SIZE) as u64,
                frame: frames[i],
                flags: USER_PAGE_FLAGS,
            },
    )
}

impl Process {
    /// The name of the process.
    pub open spec fn name(&self) -> Seq<char> {
        self.name@
    }

    /// The parts of the process fit together: the signals are this process's,
    /// and the heap is well-formed.
    pub open spec fn wf(&self) -> bool {
        &&& self.signal_manager.owner() == self.id
        &&& self.signal_manager.present().len() == SIGNAL_TYPE_NUM * 8
        &&& self.heap.wf()
    }

    /// A new process with the next identity, the address space `page_table`,
    /// no thread, no signal and no father.
    pub fn new(next_id: &mut u64, name: &str, heap_type: HeapType, page_table: GeneralPageTable) -> (process:
        Self)
        ensures
            process.wf(),
            process.id.0 == *old(next_id),
            *final(next_id) == counter_after(*old(next_id), 1),
            process.name() == name@,
            process.page_table == page_table,
            process.threads@.len() == 0,
            process.heap.kind() == heap_type,
            process.heap.size() == match heap_type {
                HeapType::Kernel => 0usize,
                HeapType::User => crate::memory::user_heap::USER_HEAP_INIT_SIZE,
            },
            process.heap.usable_size() == process.heap.size(),
            process.signal_manager.signals().len() == 0,
            forall|t: int|
                0 <= t < process.signal_manager.present().len()
                    ==> !process.signal_manager.present()[t],
            process.signal_manager.waiting() == 0,
            process.father is None,
    {
        let pid = ProcessId::new(next_id);
        Process {
            id: pid,
            name: name.to_owned(),
            page_table,
            threads: Vec::new(),
            heap: ProcessHeap::new(heap_type),
            signal_manager: SignalManager::new(SIGNAL_TYPE_NUM, pid),
            father: None,
        }
    }

    /// The kernel's own process, of which there is one. It is called
    /// "kernel" and has no user heap.
    pub fn new_kernel_process(next_id: &mut u64, page_table: GeneralPageTable) -> (process: Self)
        ensures
            process.wf(),
            process.id.0 == *old(next_id),
            *final(next_id) == counter_after(*old(next_id), 1),
            process.name() == "kernel"@,
            process.page_table == page_table,
            process.threads@.len() == 0,
            process.heap.kind() is Kernel,
            process.heap.size() == 0,
            process.father is None,
    {
        Self::new(next_id, "kernel", HeapType::Kernel, page_table)
    }

    /// The name of the process.
    pub fn get_name(&self) -> (name: &str)
        ensures
            name@ == self.name(),
    {
        self.name.as_str()
    }

    /// Makes a user process from a program: the process with the next
    /// identity and the address space `page_table`, its heap, the pages of its
    /// segments, and one thread with a stack of its own that will begin from
    /// the register image at `context`. The process is entered in `processes` and the thread is
    /// handed to the scheduler. The result tells the caller what to map.
    /// Nothing is changed unless the process is made.
    pub fn new_user_process(
        next_pid: &mut u64,
        next_tid: &mut u64,
        name: &str,
        page_table: GeneralPageTable,
        segments: &Vec<Segment>,
        kernel_stack_top: u64,
        context: u64,
        allocator: &mut BitmapFrameAllocator,
        scheduler: &mut Scheduler,
        processes: &mut ProcessTable,
    ) -> (loaded: Result<Loaded, SpawnError>)
        requires
            old(allocator).wf(),
            old(scheduler)@.wf(),
            old(processes).wf(),
        ensures
            final(allocator).wf(),
            final(scheduler)@.wf(),
            final(processes).wf(),
            loaded == Err::<Loaded, SpawnError>(SpawnError::BadSegment) <==> !segments_valid(
                segments@,
            ),
            loaded == Err::<Loaded, SpawnError>(SpawnError::OutOfMemory) <==> segments_valid(
                segments@,
            ) && frames_to_load(segments@) > old(allocator).usable(),
            loaded == Err::<Loaded, SpawnError>(SpawnError::IdentityTaken) <==> segments_valid(
                segments@,
            ) && frames_to_load(segments@) <= old(allocator).usable() && (old(scheduler)@.has_thread(ThreadId(*old(next_tid))) || old(processes).has(
                ProcessId(*old(next_pid)),
            )),
            loaded == Err::<Loaded, SpawnError>(SpawnError::TooManyThreads) <==> segments_valid(
                segments@,
            ) && frames_to_load(segments@) <= old(allocator).usable() && !(old(scheduler)@.has_thread(ThreadId(*old(next_tid))) || old(processes).has(
                ProcessId(*old(next_pid)),
            )) && old(scheduler)@.threads.len() >= usize::MAX,
            loaded is Err ==> {
                &&& *final(next_pid) == *old(next_pid)
                &&& *final(next_tid) == *old(next_tid)
                &&& final(allocator).state() == old(allocator).state()
                &&& final(scheduler)@ == old(scheduler)@
                &&& final(processes)@ == old(processes)@
            },
            loaded matches Ok(made) ==> {
                &&& made.pid == ProcessId(*old(next_pid))
                &&& made.thread == ThreadId(*old(next_tid))
                &&& *final(next_pid) == counter_after(*old(next_pid), 1)
                &&& *final(next_tid) == counter_after(*old(next_tid), 1)
                &&& final(allocator).state() == old(allocator).state().after(
                    frames_to_load(segments@) as nat,
                )
                &&& made.stack.end_address == crate::task::thread::USER_STACK_END
                &&& made.stack.mappings@ == stack_mappings(
                    frames_taken(
                        old(allocator).state().after(
                            (frames_to_load(segments@) - USER_STACK_PAGES) as nat,
                        ),
                        USER_STACK_PAGES as nat,
                    ),
                )
                &&& made.heap@ == heap_mappings(
                    0,
                    frames_taken(old(allocator).state(), (USER_HEAP_INIT_SIZE / 4096) as nat),
                )
                &&& made.segments@.len() == segments@.len()
                &&& forall|s: int|
                    0 <= s < segments@.len() ==> (#[trigger] made.segments@[s])@
                        == segment_mappings(
                        segments@[s],
                        frames_taken(
                            old(allocator).state().after(
                                (USER_HEAP_INIT_SIZE / 4096 + pages_before(segments@, s)) as nat,
                            ),
                            segment_pages(segments@[s]) as nat,
                        ),
                    )
                &&& final(scheduler)@ == old(scheduler)@.added(
                    Thread {
                        id: made.thread,
                        process: made.pid,
                        cpu_id: 0,
                        priority: USER_PRIORITY,
                        vruntime: crate::task::thread::INITIAL_VRUNTIME,
                        state: ThreadState::Ready,
                        kernel_stack_top,
                        context,
                    },
                )
                &&& final(processes)@.len() == old(processes)@.len() + 1
                &&& final(processes)@.drop_last() == old(processes)@
                &&& final(processes)@.last().wf()
                &&& final(processes)@.last().id == made.pid
                &&& final(processes)@.last().name() == name@
                &&& final(processes)@.last().page_table == page_table
                &&& final(processes)@.last().threads@ == seq![made.thread]
                &&& final(processes)@.last().heap.kind() is User
                &&& final(processes)@.last().heap.size() == USER_HEAP_INIT_SIZE
                &&& final(processes)@.last().father is None
                &&& final(processes)@.last().signal_manager.signals().len() == 0
                &&& final(processes)@.last().signal_manager.waiting() == 0
            },
    {
        if !ProcessBinary::check(segments) {
            return Err(SpawnError::BadSegment);
        }
        let usable = allocator.usable_frames();
        proof {
            lemma_pages_before(segments@, 0, segments@.len() as int);
        }
        match ProcessBinary::count_pages(segments) {
            Some(total) => {
                if usable < USER_HEAP_INIT_SIZE / 4096 + USER_STACK_PAGES || total > usable
                    - USER_HEAP_INIT_SIZE / 4096 - USER_STACK_PAGES {
                    return Err(SpawnError::OutOfMemory);
                }
            },
            None => {
                return Err(SpawnError::OutOfMemory);
            },
        }
        if scheduler.thread(ThreadId(*next_tid)).is_some() || processes.get_process(
            ProcessId(*next_pid),
        ).is_some() {
            return Err(SpawnError::IdentityTaken);
        }
        if scheduler.thread_count() == usize::MAX {
            return Err(SpawnError::TooManyThreads);
        }
        let ghost v0 = allocator.state();
        let mut process = Self::new(next_pid, name, HeapType::User, page_table);
        let heap = match process.heap.init(allocator) {
            Some(heap) => heap,
            None => unreached(),
        };
        let lists = match ProcessBinary::map_segments(segments, allocator) {
            Some(lists) => lists,
            None => unreached(),
        };
        proof {
            assert forall|s: int| 0 <= s < segments@.len() implies (#[trigger] lists@[s])@
                == segment_mappings(
                segments@[s],
                frames_taken(
                    v0.after((USER_HEAP_INIT_SIZE / 4096 + pages_before(segments@, s)) as nat),
                    segment_pages(segments@[s]) as nat,
                ),
            ) by {
                lemma_pages_before(segments@, 0, s);
                lemma_after_adds(
                    v0,
                    (USER_HEAP_INIT_SIZE / 4096) as nat,
                    pages_before(segments@, s) as nat,
                );
            }
            lemma_after_adds(
                v0,
                (USER_HEAP_INIT_SIZE / 4096) as nat,
                pages_before(segments@, segments@.len() as int) as nat,
            );
            lemma_after_adds(
                v0,
                (USER_HEAP_INIT_SIZE / 4096 + pages_before(
                    segments@,
                    segments@.len() as int,
                )) as nat,
                USER_STACK_PAGES as nat,
            );
        }
        let stack = match UserStack::new(allocator) {
            Some(stack) => stack,
            None => unreached(),
        };
        let thread = Thread::new_user_thread(
            next_tid,
            scheduler,
            &mut process,
            kernel_stack_top,
            context,
        );
        let tid = match thread {
            Some(tid) => tid,
            None => unreached(),
        };
        let pid = process.id;
        assert(process.threads@ =~= seq![tid]);
        let ghost made = process;
        let refused = processes.add_process(process);
        assert(refused is None);
        assert(processes@.drop_last() =~= old(processes)@);
        assert(processes@.last() == made);
        Ok(Loaded { pid, thread: tid, heap, segments: lists, stack })
    }

    /// Registers a signal for the process. If the process waits for a signal
    /// of this type, every thread of it that has not ended is ready when the
    /// call returns, and the process waits no longer.
    pub fn register_signal(&mut self, scheduler: &mut Scheduler, signal_type: usize, signal: Signal)
        requires
            old(self).wf(),
            old(scheduler)@.wf(),
            signal_type != 0,
            signal_type < SIGNAL_TYPE_NUM * 8,
        ensures
            final(self).wf(),
            final(scheduler)@.wf(),
            final(self).id == old(self).id,
            final(self).signal_manager.present() == old(self).signal_manager.present().update(
                signal_type as int,
                true,
            ),
            final(self).signal_manager.signals() == old(self).signal_manager.signals().push(
                signal,
            ),
            final(scheduler)@ == if signal_type == old(self).signal_manager.waiting() {
                old(scheduler)@.woken(old(self).id)
            } else {
                old(scheduler)@
            },
            final(self).signal_manager.waiting() == if signal_type == old(self).signal_manager.waiting() {
                0
            } else {
                old(self).signal_manager.waiting()
            },
            signal_type == old(self).signal_manager.waiting() ==> forall|i: int|
                0 <= i < final(scheduler)@.threads.len() && (#[trigger] old(scheduler)@.threads[i]).process == old(self).id && (old(scheduler)@.threads[i].state
                    is Waiting || old(scheduler)@.threads[i].state is Blocked) ==> final(scheduler)@.threads[i].state is Ready,
    {
        let wake = self.signal_manager.register_signal(signal_type, signal);
        match wake {
            Some(pid) => {
                scheduler.wake_up(pid);
            },
            None => {},
        }
    }

    /// Notes that the process waits for a signal of type `signal_type`. No
    /// thread is held back by that: the caller sets its threads to `Waiting`.
    pub fn register_wait_for(&mut self, signal_type: usize)
        requires
            old(self).wf(),
        ensures
            final(self).wf(),
            final(self).id == old(self).id,
            final(self).signal_manager.waiting() == signal_type,
            final(self).signal_manager.present() == old(self).signal_manager.present(),
            final(self).signal_manager.signals() == old(self).signal_manager.signals(),
    {
        self.signal_manager.register_wait_for(signal_type);
    }

    /// Ends the process: every thread of it is ended, and its heap is
    /// emptied, the frames behind it going back to the allocator. `frames`
    /// holds the physical addresses of the frames that unmapping the heap's
    /// pages gave back. The threads of the kernel's own process do not end.
    pub fn exit(
        &mut self,
        scheduler: &mut Scheduler,
        allocator: &mut BitmapFrameAllocator,
        frames: &Vec<u64>,
    )
        requires
            old(self).wf(),
            old(scheduler)@.wf(),
            old(allocator).wf(),
            forall|i: int|
                0 <= i < frames@.len() ==> (#[trigger] frames@[i]) / FRAME_SIZE < old(allocator).frames().len(),
        ensures
            final(self).wf(),
            final(self).id == old(self).id,
            final(scheduler)@ == if old(self).id != old(scheduler)@.kernel {
                old(scheduler)@.exited(old(self).id)
            } else {
                old(scheduler)@
            },
            final(scheduler)@.wf(),
            final(self).heap.size() == 0,
            final(self).heap.usable_size() == 0,
            final(self).heap.kind() == old(self).heap.kind(),
            final(allocator).wf(),
            final(allocator).frames() == release_all(
                old(allocator).frames(),
                frame_numbers(frames@),
            ),
            final(allocator).hint() == old(allocator).hint(),
    {
        scheduler.exit(self.id);
        self.heap.clear(frames, allocator);
    }
}

/// The position of the first process from `from` on with identity `pid`, or
/// the number of processes if there is none.
pub open spec fn process_position(processes: Seq<Process>, pid: ProcessId, from: int) -> int
    decreases processes.len() - from,
{
    if from < 0 || from >= processes.len() {
        processes.len() as int
    } else if processes[from].id == pid {
        from
    } else {
        process_position(processes, pid, from + 1)
    }
}

/// What `process_position` finds.
pub proof fn lemma_process_position(processes: Seq<Process>, pid: ProcessId, from: int)
    requires
        0 <= from <= processes.len(),
    ensures
        from <= process_position(processes, pid, from) <= processes.len(),
        process_position(processes, pid, from) < processes.len() ==> processes[process_position(
            processes,
            pid,
            from,
        )].id == pid,
        forall|j: int| from <= j < process_position(processes, pid, from) ==> processes[j].id != pid,
    decreases processes.len() - from,
{
    if from < processes.len() && processes[from].id != pid {
        lemma_process_position(processes, pid, from + 1);
    }
}

/// The processes that exist, each under its identity.
pub struct ProcessTable {
    processes: Vec<Process>,
}

impl View for ProcessTable {
    type V = Seq<Process>;

    closed spec fn view(&self) -> Seq<Process> {
        self.processes@
    }
}

impl ProcessTable {
    /// No two processes of the table share an identity, and each is
    /// well-formed.
    pub open spec fn wf(&self) -> bool {
        &&& forall|i: int, j: int| 0 <= i < j < self@.len() ==> self@[i].id != self@[j].id
        &&& forall|i: int| 0 <= i < self@.len() ==> (#[trigger] self@[i]).wf()
    }

    /// Whether a process with identity `pid` is in the table.
    pub open spec fn has(&self, pid: ProcessId) -> bool {
        process_position(self@, pid, 0) < self@.len()
    }

    /// A table without a process.
    pub fn new() -> (table: Self)
        ensures
            table.wf(),
            table@.len() == 0,
    {
        ProcessTable { processes: Vec::new() }
    }

    /// The position of the process with identity `pid`, or the number of
    /// processes.
    fn find(&self, pid: ProcessId) -> (position: usize)
        ensures
            position == process_position(self@, pid, 0),
            position <= self@.len(),
    {
        let n = self.processes.len();
        let mut position: usize = 0;
        while position < n && self.processes[position].id.0 != pid.0
            invariant
                position <= n,
                n == self@.len(),
                process_position(self@, pid, position as int) == process_position(self@, pid, 0),
            decreases n - position,
        {
            position += 1;
        }
        position
    }

    /// The number of processes.
    pub fn len(&self) -> (n: usize)
        ensures
            n == self@.len(),
    {
        self.processes.len()
    }

    /// Puts a process in the table. A process whose identity is taken is
    /// handed back instead.
    pub fn add_process(&mut self, process: Process) -> (refused: Option<Process>)
        requires
            old(self).wf(),
            process.wf(),
        ensures
            final(self).wf(),
            refused is None <==> !old(self).has(process.id),
            refused is None ==> final(self)@ == old(self)@.push(process),
            refused matches Some(back) ==> back == process && final(self)@ == old(self)@,
    {
        let position = self.find(process.id);
        if position < self.processes.len() {
            return Some(process);
        }
        proof {
            lemma_process_position(self@, process.id, 0);
        }
        self.processes.push(process);
        None
    }

    /// The process with identity `pid`.
    pub fn get_process(&self, pid: ProcessId) -> (process: Option<&Process>)
        requires
            self.wf(),
        ensures
            process is Some <==> self.has(pid),
            process matches Some(found) ==> *found == self@[process_position(self@, pid, 0)]
                && found.id == pid && found.wf(),
    {
        let position = self.find(pid);
        proof {
            lemma_process_position(self@, pid, 0);
        }
        if position < self.processes.len() {
            Some(&self.processes[position])
        } else {
            None
        }
    }

    /// Ends the process with identity `pid`: every thread of it is ended, its
    /// heap is emptied, the frames of `frames` going back to the allocator,
    /// and the process leaves the table. The result is the process as it was
    /// left, or `None`, with nothing changed, if there is no such process.
    pub fn exit(
        &mut self,
        pid: ProcessId,
        scheduler: &mut Scheduler,
        allocator: &mut BitmapFrameAllocator,
        frames: &Vec<u64>,
    ) -> (ended: Option<Process>)
        requires
            old(self).wf(),
            old(scheduler)@.wf(),
            old(allocator).wf(),
            forall|i: int|
                0 <= i < frames@.len() ==> (#[trigger] frames@[i]) / FRAME_SIZE < old(allocator).frames().len(),
        ensures
            final(self).wf(),
            final(scheduler)@.wf(),
            final(allocator).wf(),
            ended is Some <==> old(self).has(pid),
            ended is None ==> {
                &&& final(self)@ == old(self)@
                &&& final(scheduler)@ == old(scheduler)@
                &&& final(allocator).state() == old(allocator).state()
            },
            ended matches Some(process) ==> {
                &&& process.id == pid
                &&& process.heap.size() == 0
                &&& !final(self).has(pid)
                &&& final(self)@ == old(self)@.remove(process_position(old(self)@, pid, 0))
                &&& final(scheduler)@ == if pid != old(scheduler)@.kernel {
                    old(scheduler)@.exited(pid)
                } else {
                    old(scheduler)@
                }
                &&& final(allocator).frames() == release_all(
                    old(allocator).frames(),
                    frame_numbers(frames@),
                )
                &&& final(allocator).hint() == old(allocator).hint()
            },
    {
        match self.remove(pid) {
            Some(process) => {
                let mut process = process;
                process.exit(scheduler, allocator, frames);
                Some(process)
            },
            None => None,
        }
    }

    /// Takes the process with identity `pid` out of the table, as when it has
    /// ended, or to work on it before it is put back.
    pub fn remove(&mut self, pid: ProcessId) -> (process: Option<Process>)
        requires
            old(self).wf(),
        ensures
            final(self).wf(),
            process is Some <==> old(self).has(pid),
            process is None ==> final(self)@ == old(self)@,
            process matches Some(found) ==> {
                &&& found == old(self)@[process_position(old(self)@, pid, 0)]
                &&& found.id == pid
                &&& found.wf()
                &&& final(self)@ == old(self)@.remove(process_position(old(self)@, pid, 0))
                &&& !final(self).has(pid)
            },
    {
        let position = self.find(pid);
        proof {
            lemma_process_position(self@, pid, 0);
        }
        if position < self.processes.len() {
            let found = self.processes.remove(position);
            proof {
                let after = self@;
                let before = old(self)@;
                assert forall|i: int, j: int| 0 <= i < j < after.len() implies after[i].id
                    != after[j].id by {
                    let i0 = if i < position { i } else { i + 1 };
                    let j0 = if j < position { j } else { j + 1 };
                    assert(after[i] == before[i0]);
                    assert(after[j] == before[j0]);
                }
                lemma_process_position(after, pid, 0);
                if process_position(after, pid, 0) < after.len() {
                    let k = process_position(after, pid, 0);
                    let k0 = if k < position { k } else { k + 1 };
                    assert(after[k] == before[k0]);
                }
            }
            Some(found)
        } else {
            None
        }
    }
}

/// The work of loading a program.
pub struct ProcessBinary;

impl ProcessBinary {
    /// Whether every segment of a program can be mapped.
    pub fn check(segments: &Vec<Segment>) -> (valid: bool)
        ensures
            valid == forall|s: int| 0 <= s < segments@.len() ==> segment_valid(#[trigger] segments@[s]),
    {
        let n = segments.len();
        let mut s: usize = 0;
        while s < n
            invariant
                s <= n,
                n == segments@.len(),
                forall|k: int| 0 <= k < s ==> segment_valid(#[trigger] segments@[k]),
            decreases n - s,
        {
            let segment = segments[s];
            if segment.size == 0 || segment.size > u64::MAX - segment.address {
                return false;
            }
            let last = segment.address + (segment.size - 1);
            if !check_virtual(segment.address) || !check_virtual(last) {
                return false;
            }
            let first_page = page_containing(segment.address);
            let last_page = page_containing(last);
            if (last_page - first_page) / PAGE_SIZE + 1 > usize::MAX as u64 {
                return false;
            }
            s += 1;
        }
        true
    }

    /// The number of pages that the segments touch together, or `None` if it
    /// is beyond counting.
    pub fn count_pages(segments: &Vec<Segment>) -> (total: Option<usize>)
        requires
            segments_valid(segments@),
        ensures
            total == if pages_before(segments@, segments@.len() as int) <= usize::MAX {
                Some(pages_before(segments@, segments@.len() as int) as usize)
            } else {
                None
            },
    {
        let n = segments.len();
        let mut total: usize = 0;
        let mut s: usize = 0;
        while s < n
            invariant
                s <= n,
                n == segments@.len(),
                segments_valid(segments@),
                total == pages_before(segments@, s as int),
            decreases n - s,
        {
            let segment = segments[s];
            assert(segment_valid(segment));
            let first_page = page_containing(segment.address);
            let last_page = page_containing(segment.address + (segment.size - 1));
            let count = ((last_page - first_page) / PAGE_SIZE + 1) as usize;
            if count > usize::MAX - total {
                proof {
                    lemma_pages_before(segments@, s + 1, n as int);
                }
                return None;
            }
            total = total + count;
            s += 1;
        }
        Some(total)
    }

    /// The pages of every segment of a program, each backed by a newly
    /// allocated frame and to be mapped present, writable and open to user
    /// mode. The frames are taken segment by segment, page by page. `None`,
    /// with nothing allocated, if the frames are not to be had.
    pub fn map_segments(segments: &Vec<Segment>, allocator: &mut BitmapFrameAllocator) -> (mappings: Option<
        Vec<Vec<PageMapping>>,
    >)
        requires
            old(allocator).wf(),
            segments_valid(segments@),
        ensures
            final(allocator).wf(),
            mappings is Some <==> pages_before(segments@, segments@.len() as int) <= old(allocator).usable(),
            mappings is None ==> final(allocator).state() == old(allocator).state(),
            mappings matches Some(lists) ==> {
                &&& lists@.len() == segments@.len()
                &&& final(allocator).state() == old(allocator).state().after(
                    pages_before(segments@, segments@.len() as int) as nat,
                )
                &&& final(allocator).usable() == old(allocator).usable() - pages_before(
                    segments@,
                    segments@.len() as int,
                )
                &&& forall|s: int|
                    0 <= s < segments@.len() ==> (#[trigger] lists@[s])@ == segment_mappings(
                        segments@[s],
                        frames_taken(
                            old(allocator).state().after(pages_before(segments@, s) as nat),
                            segment_pages(segments@[s]) as nat,
                        ),
                    )
            },
    {
        let usable = allocator.usable_frames();
        proof {
            lemma_pages_before(segments@, 0, segments@.len() as int);
        }
        let counted = Self::count_pages(segments);
        match counted {
            Some(total) => {
                if total > usable {
                    return None;
                }
            },
            None => {
                return None;
            },
        }
        let ghost v0 = allocator.state();
        let n = segments.len();
        let mut lists: Vec<Vec<PageMapping>> = Vec::new();
        let mut s: usize = 0;
        proof {
            lemma_pages_before(segments@, 0, n as int);
        }
        while s < n
            invariant
                s <= n,
                n == segments@.len(),
                segments_valid(segments@),
                allocator.wf(),
                old(allocator).wf(),
                v0 == old(allocator).state(),
                pages_before(segments@, n as int) <= old(allocator).usable(),
                0 <= pages_before(segments@, s as int),
                allocator.state() == v0.after(pages_before(segments@, s as int) as nat),
                allocator.usable() == old(allocator).usable() - pages_before(segments@, s as int),
                lists@.len() == s,
                forall|k: int|
                    0 <= k < s ==> (#[trigger] lists@[k])@ == segment_mappings(
                        segments@[k],
                        frames_taken(
                            v0.after(pages_before(segments@, k) as nat),
                            segment_pages(segments@[k]) as nat,
                        ),
                    ),
            decreases n - s,
        {
            let segment = segments[s];
            proof {
                assert(segment_valid(segment));
                lemma_pages_before(segments@, s + 1, n as int);
                lemma_after_adds(
                    v0,
                    pages_before(segments@, s as int) as nat,
                    segment_pages(segment) as nat,
                );
            }
            match Self::map_segment(segment, allocator) {
                Some(list) => {
                    lists.push(list);
                },
                None => unreached(),
            }
            s += 1;
        }
        Some(lists)
    }

    /// The pages of one segment, each backed by a newly allocated frame and
    /// to be mapped present, writable and open to user mode. `None`, with
    /// nothing allocated, if the frames are not to be had.
    pub fn map_segment(segment: Segment, allocator: &mut BitmapFrameAllocator) -> (mappings: Option<
        Vec<PageMapping>,
    >)
        requires
            old(allocator).wf(),
            segment_valid(segment),
        ensures
            final(allocator).wf(),
            mappings is Some <==> segment_pages(segment) <= old(allocator).usable(),
            mappings is None ==> final(allocator).state() == old(allocator).state(),
            mappings matches Some(list) ==> {
                &&& final(allocator).state() == old(allocator).state().after(
                    segment_pages(segment) as nat,
                )
                &&& final(allocator).usable() == old(allocator).usable() - segment_pages(segment)
                &&& list@ == segment_mappings(
                    segment,
                    frames_taken(old(allocator).state(), segment_pages(segment) as nat),
                )
            },
    {
        let first_page = page_containing(segment.address);
        let last_page = page_containing(segment.address + (segment.size - 1));
        let count = ((last_page - first_page) / PAGE_SIZE + 1) as usize;
        match allocator.allocate_many(count) {
            Some(frames) => {
                assert(frames@ =~= frames_taken(old(allocator).state(), count as nat));
                let mut list: Vec<PageMapping> = Vec::new();
                let mut i: usize = 0;
                while i < count
                    invariant
                        i <= count,
                        count == frames@.len(),
                        count == segment_pages(segment),
                        first_page == aligned_down(segment.address),
                        first_page + (count - 1) * PAGE_SIZE == last_page,
                        list@ == segment_mappings(segment, frames@.take(i as int)),
                    decreases count - i,
                {
                    list.push(
                        PageMapping {
                            page: first_page + (i as u64) * PAGE_SIZE,
                            frame: frames[i],
                            flags: user_page_flags(),
                        },
                    );
                    i += 1;
                    assert(list@ =~= segment_mappings(segment, frames@.take(i as int)));
                }
                assert(frames@.take(count as int) =~= frames@);
                Some(list)
            },
            None => None,
        }
    }
}

} // verus!
