//! Threads as the scheduler sees them.

use crate::memory::address::{page_containing, user_page_flags, PAGE_SIZE, USER_PAGE_FLAGS};
use crate::memory::frame::BitmapFrameAllocator;
use crate::memory::user_heap::{frames_taken, PageMapping};
use crate::task::process::{Process, ProcessId};
use crate::task::scheduler::Scheduler;
use vstd::prelude::*;

verus! {

/// The priority of a thread that runs kernel code.
pub const KERNEL_PRIORITY: u32 = 10;

/// The priority of a thread that runs user code.
pub const USER_PRIORITY: u32 = 20;

/// The priority of the thread that a CPU starts in.
pub const INIT_PRIORITY: u32 = 1;

/// The virtual runtime that a new thread starts with.
pub const INITIAL_VRUNTIME: i64 = -1;

/// The identity of a thread. Identities are handed out in rising order.
#[derive(Debug, Clone, Copy, PartialEq, Eq, PartialOrd, Ord)]
pub struct ThreadId(pub u64);

impl ThreadId {
    /// Takes the next identity from the counter `next` and moves the counter on.
    pub fn new(next: &mut u64) -> (id: Self)
        ensures
            id.0 == *old(next),
            *final(next) == counter_after(*old(next), 1),
    {
        let id = ThreadId(*next);
        *next = if *next == u64::MAX {
            0
        } else {
            *next + 1
        };
        id
    }
}

/// The address just above the stack of a user thread: 18 TiB, where the
/// space for the program begins.
pub const USER_STACK_END: u64 = 0x1200_0000_0000;

/// The number of pages of a user thread's stack.
pub const USER_STACK_PAGES: usize = 16;

/// The mappings of the pages of a user stack, lowest first, one for each of
/// `frames`.
pub open spec fn stack_mappings(frames: Seq<u64>) -> Seq<PageMapping> {
    Seq::new(
        frames.len(),
        |i: int|
            PageMapping {
                page: (USER_STACK_END - (USER_STACK_PAGES - i) * PAGE_SIZE) as u64,
                frame: frames[i],
                flags: USER_PAGE_FLAGS,
            },
    )
}

/// The stack that a user thread runs on in user mode.
#[derive(Debug)]
pub struct UserStack {
    /// The address just above the stack, where the thread's stack pointer begins.
    pub end_address: u64,
    /// The pages of the stack, to be mapped writable and open to user mode.
    pub mappings: Vec<PageMapping>,
}

impl UserStack {
    /// A stack for a user thread: `USER_STACK_PAGES` pages below
    /// `USER_STACK_END`, each backed by a newly allocated frame. `None`, with
    /// nothing allocated, if the frames are not to be had.
    pub fn new(allocator: &mut BitmapFrameAllocator) -> (stack: Option<Self>)
        requires
            old(allocator).wf(),
        ensures
            final(allocator).wf(),
            stack is Some <==> USER_STACK_PAGES <= old(allocator).usable(),
            stack is None ==> final(allocator).state() == old(allocator).state(),
            stack matches Some(made) ==> {
                &&& made.end_address == USER_STACK_END
                &&& made.mappings@ == stack_mappings(
                    frames_taken(old(allocator).state(), USER_STACK_PAGES as nat),
                )
                &&& final(allocator).state() == old(allocator).state().after(
                    USER_STACK_PAGES as nat,
                )
                &&& final(allocator).usable() == old(allocator).usable() - USER_STACK_PAGES
            },
    {
        match allocator.allocate_many(USER_STACK_PAGES) {
            Some(frames) => {
                assert(frames@ =~= frames_taken(old(allocator).state(), USER_STACK_PAGES as nat));
                let mut mappings: Vec<PageMapping> = Vec::new();
                let mut i: usize = 0;
                while i < USER_STACK_PAGES
                    invariant
                        i <= USER_STACK_PAGES,
                        frames@.len() == USER_STACK_PAGES,
                        mappings@ == stack_mappings(frames@).take(i as int),
                    decreases USER_STACK_PAGES - i,
                {
                    let address = USER_STACK_END - ((USER_STACK_PAGES - i) as u64) * PAGE_SIZE;
                    let page = page_containing(address);
                    assert(page == address);
                    mappings.push(PageMapping { page, frame: frames[i], flags: user_page_flags() });
                    i += 1;
                    assert(mappings@ =~= stack_mappings(frames@).take(i as int));
                }
                assert(stack_mappings(frames@).take(USER_STACK_PAGES as int) =~= stack_mappings(
                    frames@,
                ));
                Some(UserStack { end_address: USER_STACK_END, mappings })
            },
            None => None,
        }
    }
}

/// The counter value that follows `start` after `steps` identities were
/// taken; the counter turns round after the highest value.
pub open spec fn counter_after(start: u64, steps: int) -> u64 {
    ((start + steps) % 0x1_0000_0000_0000_0000) as u64
}

/// What a thread is doing.
#[derive(Debug, Copy, Clone, PartialEq, Eq)]
pub enum ThreadState {
    /// It has a CPU.
    Running,
    /// It could run.
    Ready,
    /// It is held back.
    Blocked,
    /// It waits for a signal.
    Waiting,
    /// It has ended and never runs again.
    Terminated,
}

impl ThreadState {
    /// Whether the thread runs or could run.
    pub open spec fn active(self) -> bool {
        self is Running || self is Ready
    }

    /// Whether the thread has a CPU.
    pub fn is_running(&self) -> (running: bool)
        ensures
            running == (*self is Running),
    {
        match self {
            ThreadState::Running => true,
            _ => false,
        }
    }

    /// Whether the thread could run.
    pub fn is_ready(&self) -> (ready: bool)
        ensures
            ready == (*self is Ready),
    {
        match self {
            ThreadState::Ready => true,
            _ => false,
        }
    }

    /// Whether the thread has ended.
    pub fn is_terminated(&self) -> (ended: bool)
        ensures
            ended == (*self is Terminated),
    {
        match self {
            ThreadState::Terminated => true,
            _ => false,
        }
    }

    /// Whether the thread runs or could run.
    pub fn is_active(&self) -> (active: bool)
        ensures
            active == self.active(),
    {
        match self {
            ThreadState::Running | ThreadState::Ready => true,
            _ => false,
        }
    }
}

/// A thread: who it is, where it runs, how much of its share is left, and
/// where its saved registers and its kernel stack are.
#[derive(Debug, Clone, Copy)]
pub struct Thread {
    pub id: ThreadId,
    /// The process that the thread belongs to.
    pub process: ProcessId,
    /// The local APIC id of the CPU that the thread is bound to.
    pub cpu_id: u32,
    /// The number of ticks the thread gets in a row; a lower one runs less.
    pub priority: u32,
    /// The ticks left of the current turn.
    pub vruntime: i64,
    pub state: ThreadState,
    /// The address just above the thread's kernel stack.
    pub kernel_stack_top: u64,
    /// The address of the register image saved at the last trap.
    pub context: u64,
}

impl Thread {
    /// The thread that a CPU starts in, as a value: it belongs to process
    /// `kernel`, is bound to CPU `lapic_id` and has that CPU already.
    pub open spec fn init_thread(id: u64, kernel: ProcessId, lapic_id: u32, stack_top: u64) -> Thread {
        Thread {
            id: ThreadId(id),
            process: kernel,
            cpu_id: lapic_id,
            priority: INIT_PRIORITY,
            vruntime: INITIAL_VRUNTIME,
            state: ThreadState::Running,
            kernel_stack_top: stack_top,
            context: 0,
        }
    }

    /// Makes the thread that CPU `lapic_id` starts in. Its first saved
    /// registers are those of the idle kernel code that the first tick interrupts.
    pub fn get_init_thread(next_id: &mut u64, kernel: ProcessId, lapic_id: u32, stack_top: u64) -> (thread:
        Self)
        ensures
            thread == Self::init_thread(*old(next_id), kernel, lapic_id, stack_top),
            *final(next_id) == counter_after(*old(next_id), 1),
    {
        let mut thread = Thread::new(next_id, kernel, INIT_PRIORITY, stack_top);
        thread.cpu_id = lapic_id;
        thread.state = ThreadState::Running;
        thread
    }

    /// Makes a thread of `process` with priority `priority` that will begin
    /// from the register image at `context`, hands it to the scheduler, which
    /// binds it to a CPU, and enters it in the process's list of threads. The
    /// result is the thread's identity, or `None` if the scheduler knows a
    /// thread of that identity already, in which case nothing changes but the
    /// counter.
    pub fn spawn(
        next_id: &mut u64,
        scheduler: &mut Scheduler,
        process: &mut Process,
        priority: u32,
        kernel_stack_top: u64,
        context: u64,
    ) -> (id: Option<ThreadId>)
        requires
            old(scheduler)@.wf(),
        ensures
            final(scheduler)@.wf(),
            *final(next_id) == counter_after(*old(next_id), 1),
            id is Some <==> !old(scheduler)@.has_thread(ThreadId(*old(next_id))) && old(scheduler)@.threads.len() < usize::MAX,
            id is None ==> final(scheduler)@ == old(scheduler)@ && *final(process) == *old(process),
            id matches Some(made) ==> {
                &&& made == ThreadId(*old(next_id))
                &&& final(scheduler)@ == old(scheduler)@.added(
                    Thread {
                        id: made,
                        process: old(process).id,
                        cpu_id: 0,
                        priority,
                        vruntime: INITIAL_VRUNTIME,
                        state: ThreadState::Ready,
                        kernel_stack_top,
                        context,
                    },
                )
                &&& final(process).threads@ == old(process).threads@.push(made)
                &&& final(process).id == old(process).id
                &&& final(process).page_table == old(process).page_table
                &&& final(process).heap == old(process).heap
                &&& final(process).signal_manager == old(process).signal_manager
                &&& final(process).father == old(process).father
                &&& final(process).name == old(process).name
            },
    {
        let mut thread = Thread::new(next_id, process.id, priority, kernel_stack_top);
        thread.context = context;
        match scheduler.add(thread) {
            Some(_) => {
                process.threads.push(thread.id);
                Some(thread.id)
            },
            None => None,
        }
    }

    /// Makes a thread of the kernel's process; see `spawn`.
    pub fn new_kernel_thread(
        next_id: &mut u64,
        scheduler: &mut Scheduler,
        kernel: &mut Process,
        kernel_stack_top: u64,
        context: u64,
    ) -> (id: Option<ThreadId>)
        requires
            old(scheduler)@.wf(),
        ensures
            final(scheduler)@.wf(),
            *final(next_id) == counter_after(*old(next_id), 1),
            id is Some <==> !old(scheduler)@.has_thread(ThreadId(*old(next_id))) && old(scheduler)@.threads.len() < usize::MAX,
            id is None ==> final(scheduler)@ == old(scheduler)@ && *final(kernel) == *old(kernel),
            id matches Some(made) ==> {
                &&& made == ThreadId(*old(next_id))
                &&& final(scheduler)@ == old(scheduler)@.added(
                    Thread {
                        id: made,
                        process: old(kernel).id,
                        cpu_id: 0,
                        priority: KERNEL_PRIORITY,
                        vruntime: INITIAL_VRUNTIME,
                        state: ThreadState::Ready,
                        kernel_stack_top,
                        context,
                    },
                )
                &&& final(kernel).threads@ == old(kernel).threads@.push(made)
                &&& final(kernel).id == old(kernel).id
                &&& final(kernel).page_table == old(kernel).page_table
                &&& final(kernel).heap == old(kernel).heap
                &&& final(kernel).signal_manager == old(kernel).signal_manager
                &&& final(kernel).father == old(kernel).father
                &&& final(kernel).name == old(kernel).name
            },
    {
        Self::spawn(next_id, scheduler, kernel, KERNEL_PRIORITY, kernel_stack_top, context)
    }

    /// Makes a thread of a user process; see `spawn`.
    pub fn new_user_thread(
        next_id: &mut u64,
        scheduler: &mut Scheduler,
        process: &mut Process,
        kernel_stack_top: u64,
        context: u64,
    ) -> (id: Option<ThreadId>)
        requires
            old(scheduler)@.wf(),
        ensures
            final(scheduler)@.wf(),
            *final(next_id) == counter_after(*old(next_id), 1),
            id is Some <==> !old(scheduler)@.has_thread(ThreadId(*old(next_id))) && old(scheduler)@.threads.len() < usize::MAX,
            id is None ==> final(scheduler)@ == old(scheduler)@ && *final(process) == *old(process),
            id matches Some(made) ==> {
                &&& made == ThreadId(*old(next_id))
                &&& final(scheduler)@ == old(scheduler)@.added(
                    Thread {
                        id: made,
                        process: old(process).id,
                        cpu_id: 0,
                        priority: USER_PRIORITY,
                        vruntime: INITIAL_VRUNTIME,
                        state: ThreadState::Ready,
                        kernel_stack_top,
                        context,
                    },
                )
                &&& final(process).threads@ == old(process).threads@.push(made)
                &&& final(process).id == old(process).id
                &&& final(process).page_table == old(process).page_table
                &&& final(process).heap == old(process).heap
                &&& final(process).signal_manager == old(process).signal_manager
                &&& final(process).father == old(process).father
                &&& final(process).name == old(process).name
            },
    {
        Self::spawn(next_id, scheduler, process, USER_PRIORITY, kernel_stack_top, context)
    }

    /// A new thread of `process`: ready, bound to no CPU in particular yet,
    /// with the initial virtual runtime and no saved registers.
    pub fn new(next_id: &mut u64, process: ProcessId, priority: u32, kernel_stack_top: u64) -> (thread:
        Self)
        ensures
            thread.id.0 == *old(next_id),
            *final(next_id) == counter_after(*old(next_id), 1),
            thread.process == process,
            thread.cpu_id == 0,
            thread.priority == priority,
            thread.vruntime == INITIAL_VRUNTIME,
            thread.state == ThreadState::Ready,
            thread.kernel_stack_top == kernel_stack_top,
            thread.context == 0,
    {
        Thread {
            id: ThreadId::new(next_id),
            process,
            cpu_id: 0,
            priority,
            vruntime: INITIAL_VRUNTIME,
            state: ThreadState::Ready,
            kernel_stack_top,
            context: 0,
        }
    }
}

} // verus!
