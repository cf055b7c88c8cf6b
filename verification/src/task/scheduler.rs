//! The scheduler: which thread each CPU runs, and which it runs next.
//!
//! Every CPU calls `schedule` from its timer interrupt. A thread keeps its CPU
//! for as many ticks as its priority says and then gives way to the next ready
//! thread that is bound to the same CPU. Threads are bound to a CPU once, when
//! they are added, and stay there.

use crate::arch::smp::SyncFlags;
use crate::task::process::ProcessId;
use crate::task::thread::{counter_after, Thread, ThreadId, ThreadState};
use std::collections::BTreeMap;
use std::collections::VecDeque;
use vstd::pervasive::unreached;
use vstd::prelude::*;

verus! {

broadcast use vstd::std_specs::btree::group_btree_axioms;

/// Tells the other CPUs that the scheduler exists.
pub fn init(flags: &mut SyncFlags)
    ensures
        *final(flags) == (SyncFlags { scheduler_init: true, ..*old(flags) }),
{
    flags.scheduler_init = true;
}

/// The scheduler as a mathematical value.
pub struct SchedulerView {
    /// The local APIC ids of the CPUs.
    pub cpus: Seq<u32>,
    /// For each CPU, the position in `threads` of the thread that it runs.
    pub current: Seq<usize>,
    /// The ready list: positions in `threads`, the front first.
    pub ready: Seq<usize>,
    /// Every thread that was ever added, in the order of adding. The first
    /// threads are those that the CPUs start in, in the order of the CPUs.
    pub threads: Seq<Thread>,
    /// The kernel's own process, which never ends.
    pub kernel: ProcessId,
}

/// What the trap exit has to do after a tick.
#[derive(Debug, Clone, Copy)]
pub struct Dispatch {
    /// The address of the register image to restore.
    pub context: u64,
    /// The thread that runs now; its floating-point state is to be restored.
    pub thread: ThreadId,
    /// The thread that was interrupted; its floating-point state is to be saved.
    pub previous: ThreadId,
    /// After a switch, the new ring-0 stack pointer for the task state segment.
    pub ring0_rsp: Option<u64>,
}

/// The position of the first CPU from `from` on with local APIC id `lapic_id`,
/// or the number of CPUs if there is none.
pub open spec fn cpu_position(cpus: Seq<u32>, lapic_id: u32, from: int) -> int
    decreases cpus.len() - from,
{
    if from < 0 || from >= cpus.len() {
        cpus.len() as int
    } else if cpus[from] == lapic_id {
        from
    } else {
        cpu_position(cpus, lapic_id, from + 1)
    }
}

/// A thread after one more tick was charged to it and its registers were
/// saved at `context`. The virtual runtime stops at the lowest value it can hold.
pub open spec fn charged(thread: Thread, context: u64) -> Thread {
    Thread {
        context,
        vruntime: if thread.vruntime > i64::MIN {
            (thread.vruntime - 1) as i64
        } else {
            thread.vruntime
        },
        ..thread
    }
}

/// Whether a thread that was just charged keeps its CPU.
pub open spec fn keeps_cpu(thread: Thread) -> bool {
    thread.vruntime > 0 && thread.state.active()
}

/// A list turned so that the entry at `position` comes last.
pub open spec fn rotated(list: Seq<usize>, position: int) -> Seq<usize> {
    list.subrange(position + 1, list.len() as int) + list.subrange(0, position + 1)
}

impl SchedulerView {
    /// Whether a CPU with this local APIC id is known.
    pub open spec fn knows(self, lapic_id: u32) -> bool {
        cpu_position(self.cpus, lapic_id, 0) < self.cpus.len()
    }

    /// The position of the CPU with this local APIC id.
    pub open spec fn slot(self, lapic_id: u32) -> int {
        cpu_position(self.cpus, lapic_id, 0)
    }

    /// Whether the thread at position `c` is what the CPU at position `c` can
    /// always fall back on: a thread of the kernel's process that is bound to
    /// that CPU, runs or could run, and stands in the ready list.
    pub open spec fn idles(self, c: int) -> bool {
        &&& self.threads[c].process == self.kernel
        &&& self.threads[c].cpu_id == self.cpus[c]
        &&& self.threads[c].state.active()
        &&& self.ready.contains(c as usize)
    }

    /// Every CPU has the thread it started in to fall back on.
    pub open spec fn guarded(self) -> bool {
        &&& self.cpus.len() <= self.threads.len() <= usize::MAX
        &&& forall|c: int| 0 <= c < self.cpus.len() ==> #[trigger] self.idles(c)
    }

    /// The invariant of the scheduler: it is consistent, and every CPU has a
    /// thread to fall back on.
    pub open spec fn wf(self) -> bool {
        self.consistent() && self.guarded()
    }

    /// The scheduler is consistent: each CPU occurs once and runs a thread
    /// that is bound to it; the ready list names threads that exist; no two
    /// threads share an identity; every thread is bound to a known CPU; and a
    /// thread that is `Running` is the one that its CPU runs.
    pub open spec fn consistent(self) -> bool {
        &&& self.cpus.len() > 0
        &&& self.current.len() == self.cpus.len()
        &&& forall|a: int, b: int|
            0 <= a < b < self.cpus.len() ==> self.cpus[a] != self.cpus[b]
        &&& forall|c: int|
            0 <= c < self.cpus.len() ==> (#[trigger] self.current[c]) < self.threads.len()
                && self.threads[self.current[c] as int].cpu_id == self.cpus[c]
        &&& forall|r: int| 0 <= r < self.ready.len() ==> (#[trigger] self.ready[r]) < self.threads.len()
        &&& forall|i: int, j: int|
            0 <= i < j < self.threads.len() ==> self.threads[i].id != self.threads[j].id
        &&& forall|i: int|
            0 <= i < self.threads.len() ==> self.knows((#[trigger] self.threads[i]).cpu_id)
        &&& forall|i: int|
            0 <= i < self.threads.len() && (#[trigger] self.threads[i]).state is Running
                ==> self.current[self.slot(self.threads[i].cpu_id)] == i
    }

    /// Whether the thread at position `i` can take over the CPU `lapic_id` from
    /// the thread at position `cur`.
    pub open spec fn eligible(self, i: int, lapic_id: u32, cur: int) -> bool {
        &&& self.threads[i].state is Ready
        &&& self.threads[i].cpu_id == lapic_id
        &&& i != cur
    }

    /// The position in the ready list, from `from` on, of the first thread that
    /// can take over; the length of the list if there is none.
    pub open spec fn pick(self, lapic_id: u32, cur: int, from: int) -> int
        decreases self.ready.len() - from,
    {
        if from < 0 || from >= self.ready.len() {
            self.ready.len() as int
        } else if self.eligible(self.ready[from] as int, lapic_id, cur) {
            from
        } else {
            self.pick(lapic_id, cur, from + 1)
        }
    }

    /// The thread that CPU `lapic_id` runs.
    pub open spec fn running_on(self, lapic_id: u32) -> int {
        self.current[self.slot(lapic_id)] as int
    }

    /// Whether a tick on CPU `lapic_id` would find nothing to run: its thread
    /// has ended and no other is ready for it.
    pub open spec fn starved(self, lapic_id: u32) -> bool {
        let cur = self.running_on(lapic_id);
        self.threads[cur].state is Terminated && self.pick(lapic_id, cur, 0) == self.ready.len()
    }

    /// Whether a tick on CPU `lapic_id` leaves the CPU with its thread.
    pub open spec fn stays(self, lapic_id: u32) -> bool {
        let cur = self.running_on(lapic_id);
        keeps_cpu(charged(self.threads[cur], 0)) || self.pick(lapic_id, cur, 0) == self.ready.len()
    }

    /// The scheduler after a tick on CPU `lapic_id`, with the interrupted
    /// registers saved at `context`.
    pub open spec fn tick(self, lapic_id: u32, context: u64) -> SchedulerView {
        let slot = self.slot(lapic_id);
        let cur = self.running_on(lapic_id);
        let paid = charged(self.threads[cur], context);
        let threads = self.threads.update(cur, paid);
        if self.stays(lapic_id) {
            SchedulerView { threads, ..self }
        } else {
            let position = self.pick(lapic_id, cur, 0);
            let next = self.ready[position];
            let entered = threads.update(
                next as int,
                Thread { state: ThreadState::Running, ..threads[next as int] },
            );
            let left = if paid.state is Running {
                entered.update(
                    cur,
                    Thread { state: ThreadState::Ready, vruntime: paid.priority as i64, ..paid },
                )
            } else {
                entered
            };
            SchedulerView {
                threads: left,
                ready: rotated(self.ready, position),
                current: self.current.update(slot, next),
                ..self
            }
        }
    }

    /// Whether the thread at position `i` counts towards the load of CPU
    /// `lapic_id`: it is bound to it and has not ended.
    pub open spec fn counts(self, i: int, lapic_id: u32) -> bool {
        self.threads[i].cpu_id == lapic_id && !(self.threads[i].state is Terminated)
    }

    /// The number of the first `upto` entries of the ready list that count
    /// towards the load of CPU `lapic_id`.
    pub open spec fn load(self, lapic_id: u32, upto: int) -> nat
        decreases upto,
    {
        if upto <= 0 {
            0
        } else {
            self.load(lapic_id, upto - 1) + if self.counts(self.ready[upto - 1] as int, lapic_id) {
                1nat
            } else {
                0nat
            }
        }
    }

    /// The load of the CPU at position `c`.
    pub open spec fn load_of(self, c: int) -> nat {
        self.load(self.cpus[c], self.ready.len() as int)
    }

    /// The position of the CPU with the lowest load among the first `upto`
    /// CPUs; of several such, the first.
    pub open spec fn least_loaded(self, upto: int) -> int
        decreases upto,
    {
        if upto <= 1 {
            0
        } else {
            let best = self.least_loaded(upto - 1);
            if self.load_of(upto - 1) < self.load_of(best) {
                upto - 1
            } else {
                best
            }
        }
    }

    /// The position of the first thread from `from` on with identity `id`, or
    /// the number of threads if there is none.
    pub open spec fn thread_position(self, id: ThreadId, from: int) -> int
        decreases self.threads.len() - from,
    {
        if from < 0 || from >= self.threads.len() {
            self.threads.len() as int
        } else if self.threads[from].id == id {
            from
        } else {
            self.thread_position(id, from + 1)
        }
    }

    /// Whether a thread with identity `id` was added.
    pub open spec fn has_thread(self, id: ThreadId) -> bool {
        self.thread_position(id, 0) < self.threads.len()
    }

    /// Whether `thread` can be added: it does not claim to run, its identity
    /// is new, and the threads can still be counted.
    pub open spec fn admits(self, thread: Thread) -> bool {
        &&& !(thread.state is Running)
        &&& !self.has_thread(thread.id)
        &&& self.threads.len() < usize::MAX
    }

    /// The CPU that the next thread added is bound to: the one with the lowest load.
    pub open spec fn placement(self) -> u32 {
        self.cpus[self.least_loaded(self.cpus.len() as int)]
    }

    /// The scheduler after `thread` was added: the thread is bound to the CPU
    /// with the lowest load and stands at the front of the ready list.
    pub open spec fn added(self, thread: Thread) -> SchedulerView {
        SchedulerView {
            threads: self.threads.push(Thread { cpu_id: self.placement(), ..thread }),
            ready: seq![self.threads.len() as usize] + self.ready,
            ..self
        }
    }

    /// The ready list without the entries for the thread with identity `id`.
    pub open spec fn ready_without(self, id: ThreadId, upto: int) -> Seq<usize>
        decreases upto,
    {
        if upto <= 0 {
            Seq::empty()
        } else if self.threads[self.ready[upto - 1] as int].id == id {
            self.ready_without(id, upto - 1)
        } else {
            self.ready_without(id, upto - 1).push(self.ready[upto - 1])
        }
    }

    /// The scheduler after every thread of process `pid` that has not ended
    /// was made ready.
    pub open spec fn woken(self, pid: ProcessId) -> SchedulerView {
        SchedulerView {
            threads: Seq::new(
                self.threads.len(),
                |i: int|
                    if self.threads[i].process == pid && !(self.threads[i].state is Terminated) {
                        Thread { state: ThreadState::Ready, ..self.threads[i] }
                    } else {
                        self.threads[i]
                    },
            ),
            ..self
        }
    }

    /// The scheduler after every thread of process `pid` was ended.
    pub open spec fn exited(self, pid: ProcessId) -> SchedulerView {
        SchedulerView {
            threads: Seq::new(
                self.threads.len(),
                |i: int|
                    if self.threads[i].process == pid {
                        Thread { state: ThreadState::Terminated, ..self.threads[i] }
                    } else {
                        self.threads[i]
                    },
            ),
            ..self
        }
    }

    /// Whether the state of the thread with identity `id` may be set to
    /// `state`: the thread exists, is not one that a CPU started in, and has
    /// not ended, and `state` is not `Running`, which only a tick gives.
    pub open spec fn may_set(self, id: ThreadId, state: ThreadState) -> bool {
        &&& self.cpus.len() <= self.thread_position(id, 0) < self.threads.len()
        &&& !(self.threads[self.thread_position(id, 0)].state is Terminated)
        &&& !(state is Running)
    }

    /// Whether the thread with identity `id` is one that a CPU started in.
    pub open spec fn is_idle_thread(self, id: ThreadId) -> bool {
        self.thread_position(id, 0) < self.cpus.len()
    }

    /// The scheduler after the state of the thread with identity `id` was set.
    pub open spec fn with_state(self, id: ThreadId, state: ThreadState) -> SchedulerView {
        let i = self.thread_position(id, 0);
        SchedulerView { threads: self.threads.update(i, Thread { state, ..self.threads[i] }), ..self }
    }

    /// The scheduler after `n` ticks in a row on CPU `lapic_id`; the tick with
    /// number `k`, counted from 0, saves the registers at `contexts[k]`.
    pub open spec fn ticks(self, lapic_id: u32, contexts: Seq<u64>, n: int) -> SchedulerView
        decreases n,
    {
        if n <= 0 {
            self
        } else {
            self.ticks(lapic_id, contexts, n - 1).tick(lapic_id, contexts[n - 1])
        }
    }

    /// What the trap exit is told after a tick on CPU `lapic_id`.
    pub open spec fn dispatch(self, lapic_id: u32, context: u64) -> Dispatch {
        let cur = self.running_on(lapic_id);
        if self.stays(lapic_id) {
            Dispatch {
                context,
                thread: self.threads[cur].id,
                previous: self.threads[cur].id,
                ring0_rsp: None,
            }
        } else {
            let next = self.ready[self.pick(lapic_id, cur, 0)] as int;
            Dispatch {
                context: self.threads[next].context,
                thread: self.threads[next].id,
                previous: self.threads[cur].id,
                ring0_rsp: Some(self.threads[next].kernel_stack_top),
            }
        }
    }
}

/// What `cpu_position` finds.
pub proof fn lemma_cpu_position(cpus: Seq<u32>, lapic_id: u32, from: int)
    requires
        0 <= from <= cpus.len(),
    ensures
        from <= cpu_position(cpus, lapic_id, from) <= cpus.len(),
        cpu_position(cpus, lapic_id, from) < cpus.len() ==> cpus[cpu_position(
            cpus,
            lapic_id,
            from,
        )] == lapic_id,
        forall|j: int| from <= j < cpu_position(cpus, lapic_id, from) ==> cpus[j] != lapic_id,
    decreases cpus.len() - from,
{
    if from < cpus.len() && cpus[from] != lapic_id {
        lemma_cpu_position(cpus, lapic_id, from + 1);
    }
}

/// What `pick` finds.
pub proof fn lemma_pick(view: SchedulerView, lapic_id: u32, cur: int, from: int)
    requires
        0 <= from <= view.ready.len(),
    ensures
        from <= view.pick(lapic_id, cur, from) <= view.ready.len(),
        view.pick(lapic_id, cur, from) < view.ready.len() ==> view.eligible(
            view.ready[view.pick(lapic_id, cur, from)] as int,
            lapic_id,
            cur,
        ),
        forall|r: int|
            from <= r < view.pick(lapic_id, cur, from) ==> !view.eligible(
                view.ready[r] as int,
                lapic_id,
                cur,
            ),
    decreases view.ready.len() - from,
{
    if from < view.ready.len() && !view.eligible(view.ready[from] as int, lapic_id, cur) {
        lemma_pick(view, lapic_id, cur, from + 1);
    }
}

/// In a well-formed scheduler the slot of a CPU's id is the CPU's position.
pub proof fn lemma_slot(view: SchedulerView, c: int)
    requires
        view.consistent(),
        0 <= c < view.cpus.len(),
    ensures
        view.slot(view.cpus[c]) == c,
{
    lemma_cpu_position(view.cpus, view.cpus[c], 0);
}

/// Law: at any time, on any CPU, at most one thread is `Running`.
pub proof fn law_one_running_per_cpu(view: SchedulerView, i: int, j: int)
    requires
        view.consistent(),
        0 <= i < view.threads.len(),
        0 <= j < view.threads.len(),
        view.threads[i].state is Running,
        view.threads[j].state is Running,
        view.threads[i].cpu_id == view.threads[j].cpu_id,
    ensures
        i == j,
{
}

/// A tick keeps the scheduler consistent.
pub proof fn lemma_tick_consistent(view: SchedulerView, lapic_id: u32, context: u64)
    requires
        view.consistent(),
        view.knows(lapic_id),
    ensures
        view.tick(lapic_id, context).consistent(),
{
    let after = view.tick(lapic_id, context);
    let slot = view.slot(lapic_id);
    let cur = view.running_on(lapic_id);
    lemma_cpu_position(view.cpus, lapic_id, 0);
    assert(after.cpus == view.cpus);
    assert forall|id: u32| after.knows(id) == view.knows(id) by {}
    assert forall|id: u32| after.slot(id) == view.slot(id) by {}
    if view.stays(lapic_id) {
        assert(after.consistent());
    } else {
        let position = view.pick(lapic_id, cur, 0);
        lemma_pick(view, lapic_id, cur, 0);
        let next = view.ready[position] as int;
        assert(view.eligible(next, lapic_id, cur));
        assert forall|r: int| 0 <= r < after.ready.len() implies (#[trigger] after.ready[r])
            < after.threads.len() by {
            if r < view.ready.len() - position - 1 {
                assert(after.ready[r] == view.ready[r + position + 1]);
            } else {
                assert(after.ready[r] == view.ready[r - (view.ready.len() - position - 1)]);
            }
        }
        assert forall|i: int|
            0 <= i < after.threads.len() && (#[trigger] after.threads[i]).state is Running implies after.current[after.slot(
            after.threads[i].cpu_id,
        )] == i by {
            let paid = charged(view.threads[cur], context);
            assert(0 <= cur < view.threads.len());
            assert(0 <= next < view.threads.len());
            assert(next != cur);
            if i == next {
                assert(after.threads[i].cpu_id == lapic_id);
                assert(after.current[slot] == next);
            } else if i == cur {
                assert(!(after.threads[cur].state is Running));
            } else {
                assert(after.threads[i] == view.threads[i]);
                assert(view.threads[i].state is Running);
                assert(view.knows(view.threads[i].cpu_id));
                let other = view.slot(view.threads[i].cpu_id);
                lemma_cpu_position(view.cpus, view.threads[i].cpu_id, 0);
                assert(view.current[other] == i);
                assert(other != slot);
                assert(after.current[other] == view.current[other]);
            }
        }
        assert forall|c: int| 0 <= c < after.cpus.len() implies (#[trigger] after.current[c])
            < after.threads.len() && after.threads[after.current[c] as int].cpu_id
            == after.cpus[c] by {
            if c == slot {
            } else {
                assert(after.current[c] == view.current[c]);
            }
        }
        assert(after.consistent());
    }
}

/// While a turn lasts: after `k` ticks, with `k` below the priority, nothing
/// has changed but the running thread's saved registers and its virtual
/// runtime, which has gone down by `k`.
proof fn lemma_turn_lasts(view: SchedulerView, lapic_id: u32, contexts: Seq<u64>, k: int)
    requires
        view.consistent(),
        view.knows(lapic_id),
        view.threads[view.running_on(lapic_id)].state is Running,
        view.threads[view.running_on(lapic_id)].vruntime == view.threads[view.running_on(
            lapic_id,
        )].priority,
        0 <= k < view.threads[view.running_on(lapic_id)].priority,
    ensures
        view.ticks(lapic_id, contexts, k) == (SchedulerView {
            threads: view.threads.update(
                view.running_on(lapic_id),
                Thread {
                    vruntime: (view.threads[view.running_on(lapic_id)].priority - k) as i64,
                    context: if k == 0 {
                        view.threads[view.running_on(lapic_id)].context
                    } else {
                        contexts[k - 1]
                    },
                    ..view.threads[view.running_on(lapic_id)]
                },
            ),
            ..view
        }),
    decreases k,
{
    let cur = view.running_on(lapic_id);
    lemma_cpu_position(view.cpus, lapic_id, 0);
    if k == 0 {
        assert(view.threads.update(cur, view.threads[cur]) =~= view.threads);
    } else {
        lemma_turn_lasts(view, lapic_id, contexts, k - 1);
        let before = view.ticks(lapic_id, contexts, k - 1);
        assert(before.running_on(lapic_id) == cur);
        let paid = charged(before.threads[cur], contexts[k - 1]);
        assert(keeps_cpu(charged(before.threads[cur], 0)));
        assert(before.stays(lapic_id));
        assert(before.threads.update(cur, paid) =~= view.threads.update(cur, paid));
    }
}

/// The first thread that can take over does not depend on the saved
/// registers or the virtual runtime of the thread that runs.
proof fn lemma_pick_same(before: SchedulerView, after: SchedulerView, lapic_id: u32, cur: int, from: int)
    requires
        before.ready == after.ready,
        before.threads.len() == after.threads.len(),
        0 <= cur < before.threads.len(),
        0 <= from <= before.ready.len(),
        forall|r: int| 0 <= r < before.ready.len() ==> (#[trigger] before.ready[r]) < before.threads.len(),
        forall|i: int|
            0 <= i < before.threads.len() && i != cur ==> before.threads[i] == after.threads[i],
    ensures
        before.pick(lapic_id, cur, from) == after.pick(lapic_id, cur, from),
    decreases before.ready.len() - from,
{
    if from < before.ready.len() {
        let i = before.ready[from] as int;
        assert(before.eligible(i, lapic_id, cur) == after.eligible(i, lapic_id, cur));
        if !before.eligible(i, lapic_id, cur) {
            lemma_pick_same(before, after, lapic_id, cur, from + 1);
        }
    }
}

/// Law: a running thread of priority `p` whose virtual runtime is `p` keeps
/// its CPU through the next `p - 1` ticks there, and the tick after those
/// hands the CPU to the first thread of the ready list that is ready for it,
/// if there is one. The thread that leaves is ready again with its virtual
/// runtime back at `p`.
pub proof fn law_turn_length(view: SchedulerView, lapic_id: u32, contexts: Seq<u64>)
    requires
        view.consistent(),
        view.knows(lapic_id),
        view.threads[view.running_on(lapic_id)].state is Running,
        view.threads[view.running_on(lapic_id)].priority >= 1,
        view.threads[view.running_on(lapic_id)].vruntime == view.threads[view.running_on(
            lapic_id,
        )].priority,
        view.pick(lapic_id, view.running_on(lapic_id), 0) < view.ready.len(),
    ensures
        forall|k: int|
            0 <= k < view.threads[view.running_on(lapic_id)].priority ==> (#[trigger] view.ticks(
                lapic_id,
                contexts,
                k,
            )).running_on(lapic_id) == view.running_on(lapic_id),
        ({
            let cur = view.running_on(lapic_id);
            let p = view.threads[cur].priority as int;
            let next = view.ready[view.pick(lapic_id, cur, 0)] as int;
            let after = view.ticks(lapic_id, contexts, p);
            &&& next != cur
            &&& after.running_on(lapic_id) == next
            &&& after.threads[next].state is Running
            &&& after.threads[cur].state is Ready
            &&& after.threads[cur].vruntime == p
        }),
{
    let cur = view.running_on(lapic_id);
    let p = view.threads[cur].priority as int;
    lemma_cpu_position(view.cpus, lapic_id, 0);
    assert forall|k: int| 0 <= k < p implies (#[trigger] view.ticks(
        lapic_id,
        contexts,
        k,
    )).running_on(lapic_id) == cur by {
        lemma_turn_lasts(view, lapic_id, contexts, k);
    }
    lemma_turn_lasts(view, lapic_id, contexts, p - 1);
    let last = view.ticks(lapic_id, contexts, p - 1);
    lemma_pick_same(view, last, lapic_id, cur, 0);
    lemma_pick(view, lapic_id, cur, 0);
    assert(last.running_on(lapic_id) == cur);
    assert(!keeps_cpu(charged(last.threads[cur], 0)));
    assert(!last.stays(lapic_id));
}

/// Law: a thread that has ended stays ended through every tick, on whatever
/// CPU, and is never the thread that a tick hands a CPU to.
pub proof fn law_tick_keeps_terminated(view: SchedulerView, lapic_id: u32, context: u64, i: int)
    requires
        view.consistent(),
        view.knows(lapic_id),
        0 <= i < view.threads.len(),
        view.threads[i].state is Terminated,
    ensures
        view.tick(lapic_id, context).threads[i].state is Terminated,
        !view.stays(lapic_id) ==> view.tick(lapic_id, context).running_on(lapic_id) != i,
{
    let cur = view.running_on(lapic_id);
    lemma_cpu_position(view.cpus, lapic_id, 0);
    if !view.stays(lapic_id) {
        lemma_pick(view, lapic_id, cur, 0);
    }
}

/// Law: a thread that has ended stays ended when its process is woken.
pub proof fn law_wake_keeps_terminated(view: SchedulerView, pid: ProcessId, i: int)
    requires
        0 <= i < view.threads.len(),
        view.threads[i].state is Terminated,
    ensures
        view.woken(pid).threads[i].state is Terminated,
{
}

/// Turning a list does not change what it holds.
pub proof fn lemma_rotated_contains(list: Seq<usize>, position: int, x: usize)
    requires
        0 <= position < list.len(),
    ensures
        rotated(list, position).contains(x) == list.contains(x),
{
    let turned = rotated(list, position);
    let tail = list.len() - position - 1;
    if list.contains(x) {
        let k = choose|k: int| 0 <= k < list.len() && list[k] == x;
        if k > position {
            assert(turned[k - position - 1] == x);
        } else {
            assert(turned[tail + k] == x);
        }
    }
    if turned.contains(x) {
        let k = choose|k: int| 0 <= k < turned.len() && turned[k] == x;
        if k < tail {
            assert(list[k + position + 1] == x);
        } else {
            assert(list[k - tail] == x);
        }
    }
}

/// Law: in a well-formed scheduler no CPU is ever left with nothing to run:
/// when its thread has ended, the thread it started in is ready for it.
pub proof fn law_never_starved(view: SchedulerView, lapic_id: u32)
    requires
        view.wf(),
        view.knows(lapic_id),
    ensures
        !view.starved(lapic_id),
{
    let slot = view.slot(lapic_id);
    let cur = view.running_on(lapic_id);
    lemma_cpu_position(view.cpus, lapic_id, 0);
    assert(view.idles(slot));
    if view.threads[cur].state is Terminated {
        lemma_slot(view, slot);
        assert(slot != cur);
        assert(!(view.threads[slot].state is Running));
        let r = choose|r: int| 0 <= r < view.ready.len() && view.ready[r] == slot as usize;
        assert(view.eligible(view.ready[r] as int, lapic_id, cur));
        lemma_pick(view, lapic_id, cur, 0);
    }
}

/// A tick leaves every CPU its thread to fall back on.
pub proof fn lemma_tick_guarded(view: SchedulerView, lapic_id: u32, context: u64)
    requires
        view.wf(),
        view.knows(lapic_id),
    ensures
        view.tick(lapic_id, context).guarded(),
{
    let after = view.tick(lapic_id, context);
    let cur = view.running_on(lapic_id);
    lemma_cpu_position(view.cpus, lapic_id, 0);
    if !view.stays(lapic_id) {
        lemma_pick(view, lapic_id, cur, 0);
    }
    assert forall|c: int| 0 <= c < after.cpus.len() implies #[trigger] after.idles(c) by {
        assert(view.idles(c));
        if !view.stays(lapic_id) {
            lemma_rotated_contains(view.ready, view.pick(lapic_id, cur, 0), c as usize);
        }
    }
}

/// Law: a tick keeps the scheduler well-formed, so that at most one thread
/// runs on each CPU after it as before, and no CPU is left without a thread.
pub proof fn law_tick_keeps_wf(view: SchedulerView, lapic_id: u32, context: u64)
    requires
        view.wf(),
        view.knows(lapic_id),
    ensures
        view.tick(lapic_id, context).wf(),
{
    lemma_tick_consistent(view, lapic_id, context);
    lemma_tick_guarded(view, lapic_id, context);
}

/// Changing the states of threads leaves every CPU its thread to fall back
/// on as long as those threads stay active.
pub proof fn lemma_states_guarded(before: SchedulerView, after: SchedulerView)
    requires
        before.guarded(),
        after.cpus == before.cpus,
        after.ready == before.ready,
        after.kernel == before.kernel,
        after.threads.len() == before.threads.len(),
        forall|i: int|
            0 <= i < before.threads.len() ==> (#[trigger] after.threads[i]) == (Thread {
                state: after.threads[i].state,
                ..before.threads[i]
            }),
        forall|c: int|
            0 <= c < before.cpus.len() ==> (#[trigger] after.threads[c]).state.active(),
    ensures
        after.guarded(),
{
    assert forall|c: int| 0 <= c < after.cpus.len() implies #[trigger] after.idles(c) by {
        assert(before.idles(c));
        assert(after.threads[c].state.active());
    }
}

/// Law: waking a process keeps the scheduler well-formed.
pub proof fn law_wake_keeps_wf(view: SchedulerView, pid: ProcessId)
    requires
        view.wf(),
    ensures
        view.woken(pid).wf(),
{
    lemma_wake_consistent(view, pid);
    assert forall|c: int| 0 <= c < view.cpus.len() implies (#[trigger] view.woken(
        pid,
    ).threads[c]).state.active() by {
        assert(view.idles(c));
    }
    lemma_states_guarded(view, view.woken(pid));
}

/// Law: ending a process other than the kernel's keeps the scheduler
/// well-formed.
pub proof fn law_exit_keeps_wf(view: SchedulerView, pid: ProcessId)
    requires
        view.wf(),
        pid != view.kernel,
    ensures
        view.exited(pid).wf(),
{
    lemma_exit_consistent(view, pid);
    assert forall|c: int| 0 <= c < view.cpus.len() implies (#[trigger] view.exited(
        pid,
    ).threads[c]).state.active() by {
        assert(view.idles(c));
    }
    lemma_states_guarded(view, view.exited(pid));
}

/// Law: adding a thread that is admitted keeps the scheduler well-formed.
pub proof fn law_add_keeps_wf(view: SchedulerView, thread: Thread)
    requires
        view.wf(),
        view.admits(thread),
    ensures
        view.added(thread).wf(),
{
    lemma_add_consistent(view, thread);
    let after = view.added(thread);
    assert forall|c: int| 0 <= c < after.cpus.len() implies #[trigger] after.idles(c) by {
        assert(view.idles(c));
        let r = choose|r: int| 0 <= r < view.ready.len() && view.ready[r] == c as usize;
        assert(after.ready[r + 1] == c as usize);
    }
}

/// Taking a thread out of the ready list leaves the entries of other threads.
pub proof fn lemma_without_keeps(view: SchedulerView, id: ThreadId, upto: int, r: int)
    requires
        0 <= r < upto <= view.ready.len(),
        view.threads[view.ready[r] as int].id != id,
    ensures
        view.ready_without(id, upto).contains(view.ready[r]),
    decreases upto,
{
    if r == upto - 1 {
        let kept = view.ready_without(id, upto);
        assert(kept[kept.len() - 1] == view.ready[r]);
    } else {
        lemma_without_keeps(view, id, upto - 1, r);
        let before = view.ready_without(id, upto - 1);
        let k = choose|k: int| 0 <= k < before.len() && before[k] == view.ready[r];
        if view.threads[view.ready[upto - 1] as int].id != id {
            assert(view.ready_without(id, upto)[k] == view.ready[r]);
        }
    }
}

/// What `thread_position` finds.
pub proof fn lemma_thread_position(view: SchedulerView, id: ThreadId, from: int)
    requires
        0 <= from <= view.threads.len(),
    ensures
        from <= view.thread_position(id, from) <= view.threads.len(),
        view.thread_position(id, from) < view.threads.len() ==> view.threads[view.thread_position(
            id,
            from,
        )].id == id,
        forall|j: int| from <= j < view.thread_position(id, from) ==> view.threads[j].id != id,
    decreases view.threads.len() - from,
{
    if from < view.threads.len() && view.threads[from].id != id {
        lemma_thread_position(view, id, from + 1);
    }
}

/// What `least_loaded` finds: a CPU that no other undercuts, and that every
/// CPU before it exceeds.
pub proof fn lemma_least_loaded(view: SchedulerView, upto: int)
    requires
        0 < upto <= view.cpus.len(),
    ensures
        0 <= view.least_loaded(upto) < upto,
        forall|c: int|
            0 <= c < upto ==> view.load_of(view.least_loaded(upto)) <= #[trigger] view.load_of(c),
        forall|c: int|
            0 <= c < view.least_loaded(upto) ==> view.load_of(view.least_loaded(upto))
                < #[trigger] view.load_of(c),
    decreases upto,
{
    if upto > 1 {
        lemma_least_loaded(view, upto - 1);
    }
}

/// The positions of a CPU's id do not depend on the threads.
proof fn lemma_same_cpus(before: SchedulerView, after: SchedulerView)
    requires
        before.cpus == after.cpus,
    ensures
        forall|id: u32| before.knows(id) == after.knows(id),
        forall|id: u32| before.slot(id) == after.slot(id),
{
}

/// Changing the states of threads keeps the scheduler consistent as long as
/// no thread is made `Running`.
pub proof fn lemma_states_changed(before: SchedulerView, after: SchedulerView)
    requires
        before.consistent(),
        after.cpus == before.cpus,
        after.current == before.current,
        after.ready == before.ready,
        after.threads.len() == before.threads.len(),
        forall|i: int|
            0 <= i < before.threads.len() ==> (#[trigger] after.threads[i]) == (Thread {
                state: after.threads[i].state,
                ..before.threads[i]
            }),
        forall|i: int|
            0 <= i < before.threads.len() && (#[trigger] after.threads[i]).state is Running
                ==> before.threads[i].state is Running,
    ensures
        after.consistent(),
{
    lemma_same_cpus(before, after);
    assert forall|i: int| 0 <= i < after.threads.len() implies after.knows(
        (#[trigger] after.threads[i]).cpu_id,
    ) by {
        assert(before.knows(before.threads[i].cpu_id));
    }
    assert forall|i: int|
        0 <= i < after.threads.len() && (#[trigger] after.threads[i]).state is Running implies after.current[after.slot(
        after.threads[i].cpu_id,
    )] == i by {
        assert(before.threads[i].state is Running);
    }
    assert forall|c: int| 0 <= c < after.cpus.len() implies (#[trigger] after.current[c])
        < after.threads.len() && after.threads[after.current[c] as int].cpu_id
        == after.cpus[c] by {
        assert(before.current[c] < before.threads.len());
        assert(after.threads[before.current[c] as int].cpu_id == before.threads[before.current[c] as int].cpu_id);
    }
    assert forall|i: int, j: int| 0 <= i < j < after.threads.len() implies after.threads[i].id
        != after.threads[j].id by {
        assert(after.threads[i].id == before.threads[i].id);
        assert(after.threads[j].id == before.threads[j].id);
    }
}

/// Waking a process keeps the scheduler consistent.
pub proof fn lemma_wake_consistent(view: SchedulerView, pid: ProcessId)
    requires
        view.consistent(),
    ensures
        view.woken(pid).consistent(),
{
    lemma_states_changed(view, view.woken(pid));
}

/// Ending a process keeps the scheduler consistent.
pub proof fn lemma_exit_consistent(view: SchedulerView, pid: ProcessId)
    requires
        view.consistent(),
    ensures
        view.exited(pid).consistent(),
{
    lemma_states_changed(view, view.exited(pid));
}

/// Adding a thread that is admitted keeps the scheduler consistent.
pub proof fn lemma_add_consistent(view: SchedulerView, thread: Thread)
    requires
        view.consistent(),
        view.admits(thread),
    ensures
        view.added(thread).consistent(),
{
    let after = view.added(thread);
    lemma_same_cpus(view, after);
    lemma_least_loaded(view, view.cpus.len() as int);
    lemma_thread_position(view, thread.id, 0);
    let chosen = view.least_loaded(view.cpus.len() as int);
    lemma_slot(view, chosen);
    assert forall|i: int| 0 <= i < after.threads.len() implies after.knows(
        (#[trigger] after.threads[i]).cpu_id,
    ) by {
        if i < view.threads.len() {
            assert(view.knows(view.threads[i].cpu_id));
        }
    }
    assert forall|i: int|
        0 <= i < after.threads.len() && (#[trigger] after.threads[i]).state is Running implies after.current[after.slot(
        after.threads[i].cpu_id,
    )] == i by {
        assert(view.threads[i].state is Running);
    }
    assert forall|c: int| 0 <= c < after.cpus.len() implies (#[trigger] after.current[c])
        < after.threads.len() && after.threads[after.current[c] as int].cpu_id
        == after.cpus[c] by {
        assert(view.current[c] < view.threads.len());
    }
    assert forall|r: int| 0 <= r < after.ready.len() implies (#[trigger] after.ready[r])
        < after.threads.len() by {
        if r > 0 {
            assert(after.ready[r] == view.ready[r - 1]);
        }
    }
}

/// The local APIC ids are ordered as numbers are.
proof fn lemma_keys_ordered()
    ensures
        vstd::laws_cmp::obeys_cmp::<u32>(),
{
    broadcast use vstd::laws_cmp::group_laws_cmp;

}

/// For each CPU, in the order of `cpus`, the thread that `running` holds
/// for it; the highest number there is where it holds none, which is the
/// position of no thread.
pub open spec fn current_of(cpus: Seq<u32>, running: Map<u32, usize>) -> Seq<usize> {
    Seq::new(
        cpus.len(),
        |c: int|
            if running.contains_key(cpus[c]) {
                running[cpus[c]]
            } else {
                usize::MAX
            },
    )
}

/// The scheduler.
pub struct Scheduler {
    cpus: Vec<u32>,
    current_threads: BTreeMap<u32, usize>,
    ready_threads: VecDeque<usize>,
    threads: Vec<Thread>,
    kernel: ProcessId,
}

impl View for Scheduler {
    type V = SchedulerView;

    closed spec fn view(&self) -> SchedulerView {
        SchedulerView {
            cpus: self.cpus@,
            current: current_of(self.cpus@, self.current_threads@),
            ready: self.ready_threads@,
            threads: self.threads@,
            kernel: self.kernel,
        }
    }
}

/// The threads that the CPUs start in, one for each of `cpus`, which gives
/// each CPU's local APIC id and the top of its boot stack.
pub open spec fn init_threads(cpus: Seq<(u32, u64)>, start: u64, kernel: ProcessId) -> Seq<Thread> {
    Seq::new(
        cpus.len(),
        |c: int| Thread::init_thread(counter_after(start, c), kernel, cpus[c].0, cpus[c].1),
    )
}

impl Scheduler {
    /// Makes the scheduler for the CPUs of `cpus`, each given by its local APIC
    /// id and the top of its boot stack. Every CPU gets the thread it starts
    /// in, which it runs and which stands in the ready list for later turns.
    pub fn new(cpus: &Vec<(u32, u64)>, next_id: &mut u64, kernel: ProcessId) -> (scheduler: Self)
        requires
            cpus@.len() > 0,
            forall|a: int, b: int| 0 <= a < b < cpus@.len() ==> cpus@[a].0 != cpus@[b].0,
        ensures
            scheduler@.wf(),
            scheduler@.kernel == kernel,
            scheduler@.cpus == Seq::new(cpus@.len(), |c: int| cpus@[c].0),
            scheduler@.threads == init_threads(cpus@, *old(next_id), kernel),
            scheduler@.current == Seq::new(cpus@.len(), |c: int| c as usize),
            scheduler@.ready == Seq::new(cpus@.len(), |c: int| c as usize),
            *final(next_id) == counter_after(*old(next_id), cpus@.len() as int),
    {
        let ghost start = *next_id;
        let n = cpus.len();
        let mut scheduler = Scheduler {
            cpus: Vec::new(),
            current_threads: BTreeMap::new(),
            ready_threads: VecDeque::new(),
            threads: Vec::new(),
            kernel,
        };
        let mut c: usize = 0;
        while c < n
            invariant
                c <= n,
                n == cpus@.len(),
                scheduler.kernel == kernel,
                scheduler.cpus@ == Seq::new(c as nat, |k: int| cpus@[k].0),
                scheduler.threads@ == init_threads(cpus@.take(c as int), start, kernel),
                forall|a: int, b: int| 0 <= a < b < cpus@.len() ==> cpus@[a].0 != cpus@[b].0,
                forall|k: int|
                    0 <= k < c ==> scheduler.current_threads@.contains_key(#[trigger] cpus@[k].0)
                        && scheduler.current_threads@[cpus@[k].0] == k,
                scheduler.ready_threads@ == Seq::new(c as nat, |k: int| k as usize),
                *next_id == counter_after(start, c as int),
            decreases n - c,
        {
            let (lapic_id, stack_top) = cpus[c];
            let thread = Thread::get_init_thread(next_id, kernel, lapic_id, stack_top);
            scheduler.cpus.push(lapic_id);
            scheduler.threads.push(thread);
            proof {
                lemma_keys_ordered();
            }
            scheduler.current_threads.insert(lapic_id, c);
            scheduler.ready_threads.push_back(c);
            c += 1;
            proof {
                assert(scheduler.cpus@ =~= Seq::new(c as nat, |k: int| cpus@[k].0));
                assert(scheduler.threads@ =~= init_threads(cpus@.take(c as int), start, kernel));
                assert(scheduler.ready_threads@ =~= Seq::new(c as nat, |k: int| k as usize));
            }
        }
        proof {
            assert(cpus@.take(n as int) =~= cpus@);
            let view = scheduler@;
            assert(view.current =~= Seq::new(cpus@.len(), |k: int| k as usize)) by {
                assert forall|k: int| 0 <= k < n implies view.current[k] == k as usize by {
                    assert(scheduler.current_threads@.contains_key(cpus@[k].0));
                }
            }
            assert forall|k: int| 0 <= k < view.cpus.len() implies cpu_position(
                view.cpus,
                #[trigger] view.cpus[k],
                0,
            ) == k by {
                lemma_cpu_position(view.cpus, view.cpus[k], 0);
            }
            assert forall|i: int, j: int| 0 <= i < j < view.threads.len() implies view.threads[i].id
                != view.threads[j].id by {
                assert(counter_after(start, i) != counter_after(start, j));
            }
            assert forall|i: int| 0 <= i < view.threads.len() implies view.knows(
                (#[trigger] view.threads[i]).cpu_id,
            ) && view.current[view.slot(view.threads[i].cpu_id)] == i by {
                assert(view.threads[i].cpu_id == view.cpus[i]);
            }
            assert(view.consistent());
            assert forall|k: int| 0 <= k < view.cpus.len() implies #[trigger] view.idles(k) by {
                assert(view.ready[k] == k as usize);
            }
        }
        scheduler
    }

    /// The position of the CPU with local APIC id `lapic_id`, or the number of
    /// CPUs if there is none.
    fn position_of(&self, lapic_id: u32) -> (position: usize)
        ensures
            position == self@.slot(lapic_id),
            position <= self@.cpus.len(),
    {
        let n = self.cpus.len();
        let mut position: usize = 0;
        while position < n && self.cpus[position] != lapic_id
            invariant
                position <= n,
                n == self.cpus@.len(),
                cpu_position(self.cpus@, lapic_id, position as int) == cpu_position(
                    self.cpus@,
                    lapic_id,
                    0,
                ),
            decreases n - position,
        {
            position += 1;
        }
        position
    }

    /// Whether a CPU with local APIC id `lapic_id` is known.
    pub fn knows_cpu(&self, lapic_id: u32) -> (known: bool)
        ensures
            known == self@.knows(lapic_id),
    {
        self.position_of(lapic_id) < self.cpus.len()
    }

    /// The thread that CPU `lapic_id` runs.
    pub fn current_thread(&self, lapic_id: u32) -> (thread: Thread)
        requires
            self@.wf(),
            self@.knows(lapic_id),
        ensures
            thread == self@.threads[self@.running_on(lapic_id)],
    {
        let cur = self.running(lapic_id);
        self.threads[cur]
    }

    /// The position of the thread that CPU `lapic_id` runs.
    fn running(&self, lapic_id: u32) -> (cur: usize)
        requires
            self@.wf(),
            self@.knows(lapic_id),
        ensures
            cur == self@.running_on(lapic_id),
            cur < self@.threads.len(),
            self.current_threads@.contains_key(lapic_id),
            self.current_threads@[lapic_id] == cur,
    {
        proof {
            lemma_keys_ordered();
            lemma_cpu_position(self@.cpus, lapic_id, 0);
            let slot = self@.slot(lapic_id);
            assert(self@.current[slot] < self@.threads.len());
        }
        match self.current_threads.get(&lapic_id) {
            Some(cur) => *cur,
            None => unreached(),
        }
    }

    /// The position of the thread with identity `id`, or the number of
    /// threads if there is none.
    fn find_thread(&self, id: ThreadId) -> (position: usize)
        ensures
            position == self@.thread_position(id, 0),
            position <= self@.threads.len(),
    {
        let n = self.threads.len();
        let mut position: usize = 0;
        while position < n && self.threads[position].id.0 != id.0
            invariant
                position <= n,
                n == self.threads@.len(),
                self@.thread_position(id, position as int) == self@.thread_position(id, 0),
            decreases n - position,
        {
            position += 1;
        }
        position
    }

    /// The number of threads that were ever added.
    pub fn thread_count(&self) -> (n: usize)
        ensures
            n == self@.threads.len(),
    {
        self.threads.len()
    }

    /// The thread with identity `id`, if one was added.
    pub fn thread(&self, id: ThreadId) -> (thread: Option<Thread>)
        ensures
            thread == if self@.has_thread(id) {
                Some(self@.threads[self@.thread_position(id, 0)])
            } else {
                None
            },
    {
        let position = self.find_thread(id);
        if position < self.threads.len() {
            Some(self.threads[position])
        } else {
            None
        }
    }

    /// The load of CPU `lapic_id`: the threads of the ready list that are
    /// bound to it and have not ended.
    fn load_on(&self, lapic_id: u32) -> (load: usize)
        requires
            self@.wf(),
        ensures
            load == self@.load(lapic_id, self@.ready.len() as int),
    {
        let n = self.ready_threads.len();
        let mut load: usize = 0;
        let mut r: usize = 0;
        while r < n
            invariant
                r <= n,
                n == self@.ready.len(),
                self@.wf(),
                load == self@.load(lapic_id, r as int),
                load <= r,
            decreases n - r,
        {
            let thread = self.threads[self.ready_threads[r]];
            if thread.cpu_id == lapic_id && !thread.state.is_terminated() {
                load += 1;
            }
            r += 1;
        }
        load
    }

    /// Adds a thread: binds it to the CPU with the lowest load, the first of
    /// several such, and puts it at the front of the ready list. The result is
    /// that CPU's local APIC id. A thread that claims to run already, or whose
    /// identity is taken, is not added; nor is any once the threads are as many
    /// as can be counted.
    pub fn add(&mut self, thread: Thread) -> (cpu: Option<u32>)
        requires
            old(self)@.wf(),
        ensures
            final(self)@.wf(),
            cpu is Some <==> old(self)@.admits(thread),
            cpu matches Some(lapic_id) ==> lapic_id == old(self)@.placement() && final(self)@
                == old(self)@.added(thread),
            cpu is None ==> final(self)@ == old(self)@,
    {
        if thread.state.is_running() || self.find_thread(thread.id) < self.threads.len()
            || self.threads.len() == usize::MAX {
            return None;
        }
        let n = self.cpus.len();
        let mut best: usize = 0;
        let mut best_load = self.load_on(self.cpus[0]);
        let mut c: usize = 1;
        while c < n
            invariant
                1 <= c <= n,
                n == self@.cpus.len(),
                self@.wf(),
                best == self@.least_loaded(c as int),
                best < c,
                best_load == self@.load_of(best as int),
            decreases n - c,
        {
            let load = self.load_on(self.cpus[c]);
            if load < best_load {
                best = c;
                best_load = load;
            }
            c += 1;
        }
        let lapic_id = self.cpus[best];
        let mut placed = thread;
        placed.cpu_id = lapic_id;
        let position = self.threads.len();
        self.threads.push(placed);
        self.ready_threads.push_front(position);
        proof {
            law_add_keeps_wf(old(self)@, thread);
            assert(self@ =~= old(self)@.added(thread));
        }
        Some(lapic_id)
    }

    /// Takes the thread with identity `id` out of the ready list. The thread
    /// itself stays known. A thread that a CPU started in stays in the list.
    pub fn remove(&mut self, id: ThreadId)
        requires
            old(self)@.wf(),
        ensures
            final(self)@.wf(),
            final(self)@ == (SchedulerView {
                ready: if old(self)@.is_idle_thread(id) {
                    old(self)@.ready
                } else {
                    old(self)@.ready_without(id, old(self)@.ready.len() as int)
                },
                ..old(self)@
            }),
    {
        if self.find_thread(id) < self.cpus.len() {
            return ;
        }
        let n = self.ready_threads.len();
        let mut kept: VecDeque<usize> = VecDeque::new();
        let mut r: usize = 0;
        while r < n
            invariant
                r <= n,
                n == self@.ready.len(),
                self@.wf(),
                self@ == old(self)@,
                kept@ == self@.ready_without(id, r as int),
                forall|k: int| 0 <= k < kept@.len() ==> (#[trigger] kept@[k]) < self@.threads.len(),
            decreases n - r,
        {
            let entry = self.ready_threads[r];
            if self.threads[entry].id.0 != id.0 {
                kept.push_back(entry);
            }
            r += 1;
        }
        self.ready_threads = kept;
        proof {
            let before = old(self)@;
            lemma_same_cpus(before, self@);
            lemma_thread_position(before, id, 0);
            assert forall|c: int| 0 <= c < self@.cpus.len() implies #[trigger] self@.idles(c) by {
                assert(before.idles(c));
                let r = choose|r: int| 0 <= r < before.ready.len() && before.ready[r] == c as usize;
                lemma_without_keeps(before, id, before.ready.len() as int, r);
            }
        }
    }

    /// Makes every thread of process `pid` that has not ended ready.
    pub fn wake_up(&mut self, pid: ProcessId)
        requires
            old(self)@.wf(),
        ensures
            final(self)@.wf(),
            final(self)@ == old(self)@.woken(pid),
    {
        let n = self.threads.len();
        let mut i: usize = 0;
        while i < n
            invariant
                i <= n,
                n == old(self)@.threads.len(),
                self.threads@.len() == n,
                self.cpus == old(self).cpus,
                self.current_threads == old(self).current_threads,
                self.ready_threads == old(self).ready_threads,
                self.kernel == old(self).kernel,
                forall|k: int| 0 <= k < i ==> self.threads@[k] == old(self)@.woken(pid).threads[k],
                forall|k: int| i <= k < n ==> self.threads@[k] == old(self)@.threads[k],
            decreases n - i,
        {
            let mut thread = self.threads[i];
            if thread.process.0 == pid.0 && !thread.state.is_terminated() {
                thread.state = ThreadState::Ready;
                self.threads.set(i, thread);
            }
            i += 1;
        }
        proof {
            law_wake_keeps_wf(old(self)@, pid);
            assert(self@.threads =~= old(self)@.woken(pid).threads);
        }
    }

    /// Ends every thread of process `pid`. A thread that has a CPU keeps it
    /// until the next tick there, and is never entered again after that. The
    /// kernel's own process does not end: for it nothing is done, and the
    /// result is `false`.
    pub fn exit(&mut self, pid: ProcessId) -> (ended: bool)
        requires
            old(self)@.wf(),
        ensures
            final(self)@.wf(),
            ended == (pid != old(self)@.kernel),
            final(self)@ == if ended {
                old(self)@.exited(pid)
            } else {
                old(self)@
            },
    {
        if pid.0 == self.kernel.0 {
            return false;
        }
        let n = self.threads.len();
        let mut i: usize = 0;
        while i < n
            invariant
                i <= n,
                n == old(self)@.threads.len(),
                self.threads@.len() == n,
                self.cpus == old(self).cpus,
                self.current_threads == old(self).current_threads,
                self.ready_threads == old(self).ready_threads,
                self.kernel == old(self).kernel,
                forall|k: int| 0 <= k < i ==> self.threads@[k] == old(self)@.exited(pid).threads[k],
                forall|k: int| i <= k < n ==> self.threads@[k] == old(self)@.threads[k],
            decreases n - i,
        {
            let mut thread = self.threads[i];
            if thread.process.0 == pid.0 {
                thread.state = ThreadState::Terminated;
                self.threads.set(i, thread);
            }
            i += 1;
        }
        proof {
            law_exit_keeps_wf(old(self)@, pid);
            assert(self@.threads =~= old(self)@.exited(pid).threads);
        }
        true
    }

    /// Sets the state of the thread with identity `id`, as a thread does that
    /// blocks or begins to wait. The result says whether that was done: it is
    /// not for a thread that is unknown, has ended or is one that a CPU
    /// started in, and not for the state `Running`.
    pub fn set_state(&mut self, id: ThreadId, state: ThreadState) -> (done: bool)
        requires
            old(self)@.wf(),
        ensures
            final(self)@.wf(),
            done == old(self)@.may_set(id, state),
            done ==> final(self)@ == old(self)@.with_state(id, state),
            !done ==> final(self)@ == old(self)@,
    {
        let position = self.find_thread(id);
        if position >= self.threads.len() || position < self.cpus.len() || state.is_running() {
            return false;
        }
        let mut thread = self.threads[position];
        if thread.state.is_terminated() {
            return false;
        }
        thread.state = state;
        self.threads.set(position, thread);
        proof {
            lemma_thread_position(old(self)@, id, 0);
            lemma_states_changed(old(self)@, self@);
            assert forall|c: int| 0 <= c < self@.cpus.len() implies (#[trigger] self@.threads[c]).state.active() by {
                assert(old(self)@.idles(c));
            }
            lemma_states_guarded(old(self)@, self@);
            assert(self@.threads =~= old(self)@.with_state(id, state).threads);
        }
        true
    }

    /// The position in the ready list of the first thread that can take CPU
    /// `lapic_id` over from the thread at position `cur`.
    fn pick_next(&self, lapic_id: u32, cur: usize) -> (position: usize)
        requires
            self@.wf(),
        ensures
            position == self@.pick(lapic_id, cur as int, 0),
            position <= self@.ready.len(),
    {
        let n = self.ready_threads.len();
        let mut position: usize = 0;
        while position < n
            invariant
                position <= n,
                n == self@.ready.len(),
                self@.wf(),
                self@.pick(lapic_id, cur as int, position as int) == self@.pick(
                    lapic_id,
                    cur as int,
                    0,
                ),
            decreases n - position,
        {
            let candidate = self.ready_threads[position];
            let thread = self.threads[candidate];
            if thread.state.is_ready() && thread.cpu_id == lapic_id && candidate != cur {
                return position;
            }
            position += 1;
        }
        position
    }

    /// Turns the ready list so that the entry at `position` comes last.
    fn rotate_past(&mut self, position: usize)
        requires
            position < old(self)@.ready.len(),
        ensures
            final(self)@ == (SchedulerView {
                ready: rotated(old(self)@.ready, position as int),
                ..old(self)@
            }),
    {
        let ghost list = self.ready_threads@;
        let n = self.ready_threads.len();
        let mut moved: usize = 0;
        while moved <= position
            invariant
                moved <= position + 1,
                n == list.len(),
                position < list.len(),
                self.ready_threads@ == list.subrange(moved as int, list.len() as int)
                    + list.subrange(0, moved as int),
                self.cpus == old(self).cpus,
                self.current_threads == old(self).current_threads,
                self.threads == old(self).threads,
                self.kernel == old(self).kernel,
            decreases position + 1 - moved,
        {
            let front = self.ready_threads.pop_front();
            match front {
                Some(entry) => {
                    self.ready_threads.push_back(entry);
                },
                None => {},
            }
            moved += 1;
            assert(self.ready_threads@ =~= list.subrange(moved as int, list.len() as int)
                + list.subrange(0, moved as int));
        }
        assert(list.subrange(0, 0) =~= Seq::<usize>::empty());
    }

    /// One timer tick on CPU `lapic_id`, whose interrupted registers lie at
    /// `context`. The thread of the CPU is charged one tick. It keeps the CPU
    /// while its virtual runtime is above zero and it is active, or when no
    /// other thread is ready for this CPU, which cannot be once it has ended. Otherwise the first such thread of
    /// the ready list takes over and goes to the back of the list; the thread
    /// that leaves, if it was running, becomes ready with a virtual runtime
    /// equal to its priority.
    pub fn schedule(&mut self, lapic_id: u32, context: u64) -> (next: Dispatch)
        requires
            old(self)@.wf(),
            old(self)@.knows(lapic_id),
        ensures
            final(self)@ == old(self)@.tick(lapic_id, context),
            next == old(self)@.dispatch(lapic_id, context),
            final(self)@.wf(),
    {
        proof {
            law_tick_keeps_wf(self@, lapic_id, context);
            lemma_cpu_position(self@.cpus, lapic_id, 0);
        }
        let cur = self.running(lapic_id);
        let ghost slot = self@.slot(lapic_id);
        let position = self.pick_next(lapic_id, cur);
        let mut paid = self.threads[cur];
        let previous = paid.id;
        paid.context = context;
        if paid.vruntime > i64::MIN {
            paid.vruntime = paid.vruntime - 1;
        }
        self.threads.set(cur, paid);
        if (paid.vruntime > 0 && paid.state.is_active()) || position == self.ready_threads.len() {
            assert(self@ =~= old(self)@.tick(lapic_id, context));
            return Dispatch { context, thread: previous, previous, ring0_rsp: None };
        }
        proof {
            lemma_pick(old(self)@, lapic_id, cur as int, 0);
        }
        let next = self.ready_threads[position];
        let mut entering = self.threads[next];
        entering.state = ThreadState::Running;
        self.threads.set(next, entering);
        if paid.state.is_running() {
            paid.state = ThreadState::Ready;
            paid.vruntime = paid.priority as i64;
            self.threads.set(cur, paid);
        }
        proof {
            lemma_keys_ordered();
        }
        self.current_threads.insert(lapic_id, next);
        proof {
            let cpus = self.cpus@;
            assert forall|c: int| 0 <= c < cpus.len() implies #[trigger] self@.current[c] == old(self)@.current.update(slot, next)[c] by {
                if c != slot {
                    assert(cpus[c] != cpus[slot]);
                }
            }
            assert(self@.current =~= old(self)@.current.update(slot, next));
        }
        self.rotate_past(position);
        assert(self@.threads =~= old(self)@.tick(lapic_id, context).threads);
        assert(self@ =~= old(self)@.tick(lapic_id, context));
        Dispatch {
            context: entering.context,
            thread: entering.id,
            previous,
            ring0_rsp: Some(entering.kernel_stack_top),
        }
    }
}

} // verus!
