use kernel_core::task::process::ProcessId;
use kernel_core::task::scheduler::Scheduler;
use kernel_core::task::thread::{Thread, ThreadId, ThreadState};

const KERNEL: ProcessId = ProcessId(0);

fn one_cpu(next_id: &mut u64) -> Scheduler {
    Scheduler::new(&vec![(0u32, 0x1000u64)], next_id, KERNEL)
}

fn worker(next_id: &mut u64, pid: ProcessId, priority: u32, stack: u64, context: u64) -> Thread {
    let mut thread = Thread::new(next_id, pid, priority, stack);
    thread.vruntime = priority as i64;
    thread.context = context;
    thread
}

#[test]
fn init_thread_runs_at_the_start() {
    let mut next_id = 0;
    let scheduler = Scheduler::new(&vec![(0u32, 0x1000u64), (1, 0x2000), (2, 0x3000), (3, 0x4000)], &mut next_id, KERNEL);
    assert_eq!(next_id, 4);
    for cpu in 0..4u32 {
        let thread = scheduler.current_thread(cpu);
        assert_eq!(thread.id, ThreadId(cpu as u64));
        assert_eq!(thread.cpu_id, cpu);
        assert_eq!(thread.state, ThreadState::Running);
        assert_eq!(thread.priority, 1);
        assert_eq!(thread.vruntime, -1);
    }
    assert!(scheduler.knows_cpu(3));
    assert!(!scheduler.knows_cpu(4));
}

#[test]
fn idle_cpu_keeps_its_init_thread() {
    let mut next_id = 0;
    let mut scheduler = one_cpu(&mut next_id);
    for tick in 0..5u64 {
        let dispatch = scheduler.schedule(0, 0x9000 + tick);
        assert_eq!(dispatch.thread, ThreadId(0));
        assert_eq!(dispatch.previous, ThreadId(0));
        assert_eq!(dispatch.context, 0x9000 + tick);
        assert_eq!(dispatch.ring0_rsp, None);
    }
    assert_eq!(scheduler.current_thread(0).vruntime, -6);
    assert_eq!(scheduler.current_thread(0).context, 0x9004);
}

#[test]
fn two_thread_fairness() {
    let mut next_id = 0;
    let mut scheduler = one_cpu(&mut next_id);
    let t2 = worker(&mut next_id, KERNEL, 10, 0x20000, 0x2ff00);
    let t1 = worker(&mut next_id, KERNEL, 10, 0x10000, 0x1ff00);
    let (id1, id2) = (t1.id, t2.id);
    assert_eq!(scheduler.add(t2), Some(0));
    assert_eq!(scheduler.add(t1), Some(0));
    let mut ran = Vec::new();
    for tick in 0..21u64 {
        let dispatch = scheduler.schedule(0, 0x5000 + tick);
        ran.push(dispatch.thread);
    }
    let mut expected = Vec::new();
    for _ in 0..10 {
        expected.push(id1);
    }
    for _ in 0..10 {
        expected.push(id2);
    }
    expected.push(ThreadId(0));
    assert_eq!(ran, expected);
}

#[test]
fn switch_reports_stack_and_context() {
    let mut next_id = 0;
    let mut scheduler = one_cpu(&mut next_id);
    let t1 = worker(&mut next_id, KERNEL, 10, 0x10000, 0x1ff00);
    let id1 = t1.id;
    scheduler.add(t1);
    let dispatch = scheduler.schedule(0, 0x7000);
    assert_eq!(dispatch.thread, id1);
    assert_eq!(dispatch.previous, ThreadId(0));
    assert_eq!(dispatch.context, 0x1ff00);
    assert_eq!(dispatch.ring0_rsp, Some(0x10000));
    let init = scheduler.thread(ThreadId(0)).unwrap();
    assert_eq!(init.state, ThreadState::Ready);
    assert_eq!(init.vruntime, 1);
    assert_eq!(init.context, 0x7000);
    assert_eq!(scheduler.current_thread(0).state, ThreadState::Running);
}

#[test]
fn turn_lasts_as_many_ticks_as_the_priority() {
    for priority in [1u32, 2, 7, 20] {
        let mut next_id = 0;
        let mut scheduler = one_cpu(&mut next_id);
        let t1 = worker(&mut next_id, KERNEL, priority, 0, 0);
        let id1 = t1.id;
        scheduler.add(t1);
        assert_eq!(scheduler.schedule(0, 0).thread, id1);
        for _ in 1..priority {
            assert_eq!(scheduler.schedule(0, 0).thread, id1);
        }
        assert_eq!(scheduler.schedule(0, 0).thread, ThreadId(0));
    }
}

#[test]
fn add_balances_over_cpus() {
    let mut next_id = 0;
    let mut scheduler = Scheduler::new(&vec![(0u32, 0u64), (1, 0), (2, 0)], &mut next_id, KERNEL);
    let mut placed = Vec::new();
    for _ in 0..7 {
        let thread = Thread::new(&mut next_id, ProcessId(1), 20, 0);
        placed.push(scheduler.add(thread).unwrap());
    }
    assert_eq!(placed, vec![0, 1, 2, 0, 1, 2, 0]);
}

#[test]
fn add_refuses_known_identity_and_running_thread() {
    let mut next_id = 0;
    let mut scheduler = one_cpu(&mut next_id);
    let thread = Thread::new(&mut next_id, ProcessId(1), 20, 0);
    assert_eq!(scheduler.add(thread), Some(0));
    assert_eq!(scheduler.add(thread), None);
    let mut running = Thread::new(&mut next_id, ProcessId(1), 20, 0);
    running.state = ThreadState::Running;
    assert_eq!(scheduler.add(running), None);
}

#[test]
fn one_running_thread_for_each_cpu() {
    let mut next_id = 0;
    let mut scheduler = Scheduler::new(&vec![(0u32, 0u64), (1, 0)], &mut next_id, KERNEL);
    for _ in 0..6 {
        let thread = worker(&mut next_id, ProcessId(1), 3, 0, 0);
        scheduler.add(thread);
    }
    for tick in 0..40u64 {
        scheduler.schedule((tick % 2) as u32, tick);
        if tick == 13 {
            scheduler.wake_up(ProcessId(1));
        }
        for cpu in 0..2u32 {
            let mut running = 0;
            for id in 0..next_id {
                let thread = scheduler.thread(ThreadId(id)).unwrap();
                if thread.cpu_id == cpu && thread.state == ThreadState::Running {
                    running += 1;
                }
            }
            assert!(running <= 1);
        }
    }
}

#[test]
fn exit_ends_every_thread_of_the_process() {
    let mut next_id = 0;
    let mut scheduler = one_cpu(&mut next_id);
    let a = worker(&mut next_id, ProcessId(1), 5, 0, 0);
    let b = worker(&mut next_id, ProcessId(1), 5, 0, 0);
    let c = worker(&mut next_id, ProcessId(2), 5, 0, 0);
    let (ida, idb, idc) = (a.id, b.id, c.id);
    scheduler.add(c);
    scheduler.add(b);
    scheduler.add(a);
    scheduler.schedule(0, 0);
    assert_eq!(scheduler.thread(ida).unwrap().state, ThreadState::Running);
    assert!(scheduler.exit(ProcessId(1)));
    assert_eq!(scheduler.thread(ida).unwrap().state, ThreadState::Terminated);
    assert_eq!(scheduler.thread(idb).unwrap().state, ThreadState::Terminated);
    assert_eq!(scheduler.thread(idc).unwrap().state, ThreadState::Ready);
    for _ in 0..30 {
        let dispatch = scheduler.schedule(0, 0);
        assert!(dispatch.thread != ida && dispatch.thread != idb);
    }
    scheduler.wake_up(ProcessId(1));
    assert_eq!(scheduler.thread(ida).unwrap().state, ThreadState::Terminated);
}

#[test]
fn no_cpu_is_left_without_a_thread() {
    let mut next_id = 0;
    let mut scheduler = Scheduler::new(&vec![(0u32, 0u64), (1, 0)], &mut next_id, KERNEL);
    let workers: Vec<ThreadId> = (0..4)
        .map(|_| {
            let thread = worker(&mut next_id, KERNEL, 2, 0, 0);
            scheduler.add(thread);
            thread.id
        })
        .collect();
    assert!(!scheduler.exit(KERNEL));
    for id in workers.iter() {
        assert_eq!(scheduler.thread(*id).unwrap().state, ThreadState::Ready);
    }
    for init in [ThreadId(0), ThreadId(1)] {
        assert!(!scheduler.set_state(init, ThreadState::Waiting));
        assert!(!scheduler.set_state(init, ThreadState::Blocked));
        assert!(!scheduler.set_state(init, ThreadState::Terminated));
        scheduler.remove(init);
    }
    for id in workers.iter() {
        assert!(scheduler.set_state(*id, ThreadState::Terminated));
        assert!(!scheduler.set_state(*id, ThreadState::Ready));
    }
    for tick in 0..10u32 {
        let cpu = tick % 2;
        assert_eq!(scheduler.schedule(cpu, 0).thread, ThreadId(cpu as u64));
    }
    assert_eq!(scheduler.thread_count(), 6);
}

#[test]
fn waiting_thread_is_passed_over_until_woken() {
    let mut next_id = 0;
    let mut scheduler = one_cpu(&mut next_id);
    let a = worker(&mut next_id, ProcessId(1), 5, 0, 0);
    let ida = a.id;
    scheduler.add(a);
    assert!(scheduler.set_state(ida, ThreadState::Waiting));
    assert!(!scheduler.set_state(ida, ThreadState::Running));
    assert!(!scheduler.set_state(ThreadId(99), ThreadState::Waiting));
    for _ in 0..5 {
        assert_eq!(scheduler.schedule(0, 0).thread, ThreadId(0));
    }
    scheduler.wake_up(ProcessId(1));
    assert_eq!(scheduler.thread(ida).unwrap().state, ThreadState::Ready);
    assert_eq!(scheduler.schedule(0, 0).thread, ida);
    assert_eq!(scheduler.thread(ida).unwrap().state, ThreadState::Running);
}

#[test]
fn remove_takes_the_thread_out_of_the_ready_list() {
    let mut next_id = 0;
    let mut scheduler = one_cpu(&mut next_id);
    let a = worker(&mut next_id, ProcessId(1), 5, 0, 0);
    let ida = a.id;
    scheduler.add(a);
    scheduler.remove(ida);
    for _ in 0..5 {
        assert_eq!(scheduler.schedule(0, 0).thread, ThreadId(0));
    }
    assert_eq!(scheduler.thread(ida).unwrap().state, ThreadState::Ready);
}

#[test]
fn thread_state_is_active() {
    assert!(ThreadState::Running.is_active());
    assert!(ThreadState::Ready.is_active());
    assert!(!ThreadState::Blocked.is_active());
    assert!(!ThreadState::Waiting.is_active());
    assert!(!ThreadState::Terminated.is_active());
}

#[test]
fn identities_rise_and_turn_round() {
    let mut next = 5u64;
    assert_eq!(ThreadId::new(&mut next), ThreadId(5));
    assert_eq!(ThreadId::new(&mut next), ThreadId(6));
    assert_eq!(ProcessId::new(&mut next), ProcessId(7));
    let mut last = u64::MAX;
    assert_eq!(ThreadId::new(&mut last), ThreadId(u64::MAX));
    assert_eq!(last, 0);
}
