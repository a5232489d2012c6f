use kernel::task::{IsrFrame, Scheduler, Task, TaskState, MAX_TASKS};

#[test]
fn idle_task_runs() {
    let t = Task::new_idle(0);
    assert_eq!(t.state, TaskState::Running);
    assert_eq!(t.rsp, 0);
}

#[test]
fn new_task_frame_enters_entry() {
    let (t, f): (Task, IsrFrame) = Task::new(3, 0xFFFF_8000_0010_2000, 0x1_0000);
    assert_eq!(t.id, 3);
    assert_eq!(t.state, TaskState::Ready);
    assert_eq!(t.stack_bottom, 0x1_0000);
    assert_eq!(t.rsp, 0x1_0000 + 8192 - 160);
    assert_eq!(f.rip, 0xFFFF_8000_0010_2000);
    assert_eq!(f.cs, 0x18);
    assert_eq!(f.ss, 0x20);
    assert_eq!(f.rflags, 0x202);
    assert_eq!(f.rsp, 0x1_0000 + 8192);
    assert_eq!(f.rax, 0);
}

#[test]
fn scheduler_round_robin() {
    let mut s = Scheduler::new();
    // nothing happens before init
    assert_eq!(s.schedule_from_isr(0x5000), 0x5000);
    s.init();
    // a single task keeps running
    assert_eq!(s.schedule_from_isr(0x5000), 0x5000);
    let (id1, _) = s.spawn(0x100, 0x10_0000).unwrap();
    let (id2, _) = s.spawn(0x200, 0x20_0000).unwrap();
    assert_eq!((id1, id2), (1, 2));
    let rsp1 = 0x10_0000 + 8192 - 160;
    let rsp2 = 0x20_0000 + 8192 - 160;
    assert_eq!(s.schedule_from_isr(0xAAAA), rsp1);
    assert_eq!(s.schedule_from_isr(0xBBBB), rsp2);
    // back to the idle task, which saved 0xAAAA
    assert_eq!(s.schedule_from_isr(0xCCCC), 0xAAAA);
    assert_eq!(s.schedule_from_isr(0xDDDD), 0xBBBB);
}

#[test]
fn exited_tasks_are_skipped() {
    let mut s = Scheduler::new();
    s.init();
    s.spawn(0x100, 0x10_0000).unwrap();
    s.spawn(0x200, 0x20_0000).unwrap();
    assert_eq!(s.schedule_from_isr(0x1111), 0x10_0000 + 8192 - 160);
    s.exit_current();
    assert_eq!(s.schedule_from_isr(0x2222), 0x20_0000 + 8192 - 160);
    // task 1 exited: back to idle
    assert_eq!(s.schedule_from_isr(0x3333), 0x1111);
    assert_eq!(s.schedule_from_isr(0x4444), 0x3333);
}

#[test]
fn no_ready_task_keeps_current() {
    let mut s = Scheduler::new();
    s.init();
    s.spawn(0x100, 0x10_0000).unwrap();
    assert_eq!(s.schedule_from_isr(0x1111), 0x10_0000 + 8192 - 160);
    s.exit_current();
    // idle is ready, so it is picked
    assert_eq!(s.schedule_from_isr(0x2222), 0x1111);
    s.exit_current();
    // nothing is ready any more
    assert_eq!(s.schedule_from_isr(0x3333), 0x3333);
}

#[test]
fn task_table_fills_up() {
    let mut s = Scheduler::new();
    s.init();
    for i in 1..MAX_TASKS {
        assert_eq!(s.spawn(0x100, 0x10_0000).map(|(id, _)| id), Some(i));
    }
    assert!(s.is_full());
    assert!(s.spawn(0x100, 0x10_0000).is_none());
}
