//! Kernel tasks and the round-robin scheduler driven by the timer interrupt.
use vstd::prelude::*;

verus! {

/// Most tasks the scheduler holds, the idle task included.
pub const MAX_TASKS: usize = 64;
/// Bytes of stack given to each spawned task.
pub const TASK_STACK_SIZE: usize = 8192;
/// Bytes of the register frame the timer interrupt leaves on a stack.
pub const ISR_FRAME_SIZE: u64 = 160;
/// Kernel code segment selector.
pub const KERNEL_CS: u64 = 0x18;
/// Kernel data segment selector.
pub const KERNEL_SS: u64 = 0x20;
/// Flags a new task starts with: interrupts enabled.
pub const INITIAL_RFLAGS: u64 = 0x202;

#[derive(Clone, Copy, Debug, PartialEq, Eq, Structural)]
pub enum TaskState {
    Ready,
    Running,
    Exited,
}

/// The register frame a task is resumed from, lowest address first: the
/// fifteen general registers, then the frame that `iretq` pops.
#[derive(Clone, Copy, Debug, PartialEq, Eq, Structural)]
pub struct IsrFrame {
    pub r15: u64, pub r14: u64, pub r13: u64, pub r12: u64,
    pub r11: u64, pub r10: u64, pub r9: u64, pub r8: u64,
    pub rdi: u64, pub rsi: u64, pub rbp: u64,
    pub rbx: u64, pub rdx: u64, pub rcx: u64, pub rax: u64,
    pub rip: u64,
    pub cs: u64,
    pub rflags: u64,
    pub rsp: u64,
    pub ss: u64,
}

#[derive(Clone, Copy, Debug, PartialEq, Eq, Structural)]
pub struct Task {
    pub id: usize,
    pub state: TaskState,
    /// Saved stack pointer, at the task's interrupt frame.
    pub rsp: u64,
    pub stack_bottom: u64,
}

/// The frame a new task starts from: all general registers zero, entering
/// `entry` in kernel mode with interrupts on, on its own stack top.
pub open spec fn initial_frame(entry: u64, stack_top: u64) -> IsrFrame {
    IsrFrame {
        r15: 0, r14: 0, r13: 0, r12: 0, r11: 0, r10: 0, r9: 0, r8: 0,
        rdi: 0, rsi: 0, rbp: 0, rbx: 0, rdx: 0, rcx: 0, rax: 0,
        rip: entry, cs: KERNEL_CS, rflags: INITIAL_RFLAGS, rsp: stack_top, ss: KERNEL_SS,
    }
}

impl Task {
    /// The task already running when the scheduler starts.
    pub fn new_idle(id: usize) -> (t: Task)
        ensures
            t == (Task { id, state: TaskState::Running, rsp: 0, stack_bottom: 0 }),
    {
        Task { id, state: TaskState::Running, rsp: 0, stack_bottom: 0 }
    }

    /// A task that will start at `entry` on the stack at `stack_bottom`: the
    /// task, and the frame to place at its saved stack pointer, at the top of
    /// the stack, so that the first switch to it "returns" into `entry`.
    pub fn new(id: usize, entry: u64, stack_bottom: u64) -> (r: (Task, IsrFrame))
        requires
            stack_bottom + TASK_STACK_SIZE <= u64::MAX,
        ensures
            r.0 == (Task {
                id,
                state: TaskState::Ready,
                rsp: (stack_bottom + TASK_STACK_SIZE - ISR_FRAME_SIZE) as u64,
                stack_bottom,
            }),
            r.1 == initial_frame(entry, (stack_bottom + TASK_STACK_SIZE) as u64),
    {
        let stack_top = stack_bottom + TASK_STACK_SIZE as u64;
        let frame_addr = stack_top - ISR_FRAME_SIZE;
        let frame = IsrFrame {
            r15: 0, r14: 0, r13: 0, r12: 0, r11: 0, r10: 0, r9: 0, r8: 0,
            rdi: 0, rsi: 0, rbp: 0, rbx: 0, rdx: 0, rcx: 0, rax: 0,
            rip: entry,
            cs: KERNEL_CS,
            rflags: INITIAL_RFLAGS,
            rsp: stack_top,
            ss: KERNEL_SS,
        };
        (Task { id, state: TaskState::Ready, rsp: frame_addr, stack_bottom }, frame)
    }
}

/// The scheduler's state as plain values.
pub struct SchedState {
    pub tasks: Seq<Option<Task>>,
    pub current: usize,
    pub count: usize,
    pub started: bool,
}

/// Task table, the running task's slot, the number of slots in use, and
/// whether scheduling has begun.
pub struct Scheduler {
    tasks: Vec<Option<Task>>,
    current: usize,
    count: usize,
    started: bool,
}

impl View for Scheduler {
    type V = SchedState;

    closed spec fn view(&self) -> SchedState {
        SchedState { tasks: self.tasks@, current: self.current, count: self.count, started: self.started }
    }
}

/// Slot `i` holds a task that is ready to run.
pub open spec fn is_ready(tasks: Seq<Option<Task>>, i: int) -> bool {
    tasks[i] matches Some(t) && t.state == TaskState::Ready
}

/// The first slot after `prev`, going round the `count` slots in use, whose
/// task is ready: tried at distances `k`, `k + 1`, ..., `count`.
pub open spec fn next_ready_from(tasks: Seq<Option<Task>>, prev: int, count: int, k: int) -> Option<int>
    decreases count + 1 - k,
{
    if k > count || count <= 0 {
        None
    } else if is_ready(tasks, (prev + k) % count) {
        Some((prev + k) % count)
    } else {
        next_ready_from(tasks, prev, count, k + 1)
    }
}

/// The next ready task after `prev` in round-robin order, if any.
pub open spec fn next_ready(tasks: Seq<Option<Task>>, prev: int, count: int) -> Option<int> {
    next_ready_from(tasks, prev, count, 1)
}

/// The table has `MAX_TASKS` slots, the slots in use fit in it, and the
/// current slot is one of them.
pub open spec fn sched_wf(st: SchedState) -> bool {
    &&& st.tasks.len() == MAX_TASKS
    &&& st.count <= MAX_TASKS
    &&& st.current < MAX_TASKS
}

/// At most one task runs, and it is the current one.
pub open spec fn single_running(st: SchedState) -> bool {
    forall|i: int| 0 <= i < st.tasks.len() && (#[trigger] st.tasks[i] matches Some(t) && t.state == TaskState::Running)
        ==> i == st.current
}

/// The outcome of a timer interrupt that arrives with stack pointer `rsp`:
/// the new state and the stack pointer to resume on. Nothing changes before
/// scheduling starts, with a single task, or when no task is ready;
/// otherwise the current task saves `rsp` and, if it was running, becomes
/// ready, and the next ready task runs.
pub open spec fn schedule_spec(st: SchedState, rsp: u64) -> (SchedState, u64) {
    if !st.started || st.count <= 1 {
        (st, rsp)
    } else {
        match next_ready(st.tasks, st.current as int, st.count as int) {
            None => (st, rsp),
            Some(next) => {
                let prev = st.current as int;
                let t1 = match st.tasks[prev] {
                    Some(t) => st.tasks.update(prev, Some(Task {
                        rsp,
                        state: if t.state == TaskState::Running { TaskState::Ready } else { t.state },
                        ..t
                    })),
                    None => st.tasks,
                };
                let n = t1[next]->0;
                (
                    SchedState { tasks: t1.update(next, Some(Task { state: TaskState::Running, ..n })), current: next as usize, ..st },
                    n.rsp,
                )
            },
        }
    }
}

proof fn lemma_next_ready_from(tasks: Seq<Option<Task>>, prev: int, count: int, k: int)
    requires
        count > 0,
        1 <= k,
    ensures
        next_ready_from(tasks, prev, count, k) matches Some(i) ==> 0 <= i < count && is_ready(tasks, i),
    decreases count + 1 - k,
{
    if k <= count && !is_ready(tasks, (prev + k) % count) {
        lemma_next_ready_from(tasks, prev, count, k + 1);
    }
}

impl Scheduler {
    /// Well-formed: the state satisfies `sched_wf`.
    pub open spec fn wf(&self) -> bool {
        sched_wf(self@)
    }

    /// An empty table, before scheduling starts.
    pub fn new() -> (s: Scheduler)
        ensures
            s.wf(),
            s@.tasks == Seq::new(MAX_TASKS as nat, |i: int| None::<Task>),
            s@.current == 0,
            s@.count == 0,
            !s@.started,
            single_running(s@),
    {
        let mut tasks: Vec<Option<Task>> = Vec::new();
        let mut i: usize = 0;
        while i < MAX_TASKS
            invariant
                i <= MAX_TASKS,
                tasks@ == Seq::new(i as nat, |j: int| None::<Task>),
            decreases MAX_TASKS - i,
        {
            tasks.push(None);
            i = i + 1;
        }
        Scheduler { tasks, current: 0, count: 0, started: false }
    }

    /// Start scheduling with the running code as task 0.
    pub fn init(&mut self)
        requires
            old(self).wf(),
        ensures
            final(self).wf(),
            final(self)@ == (SchedState {
                tasks: old(self)@.tasks.update(0, Some(Task { id: 0, state: TaskState::Running, rsp: 0, stack_bottom: 0 })),
                current: 0,
                count: 1,
                started: true,
            }),
            (forall|i: int| 1 <= i < MAX_TASKS ==> !(#[trigger] old(self)@.tasks[i] matches Some(t) && t.state == TaskState::Running))
                ==> single_running(final(self)@),
    {
        self.tasks.set(0, Some(Task::new_idle(0)));
        self.current = 0;
        self.count = 1;
        self.started = true;
    }

    /// The task table has no free slot.
    pub fn is_full(&self) -> (r: bool)
        ensures
            r == (self@.count >= MAX_TASKS),
    {
        self.count >= MAX_TASKS
    }

    /// Add a task starting at `entry` on the stack at `stack_bottom`, in the
    /// next free slot, which is also its id. Returns the id, and the frame to
    /// write at the task's saved stack pointer; `None` when the table is full.
    pub fn spawn(&mut self, entry: u64, stack_bottom: u64) -> (r: Option<(usize, IsrFrame)>)
        requires
            old(self).wf(),
            stack_bottom + TASK_STACK_SIZE <= u64::MAX,
        ensures
            final(self).wf(),
            old(self)@.count >= MAX_TASKS ==> r is None && final(self)@ == old(self)@,
            old(self)@.count < MAX_TASKS ==> {
                let id = old(self)@.count;
                &&& r == Some((id, initial_frame(entry, (stack_bottom + TASK_STACK_SIZE) as u64)))
                &&& final(self)@ == (SchedState {
                    tasks: old(self)@.tasks.update(id as int, Some(Task {
                        id,
                        state: TaskState::Ready,
                        rsp: (stack_bottom + TASK_STACK_SIZE - ISR_FRAME_SIZE) as u64,
                        stack_bottom,
                    })),
                    count: (id + 1) as usize,
                    ..old(self)@
                })
            },
            single_running(old(self)@) ==> single_running(final(self)@),
    {
        if self.count >= MAX_TASKS {
            return None;
        }
        let id = self.count;
        let (task, frame) = Task::new(id, entry, stack_bottom);
        self.tasks.set(id, Some(task));
        self.count = self.count + 1;
        Some((id, frame))
    }

    /// The current task stops for good.
    pub fn exit_current(&mut self)
        requires
            old(self).wf(),
        ensures
            final(self).wf(),
            final(self)@ == (match old(self)@.tasks[old(self)@.current as int] {
                Some(t) => SchedState {
                    tasks: old(self)@.tasks.update(old(self)@.current as int, Some(Task { state: TaskState::Exited, ..t })),
                    ..old(self)@
                },
                None => old(self)@,
            }),
            single_running(old(self)@) ==> single_running(final(self)@),
    {
        let cur = self.current;
        match self.tasks[cur] {
            Some(t) => {
                self.tasks.set(cur, Some(Task { state: TaskState::Exited, ..t }));
            }
            None => {}
        }
    }

    /// Timer interrupt with stack pointer `isr_rsp`: pick the next ready
    /// task round-robin and return the stack pointer to resume on.
    pub fn schedule_from_isr(&mut self, isr_rsp: u64) -> (r: u64)
        requires
            old(self).wf(),
        ensures
            final(self).wf(),
            (final(self)@, r) == schedule_spec(old(self)@, isr_rsp),
            single_running(old(self)@) ==> single_running(final(self)@),
    {
        if !self.started || self.count <= 1 {
            return isr_rsp;
        }
        let ghost st = self@;
        let prev = self.current;
        let count = self.count;
        let mut next = (prev + 1) % count;
        let mut found = false;
        let mut k: usize = 1;
        while k <= count
            invariant_except_break
                !found,
            invariant
                self@ == st,
                self.wf(),
                1 < count <= MAX_TASKS,
                prev < MAX_TASKS,
                1 <= k <= count + 1,
                next == (prev + k) % (count as int),
                next_ready(st.tasks, prev as int, count as int) == next_ready_from(st.tasks, prev as int, count as int, k as int),
            ensures
                found ==> next < count && next_ready(st.tasks, prev as int, count as int) == Some(next as int),
                !found ==> next_ready(st.tasks, prev as int, count as int) is None,
            decreases count + 1 - k,
        {
            match self.tasks[next] {
                Some(t) => {
                    if t.state == TaskState::Ready {
                        found = true;
                        break;
                    }
                }
                None => {}
            }
            proof {
                assert((prev + k + 1) % (count as int) == ((prev + k) % (count as int) + 1) % (count as int)) by {
                    vstd::arithmetic::div_mod::lemma_add_mod_noop(prev + k, 1, count as int);
                    vstd::arithmetic::div_mod::lemma_small_mod(1, count as nat);
                    vstd::arithmetic::div_mod::lemma_mod_twice(prev + k, count as int);
                }
            }
            next = (next + 1) % count;
            k = k + 1;
        }
        if !found {
            return isr_rsp;
        }
        proof {
            lemma_next_ready_from(st.tasks, prev as int, count as int, 1);
        }
        match self.tasks[prev] {
            Some(t) => {
                let state = if t.state == TaskState::Running { TaskState::Ready } else { t.state };
                self.tasks.set(prev, Some(Task { rsp: isr_rsp, state, ..t }));
            }
            None => {}
        }
        match self.tasks[next] {
            Some(t) => {
                self.tasks.set(next, Some(Task { state: TaskState::Running, ..t }));
                self.current = next;
                t.rsp
            }
            None => isr_rsp,
        }
    }
}

} // verus!
