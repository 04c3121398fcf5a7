//! The control block of a schedulable task.

use vstd::prelude::*;
use crate::config::{DEFAULT_PRIORITY, MAX_SYSCALL_NUM, MIN_PRIORITY};

verus! {

/// Where a task stands in its life cycle.
#[derive(Clone, Copy, Debug, PartialEq, Eq, Structural)]
pub enum TaskStatus {
    Ready,
    Running,
    Blocked,
    Zombie,
}

/// Everything the kernel core keeps about one task.
///
/// A block is a plain value. At any moment it is held by exactly one place:
/// the ready queue, the processor, the wait queue of a primitive, the sleeper
/// list of its process, or the list of exited tasks of its process.
#[derive(Clone, Copy, Debug, PartialEq, Eq)]
pub struct TaskControlBlock {
    /// Process that owns the task.
    pub pid: usize,
    /// Thread slot of the task inside its process.
    pub tid: usize,
    pub task_status: TaskStatus,
    /// Scheduling weight; the stride advances by `BIG_STRIDE / priority`.
    pub priority: isize,
    /// Accumulated stride; the ready task with the least stride runs next.
    pub stride: u64,
    /// How often the task has issued each syscall.
    pub syscall_times: [u32; MAX_SYSCALL_NUM],
    /// Time in milliseconds at which the task was created.
    pub start_time: usize,
    /// Meaningful once the task is a zombie.
    pub exit_code: i32,
    /// Return-value register of the saved user context.
    pub trap_return: usize,
}

impl TaskControlBlock {
    /// The priority can serve as a divisor, and the thread slot can index a
    /// table.
    pub open spec fn wf(&self) -> bool {
        &&& self.priority >= MIN_PRIORITY
        &&& self.tid < usize::MAX
    }

    /// This is a task as `new` makes it: ready, with the default priority,
    /// no stride, no recorded syscalls and a zero in its return register.
    pub open spec fn is_fresh(&self, pid: usize, tid: usize, start_time: usize) -> bool {
        &&& self.pid == pid
        &&& self.tid == tid
        &&& self.task_status == TaskStatus::Ready
        &&& self.priority == DEFAULT_PRIORITY
        &&& self.stride == 0
        &&& self.start_time == start_time
        &&& self.exit_code == 0
        &&& self.trap_return == 0
        &&& forall|i: int| 0 <= i < MAX_SYSCALL_NUM ==> self.syscall_times[i] == 0
    }

    /// A ready task with the default priority, no stride and no recorded syscalls.
    pub fn new(pid: usize, tid: usize, start_time: usize) -> (task: Self)
        requires
            tid < usize::MAX,
        ensures
            task.is_fresh(pid, tid, start_time),
            task.wf(),
    {
        TaskControlBlock {
            pid,
            tid,
            task_status: TaskStatus::Ready,
            priority: DEFAULT_PRIORITY,
            stride: 0,
            syscall_times: [0u32; MAX_SYSCALL_NUM],
            start_time,
            exit_code: 0,
            trap_return: 0,
        }
    }

    /// The same task in another state of its life cycle.
    pub open spec fn with_status(self, status: TaskStatus) -> Self {
        TaskControlBlock { task_status: status, ..self }
    }

    /// The same task after it has exited with `exit_code`.
    pub open spec fn ended(self, exit_code: i32) -> Self {
        TaskControlBlock { task_status: TaskStatus::Zombie, exit_code, ..self }
    }
}

} // verus!
