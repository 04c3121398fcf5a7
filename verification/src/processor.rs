//! The execution context holder of the one logical processor.

use vstd::prelude::*;
use crate::config::MAX_SYSCALL_NUM;
use crate::kernel::Kernel;
use crate::manager::{dispatched, fetch_task, is_first_min, min_stride_index, selection_fits};
use crate::task::{TaskControlBlock, TaskStatus};

verus! {

/// Holds the task that is running, if any.
pub struct Processor {
    pub current: Option<TaskControlBlock>,
}

impl Processor {
    /// A processor on which nothing runs.
    pub fn new() -> (processor: Self)
        ensures
            processor.current is None,
    {
        Processor { current: None }
    }

    /// Moves the running task out and leaves the processor idle.
    pub fn take_current(&mut self) -> (task: Option<TaskControlBlock>)
        ensures
            task == old(self).current,
            final(self).current is None,
    {
        self.current.take()
    }

    /// A copy of the running task's control block.
    pub fn current(&self) -> (task: Option<TaskControlBlock>)
        ensures
            task == self.current,
    {
        self.current
    }
}

/// One turn of the dispatch loop on an idle processor: selects the next
/// task by stride, marks it running and installs it as the running task.
/// Reports whether a task was installed; with an empty ready queue nothing
/// changes and the processor stays idle. The switch into the task's context
/// is the caller's.
pub fn run_tasks(kernel: &mut Kernel) -> (installed: bool)
    requires
        old(kernel).wf(),
        !old(kernel).has_current(),
        selection_fits(old(kernel).manager@),
    ensures
        final(kernel).wf(),
        final(kernel).processes@ == old(kernel).processes@,
        installed == (old(kernel).manager@.len() > 0),
        old(kernel).manager@.len() == 0 ==> {
            &&& final(kernel).manager@ == old(kernel).manager@
            &&& final(kernel).processor.current is None
        },
        old(kernel).manager@.len() > 0 ==> {
            let k = min_stride_index(old(kernel).manager@);
            &&& is_first_min(old(kernel).manager@, k)
            &&& final(kernel).manager@ == old(kernel).manager@.remove(k)
            &&& final(kernel).processor.current == Some(
                dispatched(old(kernel).manager@[k]).with_status(TaskStatus::Running),
            )
        },
{
    let next = fetch_task(&mut kernel.manager);
    match next {
        Some(selected) => {
            let mut task = selected;
            task.task_status = TaskStatus::Running;
            kernel.processor.current = Some(task);
            proof {
                kernel.lemma_same_processes(old(kernel));
            }
            true
        },
        None => {
            proof {
                kernel.lemma_same_processes(old(kernel));
            }
            false
        },
    }
}

/// Moves the running task out of the kernel state and leaves the processor
/// idle.
pub fn take_current_task(kernel: &mut Kernel) -> (task: Option<TaskControlBlock>)
    requires
        old(kernel).wf(),
    ensures
        final(kernel).wf(),
        task == old(kernel).processor.current,
        final(kernel).processor.current is None,
        final(kernel).manager@ == old(kernel).manager@,
        final(kernel).processes@ == old(kernel).processes@,
{
    let task = kernel.processor.take_current();
    proof {
        kernel.lemma_same_processes(old(kernel));
    }
    task
}

/// A copy of the running task's control block.
pub fn current_task(kernel: &Kernel) -> (task: Option<TaskControlBlock>)
    ensures
        task == kernel.processor.current,
{
    kernel.processor.current()
}

/// The running task's syscall counters, its creation time and its status.
pub fn get_current_processor_info(kernel: &Kernel) -> (info: (
    [u32; MAX_SYSCALL_NUM],
    usize,
    TaskStatus,
))
    requires
        kernel.has_current(),
    ensures
        info.0 == kernel.current_task().syscall_times,
        info.1 == kernel.current_task().start_time,
        info.2 == kernel.current_task().task_status,
{
    let task = kernel.processor.current().unwrap();
    (task.syscall_times, task.start_time, task.task_status)
}

/// Counts one more call of syscall `id` for the running task.
pub fn update_syscall_times(kernel: &mut Kernel, id: usize)
    requires
        old(kernel).wf(),
        old(kernel).has_current(),
        id < MAX_SYSCALL_NUM,
        old(kernel).current_task().syscall_times[id as int] < u32::MAX,
    ensures
        final(kernel).wf(),
        final(kernel).manager@ == old(kernel).manager@,
        final(kernel).processes@ == old(kernel).processes@,
        final(kernel).has_current(),
        final(kernel).current_task().syscall_times@ == old(
            kernel,
        ).current_task().syscall_times@.update(
            id as int,
            (old(kernel).current_task().syscall_times[id as int] + 1) as u32,
        ),
        final(kernel).current_task() == (TaskControlBlock {
            syscall_times: final(kernel).current_task().syscall_times,
            ..old(kernel).current_task()
        }),
{
    let taken = kernel.processor.take_current();
    let mut task = taken.unwrap();
    task.syscall_times[id] = task.syscall_times[id] + 1;
    kernel.processor.current = Some(task);
    proof {
        kernel.lemma_same_processes(old(kernel));
    }
}

} // verus!
