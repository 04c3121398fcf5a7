//! Condition variable with a first-in first-out wait queue.

use vstd::prelude::*;
use std::collections::VecDeque;
use crate::manager::TaskManager;
use crate::processor::Processor;
use crate::sync::mutex::Mutex;
use crate::task::{TaskControlBlock, TaskStatus};

verus! {

/// A condition variable; its content is the queue of waiting tasks.
pub struct Condvar {
    pub wait_queue: VecDeque<TaskControlBlock>,
}

impl View for Condvar {
    type V = Seq<TaskControlBlock>;

    /// The waiting tasks from head to tail.
    open spec fn view(&self) -> Seq<TaskControlBlock> {
        self.wait_queue@
    }
}

/// The task that a `signal` makes ready, given the waiters at that moment.
pub open spec fn signalled(waiters: Seq<TaskControlBlock>) -> Option<TaskControlBlock> {
    if waiters.len() > 0 {
        Some(waiters[0].with_status(TaskStatus::Ready))
    } else {
        None
    }
}

impl Condvar {
    /// A condition variable on which nobody waits.
    pub fn new() -> (condvar: Self)
        ensures
            condvar@.len() == 0,
    {
        Condvar { wait_queue: VecDeque::new() }
    }

    /// Wakes the task at the head of the wait queue, if there is one: it is
    /// marked ready and moves to the tail of the ready queue. The mutex it
    /// gave up is not handed back to it.
    pub fn signal(&mut self, manager: &mut TaskManager)
        ensures
            old(self)@.len() == 0 ==> final(self)@ == old(self)@,
            old(self)@.len() > 0 ==> final(self)@ == old(self)@.subrange(
                1,
                old(self)@.len() as int,
            ),
            final(manager)@ == match signalled(old(self)@) {
                Some(task) => old(manager)@.push(task),
                None => old(manager)@,
            },
    {
        let head = self.wait_queue.pop_front();
        match head {
            Some(waiter) => {
                let mut task = waiter;
                task.task_status = TaskStatus::Ready;
                manager.add(task);
            },
            None => {},
        }
    }

    /// Releases `mutex` and puts the running task, marked blocked, at the
    /// tail of the wait queue. The release comes first, so a task that takes
    /// over the mutex stands in the ready queue before the caller waits.
    /// When the caller runs again it has to acquire the mutex itself.
    pub fn wait(&mut self, mutex: &mut Mutex, processor: &mut Processor, manager: &mut TaskManager)
        requires
            old(processor).current is Some,
        ensures
            final(mutex).is_spin() == old(mutex).is_spin(),
            final(mutex)@ == old(mutex)@.unlock(),
            final(manager)@ == match old(mutex)@.woken() {
                Some(task) => old(manager)@.push(task),
                None => old(manager)@,
            },
            final(self)@ == old(self)@.push(
                (old(processor).current->0).with_status(TaskStatus::Blocked),
            ),
            final(processor).current is None,
    {
        mutex.unlock(manager);
        let taken = processor.take_current();
        let mut task = taken.unwrap();
        task.task_status = TaskStatus::Blocked;
        self.wait_queue.push_back(task);
    }
}

} // verus!
