//! Counting semaphore with a first-in first-out wait queue.

use vstd::prelude::*;
use std::collections::VecDeque;
use crate::manager::TaskManager;
use crate::processor::Processor;
use crate::task::{TaskControlBlock, TaskStatus};

verus! {

/// A counting semaphore. A negative count is the number of waiting tasks.
pub struct Semaphore {
    pub count: isize,
    pub wait_queue: VecDeque<TaskControlBlock>,
}

/// The mathematical content of a [`Semaphore`].
pub struct SemaphoreView {
    pub count: int,
    pub waiters: Seq<TaskControlBlock>,
}

impl SemaphoreView {
    /// A negative count is matched by as many waiters; otherwise nobody waits.
    pub open spec fn wf(self) -> bool {
        &&& self.count < 0 ==> self.waiters.len() == -self.count
        &&& self.count >= 0 ==> self.waiters.len() == 0
    }

    /// A `down` in this state has to wait.
    pub open spec fn down_blocks(self) -> bool {
        self.count <= 0
    }

    /// The state after `caller` has called `down`.
    pub open spec fn down(self, caller: TaskControlBlock) -> Self {
        SemaphoreView {
            count: self.count - 1,
            waiters: if self.down_blocks() {
                self.waiters.push(caller.with_status(TaskStatus::Blocked))
            } else {
                self.waiters
            },
        }
    }

    /// The task that an `up` in this state makes ready, if any.
    pub open spec fn woken(self) -> Option<TaskControlBlock> {
        if self.count < 0 && self.waiters.len() > 0 {
            Some(self.waiters[0].with_status(TaskStatus::Ready))
        } else {
            None
        }
    }

    /// The state after an `up`.
    pub open spec fn up(self) -> Self {
        SemaphoreView {
            count: self.count + 1,
            waiters: if self.woken() is Some {
                self.waiters.subrange(1, self.waiters.len() as int)
            } else {
                self.waiters
            },
        }
    }
}

impl View for Semaphore {
    type V = SemaphoreView;

    open spec fn view(&self) -> SemaphoreView {
        SemaphoreView { count: self.count as int, waiters: self.wait_queue@ }
    }
}

impl Semaphore {
    /// A semaphore with `res_count` units and nobody waiting.
    pub fn new(res_count: usize) -> (semaphore: Self)
        requires
            res_count <= isize::MAX,
        ensures
            semaphore@.count == res_count,
            semaphore@.waiters.len() == 0,
            semaphore@.wf(),
    {
        Semaphore { count: res_count as isize, wait_queue: VecDeque::new() }
    }

    /// Takes one unit for the running task. If none is left the task is
    /// marked blocked and moves from the processor to the tail of the wait
    /// queue.
    pub fn down(&mut self, processor: &mut Processor)
        requires
            old(processor).current is Some,
            old(self).count > isize::MIN,
        ensures
            final(self)@ == old(self)@.down(old(processor).current->0),
            final(processor).current == if old(self)@.down_blocks() {
                None
            } else {
                old(processor).current
            },
    {
        self.count = self.count - 1;
        if self.count < 0 {
            let taken = processor.take_current();
            let mut task = taken.unwrap();
            task.task_status = TaskStatus::Blocked;
            self.wait_queue.push_back(task);
        }
    }

    /// Gives one unit back. If a task waits, the one at the head of the wait
    /// queue is marked ready and moves to the tail of the ready queue.
    pub fn up(&mut self, manager: &mut TaskManager)
        requires
            old(self).count < isize::MAX,
        ensures
            final(self)@ == old(self)@.up(),
            final(manager)@ == match old(self)@.woken() {
                Some(task) => old(manager)@.push(task),
                None => old(manager)@,
            },
    {
        self.count = self.count + 1;
        if self.count <= 0 {
            let head = self.wait_queue.pop_front();
            match head {
                Some(waiter) => {
                    let mut task = waiter;
                    task.task_status = TaskStatus::Ready;
                    manager.add(task);
                },
                None => {},
            }
        }
    }
}

/// One call on a semaphore: a `down` by the given task, or an `up`.
pub enum SemaphoreOp {
    Down(TaskControlBlock),
    Up,
}

/// The state that `ops`, applied in order, lead to from `init`.
pub open spec fn semaphore_after(init: SemaphoreView, ops: Seq<SemaphoreOp>) -> SemaphoreView
    decreases ops.len(),
{
    if ops.len() == 0 {
        init
    } else {
        let before = semaphore_after(init, ops.drop_last());
        match ops.last() {
            SemaphoreOp::Down(caller) => before.down(caller),
            SemaphoreOp::Up => before.up(),
        }
    }
}

/// Number of `down` calls among `ops` that have returned to their caller:
/// those that found a unit, and those that waited and were woken by an `up`.
pub open spec fn downs_completed(init: SemaphoreView, ops: Seq<SemaphoreOp>) -> int
    decreases ops.len(),
{
    if ops.len() == 0 {
        0
    } else {
        let before = semaphore_after(init, ops.drop_last());
        downs_completed(init, ops.drop_last()) + match ops.last() {
            SemaphoreOp::Down(_) => if before.down_blocks() {
                0int
            } else {
                1int
            },
            SemaphoreOp::Up => if before.woken() is Some {
                1int
            } else {
                0int
            },
        }
    }
}

/// Number of `up` calls among `ops`.
pub open spec fn ups_called(ops: Seq<SemaphoreOp>) -> int
    decreases ops.len(),
{
    if ops.len() == 0 {
        0
    } else {
        ups_called(ops.drop_last()) + match ops.last() {
            SemaphoreOp::Down(_) => 0int,
            SemaphoreOp::Up => 1int,
        }
    }
}

/// Whatever sequence of calls a semaphore sees, the `down` calls that have
/// returned never outnumber the initial count plus the `up` calls. The units
/// still held back are exactly the positive part of the count.
pub proof fn lemma_downs_bounded(init: SemaphoreView, ops: Seq<SemaphoreOp>)
    requires
        init.count >= 0,
        init.waiters.len() == 0,
    ensures
        semaphore_after(init, ops).wf(),
        downs_completed(init, ops) == init.count + ups_called(ops) - if semaphore_after(
            init,
            ops,
        ).count > 0 {
            semaphore_after(init, ops).count
        } else {
            0
        },
        downs_completed(init, ops) <= init.count + ups_called(ops),
    decreases ops.len(),
{
    if ops.len() > 0 {
        lemma_downs_bounded(init, ops.drop_last());
    }
}

} // verus!
