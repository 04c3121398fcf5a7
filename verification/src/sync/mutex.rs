//! Mutual exclusion: a spinning and a blocking mutex.

use vstd::prelude::*;
use std::collections::VecDeque;
use crate::manager::TaskManager;
use crate::processor::Processor;
use crate::task::{TaskControlBlock, TaskStatus};

verus! {

/// A mutex that is acquired by retrying; it never touches the scheduler.
pub struct MutexSpin {
    pub locked: bool,
}

/// A mutex whose contenders wait in a first-in first-out queue.
pub struct MutexBlocking {
    pub locked: bool,
    pub wait_queue: VecDeque<TaskControlBlock>,
}

/// The two kinds of mutex behind one interface.
pub enum Mutex {
    Spin(MutexSpin),
    Blocking(MutexBlocking),
}

/// The mathematical content of a mutex. A spinning mutex never has waiters.
pub struct MutexView {
    pub locked: bool,
    pub waiters: Seq<TaskControlBlock>,
}

impl MutexView {
    /// Tasks only wait on a mutex that is held.
    pub open spec fn wf(self) -> bool {
        self.waiters.len() > 0 ==> self.locked
    }

    /// The state after `caller` has called `lock` on a blocking mutex: it
    /// holds the mutex if that was free, and waits otherwise.
    pub open spec fn lock(self, caller: TaskControlBlock) -> Self {
        if self.locked {
            MutexView {
                locked: true,
                waiters: self.waiters.push(caller.with_status(TaskStatus::Blocked)),
            }
        } else {
            MutexView { locked: true, waiters: self.waiters }
        }
    }

    /// The task to which an `unlock` in this state hands the mutex, if any.
    pub open spec fn woken(self) -> Option<TaskControlBlock> {
        if self.waiters.len() > 0 {
            Some(self.waiters[0].with_status(TaskStatus::Ready))
        } else {
            None
        }
    }

    /// The state after an `unlock`: the first waiter becomes the holder, and
    /// without a waiter the mutex is free.
    pub open spec fn unlock(self) -> Self {
        if self.waiters.len() > 0 {
            MutexView {
                locked: self.locked,
                waiters: self.waiters.subrange(1, self.waiters.len() as int),
            }
        } else {
            MutexView { locked: false, waiters: self.waiters }
        }
    }
}

impl View for MutexSpin {
    type V = MutexView;

    open spec fn view(&self) -> MutexView {
        MutexView { locked: self.locked, waiters: Seq::empty() }
    }
}

impl View for MutexBlocking {
    type V = MutexView;

    open spec fn view(&self) -> MutexView {
        MutexView { locked: self.locked, waiters: self.wait_queue@ }
    }
}

impl View for Mutex {
    type V = MutexView;

    open spec fn view(&self) -> MutexView {
        match self {
            Mutex::Spin(m) => m@,
            Mutex::Blocking(m) => m@,
        }
    }
}

impl MutexSpin {
    /// A free spinning mutex.
    pub fn new() -> (mutex: Self)
        ensures
            !mutex@.locked,
            mutex@.waiters.len() == 0,
    {
        MutexSpin { locked: false }
    }

    /// One atomic attempt to acquire the mutex: succeeds exactly when the
    /// mutex is free, and leaves it held either way.
    pub fn try_lock(&mut self) -> (acquired: bool)
        ensures
            acquired == !old(self).locked,
            final(self).locked,
    {
        if self.locked {
            false
        } else {
            self.locked = true;
            true
        }
    }

    /// Acquires a free mutex. A caller that finds the mutex held retries
    /// `try_lock` until it succeeds.
    pub fn lock(&mut self)
        requires
            !old(self).locked,
        ensures
            final(self).locked,
    {
        self.locked = true;
    }

    /// Frees the mutex.
    pub fn unlock(&mut self)
        ensures
            !final(self).locked,
    {
        self.locked = false;
    }
}

impl MutexBlocking {
    /// A free blocking mutex without waiters.
    pub fn new() -> (mutex: Self)
        ensures
            !mutex@.locked,
            mutex@.waiters.len() == 0,
    {
        MutexBlocking { locked: false, wait_queue: VecDeque::new() }
    }

    /// Acquires the mutex for the running task if it is free. Otherwise the
    /// task is marked blocked and moves from the processor to the tail of
    /// the wait queue.
    pub fn lock(&mut self, processor: &mut Processor)
        requires
            old(processor).current is Some,
        ensures
            final(self)@ == old(self)@.lock(old(processor).current->0),
            final(processor).current == if old(self)@.locked {
                None
            } else {
                old(processor).current
            },
    {
        if self.locked {
            let taken = processor.take_current();
            let mut task = taken.unwrap();
            task.task_status = TaskStatus::Blocked;
            self.wait_queue.push_back(task);
        } else {
            self.locked = true;
        }
    }

    /// Releases the mutex. With a waiter, the task at the head of the wait
    /// queue becomes the holder: it is marked ready and moves to the tail of
    /// the ready queue, and the mutex stays held. Without one the mutex is
    /// free.
    pub fn unlock(&mut self, manager: &mut TaskManager)
        ensures
            final(self)@ == old(self)@.unlock(),
            final(manager)@ == match old(self)@.woken() {
                Some(task) => old(manager)@.push(task),
                None => old(manager)@,
            },
    {
        let head = self.wait_queue.pop_front();
        match head {
            Some(waiter) => {
                let mut task = waiter;
                task.task_status = TaskStatus::Ready;
                manager.add(task);
            },
            None => {
                self.locked = false;
            },
        }
    }
}

impl Mutex {
    /// The mutex is of the spinning kind.
    pub open spec fn is_spin(&self) -> bool {
        self is Spin
    }

    /// A `lock` on this mutex comes back: only a spinning mutex that is held
    /// keeps its caller retrying.
    pub open spec fn lock_returns(&self) -> bool {
        self.is_spin() ==> !self@.locked
    }

    /// The state after `caller` has called `lock`.
    pub open spec fn spec_lock(&self, caller: TaskControlBlock) -> MutexView {
        if self.is_spin() {
            MutexView { locked: true, waiters: Seq::empty() }
        } else {
            self@.lock(caller)
        }
    }

    /// A `lock` in this state makes its caller wait in the queue.
    pub open spec fn lock_blocks(&self) -> bool {
        !self.is_spin() && self@.locked
    }

    /// Acquires the mutex for the running task, or queues the task on a
    /// blocking mutex that is held.
    pub fn lock(&mut self, processor: &mut Processor)
        requires
            old(processor).current is Some,
            old(self).lock_returns(),
        ensures
            final(self).is_spin() == old(self).is_spin(),
            final(self)@ == old(self).spec_lock(old(processor).current->0),
            final(processor).current == if old(self).lock_blocks() {
                None
            } else {
                old(processor).current
            },
    {
        match self {
            Mutex::Spin(m) => {
                m.lock();
            },
            Mutex::Blocking(m) => {
                m.lock(processor);
            },
        }
    }

    /// Releases the mutex; see [`MutexBlocking::unlock`] for the hand-over.
    pub fn unlock(&mut self, manager: &mut TaskManager)
        ensures
            final(self).is_spin() == old(self).is_spin(),
            final(self)@ == old(self)@.unlock(),
            final(manager)@ == match old(self)@.woken() {
                Some(task) => old(manager)@.push(task),
                None => old(manager)@,
            },
    {
        match self {
            Mutex::Spin(m) => {
                m.unlock();
            },
            Mutex::Blocking(m) => {
                m.unlock(manager);
            },
        }
    }
}

/// One call on a blocking mutex: a `lock` by the given task, or an `unlock`.
pub enum MutexOp {
    Lock(TaskControlBlock),
    Unlock,
}

/// The state that `ops`, applied in order, lead to from `init`.
pub open spec fn mutex_after(init: MutexView, ops: Seq<MutexOp>) -> MutexView
    decreases ops.len(),
{
    if ops.len() == 0 {
        init
    } else {
        let before = mutex_after(init, ops.drop_last());
        match ops.last() {
            MutexOp::Lock(caller) => before.lock(caller),
            MutexOp::Unlock => before.unlock(),
        }
    }
}

/// Number of tasks that hold the mutex after `ops`: every `lock` that found
/// the mutex free adds a holder, every `unlock` of a held mutex without
/// waiters takes one away, and an `unlock` with waiters replaces the holder
/// by the first waiter.
pub open spec fn mutex_holders(init: MutexView, ops: Seq<MutexOp>) -> int
    decreases ops.len(),
{
    if ops.len() == 0 {
        0
    } else {
        let before = mutex_after(init, ops.drop_last());
        mutex_holders(init, ops.drop_last()) + match ops.last() {
            MutexOp::Lock(_) => if before.locked {
                0int
            } else {
                1int
            },
            MutexOp::Unlock => if before.waiters.len() == 0 && before.locked {
                -1int
            } else {
                0int
            },
        }
    }
}

/// Whatever sequence of calls a blocking mutex sees from its free state, it
/// has one holder while it is held and none while it is free, and tasks wait
/// only while it is held.
pub proof fn lemma_one_holder(ops: Seq<MutexOp>)
    ensures
        ({
            let init = MutexView { locked: false, waiters: Seq::empty() };
            &&& mutex_after(init, ops).wf()
            &&& mutex_holders(init, ops) == if mutex_after(init, ops).locked {
                1int
            } else {
                0int
            }
            &&& mutex_holders(init, ops) <= 1
        }),
    decreases ops.len(),
{
    if ops.len() > 0 {
        lemma_one_holder(ops.drop_last());
    }
}

/// One call on a spinning mutex: an attempt to acquire it, or an `unlock`.
pub enum SpinOp {
    TryLock,
    Unlock,
}

/// Whether a spinning mutex that starts free is held after `ops`.
pub open spec fn spin_locked_after(ops: Seq<SpinOp>) -> bool
    decreases ops.len(),
{
    if ops.len() == 0 {
        false
    } else {
        match ops.last() {
            SpinOp::TryLock => true,
            SpinOp::Unlock => false,
        }
    }
}

/// Number of tasks that hold a spinning mutex after `ops`: an attempt that
/// found the mutex free adds a holder, an `unlock` of a held mutex takes one
/// away.
pub open spec fn spin_holders(ops: Seq<SpinOp>) -> int
    decreases ops.len(),
{
    if ops.len() == 0 {
        0
    } else {
        let held = spin_locked_after(ops.drop_last());
        spin_holders(ops.drop_last()) + match ops.last() {
            SpinOp::TryLock => if held {
                0int
            } else {
                1int
            },
            SpinOp::Unlock => if held {
                -1int
            } else {
                0int
            },
        }
    }
}

/// Whatever sequence of calls a spinning mutex sees from its free state, it
/// has one holder while it is held and none while it is free.
pub proof fn lemma_spin_one_holder(ops: Seq<SpinOp>)
    ensures
        spin_holders(ops) == if spin_locked_after(ops) {
            1int
        } else {
            0int
        },
        spin_holders(ops) <= 1,
    decreases ops.len(),
{
    if ops.len() > 0 {
        lemma_spin_one_holder(ops.drop_last());
    }
}

} // verus!
