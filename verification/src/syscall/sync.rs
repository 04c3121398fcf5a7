//! Operations on the synchronisation primitives of the running task's
//! process. The deadlock detector keeps its books on every creation and
//! every release; a request is checked, and booked, only where the process
//! has switched detection on.

use vstd::prelude::*;
use crate::config::{DEADLOCK, FAILURE};
use crate::kernel::Kernel;
use crate::process::{free_slot, install, installed_at, same_except, Sleeper};
use crate::sync::condvar::{signalled, Condvar};
use crate::sync::mutex::{Mutex, MutexBlocking, MutexSpin};
use crate::sync::semaphore::Semaphore;
use crate::task::TaskStatus;

verus! {

impl Kernel {
    /// The running task's process has a semaphore in slot `sem_id`.
    pub open spec fn has_semaphore(&self, sem_id: usize) -> bool {
        &&& sem_id < self.current_process().semaphore_list@.len()
        &&& self.current_process().semaphore_list@[sem_id as int] is Some
    }

    /// The running task's process has a mutex in slot `mutex_id`.
    pub open spec fn has_mutex(&self, mutex_id: usize) -> bool {
        &&& mutex_id < self.current_process().mutex_list@.len()
        &&& self.current_process().mutex_list@[mutex_id as int] is Some
    }

    /// The running task's process has a condition variable in slot
    /// `condvar_id`.
    pub open spec fn has_condvar(&self, condvar_id: usize) -> bool {
        &&& condvar_id < self.current_process().condvar_list@.len()
        &&& self.current_process().condvar_list@[condvar_id as int] is Some
    }

    /// Deadlock detection is on and refuses the running task one more unit
    /// of resource `id`.
    pub open spec fn request_refused(&self, id: usize) -> bool {
        &&& self.current_process().deadlock_test
        &&& !self.current_process().detector@.request(self.current_task().tid as int, id as int).1
    }
}

/// `down` on the semaphore in slot `sem_id` for the running task.
///
/// With deadlock detection on, the request is first recorded and checked;
/// a request that is not safe is refused with `DEADLOCK` and the semaphore
/// is left alone. Otherwise the count drops by one, and if no unit was left
/// the task leaves the processor and waits in the semaphore's queue.
pub fn sys_semaphore_down(kernel: &mut Kernel, sem_id: usize) -> (code: isize)
    requires
        old(kernel).wf(),
        old(kernel).has_current(),
        old(kernel).has_semaphore(sem_id),
        old(kernel).current_process().semaphore_list@[sem_id as int]->0.count > isize::MIN,
        old(kernel).current_process().deadlock_test ==> old(
            kernel,
        ).current_process().detector@.can_request(
            old(kernel).current_task().tid as int,
            sem_id as int,
        ),
    ensures
        final(kernel).wf(),
        code == if old(kernel).request_refused(sem_id) {
            DEADLOCK
        } else {
            0
        },
        final(kernel).manager@ == old(kernel).manager@,
        final(kernel).others_unchanged(old(kernel), old(kernel).current_pid()),
        final(kernel).alive(old(kernel).current_pid()),
        ({
            let before = old(kernel).current_process();
            let after = final(kernel).process(old(kernel).current_pid());
            let task = old(kernel).current_task();
            let semaphore = before.semaphore_list@[sem_id as int]->0@;
            let refused = old(kernel).request_refused(sem_id);
            &&& before.same_identity(&after)
            &&& before.same_memory(&after)
            &&& before.same_threads(&after)
            &&& after.deadlock_test == before.deadlock_test
            &&& after.mutex_list == before.mutex_list
            &&& after.condvar_list == before.condvar_list
            &&& same_except(before.semaphore_list@, after.semaphore_list@, sem_id as int)
            &&& after.semaphore_list@[sem_id as int] is Some
            &&& after.semaphore_list@[sem_id as int]->0@ == if refused {
                semaphore
            } else {
                semaphore.down(task)
            }
            &&& after.detector@ == if before.deadlock_test {
                before.detector@.request(task.tid as int, sem_id as int).0
            } else {
                before.detector@
            }
            &&& final(kernel).processor.current == if !refused && semaphore.down_blocks() {
                None
            } else {
                old(kernel).processor.current
            }
        }),
{
    let task = kernel.processor.current().unwrap();
    let pid = task.pid;
    let mut process = kernel.processes[pid].take().unwrap();
    if process.deadlock_test {
        assert(sem_id < process.semaphore_list.len());
        let granted = process.detector.request(task.tid, sem_id);
        if !granted {
            kernel.processes[pid] = Some(process);
            proof {
                assert(kernel.processes@ =~= old(kernel).processes@.update(
                    pid as int,
                    kernel.processes@[pid as int],
                ));
                kernel.lemma_process_replaced(old(kernel), pid as int);
            }
            return DEADLOCK;
        }
    }
    let mut semaphore = process.semaphore_list[sem_id].take().unwrap();
    semaphore.down(&mut kernel.processor);
    process.semaphore_list[sem_id] = Some(semaphore);
    kernel.processes[pid] = Some(process);
    proof {
        assert(kernel.processes@ =~= old(kernel).processes@.update(
            pid as int,
            kernel.processes@[pid as int],
        ));
        kernel.lemma_process_replaced(old(kernel), pid as int);
    }
    0
}

/// Creates a mutex in the running task's process, blocking or spinning, in
/// the first empty slot of the mutex table or at its end, and returns the
/// slot. The mutex is registered with the deadlock detector as one unit of
/// the resource with that slot id, whether detection is on or off.
pub fn sys_mutex_create(kernel: &mut Kernel, blocking: bool) -> (code: isize)
    requires
        old(kernel).wf(),
        old(kernel).has_current(),
        free_slot(old(kernel).current_process().mutex_list@) <= isize::MAX,
        old(kernel).current_process().detector@.can_declare(
            free_slot(old(kernel).current_process().mutex_list@),
            1,
        ),
    ensures
        final(kernel).wf(),
        code == free_slot(old(kernel).current_process().mutex_list@),
        final(kernel).manager@ == old(kernel).manager@,
        final(kernel).processor == old(kernel).processor,
        final(kernel).others_unchanged(old(kernel), old(kernel).current_pid()),
        final(kernel).alive(old(kernel).current_pid()),
        ({
            let before = old(kernel).current_process();
            let after = final(kernel).process(old(kernel).current_pid());
            &&& before.same_identity(&after)
            &&& before.same_memory(&after)
            &&& before.same_threads(&after)
            &&& after.deadlock_test == before.deadlock_test
            &&& after.semaphore_list == before.semaphore_list
            &&& after.condvar_list == before.condvar_list
            &&& installed_at(before.mutex_list@, after.mutex_list@, code as int)
            &&& after.mutex_list@[code as int]->0.is_spin() == !blocking
            &&& !after.mutex_list@[code as int]->0@.locked
            &&& after.mutex_list@[code as int]->0@.waiters.len() == 0
            &&& after.detector@ == before.detector@.declared(code as int, 1)
        }),
{
    let task = kernel.processor.current().unwrap();
    let pid = task.pid;
    let mut process = kernel.processes[pid].take().unwrap();
    let mutex = if !blocking {
        Mutex::Spin(MutexSpin::new())
    } else {
        Mutex::Blocking(MutexBlocking::new())
    };
    let id = install(&mut process.mutex_list, mutex);
    process.detector.declare(id, 1);
    kernel.processes[pid] = Some(process);
    proof {
        assert(kernel.processes@ =~= old(kernel).processes@.update(
            pid as int,
            kernel.processes@[pid as int],
        ));
        kernel.lemma_process_replaced(old(kernel), pid as int);
    }
    id as isize
}

/// `lock` on the mutex in slot `mutex_id` for the running task.
///
/// With deadlock detection on, the request is first recorded and checked;
/// a request that is not safe is refused with `DEADLOCK` and the mutex is
/// left alone. Otherwise the task acquires the mutex if it is free, and on a
/// blocking mutex that is held it leaves the processor and waits in the
/// mutex's queue. On a spinning mutex that is held a request that is not
/// refused would retry without end, since no other task runs meanwhile;
/// such a call is not allowed.
pub fn sys_mutex_lock(kernel: &mut Kernel, mutex_id: usize) -> (code: isize)
    requires
        old(kernel).wf(),
        old(kernel).has_current(),
        old(kernel).has_mutex(mutex_id),
        old(kernel).current_process().deadlock_test ==> old(
            kernel,
        ).current_process().detector@.can_request(
            old(kernel).current_task().tid as int,
            mutex_id as int,
        ),
        !old(kernel).request_refused(mutex_id) ==> old(
            kernel,
        ).current_process().mutex_list@[mutex_id as int]->0.lock_returns(),
    ensures
        final(kernel).wf(),
        code == if old(kernel).request_refused(mutex_id) {
            DEADLOCK
        } else {
            0
        },
        final(kernel).manager@ == old(kernel).manager@,
        final(kernel).others_unchanged(old(kernel), old(kernel).current_pid()),
        final(kernel).alive(old(kernel).current_pid()),
        ({
            let before = old(kernel).current_process();
            let after = final(kernel).process(old(kernel).current_pid());
            let task = old(kernel).current_task();
            let mutex = before.mutex_list@[mutex_id as int]->0;
            let refused = old(kernel).request_refused(mutex_id);
            &&& before.same_identity(&after)
            &&& before.same_memory(&after)
            &&& before.same_threads(&after)
            &&& after.deadlock_test == before.deadlock_test
            &&& after.semaphore_list == before.semaphore_list
            &&& after.condvar_list == before.condvar_list
            &&& same_except(before.mutex_list@, after.mutex_list@, mutex_id as int)
            &&& after.mutex_list@[mutex_id as int] is Some
            &&& after.mutex_list@[mutex_id as int]->0.is_spin() == mutex.is_spin()
            &&& after.mutex_list@[mutex_id as int]->0@ == if refused {
                mutex@
            } else {
                mutex.spec_lock(task)
            }
            &&& after.detector@ == if before.deadlock_test {
                before.detector@.request(task.tid as int, mutex_id as int).0
            } else {
                before.detector@
            }
            &&& final(kernel).processor.current == if !refused && mutex.lock_blocks() {
                None
            } else {
                old(kernel).processor.current
            }
        }),
{
    let task = kernel.processor.current().unwrap();
    let pid = task.pid;
    let mut process = kernel.processes[pid].take().unwrap();
    if process.deadlock_test {
        assert(mutex_id < process.mutex_list.len());
        let granted = process.detector.request(task.tid, mutex_id);
        if !granted {
            kernel.processes[pid] = Some(process);
            proof {
                assert(kernel.processes@ =~= old(kernel).processes@.update(
                    pid as int,
                    kernel.processes@[pid as int],
                ));
                kernel.lemma_process_replaced(old(kernel), pid as int);
            }
            return DEADLOCK;
        }
    }
    let mut mutex = process.mutex_list[mutex_id].take().unwrap();
    mutex.lock(&mut kernel.processor);
    process.mutex_list[mutex_id] = Some(mutex);
    kernel.processes[pid] = Some(process);
    proof {
        assert(kernel.processes@ =~= old(kernel).processes@.update(
            pid as int,
            kernel.processes@[pid as int],
        ));
        kernel.lemma_process_replaced(old(kernel), pid as int);
    }
    0
}

/// `unlock` on the mutex in slot `mutex_id`.
///
/// The unit goes back into `work` of the deadlock detector, whether
/// detection is on or off, and no safety check runs. Then the mutex is
/// released: its first waiter, if any, becomes the holder and joins the
/// ready queue; without a waiter the mutex is free.
pub fn sys_mutex_unlock(kernel: &mut Kernel, mutex_id: usize) -> (code: isize)
    requires
        old(kernel).wf(),
        old(kernel).has_current(),
        old(kernel).has_mutex(mutex_id),
        old(kernel).current_process().detector@.work_at(mutex_id as int) < isize::MAX,
    ensures
        final(kernel).wf(),
        code == 0,
        final(kernel).processor == old(kernel).processor,
        final(kernel).others_unchanged(old(kernel), old(kernel).current_pid()),
        final(kernel).alive(old(kernel).current_pid()),
        ({
            let before = old(kernel).current_process();
            let after = final(kernel).process(old(kernel).current_pid());
            let mutex = before.mutex_list@[mutex_id as int]->0;
            &&& before.same_identity(&after)
            &&& before.same_memory(&after)
            &&& before.same_threads(&after)
            &&& after.deadlock_test == before.deadlock_test
            &&& after.semaphore_list == before.semaphore_list
            &&& after.condvar_list == before.condvar_list
            &&& same_except(before.mutex_list@, after.mutex_list@, mutex_id as int)
            &&& after.mutex_list@[mutex_id as int] is Some
            &&& after.mutex_list@[mutex_id as int]->0.is_spin() == mutex.is_spin()
            &&& after.mutex_list@[mutex_id as int]->0@ == mutex@.unlock()
            &&& after.detector@ == before.detector@.mutex_released(mutex_id as int)
            &&& final(kernel).manager@ == match mutex@.woken() {
                Some(woken) => old(kernel).manager@.push(woken),
                None => old(kernel).manager@,
            }
        }),
{
    let task = kernel.processor.current().unwrap();
    let pid = task.pid;
    let mut process = kernel.processes[pid].take().unwrap();
    assert(mutex_id < process.mutex_list.len());
    process.detector.release_mutex(mutex_id);
    let mut mutex = process.mutex_list[mutex_id].take().unwrap();
    mutex.unlock(&mut kernel.manager);
    process.mutex_list[mutex_id] = Some(mutex);
    kernel.processes[pid] = Some(process);
    proof {
        assert(kernel.processes@ =~= old(kernel).processes@.update(
            pid as int,
            kernel.processes@[pid as int],
        ));
        kernel.lemma_process_replaced(old(kernel), pid as int);
    }
    0
}

/// Creates a semaphore with `res_count` units in the running task's
/// process, in the first empty slot of the semaphore table or at its end,
/// and returns the slot. The units are registered with the deadlock
/// detector under the resource with that slot id, whether detection is on
/// or off.
pub fn sys_semaphore_create(kernel: &mut Kernel, res_count: usize) -> (code: isize)
    requires
        old(kernel).wf(),
        old(kernel).has_current(),
        res_count <= isize::MAX,
        free_slot(old(kernel).current_process().semaphore_list@) <= isize::MAX,
        old(kernel).current_process().detector@.can_declare(
            free_slot(old(kernel).current_process().semaphore_list@),
            res_count as int,
        ),
    ensures
        final(kernel).wf(),
        code == free_slot(old(kernel).current_process().semaphore_list@),
        final(kernel).manager@ == old(kernel).manager@,
        final(kernel).processor == old(kernel).processor,
        final(kernel).others_unchanged(old(kernel), old(kernel).current_pid()),
        final(kernel).alive(old(kernel).current_pid()),
        ({
            let before = old(kernel).current_process();
            let after = final(kernel).process(old(kernel).current_pid());
            &&& before.same_identity(&after)
            &&& before.same_memory(&after)
            &&& before.same_threads(&after)
            &&& after.deadlock_test == before.deadlock_test
            &&& after.mutex_list == before.mutex_list
            &&& after.condvar_list == before.condvar_list
            &&& installed_at(before.semaphore_list@, after.semaphore_list@, code as int)
            &&& after.semaphore_list@[code as int]->0@.count == res_count
            &&& after.semaphore_list@[code as int]->0@.waiters.len() == 0
            &&& after.detector@ == before.detector@.declared(code as int, res_count as int)
        }),
{
    let task = kernel.processor.current().unwrap();
    let pid = task.pid;
    let mut process = kernel.processes[pid].take().unwrap();
    let id = install(&mut process.semaphore_list, Semaphore::new(res_count));
    process.detector.declare(id, res_count as isize);
    kernel.processes[pid] = Some(process);
    proof {
        assert(kernel.processes@ =~= old(kernel).processes@.update(
            pid as int,
            kernel.processes@[pid as int],
        ));
        kernel.lemma_process_replaced(old(kernel), pid as int);
    }
    id as isize
}

/// `up` on the semaphore in slot `sem_id` for the running task.
///
/// The unit goes back into `work` of the deadlock detector and leaves the
/// task's `allocation`, whether detection is on or off, and no safety check
/// runs. Then the count rises by one, and the first waiter, if any, joins
/// the ready queue.
pub fn sys_semaphore_up(kernel: &mut Kernel, sem_id: usize) -> (code: isize)
    requires
        old(kernel).wf(),
        old(kernel).has_current(),
        old(kernel).has_semaphore(sem_id),
        old(kernel).current_process().semaphore_list@[sem_id as int]->0.count < isize::MAX,
        old(kernel).current_process().detector@.can_release(
            old(kernel).current_task().tid as int,
            sem_id as int,
        ),
    ensures
        final(kernel).wf(),
        code == 0,
        final(kernel).processor == old(kernel).processor,
        final(kernel).others_unchanged(old(kernel), old(kernel).current_pid()),
        final(kernel).alive(old(kernel).current_pid()),
        ({
            let before = old(kernel).current_process();
            let after = final(kernel).process(old(kernel).current_pid());
            let task = old(kernel).current_task();
            let semaphore = before.semaphore_list@[sem_id as int]->0@;
            &&& before.same_identity(&after)
            &&& before.same_memory(&after)
            &&& before.same_threads(&after)
            &&& after.deadlock_test == before.deadlock_test
            &&& after.mutex_list == before.mutex_list
            &&& after.condvar_list == before.condvar_list
            &&& same_except(before.semaphore_list@, after.semaphore_list@, sem_id as int)
            &&& after.semaphore_list@[sem_id as int] is Some
            &&& after.semaphore_list@[sem_id as int]->0@ == semaphore.up()
            &&& after.detector@ == before.detector@.semaphore_released(
                task.tid as int,
                sem_id as int,
            )
            &&& final(kernel).manager@ == match semaphore.woken() {
                Some(woken) => old(kernel).manager@.push(woken),
                None => old(kernel).manager@,
            }
        }),
{
    let task = kernel.processor.current().unwrap();
    let pid = task.pid;
    let mut process = kernel.processes[pid].take().unwrap();
    assert(sem_id < process.semaphore_list.len());
    process.detector.release_semaphore(task.tid, sem_id);
    let mut semaphore = process.semaphore_list[sem_id].take().unwrap();
    semaphore.up(&mut kernel.manager);
    process.semaphore_list[sem_id] = Some(semaphore);
    kernel.processes[pid] = Some(process);
    proof {
        assert(kernel.processes@ =~= old(kernel).processes@.update(
            pid as int,
            kernel.processes@[pid as int],
        ));
        kernel.lemma_process_replaced(old(kernel), pid as int);
    }
    0
}

/// Creates a condition variable in the running task's process, in the
/// first empty slot of the table or at its end, and returns the slot.
pub fn sys_condvar_create(kernel: &mut Kernel) -> (code: isize)
    requires
        old(kernel).wf(),
        old(kernel).has_current(),
        free_slot(old(kernel).current_process().condvar_list@) <= isize::MAX,
    ensures
        final(kernel).wf(),
        code == free_slot(old(kernel).current_process().condvar_list@),
        final(kernel).manager@ == old(kernel).manager@,
        final(kernel).processor == old(kernel).processor,
        final(kernel).others_unchanged(old(kernel), old(kernel).current_pid()),
        final(kernel).alive(old(kernel).current_pid()),
        ({
            let before = old(kernel).current_process();
            let after = final(kernel).process(old(kernel).current_pid());
            &&& before.same_identity(&after)
            &&& before.same_memory(&after)
            &&& before.same_threads(&after)
            &&& before.same_detection(&after)
            &&& after.mutex_list == before.mutex_list
            &&& after.semaphore_list == before.semaphore_list
            &&& installed_at(before.condvar_list@, after.condvar_list@, code as int)
            &&& after.condvar_list@[code as int]->0@.len() == 0
        }),
{
    let task = kernel.processor.current().unwrap();
    let pid = task.pid;
    let mut process = kernel.processes[pid].take().unwrap();
    let id = install(&mut process.condvar_list, Condvar::new());
    kernel.processes[pid] = Some(process);
    proof {
        assert(kernel.processes@ =~= old(kernel).processes@.update(
            pid as int,
            kernel.processes@[pid as int],
        ));
        kernel.lemma_process_replaced(old(kernel), pid as int);
    }
    id as isize
}

/// `signal` on the condition variable in slot `condvar_id`: its first
/// waiter, if any, joins the ready queue. No mutex changes hands.
pub fn sys_condvar_signal(kernel: &mut Kernel, condvar_id: usize) -> (code: isize)
    requires
        old(kernel).wf(),
        old(kernel).has_current(),
        old(kernel).has_condvar(condvar_id),
    ensures
        final(kernel).wf(),
        code == 0,
        final(kernel).processor == old(kernel).processor,
        final(kernel).others_unchanged(old(kernel), old(kernel).current_pid()),
        final(kernel).alive(old(kernel).current_pid()),
        ({
            let before = old(kernel).current_process();
            let after = final(kernel).process(old(kernel).current_pid());
            let waiters = before.condvar_list@[condvar_id as int]->0@;
            &&& before.same_identity(&after)
            &&& before.same_memory(&after)
            &&& before.same_threads(&after)
            &&& before.same_detection(&after)
            &&& after.mutex_list == before.mutex_list
            &&& after.semaphore_list == before.semaphore_list
            &&& same_except(before.condvar_list@, after.condvar_list@, condvar_id as int)
            &&& after.condvar_list@[condvar_id as int] is Some
            &&& after.condvar_list@[condvar_id as int]->0@ == if waiters.len() > 0 {
                waiters.subrange(1, waiters.len() as int)
            } else {
                waiters
            }
            &&& final(kernel).manager@ == match signalled(waiters) {
                Some(woken) => old(kernel).manager@.push(woken),
                None => old(kernel).manager@,
            }
        }),
{
    let task = kernel.processor.current().unwrap();
    let pid = task.pid;
    let mut process = kernel.processes[pid].take().unwrap();
    let mut condvar = process.condvar_list[condvar_id].take().unwrap();
    condvar.signal(&mut kernel.manager);
    process.condvar_list[condvar_id] = Some(condvar);
    kernel.processes[pid] = Some(process);
    proof {
        assert(kernel.processes@ =~= old(kernel).processes@.update(
            pid as int,
            kernel.processes@[pid as int],
        ));
        kernel.lemma_process_replaced(old(kernel), pid as int);
    }
    0
}

/// `wait` on the condition variable in slot `condvar_id` with the mutex in
/// slot `mutex_id`: the mutex is released as by `unlock`, and the running
/// task leaves the processor and waits in the condition variable's queue.
/// The deadlock detector takes no note of this release.
pub fn sys_condvar_wait(kernel: &mut Kernel, condvar_id: usize, mutex_id: usize) -> (code: isize)
    requires
        old(kernel).wf(),
        old(kernel).has_current(),
        old(kernel).has_condvar(condvar_id),
        old(kernel).has_mutex(mutex_id),
    ensures
        final(kernel).wf(),
        code == 0,
        final(kernel).processor.current is None,
        final(kernel).others_unchanged(old(kernel), old(kernel).current_pid()),
        final(kernel).alive(old(kernel).current_pid()),
        ({
            let before = old(kernel).current_process();
            let after = final(kernel).process(old(kernel).current_pid());
            let task = old(kernel).current_task();
            let mutex = before.mutex_list@[mutex_id as int]->0;
            &&& before.same_identity(&after)
            &&& before.same_memory(&after)
            &&& before.same_threads(&after)
            &&& before.same_detection(&after)
            &&& after.semaphore_list == before.semaphore_list
            &&& same_except(before.mutex_list@, after.mutex_list@, mutex_id as int)
            &&& after.mutex_list@[mutex_id as int] is Some
            &&& after.mutex_list@[mutex_id as int]->0.is_spin() == mutex.is_spin()
            &&& after.mutex_list@[mutex_id as int]->0@ == mutex@.unlock()
            &&& same_except(before.condvar_list@, after.condvar_list@, condvar_id as int)
            &&& after.condvar_list@[condvar_id as int] is Some
            &&& after.condvar_list@[condvar_id as int]->0@ == before.condvar_list@[condvar_id as int]->0@.push(
                task.with_status(TaskStatus::Blocked),
            )
            &&& final(kernel).manager@ == match mutex@.woken() {
                Some(woken) => old(kernel).manager@.push(woken),
                None => old(kernel).manager@,
            }
        }),
{
    let task = kernel.processor.current().unwrap();
    let pid = task.pid;
    let mut process = kernel.processes[pid].take().unwrap();
    let mut condvar = process.condvar_list[condvar_id].take().unwrap();
    let mut mutex = process.mutex_list[mutex_id].take().unwrap();
    condvar.wait(&mut mutex, &mut kernel.processor, &mut kernel.manager);
    process.mutex_list[mutex_id] = Some(mutex);
    process.condvar_list[condvar_id] = Some(condvar);
    kernel.processes[pid] = Some(process);
    proof {
        assert(kernel.processes@ =~= old(kernel).processes@.update(
            pid as int,
            kernel.processes@[pid as int],
        ));
        kernel.lemma_process_replaced(old(kernel), pid as int);
    }
    0
}

/// Switches deadlock detection for the running task's process on (`1`) or
/// off (`0`). Any other value is refused with `FAILURE` and changes nothing.
pub fn sys_enable_deadlock_detect(kernel: &mut Kernel, enabled: usize) -> (code: isize)
    requires
        old(kernel).wf(),
        old(kernel).has_current(),
    ensures
        final(kernel).wf(),
        code == if enabled == 0 || enabled == 1 {
            0
        } else {
            FAILURE
        },
        final(kernel).manager@ == old(kernel).manager@,
        final(kernel).processor == old(kernel).processor,
        final(kernel).others_unchanged(old(kernel), old(kernel).current_pid()),
        final(kernel).alive(old(kernel).current_pid()),
        ({
            let before = old(kernel).current_process();
            let after = final(kernel).process(old(kernel).current_pid());
            &&& before.same_identity(&after)
            &&& before.same_memory(&after)
            &&& before.same_threads(&after)
            &&& before.same_primitives(&after)
            &&& after.detector == before.detector
            &&& after.deadlock_test == if enabled == 0 || enabled == 1 {
                enabled == 1
            } else {
                before.deadlock_test
            }
        }),
{
    if enabled == 0 || enabled == 1 {
        let task = kernel.processor.current().unwrap();
        let pid = task.pid;
        let mut process = kernel.processes[pid].take().unwrap();
        process.deadlock_test = enabled == 1;
        kernel.processes[pid] = Some(process);
        proof {
            assert(kernel.processes@ =~= old(kernel).processes@.update(
                pid as int,
                kernel.processes@[pid as int],
            ));
            kernel.lemma_process_replaced(old(kernel), pid as int);
        }
        return 0;
    }
    FAILURE
}

/// Puts the running task to sleep for `ms` milliseconds, `now_ms` being the
/// time of the call: the task leaves the processor and is kept, blocked,
/// among the sleepers of its process with the time at which the timer is to
/// wake it.
pub fn sys_sleep(kernel: &mut Kernel, ms: usize, now_ms: usize) -> (code: isize)
    requires
        old(kernel).wf(),
        old(kernel).has_current(),
        now_ms + ms <= usize::MAX,
    ensures
        final(kernel).wf(),
        code == 0,
        final(kernel).manager@ == old(kernel).manager@,
        final(kernel).processor.current is None,
        final(kernel).others_unchanged(old(kernel), old(kernel).current_pid()),
        final(kernel).alive(old(kernel).current_pid()),
        ({
            let before = old(kernel).current_process();
            let after = final(kernel).process(old(kernel).current_pid());
            let task = old(kernel).current_task();
            &&& before.same_identity(&after)
            &&& before.same_memory(&after)
            &&& before.same_primitives(&after)
            &&& before.same_detection(&after)
            &&& after.thread_count == before.thread_count
            &&& after.exited == before.exited
            &&& after.sleepers@ == before.sleepers@.push(
                (Sleeper {
                    expire_ms: (now_ms + ms) as usize,
                    task: task.with_status(TaskStatus::Blocked),
                }),
            )
        }),
{
    let expire_ms = now_ms + ms;
    let taken = kernel.processor.take_current();
    let mut task = taken.unwrap();
    let pid = task.pid;
    task.task_status = TaskStatus::Blocked;
    let mut process = kernel.processes[pid].take().unwrap();
    process.sleepers.push(Sleeper { expire_ms, task });
    kernel.processes[pid] = Some(process);
    proof {
        assert(kernel.processes@ =~= old(kernel).processes@.update(
            pid as int,
            kernel.processes@[pid as int],
        ));
        kernel.lemma_process_replaced(old(kernel), pid as int);
    }
    0
}

} // verus!
