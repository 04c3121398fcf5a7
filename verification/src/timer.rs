//! The way back for a sleeping task: what the timer calls when a deadline
//! has passed.

use vstd::prelude::*;
use crate::kernel::Kernel;
use crate::process::Sleeper;
use crate::task::TaskStatus;

verus! {

/// Position `k` holds the first sleeper whose task has thread slot `tid`.
pub open spec fn is_first_sleeper(sleepers: Seq<Sleeper>, tid: usize, k: int) -> bool {
    &&& 0 <= k < sleepers.len()
    &&& sleepers[k].task.tid == tid
    &&& forall|j: int| 0 <= j < k ==> (#[trigger] sleepers[j]).task.tid != tid
}

impl Kernel {
    /// Process `pid` exists, has not exited, and has a sleeping task with
    /// thread slot `tid`.
    pub open spec fn can_wake(&self, pid: usize, tid: usize) -> bool {
        &&& self.alive(pid as int)
        &&& !self.process(pid as int).is_zombie
        &&& exists|k: int| is_first_sleeper(self.process(pid as int).sleepers@, tid, k)
    }
}

/// Makes the sleeping task with thread slot `tid` of process `pid` ready
/// again: it leaves the sleepers of its process, is marked ready and goes to
/// the tail of the ready queue. Reports whether there was such a task; if
/// not, or if the process is gone or has exited, nothing changes.
pub fn wakeup_task(kernel: &mut Kernel, pid: usize, tid: usize) -> (woken: bool)
    requires
        old(kernel).wf(),
    ensures
        final(kernel).wf(),
        woken == old(kernel).can_wake(pid, tid),
        final(kernel).processor == old(kernel).processor,
        !woken ==> {
            &&& final(kernel).manager@ == old(kernel).manager@
            &&& final(kernel).processes@ == old(kernel).processes@
        },
        woken ==> {
            let before = old(kernel).process(pid as int);
            let after = final(kernel).process(pid as int);
            &&& final(kernel).others_unchanged(old(kernel), pid as int)
            &&& final(kernel).alive(pid as int)
            &&& before.same_identity(&after)
            &&& before.same_memory(&after)
            &&& before.same_primitives(&after)
            &&& before.same_detection(&after)
            &&& after.thread_count == before.thread_count
            &&& after.exited == before.exited
            &&& exists|k: int|
                {
                    &&& #[trigger] is_first_sleeper(before.sleepers@, tid, k)
                    &&& after.sleepers@ == before.sleepers@.remove(k)
                    &&& final(kernel).manager@ == old(kernel).manager@.push(
                        before.sleepers@[k].task.with_status(TaskStatus::Ready),
                    )
                }
        },
{
    if pid >= kernel.processes.len() {
        return false;
    }
    let mut process = match kernel.processes[pid].take() {
        Some(process) => process,
        None => {
            proof {
                assert(kernel.processes@ =~= old(kernel).processes@);
                kernel.lemma_same_processes(old(kernel));
            }
            return false;
        },
    };
    assert(old(kernel).alive(pid as int));
    let ghost sleepers = process.sleepers@;
    let n = process.sleepers.len();
    let mut k: usize = 0;
    while k < n && process.sleepers[k].task.tid != tid
        invariant
            k <= n,
            n == sleepers.len(),
            sleepers == process.sleepers@,
            forall|j: int| 0 <= j < k ==> (#[trigger] sleepers[j]).task.tid != tid,
        decreases n - k,
    {
        k = k + 1;
    }
    if process.is_zombie || k >= n {
        kernel.processes[pid] = Some(process);
        proof {
            assert(kernel.processes@ =~= old(kernel).processes@);
            kernel.lemma_same_processes(old(kernel));
        }
        return false;
    }
    let sleeper = process.sleepers.remove(k);
    let mut task = sleeper.task;
    task.task_status = TaskStatus::Ready;
    kernel.processes[pid] = Some(process);
    kernel.manager.add(task);
    proof {
        assert(is_first_sleeper(sleepers, tid, k as int));
        assert(kernel.processes@ =~= old(kernel).processes@.update(
            pid as int,
            kernel.processes@[pid as int],
        ));
        kernel.lemma_process_replaced(old(kernel), pid as int);
    }
    true
}

} // verus!
