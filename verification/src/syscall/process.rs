//! Operations on processes, their memory and their scheduling.

use vstd::prelude::*;
use std::collections::VecDeque;
use crate::config::{FAILURE, MAX_SYSCALL_NUM, MIN_PRIORITY, PAGE_SIZE, STILL_RUNNING};
use crate::kernel::Kernel;
use crate::process::free_slot;
use crate::task::{TaskControlBlock, TaskStatus};

verus! {

/// A point in time as whole seconds and the microseconds beyond them.
#[derive(Debug)]
pub struct TimeVal {
    pub sec: usize,
    pub usec: usize,
}

/// What a task may learn about itself.
#[derive(Debug)]
pub struct TaskInfo {
    /// Where the task stands in its life cycle.
    pub status: TaskStatus,
    /// How often the task has issued each syscall.
    pub syscall_times: [u32; MAX_SYSCALL_NUM],
    /// Milliseconds since the task was created.
    pub time: usize,
}

/// A mapping request is acceptable: `start` is a multiple of the page size,
/// and the permissions `prot` have at least one of their three low bits set
/// and none above.
pub open spec fn mmap_acceptable(start: usize, prot: usize) -> bool {
    &&& start % PAGE_SIZE == 0
    &&& prot & !0x7usize == 0
    &&& prot & 0x7usize != 0
}

/// The permissions that a mapping request may carry are the values from 1
/// to 7.
pub proof fn lemma_permissions(prot: usize)
    ensures
        (prot & !0x7usize == 0 && prot & 0x7usize != 0) <==> 1 <= prot <= 7,
{
    assert((prot & !0x7usize == 0 && prot & 0x7usize != 0) <==> 1 <= prot <= 7) by (bit_vector);
}

/// An unmapping request is acceptable: `start` and `len` are multiples of
/// the page size.
pub open spec fn munmap_acceptable(start: usize, len: usize) -> bool {
    &&& start % PAGE_SIZE == 0
    &&& len % PAGE_SIZE == 0
}

/// Splits the clock reading `now_us`, in microseconds, into `ts`.
pub fn sys_get_time(ts: &mut TimeVal, _tz: usize, now_us: usize) -> (code: isize)
    ensures
        code == 0,
        final(ts).sec == now_us / 1_000_000,
        final(ts).usec == now_us % 1_000_000,
        final(ts).sec * 1_000_000 + final(ts).usec == now_us,
{
    ts.sec = now_us / 1_000_000;
    ts.usec = now_us % 1_000_000;
    0
}

/// Fills `ti` with the running task's status, its syscall counters, and the
/// time it has existed at the clock reading `now_ms`, in milliseconds.
pub fn sys_task_info(kernel: &Kernel, ti: &mut TaskInfo, now_ms: usize) -> (code: isize)
    requires
        kernel.has_current(),
        kernel.current_task().start_time <= now_ms,
    ensures
        code == 0,
        final(ti).status == kernel.current_task().task_status,
        final(ti).syscall_times == kernel.current_task().syscall_times,
        final(ti).time == now_ms - kernel.current_task().start_time,
{
    let task = kernel.processor.current().unwrap();
    ti.status = task.task_status;
    ti.syscall_times = task.syscall_times;
    ti.time = now_ms - task.start_time;
    0
}

/// Checks a mapping request: `0` for one that is acceptable and is to be
/// carried out by the address space, `FAILURE` for one that is not.
pub fn sys_mmap(start: usize, _len: usize, prot: usize) -> (code: isize)
    ensures
        code == if mmap_acceptable(start, prot) {
            0
        } else {
            FAILURE
        },
{
    if (start % PAGE_SIZE != 0) || (prot & !0x7 != 0) || (prot & 0x7 == 0) {
        return FAILURE;
    }
    0
}

/// Checks an unmapping request: `0` for one that is acceptable and is to be
/// carried out by the address space, `FAILURE` for one that is not.
pub fn sys_munmap(start: usize, len: usize) -> (code: isize)
    ensures
        code == if munmap_acceptable(start, len) {
            0
        } else {
            FAILURE
        },
{
    if start % PAGE_SIZE != 0 || len % PAGE_SIZE != 0 {
        return FAILURE;
    }
    0
}

/// Where the break `brk` lands when it is moved by `size` bytes, if that is
/// not below `heap_bottom` and not beyond what a return value can hold.
pub open spec fn brk_moved(heap_bottom: usize, brk: usize, size: i32) -> Option<usize> {
    if heap_bottom <= brk + size <= isize::MAX {
        Some((brk + size) as usize)
    } else {
        None
    }
}

/// A move of the break that succeeded is undone by the opposite move.
pub proof fn lemma_sbrk_round_trip(heap_bottom: usize, brk: usize, size: i32)
    requires
        heap_bottom <= brk <= isize::MAX,
        size > i32::MIN,
        brk_moved(heap_bottom, brk, size) is Some,
    ensures
        brk_moved(heap_bottom, brk_moved(heap_bottom, brk, size)->0, (-size) as i32) == Some(brk),
{
}

/// Moves the program break of the running task's process by `size` bytes
/// and returns the break as it was. A move that would leave the heap is
/// refused with `FAILURE` and changes nothing.
pub fn sys_sbrk(kernel: &mut Kernel, size: i32) -> (code: isize)
    requires
        old(kernel).wf(),
        old(kernel).has_current(),
    ensures
        final(kernel).wf(),
        final(kernel).manager@ == old(kernel).manager@,
        final(kernel).processor == old(kernel).processor,
        final(kernel).others_unchanged(old(kernel), old(kernel).current_pid()),
        final(kernel).alive(old(kernel).current_pid()),
        ({
            let before = old(kernel).current_process();
            let after = final(kernel).process(old(kernel).current_pid());
            let moved = brk_moved(before.heap_bottom, before.program_brk, size);
            &&& before.same_identity(&after)
            &&& before.same_threads(&after)
            &&& before.same_primitives(&after)
            &&& before.same_detection(&after)
            &&& after.image == before.image
            &&& after.heap_bottom == before.heap_bottom
            &&& code == if moved is Some {
                before.program_brk as isize
            } else {
                FAILURE
            }
            &&& after.program_brk == if moved is Some {
                moved->0
            } else {
                before.program_brk
            }
        }),
{
    let task = kernel.processor.current().unwrap();
    let pid = task.pid;
    let mut process = kernel.processes[pid].take().unwrap();
    let old_brk = process.program_brk;
    let new_brk: i128 = old_brk as i128 + size as i128;
    let code = if new_brk < process.heap_bottom as i128 || new_brk > isize::MAX as i128 {
        FAILURE
    } else {
        process.program_brk = new_brk as usize;
        old_brk as isize
    };
    kernel.processes[pid] = Some(process);
    proof {
        assert(kernel.processes@ =~= old(kernel).processes@.update(
            pid as int,
            kernel.processes@[pid as int],
        ));
        kernel.lemma_process_replaced(old(kernel), pid as int);
    }
    code
}

/// Sets the priority of the running task to `prio` and returns it. A
/// priority below `MIN_PRIORITY`, which is 2, is refused with `FAILURE` and changes nothing.
pub fn sys_set_priority(kernel: &mut Kernel, prio: isize) -> (code: isize)
    requires
        old(kernel).wf(),
        old(kernel).has_current(),
    ensures
        final(kernel).wf(),
        code == if prio >= MIN_PRIORITY {
            prio
        } else {
            FAILURE
        },
        final(kernel).manager@ == old(kernel).manager@,
        final(kernel).processes@ == old(kernel).processes@,
        final(kernel).processor.current == Some(
            if prio >= MIN_PRIORITY {
                TaskControlBlock { priority: prio, ..old(kernel).current_task() }
            } else {
                old(kernel).current_task()
            },
        ),
{
    if prio >= MIN_PRIORITY {
        let taken = kernel.processor.take_current();
        let mut task = taken.unwrap();
        task.priority = prio;
        kernel.processor.current = Some(task);
        proof {
            kernel.lemma_same_processes(old(kernel));
        }
        prio
    } else {
        FAILURE
    }
}

/// The pid of the running task's process.
pub fn sys_getpid(kernel: &Kernel) -> (code: isize)
    requires
        kernel.wf(),
        kernel.has_current(),
    ensures
        code == kernel.current_task().pid,
{
    let task = kernel.processor.current().unwrap();
    task.pid as isize
}

/// The running task gives up the processor: it is marked ready and goes to
/// the tail of the ready queue.
pub fn sys_yield(kernel: &mut Kernel) -> (code: isize)
    requires
        old(kernel).wf(),
        old(kernel).has_current(),
    ensures
        final(kernel).wf(),
        code == 0,
        final(kernel).processor.current is None,
        final(kernel).manager@ == old(kernel).manager@.push(
            old(kernel).current_task().with_status(TaskStatus::Ready),
        ),
        final(kernel).processes@ == old(kernel).processes@,
{
    let taken = kernel.processor.take_current();
    let mut task = taken.unwrap();
    task.task_status = TaskStatus::Ready;
    kernel.manager.add(task);
    proof {
        kernel.lemma_same_processes(old(kernel));
    }
    0
}

/// Replaces the program of the running task's process by `image`, the
/// content of the file that was asked for, and returns `0`. Without an
/// image (the file was not found) nothing changes and the result is
/// `FAILURE`.
pub fn sys_exec(kernel: &mut Kernel, image: Option<Vec<u8>>) -> (code: isize)
    requires
        old(kernel).wf(),
        old(kernel).has_current(),
    ensures
        final(kernel).wf(),
        code == if image is Some {
            0
        } else {
            FAILURE
        },
        final(kernel).manager@ == old(kernel).manager@,
        final(kernel).processor == old(kernel).processor,
        final(kernel).others_unchanged(old(kernel), old(kernel).current_pid()),
        final(kernel).alive(old(kernel).current_pid()),
        ({
            let before = old(kernel).current_process();
            let after = final(kernel).process(old(kernel).current_pid());
            &&& before.same_identity(&after)
            &&& before.same_threads(&after)
            &&& before.same_primitives(&after)
            &&& before.same_detection(&after)
            &&& after.heap_bottom == before.heap_bottom
            &&& after.program_brk == before.program_brk
            &&& after.image == if image is Some {
                image->0
            } else {
                before.image
            }
        }),
{
    match image {
        Some(data) => {
            let task = kernel.processor.current().unwrap();
            let pid = task.pid;
            let mut process = kernel.processes[pid].take().unwrap();
            process.image = data;
            kernel.processes[pid] = Some(process);
            proof {
                assert(kernel.processes@ =~= old(kernel).processes@.update(
                    pid as int,
                    kernel.processes@[pid as int],
                ));
                kernel.lemma_process_replaced(old(kernel), pid as int);
            }
            0
        },
        None => {
            FAILURE
        },
    }
}

/// Forks the running task's process: the child runs a copy of the parent's
/// program and its one task, created at `now_ms`, joins the ready queue with
/// a zero in its return register. Returns the child's pid, which is
/// positive.
pub fn sys_fork(kernel: &mut Kernel, now_ms: usize) -> (code: isize)
    requires
        old(kernel).wf(),
        old(kernel).has_current(),
        free_slot(old(kernel).processes@) < isize::MAX,
    ensures
        final(kernel).wf(),
        code > 0,
        final(kernel).child_added(
            old(kernel),
            code as int,
            old(kernel).current_process().image@,
            now_ms,
        ),
{
    let task = kernel.processor.current().unwrap();
    let image = match &kernel.processes[task.pid] {
        Some(parent) => parent.image.clone(),
        None => Vec::new(),
    };
    let child = kernel.add_child(image, now_ms);
    child as isize
}

/// Starts the program `image`, the content of the file that was asked for,
/// in a new child of the running task's process, and returns the child's
/// pid. Without an image (the file was not found) no process and no task is
/// created, and the result is `FAILURE`.
pub fn sys_spawn(kernel: &mut Kernel, image: Option<Vec<u8>>, now_ms: usize) -> (code: isize)
    requires
        old(kernel).wf(),
        old(kernel).has_current(),
        image is Some ==> free_slot(old(kernel).processes@) < isize::MAX,
    ensures
        final(kernel).wf(),
        image is None ==> {
            &&& code == FAILURE
            &&& final(kernel).manager@ == old(kernel).manager@
            &&& final(kernel).processor == old(kernel).processor
            &&& final(kernel).processes@ == old(kernel).processes@
        },
        image is Some ==> {
            &&& code > 0
            &&& final(kernel).child_added(old(kernel), code as int, image->0@, now_ms)
        },
{
    match image {
        Some(data) => {
            let child = kernel.add_child(data, now_ms);
            child as isize
        },
        None => FAILURE,
    }
}

/// A child with pid `child` passes the filter `pid` of a wait: `-1` lets
/// every child pass, any other value only the child with that pid.
pub open spec fn child_matches(pid: isize, child: usize) -> bool {
    pid == -1 || pid == child
}

impl Kernel {
    /// The running task's process has a child that passes the filter `pid`.
    pub open spec fn has_matching_child(&self, pid: isize) -> bool {
        exists|k: int|
            0 <= k < self.current_process().children@.len() && child_matches(
                pid,
                #[trigger] self.current_process().children@[k],
            )
    }

    /// The child at position `k` of the running task's process passes the
    /// filter `pid` and has exited.
    pub open spec fn reapable(&self, pid: isize, k: int) -> bool {
        &&& 0 <= k < self.current_process().children@.len()
        &&& child_matches(pid, self.current_process().children@[k])
        &&& self.process(self.current_process().children@[k] as int).is_zombie
    }

    /// Position `k` holds the first child that can be reaped under the
    /// filter `pid`.
    pub open spec fn first_reapable(&self, pid: isize, k: int) -> bool {
        &&& self.reapable(pid, k)
        &&& forall|j: int| 0 <= j < k ==> !#[trigger] self.reapable(pid, j)
    }

    /// Some child can be reaped under the filter `pid`.
    pub open spec fn has_reapable(&self, pid: isize) -> bool {
        exists|k: int| #[trigger] self.reapable(pid, k)
    }
}

/// Waits for a child of the running task's process; `pid` names the child,
/// or is `-1` for any child.
///
/// - No child passes the filter: `FAILURE`, nothing changes.
/// - Children pass, but none of them has exited: `STILL_RUNNING`, nothing
///   changes.
/// - Otherwise the first child on the list that passes and has exited is
///   reaped: it leaves the list and the process table, its exit code is
///   written to `exit_code`, and its pid is returned.
pub fn sys_waitpid(kernel: &mut Kernel, pid: isize, exit_code: &mut i32) -> (code: isize)
    requires
        old(kernel).wf(),
        old(kernel).has_current(),
    ensures
        final(kernel).wf(),
        final(kernel).manager@ == old(kernel).manager@,
        final(kernel).processor == old(kernel).processor,
        !old(kernel).has_matching_child(pid) ==> {
            &&& code == FAILURE
            &&& final(kernel).processes@ == old(kernel).processes@
            &&& *final(exit_code) == *old(exit_code)
        },
        old(kernel).has_matching_child(pid) && !old(kernel).has_reapable(pid) ==> {
            &&& code == STILL_RUNNING
            &&& final(kernel).processes@ == old(kernel).processes@
            &&& *final(exit_code) == *old(exit_code)
        },
        old(kernel).has_reapable(pid) ==> {
            let before = old(kernel).current_process();
            let after = final(kernel).process(old(kernel).current_pid());
            &&& 0 < code < old(kernel).processes@.len()
            &&& exists|k: int|
                {
                    &&& #[trigger] old(kernel).first_reapable(pid, k)
                    &&& code == before.children@[k]
                    &&& after.children@ == before.children@.remove(k)
                }
            &&& *final(exit_code) == old(kernel).process(code as int).exit_code
            &&& final(kernel).processes@.len() == old(kernel).processes@.len()
            &&& final(kernel).processes@[code as int] is None
            &&& forall|i: int|
                0 <= i < old(kernel).processes@.len() && i != code && i != old(
                    kernel,
                ).current_pid() ==> final(kernel).processes@[i] == old(kernel).processes@[i]
            &&& final(kernel).alive(old(kernel).current_pid())
            &&& after.pid == before.pid
            &&& after.parent == before.parent
            &&& after.is_zombie == before.is_zombie
            &&& after.exit_code == before.exit_code
            &&& before.same_memory(&after)
            &&& before.same_threads(&after)
            &&& before.same_primitives(&after)
            &&& before.same_detection(&after)
        },
{
    let task = kernel.processor.current().unwrap();
    let parent_pid = task.pid;
    let mut parent = kernel.processes[parent_pid].take().unwrap();
    let ghost kids = parent.children@;
    let n = parent.children.len();
    let mut matched = false;
    let mut found: Option<usize> = None;
    let mut k: usize = 0;
    while k < n && found.is_none()
        invariant
            k <= n,
            n == kids.len(),
            kids == parent.children@,
            kids == old(kernel).current_process().children@,
            old(kernel).wf(),
            old(kernel).has_current(),
            parent_pid == old(kernel).current_pid(),
            kernel.processes@ == old(kernel).processes@.update(parent_pid as int, None),
            matched <==> exists|j: int| 0 <= j < k && child_matches(pid, #[trigger] kids[j]),
            found is None ==> forall|j: int| 0 <= j < k ==> !#[trigger] old(kernel).reapable(pid, j),
            found is Some ==> k > 0 && found->0 == k - 1 && old(kernel).first_reapable(
                pid,
                k - 1,
            ),
        decreases n - k,
    {
        let child = parent.children[k];
        if pid == -1 || (pid >= 0 && pid as usize == child) {
            matched = true;
            let zombie = match &kernel.processes[child] {
                Some(process) => process.is_zombie,
                None => false,
            };
            if zombie {
                found = Some(k);
            }
        }
        k = k + 1;
    }
    match found {
        Some(idx) => {
            let child = parent.children.remove(idx);
            let reaped = kernel.processes[child].take();
            *exit_code = match reaped {
                Some(process) => process.exit_code,
                None => 0,
            };
            kernel.processes[parent_pid] = Some(parent);
            proof {
                assert forall|q: int| #[trigger] kernel.alive(q) implies old(kernel).alive(q) && q
                    != child by {}
            }
            child as isize
        },
        None => {
            kernel.processes[parent_pid] = Some(parent);
            proof {
                assert(kernel.processes@ =~= old(kernel).processes@);
                kernel.lemma_same_processes(old(kernel));
            }
            if matched {
                STILL_RUNNING
            } else {
                FAILURE
            }
        },
    }
}

/// The tasks of `queue` that do not belong to process `pid`, in order.
pub open spec fn without_process(queue: Seq<TaskControlBlock>, pid: usize) -> Seq<
    TaskControlBlock,
>
    decreases queue.len(),
{
    if queue.len() == 0 {
        Seq::empty()
    } else if queue.last().pid == pid {
        without_process(queue.drop_last(), pid)
    } else {
        without_process(queue.drop_last(), pid).push(queue.last())
    }
}

/// The tasks of `queue` that belong to process `pid`, in order, each marked
/// as a zombie.
pub open spec fn ended_with_process(queue: Seq<TaskControlBlock>, pid: usize) -> Seq<
    TaskControlBlock,
>
    decreases queue.len(),
{
    if queue.len() == 0 {
        Seq::empty()
    } else if queue.last().pid == pid {
        ended_with_process(queue.drop_last(), pid).push(
            queue.last().with_status(TaskStatus::Zombie),
        )
    } else {
        ended_with_process(queue.drop_last(), pid)
    }
}

/// What is left of a ready queue without the tasks of one process holds
/// only tasks of the queue, none of them of that process.
pub proof fn lemma_without_process(queue: Seq<TaskControlBlock>, pid: usize)
    ensures
        forall|i: int|
            0 <= i < without_process(queue, pid).len() ==> {
                &&& (#[trigger] without_process(queue, pid)[i]).pid != pid
                &&& queue.contains(without_process(queue, pid)[i])
            },
    decreases queue.len(),
{
    if queue.len() > 0 {
        lemma_without_process(queue.drop_last(), pid);
    }
}

/// The running task ends its process with `exit_code`.
///
/// The process becomes a zombie that keeps the exit code for its parent.
/// The task leaves the processor; it and every task of the process that
/// stood in the ready queue are marked as zombies and kept with the process
/// until it is reaped. Primitives that the task held stay as they are.
pub fn sys_exit(kernel: &mut Kernel, exit_code: i32)
    requires
        old(kernel).wf(),
        old(kernel).has_current(),
    ensures
        final(kernel).wf(),
        final(kernel).processor.current is None,
        final(kernel).manager@ == without_process(
            old(kernel).manager@,
            old(kernel).current_task().pid,
        ),
        final(kernel).others_unchanged(old(kernel), old(kernel).current_pid()),
        final(kernel).alive(old(kernel).current_pid()),
        ({
            let before = old(kernel).current_process();
            let after = final(kernel).process(old(kernel).current_pid());
            let task = old(kernel).current_task();
            &&& after.pid == before.pid
            &&& after.parent == before.parent
            &&& after.children == before.children
            &&& after.is_zombie
            &&& after.exit_code == exit_code
            &&& before.same_memory(&after)
            &&& before.same_primitives(&after)
            &&& before.same_detection(&after)
            &&& after.thread_count == before.thread_count
            &&& after.sleepers == before.sleepers
            &&& after.exited@ == before.exited@.push(task.ended(exit_code)) + ended_with_process(
                old(kernel).manager@,
                task.pid,
            )
        }),
{
    let taken = kernel.processor.take_current();
    let mut task = taken.unwrap();
    let pid = task.pid;
    task.task_status = TaskStatus::Zombie;
    task.exit_code = exit_code;
    let mut process = kernel.processes[pid].take().unwrap();
    process.is_zombie = true;
    process.exit_code = exit_code;
    process.exited.push(task);
    let ghost queue = kernel.manager@;
    let ghost base = process.exited@;
    let n = kernel.manager.ready_queue.len();
    let mut kept: VecDeque<TaskControlBlock> = VecDeque::new();
    let mut i: usize = 0;
    while i < n
        invariant
            i <= n,
            n == queue.len(),
            queue == kernel.manager@,
            queue == old(kernel).manager@,
            kept@ == without_process(queue.take(i as int), pid),
            process.exited@ == base + ended_with_process(queue.take(i as int), pid),
            process.pid == old(kernel).current_process().pid,
            process.parent == old(kernel).current_process().parent,
            process.children == old(kernel).current_process().children,
            process.is_zombie,
            process.exit_code == exit_code,
            old(kernel).current_process().same_memory(&process),
            old(kernel).current_process().same_primitives(&process),
            old(kernel).current_process().same_detection(&process),
            process.thread_count == old(kernel).current_process().thread_count,
            process.sleepers == old(kernel).current_process().sleepers,
        decreases n - i,
    {
        let queued = kernel.manager.ready_queue[i];
        proof {
            assert(queue.take(i as int + 1).drop_last() =~= queue.take(i as int));
        }
        if queued.pid == pid {
            let mut ended = queued;
            ended.task_status = TaskStatus::Zombie;
            process.exited.push(ended);
        } else {
            kept.push_back(queued);
        }
        i = i + 1;
    }
    kernel.manager.ready_queue = kept;
    kernel.processes[pid] = Some(process);
    proof {
        assert(queue.take(n as int) =~= queue);
        assert(kernel.processes@ =~= old(kernel).processes@.update(
            pid as int,
            kernel.processes@[pid as int],
        ));
        kernel.lemma_process_replaced(old(kernel), pid as int);
        lemma_without_process(queue, pid);
    }
}

/// Starts a new thread in the running task's process: its task, created at
/// `now_ms`, takes the next thread slot of the process and joins the ready
/// queue. Returns the thread slot.
pub fn sys_thread_create(kernel: &mut Kernel, now_ms: usize) -> (code: isize)
    requires
        old(kernel).wf(),
        old(kernel).has_current(),
        old(kernel).current_process().thread_count < isize::MAX,
    ensures
        final(kernel).wf(),
        code == old(kernel).current_process().thread_count,
        final(kernel).processor == old(kernel).processor,
        final(kernel).manager@.len() == old(kernel).manager@.len() + 1,
        final(kernel).manager@.drop_last() == old(kernel).manager@,
        final(kernel).manager@.last().is_fresh(
            old(kernel).current_task().pid,
            code as usize,
            now_ms,
        ),
        final(kernel).others_unchanged(old(kernel), old(kernel).current_pid()),
        final(kernel).alive(old(kernel).current_pid()),
        ({
            let before = old(kernel).current_process();
            let after = final(kernel).process(old(kernel).current_pid());
            &&& before.same_identity(&after)
            &&& before.same_memory(&after)
            &&& before.same_primitives(&after)
            &&& before.same_detection(&after)
            &&& after.sleepers == before.sleepers
            &&& after.exited == before.exited
            &&& after.thread_count == before.thread_count + 1
        }),
{
    let task = kernel.processor.current().unwrap();
    let pid = task.pid;
    let mut process = kernel.processes[pid].take().unwrap();
    let tid = process.thread_count;
    process.thread_count = tid + 1;
    kernel.processes[pid] = Some(process);
    kernel.manager.add(TaskControlBlock::new(pid, tid, now_ms));
    proof {
        assert(kernel.processes@ =~= old(kernel).processes@.update(
            pid as int,
            kernel.processes@[pid as int],
        ));
        kernel.lemma_process_replaced(old(kernel), pid as int);
    }
    tid as isize
}

} // verus!
