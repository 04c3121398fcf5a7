//! The state of the kernel core as one owned value: the ready queue, the
//! processor and the process table.

use vstd::prelude::*;
use crate::manager::TaskManager;
use crate::process::{find_free_slot, free_slot, ProcessControlBlock};
use crate::processor::Processor;
use crate::task::{TaskControlBlock, TaskStatus};

verus! {

/// The whole state that the kernel core works on.
///
/// A process is known by its slot in `processes`; the slot is its pid.
pub struct Kernel {
    pub manager: TaskManager,
    pub processor: Processor,
    pub processes: Vec<Option<ProcessControlBlock>>,
}

impl Kernel {
    /// There is a process with this pid.
    pub open spec fn alive(&self, pid: int) -> bool {
        0 <= pid < self.processes@.len() && self.processes@[pid] is Some
    }

    /// The process with this pid.
    pub open spec fn process(&self, pid: int) -> ProcessControlBlock {
        self.processes@[pid]->0
    }

    /// `task` may stand in the ready queue or on the processor: its priority
    /// is valid and its process exists and has not exited.
    pub open spec fn runnable(&self, task: TaskControlBlock) -> bool {
        &&& task.wf()
        &&& self.alive(task.pid as int)
        &&& !self.process(task.pid as int).is_zombie
    }

    /// The process table is not empty and not larger than a pid can name;
    /// the first process exists; every process sits in the slot of its pid
    /// and is consistent in itself.
    pub open spec fn table_wf(&self) -> bool {
        &&& 0 < self.processes@.len() <= isize::MAX
        &&& self.alive(0)
        &&& forall|pid: int| #[trigger]
            self.alive(pid) ==> self.process(pid).pid == pid && self.process(pid).wf()
    }

    /// `child` is a proper child of process `pid`: it exists, names `pid`
    /// as its parent, and is neither the first process nor `pid` itself.
    pub open spec fn is_child_of(&self, child: usize, pid: int) -> bool {
        &&& child != 0
        &&& child != pid
        &&& self.alive(child as int)
        &&& self.process(child as int).parent == Some(pid as usize)
    }

    /// The list of children of process `pid` holds proper children of
    /// `pid`, each of them once.
    pub open spec fn children_wf(&self, pid: int) -> bool {
        &&& self.process(pid).children@.no_duplicates()
        &&& forall|k: int|
            0 <= k < self.process(pid).children@.len() ==> self.is_child_of(
                #[trigger] self.process(pid).children@[k],
                pid,
            )
    }

    /// Every process has a consistent list of children.
    pub open spec fn family_wf(&self) -> bool {
        forall|pid: int| #[trigger] self.alive(pid) ==> self.children_wf(pid)
    }

    /// Every task in the ready queue is ready and may run.
    pub open spec fn ready_wf(&self) -> bool {
        forall|i: int|
            0 <= i < self.manager@.len() ==> {
                &&& self.runnable(#[trigger] self.manager@[i])
                &&& self.manager@[i].task_status == TaskStatus::Ready
            }
    }

    /// The task on the processor, if any, is running and may run.
    pub open spec fn current_wf(&self) -> bool {
        self.processor.current is Some ==> {
            &&& self.runnable(self.processor.current->0)
            &&& self.processor.current->0.task_status == TaskStatus::Running
        }
    }

    /// The invariant of the kernel state.
    pub open spec fn wf(&self) -> bool {
        &&& self.table_wf()
        &&& self.family_wf()
        &&& self.ready_wf()
        &&& self.current_wf()
    }

    /// A task is running.
    pub open spec fn has_current(&self) -> bool {
        self.processor.current is Some
    }

    /// The running task.
    pub open spec fn current_task(&self) -> TaskControlBlock {
        self.processor.current->0
    }

    /// The pid of the running task's process.
    pub open spec fn current_pid(&self) -> int {
        self.processor.current->0.pid as int
    }

    /// The process of the running task.
    pub open spec fn current_process(&self) -> ProcessControlBlock {
        self.process(self.current_pid())
    }

    /// Every process but `pid` is what it was in `before`.
    pub open spec fn others_unchanged(&self, before: &Kernel, pid: int) -> bool {
        &&& self.processes@.len() == before.processes@.len()
        &&& forall|i: int|
            0 <= i < before.processes@.len() && i != pid ==> self.processes@[i]
                == before.processes@[i]
    }

    /// The kernel at boot: the first process, pid 0, with the given program,
    /// and its one task waiting in the ready queue.
    pub fn new(image: Vec<u8>, heap_bottom: usize, now_ms: usize) -> (kernel: Self)
        requires
            heap_bottom <= isize::MAX,
        ensures
            kernel.wf(),
            !kernel.has_current(),
            kernel.processes@.len() == 1,
            kernel.alive(0),
            kernel.process(0).is_fresh(0, None),
            kernel.process(0).image == image,
            kernel.process(0).heap_bottom == heap_bottom,
            kernel.process(0).program_brk == heap_bottom,
            kernel.manager@.len() == 1,
            kernel.manager@[0].is_fresh(0, 0, now_ms),
    {
        let process = ProcessControlBlock::new(0, None, image, heap_bottom, heap_bottom);
        let mut processes: Vec<Option<ProcessControlBlock>> = Vec::new();
        processes.push(Some(process));
        let mut manager = TaskManager::new();
        manager.add(TaskControlBlock::new(0, 0, now_ms));
        Kernel { manager, processor: Processor::new(), processes }
    }

    /// Nothing but its parent's list of children refers to a process that
    /// has exited: none of its tasks is ready or running, and only its
    /// parent lists it. Reaping it leaves no reference behind.
    pub proof fn lemma_zombie_is_unreferenced(&self, pid: int)
        requires
            self.wf(),
            self.alive(pid),
            self.process(pid).is_zombie,
        ensures
            forall|i: int| 0 <= i < self.manager@.len() ==> (#[trigger] self.manager@[i]).pid != pid,
            self.processor.current is Some ==> self.processor.current->0.pid != pid,
            forall|q: int, k: int|
                self.alive(q) && 0 <= k < self.process(q).children@.len() && (
                #[trigger] self.process(q).children@[k]) == pid ==> self.process(pid).parent
                    == Some(q as usize),
    {
    }

    /// A kernel with the process table of `before` has its consistent table
    /// and tree, and every task is as runnable as it was.
    pub proof fn lemma_same_processes(&self, before: &Kernel)
        requires
            before.table_wf(),
            before.family_wf(),
            self.processes@ == before.processes@,
        ensures
            self.table_wf(),
            self.family_wf(),
            forall|pid: int| #[trigger] self.alive(pid) == before.alive(pid),
            forall|task: TaskControlBlock| #[trigger]
                self.runnable(task) == before.runnable(task),
    {
        assert(self.processes@ =~= before.processes@.update(0, self.processes@[0]));
        self.lemma_process_replaced(before, 0);
    }

    /// Replacing one process by a consistent one with the same place in the
    /// process tree keeps the process table and the tree consistent. A task
    /// of another process is as runnable as it was; a task of this process
    /// is runnable if the process has not exited.
    pub proof fn lemma_process_replaced(&self, before: &Kernel, pid: int)
        requires
            before.table_wf(),
            before.family_wf(),
            before.alive(pid),
            self.processes@ == before.processes@.update(pid, self.processes@[pid]),
            self.processes@[pid] is Some,
            self.process(pid).wf(),
            self.process(pid).pid == before.process(pid).pid,
            self.process(pid).parent == before.process(pid).parent,
            self.process(pid).children == before.process(pid).children,
        ensures
            self.table_wf(),
            self.family_wf(),
            forall|pid: int| #[trigger] self.alive(pid) == before.alive(pid),
            forall|task: TaskControlBlock| #[trigger]
                self.runnable(task) == if task.pid == pid {
                    task.wf() && !self.process(pid).is_zombie
                } else {
                    before.runnable(task)
                },
    {
        assert forall|p: int| #[trigger] self.alive(p) == before.alive(p) by {}
    }

    /// This state is `before` with one more process, `child`, a child of the
    /// running task's process that runs `image`, and with the child's one
    /// task, created at `now_ms`, at the tail of the ready queue.
    ///
    /// The child takes the free slot of the process table. It inherits the
    /// heap bounds of its parent and starts without primitives of its own and
    /// with deadlock detection off. The parent gains the child at the end of
    /// its list of children; nothing else changes.
    pub open spec fn child_added(
        &self,
        before: &Kernel,
        child: int,
        image: Seq<u8>,
        now_ms: usize,
    ) -> bool {
        let parent = before.current_pid();
        &&& child == free_slot(before.processes@)
        &&& self.processor == before.processor
        &&& self.manager@.len() == before.manager@.len() + 1
        &&& self.manager@.drop_last() == before.manager@
        &&& self.manager@.last().is_fresh(child as usize, 0, now_ms)
        &&& self.processes@.len() == if child < before.processes@.len() {
            before.processes@.len()
        } else {
            before.processes@.len() + 1
        }
        &&& forall|i: int|
            0 <= i < before.processes@.len() && i != parent && i != child ==> self.processes@[i]
                == before.processes@[i]
        &&& self.alive(parent)
        &&& self.alive(child)
        &&& child != parent
        &&& self.process(parent).pid == before.process(parent).pid
        &&& self.process(parent).parent == before.process(parent).parent
        &&& self.process(parent).is_zombie == before.process(parent).is_zombie
        &&& self.process(parent).exit_code == before.process(parent).exit_code
        &&& self.process(parent).children@ == before.process(parent).children@.push(child as usize)
        &&& before.process(parent).same_memory(&self.process(parent))
        &&& before.process(parent).same_threads(&self.process(parent))
        &&& before.process(parent).same_primitives(&self.process(parent))
        &&& before.process(parent).same_detection(&self.process(parent))
        &&& self.process(child).is_fresh(child as usize, Some(parent as usize))
        &&& self.process(child).image@ == image
        &&& self.process(child).heap_bottom == before.process(parent).heap_bottom
        &&& self.process(child).program_brk == before.process(parent).program_brk
    }

    /// Gives the running task's process a child that runs `image` and puts
    /// the child's task into the ready queue. Returns the child's pid.
    pub fn add_child(&mut self, image: Vec<u8>, now_ms: usize) -> (child: usize)
        requires
            old(self).wf(),
            old(self).has_current(),
            free_slot(old(self).processes@) < isize::MAX,
        ensures
            final(self).wf(),
            final(self).child_added(old(self), child as int, image@, now_ms),
            0 < child <= isize::MAX,
    {
        let task = self.processor.current().unwrap();
        let parent_pid = task.pid;
        let child_pid = find_free_slot(&self.processes);
        let mut parent = self.processes[parent_pid].take().unwrap();
        let child = ProcessControlBlock::new(
            child_pid,
            Some(parent_pid),
            image,
            parent.heap_bottom,
            parent.program_brk,
        );
        parent.children.push(child_pid);
        self.processes[parent_pid] = Some(parent);
        if child_pid < self.processes.len() {
            self.processes[child_pid] = Some(child);
        } else {
            self.processes.push(Some(child));
        }
        self.manager.add(TaskControlBlock::new(child_pid, 0, now_ms));
        proof {
            assert(self.manager@.drop_last() =~= old(self).manager@);
            assert forall|q: int| #[trigger] self.alive(q) implies old(self).alive(q) || q
                == child_pid by {}
        }
        child_pid
    }
}

} // verus!
