//! The control block of a process: its place in the process tree, its
//! program break, and its tables of synchronisation primitives.

use vstd::prelude::*;
use crate::deadlock::DeadlockDetector;
use crate::sync::condvar::Condvar;
use crate::sync::mutex::Mutex;
use crate::sync::semaphore::Semaphore;
use crate::task::{TaskControlBlock, TaskStatus};

verus! {

/// `id` is where a new entry goes in `slots`: the first empty slot, or the
/// end of the table if every slot is taken.
pub open spec fn is_free_slot<T>(slots: Seq<Option<T>>, id: int) -> bool {
    &&& 0 <= id <= slots.len()
    &&& id < slots.len() ==> slots[id] is None
    &&& forall|j: int| 0 <= j < id ==> (#[trigger] slots[j]) is Some
}

/// The slot that the next entry of `slots` gets.
pub open spec fn free_slot<T>(slots: Seq<Option<T>>) -> int {
    choose|id: int| is_free_slot(slots, id)
}

/// `slots` with `item` put into the slot `id`, which is an empty slot or the
/// end of the table.
pub open spec fn installed<T>(slots: Seq<Option<T>>, id: int, item: T) -> Seq<Option<T>> {
    if id < slots.len() {
        slots.update(id, Some(item))
    } else {
        slots.push(Some(item))
    }
}

/// `after` is `before` with a new entry in slot `id`, which was the free
/// slot of `before`; every other slot is what it was.
pub open spec fn installed_at<T>(before: Seq<Option<T>>, after: Seq<Option<T>>, id: int) -> bool {
    &&& is_free_slot(before, id)
    &&& after.len() == if id < before.len() {
        before.len()
    } else {
        before.len() + 1
    }
    &&& after[id] is Some
    &&& forall|j: int| 0 <= j < before.len() && j != id ==> after[j] == before[j]
}

/// The two tables agree in every slot but `id`.
pub open spec fn same_except<T>(before: Seq<Option<T>>, after: Seq<Option<T>>, id: int) -> bool {
    &&& after.len() == before.len()
    &&& forall|j: int| 0 <= j < before.len() && j != id ==> after[j] == before[j]
}

/// Whoever exhibits a free slot has found the slot that is handed out
/// next: a table has one free slot.
pub proof fn lemma_free_slot<T>(slots: Seq<Option<T>>, id: int)
    requires
        is_free_slot(slots, id),
    ensures
        free_slot(slots) == id,
{
    let other = free_slot(slots);
    if other < id {
    } else if id < other {
    }
}

/// Every table has a free slot, within the table or at its end.
pub proof fn lemma_free_slot_exists<T>(slots: Seq<Option<T>>)
    ensures
        is_free_slot(slots, free_slot(slots)),
        0 <= free_slot(slots) <= slots.len(),
{
    lemma_free_slot_from(slots, 0);
}

/// If every slot below `k` is taken, the table has a free slot.
proof fn lemma_free_slot_from<T>(slots: Seq<Option<T>>, k: int)
    requires
        0 <= k <= slots.len(),
        forall|j: int| 0 <= j < k ==> (#[trigger] slots[j]) is Some,
    ensures
        is_free_slot(slots, free_slot(slots)),
    decreases slots.len() - k,
{
    if k == slots.len() || slots[k] is None {
        assert(is_free_slot(slots, k));
    } else {
        lemma_free_slot_from(slots, k + 1);
    }
}

/// Finds the slot for the next entry of `slots`.
pub fn find_free_slot<T>(slots: &Vec<Option<T>>) -> (id: usize)
    ensures
        is_free_slot(slots@, id as int),
        id == free_slot(slots@),
{
    let n = slots.len();
    let mut id: usize = 0;
    while id < n && slots[id].is_some()
        invariant
            id <= n,
            n == slots@.len(),
            forall|j: int| 0 <= j < id ==> (#[trigger] slots@[j]) is Some,
        decreases n - id,
    {
        id = id + 1;
    }
    proof {
        lemma_free_slot(slots@, id as int);
    }
    id
}

/// Puts `item` into the first empty slot of `slots`, or appends it if there
/// is none, and returns the slot.
pub fn install<T>(slots: &mut Vec<Option<T>>, item: T) -> (id: usize)
    ensures
        id == free_slot(old(slots)@),
        is_free_slot(old(slots)@, id as int),
        final(slots)@ == installed(old(slots)@, id as int, item),
{
    let id = find_free_slot(slots);
    if id < slots.len() {
        slots[id] = Some(item);
    } else {
        slots.push(Some(item));
    }
    id
}

/// A task that sleeps until the timer reaches `expire_ms`.
pub struct Sleeper {
    pub expire_ms: usize,
    pub task: TaskControlBlock,
}

/// Everything the kernel core keeps about one process.
pub struct ProcessControlBlock {
    pub pid: usize,
    /// The process that forked this one, if any.
    pub parent: Option<usize>,
    /// Children that were forked and not yet reaped, oldest first.
    pub children: Vec<usize>,
    pub is_zombie: bool,
    /// Meaningful once the process is a zombie.
    pub exit_code: i32,
    /// The program that the process runs.
    pub image: Vec<u8>,
    /// Lowest value the program break may take.
    pub heap_bottom: usize,
    pub program_brk: usize,
    pub mutex_list: Vec<Option<Mutex>>,
    pub semaphore_list: Vec<Option<Semaphore>>,
    pub condvar_list: Vec<Option<Condvar>>,
    /// Whether requests are checked for deadlock before they are granted.
    pub deadlock_test: bool,
    pub detector: DeadlockDetector,
    /// Number of thread slots handed out so far.
    pub thread_count: usize,
    /// Tasks of this process that wait for the timer.
    pub sleepers: Vec<Sleeper>,
    /// Tasks of this process that have come to their end, kept until the
    /// process is reaped.
    pub exited: Vec<TaskControlBlock>,
}

/// Every task of `tasks` is a blocked task of process `pid` with a valid
/// priority.
pub open spec fn waiting_in(tasks: Seq<TaskControlBlock>, pid: usize) -> bool {
    forall|i: int|
        0 <= i < tasks.len() ==> {
            &&& (#[trigger] tasks[i]).wf()
            &&& tasks[i].task_status == TaskStatus::Blocked
            &&& tasks[i].pid == pid
        }
}

impl ProcessControlBlock {
    /// The process's own invariant: the break is not below the heap bottom
    /// and can be returned as a non-negative number,
    /// the detector's table is rectangular, every primitive is consistent,
    /// and whoever waits or sleeps here is a blocked task of this process.
    pub open spec fn wf(&self) -> bool {
        &&& self.heap_bottom <= self.program_brk <= isize::MAX
        &&& self.detector.wf()
        &&& forall|id: int|
            0 <= id < self.mutex_list@.len() && (#[trigger] self.mutex_list@[id]) is Some ==> {
                &&& self.mutex_list@[id]->0@.wf()
                &&& waiting_in(self.mutex_list@[id]->0@.waiters, self.pid)
            }
        &&& forall|id: int|
            0 <= id < self.semaphore_list@.len() && (#[trigger] self.semaphore_list@[id]) is Some
                ==> {
                &&& self.semaphore_list@[id]->0@.wf()
                &&& waiting_in(self.semaphore_list@[id]->0@.waiters, self.pid)
            }
        &&& forall|id: int|
            0 <= id < self.condvar_list@.len() && (#[trigger] self.condvar_list@[id]) is Some
                ==> waiting_in(self.condvar_list@[id]->0@, self.pid)
        &&& forall|i: int|
            0 <= i < self.sleepers@.len() ==> {
                &&& (#[trigger] self.sleepers@[i]).task.wf()
                &&& self.sleepers@[i].task.task_status == TaskStatus::Blocked
                &&& self.sleepers@[i].task.pid == self.pid
            }
    }

    /// This is a process as `new` makes it: alive, without children,
    /// primitives, sleeping or exited tasks, with deadlock detection off and
    /// one thread slot handed out.
    pub open spec fn is_fresh(&self, pid: usize, parent: Option<usize>) -> bool {
        &&& self.pid == pid
        &&& self.parent == parent
        &&& self.children@.len() == 0
        &&& !self.is_zombie
        &&& self.exit_code == 0
        &&& self.mutex_list@.len() == 0
        &&& self.semaphore_list@.len() == 0
        &&& self.condvar_list@.len() == 0
        &&& !self.deadlock_test
        &&& self.detector@.threads() == 0
        &&& self.detector@.resources() == 0
        &&& self.detector@.available.len() == 0
        &&& self.thread_count == 1
        &&& self.sleepers@.len() == 0
        &&& self.exited@.len() == 0
    }

    /// A new process that runs `image` with its heap between `heap_bottom`
    /// and `program_brk`.
    pub fn new(
        pid: usize,
        parent: Option<usize>,
        image: Vec<u8>,
        heap_bottom: usize,
        program_brk: usize,
    ) -> (process: Self)
        requires
            heap_bottom <= program_brk <= isize::MAX,
        ensures
            process.wf(),
            process.is_fresh(pid, parent),
            process.image == image,
            process.heap_bottom == heap_bottom,
            process.program_brk == program_brk,
    {
        ProcessControlBlock {
            pid,
            parent,
            children: Vec::new(),
            is_zombie: false,
            exit_code: 0,
            image,
            heap_bottom,
            program_brk,
            mutex_list: Vec::new(),
            semaphore_list: Vec::new(),
            condvar_list: Vec::new(),
            deadlock_test: false,
            detector: DeadlockDetector::new(),
            thread_count: 1,
            sleepers: Vec::new(),
            exited: Vec::new(),
        }
    }

    /// The process identifier.
    pub fn getpid(&self) -> (pid: usize)
        ensures
            pid == self.pid,
    {
        self.pid
    }
}

impl ProcessControlBlock {
    /// `other` has this process's place in the process tree and its exit state.
    pub open spec fn same_identity(&self, other: &Self) -> bool {
        &&& other.pid == self.pid
        &&& other.parent == self.parent
        &&& other.children == self.children
        &&& other.is_zombie == self.is_zombie
        &&& other.exit_code == self.exit_code
    }

    /// `other` has this process's program image and break.
    pub open spec fn same_memory(&self, other: &Self) -> bool {
        &&& other.image == self.image
        &&& other.heap_bottom == self.heap_bottom
        &&& other.program_brk == self.program_brk
    }

    /// `other` has this process's thread slots, sleeping and exited tasks.
    pub open spec fn same_threads(&self, other: &Self) -> bool {
        &&& other.thread_count == self.thread_count
        &&& other.sleepers == self.sleepers
        &&& other.exited == self.exited
    }

    /// `other` has this process's tables of primitives.
    pub open spec fn same_primitives(&self, other: &Self) -> bool {
        &&& other.mutex_list == self.mutex_list
        &&& other.semaphore_list == self.semaphore_list
        &&& other.condvar_list == self.condvar_list
    }

    /// `other` has this process's deadlock detection setting and table.
    pub open spec fn same_detection(&self, other: &Self) -> bool {
        &&& other.deadlock_test == self.deadlock_test
        &&& other.detector == self.detector
    }
}

} // verus!
