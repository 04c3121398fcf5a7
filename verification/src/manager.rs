//! The ready queue and the stride scheduler.

use vstd::prelude::*;
use std::collections::VecDeque;
use crate::config::BIG_STRIDE;
use crate::task::TaskControlBlock;

verus! {

/// The ready queue. Tasks wait in arrival order; selection is by least stride.
pub struct TaskManager {
    pub ready_queue: VecDeque<TaskControlBlock>,
}

impl View for TaskManager {
    type V = Seq<TaskControlBlock>;

    /// The ready tasks from head to tail.
    open spec fn view(&self) -> Seq<TaskControlBlock> {
        self.ready_queue@
    }
}

/// What one dispatch adds to the stride of `task`.
pub open spec fn stride_step(task: TaskControlBlock) -> int {
    BIG_STRIDE as int / task.priority as int
}

/// The stride of `task` can advance once more without leaving `u64`.
pub open spec fn stride_fits(task: TaskControlBlock) -> bool {
    task.stride + stride_step(task) <= u64::MAX
}

/// `task` after it has been selected once.
pub open spec fn dispatched(task: TaskControlBlock) -> TaskControlBlock {
    TaskControlBlock { stride: (task.stride + stride_step(task)) as u64, ..task }
}

/// `k` is the position of the least stride in `queue`, and the first such position.
pub open spec fn is_first_min(queue: Seq<TaskControlBlock>, k: int) -> bool {
    &&& 0 <= k < queue.len()
    &&& forall|j: int| 0 <= j < queue.len() ==> queue[k].stride <= (#[trigger] queue[j]).stride
    &&& forall|j: int| 0 <= j < k ==> queue[k].stride < (#[trigger] queue[j]).stride
}

/// The position that the scheduler selects in a non-empty `queue`.
pub open spec fn min_stride_index(queue: Seq<TaskControlBlock>) -> int {
    choose|k: int| is_first_min(queue, k)
}

/// Every queued task has a priority that can serve as a divisor.
pub open spec fn all_wf(queue: Seq<TaskControlBlock>) -> bool {
    forall|i: int| 0 <= i < queue.len() ==> (#[trigger] queue[i]).wf()
}

/// The task that would be selected from `queue` can take its stride step.
pub open spec fn selection_fits(queue: Seq<TaskControlBlock>) -> bool {
    queue.len() > 0 ==> stride_fits(queue[min_stride_index(queue)])
}

/// A queue has at most one first minimum.
pub proof fn lemma_first_min_unique(queue: Seq<TaskControlBlock>, a: int, b: int)
    requires
        is_first_min(queue, a),
        is_first_min(queue, b),
    ensures
        a == b,
{
}

/// Whoever exhibits a first minimum has found the selected position.
pub proof fn lemma_min_stride_index(queue: Seq<TaskControlBlock>, k: int)
    requires
        is_first_min(queue, k),
    ensures
        min_stride_index(queue) == k,
{
}

/// Every queue that is not empty has a first minimum.
pub proof fn lemma_first_min_exists(queue: Seq<TaskControlBlock>)
    requires
        queue.len() > 0,
    ensures
        is_first_min(queue, min_stride_index(queue)),
{
    lemma_first_min_within(queue, 1, 0);
}

/// If `k` is the first minimum among the first `n` tasks, the whole queue
/// has a first minimum.
proof fn lemma_first_min_within(queue: Seq<TaskControlBlock>, n: int, k: int)
    requires
        0 <= k < n <= queue.len(),
        forall|j: int| 0 <= j < n ==> queue[k].stride <= (#[trigger] queue[j]).stride,
        forall|j: int| 0 <= j < k ==> queue[k].stride < (#[trigger] queue[j]).stride,
    ensures
        is_first_min(queue, min_stride_index(queue)),
    decreases queue.len() - n,
{
    if n == queue.len() {
        assert(is_first_min(queue, k));
    } else if queue[n].stride < queue[k].stride {
        lemma_first_min_within(queue, n + 1, n);
    } else {
        lemma_first_min_within(queue, n + 1, k);
    }
}

impl TaskManager {
    /// An empty ready queue.
    pub fn new() -> (manager: Self)
        ensures
            manager@ == Seq::<TaskControlBlock>::empty(),
    {
        TaskManager { ready_queue: VecDeque::new() }
    }

    /// Appends `task` at the tail of the ready queue.
    pub fn add(&mut self, task: TaskControlBlock)
        ensures
            final(self)@ == old(self)@.push(task),
    {
        self.ready_queue.push_back(task);
    }

    /// Takes the task at the head of the ready queue, whatever its stride.
    pub fn fetch(&mut self) -> (task: Option<TaskControlBlock>)
        ensures
            old(self)@.len() == 0 ==> task is None && final(self)@ == old(self)@,
            old(self)@.len() > 0 ==> task == Some(old(self)@[0]) && final(self)@ == old(
                self,
            )@.subrange(1, old(self)@.len() as int),
    {
        self.ready_queue.pop_front()
    }

    /// Number of ready tasks.
    pub fn len(&self) -> (n: usize)
        ensures
            n == self@.len(),
    {
        self.ready_queue.len()
    }

    /// The position of the task that stride scheduling selects: the ready
    /// task with the least stride, the earliest one among equals. An empty
    /// queue has none.
    pub fn select(&self) -> (position: Option<usize>)
        ensures
            self@.len() == 0 ==> position is None,
            self@.len() > 0 ==> {
                &&& position is Some
                &&& position->0 == min_stride_index(self@)
                &&& is_first_min(self@, position->0 as int)
            },
    {
        let n = self.ready_queue.len();
        if n == 0 {
            return None;
        }
        let mut pos: usize = 0;
        let mut min_stride: u64 = self.ready_queue[0].stride;
        let mut i: usize = 1;
        while i < n
            invariant
                n == self.ready_queue@.len(),
                0 <= pos < i <= n,
                min_stride == self.ready_queue@[pos as int].stride,
                forall|j: int| 0 <= j < i ==> min_stride <= (#[trigger] self.ready_queue@[j]).stride,
                forall|j: int| 0 <= j < pos ==> min_stride < (#[trigger] self.ready_queue@[j]).stride,
            decreases n - i,
        {
            let stride = self.ready_queue[i].stride;
            if stride < min_stride {
                min_stride = stride;
                pos = i;
            }
            i = i + 1;
        }
        proof {
            lemma_min_stride_index(self@, pos as int);
        }
        Some(pos)
    }

    /// Stride scheduling: takes out the ready task with the least stride, the
    /// earliest one among equals, and advances its stride by
    /// `BIG_STRIDE / priority`. An empty queue yields `None`.
    pub fn fetch_stride(&mut self) -> (task: Option<TaskControlBlock>)
        requires
            all_wf(old(self)@),
            selection_fits(old(self)@),
        ensures
            old(self)@.len() == 0 ==> task is None && final(self)@ == old(self)@,
            old(self)@.len() > 0 ==> {
                let k = min_stride_index(old(self)@);
                &&& is_first_min(old(self)@, k)
                &&& task == Some(dispatched(old(self)@[k]))
                &&& final(self)@ == old(self)@.remove(k)
            },
    {
        let pos = match self.select() {
            Some(pos) => pos,
            None => {
                return None;
            },
        };
        let removed = self.ready_queue.remove(pos);
        let mut task = removed.unwrap();
        task.stride = task.stride + BIG_STRIDE / (task.priority as u64);
        Some(task)
    }
}

/// Puts `task` at the tail of the ready queue of `manager`.
pub fn add_task(manager: &mut TaskManager, task: TaskControlBlock)
    ensures
        final(manager)@ == old(manager)@.push(task),
{
    manager.add(task);
}

/// Selects the next task to run from `manager` by stride.
pub fn fetch_task(manager: &mut TaskManager) -> (task: Option<TaskControlBlock>)
    requires
        all_wf(old(manager)@),
        selection_fits(old(manager)@),
    ensures
        old(manager)@.len() == 0 ==> task is None && final(manager)@ == old(manager)@,
        old(manager)@.len() > 0 ==> {
            let k = min_stride_index(old(manager)@);
            &&& is_first_min(old(manager)@, k)
            &&& task == Some(dispatched(old(manager)@[k]))
            &&& final(manager)@ == old(manager)@.remove(k)
        },
{
    manager.fetch_stride()
}

/// `task` after it was selected `rounds` times in a row from a ready queue
/// that holds nothing else, going back to the queue after each run.
pub open spec fn redispatched(task: TaskControlBlock, rounds: nat) -> TaskControlBlock
    decreases rounds,
{
    if rounds == 0 {
        task
    } else {
        dispatched(redispatched(task, (rounds - 1) as nat))
    }
}

/// A task that is alone in the ready queue is the one selected, and each
/// selection adds exactly `BIG_STRIDE / priority` to its stride, for every
/// priority from 2 upwards and as long as the stride fits its type.
pub proof fn lemma_single_task_stride(task: TaskControlBlock, rounds: nat)
    requires
        task.priority >= 2,
        task.stride + rounds * stride_step(task) <= u64::MAX,
    ensures
        is_first_min(seq![task], 0),
        min_stride_index(seq![task]) == 0,
        redispatched(task, rounds).priority == task.priority,
        redispatched(task, rounds).stride == task.stride + rounds * (BIG_STRIDE as int
            / task.priority as int),
    decreases rounds,
{
    lemma_min_stride_index(seq![task], 0);
    let step = stride_step(task);
    if rounds == 0 {
        assert(rounds * step == 0) by (nonlinear_arith)
            requires
                rounds == 0,
        ;
    } else {
        let before = (rounds - 1) as nat;
        assert(before * step + step == rounds * step && 0 <= before * step) by (nonlinear_arith)
            requires
                before + 1 == rounds,
                0 <= before,
                0 <= step,
        ;
        lemma_single_task_stride(task, before);
        let last = redispatched(task, before);
        assert(last.priority == task.priority);
        assert(last.stride == task.stride + before * step);
        assert(stride_step(last) == step);
        assert(redispatched(task, rounds) == dispatched(last));
        assert(dispatched(last).stride == last.stride + step);
        assert(redispatched(task, rounds).stride == task.stride + rounds * step);
    }
}

} // verus!
