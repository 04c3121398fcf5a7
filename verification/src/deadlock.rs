//! Deadlock avoidance for the primitives of one process: a resource
//! allocation table and a safety check over it.
//!
//! Resources are the slot ids of the primitives, threads are the thread slots
//! of the process. The table grows with the ids it is asked about; entries
//! that were never written are zero.

use vstd::prelude::*;

verus! {

/// The mathematical content of a [`DeadlockDetector`].
pub struct DetectorView {
    /// Units of each resource that exist.
    pub available: Seq<int>,
    /// Units of each resource that are not handed out.
    pub work: Seq<int>,
    /// Per thread and resource: units asked for and not yet granted.
    pub need: Seq<Seq<int>>,
    /// Per thread and resource: units granted and not yet given back.
    pub allocation: Seq<Seq<int>>,
    /// Per thread: outcome of the last safety check.
    pub finished: Seq<bool>,
}

/// Sum of the allocations of resource `j` over the threads below `n` that `fin` marks.
pub open spec fn released(allocation: Seq<Seq<int>>, fin: Seq<bool>, j: int, n: int) -> int
    decreases n,
{
    if n <= 0 {
        0
    } else {
        released(allocation, fin, j, n - 1) + if fin[n - 1] {
            allocation[n - 1][j]
        } else {
            0
        }
    }
}

impl DetectorView {
    /// Number of threads the table has a row for.
    pub open spec fn threads(self) -> int {
        self.need.len() as int
    }

    /// Number of resources the table has a column for.
    pub open spec fn resources(self) -> int {
        self.work.len() as int
    }

    /// The table is rectangular.
    pub open spec fn wf(self) -> bool {
        &&& self.available.len() == self.work.len()
        &&& self.allocation.len() == self.need.len()
        &&& self.finished.len() == self.need.len()
        &&& forall|t: int|
            0 <= t < self.need.len() ==> (#[trigger] self.need[t]).len() == self.work.len()
        &&& forall|t: int|
            0 <= t < self.need.len() ==> (#[trigger] self.allocation[t]).len() == self.work.len()
    }

    /// Units of resource `id` that exist; zero beyond the table.
    pub open spec fn available_at(self, id: int) -> int {
        if 0 <= id < self.available.len() {
            self.available[id]
        } else {
            0
        }
    }

    /// Units of resource `id` that are free; zero beyond the table.
    pub open spec fn work_at(self, id: int) -> int {
        if 0 <= id < self.work.len() {
            self.work[id]
        } else {
            0
        }
    }

    /// Units of resource `id` that thread `tid` waits for; zero beyond the
    /// table.
    pub open spec fn need_at(self, tid: int, id: int) -> int {
        if 0 <= tid < self.need.len() && 0 <= id < self.need[tid].len() {
            self.need[tid][id]
        } else {
            0
        }
    }

    /// Units of resource `id` that thread `tid` holds; zero beyond the
    /// table.
    pub open spec fn allocation_at(self, tid: int, id: int) -> int {
        if 0 <= tid < self.allocation.len() && 0 <= id < self.allocation[tid].len() {
            self.allocation[tid][id]
        } else {
            0
        }
    }

    /// Recording and granting a request of thread `tid` for resource `id`
    /// keeps the entries within a machine word.
    pub open spec fn can_request(self, tid: int, id: int) -> bool {
        &&& self.need_at(tid, id) < isize::MAX
        &&& self.work_at(id) > isize::MIN
        &&& self.allocation_at(tid, id) < isize::MAX
    }

    /// Taking back a unit of resource `id` from thread `tid` keeps the
    /// entries within a machine word.
    pub open spec fn can_release(self, tid: int, id: int) -> bool {
        &&& self.work_at(id) < isize::MAX
        &&& self.allocation_at(tid, id) > isize::MIN
    }

    /// Registering `units` more units of resource `id` keeps the entries
    /// within a machine word.
    pub open spec fn can_declare(self, id: int, units: int) -> bool {
        &&& isize::MIN <= self.available_at(id) + units <= isize::MAX
        &&& isize::MIN <= self.work_at(id) + units <= isize::MAX
    }

    /// The table widened with zero entries to at least `threads` rows and
    /// `resources` columns. Threads that are new count as not finished.
    pub open spec fn grown(self, threads: int, resources: int) -> Self {
        let t = if threads > self.threads() {
            threads
        } else {
            self.threads()
        };
        let r = if resources > self.resources() {
            resources
        } else {
            self.resources()
        };
        DetectorView {
            available: Seq::new(r as nat, |j: int| self.available_at(j)),
            work: Seq::new(r as nat, |j: int| self.work_at(j)),
            need: Seq::new(t as nat, |i: int| Seq::new(r as nat, |j: int| self.need_at(i, j))),
            allocation: Seq::new(
                t as nat,
                |i: int| Seq::new(r as nat, |j: int| self.allocation_at(i, j)),
            ),
            finished: Seq::new(
                t as nat,
                |i: int|
                    if 0 <= i < self.finished.len() {
                        self.finished[i]
                    } else {
                        false
                    },
            ),
        }
    }

    /// A primitive with `units` units came into being under resource `id`.
    pub open spec fn declared(self, id: int, units: int) -> Self {
        let g = self.grown(0, id + 1);
        DetectorView {
            available: g.available.update(id, g.available[id] + units),
            work: g.work.update(id, g.work[id] + units),
            ..g
        }
    }

    /// Thread `tid` asks for one more unit of resource `id`.
    pub open spec fn recorded(self, tid: int, id: int) -> Self {
        let g = self.grown(tid + 1, id + 1);
        DetectorView { need: g.need.update(tid, g.need[tid].update(id, g.need[tid][id] + 1)), ..g }
    }

    /// Thread `tid` is given the unit of resource `id` that it asked for.
    pub open spec fn granted(self, tid: int, id: int) -> Self {
        DetectorView {
            need: self.need.update(tid, self.need[tid].update(id, self.need[tid][id] - 1)),
            work: self.work.update(id, self.work[id] - 1),
            allocation: self.allocation.update(
                tid,
                self.allocation[tid].update(id, self.allocation[tid][id] + 1),
            ),
            ..self
        }
    }

    /// What is free of resource `j` once the threads that `fin` marks have
    /// given back what they hold.
    pub open spec fn work_after(self, fin: Seq<bool>, j: int) -> int {
        self.work[j] + released(self.allocation, fin, j, self.threads())
    }

    /// Thread `i` needs no more of any resource than is free after the
    /// threads that `fin` marks have finished.
    pub open spec fn can_finish(self, fin: Seq<bool>, i: int) -> bool {
        forall|j: int|
            0 <= j < self.resources() ==> self.need[i][j] <= #[trigger] self.work_after(fin, j)
    }

    /// One scan over the threads from `i` upwards: each thread that is not
    /// yet marked and can finish is marked, and what it holds counts as free
    /// for the threads after it.
    pub open spec fn pass(self, fin: Seq<bool>, i: int) -> Seq<bool>
        decreases self.threads() - i,
    {
        if i < 0 || i >= self.threads() {
            fin
        } else if !fin[i] && self.can_finish(fin, i) {
            self.pass(fin.update(i, true), i + 1)
        } else {
            self.pass(fin, i + 1)
        }
    }

    /// `n` scans in a row, each from the first thread.
    pub open spec fn rounds(self, fin: Seq<bool>, n: nat) -> Seq<bool>
        decreases n,
    {
        if n == 0 {
            fin
        } else {
            self.rounds(self.pass(fin, 0), (n - 1) as nat)
        }
    }

    /// The threads that can run to completion, one after another, from the
    /// present state. One scan per thread is as many as can make progress.
    pub open spec fn settled(self) -> Seq<bool> {
        self.rounds(Seq::new(self.threads() as nat, |i: int| false), self.threads() as nat)
    }

    /// Every thread can run to completion.
    pub open spec fn safe(self) -> bool {
        forall|i: int| 0 <= i < self.threads() ==> #[trigger] self.settled()[i]
    }

    /// The table with the outcome of a safety check written into `finished`.
    pub open spec fn checked(self) -> Self {
        DetectorView { finished: self.settled(), ..self }
    }

    /// Thread `tid` asks for a unit of resource `id`: the request is recorded
    /// and the safety check runs; only in a safe state is the unit granted.
    pub open spec fn request(self, tid: int, id: int) -> (Self, bool) {
        let asked = self.recorded(tid, id);
        if asked.safe() {
            (asked.checked().granted(tid, id), true)
        } else {
            (asked.checked(), false)
        }
    }

    /// A unit of resource `id` comes back from a mutex.
    pub open spec fn mutex_released(self, id: int) -> Self {
        let g = self.grown(0, id + 1);
        DetectorView { work: g.work.update(id, g.work[id] + 1), ..g }
    }

    /// Thread `tid` puts a unit of resource `id` back into a semaphore.
    pub open spec fn semaphore_released(self, tid: int, id: int) -> Self {
        let g = self.grown(tid + 1, id + 1);
        DetectorView {
            work: g.work.update(id, g.work[id] + 1),
            allocation: g.allocation.update(
                tid,
                g.allocation[tid].update(id, g.allocation[tid][id] - 1),
            ),
            ..g
        }
    }
}

/// The resource allocation table of one process.
pub struct DeadlockDetector {
    pub available: Vec<isize>,
    pub work: Vec<isize>,
    pub need: Vec<Vec<isize>>,
    pub allocation: Vec<Vec<isize>>,
    pub finished: Vec<bool>,
}

impl View for DeadlockDetector {
    type V = DetectorView;

    open spec fn view(&self) -> DetectorView {
        DetectorView {
            available: Seq::new(self.available@.len(), |j: int| self.available@[j] as int),
            work: Seq::new(self.work@.len(), |j: int| self.work@[j] as int),
            need: Seq::new(
                self.need@.len(),
                |i: int| Seq::new(self.need@[i]@.len(), |j: int| self.need@[i]@[j] as int),
            ),
            allocation: Seq::new(
                self.allocation@.len(),
                |i: int|
                    Seq::new(self.allocation@[i]@.len(), |j: int| self.allocation@[i]@[j] as int),
            ),
            finished: self.finished@,
        }
    }
}

/// A row of `width` zeros.
fn zero_row(width: usize) -> (row: Vec<isize>)
    ensures
        row@.len() == width,
        forall|j: int| 0 <= j < width ==> row@[j] == 0,
{
    let mut row: Vec<isize> = Vec::new();
    let mut j: usize = 0;
    while j < width
        invariant
            j <= width,
            row@.len() == j,
            forall|k: int| 0 <= k < j ==> row@[k] == 0,
        decreases width - j,
    {
        row.push(0);
        j = j + 1;
    }
    row
}

/// A copy of `row`, filled up with zeros to `width` entries.
fn padded_row(row: &Vec<isize>, width: usize) -> (padded: Vec<isize>)
    requires
        row@.len() <= width,
    ensures
        padded@.len() == width,
        forall|j: int| 0 <= j < row@.len() ==> padded@[j] == row@[j],
        forall|j: int| row@.len() <= j < width ==> padded@[j] == 0,
{
    let mut padded: Vec<isize> = Vec::new();
    let mut j: usize = 0;
    while j < width
        invariant
            j <= width,
            row@.len() <= width,
            padded@.len() == j,
            forall|k: int| 0 <= k < j && k < row@.len() ==> padded@[k] == row@[k],
            forall|k: int| row@.len() <= k < j ==> padded@[k] == 0,
        decreases width - j,
    {
        if j < row.len() {
            padded.push(row[j]);
        } else {
            padded.push(0);
        }
        j = j + 1;
    }
    padded
}

impl DeadlockDetector {
    /// The table is rectangular.
    pub open spec fn wf(&self) -> bool {
        self@.wf()
    }

    /// A table without threads and resources.
    pub fn new() -> (detector: Self)
        ensures
            detector.wf(),
            detector@.threads() == 0,
            detector@.resources() == 0,
            detector@.available.len() == 0,
    {
        DeadlockDetector {
            available: Vec::new(),
            work: Vec::new(),
            need: Vec::new(),
            allocation: Vec::new(),
            finished: Vec::new(),
        }
    }

    /// Widens the table with zero entries to at least `threads` rows and
    /// `resources` columns.
    pub fn grow(&mut self, threads: usize, resources: usize)
        requires
            old(self).wf(),
        ensures
            final(self).wf(),
            final(self)@ == old(self)@.grown(threads as int, resources as int),
    {
        let old_threads = self.need.len();
        let old_resources = self.work.len();
        if threads <= old_threads && resources <= old_resources {
            assert(self@.available =~= old(self)@.grown(threads as int, resources as int).available);
            assert(self@.work =~= old(self)@.grown(threads as int, resources as int).work);
            assert(self@.need =~~= old(self)@.grown(threads as int, resources as int).need);
            assert(self@.allocation =~~= old(self)@.grown(
                threads as int,
                resources as int,
            ).allocation);
            assert(self@.finished =~= old(self)@.grown(threads as int, resources as int).finished);
            return ;
        }
        let t = if threads > old_threads {
            threads
        } else {
            old_threads
        };
        let r = if resources > old_resources {
            resources
        } else {
            old_resources
        };
        let available = padded_row(&self.available, r);
        let work = padded_row(&self.work, r);
        let mut need: Vec<Vec<isize>> = Vec::new();
        let mut allocation: Vec<Vec<isize>> = Vec::new();
        let mut finished: Vec<bool> = Vec::new();
        let mut i: usize = 0;
        while i < t
            invariant
                i <= t,
                self == old(self),
                self.wf(),
                old_threads == self.need@.len(),
                old_resources == self.work@.len(),
                old_threads <= t,
                old_resources <= r,
                need@.len() == i,
                allocation@.len() == i,
                finished@.len() == i,
                forall|k: int| 0 <= k < i ==> (#[trigger] need@[k])@.len() == r,
                forall|k: int| 0 <= k < i ==> (#[trigger] allocation@[k])@.len() == r,
                forall|k: int, j: int|
                    0 <= k < i && 0 <= j < r ==> (#[trigger] need@[k]@[j]) as int == self@.need_at(
                        k,
                        j,
                    ),
                forall|k: int, j: int|
                    0 <= k < i && 0 <= j < r ==> (#[trigger] allocation@[k]@[j]) as int
                        == self@.allocation_at(k, j),
                forall|k: int|
                    0 <= k < i ==> #[trigger] finished@[k] == (k < old_threads && self.finished@[k]),
            decreases t - i,
        {
            if i < old_threads {
                assert(self@.need[i as int].len() == old_resources);
                assert(self@.allocation[i as int].len() == old_resources);
                let need_row = padded_row(&self.need[i], r);
                let allocation_row = padded_row(&self.allocation[i], r);
                need.push(need_row);
                allocation.push(allocation_row);
                finished.push(self.finished[i]);
            } else {
                need.push(zero_row(r));
                allocation.push(zero_row(r));
                finished.push(false);
            }
            i = i + 1;
        }
        self.available = available;
        self.work = work;
        self.need = need;
        self.allocation = allocation;
        self.finished = finished;
        assert(self@.available =~= old(self)@.grown(threads as int, resources as int).available);
        assert(self@.work =~= old(self)@.grown(threads as int, resources as int).work);
        assert(self@.need =~~= old(self)@.grown(threads as int, resources as int).need);
        assert(self@.allocation =~~= old(self)@.grown(threads as int, resources as int).allocation);
        assert(self@.finished =~= old(self)@.grown(threads as int, resources as int).finished);
    }
}

/// Marking one more thread adds its allocation to what counts as released.
pub proof fn lemma_released_update(
    allocation: Seq<Seq<int>>,
    fin: Seq<bool>,
    j: int,
    n: int,
    i: int,
)
    requires
        0 <= i < fin.len(),
        !fin[i],
        n <= fin.len(),
    ensures
        released(allocation, fin.update(i, true), j, n) == released(allocation, fin, j, n) + if i
            < n {
            allocation[i][j]
        } else {
            0
        },
    decreases n,
{
    if n > 0 {
        lemma_released_update(allocation, fin, j, n - 1, i);
    }
}

/// With no thread marked nothing counts as released.
pub proof fn lemma_released_none(allocation: Seq<Seq<int>>, fin: Seq<bool>, j: int, n: int)
    requires
        n <= fin.len(),
        forall|i: int| 0 <= i < fin.len() ==> !fin[i],
    ensures
        released(allocation, fin, j, n) == 0,
    decreases n,
{
    if n > 0 {
        lemma_released_none(allocation, fin, j, n - 1);
    }
}

/// What counts as released of one resource is bounded by the number of
/// threads times the range of a machine word.
pub proof fn lemma_released_bound(allocation: Seq<Seq<int>>, fin: Seq<bool>, j: int, n: int)
    requires
        0 <= n <= allocation.len(),
        forall|t: int|
            0 <= t < n ==> -0x8000_0000_0000_0000 <= #[trigger] allocation[t][j]
                <= 0x7FFF_FFFF_FFFF_FFFF,
    ensures
        -0x8000_0000_0000_0000 * n <= released(allocation, fin, j, n) <= 0x7FFF_FFFF_FFFF_FFFF * n,
    decreases n,
{
    if n > 0 {
        lemma_released_bound(allocation, fin, j, n - 1);
    }
}

impl DetectorView {
    /// Once a scan changes nothing, no number of further scans does.
    pub proof fn lemma_rounds_fixpoint(self, fin: Seq<bool>, n: nat)
        requires
            self.pass(fin, 0) == fin,
        ensures
            self.rounds(fin, n) == fin,
        decreases n,
    {
        if n > 0 {
            self.lemma_rounds_fixpoint(fin, (n - 1) as nat);
        }
    }
}

impl DeadlockDetector {
    /// The safety check: marks in `finished` every thread that can run to
    /// completion when the threads marked before it have given back what
    /// they hold, scanning the threads until a scan marks no more. Reports
    /// whether every thread is marked. The check simulates the releases; the
    /// table itself keeps its counts.
    pub fn check(&mut self) -> (safe: bool)
        requires
            old(self).wf(),
        ensures
            final(self).wf(),
            final(self)@ == old(self)@.checked(),
            safe == old(self)@.safe(),
    {
        let ghost d0 = self@;
        let t = self.need.len();
        let r = self.work.len();
        let mut i: usize = 0;
        while i < t
            invariant
                i <= t,
                t == self.finished@.len(),
                self.available == old(self).available,
                self.work == old(self).work,
                self.need == old(self).need,
                self.allocation == old(self).allocation,
                forall|k: int| 0 <= k < i ==> !self.finished@[k],
            decreases t - i,
        {
            self.finished[i] = false;
            i = i + 1;
        }
        let ghost none = Seq::new(t as nat, |i: int| false);
        assert(self.finished@ =~= none);
        let mut sim: Vec<i128> = Vec::new();
        let mut j: usize = 0;
        while j < r
            invariant
                j <= r,
                r == self.work@.len(),
                sim@.len() == j,
                forall|k: int| 0 <= k < j ==> sim@[k] == self.work@[k],
            decreases r - j,
        {
            sim.push(self.work[j] as i128);
            j = j + 1;
        }
        assert forall|k: int| 0 <= k < r implies sim@[k] == #[trigger] d0.work_after(none, k) by {
            lemma_released_none(d0.allocation, none, k, d0.threads());
        }
        let mut round: usize = 0;
        let mut progress = true;
        while round < t && progress
            invariant
                round <= t,
                d0 == old(self)@,
                d0.wf(),
                t == d0.threads(),
                r == d0.resources(),
                t == self.finished@.len(),
                r == sim@.len(),
                self.available == old(self).available,
                self.work == old(self).work,
                self.need == old(self).need,
                self.allocation == old(self).allocation,
                forall|k: int|
                    #![trigger sim@[k]]
                    #![trigger d0.work_after(self.finished@, k)]
                    0 <= k < r ==> sim@[k] == d0.work_after(self.finished@, k),
                d0.rounds(self.finished@, (t - round) as nat) == d0.settled(),
                !progress ==> d0.pass(self.finished@, 0) == self.finished@,
            decreases t - round,
        {
            let ghost fin0 = self.finished@;
            let mut changed = false;
            let mut i: usize = 0;
            while i < t
                invariant
                    i <= t,
                    d0 == old(self)@,
                    d0.wf(),
                    t == d0.threads(),
                    r == d0.resources(),
                    t == self.finished@.len(),
                    t == fin0.len(),
                    r == sim@.len(),
                    self.available == old(self).available,
                    self.work == old(self).work,
                    self.need == old(self).need,
                    self.allocation == old(self).allocation,
                    forall|k: int|
                        #![trigger sim@[k]]
                        #![trigger d0.work_after(self.finished@, k)]
                        0 <= k < r ==> sim@[k] == d0.work_after(self.finished@, k),
                    d0.pass(fin0, 0) == d0.pass(self.finished@, i as int),
                    !changed ==> self.finished@ == fin0,
                decreases t - i,
            {
                let ghost fin = self.finished@;
                if !self.finished[i] {
                    let mut fits = true;
                    let mut j: usize = 0;
                    while j < r
                        invariant
                            j <= r,
                            i < t,
                            d0 == old(self)@,
                            d0.wf(),
                            t == d0.threads(),
                            r == d0.resources(),
                            r == sim@.len(),
                            self.need == old(self).need,
                            fin == self.finished@,
                            forall|k: int|
                                #![trigger sim@[k]]
                                #![trigger d0.work_after(fin, k)]
                                0 <= k < r ==> sim@[k] == d0.work_after(fin, k),
                            fits <==> forall|k: int|
                                0 <= k < j ==> d0.need[i as int][k] <= #[trigger] d0.work_after(
                                    fin,
                                    k,
                                ),
                        decreases r - j,
                    {
                        assert(d0.need[i as int].len() == r);
                        if sim[j] < self.need[i][j] as i128 {
                            fits = false;
                        }
                        j = j + 1;
                    }
                    if fits {
                        let ghost marked = fin.update(i as int, true);
                        let mut j: usize = 0;
                        while j < r
                            invariant
                                j <= r,
                                i < t,
                                d0 == old(self)@,
                                d0.wf(),
                                t == d0.threads(),
                                r == d0.resources(),
                                r == sim@.len(),
                                t == fin.len(),
                                !fin[i as int],
                                marked == fin.update(i as int, true),
                                self.available == old(self).available,
                                self.work == old(self).work,
                                self.need == old(self).need,
                                self.allocation == old(self).allocation,
                                fin == self.finished@,
                                forall|k: int|
                                    #![trigger sim@[k]]
                                    0 <= k < j ==> sim@[k] == d0.work_after(marked, k),
                                forall|k: int|
                                    #![trigger sim@[k]]
                                    j <= k < r ==> sim@[k] == d0.work_after(fin, k),
                            decreases r - j,
                        {
                            proof {
                                lemma_released_update(d0.allocation, fin, j as int, t as int, i as int);
                                lemma_released_bound(d0.allocation, marked, j as int, t as int);
                            }
                            let sum = sim[j] + self.allocation[i][j] as i128;
                            sim[j] = sum;
                            j = j + 1;
                        }
                        self.finished[i] = true;
                        changed = true;
                    }
                }
                i = i + 1;
            }
            progress = changed;
            round = round + 1;
        }
        proof {
            if round < t {
                d0.lemma_rounds_fixpoint(self.finished@, (t - round) as nat);
            }
        }
        let mut safe = true;
        let mut i: usize = 0;
        while i < t
            invariant
                i <= t,
                t == self.finished@.len(),
                safe <==> forall|k: int| 0 <= k < i ==> self.finished@[k],
            decreases t - i,
        {
            if !self.finished[i] {
                safe = false;
            }
            i = i + 1;
        }
        safe
    }

    /// Registers `units` units of resource `id`, which a new primitive brings.
    pub fn declare(&mut self, id: usize, units: isize)
        requires
            old(self).wf(),
            id < usize::MAX,
            old(self)@.can_declare(id as int, units as int),
        ensures
            final(self).wf(),
            final(self)@ == old(self)@.declared(id as int, units as int),
    {
        self.grow(0, id + 1);
        let ghost g = self@;
        assert(g.available[id as int] == self.available@[id as int]);
        assert(g.work[id as int] == self.work@[id as int]);
        self.available[id] = self.available[id] + units;
        self.work[id] = self.work[id] + units;
        let ghost expected = old(self)@.declared(id as int, units as int);
        assert(self@.available =~= expected.available);
        assert(self@.work =~= expected.work);
    }

    /// Thread `tid` asks for one unit of resource `id`. The request is
    /// recorded in `need`, then the safety check runs. In a safe state the
    /// unit moves from `work` to the thread's `allocation` and the request is
    /// granted; otherwise the request stays recorded and is refused.
    pub fn request(&mut self, tid: usize, id: usize) -> (granted: bool)
        requires
            old(self).wf(),
            tid < usize::MAX,
            id < usize::MAX,
            old(self)@.can_request(tid as int, id as int),
        ensures
            final(self).wf(),
            (final(self)@, granted) == old(self)@.request(tid as int, id as int),
    {
        self.grow(tid + 1, id + 1);
        let ghost g = self@;
        assert(g.need[tid as int][id as int] == self.need@[tid as int]@[id as int]);
        assert(g.work[id as int] == old(self)@.work_at(id as int));
        assert(g.allocation[tid as int][id as int] == old(self)@.allocation_at(
            tid as int,
            id as int,
        ));
        self.need[tid][id] = self.need[tid][id] + 1;
        let ghost asked = self@;
        assert(asked.need =~~= g.need.update(
            tid as int,
            g.need[tid as int].update(id as int, g.need[tid as int][id as int] + 1),
        ));
        let granted = self.check();
        if granted {
            let ghost c = self@;
            assert(c.need[tid as int][id as int] == self.need@[tid as int]@[id as int]);
            self.need[tid][id] = self.need[tid][id] - 1;
            self.work[id] = self.work[id] - 1;
            self.allocation[tid][id] = self.allocation[tid][id] + 1;
            assert(self@.work =~= c.granted(tid as int, id as int).work);
            assert(self@.need =~~= c.granted(tid as int, id as int).need);
            assert(self@.allocation =~~= c.granted(tid as int, id as int).allocation);
        }
        granted
    }

    /// A mutex gives back its unit of resource `id`.
    pub fn release_mutex(&mut self, id: usize)
        requires
            old(self).wf(),
            id < usize::MAX,
            old(self)@.work_at(id as int) < isize::MAX,
        ensures
            final(self).wf(),
            final(self)@ == old(self)@.mutex_released(id as int),
    {
        self.grow(0, id + 1);
        let ghost g = self@;
        assert(g.work[id as int] == self.work@[id as int]);
        self.work[id] = self.work[id] + 1;
        let ghost expected = old(self)@.mutex_released(id as int);
        assert(self@.work =~= expected.work);
    }

    /// Thread `tid` puts a unit of resource `id` back into a semaphore.
    pub fn release_semaphore(&mut self, tid: usize, id: usize)
        requires
            old(self).wf(),
            tid < usize::MAX,
            id < usize::MAX,
            old(self)@.can_release(tid as int, id as int),
        ensures
            final(self).wf(),
            final(self)@ == old(self)@.semaphore_released(tid as int, id as int),
    {
        self.grow(tid + 1, id + 1);
        let ghost g = self@;
        assert(g.work[id as int] == self.work@[id as int]);
        assert(g.allocation[tid as int][id as int] == old(self)@.allocation_at(
            tid as int,
            id as int,
        ));
        self.work[id] = self.work[id] + 1;
        self.allocation[tid][id] = self.allocation[tid][id] - 1;
        let ghost expected = old(self)@.semaphore_released(tid as int, id as int);
        assert(self@.work =~= expected.work);
        assert(self@.allocation =~~= expected.allocation);
    }
}

/// Number of threads below `n` that `fin` marks.
pub open spec fn marked(fin: Seq<bool>, n: int) -> int
    decreases n,
{
    if n <= 0 {
        0
    } else {
        marked(fin, n - 1) + if fin[n - 1] {
            1int
        } else {
            0int
        }
    }
}

/// No more threads are marked than there are, and where all count as
/// marked, each one is.
pub proof fn lemma_marked_bound(fin: Seq<bool>, n: int)
    requires
        0 <= n <= fin.len(),
    ensures
        0 <= marked(fin, n) <= n,
        marked(fin, n) == n ==> forall|k: int| 0 <= k < n ==> fin[k],
    decreases n,
{
    if n > 0 {
        lemma_marked_bound(fin, n - 1);
    }
}

/// A marking that keeps every mark of another counts at least as many, and
/// more if it has a mark the other lacks.
pub proof fn lemma_marked_grows(a: Seq<bool>, b: Seq<bool>, n: int)
    requires
        0 <= n <= a.len(),
        a.len() == b.len(),
        forall|k: int| 0 <= k < a.len() && a[k] ==> b[k],
    ensures
        marked(a, n) <= marked(b, n),
        (exists|k: int| 0 <= k < n && !a[k] && b[k]) ==> marked(a, n) < marked(b, n),
    decreases n,
{
    if n > 0 {
        lemma_marked_grows(a, b, n - 1);
    }
}

impl DetectorView {
    /// A scan keeps the number of threads and every mark that was there.
    pub proof fn lemma_pass_keeps_marks(self, fin: Seq<bool>, i: int)
        requires
            fin.len() == self.threads(),
        ensures
            self.pass(fin, i).len() == fin.len(),
            forall|k: int| 0 <= k < fin.len() && fin[k] ==> self.pass(fin, i)[k],
        decreases self.threads() - i,
    {
        if i < 0 || i >= self.threads() {
        } else if !fin[i] && self.can_finish(fin, i) {
            let more = fin.update(i, true);
            self.lemma_pass_keeps_marks(more, i + 1);
            assert forall|k: int| 0 <= k < fin.len() && fin[k] implies self.pass(fin, i)[k] by {
                assert(more[k]);
            }
        } else {
            self.lemma_pass_keeps_marks(fin, i + 1);
        }
    }

    /// A scan over threads that are all marked changes nothing.
    pub proof fn lemma_pass_when_all_marked(self, fin: Seq<bool>, i: int)
        requires
            fin.len() == self.threads(),
            forall|k: int| 0 <= k < fin.len() ==> fin[k],
        ensures
            self.pass(fin, i) == fin,
        decreases self.threads() - i,
    {
        if 0 <= i < self.threads() {
            self.lemma_pass_when_all_marked(fin, i + 1);
        }
    }

    /// After `n` scans either a further scan changes nothing, or each of
    /// the `n` scans has marked a thread.
    pub proof fn lemma_rounds_progress(self, fin: Seq<bool>, n: nat)
        requires
            fin.len() == self.threads(),
        ensures
            self.rounds(fin, n).len() == fin.len(),
            self.pass(self.rounds(fin, n), 0) == self.rounds(fin, n) || marked(
                self.rounds(fin, n),
                self.threads(),
            ) >= marked(fin, self.threads()) + n,
        decreases n,
    {
        if n > 0 {
            let next = self.pass(fin, 0);
            self.lemma_pass_keeps_marks(fin, 0);
            if next == fin {
                self.lemma_rounds_fixpoint(fin, n);
            } else {
                assert(exists|k: int| 0 <= k < fin.len() && !fin[k] && next[k]) by {
                    if forall|k: int| 0 <= k < fin.len() ==> fin[k] == next[k] {
                        assert(next =~= fin);
                    }
                }
                lemma_marked_grows(fin, next, self.threads());
                self.lemma_rounds_progress(next, (n - 1) as nat);
            }
        }
    }

    /// One scan per thread is enough: after the scans that `settled` makes,
    /// a further scan marks no more thread. The check therefore yields what
    /// scanning until nothing changes yields.
    pub proof fn lemma_settled_is_fixpoint(self)
        ensures
            self.pass(self.settled(), 0) == self.settled(),
            self.settled().len() == self.threads(),
    {
        let none = Seq::new(self.threads() as nat, |i: int| false);
        let n = self.threads() as nat;
        self.lemma_rounds_progress(none, n);
        let last = self.rounds(none, n);
        if self.pass(last, 0) != last {
            lemma_marked_bound(none, self.threads());
            lemma_marked_bound(last, self.threads());
            self.lemma_pass_when_all_marked(last, 0);
        }
    }
}

/// Units of resource `j` that the threads below `n` hold together.
pub open spec fn holdings(allocation: Seq<Seq<int>>, j: int, n: int) -> int
    decreases n,
{
    if n <= 0 {
        0
    } else {
        holdings(allocation, j, n - 1) + allocation[n - 1][j]
    }
}

/// Two tables that agree on resource `j` in every thread below `n` but
/// thread `tid`, where the second holds `delta` more, differ by `delta` in
/// what is held of `j`, or not at all if `tid` is not below `n`.
pub proof fn lemma_holdings_changed(
    a: Seq<Seq<int>>,
    b: Seq<Seq<int>>,
    j: int,
    n: int,
    tid: int,
    delta: int,
)
    requires
        forall|t: int| 0 <= t < n && t != tid ==> (#[trigger] b[t])[j] == a[t][j],
        0 <= tid < n ==> b[tid][j] == a[tid][j] + delta,
    ensures
        holdings(b, j, n) == holdings(a, j, n) + if 0 <= tid < n {
            delta
        } else {
            0
        },
    decreases n,
{
    if n > 0 {
        lemma_holdings_changed(a, b, j, n - 1, tid, delta);
    }
}

/// Threads that hold nothing of resource `j` add nothing to what is held.
pub proof fn lemma_holdings_padded(a: Seq<Seq<int>>, j: int, m: int, n: int)
    requires
        0 <= m <= n,
        forall|t: int| m <= t < n ==> (#[trigger] a[t])[j] == 0,
    ensures
        holdings(a, j, n) == holdings(a, j, m),
    decreases n,
{
    if n > m {
        lemma_holdings_padded(a, j, m, n - 1);
    }
}

impl DetectorView {
    /// Of every resource, what is free and what the threads hold add up to
    /// what exists.
    pub open spec fn balanced(self) -> bool {
        forall|j: int|
            0 <= j < self.resources() ==> self.work[j] + #[trigger] holdings(
                self.allocation,
                j,
                self.threads(),
            ) == self.available[j]
    }

    /// Widening the table keeps the balance.
    pub proof fn lemma_grown_balanced(self, threads: int, resources: int)
        requires
            self.wf(),
            self.balanced(),
        ensures
            self.grown(threads, resources).wf(),
            self.grown(threads, resources).balanced(),
    {
        let g = self.grown(threads, resources);
        assert forall|j: int| 0 <= j < g.resources() implies g.work[j] + #[trigger] holdings(
            g.allocation,
            j,
            g.threads(),
        ) == g.available[j] by {
            lemma_holdings_padded(g.allocation, j, self.threads(), g.threads());
            if j < self.resources() {
                lemma_holdings_changed(self.allocation, g.allocation, j, self.threads(), -1, 0);
            } else {
                lemma_holdings_padded(g.allocation, j, 0, self.threads());
            }
        }
    }

    /// Registering units keeps the balance.
    pub proof fn lemma_declared_balanced(self, id: int, units: int)
        requires
            self.wf(),
            self.balanced(),
            0 <= id,
        ensures
            self.declared(id, units).wf(),
            self.declared(id, units).balanced(),
    {
        let g = self.grown(0, id + 1);
        let d = self.declared(id, units);
        self.lemma_grown_balanced(0, id + 1);
        assert forall|j: int| 0 <= j < d.resources() implies d.work[j] + #[trigger] holdings(
            d.allocation,
            j,
            d.threads(),
        ) == d.available[j] by {
            assert(g.work[j] + holdings(g.allocation, j, g.threads()) == g.available[j]);
        }
    }

    /// A request, granted or refused, keeps the balance: a unit that is
    /// granted leaves `work` and enters the thread's `allocation`.
    pub proof fn lemma_request_balanced(self, tid: int, id: int)
        requires
            self.wf(),
            self.balanced(),
            0 <= tid,
            0 <= id,
        ensures
            self.request(tid, id).0.wf(),
            self.request(tid, id).0.balanced(),
    {
        let g = self.grown(tid + 1, id + 1);
        self.lemma_grown_balanced(tid + 1, id + 1);
        let asked = self.recorded(tid, id);
        let after = self.request(tid, id).0;
        asked.lemma_settled_is_fixpoint();
        assert forall|j: int| 0 <= j < after.resources() implies after.work[j]
            + #[trigger] holdings(after.allocation, j, after.threads()) == after.available[j] by {
            assert(g.work[j] + holdings(g.allocation, j, g.threads()) == g.available[j]);
            if asked.safe() {
                lemma_holdings_changed(
                    g.allocation,
                    after.allocation,
                    j,
                    g.threads(),
                    tid,
                    if j == id {
                        1
                    } else {
                        0
                    },
                );
            }
        }
    }

    /// Putting a unit back into a semaphore keeps the balance: the unit
    /// leaves the thread's `allocation` and enters `work`.
    pub proof fn lemma_semaphore_released_balanced(self, tid: int, id: int)
        requires
            self.wf(),
            self.balanced(),
            0 <= tid,
            0 <= id,
        ensures
            self.semaphore_released(tid, id).wf(),
            self.semaphore_released(tid, id).balanced(),
    {
        let g = self.grown(tid + 1, id + 1);
        self.lemma_grown_balanced(tid + 1, id + 1);
        let after = self.semaphore_released(tid, id);
        assert forall|j: int| 0 <= j < after.resources() implies after.work[j]
            + #[trigger] holdings(after.allocation, j, after.threads()) == after.available[j] by {
            lemma_holdings_changed(
                g.allocation,
                after.allocation,
                j,
                g.threads(),
                tid,
                if j == id {
                    -1
                } else {
                    0
                },
            );
        }
    }
}

/// A marking that keeps every mark of another counts at least as much as
/// released, where no thread holds less than nothing.
pub proof fn lemma_released_grows(
    allocation: Seq<Seq<int>>,
    a: Seq<bool>,
    b: Seq<bool>,
    j: int,
    n: int,
)
    requires
        0 <= n <= a.len(),
        a.len() == b.len(),
        forall|t: int| 0 <= t < a.len() && a[t] ==> b[t],
        forall|t: int| 0 <= t < n ==> (#[trigger] allocation[t])[j] >= 0,
    ensures
        released(allocation, a, j, n) <= released(allocation, b, j, n),
    decreases n,
{
    if n > 0 {
        lemma_released_grows(allocation, a, b, j, n - 1);
    }
}

impl DetectorView {
    /// No thread holds less than nothing of any resource.
    pub open spec fn holds_no_debt(self) -> bool {
        forall|t: int, j: int|
            0 <= t < self.threads() && 0 <= j < self.resources() ==> #[trigger] self.allocation[t][j]
                >= 0
    }

    /// The marking of exactly the threads that occur in `done`.
    pub open spec fn marks_of(self, done: Seq<int>) -> Seq<bool> {
        Seq::new(self.threads() as nat, |t: int| done.contains(t))
    }

    /// `order` is a safe sequence: it lists every thread once, and each
    /// thread needs no more than is free once the threads before it have
    /// given back what they hold.
    pub open spec fn is_safe_order(self, order: Seq<int>) -> bool {
        &&& order.no_duplicates()
        &&& forall|k: int| 0 <= k < order.len() ==> 0 <= #[trigger] order[k] < self.threads()
        &&& forall|t: int| 0 <= t < self.threads() ==> #[trigger] order.contains(t)
        &&& forall|k: int|
            0 <= k < order.len() ==> self.can_finish(
                self.marks_of(#[trigger] order.take(k)),
                order[k],
            )
    }

    /// `order` lists, without repetition, exactly the threads that `fin`
    /// marks, and each of them can finish after those before it.
    pub open spec fn tracks(self, fin: Seq<bool>, order: Seq<int>) -> bool {
        &&& fin.len() == self.threads()
        &&& order.no_duplicates()
        &&& forall|k: int| 0 <= k < order.len() ==> 0 <= #[trigger] order[k] < self.threads()
        &&& forall|t: int| 0 <= t < self.threads() ==> fin[t] == #[trigger] order.contains(t)
        &&& forall|k: int|
            0 <= k < order.len() ==> self.can_finish(
                self.marks_of(#[trigger] order.take(k)),
                order[k],
            )
    }

    /// The threads that a scan from `i` upwards marks, appended to `order`
    /// in the order in which it marks them.
    pub open spec fn pass_order(self, fin: Seq<bool>, order: Seq<int>, i: int) -> Seq<int>
        decreases self.threads() - i,
    {
        if i < 0 || i >= self.threads() {
            order
        } else if !fin[i] && self.can_finish(fin, i) {
            self.pass_order(fin.update(i, true), order.push(i), i + 1)
        } else {
            self.pass_order(fin, order, i + 1)
        }
    }

    /// The threads that `n` scans mark, appended to `order` in the order in
    /// which they are marked.
    pub open spec fn rounds_order(self, fin: Seq<bool>, order: Seq<int>, n: nat) -> Seq<int>
        decreases n,
    {
        if n == 0 {
            order
        } else {
            self.rounds_order(self.pass(fin, 0), self.pass_order(fin, order, 0), (n - 1) as nat)
        }
    }

    /// A scan extends a tracked order to a tracked order.
    pub proof fn lemma_pass_tracks(self, fin: Seq<bool>, order: Seq<int>, i: int)
        requires
            self.tracks(fin, order),
        ensures
            self.tracks(self.pass(fin, i), self.pass_order(fin, order, i)),
        decreases self.threads() - i,
    {
        if i < 0 || i >= self.threads() {
        } else if !fin[i] && self.can_finish(fin, i) {
            let more = fin.update(i, true);
            let longer = order.push(i);
            assert(!order.contains(i));
            assert forall|t: int| 0 <= t < self.threads() implies more[t]
                == #[trigger] longer.contains(t) by {
                if order.contains(t) {
                    let k = choose|k: int| 0 <= k < order.len() && order[k] == t;
                    assert(longer[k] == t);
                }
                if t == i {
                    assert(longer[order.len() as int] == i);
                }
            }
            assert forall|k: int| 0 <= k < longer.len() implies self.can_finish(
                self.marks_of(#[trigger] longer.take(k)),
                longer[k],
            ) by {
                assert(longer.take(k) =~= order.take(k));
                if k == order.len() {
                    assert(order.take(k) =~= order);
                    assert(self.marks_of(order) =~= fin);
                }
            }
            self.lemma_pass_tracks(more, longer, i + 1);
        } else {
            self.lemma_pass_tracks(fin, order, i + 1);
        }
    }

    /// Scans extend a tracked order to a tracked order.
    pub proof fn lemma_rounds_track(self, fin: Seq<bool>, order: Seq<int>, n: nat)
        requires
            self.tracks(fin, order),
        ensures
            self.tracks(self.rounds(fin, n), self.rounds_order(fin, order, n)),
        decreases n,
    {
        if n > 0 {
            self.lemma_pass_tracks(fin, order, 0);
            self.lemma_rounds_track(
                self.pass(fin, 0),
                self.pass_order(fin, order, 0),
                (n - 1) as nat,
            );
        }
    }

    /// Where a scan from `i` upwards changes nothing, no unmarked thread
    /// from `i` upwards can finish.
    pub proof fn lemma_fixpoint_blocks(self, fin: Seq<bool>, i: int, t: int)
        requires
            fin.len() == self.threads(),
            self.pass(fin, i) == fin,
            0 <= i <= t < self.threads(),
            !fin[t],
        ensures
            !self.can_finish(fin, t),
        decreases self.threads() - i,
    {
        if !fin[i] && self.can_finish(fin, i) {
            self.lemma_pass_keeps_marks(fin.update(i, true), i + 1);
            assert(fin.update(i, true)[i]);
        } else if i < t {
            self.lemma_fixpoint_blocks(fin, i + 1, t);
        }
    }

    /// The check finds a state safe exactly when a safe sequence exists,
    /// provided that no thread holds less than nothing. The sequence in
    /// which the check marks the threads is such a sequence in any case.
    pub proof fn lemma_safe_iff_safe_order(self)
        requires
            self.wf(),
        ensures
            self.safe() ==> self.is_safe_order(
                self.rounds_order(
                    Seq::new(self.threads() as nat, |i: int| false),
                    Seq::empty(),
                    self.threads() as nat,
                ),
            ),
            self.holds_no_debt() ==> (self.safe() <==> exists|order: Seq<int>|
                self.is_safe_order(order)),
    {
        let none = Seq::new(self.threads() as nat, |i: int| false);
        let nobody = Seq::<int>::empty();
        let n = self.threads() as nat;
        let marking = self.rounds_order(none, nobody, n);
        self.lemma_rounds_track(none, nobody, n);
        let fin = self.settled();
        if self.safe() {
            assert(self.is_safe_order(marking));
        }
        if self.holds_no_debt() {
            if exists|order: Seq<int>| self.is_safe_order(order) {
                let order = choose|order: Seq<int>| self.is_safe_order(order);
                self.lemma_safe_order_settles(order, order.len() as int);
                assert forall|t: int| 0 <= t < self.threads() implies #[trigger] fin[t] by {
                    assert(order.contains(t));
                }
            }
        }
    }

    /// Every thread among the first `n` of a safe sequence is marked by the
    /// check, provided that no thread holds less than nothing.
    pub proof fn lemma_safe_order_settles(self, order: Seq<int>, n: int)
        requires
            self.wf(),
            self.holds_no_debt(),
            self.is_safe_order(order),
            0 <= n <= order.len(),
        ensures
            forall|k: int| 0 <= k < n ==> self.settled()[#[trigger] order[k]],
        decreases n,
    {
        if n > 0 {
            self.lemma_safe_order_settles(order, n - 1);
            self.lemma_settled_is_fixpoint();
            let fin = self.settled();
            let last = order[n - 1];
            let earlier = order.take(n - 1);
            let before = self.marks_of(earlier);
            if !fin[last] {
                assert forall|j: int| 0 <= j < self.resources() implies self.need[last][j]
                    <= #[trigger] self.work_after(fin, j) by {
                    lemma_released_grows(self.allocation, before, fin, j, self.threads());
                    assert(self.need[last][j] <= self.work_after(before, j));
                }
                self.lemma_fixpoint_blocks(fin, 0, last);
            }
        }
    }
}

} // verus!
