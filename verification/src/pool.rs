//! The job pool: a fixed number of permits, handed to the jobs that wait.
//!
//! A job may be in its execution phase only while it holds a permit. The
//! pool decides who is admitted and keeps the books; the caller starts the
//! jobs it is told to start and reports each one that has its outcome.

use vstd::prelude::*;

verus! {

/// Where a job stands with respect to the permits.
#[derive(Clone, Copy, Debug, PartialEq, Eq, Structural)]
pub enum Slot {
    /// Not admitted yet.
    Waiting,
    /// Holds a permit.
    Running,
    /// Has given its permit back.
    Done,
}

/// How many of the slots are of the kind.
pub open spec fn count(slots: Seq<Slot>, kind: Slot) -> nat
    decreases slots.len(),
{
    if slots.len() == 0 {
        0
    } else {
        count(slots.drop_last(), kind) + if slots.last() == kind {
            1nat
        } else {
            0nat
        }
    }
}

/// The index of the first waiting slot, or the number of slots if none
/// waits.
pub open spec fn first_waiting(slots: Seq<Slot>) -> nat
    decreases slots.len(),
{
    if slots.len() == 0 || slots[0] == Slot::Waiting {
        0
    } else {
        1 + first_waiting(slots.drop_first())
    }
}

/// A pool as a mathematical value: its capacity and one slot for each job.
pub struct PoolView {
    pub capacity: nat,
    pub slots: Seq<Slot>,
}

/// One operation on a pool.
pub enum PoolOp {
    /// One more job waits.
    Add,
    /// Admit the first job that waits, if a permit is free.
    Grant,
    /// The job of this index has its outcome.
    Release(nat),
}

impl PoolView {
    /// The pool of `jobs` waiting jobs.
    pub open spec fn start(capacity: nat, jobs: nat) -> PoolView {
        PoolView { capacity, slots: Seq::new(jobs, |i: int| Slot::Waiting) }
    }

    /// The pool with one more job, which waits.
    pub open spec fn add(self) -> PoolView {
        PoolView { slots: self.slots.push(Slot::Waiting), ..self }
    }

    /// The number of permits that are held.
    pub open spec fn held(self) -> nat {
        count(self.slots, Slot::Running)
    }

    /// A permit is free and a job waits for it.
    pub open spec fn can_grant(self) -> bool {
        self.held() < self.capacity && first_waiting(self.slots) < self.slots.len()
    }

    /// The pool after the first waiting job was admitted, if one can be.
    pub open spec fn grant(self) -> PoolView {
        if self.can_grant() {
            PoolView {
                slots: self.slots.update(first_waiting(self.slots) as int, Slot::Running),
                ..self
            }
        } else {
            self
        }
    }

    /// The job holds a permit.
    pub open spec fn runs(self, job: nat) -> bool {
        job < self.slots.len() && self.slots[job as int] == Slot::Running
    }

    /// The pool after the job gave its permit back, if it held one.
    pub open spec fn release(self, job: nat) -> PoolView {
        if self.runs(job) {
            PoolView { slots: self.slots.update(job as int, Slot::Done), ..self }
        } else {
            self
        }
    }

    /// Every job has given its permit back.
    pub open spec fn finished(self) -> bool {
        forall|i: int| 0 <= i < self.slots.len() ==> self.slots[i] == Slot::Done
    }

    /// The pool after one operation.
    pub open spec fn apply(self, op: PoolOp) -> PoolView {
        match op {
            PoolOp::Add => self.add(),
            PoolOp::Grant => self.grant(),
            PoolOp::Release(job) => self.release(job),
        }
    }

    /// The pool after the operations, in order.
    pub open spec fn run(self, ops: Seq<PoolOp>) -> PoolView
        decreases ops.len(),
    {
        if ops.len() == 0 {
            self
        } else {
            self.run(ops.drop_last()).apply(ops.last())
        }
    }
}

/// No more slots are of a kind than there are slots.
pub proof fn lemma_count_bound(slots: Seq<Slot>, kind: Slot)
    ensures
        count(slots, kind) <= slots.len(),
    decreases slots.len(),
{
    if slots.len() > 0 {
        lemma_count_bound(slots.drop_last(), kind);
    }
}

/// Changing one slot takes one from the count of its old kind and adds one
/// to the count of its new kind.
pub proof fn lemma_count_update(slots: Seq<Slot>, i: int, to: Slot, kind: Slot)
    requires
        0 <= i < slots.len(),
    ensures
        count(slots.update(i, to), kind) + (if slots[i] == kind {
            1nat
        } else {
            0nat
        }) == count(slots, kind) + (if to == kind {
            1nat
        } else {
            0nat
        }),
    decreases slots.len(),
{
    let after = slots.update(i, to);
    if i == slots.len() - 1 {
        assert(after.drop_last() =~= slots.drop_last());
    } else {
        assert(after.drop_last() =~= slots.drop_last().update(i, to));
        lemma_count_update(slots.drop_last(), i, to, kind);
    }
}

/// The slots are all of the kind exactly when their count is their number,
/// and none is of the kind exactly when the count is zero.
pub proof fn lemma_count_all_or_none(slots: Seq<Slot>, kind: Slot)
    ensures
        count(slots, kind) == slots.len() <==> forall|i: int|
            0 <= i < slots.len() ==> slots[i] == kind,
        count(slots, kind) == 0 <==> forall|i: int| 0 <= i < slots.len() ==> slots[i] != kind,
    decreases slots.len(),
{
    if slots.len() > 0 {
        let front = slots.drop_last();
        lemma_count_all_or_none(front, kind);
        lemma_count_bound(front, kind);
        if forall|i: int| 0 <= i < slots.len() ==> slots[i] == kind {
            assert forall|i: int| 0 <= i < front.len() implies front[i] == kind by {
                assert(front[i] == slots[i]);
            }
        }
        if forall|i: int| 0 <= i < slots.len() ==> slots[i] != kind {
            assert forall|i: int| 0 <= i < front.len() implies front[i] != kind by {
                assert(front[i] == slots[i]);
            }
        }
        if count(slots, kind) == slots.len() {
            assert forall|i: int| 0 <= i < slots.len() implies slots[i] == kind by {
                if i < front.len() {
                    assert(front[i] == slots[i]);
                }
            }
        }
        if count(slots, kind) == 0 {
            assert forall|i: int| 0 <= i < slots.len() implies slots[i] != kind by {
                if i < front.len() {
                    assert(front[i] == slots[i]);
                }
            }
        }
    }
}

/// The first waiting slot is at `m` when no slot before `m` waits and the
/// slot at `m`, if there is one, does.
pub proof fn lemma_first_waiting_is(slots: Seq<Slot>, m: int)
    requires
        0 <= m <= slots.len(),
        forall|i: int| 0 <= i < m ==> slots[i] != Slot::Waiting,
        m < slots.len() ==> slots[m] == Slot::Waiting,
    ensures
        first_waiting(slots) == m,
    decreases m,
{
    if m > 0 {
        let rest = slots.drop_first();
        assert forall|i: int| 0 <= i < m - 1 implies rest[i] != Slot::Waiting by {
            assert(rest[i] == slots[i + 1]);
        }
        assert(m - 1 < rest.len() ==> rest[m - 1] == slots[m]);
        lemma_first_waiting_is(rest, m - 1);
    }
}

/// The first waiting slot waits, and no slot before it does.
pub proof fn lemma_first_waiting(slots: Seq<Slot>)
    ensures
        first_waiting(slots) <= slots.len(),
        first_waiting(slots) < slots.len() ==> slots[first_waiting(slots) as int] == Slot::Waiting,
        forall|i: int| 0 <= i < first_waiting(slots) ==> slots[i] != Slot::Waiting,
    decreases slots.len(),
{
    if !(slots.len() == 0 || slots[0] == Slot::Waiting) {
        let rest = slots.drop_first();
        lemma_first_waiting(rest);
        assert forall|i: int| 0 <= i < first_waiting(slots) implies slots[i] != Slot::Waiting by {
            if i > 0 {
                assert(rest[i - 1] == slots[i]);
            }
        }
    }
}

/// One operation never takes the permits held above the capacity.
pub proof fn lemma_apply_keeps_bound(pool: PoolView, op: PoolOp)
    requires
        pool.held() <= pool.capacity,
    ensures
        pool.apply(op).held() <= pool.capacity,
        pool.apply(op).capacity == pool.capacity,
        pool.apply(op).slots.len() >= pool.slots.len(),
{
    match op {
        PoolOp::Add => {
            assert(pool.add().slots.drop_last() =~= pool.slots);
        },
        PoolOp::Grant => {
            if pool.can_grant() {
                lemma_first_waiting(pool.slots);
                lemma_count_update(
                    pool.slots,
                    first_waiting(pool.slots) as int,
                    Slot::Running,
                    Slot::Running,
                );
            }
        },
        PoolOp::Release(job) => {
            if pool.runs(job) {
                lemma_count_update(pool.slots, job as int, Slot::Done, Slot::Running);
            }
        },
    }
}

/// At no time do more jobs hold a permit than the pool has permits: whatever
/// the capacity, the number of jobs and the operations, after them the
/// number of permits held is at most the capacity.
pub proof fn lemma_permits_never_exceed_capacity(capacity: nat, jobs: nat, ops: Seq<PoolOp>)
    ensures
        PoolView::start(capacity, jobs).run(ops).held() <= capacity,
        PoolView::start(capacity, jobs).run(ops).capacity == capacity,
        PoolView::start(capacity, jobs).run(ops).slots.len() >= jobs,
    decreases ops.len(),
{
    let start = PoolView::start(capacity, jobs);
    if ops.len() == 0 {
        lemma_count_all_or_none(start.slots, Slot::Running);
    } else {
        lemma_permits_never_exceed_capacity(capacity, jobs, ops.drop_last());
        lemma_apply_keeps_bound(start.run(ops.drop_last()), ops.last());
    }
}

/// A pool with at least one permit is never stuck: while a job waits and no
/// permit is held, the next job is admitted.
pub proof fn lemma_idle_pool_admits(pool: PoolView)
    requires
        pool.capacity >= 1,
        pool.held() == 0,
        exists|i: int| 0 <= i < pool.slots.len() && pool.slots[i] == Slot::Waiting,
    ensures
        pool.can_grant(),
        pool.grant().held() == 1,
{
    lemma_first_waiting(pool.slots);
    lemma_count_update(pool.slots, first_waiting(pool.slots) as int, Slot::Running, Slot::Running);
}

/// The pool's books.
pub struct Pool {
    capacity: usize,
    slots: Vec<Slot>,
    held: usize,
    next: usize,
    done: usize,
}

impl View for Pool {
    type V = PoolView;

    closed spec fn view(&self) -> PoolView {
        PoolView { capacity: self.capacity as nat, slots: self.slots@ }
    }
}

impl Pool {
    /// The counters agree with the slots, and the jobs that wait are the
    /// last ones.
    pub closed spec fn inv(&self) -> bool {
        &&& self.held == count(self.slots@, Slot::Running)
        &&& self.done == count(self.slots@, Slot::Done)
        &&& self.next <= self.slots.len()
        &&& forall|i: int| 0 <= i < self.next ==> self.slots@[i] != Slot::Waiting
        &&& forall|i: int| self.next <= i < self.slots.len() ==> self.slots@[i] == Slot::Waiting
    }

    /// The books are in order and no more permits are held than there are.
    pub open spec fn wf(&self) -> bool {
        self.inv() && self@.held() <= self@.capacity
    }

    /// A pool of `capacity` permits for `jobs` jobs, all waiting.
    pub fn new(capacity: usize, jobs: usize) -> (pool: Pool)
        ensures
            pool.wf(),
            pool@ == PoolView::start(capacity as nat, jobs as nat),
    {
        let mut slots: Vec<Slot> = Vec::new();
        let mut i: usize = 0;
        while i < jobs
            invariant
                i <= jobs,
                slots@ == Seq::new(i as nat, |k: int| Slot::Waiting),
            decreases jobs - i,
        {
            slots.push(Slot::Waiting);
            i += 1;
            assert(slots@ =~= Seq::new(i as nat, |k: int| Slot::Waiting));
        }
        proof {
            lemma_count_all_or_none(slots@, Slot::Running);
            lemma_count_all_or_none(slots@, Slot::Done);
        }
        Pool { capacity, slots, held: 0, next: 0, done: 0 }
    }

    /// The number of permits.
    pub fn capacity(&self) -> (n: usize)
        ensures
            n == self@.capacity,
    {
        self.capacity
    }

    /// The number of jobs.
    pub fn jobs(&self) -> (n: usize)
        ensures
            n == self@.slots.len(),
    {
        self.slots.len()
    }

    /// The number of permits that are held.
    pub fn permits_held(&self) -> (n: usize)
        requires
            self.wf(),
        ensures
            n == self@.held(),
            n <= self@.capacity,
    {
        self.held
    }

    /// Takes one more job, which waits, and returns its index.
    pub fn add_job(&mut self) -> (job: usize)
        requires
            old(self).wf(),
        ensures
            final(self).wf(),
            final(self)@ == old(self)@.add(),
            job == old(self)@.slots.len(),
    {
        let job = self.slots.len();
        self.slots.push(Slot::Waiting);
        assert(self.slots@.drop_last() =~= old(self).slots@);
        job
    }

    /// Where the job stands, or `None` if there is no job of this index.
    pub fn slot(&self, job: usize) -> (r: Option<Slot>)
        ensures
            r == (if job < self@.slots.len() {
                Some(self@.slots[job as int])
            } else {
                None
            }),
    {
        if job < self.slots.len() {
            Some(self.slots[job])
        } else {
            None
        }
    }

    /// Whether every job has given its permit back.
    pub fn is_finished(&self) -> (b: bool)
        requires
            self.wf(),
        ensures
            b == self@.finished(),
    {
        proof {
            lemma_count_all_or_none(self.slots@, Slot::Done);
        }
        self.done == self.slots.len()
    }

    /// Admits the first job that waits, if a permit is free, and returns its
    /// index; returns `None`, and changes nothing, when no permit is free or
    /// no job waits.
    pub fn acquire(&mut self) -> (admitted: Option<usize>)
        requires
            old(self).wf(),
        ensures
            final(self).wf(),
            final(self)@ == old(self)@.grant(),
            admitted == (if old(self)@.can_grant() {
                Some(first_waiting(old(self)@.slots) as usize)
            } else {
                None
            }),
            admitted matches Some(job) ==> old(self)@.slots[job as int] == Slot::Waiting
                && final(self)@.runs(job as nat) && final(self)@.held() == old(self)@.held() + 1,
    {
        proof {
            lemma_first_waiting_is(self.slots@, self.next as int);
        }
        if self.held < self.capacity && self.next < self.slots.len() {
            let job = self.next;
            proof {
                lemma_count_update(self.slots@, job as int, Slot::Running, Slot::Running);
                lemma_count_update(self.slots@, job as int, Slot::Running, Slot::Done);
            }
            self.slots.set(job, Slot::Running);
            self.held += 1;
            self.next += 1;
            Some(job)
        } else {
            None
        }
    }

    /// Takes back the permit of the job of this index. Returns whether the
    /// job held one; if it did not, nothing changes.
    pub fn release(&mut self, job: usize) -> (released: bool)
        requires
            old(self).wf(),
        ensures
            final(self).wf(),
            final(self)@ == old(self)@.release(job as nat),
            released == old(self)@.runs(job as nat),
            released ==> final(self)@.held() + 1 == old(self)@.held(),
    {
        if job < self.slots.len() && self.slots[job] == Slot::Running {
            proof {
                lemma_count_update(self.slots@, job as int, Slot::Done, Slot::Running);
                lemma_count_update(self.slots@, job as int, Slot::Done, Slot::Done);
                lemma_count_bound(self.slots@.update(job as int, Slot::Done), Slot::Done);
            }
            self.slots.set(job, Slot::Done);
            self.held -= 1;
            self.done += 1;
            true
        } else {
            false
        }
    }
}

} // verus!
