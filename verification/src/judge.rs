//! The judge: the jobs, the permits and the renderer under one roof.
//!
//! The judge is told which jobs there are and what happens to them; it says
//! which job to start next and what each job is to do, and it writes the
//! status lines. It keeps the three parts in step: a job is in its execution
//! phase exactly while it holds a permit, every admitted job has a row of its
//! own, and the run is over exactly when every job has its outcome.

use crate::cursor::{allocation, encode_all, Command, Cursor};
use crate::job::{
    action, next, rendered, ActionView, EventView, Job, JobAction, JobEvent, JobView, Phase,
};
use crate::pool::{
    first_waiting, lemma_count_all_or_none, lemma_count_update, lemma_first_waiting, Pool, PoolView,
    Slot,
};
use crate::summary::{job_views, summary, summary_text};
use vstd::prelude::*;
use vstd::string::StringExecFns;

verus! {

/// Where a job in the phase stands with respect to the permits: it holds
/// one from its admission until its outcome is set.
pub open spec fn slot_of(phase: Phase) -> Slot {
    match phase {
        Phase::Queued => Slot::Waiting,
        Phase::Running => Slot::Running,
        Phase::Collecting => Slot::Running,
        Phase::Finished => Slot::Done,
    }
}

/// A judge as a mathematical value: the jobs, the pool with one slot for
/// each job, the row the cursor is on and the number of rows.
pub struct JudgeView {
    pub jobs: Seq<JobView>,
    pub pool: PoolView,
    pub row: nat,
    pub rows: nat,
}

impl JudgeView {
    /// The judge of no jobs, with the one row the cursor starts on.
    pub open spec fn start(capacity: nat) -> JudgeView {
        JudgeView { jobs: Seq::empty(), pool: PoolView::start(capacity, 0), row: 0, rows: 1 }
    }

    /// The parts are in step. The cursor is on a row; no more permits are
    /// held than there are; each job's slot is that of its phase; the jobs
    /// were admitted in their order, the job of index `i` to row `i + 1`,
    /// and the rows are the first one and those of the admitted jobs.
    pub open spec fn wf(self) -> bool {
        &&& self.row < self.rows
        &&& self.rows <= self.jobs.len() + 1
        &&& self.pool.slots.len() == self.jobs.len()
        &&& self.pool.held() <= self.pool.capacity
        &&& forall|i: int|
            #![trigger self.jobs[i]]
            #![trigger self.pool.slots[i]]
            0 <= i < self.jobs.len() ==> {
                &&& self.pool.slots[i] == slot_of(self.jobs[i].phase)
                &&& self.jobs[i].wf()
                &&& if i + 1 < self.rows {
                    self.jobs[i].phase != Phase::Queued && self.jobs[i].cursor_pos == i + 1
                } else {
                    self.jobs[i].phase == Phase::Queued
                }
            }
    }

    /// Every job has its outcome.
    pub open spec fn finished(self) -> bool {
        forall|i: int| 0 <= i < self.jobs.len() ==> (#[trigger] self.jobs[i]).status.is_terminal()
    }

    /// The judge with one more job, which waits.
    pub open spec fn submit(self, job: JobView) -> JudgeView {
        JudgeView { jobs: self.jobs.push(job), pool: self.pool.add(), ..self }
    }

    /// The job that is started next: the first that waits, if a permit is
    /// free.
    pub open spec fn starting(self) -> Option<nat> {
        if self.pool.can_grant() {
            Some(first_waiting(self.pool.slots))
        } else {
            None
        }
    }

    /// The judge after the next job, if there is one, was started: the job
    /// is admitted to a new row and holds a permit.
    pub open spec fn start_next(self) -> JudgeView {
        match self.starting() {
            Some(i) => JudgeView {
                jobs: self.jobs.update(
                    i as int,
                    next(self.jobs[i as int], EventView::Admitted, self.rows),
                ),
                pool: self.pool.grant(),
                row: self.rows,
                rows: self.rows + 1,
            },
            None => self,
        }
    }

    /// What is sent to the terminal when the next job is started.
    pub open spec fn start_output(self) -> Seq<Command> {
        match self.starting() {
            Some(i) => rendered(self.jobs[i as int], EventView::Admitted, self.row, self.rows),
            None => Seq::empty(),
        }
    }

    /// The report concerns a job of the judge and is no admission, which
    /// only the judge itself decides.
    pub open spec fn accepts(self, index: nat, event: EventView) -> bool {
        index < self.jobs.len() && !(event is Admitted)
    }

    /// What the job of the index is to do next, once the event was reported.
    pub open spec fn reply(self, index: nat, event: EventView) -> ActionView {
        if self.accepts(index, event) {
            action(self.jobs[index as int], event)
        } else {
            ActionView::Nothing
        }
    }

    /// The judge after the event was reported of the job of the index: the
    /// job has taken its step, and has given its permit back if the step
    /// set its outcome.
    pub open spec fn report(self, index: nat, event: EventView) -> JudgeView {
        if self.accepts(index, event) {
            let job = self.jobs[index as int];
            let after = next(job, event, self.rows);
            JudgeView {
                jobs: self.jobs.update(index as int, after),
                pool: if action(job, event) is Release {
                    self.pool.release(index)
                } else {
                    self.pool
                },
                row: if after.phase != job.phase && after.phase == Phase::Finished {
                    after.cursor_pos
                } else {
                    self.row
                },
                ..self
            }
        } else {
            self
        }
    }

    /// What is sent to the terminal when the event is reported.
    pub open spec fn report_output(self, index: nat, event: EventView) -> Seq<Command> {
        if self.accepts(index, event) {
            rendered(self.jobs[index as int], event, self.row, self.rows)
        } else {
            Seq::empty()
        }
    }
}

/// While the parts are in step, no more jobs are in their execution phase
/// than there are permits, no two admitted jobs share a row, and the jobs
/// that have their outcome are those that gave their permit back: so every
/// job has its outcome exactly when the pool is finished.
pub proof fn lemma_judge_in_step(judge: JudgeView)
    requires
        judge.wf(),
    ensures
        judge.pool.held() <= judge.pool.capacity,
        forall|i: int|
            0 <= i < judge.jobs.len() ==> ((#[trigger] judge.jobs[i]).phase == Phase::Running
                || judge.jobs[i].phase == Phase::Collecting <==> judge.pool.runs(i as nat)),
        forall|i: int, j: int|
            0 <= i < j < judge.jobs.len() && (#[trigger] judge.jobs[i]).phase != Phase::Queued && (
            #[trigger] judge.jobs[j]).phase != Phase::Queued ==> judge.jobs[i].cursor_pos
                != judge.jobs[j].cursor_pos,
        forall|i: int|
            0 <= i < judge.jobs.len() && (#[trigger] judge.jobs[i]).phase != Phase::Queued
                ==> 0 < judge.jobs[i].cursor_pos < judge.rows,
        judge.finished() <==> judge.pool.finished(),
{
    assert forall|i: int| 0 <= i < judge.jobs.len() implies ((#[trigger] judge.jobs[i]).phase
        == Phase::Running || judge.jobs[i].phase == Phase::Collecting <==> judge.pool.runs(
        i as nat,
    )) by {
        assert(judge.pool.slots[i] == slot_of(judge.jobs[i].phase));
    }
    if judge.finished() {
        assert forall|i: int| 0 <= i < judge.pool.slots.len() implies judge.pool.slots[i]
            == Slot::Done by {
            assert(judge.jobs[i].status.is_terminal());
        }
    }
    if judge.pool.finished() {
        assert forall|i: int| 0 <= i < judge.jobs.len() implies (
        #[trigger] judge.jobs[i]).status.is_terminal() by {
            assert(judge.pool.slots[i] == Slot::Done);
        }
    }
}

/// The judge of no jobs has its parts in step, and every step of the judge
/// keeps them so: taking a job that has not started, starting the next
/// job, and whatever is reported of whichever job.
pub proof fn lemma_judge_stays_in_step(
    capacity: nat,
    judge: JudgeView,
    job: JobView,
    index: nat,
    event: EventView,
)
    requires
        judge.wf(),
        job.phase == Phase::Queued,
        job.wf(),
    ensures
        JudgeView::start(capacity).wf(),
        judge.submit(job).wf(),
        judge.start_next().wf(),
        judge.report(index, event).wf(),
{
    lemma_count_all_or_none(JudgeView::start(capacity).pool.slots, Slot::Running);
    lemma_submit_keeps_step(judge, job);
    lemma_start_keeps_step(judge);
    lemma_report_keeps_step(judge, index, event);
}

proof fn lemma_submit_keeps_step(judge: JudgeView, job: JobView)
    requires
        judge.wf(),
        job.phase == Phase::Queued,
        job.wf(),
    ensures
        judge.submit(job).wf(),
{
    let after = judge.submit(job);
    assert(after.pool.slots.drop_last() =~= judge.pool.slots);
    assert forall|k: int|
        #![trigger after.jobs[k]]
        #![trigger after.pool.slots[k]]
        0 <= k < after.jobs.len() implies {
        &&& after.pool.slots[k] == slot_of(after.jobs[k].phase)
        &&& after.jobs[k].wf()
        &&& if k + 1 < after.rows {
            after.jobs[k].phase != Phase::Queued && after.jobs[k].cursor_pos == k + 1
        } else {
            after.jobs[k].phase == Phase::Queued
        }
    } by {
        if k < judge.jobs.len() {
            assert(after.jobs[k] == judge.jobs[k]);
            assert(after.pool.slots[k] == judge.pool.slots[k]);
        }
    }
}

proof fn lemma_start_keeps_step(judge: JudgeView)
    requires
        judge.wf(),
    ensures
        judge.start_next().wf(),
        judge.starting() matches Some(i) ==> i + 1 == judge.rows && i < judge.jobs.len()
            && judge.jobs[i as int].phase == Phase::Queued,
{
    if let Some(i) = judge.starting() {
        lemma_first_waiting(judge.pool.slots);
        assert(judge.jobs[i as int].phase == Phase::Queued);
        if i > 0 {
            assert(judge.pool.slots[i - 1] != Slot::Waiting);
            assert(judge.jobs[i - 1].phase != Phase::Queued);
        }
        assert(i + 1 == judge.rows);
        let after = judge.start_next();
        lemma_count_update(judge.pool.slots, i as int, Slot::Running, Slot::Running);
        assert forall|k: int|
            #![trigger after.jobs[k]]
            #![trigger after.pool.slots[k]]
            0 <= k < after.jobs.len() implies {
            &&& after.pool.slots[k] == slot_of(after.jobs[k].phase)
            &&& after.jobs[k].wf()
            &&& if k + 1 < after.rows {
                after.jobs[k].phase != Phase::Queued && after.jobs[k].cursor_pos == k + 1
            } else {
                after.jobs[k].phase == Phase::Queued
            }
        } by {
            if k != i {
                assert(after.jobs[k] == judge.jobs[k]);
                assert(after.pool.slots[k] == judge.pool.slots[k]);
            }
        }
    }
}

proof fn lemma_report_keeps_step(judge: JudgeView, index: nat, event: EventView)
    requires
        judge.wf(),
    ensures
        judge.report(index, event).wf(),
        judge.accepts(index, event) ==> judge.jobs[index as int].placed(judge.rows),
        judge.accepts(index, event) && action(judge.jobs[index as int], event) is Release
            ==> judge.pool.runs(index),
{
    if judge.accepts(index, event) {
        let job = judge.jobs[index as int];
        let after = judge.report(index, event);
        assert(judge.pool.slots[index as int] == slot_of(job.phase));
        if action(job, event) is Release {
            lemma_count_update(
                judge.pool.slots,
                index as int,
                Slot::Done,
                Slot::Running,
            );
        }
        assert forall|k: int|
            #![trigger after.jobs[k]]
            #![trigger after.pool.slots[k]]
            0 <= k < after.jobs.len() implies {
            &&& after.pool.slots[k] == slot_of(after.jobs[k].phase)
            &&& after.jobs[k].wf()
            &&& if k + 1 < after.rows {
                after.jobs[k].phase != Phase::Queued && after.jobs[k].cursor_pos == k + 1
            } else {
                after.jobs[k].phase == Phase::Queued
            }
        } by {
            if k != index {
                assert(after.jobs[k] == judge.jobs[k]);
                assert(after.pool.slots[k] == judge.pool.slots[k]);
            }
        }
    }
}

/// The jobs of a run, with the permits they share and the renderer that
/// shows them.
pub struct Judge {
    jobs: Vec<Job>,
    pool: Pool,
    cursor: Cursor,
}

impl View for Judge {
    type V = JudgeView;

    closed spec fn view(&self) -> JudgeView {
        JudgeView {
            jobs: job_views(self.jobs@),
            pool: self.pool@,
            row: self.cursor.row(),
            rows: self.cursor.rows(),
        }
    }
}

impl Judge {
    /// The books of the pool are in order.
    pub closed spec fn inv(&self) -> bool {
        self.pool.wf()
    }

    /// The parts are in step, and the rows can still be counted.
    pub open spec fn wf(&self) -> bool {
        self.inv() && self@.wf() && self@.jobs.len() + 2 <= usize::MAX
    }

    /// A judge of no jobs, with `capacity` permits.
    pub fn new(capacity: usize) -> (judge: Judge)
        ensures
            judge.wf(),
            judge@ == JudgeView::start(capacity as nat),
    {
        let judge = Judge { jobs: Vec::new(), pool: Pool::new(capacity, 0), cursor: Cursor::new() };
        proof {
            assert(judge@.jobs =~= Seq::<JobView>::empty());
            lemma_count_all_or_none(judge@.pool.slots, Slot::Running);
        }
        judge
    }

    /// The number of jobs.
    pub fn len(&self) -> (n: usize)
        ensures
            n == self@.jobs.len(),
    {
        self.jobs.len()
    }

    /// The jobs, in the order in which they were submitted.
    pub fn jobs(&self) -> (jobs: &Vec<Job>)
        ensures
            job_views(jobs@) == self@.jobs,
    {
        &self.jobs
    }

    /// The number of permits that are held.
    pub fn permits_held(&self) -> (n: usize)
        requires
            self.wf(),
        ensures
            n == self@.pool.held(),
            n <= self@.pool.capacity,
    {
        self.pool.permits_held()
    }

    /// Whether every job has its outcome.
    pub fn is_finished(&self) -> (b: bool)
        requires
            self.wf(),
        ensures
            b == self@.finished(),
    {
        proof {
            lemma_judge_in_step(self@);
        }
        self.pool.is_finished()
    }

    /// Takes one more job, which has not started, and returns its index.
    pub fn submit(&mut self, job: Job) -> (index: usize)
        requires
            old(self).wf(),
            old(self)@.jobs.len() + 3 <= usize::MAX,
            job@.phase == Phase::Queued,
            job@.wf(),
        ensures
            final(self).wf(),
            final(self)@ == old(self)@.submit(job@),
            index == old(self)@.jobs.len(),
    {
        let ghost before = self@;
        let index = self.pool.add_job();
        self.jobs.push(job);
        proof {
            assert(self@.jobs =~= before.jobs.push(job@));
            lemma_submit_keeps_step(before, job@);
        }
        index
    }

    /// Starts the next job, if a permit is free and a job waits: admits the
    /// first job that waits to a new row, shows it as pending, and returns
    /// its index and what is to be launched for it. Returns `None`, and
    /// changes nothing, when no permit is free or no job waits.
    pub fn start_next(&mut self, out: &mut String) -> (started: Option<(usize, JobAction)>)
        requires
            old(self).wf(),
        ensures
            final(self).wf(),
            final(self)@ == old(self)@.start_next(),
            final(out)@ == old(out)@ + encode_all(old(self)@.start_output()),
            match started {
                Some((index, act)) => old(self)@.starting() == Some(index as nat) && act@
                    == action(old(self)@.jobs[index as int], EventView::Admitted),
                None => old(self)@.starting() is None,
            },
    {
        let ghost before = self@;
        proof {
            lemma_start_keeps_step(before);
            assert(out@ + encode_all(Seq::empty()) =~= out@);
        }
        match self.pool.acquire() {
            Some(index) => {
                let act = self.jobs[index].step(JobEvent::Admitted, &mut self.cursor, out);
                proof {
                    assert(self@.jobs =~= before.start_next().jobs);
                }
                Some((index, act))
            },
            None => None,
        }
    }

    /// Reports what happened to the job of the index; returns what the job
    /// is to do next. The job's new status, if the event sets it, is shown
    /// on the job's row, and its permit is taken back. A report of a job
    /// that there is not, and a report of an admission, change nothing.
    pub fn report(&mut self, index: usize, event: JobEvent, out: &mut String) -> (act: JobAction)
        requires
            old(self).wf(),
        ensures
            final(self).wf(),
            final(self)@ == old(self)@.report(index as nat, event@),
            act@ == old(self)@.reply(index as nat, event@),
            final(out)@ == old(out)@ + encode_all(
                old(self)@.report_output(index as nat, event@),
            ),
    {
        let ghost before = self@;
        proof {
            lemma_report_keeps_step(before, index as nat, event@);
            assert(out@ + encode_all(Seq::empty()) =~= out@);
        }
        if index >= self.jobs.len() {
            return JobAction::Nothing;
        }
        if let JobEvent::Admitted = event {
            return JobAction::Nothing;
        }
        let act = self.jobs[index].step(event, &mut self.cursor, out);
        if let JobAction::Release = act {
            self.pool.release(index);
        }
        proof {
            assert(self@.jobs =~= before.report(index as nat, event@).jobs);
        }
        act
    }

    /// Ends the run: appends to `out` a new row and the summary of the jobs,
    /// where `timeout` is the timeout in seconds that they ran under, and
    /// hands the jobs back.
    pub fn finish(self, timeout: u64, out: &mut String) -> (jobs: Vec<Job>)
        requires
            self.wf(),
        ensures
            job_views(jobs@) == self@.jobs,
            final(out)@ == old(out)@ + encode_all(allocation(self@.row, self@.rows))
                + summary_text(self@.jobs, timeout as nat),
    {
        let Judge { jobs, pool: _, mut cursor } = self;
        cursor.new_line(out);
        let text = summary(&jobs, timeout);
        out.append(text.as_str());
        jobs
    }
}

} // verus!
