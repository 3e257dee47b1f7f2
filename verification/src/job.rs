//! The job executor's decisions.
//!
//! Running a job alternates work on the outside (launching a process,
//! waiting for it, reading a file) with decisions. The decisions are here: a
//! job is a small state machine that is told what happened and answers what
//! to do next, writing its status line through the renderer on the way.

use crate::cursor::{allocation, encode_all, lemma_encode_concat, rewriting, Command, Cursor};
use crate::status::{status_line, JobStatus, Verdict};
use crate::text::{split_words, trim, trimmed, views, words};
use vstd::prelude::*;
use vstd::string::StringExecFns;

verus! {

/// The detail carried by the outcome of a process that exited with a status
/// other than zero.
pub const NON_ZERO_EXIT: &'static str = "Process exited with non-zero code";

/// Where the output to judge is taken from.
#[derive(Clone, Debug, PartialEq, Eq)]
pub enum UserOutputSource {
    /// The standard output of the process.
    Stdout,
    /// The file of this name, read once the process has exited.
    Filename(String),
}

/// An output source as a mathematical value.
pub enum SourceView {
    Stdout,
    Filename(Seq<char>),
}

impl View for UserOutputSource {
    type V = SourceView;

    open spec fn view(&self) -> SourceView {
        match self {
            UserOutputSource::Stdout => SourceView::Stdout,
            UserOutputSource::Filename(path) => SourceView::Filename(path@),
        }
    }
}

/// Where a job stands.
#[derive(Clone, Copy, Debug, PartialEq, Eq, Structural)]
pub enum Phase {
    /// Waiting for a permit.
    Queued,
    /// The process was launched and has neither exited nor timed out.
    Running,
    /// The process exited with status zero; its output file is being read.
    Collecting,
    /// The outcome is set.
    Finished,
}

/// What happened on the outside.
#[derive(Clone, Debug, PartialEq, Eq)]
pub enum JobEvent {
    /// The job was given a permit.
    Admitted,
    /// The timeout passed before the process exited.
    TimedOut,
    /// The process exited in time: whether its status was zero, and what it
    /// wrote to its standard output.
    Exited { success: bool, stdout: String },
    /// The output file was read: its contents, or `None` if it could not be
    /// read.
    FileRead(Option<String>),
}

/// An event as a mathematical value.
pub enum EventView {
    Admitted,
    TimedOut,
    Exited { success: bool, stdout: Seq<char> },
    FileRead(Option<Seq<char>>),
}

/// The view of an optional string.
pub open spec fn text_view(o: Option<String>) -> Option<Seq<char>> {
    match o {
        Some(s) => Some(s@),
        None => None,
    }
}

impl View for JobEvent {
    type V = EventView;

    open spec fn view(&self) -> EventView {
        match self {
            JobEvent::Admitted => EventView::Admitted,
            JobEvent::TimedOut => EventView::TimedOut,
            JobEvent::Exited { success, stdout } => EventView::Exited {
                success: *success,
                stdout: stdout@,
            },
            JobEvent::FileRead(contents) => EventView::FileRead(text_view(*contents)),
        }
    }
}

/// What to do on the outside next.
#[derive(Clone, Debug, PartialEq, Eq)]
pub enum JobAction {
    /// Launch the program `argv[0]` with the other words as its arguments,
    /// write `input` to its standard input and close it, then wait for its
    /// exit, no longer than the timeout.
    Launch { argv: Vec<String>, input: String },
    /// Read the file of this name.
    ReadFile { path: String },
    /// The job has its outcome: give its permit back.
    Release,
    /// The event does not concern the job where it stands: do nothing.
    Nothing,
}

/// An action as a mathematical value.
pub enum ActionView {
    Launch { argv: Seq<Seq<char>>, input: Seq<char> },
    ReadFile { path: Seq<char> },
    Release,
    Nothing,
}

impl View for JobAction {
    type V = ActionView;

    open spec fn view(&self) -> ActionView {
        match self {
            JobAction::Launch { argv, input } => ActionView::Launch {
                argv: views(argv@),
                input: input@,
            },
            JobAction::ReadFile { path } => ActionView::ReadFile { path: path@ },
            JobAction::Release => ActionView::Release,
            JobAction::Nothing => ActionView::Nothing,
        }
    }
}

/// A job as a mathematical value.
pub struct JobView {
    pub name: Seq<char>,
    pub command: Seq<char>,
    pub input: Seq<char>,
    pub correct_output: Option<Seq<char>>,
    pub user_output_source: SourceView,
    pub cursor_pos: nat,
    pub status: Verdict,
    pub phase: Phase,
}

impl JobView {
    /// The outcome is set exactly when the job is finished; `Manual` is for
    /// jobs without an expected output and `Accepted` for jobs with one.
    pub open spec fn wf(self) -> bool {
        &&& self.phase == Phase::Finished <==> self.status.is_terminal()
        &&& self.status is Manual ==> self.correct_output is None
        &&& self.status is Accepted ==> self.correct_output is Some
    }

    /// Once admitted, the job's row is one of the `rows` allocated rows.
    pub open spec fn placed(self, rows: nat) -> bool {
        self.phase != Phase::Queued ==> self.cursor_pos < rows
    }

    /// The job with its outcome set.
    pub open spec fn finished(self, status: Verdict) -> JobView {
        JobView { status, phase: Phase::Finished, ..self }
    }
}

/// The outcome of a job whose process exited with status zero and gave
/// `output`: both texts are compared after trimming. With no expected output
/// the trimmed output is kept for a person to look at.
pub open spec fn verdict(expected: Option<Seq<char>>, output: Seq<char>) -> Verdict {
    match expected {
        Some(e) => if trim(output) == trim(e) {
            Verdict::Accepted
        } else {
            Verdict::WrongAnswer { expected: e, actual: trim(output) }
        },
        None => Verdict::Manual { actual: trim(output) },
    }
}

/// The outcome of a job whose output file could not be read: a wrong answer
/// with nothing as the actual output.
pub open spec fn missing_output(expected: Option<Seq<char>>) -> Verdict {
    Verdict::WrongAnswer {
        expected: match expected {
            Some(e) => e,
            None => Seq::empty(),
        },
        actual: Seq::empty(),
    }
}

/// The job after `event`, where `rows` is the number of rows allocated
/// before it. An event that does not fit the phase changes nothing.
pub open spec fn next(job: JobView, event: EventView, rows: nat) -> JobView {
    match (job.phase, event) {
        (Phase::Queued, EventView::Admitted) => JobView {
            phase: Phase::Running,
            cursor_pos: rows,
            ..job
        },
        (Phase::Running, EventView::TimedOut) => job.finished(Verdict::TimeLimitExceeded),
        (Phase::Running, EventView::Exited { success, stdout }) => if !success {
            job.finished(Verdict::RuntimeError { detail: NON_ZERO_EXIT@ })
        } else {
            match job.user_output_source {
                SourceView::Stdout => job.finished(verdict(job.correct_output, stdout)),
                SourceView::Filename(_) => JobView { phase: Phase::Collecting, ..job },
            }
        },
        (Phase::Collecting, EventView::FileRead(contents)) => match contents {
            Some(s) => job.finished(verdict(job.correct_output, s)),
            None => job.finished(missing_output(job.correct_output)),
        },
        _ => job,
    }
}

/// What the job asks for in answer to `event`.
pub open spec fn action(job: JobView, event: EventView) -> ActionView {
    match (job.phase, event) {
        (Phase::Queued, EventView::Admitted) => ActionView::Launch {
            argv: words(job.command),
            input: job.input,
        },
        (Phase::Running, EventView::TimedOut) => ActionView::Release,
        (Phase::Running, EventView::Exited { success, stdout }) => match job.user_output_source {
            SourceView::Filename(path) if success => ActionView::ReadFile { path },
            _ => ActionView::Release,
        },
        (Phase::Collecting, EventView::FileRead(_)) => ActionView::Release,
        _ => ActionView::Nothing,
    }
}

/// What the job sends to the terminal in answer to `event`, with the cursor
/// on row `row` of `rows`: on admission a new row and the pending status
/// line on it; on reaching its outcome the new status line on its own row;
/// else nothing.
pub open spec fn rendered(job: JobView, event: EventView, row: nat, rows: nat) -> Seq<Command> {
    let after = next(job, event, rows);
    if job.phase == Phase::Queued && after.phase == Phase::Running {
        allocation(row, rows) + rewriting(rows, rows, status_line(job.name, after.status))
    } else if job.phase != Phase::Finished && after.phase == Phase::Finished {
        rewriting(row, job.cursor_pos, status_line(job.name, after.status))
    } else {
        Seq::empty()
    }
}

/// The outcome of a job whose process exited with status zero and gave
/// `job_output`.
pub fn judge(correct_output: &Option<String>, job_output: &str) -> (status: JobStatus)
    ensures
        status@ == verdict(text_view(*correct_output), job_output@),
{
    let actual = trimmed(job_output);
    match correct_output {
        Some(expected) => {
            let wanted = trimmed(expected.as_str());
            if actual == wanted {
                JobStatus::Accepted
            } else {
                JobStatus::WrongAnswer(expected.clone(), actual)
            }
        },
        None => JobStatus::Manual(actual),
    }
}

/// One command to run and judge.
pub struct Job {
    name: String,
    command: String,
    input: String,
    correct_output: Option<String>,
    user_output_source: UserOutputSource,
    cursor_pos: usize,
    status: JobStatus,
    phase: Phase,
}

impl View for Job {
    type V = JobView;

    closed spec fn view(&self) -> JobView {
        JobView {
            name: self.name@,
            command: self.command@,
            input: self.input@,
            correct_output: text_view(self.correct_output),
            user_output_source: self.user_output_source@,
            cursor_pos: self.cursor_pos as nat,
            status: self.status@,
            phase: self.phase,
        }
    }
}

impl Job {
    /// A job that waits for its permit.
    pub fn new(
        name: String,
        command: String,
        input: String,
        correct_output: Option<String>,
        user_output_source: UserOutputSource,
    ) -> (job: Job)
        ensures
            job@ == (JobView {
                name: name@,
                command: command@,
                input: input@,
                correct_output: text_view(correct_output),
                user_output_source: user_output_source@,
                cursor_pos: 0,
                status: Verdict::Pending,
                phase: Phase::Queued,
            }),
            job@.wf(),
    {
        Job {
            name,
            command,
            input,
            correct_output,
            user_output_source,
            cursor_pos: 0,
            status: JobStatus::Tbd,
            phase: Phase::Queued,
        }
    }

    /// The name the job is shown under.
    pub fn name(&self) -> (r: &String)
        ensures
            r@ == self@.name,
    {
        &self.name
    }

    /// The job's outcome, `Tbd` until it is set.
    pub fn status(&self) -> (r: &JobStatus)
        ensures
            r@ == self@.status,
    {
        &self.status
    }

    /// Where the job stands.
    pub fn phase(&self) -> (r: Phase)
        ensures
            r == self@.phase,
    {
        self.phase
    }

    /// The row of the job's status line, once the job was admitted.
    pub fn cursor_pos(&self) -> (r: usize)
        ensures
            r == self@.cursor_pos,
    {
        self.cursor_pos
    }

    /// Rewrites the job's status line on its own row, appending to `out`
    /// what the terminal is to be sent.
    pub fn update_state(&self, cursor: &mut Cursor, out: &mut String)
        requires
            self@.cursor_pos < old(cursor).rows(),
        ensures
            final(cursor).row() == self@.cursor_pos,
            final(cursor).rows() == old(cursor).rows(),
            final(cursor).wf(),
            final(out)@ == old(out)@ + encode_all(
                rewriting(
                    old(cursor).row(),
                    self@.cursor_pos,
                    status_line(self@.name, self@.status),
                ),
            ),
    {
        let line = self.status.line(self.name.as_str());
        cursor.write_line(self.cursor_pos, line.as_str(), out);
    }

    /// Sets the outcome and shows it.
    fn finish(&mut self, status: JobStatus, cursor: &mut Cursor, out: &mut String)
        requires
            old(self)@.cursor_pos < old(cursor).rows(),
        ensures
            final(self)@ == old(self)@.finished(status@),
            final(cursor).row() == old(self)@.cursor_pos,
            final(cursor).rows() == old(cursor).rows(),
            final(cursor).wf(),
            final(out)@ == old(out)@ + encode_all(
                rewriting(
                    old(cursor).row(),
                    old(self)@.cursor_pos,
                    status_line(old(self)@.name, status@),
                ),
            ),
    {
        self.status = status;
        self.phase = Phase::Finished;
        self.update_state(cursor, out);
    }

    /// Takes the job one step on: tells it what happened and returns what
    /// to do next. What the terminal is to be sent for the change of status,
    /// if there is one, is appended to `out`.
    pub fn step(
        &mut self,
        event: JobEvent,
        cursor: &mut Cursor,
        out: &mut String,
    ) -> (act: JobAction)
        requires
            old(cursor).wf(),
            old(self)@.placed(old(cursor).rows()),
            old(self)@.phase == Phase::Queued ==> old(cursor).rows() < usize::MAX,
        ensures
            final(self)@ == next(old(self)@, event@, old(cursor).rows()),
            act@ == action(old(self)@, event@),
            final(out)@ == old(out)@ + encode_all(
                rendered(old(self)@, event@, old(cursor).row(), old(cursor).rows()),
            ),
            final(cursor).wf(),
            final(cursor).rows() == old(cursor).rows() + (if old(self)@.phase == Phase::Queued
                && final(self)@.phase == Phase::Running {
                1nat
            } else {
                0nat
            }),
            final(cursor).row() == (if final(self)@.phase != old(self)@.phase && final(self)@.phase
                != Phase::Collecting {
                final(self)@.cursor_pos
            } else {
                old(cursor).row()
            }),
            final(self)@.placed(final(cursor).rows()),
            old(self)@.wf() ==> final(self)@.wf(),
    {
        let ghost before = out@;
        let ghost job = self@;
        let ghost row = cursor.row();
        let ghost rows = cursor.rows();
        proof {
            assert(before + encode_all(Seq::empty()) =~= before);
        }
        match self.phase {
            Phase::Queued => match event {
                JobEvent::Admitted => {
                    self.cursor_pos = cursor.new_line(out);
                    self.phase = Phase::Running;
                    self.update_state(cursor, out);
                    proof {
                        let line = status_line(job.name, job.status);
                        lemma_encode_concat(allocation(row, rows), rewriting(rows, rows, line));
                        assert(out@ =~= before + encode_all(
                            allocation(row, rows) + rewriting(rows, rows, line),
                        ));
                    }
                    JobAction::Launch {
                        argv: split_words(self.command.as_str()),
                        input: self.input.clone(),
                    }
                },
                _ => JobAction::Nothing,
            },
            Phase::Running => match event {
                JobEvent::TimedOut => {
                    self.finish(JobStatus::TimeLimitExceeded, cursor, out);
                    JobAction::Release
                },
                JobEvent::Exited { success, stdout } => {
                    if !success {
                        let mut detail = String::new();
                        detail.append(NON_ZERO_EXIT);
                        assert(detail@ =~= NON_ZERO_EXIT@);
                        self.finish(JobStatus::RuntimeError(detail), cursor, out);
                        JobAction::Release
                    } else {
                        match &self.user_output_source {
                            UserOutputSource::Stdout => {
                                let status = judge(&self.correct_output, stdout.as_str());
                                self.finish(status, cursor, out);
                                JobAction::Release
                            },
                            UserOutputSource::Filename(name) => {
                                let path = name.clone();
                                self.phase = Phase::Collecting;
                                JobAction::ReadFile { path }
                            },
                        }
                    }
                },
                _ => JobAction::Nothing,
            },
            Phase::Collecting => match event {
                JobEvent::FileRead(contents) => {
                    let status = match contents {
                        Some(text) => judge(&self.correct_output, text.as_str()),
                        None => {
                            let expected = match &self.correct_output {
                                Some(e) => e.clone(),
                                None => String::new(),
                            };
                            JobStatus::WrongAnswer(expected, String::new())
                        },
                    };
                    self.finish(status, cursor, out);
                    JobAction::Release
                },
                _ => JobAction::Nothing,
            },
            Phase::Finished => JobAction::Nothing,
        }
    }
}

/// A job without an expected output is never accepted. Where its process
/// exits with status zero and its output can be had, it ends as `Manual`
/// with the trimmed output, whatever the output is.
pub proof fn lemma_no_expectation_gives_manual(job: JobView, output: Seq<char>, rows: nat)
    requires
        job.correct_output is None,
    ensures
        verdict(job.correct_output, output) == (Verdict::Manual { actual: trim(output) }),
        job.phase == Phase::Running && job.user_output_source is Stdout ==> next(
            job,
            EventView::Exited { success: true, stdout: output },
            rows,
        ).status == (Verdict::Manual { actual: trim(output) }),
        job.phase == Phase::Collecting ==> next(
            job,
            EventView::FileRead(Some(output)),
            rows,
        ).status == (Verdict::Manual { actual: trim(output) }),
        forall|event: EventView|
            job.wf() ==> !(#[trigger] next(job, event, rows).status is Accepted),
{
}

/// A job is accepted exactly when its trimmed output equals its trimmed
/// expected output, character for character. So a job that runs, writes to
/// its standard output and exits with status zero is accepted if the two
/// trimmed texts are equal, and is given a wrong answer if they are not.
pub proof fn lemma_equal_after_trimming_is_accepted(
    job: JobView,
    expected: Seq<char>,
    output: Seq<char>,
    rows: nat,
)
    requires
        job.correct_output == Some(expected),
    ensures
        verdict(job.correct_output, output) is Accepted <==> trim(output) == trim(expected),
        verdict(job.correct_output, output) is Accepted || verdict(job.correct_output, output) == (
        Verdict::WrongAnswer { expected, actual: trim(output) }),
        job.phase == Phase::Running && job.user_output_source is Stdout ==> next(
            job,
            EventView::Exited { success: true, stdout: output },
            rows,
        ).status == verdict(job.correct_output, output),
{
}

/// A running job whose timeout passes ends as `TimeLimitExceeded`, and
/// nothing that is reported of its process afterwards changes that.
pub proof fn lemma_timeout_is_time_limit_exceeded(job: JobView, later: EventView, rows: nat)
    requires
        job.phase == Phase::Running,
    ensures
        next(job, EventView::TimedOut, rows).status == Verdict::TimeLimitExceeded,
        next(job, EventView::TimedOut, rows).phase == Phase::Finished,
        action(job, EventView::TimedOut) == ActionView::Release,
        next(next(job, EventView::TimedOut, rows), later, rows) == next(
            job,
            EventView::TimedOut,
            rows,
        ),
{
}

/// A job that takes its output from a file is asked to read the file once
/// its process has exited with status zero; where the file cannot be read it
/// ends as a wrong answer with nothing as the actual output, never as a
/// runtime error.
pub proof fn lemma_missing_file_is_wrong_answer(job: JobView, stdout: Seq<char>, rows: nat)
    requires
        job.phase == Phase::Running,
        job.user_output_source is Filename,
    ensures
        ({
            let exited = EventView::Exited { success: true, stdout };
            let collecting = next(job, exited, rows);
            let done = next(collecting, EventView::FileRead(None), rows);
            &&& collecting.phase == Phase::Collecting
            &&& action(job, exited) == (ActionView::ReadFile { path: job.user_output_source->Filename_0 })
            &&& done.phase == Phase::Finished
            &&& done.status is WrongAnswer
            &&& done.status->WrongAnswer_actual == Seq::<char>::empty()
            &&& done.status == missing_output(job.correct_output)
        }),
{
}

/// A running job whose process exits with a status other than zero ends as
/// a runtime error, whatever it wrote.
pub proof fn lemma_failure_is_runtime_error(job: JobView, stdout: Seq<char>, rows: nat)
    requires
        job.phase == Phase::Running,
    ensures
        next(job, EventView::Exited { success: false, stdout }, rows).status == (
        Verdict::RuntimeError { detail: NON_ZERO_EXIT@ }),
        next(job, EventView::Exited { success: false, stdout }, rows).phase == Phase::Finished,
{
}

/// A job's outcome is set once: a step changes the status only from pending
/// to a terminal one, and a finished job is changed by no event.
pub proof fn lemma_outcome_is_set_once(job: JobView, event: EventView, rows: nat)
    requires
        job.wf(),
    ensures
        next(job, event, rows).wf(),
        job.phase == Phase::Finished ==> next(job, event, rows) == job,
        next(job, event, rows).status != job.status ==> job.status is Pending && next(
            job,
            event,
            rows,
        ).status.is_terminal(),
        action(job, event) is Release <==> job.phase != Phase::Finished && next(
            job,
            event,
            rows,
        ).phase == Phase::Finished,
{
}

} // verus!
