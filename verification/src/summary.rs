//! The result aggregator: counts the outcomes by category and writes the
//! summary, one block for each category that is not empty.

use crate::job::{Job, JobView};
use crate::status::{JobStatus, Verdict};
use crate::text::{decimal, push_decimal};
use vstd::prelude::*;
use vstd::string::StringExecFns;

verus! {

/// The categories of the summary, in the order of their blocks.
#[derive(Clone, Copy, Debug, PartialEq, Eq, Structural)]
pub enum Category {
    Accepted,
    TimeLimitExceeded,
    RuntimeError,
    WrongAnswer,
    Manual,
}

/// The category of an outcome. A pending job is in none.
pub open spec fn category(v: Verdict) -> Option<Category> {
    match v {
        Verdict::Accepted => Some(Category::Accepted),
        Verdict::WrongAnswer { .. } => Some(Category::WrongAnswer),
        Verdict::TimeLimitExceeded => Some(Category::TimeLimitExceeded),
        Verdict::RuntimeError { .. } => Some(Category::RuntimeError),
        Verdict::Manual { .. } => Some(Category::Manual),
        Verdict::Pending => None,
    }
}

/// The heading of a category's block.
pub open spec fn title(c: Category) -> Seq<char> {
    match c {
        Category::Accepted => "Accepted"@,
        Category::TimeLimitExceeded => "Time Limit Exceeded"@,
        Category::RuntimeError => "Runtime Error"@,
        Category::WrongAnswer => "Wrong Answer"@,
        Category::Manual => "Manual Check"@,
    }
}

/// The line of one job in its block: its name and, for a wrong answer, the
/// expected and the actual output; for a timeout, the timeout in seconds;
/// for a runtime error, its detail; for a manual check, the output. The
/// line of a manual check does not end in a line feed.
pub open spec fn detail(name: Seq<char>, v: Verdict, timeout: nat) -> Seq<char> {
    match v {
        Verdict::Accepted => "    "@ + name + ": passed\n"@,
        Verdict::WrongAnswer { expected, actual } => "    "@ + name + ": expected \""@ + expected
            + "\", found \""@ + actual + "\"\n"@,
        Verdict::TimeLimitExceeded => "    "@ + name + ": timeout after "@ + decimal(timeout)
            + "s\n"@,
        Verdict::RuntimeError { detail } => "    "@ + name + ": runtime error: "@ + detail + "\n"@,
        Verdict::Manual { actual } => "    "@ + name + ": result is \""@ + actual + "\""@,
        Verdict::Pending => Seq::empty(),
    }
}

/// How many of the jobs have an outcome of the category.
pub open spec fn count_in(jobs: Seq<JobView>, c: Category) -> nat
    decreases jobs.len(),
{
    if jobs.len() == 0 {
        0
    } else {
        count_in(jobs.drop_last(), c) + if category(jobs.last().status) == Some(c) {
            1nat
        } else {
            0nat
        }
    }
}

/// How many of the jobs are still pending.
pub open spec fn count_pending(jobs: Seq<JobView>) -> nat
    decreases jobs.len(),
{
    if jobs.len() == 0 {
        0
    } else {
        count_pending(jobs.drop_last()) + if jobs.last().status is Pending {
            1nat
        } else {
            0nat
        }
    }
}

/// The lines of the jobs of the category, in the order of the jobs.
pub open spec fn details(jobs: Seq<JobView>, c: Category, timeout: nat) -> Seq<char>
    decreases jobs.len(),
{
    if jobs.len() == 0 {
        Seq::empty()
    } else {
        details(jobs.drop_last(), c, timeout) + if category(jobs.last().status) == Some(c) {
            detail(jobs.last().name, jobs.last().status, timeout)
        } else {
            Seq::empty()
        }
    }
}

/// The block of a category: nothing if no job is in it, else the heading
/// with the category's count out of the number of jobs, the lines, and a
/// line feed.
pub open spec fn block(jobs: Seq<JobView>, c: Category, timeout: nat) -> Seq<char> {
    if count_in(jobs, c) == 0 {
        Seq::empty()
    } else {
        "  "@ + title(c) + " ("@ + decimal(count_in(jobs, c)) + "/"@ + decimal(jobs.len()) + "):\n"@
            + details(jobs, c, timeout) + "\n"@
    }
}

/// The summary: its heading and the blocks of the categories, in their
/// order.
pub open spec fn summary_text(jobs: Seq<JobView>, timeout: nat) -> Seq<char> {
    "\nSummary:\n\n"@ + block(jobs, Category::Accepted, timeout) + block(
        jobs,
        Category::TimeLimitExceeded,
        timeout,
    ) + block(jobs, Category::RuntimeError, timeout) + block(jobs, Category::WrongAnswer, timeout)
        + block(jobs, Category::Manual, timeout)
}

/// The views of the jobs, in order.
pub open spec fn job_views(jobs: Seq<Job>) -> Seq<JobView> {
    Seq::new(jobs.len(), |i: int| jobs[i]@)
}

/// The number of jobs in each category and the number of jobs.
#[derive(Clone, Copy, Debug, PartialEq, Eq)]
pub struct Tally {
    pub accepted: usize,
    pub time_limit_exceeded: usize,
    pub runtime_error: usize,
    pub wrong_answer: usize,
    pub manual: usize,
    pub total: usize,
}

impl Tally {
    /// The count of a category.
    pub open spec fn of(self, c: Category) -> nat {
        match c {
            Category::Accepted => self.accepted as nat,
            Category::TimeLimitExceeded => self.time_limit_exceeded as nat,
            Category::RuntimeError => self.runtime_error as nat,
            Category::WrongAnswer => self.wrong_answer as nat,
            Category::Manual => self.manual as nat,
        }
    }

    /// The counts are those of the jobs.
    pub open spec fn counts(self, jobs: Seq<JobView>) -> bool {
        &&& self.total == jobs.len()
        &&& forall|c: Category| #[trigger] self.of(c) == count_in(jobs, c)
    }
}

/// Every job is counted once: the counts of the five categories and the
/// number of pending jobs add up to the number of jobs. So where every job
/// has its outcome, the five counts add up to the number of jobs.
pub proof fn lemma_counts_add_up(jobs: Seq<JobView>)
    ensures
        count_in(jobs, Category::Accepted) + count_in(jobs, Category::TimeLimitExceeded) + count_in(
            jobs,
            Category::RuntimeError,
        ) + count_in(jobs, Category::WrongAnswer) + count_in(jobs, Category::Manual)
            + count_pending(jobs) == jobs.len(),
        (forall|i: int| 0 <= i < jobs.len() ==> jobs[i].status.is_terminal()) ==> count_pending(
            jobs,
        ) == 0,
    decreases jobs.len(),
{
    if jobs.len() > 0 {
        let front = jobs.drop_last();
        lemma_counts_add_up(front);
        if forall|i: int| 0 <= i < jobs.len() ==> jobs[i].status.is_terminal() {
            assert forall|i: int| 0 <= i < front.len() implies front[i].status.is_terminal() by {
                assert(front[i] == jobs[i]);
            }
        }
    }
}

/// A category never counts more jobs than there are.
pub proof fn lemma_count_in_bound(jobs: Seq<JobView>, c: Category)
    ensures
        count_in(jobs, c) <= jobs.len(),
    decreases jobs.len(),
{
    if jobs.len() > 0 {
        lemma_count_in_bound(jobs.drop_last(), c);
    }
}

/// Whether the outcome is of the category.
pub fn in_category(status: &JobStatus, c: Category) -> (b: bool)
    ensures
        b == (category(status@) == Some(c)),
{
    match status {
        JobStatus::Accepted => c == Category::Accepted,
        JobStatus::WrongAnswer(_, _) => c == Category::WrongAnswer,
        JobStatus::TimeLimitExceeded => c == Category::TimeLimitExceeded,
        JobStatus::RuntimeError(_) => c == Category::RuntimeError,
        JobStatus::Manual(_) => c == Category::Manual,
        JobStatus::Tbd => false,
    }
}

/// Appends the line of one job to `out`.
pub fn push_detail(out: &mut String, name: &str, status: &JobStatus, timeout: u64)
    ensures
        final(out)@ == old(out)@ + detail(name@, status@, timeout as nat),
{
    let ghost before = out@;
    match status {
        JobStatus::Accepted => {
            out.append("    ");
            out.append(name);
            out.append(": passed\n");
        },
        JobStatus::WrongAnswer(expected, actual) => {
            out.append("    ");
            out.append(name);
            out.append(": expected \"");
            out.append(expected.as_str());
            out.append("\", found \"");
            out.append(actual.as_str());
            out.append("\"\n");
        },
        JobStatus::TimeLimitExceeded => {
            out.append("    ");
            out.append(name);
            out.append(": timeout after ");
            push_decimal(out, timeout);
            out.append("s\n");
        },
        JobStatus::RuntimeError(detail) => {
            out.append("    ");
            out.append(name);
            out.append(": runtime error: ");
            out.append(detail.as_str());
            out.append("\n");
        },
        JobStatus::Manual(actual) => {
            out.append("    ");
            out.append(name);
            out.append(": result is \"");
            out.append(actual.as_str());
            out.append("\"");
        },
        JobStatus::Tbd => {},
    }
    assert(out@ =~= before + detail(name@, status@, timeout as nat));
}

/// The number of jobs of the category and their lines.
fn section(jobs: &Vec<Job>, c: Category, timeout: u64) -> (r: (usize, String))
    ensures
        r.0 == count_in(job_views(jobs@), c),
        r.1@ == details(job_views(jobs@), c, timeout as nat),
{
    let ghost all = job_views(jobs@);
    let mut n: usize = 0;
    let mut lines = String::new();
    let mut i: usize = 0;
    while i < jobs.len()
        invariant
            i <= jobs.len(),
            all == job_views(jobs@),
            n == count_in(all.take(i as int), c),
            n <= i,
            lines@ == details(all.take(i as int), c, timeout as nat),
        decreases jobs.len() - i,
    {
        let job = &jobs[i];
        proof {
            let upto = all.take(i + 1);
            assert(upto.drop_last() =~= all.take(i as int));
            assert(upto.last() == job@);
        }
        if in_category(job.status(), c) {
            n += 1;
            push_detail(&mut lines, job.name().as_str(), job.status(), timeout);
        } else {
            assert(lines@ + Seq::<char>::empty() =~= lines@);
        }
        i += 1;
    }
    assert(all.take(i as int) =~= all);
    (n, lines)
}

/// Appends the block of the category to `out`.
fn push_block(out: &mut String, jobs: &Vec<Job>, c: Category, timeout: u64)
    ensures
        final(out)@ == old(out)@ + block(job_views(jobs@), c, timeout as nat),
{
    let ghost before = out@;
    let ghost all = job_views(jobs@);
    let (n, lines) = section(jobs, c, timeout);
    if n != 0 {
        out.append("  ");
        match c {
            Category::Accepted => out.append("Accepted"),
            Category::TimeLimitExceeded => out.append("Time Limit Exceeded"),
            Category::RuntimeError => out.append("Runtime Error"),
            Category::WrongAnswer => out.append("Wrong Answer"),
            Category::Manual => out.append("Manual Check"),
        }
        out.append(" (");
        push_decimal(out, n as u64);
        out.append("/");
        push_decimal(out, jobs.len() as u64);
        out.append("):\n");
        out.append(lines.as_str());
        out.append("\n");
    }
    assert(out@ =~= before + block(all, c, timeout as nat));
}

/// Counts the jobs by category.
pub fn tally(jobs: &Vec<Job>) -> (t: Tally)
    ensures
        t.counts(job_views(jobs@)),
{
    let ghost all = job_views(jobs@);
    let mut t = Tally {
        accepted: 0,
        time_limit_exceeded: 0,
        runtime_error: 0,
        wrong_answer: 0,
        manual: 0,
        total: jobs.len(),
    };
    let mut i: usize = 0;
    while i < jobs.len()
        invariant
            i <= jobs.len(),
            all == job_views(jobs@),
            t.total == jobs.len(),
            forall|c: Category| #[trigger] t.of(c) == count_in(all.take(i as int), c),
        decreases jobs.len() - i,
    {
        let job = &jobs[i];
        proof {
            let upto = all.take(i + 1);
            assert(upto.drop_last() =~= all.take(i as int));
            assert(upto.last() == job@);
            lemma_count_in_bound(all.take(i as int), Category::Accepted);
            lemma_count_in_bound(all.take(i as int), Category::TimeLimitExceeded);
            lemma_count_in_bound(all.take(i as int), Category::RuntimeError);
            lemma_count_in_bound(all.take(i as int), Category::WrongAnswer);
            lemma_count_in_bound(all.take(i as int), Category::Manual);
            assert(t.of(Category::Accepted) <= i);
            assert(t.of(Category::TimeLimitExceeded) <= i);
            assert(t.of(Category::RuntimeError) <= i);
            assert(t.of(Category::WrongAnswer) <= i);
            assert(t.of(Category::Manual) <= i);
        }
        let ghost was = t;
        match job.status() {
            JobStatus::Accepted => {
                t.accepted += 1;
            },
            JobStatus::WrongAnswer(_, _) => {
                t.wrong_answer += 1;
            },
            JobStatus::TimeLimitExceeded => {
                t.time_limit_exceeded += 1;
            },
            JobStatus::RuntimeError(_) => {
                t.runtime_error += 1;
            },
            JobStatus::Manual(_) => {
                t.manual += 1;
            },
            JobStatus::Tbd => {},
        }
        proof {
            assert forall|c: Category| #[trigger] t.of(c) == count_in(all.take(i + 1), c) by {
                assert(was.of(c) == count_in(all.take(i as int), c));
            }
        }
        i += 1;
    }
    assert(all.take(i as int) =~= all);
    t
}

/// The summary of the jobs, where `timeout` is the timeout in seconds that
/// they ran under.
pub fn summary(jobs: &Vec<Job>, timeout: u64) -> (r: String)
    ensures
        r@ == summary_text(job_views(jobs@), timeout as nat),
{
    let mut r = String::new();
    r.append("\nSummary:\n\n");
    assert(r@ =~= "\nSummary:\n\n"@);
    push_block(&mut r, jobs, Category::Accepted, timeout);
    push_block(&mut r, jobs, Category::TimeLimitExceeded, timeout);
    push_block(&mut r, jobs, Category::RuntimeError, timeout);
    push_block(&mut r, jobs, Category::WrongAnswer, timeout);
    push_block(&mut r, jobs, Category::Manual, timeout);
    r
}

} // verus!
