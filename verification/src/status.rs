//! The outcome of a job and the text of its status line.

use vstd::prelude::*;
use vstd::string::StringExecFns;

verus! {

pub const COLOR_BOLD: &'static str = "\x1b[1m";

pub const COLOR_GREEN: &'static str = "\x1b[32m";

pub const COLOR_RED: &'static str = "\x1b[31m";

pub const COLOR_MAGENTA: &'static str = "\x1b[35m";

pub const COLOR_CYAN: &'static str = "\x1b[36m";

pub const COLOR_RESET: &'static str = "\x1b[0m";

/// What a job has come to. `Tbd` is the one state that is not terminal.
#[derive(Clone, Debug, PartialEq, Eq)]
pub enum JobStatus {
    /// The trimmed output equals the trimmed expected output.
    Accepted,
    /// The expected output as it was given, and the trimmed output.
    WrongAnswer(String, String),
    /// The process did not exit within the timeout.
    TimeLimitExceeded,
    /// The process exited with a status other than zero.
    RuntimeError(String),
    /// No output was expected: the trimmed output, for a person to look at.
    Manual(String),
    /// Still pending.
    Tbd,
}

/// A job's outcome as a mathematical value.
pub enum Verdict {
    Accepted,
    WrongAnswer { expected: Seq<char>, actual: Seq<char> },
    TimeLimitExceeded,
    RuntimeError { detail: Seq<char> },
    Manual { actual: Seq<char> },
    Pending,
}

impl Verdict {
    /// Every outcome but `Pending` is terminal.
    pub open spec fn is_terminal(self) -> bool {
        !(self is Pending)
    }
}

impl View for JobStatus {
    type V = Verdict;

    open spec fn view(&self) -> Verdict {
        match self {
            JobStatus::Accepted => Verdict::Accepted,
            JobStatus::WrongAnswer(expected, actual) => Verdict::WrongAnswer {
                expected: expected@,
                actual: actual@,
            },
            JobStatus::TimeLimitExceeded => Verdict::TimeLimitExceeded,
            JobStatus::RuntimeError(detail) => Verdict::RuntimeError { detail: detail@ },
            JobStatus::Manual(actual) => Verdict::Manual { actual: actual@ },
            JobStatus::Tbd => Verdict::Pending,
        }
    }
}

/// The two letters shown for an outcome, in its colour: `..` while pending.
pub open spec fn label(v: Verdict) -> Seq<char> {
    match v {
        Verdict::Pending => ".."@,
        Verdict::Accepted => COLOR_BOLD@ + COLOR_GREEN@ + "AC"@ + COLOR_RESET@,
        Verdict::WrongAnswer { .. } => COLOR_BOLD@ + COLOR_RED@ + "WA"@ + COLOR_RESET@,
        Verdict::TimeLimitExceeded => COLOR_BOLD@ + COLOR_MAGENTA@ + "TL"@ + COLOR_RESET@,
        Verdict::RuntimeError { .. } => COLOR_BOLD@ + COLOR_CYAN@ + "RE"@ + COLOR_RESET@,
        Verdict::Manual { .. } => COLOR_BOLD@ + "MN"@ + COLOR_RESET@,
    }
}

/// The status line of the job called `name`: `Test: name    [ label ]`.
pub open spec fn status_line(name: Seq<char>, v: Verdict) -> Seq<char> {
    "Test: "@ + name + "    [ "@ + label(v) + " ]"@
}

impl JobStatus {
    /// Whether the outcome is terminal.
    pub fn is_terminal(&self) -> (b: bool)
        ensures
            b == self@.is_terminal(),
    {
        match self {
            JobStatus::Tbd => false,
            _ => true,
        }
    }

    /// The two letters shown for the outcome, in its colour.
    pub fn label(&self) -> (r: String)
        ensures
            r@ == label(self@),
    {
        let mut r = String::new();
        match self {
            JobStatus::Tbd => {
                r.append("..");
            },
            JobStatus::Accepted => {
                push_coloured(&mut r, COLOR_GREEN, "AC");
            },
            JobStatus::WrongAnswer(_, _) => {
                push_coloured(&mut r, COLOR_RED, "WA");
            },
            JobStatus::TimeLimitExceeded => {
                push_coloured(&mut r, COLOR_MAGENTA, "TL");
            },
            JobStatus::RuntimeError(_) => {
                push_coloured(&mut r, COLOR_CYAN, "RE");
            },
            JobStatus::Manual(_) => {
                r.append(COLOR_BOLD);
                r.append("MN");
                r.append(COLOR_RESET);
            },
        }
        assert(r@ =~= label(self@));
        r
    }

    /// The status line of the job called `name` with this outcome.
    pub fn line(&self, name: &str) -> (r: String)
        ensures
            r@ == status_line(name@, self@),
    {
        let mut r = String::new();
        r.append("Test: ");
        r.append(name);
        r.append("    [ ");
        let l = self.label();
        r.append(l.as_str());
        r.append(" ]");
        assert(r@ =~= status_line(name@, self@));
        r
    }
}

/// Appends bold, the colour, the letters and the reset to `out`.
fn push_coloured(out: &mut String, colour: &str, letters: &str)
    ensures
        final(out)@ == old(out)@ + (COLOR_BOLD@ + colour@ + letters@ + COLOR_RESET@),
{
    let ghost before = out@;
    out.append(COLOR_BOLD);
    out.append(colour);
    out.append(letters);
    out.append(COLOR_RESET);
    assert(out@ =~= before + (COLOR_BOLD@ + colour@ + letters@ + COLOR_RESET@));
}

} // verus!
