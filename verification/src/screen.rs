//! What the terminal shows: a model of the rows of the managed region, and
//! the laws of the renderer over it.
//!
//! The model reads a rewritten line as one row. That is so of a text without
//! control characters that fits the width of the terminal, as status lines
//! are meant to be.

use crate::cursor::{allocation, motion, rewriting, Command};
use crate::job::{next, rendered, EventView, JobView, Phase};
use crate::status::status_line;
use vstd::prelude::*;

verus! {

/// The rows of the region, from its first, and the row the cursor is on.
pub struct Screen {
    pub lines: Seq<Seq<char>>,
    pub row: nat,
}

/// One request to the renderer.
pub enum Request {
    /// Allocate a row below the last one.
    Allocate,
    /// Replace what a row shows.
    Write { row: nat, text: Seq<char> },
}

impl Screen {
    /// The cursor is on one of the rows.
    pub open spec fn wf(self) -> bool {
        self.row < self.lines.len()
    }

    /// The screen after the terminal obeyed one command. A move stops at
    /// the first and at the last row; a line feed on the last row opens an
    /// empty row below it.
    pub open spec fn obey(self, c: Command) -> Screen {
        match c {
            Command::Up(n) => Screen {
                row: if n <= self.row {
                    (self.row - n) as nat
                } else {
                    0
                },
                ..self
            },
            Command::Down(n) => Screen {
                row: if self.row + n < self.lines.len() {
                    self.row + n
                } else {
                    (self.lines.len() - 1) as nat
                },
                ..self
            },
            Command::Feed => if self.row + 1 < self.lines.len() {
                Screen { row: self.row + 1, ..self }
            } else {
                Screen { lines: self.lines.push(Seq::empty()), row: self.row + 1 }
            },
            Command::Rewrite(text) => Screen {
                lines: self.lines.update(self.row as int, text),
                ..self
            },
        }
    }

    /// The screen after the terminal obeyed the commands, in order.
    pub open spec fn obey_all(self, cs: Seq<Command>) -> Screen
        decreases cs.len(),
    {
        if cs.len() == 0 {
            self
        } else {
            self.obey_all(cs.drop_last()).obey(cs.last())
        }
    }

    /// The screen after a renderer that knows the cursor's row and the
    /// number of rows served one request. A write to a row that was never
    /// allocated is not served.
    pub open spec fn serve(self, r: Request) -> Screen {
        match r {
            Request::Allocate => self.obey_all(allocation(self.row, self.lines.len())),
            Request::Write { row, text } => if row < self.lines.len() {
                self.obey_all(rewriting(self.row, row, text))
            } else {
                self
            },
        }
    }

    /// The screen after the requests were served, in order.
    pub open spec fn serve_all(self, rs: Seq<Request>) -> Screen
        decreases rs.len(),
    {
        if rs.len() == 0 {
            self
        } else {
            self.serve_all(rs.drop_last()).serve(rs.last())
        }
    }
}

/// The text of the last of the requests that writes to `row`, or `before`
/// if none does.
pub open spec fn last_written(before: Seq<char>, rs: Seq<Request>, row: nat) -> Seq<char>
    decreases rs.len(),
{
    if rs.len() == 0 {
        before
    } else {
        match rs.last() {
            Request::Write { row: r, text } if r == row => text,
            _ => last_written(before, rs.drop_last(), row),
        }
    }
}

/// Obeying one more command.
pub proof fn lemma_obey_push(s: Screen, cs: Seq<Command>, c: Command)
    ensures
        s.obey_all(cs.push(c)) == s.obey_all(cs).obey(c),
{
    assert(cs.push(c).drop_last() =~= cs);
}

/// Obeying two runs of commands, one after the other.
pub proof fn lemma_obey_concat(s: Screen, a: Seq<Command>, b: Seq<Command>)
    ensures
        s.obey_all(a + b) == s.obey_all(a).obey_all(b),
    decreases b.len(),
{
    if b.len() == 0 {
        assert(a + b =~= a);
    } else {
        assert((a + b).drop_last() =~= a + b.drop_last());
        lemma_obey_concat(s, a, b.drop_last());
    }
}

/// The relative move takes the cursor to the row it is meant for and
/// changes no row.
pub proof fn lemma_motion_reaches(s: Screen, to: nat)
    requires
        s.wf(),
        to < s.lines.len(),
    ensures
        s.obey_all(motion(s.row, to)) == (Screen { row: to, ..s }),
{
    let cs = motion(s.row, to);
    if cs.len() == 1 {
        assert(cs.drop_last() =~= Seq::<Command>::empty());
        assert(s.obey_all(cs.drop_last()) == s);
    }
}

/// A write shows the text on its row, changes no other row, and leaves the
/// cursor on that row.
pub proof fn lemma_write_shows(s: Screen, to: nat, text: Seq<char>)
    requires
        s.wf(),
        to < s.lines.len(),
    ensures
        s.obey_all(rewriting(s.row, to, text)) == (Screen {
            lines: s.lines.update(to as int, text),
            row: to,
        }),
{
    lemma_motion_reaches(s, to);
    lemma_obey_push(s, motion(s.row, to), Command::Rewrite(text));
}

/// An allocation opens an empty row below the last one, changes no other
/// row, and leaves the cursor on the new row.
pub proof fn lemma_allocation_appends(s: Screen)
    requires
        s.wf(),
    ensures
        s.obey_all(allocation(s.row, s.lines.len())) == (Screen {
            lines: s.lines.push(Seq::empty()),
            row: s.lines.len(),
        }),
{
    let last = (s.lines.len() - 1) as nat;
    lemma_motion_reaches(s, last);
    lemma_obey_push(s, motion(s.row, last), Command::Feed);
}

/// Serving a request keeps the cursor on a row and never takes a row away;
/// it changes no row but the one written to.
pub proof fn lemma_serve(s: Screen, r: Request)
    requires
        s.wf(),
    ensures
        s.serve(r).wf(),
        s.serve(r).lines.len() >= s.lines.len(),
        forall|i: int|
            0 <= i < s.lines.len() && !(r matches Request::Write { row, .. } && row == i)
                ==> #[trigger] s.serve(r).lines[i] == s.lines[i],
        r matches Request::Write { row, text } ==> (row < s.lines.len() ==> s.serve(r).lines[row as int]
            == text),
{
    match r {
        Request::Allocate => {
            lemma_allocation_appends(s);
        },
        Request::Write { row, text } => {
            if row < s.lines.len() {
                lemma_write_shows(s, row, text);
            }
        },
    }
}

/// Each row is only ever rewritten by the writes to it: after any requests
/// an allocated row shows exactly the text of the last write to it, and
/// what it showed before if there was none. Rows are never taken away.
pub proof fn lemma_row_shows_its_last_write(s: Screen, rs: Seq<Request>, row: nat)
    requires
        s.wf(),
        row < s.lines.len(),
    ensures
        s.serve_all(rs).wf(),
        s.serve_all(rs).lines.len() >= s.lines.len(),
        s.serve_all(rs).lines[row as int] == last_written(s.lines[row as int], rs, row),
    decreases rs.len(),
{
    if rs.len() > 0 {
        lemma_row_shows_its_last_write(s, rs.drop_last(), row);
        lemma_serve(s.serve_all(rs.drop_last()), rs.last());
    }
}

/// A job writes to no row but its own: what it sends in answer to an event
/// leaves every row that was allocated before as it was, but for the job's
/// row, which shows the job's status line whenever its status is set; and
/// the row a job is admitted to is a new one.
pub proof fn lemma_job_writes_its_own_row(job: JobView, event: EventView, s: Screen)
    requires
        s.wf(),
        job.placed(s.lines.len()),
    ensures
        ({
            let after = next(job, event, s.lines.len());
            let shown = s.obey_all(rendered(job, event, s.row, s.lines.len()));
            &&& shown.wf()
            &&& shown.lines.len() == s.lines.len() + if job.phase == Phase::Queued && after.phase
                == Phase::Running {
                1nat
            } else {
                0nat
            }
            &&& after.placed(shown.lines.len())
            &&& job.phase == Phase::Queued && after.phase == Phase::Running ==> after.cursor_pos
                == s.lines.len()
            &&& forall|i: int|
                0 <= i < s.lines.len() && !(job.phase != Phase::Queued && i == job.cursor_pos)
                    ==> #[trigger] shown.lines[i] == s.lines[i]
            &&& after.phase != job.phase && after.phase != Phase::Collecting
                ==> shown.lines[after.cursor_pos as int] == status_line(after.name, after.status)
                && shown.row == after.cursor_pos
            &&& after.phase == job.phase || after.phase == Phase::Collecting ==> shown == s
        }),
{
    let rows = s.lines.len();
    let after = next(job, event, rows);
    if job.phase == Phase::Queued && after.phase == Phase::Running {
        let line = status_line(job.name, after.status);
        lemma_obey_concat(s, allocation(s.row, rows), rewriting(rows, rows, line));
        lemma_allocation_appends(s);
        lemma_write_shows(s.obey_all(allocation(s.row, rows)), rows, line);
    } else if job.phase != Phase::Finished && after.phase == Phase::Finished {
        lemma_write_shows(s, job.cursor_pos, status_line(job.name, after.status));
    }
}

} // verus!
