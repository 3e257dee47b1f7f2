//! The line renderer: an append-only region of terminal rows, addressed
//! relatively from the row the physical cursor is on.
//!
//! The renderer never touches the terminal itself. Each operation appends the
//! characters to send to a buffer and updates the row it believes the
//! physical cursor to be on; the caller sends the buffer and flushes, as one
//! step that no other writer may interleave with.

use crate::text::{decimal, push_decimal};
use vstd::prelude::*;
use vstd::string::StringExecFns;

verus! {

/// One instruction to the terminal.
pub enum Command {
    /// Go to the start of the row `n` rows up.
    Up(nat),
    /// Go to the start of the row `n` rows down.
    Down(nat),
    /// Go one row down, opening a new row below the last one.
    Feed,
    /// Go to the start of the current row, erase it and print the text.
    Rewrite(Seq<char>),
}

/// The characters that carry one command: `ESC [ n F`, `ESC [ n E`, a line
/// feed, or a carriage return and `ESC [ 0 K` before the text.
pub open spec fn encode(c: Command) -> Seq<char> {
    match c {
        Command::Up(n) => seq!['\x1b', '['] + decimal(n) + seq!['F'],
        Command::Down(n) => seq!['\x1b', '['] + decimal(n) + seq!['E'],
        Command::Feed => seq!['\n'],
        Command::Rewrite(text) => seq!['\r', '\x1b', '[', '0', 'K'] + text,
    }
}

/// The characters that carry the commands, one after the other.
pub open spec fn encode_all(cs: Seq<Command>) -> Seq<char>
    decreases cs.len(),
{
    if cs.len() == 0 {
        Seq::empty()
    } else {
        encode(cs[0]) + encode_all(cs.drop_first())
    }
}

/// The commands that take the cursor from row `from` to row `to`: none when
/// it is there already, else one relative move up or down.
pub open spec fn motion(from: nat, to: nat) -> Seq<Command> {
    if to < from {
        seq![Command::Up((from - to) as nat)]
    } else if to > from {
        seq![Command::Down((to - from) as nat)]
    } else {
        Seq::empty()
    }
}

/// The commands that open a new row below a region of `rows` rows, with the
/// cursor on row `from`.
pub open spec fn allocation(from: nat, rows: nat) -> Seq<Command> {
    motion(from, (rows - 1) as nat).push(Command::Feed)
}

/// The commands that replace what row `to` shows by `text`, with the cursor
/// on row `from`.
pub open spec fn rewriting(from: nat, to: nat, text: Seq<char>) -> Seq<Command> {
    motion(from, to).push(Command::Rewrite(text))
}

/// Encoding goes through concatenation.
pub proof fn lemma_encode_concat(a: Seq<Command>, b: Seq<Command>)
    ensures
        encode_all(a + b) == encode_all(a) + encode_all(b),
    decreases a.len(),
{
    if a.len() == 0 {
        assert(a + b =~= b);
        assert(encode_all(a) + encode_all(b) =~= encode_all(b));
    } else {
        assert((a + b).drop_first() =~= a.drop_first() + b);
        lemma_encode_concat(a.drop_first(), b);
        assert(encode_all(a + b) =~= encode_all(a) + encode_all(b));
    }
}

/// Encoding one more command appends its characters.
pub proof fn lemma_encode_push(a: Seq<Command>, c: Command)
    ensures
        encode_all(a.push(c)) == encode_all(a) + encode(c),
{
    let one = seq![c];
    assert(one.drop_first() =~= Seq::<Command>::empty());
    assert(encode_all(one.drop_first()) =~= Seq::<char>::empty());
    assert(encode_all(one) =~= encode(c));
    assert(a.push(c) =~= a + one);
    lemma_encode_concat(a, one);
}

/// Tracks which row the physical cursor is on and how many rows have been
/// allocated. A row, once allocated, keeps its index for good.
pub struct Cursor {
    pos: usize,
    tot: usize,
}

impl Cursor {
    /// The row the physical cursor is on.
    pub closed spec fn row(&self) -> nat {
        self.pos as nat
    }

    /// The number of rows allocated so far.
    pub closed spec fn rows(&self) -> nat {
        self.tot as nat
    }

    /// The cursor is on an allocated row.
    pub open spec fn wf(&self) -> bool {
        self.row() < self.rows()
    }

    /// A renderer that owns the single row the cursor starts on.
    pub fn new() -> (c: Cursor)
        ensures
            c.wf(),
            c.row() == 0,
            c.rows() == 1,
    {
        Cursor { pos: 0, tot: 1 }
    }

    /// The row the physical cursor is on.
    pub fn position(&self) -> (p: usize)
        ensures
            p == self.row(),
    {
        self.pos
    }

    /// The number of rows allocated so far.
    pub fn line_count(&self) -> (n: usize)
        ensures
            n == self.rows(),
    {
        self.tot
    }

    /// Moves to the allocated row `new_pos`, appending the relative move to
    /// `out`, and returns the row the cursor is then on.
    pub fn move_to(&mut self, new_pos: usize, out: &mut String) -> (pos: usize)
        requires
            new_pos < old(self).rows(),
        ensures
            pos == new_pos,
            final(self).row() == new_pos,
            final(self).rows() == old(self).rows(),
            final(self).wf(),
            final(out)@ == old(out)@ + encode_all(motion(old(self).row(), new_pos as nat)),
    {
        let ghost before = out@;
        let ghost cmds = motion(self.row(), new_pos as nat);
        if new_pos < self.pos {
            push_escape(out, (self.pos - new_pos) as u64, 'F');
            proof {
                lemma_encode_push(Seq::empty(), cmds[0]);
                assert(cmds =~= Seq::<Command>::empty().push(cmds[0]));
                assert(out@ =~= before + encode_all(cmds));
            }
        } else if new_pos > self.pos {
            push_escape(out, (new_pos - self.pos) as u64, 'E');
            proof {
                lemma_encode_push(Seq::empty(), cmds[0]);
                assert(cmds =~= Seq::<Command>::empty().push(cmds[0]));
                assert(out@ =~= before + encode_all(cmds));
            }
        } else {
            assert(out@ =~= before + encode_all(cmds));
        }
        self.pos = new_pos;
        self.pos
    }

    /// Allocates a new row below the last one, appending to `out` the move
    /// to the last row and the line feed, and returns the new row's index.
    pub fn new_line(&mut self, out: &mut String) -> (pos: usize)
        requires
            old(self).wf(),
            old(self).rows() < usize::MAX,
        ensures
            pos == old(self).rows(),
            final(self).row() == old(self).rows(),
            final(self).rows() == old(self).rows() + 1,
            final(self).wf(),
            final(out)@ == old(out)@ + encode_all(allocation(old(self).row(), old(self).rows())),
    {
        let ghost before = out@;
        let ghost from = self.row();
        let ghost rows = self.rows();
        self.move_to(self.tot - 1, out);
        out.push('\n');
        proof {
            lemma_encode_push(motion(from, (rows - 1) as nat), Command::Feed);
            assert(out@ =~= before + encode_all(allocation(from, rows)));
        }
        self.pos = self.tot;
        self.tot += 1;
        self.pos
    }

    /// Replaces what the allocated row `pos` shows by `content`, appending to
    /// `out` the move to that row, the erasure and the text, and returns the
    /// row the cursor is then on.
    pub fn write_line(&mut self, pos: usize, content: &str, out: &mut String) -> (at: usize)
        requires
            pos < old(self).rows(),
        ensures
            at == pos,
            final(self).row() == pos,
            final(self).rows() == old(self).rows(),
            final(self).wf(),
            final(out)@ == old(out)@ + encode_all(
                rewriting(old(self).row(), pos as nat, content@),
            ),
    {
        let ghost before = out@;
        let ghost from = self.row();
        self.move_to(pos, out);
        out.push('\r');
        out.push('\x1b');
        out.push('[');
        out.push('0');
        out.push('K');
        out.append(content);
        proof {
            lemma_encode_push(motion(from, pos as nat), Command::Rewrite(content@));
            assert(out@ =~= before + encode_all(rewriting(from, pos as nat, content@)));
        }
        self.pos
    }
}

/// Appends `ESC [ n c` to `out`.
fn push_escape(out: &mut String, n: u64, c: char)
    ensures
        final(out)@ == old(out)@ + (seq!['\x1b', '['] + decimal(n as nat) + seq![c]),
{
    let ghost before = out@;
    out.push('\x1b');
    out.push('[');
    push_decimal(out, n);
    out.push(c);
    assert(out@ =~= before + (seq!['\x1b', '['] + decimal(n as nat) + seq![c]));
}

} // verus!
