//! The edit buffer: a line of bytes with a cursor, and the editing keys.

use vstd::prelude::*;
use crate::input::KeyInput;
use crate::output::{
    clear_to_eol, cursor_left, cursor_move, cursor_left_n, cursor_right, cursor_right_n,
    redraw_bytes, redraw_input,
};

verus! {

/// A line under edit. The cursor is an insertion point: 0 stands before the
/// first byte, the length behind the last.
pub struct EditBuffer {
    pub buffer: Vec<u8>,
    pub cursor: usize,
}

/// An edit buffer as plain data.
pub struct EditView {
    pub buffer: Seq<u8>,
    pub cursor: nat,
}

impl View for EditBuffer {
    type V = EditView;

    open spec fn view(&self) -> EditView {
        EditView { buffer: self.buffer@, cursor: self.cursor as nat }
    }
}

/// What an edit asks of the display.
#[derive(Clone, Copy, Debug, PartialEq, Eq, Structural)]
pub enum Repaint {
    /// Nothing changed.
    Nothing,
    /// The line changed: repaint it, with the cursor coming from
    /// `prev_cursor`.
    Line { prev_cursor: usize },
    /// The cursor went one column left.
    Left,
    /// The cursor went one column right.
    Right,
    /// The cursor went this many columns left.
    LeftBy(usize),
    /// The cursor went this many columns right.
    RightBy(usize),
    /// What stood at and behind the cursor is gone.
    ClearToEol,
}

/// The space character, which parts words.
pub const SPACE: u8 = 0x20;

/// Where the spaces that end at `pos` begin.
pub open spec fn spaces_start(buffer: Seq<u8>, pos: int) -> int
    decreases pos,
{
    if 0 < pos <= buffer.len() && buffer[pos - 1] == SPACE {
        spaces_start(buffer, pos - 1)
    } else {
        pos
    }
}

/// Where the run of bytes other than spaces that ends at `pos` begins.
pub open spec fn nonspaces_start(buffer: Seq<u8>, pos: int) -> int
    decreases pos,
{
    if 0 < pos <= buffer.len() && buffer[pos - 1] != SPACE {
        nonspaces_start(buffer, pos - 1)
    } else {
        pos
    }
}

/// Where the word before `cursor` begins: back over the spaces before the
/// cursor, then back over the bytes that are not spaces.
pub open spec fn word_start(buffer: Seq<u8>, cursor: int) -> int {
    nonspaces_start(buffer, spaces_start(buffer, cursor))
}

/// The word before the cursor, said without recursion: it begins at or
/// before the cursor, holds bytes other than spaces and then only spaces,
/// and cannot be made longer at its front.
pub proof fn lemma_word_start(buffer: Seq<u8>, cursor: int)
    requires
        0 <= cursor <= buffer.len(),
    ensures
        0 <= word_start(buffer, cursor) <= spaces_start(buffer, cursor) <= cursor,
        forall|i: int| spaces_start(buffer, cursor) <= i < cursor ==> buffer[i] == SPACE,
        forall|i: int|
            word_start(buffer, cursor) <= i < spaces_start(buffer, cursor) ==> buffer[i] != SPACE,
        spaces_start(buffer, cursor) > 0 ==> buffer[spaces_start(buffer, cursor) - 1] != SPACE,
        word_start(buffer, cursor) > 0 ==> buffer[word_start(buffer, cursor) - 1] == SPACE,
{
    lemma_spaces_start(buffer, cursor);
    lemma_nonspaces_start(buffer, spaces_start(buffer, cursor));
}

proof fn lemma_spaces_start(buffer: Seq<u8>, pos: int)
    requires
        0 <= pos <= buffer.len(),
    ensures
        0 <= spaces_start(buffer, pos) <= pos,
        forall|i: int| spaces_start(buffer, pos) <= i < pos ==> buffer[i] == SPACE,
        spaces_start(buffer, pos) > 0 ==> buffer[spaces_start(buffer, pos) - 1] != SPACE,
    decreases pos,
{
    if 0 < pos && buffer[pos - 1] == SPACE {
        lemma_spaces_start(buffer, pos - 1);
    }
}

proof fn lemma_nonspaces_start(buffer: Seq<u8>, pos: int)
    requires
        0 <= pos <= buffer.len(),
    ensures
        0 <= nonspaces_start(buffer, pos) <= pos,
        forall|i: int| nonspaces_start(buffer, pos) <= i < pos ==> buffer[i] != SPACE,
        nonspaces_start(buffer, pos) > 0 ==> buffer[nonspaces_start(buffer, pos) - 1] == SPACE,
    decreases pos,
{
    if 0 < pos && buffer[pos - 1] != SPACE {
        lemma_nonspaces_start(buffer, pos - 1);
    }
}

impl EditView {
    /// The cursor is an insertion point of the buffer.
    pub open spec fn wf(self) -> bool {
        self.cursor <= self.buffer.len()
    }

    /// The line with `b` put in at the cursor, and the cursor behind it.
    pub open spec fn inserted(self, b: u8) -> EditView {
        EditView { buffer: self.buffer.insert(self.cursor as int, b), cursor: self.cursor + 1 }
    }

    /// The line without the byte before the cursor.
    pub open spec fn backspaced(self) -> EditView {
        if self.cursor > 0 {
            EditView {
                buffer: self.buffer.remove(self.cursor - 1),
                cursor: (self.cursor - 1) as nat,
            }
        } else {
            self
        }
    }

    /// The line without the byte at the cursor.
    pub open spec fn deleted(self) -> EditView {
        if self.cursor < self.buffer.len() {
            EditView { buffer: self.buffer.remove(self.cursor as int), cursor: self.cursor }
        } else {
            self
        }
    }

    /// The cursor one place left.
    pub open spec fn moved_left(self) -> EditView {
        if self.cursor > 0 {
            EditView { buffer: self.buffer, cursor: (self.cursor - 1) as nat }
        } else {
            self
        }
    }

    /// The cursor one place right.
    pub open spec fn moved_right(self) -> EditView {
        if self.cursor < self.buffer.len() {
            EditView { buffer: self.buffer, cursor: self.cursor + 1 }
        } else {
            self
        }
    }

    /// The cursor at the start.
    pub open spec fn at_home(self) -> EditView {
        EditView { buffer: self.buffer, cursor: 0 }
    }

    /// The cursor at the end.
    pub open spec fn at_end(self) -> EditView {
        EditView { buffer: self.buffer, cursor: self.buffer.len() }
    }

    /// The line cut off at the cursor.
    pub open spec fn killed_to_end(self) -> EditView {
        EditView { buffer: self.buffer.subrange(0, self.cursor as int), cursor: self.cursor }
    }

    /// The line without what stood before the cursor.
    pub open spec fn killed_to_start(self) -> EditView {
        EditView {
            buffer: self.buffer.subrange(self.cursor as int, self.buffer.len() as int),
            cursor: 0,
        }
    }

    /// The line without the word before the cursor.
    pub open spec fn killed_word_back(self) -> EditView {
        let start = word_start(self.buffer, self.cursor as int);
        EditView {
            buffer: self.buffer.subrange(0, start) + self.buffer.subrange(
                self.cursor as int,
                self.buffer.len() as int,
            ),
            cursor: start as nat,
        }
    }

    /// The line after an editing key; other keys leave it as it is.
    pub open spec fn edited(self, key: KeyInput) -> EditView {
        match key {
            KeyInput::Backspace => self.backspaced(),
            KeyInput::Delete => self.deleted(),
            KeyInput::Left => self.moved_left(),
            KeyInput::Right => self.moved_right(),
            KeyInput::Home => self.at_home(),
            KeyInput::End => self.at_end(),
            KeyInput::KillToEnd => self.killed_to_end(),
            KeyInput::KillToStart => self.killed_to_start(),
            KeyInput::KillWordBack => self.killed_word_back(),
            _ => self,
        }
    }

    /// What an editing key asks of the display.
    pub open spec fn repaint_for(self, key: KeyInput) -> Repaint {
        let changed = Repaint::Line { prev_cursor: self.cursor as usize };
        match key {
            KeyInput::Backspace | KeyInput::KillToStart | KeyInput::KillWordBack => if self.cursor
                > 0 {
                changed
            } else {
                Repaint::Nothing
            },
            KeyInput::Delete => if self.cursor < self.buffer.len() {
                changed
            } else {
                Repaint::Nothing
            },
            KeyInput::Left => if self.cursor > 0 {
                Repaint::Left
            } else {
                Repaint::Nothing
            },
            KeyInput::Right => if self.cursor < self.buffer.len() {
                Repaint::Right
            } else {
                Repaint::Nothing
            },
            KeyInput::Home => if self.cursor > 0 {
                Repaint::LeftBy(self.cursor as usize)
            } else {
                Repaint::Nothing
            },
            KeyInput::End => if self.cursor < self.buffer.len() {
                Repaint::RightBy((self.buffer.len() - self.cursor) as usize)
            } else {
                Repaint::Nothing
            },
            KeyInput::KillToEnd => if self.cursor < self.buffer.len() {
                Repaint::ClearToEol
            } else {
                Repaint::Nothing
            },
            _ => Repaint::Nothing,
        }
    }
}

/// The cursor stays an insertion point of the buffer whatever is typed:
/// after a byte is put in, and after any editing key.
pub proof fn lemma_cursor_in_range(line: EditView, key: KeyInput, b: u8)
    requires
        line.wf(),
    ensures
        line.inserted(b).wf(),
        line.edited(key).wf(),
        line.edited(key).buffer.len() <= line.buffer.len(),
{
    lemma_word_start(line.buffer, line.cursor as int);
}

impl EditBuffer {
    /// The cursor is an insertion point of the buffer.
    pub open spec fn wf(&self) -> bool {
        self@.wf()
    }

    /// An empty line.
    pub fn new() -> (line: EditBuffer)
        ensures
            line.wf(),
            line.buffer@.len() == 0,
            line.cursor == 0,
    {
        EditBuffer { buffer: Vec::new(), cursor: 0 }
    }

    /// Puts a byte in at the cursor, which moves behind it.
    pub fn insert(&mut self, b: u8) -> (repaint: Repaint)
        requires
            old(self).wf(),
        ensures
            final(self).wf(),
            final(self)@ == old(self)@.inserted(b),
            repaint == (Repaint::Line { prev_cursor: old(self).cursor }),
    {
        let prev_cursor = self.cursor;
        self.buffer.insert(self.cursor, b);
        let len = self.buffer.len();
        assert(self.cursor < len);
        self.cursor += 1;
        Repaint::Line { prev_cursor }
    }

    /// Takes out the byte before the cursor, if there is one.
    pub fn backspace(&mut self) -> (repaint: Repaint)
        requires
            old(self).wf(),
        ensures
            final(self).wf(),
            final(self)@ == old(self)@.backspaced(),
            repaint == old(self)@.repaint_for(KeyInput::Backspace),
    {
        if self.cursor == 0 {
            return Repaint::Nothing;
        }
        let prev_cursor = self.cursor;
        self.buffer.remove(self.cursor - 1);
        self.cursor -= 1;
        Repaint::Line { prev_cursor }
    }

    /// Takes out the byte at the cursor, if there is one.
    pub fn delete(&mut self) -> (repaint: Repaint)
        requires
            old(self).wf(),
        ensures
            final(self).wf(),
            final(self)@ == old(self)@.deleted(),
            repaint == old(self)@.repaint_for(KeyInput::Delete),
    {
        if self.cursor >= self.buffer.len() {
            return Repaint::Nothing;
        }
        self.buffer.remove(self.cursor);
        Repaint::Line { prev_cursor: self.cursor }
    }

    /// Moves the cursor one place left, if it is not at the start.
    pub fn left(&mut self) -> (repaint: Repaint)
        requires
            old(self).wf(),
        ensures
            final(self).wf(),
            final(self)@ == old(self)@.moved_left(),
            repaint == old(self)@.repaint_for(KeyInput::Left),
    {
        if self.cursor == 0 {
            return Repaint::Nothing;
        }
        self.cursor -= 1;
        Repaint::Left
    }

    /// Moves the cursor one place right, if it is not at the end.
    pub fn right(&mut self) -> (repaint: Repaint)
        requires
            old(self).wf(),
        ensures
            final(self).wf(),
            final(self)@ == old(self)@.moved_right(),
            repaint == old(self)@.repaint_for(KeyInput::Right),
    {
        if self.cursor >= self.buffer.len() {
            return Repaint::Nothing;
        }
        self.cursor += 1;
        Repaint::Right
    }

    /// Moves the cursor to the start of the line.
    pub fn home(&mut self) -> (repaint: Repaint)
        requires
            old(self).wf(),
        ensures
            final(self).wf(),
            final(self)@ == old(self)@.at_home(),
            repaint == old(self)@.repaint_for(KeyInput::Home),
    {
        if self.cursor == 0 {
            return Repaint::Nothing;
        }
        let by = self.cursor;
        self.cursor = 0;
        Repaint::LeftBy(by)
    }

    /// Moves the cursor to the end of the line.
    pub fn end(&mut self) -> (repaint: Repaint)
        requires
            old(self).wf(),
        ensures
            final(self).wf(),
            final(self)@ == old(self)@.at_end(),
            repaint == old(self)@.repaint_for(KeyInput::End),
    {
        if self.cursor >= self.buffer.len() {
            return Repaint::Nothing;
        }
        let by = self.buffer.len() - self.cursor;
        self.cursor = self.buffer.len();
        Repaint::RightBy(by)
    }

    /// Cuts the line off at the cursor.
    pub fn kill_to_end(&mut self) -> (repaint: Repaint)
        requires
            old(self).wf(),
        ensures
            final(self).wf(),
            final(self)@ == old(self)@.killed_to_end(),
            repaint == old(self)@.repaint_for(KeyInput::KillToEnd),
    {
        if self.cursor >= self.buffer.len() {
            assert(self.buffer@ =~= old(self).buffer@.subrange(0, old(self).cursor as int));
            return Repaint::Nothing;
        }
        self.buffer.truncate(self.cursor);
        Repaint::ClearToEol
    }

    /// Takes out all that stands before the cursor; the cursor goes to the
    /// start.
    pub fn kill_to_start(&mut self) -> (repaint: Repaint)
        requires
            old(self).wf(),
        ensures
            final(self).wf(),
            final(self)@ == old(self)@.killed_to_start(),
            repaint == old(self)@.repaint_for(KeyInput::KillToStart),
    {
        if self.cursor == 0 {
            assert(self.buffer@ =~= old(self).buffer@.subrange(0, old(self).buffer@.len() as int));
            return Repaint::Nothing;
        }
        let prev_cursor = self.cursor;
        let tail = self.buffer.split_off(self.cursor);
        self.buffer = tail;
        self.cursor = 0;
        Repaint::Line { prev_cursor }
    }

    /// Takes out the word before the cursor with the spaces that part it
    /// from the cursor; the cursor goes to where the word began.
    pub fn kill_word_back(&mut self) -> (repaint: Repaint)
        requires
            old(self).wf(),
        ensures
            final(self).wf(),
            final(self)@ == old(self)@.killed_word_back(),
            repaint == old(self)@.repaint_for(KeyInput::KillWordBack),
    {
        if self.cursor == 0 {
            assert(self.buffer@ =~= old(self)@.killed_word_back().buffer);
            return Repaint::Nothing;
        }
        let prev_cursor = self.cursor;
        let mut mid: usize = self.cursor;
        while mid > 0 && self.buffer[mid - 1] == SPACE
            invariant
                mid <= self.cursor <= self.buffer@.len(),
                spaces_start(self.buffer@, self.cursor as int) == spaces_start(
                    self.buffer@,
                    mid as int,
                ),
            decreases mid,
        {
            mid -= 1;
        }
        let mut start: usize = mid;
        while start > 0 && self.buffer[start - 1] != SPACE
            invariant
                start <= mid <= self.buffer@.len(),
                nonspaces_start(self.buffer@, mid as int) == nonspaces_start(
                    self.buffer@,
                    start as int,
                ),
            decreases start,
        {
            start -= 1;
        }
        let mut tail = self.buffer.split_off(self.cursor);
        self.buffer.truncate(start);
        self.buffer.append(&mut tail);
        self.cursor = start;
        assert(self.buffer@ =~= old(self)@.killed_word_back().buffer);
        Repaint::Line { prev_cursor }
    }

    /// Applies an editing key; any other key changes nothing.
    pub fn apply_key(&mut self, key: KeyInput) -> (repaint: Repaint)
        requires
            old(self).wf(),
        ensures
            final(self).wf(),
            final(self)@ == old(self)@.edited(key),
            repaint == old(self)@.repaint_for(key),
    {
        match key {
            KeyInput::Backspace => self.backspace(),
            KeyInput::Delete => self.delete(),
            KeyInput::Left => self.left(),
            KeyInput::Right => self.right(),
            KeyInput::Home => self.home(),
            KeyInput::End => self.end(),
            KeyInput::KillToEnd => self.kill_to_end(),
            KeyInput::KillToStart => self.kill_to_start(),
            KeyInput::KillWordBack => self.kill_word_back(),
            _ => Repaint::Nothing,
        }
    }

    /// The bytes that a repaint writes to the terminal.
    pub open spec fn paint_bytes(&self, repaint: Repaint) -> Seq<u8> {
        match repaint {
            Repaint::Nothing => Seq::empty(),
            Repaint::Line { prev_cursor } => redraw_bytes(
                self.buffer@,
                self.cursor as nat,
                prev_cursor as nat,
            ),
            Repaint::Left => cursor_left(),
            Repaint::Right => cursor_right(),
            Repaint::LeftBy(n) => cursor_move(n as nat, 0x44),
            Repaint::RightBy(n) => cursor_move(n as nat, 0x43),
            Repaint::ClearToEol => clear_to_eol(),
        }
    }

    /// Writes out a repaint for the line as it now stands.
    pub fn paint(&self, repaint: Repaint) -> (out: Vec<u8>)
        requires
            self.wf(),
        ensures
            out@ == self.paint_bytes(repaint),
    {
        match repaint {
            Repaint::Nothing => Vec::new(),
            Repaint::Line { prev_cursor } => redraw_input(
                self.buffer.as_slice(),
                self.cursor,
                prev_cursor,
            ),
            Repaint::Left => {
                let out = vec![0x1Bu8, 0x5Bu8, 0x44u8];
                assert(out@ =~= cursor_left());
                out
            },
            Repaint::Right => {
                let out = vec![0x1Bu8, 0x5Bu8, 0x43u8];
                assert(out@ =~= cursor_right());
                out
            },
            Repaint::LeftBy(n) => cursor_left_n(n),
            Repaint::RightBy(n) => cursor_right_n(n),
            Repaint::ClearToEol => {
                let out = vec![0x1Bu8, 0x5Bu8, 0x4Bu8];
                assert(out@ =~= clear_to_eol());
                out
            },
        }
    }
}

} // verus!
