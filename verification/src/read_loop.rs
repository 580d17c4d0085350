//! Reading a fixed number of characters, with or without line editing, as
//! decisions: what each event does to what was typed, what is to be shown,
//! and whether the read goes on.

use vstd::prelude::*;
use crate::edit::{lemma_cursor_in_range, EditBuffer, EditView, Repaint};
use crate::filter::{byte_of, case_mapped, filters_pass, low_byte, map_case, Filters};
use crate::flags::Flags;
use crate::input::{InputEvent, KeyInput};
use crate::outcome::{default_due, default_len, exit_status, status_of, ReadOutcome};

verus! {

/// The line feed, which the return key types.
pub const NEWLINE: u8 = 0x0A;

/// The byte that the backspace key types where there is no line editing.
pub const RUBOUT: u8 = 0x7F;

/// The byte stored for a typed byte once case is mapped.
pub open spec fn typed_byte(flags: Flags, b: u8) -> u8 {
    low_byte(case_mapped(flags.upper, flags.lower, b as char))
}

/// One decision of a read with line editing.
pub struct LineStep {
    pub outcome: ReadOutcome,
    pub repaint: Repaint,
}

/// Whether the return key types a line feed into the line: where it
/// neither takes the default nor ends the read.
pub open spec fn enter_types(flags: Flags, has_default: bool, typed: nat) -> bool {
    !default_due(flags.dflt, has_default, typed) && !flags.ret_key
}

/// The line after an event. A typed byte that the filters let through is
/// put in at the cursor, case mapped; the return key puts in a line feed
/// where it does nothing else and the filters let that through; the editing
/// keys edit. Nothing changes a line that is full.
pub open spec fn line_after(
    flags: Flags,
    has_default: bool,
    filters: Filters,
    how_many: usize,
    s: EditView,
    event: InputEvent,
) -> EditView {
    if s.buffer.len() >= how_many {
        s
    } else {
        match event {
            InputEvent::Key(KeyInput::Char(b)) => if filters_pass(flags, filters, b as char) {
                s.inserted(typed_byte(flags, b))
            } else {
                s
            },
            InputEvent::Key(KeyInput::Enter) => if enter_types(flags, has_default, s.buffer.len())
                && filters_pass(flags, filters, '\n') {
                s.inserted(NEWLINE)
            } else {
                s
            },
            InputEvent::Key(key) => s.edited(key),
            _ => s,
        }
    }
}

/// Where a read with line editing stands after an event: over once the
/// line holds as many bytes as were asked for.
pub open spec fn line_outcome(
    flags: Flags,
    has_default: bool,
    filters: Filters,
    how_many: usize,
    s: EditView,
    event: InputEvent,
) -> ReadOutcome {
    let full_after = line_after(flags, has_default, filters, how_many, s, event).buffer.len()
        >= how_many;
    if s.buffer.len() >= how_many {
        ReadOutcome::Finished
    } else {
        match event {
            InputEvent::TimedOut => if default_due(flags.dflt, has_default, s.buffer.len()) {
                ReadOutcome::DefaultTaken
            } else {
                ReadOutcome::TimedOut
            },
            InputEvent::Interrupted => ReadOutcome::Reading,
            InputEvent::EndOfInput => ReadOutcome::Finished,
            InputEvent::Key(KeyInput::Enter) => if default_due(
                flags.dflt,
                has_default,
                s.buffer.len(),
            ) {
                ReadOutcome::DefaultTaken
            } else if flags.ret_key || full_after {
                ReadOutcome::Finished
            } else {
                ReadOutcome::Reading
            },
            InputEvent::Key(_) => if full_after {
                ReadOutcome::Finished
            } else {
                ReadOutcome::Reading
            },
        }
    }
}

/// What the display is asked for after an event: nothing in a silent
/// read; a repaint of the line where a byte went in; for an editing key
/// what that key asks.
pub open spec fn line_repaint(
    flags: Flags,
    has_default: bool,
    filters: Filters,
    how_many: usize,
    s: EditView,
    event: InputEvent,
) -> Repaint {
    if flags.silent || s.buffer.len() >= how_many {
        Repaint::Nothing
    } else {
        match event {
            InputEvent::Key(KeyInput::Char(b)) => if filters_pass(flags, filters, b as char) {
                Repaint::Line { prev_cursor: s.cursor as usize }
            } else {
                Repaint::Nothing
            },
            InputEvent::Key(KeyInput::Enter) => if enter_types(flags, has_default, s.buffer.len())
                && filters_pass(flags, filters, '\n') {
                Repaint::Line { prev_cursor: s.cursor as usize }
            } else {
                Repaint::Nothing
            },
            InputEvent::Key(key) => s.repaint_for(key),
            _ => Repaint::Nothing,
        }
    }
}

/// Whatever the event, the cursor stays an insertion point of the line,
/// and the line never grows by more than one byte.
pub proof fn lemma_line_event_keeps_cursor(
    flags: Flags,
    has_default: bool,
    filters: Filters,
    how_many: usize,
    s: EditView,
    event: InputEvent,
)
    requires
        s.wf(),
    ensures
        line_after(flags, has_default, filters, how_many, s, event).wf(),
        line_after(flags, has_default, filters, how_many, s, event).buffer.len() <= s.buffer.len()
            + 1,
{
    match event {
        InputEvent::Key(key) => {
            lemma_cursor_in_range(s, key, 0);
        },
        _ => {},
    }
}

/// Takes one event in a read with line editing.
pub fn line_step(
    flags: &Flags,
    has_default: bool,
    filters: &Filters,
    how_many: usize,
    line: &mut EditBuffer,
    event: InputEvent,
) -> (step: LineStep)
    requires
        old(line).wf(),
    ensures
        final(line).wf(),
        final(line)@ == line_after(*flags, has_default, *filters, how_many, old(line)@, event),
        step.outcome == line_outcome(*flags, has_default, *filters, how_many, old(line)@, event),
        step.repaint == line_repaint(*flags, has_default, *filters, how_many, old(line)@, event),
{
    let mut step = LineStep { outcome: ReadOutcome::Reading, repaint: Repaint::Nothing };
    if line.buffer.len() >= how_many {
        step.outcome = ReadOutcome::Finished;
        return step;
    }
    let due = flags.dflt && has_default && line.buffer.len() == 0;
    let mut repaint = Repaint::Nothing;
    match event {
        InputEvent::TimedOut => {
            step.outcome = if due {
                ReadOutcome::DefaultTaken
            } else {
                ReadOutcome::TimedOut
            };
            return step;
        },
        InputEvent::Interrupted => {
            return step;
        },
        InputEvent::EndOfInput => {
            step.outcome = ReadOutcome::Finished;
            return step;
        },
        InputEvent::Key(KeyInput::Char(b)) => {
            let ch = b as char;
            if filters.pass(flags, ch) {
                repaint = line.insert(byte_of(map_case(flags, ch)));
            }
        },
        InputEvent::Key(KeyInput::Enter) => {
            if due {
                step.outcome = ReadOutcome::DefaultTaken;
                return step;
            }
            if flags.ret_key {
                step.outcome = ReadOutcome::Finished;
                return step;
            }
            if filters.pass(flags, '\n') {
                repaint = line.insert(NEWLINE);
            }
        },
        InputEvent::Key(key) => {
            repaint = line.apply_key(key);
        },
    }
    if !flags.silent {
        step.repaint = repaint;
    }
    if line.buffer.len() >= how_many {
        step.outcome = ReadOutcome::Finished;
    }
    step
}

/// One decision of a read without line editing.
pub struct PlainStep {
    pub outcome: ReadOutcome,
    /// The character to write, if any.
    pub show: Option<char>,
}

/// Whether a typed byte is stored in a read without line editing: not a
/// line feed that takes the default or ends the read, and only what the
/// filters let through.
pub open spec fn plain_stores(flags: Flags, has_default: bool, filters: Filters, typed: nat, b: u8)
    -> bool {
    &&& !(b == NEWLINE && default_due(flags.dflt, has_default, typed))
    &&& !(b == NEWLINE && flags.ret_key)
    &&& filters_pass(flags, filters, b as char)
}

/// What was typed after an event, in a read without line editing. A typed
/// byte is appended, case mapped; the backspace key appends its own byte.
pub open spec fn plain_after(
    flags: Flags,
    has_default: bool,
    filters: Filters,
    how_many: usize,
    typed: Seq<u8>,
    event: InputEvent,
) -> Seq<u8> {
    if typed.len() >= how_many {
        typed
    } else {
        match event {
            InputEvent::Key(KeyInput::Char(b)) => if plain_stores(
                flags,
                has_default,
                filters,
                typed.len(),
                b,
            ) {
                typed.push(typed_byte(flags, b))
            } else {
                typed
            },
            InputEvent::Key(KeyInput::Backspace) => typed.push(RUBOUT),
            _ => typed,
        }
    }
}

/// Whether a key takes the default or ends the read by itself: the return
/// key, or a typed line feed.
pub open spec fn is_return(key: KeyInput) -> bool {
    key == KeyInput::Enter || key == KeyInput::Char(NEWLINE)
}

/// Where a read without line editing stands after an event.
pub open spec fn plain_outcome(
    flags: Flags,
    has_default: bool,
    filters: Filters,
    how_many: usize,
    typed: Seq<u8>,
    event: InputEvent,
) -> ReadOutcome {
    let full_after = plain_after(flags, has_default, filters, how_many, typed, event).len()
        >= how_many;
    if typed.len() >= how_many {
        ReadOutcome::Finished
    } else {
        match event {
            InputEvent::TimedOut => if default_due(flags.dflt, has_default, typed.len()) {
                ReadOutcome::DefaultTaken
            } else {
                ReadOutcome::TimedOut
            },
            InputEvent::Interrupted => ReadOutcome::Reading,
            InputEvent::EndOfInput => ReadOutcome::Finished,
            InputEvent::Key(key) => if is_return(key) && default_due(
                flags.dflt,
                has_default,
                typed.len(),
            ) {
                ReadOutcome::DefaultTaken
            } else if (is_return(key) && flags.ret_key) || full_after {
                ReadOutcome::Finished
            } else {
                ReadOutcome::Reading
            },
        }
    }
}

/// The character to write after an event: the one that was stored, case
/// mapped, unless the read is silent.
pub open spec fn plain_shown(
    flags: Flags,
    has_default: bool,
    filters: Filters,
    how_many: usize,
    typed: Seq<u8>,
    event: InputEvent,
) -> Option<char> {
    if flags.silent || typed.len() >= how_many {
        None
    } else {
        match event {
            InputEvent::Key(KeyInput::Char(b)) => if plain_stores(
                flags,
                has_default,
                filters,
                typed.len(),
                b,
            ) {
                Some(case_mapped(flags.upper, flags.lower, b as char))
            } else {
                None
            },
            _ => None,
        }
    }
}

/// Takes one event in a read without line editing.
pub fn plain_step(
    flags: &Flags,
    has_default: bool,
    filters: &Filters,
    how_many: usize,
    typed: &mut Vec<u8>,
    event: InputEvent,
) -> (step: PlainStep)
    ensures
        final(typed)@ == plain_after(*flags, has_default, *filters, how_many, old(typed)@, event),
        step.outcome == plain_outcome(*flags, has_default, *filters, how_many, old(typed)@, event),
        step.show == plain_shown(*flags, has_default, *filters, how_many, old(typed)@, event),
{
    let mut step = PlainStep { outcome: ReadOutcome::Reading, show: None };
    if typed.len() >= how_many {
        step.outcome = ReadOutcome::Finished;
        return step;
    }
    let due = flags.dflt && has_default && typed.len() == 0;
    match event {
        InputEvent::TimedOut => {
            step.outcome = if due {
                ReadOutcome::DefaultTaken
            } else {
                ReadOutcome::TimedOut
            };
            return step;
        },
        InputEvent::Interrupted => {
            return step;
        },
        InputEvent::EndOfInput => {
            step.outcome = ReadOutcome::Finished;
            return step;
        },
        InputEvent::Key(KeyInput::Char(b)) => {
            if b == NEWLINE && due {
                step.outcome = ReadOutcome::DefaultTaken;
                return step;
            }
            if b == NEWLINE && flags.ret_key {
                step.outcome = ReadOutcome::Finished;
                return step;
            }
            let ch = b as char;
            if filters.pass(flags, ch) {
                let mapped = map_case(flags, ch);
                typed.push(byte_of(mapped));
                if !flags.silent {
                    step.show = Some(mapped);
                }
            }
        },
        InputEvent::Key(KeyInput::Backspace) => {
            typed.push(RUBOUT);
        },
        InputEvent::Key(KeyInput::Enter) => {
            if due {
                step.outcome = ReadOutcome::DefaultTaken;
                return step;
            }
            if flags.ret_key {
                step.outcome = ReadOutcome::Finished;
                return step;
            }
        },
        InputEvent::Key(_) => {},
    }
    if typed.len() >= how_many {
        step.outcome = ReadOutcome::Finished;
    }
    step
}


/// The outcome and the line of a read with line editing that takes the
/// events from `pos` on until one ends it. A read that runs out of events
/// ends as one whose input ended.
pub open spec fn line_run_from(
    flags: Flags,
    has_default: bool,
    filters: Filters,
    how_many: usize,
    s: EditView,
    events: Seq<InputEvent>,
    pos: int,
) -> (ReadOutcome, EditView)
    decreases events.len() - pos,
{
    if pos < 0 || pos >= events.len() {
        (ReadOutcome::Finished, s)
    } else {
        let outcome = line_outcome(flags, has_default, filters, how_many, s, events[pos]);
        let next = line_after(flags, has_default, filters, how_many, s, events[pos]);
        if outcome != ReadOutcome::Reading {
            (outcome, next)
        } else {
            line_run_from(flags, has_default, filters, how_many, next, events, pos + 1)
        }
    }
}

/// The line in which a read ends has its cursor within it, whatever the
/// events.
pub proof fn lemma_line_run_keeps_cursor(
    flags: Flags,
    has_default: bool,
    filters: Filters,
    how_many: usize,
    s: EditView,
    events: Seq<InputEvent>,
    pos: int,
)
    requires
        s.wf(),
    ensures
        line_run_from(flags, has_default, filters, how_many, s, events, pos).1.wf(),
    decreases events.len() - pos,
{
    if 0 <= pos < events.len() {
        lemma_line_event_keeps_cursor(flags, has_default, filters, how_many, s, events[pos]);
        lemma_line_run_keeps_cursor(
            flags,
            has_default,
            filters,
            how_many,
            line_after(flags, has_default, filters, how_many, s, events[pos]),
            events,
            pos + 1,
        );
    }
}

/// How a read with line editing ended.
pub struct LineRun {
    pub outcome: ReadOutcome,
    pub line: EditBuffer,
    pub status: i32,
}

/// Reads up to `how_many` bytes with line editing from a list of events.
pub fn run_line_mode(
    flags: &Flags,
    default_string: &Option<String>,
    filters: &Filters,
    how_many: usize,
    events: &[InputEvent],
) -> (run: LineRun)
    ensures
        run.line.wf(),
        (run.outcome, run.line@) == line_run_from(
            *flags,
            default_string is Some,
            *filters,
            how_many,
            EditView { buffer: Seq::empty(), cursor: 0 },
            events@,
            0,
        ),
        run.outcome != ReadOutcome::Reading,
        run.status == exit_status(run.outcome, run.line.buffer.len(), default_len(*default_string)),
{
    let has_default = default_string.is_some();
    let answer_len = match default_string {
        Some(d) => d.as_str().len(),
        None => 0,
    };
    let mut line = EditBuffer::new();
    let mut pos: usize = 0;
    let ghost start = EditView { buffer: Seq::<u8>::empty(), cursor: 0 };
    let ghost goal = line_run_from(*flags, has_default, *filters, how_many, start, events@, 0);
    assert(line@ == start) by {
        assert(line@.buffer =~= start.buffer);
    }
    while pos < events.len()
        invariant
            pos <= events.len(),
            line.wf(),
            has_default == (default_string is Some),
            answer_len == default_len(*default_string),
            goal == line_run_from(*flags, has_default, *filters, how_many, start, events@, 0),
            start == (EditView { buffer: Seq::<u8>::empty(), cursor: 0 }),
            goal == line_run_from(
                *flags,
                has_default,
                *filters,
                how_many,
                line@,
                events@,
                pos as int,
            ),
        decreases events.len() - pos,
    {
        let step = line_step(flags, has_default, filters, how_many, &mut line, events[pos]);
        if step.outcome != ReadOutcome::Reading {
            let status = status_of(step.outcome, line.buffer.len(), answer_len);
            return LineRun { outcome: step.outcome, line, status };
        }
        pos += 1;
    }
    let status = status_of(ReadOutcome::Finished, line.buffer.len(), answer_len);
    LineRun { outcome: ReadOutcome::Finished, line, status }
}

/// The outcome of a read without line editing that takes the events from
/// `pos` on until one ends it, and what was typed.
pub open spec fn plain_run_from(
    flags: Flags,
    has_default: bool,
    filters: Filters,
    how_many: usize,
    typed: Seq<u8>,
    events: Seq<InputEvent>,
    pos: int,
) -> (ReadOutcome, Seq<u8>)
    decreases events.len() - pos,
{
    if pos < 0 || pos >= events.len() {
        (ReadOutcome::Finished, typed)
    } else {
        let outcome = plain_outcome(flags, has_default, filters, how_many, typed, events[pos]);
        let next = plain_after(flags, has_default, filters, how_many, typed, events[pos]);
        if outcome != ReadOutcome::Reading {
            (outcome, next)
        } else {
            plain_run_from(flags, has_default, filters, how_many, next, events, pos + 1)
        }
    }
}

/// How a read without line editing ended.
pub struct PlainRun {
    pub outcome: ReadOutcome,
    pub typed: Vec<u8>,
    pub status: i32,
}

/// Reads up to `how_many` bytes without line editing from a list of
/// events.
pub fn run_plain_mode(
    flags: &Flags,
    default_string: &Option<String>,
    filters: &Filters,
    how_many: usize,
    events: &[InputEvent],
) -> (run: PlainRun)
    ensures
        (run.outcome, run.typed@) == plain_run_from(
            *flags,
            default_string is Some,
            *filters,
            how_many,
            Seq::empty(),
            events@,
            0,
        ),
        run.outcome != ReadOutcome::Reading,
        run.status == exit_status(run.outcome, run.typed.len(), default_len(*default_string)),
{
    let has_default = default_string.is_some();
    let answer_len = match default_string {
        Some(d) => d.as_str().len(),
        None => 0,
    };
    let mut typed: Vec<u8> = Vec::new();
    let mut pos: usize = 0;
    let ghost goal = plain_run_from(
        *flags,
        has_default,
        *filters,
        how_many,
        Seq::empty(),
        events@,
        0,
    );
    assert(typed@ =~= Seq::<u8>::empty());
    while pos < events.len()
        invariant
            pos <= events.len(),
            has_default == (default_string is Some),
            answer_len == default_len(*default_string),
            goal == plain_run_from(
                *flags,
                has_default,
                *filters,
                how_many,
                Seq::empty(),
                events@,
                0,
            ),
            goal == plain_run_from(
                *flags,
                has_default,
                *filters,
                how_many,
                typed@,
                events@,
                pos as int,
            ),
        decreases events.len() - pos,
    {
        let step = plain_step(flags, has_default, filters, how_many, &mut typed, events[pos]);
        if step.outcome != ReadOutcome::Reading {
            let status = status_of(step.outcome, typed.len(), answer_len);
            return PlainRun { outcome: step.outcome, typed, status };
        }
        pos += 1;
    }
    let status = status_of(ReadOutcome::Finished, typed.len(), answer_len);
    PlainRun { outcome: ReadOutcome::Finished, typed, status }
}

} // verus!
