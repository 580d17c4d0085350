//! Key decoding: from what a terminal read returned to logical keys.

use vstd::prelude::*;

verus! {

/// One logical key press.
#[derive(Clone, Copy, Debug, PartialEq, Eq, Structural)]
pub enum KeyInput {
    Char(u8),
    Backspace,
    Delete,
    Left,
    Right,
    Up,
    Down,
    Home,
    End,
    Tab,
    Escape,
    /// Ctrl-K: delete from the cursor to the end of the line.
    KillToEnd,
    /// Ctrl-U: delete from the start of the line to the cursor.
    KillToStart,
    /// Ctrl-W: delete the word before the cursor.
    KillWordBack,
    Enter,
    Unknown,
}

/// The escape byte, which opens every multi-byte key sequence.
pub const ESC: u8 = 0x1B;

/// How long to wait, in milliseconds, for the byte after `ESC` before the
/// key is taken to be a lone Escape.
pub const ESCAPE_WAIT_MS: i32 = 50;

/// `[`, which follows `ESC` in a control sequence.
pub const BRACKET: u8 = 0x5B;

/// `~`, which ends a control sequence that holds a digit.
pub const TILDE: u8 = 0x7E;

/// The bytes of the letters that end a cursor-key sequence.
pub const LETTER_A: u8 = 0x41;

pub const LETTER_B: u8 = 0x42;

pub const LETTER_C: u8 = 0x43;

pub const LETTER_D: u8 = 0x44;

pub const LETTER_F: u8 = 0x46;

pub const LETTER_H: u8 = 0x48;

/// The bytes of the digits.
pub const DIGIT_0: u8 = 0x30;

pub const DIGIT_1: u8 = 0x31;

pub const DIGIT_3: u8 = 0x33;

pub const DIGIT_4: u8 = 0x34;

pub const DIGIT_9: u8 = 0x39;

/// The key that a single byte stands for when it opens no key sequence.
pub open spec fn single_byte_key(b: u8) -> KeyInput {
    if b == 0x01 {
        KeyInput::Home
    } else if b == 0x02 {
        KeyInput::Left
    } else if b == 0x04 {
        KeyInput::Delete
    } else if b == 0x05 {
        KeyInput::End
    } else if b == 0x06 {
        KeyInput::Right
    } else if b == 0x0B {
        KeyInput::KillToEnd
    } else if b == 0x15 {
        KeyInput::KillToStart
    } else if b == 0x17 {
        KeyInput::KillWordBack
    } else if b == 0x09 {
        KeyInput::Tab
    } else if b == 0x7F || b == 0x08 {
        KeyInput::Backspace
    } else if b == 0x0A || b == 0x0D {
        KeyInput::Enter
    } else {
        KeyInput::Char(b)
    }
}

/// Maps a single byte to its key: the control bytes to their editing keys,
/// every other byte to itself as a character.
pub fn key_of_byte(b: u8) -> (key: KeyInput)
    ensures
        key == single_byte_key(b),
{
    match b {
        0x01 => KeyInput::Home,
        0x02 => KeyInput::Left,
        0x04 => KeyInput::Delete,
        0x05 => KeyInput::End,
        0x06 => KeyInput::Right,
        0x0B => KeyInput::KillToEnd,
        0x15 => KeyInput::KillToStart,
        0x17 => KeyInput::KillWordBack,
        0x09 => KeyInput::Tab,
        0x7F | 0x08 => KeyInput::Backspace,
        0x0A | 0x0D => KeyInput::Enter,
        _ => KeyInput::Char(b),
    }
}

/// What one attempt to get a byte from the terminal gave.
#[derive(Clone, Copy, Debug, PartialEq, Eq, Structural)]
pub enum ReadEvent {
    /// A byte arrived.
    Byte(u8),
    /// No byte arrived within the time waited.
    Idle,
    /// The input has ended.
    Eof,
    /// The read was interrupted.
    Interrupted,
    /// The read failed.
    Failed,
}

/// Why no key could be read.
#[derive(Clone, Copy, Debug, PartialEq, Eq, Structural)]
pub enum ReadError {
    /// The input has ended.
    Eof,
    /// The read was interrupted; it may be tried again.
    Interrupted,
    /// The read failed.
    Failed,
}

/// How far into a key sequence the decoder is.
#[derive(Clone, Copy, Debug, PartialEq, Eq, Structural)]
pub enum DecodeState {
    /// Nothing read yet.
    Start,
    /// `ESC` read.
    Escape,
    /// `ESC [` read.
    Csi,
    /// `ESC [` and one of the digits `1`, `3`, `4` read; the digit is kept.
    CsiParam(u8),
    /// `ESC [` and another digit read: one more byte belongs to the
    /// sequence and is to be taken off the input.
    CsiSkip,
}

/// What the decoder makes of one more event.
#[derive(Clone, Copy, Debug, PartialEq, Eq, Structural)]
pub enum Decoded {
    /// The sequence goes on.
    More(DecodeState),
    /// A key is complete.
    Key(KeyInput),
    /// No key: the first read gave no byte, or the input ended or a read
    /// failed inside a sequence.
    Error(ReadError),
}

/// The key that the byte after `ESC [` stands for by itself, if any.
pub open spec fn csi_final_key(b: u8) -> Option<KeyInput> {
    if b == LETTER_A {
        Some(KeyInput::Up)
    } else if b == LETTER_B {
        Some(KeyInput::Down)
    } else if b == LETTER_C {
        Some(KeyInput::Right)
    } else if b == LETTER_D {
        Some(KeyInput::Left)
    } else if b == LETTER_H {
        Some(KeyInput::Home)
    } else if b == LETTER_F {
        Some(KeyInput::End)
    } else {
        None
    }
}

/// The key of `ESC [ digit ~`.
pub open spec fn csi_tilde_key(digit: u8) -> KeyInput {
    if digit == DIGIT_3 {
        KeyInput::Delete
    } else if digit == DIGIT_1 {
        KeyInput::Home
    } else if digit == DIGIT_4 {
        KeyInput::End
    } else {
        KeyInput::Unknown
    }
}

/// Whether a byte is an ASCII decimal digit.
pub open spec fn is_digit_byte(b: u8) -> bool {
    DIGIT_0 <= b <= DIGIT_9
}

/// What a read that gave no byte comes to after `ESC [`: the end of the
/// input and a failed read are errors and are reported as such; a read that
/// was interrupted or gave nothing in time leaves the sequence unknown.
pub open spec fn sequence_break(event: ReadEvent) -> Decoded {
    match event {
        ReadEvent::Eof => Decoded::Error(ReadError::Eof),
        ReadEvent::Failed => Decoded::Error(ReadError::Failed),
        _ => Decoded::Key(KeyInput::Unknown),
    }
}

/// What the decoder makes of `event` in `state`.
///
/// At the start a byte is a key by itself unless it is `ESC`, and a read
/// that gave no byte is an error. Directly after `ESC`, no byte means that
/// the key was a lone Escape. After `ESC [`, the end of the input and a
/// failed read are errors; any other read that gave no byte ends the
/// sequence as an unknown key.
pub open spec fn decode_step_spec(state: DecodeState, event: ReadEvent) -> Decoded {
    match state {
        DecodeState::Start => match event {
            ReadEvent::Byte(b) => if b == ESC {
                Decoded::More(DecodeState::Escape)
            } else {
                Decoded::Key(single_byte_key(b))
            },
            ReadEvent::Eof => Decoded::Error(ReadError::Eof),
            ReadEvent::Failed => Decoded::Error(ReadError::Failed),
            ReadEvent::Interrupted | ReadEvent::Idle => Decoded::Error(ReadError::Interrupted),
        },
        DecodeState::Escape => match event {
            ReadEvent::Byte(b) => if b == BRACKET {
                Decoded::More(DecodeState::Csi)
            } else {
                Decoded::Key(KeyInput::Unknown)
            },
            _ => Decoded::Key(KeyInput::Escape),
        },
        DecodeState::Csi => match event {
            ReadEvent::Byte(b) => if csi_final_key(b) is Some {
                Decoded::Key(csi_final_key(b).unwrap())
            } else if b == DIGIT_1 || b == DIGIT_3 || b == DIGIT_4 {
                Decoded::More(DecodeState::CsiParam(b))
            } else if is_digit_byte(b) {
                Decoded::More(DecodeState::CsiSkip)
            } else {
                Decoded::Key(KeyInput::Unknown)
            },
            _ => sequence_break(event),
        },
        DecodeState::CsiParam(digit) => match event {
            ReadEvent::Byte(b) => if b == TILDE {
                Decoded::Key(csi_tilde_key(digit))
            } else {
                Decoded::Key(KeyInput::Unknown)
            },
            _ => sequence_break(event),
        },
        DecodeState::CsiSkip => match event {
            ReadEvent::Byte(_) => Decoded::Key(KeyInput::Unknown),
            _ => sequence_break(event),
        },
    }
}

impl DecodeState {
    /// How many more events a sequence in this state can take at most.
    pub open spec fn rank(self) -> nat {
        match self {
            DecodeState::Start => 4,
            DecodeState::Escape => 3,
            DecodeState::Csi => 2,
            DecodeState::CsiParam(_) => 1,
            DecodeState::CsiSkip => 1,
        }
    }

    /// How long to wait for the next byte, in milliseconds: a short time
    /// directly after `ESC`, else for as long as it takes (`None`).
    pub fn wait_ms(self) -> (wait: Option<i32>)
        ensures
            wait == if self == DecodeState::Escape {
                Some(ESCAPE_WAIT_MS)
            } else {
                None::<i32>
            },
    {
        match self {
            DecodeState::Escape => Some(ESCAPE_WAIT_MS),
            _ => None,
        }
    }
}

fn break_sequence(event: ReadEvent) -> (decoded: Decoded)
    ensures
        decoded == sequence_break(event),
{
    match event {
        ReadEvent::Eof => Decoded::Error(ReadError::Eof),
        ReadEvent::Failed => Decoded::Error(ReadError::Failed),
        _ => Decoded::Key(KeyInput::Unknown),
    }
}

/// Feeds one event to the decoder.
pub fn decode_step(state: DecodeState, event: ReadEvent) -> (decoded: Decoded)
    ensures
        decoded == decode_step_spec(state, event),
        decoded matches Decoded::More(next) ==> next.rank() < state.rank(),
{
    match state {
        DecodeState::Start => match event {
            ReadEvent::Byte(b) => if b == ESC {
                Decoded::More(DecodeState::Escape)
            } else {
                Decoded::Key(key_of_byte(b))
            },
            ReadEvent::Eof => Decoded::Error(ReadError::Eof),
            ReadEvent::Failed => Decoded::Error(ReadError::Failed),
            ReadEvent::Interrupted | ReadEvent::Idle => Decoded::Error(ReadError::Interrupted),
        },
        DecodeState::Escape => match event {
            ReadEvent::Byte(b) => if b == BRACKET {
                Decoded::More(DecodeState::Csi)
            } else {
                Decoded::Key(KeyInput::Unknown)
            },
            _ => Decoded::Key(KeyInput::Escape),
        },
        DecodeState::Csi => match event {
            ReadEvent::Byte(b) => match b {
                LETTER_A => Decoded::Key(KeyInput::Up),
                LETTER_B => Decoded::Key(KeyInput::Down),
                LETTER_C => Decoded::Key(KeyInput::Right),
                LETTER_D => Decoded::Key(KeyInput::Left),
                LETTER_H => Decoded::Key(KeyInput::Home),
                LETTER_F => Decoded::Key(KeyInput::End),
                DIGIT_1 | DIGIT_3 | DIGIT_4 => Decoded::More(DecodeState::CsiParam(b)),
                _ => if DIGIT_0 <= b && b <= DIGIT_9 {
                    Decoded::More(DecodeState::CsiSkip)
                } else {
                    Decoded::Key(KeyInput::Unknown)
                },
            },
            _ => break_sequence(event),
        },
        DecodeState::CsiParam(digit) => match event {
            ReadEvent::Byte(b) => if b == TILDE {
                match digit {
                    DIGIT_3 => Decoded::Key(KeyInput::Delete),
                    DIGIT_1 => Decoded::Key(KeyInput::Home),
                    DIGIT_4 => Decoded::Key(KeyInput::End),
                    _ => Decoded::Key(KeyInput::Unknown),
                }
            } else {
                Decoded::Key(KeyInput::Unknown)
            },
            _ => break_sequence(event),
        },
        DecodeState::CsiSkip => match event {
            ReadEvent::Byte(_) => Decoded::Key(KeyInput::Unknown),
            _ => break_sequence(event),
        },
    }
}

/// The event at `pos`; past the end of the list the input has ended.
pub open spec fn event_at(events: Seq<ReadEvent>, pos: int) -> ReadEvent {
    if 0 <= pos < events.len() {
        events[pos]
    } else {
        ReadEvent::Eof
    }
}

/// The position after the event at `pos`: events past the end of the list
/// take no room.
pub open spec fn after_event(events: Seq<ReadEvent>, pos: int) -> int {
    if 0 <= pos < events.len() {
        pos + 1
    } else {
        pos
    }
}

/// The key that the decoder reads from `events`, in `state` and from `pos`
/// on, and the position of the first event it leaves.
pub open spec fn decoded_from(state: DecodeState, events: Seq<ReadEvent>, pos: int) -> (
    Result<KeyInput, ReadError>,
    int,
)
    decreases state.rank(),
{
    match decode_step_spec(state, event_at(events, pos)) {
        Decoded::Key(key) => (Ok(key), after_event(events, pos)),
        Decoded::Error(error) => (Err(error), after_event(events, pos)),
        Decoded::More(next) => decoded_from(next, events, after_event(events, pos)),
    }
}

/// A key, or the reason there is none, and the position of the first event
/// that was not used.
pub struct KeyRead {
    pub key: Result<KeyInput, ReadError>,
    pub next: usize,
}

/// Runs the decoder from `state` over the events from `pos` on.
pub fn decode_from(state: DecodeState, events: &[ReadEvent], pos: usize) -> (read: KeyRead)
    ensures
        (read.key, read.next as int) == decoded_from(state, events@, pos as int),
{
    let mut current = state;
    let mut at: usize = pos;
    loop
        invariant
            decoded_from(state, events@, pos as int) == decoded_from(current, events@, at as int),
        decreases current.rank(),
    {
        let in_range = at < events.len();
        let event = if in_range {
            events[at]
        } else {
            ReadEvent::Eof
        };
        let next: usize = if in_range {
            at + 1
        } else {
            at
        };
        match decode_step(current, event) {
            Decoded::Key(key) => {
                return KeyRead { key: Ok(key), next };
            },
            Decoded::Error(error) => {
                return KeyRead { key: Err(error), next };
            },
            Decoded::More(state_after) => {
                current = state_after;
                at = next;
            },
        }
    }
}

/// Reads one logical key from the events at `pos` and after.
pub fn read_key(events: &[ReadEvent], pos: usize) -> (read: KeyRead)
    ensures
        (read.key, read.next as int) == decoded_from(DecodeState::Start, events@, pos as int),
{
    decode_from(DecodeState::Start, events, pos)
}

/// Reads what follows an `ESC`: the rest of a key sequence, or nothing,
/// which makes the key a lone Escape. Where the input ends or a read fails
/// after `ESC [`, that error is the result.
pub fn parse_escape_seq(events: &[ReadEvent], pos: usize) -> (read: KeyRead)
    ensures
        (read.key, read.next as int) == decoded_from(DecodeState::Escape, events@, pos as int),
{
    decode_from(DecodeState::Escape, events, pos)
}

/// Whether none of the events at `from..upto` is the end of the input or a
/// failed read.
pub open spec fn no_failure(events: Seq<ReadEvent>, from: int, upto: int) -> bool {
    forall|i: int|
        from <= i < upto ==> !(#[trigger] event_at(events, i) is Eof) && !(event_at(events, i)
            is Failed)
}

/// Once a sequence has begun it ends in a key, unless the input ends or a
/// read fails on the way.
pub proof fn lemma_sequence_gives_key(state: DecodeState, events: Seq<ReadEvent>, pos: int)
    requires
        state != DecodeState::Start,
        no_failure(events, pos, pos + state.rank()),
    ensures
        decoded_from(state, events, pos).0 is Ok,
    decreases state.rank(),
{
    assert(!(event_at(events, pos) is Eof) && !(event_at(events, pos) is Failed));
    match decode_step_spec(state, event_at(events, pos)) {
        Decoded::More(next) => {
            assert forall|i: int| pos + 1 <= i < pos + 1 + next.rank() implies !(
            #[trigger] event_at(events, i) is Eof) && !(event_at(events, i) is Failed) by {}
            lemma_sequence_gives_key(next, events, after_event(events, pos));
        },
        _ => {},
    }
}

/// After `ESC [` the end of the input and a failed read are reported, each
/// as its own error.
pub proof fn lemma_failure_is_reported(state: DecodeState, events: Seq<ReadEvent>, pos: int)
    requires
        state != DecodeState::Start,
        state != DecodeState::Escape,
    ensures
        event_at(events, pos) is Eof ==> decoded_from(state, events, pos).0 == Err::<
            KeyInput,
            ReadError,
        >(ReadError::Eof),
        event_at(events, pos) is Failed ==> decoded_from(state, events, pos).0 == Err::<
            KeyInput,
            ReadError,
        >(ReadError::Failed),
{
}

/// A key takes at most four events, and the decoder never steps back.
pub proof fn lemma_key_length(state: DecodeState, events: Seq<ReadEvent>, pos: int)
    ensures
        pos <= decoded_from(state, events, pos).1 <= pos + state.rank(),
        state.rank() <= 4,
    decreases state.rank(),
{
    match decode_step_spec(state, event_at(events, pos)) {
        Decoded::More(next) => {
            lemma_key_length(next, events, after_event(events, pos));
        },
        _ => {},
    }
}

/// What the caller of a read loop reports between two decisions.
#[derive(Clone, Copy, Debug, PartialEq, Eq, Structural)]
pub enum InputEvent {
    /// A key was read.
    Key(KeyInput),
    /// The time allowed for the read is over.
    TimedOut,
    /// The read was interrupted and may be tried again.
    Interrupted,
    /// The input ended or failed.
    EndOfInput,
}

/// The event that the result of a key read comes to.
pub fn event_of(key: Result<KeyInput, ReadError>) -> (event: InputEvent)
    ensures
        event == match key {
            Ok(k) => InputEvent::Key(k),
            Err(ReadError::Interrupted) => InputEvent::Interrupted,
            Err(_) => InputEvent::EndOfInput,
        },
{
    match key {
        Ok(k) => InputEvent::Key(k),
        Err(ReadError::Interrupted) => InputEvent::Interrupted,
        Err(_) => InputEvent::EndOfInput,
    }
}

} // verus!
