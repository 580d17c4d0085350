use grabchars::edit::{EditBuffer, Repaint};
use grabchars::filter::{filter_class, Filters};
use grabchars::flags::Flags;
use grabchars::input::{InputEvent, KeyInput};
use grabchars::outcome::ReadOutcome;
use grabchars::read_loop::{line_step, plain_step, run_line_mode, run_plain_mode};

fn line(text: &[u8], cursor: usize) -> EditBuffer {
    EditBuffer { buffer: text.to_vec(), cursor }
}

fn keys(typed: &[u8]) -> Vec<InputEvent> {
    typed.iter().map(|&b| InputEvent::Key(KeyInput::Char(b))).collect()
}

#[test]
fn insert_puts_the_byte_at_the_cursor() {
    let mut l = line(b"abcd", 2);
    let repaint = l.insert(b'X');
    assert_eq!(l.buffer, b"abXcd".to_vec());
    assert_eq!(l.cursor, 3);
    assert_eq!(repaint, Repaint::Line { prev_cursor: 2 });
    assert_eq!(l.paint(repaint), b"\x1b[2D\x1b[KabXcd\x1b[2D".to_vec());
}

#[test]
fn insert_into_empty_line() {
    let mut l = EditBuffer::new();
    let repaint = l.insert(b'q');
    assert_eq!(l.buffer, b"q".to_vec());
    assert_eq!(l.cursor, 1);
    assert_eq!(l.paint(repaint), b"\x1b[Kq".to_vec());
}

#[test]
fn backspace_removes_the_byte_before_the_cursor() {
    let mut l = line(b"abcd", 2);
    let repaint = l.backspace();
    assert_eq!(l.buffer, b"acd".to_vec());
    assert_eq!(l.cursor, 1);
    assert_eq!(repaint, Repaint::Line { prev_cursor: 2 });
    assert_eq!(l.paint(repaint), b"\x1b[2D\x1b[Kacd\x1b[2D".to_vec());
}

#[test]
fn backspace_at_start_does_nothing() {
    let mut l = line(b"abcd", 0);
    assert_eq!(l.backspace(), Repaint::Nothing);
    assert_eq!(l.buffer, b"abcd".to_vec());
    assert_eq!(l.cursor, 0);
}

#[test]
fn delete_removes_the_byte_at_the_cursor() {
    let mut l = line(b"abcd", 1);
    let repaint = l.delete();
    assert_eq!(l.buffer, b"acd".to_vec());
    assert_eq!(l.cursor, 1);
    assert_eq!(repaint, Repaint::Line { prev_cursor: 1 });
    let mut at_end = line(b"abcd", 4);
    assert_eq!(at_end.delete(), Repaint::Nothing);
    assert_eq!(at_end.buffer, b"abcd".to_vec());
}

#[test]
fn left_and_right_stop_at_the_ends() {
    let mut l = line(b"ab", 1);
    assert_eq!(l.left(), Repaint::Left);
    assert_eq!(l.cursor, 0);
    assert_eq!(l.left(), Repaint::Nothing);
    assert_eq!(l.cursor, 0);
    assert_eq!(l.right(), Repaint::Right);
    assert_eq!(l.right(), Repaint::Right);
    assert_eq!(l.cursor, 2);
    assert_eq!(l.right(), Repaint::Nothing);
    assert_eq!(l.cursor, 2);
    assert_eq!(l.buffer, b"ab".to_vec());
    assert_eq!(l.paint(Repaint::Left), b"\x1b[D".to_vec());
    assert_eq!(l.paint(Repaint::Right), b"\x1b[C".to_vec());
}

#[test]
fn home_and_end_report_the_distance() {
    let mut l = line(b"hello", 3);
    assert_eq!(l.home(), Repaint::LeftBy(3));
    assert_eq!(l.cursor, 0);
    assert_eq!(l.home(), Repaint::Nothing);
    assert_eq!(l.end(), Repaint::RightBy(5));
    assert_eq!(l.cursor, 5);
    assert_eq!(l.end(), Repaint::Nothing);
    assert_eq!(l.paint(Repaint::LeftBy(3)), b"\x1b[3D".to_vec());
    assert_eq!(l.paint(Repaint::RightBy(5)), b"\x1b[5C".to_vec());
}

#[test]
fn kill_to_end_cuts_at_the_cursor() {
    let mut l = line(b"hello", 2);
    let repaint = l.kill_to_end();
    assert_eq!(l.buffer, b"he".to_vec());
    assert_eq!(l.cursor, 2);
    assert_eq!(repaint, Repaint::ClearToEol);
    assert_eq!(l.paint(repaint), b"\x1b[K".to_vec());
    assert_eq!(l.kill_to_end(), Repaint::Nothing);
}

#[test]
fn kill_to_start_keeps_what_follows_the_cursor() {
    let mut l = line(b"hello", 2);
    let repaint = l.kill_to_start();
    assert_eq!(l.buffer, b"llo".to_vec());
    assert_eq!(l.cursor, 0);
    assert_eq!(repaint, Repaint::Line { prev_cursor: 2 });
    assert_eq!(l.paint(repaint), b"\x1b[2D\x1b[Kllo\x1b[3D".to_vec());
    assert_eq!(l.kill_to_start(), Repaint::Nothing);
    assert_eq!(l.buffer, b"llo".to_vec());
}

#[test]
fn kill_word_back_takes_spaces_then_the_word() {
    let mut l = line(b"one two  three", 9);
    let repaint = l.kill_word_back();
    assert_eq!(l.buffer, b"one three".to_vec());
    assert_eq!(l.cursor, 4);
    assert_eq!(repaint, Repaint::Line { prev_cursor: 9 });
}

#[test]
fn kill_word_back_inside_a_word() {
    let mut l = line(b"one two", 6);
    l.kill_word_back();
    assert_eq!(l.buffer, b"one o".to_vec());
    assert_eq!(l.cursor, 4);
}

#[test]
fn kill_word_back_over_only_spaces_or_at_start() {
    let mut spaces = line(b"   x", 3);
    spaces.kill_word_back();
    assert_eq!(spaces.buffer, b"x".to_vec());
    assert_eq!(spaces.cursor, 0);
    let mut start = line(b"abc", 0);
    assert_eq!(start.kill_word_back(), Repaint::Nothing);
    assert_eq!(start.buffer, b"abc".to_vec());
    let mut word = line(b"abc", 3);
    word.kill_word_back();
    assert!(word.buffer.is_empty());
    assert_eq!(word.cursor, 0);
}

#[test]
fn only_the_space_parts_words() {
    let mut l = line(b"a\tb c", 3);
    l.kill_word_back();
    assert_eq!(l.buffer, b" c".to_vec());
    assert_eq!(l.cursor, 0);
}

#[test]
fn apply_key_does_what_the_key_says() {
    let mut l = line(b"abc", 1);
    assert_eq!(l.apply_key(KeyInput::End), Repaint::RightBy(2));
    assert_eq!(l.apply_key(KeyInput::Backspace), Repaint::Line { prev_cursor: 3 });
    assert_eq!(l.buffer, b"ab".to_vec());
    assert_eq!(l.apply_key(KeyInput::Up), Repaint::Nothing);
    assert_eq!(l.apply_key(KeyInput::Tab), Repaint::Nothing);
    assert_eq!(l.apply_key(KeyInput::Char(b'z')), Repaint::Nothing);
    assert_eq!(l.buffer, b"ab".to_vec());
    assert_eq!(l.cursor, 2);
}

#[test]
fn cursor_stays_within_the_line_whatever_is_typed() {
    let script: [KeyInput; 24] = [
        KeyInput::Left,
        KeyInput::Backspace,
        KeyInput::Char(b'a'),
        KeyInput::Char(b' '),
        KeyInput::Char(b'b'),
        KeyInput::Home,
        KeyInput::Delete,
        KeyInput::Right,
        KeyInput::Right,
        KeyInput::Right,
        KeyInput::Right,
        KeyInput::KillWordBack,
        KeyInput::Char(b'x'),
        KeyInput::Char(b'y'),
        KeyInput::Left,
        KeyInput::KillToEnd,
        KeyInput::End,
        KeyInput::KillToStart,
        KeyInput::Delete,
        KeyInput::Backspace,
        KeyInput::Char(b'q'),
        KeyInput::Home,
        KeyInput::KillToEnd,
        KeyInput::KillWordBack,
    ];
    let flags = Flags::new();
    let mut l = EditBuffer::new();
    for key in script {
        line_step(&flags, false, &Filters::none(), 100, &mut l, InputEvent::Key(key));
        assert!(l.cursor <= l.buffer.len());
    }
    assert!(l.buffer.is_empty());
}

#[test]
fn vowel_filter_rejects_consonants() {
    let mut flags = Flags::new();
    flags.check = true;
    let filters = Filters { valid: filter_class("[aeiou]"), exclude: None };
    assert!(filters.valid.is_some());
    let mut l = EditBuffer::new();
    let step =
        line_step(&flags, false, &filters, 3, &mut l, InputEvent::Key(KeyInput::Char(b'x')));
    assert_eq!(step.outcome, ReadOutcome::Reading);
    assert_eq!(step.repaint, Repaint::Nothing);
    assert!(l.buffer.is_empty());
    assert_eq!(l.cursor, 0);
    let step =
        line_step(&flags, false, &filters, 3, &mut l, InputEvent::Key(KeyInput::Char(b'e')));
    assert_eq!(step.repaint, Repaint::Line { prev_cursor: 0 });
    assert_eq!(l.buffer, b"e".to_vec());
}

#[test]
fn vowel_filter_counts_only_vowels() {
    let mut flags = Flags::new();
    flags.check = true;
    let filters = Filters { valid: filter_class("[aeiou]"), exclude: None };
    let run = run_line_mode(&flags, &None, &filters, 3, &keys(b"xyzabcduzi"));
    assert_eq!(run.outcome, ReadOutcome::Finished);
    assert_eq!(run.line.buffer, b"aui".to_vec());
    assert_eq!(run.status, 3);
    let plain = run_plain_mode(&flags, &None, &filters, 1, &keys(b"xyze"));
    assert_eq!(plain.typed, b"e".to_vec());
    assert_eq!(plain.status, 1);
}

#[test]
fn exclude_filter_turns_its_characters_away() {
    let mut flags = Flags::new();
    flags.exclude = true;
    let filters = Filters { valid: None, exclude: filter_class("0-9") };
    let run = run_line_mode(&flags, &None, &filters, 3, &keys(b"a1b2c3"));
    assert_eq!(run.line.buffer, b"abc".to_vec());
}

#[test]
fn filters_without_their_flag_are_not_in_force() {
    let flags = Flags::new();
    let filters = Filters { valid: filter_class("a"), exclude: filter_class("b") };
    let run = run_line_mode(&flags, &None, &filters, 2, &keys(b"bz"));
    assert_eq!(run.line.buffer, b"bz".to_vec());
}

#[test]
fn filter_sees_the_character_before_case_mapping() {
    let mut flags = Flags::new();
    flags.check = true;
    flags.upper = true;
    let filters = Filters { valid: filter_class("a-z"), exclude: None };
    let run = run_line_mode(&flags, &None, &filters, 2, &keys(b"aBc"));
    assert_eq!(run.line.buffer, b"AC".to_vec());
}

#[test]
fn line_mode_ends_when_full() {
    let flags = Flags::new();
    let run = run_line_mode(&flags, &None, &Filters::none(), 3, &keys(b"abcdef"));
    assert_eq!(run.outcome, ReadOutcome::Finished);
    assert_eq!(run.line.buffer, b"abc".to_vec());
    assert_eq!(run.status, 3);
}

#[test]
fn line_mode_edits_before_it_is_full() {
    let flags = Flags::new();
    let events = [
        InputEvent::Key(KeyInput::Char(b'a')),
        InputEvent::Key(KeyInput::Char(b'c')),
        InputEvent::Key(KeyInput::Left),
        InputEvent::Key(KeyInput::Char(b'b')),
        InputEvent::Key(KeyInput::End),
        InputEvent::Key(KeyInput::Backspace),
        InputEvent::Key(KeyInput::Char(b'C')),
        InputEvent::Key(KeyInput::Char(b'd')),
    ];
    let run = run_line_mode(&flags, &None, &Filters::none(), 4, &events);
    assert_eq!(run.line.buffer, b"abCd".to_vec());
    assert_eq!(run.outcome, ReadOutcome::Finished);
}

#[test]
fn return_key_ends_the_line_where_it_is_the_terminator() {
    let mut flags = Flags::new();
    flags.ret_key = true;
    let events =
        [InputEvent::Key(KeyInput::Char(b'a')), InputEvent::Key(KeyInput::Enter), InputEvent::TimedOut];
    let run = run_line_mode(&flags, &None, &Filters::none(), 10, &events);
    assert_eq!(run.outcome, ReadOutcome::Finished);
    assert_eq!(run.line.buffer, b"a".to_vec());
    assert_eq!(run.status, 1);
}

#[test]
fn return_key_types_a_line_feed_otherwise() {
    let flags = Flags::new();
    let events = [
        InputEvent::Key(KeyInput::Char(b'a')),
        InputEvent::Key(KeyInput::Enter),
        InputEvent::Key(KeyInput::Char(b'b')),
    ];
    let run = run_line_mode(&flags, &None, &Filters::none(), 3, &events);
    assert_eq!(run.line.buffer, b"a\nb".to_vec());
}

#[test]
fn line_feed_is_subject_to_the_filters() {
    let mut flags = Flags::new();
    flags.check = true;
    let filters = Filters { valid: filter_class("a-z"), exclude: None };
    let events = [
        InputEvent::Key(KeyInput::Char(b'a')),
        InputEvent::Key(KeyInput::Enter),
        InputEvent::Key(KeyInput::Char(b'b')),
    ];
    let run = run_line_mode(&flags, &None, &filters, 2, &events);
    assert_eq!(run.line.buffer, b"ab".to_vec());
}

#[test]
fn default_is_taken_only_before_anything_is_typed() {
    let mut flags = Flags::new();
    flags.dflt = true;
    let default = Some(String::from("yes"));
    let first = run_line_mode(&flags, &default, &Filters::none(), 3, &[InputEvent::Key(KeyInput::Enter)]);
    assert_eq!(first.outcome, ReadOutcome::DefaultTaken);
    assert_eq!(first.status, 3);
    let timed = run_line_mode(&flags, &default, &Filters::none(), 3, &[InputEvent::TimedOut]);
    assert_eq!(timed.outcome, ReadOutcome::DefaultTaken);
    let late = [InputEvent::Key(KeyInput::Char(b'a')), InputEvent::TimedOut];
    let run = run_line_mode(&flags, &default, &Filters::none(), 3, &late);
    assert_eq!(run.outcome, ReadOutcome::TimedOut);
    assert_eq!(run.status, -2);
    let unset = run_line_mode(&Flags::new(), &default, &Filters::none(), 3, &[InputEvent::TimedOut]);
    assert_eq!(unset.outcome, ReadOutcome::TimedOut);
}

#[test]
fn silent_line_mode_paints_nothing() {
    let mut flags = Flags::new();
    flags.silent = true;
    let mut l = EditBuffer::new();
    let step = line_step(
        &flags,
        false,
        &Filters::none(),
        5,
        &mut l,
        InputEvent::Key(KeyInput::Char(b'a')),
    );
    assert_eq!(step.repaint, Repaint::Nothing);
    assert_eq!(l.buffer, b"a".to_vec());
    let step = line_step(&flags, false, &Filters::none(), 5, &mut l, InputEvent::Key(KeyInput::Left));
    assert_eq!(step.repaint, Repaint::Nothing);
    assert_eq!(l.cursor, 0);
}

#[test]
fn full_line_takes_no_more_events() {
    let flags = Flags::new();
    let mut l = line(b"ab", 2);
    let step = line_step(
        &flags,
        false,
        &Filters::none(),
        2,
        &mut l,
        InputEvent::Key(KeyInput::Backspace),
    );
    assert_eq!(step.outcome, ReadOutcome::Finished);
    assert_eq!(l.buffer, b"ab".to_vec());
}

#[test]
fn plain_mode_appends_and_shows_each_character() {
    let flags = Flags::new();
    let mut typed = Vec::new();
    let step = plain_step(
        &flags,
        false,
        &Filters::none(),
        2,
        &mut typed,
        InputEvent::Key(KeyInput::Char(b'a')),
    );
    assert_eq!(step.show, Some('a'));
    assert_eq!(step.outcome, ReadOutcome::Reading);
    let step = plain_step(
        &flags,
        false,
        &Filters::none(),
        2,
        &mut typed,
        InputEvent::Key(KeyInput::Char(b'b')),
    );
    assert_eq!(step.outcome, ReadOutcome::Finished);
    assert_eq!(typed, b"ab".to_vec());
}

#[test]
fn plain_mode_stores_backspace_as_a_byte() {
    let flags = Flags::new();
    let events = [
        InputEvent::Key(KeyInput::Char(b'a')),
        InputEvent::Key(KeyInput::Backspace),
        InputEvent::Key(KeyInput::Left),
        InputEvent::Key(KeyInput::Char(b'b')),
    ];
    let run = run_plain_mode(&flags, &None, &Filters::none(), 3, &events);
    assert_eq!(run.typed, vec![b'a', 0x7F, b'b']);
    assert_eq!(run.status, 3);
}

#[test]
fn plain_mode_return_key_and_default() {
    let mut flags = Flags::new();
    flags.ret_key = true;
    let events = [InputEvent::Key(KeyInput::Char(b'a')), InputEvent::Key(KeyInput::Enter)];
    let run = run_plain_mode(&flags, &None, &Filters::none(), 5, &events);
    assert_eq!(run.outcome, ReadOutcome::Finished);
    assert_eq!(run.status, 1);
    flags.dflt = true;
    let default = Some(String::from("no"));
    let enter = run_plain_mode(&flags, &default, &Filters::none(), 5, &[InputEvent::Key(KeyInput::Enter)]);
    assert_eq!(enter.outcome, ReadOutcome::DefaultTaken);
    assert_eq!(enter.status, 2);
    let feed = run_plain_mode(&flags, &default, &Filters::none(), 5, &keys(b"\n"));
    assert_eq!(feed.outcome, ReadOutcome::DefaultTaken);
}

#[test]
fn plain_mode_without_return_key_ignores_enter() {
    let flags = Flags::new();
    let events = [
        InputEvent::Key(KeyInput::Enter),
        InputEvent::Key(KeyInput::Char(b'a')),
    ];
    let run = run_plain_mode(&flags, &None, &Filters::none(), 1, &events);
    assert_eq!(run.typed, b"a".to_vec());
    assert_eq!(run.outcome, ReadOutcome::Finished);
}

#[test]
fn plain_mode_maps_case() {
    let mut flags = Flags::new();
    flags.lower = true;
    let run = run_plain_mode(&flags, &None, &Filters::none(), 3, &keys(b"AbC"));
    assert_eq!(run.typed, b"abc".to_vec());
}

#[test]
fn end_of_input_ends_a_read() {
    let flags = Flags::new();
    let events = [InputEvent::Key(KeyInput::Char(b'a')), InputEvent::EndOfInput];
    let run = run_line_mode(&flags, &None, &Filters::none(), 5, &events);
    assert_eq!(run.outcome, ReadOutcome::Finished);
    assert_eq!(run.status, 1);
    let interrupted = [InputEvent::Interrupted, InputEvent::Key(KeyInput::Char(b'a'))];
    let again = run_plain_mode(&flags, &None, &Filters::none(), 1, &interrupted);
    assert_eq!(again.typed, b"a".to_vec());
}
