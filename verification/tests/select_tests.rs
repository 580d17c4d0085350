use grabchars::edit::Repaint;
use grabchars::flags::Flags;
use grabchars::input::{InputEvent, KeyInput};
use grabchars::select::{
    compute_matches, lowered_texts, prefix_matches, run_select, run_select_lr_mode,
    run_select_mode, select_step, starts_with, status_of_selection, SelectOutcome, SelectPaint,
    SelectState, SelectStyle,
};

fn options() -> Vec<String> {
    ["Apple", "apricot", "Banana", "blueberry", "Cherry"].iter().map(|s| s.to_string()).collect()
}

fn keys(typed: &str) -> Vec<InputEvent> {
    typed.bytes().map(|b| InputEvent::Key(KeyInput::Char(b))).collect()
}

fn key(k: KeyInput) -> InputEvent {
    InputEvent::Key(k)
}

fn step(
    style: SelectStyle,
    state: &mut SelectState,
    flags: &Flags,
    event: InputEvent,
) -> (SelectOutcome, SelectPaint) {
    let opts = options();
    let s = select_step(style, &opts, flags, &None, state, event);
    (s.outcome, s.paint)
}

#[test]
fn matches_are_prefixes_without_regard_to_case() {
    let opts = options();
    assert_eq!(compute_matches(&opts, ""), vec![0, 1, 2, 3, 4]);
    assert_eq!(compute_matches(&opts, "a"), vec![0, 1]);
    assert_eq!(compute_matches(&opts, "AP"), vec![0, 1]);
    assert_eq!(compute_matches(&opts, "apr"), vec![1]);
    assert_eq!(compute_matches(&opts, "B"), vec![2, 3]);
    assert_eq!(compute_matches(&opts, "cherry"), vec![4]);
    assert_eq!(compute_matches(&opts, "cherry pie"), Vec::<usize>::new());
    assert_eq!(compute_matches(&opts, "pple"), Vec::<usize>::new());
    assert_eq!(compute_matches(&[], "a"), Vec::<usize>::new());
}

#[test]
fn selection_starts_with_every_option() {
    let opts = options();
    let state = SelectState::new(&opts, &None);
    assert_eq!(state.matches, vec![0, 1, 2, 3, 4]);
    assert_eq!(state.match_idx, 0);
    assert!(state.line.buffer.is_empty());
    assert_eq!(state.line.cursor, 0);
}

#[test]
fn selection_starts_on_the_default() {
    let opts = options();
    let state = SelectState::new(&opts, &Some(String::from("BANANA")));
    assert_eq!(state.match_idx, 2);
    let unknown = SelectState::new(&opts, &Some(String::from("kiwi")));
    assert_eq!(unknown.match_idx, 0);
}

#[test]
fn typing_narrows_the_matches() {
    let opts = options();
    let flags = Flags::new();
    let mut state = SelectState::new(&opts, &None);
    let (outcome, paint) =
        step(SelectStyle::Vertical, &mut state, &flags, key(KeyInput::Char(b'b')));
    assert_eq!(outcome, SelectOutcome::Reading);
    assert_eq!(paint, SelectPaint::Render);
    assert_eq!(state.matches, vec![2, 3]);
    assert_eq!(state.line.buffer, b"b".to_vec());
    assert_eq!(state.line.cursor, 1);
    step(SelectStyle::Vertical, &mut state, &flags, key(KeyInput::Char(b'l')));
    assert_eq!(state.matches, vec![3]);
    step(SelectStyle::Vertical, &mut state, &flags, key(KeyInput::Char(b'x')));
    assert!(state.matches.is_empty());
    assert_eq!(state.match_idx, 0);
}

#[test]
fn mark_falls_back_to_the_first_match_when_out_of_range() {
    let opts = options();
    let flags = Flags::new();
    let mut state = SelectState::new(&opts, &None);
    for _ in 0..4 {
        step(SelectStyle::Vertical, &mut state, &flags, key(KeyInput::Down));
    }
    assert_eq!(state.match_idx, 4);
    step(SelectStyle::Vertical, &mut state, &flags, key(KeyInput::Char(b'a')));
    assert_eq!(state.matches, vec![0, 1]);
    assert_eq!(state.match_idx, 0);
}

#[test]
fn mark_is_kept_while_it_points_at_a_match() {
    let opts = options();
    let flags = Flags::new();
    let mut state = SelectState::new(&opts, &None);
    step(SelectStyle::Vertical, &mut state, &flags, key(KeyInput::Down));
    step(SelectStyle::Vertical, &mut state, &flags, key(KeyInput::Char(b'a')));
    assert_eq!(state.match_idx, 1);
}

#[test]
fn up_and_down_go_around() {
    let opts = options();
    let flags = Flags::new();
    let mut state = SelectState::new(&opts, &None);
    let (_, paint) = step(SelectStyle::Vertical, &mut state, &flags, key(KeyInput::Up));
    assert_eq!(state.match_idx, 4);
    assert_eq!(paint, SelectPaint::Render);
    step(SelectStyle::Vertical, &mut state, &flags, key(KeyInput::Down));
    assert_eq!(state.match_idx, 0);
    step(SelectStyle::Vertical, &mut state, &flags, key(KeyInput::Down));
    assert_eq!(state.match_idx, 1);
    step(SelectStyle::Vertical, &mut state, &flags, key(KeyInput::Up));
    assert_eq!(state.match_idx, 0);
}

#[test]
fn arrows_do_nothing_without_matches() {
    let opts = options();
    let flags = Flags::new();
    let mut state = SelectState::new(&opts, &None);
    step(SelectStyle::Vertical, &mut state, &flags, key(KeyInput::Char(b'z')));
    for k in [KeyInput::Up, KeyInput::Down, KeyInput::Tab, KeyInput::Enter] {
        let (outcome, paint) = step(SelectStyle::Vertical, &mut state, &flags, key(k));
        assert_eq!(outcome, SelectOutcome::Reading);
        assert_eq!(paint, SelectPaint::Nothing);
        assert_eq!(state.match_idx, 0);
        assert_eq!(state.line.buffer, b"z".to_vec());
    }
}

#[test]
fn enter_chooses_the_marked_option() {
    let opts = options();
    let flags = Flags::new();
    let mut events = keys("b");
    events.push(key(KeyInput::Down));
    events.push(key(KeyInput::Enter));
    let run = run_select_mode(&opts, &flags, &None, &events);
    assert_eq!(run.outcome, SelectOutcome::Chosen(3));
    assert_eq!(run.status, 3);
}

#[test]
fn escape_and_end_of_input_give_up() {
    let opts = options();
    let flags = Flags::new();
    let run = run_select_mode(&opts, &flags, &None, &[key(KeyInput::Escape)]);
    assert_eq!(run.outcome, SelectOutcome::Cancelled);
    assert_eq!(run.status, -1);
    let eof = run_select_mode(&opts, &flags, &None, &[InputEvent::EndOfInput]);
    assert_eq!(eof.outcome, SelectOutcome::Cancelled);
    let none = run_select_lr_mode(&opts, &flags, &None, &[]);
    assert_eq!(none.outcome, SelectOutcome::Cancelled);
    assert_eq!(none.status, -1);
}

#[test]
fn timeout_chooses_the_default_or_gives_minus_two() {
    let opts = options();
    let flags = Flags::new();
    let run = run_select_mode(&opts, &flags, &None, &[InputEvent::TimedOut]);
    assert_eq!(run.outcome, SelectOutcome::TimedOut);
    assert_eq!(run.status, -2);
    let default = Some(String::from("cherry"));
    let chosen = run_select_mode(&opts, &flags, &default, &[InputEvent::TimedOut]);
    assert_eq!(chosen.outcome, SelectOutcome::Chosen(4));
    assert_eq!(chosen.status, 4);
    let narrowed = [key(KeyInput::Char(b'a')), InputEvent::TimedOut];
    let still = run_select_mode(&opts, &flags, &default, &narrowed);
    assert_eq!(still.outcome, SelectOutcome::Chosen(4));
    let unknown = Some(String::from("kiwi"));
    let lost = run_select_lr_mode(&opts, &flags, &unknown, &[InputEvent::TimedOut]);
    assert_eq!(lost.outcome, SelectOutcome::TimedOut);
}

#[test]
fn interrupted_read_changes_nothing() {
    let opts = options();
    let flags = Flags::new();
    let mut state = SelectState::new(&opts, &None);
    let (outcome, paint) =
        step(SelectStyle::Vertical, &mut state, &flags, InputEvent::Interrupted);
    assert_eq!(outcome, SelectOutcome::Reading);
    assert_eq!(paint, SelectPaint::Nothing);
    assert_eq!(state.matches.len(), 5);
}

#[test]
fn tab_fills_in_the_marked_option() {
    let opts = options();
    let flags = Flags::new();
    let mut state = SelectState::new(&opts, &None);
    step(SelectStyle::Vertical, &mut state, &flags, key(KeyInput::Char(b'a')));
    step(SelectStyle::Vertical, &mut state, &flags, key(KeyInput::Down));
    let (outcome, paint) = step(SelectStyle::Vertical, &mut state, &flags, key(KeyInput::Tab));
    assert_eq!(outcome, SelectOutcome::Reading);
    assert_eq!(paint, SelectPaint::Render);
    assert_eq!(state.line.buffer, b"apricot".to_vec());
    assert_eq!(state.line.cursor, 7);
    assert_eq!(state.matches, vec![1]);
    assert_eq!(state.match_idx, 0);
}

#[test]
fn tab_marks_the_option_among_longer_ones() {
    let opts: Vec<String> = ["go", "gopher", "GO"].iter().map(|s| s.to_string()).collect();
    let flags = Flags::new();
    let mut state = SelectState::new(&opts, &None);
    let s = select_step(SelectStyle::Horizontal, &opts, &flags, &None, &mut state, key(KeyInput::End));
    assert_eq!(s.paint, SelectPaint::Render);
    assert_eq!(state.match_idx, 2);
    select_step(SelectStyle::Horizontal, &opts, &flags, &None, &mut state, key(KeyInput::Tab));
    assert_eq!(state.line.buffer, b"GO".to_vec());
    assert_eq!(state.matches, vec![0, 1, 2]);
    assert_eq!(state.match_idx, 0);
}

#[test]
fn vertical_style_edits_the_filter() {
    let opts = options();
    let flags = Flags::new();
    let mut state = SelectState::new(&opts, &None);
    for ev in keys("bx") {
        step(SelectStyle::Vertical, &mut state, &flags, ev);
    }
    assert!(state.matches.is_empty());
    let (_, paint) = step(SelectStyle::Vertical, &mut state, &flags, key(KeyInput::Backspace));
    assert_eq!(paint, SelectPaint::Render);
    assert_eq!(state.matches, vec![2, 3]);
    let (_, paint) = step(SelectStyle::Vertical, &mut state, &flags, key(KeyInput::Left));
    assert_eq!(paint, SelectPaint::Cursor(Repaint::Left));
    assert_eq!(state.line.cursor, 0);
    let (_, paint) = step(SelectStyle::Vertical, &mut state, &flags, key(KeyInput::Left));
    assert_eq!(paint, SelectPaint::Nothing);
    let (_, paint) = step(SelectStyle::Vertical, &mut state, &flags, key(KeyInput::Backspace));
    assert_eq!(paint, SelectPaint::Nothing);
    let (_, paint) = step(SelectStyle::Vertical, &mut state, &flags, key(KeyInput::Delete));
    assert_eq!(paint, SelectPaint::Render);
    assert!(state.line.buffer.is_empty());
    assert_eq!(state.matches.len(), 5);
}

#[test]
fn vertical_style_moves_and_kills() {
    let opts = options();
    let flags = Flags::new();
    let mut state = SelectState::new(&opts, &None);
    for ev in keys("ap ri") {
        step(SelectStyle::Vertical, &mut state, &flags, ev);
    }
    let (_, paint) = step(SelectStyle::Vertical, &mut state, &flags, key(KeyInput::Home));
    assert_eq!(paint, SelectPaint::Cursor(Repaint::LeftBy(5)));
    let (_, paint) = step(SelectStyle::Vertical, &mut state, &flags, key(KeyInput::End));
    assert_eq!(paint, SelectPaint::Cursor(Repaint::RightBy(5)));
    let (_, paint) = step(SelectStyle::Vertical, &mut state, &flags, key(KeyInput::KillWordBack));
    assert_eq!(paint, SelectPaint::Render);
    assert_eq!(state.line.buffer, b"ap ".to_vec());
    step(SelectStyle::Vertical, &mut state, &flags, key(KeyInput::Left));
    let (_, paint) = step(SelectStyle::Vertical, &mut state, &flags, key(KeyInput::KillToEnd));
    assert_eq!(paint, SelectPaint::Render);
    assert_eq!(state.line.buffer, b"ap".to_vec());
    assert_eq!(state.matches, vec![0, 1]);
    let (_, paint) = step(SelectStyle::Vertical, &mut state, &flags, key(KeyInput::KillToEnd));
    assert_eq!(paint, SelectPaint::Nothing);
    let (_, paint) = step(SelectStyle::Vertical, &mut state, &flags, key(KeyInput::KillToStart));
    assert_eq!(paint, SelectPaint::Render);
    assert!(state.line.buffer.is_empty());
}

#[test]
fn horizontal_style_uses_every_arrow_for_the_mark() {
    let opts = options();
    let flags = Flags::new();
    let mut state = SelectState::new(&opts, &None);
    step(SelectStyle::Horizontal, &mut state, &flags, key(KeyInput::Right));
    assert_eq!(state.match_idx, 1);
    step(SelectStyle::Horizontal, &mut state, &flags, key(KeyInput::Down));
    assert_eq!(state.match_idx, 2);
    step(SelectStyle::Horizontal, &mut state, &flags, key(KeyInput::Left));
    assert_eq!(state.match_idx, 1);
    step(SelectStyle::Horizontal, &mut state, &flags, key(KeyInput::Up));
    assert_eq!(state.match_idx, 0);
    step(SelectStyle::Horizontal, &mut state, &flags, key(KeyInput::Left));
    assert_eq!(state.match_idx, 4);
    step(SelectStyle::Horizontal, &mut state, &flags, key(KeyInput::Home));
    assert_eq!(state.match_idx, 0);
    let (_, paint) = step(SelectStyle::Horizontal, &mut state, &flags, key(KeyInput::End));
    assert_eq!(state.match_idx, 4);
    assert_eq!(paint, SelectPaint::Render);
    assert_eq!(state.line.cursor, 0);
}

#[test]
fn horizontal_style_kill_keys_empty_the_filter() {
    let opts = options();
    let flags = Flags::new();
    for kill in [KeyInput::KillToEnd, KeyInput::KillToStart, KeyInput::KillWordBack] {
        let mut state = SelectState::new(&opts, &None);
        for ev in keys("bl") {
            step(SelectStyle::Horizontal, &mut state, &flags, ev);
        }
        assert_eq!(state.matches, vec![3]);
        let (_, paint) = step(SelectStyle::Horizontal, &mut state, &flags, key(kill));
        assert_eq!(paint, SelectPaint::Render);
        assert!(state.line.buffer.is_empty());
        assert_eq!(state.line.cursor, 0);
        assert_eq!(state.matches.len(), 5);
    }
}

#[test]
fn horizontal_run_chooses_with_arrows() {
    let opts = options();
    let flags = Flags::new();
    let events = [key(KeyInput::Right), key(KeyInput::Right), key(KeyInput::Enter)];
    let run = run_select_lr_mode(&opts, &flags, &None, &events);
    assert_eq!(run.outcome, SelectOutcome::Chosen(2));
    assert_eq!(run.status, 2);
    let same = run_select(SelectStyle::Horizontal, &opts, &flags, &None, &events);
    assert_eq!(same.outcome, SelectOutcome::Chosen(2));
    let vertical = run_select_mode(&opts, &flags, &None, &events);
    assert_eq!(vertical.outcome, SelectOutcome::Chosen(0));
}

#[test]
fn filter_input_is_case_mapped() {
    let opts = options();
    let mut flags = Flags::new();
    flags.upper = true;
    let mut state = SelectState::new(&opts, &None);
    step(SelectStyle::Vertical, &mut state, &flags, key(KeyInput::Char(b'c')));
    assert_eq!(state.line.buffer, b"C".to_vec());
    assert_eq!(state.matches, vec![4]);
}

#[test]
fn silent_selection_paints_nothing() {
    let opts = options();
    let mut flags = Flags::new();
    flags.silent = true;
    let mut state = SelectState::new(&opts, &None);
    let (_, paint) = step(SelectStyle::Vertical, &mut state, &flags, key(KeyInput::Char(b'a')));
    assert_eq!(paint, SelectPaint::Nothing);
    let (outcome, paint) = step(SelectStyle::Vertical, &mut state, &flags, key(KeyInput::Enter));
    assert_eq!(outcome, SelectOutcome::Chosen(0));
    assert_eq!(paint, SelectPaint::Nothing);
}

#[test]
fn ending_the_selection_clears_the_widget() {
    let opts = options();
    let flags = Flags::new();
    let mut state = SelectState::new(&opts, &None);
    let (_, paint) = step(SelectStyle::Vertical, &mut state, &flags, key(KeyInput::Enter));
    assert_eq!(paint, SelectPaint::Clear);
    let (_, paint) = step(SelectStyle::Vertical, &mut state, &flags, key(KeyInput::Escape));
    assert_eq!(paint, SelectPaint::Clear);
    let (_, paint) = step(SelectStyle::Vertical, &mut state, &flags, InputEvent::TimedOut);
    assert_eq!(paint, SelectPaint::Clear);
    let (_, paint) = step(SelectStyle::Vertical, &mut state, &flags, key(KeyInput::Unknown));
    assert_eq!(paint, SelectPaint::Nothing);
}

#[test]
fn filter_bytes_that_are_not_text_match_nothing() {
    let opts = options();
    let flags = Flags::new();
    let mut state = SelectState::new(&opts, &None);
    step(SelectStyle::Vertical, &mut state, &flags, key(KeyInput::Char(0xFF)));
    assert_eq!(state.line.buffer, vec![0xFF]);
    assert!(state.matches.is_empty());
}

#[test]
fn selection_status_is_the_index() {
    assert_eq!(status_of_selection(SelectOutcome::Chosen(0)), 0);
    assert_eq!(status_of_selection(SelectOutcome::Chosen(17)), 17);
    assert_eq!(status_of_selection(SelectOutcome::Cancelled), -1);
    assert_eq!(status_of_selection(SelectOutcome::TimedOut), -2);
}

#[test]
fn starts_with_compares_characters() {
    assert!(starts_with("apple", "app"));
    assert!(starts_with("apple", ""));
    assert!(starts_with("apple", "apple"));
    assert!(!starts_with("apple", "apples"));
    assert!(!starts_with("apple", "b"));
    assert!(!starts_with("apple", "aPp"));
    assert!(!starts_with("", "a"));
    assert!(starts_with("", ""));
    assert!(starts_with("été", "ét"));
    assert!(!starts_with("été", "e"));
    for (text, prefix) in [("héllo", "hé"), ("héllo", "he"), ("abc", "abcd"), ("ab", "ab")] {
        assert_eq!(starts_with(text, prefix), text.starts_with(prefix));
    }
}

#[test]
fn prefix_matches_gives_the_indices_in_order() {
    let lowered: Vec<String> =
        ["apple", "apricot", "banana", "ap", "apple"].iter().map(|s| s.to_string()).collect();
    assert_eq!(prefix_matches(&lowered, "ap"), vec![0, 1, 3, 4]);
    assert_eq!(prefix_matches(&lowered, "apple"), vec![0, 4]);
    assert_eq!(prefix_matches(&lowered, ""), vec![0, 1, 2, 3, 4]);
    assert_eq!(prefix_matches(&lowered, "AP"), Vec::<usize>::new());
    assert_eq!(prefix_matches(&lowered, "c"), Vec::<usize>::new());
    assert_eq!(prefix_matches(&[], ""), Vec::<usize>::new());
}

#[test]
fn texts_are_lowered_one_by_one() {
    let texts: Vec<String> = ["Apple", "BANANA", "", "Été", "x1"].iter().map(|s| s.to_string()).collect();
    assert_eq!(lowered_texts(&texts), vec!["apple", "banana", "", "été", "x1"]);
    assert!(lowered_texts(&[]).is_empty());
}
