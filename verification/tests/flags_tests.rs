use grabchars::filter::{byte_of, filter_class, filter_pattern, map_case, Filters};
use grabchars::flags::{ArgParser, Flags, HighlightStyle};
use grabchars::outcome::{status_of, ReadOutcome, STATUS_CANCELLED, STATUS_TIMED_OUT};
use grabchars::pattern::CharClass;

#[test]
fn new_flags_are_off_but_for_the_newline() {
    let flags = Flags::new();
    assert!(!flags.both && !flags.check && !flags.exclude && !flags.dflt);
    assert!(!flags.flush && !flags.ret_key && !flags.silent);
    assert!(!flags.lower && !flags.upper);
    assert!(flags.trailing_newline);
    assert_eq!(flags.erase, None);
    assert_eq!(flags.highlight_style, HighlightStyle::Reverse);
}

#[test]
fn default_flags_have_no_trailing_newline() {
    let flags = Flags::default();
    assert!(!flags.trailing_newline);
    assert!(!flags.silent);
    assert_eq!(flags.erase, None);
    assert_eq!(HighlightStyle::default(), HighlightStyle::Reverse);
}

#[test]
fn line_editing_defaults_to_more_than_one_character() {
    let mut flags = Flags::new();
    assert!(!flags.erase_active(1));
    assert!(flags.erase_active(2));
    flags.erase = Some(true);
    assert!(flags.erase_active(1));
    flags.erase = Some(false);
    assert!(!flags.erase_active(9));
}

#[test]
fn optarg_is_the_rest_of_the_word() {
    let mut parser = ArgParser::new(vec!["prog".into(), "-n3".into(), "x".into()]);
    assert_eq!(parser.pos, 1);
    assert_eq!(parser.get_optarg("3"), Some(String::from("3")));
    assert_eq!(parser.pos, 1);
}

#[test]
fn optarg_is_the_next_word_when_nothing_is_left() {
    let mut parser = ArgParser::new(vec!["prog".into(), "-n".into(), "3".into()]);
    assert_eq!(parser.get_optarg(""), Some(String::from("3")));
    assert_eq!(parser.pos, 2);
    assert_eq!(parser.get_optarg(""), None);
    assert_eq!(parser.pos, 3);
    assert_eq!(parser.args.len(), 3);
}

#[test]
fn filter_value_is_bracketed_and_anchored() {
    assert_eq!(filter_pattern("aeiou"), "^[aeiou]$");
    assert_eq!(filter_pattern("[aeiou]"), "^[aeiou]$");
    assert_eq!(filter_pattern("[a"), "^[[a]$");
    assert_eq!(filter_pattern("a]"), "^[a]]$");
    assert_eq!(filter_pattern("["), "^[[]$");
    assert_eq!(filter_pattern(""), "^[]$");
    assert_eq!(filter_pattern("é"), "^[é]$");
}

#[test]
fn filter_class_compiles_or_not() {
    let vowels = filter_class("aeiou").expect("compiles");
    assert_eq!(vowels.as_str(), "^[aeiou]$");
    assert!(vowels.is_match('a'));
    assert!(!vowels.is_match('b'));
    assert!(filter_class("z-a").is_none());
    assert!(filter_class("").is_none());
}

#[test]
fn class_matches_through_the_regex_crate() {
    let digits = CharClass::compile("^[0-9]$").expect("compiles");
    assert!(digits.is_match('7'));
    assert!(!digits.is_match('x'));
    let any_a = CharClass::compile("a").expect("compiles");
    assert!(any_a.is_match('a'));
    assert!(!any_a.is_match('b'));
    assert!(CharClass::compile("(").is_none());
    assert!(CharClass::compile("[").is_none());
}

#[test]
fn filters_pass_by_flag_and_class() {
    let filters = Filters { valid: filter_class("abc"), exclude: filter_class("c") };
    let mut flags = Flags::new();
    assert!(filters.pass(&flags, 'z'));
    flags.check = true;
    assert!(!filters.pass(&flags, 'z'));
    assert!(filters.pass(&flags, 'c'));
    flags.exclude = true;
    assert!(!filters.pass(&flags, 'c'));
    assert!(filters.pass(&flags, 'a'));
    assert!(Filters::none().pass(&flags, 'z'));
}

#[test]
fn case_mapping_follows_the_flags() {
    let mut flags = Flags::new();
    assert_eq!(map_case(&flags, 'a'), 'a');
    flags.upper = true;
    assert_eq!(map_case(&flags, 'a'), 'A');
    assert_eq!(map_case(&flags, 'Z'), 'Z');
    assert_eq!(map_case(&flags, '1'), '1');
    assert_eq!(map_case(&flags, 'é'), 'É');
    flags.upper = false;
    flags.lower = true;
    assert_eq!(map_case(&flags, 'Q'), 'q');
    assert_eq!(map_case(&flags, 'q'), 'q');
    flags.upper = true;
    assert_eq!(map_case(&flags, 'q'), 'q');
    assert_eq!(map_case(&flags, 'Q'), 'q');
}

#[test]
fn buffer_keeps_the_low_byte() {
    assert_eq!(byte_of('a'), b'a');
    assert_eq!(byte_of('\u{e9}'), 0xE9);
    assert_eq!(byte_of('\u{178}'), 0x78);
    assert_eq!(byte_of('\u{1F600}'), 0x00);
}

#[test]
fn exit_status_tells_how_the_read_ended() {
    assert_eq!(STATUS_CANCELLED, -1);
    assert_eq!(STATUS_TIMED_OUT, -2);
    assert_eq!(status_of(ReadOutcome::Cancelled, 5, 7), -1);
    assert_eq!(status_of(ReadOutcome::TimedOut, 5, 7), -2);
    assert_eq!(status_of(ReadOutcome::DefaultTaken, 5, 7), 7);
    assert_eq!(status_of(ReadOutcome::Finished, 5, 7), 5);
    assert_eq!(status_of(ReadOutcome::Finished, 0, 7), 0);
}
