//! The select widgets: choosing one of a list of options by typing the
//! start of it.

use vstd::prelude::*;
use vstd::string::*;
use crate::edit::{EditBuffer, EditView, Repaint};
use crate::filter::{byte_of, case_mapped, low_byte, map_case};
use crate::flags::Flags;
use crate::input::{InputEvent, KeyInput};
use crate::outcome::{STATUS_CANCELLED, STATUS_TIMED_OUT};

verus! {

/// The text that `str::to_lowercase` gives for `text`.
pub uninterp spec fn lowercase_of(text: Seq<char>) -> Seq<char>;

/// The text that `String::from_utf8_lossy` gives for `bytes`.
pub uninterp spec fn lossy_text(bytes: Seq<u8>) -> Seq<char>;

/// Bytes read as the characters of the same codes.
pub open spec fn as_chars(bytes: Seq<u8>) -> Seq<char> {
    bytes.map_values(|b: u8| b as char)
}

/// Whether every byte is an ASCII code.
pub open spec fn all_ascii(bytes: Seq<u8>) -> bool {
    forall|i: int| 0 <= i < bytes.len() ==> #[trigger] bytes[i] < 128
}

/// Calls `str::to_lowercase`. Trusted: the result is std's lowercase of the
/// text, and empty for the empty text.
#[verifier::external_body]
fn to_lowercase(text: &str) -> (lower: String)
    ensures
        lower@ == lowercase_of(text@),
        text@.len() == 0 ==> lower@.len() == 0,
{
    text.to_lowercase()
}

/// Calls `String::from_utf8_lossy`. Trusted: the result is std's reading of
/// the bytes as text; bytes that are all ASCII, which are valid as they
/// stand, come back as the characters of the same codes.
#[verifier::external_body]
pub(crate) fn lossy(bytes: &[u8]) -> (text: String)
    ensures
        text@ == lossy_text(bytes@),
        all_ascii(bytes@) ==> text@ == as_chars(bytes@),
{
    String::from_utf8_lossy(bytes).into_owned()
}

/// Whether `prefix` is the start of `text`, character by character.
pub fn starts_with(text: &str, prefix: &str) -> (yes: bool)
    ensures
        yes == prefix@.is_prefix_of(text@),
{
    let n = prefix.unicode_len();
    let m = text.unicode_len();
    if n > m {
        return false;
    }
    let mut i: usize = 0;
    while i < n
        invariant
            i <= n <= m,
            n == prefix@.len(),
            m == text@.len(),
            forall|j: int| 0 <= j < i ==> prefix@[j] == text@[j],
        decreases n - i,
    {
        if prefix.get_char(i) != text.get_char(i) {
            assert(prefix@[i as int] != text@.subrange(0, n as int)[i as int]);
            return false;
        }
        i += 1;
    }
    assert(prefix@ =~= text@.subrange(0, n as int));
    true
}

/// The indices, in order, of the first `n` texts that begin with `prefix`.
pub open spec fn prefixed_upto(texts: Seq<String>, prefix: Seq<char>, n: int) -> Seq<usize>
    decreases n,
{
    if n <= 0 {
        Seq::empty()
    } else {
        let before = prefixed_upto(texts, prefix, n - 1);
        if prefix.is_prefix_of(texts[n - 1]@) {
            before.push((n - 1) as usize)
        } else {
            before
        }
    }
}

/// What `prefixed_upto` holds, said without recursion: exactly the indices
/// below `n` of texts that begin with the prefix, in rising order.
pub proof fn lemma_prefixed(texts: Seq<String>, prefix: Seq<char>, n: int)
    requires
        0 <= n <= texts.len() <= usize::MAX,
    ensures
        forall|k: int|
            0 <= k < prefixed_upto(texts, prefix, n).len() ==> {
                let i = #[trigger] prefixed_upto(texts, prefix, n)[k];
                i < n && prefix.is_prefix_of(texts[i as int]@)
            },
        forall|j: int, k: int|
            0 <= j < k < prefixed_upto(texts, prefix, n).len() ==> prefixed_upto(
                texts,
                prefix,
                n,
            )[j] < prefixed_upto(texts, prefix, n)[k],
        forall|i: int|
            0 <= i < n && prefix.is_prefix_of(#[trigger] texts[i]@) ==> prefixed_upto(
                texts,
                prefix,
                n,
            ).contains(i as usize),
    decreases n,
{
    if n > 0 {
        lemma_prefixed(texts, prefix, n - 1);
        let before = prefixed_upto(texts, prefix, n - 1);
        let now = prefixed_upto(texts, prefix, n);
        assert forall|i: int|
            0 <= i < n && prefix.is_prefix_of(#[trigger] texts[i]@) implies now.contains(
            i as usize,
        ) by {
            if i < n - 1 {
                assert(before.contains(i as usize));
                let k = choose|k: int| 0 <= k < before.len() && before[k] == i as usize;
                assert(now[k] == i as usize);
            } else {
                assert(now[now.len() - 1] == i as usize);
            }
        }
    }
}

/// The indices of the texts that begin with `lowered_filter`: in rising
/// order, each such index and no other.
pub fn prefix_matches(lowered: &[String], lowered_filter: &str) -> (matches: Vec<usize>)
    ensures
        matches@ == prefixed_upto(lowered@, lowered_filter@, lowered@.len() as int),
        forall|k: int|
            0 <= k < matches@.len() ==> (#[trigger] matches@[k]) < lowered@.len()
                && lowered_filter@.is_prefix_of(lowered@[matches@[k] as int]@),
        forall|j: int, k: int| 0 <= j < k < matches@.len() ==> matches@[j] < matches@[k],
        forall|i: int|
            0 <= i < lowered@.len() && lowered_filter@.is_prefix_of(#[trigger] lowered@[i]@)
                ==> matches@.contains(i as usize),
{
    let mut matches: Vec<usize> = Vec::new();
    let mut i: usize = 0;
    while i < lowered.len()
        invariant
            i <= lowered.len(),
            matches@ == prefixed_upto(lowered@, lowered_filter@, i as int),
        decreases lowered.len() - i,
    {
        if starts_with(lowered[i].as_str(), lowered_filter) {
            matches.push(i);
        }
        i += 1;
    }
    proof {
        lemma_prefixed(lowered@, lowered_filter@, lowered@.len() as int);
    }
    matches
}

/// Whether an option answers to a filter: in lower case, the filter is the
/// start of the option.
pub open spec fn option_matches(option: Seq<char>, filter: Seq<char>) -> bool {
    lowercase_of(filter).is_prefix_of(lowercase_of(option))
}

/// Whether two texts are the same but for case.
pub open spec fn same_but_case(a: Seq<char>, b: Seq<char>) -> bool {
    lowercase_of(a) == lowercase_of(b)
}

/// The indices, in order, of the first `n` options that answer to `filter`.
pub open spec fn matching_upto(options: Seq<String>, filter: Seq<char>, n: int) -> Seq<usize>
    decreases n,
{
    if n <= 0 {
        Seq::empty()
    } else {
        let before = matching_upto(options, filter, n - 1);
        if option_matches(options[n - 1]@, filter) {
            before.push((n - 1) as usize)
        } else {
            before
        }
    }
}

/// The indices, in order, of the options that answer to `filter`.
pub open spec fn matching(options: Seq<String>, filter: Seq<char>) -> Seq<usize> {
    matching_upto(options, filter, options.len() as int)
}

/// What `matching_upto` holds, said without recursion: exactly the indices
/// below `n` of options that answer to the filter, in rising order.
pub proof fn lemma_matching(options: Seq<String>, filter: Seq<char>, n: int)
    requires
        0 <= n <= options.len() <= usize::MAX,
    ensures
        forall|k: int|
            0 <= k < matching_upto(options, filter, n).len() ==> {
                let i = #[trigger] matching_upto(options, filter, n)[k];
                i < n && option_matches(options[i as int]@, filter)
            },
        forall|j: int, k: int|
            0 <= j < k < matching_upto(options, filter, n).len() ==> matching_upto(
                options,
                filter,
                n,
            )[j] < matching_upto(options, filter, n)[k],
        forall|i: int|
            0 <= i < n && option_matches(#[trigger] options[i]@, filter) ==> matching_upto(
                options,
                filter,
                n,
            ).contains(i as usize),
        matching_upto(options, filter, n).len() <= n,
    decreases n,
{
    if n > 0 {
        lemma_matching(options, filter, n - 1);
        let before = matching_upto(options, filter, n - 1);
        let now = matching_upto(options, filter, n);
        assert forall|i: int|
            0 <= i < n && option_matches(#[trigger] options[i]@, filter) implies now.contains(
            i as usize,
        ) by {
            if i < n - 1 {
                assert(before.contains(i as usize));
                let k = choose|k: int| 0 <= k < before.len() && before[k] == i as usize;
                assert(now[k] == i as usize);
            } else {
                assert(now[now.len() - 1] == i as usize);
            }
        }
    }
}

/// Whether `lowered` holds the lower case of each of `texts`.
pub open spec fn is_lowered(texts: Seq<String>, lowered: Seq<String>) -> bool {
    &&& lowered.len() == texts.len()
    &&& forall|i: int| 0 <= i < texts.len() ==> (#[trigger] lowered[i])@ == lowercase_of(texts[i]@)
}

/// To match options against a filter is to look for the lowered filter at
/// the start of the lowered options.
pub proof fn lemma_matching_by_prefix(
    options: Seq<String>,
    lowered: Seq<String>,
    filter: Seq<char>,
    n: int,
)
    requires
        is_lowered(options, lowered),
        0 <= n <= options.len(),
    ensures
        matching_upto(options, filter, n) == prefixed_upto(lowered, lowercase_of(filter), n),
    decreases n,
{
    if n > 0 {
        lemma_matching_by_prefix(options, lowered, filter, n - 1);
        assert(lowered[n - 1]@ == lowercase_of(options[n - 1]@));
    }
}

/// The lower case of each of `texts`.
pub fn lowered_texts(texts: &[String]) -> (lowered: Vec<String>)
    ensures
        is_lowered(texts@, lowered@),
{
    let mut lowered: Vec<String> = Vec::new();
    let mut i: usize = 0;
    while i < texts.len()
        invariant
            i <= texts.len(),
            lowered@.len() == i,
            forall|j: int| 0 <= j < i ==> (#[trigger] lowered@[j])@ == lowercase_of(texts@[j]@),
        decreases texts.len() - i,
    {
        lowered.push(to_lowercase(texts[i].as_str()));
        i += 1;
    }
    lowered
}

/// The indices of the options whose lower case begins with the lower case
/// of `filter`.
pub fn compute_matches(options: &[String], filter: &str) -> (matches: Vec<usize>)
    ensures
        matches@ == matching(options@, filter@),
{
    let filter_lower = to_lowercase(filter);
    let lowered = lowered_texts(options);
    proof {
        lemma_matching_by_prefix(options@, lowered@, filter@, options@.len() as int);
    }
    prefix_matches(lowered.as_slice(), filter_lower.as_str())
}

/// Which of the two select widgets is shown.
#[derive(Clone, Copy, Debug, PartialEq, Eq, Structural)]
pub enum SelectStyle {
    /// One option at a time; the arrows up and down go through the
    /// matches, and the filter can be edited with the cursor keys.
    Vertical,
    /// All matches in a row; every arrow goes through the matches.
    Horizontal,
}

/// The state of a select widget: the filter typed so far, the options
/// that answer to it, and which of them is marked.
pub struct SelectState {
    pub line: EditBuffer,
    pub matches: Vec<usize>,
    pub match_idx: usize,
}

/// A select state as plain data.
pub struct SelectView {
    pub line: EditView,
    pub matches: Seq<usize>,
    pub match_idx: nat,
}

impl View for SelectState {
    type V = SelectView;

    open spec fn view(&self) -> SelectView {
        SelectView {
            line: self.line@,
            matches: self.matches@,
            match_idx: self.match_idx as nat,
        }
    }
}

/// Where a selection stands after an event.
#[derive(Clone, Copy, Debug, PartialEq, Eq, Structural)]
pub enum SelectOutcome {
    /// More input is wanted.
    Reading,
    /// The option with this index was chosen.
    Chosen(usize),
    /// The user gave up, or the input ended.
    Cancelled,
    /// Time ran out and no default applies.
    TimedOut,
}

/// What a select step asks of the display.
#[derive(Clone, Copy, Debug, PartialEq, Eq, Structural)]
pub enum SelectPaint {
    Nothing,
    /// Draw the widget anew.
    Render,
    /// Only the cursor moved within the filter.
    Cursor(Repaint),
    /// Take the widget off the display.
    Clear,
}

/// One decision of a select widget.
pub struct SelectStep {
    pub outcome: SelectOutcome,
    pub paint: SelectPaint,
}

/// The first position at or after `from` in `matches` whose option is
/// `target` but for case.
pub open spec fn first_same(
    options: Seq<String>,
    matches: Seq<usize>,
    target: Seq<char>,
    from: int,
) -> Option<int>
    decreases matches.len() - from,
{
    if from < 0 || from >= matches.len() {
        None
    } else if same_but_case(options[matches[from] as int]@, target) {
        Some(from)
    } else {
        first_same(options, matches, target, from + 1)
    }
}

/// The first option at or after `from` that is `target` but for case.
pub open spec fn first_option_same(options: Seq<String>, target: Seq<char>, from: int) -> Option<
    int,
>
    decreases options.len() - from,
{
    if from < 0 || from >= options.len() {
        None
    } else if same_but_case(options[from]@, target) {
        Some(from)
    } else {
        first_option_same(options, target, from + 1)
    }
}

/// The marked position brought back into range: 0 where it points past
/// the matches.
pub open spec fn clamped(match_idx: nat, count: nat) -> nat {
    if match_idx >= count {
        0
    } else {
        match_idx
    }
}

impl SelectView {
    /// The matches are those of the filter, and the mark is on one of
    /// them, or at 0 where there is none.
    pub open spec fn consistent(self, options: Seq<String>) -> bool {
        &&& self.line.wf()
        &&& self.matches == matching(options, lossy_text(self.line.buffer))
        &&& self.match_idx == clamped(self.match_idx, self.matches.len())
    }

    /// The state for a filter line, with the matches worked out anew and
    /// the mark kept where it still points at a match.
    pub open spec fn refreshed(options: Seq<String>, line: EditView, match_idx: nat) -> SelectView {
        let matches = matching(options, lossy_text(line.buffer));
        SelectView { line, matches, match_idx: clamped(match_idx, matches.len()) }
    }

    /// The mark one match back, around the start.
    pub open spec fn with_prev(self) -> SelectView {
        if self.matches.len() == 0 {
            self
        } else if self.match_idx == 0 {
            SelectView { match_idx: (self.matches.len() - 1) as nat, ..self }
        } else {
            SelectView { match_idx: (self.match_idx - 1) as nat, ..self }
        }
    }

    /// The mark one match on, around the end.
    pub open spec fn with_next(self) -> SelectView {
        if self.matches.len() == 0 {
            self
        } else if self.match_idx + 1 >= self.matches.len() {
            SelectView { match_idx: 0, ..self }
        } else {
            SelectView { match_idx: self.match_idx + 1, ..self }
        }
    }

    /// The mark on the first match.
    pub open spec fn with_first(self) -> SelectView {
        SelectView { match_idx: 0, ..self }
    }

    /// The mark on the last match.
    pub open spec fn with_last(self) -> SelectView {
        if self.matches.len() == 0 {
            self
        } else {
            SelectView { match_idx: (self.matches.len() - 1) as nat, ..self }
        }
    }

    /// The filter filled in with the marked option, the cursor at its
    /// end, and the mark on the first match that is that option but for
    /// case.
    pub open spec fn completed(self, options: Seq<String>) -> SelectView {
        if self.matches.len() == 0 {
            self
        } else {
            let selected = options[self.matches[self.match_idx as int] as int]@;
            let bytes = vstd::utf8::encode_utf8(selected);
            let matches = matching(options, lossy_text(bytes));
            SelectView {
                line: EditView { buffer: bytes, cursor: bytes.len() },
                matches,
                match_idx: match first_same(options, matches, selected, 0) {
                    Some(k) => k as nat,
                    None => 0,
                },
            }
        }
    }

    /// The filter emptied.
    pub open spec fn cleared(self, options: Seq<String>) -> SelectView {
        SelectView::refreshed(
            options,
            EditView { buffer: Seq::empty(), cursor: 0 },
            self.match_idx,
        )
    }

    /// The filter with a typed byte put in at the cursor, case mapped.
    pub open spec fn typed(self, options: Seq<String>, flags: Flags, b: u8) -> SelectView {
        SelectView::refreshed(
            options,
            self.line.inserted(low_byte(case_mapped(flags.upper, flags.lower, b as char))),
            self.match_idx,
        )
    }

    /// The state after a key.
    pub open spec fn after_key(
        self,
        style: SelectStyle,
        options: Seq<String>,
        flags: Flags,
        key: KeyInput,
    ) -> SelectView {
        match key {
            KeyInput::Char(b) => self.typed(options, flags, b),
            KeyInput::Tab => self.completed(options),
            KeyInput::Up => self.with_prev(),
            KeyInput::Down => self.with_next(),
            KeyInput::Enter | KeyInput::Escape | KeyInput::Unknown => self,
            KeyInput::Backspace | KeyInput::Delete => SelectView::refreshed(
                options,
                self.line.edited(key),
                self.match_idx,
            ),
            _ => match style {
                SelectStyle::Vertical => SelectView::refreshed(
                    options,
                    self.line.edited(key),
                    self.match_idx,
                ),
                SelectStyle::Horizontal => match key {
                    KeyInput::Left => self.with_prev(),
                    KeyInput::Right => self.with_next(),
                    KeyInput::Home => self.with_first(),
                    KeyInput::End => self.with_last(),
                    _ => self.cleared(options),
                },
            },
        }
    }

    /// What a key asks of the display.
    pub open spec fn paint_for(self, style: SelectStyle, key: KeyInput) -> SelectPaint {
        let any = self.matches.len() > 0;
        let applies = self.line.repaint_for(key) != Repaint::Nothing;
        let render_if = |yes: bool|
            if yes {
                SelectPaint::Render
            } else {
                SelectPaint::Nothing
            };
        match key {
            KeyInput::Char(_) => SelectPaint::Render,
            KeyInput::Tab | KeyInput::Up | KeyInput::Down => render_if(any),
            KeyInput::Enter => if any {
                SelectPaint::Clear
            } else {
                SelectPaint::Nothing
            },
            KeyInput::Escape => SelectPaint::Clear,
            KeyInput::Unknown => SelectPaint::Nothing,
            KeyInput::Backspace | KeyInput::Delete => render_if(applies),
            _ => match style {
                SelectStyle::Vertical => match key {
                    KeyInput::Left | KeyInput::Right | KeyInput::Home | KeyInput::End => if applies {
                        SelectPaint::Cursor(self.line.repaint_for(key))
                    } else {
                        SelectPaint::Nothing
                    },
                    _ => render_if(applies),
                },
                SelectStyle::Horizontal => match key {
                    KeyInput::Left | KeyInput::Right | KeyInput::Home | KeyInput::End => render_if(
                        any,
                    ),
                    _ => SelectPaint::Render,
                },
            },
        }
    }
}

/// The state after an event: only keys change it.
pub open spec fn select_after(
    style: SelectStyle,
    options: Seq<String>,
    flags: Flags,
    s: SelectView,
    event: InputEvent,
) -> SelectView {
    match event {
        InputEvent::Key(key) => s.after_key(style, options, flags, key),
        _ => s,
    }
}

/// Where a selection stands after an event. The return key chooses the
/// marked option where there is one; Escape and the end of the input give
/// up; a timeout chooses the first option that is the default but for
/// case, where there is one.
pub open spec fn select_outcome(
    options: Seq<String>,
    default_string: Option<String>,
    s: SelectView,
    event: InputEvent,
) -> SelectOutcome {
    match event {
        InputEvent::TimedOut => match default_string {
            Some(d) => match first_option_same(options, d@, 0) {
                Some(i) => SelectOutcome::Chosen(i as usize),
                None => SelectOutcome::TimedOut,
            },
            None => SelectOutcome::TimedOut,
        },
        InputEvent::Interrupted => SelectOutcome::Reading,
        InputEvent::EndOfInput => SelectOutcome::Cancelled,
        InputEvent::Key(KeyInput::Enter) => if s.matches.len() > 0 {
            SelectOutcome::Chosen(s.matches[s.match_idx as int])
        } else {
            SelectOutcome::Reading
        },
        InputEvent::Key(KeyInput::Escape) => SelectOutcome::Cancelled,
        InputEvent::Key(_) => SelectOutcome::Reading,
    }
}

/// What an event asks of the display: nothing in a silent selection; the
/// widget is taken away when the selection ends.
pub open spec fn select_paint(
    style: SelectStyle,
    flags: Flags,
    s: SelectView,
    event: InputEvent,
) -> SelectPaint {
    if flags.silent {
        SelectPaint::Nothing
    } else {
        match event {
            InputEvent::Key(key) => s.paint_for(style, key),
            InputEvent::Interrupted => SelectPaint::Nothing,
            _ => SelectPaint::Clear,
        }
    }
}

/// The exit status of a selection that is over: the index of the option
/// chosen, -1 where the user gave up, -2 after a timeout.
pub open spec fn select_status(outcome: SelectOutcome) -> i32 {
    match outcome {
        SelectOutcome::Chosen(i) => i as i32,
        SelectOutcome::TimedOut => STATUS_TIMED_OUT,
        _ => STATUS_CANCELLED,
    }
}

/// The state before the first event: an empty filter, and the mark on the
/// first option that is the default but for case, where there is one.
pub open spec fn select_start(options: Seq<String>, default_string: Option<String>) -> SelectView {
    let matches = matching(options, lossy_text(Seq::empty()));
    SelectView {
        line: EditView { buffer: Seq::empty(), cursor: 0 },
        matches,
        match_idx: match default_string {
            Some(d) => match first_same(options, matches, d@, 0) {
                Some(k) => k as nat,
                None => 0,
            },
            None => 0,
        },
    }
}


/// Every match is the index of an option.
proof fn lemma_matches_in_range(options: Seq<String>, filter: Seq<char>)
    requires
        options.len() <= usize::MAX,
    ensures
        forall|k: int|
            0 <= k < matching(options, filter).len() ==> (#[trigger] matching(options, filter)[k])
                < options.len(),
{
    lemma_matching(options, filter, options.len() as int);
}

/// Finds the first option that is `target` but for case.
fn find_option(options: &[String], target: &str) -> (found: Option<usize>)
    ensures
        found is Some <==> first_option_same(options@, target@, 0) is Some,
        found is Some ==> found.unwrap() == first_option_same(options@, target@, 0).unwrap(),
{
    let target_lower = to_lowercase(target);
    let mut i: usize = 0;
    while i < options.len()
        invariant
            i <= options.len(),
            target_lower@ == lowercase_of(target@),
            first_option_same(options@, target@, 0) == first_option_same(
                options@,
                target@,
                i as int,
            ),
        decreases options.len() - i,
    {
        let lower = to_lowercase(options[i].as_str());
        if lower == target_lower {
            return Some(i);
        }
        i += 1;
    }
    None
}

impl SelectState {
    /// The matches are those of the filter, and the mark is on one of
    /// them.
    pub open spec fn wf(&self, options: Seq<String>) -> bool {
        self@.consistent(options)
    }

    /// Works the matches out anew for the filter as it stands.
    fn refresh(&mut self, options: &[String])
        requires
            old(self).line.wf(),
        ensures
            final(self)@ == SelectView::refreshed(
                options@,
                old(self).line@,
                old(self).match_idx as nat,
            ),
            final(self).wf(options@),
    {
        let text = lossy(self.line.buffer.as_slice());
        self.matches = compute_matches(options, text.as_str());
        if self.match_idx >= self.matches.len() {
            self.match_idx = 0;
        }
    }

    /// The position of the first match whose option is `target` but for
    /// case; 0 where there is none.
    fn position_of(&self, options: &[String], target: &str) -> (k: usize)
        requires
            forall|j: int| 0 <= j < self.matches@.len() ==> (#[trigger] self.matches@[j]) < options.len(),
        ensures
            k == match first_same(options@, self.matches@, target@, 0) {
                Some(found) => found as nat,
                None => 0,
            },
            k < self.matches@.len() || k == 0,
    {
        let target_lower = to_lowercase(target);
        let mut i: usize = 0;
        while i < self.matches.len()
            invariant
                i <= self.matches.len(),
                target_lower@ == lowercase_of(target@),
                forall|j: int|
                    0 <= j < self.matches@.len() ==> (#[trigger] self.matches@[j]) < options.len(),
                first_same(options@, self.matches@, target@, 0) == first_same(
                    options@,
                    self.matches@,
                    target@,
                    i as int,
                ),
            decreases self.matches.len() - i,
        {
            let lower = to_lowercase(options[self.matches[i]].as_str());
            if lower == target_lower {
                return i;
            }
            i += 1;
        }
        0
    }

    /// Opens a selection: no filter yet, every option a match, and the
    /// mark on the default where it is among them.
    pub fn new(options: &[String], default_string: &Option<String>) -> (state: SelectState)
        ensures
            state@ == select_start(options@, *default_string),
            state.wf(options@),
    {
        let mut state = SelectState { line: EditBuffer::new(), matches: Vec::new(), match_idx: 0 };
        assert(state.line@.buffer =~= Seq::<u8>::empty());
        state.refresh(options);
        let count = options.len();
        proof {
            assert(options@.len() == count);
            lemma_matches_in_range(options@, lossy_text(Seq::empty()));
        }
        if let Some(d) = default_string {
            state.match_idx = state.position_of(options, d.as_str());
        }
        state
    }

    /// Fills the filter in with the marked option.
    fn complete(&mut self, options: &[String])
        requires
            old(self).wf(options@),
            old(self).matches@.len() > 0,
        ensures
            final(self)@ == old(self)@.completed(options@),
            final(self).wf(options@),
    {
        let count = options.len();
        proof {
            assert(options@.len() == count);
            lemma_matches_in_range(options@, lossy_text(self.line.buffer@));
        }
        let selected = options[self.matches[self.match_idx]].clone();
        let bytes = selected.as_str().as_bytes_vec();
        self.line = EditBuffer { cursor: bytes.len(), buffer: bytes };
        self.refresh(options);
        proof {
            lemma_matches_in_range(options@, lossy_text(self.line.buffer@));
        }
        self.match_idx = self.position_of(options, selected.as_str());
    }

    /// Moves the mark one match back, around the start.
    fn mark_prev(&mut self)
        requires
            old(self)@.match_idx == clamped(old(self)@.match_idx, old(self)@.matches.len()),
        ensures
            final(self)@ == old(self)@.with_prev(),
    {
        if self.matches.len() > 0 {
            if self.match_idx == 0 {
                self.match_idx = self.matches.len() - 1;
            } else {
                self.match_idx -= 1;
            }
        }
    }

    /// Moves the mark one match on, around the end.
    fn mark_next(&mut self)
        requires
            old(self)@.match_idx == clamped(old(self)@.match_idx, old(self)@.matches.len()),
        ensures
            final(self)@ == old(self)@.with_next(),
    {
        if self.matches.len() > 0 {
            if self.match_idx + 1 >= self.matches.len() {
                self.match_idx = 0;
            } else {
                self.match_idx += 1;
            }
        }
    }
}

/// Takes one event in a selection.
pub fn select_step(
    style: SelectStyle,
    options: &[String],
    flags: &Flags,
    default_string: &Option<String>,
    state: &mut SelectState,
    event: InputEvent,
) -> (step: SelectStep)
    requires
        old(state).wf(options@),
    ensures
        final(state).wf(options@),
        final(state)@ == select_after(style, options@, *flags, old(state)@, event),
        step.outcome == select_outcome(options@, *default_string, old(state)@, event),
        step.paint == select_paint(style, *flags, old(state)@, event),
{
    let mut outcome = SelectOutcome::Reading;
    let mut paint = SelectPaint::Nothing;
    let any = state.matches.len() > 0;
    let count = options.len();
    proof {
        assert(options@.len() == count);
        lemma_matches_in_range(options@, lossy_text(state.line.buffer@));
    }
    match event {
        InputEvent::TimedOut => {
            outcome = SelectOutcome::TimedOut;
            if let Some(d) = default_string {
                if let Some(i) = find_option(options, d.as_str()) {
                    outcome = SelectOutcome::Chosen(i);
                }
            }
            paint = SelectPaint::Clear;
        },
        InputEvent::Interrupted => {},
        InputEvent::EndOfInput => {
            outcome = SelectOutcome::Cancelled;
            paint = SelectPaint::Clear;
        },
        InputEvent::Key(key) => {
            match key {
                KeyInput::Char(b) => {
                    state.line.insert(byte_of(map_case(flags, b as char)));
                    state.refresh(options);
                    paint = SelectPaint::Render;
                },
                KeyInput::Tab => {
                    if any {
                        state.complete(options);
                        paint = SelectPaint::Render;
                    }
                },
                KeyInput::Up => {
                    state.mark_prev();
                    if any {
                        paint = SelectPaint::Render;
                    }
                },
                KeyInput::Down => {
                    state.mark_next();
                    if any {
                        paint = SelectPaint::Render;
                    }
                },
                KeyInput::Enter => {
                    if any {
                        outcome = SelectOutcome::Chosen(state.matches[state.match_idx]);
                        paint = SelectPaint::Clear;
                    }
                },
                KeyInput::Escape => {
                    outcome = SelectOutcome::Cancelled;
                    paint = SelectPaint::Clear;
                },
                KeyInput::Unknown => {},
                KeyInput::Backspace | KeyInput::Delete => {
                    let repaint = state.line.apply_key(key);
                    state.refresh(options);
                    if repaint != Repaint::Nothing {
                        paint = SelectPaint::Render;
                    }
                },
                _ => {
                    match style {
                        SelectStyle::Vertical => {
                            let repaint = state.line.apply_key(key);
                            state.refresh(options);
                            if repaint != Repaint::Nothing {
                                paint = match key {
                                    KeyInput::Left | KeyInput::Right | KeyInput::Home
                                    | KeyInput::End => SelectPaint::Cursor(repaint),
                                    _ => SelectPaint::Render,
                                };
                            }
                        },
                        SelectStyle::Horizontal => {
                            match key {
                                KeyInput::Left => {
                                    state.mark_prev();
                                    if any {
                                        paint = SelectPaint::Render;
                                    }
                                },
                                KeyInput::Right => {
                                    state.mark_next();
                                    if any {
                                        paint = SelectPaint::Render;
                                    }
                                },
                                KeyInput::Home => {
                                    state.match_idx = 0;
                                    if any {
                                        paint = SelectPaint::Render;
                                    }
                                },
                                KeyInput::End => {
                                    if any {
                                        state.match_idx = state.matches.len() - 1;
                                        paint = SelectPaint::Render;
                                    }
                                },
                                _ => {
                                    state.line = EditBuffer::new();
                                    assert(state.line@.buffer =~= Seq::<u8>::empty());
                                    state.refresh(options);
                                    paint = SelectPaint::Render;
                                },
                            }
                        },
                    }
                },
            }
        },
    }
    if flags.silent {
        paint = SelectPaint::Nothing;
    }
    SelectStep { outcome, paint }
}


/// Computes the exit status of a selection that is over.
pub fn status_of_selection(outcome: SelectOutcome) -> (status: i32)
    ensures
        status == select_status(outcome),
{
    match outcome {
        SelectOutcome::Chosen(i) => {
            #[verifier::truncate]
            (i as i32)
        },
        SelectOutcome::TimedOut => STATUS_TIMED_OUT,
        _ => STATUS_CANCELLED,
    }
}

/// The outcome and the state of a selection that takes the events from
/// `pos` on until one ends it. A selection that runs out of events ends as
/// one whose input ended.
pub open spec fn select_run_from(
    style: SelectStyle,
    options: Seq<String>,
    flags: Flags,
    default_string: Option<String>,
    s: SelectView,
    events: Seq<InputEvent>,
    pos: int,
) -> (SelectOutcome, SelectView)
    decreases events.len() - pos,
{
    if pos < 0 || pos >= events.len() {
        (SelectOutcome::Cancelled, s)
    } else {
        let outcome = select_outcome(options, default_string, s, events[pos]);
        let next = select_after(style, options, flags, s, events[pos]);
        if outcome != SelectOutcome::Reading {
            (outcome, next)
        } else {
            select_run_from(style, options, flags, default_string, next, events, pos + 1)
        }
    }
}

/// How a selection ended.
pub struct SelectRun {
    pub outcome: SelectOutcome,
    pub state: SelectState,
    pub status: i32,
}

/// Runs a selection of the given style over a list of events.
pub fn run_select(
    style: SelectStyle,
    options: &[String],
    flags: &Flags,
    default_string: &Option<String>,
    events: &[InputEvent],
) -> (run: SelectRun)
    ensures
        run.state.wf(options@),
        (run.outcome, run.state@) == select_run_from(
            style,
            options@,
            *flags,
            *default_string,
            select_start(options@, *default_string),
            events@,
            0,
        ),
        run.outcome != SelectOutcome::Reading,
        run.status == select_status(run.outcome),
{
    let mut state = SelectState::new(options, default_string);
    let mut pos: usize = 0;
    let ghost goal = select_run_from(
        style,
        options@,
        *flags,
        *default_string,
        select_start(options@, *default_string),
        events@,
        0,
    );
    while pos < events.len()
        invariant
            pos <= events.len(),
            state.wf(options@),
            goal == select_run_from(
                style,
                options@,
                *flags,
                *default_string,
                select_start(options@, *default_string),
                events@,
                0,
            ),
            goal == select_run_from(
                style,
                options@,
                *flags,
                *default_string,
                state@,
                events@,
                pos as int,
            ),
        decreases events.len() - pos,
    {
        let step = select_step(style, options, flags, default_string, &mut state, events[pos]);
        if step.outcome != SelectOutcome::Reading {
            let status = status_of_selection(step.outcome);
            return SelectRun { outcome: step.outcome, state, status };
        }
        pos += 1;
    }
    SelectRun { outcome: SelectOutcome::Cancelled, state, status: STATUS_CANCELLED }
}

/// Runs the select widget that shows one option at a time.
pub fn run_select_mode(
    options: &[String],
    flags: &Flags,
    default_string: &Option<String>,
    events: &[InputEvent],
) -> (run: SelectRun)
    ensures
        run.state.wf(options@),
        (run.outcome, run.state@) == select_run_from(
            SelectStyle::Vertical,
            options@,
            *flags,
            *default_string,
            select_start(options@, *default_string),
            events@,
            0,
        ),
        run.outcome != SelectOutcome::Reading,
        run.status == select_status(run.outcome),
{
    run_select(SelectStyle::Vertical, options, flags, default_string, events)
}

/// Runs the select widget that shows all matches in a row.
pub fn run_select_lr_mode(
    options: &[String],
    flags: &Flags,
    default_string: &Option<String>,
    events: &[InputEvent],
) -> (run: SelectRun)
    ensures
        run.state.wf(options@),
        (run.outcome, run.state@) == select_run_from(
            SelectStyle::Horizontal,
            options@,
            *flags,
            *default_string,
            select_start(options@, *default_string),
            events@,
            0,
        ),
        run.outcome != SelectOutcome::Reading,
        run.status == select_status(run.outcome),
{
    run_select(SelectStyle::Horizontal, options, flags, default_string, events)
}

} // verus!
