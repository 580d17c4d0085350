//! Reading under a mask, as decisions: what each event does to the state,
//! what is to be shown, and whether the read goes on.

use vstd::prelude::*;
use crate::automaton::{
    accepted_entries, bytes_of, chars_of, has_unbounded, kept_by_backspace, landing,
    literal_run_end, literals_in, mask_has_unbounded, mask_satisfied, places_of, satisfied,
    MaskState, MaskView,
};
use crate::filter::{case_mapped, filters_pass, map_case, Filters};
use crate::flags::Flags;
use crate::input::{InputEvent, KeyInput};
use crate::mask::{MaskElement, Quantifier};
use crate::mask_laws::{lemma_run_answer, sound_answer};
use crate::outcome::{
    default_due, default_len, exit_status, lemma_status_is_length, status_of, ReadOutcome,
};

verus! {

/// One decision: where the read stands and what to put on the terminal.
pub struct MaskStep {
    pub outcome: ReadOutcome,
    /// Characters to write at the cursor.
    pub show: Vec<char>,
    /// How many times to step one column left and clear to the end of the
    /// line.
    pub erase_back: usize,
    /// How many columns to go left before clearing to the end of the line;
    /// 0 for no such move.
    pub erase_line: usize,
}

/// The character that a typed byte stands for once case is mapped.
pub open spec fn typed_char(flags: Flags, b: u8) -> char {
    case_mapped(flags.upper, flags.lower, b as char)
}

/// The element at which a typed byte is accepted: none where a filter
/// turns the character away or no element takes it.
pub open spec fn byte_landing(
    mask: Seq<MaskElement>,
    flags: Flags,
    filters: Filters,
    mask_map: Seq<usize>,
    b: u8,
) -> Option<int> {
    if filters_pass(flags, filters, typed_char(flags, b)) {
        landing(mask, mask_map, typed_char(flags, b))
    } else {
        None
    }
}

/// Whether every element takes exactly one character.
pub open spec fn all_exactly_one(mask: Seq<MaskElement>) -> bool {
    forall|i: int| 0 <= i < mask.len() ==> (#[trigger] mask[i]).quantifier == Quantifier::One
}

/// Whether input has arrived at the end of the mask: the last entry belongs
/// to the last element and that element takes exactly one character; with
/// no entry, whether the mask holds nothing but literals.
pub open spec fn at_end(mask: Seq<MaskElement>, mask_map: Seq<usize>) -> bool {
    if mask_map.len() == 0 {
        forall|i: int| 0 <= i < mask.len() ==> (#[trigger] mask[i]).is_literal()
    } else {
        mask_map.last() == mask.len() - 1 && mask[mask_map.last() as int].quantifier
            == Quantifier::One
    }
}

/// Whether the read ends by itself: never with an unbounded element; else
/// once there are as many entries as elements that each take exactly one,
/// or once input is at the end of the mask with every minimum met.
pub open spec fn is_complete(mask: Seq<MaskElement>, mask_map: Seq<usize>) -> bool {
    &&& !has_unbounded(mask)
    &&& (mask_map.len() >= mask.len() && all_exactly_one(mask)) || (at_end(mask, mask_map)
        && satisfied(mask, mask_map))
}

/// Whether the return key ends the read. Where it is the terminating key:
/// with every minimum met, or on an empty buffer under a mask without
/// unbounded elements. Where it is not: only under a mask with an unbounded
/// element, with every minimum met and something in the buffer.
pub open spec fn enter_accepts(mask: Seq<MaskElement>, mask_map: Seq<usize>, ret_key: bool) -> bool {
    if ret_key {
        satisfied(mask, mask_map) || (mask_map.len() == 0 && !has_unbounded(mask))
    } else {
        has_unbounded(mask) && satisfied(mask, mask_map) && mask_map.len() > 0
    }
}

/// The state after an event. Only a character that lands and a backspace
/// change it, and nothing changes a state that is complete.
pub open spec fn state_after(
    mask: Seq<MaskElement>,
    flags: Flags,
    filters: Filters,
    s: MaskView,
    event: InputEvent,
) -> MaskView {
    if is_complete(mask, s.mask_map) {
        s
    } else {
        match event {
            InputEvent::Key(KeyInput::Char(b)) => match byte_landing(
                mask,
                flags,
                filters,
                s.mask_map,
                b,
            ) {
                Some(p) => {
                    let entries = accepted_entries(mask, s.mask_map, typed_char(flags, b), p);
                    MaskView {
                        buffer: s.buffer + bytes_of(entries),
                        mask_map: s.mask_map + places_of(entries),
                    }
                },
                None => s,
            },
            InputEvent::Key(KeyInput::Backspace) => {
                let kept = kept_by_backspace(mask, s.mask_map);
                MaskView {
                    buffer: s.buffer.subrange(0, kept),
                    mask_map: s.mask_map.subrange(0, kept),
                }
            },
            _ => s,
        }
    }
}

/// Where the read stands after an event.
pub open spec fn outcome_after(
    mask: Seq<MaskElement>,
    flags: Flags,
    has_default: bool,
    filters: Filters,
    s: MaskView,
    event: InputEvent,
) -> ReadOutcome {
    if is_complete(mask, s.mask_map) {
        ReadOutcome::Finished
    } else {
        match event {
            InputEvent::TimedOut => if default_due(flags.dflt, has_default, s.buffer.len()) {
                ReadOutcome::DefaultTaken
            } else {
                ReadOutcome::TimedOut
            },
            InputEvent::Interrupted => ReadOutcome::Reading,
            InputEvent::EndOfInput => ReadOutcome::Finished,
            InputEvent::Key(KeyInput::Enter) => if default_due(flags.dflt, has_default, s.buffer.len()) {
                ReadOutcome::DefaultTaken
            } else if enter_accepts(mask, s.mask_map, flags.ret_key) {
                ReadOutcome::Finished
            } else {
                ReadOutcome::Reading
            },
            InputEvent::Key(KeyInput::Escape) => ReadOutcome::Cancelled,
            InputEvent::Key(_) => if is_complete(
                mask,
                state_after(mask, flags, filters, s, event).mask_map,
            ) {
                ReadOutcome::Finished
            } else {
                ReadOutcome::Reading
            },
        }
    }
}

/// The characters to write after an event: those of the entries that a
/// typed character added.
pub open spec fn shown_after(
    mask: Seq<MaskElement>,
    flags: Flags,
    filters: Filters,
    s: MaskView,
    event: InputEvent,
) -> Seq<char> {
    if flags.silent || is_complete(mask, s.mask_map) {
        Seq::empty()
    } else {
        match event {
            InputEvent::Key(KeyInput::Char(b)) => match byte_landing(
                mask,
                flags,
                filters,
                s.mask_map,
                b,
            ) {
                Some(p) => chars_of(accepted_entries(mask, s.mask_map, typed_char(flags, b), p)),
                None => Seq::empty(),
            },
            _ => Seq::empty(),
        }
    }
}

/// How many single-column erasures follow an event: one for each entry
/// that a backspace took.
pub open spec fn erased_back_after(
    mask: Seq<MaskElement>,
    flags: Flags,
    s: MaskView,
    event: InputEvent,
) -> int {
    if flags.silent || is_complete(mask, s.mask_map) {
        0
    } else {
        match event {
            InputEvent::Key(KeyInput::Backspace) => s.mask_map.len() - kept_by_backspace(
                mask,
                s.mask_map,
            ),
            _ => 0,
        }
    }
}

/// How far left to go before clearing the line after an event: the whole
/// buffer on Escape.
pub open spec fn erased_line_after(
    mask: Seq<MaskElement>,
    flags: Flags,
    s: MaskView,
    event: InputEvent,
) -> int {
    if flags.silent || is_complete(mask, s.mask_map) {
        0
    } else {
        match event {
            InputEvent::Key(KeyInput::Escape) => s.buffer.len() as int,
            _ => 0,
        }
    }
}

/// The state before the first event: the literals that open the mask.
pub open spec fn initial_view(mask: Seq<MaskElement>) -> MaskView {
    MaskView {
        buffer: bytes_of(literals_in(mask, 0, literal_run_end(mask, 0))),
        mask_map: places_of(literals_in(mask, 0, literal_run_end(mask, 0))),
    }
}

fn mask_all_one(mask: &[MaskElement]) -> (b: bool)
    ensures
        b == all_exactly_one(mask@),
{
    let mut i: usize = 0;
    while i < mask.len()
        invariant
            i <= mask.len(),
            forall|j: int| 0 <= j < i ==> (#[trigger] mask@[j]).quantifier == Quantifier::One,
        decreases mask.len() - i,
    {
        if mask[i].quantifier != Quantifier::One {
            return false;
        }
        i += 1;
    }
    true
}

fn mask_all_literal(mask: &[MaskElement]) -> (b: bool)
    ensures
        b == (forall|i: int| 0 <= i < mask.len() ==> (#[trigger] mask@[i]).is_literal()),
{
    let mut i: usize = 0;
    while i < mask.len()
        invariant
            i <= mask.len(),
            forall|j: int| 0 <= j < i ==> (#[trigger] mask@[j]).is_literal(),
        decreases mask.len() - i,
    {
        if !mask[i].literal() {
            return false;
        }
        i += 1;
    }
    true
}

/// Whether the read ends by itself in this state.
pub fn mask_complete(mask: &[MaskElement], state: &MaskState) -> (done: bool)
    requires
        state.wf(mask@),
    ensures
        done == is_complete(mask@, state.mask_map@),
{
    if mask_has_unbounded(mask) {
        return false;
    }
    let n = state.mask_map.len();
    if n >= mask.len() && mask_all_one(mask) {
        return true;
    }
    let end = if n == 0 {
        mask_all_literal(mask)
    } else {
        let last = state.mask_map[n - 1];
        last + 1 == mask.len() && mask[last].quantifier == Quantifier::One
    };
    end && mask_satisfied(mask, state.mask_map.as_slice())
}

/// Whether the return key ends the read in this state.
pub fn mask_enter_accepts(mask: &[MaskElement], state: &MaskState, ret_key: bool) -> (yes: bool)
    ensures
        yes == enter_accepts(mask@, state.mask_map@, ret_key),
{
    let met = mask_satisfied(mask, state.mask_map.as_slice());
    let unbounded = mask_has_unbounded(mask);
    if ret_key {
        met || (state.mask_map.len() == 0 && !unbounded)
    } else {
        unbounded && met && state.mask_map.len() > 0
    }
}


/// Opens a read: puts the mask's leading literals in place and says
/// whether anything is left to type.
pub fn mask_begin(mask: &[MaskElement], flags: &Flags) -> (start: (MaskState, MaskStep))
    ensures
        start.0.wf(mask@),
        start.0@ == initial_view(mask@),
        start.1.outcome == if is_complete(mask@, initial_view(mask@).mask_map) {
            ReadOutcome::Finished
        } else {
            ReadOutcome::Reading
        },
        start.1.show@ == if flags.silent {
            Seq::<char>::empty()
        } else {
            chars_of(literals_in(mask@, 0, literal_run_end(mask@, 0)))
        },
        start.1.erase_back == 0,
        start.1.erase_line == 0,
{
    let (state, echo) = MaskState::new(mask);
    let outcome = if mask_complete(mask, &state) {
        ReadOutcome::Finished
    } else {
        ReadOutcome::Reading
    };
    let show = if flags.silent {
        Vec::new()
    } else {
        echo
    };
    (state, MaskStep { outcome, show, erase_back: 0, erase_line: 0 })
}

/// Takes one event: changes the state as the event asks, and says where
/// the read stands and what to put on the terminal.
pub fn mask_step(
    mask: &[MaskElement],
    flags: &Flags,
    has_default: bool,
    filters: &Filters,
    state: &mut MaskState,
    event: InputEvent,
) -> (step: MaskStep)
    requires
        old(state).wf(mask@),
    ensures
        final(state).wf(mask@),
        final(state)@ == state_after(mask@, *flags, *filters, old(state)@, event),
        step.outcome == outcome_after(mask@, *flags, has_default, *filters, old(state)@, event),
        step.show@ == shown_after(mask@, *flags, *filters, old(state)@, event),
        step.erase_back == erased_back_after(mask@, *flags, old(state)@, event),
        step.erase_line == erased_line_after(mask@, *flags, old(state)@, event),
{
    let mut step = MaskStep {
        outcome: ReadOutcome::Reading,
        show: Vec::new(),
        erase_back: 0,
        erase_line: 0,
    };
    if mask_complete(mask, state) {
        step.outcome = ReadOutcome::Finished;
        return step;
    }
    let default_due = flags.dflt && has_default && state.buffer.len() == 0;
    match event {
        InputEvent::TimedOut => {
            step.outcome = if default_due {
                ReadOutcome::DefaultTaken
            } else {
                ReadOutcome::TimedOut
            };
        },
        InputEvent::Interrupted => {},
        InputEvent::EndOfInput => {
            step.outcome = ReadOutcome::Finished;
        },
        InputEvent::Key(KeyInput::Enter) => {
            if default_due {
                step.outcome = ReadOutcome::DefaultTaken;
            } else if mask_enter_accepts(mask, state, flags.ret_key) {
                step.outcome = ReadOutcome::Finished;
            }
        },
        InputEvent::Key(KeyInput::Escape) => {
            step.outcome = ReadOutcome::Cancelled;
            if !flags.silent {
                step.erase_line = state.buffer.len();
            }
        },
        InputEvent::Key(KeyInput::Char(b)) => {
            let ch = map_case(flags, b as char);
            if filters.pass(flags, ch) {
                match state.accept_char(mask, ch) {
                    Some(echo) => {
                        if !flags.silent {
                            step.show = echo;
                        }
                    },
                    None => {},
                }
            }
            if mask_complete(mask, state) {
                step.outcome = ReadOutcome::Finished;
            }
        },
        InputEvent::Key(KeyInput::Backspace) => {
            let removed = state.backspace(mask);
            if !flags.silent {
                step.erase_back = removed;
            }
            if mask_complete(mask, state) {
                step.outcome = ReadOutcome::Finished;
            }
        },
        InputEvent::Key(_) => {},
    }
    step
}

/// The outcome and the state of a read that takes the events from `pos`
/// on, one after the other, until one ends it. A read that runs out of
/// events ends as one whose input ended.
pub open spec fn run_from(
    mask: Seq<MaskElement>,
    flags: Flags,
    has_default: bool,
    filters: Filters,
    s: MaskView,
    events: Seq<InputEvent>,
    pos: int,
) -> (ReadOutcome, MaskView)
    decreases events.len() - pos,
{
    if pos < 0 || pos >= events.len() {
        (ReadOutcome::Finished, s)
    } else {
        let outcome = outcome_after(mask, flags, has_default, filters, s, events[pos]);
        let next = state_after(mask, flags, filters, s, events[pos]);
        if outcome != ReadOutcome::Reading {
            (outcome, next)
        } else {
            run_from(mask, flags, has_default, filters, next, events, pos + 1)
        }
    }
}

/// How a read under a mask ended.
pub struct MaskRun {
    pub outcome: ReadOutcome,
    /// The buffer and mask map at the end.
    pub state: MaskState,
    /// The exit status.
    pub status: i32,
}

/// Reads under a mask from a list of events: opens the read, then takes
/// the events in order until one ends it.
pub fn run_mask_mode(
    mask: &[MaskElement],
    flags: &Flags,
    default_string: &Option<String>,
    filters: &Filters,
    events: &[InputEvent],
) -> (run: MaskRun)
    ensures
        run.state.wf(mask@),
        (run.outcome, run.state@) == run_from(
            mask@,
            *flags,
            default_string is Some,
            *filters,
            initial_view(mask@),
            events@,
            0,
        ),
        run.outcome != ReadOutcome::Reading,
        run.status == exit_status(
            run.outcome,
            run.state.buffer.len(),
            default_len(*default_string),
        ),
        sound_answer(mask@, run.state@),
        run.outcome == ReadOutcome::Finished && run.state.buffer.len() <= i32::MAX ==> run.status
            == run.state.buffer.len(),
{
    let elements = mask.len();
    proof {
        assert(mask@.len() == elements);
        lemma_run_answer(mask@, *flags, default_string is Some, *filters, events@);
    }
    let has_default = default_string.is_some();
    let answer_len = match default_string {
        Some(d) => d.as_str().len(),
        None => 0,
    };
    let (mut state, _) = mask_begin(mask, flags);
    let mut outcome = ReadOutcome::Finished;
    let mut pos: usize = 0;
    let ghost goal = run_from(
        mask@,
        *flags,
        has_default,
        *filters,
        initial_view(mask@),
        events@,
        0,
    );
    while pos < events.len()
        invariant
            pos <= events.len(),
            state.wf(mask@),
            outcome == ReadOutcome::Finished,
            sound_answer(mask@, goal.1),
            has_default == (default_string is Some),
            answer_len == default_len(*default_string),
            goal == run_from(
                mask@,
                *flags,
                default_string is Some,
                *filters,
                initial_view(mask@),
                events@,
                0,
            ),
            goal == run_from(mask@, *flags, has_default, *filters, state@, events@, pos as int),
        decreases events.len() - pos,
    {
        let ghost before = state@;
        let step = mask_step(mask, flags, has_default, filters, &mut state, events[pos]);
        assert(goal == if step.outcome != ReadOutcome::Reading {
            (step.outcome, state@)
        } else {
            run_from(mask@, *flags, has_default, *filters, state@, events@, pos as int + 1)
        }) by {
            assert(events@[pos as int] == events[pos as int]);
            assert(goal == run_from(
                mask@,
                *flags,
                has_default,
                *filters,
                before,
                events@,
                pos as int,
            ));
        }
        if step.outcome != ReadOutcome::Reading {
            let status = status_of(step.outcome, state.buffer.len(), answer_len);
            proof {
                if state.buffer.len() <= i32::MAX {
                    lemma_status_is_length(state.buffer.len(), answer_len);
                }
            }
            return MaskRun { outcome: step.outcome, state, status };
        }
        pos += 1;
    }
    let status = status_of(outcome, state.buffer.len(), answer_len);
    proof {
        if state.buffer.len() <= i32::MAX {
            lemma_status_is_length(state.buffer.len(), answer_len);
        }
    }
    MaskRun { outcome, state, status }
}

} // verus!
