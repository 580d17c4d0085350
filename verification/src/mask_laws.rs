//! What holds of every state that a read under a mask can reach.

use vstd::prelude::*;
use crate::automaton::{
    accepted_entries, bytes_of, current_index, has_unbounded, kept_by_backspace, landing,
    lemma_backspace_reach, lemma_current_count_positive, lemma_literal_run, lemma_prefix_wf,
    lemma_scan_target, literal_run_end, literals_in, map_wf, places_of, satisfied,
    trailing_literals, MaskView,
};
use crate::automaton::{at_most_one, lemma_counts_within_quantifier, occurrences};
use crate::filter::{low_byte, Filters};
use crate::flags::Flags;
use crate::input::{InputEvent, KeyInput};
use crate::automaton::{minimum_met, scan_reaches, scan_target, takes};
use crate::mask::{class_admits, mask_wf, MaskElement, Quantifier};
use crate::mask_mode::{
    all_exactly_one, enter_accepts, initial_view, is_complete, run_from, state_after,
    typed_char,
};

verus! {

/// Buffer and mask map run in parallel, and the map is well formed.
pub open spec fn view_wf(mask: Seq<MaskElement>, s: MaskView) -> bool {
    s.buffer.len() == s.mask_map.len() && map_wf(mask, s.mask_map)
}

/// Whether `places` rise strictly and lie in `lo..hi`.
pub open spec fn rising_within(places: Seq<usize>, lo: int, hi: int) -> bool {
    &&& forall|k: int| 0 <= k < places.len() ==> lo <= #[trigger] places[k] < hi
    &&& forall|j: int, k: int|
        0 <= j < k < places.len() ==> #[trigger] places[j] < #[trigger] places[k]
}

/// The literals of a range give places that rise strictly within it, and
/// one byte and one place each.
pub proof fn lemma_literals_rise(mask: Seq<MaskElement>, lo: int, hi: int)
    requires
        0 <= lo,
        hi <= mask.len() <= usize::MAX,
    ensures
        rising_within(places_of(literals_in(mask, lo, hi)), lo, hi),
        places_of(literals_in(mask, lo, hi)).len() == bytes_of(literals_in(mask, lo, hi)).len(),
    decreases hi - lo,
{
    if hi > lo {
        lemma_literals_rise(mask, lo, hi - 1);
        let before = places_of(literals_in(mask, lo, hi - 1));
        let now = places_of(literals_in(mask, lo, hi));
        if mask[hi - 1].is_literal() {
            assert(now =~= before.push((hi - 1) as usize));
            assert forall|j: int, k: int| 0 <= j < k < now.len() implies #[trigger] now[j]
                < #[trigger] now[k] by {
                if k == before.len() {
                    assert(before[j] < hi - 1);
                }
            }
        } else {
            assert(now =~= before);
        }
    }
}

/// Places that rise strictly behind the last entry of a well-formed map
/// may be added to it.
pub proof fn lemma_extend_wf(mask: Seq<MaskElement>, mask_map: Seq<usize>, places: Seq<usize>)
    requires
        map_wf(mask, mask_map),
        rising_within(places, 0, mask.len() as int),
        mask_map.len() > 0 && places.len() > 0 ==> mask_map.last() < places[0] || (mask_map.last()
            == places[0] && mask[places[0] as int].quantifier.is_unbounded()),
    ensures
        map_wf(mask, mask_map + places),
{
    let all = mask_map + places;
    let n = mask_map.len() as int;
    assert forall|i: int, j: int| 0 <= i < j < all.len() implies #[trigger] all[i]
        <= #[trigger] all[j] by {
        if j >= n && i < n {
            assert(mask_map[i] <= mask_map.last());
            assert(places[0] <= places[j - n]);
        } else if i >= n {
            assert(places[i - n] < places[j - n]);
        }
    }
    assert forall|i: int, j: int|
        0 <= i < j < all.len() && #[trigger] all[i] == #[trigger] all[j] implies mask[all[i] as int]
            .quantifier.is_unbounded() by {
        if j >= n && i < n {
            assert(mask_map[i] <= mask_map.last());
            assert(places[0] <= places[j - n]);
        } else if i >= n {
            assert(places[i - n] < places[j - n]);
        }
    }
}

/// A character that lands leaves a well-formed state well formed.
pub proof fn lemma_accept_keeps_wf(mask: Seq<MaskElement>, s: MaskView, ch: char)
    requires
        mask.len() <= usize::MAX,
        view_wf(mask, s),
        landing(mask, s.mask_map, ch) is Some,
    ensures
        ({
            let entries = accepted_entries(
                mask,
                s.mask_map,
                ch,
                landing(mask, s.mask_map, ch).unwrap(),
            );
            view_wf(
                mask,
                MaskView {
                    buffer: s.buffer + bytes_of(entries),
                    mask_map: s.mask_map + places_of(entries),
                },
            )
        }),
{
    let idx = current_index(s.mask_map);
    let p = landing(mask, s.mask_map, ch).unwrap();
    lemma_scan_target(mask, idx + 1, ch);
    if s.mask_map.len() > 0 {
        lemma_current_count_positive(s.mask_map);
    }
    let between = literals_in(mask, idx + 1, p);
    let after = trailing_literals(mask, p);
    let entries = accepted_entries(mask, s.mask_map, ch, p);
    let places = places_of(entries);
    lemma_literals_rise(mask, idx + 1, p);
    lemma_literal_run(mask, p + 1);
    lemma_literals_rise(mask, p + 1, literal_run_end(mask, p + 1));
    let a = places_of(between);
    let c = places_of(after);
    assert(places =~= a + seq![p as usize] + c);
    assert(bytes_of(entries) =~= bytes_of(between) + bytes_of(seq![(ch, p as usize)]) + bytes_of(
        after,
    ));
    assert forall|j: int, k: int| 0 <= j < k < places.len() implies #[trigger] places[j]
        < #[trigger] places[k] by {
        if k < a.len() {
            assert(a[j] < a[k]);
        } else if k == a.len() {
            assert(a[j] < p);
        } else if j < a.len() {
            assert(a[j] < p);
            assert(c[k - a.len() - 1] > p);
        } else if j == a.len() {
            assert(c[k - a.len() - 1] > p);
        } else {
            assert(c[j - a.len() - 1] < c[k - a.len() - 1]);
        }
    }
    assert forall|k: int| 0 <= k < places.len() implies 0 <= #[trigger] places[k] < mask.len() by {
        if k < a.len() {
            assert(a[k] < p);
        } else if k > a.len() {
            assert(c[k - a.len() - 1] < literal_run_end(mask, p + 1));
        }
    }
    if a.len() > 0 {
        assert(a[0] >= idx + 1);
    }
    lemma_extend_wf(mask, s.mask_map, places);
}

/// The state before the first event is well formed.
pub proof fn lemma_initial_wf(mask: Seq<MaskElement>)
    requires
        mask.len() <= usize::MAX,
    ensures
        view_wf(mask, initial_view(mask)),
{
    lemma_literal_run(mask, 0);
    lemma_literals_rise(mask, 0, literal_run_end(mask, 0));
    let places = places_of(literals_in(mask, 0, literal_run_end(mask, 0)));
    lemma_extend_wf(mask, Seq::empty(), places);
    assert(Seq::<usize>::empty() + places =~= places);
}

/// Every event takes a well-formed state to a well-formed state: buffer
/// and mask map stay in step, and no element gets more entries than its
/// quantifier allows.
pub proof fn lemma_event_keeps_wf(
    mask: Seq<MaskElement>,
    flags: Flags,
    filters: Filters,
    s: MaskView,
    event: InputEvent,
)
    requires
        mask.len() <= usize::MAX,
        view_wf(mask, s),
    ensures
        view_wf(mask, state_after(mask, flags, filters, s, event)),
{
    let next = state_after(mask, flags, filters, s, event);
    if next != s {
        match event {
            InputEvent::Key(KeyInput::Char(b)) => {
                lemma_accept_keeps_wf(mask, s, typed_char(flags, b));
            },
            _ => {
                if s.mask_map.len() > 0 {
                    lemma_backspace_reach(mask, s.mask_map);
                }
                lemma_prefix_wf(mask, s.mask_map, kept_by_backspace(mask, s.mask_map));
            },
        }
    }
}

/// The state in which a read ends is well formed, whatever the events.
pub proof fn lemma_run_keeps_wf(
    mask: Seq<MaskElement>,
    flags: Flags,
    has_default: bool,
    filters: Filters,
    s: MaskView,
    events: Seq<InputEvent>,
    pos: int,
)
    requires
        mask.len() <= usize::MAX,
        view_wf(mask, s),
    ensures
        view_wf(mask, run_from(mask, flags, has_default, filters, s, events, pos).1),
    decreases events.len() - pos,
{
    if 0 <= pos < events.len() {
        lemma_event_keeps_wf(mask, flags, filters, s, events[pos]);
        lemma_run_keeps_wf(
            mask,
            flags,
            has_default,
            filters,
            state_after(mask, flags, filters, s, events[pos]),
            events,
            pos + 1,
        );
    }
}


/// Under a mask whose elements each take exactly one character, a
/// well-formed map rises strictly, so that the entry at position `i` is
/// for element `i` or a later one.
proof fn lemma_entries_rise(mask: Seq<MaskElement>, mask_map: Seq<usize>, i: int)
    requires
        map_wf(mask, mask_map),
        all_exactly_one(mask),
        0 <= i < mask_map.len(),
    ensures
        mask_map[i] >= i,
    decreases i,
{
    if i > 0 {
        lemma_entries_rise(mask, mask_map, i - 1);
        assert(mask_map[i - 1] <= mask_map[i]);
        if mask_map[i - 1] == mask_map[i] {
            assert(mask[mask_map[i - 1] as int].quantifier == Quantifier::One);
        }
    }
}

/// Under such a mask the entry at position `i` leaves room for the entries
/// behind it: it lies at least as far from the last entry as they are many.
proof fn lemma_entries_leave_room(mask: Seq<MaskElement>, mask_map: Seq<usize>, i: int)
    requires
        map_wf(mask, mask_map),
        all_exactly_one(mask),
        0 <= i < mask_map.len(),
    ensures
        mask_map[i] + (mask_map.len() - 1 - i) <= mask_map.last(),
    decreases mask_map.len() - i,
{
    if i < mask_map.len() - 1 {
        lemma_entries_leave_room(mask, mask_map, i + 1);
        assert(mask_map[i] <= mask_map[i + 1]);
        if mask_map[i] == mask_map[i + 1] {
            assert(mask[mask_map[i] as int].quantifier == Quantifier::One);
        }
    }
}

/// Under a mask whose elements each take exactly one character, a
/// well-formed map has no more entries than the mask has elements, and one
/// with as many holds every element, each at its own position.
pub proof fn lemma_full_map(mask: Seq<MaskElement>, mask_map: Seq<usize>)
    requires
        map_wf(mask, mask_map),
        all_exactly_one(mask),
    ensures
        mask_map.len() <= mask.len(),
        mask_map.len() == mask.len() ==> forall|i: int|
            0 <= i < mask_map.len() ==> #[trigger] mask_map[i] == i,
{
    if mask_map.len() > 0 {
        lemma_entries_rise(mask, mask_map, mask_map.len() - 1);
        assert(mask_map[mask_map.len() - 1] < mask.len());
        if mask_map.len() == mask.len() {
            assert forall|i: int| 0 <= i < mask_map.len() implies #[trigger] mask_map[i] == i by {
                lemma_entries_rise(mask, mask_map, i);
                lemma_entries_leave_room(mask, mask_map, i);
            }
        }
    }
}

/// A read ends by itself only with every minimum met, and never under a
/// mask with an unbounded element.
pub proof fn lemma_complete_means_satisfied(mask: Seq<MaskElement>, s: MaskView)
    requires
        view_wf(mask, s),
        is_complete(mask, s.mask_map),
    ensures
        satisfied(mask, s.mask_map),
        !has_unbounded(mask),
{
    if s.mask_map.len() >= mask.len() && all_exactly_one(mask) {
        lemma_full_map(mask, s.mask_map);
        assert forall|j: int|
            0 <= j < mask.len() && !(#[trigger] mask[j]).is_literal() && mask[j].quantifier.min_count()
                > 0 implies s.mask_map.contains(j as usize) by {
            assert(s.mask_map[j] == j);
        }
    }
}

/// Under a mask whose elements each take exactly one character, the read
/// ends by itself as soon as the map has an entry for every element.
pub proof fn lemma_fixed_mask_complete_when_full(mask: Seq<MaskElement>, s: MaskView)
    requires
        view_wf(mask, s),
        all_exactly_one(mask),
    ensures
        s.mask_map.len() == mask.len() ==> is_complete(mask, s.mask_map),
        s.mask_map.len() <= mask.len(),
{
    lemma_full_map(mask, s.mask_map);
    assert(!has_unbounded(mask)) by {
        if has_unbounded(mask) {
            let i = choose|i: int| 0 <= i < mask.len() && (#[trigger] mask[i]).quantifier.is_unbounded();
            assert(mask[i].quantifier == Quantifier::One);
        }
    }
}

/// Under a mask with an unbounded element the return key ends the read
/// only with every minimum met.
pub proof fn lemma_enter_needs_minimums(mask: Seq<MaskElement>, mask_map: Seq<usize>, ret_key: bool)
    requires
        has_unbounded(mask),
        enter_accepts(mask, mask_map, ret_key),
    ensures
        satisfied(mask, mask_map),
{
}


/// Nothing is left out on the way: every element before that of the last
/// entry either has an entry or is one that may stay empty.
pub open spec fn no_gaps(mask: Seq<MaskElement>, mask_map: Seq<usize>) -> bool {
    forall|j: int|
        0 <= j && mask_map.len() > 0 && j < mask_map.last() && !mask_map.contains(j as usize)
            ==> !(#[trigger] mask[j]).is_literal() && mask[j].quantifier.min_count() == 0
}

/// Every literal of a range is among the literals of that range.
pub proof fn lemma_literals_cover(mask: Seq<MaskElement>, lo: int, hi: int, j: int)
    requires
        0 <= lo <= j < hi <= mask.len() <= usize::MAX,
        mask[j].is_literal(),
    ensures
        places_of(literals_in(mask, lo, hi)).contains(j as usize),
    decreases hi - lo,
{
    let now = places_of(literals_in(mask, lo, hi));
    if j == hi - 1 {
        assert(now[now.len() - 1] == j as usize);
    } else {
        lemma_literals_cover(mask, lo, hi - 1, j);
        let before = places_of(literals_in(mask, lo, hi - 1));
        let k = choose|k: int| 0 <= k < before.len() && before[k] == j as usize;
        assert(now[k] == j as usize);
    }
}

/// A character that lands leaves no gap.
pub proof fn lemma_accept_keeps_no_gaps(mask: Seq<MaskElement>, s: MaskView, ch: char)
    requires
        mask.len() <= usize::MAX,
        mask_wf(mask),
        view_wf(mask, s),
        no_gaps(mask, s.mask_map),
        landing(mask, s.mask_map, ch) is Some,
    ensures
        no_gaps(
            mask,
            s.mask_map + places_of(
                accepted_entries(mask, s.mask_map, ch, landing(mask, s.mask_map, ch).unwrap()),
            ),
        ),
{
    let idx = current_index(s.mask_map);
    let p = landing(mask, s.mask_map, ch).unwrap();
    lemma_scan_target(mask, idx + 1, ch);
    if s.mask_map.len() > 0 {
        lemma_current_count_positive(s.mask_map);
    }
    let between = places_of(literals_in(mask, idx + 1, p));
    let end = literal_run_end(mask, p + 1);
    let after = places_of(trailing_literals(mask, p));
    let places = places_of(accepted_entries(mask, s.mask_map, ch, p));
    let all = s.mask_map + places;
    lemma_literal_run(mask, p + 1);
    lemma_literals_rise(mask, idx + 1, p);
    lemma_literals_rise(mask, p + 1, end);
    assert(places =~= between + seq![p as usize] + after);
    let at_p = (s.mask_map.len() + between.len()) as int;
    assert(all[at_p] == p as usize);
    assert(all.last() == if after.len() > 0 {
        after.last()
    } else {
        p as usize
    });
    assert forall|j: int|
        0 <= j && all.len() > 0 && j < all.last() && !all.contains(j as usize) implies !(
    #[trigger] mask[j]).is_literal() && mask[j].quantifier.min_count() == 0 by {
        if s.mask_map.len() > 0 && j <= idx {
            if j == idx {
                assert(all[s.mask_map.len() - 1] == j as usize);
            } else {
                if s.mask_map.contains(j as usize) {
                    let k = choose|k: int| 0 <= k < s.mask_map.len() && s.mask_map[k] == j as usize;
                    assert(all[k] == j as usize);
                }
            }
        } else if j < p {
            if s.mask_map.len() == 0 && j == 0 {
                assert(idx == 0);
                assert(p > 0);
                assert(minimum_met(mask, s.mask_map));
            } else {
                assert(idx < j < p);
                assert(scan_reaches(mask, idx + 1, p, ch));
                if mask[j].is_literal() {
                    lemma_literals_cover(mask, idx + 1, p, j);
                    let k = choose|k: int| 0 <= k < between.len() && between[k] == j as usize;
                    assert(all[s.mask_map.len() + k] == j as usize);
                }
            }
        } else if j > p {
            assert(after.len() > 0);
            assert(after.last() < end);
            assert(p < j < end);
            lemma_literals_cover(mask, p + 1, end, j);
            let k = choose|k: int| 0 <= k < after.len() && after[k] == j as usize;
            assert(all[at_p + 1 + k] == j as usize);
        }
    }
}

/// A backspace leaves no gap.
pub proof fn lemma_backspace_keeps_no_gaps(mask: Seq<MaskElement>, s: MaskView)
    requires
        view_wf(mask, s),
        no_gaps(mask, s.mask_map),
    ensures
        no_gaps(mask, s.mask_map.subrange(0, kept_by_backspace(mask, s.mask_map))),
{
    if s.mask_map.len() > 0 {
        lemma_backspace_reach(mask, s.mask_map);
        let kept = kept_by_backspace(mask, s.mask_map);
        let front = s.mask_map.subrange(0, kept);
        assert forall|j: int|
            0 <= j && front.len() > 0 && j < front.last() && !front.contains(j as usize) implies !(
        #[trigger] mask[j]).is_literal() && mask[j].quantifier.min_count() == 0 by {
            assert(front.last() == s.mask_map[kept - 1]);
            assert(s.mask_map[kept - 1] <= s.mask_map.last());
            if s.mask_map.contains(j as usize) {
                let k = choose|k: int| 0 <= k < s.mask_map.len() && s.mask_map[k] == j as usize;
                if k < kept {
                    assert(front[k] == j as usize);
                } else {
                    assert(s.mask_map[kept - 1] <= s.mask_map[k]);
                }
            }
        }
    } else {
        assert(s.mask_map.subrange(0, 0).len() == 0);
    }
}

/// The state before the first event has no gap.
pub proof fn lemma_initial_no_gaps(mask: Seq<MaskElement>)
    requires
        mask.len() <= usize::MAX,
    ensures
        no_gaps(mask, initial_view(mask).mask_map),
{
    let end = literal_run_end(mask, 0);
    lemma_literal_run(mask, 0);
    lemma_literals_rise(mask, 0, end);
    let places = places_of(literals_in(mask, 0, end));
    assert forall|j: int|
        0 <= j && places.len() > 0 && j < places.last() && !places.contains(j as usize) implies !(
    #[trigger] mask[j]).is_literal() && mask[j].quantifier.min_count() == 0 by {
        assert(places.last() < end);
        lemma_literals_cover(mask, 0, end, j);
    }
}

/// No event opens a gap.
pub proof fn lemma_event_keeps_no_gaps(
    mask: Seq<MaskElement>,
    flags: Flags,
    filters: Filters,
    s: MaskView,
    event: InputEvent,
)
    requires
        mask.len() <= usize::MAX,
        mask_wf(mask),
        view_wf(mask, s),
        no_gaps(mask, s.mask_map),
    ensures
        no_gaps(mask, state_after(mask, flags, filters, s, event).mask_map),
{
    let next = state_after(mask, flags, filters, s, event);
    if next != s {
        match event {
            InputEvent::Key(KeyInput::Char(b)) => {
                lemma_accept_keeps_no_gaps(mask, s, typed_char(flags, b));
            },
            _ => {
                lemma_backspace_keeps_no_gaps(mask, s);
            },
        }
    }
}

/// Whether the map has an entry for element `j`.
pub open spec fn has_entry(mask_map: Seq<usize>, j: int) -> bool {
    mask_map.contains(j as usize)
}

proof fn lemma_element_at_own_place(mask: Seq<MaskElement>, mask_map: Seq<usize>, j: int)
    requires
        map_wf(mask, mask_map),
        all_exactly_one(mask),
        0 <= j < mask.len() <= usize::MAX,
        forall|i: int| 0 <= i <= j ==> #[trigger] has_entry(mask_map, i),
    ensures
        j < mask_map.len(),
        mask_map[j] == j,
    decreases j,
{
    assert(has_entry(mask_map, j));
    let k = choose|k: int| 0 <= k < mask_map.len() && mask_map[k] == j as usize;
    lemma_entries_rise(mask, mask_map, k);
    if k < j {
        lemma_element_at_own_place(mask, mask_map, k);
    }
}

/// Under a mask whose elements each take exactly one character, a state
/// that holds something and has no gap is complete exactly when the map has
/// an entry for every element.
pub proof fn lemma_fixed_mask_complete_iff_full(mask: Seq<MaskElement>, s: MaskView)
    requires
        mask.len() <= usize::MAX,
        view_wf(mask, s),
        no_gaps(mask, s.mask_map),
        all_exactly_one(mask),
        s.mask_map.len() > 0,
    ensures
        is_complete(mask, s.mask_map) <==> s.mask_map.len() == mask.len(),
{
    lemma_fixed_mask_complete_when_full(mask, s);
    if is_complete(mask, s.mask_map) && s.mask_map.len() < mask.len() {
        let last = mask.len() - 1;
        assert(s.mask_map.last() == last);
        assert forall|i: int| 0 <= i <= last implies #[trigger] has_entry(s.mask_map, i) by {
            if i == last {
                assert(s.mask_map[s.mask_map.len() - 1] == i as usize);
            } else if !s.mask_map.contains(i as usize) {
                assert(mask[i].quantifier == Quantifier::One);
            }
        }
        lemma_element_at_own_place(mask, s.mask_map, last);
    }
}


/// Whether the byte at position `i` of the buffer is what the buffer keeps
/// of a character that the element of that position admits.
pub open spec fn entry_admitted(mask: Seq<MaskElement>, s: MaskView, i: int) -> bool {
    exists|ch: char|
        #[trigger] class_admits(mask[s.mask_map[i] as int].class, ch) && low_byte(ch)
            == s.buffer[i]
}

/// Whether every byte of the buffer is admitted by its element.
pub open spec fn all_admitted(mask: Seq<MaskElement>, s: MaskView) -> bool {
    forall|i: int| 0 <= i < s.buffer.len() ==> #[trigger] entry_admitted(mask, s, i)
}

/// Whether each of `entries` pairs a character with an element that admits
/// it.
pub open spec fn entries_admitted(mask: Seq<MaskElement>, entries: Seq<(char, usize)>) -> bool {
    forall|k: int|
        0 <= k < entries.len() ==> class_admits(
            mask[(#[trigger] entries[k]).1 as int].class,
            entries[k].0,
        )
}

/// The literals of a range are admitted by their own elements.
pub proof fn lemma_literals_admitted(mask: Seq<MaskElement>, lo: int, hi: int)
    requires
        0 <= lo,
        hi <= mask.len() <= usize::MAX,
    ensures
        entries_admitted(mask, literals_in(mask, lo, hi)),
    decreases hi - lo,
{
    if hi > lo {
        lemma_literals_admitted(mask, lo, hi - 1);
    }
}

/// Entries that are admitted leave a buffer in which every byte is
/// admitted so.
pub proof fn lemma_extend_admitted(
    mask: Seq<MaskElement>,
    s: MaskView,
    entries: Seq<(char, usize)>,
)
    requires
        s.buffer.len() == s.mask_map.len(),
        all_admitted(mask, s),
        entries_admitted(mask, entries),
    ensures
        all_admitted(
            mask,
            MaskView {
                buffer: s.buffer + bytes_of(entries),
                mask_map: s.mask_map + places_of(entries),
            },
        ),
{
    let next = MaskView {
        buffer: s.buffer + bytes_of(entries),
        mask_map: s.mask_map + places_of(entries),
    };
    let n = s.buffer.len() as int;
    assert forall|i: int| 0 <= i < next.buffer.len() implies #[trigger] entry_admitted(
        mask,
        next,
        i,
    ) by {
        if i < n {
            assert(entry_admitted(mask, s, i));
            let ch = choose|ch: char|
                #[trigger] class_admits(mask[s.mask_map[i] as int].class, ch) && low_byte(ch)
                    == s.buffer[i];
            assert(class_admits(mask[next.mask_map[i] as int].class, ch));
        } else {
            let e = entries[i - n];
            assert(next.mask_map[i] == e.1);
            assert(next.buffer[i] == low_byte(e.0));
            assert(class_admits(mask[next.mask_map[i] as int].class, e.0));
        }
    }
}

/// A character that lands leaves every byte of the buffer admitted.
pub proof fn lemma_accept_keeps_admitted(mask: Seq<MaskElement>, s: MaskView, ch: char)
    requires
        mask.len() <= usize::MAX,
        view_wf(mask, s),
        all_admitted(mask, s),
        landing(mask, s.mask_map, ch) is Some,
    ensures
        ({
            let entries = accepted_entries(
                mask,
                s.mask_map,
                ch,
                landing(mask, s.mask_map, ch).unwrap(),
            );
            all_admitted(
                mask,
                MaskView {
                    buffer: s.buffer + bytes_of(entries),
                    mask_map: s.mask_map + places_of(entries),
                },
            )
        }),
{
    let idx = current_index(s.mask_map);
    let p = landing(mask, s.mask_map, ch).unwrap();
    lemma_scan_target(mask, idx + 1, ch);
    lemma_literal_run(mask, p + 1);
    lemma_literals_admitted(mask, idx + 1, p);
    lemma_literals_admitted(mask, p + 1, literal_run_end(mask, p + 1));
    let between = literals_in(mask, idx + 1, p);
    let after = trailing_literals(mask, p);
    let entries = accepted_entries(mask, s.mask_map, ch, p);
    assert(class_admits(mask[p].class, ch));
    assert forall|k: int| 0 <= k < entries.len() implies class_admits(
        mask[(#[trigger] entries[k]).1 as int].class,
        entries[k].0,
    ) by {
        if k < between.len() {
            assert(entries[k] == between[k]);
        } else if k == between.len() {
        } else {
            assert(entries[k] == after[k - between.len() - 1]);
        }
    }
    lemma_extend_admitted(mask, s, entries);
}

/// Every event leaves every byte of the buffer admitted by its element.
pub proof fn lemma_event_keeps_admitted(
    mask: Seq<MaskElement>,
    flags: Flags,
    filters: Filters,
    s: MaskView,
    event: InputEvent,
)
    requires
        mask.len() <= usize::MAX,
        view_wf(mask, s),
        all_admitted(mask, s),
    ensures
        all_admitted(mask, state_after(mask, flags, filters, s, event)),
{
    let next = state_after(mask, flags, filters, s, event);
    if next != s {
        match event {
            InputEvent::Key(KeyInput::Char(b)) => {
                lemma_accept_keeps_admitted(mask, s, typed_char(flags, b));
            },
            _ => {
                if s.mask_map.len() > 0 {
                    lemma_backspace_reach(mask, s.mask_map);
                }
                assert forall|i: int| 0 <= i < next.buffer.len() implies #[trigger] entry_admitted(
                    mask,
                    next,
                    i,
                ) by {
                    assert(entry_admitted(mask, s, i));
                    let ch = choose|ch: char|
                        #[trigger] class_admits(mask[s.mask_map[i] as int].class, ch) && low_byte(
                            ch,
                        ) == s.buffer[i];
                    assert(class_admits(mask[next.mask_map[i] as int].class, ch));
                }
            },
        }
    }
}

/// The state before the first event holds only literals, each admitted by
/// its own element.
pub proof fn lemma_initial_admitted(mask: Seq<MaskElement>)
    requires
        mask.len() <= usize::MAX,
    ensures
        all_admitted(mask, initial_view(mask)),
{
    lemma_literal_run(mask, 0);
    let entries = literals_in(mask, 0, literal_run_end(mask, 0));
    lemma_literals_admitted(mask, 0, literal_run_end(mask, 0));
    let empty = MaskView { buffer: Seq::empty(), mask_map: Seq::empty() };
    lemma_extend_admitted(mask, empty, entries);
    assert(empty.buffer + bytes_of(entries) =~= bytes_of(entries));
    assert(empty.mask_map + places_of(entries) =~= places_of(entries));
}

/// What holds of the answer of a read under a mask.
pub open spec fn sound_answer(mask: Seq<MaskElement>, s: MaskView) -> bool {
    &&& view_wf(mask, s)
    &&& all_admitted(mask, s)
    &&& forall|j: int| #[trigger] at_most_one(mask, j) ==> occurrences(s.mask_map, j as usize) <= 1
}

proof fn lemma_run_keeps_admitted(
    mask: Seq<MaskElement>,
    flags: Flags,
    has_default: bool,
    filters: Filters,
    s: MaskView,
    events: Seq<InputEvent>,
    pos: int,
)
    requires
        mask.len() <= usize::MAX,
        view_wf(mask, s),
        all_admitted(mask, s),
    ensures
        all_admitted(mask, run_from(mask, flags, has_default, filters, s, events, pos).1),
    decreases events.len() - pos,
{
    if 0 <= pos < events.len() {
        lemma_event_keeps_wf(mask, flags, filters, s, events[pos]);
        lemma_event_keeps_admitted(mask, flags, filters, s, events[pos]);
        lemma_run_keeps_admitted(
            mask,
            flags,
            has_default,
            filters,
            state_after(mask, flags, filters, s, events[pos]),
            events,
            pos + 1,
        );
    }
}

/// Whatever the events, a read under a mask ends with a buffer and a mask
/// map of one length, in which the map gives for every byte an element of
/// the mask that admits a character with that byte, never steps back, and
/// names no element more often than its quantifier allows.
pub proof fn lemma_run_answer(
    mask: Seq<MaskElement>,
    flags: Flags,
    has_default: bool,
    filters: Filters,
    events: Seq<InputEvent>,
)
    requires
        mask.len() <= usize::MAX,
    ensures
        sound_answer(
            mask,
            run_from(mask, flags, has_default, filters, initial_view(mask), events, 0).1,
        ),
{
    let end = run_from(mask, flags, has_default, filters, initial_view(mask), events, 0).1;
    lemma_initial_wf(mask);
    lemma_initial_admitted(mask);
    lemma_run_keeps_wf(mask, flags, has_default, filters, initial_view(mask), events, 0);
    lemma_run_keeps_admitted(mask, flags, has_default, filters, initial_view(mask), events, 0);
    assert forall|j: int| #[trigger] at_most_one(mask, j) implies occurrences(
        end.mask_map,
        j as usize,
    ) <= 1 by {
        lemma_counts_within_quantifier(mask, end.mask_map, j as usize);
    }
}

} // verus!
