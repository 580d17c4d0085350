//! The mask automaton: where each typed character lands among the elements
//! of a mask, which literals are inserted for the user, and when the input
//! is complete.

use vstd::prelude::*;
use crate::filter::{byte_of, low_byte};
use crate::mask::{class_admits, mask_char_matches, MaskClass, MaskElement};

verus! {

/// Whether the scan for a place for `ch` passes over an element: a literal
/// (it is inserted, not typed), or an element that may stay empty and does
/// not admit `ch`.
pub open spec fn passes_over(e: MaskElement, ch: char) -> bool {
    e.is_literal() || (!class_admits(e.class, ch) && e.quantifier.min_count() == 0)
}

/// Whether a scan that starts at `from` gets as far as `to`.
pub open spec fn scan_reaches(mask: Seq<MaskElement>, from: int, to: int, ch: char) -> bool {
    forall|j: int| from <= j < to ==> passes_over(#[trigger] mask[j], ch)
}

/// Whether the element at `k` takes `ch` when a scan arrives there.
pub open spec fn takes(mask: Seq<MaskElement>, k: int, ch: char) -> bool {
    0 <= k < mask.len() && !mask[k].is_literal() && class_admits(mask[k].class, ch)
}

/// The element, at `from` or later, that takes `ch`: the first one that
/// admits it, provided that every element before it can be passed over.
pub open spec fn scan_target(mask: Seq<MaskElement>, from: int, ch: char) -> Option<int>
    decreases mask.len() - from,
{
    if from < 0 || from >= mask.len() {
        None
    } else if takes(mask, from, ch) {
        Some(from)
    } else if passes_over(mask[from], ch) {
        scan_target(mask, from + 1, ch)
    } else {
        None
    }
}

/// What `scan_target` finds, said without recursion: the one element that
/// takes the character and that the scan reaches, if there is one.
pub proof fn lemma_scan_target(mask: Seq<MaskElement>, from: int, ch: char)
    requires
        0 <= from,
    ensures
        match scan_target(mask, from, ch) {
            Some(k) => from <= k && takes(mask, k, ch) && scan_reaches(mask, from, k, ch),
            None => forall|k: int|
                from <= k && #[trigger] takes(mask, k, ch) ==> !scan_reaches(mask, from, k, ch),
        },
    decreases mask.len() - from,
{
    if from >= mask.len() {
    } else if takes(mask, from, ch) {
    } else if passes_over(mask[from], ch) {
        lemma_scan_target(mask, from + 1, ch);
        match scan_target(mask, from + 1, ch) {
            Some(k) => {
                assert forall|j: int| from <= j < k implies passes_over(#[trigger] mask[j], ch) by {
                    if j > from {
                        assert(scan_reaches(mask, from + 1, k, ch));
                    }
                }
            },
            None => {
                assert forall|k: int| from <= k && #[trigger] takes(mask, k, ch) implies !scan_reaches(
                    mask,
                    from,
                    k,
                    ch,
                ) by {
                    if scan_reaches(mask, from, k, ch) {
                        assert(k > from);
                        assert forall|j: int| from + 1 <= j < k implies passes_over(
                            #[trigger] mask[j],
                            ch,
                        ) by {}
                        assert(scan_reaches(mask, from + 1, k, ch));
                    }
                }
            },
        }
    } else {
        assert forall|k: int| from <= k && #[trigger] takes(mask, k, ch) implies !scan_reaches(
            mask,
            from,
            k,
            ch,
        ) by {
            if scan_reaches(mask, from, k, ch) {
                assert(k > from);
                assert(passes_over(mask[from], ch));
            }
        }
    }
}

/// Looks, from `from_idx` on, for the element that takes `ch`. Literals are
/// passed over, and so are elements that may stay empty and do not admit
/// `ch`; an element that needs a character and does not admit `ch` ends the
/// search.
pub fn try_advance(mask: &[MaskElement], from_idx: usize, ch: char) -> (found: Option<usize>)
    ensures
        found is Some <==> scan_target(mask@, from_idx as int, ch) is Some,
        found is Some ==> found.unwrap() as int == scan_target(mask@, from_idx as int, ch).unwrap(),
{
    let mut idx: usize = from_idx;
    while idx < mask.len()
        invariant
            from_idx <= idx,
            scan_target(mask@, from_idx as int, ch) == scan_target(mask@, idx as int, ch),
        decreases mask.len() - idx,
    {
        if mask[idx].literal() {
            idx += 1;
        } else if mask_char_matches(&mask[idx].class, ch) {
            return Some(idx);
        } else if mask[idx].quantifier.skippable() {
            idx += 1;
        } else {
            return None;
        }
    }
    None
}

/// Whether any element of the mask takes an unbounded number of characters.
pub open spec fn has_unbounded(mask: Seq<MaskElement>) -> bool {
    exists|i: int| 0 <= i < mask.len() && (#[trigger] mask[i]).quantifier.is_unbounded()
}

/// Whether any element of the mask is `*` or `+`.
pub fn mask_has_unbounded(mask: &[MaskElement]) -> (b: bool)
    ensures
        b == has_unbounded(mask@),
{
    let mut i: usize = 0;
    while i < mask.len()
        invariant
            i <= mask.len(),
            forall|j: int| 0 <= j < i ==> !(#[trigger] mask@[j]).quantifier.is_unbounded(),
        decreases mask.len() - i,
    {
        if mask[i].quantifier.unbounded() {
            return true;
        }
        i += 1;
    }
    false
}

/// Whether every element that needs a character has one: each non-literal
/// element with a minimum of one occurs in the mask map.
pub open spec fn satisfied(mask: Seq<MaskElement>, mask_map: Seq<usize>) -> bool {
    forall|j: int|
        0 <= j < mask.len() && !(#[trigger] mask[j]).is_literal() && mask[j].quantifier.min_count()
            > 0 ==> mask_map.contains(j as usize)
}

fn map_has(mask_map: &[usize], idx: usize) -> (b: bool)
    ensures
        b == mask_map@.contains(idx),
{
    let mut i: usize = 0;
    while i < mask_map.len()
        invariant
            i <= mask_map.len(),
            forall|j: int| 0 <= j < i ==> mask_map@[j] != idx,
        decreases mask_map.len() - i,
    {
        if mask_map[i] == idx {
            return true;
        }
        i += 1;
    }
    false
}

/// Whether all minimums are met.
pub fn mask_satisfied(mask: &[MaskElement], mask_map: &[usize]) -> (b: bool)
    ensures
        b == satisfied(mask@, mask_map@),
{
    let mut idx: usize = 0;
    while idx < mask.len()
        invariant
            idx <= mask.len(),
            forall|j: int|
                0 <= j < idx && !(#[trigger] mask@[j]).is_literal()
                    && mask@[j].quantifier.min_count() > 0 ==> mask_map@.contains(j as usize),
        decreases mask.len() - idx,
    {
        if !mask[idx].literal() && !mask[idx].quantifier.skippable() && !map_has(mask_map, idx) {
            assert(!mask@[idx as int].is_literal());
            return false;
        }
        idx += 1;
    }
    true
}

/// The literal elements of `mask` with an index in `lo..hi`, in order, each
/// with its index.
pub open spec fn literals_in(mask: Seq<MaskElement>, lo: int, hi: int) -> Seq<(char, usize)>
    decreases hi - lo,
{
    if hi <= lo {
        Seq::empty()
    } else {
        let before = literals_in(mask, lo, hi - 1);
        match mask[hi - 1].class {
            MaskClass::Literal(l) => before.push((l, (hi - 1) as usize)),
            _ => before,
        }
    }
}

/// Where the run of literals that starts at `from` ends: the first index at
/// or after `from` that holds no literal.
pub open spec fn literal_run_end(mask: Seq<MaskElement>, from: int) -> int
    decreases mask.len() - from,
{
    if 0 <= from < mask.len() && mask[from].is_literal() {
        literal_run_end(mask, from + 1)
    } else {
        from
    }
}

/// The bytes that a list of entries adds to the buffer.
pub open spec fn bytes_of(entries: Seq<(char, usize)>) -> Seq<u8> {
    entries.map_values(|e: (char, usize)| low_byte(e.0))
}

/// The element indices that a list of entries adds to the mask map.
pub open spec fn places_of(entries: Seq<(char, usize)>) -> Seq<usize> {
    entries.map_values(|e: (char, usize)| e.1)
}

/// The characters that a list of entries shows on the terminal.
pub open spec fn chars_of(entries: Seq<(char, usize)>) -> Seq<char> {
    entries.map_values(|e: (char, usize)| e.0)
}

/// A mask map is well formed for a mask when its entries are indices into
/// the mask, never step back, and repeat an index only where the element
/// takes any number of characters.
pub open spec fn map_wf(mask: Seq<MaskElement>, mask_map: Seq<usize>) -> bool {
    &&& forall|i: int| 0 <= i < mask_map.len() ==> #[trigger] mask_map[i] < mask.len()
    &&& forall|i: int, j: int|
        0 <= i < j < mask_map.len() ==> #[trigger] mask_map[i] <= #[trigger] mask_map[j]
    &&& forall|i: int, j: int|
        0 <= i < j < mask_map.len() && #[trigger] mask_map[i] == #[trigger] mask_map[j]
            ==> mask[mask_map[i] as int].quantifier.is_unbounded()
}

/// Whether an entry for element `x` may be added after those of `mask_map`.
pub open spec fn may_follow(mask: Seq<MaskElement>, mask_map: Seq<usize>, x: usize) -> bool {
    &&& x < mask.len()
    &&& mask_map.len() == 0 || mask_map.last() < x || (mask_map.last() == x
        && mask[x as int].quantifier.is_unbounded())
}

proof fn lemma_push_wf(mask: Seq<MaskElement>, mask_map: Seq<usize>, x: usize)
    requires
        map_wf(mask, mask_map),
        may_follow(mask, mask_map, x),
    ensures
        map_wf(mask, mask_map.push(x)),
{
    let m = mask_map.push(x);
    assert forall|i: int, j: int| 0 <= i < j < m.len() implies #[trigger] m[i] <= #[trigger] m[j] by {
        if j == mask_map.len() {
            assert(mask_map[i] <= mask_map.last());
        }
    }
    assert forall|i: int, j: int|
        0 <= i < j < m.len() && #[trigger] m[i] == #[trigger] m[j] implies mask[m[i] as int]
            .quantifier.is_unbounded() by {
        if j == mask_map.len() {
            assert(mask_map[i] <= mask_map.last());
        }
    }
}

/// The typed and inserted characters so far, and for each the mask element
/// that it belongs to.
pub struct MaskState {
    pub buffer: Vec<u8>,
    pub mask_map: Vec<usize>,
}

/// A mask state as plain sequences.
pub struct MaskView {
    pub buffer: Seq<u8>,
    pub mask_map: Seq<usize>,
}

impl View for MaskState {
    type V = MaskView;

    open spec fn view(&self) -> MaskView {
        MaskView { buffer: self.buffer@, mask_map: self.mask_map@ }
    }
}

/// The index of the element that the last entry belongs to; 0 before the
/// first entry.
pub open spec fn current_index(mask_map: Seq<usize>) -> int {
    if mask_map.len() == 0 {
        0
    } else {
        mask_map.last() as int
    }
}

/// How many entries at the end of `mask_map` are `x`.
pub open spec fn run_len(mask_map: Seq<usize>, x: usize) -> nat
    decreases mask_map.len(),
{
    if mask_map.len() > 0 && mask_map.last() == x {
        1 + run_len(mask_map.drop_last(), x)
    } else {
        0
    }
}

/// How many characters the current element has taken.
pub open spec fn current_count(mask_map: Seq<usize>) -> nat {
    if mask_map.len() == 0 {
        0
    } else {
        run_len(mask_map, mask_map.last())
    }
}

/// The current element's index and the number of characters it has taken.
pub fn current_mask_state(_mask: &[MaskElement], mask_map: &[usize]) -> (state: (usize, usize))
    ensures
        state.0 == current_index(mask_map@),
        state.1 == current_count(mask_map@),
{
    let n = mask_map.len();
    if n == 0 {
        return (0, 0);
    }
    let idx = mask_map[n - 1];
    let mut i: usize = n;
    assert(mask_map@.subrange(0, n as int) =~= mask_map@);
    while i > 0 && mask_map[i - 1] == idx
        invariant
            i <= n,
            n == mask_map.len(),
            run_len(mask_map@, idx) == (n - i) + run_len(mask_map@.subrange(0, i as int), idx),
        decreases i,
    {
        assert(mask_map@.subrange(0, i as int).drop_last() =~= mask_map@.subrange(
            0,
            i as int - 1,
        ));
        i -= 1;
    }
    proof {
        if i > 0 {
            assert(mask_map@.subrange(0, i as int).last() == mask_map@[i as int - 1]);
        }
    }
    (idx, n - i)
}

impl MaskState {
    /// Buffer and mask map run in parallel, and the map is well formed.
    pub open spec fn wf(&self, mask: Seq<MaskElement>) -> bool {
        &&& self.buffer@.len() == self.mask_map@.len()
        &&& map_wf(mask, self.mask_map@)
    }

    /// Whether `self` is `before` with `entries` added at the end.
    pub open spec fn extends(&self, before: &MaskState, entries: Seq<(char, usize)>) -> bool {
        &&& self.buffer@ == before.buffer@ + bytes_of(entries)
        &&& self.mask_map@ == before.mask_map@ + places_of(entries)
    }

    /// Whether entries for elements from `from` on may be added: the state
    /// is well formed and its last entry lies before `from`.
    pub open spec fn open_from(&self, mask: Seq<MaskElement>, from: int) -> bool {
        self.wf(mask) && (self.mask_map@.len() == 0 || self.mask_map@.last() < from)
    }

    /// Adds the literals of `mask` with an index in `lo..hi`, and appends
    /// their characters to `echo`.
    fn splice_literals(&mut self, mask: &[MaskElement], lo: usize, hi: usize, echo: &mut Vec<char>)
        requires
            lo <= hi <= mask.len(),
        ensures
            final(self).extends(old(self), literals_in(mask@, lo as int, hi as int)),
            final(echo)@ == old(echo)@ + chars_of(literals_in(mask@, lo as int, hi as int)),
            old(self).open_from(mask@, lo as int) ==> final(self).open_from(mask@, hi as int),
    {
        let mut i: usize = lo;
        assert(self.buffer@ =~= old(self).buffer@ + bytes_of(literals_in(mask@, lo as int, lo as int)));
        assert(self.mask_map@ =~= old(self).mask_map@ + places_of(
            literals_in(mask@, lo as int, lo as int),
        ));
        assert(echo@ =~= old(echo)@ + chars_of(literals_in(mask@, lo as int, lo as int)));
        while i < hi
            invariant
                lo <= i <= hi <= mask.len(),
                self.extends(old(self), literals_in(mask@, lo as int, i as int)),
                echo@ == old(echo)@ + chars_of(literals_in(mask@, lo as int, i as int)),
                old(self).open_from(mask@, lo as int) ==> self.open_from(mask@, i as int),
            decreases hi - i,
        {
            let ghost es = literals_in(mask@, lo as int, i as int);
            if let MaskClass::Literal(l) = mask[i].class {
                proof {
                    if old(self).open_from(mask@, lo as int) {
                        lemma_push_wf(mask@, self.mask_map@, i);
                    }
                    let es2 = literals_in(mask@, lo as int, i as int + 1);
                    assert(es2 == es.push((l, i)));
                    assert(bytes_of(es2) =~= bytes_of(es).push(low_byte(l)));
                    assert(places_of(es2) =~= places_of(es).push(i));
                    assert(chars_of(es2) =~= chars_of(es).push(l));
                }
                self.buffer.push(byte_of(l));
                self.mask_map.push(i);
                echo.push(l);
                assert(self.buffer@ =~= old(self).buffer@ + bytes_of(
                    literals_in(mask@, lo as int, i as int + 1),
                ));
                assert(self.mask_map@ =~= old(self).mask_map@ + places_of(
                    literals_in(mask@, lo as int, i as int + 1),
                ));
                assert(echo@ =~= old(echo)@ + chars_of(literals_in(mask@, lo as int, i as int + 1)));
            } else {
                assert(literals_in(mask@, lo as int, i as int + 1) == es);
            }
            i += 1;
        }
    }
}

/// Whether the current element may take one more character: always where it
/// is unbounded, else only while it has none.
pub open spec fn can_accept_more(mask: Seq<MaskElement>, mask_map: Seq<usize>) -> bool {
    let idx = current_index(mask_map);
    idx < mask.len() && (mask[idx].quantifier.is_unbounded() || current_count(mask_map) < 1)
}

/// Whether the current element has its minimum, so that input may move on.
pub open spec fn minimum_met(mask: Seq<MaskElement>, mask_map: Seq<usize>) -> bool {
    let idx = current_index(mask_map);
    idx >= mask.len() || current_count(mask_map) >= mask[idx].quantifier.min_count()
}

/// The element at which `ch` is accepted, or `None` where the keystroke is
/// rejected. The current element takes it if it admits it and has room;
/// else, if the current element has its minimum, a later element may.
pub open spec fn landing(mask: Seq<MaskElement>, mask_map: Seq<usize>, ch: char) -> Option<int> {
    let idx = current_index(mask_map);
    if can_accept_more(mask, mask_map) && class_admits(mask[idx].class, ch) {
        Some(idx)
    } else if minimum_met(mask, mask_map) {
        scan_target(mask, idx + 1, ch)
    } else {
        None
    }
}

/// The literals inserted after an entry for element `p`: the run that
/// follows `p` where `p` is then full, none where `p` is unbounded.
pub open spec fn trailing_literals(mask: Seq<MaskElement>, p: int) -> Seq<(char, usize)> {
    if mask[p].quantifier.is_unbounded() {
        Seq::empty()
    } else {
        literals_in(mask, p + 1, literal_run_end(mask, p + 1))
    }
}

/// The entries that accepting `ch` at element `p` adds: the literals between
/// the current element and `p`, the character itself, and the literals that
/// follow `p` once it is full.
pub open spec fn accepted_entries(
    mask: Seq<MaskElement>,
    mask_map: Seq<usize>,
    ch: char,
    p: int,
) -> Seq<(char, usize)> {
    literals_in(mask, current_index(mask_map) + 1, p) + seq![(ch, p as usize)] + trailing_literals(
        mask,
        p,
    )
}

/// How many entries are left when the literals at the end of the first `n`
/// are taken away.
pub open spec fn without_trailing_literals(
    mask: Seq<MaskElement>,
    mask_map: Seq<usize>,
    n: int,
) -> int
    decreases n,
{
    if 0 < n <= mask_map.len() && mask[mask_map[n - 1] as int].is_literal() {
        without_trailing_literals(mask, mask_map, n - 1)
    } else {
        n
    }
}

/// How many entries a backspace leaves: the last one goes, and with it the
/// literals that then stand at the end.
pub open spec fn kept_by_backspace(mask: Seq<MaskElement>, mask_map: Seq<usize>) -> int {
    if mask_map.len() == 0 {
        0
    } else {
        without_trailing_literals(mask, mask_map, mask_map.len() - 1)
    }
}

/// The current element of a map that is not empty has taken at least one
/// character.
pub proof fn lemma_current_count_positive(mask_map: Seq<usize>)
    requires
        mask_map.len() > 0,
    ensures
        current_count(mask_map) >= 1,
{
}

pub proof fn lemma_prefix_wf(mask: Seq<MaskElement>, mask_map: Seq<usize>, n: int)
    requires
        map_wf(mask, mask_map),
        0 <= n <= mask_map.len(),
    ensures
        map_wf(mask, mask_map.subrange(0, n)),
{
    let m = mask_map.subrange(0, n);
    assert forall|i: int, j: int| 0 <= i < j < m.len() implies #[trigger] m[i] <= #[trigger] m[j] by {
        assert(mask_map[i] <= mask_map[j]);
    }
    assert forall|i: int, j: int|
        0 <= i < j < m.len() && #[trigger] m[i] == #[trigger] m[j] implies mask[m[i] as int]
            .quantifier.is_unbounded() by {
        assert(mask_map[i] == mask_map[j]);
    }
}

/// Inserts the run of literals that starts at `from_idx`, appends their
/// characters to `echo`, and returns how many there were.
pub fn mask_auto_insert_literals(
    mask: &[MaskElement],
    state: &mut MaskState,
    from_idx: usize,
    echo: &mut Vec<char>,
) -> (count: usize)
    ensures
        final(state).extends(
            old(state),
            literals_in(mask@, from_idx as int, literal_run_end(mask@, from_idx as int)),
        ),
        old(state).open_from(mask@, from_idx as int) ==> final(state).wf(mask@),
        final(echo)@ == old(echo)@ + chars_of(
            literals_in(mask@, from_idx as int, literal_run_end(mask@, from_idx as int)),
        ),
        count == literal_run_end(mask@, from_idx as int) - from_idx,
{
    let mut end: usize = from_idx;
    while end < mask.len() && mask[end].literal()
        invariant
            from_idx <= end,
            end == from_idx || end <= mask.len(),
            forall|j: int| from_idx <= j < end ==> (#[trigger] mask@[j]).is_literal(),
            literal_run_end(mask@, from_idx as int) == literal_run_end(mask@, end as int),
        decreases mask.len() - end,
    {
        end += 1;
    }
    if end == from_idx {
        proof {
            let es = literals_in(mask@, from_idx as int, from_idx as int);
            assert(state.buffer@ =~= state.buffer@ + bytes_of(es));
            assert(state.mask_map@ =~= state.mask_map@ + places_of(es));
            assert(echo@ =~= echo@ + chars_of(es));
        }
        return 0;
    }
    state.splice_literals(mask, from_idx, end, echo);
    proof {
        lemma_literals_in_run(mask@, from_idx as int, end as int);
    }
    end - from_idx
}

/// Every element of a run of literals gives one entry.
proof fn lemma_literals_in_run(mask: Seq<MaskElement>, lo: int, hi: int)
    requires
        0 <= lo <= hi <= mask.len(),
        forall|j: int| lo <= j < hi ==> (#[trigger] mask[j]).is_literal(),
    ensures
        literals_in(mask, lo, hi).len() == hi - lo,
    decreases hi - lo,
{
    if hi > lo {
        lemma_literals_in_run(mask, lo, hi - 1);
    }
}


proof fn lemma_entries_concat(a: Seq<(char, usize)>, b: Seq<(char, usize)>)
    ensures
        bytes_of(a + b) == bytes_of(a) + bytes_of(b),
        places_of(a + b) == places_of(a) + places_of(b),
        chars_of(a + b) == chars_of(a) + chars_of(b),
{
    assert(bytes_of(a + b) =~= bytes_of(a) + bytes_of(b));
    assert(places_of(a + b) =~= places_of(a) + places_of(b));
    assert(chars_of(a + b) =~= chars_of(a) + chars_of(b));
}

impl MaskState {
    /// The state before the first keystroke: the literals that open the mask
    /// are already in place. Their characters are handed back for display.
    pub fn new(mask: &[MaskElement]) -> (start: (MaskState, Vec<char>))
        ensures
            start.0.wf(mask@),
            start.0.buffer@ == bytes_of(literals_in(mask@, 0, literal_run_end(mask@, 0))),
            start.0.mask_map@ == places_of(literals_in(mask@, 0, literal_run_end(mask@, 0))),
            start.1@ == chars_of(literals_in(mask@, 0, literal_run_end(mask@, 0))),
    {
        let mut state = MaskState { buffer: Vec::new(), mask_map: Vec::new() };
        let mut echo: Vec<char> = Vec::new();
        let ghost es = literals_in(mask@, 0, literal_run_end(mask@, 0));
        mask_auto_insert_literals(mask, &mut state, 0, &mut echo);
        assert(state.buffer@ =~= bytes_of(es));
        assert(state.mask_map@ =~= places_of(es));
        assert(echo@ =~= chars_of(es));
        (state, echo)
    }

    /// Offers one typed character to the mask. Where an element takes it,
    /// the character and the literals due with it are added, and what is to
    /// be shown is returned; where none does, nothing changes and `None` is
    /// returned.
    pub fn accept_char(&mut self, mask: &[MaskElement], ch: char) -> (echo: Option<Vec<char>>)
        requires
            old(self).wf(mask@),
        ensures
            final(self).wf(mask@),
            echo is Some <==> landing(mask@, old(self).mask_map@, ch) is Some,
            echo is None ==> final(self).buffer@ == old(self).buffer@ && final(self).mask_map@
                == old(self).mask_map@,
            echo is Some ==> {
                let entries = accepted_entries(
                    mask@,
                    old(self).mask_map@,
                    ch,
                    landing(mask@, old(self).mask_map@, ch).unwrap(),
                );
                final(self).extends(old(self), entries) && echo.unwrap()@ == chars_of(entries)
            },
    {
        let (idx, count) = current_mask_state(mask, self.mask_map.as_slice());
        let ghost map0 = self.mask_map@;
        let room = idx < mask.len() && (mask[idx].quantifier.unbounded() || count < 1);
        let target: usize;
        if room && mask_char_matches(&mask[idx].class, ch) {
            target = idx;
        } else {
            let met = idx >= mask.len() || mask[idx].quantifier.skippable() || count >= 1;
            if !met || idx >= mask.len() {
                return None;
            }
            match try_advance(mask, idx + 1, ch) {
                Some(t) => {
                    target = t;
                },
                None => {
                    return None;
                },
            }
        }
        proof {
            lemma_scan_target(mask@, idx as int + 1, ch);
            if map0.len() > 0 {
                lemma_current_count_positive(map0);
            }
        }
        let ghost between = literals_in(mask@, idx as int + 1, target as int);
        let ghost after = trailing_literals(mask@, target as int);
        let mut echo: Vec<char> = Vec::new();
        if target > idx {
            self.splice_literals(mask, idx + 1, target, &mut echo);
        } else {
            assert(between =~= Seq::empty());
            assert(self.buffer@ =~= old(self).buffer@ + bytes_of(between));
            assert(self.mask_map@ =~= old(self).mask_map@ + places_of(between));
            assert(echo@ =~= chars_of(between));
        }
        let ghost mid = between + seq![(ch, target)];
        proof {
            lemma_push_wf(mask@, self.mask_map@, target);
            lemma_entries_concat(between, seq![(ch, target)]);
            assert(bytes_of(seq![(ch, target)]) =~= seq![low_byte(ch)]);
            assert(places_of(seq![(ch, target)]) =~= seq![target]);
            assert(chars_of(seq![(ch, target)]) =~= seq![ch]);
        }
        self.buffer.push(byte_of(ch));
        self.mask_map.push(target);
        echo.push(ch);
        assert(self.buffer@ =~= old(self).buffer@ + bytes_of(mid));
        assert(self.mask_map@ =~= old(self).mask_map@ + places_of(mid));
        assert(echo@ =~= chars_of(mid));
        if !mask[target].quantifier.unbounded() {
            mask_auto_insert_literals(mask, self, target + 1, &mut echo);
        }
        proof {
            lemma_entries_concat(mid, after);
            assert(after =~= Seq::empty() ==> mid + after =~= mid);
            assert(self.buffer@ =~= old(self).buffer@ + bytes_of(mid + after));
            assert(self.mask_map@ =~= old(self).mask_map@ + places_of(mid + after));
            assert(echo@ =~= chars_of(mid + after));
        }
        Some(echo)
    }

    /// Takes back the last entry, and with it the literals that then stand
    /// at the end of the buffer. Returns how many entries went.
    pub fn backspace(&mut self, mask: &[MaskElement]) -> (removed: usize)
        requires
            old(self).wf(mask@),
        ensures
            final(self).wf(mask@),
            final(self).buffer@ == old(self).buffer@.subrange(
                0,
                kept_by_backspace(mask@, old(self).mask_map@),
            ),
            final(self).mask_map@ == old(self).mask_map@.subrange(
                0,
                kept_by_backspace(mask@, old(self).mask_map@),
            ),
            0 <= kept_by_backspace(mask@, old(self).mask_map@) <= old(self).mask_map@.len(),
            removed == old(self).mask_map@.len() - kept_by_backspace(mask@, old(self).mask_map@),
    {
        let n = self.mask_map.len();
        if n == 0 {
            assert(self.buffer@ =~= old(self).buffer@.subrange(0, 0));
            assert(self.mask_map@ =~= old(self).mask_map@.subrange(0, 0));
            return 0;
        }
        let mut keep: usize = n - 1;
        while keep > 0 && mask[self.mask_map[keep - 1]].literal()
            invariant
                keep < n,
                n == self.mask_map@.len(),
                self.mask_map@ == old(self).mask_map@,
                map_wf(mask@, self.mask_map@),
                without_trailing_literals(mask@, self.mask_map@, n - 1)
                    == without_trailing_literals(mask@, self.mask_map@, keep as int),
            decreases keep,
        {
            keep -= 1;
        }
        proof {
            lemma_prefix_wf(mask@, self.mask_map@, keep as int);
        }
        self.buffer.truncate(keep);
        self.mask_map.truncate(keep);
        n - keep
    }
}


/// How many entries of `mask_map` belong to element `j`.
pub open spec fn occurrences(mask_map: Seq<usize>, j: usize) -> nat
    decreases mask_map.len(),
{
    if mask_map.len() == 0 {
        0
    } else {
        occurrences(mask_map.drop_last(), j) + if mask_map.last() == j {
            1nat
        } else {
            0nat
        }
    }
}

/// The most characters an element may take: one, unless it is unbounded.
pub open spec fn at_most_one(mask: Seq<MaskElement>, j: int) -> bool {
    0 <= j < mask.len() && !mask[j].quantifier.is_unbounded()
}

proof fn lemma_occurs_somewhere(mask_map: Seq<usize>, j: usize)
    requires
        occurrences(mask_map, j) > 0,
    ensures
        mask_map.contains(j),
    decreases mask_map.len(),
{
    if mask_map.last() == j {
        assert(mask_map[mask_map.len() - 1] == j);
    } else {
        lemma_occurs_somewhere(mask_map.drop_last(), j);
        let k = choose|k: int| 0 <= k < mask_map.drop_last().len() && mask_map.drop_last()[k] == j;
        assert(mask_map[k] == j);
    }
}

/// In a well-formed mask map no element has more entries than its
/// quantifier allows: an element that is not unbounded has at most one.
pub proof fn lemma_counts_within_quantifier(mask: Seq<MaskElement>, mask_map: Seq<usize>, j: usize)
    requires
        map_wf(mask, mask_map),
        at_most_one(mask, j as int),
    ensures
        occurrences(mask_map, j) <= 1,
    decreases mask_map.len(),
{
    if mask_map.len() > 0 {
        let front = mask_map.drop_last();
        lemma_prefix_wf(mask, mask_map, mask_map.len() - 1);
        assert(front =~= mask_map.subrange(0, mask_map.len() - 1));
        lemma_counts_within_quantifier(mask, front, j);
        if mask_map.last() == j && occurrences(front, j) > 0 {
            lemma_occurs_somewhere(front, j);
            let k = choose|k: int| 0 <= k < front.len() && front[k] == j;
            assert(mask_map[k] == mask_map[mask_map.len() - 1]);
        }
    }
}

/// What a backspace leaves, said without recursion: at least the last
/// entry goes; every other entry that goes belongs to a literal; and what
/// is left is empty or ends in an entry that belongs to no literal.
pub proof fn lemma_backspace_reach(mask: Seq<MaskElement>, mask_map: Seq<usize>)
    requires
        mask_map.len() > 0,
    ensures
        0 <= kept_by_backspace(mask, mask_map) < mask_map.len(),
        forall|i: int|
            kept_by_backspace(mask, mask_map) <= i < mask_map.len() - 1 ==> mask[mask_map[i]
                as int].is_literal(),
        kept_by_backspace(mask, mask_map) > 0 ==> !mask[mask_map[kept_by_backspace(mask, mask_map)
            - 1] as int].is_literal(),
{
    lemma_without_trailing_literals(mask, mask_map, mask_map.len() - 1);
}

proof fn lemma_without_trailing_literals(mask: Seq<MaskElement>, mask_map: Seq<usize>, n: int)
    requires
        0 <= n <= mask_map.len(),
    ensures
        0 <= without_trailing_literals(mask, mask_map, n) <= n,
        forall|i: int|
            without_trailing_literals(mask, mask_map, n) <= i < n ==> mask[mask_map[i]
                as int].is_literal(),
        without_trailing_literals(mask, mask_map, n) > 0 ==> !mask[mask_map[
            without_trailing_literals(mask, mask_map, n) - 1] as int].is_literal(),
    decreases n,
{
    if 0 < n && mask[mask_map[n - 1] as int].is_literal() {
        lemma_without_trailing_literals(mask, mask_map, n - 1);
    }
}

/// Where a run of literals ends, said without recursion: every element of
/// the run is a literal, and the element behind it, if any, is not.
pub proof fn lemma_literal_run(mask: Seq<MaskElement>, from: int)
    requires
        0 <= from,
    ensures
        from <= literal_run_end(mask, from),
        from <= mask.len() ==> literal_run_end(mask, from) <= mask.len(),
        forall|j: int| from <= j < literal_run_end(mask, from) ==> (#[trigger] mask[j]).is_literal(),
        literal_run_end(mask, from) < mask.len() ==> !mask[literal_run_end(mask, from)].is_literal(),
    decreases mask.len() - from,
{
    if from < mask.len() && mask[from].is_literal() {
        lemma_literal_run(mask, from + 1);
    }
}

} // verus!
