//! Drawing the select widgets: the line that shows the filter, the
//! matches and their number, as bytes for the terminal.

use vstd::prelude::*;
use vstd::string::*;
use vstd::utf8::encode_utf8;
use crate::flags::HighlightStyle;
use crate::output::{
    clear_to_eol, decimal, left_if_any, push_bytes, push_clear_to_eol, push_cursor_move,
    push_decimal, reverse_off, reverse_on,
};
use crate::select::{lossy, lossy_text};

verus! {

/// ` → `, between the filter and the matches.
pub open spec fn arrow_bytes() -> Seq<u8> {
    seq![0x20u8, 0xE2u8, 0x86u8, 0x92u8, 0x20u8]
}

/// `(no matches)`.
pub open spec fn no_matches_bytes() -> Seq<u8> {
    seq![
        0x28u8,
        0x6Eu8,
        0x6Fu8,
        0x20u8,
        0x6Du8,
        0x61u8,
        0x74u8,
        0x63u8,
        0x68u8,
        0x65u8,
        0x73u8,
        0x29u8,
    ]
}

/// ` ↑↓`, the hint that the arrows go through the matches.
pub open spec fn updown_bytes() -> Seq<u8> {
    seq![0x20u8, 0xE2u8, 0x86u8, 0x91u8, 0xE2u8, 0x86u8, 0x93u8]
}

/// ` match` for one, ` matches` for any other number.
pub open spec fn match_word(n: nat) -> Seq<u8> {
    let one = seq![0x20u8, 0x6Du8, 0x61u8, 0x74u8, 0x63u8, 0x68u8];
    if n == 1 {
        one
    } else {
        one + seq![0x65u8, 0x73u8]
    }
}

/// The number of matches in brackets: `(3 matches)`.
pub open spec fn count_bytes(n: nat) -> Seq<u8> {
    seq![0x28u8] + decimal(n) + match_word(n) + seq![0x29u8]
}

/// What is drawn and how many columns it takes.
pub struct Drawn {
    pub bytes: Seq<u8>,
    pub width: nat,
}

impl Drawn {
    /// Nothing drawn.
    pub open spec fn nothing() -> Drawn {
        Drawn { bytes: Seq::empty(), width: 0 }
    }

    /// Bytes that take one column each.
    pub open spec fn plain(self, bytes: Seq<u8>) -> Drawn {
        Drawn { bytes: self.bytes + bytes, width: self.width + bytes.len() }
    }

    /// Bytes that take `cols` columns.
    pub open spec fn piece(self, bytes: Seq<u8>, cols: nat) -> Drawn {
        Drawn { bytes: self.bytes + bytes, width: self.width + cols }
    }

    /// Text, one column for each character.
    pub open spec fn text(self, text: Seq<char>) -> Drawn {
        self.piece(encode_utf8(text), text.len())
    }
}

/// The line of the widget that shows one match at a time: the filter, the
/// marked option or a note that there is none, the number of matches, and
/// the arrows.
pub open spec fn select_hint(
    filter: Seq<char>,
    options: Seq<String>,
    matches: Seq<usize>,
    match_idx: int,
) -> Drawn {
    let head = Drawn::nothing().text(filter).piece(arrow_bytes(), 3);
    let shown = if matches.len() == 0 {
        head.plain(no_matches_bytes())
    } else {
        head.text(options[matches[match_idx] as int]@)
    };
    shown.plain(seq![0x20u8]).plain(count_bytes(matches.len())).piece(updown_bytes(), 3)
}

/// One option in the row of matches: as it is, or marked in the chosen
/// style.
pub open spec fn row_item(option: Seq<char>, marked: bool, style: HighlightStyle) -> Drawn {
    let text = encode_utf8(option);
    if !marked {
        Drawn { bytes: text, width: option.len() }
    } else {
        match style {
            HighlightStyle::Reverse => Drawn {
                bytes: reverse_on() + text + reverse_off(),
                width: option.len(),
            },
            HighlightStyle::Bracket => Drawn {
                bytes: seq![0x5Bu8] + text + seq![0x5Du8],
                width: option.len() + 2,
            },
            HighlightStyle::Arrow => Drawn {
                bytes: seq![0x3Eu8] + text + seq![0x3Cu8],
                width: option.len() + 2,
            },
        }
    }
}

/// `drawn` followed by the first `n` matches in a row, a space between
/// each two.
pub open spec fn with_row(
    drawn: Drawn,
    options: Seq<String>,
    matches: Seq<usize>,
    match_idx: int,
    style: HighlightStyle,
    n: int,
) -> Drawn
    decreases n,
{
    if n <= 0 {
        drawn
    } else {
        let before = with_row(drawn, options, matches, match_idx, style, n - 1);
        let spaced = if n - 1 > 0 {
            before.plain(seq![0x20u8])
        } else {
            before
        };
        let item = row_item(options[matches[n - 1] as int]@, n - 1 == match_idx, style);
        spaced.piece(item.bytes, item.width)
    }
}

/// The line of the widget that shows all matches in a row: the filter,
/// the matches with the marked one set off, and their number; or the
/// filter and a note that nothing matches.
pub open spec fn select_lr_hint(
    filter: Seq<char>,
    options: Seq<String>,
    matches: Seq<usize>,
    match_idx: int,
    style: HighlightStyle,
) -> Drawn {
    let head = Drawn::nothing().text(filter).piece(arrow_bytes(), 3);
    if matches.len() == 0 {
        head.plain(no_matches_bytes())
    } else {
        with_row(head, options, matches, match_idx, style, matches.len() as int).plain(
            seq![0x20u8, 0x20u8],
        ).plain(count_bytes(matches.len()))
    }
}

/// A drawn line put on the terminal over the line before it: go left by
/// where the cursor stood, clear, write, and go left to where the cursor
/// belongs within the filter.
pub open spec fn framed(prev: nat, drawn: Drawn, cursor_pos: nat) -> Seq<u8> {
    left_if_any(prev) + clear_to_eol() + drawn.bytes + left_if_any(
        (drawn.width - cursor_pos) as nat,
    )
}

/// A line under construction: the bytes so far, and their width as long
/// as it fits the machine's integers.
struct Canvas {
    bytes: Vec<u8>,
    width: usize,
    fits: bool,
}

impl Canvas {
    /// Whether the canvas holds `drawn`.
    spec fn holds(&self, drawn: Drawn) -> bool {
        &&& self.bytes@ == drawn.bytes
        &&& self.fits == (drawn.width <= usize::MAX)
        &&& self.fits ==> self.width == drawn.width
    }

    fn new() -> (canvas: Canvas)
        ensures
            canvas.holds(Drawn::nothing()),
    {
        Canvas { bytes: Vec::new(), width: 0, fits: true }
    }

    fn widen(&mut self, cols: usize)
        ensures
            final(self).bytes@ == old(self).bytes@,
            final(self).fits == (old(self).fits && old(self).width + cols <= usize::MAX),
            final(self).fits ==> final(self).width == old(self).width + cols,
    {
        if self.fits {
            match self.width.checked_add(cols) {
                Some(w) => {
                    self.width = w;
                },
                None => {
                    self.fits = false;
                },
            }
        }
    }

    fn put(&mut self, piece: &[u8], cols: usize)
        ensures
            final(self).bytes@ == old(self).bytes@ + piece@,
            final(self).fits == (old(self).fits && old(self).width + cols <= usize::MAX),
            final(self).fits ==> final(self).width == old(self).width + cols,
    {
        push_bytes(&mut self.bytes, piece);
        self.widen(cols);
    }

    fn put_text(&mut self, text: &str)
        ensures
            final(self).bytes@ == old(self).bytes@ + encode_utf8(text@),
            final(self).fits == (old(self).fits && old(self).width + text@.len() <= usize::MAX),
            final(self).fits ==> final(self).width == old(self).width + text@.len(),
    {
        let bytes = text.as_bytes_vec();
        let cols = text.unicode_len();
        self.put(bytes.as_slice(), cols);
    }

    fn put_arrow(&mut self)
        ensures
            final(self).bytes@ == old(self).bytes@ + arrow_bytes(),
            final(self).fits == (old(self).fits && old(self).width + 3 <= usize::MAX),
            final(self).fits ==> final(self).width == old(self).width + 3,
    {
        let piece = vec![0x20u8, 0xE2u8, 0x86u8, 0x92u8, 0x20u8];
        assert(piece@ =~= arrow_bytes());
        self.put(piece.as_slice(), 3);
    }

    fn put_no_matches(&mut self)
        ensures
            final(self).bytes@ == old(self).bytes@ + no_matches_bytes(),
            final(self).fits == (old(self).fits && old(self).width + 12 <= usize::MAX),
            final(self).fits ==> final(self).width == old(self).width + 12,
    {
        let piece = vec![
            0x28u8,
            0x6Eu8,
            0x6Fu8,
            0x20u8,
            0x6Du8,
            0x61u8,
            0x74u8,
            0x63u8,
            0x68u8,
            0x65u8,
            0x73u8,
            0x29u8,
        ];
        assert(piece@ =~= no_matches_bytes());
        self.put(piece.as_slice(), 12);
    }

    fn put_count(&mut self, n: usize)
        ensures
            final(self).bytes@ == old(self).bytes@ + count_bytes(n as nat),
            final(self).fits == (old(self).fits && old(self).width + count_bytes(n as nat).len()
                <= usize::MAX),
            final(self).fits ==> final(self).width == old(self).width + count_bytes(
                n as nat,
            ).len(),
    {
        let mut piece: Vec<u8> = Vec::new();
        piece.push(0x28);
        push_decimal(&mut piece, n);
        piece.push(0x20);
        piece.push(0x6D);
        piece.push(0x61);
        piece.push(0x74);
        piece.push(0x63);
        piece.push(0x68);
        if n != 1 {
            piece.push(0x65);
            piece.push(0x73);
        }
        piece.push(0x29);
        assert(piece@ =~= count_bytes(n as nat));
        let cols = piece.len();
        self.put(piece.as_slice(), cols);
    }

    fn put_item(&mut self, option: &str, marked: bool, style: HighlightStyle)
        ensures
            final(self).bytes@ == old(self).bytes@ + row_item(option@, marked, style).bytes,
            final(self).fits == (old(self).fits && old(self).width + row_item(
                option@,
                marked,
                style,
            ).width <= usize::MAX),
            final(self).fits ==> final(self).width == old(self).width + row_item(
                option@,
                marked,
                style,
            ).width,
    {
        let ghost before = self.bytes@;
        let ghost text = encode_utf8(option@);
        if !marked {
            self.put_text(option);
        } else {
            match style {
                HighlightStyle::Reverse => {
                    let on = vec![0x1Bu8, 0x5Bu8, 0x37u8, 0x6Du8];
                    let off = vec![0x1Bu8, 0x5Bu8, 0x32u8, 0x37u8, 0x6Du8];
                    assert(on@ =~= reverse_on());
                    assert(off@ =~= reverse_off());
                    push_bytes(&mut self.bytes, on.as_slice());
                    self.put_text(option);
                    push_bytes(&mut self.bytes, off.as_slice());
                    assert(self.bytes@ =~= before + (reverse_on() + text + reverse_off()));
                },
                HighlightStyle::Bracket => {
                    self.bytes.push(0x5B);
                    self.put_text(option);
                    self.bytes.push(0x5D);
                    self.widen(2);
                    assert(self.bytes@ =~= before + (seq![0x5Bu8] + text + seq![0x5Du8]));
                },
                HighlightStyle::Arrow => {
                    self.bytes.push(0x3E);
                    self.put_text(option);
                    self.bytes.push(0x3C);
                    self.widen(2);
                    assert(self.bytes@ =~= before + (seq![0x3Eu8] + text + seq![0x3Cu8]));
                },
            }
        }
    }

    /// Puts the line on the terminal over the line before it, where its
    /// width is known and the cursor lies within it.
    fn frame(self, prev: usize, cursor_pos: usize) -> (out: Option<Vec<u8>>)
        ensures
            out is Some <==> self.fits && cursor_pos <= self.width,
            out is Some ==> out.unwrap()@ == left_if_any(prev as nat) + clear_to_eol()
                + self.bytes@ + left_if_any((self.width - cursor_pos) as nat),
    {
        if !self.fits || cursor_pos > self.width {
            return None;
        }
        let mut out: Vec<u8> = Vec::new();
        if prev > 0 {
            push_cursor_move(&mut out, prev, 0x44);
        }
        push_clear_to_eol(&mut out);
        push_bytes(&mut out, self.bytes.as_slice());
        let tail = self.width - cursor_pos;
        if tail > 0 {
            push_cursor_move(&mut out, tail, 0x44);
        }
        assert(out@ =~= left_if_any(prev as nat) + clear_to_eol() + self.bytes@ + left_if_any(
            (self.width - cursor_pos) as nat,
        ));
        Some(out)
    }
}

/// Whether a mark is on one of the matches and every match is the index of
/// an option; the mark is free where there are no matches.
pub open spec fn mark_in_range(options: Seq<String>, matches: Seq<usize>, match_idx: int) -> bool {
    &&& matches.len() > 0 ==> 0 <= match_idx < matches.len()
    &&& forall|k: int| 0 <= k < matches.len() ==> (#[trigger] matches[k]) < options.len()
}

fn draw_select_line(filter: &str, options: &[String], matches: &[usize], match_idx: usize) -> (canvas:
    Canvas)
    requires
        mark_in_range(options@, matches@, match_idx as int),
    ensures
        canvas.holds(select_hint(filter@, options@, matches@, match_idx as int)),
{
    let mut canvas = Canvas::new();
    canvas.put_text(filter);
    canvas.put_arrow();
    if matches.len() == 0 {
        canvas.put_no_matches();
    } else {
        canvas.put_text(options[matches[match_idx]].as_str());
    }
    let space = vec![0x20u8];
    canvas.put(space.as_slice(), 1);
    canvas.put_count(matches.len());
    let arrows = vec![0x20u8, 0xE2u8, 0x86u8, 0x91u8, 0xE2u8, 0x86u8, 0x93u8];
    assert(arrows@ =~= updown_bytes());
    canvas.put(arrows.as_slice(), 3);
    proof {
        let goal = select_hint(filter@, options@, matches@, match_idx as int);
        assert(space@ =~= seq![0x20u8]);
        assert(canvas.bytes@ =~= goal.bytes);
    }
    canvas
}

fn draw_select_lr_line(
    filter: &str,
    options: &[String],
    matches: &[usize],
    match_idx: usize,
    style: HighlightStyle,
) -> (canvas: Canvas)
    requires
        mark_in_range(options@, matches@, match_idx as int),
    ensures
        canvas.holds(select_lr_hint(filter@, options@, matches@, match_idx as int, style)),
{
    let mut canvas = Canvas::new();
    canvas.put_text(filter);
    canvas.put_arrow();
    if matches.len() == 0 {
        canvas.put_no_matches();
        proof {
            let goal = select_lr_hint(filter@, options@, matches@, match_idx as int, style);
            assert(canvas.bytes@ =~= goal.bytes);
        }
        return canvas;
    }
    let ghost head = Drawn::nothing().text(filter@).piece(arrow_bytes(), 3);
    assert(canvas.bytes@ =~= head.bytes);
    let mut i: usize = 0;
    while i < matches.len()
        invariant
            i <= matches.len(),
            mark_in_range(options@, matches@, match_idx as int),
            canvas.holds(with_row(head, options@, matches@, match_idx as int, style, i as int)),
        decreases matches.len() - i,
    {
        if i > 0 {
            let space = vec![0x20u8];
            assert(space@ =~= seq![0x20u8]);
            canvas.put(space.as_slice(), 1);
        }
        canvas.put_item(options[matches[i]].as_str(), i == match_idx, style);
        i += 1;
    }
    let spaces = vec![0x20u8, 0x20u8];
    assert(spaces@ =~= seq![0x20u8, 0x20u8]);
    canvas.put(spaces.as_slice(), 2);
    canvas.put_count(matches.len());
    canvas
}

/// Draws the widget that shows one match at a time for a filter given as
/// text, over what was drawn before with the cursor `prev_total_width`
/// columns in. The cursor is left `cursor_pos` columns into the filter, and
/// that is recorded in `prev_total_width`. `None`, and nothing recorded,
/// where the cursor position lies beyond the line or the line is too wide
/// to measure.
pub fn render_select_text(
    filter: &str,
    cursor_pos: usize,
    options: &[String],
    matches: &[usize],
    match_idx: usize,
    prev_total_width: &mut usize,
) -> (out: Option<Vec<u8>>)
    requires
        mark_in_range(options@, matches@, match_idx as int),
    ensures
        out is Some <==> cursor_pos <= select_hint(
            filter@,
            options@,
            matches@,
            match_idx as int,
        ).width <= usize::MAX,
        out is Some ==> out.unwrap()@ == framed(
            *old(prev_total_width) as nat,
            select_hint(filter@, options@, matches@, match_idx as int),
            cursor_pos as nat,
        ) && *final(prev_total_width) == cursor_pos,
        out is None ==> *final(prev_total_width) == *old(prev_total_width),
{
    let canvas = draw_select_line(filter, options, matches, match_idx);
    let out = canvas.frame(*prev_total_width, cursor_pos);
    if out.is_some() {
        *prev_total_width = cursor_pos;
    }
    out
}

/// Draws the widget that shows all matches in a row for a filter given as
/// text, over what was drawn before. `None`, and nothing recorded, where
/// the cursor position lies beyond the line or the line is too wide to
/// measure.
pub fn render_select_lr_text(
    filter: &str,
    cursor_pos: usize,
    options: &[String],
    matches: &[usize],
    match_idx: usize,
    highlight_style: &HighlightStyle,
    prev_total_width: &mut usize,
) -> (out: Option<Vec<u8>>)
    requires
        mark_in_range(options@, matches@, match_idx as int),
    ensures
        out is Some <==> cursor_pos <= select_lr_hint(
            filter@,
            options@,
            matches@,
            match_idx as int,
            *highlight_style,
        ).width <= usize::MAX,
        out is Some ==> out.unwrap()@ == framed(
            *old(prev_total_width) as nat,
            select_lr_hint(filter@, options@, matches@, match_idx as int, *highlight_style),
            cursor_pos as nat,
        ) && *final(prev_total_width) == cursor_pos,
        out is None ==> *final(prev_total_width) == *old(prev_total_width),
{
    let canvas = draw_select_lr_line(filter, options, matches, match_idx, *highlight_style);
    let out = canvas.frame(*prev_total_width, cursor_pos);
    if out.is_some() {
        *prev_total_width = cursor_pos;
    }
    out
}

/// Draws the widget that shows one match at a time for the filter as it
/// was typed, read as text.
pub fn render_select_line(
    filter: &[u8],
    cursor_pos: usize,
    options: &[String],
    matches: &[usize],
    match_idx: usize,
    prev_total_width: &mut usize,
) -> (out: Vec<u8>)
    requires
        mark_in_range(options@, matches@, match_idx as int),
        cursor_pos <= select_hint(
            lossy_text(filter@),
            options@,
            matches@,
            match_idx as int,
        ).width <= usize::MAX,
    ensures
        out@ == framed(
            *old(prev_total_width) as nat,
            select_hint(lossy_text(filter@), options@, matches@, match_idx as int),
            cursor_pos as nat,
        ),
        *final(prev_total_width) == cursor_pos,
{
    let text = lossy(filter);
    let out = render_select_text(
        text.as_str(),
        cursor_pos,
        options,
        matches,
        match_idx,
        prev_total_width,
    );
    out.unwrap()
}

/// Draws the widget that shows one match at a time, where the line can be
/// drawn: `None`, and nothing recorded, where the cursor position lies
/// beyond the line or the line is too wide to measure.
pub fn try_render_select_line(
    filter: &[u8],
    cursor_pos: usize,
    options: &[String],
    matches: &[usize],
    match_idx: usize,
    prev_total_width: &mut usize,
) -> (out: Option<Vec<u8>>)
    requires
        mark_in_range(options@, matches@, match_idx as int),
    ensures
        out is Some <==> cursor_pos <= select_hint(
            lossy_text(filter@),
            options@,
            matches@,
            match_idx as int,
        ).width <= usize::MAX,
        out is Some ==> out.unwrap()@ == framed(
            *old(prev_total_width) as nat,
            select_hint(lossy_text(filter@), options@, matches@, match_idx as int),
            cursor_pos as nat,
        ) && *final(prev_total_width) == cursor_pos,
        out is None ==> *final(prev_total_width) == *old(prev_total_width),
{
    let text = lossy(filter);
    let canvas = draw_select_line(text.as_str(), options, matches, match_idx);
    if canvas.fits && cursor_pos <= canvas.width {
        Some(render_select_line(filter, cursor_pos, options, matches, match_idx, prev_total_width))
    } else {
        None
    }
}

/// Draws the widget that shows all matches in a row for the filter as it
/// was typed, read as text.
pub fn render_select_lr_line(
    filter: &[u8],
    cursor_pos: usize,
    options: &[String],
    matches: &[usize],
    match_idx: usize,
    highlight_style: &HighlightStyle,
    prev_total_width: &mut usize,
) -> (out: Vec<u8>)
    requires
        mark_in_range(options@, matches@, match_idx as int),
        cursor_pos <= select_lr_hint(
            lossy_text(filter@),
            options@,
            matches@,
            match_idx as int,
            *highlight_style,
        ).width <= usize::MAX,
    ensures
        out@ == framed(
            *old(prev_total_width) as nat,
            select_lr_hint(
                lossy_text(filter@),
                options@,
                matches@,
                match_idx as int,
                *highlight_style,
            ),
            cursor_pos as nat,
        ),
        *final(prev_total_width) == cursor_pos,
{
    let text = lossy(filter);
    let out = render_select_lr_text(
        text.as_str(),
        cursor_pos,
        options,
        matches,
        match_idx,
        highlight_style,
        prev_total_width,
    );
    out.unwrap()
}

/// Draws the widget that shows all matches in a row, where the line can be
/// drawn: `None`, and nothing recorded, where the cursor position lies
/// beyond the line or the line is too wide to measure.
pub fn try_render_select_lr_line(
    filter: &[u8],
    cursor_pos: usize,
    options: &[String],
    matches: &[usize],
    match_idx: usize,
    highlight_style: &HighlightStyle,
    prev_total_width: &mut usize,
) -> (out: Option<Vec<u8>>)
    requires
        mark_in_range(options@, matches@, match_idx as int),
    ensures
        out is Some <==> cursor_pos <= select_lr_hint(
            lossy_text(filter@),
            options@,
            matches@,
            match_idx as int,
            *highlight_style,
        ).width <= usize::MAX,
        out is Some ==> out.unwrap()@ == framed(
            *old(prev_total_width) as nat,
            select_lr_hint(
                lossy_text(filter@),
                options@,
                matches@,
                match_idx as int,
                *highlight_style,
            ),
            cursor_pos as nat,
        ) && *final(prev_total_width) == cursor_pos,
        out is None ==> *final(prev_total_width) == *old(prev_total_width),
{
    let text = lossy(filter);
    let canvas = draw_select_lr_line(text.as_str(), options, matches, match_idx, *highlight_style);
    if canvas.fits && cursor_pos <= canvas.width {
        Some(
            render_select_lr_line(
                filter,
                cursor_pos,
                options,
                matches,
                match_idx,
                highlight_style,
                prev_total_width,
            ),
        )
    } else {
        None
    }
}

/// Takes the widget off the display: go left by where the cursor stands
/// and clear the line; nothing where the cursor stands at the start.
pub fn clear_select_line(prev_total_width: &mut usize) -> (out: Vec<u8>)
    ensures
        out@ == if *old(prev_total_width) > 0 {
            left_if_any(*old(prev_total_width) as nat) + clear_to_eol()
        } else {
            Seq::<u8>::empty()
        },
        *final(prev_total_width) == 0,
{
    let mut out: Vec<u8> = Vec::new();
    if *prev_total_width > 0 {
        push_cursor_move(&mut out, *prev_total_width, 0x44);
        push_clear_to_eol(&mut out);
        *prev_total_width = 0;
    }
    out
}

} // verus!
