//! Positional input masks: a pattern of character classes and literals that
//! typed input is held to, one character at a time.

use vstd::prelude::*;
use vstd::string::*;
use crate::pattern::{class_accepts, regex_compiles, CharClass};

verus! {

/// What one position of a mask admits.
pub enum MaskClass {
    /// `U`: an uppercase ASCII letter.
    Upper,
    /// `l`: a lowercase ASCII letter.
    Lower,
    /// `c`: an ASCII letter.
    Alpha,
    /// `n`: a decimal digit.
    Digit,
    /// `x`: a hexadecimal digit.
    Hex,
    /// `p`: ASCII punctuation.
    Punct,
    /// `W`: ASCII whitespace.
    Whitespace,
    /// `.`: any character.
    Any,
    /// `[...]`: a bracket expression.
    Custom(CharClass),
    /// A fixed character, inserted for the user.
    Literal(char),
}

/// How many characters one mask element takes.
#[derive(Clone, Copy, Debug, PartialEq, Eq, Structural)]
pub enum Quantifier {
    /// Exactly one.
    One,
    /// `*`: zero or more.
    Star,
    /// `+`: one or more.
    Plus,
    /// `?`: zero or one.
    Optional,
}

/// One position of a compiled mask.
pub struct MaskElement {
    pub class: MaskClass,
    pub quantifier: Quantifier,
}

impl Quantifier {
    /// The least number of characters the element must take.
    pub open spec fn min_count(self) -> nat {
        match self {
            Quantifier::One | Quantifier::Plus => 1,
            Quantifier::Star | Quantifier::Optional => 0,
        }
    }

    /// Whether the element takes any number of characters.
    pub open spec fn is_unbounded(self) -> bool {
        self == Quantifier::Star || self == Quantifier::Plus
    }

    /// Whether the element may be passed over without a character.
    pub fn skippable(self) -> (b: bool)
        ensures
            b == (self.min_count() == 0),
    {
        match self {
            Quantifier::Star | Quantifier::Optional => true,
            Quantifier::One | Quantifier::Plus => false,
        }
    }

    /// Whether the element takes any number of characters.
    pub fn unbounded(self) -> (b: bool)
        ensures
            b == self.is_unbounded(),
    {
        match self {
            Quantifier::Star | Quantifier::Plus => true,
            Quantifier::One | Quantifier::Optional => false,
        }
    }
}

impl MaskElement {
    /// Whether the element is a fixed character.
    pub open spec fn is_literal(self) -> bool {
        self.class is Literal
    }

    /// Whether the element is a fixed character.
    pub fn literal(&self) -> (b: bool)
        ensures
            b == self.is_literal(),
    {
        match self.class {
            MaskClass::Literal(_) => true,
            _ => false,
        }
    }
}

/// A mask is well formed when every literal takes exactly one character.
pub open spec fn mask_wf(mask: Seq<MaskElement>) -> bool {
    forall|i: int|
        0 <= i < mask.len() && (#[trigger] mask[i]).is_literal() ==> mask[i].quantifier
            == Quantifier::One
}

pub open spec fn is_upper(ch: char) -> bool {
    'A' <= ch <= 'Z'
}

pub open spec fn is_lower(ch: char) -> bool {
    'a' <= ch <= 'z'
}

pub open spec fn is_digit(ch: char) -> bool {
    '0' <= ch <= '9'
}

pub open spec fn is_hex(ch: char) -> bool {
    is_digit(ch) || 'a' <= ch <= 'f' || 'A' <= ch <= 'F'
}

/// ASCII punctuation: the printable ASCII characters that are neither
/// letters, digits nor the space.
pub open spec fn is_punct(ch: char) -> bool {
    '!' <= ch <= '/' || ':' <= ch <= '@' || '[' <= ch <= '`' || '{' <= ch <= '~'
}

/// ASCII whitespace: space, tab, line feed, form feed, carriage return.
pub open spec fn is_space(ch: char) -> bool {
    ch == ' ' || ch == '\t' || ch == '\n' || ch == '\x0C' || ch == '\r'
}

/// Whether a class admits a character.
pub open spec fn class_admits(class: MaskClass, ch: char) -> bool {
    match class {
        MaskClass::Upper => is_upper(ch),
        MaskClass::Lower => is_lower(ch),
        MaskClass::Alpha => is_upper(ch) || is_lower(ch),
        MaskClass::Digit => is_digit(ch),
        MaskClass::Hex => is_hex(ch),
        MaskClass::Punct => is_punct(ch),
        MaskClass::Whitespace => is_space(ch),
        MaskClass::Any => true,
        MaskClass::Custom(c) => class_accepts(c@, ch),
        MaskClass::Literal(l) => ch == l,
    }
}

/// Tests a character against a class.
pub fn mask_char_matches(class: &MaskClass, ch: char) -> (m: bool)
    ensures
        m == class_admits(*class, ch),
{
    match class {
        MaskClass::Upper => 'A' <= ch && ch <= 'Z',
        MaskClass::Lower => 'a' <= ch && ch <= 'z',
        MaskClass::Alpha => ('A' <= ch && ch <= 'Z') || ('a' <= ch && ch <= 'z'),
        MaskClass::Digit => '0' <= ch && ch <= '9',
        MaskClass::Hex => ('0' <= ch && ch <= '9') || ('a' <= ch && ch <= 'f') || ('A' <= ch && ch
            <= 'F'),
        MaskClass::Punct => ('!' <= ch && ch <= '/') || (':' <= ch && ch <= '@') || ('[' <= ch
            && ch <= '`') || ('{' <= ch && ch <= '~'),
        MaskClass::Whitespace => ch == ' ' || ch == '\t' || ch == '\n' || ch == '\x0C' || ch
            == '\r',
        MaskClass::Any => true,
        MaskClass::Custom(c) => c.is_match(ch),
        MaskClass::Literal(l) => ch == *l,
    }
}


/// A class as plain data: a bracket expression by its pattern text.
pub enum ClassView {
    Upper,
    Lower,
    Alpha,
    Digit,
    Hex,
    Punct,
    Whitespace,
    Any,
    Custom(Seq<char>),
    Literal(char),
}

/// A mask element as plain data.
pub struct ElementView {
    pub class: ClassView,
    pub quantifier: Quantifier,
}

impl View for MaskClass {
    type V = ClassView;

    open spec fn view(&self) -> ClassView {
        match *self {
            MaskClass::Upper => ClassView::Upper,
            MaskClass::Lower => ClassView::Lower,
            MaskClass::Alpha => ClassView::Alpha,
            MaskClass::Digit => ClassView::Digit,
            MaskClass::Hex => ClassView::Hex,
            MaskClass::Punct => ClassView::Punct,
            MaskClass::Whitespace => ClassView::Whitespace,
            MaskClass::Any => ClassView::Any,
            MaskClass::Custom(c) => ClassView::Custom(c@),
            MaskClass::Literal(l) => ClassView::Literal(l),
        }
    }
}

impl View for MaskElement {
    type V = ElementView;

    open spec fn view(&self) -> ElementView {
        ElementView { class: self.class@, quantifier: self.quantifier }
    }
}

/// The elements of a mask as plain data.
pub open spec fn element_views(mask: Seq<MaskElement>) -> Seq<ElementView> {
    mask.map_values(|e: MaskElement| e@)
}

/// Why a mask string is not a mask.
#[derive(Clone, Copy, Debug, PartialEq, Eq, Structural)]
pub enum MaskError {
    /// A quantifier stands where an element should begin.
    UnexpectedQuantifier { ch: char, position: usize },
    /// A `[` is never closed.
    UnclosedClass,
    /// The bracket expression that spans `position..=close` is not one.
    InvalidClass { position: usize, close: usize },
    /// A quantifier follows a literal.
    QuantifiedLiteral { ch: char },
}

/// Whether a character is one of the quantifiers `*`, `+`, `?`.
pub open spec fn is_quantifier_char(ch: char) -> bool {
    ch == '*' || ch == '+' || ch == '?'
}

/// The quantifier that a quantifier character writes.
pub open spec fn quantifier_of(ch: char) -> Quantifier {
    if ch == '*' {
        Quantifier::Star
    } else if ch == '+' {
        Quantifier::Plus
    } else {
        Quantifier::Optional
    }
}

/// The class that a single unescaped character writes: one of the class
/// letters, else the character itself as a literal.
pub open spec fn letter_class(ch: char) -> ClassView {
    if ch == 'U' {
        ClassView::Upper
    } else if ch == 'l' {
        ClassView::Lower
    } else if ch == 'c' {
        ClassView::Alpha
    } else if ch == 'n' {
        ClassView::Digit
    } else if ch == 'x' {
        ClassView::Hex
    } else if ch == 'p' {
        ClassView::Punct
    } else if ch == 'W' {
        ClassView::Whitespace
    } else if ch == '.' {
        ClassView::Any
    } else {
        ClassView::Literal(ch)
    }
}

/// The first position at or after `from` that holds `]`; the length of
/// `chars` where there is none.
pub open spec fn first_close(chars: Seq<char>, from: int) -> int
    decreases chars.len() - from,
{
    if from < 0 || from >= chars.len() {
        chars.len() as int
    } else if chars[from] == ']' {
        from
    } else {
        first_close(chars, from + 1)
    }
}

/// Where the bracket expression that opens at `open` closes. A `^` or a
/// `]` directly after the `[` belongs to the expression and does not close
/// it.
pub open spec fn class_close(chars: Seq<char>, open: int) -> int {
    if open + 1 < chars.len() && (chars[open + 1] == '^' || chars[open + 1] == ']') {
        first_close(chars, open + 2)
    } else {
        first_close(chars, open + 1)
    }
}

/// The pattern of the bracket expression that spans `open..=close`: the
/// expression, anchored at both ends.
pub open spec fn class_pattern(chars: Seq<char>, open: int, close: int) -> Seq<char> {
    seq!['^'] + chars.subrange(open, close + 1) + seq!['$']
}

/// What stands at one position of a mask string.
pub enum Piece {
    /// An element, and where the next piece begins.
    Element { element: ElementView, next: int },
    /// A backslash at the very end, which writes nothing.
    Dangling,
    /// An error.
    Fail { error: MaskError },
}

/// An element body without its quantifier: the class, where the body ends,
/// and whether it is a literal.
pub open spec fn with_quantifier(chars: Seq<char>, class: ClassView, end: int) -> Piece {
    if end < chars.len() && is_quantifier_char(chars[end]) {
        if class is Literal {
            Piece::Fail { error: MaskError::QuantifiedLiteral { ch: chars[end] } }
        } else {
            Piece::Element {
                element: ElementView { class, quantifier: quantifier_of(chars[end]) },
                next: end + 1,
            }
        }
    } else {
        Piece::Element { element: ElementView { class, quantifier: Quantifier::One }, next: end }
    }
}

/// The piece that begins at position `i` of a mask string.
pub open spec fn piece_at(chars: Seq<char>, i: int) -> Piece {
    let ch = chars[i];
    if is_quantifier_char(ch) {
        Piece::Fail { error: MaskError::UnexpectedQuantifier { ch, position: i as usize } }
    } else if ch == '\\' {
        if i + 1 < chars.len() {
            with_quantifier(chars, ClassView::Literal(chars[i + 1]), i + 2)
        } else {
            Piece::Dangling
        }
    } else if ch == '[' {
        let close = class_close(chars, i);
        if close >= chars.len() {
            Piece::Fail { error: MaskError::UnclosedClass }
        } else if !regex_compiles(class_pattern(chars, i, close)) {
            Piece::Fail {
                error: MaskError::InvalidClass { position: i as usize, close: close as usize },
            }
        } else {
            with_quantifier(chars, ClassView::Custom(class_pattern(chars, i, close)), close + 1)
        }
    } else {
        with_quantifier(chars, letter_class(ch), i + 1)
    }
}

/// The elements that a mask string writes from position `i` on, or the
/// first error on the way.
pub open spec fn parsed_from(chars: Seq<char>, i: int) -> Result<Seq<ElementView>, MaskError>
    decreases chars.len() - i,
    via parsed_from_decreases
{
    if i < 0 || i >= chars.len() {
        Ok(Seq::empty())
    } else {
        match piece_at(chars, i) {
            Piece::Fail { error } => Err(error),
            Piece::Dangling => Ok(Seq::empty()),
            Piece::Element { element, next } => match parsed_from(chars, next) {
                Ok(rest) => Ok(seq![element] + rest),
                Err(error) => Err(error),
            },
        }
    }
}

#[via_fn]
proof fn parsed_from_decreases(chars: Seq<char>, i: int) {
    if 0 <= i < chars.len() {
        lemma_piece_advances(chars, i);
    }
}

/// Where the search for a `]` ends: at a `]`, or at the end of the string.
pub proof fn lemma_first_close(chars: Seq<char>, from: int)
    requires
        0 <= from,
    ensures
        from <= first_close(chars, from) || first_close(chars, from) == chars.len(),
        first_close(chars, from) <= chars.len(),
        first_close(chars, from) < chars.len() ==> chars[first_close(chars, from)] == ']',
        forall|j: int| from <= j < first_close(chars, from) ==> chars[j] != ']',
    decreases chars.len() - from,
{
    if from < chars.len() && chars[from] != ']' {
        lemma_first_close(chars, from + 1);
    }
}

/// Every element ends after the position at which it begins, and no later
/// than the end of the string.
pub proof fn lemma_piece_advances(chars: Seq<char>, i: int)
    requires
        0 <= i < chars.len(),
    ensures
        piece_at(chars, i) matches Piece::Element { next, .. } ==> i < next <= chars.len(),
{
    lemma_first_close(chars, i + 1);
    lemma_first_close(chars, i + 2);
}

/// The elements that a mask string writes, or why it is not a mask.
pub open spec fn parsed_mask(chars: Seq<char>) -> Result<Seq<ElementView>, MaskError> {
    parsed_from(chars, 0)
}

/// A parse result with the elements `done` put in front of it.
pub open spec fn after(done: Seq<ElementView>, rest: Result<Seq<ElementView>, MaskError>) -> Result<
    Seq<ElementView>,
    MaskError,
> {
    match rest {
        Ok(tail) => Ok(done + tail),
        Err(error) => Err(error),
    }
}

fn quantifier_char(ch: char) -> (b: bool)
    ensures
        b == is_quantifier_char(ch),
{
    ch == '*' || ch == '+' || ch == '?'
}

fn class_of_letter(ch: char) -> (class: MaskClass)
    ensures
        class@ == letter_class(ch),
{
    match ch {
        'U' => MaskClass::Upper,
        'l' => MaskClass::Lower,
        'c' => MaskClass::Alpha,
        'n' => MaskClass::Digit,
        'x' => MaskClass::Hex,
        'p' => MaskClass::Punct,
        'W' => MaskClass::Whitespace,
        '.' => MaskClass::Any,
        _ => MaskClass::Literal(ch),
    }
}


proof fn lemma_after_step(
    chars: Seq<char>,
    done: Seq<ElementView>,
    i: int,
    element: ElementView,
    next: int,
)
    requires
        0 <= i < chars.len(),
        piece_at(chars, i) == (Piece::Element { element, next }),
    ensures
        after(done, parsed_from(chars, i)) == after(done.push(element), parsed_from(chars, next)),
{
    match parsed_from(chars, next) {
        Ok(rest) => {
            assert(done + (seq![element] + rest) =~= done.push(element) + rest);
        },
        Err(_) => {},
    }
}

/// Compiles a mask string. Elements are read from left to right: `\` makes
/// the next character a literal, `[...]` is a bracket expression, a class
/// letter is its class and any other character a literal; `*`, `+` or `?`
/// after a class sets how many characters it takes. A quantifier with no
/// class before it, a bracket that is never closed and a bracket expression
/// that does not compile are errors.
pub fn parse_mask(mask_str: &str) -> (parsed: Result<Vec<MaskElement>, MaskError>)
    ensures
        match parsed {
            Ok(mask) => parsed_mask(mask_str@) == Ok::<Seq<ElementView>, MaskError>(
                element_views(mask@),
            ) && mask_wf(mask@),
            Err(error) => parsed_mask(mask_str@) == Err::<Seq<ElementView>, MaskError>(error),
        },
{
    let n = mask_str.unicode_len();
    let ghost chars = mask_str@;
    let mut elements: Vec<MaskElement> = Vec::new();
    let mut i: usize = 0;
    assert(element_views(elements@) =~= Seq::empty());
    assert(Seq::<ElementView>::empty() + Seq::<ElementView>::empty() =~= Seq::empty());
    while i < n
        invariant
            i <= n,
            n == chars.len(),
            chars == mask_str@,
            mask_wf(elements@),
            parsed_mask(chars) == after(element_views(elements@), parsed_from(chars, i as int)),
        decreases n - i,
    {
        let ch = mask_str.get_char(i);
        let ghost done = element_views(elements@);
        if quantifier_char(ch) {
            return Err(MaskError::UnexpectedQuantifier { ch, position: i });
        }
        let class: MaskClass;
        let end: usize;
        if ch == '\\' {
            if i + 1 < n {
                class = MaskClass::Literal(mask_str.get_char(i + 1));
                end = i + 2;
            } else {
                assert(done + Seq::<ElementView>::empty() =~= done);
                return Ok(elements);
            }
        } else if ch == '[' {
            let mut j: usize = i + 1;
            if j < n && (mask_str.get_char(j) == '^' || mask_str.get_char(j) == ']') {
                j += 1;
            }
            while j < n && mask_str.get_char(j) != ']'
                invariant
                    i < j <= n,
                    n == chars.len(),
                    chars == mask_str@,
                    class_close(chars, i as int) == first_close(chars, j as int),
                decreases n - j,
            {
                j += 1;
            }
            if j >= n {
                return Err(MaskError::UnclosedClass);
            }
            let expr = mask_str.substring_char(i, j + 1);
            proof {
                reveal_strlit("^");
                reveal_strlit("$");
            }
            let pattern = String::from_str("^").concat(expr).concat("$");
            assert(pattern@ =~= class_pattern(chars, i as int, j as int));
            match CharClass::compile(pattern.as_str()) {
                Some(c) => {
                    class = MaskClass::Custom(c);
                },
                None => {
                    return Err(MaskError::InvalidClass { position: i, close: j });
                },
            }
            end = j + 1;
        } else {
            class = class_of_letter(ch);
            end = i + 1;
        }
        let mut quantifier = Quantifier::One;
        let mut next = end;
        if end < n && quantifier_char(mask_str.get_char(end)) {
            let q = mask_str.get_char(end);
            if let MaskClass::Literal(_) = class {
                return Err(MaskError::QuantifiedLiteral { ch: q });
            }
            quantifier =
            if q == '*' {
                Quantifier::Star
            } else if q == '+' {
                Quantifier::Plus
            } else {
                Quantifier::Optional
            };
            next = end + 1;
        }
        let element = MaskElement { class, quantifier };
        proof {
            lemma_after_step(chars, done, i as int, element@, next as int);
            assert(element_views(elements@.push(element)) =~= done.push(element@));
        }
        elements.push(element);
        i = next;
    }
    assert(element_views(elements@) + Seq::<ElementView>::empty() =~= element_views(elements@));
    Ok(elements)
}

} // verus!
