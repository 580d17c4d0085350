//! What happens to a typed character before it is stored: case mapping, and
//! the include and exclude filters.

use vstd::prelude::*;
use vstd::string::*;
use crate::flags::Flags;
use crate::pattern::{class_accepts, regex_compiles, CharClass};

verus! {

/// What a buffer keeps of a character: its low byte.
pub open spec fn low_byte(ch: char) -> u8 {
    ch as u8
}

/// The low byte of a character.
pub fn byte_of(ch: char) -> (b: u8)
    ensures
        b == low_byte(ch),
{
    #[verifier::truncate]
    (ch as u8)
}

/// The first character of the uppercase mapping that `char::to_uppercase`
/// gives for `ch`.
pub uninterp spec fn upper_of(ch: char) -> char;

/// The first character of the lowercase mapping that `char::to_lowercase`
/// gives for `ch`.
pub uninterp spec fn lower_of(ch: char) -> char;

/// Calls `char::to_uppercase` and takes the first character it yields.
/// Trusted: the result is std's mapping; on ASCII that is the letter's
/// capital for `a` to `z` and the character itself otherwise.
#[verifier::external_body]
fn first_upper(ch: char) -> (r: char)
    ensures
        r == upper_of(ch),
        'a' <= ch <= 'z' ==> r as int == ch as int - 32,
        (ch as int) < 128 && !('a' <= ch <= 'z') ==> r == ch,
{
    ch.to_uppercase().next().unwrap_or(ch)
}

/// Calls `char::to_lowercase` and takes the first character it yields.
/// Trusted: the result is std's mapping; on ASCII that is the small letter
/// for `A` to `Z` and the character itself otherwise.
#[verifier::external_body]
fn first_lower(ch: char) -> (r: char)
    ensures
        r == lower_of(ch),
        'A' <= ch <= 'Z' ==> r as int == ch as int + 32,
        (ch as int) < 128 && !('A' <= ch <= 'Z') ==> r == ch,
{
    ch.to_lowercase().next().unwrap_or(ch)
}

/// A character after case mapping: to upper case first where that is asked
/// for, then to lower case where that is.
pub open spec fn case_mapped(upper: bool, lower: bool, ch: char) -> char {
    let c = if upper {
        upper_of(ch)
    } else {
        ch
    };
    if lower {
        lower_of(c)
    } else {
        c
    }
}

/// Applies the case mapping that the flags ask for.
pub fn map_case(flags: &Flags, ch: char) -> (mapped: char)
    ensures
        mapped == case_mapped(flags.upper, flags.lower, ch),
        !flags.upper && !flags.lower ==> mapped == ch,
        flags.upper && !flags.lower && 'a' <= ch <= 'z' ==> mapped as int == ch as int - 32,
        !flags.upper && flags.lower && 'A' <= ch <= 'Z' ==> mapped as int == ch as int + 32,
{
    let mut c = ch;
    if flags.upper {
        c = first_upper(c);
    }
    if flags.lower {
        c = first_lower(c);
    }
    c
}

/// The include and exclude classes of a read.
pub struct Filters {
    pub valid: Option<CharClass>,
    pub exclude: Option<CharClass>,
}

/// Whether a character gets past the filters: the include class, where one
/// is in force, must admit it, and the exclude class, where one is, must
/// not.
pub open spec fn filters_pass(flags: Flags, filters: Filters, ch: char) -> bool {
    &&& flags.check && filters.valid is Some ==> class_accepts(filters.valid.unwrap()@, ch)
    &&& flags.exclude && filters.exclude is Some ==> !class_accepts(filters.exclude.unwrap()@, ch)
}

impl Filters {
    /// No filter at all.
    pub fn none() -> (filters: Filters)
        ensures
            filters.valid is None,
            filters.exclude is None,
    {
        Filters { valid: None, exclude: None }
    }

    /// Whether `ch` gets past the filters that the flags put in force.
    pub fn pass(&self, flags: &Flags, ch: char) -> (ok: bool)
        ensures
            ok == filters_pass(*flags, *self, ch),
    {
        if flags.check {
            if let Some(class) = &self.valid {
                if !class.is_match(ch) {
                    return false;
                }
            }
        }
        if flags.exclude {
            if let Some(class) = &self.exclude {
                if class.is_match(ch) {
                    return false;
                }
            }
        }
        true
    }
}

/// Whether an option value is already a bracket expression.
pub open spec fn is_bracketed(value: Seq<char>) -> bool {
    value.len() > 0 && value.first() == '[' && value.last() == ']'
}

/// The pattern for a filter given as an option value: the value itself
/// where it is a bracket expression, else the value inside brackets, and
/// in both cases anchored at both ends.
pub open spec fn filter_pattern_text(value: Seq<char>) -> Seq<char> {
    if is_bracketed(value) {
        seq!['^'] + value + seq!['$']
    } else {
        seq!['^', '['] + value + seq![']', '$']
    }
}

/// Writes the pattern for a filter given as an option value.
pub fn filter_pattern(value: &str) -> (pattern: String)
    ensures
        pattern@ == filter_pattern_text(value@),
{
    let n = value.unicode_len();
    let bracketed = n > 0 && value.get_char(0) == '[' && value.get_char(n - 1) == ']';
    proof {
        reveal_strlit("^");
        reveal_strlit("^[");
        reveal_strlit("$");
        reveal_strlit("]$");
    }
    if bracketed {
        let p = String::from_str("^").concat(value).concat("$");
        assert(p@ =~= filter_pattern_text(value@));
        p
    } else {
        let p = String::from_str("^[").concat(value).concat("]$");
        assert(p@ =~= filter_pattern_text(value@));
        p
    }
}

/// Compiles the class for a filter given as an option value, or `None`
/// where the value does not make a regular expression.
pub fn filter_class(value: &str) -> (class: Option<CharClass>)
    ensures
        class is Some <==> regex_compiles(filter_pattern_text(value@)),
        class is Some ==> class.unwrap()@ == filter_pattern_text(value@),
{
    let pattern = filter_pattern(value);
    CharClass::compile(pattern.as_str())
}

} // verus!
