//! Option flags, and the cursor over command-line arguments that fills
//! them.

use vstd::prelude::*;
use vstd::string::*;

verus! {

/// How the select widget marks the option under the cursor.
#[derive(Clone, Copy, Debug, PartialEq, Eq, Structural)]
pub enum HighlightStyle {
    Reverse,
    Bracket,
    Arrow,
}

impl Default for HighlightStyle {
    fn default() -> (style: HighlightStyle)
        ensures
            style == HighlightStyle::Reverse,
    {
        HighlightStyle::Reverse
    }
}

/// The switches that shape a read.
pub struct Flags {
    /// Write the result to both output streams.
    pub both: bool,
    /// An include filter is in force.
    pub check: bool,
    /// An exclude filter is in force.
    pub exclude: bool,
    /// A default answer was given.
    pub dflt: bool,
    /// Discard pending input before reading.
    pub flush: bool,
    /// The return key ends the read.
    pub ret_key: bool,
    /// Show nothing while reading.
    pub silent: bool,
    /// Line editing: `None` leaves the choice to the number of characters
    /// asked for.
    pub erase: Option<bool>,
    /// Map input to lower case.
    pub lower: bool,
    /// Map input to upper case.
    pub upper: bool,
    /// End the display with a newline.
    pub trailing_newline: bool,
    pub highlight_style: HighlightStyle,
}

impl Flags {
    /// The flags of a plain read: everything off but the trailing newline.
    pub fn new() -> (flags: Flags)
        ensures
            !flags.both,
            !flags.check,
            !flags.exclude,
            !flags.dflt,
            !flags.flush,
            !flags.ret_key,
            !flags.silent,
            flags.erase is None,
            !flags.lower,
            !flags.upper,
            flags.trailing_newline,
            flags.highlight_style == HighlightStyle::Reverse,
    {
        Flags {
            both: false,
            check: false,
            exclude: false,
            dflt: false,
            flush: false,
            ret_key: false,
            silent: false,
            erase: None,
            lower: false,
            upper: false,
            trailing_newline: true,
            highlight_style: HighlightStyle::Reverse,
        }
    }

    /// Whether line editing is in force for a read of `how_many`
    /// characters: as chosen, else on for more than one character.
    pub fn erase_active(&self, how_many: usize) -> (on: bool)
        ensures
            on == match self.erase {
                Some(v) => v,
                None => how_many > 1,
            },
    {
        match self.erase {
            Some(v) => v,
            None => how_many > 1,
        }
    }
}

impl Default for Flags {
    /// Everything off, the trailing newline too.
    fn default() -> (flags: Flags)
        ensures
            !flags.both,
            !flags.check,
            !flags.exclude,
            !flags.dflt,
            !flags.flush,
            !flags.ret_key,
            !flags.silent,
            flags.erase is None,
            !flags.lower,
            !flags.upper,
            !flags.trailing_newline,
            flags.highlight_style == HighlightStyle::Reverse,
    {
        Flags {
            both: false,
            check: false,
            exclude: false,
            dflt: false,
            flush: false,
            ret_key: false,
            silent: false,
            erase: None,
            lower: false,
            upper: false,
            trailing_newline: false,
            highlight_style: HighlightStyle::Reverse,
        }
    }
}

/// A cursor over the words of a command line.
pub struct ArgParser {
    pub args: Vec<String>,
    pub pos: usize,
}

impl ArgParser {
    /// A cursor on the first word after the program's name.
    pub fn new(args: Vec<String>) -> (parser: ArgParser)
        ensures
            parser.args == args,
            parser.pos == 1,
    {
        ArgParser { args, pos: 1 }
    }

    /// The argument of an option: what is left of the current word where
    /// anything is, else the next word, on which the cursor then stands.
    /// `None` where the words have run out.
    pub fn get_optarg(&mut self, rest: &str) -> (arg: Option<String>)
        requires
            old(self).pos < usize::MAX,
        ensures
            final(self).args == old(self).args,
            rest@.len() > 0 ==> final(self).pos == old(self).pos && arg is Some && arg.unwrap()@
                == rest@,
            rest@.len() == 0 ==> final(self).pos == old(self).pos + 1,
            rest@.len() == 0 && old(self).pos + 1 < old(self).args.len() ==> arg is Some
                && arg.unwrap()@ == old(self).args[old(self).pos + 1]@,
            rest@.len() == 0 && old(self).pos + 1 >= old(self).args.len() ==> arg is None,
    {
        if rest.unicode_len() > 0 {
            Some(String::from_str(rest))
        } else {
            self.pos += 1;
            if self.pos < self.args.len() {
                Some(self.args[self.pos].clone())
            } else {
                None
            }
        }
    }
}

} // verus!
