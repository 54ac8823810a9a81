//! Flags and their definitions as they are written on a command line, for
//! messages.

use vstd::prelude::*;
use crate::options::parser::{Arg, Flag};

verus! {

/// `String::push` appends one character to the end of a string.
pub assume_specification[ String::push ](string: &mut String, ch: char)
    ensures
        final(string)@ == old(string)@.push(ch),
;

/// `String::push_str` appends a text to the end of a string.
pub assume_specification[ String::push_str ](string: &mut String, text: &str)
    ensures
        final(string)@ == old(string)@ + text@,
;

impl Flag {
    /// The flag as it is written: `-` and the letter, or `--` and the name.
    pub open spec fn text(self) -> Seq<char> {
        match self {
            Flag::Short(short) => seq!['-', short as char],
            Flag::Long(long) => seq!['-', '-'] + long@,
        }
    }

    /// The flag as it is written.
    pub fn to_text(&self) -> (res: String)
        ensures
            res@ == self.text(),
    {
        let mut text = String::new();
        text.push('-');
        match self {
            Flag::Short(short) => {
                text.push(*short as char);
                assert(text@ =~= self.text());
            },
            Flag::Long(long) => {
                text.push('-');
                text.push_str(long);
                assert(text@ =~= self.text());
            },
        }
        text
    }
}

impl Arg {
    /// The definition as it is shown: the long form and, where there is
    /// one, the short form in brackets after it.
    pub open spec fn text(self) -> Seq<char> {
        match self.short {
            Some(short) => seq!['-', '-'] + self.long@ + seq![' ', '(', '-', short as char, ')'],
            None => seq!['-', '-'] + self.long@,
        }
    }

    /// The definition as it is shown.
    pub fn to_text(&self) -> (res: String)
        ensures
            res@ == self.text(),
    {
        let mut text = String::new();
        text.push('-');
        text.push('-');
        text.push_str(self.long);
        match self.short {
            Some(short) => {
                text.push(' ');
                text.push('(');
                text.push('-');
                text.push(short as char);
                text.push(')');
                assert(text@ =~= self.text());
            },
            None => {
                assert(text@ =~= self.text());
            },
        }
        text
    }
}

} // verus!
