//! What can go wrong between the command line and the options.

use vstd::prelude::*;
use crate::options::parser::{Arg, Flag, ShortArg, Values};

verus! {

/// Errors that can occur when parsing flags.
#[derive(Debug, PartialEq)]
pub enum ParseError {
    /// A flag that needs a value was not given one.
    NeedsValue { flag: Flag, values: Option<Values> },
    /// A flag that cannot take a value was given one.
    ForbiddenValue { flag: Flag },
    /// A short flag that is not defined.
    UnknownShortArgument { byte: ShortArg },
    /// A long flag that is not defined.
    UnknownArgument { name: Vec<u8> },
}

/// A parse error as a mathematical value.
pub enum ParseFailure {
    NeedsValue { flag: Flag, values: Option<Values> },
    ForbiddenValue { flag: Flag },
    UnknownShortArgument { byte: ShortArg },
    UnknownArgument { name: Seq<u8> },
}

impl View for ParseError {
    type V = ParseFailure;

    open spec fn view(&self) -> ParseFailure {
        match *self {
            ParseError::NeedsValue { flag, values } => ParseFailure::NeedsValue { flag, values },
            ParseError::ForbiddenValue { flag } => ParseFailure::ForbiddenValue { flag },
            ParseError::UnknownShortArgument { byte } => ParseFailure::UnknownShortArgument { byte },
            ParseError::UnknownArgument { name } => ParseFailure::UnknownArgument { name: name@ },
        }
    }
}

/// Errors that can occur when turning matched flags into options.
#[derive(Debug, PartialEq)]
pub enum OptionsError {
    /// A flag was given twice where that is forbidden.
    Duplicate(Flag, Flag),
    /// The value given to a flag cannot be used.
    BadArgument(Arg, Vec<u8>),
    /// A flag needs a value and has none.
    ArgumentNeedsValue(Arg),
    /// The command line could not be parsed.
    ParseError(ParseError),
    /// Two flags were given that exclude each other.
    OptionsConflict(Arg, Arg),
}

/// An options error as a mathematical value.
pub enum OptionsFailure {
    Duplicate(Flag, Flag),
    BadArgument(Arg, Seq<u8>),
    ArgumentNeedsValue(Arg),
    ParseError(ParseFailure),
    OptionsConflict(Arg, Arg),
}

impl View for OptionsError {
    type V = OptionsFailure;

    open spec fn view(&self) -> OptionsFailure {
        match *self {
            OptionsError::Duplicate(first, second) => OptionsFailure::Duplicate(first, second),
            OptionsError::BadArgument(arg, value) => OptionsFailure::BadArgument(arg, value@),
            OptionsError::ArgumentNeedsValue(arg) => OptionsFailure::ArgumentNeedsValue(arg),
            OptionsError::ParseError(e) => OptionsFailure::ParseError(e@),
            OptionsError::OptionsConflict(first, second) => OptionsFailure::OptionsConflict(first, second),
        }
    }
}

} // verus!
