//! From raw command-line tokens to the options of a search.

use vstd::prelude::*;

pub mod bytes;
pub mod errors;
pub mod filter;
pub mod flags;
pub mod grammar;
pub mod help;
pub mod matched;
pub mod parser;
pub mod query;
pub mod text;
pub mod theorems;

use crate::fs::filter::FileFilter;
use crate::options::errors::{OptionsError, OptionsFailure};
use crate::options::filter::{filter_accepted, filter_refusal};
use crate::options::grammar::parse_spec;
use crate::options::help::{HelpString, wants_help};
use crate::options::matched::{MatchedFlags, Matches, tokens_view};
use crate::options::parser::Strictness;

verus! {

/// The options of a search.
#[derive(Debug)]
pub struct Options {
    /// Which files are shown.
    pub filter: FileFilter,
}

/// What a command line comes to.
#[derive(Debug)]
pub enum OptionsResult<'args> {
    /// The options of a search, and the free arguments: where to search.
    Valid(Options, Vec<&'args [u8]>),
    /// The command line is refused.
    InvalidOptions(OptionsError),
    /// The usage text is asked for.
    Help(HelpString),
}

/// That `result` is what the command line `tokens` comes to. A command
/// line that does not parse is refused with the parse error. One that
/// holds the help flag asks for the usage text, whatever else it holds.
/// Otherwise the flags decide, a later occurrence of a flag overriding an
/// earlier one: the command line is refused with the failure that the
/// deduction of the filter ends in, or else the filter and the free
/// arguments are handed on.
pub open spec fn options_parsed(tokens: Seq<Seq<u8>>, result: OptionsResult<'_>) -> bool {
    match parse_spec(flags::all_args_spec(), tokens, Strictness::UseLastArgument) {
        Err(e) => result matches OptionsResult::InvalidOptions(x) && x@
            == OptionsFailure::ParseError(e),
        Ok(matches) => if wants_help(matches.flags) {
            result is Help
        } else {
            match filter_refusal(matches.flags) {
                Some(failure) => result matches OptionsResult::InvalidOptions(x) && x@ == failure,
                None => result matches OptionsResult::Valid(options, frees) && filter_accepted(
                    matches.flags,
                    options.filter,
                ) && tokens_view(frees@) == matches.frees,
            }
        },
    }
}

impl Options {
    /// Reads the command line of a search.
    pub fn parse<'args>(args: &[&'args [u8]]) -> (res: OptionsResult<'args>)
        ensures
            options_parsed(tokens_view(args@), res),
    {
        let Matches { flags, frees } = match flags::all_args().parse(
            args,
            Strictness::UseLastArgument,
        ) {
            Ok(matches) => matches,
            Err(e) => {
                return OptionsResult::InvalidOptions(OptionsError::ParseError(e));
            },
        };
        match HelpString::deduce(&flags) {
            Some(help) => {
                return OptionsResult::Help(help);
            },
            None => {},
        }
        match Self::deduce(&flags) {
            Ok(options) => OptionsResult::Valid(options, frees),
            Err(e) => OptionsResult::InvalidOptions(e),
        }
    }

    /// The options that the flags ask for.
    pub fn deduce(matches: &MatchedFlags<'_>) -> (res: Result<Options, OptionsError>)
        ensures
            match filter_refusal(matches@) {
                Some(failure) => res matches Err(e) && e@ == failure,
                None => res matches Ok(options) && filter_accepted(matches@, options.filter),
            },
    {
        match FileFilter::deduce(matches) {
            Ok(filter) => Ok(Options { filter }),
            Err(e) => Err(e),
        }
    }
}

} // verus!
