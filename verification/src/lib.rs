//! Command-line option parsing and filter deduction for a file search tool.
//!
//! A command line is a sequence of byte strings. [`options::parser::Args`]
//! reads it by a registry of flag definitions and hands out the flags that
//! it held, with their values, and the free arguments. The queries of
//! [`options::matched::MatchedFlags`] say whether a flag was given and with
//! which value, and the deductions in [`options::filter`] turn the answers
//! into the filters of [`fs::filter`], which say of a file whether it is to
//! be shown.
//!
//! What each function returns is stated over mathematical models of the
//! data: [`options::grammar`] holds the meaning of a command line,
//! [`options::query`] that of the queries, and [`fs::size`] that of size
//! expressions. [`options::theorems`] holds what follows for every command
//! line.

pub mod fs;
pub mod options;
