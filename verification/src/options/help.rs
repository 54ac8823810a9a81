//! The usage text, and when it is shown.

use vstd::prelude::*;
use crate::options::flags;
use crate::options::matched::MatchedFlags;
use crate::options::query::{MatchedFlagsView, count_spec};

verus! {

/// The usage text.
pub const USAGE: &'static str = "Usage: \n    search [options] [directories...]\n\nMETA OPTIONS\n    -h, --help          show this!\n    -v, --version       show the version of search\n\nFILTERING OPTIONS\n    -n, --name          filter the files by name\n    -s, --size          filter the files by size\n    --include-dirs      include the directories in the search\n    --only-dirs         only search in the directories\n";

/// The usage text is asked for.
#[derive(Debug, Clone, Copy, PartialEq, Eq)]
pub struct HelpString;

/// Whether the usage text is asked for: whether the help flag was given at
/// all.
pub open spec fn wants_help(view: MatchedFlagsView) -> bool {
    count_spec(view, flags::help_arg()) > 0
}

impl HelpString {
    /// The usage text is due as soon as the help flag was given, however
    /// often.
    pub fn deduce(matches: &MatchedFlags<'_>) -> (res: Option<Self>)
        ensures
            res is Some == wants_help(matches@),
    {
        if matches.count(&flags::help()) > 0 {
            Some(HelpString)
        } else {
            None
        }
    }

    /// The usage text.
    pub fn text(&self) -> (res: &'static str)
        ensures
            res == USAGE,
    {
        USAGE
    }
}

} // verus!
