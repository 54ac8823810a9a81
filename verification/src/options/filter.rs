//! From matched flags to the filters of a search.

use vstd::prelude::*;
use vstd::slice::slice_to_vec;
use vstd::utf8::{decode_utf8, valid_utf8};
use crate::fs::filter::{FileFilter, NameFilter, SizeFilter};
use crate::fs::pattern::{regex_compiles, regex_pattern};
use crate::fs::size::size_filter_spec;
use crate::options::bytes::text_of;
use crate::options::errors::{OptionsError, OptionsFailure};
use crate::options::flags;
use crate::options::matched::MatchedFlags;
use crate::options::parser::Strictness;
use crate::options::query::{
    MatchedFlagsView, count_spec, get_spec, has_spec, theorem_has_agrees_with_count,
};

verus! {

/// That `filter` is the name filter that the flags ask for: none without a
/// value for the name flag, else the regular expression that the value
/// spells, which must be valid UTF-8.
pub open spec fn name_accepted(view: MatchedFlagsView, filter: NameFilter) -> bool {
    match get_spec(view, flags::name_arg()) {
        Ok(None) => filter is Unfiltered,
        Ok(Some(value)) => filter matches NameFilter::Regex(compiled) && valid_utf8(value)
            && regex_pattern(&compiled) == decode_utf8(value),
        Err(_) => false,
    }
}

/// The failure that the name flag ends in, if it ends in one: that of the
/// query for its value, or its value being refused because it is not valid
/// UTF-8 or does not compile as a regular expression.
pub open spec fn name_refusal(view: MatchedFlagsView) -> Option<OptionsFailure> {
    match get_spec(view, flags::name_arg()) {
        Ok(None) => None,
        Ok(Some(value)) => if valid_utf8(value) && regex_compiles(decode_utf8(value)) {
            None
        } else {
            Some(OptionsFailure::BadArgument(flags::name_arg(), value))
        },
        Err(e) => Some(e),
    }
}

/// The size filter that the flags ask for: none without a value for the
/// size flag, else the one that the value spells. A value that names more
/// bytes than 64 bits hold is refused.
pub open spec fn size_deduced(view: MatchedFlagsView) -> Result<SizeFilter, OptionsFailure> {
    match get_spec(view, flags::size_arg()) {
        Ok(None) => Ok(SizeFilter::Unfiltered),
        Ok(Some(value)) => match size_filter_spec(value) {
            Some(filter) => Ok(filter),
            None => Err(OptionsFailure::BadArgument(flags::size_arg(), value)),
        },
        Err(e) => Err(e),
    }
}

/// What the flags alone decide of a file filter: whether only directories
/// are shown, whether directories are shown too, and the size filter. The
/// queries are made in this order, and the first failure is the result.
pub open spec fn switches(view: MatchedFlagsView) -> Result<(bool, bool, SizeFilter), OptionsFailure> {
    match has_spec(view, flags::only_dirs_arg()) {
        Err(e) => Err(e),
        Ok(only_dirs) => match has_spec(view, flags::include_dirs_arg()) {
            Err(e) => Err(e),
            Ok(include_dirs) => match size_deduced(view) {
                Err(e) => Err(e),
                Ok(size_filter) => Ok((only_dirs, include_dirs, size_filter)),
            },
        },
    }
}

/// That `filter` is the file filter that the flags ask for.
pub open spec fn filter_accepted(view: MatchedFlagsView, filter: FileFilter) -> bool {
    &&& switches(view) matches Ok((only_dirs, include_dirs, size_filter))
    &&& !(only_dirs && include_dirs)
    &&& filter.only_dirs == only_dirs
    &&& filter.include_dirs == include_dirs
    &&& filter.size_filter == size_filter
    &&& name_accepted(view, filter.name_filter)
}

/// The failure that the deduction of a file filter ends in, if it ends in
/// one: the first failure among the queries and the size, else that of the
/// name, else the conflict between the two flags on directories.
pub open spec fn filter_refusal(view: MatchedFlagsView) -> Option<OptionsFailure> {
    match switches(view) {
        Err(e) => Some(e),
        Ok((only_dirs, include_dirs, _)) => match name_refusal(view) {
            Some(failure) => Some(failure),
            None => if only_dirs && include_dirs {
                Some(
                    OptionsFailure::OptionsConflict(
                        flags::only_dirs_arg(),
                        flags::include_dirs_arg(),
                    ),
                )
            } else {
                None
            },
        },
    }
}

/// That `result` is what the deduction of a file filter comes to: the
/// failure that it ends in, or else the filter that the flags ask for.
pub open spec fn deduced(view: MatchedFlagsView, result: Result<FileFilter, OptionsError>) -> bool {
    match filter_refusal(view) {
        Some(failure) => result matches Err(e) && e@ == failure,
        None => result matches Ok(filter) && filter_accepted(view, filter),
    }
}

/// The two flags on directories exclude each other. Where both were given
/// and nothing else is at fault, the deduction fails with their conflict,
/// whatever else was given.
pub proof fn theorem_directory_flags_conflict(view: MatchedFlagsView)
    requires
        has_spec(view, flags::only_dirs_arg()) == Ok::<bool, OptionsFailure>(true),
        has_spec(view, flags::include_dirs_arg()) == Ok::<bool, OptionsFailure>(true),
        size_deduced(view) is Ok,
        name_refusal(view) is None,
    ensures
        filter_refusal(view) == Some(
            OptionsFailure::OptionsConflict(flags::only_dirs_arg(), flags::include_dirs_arg()),
        ),
{
}

/// Where each of the two flags on directories was given at least once, and
/// under `ForbidRedundant` once only, the size fits and the name compiles,
/// the deduction fails with their conflict. Under `UseLastArgument` no
/// query fails, so that a size that fits and a name that is valid UTF-8 and
/// compiles are all that is asked of the other flags.
pub proof fn theorem_directory_flags_given(view: MatchedFlagsView)
    requires
        count_spec(view, flags::only_dirs_arg()) >= 1,
        count_spec(view, flags::include_dirs_arg()) >= 1,
        view.strictness == Strictness::ForbidRedundant ==> count_spec(
            view,
            flags::only_dirs_arg(),
        ) == 1 && count_spec(view, flags::include_dirs_arg()) == 1,
        size_deduced(view) is Ok,
        name_refusal(view) is None,
    ensures
        filter_refusal(view) == Some(
            OptionsFailure::OptionsConflict(flags::only_dirs_arg(), flags::include_dirs_arg()),
        ),
        view.strictness == Strictness::UseLastArgument ==> get_spec(view, flags::name_arg())
            is Ok && get_spec(view, flags::size_arg()) is Ok,
{
    theorem_has_agrees_with_count(view, flags::only_dirs_arg());
    theorem_has_agrees_with_count(view, flags::include_dirs_arg());
}

impl NameFilter {
    /// The name filter for the value `raw` of the name flag, given what
    /// compiling it as a regular expression came to.
    pub fn from_compiled(raw: &[u8], compiled: Result<regex::Regex, regex::Error>) -> (res: Result<
        NameFilter,
        OptionsError,
    >)
        ensures
            match compiled {
                Ok(regex) => res matches Ok(NameFilter::Regex(kept)) && kept == regex,
                Err(_) => res matches Err(e) && e@ == OptionsFailure::BadArgument(
                    flags::name_arg(),
                    raw@,
                ),
            },
    {
        match compiled {
            Ok(regex) => Ok(NameFilter::Regex(regex)),
            Err(_) => Err(OptionsError::BadArgument(flags::name(), slice_to_vec(raw))),
        }
    }

    /// The name filter that the flags ask for. A value of the name flag that
    /// is not valid UTF-8 is refused, and so is one that does not compile
    /// as a regular expression; every other value gives its filter.
    pub fn deduce(matches: &MatchedFlags<'_>) -> (res: Result<NameFilter, OptionsError>)
        ensures
            match name_refusal(matches@) {
                Some(failure) => res matches Err(e) && e@ == failure,
                None => res matches Ok(filter) && name_accepted(matches@, filter),
            },
    {
        let value = match matches.get(&flags::name()) {
            Ok(value) => value,
            Err(e) => {
                return Err(e);
            },
        };
        match value {
            None => Ok(NameFilter::Unfiltered),
            Some(raw) => match text_of(raw) {
                Some(text) => {
                    proof {
                        vstd::utf8::encode_utf8_decode_utf8(text@);
                    }
                    Self::from_compiled(raw, regex::Regex::new(text))
                },
                None => Err(OptionsError::BadArgument(flags::name(), slice_to_vec(raw))),
            },
        }
    }
}

impl SizeFilter {
    /// The size filter that the flags ask for.
    pub fn deduce(matches: &MatchedFlags<'_>) -> (res: Result<SizeFilter, OptionsError>)
        ensures
            match size_deduced(matches@) {
                Ok(filter) => res matches Ok(found) && found == filter,
                Err(e) => res matches Err(x) && x@ == e,
            },
    {
        let value = match matches.get(&flags::size()) {
            Ok(value) => value,
            Err(e) => {
                return Err(e);
            },
        };
        match value {
            None => Ok(SizeFilter::Unfiltered),
            Some(raw) => match SizeFilter::from_bytes(raw) {
                Some(filter) => Ok(filter),
                None => Err(OptionsError::BadArgument(flags::size(), slice_to_vec(raw))),
            },
        }
    }
}

impl FileFilter {
    /// The file filter that the flags ask for. The two flags on
    /// directories exclude each other.
    pub fn deduce(matches: &MatchedFlags<'_>) -> (res: Result<FileFilter, OptionsError>)
        ensures
            deduced(matches@, res),
    {
        let only_dirs = match matches.has(&flags::only_dirs()) {
            Ok(given) => given,
            Err(e) => {
                return Err(e);
            },
        };
        let include_dirs = match matches.has(&flags::include_dirs()) {
            Ok(given) => given,
            Err(e) => {
                return Err(e);
            },
        };
        let size_filter = match SizeFilter::deduce(matches) {
            Ok(filter) => filter,
            Err(e) => {
                return Err(e);
            },
        };
        let name_filter = match NameFilter::deduce(matches) {
            Ok(filter) => filter,
            Err(e) => {
                return Err(e);
            },
        };
        if only_dirs && include_dirs {
            return Err(OptionsError::OptionsConflict(flags::only_dirs(), flags::include_dirs()));
        }
        Ok(FileFilter { only_dirs, include_dirs, size_filter, name_filter })
    }
}

} // verus!
