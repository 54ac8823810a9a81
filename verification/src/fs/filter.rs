//! The filters that decide which files a search shows.

use vstd::prelude::*;
use regex::Regex;
use crate::fs::file::File;
use crate::fs::pattern::regex_is_match;
pub use crate::fs::size::{ComparisonSign, FileSizeUnit, SizeFilter};

verus! {

/// A filter on the name of a file.
#[derive(Debug)]
pub enum NameFilter {
    /// Every name passes.
    Unfiltered,
    /// The regular expression must match somewhere in the name.
    Regex(Regex),
}

impl NameFilter {
    /// Whether a file called `name` passes the filter.
    pub open spec fn accepts(self, name: Seq<char>) -> bool {
        match self {
            NameFilter::Unfiltered => true,
            NameFilter::Regex(compiled) => regex_is_match(&compiled, name),
        }
    }

    /// Whether `file` passes the filter.
    pub fn match_file(&self, file: &File) -> (res: bool)
        ensures
            res == self.accepts(file.name@),
    {
        match self {
            NameFilter::Unfiltered => true,
            NameFilter::Regex(compiled) => compiled.is_match(file.name.as_str()),
        }
    }
}

impl Default for NameFilter {
    fn default() -> (res: Self)
        ensures
            res == NameFilter::Unfiltered,
    {
        NameFilter::Unfiltered
    }
}

impl From<Regex> for NameFilter {
    fn from(regex: Regex) -> (res: Self) {
        NameFilter::Regex(regex)
    }
}

impl vstd::std_specs::convert::FromSpecImpl<Regex> for NameFilter {
    open spec fn obeys_from_spec() -> bool {
        true
    }

    open spec fn from_spec(regex: Regex) -> Self {
        NameFilter::Regex(regex)
    }
}

impl From<Option<Regex>> for NameFilter {
    fn from(regex: Option<Regex>) -> (res: Self) {
        match regex {
            Some(value) => NameFilter::Regex(value),
            None => NameFilter::Unfiltered,
        }
    }
}

impl vstd::std_specs::convert::FromSpecImpl<Option<Regex>> for NameFilter {
    open spec fn obeys_from_spec() -> bool {
        true
    }

    open spec fn from_spec(regex: Option<Regex>) -> Self {
        match regex {
            Some(value) => NameFilter::Regex(value),
            None => NameFilter::Unfiltered,
        }
    }
}

/// What a file must be like to be shown.
#[derive(Debug)]
pub struct FileFilter {
    /// Only directories are shown.
    pub only_dirs: bool,
    /// Directories are shown too.
    pub include_dirs: bool,
    /// Only files of a fitting size are shown.
    pub size_filter: SizeFilter,
    /// Only files with a fitting name are shown.
    pub name_filter: NameFilter,
}

impl FileFilter {
    /// Whether a file that is called `name`, is a directory or not and has
    /// `size` bytes passes the filter. A directory passes only with
    /// `only_dirs` or `include_dirs`; with `only_dirs` nothing but a
    /// directory passes.
    pub open spec fn accepts(self, name: Seq<char>, is_directory: bool, size: u64) -> bool {
        &&& self.name_filter.accepts(name)
        &&& self.size_filter.accepts(size)
        &&& if is_directory {
            self.only_dirs || self.include_dirs
        } else {
            !self.only_dirs
        }
    }

    /// Whether `file` passes the filter.
    pub fn match_file(&self, file: &File) -> (res: bool)
        ensures
            res == self.accepts(file.name@, file.kind is Directory, file.size),
    {
        if !self.name_filter.match_file(file) {
            return false;
        }
        if file.is_directory() {
            if !self.only_dirs && !self.include_dirs {
                return false;
            }
        } else if self.only_dirs {
            return false;
        }
        if !self.size_filter.match_file(file) {
            return false;
        }
        true
    }
}

impl Default for FileFilter {
    fn default() -> (res: Self)
        ensures
            res == (FileFilter {
                only_dirs: false,
                include_dirs: false,
                size_filter: SizeFilter::Unfiltered,
                name_filter: NameFilter::Unfiltered,
            }),
    {
        FileFilter {
            only_dirs: false,
            include_dirs: false,
            size_filter: SizeFilter::Unfiltered,
            name_filter: NameFilter::Unfiltered,
        }
    }
}

} // verus!
