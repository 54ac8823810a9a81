//! A file as the filters see it.

use vstd::prelude::*;
use crate::fs::fields::Type;

verus! {

/// What a filter reads of a file: its name, its kind and its size.
#[derive(Debug, PartialEq, Eq)]
pub struct File {
    /// The last component of the file's path.
    pub name: String,
    /// What kind of file system entry this is.
    pub kind: Type,
    /// The size in bytes.
    pub size: u64,
}

impl File {
    /// Whether the file is a directory.
    pub fn is_directory(&self) -> (res: bool)
        ensures
            res == (self.kind is Directory),
    {
        matches!(self.kind, Type::Directory)
    }

    /// Whether the file is an ordinary file.
    pub fn is_file(&self) -> (res: bool)
        ensures
            res == (self.kind is File),
    {
        self.kind.is_regular_file()
    }

    /// The size of the file in bytes.
    pub fn get_size(&self) -> (res: u64)
        ensures
            res == self.size,
    {
        self.size
    }
}

} // verus!
