//! Plain facts about a file that filters read.

use vstd::prelude::*;

verus! {

/// The kind of a file system entry.
#[derive(PartialEq, Eq, PartialOrd, Ord, Copy, Clone, Debug)]
pub enum Type {
    Directory,
    File,
    Link,
    Pipe,
    Socket,
    CharDevice,
    BlockDevice,
    Special,
}

impl Type {
    /// Whether this is an ordinary file, as opposed to a directory, a link
    /// or a device.
    pub fn is_regular_file(self) -> (res: bool)
        ensures
            res == (self is File),
    {
        matches!(self, Type::File)
    }
}

} // verus!
