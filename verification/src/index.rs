//! The value stored under a name-index key: the child inode id.

use vstd::prelude::*;

verus! {

#[derive(Clone, Copy, Debug, PartialEq, Eq, Structural, Hash)]
pub struct Index {
    pub ino: u64,
}

impl Index {
    pub fn new(ino: u64) -> (r: Self)
        ensures
            r == (Index { ino }),
    {
        Index { ino }
    }
}

} // verus!
