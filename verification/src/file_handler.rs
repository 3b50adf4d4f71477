//! Per-open-file state: the cursor a handle carries between calls.

use vstd::prelude::*;

verus! {

#[derive(Clone, Copy, Debug, PartialEq, Eq, Structural, Hash)]
pub struct FileHandler {
    pub cursor: u64,
}

impl FileHandler {
    pub fn new(cursor: u64) -> (r: Self)
        ensures
            r == (FileHandler { cursor }),
    {
        FileHandler { cursor }
    }
}

impl Default for FileHandler {
    fn default() -> (r: Self)
        ensures
            r == (FileHandler { cursor: 0 }),
    {
        FileHandler { cursor: 0 }
    }
}

} // verus!
