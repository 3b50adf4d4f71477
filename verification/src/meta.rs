//! The store's singleton meta record: the inode allocator, the block size
//! fixed at first mount, and the cached statfs figures.

use vstd::prelude::*;
use crate::key::ROOT_INODE;
use crate::reply::StatFs;

verus! {

#[derive(Clone, Copy, Debug, PartialEq, Eq, Structural)]
pub struct Meta {
    pub inode_next: u64,
    pub block_size: u64,
    pub last_stat: Option<StatFs>,
}

impl Meta {
    pub fn new(block_size: u64) -> (r: Self)
        ensures
            r == (Meta { inode_next: ROOT_INODE, block_size, last_stat: None }),
    {
        Meta { inode_next: ROOT_INODE, block_size, last_stat: None }
    }
}

} // verus!
