//! Data blocks: fixed-size byte slices of a file's content.

use vstd::prelude::*;

verus! {

/// A block of zeros, as materialized for holes and for missing reads.
pub fn empty_block(block_size: u64) -> (r: Vec<u8>)
    requires
        block_size <= u32::MAX,
    ensures
        r@ == Seq::new(block_size as nat, |i: int| 0u8),
{
    let n = block_size as usize;
    let mut v: Vec<u8> = Vec::new();
    let mut i: usize = 0;
    while i < n
        invariant
            i <= n,
            v@ == Seq::new(i as nat, |j: int| 0u8),
        decreases n - i,
    {
        v.push(0);
        proof {
            assert(v@ =~= Seq::new((i + 1) as nat, |j: int| 0u8));
        }
        i += 1;
    }
    v
}

} // verus!
