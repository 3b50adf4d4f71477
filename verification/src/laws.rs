//! The engine's cross-cutting guarantees, stated on their own: what the
//! well-formedness invariant promises at every commit, and how the
//! operations' contracts compose.

use vstd::prelude::*;
use crate::inode::{F_RDLCK, F_UNLCK, F_WRLCK};
use crate::reply::DirItem;
use crate::store::{dir_has_entry, dir_has_name, dir_names_unique, Store};
use crate::transaction::read_slice;

verus! {

/// Every name-index entry has exactly one directory item of that name in
/// its parent, and the item names the same inode: the index and the
/// directories never drift apart in a well-formed store.
pub proof fn law_index_dir_agree(s: Store, bs: u64, parent: u64, name: Seq<u8>)
    requires
        s.wf(bs),
        s.index@.contains_key((parent, name)),
    ensures
        s.dirs@.contains_key(parent),
        dir_has_entry(s.dirs@[parent]@, name, s.index@[(parent, name)]),
        dir_names_unique(s.dirs@[parent]@),
        s.inodes@.contains_key(s.index@[(parent, name)]),
{
}

/// Every inode's block figure is exactly `ceil(size / block_size)` in a
/// well-formed store — the figure every operation re-establishes before
/// its transaction commits.
pub proof fn law_size_blocks_coherent(s: Store, bs: u64, ino: u64)
    requires
        s.wf(bs),
        s.inodes@.contains_key(ino),
    ensures
        s.inodes@[ino].file_attr.blocks == crate::inode::spec_blocks_for(
            s.inodes@[ino].file_attr.size,
            bs,
        ),
{
    assert(s.wf_inode_at(bs, ino));
}

/// Bytes just written read back verbatim: a write's contract pins every
/// byte of the written range, so a read over that range returns exactly
/// the data written.
pub proof fn law_write_then_read(post: Store, bs: u64, ino: u64, start: int, data: Seq<u8>)
    requires
        forall|i: int|
            start <= i < start + data.len() ==> #[trigger] post.file_byte(bs, ino, i) == data[i
                - start],
    ensures
        read_slice(post, bs, ino, start, data.len() as int) == data,
{
    assert(read_slice(post, bs, ino, start, data.len() as int) =~= data);
}

/// A byte whose covering block is absent reads as zero on a file without
/// inline data: sparse gaps stay zeros.
pub proof fn law_hole_reads_zero(s: Store, bs: u64, ino: u64, i: int)
    requires
        bs >= 1,
        0 <= i,
        s.inodes@.contains_key(ino),
        s.inodes@[ino].inline_data is None,
        i / bs as int <= u64::MAX ==> !s.blocks@.contains_key((ino, (i / bs as int) as u64)),
    ensures
        s.file_byte(bs, ino, i) == 0,
{
    let b = i / bs as int;
    assert(0 <= b) by (nonlinear_arith)
        requires bs >= 1 && 0 <= i && b == i / bs as int;
}

/// Creating and at once removing a directory restores its parent: the
/// created item is the only one carrying the new name, so removing that
/// name takes out exactly the appended item.
pub proof fn law_mkdir_rmdir_restores_items(d0: Seq<DirItem>, item: DirItem, pos: int)
    requires
        !dir_has_name(d0, item.name@),
        0 <= pos < d0.push(item).len(),
        d0.push(item)[pos].name@ == item.name@,
    ensures
        d0.push(item).remove(pos) == d0,
{
    let d1 = d0.push(item);
    if pos < d0.len() {
        assert(d0[pos].name@ == item.name@);
        assert(dir_has_name(d0, item.name@));
    }
    assert(pos == d0.len());
    assert(d1.remove(pos) =~= d0);
}

/// Creating and at once removing a name restores the index: inserting a
/// fresh key and removing it again is the identity.
pub proof fn law_mkdir_rmdir_restores_index(
    m: Map<(u64, Seq<u8>), u64>,
    key: (u64, Seq<u8>),
    ino: u64,
)
    requires
        !m.contains_key(key),
    ensures
        m.insert(key, ino).remove(key) == m,
{
    assert(m.insert(key, ino).remove(key) =~= m);
}

/// A live handle always has its inode: while any handle stays open, the
/// inode record persists — it is erased only when its link count and its
/// open-handle count are both zero, which `save_inode` alone decides.
pub proof fn law_live_handle_has_inode(s: Store, bs: u64, ino: u64, fh: u64)
    requires
        s.wf(bs),
        s.handlers@.contains_key((ino, fh)),
    ensures
        s.inodes@.contains_key(ino),
        s.inodes@[ino].opened_fh >= 1,
{
    assert(s.wf_inode_at(bs, ino));
    crate::store::lemma_alist_exists_entry(s.handlers.entries@, (ino, fh));
    let j = choose|j: int|
        0 <= j < s.handlers.entries@.len() && (#[trigger] s.handlers.entries@[j]).0 == (
            ino,
            fh,
        );
    crate::store::lemma_count_fst_at(s.handlers.entries@, j);
}

/// No two incompatible lock states coexist on one inode: in a well-formed
/// store a lock is unlocked with no owners, read-held by at least one
/// owner, or write-held by exactly one.
pub proof fn law_lock_states_coherent(s: Store, bs: u64, ino: u64)
    requires
        s.wf(bs),
        s.inodes@.contains_key(ino),
    ensures
        s.inodes@[ino].lock_state.lk_type == F_UNLCK || s.inodes@[ino].lock_state.lk_type
            == F_RDLCK || s.inodes@[ino].lock_state.lk_type == F_WRLCK,
        s.inodes@[ino].lock_state.lk_type == F_UNLCK ==> s.inodes@[ino].lock_state.owners().len()
            == 0,
        s.inodes@[ino].lock_state.lk_type == F_WRLCK ==> s.inodes@[ino].lock_state.owners().len()
            == 1,
        s.inodes@[ino].lock_state.lk_type == F_RDLCK ==> s.inodes@[ino].lock_state.owners().len()
            >= 1,
{
    assert(s.wf_inode_at(bs, ino));
    s.inodes@[ino].lock_state.owner_set@.unique_seq_to_set();
}

} // verus!
