//! The inode record: file attributes, advisory-lock state, optional inline
//! payload, and the open-handle counters.

use vstd::prelude::*;
use crate::mode::FileType;

verus! {

/// Lock kinds, as the kernel encodes them in `fcntl` requests.
pub const F_RDLCK: i32 = 0;
pub const F_WRLCK: i32 = 1;
pub const F_UNLCK: i32 = 2;

/// A point in time: seconds and nanoseconds since the epoch.
#[derive(Clone, Copy, Debug, PartialEq, Eq, Structural)]
pub struct TimeSpec {
    pub sec: u64,
    pub nsec: u32,
}

/// The advisory-lock state held on one inode: the owners of the current
/// lock and its kind.
#[derive(Clone, Debug, PartialEq, Eq)]
pub struct LockState {
    pub owner_set: Vec<u64>,
    pub lk_type: i32,
}

impl LockState {
    /// The owners as a set; the vector carries no duplicates in any
    /// well-formed state.
    pub open spec fn owners(self) -> Set<u64> {
        self.owner_set@.to_set()
    }

    /// A lock state is well formed when its owner list has no duplicates
    /// and its kind matches its owner count: unlocked states have no
    /// owners, write locks exactly one, read locks at least one.
    pub open spec fn wf(self) -> bool {
        &&& self.owner_set@.no_duplicates()
        &&& (self.lk_type == F_RDLCK || self.lk_type == F_WRLCK || self.lk_type == F_UNLCK)
        &&& (self.lk_type == F_UNLCK ==> self.owner_set@.len() == 0)
        &&& (self.lk_type == F_WRLCK ==> self.owner_set@.len() == 1)
        &&& (self.lk_type == F_RDLCK ==> self.owner_set@.len() >= 1)
    }

    pub fn new(owner_set: Vec<u64>, lk_type: i32) -> (r: LockState)
        ensures
            r == (LockState { owner_set, lk_type }),
    {
        LockState { owner_set, lk_type }
    }

    /// Whether `owner` holds a share of this lock.
    pub fn contains_owner(&self, owner: u64) -> (r: bool)
        ensures
            r == self.owners().contains(owner),
    {
        let mut i: usize = 0;
        while i < self.owner_set.len()
            invariant
                i <= self.owner_set.len(),
                forall|j: int| 0 <= j < i ==> self.owner_set@[j] != owner,
            decreases self.owner_set.len() - i,
        {
            if self.owner_set[i] == owner {
                assert(self.owner_set@.contains(owner));
                return true;
            }
            i += 1;
        }
        assert(!self.owner_set@.contains(owner));
        false
    }

    /// Adds `owner` to the owner set if absent.
    pub fn insert_owner(&mut self, owner: u64)
        ensures
            final(self).lk_type == old(self).lk_type,
            final(self).owners() == old(self).owners().insert(owner),
            old(self).owner_set@.no_duplicates() ==> final(self).owner_set@.no_duplicates(),
            final(self).owner_set@.len() == if old(self).owners().contains(owner) {
                old(self).owner_set@.len() as int
            } else {
                old(self).owner_set@.len() + 1 as int
            },
    {
        if self.contains_owner(owner) {
            proof {
                assert(old(self).owners().insert(owner) =~= old(self).owners());
            }
        } else {
            self.owner_set.push(owner);
            proof {
                let pre = old(self).owner_set@;
                let post = self.owner_set@;
                assert(post == pre.push(owner));
                assert forall|x: u64| post.contains(x) implies (pre.contains(x) || x == owner) by {
                    let k = choose|k: int| 0 <= k < post.len() && post[k] == x;
                    if k < pre.len() {
                        assert(pre[k] == x);
                    }
                }
                assert forall|x: u64| pre.contains(x) implies post.contains(x) by {
                    let k = choose|k: int| 0 <= k < pre.len() && pre[k] == x;
                    assert(post[k] == x);
                }
                assert(post[pre.len() as int] == owner);
                assert(post.contains(owner));
                assert(self.owners() =~= old(self).owners().insert(owner));
                if pre.no_duplicates() {
                    assert forall|i: int, j: int|
                        0 <= i < post.len() && 0 <= j < post.len() && i != j implies post[i]
                        != post[j] by {
                        if i < pre.len() && j < pre.len() {
                        } else if j == pre.len() {
                            assert(post[j] == owner);
                            assert(!pre.contains(owner));
                            assert(pre[i] != owner);
                        } else {
                            assert(post[i] == owner);
                            assert(!pre.contains(owner));
                            assert(pre[j] != owner);
                        }
                    }
                }
            }
        }
    }

    /// Removes `owner` from the owner set if present.
    pub fn remove_owner(&mut self, owner: u64)
        requires
            old(self).owner_set@.no_duplicates(),
        ensures
            final(self).lk_type == old(self).lk_type,
            final(self).owners() == old(self).owners().remove(owner),
            final(self).owner_set@.no_duplicates(),
            final(self).owner_set@.len() == if old(self).owners().contains(owner) {
                old(self).owner_set@.len() - 1
            } else {
                old(self).owner_set@.len() as int
            },
    {
        let mut i: usize = 0;
        while i < self.owner_set.len()
            invariant
                i <= self.owner_set.len(),
                *self == *old(self),
                old(self).owner_set@.no_duplicates(),
                forall|j: int| 0 <= j < i ==> self.owner_set@[j] != owner,
            decreases self.owner_set.len() - i,
        {
            if self.owner_set[i] == owner {
                self.owner_set.remove(i);
                proof {
                    let pre = old(self).owner_set@;
                    let post = self.owner_set@;
                    assert(post == pre.remove(i as int));
                    pre.remove_ensures(i as int);
                    assert(pre[i as int] == owner);
                    assert(pre.contains(owner));
                    assert forall|x: u64| post.contains(x) implies (pre.contains(x) && x
                        != owner) by {
                        let k = choose|k: int| 0 <= k < post.len() && post[k] == x;
                        let k2: int = if k < i { k } else { k + 1 };
                        assert(pre[k2] == x);
                        assert(pre.contains(x));
                        assert(k2 != i);
                        if x == owner {
                            assert(pre[k2] == owner && pre[i as int] == owner);
                            assert(pre[k2] != pre[i as int]);
                            assert(false);
                        }
                    }
                    assert forall|x: u64| pre.contains(x) && x != owner implies post.contains(
                        x,
                    ) by {
                        let k = choose|k: int| 0 <= k < pre.len() && pre[k] == x;
                        if k < i {
                            assert(post[k] == x);
                        } else {
                            assert(k != i);
                            assert(post[k - 1] == x);
                        }
                    }
                    assert(self.owners() =~= old(self).owners().remove(owner));
                    assert forall|a: int, b: int|
                        0 <= a < post.len() && 0 <= b < post.len() && a != b implies post[a]
                        != post[b] by {
                        let a2: int = if a < i { a } else { a + 1 };
                        let b2: int = if b < i { b } else { b + 1 };
                        assert(post[a] == pre[a2] && post[b] == pre[b2]);
                        assert(a2 != b2);
                        assert(pre[a2] != pre[b2]);
                    }
                }
                return;
            }
            i += 1;
        }
        proof {
            assert(!old(self).owners().contains(owner));
            assert(self.owners() =~= old(self).owners().remove(owner));
        }
    }

    /// Empties the owner set.
    pub fn clear_owners(&mut self)
        ensures
            final(self).lk_type == old(self).lk_type,
            final(self).owners() == Set::<u64>::empty(),
            final(self).owner_set@.len() == 0,
            final(self).owner_set@.no_duplicates(),
    {
        self.owner_set.clear();
        proof {
            assert(self.owners() =~= Set::<u64>::empty());
        }
    }
}

/// The attributes of one inode, as replied to `getattr`.
#[derive(Clone, Copy, Debug, PartialEq, Eq, Structural)]
pub struct FileAttr {
    pub ino: u64,
    pub size: u64,
    pub blocks: u64,
    pub atime: TimeSpec,
    pub mtime: TimeSpec,
    pub ctime: TimeSpec,
    pub crtime: TimeSpec,
    pub kind: FileType,
    pub perm: u16,
    pub nlink: u32,
    pub uid: u32,
    pub gid: u32,
    pub rdev: u32,
    pub blksize: u32,
    pub flags: u32,
}

/// One inode record as persisted in the store.
#[derive(Clone, Debug, PartialEq, Eq)]
pub struct Inode {
    pub file_attr: FileAttr,
    pub lock_state: LockState,
    pub inline_data: Option<Vec<u8>>,
    pub next_fh: u64,
    pub opened_fh: u64,
}

/// `ceil(size / block_size)`: the block figure an inode must carry for a
/// given byte size.
pub open spec fn spec_blocks_for(size: u64, block_size: u64) -> int {
    (size + block_size - 1) / block_size as int
}

impl Inode {
    /// A fresh inode for the given attributes: unlocked, no inline data, no
    /// handles yet.
    pub fn from_attr(attr: FileAttr) -> (r: Inode)
        ensures
            r.file_attr == attr,
            r.lock_state.owner_set@ == Seq::<u64>::empty(),
            r.lock_state.lk_type == F_UNLCK,
            r.inline_data is None,
            r.next_fh == 0,
            r.opened_fh == 0,
    {
        Inode {
            file_attr: attr,
            lock_state: LockState { owner_set: Vec::new(), lk_type: F_UNLCK },
            inline_data: None,
            next_fh: 0,
            opened_fh: 0,
        }
    }

    /// Sets the byte size and recomputes the block figure from it.
    pub fn set_size(&mut self, size: u64, block_size: u64)
        requires
            block_size >= 1,
            size + block_size - 1 <= u64::MAX,
        ensures
            *final(self) == (Inode {
                file_attr: FileAttr {
                    size,
                    blocks: spec_blocks_for(size, block_size) as u64,
                    ..old(self).file_attr
                },
                ..*old(self)
            }),
            final(self).file_attr.blocks == spec_blocks_for(size, block_size),
    {
        self.file_attr.size = size;
        let nb: u64 = (size + (block_size - 1)) / block_size;
        self.file_attr.blocks = nb;
    }
}

} // verus!
