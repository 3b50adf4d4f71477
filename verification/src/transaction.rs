//! The transactional primitives: every engine mutation runs as one of
//! these operations over a `Store` snapshot, and either applies whole or
//! reports an error with the snapshot untouched — the shape a transaction
//! rollback gives the real store.

use vstd::prelude::*;
use crate::dir::Directory;
use crate::error::FsError;
use crate::file_handler::FileHandler;
use crate::inode::{spec_blocks_for, FileAttr, Inode, TimeSpec, F_UNLCK};
use crate::key::ROOT_INODE;
use crate::meta::Meta;
use crate::mode::{as_file_kind, as_file_perm, spec_file_kind, spec_file_perm, FileType};
use crate::reply::{DirItem, StatFs};
use crate::serialize::enc_dir;
use crate::store::{
    count_fst, count_links, dir_has_entry, dir_has_name, dir_names_unique,
    lemma_alist_exists_entry, lemma_count_fst_at, lemma_count_fst_le_len, lemma_count_fst_none,
    lemma_count_fst_zero, lemma_count_links_at, lemma_count_links_le_len, lemma_count_links_none,
    lemma_count_links_zero, Store,
};

verus! {

/// The number of inline-eligible bytes per block: `block_size / 16`.
pub const INLINE_DATA_THRESHOLD_BASE: u64 = 16;

/// One transaction over the store: the snapshot and the mount's
/// configuration.
pub struct Txn {
    pub kv: Store,
    pub block_size: u64,
    pub max_blocks: Option<u64>,
    pub max_name_len: u32,
}

impl Txn {
    /// What every operation preserves: the snapshot's well-formedness
    /// under this mount's block size.
    pub open spec fn wf(self) -> bool {
        &&& self.kv.wf(self.block_size)
        &&& 1 <= self.block_size <= u32::MAX
    }

    /// Starts a transaction over a snapshot, with the mount's block size,
    /// optional size cap, and name-length cap.
    pub fn begin_optimistic(
        store: Store,
        block_size: u64,
        max_size: Option<u64>,
        max_name_len: u32,
    ) -> (r: Txn)
        requires
            1 <= block_size <= u32::MAX,
        ensures
            r.kv == store,
            r.block_size == block_size,
            r.max_name_len == max_name_len,
            r.max_blocks == match max_size {
                Some(s) => Some(s / block_size),
                None => None::<u64>,
            },
    {
        let max_blocks = match max_size {
            Some(s) => Some(s / block_size),
            None => None,
        };
        Txn { kv: store, block_size, max_blocks, max_name_len }
    }

    /// Ends the transaction, handing the snapshot back for commit.
    pub fn commit(self) -> (r: Store)
        ensures
            r == self.kv,
    {
        self.kv
    }

    pub fn block_size(&self) -> (r: u64)
        ensures
            r == self.block_size,
    {
        self.block_size
    }

    pub fn inline_data_threshold(&self) -> (r: u64)
        requires
            self.block_size >= 1,
        ensures
            r == self.block_size / INLINE_DATA_THRESHOLD_BASE,
    {
        self.block_size / INLINE_DATA_THRESHOLD_BASE
    }

    /// Fails with `NoSpaceLeft` exactly when the cached statfs reports no
    /// block available.
    pub fn check_space_left(&self, meta: &Meta) -> (r: Result<(), FsError>)
        ensures
            match r {
                Ok(()) => !spec_space_exhausted(*meta),
                Err(e) => spec_space_exhausted(*meta) && e is NoSpaceLeft,
            },
    {
        match &meta.last_stat {
            Some(stat) if stat.bavail == 0 => {
                let bs64 = stat.bsize as u64;
                let cap: u64 = if bs64 == 0 {
                    0
                } else if stat.blocks <= u64::MAX / bs64 {
                    proof {
                        assert(stat.blocks * bs64 <= u64::MAX) by (nonlinear_arith)
                            requires
                                bs64 >= 1,
                                stat.blocks <= u64::MAX / bs64,
                        ;
                    }
                    bs64 * stat.blocks
                } else {
                    u64::MAX
                };
                Err(FsError::NoSpaceLeft(cap))
            }
            _ => Ok(()),
        }
    }

    pub fn read_meta(&self) -> (r: Result<Option<Meta>, FsError>)
        ensures
            r matches Ok(m) && m == self.kv.meta,
    {
        Ok(self.kv.meta)
    }

    pub fn save_meta(&mut self, meta: &Meta) -> (r: Result<(), FsError>)
        ensures
            r is Ok,
            final(self).kv == (Store { meta: Some(*meta), ..old(self).kv }),
            final(self).block_size == old(self).block_size,
            final(self).max_blocks == old(self).max_blocks,
            final(self).max_name_len == old(self).max_name_len,
    {
        self.kv.meta = Some(*meta);
        Ok(())
    }

    pub fn read_inode(&self, ino: u64) -> (r: Result<&Inode, FsError>)
        requires
            self.kv.inodes.wf(),
        ensures
            match r {
                Ok(v) => self.kv.inode_of(ino) == Some(*v),
                Err(e) => self.kv.inode_of(ino) is None && e == (FsError::InodeNotFound {
                    inode: ino,
                }),
            },
    {
        match self.kv.inodes.get(ino) {
            Some(v) => Ok(v),
            None => Err(FsError::InodeNotFound { inode: ino }),
        }
    }

    /// Writes an inode back — unless both its link count and its open
    /// handle count reached zero, in which case the record is deleted.
    pub fn save_inode(&mut self, inode: Inode) -> (r: Result<(), FsError>)
        requires
            old(self).kv.inodes.wf(),
        ensures
            r is Ok,
            final(self).kv == (Store {
                inodes: final(self).kv.inodes,
                ..old(self).kv
            }),
            final(self).kv.inodes.wf(),
            final(self).kv.inodes@ == if inode.file_attr.nlink == 0 && inode.opened_fh == 0 {
                old(self).kv.inodes@.remove(inode.file_attr.ino)
            } else {
                old(self).kv.inodes@.insert(inode.file_attr.ino, inode)
            },
            final(self).block_size == old(self).block_size,
            final(self).max_blocks == old(self).max_blocks,
            final(self).max_name_len == old(self).max_name_len,
    {
        if inode.file_attr.nlink == 0 && inode.opened_fh == 0 {
            self.kv.inodes.remove(inode.file_attr.ino);
        } else {
            let ino = inode.file_attr.ino;
            self.kv.inodes.insert(ino, inode);
        }
        Ok(())
    }

    pub fn remove_inode(&mut self, ino: u64) -> (r: Result<(), FsError>)
        requires
            old(self).kv.inodes.wf(),
        ensures
            r is Ok,
            final(self).kv == (Store {
                inodes: final(self).kv.inodes,
                ..old(self).kv
            }),
            final(self).kv.inodes.wf(),
            final(self).kv.inodes@ == old(self).kv.inodes@.remove(ino),
            final(self).block_size == old(self).block_size,
            final(self).max_blocks == old(self).max_blocks,
            final(self).max_name_len == old(self).max_name_len,
    {
        self.kv.inodes.remove(ino);
        Ok(())
    }

    pub fn get_index(&self, parent: u64, name: &Vec<u8>) -> (r: Result<Option<u64>, FsError>)
        requires
            self.kv.index.wf(),
        ensures
            r matches Ok(v) && v == self.kv.index_of(parent, name@),
    {
        Ok(self.kv.index.get(parent, name))
    }

    pub fn set_index(&mut self, parent: u64, name: Vec<u8>, ino: u64) -> (r: Result<(), FsError>)
        requires
            old(self).kv.index.wf(),
        ensures
            r is Ok,
            final(self).kv == (Store {
                index: final(self).kv.index,
                ..old(self).kv
            }),
            final(self).kv.index.wf(),
            final(self).kv.index@ == old(self).kv.index@.insert((parent, name@), ino),
            forall|x: u64|
                count_links(final(self).kv.index.entries@, x) == count_links(
                    old(self).kv.index.entries@,
                    x,
                ) - (if old(self).kv.index@.contains_key((parent, name@)) && old(
                    self,
                ).kv.index@[(parent, name@)] == x {
                    1int
                } else {
                    0int
                }) + (if x == ino {
                    1int
                } else {
                    0int
                }),
            final(self).block_size == old(self).block_size,
            final(self).max_blocks == old(self).max_blocks,
            final(self).max_name_len == old(self).max_name_len,
    {
        self.kv.index.insert(parent, name, ino);
        Ok(())
    }

    pub fn remove_index(&mut self, parent: u64, name: &Vec<u8>) -> (r: Result<(), FsError>)
        requires
            old(self).kv.index.wf(),
        ensures
            r is Ok,
            final(self).kv == (Store {
                index: final(self).kv.index,
                ..old(self).kv
            }),
            final(self).kv.index.wf(),
            final(self).kv.index@ == old(self).kv.index@.remove((parent, name@)),
            forall|x: u64|
                count_links(final(self).kv.index.entries@, x) == count_links(
                    old(self).kv.index.entries@,
                    x,
                ) - (if old(self).kv.index@.contains_key((parent, name@)) && old(
                    self,
                ).kv.index@[(parent, name@)] == x {
                    1int
                } else {
                    0int
                }),
            final(self).block_size == old(self).block_size,
            final(self).max_blocks == old(self).max_blocks,
            final(self).max_name_len == old(self).max_name_len,
    {
        self.kv.index.remove(parent, name);
        Ok(())
    }

    /// Resolves a name in a directory through the authoritative index.
    pub fn lookup(&self, parent: u64, name: &Vec<u8>) -> (r: Result<u64, FsError>)
        requires
            self.kv.index.wf(),
        ensures
            match r {
                Ok(ino) => self.kv.index_of(parent, name@) == Some(ino),
                Err(e) => self.kv.index_of(parent, name@) is None && e == (FsError::FileNotFound {
                    file: spec_err_name(e),
                }) && spec_err_name(e)@ == name@,
            },
    {
        match self.kv.index.get(parent, name) {
            Some(ino) => Ok(ino),
            None => Err(FsError::FileNotFound { file: copy_bytes_vec(name) }),
        }
    }

    pub fn read_dir(&self, ino: u64) -> (r: Result<&Directory, FsError>)
        requires
            self.kv.dirs.wf(),
        ensures
            match r {
                Ok(d) => self.kv.dir_of(ino) == Some(d@),
                Err(e) => self.kv.dir_of(ino) is None && e == (FsError::BlockNotFound {
                    inode: ino,
                    block: 0,
                }),
            },
    {
        match self.kv.dirs.get(ino) {
            Some(d) => Ok(d),
            None => Err(FsError::BlockNotFound { inode: ino, block: 0 }),
        }
    }

    pub fn read_fh(&self, ino: u64, fh: u64) -> (r: Result<FileHandler, FsError>)
        requires
            self.kv.handlers.wf(),
        ensures
            match r {
                Ok(h) => self.kv.handler_of(ino, fh) == Some(h),
                Err(e) => self.kv.handler_of(ino, fh) is None && e == (FsError::FhNotFound {
                    ino,
                    fh,
                }),
            },
    {
        match self.kv.handlers.get((ino, fh)) {
            Some(h) => Ok(*h),
            None => Err(FsError::FhNotFound { ino, fh }),
        }
    }

    pub fn save_fh(&mut self, ino: u64, fh: u64, handler: &FileHandler) -> (r: Result<
        (),
        FsError,
    >)
        requires
            old(self).kv.handlers.wf(),
        ensures
            r is Ok,
            final(self).kv == (Store {
                handlers: final(self).kv.handlers,
                ..old(self).kv
            }),
            final(self).kv.handlers.wf(),
            final(self).kv.handlers@ == old(self).kv.handlers@.insert((ino, fh), *handler),
            forall|x: u64|
                count_fst(final(self).kv.handlers.entries@, x) == count_fst(
                    old(self).kv.handlers.entries@,
                    x,
                ) - (if old(self).kv.handlers@.contains_key((ino, fh)) && ino == x {
                    1int
                } else {
                    0int
                }) + (if ino == x {
                    1int
                } else {
                    0int
                }),
            final(self).block_size == old(self).block_size,
            final(self).max_blocks == old(self).max_blocks,
            final(self).max_name_len == old(self).max_name_len,
    {
        self.kv.handlers.insert((ino, fh), *handler);
        Ok(())
    }
}

impl Txn {
    /// Allocates a handle on an inode: the handle gets the next id, a
    /// zero cursor, and the inode's open count rises by one.
    pub fn open(&mut self, ino: u64) -> (r: Result<u64, FsError>)
        requires
            old(self).wf(),
            old(self).kv.inode_of(ino) matches Some(i) ==> i.next_fh < u64::MAX
                && i.opened_fh < u64::MAX,
        ensures
            final(self).wf(),
            final(self).block_size == old(self).block_size,
            final(self).max_blocks == old(self).max_blocks,
            final(self).max_name_len == old(self).max_name_len,
            match r {
                Ok(fh) => {
                    &&& old(self).kv.inode_of(ino) matches Some(i) && fh == i.next_fh
                        && final(self).kv.inodes@ == old(self).kv.inodes@.insert(
                        ino,
                        Inode { next_fh: (i.next_fh + 1) as u64, opened_fh: (i.opened_fh
                            + 1) as u64, ..i },
                    )
                    &&& final(self).kv.handlers@ == old(self).kv.handlers@.insert(
                        (ino, fh),
                        FileHandler { cursor: 0 },
                    )
                    &&& final(self).kv.meta == old(self).kv.meta
                    &&& final(self).kv.dirs == old(self).kv.dirs
                    &&& final(self).kv.blocks == old(self).kv.blocks
                    &&& final(self).kv.index == old(self).kv.index
                },
                Err(e) => *final(self) == *old(self) && old(self).kv.inode_of(ino) is None && e
                    == (FsError::InodeNotFound { inode: ino }),
            },
    {
        let inode = match self.kv.inodes.take(ino) {
            Some(v) => v,
            None => {
                return Err(FsError::InodeNotFound { inode: ino });
            }
        };
        let fh = inode.next_fh;
        proof {
            lemma_count_fst_le_len(self.kv.handlers.entries@, ino);
            assert(self.kv.handlers@.contains_key((ino, fh)) ==> false) by {
                if self.kv.handlers@.contains_key((ino, fh)) {
                    assert(old(self).kv.handlers@.contains_key((ino, fh)));
                }
            }
        }
        self.kv.handlers.insert((ino, fh), FileHandler::new(0));
        let new_inode = Inode {
            next_fh: fh + 1,
            opened_fh: inode.opened_fh + 1,
            ..inode
        };
        self.kv.inodes.insert(ino, new_inode);
        proof {
            let pre = old(self).kv;
            let post = self.kv;
            let i0 = pre.inodes@[ino];
            assert(pre.inodes@.remove(ino).insert(ino, new_inode) =~= pre.inodes@.insert(
                ino,
                new_inode,
            ));
            assert(pre.wf_inode_at(self.block_size, ino));
            assert(count_fst(post.handlers.entries@, ino) == count_fst(pre.handlers.entries@, ino)
                + 1);
            assert forall|x: u64| post.inodes@.contains_key(x) implies
                #[trigger] post.wf_inode_at(self.block_size, x) by {
                if x == ino {
                    assert(post.inodes@[ino] == new_inode);
                } else {
                    assert(pre.inodes@.contains_key(x));
                    assert(pre.wf_inode_at(self.block_size, x));
                    assert(post.inodes@[x] == pre.inodes@[x]);
                }
            }
            assert forall|parent: u64, name: Seq<u8>| #[trigger] post.index@.contains_key((
                parent,
                name,
            )) implies {
                &&& post.inodes@.contains_key(post.index@[(parent, name)])
                &&& post.dirs@.contains_key(parent)
                &&& dir_has_entry(post.dirs@[parent]@, name, post.index@[(parent, name)])
            } by {
                assert(pre.index@.contains_key((parent, name)));
            }
            assert forall|k: (u64, u64)| #[trigger] post.handlers@.contains_key(k) implies
                post.inodes@.contains_key(k.0) && k.1 < post.inodes@[k.0].next_fh by {
                if k == (ino, fh) {
                } else {
                    assert(pre.handlers@.contains_key(k));
                    if k.0 == ino {
                        assert(k.1 < i0.next_fh);
                    }
                }
            }
            assert(post.wf(self.block_size));
        }
        Ok(fh)
    }

    /// Releases a handle: the handle record goes, the open count falls by
    /// one, and an inode with no links and no remaining handles is erased.
    pub fn close(&mut self, ino: u64, fh: u64) -> (r: Result<(), FsError>)
        requires
            old(self).wf(),
        ensures
            final(self).wf(),
            final(self).block_size == old(self).block_size,
            final(self).max_blocks == old(self).max_blocks,
            final(self).max_name_len == old(self).max_name_len,
            match r {
                Ok(()) => {
                    &&& old(self).kv.handler_of(ino, fh) is Some
                    &&& old(self).kv.inode_of(ino) matches Some(i)
                    &&& final(self).kv.handlers@ == old(self).kv.handlers@.remove((ino, fh))
                    &&& final(self).kv.inodes@ == (if i.file_attr.nlink == 0 && i.opened_fh == 1 {
                        old(self).kv.inodes@.remove(ino)
                    } else {
                        old(self).kv.inodes@.insert(
                            ino,
                            Inode { opened_fh: (i.opened_fh - 1) as u64, ..i },
                        )
                    })
                    &&& final(self).kv.meta == old(self).kv.meta
                    &&& final(self).kv.dirs == old(self).kv.dirs
                    &&& final(self).kv.blocks == old(self).kv.blocks
                    &&& final(self).kv.index == old(self).kv.index
                },
                Err(e) => *final(self) == *old(self) && e == (FsError::FhNotFound { ino, fh })
                    && old(self).kv.handler_of(ino, fh) is None,
            },
    {
        let _h = match self.read_fh(ino, fh) {
            Ok(h) => h,
            Err(e) => {
                return Err(e);
            }
        };
        proof {
            lemma_alist_exists_entry(self.kv.handlers.entries@, (ino, fh));
            let j = choose|j: int|
                0 <= j < self.kv.handlers.entries@.len() && (
                #[trigger] self.kv.handlers.entries@[j]).0 == (ino, fh);
            lemma_count_fst_at(self.kv.handlers.entries@, j);
        }
        self.kv.handlers.remove((ino, fh));
        let inode = match self.kv.inodes.take(ino) {
            Some(v) => v,
            None => {
                proof {
                    assert(old(self).kv.handlers@.contains_key((ino, fh)));
                    assert(false);
                }
                return Err(FsError::FhNotFound { ino, fh });
            }
        };
        proof {
            assert(old(self).kv.handlers@.contains_key((ino, fh)));
            assert(old(self).kv.inodes@.contains_key(ino));
            assert(old(self).kv.wf_inode_at(self.block_size, ino));
            assert(inode == old(self).kv.inodes@[ino]);
            assert(inode.opened_fh >= 1);
        }
        let new_inode = Inode { opened_fh: inode.opened_fh - 1, ..inode };
        let deleted = new_inode.file_attr.nlink == 0 && new_inode.opened_fh == 0;
        if !deleted {
            let ghost mid = self.kv.inodes@;
            self.kv.inodes.insert(ino, new_inode);
            proof {
                assert(self.kv.inodes@ =~= old(self).kv.inodes@.insert(ino, new_inode));
            }
        }
        proof {
            let pre = old(self).kv;
            let post = self.kv;
            let i0 = pre.inodes@[ino];
            assert(pre.wf_inode_at(self.block_size, ino));
            assert(count_fst(post.handlers.entries@, ino) == count_fst(pre.handlers.entries@, ino)
                - 1);
            if deleted {
                assert(count_fst(post.handlers.entries@, ino) == 0);
                lemma_count_fst_zero(post.handlers.entries@, ino);
                assert(count_links(pre.index.entries@, ino) == 0) by {
                    if ino == ROOT_INODE {
                        assert(i0.file_attr.nlink >= 1);
                    }
                }
                lemma_count_links_zero(pre.index.entries@, ino);
            }
            assert forall|x: u64| post.inodes@.contains_key(x) implies
                #[trigger] post.wf_inode_at(self.block_size, x) by {
                if x == ino {
                    assert(post.inodes@[ino] == new_inode);
                } else {
                    assert(pre.inodes@.contains_key(x));
                    assert(pre.wf_inode_at(self.block_size, x));
                    assert(post.inodes@[x] == pre.inodes@[x]);
                }
            }
            assert forall|parent: u64, name: Seq<u8>| #[trigger] post.index@.contains_key((
                parent,
                name,
            )) implies {
                &&& post.inodes@.contains_key(post.index@[(parent, name)])
                &&& post.dirs@.contains_key(parent)
                &&& dir_has_entry(post.dirs@[parent]@, name, post.index@[(parent, name)])
            } by {
                assert(pre.index@.contains_key((parent, name)));
                if deleted && pre.index@[(parent, name)] == ino {
                    lemma_alist_exists_entry(
                        crate::store::imap_seq(pre.index.entries@),
                        (parent, name),
                    );
                    let j = choose|j: int|
                        0 <= j < crate::store::imap_seq(pre.index.entries@).len() && (
                        #[trigger] crate::store::imap_seq(pre.index.entries@)[j]).0 == (
                            parent,
                            name,
                        ) && crate::store::imap_seq(pre.index.entries@)[j].1 == pre.index@[(
                            parent,
                            name,
                        )];
                    assert(pre.index.entries@[j].2 == ino);
                    assert(false);
                }
            }
            assert forall|k: (u64, u64)| #[trigger] post.handlers@.contains_key(k) implies
                post.inodes@.contains_key(k.0) && k.1 < post.inodes@[k.0].next_fh by {
                assert(pre.handlers@.contains_key(k));
                if deleted && k.0 == ino {
                    lemma_alist_exists_entry(post.handlers.entries@, k);
                    assert(false);
                }
                if k.0 == ino {
                    assert(k.1 < i0.next_fh);
                }
            }
            assert(post.wf(self.block_size));
        }
        if deleted {
            proof {
                assert(self.kv.inodes@ =~= old(self).kv.inodes@.remove(ino));
            }
        }
        Ok(())
    }
}

/// When `make_inode` fails, and with what: the conditions in the order
/// the operation checks them. On an input meeting none of them the
/// operation cannot fail.
pub open spec fn spec_make_inode_err(t: Txn, parent: u64, name: Seq<u8>, mode: u32, e: FsError)
    -> bool {
    let pre = t.kv;
    let m0 = spec_meta_or_default(pre, t.block_size);
    if spec_file_kind(mode) is None {
        e == FsError::UnknownFileType
    } else if spec_space_exhausted(m0) {
        e is NoSpaceLeft
    } else if parent >= ROOT_INODE && pre.index@.contains_key((parent, name)) {
        e matches FsError::FileExist { .. } && spec_err_name(e)@ == name
    } else if parent >= ROOT_INODE && pre.dir_of(parent) is None {
        e == (FsError::BlockNotFound { inode: parent, block: 0 })
    } else if parent >= ROOT_INODE && pre.inode_of(parent) is None {
        e == (FsError::InodeNotFound { inode: parent })
    } else if parent >= ROOT_INODE && (name.len() > 0x7fff_ffff_ffff_ff00 || enc_dir(
        pre.dirs@[parent]@,
    ).len() + 17 + name.len() > 0x7fff_ffff_ffff_ffff) {
        e is UnknownError
    } else {
        false
    }
}

/// When `unlink` fails, and with what. On an input meeting none of the
/// conditions the operation cannot fail.
pub open spec fn spec_unlink_err(t: Txn, parent: u64, name: Seq<u8>, e: FsError) -> bool {
    let pre = t.kv;
    if pre.index_of(parent, name) is None {
        e matches FsError::FileNotFound { .. } && spec_err_name(e)@ == name
    } else if pre.index@[(parent, name)] == parent {
        e is UnknownError
    } else if pre.inode_of(parent) is None {
        e is UnknownError
    } else if enc_dir(pre.dirs@[parent]@).len() > 0x7fff_ffff_ffff_ffff + 17 + name.len() {
        e is UnknownError
    } else {
        false
    }
}

/// When `rmdir` fails, and with what. On an input meeting none of the
/// conditions the operation cannot fail.
pub open spec fn spec_rmdir_err(t: Txn, parent: u64, name: Seq<u8>, e: FsError) -> bool {
    let pre = t.kv;
    let ino = pre.index@[(parent, name)];
    if pre.index_of(parent, name) is None {
        e matches FsError::FileNotFound { .. } && spec_err_name(e)@ == name
    } else if pre.dir_of(ino) is None {
        e == (FsError::BlockNotFound { inode: ino, block: 0 })
    } else if pre.dir_of(ino).unwrap().len() != 0 {
        e matches FsError::DirNotEmpty { .. } && spec_err_name(e)@ == name
    } else if pre.inode_of(parent) is None {
        e is UnknownError
    } else if enc_dir(pre.dirs@[parent]@).len() > 0x7fff_ffff_ffff_ffff + 17 + name.len() {
        e is UnknownError
    } else {
        false
    }
}

/// When `link` fails, and with what. On an input meeting none of the
/// conditions the operation cannot fail.
pub open spec fn spec_link_err(t: Txn, ino: u64, newparent: u64, newname: Seq<u8>, e: FsError)
    -> bool {
    let pre = t.kv;
    let bound = pre.index@.contains_key((newparent, newname));
    let old_ino = pre.index@[(newparent, newname)];
    if ino == newparent {
        e is UnknownError
    } else if newparent < ROOT_INODE {
        e == (FsError::InodeNotFound { inode: newparent })
    } else if pre.inode_of(ino) is None {
        e == (FsError::InodeNotFound { inode: ino })
    } else if pre.inodes@[ino].file_attr.nlink == u32::MAX {
        e is UnknownError
    } else if pre.inode_of(newparent) is None {
        e == (FsError::InodeNotFound { inode: newparent })
    } else if pre.dir_of(newparent) is None {
        e == (FsError::BlockNotFound { inode: newparent, block: 0 })
    } else if newname.len() > 0x7fff_ffff_ffff_ff00 || enc_dir(pre.dirs@[newparent]@).len() + 17
        + newname.len() > 0x7fff_ffff_ffff_ffff {
        e is UnknownError
    } else if bound && old_ino == ino && pre.inodes@[ino].file_attr.nlink == 1
        && pre.inodes@[ino].opened_fh == 0 {
        e == (FsError::InodeNotFound { inode: ino })
    } else if bound && pre.inodes@[old_ino].file_attr.kind == FileType::Directory && pre.dir_of(
        old_ino,
    ) is None {
        e == (FsError::BlockNotFound { inode: old_ino, block: 0 })
    } else if bound && pre.inodes@[old_ino].file_attr.kind == FileType::Directory && pre.dir_of(
        old_ino,
    ).unwrap().len() != 0 {
        e matches FsError::DirNotEmpty { .. } && spec_err_name(e)@ == newname
    } else if bound && pre.inodes@[old_ino].file_attr.kind != FileType::Directory && old_ino
        == newparent {
        e is UnknownError
    } else {
        false
    }
}

/// When `fallocate` fails, and with what. On an input meeting none of
/// the conditions the operation cannot fail.
pub open spec fn spec_fallocate_err(t: Txn, ino: u64, offset: i64, length: i64, e: FsError)
    -> bool {
    let pre = t.kv;
    if pre.inode_of(ino) is None {
        e == (FsError::InodeNotFound { inode: ino })
    } else if offset + length <= pre.inodes@[ino].file_attr.size {
        false
    } else if offset + length > i64::MAX {
        e is UnknownError
    } else if pre.inodes@[ino].inline_data matches Some(d) && offset + length > t.block_size / 16
        && d@.len() > t.block_size {
        e is UnknownError
    } else {
        false
    }
}

/// When `write_link` fails, and with what. On an input meeting none of
/// the conditions the operation cannot fail.
pub open spec fn spec_write_link_err(t: Txn, ino: u64, data: Seq<u8>, e: FsError) -> bool {
    let pre = t.kv;
    if pre.inode_of(ino) is None {
        e == (FsError::InodeNotFound { inode: ino })
    } else if pre.inodes@[ino].file_attr.kind != FileType::Symlink && data.len() > t.block_size
        / 16 {
        e is UnknownError
    } else if data.len() > i64::MAX {
        e is UnknownError
    } else {
        false
    }
}

/// When `read_data` fails, and with what. On an input meeting none of
/// the conditions the operation cannot fail.
pub open spec fn spec_read_data_err(t: Txn, ino: u64, start: u64, chunk_size: Option<u64>, e:
    FsError) -> bool {
    let pre = t.kv;
    let size = pre.inodes@[ino].file_attr.size;
    if pre.inode_of(ino) is None {
        e == (FsError::InodeNotFound { inode: ino })
    } else if start < size && (match chunk_size {
        Some(c) => if c <= size - start {
            c as int
        } else {
            size - start
        },
        None => size - start,
    }) > usize::MAX {
        e is UnknownError
    } else {
        false
    }
}

/// When `write_data` fails, and with what. On an input meeting none of
/// the conditions the operation cannot fail.
pub open spec fn spec_write_data_err(t: Txn, ino: u64, start: u64, data: Seq<u8>, e: FsError)
    -> bool {
    let pre = t.kv;
    if spec_space_exhausted(spec_meta_or_default(pre, t.block_size)) {
        e is NoSpaceLeft
    } else if pre.inode_of(ino) is None {
        e == (FsError::InodeNotFound { inode: ino })
    } else if start + data.len() > i64::MAX {
        e is UnknownError
    } else if pre.inodes@[ino].inline_data matches Some(d) && start + data.len() > t.block_size
        / 16 && d@.len() > t.block_size {
        e is UnknownError
    } else {
        false
    }
}

impl Txn {
    /// Allocates a fresh inode under `parent` with the given mode. The
    /// name gains its index entry and its directory item together; a name
    /// already present fails with `FileExist`, so of many racing creators
    /// of one name, the store accepts exactly one. A parent below the
    /// root id creates the root directory itself.
    pub fn make_inode(
        &mut self,
        parent: u64,
        name: Vec<u8>,
        mode: u32,
        gid: u32,
        uid: u32,
        rdev: u32,
        now: TimeSpec,
    ) -> (r: Result<FileAttr, FsError>)
        requires
            old(self).wf(),
            old(self).kv.alloc_ino() < u64::MAX,
            parent < ROOT_INODE ==> old(self).kv.alloc_ino() == ROOT_INODE,
        ensures
            final(self).wf(),
            final(self).block_size == old(self).block_size,
            final(self).max_blocks == old(self).max_blocks,
            final(self).max_name_len == old(self).max_name_len,
            match r {
                Ok(attr) => {
                    let pre = old(self).kv;
                    let post = final(self).kv;
                    let ino = pre.alloc_ino();
                    let m0 = spec_meta_or_default(pre, old(self).block_size);
                    &&& Some(attr.kind) == spec_file_kind(mode)
                    &&& !spec_space_exhausted(m0)
                    &&& attr == (FileAttr {
                        ino,
                        size: 0,
                        blocks: 0,
                        atime: now,
                        mtime: now,
                        ctime: now,
                        crtime: now,
                        kind: attr.kind,
                        perm: spec_file_perm(mode),
                        nlink: 1,
                        uid,
                        gid,
                        rdev,
                        blksize: old(self).block_size as u32,
                        flags: 0,
                    })
                    &&& post.meta == Some(
                        Meta { inode_next: (ino + 1) as u64, ..m0 },
                    )
                    &&& post.inodes@.contains_key(ino)
                    &&& spec_is_fresh_inode(post.inodes@[ino], attr)
                    &&& post.blocks == pre.blocks
                    &&& post.handlers == pre.handlers
                    &&& if parent >= ROOT_INODE {
                        &&& !pre.index@.contains_key((parent, name@))
                        &&& post.index@ == pre.index@.insert((parent, name@), ino)
                        &&& pre.dirs@.contains_key(parent)
                        &&& post.dirs@.contains_key(parent)
                        &&& {
                            let d0 = pre.dirs@[parent]@;
                            let d1 = post.dirs@[parent]@;
                            &&& d1.len() == d0.len() + 1
                            &&& d1.take(d0.len() as int) == d0
                            &&& d1.last().name@ == name@
                            &&& d1.last().ino == ino
                            &&& d1.last().typ == attr.kind
                        }
                        &&& post.dirs@.remove(parent) == pre.dirs@.remove(parent)
                        &&& pre.inodes@.contains_key(parent)
                        &&& post.inodes@ == pre.inodes@.insert(
                            parent,
                            post.inodes@[parent],
                        ).insert(ino, post.inodes@[ino])
                        &&& post.inodes@[parent] == (Inode {
                            file_attr: FileAttr {
                                size: post.inodes@[parent].file_attr.size,
                                blocks: post.inodes@[parent].file_attr.blocks,
                                atime: now,
                                mtime: now,
                                ctime: now,
                                ..pre.inodes@[parent].file_attr
                            },
                            inline_data: None,
                            ..pre.inodes@[parent]
                        })
                        &&& post.inodes@[parent].file_attr.size == crate::serialize::enc_dir(
                            post.dirs@[parent]@,
                        ).len()
                        &&& post.inodes@[parent].file_attr.blocks == spec_blocks_for(
                            post.inodes@[parent].file_attr.size,
                            old(self).block_size,
                        )
                    } else {
                        &&& ino == ROOT_INODE
                        &&& post.index == pre.index
                        &&& post.dirs == pre.dirs
                        &&& post.inodes@ == pre.inodes@.insert(ino, post.inodes@[ino])
                    }
                },
                Err(e) => {
                    &&& *final(self) == *old(self)
                    &&& spec_make_inode_err(*old(self), parent, name@, mode, e)
                },
            },
    {
        let kind = match as_file_kind(mode) {
            Ok(k) => k,
            Err(e) => {
                return Err(e);
            }
        };
        let meta0: Meta = match self.kv.meta {
            Some(m) => m,
            None => Meta::new(self.block_size),
        };
        if let Err(e) = self.check_space_left(&meta0) {
            return Err(e);
        }
        let ino = meta0.inode_next;
        let attr = FileAttr {
            ino,
            size: 0,
            blocks: 0,
            atime: now,
            mtime: now,
            ctime: now,
            crtime: now,
            kind,
            perm: as_file_perm(mode),
            nlink: 1,
            uid,
            gid,
            rdev,
            blksize: self.block_size as u32,
            flags: 0,
        };
        if parent >= ROOT_INODE {
            match self.kv.index.get(parent, &name) {
                Some(_) => {
                    return Err(FsError::FileExist { file: name });
                }
                None => {}
            }
            let eln: usize = match self.kv.dirs.get(parent) {
                Some(d) => crate::serialize::encode_dir(d).len(),
                None => {
                    return Err(FsError::BlockNotFound { inode: parent, block: 0 });
                }
            };
            if !self.kv.inodes.contains(parent) {
                return Err(FsError::InodeNotFound { inode: parent });
            }
            if name.len() as u64 > 0x7fff_ffff_ffff_ff00u64 || eln as u64
                > 0x7fff_ffff_ffff_ffffu64 - 17 - (name.len() as u64) {
                return Err(FsError::UnknownError(String::from_str("directory too large")));
            }
            // Every check passed: apply the whole mutation.
            self.kv.meta = Some(Meta { inode_next: ino + 1, ..meta0 });
            let ghost pre = old(self).kv;
            let name_copy = copy_bytes_vec(&name);
            self.kv.index.insert(parent, name_copy, ino);
            let mut d = match self.kv.dirs.take(parent) {
                Some(d) => d,
                None => {
                    proof {
                        assert(false);
                    }
                    return Err(FsError::BlockNotFound { inode: parent, block: 0 });
                }
            };
            let ghost d0 = d@;
            let ghost item_g = DirItem { ino, name: name, typ: kind };
            let item = DirItem { ino, name, typ: kind };
            d.push(item);
            let new_size: u64 = (eln as u64) + 17 + (d[d.len() - 1].name.len() as u64);
            proof {
                assert(d@ == d0.push(item_g));
                assert(d@.take(d0.len() as int) =~= d0);
                crate::serialize::lemma_enc_items_push(d0, item_g);
                assert(crate::serialize::enc_dir(d@).len() == 8
                    + crate::serialize::enc_items(d@).len());
                assert(crate::serialize::enc_items(d@) == crate::serialize::enc_items(d0)
                    + crate::serialize::enc_item(item_g));
                assert(crate::serialize::enc_item(item_g).len() == 17 + item_g.name@.len());
                assert(crate::serialize::enc_dir(d0).len() == 8 + crate::serialize::enc_items(
                    d0,
                ).len());
                assert(new_size == crate::serialize::enc_dir(d@).len());
            }
            let mut pinode = match self.kv.inodes.take(parent) {
                Some(v) => v,
                None => {
                    proof {
                        assert(false);
                    }
                    return Err(FsError::InodeNotFound { inode: parent });
                }
            };
            pinode.set_size(new_size, self.block_size);
            pinode.file_attr.atime = now;
            pinode.file_attr.mtime = now;
            pinode.file_attr.ctime = now;
            pinode.inline_data = None;
            let ghost pinode_v = pinode;
            self.kv.inodes.insert(parent, pinode);
            self.kv.dirs.insert(parent, d);
            self.kv.inodes.insert(ino, Inode::from_attr(attr));
            proof {
                let pre2 = old(self).kv;
                assert(self.kv.inodes@ =~= pre2.inodes@.insert(parent, pinode_v).insert(
                    ino,
                    self.kv.inodes@[ino],
                ));
                assert(self.kv.dirs@.remove(parent) =~= pre2.dirs@.remove(parent));
                lemma_make_inode_wf(
                    pre,
                    self.kv,
                    self.block_size,
                    parent,
                    ino,
                    attr,
                    pinode_v,
                    now,
                );
            }
            Ok(attr)
        } else {
            self.kv.meta = Some(Meta { inode_next: ino + 1, ..meta0 });
            self.kv.inodes.insert(ino, Inode::from_attr(attr));
            proof {
                lemma_make_root_wf(old(self).kv, self.kv, self.block_size, attr);
            }
            Ok(attr)
        }
    }
}

impl Txn {
    /// Creates a directory: a fresh inode of directory kind whose content
    /// starts empty, entered under `parent` like any other inode.
    pub fn mkdir(
        &mut self,
        parent: u64,
        name: Vec<u8>,
        mode: u32,
        gid: u32,
        uid: u32,
        now: TimeSpec,
    ) -> (r: Result<FileAttr, FsError>)
        requires
            old(self).wf(),
            old(self).kv.alloc_ino() < u64::MAX,
            parent < ROOT_INODE ==> old(self).kv.alloc_ino() == ROOT_INODE,
        ensures
            final(self).wf(),
            final(self).block_size == old(self).block_size,
            final(self).max_blocks == old(self).max_blocks,
            final(self).max_name_len == old(self).max_name_len,
            match r {
                Ok(attr) => {
                    let pre = old(self).kv;
                    let post = final(self).kv;
                    let ino = pre.alloc_ino();
                    let m0 = spec_meta_or_default(pre, old(self).block_size);
                    let dir_mode = crate::mode::spec_make_mode(FileType::Directory, mode as u16);
                    &&& Some(attr.kind) == spec_file_kind(dir_mode)
                    &&& attr.ino == ino
                    &&& attr.perm == mode as u16
                    &&& attr.nlink == 1
                    &&& attr.size == 8
                    &&& attr.blocks == spec_blocks_for(8, old(self).block_size)
                    &&& attr.atime == now && attr.mtime == now && attr.ctime == now
                        && attr.crtime == now
                    &&& attr.uid == uid && attr.gid == gid && attr.rdev == 0
                    &&& !spec_space_exhausted(m0)
                    &&& post.meta == Some(Meta { inode_next: (ino + 1) as u64, ..m0 })
                    &&& post.inodes@.contains_key(ino)
                    &&& {
                        let ni = post.inodes@[ino];
                        &&& ni.file_attr == attr
                        &&& ni.lock_state.owner_set@.len() == 0
                        &&& ni.lock_state.lk_type == F_UNLCK
                        &&& ni.inline_data is None
                        &&& ni.next_fh == 0
                        &&& ni.opened_fh == 0
                    }
                    &&& post.blocks == pre.blocks
                    &&& post.handlers == pre.handlers
                    &&& post.dirs@.contains_key(ino)
                    &&& post.dirs@[ino]@ == Seq::<DirItem>::empty()
                    &&& if parent >= ROOT_INODE {
                        &&& !pre.index@.contains_key((parent, name@))
                        &&& post.index@ == pre.index@.insert((parent, name@), ino)
                        &&& pre.dirs@.contains_key(parent)
                        &&& post.dirs@.contains_key(parent)
                        &&& {
                            let d0 = pre.dirs@[parent]@;
                            let d1 = post.dirs@[parent]@;
                            &&& d1.len() == d0.len() + 1
                            &&& d1.take(d0.len() as int) == d0
                            &&& d1.last().name@ == name@
                            &&& d1.last().ino == ino
                            &&& d1.last().typ == attr.kind
                        }
                        &&& post.dirs@.remove(parent).remove(ino) == pre.dirs@.remove(
                            parent,
                        ).remove(ino)
                        &&& pre.inodes@.contains_key(parent)
                        &&& post.inodes@ == pre.inodes@.insert(
                            parent,
                            post.inodes@[parent],
                        ).insert(ino, post.inodes@[ino])
                        &&& post.inodes@[parent] == (Inode {
                            file_attr: FileAttr {
                                size: post.inodes@[parent].file_attr.size,
                                blocks: post.inodes@[parent].file_attr.blocks,
                                atime: now,
                                mtime: now,
                                ctime: now,
                                ..pre.inodes@[parent].file_attr
                            },
                            inline_data: None,
                            ..pre.inodes@[parent]
                        })
                    } else {
                        &&& ino == ROOT_INODE
                        &&& post.index == pre.index
                        &&& post.dirs@ == pre.dirs@.insert(ino, post.dirs@[ino])
                        &&& post.inodes@ == pre.inodes@.insert(ino, post.inodes@[ino])
                    }
                },
                Err(e) => {
                    &&& *final(self) == *old(self)
                    &&& spec_make_inode_err(
                        *old(self),
                        parent,
                        name@,
                        crate::mode::spec_make_mode(FileType::Directory, mode as u16),
                        e,
                    )
                },
            },
    {
        let dir_mode = crate::mode::make_mode(FileType::Directory, #[verifier::truncate] (
        mode as u16));
        let attr0 = match self.make_inode(parent, name, dir_mode, gid, uid, 0, now) {
            Ok(a) => a,
            Err(e) => {
                return Err(e);
            }
        };
        let ino = attr0.ino;
        let ghost mid = *self;
        let mut inode = match self.kv.inodes.take(ino) {
            Some(v) => v,
            None => {
                proof {
                    assert(false);
                }
                return Err(FsError::InodeNotFound { inode: ino });
            }
        };
        inode.file_attr.perm = #[verifier::truncate] (mode as u16);
        let empty_dir: Directory = Vec::new();
        let eln: usize = crate::serialize::encode_dir(&empty_dir).len();
        proof {
            assert(crate::serialize::enc_items(empty_dir@).len() == 0);
            assert(eln == 8);
        }
        inode.set_size(eln as u64, self.block_size);
        inode.file_attr.atime = now;
        inode.file_attr.mtime = now;
        inode.file_attr.ctime = now;
        let attr = inode.file_attr;
        self.kv.inodes.insert(ino, inode);
        self.kv.dirs.insert(ino, empty_dir);
        proof {
            let pre = old(self).kv;
            let m = mid.kv;
            let post = self.kv;
            let bs = self.block_size;
            assert(m.wf(bs));
            assert(!m.dirs@.contains_key(ino)) by {
                if m.dirs@.contains_key(ino) {
                    if parent >= ROOT_INODE {
                        assert(ino != parent) by {
                            assert(pre.inodes@.contains_key(parent));
                        }
                        assert(m.dirs@.remove(parent).contains_key(ino));
                        assert(pre.dirs@.remove(parent).contains_key(ino));
                        assert(pre.dirs@.contains_key(ino));
                    } else {
                        assert(pre.dirs@.contains_key(ino));
                    }
                    assert(ino < pre.alloc_ino());
                }
            }
            assert(post.inodes@ =~= m.inodes@.insert(ino, post.inodes@[ino]));
            assert(m.wf_inode_at(bs, ino));
            assert forall|x: u64| post.inodes@.contains_key(x) implies
                #[trigger] post.wf_inode_at(bs, x) by {
                if x == ino {
                    assert(count_links(post.index.entries@, x) == count_links(
                        m.index.entries@,
                        x,
                    ));
                    assert(count_fst(post.handlers.entries@, x) == count_fst(
                        m.handlers.entries@,
                        x,
                    ));
                } else {
                    assert(m.inodes@.contains_key(x));
                    assert(m.wf_inode_at(bs, x));
                    assert(post.inodes@[x] == m.inodes@[x]);
                }
            }
            assert forall|p: u64, n: Seq<u8>| #[trigger] post.index@.contains_key((
                p,
                n,
            )) implies {
                &&& post.inodes@.contains_key(post.index@[(p, n)])
                &&& post.dirs@.contains_key(p)
                &&& dir_has_entry(post.dirs@[p]@, n, post.index@[(p, n)])
            } by {
                assert(m.index@.contains_key((p, n)));
                assert(m.dirs@.contains_key(p));
                assert(p != ino);
                assert(post.dirs@[p] == m.dirs@[p]);
            }
            assert forall|p: u64| #[trigger] post.dirs@.contains_key(p) implies {
                &&& dir_names_unique(post.dirs@[p]@)
                &&& (forall|i: int|
                    0 <= i < post.dirs@[p]@.len() ==> {
                        &&& post.index@.contains_key((p, (
                        #[trigger] post.dirs@[p]@[i]).name@))
                        &&& post.index@[(p, post.dirs@[p]@[i].name@)] == post.dirs@[p]@[i].ino
                    })
            } by {
                if p == ino {
                    assert(post.dirs@[p]@.len() == 0);
                } else {
                    assert(m.dirs@.contains_key(p));
                    assert(post.dirs@[p] == m.dirs@[p]);
                    assert forall|i: int| 0 <= i < post.dirs@[p]@.len() implies {
                        &&& post.index@.contains_key((p, (
                        #[trigger] post.dirs@[p]@[i]).name@))
                        &&& post.index@[(p, post.dirs@[p]@[i].name@)] == post.dirs@[p]@[i].ino
                    } by {
                        assert(m.index@.contains_key((p, post.dirs@[p]@[i].name@)));
                    }
                }
            }
            assert forall|k: (u64, u64)| #[trigger] post.handlers@.contains_key(k) implies
                post.inodes@.contains_key(k.0) && k.1 < post.inodes@[k.0].next_fh by {
                assert(m.handlers@.contains_key(k));
                if k.0 == ino {
                    assert(k.1 < m.inodes@[ino].next_fh);
                    assert(m.inodes@[ino].next_fh == 0);
                }
            }
            assert(post.wf(bs));
            if parent >= ROOT_INODE {
                assert(post.dirs@.remove(parent).remove(ino) =~= pre.dirs@.remove(
                    parent,
                ).remove(ino));
                assert(post.inodes@ =~= pre.inodes@.insert(
                    parent,
                    post.inodes@[parent],
                ).insert(ino, post.inodes@[ino]));
            } else {
                assert(post.dirs@ =~= pre.dirs@.insert(ino, post.dirs@[ino]));
                assert(post.inodes@ =~= pre.inodes@.insert(ino, post.inodes@[ino]));
            }
        }
        Ok(attr)
    }
}

impl Txn {
    /// Removes one name: its index entry goes, the one directory item of
    /// that name goes, and the named inode loses one link — vanishing
    /// entirely once no link and no open handle remains.
    pub fn unlink(&mut self, parent: u64, name: &Vec<u8>, now: TimeSpec) -> (r: Result<
        (),
        FsError,
    >)
        requires
            old(self).wf(),
        ensures
            final(self).wf(),
            final(self).block_size == old(self).block_size,
            final(self).max_blocks == old(self).max_blocks,
            final(self).max_name_len == old(self).max_name_len,
            match r {
                Ok(()) => {
                    let pre = old(self).kv;
                    let post = final(self).kv;
                    let ino = pre.index@[(parent, name@)];
                    let d0 = pre.dirs@[parent]@;
                    &&& pre.index@.contains_key((parent, name@))
                    &&& ino != parent
                    &&& post.index@ == pre.index@.remove((parent, name@))
                    &&& pre.dirs@.contains_key(parent)
                    &&& post.dirs@.contains_key(parent)
                    &&& post.dirs@.remove(parent) == pre.dirs@.remove(parent)
                    &&& exists|pos: int|
                        {
                            &&& 0 <= pos < d0.len()
                            &&& (#[trigger] d0[pos]).name@ == name@
                            &&& d0[pos].ino == ino
                            &&& post.dirs@[parent]@ == d0.remove(pos)
                        }
                    &&& post.meta == pre.meta
                    &&& post.blocks == pre.blocks
                    &&& post.handlers == pre.handlers
                    &&& pre.inodes@.contains_key(parent)
                    &&& pre.inodes@.contains_key(ino)
                    &&& post.inodes@.contains_key(parent)
                    &&& post.inodes@[parent] == (Inode {
                        file_attr: FileAttr {
                            size: post.inodes@[parent].file_attr.size,
                            blocks: post.inodes@[parent].file_attr.blocks,
                            atime: now,
                            mtime: now,
                            ctime: now,
                            ..pre.inodes@[parent].file_attr
                        },
                        inline_data: None,
                        ..pre.inodes@[parent]
                    })
                    &&& post.inodes@[parent].file_attr.size == crate::serialize::enc_dir(
                        post.dirs@[parent]@,
                    ).len()
                    &&& (!post.inodes@.contains_key(ino) <==> (
                    pre.inodes@[ino].file_attr.nlink == 1 && pre.inodes@[ino].opened_fh == 0))
                    &&& (post.inodes@.contains_key(ino) ==> post.inodes@[ino] == (Inode {
                        file_attr: FileAttr {
                            nlink: (pre.inodes@[ino].file_attr.nlink - 1) as u32,
                            ctime: now,
                            ..pre.inodes@[ino].file_attr
                        },
                        ..pre.inodes@[ino]
                    }))
                    &&& (forall|x: u64|
                        #![trigger post.inodes@.contains_key(x)]
                        #![trigger pre.inodes@.contains_key(x)]
                        x != parent && x != ino ==> post.inodes@.contains_key(x)
                            == pre.inodes@.contains_key(x) && (pre.inodes@.contains_key(x)
                            ==> post.inodes@[x] == pre.inodes@[x]))
                },
                Err(e) => {
                    &&& *final(self) == *old(self)
                    &&& spec_unlink_err(*old(self), parent, name@, e)
                },
            },
    {
        let ino = match self.kv.index.get(parent, name) {
            Some(ino) => ino,
            None => {
                return Err(FsError::FileNotFound { file: copy_bytes_vec(name) });
            }
        };
        if ino == parent {
            // An entry naming its own directory cannot arise through the
            // engine's own operations; refuse it rather than tear the
            // store's shape.
            return Err(FsError::UnknownError(String::from_str("entry names its own parent")));
        }
        proof {
            assert(self.kv.index@.contains_key((parent, name@)));
            assert(self.kv.dirs@.contains_key(parent));
            assert(dir_has_entry(self.kv.dirs@[parent]@, name@, ino));
            assert(self.kv.inodes@.contains_key(ino));
        }
        if !self.kv.inodes.contains(parent) {
            return Err(FsError::UnknownError(String::from_str("parent inode is missing")));
        }
        let (eln_old, pos) = match self.kv.dirs.get(parent) {
            Some(d) => {
                let p = match position_of_name(d, name) {
                    Some(p) => p,
                    None => {
                        proof {
                            assert(false);
                        }
                        return Err(FsError::FileNotFound { file: copy_bytes_vec(name) });
                    }
                };
                (crate::serialize::encode_dir(d).len(), p)
            }
            None => {
                proof {
                    assert(false);
                }
                return Err(FsError::BlockNotFound { inode: parent, block: 0 });
            }
        };
        let ghost pre = old(self).kv;
        let ghost d0 = pre.dirs@[parent]@;
        proof {
            assert(d0[pos as int].ino == ino) by {
                assert(pre.index@.contains_key((parent, d0[pos as int].name@)));
            }
            crate::serialize::lemma_enc_items_remove(d0, pos as int);
            assert(eln_old == 8 + crate::serialize::enc_items(d0).len());
            assert(crate::serialize::enc_item(d0[pos as int]).len() == 17 + name@.len());
        }
        let new_size: u64 = (eln_old as u64) - 17 - (name.len() as u64);
        if new_size > 0x7fff_ffff_ffff_ffffu64 {
            return Err(FsError::UnknownError(String::from_str("directory too large")));
        }
        // Every check passed: apply the whole mutation.
        self.kv.index.remove(parent, name);
        let mut d = match self.kv.dirs.take(parent) {
            Some(d) => d,
            None => {
                proof {
                    assert(false);
                }
                return Err(FsError::BlockNotFound { inode: parent, block: 0 });
            }
        };
        d.remove(pos);
        proof {
            assert(crate::serialize::enc_dir(d@).len() == new_size);
        }
        let mut pinode = match self.kv.inodes.take(parent) {
            Some(v) => v,
            None => {
                proof {
                    assert(false);
                }
                return Err(FsError::InodeNotFound { inode: parent });
            }
        };
        pinode.set_size(new_size, self.block_size);
        pinode.file_attr.atime = now;
        pinode.file_attr.mtime = now;
        pinode.file_attr.ctime = now;
        pinode.inline_data = None;
        self.kv.inodes.insert(parent, pinode);
        self.kv.dirs.insert(parent, d);
        let mut tinode = match self.kv.inodes.take(ino) {
            Some(v) => v,
            None => {
                proof {
                    assert(false);
                }
                return Err(FsError::InodeNotFound { inode: ino });
            }
        };
        proof {
            let ms = crate::store::imap_seq(pre.index.entries@);
            lemma_alist_exists_entry(ms, (parent, name@));
            let jj = choose|jj: int|
                0 <= jj < ms.len() && (#[trigger] ms[jj]).0 == (parent, name@) && ms[jj].1
                    == ino;
            assert(pre.index.entries@[jj].2 == ino);
            lemma_count_links_at(pre.index.entries@, jj);
            assert(pre.wf_inode_at(self.block_size, ino));
            assert(tinode.file_attr.nlink >= 1);
        }
        tinode.file_attr.nlink = tinode.file_attr.nlink - 1;
        tinode.file_attr.ctime = now;
        let deleted = tinode.file_attr.nlink == 0 && tinode.opened_fh == 0;
        if !deleted {
            self.kv.inodes.insert(ino, tinode);
        }
        proof {
            let post = self.kv;
            assert(post.inodes@ == if deleted {
                pre.inodes@.insert(parent, post.inodes@[parent]).remove(ino)
            } else {
                pre.inodes@.insert(parent, post.inodes@[parent]).insert(ino, post.inodes@[ino])
            }) by {
                if deleted {
                    assert(post.inodes@ =~= pre.inodes@.insert(
                        parent,
                        post.inodes@[parent],
                    ).remove(ino));
                } else {
                    assert(post.inodes@ =~= pre.inodes@.insert(
                        parent,
                        post.inodes@[parent],
                    ).insert(ino, post.inodes@[ino]));
                }
            }
            assert(post.dirs@.remove(parent) =~= pre.dirs@.remove(parent));
            assert(post.index@ == pre.index@.remove((parent, name@)));
            assert forall|x: u64| count_links(post.index.entries@, x) == count_links(
                pre.index.entries@,
                x,
            ) - (if x == ino {
                1int
            } else {
                0int
            }) by {}
            assert(post.inodes@.contains_key(parent) && post.inodes@[parent] == pinode);
            assert(post.dirs@[parent]@ == d0.remove(pos as int));
            assert(deleted == (pre.inodes@[ino].file_attr.nlink == 1 && pre.inodes@[ino].opened_fh
                == 0));
            lemma_unlink_wf(
                pre,
                post,
                self.block_size,
                parent,
                name@,
                ino,
                pos as int,
                now,
                deleted,
            );
        }
        Ok(())
    }
}

impl Txn {
    /// Removes an empty directory: the name's index entry and directory
    /// item go, and the directory's inode loses its link. A directory
    /// that still holds items is refused with `DirNotEmpty`.
    pub fn rmdir(&mut self, parent: u64, name: &Vec<u8>, now: TimeSpec) -> (r: Result<
        (),
        FsError,
    >)
        requires
            old(self).wf(),
        ensures
            final(self).wf(),
            final(self).block_size == old(self).block_size,
            final(self).max_blocks == old(self).max_blocks,
            final(self).max_name_len == old(self).max_name_len,
            match r {
                Ok(()) => {
                    let pre = old(self).kv;
                    let post = final(self).kv;
                    let ino = pre.index@[(parent, name@)];
                    let d0 = pre.dirs@[parent]@;
                    &&& pre.index@.contains_key((parent, name@))
                    &&& ino != parent
                    &&& pre.dir_of(ino) == Some(Seq::<DirItem>::empty())
                    &&& post.index@ == pre.index@.remove((parent, name@))
                    &&& pre.dirs@.contains_key(parent)
                    &&& post.dirs@.contains_key(parent)
                    &&& post.dirs@.remove(parent) == pre.dirs@.remove(parent)
                    &&& exists|pos: int|
                        {
                            &&& 0 <= pos < d0.len()
                            &&& (#[trigger] d0[pos]).name@ == name@
                            &&& d0[pos].ino == ino
                            &&& post.dirs@[parent]@ == d0.remove(pos)
                        }
                    &&& post.meta == pre.meta
                    &&& post.blocks == pre.blocks
                    &&& post.handlers == pre.handlers
                    &&& pre.inodes@.contains_key(parent)
                    &&& pre.inodes@.contains_key(ino)
                    &&& post.inodes@.contains_key(parent)
                    &&& post.inodes@[parent] == (Inode {
                        file_attr: FileAttr {
                            size: post.inodes@[parent].file_attr.size,
                            blocks: post.inodes@[parent].file_attr.blocks,
                            atime: now,
                            mtime: now,
                            ctime: now,
                            ..pre.inodes@[parent].file_attr
                        },
                        inline_data: None,
                        ..pre.inodes@[parent]
                    })
                    &&& (!post.inodes@.contains_key(ino) <==> (
                    pre.inodes@[ino].file_attr.nlink == 1 && pre.inodes@[ino].opened_fh == 0))
                    &&& (post.inodes@.contains_key(ino) ==> post.inodes@[ino] == (Inode {
                        file_attr: FileAttr {
                            nlink: (pre.inodes@[ino].file_attr.nlink - 1) as u32,
                            ctime: now,
                            ..pre.inodes@[ino].file_attr
                        },
                        ..pre.inodes@[ino]
                    }))
                    &&& (forall|x: u64|
                        #![trigger post.inodes@.contains_key(x)]
                        #![trigger pre.inodes@.contains_key(x)]
                        x != parent && x != ino ==> post.inodes@.contains_key(x)
                            == pre.inodes@.contains_key(x) && (pre.inodes@.contains_key(x)
                            ==> post.inodes@[x] == pre.inodes@[x]))
                },
                Err(e) => {
                    &&& *final(self) == *old(self)
                    &&& spec_rmdir_err(*old(self), parent, name@, e)
                },
            },
    {
        let ino = match self.kv.index.get(parent, name) {
            Some(ino) => ino,
            None => {
                return Err(FsError::FileNotFound { file: copy_bytes_vec(name) });
            }
        };
        match self.kv.dirs.get(ino) {
            Some(d) => {
                if d.len() != 0 {
                    return Err(FsError::DirNotEmpty { dir: copy_bytes_vec(name) });
                }
            }
            None => {
                return Err(FsError::BlockNotFound { inode: ino, block: 0 });
            }
        }
        proof {
            assert(old(self).kv.dirs@[ino]@ =~= Seq::<DirItem>::empty());
            assert(old(self).kv.dir_of(ino) == Some(Seq::<DirItem>::empty()));
        }
        let r = self.unlink(parent, name, now);
        proof {
            if r is Ok {
                assert forall|x: u64| x != parent && x != ino implies
                    self.kv.inodes@.contains_key(x) == old(self).kv.inodes@.contains_key(x) && (
                old(self).kv.inodes@.contains_key(x) ==> self.kv.inodes@[x]
                    == old(self).kv.inodes@[x]) by {
                    assert(x != parent && x != old(self).kv.index@[(parent, name@)]);
                }
            } else {
                let e = r->Err_0;
                assert(spec_unlink_err(*old(self), parent, name@, e));
                assert(ino != parent) by {
                    if ino == parent {
                        assert(dir_has_entry(old(self).kv.dirs@[parent]@, name@, ino));
                        assert(old(self).kv.dirs@[ino]@.len() == 0);
                    }
                }
                assert(spec_rmdir_err(*old(self), parent, name@, e));
            }
        }
        r
    }
}

/// Finds the item of a directory carrying `name`.
pub fn position_of_name(d: &Directory, name: &Vec<u8>) -> (r: Option<usize>)
    ensures
        match r {
            Some(i) => i < d@.len() && d@[i as int].name@ == name@,
            None => forall|i: int| 0 <= i < d@.len() ==> (#[trigger] d@[i]).name@ != name@,
        },
{
    let mut i: usize = 0;
    while i < d.len()
        invariant
            i <= d@.len(),
            forall|j: int| 0 <= j < i ==> (#[trigger] d@[j]).name@ != name@,
        decreases d@.len() - i,
    {
        if crate::store::bytes_eq(&d[i].name, name) {
            return Some(i);
        }
        i += 1;
    }
    None
}

/// Removing a name — its index entry, its directory item, one link of its
/// inode — keeps the store well formed. Covers the case where the named
/// inode is not the parent itself.
#[verifier::rlimit(100)]
pub proof fn lemma_unlink_wf(
    pre: Store,
    post: Store,
    bs: u64,
    parent: u64,
    name: Seq<u8>,
    ino: u64,
    pos: int,
    now: TimeSpec,
    deleted: bool,
)
    requires
        pre.wf(bs),
        1 <= bs <= u32::MAX,
        parent != ino,
        pre.index@.contains_key((parent, name)),
        ino == pre.index@[(parent, name)],
        post.maps_wf(),
        post.index@ == pre.index@.remove((parent, name)),
        forall|x: u64|
            count_links(post.index.entries@, x) == count_links(pre.index.entries@, x) - (if x
                == ino {
                1int
            } else {
                0int
            }),
        pre.dirs@.contains_key(parent),
        post.dirs@.contains_key(parent),
        post.dirs@.remove(parent) == pre.dirs@.remove(parent),
        0 <= pos < pre.dirs@[parent]@.len(),
        pre.dirs@[parent]@[pos].name@ == name,
        post.dirs@[parent]@ == pre.dirs@[parent]@.remove(pos),
        post.meta == pre.meta,
        post.blocks == pre.blocks,
        post.handlers == pre.handlers,
        pre.inodes@.contains_key(parent),
        deleted == (pre.inodes@[ino].file_attr.nlink == 1 && pre.inodes@[ino].opened_fh == 0),
        post.inodes@ == if deleted {
            pre.inodes@.insert(parent, post.inodes@[parent]).remove(ino)
        } else {
            pre.inodes@.insert(parent, post.inodes@[parent]).insert(ino, post.inodes@[ino])
        },
        post.inodes@.contains_key(parent),
        post.inodes@[parent] == (Inode {
            file_attr: FileAttr {
                size: post.inodes@[parent].file_attr.size,
                blocks: post.inodes@[parent].file_attr.blocks,
                atime: now,
                mtime: now,
                ctime: now,
                ..pre.inodes@[parent].file_attr
            },
            inline_data: None,
            ..pre.inodes@[parent]
        }),
        post.inodes@[parent].file_attr.size <= i64::MAX,
        post.inodes@[parent].file_attr.blocks == spec_blocks_for(
            post.inodes@[parent].file_attr.size,
            bs,
        ),
        !deleted ==> post.inodes@.contains_key(ino) && post.inodes@[ino] == (Inode {
            file_attr: FileAttr {
                nlink: (pre.inodes@[ino].file_attr.nlink - 1) as u32,
                ctime: now,
                ..pre.inodes@[ino].file_attr
            },
            ..pre.inodes@[ino]
        }),
    ensures
        post.wf(bs),
{
    let d0 = pre.dirs@[parent]@;
    let d1 = post.dirs@[parent]@;
    d0.remove_ensures(pos);
    assert(pre.inodes@.contains_key(ino));
    assert(pre.wf_inode_at(bs, ino));
    assert(pre.wf_inode_at(bs, parent));
    // the removed entry accounts for one link of the named inode
    let ms = crate::store::imap_seq(pre.index.entries@);
    lemma_alist_exists_entry(ms, (parent, name));
    let jj = choose|jj: int|
        0 <= jj < ms.len() && (#[trigger] ms[jj]).0 == (parent, name) && ms[jj].1 == ino;
    assert(pre.index.entries@[jj].2 == ino);
    crate::store::lemma_count_links_at(pre.index.entries@, jj);
    assert(ino != ROOT_INODE ==> pre.inodes@[ino].file_attr.nlink >= 1);
    assert(ino == ROOT_INODE ==> pre.inodes@[ino].file_attr.nlink >= 2);
    if deleted {
        assert(ino != ROOT_INODE);
        assert(count_links(pre.index.entries@, ino) == 1);
        assert(count_fst(pre.handlers.entries@, ino) == 0);
        lemma_count_fst_zero(pre.handlers.entries@, ino);
        // no second index entry names the inode
        assert forall|p2: u64, n2: Seq<u8>| #[trigger] post.index@.contains_key((p2, n2))
            implies post.index@[(p2, n2)] != ino by {
            if post.index@[(p2, n2)] == ino {
                assert(pre.index@.contains_key((p2, n2)));
                assert((p2, n2) != (parent, name));
                lemma_alist_exists_entry(ms, (p2, n2));
                let j2 = choose|j2: int|
                    0 <= j2 < ms.len() && (#[trigger] ms[j2]).0 == (p2, n2) && ms[j2].1 == ino;
                assert(pre.index.entries@[j2].2 == ino);
                assert(j2 != jj);
                if j2 < jj {
                    crate::store::lemma_count_links_pair(pre.index.entries@, j2, jj);
                } else {
                    crate::store::lemma_count_links_pair(pre.index.entries@, jj, j2);
                }
            }
        }
    }
    // meta bounds carry over
    assert forall|x: u64| post.inodes@.contains_key(x) implies pre.inodes@.contains_key(x) by {}
    // every inode record stays coherent
    assert forall|x: u64| post.inodes@.contains_key(x) implies #[trigger] post.wf_inode_at(
        bs,
        x,
    ) by {
        if x == parent {
            assert(count_links(post.index.entries@, parent) == count_links(
                pre.index.entries@,
                parent,
            ));
        } else if x == ino {
            assert(!deleted);
            assert(count_links(post.index.entries@, ino) == count_links(
                pre.index.entries@,
                ino,
            ) - 1);
        } else {
            assert(pre.wf_inode_at(bs, x));
            assert(post.inodes@[x] == pre.inodes@[x]);
        }
    }
    // index entries and directory items keep agreeing
    assert forall|p: u64, n: Seq<u8>| #[trigger] post.index@.contains_key((p, n)) implies {
        &&& post.inodes@.contains_key(post.index@[(p, n)])
        &&& post.dirs@.contains_key(p)
        &&& dir_has_entry(post.dirs@[p]@, n, post.index@[(p, n)])
    } by {
        assert(pre.index@.contains_key((p, n)));
        assert((p, n) != (parent, name));
        let v = post.index@[(p, n)];
        assert(v == pre.index@[(p, n)]);
        assert(pre.inodes@.contains_key(v));
        assert(post.inodes@.contains_key(v)) by {
            if deleted && v == ino {
                assert(post.index@[(p, n)] != ino);
            }
        }
        assert(pre.dirs@.contains_key(p));
        assert(post.dirs@.contains_key(p)) by {
            if p != parent {
                assert(pre.dirs@.remove(parent).contains_key(p) == pre.dirs@.contains_key(p));
                assert(post.dirs@.remove(parent).contains_key(p) == post.dirs@.contains_key(p));
            }
        }
        if p == parent {
            assert(dir_has_entry(d0, n, v));
            let j = choose|j: int|
                0 <= j < d0.len() && (#[trigger] d0[j]).name@ == n && d0[j].ino == v;
            assert(n != name);
            assert(j != pos);
            if j < pos {
                assert(d1[j] == d0[j]);
                assert(dir_has_entry(d1, n, v));
            } else {
                assert(d1[j - 1] == d0[j]);
                assert(dir_has_entry(d1, n, v));
            }
        } else {
            assert(post.dirs@.remove(parent)[p] == pre.dirs@.remove(parent)[p]);
            assert(post.dirs@.remove(parent)[p] == post.dirs@[p]);
            assert(pre.dirs@.remove(parent)[p] == pre.dirs@[p]);
            assert(dir_has_entry(post.dirs@[p]@, n, v));
        }
    }
    // directory items stay uniquely named and indexed
    assert forall|p: u64| #[trigger] post.dirs@.contains_key(p) implies {
        &&& dir_names_unique(post.dirs@[p]@)
        &&& (forall|i: int|
            0 <= i < post.dirs@[p]@.len() ==> {
                &&& post.index@.contains_key((p, (#[trigger] post.dirs@[p]@[i]).name@))
                &&& post.index@[(p, post.dirs@[p]@[i].name@)] == post.dirs@[p]@[i].ino
            })
    } by {
        assert(pre.dirs@.contains_key(p)) by {
            if p != parent {
                assert(pre.dirs@.remove(parent).contains_key(p) == pre.dirs@.contains_key(p));
                assert(post.dirs@.remove(parent).contains_key(p) == post.dirs@.contains_key(p));
            }
        }
        if p == parent {
            assert(dir_names_unique(d1)) by {
                assert forall|a: int, b: int| 0 <= a < b < d1.len() implies (
                #[trigger] d1[a]).name@ != (#[trigger] d1[b]).name@ by {
                    let a2: int = if a < pos { a } else { a + 1 };
                    let b2: int = if b < pos { b } else { b + 1 };
                    assert(d1[a] == d0[a2] && d1[b] == d0[b2]);
                }
            }
            assert forall|i: int| 0 <= i < d1.len() implies {
                &&& post.index@.contains_key((p, (#[trigger] d1[i]).name@))
                &&& post.index@[(p, d1[i].name@)] == d1[i].ino
            } by {
                let i2: int = if i < pos { i } else { i + 1 };
                assert(d1[i] == d0[i2]);
                assert(pre.index@.contains_key((p, d0[i2].name@)));
                assert(d0[i2].name@ != name) by {
                    if d0[i2].name@ == name {
                        assert(i2 != pos);
                        assert(d0[pos].name@ == name);
                    }
                }
            }
        } else {
            assert(post.dirs@.remove(parent)[p] == pre.dirs@.remove(parent)[p]);
            assert(post.dirs@.remove(parent)[p] == post.dirs@[p]);
            assert(pre.dirs@.remove(parent)[p] == pre.dirs@[p]);
            assert(post.dirs@[p] == pre.dirs@[p]);
            assert forall|i: int| 0 <= i < post.dirs@[p]@.len() implies {
                &&& post.index@.contains_key((p, (#[trigger] post.dirs@[p]@[i]).name@))
                &&& post.index@[(p, post.dirs@[p]@[i].name@)] == post.dirs@[p]@[i].ino
            } by {
                assert(pre.index@.contains_key((p, post.dirs@[p]@[i].name@)));
            }
        }
    }
    // handles still point at live inodes
    assert forall|k: (u64, u64)| #[trigger] post.handlers@.contains_key(k) implies
        post.inodes@.contains_key(k.0) && k.1 < post.inodes@[k.0].next_fh by {
        assert(pre.handlers@.contains_key(k));
        assert(pre.inodes@.contains_key(k.0));
        if deleted && k.0 == ino {
            lemma_alist_exists_entry(pre.handlers.entries@, k);
            let j = choose|j: int|
                0 <= j < pre.handlers.entries@.len() && (
                #[trigger] pre.handlers.entries@[j]).0 == k;
            crate::store::lemma_count_fst_at(pre.handlers.entries@, j);
            assert(false);
        }
        if k.0 == parent {
            assert(k.1 < pre.inodes@[parent].next_fh);
        } else if k.0 == ino {
            assert(k.1 < pre.inodes@[ino].next_fh);
        }
    }
    // directory keys stay below the allocator
    assert forall|p: u64| #[trigger] post.dirs@.contains_key(p) implies p
        < post.alloc_ino() by {
        if p != parent {
            assert(pre.dirs@.remove(parent).contains_key(p) == pre.dirs@.contains_key(p));
            assert(post.dirs@.remove(parent).contains_key(p) == post.dirs@.contains_key(p));
        }
        assert(pre.dirs@.contains_key(p));
    }
    assert(post.alloc_ino() != ROOT_INODE) by {
        assert(pre.dirs@.contains_key(parent));
    }
    // the allocator's bounds and the root's existence carry over
    assert(post.meta is Some) by {
        if pre.meta is None {
            assert(!pre.inodes@.contains_key(parent));
        }
    }
    assert forall|x: u64| post.inodes@.contains_key(x) implies ROOT_INODE <= x
        < post.meta.unwrap().inode_next by {
        assert(pre.inodes@.contains_key(x));
    }
    assert(post.meta.unwrap().inode_next > ROOT_INODE ==> post.inodes@.contains_key(
        ROOT_INODE,
    )) by {
        if post.meta.unwrap().inode_next > ROOT_INODE {
            assert(pre.inodes@.contains_key(ROOT_INODE));
            assert(deleted ==> ino != ROOT_INODE);
        }
    }
}

impl Txn {
    /// Enters an existing inode under one more name. A name already
    /// present is first removed — through `rmdir` for directories,
    /// `unlink` otherwise — so the new entry replaces the old one; the
    /// target then gains a link.
    #[verifier::rlimit(100)]
    pub fn link(&mut self, ino: u64, newparent: u64, newname: &Vec<u8>, now: TimeSpec) -> (r:
        Result<FileAttr, FsError>)
        requires
            old(self).wf(),
        ensures
            final(self).wf(),
            final(self).block_size == old(self).block_size,
            final(self).max_blocks == old(self).max_blocks,
            final(self).max_name_len == old(self).max_name_len,
            match r {
                Ok(attr) => {
                    let pre = old(self).kv;
                    let post = final(self).kv;
                    &&& post.index@ == pre.index@.insert((newparent, newname@), ino)
                    &&& post.inodes@.contains_key(ino)
                    &&& attr == post.inodes@[ino].file_attr
                    &&& attr.ino == ino
                    &&& attr.ctime == now
                    &&& post.dirs@.contains_key(newparent)
                    &&& post.dirs@.remove(newparent) == pre.dirs@.remove(newparent)
                    &&& post.dirs@[newparent]@.last().ino == ino
                    &&& post.dirs@[newparent]@.last().name@ == newname@
                    &&& post.meta == pre.meta
                    &&& post.blocks == pre.blocks
                    &&& post.handlers == pre.handlers
                    &&& pre.inodes@.contains_key(newparent)
                    &&& post.inodes@.contains_key(newparent)
                    &&& post.inodes@[newparent] == (Inode {
                        file_attr: FileAttr {
                            size: post.inodes@[newparent].file_attr.size,
                            blocks: post.inodes@[newparent].file_attr.blocks,
                            atime: now,
                            mtime: now,
                            ctime: now,
                            ..pre.inodes@[newparent].file_attr
                        },
                        inline_data: None,
                        ..pre.inodes@[newparent]
                    })
                    &&& post.inodes@[newparent].file_attr.size == crate::serialize::enc_dir(
                        post.dirs@[newparent]@,
                    ).len()
                    &&& (pre.index@.contains_key((newparent, newname@)) ==> {
                        let old_ino = pre.index@[(newparent, newname@)];
                        &&& pre.inodes@.contains_key(ino)
                        &&& post.inodes@[ino] == (Inode {
                            file_attr: FileAttr {
                                nlink: post.inodes@[ino].file_attr.nlink,
                                ctime: now,
                                ..pre.inodes@[ino].file_attr
                            },
                            ..pre.inodes@[ino]
                        })
                        &&& post.inodes@[ino].file_attr.nlink == (if old_ino == ino {
                            pre.inodes@[ino].file_attr.nlink as int
                        } else {
                            pre.inodes@[ino].file_attr.nlink + 1
                        })
                        &&& (forall|x: u64|
                            #![trigger post.inodes@.contains_key(x)]
                            #![trigger pre.inodes@.contains_key(x)]
                            x != newparent && x != ino && x != old_ino
                                ==> post.inodes@.contains_key(x) == pre.inodes@.contains_key(x)
                                && (pre.inodes@.contains_key(x) ==> post.inodes@[x]
                                == pre.inodes@[x]))
                    })
                    &&& (!pre.index@.contains_key((newparent, newname@)) ==> {
                        &&& pre.inodes@.contains_key(ino)
                        &&& attr.nlink == pre.inodes@[ino].file_attr.nlink + 1
                        &&& post.inodes@[ino] == (Inode {
                            file_attr: FileAttr {
                                nlink: (pre.inodes@[ino].file_attr.nlink + 1) as u32,
                                ctime: now,
                                ..pre.inodes@[ino].file_attr
                            },
                            ..pre.inodes@[ino]
                        })
                        &&& post.dirs@[newparent]@.len() == pre.dirs@[newparent]@.len() + 1
                        &&& post.dirs@[newparent]@.take(pre.dirs@[newparent]@.len() as int)
                            == pre.dirs@[newparent]@
                        &&& (forall|x: u64|
                            #![trigger post.inodes@.contains_key(x)]
                            #![trigger pre.inodes@.contains_key(x)]
                            x != newparent && x != ino ==> post.inodes@.contains_key(x)
                                == pre.inodes@.contains_key(x) && (pre.inodes@.contains_key(x)
                                ==> post.inodes@[x] == pre.inodes@[x]))
                    })
                },
                Err(e) => {
                    &&& *final(self) == *old(self)
                    &&& spec_link_err(*old(self), ino, newparent, newname@, e)
                },
            },
    {
        // Validate the whole operation first, so a failure after the
        // replacement step cannot strand a half-applied link.
        if ino == newparent {
            return Err(FsError::UnknownError(String::from_str("cannot link into itself")));
        }
        if newparent < ROOT_INODE {
            return Err(FsError::InodeNotFound { inode: newparent });
        }
        let target = match self.kv.inodes.get(ino) {
            Some(v) => v,
            None => {
                return Err(FsError::InodeNotFound { inode: ino });
            }
        };
        if target.file_attr.nlink == u32::MAX {
            return Err(FsError::UnknownError(String::from_str("too many links")));
        }
        let typ = target.file_attr.kind;
        let target_nlink = target.file_attr.nlink;
        let target_opened = target.opened_fh;
        if !self.kv.inodes.contains(newparent) {
            return Err(FsError::InodeNotFound { inode: newparent });
        }
        let eln_old: usize = match self.kv.dirs.get(newparent) {
            Some(d) => crate::serialize::encode_dir(d).len(),
            None => {
                return Err(FsError::BlockNotFound { inode: newparent, block: 0 });
            }
        };
        if newname.len() as u64 > 0x7fff_ffff_ffff_ff00u64 || eln_old as u64
            > 0x7fff_ffff_ffff_ffffu64 - 17 - (newname.len() as u64) {
            return Err(FsError::UnknownError(String::from_str("directory too large")));
        }
        // Replace an existing name, if any.
        match self.kv.index.get(newparent, newname) {
            Some(old_ino) => {
                proof {
                    assert(old(self).kv.inodes@.contains_key(old_ino));
                }
                let old_kind = match self.kv.inodes.get(old_ino) {
                    Some(v) => v.file_attr.kind,
                    None => {
                        proof {
                            assert(false);
                        }
                        return Err(FsError::InodeNotFound { inode: old_ino });
                    }
                };
                // Refuse before mutating a replacement that would drop the
                // target's last link, so no failure path leaves a
                // half-applied link behind.
                if old_ino == ino && target_nlink == 1 && target_opened == 0 {
                    return Err(FsError::InodeNotFound { inode: ino });
                }
                let replaced = if matches!(old_kind, FileType::Directory) {
                    self.rmdir(newparent, newname, now)
                } else {
                    self.unlink(newparent, newname, now)
                };
                if let Err(e) = replaced {
                    proof {
                        let e2 = replaced->Err_0;
                        assert(old(self).kv.inode_of(newparent) is Some);
                        assert(enc_dir(old(self).kv.dirs@[newparent]@).len() + 17
                            + newname@.len() <= 0x7fff_ffff_ffff_ffff);
                        if old_kind == FileType::Directory {
                            assert(spec_rmdir_err(*old(self), newparent, newname@, e2));
                        } else {
                            assert(spec_unlink_err(*old(self), newparent, newname@, e2));
                        }
                        assert(spec_link_err(*old(self), ino, newparent, newname@, e2));
                    }
                    return Err(e);
                }
                proof {
                    if old_ino == ino {
                        assert(self.kv.inodes@.contains_key(ino));
                    } else {
                        assert(ino != newparent && ino != old_ino);
                        assert(self.kv.inodes@.contains_key(ino));
                    }
                }
                if !self.kv.inodes.contains(ino) {
                    proof {
                        assert(false);
                    }
                    return Err(FsError::InodeNotFound { inode: ino });
                }
            }
            None => {}
        }
        let ghost mid = self.kv;
        proof {
            if !old(self).kv.index@.contains_key((newparent, newname@)) {
                assert(mid == old(self).kv);
            }
            assert(!mid.index@.contains_key((newparent, newname@)));
            assert(mid.inodes@.contains_key(newparent));
            assert(mid.dirs@.contains_key(newparent));
            assert(mid.inodes@.contains_key(ino));
            if old(self).kv.index@.contains_key((newparent, newname@)) {
                let old_ino = old(self).kv.index@[(newparent, newname@)];
                if old_ino != ino {
                    assert(mid.inodes@.contains_key(ino) == old(
                        self,
                    ).kv.inodes@.contains_key(ino));
                    assert(mid.inodes@[ino] == old(self).kv.inodes@[ino]);
                } else {
                    let ms = crate::store::imap_seq(old(self).kv.index.entries@);
                    lemma_alist_exists_entry(ms, (newparent, newname@));
                    let jj = choose|jj: int|
                        0 <= jj < ms.len() && (#[trigger] ms[jj]).0 == (
                            newparent,
                            newname@,
                        ) && ms[jj].1 == ino;
                    assert(old(self).kv.index.entries@[jj].2 == ino);
                    lemma_count_links_at(old(self).kv.index.entries@, jj);
                    assert(old(self).kv.wf_inode_at(old(self).block_size, ino));
                    assert(old(self).kv.inodes@[ino].file_attr.nlink >= 1);
                }
            } else {
                assert(mid == old(self).kv);
            }
            assert(mid.inodes@[ino].file_attr.nlink < u32::MAX);
        }
        proof {
            if old(self).kv.index@.contains_key((newparent, newname@)) {
                let d0 = old(self).kv.dirs@[newparent]@;
                let pos = choose|pos: int|
                    0 <= pos < d0.len() && (#[trigger] d0[pos]).name@ == newname@ && d0[pos].ino
                        == old(self).kv.index@[(newparent, newname@)] && mid.dirs@[newparent]@
                        == d0.remove(pos);
                crate::serialize::lemma_enc_items_remove(d0, pos);
            }
            assert(enc_dir(mid.dirs@[newparent]@).len() <= eln_old);
            assert(typ == mid.inodes@[ino].file_attr.kind);
        }
        let attr = self.link_apply(ino, newparent, newname, typ, now);
        proof {
            let preK = old(self).kv;
            let post = self.kv;
            assert(mid.wf_inode_at(old(self).block_size, ino));
            assert(mid.inodes@[ino].file_attr.ino == ino);
            assert(post.index@ =~= preK.index@.insert((newparent, newname@), ino));
            assert(post.dirs@.remove(newparent) =~= preK.dirs@.remove(newparent));
            // the parent record: only size, blocks, times and the inline
            // cache moved, whether or not a name was replaced
            if preK.index@.contains_key((newparent, newname@)) {
                let old_ino = preK.index@[(newparent, newname@)];
                assert(mid.inodes@[newparent] == (Inode {
                    file_attr: FileAttr {
                        size: mid.inodes@[newparent].file_attr.size,
                        blocks: mid.inodes@[newparent].file_attr.blocks,
                        atime: now,
                        mtime: now,
                        ctime: now,
                        ..preK.inodes@[newparent].file_attr
                    },
                    inline_data: None,
                    ..preK.inodes@[newparent]
                }));
                if old_ino == ino {
                    assert(preK.inodes@[ino].file_attr.nlink >= 1);
                    assert(mid.inodes@[ino] == (Inode {
                        file_attr: FileAttr {
                            nlink: (preK.inodes@[ino].file_attr.nlink - 1) as u32,
                            ctime: now,
                            ..preK.inodes@[ino].file_attr
                        },
                        ..preK.inodes@[ino]
                    }));
                } else {
                    assert(mid.inodes@[ino] == preK.inodes@[ino]);
                }
                assert(post.inodes@[ino] == (Inode {
                    file_attr: FileAttr {
                        nlink: post.inodes@[ino].file_attr.nlink,
                        ctime: now,
                        ..preK.inodes@[ino].file_attr
                    },
                    ..preK.inodes@[ino]
                }));
                assert forall|x: u64| x != newparent && x != ino && x != old_ino implies
                    post.inodes@.contains_key(x) == preK.inodes@.contains_key(x) && (
                preK.inodes@.contains_key(x) ==> post.inodes@[x] == preK.inodes@[x]) by {
                    assert(mid.inodes@.contains_key(x) == preK.inodes@.contains_key(x));
                    assert(preK.inodes@.contains_key(x) ==> mid.inodes@[x]
                        == preK.inodes@[x]);
                }
            } else {
                assert(mid.inodes@[newparent] == preK.inodes@[newparent]);
            }
            assert(post.inodes@[newparent] == (Inode {
                file_attr: FileAttr {
                    size: post.inodes@[newparent].file_attr.size,
                    blocks: post.inodes@[newparent].file_attr.blocks,
                    atime: now,
                    mtime: now,
                    ctime: now,
                    ..preK.inodes@[newparent].file_attr
                },
                inline_data: None,
                ..preK.inodes@[newparent]
            }));
        }
        Ok(attr)
    }

    /// The apply half of `link`: the name is free, every bound was
    /// checked, so the entry, the directory item and the link count land
    /// together.
    #[verifier::rlimit(100)]
    fn link_apply(&mut self, ino: u64, newparent: u64, newname: &Vec<u8>, typ: FileType, now:
        TimeSpec) -> (attr: FileAttr)
        requires
            old(self).wf(),
            !old(self).kv.index@.contains_key((newparent, newname@)),
            old(self).kv.inodes@.contains_key(newparent),
            old(self).kv.inodes@.contains_key(ino),
            old(self).kv.dirs@.contains_key(newparent),
            old(self).kv.inodes@[ino].file_attr.nlink < u32::MAX,
            ino != newparent,
            typ == old(self).kv.inodes@[ino].file_attr.kind,
            newname@.len() <= 0x7fff_ffff_ffff_ff00,
            enc_dir(old(self).kv.dirs@[newparent]@).len() + 17 + newname@.len()
                <= 0x7fff_ffff_ffff_ffff,
        ensures
            final(self).wf(),
            final(self).block_size == old(self).block_size,
            final(self).max_blocks == old(self).max_blocks,
            final(self).max_name_len == old(self).max_name_len,
            ({
                let pre = old(self).kv;
                let post = final(self).kv;
                &&& post.inodes@.contains_key(ino)
                &&& attr == post.inodes@[ino].file_attr
                &&& post.index@ == pre.index@.insert((newparent, newname@), ino)
                &&& post.dirs@.contains_key(newparent)
                &&& post.dirs@.remove(newparent) == pre.dirs@.remove(newparent)
                &&& post.dirs@[newparent]@.len() == pre.dirs@[newparent]@.len() + 1
                &&& post.dirs@[newparent]@.take(pre.dirs@[newparent]@.len() as int)
                    == pre.dirs@[newparent]@
                &&& post.dirs@[newparent]@.last().ino == ino
                &&& post.dirs@[newparent]@.last().name@ == newname@
                &&& post.dirs@[newparent]@.last().typ == typ
                &&& post.meta == pre.meta
                &&& post.blocks == pre.blocks
                &&& post.handlers == pre.handlers
                &&& post.inodes@.contains_key(newparent)
                &&& post.inodes@[ino] == (Inode {
                    file_attr: FileAttr {
                        nlink: (pre.inodes@[ino].file_attr.nlink + 1) as u32,
                        ctime: now,
                        ..pre.inodes@[ino].file_attr
                    },
                    ..pre.inodes@[ino]
                })
                &&& post.inodes@[newparent] == (Inode {
                    file_attr: FileAttr {
                        size: post.inodes@[newparent].file_attr.size,
                        blocks: post.inodes@[newparent].file_attr.blocks,
                        atime: now,
                        mtime: now,
                        ctime: now,
                        ..pre.inodes@[newparent].file_attr
                    },
                    inline_data: None,
                    ..pre.inodes@[newparent]
                })
                &&& post.inodes@[newparent].file_attr.size == crate::serialize::enc_dir(
                    post.dirs@[newparent]@,
                ).len()
                &&& (forall|x: u64|
                    #![trigger post.inodes@.contains_key(x)]
                    #![trigger pre.inodes@.contains_key(x)]
                    x != newparent && x != ino ==> post.inodes@.contains_key(x)
                        == pre.inodes@.contains_key(x) && (pre.inodes@.contains_key(x)
                        ==> post.inodes@[x] == pre.inodes@[x]))
            }),
    {
        let ghost mid = self.kv;
        let eln_mid: usize = match self.kv.dirs.get(newparent) {
            Some(d) => crate::serialize::encode_dir(d).len(),
            None => {
                proof {
                    assert(false);
                }
                0
            }
        };
        let name_copy = copy_bytes_vec(newname);
        self.kv.index.insert(newparent, name_copy, ino);
        let mut d = match self.kv.dirs.take(newparent) {
            Some(d) => d,
            None => {
                proof {
                    assert(false);
                }
                Vec::new()
            }
        };
        let ghost dmid = d@;
        let item_name = copy_bytes_vec(newname);
        let ghost item_g = DirItem { ino, name: item_name, typ };
        let item = DirItem { ino, name: item_name, typ };
        d.push(item);
        let new_size: u64 = (eln_mid as u64) + 17 + (newname.len() as u64);
        proof {
            assert(d@ == dmid.push(item_g));
            assert(d@.take(dmid.len() as int) =~= dmid);
            crate::serialize::lemma_enc_items_push(dmid, item_g);
            assert(crate::serialize::enc_dir(d@).len() == 8 + crate::serialize::enc_items(
                d@,
            ).len());
            assert(crate::serialize::enc_dir(dmid).len() == 8 + crate::serialize::enc_items(
                dmid,
            ).len());
            assert(new_size == crate::serialize::enc_dir(d@).len());
        }
        let mut pinode = match self.kv.inodes.take(newparent) {
            Some(v) => v,
            None => {
                proof {
                    assert(false);
                }
                Inode::from_attr(
                    FileAttr {
                        ino: 0,
                        size: 0,
                        blocks: 0,
                        atime: now,
                        mtime: now,
                        ctime: now,
                        crtime: now,
                        kind: typ,
                        perm: 0,
                        nlink: 0,
                        uid: 0,
                        gid: 0,
                        rdev: 0,
                        blksize: 0,
                        flags: 0,
                    },
                )
            }
        };
        pinode.set_size(new_size, self.block_size);
        pinode.file_attr.atime = now;
        pinode.file_attr.mtime = now;
        pinode.file_attr.ctime = now;
        pinode.inline_data = None;
        self.kv.inodes.insert(newparent, pinode);
        self.kv.dirs.insert(newparent, d);
        let mut tinode = match self.kv.inodes.take(ino) {
            Some(v) => v,
            None => {
                proof {
                    assert(false);
                }
                Inode::from_attr(
                    FileAttr {
                        ino: 0,
                        size: 0,
                        blocks: 0,
                        atime: now,
                        mtime: now,
                        ctime: now,
                        crtime: now,
                        kind: typ,
                        perm: 0,
                        nlink: 0,
                        uid: 0,
                        gid: 0,
                        rdev: 0,
                        blksize: 0,
                        flags: 0,
                    },
                )
            }
        };
        proof {
            assert(tinode == mid.inodes@[ino]);
            assert(mid.wf_inode_at(self.block_size, ino));
            assert(tinode.file_attr.ino == ino);
        }
        tinode.file_attr.nlink = tinode.file_attr.nlink + 1;
        tinode.file_attr.ctime = now;
        let attr = tinode.file_attr;
        self.kv.inodes.insert(ino, tinode);
        proof {
            let post = self.kv;
            assert(post.inodes@ =~= mid.inodes@.insert(newparent, pinode).insert(
                ino,
                post.inodes@[ino],
            ));
            assert(post.dirs@.remove(newparent) =~= mid.dirs@.remove(newparent));
            lemma_link_wf(mid, post, self.block_size, newparent, ino, now);
        }
        attr
    }
}

/// The `len` bytes of the file under `ino` starting at byte `start`, as
/// `read` must return them: written bytes verbatim, holes and short
/// blocks as zeros.
pub open spec fn read_slice(s: Store, bs: u64, ino: u64, start: int, len: int) -> Seq<u8> {
    Seq::new(len as nat, |j: int| s.file_byte(bs, ino, start + j))
}

impl Txn {
    /// Reads up to `chunk_size` bytes at `start`, clamped to the file
    /// size; bytes in holes read as zero. Freshens the access time.
    pub fn read_data(&mut self, ino: u64, start: u64, chunk_size: Option<u64>, now: TimeSpec)
        -> (r: Result<Vec<u8>, FsError>)
        requires
            old(self).wf(),
        ensures
            final(self).wf(),
            final(self).block_size == old(self).block_size,
            final(self).max_blocks == old(self).max_blocks,
            final(self).max_name_len == old(self).max_name_len,
            match r {
                Ok(data) => {
                    let pre = old(self).kv;
                    let post = final(self).kv;
                    &&& pre.inodes@.contains_key(ino)
                    &&& {
                        let size = pre.inodes@[ino].file_attr.size;
                        if start >= size {
                            data@ == Seq::<u8>::empty() && post == pre
                        } else {
                            let want = match chunk_size {
                                Some(c) => if c <= size - start {
                                    c as int
                                } else {
                                    size - start
                                },
                                None => size - start,
                            };
                            &&& data@ == read_slice(
                                pre,
                                old(self).block_size,
                                ino,
                                start as int,
                                want,
                            )
                            &&& post.inodes@ == pre.inodes@.insert(
                                ino,
                                Inode {
                                    file_attr: FileAttr {
                                        atime: now,
                                        ..pre.inodes@[ino].file_attr
                                    },
                                    ..pre.inodes@[ino]
                                },
                            )
                            &&& post.meta == pre.meta
                            &&& post.dirs == pre.dirs
                            &&& post.blocks == pre.blocks
                            &&& post.handlers == pre.handlers
                            &&& post.index == pre.index
                        }
                    }
                },
                Err(e) => {
                    &&& *final(self) == *old(self)
                    &&& spec_read_data_err(*old(self), ino, start, chunk_size, e)
                },
            },
    {
        let size = match self.kv.inodes.get(ino) {
            Some(v) => v.file_attr.size,
            None => {
                return Err(FsError::InodeNotFound { inode: ino });
            }
        };
        if start >= size {
            return Ok(Vec::new());
        }
        let max_size = size - start;
        let want: u64 = match chunk_size {
            Some(c) => if c <= max_size {
                c
            } else {
                max_size
            },
            None => max_size,
        };
        if want > usize::MAX as u64 {
            return Err(FsError::UnknownError(String::from_str("read too large")));
        }
        let n = want as usize;
        let bs = self.block_size;
        let mut data: Vec<u8> = Vec::new();
        let ghost pre = self.kv;
        let inode_ref = match self.kv.inodes.get(ino) {
            Some(v) => v,
            None => {
                proof {
                    assert(false);
                }
                return Err(FsError::InodeNotFound { inode: ino });
            }
        };
        match &inode_ref.inline_data {
            Some(inl) => {
                let mut j: usize = 0;
                while j < n
                    invariant
                        j <= n,
                        n == want,
                        pre.inodes@.contains_key(ino),
                        pre.inodes@[ino].inline_data == Some(*inl),
                        pre == self.kv,
                        start + n <= u64::MAX,
                        data@ == read_slice(pre, bs, ino, start as int, j as int),
                    decreases n - j,
                {
                    let pos128: u128 = (start as u128) + (j as u128);
                    let byte: u8 = if pos128 < inl.len() as u128 {
                        inl[(start + j as u64) as usize]
                    } else {
                        0
                    };
                    data.push(byte);
                    proof {
                        assert(pre.file_byte(bs, ino, start + j) == byte);
                        assert(data@ =~= read_slice(pre, bs, ino, start as int, j + 1));
                    }
                    j += 1;
                }
            }
            None => {
                let mut j: usize = 0;
                while j < n
                    invariant
                        j <= n,
                        n == want,
                        self.wf(),
                        bs == self.block_size,
                        pre.inodes@.contains_key(ino),
                        pre.inodes@[ino].inline_data is None,
                        pre == self.kv,
                        start + n <= u64::MAX,
                        data@ == read_slice(pre, bs, ino, start as int, j as int),
                    decreases n - j,
                {
                    let i: u64 = start + j as u64;
                    let b: u64 = i / bs;
                    let off: u64 = i % bs;
                    proof {
                        assert(off < bs) by (nonlinear_arith)
                            requires bs >= 1 && off == i % bs;
                    }
                    let byte: u8 = match self.kv.blocks.get((ino, b)) {
                        Some(blk) => {
                            if off < blk.len() as u64 {
                                blk[off as usize]
                            } else {
                                0
                            }
                        }
                        None => 0,
                    };
                    data.push(byte);
                    proof {
                        assert(pre.file_byte(bs, ino, i as int) == byte);
                        assert(data@ =~= read_slice(pre, bs, ino, start as int, j + 1));
                    }
                    j += 1;
                }
            }
        }
        // freshen the access time
        let mut inode = match self.kv.inodes.take(ino) {
            Some(v) => v,
            None => {
                proof {
                    assert(false);
                }
                return Err(FsError::InodeNotFound { inode: ino });
            }
        };
        inode.file_attr.atime = now;
        let ghost iv = inode;
        self.kv.inodes.insert(ino, inode);
        proof {
            assert(self.kv.inodes@ =~= pre.inodes@.insert(ino, iv));
            assert(pre.wf_inode_at(self.block_size, ino));
            lemma_wf_inode_update(pre, self.kv, self.block_size, iv);
        }
        Ok(data)
    }
}

/// The blocks carried by the listed inodes, added up.
pub open spec fn sum_blocks(s: Seq<(u64, Inode)>) -> int
    decreases s.len(),
{
    if s.len() == 0 {
        0
    } else {
        sum_blocks(s.drop_last()) + s.last().1.file_attr.blocks
    }
}

impl Txn {
    /// Deletes every data block under the file's current size and zeroes
    /// the size, freshening the modification and change times.
    pub fn clear_data(&mut self, ino: u64, now: TimeSpec) -> (r: Result<u64, FsError>)
        requires
            old(self).wf(),
        ensures
            final(self).wf(),
            final(self).block_size == old(self).block_size,
            final(self).max_blocks == old(self).max_blocks,
            final(self).max_name_len == old(self).max_name_len,
            match r {
                Ok(n) => {
                    let pre = old(self).kv;
                    let post = final(self).kv;
                    let bs = old(self).block_size;
                    let eb = spec_blocks_for(pre.inodes@[ino].file_attr.size, bs);
                    &&& pre.inodes@.contains_key(ino)
                    &&& n == pre.inodes@[ino].file_attr.size
                    &&& post.meta == pre.meta
                    &&& post.dirs == pre.dirs
                    &&& post.handlers == pre.handlers
                    &&& post.index == pre.index
                    &&& post.inodes@.remove(ino) == pre.inodes@.remove(ino)
                    &&& post.inodes@.contains_key(ino)
                    &&& post.inodes@[ino] == (Inode {
                        file_attr: FileAttr {
                            size: 0,
                            blocks: 0,
                            mtime: now,
                            ctime: now,
                            ..pre.inodes@[ino].file_attr
                        },
                        inline_data: None,
                        ..pre.inodes@[ino]
                    })
                    &&& (forall|k: (u64, u64)|
                        #![trigger post.blocks@.contains_key(k)]
                        #![trigger pre.blocks@.contains_key(k)]
                        {
                            &&& post.blocks@.contains_key(k) == (pre.blocks@.contains_key(k)
                                && !(k.0 == ino && k.1 < eb))
                            &&& (post.blocks@.contains_key(k) ==> post.blocks@[k]
                                == pre.blocks@[k])
                        })
                },
                Err(e) => {
                    &&& *final(self) == *old(self)
                    &&& e == (FsError::InodeNotFound { inode: ino })
                    &&& old(self).kv.inode_of(ino) is None
                },
            },
    {
        let bs = self.block_size;
        let mut inode = match self.kv.inodes.take(ino) {
            Some(v) => v,
            None => {
                return Err(FsError::InodeNotFound { inode: ino });
            }
        };
        let clear_size = inode.file_attr.size;
        proof {
            assert(old(self).kv.wf_inode_at(bs, ino));
        }
        let end_block: u64 = (clear_size + (bs - 1)) / bs;
        let ghost pre = old(self).kv;
        let mut b: u64 = 0;
        while b < end_block
            invariant
                b <= end_block,
                self.kv.blocks.wf(),
                forall|k: (u64, u64)|
                    #![trigger self.kv.blocks@.contains_key(k)]
                    #![trigger pre.blocks@.contains_key(k)]
                    {
                        &&& self.kv.blocks@.contains_key(k) == (pre.blocks@.contains_key(k)
                            && !(k.0 == ino && k.1 < b))
                        &&& (self.kv.blocks@.contains_key(k) ==> self.kv.blocks@[k]
                            == pre.blocks@[k])
                    },
                self.kv.meta == pre.meta,
                self.kv.dirs == pre.dirs,
                self.kv.handlers == pre.handlers,
                self.kv.index == pre.index,
                self.kv.inodes@ == pre.inodes@.remove(ino),
                self.kv.inodes.wf(),
                self.kv.dirs.wf(),
                self.kv.index.wf(),
                self.kv.handlers.wf(),
                self.block_size == old(self).block_size,
                self.max_blocks == old(self).max_blocks,
                self.max_name_len == old(self).max_name_len,
            decreases end_block - b,
        {
            self.kv.blocks.remove((ino, b));
            b += 1;
        }
        inode.set_size(0, bs);
        inode.file_attr.mtime = now;
        inode.file_attr.ctime = now;
        inode.inline_data = None;
        let ghost iv = inode;
        self.kv.inodes.insert(ino, inode);
        proof {
            assert(self.kv.inodes@ =~= pre.inodes@.insert(ino, iv));
            assert(pre.wf_inode_at(bs, ino));
            assert(spec_blocks_for(0, bs) == 0) by (nonlinear_arith)
                requires bs >= 1;
            lemma_wf_inode_update(pre, self.kv, bs, iv);
            assert(self.kv.inodes@.remove(ino) =~= pre.inodes@.remove(ino));
        }
        Ok(clear_size)
    }

    /// Grows a file to cover `offset + length` bytes without writing
    /// data: inline files gain explicit zeros, block files just a larger
    /// size. A target at or below the current size changes nothing.
    pub fn fallocate(&mut self, ino: u64, offset: i64, length: i64, now: TimeSpec) -> (r:
        Result<(), FsError>)
        requires
            old(self).wf(),
        ensures
            final(self).wf(),
            final(self).block_size == old(self).block_size,
            final(self).max_blocks == old(self).max_blocks,
            final(self).max_name_len == old(self).max_name_len,
            match r {
                Ok(()) => {
                    let pre = old(self).kv;
                    let post = final(self).kv;
                    let target = offset + length;
                    &&& pre.inodes@.contains_key(ino)
                    &&& (target <= pre.inodes@[ino].file_attr.size ==> post == pre)
                    &&& (target > pre.inodes@[ino].file_attr.size ==> {
                        &&& post.inodes@.contains_key(ino)
                        &&& post.inodes@[ino].file_attr.size == target
                        &&& post.inodes@[ino].file_attr.blocks == spec_blocks_for(
                            target as u64,
                            old(self).block_size,
                        )
                        &&& post.inodes@[ino].file_attr.mtime == now
                        &&& post.inodes@[ino].file_attr.ctime == now
                        &&& post.inodes@[ino].file_attr.nlink
                            == pre.inodes@[ino].file_attr.nlink
                        &&& post.inodes@.remove(ino) == pre.inodes@.remove(ino)
                        &&& post.meta == pre.meta
                        &&& post.dirs == pre.dirs
                        &&& post.handlers == pre.handlers
                        &&& post.index == pre.index
                    })
                },
                Err(e) => {
                    &&& *final(self) == *old(self)
                    &&& spec_fallocate_err(*old(self), ino, offset, length, e)
                },
            },
    {
        let bs = self.block_size;
        let thr = bs / 16;
        let size = match self.kv.inodes.get(ino) {
            Some(v) => v.file_attr.size,
            None => {
                return Err(FsError::InodeNotFound { inode: ino });
            }
        };
        let t128: i128 = offset as i128 + length as i128;
        if t128 <= size as i128 {
            return Ok(());
        }
        if t128 > 0x7fff_ffff_ffff_ffffi128 {
            return Err(FsError::UnknownError(String::from_str("size beyond maximum")));
        }
        let target: u64 = t128 as u64;
        match self.kv.inodes.get(ino) {
            Some(v) => {
                match &v.inline_data {
                    Some(d) => {
                        if target > thr && d.len() as u64 > bs {
                            return Err(FsError::UnknownError(String::from_str(
                                "inline data exceeds a block",
                            )));
                        }
                    }
                    None => {}
                }
            }
            None => {
                proof {
                    assert(false);
                }
                return Err(FsError::InodeNotFound { inode: ino });
            }
        }
        let ghost pre = self.kv;
        proof {
            assert(pre.wf_inode_at(bs, ino));
            assert(thr <= bs) by (nonlinear_arith)
                requires bs >= 1 && thr == bs / 16;
        }
        let mut inode = match self.kv.inodes.take(ino) {
            Some(v) => v,
            None => {
                proof {
                    assert(false);
                }
                return Err(FsError::InodeNotFound { inode: ino });
            }
        };
        let has_inline = matches!(&inode.inline_data, Some(_));
        proof {
            assert(inode == pre.inodes@[ino]);
            assert(inode.inline_data matches Some(d) ==> d@.len() == inode.file_attr.size);
            assert(inode.file_attr.size < target);
        }
        if has_inline && target <= thr {
            let mut inl = match inode.inline_data {
                Some(v) => v,
                None => {
                    proof {
                        assert(false);
                    }
                    Vec::new()
                }
            };
            inode.inline_data = None;
            let ghost inl0 = inl@;
            while inl.len() < target as usize
                invariant
                    inl@.len() >= inl0.len(),
                    inl@.len() <= target,
                    inl@.take(inl0.len() as int) == inl0,
                    forall|q: int| inl0.len() <= q < inl@.len() ==> inl@[q] == 0u8,
                    target <= thr <= bs <= u32::MAX,
                decreases target as int - inl@.len(),
            {
                inl.push(0);
                proof {
                    assert(inl@.take(inl0.len() as int) =~= inl0);
                }
            }
            let new_len = inl.len();
            proof {
                assert(inl0.len() < target);
                assert(new_len == target);
            }
            inode.inline_data = Some(inl);
            inode.set_size(new_len as u64, bs);
            proof {
                assert(inode.inline_data matches Some(d) ==> inode.file_attr.size <= thr);
            }
        } else if has_inline {
            // promote the inline bytes to block zero, then grow sparsely
            let mut blk0 = match inode.inline_data {
                Some(v) => v,
                None => {
                    proof {
                        assert(false);
                    }
                    Vec::new()
                }
            };
            inode.inline_data = None;
            let ghost b0 = blk0@;
            while blk0.len() < bs as usize
                invariant
                    blk0@.len() >= b0.len(),
                    blk0@.take(b0.len() as int) == b0,
                    forall|q: int| b0.len() <= q < blk0@.len() ==> blk0@[q] == 0u8,
                    bs <= u32::MAX,
                decreases bs as int - blk0@.len(),
            {
                blk0.push(0);
                proof {
                    assert(blk0@.take(b0.len() as int) =~= b0);
                }
            }
            self.kv.blocks.insert((ino, 0), blk0);
            inode.set_size(target, bs);
        } else {
            inode.set_size(target, bs);
        }
        inode.file_attr.mtime = now;
        inode.file_attr.ctime = now;
        let ghost iv = inode;
        self.kv.inodes.insert(ino, inode);
        proof {
            assert(self.kv.inodes@ =~= pre.inodes@.insert(ino, iv));
            assert(iv.file_attr.kind == FileType::Symlink || (iv.inline_data matches Some(d)
                ==> iv.file_attr.size <= thr));
            lemma_wf_inode_update(pre, self.kv, bs, iv);
            assert(self.kv.inodes@.remove(ino) =~= pre.inodes@.remove(ino));
        }
        Ok(())
    }

    /// Stores a symbolic link's target as the inode's inline data,
    /// replacing whatever was there.
    pub fn write_link(&mut self, ino: u64, data: Vec<u8>, now: TimeSpec) -> (r: Result<
        usize,
        FsError,
    >)
        requires
            old(self).wf(),
        ensures
            final(self).wf(),
            final(self).block_size == old(self).block_size,
            final(self).max_blocks == old(self).max_blocks,
            final(self).max_name_len == old(self).max_name_len,
            match r {
                Ok(n) => {
                    let pre = old(self).kv;
                    let post = final(self).kv;
                    &&& n == data@.len()
                    &&& pre.inodes@.contains_key(ino)
                    &&& post.inodes@.contains_key(ino)
                    &&& post.inodes@[ino] == (Inode {
                        file_attr: FileAttr {
                            size: data@.len() as u64,
                            blocks: post.inodes@[ino].file_attr.blocks,
                            atime: now,
                            mtime: now,
                            ctime: now,
                            ..pre.inodes@[ino].file_attr
                        },
                        inline_data: post.inodes@[ino].inline_data,
                        ..pre.inodes@[ino]
                    })
                    &&& post.inodes@[ino].inline_data matches Some(d) && d@ == data@
                    &&& post.inodes@.remove(ino) == pre.inodes@.remove(ino)
                    &&& post.meta == pre.meta
                    &&& post.dirs == pre.dirs
                    &&& post.blocks == pre.blocks
                    &&& post.handlers == pre.handlers
                    &&& post.index == pre.index
                },
                Err(e) => {
                    &&& *final(self) == *old(self)
                    &&& spec_write_link_err(*old(self), ino, data@, e)
                },
            },
    {
        let bs = self.block_size;
        let thr = bs / 16;
        match self.kv.inodes.get(ino) {
            Some(v) => {
                if !matches!(v.file_attr.kind, FileType::Symlink) && data.len() as u64 > thr {
                    return Err(FsError::UnknownError(String::from_str(
                        "link target too large for inline storage",
                    )));
                }
            }
            None => {
                return Err(FsError::InodeNotFound { inode: ino });
            }
        }
        if data.len() as u64 > 0x7fff_ffff_ffff_ffffu64 {
            return Err(FsError::UnknownError(String::from_str("link target too large")));
        }
        let ghost pre = self.kv;
        let mut inode = match self.kv.inodes.take(ino) {
            Some(v) => v,
            None => {
                proof {
                    assert(false);
                }
                return Err(FsError::InodeNotFound { inode: ino });
            }
        };
        let n = data.len();
        inode.inline_data = Some(data);
        inode.set_size(n as u64, bs);
        inode.file_attr.atime = now;
        inode.file_attr.mtime = now;
        inode.file_attr.ctime = now;
        let ghost iv = inode;
        self.kv.inodes.insert(ino, inode);
        proof {
            assert(self.kv.inodes@ =~= pre.inodes@.insert(ino, iv));
            assert(pre.wf_inode_at(bs, ino));
            lemma_wf_inode_update(pre, self.kv, bs, iv);
            assert(self.kv.inodes@.remove(ino) =~= pre.inodes@.remove(ino));
        }
        Ok(n)
    }

    /// Reads a symbolic link's target back.
    pub fn read_link(&mut self, ino: u64, now: TimeSpec) -> (r: Result<Vec<u8>, FsError>)
        requires
            old(self).wf(),
        ensures
            final(self).wf(),
            final(self).block_size == old(self).block_size,
            final(self).max_blocks == old(self).max_blocks,
            final(self).max_name_len == old(self).max_name_len,
            match r {
                Ok(data) => {
                    let pre = old(self).kv;
                    &&& pre.inodes@.contains_key(ino)
                    &&& data@ == read_slice(
                        pre,
                        old(self).block_size,
                        ino,
                        0,
                        pre.inodes@[ino].file_attr.size as int,
                    )
                },
                Err(e) => {
                    let pre = old(self).kv;
                    &&& *final(self) == *old(self)
                    &&& spec_read_data_err(
                        *old(self),
                        ino,
                        0,
                        Some(pre.inodes@[ino].file_attr.size),
                        e,
                    )
                },
            },
    {
        let size = match self.kv.inodes.get(ino) {
            Some(v) => v.file_attr.size,
            None => {
                return Err(FsError::InodeNotFound { inode: ino });
            }
        };
        if size == 0 {
            proof {
                assert(read_slice(old(self).kv, old(self).block_size, ino, 0, 0)
                    =~= Seq::<u8>::empty());
            }
            return Ok(Vec::new());
        }
        self.read_data(ino, 0, Some(size), now)
    }

    /// Reads through a handle: the absolute position is the handle's
    /// cursor plus the caller's offset.
    pub fn read(&mut self, ino: u64, fh: u64, offset: i64, size: u32, now: TimeSpec) -> (r:
        Result<Vec<u8>, FsError>)
        requires
            old(self).wf(),
        ensures
            final(self).wf(),
            final(self).block_size == old(self).block_size,
            final(self).max_blocks == old(self).max_blocks,
            final(self).max_name_len == old(self).max_name_len,
            match r {
                Ok(data) => {
                    let pre = old(self).kv;
                    let start = pre.handlers@[(ino, fh)].cursor + offset;
                    &&& pre.handlers@.contains_key((ino, fh))
                    &&& 0 <= start
                    &&& pre.inodes@.contains_key(ino)
                    &&& {
                        let fsize = pre.inodes@[ino].file_attr.size;
                        if start >= fsize {
                            data@ == Seq::<u8>::empty()
                        } else {
                            data@ == read_slice(
                                pre,
                                old(self).block_size,
                                ino,
                                start,
                                if size as int <= fsize - start {
                                    size as int
                                } else {
                                    fsize - start
                                },
                            )
                        }
                    }
                },
                Err(e) => {
                    let pre = old(self).kv;
                    &&& *final(self) == *old(self)
                    &&& if pre.handler_of(ino, fh) is None {
                        e == (FsError::FhNotFound { ino, fh })
                    } else if pre.handlers@[(ino, fh)].cursor + offset < 0 {
                        e matches FsError::InvalidOffset { .. }
                    } else if pre.handlers@[(ino, fh)].cursor + offset > i64::MAX {
                        e is UnknownError
                    } else {
                        spec_read_data_err(
                            *old(self),
                            ino,
                            (pre.handlers@[(ino, fh)].cursor + offset) as u64,
                            Some(size as u64),
                            e,
                        )
                    }
                },
            },
    {
        let h = match self.read_fh(ino, fh) {
            Ok(h) => h,
            Err(e) => {
                return Err(e);
            }
        };
        let start128: i128 = h.cursor as i128 + offset as i128;
        if start128 < 0 {
            return Err(FsError::InvalidOffset { ino, offset: start128 as i64 });
        }
        if start128 > 0x7fff_ffff_ffff_ffffi128 {
            return Err(FsError::UnknownError(String::from_str("offset beyond maximum")));
        }
        self.read_data(ino, start128 as u64, Some(size as u64), now)
    }

    /// Writes through a handle: the absolute position is the handle's
    /// cursor plus the caller's offset.
    pub fn write(&mut self, ino: u64, fh: u64, offset: i64, data: Vec<u8>, now: TimeSpec)
        -> (r: Result<usize, FsError>)
        requires
            old(self).wf(),
            old(self).kv.meta is Some,
        ensures
            final(self).wf(),
            final(self).block_size == old(self).block_size,
            final(self).max_blocks == old(self).max_blocks,
            final(self).max_name_len == old(self).max_name_len,
            match r {
                Ok(n) => {
                    let pre = old(self).kv;
                    let post = final(self).kv;
                    let bs = old(self).block_size;
                    let start = pre.handlers@[(ino, fh)].cursor + offset;
                    &&& pre.handlers@.contains_key((ino, fh))
                    &&& 0 <= start
                    &&& n == data@.len()
                    &&& pre.inodes@.contains_key(ino)
                    &&& post.inodes@.contains_key(ino)
                    &&& (forall|i: int|
                        start <= i < start + data@.len() ==> #[trigger] post.file_byte(
                            bs,
                            ino,
                            i,
                        ) == data@[i - start])
                    &&& post.inodes@[ino].file_attr.size == (if pre.inodes@[ino].file_attr.size
                        >= start + data@.len() {
                        pre.inodes@[ino].file_attr.size as int
                    } else {
                        start + data@.len()
                    })
                },
                Err(e) => {
                    let pre = old(self).kv;
                    &&& *final(self) == *old(self)
                    &&& if pre.handler_of(ino, fh) is None {
                        e == (FsError::FhNotFound { ino, fh })
                    } else if pre.handlers@[(ino, fh)].cursor + offset < 0 {
                        e matches FsError::InvalidOffset { .. }
                    } else if pre.handlers@[(ino, fh)].cursor + offset > i64::MAX {
                        e is UnknownError
                    } else {
                        spec_write_data_err(
                            *old(self),
                            ino,
                            (pre.handlers@[(ino, fh)].cursor + offset) as u64,
                            data@,
                            e,
                        )
                    }
                },
            },
    {
        let h = match self.read_fh(ino, fh) {
            Ok(h) => h,
            Err(e) => {
                return Err(e);
            }
        };
        let start128: i128 = h.cursor as i128 + offset as i128;
        if start128 < 0 {
            return Err(FsError::InvalidOffset { ino, offset: start128 as i64 });
        }
        if start128 > 0x7fff_ffff_ffff_ffffi128 {
            return Err(FsError::UnknownError(String::from_str("offset beyond maximum")));
        }
        self.write_data(ino, start128 as u64, data, now)
    }

    /// Reports usage over all live inodes, and caches the figures in the
    /// meta record for the space check on later writes.
    pub fn statfs(&mut self) -> (r: Result<StatFs, FsError>)
        requires
            old(self).wf(),
            old(self).kv.meta is Some,
        ensures
            final(self).wf(),
            final(self).block_size == old(self).block_size,
            final(self).max_blocks == old(self).max_blocks,
            final(self).max_name_len == old(self).max_name_len,
            match r {
                Ok(stat) => {
                    let pre = old(self).kv;
                    let post = final(self).kv;
                    let used = sum_blocks(pre.inodes.entries@);
                    &&& used <= u64::MAX
                    &&& stat == (StatFs {
                        blocks: match old(self).max_blocks {
                            Some(mb) => mb,
                            None => used as u64,
                        },
                        bfree: stat.bfree,
                        bavail: stat.bfree,
                        files: pre.inodes.entries@.len() as u64,
                        ffree: (u64::MAX - pre.meta.unwrap().inode_next) as u64,
                        bsize: old(self).block_size as u32,
                        namelen: old(self).max_name_len,
                        frsize: 0,
                    })
                    &&& stat.bfree == (match old(self).max_blocks {
                        Some(mb) => if mb > used {
                            (mb - used) as int
                        } else {
                            0
                        },
                        None => u64::MAX as int,
                    })
                    &&& post == (Store {
                        meta: Some(Meta { last_stat: Some(stat), ..pre.meta.unwrap() }),
                        ..pre
                    })
                },
                Err(e) => {
                    &&& *final(self) == *old(self)
                    &&& sum_blocks(old(self).kv.inodes.entries@) > u64::MAX
                    &&& e is UnknownError
                },
            },
    {
        let bsize = self.block_size as u32;
        let meta = match self.kv.meta {
            Some(m) => m,
            None => {
                proof {
                    assert(false);
                }
                return Err(FsError::UnknownError(String::from_str("store not initialized")));
            }
        };
        let next_inode = meta.inode_next;
        let mut used128: u128 = 0;
        let mut i: usize = 0;
        let files: u64 = self.kv.inodes.entries.len() as u64;
        while i < self.kv.inodes.entries.len()
            invariant
                i <= self.kv.inodes.entries@.len(),
                *self == *old(self),
                used128 == sum_blocks(self.kv.inodes.entries@.take(i as int)),
                used128 <= (i as u128) * (u64::MAX as u128),
            decreases self.kv.inodes.entries@.len() - i,
        {
            proof {
                assert(self.kv.inodes.entries@.take(i + 1).drop_last()
                    =~= self.kv.inodes.entries@.take(i as int));
                assert((i as u128) * (u64::MAX as u128) + (u64::MAX as u128) == ((i + 1) as u128)
                    * (u64::MAX as u128)) by (nonlinear_arith);
                assert(((i + 1) as u128) * (u64::MAX as u128) < u128::MAX) by (nonlinear_arith)
                    requires i + 1 <= usize::MAX;
            }
            used128 = used128 + self.kv.inodes.entries[i].1.file_attr.blocks as u128;
            i += 1;
        }
        proof {
            assert(self.kv.inodes.entries@.take(self.kv.inodes.entries@.len() as int)
                =~= self.kv.inodes.entries@);
        }
        if used128 > u64::MAX as u128 {
            return Err(FsError::UnknownError(String::from_str("usage beyond maximum")));
        }
        let used: u64 = used128 as u64;
        let ffree: u64 = u64::MAX - next_inode;
        let (blocks, bfree) = match self.max_blocks {
            Some(mb) => (mb, if mb > used {
                mb - used
            } else {
                0
            }),
            None => (used, u64::MAX),
        };
        let stat = StatFs::new(blocks, bfree, bfree, files, ffree, bsize, self.max_name_len, 0);
        let ghost pre = self.kv;
        self.kv.meta = Some(Meta { last_stat: Some(stat), ..meta });
        proof {
            let post = self.kv;
            let bs = self.block_size;
            assert forall|x: u64| post.inodes@.contains_key(x) implies
                #[trigger] post.wf_inode_at(bs, x) by {
                assert(pre.wf_inode_at(bs, x));
            }
            assert forall|p: u64, n2: Seq<u8>| #[trigger] post.index@.contains_key((
                p,
                n2,
            )) implies {
                &&& post.inodes@.contains_key(post.index@[(p, n2)])
                &&& post.dirs@.contains_key(p)
                &&& dir_has_entry(post.dirs@[p]@, n2, post.index@[(p, n2)])
            } by {
                assert(pre.index@.contains_key((p, n2)));
            }
            assert(post.wf(bs));
        }
        Ok(stat)
    }
}

/// Byte `i` of a file as the block map alone tells it: the byte of the
/// covering block, zero in holes and past a block's end.
pub open spec fn blocks_byte(bm: Map<(u64, u64), Vec<u8>>, bs: u64, ino: u64, i: int) -> u8 {
    let b = i / bs as int;
    let off = i % bs as int;
    if 0 <= b <= u64::MAX && bm.contains_key((ino, b as u64)) {
        let blk = bm[(ino, b as u64)]@;
        if off < blk.len() {
            blk[off]
        } else {
            0
        }
    } else {
        0
    }
}

impl Txn {
    /// Writes `data` at byte `start`. Small writes stay in the inode's
    /// inline area; a write crossing the inline threshold first
    /// materializes the inline bytes as block zero; block writes
    /// read-modify-write the blocks they touch. The size grows to cover
    /// the write and the times are freshened.
    #[verifier::rlimit(100)]
    pub fn write_data(&mut self, ino: u64, start: u64, data: Vec<u8>, now: TimeSpec) -> (r:
        Result<usize, FsError>)
        requires
            old(self).wf(),
            old(self).kv.meta is Some,
        ensures
            final(self).wf(),
            final(self).block_size == old(self).block_size,
            final(self).max_blocks == old(self).max_blocks,
            final(self).max_name_len == old(self).max_name_len,
            match r {
                Ok(n) => {
                    let pre = old(self).kv;
                    let post = final(self).kv;
                    let bs = old(self).block_size;
                    let len = data@.len() as int;
                    let target = start + len;
                    let thr = bs / 16;
                    let promoted = pre.inodes@[ino].inline_data is Some && target > thr;
                    let went_inline = (pre.inodes@[ino].inline_data is Some
                        || pre.inodes@[ino].file_attr.size == 0) && target <= thr;
                    &&& n == data@.len()
                    &&& pre.inodes@.contains_key(ino)
                    &&& !spec_space_exhausted(pre.meta.unwrap())
                    &&& target <= i64::MAX
                    &&& post.meta == pre.meta
                    &&& post.dirs == pre.dirs
                    &&& post.handlers == pre.handlers
                    &&& post.index == pre.index
                    &&& post.inodes@.contains_key(ino)
                    &&& post.inodes@.remove(ino) == pre.inodes@.remove(ino)
                    &&& {
                        let i0 = pre.inodes@[ino];
                        let i1 = post.inodes@[ino];
                        &&& i1.file_attr == (FileAttr {
                            size: i1.file_attr.size,
                            blocks: i1.file_attr.blocks,
                            atime: now,
                            mtime: now,
                            ctime: now,
                            ..i0.file_attr
                        })
                        &&& i1.file_attr.size == (if i0.file_attr.size >= target {
                            i0.file_attr.size as int
                        } else {
                            target
                        })
                        &&& i1.file_attr.blocks == spec_blocks_for(i1.file_attr.size, bs)
                        &&& i1.lock_state == i0.lock_state
                        &&& i1.next_fh == i0.next_fh
                        &&& i1.opened_fh == i0.opened_fh
                        &&& (i1.inline_data is Some <==> went_inline)
                    }
                    &&& (forall|k: (u64, u64)|
                        #![trigger post.blocks@.contains_key(k)]
                        #![trigger pre.blocks@.contains_key(k)]
                        k.0 != ino ==> post.blocks@.contains_key(k) == pre.blocks@.contains_key(
                            k,
                        ) && (pre.blocks@.contains_key(k) ==> post.blocks@[k]
                            == pre.blocks@[k]))
                    &&& (forall|i: int|
                        start <= i < target ==> #[trigger] post.file_byte(bs, ino, i)
                            == data@[i - start])
                    &&& (!promoted && !went_inline ==> forall|i: int|
                        0 <= i && !(start <= i < target) ==> #[trigger] post.file_byte(
                            bs,
                            ino,
                            i,
                        ) == pre.file_byte(bs, ino, i))
                    &&& (went_inline ==> post.blocks == pre.blocks)
                    &&& (pre.inodes@[ino].inline_data is Some && went_inline ==> forall|i: int|
                        0 <= i && !(start <= i < target) ==> #[trigger] post.file_byte(
                            bs,
                            ino,
                            i,
                        ) == pre.file_byte(bs, ino, i))
                    &&& (promoted ==> forall|i: int|
                        0 <= i < bs && !(start <= i < target) ==> #[trigger] post.file_byte(
                            bs,
                            ino,
                            i,
                        ) == pre.file_byte(bs, ino, i))
                    &&& (promoted ==> forall|i: int|
                        bs <= i && !(start <= i < target) ==> #[trigger] post.file_byte(
                            bs,
                            ino,
                            i,
                        ) == blocks_byte(pre.blocks@, bs, ino, i))
                },
                Err(e) => {
                    &&& *final(self) == *old(self)
                    &&& spec_write_data_err(*old(self), ino, start, data@, e)
                },
            },
    {
        let meta = match self.kv.meta {
            Some(m) => m,
            None => {
                proof {
                    assert(false);
                }
                return Err(FsError::UnknownError(String::from_str("store not initialized")));
            }
        };
        if let Err(e) = self.check_space_left(&meta) {
            return Err(e);
        }
        if !self.kv.inodes.contains(ino) {
            return Err(FsError::InodeNotFound { inode: ino });
        }
        if (start as u128) + (data.len() as u128) > 0x7fff_ffff_ffff_ffffu128 {
            return Err(FsError::UnknownError(String::from_str("write beyond maximum size")));
        }
        let bs = self.block_size;
        let thr = bs / 16;
        let len = data.len();
        let target: u64 = start + len as u64;
        proof {
            assert(thr <= bs) by (nonlinear_arith)
                requires bs >= 1 && thr == bs / 16;
        }
        let (has_inline, old_size, inline_too_big) = match self.kv.inodes.get(ino) {
            Some(v) => {
                let big = match &v.inline_data {
                    Some(d) => d.len() as u64 > bs,
                    None => false,
                };
                (matches!(&v.inline_data, Some(_)), v.file_attr.size, big)
            }
            None => {
                proof {
                    assert(false);
                }
                return Err(FsError::InodeNotFound { inode: ino });
            }
        };
        if has_inline && target > thr && inline_too_big {
            return Err(FsError::UnknownError(String::from_str("inline data exceeds a block")));
        }
        let ghost pre = self.kv;
        if (has_inline || old_size == 0) && target <= thr {
            // The write stays inline.
            let mut inode = match self.kv.inodes.take(ino) {
                Some(v) => v,
                None => {
                    proof {
                        assert(false);
                    }
                    return Err(FsError::InodeNotFound { inode: ino });
                }
            };
            let mut inl: Vec<u8> = match inode.inline_data {
                Some(v) => v,
                None => Vec::new(),
            };
            inode.inline_data = None;
            let ghost inl0 = inl@;
            while inl.len() < start as usize
                invariant
                    inl@.len() <= start || inl@ == inl0,
                    inl@.len() >= inl0.len() ==> inl@ == inl0 + Seq::new(
                        (inl@.len() - inl0.len()) as nat,
                        |q: int| 0u8,
                    ),
                    inl@.len() < inl0.len() ==> inl@ == inl0,
                    start <= thr,
                decreases start as int - inl@.len(),
            {
                proof {
                    assert(inl@ =~= inl0 + Seq::new((inl@.len() - inl0.len()) as nat, |q: int| 0u8)
                        || inl@ == inl0);
                }
                inl.push(0);
                proof {
                    if inl@.len() > inl0.len() {
                        assert(inl@ =~= inl0 + Seq::new(
                            (inl@.len() - inl0.len()) as nat,
                            |q: int| 0u8,
                        ));
                    }
                }
            }
            proof {
                assert(forall|q: int|
                    0 <= q < inl@.len() ==> inl@[q] == (if q < inl0.len() {
                        inl0[q]
                    } else {
                        0u8
                    }));
                assert(inl@.len() == (if inl0.len() >= start { inl0.len() } else { start as nat }));
                assert(pre.wf_inode_at(bs, ino));
                assert(inl0.len() <= i64::MAX);
            }
            let ghost padded = inl@;
            let mut j: usize = 0;
            while j < len
                invariant
                    j <= len,
                    len == data@.len(),
                    start + len <= thr <= bs <= u32::MAX,
                    padded.len() <= i64::MAX,
                    inl@.len() == (if padded.len() >= start + j {
                        padded.len() as int
                    } else {
                        start + j
                    }),
                    forall|q: int|
                        0 <= q < inl@.len() ==> inl@[q] == (if start <= q < start + j {
                            data@[q - start]
                        } else if q < padded.len() {
                            padded[q]
                        } else {
                            0u8
                        }),
                decreases len - j,
            {
                let qpos: usize = start as usize + j;
                if qpos < inl.len() {
                    inl[qpos] = data[j];
                } else {
                    proof {
                        assert(inl@.len() == start + j);
                    }
                    inl.push(data[j]);
                }
                j += 1;
            }
            let new_len: usize = inl.len();
            proof {
                assert(new_len == (if padded.len() >= target { padded.len() as int } else {
                    target as int
                }));
                assert(new_len <= i64::MAX);
            }
            inode.inline_data = Some(inl);
            inode.set_size(new_len as u64, bs);
            inode.file_attr.atime = now;
            inode.file_attr.mtime = now;
            inode.file_attr.ctime = now;
            let ghost iv = inode;
            self.kv.inodes.insert(ino, inode);
            proof {
                assert(self.kv.inodes@ =~= pre.inodes@.insert(ino, iv));
                assert(pre.wf_inode_at(bs, ino));
                assert(iv.file_attr.size == new_len);
                assert(iv.file_attr.kind == pre.inodes@[ino].file_attr.kind);
                assert(pre.inodes@[ino].inline_data matches Some(d) ==> inl0 == d@);
                assert(iv.file_attr.kind == FileType::Symlink || new_len <= thr) by {
                    if pre.inodes@[ino].file_attr.kind != FileType::Symlink {
                        assert(pre.inodes@[ino].inline_data matches Some(d)
                            ==> pre.inodes@[ino].file_attr.size <= thr);
                        assert(inl0.len() <= thr || pre.inodes@[ino].inline_data is None);
                    }
                }
                lemma_wf_inode_update(pre, self.kv, bs, iv);
                assert(self.kv.inodes@.remove(ino) =~= pre.inodes@.remove(ino));
                // content: written range and frame
                assert forall|i: int| start <= i < target implies #[trigger] self.kv.file_byte(
                    bs,
                    ino,
                    i,
                ) == data@[i - start] by {
                    assert(self.kv.inodes@[ino].inline_data == Some(iv.inline_data.unwrap()));
                }
                if pre.inodes@[ino].inline_data is Some {
                    assert forall|i: int| 0 <= i && !(start <= i < target) implies
                        #[trigger] self.kv.file_byte(bs, ino, i) == pre.file_byte(
                        bs,
                        ino,
                        i,
                    ) by {
                        let d0 = pre.inodes@[ino].inline_data.unwrap()@;
                        assert(inl0 == d0);
                        if i < iv.inline_data.unwrap()@.len() {
                            if i < padded.len() {
                            }
                        }
                    }
                }
            }
            return Ok(len);
        }
        // Block path: first materialize inline bytes as block zero.
        if has_inline {
            let inl_copy: Vec<u8> = match self.kv.inodes.get(ino) {
                Some(v) => match &v.inline_data {
                    Some(d) => copy_bytes_vec(d),
                    None => {
                        proof {
                            assert(false);
                        }
                        Vec::new()
                    }
                },
                None => {
                    proof {
                        assert(false);
                    }
                    Vec::new()
                }
            };
            let mut blk0 = inl_copy;
            while blk0.len() < bs as usize
                invariant
                    blk0@.len() <= bs || blk0@ == pre.inodes@[ino].inline_data.unwrap()@,
                    blk0@.len() >= pre.inodes@[ino].inline_data.unwrap()@.len(),
                    blk0@.take(pre.inodes@[ino].inline_data.unwrap()@.len() as int)
                        == pre.inodes@[ino].inline_data.unwrap()@,
                    forall|q: int|
                        pre.inodes@[ino].inline_data.unwrap()@.len() <= q < blk0@.len()
                            ==> blk0@[q] == 0u8,
                    bs <= u32::MAX,
                decreases bs as int - blk0@.len(),
            {
                blk0.push(0);
                proof {
                    assert(blk0@.take(pre.inodes@[ino].inline_data.unwrap()@.len() as int)
                        =~= pre.inodes@[ino].inline_data.unwrap()@);
                }
            }
            self.kv.blocks.insert((ino, 0), blk0);
            let mut inode = match self.kv.inodes.take(ino) {
                Some(v) => v,
                None => {
                    proof {
                        assert(false);
                    }
                    return Err(FsError::InodeNotFound { inode: ino });
                }
            };
            inode.inline_data = None;
            self.kv.inodes.insert(ino, inode);
            proof {
                assert(self.kv.inodes@ =~= pre.inodes@.insert(ino, self.kv.inodes@[ino]));
                assert(pre.wf_inode_at(bs, ino));
                lemma_wf_inode_update(pre, self.kv, bs, self.kv.inodes@[ino]);
            }
        }
        let ghost mid = self.kv;
        // Read-modify-write each touched block, byte by byte.
        let mut j: usize = 0;
        while j < len
            invariant
                j <= len,
                len == data@.len(),
                start + len == target <= i64::MAX,
                self.wf(),
                bs == self.block_size,
                1 <= bs <= u32::MAX,
                self.max_blocks == old(self).max_blocks,
                self.max_name_len == old(self).max_name_len,
                self.kv.meta == mid.meta,
                self.kv.dirs == mid.dirs,
                self.kv.handlers == mid.handlers,
                self.kv.index == mid.index,
                self.kv.inodes == mid.inodes,
                self.kv.blocks.wf(),
                forall|k: (u64, u64)|
                    #![trigger self.kv.blocks@.contains_key(k)]
                    #![trigger mid.blocks@.contains_key(k)]
                    k.0 != ino ==> self.kv.blocks@.contains_key(k) == mid.blocks@.contains_key(
                        k,
                    ) && (mid.blocks@.contains_key(k) ==> self.kv.blocks@[k] == mid.blocks@[k]),
                forall|i: int|
                    0 <= i ==> #[trigger] blocks_byte(self.kv.blocks@, bs, ino, i) == (if start
                        <= i < start + j {
                        data@[i - start]
                    } else {
                        blocks_byte(mid.blocks@, bs, ino, i)
                    }),
            decreases len - j,
        {
            let i: u64 = start + j as u64;
            let b: u64 = i / bs;
            let off: u64 = i % bs;
            let ghost snap = self.kv;
            proof {
                assert(off < bs && i == b * bs + off) by (nonlinear_arith)
                    requires bs >= 1 && b == i / bs && off == i % bs;
            }
            let ghost blocks_before = self.kv.blocks@;
            let mut blk: Vec<u8> = match self.kv.blocks.take((ino, b)) {
                Some(v) => v,
                None => Vec::new(),
            };
            let ghost blk_before = blk@;
            proof {
                assert(blk@.take(blk_before.len() as int) =~= blk_before);
            }
            while blk.len() < bs as usize
                invariant
                    blk@.len() >= blk_before.len(),
                    blk@.take(blk_before.len() as int) == blk_before,
                    forall|q: int| blk_before.len() <= q < blk@.len() ==> blk@[q] == 0u8,
                    bs <= u32::MAX,
                decreases bs as int - blk@.len(),
            {
                blk.push(0);
                proof {
                    assert(blk@.take(blk_before.len() as int) =~= blk_before);
                }
            }
            proof {
                assert(blk@.len() >= bs);
                assert(forall|q: int|
                    0 <= q < blk@.len() && q != off ==> blk@[q] == (if q < blk_before.len() {
                        blk_before[q]
                    } else {
                        0u8
                    }));
            }
            blk[off as usize] = data[j];
            let ghost blk_new = blk@;
            self.kv.blocks.insert((ino, b), blk);
            proof {
                // the new block agrees with the old bytes except at `off`
                assert forall|q: int| 0 <= q < bs && q != off implies blk_new[q] == (if q
                    < blk_before.len() {
                    blk_before[q]
                } else {
                    0u8
                }) by {}
                assert(blk_new.len() >= bs);
                assert(blk_new[off as int] == data@[j as int]);
                assert forall|i2: int| 0 <= i2 implies #[trigger] blocks_byte(
                    self.kv.blocks@,
                    bs,
                    ino,
                    i2,
                ) == (if start <= i2 < start + j + 1 {
                    data@[i2 - start]
                } else {
                    blocks_byte(mid.blocks@, bs, ino, i2)
                }) by {
                    let b2 = i2 / bs as int;
                    let off2 = i2 % bs as int;
                    assert(0 <= off2 < bs && i2 == b2 * (bs as int) + off2 && b2 >= 0)
                        by (nonlinear_arith)
                        requires bs >= 1 && b2 == i2 / bs as int && off2 == i2 % bs as int
                            && 0 <= i2;
                    let old_val = blocks_byte(blocks_before, bs, ino, i2);
                    assert(old_val == (if start <= i2 < start + j {
                        data@[i2 - start]
                    } else {
                        blocks_byte(mid.blocks@, bs, ino, i2)
                    }));
                    if b2 == b {
                        assert(i2 == b * bs + off2);
                        if off2 == off {
                            assert(i2 == i);
                            assert(blocks_byte(self.kv.blocks@, bs, ino, i2) == blk_new[
                                off as int]);
                        } else {
                            assert(i2 != i);
                            assert(blocks_byte(self.kv.blocks@, bs, ino, i2) == (if off2
                                < blk_new.len() {
                                blk_new[off2]
                            } else {
                                0u8
                            }));
                            assert(old_val == (if blocks_before.contains_key((ino, b)) {
                                if off2 < blk_before.len() {
                                    blk_before[off2]
                                } else {
                                    0u8
                                }
                            } else {
                                0u8
                            }));
                            assert(!blocks_before.contains_key((ino, b)) ==> blk_before.len()
                                == 0);
                            assert(blocks_byte(self.kv.blocks@, bs, ino, i2) == old_val);
                        }
                    } else {
                        if 0 <= b2 <= u64::MAX {
                            assert((ino, b2 as u64) != (ino, b));
                            assert(self.kv.blocks@.contains_key((ino, b2 as u64))
                                == blocks_before.contains_key((ino, b2 as u64)));
                            assert(blocks_before.contains_key((ino, b2 as u64))
                                ==> self.kv.blocks@[(ino, b2 as u64)] == blocks_before[(
                                ino,
                                b2 as u64,
                            )]);
                            assert(blocks_byte(self.kv.blocks@, bs, ino, i2) == old_val);
                        } else {
                            assert(i2 >= b2) by (nonlinear_arith)
                                requires bs >= 1 && i2 == b2 * (bs as int) + off2 && off2 >= 0
                                    && b2 >= 0;
                            assert(!(start <= i2 < start + j + 1));
                            assert(blocks_byte(self.kv.blocks@, bs, ino, i2) == 0
                                && old_val == 0);
                        }
                    }
                }
                // the store's shape is untouched by a block write
                let cur = self.kv;
                assert(cur.wf(bs)) by {
                    assert(snap.wf(bs));
                    assert(cur.inodes == snap.inodes && cur.dirs == snap.dirs && cur.handlers
                        == snap.handlers && cur.index == snap.index && cur.meta == snap.meta);
                    assert forall|x: u64| cur.inodes@.contains_key(x) implies
                        #[trigger] cur.wf_inode_at(bs, x) by {
                        assert(snap.wf_inode_at(bs, x));
                    }
                    assert forall|p: u64, n2: Seq<u8>| #[trigger] cur.index@.contains_key((
                        p,
                        n2,
                    )) implies {
                        &&& cur.inodes@.contains_key(cur.index@[(p, n2)])
                        &&& cur.dirs@.contains_key(p)
                        &&& dir_has_entry(cur.dirs@[p]@, n2, cur.index@[(p, n2)])
                    } by {
                        assert(snap.index@.contains_key((p, n2)));
                    }
                    assert forall|p: u64| #[trigger] cur.dirs@.contains_key(p) implies {
                        &&& dir_names_unique(cur.dirs@[p]@)
                        &&& (forall|q: int|
                            0 <= q < cur.dirs@[p]@.len() ==> {
                                &&& cur.index@.contains_key((p, (
                                #[trigger] cur.dirs@[p]@[q]).name@))
                                &&& cur.index@[(p, cur.dirs@[p]@[q].name@)]
                                    == cur.dirs@[p]@[q].ino
                            })
                    } by {
                        assert(snap.dirs@.contains_key(p));
                    }
                    assert forall|k: (u64, u64)| #[trigger] cur.handlers@.contains_key(
                        k,
                    ) implies cur.inodes@.contains_key(k.0) && k.1
                        < cur.inodes@[k.0].next_fh by {
                        assert(snap.handlers@.contains_key(k));
                    }
                }
            }
            j += 1;
        }
        // Grow the size over the write and freshen the times.
        let mut inode = match self.kv.inodes.take(ino) {
            Some(v) => v,
            None => {
                proof {
                    assert(false);
                }
                return Err(FsError::InodeNotFound { inode: ino });
            }
        };
        let new_size: u64 = if inode.file_attr.size >= target {
            inode.file_attr.size
        } else {
            target
        };
        proof {
            assert(mid.wf_inode_at(bs, ino));
        }
        inode.set_size(new_size, bs);
        inode.file_attr.atime = now;
        inode.file_attr.mtime = now;
        inode.file_attr.ctime = now;
        let ghost iv = inode;
        self.kv.inodes.insert(ino, inode);
        proof {
            assert(self.kv.inodes@ =~= mid.inodes@.insert(ino, iv));
            assert(mid.wf(bs));
            lemma_wf_inode_update(
                Store { blocks: self.kv.blocks, ..mid },
                self.kv,
                bs,
                iv,
            );
            assert(self.kv.inodes@.remove(ino) =~= pre.inodes@.remove(ino));
            // assemble the content claims
            assert(self.kv.inodes@[ino].inline_data is None);
            assert forall|i: int| start <= i < target implies #[trigger] self.kv.file_byte(
                bs,
                ino,
                i,
            ) == data@[i - start] by {
                assert(self.kv.file_byte(bs, ino, i) == blocks_byte(self.kv.blocks@, bs, ino, i));
            }
            if !has_inline {
                assert(pre.inodes@[ino].inline_data is None);
                assert(mid.blocks@ == pre.blocks@);
                assert forall|i: int| 0 <= i && !(start <= i < target) implies
                    #[trigger] self.kv.file_byte(bs, ino, i) == pre.file_byte(bs, ino, i) by {
                    assert(self.kv.file_byte(bs, ino, i) == blocks_byte(
                        self.kv.blocks@,
                        bs,
                        ino,
                        i,
                    ));
                    assert(pre.file_byte(bs, ino, i) == blocks_byte(pre.blocks@, bs, ino, i));
                }
            } else {
                // promoted: block zero now carries the old inline bytes
                let d0 = pre.inodes@[ino].inline_data.unwrap()@;
                assert forall|i: int| 0 <= i < bs && !(start <= i < target) implies
                    #[trigger] self.kv.file_byte(bs, ino, i) == pre.file_byte(bs, ino, i) by {
                    assert(self.kv.file_byte(bs, ino, i) == blocks_byte(
                        self.kv.blocks@,
                        bs,
                        ino,
                        i,
                    ));
                    assert(blocks_byte(self.kv.blocks@, bs, ino, i) == blocks_byte(
                        mid.blocks@,
                        bs,
                        ino,
                        i,
                    ));
                    assert(i / bs as int == 0 && i % bs as int == i) by (nonlinear_arith)
                        requires 0 <= i < bs && bs >= 1;
                    assert(mid.blocks@.contains_key((ino, 0u64)));
                    assert(pre.file_byte(bs, ino, i) == (if i < d0.len() {
                        d0[i]
                    } else {
                        0u8
                    }));
                }
                // past block zero the write left the block map as it was
                assert forall|i: int| bs <= i && !(start <= i < target) implies
                    #[trigger] self.kv.file_byte(bs, ino, i) == blocks_byte(
                    pre.blocks@,
                    bs,
                    ino,
                    i,
                ) by {
                    assert(self.kv.file_byte(bs, ino, i) == blocks_byte(
                        self.kv.blocks@,
                        bs,
                        ino,
                        i,
                    ));
                    assert(blocks_byte(self.kv.blocks@, bs, ino, i) == blocks_byte(
                        mid.blocks@,
                        bs,
                        ino,
                        i,
                    ));
                    let b2 = i / bs as int;
                    let off2 = i % bs as int;
                    assert(b2 >= 1 && 0 <= off2 < bs && i == b2 * (bs as int) + off2)
                        by (nonlinear_arith)
                        requires bs >= 1 && b2 == i / bs as int && off2 == i % bs as int
                            && i >= bs;
                    if b2 <= u64::MAX {
                        assert((ino, b2 as u64) != (ino, 0u64));
                        assert(mid.blocks@.contains_key((ino, b2 as u64))
                            == pre.blocks@.contains_key((ino, b2 as u64)));
                        assert(pre.blocks@.contains_key((ino, b2 as u64)) ==> mid.blocks@[(
                            ino,
                            b2 as u64,
                        )] == pre.blocks@[(ino, b2 as u64)]);
                    }
                }
            }
        }
        Ok(len)
    }
}

/// Entering an existing inode under one more name — index entry and
/// directory item added together, parent record refreshed, link count up
/// by one — keeps the store well formed.
#[verifier::rlimit(100)]
pub proof fn lemma_link_wf(
    pre: Store,
    post: Store,
    bs: u64,
    parent: u64,
    ino: u64,
    now: TimeSpec,
)
    requires
        pre.wf(bs),
        1 <= bs <= u32::MAX,
        parent != ino,
        ROOT_INODE <= parent,
        pre.inodes@.contains_key(parent),
        pre.inodes@.contains_key(ino),
        pre.dirs@.contains_key(parent),
        !pre.index@.contains_key((parent, post.dirs@[parent]@.last().name@)),
        pre.inodes@[ino].file_attr.nlink < u32::MAX,
        post.meta == pre.meta,
        post.maps_wf(),
        post.index@ == pre.index@.insert((parent, post.dirs@[parent]@.last().name@), ino),
        forall|x: u64|
            count_links(post.index.entries@, x) == count_links(pre.index.entries@, x) + (if x
                == ino {
                1int
            } else {
                0int
            }),
        post.handlers == pre.handlers,
        post.blocks == pre.blocks,
        post.dirs@.contains_key(parent),
        post.dirs@.remove(parent) == pre.dirs@.remove(parent),
        post.dirs@[parent]@.len() == pre.dirs@[parent]@.len() + 1,
        post.dirs@[parent]@.take(pre.dirs@[parent]@.len() as int) == pre.dirs@[parent]@,
        post.dirs@[parent]@.last().ino == ino,
        post.inodes@ == pre.inodes@.insert(parent, post.inodes@[parent]).insert(
            ino,
            post.inodes@[ino],
        ),
        post.inodes@.contains_key(parent),
        post.inodes@.contains_key(ino),
        post.inodes@[parent] == (Inode {
            file_attr: FileAttr {
                size: post.inodes@[parent].file_attr.size,
                blocks: post.inodes@[parent].file_attr.blocks,
                atime: now,
                mtime: now,
                ctime: now,
                ..pre.inodes@[parent].file_attr
            },
            inline_data: None,
            ..pre.inodes@[parent]
        }),
        post.inodes@[parent].file_attr.size <= i64::MAX,
        post.inodes@[parent].file_attr.blocks == spec_blocks_for(
            post.inodes@[parent].file_attr.size,
            bs,
        ),
        post.inodes@[ino] == (Inode {
            file_attr: FileAttr {
                nlink: (pre.inodes@[ino].file_attr.nlink + 1) as u32,
                ctime: now,
                ..pre.inodes@[ino].file_attr
            },
            ..pre.inodes@[ino]
        }),
    ensures
        post.wf(bs),
{
    let name = post.dirs@[parent]@.last().name@;
    let d0 = pre.dirs@[parent]@;
    let d1 = post.dirs@[parent]@;
    assert(pre.meta is Some) by {
        if pre.meta is None {
            assert(!pre.inodes@.contains_key(parent));
        }
    }
    assert(pre.wf_inode_at(bs, parent));
    assert(pre.wf_inode_at(bs, ino));
    assert(!dir_has_name(d0, name)) by {
        if dir_has_name(d0, name) {
            let j = choose|j: int| 0 <= j < d0.len() && (#[trigger] d0[j]).name@ == name;
            assert(pre.index@.contains_key((parent, d0[j].name@)));
        }
    }
    assert forall|x: u64| post.inodes@.contains_key(x) implies ROOT_INODE <= x
        < post.meta.unwrap().inode_next by {
        assert(pre.inodes@.contains_key(x));
    }
    assert(post.meta.unwrap().inode_next > ROOT_INODE ==> post.inodes@.contains_key(
        ROOT_INODE,
    )) by {
        if post.meta.unwrap().inode_next > ROOT_INODE {
            assert(pre.inodes@.contains_key(ROOT_INODE));
        }
    }
    assert forall|p: u64| #[trigger] post.dirs@.contains_key(p) implies p
        < post.alloc_ino() by {
        if p != parent {
            assert(pre.dirs@.remove(parent).contains_key(p) == pre.dirs@.contains_key(p));
            assert(post.dirs@.remove(parent).contains_key(p) == post.dirs@.contains_key(p));
        }
        assert(pre.dirs@.contains_key(p));
    }
    assert(post.alloc_ino() != ROOT_INODE) by {
        assert(pre.dirs@.contains_key(parent));
    }
    assert forall|x: u64| post.inodes@.contains_key(x) implies #[trigger] post.wf_inode_at(
        bs,
        x,
    ) by {
        if x == ino {
            assert(count_links(post.index.entries@, ino) == count_links(
                pre.index.entries@,
                ino,
            ) + 1);
        } else if x == parent {
            assert(count_links(post.index.entries@, parent) == count_links(
                pre.index.entries@,
                parent,
            ));
        } else {
            assert(pre.inodes@.contains_key(x));
            assert(pre.wf_inode_at(bs, x));
            assert(post.inodes@[x] == pre.inodes@[x]);
        }
    }
    assert forall|p: u64, n: Seq<u8>| #[trigger] post.index@.contains_key((p, n)) implies {
        &&& post.inodes@.contains_key(post.index@[(p, n)])
        &&& post.dirs@.contains_key(p)
        &&& dir_has_entry(post.dirs@[p]@, n, post.index@[(p, n)])
    } by {
        if p == parent && n == name {
            assert(post.index@[(p, n)] == ino);
            assert(d1[d1.len() - 1].name@ == name && d1[d1.len() - 1].ino == ino);
            assert(dir_has_entry(d1, name, ino));
        } else {
            assert(pre.index@.contains_key((p, n)));
            assert(post.index@[(p, n)] == pre.index@[(p, n)]);
            assert(pre.inodes@.contains_key(pre.index@[(p, n)]));
            assert(post.inodes@.contains_key(pre.index@[(p, n)])) by {
                let v = pre.index@[(p, n)];
                if v != parent && v != ino {
                    assert(post.inodes@.contains_key(v));
                }
            }
            assert(pre.dirs@.contains_key(p));
            assert(post.dirs@.contains_key(p)) by {
                if p != parent {
                    assert(pre.dirs@.remove(parent).contains_key(p) == pre.dirs@.contains_key(
                        p,
                    ));
                    assert(post.dirs@.remove(parent).contains_key(p)
                        == post.dirs@.contains_key(p));
                }
            }
            if p == parent {
                assert(dir_has_entry(d0, n, pre.index@[(p, n)]));
                let j = choose|j: int|
                    0 <= j < d0.len() && (#[trigger] d0[j]).name@ == n && d0[j].ino
                        == pre.index@[(p, n)];
                assert(d1.take(d0.len() as int)[j] == d0[j]);
                assert(d1[j] == d0[j]);
                assert(dir_has_entry(d1, n, post.index@[(p, n)]));
            } else {
                assert(post.dirs@.remove(parent)[p] == pre.dirs@.remove(parent)[p]);
                assert(post.dirs@.remove(parent)[p] == post.dirs@[p]);
                assert(pre.dirs@.remove(parent)[p] == pre.dirs@[p]);
                assert(post.dirs@[p] == pre.dirs@[p]);
            }
        }
    }
    assert forall|p: u64| #[trigger] post.dirs@.contains_key(p) implies {
        &&& dir_names_unique(post.dirs@[p]@)
        &&& (forall|i: int|
            0 <= i < post.dirs@[p]@.len() ==> {
                &&& post.index@.contains_key((p, (#[trigger] post.dirs@[p]@[i]).name@))
                &&& post.index@[(p, post.dirs@[p]@[i].name@)] == post.dirs@[p]@[i].ino
            })
    } by {
        if p == parent {
            assert(dir_names_unique(d0));
            assert forall|a: int, b: int| 0 <= a < b < d1.len() implies (
            #[trigger] d1[a]).name@ != (#[trigger] d1[b]).name@ by {
                if b < d0.len() {
                    assert(d1.take(d0.len() as int)[a] == d0[a]);
                    assert(d1.take(d0.len() as int)[b] == d0[b]);
                } else {
                    assert(d1[b] == d1.last());
                    assert(d1.take(d0.len() as int)[a] == d0[a]);
                    assert(d1[a] == d0[a]);
                    if d0[a].name@ == name {
                        assert(dir_has_name(d0, name));
                    }
                }
            }
            assert forall|i: int| 0 <= i < d1.len() implies {
                &&& post.index@.contains_key((p, (#[trigger] d1[i]).name@))
                &&& post.index@[(p, d1[i].name@)] == d1[i].ino
            } by {
                if i < d0.len() {
                    assert(d1.take(d0.len() as int)[i] == d0[i]);
                    assert(d1[i] == d0[i]);
                    assert(pre.index@.contains_key((p, d0[i].name@)));
                    assert(d0[i].name@ != name) by {
                        if d0[i].name@ == name {
                            assert(dir_has_name(d0, name));
                        }
                    }
                } else {
                    assert(d1[i] == d1.last());
                }
            }
        } else {
            assert(pre.dirs@.remove(parent).contains_key(p) == pre.dirs@.contains_key(p));
            assert(post.dirs@.remove(parent).contains_key(p) == post.dirs@.contains_key(p));
            assert(pre.dirs@.contains_key(p));
            assert(post.dirs@.remove(parent)[p] == pre.dirs@.remove(parent)[p]);
            assert(post.dirs@.remove(parent)[p] == post.dirs@[p]);
            assert(pre.dirs@.remove(parent)[p] == pre.dirs@[p]);
            assert(post.dirs@[p] == pre.dirs@[p]);
            assert forall|i: int| 0 <= i < post.dirs@[p]@.len() implies {
                &&& post.index@.contains_key((p, (#[trigger] post.dirs@[p]@[i]).name@))
                &&& post.index@[(p, post.dirs@[p]@[i].name@)] == post.dirs@[p]@[i].ino
            } by {
                assert(pre.index@.contains_key((p, post.dirs@[p]@[i].name@)));
            }
        }
    }
    assert forall|k: (u64, u64)| #[trigger] post.handlers@.contains_key(k) implies
        post.inodes@.contains_key(k.0) && k.1 < post.inodes@[k.0].next_fh by {
        assert(pre.handlers@.contains_key(k));
        assert(pre.inodes@.contains_key(k.0));
        if k.0 == parent {
            assert(k.1 < pre.inodes@[parent].next_fh);
        } else if k.0 == ino {
            assert(k.1 < pre.inodes@[ino].next_fh);
        }
    }
}

/// The meta record a transaction starts from: the stored one, or a fresh
/// one under this mount's block size.
pub open spec fn spec_meta_or_default(pre: Store, bs: u64) -> Meta {
    match pre.meta {
        Some(m) => m,
        None => Meta { inode_next: ROOT_INODE, block_size: bs, last_stat: None },
    }
}

/// A newly created inode record: the given attributes, no lock, no inline
/// data, no handles.
pub open spec fn spec_is_fresh_inode(ind: Inode, attr: FileAttr) -> bool {
    &&& ind.file_attr == attr
    &&& ind.lock_state.owner_set@.len() == 0
    &&& ind.lock_state.lk_type == F_UNLCK
    &&& ind.inline_data is None
    &&& ind.next_fh == 0
    &&& ind.opened_fh == 0
}

/// Creating a fresh inode under an existing parent — index entry and
/// directory item added together, parent record refreshed — keeps the
/// store well formed.
#[verifier::rlimit(100)]
pub proof fn lemma_make_inode_wf(
    pre: Store,
    post: Store,
    bs: u64,
    parent: u64,
    ino: u64,
    attr: FileAttr,
    pv: Inode,
    now: TimeSpec,
)
    requires
        pre.wf(bs),
        1 <= bs <= u32::MAX,
        ino == pre.alloc_ino(),
        ino < u64::MAX,
        parent >= ROOT_INODE,
        pre.inodes@.contains_key(parent),
        pre.dirs@.contains_key(parent),
        !pre.index@.contains_key((parent, post.dirs@[parent]@.last().name@)),
        post.meta == Some(
            Meta { inode_next: (ino + 1) as u64, ..spec_meta_or_default(pre, bs) },
        ),
        post.maps_wf(),
        post.index@ == pre.index@.insert((parent, post.dirs@[parent]@.last().name@), ino),
        forall|x: u64|
            count_links(post.index.entries@, x) == count_links(pre.index.entries@, x) + (if x
                == ino {
                1int
            } else {
                0int
            }),
        post.handlers == pre.handlers,
        post.blocks == pre.blocks,
        post.dirs@.contains_key(parent),
        post.dirs@.remove(parent) == pre.dirs@.remove(parent),
        post.dirs@[parent]@.len() == pre.dirs@[parent]@.len() + 1,
        post.dirs@[parent]@.take(pre.dirs@[parent]@.len() as int) == pre.dirs@[parent]@,
        post.dirs@[parent]@.last().ino == ino,
        post.inodes@ == pre.inodes@.insert(parent, pv).insert(ino, post.inodes@[ino]),
        spec_is_fresh_inode(post.inodes@[ino], attr),
        attr.ino == ino,
        attr.size == 0,
        attr.blocks == 0,
        attr.nlink == 1,
        pv == (Inode {
            file_attr: FileAttr {
                size: pv.file_attr.size,
                blocks: pv.file_attr.blocks,
                atime: now,
                mtime: now,
                ctime: now,
                ..pre.inodes@[parent].file_attr
            },
            inline_data: None,
            ..pre.inodes@[parent]
        }),
        pv.file_attr.size <= i64::MAX,
        pv.file_attr.blocks == spec_blocks_for(pv.file_attr.size, bs),
    ensures
        post.wf(bs),
{
    let name = post.dirs@[parent]@.last().name@;
    let ni = post.inodes@[ino];
    let d0 = pre.dirs@[parent]@;
    let d1 = post.dirs@[parent]@;
    assert(pre.meta is Some) by {
        if pre.meta is None {
            assert(!pre.inodes@.contains_key(parent));
        }
    }
    assert(parent < ino);
    assert(ino != parent && ino != ROOT_INODE && parent != ROOT_INODE || parent == ROOT_INODE);
    assert(pre.wf_inode_at(bs, parent));
    // the fresh inode has no index entries and no handles yet
    assert forall|j: int| 0 <= j < pre.index.entries@.len() implies (
    #[trigger] pre.index.entries@[j]).2 != ino by {
        let ms = crate::store::imap_seq(pre.index.entries@);
        assert(ms[j] == ((pre.index.entries@[j].0, pre.index.entries@[j].1@),
            pre.index.entries@[j].2));
        crate::store::lemma_alist_at(ms, j);
        assert(pre.index@.contains_key(ms[j].0));
        assert(pre.inodes@.contains_key(pre.index@[ms[j].0]));
    }
    lemma_count_links_none(pre.index.entries@, ino);
    assert forall|j: int| 0 <= j < pre.handlers.entries@.len() implies (
    #[trigger] pre.handlers.entries@[j]).0.0 != ino by {
        crate::store::lemma_alist_at(pre.handlers.entries@, j);
        assert(pre.handlers@.contains_key(pre.handlers.entries@[j].0));
        assert(pre.inodes@.contains_key(pre.handlers.entries@[j].0.0));
    }
    lemma_count_fst_none(pre.handlers.entries@, ino);
    // no directory item of the parent already carries the new name
    assert(!dir_has_name(d0, name)) by {
        if dir_has_name(d0, name) {
            let j = choose|j: int| 0 <= j < d0.len() && (#[trigger] d0[j]).name@ == name;
            assert(pre.index@.contains_key((parent, d0[j].name@)));
        }
    }
    // meta bounds
    assert forall|x: u64| post.inodes@.contains_key(x) implies ROOT_INODE <= x < ino + 1 by {
        if x != ino && x != parent {
            assert(pre.inodes@.contains_key(x));
        }
    }
    assert(pre.meta matches Some(m) && m.inode_next == ino);
    assert(pre.inodes@.contains_key(ROOT_INODE) || parent == ROOT_INODE) by {
        assert(parent >= ROOT_INODE && parent < ino);
    }
    assert(post.inodes@.contains_key(ROOT_INODE));
    assert forall|p: u64| #[trigger] post.dirs@.contains_key(p) implies p < post.alloc_ino() by {
        if p != parent {
            assert(pre.dirs@.remove(parent).contains_key(p));
            assert(pre.dirs@.contains_key(p));
        }
    }
    // each inode record stays coherent
    assert forall|x: u64| post.inodes@.contains_key(x) implies #[trigger] post.wf_inode_at(
        bs,
        x,
    ) by {
        if x == ino {
            assert(count_links(post.index.entries@, ino) == 1);
            assert(ino != ROOT_INODE);
            assert(ni.lock_state.wf());
            assert(spec_blocks_for(0, bs) == 0) by (nonlinear_arith)
                requires bs >= 1;
            assert(count_fst(post.handlers.entries@, ino) == count_fst(
                pre.handlers.entries@,
                ino,
            ));
        } else if x == parent {
            assert(pre.wf_inode_at(bs, parent));
            assert(post.inodes@[parent] == pv);
            assert(count_links(post.index.entries@, parent) == count_links(
                pre.index.entries@,
                parent,
            ));
        } else {
            assert(pre.inodes@.contains_key(x));
            assert(pre.wf_inode_at(bs, x));
            assert(post.inodes@[x] == pre.inodes@[x]);
        }
    }
    // index entries and directory items keep agreeing
    assert forall|p: u64, n: Seq<u8>| #[trigger] post.index@.contains_key((p, n)) implies {
        &&& post.inodes@.contains_key(post.index@[(p, n)])
        &&& post.dirs@.contains_key(p)
        &&& dir_has_entry(post.dirs@[p]@, n, post.index@[(p, n)])
    } by {
        if p == parent && n == name {
            assert(post.index@[(p, n)] == ino);
            assert(post.inodes@.contains_key(ino));
            assert(post.dirs@.contains_key(parent));
            assert(d1[d1.len() - 1].name@ == name && d1[d1.len() - 1].ino == ino);
            assert(dir_has_entry(d1, name, ino));
            assert(post.dirs@[p]@ == d1);
        } else {
            assert(pre.index@.contains_key((p, n)));
            assert(post.index@[(p, n)] == pre.index@[(p, n)]);
            assert(pre.inodes@.contains_key(pre.index@[(p, n)]));
            assert(post.inodes@.contains_key(pre.index@[(p, n)])) by {
                let v = pre.index@[(p, n)];
                assert(post.inodes@ == pre.inodes@.insert(parent, pv).insert(ino,
                    post.inodes@[ino]));
                if v != parent && v != ino {
                    assert(post.inodes@.contains_key(v));
                }
            }
            assert(pre.dirs@.contains_key(p));
            assert(post.dirs@.contains_key(p)) by {
                if p != parent {
                    assert(pre.dirs@.remove(parent).contains_key(p));
                    assert(post.dirs@.remove(parent).contains_key(p));
                }
            }
            if p == parent {
                assert(dir_has_entry(d0, n, pre.index@[(p, n)]));
                let j = choose|j: int|
                    0 <= j < d0.len() && (#[trigger] d0[j]).name@ == n && d0[j].ino
                        == pre.index@[(p, n)];
                assert(d1.take(d0.len() as int)[j] == d0[j]);
                assert(d1[j] == d0[j]);
                assert(dir_has_entry(d1, n, post.index@[(p, n)]));
            } else {
                assert(post.dirs@.remove(parent)[p] == pre.dirs@.remove(parent)[p]);
                assert(post.dirs@.remove(parent)[p] == post.dirs@[p]);
                assert(pre.dirs@.remove(parent)[p] == pre.dirs@[p]);
                assert(post.dirs@[p] == pre.dirs@[p]);
            }
        }
    }
    // each directory's items stay uniquely named and indexed
    assert forall|p: u64| #[trigger] post.dirs@.contains_key(p) implies {
        &&& dir_names_unique(post.dirs@[p]@)
        &&& (forall|i: int|
            0 <= i < post.dirs@[p]@.len() ==> {
                &&& post.index@.contains_key((p, (#[trigger] post.dirs@[p]@[i]).name@))
                &&& post.index@[(p, post.dirs@[p]@[i].name@)] == post.dirs@[p]@[i].ino
            })
    } by {
        if p == parent {
            assert(dir_names_unique(d0));
            assert forall|a: int, b: int| 0 <= a < b < d1.len() implies (
            #[trigger] d1[a]).name@ != (#[trigger] d1[b]).name@ by {
                if b < d0.len() {
                    assert(d1.take(d0.len() as int)[a] == d0[a]);
                    assert(d1.take(d0.len() as int)[b] == d0[b]);
                } else {
                    assert(d1[b] == d1.last());
                    assert(d1.take(d0.len() as int)[a] == d0[a]);
                    assert(d1[a] == d0[a]);
                    if d0[a].name@ == name {
                        assert(dir_has_name(d0, name));
                    }
                }
            }
            assert forall|i: int| 0 <= i < d1.len() implies {
                &&& post.index@.contains_key((p, (#[trigger] d1[i]).name@))
                &&& post.index@[(p, d1[i].name@)] == d1[i].ino
            } by {
                if i < d0.len() {
                    assert(d1.take(d0.len() as int)[i] == d0[i]);
                    assert(d1[i] == d0[i]);
                    assert(pre.index@.contains_key((p, d0[i].name@)));
                    assert(d0[i].name@ != name) by {
                        if d0[i].name@ == name {
                            assert(dir_has_name(d0, name));
                        }
                    }
                } else {
                    assert(d1[i] == d1.last());
                }
            }
        } else {
            assert(post.dirs@.remove(parent).contains_key(p));
            assert(pre.dirs@.contains_key(p));
            assert(post.dirs@.remove(parent)[p] == pre.dirs@.remove(parent)[p]);
            assert(post.dirs@.remove(parent)[p] == post.dirs@[p]);
            assert(pre.dirs@.remove(parent)[p] == pre.dirs@[p]);
            assert(post.dirs@[p] == pre.dirs@[p]);
            assert forall|i: int| 0 <= i < post.dirs@[p]@.len() implies {
                &&& post.index@.contains_key((p, (#[trigger] post.dirs@[p]@[i]).name@))
                &&& post.index@[(p, post.dirs@[p]@[i].name@)] == post.dirs@[p]@[i].ino
            } by {
                assert(pre.index@.contains_key((p, post.dirs@[p]@[i].name@)));
            }
        }
    }
    // handles still point at live inodes below their allocator
    assert forall|k: (u64, u64)| #[trigger] post.handlers@.contains_key(k) implies
        post.inodes@.contains_key(k.0) && k.1 < post.inodes@[k.0].next_fh by {
        assert(pre.handlers@.contains_key(k));
        assert(pre.inodes@.contains_key(k.0));
        if k.0 == parent {
            assert(k.1 < pre.inodes@[parent].next_fh);
        } else {
            assert(k.0 != ino);
        }
    }
}

/// Creating the root inode in an unallocated store keeps it well formed.
pub proof fn lemma_make_root_wf(pre: Store, post: Store, bs: u64, attr: FileAttr)
    requires
        pre.wf(bs),
        1 <= bs <= u32::MAX,
        pre.alloc_ino() == ROOT_INODE,
        post.meta == Some(
            Meta { inode_next: (ROOT_INODE + 1) as u64, ..spec_meta_or_default(pre, bs) },
        ),
        post.maps_wf(),
        post.index == pre.index,
        post.dirs == pre.dirs,
        post.handlers == pre.handlers,
        post.blocks == pre.blocks,
        post.inodes@ == pre.inodes@.insert(ROOT_INODE, post.inodes@[ROOT_INODE]),
        spec_is_fresh_inode(post.inodes@[ROOT_INODE], attr),
        attr.ino == ROOT_INODE,
        attr.size == 0,
        attr.blocks == 0,
        attr.nlink == 1,
    ensures
        post.wf(bs),
{
    let ni = post.inodes@[ROOT_INODE];
    assert forall|x: u64| !pre.inodes@.contains_key(x) by {
        if pre.inodes@.contains_key(x) {
            assert(pre.meta matches Some(m) && m.inode_next == ROOT_INODE);
            assert(ROOT_INODE <= x < ROOT_INODE);
        }
    }
    assert(pre.index.entries@.len() == 0) by {
        if pre.index.entries@.len() > 0 {
            let ms = crate::store::imap_seq(pre.index.entries@);
            assert(ms[0] == ((pre.index.entries@[0].0, pre.index.entries@[0].1@),
                pre.index.entries@[0].2));
            crate::store::lemma_alist_at(ms, 0);
            assert(pre.index@.contains_key(ms[0].0));
            assert(pre.inodes@.contains_key(pre.index@[ms[0].0]));
        }
    }
    assert forall|x: u64| count_links(pre.index.entries@, x) == 0 by {
        crate::store::lemma_count_links_le_len(pre.index.entries@, x);
    }
    assert(pre.handlers.entries@.len() == 0) by {
        if pre.handlers.entries@.len() > 0 {
            crate::store::lemma_alist_at(pre.handlers.entries@, 0);
            assert(pre.handlers@.contains_key(pre.handlers.entries@[0].0));
            assert(pre.inodes@.contains_key(pre.handlers.entries@[0].0.0));
        }
    }
    assert forall|x: u64| count_fst(pre.handlers.entries@, x) == 0 by {
        crate::store::lemma_count_fst_le_len(pre.handlers.entries@, x);
    }
    assert forall|x: u64| post.inodes@.contains_key(x) implies #[trigger] post.wf_inode_at(
        bs,
        x,
    ) by {
        assert(x == ROOT_INODE);
        assert(ni.lock_state.wf());
        assert(spec_blocks_for(0, bs) == 0) by (nonlinear_arith)
            requires bs >= 1;
        assert(count_links(post.index.entries@, ROOT_INODE) == 0);
        assert(count_fst(post.handlers.entries@, ROOT_INODE) == 0);
    }
    assert forall|p: u64, n: Seq<u8>| #[trigger] post.index@.contains_key((p, n)) implies
        false by {
        assert(pre.index@.contains_key((p, n)));
        assert(pre.inodes@.contains_key(pre.index@[(p, n)]));
    }
    assert forall|p: u64| #[trigger] post.dirs@.contains_key(p) implies false by {
        assert(pre.dirs@.contains_key(p));
    }
    assert forall|k: (u64, u64)| #[trigger] post.handlers@.contains_key(k) implies false by {
        assert(pre.handlers@.contains_key(k));
        assert(pre.inodes@.contains_key(k.0));
    }
}

/// Replacing one inode record with a coherent successor — same link and
/// handle counts, no lower handle allocator — keeps the store well
/// formed, whatever happened to the data blocks.
pub proof fn lemma_wf_inode_update(pre: Store, post: Store, bs: u64, v: Inode)
    requires
        pre.wf(bs),
        pre.inodes@.contains_key(v.file_attr.ino),
        post.meta == pre.meta,
        post.dirs == pre.dirs,
        post.handlers == pre.handlers,
        post.index == pre.index,
        post.blocks.wf(),
        post.inodes.wf(),
        post.inodes@ == pre.inodes@.insert(v.file_attr.ino, v),
        v.file_attr.size <= i64::MAX,
        v.file_attr.blocks == spec_blocks_for(v.file_attr.size, bs),
        v.lock_state.wf(),
        (v.inline_data matches Some(d) ==> d@.len() == v.file_attr.size && (v.file_attr.kind
            == FileType::Symlink || v.file_attr.size <= bs / 16)),
        v.file_attr.nlink == pre.inodes@[v.file_attr.ino].file_attr.nlink,
        v.opened_fh == pre.inodes@[v.file_attr.ino].opened_fh,
        v.next_fh >= pre.inodes@[v.file_attr.ino].next_fh,
    ensures
        post.wf(bs),
{
    let ino = v.file_attr.ino;
    assert(pre.wf_inode_at(bs, ino));
    assert forall|x: u64| post.inodes@.contains_key(x) implies #[trigger] post.wf_inode_at(
        bs,
        x,
    ) by {
        if x == ino {
            assert(pre.wf_inode_at(bs, ino));
        } else {
            assert(pre.inodes@.contains_key(x));
            assert(pre.wf_inode_at(bs, x));
            assert(post.inodes@[x] == pre.inodes@[x]);
        }
    }
    assert forall|parent: u64, name: Seq<u8>| #[trigger] post.index@.contains_key((
        parent,
        name,
    )) implies {
        &&& post.inodes@.contains_key(post.index@[(parent, name)])
        &&& post.dirs@.contains_key(parent)
        &&& dir_has_entry(post.dirs@[parent]@, name, post.index@[(parent, name)])
    } by {
        assert(pre.index@.contains_key((parent, name)));
    }
    assert forall|k: (u64, u64)| #[trigger] post.handlers@.contains_key(k) implies
        post.inodes@.contains_key(k.0) && k.1 < post.inodes@[k.0].next_fh by {
        assert(pre.handlers@.contains_key(k));
        if k.0 == ino {
            assert(k.1 < pre.inodes@[ino].next_fh);
        }
    }
}

/// Whether the cached statfs reports the store full.
pub open spec fn spec_space_exhausted(meta: Meta) -> bool {
    meta.last_stat matches Some(st) && st.bavail == 0
}

/// The name bytes carried by a name-bearing error.
pub open spec fn spec_err_name(e: FsError) -> Vec<u8> {
    match e {
        FsError::FileNotFound { file } => file,
        FsError::FileExist { file } => file,
        FsError::NameTooLong { file } => file,
        FsError::DirNotEmpty { dir } => dir,
        _ => arbitrary(),
    }
}

/// A fresh vector holding these bytes.
pub fn copy_bytes_vec(v: &Vec<u8>) -> (r: Vec<u8>)
    ensures
        r@ == v@,
{
    let mut out: Vec<u8> = Vec::new();
    let mut i: usize = 0;
    while i < v.len()
        invariant
            i <= v@.len(),
            out@ == v@.take(i as int),
        decreases v@.len() - i,
    {
        out.push(v[i]);
        proof {
            assert(out@ =~= v@.take(i + 1));
        }
        i += 1;
    }
    proof {
        assert(out@ =~= v@);
    }
    out
}

} // verus!
