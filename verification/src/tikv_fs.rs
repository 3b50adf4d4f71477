//! The POSIX-shaped facade: one method per filesystem request, each run
//! inside one transaction. The surrounding process owns the snapshot
//! loop — begin, run one of these, commit or retry — and the kernel
//! bridge; everything the requests decide happens here.

use vstd::prelude::*;
use vstd::string::*;
use crate::error::FsError;
use crate::inode::{FileAttr, Inode, TimeSpec, F_RDLCK, F_UNLCK, F_WRLCK};
use crate::key::ROOT_INODE;
use crate::mode::{make_mode, FileType};
use crate::mount::{opt_size_of, parse_size_text, MountOption};
use crate::reply::{
    Attr, Create, Data, Dir, DirItem, Entry, Lock, Lseek, Open, StatFs, Write, Xattr,
};
use crate::store::{count_fst, dir_has_entry};
use crate::transaction::{
    copy_bytes_vec, spec_err_name, spec_fallocate_err, spec_link_err, spec_make_inode_err,
    spec_read_data_err, spec_rmdir_err, spec_unlink_err, spec_write_data_err,
    spec_write_link_err, sum_blocks, Txn,
};

verus! {

pub const SCAN_LIMIT: u32 = 1024;
pub const DEFAULT_BLOCK_SIZE: u64 = 65536;
pub const MAX_NAME_LEN: u32 = 256;

/// The kernel's `O_DIRECT` flag on this platform.
pub const O_DIRECT: i32 = 16384;

/// The reply flag asking the kernel to bypass its page cache.
pub const FOPEN_DIRECT_IO: u32 = 1;

pub const SEEK_SET: i32 = 0;
pub const SEEK_CUR: i32 = 1;
pub const SEEK_END: i32 = 2;

/// A timestamp argument to `setattr`: a given time, or the call's time.
#[derive(Clone, Copy, Debug, PartialEq, Eq)]
pub enum TimeOrNow {
    SpecificTime(TimeSpec),
    Now,
}

/// One mount's configuration: the endpoints the process dials, and the
/// options the engine itself reads.
pub struct TiFs {
    pub pd_endpoints: Vec<String>,
    pub direct_io: bool,
    pub block_size: u64,
    pub max_size: Option<u64>,
}

/// The block size the option list picks: the first `blksize` whose text
/// denotes a size, or the default.
pub open spec fn spec_opt_block_size(opts: Seq<MountOption>) -> u64
    decreases opts.len(),
{
    if opts.len() == 0 {
        DEFAULT_BLOCK_SIZE
    } else {
        match opts[0] {
            MountOption::BlkSize(v) => match opt_size_of(v@) {
                Some(n) => n,
                None => spec_opt_block_size(opts.drop_first()),
            },
            _ => spec_opt_block_size(opts.drop_first()),
        }
    }
}

/// The size cap the option list picks: the first `maxsize` whose text
/// denotes a size, if any.
pub open spec fn spec_opt_max_size(opts: Seq<MountOption>) -> Option<u64>
    decreases opts.len(),
{
    if opts.len() == 0 {
        None
    } else {
        match opts[0] {
            MountOption::MaxSize(v) => match opt_size_of(v@) {
                Some(n) => Some(n),
                None => spec_opt_max_size(opts.drop_first()),
            },
            _ => spec_opt_max_size(opts.drop_first()),
        }
    }
}

/// Whether the option list asks for direct I/O.
pub open spec fn spec_opt_direct_io(opts: Seq<MountOption>) -> bool {
    exists|i: int| 0 <= i < opts.len() && (#[trigger] opts[i]) is DirectIO
}

impl TiFs {
    /// Reads one mount's configuration out of its option list.
    pub fn construct(pd_endpoints: Vec<String>, options: &Vec<MountOption>) -> (r: TiFs)
        ensures
            r.pd_endpoints == pd_endpoints,
            r.direct_io == spec_opt_direct_io(options@),
            r.block_size == spec_opt_block_size(options@),
            r.max_size == spec_opt_max_size(options@),
    {
        let mut direct_io = false;
        let mut block_size: Option<u64> = None;
        let mut max_size: Option<u64> = None;
        let mut i: usize = 0;
        proof {
            assert(options@.skip(0) =~= options@);
            assert(options@.take(0) =~= Seq::<MountOption>::empty());
        }
        while i < options.len()
            invariant
                i <= options@.len(),
                direct_io == spec_opt_direct_io(options@.take(i as int)),
                spec_opt_block_size(options@) == (match block_size {
                    Some(n) => n,
                    None => spec_opt_block_size(options@.skip(i as int)),
                }),
                spec_opt_max_size(options@) == (match max_size {
                    Some(n) => Some(n),
                    None => spec_opt_max_size(options@.skip(i as int)),
                }),
            decreases options@.len() - i,
        {
            let ghost pre_rest = options@.skip(i as int);
            proof {
                assert(pre_rest[0] == options@[i as int]);
                assert(pre_rest.drop_first() =~= options@.skip(i + 1));
            }
            match &options[i] {
                MountOption::DirectIO => {
                    direct_io = true;
                }
                MountOption::BlkSize(v) => {
                    if block_size.is_none() && v.as_str().unicode_len() <= 19 {
                        match parse_size_text(v.as_str()) {
                            Some(n) => {
                                block_size = Some(n);
                            }
                            None => {}
                        }
                    }
                }
                MountOption::MaxSize(v) => {
                    if max_size.is_none() && v.as_str().unicode_len() <= 19 {
                        match parse_size_text(v.as_str()) {
                            Some(n) => {
                                max_size = Some(n);
                            }
                            None => {}
                        }
                    }
                }
                _ => {}
            }
            proof {
                assert(options@.take(i + 1).drop_last() =~= options@.take(i as int));
                assert(options@.take(i + 1).last() == options@[i as int]);
                assert(spec_opt_direct_io(options@.take(i + 1)) == (spec_opt_direct_io(
                    options@.take(i as int),
                ) || options@[i as int] is DirectIO)) by {
                    if spec_opt_direct_io(options@.take(i as int)) {
                        let w = choose|w: int|
                            0 <= w < i && (#[trigger] options@.take(i as int)[w]) is DirectIO;
                        assert(options@.take(i + 1)[w] is DirectIO);
                    }
                    if options@[i as int] is DirectIO {
                        assert(options@.take(i + 1)[i as int] is DirectIO);
                    }
                    if spec_opt_direct_io(options@.take(i + 1)) {
                        let w = choose|w: int|
                            0 <= w < i + 1 && (#[trigger] options@.take(i + 1)[w]) is DirectIO;
                        if w < i {
                            assert(options@.take(i as int)[w] is DirectIO);
                        }
                    }
                }
            }
            i += 1;
        }
        proof {
            assert(options@.take(options@.len() as int) =~= options@);
            assert(options@.skip(options@.len() as int) =~= Seq::<MountOption>::empty());
        }
        let bs = match block_size {
            Some(n) => n,
            None => DEFAULT_BLOCK_SIZE,
        };
        TiFs { pd_endpoints, direct_io, block_size: bs, max_size }
    }

    /// Rejects a name longer than the filesystem's name cap.
    pub fn check_file_name(name: &Vec<u8>) -> (r: Result<(), FsError>)
        ensures
            match r {
                Ok(()) => name@.len() <= MAX_NAME_LEN,
                Err(e) => name@.len() > MAX_NAME_LEN && (e matches FsError::NameTooLong { .. })
                    && spec_err_name(e)@ == name@,
            },
    {
        if name.len() <= MAX_NAME_LEN as usize {
            Ok(())
        } else {
            Err(FsError::NameTooLong { file: copy_bytes_vec(name) })
        }
    }

    /// First contact with a store: checks that a block size fixed by an
    /// earlier mount matches this one, and creates the root directory if
    /// nothing was ever allocated.
    pub fn init(&self, txn: &mut Txn, gid: u32, uid: u32, now: TimeSpec) -> (r: Result<
        (),
        FsError,
    >)
        requires
            old(txn).wf(),
            old(txn).kv.alloc_ino() < u64::MAX,
        ensures
            final(txn).wf(),
            final(txn).block_size == old(txn).block_size,
            match r {
                Ok(()) => {
                    &&& (old(txn).kv.meta matches Some(m) ==> m.block_size == old(
                        txn,
                    ).block_size)
                    &&& final(txn).kv.inodes@.contains_key(ROOT_INODE)
                    &&& (old(txn).kv.inodes@.contains_key(ROOT_INODE) ==> *final(txn) == *old(
                        txn,
                    ))
                },
                Err(e) => {
                    &&& *final(txn) == *old(txn)
                    &&& if old(txn).kv.meta matches Some(m) && m.block_size != old(
                        txn,
                    ).block_size {
                        e == (FsError::BlockSizeConflict {
                            origin: old(txn).kv.meta.unwrap().block_size,
                            new: old(txn).block_size,
                        })
                    } else if !old(txn).kv.inodes@.contains_key(ROOT_INODE)
                        && crate::transaction::spec_space_exhausted(
                        crate::transaction::spec_meta_or_default(
                            old(txn).kv,
                            old(txn).block_size,
                        ),
                    ) {
                        e is NoSpaceLeft
                    } else {
                        false
                    }
                },
            },
    {
        match txn.read_meta() {
            Ok(Some(meta)) => {
                if meta.block_size != txn.block_size() {
                    return Err(FsError::block_size_conflict(meta.block_size, txn.block_size()));
                }
            }
            Ok(None) => {}
            Err(e) => {
                proof {
                    assert(false);
                }
                return Err(e);
            }
        }
        if txn.kv.inodes.contains(ROOT_INODE) {
            return Ok(());
        }
        proof {
            assert(old(txn).kv.alloc_ino() == ROOT_INODE) by {
                if old(txn).kv.alloc_ino() > ROOT_INODE {
                    assert(old(txn).kv.inodes@.contains_key(ROOT_INODE));
                }
            }
        }
        let mode = make_mode(FileType::Directory, 0o777);
        proof {
            assert((0o40000u32 | (((0o40000u32 | 0o777u32) as u16) as u32)) & 0o170000u32
                == 0o40000u32) by (bit_vector);
            assert(mode == 0o40000u32 | 0o777u32);
            assert(crate::mode::spec_file_kind(
                crate::mode::spec_make_mode(FileType::Directory, mode as u16),
            ) == Some(FileType::Directory));
        }
        match txn.mkdir(0, Vec::new(), mode, gid, uid, now) {
            Ok(_) => Ok(()),
            Err(e) => Err(e),
        }
    }

    /// Resolves a name to its entry.
    pub fn lookup(&self, txn: &Txn, parent: u64, name: &Vec<u8>, now: TimeSpec) -> (r: Result<
        Entry,
        FsError,
    >)
        requires
            txn.wf(),
        ensures
            match r {
                Ok(e) => {
                    &&& name@.len() <= MAX_NAME_LEN
                    &&& txn.kv.index_of(parent, name@) == Some(e.stat.ino)
                    &&& txn.kv.inodes@.contains_key(e.stat.ino)
                    &&& e.stat == txn.kv.inodes@[e.stat.ino].file_attr
                    &&& e.time == now
                    &&& e.generation == 0
                },
                Err(e) => if name@.len() > MAX_NAME_LEN {
                    e matches FsError::NameTooLong { .. }
                } else {
                    txn.kv.index_of(parent, name@) is None && e matches FsError::FileNotFound {
                        ..
                    }
                },
            },
    {
        if let Err(e) = Self::check_file_name(name) {
            return Err(e);
        }
        let ino = match txn.lookup(parent, name) {
            Ok(ino) => ino,
            Err(e) => {
                return Err(e);
            }
        };
        proof {
            assert(txn.kv.inodes@.contains_key(ino));
        }
        let inode = match txn.read_inode(ino) {
            Ok(v) => v,
            Err(e) => {
                proof {
                    assert(false);
                }
                return Err(e);
            }
        };
        proof {
            assert(txn.kv.wf_inode_at(txn.block_size, ino));
        }
        Ok(Entry::new(now, inode.file_attr, 0))
    }

    /// Reads an inode's attributes.
    pub fn getattr(&self, txn: &Txn, ino: u64, now: TimeSpec) -> (r: Result<Attr, FsError>)
        requires
            txn.kv.inodes.wf(),
        ensures
            match r {
                Ok(a) => {
                    &&& txn.kv.inode_of(ino) is Some
                    &&& a.attr == txn.kv.inodes@[ino].file_attr
                    &&& a.time == now
                },
                Err(e) => txn.kv.inode_of(ino) is None && e == (FsError::InodeNotFound {
                    inode: ino,
                }),
            },
    {
        match txn.read_inode(ino) {
            Ok(v) => Ok(Attr::new(now, v.file_attr)),
            Err(e) => Err(e),
        }
    }

    /// Lists a directory from a caller offset on.
    pub fn readdir(&self, txn: &Txn, ino: u64, offset: i64) -> (r: Result<Dir, FsError>)
        requires
            txn.wf(),
        ensures
            match r {
                Ok(d) => {
                    &&& 0 <= offset
                    &&& txn.kv.dir_of(ino) matches Some(items)
                    &&& d.offset == offset
                    &&& d.items@.len() == (if offset <= items.len() {
                        items.len() - offset
                    } else {
                        0
                    })
                    &&& (forall|j: int|
                        0 <= j < d.items@.len() ==> {
                            &&& (#[trigger] d.items@[j]).ino == items[offset + j].ino
                            &&& d.items@[j].name@ == items[offset + j].name@
                            &&& d.items@[j].typ == items[offset + j].typ
                        })
                },
                Err(e) => if offset < 0 || offset > usize::MAX {
                    e matches FsError::InvalidOffset { .. }
                } else {
                    txn.kv.dir_of(ino) is None && e == (FsError::BlockNotFound {
                        inode: ino,
                        block: 0,
                    })
                },
            },
    {
        if offset < 0 || offset as u64 > usize::MAX as u64 {
            return Err(FsError::InvalidOffset { ino, offset });
        }
        let items = match txn.read_dir(ino) {
            Ok(d) => d,
            Err(e) => {
                return Err(e);
            }
        };
        let mut reply = Dir { offset: offset as usize, items: Vec::new() };
        let mut i: usize = if (offset as u64) <= items.len() as u64 {
            offset as usize
        } else {
            items.len()
        };
        let ghost base = i as int;
        while i < items.len()
            invariant
                base <= i <= items@.len(),
                reply.offset == offset,
                reply.items@.len() == i - base,
                forall|j: int|
                    0 <= j < reply.items@.len() ==> {
                        &&& (#[trigger] reply.items@[j]).ino == items@[base + j].ino
                        &&& reply.items@[j].name@ == items@[base + j].name@
                        &&& reply.items@[j].typ == items@[base + j].typ
                    },
            decreases items@.len() - i,
        {
            let item = DirItem {
                ino: items[i].ino,
                name: copy_bytes_vec(&items[i].name),
                typ: items[i].typ,
            };
            reply.items.push(item);
            i += 1;
        }
        Ok(reply)
    }

    /// Opens a handle; replies with the direct-I/O flag when the mount
    /// or the caller asked for it.
    pub fn open(&self, txn: &mut Txn, ino: u64, flags: i32) -> (r: Result<Open, FsError>)
        requires
            old(txn).wf(),
            old(txn).kv.inode_of(ino) matches Some(i) ==> i.next_fh < u64::MAX
                && i.opened_fh < u64::MAX,
        ensures
            final(txn).wf(),
            final(txn).block_size == old(txn).block_size,
            match r {
                Ok(o) => {
                    &&& old(txn).kv.inode_of(ino) matches Some(i) && o.fh == i.next_fh
                    &&& final(txn).kv.handler_of(ino, o.fh) == Some(
                        crate::file_handler::FileHandler { cursor: 0 },
                    )
                    &&& o.flags == (if self.direct_io || flags & O_DIRECT != 0 {
                        FOPEN_DIRECT_IO
                    } else {
                        0u32
                    })
                    &&& final(txn).kv.index == old(txn).kv.index
                    &&& final(txn).kv.meta == old(txn).kv.meta
                    &&& final(txn).kv.dirs == old(txn).kv.dirs
                    &&& final(txn).kv.blocks == old(txn).kv.blocks
                },
                Err(e) => *final(txn) == *old(txn) && e == (FsError::InodeNotFound {
                    inode: ino,
                }) && old(txn).kv.inode_of(ino) is None,
            },
    {
        let fh = match txn.open(ino) {
            Ok(fh) => fh,
            Err(e) => {
                return Err(e);
            }
        };
        let open_flags: u32 = if self.direct_io || flags & O_DIRECT != 0 {
            FOPEN_DIRECT_IO
        } else {
            0
        };
        Ok(Open::new(fh, open_flags))
    }

    /// Releases a handle.
    pub fn release(&self, txn: &mut Txn, ino: u64, fh: u64) -> (r: Result<(), FsError>)
        requires
            old(txn).wf(),
        ensures
            final(txn).wf(),
            final(txn).block_size == old(txn).block_size,
            match r {
                Ok(()) => final(txn).kv.handler_of(ino, fh) is None,
                Err(e) => *final(txn) == *old(txn) && e == (FsError::FhNotFound { ino, fh })
                    && old(txn).kv.handler_of(ino, fh) is None,
            },
    {
        let r = txn.close(ino, fh);
        proof {
            if r is Ok {
                assert(!final(txn).kv.handlers@.contains_key((ino, fh)));
            }
        }
        r
    }

    /// Reads through a handle.
    pub fn read(&self, txn: &mut Txn, ino: u64, fh: u64, offset: i64, size: u32, now: TimeSpec)
        -> (r: Result<Data, FsError>)
        requires
            old(txn).wf(),
        ensures
            final(txn).wf(),
            final(txn).block_size == old(txn).block_size,
            match r {
                Ok(d) => {
                    let pre = old(txn).kv;
                    let start = pre.handlers@[(ino, fh)].cursor + offset;
                    &&& pre.handlers@.contains_key((ino, fh))
                    &&& 0 <= start
                    &&& pre.inodes@.contains_key(ino)
                    &&& {
                        let fsize = pre.inodes@[ino].file_attr.size;
                        if start >= fsize {
                            d.data@ == Seq::<u8>::empty()
                        } else {
                            d.data@ == crate::transaction::read_slice(
                                pre,
                                old(txn).block_size,
                                ino,
                                start,
                                if size as int <= fsize - start {
                                    size as int
                                } else {
                                    fsize - start
                                },
                            )
                        }
                    }
                },
                Err(e) => {
                    let pre = old(txn).kv;
                    &&& *final(txn) == *old(txn)
                    &&& if pre.handler_of(ino, fh) is None {
                        e == (FsError::FhNotFound { ino, fh })
                    } else if pre.handlers@[(ino, fh)].cursor + offset < 0 {
                        e matches FsError::InvalidOffset { .. }
                    } else if pre.handlers@[(ino, fh)].cursor + offset > i64::MAX {
                        e is UnknownError
                    } else {
                        spec_read_data_err(
                            *old(txn),
                            ino,
                            (pre.handlers@[(ino, fh)].cursor + offset) as u64,
                            Some(size as u64),
                            e,
                        )
                    }
                },
            },
    {
        match txn.read(ino, fh, offset, size, now) {
            Ok(data) => Ok(Data::new(data)),
            Err(e) => Err(e),
        }
    }

    /// Writes through a handle.
    pub fn write(&self, txn: &mut Txn, ino: u64, fh: u64, offset: i64, data: Vec<u8>, now:
        TimeSpec) -> (r: Result<Write, FsError>)
        requires
            old(txn).wf(),
            old(txn).kv.meta is Some,
            data@.len() <= u32::MAX,
        ensures
            final(txn).wf(),
            final(txn).block_size == old(txn).block_size,
            match r {
                Ok(w) => {
                    let pre = old(txn).kv;
                    let post = final(txn).kv;
                    let bs = old(txn).block_size;
                    let start = pre.handlers@[(ino, fh)].cursor + offset;
                    &&& w.size == data@.len()
                    &&& pre.handlers@.contains_key((ino, fh))
                    &&& 0 <= start
                    &&& post.inodes@.contains_key(ino)
                    &&& (forall|i: int|
                        start <= i < start + data@.len() ==> #[trigger] post.file_byte(
                            bs,
                            ino,
                            i,
                        ) == data@[i - start])
                    &&& post.inodes@[ino].file_attr.size == (if pre.inodes@[ino].file_attr.size
                        >= start + data@.len() {
                        pre.inodes@[ino].file_attr.size as int
                    } else {
                        start + data@.len()
                    })
                },
                Err(e) => {
                    let pre = old(txn).kv;
                    &&& *final(txn) == *old(txn)
                    &&& if pre.handler_of(ino, fh) is None {
                        e == (FsError::FhNotFound { ino, fh })
                    } else if pre.handlers@[(ino, fh)].cursor + offset < 0 {
                        e matches FsError::InvalidOffset { .. }
                    } else if pre.handlers@[(ino, fh)].cursor + offset > i64::MAX {
                        e is UnknownError
                    } else {
                        spec_write_data_err(
                            *old(txn),
                            ino,
                            (pre.handlers@[(ino, fh)].cursor + offset) as u64,
                            data@,
                            e,
                        )
                    }
                },
            },
    {
        let n = data.len();
        match txn.write(ino, fh, offset, data, now) {
            Ok(_) => Ok(Write::new(#[verifier::truncate] (n as u32))),
            Err(e) => Err(e),
        }
    }

    /// Creates a directory under a parent.
    pub fn mkdir(&self, txn: &mut Txn, parent: u64, name: Vec<u8>, mode: u32, gid: u32, uid:
        u32, now: TimeSpec) -> (r: Result<Entry, FsError>)
        requires
            old(txn).wf(),
            old(txn).kv.alloc_ino() < u64::MAX,
            parent >= ROOT_INODE,
        ensures
            final(txn).wf(),
            final(txn).block_size == old(txn).block_size,
            match r {
                Ok(e) => {
                    &&& name@.len() <= MAX_NAME_LEN
                    &&& e.stat.ino == old(txn).kv.alloc_ino()
                    &&& e.stat.perm == mode as u16
                    &&& e.stat.nlink == 1
                    &&& final(txn).kv.index_of(parent, name@) == Some(e.stat.ino)
                    &&& final(txn).kv.dir_of(e.stat.ino) == Some(Seq::<DirItem>::empty())
                    &&& !old(txn).kv.index@.contains_key((parent, name@))
                },
                Err(e) => {
                    &&& *final(txn) == *old(txn)
                    &&& if name@.len() > MAX_NAME_LEN {
                        e matches FsError::NameTooLong { .. } && spec_err_name(e)@ == name@
                    } else {
                        spec_make_inode_err(
                            *old(txn),
                            parent,
                            name@,
                            crate::mode::spec_make_mode(FileType::Directory, mode as u16),
                            e,
                        )
                    }
                },
            },
    {
        if let Err(e) = Self::check_file_name(&name) {
            return Err(e);
        }
        let attr = match txn.mkdir(parent, name, mode, gid, uid, now) {
            Ok(a) => a,
            Err(e) => {
                return Err(e);
            }
        };
        Ok(Entry::new(now, attr, 0))
    }

    /// Removes an empty directory.
    pub fn rmdir(&self, txn: &mut Txn, parent: u64, raw_name: &Vec<u8>, now: TimeSpec) -> (r:
        Result<(), FsError>)
        requires
            old(txn).wf(),
        ensures
            final(txn).wf(),
            final(txn).block_size == old(txn).block_size,
            match r {
                Ok(()) => final(txn).kv.index_of(parent, raw_name@) is None,
                Err(e) => {
                    &&& *final(txn) == *old(txn)
                    &&& if raw_name@.len() > MAX_NAME_LEN {
                        e matches FsError::NameTooLong { .. } && spec_err_name(e)@ == raw_name@
                    } else {
                        spec_rmdir_err(*old(txn), parent, raw_name@, e)
                    }
                },
            },
    {
        if let Err(e) = Self::check_file_name(raw_name) {
            return Err(e);
        }
        let r = txn.rmdir(parent, raw_name, now);
        proof {
            if r is Ok {
                assert(!final(txn).kv.index@.contains_key((parent, raw_name@)));
            }
        }
        r
    }

    /// Creates an inode of the kind the mode names.
    pub fn mknod(&self, txn: &mut Txn, parent: u64, name: Vec<u8>, mode: u32, gid: u32, uid:
        u32, rdev: u32, now: TimeSpec) -> (r: Result<Entry, FsError>)
        requires
            old(txn).wf(),
            old(txn).kv.alloc_ino() < u64::MAX,
            parent >= ROOT_INODE,
        ensures
            final(txn).wf(),
            final(txn).block_size == old(txn).block_size,
            match r {
                Ok(e) => {
                    &&& name@.len() <= MAX_NAME_LEN
                    &&& e.stat.ino == old(txn).kv.alloc_ino()
                    &&& Some(e.stat.kind) == crate::mode::spec_file_kind(mode)
                    &&& e.stat.size == 0 && e.stat.nlink == 1
                    &&& final(txn).kv.index_of(parent, name@) == Some(e.stat.ino)
                    &&& final(txn).kv.inode_of(e.stat.ino) is Some
                    &&& final(txn).kv.inodes@[e.stat.ino].next_fh == 0
                    &&& final(txn).kv.inodes@[e.stat.ino].opened_fh == 0
                    &&& !old(txn).kv.index@.contains_key((parent, name@))
                },
                Err(e) => {
                    &&& *final(txn) == *old(txn)
                    &&& if name@.len() > MAX_NAME_LEN {
                        e matches FsError::NameTooLong { .. } && spec_err_name(e)@ == name@
                    } else {
                        spec_make_inode_err(*old(txn), parent, name@, mode, e)
                    }
                },
            },
    {
        if let Err(e) = Self::check_file_name(&name) {
            return Err(e);
        }
        let attr = match txn.make_inode(parent, name, mode, gid, uid, rdev, now) {
            Ok(a) => a,
            Err(e) => {
                return Err(e);
            }
        };
        Ok(Entry::new(now, attr, 0))
    }

    /// Creates a regular file and opens it in one request.
    pub fn create(&self, txn: &mut Txn, uid: u32, gid: u32, parent: u64, name: Vec<u8>, mode:
        u32, flags: i32, now: TimeSpec) -> (r: Result<Create, FsError>)
        requires
            old(txn).wf(),
            old(txn).kv.alloc_ino() < u64::MAX,
            parent >= ROOT_INODE,
        ensures
            final(txn).wf(),
            final(txn).block_size == old(txn).block_size,
            match r {
                Ok(c) => {
                    &&& c.attr.ino == old(txn).kv.alloc_ino()
                    &&& c.fh == 0
                    &&& final(txn).kv.index_of(parent, name@) == Some(c.attr.ino)
                    &&& final(txn).kv.handler_of(c.attr.ino, 0) is Some
                    &&& !old(txn).kv.index@.contains_key((parent, name@))
                },
                Err(e) => {
                    &&& *final(txn) == *old(txn)
                    &&& if name@.len() > MAX_NAME_LEN {
                        e matches FsError::NameTooLong { .. } && spec_err_name(e)@ == name@
                    } else {
                        spec_make_inode_err(*old(txn), parent, name@, mode, e)
                    }
                },
            },
    {
        let ghost nm = name@;
        let entry = match self.mknod(txn, parent, name, mode, gid, uid, 0, now) {
            Ok(e) => e,
            Err(e) => {
                return Err(e);
            }
        };
        let ghost mid = *txn;
        proof {
            assert(mid.kv.index_of(parent, nm) == Some(entry.stat.ino));
        }
        let open = match self.open(txn, entry.stat.ino, flags) {
            Ok(o) => o,
            Err(e) => {
                proof {
                    assert(false);
                }
                return Err(e);
            }
        };
        proof {
            assert(txn.kv.index == mid.kv.index);
            assert(txn.kv.index_of(parent, nm) == Some(entry.stat.ino));
        }
        Ok(Create::new(now, entry.stat, entry.generation, open.fh, open.flags))
    }

    /// Enters an inode under one more name.
    pub fn link(&self, txn: &mut Txn, ino: u64, newparent: u64, newname: &Vec<u8>, now:
        TimeSpec) -> (r: Result<Entry, FsError>)
        requires
            old(txn).wf(),
        ensures
            final(txn).wf(),
            final(txn).block_size == old(txn).block_size,
            match r {
                Ok(e) => {
                    &&& newname@.len() <= MAX_NAME_LEN
                    &&& e.stat.ino == ino
                    &&& final(txn).kv.index_of(newparent, newname@) == Some(ino)
                    &&& final(txn).kv.inode_of(ino) is Some
                    &&& e.stat == final(txn).kv.inodes@[ino].file_attr
                    &&& (!old(txn).kv.index@.contains_key((newparent, newname@)) && old(
                        txn,
                    ).kv.inodes@.contains_key(ino) ==> e.stat.nlink == old(
                        txn,
                    ).kv.inodes@[ino].file_attr.nlink + 1)
                },
                Err(e) => {
                    &&& *final(txn) == *old(txn)
                    &&& if newname@.len() > MAX_NAME_LEN {
                        e matches FsError::NameTooLong { .. } && spec_err_name(e)@ == newname@
                    } else {
                        spec_link_err(*old(txn), ino, newparent, newname@, e)
                    }
                },
            },
    {
        if let Err(e) = Self::check_file_name(newname) {
            return Err(e);
        }
        let attr = match txn.link(ino, newparent, newname, now) {
            Ok(a) => a,
            Err(e) => {
                return Err(e);
            }
        };
        Ok(Entry::new(now, attr, 0))
    }

    /// Removes a name.
    pub fn unlink(&self, txn: &mut Txn, parent: u64, raw_name: &Vec<u8>, now: TimeSpec) -> (r:
        Result<(), FsError>)
        requires
            old(txn).wf(),
        ensures
            final(txn).wf(),
            final(txn).block_size == old(txn).block_size,
            match r {
                Ok(()) => final(txn).kv.index_of(parent, raw_name@) is None,
                Err(e) => {
                    &&& *final(txn) == *old(txn)
                    &&& spec_unlink_err(*old(txn), parent, raw_name@, e)
                },
            },
    {
        let r = txn.unlink(parent, raw_name, now);
        proof {
            if r is Ok {
                assert(!final(txn).kv.index@.contains_key((parent, raw_name@)));
            }
        }
        r
    }

    /// Creates a symbolic link holding `target`.
    pub fn symlink(&self, txn: &mut Txn, gid: u32, uid: u32, parent: u64, name: Vec<u8>,
        target: Vec<u8>, now: TimeSpec) -> (r: Result<Entry, FsError>)
        requires
            old(txn).wf(),
            old(txn).kv.alloc_ino() < u64::MAX,
            parent >= ROOT_INODE,
        ensures
            final(txn).wf(),
            final(txn).block_size == old(txn).block_size,
            match r {
                Ok(e) => {
                    &&& e.stat.kind == FileType::Symlink
                    &&& e.stat.size == target@.len()
                    &&& final(txn).kv.index_of(parent, name@) == Some(e.stat.ino)
                    &&& final(txn).kv.inodes@[e.stat.ino].inline_data matches Some(d) && d@
                        == target@
                },
                Err(e) => {
                    &&& *final(txn) == *old(txn)
                    &&& if name@.len() > MAX_NAME_LEN {
                        e matches FsError::NameTooLong { .. } && spec_err_name(e)@ == name@
                    } else if target@.len() > i64::MAX {
                        e is UnknownError
                    } else {
                        spec_make_inode_err(
                            *old(txn),
                            parent,
                            name@,
                            crate::mode::spec_make_mode(FileType::Symlink, 0o777),
                            e,
                        )
                    }
                },
            },
    {
        if let Err(e) = Self::check_file_name(&name) {
            return Err(e);
        }
        if target.len() as u64 > 0x7fff_ffff_ffff_ffffu64 {
            return Err(FsError::UnknownError(String::from_str("link target too large")));
        }
        let mode = make_mode(FileType::Symlink, 0o777);
        proof {
            crate::mode::lemma_make_mode_kind(FileType::Symlink, 0o777);
        }
        let attr = match txn.make_inode(parent, name, mode, gid, uid, 0, now) {
            Ok(a) => a,
            Err(e) => {
                return Err(e);
            }
        };
        match txn.write_link(attr.ino, target, now) {
            Ok(_) => {}
            Err(e) => {
                proof {
                    assert(false);
                }
                return Err(e);
            }
        }
        let inode = match txn.read_inode(attr.ino) {
            Ok(v) => v,
            Err(e) => {
                proof {
                    assert(false);
                }
                return Err(e);
            }
        };
        Ok(Entry::new(now, inode.file_attr, 0))
    }

    /// Reads a symbolic link's target.
    pub fn readlink(&self, txn: &mut Txn, ino: u64, now: TimeSpec) -> (r: Result<Data, FsError>)
        requires
            old(txn).wf(),
        ensures
            final(txn).wf(),
            final(txn).block_size == old(txn).block_size,
            match r {
                Ok(d) => {
                    let pre = old(txn).kv;
                    &&& pre.inodes@.contains_key(ino)
                    &&& d.data@ == crate::transaction::read_slice(
                        pre,
                        old(txn).block_size,
                        ino,
                        0,
                        pre.inodes@[ino].file_attr.size as int,
                    )
                },
                Err(e) => {
                    &&& *final(txn) == *old(txn)
                    &&& spec_read_data_err(
                        *old(txn),
                        ino,
                        0,
                        Some(old(txn).kv.inodes@[ino].file_attr.size),
                        e,
                    )
                },
            },
    {
        match txn.read_link(ino, now) {
            Ok(data) => Ok(Data::new(data)),
            Err(e) => Err(e),
        }
    }

    /// Grows a file without writing data.
    pub fn fallocate(&self, txn: &mut Txn, ino: u64, offset: i64, length: i64, now: TimeSpec)
        -> (r: Result<(), FsError>)
        requires
            old(txn).wf(),
        ensures
            final(txn).wf(),
            final(txn).block_size == old(txn).block_size,
            match r {
                Ok(()) => {
                    let pre = old(txn).kv;
                    let post = final(txn).kv;
                    &&& pre.inodes@.contains_key(ino)
                    &&& (offset + length > pre.inodes@[ino].file_attr.size
                        ==> post.inodes@[ino].file_attr.size == offset + length)
                },
                Err(e) => {
                    &&& *final(txn) == *old(txn)
                    &&& spec_fallocate_err(*old(txn), ino, offset, length, e)
                },
            },
    {
        txn.fallocate(ino, offset, length, now)
    }

    /// Reports filesystem usage.
    pub fn statfs(&self, txn: &mut Txn) -> (r: Result<StatFs, FsError>)
        requires
            old(txn).wf(),
            old(txn).kv.meta is Some,
        ensures
            final(txn).wf(),
            final(txn).block_size == old(txn).block_size,
            match r {
                Ok(stat) => {
                    &&& stat.bsize == old(txn).block_size
                    &&& stat.namelen == old(txn).max_name_len
                    &&& stat.files == old(txn).kv.inodes.entries@.len() as u64
                    &&& final(txn).kv.meta.unwrap().last_stat == Some(stat)
                },
                Err(e) => {
                    &&& *final(txn) == *old(txn)
                    &&& sum_blocks(old(txn).kv.inodes.entries@) > u64::MAX
                    &&& e is UnknownError
                },
            },
    {
        txn.statfs()
    }

    /// Permission probing is left to the kernel.
    pub fn access(&self, _ino: u64, _mask: i32) -> (r: Result<(), FsError>)
        ensures
            r is Ok,
    {
        Ok(())
    }

    /// Extended attributes are accepted but not persisted.
    pub fn setxattr(&self, _ino: u64, _name: &Vec<u8>, _value: &Vec<u8>, _flags: i32) -> (r:
        Result<(), FsError>)
        ensures
            r is Ok,
    {
        Ok(())
    }

    /// Extended attributes read back empty.
    pub fn getxattr(&self, _ino: u64, _name: &Vec<u8>, size: u32) -> (r: Result<Xattr, FsError>)
        ensures
            match r {
                Ok(x) => if size == 0 {
                    x == (Xattr::Size { size: 0u32 })
                } else {
                    x matches Xattr::Data { data } && data@ == Seq::<u8>::empty()
                },
                Err(_) => false,
            },
    {
        if size == 0 {
            Ok(Xattr::size(0))
        } else {
            Ok(Xattr::data(Vec::new()))
        }
    }

    /// Extended attribute listing reads back empty.
    pub fn listxattr(&self, _ino: u64, size: u32) -> (r: Result<Xattr, FsError>)
        ensures
            match r {
                Ok(x) => if size == 0 {
                    x == (Xattr::Size { size: 0u32 })
                } else {
                    x matches Xattr::Data { data } && data@ == Seq::<u8>::empty()
                },
                Err(_) => false,
            },
    {
        if size == 0 {
            Ok(Xattr::size(0))
        } else {
            Ok(Xattr::data(Vec::new()))
        }
    }

    /// Removing an extended attribute is a no-op.
    pub fn removexattr(&self, _ino: u64, _name: &Vec<u8>) -> (r: Result<(), FsError>)
        ensures
            r is Ok,
    {
        Ok(())
    }
}

impl TiFs {
    /// Moves a handle's cursor: absolute, relative to the cursor, or
    /// relative to the file's end; a negative result is refused.
    pub fn lseek(&self, txn: &mut Txn, ino: u64, fh: u64, offset: i64, whence: i32) -> (r:
        Result<Lseek, FsError>)
        requires
            old(txn).wf(),
        ensures
            final(txn).wf(),
            final(txn).block_size == old(txn).block_size,
            match r {
                Ok(l) => {
                    let pre = old(txn).kv;
                    let base = (if whence == SEEK_SET {
                        0
                    } else if whence == SEEK_CUR {
                        pre.handlers@[(ino, fh)].cursor as int
                    } else {
                        pre.inodes@[ino].file_attr.size as int
                    });
                    &&& (whence == SEEK_SET || whence == SEEK_CUR || whence == SEEK_END)
                    &&& pre.handlers@.contains_key((ino, fh))
                    &&& pre.inodes@.contains_key(ino)
                    &&& l.offset == base + offset
                    &&& 0 <= l.offset
                    &&& final(txn).kv == (crate::store::Store {
                        handlers: final(txn).kv.handlers,
                        ..pre
                    })
                    &&& final(txn).kv.handlers@ == pre.handlers@.insert(
                        (ino, fh),
                        crate::file_handler::FileHandler { cursor: l.offset as u64 },
                    )
                },
                Err(e) => {
                    let pre = old(txn).kv;
                    let base = (if whence == SEEK_SET {
                        0
                    } else if whence == SEEK_CUR {
                        pre.handlers@[(ino, fh)].cursor as int
                    } else {
                        pre.inodes@[ino].file_attr.size as int
                    });
                    &&& *final(txn) == *old(txn)
                    &&& if pre.handler_of(ino, fh) is None {
                        e == (FsError::FhNotFound { ino, fh })
                    } else if !(whence == SEEK_SET || whence == SEEK_CUR || whence
                        == SEEK_END) {
                        e == (FsError::UnknownWhence { whence })
                    } else if base + offset < 0 {
                        e matches FsError::InvalidOffset { .. }
                    } else if base + offset > i64::MAX {
                        e is UnknownError
                    } else {
                        false
                    }
                },
            },
    {
        let handler = match txn.read_fh(ino, fh) {
            Ok(h) => h,
            Err(e) => {
                return Err(e);
            }
        };
        if !(whence == SEEK_SET || whence == SEEK_CUR || whence == SEEK_END) {
            return Err(FsError::UnknownWhence { whence });
        }
        proof {
            assert(old(txn).kv.handlers@.contains_key((ino, fh)));
            assert(old(txn).kv.inodes@.contains_key(ino));
        }
        let size = match txn.read_inode(ino) {
            Ok(v) => v.file_attr.size,
            Err(e) => {
                proof {
                    assert(false);
                }
                return Err(e);
            }
        };
        let target: i128 = if whence == SEEK_SET {
            offset as i128
        } else if whence == SEEK_CUR {
            handler.cursor as i128 + offset as i128
        } else {
            size as i128 + offset as i128
        };
        if target < 0 {
            return Err(FsError::InvalidOffset { ino, offset: target as i64 });
        }
        if target > i64::MAX as i128 {
            return Err(FsError::UnknownError(String::from_str("offset beyond maximum")));
        }
        let cursor = target as u64;
        let ghost pre = txn.kv;
        if let Err(e) = txn.save_fh(ino, fh, &crate::file_handler::FileHandler::new(cursor)) {
            proof {
                assert(false);
            }
            return Err(e);
        }
        proof {
            let post = txn.kv;
            let bs = txn.block_size;
            assert forall|x: u64| post.inodes@.contains_key(x) implies
                #[trigger] post.wf_inode_at(bs, x) by {
                assert(pre.wf_inode_at(bs, x));
                assert(count_fst(post.handlers.entries@, x) == count_fst(
                    pre.handlers.entries@,
                    x,
                ));
            }
            assert forall|p: u64, n2: Seq<u8>| #[trigger] post.index@.contains_key((
                p,
                n2,
            )) implies {
                &&& post.inodes@.contains_key(post.index@[(p, n2)])
                &&& post.dirs@.contains_key(p)
                &&& dir_has_entry(post.dirs@[p]@, n2, post.index@[(p, n2)])
            } by {
                assert(pre.index@.contains_key((p, n2)));
            }
            assert forall|k: (u64, u64)| #[trigger] post.handlers@.contains_key(k) implies
                post.inodes@.contains_key(k.0) && k.1 < post.inodes@[k.0].next_fh by {
                assert(pre.handlers@.contains_key(k));
            }
            assert(post.wf(bs));
        }
        Ok(Lseek::new(target as i64))
    }

    /// Merges the given attribute changes into an inode. A size change
    /// resizes the file, keeping inline storage coherent.
    pub fn setattr(
        &self,
        txn: &mut Txn,
        ino: u64,
        mode: Option<u32>,
        uid: Option<u32>,
        gid: Option<u32>,
        size: Option<u64>,
        atime: Option<TimeOrNow>,
        mtime: Option<TimeOrNow>,
        ctime: Option<TimeSpec>,
        crtime: Option<TimeSpec>,
        flags: Option<u32>,
        now: TimeSpec,
    ) -> (r: Result<Attr, FsError>)
        requires
            old(txn).wf(),
        ensures
            final(txn).wf(),
            final(txn).block_size == old(txn).block_size,
            match r {
                Ok(a) => {
                    let pre = old(txn).kv;
                    let post = final(txn).kv;
                    let i0 = pre.inodes@[ino].file_attr;
                    &&& pre.inodes@.contains_key(ino)
                    &&& post.inodes@.contains_key(ino)
                    &&& a.attr == post.inodes@[ino].file_attr
                    &&& a.time == now
                    &&& a.attr.perm == (match mode {
                        Some(m) => m as u16,
                        None => i0.perm,
                    })
                    &&& a.attr.uid == (match uid {
                        Some(u) => u,
                        None => i0.uid,
                    })
                    &&& a.attr.gid == (match gid {
                        Some(g) => g,
                        None => i0.gid,
                    })
                    &&& a.attr.size == (match size {
                        Some(s) => s,
                        None => i0.size,
                    })
                    &&& a.attr.blocks == crate::inode::spec_blocks_for(
                        a.attr.size,
                        old(txn).block_size,
                    )
                    &&& a.attr.atime == (match atime {
                        Some(TimeOrNow::SpecificTime(t)) => t,
                        Some(TimeOrNow::Now) => now,
                        None => i0.atime,
                    })
                    &&& a.attr.mtime == (match mtime {
                        Some(TimeOrNow::SpecificTime(t)) => t,
                        _ => now,
                    })
                    &&& a.attr.ctime == (match ctime {
                        Some(t) => t,
                        None => now,
                    })
                    &&& a.attr.crtime == (match crtime {
                        Some(t) => t,
                        None => i0.crtime,
                    })
                    &&& a.attr.flags == (match flags {
                        Some(f) => f,
                        None => i0.flags,
                    })
                    &&& a.attr.kind == i0.kind && a.attr.nlink == i0.nlink && a.attr.ino == ino
                    &&& post.inodes@.remove(ino) == pre.inodes@.remove(ino)
                    &&& post.meta == pre.meta && post.dirs == pre.dirs && post.handlers
                        == pre.handlers && post.index == pre.index
                },
                Err(e) => {
                    let pre = old(txn).kv;
                    let thr = old(txn).block_size / 16;
                    &&& *final(txn) == *old(txn)
                    &&& if pre.inode_of(ino) is None {
                        e == (FsError::InodeNotFound { inode: ino })
                    } else if size matches Some(s) && s > i64::MAX {
                        e is UnknownError
                    } else if size matches Some(s) && pre.inodes@[ino].inline_data matches Some(
                        d,
                    ) && !(s <= thr || pre.inodes@[ino].file_attr.kind == FileType::Symlink)
                        && d@.len() > old(txn).block_size {
                        e is UnknownError
                    } else if size matches Some(s) && pre.inodes@[ino].inline_data is Some && (s
                        <= thr || pre.inodes@[ino].file_attr.kind == FileType::Symlink) && s
                        > usize::MAX {
                        e is UnknownError
                    } else {
                        false
                    }
                },
            },
    {
        let bs = txn.block_size;
        let thr = bs / 16;
        proof {
            assert(thr <= bs) by (nonlinear_arith)
                requires bs >= 1 && thr == bs / 16;
        }
        if !txn.kv.inodes.contains(ino) {
            return Err(FsError::InodeNotFound { inode: ino });
        }
        match size {
            Some(s) => {
                if s > 0x7fff_ffff_ffff_ffffu64 {
                    return Err(FsError::UnknownError(String::from_str("size beyond maximum")));
                }
                match txn.kv.inodes.get(ino) {
                    Some(v) => {
                        match &v.inline_data {
                            Some(d) => {
                                let keep_inline = s <= thr || matches!(
                                    v.file_attr.kind,
                                    FileType::Symlink,
                                );
                                if !keep_inline && d.len() as u64 > bs {
                                    return Err(FsError::UnknownError(String::from_str(
                                        "inline data exceeds a block",
                                    )));
                                }
                                if keep_inline && s > usize::MAX as u64 {
                                    return Err(FsError::UnknownError(String::from_str(
                                        "size beyond addressable memory",
                                    )));
                                }
                            }
                            None => {}
                        }
                    }
                    None => {
                        proof {
                            assert(false);
                        }
                        return Err(FsError::InodeNotFound { inode: ino });
                    }
                }
            }
            None => {}
        }
        let ghost pre = txn.kv;
        proof {
            assert(pre.wf_inode_at(bs, ino));
        }
        let mut inode = match txn.kv.inodes.take(ino) {
            Some(v) => v,
            None => {
                proof {
                    assert(false);
                }
                return Err(FsError::InodeNotFound { inode: ino });
            }
        };
        match size {
            Some(s) => {
                let keep_inline = s <= thr || matches!(inode.file_attr.kind, FileType::Symlink);
                match inode.inline_data {
                    Some(d) => {
                        if keep_inline {
                            // resize the inline bytes to the new size
                            let mut inl = d;
                            inode.inline_data = None;
                            let ghost inl0 = inl@;
                            inl.truncate(s as usize);
                            while inl.len() < s as usize
                                invariant
                                    inl@.len() <= s,
                                    s <= usize::MAX,
                                decreases s as int - inl@.len(),
                            {
                                inl.push(0);
                            }
                            inode.inline_data = Some(inl);
                        } else {
                            // materialize the inline bytes as block zero
                            let mut blk0 = d;
                            inode.inline_data = None;
                            while blk0.len() < bs as usize
                                invariant
                                    bs <= u32::MAX,
                                decreases bs as int - blk0@.len(),
                            {
                                blk0.push(0);
                            }
                            txn.kv.blocks.insert((ino, 0), blk0);
                        }
                    }
                    None => {
                        inode.inline_data = None;
                    }
                }
                inode.set_size(s, bs);
            }
            None => {}
        }
        match mode {
            Some(m) => {
                inode.file_attr.perm = #[verifier::truncate] (m as u16);
            }
            None => {}
        }
        match uid {
            Some(u) => {
                inode.file_attr.uid = u;
            }
            None => {}
        }
        match gid {
            Some(g) => {
                inode.file_attr.gid = g;
            }
            None => {}
        }
        inode.file_attr.atime = match atime {
            Some(TimeOrNow::SpecificTime(t)) => t,
            Some(TimeOrNow::Now) => now,
            None => inode.file_attr.atime,
        };
        inode.file_attr.mtime = match mtime {
            Some(TimeOrNow::SpecificTime(t)) => t,
            _ => now,
        };
        inode.file_attr.ctime = match ctime {
            Some(t) => t,
            None => now,
        };
        inode.file_attr.crtime = match crtime {
            Some(t) => t,
            None => inode.file_attr.crtime,
        };
        inode.file_attr.flags = match flags {
            Some(f) => f,
            None => inode.file_attr.flags,
        };
        let attr = inode.file_attr;
        let ghost iv = inode;
        txn.kv.inodes.insert(ino, inode);
        proof {
            assert(txn.kv.inodes@ =~= pre.inodes@.insert(ino, iv));
            assert(iv.inline_data matches Some(d2) ==> d2@.len() == iv.file_attr.size);
            crate::transaction::lemma_wf_inode_update(pre, txn.kv, bs, iv);
            assert(txn.kv.inodes@.remove(ino) =~= pre.inodes@.remove(ino));
        }
        Ok(Attr::new(now, attr))
    }

    /// Moves a name between directories; a directory that carries a
    /// parent entry has it rewritten to the new parent. Every way the
    /// move could strand a half-applied state is refused up front, so an
    /// error always leaves the snapshot untouched.
    #[verifier::rlimit(100)]
    pub fn rename(&self, txn: &mut Txn, parent: u64, raw_name: &Vec<u8>, newparent: u64,
        new_raw_name: &Vec<u8>, now: TimeSpec) -> (r: Result<(), FsError>)
        requires
            old(txn).wf(),
        ensures
            final(txn).wf(),
            final(txn).block_size == old(txn).block_size,
            match r {
                Ok(()) => {
                    let pre = old(txn).kv;
                    let post = final(txn).kv;
                    let ino = pre.index@[(parent, raw_name@)];
                    let rebind = pre.inodes@[ino].file_attr.kind == FileType::Directory
                        && pre.index@.contains_key((ino, seq![46u8, 46u8]));
                    &&& pre.index@.contains_key((parent, raw_name@))
                    &&& pre.inodes@.contains_key(ino)
                    &&& post.index_of(newparent, new_raw_name@) == Some(ino)
                    &&& ((parent, raw_name@) != (newparent, new_raw_name@)
                        ==> post.index_of(parent, raw_name@) is None)
                    &&& post.blocks == pre.blocks
                    &&& post.inodes@.contains_key(ino)
                    &&& post.inodes@[ino].file_attr.kind == pre.inodes@[ino].file_attr.kind
                    &&& post.inodes@[ino].opened_fh == pre.inodes@[ino].opened_fh
                    &&& (pre.inodes@[ino].file_attr.kind != FileType::Directory ==> {
                        &&& post.inodes@[ino].file_attr.size
                            == pre.inodes@[ino].file_attr.size
                        &&& post.inodes@[ino].inline_data == pre.inodes@[ino].inline_data
                    })
                    &&& (forall|p: u64|
                        p != parent && p != newparent && p != ino ==> #[trigger] post.dir_of(p)
                            == pre.dir_of(p))
                    &&& (!rebind && ino != parent && ino != newparent ==> post.dir_of(ino)
                        == pre.dir_of(ino))
                    &&& (forall|p: u64, n: Seq<u8>|
                        #![trigger post.index@.contains_key((p, n))]
                        #![trigger pre.index@.contains_key((p, n))]
                        (p, n) != (parent, raw_name@) && (p, n) != (newparent, new_raw_name@)
                            && !(p == ino && n == seq![46u8, 46u8])
                            ==> post.index@.contains_key((p, n)) == pre.index@.contains_key((
                            p,
                            n,
                        )) && (pre.index@.contains_key((p, n)) ==> post.index@[(p, n)]
                            == pre.index@[(p, n)]))
                    &&& (rebind && (parent, raw_name@) != (newparent, new_raw_name@)
                        ==> post.index_of(ino, seq![46u8, 46u8]) == Some(newparent))
                    &&& (!pre.index@.contains_key((newparent, new_raw_name@)) && !rebind && (
                    parent,
                    raw_name@,
                    ) != (newparent, new_raw_name@) ==> forall|x: u64|
                        #![trigger post.inodes@.contains_key(x)]
                        #![trigger pre.inodes@.contains_key(x)]
                        x != parent && x != newparent && x != ino
                            ==> post.inodes@.contains_key(x) == pre.inodes@.contains_key(x) && (
                        pre.inodes@.contains_key(x) ==> post.inodes@[x] == pre.inodes@[x]))
                },
                Err(e) => {
                    let pre = old(txn).kv;
                    let ino = pre.index@[(parent, raw_name@)];
                    let dd_ok = pre.inodes@[ino].file_attr.kind == FileType::Directory
                        && pre.index@.contains_key((ino, seq![46u8, 46u8]));
                    let p0 = pre.index@[(ino, seq![46u8, 46u8])];
                    &&& *final(txn) == *old(txn)
                    &&& if raw_name@.len() > MAX_NAME_LEN || new_raw_name@.len()
                        > MAX_NAME_LEN {
                        e matches FsError::NameTooLong { .. }
                    } else if pre.index_of(parent, raw_name@) is None {
                        e matches FsError::FileNotFound { .. } && spec_err_name(e)@
                            == raw_name@
                    } else if ino == parent {
                        e is UnknownError
                    } else if ino == newparent {
                        e is UnknownError
                    } else if pre.inode_of(parent) is None {
                        e is UnknownError
                    } else if crate::serialize::enc_dir(pre.dirs@[parent]@).len()
                        > 0x7fff_ffff_ffff_ffff + 17 + raw_name@.len() {
                        e is UnknownError
                    } else if pre.index_of(newparent, new_raw_name@) == Some(parent) {
                        e is UnknownError
                    } else if dd_ok && p0 == ino {
                        e is UnknownError
                    } else if dd_ok && crate::serialize::enc_dir(pre.dirs@[ino]@).len()
                        > 0x7fff_ffff_ffff_ffff {
                        e is UnknownError
                    } else if dd_ok && pre.inode_of(newparent) is Some && p0 == newparent
                        && pre.inodes@[newparent].file_attr.nlink == 1
                        && pre.inodes@[newparent].opened_fh == 0 {
                        e is UnknownError
                    } else if dd_ok && pre.inode_of(newparent) is Some && p0 != newparent
                        && pre.inodes@[newparent].file_attr.nlink == u32::MAX {
                        e is UnknownError
                    } else {
                        spec_link_err(*old(txn), ino, newparent, new_raw_name@, e)
                    }
                },
            },
    {
        if let Err(e) = Self::check_file_name(raw_name) {
            return Err(e);
        }
        if let Err(e) = Self::check_file_name(new_raw_name) {
            return Err(e);
        }
        let ino = match txn.lookup(parent, raw_name) {
            Ok(ino) => ino,
            Err(e) => {
                return Err(e);
            }
        };
        if parent == newparent && bytes_eq(raw_name, new_raw_name) {
            // moving a name onto itself changes nothing
            return Ok(());
        }
        if ino == parent {
            return Err(FsError::UnknownError(String::from_str("entry names its own parent")));
        }
        if ino == newparent {
            return Err(FsError::UnknownError(String::from_str(
                "cannot move a directory into itself",
            )));
        }
        proof {
            assert(old(txn).kv.inodes@.contains_key(ino));
        }
        let kind0 = match txn.kv.inodes.get(ino) {
            Some(v) => v.file_attr.kind,
            None => {
                proof {
                    assert(false);
                }
                return Err(FsError::InodeNotFound { inode: ino });
            }
        };
        if !txn.kv.inodes.contains(parent) {
            return Err(FsError::UnknownError(String::from_str("parent inode is missing")));
        }
        // the source directory must stay encodable once the name is gone
        let (eln_parent, pos_p) = match txn.kv.dirs.get(parent) {
            Some(d) => {
                let p = match crate::transaction::position_of_name(d, raw_name) {
                    Some(p) => p,
                    None => {
                        proof {
                            assert(false);
                        }
                        return Err(FsError::FileNotFound { file: copy_bytes_vec(raw_name) });
                    }
                };
                (crate::serialize::encode_dir(d).len(), p)
            }
            None => {
                proof {
                    assert(false);
                }
                return Err(FsError::BlockNotFound { inode: parent, block: 0 });
            }
        };
        proof {
            let d0 = txn.kv.dirs@[parent]@;
            assert(d0[pos_p as int].ino == ino) by {
                assert(txn.kv.index@.contains_key((parent, d0[pos_p as int].name@)));
            }
            crate::serialize::lemma_enc_items_remove(d0, pos_p as int);
            assert(crate::serialize::enc_item(d0[pos_p as int]).len() == 17 + raw_name@.len());
            assert(eln_parent >= 25 + raw_name@.len());
        }
        if (eln_parent as u64) - 17 - (raw_name.len() as u64) > 0x7fff_ffff_ffff_ffffu64 {
            return Err(FsError::UnknownError(String::from_str("directory too large")));
        }
        match txn.get_index(newparent, new_raw_name) {
            Ok(Some(t)) => {
                if t == parent {
                    return Err(FsError::UnknownError(String::from_str(
                        "target name binds the source directory",
                    )));
                }
            }
            Ok(None) => {}
            Err(e) => {
                proof {
                    assert(false);
                }
                return Err(e);
            }
        }
        let dotdot: Vec<u8> = dot_dot_name();
        let mut dd_bound = false;
        if matches!(kind0, FileType::Directory) {
            match txn.get_index(ino, &dotdot) {
                Ok(Some(p0)) => {
                    dd_bound = true;
                    if p0 == ino {
                        return Err(FsError::UnknownError(String::from_str(
                            "parent entry names its own directory",
                        )));
                    }
                    let eln_ino: usize = match txn.kv.dirs.get(ino) {
                        Some(d) => crate::serialize::encode_dir(d).len(),
                        None => {
                            proof {
                                assert(false);
                            }
                            return Err(FsError::BlockNotFound { inode: ino, block: 0 });
                        }
                    };
                    if eln_ino as u64 > 0x7fff_ffff_ffff_ffffu64 {
                        return Err(FsError::UnknownError(String::from_str(
                            "directory too large",
                        )));
                    }
                    match txn.kv.inodes.get(newparent) {
                        Some(v) => {
                            if p0 == newparent {
                                if v.file_attr.nlink == 1 && v.opened_fh == 0 {
                                    return Err(FsError::UnknownError(String::from_str(
                                        "parent entry holds the target's last link",
                                    )));
                                }
                            } else {
                                if v.file_attr.nlink == u32::MAX {
                                    return Err(FsError::UnknownError(String::from_str(
                                        "too many links",
                                    )));
                                }
                            }
                        }
                        None => {}
                    }
                }
                Ok(None) => {}
                Err(e) => {
                    proof {
                        assert(false);
                    }
                    return Err(e);
                }
            }
        }
        if let Err(e) = txn.link(ino, newparent, new_raw_name, now) {
            return Err(e);
        }
        let ghost mid2 = *txn;
        let r2 = txn.unlink(parent, raw_name, now);
        if let Err(e) = r2 {
            proof {
                let e2 = r2->Err_0;
                assert(spec_unlink_err(mid2, parent, raw_name@, e2));
                assert(mid2.kv.index@.contains_key((parent, raw_name@)));
                assert(mid2.kv.index@[(parent, raw_name@)] == ino);
                assert(mid2.kv.inodes@.contains_key(parent));
                if parent == newparent {
                    assert(mid2.kv.wf_inode_at(mid2.block_size, parent));
                    assert(crate::serialize::enc_dir(mid2.kv.dirs@[parent]@).len()
                        <= 0x7fff_ffff_ffff_ffff);
                } else {
                    assert(old(txn).kv.dirs@.contains_key(parent));
                    assert(mid2.kv.dirs@[parent] == mid2.kv.dirs@.remove(newparent)[parent]);
                    assert(old(txn).kv.dirs@[parent] == old(txn).kv.dirs@.remove(
                        newparent,
                    )[parent]);
                    assert(mid2.kv.dirs@[parent] == old(txn).kv.dirs@[parent]);
                }
                assert(false);
            }
            return Err(e);
        }
        let ghost mid3g = *txn;
        let ghost mut mid4g = *txn;
        proof {
            // the moved inode outlived the move: its link count never
            // fell to zero along the way
            assert(txn.kv.inodes@.contains_key(ino)) by {
                let preK = old(txn).kv;
                let ms = crate::store::imap_seq(preK.index.entries@);
                crate::store::lemma_alist_exists_entry(ms, (parent, raw_name@));
                let j1 = choose|j: int|
                    0 <= j < ms.len() && (#[trigger] ms[j]).0 == (parent, raw_name@)
                        && ms[j].1 == ino;
                assert(preK.index.entries@[j1].2 == ino);
                crate::store::lemma_count_links_at(preK.index.entries@, j1);
                assert(preK.wf_inode_at(old(txn).block_size, ino));
                if preK.index@.contains_key((newparent, new_raw_name@))
                    && preK.index@[(newparent, new_raw_name@)] == ino {
                    crate::store::lemma_alist_exists_entry(ms, (newparent, new_raw_name@));
                    let j2 = choose|j: int|
                        0 <= j < ms.len() && (#[trigger] ms[j]).0 == (
                            newparent,
                            new_raw_name@,
                        ) && ms[j].1 == ino;
                    assert(preK.index.entries@[j2].2 == ino);
                    assert(j1 != j2) by {
                        assert(ms[j1].0 != ms[j2].0);
                    }
                    crate::store::lemma_count_links_at_two(preK.index.entries@, j1, j2);
                    assert(preK.inodes@[ino].file_attr.nlink >= 2);
                }
            }
        }
        if dd_bound {
            let ghost mid3 = *txn;
            proof {
                assert(mid3.kv.index@.contains_key((ino, dotdot@)));
                assert(mid3.kv.index@[(ino, dotdot@)] == old(txn).kv.index@[(ino, dotdot@)]);
                assert(old(txn).kv.dirs@.contains_key(ino));
                assert(mid3.kv.dirs@[ino] == mid3.kv.dirs@.remove(parent)[ino]);
                assert(mid2.kv.dirs@[ino] == mid2.kv.dirs@.remove(parent)[ino]);
                assert(mid2.kv.dirs@[ino] == mid2.kv.dirs@.remove(newparent)[ino]);
                assert(old(txn).kv.dirs@[ino] == old(txn).kv.dirs@.remove(newparent)[ino]);
                assert(mid3.kv.dirs@[ino] == old(txn).kv.dirs@[ino]);
            }
            let r3 = txn.unlink(ino, &dotdot, now);
            if let Err(e) = r3 {
                proof {
                    let e3 = r3->Err_0;
                    assert(spec_unlink_err(mid3, ino, dotdot@, e3));
                    assert(false);
                }
                return Err(e);
            }
            let ghost mid4 = *txn;
            proof {
                mid4g = *txn;
                assert(old(txn).kv.inodes@.contains_key(ino));
                assert(ino >= ROOT_INODE) by {
                    assert(old(txn).kv.meta matches Some(m));
                }
                let preK = old(txn).kv;
                let p0v = preK.index@[(ino, dotdot@)];
                // the parent entry's target kept its link headroom through
                // the move
                assert(mid2.kv.inodes@[newparent].file_attr.nlink
                    == preK.inodes@[newparent].file_attr.nlink
                    && mid2.kv.inodes@[newparent].opened_fh
                    == preK.inodes@[newparent].opened_fh);
                assert(mid3.kv.inodes@[newparent].file_attr.nlink
                    == preK.inodes@[newparent].file_attr.nlink
                    && mid3.kv.inodes@[newparent].opened_fh
                    == preK.inodes@[newparent].opened_fh) by {
                    if parent != newparent {
                        assert(mid3.kv.inodes@[newparent] == mid2.kv.inodes@[newparent]);
                    }
                }
                if p0v == newparent {
                    assert(preK.inodes@[newparent].file_attr.nlink >= 1) by {
                        let ms = crate::store::imap_seq(preK.index.entries@);
                        crate::store::lemma_alist_exists_entry(ms, (ino, dotdot@));
                        let j = choose|j: int|
                            0 <= j < ms.len() && (#[trigger] ms[j]).0 == (ino, dotdot@)
                                && ms[j].1 == p0v;
                        assert(preK.index.entries@[j].2 == p0v);
                        crate::store::lemma_count_links_at(preK.index.entries@, j);
                        assert(preK.wf_inode_at(old(txn).block_size, p0v));
                    }
                    assert(mid4.kv.inodes@.contains_key(newparent));
                    assert(mid4.kv.inodes@[newparent].file_attr.nlink == (
                    preK.inodes@[newparent].file_attr.nlink - 1) as u32);
                } else {
                    assert(mid4.kv.inodes@[newparent] == mid3.kv.inodes@[newparent]);
                }
                assert(mid4.kv.inodes@.contains_key(newparent));
                assert(mid4.kv.inodes@[newparent].file_attr.nlink != u32::MAX);
                assert(mid4.kv.dirs@.contains_key(ino));
                assert(crate::serialize::enc_dir(mid4.kv.dirs@[ino]@).len() + 17 + dotdot@.len()
                    <= 0x7fff_ffff_ffff_ffff) by {
                    let dmid = mid3.kv.dirs@[ino]@;
                    let pos = choose|pos: int|
                        0 <= pos < dmid.len() && (#[trigger] dmid[pos]).name@ == dotdot@
                            && dmid[pos].ino == mid3.kv.index@[(ino, dotdot@)]
                            && mid4.kv.dirs@[ino]@ == dmid.remove(pos);
                    crate::serialize::lemma_enc_items_remove(dmid, pos);
                    assert(crate::serialize::enc_item(dmid[pos]).len() == 17 + dotdot@.len());
                }
                assert(!mid4.kv.index@.contains_key((ino, dotdot@)));
            }
            let r4 = txn.link(newparent, ino, &dotdot, now);
            if let Err(e) = r4 {
                proof {
                    let e4 = r4->Err_0;
                    assert(spec_link_err(mid4, newparent, ino, dotdot@, e4));
                    assert(false);
                }
                return Err(e);
            }
        }
        proof {
            let preK = old(txn).kv;
            let post = txn.kv;
            let rebind = preK.inodes@[ino].file_attr.kind == FileType::Directory
                && preK.index@.contains_key((ino, seq![46u8, 46u8]));
            assert(dotdot@ == seq![46u8, 46u8]);
            assert(dd_bound == rebind);
            assert forall|p: u64| p != parent && p != newparent && p != ino implies
                #[trigger] post.dir_of(p) == preK.dir_of(p) by {
                assert(mid2.kv.dirs@.remove(newparent)[p] == preK.dirs@.remove(newparent)[p]);
                assert(mid2.kv.dirs@.remove(newparent).contains_key(p)
                    == preK.dirs@.remove(newparent).contains_key(p));
                assert(mid3g.kv.dirs@.remove(parent)[p] == mid2.kv.dirs@.remove(parent)[p]);
                assert(mid3g.kv.dirs@.remove(parent).contains_key(p)
                    == mid2.kv.dirs@.remove(parent).contains_key(p));
                if dd_bound {
                    assert(mid4g.kv.dirs@.remove(ino)[p] == mid3g.kv.dirs@.remove(ino)[p]);
                    assert(mid4g.kv.dirs@.remove(ino).contains_key(p)
                        == mid3g.kv.dirs@.remove(ino).contains_key(p));
                    assert(post.dirs@.remove(ino)[p] == mid4g.kv.dirs@.remove(ino)[p]);
                    assert(post.dirs@.remove(ino).contains_key(p)
                        == mid4g.kv.dirs@.remove(ino).contains_key(p));
                } else {
                    assert(post == mid3g.kv);
                }
            }
            if !dd_bound && ino != parent && ino != newparent {
                assert(post == mid3g.kv);
                assert(mid2.kv.dirs@.remove(newparent)[ino] == preK.dirs@.remove(
                    newparent,
                )[ino]);
                assert(mid2.kv.dirs@.remove(newparent).contains_key(ino)
                    == preK.dirs@.remove(newparent).contains_key(ino));
                assert(mid3g.kv.dirs@.remove(parent)[ino] == mid2.kv.dirs@.remove(parent)[ino]);
                assert(mid3g.kv.dirs@.remove(parent).contains_key(ino)
                    == mid2.kv.dirs@.remove(parent).contains_key(ino));
                assert(post.dir_of(ino) == preK.dir_of(ino));
            }
            assert forall|p: u64, n: Seq<u8>|
                (p, n) != (parent, raw_name@) && (p, n) != (newparent, new_raw_name@) && !(p
                    == ino && n == seq![46u8, 46u8]) implies
                #[trigger] post.index@.contains_key((p, n)) == #[trigger] preK.index@.contains_key(
                (p, n)) && (preK.index@.contains_key((p, n)) ==> post.index@[(p, n)]
                    == preK.index@[(p, n)]) by {
                assert(mid2.kv.index@ == preK.index@.insert((newparent, new_raw_name@), ino));
                assert(mid3g.kv.index@ == mid2.kv.index@.remove((parent, raw_name@)));
                if dd_bound {
                    assert(mid4g.kv.index@ == mid3g.kv.index@.remove((ino, dotdot@)));
                    assert(post.index@ == mid4g.kv.index@.insert((ino, dotdot@), newparent));
                } else {
                    assert(post == mid3g.kv);
                }
            }
            if !preK.index@.contains_key((newparent, new_raw_name@)) && !rebind {
                assert forall|x: u64| x != parent && x != newparent && x != ino implies
                    post.inodes@.contains_key(x) == preK.inodes@.contains_key(x) && (
                preK.inodes@.contains_key(x) ==> post.inodes@[x] == preK.inodes@[x]) by {
                    assert(post == mid3g.kv);
                    assert(mid2.kv.inodes@.contains_key(x) == preK.inodes@.contains_key(x));
                    assert(mid3g.kv.inodes@.contains_key(x) == mid2.kv.inodes@.contains_key(x));
                }
            }
        }
        Ok(())
    }
}

impl TiFs {
    /// One advisory-lock request. `Ok(true)` applied the request,
    /// `Ok(false)` says the caller asked to sleep and must retry once the
    /// conflicting lock is gone; a conflicting request without `sleep`
    /// fails with `InvalidLock`. Directories cannot be locked.
    pub fn setlk(&self, txn: &mut Txn, ino: u64, lock_owner: u64, typ: i32, sleep: bool, now:
        TimeSpec) -> (r: Result<bool, FsError>)
        requires
            old(txn).wf(),
        ensures
            final(txn).wf(),
            final(txn).block_size == old(txn).block_size,
            match r {
                Ok(applied) => {
                    let pre = old(txn).kv;
                    let post = final(txn).kv;
                    let l0 = pre.inodes@[ino].lock_state;
                    let l1 = post.inodes@[ino].lock_state;
                    &&& pre.inodes@.contains_key(ino)
                    &&& pre.inodes@[ino].file_attr.kind != FileType::Directory
                    &&& post.inodes@.contains_key(ino)
                    &&& post.inodes@.remove(ino) == pre.inodes@.remove(ino)
                    &&& post.inodes@[ino] == (Inode {
                        lock_state: l1,
                        ..pre.inodes@[ino]
                    })
                    &&& post.meta == pre.meta && post.dirs == pre.dirs && post.blocks
                        == pre.blocks && post.handlers == pre.handlers && post.index
                        == pre.index
                    &&& l1.wf()
                    &&& if typ == F_RDLCK {
                        if l0.lk_type == F_WRLCK && !l0.owners().contains(lock_owner) {
                            applied == false && sleep && l1 == l0
                        } else if l0.lk_type == F_WRLCK {
                            applied == true && l1 == l0
                        } else {
                            &&& applied == true
                            &&& l1.lk_type == F_RDLCK
                            &&& l1.owners() == l0.owners().insert(lock_owner)
                        }
                    } else if typ == F_WRLCK {
                        if l0.lk_type == F_UNLCK {
                            applied == true && l1.lk_type == F_WRLCK && l1.owners()
                                == Set::<u64>::empty().insert(lock_owner)
                        } else if l0.owners().contains(lock_owner) && l0.lk_type == F_WRLCK {
                            applied == true && l1 == l0
                        } else if l0.lk_type == F_RDLCK && l0.owner_set@.len() == 1
                            && l0.owners().contains(lock_owner) {
                            applied == true && l1.lk_type == F_WRLCK && l1.owners()
                                == l0.owners()
                        } else {
                            applied == false && sleep && l1 == l0
                        }
                    } else {
                        &&& typ == F_UNLCK
                        &&& applied == true
                        &&& l1.owners() == l0.owners().remove(lock_owner)
                        &&& (l1.owners().len() == 0 ==> l1.lk_type == F_UNLCK)
                        &&& (l1.owners().len() > 0 ==> l1.lk_type == l0.lk_type)
                    }
                },
                Err(e) => {
                    let pre = old(txn).kv;
                    &&& *final(txn) == *old(txn)
                    &&& if pre.inode_of(ino) is None {
                        e == (FsError::InodeNotFound { inode: ino })
                    } else {
                        e == FsError::InvalidLock && {
                            let l0 = pre.inodes@[ino].lock_state;
                            ||| pre.inodes@[ino].file_attr.kind == FileType::Directory
                            ||| !(typ == F_RDLCK || typ == F_WRLCK || typ == F_UNLCK)
                            ||| (typ == F_RDLCK && l0.lk_type == F_WRLCK && !l0.owners().contains(
                                lock_owner,
                            ) && !sleep)
                            ||| (typ == F_WRLCK && l0.lk_type != F_UNLCK && !(l0.lk_type
                                == F_WRLCK && l0.owners().contains(lock_owner)) && !(l0.lk_type
                                == F_RDLCK && l0.owner_set@.len() == 1 && l0.owners().contains(
                                lock_owner,
                            )) && !sleep)
                        }
                    }
                },
            },
    {
        let bs = txn.block_size;
        let (kind, lk_type, has_owner, owner_count) = match txn.kv.inodes.get(ino) {
            Some(v) => (
                v.file_attr.kind,
                v.lock_state.lk_type,
                v.lock_state.contains_owner(lock_owner),
                v.lock_state.owner_set.len(),
            ),
            None => {
                return Err(FsError::InodeNotFound { inode: ino });
            }
        };
        if matches!(kind, FileType::Directory) {
            return Err(FsError::InvalidLock);
        }
        if !(typ == F_RDLCK || typ == F_WRLCK || typ == F_UNLCK) {
            return Err(FsError::InvalidLock);
        }
        proof {
            assert(old(txn).kv.wf_inode_at(txn.block_size, ino));
        }
        // decide before mutating, so a refused request changes nothing
        if typ == F_RDLCK && lk_type == F_WRLCK && !has_owner {
            return if sleep {
                Ok(false)
            } else {
                Err(FsError::InvalidLock)
            };
        }
        if typ == F_WRLCK && !(lk_type == F_UNLCK) && !(lk_type == F_WRLCK && has_owner) && !(
        lk_type == F_RDLCK && owner_count == 1 && has_owner) {
            return if sleep {
                Ok(false)
            } else {
                Err(FsError::InvalidLock)
            };
        }
        let ghost pre = txn.kv;
        proof {
            assert(pre.wf_inode_at(bs, ino));
        }
        let mut inode = match txn.kv.inodes.take(ino) {
            Some(v) => v,
            None => {
                proof {
                    assert(false);
                }
                return Err(FsError::InodeNotFound { inode: ino });
            }
        };
        if typ == F_RDLCK {
            if lk_type == F_WRLCK {
                // same owner holds the write lock: keep it
            } else {
                inode.lock_state.insert_owner(lock_owner);
                inode.lock_state.lk_type = F_RDLCK;
            }
        } else if typ == F_WRLCK {
            if lk_type == F_UNLCK {
                inode.lock_state.clear_owners();
                inode.lock_state.insert_owner(lock_owner);
                inode.lock_state.lk_type = F_WRLCK;
            } else if lk_type == F_WRLCK {
                // same owner holds the write lock: keep it
            } else {
                // sole reader upgrades
                inode.lock_state.lk_type = F_WRLCK;
            }
        } else {
            inode.lock_state.remove_owner(lock_owner);
            proof {
                inode.lock_state.owner_set@.unique_seq_to_set();
            }
            if inode.lock_state.owner_set.len() == 0 {
                inode.lock_state.lk_type = F_UNLCK;
            }
        }
        proof {
            assert(inode.lock_state.wf()) by {
                let l0 = pre.inodes@[ino].lock_state;
                assert(l0.wf());
                if typ == F_UNLCK && inode.lock_state.owner_set@.len() > 0 {
                    assert(l0.lk_type != F_UNLCK);
                    if l0.lk_type == F_WRLCK {
                        assert(l0.owner_set@.len() == 1);
                        assert(inode.lock_state.owner_set@.len() == 0 || !l0.owners().contains(
                            lock_owner,
                        ));
                    }
                }
            }
        }
        let ghost iv = inode;
        txn.kv.inodes.insert(ino, inode);
        proof {
            assert(txn.kv.inodes@ =~= pre.inodes@.insert(ino, iv));
            crate::transaction::lemma_wf_inode_update(pre, txn.kv, bs, iv);
            assert(txn.kv.inodes@.remove(ino) =~= pre.inodes@.remove(ino));
        }
        Ok(true)
    }

    /// One attempt of a sleeping lock request, as the bounded retry loop
    /// re-runs it: `Ok(false)` says the conflict still stands.
    pub fn setlkw(&self, txn: &mut Txn, ino: u64, lock_owner: u64, typ: i32, now: TimeSpec)
        -> (r: Result<bool, FsError>)
        requires
            old(txn).wf(),
        ensures
            final(txn).wf(),
            final(txn).block_size == old(txn).block_size,
            match r {
                Ok(applied) => {
                    let pre = old(txn).kv;
                    let post = final(txn).kv;
                    let l0 = pre.inodes@[ino].lock_state;
                    &&& pre.inodes@.contains_key(ino)
                    &&& (applied ==> post.inodes@.contains_key(ino)
                        && post.inodes@[ino].lock_state.wf()
                        && post.inodes@[ino].lock_state.lk_type == typ)
                    &&& (!applied ==> *final(txn) == *old(txn) && (if typ == F_WRLCK {
                        l0.owner_set@.len() > 1 || (l0.owner_set@.len() == 1
                            && !l0.owners().contains(lock_owner))
                    } else {
                        l0.lk_type == F_WRLCK
                    }))
                },
                Err(e) => {
                    &&& *final(txn) == *old(txn)
                    &&& if old(txn).kv.inode_of(ino) is None {
                        e == (FsError::InodeNotFound { inode: ino })
                    } else {
                        !(typ == F_RDLCK || typ == F_WRLCK) && e == FsError::InvalidLock
                    }
                },
            },
    {
        let bs = txn.block_size;
        let (lk_type, has_owner, owner_count) = match txn.kv.inodes.get(ino) {
            Some(v) => (
                v.lock_state.lk_type,
                v.lock_state.contains_owner(lock_owner),
                v.lock_state.owner_set.len(),
            ),
            None => {
                return Err(FsError::InodeNotFound { inode: ino });
            }
        };
        if typ == F_WRLCK {
            if owner_count > 1 {
                return Ok(false);
            }
            if owner_count == 1 && !has_owner {
                // another owner still holds the lock: not yet
                return Ok(false);
            }
        } else if typ == F_RDLCK {
            if lk_type == F_WRLCK {
                return Ok(false);
            }
        } else {
            return Err(FsError::InvalidLock);
        }
        let ghost pre = txn.kv;
        proof {
            assert(pre.wf_inode_at(bs, ino));
        }
        let mut inode = match txn.kv.inodes.take(ino) {
            Some(v) => v,
            None => {
                proof {
                    assert(false);
                }
                return Err(FsError::InodeNotFound { inode: ino });
            }
        };
        if typ == F_WRLCK {
            inode.lock_state.insert_owner(lock_owner);
            inode.lock_state.lk_type = F_WRLCK;
        } else {
            inode.lock_state.insert_owner(lock_owner);
            inode.lock_state.lk_type = F_RDLCK;
        }
        proof {
            assert(inode.lock_state.wf()) by {
                let l0 = pre.inodes@[ino].lock_state;
                assert(l0.wf());
            }
        }
        let ghost iv = inode;
        txn.kv.inodes.insert(ino, inode);
        proof {
            assert(txn.kv.inodes@ =~= pre.inodes@.insert(ino, iv));
            crate::transaction::lemma_wf_inode_update(pre, txn.kv, bs, iv);
        }
        Ok(true)
    }

    /// Reports the lock kind currently held on an inode.
    pub fn getlk(&self, txn: &Txn, ino: u64) -> (r: Result<Lock, FsError>)
        requires
            txn.kv.inodes.wf(),
        ensures
            match r {
                Ok(l) => {
                    &&& txn.kv.inode_of(ino) is Some
                    &&& l.typ == txn.kv.inodes@[ino].lock_state.lk_type
                    &&& l.start == 0 && l.end == 0 && l.pid == 0
                },
                Err(e) => txn.kv.inode_of(ino) is None && e == (FsError::InodeNotFound {
                    inode: ino,
                }),
            },
    {
        match txn.read_inode(ino) {
            Ok(v) => Ok(Lock::_new(0, 0, v.lock_state.lk_type, 0)),
            Err(e) => Err(e),
        }
    }
}

/// Whether two byte names spell the same name.
fn bytes_eq(a: &Vec<u8>, b: &Vec<u8>) -> (r: bool)
    ensures
        r == (a@ == b@),
{
    if a.len() != b.len() {
        proof {
            assert(a@ != b@);
        }
        return false;
    }
    let mut i: usize = 0;
    while i < a.len()
        invariant
            i <= a@.len(),
            a@.len() == b@.len(),
            forall|j: int| 0 <= j < i ==> a@[j] == b@[j],
        decreases a@.len() - i,
    {
        if a[i] != b[i] {
            proof {
                assert(a@ != b@);
            }
            return false;
        }
        i += 1;
    }
    proof {
        assert(a@ =~= b@);
    }
    true
}

/// The conventional parent-entry name.
pub fn dot_dot_name() -> (r: Vec<u8>)
    ensures
        r@ == seq![46u8, 46u8],
{
    let mut v: Vec<u8> = Vec::new();
    v.push(46);
    v.push(46);
    proof {
        assert(v@ =~= seq![46u8, 46u8]);
    }
    v
}

} // verus!
