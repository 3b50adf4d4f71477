//! The closed set of reply shapes the facade hands back to the kernel
//! bridge, and the entities shared with it (directory items, statfs).

use vstd::prelude::*;
use crate::inode::{FileAttr, TimeSpec};
use crate::mode::FileType;

verus! {

/// One directory entry: the ordered view used by `readdir`.
#[derive(Clone, Debug, PartialEq, Eq)]
pub struct DirItem {
    pub ino: u64,
    pub name: Vec<u8>,
    pub typ: FileType,
}

/// Filesystem-wide usage figures, as reported to `statfs` and cached in the
/// store's meta record.
#[derive(Clone, Copy, Debug, PartialEq, Eq, Structural)]
pub struct StatFs {
    pub blocks: u64,
    pub bfree: u64,
    pub bavail: u64,
    pub files: u64,
    pub ffree: u64,
    pub bsize: u32,
    pub namelen: u32,
    pub frsize: u32,
}

impl StatFs {
    pub fn new(
        blocks: u64,
        bfree: u64,
        bavail: u64,
        files: u64,
        ffree: u64,
        bsize: u32,
        namelen: u32,
        frsize: u32,
    ) -> (r: Self)
        ensures
            r == (StatFs { blocks, bfree, bavail, files, ffree, bsize, namelen, frsize }),
    {
        StatFs { blocks, bfree, bavail, files, ffree, bsize, namelen, frsize }
    }
}

#[derive(Clone, Debug, PartialEq, Eq)]
pub struct Entry {
    pub time: TimeSpec,
    pub stat: FileAttr,
    pub generation: u64,
}

impl Entry {
    pub fn new(time: TimeSpec, stat: FileAttr, generation: u64) -> (r: Self)
        ensures
            r == (Entry { time, stat, generation }),
    {
        Entry { time, stat, generation }
    }
}

#[derive(Clone, Debug, PartialEq, Eq)]
pub struct Open {
    pub fh: u64,
    pub flags: u32,
}

impl Open {
    pub fn new(fh: u64, flags: u32) -> (r: Self)
        ensures
            r == (Open { fh, flags }),
    {
        Open { fh, flags }
    }
}

#[derive(Clone, Debug, PartialEq, Eq)]
pub struct Attr {
    pub time: TimeSpec,
    pub attr: FileAttr,
}

impl Attr {
    pub fn new(time: TimeSpec, attr: FileAttr) -> (r: Self)
        ensures
            r == (Attr { time, attr }),
    {
        Attr { time, attr }
    }
}

#[derive(Clone, Debug, PartialEq, Eq)]
pub struct Data {
    pub data: Vec<u8>,
}

impl Data {
    pub fn new(data: Vec<u8>) -> (r: Self)
        ensures
            r == (Data { data }),
    {
        Data { data }
    }
}

/// The paged reply to `readdir`: the items of a directory from a caller
/// offset onward.
#[derive(Clone, Debug, PartialEq, Eq)]
pub struct Dir {
    pub offset: usize,
    pub items: Vec<DirItem>,
}

impl Dir {
    pub fn offset(offset: usize) -> (r: Self)
        ensures
            r.offset == offset,
            r.items@ == Seq::<DirItem>::empty(),
    {
        Dir { offset, items: Vec::new() }
    }

    pub fn new() -> (r: Self)
        ensures
            r.offset == 0,
            r.items@ == Seq::<DirItem>::empty(),
    {
        Dir { offset: 0, items: Vec::new() }
    }

    pub fn push(&mut self, item: DirItem)
        ensures
            final(self).offset == old(self).offset,
            final(self).items@ == old(self).items@.push(item),
    {
        self.items.push(item);
    }
}

#[derive(Clone, Debug, PartialEq, Eq)]
pub struct DirPlus {
    pub offset: usize,
    pub items: Vec<(DirItem, Entry)>,
}

impl DirPlus {
    pub fn offset(offset: usize) -> (r: Self)
        ensures
            r.offset == offset,
            r.items@ == Seq::<(DirItem, Entry)>::empty(),
    {
        DirPlus { offset, items: Vec::new() }
    }

    pub fn new() -> (r: Self)
        ensures
            r.offset == 0,
            r.items@ == Seq::<(DirItem, Entry)>::empty(),
    {
        DirPlus { offset: 0, items: Vec::new() }
    }

    pub fn push(&mut self, item: DirItem, entry: Entry)
        ensures
            final(self).offset == old(self).offset,
            final(self).items@ == old(self).items@.push((item, entry)),
    {
        self.items.push((item, entry));
    }
}

#[derive(Clone, Debug, PartialEq, Eq)]
pub struct Write {
    pub size: u32,
}

impl Write {
    pub fn new(size: u32) -> (r: Self)
        ensures
            r == (Write { size }),
    {
        Write { size }
    }
}

#[derive(Clone, Debug, PartialEq, Eq)]
pub struct Create {
    pub ttl: TimeSpec,
    pub attr: FileAttr,
    pub generation: u64,
    pub fh: u64,
    pub flags: u32,
}

impl Create {
    pub fn new(ttl: TimeSpec, attr: FileAttr, generation: u64, fh: u64, flags: u32) -> (r: Self)
        ensures
            r == (Create { ttl, attr, generation, fh, flags }),
    {
        Create { ttl, attr, generation, fh, flags }
    }
}

#[derive(Clone, Debug, PartialEq, Eq)]
pub struct Lock {
    pub start: u64,
    pub end: u64,
    pub typ: i32,
    pub pid: u32,
}

impl Lock {
    pub fn _new(start: u64, end: u64, typ: i32, pid: u32) -> (r: Self)
        ensures
            r == (Lock { start, end, typ, pid }),
    {
        Lock { start, end, typ, pid }
    }
}

#[derive(Clone, Debug, PartialEq, Eq)]
pub enum Xattr {
    Data { data: Vec<u8> },
    Size { size: u32 },
}

impl Xattr {
    pub fn data(data: Vec<u8>) -> (r: Self)
        ensures
            r == (Xattr::Data { data }),
    {
        Xattr::Data { data }
    }

    pub fn size(size: u32) -> (r: Self)
        ensures
            r == (Xattr::Size { size }),
    {
        Xattr::Size { size }
    }
}

#[derive(Clone, Debug, PartialEq, Eq)]
pub struct Bmap {
    pub block: u64,
}

impl Bmap {
    pub fn new(block: u64) -> (r: Self)
        ensures
            r == (Bmap { block }),
    {
        Bmap { block }
    }
}

#[derive(Clone, Debug, PartialEq, Eq)]
pub struct Lseek {
    pub offset: i64,
}

impl Lseek {
    pub fn new(offset: i64) -> (r: Self)
        ensures
            r == (Lseek { offset }),
    {
        Lseek { offset }
    }
}

} // verus!
