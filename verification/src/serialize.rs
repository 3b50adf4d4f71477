//! The binary codec for every persisted entity.
//!
//! Integers are fixed-width big-endian; options carry a one-byte tag;
//! lists carry a 64-bit count. Every codec round-trips: decoding an
//! encoding yields the entity back.

use vstd::prelude::*;
use vstd::string::*;
use crate::error::FsError;
use crate::file_handler::FileHandler;
use crate::index::Index;
use crate::inode::{FileAttr, Inode, LockState, TimeSpec};
use crate::meta::Meta;
use crate::mode::FileType;
use crate::reply::{DirItem, StatFs};

verus! {

pub const ENCODING: &'static str = "binary";

/// The big-endian bytes of a 64-bit integer.
pub open spec fn enc_u64(x: u64) -> Seq<u8> {
    seq![
        (x >> 56) as u8,
        (x >> 48) as u8,
        (x >> 40) as u8,
        (x >> 32) as u8,
        (x >> 24) as u8,
        (x >> 16) as u8,
        (x >> 8) as u8,
        x as u8,
    ]
}

/// The integer read back from 8 big-endian bytes.
pub open spec fn dec_u64(s: Seq<u8>) -> u64
    recommends
        s.len() == 8,
{
    ((s[0] as u64) << 56) | ((s[1] as u64) << 48) | ((s[2] as u64) << 40)
        | ((s[3] as u64) << 32) | ((s[4] as u64) << 24) | ((s[5] as u64) << 16)
        | ((s[6] as u64) << 8) | (s[7] as u64)
}

pub open spec fn enc_u32(x: u32) -> Seq<u8> {
    seq![(x >> 24) as u8, (x >> 16) as u8, (x >> 8) as u8, x as u8]
}

pub open spec fn dec_u32(s: Seq<u8>) -> u32
    recommends
        s.len() == 4,
{
    ((s[0] as u32) << 24) | ((s[1] as u32) << 16) | ((s[2] as u32) << 8) | (s[3] as u32)
}

pub open spec fn enc_u16(x: u16) -> Seq<u8> {
    seq![(x >> 8) as u8, x as u8]
}

pub open spec fn dec_u16(s: Seq<u8>) -> u16
    recommends
        s.len() == 2,
{
    ((s[0] as u16) << 8) | (s[1] as u16)
}

pub broadcast proof fn lemma_u64_roundtrip(x: u64)
    ensures
        #[trigger] dec_u64(enc_u64(x)) == x,
{
    assert((((x >> 56) as u8 as u64) << 56) | (((x >> 48) as u8 as u64) << 48)
        | (((x >> 40) as u8 as u64) << 40) | (((x >> 32) as u8 as u64) << 32)
        | (((x >> 24) as u8 as u64) << 24) | (((x >> 16) as u8 as u64) << 16)
        | (((x >> 8) as u8 as u64) << 8) | (x as u8 as u64) == x) by (bit_vector);
}

pub broadcast proof fn lemma_u32_roundtrip(x: u32)
    ensures
        #[trigger] dec_u32(enc_u32(x)) == x,
{
    assert((((x >> 24) as u8 as u32) << 24) | (((x >> 16) as u8 as u32) << 16)
        | (((x >> 8) as u8 as u32) << 8) | (x as u8 as u32) == x) by (bit_vector);
}

pub broadcast proof fn lemma_u16_roundtrip(x: u16)
    ensures
        #[trigger] dec_u16(enc_u16(x)) == x,
{
    assert(((((x >> 8) as u8) as u16) << 8) | ((x as u8) as u16) == x) by (bit_vector);
}

/// Appends the big-endian bytes of `x`.
pub fn put_u64(buf: &mut Vec<u8>, x: u64)
    ensures
        final(buf)@ == old(buf)@ + enc_u64(x),
{
    buf.push(#[verifier::truncate] ((x >> 56) as u8));
    buf.push(#[verifier::truncate] ((x >> 48) as u8));
    buf.push(#[verifier::truncate] ((x >> 40) as u8));
    buf.push(#[verifier::truncate] ((x >> 32) as u8));
    buf.push(#[verifier::truncate] ((x >> 24) as u8));
    buf.push(#[verifier::truncate] ((x >> 16) as u8));
    buf.push(#[verifier::truncate] ((x >> 8) as u8));
    buf.push(#[verifier::truncate] (x as u8));
    proof {
        assert(final(buf)@ =~= old(buf)@ + enc_u64(x));
    }
}

pub fn put_u32(buf: &mut Vec<u8>, x: u32)
    ensures
        final(buf)@ == old(buf)@ + enc_u32(x),
{
    buf.push(#[verifier::truncate] ((x >> 24) as u8));
    buf.push(#[verifier::truncate] ((x >> 16) as u8));
    buf.push(#[verifier::truncate] ((x >> 8) as u8));
    buf.push(#[verifier::truncate] (x as u8));
    proof {
        assert(final(buf)@ =~= old(buf)@ + enc_u32(x));
    }
}

pub fn put_u16(buf: &mut Vec<u8>, x: u16)
    ensures
        final(buf)@ == old(buf)@ + enc_u16(x),
{
    buf.push(#[verifier::truncate] ((x >> 8) as u8));
    buf.push(#[verifier::truncate] (x as u8));
    proof {
        assert(final(buf)@ =~= old(buf)@ + enc_u16(x));
    }
}

/// Reads a big-endian 64-bit integer at `pos`.
pub fn read_u64(buf: &[u8], pos: usize) -> (r: u64)
    requires
        pos + 8 <= buf@.len(),
    ensures
        r == dec_u64(buf@.subrange(pos as int, pos + 8)),
{
    let r = ((buf[pos] as u64) << 56) | ((buf[pos + 1] as u64) << 48)
        | ((buf[pos + 2] as u64) << 40) | ((buf[pos + 3] as u64) << 32)
        | ((buf[pos + 4] as u64) << 24) | ((buf[pos + 5] as u64) << 16)
        | ((buf[pos + 6] as u64) << 8) | (buf[pos + 7] as u64);
    proof {
        let s = buf@.subrange(pos as int, pos + 8);
        assert(s[0] == buf@[pos as int] && s[1] == buf@[pos + 1] && s[2] == buf@[pos + 2]
            && s[3] == buf@[pos + 3] && s[4] == buf@[pos + 4] && s[5] == buf@[pos + 5]
            && s[6] == buf@[pos + 6] && s[7] == buf@[pos + 7]);
    }
    r
}

pub fn read_u32(buf: &[u8], pos: usize) -> (r: u32)
    requires
        pos + 4 <= buf@.len(),
    ensures
        r == dec_u32(buf@.subrange(pos as int, pos + 4)),
{
    let r = ((buf[pos] as u32) << 24) | ((buf[pos + 1] as u32) << 16)
        | ((buf[pos + 2] as u32) << 8) | (buf[pos + 3] as u32);
    proof {
        let s = buf@.subrange(pos as int, pos + 4);
        assert(s[0] == buf@[pos as int] && s[1] == buf@[pos + 1] && s[2] == buf@[pos + 2]
            && s[3] == buf@[pos + 3]);
    }
    r
}

pub fn read_u16(buf: &[u8], pos: usize) -> (r: u16)
    requires
        pos + 2 <= buf@.len(),
    ensures
        r == dec_u16(buf@.subrange(pos as int, pos + 2)),
{
    let r = ((buf[pos] as u16) << 8) | (buf[pos + 1] as u16);
    proof {
        let s = buf@.subrange(pos as int, pos + 2);
        assert(s[0] == buf@[pos as int] && s[1] == buf@[pos + 1]);
    }
    r
}

/// The error every malformed decode reports.
pub fn ser_err(target: &'static str) -> (r: FsError)
    ensures
        r matches FsError::Serialize { target: t, .. } && t == target,
        r is Serialize,
{
    FsError::Serialize { target, typ: ENCODING, msg: String::from_str("malformed encoding") }
}

/// The byte a file kind is stored as.
pub open spec fn enc_kind(t: FileType) -> u8 {
    match t {
        FileType::RegularFile => 0,
        FileType::Directory => 1,
        FileType::Symlink => 2,
        FileType::NamedPipe => 3,
        FileType::BlockDevice => 4,
        FileType::CharDevice => 5,
        FileType::Socket => 6,
    }
}

/// The file kind a byte decodes to, if any.
pub open spec fn dec_kind(b: u8) -> Option<FileType> {
    if b == 0 {
        Some(FileType::RegularFile)
    } else if b == 1 {
        Some(FileType::Directory)
    } else if b == 2 {
        Some(FileType::Symlink)
    } else if b == 3 {
        Some(FileType::NamedPipe)
    } else if b == 4 {
        Some(FileType::BlockDevice)
    } else if b == 5 {
        Some(FileType::CharDevice)
    } else if b == 6 {
        Some(FileType::Socket)
    } else {
        None
    }
}

pub fn kind_to_byte(t: FileType) -> (r: u8)
    ensures
        r == enc_kind(t),
{
    match t {
        FileType::RegularFile => 0,
        FileType::Directory => 1,
        FileType::Symlink => 2,
        FileType::NamedPipe => 3,
        FileType::BlockDevice => 4,
        FileType::CharDevice => 5,
        FileType::Socket => 6,
    }
}

pub fn kind_from_byte(b: u8) -> (r: Option<FileType>)
    ensures
        r == dec_kind(b),
{
    if b == 0 {
        Some(FileType::RegularFile)
    } else if b == 1 {
        Some(FileType::Directory)
    } else if b == 2 {
        Some(FileType::Symlink)
    } else if b == 3 {
        Some(FileType::NamedPipe)
    } else if b == 4 {
        Some(FileType::BlockDevice)
    } else if b == 5 {
        Some(FileType::CharDevice)
    } else if b == 6 {
        Some(FileType::Socket)
    } else {
        None
    }
}

pub proof fn lemma_kind_roundtrip(t: FileType)
    ensures
        dec_kind(enc_kind(t)) == Some(t),
{
}

/// A timestamp: seconds then nanoseconds, 12 bytes.
pub open spec fn enc_time(t: TimeSpec) -> Seq<u8> {
    enc_u64(t.sec) + enc_u32(t.nsec)
}

/// The timestamp stored at `p`.
pub open spec fn time_at(s: Seq<u8>, p: int) -> TimeSpec
    recommends
        0 <= p && p + 12 <= s.len(),
{
    TimeSpec { sec: dec_u64(s.subrange(p, p + 8)), nsec: dec_u32(s.subrange(p + 8, p + 12)) }
}

pub fn put_time(buf: &mut Vec<u8>, t: TimeSpec)
    ensures
        final(buf)@ == old(buf)@ + enc_time(t),
{
    put_u64(buf, t.sec);
    put_u32(buf, t.nsec);
    proof {
        assert(final(buf)@ =~= old(buf)@ + enc_time(t));
    }
}

pub fn read_time(buf: &[u8], pos: usize) -> (r: TimeSpec)
    requires
        pos + 12 <= buf@.len(),
        buf@.len() <= usize::MAX,
    ensures
        r == time_at(buf@, pos as int),
{
    let sec = read_u64(buf, pos);
    let nsec = read_u32(buf, pos + 8);
    TimeSpec { sec, nsec }
}

pub proof fn lemma_time_roundtrip(t: TimeSpec, s: Seq<u8>, p: int)
    requires
        0 <= p,
        p + 12 <= s.len(),
        s.subrange(p, p + 12) == enc_time(t),
    ensures
        time_at(s, p) == t,
{
    assert(s.subrange(p, p + 8) =~= enc_time(t).subrange(0, 8));
    assert(enc_time(t).subrange(0, 8) =~= enc_u64(t.sec));
    assert(s.subrange(p + 8, p + 12) =~= enc_time(t).subrange(8, 12));
    assert(enc_time(t).subrange(8, 12) =~= enc_u32(t.nsec));
    lemma_u64_roundtrip(t.sec);
    lemma_u32_roundtrip(t.nsec);
}

/// Filesystem usage figures: five 64-bit then three 32-bit fields,
/// 52 bytes.
pub open spec fn enc_statfs(x: StatFs) -> Seq<u8> {
    enc_u64(x.blocks) + enc_u64(x.bfree) + enc_u64(x.bavail) + enc_u64(x.files) + enc_u64(x.ffree)
        + enc_u32(x.bsize) + enc_u32(x.namelen) + enc_u32(x.frsize)
}

/// The usage figures stored at `p`.
pub open spec fn statfs_at(s: Seq<u8>, p: int) -> StatFs
    recommends
        0 <= p && p + 52 <= s.len(),
{
    StatFs {
        blocks: dec_u64(s.subrange(p, p + 8)),
        bfree: dec_u64(s.subrange(p + 8, p + 16)),
        bavail: dec_u64(s.subrange(p + 16, p + 24)),
        files: dec_u64(s.subrange(p + 24, p + 32)),
        ffree: dec_u64(s.subrange(p + 32, p + 40)),
        bsize: dec_u32(s.subrange(p + 40, p + 44)),
        namelen: dec_u32(s.subrange(p + 44, p + 48)),
        frsize: dec_u32(s.subrange(p + 48, p + 52)),
    }
}

pub fn put_statfs(buf: &mut Vec<u8>, x: &StatFs)
    ensures
        final(buf)@ == old(buf)@ + enc_statfs(*x),
{
    put_u64(buf, x.blocks);
    put_u64(buf, x.bfree);
    put_u64(buf, x.bavail);
    put_u64(buf, x.files);
    put_u64(buf, x.ffree);
    put_u32(buf, x.bsize);
    put_u32(buf, x.namelen);
    put_u32(buf, x.frsize);
    proof {
        assert(final(buf)@ =~= old(buf)@ + enc_statfs(*x));
    }
}

pub fn read_statfs(buf: &[u8], pos: usize) -> (r: StatFs)
    requires
        pos + 52 <= buf@.len(),
        buf@.len() <= usize::MAX,
    ensures
        r == statfs_at(buf@, pos as int),
{
    StatFs {
        blocks: read_u64(buf, pos),
        bfree: read_u64(buf, pos + 8),
        bavail: read_u64(buf, pos + 16),
        files: read_u64(buf, pos + 24),
        ffree: read_u64(buf, pos + 32),
        bsize: read_u32(buf, pos + 40),
        namelen: read_u32(buf, pos + 44),
        frsize: read_u32(buf, pos + 48),
    }
}

pub proof fn lemma_statfs_roundtrip(x: StatFs, s: Seq<u8>, p: int)
    requires
        0 <= p,
        p + 52 <= s.len(),
        s.subrange(p, p + 52) == enc_statfs(x),
    ensures
        statfs_at(s, p) == x,
{
    let e = enc_statfs(x);
    assert(s.subrange(p, p + 8) =~= e.subrange(0, 8));
    assert(e.subrange(0, 8) =~= enc_u64(x.blocks));
    assert(s.subrange(p + 8, p + 16) =~= e.subrange(8, 16));
    assert(e.subrange(8, 16) =~= enc_u64(x.bfree));
    assert(s.subrange(p + 16, p + 24) =~= e.subrange(16, 24));
    assert(e.subrange(16, 24) =~= enc_u64(x.bavail));
    assert(s.subrange(p + 24, p + 32) =~= e.subrange(24, 32));
    assert(e.subrange(24, 32) =~= enc_u64(x.files));
    assert(s.subrange(p + 32, p + 40) =~= e.subrange(32, 40));
    assert(e.subrange(32, 40) =~= enc_u64(x.ffree));
    assert(s.subrange(p + 40, p + 44) =~= e.subrange(40, 44));
    assert(e.subrange(40, 44) =~= enc_u32(x.bsize));
    assert(s.subrange(p + 44, p + 48) =~= e.subrange(44, 48));
    assert(e.subrange(44, 48) =~= enc_u32(x.namelen));
    assert(s.subrange(p + 48, p + 52) =~= e.subrange(48, 52));
    assert(e.subrange(48, 52) =~= enc_u32(x.frsize));
    lemma_u64_roundtrip(x.blocks);
    lemma_u64_roundtrip(x.bfree);
    lemma_u64_roundtrip(x.bavail);
    lemma_u64_roundtrip(x.files);
    lemma_u64_roundtrip(x.ffree);
    lemma_u32_roundtrip(x.bsize);
    lemma_u32_roundtrip(x.namelen);
    lemma_u32_roundtrip(x.frsize);
}

/// The meta record: the inode allocator, the block size, then an optional
/// cached statfs behind a presence byte.
pub open spec fn enc_meta(m: Meta) -> Seq<u8> {
    enc_u64(m.inode_next) + enc_u64(m.block_size) + match m.last_stat {
        None => seq![0u8],
        Some(st) => seq![1u8] + enc_statfs(st),
    }
}

/// Whether these bytes hold a whole meta record.
pub open spec fn meta_parseable(s: Seq<u8>) -> bool {
    &&& s.len() >= 17
    &&& (s[16] == 0 || s[16] == 1)
    &&& (s[16] == 0 ==> s.len() == 17)
    &&& (s[16] == 1 ==> s.len() == 69)
}

/// The meta record these bytes hold.
pub open spec fn meta_parse(s: Seq<u8>) -> Meta
    recommends
        meta_parseable(s),
{
    Meta {
        inode_next: dec_u64(s.subrange(0, 8)),
        block_size: dec_u64(s.subrange(8, 16)),
        last_stat: if s[16] == 0 {
            None
        } else {
            Some(statfs_at(s, 17))
        },
    }
}

impl Meta {
    pub fn serialize(&self) -> (r: Result<Vec<u8>, FsError>)
        ensures
            r matches Ok(b) && b@ == enc_meta(*self),
    {
        let mut buf: Vec<u8> = Vec::new();
        put_u64(&mut buf, self.inode_next);
        put_u64(&mut buf, self.block_size);
        match &self.last_stat {
            None => {
                buf.push(0);
            }
            Some(st) => {
                buf.push(1);
                put_statfs(&mut buf, st);
            }
        }
        proof {
            assert(buf@ =~= enc_meta(*self));
        }
        Ok(buf)
    }

    pub fn deserialize(bytes: &[u8]) -> (r: Result<Meta, FsError>)
        ensures
            match r {
                Ok(m) => meta_parseable(bytes@) && m == meta_parse(bytes@),
                Err(e) => !meta_parseable(bytes@) && (e matches FsError::Serialize {
                    target: t,
                    ..
                } && t@ == "meta"@),
            },
    {
        if bytes.len() < 17 {
            return Err(ser_err("meta"));
        }
        let inode_next = read_u64(bytes, 0);
        let block_size = read_u64(bytes, 8);
        let tag = bytes[16];
        if tag == 0 {
            if bytes.len() != 17 {
                return Err(ser_err("meta"));
            }
            Ok(Meta { inode_next, block_size, last_stat: None })
        } else if tag == 1 {
            if bytes.len() != 69 {
                return Err(ser_err("meta"));
            }
            let st = read_statfs(bytes, 17);
            Ok(Meta { inode_next, block_size, last_stat: Some(st) })
        } else {
            Err(ser_err("meta"))
        }
    }
}

/// Every meta record decodes back from its own encoding.
pub proof fn lemma_meta_roundtrip(m: Meta)
    ensures
        meta_parseable(enc_meta(m)),
        meta_parse(enc_meta(m)) == m,
{
    let s = enc_meta(m);
    assert(s.subrange(0, 8) =~= enc_u64(m.inode_next));
    assert(s.subrange(8, 16) =~= enc_u64(m.block_size));
    lemma_u64_roundtrip(m.inode_next);
    lemma_u64_roundtrip(m.block_size);
    match m.last_stat {
        None => {
            assert(s[16] == 0);
        }
        Some(st) => {
            assert(s[16] == 1);
            assert(s.subrange(17, 69) =~= enc_statfs(st));
            lemma_statfs_roundtrip(st, s, 17);
        }
    }
}

impl Index {
    pub open spec fn spec_enc(&self) -> Seq<u8> {
        enc_u64(self.ino)
    }

    pub fn serialize(&self) -> (r: Result<Vec<u8>, FsError>)
        ensures
            r matches Ok(b) && b@ == self.spec_enc(),
    {
        let mut buf: Vec<u8> = Vec::new();
        put_u64(&mut buf, self.ino);
        proof {
            assert(buf@ =~= self.spec_enc());
        }
        Ok(buf)
    }

    pub fn deserialize(bytes: &[u8]) -> (r: Result<Index, FsError>)
        ensures
            match r {
                Ok(v) => bytes@.len() == 8 && v.ino == dec_u64(bytes@),
                Err(e) => bytes@.len() != 8 && (e matches FsError::Serialize {
                    target: t,
                    ..
                } && t@ == "index"@),
            },
    {
        if bytes.len() != 8 {
            return Err(ser_err("index"));
        }
        let ino = read_u64(bytes, 0);
        proof {
            assert(bytes@.subrange(0, 8) =~= bytes@);
        }
        Ok(Index { ino })
    }
}

/// Every index value decodes back from its own encoding.
pub proof fn lemma_index_roundtrip(v: Index)
    ensures
        v.spec_enc().len() == 8,
        dec_u64(v.spec_enc()) == v.ino,
{
    lemma_u64_roundtrip(v.ino);
}

impl FileHandler {
    pub open spec fn spec_enc(&self) -> Seq<u8> {
        enc_u64(self.cursor)
    }

    pub fn serialize(&self) -> (r: Result<Vec<u8>, FsError>)
        ensures
            r matches Ok(b) && b@ == self.spec_enc(),
    {
        let mut buf: Vec<u8> = Vec::new();
        put_u64(&mut buf, self.cursor);
        proof {
            assert(buf@ =~= self.spec_enc());
        }
        Ok(buf)
    }

    pub fn deserialize(bytes: &[u8]) -> (r: Result<FileHandler, FsError>)
        ensures
            match r {
                Ok(v) => bytes@.len() == 8 && v.cursor == dec_u64(bytes@),
                Err(e) => bytes@.len() != 8 && (e matches FsError::Serialize {
                    target: t,
                    ..
                } && t@ == "file handler"@),
            },
    {
        if bytes.len() != 8 {
            return Err(ser_err("file handler"));
        }
        let cursor = read_u64(bytes, 0);
        proof {
            assert(bytes@.subrange(0, 8) =~= bytes@);
        }
        Ok(FileHandler { cursor })
    }
}

/// Every file handle decodes back from its own encoding.
pub proof fn lemma_file_handler_roundtrip(v: FileHandler)
    ensures
        v.spec_enc().len() == 8,
        dec_u64(v.spec_enc()) == v.cursor,
{
    lemma_u64_roundtrip(v.cursor);
}

/// A fresh vector holding these bytes.
pub fn copy_bytes(s: &[u8]) -> (r: Vec<u8>)
    ensures
        r@ == s@,
{
    let mut v: Vec<u8> = Vec::new();
    let mut i: usize = 0;
    while i < s.len()
        invariant
            i <= s@.len(),
            v@ == s@.take(i as int),
        decreases s@.len() - i,
    {
        v.push(s[i]);
        proof {
            assert(v@ =~= s@.take(i + 1));
        }
        i += 1;
    }
    proof {
        assert(v@ =~= s@);
    }
    v
}

/// Subranges of an embedded byte string are the byte string's own
/// subranges.
pub proof fn lemma_sub_sub(s: Seq<u8>, p: int, n: int, e: Seq<u8>, i: int, j: int)
    requires
        0 <= p,
        p + n <= s.len(),
        e.len() == n,
        s.subrange(p, p + n) == e,
        0 <= i <= j <= n,
    ensures
        s.subrange(p + i, p + j) == e.subrange(i, j),
{
    assert forall|k: int| 0 <= k < j - i implies s.subrange(p + i, p + j)[k] == e.subrange(
        i,
        j,
    )[k] by {
        assert(s.subrange(p, p + n)[i + k] == e[i + k]);
    }
    assert(s.subrange(p + i, p + j) =~= e.subrange(i, j));
}

/// The owner list: one 64-bit integer per owner, in list order.
pub open spec fn enc_owners(os: Seq<u64>) -> Seq<u8>
    decreases os.len(),
{
    if os.len() == 0 {
        Seq::empty()
    } else {
        enc_owners(os.drop_last()) + enc_u64(os.last())
    }
}

pub proof fn lemma_owners_len(os: Seq<u64>)
    ensures
        enc_owners(os).len() == 8 * os.len(),
    decreases os.len(),
{
    if os.len() > 0 {
        lemma_owners_len(os.drop_last());
    }
}

pub proof fn lemma_owners_index(os: Seq<u64>)
    ensures
        enc_owners(os).len() == 8 * os.len(),
        forall|i: int|
            0 <= i < os.len() ==> enc_owners(os).subrange(8 * i, 8 * i + 8) == enc_u64(os[i]),
    decreases os.len(),
{
    lemma_owners_len(os);
    if os.len() > 0 {
        let dl = os.drop_last();
        lemma_owners_index(dl);
        assert forall|i: int| 0 <= i < os.len() implies enc_owners(os).subrange(8 * i, 8 * i + 8)
            == enc_u64(os[i]) by {
            if i < os.len() - 1 {
                assert(enc_owners(os).subrange(8 * i, 8 * i + 8) =~= enc_owners(dl).subrange(
                    8 * i,
                    8 * i + 8,
                ));
                assert(dl[i] == os[i]);
            } else {
                assert(enc_owners(os).subrange(8 * i, 8 * i + 8) =~= enc_u64(os.last()));
            }
        }
    }
}

/// The lock state: the kind byte, the owner count, then the owners.
pub open spec fn enc_lock(l: LockState) -> Seq<u8> {
    seq![l.lk_type as u8] + enc_u64(l.owner_set@.len() as u64) + enc_owners(l.owner_set@)
}

/// Where the lock section starting at `p` ends.
pub open spec fn lock_end(s: Seq<u8>, p: int) -> int {
    p + 9 + 8 * (dec_u64(s.subrange(p + 1, p + 9)) as int)
}

pub open spec fn lock_parseable(s: Seq<u8>, p: int) -> bool {
    &&& 0 <= p
    &&& p + 9 <= s.len()
    &&& s[p] <= 2
    &&& lock_end(s, p) <= s.len()
}

/// The lock state stored at `p` is `l`.
pub open spec fn lock_ok(s: Seq<u8>, p: int, l: LockState) -> bool {
    &&& lock_parseable(s, p)
    &&& l.lk_type == s[p] as i32
    &&& l.owner_set@.len() == dec_u64(s.subrange(p + 1, p + 9))
    &&& forall|i: int|
        0 <= i < l.owner_set@.len() ==> l.owner_set@[i] == dec_u64(
            s.subrange(p + 9 + 8 * i, p + 9 + 8 * i + 8),
        )
}

/// A lock state can be stored when its kind is one of the three and its
/// owner list length fits the count field.
pub open spec fn lock_encodable(l: LockState) -> bool {
    &&& 0 <= l.lk_type <= 2
    &&& l.owner_set@.len() <= u64::MAX
}

pub proof fn lemma_lock_ok_of_enc(s: Seq<u8>, p: int, l: LockState)
    requires
        0 <= p,
        p + enc_lock(l).len() <= s.len(),
        s.subrange(p, p + enc_lock(l).len() as int) == enc_lock(l),
        lock_encodable(l),
        lock_end(s, p) <= s.len(),
    ensures
        lock_ok(s, p, l),
        lock_end(s, p) == p + enc_lock(l).len(),
{
    let e = enc_lock(l);
    let n = l.owner_set@.len() as int;
    lemma_owners_index(l.owner_set@);
    assert(e.len() == 9 + 8 * n);
    lemma_sub_sub(s, p, e.len() as int, e, 0, 1);
    assert(s[p] == e[0]);
    assert(e[0] == l.lk_type as u8);
    assert(l.lk_type as u8 as i32 == l.lk_type);
    lemma_sub_sub(s, p, e.len() as int, e, 1, 9);
    assert(e.subrange(1, 9) =~= enc_u64(l.owner_set@.len() as u64));
    lemma_u64_roundtrip(l.owner_set@.len() as u64);
    assert(dec_u64(s.subrange(p + 1, p + 9)) == l.owner_set@.len());
    assert forall|i: int| 0 <= i < n implies l.owner_set@[i] == dec_u64(
        s.subrange(p + 9 + 8 * i, p + 9 + 8 * i + 8),
    ) by {
        lemma_sub_sub(s, p, e.len() as int, e, 9 + 8 * i, 9 + 8 * i + 8);
        assert(e.subrange(9 + 8 * i, 9 + 8 * i + 8) =~= enc_owners(l.owner_set@).subrange(
            8 * i,
            8 * i + 8,
        ));
        lemma_u64_roundtrip(l.owner_set@[i]);
    }
}

/// The fixed 99-byte attribute section.
pub open spec fn enc_attr(a: FileAttr) -> Seq<u8> {
    enc_u64(a.ino) + enc_u64(a.size) + enc_u64(a.blocks) + enc_time(a.atime) + enc_time(a.mtime)
        + enc_time(a.ctime) + enc_time(a.crtime) + seq![enc_kind(a.kind)] + enc_u16(a.perm)
        + enc_u32(a.nlink) + enc_u32(a.uid) + enc_u32(a.gid) + enc_u32(a.rdev) + enc_u32(a.blksize)
        + enc_u32(a.flags)
}

pub open spec fn attr_parseable(s: Seq<u8>, p: int) -> bool {
    &&& 0 <= p
    &&& p + 99 <= s.len()
    &&& dec_kind(s[p + 72]) is Some
}

/// The attributes stored at `p` are `a`.
pub open spec fn attr_ok(s: Seq<u8>, p: int, a: FileAttr) -> bool {
    &&& attr_parseable(s, p)
    &&& a.ino == dec_u64(s.subrange(p, p + 8))
    &&& a.size == dec_u64(s.subrange(p + 8, p + 16))
    &&& a.blocks == dec_u64(s.subrange(p + 16, p + 24))
    &&& a.atime == time_at(s, p + 24)
    &&& a.mtime == time_at(s, p + 36)
    &&& a.ctime == time_at(s, p + 48)
    &&& a.crtime == time_at(s, p + 60)
    &&& Some(a.kind) == dec_kind(s[p + 72])
    &&& a.perm == dec_u16(s.subrange(p + 73, p + 75))
    &&& a.nlink == dec_u32(s.subrange(p + 75, p + 79))
    &&& a.uid == dec_u32(s.subrange(p + 79, p + 83))
    &&& a.gid == dec_u32(s.subrange(p + 83, p + 87))
    &&& a.rdev == dec_u32(s.subrange(p + 87, p + 91))
    &&& a.blksize == dec_u32(s.subrange(p + 91, p + 95))
    &&& a.flags == dec_u32(s.subrange(p + 95, p + 99))
}

pub proof fn lemma_attr_ok_of_enc(s: Seq<u8>, p: int, a: FileAttr)
    requires
        0 <= p,
        p + 99 <= s.len(),
        s.subrange(p, p + 99) == enc_attr(a),
    ensures
        attr_ok(s, p, a),
{
    let e = enc_attr(a);
    assert(e.len() == 99);
    lemma_sub_sub(s, p, 99, e, 0, 8);
    assert(e.subrange(0, 8) =~= enc_u64(a.ino));
    lemma_u64_roundtrip(a.ino);
    lemma_sub_sub(s, p, 99, e, 8, 16);
    assert(e.subrange(8, 16) =~= enc_u64(a.size));
    lemma_u64_roundtrip(a.size);
    lemma_sub_sub(s, p, 99, e, 16, 24);
    assert(e.subrange(16, 24) =~= enc_u64(a.blocks));
    lemma_u64_roundtrip(a.blocks);
    lemma_sub_sub(s, p, 99, e, 24, 36);
    assert(e.subrange(24, 36) =~= enc_time(a.atime));
    lemma_time_roundtrip(a.atime, s, p + 24);
    lemma_sub_sub(s, p, 99, e, 36, 48);
    assert(e.subrange(36, 48) =~= enc_time(a.mtime));
    lemma_time_roundtrip(a.mtime, s, p + 36);
    lemma_sub_sub(s, p, 99, e, 48, 60);
    assert(e.subrange(48, 60) =~= enc_time(a.ctime));
    lemma_time_roundtrip(a.ctime, s, p + 48);
    lemma_sub_sub(s, p, 99, e, 60, 72);
    assert(e.subrange(60, 72) =~= enc_time(a.crtime));
    lemma_time_roundtrip(a.crtime, s, p + 60);
    lemma_sub_sub(s, p, 99, e, 72, 73);
    assert(s[p + 72] == e[72]);
    assert(e[72] == enc_kind(a.kind));
    lemma_kind_roundtrip(a.kind);
    lemma_sub_sub(s, p, 99, e, 73, 75);
    assert(e.subrange(73, 75) =~= enc_u16(a.perm));
    lemma_u16_roundtrip(a.perm);
    lemma_sub_sub(s, p, 99, e, 75, 79);
    assert(e.subrange(75, 79) =~= enc_u32(a.nlink));
    lemma_u32_roundtrip(a.nlink);
    lemma_sub_sub(s, p, 99, e, 79, 83);
    assert(e.subrange(79, 83) =~= enc_u32(a.uid));
    lemma_u32_roundtrip(a.uid);
    lemma_sub_sub(s, p, 99, e, 83, 87);
    assert(e.subrange(83, 87) =~= enc_u32(a.gid));
    lemma_u32_roundtrip(a.gid);
    lemma_sub_sub(s, p, 99, e, 87, 91);
    assert(e.subrange(87, 91) =~= enc_u32(a.rdev));
    lemma_u32_roundtrip(a.rdev);
    lemma_sub_sub(s, p, 99, e, 91, 95);
    assert(e.subrange(91, 95) =~= enc_u32(a.blksize));
    lemma_u32_roundtrip(a.blksize);
    lemma_sub_sub(s, p, 99, e, 95, 99);
    assert(e.subrange(95, 99) =~= enc_u32(a.flags));
    lemma_u32_roundtrip(a.flags);
}

/// The optional inline payload: a presence byte, then length and bytes.
pub open spec fn enc_inline(d: Option<Vec<u8>>) -> Seq<u8> {
    match d {
        None => seq![0u8],
        Some(v) => seq![1u8] + enc_u64(v@.len() as u64) + v@,
    }
}

/// Where the inline section starting at `p` ends.
pub open spec fn inline_end(s: Seq<u8>, p: int) -> int {
    if s[p] == 0 {
        p + 1
    } else {
        p + 9 + dec_u64(s.subrange(p + 1, p + 9)) as int
    }
}

pub open spec fn inline_parseable(s: Seq<u8>, p: int) -> bool {
    &&& 0 <= p
    &&& p + 1 <= s.len()
    &&& (s[p] == 0 || s[p] == 1)
    &&& (s[p] == 1 ==> p + 9 <= s.len() && inline_end(s, p) <= s.len())
}

/// The inline payload stored at `p` is `d`.
pub open spec fn inline_ok(s: Seq<u8>, p: int, d: Option<Vec<u8>>) -> bool {
    &&& inline_parseable(s, p)
    &&& match d {
        None => s[p] == 0,
        Some(v) => {
            &&& s[p] == 1
            &&& v@.len() == dec_u64(s.subrange(p + 1, p + 9))
            &&& v@ == s.subrange(p + 9, p + 9 + v@.len() as int)
        },
    }
}

pub open spec fn inline_encodable(d: Option<Vec<u8>>) -> bool {
    d matches Some(v) ==> v@.len() <= u64::MAX
}

pub proof fn lemma_inline_ok_of_enc(s: Seq<u8>, p: int, d: Option<Vec<u8>>)
    requires
        0 <= p,
        p + enc_inline(d).len() <= s.len(),
        s.subrange(p, p + enc_inline(d).len() as int) == enc_inline(d),
        inline_encodable(d),
    ensures
        inline_ok(s, p, d),
        inline_end(s, p) == p + enc_inline(d).len(),
{
    let e = enc_inline(d);
    lemma_sub_sub(s, p, e.len() as int, e, 0, 1);
    assert(s[p] == e[0]);
    match d {
        None => {}
        Some(v) => {
            let m = v@.len() as int;
            assert(e.len() == 9 + m);
            lemma_sub_sub(s, p, e.len() as int, e, 1, 9);
            assert(e.subrange(1, 9) =~= enc_u64(v@.len() as u64));
            lemma_u64_roundtrip(v@.len() as u64);
            lemma_sub_sub(s, p, e.len() as int, e, 9, 9 + m);
            assert(e.subrange(9, 9 + m) =~= v@);
        }
    }
}

/// One whole inode record: attributes, lock state, inline payload, then
/// the two handle counters.
pub open spec fn enc_inode(v: Inode) -> Seq<u8> {
    enc_attr(v.file_attr) + enc_lock(v.lock_state) + enc_inline(v.inline_data) + enc_u64(v.next_fh)
        + enc_u64(v.opened_fh)
}

pub open spec fn inode_parseable(s: Seq<u8>) -> bool {
    &&& attr_parseable(s, 0)
    &&& lock_parseable(s, 99)
    &&& inline_parseable(s, lock_end(s, 99))
    &&& inline_end(s, lock_end(s, 99)) + 16 == s.len()
}

/// The inode these bytes hold is `v`.
pub open spec fn inode_ok(s: Seq<u8>, v: Inode) -> bool {
    &&& inode_parseable(s)
    &&& attr_ok(s, 0, v.file_attr)
    &&& lock_ok(s, 99, v.lock_state)
    &&& inline_ok(s, lock_end(s, 99), v.inline_data)
    &&& v.next_fh == dec_u64(
        s.subrange(inline_end(s, lock_end(s, 99)), inline_end(s, lock_end(s, 99)) + 8),
    )
    &&& v.opened_fh == dec_u64(
        s.subrange(inline_end(s, lock_end(s, 99)) + 8, inline_end(s, lock_end(s, 99)) + 16),
    )
}

/// An inode can be stored when its lock state and inline payload can.
pub open spec fn inode_encodable(v: Inode) -> bool {
    &&& lock_encodable(v.lock_state)
    &&& inline_encodable(v.inline_data)
}

/// Every storable inode decodes back from its own encoding.
#[verifier::rlimit(100)]
pub proof fn lemma_inode_roundtrip(v: Inode)
    requires
        inode_encodable(v),
    ensures
        inode_ok(enc_inode(v), v),
{
    let s = enc_inode(v);
    let ea = enc_attr(v.file_attr);
    let el = enc_lock(v.lock_state);
    let ei = enc_inline(v.inline_data);
    lemma_owners_len(v.lock_state.owner_set@);
    assert(ea.len() == 99);
    assert(s.subrange(0, 99) =~= ea);
    lemma_attr_ok_of_enc(s, 0, v.file_attr);
    let lend = 99 + el.len() as int;
    assert(s.subrange(99, lend) =~= el);
    assert(s.subrange(99int + 1, 99int + 9) =~= el.subrange(1int, 9int)) by {
        lemma_sub_sub(s, 99, el.len() as int, el, 1, 9);
    }
    assert(el.subrange(1, 9) =~= enc_u64(v.lock_state.owner_set@.len() as u64));
    lemma_u64_roundtrip(v.lock_state.owner_set@.len() as u64);
    assert(lock_end(s, 99) == lend);
    lemma_lock_ok_of_enc(s, 99, v.lock_state);
    let iend = lend + ei.len() as int;
    assert(s.subrange(lend, iend) =~= ei);
    lemma_inline_ok_of_enc(s, lend, v.inline_data);
    assert(inline_end(s, lend) == iend);
    assert(s.subrange(iend, iend + 8) =~= enc_u64(v.next_fh));
    assert(s.subrange(iend + 8, iend + 16) =~= enc_u64(v.opened_fh));
    lemma_u64_roundtrip(v.next_fh);
    lemma_u64_roundtrip(v.opened_fh);
}

impl Inode {
    pub fn serialize(&self) -> (r: Result<Vec<u8>, FsError>)
        requires
            lock_encodable(self.lock_state),
        ensures
            r matches Ok(b) && b@ == enc_inode(*self),
    {
        let mut buf: Vec<u8> = Vec::new();
        put_u64(&mut buf, self.file_attr.ino);
        put_u64(&mut buf, self.file_attr.size);
        put_u64(&mut buf, self.file_attr.blocks);
        put_time(&mut buf, self.file_attr.atime);
        put_time(&mut buf, self.file_attr.mtime);
        put_time(&mut buf, self.file_attr.ctime);
        put_time(&mut buf, self.file_attr.crtime);
        buf.push(kind_to_byte(self.file_attr.kind));
        put_u16(&mut buf, self.file_attr.perm);
        put_u32(&mut buf, self.file_attr.nlink);
        put_u32(&mut buf, self.file_attr.uid);
        put_u32(&mut buf, self.file_attr.gid);
        put_u32(&mut buf, self.file_attr.rdev);
        put_u32(&mut buf, self.file_attr.blksize);
        put_u32(&mut buf, self.file_attr.flags);
        proof {
            assert(buf@ =~= enc_attr(self.file_attr));
        }
        let ghost attr_bytes = buf@;
        buf.push(#[verifier::truncate] (self.lock_state.lk_type as u8));
        put_u64(&mut buf, self.lock_state.owner_set.len() as u64);
        let ghost lock_head = buf@;
        let mut i: usize = 0;
        while i < self.lock_state.owner_set.len()
            invariant
                i <= self.lock_state.owner_set@.len(),
                buf@ == lock_head + enc_owners(self.lock_state.owner_set@.take(i as int)),
            decreases self.lock_state.owner_set@.len() - i,
        {
            put_u64(&mut buf, self.lock_state.owner_set[i]);
            proof {
                let t1 = self.lock_state.owner_set@.take(i + 1);
                assert(t1.drop_last() =~= self.lock_state.owner_set@.take(i as int));
                assert(t1.last() == self.lock_state.owner_set@[i as int]);
                assert(buf@ =~= lock_head + enc_owners(t1));
            }
            i += 1;
        }
        proof {
            assert(self.lock_state.owner_set@.take(self.lock_state.owner_set@.len() as int)
                =~= self.lock_state.owner_set@);
            assert(buf@ =~= attr_bytes + enc_lock(self.lock_state));
        }
        let ghost head2 = buf@;
        match &self.inline_data {
            None => {
                buf.push(0);
            }
            Some(v) => {
                buf.push(1);
                put_u64(&mut buf, v.len() as u64);
                let mut j: usize = 0;
                while j < v.len()
                    invariant
                        j <= v@.len(),
                        buf@ == head2 + seq![1u8] + enc_u64(v@.len() as u64) + v@.take(j as int),
                    decreases v@.len() - j,
                {
                    buf.push(v[j]);
                    proof {
                        assert(v@.take(j + 1) =~= v@.take(j as int).push(v@[j as int]));
                        assert(buf@ =~= head2 + seq![1u8] + enc_u64(v@.len() as u64) + v@.take(
                            j + 1,
                        ));
                    }
                    j += 1;
                }
                proof {
                    assert(v@.take(v@.len() as int) =~= v@);
                }
            }
        }
        proof {
            assert(buf@ =~= head2 + enc_inline(self.inline_data));
        }
        put_u64(&mut buf, self.next_fh);
        put_u64(&mut buf, self.opened_fh);
        proof {
            assert(buf@ =~= enc_inode(*self));
        }
        Ok(buf)
    }

    pub fn deserialize(bytes: &[u8]) -> (r: Result<Inode, FsError>)
        ensures
            match r {
                Ok(v) => inode_ok(bytes@, v),
                Err(e) => !inode_parseable(bytes@) && (e matches FsError::Serialize {
                    target: t,
                    ..
                } && t@ == "inode"@),
            },
    {
        let n = bytes.len();
        if n < 99 + 9 {
            return Err(ser_err("inode"));
        }
        let kind = match kind_from_byte(bytes[72]) {
            Some(k) => k,
            None => {
                return Err(ser_err("inode"));
            }
        };
        let attr = FileAttr {
            ino: read_u64(bytes, 0),
            size: read_u64(bytes, 8),
            blocks: read_u64(bytes, 16),
            atime: read_time(bytes, 24),
            mtime: read_time(bytes, 36),
            ctime: read_time(bytes, 48),
            crtime: read_time(bytes, 60),
            kind,
            perm: read_u16(bytes, 73),
            nlink: read_u32(bytes, 75),
            uid: read_u32(bytes, 79),
            gid: read_u32(bytes, 83),
            rdev: read_u32(bytes, 87),
            blksize: read_u32(bytes, 91),
            flags: read_u32(bytes, 95),
        };
        let lk_byte = bytes[99];
        if lk_byte > 2 {
            return Err(ser_err("inode"));
        }
        let count = read_u64(bytes, 100);
        if count > ((n - 108) / 8) as u64 {
            return Err(ser_err("inode"));
        }
        let count_us: usize = count as usize;
        let mut owners: Vec<u64> = Vec::new();
        let mut i: usize = 0;
        while i < count_us
            invariant
                i <= count_us,
                count_us <= (bytes@.len() - 108) / 8,
                108 + 8 * count_us <= bytes@.len(),
                bytes@.len() <= usize::MAX,
                owners@.len() == i,
                forall|k: int|
                    0 <= k < i ==> owners@[k] == dec_u64(
                        bytes@.subrange(108 + 8 * k, 108 + 8 * k + 8),
                    ),
            decreases count_us - i,
        {
            owners.push(read_u64(bytes, 108 + 8 * i));
            i += 1;
        }
        let lock_state = LockState { owner_set: owners, lk_type: lk_byte as i32 };
        let lend: usize = 108 + 8 * count_us;
        proof {
            assert(lock_end(bytes@, 99) == lend);
            assert(lock_ok(bytes@, 99, lock_state));
        }
        if lend >= n {
            return Err(ser_err("inode"));
        }
        let itag = bytes[lend];
        let mut pos: usize = lend + 1;
        let inline_data: Option<Vec<u8>> = if itag == 0 {
            None
        } else if itag == 1 {
            if n - lend < 9 {
                return Err(ser_err("inode"));
            }
            let m64 = read_u64(bytes, lend + 1);
            if m64 > (n - (lend + 9)) as u64 {
                return Err(ser_err("inode"));
            }
            let m: usize = m64 as usize;
            let mut data: Vec<u8> = Vec::new();
            let mut j: usize = 0;
            while j < m
                invariant
                    j <= m,
                    lend + 9 + m <= bytes@.len(),
                    bytes@.len() <= usize::MAX,
                    data@ == bytes@.subrange(lend + 9, lend + 9 + j),
                decreases m - j,
            {
                data.push(bytes[lend + 9 + j]);
                proof {
                    assert(data@ =~= bytes@.subrange(lend + 9, lend + 9 + j + 1));
                }
                j += 1;
            }
            pos = lend + 9 + m;
            Some(data)
        } else {
            return Err(ser_err("inode"));
        };
        proof {
            assert(inline_parseable(bytes@, lend as int));
            assert(inline_ok(bytes@, lend as int, inline_data));
            assert(inline_end(bytes@, lend as int) == pos);
        }
        if n - pos != 16 {
            return Err(ser_err("inode"));
        }
        let next_fh = read_u64(bytes, pos);
        let opened_fh = read_u64(bytes, pos + 8);
        Ok(Inode { file_attr: attr, lock_state, inline_data, next_fh, opened_fh })
    }
}

/// One directory item: child ino, kind byte, then the name behind its
/// length.
pub open spec fn enc_item(d: DirItem) -> Seq<u8> {
    enc_u64(d.ino) + seq![enc_kind(d.typ)] + enc_u64(d.name@.len() as u64) + d.name@
}

/// Where the item starting at `p` ends.
pub open spec fn item_end(s: Seq<u8>, p: int) -> int {
    p + 17 + dec_u64(s.subrange(p + 9, p + 17)) as int
}

pub open spec fn item_parseable(s: Seq<u8>, p: int) -> bool {
    &&& 0 <= p
    &&& p + 17 <= s.len()
    &&& dec_kind(s[p + 8]) is Some
    &&& item_end(s, p) <= s.len()
}

/// The item stored at `p` is `d`.
pub open spec fn item_ok(s: Seq<u8>, p: int, d: DirItem) -> bool {
    &&& item_parseable(s, p)
    &&& d.ino == dec_u64(s.subrange(p, p + 8))
    &&& Some(d.typ) == dec_kind(s[p + 8])
    &&& d.name@.len() == dec_u64(s.subrange(p + 9, p + 17))
    &&& d.name@ == s.subrange(p + 17, item_end(s, p))
}

pub open spec fn item_encodable(d: DirItem) -> bool {
    d.name@.len() <= u64::MAX
}

pub proof fn lemma_item_ok_of_enc(s: Seq<u8>, p: int, d: DirItem)
    requires
        0 <= p,
        p + enc_item(d).len() <= s.len(),
        s.subrange(p, p + enc_item(d).len() as int) == enc_item(d),
        item_encodable(d),
    ensures
        item_ok(s, p, d),
        item_end(s, p) == p + enc_item(d).len(),
{
    let e = enc_item(d);
    let m = d.name@.len() as int;
    assert(e.len() == 17 + m);
    lemma_sub_sub(s, p, e.len() as int, e, 0, 8);
    assert(e.subrange(0, 8) =~= enc_u64(d.ino));
    lemma_u64_roundtrip(d.ino);
    lemma_sub_sub(s, p, e.len() as int, e, 8, 9);
    assert(s[p + 8] == e[8]);
    assert(e[8] == enc_kind(d.typ));
    lemma_kind_roundtrip(d.typ);
    lemma_sub_sub(s, p, e.len() as int, e, 9, 17);
    assert(e.subrange(9, 17) =~= enc_u64(d.name@.len() as u64));
    lemma_u64_roundtrip(d.name@.len() as u64);
    lemma_sub_sub(s, p, e.len() as int, e, 17, 17 + m);
    assert(e.subrange(17, 17 + m) =~= d.name@);
}

impl DirItem {
    pub fn serialize(&self) -> (r: Result<Vec<u8>, FsError>)
        ensures
            r matches Ok(b) && b@ == enc_item(*self),
    {
        let mut buf: Vec<u8> = Vec::new();
        self.append_to(&mut buf);
        proof {
            assert(buf@ =~= enc_item(*self));
        }
        Ok(buf)
    }

    /// Appends this item's encoding.
    pub fn append_to(&self, buf: &mut Vec<u8>)
        ensures
            final(buf)@ == old(buf)@ + enc_item(*self),
    {
        put_u64(buf, self.ino);
        buf.push(kind_to_byte(self.typ));
        put_u64(buf, self.name.len() as u64);
        let ghost head = buf@;
        let mut i: usize = 0;
        while i < self.name.len()
            invariant
                i <= self.name@.len(),
                buf@ == head + self.name@.take(i as int),
            decreases self.name@.len() - i,
        {
            buf.push(self.name[i]);
            proof {
                assert(self.name@.take(i + 1) =~= self.name@.take(i as int).push(
                    self.name@[i as int],
                ));
                assert(buf@ =~= head + self.name@.take(i + 1));
            }
            i += 1;
        }
        proof {
            assert(self.name@.take(self.name@.len() as int) =~= self.name@);
            assert(final(buf)@ =~= old(buf)@ + enc_item(*self));
        }
    }

    pub fn deserialize(bytes: &[u8]) -> (r: Result<DirItem, FsError>)
        ensures
            match r {
                Ok(v) => item_ok(bytes@, 0, v) && item_end(bytes@, 0) == bytes@.len(),
                Err(e) => !(item_parseable(bytes@, 0) && item_end(bytes@, 0) == bytes@.len())
                    && (e matches FsError::Serialize { target: t, .. } && t@ == "dir item"@),
            },
    {
        let n = bytes.len();
        match read_item(bytes, 0) {
            Some((v, end)) => {
                if end == n {
                    Ok(v)
                } else {
                    Err(ser_err("dir item"))
                }
            }
            None => Err(ser_err("dir item")),
        }
    }
}

/// Reads the item stored at `pos`, and where it ends.
fn read_item(bytes: &[u8], pos: usize) -> (r: Option<(DirItem, usize)>)
    requires
        pos <= bytes@.len(),
    ensures
        match r {
            Some((v, end)) => item_ok(bytes@, pos as int, v) && end == item_end(
                bytes@,
                pos as int,
            ),
            None => !item_parseable(bytes@, pos as int),
        },
{
    let n = bytes.len();
    if n - pos < 17 {
        return None;
    }
    let ino = read_u64(bytes, pos);
    let typ = match kind_from_byte(bytes[pos + 8]) {
        Some(t) => t,
        None => {
            return None;
        }
    };
    let m64 = read_u64(bytes, pos + 9);
    if m64 > (n - (pos + 17)) as u64 {
        return None;
    }
    let m: usize = m64 as usize;
    let mut name: Vec<u8> = Vec::new();
    let mut j: usize = 0;
    while j < m
        invariant
            j <= m,
            pos + 17 + m <= bytes@.len(),
            bytes@.len() <= usize::MAX,
            name@ == bytes@.subrange(pos + 17, pos + 17 + j),
        decreases m - j,
    {
        name.push(bytes[pos + 17 + j]);
        proof {
            assert(name@ =~= bytes@.subrange(pos + 17, pos + 17 + j + 1));
        }
        j += 1;
    }
    Some((DirItem { ino, name, typ }, pos + 17 + m))
}

/// The items of a directory, one after another.
pub open spec fn enc_items(items: Seq<DirItem>) -> Seq<u8>
    decreases items.len(),
{
    if items.len() == 0 {
        Seq::empty()
    } else {
        enc_item(items[0]) + enc_items(items.drop_first())
    }
}

/// A whole directory: the item count, then the items.
pub open spec fn enc_dir(items: Seq<DirItem>) -> Seq<u8> {
    enc_u64(items.len() as u64) + enc_items(items)
}

/// Appending one item extends the item bytes at the end.
pub proof fn lemma_enc_items_push(items: Seq<DirItem>, d: DirItem)
    ensures
        enc_items(items.push(d)) == enc_items(items) + enc_item(d),
    decreases items.len(),
{
    let p = items.push(d);
    if items.len() == 0 {
        assert(p[0] == d);
        assert(p.drop_first() =~= Seq::<DirItem>::empty());
        assert(enc_items(p.drop_first()).len() == 0);
        assert(enc_items(p) == enc_item(p[0]) + enc_items(p.drop_first()));
        assert(enc_items(items).len() == 0);
        assert(enc_items(p) =~= enc_items(items) + enc_item(d));
    } else {
        assert(p.drop_first() =~= items.drop_first().push(d));
        lemma_enc_items_push(items.drop_first(), d);
        assert(p[0] == items[0]);
        assert(enc_items(p) == enc_item(p[0]) + enc_items(p.drop_first()));
        assert(enc_items(items) == enc_item(items[0]) + enc_items(items.drop_first()));
        assert(enc_items(p) =~= enc_items(items) + enc_item(d));
    }
}

/// Items `items` are stored one after another from `p` to `q`.
pub open spec fn dir_chain(s: Seq<u8>, p: int, items: Seq<DirItem>, q: int) -> bool
    decreases items.len(),
{
    if items.len() == 0 {
        p == q
    } else {
        item_ok(s, p, items[0]) && dir_chain(s, item_end(s, p), items.drop_first(), q)
    }
}

/// Whether `n` items can be read one after another from `p`, ending
/// exactly at `q`.
pub open spec fn dir_scan(s: Seq<u8>, p: int, n: nat, q: int) -> bool
    decreases n,
{
    if n == 0 {
        p == q
    } else {
        item_parseable(s, p) && dir_scan(s, item_end(s, p), (n - 1) as nat, q)
    }
}

/// Whether these bytes hold a whole directory.
pub open spec fn dir_parseable(s: Seq<u8>) -> bool {
    s.len() >= 8 && dir_scan(s, 8, dec_u64(s.subrange(0, 8)) as nat, s.len() as int)
}

/// The directory these bytes hold is `items`.
pub open spec fn dir_ok(s: Seq<u8>, items: Seq<DirItem>) -> bool {
    &&& dir_parseable(s)
    &&& items.len() == dec_u64(s.subrange(0, 8))
    &&& dir_chain(s, 8, items, s.len() as int)
}

pub open spec fn dir_encodable(items: Seq<DirItem>) -> bool {
    &&& items.len() <= u64::MAX
    &&& forall|i: int| 0 <= i < items.len() ==> item_encodable(#[trigger] items[i])
}

/// Removing one item shortens the item bytes by that item's encoding.
pub proof fn lemma_enc_items_remove(items: Seq<DirItem>, i: int)
    requires
        0 <= i < items.len(),
    ensures
        enc_items(items).len() == enc_items(items.remove(i)).len() + enc_item(items[i]).len(),
    decreases items.len(),
{
    if i == 0 {
        assert(items.remove(0) =~= items.drop_first());
        assert(enc_items(items) == enc_item(items[0]) + enc_items(items.drop_first()));
    } else {
        lemma_enc_items_remove(items.drop_first(), i - 1);
        assert(items.remove(i).drop_first() =~= items.drop_first().remove(i - 1));
        assert(items.remove(i)[0] == items[0]);
        assert(enc_items(items) == enc_item(items[0]) + enc_items(items.drop_first()));
        assert(enc_items(items.remove(i)) == enc_item(items.remove(i)[0]) + enc_items(
            items.remove(i).drop_first(),
        ));
        assert(items.drop_first()[i - 1] == items[i]);
    }
}

/// A parsed chain grows by one parsed item at its end.
pub proof fn lemma_dir_chain_push(s: Seq<u8>, p: int, items: Seq<DirItem>, q: int, d: DirItem)
    requires
        dir_chain(s, p, items, q),
        item_ok(s, q, d),
    ensures
        dir_chain(s, p, items.push(d), item_end(s, q)),
    decreases items.len(),
{
    let w = items.push(d);
    if items.len() == 0 {
        assert(w[0] == d);
        assert(w.drop_first() =~= Seq::<DirItem>::empty());
        assert(p == q);
        assert(dir_chain(s, item_end(s, q), w.drop_first(), item_end(s, q)));
        assert(dir_chain(s, p, w, item_end(s, q)) == (item_ok(s, p, w[0]) && dir_chain(
            s,
            item_end(s, p),
            w.drop_first(),
            item_end(s, q),
        )));
    } else {
        lemma_dir_chain_push(s, item_end(s, p), items.drop_first(), q, d);
        assert(w[0] == items[0]);
        assert(w.drop_first() =~= items.drop_first().push(d));
        assert(dir_chain(s, p, w, item_end(s, q)) == (item_ok(s, p, w[0]) && dir_chain(
            s,
            item_end(s, p),
            w.drop_first(),
            item_end(s, q),
        )));
    }
}

/// A parsed chain is a scan.
pub proof fn lemma_dir_chain_scan(s: Seq<u8>, p: int, items: Seq<DirItem>, q: int)
    requires
        dir_chain(s, p, items, q),
    ensures
        dir_scan(s, p, items.len(), q),
    decreases items.len(),
{
    if items.len() > 0 {
        lemma_dir_chain_scan(s, item_end(s, p), items.drop_first(), q);
    }
}

/// The bytes of a whole directory parse back to its items.
pub proof fn lemma_dir_roundtrip(items: Seq<DirItem>)
    requires
        dir_encodable(items),
    ensures
        dir_ok(enc_dir(items), items),
{
    let s = enc_dir(items);
    assert(s.subrange(0, 8) =~= enc_u64(items.len() as u64));
    lemma_u64_roundtrip(items.len() as u64);
    assert(s.subrange(8, s.len() as int) =~= enc_items(items));
    lemma_dir_items_at(s, 8, items);
    lemma_dir_chain_scan(s, 8, items, s.len() as int);
}

/// Item bytes laid down at `p` parse as a chain to their end.
proof fn lemma_dir_items_at(s: Seq<u8>, p: int, items: Seq<DirItem>)
    requires
        0 <= p,
        p + enc_items(items).len() == s.len(),
        s.subrange(p, s.len() as int) == enc_items(items),
        forall|i: int| 0 <= i < items.len() ==> item_encodable(#[trigger] items[i]),
    ensures
        dir_chain(s, p, items, s.len() as int),
    decreases items.len(),
{
    if items.len() > 0 {
        let d = items[0];
        let e = enc_item(d);
        let rest = enc_items(items.drop_first());
        assert(enc_items(items) == e + rest);
        assert(s.subrange(p, p + e.len() as int) =~= e) by {
            assert forall|k: int| 0 <= k < e.len() implies s.subrange(p, p + e.len() as int)[k]
                == e[k] by {
                assert(s.subrange(p, s.len() as int)[k] == (e + rest)[k]);
            }
        }
        lemma_item_ok_of_enc(s, p, d);
        let p2 = p + e.len() as int;
        assert(s.subrange(p2, s.len() as int) =~= rest) by {
            assert forall|k: int| 0 <= k < rest.len() implies s.subrange(p2, s.len() as int)[k]
                == rest[k] by {
                assert(s.subrange(p, s.len() as int)[e.len() + k] == (e + rest)[e.len() + k]);
            }
        }
        lemma_dir_items_at(s, p2, items.drop_first());
    }
}

/// Encodes a directory's item list.
pub fn encode_dir(dir: &Vec<DirItem>) -> (r: Vec<u8>)
    ensures
        r@ == enc_dir(dir@),
{
    let mut buf: Vec<u8> = Vec::new();
    put_u64(&mut buf, dir.len() as u64);
    let ghost head = buf@;
    let mut i: usize = 0;
    while i < dir.len()
        invariant
            i <= dir@.len(),
            buf@ == head + enc_items(dir@.take(i as int)),
        decreases dir@.len() - i,
    {
        dir[i].append_to(&mut buf);
        proof {
            assert(dir@.take(i + 1) =~= dir@.take(i as int).push(dir@[i as int]));
            lemma_enc_items_push(dir@.take(i as int), dir@[i as int]);
            assert(buf@ =~= head + enc_items(dir@.take(i + 1)));
        }
        i += 1;
    }
    proof {
        assert(dir@.take(dir@.len() as int) =~= dir@);
        assert(buf@ =~= enc_dir(dir@));
    }
    buf
}

/// Decodes a directory's item list.
pub fn decode_dir(bytes: &[u8]) -> (r: Result<Vec<DirItem>, FsError>)
    ensures
        match r {
            Ok(v) => dir_ok(bytes@, v@),
            Err(e) => !dir_parseable(bytes@) && (e matches FsError::Serialize {
                target: t,
                ..
            } && t@ == "directory"@),
        },
{
    let n = bytes.len();
    if n < 8 {
        return Err(ser_err("directory"));
    }
    let count = read_u64(bytes, 0);
    let mut items: Vec<DirItem> = Vec::new();
    let mut pos: usize = 8;
    let mut i: u64 = 0;
    while i < count
        invariant
            i <= count,
            8 <= pos <= bytes@.len(),
            bytes@.len() >= 8,
            bytes@.len() <= usize::MAX,
            count == dec_u64(bytes@.subrange(0, 8)),
            items@.len() == i,
            dir_chain(bytes@, 8, items@, pos as int),
            dir_scan(bytes@, 8, i as nat, pos as int),
            forall|k: int| 0 <= k < items@.len() ==> item_encodable(#[trigger] items@[k]),
        decreases count - i,
    {
        match read_item(bytes, pos) {
            Some((d, end)) => {
                proof {
                    lemma_dir_chain_push(bytes@, 8, items@, pos as int, d);
                    lemma_dir_scan_push(bytes@, 8, i as nat, pos as int);
                }
                items.push(d);
                pos = end;
            }
            None => {
                proof {
                    lemma_dir_scan_stuck(bytes@, 8, i as nat, pos as int, count as nat);
                }
                return Err(ser_err("directory"));
            }
        }
        i += 1;
    }
    if pos != n {
        proof {
            lemma_dir_scan_wrong_end(bytes@, 8, count as nat, pos as int);
        }
        return Err(ser_err("directory"));
    }
    Ok(items)
}

/// A scan of `n` items followed by one parseable item is a scan of
/// `n + 1`.
proof fn lemma_dir_scan_push(s: Seq<u8>, p: int, n: nat, q: int)
    requires
        dir_scan(s, p, n, q),
        item_parseable(s, q),
    ensures
        dir_scan(s, p, n + 1, item_end(s, q)),
    decreases n,
{
    if n == 0 {
        assert(p == q);
        assert(dir_scan(s, item_end(s, q), 0, item_end(s, q)));
        assert(dir_scan(s, p, 1, item_end(s, q)) == (item_parseable(s, p) && dir_scan(
            s,
            item_end(s, p),
            0,
            item_end(s, q),
        )));
    } else {
        lemma_dir_scan_push(s, item_end(s, p), (n - 1) as nat, q);
        assert(dir_scan(s, p, n + 1, item_end(s, q)) == (item_parseable(s, p) && dir_scan(
            s,
            item_end(s, p),
            n as nat,
            item_end(s, q),
        )));
    }
}

/// A scan that reached an unparseable position cannot go on to any count
/// above it.
proof fn lemma_dir_scan_stuck(s: Seq<u8>, p: int, n: nat, q: int, m: nat)
    requires
        dir_scan(s, p, n, q),
        !item_parseable(s, q),
        n < m,
    ensures
        forall|e: int| !dir_scan(s, p, m, e),
    decreases n,
{
    if n == 0 {
        assert forall|e: int| !dir_scan(s, p, m, e) by {
            assert(dir_scan(s, p, m, e) ==> item_parseable(s, p));
        }
    } else {
        lemma_dir_scan_stuck(s, item_end(s, p), (n - 1) as nat, q, (m - 1) as nat);
        assert forall|e: int| !dir_scan(s, p, m, e) by {
            assert(dir_scan(s, p, m, e) ==> dir_scan(s, item_end(s, p), (m - 1) as nat, e));
        }
    }
}

/// A scan ends at exactly one position.
proof fn lemma_dir_scan_wrong_end(s: Seq<u8>, p: int, n: nat, q: int)
    requires
        dir_scan(s, p, n, q),
    ensures
        forall|e: int| dir_scan(s, p, n, e) ==> e == q,
    decreases n,
{
    if n > 0 {
        lemma_dir_scan_wrong_end(s, item_end(s, p), (n - 1) as nat, q);
        assert forall|e: int| dir_scan(s, p, n, e) implies e == q by {
            assert(dir_scan(s, item_end(s, p), (n - 1) as nat, e));
        }
    }
}

} // verus!
