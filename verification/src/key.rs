//! The key schema: every persistent entity lives under one byte key,
//! starting with a one-byte scope tag followed by big-endian fixed-width
//! fields, so that range scans return meaningful groups.

use vstd::prelude::*;
use crate::error::FsError;
use crate::serialize::{copy_bytes, dec_u64, enc_u64, put_u64, read_u64};

verus! {

/// The root directory's inode id.
pub const ROOT_INODE: u64 = 1;

/// One fully-decoded store key.
#[derive(Clone, Debug, PartialEq, Eq)]
pub enum ScopedKey {
    Meta,
    Inode(u64),
    Block { ino: u64, block: u64 },
    FileHandler { ino: u64, handler: u64 },
    FileIndex { parent: u64, name: Vec<u8> },
}

pub const META_SCOPE: u8 = 0;
pub const INODE_SCOPE: u8 = 1;
pub const BLOCK_SCOPE: u8 = 2;
pub const HANDLER_SCOPE: u8 = 3;
pub const INDEX_SCOPE: u8 = 4;

impl ScopedKey {
    pub open spec fn spec_scope(&self) -> u8 {
        match self {
            ScopedKey::Meta => META_SCOPE,
            ScopedKey::Inode(_) => INODE_SCOPE,
            ScopedKey::Block { .. } => BLOCK_SCOPE,
            ScopedKey::FileHandler { .. } => HANDLER_SCOPE,
            ScopedKey::FileIndex { .. } => INDEX_SCOPE,
        }
    }

    /// The exact bytes this key encodes to.
    pub open spec fn spec_encode(&self) -> Seq<u8> {
        match self {
            ScopedKey::Meta => seq![META_SCOPE],
            ScopedKey::Inode(ino) => seq![INODE_SCOPE] + enc_u64(*ino),
            ScopedKey::Block { ino, block } => seq![BLOCK_SCOPE] + enc_u64(*ino) + enc_u64(
                *block,
            ),
            ScopedKey::FileHandler { ino, handler } => seq![HANDLER_SCOPE] + enc_u64(*ino)
                + enc_u64(*handler),
            ScopedKey::FileIndex { parent, name } => seq![INDEX_SCOPE] + enc_u64(*parent)
                + name@,
        }
    }

    pub fn meta() -> (r: Self)
        ensures
            r == ScopedKey::Meta,
    {
        ScopedKey::Meta
    }

    pub fn inode(ino: u64) -> (r: Self)
        ensures
            r == ScopedKey::Inode(ino),
    {
        ScopedKey::Inode(ino)
    }

    pub fn block(ino: u64, block: u64) -> (r: Self)
        ensures
            r == (ScopedKey::Block { ino, block }),
    {
        ScopedKey::Block { ino, block }
    }

    pub fn root() -> (r: Self)
        ensures
            r == ScopedKey::Inode(ROOT_INODE),
    {
        ScopedKey::Inode(ROOT_INODE)
    }

    pub fn handler(ino: u64, handler: u64) -> (r: Self)
        ensures
            r == (ScopedKey::FileHandler { ino, handler }),
    {
        ScopedKey::FileHandler { ino, handler }
    }

    pub fn index(parent: u64, name: Vec<u8>) -> (r: Self)
        ensures
            r == (ScopedKey::FileIndex { parent, name }),
    {
        ScopedKey::FileIndex { parent, name }
    }

    /// The half-open byte-key range covering blocks `[start, end)` of one
    /// inode; scanning it visits exactly those block keys, in order.
    pub fn block_range(ino: u64, start: u64, end: u64) -> (r: (Vec<u8>, Vec<u8>))
        ensures
            r.0@ == (ScopedKey::Block { ino, block: start }).spec_encode(),
            r.1@ == (ScopedKey::Block { ino, block: end }).spec_encode(),
    {
        (Self::block(ino, start).encode(), Self::block(ino, end).encode())
    }

    /// The half-open byte-key range covering inodes `[start, end)`.
    pub fn inode_range(start: u64, end: u64) -> (r: (Vec<u8>, Vec<u8>))
        ensures
            r.0@ == ScopedKey::Inode(start).spec_encode(),
            r.1@ == ScopedKey::Inode(end).spec_encode(),
    {
        (Self::inode(start).encode(), Self::inode(end).encode())
    }

    pub fn scope(&self) -> (r: u8)
        ensures
            r == self.spec_scope(),
    {
        match self {
            ScopedKey::Meta => META_SCOPE,
            ScopedKey::Inode(_) => INODE_SCOPE,
            ScopedKey::Block { .. } => BLOCK_SCOPE,
            ScopedKey::FileHandler { .. } => HANDLER_SCOPE,
            ScopedKey::FileIndex { .. } => INDEX_SCOPE,
        }
    }

    pub fn len(&self) -> (r: usize)
        requires
            self matches ScopedKey::FileIndex { name, .. } ==> name@.len() + 9 <= usize::MAX,
        ensures
            r == self.spec_encode().len(),
    {
        1 + match self {
            ScopedKey::Meta => 0,
            ScopedKey::Inode(_) => 8,
            ScopedKey::Block { .. } => 16,
            ScopedKey::FileHandler { .. } => 16,
            ScopedKey::FileIndex { name, .. } => 8 + name.len(),
        }
    }

    pub fn is_empty(&self) -> (r: bool)
        requires
            self matches ScopedKey::FileIndex { name, .. } ==> name@.len() + 9 <= usize::MAX,
        ensures
            r == (self.spec_encode().len() == 0),
    {
        self.len() == 0
    }

    /// The encoded byte key.
    pub fn encode(&self) -> (r: Vec<u8>)
        ensures
            r@ == self.spec_encode(),
    {
        let mut buf: Vec<u8> = Vec::new();
        match self {
            ScopedKey::Meta => {
                buf.push(META_SCOPE);
            }
            ScopedKey::Inode(ino) => {
                buf.push(INODE_SCOPE);
                put_u64(&mut buf, *ino);
            }
            ScopedKey::Block { ino, block } => {
                buf.push(BLOCK_SCOPE);
                put_u64(&mut buf, *ino);
                put_u64(&mut buf, *block);
            }
            ScopedKey::FileHandler { ino, handler } => {
                buf.push(HANDLER_SCOPE);
                put_u64(&mut buf, *ino);
                put_u64(&mut buf, *handler);
            }
            ScopedKey::FileIndex { parent, name } => {
                buf.push(INDEX_SCOPE);
                put_u64(&mut buf, *parent);
                let mut i: usize = 0;
                while i < name.len()
                    invariant
                        i <= name@.len(),
                        buf@ == seq![INDEX_SCOPE] + enc_u64(*parent) + name@.take(i as int),
                    decreases name@.len() - i,
                {
                    buf.push(name[i]);
                    proof {
                        assert(name@.take(i + 1) =~= name@.take(i as int).push(name@[i as int]));
                        assert(buf@ =~= seq![INDEX_SCOPE] + enc_u64(*parent) + name@.take(i + 1));
                    }
                    i += 1;
                }
                proof {
                    assert(name@.take(name@.len() as int) =~= name@);
                }
            }
        }
        proof {
            assert(buf@ =~= self.spec_encode());
        }
        buf
    }

    /// Parses an encoded key back; any byte string no encoded key is a
    /// prefix of (in the sense of `spec_parse_ok`) is rejected.
    pub fn parse(key: &[u8]) -> (r: Result<Self, FsError>)
        ensures
            match r {
                Ok(k) => spec_parseable(key@) && spec_parse_ok(key@, k),
                Err(e) => !spec_parseable(key@) && e == FsError::InvalidScopedKey(r_err_bytes(
                    e,
                )) && r_err_bytes(e)@ == key@,
            },
    {
        if key.len() < 1 {
            return Err(FsError::InvalidScopedKey(copy_bytes(key)));
        }
        let tag = key[0];
        if tag == META_SCOPE {
            Ok(ScopedKey::Meta)
        } else if tag == INODE_SCOPE {
            if key.len() >= 9 {
                Ok(ScopedKey::Inode(read_u64(key, 1)))
            } else {
                Err(FsError::InvalidScopedKey(copy_bytes(key)))
            }
        } else if tag == BLOCK_SCOPE {
            if key.len() >= 17 {
                Ok(ScopedKey::Block { ino: read_u64(key, 1), block: read_u64(key, 9) })
            } else {
                Err(FsError::InvalidScopedKey(copy_bytes(key)))
            }
        } else if tag == HANDLER_SCOPE {
            if key.len() >= 17 {
                Ok(ScopedKey::FileHandler { ino: read_u64(key, 1), handler: read_u64(key, 9) })
            } else {
                Err(FsError::InvalidScopedKey(copy_bytes(key)))
            }
        } else if tag == INDEX_SCOPE {
            if key.len() >= 9 {
                let parent = read_u64(key, 1);
                let mut name: Vec<u8> = Vec::new();
                let mut i: usize = 9;
                while i < key.len()
                    invariant
                        9 <= i <= key@.len(),
                        name@ == key@.subrange(9, i as int),
                    decreases key@.len() - i,
                {
                    name.push(key[i]);
                    proof {
                        assert(name@ =~= key@.subrange(9, i + 1));
                    }
                    i += 1;
                }
                proof {
                    assert(name@ =~= key@.skip(9));
                }
                Ok(ScopedKey::FileIndex { parent, name })
            } else {
                Err(FsError::InvalidScopedKey(copy_bytes(key)))
            }
        } else {
            Err(FsError::InvalidScopedKey(copy_bytes(key)))
        }
    }
}

/// The bytes carried by an `InvalidScopedKey` error.
pub open spec fn r_err_bytes(e: FsError) -> Vec<u8>
    recommends
        e is InvalidScopedKey,
{
    match e {
        FsError::InvalidScopedKey(b) => b,
        _ => arbitrary(),
    }
}

/// Whether some key parses out of these bytes.
pub open spec fn spec_parseable(s: Seq<u8>) -> bool {
    &&& s.len() >= 1
    &&& (s[0] == META_SCOPE || (s[0] == INODE_SCOPE && s.len() >= 9) || (s[0] == BLOCK_SCOPE
        && s.len() >= 17) || (s[0] == HANDLER_SCOPE && s.len() >= 17) || (s[0] == INDEX_SCOPE
        && s.len() >= 9))
}

/// What key these bytes parse to. Trailing bytes beyond a key's fixed
/// fields are tolerated, as the store's scans may hand back whole keys of
/// a scanned range.
pub open spec fn spec_parse_ok(s: Seq<u8>, k: ScopedKey) -> bool {
    s.len() >= 1 && match k {
        ScopedKey::Meta => s[0] == META_SCOPE,
        ScopedKey::Inode(ino) => s[0] == INODE_SCOPE && s.len() >= 9 && ino == dec_u64(
            s.subrange(1, 9),
        ),
        ScopedKey::Block { ino, block } => s[0] == BLOCK_SCOPE && s.len() >= 17 && ino == dec_u64(
            s.subrange(1, 9),
        ) && block == dec_u64(s.subrange(9, 17)),
        ScopedKey::FileHandler { ino, handler } => s[0] == HANDLER_SCOPE && s.len() >= 17
            && ino == dec_u64(s.subrange(1, 9)) && handler == dec_u64(s.subrange(9, 17)),
        ScopedKey::FileIndex { parent, name } => s[0] == INDEX_SCOPE && s.len() >= 9
            && parent == dec_u64(s.subrange(1, 9)) && name@ == s.skip(9),
    }
}

/// Every key parses back from its own encoding.
pub proof fn lemma_key_roundtrip(k: ScopedKey)
    ensures
        spec_parseable(k.spec_encode()),
        spec_parse_ok(k.spec_encode(), k),
{
    let s = k.spec_encode();
    match k {
        ScopedKey::Meta => {}
        ScopedKey::Inode(ino) => {
            assert(s.subrange(1, 9) =~= enc_u64(ino));
            crate::serialize::lemma_u64_roundtrip(ino);
        }
        ScopedKey::Block { ino, block } => {
            assert(s.subrange(1, 9) =~= enc_u64(ino));
            assert(s.subrange(9, 17) =~= enc_u64(block));
            crate::serialize::lemma_u64_roundtrip(ino);
            crate::serialize::lemma_u64_roundtrip(block);
        }
        ScopedKey::FileHandler { ino, handler } => {
            assert(s.subrange(1, 9) =~= enc_u64(ino));
            assert(s.subrange(9, 17) =~= enc_u64(handler));
            crate::serialize::lemma_u64_roundtrip(ino);
            crate::serialize::lemma_u64_roundtrip(handler);
        }
        ScopedKey::FileIndex { parent, name } => {
            assert(s.subrange(1, 9) =~= enc_u64(parent));
            assert(s.skip(9) =~= name@);
            crate::serialize::lemma_u64_roundtrip(parent);
        }
    }
}

} // verus!
