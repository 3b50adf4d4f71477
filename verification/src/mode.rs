//! File kinds and their packing into POSIX `mode_t` words.

use vstd::prelude::*;
use crate::error::FsError;

verus! {

pub const S_IFMT: u32 = 0o170000;
pub const S_IFREG: u32 = 0o100000;
pub const S_IFLNK: u32 = 0o120000;
pub const S_IFDIR: u32 = 0o040000;
pub const S_IFIFO: u32 = 0o010000;
pub const S_IFBLK: u32 = 0o060000;
pub const S_IFCHR: u32 = 0o020000;
pub const S_IFSOCK: u32 = 0o140000;
pub const S_ISUID: u32 = 0o4000;
pub const S_ISGID: u32 = 0o2000;

/// The closed set of file kinds an inode can have.
#[derive(Clone, Copy, Debug, PartialEq, Eq, Structural)]
pub enum FileType {
    RegularFile,
    Directory,
    Symlink,
    NamedPipe,
    BlockDevice,
    CharDevice,
    Socket,
}

/// The permission word stored on an inode for a given `mode_t`: everything
/// but the set-uid and set-gid bits, truncated to 16 bits.
pub open spec fn spec_file_perm(mode: u32) -> u16 {
    (mode & !(S_ISUID | S_ISGID)) as u16
}

pub fn as_file_perm(mode: u32) -> (r: u16)
    ensures
        r == spec_file_perm(mode),
{
    #[verifier::truncate] ((mode & !(S_ISUID | S_ISGID)) as u16)
}

/// The kind encoded in a `mode_t`'s format bits, if those bits name one.
pub open spec fn spec_file_kind(mode: u32) -> Option<FileType> {
    let fmt = mode & S_IFMT;
    if fmt == S_IFREG {
        Some(FileType::RegularFile)
    } else if fmt == S_IFLNK {
        Some(FileType::Symlink)
    } else if fmt == S_IFDIR {
        Some(FileType::Directory)
    } else if fmt == S_IFIFO {
        Some(FileType::NamedPipe)
    } else if fmt == S_IFBLK {
        Some(FileType::BlockDevice)
    } else if fmt == S_IFCHR {
        Some(FileType::CharDevice)
    } else if fmt == S_IFSOCK {
        Some(FileType::Socket)
    } else {
        None
    }
}

/// Reads the file kind out of a mode word; a mode whose format bits name no
/// kind is rejected with `UnknownFileType`.
pub fn as_file_kind(mode: u32) -> (r: Result<FileType, FsError>)
    ensures
        match r {
            Ok(t) => spec_file_kind(mode) == Some(t),
            Err(e) => spec_file_kind(mode) is None && e == FsError::UnknownFileType,
        },
{
    let fmt = mode & S_IFMT;
    if fmt == S_IFREG {
        Ok(FileType::RegularFile)
    } else if fmt == S_IFLNK {
        Ok(FileType::Symlink)
    } else if fmt == S_IFDIR {
        Ok(FileType::Directory)
    } else if fmt == S_IFIFO {
        Ok(FileType::NamedPipe)
    } else if fmt == S_IFBLK {
        Ok(FileType::BlockDevice)
    } else if fmt == S_IFCHR {
        Ok(FileType::CharDevice)
    } else if fmt == S_IFSOCK {
        Ok(FileType::Socket)
    } else {
        Err(FsError::UnknownFileType)
    }
}

pub open spec fn spec_kind_bits(tpy: FileType) -> u32 {
    match tpy {
        FileType::RegularFile => S_IFREG,
        FileType::Symlink => S_IFLNK,
        FileType::Directory => S_IFDIR,
        FileType::NamedPipe => S_IFIFO,
        FileType::BlockDevice => S_IFBLK,
        FileType::CharDevice => S_IFCHR,
        FileType::Socket => S_IFSOCK,
    }
}

pub open spec fn spec_make_mode(tpy: FileType, perm: u16) -> u32 {
    spec_kind_bits(tpy) | perm as u32
}

/// Packs a file kind and a permission word into one `mode_t`.
pub fn make_mode(tpy: FileType, perm: u16) -> (r: u32)
    ensures
        r == spec_make_mode(tpy, perm),
{
    let kind: u32 = match tpy {
        FileType::RegularFile => S_IFREG,
        FileType::Symlink => S_IFLNK,
        FileType::Directory => S_IFDIR,
        FileType::NamedPipe => S_IFIFO,
        FileType::BlockDevice => S_IFBLK,
        FileType::CharDevice => S_IFCHR,
        FileType::Socket => S_IFSOCK,
    };
    kind | perm as u32
}

/// `make_mode` always stores a kind that `as_file_kind` reads back, for
/// every kind and every 12-bit permission set.
pub proof fn lemma_make_mode_kind(tpy: FileType, perm: u16)
    requires
        perm < 0o10000,
    ensures
        spec_file_kind(spec_make_mode(tpy, perm)) == Some(tpy),
{
    let m = spec_make_mode(tpy, perm);
    match tpy {
        FileType::RegularFile => {
            assert((0o100000u32 | perm as u32) & 0o170000u32 == 0o100000u32) by (bit_vector)
                requires perm < 0o10000;
        }
        FileType::Symlink => {
            assert((0o120000u32 | perm as u32) & 0o170000u32 == 0o120000u32) by (bit_vector)
                requires perm < 0o10000;
        }
        FileType::Directory => {
            assert((0o040000u32 | perm as u32) & 0o170000u32 == 0o040000u32) by (bit_vector)
                requires perm < 0o10000;
        }
        FileType::NamedPipe => {
            assert((0o010000u32 | perm as u32) & 0o170000u32 == 0o010000u32) by (bit_vector)
                requires perm < 0o10000;
        }
        FileType::BlockDevice => {
            assert((0o060000u32 | perm as u32) & 0o170000u32 == 0o060000u32) by (bit_vector)
                requires perm < 0o10000;
        }
        FileType::CharDevice => {
            assert((0o020000u32 | perm as u32) & 0o170000u32 == 0o020000u32) by (bit_vector)
                requires perm < 0o10000;
        }
        FileType::Socket => {
            assert((0o140000u32 | perm as u32) & 0o170000u32 == 0o140000u32) by (bit_vector)
                requires perm < 0o10000;
        }
    }
}

} // verus!
