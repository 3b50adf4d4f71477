//! The error kinds the engine reports, and their kernel errno mapping.

use vstd::prelude::*;

verus! {

pub const ENOSYS: i32 = 38;
pub const ENAMETOOLONG: i32 = 36;
pub const ENOENT: i32 = 2;
pub const EEXIST: i32 = 17;
pub const EFAULT: i32 = 14;
pub const EBADF: i32 = 9;
pub const EINVAL: i32 = 22;
pub const ENOTEMPTY: i32 = 39;
pub const EAGAIN: i32 = 11;
pub const ENOSPC: i32 = 28;

/// Every failure the engine can report. Each variant is stable and maps to
/// one kernel errno.
#[derive(Debug, Clone, PartialEq, Eq)]
pub enum FsError {
    Unimplemented,
    InvalidScopedKey(Vec<u8>),
    Serialize { target: &'static str, typ: &'static str, msg: String },
    NameTooLong { file: Vec<u8> },
    FileNotFound { file: Vec<u8> },
    FileExist { file: Vec<u8> },
    InodeNotFound { inode: u64 },
    FhNotFound { ino: u64, fh: u64 },
    InvalidOffset { ino: u64, offset: i64 },
    UnknownWhence { whence: i32 },
    BlockNotFound { inode: u64, block: u64 },
    DirNotEmpty { dir: Vec<u8> },
    InvalidStr,
    UnknownFileType,
    KeyError(String),
    RetryTimesExcess(u64),
    UnknownError(String),
    InvalidLock,
    BlockSizeConflict { origin: u64, new: u64 },
    NoSpaceLeft(u64),
}

impl FsError {
    pub fn unimplemented() -> (r: Self)
        ensures
            r == FsError::Unimplemented,
    {
        FsError::Unimplemented
    }

    pub fn block_size_conflict(origin: u64, new: u64) -> (r: Self)
        ensures
            r == (FsError::BlockSizeConflict { origin, new }),
    {
        FsError::BlockSizeConflict { origin, new }
    }

    /// The errno this error is reported as to the kernel bridge.
    pub fn errno(&self) -> (r: i32)
        ensures
            r == self.spec_errno(),
    {
        match self {
            FsError::Unimplemented => ENOSYS,
            FsError::NameTooLong { .. } => ENAMETOOLONG,
            FsError::FileNotFound { .. } => ENOENT,
            FsError::FileExist { .. } => EEXIST,
            FsError::InodeNotFound { .. } => EFAULT,
            FsError::FhNotFound { .. } => EBADF,
            FsError::InvalidOffset { .. } => EINVAL,
            FsError::UnknownWhence { .. } => EINVAL,
            FsError::BlockNotFound { .. } => EINVAL,
            FsError::DirNotEmpty { .. } => ENOTEMPTY,
            FsError::UnknownFileType => EINVAL,
            FsError::KeyError(_) => EAGAIN,
            FsError::RetryTimesExcess(_) => EAGAIN,
            FsError::InvalidStr => EINVAL,
            FsError::BlockSizeConflict { .. } => EINVAL,
            FsError::NoSpaceLeft(_) => ENOSPC,
            _ => EFAULT,
        }
    }

    pub open spec fn spec_errno(&self) -> i32 {
        match self {
            FsError::Unimplemented => ENOSYS,
            FsError::NameTooLong { .. } => ENAMETOOLONG,
            FsError::FileNotFound { .. } => ENOENT,
            FsError::FileExist { .. } => EEXIST,
            FsError::InodeNotFound { .. } => EFAULT,
            FsError::FhNotFound { .. } => EBADF,
            FsError::InvalidOffset { .. } => EINVAL,
            FsError::UnknownWhence { .. } => EINVAL,
            FsError::BlockNotFound { .. } => EINVAL,
            FsError::DirNotEmpty { .. } => ENOTEMPTY,
            FsError::UnknownFileType => EINVAL,
            FsError::KeyError(_) => EAGAIN,
            FsError::RetryTimesExcess(_) => EAGAIN,
            FsError::InvalidStr => EINVAL,
            FsError::BlockSizeConflict { .. } => EINVAL,
            FsError::NoSpaceLeft(_) => ENOSPC,
            _ => EFAULT,
        }
    }

    /// Whether the retry driver should re-run the transaction rather than
    /// surface this error: true exactly for a commit-time conflict.
    pub fn is_retryable(&self) -> (r: bool)
        ensures
            r == (self is KeyError),
    {
        match self {
            FsError::KeyError(_) => true,
            _ => false,
        }
    }
}

} // verus!
