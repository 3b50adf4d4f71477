use tifs::dir;
use tifs::error::FsError;
use tifs::file_handler::FileHandler;
use tifs::index::Index;
use tifs::inode::{FileAttr, Inode, LockState, TimeSpec, F_RDLCK, F_UNLCK};
use tifs::key::ScopedKey;
use tifs::meta::Meta;
use tifs::mode::{as_file_kind, as_file_perm, make_mode, FileType};
use tifs::reply::{DirItem, StatFs};

fn sample_attr() -> FileAttr {
    FileAttr {
        ino: 7,
        size: 4099,
        blocks: 2,
        atime: TimeSpec { sec: 10, nsec: 1 },
        mtime: TimeSpec { sec: 20, nsec: 2 },
        ctime: TimeSpec { sec: 30, nsec: 3 },
        crtime: TimeSpec { sec: 40, nsec: 4 },
        kind: FileType::RegularFile,
        perm: 0o644,
        nlink: 2,
        uid: 1000,
        gid: 1000,
        rdev: 0,
        blksize: 4096,
        flags: 0,
    }
}

#[test]
fn inode_round_trip() {
    let inode = Inode {
        file_attr: sample_attr(),
        lock_state: LockState::new(vec![3, 9], F_RDLCK),
        inline_data: Some(vec![1, 2, 3]),
        next_fh: 5,
        opened_fh: 1,
    };
    let bytes = inode.serialize().unwrap();
    assert_eq!(Inode::deserialize(&bytes).unwrap(), inode);

    let plain = Inode {
        file_attr: sample_attr(),
        lock_state: LockState::new(Vec::new(), F_UNLCK),
        inline_data: None,
        next_fh: 0,
        opened_fh: 0,
    };
    let bytes2 = plain.serialize().unwrap();
    assert_eq!(Inode::deserialize(&bytes2).unwrap(), plain);

    match Inode::deserialize(b"short") {
        Err(FsError::Serialize { .. }) => {}
        other => panic!("malformed inode: {:?}", other),
    }
}

#[test]
fn meta_round_trip() {
    let bare = Meta::new(4096);
    assert_eq!(Meta::deserialize(&bare.serialize().unwrap()).unwrap(), bare);

    let with_stat = Meta {
        inode_next: 42,
        block_size: 8192,
        last_stat: Some(StatFs::new(10, 5, 5, 3, 100, 8192, 256, 0)),
    };
    let bytes = with_stat.serialize().unwrap();
    assert_eq!(Meta::deserialize(&bytes).unwrap(), with_stat);

    match Meta::deserialize(&[1, 2, 3]) {
        Err(FsError::Serialize { .. }) => {}
        other => panic!("malformed meta: {:?}", other),
    }
}

#[test]
fn small_entity_round_trips() {
    let idx = Index::new(99);
    assert_eq!(Index::deserialize(&idx.serialize().unwrap()).unwrap(), idx);
    let fh = FileHandler::new(1234);
    assert_eq!(
        FileHandler::deserialize(&fh.serialize().unwrap()).unwrap(),
        fh
    );
    match Index::deserialize(&[0, 1]) {
        Err(FsError::Serialize { .. }) => {}
        other => panic!("malformed index: {:?}", other),
    }
}

#[test]
fn directory_round_trip() {
    let items = vec![
        DirItem {
            ino: 2,
            name: b"hello".to_vec(),
            typ: FileType::RegularFile,
        },
        DirItem {
            ino: 3,
            name: b"world".to_vec(),
            typ: FileType::Directory,
        },
    ];
    let bytes = dir::encode(&items).unwrap();
    assert_eq!(dir::decode(&bytes).unwrap(), items);

    let empty: Vec<DirItem> = Vec::new();
    let bytes2 = dir::encode(&empty).unwrap();
    assert_eq!(bytes2.len(), 8);
    assert_eq!(dir::decode(&bytes2).unwrap(), empty);

    let item = DirItem {
        ino: 9,
        name: b"x".to_vec(),
        typ: FileType::Symlink,
    };
    let ib = dir::encode_item(&item).unwrap();
    assert_eq!(dir::decode_item(&ib).unwrap(), item);

    match dir::decode(&[0, 0]) {
        Err(FsError::Serialize { .. }) => {}
        other => panic!("malformed directory: {:?}", other),
    }
}

#[test]
fn scoped_key_round_trips() {
    let keys = vec![
        ScopedKey::Meta,
        ScopedKey::Inode(7),
        ScopedKey::Block { ino: 7, block: 3 },
        ScopedKey::FileHandler { ino: 7, handler: 1 },
        ScopedKey::FileIndex {
            parent: 1,
            name: b"etc".to_vec(),
        },
    ];
    for k in keys {
        let bytes = k.encode();
        assert_eq!(ScopedKey::parse(&bytes).unwrap(), k);
    }

    // the scope byte leads, fields are big-endian
    let bytes = ScopedKey::Block { ino: 1, block: 2 }.encode();
    assert_eq!(bytes[0], 2);
    assert_eq!(&bytes[1..9], &[0, 0, 0, 0, 0, 0, 0, 1]);
    assert_eq!(&bytes[9..17], &[0, 0, 0, 0, 0, 0, 0, 2]);
    assert_eq!(ScopedKey::Meta.encode(), vec![0u8]);
    assert_eq!(ScopedKey::meta().len(), 1);
    assert_eq!(ScopedKey::inode(5).len(), 9);
    assert_eq!(ScopedKey::block(5, 0).len(), 17);
    assert!(!ScopedKey::handler(5, 0).is_empty());
    assert_eq!(ScopedKey::root(), ScopedKey::Inode(1));
    assert_eq!(ScopedKey::index(1, b"a".to_vec()).scope(), 4);

    let (lo, hi) = ScopedKey::block_range(5, 0, 3);
    assert_eq!(ScopedKey::parse(&lo).unwrap(), ScopedKey::Block { ino: 5, block: 0 });
    assert_eq!(ScopedKey::parse(&hi).unwrap(), ScopedKey::Block { ino: 5, block: 3 });
    let (ilo, ihi) = ScopedKey::inode_range(1, 9);
    assert_eq!(ScopedKey::parse(&ilo).unwrap(), ScopedKey::Inode(1));
    assert_eq!(ScopedKey::parse(&ihi).unwrap(), ScopedKey::Inode(9));

    match ScopedKey::parse(&[9, 9, 9]) {
        Err(FsError::InvalidScopedKey(raw)) => assert_eq!(raw, vec![9, 9, 9]),
        other => panic!("bad scope byte: {:?}", other),
    }
    match ScopedKey::parse(&[1, 0]) {
        Err(FsError::InvalidScopedKey(_)) => {}
        other => panic!("truncated key: {:?}", other),
    }
}

#[test]
fn mode_words() {
    assert_eq!(as_file_kind(make_mode(FileType::RegularFile, 0o644)).unwrap(), FileType::RegularFile);
    assert_eq!(as_file_kind(make_mode(FileType::Directory, 0o755)).unwrap(), FileType::Directory);
    assert_eq!(as_file_kind(make_mode(FileType::Symlink, 0o777)).unwrap(), FileType::Symlink);
    assert_eq!(as_file_kind(make_mode(FileType::Socket, 0)).unwrap(), FileType::Socket);
    assert_eq!(make_mode(FileType::RegularFile, 0o644), 0o100644);
    assert_eq!(as_file_perm(0o102644), 0o100644 & 0xffff);
    assert_eq!(as_file_perm(0o644), 0o644);
    match as_file_kind(0) {
        Err(FsError::UnknownFileType) => {}
        other => panic!("mode without a kind: {:?}", other),
    }
}

#[test]
fn errno_mapping() {
    assert_eq!(FsError::unimplemented().errno(), 38);
    assert_eq!(FsError::block_size_conflict(1, 2).errno(), 22);
    assert_eq!(FsError::FileNotFound { file: Vec::new() }.errno(), 2);
    assert_eq!(FsError::FileExist { file: Vec::new() }.errno(), 17);
    assert_eq!(FsError::NameTooLong { file: Vec::new() }.errno(), 36);
    assert_eq!(FsError::InodeNotFound { inode: 1 }.errno(), 14);
    assert_eq!(FsError::FhNotFound { ino: 1, fh: 0 }.errno(), 9);
    assert_eq!(FsError::InvalidOffset { ino: 1, offset: -1 }.errno(), 22);
    assert_eq!(FsError::UnknownWhence { whence: 9 }.errno(), 22);
    assert_eq!(FsError::BlockNotFound { inode: 1, block: 0 }.errno(), 22);
    assert_eq!(FsError::DirNotEmpty { dir: Vec::new() }.errno(), 39);
    assert_eq!(FsError::UnknownFileType.errno(), 22);
    assert_eq!(FsError::KeyError(String::new()).errno(), 11);
    assert_eq!(FsError::RetryTimesExcess(3).errno(), 11);
    assert_eq!(FsError::InvalidLock.errno(), 14);
    assert_eq!(FsError::NoSpaceLeft(0).errno(), 28);
    assert_eq!(FsError::Unimplemented.errno(), 38);
    assert!(FsError::KeyError(String::new()).is_retryable());
    assert!(!FsError::InvalidLock.is_retryable());
}

#[test]
fn empty_block_is_zeroed() {
    let b = tifs::block::empty_block(16);
    assert_eq!(b, vec![0u8; 16]);
}
