use tifs::error::FsError;
use tifs::inode::{TimeSpec, F_RDLCK, F_UNLCK, F_WRLCK};
use tifs::key::ROOT_INODE;
use tifs::mode::{make_mode, FileType};
use tifs::store::Store;
use tifs::tikv_fs::TiFs;
use tifs::transaction::Txn;

fn t(sec: u64) -> TimeSpec {
    TimeSpec { sec, nsec: 0 }
}

fn mount(block_size: u64, max_size: Option<u64>) -> (TiFs, Txn) {
    let fs = TiFs {
        pd_endpoints: Vec::new(),
        direct_io: false,
        block_size,
        max_size,
    };
    let txn = Txn::begin_optimistic(Store::new(), block_size, max_size, 256);
    (fs, txn)
}

fn mounted(block_size: u64) -> (TiFs, Txn) {
    let (fs, mut txn) = mount(block_size, None);
    fs.init(&mut txn, 0, 0, t(1)).unwrap();
    (fs, txn)
}

fn name(s: &str) -> Vec<u8> {
    s.as_bytes().to_vec()
}

fn reg_mode() -> u32 {
    make_mode(FileType::RegularFile, 0o644)
}

#[test]
fn fresh_mount_write_read() {
    // mkdir("/a"), mknod("/a/f"), write "hello", read it back, size is 5
    let (fs, mut txn) = mounted(4096);
    let a = fs
        .mkdir(&mut txn, ROOT_INODE, name("a"), 0o755, 0, 0, t(2))
        .unwrap()
        .stat
        .ino;
    let f = fs
        .mknod(&mut txn, a, name("f"), reg_mode(), 0, 0, 0, t(3))
        .unwrap()
        .stat
        .ino;
    let fh = fs.open(&mut txn, f, 0).unwrap().fh;
    let w = fs
        .write(&mut txn, f, fh, 0, b"hello".to_vec(), t(4))
        .unwrap();
    assert_eq!(w.size, 5);
    let d = fs.read(&mut txn, f, fh, 0, 5, t(5)).unwrap();
    assert_eq!(d.data, b"hello".to_vec());
    let attr = fs.getattr(&txn, f, t(6)).unwrap();
    assert_eq!(attr.attr.size, 5);
}

#[test]
fn write_across_block_boundary() {
    // with block_size 4096, a write at 4094 crosses into block 1
    let (fs, mut txn) = mounted(4096);
    let f = fs
        .mknod(&mut txn, ROOT_INODE, name("f"), reg_mode(), 0, 0, 0, t(2))
        .unwrap()
        .stat
        .ino;
    let fh = fs.open(&mut txn, f, 0).unwrap().fh;
    fs.write(&mut txn, f, fh, 4094, b"ABCDE".to_vec(), t(3))
        .unwrap();
    // a read reaching past the end clamps at the file size
    let d = fs.read(&mut txn, f, fh, 4090, 10, t(4)).unwrap();
    assert_eq!(d.data, b"\0\0\0\0ABCDE".to_vec());
    let attr = fs.getattr(&txn, f, t(5)).unwrap();
    assert_eq!(attr.attr.size, 4099);
    assert_eq!(attr.attr.blocks, 2);
}

#[test]
fn inline_promotion() {
    // 200 bytes stay inline under a 256-byte threshold; a later write at
    // 4100 promotes the file to block form with zeros in between
    let (fs, mut txn) = mounted(4096);
    let f = fs
        .mknod(&mut txn, ROOT_INODE, name("f"), reg_mode(), 0, 0, 0, t(2))
        .unwrap()
        .stat
        .ino;
    let fh = fs.open(&mut txn, f, 0).unwrap().fh;
    let payload = vec![7u8; 200];
    fs.write(&mut txn, f, fh, 0, payload.clone(), t(3)).unwrap();
    assert!(txn.kv.inodes.get(f).unwrap().inline_data.is_some());
    assert_eq!(fs.getattr(&txn, f, t(4)).unwrap().attr.size, 200);

    fs.write(&mut txn, f, fh, 4100, vec![9u8], t(5)).unwrap();
    assert!(txn.kv.inodes.get(f).unwrap().inline_data.is_none());
    let attr = fs.getattr(&txn, f, t(6)).unwrap();
    assert_eq!(attr.attr.size, 4101);

    let head = fs.read(&mut txn, f, fh, 0, 200, t(7)).unwrap();
    assert_eq!(head.data, payload);
    let gap = fs.read(&mut txn, f, fh, 200, 16, t(8)).unwrap();
    assert_eq!(gap.data, vec![0u8; 16]);
    let tail = fs.read(&mut txn, f, fh, 4098, 3, t(9)).unwrap();
    assert_eq!(tail.data, vec![0u8, 0u8, 9u8]);
}

#[test]
fn hard_link_then_unlink() {
    // link f as g, drop f: g keeps the data with one link left
    let (fs, mut txn) = mounted(4096);
    let a = fs
        .mkdir(&mut txn, ROOT_INODE, name("a"), 0o755, 0, 0, t(2))
        .unwrap()
        .stat
        .ino;
    let f = fs
        .mknod(&mut txn, a, name("f"), reg_mode(), 0, 0, 0, t(3))
        .unwrap()
        .stat
        .ino;
    let fh = fs.open(&mut txn, f, 0).unwrap().fh;
    fs.write(&mut txn, f, fh, 0, b"data".to_vec(), t(4)).unwrap();
    fs.release(&mut txn, f, fh).unwrap();

    let g = fs.link(&mut txn, f, a, &name("g"), t(5)).unwrap();
    assert_eq!(g.stat.ino, f);
    assert_eq!(g.stat.nlink, 2);
    fs.unlink(&mut txn, a, &name("f"), t(6)).unwrap();

    let looked = fs.lookup(&txn, a, &name("g"), t(7)).unwrap();
    assert_eq!(looked.stat.ino, f);
    assert_eq!(looked.stat.nlink, 1);
    let fh2 = fs.open(&mut txn, f, 0).unwrap().fh;
    let d = fs.read(&mut txn, f, fh2, 0, 4, t(8)).unwrap();
    assert_eq!(d.data, b"data".to_vec());
}

#[test]
fn unlink_with_open_handle() {
    // writes through an open handle survive the unlink; the inode goes
    // away only at the last close
    let (fs, mut txn) = mounted(4096);
    let a = fs
        .mkdir(&mut txn, ROOT_INODE, name("a"), 0o755, 0, 0, t(2))
        .unwrap()
        .stat
        .ino;
    let f = fs
        .mknod(&mut txn, a, name("f"), reg_mode(), 0, 0, 0, t(3))
        .unwrap()
        .stat
        .ino;
    let fh = fs.open(&mut txn, f, 0).unwrap().fh;
    fs.unlink(&mut txn, a, &name("f"), t(4)).unwrap();

    // the handle still reads and writes
    fs.write(&mut txn, f, fh, 0, b"still here".to_vec(), t(5))
        .unwrap();
    let d = fs.read(&mut txn, f, fh, 0, 10, t(6)).unwrap();
    assert_eq!(d.data, b"still here".to_vec());

    fs.release(&mut txn, f, fh).unwrap();
    match fs.lookup(&txn, a, &name("f"), t(7)) {
        Err(FsError::FileNotFound { .. }) => {}
        other => panic!("lookup after unlink: {:?}", other),
    }
    // the inode record is gone
    assert!(txn.kv.inodes.get(f).is_none());
}

#[test]
fn exactly_one_create_wins() {
    // a second create of the same name is refused inside the same
    // transactional view; racing creators are serialized by the store
    let (fs, mut txn) = mounted(4096);
    fs.mknod(&mut txn, ROOT_INODE, name("f"), reg_mode(), 0, 0, 0, t(2))
        .unwrap();
    match fs.mknod(&mut txn, ROOT_INODE, name("f"), reg_mode(), 0, 0, 0, t(3)) {
        Err(FsError::FileExist { .. }) => {}
        other => panic!("second create: {:?}", other),
    }
}

#[test]
fn rename_across_parents() {
    let (fs, mut txn) = mounted(4096);
    let a = fs
        .mkdir(&mut txn, ROOT_INODE, name("a"), 0o755, 0, 0, t(2))
        .unwrap()
        .stat
        .ino;
    let b = fs
        .mkdir(&mut txn, ROOT_INODE, name("b"), 0o755, 0, 0, t(3))
        .unwrap()
        .stat
        .ino;
    let dir = fs.mkdir(&mut txn, a, name("dir"), 0o755, 0, 0, t(4)).unwrap().stat.ino;
    let child = fs
        .mknod(&mut txn, dir, name("child"), reg_mode(), 0, 0, 0, t(5))
        .unwrap()
        .stat
        .ino;

    fs.rename(&mut txn, a, &name("dir"), b, &name("dir2"), t(6)).unwrap();

    match fs.lookup(&txn, a, &name("dir"), t(7)) {
        Err(FsError::FileNotFound { .. }) => {}
        other => panic!("old name still there: {:?}", other),
    }
    let moved = fs.lookup(&txn, b, &name("dir2"), t(8)).unwrap();
    assert_eq!(moved.stat.ino, dir);
    let still = fs.lookup(&txn, dir, &name("child"), t(9)).unwrap();
    assert_eq!(still.stat.ino, child);
}

#[test]
fn block_size_conflict_on_remount() {
    // a second mount with a different block size is refused
    let (fs_a, mut txn_a) = mount(4096, None);
    fs_a.init(&mut txn_a, 0, 0, t(1)).unwrap();
    let store = txn_a.commit();

    let fs_b = TiFs {
        pd_endpoints: Vec::new(),
        direct_io: false,
        block_size: 8192,
        max_size: None,
    };
    let mut txn_b = Txn::begin_optimistic(store, 8192, None, 256);
    match fs_b.init(&mut txn_b, 0, 0, t(2)) {
        Err(FsError::BlockSizeConflict { origin, new }) => {
            assert_eq!(origin, 4096);
            assert_eq!(new, 8192);
        }
        other => panic!("init with other block size: {:?}", other),
    }
}

#[test]
fn advisory_locks() {
    // a write lock excludes a second owner until released
    let (fs, mut txn) = mounted(4096);
    let f = fs
        .mknod(&mut txn, ROOT_INODE, name("f"), reg_mode(), 0, 0, 0, t(2))
        .unwrap()
        .stat
        .ino;

    assert_eq!(fs.getlk(&txn, f).unwrap().typ, F_UNLCK);
    assert_eq!(fs.setlk(&mut txn, f, 1, F_WRLCK, false, t(3)).unwrap(), true);
    assert_eq!(fs.getlk(&txn, f).unwrap().typ, F_WRLCK);

    match fs.setlk(&mut txn, f, 2, F_WRLCK, false, t(4)) {
        Err(FsError::InvalidLock) => {}
        other => panic!("conflicting lock: {:?}", other),
    }
    // with sleep the request reports "not yet" instead of failing
    assert_eq!(fs.setlk(&mut txn, f, 2, F_WRLCK, true, t(5)).unwrap(), false);
    assert_eq!(fs.getlk(&txn, f).unwrap().typ, F_WRLCK);

    // release, then the sleeper's retry acquires
    assert_eq!(fs.setlk(&mut txn, f, 1, F_UNLCK, false, t(6)).unwrap(), true);
    assert_eq!(fs.getlk(&txn, f).unwrap().typ, F_UNLCK);
    let mut acquired = false;
    for _ in 0..3 {
        if fs.setlk(&mut txn, f, 2, F_WRLCK, true, t(7)).unwrap() {
            acquired = true;
            break;
        }
    }
    assert!(acquired);
    assert_eq!(fs.getlk(&txn, f).unwrap().typ, F_WRLCK);
}

#[test]
fn read_locks_share_and_upgrade() {
    let (fs, mut txn) = mounted(4096);
    let f = fs
        .mknod(&mut txn, ROOT_INODE, name("f"), reg_mode(), 0, 0, 0, t(2))
        .unwrap()
        .stat
        .ino;
    assert_eq!(fs.setlk(&mut txn, f, 1, F_RDLCK, false, t(3)).unwrap(), true);
    assert_eq!(fs.setlk(&mut txn, f, 2, F_RDLCK, false, t(4)).unwrap(), true);
    assert_eq!(fs.getlk(&txn, f).unwrap().typ, F_RDLCK);
    // two readers: no upgrade without sleeping
    match fs.setlk(&mut txn, f, 1, F_WRLCK, false, t(5)) {
        Err(FsError::InvalidLock) => {}
        other => panic!("upgrade with two readers: {:?}", other),
    }
    // sole reader upgrades in place
    assert_eq!(fs.setlk(&mut txn, f, 2, F_UNLCK, false, t(6)).unwrap(), true);
    assert_eq!(fs.setlk(&mut txn, f, 1, F_WRLCK, false, t(7)).unwrap(), true);
    assert_eq!(fs.getlk(&txn, f).unwrap().typ, F_WRLCK);
    // directories cannot be locked
    match fs.setlk(&mut txn, ROOT_INODE, 1, F_WRLCK, false, t(8)) {
        Err(FsError::InvalidLock) => {}
        other => panic!("lock on directory: {:?}", other),
    }
}

#[test]
fn mkdir_rmdir_restores_parent() {
    let (fs, mut txn) = mounted(4096);
    let before = fs.readdir(&txn, ROOT_INODE, 0).unwrap();
    fs.mkdir(&mut txn, ROOT_INODE, name("d"), 0o755, 0, 0, t(2)).unwrap();
    let during = fs.readdir(&txn, ROOT_INODE, 0).unwrap();
    assert_eq!(during.items.len(), before.items.len() + 1);
    assert_eq!(during.items.last().unwrap().name, name("d"));
    fs.rmdir(&mut txn, ROOT_INODE, &name("d"), t(3)).unwrap();
    let after = fs.readdir(&txn, ROOT_INODE, 0).unwrap();
    assert_eq!(after.items, before.items);
}

#[test]
fn rmdir_refuses_non_empty() {
    let (fs, mut txn) = mounted(4096);
    let d = fs.mkdir(&mut txn, ROOT_INODE, name("d"), 0o755, 0, 0, t(2)).unwrap().stat.ino;
    fs.mknod(&mut txn, d, name("f"), reg_mode(), 0, 0, 0, t(3)).unwrap();
    match fs.rmdir(&mut txn, ROOT_INODE, &name("d"), t(4)) {
        Err(FsError::DirNotEmpty { .. }) => {}
        other => panic!("rmdir of a filled directory: {:?}", other),
    }
}

#[test]
fn symlink_round_trip() {
    let (fs, mut txn) = mounted(4096);
    let e = fs
        .symlink(&mut txn, 0, 0, ROOT_INODE, name("l"), b"/target/path".to_vec(), t(2))
        .unwrap();
    assert_eq!(e.stat.kind, FileType::Symlink);
    assert_eq!(e.stat.size, 12);
    let d = fs.readlink(&mut txn, e.stat.ino, t(3)).unwrap();
    assert_eq!(d.data, b"/target/path".to_vec());
}

#[test]
fn lseek_moves_the_cursor() {
    let (fs, mut txn) = mounted(4096);
    let f = fs
        .mknod(&mut txn, ROOT_INODE, name("f"), reg_mode(), 0, 0, 0, t(2))
        .unwrap()
        .stat
        .ino;
    let fh = fs.open(&mut txn, f, 0).unwrap().fh;
    fs.write(&mut txn, f, fh, 0, b"0123456789".to_vec(), t(3)).unwrap();

    assert_eq!(fs.lseek(&mut txn, f, fh, 4, 0).unwrap().offset, 4);
    // reads now resolve relative to the cursor
    let d = fs.read(&mut txn, f, fh, 0, 3, t(4)).unwrap();
    assert_eq!(d.data, b"456".to_vec());
    // relative and end-relative seeks
    assert_eq!(fs.lseek(&mut txn, f, fh, 2, 1).unwrap().offset, 6);
    assert_eq!(fs.lseek(&mut txn, f, fh, -1, 2).unwrap().offset, 9);
    match fs.lseek(&mut txn, f, fh, 0, 77) {
        Err(FsError::UnknownWhence { whence }) => assert_eq!(whence, 77),
        other => panic!("bad whence: {:?}", other),
    }
    match fs.lseek(&mut txn, f, fh, -100, 0) {
        Err(FsError::InvalidOffset { .. }) => {}
        other => panic!("negative seek: {:?}", other),
    }
}

#[test]
fn statfs_and_no_space_left() {
    let (fs, mut txn) = mount(4096, Some(8192));
    fs.init(&mut txn, 0, 0, t(1)).unwrap();
    let f = fs
        .mknod(&mut txn, ROOT_INODE, name("f"), reg_mode(), 0, 0, 0, t(2))
        .unwrap()
        .stat
        .ino;
    let fh = fs.open(&mut txn, f, 0).unwrap().fh;
    fs.write(&mut txn, f, fh, 0, vec![1u8; 8192], t(3)).unwrap();

    let stat = fs.statfs(&mut txn).unwrap();
    assert_eq!(stat.bsize, 4096);
    assert_eq!(stat.blocks, 2);
    assert_eq!(stat.bavail, 0);
    assert_eq!(stat.namelen, 256);

    // the cached figures now refuse further writes
    match fs.write(&mut txn, f, fh, 8192, b"x".to_vec(), t(4)) {
        Err(FsError::NoSpaceLeft(_)) => {}
        other => panic!("write with no space: {:?}", other),
    }
}

#[test]
fn name_too_long_and_bad_mode() {
    let (fs, mut txn) = mounted(4096);
    let long = vec![b'x'; 257];
    match fs.mknod(&mut txn, ROOT_INODE, long, reg_mode(), 0, 0, 0, t(2)) {
        Err(FsError::NameTooLong { .. }) => {}
        other => panic!("long name: {:?}", other),
    }
    match fs.mknod(&mut txn, ROOT_INODE, name("f"), 0, 0, 0, 0, t(3)) {
        Err(FsError::UnknownFileType) => {}
        other => panic!("kindless mode: {:?}", other),
    }
    match fs.lookup(&txn, ROOT_INODE, &name("missing"), t(4)) {
        Err(FsError::FileNotFound { .. }) => {}
        other => panic!("missing name: {:?}", other),
    }
    match fs.getattr(&txn, 999, t(5)) {
        Err(FsError::InodeNotFound { inode: 999 }) => {}
        other => panic!("missing inode: {:?}", other),
    }
    let fh_err = fs.read(&mut txn, ROOT_INODE, 42, 0, 1, t(6));
    match fh_err {
        Err(FsError::FhNotFound { .. }) => {}
        other => panic!("missing handle: {:?}", other),
    }
}

#[test]
fn fallocate_grows_sparsely() {
    let (fs, mut txn) = mounted(4096);
    let f = fs
        .mknod(&mut txn, ROOT_INODE, name("f"), reg_mode(), 0, 0, 0, t(2))
        .unwrap()
        .stat
        .ino;
    fs.fallocate(&mut txn, f, 100, 100, t(3)).unwrap();
    let attr = fs.getattr(&txn, f, t(4)).unwrap();
    assert_eq!(attr.attr.size, 200);
    // shrinking targets change nothing
    fs.fallocate(&mut txn, f, 0, 50, t(5)).unwrap();
    assert_eq!(fs.getattr(&txn, f, t(6)).unwrap().attr.size, 200);
    // the allocated range reads back as zeros
    let fh = fs.open(&mut txn, f, 0).unwrap().fh;
    let d = fs.read(&mut txn, f, fh, 0, 200, t(7)).unwrap();
    assert_eq!(d.data, vec![0u8; 200]);
}

#[test]
fn setattr_merges_fields() {
    let (fs, mut txn) = mounted(4096);
    let f = fs
        .mknod(&mut txn, ROOT_INODE, name("f"), reg_mode(), 5, 7, 0, t(2))
        .unwrap()
        .stat
        .ino;
    let a = fs
        .setattr(
            &mut txn,
            f,
            Some(0o600),
            Some(11),
            None,
            Some(4096),
            None,
            None,
            None,
            None,
            Some(3),
            t(9),
        )
        .unwrap();
    assert_eq!(a.attr.perm, 0o600);
    assert_eq!(a.attr.uid, 11);
    assert_eq!(a.attr.gid, 5); // untouched
    assert_eq!(a.attr.size, 4096);
    assert_eq!(a.attr.blocks, 1);
    assert_eq!(a.attr.flags, 3);
    assert_eq!(a.attr.mtime, t(9));
}

#[test]
fn setlkw_reports_not_yet_while_other_owner_holds() {
    let (fs, mut txn) = mounted(4096);
    let f = fs
        .mknod(&mut txn, ROOT_INODE, name("f"), reg_mode(), 0, 0, 0, t(2))
        .unwrap()
        .stat
        .ino;
    assert_eq!(fs.setlk(&mut txn, f, 1, F_WRLCK, false, t(3)).unwrap(), true);
    // a sleeping writer polls: the conflict answers "not yet", no error
    assert_eq!(fs.setlkw(&mut txn, f, 2, F_WRLCK, t(4)).unwrap(), false);
    assert_eq!(fs.setlk(&mut txn, f, 1, F_UNLCK, false, t(5)).unwrap(), true);
    // once the holder is gone the same poll acquires the lock
    assert_eq!(fs.setlkw(&mut txn, f, 2, F_WRLCK, t(6)).unwrap(), true);
}

#[test]
fn clear_data_zeroes_size_and_touches_mtime_ctime() {
    let (fs, mut txn) = mounted(4096);
    let f = fs
        .mknod(&mut txn, ROOT_INODE, name("f"), reg_mode(), 0, 0, 0, t(2))
        .unwrap()
        .stat
        .ino;
    let fh = fs.open(&mut txn, f, 0).unwrap().fh;
    fs.write(&mut txn, f, fh, 0, vec![1u8; 5000], t(3)).unwrap();
    let before = fs.getattr(&txn, f, t(4)).unwrap().attr;
    assert_eq!(before.size, 5000);
    let cleared = txn.clear_data(f, t(9)).unwrap();
    assert_eq!(cleared, 5000);
    let after = fs.getattr(&txn, f, t(10)).unwrap().attr;
    assert_eq!(after.size, 0);
    assert_eq!(after.blocks, 0);
    assert_eq!(after.mtime, t(9));
    assert_eq!(after.ctime, t(9));
    // only a read freshens the access time
    assert_eq!(after.atime, before.atime);
}

#[test]
fn rename_onto_same_name_is_a_no_op() {
    let (fs, mut txn) = mounted(4096);
    let f = fs
        .mknod(&mut txn, ROOT_INODE, name("f"), reg_mode(), 0, 0, 0, t(2))
        .unwrap()
        .stat
        .ino;
    fs.rename(&mut txn, ROOT_INODE, &name("f"), ROOT_INODE, &name("f"), t(3))
        .unwrap();
    assert_eq!(fs.lookup(&txn, ROOT_INODE, &name("f"), t(4)).unwrap().stat.ino, f);
    assert_eq!(fs.getattr(&txn, f, t(5)).unwrap().attr.nlink, 1);
}
