use tifs::mount::MountOption;

fn to_vec_of(texts: &[&str]) -> Vec<MountOption> {
    let owned: Vec<String> = texts.iter().map(|s| s.to_string()).collect();
    MountOption::to_vec(&owned)
}

#[test]
fn parse_mount_options() {
    assert_eq!(
        MountOption::describe_all(&to_vec_of(&["direct_io", "nodev,exec"])),
        "[DirectIO, NoDev, Exec]"
    );
    assert_eq!(
        MountOption::describe_all(&to_vec_of(&["direct_io="])),
        "[Unknown(\"direct_io=\")]"
    );
    assert_eq!(
        MountOption::describe_all(&to_vec_of(&["direct_io=1"])),
        "[Unknown(\"direct_io=1\")]"
    );
    assert_eq!(
        MountOption::describe_all(&to_vec_of(&["direct_io=1=2"])),
        "[Unknown(\"direct_io=1=2\")]"
    );
    assert_eq!(
        MountOption::describe_all(&to_vec_of(&["undefined"])),
        "[Unknown(\"undefined\")]"
    );
    assert_eq!(
        MountOption::describe_all(&to_vec_of(&["undefined=foo"])),
        "[Unknown(\"undefined=foo\")]"
    );
    assert_eq!(
        MountOption::describe_all(&to_vec_of(&["dev="])),
        "[Unknown(\"dev=\")]"
    );
    assert_eq!(
        MountOption::describe_all(&to_vec_of(&["dev=1"])),
        "[Unknown(\"dev=1\")]"
    );
    assert_eq!(
        MountOption::describe_all(&to_vec_of(&["blksize"])),
        "[Unknown(\"blksize\")]"
    );
    assert_eq!(
        MountOption::describe_all(&to_vec_of(&["blksize="])),
        "[Unknown(\"blksize=\")]"
    );
    assert_eq!(
        MountOption::describe_all(&to_vec_of(&["blksize=32"])),
        "[BlkSize(32)]"
    );
    assert_eq!(
        MountOption::describe_all(&to_vec_of(&["tls"])),
        "[Unknown(\"tls\")]"
    );
    assert_eq!(MountOption::describe_all(&to_vec_of(&["tls="])), "[Tls(\"\")]");
    assert_eq!(
        MountOption::describe_all(&to_vec_of(&["tls=xx"])),
        "[Tls(\"xx\")]"
    );
    assert_eq!(
        MountOption::describe_all(&to_vec_of(&["tls=/root"])),
        "[Tls(\"/root\")]"
    );
    assert_eq!(
        MountOption::describe_all(&to_vec_of(&["direct_io", "nodev,blksize=32"])),
        "[DirectIO, NoDev, BlkSize(32)]"
    );
}

#[test]
fn format_mount_options() {
    assert_eq!(MountOption::NoDev.render(), "nodev");
    assert_eq!(MountOption::DirectIO.render(), "direct_io");
    assert_eq!(MountOption::BlkSize("123".to_owned()).render(), "blksize=123");
    assert_eq!(MountOption::BlkSize("1MiB".to_owned()).render(), "blksize=1MiB");
}

#[test]
fn construct_reads_options() {
    let fs = tifs::tikv_fs::TiFs::construct(
        Vec::new(),
        &to_vec_of(&["direct_io", "blksize=4096", "maxsize=1MiB"]),
    );
    assert!(fs.direct_io);
    assert_eq!(fs.block_size, 4096);
    assert_eq!(fs.max_size, Some(1 << 20));

    // a size text with a binary suffix goes through the size grammar
    let fs2 = tifs::tikv_fs::TiFs::construct(Vec::new(), &to_vec_of(&["blksize=8KiB"]));
    assert_eq!(fs2.block_size, 8192);

    // no option: the default block size
    let fs3 = tifs::tikv_fs::TiFs::construct(Vec::new(), &to_vec_of(&[]));
    assert_eq!(fs3.block_size, 65536);
    assert_eq!(fs3.max_size, None);
    assert!(!fs3.direct_io);
}

#[test]
fn default_tls_path() {
    assert_eq!(tifs::mount::default_tls_config_path(), "~/.tifs/tls.toml");
}
