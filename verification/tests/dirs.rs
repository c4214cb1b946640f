use embedfs::catalog::{Catalog, CatalogEntry};
use embedfs::shim::AT_FDCWD;
use embedfs::table::{Vfs, Verdict, DEV_VIRTUAL, MODE_DIR, MODE_FILE, BLKSIZE_VIRTUAL};

fn b(s: &str) -> Vec<u8> {
    s.as_bytes().to_vec()
}

fn file(path: &str, data: &str) -> CatalogEntry {
    CatalogEntry { path: b(path), dir: false, data: b(data) }
}

fn dir(path: &str) -> CatalogEntry {
    CatalogEntry { path: b(path), dir: true, data: Vec::new() }
}

fn sample_vfs() -> Vfs {
    let entries = vec![dir(""), file("a.txt", "hi"), dir("sub"), file("sub/b.txt", "bye")];
    let cat = Catalog::new(entries).expect("well-formed catalog");
    Vfs::arm(cat, b("/v")).expect("absolute root")
}

#[test]
fn stat_file_reports_true_size_and_file_mode() {
    let mut v = sample_vfs();
    let cwd = b("/");
    match v.stat_path(&b("/v/a.txt"), &cwd) {
        Verdict::Virtual(a) => {
            assert_eq!(a.size, 2);
            assert_eq!(a.mode, MODE_FILE);
            assert_eq!(a.mode, 0o100555);
            assert_eq!(a.nlink, 1);
            assert_eq!(a.dev, DEV_VIRTUAL);
            assert_eq!(a.blksize, BLKSIZE_VIRTUAL);
            assert_eq!(a.blocks, (2 + 1024) / 512);
            assert_eq!(a.uid, 1);
            assert_eq!(a.gid, 1);
        },
        _ => panic!("expected virtual attributes"),
    }
}

#[test]
fn stat_directory_reports_directory_mode() {
    let mut v = sample_vfs();
    let cwd = b("/");
    match v.stat_path(&b("/v/sub"), &cwd) {
        Verdict::Virtual(a) => {
            assert_eq!(a.mode, MODE_DIR);
            assert_eq!(a.mode, 0o040555);
            assert_eq!(a.nlink, 100);
            assert_eq!(a.size, 1024);
            assert_eq!(a.blocks, 0);
        },
        _ => panic!("expected virtual attributes"),
    }
}

#[test]
fn repeated_stat_returns_the_same_inode() {
    let mut v = sample_vfs();
    let cwd = b("/");
    let first = match v.stat_path(&b("/v/a.txt"), &cwd) {
        Verdict::Virtual(a) => a.ino,
        _ => panic!("stat failed"),
    };
    let other = match v.stat_path(&b("/v/sub"), &cwd) {
        Verdict::Virtual(a) => a.ino,
        _ => panic!("stat failed"),
    };
    let second = match v.stat_path(&b("/v/a.txt"), &cwd) {
        Verdict::Virtual(a) => a.ino,
        _ => panic!("stat failed"),
    };
    assert_eq!(first, second);
    assert_ne!(first, other);
    // inodes are handed out lazily in stat order, from the reserved base
    assert_eq!(first, 0);
    assert_eq!(other, 1);
}

#[test]
fn fstat_matches_stat_by_path() {
    let mut v = sample_vfs();
    let cwd = b("/");
    let by_path = match v.stat_path(&b("/v/a.txt"), &cwd) {
        Verdict::Virtual(a) => a,
        _ => panic!("stat failed"),
    };
    let h = match v.open_path(&b("/v/a.txt"), &cwd, 0, 0) {
        Verdict::Virtual(h) => h,
        _ => panic!("open failed"),
    };
    let by_fd = match v.fstat_fd(h) {
        Verdict::Virtual(a) => a,
        _ => panic!("fstat failed"),
    };
    assert_eq!(by_path.ino, by_fd.ino);
    assert_eq!(by_path.size, by_fd.size);
    assert_eq!(by_path.mode, by_fd.mode);
}

#[test]
fn stat_of_real_path_is_not_virtual() {
    let mut v = sample_vfs();
    let cwd = b("/");
    assert!(matches!(v.stat_path(&b("/etc/passwd"), &cwd), Verdict::NotVirtual));
    assert!(matches!(v.stat_path(&b("/v/missing"), &cwd), Verdict::NotVirtual));
    assert!(matches!(v.fstat_fd(5), Verdict::NotVirtual));
}

#[test]
fn listing_root_yields_children_in_lexical_order() {
    let mut v = sample_vfs();
    let cwd = b("/");
    let h = match v.open_stream_path(&b("/v"), &cwd) {
        Verdict::Virtual(h) => h,
        _ => panic!("opendir failed"),
    };
    match v.readdir_fp(h) {
        Verdict::Virtual(Some((name, _, pos))) => {
            assert_eq!(name, b("a.txt"));
            assert_eq!(pos, 0);
        },
        _ => panic!("expected the first child"),
    }
    match v.readdir_fp(h) {
        Verdict::Virtual(Some((name, ino, pos))) => {
            assert_eq!(name, b("sub"));
            assert_eq!(pos, 1);
            // the child's inode is the inode stat reports for its path
            let ino_by_stat = match v.stat_path(&b("/v/sub"), &cwd) {
                Verdict::Virtual(a) => a.ino,
                _ => panic!("stat failed"),
            };
            assert_eq!(ino, ino_by_stat);
        },
        _ => panic!("expected the second child"),
    }
    assert!(matches!(v.readdir_fp(h), Verdict::Virtual(None)));
}

#[test]
fn rewound_listing_repeats_the_same_names() {
    let mut v = sample_vfs();
    let cwd = b("/");
    let h = match v.open_stream_path(&b("/v"), &cwd) {
        Verdict::Virtual(h) => h,
        _ => panic!("opendir failed"),
    };
    let mut first_pass = Vec::new();
    loop {
        match v.readdir_fp(h) {
            Verdict::Virtual(Some((name, _, _))) => first_pass.push(name),
            Verdict::Virtual(None) => break,
            _ => panic!("readdir failed"),
        }
    }
    assert!(matches!(v.seekdir_fp(h, 0), Verdict::Virtual(())));
    assert!(matches!(v.telldir_fp(h), Verdict::Virtual(0)));
    let mut second_pass = Vec::new();
    loop {
        match v.readdir_fp(h) {
            Verdict::Virtual(Some((name, _, _))) => second_pass.push(name),
            Verdict::Virtual(None) => break,
            _ => panic!("readdir failed"),
        }
    }
    assert_eq!(first_pass, second_pass);
    assert_eq!(first_pass, vec![b("a.txt"), b("sub")]);
}

#[test]
fn listing_subdirectory_sees_only_its_children() {
    let mut v = sample_vfs();
    let cwd = b("/");
    let h = match v.open_stream_path(&b("/v/sub"), &cwd) {
        Verdict::Virtual(h) => h,
        _ => panic!("opendir failed"),
    };
    match v.readdir_fp(h) {
        Verdict::Virtual(Some((name, _, _))) => assert_eq!(name, b("b.txt")),
        _ => panic!("expected one child"),
    }
    assert!(matches!(v.readdir_fp(h), Verdict::Virtual(None)));
}

#[test]
fn chdir_into_virtual_directory_sets_the_reported_cwd() {
    let mut v = sample_vfs();
    let realcwd = b("/home/user");
    assert!(matches!(v.chdir_path(&b("/v/sub"), &realcwd), Verdict::Virtual(())));
    assert_eq!(v.getcwd_virtual().expect("override set"), b("/v/sub"));
    // relative paths now resolve under the override
    let h = match v.open_path(&b("b.txt"), &realcwd, 0, 0) {
        Verdict::Virtual(h) => h,
        _ => panic!("relative open under override failed"),
    };
    match v.read_fd(h, 3) {
        Verdict::Virtual(bytes) => assert_eq!(bytes, b("bye")),
        _ => panic!("read failed"),
    }
}

#[test]
fn chdir_to_virtual_root_reports_the_root_itself() {
    let mut v = sample_vfs();
    let realcwd = b("/home/user");
    assert!(matches!(v.chdir_path(&b("/v"), &realcwd), Verdict::Virtual(())));
    assert_eq!(v.getcwd_virtual().expect("override set"), b("/v"));
}

#[test]
fn chdir_elsewhere_falls_back_to_the_real_value() {
    let mut v = sample_vfs();
    let realcwd = b("/home/user");
    assert!(matches!(v.chdir_path(&b("/v/sub"), &realcwd), Verdict::Virtual(())));
    assert!(matches!(v.chdir_path(&b("/tmp"), &realcwd), Verdict::NotVirtual));
    assert!(v.getcwd_virtual().is_none());
    assert!(!v.has_cwd());
}

#[test]
fn chdir_to_virtual_file_is_not_virtual() {
    let mut v = sample_vfs();
    let realcwd = b("/home/user");
    assert!(matches!(v.chdir_path(&b("/v/a.txt"), &realcwd), Verdict::NotVirtual));
    assert!(v.getcwd_virtual().is_none());
}

#[test]
fn fchdir_follows_a_directory_descriptor() {
    let mut v = sample_vfs();
    let cwd = b("/");
    let hd = match v.open_path(&b("/v/sub"), &cwd, 0, 0) {
        Verdict::Virtual(h) => h,
        _ => panic!("open failed"),
    };
    assert!(matches!(v.fchdir_fd(hd), Verdict::Virtual(())));
    assert_eq!(v.getcwd_virtual().expect("override set"), b("/v/sub"));
    let hf = match v.open_path(&b("/v/a.txt"), &cwd, 0, 0) {
        Verdict::Virtual(h) => h,
        _ => panic!("open failed"),
    };
    assert!(matches!(v.fchdir_fd(hf), Verdict::Violation));
    assert!(matches!(v.fchdir_fd(9), Verdict::NotVirtual));
    assert!(v.getcwd_virtual().is_none());
}

#[test]
fn classifier_normalizes_traversal_components() {
    let v = sample_vfs();
    let cwd = b("/");
    assert_eq!(v.classify(&b("/v/sub/../a.txt"), &cwd).expect("virtual"), b("a.txt"));
    assert_eq!(v.classify(&b("/v/./sub//b.txt"), &cwd).expect("virtual"), b("sub/b.txt"));
    assert_eq!(v.classify(&b("/v"), &cwd).expect("virtual"), b(""));
    assert_eq!(v.classify(&b("/v/"), &cwd).expect("virtual"), b(""));
}

#[test]
fn classifier_never_leaves_the_root() {
    let v = sample_vfs();
    let cwd = b("/");
    assert!(v.classify(&b("/v/../v/a.txt"), &cwd).is_some());
    assert!(v.classify(&b("/v/../etc/passwd"), &cwd).is_none());
    assert!(v.classify(&b("/etc/passwd"), &cwd).is_none());
    assert!(v.classify(&b("a.txt"), &b("/elsewhere")).is_none());
    assert!(v.classify(&b("a.txt"), &b("/v")).is_some());
}

#[test]
fn access_grants_read_and_execute_only() {
    let v = sample_vfs();
    let cwd = b("/");
    // conventional amode bits: execute 1, write 2, read 4; zero probes existence
    assert!(matches!(v.access_path(&b("/v/a.txt"), &cwd, 0), Verdict::Virtual(())));
    assert!(matches!(v.access_path(&b("/v/a.txt"), &cwd, 4), Verdict::Virtual(())));
    assert!(matches!(v.access_path(&b("/v/a.txt"), &cwd, 5), Verdict::Virtual(())));
    assert!(matches!(v.access_path(&b("/v/a.txt"), &cwd, 2), Verdict::NotVirtual));
    assert!(matches!(v.access_path(&b("/v/a.txt"), &cwd, 6), Verdict::NotVirtual));
    assert!(matches!(v.access_path(&b("/nowhere"), &cwd, 0), Verdict::NotVirtual));
}

#[test]
fn openat_resolves_against_a_virtual_directory_descriptor() {
    let mut v = sample_vfs();
    let cwd = b("/");
    let hd = match v.open_path(&b("/v/sub"), &cwd, 0, 0) {
        Verdict::Virtual(h) => h,
        _ => panic!("open failed"),
    };
    let h = match v.openat_path(hd as i64, &b("b.txt"), &cwd, 0, 0) {
        Verdict::Virtual(h) => h,
        _ => panic!("openat failed"),
    };
    match v.read_fd(h, 3) {
        Verdict::Virtual(bytes) => assert_eq!(bytes, b("bye")),
        _ => panic!("read failed"),
    }
    assert!(matches!(v.openat_path(AT_FDCWD, &b("/v/a.txt"), &cwd, 0, 0), Verdict::Virtual(_)));
    assert!(matches!(v.openat_path(3, &b("b.txt"), &cwd, 0, 0), Verdict::NotVirtual));
}

#[test]
fn create_guard_covers_everything_under_the_root() {
    let v = sample_vfs();
    let cwd = b("/");
    assert!(v.under_root(&b("/v/new_file"), &cwd));
    assert!(v.under_root(&b("/v/sub/deeper/x"), &cwd));
    assert!(!v.under_root(&b("/tmp/x"), &cwd));
    assert!(!v.under_root(&b("/v/../tmp/x"), &cwd));
}

#[test]
fn exists_tracks_the_catalog_exactly() {
    let v = sample_vfs();
    let cwd = b("/");
    assert!(v.exists_path(&b("/v"), &cwd));
    assert!(v.exists_path(&b("/v/a.txt"), &cwd));
    assert!(v.exists_path(&b("/v/sub"), &cwd));
    assert!(v.exists_path(&b("/v/sub/b.txt"), &cwd));
    assert!(!v.exists_path(&b("/v/nope"), &cwd));
    assert!(!v.exists_path(&b("/"), &cwd));
}

#[test]
fn empty_path_is_never_virtual() {
    let mut v = sample_vfs();
    let realcwd = b("/home/user");
    assert!(matches!(v.chdir_path(&b("/v"), &realcwd), Verdict::Virtual(())));
    // even with the override set, the empty path falls through to the
    // real filesystem, which rejects it with its own error
    assert!(v.classify(&b(""), &realcwd).is_none());
    assert!(!v.exists_path(&b(""), &realcwd));
    assert!(!v.under_root(&b(""), &realcwd));
}

#[test]
fn empty_file_reads_as_immediate_end() {
    let entries = vec![
        CatalogEntry { path: b(""), dir: true, data: Vec::new() },
        CatalogEntry { path: b("empty.bin"), dir: false, data: Vec::new() },
    ];
    let cat = Catalog::new(entries).unwrap();
    let mut v = Vfs::arm(cat, b("/v")).unwrap();
    let cwd = b("/");
    let h = match v.open_path(&b("/v/empty.bin"), &cwd, 0, 0) {
        Verdict::Virtual(h) => h,
        _ => panic!("open failed"),
    };
    match v.read_fd(h, 10) {
        Verdict::Virtual(bytes) => assert!(bytes.is_empty()),
        _ => panic!("read failed"),
    }
    match v.stat_path(&b("/v/empty.bin"), &cwd) {
        Verdict::Virtual(a) => assert_eq!(a.size, 0),
        _ => panic!("stat failed"),
    }
}

#[test]
fn atexit_is_a_quiet_no_op() {
    embedfs::shim::atexit();
}
