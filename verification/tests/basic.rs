use embedfs::catalog::{Catalog, CatalogEntry};
use embedfs::table::{Vfs, Verdict, SeekWhence, whence_of, FD_BASE, FP_BASE};

fn b(s: &str) -> Vec<u8> {
    s.as_bytes().to_vec()
}

fn file(path: &str, data: &str) -> CatalogEntry {
    CatalogEntry { path: b(path), dir: false, data: b(data) }
}

fn dir(path: &str) -> CatalogEntry {
    CatalogEntry { path: b(path), dir: true, data: Vec::new() }
}

fn sample_vfs() -> Vfs {
    let entries = vec![dir(""), file("a.txt", "hi"), dir("sub"), file("sub/b.txt", "bye")];
    let cat = Catalog::new(entries).expect("well-formed catalog");
    Vfs::arm(cat, b("/v")).expect("absolute root")
}

#[test]
fn catalog_rejects_missing_root() {
    assert!(Catalog::new(vec![file("a.txt", "hi")]).is_none());
    assert!(Catalog::new(Vec::new()).is_none());
}

#[test]
fn catalog_rejects_unsorted_entries() {
    assert!(Catalog::new(vec![dir(""), dir("sub"), file("a.txt", "hi")]).is_none());
}

#[test]
fn catalog_rejects_duplicate_paths() {
    assert!(Catalog::new(vec![dir(""), file("a.txt", "x"), file("a.txt", "y")]).is_none());
}

#[test]
fn catalog_rejects_bad_components() {
    assert!(Catalog::new(vec![dir(""), file("a//b", "x")]).is_none());
    assert!(Catalog::new(vec![dir(""), file("./a", "x")]).is_none());
    assert!(Catalog::new(vec![dir(""), file("../a", "x")]).is_none());
}

#[test]
fn catalog_rejects_directory_with_content() {
    assert!(Catalog::new(vec![dir(""), CatalogEntry {
        path: b("sub"),
        dir: true,
        data: b("x"),
    }])
        .is_none());
}

#[test]
fn arm_rejects_relative_root() {
    let cat = Catalog::new(vec![dir("")]).unwrap();
    assert!(Vfs::arm(cat, b("v")).is_none());
}

#[test]
fn open_and_full_read_returns_content() {
    let mut v = sample_vfs();
    let cwd = b("/elsewhere");
    let h = match v.open_path(&b("/v/a.txt"), &cwd, 0, 0) {
        Verdict::Virtual(h) => h,
        _ => panic!("expected a virtual handle"),
    };
    assert_eq!(h, FD_BASE);
    match v.read_fd(h, 2) {
        Verdict::Virtual(bytes) => assert_eq!(bytes, b("hi")),
        _ => panic!("expected data"),
    }
    match v.read_fd(h, 2) {
        Verdict::Virtual(bytes) => assert_eq!(bytes.len(), 0),
        _ => panic!("expected empty read at end of file"),
    }
}

#[test]
fn read_clamps_at_content_end() {
    let mut v = sample_vfs();
    let cwd = b("/");
    let h = match v.open_path(&b("/v/sub/b.txt"), &cwd, 0, 0) {
        Verdict::Virtual(h) => h,
        _ => panic!("expected a virtual handle"),
    };
    match v.read_fd(h, 100) {
        Verdict::Virtual(bytes) => assert_eq!(bytes, b("bye")),
        _ => panic!("expected data"),
    }
}

#[test]
fn open_nonexistent_is_not_virtual() {
    let mut v = sample_vfs();
    let cwd = b("/");
    assert!(matches!(v.open_path(&b("/v/missing"), &cwd, 0, 0), Verdict::NotVirtual));
    assert!(matches!(v.open_path(&b("/etc/passwd"), &cwd, 0, 0), Verdict::NotVirtual));
}

#[test]
fn open_with_write_intent_is_violation() {
    let mut v = sample_vfs();
    let cwd = b("/");
    assert!(matches!(v.open_path(&b("/v/a.txt"), &cwd, 1, 0), Verdict::Violation));
    assert!(matches!(v.open_path(&b("/v/a.txt"), &cwd, 0, 2), Verdict::Violation));
}

#[test]
fn read_on_directory_descriptor_is_violation() {
    let mut v = sample_vfs();
    let cwd = b("/");
    let h = match v.open_path(&b("/v/sub"), &cwd, 0, 0) {
        Verdict::Virtual(h) => h,
        _ => panic!("expected a virtual handle"),
    };
    assert!(matches!(v.read_fd(h, 1), Verdict::Violation));
    assert!(matches!(v.seek_fd(h, 0, SeekWhence::FromStart), Verdict::Violation));
}

#[test]
fn real_handles_pass_through() {
    let mut v = sample_vfs();
    assert!(!v.is_fd(3));
    assert!(matches!(v.read_fd(3, 10), Verdict::NotVirtual));
    assert!(matches!(v.seek_fd(7, 0, SeekWhence::FromStart), Verdict::NotVirtual));
    assert!(matches!(v.getc_fp(0), Verdict::NotVirtual));
}

#[test]
fn seek_set_and_end_land_on_cursor_zero_and_length() {
    let mut v = sample_vfs();
    let cwd = b("/");
    let h = match v.open_stream_path(&b("/v/a.txt"), &cwd) {
        Verdict::Virtual(h) => h,
        _ => panic!("expected a virtual stream"),
    };
    assert_eq!(h, FP_BASE);
    match v.seek_fp(h, 0, SeekWhence::FromStart) {
        Verdict::Virtual(pos) => assert_eq!(pos, 0),
        _ => panic!("seek to start failed"),
    }
    match v.tell_fp(h) {
        Verdict::Virtual(pos) => assert_eq!(pos, 0),
        _ => panic!("tell failed"),
    }
    match v.seek_fp(h, 0, SeekWhence::FromEnd) {
        Verdict::Virtual(pos) => assert_eq!(pos, 2),
        _ => panic!("seek to end failed"),
    }
    match v.tell_fp(h) {
        Verdict::Virtual(pos) => assert_eq!(pos, 2),
        _ => panic!("tell failed"),
    }
}

#[test]
fn read_then_seek_back_restores_cursor() {
    let mut v = sample_vfs();
    let cwd = b("/");
    let h = match v.open_path(&b("/v/sub/b.txt"), &cwd, 0, 0) {
        Verdict::Virtual(h) => h,
        _ => panic!("expected a virtual handle"),
    };
    match v.seek_fd(h, 1, SeekWhence::FromStart) {
        Verdict::Virtual(pos) => assert_eq!(pos, 1),
        _ => panic!("seek failed"),
    }
    match v.read_fd(h, 2) {
        Verdict::Virtual(bytes) => assert_eq!(bytes, b("ye")),
        _ => panic!("read failed"),
    }
    match v.seek_fd(h, -2, SeekWhence::FromCur) {
        Verdict::Virtual(pos) => assert_eq!(pos, 1),
        _ => panic!("seek back failed"),
    }
}

#[test]
fn seek_before_start_or_past_end_is_violation() {
    let mut v = sample_vfs();
    let cwd = b("/");
    let h = match v.open_path(&b("/v/a.txt"), &cwd, 0, 0) {
        Verdict::Virtual(h) => h,
        _ => panic!("expected a virtual handle"),
    };
    assert!(matches!(v.seek_fd(h, -1, SeekWhence::FromStart), Verdict::Violation));
    assert!(matches!(v.seek_fd(h, 3, SeekWhence::FromStart), Verdict::Violation));
    assert!(matches!(v.seek_fd(h, 1, SeekWhence::FromEnd), Verdict::Violation));
}

#[test]
fn whence_codes_map_to_origins() {
    assert!(matches!(whence_of(0), Some(SeekWhence::FromStart)));
    assert!(matches!(whence_of(1), Some(SeekWhence::FromCur)));
    assert!(matches!(whence_of(2), Some(SeekWhence::FromEnd)));
    assert!(whence_of(3).is_none());
    assert!(whence_of(-1).is_none());
}

#[test]
fn handle_spaces_stay_disjoint() {
    let mut v = sample_vfs();
    let cwd = b("/");
    let fd = match v.open_path(&b("/v/a.txt"), &cwd, 0, 0) {
        Verdict::Virtual(h) => h,
        _ => panic!("open failed"),
    };
    let fp = match v.open_stream_path(&b("/v/a.txt"), &cwd) {
        Verdict::Virtual(h) => h,
        _ => panic!("open failed"),
    };
    assert!(v.is_fd(fd) && !v.is_fp(fd));
    assert!(v.is_fp(fp) && !v.is_fd(fp));
}
