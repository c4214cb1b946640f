use embedfs::catalog::{Catalog, CatalogEntry};
use embedfs::table::{Vfs, Verdict, SeekWhence};

fn b(s: &str) -> Vec<u8> {
    s.as_bytes().to_vec()
}

fn file(path: &str, data: &str) -> CatalogEntry {
    CatalogEntry { path: b(path), dir: false, data: b(data) }
}

fn dir(path: &str) -> CatalogEntry {
    CatalogEntry { path: b(path), dir: true, data: Vec::new() }
}

fn lines_vfs() -> Vfs {
    let entries = vec![dir(""), file("lines.txt", "one\ntwo\nthree")];
    let cat = Catalog::new(entries).expect("well-formed catalog");
    Vfs::arm(cat, b("/v")).expect("absolute root")
}

fn open_stream(v: &mut Vfs, path: &str) -> usize {
    let cwd = b("/");
    match v.open_stream_path(&b(path), &cwd) {
        Verdict::Virtual(h) => h,
        _ => panic!("expected a virtual stream"),
    }
}

#[test]
fn getc_walks_the_bytes_then_reports_end() {
    let mut v = lines_vfs();
    let h = open_stream(&mut v, "/v/lines.txt");
    assert!(matches!(v.getc_fp(h), Verdict::Virtual(Some(b'o'))));
    assert!(matches!(v.getc_fp(h), Verdict::Virtual(Some(b'n'))));
    assert!(matches!(v.getc_fp(h), Verdict::Virtual(Some(b'e'))));
    match v.seek_fp(h, 0, SeekWhence::FromEnd) {
        Verdict::Virtual(_) => {},
        _ => panic!("seek failed"),
    }
    assert!(matches!(v.getc_fp(h), Verdict::Virtual(None)));
}

#[test]
fn ungetc_restores_the_byte_just_read() {
    let mut v = lines_vfs();
    let h = open_stream(&mut v, "/v/lines.txt");
    assert!(matches!(v.getc_fp(h), Verdict::Virtual(Some(b'o'))));
    assert!(matches!(v.ungetc_fp(h, b'o'), Verdict::Virtual(())));
    assert!(matches!(v.getc_fp(h), Verdict::Virtual(Some(b'o'))));
}

#[test]
fn ungetc_of_wrong_byte_or_at_start_is_violation() {
    let mut v = lines_vfs();
    let h = open_stream(&mut v, "/v/lines.txt");
    assert!(matches!(v.ungetc_fp(h, b'x'), Verdict::Violation));
    assert!(matches!(v.getc_fp(h), Verdict::Virtual(Some(b'o'))));
    assert!(matches!(v.ungetc_fp(h, b'x'), Verdict::Violation));
}

#[test]
fn read_line_stops_after_newline() {
    let mut v = lines_vfs();
    let h = open_stream(&mut v, "/v/lines.txt");
    match v.read_line_fp(h, 100) {
        Verdict::Virtual(Some(line)) => assert_eq!(line, b("one\n")),
        _ => panic!("expected a line"),
    }
    match v.read_line_fp(h, 100) {
        Verdict::Virtual(Some(line)) => assert_eq!(line, b("two\n")),
        _ => panic!("expected a line"),
    }
    match v.read_line_fp(h, 100) {
        Verdict::Virtual(Some(line)) => assert_eq!(line, b("three")),
        _ => panic!("expected the last line"),
    }
    assert!(matches!(v.read_line_fp(h, 100), Verdict::Virtual(None)));
}

#[test]
fn read_line_clamps_to_requested_size() {
    let mut v = lines_vfs();
    let h = open_stream(&mut v, "/v/lines.txt");
    match v.read_line_fp(h, 2) {
        Verdict::Virtual(Some(line)) => assert_eq!(line, b("on")),
        _ => panic!("expected a clamped line"),
    }
}

#[test]
fn read_line_raises_eof_flag_at_content_end() {
    let mut v = lines_vfs();
    let h = open_stream(&mut v, "/v/lines.txt");
    assert!(matches!(v.eof_fp(h), Verdict::Virtual(false)));
    match v.read_line_fp(h, 1000) {
        Verdict::Virtual(Some(_)) => {},
        _ => panic!("read failed"),
    }
    assert!(matches!(v.eof_fp(h), Verdict::Virtual(false)));
    loop {
        match v.read_line_fp(h, 1000) {
            Verdict::Virtual(Some(_)) => {},
            Verdict::Virtual(None) => break,
            _ => panic!("read failed"),
        }
    }
    assert!(matches!(v.eof_fp(h), Verdict::Virtual(true)));
    assert!(matches!(v.clearerr_fp(h), Verdict::Virtual(())));
    assert!(matches!(v.eof_fp(h), Verdict::Virtual(false)));
}

#[test]
fn seek_clears_eof_flag() {
    let mut v = lines_vfs();
    let h = open_stream(&mut v, "/v/lines.txt");
    loop {
        match v.read_line_fp(h, 1000) {
            Verdict::Virtual(Some(_)) => {},
            Verdict::Virtual(None) => break,
            _ => panic!("read failed"),
        }
    }
    assert!(matches!(v.eof_fp(h), Verdict::Virtual(true)));
    match v.seek_fp(h, 0, SeekWhence::FromStart) {
        Verdict::Virtual(pos) => assert_eq!(pos, 0),
        _ => panic!("seek failed"),
    }
    assert!(matches!(v.eof_fp(h), Verdict::Virtual(false)));
}

#[test]
fn fread_returns_whole_items_only() {
    let mut v = lines_vfs();
    // content "one\ntwo\nthree" is 13 bytes
    let h = open_stream(&mut v, "/v/lines.txt");
    match v.fread_fp(h, 2, 3) {
        Verdict::Virtual((bytes, items)) => {
            assert_eq!(items, 3);
            assert_eq!(bytes, b("one\ntw"));
        },
        _ => panic!("fread failed"),
    }
    // 7 bytes left; asking for 4 items of 2 bytes trims to 3 whole items
    match v.fread_fp(h, 2, 4) {
        Verdict::Virtual((bytes, items)) => {
            assert_eq!(items, 3);
            assert_eq!(bytes, b("o\nthre"));
        },
        _ => panic!("fread failed"),
    }
}

#[test]
fn fread_with_zero_size_reads_nothing() {
    let mut v = lines_vfs();
    let h = open_stream(&mut v, "/v/lines.txt");
    match v.fread_fp(h, 0, 5) {
        Verdict::Virtual((bytes, items)) => {
            assert_eq!(items, 0);
            assert!(bytes.is_empty());
        },
        _ => panic!("fread failed"),
    }
    match v.tell_fp(h) {
        Verdict::Virtual(pos) => assert_eq!(pos, 0),
        _ => panic!("tell failed"),
    }
}

#[test]
fn fileno_reports_the_bound_descriptor() {
    let mut v = lines_vfs();
    let h = open_stream(&mut v, "/v/lines.txt");
    match v.fileno_fp(h) {
        Verdict::Virtual(fd) => {
            assert!(v.is_fd(fd));
            match v.read_fd(fd, 3) {
                Verdict::Virtual(bytes) => assert_eq!(bytes, b("one")),
                _ => panic!("read through the descriptor failed"),
            }
        },
        _ => panic!("fileno failed"),
    }
}

#[test]
fn stream_over_directory_refuses_byte_io() {
    let entries = vec![dir(""), dir("sub")];
    let cat = Catalog::new(entries).unwrap();
    let mut v = Vfs::arm(cat, b("/v")).unwrap();
    let h = open_stream(&mut v, "/v/sub");
    assert!(matches!(v.getc_fp(h), Verdict::Violation));
    assert!(matches!(v.read_line_fp(h, 10), Verdict::Violation));
    assert!(matches!(v.fread_fp(h, 1, 1), Verdict::Violation));
    assert!(matches!(v.tell_fp(h), Verdict::Violation));
    assert!(matches!(v.eof_fp(h), Verdict::Violation));
    assert!(matches!(v.fileno_fp(h), Verdict::Violation));
    assert!(matches!(v.seek_fp(h, 0, SeekWhence::FromStart), Verdict::Violation));
}
