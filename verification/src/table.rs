//! The file state table: open descriptor and stream handles with their
//! cursors, directory iteration positions, lazily assigned stable inode
//! numbers, and the optional virtual current directory, all over one
//! immutable catalog mounted at one absolute root path.

use vstd::prelude::*;
use crate::bytes::{SLASH, views_of};
use crate::catalog::{Catalog, CatalogEntry, children_of, entry_child_of, lemma_children_upto_len};
use crate::paths::name_of;
use crate::paths::{is_abs_path, normal_components, normal_comps_of, clone_bytes};

verus! {

/// First descriptor handle value. Higher than any descriptor a real
/// process is expected to hold, and above the whole stream-handle range.
pub const FD_BASE: usize = 100000;

/// Descriptor handles never exceed `FD_BASE + FD_LIMIT`, which fits a
/// 32-bit signed descriptor.
pub const FD_LIMIT: usize = 1000000000;

/// First stream handle value. Kept clear of the null address.
pub const FP_BASE: usize = 1;

/// Stream handles never reach `FD_BASE`.
pub const FP_LIMIT: usize = 99000;

/// First lazily assigned inode number.
pub const INODE_BASE: u64 = 0;

/// One open descriptor: the catalog path it names for its whole
/// lifetime, and its byte cursor. Slots are never reused.
pub struct OpenFile {
    pub path: Vec<u8>,
    pub cursor: usize,
}

/// One open stream: the descriptor handle it is bound to, its
/// end-of-file flag, and its directory iteration ordinal.
pub struct OpenStream {
    pub fd: usize,
    pub eof: bool,
    pub dirpos: usize,
}

/// The file state table.
pub struct Vfs {
    pub catalog: Catalog,
    pub root: Vec<u8>,
    pub root_comps: Vec<Vec<u8>>,
    pub cwd: Option<Vec<u8>>,
    pub fds: Vec<OpenFile>,
    pub fps: Vec<OpenStream>,
    pub inodes: Vec<Vec<u8>>,
}

impl Vfs {
    /// Whether `h` is a virtual descriptor handle of this table.
    pub open spec fn is_fdh(self, h: usize) -> bool {
        FD_BASE <= h && h - FD_BASE < self.fds@.len()
    }

    /// The descriptor slot behind handle `h`.
    pub open spec fn fdi(self, h: usize) -> int {
        h - FD_BASE
    }

    /// Whether `h` is a virtual stream handle of this table.
    pub open spec fn is_fph(self, h: usize) -> bool {
        FP_BASE <= h && h - FP_BASE < self.fps@.len()
    }

    /// The stream slot behind handle `h`.
    pub open spec fn fpi(self, h: usize) -> int {
        h - FP_BASE
    }

    /// The catalog path a descriptor handle names.
    pub open spec fn fd_path(self, h: usize) -> Seq<u8> {
        self.fds@[self.fdi(h)].path@
    }

    /// The byte cursor of a descriptor handle.
    pub open spec fn fd_cursor(self, h: usize) -> int {
        self.fds@[self.fdi(h)].cursor as int
    }

    /// Whether a descriptor handle names a catalog file.
    pub open spec fn fd_is_file(self, h: usize) -> bool {
        self.catalog.is_file_path(self.fd_path(h))
    }

    /// The content behind a descriptor handle naming a file.
    pub open spec fn fd_content(self, h: usize) -> Seq<u8> {
        self.catalog.content(self.fd_path(h))
    }

    /// The descriptor handle a stream handle is bound to.
    pub open spec fn fp_fd(self, h: usize) -> usize {
        self.fps@[self.fpi(h)].fd
    }

    /// The end-of-file flag of a stream handle.
    pub open spec fn fp_eof(self, h: usize) -> bool {
        self.fps@[self.fpi(h)].eof
    }

    /// The directory iteration ordinal of a stream handle.
    pub open spec fn fp_dirpos(self, h: usize) -> int {
        self.fps@[self.fpi(h)].dirpos as int
    }

    /// A well-formed descriptor slot: it names a catalog entry, a file
    /// cursor stays within the content, a directory cursor stays zero.
    pub open spec fn fd_wf(self, f: OpenFile) -> bool {
        &&& self.catalog.has_path(f.path@)
        &&& self.catalog.is_file_path(f.path@) ==> f.cursor <= self.catalog.content(
            f.path@,
        ).len()
        &&& self.catalog.is_dir_path(f.path@) ==> f.cursor == 0
    }

    pub open spec fn wf(self) -> bool {
        &&& self.catalog.wf()
        &&& is_abs_path(self.root@)
        &&& views_of(self.root_comps@) == normal_components(self.root@)
        &&& match self.cwd {
            Some(c) => self.catalog.is_dir_path(c@),
            None => true,
        }
        &&& self.fds@.len() <= FD_LIMIT
        &&& self.fps@.len() <= FP_LIMIT
        &&& forall|i: int| 0 <= i < self.fds@.len() ==> self.fd_wf(#[trigger] self.fds@[i])
        &&& forall|i: int|
            0 <= i < self.fps@.len() ==> self.is_fdh((#[trigger] self.fps@[i]).fd)
        &&& forall|i: int, j: int|
            0 <= i < j < self.inodes@.len() ==> (#[trigger] self.inodes@[i])@ != (
            #[trigger] self.inodes@[j])@
    }

    /// The two virtual handle spaces never overlap: a value is a
    /// descriptor handle or a stream handle, never both.
    pub proof fn lemma_handle_spaces_disjoint(self, h: usize)
        requires
            self.wf(),
        ensures
            !(self.is_fdh(h) && self.is_fph(h)),
    {
    }

    /// Arms the table over a catalog and an absolute root path; nothing
    /// is open and no override is set. Rejects a root that is not
    /// absolute.
    pub fn arm(catalog: Catalog, root: Vec<u8>) -> (r: Option<Vfs>)
        requires
            catalog.wf(),
        ensures
            match r {
                Some(v) => {
                    &&& v.wf()
                    &&& v.catalog == catalog
                    &&& v.root@ == root@
                    &&& v.cwd is None
                    &&& v.fds@.len() == 0
                    &&& v.fps@.len() == 0
                    &&& v.inodes@.len() == 0
                },
                None => !is_abs_path(root@),
            },
    {
        if !(root.len() > 0 && root[0] == SLASH) {
            return None;
        }
        let rc = normal_comps_of(&root);
        Some(
            Vfs {
                catalog,
                root,
                root_comps: rc,
                cwd: None,
                fds: Vec::new(),
                fps: Vec::new(),
                inodes: Vec::new(),
            },
        )
    }


    /// The catalog slot behind an open descriptor slot. Total: by the
    /// table invariant every open descriptor names a catalog entry.
    pub(crate) fn entry_of_fd(&self, i: usize) -> (ei: usize)
        requires
            self.wf(),
            i < self.fds@.len(),
        ensures
            ei < self.catalog.entries@.len(),
            ei == self.catalog.idx(self.fds@[i as int].path@),
            self.catalog.entries@[ei as int].path@ == self.fds@[i as int].path@,
    {
        match self.catalog.lookup(&self.fds[i].path) {
            Some(e) => e,
            None => {
                proof {
                    assert(false);
                }
                0
            },
        }
    }

    /// Decides whether `h` is a virtual descriptor handle.
    pub fn is_fd(&self, h: usize) -> (r: bool)
        ensures
            r == self.is_fdh(h),
    {
        h >= FD_BASE && h - FD_BASE < self.fds.len()
    }

    /// Decides whether `h` is a virtual stream handle.
    pub fn is_fp(&self, h: usize) -> (r: bool)
        ensures
            r == self.is_fph(h),
    {
        h >= FP_BASE && h - FP_BASE < self.fps.len()
    }

    /// Whether a virtual current directory is set.
    pub fn has_cwd(&self) -> (r: bool)
        ensures
            r == (self.cwd is Some),
    {
        self.cwd.is_some()
    }

    /// Drops the virtual current directory, if any.
    pub fn unset_cwd(&mut self)
        requires
            old(self).wf(),
        ensures
            final(self).wf(),
            final(self).cwd is None,
            final(self).catalog == old(self).catalog,
            final(self).root == old(self).root,
            final(self).root_comps == old(self).root_comps,
            final(self).fds == old(self).fds,
            final(self).fps == old(self).fps,
            final(self).inodes == old(self).inodes,
    {
        self.cwd = None;
    }

    /// The root-prefixed absolute path of the virtual current directory,
    /// when one is set.
    pub fn getcwd_virtual(&self) -> (r: Option<Vec<u8>>)
        requires
            self.wf(),
        ensures
            match r {
                Some(b) => self.cwd matches Some(c) && b@ == (if c@.len() == 0 {
                    self.root@
                } else {
                    self.root@ + seq![SLASH] + c@
                }),
                None => self.cwd is None,
            },
    {
        match &self.cwd {
            None => None,
            Some(c) => {
                if c.len() == 0 {
                    Some(clone_bytes(&self.root))
                } else {
                    let mut out = clone_bytes(&self.root);
                    out.push(SLASH);
                    let mut i: usize = 0;
                    while i < c.len()
                        invariant
                            i <= c@.len(),
                            self.cwd matches Some(cc) && cc@ == c@,
                            out@ == self.root@ + seq![SLASH] + c@.take(i as int),
                        decreases c@.len() - i,
                    {
                        proof {
                            assert(self.root@ + seq![SLASH] + c@.take(i as int + 1) =~= (
                            self.root@ + seq![SLASH] + c@.take(i as int)).push(c@[i as int]));
                        }
                        out.push(c[i]);
                        i += 1;
                    }
                    proof {
                        assert(c@.take(i as int) =~= c@);
                    }
                    Some(out)
                }
            },
        }
    }
}

/// The verdict of an intercepted call against the table: a synthesized
/// result, a target that is not virtual and must be delegated to the
/// real implementation, or a fatal usage violation that the caller must
/// answer by aborting the process.
pub enum Verdict<T> {
    Virtual(T),
    NotVirtual,
    Violation,
}

/// The three seek origins.
pub enum SeekWhence {
    FromStart,
    FromCur,
    FromEnd,
}

/// The absolute cursor a seek asks for.
pub open spec fn seek_target(len: int, cur: int, whence: SeekWhence, off: int) -> int {
    match whence {
        SeekWhence::FromStart => off,
        SeekWhence::FromCur => cur + off,
        SeekWhence::FromEnd => len + off,
    }
}

/// How many bytes a plain read takes: the whole request, clamped at the
/// end of the content.
pub open spec fn read_take(len: int, cur: int, count: int) -> int {
    if count <= len - cur {
        count
    } else {
        len - cur
    }
}

/// Maps the conventional whence codes, `0` for an absolute offset, `1`
/// for cursor-relative and `2` for end-relative, onto [`SeekWhence`].
pub fn whence_of(w: i32) -> (r: Option<SeekWhence>)
    ensures
        w == 0 ==> r == Some(SeekWhence::FromStart),
        w == 1 ==> r == Some(SeekWhence::FromCur),
        w == 2 ==> r == Some(SeekWhence::FromEnd),
        !(0 <= w <= 2) ==> r is None,
{
    if w == 0 {
        Some(SeekWhence::FromStart)
    } else if w == 1 {
        Some(SeekWhence::FromCur)
    } else if w == 2 {
        Some(SeekWhence::FromEnd)
    } else {
        None
    }
}

/// `post.fds` is `pre.fds` with only slot `i`'s cursor moved to `c`.
pub open spec fn fd_cursor_moved(pre: Vfs, post: Vfs, i: int, c: int) -> bool {
    &&& post.fds@.len() == pre.fds@.len()
    &&& forall|j: int| 0 <= j < pre.fds@.len() && j != i ==> post.fds@[j] == #[trigger] pre.fds@[j]
    &&& post.fds@[i].path@ == pre.fds@[i].path@
    &&& post.fds@[i].cursor == c
}

/// `post.fps` is `pre.fps` with only slot `i`'s end-of-file flag set to
/// `e`.
pub open spec fn fp_eof_set(pre: Vfs, post: Vfs, i: int, e: bool) -> bool {
    &&& post.fps@.len() == pre.fps@.len()
    &&& forall|j: int| 0 <= j < pre.fps@.len() && j != i ==> post.fps@[j] == #[trigger] pre.fps@[j]
    &&& post.fps@[i].fd == pre.fps@[i].fd
    &&& post.fps@[i].dirpos == pre.fps@[i].dirpos
    &&& post.fps@[i].eof == e
}

/// `post.fps` is `pre.fps` with only slot `i`'s iteration ordinal set to
/// `d`.
pub open spec fn fp_dirpos_set(pre: Vfs, post: Vfs, i: int, d: int) -> bool {
    &&& post.fps@.len() == pre.fps@.len()
    &&& forall|j: int| 0 <= j < pre.fps@.len() && j != i ==> post.fps@[j] == #[trigger] pre.fps@[j]
    &&& post.fps@[i].fd == pre.fps@[i].fd
    &&& post.fps@[i].eof == pre.fps@[i].eof
    &&& post.fps@[i].dirpos == d
}

/// The catalog, root and inode table of `post` are those of `pre`.
pub open spec fn core_unchanged(pre: Vfs, post: Vfs) -> bool {
    &&& post.catalog == pre.catalog
    &&& post.root == pre.root
    &&& post.root_comps == pre.root_comps
}

impl Vfs {
    /// Binds a fresh descriptor handle to a confirmed catalog path with
    /// its cursor at zero. Exhaustion of the reserved handle range is a
    /// usage violation.
    pub fn open_rel(&mut self, rel: &Vec<u8>) -> (r: Verdict<usize>)
        requires
            old(self).wf(),
            old(self).catalog.has_path(rel@),
        ensures
            final(self).wf(),
            core_unchanged(*old(self), *final(self)),
            final(self).cwd == old(self).cwd,
            final(self).fps == old(self).fps,
            final(self).inodes == old(self).inodes,
            old(self).fds@.len() >= FD_LIMIT ==> r is Violation && final(self).fds == old(self).fds,
            old(self).fds@.len() < FD_LIMIT ==> (r matches Verdict::Virtual(h) && {
                &&& h == FD_BASE + old(self).fds@.len()
                &&& final(self).fds@.len() == old(self).fds@.len() + 1
                &&& final(self).fds@.drop_last() == old(self).fds@
                &&& final(self).fds@.last().path@ == rel@
                &&& final(self).fds@.last().cursor == 0
                &&& final(self).is_fdh(h)
            }),
    {
        if self.fds.len() >= FD_LIMIT {
            return Verdict::Violation;
        }
        let n = self.fds.len();
        let p = clone_bytes(rel);
        self.fds.push(OpenFile { path: p, cursor: 0 });
        proof {
            assert(self.fds@.drop_last() =~= old(self).fds@);
            assert(forall|i: int|
                0 <= i < old(self).fds@.len() ==> #[trigger] self.fds@[i] == old(self).fds@[i]);
            assert(self.fd_wf(self.fds@.last()));
        }
        Verdict::Virtual(FD_BASE + n)
    }

    /// Opens an underlying descriptor for a confirmed catalog path, then
    /// binds a fresh stream handle to it.
    pub fn open_stream_rel(&mut self, rel: &Vec<u8>) -> (r: Verdict<usize>)
        requires
            old(self).wf(),
            old(self).catalog.has_path(rel@),
        ensures
            final(self).wf(),
            core_unchanged(*old(self), *final(self)),
            final(self).cwd == old(self).cwd,
            final(self).inodes == old(self).inodes,
            old(self).fps@.len() >= FP_LIMIT || old(self).fds@.len() >= FD_LIMIT ==> r
                is Violation && final(self).fds == old(self).fds && final(self).fps == old(self).fps,
            old(self).fps@.len() < FP_LIMIT && old(self).fds@.len() < FD_LIMIT ==> (r
                matches Verdict::Virtual(h) && {
                &&& h == FP_BASE + old(self).fps@.len()
                &&& final(self).fds@.len() == old(self).fds@.len() + 1
                &&& final(self).fds@.drop_last() == old(self).fds@
                &&& final(self).fds@.last().path@ == rel@
                &&& final(self).fds@.last().cursor == 0
                &&& final(self).fps@.len() == old(self).fps@.len() + 1
                &&& final(self).fps@.drop_last() == old(self).fps@
                &&& final(self).fps@.last().fd == FD_BASE + old(self).fds@.len()
                &&& final(self).fps@.last().eof == false
                &&& final(self).fps@.last().dirpos == 0
                &&& final(self).is_fph(h)
                &&& final(self).fp_fd(h) == FD_BASE + old(self).fds@.len()
            }),
    {
        if self.fps.len() >= FP_LIMIT {
            return Verdict::Violation;
        }
        let fd_verdict = self.open_rel(rel);
        match fd_verdict {
            Verdict::Virtual(fdh) => {
                let n = self.fps.len();
                self.fps.push(OpenStream { fd: fdh, eof: false, dirpos: 0 });
                proof {
                    assert(self.fps@.drop_last() =~= old(self).fps@);
                    assert(forall|i: int|
                        0 <= i < old(self).fps@.len() ==> #[trigger] self.fps@[i] == old(self).fps@[i]);
                }
                Verdict::Virtual(FP_BASE + n)
            },
            _ => Verdict::Violation,
        }
    }

    /// Copies up to `count` bytes from the cursor of a virtual
    /// descriptor, clamped at the end of the content, and advances the
    /// cursor by the amount copied. A descriptor naming a directory
    /// cannot be read. The amount copied is [`read_take`].
    pub fn read_fd(&mut self, h: usize, count: usize) -> (r: Verdict<Vec<u8>>)
        requires
            old(self).wf(),
        ensures
            final(self).wf(),
            core_unchanged(*old(self), *final(self)),
            final(self).cwd == old(self).cwd,
            final(self).fps == old(self).fps,
            final(self).inodes == old(self).inodes,
            !old(self).is_fdh(h) ==> r is NotVirtual && final(self).fds == old(self).fds,
            old(self).is_fdh(h) && !old(self).fd_is_file(h) ==> r is Violation && final(self).fds == old(self).fds,
            old(self).is_fdh(h) && old(self).fd_is_file(h) ==> {
                let data = old(self).fd_content(h);
                let cur = old(self).fd_cursor(h);
                let take = read_take(data.len() as int, cur, count as int);
                &&& r matches Verdict::Virtual(bytes) && bytes@ == data.subrange(cur, cur + take)
                &&& fd_cursor_moved(*old(self), *final(self), old(self).fdi(h), cur + take)
            },
    {
        if !self.is_fd(h) {
            return Verdict::NotVirtual;
        }
        let i = h - FD_BASE;
        let ei = self.entry_of_fd(i);
        if self.catalog.entries[ei].dir {
            proof {
                assert(!self.fd_is_file(h));
            }
            return Verdict::Violation;
        }
        proof {
            assert(self.fd_is_file(h));
            assert(self.fd_content(h) == self.catalog.entries@[ei as int].data@);
            assert(self.fds@[i as int].cursor <= self.catalog.entries@[ei as int].data@.len());
        }
        let cur = self.fds[i].cursor;
        let len = self.catalog.entries[ei].data.len();
        let take = if count <= len - cur {
            count
        } else {
            len - cur
        };
        let bytes = crate::bytes::copy_range(&self.catalog.entries[ei].data, cur, cur + take);
        self.fds[i].cursor = cur + take;
        proof {
            assert(forall|j: int|
                0 <= j < old(self).fds@.len() && j != i ==> #[trigger] self.fds@[j] == old(self).fds@[j]);
            assert(self.fd_wf(self.fds@[i as int]));
        }
        Verdict::Virtual(bytes)
    }

    /// Moves the cursor of a virtual descriptor to an absolute,
    /// cursor-relative or end-relative offset, and returns the new
    /// cursor. A target outside the content, or a seek on a directory
    /// descriptor, is a usage violation and moves nothing.
    pub fn seek_fd(&mut self, h: usize, off: i64, whence: SeekWhence) -> (r: Verdict<usize>)
        requires
            old(self).wf(),
        ensures
            final(self).wf(),
            core_unchanged(*old(self), *final(self)),
            final(self).cwd == old(self).cwd,
            final(self).fps == old(self).fps,
            final(self).inodes == old(self).inodes,
            !old(self).is_fdh(h) ==> r is NotVirtual && final(self).fds == old(self).fds,
            old(self).is_fdh(h) && !old(self).fd_is_file(h) ==> r is Violation && final(self).fds == old(self).fds,
            old(self).is_fdh(h) && old(self).fd_is_file(h) ==> {
                let len = old(self).fd_content(h).len() as int;
                let t = seek_target(len, old(self).fd_cursor(h), whence, off as int);
                if 0 <= t <= len {
                    r matches Verdict::Virtual(pos) && pos == t && fd_cursor_moved(
                        *old(self),
                        *final(self),
                        old(self).fdi(h),
                        t,
                    )
                } else {
                    r is Violation && final(self).fds == old(self).fds
                }
            },
    {
        if !self.is_fd(h) {
            return Verdict::NotVirtual;
        }
        let i = h - FD_BASE;
        let ei = self.entry_of_fd(i);
        if self.catalog.entries[ei].dir {
            proof {
                assert(!self.fd_is_file(h));
            }
            return Verdict::Violation;
        }
        proof {
            assert(self.fd_is_file(h));
            assert(self.fds@[i as int].cursor <= self.catalog.entries@[ei as int].data@.len());
        }
        let cur = self.fds[i].cursor;
        let len = self.catalog.entries[ei].data.len();
        let base: i128 = match whence {
            SeekWhence::FromStart => 0,
            SeekWhence::FromCur => cur as i128,
            SeekWhence::FromEnd => len as i128,
        };
        let t: i128 = base + (off as i128);
        if t < 0 || t > (len as i128) {
            return Verdict::Violation;
        }
        let newcur: usize = t as usize;
        self.fds[i].cursor = newcur;
        proof {
            assert(forall|j: int|
                0 <= j < old(self).fds@.len() && j != i ==> #[trigger] self.fds@[j] == old(self).fds@[j]);
            assert(self.fd_wf(self.fds@[i as int]));
        }
        Verdict::Virtual(newcur)
    }
}

impl Vfs {
    /// The catalog path behind a stream handle.
    pub open spec fn fp_path(self, h: usize) -> Seq<u8> {
        self.fd_path(self.fp_fd(h))
    }

    /// Whether a stream handle names a catalog file.
    pub open spec fn fp_is_file(self, h: usize) -> bool {
        self.fd_is_file(self.fp_fd(h))
    }

    /// The content behind a stream handle naming a file.
    pub open spec fn fp_content(self, h: usize) -> Seq<u8> {
        self.fd_content(self.fp_fd(h))
    }

    /// The byte cursor behind a stream handle.
    pub open spec fn fp_cursor(self, h: usize) -> int {
        self.fd_cursor(self.fp_fd(h))
    }

    /// Reads one byte at the cursor of a virtual stream and advances the
    /// cursor, or reports end-of-file at the end of the content. A
    /// stream over a directory cannot be read.
    pub fn getc_fp(&mut self, h: usize) -> (r: Verdict<Option<u8>>)
        requires
            old(self).wf(),
        ensures
            final(self).wf(),
            core_unchanged(*old(self), *final(self)),
            final(self).cwd == old(self).cwd,
            final(self).fps == old(self).fps,
            final(self).inodes == old(self).inodes,
            !old(self).is_fph(h) ==> r is NotVirtual && final(self).fds == old(self).fds,
            old(self).is_fph(h) && !old(self).fp_is_file(h) ==> r is Violation && final(self).fds
                == old(self).fds,
            old(self).is_fph(h) && old(self).fp_is_file(h) && old(self).fp_cursor(h) == old(self).fp_content(h).len() ==> r == Verdict::Virtual(None::<u8>) && final(self).fds == old(self).fds,
            old(self).is_fph(h) && old(self).fp_is_file(h) && old(self).fp_cursor(h) < old(self).fp_content(h).len() ==> r == Verdict::Virtual(
                Some(old(self).fp_content(h)[old(self).fp_cursor(h)]),
            ) && fd_cursor_moved(
                *old(self),
                *final(self),
                old(self).fdi(old(self).fp_fd(h)),
                old(self).fp_cursor(h) + 1,
            ),
    {
        if !self.is_fp(h) {
            return Verdict::NotVirtual;
        }
        let pi = h - FP_BASE;
        let fdh = self.fps[pi].fd;
        let i = fdh - FD_BASE;
        let ei = self.entry_of_fd(i);
        if self.catalog.entries[ei].dir {
            proof {
                assert(!self.fp_is_file(h));
            }
            return Verdict::Violation;
        }
        proof {
            assert(self.fp_is_file(h));
            assert(self.fds@[i as int].cursor <= self.catalog.entries@[ei as int].data@.len());
        }
        let cur = self.fds[i].cursor;
        if cur == self.catalog.entries[ei].data.len() {
            return Verdict::Virtual(None);
        }
        let b = self.catalog.entries[ei].data[cur];
        self.fds[i].cursor = cur + 1;
        proof {
            assert(forall|j: int|
                0 <= j < old(self).fds@.len() && j != i ==> #[trigger] self.fds@[j] == old(self).fds@[j]);
            assert(self.fd_wf(self.fds@[i as int]));
        }
        Verdict::Virtual(Some(b))
    }

    /// Pushes the byte just read back onto a virtual stream by stepping
    /// the cursor back. Ungetting at the start of the content, a byte
    /// other than the one before the cursor, or onto a directory stream
    /// is a usage violation.
    pub fn ungetc_fp(&mut self, h: usize, c: u8) -> (r: Verdict<()>)
        requires
            old(self).wf(),
        ensures
            final(self).wf(),
            core_unchanged(*old(self), *final(self)),
            final(self).cwd == old(self).cwd,
            final(self).fps == old(self).fps,
            final(self).inodes == old(self).inodes,
            !old(self).is_fph(h) ==> r is NotVirtual && final(self).fds == old(self).fds,
            old(self).is_fph(h) && !old(self).fp_is_file(h) ==> r is Violation && final(self).fds
                == old(self).fds,
            old(self).is_fph(h) && old(self).fp_is_file(h) ==> {
                let cur = old(self).fp_cursor(h);
                if cur > 0 && old(self).fp_content(h)[cur - 1] == c {
                    r == Verdict::Virtual(()) && fd_cursor_moved(
                        *old(self),
                        *final(self),
                        old(self).fdi(old(self).fp_fd(h)),
                        cur - 1,
                    )
                } else {
                    r is Violation && final(self).fds == old(self).fds
                }
            },
    {
        if !self.is_fp(h) {
            return Verdict::NotVirtual;
        }
        let pi = h - FP_BASE;
        let fdh = self.fps[pi].fd;
        let i = fdh - FD_BASE;
        let ei = self.entry_of_fd(i);
        if self.catalog.entries[ei].dir {
            proof {
                assert(!self.fp_is_file(h));
            }
            return Verdict::Violation;
        }
        proof {
            assert(self.fp_is_file(h));
            assert(self.fds@[i as int].cursor <= self.catalog.entries@[ei as int].data@.len());
        }
        let cur = self.fds[i].cursor;
        if cur == 0 {
            return Verdict::Violation;
        }
        if self.catalog.entries[ei].data[cur - 1] != c {
            return Verdict::Violation;
        }
        self.fds[i].cursor = cur - 1;
        proof {
            assert(forall|j: int|
                0 <= j < old(self).fds@.len() && j != i ==> #[trigger] self.fds@[j] == old(self).fds@[j]);
            assert(self.fd_wf(self.fds@[i as int]));
        }
        Verdict::Virtual(())
    }

    /// Moves the cursor of a virtual stream and clears its end-of-file
    /// flag. The target rules are those of [`Vfs::seek_fd`].
    pub fn seek_fp(&mut self, h: usize, off: i64, whence: SeekWhence) -> (r: Verdict<usize>)
        requires
            old(self).wf(),
        ensures
            final(self).wf(),
            core_unchanged(*old(self), *final(self)),
            final(self).cwd == old(self).cwd,
            final(self).inodes == old(self).inodes,
            !old(self).is_fph(h) ==> r is NotVirtual && final(self).fds == old(self).fds && final(self).fps == old(self).fps,
            old(self).is_fph(h) && !old(self).fp_is_file(h) ==> r is Violation && final(self).fds
                == old(self).fds && final(self).fps == old(self).fps,
            old(self).is_fph(h) && old(self).fp_is_file(h) ==> {
                let len = old(self).fp_content(h).len() as int;
                let t = seek_target(len, old(self).fp_cursor(h), whence, off as int);
                if 0 <= t <= len {
                    r matches Verdict::Virtual(pos) && pos == t && fd_cursor_moved(
                        *old(self),
                        *final(self),
                        old(self).fdi(old(self).fp_fd(h)),
                        t,
                    ) && fp_eof_set(*old(self), *final(self), old(self).fpi(h), false)
                } else {
                    r is Violation && final(self).fds == old(self).fds && final(self).fps == old(self).fps
                }
            },
    {
        if !self.is_fp(h) {
            return Verdict::NotVirtual;
        }
        let pi = h - FP_BASE;
        let fdh = self.fps[pi].fd;
        let i = fdh - FD_BASE;
        let ei = self.entry_of_fd(i);
        if self.catalog.entries[ei].dir {
            proof {
                assert(!self.fp_is_file(h));
            }
            return Verdict::Violation;
        }
        proof {
            assert(self.fp_is_file(h));
            assert(self.fds@[i as int].cursor <= self.catalog.entries@[ei as int].data@.len());
        }
        let cur = self.fds[i].cursor;
        let len = self.catalog.entries[ei].data.len();
        let base: i128 = match whence {
            SeekWhence::FromStart => 0,
            SeekWhence::FromCur => cur as i128,
            SeekWhence::FromEnd => len as i128,
        };
        let t: i128 = base + (off as i128);
        if t < 0 || t > (len as i128) {
            return Verdict::Violation;
        }
        let newcur: usize = t as usize;
        self.fds[i].cursor = newcur;
        let keep_fd = self.fps[pi].fd;
        let keep_pos = self.fps[pi].dirpos;
        self.fps[pi] = OpenStream { fd: keep_fd, eof: false, dirpos: keep_pos };
        proof {
            assert(forall|j: int|
                0 <= j < old(self).fds@.len() && j != i ==> #[trigger] self.fds@[j] == old(self).fds@[j]);
            assert(forall|j: int|
                0 <= j < old(self).fps@.len() && j != pi ==> #[trigger] self.fps@[j] == old(self).fps@[j]);
            assert(self.fd_wf(self.fds@[i as int]));
        }
        Verdict::Virtual(newcur)
    }

    /// The cursor of a virtual stream. A directory stream has no byte
    /// cursor to report.
    pub fn tell_fp(&self, h: usize) -> (r: Verdict<usize>)
        requires
            self.wf(),
        ensures
            !self.is_fph(h) ==> r is NotVirtual,
            self.is_fph(h) && !self.fp_is_file(h) ==> r is Violation,
            self.is_fph(h) && self.fp_is_file(h) ==> (r matches Verdict::Virtual(pos) && pos
                == self.fp_cursor(h)),
    {
        if !self.is_fp(h) {
            return Verdict::NotVirtual;
        }
        let pi = h - FP_BASE;
        let fdh = self.fps[pi].fd;
        let i = fdh - FD_BASE;
        let ei = self.entry_of_fd(i);
        if self.catalog.entries[ei].dir {
            proof {
                assert(!self.fp_is_file(h));
            }
            return Verdict::Violation;
        }
        proof {
            assert(self.fp_is_file(h));
        }
        Verdict::Virtual(self.fds[i].cursor)
    }

    /// The end-of-file flag of a virtual stream over a file.
    pub fn eof_fp(&self, h: usize) -> (r: Verdict<bool>)
        requires
            self.wf(),
        ensures
            !self.is_fph(h) ==> r is NotVirtual,
            self.is_fph(h) && !self.fp_is_file(h) ==> r is Violation,
            self.is_fph(h) && self.fp_is_file(h) ==> r == Verdict::Virtual(self.fp_eof(h)),
    {
        if !self.is_fp(h) {
            return Verdict::NotVirtual;
        }
        let pi = h - FP_BASE;
        let fdh = self.fps[pi].fd;
        let i = fdh - FD_BASE;
        let ei = self.entry_of_fd(i);
        if self.catalog.entries[ei].dir {
            proof {
                assert(!self.fp_is_file(h));
            }
            return Verdict::Violation;
        }
        proof {
            assert(self.fp_is_file(h));
        }
        Verdict::Virtual(self.fps[pi].eof)
    }

    /// Clears the end-of-file flag of a virtual stream.
    pub fn clearerr_fp(&mut self, h: usize) -> (r: Verdict<()>)
        requires
            old(self).wf(),
        ensures
            final(self).wf(),
            core_unchanged(*old(self), *final(self)),
            final(self).cwd == old(self).cwd,
            final(self).fds == old(self).fds,
            final(self).inodes == old(self).inodes,
            !old(self).is_fph(h) ==> r is NotVirtual && final(self).fps == old(self).fps,
            old(self).is_fph(h) ==> r == Verdict::Virtual(()) && fp_eof_set(
                *old(self),
                *final(self),
                old(self).fpi(h),
                false,
            ),
    {
        if !self.is_fp(h) {
            return Verdict::NotVirtual;
        }
        let pi = h - FP_BASE;
        let keep_fd = self.fps[pi].fd;
        let keep_pos = self.fps[pi].dirpos;
        self.fps[pi] = OpenStream { fd: keep_fd, eof: false, dirpos: keep_pos };
        proof {
            assert(forall|j: int|
                0 <= j < old(self).fps@.len() && j != pi ==> #[trigger] self.fps@[j] == old(self).fps@[j]);
        }
        Verdict::Virtual(())
    }

    /// The descriptor handle bound to a virtual stream over a file.
    pub fn fileno_fp(&self, h: usize) -> (r: Verdict<usize>)
        requires
            self.wf(),
        ensures
            !self.is_fph(h) ==> r is NotVirtual,
            self.is_fph(h) && !self.fp_is_file(h) ==> r is Violation,
            self.is_fph(h) && self.fp_is_file(h) ==> r == Verdict::Virtual(self.fp_fd(h)),
    {
        if !self.is_fp(h) {
            return Verdict::NotVirtual;
        }
        let pi = h - FP_BASE;
        let fdh = self.fps[pi].fd;
        let i = fdh - FD_BASE;
        let ei = self.entry_of_fd(i);
        if self.catalog.entries[ei].dir {
            proof {
                assert(!self.fp_is_file(h));
            }
            return Verdict::Violation;
        }
        proof {
            assert(self.fp_is_file(h));
        }
        Verdict::Virtual(fdh)
    }

    /// Sets the directory iteration ordinal of a virtual stream.
    pub fn seekdir_fp(&mut self, h: usize, loc: usize) -> (r: Verdict<()>)
        requires
            old(self).wf(),
        ensures
            final(self).wf(),
            core_unchanged(*old(self), *final(self)),
            final(self).cwd == old(self).cwd,
            final(self).fds == old(self).fds,
            final(self).inodes == old(self).inodes,
            !old(self).is_fph(h) ==> r is NotVirtual && final(self).fps == old(self).fps,
            old(self).is_fph(h) ==> r == Verdict::Virtual(()) && fp_dirpos_set(
                *old(self),
                *final(self),
                old(self).fpi(h),
                loc as int,
            ),
    {
        if !self.is_fp(h) {
            return Verdict::NotVirtual;
        }
        let pi = h - FP_BASE;
        let keep_fd = self.fps[pi].fd;
        let keep_eof = self.fps[pi].eof;
        self.fps[pi] = OpenStream { fd: keep_fd, eof: keep_eof, dirpos: loc };
        proof {
            assert(forall|j: int|
                0 <= j < old(self).fps@.len() && j != pi ==> #[trigger] self.fps@[j] == old(self).fps@[j]);
        }
        Verdict::Virtual(())
    }

    /// The directory iteration ordinal of a virtual stream.
    pub fn telldir_fp(&self, h: usize) -> (r: Verdict<usize>)
        requires
            self.wf(),
        ensures
            !self.is_fph(h) ==> r is NotVirtual,
            self.is_fph(h) ==> (r matches Verdict::Virtual(p) && p == self.fp_dirpos(h)),
    {
        if !self.is_fp(h) {
            return Verdict::NotVirtual;
        }
        let pi = h - FP_BASE;
        Verdict::Virtual(self.fps[pi].dirpos)
    }
}

/// Whether the inode table already names `p`.
pub open spec fn tbl_has(tbl: Seq<Vec<u8>>, p: Seq<u8>) -> bool {
    exists|i: int| 0 <= i < tbl.len() && (#[trigger] tbl[i])@ == p
}

/// The slot of `p` in the inode table; meaningful only when `tbl_has`.
pub open spec fn tbl_idx(tbl: Seq<Vec<u8>>, p: Seq<u8>) -> int {
    choose|i: int| 0 <= i < tbl.len() && (#[trigger] tbl[i])@ == p
}

/// The inode number of slot `i`.
pub open spec fn inode_of_slot(i: int) -> int {
    INODE_BASE + i
}

impl Vfs {
    /// The stable inode number of a path: the slot it already holds, or
    /// a fresh one appended at the end of the table.
    pub fn get_inode(&mut self, p: &Vec<u8>) -> (r: u64)
        requires
            old(self).wf(),
        ensures
            final(self).wf(),
            final(self).catalog == old(self).catalog,
            final(self).root == old(self).root,
            final(self).root_comps == old(self).root_comps,
            final(self).cwd == old(self).cwd,
            final(self).fds == old(self).fds,
            final(self).fps == old(self).fps,
            tbl_has(old(self).inodes@, p@) ==> final(self).inodes == old(self).inodes
                && r as int == inode_of_slot(tbl_idx(old(self).inodes@, p@)),
            !tbl_has(old(self).inodes@, p@) ==> final(self).inodes@.drop_last() == old(self).inodes@ && final(self).inodes@.last()@ == p@ && final(self).inodes@.len() == old(self).inodes@.len() + 1 && r as int == inode_of_slot(old(self).inodes@.len() as int),
            tbl_has(final(self).inodes@, p@),
            r as int == inode_of_slot(tbl_idx(final(self).inodes@, p@)),
    {
        let ghost tbl0 = self.inodes@;
        let mut i: usize = 0;
        while i < self.inodes.len()
            invariant
                self == old(self),
                self.wf(),
                i <= self.inodes@.len(),
                self.inodes@ == tbl0,
                forall|j: int| 0 <= j < i ==> (#[trigger] tbl0[j])@ != p@,
            decreases self.inodes@.len() - i,
        {
            if crate::bytes::bytes_eq(&self.inodes[i], p) {
                proof {
                    assert(tbl_has(tbl0, p@));
                    let w = tbl_idx(tbl0, p@);
                    assert(0 <= w < tbl0.len() && tbl0[w]@ == p@);
                    if w != i {
                        assert(false);
                    }
                }
                return (i as u64);
            }
            i += 1;
        }
        proof {
            assert(!tbl_has(tbl0, p@));
        }
        let n = self.inodes.len();
        let pc = clone_bytes(p);
        self.inodes.push(pc);
        proof {
            assert(self.inodes@.last()@ == p@);
            assert(self.inodes@.drop_last() =~= tbl0);
            assert(tbl_has(self.inodes@, p@));
            let w = tbl_idx(self.inodes@, p@);
            assert(0 <= w < self.inodes@.len() && self.inodes@[w]@ == p@);
            if w != self.inodes@.len() - 1 {
                assert(tbl0[w]@ == p@);
                assert(false);
            }
            assert(forall|a: int, b: int|
                0 <= a < b < self.inodes@.len() ==> (#[trigger] self.inodes@[a])@ != (
                #[trigger] self.inodes@[b])@) by {
                assert(forall|a: int|
                    0 <= a < tbl0.len() ==> (#[trigger] self.inodes@[a])@ == tbl0[a]@);
            }
        }
        (n as u64)
    }
}


/// The byte a read-line stops after.
pub const NEWLINE: u8 = 10;

/// How many bytes a read-line takes from `cur` with `avail` bytes in
/// reach: through the first newline, or all of `avail` when none occurs.
pub open spec fn line_take(data: Seq<u8>, cur: int, avail: int) -> int
    decreases avail,
{
    if avail <= 0 {
        0
    } else if data[cur] == NEWLINE {
        1
    } else {
        1 + line_take(data, cur + 1, avail - 1)
    }
}

pub proof fn lemma_line_take_bounds(data: Seq<u8>, cur: int, avail: int)
    requires
        avail >= 0,
    ensures
        0 <= line_take(data, cur, avail) <= avail,
    decreases avail,
{
    if avail > 0 && data[cur] != NEWLINE {
        lemma_line_take_bounds(data, cur + 1, avail - 1);
    }
}

/// Counts the bytes a read-line takes.
fn line_scan(data: &Vec<u8>, cur: usize, avail: usize) -> (t: usize)
    requires
        cur + avail <= data@.len(),
    ensures
        t == line_take(data@, cur as int, avail as int),
        t <= avail,
{
    let dlen: usize = data.len();
    proof {
        lemma_line_take_bounds(data@, cur as int, avail as int);
        assert(cur + avail <= dlen);
    }
    let mut j: usize = 0;
    while j < avail
        invariant
            j <= avail,
            cur + avail <= dlen,
            dlen == data@.len(),
            line_take(data@, cur as int, avail as int) == j + line_take(
                data@,
                cur + j,
                avail - j,
            ),
            line_take(data@, cur as int, avail as int) <= avail,
        decreases avail - j,
    {
        if data[cur + j] == NEWLINE {
            proof {
                assert(line_take(data@, cur + j, avail - j) == 1);
            }
            return j + 1;
        }
        proof {
            assert(line_take(data@, cur + j, avail - j) == 1 + line_take(
                data@,
                cur + j + 1,
                avail - j - 1,
            ));
        }
        j += 1;
    }
    proof {
        assert(line_take(data@, cur + j, avail - j) == 0);
    }
    avail
}

/// How many bytes a buffered read of `nmemb` items of `size` bytes
/// takes: the whole request when it fits before the end of the content,
/// otherwise what is left, trimmed down to whole items.
pub open spec fn fread_take(len: int, cur: int, size: int, nmemb: int) -> int {
    let left = len - cur;
    let wanted = size * nmemb;
    if size == 0 || nmemb == 0 {
        0
    } else if left > wanted {
        wanted
    } else {
        left - (left % size)
    }
}

/// How many whole items a buffered read returns.
pub open spec fn fread_items(len: int, cur: int, size: int, nmemb: int) -> int {
    if size == 0 {
        0
    } else {
        fread_take(len, cur, size, nmemb) / size
    }
}

impl Vfs {
    /// A buffered read: copies whole items from the cursor of a virtual
    /// stream, clamped at the end of the content, advancing the cursor
    /// by the bytes copied and reporting the item count. A stream over
    /// a directory cannot be read.
    pub fn fread_fp(&mut self, h: usize, size: usize, nmemb: usize) -> (r: Verdict<
        (Vec<u8>, usize),
    >)
        requires
            old(self).wf(),
        ensures
            final(self).wf(),
            core_unchanged(*old(self), *final(self)),
            final(self).cwd == old(self).cwd,
            final(self).fps == old(self).fps,
            final(self).inodes == old(self).inodes,
            !old(self).is_fph(h) ==> r is NotVirtual && final(self).fds == old(self).fds,
            old(self).is_fph(h) && !old(self).fp_is_file(h) ==> r is Violation && final(self).fds
                == old(self).fds,
            old(self).is_fph(h) && old(self).fp_is_file(h) ==> {
                let data = old(self).fp_content(h);
                let cur = old(self).fp_cursor(h);
                let take = fread_take(data.len() as int, cur, size as int, nmemb as int);
                &&& r matches Verdict::Virtual(pair) && pair.0@ == data.subrange(cur, cur + take)
                    && pair.1 == fread_items(data.len() as int, cur, size as int, nmemb as int)
                &&& fd_cursor_moved(
                    *old(self),
                    *final(self),
                    old(self).fdi(old(self).fp_fd(h)),
                    cur + take,
                )
            },
    {
        if !self.is_fp(h) {
            return Verdict::NotVirtual;
        }
        let pi = h - FP_BASE;
        let fdh = self.fps[pi].fd;
        let i = fdh - FD_BASE;
        let ei = self.entry_of_fd(i);
        if self.catalog.entries[ei].dir {
            proof {
                assert(!self.fp_is_file(h));
            }
            return Verdict::Violation;
        }
        proof {
            assert(self.fp_is_file(h));
            assert(self.fds@[i as int].cursor <= self.catalog.entries@[ei as int].data@.len());
        }
        let cur = self.fds[i].cursor;
        let len = self.catalog.entries[ei].data.len();
        if size == 0 || nmemb == 0 {
            proof {
                assert(fread_take(len as int, cur as int, size as int, nmemb as int) == 0);
                assert(self.catalog.entries@[ei as int].data@.subrange(
                    cur as int,
                    cur as int,
                ) =~= Seq::<u8>::empty());
                assert(fd_cursor_moved(*old(self), *self, i as int, cur as int));
            }
            return Verdict::Virtual((Vec::new(), 0));
        }
        let left = len - cur;
        let take: usize;
        proof {
            vstd::arithmetic::div_mod::lemma_mod_decreases(left as nat, size as nat);
        }
        match size.checked_mul(nmemb) {
            Some(wanted) => {
                if left > wanted {
                    take = wanted;
                } else {
                    take = left - left % size;
                }
            },
            None => {
                take = left - left % size;
            },
        }
        proof {
            assert(take == fread_take(len as int, cur as int, size as int, nmemb as int));
            assert(take <= left);
        }
        let bytes = crate::bytes::copy_range(&self.catalog.entries[ei].data, cur, cur + take);
        let items = take / size;
        self.fds[i].cursor = cur + take;
        proof {
            assert(forall|j: int|
                0 <= j < old(self).fds@.len() && j != i ==> #[trigger] self.fds@[j] == old(self).fds@[j]);
            assert(self.fd_wf(self.fds@[i as int]));
        }
        Verdict::Virtual((bytes, items))
    }

    /// Reads one line from a virtual stream: up to `size` bytes, through
    /// the first newline if one occurs sooner, advancing the cursor and
    /// raising the end-of-file flag when the content is exhausted.
    /// Nothing to take reports an empty read. A stream over a directory
    /// cannot be read.
    pub fn read_line_fp(&mut self, h: usize, size: usize) -> (r: Verdict<Option<Vec<u8>>>)
        requires
            old(self).wf(),
        ensures
            final(self).wf(),
            core_unchanged(*old(self), *final(self)),
            final(self).cwd == old(self).cwd,
            final(self).inodes == old(self).inodes,
            !old(self).is_fph(h) ==> r is NotVirtual && final(self).fds == old(self).fds && final(self).fps == old(self).fps,
            old(self).is_fph(h) && !old(self).fp_is_file(h) ==> r is Violation && final(self).fds
                == old(self).fds && final(self).fps == old(self).fps,
            old(self).is_fph(h) && old(self).fp_is_file(h) ==> {
                let data = old(self).fp_content(h);
                let cur = old(self).fp_cursor(h);
                let avail = if size <= data.len() - cur {
                    size as int
                } else {
                    data.len() - cur
                };
                let taken = line_take(data, cur, avail);
                &&& taken == 0 ==> r == Verdict::Virtual(None::<Vec<u8>>)
                &&& taken > 0 ==> (r matches Verdict::Virtual(Some(line)) && line@
                    == data.subrange(cur, cur + taken))
                &&& fd_cursor_moved(
                    *old(self),
                    *final(self),
                    old(self).fdi(old(self).fp_fd(h)),
                    cur + taken,
                )
                &&& fp_eof_set(
                    *old(self),
                    *final(self),
                    old(self).fpi(h),
                    old(self).fp_eof(h) || cur + taken == data.len(),
                )
            },
    {
        if !self.is_fp(h) {
            return Verdict::NotVirtual;
        }
        let pi = h - FP_BASE;
        let fdh = self.fps[pi].fd;
        let i = fdh - FD_BASE;
        let ei = self.entry_of_fd(i);
        if self.catalog.entries[ei].dir {
            proof {
                assert(!self.fp_is_file(h));
            }
            return Verdict::Violation;
        }
        proof {
            assert(self.fp_is_file(h));
            assert(self.fds@[i as int].cursor <= self.catalog.entries@[ei as int].data@.len());
        }
        let cur = self.fds[i].cursor;
        let len = self.catalog.entries[ei].data.len();
        let avail = if size <= len - cur {
            size
        } else {
            len - cur
        };
        let taken = line_scan(&self.catalog.entries[ei].data, cur, avail);
        let line = if taken == 0 {
            None
        } else {
            Some(crate::bytes::copy_range(&self.catalog.entries[ei].data, cur, cur + taken))
        };
        self.fds[i].cursor = cur + taken;
        let keep_fd = self.fps[pi].fd;
        let keep_pos = self.fps[pi].dirpos;
        let new_eof = self.fps[pi].eof || cur + taken == len;
        self.fps[pi] = OpenStream { fd: keep_fd, eof: new_eof, dirpos: keep_pos };
        proof {
            assert(forall|j: int|
                0 <= j < old(self).fds@.len() && j != i ==> #[trigger] self.fds@[j] == old(self).fds@[j]);
            assert(forall|j: int|
                0 <= j < old(self).fps@.len() && j != pi ==> #[trigger] self.fps@[j] == old(self).fps@[j]);
            assert(self.fd_wf(self.fds@[i as int]));
        }
        Verdict::Virtual(line)
    }
}


/// The inode table of `post` keeps every assignment of `pre`.
pub open spec fn inodes_extended(pre: Vfs, post: Vfs) -> bool {
    &&& post.inodes@.len() >= pre.inodes@.len()
    &&& forall|k: int| 0 <= k < pre.inodes@.len() ==> post.inodes@[k] == #[trigger] pre.inodes@[k]
}

/// Synthesized attributes of a virtual file or directory.
pub struct FileAttrs {
    pub dev: u64,
    pub ino: u64,
    pub mode: u32,
    pub nlink: u64,
    pub uid: u32,
    pub gid: u32,
    pub size: u64,
    pub blksize: u64,
    pub blocks: u64,
}

/// The device id shared by every virtual entry; an arbitrary sentinel.
pub const DEV_VIRTUAL: u64 = 100000;

/// Mode of a virtual file: regular, read and execute only.
pub const MODE_FILE: u32 = 0o100555;

/// Mode of a virtual directory: directory, read and execute only.
pub const MODE_DIR: u32 = 0o040555;

/// The nominal block size every virtual entry reports.
pub const BLKSIZE_VIRTUAL: u64 = 4096;

/// What the synthesized attributes of a catalog entry hold, apart from
/// the inode number: files report their true content length, directories
/// a fixed directory shape.
pub open spec fn attrs_match(a: FileAttrs, e: CatalogEntry) -> bool {
    &&& a.dev == DEV_VIRTUAL
    &&& a.uid == 1
    &&& a.gid == 1
    &&& a.blksize == BLKSIZE_VIRTUAL
    &&& e.dir ==> a.mode == MODE_DIR && a.nlink == 100 && a.size == 1024 && a.blocks == 0
    &&& !e.dir ==> a.mode == MODE_FILE && a.nlink == 1 && a.size == e.data@.len()
        && a.blocks as int == (e.data@.len() + 1024) / 512
}

impl Vfs {
    /// Synthesizes the attributes of the catalog entry in slot `ei`,
    /// assigning its stable inode on first use.
    pub fn stat_entry(&mut self, ei: usize) -> (a: FileAttrs)
        requires
            old(self).wf(),
            ei < old(self).catalog.entries@.len(),
        ensures
            final(self).wf(),
            core_unchanged(*old(self), *final(self)),
            final(self).cwd == old(self).cwd,
            final(self).fds == old(self).fds,
            final(self).fps == old(self).fps,
            inodes_extended(*old(self), *final(self)),
            attrs_match(a, old(self).catalog.entries@[ei as int]),
            tbl_has(final(self).inodes@, old(self).catalog.entries@[ei as int].path@),
            a.ino as int == inode_of_slot(
                tbl_idx(final(self).inodes@, old(self).catalog.entries@[ei as int].path@),
            ),
            tbl_has(old(self).inodes@, old(self).catalog.entries@[ei as int].path@) ==> final(self).inodes == old(self).inodes,
            !tbl_has(old(self).inodes@, old(self).catalog.entries@[ei as int].path@) ==> final(self).inodes@.len() == old(self).inodes@.len() + 1,
    {
        let full = clone_bytes(&self.catalog.entries[ei].path);
        let ino = self.get_inode(&full);
        proof {
            if !tbl_has(old(self).inodes@, old(self).catalog.entries@[ei as int].path@) {
                assert(forall|k: int|
                    0 <= k < old(self).inodes@.len() ==> self.inodes@[k] == #[trigger] old(self).inodes@[k]);
            }
        }
        if self.catalog.entries[ei].dir {
            FileAttrs {
                dev: DEV_VIRTUAL,
                ino,
                mode: MODE_DIR,
                nlink: 100,
                uid: 1,
                gid: 1,
                size: 1024,
                blksize: BLKSIZE_VIRTUAL,
                blocks: 0,
            }
        } else {
            let l = self.catalog.entries[ei].data.len() as u64;
            proof {
                assert(old(self).catalog.entries@[ei as int].wf());
                assert(l <= 0x7fff_ffff_ffff_ffff);
            }
            FileAttrs {
                dev: DEV_VIRTUAL,
                ino,
                mode: MODE_FILE,
                nlink: 1,
                uid: 1,
                gid: 1,
                size: l,
                blksize: BLKSIZE_VIRTUAL,
                blocks: (l + 1024) / 512,
            }
        }
    }

    /// Synthesizes the attributes behind a virtual descriptor handle.
    pub fn fstat_fd(&mut self, h: usize) -> (r: Verdict<FileAttrs>)
        requires
            old(self).wf(),
        ensures
            final(self).wf(),
            core_unchanged(*old(self), *final(self)),
            final(self).cwd == old(self).cwd,
            final(self).fds == old(self).fds,
            final(self).fps == old(self).fps,
            inodes_extended(*old(self), *final(self)),
            !old(self).is_fdh(h) ==> r is NotVirtual && final(self).inodes == old(self).inodes,
            old(self).is_fdh(h) ==> (r matches Verdict::Virtual(a) && {
                let p = old(self).fd_path(h);
                &&& attrs_match(a, old(self).catalog.entries@[old(self).catalog.idx(p)])
                &&& tbl_has(final(self).inodes@, p)
                &&& a.ino as int == inode_of_slot(tbl_idx(final(self).inodes@, p))
                &&& tbl_has(old(self).inodes@, p) ==> final(self).inodes == old(self).inodes
            }),
    {
        if !self.is_fd(h) {
            return Verdict::NotVirtual;
        }
        let i = h - FD_BASE;
        let ei = self.entry_of_fd(i);
        let a = self.stat_entry(ei);
        Verdict::Virtual(a)
    }

    /// The next child of the directory behind a virtual stream, in the
    /// fixed catalog order, with its stable inode and the ordinal it was
    /// served at; or nothing when the listing is exhausted. Serving an
    /// entry advances the stream ordinal by one.
    pub fn readdir_fp(&mut self, h: usize) -> (r: Verdict<Option<(Vec<u8>, u64, usize)>>)
        requires
            old(self).wf(),
        ensures
            final(self).wf(),
            core_unchanged(*old(self), *final(self)),
            final(self).cwd == old(self).cwd,
            final(self).fds == old(self).fds,
            inodes_extended(*old(self), *final(self)),
            !old(self).is_fph(h) ==> r is NotVirtual && final(self).fps == old(self).fps
                && final(self).inodes == old(self).inodes,
            old(self).is_fph(h) ==> {
                let d = old(self).fp_path(h);
                let ch = children_of(old(self).catalog.entries@, d);
                let pos = old(self).fp_dirpos(h);
                &&& pos >= ch.len() ==> r == Verdict::Virtual(None::<(Vec<u8>, u64, usize)>)
                    && final(self).fps == old(self).fps && final(self).inodes == old(self).inodes
                &&& pos < ch.len() ==> (r matches Verdict::Virtual(Some((nm, ino, opos))) && {
                    &&& nm@ == ch[pos]
                    &&& opos == pos
                    &&& fp_dirpos_set(*old(self), *final(self), old(self).fpi(h), pos + 1)
                    &&& exists|ei: int|
                        0 <= ei < old(self).catalog.entries@.len() && entry_child_of(
                            #[trigger] old(self).catalog.entries@[ei],
                            d,
                        ) && name_of(old(self).catalog.entries@[ei].path@) == nm@ && tbl_has(
                            final(self).inodes@,
                            old(self).catalog.entries@[ei].path@,
                        ) && ino as int == inode_of_slot(
                            tbl_idx(final(self).inodes@, old(self).catalog.entries@[ei].path@),
                        )
                })
            },
    {
        if !self.is_fp(h) {
            return Verdict::NotVirtual;
        }
        let pi = h - FP_BASE;
        let fdh = self.fps[pi].fd;
        let i = fdh - FD_BASE;
        let pos = self.fps[pi].dirpos;
        let found = self.catalog.child_at(&self.fds[i].path, pos);
        match found {
            None => Verdict::Virtual(None),
            Some((name, ei)) => {
                proof {
                    lemma_children_upto_len(
                        self.catalog.entries@,
                        self.fds@[i as int].path@,
                        self.catalog.entries@.len() as int,
                    );
                    assert(self.catalog.entries@.len() == self.catalog.entries.len());
                }
                let ghost mid = *self;
                let full = clone_bytes(&self.catalog.entries[ei].path);
                let ino = self.get_inode(&full);
                let keep_fd = self.fps[pi].fd;
                let keep_eof = self.fps[pi].eof;
                self.fps[pi] = OpenStream { fd: keep_fd, eof: keep_eof, dirpos: pos + 1 };
                proof {
                    assert(forall|j: int|
                        0 <= j < old(self).fps@.len() && j != pi ==> #[trigger] self.fps@[j]
                            == old(self).fps@[j]);
                    if !tbl_has(old(self).inodes@, old(self).catalog.entries@[ei as int].path@) {
                        assert(forall|k: int|
                            0 <= k < old(self).inodes@.len() ==> self.inodes@[k] == #[trigger] old(self).inodes@[k]);
                    }
                    assert(entry_child_of(
                        old(self).catalog.entries@[ei as int],
                        old(self).fp_path(h),
                    ));
                }
                Verdict::Virtual(Some((name, ino, pos)))
            },
        }
    }
}

} // verus!
