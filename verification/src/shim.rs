//! Path-level decisions of the interception layer: one function per
//! intercepted entry point that takes a raw target and the real current
//! directory, classifies the target against the catalog, and returns a
//! verdict the caller dispatches on — a synthesized result, a
//! delegation to the real implementation, or a fatal usage violation.

use vstd::prelude::*;
use crate::bytes::{SLASH, views_of};
use crate::paths::{is_abs_path, abs_of, canon_rel, canon_rel_path, comps_prefix,
    normal_components, normal_comps_of, clone_bytes, resolve_abs, comps_have_prefix};
use crate::table::{Vfs, Verdict, FileAttrs, attrs_match, core_unchanged, inodes_extended,
    tbl_has, tbl_idx, inode_of_slot, FD_BASE, FD_LIMIT};

verus! {

/// The conventional descriptor value that makes a directory-relative
/// call resolve against the current directory instead.
pub const AT_FDCWD: i64 = -100;

impl Vfs {
    /// The effective current directory: the root-prefixed override when
    /// one is set, else the genuine current directory handed in.
    pub open spec fn spec_effective_cwd(self, realcwd: Seq<u8>) -> Seq<u8> {
        match self.cwd {
            Some(c) => if c@.len() == 0 {
                self.root@
            } else {
                self.root@ + seq![SLASH] + c@
            },
            None => realcwd,
        }
    }

    /// The canonical catalog path `path` names, if it names one: the
    /// path is resolved against the effective current directory, its
    /// components are normalized, the root prefix is stripped, and the
    /// rest must be a catalog entry. The empty path, which the real
    /// filesystem rejects with its own error, and anything else that
    /// does not resolve into the catalog are not virtual.
    pub open spec fn spec_classify(self, path: Seq<u8>, realcwd: Seq<u8>) -> Option<Seq<u8>> {
        if path.len() == 0 {
            None
        } else {
            match canon_rel(path, self.spec_effective_cwd(realcwd), views_of(self.root_comps@)) {
                Some(rel) => if self.catalog.has_path(rel) {
                    Some(rel)
                } else {
                    None
                },
                None => None,
            }
        }
    }

    /// Whether a non-empty path, resolved as the classifier resolves
    /// it, falls under the configured root, whether or not it names an
    /// entry.
    pub open spec fn spec_under_root(self, path: Seq<u8>, realcwd: Seq<u8>) -> bool {
        path.len() > 0 && comps_prefix(
            views_of(self.root_comps@),
            normal_components(abs_of(path, self.spec_effective_cwd(realcwd))),
        )
    }

    /// Computes the effective current directory.
    pub fn effective_cwd_path(&self, realcwd: &Vec<u8>) -> (r: Vec<u8>)
        ensures
            r@ == self.spec_effective_cwd(realcwd@),
    {
        match &self.cwd {
            None => clone_bytes(realcwd),
            Some(c) => {
                if c.len() == 0 {
                    clone_bytes(&self.root)
                } else {
                    let mut out = clone_bytes(&self.root);
                    out.push(SLASH);
                    let mut i: usize = 0;
                    while i < c.len()
                        invariant
                            i <= c@.len(),
                            out@ == self.root@ + seq![SLASH] + c@.take(i as int),
                        decreases c@.len() - i,
                    {
                        proof {
                            assert(self.root@ + seq![SLASH] + c@.take(i as int + 1) =~= (
                            self.root@ + seq![SLASH] + c@.take(i as int)).push(c@[i as int]));
                        }
                        out.push(c[i]);
                        i += 1;
                    }
                    proof {
                        assert(c@.take(i as int) =~= c@);
                    }
                    out
                }
            },
        }
    }

    /// Classifies a path: the canonical catalog path it names, or
    /// nothing when it must be delegated to the real filesystem.
    pub fn classify(&self, path: &Vec<u8>, realcwd: &Vec<u8>) -> (r: Option<Vec<u8>>)
        requires
            self.wf(),
        ensures
            match r {
                Some(rel) => self.spec_classify(path@, realcwd@) == Some(rel@)
                    && self.catalog.has_path(rel@),
                None => self.spec_classify(path@, realcwd@) is None,
            },
    {
        if path.len() == 0 {
            return None;
        }
        let cwd = self.effective_cwd_path(realcwd);
        match canon_rel_path(path, &cwd, &self.root_comps) {
            None => None,
            Some(rel) => {
                match self.catalog.lookup(&rel) {
                    Some(_) => Some(rel),
                    None => None,
                }
            },
        }
    }

    /// Whether a path names a catalog entry.
    pub fn exists_path(&self, path: &Vec<u8>, realcwd: &Vec<u8>) -> (r: bool)
        requires
            self.wf(),
        ensures
            r == (self.spec_classify(path@, realcwd@) is Some),
    {
        match self.classify(path, realcwd) {
            Some(_) => true,
            None => false,
        }
    }

    /// Whether a path falls under the configured root. A create call on
    /// such a path is a usage violation whether or not the path names an
    /// entry.
    pub fn under_root(&self, path: &Vec<u8>, realcwd: &Vec<u8>) -> (r: bool)
        requires
            self.wf(),
        ensures
            r == self.spec_under_root(path@, realcwd@),
    {
        if path.len() == 0 {
            return false;
        }
        let cwd = self.effective_cwd_path(realcwd);
        let abs = resolve_abs(path, &cwd);
        let cs = normal_comps_of(&abs);
        comps_have_prefix(&self.root_comps, &cs)
    }

    /// The open call for descriptors: a virtual target must be opened
    /// read-only with no further flags; anything else demanded of it is
    /// a usage violation.
    pub fn open_path(&mut self, path: &Vec<u8>, realcwd: &Vec<u8>, flags: i32, mode: i32) -> (r:
        Verdict<usize>)
        requires
            old(self).wf(),
        ensures
            final(self).wf(),
            core_unchanged(*old(self), *final(self)),
            final(self).cwd == old(self).cwd,
            final(self).fps == old(self).fps,
            final(self).inodes == old(self).inodes,
            old(self).spec_classify(path@, realcwd@) is None ==> r is NotVirtual && final(self).fds
                == old(self).fds,
            old(self).spec_classify(path@, realcwd@) matches Some(rel) ==> ((flags != 0 || mode
                != 0) ==> r is Violation && final(self).fds == old(self).fds) && ((flags == 0
                && mode == 0) ==> if old(self).fds@.len() < FD_LIMIT {
                r matches Verdict::Virtual(h) && {
                    &&& h == FD_BASE + old(self).fds@.len()
                    &&& final(self).fds@.len() == old(self).fds@.len() + 1
                    &&& final(self).fds@.drop_last() == old(self).fds@
                    &&& final(self).fds@.last().path@ == rel
                    &&& final(self).fds@.last().cursor == 0
                    &&& final(self).is_fdh(h)
                }
            } else {
                r is Violation && final(self).fds == old(self).fds
            }),
    {
        match self.classify(path, realcwd) {
            None => Verdict::NotVirtual,
            Some(rel) => {
                if flags != 0 || mode != 0 {
                    return Verdict::Violation;
                }
                self.open_rel(&rel)
            },
        }
    }

    /// The open call for buffered streams and directory streams.
    pub fn open_stream_path(&mut self, path: &Vec<u8>, realcwd: &Vec<u8>) -> (r: Verdict<usize>)
        requires
            old(self).wf(),
        ensures
            final(self).wf(),
            core_unchanged(*old(self), *final(self)),
            final(self).cwd == old(self).cwd,
            final(self).inodes == old(self).inodes,
            old(self).spec_classify(path@, realcwd@) is None ==> r is NotVirtual && final(self).fds
                == old(self).fds && final(self).fps == old(self).fps,
            old(self).spec_classify(path@, realcwd@) matches Some(rel) ==> (if old(self).fds@.len() < FD_LIMIT && old(self).fps@.len() < crate::table::FP_LIMIT {
                r matches Verdict::Virtual(h) && {
                    &&& h == crate::table::FP_BASE + old(self).fps@.len()
                    &&& final(self).fds@.len() == old(self).fds@.len() + 1
                    &&& final(self).fds@.drop_last() == old(self).fds@
                    &&& final(self).fds@.last().path@ == rel
                    &&& final(self).fds@.last().cursor == 0
                    &&& final(self).fps@.len() == old(self).fps@.len() + 1
                    &&& final(self).fps@.drop_last() == old(self).fps@
                    &&& final(self).fps@.last().fd == FD_BASE + old(self).fds@.len()
                    &&& final(self).fps@.last().eof == false
                    &&& final(self).fps@.last().dirpos == 0
                    &&& final(self).is_fph(h)
                    &&& final(self).fp_path(h) == rel
                }
            } else {
                r is Violation && final(self).fds == old(self).fds && final(self).fps == old(self).fps
            }),
    {
        match self.classify(path, realcwd) {
            None => Verdict::NotVirtual,
            Some(rel) => {
                let out = self.open_stream_rel(&rel);
                proof {
                    if old(self).fds@.len() < FD_LIMIT && old(self).fps@.len()
                        < crate::table::FP_LIMIT {
                        assert(out matches Verdict::Virtual(h) && self.fp_path(h) == rel@);
                    }
                }
                out
            },
        }
    }

    /// The canonical catalog path a directory-relative open names: an
    /// absolute path or a current-directory-relative one resolves as
    /// usual; a path relative to a virtual descriptor resolves under
    /// that descriptor's directory; anything else is not virtual.
    pub open spec fn openat_rel(self, dirfd: i64, path: Seq<u8>, realcwd: Seq<u8>) -> Option<
        Seq<u8>,
    > {
        if is_abs_path(path) || dirfd == AT_FDCWD {
            self.spec_classify(path, realcwd)
        } else if 0 <= dirfd < 0x8000_0000 && self.is_fdh(dirfd as usize) {
            self.spec_classify(
                self.root@ + seq![SLASH] + self.fd_path(dirfd as usize) + seq![SLASH] + path,
                realcwd,
            )
        } else {
            None
        }
    }

    /// The open call taking a directory descriptor to resolve relative
    /// paths against.
    pub fn openat_path(
        &mut self,
        dirfd: i64,
        path: &Vec<u8>,
        realcwd: &Vec<u8>,
        flags: i32,
        mode: i32,
    ) -> (r: Verdict<usize>)
        requires
            old(self).wf(),
        ensures
            final(self).wf(),
            core_unchanged(*old(self), *final(self)),
            final(self).cwd == old(self).cwd,
            final(self).fps == old(self).fps,
            final(self).inodes == old(self).inodes,
            old(self).openat_rel(dirfd, path@, realcwd@) is None ==> r is NotVirtual && final(self).fds == old(self).fds,
            old(self).openat_rel(dirfd, path@, realcwd@) matches Some(rel) ==> ((flags != 0
                || mode != 0) ==> r is Violation && final(self).fds == old(self).fds) && ((flags
                == 0 && mode == 0) ==> if old(self).fds@.len() < FD_LIMIT {
                r matches Verdict::Virtual(h) && {
                    &&& h == FD_BASE + old(self).fds@.len()
                    &&& final(self).fds@.len() == old(self).fds@.len() + 1
                    &&& final(self).fds@.drop_last() == old(self).fds@
                    &&& final(self).fds@.last().path@ == rel
                    &&& final(self).fds@.last().cursor == 0
                    &&& final(self).is_fdh(h)
                }
            } else {
                r is Violation && final(self).fds == old(self).fds
            }),
    {
        if (path.len() > 0 && path[0] == SLASH) || dirfd == AT_FDCWD {
            return self.open_path(path, realcwd, flags, mode);
        }
        if dirfd >= 0 && dirfd < 0x8000_0000 {
            let dh = dirfd as usize;
            if self.is_fd(dh) {
                let i = dh - FD_BASE;
                let mut joined = clone_bytes(&self.root);
                joined.push(SLASH);
                let ghost base1 = joined@;
                let dp = &self.fds[i].path;
                let mut k: usize = 0;
                while k < dp.len()
                    invariant
                        k <= dp@.len(),
                        joined@ == base1 + dp@.take(k as int),
                        base1 == self.root@ + seq![SLASH],
                    decreases dp@.len() - k,
                {
                    proof {
                        assert(base1 + dp@.take(k as int + 1) =~= (base1 + dp@.take(
                            k as int,
                        )).push(dp@[k as int]));
                    }
                    let b = dp[k];
                    joined.push(b);
                    k += 1;
                }
                proof {
                    assert(dp@.take(k as int) =~= dp@);
                }
                joined.push(SLASH);
                let ghost base2 = joined@;
                let mut k2: usize = 0;
                while k2 < path.len()
                    invariant
                        k2 <= path@.len(),
                        joined@ == base2 + path@.take(k2 as int),
                        base2 == self.root@ + seq![SLASH] + self.fd_path(dh) + seq![SLASH],
                    decreases path@.len() - k2,
                {
                    proof {
                        assert(base2 + path@.take(k2 as int + 1) =~= (base2 + path@.take(
                            k2 as int,
                        )).push(path@[k2 as int]));
                    }
                    let b = path[k2];
                    joined.push(b);
                    k2 += 1;
                }
                proof {
                    assert(path@.take(k2 as int) =~= path@);
                    assert(joined@ == self.root@ + seq![SLASH] + self.fd_path(dh) + seq![SLASH]
                        + path@);
                }
                return self.open_path(&joined, realcwd, flags, mode);
            }
        }
        Verdict::NotVirtual
    }

    /// The stat call by path: synthesized attributes for a virtual
    /// target, delegation for anything else. Symlink-variant calls
    /// resolve identically, the catalog holding no symlinks.
    pub fn stat_path(&mut self, path: &Vec<u8>, realcwd: &Vec<u8>) -> (r: Verdict<FileAttrs>)
        requires
            old(self).wf(),
        ensures
            final(self).wf(),
            core_unchanged(*old(self), *final(self)),
            final(self).cwd == old(self).cwd,
            final(self).fds == old(self).fds,
            final(self).fps == old(self).fps,
            inodes_extended(*old(self), *final(self)),
            old(self).spec_classify(path@, realcwd@) is None ==> r is NotVirtual && final(self).inodes == old(self).inodes,
            old(self).spec_classify(path@, realcwd@) matches Some(rel) ==> (r
                matches Verdict::Virtual(a) && {
                &&& attrs_match(a, old(self).catalog.entries@[old(self).catalog.idx(rel)])
                &&& tbl_has(final(self).inodes@, rel)
                &&& a.ino as int == inode_of_slot(tbl_idx(final(self).inodes@, rel))
                &&& tbl_has(old(self).inodes@, rel) ==> final(self).inodes == old(self).inodes
            }),
    {
        match self.classify(path, realcwd) {
            None => Verdict::NotVirtual,
            Some(rel) => {
                let ei = match self.catalog.lookup(&rel) {
                    Some(e) => e,
                    None => {
                        proof {
                            assert(false);
                        }
                        return Verdict::NotVirtual;
                    },
                };
                let a = self.stat_entry(ei);
                Verdict::Virtual(a)
            },
        }
    }

    /// The access check: a virtual target is readable and searchable,
    /// never writable; a write probe falls through to the real
    /// filesystem, whose refusal stands in for access denied.
    pub fn access_path(&self, path: &Vec<u8>, realcwd: &Vec<u8>, amode: i32) -> (r: Verdict<()>)
        requires
            self.wf(),
        ensures
            r == (if self.spec_classify(path@, realcwd@) is Some && (amode | 5i32) == 5i32 {
                Verdict::Virtual(())
            } else {
                Verdict::<()>::NotVirtual
            }),
    {
        if self.exists_path(path, realcwd) {
            if amode == 0 {
                proof {
                    assert((0i32 | 5i32) == 5i32) by (bit_vector);
                }
                return Verdict::Virtual(());
            }
            if (amode | 5) == 5 {
                return Verdict::Virtual(());
            }
        }
        Verdict::NotVirtual
    }

    /// The change-directory call by path: entering a virtual directory
    /// sets the override; anything else clears it and is delegated, so
    /// the real current directory takes over again.
    pub fn chdir_path(&mut self, path: &Vec<u8>, realcwd: &Vec<u8>) -> (r: Verdict<()>)
        requires
            old(self).wf(),
        ensures
            final(self).wf(),
            core_unchanged(*old(self), *final(self)),
            final(self).fds == old(self).fds,
            final(self).fps == old(self).fps,
            final(self).inodes == old(self).inodes,
            old(self).spec_classify(path@, realcwd@) matches Some(rel) ==> (if old(self).catalog.is_dir_path(rel) {
                &&& r == Verdict::Virtual(())
                &&& final(self).cwd matches Some(cv) && cv@ == rel
            } else {
                &&& r is NotVirtual
                &&& final(self).cwd is None
            }),
            old(self).spec_classify(path@, realcwd@) is None ==> r is NotVirtual && final(self).cwd is None,
    {
        match self.classify(path, realcwd) {
            Some(rel) => {
                let ei = match self.catalog.lookup(&rel) {
                    Some(e) => e,
                    None => {
                        proof {
                            assert(false);
                        }
                        self.cwd = None;
                        return Verdict::NotVirtual;
                    },
                };
                if self.catalog.entries[ei].dir {
                    proof {
                        assert(self.catalog.is_dir_path(rel@));
                    }
                    self.cwd = Some(rel);
                    Verdict::Virtual(())
                } else {
                    proof {
                        assert(!self.catalog.is_dir_path(rel@));
                    }
                    self.cwd = None;
                    Verdict::NotVirtual
                }
            },
            None => {
                self.cwd = None;
                Verdict::NotVirtual
            },
        }
    }

    /// The change-directory call by descriptor: a virtual descriptor
    /// naming a directory sets the override; one naming a file cannot be
    /// delegated and is a usage violation; a real descriptor clears the
    /// override and is delegated.
    pub fn fchdir_fd(&mut self, h: usize) -> (r: Verdict<()>)
        requires
            old(self).wf(),
        ensures
            final(self).wf(),
            core_unchanged(*old(self), *final(self)),
            final(self).fds == old(self).fds,
            final(self).fps == old(self).fps,
            final(self).inodes == old(self).inodes,
            !old(self).is_fdh(h) ==> r is NotVirtual && final(self).cwd is None,
            old(self).is_fdh(h) && old(self).catalog.is_dir_path(old(self).fd_path(h)) ==> ({
                &&& r == Verdict::Virtual(())
                &&& final(self).cwd matches Some(cv) && cv@ == old(self).fd_path(h)
            }),
            old(self).is_fdh(h) && !old(self).catalog.is_dir_path(old(self).fd_path(h)) ==> r
                is Violation && final(self).cwd == old(self).cwd,
    {
        if !self.is_fd(h) {
            self.cwd = None;
            return Verdict::NotVirtual;
        }
        let i = h - FD_BASE;
        let ei = self.entry_of_fd(i);
        if self.catalog.entries[ei].dir {
            proof {
                assert(self.catalog.is_dir_path(self.fd_path(h)));
            }
            let cv = clone_bytes(&self.fds[i].path);
            self.cwd = Some(cv);
            Verdict::Virtual(())
        } else {
            proof {
                assert(!self.catalog.is_dir_path(self.fd_path(h)));
            }
            Verdict::Violation
        }
    }
}

/// Teardown for the interception backend. The catalog lives inside the
/// executable and handle slots are never recycled, so there is nothing
/// to release; process exit proceeds regardless.
pub fn atexit() {
}

} // verus!
