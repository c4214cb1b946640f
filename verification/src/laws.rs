//! The laws of the emulation, stated over the same spec functions the
//! operation contracts use, and proved once for every catalog, handle
//! state and input.

use vstd::prelude::*;
use crate::bytes::{SLASH, lex_lt, lemma_lex_lt_irrefl, lemma_lex_lt_prepend};
use crate::catalog::{CatalogEntry, children_of, children_upto, entry_child_of, is_child_name,
    wf_entries, lemma_wf_entries_pair, lemma_children_upto_le};
use crate::paths::{name_of, lemma_child_path_shape};
use crate::table::{Vfs, SeekWhence, seek_target, read_take, tbl_has, tbl_idx, inode_of_slot};

verus! {

/// A full read returns the content exactly: a read of the whole length
/// from cursor zero, where an open places the cursor, takes every byte
/// and leaves the cursor at the end; any read from the end takes
/// nothing.
pub proof fn lemma_full_read_then_eof(data: Seq<u8>, count: int)
    requires
        count >= 0,
    ensures
        read_take(data.len() as int, 0, data.len() as int) == data.len(),
        data.subrange(0, data.len() as int) == data,
        read_take(data.len() as int, data.len() as int, count) == 0,
        data.subrange(data.len() as int, data.len() as int) == Seq::<u8>::empty(),
{
    assert(data.subrange(0, data.len() as int) =~= data);
    assert(data.subrange(data.len() as int, data.len() as int) =~= Seq::<u8>::empty());
}

/// Seek landmarks: from any valid cursor, a seek to the start targets
/// cursor zero and a seek to the end targets the content length, both
/// always in range, so they succeed and a tell after them reports
/// exactly those cursors.
pub proof fn lemma_seek_landmarks(len: int, cur: int)
    requires
        0 <= cur <= len,
    ensures
        seek_target(len, cur, SeekWhence::FromStart, 0) == 0,
        0 <= seek_target(len, cur, SeekWhence::FromStart, 0) <= len,
        seek_target(len, cur, SeekWhence::FromEnd, 0) == len,
        0 <= seek_target(len, cur, SeekWhence::FromEnd, 0) <= len,
{
}

/// Read round trip: a read that can take `n` whole bytes advances the
/// cursor by `n`, and a cursor-relative seek of `-n` right after it is
/// in range and restores the cursor the read started from.
pub proof fn lemma_read_seek_round_trip(len: int, cur: int, n: int)
    requires
        0 <= cur,
        0 <= n,
        cur + n <= len,
    ensures
        read_take(len, cur, n) == n,
        seek_target(len, cur + n, SeekWhence::FromCur, -n) == cur,
        0 <= seek_target(len, cur + n, SeekWhence::FromCur, -n) <= len,
{
}

/// A stable inode: once a path holds a slot of the inode table, any
/// later table that extends the earlier one — which every operation
/// guarantees — keeps it in that same slot, so repeated stats of one
/// path report one inode number.
pub proof fn lemma_inode_stable(t1: Seq<Vec<u8>>, t2: Seq<Vec<u8>>, p: Seq<u8>)
    requires
        tbl_has(t1, p),
        t2.len() >= t1.len(),
        forall|k: int| 0 <= k < t1.len() ==> t2[k] == #[trigger] t1[k],
        forall|i: int, j: int|
            0 <= i < j < t2.len() ==> (#[trigger] t2[i])@ != (#[trigger] t2[j])@,
    ensures
        tbl_has(t2, p),
        tbl_idx(t2, p) == tbl_idx(t1, p),
        inode_of_slot(tbl_idx(t2, p)) == inode_of_slot(tbl_idx(t1, p)),
{
    let w1 = tbl_idx(t1, p);
    assert(0 <= w1 < t1.len() && t1[w1]@ == p);
    assert(t2[w1]@ == p);
    assert(tbl_has(t2, p));
    let w2 = tbl_idx(t2, p);
    assert(0 <= w2 < t2.len() && t2[w2]@ == p);
    if w1 < w2 {
        assert(false);
    }
    if w2 < w1 {
        assert(false);
    }
}

proof fn lemma_children_upto_member(s: Seq<CatalogEntry>, d: Seq<u8>, n: int)
    requires
        0 <= n <= s.len(),
    ensures
        forall|k: int|
            #![trigger children_upto(s, d, n)[k]]
            0 <= k < children_upto(s, d, n).len() ==> is_child_name(
                s,
                d,
                children_upto(s, d, n)[k],
            ),
        forall|i: int|
            0 <= i < n && entry_child_of(#[trigger] s[i], d) ==> exists|k: int|
                0 <= k < children_upto(s, d, n).len() && children_upto(s, d, n)[k] == name_of(
                    s[i].path@,
                ),
    decreases n,
{
    if n > 0 {
        lemma_children_upto_member(s, d, n - 1);
        lemma_children_upto_le(s, d, n - 1, n);
        let pre = children_upto(s, d, n - 1);
        let cur = children_upto(s, d, n);
        if entry_child_of(s[n - 1], d) {
            assert(cur == pre.push(name_of(s[n - 1].path@)));
            assert(cur[cur.len() - 1] == name_of(s[n - 1].path@));
            assert(forall|k: int| 0 <= k < pre.len() ==> cur[k] == #[trigger] pre[k]);
        } else {
            assert(cur == pre);
        }
        assert forall|k: int| #![trigger cur[k]] 0 <= k < cur.len() implies is_child_name(
            s,
            d,
            cur[k],
        ) by {
            if k < pre.len() {
                assert(pre[k] == cur[k]);
                assert(is_child_name(s, d, pre[k]));
            } else {
                assert(entry_child_of(s[n - 1], d));
                assert(k == cur.len() - 1);
                assert(0 <= n - 1 < s.len() && entry_child_of(s[n - 1], d) && name_of(
                    s[n - 1].path@,
                ) == cur[k]);
            }
        }
        assert forall|i: int| 0 <= i < n && entry_child_of(#[trigger] s[i], d) implies exists|
            k: int,
        | 0 <= k < cur.len() && cur[k] == name_of(s[i].path@) by {
            if i < n - 1 {
                let k0 = choose|k0: int| 0 <= k0 < pre.len() && pre[k0] == name_of(s[i].path@);
                assert(cur[k0] == name_of(s[i].path@));
                assert(0 <= k0 < cur.len() && cur[k0] == name_of(s[i].path@));
            } else {
                assert(cur[cur.len() - 1] == name_of(s[i].path@));
            }
        }
    }
}

/// Directory listing completeness: the children sequence of a directory
/// holds exactly the names of the catalog entries whose parent is that
/// directory — every listed name comes from such an entry, and every
/// such entry's name is listed.
pub proof fn lemma_children_exactly(s: Seq<CatalogEntry>, d: Seq<u8>)
    ensures
        forall|k: int|
            #![trigger children_of(s, d)[k]]
            0 <= k < children_of(s, d).len() ==> is_child_name(s, d, children_of(s, d)[k]),
        forall|i: int|
            0 <= i < s.len() && entry_child_of(#[trigger] s[i], d) ==> exists|k: int|
                0 <= k < children_of(s, d).len() && children_of(s, d)[k] == name_of(s[i].path@),
{
    lemma_children_upto_member(s, d, s.len() as int);
    let n = s.len() as int;
    assert(children_of(s, d) == children_upto(s, d, n));
    assert forall|k: int|
        #![trigger children_of(s, d)[k]]
        0 <= k < children_of(s, d).len() implies is_child_name(s, d, children_of(s, d)[k]) by {
        assert(children_upto(s, d, n)[k] == children_of(s, d)[k]);
        assert(is_child_name(s, d, children_upto(s, d, n)[k]));
    }
    assert forall|i: int|
        0 <= i < s.len() && entry_child_of(#[trigger] s[i], d) implies exists|k: int|
        0 <= k < children_of(s, d).len() && children_of(s, d)[k] == name_of(s[i].path@) by {
        let k0 = choose|k0: int|
            0 <= k0 < children_upto(s, d, n).len() && children_upto(s, d, n)[k0] == name_of(
                s[i].path@,
            );
        assert(children_of(s, d)[k0] == name_of(s[i].path@));
    }
}

proof fn lemma_children_upto_sorted(s: Seq<CatalogEntry>, d: Seq<u8>, n: int)
    requires
        wf_entries(s),
        0 <= n <= s.len(),
    ensures
        forall|k1: int, k2: int|
            0 <= k1 < k2 < children_upto(s, d, n).len() ==> lex_lt(
                #[trigger] children_upto(s, d, n)[k1],
                #[trigger] children_upto(s, d, n)[k2],
            ),
        forall|k: int, i: int|
            0 <= k < children_upto(s, d, n).len() && n <= i < s.len() && entry_child_of(
                #[trigger] s[i],
                d,
            ) ==> lex_lt(#[trigger] children_upto(s, d, n)[k], name_of(s[i].path@)),
    decreases n,
{
    if n > 0 {
        lemma_children_upto_sorted(s, d, n - 1);
        lemma_children_upto_le(s, d, n - 1, n);
        let pre = children_upto(s, d, n - 1);
        let cur = children_upto(s, d, n);
        if entry_child_of(s[n - 1], d) {
            assert(cur == pre.push(name_of(s[n - 1].path@)));
            assert(forall|k: int| 0 <= k < pre.len() ==> cur[k] == #[trigger] pre[k]);
            assert(cur[cur.len() - 1] == name_of(s[n - 1].path@));
            assert forall|i: int|
                n <= i < s.len() && entry_child_of(#[trigger] s[i], d) implies lex_lt(
                name_of(s[n - 1].path@),
                name_of(s[i].path@),
            ) by {
                lemma_wf_entries_pair(s, n - 1, i);
                assert(s[n - 1].wf());
                assert(s[i].wf());
                lemma_child_path_shape(s[n - 1].path@, d);
                lemma_child_path_shape(s[i].path@, d);
                if d.len() == 0 {
                    assert(s[n - 1].path@ == name_of(s[n - 1].path@));
                    assert(s[i].path@ == name_of(s[i].path@));
                } else {
                    assert(s[n - 1].path@ == (d + seq![SLASH]) + name_of(s[n - 1].path@));
                    assert(s[i].path@ == (d + seq![SLASH]) + name_of(s[i].path@));
                    lemma_lex_lt_prepend(
                        d + seq![SLASH],
                        name_of(s[n - 1].path@),
                        name_of(s[i].path@),
                    );
                }
            }
        } else {
            assert(cur == pre);
        }
    }
}

/// Directory listing order: in a well-formed catalog the children of a
/// directory are listed in strictly ascending lexicographic order, so
/// each child occurs exactly once and repeated full iterations list the
/// same names in the same places.
pub proof fn lemma_children_sorted(s: Seq<CatalogEntry>, d: Seq<u8>)
    requires
        wf_entries(s),
    ensures
        forall|k1: int, k2: int|
            0 <= k1 < k2 < children_of(s, d).len() ==> lex_lt(
                #[trigger] children_of(s, d)[k1],
                #[trigger] children_of(s, d)[k2],
            ),
        forall|k1: int, k2: int|
            0 <= k1 < k2 < children_of(s, d).len() ==> #[trigger] children_of(s, d)[k1] != (
            #[trigger] children_of(s, d)[k2]),
{
    lemma_children_upto_sorted(s, d, s.len() as int);
    assert forall|k1: int, k2: int|
        0 <= k1 < k2 < children_of(s, d).len() implies #[trigger] children_of(s, d)[k1] != (
    #[trigger] children_of(s, d)[k2]) by {
        if children_of(s, d)[k1] == children_of(s, d)[k2] {
            lemma_lex_lt_irrefl(children_of(s, d)[k1]);
        }
    }
}

/// Nothing outside the root is ever served: a path the classifier
/// calls virtual resolves, against the same context, to somewhere under
/// the configured root.
pub proof fn lemma_virtual_only_under_root(v: Vfs, path: Seq<u8>, realcwd: Seq<u8>)
    ensures
        v.spec_classify(path, realcwd) is Some ==> v.spec_under_root(path, realcwd),
{
}

/// With a virtual current directory set, relative paths resolve against
/// the root-prefixed override — which is also what a query of the
/// current directory reports — whatever the real current directory is.
pub proof fn lemma_cwd_override(v: Vfs, realcwd: Seq<u8>, rel: Seq<u8>)
    requires
        v.cwd matches Some(c) && c@ == rel,
    ensures
        v.spec_effective_cwd(realcwd) == (if rel.len() == 0 {
            v.root@
        } else {
            v.root@ + seq![SLASH] + rel
        }),
{
}

/// With no virtual current directory, the real one stands: resolution
/// falls back to the genuine value, untouched.
pub proof fn lemma_cwd_fallback(v: Vfs, realcwd: Seq<u8>)
    requires
        v.cwd is None,
    ensures
        v.spec_effective_cwd(realcwd) == realcwd,
{
}

} // verus!
