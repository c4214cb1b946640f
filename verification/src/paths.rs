//! Path resolution: absolute-path construction, component normalization
//! (dropping empty and `.` segments, folding `..`), root-prefix stripping,
//! and the canonical catalog-relative form of a path.

use vstd::prelude::*;
use crate::bytes::{SLASH, DOT, views_of, split_bytes, join_bytes, split_path, join_path,
    bytes_eq, lemma_split_nonempty};

verus! {

/// A component a canonical catalog path may hold: non-empty and neither
/// `.` nor `..`.
pub open spec fn valid_comp(c: Seq<u8>) -> bool {
    c.len() > 0 && c != seq![DOT] && c != seq![DOT, DOT]
}

/// A canonical catalog-relative path: empty (the root directory) or made
/// of valid components only.
pub open spec fn valid_rel_path(p: Seq<u8>) -> bool {
    p.len() == 0 || (forall|k: int|
        0 <= k < split_bytes(p).len() ==> valid_comp(#[trigger] split_bytes(p)[k]))
}

/// One step of normalization: empty and `.` segments vanish, `..` drops
/// the last component kept so far, anything else is kept.
pub open spec fn norm_push(acc: Seq<Seq<u8>>, c: Seq<u8>) -> Seq<Seq<u8>> {
    if c.len() == 0 || c == seq![DOT] {
        acc
    } else if c == seq![DOT, DOT] {
        if acc.len() > 0 {
            acc.drop_last()
        } else {
            acc
        }
    } else {
        acc.push(c)
    }
}

pub open spec fn norm_from(acc: Seq<Seq<u8>>, cs: Seq<Seq<u8>>) -> Seq<Seq<u8>>
    decreases cs.len(),
{
    if cs.len() == 0 {
        acc
    } else {
        norm_from(norm_push(acc, cs[0]), cs.skip(1))
    }
}

/// The normalized components of a slash-separated byte path.
pub open spec fn normal_components(s: Seq<u8>) -> Seq<Seq<u8>> {
    norm_from(Seq::<Seq<u8>>::empty(), split_bytes(s))
}

/// Normalization only ever keeps valid components.
pub proof fn lemma_norm_valid(acc: Seq<Seq<u8>>, cs: Seq<Seq<u8>>)
    requires
        forall|k: int| 0 <= k < acc.len() ==> valid_comp(#[trigger] acc[k]),
    ensures
        forall|k: int|
            0 <= k < norm_from(acc, cs).len() ==> valid_comp(#[trigger] norm_from(acc, cs)[k]),
    decreases cs.len(),
{
    if cs.len() > 0 {
        let acc2 = norm_push(acc, cs[0]);
        assert(forall|k: int| 0 <= k < acc2.len() ==> valid_comp(#[trigger] acc2[k]));
        lemma_norm_valid(acc2, cs.skip(1));
        assert(norm_from(acc, cs) == norm_from(acc2, cs.skip(1)));
    }
}

/// True when the byte path begins with a separator.
pub open spec fn is_abs_path(p: Seq<u8>) -> bool {
    p.len() > 0 && p[0] == SLASH
}

/// The input resolved against a current directory: absolute inputs stand
/// alone, relative ones are appended to the current directory.
pub open spec fn abs_of(path: Seq<u8>, cwd: Seq<u8>) -> Seq<u8> {
    if is_abs_path(path) {
        path
    } else {
        cwd + seq![SLASH] + path
    }
}

/// Whether `pre` is a prefix of `cs`, component by component.
pub open spec fn comps_prefix(pre: Seq<Seq<u8>>, cs: Seq<Seq<u8>>) -> bool {
    pre.len() <= cs.len() && forall|k: int| 0 <= k < pre.len() ==> cs[k] == #[trigger] pre[k]
}

/// The canonical catalog-relative form of `path` resolved against the
/// absolute current directory `cwd`, under a root whose normalized
/// components are `root`: the normalized components past the root prefix,
/// joined; or nothing when the path does not lie under the root.
pub open spec fn canon_rel(path: Seq<u8>, cwd: Seq<u8>, root: Seq<Seq<u8>>) -> Option<Seq<u8>> {
    let cs = normal_components(abs_of(path, cwd));
    if comps_prefix(root, cs) {
        Some(join_bytes(cs.skip(root.len() as int)))
    } else {
        None
    }
}

/// The path of the directory holding `p`: all segments but the last,
/// joined.
pub open spec fn parent_of(p: Seq<u8>) -> Seq<u8> {
    join_bytes(split_bytes(p).drop_last())
}

/// The last segment of `p`.
pub open spec fn name_of(p: Seq<u8>) -> Seq<u8> {
    split_bytes(p).last()
}

/// A canonical path decomposes into its parent and its name: the name
/// alone under the root directory, else the parent, a separator and the
/// name.
pub proof fn lemma_child_path_shape(p: Seq<u8>, d: Seq<u8>)
    requires
        valid_rel_path(p),
        p.len() > 0,
        parent_of(p) == d,
    ensures
        name_of(p).len() > 0,
        d.len() == 0 ==> p == name_of(p),
        d.len() > 0 ==> p == d + seq![SLASH] + name_of(p),
{
    crate::bytes::lemma_split_nonempty(p);
    crate::bytes::lemma_join_split(p);
    let cs = split_bytes(p);
    assert(valid_comp(cs[0]));
    assert(valid_comp(cs[cs.len() - 1]));
    assert(name_of(p) == cs.last());
    if cs.len() == 1 {
        assert(cs.drop_last() =~= Seq::<Seq<u8>>::empty());
        assert(d.len() == 0);
        assert(join_bytes(cs) == cs[0]);
        assert(p == name_of(p));
    } else {
        assert(cs =~= cs.drop_last().push(cs.last()));
        crate::bytes::lemma_join_push(cs.drop_last(), cs.last());
        assert(p == join_bytes(cs.drop_last()) + seq![SLASH] + cs.last());
        crate::bytes::lemma_join_first_len(cs.drop_last());
        assert(cs.drop_last()[0] == cs[0]);
        assert(d.len() >= cs[0].len() > 0);
    }
}

/// The parent path of `p`.
pub fn parent_of_path(p: &Vec<u8>) -> (r: Vec<u8>)
    ensures
        r@ == parent_of(p@),
{
    let mut cs = split_path(p);
    proof {
        lemma_split_nonempty(p@);
    }
    cs.pop();
    proof {
        assert(views_of(cs@) =~= split_bytes(p@).drop_last());
    }
    join_path(&cs)
}

/// The last segment of `p`.
pub fn name_of_path(p: &Vec<u8>) -> (r: Vec<u8>)
    ensures
        r@ == name_of(p@),
{
    let cs = split_path(p);
    proof {
        lemma_split_nonempty(p@);
        assert(views_of(cs@)[cs@.len() - 1] == cs@[cs@.len() - 1]@);
    }
    clone_bytes(&cs[cs.len() - 1])
}

/// Checks whether a component is exactly `.`.
fn comp_is_dot(c: &Vec<u8>) -> (r: bool)
    ensures
        r == (c@ == seq![DOT]),
{
    let r = c.len() == 1 && c[0] == DOT;
    proof {
        if r {
            assert(c@ =~= seq![DOT]);
        }
        if c@ == seq![DOT] {
            assert(c@.len() == 1);
        }
    }
    r
}

/// Checks whether a component is exactly `..`.
fn comp_is_dotdot(c: &Vec<u8>) -> (r: bool)
    ensures
        r == (c@ == seq![DOT, DOT]),
{
    let r = c.len() == 2 && c[0] == DOT && c[1] == DOT;
    proof {
        if r {
            assert(c@ =~= seq![DOT, DOT]);
        }
        if c@ == seq![DOT, DOT] {
            assert(c@.len() == 2);
        }
    }
    r
}

/// Normalizes a component list.
pub fn normalize_comps(cs: Vec<Vec<u8>>) -> (r: Vec<Vec<u8>>)
    ensures
        views_of(r@) == norm_from(Seq::<Seq<u8>>::empty(), views_of(cs@)),
{
    let ghost m = views_of(cs@);
    let mut acc: Vec<Vec<u8>> = Vec::new();
    let mut i: usize = 0;
    proof {
        assert(views_of(acc@) =~= Seq::<Seq<u8>>::empty());
        assert(m.skip(0) =~= m);
    }
    while i < cs.len()
        invariant
            i <= cs@.len(),
            m == views_of(cs@),
            norm_from(Seq::<Seq<u8>>::empty(), m) == norm_from(
                views_of(acc@),
                m.skip(i as int),
            ),
        decreases cs@.len() - i,
    {
        proof {
            assert(m.skip(i as int).len() > 0);
            assert(m.skip(i as int)[0] == cs@[i as int]@);
            assert(m.skip(i as int).skip(1) =~= m.skip(i as int + 1));
        }
        let c = &cs[i];
        let ghost before = views_of(acc@);
        if c.len() == 0 || comp_is_dot(c) {
            proof {
                assert(norm_push(before, m.skip(i as int)[0]) == before);
            }
        } else if comp_is_dotdot(c) {
            if acc.len() > 0 {
                acc.pop();
                proof {
                    assert(views_of(acc@) =~= before.drop_last());
                }
            }
            proof {
                assert(norm_push(before, m.skip(i as int)[0]) =~= views_of(acc@));
            }
        } else {
            let cc = clone_bytes(c);
            acc.push(cc);
            proof {
                assert(views_of(acc@) =~= before.push(cs@[i as int]@));
                assert(norm_push(before, m.skip(i as int)[0]) =~= views_of(acc@));
            }
        }
        i += 1;
    }
    proof {
        assert(m.skip(i as int) =~= Seq::<Seq<u8>>::empty());
    }
    acc
}

/// Copies a byte vector.
pub fn clone_bytes(v: &Vec<u8>) -> (r: Vec<u8>)
    ensures
        r@ == v@,
{
    let mut out: Vec<u8> = Vec::new();
    let mut i: usize = 0;
    while i < v.len()
        invariant
            i <= v@.len(),
            out@ == v@.take(i as int),
        decreases v@.len() - i,
    {
        proof {
            assert(v@.take(i as int + 1) =~= v@.take(i as int).push(v@[i as int]));
        }
        out.push(v[i]);
        i += 1;
    }
    proof {
        assert(v@.take(i as int) =~= v@);
    }
    out
}

/// The normalized components of a byte path.
pub fn normal_comps_of(p: &Vec<u8>) -> (r: Vec<Vec<u8>>)
    ensures
        views_of(r@) == normal_components(p@),
{
    let parts = split_path(p);
    normalize_comps(parts)
}

/// Resolves `path` against the absolute current directory `cwd`.
pub fn resolve_abs(path: &Vec<u8>, cwd: &Vec<u8>) -> (r: Vec<u8>)
    ensures
        r@ == abs_of(path@, cwd@),
{
    if path.len() > 0 && path[0] == SLASH {
        clone_bytes(path)
    } else {
        let mut out = clone_bytes(cwd);
        out.push(SLASH);
        let mut i: usize = 0;
        while i < path.len()
            invariant
                i <= path@.len(),
                out@ == cwd@ + seq![SLASH] + path@.take(i as int),
            decreases path@.len() - i,
        {
            proof {
                assert(cwd@ + seq![SLASH] + path@.take(i as int + 1) =~= (cwd@ + seq![SLASH]
                    + path@.take(i as int)).push(path@[i as int]));
            }
            out.push(path[i]);
            i += 1;
        }
        proof {
            assert(cwd@ + seq![SLASH] + path@.take(i as int) =~= cwd@ + seq![SLASH] + path@);
        }
        out
    }
}

/// Checks a component-by-component prefix.
pub fn comps_have_prefix(pre: &Vec<Vec<u8>>, cs: &Vec<Vec<u8>>) -> (r: bool)
    ensures
        r == comps_prefix(views_of(pre@), views_of(cs@)),
{
    proof {
        assert(views_of(pre@).len() == pre@.len());
        assert(views_of(cs@).len() == cs@.len());
    }
    if pre.len() > cs.len() {
        return false;
    }
    let mut i: usize = 0;
    while i < pre.len()
        invariant
            i <= pre@.len(),
            pre@.len() <= cs@.len(),
            forall|k: int| 0 <= k < i ==> views_of(cs@)[k] == #[trigger] views_of(pre@)[k],
        decreases pre@.len() - i,
    {
        proof {
            assert(views_of(pre@)[i as int] == pre@[i as int]@);
            assert(views_of(cs@)[i as int] == cs@[i as int]@);
        }
        if !bytes_eq(&pre[i], &cs[i]) {
            return false;
        }
        i += 1;
    }
    true
}

/// The canonical catalog-relative form of `path` under the root whose
/// normalized components are `root`, resolved against `cwd`.
pub fn canon_rel_path(path: &Vec<u8>, cwd: &Vec<u8>, root: &Vec<Vec<u8>>) -> (r: Option<Vec<u8>>)
    ensures
        match r {
            Some(rel) => canon_rel(path@, cwd@, views_of(root@)) == Some(rel@),
            None => canon_rel(path@, cwd@, views_of(root@)) is None,
        },
{
    let abs = resolve_abs(path, cwd);
    let cs = normal_comps_of(&abs);
    if !comps_have_prefix(root, &cs) {
        return None;
    }
    let mut rest: Vec<Vec<u8>> = Vec::new();
    let mut i: usize = root.len();
    proof {
        assert(views_of(rest@) =~= views_of(cs@).skip(root@.len() as int).take(0));
    }
    while i < cs.len()
        invariant
            root@.len() <= i <= cs@.len(),
            views_of(rest@) == views_of(cs@).skip(root@.len() as int).take(
                i - root@.len(),
            ),
        decreases cs@.len() - i,
    {
        let ghost tail = views_of(cs@).skip(root@.len() as int);
        proof {
            assert(tail.take(i - root@.len() + 1) =~= tail.take(i - root@.len()).push(
                tail[i - root@.len()],
            ));
            assert(tail[i - root@.len()] == cs@[i as int]@);
        }
        let c = clone_bytes(&cs[i]);
        rest.push(c);
        proof {
            assert(views_of(rest@) =~= tail.take(i - root@.len()).push(cs@[i as int]@));
        }
        i += 1;
    }
    proof {
        assert(views_of(rest@) =~= views_of(cs@).skip(root@.len() as int));
    }
    Some(join_path(&rest))
}

} // verus!
