//! The resource catalog: an immutable table of relative byte paths, each a
//! directory or a file with byte content, kept in strict lexicographic
//! order. Lookup is exact; directory children are read off the order.

use vstd::prelude::*;
use crate::bytes::{views_of, split_bytes, lex_lt, bytes_eq, bytes_lt, split_path,
    lemma_split_nonempty, lemma_lex_lt_irrefl, lemma_lex_lt_trans};
use crate::paths::{valid_comp, valid_rel_path, parent_of, name_of, parent_of_path,
    name_of_path};

verus! {

/// One catalog row: a relative path naming a directory, or a file with
/// its content.
pub struct CatalogEntry {
    pub path: Vec<u8>,
    pub dir: bool,
    pub data: Vec<u8>,
}

impl CatalogEntry {
    /// A canonical relative path; directories carry no content; content
    /// fits a signed 64-bit size field.
    pub open spec fn wf(self) -> bool {
        &&& valid_rel_path(self.path@)
        &&& self.dir ==> self.data@.len() == 0
        &&& self.data@.len() <= 0x7fff_ffff_ffff_ffff
    }
}

/// True when `e` names an immediate child of directory path `d`.
pub open spec fn entry_child_of(e: CatalogEntry, d: Seq<u8>) -> bool {
    e.path@.len() > 0 && parent_of(e.path@) == d
}

/// The names of the children of `d` among the first `n` entries, in
/// entry order.
pub open spec fn children_upto(s: Seq<CatalogEntry>, d: Seq<u8>, n: int) -> Seq<Seq<u8>>
    decreases n,
{
    if n <= 0 {
        Seq::<Seq<u8>>::empty()
    } else {
        let pre = children_upto(s, d, n - 1);
        if entry_child_of(s[n - 1], d) {
            pre.push(name_of(s[n - 1].path@))
        } else {
            pre
        }
    }
}

/// The names of the children of `d`, in entry order.
pub open spec fn children_of(s: Seq<CatalogEntry>, d: Seq<u8>) -> Seq<Seq<u8>> {
    children_upto(s, d, s.len() as int)
}

pub proof fn lemma_children_upto_le(s: Seq<CatalogEntry>, d: Seq<u8>, i: int, j: int)
    requires
        0 <= i <= j,
    ensures
        children_upto(s, d, i).len() <= children_upto(s, d, j).len(),
        forall|k: int|
            0 <= k < children_upto(s, d, i).len() ==> children_upto(s, d, j)[k]
                == #[trigger] children_upto(s, d, i)[k],
    decreases j,
{
    if i < j {
        lemma_children_upto_le(s, d, i, j - 1);
    }
}

/// Whether `nm` is the name of some catalog entry whose parent is `d`.
pub open spec fn is_child_name(s: Seq<CatalogEntry>, d: Seq<u8>, nm: Seq<u8>) -> bool {
    exists|i: int|
        0 <= i < s.len() && entry_child_of(#[trigger] s[i], d) && name_of(s[i].path@) == nm
}

pub proof fn lemma_children_upto_len(s: Seq<CatalogEntry>, d: Seq<u8>, n: int)
    ensures
        children_upto(s, d, n).len() <= (if n >= 0 {
            n
        } else {
            0
        }),
    decreases n,
{
    if n > 0 {
        lemma_children_upto_len(s, d, n - 1);
    }
}

/// The well-formedness of a catalog entry table: at least the root
/// directory, the root first, every entry well formed, and paths in
/// strictly ascending lexicographic order.
pub open spec fn wf_entries(s: Seq<CatalogEntry>) -> bool {
    &&& s.len() >= 1
    &&& s[0].path@ == Seq::<u8>::empty()
    &&& s[0].dir
    &&& forall|i: int| 0 <= i < s.len() ==> (#[trigger] s[i]).wf()
    &&& forall|i: int| 0 <= i < s.len() - 1 ==> lex_lt(#[trigger] s[i].path@, s[i + 1].path@)
}

/// In a well-formed entry table any two entries are ordered, earlier
/// before later.
pub proof fn lemma_wf_entries_pair(s: Seq<CatalogEntry>, i: int, j: int)
    requires
        wf_entries(s),
        0 <= i < j < s.len(),
    ensures
        lex_lt(s[i].path@, s[j].path@),
    decreases j - i,
{
    if j == i + 1 {
    } else {
        lemma_wf_entries_pair(s, i, j - 1);
        assert(lex_lt(s[j - 1].path@, s[j].path@));
        lemma_lex_lt_trans(s[i].path@, s[j - 1].path@, s[j].path@);
    }
}

/// The embedded resource catalog.
pub struct Catalog {
    pub entries: Vec<CatalogEntry>,
}

impl Catalog {
    pub open spec fn wf(self) -> bool {
        wf_entries(self.entries@)
    }

    pub open spec fn has_path(self, p: Seq<u8>) -> bool {
        exists|i: int| 0 <= i < self.entries@.len() && (#[trigger] self.entries@[i]).path@ == p
    }

    /// The index of the entry for `p`; meaningful only when `has_path`.
    pub open spec fn idx(self, p: Seq<u8>) -> int {
        choose|i: int| 0 <= i < self.entries@.len() && (#[trigger] self.entries@[i]).path@ == p
    }

    pub open spec fn is_dir_path(self, p: Seq<u8>) -> bool {
        self.has_path(p) && self.entries@[self.idx(p)].dir
    }

    pub open spec fn is_file_path(self, p: Seq<u8>) -> bool {
        self.has_path(p) && !self.entries@[self.idx(p)].dir
    }

    /// The content of the file at `p`; meaningful only when
    /// `is_file_path`.
    pub open spec fn content(self, p: Seq<u8>) -> Seq<u8> {
        self.entries@[self.idx(p)].data@
    }

    /// In a well-formed catalog any two entries are ordered, earlier
    /// before later.
    pub proof fn lemma_sorted_pair(self, i: int, j: int)
        requires
            self.wf(),
            0 <= i < j < self.entries@.len(),
        ensures
            lex_lt(self.entries@[i].path@, self.entries@[j].path@),
        decreases j - i,
    {
        if j == i + 1 {
        } else {
            self.lemma_sorted_pair(i, j - 1);
            assert(lex_lt(self.entries@[j - 1].path@, self.entries@[j].path@));
            lemma_lex_lt_trans(
                self.entries@[i].path@,
                self.entries@[j - 1].path@,
                self.entries@[j].path@,
            );
        }
    }

    /// In a well-formed catalog a path occurs at one index only.
    pub proof fn lemma_path_unique(self, i: int, j: int)
        requires
            self.wf(),
            0 <= i < self.entries@.len(),
            0 <= j < self.entries@.len(),
            self.entries@[i].path@ == self.entries@[j].path@,
        ensures
            i == j,
    {
        if i < j {
            self.lemma_sorted_pair(i, j);
            lemma_lex_lt_irrefl(self.entries@[i].path@);
        } else if j < i {
            self.lemma_sorted_pair(j, i);
            lemma_lex_lt_irrefl(self.entries@[i].path@);
        }
    }

    /// Finds the entry for an exact relative path.
    pub fn lookup(&self, p: &Vec<u8>) -> (r: Option<usize>)
        requires
            self.wf(),
        ensures
            match r {
                Some(i) => self.has_path(p@) && i == self.idx(p@) && i < self.entries@.len()
                    && self.entries@[i as int].path@ == p@,
                None => !self.has_path(p@),
            },
    {
        let mut i: usize = 0;
        while i < self.entries.len()
            invariant
                self.wf(),
                i <= self.entries@.len(),
                forall|j: int|
                    0 <= j < i ==> (#[trigger] self.entries@[j]).path@ != p@,
            decreases self.entries@.len() - i,
        {
            if bytes_eq(&self.entries[i].path, p) {
                proof {
                    assert(self.has_path(p@));
                    let w = self.idx(p@);
                    self.lemma_path_unique(i as int, w);
                }
                return Some(i);
            }
            i += 1;
        }
        None
    }

    /// The `k`-th child name of directory `d`, with the index of the
    /// catalog entry it names, in entry order.
    pub fn child_at(&self, d: &Vec<u8>, k: usize) -> (r: Option<(Vec<u8>, usize)>)
        requires
            self.wf(),
        ensures
            match r {
                Some(pair) => {
                    &&& k < children_of(self.entries@, d@).len()
                    &&& pair.0@ == children_of(self.entries@, d@)[k as int]
                    &&& pair.1 < self.entries@.len()
                    &&& entry_child_of(self.entries@[pair.1 as int], d@)
                    &&& name_of(self.entries@[pair.1 as int].path@) == pair.0@
                },
                None => k >= children_of(self.entries@, d@).len(),
            },
    {
        let ghost s = self.entries@;
        let mut i: usize = 0;
        let mut count: usize = 0;
        while i < self.entries.len()
            invariant
                i <= s.len(),
                s == self.entries@,
                self.wf(),
                count == children_upto(s, d@, i as int).len(),
                count <= k,
            decreases s.len() - i,
        {
            let e = &self.entries[i];
            let is_child = if e.path.len() > 0 {
                let par = parent_of_path(&e.path);
                bytes_eq(&par, d)
            } else {
                false
            };
            proof {
                assert(is_child == entry_child_of(s[i as int], d@));
            }
            if is_child {
                if count == k {
                    let name = name_of_path(&e.path);
                    proof {
                        assert(children_upto(s, d@, i as int + 1) == children_upto(
                            s,
                            d@,
                            i as int,
                        ).push(name_of(s[i as int].path@)));
                        lemma_children_upto_le(s, d@, i as int + 1, s.len() as int);
                        assert(children_of(s, d@)[k as int] == children_upto(
                            s,
                            d@,
                            i as int + 1,
                        )[k as int]);
                    }
                    return Some((name, i));
                }
                count += 1;
            }
            i += 1;
        }
        proof {
            assert(children_of(s, d@).len() == count);
        }
        None
    }

    /// Builds a catalog after checking well-formedness; rejects any table
    /// that is not well formed.
    pub fn new(entries: Vec<CatalogEntry>) -> (r: Option<Catalog>)
        ensures
            match r {
                Some(c) => c.wf() && c.entries@ == entries@,
                None => !wf_entries(entries@),
            },
    {
        if entries.len() == 0 {
            return None;
        }
        if entries[0].path.len() != 0 || !entries[0].dir {
            proof {
                assert(entries@[0].path@ == Seq::<u8>::empty() ==> entries@[0].path@.len() == 0);
            }
            return None;
        }
        proof {
            assert(entries@[0].path@ =~= Seq::<u8>::empty());
        }
        let mut i: usize = 0;
        while i < entries.len()
            invariant
                i <= entries@.len(),
                forall|j: int| 0 <= j < i ==> (#[trigger] entries@[j]).wf(),
            decreases entries@.len() - i,
        {
            let e = &entries[i];
            if e.dir && e.data.len() != 0 {
                proof {
                    assert(!entries@[i as int].wf());
                }
                return None;
            }
            if !((e.data.len() as u64) <= 0x7fff_ffff_ffff_ffffu64) {
                proof {
                    assert(!entries@[i as int].wf());
                }
                return None;
            }
            if e.path.len() > 0 {
                let comps = split_path(&e.path);
                let mut c: usize = 0;
                while c < comps.len()
                    invariant
                        c <= comps@.len(),
                        views_of(comps@) == split_bytes(entries@[i as int].path@),
                        views_of(comps@).len() == comps@.len(),
                        i < entries@.len(),
                        entries@[i as int].path@.len() > 0,
                        forall|m: int|
                            0 <= m < c ==> valid_comp(#[trigger] views_of(comps@)[m]),
                    decreases comps@.len() - c,
                {
                    proof {
                        assert(views_of(comps@)[c as int] == comps@[c as int]@);
                    }
                    let cc = &comps[c];
                    if cc.len() == 0 {
                        proof {
                            assert(!valid_comp(split_bytes(entries@[i as int].path@)[c as int]));
                            assert(!valid_rel_path(entries@[i as int].path@));
                            assert(!entries@[i as int].wf());
                        }
                        return None;
                    }
                    if cc.len() == 1 && cc[0] == crate::bytes::DOT {
                        proof {
                            assert(comps@[c as int]@ =~= seq![crate::bytes::DOT]);
                            assert(!valid_comp(split_bytes(entries@[i as int].path@)[c as int]));
                            assert(!valid_rel_path(entries@[i as int].path@));
                            assert(!entries@[i as int].wf());
                        }
                        return None;
                    }
                    if cc.len() == 2 && cc[0] == crate::bytes::DOT && cc[1] == crate::bytes::DOT {
                        proof {
                            assert(comps@[c as int]@ =~= seq![crate::bytes::DOT,
                                crate::bytes::DOT]);
                            assert(!valid_comp(split_bytes(entries@[i as int].path@)[c as int]));
                            assert(!valid_rel_path(entries@[i as int].path@));
                            assert(!entries@[i as int].wf());
                        }
                        return None;
                    }
                    proof {
                        if comps@[c as int]@ == seq![crate::bytes::DOT] {
                            assert(comps@[c as int]@.len() == 1);
                            assert(comps@[c as int]@[0] == crate::bytes::DOT);
                        }
                        if comps@[c as int]@ == seq![crate::bytes::DOT, crate::bytes::DOT] {
                            assert(comps@[c as int]@.len() == 2);
                            assert(comps@[c as int]@[0] == crate::bytes::DOT);
                            assert(comps@[c as int]@[1] == crate::bytes::DOT);
                        }
                    }
                    c += 1;
                }
                proof {
                    assert(forall|m: int|
                        0 <= m < split_bytes(entries@[i as int].path@).len() ==> valid_comp(
                            #[trigger] split_bytes(entries@[i as int].path@)[m],
                        ));
                }
            }
            proof {
                assert(entries@[i as int].wf());
            }
            i += 1;
        }
        let mut j: usize = 1;
        while j < entries.len()
            invariant
                1 <= j <= entries@.len(),
                forall|m: int|
                    0 <= m < j - 1 ==> lex_lt(
                        (#[trigger] entries@[m]).path@,
                        entries@[m + 1].path@,
                    ),
            decreases entries@.len() - j,
        {
            if !bytes_lt(&entries[j - 1].path, &entries[j].path) {
                return None;
            }
            j += 1;
        }
        Some(Catalog { entries })
    }
}

} // verus!
