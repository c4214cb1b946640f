//! Byte-string primitives for slash-separated paths: splitting, joining,
//! equality and lexicographic order, with the lemmas the rest of the
//! crate builds on.

use vstd::prelude::*;

verus! {

/// The path separator byte, `'/'`.
pub const SLASH: u8 = 47;

/// The byte `'.'`.
pub const DOT: u8 = 46;

/// The views of a vector of byte vectors.
pub open spec fn views_of(cs: Seq<Vec<u8>>) -> Seq<Seq<u8>> {
    cs.map_values(|c: Vec<u8>| c@)
}

/// The segments of `s` between separator bytes, in order. The empty
/// sequence splits into one empty segment, and each separator adds a
/// segment, so the result is never empty.
pub open spec fn split_bytes(s: Seq<u8>) -> Seq<Seq<u8>>
    decreases s.len(),
{
    if s.len() == 0 {
        seq![Seq::<u8>::empty()]
    } else if s[0] == SLASH {
        seq![Seq::<u8>::empty()] + split_bytes(s.skip(1))
    } else {
        let rest = split_bytes(s.skip(1));
        seq![seq![s[0]] + rest[0]] + rest.skip(1)
    }
}

pub proof fn lemma_split_nonempty(s: Seq<u8>)
    ensures
        split_bytes(s).len() >= 1,
    decreases s.len(),
{
    if s.len() != 0 {
        lemma_split_nonempty(s.skip(1));
    }
}

/// The segments interleaved with separator bytes.
pub open spec fn join_bytes(cs: Seq<Seq<u8>>) -> Seq<u8>
    decreases cs.len(),
{
    if cs.len() == 0 {
        Seq::<u8>::empty()
    } else if cs.len() == 1 {
        cs[0]
    } else {
        cs[0] + seq![SLASH] + join_bytes(cs.skip(1))
    }
}

pub proof fn lemma_join_push(cs: Seq<Seq<u8>>, x: Seq<u8>)
    requires
        cs.len() >= 1,
    ensures
        join_bytes(cs.push(x)) == join_bytes(cs) + seq![SLASH] + x,
    decreases cs.len(),
{
    if cs.len() == 1 {
        assert(cs.push(x).skip(1) =~= seq![x]);
        assert(join_bytes(seq![x]) == x);
        assert(join_bytes(cs.push(x)) == cs[0] + seq![SLASH] + x);
    } else {
        assert(cs.push(x).skip(1) =~= cs.skip(1).push(x));
        lemma_join_push(cs.skip(1), x);
        assert(join_bytes(cs.push(x)) == cs[0] + seq![SLASH] + (join_bytes(cs.skip(1))
            + seq![SLASH] + x));
        assert(cs[0] + seq![SLASH] + (join_bytes(cs.skip(1)) + seq![SLASH] + x) =~= (cs[0]
            + seq![SLASH] + join_bytes(cs.skip(1))) + seq![SLASH] + x);
    }
}

/// Joining the segments of a split gives back the bytes that were
/// split.
pub proof fn lemma_join_split(s: Seq<u8>)
    ensures
        join_bytes(split_bytes(s)) == s,
    decreases s.len(),
{
    if s.len() == 0 {
        assert(join_bytes(split_bytes(s)) =~= s);
    } else if s[0] == SLASH {
        let t = split_bytes(s.skip(1));
        lemma_split_nonempty(s.skip(1));
        lemma_join_split(s.skip(1));
        assert((seq![Seq::<u8>::empty()] + t).skip(1) =~= t);
        assert(join_bytes(split_bytes(s)) == Seq::<u8>::empty() + seq![SLASH] + join_bytes(t));
        assert(Seq::<u8>::empty() + seq![SLASH] + s.skip(1) =~= s);
    } else {
        let t = split_bytes(s.skip(1));
        lemma_split_nonempty(s.skip(1));
        lemma_join_split(s.skip(1));
        let first = seq![s[0]] + t[0];
        assert((seq![first] + t.skip(1))[0] == first);
        if t.len() == 1 {
            assert(split_bytes(s) =~= seq![first]);
            assert(join_bytes(split_bytes(s)) == first);
            assert(t =~= seq![t[0]]);
            assert(join_bytes(t) == t[0]);
            assert(seq![s[0]] + t[0] =~= s);
        } else {
            assert((seq![first] + t.skip(1)).skip(1) =~= t.skip(1));
            assert(join_bytes(split_bytes(s)) == first + seq![SLASH] + join_bytes(t.skip(1)));
            assert(join_bytes(t) == t[0] + seq![SLASH] + join_bytes(t.skip(1)));
            assert(first + seq![SLASH] + join_bytes(t.skip(1)) =~= seq![s[0]] + (t[0]
                + seq![SLASH] + join_bytes(t.skip(1))));
            assert(seq![s[0]] + s.skip(1) =~= s);
        }
    }
}

/// A join is at least as long as its first segment.
pub proof fn lemma_join_first_len(cs: Seq<Seq<u8>>)
    requires
        cs.len() >= 1,
    ensures
        join_bytes(cs).len() >= cs[0].len(),
{
}

/// Strict lexicographic order on byte sequences, with a proper prefix
/// ordered before its extensions.
pub open spec fn lex_lt(a: Seq<u8>, b: Seq<u8>) -> bool
    decreases a.len(),
{
    b.len() > 0 && (a.len() == 0 || a[0] < b[0] || (a[0] == b[0] && lex_lt(
        a.skip(1),
        b.skip(1),
    )))
}

pub proof fn lemma_lex_lt_irrefl(a: Seq<u8>)
    ensures
        !lex_lt(a, a),
    decreases a.len(),
{
    if a.len() > 0 {
        lemma_lex_lt_irrefl(a.skip(1));
    }
}

pub proof fn lemma_lex_lt_trans(a: Seq<u8>, b: Seq<u8>, c: Seq<u8>)
    requires
        lex_lt(a, b),
        lex_lt(b, c),
    ensures
        lex_lt(a, c),
    decreases a.len() + b.len() + c.len(),
{
    if a.len() > 0 && b.len() > 0 && a[0] == b[0] && b[0] == c[0] {
        lemma_lex_lt_trans(a.skip(1), b.skip(1), c.skip(1));
    }
}

/// Dropping an equal prefix of both sides does not change the order.
pub proof fn lemma_lex_lt_common(a: Seq<u8>, b: Seq<u8>, i: int)
    requires
        0 <= i <= a.len(),
        i <= b.len(),
        a.take(i) == b.take(i),
    ensures
        lex_lt(a, b) == lex_lt(a.skip(i), b.skip(i)),
    decreases i,
{
    if i == 0 {
        assert(a.skip(0) =~= a);
        assert(b.skip(0) =~= b);
    } else {
        assert(a.take(i)[0] == a[0]);
        assert(b.take(i)[0] == b[0]);
        assert(a[0] == b[0]);
        assert(a.skip(1).take(i - 1) =~= a.take(i).skip(1));
        assert(b.skip(1).take(i - 1) =~= b.take(i).skip(1));
        lemma_lex_lt_common(a.skip(1), b.skip(1), i - 1);
        assert(a.skip(1).skip(i - 1) =~= a.skip(i));
        assert(b.skip(1).skip(i - 1) =~= b.skip(i));
    }
}

/// Prepending the same bytes to both sides does not change the order.
pub proof fn lemma_lex_lt_prepend(p: Seq<u8>, a: Seq<u8>, b: Seq<u8>)
    ensures
        lex_lt(p + a, p + b) == lex_lt(a, b),
{
    assert((p + a).take(p.len() as int) =~= p);
    assert((p + b).take(p.len() as int) =~= p);
    lemma_lex_lt_common(p + a, p + b, p.len() as int);
    assert((p + a).skip(p.len() as int) =~= a);
    assert((p + b).skip(p.len() as int) =~= b);
}

/// Exact equality of two byte vectors.
pub fn bytes_eq(a: &Vec<u8>, b: &Vec<u8>) -> (r: bool)
    ensures
        r == (a@ == b@),
{
    if a.len() != b.len() {
        return false;
    }
    let mut i: usize = 0;
    while i < a.len()
        invariant
            i <= a@.len(),
            a@.len() == b@.len(),
            forall|j: int| 0 <= j < i ==> a@[j] == b@[j],
        decreases a@.len() - i,
    {
        if a[i] != b[i] {
            return false;
        }
        i += 1;
    }
    proof {
        assert(a@ =~= b@);
    }
    true
}

/// Decides `lex_lt` on two byte vectors.
pub fn bytes_lt(a: &Vec<u8>, b: &Vec<u8>) -> (r: bool)
    ensures
        r == lex_lt(a@, b@),
{
    let mut i: usize = 0;
    loop
        invariant
            i <= a@.len(),
            i <= b@.len(),
            forall|j: int| 0 <= j < i ==> a@[j] == b@[j],
        decreases a@.len() - i,
    {
        proof {
            assert(a@.take(i as int) =~= b@.take(i as int));
            lemma_lex_lt_common(a@, b@, i as int);
        }
        if i >= a.len() || i >= b.len() {
            return a.len() < b.len();
        }
        if a[i] < b[i] {
            return true;
        }
        if a[i] > b[i] {
            return false;
        }
        i += 1;
    }
}

/// Copies the bytes of `v` from `start` up to `end`.
pub fn copy_range(v: &Vec<u8>, start: usize, end: usize) -> (r: Vec<u8>)
    requires
        start <= end <= v@.len(),
    ensures
        r@ == v@.subrange(start as int, end as int),
{
    let mut out: Vec<u8> = Vec::new();
    let mut i: usize = start;
    proof {
        assert(out@ =~= v@.subrange(start as int, start as int));
    }
    while i < end
        invariant
            start <= i <= end <= v@.len(),
            out@ == v@.subrange(start as int, i as int),
        decreases end - i,
    {
        proof {
            assert(v@.subrange(start as int, i as int + 1) =~= v@.subrange(
                start as int,
                i as int,
            ).push(v@[i as int]));
        }
        out.push(v[i]);
        i += 1;
    }
    out
}

/// Splits a byte vector at separator bytes.
pub fn split_path(s: &Vec<u8>) -> (r: Vec<Vec<u8>>)
    ensures
        views_of(r@) == split_bytes(s@),
{
    let mut out: Vec<Vec<u8>> = Vec::new();
    let mut cur: Vec<u8> = Vec::new();
    let mut i: usize = 0;
    proof {
        lemma_split_nonempty(s@);
        assert(s@.skip(0) =~= s@);
        assert(views_of(out@) =~= Seq::<Seq<u8>>::empty());
        assert(cur@ + split_bytes(s@)[0] =~= split_bytes(s@)[0]);
        assert(Seq::<Seq<u8>>::empty() + seq![split_bytes(s@)[0]] + split_bytes(s@).skip(1)
            =~= split_bytes(s@));
    }
    while i < s.len()
        invariant
            i <= s@.len(),
            split_bytes(s@) == views_of(out@) + seq![cur@ + split_bytes(s@.skip(i as int))[0]]
                + split_bytes(s@.skip(i as int)).skip(1),
        decreases s@.len() - i,
    {
        let ghost f = split_bytes(s@.skip(i as int));
        let ghost g = split_bytes(s@.skip(i as int + 1));
        proof {
            lemma_split_nonempty(s@.skip(i as int));
            lemma_split_nonempty(s@.skip(i as int + 1));
            assert(s@.skip(i as int).len() > 0);
            assert(s@.skip(i as int)[0] == s@[i as int]);
            assert(s@.skip(i as int).skip(1) =~= s@.skip(i as int + 1));
        }
        let c = s[i];
        if c == SLASH {
            proof {
                assert(f == seq![Seq::<u8>::empty()] + g);
                assert(f[0] =~= Seq::<u8>::empty());
                assert(f.skip(1) =~= g);
                assert(cur@ + f[0] =~= cur@);
                assert(g =~= seq![g[0]] + g.skip(1));
                assert(views_of(out@.push(cur)) =~= views_of(out@) + seq![cur@]);
                assert(views_of(out@) + seq![cur@ + f[0]] + f.skip(1) =~= (views_of(out@)
                    + seq![cur@]) + seq![Seq::<u8>::empty() + g[0]] + g.skip(1));
            }
            out.push(cur);
            cur = Vec::new();
        } else {
            proof {
                assert(f == seq![seq![s@[i as int]] + g[0]] + g.skip(1));
                assert(f[0] == seq![s@[i as int]] + g[0]);
                assert(f.skip(1) =~= g.skip(1));
                assert(cur@.push(c) + g[0] =~= cur@ + f[0]);
            }
            cur.push(c);
        }
        i += 1;
    }
    proof {
        assert(s@.skip(i as int) =~= Seq::<u8>::empty());
        let f = split_bytes(s@.skip(i as int));
        assert(f =~= seq![Seq::<u8>::empty()]);
        assert(f[0] =~= Seq::<u8>::empty());
        assert(cur@ + f[0] =~= cur@);
        assert(views_of(out@.push(cur)) =~= views_of(out@) + seq![cur@]);
        assert(views_of(out@) + seq![cur@ + f[0]] + f.skip(1) =~= views_of(out@) + seq![cur@]);
    }
    out.push(cur);
    out
}

/// Joins segments with separator bytes.
pub fn join_path(cs: &Vec<Vec<u8>>) -> (r: Vec<u8>)
    ensures
        r@ == join_bytes(views_of(cs@)),
{
    let mut out: Vec<u8> = Vec::new();
    let mut k: usize = 0;
    proof {
        assert(views_of(cs@).take(0) =~= Seq::<Seq<u8>>::empty());
    }
    while k < cs.len()
        invariant
            k <= cs@.len(),
            out@ == join_bytes(views_of(cs@).take(k as int)),
        decreases cs@.len() - k,
    {
        let ghost m = views_of(cs@);
        let ghost base = if k > 0 { out@ + seq![SLASH] } else { out@ };
        if k > 0 {
            out.push(SLASH);
        }
        let mut j: usize = 0;
        while j < cs[k].len()
            invariant
                j <= cs@[k as int]@.len(),
                k < cs@.len(),
                out@ == base + cs@[k as int]@.take(j as int),
        decreases cs@[k as int]@.len() - j,
        {
            proof {
                assert(base + cs@[k as int]@.take(j as int + 1) =~= (base + cs@[
                    k as int
                ]@.take(j as int)).push(cs@[k as int]@[j as int]));
            }
            let b = cs[k][j];
            out.push(b);
            j += 1;
        }
        proof {
            assert(cs@[k as int]@.take(j as int) =~= cs@[k as int]@);
            assert(m.take(k as int + 1) =~= m.take(k as int).push(m[k as int]));
            if k > 0 {
                lemma_join_push(m.take(k as int), m[k as int]);
                assert(out@ =~= join_bytes(m.take(k as int)) + seq![SLASH] + m[k as int]);
            } else {
                assert(m.take(1) =~= seq![m[0]]);
                assert(join_bytes(seq![m[0]]) == m[0]);
                assert(out@ =~= m[0]);
            }
        }
        k += 1;
    }
    proof {
        assert(views_of(cs@).take(k as int) =~= views_of(cs@));
    }
    out
}

} // verus!
