//! Ordering of scored matches: higher score first, then alphabetical.

use vstd::prelude::*;
use vstd::multiset::Multiset;
use crate::text::texts;

verus! {

broadcast use vstd::seq_lib::group_to_multiset_ensures;

/// Lexicographic order on characters, compared by code point (byte order in UTF-8).
pub open spec fn lex_lt(a: Seq<char>, b: Seq<char>) -> bool
    decreases a.len(),
{
    if a.len() == 0 {
        b.len() > 0
    } else if b.len() == 0 {
        false
    } else if a[0] != b[0] {
        (a[0] as u32) < (b[0] as u32)
    } else {
        lex_lt(a.drop_first(), b.drop_first())
    }
}

pub proof fn lemma_lex_lt_irreflexive(a: Seq<char>)
    ensures
        !lex_lt(a, a),
    decreases a.len(),
{
    if a.len() > 0 {
        lemma_lex_lt_irreflexive(a.drop_first());
    }
}

pub proof fn lemma_lex_lt_transitive(a: Seq<char>, b: Seq<char>, c: Seq<char>)
    requires
        lex_lt(a, b),
        lex_lt(b, c),
    ensures
        lex_lt(a, c),
    decreases a.len(),
{
    if a.len() > 0 && b.len() > 0 && c.len() > 0 && a[0] == b[0] && b[0] == c[0] {
        lemma_lex_lt_transitive(a.drop_first(), b.drop_first(), c.drop_first());
    }
}

/// A match: the index of a word in its list, and its score.
pub type Scored = (usize, i128);

/// Whether match `x` goes before match `y`, where `keys` holds the text that each
/// index is ordered by: a higher score first, and for equal scores the text that
/// comes first alphabetically.
pub open spec fn ranks_before(x: Scored, y: Scored, keys: Seq<Seq<char>>) -> bool {
    x.1 > y.1 || (x.1 == y.1 && lex_lt(keys[x.0 as int], keys[y.0 as int]))
}

/// Whether no match in `s` goes before one that stands ahead of it.
pub open spec fn ranked(s: Seq<Scored>, keys: Seq<Seq<char>>) -> bool {
    forall|i: int, j: int| 0 <= i < j < s.len() ==> !ranks_before(s[j], s[i], keys)
}

proof fn lemma_ranks_before_transitive(x: Scored, y: Scored, z: Scored, keys: Seq<Seq<char>>)
    requires
        ranks_before(x, y, keys),
        ranks_before(y, z, keys),
    ensures
        ranks_before(x, z, keys),
{
    if x.1 == y.1 && y.1 == z.1 {
        lemma_lex_lt_transitive(keys[x.0 as int], keys[y.0 as int], keys[z.0 as int]);
    }
}

proof fn lemma_ranks_before_irreflexive(x: Scored, keys: Seq<Seq<char>>)
    ensures
        !ranks_before(x, x, keys),
{
    lemma_lex_lt_irreflexive(keys[x.0 as int]);
}

/// Whether `a` comes strictly before `b` alphabetically.
pub fn lex_less(a: &str, b: &str) -> (r: bool)
    ensures
        r == lex_lt(a@, b@),
{
    let na = a.unicode_len();
    let nb = b.unicode_len();
    let mut i: usize = 0;
    assert(a@.skip(0) =~= a@);
    assert(b@.skip(0) =~= b@);
    while i < na && i < nb
        invariant
            na == a@.len(),
            nb == b@.len(),
            i <= na,
            i <= nb,
            lex_lt(a@, b@) == lex_lt(a@.skip(i as int), b@.skip(i as int)),
        decreases na - i,
    {
        let ca = a.get_char(i);
        let cb = b.get_char(i);
        assert(a@.skip(i as int)[0] == ca);
        assert(b@.skip(i as int)[0] == cb);
        if ca != cb {
            return (ca as u32) < (cb as u32);
        }
        assert(a@.skip(i as int).drop_first() =~= a@.skip(i + 1));
        assert(b@.skip(i as int).drop_first() =~= b@.skip(i + 1));
        i = i + 1;
    }
    assert(i == na ==> a@.skip(i as int).len() == 0);
    assert(i == nb ==> b@.skip(i as int).len() == 0);
    i == na && i < nb
}

/// Whether match `x` goes before match `y`.
fn ranks_before_exec(x: Scored, y: Scored, keys: &Vec<String>) -> (r: bool)
    requires
        x.0 < keys@.len(),
        y.0 < keys@.len(),
    ensures
        r == ranks_before(x, y, texts(keys@)),
{
    if x.1 != y.1 {
        return x.1 > y.1;
    }
    lex_less(keys[x.0].as_str(), keys[y.0].as_str())
}

/// Places `m` after every match that does not rank below it.
fn insert_ranked(v: &mut Vec<Scored>, m: Scored, keys: &Vec<String>)
    requires
        ranked(old(v)@, texts(keys@)),
        m.0 < keys@.len(),
        forall|k: int| 0 <= k < old(v)@.len() ==> (#[trigger] old(v)@[k]).0 < keys@.len(),
    ensures
        ranked(final(v)@, texts(keys@)),
        final(v)@.to_multiset() == old(v)@.to_multiset().insert(m),
        forall|k: int| 0 <= k < final(v)@.len() ==> (#[trigger] final(v)@[k]).0 < keys@.len(),
{
    let ghost wl = texts(keys@);
    let ghost s = v@;
    let mut p: usize = 0;
    while p < v.len()
        invariant
            v@ == s,
            wl == texts(keys@),
            p <= s.len(),
            m.0 < keys@.len(),
            forall|k: int| 0 <= k < s.len() ==> (#[trigger] s[k]).0 < keys@.len(),
            forall|k: int| 0 <= k < p ==> !ranks_before(m, #[trigger] s[k], wl),
        ensures
            p <= s.len(),
            forall|k: int| 0 <= k < p ==> !ranks_before(m, #[trigger] s[k], wl),
            p < s.len() ==> ranks_before(m, s[p as int], wl),
        decreases s.len() - p,
    {
        if ranks_before_exec(m, v[p], keys) {
            break;
        }
        p = p + 1;
    }
    v.insert(p, m);
    proof {
        let t = v@;
        assert(t =~= s.insert(p as int, m));
        assert forall|i: int, j: int| 0 <= i < j < t.len() implies !ranks_before(
            t[j],
            t[i],
            wl,
        ) by {
            if i < p && j > p {
                assert(t[i] == s[i]);
                assert(t[j] == s[j - 1]);
            } else if i == p && j > p {
                assert(t[j] == s[j - 1]);
                if ranks_before(s[j - 1], m, wl) {
                    lemma_ranks_before_transitive(s[j - 1], m, s[p as int], wl);
                    if j - 1 == p {
                        lemma_ranks_before_irreflexive(s[p as int], wl);
                    }
                }
            }
        }
        assert(t.remove(p as int) =~= s);
        assert(t[p as int] == m);
        assert(t.to_multiset() =~= s.to_multiset().insert(m));
    }
}

/// The matches of `v`, reordered so that each goes before those that rank below it.
pub fn rank_matches(v: Vec<Scored>, keys: &Vec<String>) -> (r: Vec<Scored>)
    requires
        forall|k: int| 0 <= k < v@.len() ==> (#[trigger] v@[k]).0 < keys@.len(),
    ensures
        ranked(r@, texts(keys@)),
        r@.to_multiset() == v@.to_multiset(),
        forall|k: int| 0 <= k < r@.len() ==> (#[trigger] r@[k]).0 < keys@.len(),
{
    let ghost orig = v@;
    let mut rest = v;
    let mut out: Vec<Scored> = Vec::new();
    while rest.len() > 0
        invariant
            ranked(out@, texts(keys@)),
            out@.to_multiset().add(rest@.to_multiset()) == orig.to_multiset(),
            forall|k: int| 0 <= k < rest@.len() ==> (#[trigger] rest@[k]).0 < keys@.len(),
            forall|k: int| 0 <= k < out@.len() ==> (#[trigger] out@[k]).0 < keys@.len(),
        decreases rest@.len(),
    {
        let ghost before = rest@;
        let m = rest.pop().unwrap();
        proof {
            assert(before =~= rest@.push(m));
            assert(before[before.len() - 1] == m);
        }
        let ghost out_before = out@;
        insert_ranked(&mut out, m, keys);
        proof {
            assert(out@.to_multiset().add(rest@.to_multiset()) =~= out_before.to_multiset().add(
                before.to_multiset(),
            ));
        }
    }
    assert(rest@.to_multiset() =~= Multiset::empty());
    assert(out@.to_multiset() =~= orig.to_multiset());
    out
}

} // verus!
