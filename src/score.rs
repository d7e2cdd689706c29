//! How well a wordlist entry matches a query.

use vstd::prelude::*;
use crate::distance::{edit_distance, levenshtein_distance};
use crate::text::{byte_len, byte_len_of_prefix, chars_of, lower_of, lowercase};

verus! {

/// Whether `q` occurs in `w` starting at character `i`.
pub open spec fn occurs_at(q: Seq<char>, w: Seq<char>, i: int) -> bool {
    0 <= i && i + q.len() <= w.len() && w.subrange(i, i + q.len()) == q
}

/// Whether `i` is the first character at which `q` occurs in `w`.
pub open spec fn first_at(q: Seq<char>, w: Seq<char>, i: int) -> bool {
    occurs_at(q, w, i) && forall|j: int| 0 <= j < i ==> !occurs_at(q, w, j)
}

/// The larger of two numbers.
pub open spec fn max_nat(a: nat, b: nat) -> nat {
    if a >= b {
        a
    } else {
        b
    }
}

/// The score of `w` against `q`, both already lowercase; lengths and positions
/// count UTF-8 bytes. Zero means that `w` is no match.
pub open spec fn score_of(q: Seq<char>, w: Seq<char>) -> int {
    if q == w {
        1000
    } else if occurs_at(q, w, 0) {
        900 - (byte_len(w) - byte_len(q))
    } else if exists|i: int| occurs_at(q, w, i) {
        let i = choose|i: int| first_at(q, w, i);
        500 - byte_len(w.take(i))
    } else {
        let d = edit_distance(q, w);
        if d > max_nat(byte_len(q), byte_len(w)) / 2 + 1 {
            0
        } else {
            300 - 10 * d
        }
    }
}

/// The score of `word` against `query`, case ignored.
pub open spec fn fuzzy_score_spec(query: Seq<char>, word: Seq<char>) -> int {
    score_of(lower_of(query), lower_of(word))
}

/// Whether `q` occurs in `w` starting at `i`.
fn occurs_at_exec(q: &Vec<char>, w: &Vec<char>, i: usize) -> (r: bool)
    requires
        i <= w@.len(),
    ensures
        r == occurs_at(q@, w@, i as int),
{
    if q.len() > w.len() - i {
        return false;
    }
    let mut k: usize = 0;
    while k < q.len()
        invariant
            i + q@.len() <= w.len(),
            k <= q@.len(),
            forall|t: int| 0 <= t < k ==> w@[i + t] == q@[t],
        decreases q@.len() - k,
    {
        if w[i + k] != q[k] {
            assert(w@.subrange(i as int, i + q@.len())[k as int] != q@[k as int]);
            return false;
        }
        k = k + 1;
    }
    assert(w@.subrange(i as int, i + q@.len()) =~= q@);
    true
}

/// The first character at which `q` occurs in `w`, if it occurs.
fn find_first(q: &Vec<char>, w: &Vec<char>) -> (r: Option<usize>)
    ensures
        r is Some ==> first_at(q@, w@, r->Some_0 as int),
        r is None ==> forall|i: int| !occurs_at(q@, w@, i),
{
    if q.len() > w.len() {
        return None;
    }
    let last = w.len() - q.len();
    let mut i: usize = 0;
    while i <= last
        invariant
            last == w@.len() - q@.len(),
            i <= last + 1,
            forall|j: int| 0 <= j < i ==> !occurs_at(q@, w@, j),
        decreases last + 1 - i,
    {
        if occurs_at_exec(q, w, i) {
            return Some(i);
        }
        if i == last {
            return None;
        }
        i = i + 1;
    }
    None
}

/// The score of `w` against `q`, both already lowercase.
pub fn score_lowered(q: &Vec<char>, w: &Vec<char>) -> (r: i128)
    ensures
        r == score_of(q@, w@),
{
    let bq = byte_len_of_prefix(q, q.len());
    let bw = byte_len_of_prefix(w, w.len());
    proof {
        assert(q@.take(q@.len() as int) =~= q@);
        assert(w@.take(w@.len() as int) =~= w@);
    }
    if crate::text::chars_eq(q, w) {
        return 1000;
    }
    if occurs_at_exec(q, w, 0) {
        return 900 - (bw as i128 - bq as i128);
    }
    match find_first(q, w) {
        Some(i) => {
            let before = byte_len_of_prefix(w, i);
            proof {
                let c = choose|j: int| first_at(q@, w@, j);
                assert(first_at(q@, w@, c));
                assert(c == i as int) by {
                    if c < i {
                    } else if c > i {
                    }
                }
            }
            500 - before as i128
        },
        None => {
            let d = levenshtein_distance(q, w);
            let longest = if bq >= bw {
                bq
            } else {
                bw
            };
            if d > longest / 2 + 1 {
                0
            } else {
                300 - 10 * (d as i128)
            }
        },
    }
}

/// The score of `word` against `query`, case ignored: 1000 for the same word; for
/// a word that starts with the query, 900 less the extra bytes; for a word that
/// holds it further on, 500 less the byte position of its first occurrence;
/// otherwise 300 less ten per edit, or 0 where the edits exceed half the longer
/// length plus one.
pub fn fuzzy_score(query: &str, word: &str) -> (r: i128)
    ensures
        r == fuzzy_score_spec(query@, word@),
{
    let q = chars_of(lowercase(query).as_str());
    let w = chars_of(lowercase(word).as_str());
    score_lowered(&q, &w)
}

/// The UTF-8 length of `s` is that of its first `n` characters plus at least one
/// byte for each character after them.
proof fn lemma_byte_len_prefix(s: Seq<char>, n: int)
    requires
        0 <= n <= s.len(),
    ensures
        byte_len(s) >= byte_len(s.take(n)) + (s.len() - n),
    decreases s.len(),
{
    if n < s.len() {
        lemma_byte_len_prefix(s.drop_last(), n);
        assert(s.drop_last().take(n) =~= s.take(n));
    } else {
        assert(s.take(n) =~= s);
    }
}

/// No word scores above 1000.
pub proof fn lemma_score_at_most_top(q: Seq<char>, w: Seq<char>)
    ensures
        score_of(q, w) <= 1000,
{
    if q != w && occurs_at(q, w, 0) {
        assert(w.take(q.len() as int) =~= w.subrange(0, q.len() as int));
        lemma_byte_len_prefix(w, q.len() as int);
    }
}

/// Only a word that is the query itself scores 1000 or more.
pub proof fn lemma_only_equal_scores_top(q: Seq<char>, w: Seq<char>)
    requires
        score_of(q, w) >= 1000,
    ensures
        q == w,
{
    if q != w && occurs_at(q, w, 0) {
        assert(w.take(q.len() as int) =~= w.subrange(0, q.len() as int));
        if w.len() == q.len() {
            assert(w =~= q);
        }
        lemma_byte_len_prefix(w, q.len() as int);
    }
}

} // verus!
