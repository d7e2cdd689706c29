//! Fuzzy search of a language's wordlist.

use vstd::prelude::*;
use crate::language::{language_of_tag, parse_language, word_list, wordlist_of};
use crate::rank::{rank_matches, ranked, ranks_before, Scored};
use crate::score::{fuzzy_score_spec, lemma_only_equal_scores_top, lemma_score_at_most_top, score_lowered};
use crate::text::{blank, chars_of, is_blank, lower_of, lowercase, texts};

verus! {

/// Why a search was refused.
#[derive(Clone, Copy, Debug, PartialEq, Eq, Structural)]
pub enum SearchError {
    /// The query holds nothing but whitespace.
    EmptyQuery,
    /// The language tag names none of the supported languages.
    UnsupportedLanguage,
}

/// The words of `words` that score above zero against `query`, in list order,
/// each with its index and score.
pub open spec fn candidates(query: Seq<char>, words: Seq<Seq<char>>) -> Seq<Scored>
    decreases words.len(),
{
    if words.len() == 0 {
        Seq::empty()
    } else {
        let rest = candidates(query, words.drop_last());
        let s = fuzzy_score_spec(query, words.last());
        if s > 0 {
            rest.push(((words.len() - 1) as usize, s as i128))
        } else {
            rest
        }
    }
}

/// Each word of `words` in lowercase.
pub open spec fn lowered(words: Seq<Seq<char>>) -> Seq<Seq<char>> {
    Seq::new(words.len(), |i: int| lower_of(words[i]))
}

/// Whether `r` is the answer to a search for `query` in `words` that keeps at most
/// `k` words: the matching words ordered by score, highest first, equal scores
/// alphabetically with case ignored, cut after the first `k`.
pub open spec fn is_search_result(
    r: Seq<Seq<char>>,
    query: Seq<char>,
    words: Seq<Seq<char>>,
    k: nat,
) -> bool {
    exists|order: Seq<Scored>|
        order.to_multiset() == candidates(query, words).to_multiset() && ranked(order, lowered(words))
            && r.len() == (if k < order.len() {
            k
        } else {
            order.len()
        }) && forall|i: int| 0 <= i < r.len() ==> r[i] == words[order[i].0 as int]
}

/// The scored matches of `query` among `words`, in list order.
fn collect_candidates(query: &str, words: &Vec<String>, keys: &Vec<String>) -> (r: Vec<Scored>)
    requires
        keys@.len() == words@.len(),
        forall|k: int| 0 <= k < words@.len() ==> (#[trigger] keys@[k])@ == lower_of(words@[k]@),
    ensures
        r@ == candidates(query@, texts(words@)),
        forall|k: int| 0 <= k < r@.len() ==> (#[trigger] r@[k]).0 < words@.len(),
{
    let q = chars_of(lowercase(query).as_str());
    let mut out: Vec<Scored> = Vec::new();
    let mut i: usize = 0;
    proof {
        assert(texts(words@).take(0) =~= Seq::<Seq<char>>::empty());
    }
    while i < words.len()
        invariant
            q@ == lower_of(query@),
            keys@.len() == words@.len(),
            forall|k: int| 0 <= k < words@.len() ==> (#[trigger] keys@[k])@ == lower_of(words@[k]@),
            i <= words@.len(),
            out@ == candidates(query@, texts(words@).take(i as int)),
            forall|k: int| 0 <= k < out@.len() ==> (#[trigger] out@[k]).0 < i,
        decreases words@.len() - i,
    {
        let w = chars_of(keys[i].as_str());
        assert(w@ == lower_of(words@[i as int]@));
        let score = score_lowered(&q, &w);
        proof {
            let ws = texts(words@).take(i + 1);
            assert(ws.drop_last() =~= texts(words@).take(i as int));
            assert(ws.last() == words@[i as int]@);
        }
        if score > 0 {
            out.push((i, score));
        }
        i = i + 1;
    }
    assert(texts(words@).take(words@.len() as int) =~= texts(words@));
    out
}

/// Searches the wordlist of `lang` for words like `query`, case ignored, and
/// returns at most `max_length` of them, best first; equal scores go in
/// alphabetical order of the lowercase words.
pub fn search_mnemonic_words(query: &str, lang: &str, max_length: usize) -> (r: Result<
    Vec<String>,
    SearchError,
>)
    ensures
        blank(query@) ==> r == Err::<Vec<String>, SearchError>(SearchError::EmptyQuery),
        !blank(query@) && language_of_tag(lang@) is None ==> r == Err::<Vec<String>, SearchError>(
            SearchError::UnsupportedLanguage,
        ),
        !blank(query@) && language_of_tag(lang@) is Some ==> r is Ok && is_search_result(
            texts(r->Ok_0@),
            query@,
            wordlist_of(language_of_tag(lang@)->Some_0),
            max_length as nat,
        ),
        r is Ok ==> r->Ok_0@.len() <= max_length,
{
    if is_blank(query) {
        return Err(SearchError::EmptyQuery);
    }
    let language = match parse_language(lang) {
        Some(l) => l,
        None => {
            return Err(SearchError::UnsupportedLanguage);
        },
    };
    let words = word_list(language);
    let mut keys: Vec<String> = Vec::new();
    let mut j: usize = 0;
    while j < words.len()
        invariant
            j <= words@.len(),
            keys@.len() == j,
            forall|k: int| 0 <= k < j ==> (#[trigger] keys@[k])@ == lower_of(words@[k]@),
        decreases words@.len() - j,
    {
        keys.push(lowercase(words[j].as_str()));
        j = j + 1;
    }
    assert(texts(keys@) =~= lowered(texts(words@)));
    let found = collect_candidates(query, &words, &keys);
    let mut order = rank_matches(found, &keys);
    let ghost full = order@;
    order.truncate(max_length);
    let mut out: Vec<String> = Vec::new();
    let mut i: usize = 0;
    while i < order.len()
        invariant
            order@.len() <= full.len(),
            forall|k: int| 0 <= k < order@.len() ==> order@[k] == full[k],
            forall|k: int| 0 <= k < full.len() ==> (#[trigger] full[k]).0 < words@.len(),
            i <= order@.len(),
            out@.len() == i,
            forall|k: int| 0 <= k < i ==> (#[trigger] out@[k])@ == texts(words@)[full[k].0 as int],
        decreases order@.len() - i,
    {
        assert(order@[i as int] == full[i as int]);
        let w = words[order[i].0].clone();
        out.push(w);
        i = i + 1;
    }
    proof {
        assert(texts(out@).len() == out@.len());
        assert(forall|k: int|
            0 <= k < out@.len() ==> texts(out@)[k] == texts(words@)[full[k].0 as int]);
    }
    Ok(out)
}

/// Each match of `candidates` is a word of the list with its score, and each word
/// that scores above zero is among them.
proof fn lemma_candidates(query: Seq<char>, words: Seq<Seq<char>>)
    requires
        words.len() <= usize::MAX,
    ensures
        forall|e: Scored|
            #[trigger] candidates(query, words).contains(e) ==> (e.0 as int) < words.len()
                && e.1 as int == fuzzy_score_spec(query, words[e.0 as int]),
        forall|i: int|
            0 <= i < words.len() && 0 < fuzzy_score_spec(query, words[i]) && fuzzy_score_spec(
                query,
                words[i],
            ) <= 1000 ==> candidates(query, words).contains(
                (i as usize, fuzzy_score_spec(query, words[i]) as i128),
            ),
    decreases words.len(),
{
    if words.len() > 0 {
        let init = words.drop_last();
        lemma_candidates(query, init);
        let rest = candidates(query, init);
        let s = fuzzy_score_spec(query, words.last());
        let c = candidates(query, words);
        lemma_score_at_most_top(lower_of(query), lower_of(words.last()));
        assert forall|e: Scored| #[trigger] c.contains(e) implies (e.0 as int) < words.len()
            && e.1 as int == fuzzy_score_spec(query, words[e.0 as int]) by {
            if rest.contains(e) {
                assert(words[e.0 as int] == init[e.0 as int]);
            } else {
                let j = choose|j: int| 0 <= j < c.len() && c[j] == e;
                assert(j == rest.len());
            }
        }
        assert forall|i: int|
            0 <= i < words.len() && 0 < fuzzy_score_spec(query, words[i]) && fuzzy_score_spec(
                query,
                words[i],
            ) <= 1000 implies c.contains(
            (i as usize, fuzzy_score_spec(query, words[i]) as i128),
        ) by {
            if i < words.len() - 1 {
                assert(words[i] == init[i]);
                let e = (i as usize, fuzzy_score_spec(query, words[i]) as i128);
                let j = choose|j: int| 0 <= j < rest.len() && rest[j] == e;
                assert(c[j] == e);
            } else {
                assert(c[c.len() - 1] == (i as usize, s as i128));
            }
        }
    }
}

/// A search for a word of the list, in any case, puts first a word that is the
/// same as the query once both are lowercase, whenever it keeps any word at all.
pub proof fn lemma_exact_match_first(
    r: Seq<Seq<char>>,
    query: Seq<char>,
    words: Seq<Seq<char>>,
    k: nat,
    idx: int,
)
    requires
        is_search_result(r, query, words, k),
        words.len() <= usize::MAX,
        k >= 1,
        0 <= idx < words.len(),
        lower_of(words[idx]) == lower_of(query),
    ensures
        r.len() >= 1,
        lower_of(r[0]) == lower_of(query),
{
    broadcast use vstd::seq_lib::group_to_multiset_ensures;

    let order = choose|order: Seq<Scored>|
        order.to_multiset() == candidates(query, words).to_multiset() && ranked(order, lowered(words))
            && r.len() == (if k < order.len() {
            k
        } else {
            order.len()
        }) && forall|i: int| 0 <= i < r.len() ==> r[i] == words[order[i].0 as int];
    lemma_candidates(query, words);
    let cands = candidates(query, words);
    let exact: Scored = (idx as usize, 1000i128);
    assert(lower_of(query) == lower_of(words[idx]));
    assert(fuzzy_score_spec(query, words[idx]) == 1000);
    assert(cands.contains(exact));
    assert(order.to_multiset().count(exact) > 0);
    assert(order.contains(exact));
    let j = choose|j: int| 0 <= j < order.len() && order[j] == exact;
    assert(order.len() >= 1);
    let first = order[0];
    assert(order.to_multiset().count(first) > 0);
    assert(cands.contains(first));
    if j > 0 {
        assert(!ranks_before(order[j], order[0], lowered(words)));
    }
    assert(first.1 >= 1000);
    lemma_only_equal_scores_top(lower_of(query), lower_of(words[first.0 as int]));
}

} // verus!
