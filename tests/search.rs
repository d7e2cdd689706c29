use pixa_bip39::distance::levenshtein_distance;
use pixa_bip39::score::fuzzy_score;
use pixa_bip39::{parse_language, search_mnemonic_words, Language, SearchError};

fn chars(s: &str) -> Vec<char> {
    s.chars().collect()
}

#[test]
fn exact_match_ranks_first() {
    let r = search_mnemonic_words("abandon", "english", 3).unwrap();
    assert_eq!(r.len(), 3);
    assert_eq!(r[0], "abandon");
}

#[test]
fn zero_results_requested() {
    let r = search_mnemonic_words("aban", "english", 0).unwrap();
    assert!(r.is_empty());
}

#[test]
fn results_never_exceed_cap() {
    for k in [1usize, 2, 5, 17] {
        let r = search_mnemonic_words("ca", "english", k).unwrap();
        assert!(r.len() <= k);
    }
}

#[test]
fn prefix_matches_by_length_then_alphabet() {
    let r = search_mnemonic_words("ab", "english", 5).unwrap();
    assert_eq!(r, vec!["able", "about", "above", "abuse", "absent"]);
}

#[test]
fn query_case_is_ignored() {
    let a = search_mnemonic_words("ABAN", "English", 4).unwrap();
    let b = search_mnemonic_words("aban", "english", 4).unwrap();
    assert_eq!(a, b);
    assert_eq!(a[0], "abandon");
}

#[test]
fn empty_query_rejected() {
    assert_eq!(search_mnemonic_words("", "english", 10), Err(SearchError::EmptyQuery));
    assert_eq!(search_mnemonic_words("   ", "english", 10), Err(SearchError::EmptyQuery));
}

#[test]
fn empty_query_checked_before_language() {
    assert_eq!(search_mnemonic_words(" ", "klingon", 10), Err(SearchError::EmptyQuery));
}

#[test]
fn unsupported_language_in_search() {
    assert_eq!(
        search_mnemonic_words("abc", "klingon", 5),
        Err(SearchError::UnsupportedLanguage)
    );
}

#[test]
fn other_language_lists_are_searched() {
    let r = search_mnemonic_words("tabaco", "spanish", 1).unwrap();
    assert_eq!(r, vec!["tabaco"]);
    assert_eq!(fuzzy_score("abaco", "a\u{301}baco"), 290);
    let r = search_mnemonic_words("abeille", "french", 1).unwrap();
    assert_eq!(r, vec!["abeille"]);
}

#[test]
fn language_tags_ignore_case() {
    assert_eq!(parse_language("ENGLISH"), Some(Language::English));
    assert_eq!(parse_language("Japanese"), Some(Language::Japanese));
    assert_eq!(parse_language("klingon"), None);
    assert_eq!(parse_language(""), None);
}

#[test]
fn edit_distance_values() {
    assert_eq!(levenshtein_distance(&chars("kitten"), &chars("sitting")), 3);
    assert_eq!(levenshtein_distance(&chars(""), &chars("abc")), 3);
    assert_eq!(levenshtein_distance(&chars("abc"), &chars("")), 3);
    assert_eq!(levenshtein_distance(&chars("same"), &chars("same")), 0);
    assert_eq!(levenshtein_distance(&chars("ab"), &chars("ba")), 2);
}

#[test]
fn score_tiers() {
    assert_eq!(fuzzy_score("abandon", "abandon"), 1000);
    assert_eq!(fuzzy_score("ABANDON", "abandon"), 1000);
    assert_eq!(fuzzy_score("aban", "abandon"), 897);
    assert_eq!(fuzzy_score("band", "abandon"), 499);
    assert_eq!(fuzzy_score("don", "abandon"), 496);
    assert_eq!(fuzzy_score("abandun", "abandon"), 290);
    assert_eq!(fuzzy_score("xyz", "abandon"), 0);
}

#[test]
fn score_counts_utf8_bytes() {
    assert_eq!(fuzzy_score("\u{e9}", "\u{e9}a"), 899);
    assert_eq!(fuzzy_score("a", "\u{e9}a"), 498);
}

#[test]
fn fuzzy_threshold_edges() {
    // "abcd" vs "abxy": distance 2, limit 4 / 2 + 1 = 3.
    assert_eq!(fuzzy_score("abcd", "abxy"), 280);
    // "abcd" vs "wxyz": distance 4 is over the limit.
    assert_eq!(fuzzy_score("abcd", "wxyz"), 0);
}

#[test]
fn mixed_case_query_keeps_order() {
    // "about", "above" and "abuse" share the score 897 and keep alphabetical order.
    let r = search_mnemonic_words("AB", "English", 4).unwrap();
    assert_eq!(r, vec!["able", "about", "above", "abuse"]);
}
