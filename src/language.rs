//! The wordlist languages, chosen by name without regard to case.

use vstd::prelude::*;
use crate::text::{lowercase, lower_of, texts};

verus! {

/// One of the supported wordlist languages.
#[derive(Clone, Copy, Debug, PartialEq, Eq, Structural)]
pub enum Language {
    English,
    Czech,
    French,
    Italian,
    Japanese,
    Korean,
    Portuguese,
    Spanish,
}

/// The language whose lowercase name is exactly `name`, if any.
pub open spec fn language_named(name: Seq<char>) -> Option<Language> {
    if name == "english"@ {
        Some(Language::English)
    } else if name == "czech"@ {
        Some(Language::Czech)
    } else if name == "french"@ {
        Some(Language::French)
    } else if name == "italian"@ {
        Some(Language::Italian)
    } else if name == "japanese"@ {
        Some(Language::Japanese)
    } else if name == "korean"@ {
        Some(Language::Korean)
    } else if name == "portuguese"@ {
        Some(Language::Portuguese)
    } else if name == "spanish"@ {
        Some(Language::Spanish)
    } else {
        None
    }
}

/// The language that `tag` names, with case ignored.
pub open spec fn language_of_tag(tag: Seq<char>) -> Option<Language> {
    language_named(lower_of(tag))
}

/// Whether the characters of `a` are exactly those of `b`.
fn str_eq(a: &str, b: &str) -> (r: bool)
    ensures
        r == (a@ == b@),
{
    let n = a.unicode_len();
    if n != b.unicode_len() {
        return false;
    }
    let mut i: usize = 0;
    while i < n
        invariant
            n == a@.len(),
            n == b@.len(),
            i <= n,
            forall|k: int| 0 <= k < i ==> a@[k] == b@[k],
        decreases n - i,
    {
        if a.get_char(i) != b.get_char(i) {
            return false;
        }
        i = i + 1;
    }
    assert(a@ =~= b@);
    true
}

/// Reads a language tag, ignoring case: `"English"` and `"english"` both name English.
pub fn parse_language(tag: &str) -> (r: Option<Language>)
    ensures
        r == language_of_tag(tag@),
{
    let lowered = lowercase(tag);
    let name = lowered.as_str();
    if str_eq(name, "english") {
        Some(Language::English)
    } else if str_eq(name, "czech") {
        Some(Language::Czech)
    } else if str_eq(name, "french") {
        Some(Language::French)
    } else if str_eq(name, "italian") {
        Some(Language::Italian)
    } else if str_eq(name, "japanese") {
        Some(Language::Japanese)
    } else if str_eq(name, "korean") {
        Some(Language::Korean)
    } else if str_eq(name, "portuguese") {
        Some(Language::Portuguese)
    } else if str_eq(name, "spanish") {
        Some(Language::Spanish)
    } else {
        None
    }
}

/// A name for the words of the standard mnemonic wordlist of `lang`, in list order.
pub uninterp spec fn wordlist_of(lang: Language) -> Seq<Seq<char>>;

/// Relies on `bip39::Language::word_list`: the 2048 words of the language's list,
/// in list order.
#[verifier::external_body]
pub(crate) fn word_list(lang: Language) -> (r: Vec<String>)
    ensures
        r@.len() == 2048,
        texts(r@) == wordlist_of(lang),
{
    let l = match lang {
        Language::English => bip39::Language::English,
        Language::Czech => bip39::Language::Czech,
        Language::French => bip39::Language::French,
        Language::Italian => bip39::Language::Italian,
        Language::Japanese => bip39::Language::Japanese,
        Language::Korean => bip39::Language::Korean,
        Language::Portuguese => bip39::Language::Portuguese,
        Language::Spanish => bip39::Language::Spanish,
    };
    l.word_list().iter().map(|w| w.to_string()).collect()
}

} // verus!
