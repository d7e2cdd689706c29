//! Mnemonic phrases: their sizes, how they are made from entropy, and how they are read.

use vstd::prelude::*;
use crate::language::{language_of_tag, parse_language, Language};

verus! {

#[verifier::external_type_specification]
#[verifier::external_body]
pub struct ExMnemonic(bip39::Mnemonic);

#[verifier::external_type_specification]
#[verifier::external_body]
pub struct ExCodecError(bip39::Error);

#[verifier::external_type_specification]
#[verifier::external_body]
pub struct ExRandError(rand::Error);

/// Why a mnemonic could not be made or read.
#[derive(Clone, Copy, Debug, PartialEq, Eq, Structural)]
pub enum MnemonicError {
    /// The language tag names none of the supported languages.
    UnsupportedLanguage,
    /// The word count is not 12, 15, 18, 21 or 24.
    InvalidWordCount,
    /// The operating system gave no random bytes.
    EntropyUnavailable,
    /// The codec refused the entropy.
    CodecFailure,
    /// The phrase is not a valid mnemonic: an unknown word, a bad count or a bad checksum.
    InvalidMnemonic,
}

/// The number of entropy bytes behind a phrase of `word_count` words.
pub open spec fn entropy_len_for(word_count: u32) -> Option<nat> {
    if word_count == 12 {
        Some(16)
    } else if word_count == 15 {
        Some(20)
    } else if word_count == 18 {
        Some(24)
    } else if word_count == 21 {
        Some(28)
    } else if word_count == 24 {
        Some(32)
    } else {
        None
    }
}

/// Whether the codec accepts `n` bytes of entropy: a multiple of 32 bits from 128 to 256.
pub open spec fn valid_entropy_len(n: nat) -> bool {
    n == 16 || n == 20 || n == 24 || n == 28 || n == 32
}

/// The number of space characters in `s`.
pub open spec fn spaces(s: Seq<char>) -> nat
    decreases s.len(),
{
    if s.len() == 0 {
        0
    } else {
        spaces(s.drop_last()) + if s.last() == ' ' {
            1nat
        } else {
            0nat
        }
    }
}

/// The number of words of a phrase whose words are separated by single spaces.
pub open spec fn word_count_of(s: Seq<char>) -> nat {
    spaces(s) + 1
}

/// A name for the phrase that the codec writes for `entropy` in `lang`.
pub uninterp spec fn phrase_of(lang: Language, entropy: Seq<u8>) -> Seq<char>;

/// A name for whether the codec accepts `text` as a mnemonic.
pub uninterp spec fn phrase_accepted(text: Seq<char>) -> bool;

/// Relies on `bip39::Mnemonic::from_entropy_in` and its `Display`: it accepts 16,
/// 20, 24, 28 or 32 bytes, makes three words for each four bytes, and writes them
/// from the language's list with one space between them.
#[verifier::external_body]
fn entropy_to_phrase(lang: Language, entropy: &Vec<u8>) -> (r: Result<String, bip39::Error>)
    ensures
        r is Ok <==> valid_entropy_len(entropy@.len()),
        r is Ok ==> r->Ok_0@ == phrase_of(lang, entropy@),
        r is Ok ==> word_count_of(r->Ok_0@) == entropy@.len() * 3 / 4,
{
    let l = match lang {
        Language::English => bip39::Language::English,
        Language::Czech => bip39::Language::Czech,
        Language::French => bip39::Language::French,
        Language::Italian => bip39::Language::Italian,
        Language::Japanese => bip39::Language::Japanese,
        Language::Korean => bip39::Language::Korean,
        Language::Portuguese => bip39::Language::Portuguese,
        Language::Spanish => bip39::Language::Spanish,
    };
    bip39::Mnemonic::from_entropy_in(l, entropy).map(|m| m.to_string())
}

/// Relies on `bip39::Mnemonic::parse_normalized`: whether it accepts `text`
/// depends on the text alone.
#[verifier::external_body]
fn parse_phrase(text: &str) -> (r: Result<bip39::Mnemonic, bip39::Error>)
    ensures
        r is Ok <==> phrase_accepted(text@),
{
    bip39::Mnemonic::parse_normalized(text)
}

/// Relies on `rand::rngs::OsRng` (`try_fill_bytes`): `n` bytes from the operating
/// system, or its error.
#[verifier::external_body]
fn random_bytes(n: usize) -> (r: Result<Vec<u8>, rand::Error>)
    requires
        n <= 0x7fff_ffff,
    ensures
        r is Ok ==> r->Ok_0@.len() == n,
{
    let mut bytes = vec![0u8; n];
    rand::RngCore::try_fill_bytes(&mut rand::rngs::OsRng, &mut bytes).map(|_| bytes)
}

/// The number of entropy bytes behind a phrase of `word_count` words.
pub fn entropy_length(word_count: u32) -> (r: Option<usize>)
    ensures
        r is Some <==> entropy_len_for(word_count) is Some,
        r is Some ==> r->Some_0 as nat == entropy_len_for(word_count)->Some_0,
{
    match word_count {
        12 => Some(16),
        15 => Some(20),
        18 => Some(24),
        21 => Some(28),
        24 => Some(32),
        _ => None,
    }
}

/// The phrase for `entropy` in `lang`: three words for each four bytes.
pub fn mnemonic_from_entropy(entropy: &Vec<u8>, lang: Language) -> (r: Result<String, MnemonicError>)
    ensures
        r is Ok <==> valid_entropy_len(entropy@.len()),
        r is Ok ==> r->Ok_0@ == phrase_of(lang, entropy@),
        r is Ok ==> word_count_of(r->Ok_0@) == entropy@.len() * 3 / 4,
        r is Err ==> r->Err_0 == MnemonicError::CodecFailure,
{
    match entropy_to_phrase(lang, entropy) {
        Ok(phrase) => Ok(phrase),
        Err(_) => Err(MnemonicError::CodecFailure),
    }
}

/// A new random phrase of `word_count` words in the language that `lang` names.
pub fn generate_mnemonic(word_count: u32, lang: &str) -> (r: Result<String, MnemonicError>)
    ensures
        language_of_tag(lang@) is None ==> r == Err::<String, MnemonicError>(
            MnemonicError::UnsupportedLanguage,
        ),
        language_of_tag(lang@) is Some && entropy_len_for(word_count) is None ==> r == Err::<
            String,
            MnemonicError,
        >(MnemonicError::InvalidWordCount),
        language_of_tag(lang@) is Some && entropy_len_for(word_count) is Some ==> (r is Ok || r
            == Err::<String, MnemonicError>(MnemonicError::EntropyUnavailable)),
        r is Ok ==> word_count_of(r->Ok_0@) == word_count,
        r is Ok ==> exists|e: Seq<u8>|
            e.len() == entropy_len_for(word_count)->Some_0 && r->Ok_0@ == phrase_of(
                language_of_tag(lang@)->Some_0,
                e,
            ),
{
    let language = match parse_language(lang) {
        Some(l) => l,
        None => {
            return Err(MnemonicError::UnsupportedLanguage);
        },
    };
    let n = match entropy_length(word_count) {
        Some(n) => n,
        None => {
            return Err(MnemonicError::InvalidWordCount);
        },
    };
    let entropy = match random_bytes(n) {
        Ok(bytes) => bytes,
        Err(_) => {
            return Err(MnemonicError::EntropyUnavailable);
        },
    };
    let r = mnemonic_from_entropy(&entropy, language);
    proof {
        if r is Ok {
            assert(entropy@.len() == entropy_len_for(word_count)->Some_0);
            assert(r->Ok_0@ == phrase_of(language_of_tag(lang@)->Some_0, entropy@));
        }
    }
    r
}

/// A phrase that the codec accepted, kept with the text that it was read from.
pub struct ParsedMnemonic {
    text: String,
    mnemonic: bip39::Mnemonic,
}

impl ParsedMnemonic {
    /// The text that this mnemonic was read from.
    pub closed spec fn text(&self) -> Seq<char> {
        self.text@
    }

    /// Reads `text` as a mnemonic, in whichever supported language its words are.
    pub fn parse(text: &str) -> (r: Result<ParsedMnemonic, MnemonicError>)
        ensures
            r is Ok <==> phrase_accepted(text@),
            r is Ok ==> r->Ok_0.text() == text@,
            r is Err ==> r->Err_0 == MnemonicError::InvalidMnemonic,
    {
        match parse_phrase(text) {
            Ok(mnemonic) => Ok(ParsedMnemonic { text: String::from_str(text), mnemonic }),
            Err(_) => Err(MnemonicError::InvalidMnemonic),
        }
    }
}

/// A name for the 64-byte seed of the phrase `text` under `passphrase`.
pub uninterp spec fn seed_of(text: Seq<char>, passphrase: Seq<char>) -> Seq<u8>;

/// Relies on `bip39::Mnemonic::to_seed`: 64 bytes that depend on the words of the
/// mnemonic and on the passphrase alone. A `ParsedMnemonic` is only made by `parse`,
/// so its words are those read from its text.
#[verifier::external_body]
pub(crate) fn mnemonic_seed(m: &ParsedMnemonic, passphrase: &str) -> (r: Vec<u8>)
    ensures
        r@.len() == 64,
        r@ == seed_of(m.text(), passphrase@),
{
    m.mnemonic.to_seed(passphrase).to_vec()
}

} // verus!
