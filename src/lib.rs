//! Mnemonic phrases turned into a deterministic, checksummed master key, and a
//! fuzzy search over the mnemonic wordlists.

pub mod text;
pub mod language;
pub mod distance;
pub mod score;
pub mod rank;
pub mod search;
pub mod mnemonic;
pub mod master_key;

pub use language::{parse_language, Language};
pub use master_key::{mnemonic_to_base58_master_key, KeyError};
pub use mnemonic::{generate_mnemonic, mnemonic_from_entropy, MnemonicError};
pub use search::{search_mnemonic_words, SearchError};
