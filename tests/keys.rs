use pixa_bip39::master_key::{encode_wif, StretchParams};
use pixa_bip39::mnemonic::entropy_length;
use pixa_bip39::{
    generate_mnemonic, mnemonic_from_entropy, mnemonic_to_base58_master_key, KeyError, Language,
    MnemonicError,
};
use sha2::Digest;

const PHRASE: &str = "abandon abandon abandon abandon abandon abandon abandon abandon abandon abandon abandon about";

#[test]
fn word_counts_match_entropy_sizes() {
    for n in [12u32, 15, 18, 21, 24] {
        let m = generate_mnemonic(n, "english").unwrap();
        assert_eq!(m.split(' ').count(), n as usize);
    }
}

#[test]
fn other_word_counts_rejected() {
    for n in [0u32, 11, 13, 16, 25, 48] {
        assert_eq!(generate_mnemonic(n, "english"), Err(MnemonicError::InvalidWordCount));
    }
}

#[test]
fn unsupported_language_in_generation() {
    assert_eq!(generate_mnemonic(12, "klingon"), Err(MnemonicError::UnsupportedLanguage));
    assert_eq!(generate_mnemonic(13, "klingon"), Err(MnemonicError::UnsupportedLanguage));
}

#[test]
fn generated_phrase_parses_in_its_language() {
    let m = generate_mnemonic(24, "Korean").unwrap();
    let parsed = bip39::Mnemonic::parse_in_normalized(bip39::Language::Korean, &m).unwrap();
    assert_eq!(parsed.word_count(), 24);
}

#[test]
fn known_entropy_gives_known_phrase() {
    let m = mnemonic_from_entropy(&vec![0u8; 16], Language::English).unwrap();
    assert_eq!(m, PHRASE);
}

#[test]
fn bad_entropy_size_is_codec_failure() {
    assert_eq!(mnemonic_from_entropy(&vec![0u8; 15], Language::English), Err(MnemonicError::CodecFailure));
    assert_eq!(mnemonic_from_entropy(&vec![0u8; 36], Language::English), Err(MnemonicError::CodecFailure));
}

#[test]
fn derivation_is_deterministic() {
    let a = mnemonic_to_base58_master_key(PHRASE, "secret").unwrap();
    let b = mnemonic_to_base58_master_key(PHRASE, "secret").unwrap();
    assert_eq!(a, b);
}

#[test]
fn passphrase_changes_key() {
    let a = mnemonic_to_base58_master_key(PHRASE, "a").unwrap();
    let b = mnemonic_to_base58_master_key(PHRASE, "b").unwrap();
    assert_ne!(a, b);
}

#[test]
fn invalid_mnemonic_rejected() {
    let bad = "abandon abandon abandon abandon abandon abandon abandon abandon abandon abandon abandon abandon";
    assert_eq!(mnemonic_to_base58_master_key(bad, ""), Err(KeyError::InvalidMnemonic));
    assert_eq!(mnemonic_to_base58_master_key("not a phrase", ""), Err(KeyError::InvalidMnemonic));
}

#[test]
fn encoded_key_layout() {
    let key = mnemonic_to_base58_master_key(PHRASE, "").unwrap();
    let bytes = bs58::decode(&key).into_vec().unwrap();
    assert_eq!(bytes.len(), 38);
    assert_eq!(bytes[0], 0x80);
    assert_eq!(bytes[33], 0x01);
    let digest = sha2::Sha256::digest(sha2::Sha256::digest(&bytes[..34]));
    assert_eq!(&bytes[34..], &digest[..4]);
}

#[test]
fn key_matches_independent_derivation() {
    let m = bip39::Mnemonic::parse_normalized(PHRASE).unwrap();
    let seed = m.to_seed("pass");
    let params = scrypt::Params::new(14, 8, 1, 32).unwrap();
    let mut key = [0u8; 32];
    scrypt::scrypt(&seed, b"pixa-bip39", &params, &mut key).unwrap();
    let mut bytes = vec![0x80u8];
    bytes.extend_from_slice(&key);
    bytes.push(0x01);
    let digest = sha2::Sha256::digest(sha2::Sha256::digest(&bytes));
    bytes.extend_from_slice(&digest[..4]);
    let expected = bs58::encode(bytes).into_string();
    assert_eq!(mnemonic_to_base58_master_key(PHRASE, "pass").unwrap(), expected);
}

#[test]
fn passphrase_is_normalized() {
    let a = mnemonic_to_base58_master_key(PHRASE, "\u{fb01}").unwrap();
    let b = mnemonic_to_base58_master_key(PHRASE, "fi").unwrap();
    assert_eq!(a, b);
}

#[test]
fn wif_encoding_of_zero_key() {
    let s = encode_wif(&vec![0u8; 32]);
    let bytes = bs58::decode(&s).into_vec().unwrap();
    let mut expected = vec![0x80u8];
    expected.extend_from_slice(&[0u8; 32]);
    expected.push(0x01);
    let digest = sha2::Sha256::digest(sha2::Sha256::digest(&expected));
    expected.extend_from_slice(&digest[..4]);
    assert_eq!(bytes, expected);
    assert_ne!(s.as_bytes(), &bytes[..]);
}

#[test]
fn unreadable_phrase_is_invalid_mnemonic() {
    assert!(matches!(
        pixa_bip39::mnemonic::ParsedMnemonic::parse("abandon zebra"),
        Err(MnemonicError::InvalidMnemonic)
    ));
    assert!(pixa_bip39::mnemonic::ParsedMnemonic::parse(PHRASE).is_ok());
}

#[test]
fn stretch_parameters_checked() {
    assert!(StretchParams::new(14, 8, 1).is_ok());
    assert!(matches!(StretchParams::new(14, 0, 1), Err(KeyError::StretchParameterError)));
    assert!(matches!(StretchParams::new(14, 8, 0), Err(KeyError::StretchParameterError)));
}

#[test]
fn entropy_lengths() {
    assert_eq!(entropy_length(12), Some(16));
    assert_eq!(entropy_length(15), Some(20));
    assert_eq!(entropy_length(18), Some(24));
    assert_eq!(entropy_length(21), Some(28));
    assert_eq!(entropy_length(24), Some(32));
    assert_eq!(entropy_length(20), None);
}

#[test]
fn generated_phrase_uses_named_language() {
    let m = generate_mnemonic(12, "SPANISH").unwrap();
    let parsed = bip39::Mnemonic::parse_in_normalized(bip39::Language::Spanish, &m).unwrap();
    assert_eq!(parsed.language(), bip39::Language::Spanish);
    assert_eq!(m.split_whitespace().count(), 12);
}
