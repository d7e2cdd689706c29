//! The master key: a mnemonic's seed, stretched with scrypt and written as a
//! checksummed, versioned Base58 string.

use vstd::prelude::*;
use unicode_normalization::UnicodeNormalization;
use crate::mnemonic::{mnemonic_seed, phrase_accepted, seed_of, MnemonicError, ParsedMnemonic};

verus! {

#[verifier::external_type_specification]
#[verifier::external_body]
pub struct ExScryptParams(scrypt::Params);

#[verifier::external_type_specification]
#[verifier::external_body]
pub struct ExInvalidParams(scrypt::errors::InvalidParams);

#[verifier::external_type_specification]
#[verifier::external_body]
pub struct ExInvalidOutputLen(scrypt::errors::InvalidOutputLen);

/// The scrypt work factor, as a power of two: 2^14 iterations.
pub const SCRYPT_LOG_N: u8 = 14;

/// The scrypt block size.
pub const SCRYPT_R: u32 = 8;

/// The scrypt parallelism.
pub const SCRYPT_P: u32 = 1;

/// The length in bytes of the stretched key.
pub const KEY_LEN: usize = 32;

/// The byte that opens the encoded key.
pub const VERSION_BYTE: u8 = 0x80;

/// The byte that follows the key in the encoded form.
pub const COMPRESSION_FLAG: u8 = 0x01;

/// Why a master key could not be derived.
#[derive(Clone, Copy, Debug, PartialEq, Eq, Structural)]
pub enum KeyError {
    /// The phrase is not a valid mnemonic.
    InvalidMnemonic,
    /// scrypt refused its cost parameters.
    StretchParameterError,
    /// scrypt refused the output length.
    StretchFailure,
}

/// The fixed scrypt salt, the bytes of `pixa-bip39`.
pub open spec fn stretch_salt() -> Seq<u8> {
    seq![0x70u8, 0x69, 0x78, 0x61, 0x2d, 0x62, 0x69, 0x70, 0x33, 0x39]
}

fn salt_bytes() -> (r: Vec<u8>)
    ensures
        r@ == stretch_salt(),
{
    let r: Vec<u8> = vec![0x70u8, 0x69, 0x78, 0x61, 0x2d, 0x62, 0x69, 0x70, 0x33, 0x39];
    assert(r@ =~= stretch_salt());
    r
}

/// A name for the NFKD normal form of `s`.
pub uninterp spec fn nfkd_of(s: Seq<char>) -> Seq<char>;

/// Relies on `unicode_normalization::UnicodeNormalization::nfkd`: the compatibility
/// decomposition of `s`, which depends on its characters alone.
#[verifier::external_body]
fn normalize_nfkd(s: &str) -> (r: String)
    ensures
        r@ == nfkd_of(s@),
{
    s.nfkd().collect::<String>()
}

/// A name for the SHA-256 digest of `data`.
pub uninterp spec fn sha256_of(data: Seq<u8>) -> Seq<u8>;

/// Relies on `sha2::Sha256::digest`: the 32-byte SHA-256 digest of `data`.
#[verifier::external_body]
fn sha256(data: &Vec<u8>) -> (r: Vec<u8>)
    ensures
        r@ == sha256_of(data@),
        r@.len() == 32,
{
    <sha2::Sha256 as sha2::Digest>::digest(data).to_vec()
}

/// A name for the Base58 text of `data`.
pub uninterp spec fn base58_of(data: Seq<u8>) -> Seq<char>;

/// Relies on `bs58::encode(..).into_string()`: the Base58 text of `data` in the
/// Bitcoin alphabet.
#[verifier::external_body]
fn base58_encode(data: &Vec<u8>) -> (r: String)
    ensures
        r@ == base58_of(data@),
{
    bs58::encode(data).into_string()
}

/// Whether scrypt is sure to accept these cost parameters and output length.
pub open spec fn params_in_range(log_n: u8, r: u32, p: u32, len: usize) -> bool {
    1 <= r <= 64 && 1 <= p <= 64 && log_n <= 16 && (log_n as int) < 16 * r && 10 <= len <= 64
}

/// Relies on `scrypt::Params::new`: it accepts every set of parameters in range (the
/// products that it checks for overflow stay below 2^32 there), and refuses a zero
/// `r` or `p` and a length outside 10 to 64.
#[verifier::external_body]
fn scrypt_params(log_n: u8, r: u32, p: u32, len: usize) -> (res: Result<scrypt::Params, scrypt::errors::InvalidParams>)
    ensures
        params_in_range(log_n, r, p, len) ==> res is Ok,
        res is Ok ==> r > 0 && p > 0 && 10 <= len <= 64,
{
    scrypt::Params::new(log_n, r, p, len)
}

/// scrypt cost parameters, kept with the values they were made from.
pub struct StretchParams {
    log_n: u8,
    r: u32,
    p: u32,
    params: scrypt::Params,
}

impl StretchParams {
    /// The work factor, as a power of two.
    pub closed spec fn log_n(&self) -> u8 {
        self.log_n
    }

    /// The block size.
    pub closed spec fn r(&self) -> u32 {
        self.r
    }

    /// The parallelism.
    pub closed spec fn p(&self) -> u32 {
        self.p
    }

    /// Cost parameters `log_n`, `r` and `p`, for keys of `KEY_LEN` bytes.
    pub fn new(log_n: u8, r: u32, p: u32) -> (res: Result<StretchParams, KeyError>)
        ensures
            params_in_range(log_n, r, p, KEY_LEN) ==> res is Ok,
            res is Ok ==> res->Ok_0.log_n() == log_n && res->Ok_0.r() == r && res->Ok_0.p() == p,
            res is Err ==> res->Err_0 == KeyError::StretchParameterError,
    {
        match scrypt_params(log_n, r, p, KEY_LEN) {
            Ok(params) => Ok(StretchParams { log_n, r, p, params }),
            Err(_) => Err(KeyError::StretchParameterError),
        }
    }
}

/// A name for the `len` bytes that scrypt derives from `password` and `salt` at the
/// costs `log_n`, `r` and `p`.
pub uninterp spec fn scrypt_of(
    password: Seq<u8>,
    salt: Seq<u8>,
    log_n: u8,
    r: u32,
    p: u32,
    len: nat,
) -> Seq<u8>;

/// Relies on `scrypt::scrypt`: it fills any non-empty output (it refuses only an
/// empty one, or one past (2^32 - 1) * 32 bytes, beyond the bound here), with bytes
/// that depend on the password, salt, costs and length alone. A `StretchParams` is
/// only made by `new`, so its parameters are its fields.
#[verifier::external_body]
fn stretch(
    password: &Vec<u8>,
    salt: &Vec<u8>,
    params: &StretchParams,
    len: usize,
) -> (out: Result<Vec<u8>, scrypt::errors::InvalidOutputLen>)
    requires
        len <= 0x7fff_ffff,
    ensures
        out is Ok <==> 0 < len,
        out is Ok ==> out->Ok_0@ == scrypt_of(password@, salt@, params.log_n(), params.r(), params.p(), len as nat),
        out is Ok ==> out->Ok_0@.len() == len,
{
    let mut key = vec![0u8; len];
    scrypt::scrypt(password, salt, &params.params, &mut key).map(|_| key)
}

/// The version byte, the key and the compression flag.
pub open spec fn wif_payload(key: Seq<u8>) -> Seq<u8> {
    seq![VERSION_BYTE].add(key).push(COMPRESSION_FLAG)
}

/// The first four bytes of the double SHA-256 digest of `payload`.
pub open spec fn wif_checksum(payload: Seq<u8>) -> Seq<u8> {
    sha256_of(sha256_of(payload)).take(4)
}

/// The payload of `key` followed by its checksum.
pub open spec fn wif_bytes(key: Seq<u8>) -> Seq<u8> {
    wif_payload(key).add(wif_checksum(wif_payload(key)))
}

/// The master key of the phrase `text` under `passphrase`.
pub open spec fn master_key_of(text: Seq<char>, passphrase: Seq<char>) -> Seq<char> {
    let seed = seed_of(text, nfkd_of(passphrase));
    let key = scrypt_of(seed, stretch_salt(), SCRYPT_LOG_N, SCRYPT_R, SCRYPT_P, KEY_LEN as nat);
    base58_of(wif_bytes(key))
}

/// Whether `b` has the layout of an encoded key: 38 bytes, the version byte first,
/// the flag byte 34th, and last the first four bytes of the double digest of the
/// 34 before them.
pub open spec fn wif_shaped(b: Seq<u8>) -> bool {
    &&& b.len() == 38
    &&& b[0] == VERSION_BYTE
    &&& b[33] == COMPRESSION_FLAG
    &&& b.subrange(34, 38) == sha256_of(sha256_of(b.take(34))).take(4)
}

/// The version byte, then `key`, then the compression flag.
pub fn wif_payload_of(key: &Vec<u8>) -> (r: Vec<u8>)
    ensures
        r@ == wif_payload(key@),
{
    let mut out: Vec<u8> = Vec::new();
    out.push(VERSION_BYTE);
    let mut i: usize = 0;
    while i < key.len()
        invariant
            i <= key@.len(),
            out@ == seq![VERSION_BYTE].add(key@.take(i as int)),
        decreases key@.len() - i,
    {
        out.push(key[i]);
        i = i + 1;
        assert(out@ =~= seq![VERSION_BYTE].add(key@.take(i as int)));
    }
    assert(key@.take(key@.len() as int) =~= key@);
    out.push(COMPRESSION_FLAG);
    out
}

/// `payload` followed by the first four bytes of `digest`.
pub fn append_checksum(payload: &Vec<u8>, digest: &Vec<u8>) -> (r: Vec<u8>)
    requires
        digest@.len() >= 4,
    ensures
        r@ == payload@.add(digest@.take(4)),
{
    let mut out: Vec<u8> = Vec::new();
    let mut i: usize = 0;
    while i < payload.len()
        invariant
            i <= payload@.len(),
            out@ == payload@.take(i as int),
        decreases payload@.len() - i,
    {
        out.push(payload[i]);
        i = i + 1;
        assert(out@ =~= payload@.take(i as int));
    }
    let mut k: usize = 0;
    while k < 4
        invariant
            digest@.len() >= 4,
            k <= 4,
            out@ == payload@.add(digest@.take(k as int)),
        decreases 4 - k,
    {
        out.push(digest[k]);
        k = k + 1;
        assert(out@ =~= payload@.add(digest@.take(k as int)));
    }
    out
}

/// The Base58 text of `key` in the encoded layout: version byte, key, flag byte and
/// the first four bytes of the double SHA-256 digest of those.
pub fn encode_wif(key: &Vec<u8>) -> (r: String)
    ensures
        r@ == base58_of(wif_bytes(key@)),
        key@.len() == 32 ==> wif_shaped(wif_bytes(key@)),
{
    let payload = wif_payload_of(key);
    let inner = sha256(&payload);
    let digest = sha256(&inner);
    let bytes = append_checksum(&payload, &digest);
    proof {
        if key@.len() == 32 {
            assert(bytes@.take(34) =~= payload@);
            assert(bytes@.subrange(34, 38) =~= digest@.take(4));
        }
    }
    base58_encode(&bytes)
}

/// The master key of `mnemonic` under `passphrase`: the passphrase in NFKD form
/// goes into the mnemonic's seed, which scrypt stretches at fixed costs with a
/// fixed salt into 32 bytes, written as Base58 in the encoded layout.
pub fn mnemonic_to_base58_master_key(mnemonic: &str, passphrase: &str) -> (r: Result<
    String,
    KeyError,
>)
    ensures
        r is Ok <==> phrase_accepted(mnemonic@),
        r is Ok ==> r->Ok_0@ == master_key_of(mnemonic@, passphrase@),
        r is Err ==> r->Err_0 == KeyError::InvalidMnemonic,
        r is Ok ==> exists|b: Seq<u8>| wif_shaped(b) && r->Ok_0@ == base58_of(b),
{
    let parsed = match ParsedMnemonic::parse(mnemonic) {
        Ok(m) => m,
        Err(_) => {
            return Err(KeyError::InvalidMnemonic);
        },
    };
    let normalized = normalize_nfkd(passphrase);
    let seed = mnemonic_seed(&parsed, normalized.as_str());
    let params = match StretchParams::new(SCRYPT_LOG_N, SCRYPT_R, SCRYPT_P) {
        Ok(p) => p,
        Err(e) => {
            return Err(e);
        },
    };
    let salt = salt_bytes();
    let key = match stretch(&seed, &salt, &params, KEY_LEN) {
        Ok(k) => k,
        Err(_) => {
            return Err(KeyError::StretchFailure);
        },
    };
    let encoded = encode_wif(&key);
    Ok(encoded)
}

/// Derivation is a function of its inputs: the same phrase and passphrase give the
/// same master key, in every call and every process.
pub proof fn lemma_master_key_deterministic(
    text1: Seq<char>,
    pass1: Seq<char>,
    text2: Seq<char>,
    pass2: Seq<char>,
)
    requires
        text1 == text2,
        pass1 == pass2,
    ensures
        master_key_of(text1, pass1) == master_key_of(text2, pass2),
{
}

} // verus!
