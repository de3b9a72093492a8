//! Key derivation (Argon2id), the salt, and the ChaCha20-Poly1305 fields of
//! vaults in the field-encrypted format.

use vstd::prelude::*;

use crate::encoding::{b64_decode, b64_encode, base64_decoded, base64_encoded, hex_of, hex_string};
use crate::text::{append_chars, chars_of, string_from_chars};
use vstd::string::StringSliceAdditionalSpecFns;

verus! {

/// Argon2id memory cost, in KiB.
pub const ARGON2_M_COST: u32 = 65536;

/// Argon2id number of passes.
pub const ARGON2_T_COST: u32 = 4;

/// Argon2id lanes.
pub const ARGON2_P_COST: u32 = 1;

/// The 32-byte key that Argon2id (version 0x13) derives from `password` and
/// `salt` with memory cost `m`, `t` passes and `p` lanes.
pub uninterp spec fn argon2id_key(password: Seq<u8>, salt: Seq<u8>, m: u32, t: u32, p: u32) -> Seq<u8>;

/// What ChaCha20-Poly1305 seals `plaintext` into under `key` and `nonce`
/// (no associated data): the ciphertext followed by its tag.
pub uninterp spec fn aead_sealed(key: Seq<u8>, nonce: Seq<u8>, plaintext: Seq<u8>) -> Seq<u8>;

/// What ChaCha20-Poly1305 opens `ciphertext` into under `key` and `nonce`
/// (no associated data); `None` where the tag does not authenticate it.
pub uninterp spec fn aead_opened(key: Seq<u8>, nonce: Seq<u8>, ciphertext: Seq<u8>) -> Option<Seq<u8>>;

/// Derives a 32-byte key with `argon2`'s `Argon2::hash_password_into`
/// (Argon2id, version 0x13, the given costs). Claimed of it: the call fails
/// exactly when the password is longer than `0xFFFF_FFFF` bytes or the salt
/// is shorter than 8 or longer than `0xFFFF_FFFF` bytes (the costs that
/// `requires` admits are valid `Params`), and the key is named `argon2id_key`.
#[verifier::external_body]
fn argon2id_hash(password: &[u8], salt: &[u8], m: u32, t: u32, p: u32) -> (r: Option<[u8; 32]>)
    requires
        1 <= p <= 0xFF_FFFF,
        1 <= t,
        8 * p <= m,
    ensures
        r is Some <==> (password@.len() <= 0xFFFF_FFFF && 8 <= salt@.len() <= 0xFFFF_FFFF),
        r matches Some(k) ==> k@ == argon2id_key(password@, salt@, m, t, p),
{
    let params = argon2::Params::new(m, t, p, Some(32)).ok()?;
    let mut key = [0u8; 32];
    argon2::Argon2::new(argon2::Algorithm::Argon2id, argon2::Version::V0x13, params)
        .hash_password_into(password, salt, &mut key)
        .ok()?;
    Some(key)
}

/// Seals `plaintext` with `chacha20poly1305`'s `Aead::encrypt`. Claimed of
/// it: it fails exactly on a plaintext of `64 * 0xFFFF_FFFF` bytes or more;
/// the result is named `aead_sealed`, and opening it with the same key and
/// nonce gives the plaintext back.
#[verifier::external_body]
fn chacha_seal(key: &[u8; 32], nonce: &[u8; 12], plaintext: &[u8]) -> (r: Option<Vec<u8>>)
    ensures
        r is Some <==> plaintext@.len() / 64 < 0xFFFF_FFFF,
        r matches Some(c) ==> c@ == aead_sealed(key@, nonce@, plaintext@)
            && aead_opened(key@, nonce@, c@) == Some(plaintext@),
{
    let cipher = <chacha20poly1305::ChaCha20Poly1305 as chacha20poly1305::KeyInit>::new(key.into());
    chacha20poly1305::aead::Aead::encrypt(&cipher, nonce.into(), plaintext).ok()
}

/// Opens `ciphertext` with `chacha20poly1305`'s `Aead::decrypt`; `None` where
/// it returns an error. Claimed of it: the result is named `aead_opened`.
#[verifier::external_body]
fn chacha_open(key: &[u8; 32], nonce: &[u8], ciphertext: &[u8]) -> (r: Option<Vec<u8>>)
    requires
        nonce@.len() == 12,
    ensures
        r matches Some(v) ==> aead_opened(key@, nonce@, ciphertext@) == Some(v@),
        r is None ==> aead_opened(key@, nonce@, ciphertext@) is None,
{
    let cipher = <chacha20poly1305::ChaCha20Poly1305 as chacha20poly1305::KeyInit>::new(key.into());
    let nonce = chacha20poly1305::Nonce::from_slice(nonce);
    chacha20poly1305::aead::Aead::decrypt(&cipher, nonce, ciphertext).ok()
}

/// Fills `n` bytes from the operating system's generator (`rand_core`'s
/// `OsRng`, `TryRngCore::try_fill_bytes`); `None` where the generator fails.
/// Claimed of it: only the length of what it returns.
#[verifier::external_body]
fn os_random_bytes(n: usize) -> (r: Option<Vec<u8>>)
    ensures
        r matches Some(v) ==> v@.len() == n,
{
    let mut buf = vec![0u8; n];
    rand_core::TryRngCore::try_fill_bytes(&mut rand_core::OsRng, &mut buf).ok()?;
    Some(buf)
}

/// Why a key could not be derived.
#[derive(Debug, PartialEq, Eq, Structural)]
pub enum KeyError {
    /// The salt is not valid Base64.
    InvalidSalt,
    /// Argon2 refused the inputs (a salt under 8 bytes, or an input longer
    /// than `0xFFFF_FFFF` bytes).
    DerivationFailed,
}

/// The vault key for `password` and the Base64 salt `salt_b64`:
/// Argon2id with 64 MiB of memory, 4 passes and 1 lane.
pub open spec fn derive_key_spec(password: Seq<u8>, salt_b64: Seq<char>) -> Result<Seq<u8>, KeyError> {
    match base64_decoded(salt_b64) {
        None => Err(KeyError::InvalidSalt),
        Some(salt) => if password.len() <= 0xFFFF_FFFF && 8 <= salt.len() <= 0xFFFF_FFFF {
            Ok(argon2id_key(password, salt, ARGON2_M_COST, ARGON2_T_COST, ARGON2_P_COST))
        } else {
            Err(KeyError::DerivationFailed)
        },
    }
}

/// Derives the 32-byte vault key from the master password and the Base64
/// salt.
pub fn derive_key(password: &str, salt_b64: &str) -> (r: Result<[u8; 32], KeyError>)
    ensures
        match (r, derive_key_spec(password.spec_bytes(), salt_b64@)) {
            (Ok(k), Ok(s)) => k@ == s,
            (Err(e), Err(s)) => e == s,
            _ => false,
        },
{
    let salt = match b64_decode(salt_b64) {
        Some(s) => s,
        None => return Err(KeyError::InvalidSalt),
    };
    match argon2id_hash(
        password.as_bytes(),
        salt.as_slice(),
        ARGON2_M_COST,
        ARGON2_T_COST,
        ARGON2_P_COST,
    ) {
        Some(k) => Ok(k),
        None => Err(KeyError::DerivationFailed),
    }
}

/// The key depends on the password and the salt alone: the same password
/// and salt always give the same key (or the same refusal).
pub proof fn derive_key_is_deterministic(p1: Seq<u8>, s1: Seq<char>, p2: Seq<u8>, s2: Seq<char>)
    requires
        p1 == p2,
        s1 == s2,
    ensures
        derive_key_spec(p1, s1) == derive_key_spec(p2, s2),
{
}

/// A fresh salt: 32 random bytes in Base64; `None` where the operating
/// system's generator fails.
pub fn generate_salt() -> (r: Option<String>)
    ensures
        r matches Some(s) ==> (base64_decoded(s@) matches Some(b) && b.len() == 32),
        r matches Some(s) ==> exists|b: Seq<u8>| b.len() == 32 && s@ == #[trigger] base64_encoded(b),
{
    match os_random_bytes(32) {
        Some(b) => Some(b64_encode(b.as_slice())),
        None => None,
    }
}

/// Why a field could not be decrypted.
#[derive(Debug, PartialEq, Eq, Structural)]
pub enum DecryptError {
    /// Wrong key, wrong nonce, a nonce that is not 12 bytes long, or
    /// corrupted data.
    Failed,
}

/// What decrypting `ciphertext` under `key` and `nonce` gives.
pub open spec fn decrypt_spec(key: Seq<u8>, ciphertext: Seq<u8>, nonce: Seq<u8>) -> Option<Seq<u8>> {
    if nonce.len() != 12 {
        None
    } else {
        aead_opened(key, nonce, ciphertext)
    }
}

/// Decrypts a ChaCha20-Poly1305 field of a vault in the field-encrypted
/// format.
pub fn decrypt(key: &[u8; 32], ciphertext: &[u8], nonce: &[u8]) -> (r: Result<Vec<u8>, DecryptError>)
    ensures
        match (r, decrypt_spec(key@, ciphertext@, nonce@)) {
            (Ok(v), Some(p)) => v@ == p,
            (Err(_), None) => true,
            _ => false,
        },
{
    if nonce.len() != 12 {
        return Err(DecryptError::Failed);
    }
    match chacha_open(key, nonce, ciphertext) {
        Some(v) => Ok(v),
        None => Err(DecryptError::Failed),
    }
}

/// Why a field could not be encrypted.
#[derive(Debug, PartialEq, Eq, Structural)]
pub enum EncryptError {
    /// The operating system's generator failed to give a nonce.
    NoRandomness,
    /// The plaintext is too long for ChaCha20-Poly1305.
    TooLong,
}

/// Encrypts a field under `key` with a fresh random 12-byte nonce; returns
/// the ciphertext (with its tag) and the nonce.
pub fn encrypt(key: &[u8; 32], plaintext: &[u8]) -> (r: Result<(Vec<u8>, Vec<u8>), EncryptError>)
    ensures
        r matches Ok((c, n)) ==> n@.len() == 12 && c@ == aead_sealed(key@, n@, plaintext@)
            && decrypt_spec(key@, c@, n@) == Some(plaintext@),
        r matches Err(EncryptError::TooLong) ==> plaintext@.len() / 64 >= 0xFFFF_FFFF,
{
    let n = match os_random_bytes(12) {
        Some(n) => n,
        None => return Err(EncryptError::NoRandomness),
    };
    let mut nonce = [0u8; 12];
    let mut i: usize = 0;
    while i < 12
        invariant
            n@.len() == 12,
            i <= 12,
            forall|j: int| 0 <= j < i ==> nonce@[j] == n@[j],
        decreases 12 - i,
    {
        nonce[i] = n[i];
        i = i + 1;
    }
    assert(nonce@ =~= n@);
    match chacha_seal(key, &nonce, plaintext) {
        Some(c) => Ok((c, n)),
        None => Err(EncryptError::TooLong),
    }
}

/// `PRAGMA <verb> = "x'<hex>'"`: hands SQLCipher a raw key.
pub open spec fn key_pragma_spec(verb: Seq<char>, key: Seq<u8>) -> Seq<char> {
    "PRAGMA "@ + verb + " = \"x'"@ + hex_of(key) + "'\""@
}

fn pragma_with_key(verb: &str, key: &[u8; 32]) -> (r: String)
    ensures
        r@ == key_pragma_spec(verb@, key@),
{
    let mut out = chars_of("PRAGMA ");
    append_chars(&mut out, &chars_of(verb));
    append_chars(&mut out, &chars_of(" = \"x'"));
    let hex = hex_string(key);
    append_chars(&mut out, &chars_of(hex.as_str()));
    append_chars(&mut out, &chars_of("'\""));
    string_from_chars(out)
}

/// The statement that opens an encrypted vault with `key`.
pub fn key_pragma(key: &[u8; 32]) -> (r: String)
    ensures
        r@ == key_pragma_spec("key"@, key@),
{
    pragma_with_key("key", key)
}

/// The statement that re-encrypts an open vault under `new_key`.
pub fn rekey_pragma(new_key: &[u8; 32]) -> (r: String)
    ensures
        r@ == key_pragma_spec("rekey"@, new_key@),
{
    pragma_with_key("rekey", new_key)
}

} // verus!
