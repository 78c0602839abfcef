//! Encryption of database payloads (AES-256-GCM) and key derivation (Argon2).
use vstd::prelude::*;
use aes_gcm::aead::{Aead, AeadCore, KeyInit, OsRng};
use aes_gcm::{Aes256Gcm, Key, Nonce};
use argon2::Argon2;
use crate::text::{chars_of, string_from_chars, trim};

verus! {

/// Length of an AES-GCM nonce, in bytes.
pub const NONCE_LEN: usize = 12;

/// Length of an AES-GCM authentication tag, in bytes.
pub const TAG_LEN: usize = 16;

/// The longest plaintext that AES-GCM accepts, in bytes (2^36).
pub const MAX_PLAINTEXT_LEN: u64 = 68719476736;

/// The ciphertext, tag appended, that AES-256-GCM gives for `plaintext` under `key` and `nonce`.
pub uninterp spec fn aes_gcm_sealed(key: Seq<u8>, nonce: Seq<u8>, plaintext: Seq<u8>) -> Seq<u8>;

/// The plaintext that AES-256-GCM recovers from `ciphertext` (tag appended) under `key` and
/// `nonce`, or `None` when the tag does not authenticate it.
pub uninterp spec fn aes_gcm_opened(key: Seq<u8>, nonce: Seq<u8>, ciphertext: Seq<u8>) -> Option<Seq<u8>>;

/// The 32-byte key that Argon2 (argon2id, version 0x13, default parameters) derives from
/// `password` and `salt`.
pub uninterp spec fn argon2_key(password: Seq<u8>, salt: Seq<u8>) -> Seq<u8>;

/// A fresh nonce from the operating system's random generator
/// (`Aes256Gcm::generate_nonce(&mut OsRng)`). Its bytes are random: only its length is stated.
/// `OsRng` panics when the operating system cannot provide randomness; that condition
/// lies outside the program's inputs and is not stated.
#[verifier::external_body]
fn random_nonce() -> (n: Vec<u8>)
    ensures
        n@.len() == NONCE_LEN,
{
    Aes256Gcm::generate_nonce(&mut OsRng).to_vec()
}

/// `Aead::encrypt` of AES-256-GCM with no associated data. It fails exactly when the
/// plaintext is longer than 2^36 bytes; the ciphertext is the plaintext's length plus the tag.
#[verifier::external_body]
fn aes_gcm_seal(key: &[u8; 32], nonce: &[u8], plaintext: &[u8]) -> (r: Option<Vec<u8>>)
    requires
        nonce@.len() == NONCE_LEN,
    ensures
        r is Some <==> plaintext@.len() <= MAX_PLAINTEXT_LEN,
        r matches Some(c) ==> (c@ == aes_gcm_sealed(key@, nonce@, plaintext@)
            && c@.len() == plaintext@.len() + TAG_LEN),
{
    let cipher = Aes256Gcm::new(Key::<Aes256Gcm>::from_slice(key));
    cipher.encrypt(Nonce::from_slice(nonce), plaintext).ok()
}

/// `Aead::decrypt` of AES-256-GCM with no associated data. Decryption undoes encryption:
/// what was sealed under a key and nonce opens under the same key and nonce.
#[verifier::external_body]
fn aes_gcm_open(key: &[u8; 32], nonce: &[u8], ciphertext: &[u8]) -> (r: Option<Vec<u8>>)
    requires
        nonce@.len() == NONCE_LEN,
    ensures
        r.deep_view() == aes_gcm_opened(key@, nonce@, ciphertext@),
        forall|p: Seq<u8>|
            (p.len() <= MAX_PLAINTEXT_LEN && ciphertext@ == #[trigger] aes_gcm_sealed(key@, nonce@, p))
                ==> r.deep_view() == Some(p),
{
    let cipher = Aes256Gcm::new(Key::<Aes256Gcm>::from_slice(key));
    cipher.decrypt(Nonce::from_slice(nonce), ciphertext).ok()
}

/// `Argon2::default().hash_password_into` into a 32-byte key. It fails exactly when the
/// password or the salt is longer than 2^32 - 1 bytes or the salt is shorter than 8 bytes,
/// and hands back the text of the error: the password is checked first, then the salt.
#[verifier::external_body]
fn argon2_hash(password: &[u8], salt: &[u8]) -> (r: Result<[u8; 32], String>)
    ensures
        r is Ok <==> (password@.len() <= 0xFFFF_FFFF && 8 <= salt@.len() <= 0xFFFF_FFFF),
        r matches Ok(k) ==> k@ == argon2_key(password@, salt@),
        r matches Err(m) ==> m@ == argon2_error_text(password@.len(), salt@.len()),
{
    let mut key = [0u8; 32];
    Argon2::default().hash_password_into(password, salt, &mut key).map(|_| key).map_err(|e| e.to_string())
}

/// The text of the error that Argon2 reports for a password and a salt of these lengths.
pub open spec fn argon2_error_text(password_len: nat, salt_len: nat) -> Seq<char> {
    if password_len > 0xFFFF_FFFF {
        "password is too long"@
    } else if salt_len < 8 {
        "salt is too short"@
    } else {
        "salt is too long"@
    }
}

/// The message of a failed encryption.
pub open spec fn encryption_failed_message() -> Seq<char> {
    "Erreur de chiffrement AES : Error"@
}

/// The message for a payload too short to hold a nonce and a tag.
pub open spec fn payload_too_short_message() -> Seq<char> {
    "Fichier corrompu : payload trop court."@
}

/// The message for a payload that does not authenticate under the key.
pub open spec fn tampered_message() -> Seq<char> {
    "Déchiffrement impossible : Clé incorrecte ou fichier altéré (Tampering) !"@
}

/// Encrypts `data` under `secret_key` with a fresh random nonce and returns
/// `nonce ‖ ciphertext ‖ tag`.
pub fn chiffrer_aes_256(data: &[u8], secret_key: &[u8; 32]) -> (r: Result<Vec<u8>, String>)
    ensures
        r is Ok <==> data@.len() <= MAX_PLAINTEXT_LEN,
        r matches Ok(p) ==> p@.len() == NONCE_LEN + data@.len() + TAG_LEN
            && p@.skip(NONCE_LEN as int) == aes_gcm_sealed(secret_key@, p@.take(NONCE_LEN as int), data@),
        r matches Err(e) ==> e@ == encryption_failed_message(),
{
    let nonce = random_nonce();
    match aes_gcm_seal(secret_key, nonce.as_slice(), data) {
        Some(mut ciphertext) => {
            let ghost c = ciphertext@;
            let mut payload = nonce;
            let ghost n = payload@;
            payload.append(&mut ciphertext);
            proof {
                assert(payload@ =~= n + c);
                assert(payload@.skip(NONCE_LEN as int) =~= c);
                assert(payload@.take(NONCE_LEN as int) =~= n);
            }
            Ok(payload)
        },
        None => Err("Erreur de chiffrement AES : Error".to_string()),
    }
}

/// Decrypts a payload made by [`chiffrer_aes_256`]: splits off the nonce and authenticates
/// and decrypts the rest.
pub fn dechiffrer_aes_256(payload: &[u8], secret_key: &[u8; 32]) -> (r: Result<Vec<u8>, String>)
    ensures
        payload@.len() < NONCE_LEN + TAG_LEN ==> (r matches Err(e) && e@ == payload_too_short_message()),
        payload@.len() >= NONCE_LEN + TAG_LEN ==> match aes_gcm_opened(
            secret_key@,
            payload@.take(NONCE_LEN as int),
            payload@.skip(NONCE_LEN as int),
        ) {
            Some(p) => r matches Ok(v) && v@ == p,
            None => r matches Err(e) && e@ == tampered_message(),
        },
        // What `chiffrer_aes_256` produced under the same key decrypts to the data it encrypted.
        forall|m: Seq<u8>|
            (m.len() <= MAX_PLAINTEXT_LEN && payload@.len() == NONCE_LEN + m.len() + TAG_LEN
                && payload@.skip(NONCE_LEN as int) == #[trigger] aes_gcm_sealed(
                secret_key@,
                payload@.take(NONCE_LEN as int),
                m,
            )) ==> (r matches Ok(v) && v@ == m),
{
    if payload.len() < 28 {
        return Err("Fichier corrompu : payload trop court.".to_string());
    }
    let (nonce_bytes, ciphertext_with_tag) = payload.split_at(12);
    proof {
        assert(nonce_bytes@ =~= payload@.take(NONCE_LEN as int));
        assert(ciphertext_with_tag@ =~= payload@.skip(NONCE_LEN as int));
    }
    match aes_gcm_open(secret_key, nonce_bytes, ciphertext_with_tag) {
        Some(plaintext) => Ok(plaintext),
        None => Err("Déchiffrement impossible : Clé incorrecte ou fichier altéré (Tampering) !".to_string()),
    }
}

/// The salt that master keys are derived with.
pub open spec fn master_salt() -> Seq<u8> {
    seq![
        0x6a, 0x69, 0x6e, 0x73, 0x68, 0x75, 0x5f, 0x71, 0x75, 0x61, 0x6e, 0x74, 0x75, 0x6d, 0x5f,
        0x63, 0x6f, 0x72, 0x65, 0x5f, 0x73, 0x61, 0x6c, 0x74, 0x5f, 0x32, 0x30, 0x32, 0x36,
    ]
}

/// The prefix of the message for a failed key derivation.
pub open spec fn key_derivation_failed_prefix() -> Seq<char> {
    "Échec de la forge Argon2 : "@
}

/// Derives the AES-256 master key from the secret passphrase `seed` (as read from the
/// service's credential): Argon2 of the UTF-8 bytes of the trimmed passphrase, with the
/// engine's fixed salt `jinshu_quantum_core_salt_2026`.
pub fn derive_master_key(seed: &str) -> (r: Result<[u8; 32], String>)
    ensures
        r is Ok <==> vstd::utf8::encode_utf8(crate::text::trimmed(seed@)).len() <= 0xFFFF_FFFF,
        r matches Ok(k) ==> k@ == argon2_key(
            vstd::utf8::encode_utf8(crate::text::trimmed(seed@)),
            master_salt(),
        ),
        r matches Err(e) ==> e@ == key_derivation_failed_prefix() + "password is too long"@,
{
    let salt: [u8; 29] = [
        0x6a, 0x69, 0x6e, 0x73, 0x68, 0x75, 0x5f, 0x71, 0x75, 0x61, 0x6e, 0x74, 0x75, 0x6d, 0x5f,
        0x63, 0x6f, 0x72, 0x65, 0x5f, 0x73, 0x61, 0x6c, 0x74, 0x5f, 0x32, 0x30, 0x32, 0x36,
    ];
    let phrase = trim(seed);
    let password = phrase.as_str().as_bytes();
    proof {
        assert(salt@ =~= master_salt());
    }
    match argon2_hash(password, salt.as_slice()) {
        Ok(key) => Ok(key),
        Err(reason) => {
            let mut message = chars_of("Échec de la forge Argon2 : ");
            let mut tail = chars_of(reason.as_str());
            message.append(&mut tail);
            Err(string_from_chars(message.as_slice()))
        },
    }
}

} // verus!
