//! The cryptographic primitives of outside crates, each behind one trusted item.
//! Each item's doc comment says what its contract claims of the outside code.
use vstd::prelude::*;

use chacha20poly1305::aead::{Aead, KeyInit};
use pqcrypto_traits::kem::{
    Ciphertext as KemCiphertext, PublicKey as KemPublicKey, SecretKey as KemSecretKey,
    SharedSecret as KemSharedSecret,
};
use pqcrypto_traits::sign::{
    DetachedSignature as SignDetachedSignature, PublicKey as SignPublicKey,
    SecretKey as SignSecretKey,
};
use rand::{Rng, RngCore};
use sha2::Digest;
use std::io::{Read, Write};
use zeroize::Zeroize;

use crate::utils::hexcode::hex_lower;
use crate::utils::text::decimal;

verus! {

// ───────────────────────────── digests ──────────────────────────────

/// SHA-256 of a byte string.
pub uninterp spec fn sha256_digest(data: Seq<u8>) -> Seq<u8>;

/// SHA-512 of a byte string.
pub uninterp spec fn sha512_digest(data: Seq<u8>) -> Seq<u8>;

/// SHA3-256 of a byte string.
pub uninterp spec fn sha3_256_digest(data: Seq<u8>) -> Seq<u8>;

/// SHA3-512 of a byte string.
pub uninterp spec fn sha3_512_digest(data: Seq<u8>) -> Seq<u8>;

/// BLAKE3 (default 32-byte output) of a byte string.
pub uninterp spec fn blake3_digest(data: Seq<u8>) -> Seq<u8>;

/// Calls `sha2::Sha256::digest`. Claimed: the result is the SHA-256 digest, 32 bytes.
#[verifier::external_body]
pub(crate) fn sha256(data: &[u8]) -> (r: Vec<u8>)
    ensures
        r@ == sha256_digest(data@),
        r@.len() == 32,
{
    sha2::Sha256::digest(data).to_vec()
}

/// Calls `sha2::Sha512::digest`. Claimed: the result is the SHA-512 digest, 64 bytes.
#[verifier::external_body]
pub(crate) fn sha512(data: &[u8]) -> (r: Vec<u8>)
    ensures
        r@ == sha512_digest(data@),
        r@.len() == 64,
{
    sha2::Sha512::digest(data).to_vec()
}

/// Calls `sha3::Sha3_256::digest`. Claimed: the result is the SHA3-256 digest, 32 bytes.
#[verifier::external_body]
pub(crate) fn sha3_256(data: &[u8]) -> (r: Vec<u8>)
    ensures
        r@ == sha3_256_digest(data@),
        r@.len() == 32,
{
    sha3::Sha3_256::digest(data).to_vec()
}

/// Calls `sha3::Sha3_512::digest`. Claimed: the result is the SHA3-512 digest, 64 bytes.
#[verifier::external_body]
pub(crate) fn sha3_512(data: &[u8]) -> (r: Vec<u8>)
    ensures
        r@ == sha3_512_digest(data@),
        r@.len() == 64,
{
    sha3::Sha3_512::digest(data).to_vec()
}

/// Calls `blake3::hash` and `Hash::to_hex`. Claimed: the text is the lowercase
/// hexadecimal form (as the crate's `to_hex` writes it) of the 32-byte BLAKE3 digest,
/// 64 characters.
#[verifier::external_body]
pub(crate) fn blake3_hex(data: &[u8]) -> (r: String)
    ensures
        r@ == hex_lower(blake3_digest(data@)),
        r@.len() == 64,
{
    blake3::hash(data).to_hex().to_string()
}

// ───────────────────────── key derivation ──────────────────────────

/// Argon2id with the crate's default parameters, 32 bytes of output.
pub uninterp spec fn argon2id_key(password: Seq<u8>, salt: Seq<u8>) -> Seq<u8>;

/// Calls `argon2::Argon2::default().hash_password_into` with a 32-byte output.
/// Claimed (from the crate's input checks): it succeeds exactly when the password
/// has at most 2^32 - 1 bytes and the salt between 8 and 2^32 - 1 bytes; then the
/// key is `argon2id_key` of the inputs. The error is the crate's `Display` text.
#[verifier::external_body]
pub(crate) fn argon2id_hash(password: &[u8], salt: &[u8]) -> (r: Result<[u8; 32], String>)
    ensures
        r is Ok <==> (password@.len() <= 0xFFFF_FFFF && 8 <= salt@.len() <= 0xFFFF_FFFF),
        r matches Ok(k) ==> k@ == argon2id_key(password@, salt@),
{
    let mut out = [0u8; 32];
    argon2::Argon2::default().hash_password_into(password, salt, &mut out).map(|_| out).map_err(
        |e| e.to_string(),
    )
}

/// HKDF-SHA3-256 (extract with `salt`, expand with `info`) to 32 bytes.
pub uninterp spec fn hkdf_sha3_256_key(salt: Seq<u8>, ikm: Seq<u8>, info: Seq<u8>) -> Seq<u8>;

/// Calls `hkdf::Hkdf::<Sha3_256>::new(Some(salt), ikm)` and `expand(info, 32 bytes)`.
/// Claimed: expansion to 32 bytes never fails (the crate refuses only outputs over
/// 255 hash lengths), and the key is `hkdf_sha3_256_key` of the inputs.
#[verifier::external_body]
pub(crate) fn hkdf_sha3_256(salt: &[u8], ikm: &[u8], info: &[u8]) -> (r: Result<[u8; 32], String>)
    ensures
        r is Ok,
        r matches Ok(k) ==> k@ == hkdf_sha3_256_key(salt@, ikm@, info@),
{
    let hk = hkdf::Hkdf::<sha3::Sha3_256>::new(Some(salt), ikm);
    let mut out = [0u8; 32];
    hk.expand(info, &mut out).map(|_| out).map_err(|e| format!("{:?}", e))
}

// ─────────────────────── ChaCha20-Poly1305 ────────────────────────

/// ChaCha20-Poly1305 encryption (empty associated data): ciphertext then 16-byte tag.
pub uninterp spec fn chacha20poly1305_seal(key: Seq<u8>, nonce: Seq<u8>, plaintext: Seq<u8>) -> Seq<
    u8,
>;

/// ChaCha20-Poly1305 decryption (empty associated data); `None` when the tag does not verify.
pub uninterp spec fn chacha20poly1305_open(key: Seq<u8>, nonce: Seq<u8>, ciphertext: Seq<u8>) -> Option<
    Seq<u8>,
>;

/// The largest plaintext the cipher takes: under 2^32 - 1 blocks of 64 bytes.
pub open spec fn aead_fits(len: int) -> bool {
    len / 64 < 0xFFFF_FFFF
}

/// Calls `ChaCha20Poly1305::new(key).encrypt(nonce, plaintext)`. Claimed: it fails
/// exactly when the plaintext has 2^32 - 1 blocks of 64 bytes or more; otherwise the
/// result is `chacha20poly1305_seal` of the inputs, 16 bytes longer than the plaintext.
/// The error is the `Display` text of `aead::Error`.
#[verifier::external_body]
pub(crate) fn aead_seal(key: &[u8], nonce: &[u8], plaintext: &[u8]) -> (r: Result<Vec<u8>, String>)
    requires
        key@.len() == 32,
        nonce@.len() == 12,
    ensures
        r is Ok <==> aead_fits(plaintext@.len() as int),
        r matches Ok(c) ==> c@ == chacha20poly1305_seal(key@, nonce@, plaintext@) && c@.len()
            == plaintext@.len() + 16,
{
    let cipher = chacha20poly1305::ChaCha20Poly1305::new(chacha20poly1305::Key::from_slice(key));
    cipher.encrypt(chacha20poly1305::Nonce::from_slice(nonce), plaintext).map_err(|e| e.to_string())
}

/// Calls `ChaCha20Poly1305::new(key).decrypt(nonce, ciphertext)`. Claimed: the result
/// is `chacha20poly1305_open` of the inputs, and a ciphertext that sealing made from
/// some plaintext under the same key and nonce opens to that plaintext (the cipher's
/// correctness). The error is the `Display` text of `aead::Error`.
#[verifier::external_body]
pub(crate) fn aead_open(key: &[u8], nonce: &[u8], ciphertext: &[u8]) -> (r: Result<Vec<u8>, String>)
    requires
        key@.len() == 32,
        nonce@.len() == 12,
    ensures
        match chacha20poly1305_open(key@, nonce@, ciphertext@) {
            Some(p) => r is Ok && r->Ok_0@ == p,
            None => r is Err,
        },
        forall|p: Seq<u8>|
            #![trigger chacha20poly1305_seal(key@, nonce@, p)]
            aead_fits(p.len() as int) && ciphertext@ == chacha20poly1305_seal(key@, nonce@, p)
                ==> r is Ok && r->Ok_0@ == p,
{
    let cipher = chacha20poly1305::ChaCha20Poly1305::new(chacha20poly1305::Key::from_slice(key));
    cipher.decrypt(chacha20poly1305::Nonce::from_slice(nonce), ciphertext).map_err(
        |e| e.to_string(),
    )
}

// ──────────────────────────── zlib ────────────────────────────────

/// The zlib stream that `flate2` writes at `Compression::best()`.
pub uninterp spec fn zlib_compressed(data: Seq<u8>) -> Seq<u8>;

/// What `flate2`'s zlib decoder reads from a stream; `None` when it reports an error.
pub uninterp spec fn zlib_decompressed(data: Seq<u8>) -> Option<Seq<u8>>;

/// Calls `ZlibEncoder::new(Vec::new(), Compression::best())`, `write_all` and `finish`.
/// Claimed: it succeeds (writing into a `Vec` never fails, and the deflate stream
/// reports no error on its own input), and the output is `zlib_compressed` of the
/// input. An error would carry `true` when `write_all` reported it and `false` when
/// `finish` did.
#[verifier::external_body]
pub(crate) fn zlib_compress(data: &[u8]) -> (r: Result<Vec<u8>, (bool, String)>)
    ensures
        r is Ok,
        r matches Ok(c) ==> c@ == zlib_compressed(data@),
{
    let mut encoder = flate2::write::ZlibEncoder::new(Vec::new(), flate2::Compression::best());
    match encoder.write_all(data) {
        Ok(()) => encoder.finish().map_err(|e| (false, e.to_string())),
        Err(e) => Err((true, e.to_string())),
    }
}

/// Calls `ZlibDecoder::new(data).read_to_end`. Claimed: the result is
/// `zlib_decompressed` of the input, and decompressing what compression wrote
/// gives back the original bytes (zlib is lossless).
#[verifier::external_body]
pub(crate) fn zlib_decompress(data: &[u8]) -> (r: Result<Vec<u8>, String>)
    ensures
        match zlib_decompressed(data@) {
            Some(p) => r is Ok && r->Ok_0@ == p,
            None => r is Err,
        },
        forall|p: Seq<u8>|
            #![trigger zlib_compressed(p)]
            data@ == zlib_compressed(p) ==> r is Ok && r->Ok_0@ == p,
{
    let mut decoder = flate2::read::ZlibDecoder::new(data);
    let mut out = Vec::new();
    decoder.read_to_end(&mut out).map(|_| out).map_err(|e| e.to_string())
}

// ──────────────────────────── randomness ───────────────────────────

/// Calls `rand::rngs::OsRng.fill_bytes`. Claimed: `n` bytes; their values come from
/// the operating system and are not stated.
#[verifier::external_body]
pub(crate) fn random_bytes(n: usize) -> (r: Vec<u8>)
    ensures
        r@.len() == n,
{
    let mut v = vec![0u8; n];
    rand::rngs::OsRng.fill_bytes(&mut v);
    v
}

/// Calls `rand::rngs::OsRng.gen_range(16..=271)`. Claimed: a number in that range.
#[verifier::external_body]
pub(crate) fn random_jitter() -> (r: usize)
    ensures
        16 <= r <= 271,
{
    rand::rngs::OsRng.gen_range(16..=271)
}

/// Calls `Zeroize::zeroize` on a byte vector: the bytes are overwritten with zeros
/// and the vector is cleared. Claimed: the vector is empty afterwards.
#[verifier::external_body]
pub(crate) fn wipe(v: &mut Vec<u8>)
    ensures
        final(v)@.len() == 0,
{
    v.zeroize();
}

// ───────────────────────── Kyber1024 (KEM) ─────────────────────────

/// Kyber1024 public key length in bytes.
pub open spec fn kyber_public_key_len() -> nat {
    1568
}

/// Kyber1024 secret key length in bytes.
pub open spec fn kyber_secret_key_len() -> nat {
    3168
}

/// Kyber1024 ciphertext length in bytes.
pub open spec fn kyber_ciphertext_len() -> nat {
    1568
}

/// The `Display` text of a `pqcrypto_traits::Error::BadLength` for the named type.
pub open spec fn bad_length_message(name: Seq<char>, expected: nat, actual: nat) -> Seq<char> {
    "error: "@ + name + " expected "@ + decimal(expected) + " bytes, got "@ + decimal(actual)
}

/// The shared secret that Kyber1024 decapsulation derives.
pub uninterp spec fn kyber_shared_secret(secret_key: Seq<u8>, ciphertext: Seq<u8>) -> Seq<u8>;

/// A Kyber1024 secret key holds its public key: after the 1536 bytes of the
/// IND-CPA secret key come the 1568 bytes of the public key (PQClean's `kem.c`
/// copies it there).
pub open spec fn kyber_pair(public_key: Seq<u8>, secret_key: Seq<u8>) -> bool {
    public_key.len() == kyber_public_key_len() && secret_key.len() == kyber_secret_key_len()
        && secret_key.subrange(1536, 3104) == public_key
}

/// `(ciphertext, shared_secret)` is an encapsulation under the public key: a pair that
/// Kyber1024 encapsulation can give for it (it draws fresh randomness each time).
pub uninterp spec fn kyber_encapsulation(public_key: Seq<u8>, ciphertext: Seq<u8>, shared_secret: Seq<u8>) -> bool;

/// Calls `kyber1024::keypair`. Claimed: a public key of 1568 bytes and a secret key
/// of 3168 bytes that holds the public key at bytes 1536 to 3104 (`kyber_pair`);
/// the keys are random.
#[verifier::external_body]
pub(crate) fn kyber_keypair() -> (r: (Vec<u8>, Vec<u8>))
    ensures
        kyber_pair(r.0@, r.1@),
{
    let (pk, sk) = pqcrypto_kyber::kyber1024::keypair();
    (KemPublicKey::as_bytes(&pk).to_vec(), KemSecretKey::as_bytes(&sk).to_vec())
}

/// Calls `kyber1024::PublicKey::from_bytes` and, when it succeeds, `kyber1024::encapsulate`.
/// Claimed: it fails exactly on keys not 1568 bytes long, with the `BadLength` text;
/// otherwise a 1568-byte ciphertext and a 32-byte shared secret, both random, that
/// form an encapsulation under the key (`kyber_encapsulation`).
#[verifier::external_body]
pub(crate) fn kyber_encapsulate(public_key: &[u8]) -> (r: Result<(Vec<u8>, Vec<u8>), String>)
    ensures
        r is Ok <==> public_key@.len() == kyber_public_key_len(),
        r matches Err(m) ==> m@ == bad_length_message(
            "PublicKey"@,
            kyber_public_key_len(),
            public_key@.len(),
        ),
        r matches Ok(p) ==> p.0@.len() == kyber_ciphertext_len() && p.1@.len() == 32
            && kyber_encapsulation(public_key@, p.0@, p.1@),
{
    match pqcrypto_kyber::kyber1024::PublicKey::from_bytes(public_key) {
        Ok(pk) => {
            let (ss, ct) = pqcrypto_kyber::kyber1024::encapsulate(&pk);
            Ok((KemCiphertext::as_bytes(&ct).to_vec(), KemSharedSecret::as_bytes(&ss).to_vec()))
        },
        Err(e) => Err(e.to_string()),
    }
}

/// Calls `kyber1024::SecretKey::from_bytes`. Claimed: it fails exactly on keys not
/// 3168 bytes long, with the `BadLength` text.
#[verifier::external_body]
pub(crate) fn kyber_secret_key_check(secret_key: &[u8]) -> (r: Result<(), String>)
    ensures
        r is Ok <==> secret_key@.len() == kyber_secret_key_len(),
        r matches Err(m) ==> m@ == bad_length_message(
            "SecretKey"@,
            kyber_secret_key_len(),
            secret_key@.len(),
        ),
{
    pqcrypto_kyber::kyber1024::SecretKey::from_bytes(secret_key).map(|_| ()).map_err(
        |e| e.to_string(),
    )
}

/// Calls `kyber1024::Ciphertext::from_bytes`. Claimed: it fails exactly on
/// ciphertexts not 1568 bytes long, with the `BadLength` text.
#[verifier::external_body]
pub(crate) fn kyber_ciphertext_check(ciphertext: &[u8]) -> (r: Result<(), String>)
    ensures
        r is Ok <==> ciphertext@.len() == kyber_ciphertext_len(),
        r matches Err(m) ==> m@ == bad_length_message(
            "Ciphertext"@,
            kyber_ciphertext_len(),
            ciphertext@.len(),
        ),
{
    pqcrypto_kyber::kyber1024::Ciphertext::from_bytes(ciphertext).map(|_| ()).map_err(
        |e| e.to_string(),
    )
}

/// Calls `kyber1024::decapsulate` on a secret key and a ciphertext of the right
/// lengths. Claimed: the result is `kyber_shared_secret` of the two, 32 bytes.
#[verifier::external_body]
pub(crate) fn kyber_decapsulate(secret_key: &[u8], ciphertext: &[u8]) -> (r: Vec<u8>)
    requires
        secret_key@.len() == kyber_secret_key_len(),
        ciphertext@.len() == kyber_ciphertext_len(),
    ensures
        r@ == kyber_shared_secret(secret_key@, ciphertext@),
        r@.len() == 32,
{
    match (
        pqcrypto_kyber::kyber1024::SecretKey::from_bytes(secret_key),
        pqcrypto_kyber::kyber1024::Ciphertext::from_bytes(ciphertext),
    ) {
        (Ok(sk), Ok(ct)) => KemSharedSecret::as_bytes(
            &pqcrypto_kyber::kyber1024::decapsulate(&ct, &sk),
        ).to_vec(),
        _ => Vec::new(),
    }
}

// ──────────────────────── Dilithium5 (signatures) ─────────────────────

/// Dilithium5 public key length in bytes.
pub open spec fn dilithium_public_key_len() -> nat {
    2592
}

/// Dilithium5 secret key length in bytes.
pub open spec fn dilithium_secret_key_len() -> nat {
    4896
}

/// Dilithium5 detached signature length in bytes.
pub open spec fn dilithium_signature_len() -> nat {
    4627
}

/// The detached Dilithium5 signature of a message (signing is deterministic).
pub uninterp spec fn dilithium_signature(secret_key: Seq<u8>, message: Seq<u8>) -> Seq<u8>;

/// Whether a detached Dilithium5 signature verifies.
pub uninterp spec fn dilithium_verifies(public_key: Seq<u8>, message: Seq<u8>, signature: Seq<u8>) -> bool;

/// The two keys were generated together by `dilithium5::keypair` (so the `tr` the
/// secret key stores is the hash of this public key, and its `rho` and `t1` agree).
pub uninterp spec fn dilithium_pair(public_key: Seq<u8>, secret_key: Seq<u8>) -> bool;

/// Calls `dilithium5::keypair`. Claimed: a public key of 2592 bytes and a secret key
/// of 4896 bytes, generated together (`dilithium_pair`); the keys are random.
#[verifier::external_body]
pub(crate) fn dilithium_keypair() -> (r: (Vec<u8>, Vec<u8>))
    ensures
        r.0@.len() == dilithium_public_key_len(),
        r.1@.len() == dilithium_secret_key_len(),
        dilithium_pair(r.0@, r.1@),
{
    let (pk, sk) = pqcrypto_dilithium::dilithium5::keypair();
    (SignPublicKey::as_bytes(&pk).to_vec(), SignSecretKey::as_bytes(&sk).to_vec())
}

/// Calls `dilithium5::SecretKey::from_bytes` and, when it succeeds,
/// `dilithium5::detached_sign`. Claimed: it fails exactly on keys not 4896 bytes
/// long, with the `BadLength` text; otherwise the signature is
/// `dilithium_signature` of key and message, 4627 bytes.
#[verifier::external_body]
pub(crate) fn dilithium_sign(secret_key: &[u8], message: &[u8]) -> (r: Result<Vec<u8>, String>)
    ensures
        r is Ok <==> secret_key@.len() == dilithium_secret_key_len(),
        r matches Err(m) ==> m@ == bad_length_message(
            "SecretKey"@,
            dilithium_secret_key_len(),
            secret_key@.len(),
        ),
        r matches Ok(s) ==> s@ == dilithium_signature(secret_key@, message@) && s@.len()
            == dilithium_signature_len(),
{
    match pqcrypto_dilithium::dilithium5::SecretKey::from_bytes(secret_key) {
        Ok(sk) => Ok(SignDetachedSignature::as_bytes(
            &pqcrypto_dilithium::dilithium5::detached_sign(message, &sk),
        ).to_vec()),
        Err(e) => Err(e.to_string()),
    }
}

/// Calls `dilithium5::PublicKey::from_bytes`, `DetachedSignature::from_bytes` and
/// `verify_detached_signature`. Claimed: a key not 2592 bytes long or a signature not
/// 4627 bytes long gives `false` (`from_bytes` refuses longer ones, the C verifier
/// any other length); otherwise the result is `dilithium_verifies`. A signature of
/// this message made by the secret key generated together with this public key
/// verifies (Dilithium's signing loop only outputs signatures that pass
/// verification under the matching public key). Nothing is claimed for keys that
/// `keypair` did not make together.
#[verifier::external_body]
pub(crate) fn dilithium_verify(public_key: &[u8], message: &[u8], signature: &[u8]) -> (r: bool)
    ensures
        r == (public_key@.len() == dilithium_public_key_len() && signature@.len()
            == dilithium_signature_len() && dilithium_verifies(public_key@, message@, signature@)),
        forall|secret_key: Seq<u8>|
            #![trigger dilithium_signature(secret_key, message@), dilithium_pair(public_key@, secret_key)]
            dilithium_pair(public_key@, secret_key) && secret_key.len() == dilithium_secret_key_len()
                && public_key@.len() == dilithium_public_key_len() && signature@.len()
                == dilithium_signature_len() && signature@ == dilithium_signature(
                secret_key,
                message@,
            ) ==> r,
{
    match (
        pqcrypto_dilithium::dilithium5::PublicKey::from_bytes(public_key),
        pqcrypto_dilithium::dilithium5::DetachedSignature::from_bytes(signature),
    ) {
        (Ok(pk), Ok(sig)) => pqcrypto_dilithium::dilithium5::verify_detached_signature(
            &sig,
            message,
            &pk,
        ).is_ok(),
        _ => false,
    }
}

} // verus!
