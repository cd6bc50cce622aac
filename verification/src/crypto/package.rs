//! The self-contained encrypted package: its byte layout, its sealing, and its
//! opening in three steps (the app parses the JSON texts in between).
//!
//! Layout: recipient KEM ciphertext, ephemeral KEM ciphertext and sealed ephemeral
//! private key, each after its length (four bytes, little-endian); the ephemeral
//! nonce (12), the salt (32), the payload nonce (12), the metadata nonce (12); the
//! sealed metadata after its length; then the sealed payload and the padding.
use vstd::prelude::*;

use vstd::string::StringSliceAdditionalSpecFns;

use vstd::bytes::{
    lemma_auto_spec_u32_to_from_le_bytes, spec_u32_from_le_bytes, spec_u32_to_le_bytes,
    u32_from_le_bytes, u32_to_le_bytes,
};

use crate::crypto::cipher::{
    bucket_ceiling, compress_data, decompress_data, derive_hybrid_encryption_key, hybrid_key,
    optional_bytes, password_bytes, signal_style_padding_len,
};
use crate::crypto::key_manager::{
    decapsulate_secret, decapsulation_refused, derive_argon2_key, encapsulate_secret,
    encapsulation_refused, password_fits, PQCKeyPairHex,
    PQCPrivateKeyHex,
};
use crate::crypto::primitives::{
    aead_fits, aead_open, aead_seal, argon2id_key, chacha20poly1305_open, chacha20poly1305_seal,
    kyber_encapsulation, random_bytes, sha3_256, sha3_256_digest, wipe, zlib_compressed,
    zlib_decompressed,
};
use crate::utils::bytes::{append_bytes, copy_range};
use crate::utils::hexcode::{encode_hex, hex_decoded, hex_lower};
use crate::utils::metadata::{
    clean_file_metadata_in_memory, scannable, scrub_fault_message, scrubbed, ScanFault,
};
use crate::utils::text::{concat_str, has_prefix, lemma_concat_prefix};

verus! {

// ──────────────────────────────── layout ────────────────────────────────

/// A length as the package writes it: four bytes, little-endian (cut to 32 bits).
pub open spec fn le32(n: nat) -> Seq<u8> {
    spec_u32_to_le_bytes(n as u32)
}

/// The number that four little-endian bytes at `at` stand for.
pub open spec fn read32(b: Seq<u8>, at: int) -> nat {
    spec_u32_from_le_bytes(b.subrange(at, at + 4)) as nat
}

/// The bytes of a package.
pub open spec fn package_layout(
    ct_recip: Seq<u8>,
    ct_ephem: Seq<u8>,
    sealed_ephem_key: Seq<u8>,
    ephem_nonce: Seq<u8>,
    salt: Seq<u8>,
    payload_nonce: Seq<u8>,
    meta_nonce: Seq<u8>,
    sealed_metadata: Seq<u8>,
    tail: Seq<u8>,
) -> Seq<u8> {
    le32(ct_recip.len()) + ct_recip + le32(ct_ephem.len()) + ct_ephem + le32(
        sealed_ephem_key.len(),
    ) + sealed_ephem_key + ephem_nonce + salt + payload_nonce + meta_nonce + le32(
        sealed_metadata.len(),
    ) + sealed_metadata + tail
}

/// Why a package's frame cannot be read.
#[derive(PartialEq, Eq, Structural, Clone, Copy, Debug)]
pub enum FrameFault {
    /// Under 100 bytes.
    TooSmall,
    /// The recipient ciphertext runs past the end.
    RecipientCiphertext,
    /// The ephemeral ciphertext runs past the end.
    EphemeralCiphertext,
    /// The sealed ephemeral key runs past the end.
    EphemeralKey,
    /// The nonces and salt run past the end.
    NoncesAndSalt,
    /// The sealed metadata runs past the end.
    Metadata,
    /// A length field lies past the end: reading it would index out of bounds.
    Overrun,
}

/// The message for a frame fault.
pub open spec fn frame_fault_message(f: FrameFault) -> Seq<char> {
    match f {
        FrameFault::TooSmall => "Datos del paquete cifrado corruptos o demasiado pequeños"@,
        FrameFault::RecipientCiphertext => "Paquete corrupto (recip ct)"@,
        FrameFault::EphemeralCiphertext => "Paquete corrupto (ephem ct)"@,
        FrameFault::EphemeralKey => "Paquete corrupto (enc ephem sk)"@,
        FrameFault::NoncesAndSalt => "Paquete corrupto (nonces y salt)"@,
        FrameFault::Metadata => "Paquete corrupto (metadata)"@,
        FrameFault::Overrun => Seq::empty(),
    }
}

/// The four variable lengths of a package's frame (recipient ciphertext, ephemeral
/// ciphertext, sealed ephemeral key, sealed metadata), or why it cannot be read.
pub open spec fn frame_lengths(b: Seq<u8>) -> Result<(nat, nat, nat, nat), FrameFault> {
    if b.len() < 100 {
        Err(FrameFault::TooSmall)
    } else {
        let l1 = read32(b, 0);
        let c1: int = 4int + l1;
        if c1 > b.len() {
            Err(FrameFault::RecipientCiphertext)
        } else if c1 + 4 > b.len() {
            Err(FrameFault::Overrun)
        } else {
            let l2 = read32(b, c1);
            let c2: int = c1 + 4 + l2;
            if c2 > b.len() {
                Err(FrameFault::EphemeralCiphertext)
            } else if c2 + 4 > b.len() {
                Err(FrameFault::Overrun)
            } else {
                let l3 = read32(b, c2);
                let c3: int = c2 + 4 + l3;
                if c3 > b.len() {
                    Err(FrameFault::EphemeralKey)
                } else if c3 + 68 > b.len() {
                    Err(FrameFault::NoncesAndSalt)
                } else if c3 + 72 > b.len() {
                    Err(FrameFault::Overrun)
                } else {
                    let lm = read32(b, c3 + 68);
                    if c3 + 72 + lm > b.len() {
                        Err(FrameFault::Metadata)
                    } else {
                        Ok((l1, l2, l3, lm))
                    }
                }
            }
        }
    }
}

/// The fields of a package's frame.
pub struct PackageFrame {
    pub ct_recip: Vec<u8>,
    pub ct_ephem: Vec<u8>,
    pub sealed_ephem_key: Vec<u8>,
    pub ephem_nonce: Vec<u8>,
    pub salt: Vec<u8>,
    pub payload_nonce: Vec<u8>,
    pub meta_nonce: Vec<u8>,
    pub sealed_metadata: Vec<u8>,
    pub payload_and_padding: Vec<u8>,
}

/// `f` holds the fields of package `b`, whose frame has the lengths given.
pub open spec fn frame_of(f: &PackageFrame, b: Seq<u8>, l1: nat, l2: nat, l3: nat, lm: nat) -> bool {
    let c1: int = 4int + l1;
    let c2: int = c1 + 4 + l2;
    let c3: int = c2 + 4 + l3;
    &&& f.ct_recip@ == b.subrange(4, c1 as int)
    &&& f.ct_ephem@ == b.subrange(c1 + 4, c2 as int)
    &&& f.sealed_ephem_key@ == b.subrange(c2 + 4, c3 as int)
    &&& f.ephem_nonce@ == b.subrange(c3 as int, c3 + 12)
    &&& f.salt@ == b.subrange(c3 + 12, c3 + 44)
    &&& f.payload_nonce@ == b.subrange(c3 + 44, c3 + 56)
    &&& f.meta_nonce@ == b.subrange(c3 + 56, c3 + 68)
    &&& f.sealed_metadata@ == b.subrange(c3 + 72, c3 + 72 + lm)
    &&& f.payload_and_padding@ == b.subrange(c3 + 72 + lm, b.len() as int)
}

fn read_u32_at(b: &[u8], at: usize) -> (r: usize)
    requires
        at + 4 <= b@.len(),
        b@.len() <= usize::MAX,
    ensures
        r == read32(b@, at as int),
        r <= u32::MAX,
{
    let four = copy_range(b, at, at + 4);
    u32_from_le_bytes(four.as_slice()) as usize
}

/// Reads the frame of a package, reporting every fault, the out-of-bounds one included.
pub fn scan_package_frame(b: &[u8]) -> (res: Result<PackageFrame, FrameFault>)
    ensures
        match frame_lengths(b@) {
            Ok((l1, l2, l3, lm)) => res is Ok && frame_of(&res->Ok_0, b@, l1, l2, l3, lm),
            Err(f) => res == Err::<PackageFrame, FrameFault>(f),
        },
{
    let len = b.len();
    if len < 100 {
        return Err(FrameFault::TooSmall);
    }
    assert(b@.len() == len);
    let l1 = read_u32_at(b, 0);
    if l1 > len - 4 {
        return Err(FrameFault::RecipientCiphertext);
    }
    let c1: usize = 4 + l1;
    if len - c1 < 4 {
        return Err(FrameFault::Overrun);
    }
    let l2 = read_u32_at(b, c1);
    if l2 > len - c1 - 4 {
        return Err(FrameFault::EphemeralCiphertext);
    }
    let c2: usize = c1 + 4 + l2;
    if len - c2 < 4 {
        return Err(FrameFault::Overrun);
    }
    let l3 = read_u32_at(b, c2);
    if l3 > len - c2 - 4 {
        return Err(FrameFault::EphemeralKey);
    }
    let c3: usize = c2 + 4 + l3;
    if len - c3 < 68 {
        return Err(FrameFault::NoncesAndSalt);
    }
    if len - c3 < 72 {
        return Err(FrameFault::Overrun);
    }
    let lm = read_u32_at(b, c3 + 68);
    if lm > len - c3 - 72 {
        return Err(FrameFault::Metadata);
    }
    Ok(
        PackageFrame {
            ct_recip: copy_range(b, 4, c1),
            ct_ephem: copy_range(b, c1 + 4, c2),
            sealed_ephem_key: copy_range(b, c2 + 4, c3),
            ephem_nonce: copy_range(b, c3, c3 + 12),
            salt: copy_range(b, c3 + 12, c3 + 44),
            payload_nonce: copy_range(b, c3 + 44, c3 + 56),
            meta_nonce: copy_range(b, c3 + 56, c3 + 68),
            sealed_metadata: copy_range(b, c3 + 72, c3 + 72 + lm),
            payload_and_padding: copy_range(b, c3 + 72 + lm, len),
        },
    )
}

/// Reading the frame of a laid-out package gives back its fields (when the
/// variable fields' lengths fit in 32 bits and the package has at least 100 bytes).
pub proof fn lemma_frame_roundtrip(
    ct_recip: Seq<u8>,
    ct_ephem: Seq<u8>,
    sealed_ephem_key: Seq<u8>,
    ephem_nonce: Seq<u8>,
    salt: Seq<u8>,
    payload_nonce: Seq<u8>,
    meta_nonce: Seq<u8>,
    sealed_metadata: Seq<u8>,
    tail: Seq<u8>,
)
    requires
        ct_recip.len() <= u32::MAX,
        ct_ephem.len() <= u32::MAX,
        sealed_ephem_key.len() <= u32::MAX,
        sealed_metadata.len() <= u32::MAX,
        ephem_nonce.len() == 12,
        salt.len() == 32,
        payload_nonce.len() == 12,
        meta_nonce.len() == 12,
        package_layout(
            ct_recip,
            ct_ephem,
            sealed_ephem_key,
            ephem_nonce,
            salt,
            payload_nonce,
            meta_nonce,
            sealed_metadata,
            tail,
        ).len() >= 100,
    ensures
        ({
            let b = package_layout(
                ct_recip,
                ct_ephem,
                sealed_ephem_key,
                ephem_nonce,
                salt,
                payload_nonce,
                meta_nonce,
                sealed_metadata,
                tail,
            );
            let l1 = ct_recip.len();
            let l2 = ct_ephem.len();
            let l3 = sealed_ephem_key.len();
            let lm = sealed_metadata.len();
            let c1: int = 4int + l1;
            let c2: int = c1 + 4 + l2;
            let c3: int = c2 + 4 + l3;
            &&& frame_lengths(b) == Ok::<(nat, nat, nat, nat), FrameFault>((l1, l2, l3, lm))
            &&& b.subrange(4, c1 as int) == ct_recip
            &&& b.subrange(c1 + 4, c2 as int) == ct_ephem
            &&& b.subrange(c2 + 4, c3 as int) == sealed_ephem_key
            &&& b.subrange(c3 as int, c3 + 12) == ephem_nonce
            &&& b.subrange(c3 + 12, c3 + 44) == salt
            &&& b.subrange(c3 + 44, c3 + 56) == payload_nonce
            &&& b.subrange(c3 + 56, c3 + 68) == meta_nonce
            &&& b.subrange(c3 + 72, c3 + 72 + lm) == sealed_metadata
            &&& b.subrange(c3 + 72 + lm, b.len() as int) == tail
        }),
{
    lemma_auto_spec_u32_to_from_le_bytes();
    let b = package_layout(
        ct_recip,
        ct_ephem,
        sealed_ephem_key,
        ephem_nonce,
        salt,
        payload_nonce,
        meta_nonce,
        sealed_metadata,
        tail,
    );
    let l1 = ct_recip.len();
    let l2 = ct_ephem.len();
    let l3 = sealed_ephem_key.len();
    let lm = sealed_metadata.len();
    let c1: int = 4int + l1;
    let c2: int = c1 + 4 + l2;
    let c3: int = c2 + 4 + l3;
    assert(b.subrange(0, 4) == le32(l1));
    assert(b.subrange(c1 as int, c1 + 4) == le32(l2));
    assert(b.subrange(c2 as int, c2 + 4) == le32(l3));
    assert(b.subrange(c3 + 68, c3 + 72) == le32(lm));
    assert((l1 as u32) as nat == l1);
    assert((l2 as u32) as nat == l2);
    assert((l3 as u32) as nat == l3);
    assert((lm as u32) as nat == lm);
    assert(b.subrange(4, c1 as int) == ct_recip);
    assert(b.subrange(c1 + 4, c2 as int) == ct_ephem);
    assert(b.subrange(c2 + 4, c3 as int) == sealed_ephem_key);
    assert(b.subrange(c3 as int, c3 + 12) == ephem_nonce);
    assert(b.subrange(c3 + 12, c3 + 44) == salt);
    assert(b.subrange(c3 + 44, c3 + 56) == payload_nonce);
    assert(b.subrange(c3 + 56, c3 + 68) == meta_nonce);
    assert(b.subrange(c3 + 72, c3 + 72 + lm) == sealed_metadata);
    assert(b.subrange(c3 + 72 + lm, b.len() as int) == tail);
}

// ──────────────────────────────── sealing ────────────────────────────────

/// The plaintext side of a package: the size of the (cleaned) file, its SHA3-256
/// checksum in hexadecimal, and its zlib compression.
pub struct PreparedPlaintext {
    pub original_size: u64,
    pub sha3_256_checksum: String,
    pub compressed: Vec<u8>,
}

/// The bytes a package encrypts: the file, without its metadata when cleaning is asked.
pub open spec fn plaintext_of(data: Seq<u8>, filename: Seq<char>, metadata_clean: bool) -> Result<
    Seq<u8>,
    ScanFault,
> {
    if metadata_clean {
        scrubbed(data, filename)
    } else {
        Ok(data)
    }
}

/// Cleans (when asked), measures, checksums and compresses the file a package
/// will carry.
pub fn prepare_plaintext(data: &[u8], filename: &str, metadata_clean: bool) -> (res: Result<
    PreparedPlaintext,
    String,
>)
    requires
        metadata_clean ==> scannable(data@) && scrubbed(data@, filename@) != Err::<
            Seq<u8>,
            ScanFault,
        >(ScanFault::Overrun),
    ensures
        match plaintext_of(data@, filename@, metadata_clean) {
            Err(f) => res is Err && res->Err_0@ == scrub_fault_message(filename@, f),
            Ok(plain) => res is Ok && {
                let p = res->Ok_0;
                &&& p.original_size == plain.len()
                &&& p.sha3_256_checksum@ == hex_lower(sha3_256_digest(plain))
                &&& p.compressed@ == zlib_compressed(plain)
            },
        },
{
    let mut plain = copy_range(data, 0, data.len());
    assert(plain@ == data@);
    if metadata_clean {
        clean_file_metadata_in_memory(&mut plain, filename)?;
    }
    let original_size = plain.len() as u64;
    let checksum = encode_hex(sha3_256(plain.as_slice()).as_slice());
    let compressed = compress_data(plain.as_slice())?;
    wipe(&mut plain);
    Ok(PreparedPlaintext { original_size, sha3_256_checksum: checksum, compressed })
}

/// The password bytes that protect the ephemeral key: the password, or nothing.
pub open spec fn password_or_empty(password: Option<Seq<u8>>) -> Seq<u8> {
    match password {
        Some(p) => p,
        None => Seq::empty(),
    }
}

/// `pkg` is the package that sealing writes with the given random values: the
/// ciphertexts and shared secrets of the two encapsulations, the salt, the three
/// nonces and the padding.
pub open spec fn sealed_with(
    pkg: Seq<u8>,
    ct_recip: Seq<u8>,
    ss_recip: Seq<u8>,
    ct_ephem: Seq<u8>,
    ss_ephem: Seq<u8>,
    salt: Seq<u8>,
    ephem_nonce: Seq<u8>,
    payload_nonce: Seq<u8>,
    meta_nonce: Seq<u8>,
    padding: Seq<u8>,
    ephemeral_private_json: Seq<u8>,
    password: Option<Seq<u8>>,
    pepper: Option<Seq<u8>>,
    metadata_json: Seq<u8>,
    compressed: Seq<u8>,
) -> bool {
    let key = hybrid_key(ss_recip + ss_ephem, password, salt, pepper);
    let sealed_payload = chacha20poly1305_seal(key, payload_nonce, compressed);
    &&& ct_recip.len() == 1568 && ss_recip.len() == 32
    &&& ct_ephem.len() == 1568 && ss_ephem.len() == 32
    &&& salt.len() == 32 && ephem_nonce.len() == 12 && payload_nonce.len() == 12
        && meta_nonce.len() == 12
    &&& sealed_payload.len() == compressed.len() + 16
    &&& chacha20poly1305_seal(key, meta_nonce, metadata_json).len() == metadata_json.len() + 16
    &&& chacha20poly1305_seal(
        argon2id_key(password_or_empty(password), salt),
        ephem_nonce,
        ephemeral_private_json,
    ).len() == ephemeral_private_json.len() + 16
    &&& bucket_ceiling(sealed_payload.len()) - sealed_payload.len() + 16 <= padding.len()
        <= bucket_ceiling(sealed_payload.len()) - sealed_payload.len() + 271
    &&& pkg == package_layout(
        ct_recip,
        ct_ephem,
        chacha20poly1305_seal(
            argon2id_key(password_or_empty(password), salt),
            ephem_nonce,
            ephemeral_private_json,
        ),
        ephem_nonce,
        salt,
        payload_nonce,
        meta_nonce,
        chacha20poly1305_seal(key, meta_nonce, metadata_json),
        sealed_payload + padding,
    )
}

/// `pkg` is a package sealed from these inputs, for some values of the random ones:
/// the recipient's shared secret and ciphertext form an encapsulation under the
/// recipient's Kyber key, and the ephemeral ones under the ephemeral key.
pub open spec fn is_sealed_package(
    pkg: Seq<u8>,
    recipient_kem: Seq<u8>,
    ephemeral_kem: Seq<u8>,
    ephemeral_private_json: Seq<u8>,
    password: Option<Seq<u8>>,
    pepper: Option<Seq<u8>>,
    metadata_json: Seq<u8>,
    compressed: Seq<u8>,
) -> bool {
    exists|
        ct_recip: Seq<u8>,
        ss_recip: Seq<u8>,
        ct_ephem: Seq<u8>,
        ss_ephem: Seq<u8>,
        salt: Seq<u8>,
        ephem_nonce: Seq<u8>,
        payload_nonce: Seq<u8>,
        meta_nonce: Seq<u8>,
        padding: Seq<u8>,
    |
        sealed_with(
            pkg,
            ct_recip,
            ss_recip,
            ct_ephem,
            ss_ephem,
            salt,
            ephem_nonce,
            payload_nonce,
            meta_nonce,
            padding,
            ephemeral_private_json,
            password,
            pepper,
            metadata_json,
            compressed,
        ) && kyber_encapsulation(recipient_kem, ct_recip, ss_recip) && kyber_encapsulation(
            ephemeral_kem,
            ct_ephem,
            ss_ephem,
        )
}

proof fn lemma_sealed_intro(
    pkg: Seq<u8>,
    recipient_kem: Seq<u8>,
    ephemeral_kem: Seq<u8>,
    ct_recip: Seq<u8>,
    ss_recip: Seq<u8>,
    ct_ephem: Seq<u8>,
    ss_ephem: Seq<u8>,
    salt: Seq<u8>,
    ephem_nonce: Seq<u8>,
    payload_nonce: Seq<u8>,
    meta_nonce: Seq<u8>,
    padding: Seq<u8>,
    ephemeral_private_json: Seq<u8>,
    password: Option<Seq<u8>>,
    pepper: Option<Seq<u8>>,
    metadata_json: Seq<u8>,
    compressed: Seq<u8>,
)
    requires
        sealed_with(
            pkg,
            ct_recip,
            ss_recip,
            ct_ephem,
            ss_ephem,
            salt,
            ephem_nonce,
            payload_nonce,
            meta_nonce,
            padding,
            ephemeral_private_json,
            password,
            pepper,
            metadata_json,
            compressed,
        ),
        kyber_encapsulation(recipient_kem, ct_recip, ss_recip),
        kyber_encapsulation(ephemeral_kem, ct_ephem, ss_ephem),
    ensures
        is_sealed_package(
            pkg,
            recipient_kem,
            ephemeral_kem,
            ephemeral_private_json,
            password,
            pepper,
            metadata_json,
            compressed,
        ),
{
}

/// The bytes of the hardware pepper, when it was obtained.
pub open spec fn pepper_bytes(pepper: Option<Result<Vec<u8>, String>>) -> Option<Seq<u8>> {
    match pepper {
        Some(Ok(p)) => Some(p@),
        _ => None,
    }
}

/// Appends a length as four little-endian bytes (cut to 32 bits).
fn push_len32(v: &mut Vec<u8>, n: usize)
    ensures
        final(v)@ == old(v)@ + le32(n as nat),
{
    #[verifier::truncate]
    let short = n as u32;
    let bytes = u32_to_le_bytes(short);
    append_bytes(v, bytes.as_slice());
}

/// The encapsulation key of a public key text: its bytes, when they are a Kyber1024 key.
pub open spec fn kem_key_usable(public_key: PQCKeyPairHex) -> bool {
    hex_decoded_len(public_key.kem_public@) == Some(1568nat)
}

/// Both public key texts carry Kyber1024 keys.
pub open spec fn kem_keys_usable(recipient: Result<PQCKeyPairHex, String>, ephemeral_public: PQCKeyPairHex) -> bool {
    recipient matches Ok(k) && kem_key_usable(k) && kem_key_usable(ephemeral_public)
}

/// The length of the bytes a hexadecimal text stands for.
pub open spec fn hex_decoded_len(s: Seq<char>) -> Option<nat> {
    match crate::utils::hexcode::hex_decoded(s) {
        Some(b) => Some(b.len()),
        None => None,
    }
}

/// Seals a prepared file and its metadata (already in JSON) into a package with
/// forward secrecy: shared secrets are encapsulated for the recipient and for a
/// fresh ephemeral key pair, whose private half (JSON) travels sealed under the
/// password's Argon2id key; the hybrid key seals metadata and payload, and random
/// padding hides the payload's size.
pub fn seal_package(
    prepared: &PreparedPlaintext,
    metadata_json: &[u8],
    recipient: &Result<PQCKeyPairHex, String>,
    ephemeral_public: &PQCKeyPairHex,
    ephemeral_private_json: &[u8],
    password: Option<&str>,
    hardware_pepper: Option<Result<Vec<u8>, String>>,
) -> (res: Result<Vec<u8>, String>)
    requires
        prepared.compressed@.len() + 16 + 16 * 1024 * 1024 <= usize::MAX,
    ensures
        res is Ok <==> ({
            &&& recipient matches Ok(k) && kem_key_usable(*k)
            &&& kem_key_usable(*ephemeral_public)
            &&& password_fits(password_or_empty(password_bytes(password)))
            &&& aead_fits(ephemeral_private_json@.len() as int)
            &&& !(hardware_pepper matches Some(Err(_)))
            &&& aead_fits(metadata_json@.len() as int)
            &&& aead_fits(prepared.compressed@.len() as int)
        }),
        recipient matches Err(e) ==> res == Err::<Vec<u8>, String>(*e),
        recipient matches Ok(k) ==> (!kem_key_usable(*k) ==> res is Err && encapsulation_refused(
            *k,
            res->Err_0@,
        )),
        recipient matches Ok(k) ==> (kem_key_usable(*k) && !kem_key_usable(*ephemeral_public)
            ==> res is Err && encapsulation_refused(*ephemeral_public, res->Err_0@)),
        kem_keys_usable(*recipient, *ephemeral_public) && !password_fits(
            password_or_empty(password_bytes(password)),
        ) ==> res is Err && has_prefix(res->Err_0@, "Error en Argon2id: "@),
        kem_keys_usable(*recipient, *ephemeral_public) && password_fits(
            password_or_empty(password_bytes(password)),
        ) && !aead_fits(ephemeral_private_json@.len() as int) ==> res is Err && has_prefix(
            res->Err_0@,
            "Error al cifrar clave de sesión efímera: "@,
        ),
        hardware_pepper matches Some(Err(e)) ==> (kem_keys_usable(*recipient, *ephemeral_public)
            && password_fits(password_or_empty(password_bytes(password))) && aead_fits(
            ephemeral_private_json@.len() as int,
        ) ==> res == Err::<Vec<u8>, String>(e)),
        kem_keys_usable(*recipient, *ephemeral_public) && password_fits(
            password_or_empty(password_bytes(password)),
        ) && aead_fits(ephemeral_private_json@.len() as int) && !(hardware_pepper matches Some(
            Err(_),
        )) && !aead_fits(metadata_json@.len() as int) ==> res is Err && has_prefix(
            res->Err_0@,
            "Error al cifrar metadatos: "@,
        ),
        kem_keys_usable(*recipient, *ephemeral_public) && password_fits(
            password_or_empty(password_bytes(password)),
        ) && aead_fits(ephemeral_private_json@.len() as int) && !(hardware_pepper matches Some(
            Err(_),
        )) && aead_fits(metadata_json@.len() as int) && !aead_fits(
            prepared.compressed@.len() as int,
        ) ==> res is Err && has_prefix(res->Err_0@, "Error al cifrar payload: "@),
        res matches Ok(pkg) ==> is_sealed_package(
            pkg@,
            hex_decoded(recipient->Ok_0.kem_public@)->Some_0,
            hex_decoded(ephemeral_public.kem_public@)->Some_0,
            ephemeral_private_json@,
            password_bytes(password),
            pepper_bytes(hardware_pepper),
            metadata_json@,
            prepared.compressed@,
        ),
{
    let ghost pepper_view = pepper_bytes(hardware_pepper);
    let recipient_key = match recipient {
        Ok(k) => k,
        Err(e) => {
            return Err(e.clone());
        },
    };
    let (ct_recip, ss_recip) = encapsulate_secret(recipient_key)?;
    let (ct_ephem, ss_ephem) = encapsulate_secret(ephemeral_public)?;
    let mut shared_secret: Vec<u8> = Vec::new();
    append_bytes(&mut shared_secret, ss_recip.as_slice());
    append_bytes(&mut shared_secret, ss_ephem.as_slice());

    let salt = random_bytes(32);
    let ephem_nonce = random_bytes(12);
    let payload_nonce = random_bytes(12);
    let meta_nonce = random_bytes(12);

    let pwd_str: &str = match password {
        Some(p) => p,
        None => "",
    };
    proof {
        reveal_strlit("");
        assert(pwd_str.spec_bytes() == password_or_empty(password_bytes(password)));
    }
    let protection_key = derive_argon2_key(pwd_str, salt.as_slice())?;
    let sealed_ephem_key = match aead_seal(&protection_key, ephem_nonce.as_slice(), ephemeral_private_json) {
        Ok(c) => c,
        Err(e) => {
            proof {
                lemma_concat_prefix("Error al cifrar clave de sesión efímera: "@, e@);
            }
            return Err(concat_str("Error al cifrar clave de sesión efímera: ", e.as_str()));
        },
    };

    let host_pepper: Option<Vec<u8>> = match hardware_pepper {
        Some(Ok(p)) => Some(p),
        Some(Err(e)) => {
            return Err(e);
        },
        None => None,
    };
    let pepper_slice: Option<&[u8]> = match &host_pepper {
        Some(p) => Some(p.as_slice()),
        None => None,
    };
    let encryption_key = derive_hybrid_encryption_key(
        shared_secret.as_slice(),
        password,
        salt.as_slice(),
        pepper_slice,
    )?;

    let sealed_metadata = match aead_seal(&encryption_key, meta_nonce.as_slice(), metadata_json) {
        Ok(c) => c,
        Err(e) => {
            proof {
                lemma_concat_prefix("Error al cifrar metadatos: "@, e@);
            }
            return Err(concat_str("Error al cifrar metadatos: ", e.as_str()));
        },
    };
    let sealed_payload = match aead_seal(
        &encryption_key,
        payload_nonce.as_slice(),
        prepared.compressed.as_slice(),
    ) {
        Ok(c) => c,
        Err(e) => {
            proof {
                lemma_concat_prefix("Error al cifrar payload: "@, e@);
            }
            return Err(concat_str("Error al cifrar payload: ", e.as_str()));
        },
    };

    let padding_len = signal_style_padding_len(sealed_payload.len());
    let mut padding = random_bytes(padding_len);

    let mut pkg: Vec<u8> = Vec::new();
    push_len32(&mut pkg, ct_recip.len());
    append_bytes(&mut pkg, ct_recip.as_slice());
    push_len32(&mut pkg, ct_ephem.len());
    append_bytes(&mut pkg, ct_ephem.as_slice());
    push_len32(&mut pkg, sealed_ephem_key.len());
    append_bytes(&mut pkg, sealed_ephem_key.as_slice());
    append_bytes(&mut pkg, ephem_nonce.as_slice());
    append_bytes(&mut pkg, salt.as_slice());
    append_bytes(&mut pkg, payload_nonce.as_slice());
    append_bytes(&mut pkg, meta_nonce.as_slice());
    push_len32(&mut pkg, sealed_metadata.len());
    append_bytes(&mut pkg, sealed_metadata.as_slice());
    append_bytes(&mut pkg, sealed_payload.as_slice());
    append_bytes(&mut pkg, padding.as_slice());
    proof {
        assert(optional_bytes(pepper_slice) == pepper_view);
        assert(pkg@ =~= package_layout(
            ct_recip@,
            ct_ephem@,
            sealed_ephem_key@,
            ephem_nonce@,
            salt@,
            payload_nonce@,
            meta_nonce@,
            sealed_metadata@,
            sealed_payload@ + padding@,
        ));
        lemma_sealed_intro(
            pkg@,
            hex_decoded(recipient_key.kem_public@)->Some_0,
            hex_decoded(ephemeral_public.kem_public@)->Some_0,
            ct_recip@,
            ss_recip@,
            ct_ephem@,
            ss_ephem@,
            salt@,
            ephem_nonce@,
            payload_nonce@,
            meta_nonce@,
            padding@,
            ephemeral_private_json@,
            password_bytes(password),
            pepper_view,
            metadata_json@,
            prepared.compressed@,
        );
    }
    wipe(&mut padding);
    Ok(pkg)
}

// ──────────────────────────────── opening ────────────────────────────────

/// A package's frame with its ephemeral private key (JSON) unsealed.
pub struct OpenedEnvelope {
    pub frame: PackageFrame,
    pub ephemeral_private_json: Vec<u8>,
}

/// What unsealing the ephemeral key of a package gives under a password.
pub open spec fn unsealed_ephemeral_key(b: Seq<u8>, l1: nat, l2: nat, l3: nat, password: Seq<u8>) -> Option<
    Seq<u8>,
> {
    let c2: int = 4int + l1 + 4 + l2;
    let c3: int = c2 + 4 + l3;
    chacha20poly1305_open(
        argon2id_key(password, b.subrange(c3 + 12, c3 + 44)),
        b.subrange(c3 as int, c3 + 12),
        b.subrange(c2 + 4, c3),
    )
}

/// The sealed inputs whose package the roundtrip clauses speak of fit the frame's
/// 32-bit length fields.
pub open spec fn frame_fits(ephemeral_private_json: Seq<u8>, metadata_json: Seq<u8>) -> bool {
    ephemeral_private_json.len() + 16 <= u32::MAX && metadata_json.len() + 16 <= u32::MAX
}

/// The fields that sealing laid out, read back from its package.
proof fn lemma_sealed_frame(
    pkg: Seq<u8>,
    ct_recip: Seq<u8>,
    ss_recip: Seq<u8>,
    ct_ephem: Seq<u8>,
    ss_ephem: Seq<u8>,
    salt: Seq<u8>,
    ephem_nonce: Seq<u8>,
    payload_nonce: Seq<u8>,
    meta_nonce: Seq<u8>,
    padding: Seq<u8>,
    ephemeral_private_json: Seq<u8>,
    password: Option<Seq<u8>>,
    pepper: Option<Seq<u8>>,
    metadata_json: Seq<u8>,
    compressed: Seq<u8>,
)
    requires
        sealed_with(
            pkg,
            ct_recip,
            ss_recip,
            ct_ephem,
            ss_ephem,
            salt,
            ephem_nonce,
            payload_nonce,
            meta_nonce,
            padding,
            ephemeral_private_json,
            password,
            pepper,
            metadata_json,
            compressed,
        ),
        frame_fits(ephemeral_private_json, metadata_json),
        aead_fits(ephemeral_private_json.len() as int),
        aead_fits(metadata_json.len() as int),
        password_fits(password_or_empty(password)),
    ensures
        ({
            let key = hybrid_key(ss_recip + ss_ephem, password, salt, pepper);
            let sealed_key = chacha20poly1305_seal(
                argon2id_key(password_or_empty(password), salt),
                ephem_nonce,
                ephemeral_private_json,
            );
            let sealed_meta = chacha20poly1305_seal(key, meta_nonce, metadata_json);
            let l1 = ct_recip.len();
            let l2 = ct_ephem.len();
            let l3 = sealed_key.len();
            let lm = sealed_meta.len();
            let c1: int = 4int + l1;
            let c2: int = c1 + 4 + l2;
            let c3: int = c2 + 4 + l3;
            &&& frame_lengths(pkg) == Ok::<(nat, nat, nat, nat), FrameFault>((l1, l2, l3, lm))
            &&& pkg.subrange(4, c1) == ct_recip
            &&& pkg.subrange(c1 + 4, c2) == ct_ephem
            &&& pkg.subrange(c2 + 4, c3) == sealed_key
            &&& pkg.subrange(c3, c3 + 12) == ephem_nonce
            &&& pkg.subrange(c3 + 12, c3 + 44) == salt
            &&& pkg.subrange(c3 + 44, c3 + 56) == payload_nonce
            &&& pkg.subrange(c3 + 56, c3 + 68) == meta_nonce
            &&& pkg.subrange(c3 + 72, c3 + 72 + lm) == sealed_meta
            &&& pkg.subrange(c3 + 72 + lm, pkg.len() as int) == chacha20poly1305_seal(
                key,
                payload_nonce,
                compressed,
            ) + padding
        }),
{
    let key = hybrid_key(ss_recip + ss_ephem, password, salt, pepper);
    let sealed_key = chacha20poly1305_seal(
        argon2id_key(password_or_empty(password), salt),
        ephem_nonce,
        ephemeral_private_json,
    );
    lemma_frame_roundtrip(
        ct_recip,
        ct_ephem,
        sealed_key,
        ephem_nonce,
        salt,
        payload_nonce,
        meta_nonce,
        chacha20poly1305_seal(key, meta_nonce, metadata_json),
        chacha20poly1305_seal(key, payload_nonce, compressed) + padding,
    );
}


/// Reads a package's frame and unseals its ephemeral private key (JSON) under the
/// password's Argon2id key (the empty password when there is none).
///
/// The ephemeral key that sealing wrote, opening with the same password gives back.
pub fn open_package_envelope(package_bytes: &[u8], password: Option<&str>) -> (res: Result<
    OpenedEnvelope,
    String,
>)
    requires
        frame_lengths(package_bytes@) != Err::<(nat, nat, nat, nat), FrameFault>(
            FrameFault::Overrun,
        ),
    ensures
        match frame_lengths(package_bytes@) {
            Err(f) => res is Err && res->Err_0@ == frame_fault_message(f),
            Ok((l1, l2, l3, lm)) => if !password_fits(password_or_empty(password_bytes(password))) {
                res is Err && has_prefix(res->Err_0@, "Error en Argon2id: "@)
            } else {
                match unsealed_ephemeral_key(
                    package_bytes@,
                    l1,
                    l2,
                    l3,
                    password_or_empty(password_bytes(password)),
                ) {
                    Some(k) => res is Ok && frame_of(&res->Ok_0.frame, package_bytes@, l1, l2, l3, lm)
                        && res->Ok_0.ephemeral_private_json@ == k,
                    None => res is Err && has_prefix(
                        res->Err_0@,
                        "Contraseña incorrecta (no se pudo abrir la llave efímera): "@,
                    ),
                }
            },
        },
        forall|
            ct_recip: Seq<u8>,
            ss_recip: Seq<u8>,
            ct_ephem: Seq<u8>,
            ss_ephem: Seq<u8>,
            salt: Seq<u8>,
            ephem_nonce: Seq<u8>,
            payload_nonce: Seq<u8>,
            meta_nonce: Seq<u8>,
            padding: Seq<u8>,
            ephemeral_private_json: Seq<u8>,
            pepper: Option<Seq<u8>>,
            metadata_json: Seq<u8>,
            compressed: Seq<u8>,
        |
            #![trigger sealed_with(package_bytes@, ct_recip, ss_recip, ct_ephem, ss_ephem, salt, ephem_nonce, payload_nonce, meta_nonce, padding, ephemeral_private_json, password_bytes(password), pepper, metadata_json, compressed)]
            sealed_with(
                package_bytes@,
                ct_recip,
                ss_recip,
                ct_ephem,
                ss_ephem,
                salt,
                ephem_nonce,
                payload_nonce,
                meta_nonce,
                padding,
                ephemeral_private_json,
                password_bytes(password),
                pepper,
                metadata_json,
                compressed,
            ) && frame_fits(ephemeral_private_json, metadata_json) && aead_fits(
                ephemeral_private_json.len() as int,
            ) && aead_fits(metadata_json.len() as int) && password_fits(
                password_or_empty(password_bytes(password)),
            ) ==> res is Ok && res->Ok_0.ephemeral_private_json@ == ephemeral_private_json,
{
    proof {
        assert forall|
            ct_recip: Seq<u8>,
            ss_recip: Seq<u8>,
            ct_ephem: Seq<u8>,
            ss_ephem: Seq<u8>,
            salt: Seq<u8>,
            ephem_nonce: Seq<u8>,
            payload_nonce: Seq<u8>,
            meta_nonce: Seq<u8>,
            padding: Seq<u8>,
            eph: Seq<u8>,
            pepper: Option<Seq<u8>>,
            metadata_json: Seq<u8>,
            compressed: Seq<u8>,
        |
            #![trigger sealed_with(package_bytes@, ct_recip, ss_recip, ct_ephem, ss_ephem, salt, ephem_nonce, payload_nonce, meta_nonce, padding, eph, password_bytes(password), pepper, metadata_json, compressed)]
            sealed_with(
                package_bytes@,
                ct_recip,
                ss_recip,
                ct_ephem,
                ss_ephem,
                salt,
                ephem_nonce,
                payload_nonce,
                meta_nonce,
                padding,
                eph,
                password_bytes(password),
                pepper,
                metadata_json,
                compressed,
            ) && frame_fits(eph, metadata_json) && aead_fits(eph.len() as int) && aead_fits(
                metadata_json.len() as int,
            ) && password_fits(password_or_empty(password_bytes(password)))
            implies frame_lengths(package_bytes@) is Ok by {
            lemma_sealed_frame(
                package_bytes@,
                ct_recip,
                ss_recip,
                ct_ephem,
                ss_ephem,
                salt,
                ephem_nonce,
                payload_nonce,
                meta_nonce,
                padding,
                eph,
                password_bytes(password),
                pepper,
                metadata_json,
                compressed,
            );
        }
    }
    let frame = match scan_package_frame(package_bytes) {
        Ok(f) => f,
        Err(FrameFault::TooSmall) => {
            return Err("Datos del paquete cifrado corruptos o demasiado pequeños".to_owned());
        },
        Err(FrameFault::RecipientCiphertext) => {
            return Err("Paquete corrupto (recip ct)".to_owned());
        },
        Err(FrameFault::EphemeralCiphertext) => {
            return Err("Paquete corrupto (ephem ct)".to_owned());
        },
        Err(FrameFault::EphemeralKey) => {
            return Err("Paquete corrupto (enc ephem sk)".to_owned());
        },
        Err(FrameFault::NoncesAndSalt) => {
            return Err("Paquete corrupto (nonces y salt)".to_owned());
        },
        Err(_) => {
            return Err("Paquete corrupto (metadata)".to_owned());
        },
    };
    let pwd_str: &str = match password {
        Some(p) => p,
        None => "",
    };
    proof {
        reveal_strlit("");
        assert(pwd_str.spec_bytes() == password_or_empty(password_bytes(password)));
    }
    let protection_key = derive_argon2_key(pwd_str, frame.salt.as_slice())?;
    match aead_open(&protection_key, frame.ephem_nonce.as_slice(), frame.sealed_ephem_key.as_slice()) {
        Ok(ephemeral_private_json) => {
            proof {
                assert forall|
                    ct_recip: Seq<u8>,
                    ss_recip: Seq<u8>,
                    ct_ephem: Seq<u8>,
                    ss_ephem: Seq<u8>,
                    salt: Seq<u8>,
                    ephem_nonce: Seq<u8>,
                    payload_nonce: Seq<u8>,
                    meta_nonce: Seq<u8>,
                    padding: Seq<u8>,
                    eph: Seq<u8>,
                    pepper: Option<Seq<u8>>,
                    metadata_json: Seq<u8>,
                    compressed: Seq<u8>,
                |
                    #![trigger sealed_with(package_bytes@, ct_recip, ss_recip, ct_ephem, ss_ephem, salt, ephem_nonce, payload_nonce, meta_nonce, padding, eph, password_bytes(password), pepper, metadata_json, compressed)]
                    sealed_with(
                        package_bytes@,
                        ct_recip,
                        ss_recip,
                        ct_ephem,
                        ss_ephem,
                        salt,
                        ephem_nonce,
                        payload_nonce,
                        meta_nonce,
                        padding,
                        eph,
                        password_bytes(password),
                        pepper,
                        metadata_json,
                        compressed,
                    ) && frame_fits(eph, metadata_json) && aead_fits(eph.len() as int) && aead_fits(
                        metadata_json.len() as int,
                    ) && password_fits(password_or_empty(password_bytes(password)))
                    implies ephemeral_private_json@ == eph by {
                    lemma_sealed_frame(
                        package_bytes@,
                        ct_recip,
                        ss_recip,
                        ct_ephem,
                        ss_ephem,
                        salt,
                        ephem_nonce,
                        payload_nonce,
                        meta_nonce,
                        padding,
                        eph,
                        password_bytes(password),
                        pepper,
                        metadata_json,
                        compressed,
                    );
                    assert(frame.sealed_ephem_key@ == chacha20poly1305_seal(
                        argon2id_key(password_or_empty(password_bytes(password)), salt),
                        ephem_nonce,
                        eph,
                    ));
                }
            }
            Ok(OpenedEnvelope { frame, ephemeral_private_json })
        },
        Err(e) => {
            let m = concat_str("Contraseña incorrecta (no se pudo abrir la llave efímera): ", e.as_str());
            proof {
                lemma_concat_prefix(
                    "Contraseña incorrecta (no se pudo abrir la llave efímera): "@,
                    e@,
                );
                assert forall|
                    ct_recip: Seq<u8>,
                    ss_recip: Seq<u8>,
                    ct_ephem: Seq<u8>,
                    ss_ephem: Seq<u8>,
                    salt: Seq<u8>,
                    ephem_nonce: Seq<u8>,
                    payload_nonce: Seq<u8>,
                    meta_nonce: Seq<u8>,
                    padding: Seq<u8>,
                    eph: Seq<u8>,
                    pepper: Option<Seq<u8>>,
                    metadata_json: Seq<u8>,
                    compressed: Seq<u8>,
                |
                    #![trigger sealed_with(package_bytes@, ct_recip, ss_recip, ct_ephem, ss_ephem, salt, ephem_nonce, payload_nonce, meta_nonce, padding, eph, password_bytes(password), pepper, metadata_json, compressed)]
                    sealed_with(
                        package_bytes@,
                        ct_recip,
                        ss_recip,
                        ct_ephem,
                        ss_ephem,
                        salt,
                        ephem_nonce,
                        payload_nonce,
                        meta_nonce,
                        padding,
                        eph,
                        password_bytes(password),
                        pepper,
                        metadata_json,
                        compressed,
                    ) && frame_fits(eph, metadata_json) && aead_fits(eph.len() as int) && aead_fits(
                        metadata_json.len() as int,
                    ) && password_fits(password_or_empty(password_bytes(password)))
                    implies false by {
                    lemma_sealed_frame(
                        package_bytes@,
                        ct_recip,
                        ss_recip,
                        ct_ephem,
                        ss_ephem,
                        salt,
                        ephem_nonce,
                        payload_nonce,
                        meta_nonce,
                        padding,
                        eph,
                        password_bytes(password),
                        pepper,
                        metadata_json,
                        compressed,
                    );
                    assert(frame.sealed_ephem_key@ == chacha20poly1305_seal(
                        argon2id_key(password_or_empty(password_bytes(password)), salt),
                        ephem_nonce,
                        eph,
                    ));
                }
            }
            Err(m)
        },
    }
}

/// The shared secret a KEM ciphertext yields under a private key text, when the text
/// decodes to a Kyber1024 secret key and the ciphertext has the Kyber1024 length.
pub open spec fn kem_secret(private_key: PQCPrivateKeyHex, ciphertext: Seq<u8>) -> Option<Seq<u8>> {
    match crate::utils::hexcode::hex_decoded(private_key.kem_private@) {
        Some(k) => if k.len() == 3168 && ciphertext.len() == 1568 {
            Some(crate::crypto::primitives::kyber_shared_secret(k, ciphertext))
        } else {
            None
        },
        None => None,
    }
}

/// The two shared secrets of an envelope, when both private keys decapsulate.
pub open spec fn envelope_secrets(
    envelope: &OpenedEnvelope,
    recipient_private: Result<PQCPrivateKeyHex, String>,
    ephemeral_private: Result<PQCPrivateKeyHex, String>,
) -> Option<(Seq<u8>, Seq<u8>)> {
    match (recipient_private, ephemeral_private) {
        (Ok(rk), Ok(ek)) => match (
            kem_secret(rk, envelope.frame.ct_recip@),
            kem_secret(ek, envelope.frame.ct_ephem@),
        ) {
            (Some(ss_recip), Some(ss_ephem)) => Some((ss_recip, ss_ephem)),
            _ => None,
        },
        _ => None,
    }
}

/// Argon2 takes the optional password.
pub open spec fn optional_password_fits(password: Option<Seq<u8>>) -> bool {
    match password {
        Some(p) => password_fits(p),
        None => true,
    }
}

/// The key that opens the metadata and payload of an envelope, when every step
/// before it succeeds: both decapsulations, the pepper, and Argon2 on the password.
pub open spec fn envelope_key(
    envelope: &OpenedEnvelope,
    recipient_private: Result<PQCPrivateKeyHex, String>,
    ephemeral_private: Result<PQCPrivateKeyHex, String>,
    password: Option<Seq<u8>>,
    pepper: Option<Result<Vec<u8>, String>>,
) -> Option<Seq<u8>> {
    match envelope_secrets(envelope, recipient_private, ephemeral_private) {
        Some((ss_recip, ss_ephem)) => if pepper matches Some(Err(_)) || !optional_password_fits(
            password,
        ) {
            None
        } else {
            Some(
                hybrid_key(ss_recip + ss_ephem, password, envelope.frame.salt@, pepper_bytes(pepper)),
            )
        },
        None => None,
    }
}

/// Decapsulates both shared secrets of an envelope, derives the hybrid key and opens
/// the metadata (JSON) with it. The private keys come as the app parsed them: a parse
/// error is reported where decapsulation would read the key. The pepper is given when
/// the container asks for one.
///
/// Metadata that sealing wrote under this key, opening gives back.
pub fn open_package_metadata(
    envelope: &OpenedEnvelope,
    recipient_private: &Result<PQCPrivateKeyHex, String>,
    ephemeral_private: &Result<PQCPrivateKeyHex, String>,
    password: Option<&str>,
    hardware_pepper: Option<Result<Vec<u8>, String>>,
) -> (res: Result<([u8; 32], Vec<u8>), String>)
    requires
        envelope.frame.salt@.len() == 32,
        envelope.frame.meta_nonce@.len() == 12,
    ensures
        recipient_private matches Err(e) ==> res == Err::<([u8; 32], Vec<u8>), String>(*e),
        recipient_private matches Ok(rk) ==> (kem_secret(*rk, envelope.frame.ct_recip@) is None
            ==> res is Err && decapsulation_refused(*rk, envelope.frame.ct_recip@, res->Err_0@)),
        ephemeral_private matches Err(e) ==> (recipient_private is Ok && kem_secret(
            recipient_private->Ok_0,
            envelope.frame.ct_recip@,
        ) is Some ==> res == Err::<([u8; 32], Vec<u8>), String>(*e)),
        ephemeral_private matches Ok(ek) ==> (recipient_private is Ok && kem_secret(
            recipient_private->Ok_0,
            envelope.frame.ct_recip@,
        ) is Some && kem_secret(*ek, envelope.frame.ct_ephem@) is None ==> res is Err
            && decapsulation_refused(*ek, envelope.frame.ct_ephem@, res->Err_0@)),
        hardware_pepper matches Some(Err(e)) ==> (envelope_secrets(
            envelope,
            *recipient_private,
            *ephemeral_private,
        ) is Some ==> res == Err::<([u8; 32], Vec<u8>), String>(e)),
        envelope_secrets(envelope, *recipient_private, *ephemeral_private) is Some && !(
        hardware_pepper matches Some(Err(_))) && !optional_password_fits(password_bytes(password))
            ==> res is Err && has_prefix(res->Err_0@, "Error en Argon2id: "@),
        match envelope_key(
            envelope,
            *recipient_private,
            *ephemeral_private,
            password_bytes(password),
            hardware_pepper,
        ) {
            None => res is Err,
            Some(k) => match chacha20poly1305_open(
                k,
                envelope.frame.meta_nonce@,
                envelope.frame.sealed_metadata@,
            ) {
                Some(m) => res is Ok && res->Ok_0.0@ == k && res->Ok_0.1@ == m,
                None => res is Err && has_prefix(
                    res->Err_0@,
                    "Contraseña incorrecta o firma corrupta en metadatos: "@,
                ),
            },
        },
        forall|m: Seq<u8>|
            #![trigger chacha20poly1305_seal(envelope_key(envelope, *recipient_private, *ephemeral_private, password_bytes(password), hardware_pepper)->Some_0, envelope.frame.meta_nonce@, m)]
            envelope_key(
                envelope,
                *recipient_private,
                *ephemeral_private,
                password_bytes(password),
                hardware_pepper,
            ) is Some && aead_fits(m.len() as int) && envelope.frame.sealed_metadata@
                == chacha20poly1305_seal(
                envelope_key(
                    envelope,
                    *recipient_private,
                    *ephemeral_private,
                    password_bytes(password),
                    hardware_pepper,
                )->Some_0,
                envelope.frame.meta_nonce@,
                m,
            ) ==> res is Ok && res->Ok_0.1@ == m,
{
    let ghost pepper_view = pepper_bytes(hardware_pepper);
    let ghost hp = hardware_pepper;
    let recipient_key = match recipient_private {
        Ok(k) => k,
        Err(e) => {
            return Err(e.clone());
        },
    };
    let ss_recip = decapsulate_secret(recipient_key, envelope.frame.ct_recip.as_slice())?;
    let ephemeral_key = match ephemeral_private {
        Ok(k) => k,
        Err(e) => {
            return Err(e.clone());
        },
    };
    let ss_ephem = decapsulate_secret(ephemeral_key, envelope.frame.ct_ephem.as_slice())?;
    let mut shared_secret: Vec<u8> = Vec::new();
    append_bytes(&mut shared_secret, ss_recip.as_slice());
    append_bytes(&mut shared_secret, ss_ephem.as_slice());

    let host_pepper: Option<Vec<u8>> = match hardware_pepper {
        Some(Ok(p)) => Some(p),
        Some(Err(e)) => {
            return Err(e);
        },
        None => None,
    };
    let pepper_slice: Option<&[u8]> = match &host_pepper {
        Some(p) => Some(p.as_slice()),
        None => None,
    };
    assert(optional_bytes(pepper_slice) == pepper_view);
    let encryption_key = derive_hybrid_encryption_key(
        shared_secret.as_slice(),
        password,
        envelope.frame.salt.as_slice(),
        pepper_slice,
    )?;
    assert(envelope_key(envelope, *recipient_private, *ephemeral_private, password_bytes(password), hp)
        == Some(encryption_key@));
    wipe(&mut shared_secret);
    match aead_open(
        &encryption_key,
        envelope.frame.meta_nonce.as_slice(),
        envelope.frame.sealed_metadata.as_slice(),
    ) {
        Ok(metadata_json) => Ok((encryption_key, metadata_json)),
        Err(e) => {
            let m = concat_str("Contraseña incorrecta o firma corrupta en metadatos: ", e.as_str());
            proof {
                lemma_concat_prefix("Contraseña incorrecta o firma corrupta en metadatos: "@, e@);
            }
            Err(m)
        },
    }
}

/// Whether a time-to-live has run out at `now` (seconds since the epoch).
pub open spec fn expired(decrypt_until: Option<u64>, now: u64) -> bool {
    match decrypt_until {
        Some(ttl) => now > ttl,
        None => false,
    }
}

/// Checks the time-to-live, then opens the payload (the first `compressed_size`
/// + 16 bytes after the metadata; the rest is padding), decompresses it and checks
/// its SHA3-256 checksum against the one in the metadata.
///
/// A payload that sealing wrote under this key, with the size and checksum the
/// metadata records, opening gives back unless its time-to-live has run out.
pub fn open_package_payload(
    envelope: &OpenedEnvelope,
    key: &[u8; 32],
    compressed_size: u64,
    sha3_256_checksum: &str,
    decrypt_until: Option<u64>,
    now: u64,
) -> (res: Result<Vec<u8>, String>)
    requires
        compressed_size + 16 <= usize::MAX,
        envelope.frame.payload_nonce@.len() == 12,
    ensures
        ({
            let pp = envelope.frame.payload_and_padding@;
            let expected = compressed_size + 16;
            if expired(decrypt_until, now) {
                res is Err && res->Err_0@
                    == "El tiempo de vida (TTL) de este archivo ha expirado. Operación de descifrado rechazada."@
            } else if pp.len() < expected {
                res is Err && res->Err_0@ == "Payload cifrado corrupto o de tamaño inconsistente"@
            } else {
                match chacha20poly1305_open(
                    key@,
                    envelope.frame.payload_nonce@,
                    pp.subrange(0, expected),
                ) {
                    None => res is Err && has_prefix(
                        res->Err_0@,
                        "Error en payload cifrado (AEAD fallido): "@,
                    ),
                    Some(c) => match zlib_decompressed(c) {
                        None => res is Err && has_prefix(res->Err_0@, "Error de descompresión: "@),
                        Some(d) => if hex_lower(sha3_256_digest(d)) != sha3_256_checksum@ {
                            res is Err && res->Err_0@
                                == "Fallo de integridad: Checksum SHA3-256 no coincide."@
                        } else {
                            res is Ok && res->Ok_0@ == d
                        },
                    },
                }
            }
        }),
        forall|d: Seq<u8>|
            #![trigger zlib_compressed(d)]
            !expired(decrypt_until, now) && aead_fits(zlib_compressed(d).len() as int)
                && compressed_size == zlib_compressed(d).len() && sha3_256_checksum@ == hex_lower(
                sha3_256_digest(d),
            ) && envelope.frame.payload_and_padding@.len() >= compressed_size + 16
                && envelope.frame.payload_and_padding@.subrange(0, compressed_size + 16)
                == chacha20poly1305_seal(key@, envelope.frame.payload_nonce@, zlib_compressed(d))
                ==> res is Ok && res->Ok_0@ == d,
{
    if let Some(ttl) = decrypt_until {
        if now > ttl {
            return Err(
                "El tiempo de vida (TTL) de este archivo ha expirado. Operación de descifrado rechazada.".to_owned(),
            );
        }
    }
    let expected_payload_len = (compressed_size + 16) as usize;
    let pp = &envelope.frame.payload_and_padding;
    if pp.len() < expected_payload_len {
        return Err("Payload cifrado corrupto o de tamaño inconsistente".to_owned());
    }
    let sealed_payload = copy_range(pp.as_slice(), 0, expected_payload_len);
    assert(sealed_payload@ == pp@.subrange(0, expected_payload_len as int));
    let decrypted_compressed = match aead_open(key, envelope.frame.payload_nonce.as_slice(), sealed_payload.as_slice()) {
        Ok(c) => c,
        Err(e) => {
            let m = concat_str("Error en payload cifrado (AEAD fallido): ", e.as_str());
            proof {
                lemma_concat_prefix("Error en payload cifrado (AEAD fallido): "@, e@);
            }
            return Err(m);
        },
    };
    let decompressed = decompress_data(decrypted_compressed.as_slice())?;
    let checksum = encode_hex(sha3_256(decompressed.as_slice()).as_slice());
    let expected_checksum = sha3_256_checksum.to_owned();
    if !checksum.eq(&expected_checksum) {
        return Err("Fallo de integridad: Checksum SHA3-256 no coincide.".to_owned());
    }
    Ok(decompressed)
}

/// The law that ties sealing to opening: in the envelope read from a sealed package,
/// the private keys whose decapsulations give back the encapsulated shared secrets
/// lead to the hybrid key that sealed it, and under that key lie the metadata and the
/// payload that were sealed (the payload followed by padding), with their nonces.
/// That a private key decapsulates a ciphertext to the secret encapsulated with its
/// public key is Kyber's correctness, which fails with negligible probability; it is
/// therefore a premise (`kem_secret` of each key and ciphertext), not a consequence.
pub proof fn law_sealed_package_opens(
    pkg: Seq<u8>,
    ct_recip: Seq<u8>,
    ss_recip: Seq<u8>,
    ct_ephem: Seq<u8>,
    ss_ephem: Seq<u8>,
    salt: Seq<u8>,
    ephem_nonce: Seq<u8>,
    payload_nonce: Seq<u8>,
    meta_nonce: Seq<u8>,
    padding: Seq<u8>,
    ephemeral_private_json: Seq<u8>,
    password: Option<Seq<u8>>,
    pepper: Option<Result<Vec<u8>, String>>,
    metadata_json: Seq<u8>,
    compressed: Seq<u8>,
    envelope: OpenedEnvelope,
    recipient_private: PQCPrivateKeyHex,
    ephemeral_private: PQCPrivateKeyHex,
)
    requires
        sealed_with(
            pkg,
            ct_recip,
            ss_recip,
            ct_ephem,
            ss_ephem,
            salt,
            ephem_nonce,
            payload_nonce,
            meta_nonce,
            padding,
            ephemeral_private_json,
            password,
            pepper_bytes(pepper),
            metadata_json,
            compressed,
        ),
        frame_fits(ephemeral_private_json, metadata_json),
        aead_fits(ephemeral_private_json.len() as int),
        aead_fits(metadata_json.len() as int),
        password_fits(password_or_empty(password)),
        !(pepper matches Some(Err(_))),
        frame_of(
            &envelope.frame,
            pkg,
            ct_recip.len(),
            ct_ephem.len(),
            ephemeral_private_json.len() + 16,
            metadata_json.len() + 16,
        ),
        kem_secret(recipient_private, ct_recip) == Some(ss_recip),
        kem_secret(ephemeral_private, ct_ephem) == Some(ss_ephem),
    ensures
        ({
            let key = hybrid_key(ss_recip + ss_ephem, password, salt, pepper_bytes(pepper));
            &&& envelope_key(
                &envelope,
                Ok(recipient_private),
                Ok(ephemeral_private),
                password,
                pepper,
            ) == Some(key)
            &&& envelope.frame.salt@ == salt
            &&& envelope.frame.meta_nonce@ == meta_nonce
            &&& envelope.frame.sealed_metadata@ == chacha20poly1305_seal(key, meta_nonce, metadata_json)
            &&& envelope.frame.payload_nonce@ == payload_nonce
            &&& envelope.frame.payload_and_padding@.len() >= compressed.len() + 16
            &&& envelope.frame.payload_and_padding@.subrange(0, compressed.len() + 16int)
                == chacha20poly1305_seal(key, payload_nonce, compressed)
        }),
{
    lemma_sealed_frame(
        pkg,
        ct_recip,
        ss_recip,
        ct_ephem,
        ss_ephem,
        salt,
        ephem_nonce,
        payload_nonce,
        meta_nonce,
        padding,
        ephemeral_private_json,
        password,
        pepper_bytes(pepper),
        metadata_json,
        compressed,
    );
    let key = hybrid_key(ss_recip + ss_ephem, password, salt, pepper_bytes(pepper));
    let sealed_payload = chacha20poly1305_seal(key, payload_nonce, compressed);
    assert(envelope.frame.payload_and_padding@ == sealed_payload + padding);
    assert(envelope.frame.payload_and_padding@.subrange(0, compressed.len() + 16int) =~= sealed_payload);
}

/// Of the primary and the decoy package's results, the primary's when it succeeded,
/// else the decoy's when there is one and it succeeded, else the primary's error.
pub fn select_package_result<T>(primary: Result<T, String>, decoy: Option<Result<T, String>>) -> (res:
    Result<T, String>)
    ensures
        match primary {
            Ok(p) => res == Ok::<T, String>(p),
            Err(e) => match decoy {
                Some(Ok(d)) => res == Ok::<T, String>(d),
                _ => res == Err::<T, String>(e),
            },
        },
{
    match primary {
        Ok(p) => Ok(p),
        Err(primary_err) => match decoy {
            Some(Ok(d)) => Ok(d),
            _ => Err(primary_err),
        },
    }
}

} // verus!
