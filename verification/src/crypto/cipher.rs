//! Hashing, size obfuscation, compression and hybrid key derivation.
use vstd::prelude::*;

use vstd::string::StringSliceAdditionalSpecFns;

use crate::crypto::key_manager::{derive_argon2_key, password_fits};
use crate::crypto::primitives::{
    argon2id_key, blake3_digest, blake3_hex, hkdf_sha3_256, hkdf_sha3_256_key, random_jitter,
    sha256, sha256_digest, sha3_256, sha3_256_digest, sha3_512, sha3_512_digest, sha512,
    sha512_digest, zlib_compress, zlib_compressed, zlib_decompress, zlib_decompressed,
};
use crate::utils::bytes::append_bytes;
use crate::utils::hexcode::{encode_hex, hex_lower, lemma_hex_lower_len};
use crate::utils::text::{concat_str, has_prefix, lemma_concat_prefix, lowercase, to_lowercase};

verus! {

// ─────────────────────────────── hashing ───────────────────────────────

/// The lowercase hexadecimal digest of `data` under the named algorithm (already
/// in lowercase), if the name is one of sha256, sha3-256 (or sha3_256), sha3-512
/// (or sha3_512), sha512 and blake3.
pub open spec fn digest_hex(data: Seq<u8>, algorithm: Seq<char>) -> Option<Seq<char>> {
    if algorithm == "sha256"@ {
        Some(hex_lower(sha256_digest(data)))
    } else if algorithm == "sha3-256"@ || algorithm == "sha3_256"@ {
        Some(hex_lower(sha3_256_digest(data)))
    } else if algorithm == "sha3-512"@ || algorithm == "sha3_512"@ {
        Some(hex_lower(sha3_512_digest(data)))
    } else if algorithm == "sha512"@ {
        Some(hex_lower(sha512_digest(data)))
    } else if algorithm == "blake3"@ {
        Some(hex_lower(blake3_digest(data)))
    } else {
        None
    }
}

/// The length of the hexadecimal digest under a supported algorithm name: 64 digits
/// for the 256-bit digests, 128 for the 512-bit ones.
pub open spec fn digest_hex_len(algorithm: Seq<char>) -> nat {
    if algorithm == "sha256"@ || algorithm == "sha3-256"@ || algorithm == "sha3_256"@ {
        64
    } else if algorithm == "sha3-512"@ || algorithm == "sha3_512"@ || algorithm == "sha512"@ {
        128
    } else {
        64
    }
}

fn same_text(a: &String, b: &str) -> (r: bool)
    ensures
        r == (a@ == b@),
{
    let t = b.to_owned();
    a.eq(&t)
}

/// The digest of `data` as lowercase hexadecimal, for an algorithm name given in
/// lowercase; `None` for an unsupported name.
fn digest_hex_lowercase(data: &[u8], algorithm: &String) -> (r: Option<String>)
    ensures
        match digest_hex(data@, algorithm@) {
            Some(h) => r is Some && r->Some_0@ == h,
            None => r is None,
        },
        r matches Some(h) ==> h@.len() == digest_hex_len(algorithm@),
{
    if same_text(algorithm, "sha256") {
        let d = sha256(data);
        proof {
            lemma_hex_lower_len(d@);
        }
        Some(encode_hex(d.as_slice()))
    } else if same_text(algorithm, "sha3-256") || same_text(algorithm, "sha3_256") {
        let d = sha3_256(data);
        proof {
            lemma_hex_lower_len(d@);
        }
        Some(encode_hex(d.as_slice()))
    } else if same_text(algorithm, "sha3-512") || same_text(algorithm, "sha3_512") {
        let d = sha3_512(data);
        proof {
            lemma_hex_lower_len(d@);
        }
        Some(encode_hex(d.as_slice()))
    } else if same_text(algorithm, "sha512") {
        let d = sha512(data);
        proof {
            lemma_hex_lower_len(d@);
        }
        Some(encode_hex(d.as_slice()))
    } else if same_text(algorithm, "blake3") {
        Some(blake3_hex(data))
    } else {
        None
    }
}

/// Hashes bytes with the named algorithm (sha256, sha3-256, sha3-512, sha512 or
/// blake3; the name in any case) and gives the digest in lowercase hexadecimal.
pub fn compute_hash_bytes(data: &[u8], algorithm: &str) -> (res: Result<String, String>)
    ensures
        match digest_hex(data@, lowercase(algorithm@)) {
            Some(h) => res is Ok && res->Ok_0@ == h,
            None => res is Err && res->Err_0@ == "Algoritmo '"@ + algorithm@ + "' no soportado."@,
        },
        res matches Ok(h) ==> h@.len() == digest_hex_len(lowercase(algorithm@)),
{
    let lower = to_lowercase(algorithm);
    match digest_hex_lowercase(data, &lower) {
        Some(h) => Ok(h),
        None => {
            let m = concat_str("Algoritmo '", algorithm);
            Err(concat_str(m.as_str(), "' no soportado."))
        },
    }
}

/// Hashes the contents of a file with the named algorithm, as `compute_hash_bytes`
/// does; an unsupported name is refused with the list of supported ones.
pub fn compute_file_hash_of_contents(contents: &[u8], algorithm: &str) -> (res: Result<
    String,
    String,
>)
    ensures
        match digest_hex(contents@, lowercase(algorithm@)) {
            Some(h) => res is Ok && res->Ok_0@ == h,
            None => res is Err && res->Err_0@ == "Algoritmo '"@ + algorithm@
                + "' no soportado. Usa: sha256, sha3-256, sha3-512, sha512, blake3"@,
        },
        res matches Ok(h) ==> h@.len() == digest_hex_len(lowercase(algorithm@)),
{
    let lower = to_lowercase(algorithm);
    match digest_hex_lowercase(contents, &lower) {
        Some(h) => Ok(h),
        None => {
            let m = concat_str("Algoritmo '", algorithm);
            Err(concat_str(m.as_str(), "' no soportado. Usa: sha256, sha3-256, sha3-512, sha512, blake3"))
        },
    }
}

// ──────────────────────── signal-style size obfuscation ────────────────────────

/// The size to which a payload is rounded up: 1 KiB under 1 KiB; then multiples of
/// 1 KiB under 16 KiB, of 16 KiB under 256 KiB, of 256 KiB under 4 MiB, of 4 MiB
/// under 64 MiB, and of 16 MiB from there on.
pub open spec fn bucket_ceiling(len: nat) -> nat {
    if len < 1024 {
        1024
    } else {
        let step: nat = if len < 16 * 1024 {
            1024
        } else if len < 256 * 1024 {
            16 * 1024
        } else if len < 4 * 1024 * 1024 {
            256 * 1024
        } else if len < 64 * 1024 * 1024 {
            4 * 1024 * 1024
        } else {
            16 * 1024 * 1024
        };
        if len % step == 0 {
            len
        } else {
            (len + (step - len % step)) as nat
        }
    }
}

/// The length of the padding that hides a payload's size: what rounds it up to its
/// bucket, plus a random 16 to 271 bytes.
pub fn signal_style_padding_len(payload_len: usize) -> (r: usize)
    requires
        payload_len + 16 * 1024 * 1024 <= usize::MAX,
    ensures
        bucket_ceiling(payload_len as nat) - payload_len + 16 <= r <= bucket_ceiling(
            payload_len as nat,
        ) - payload_len + 271,
{
    let kb: usize = 1024;
    let mb: usize = 1024 * kb;
    let bucket_ceil: usize = if payload_len < kb {
        kb
    } else {
        let step: usize = if payload_len < 16 * kb {
            kb
        } else if payload_len < 256 * kb {
            16 * kb
        } else if payload_len < 4 * mb {
            256 * kb
        } else if payload_len < 64 * mb {
            4 * mb
        } else {
            16 * mb
        };
        let rem = payload_len % step;
        if rem == 0 {
            payload_len
        } else {
            payload_len + (step - rem)
        }
    };
    let base_padding: usize = if bucket_ceil > payload_len {
        bucket_ceil - payload_len
    } else {
        0
    };
    let jitter = random_jitter();
    base_padding + jitter
}

// ──────────────────────────────── shredding ────────────────────────────────

/// The byte with which pass `pass` of `passes` overwrites a file: 0x00, 0xFF and
/// 0x55 in turn, and random bytes (`None`) on the last pass.
pub open spec fn shred_fill(pass: u8, passes: u8) -> Option<u8> {
    if pass + 1 == passes {
        None
    } else if pass % 3 == 0 {
        Some(0x00u8)
    } else if pass % 3 == 1 {
        Some(0xFFu8)
    } else {
        Some(0x55u8)
    }
}

/// The fill byte of a shredding pass; `None` means random bytes.
pub fn shred_fill_byte(pass: u8, passes: u8) -> (r: Option<u8>)
    requires
        pass < passes,
    ensures
        r == shred_fill(pass, passes),
{
    if pass == passes - 1 {
        None
    } else if pass % 3 == 0 {
        Some(0x00)
    } else if pass % 3 == 1 {
        Some(0xFF)
    } else {
        Some(0x55)
    }
}

/// The size of the next chunk a shredding pass writes: at most 64 KiB, and no more
/// than is left of the file.
pub fn shred_chunk_len(written: u64, file_size: u64) -> (r: usize)
    requires
        written < file_size,
    ensures
        r as int == if file_size - written < 65536 {
            file_size - written
        } else {
            65536
        },
        0 < r <= 65536,
{
    let left = file_size - written;
    if left < 65536 {
        left as usize
    } else {
        65536
    }
}

// ─────────────────────────────── compression ───────────────────────────────

/// Compresses bytes with zlib at the best compression level. In memory this always
/// succeeds; an error of the encoder would be reported after "Error al comprimir
/// datos: " (writing) or "Error al finalizar compresión: " (finishing).
pub fn compress_data(data: &[u8]) -> (res: Result<Vec<u8>, String>)
    ensures
        res is Ok && res->Ok_0@ == zlib_compressed(data@),
{
    match zlib_compress(data) {
        Ok(c) => Ok(c),
        Err((true, e)) => {
            let m = concat_str("Error al comprimir datos: ", e.as_str());
            proof {
                lemma_concat_prefix("Error al comprimir datos: "@, e@);
            }
            Err(m)
        },
        Err((false, e)) => {
            let m = concat_str("Error al finalizar compresión: ", e.as_str());
            proof {
                lemma_concat_prefix("Error al finalizar compresión: "@, e@);
            }
            Err(m)
        },
    }
}

/// Decompresses a zlib stream. What compression wrote comes back unchanged.
pub fn decompress_data(compressed_data: &[u8]) -> (res: Result<Vec<u8>, String>)
    ensures
        match zlib_decompressed(compressed_data@) {
            Some(p) => res is Ok && res->Ok_0@ == p,
            None => res is Err && has_prefix(res->Err_0@, "Error de descompresión: "@),
        },
        forall|p: Seq<u8>|
            #![trigger zlib_compressed(p)]
            compressed_data@ == zlib_compressed(p) ==> res is Ok && res->Ok_0@ == p,
{
    match zlib_decompress(compressed_data) {
        Ok(p) => Ok(p),
        Err(e) => {
            let m = concat_str("Error de descompresión: ", e.as_str());
            proof {
                lemma_concat_prefix("Error de descompresión: "@, e@);
            }
            Err(m)
        },
    }
}

// ─────────────────────────── hybrid key derivation ───────────────────────────

/// The HKDF label of the hybrid key.
pub open spec fn hybrid_key_label() -> Seq<u8> {
    seq![
        0x51u8, 0x75u8, 0x61u8, 0x6Eu8, 0x74u8, 0x75u8, 0x6Du8, 0x41u8, 0x52u8, 0x4Bu8, 0x76u8,
        0x34u8, 0x2Du8, 0x48u8, 0x79u8, 0x62u8, 0x72u8, 0x69u8, 0x64u8, 0x4Bu8, 0x65u8, 0x79u8,
    ]
}

/// The input key material: the shared secret, then the Argon2id key of the password
/// (when there is one), then the hardware pepper (when there is one).
pub open spec fn hybrid_ikm(
    shared_secret: Seq<u8>,
    password: Option<Seq<u8>>,
    salt: Seq<u8>,
    pepper: Option<Seq<u8>>,
) -> Seq<u8> {
    shared_secret + match password {
        Some(p) => argon2id_key(p, salt),
        None => Seq::empty(),
    } + match pepper {
        Some(q) => q,
        None => Seq::empty(),
    }
}

/// The hybrid key: HKDF-SHA3-256 over the input key material, salted with `salt`.
pub open spec fn hybrid_key(
    shared_secret: Seq<u8>,
    password: Option<Seq<u8>>,
    salt: Seq<u8>,
    pepper: Option<Seq<u8>>,
) -> Seq<u8> {
    hkdf_sha3_256_key(salt, hybrid_ikm(shared_secret, password, salt, pepper), hybrid_key_label())
}

/// The UTF-8 bytes of an optional password.
pub open spec fn password_bytes(password: Option<&str>) -> Option<Seq<u8>> {
    match password {
        Some(p) => Some(p.spec_bytes()),
        None => None,
    }
}

/// Argon2 accepts the optional password with this salt.
pub open spec fn password_accepted(password: Option<Seq<u8>>, salt: Seq<u8>) -> bool {
    match password {
        Some(p) => password_fits(p) && 8 <= salt.len() <= 0xFFFF_FFFF,
        None => true,
    }
}

/// The byte string of an optional byte slice.
pub open spec fn optional_bytes(v: Option<&[u8]>) -> Option<Seq<u8>> {
    match v {
        Some(b) => Some(b@),
        None => None,
    }
}

fn hybrid_key_label_bytes() -> (r: Vec<u8>)
    ensures
        r@ == hybrid_key_label(),
{
    let r: Vec<u8> = vec![
        0x51, 0x75, 0x61, 0x6E, 0x74, 0x75, 0x6D, 0x41, 0x52, 0x4B, 0x76, 0x34, 0x2D, 0x48, 0x79,
        0x62, 0x72, 0x69, 0x64, 0x4B, 0x65, 0x79,
    ];
    assert(r@ == hybrid_key_label());
    r
}

/// Derives the symmetric key of a package from the shared secret, the optional
/// password (through Argon2id) and the optional hardware pepper, with HKDF-SHA3-256.
pub fn derive_hybrid_encryption_key(
    shared_secret: &[u8],
    password: Option<&str>,
    salt: &[u8],
    hardware_pepper: Option<&[u8]>,
) -> (res: Result<[u8; 32], String>)
    ensures
        res is Ok <==> password_accepted(password_bytes(password), salt@),
        res matches Ok(k) ==> k@ == hybrid_key(
            shared_secret@,
            password_bytes(password),
            salt@,
            optional_bytes(hardware_pepper),
        ),
        res matches Err(m) ==> has_prefix(m@, "Error en Argon2id: "@),
{
    let mut ikm: Vec<u8> = Vec::new();
    append_bytes(&mut ikm, shared_secret);
    if let Some(pwd) = password {
        let password_key = derive_argon2_key(pwd, salt)?;
        append_bytes(&mut ikm, &password_key);
    }
    if let Some(pepper) = hardware_pepper {
        append_bytes(&mut ikm, pepper);
    }
    assert(ikm@ =~= hybrid_ikm(
        shared_secret@,
        password_bytes(password),
        salt@,
        optional_bytes(hardware_pepper),
    ));
    let label = hybrid_key_label_bytes();
    let key = hkdf_sha3_256(salt, ikm.as_slice(), label.as_slice());
    match key {
        Ok(k) => Ok(k),
        Err(e) => Err(e),
    }
}


// ──────────────────────────────── legacy ────────────────────────────────

/// The encryption of the earlier format, which is switched off: it always refuses,
/// pointing to the complete post-quantum encryption. The path (a `Path` for the
/// callers) is not read.
pub fn encrypt_file<P: ?Sized>(
    _input_path: &P,
    _public_key_json: &[u8],
    _password: Option<&str>,
    _delete_original: bool,
    _shred_passes: u8,
    _metadata_clean: bool,
) -> (res: Result<String, String>)
    ensures
        res is Err && res->Err_0@ == "encrypt_file está deshabilitada. Usa encrypt_file_pqc_complete."@,
{
    Err("encrypt_file está deshabilitada. Usa encrypt_file_pqc_complete.".to_owned())
}


// ──────────────────────────────── laws ────────────────────────────────

/// Each algorithm name selects its own digest: "sha256" SHA-256, "sha3-256" and its
/// alias "sha3_256" SHA3-256, "sha3-512" and its alias "sha3_512" SHA3-512, "sha512"
/// SHA-512, "blake3" BLAKE3; other names select none. Names are matched after
/// lowercasing, so "SHA3_512" selects SHA3-512 too.
pub proof fn law_hash_algorithm_names(data: Seq<u8>)
    ensures
        digest_hex(data, "sha256"@) == Some(hex_lower(sha256_digest(data))),
        digest_hex(data, "sha3-256"@) == Some(hex_lower(sha3_256_digest(data))),
        digest_hex(data, "sha3_256"@) == Some(hex_lower(sha3_256_digest(data))),
        digest_hex(data, "sha3-512"@) == Some(hex_lower(sha3_512_digest(data))),
        digest_hex(data, "sha3_512"@) == Some(hex_lower(sha3_512_digest(data))),
        digest_hex(data, "sha512"@) == Some(hex_lower(sha512_digest(data))),
        digest_hex(data, "blake3"@) == Some(hex_lower(blake3_digest(data))),
        digest_hex(data, "md5"@) is None,
        digest_hex(data, lowercase("SHA3_512"@)) == Some(hex_lower(sha3_512_digest(data))),
        digest_hex(data, lowercase("SHA256"@)) == Some(hex_lower(sha256_digest(data))),
{
    reveal_strlit("sha256");
    reveal_strlit("sha3-256");
    reveal_strlit("sha3_256");
    reveal_strlit("sha3-512");
    reveal_strlit("sha3_512");
    reveal_strlit("sha512");
    reveal_strlit("blake3");
    reveal_strlit("md5");
    reveal_strlit("SHA3_512");
    reveal_strlit("SHA256");
    let a = "sha256"@;
    let b = "sha3-256"@;
    let c = "sha3_256"@;
    let d = "sha3-512"@;
    let e = "sha3_512"@;
    let f = "sha512"@;
    let g = "blake3"@;
    assert(a[3] != b[3] && a[3] != c[3] && a[3] != d[3] && a[3] != e[3]);
    assert(a[3] != f[3] && a[0] != g[0]);
    assert(b[4] != c[4] && b[5] != d[5] && b[4] != e[4]);
    assert(c[5] != d[5] && c[5] != e[5]);
    assert(d[4] != e[4]);
    assert(f[0] != g[0]);
    assert(c.len() != f.len() && e.len() != f.len() && d.len() != f.len() && b.len() != f.len());
    assert(b.len() != g.len() && c.len() != g.len() && d.len() != g.len() && e.len() != g.len());
    assert(lowercase("SHA3_512"@) =~= e);
    assert(lowercase("SHA256"@) =~= a);
}

/// The hybrid key is HKDF-SHA3-256, salted with the salt and labelled
/// "QuantumARKv4-HybridKey", over the shared secret, then the Argon2id key of the
/// password when there is one, then the pepper when there is one: each input
/// counts whatever the others are.
pub proof fn law_hybrid_key_inputs(shared_secret: Seq<u8>, password: Seq<u8>, salt: Seq<u8>, pepper: Seq<u8>)
    ensures
        ({
            let label = seq![
                0x51u8, 0x75u8, 0x61u8, 0x6Eu8, 0x74u8, 0x75u8, 0x6Du8, 0x41u8, 0x52u8, 0x4Bu8,
                0x76u8, 0x34u8, 0x2Du8, 0x48u8, 0x79u8, 0x62u8, 0x72u8, 0x69u8, 0x64u8, 0x4Bu8,
                0x65u8, 0x79u8,
            ];
            &&& hybrid_key(shared_secret, Some(password), salt, Some(pepper)) == hkdf_sha3_256_key(
                salt,
                shared_secret + argon2id_key(password, salt) + pepper,
                label,
            )
            &&& hybrid_key(shared_secret, Some(password), salt, None) == hkdf_sha3_256_key(
                salt,
                shared_secret + argon2id_key(password, salt),
                label,
            )
            &&& hybrid_key(shared_secret, None, salt, Some(pepper)) == hkdf_sha3_256_key(
                salt,
                shared_secret + pepper,
                label,
            )
            &&& hybrid_key(shared_secret, None, salt, None) == hkdf_sha3_256_key(
                salt,
                shared_secret,
                label,
            )
        }),
{
    assert(hybrid_ikm(shared_secret, Some(password), salt, None) =~= shared_secret + argon2id_key(
        password,
        salt,
    ));
    assert(hybrid_ikm(shared_secret, None, salt, Some(pepper)) =~= shared_secret + pepper);
    assert(hybrid_ikm(shared_secret, None, salt, None) =~= shared_secret);
}

/// The bucket a payload is padded up to: 1 KiB under 1 KiB; from there the least
/// multiple of 1 KiB (under 16 KiB), 16 KiB (under 256 KiB), 256 KiB (under 4 MiB),
/// 4 MiB (under 64 MiB) or 16 MiB (from 64 MiB on) that is not below the length.
pub proof fn law_padding_buckets(len: nat)
    ensures
        len < 1024 ==> bucket_ceiling(len) == 1024,
        1024 <= len < 16384 ==> bucket_ceiling(len) % 1024 == 0 && len <= bucket_ceiling(len)
            < len + 1024,
        16384 <= len < 262144 ==> bucket_ceiling(len) % 16384 == 0 && len <= bucket_ceiling(len)
            < len + 16384,
        262144 <= len < 4194304 ==> bucket_ceiling(len) % 262144 == 0 && len <= bucket_ceiling(
            len,
        ) < len + 262144,
        4194304 <= len < 67108864 ==> bucket_ceiling(len) % 4194304 == 0 && len
            <= bucket_ceiling(len) < len + 4194304,
        67108864 <= len ==> bucket_ceiling(len) % 16777216 == 0 && len <= bucket_ceiling(len)
            < len + 16777216,
{
    lemma_round_up(len as int, 1024);
    lemma_round_up(len as int, 16384);
    lemma_round_up(len as int, 262144);
    lemma_round_up(len as int, 4194304);
    lemma_round_up(len as int, 16777216);
}

/// Rounding up to a multiple of `step` gives a multiple of `step` less than `step` above.
proof fn lemma_round_up(len: int, step: int)
    requires
        len >= 0,
        step > 0,
    ensures
        ({
            let up = if len % step == 0 {
                len
            } else {
                len + (step - len % step)
            };
            up % step == 0 && len <= up < len + step
        }),
{
    vstd::arithmetic::div_mod::lemma_fundamental_div_mod(len, step);
    let q = len / step;
    vstd::arithmetic::div_mod::lemma_mod_multiples_basic(q, step);
    vstd::arithmetic::div_mod::lemma_mod_multiples_basic(q + 1, step);
    vstd::arithmetic::mul::lemma_mul_is_commutative(q, step);
    vstd::arithmetic::mul::lemma_mul_is_distributive_add_other_way(step, q, 1);
    assert(len % step < step);
}


/// Shredding overwrites with zeros on the first pass, ones (0xFF) on the second and
/// 0x55 on the third, repeating every three passes, and with random bytes on the
/// last pass whatever its number.
pub proof fn law_shred_passes(pass: u8, passes: u8)
    requires
        pass < passes,
    ensures
        pass + 1 == passes ==> shred_fill(pass, passes) is None,
        pass == 0 && passes > 1 ==> shred_fill(pass, passes) == Some(0x00u8),
        pass == 1 && passes > 2 ==> shred_fill(pass, passes) == Some(0xFFu8),
        pass == 2 && passes > 3 ==> shred_fill(pass, passes) == Some(0x55u8),
        pass >= 3 && pass + 1 < passes ==> shred_fill(pass, passes) == shred_fill(
            (pass - 3) as u8,
            passes,
        ),
{
}

} // verus!
