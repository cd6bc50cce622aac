//! Post-quantum key pairs (Kyber1024 for key encapsulation, Dilithium5 for
//! signatures), their protection under a password, and the operations on them.
use vstd::prelude::*;

use vstd::string::StringSliceAdditionalSpecFns;

use crate::crypto::primitives::{
    aead_fits, aead_open, aead_seal, argon2id_hash, argon2id_key, bad_length_message,
    chacha20poly1305_open, chacha20poly1305_seal, dilithium_keypair, dilithium_public_key_len,
    dilithium_secret_key_len, dilithium_sign, dilithium_signature, dilithium_verifies,
    dilithium_verify, kyber_ciphertext_check, kyber_ciphertext_len, kyber_decapsulate,
    kyber_encapsulate, kyber_keypair, kyber_public_key_len, kyber_secret_key_check,
    kyber_secret_key_len, kyber_shared_secret, random_bytes, kyber_pair, kyber_encapsulation,
    dilithium_pair, dilithium_signature_len,
};
use crate::utils::bytes::{append_bytes, copy_range};
use crate::utils::hexcode::{decode_hex, encode_hex, hex_decoded, hex_lower, lemma_hex_roundtrip};
use crate::utils::text::{concat_str, has_prefix, lemma_concat_prefix};

verus! {

/// The public half of a key pair, as hexadecimal text.
#[derive(Clone)]
pub struct PQCKeyPairHex {
    pub kem_public: String,
    pub sig_public: String,
    pub kem_algorithm: String,
    pub sig_algorithm: String,
}

/// The private half of a key pair, as hexadecimal text.
#[derive(Clone)]
pub struct PQCPrivateKeyHex {
    pub kem_private: String,
    pub sig_private: String,
    pub kem_algorithm: String,
    pub sig_algorithm: String,
}

/// The Kyber1024 halves of two key texts belong together.
pub open spec fn kem_keys_paired(public_key: PQCKeyPairHex, private_key: PQCPrivateKeyHex) -> bool {
    hex_decoded(public_key.kem_public@) matches Some(p) && hex_decoded(private_key.kem_private@)
        matches Some(s) && kyber_pair(p, s)
}

/// The Dilithium5 halves of two key texts belong together.
pub open spec fn sig_keys_paired(public_key: PQCKeyPairHex, private_key: PQCPrivateKeyHex) -> bool {
    match (hex_decoded(public_key.sig_public@), hex_decoded(private_key.sig_private@)) {
        (Some(p), Some(s)) => p.len() == dilithium_public_key_len() && s.len()
            == dilithium_secret_key_len() && dilithium_pair(p, s),
        _ => false,
    }
}

/// Generates a post-quantum key pair: Kyber1024 for key encapsulation and
/// Dilithium5 for signatures. The keys are random; their bytes are written in
/// lowercase hexadecimal and the algorithms are named.
pub fn generate_pqc_keypair() -> (r: (PQCKeyPairHex, PQCPrivateKeyHex))
    ensures
        r.0.kem_algorithm@ == "Kyber1024"@,
        r.0.sig_algorithm@ == "Dilithium5"@,
        r.1.kem_algorithm@ == "Kyber1024"@,
        r.1.sig_algorithm@ == "Dilithium5"@,
        kem_keys_paired(r.0, r.1),
        sig_keys_paired(r.0, r.1),
        exists|kp: Seq<u8>, sp: Seq<u8>, ks: Seq<u8>, ss: Seq<u8>|
            {
                &&& kp.len() == kyber_public_key_len() && r.0.kem_public@ == hex_lower(kp)
                &&& sp.len() == dilithium_public_key_len() && r.0.sig_public@ == hex_lower(sp)
                &&& ks.len() == kyber_secret_key_len() && r.1.kem_private@ == hex_lower(ks)
                &&& ss.len() == dilithium_secret_key_len() && r.1.sig_private@ == hex_lower(ss)
            },
{
    let (kem_pub, kem_sec) = kyber_keypair();
    let (sig_pub, sig_sec) = dilithium_keypair();
    let public_key = PQCKeyPairHex {
        kem_public: encode_hex(kem_pub.as_slice()),
        sig_public: encode_hex(sig_pub.as_slice()),
        kem_algorithm: "Kyber1024".to_owned(),
        sig_algorithm: "Dilithium5".to_owned(),
    };
    let private_key = PQCPrivateKeyHex {
        kem_private: encode_hex(kem_sec.as_slice()),
        sig_private: encode_hex(sig_sec.as_slice()),
        kem_algorithm: "Kyber1024".to_owned(),
        sig_algorithm: "Dilithium5".to_owned(),
    };
    proof {
        lemma_hex_roundtrip(kem_pub@);
        lemma_hex_roundtrip(kem_sec@);
        lemma_hex_roundtrip(sig_pub@);
        lemma_hex_roundtrip(sig_sec@);
    }
    (public_key, private_key)
}

/// The UTF-8 bytes of a password whose length Argon2 accepts.
pub open spec fn password_fits(password: Seq<u8>) -> bool {
    password.len() <= 0xFFFF_FFFF
}

/// Derives a 256-bit key from a password with Argon2id (default parameters).
pub fn derive_argon2_key(password: &str, salt: &[u8]) -> (res: Result<[u8; 32], String>)
    ensures
        res is Ok <==> (password_fits(password.spec_bytes()) && 8 <= salt@.len() <= 0xFFFF_FFFF),
        res matches Ok(k) ==> k@ == argon2id_key(password.spec_bytes(), salt@),
        res matches Err(m) ==> has_prefix(m@, "Error en Argon2id: "@),
{
    match argon2id_hash(password.as_bytes(), salt) {
        Ok(k) => Ok(k),
        Err(e) => {
            let m = concat_str("Error en Argon2id: ", e.as_str());
            proof {
                lemma_concat_prefix("Error en Argon2id: "@, e@);
            }
            Err(m)
        },
    }
}

/// The protected form of a secret: salt, nonce, and the secret sealed under the
/// Argon2id key of the password and salt.
pub open spec fn protected_form(secret: Seq<u8>, password: Seq<u8>, salt: Seq<u8>, nonce: Seq<u8>) -> Seq<
    u8,
> {
    salt + nonce + chacha20poly1305_seal(argon2id_key(password, salt), nonce, secret)
}

/// Protects a private key under a password with Argon2id and ChaCha20-Poly1305.
/// The result is salt (32 bytes), nonce (12 bytes) and ciphertext; salt and nonce are random.
pub fn protect_private_key(private_key_json: &[u8], password: &str) -> (res: Result<
    Vec<u8>,
    String,
>)
    ensures
        res is Ok <==> (password_fits(password.spec_bytes()) && aead_fits(
            private_key_json@.len() as int,
        )),
        res matches Ok(blob) ==> blob@.len() == 32 + 12 + private_key_json@.len() + 16,
        res matches Ok(blob) ==> exists|salt: Seq<u8>, nonce: Seq<u8>|
            #![trigger protected_form(private_key_json@, password.spec_bytes(), salt, nonce)]
            salt.len() == 32 && nonce.len() == 12 && blob@ == protected_form(
                private_key_json@,
                password.spec_bytes(),
                salt,
                nonce,
            ),
        !password_fits(password.spec_bytes()) ==> res is Err && has_prefix(
            res->Err_0@,
            "Error en Argon2id: "@,
        ),
        password_fits(password.spec_bytes()) && !aead_fits(private_key_json@.len() as int)
            ==> res is Err && has_prefix(res->Err_0@, "Error al cifrar clave privada: "@),
{
    let salt = random_bytes(32);
    let nonce = random_bytes(12);
    let key = derive_argon2_key(password, salt.as_slice())?;
    let ciphertext = match aead_seal(&key, nonce.as_slice(), private_key_json) {
        Ok(c) => c,
        Err(e) => {
            let m = concat_str("Error al cifrar clave privada: ", e.as_str());
            proof {
                lemma_concat_prefix("Error al cifrar clave privada: "@, e@);
            }
            return Err(m);
        },
    };
    let mut protected_data: Vec<u8> = Vec::new();
    append_bytes(&mut protected_data, salt.as_slice());
    append_bytes(&mut protected_data, nonce.as_slice());
    append_bytes(&mut protected_data, ciphertext.as_slice());
    assert(protected_data@ == protected_form(
        private_key_json@,
        password.spec_bytes(),
        salt@,
        nonce@,
    ));
    Ok(protected_data)
}

/// What unprotection yields: the secret, when the blob is long enough and its
/// ciphertext opens under the key of the password and its salt.
pub open spec fn unprotected(blob: Seq<u8>, password: Seq<u8>) -> Option<Seq<u8>> {
    if blob.len() < 44 {
        None
    } else {
        chacha20poly1305_open(
            argon2id_key(password, blob.subrange(0, 32)),
            blob.subrange(32, 44),
            blob.subrange(44, blob.len() as int),
        )
    }
}

/// Recovers a private key protected by `protect_private_key` with the same password.
///
/// What protection writes, unprotection with the same password gives back.
pub fn unprotect_private_key(protected_data: &[u8], password: &str) -> (res: Result<
    Vec<u8>,
    String,
>)
    ensures
        protected_data@.len() < 44 ==> res is Err && res->Err_0@
            == "Datos de clave protegida corruptos o incompletos"@,
        protected_data@.len() >= 44 && !password_fits(password.spec_bytes()) ==> res is Err
            && has_prefix(res->Err_0@, "Error en Argon2id: "@),
        protected_data@.len() >= 44 && password_fits(password.spec_bytes()) ==> match unprotected(
            protected_data@,
            password.spec_bytes(),
        ) {
            Some(secret) => res is Ok && res->Ok_0@ == secret,
            None => res is Err && has_prefix(
                res->Err_0@,
                "Contraseña incorrecta o clave corrupta: "@,
            ),
        },
        forall|secret: Seq<u8>, salt: Seq<u8>, nonce: Seq<u8>|
            #![trigger protected_form(secret, password.spec_bytes(), salt, nonce)]
            salt.len() == 32 && nonce.len() == 12 && password_fits(password.spec_bytes())
                && aead_fits(secret.len() as int) && protected_data@ == protected_form(
                secret,
                password.spec_bytes(),
                salt,
                nonce,
            ) ==> res is Ok && res->Ok_0@ == secret,
{
    if protected_data.len() < 44 {
        proof {
            assert forall|secret: Seq<u8>, salt: Seq<u8>, nonce: Seq<u8>|
                #![trigger protected_form(secret, password.spec_bytes(), salt, nonce)]
                salt.len() == 32 && nonce.len() == 12 && protected_data@ == protected_form(
                    secret,
                    password.spec_bytes(),
                    salt,
                    nonce,
                ) implies false by {
                assert(protected_form(secret, password.spec_bytes(), salt, nonce).len() >= 44);
            }
        }
        return Err("Datos de clave protegida corruptos o incompletos".to_owned());
    }
    let salt = copy_range(protected_data, 0, 32);
    let nonce = copy_range(protected_data, 32, 44);
    let ciphertext = copy_range(protected_data, 44, protected_data.len());
    let key = derive_argon2_key(password, salt.as_slice())?;
    match aead_open(&key, nonce.as_slice(), ciphertext.as_slice()) {
        Ok(secret) => {
            proof {
                assert forall|s: Seq<u8>, sa: Seq<u8>, no: Seq<u8>|
                    #![trigger protected_form(s, password.spec_bytes(), sa, no)]
                    sa.len() == 32 && no.len() == 12 && aead_fits(s.len() as int)
                        && protected_data@ == protected_form(
                        s,
                        password.spec_bytes(),
                        sa,
                        no,
                    ) implies secret@ == s by {
                    let f = protected_form(s, password.spec_bytes(), sa, no);
                    assert(f.subrange(0, 32) == sa);
                    assert(f.subrange(32, 44) == no);
                    assert(f.subrange(44, f.len() as int) == chacha20poly1305_seal(
                        argon2id_key(password.spec_bytes(), sa),
                        no,
                        s,
                    ));
                }
            }
            Ok(secret)
        },
        Err(e) => {
            let m = concat_str("Contraseña incorrecta o clave corrupta: ", e.as_str());
            proof {
                lemma_concat_prefix("Contraseña incorrecta o clave corrupta: "@, e@);
                assert forall|s: Seq<u8>, sa: Seq<u8>, no: Seq<u8>|
                    #![trigger protected_form(s, password.spec_bytes(), sa, no)]
                    sa.len() == 32 && no.len() == 12 && aead_fits(s.len() as int)
                        && protected_data@ == protected_form(
                        s,
                        password.spec_bytes(),
                        sa,
                        no,
                    ) implies false by {
                    let f = protected_form(s, password.spec_bytes(), sa, no);
                    assert(f.subrange(0, 32) == sa);
                    assert(f.subrange(32, 44) == no);
                    assert(f.subrange(44, f.len() as int) == chacha20poly1305_seal(
                        argon2id_key(password.spec_bytes(), sa),
                        no,
                        s,
                    ));
                }
            }
            Err(m)
        },
    }
}

/// `m` is the message with which encapsulation refuses this public key text (false
/// when it accepts it).
pub open spec fn encapsulation_refused(public_key: PQCKeyPairHex, m: Seq<char>) -> bool {
    match hex_decoded(public_key.kem_public@) {
        None => has_prefix(m, "Error al decodificar llave KEM: "@),
        Some(k) => k.len() != kyber_public_key_len() && m == "Llave KEM Kyber1024 inválida: "@
            + bad_length_message("PublicKey"@, kyber_public_key_len(), k.len()),
    }
}

/// Encapsulates a fresh shared secret for the Kyber1024 key of a public key.
/// The result is (ciphertext, shared secret), 1568 and 32 bytes, both random.
pub fn encapsulate_secret(public_key: &PQCKeyPairHex) -> (res: Result<(Vec<u8>, Vec<u8>), String>)
    ensures
        match hex_decoded(public_key.kem_public@) {
            None => res is Err && has_prefix(res->Err_0@, "Error al decodificar llave KEM: "@),
            Some(k) => if k.len() == kyber_public_key_len() {
                res is Ok && res->Ok_0.0@.len() == kyber_ciphertext_len() && res->Ok_0.1@.len()
                    == 32 && kyber_encapsulation(k, res->Ok_0.0@, res->Ok_0.1@)
            } else {
                res is Err && res->Err_0@ == "Llave KEM Kyber1024 inválida: "@ + bad_length_message(
                    "PublicKey"@,
                    kyber_public_key_len(),
                    k.len(),
                )
            },
        },
{
    let kem_pub_bytes = match decode_hex(public_key.kem_public.as_str()) {
        Ok(b) => b,
        Err(e) => {
            let m = concat_str("Error al decodificar llave KEM: ", e.as_str());
            proof {
                lemma_concat_prefix("Error al decodificar llave KEM: "@, e@);
            }
            return Err(m);
        },
    };
    match kyber_encapsulate(kem_pub_bytes.as_slice()) {
        Ok(pair) => Ok(pair),
        Err(e) => Err(concat_str("Llave KEM Kyber1024 inválida: ", e.as_str())),
    }
}

/// `m` is the message with which decapsulation refuses this private key text and
/// ciphertext (false when it accepts them).
pub open spec fn decapsulation_refused(private_key: PQCPrivateKeyHex, ciphertext: Seq<u8>, m: Seq<char>) -> bool {
    match hex_decoded(private_key.kem_private@) {
        None => has_prefix(m, "Error al decodificar llave KEM privada: "@),
        Some(k) => if k.len() != kyber_secret_key_len() {
            m == "Llave KEM Kyber1024 privada inválida: "@ + bad_length_message(
                "SecretKey"@,
                kyber_secret_key_len(),
                k.len(),
            )
        } else if ciphertext.len() != kyber_ciphertext_len() {
            m == "Ciphertext Kyber1024 corrupto: "@ + bad_length_message(
                "Ciphertext"@,
                kyber_ciphertext_len(),
                ciphertext.len(),
            )
        } else {
            false
        },
    }
}

/// Recovers the shared secret of a Kyber1024 ciphertext with the private key.
pub fn decapsulate_secret(private_key: &PQCPrivateKeyHex, ciphertext: &[u8]) -> (res: Result<
    Vec<u8>,
    String,
>)
    ensures
        match hex_decoded(private_key.kem_private@) {
            None => res is Err && has_prefix(
                res->Err_0@,
                "Error al decodificar llave KEM privada: "@,
            ),
            Some(k) => if k.len() != kyber_secret_key_len() {
                res is Err && res->Err_0@ == "Llave KEM Kyber1024 privada inválida: "@
                    + bad_length_message("SecretKey"@, kyber_secret_key_len(), k.len())
            } else if ciphertext@.len() != kyber_ciphertext_len() {
                res is Err && res->Err_0@ == "Ciphertext Kyber1024 corrupto: "@ + bad_length_message(
                    "Ciphertext"@,
                    kyber_ciphertext_len(),
                    ciphertext@.len(),
                )
            } else {
                res is Ok && res->Ok_0@ == kyber_shared_secret(k, ciphertext@)
            },
        },
{
    let kem_priv_bytes = match decode_hex(private_key.kem_private.as_str()) {
        Ok(b) => b,
        Err(e) => {
            let m = concat_str("Error al decodificar llave KEM privada: ", e.as_str());
            proof {
                lemma_concat_prefix("Error al decodificar llave KEM privada: "@, e@);
            }
            return Err(m);
        },
    };
    if let Err(e) = kyber_secret_key_check(kem_priv_bytes.as_slice()) {
        return Err(concat_str("Llave KEM Kyber1024 privada inválida: ", e.as_str()));
    }
    if let Err(e) = kyber_ciphertext_check(ciphertext) {
        return Err(concat_str("Ciphertext Kyber1024 corrupto: ", e.as_str()));
    }
    Ok(kyber_decapsulate(kem_priv_bytes.as_slice(), ciphertext))
}

/// Signs data with the Dilithium5 key of a private key (a detached signature).
pub fn sign_data(private_key: &PQCPrivateKeyHex, data: &[u8]) -> (res: Result<Vec<u8>, String>)
    ensures
        match hex_decoded(private_key.sig_private@) {
            None => res is Err && has_prefix(
                res->Err_0@,
                "Error al decodificar llave de firma privada: "@,
            ),
            Some(k) => if k.len() == dilithium_secret_key_len() {
                res is Ok && res->Ok_0@ == dilithium_signature(k, data@) && res->Ok_0@.len()
                    == dilithium_signature_len()
            } else {
                res is Err && res->Err_0@ == "Llave Dilithium5 privada inválida: "@
                    + bad_length_message("SecretKey"@, dilithium_secret_key_len(), k.len())
            },
        },
{
    let sig_priv_bytes = match decode_hex(private_key.sig_private.as_str()) {
        Ok(b) => b,
        Err(e) => {
            let m = concat_str("Error al decodificar llave de firma privada: ", e.as_str());
            proof {
                lemma_concat_prefix("Error al decodificar llave de firma privada: "@, e@);
            }
            return Err(m);
        },
    };
    match dilithium_sign(sig_priv_bytes.as_slice(), data) {
        Ok(sig) => Ok(sig),
        Err(e) => Err(concat_str("Llave Dilithium5 privada inválida: ", e.as_str())),
    }
}

/// Whether a detached Dilithium5 signature of the data verifies under a public key.
/// A key whose text is not hexadecimal gives `false`.
pub open spec fn signature_valid(public_key: Seq<char>, data: Seq<u8>, signature: Seq<u8>) -> bool {
    match hex_decoded(public_key) {
        None => false,
        Some(k) => k.len() == dilithium_public_key_len() && signature.len()
            == dilithium_signature_len() && dilithium_verifies(k, data, signature),
    }
}

/// Verifies a detached Dilithium5 signature with the key of a public key.
pub fn verify_signature(public_key: &PQCKeyPairHex, data: &[u8], signature_bytes: &[u8]) -> (r:
    bool)
    ensures
        r == signature_valid(public_key.sig_public@, data@, signature_bytes@),
        forall|secret_key: Seq<u8>|
            #![trigger dilithium_signature(secret_key, data@)]
            secret_key.len() == dilithium_secret_key_len() && hex_decoded(public_key.sig_public@)
                is Some && dilithium_pair(hex_decoded(public_key.sig_public@)->Some_0, secret_key)
                && hex_decoded(public_key.sig_public@)->Some_0.len() == dilithium_public_key_len()
                && signature_bytes@.len()
                == dilithium_signature_len() && signature_bytes@ == dilithium_signature(
                secret_key,
                data@,
            ) ==> r,
{
    match decode_hex(public_key.sig_public.as_str()) {
        Ok(key) => dilithium_verify(key.as_slice(), data, signature_bytes),
        Err(_) => false,
    }
}


/// The layout of a protected key: the first 32 bytes are the salt from which the
/// Argon2id key of the password is derived, the next 12 the ChaCha20-Poly1305 nonce,
/// and the rest the ciphertext. Protection writes exactly that, and unprotection
/// opens whatever ciphertext follows a salt and a nonce with that key and nonce.
pub proof fn law_protected_key_layout(
    secret: Seq<u8>,
    password: Seq<u8>,
    salt: Seq<u8>,
    nonce: Seq<u8>,
    ciphertext: Seq<u8>,
)
    requires
        salt.len() == 32,
        nonce.len() == 12,
    ensures
        protected_form(secret, password, salt, nonce) == salt + nonce + chacha20poly1305_seal(
            argon2id_key(password, salt),
            nonce,
            secret,
        ),
        protected_form(secret, password, salt, nonce).subrange(0, 32) == salt,
        protected_form(secret, password, salt, nonce).subrange(32, 44) == nonce,
        unprotected(salt + nonce + ciphertext, password) == chacha20poly1305_open(
            argon2id_key(password, salt),
            nonce,
            ciphertext,
        ),
{
    let b = salt + nonce + ciphertext;
    assert(b.subrange(0, 32) =~= salt);
    assert(b.subrange(32, 44) =~= nonce);
    assert(b.subrange(44, b.len() as int) =~= ciphertext);
    let f = protected_form(secret, password, salt, nonce);
    assert(f.subrange(0, 32) =~= salt);
    assert(f.subrange(32, 44) =~= nonce);
}

} // verus!
