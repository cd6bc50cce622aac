//! The operations the front end offers on texts: protecting and unprotecting a
//! private key text under a password, and splitting and recovering a password.
use vstd::prelude::*;
use vstd::string::StringSliceAdditionalSpecFns;
use vstd::utf8::{decode_utf8, encode_utf8, encode_utf8_decode_utf8, encode_utf8_valid_utf8, valid_utf8};

use crate::crypto::key_manager::{
    password_fits, protect_private_key, protected_form, unprotect_private_key, unprotected,
};
use crate::crypto::primitives::aead_fits;
use crate::crypto::shamir::{recover_secret, recovered, shares_of, split_refusal, split_secret, texts};
use crate::utils::hexcode::{decode_hex, encode_hex, hex_decoded, hex_lower, lemma_hex_lower_len, lemma_hex_roundtrip};
use crate::utils::text::{concat_str, has_prefix, lemma_concat_prefix, utf8_string};

verus! {

/// Protects a private key text under a password; the protected form comes as
/// lowercase hexadecimal.
pub fn protect_key(private_key_json: &str, password: &str) -> (res: Result<String, String>)
    ensures
        res is Ok <==> (password_fits(password.spec_bytes()) && aead_fits(
            private_key_json.spec_bytes().len() as int,
        )),
        res matches Ok(h) ==> h@.len() == 2 * (32 + 12 + private_key_json.spec_bytes().len() + 16),
        res matches Ok(h) ==> exists|salt: Seq<u8>, nonce: Seq<u8>|
            #![trigger protected_form(private_key_json.spec_bytes(), password.spec_bytes(), salt, nonce)]
            salt.len() == 32 && nonce.len() == 12 && h@ == hex_lower(
                protected_form(private_key_json.spec_bytes(), password.spec_bytes(), salt, nonce),
            ),
        !password_fits(password.spec_bytes()) ==> res is Err && has_prefix(
            res->Err_0@,
            "Error en Argon2id: "@,
        ),
        password_fits(password.spec_bytes()) && !aead_fits(private_key_json.spec_bytes().len() as int)
            ==> res is Err && has_prefix(res->Err_0@, "Error al cifrar clave privada: "@),
{
    let protected_bytes = protect_private_key(private_key_json.as_bytes(), password)?;
    proof {
        lemma_hex_lower_len(protected_bytes@);
    }
    Ok(encode_hex(protected_bytes.as_slice()))
}

/// Unprotects a private key text protected by `protect_key`.
///
/// What `protect_key` wrote, `unprotect_key` with the same password gives back.
pub fn unprotect_key(protected_key_hex: &str, password: &str) -> (res: Result<String, String>)
    ensures
        match hex_decoded(protected_key_hex@) {
            None => res is Err && has_prefix(res->Err_0@, "Formato de llave protegida inválida: "@),
            Some(blob) => if blob.len() < 44 {
                res is Err && res->Err_0@ == "Datos de clave protegida corruptos o incompletos"@
            } else if !password_fits(password.spec_bytes()) {
                res is Err && has_prefix(res->Err_0@, "Error en Argon2id: "@)
            } else {
                match unprotected(blob, password.spec_bytes()) {
                    None => res is Err && has_prefix(
                        res->Err_0@,
                        "Contraseña incorrecta o clave corrupta: "@,
                    ),
                    Some(secret) => if valid_utf8(secret) {
                        res is Ok && res->Ok_0@ == decode_utf8(secret)
                    } else {
                        res is Err && has_prefix(res->Err_0@, "Clave no es UTF-8 válido: "@)
                    },
                }
            },
        },
        forall|text: Seq<char>, salt: Seq<u8>, nonce: Seq<u8>|
            #![trigger protected_form(encode_utf8(text), password.spec_bytes(), salt, nonce)]
            salt.len() == 32 && nonce.len() == 12 && password_fits(password.spec_bytes())
                && aead_fits(encode_utf8(text).len() as int) && protected_key_hex@ == hex_lower(
                protected_form(encode_utf8(text), password.spec_bytes(), salt, nonce),
            ) ==> res is Ok && res->Ok_0@ == text,
{
    proof {
        assert forall|text: Seq<char>, salt: Seq<u8>, nonce: Seq<u8>|
            #![trigger protected_form(encode_utf8(text), password.spec_bytes(), salt, nonce)]
            protected_key_hex@ == hex_lower(
                protected_form(encode_utf8(text), password.spec_bytes(), salt, nonce),
            ) implies hex_decoded(protected_key_hex@) == Some(
            protected_form(encode_utf8(text), password.spec_bytes(), salt, nonce),
        ) by {
            lemma_hex_roundtrip(protected_form(encode_utf8(text), password.spec_bytes(), salt, nonce));
        }
    }
    let protected_bytes = match decode_hex(protected_key_hex) {
        Ok(b) => b,
        Err(e) => {
            proof {
                lemma_concat_prefix("Formato de llave protegida inválida: "@, e@);
            }
            return Err(concat_str("Formato de llave protegida inválida: ", e.as_str()));
        },
    };
    let decrypted_bytes = unprotect_private_key(protected_bytes.as_slice(), password)?;
    proof {
        assert forall|text: Seq<char>, salt: Seq<u8>, nonce: Seq<u8>|
            #![trigger protected_form(encode_utf8(text), password.spec_bytes(), salt, nonce)]
            salt.len() == 32 && nonce.len() == 12 && password_fits(password.spec_bytes())
                && aead_fits(encode_utf8(text).len() as int) && protected_key_hex@ == hex_lower(
                protected_form(encode_utf8(text), password.spec_bytes(), salt, nonce),
            ) implies decrypted_bytes@ == encode_utf8(text) && valid_utf8(decrypted_bytes@)
            && decode_utf8(decrypted_bytes@) == text by {
            encode_utf8_valid_utf8(text);
            encode_utf8_decode_utf8(text);
        }
    }
    match utf8_string(decrypted_bytes) {
        Ok(s) => Ok(s),
        Err(e) => {
            proof {
                lemma_concat_prefix("Clave no es UTF-8 válido: "@, e@);
            }
            Err(concat_str("Clave no es UTF-8 válido: ", e.as_str()))
        },
    }
}

/// Splits a password into `total` shares of which any `threshold` recover it.
pub fn split_password(password: &str, threshold: u8, total: u8) -> (res: Result<Vec<String>, String>)
    ensures
        match split_refusal(threshold, total) {
            Some(m) => res is Err && res->Err_0@ == m,
            None => res is Ok && shares_of(texts(res->Ok_0@), password.spec_bytes(), threshold, total),
        },
{
    split_secret(password.as_bytes(), threshold, total)
}

/// Recovers a password from its shares, as text.
pub fn recover_password(shares: &[String], threshold: u8) -> (res: Result<String, String>)
    ensures
        match recovered(texts(shares@), threshold) {
            Some(s) => if valid_utf8(s) {
                res is Ok && res->Ok_0@ == decode_utf8(s)
            } else {
                res is Err && has_prefix(res->Err_0@, "Contraseña recuperada no es UTF-8 válido: "@)
            },
            None => res is Err,
        },
{
    let recovered_bytes = recover_secret(shares, threshold)?;
    match utf8_string(recovered_bytes) {
        Ok(s) => Ok(s),
        Err(e) => {
            proof {
                lemma_concat_prefix("Contraseña recuperada no es UTF-8 válido: "@, e@);
            }
            Err(concat_str("Contraseña recuperada no es UTF-8 válido: ", e.as_str()))
        },
    }
}

} // verus!
