//! The `.qarq` container: a header ("QARQ4.0" and a zero byte), four flag bytes
//! (hardware pepper, time-to-live, decoy, obfuscated name), the decoy byte again,
//! then the primary package alone or, with a decoy, both packages each after its
//! length (four bytes, little-endian); a detached Dilithium5 signature of all that
//! closes the file.
use vstd::prelude::*;

use crate::crypto::key_manager::{sign_data, signature_valid, verify_signature, PQCKeyPairHex, PQCPrivateKeyHex};
use crate::crypto::package::{le32, read32};
use crate::crypto::primitives::{
    dilithium_pair, dilithium_public_key_len, dilithium_secret_key_len, dilithium_signature,
};
use crate::utils::bytes::{append_bytes, copy_range};
use crate::utils::hexcode::hex_decoded;

use vstd::bytes::{lemma_auto_spec_u32_to_from_le_bytes, u32_from_le_bytes, u32_to_le_bytes};

verus! {

/// The header of a version-4 container: "QARQ4.0" and a zero byte.
pub open spec fn container_magic() -> Seq<u8> {
    seq![0x51u8, 0x41, 0x52, 0x51, 0x34, 0x2e, 0x30, 0x00]
}

/// The headers of the earlier versions: "QARQ3.0" and "QARQ3.1", each with a zero byte.
pub open spec fn is_legacy_magic(h: Seq<u8>) -> bool {
    h == seq![0x51u8, 0x41, 0x52, 0x51, 0x33, 0x2e, 0x30, 0x00] || h == seq![
        0x51u8,
        0x41,
        0x52,
        0x51,
        0x33,
        0x2e,
        0x31,
        0x00,
    ]
}

/// A flag as one byte.
pub open spec fn flag_byte(b: bool) -> u8 {
    if b {
        1
    } else {
        0
    }
}

/// The length of a detached Dilithium5 signature, which closes a container.
pub open spec fn signature_len() -> nat {
    4627
}

/// The signed body of a container.
pub open spec fn container_body(
    primary: Seq<u8>,
    decoy: Option<Seq<u8>>,
    hardware_pepper: bool,
    ttl_present: bool,
    obfuscate: bool,
) -> Seq<u8> {
    container_magic() + seq![
        flag_byte(hardware_pepper),
        flag_byte(ttl_present),
        flag_byte(decoy is Some),
        flag_byte(obfuscate),
        flag_byte(decoy is Some),
    ] + match decoy {
        Some(d) => le32(primary.len()) + primary + le32(d.len()) + d,
        None => primary,
    }
}

fn push_flag(v: &mut Vec<u8>, b: bool)
    ensures
        final(v)@ == old(v)@.push(flag_byte(b)),
{
    if b {
        v.push(1);
    } else {
        v.push(0);
    }
}

fn push_le32(v: &mut Vec<u8>, n: usize)
    ensures
        final(v)@ == old(v)@ + le32(n as nat),
{
    #[verifier::truncate]
    let short = n as u32;
    let bytes = u32_to_le_bytes(short);
    append_bytes(v, bytes.as_slice());
}

/// Lays out the signed body of a container (lengths cut to 32 bits).
pub fn assemble_container_body(
    primary: &[u8],
    decoy: Option<&[u8]>,
    hardware_pepper: bool,
    ttl_present: bool,
    obfuscate: bool,
) -> (r: Vec<u8>)
    ensures
        r@ == container_body(
            primary@,
            match decoy {
                Some(d) => Some(d@),
                None => None,
            },
            hardware_pepper,
            ttl_present,
            obfuscate,
        ),
{
    let mut body: Vec<u8> = Vec::new();
    body.push(0x51);
    body.push(0x41);
    body.push(0x52);
    body.push(0x51);
    body.push(0x34);
    body.push(0x2e);
    body.push(0x30);
    body.push(0x00);
    let decoy_active = decoy.is_some();
    push_flag(&mut body, hardware_pepper);
    push_flag(&mut body, ttl_present);
    push_flag(&mut body, decoy_active);
    push_flag(&mut body, obfuscate);
    push_flag(&mut body, decoy_active);
    let ghost head = body@;
    assert(head =~= container_magic() + seq![
        flag_byte(hardware_pepper),
        flag_byte(ttl_present),
        flag_byte(decoy_active),
        flag_byte(obfuscate),
        flag_byte(decoy_active),
    ]);
    match decoy {
        Some(d) => {
            push_le32(&mut body, primary.len());
            append_bytes(&mut body, primary);
            push_le32(&mut body, d.len());
            append_bytes(&mut body, d);
            assert(body@ =~= head + (le32(primary@.len()) + primary@ + le32(d@.len()) + d@));
        },
        None => {
            append_bytes(&mut body, primary);
        },
    }
    body
}

/// The Dilithium5 secret key of a private key text, when it decodes to one.
pub open spec fn signing_key(private_key: PQCPrivateKeyHex) -> Option<Seq<u8>> {
    match hex_decoded(private_key.sig_private@) {
        Some(k) => if k.len() == dilithium_secret_key_len() {
            Some(k)
        } else {
            None
        },
        None => None,
    }
}

/// Assembles a container from its packages and signs it with the sender's key (as
/// the app parsed it: a parse error is what signing reports).
pub fn seal_container(
    primary: &[u8],
    decoy: Option<&[u8]>,
    hardware_pepper: bool,
    ttl_present: bool,
    obfuscate: bool,
    sender_private: &Result<PQCPrivateKeyHex, String>,
) -> (res: Result<Vec<u8>, String>)
    ensures
        sender_private matches Err(e) ==> res == Err::<Vec<u8>, String>(*e),
        sender_private matches Ok(k) ==> (res is Ok <==> signing_key(*k) is Some),
        res matches Ok(file) ==> ({
            let body = container_body(
                primary@,
                match decoy {
                    Some(d) => Some(d@),
                    None => None,
                },
                hardware_pepper,
                ttl_present,
                obfuscate,
            );
            &&& sender_private is Ok
            &&& signing_key(sender_private->Ok_0) is Some
            &&& file@ == body + dilithium_signature(signing_key(sender_private->Ok_0)->Some_0, body)
            &&& dilithium_signature(signing_key(sender_private->Ok_0)->Some_0, body).len()
                == signature_len()
            &&& file@.len() >= signature_len() + 13
        }),
{
    let key = match sender_private {
        Ok(k) => k,
        Err(e) => {
            return Err(e.clone());
        },
    };
    let mut body = assemble_container_body(primary, decoy, hardware_pepper, ttl_present, obfuscate);
    let signature = sign_data(key, body.as_slice())?;
    append_bytes(&mut body, signature.as_slice());
    Ok(body)
}

/// Why a container cannot be opened.
#[derive(PartialEq, Eq, Structural, Clone, Copy, Debug)]
pub enum ContainerFault {
    /// Too short for a header, or for a header, flags and signature.
    Truncated,
    /// Written by an earlier version.
    LegacyVersion,
    /// Not a container header.
    BadHeader,
    /// The signature does not verify under the sender's key.
    BadSignature,
    /// A decoy container too short for the primary package's length.
    Corrupt,
    /// The primary package runs past the end.
    PrimaryCorrupt,
    /// The decoy package runs past the end.
    DecoyCorrupt,
    /// The decoy package's length lies past the end: reading it would index out of bounds.
    Overrun,
}

/// The message for a container fault.
pub open spec fn container_fault_message(f: ContainerFault) -> Seq<char> {
    match f {
        ContainerFault::Truncated => "Archivo corrupto o incompleto"@,
        ContainerFault::LegacyVersion => "Archivo cifrado con versión anterior. Usa BlackPrism v3.1 para descifrar."@,
        ContainerFault::BadHeader => "Formato de cabecera inválido en el archivo .qarq"@,
        ContainerFault::BadSignature => "¡Firma Dilithium5 INVÁLIDA! El archivo ha sido manipulado o proviene de una fuente no autorizada."@,
        ContainerFault::Corrupt => "Archivo QARQ4.0 corrupto"@,
        ContainerFault::PrimaryCorrupt => "Archivo QARQ4.0 corrupto (prim pkg)"@,
        ContainerFault::DecoyCorrupt => "Archivo QARQ4.0 corrupto (decoy pkg)"@,
        ContainerFault::Overrun => Seq::empty(),
    }
}

/// What a signed body holds: the pepper flag, the primary package and the decoy
/// package when the decoy flag is set.
pub open spec fn body_contents(body: Seq<u8>) -> Result<(bool, Seq<u8>, Option<Seq<u8>>), ContainerFault>
    recommends
        body.len() >= 13,
{
    let pepper = body[8] == 1;
    if body[12] == 1 {
        if 21 > body.len() {
            Err(ContainerFault::Corrupt)
        } else {
            let pl: int = read32(body, 13) as int;
            if 17 + pl > body.len() {
                Err(ContainerFault::PrimaryCorrupt)
            } else if 21 + pl > body.len() {
                Err(ContainerFault::Overrun)
            } else {
                let dl: int = read32(body, 17 + pl) as int;
                if 21 + pl + dl > body.len() {
                    Err(ContainerFault::DecoyCorrupt)
                } else {
                    Ok(
                        (
                            pepper,
                            body.subrange(17, 17 + pl),
                            Some(body.subrange(21 + pl, 21 + pl + dl)),
                        ),
                    )
                }
            }
        }
    } else {
        Ok((pepper, body.subrange(13, body.len() as int), None))
    }
}

/// What opening a container gives under the sender's signature key text (none when
/// the sender's key could not be read).
pub open spec fn container_contents(data: Seq<u8>, sender_sig_public: Option<Seq<char>>) -> Result<
    (bool, Seq<u8>, Option<Seq<u8>>),
    ContainerFault,
> {
    if data.len() < 8 {
        Err(ContainerFault::Truncated)
    } else if is_legacy_magic(data.subrange(0, 8)) {
        Err(ContainerFault::LegacyVersion)
    } else if data.subrange(0, 8) != container_magic() {
        Err(ContainerFault::BadHeader)
    } else if data.len() < signature_len() + 13 {
        Err(ContainerFault::Truncated)
    } else {
        let start = data.len() - signature_len();
        let body = data.subrange(0, start);
        let signature = data.subrange(start, data.len() as int);
        if !(match sender_sig_public {
            Some(pk) => signature_valid(pk, body, signature),
            None => false,
        }) {
            Err(ContainerFault::BadSignature)
        } else {
            body_contents(body)
        }
    }
}

/// The parts of an opened container.
#[derive(Debug)]
pub struct ContainerParts {
    pub hardware_pepper_active: bool,
    pub primary: Vec<u8>,
    pub decoy: Option<Vec<u8>>,
}

/// The parts hold these contents.
pub open spec fn parts_hold(p: &ContainerParts, c: (bool, Seq<u8>, Option<Seq<u8>>)) -> bool {
    &&& p.hardware_pepper_active == c.0
    &&& p.primary@ == c.1
    &&& match (p.decoy, c.2) {
        (Some(a), Some(b)) => a@ == b,
        (None, None) => true,
        _ => false,
    }
}

fn read_u32_le(b: &[u8], at: usize) -> (r: usize)
    requires
        at + 4 <= b@.len(),
        b@.len() <= usize::MAX,
    ensures
        r == read32(b@, at as int),
{
    let four = copy_range(b, at, at + 4);
    u32_from_le_bytes(four.as_slice()) as usize
}

fn header_matches(data: &[u8], expected: &[u8; 8]) -> (r: bool)
    requires
        data@.len() >= 8,
    ensures
        r == (data@.subrange(0, 8) == expected@),
{
    let mut i: usize = 0;
    while i < 8
        invariant
            i <= 8,
            data@.len() >= 8,
            data@.subrange(0, i as int) == expected@.subrange(0, i as int),
        decreases 8 - i,
    {
        if data[i] != expected[i] {
            assert(data@.subrange(0, 8)[i as int] != expected@[i as int]);
            return false;
        }
        i = i + 1;
        assert(data@.subrange(0, i as int) =~= expected@.subrange(0, i as int));
    }
    assert(data@.subrange(0, 8) =~= expected@);
    true
}

fn scan_body(body: &[u8]) -> (res: Result<ContainerParts, ContainerFault>)
    requires
        body@.len() >= 13,
    ensures
        match body_contents(body@) {
            Ok(c) => res is Ok && parts_hold(&res->Ok_0, c),
            Err(f) => res == Err::<ContainerParts, ContainerFault>(f),
        },
{
    let len = body.len();
    let hardware_pepper_active = body[8] == 1;
    if body[12] == 1 {
        if 21 > len {
            return Err(ContainerFault::Corrupt);
        }
        let prim_len = read_u32_le(body, 13);
        if prim_len > len - 17 {
            return Err(ContainerFault::PrimaryCorrupt);
        }
        if len - 17 - prim_len < 4 {
            return Err(ContainerFault::Overrun);
        }
        let dec_len = read_u32_le(body, 17 + prim_len);
        if dec_len > len - 21 - prim_len {
            return Err(ContainerFault::DecoyCorrupt);
        }
        let primary = copy_range(body, 17, 17 + prim_len);
        let decoy = copy_range(body, 21 + prim_len, 21 + prim_len + dec_len);
        Ok(ContainerParts { hardware_pepper_active, primary, decoy: Some(decoy) })
    } else {
        let primary = copy_range(body, 13, len);
        Ok(ContainerParts { hardware_pepper_active, primary, decoy: None })
    }
}

/// Checks a container's header, verifies its signature under the sender's key (as
/// the app parsed it; none when it could not be read) and splits its body into the
/// primary and the decoy package.
pub fn open_container(file_data: &[u8], sender_public: Option<&PQCKeyPairHex>) -> (res: Result<
    ContainerParts,
    String,
>)
    requires
        container_contents(
            file_data@,
            match sender_public {
                Some(k) => Some(k.sig_public@),
                None => None,
            },
        ) != Err::<(bool, Seq<u8>, Option<Seq<u8>>), ContainerFault>(ContainerFault::Overrun),
    ensures
        match container_contents(
            file_data@,
            match sender_public {
                Some(k) => Some(k.sig_public@),
                None => None,
            },
        ) {
            Ok(c) => res is Ok && parts_hold(&res->Ok_0, c),
            Err(f) => res is Err && res->Err_0@ == container_fault_message(f),
        },
        forall|
            primary: Seq<u8>,
            decoy: Option<Seq<u8>>,
            hardware_pepper: bool,
            ttl_present: bool,
            obfuscate: bool,
            secret_key: Seq<u8>,
        |
            #![trigger dilithium_signature(secret_key, container_body(primary, decoy, hardware_pepper, ttl_present, obfuscate))]
            signed_by(
                file_data@,
                container_body(primary, decoy, hardware_pepper, ttl_present, obfuscate),
                secret_key,
                sender_public,
            ) && primary.len() <= u32::MAX && (decoy matches Some(d) ==> d.len() <= u32::MAX)
                ==> res is Ok && parts_hold(&res->Ok_0, (hardware_pepper, primary, decoy)),
{
    match open_container_parts(file_data, sender_public) {
        Ok(p) => Ok(p),
        Err(f) => Err(container_fault_text(f)),
    }
}

/// The message for a container fault.
pub fn container_fault_text(f: ContainerFault) -> (r: String)
    ensures
        r@ == container_fault_message(f),
{
    match f {
        ContainerFault::Truncated => "Archivo corrupto o incompleto".to_owned(),
        ContainerFault::LegacyVersion => "Archivo cifrado con versión anterior. Usa BlackPrism v3.1 para descifrar.".to_owned(),
        ContainerFault::BadHeader => "Formato de cabecera inválido en el archivo .qarq".to_owned(),
        ContainerFault::BadSignature => "¡Firma Dilithium5 INVÁLIDA! El archivo ha sido manipulado o proviene de una fuente no autorizada.".to_owned(),
        ContainerFault::Corrupt => "Archivo QARQ4.0 corrupto".to_owned(),
        ContainerFault::PrimaryCorrupt => "Archivo QARQ4.0 corrupto (prim pkg)".to_owned(),
        ContainerFault::DecoyCorrupt => "Archivo QARQ4.0 corrupto (decoy pkg)".to_owned(),
        ContainerFault::Overrun => String::new(),
    }
}

/// Opens a container as `open_container` does, reporting every fault, the
/// out-of-bounds one included.
pub fn open_container_parts(file_data: &[u8], sender_public: Option<&PQCKeyPairHex>) -> (res: Result<
    ContainerParts,
    ContainerFault,
>)
    ensures
        match container_contents(
            file_data@,
            match sender_public {
                Some(k) => Some(k.sig_public@),
                None => None,
            },
        ) {
            Ok(c) => res is Ok && parts_hold(&res->Ok_0, c),
            Err(f) => res == Err::<ContainerParts, ContainerFault>(f),
        },
        forall|
            primary: Seq<u8>,
            decoy: Option<Seq<u8>>,
            hardware_pepper: bool,
            ttl_present: bool,
            obfuscate: bool,
            secret_key: Seq<u8>,
        |
            #![trigger dilithium_signature(secret_key, container_body(primary, decoy, hardware_pepper, ttl_present, obfuscate))]
            signed_by(
                file_data@,
                container_body(primary, decoy, hardware_pepper, ttl_present, obfuscate),
                secret_key,
                sender_public,
            ) && primary.len() <= u32::MAX && (decoy matches Some(d) ==> d.len() <= u32::MAX)
                ==> res is Ok && parts_hold(&res->Ok_0, (hardware_pepper, primary, decoy)),
{
    proof {
        assert forall|
            primary: Seq<u8>,
            decoy: Option<Seq<u8>>,
            hardware_pepper: bool,
            ttl_present: bool,
            obfuscate: bool,
            secret_key: Seq<u8>,
        |
            #![trigger dilithium_signature(secret_key, container_body(primary, decoy, hardware_pepper, ttl_present, obfuscate))]
            signed_by(
                file_data@,
                container_body(primary, decoy, hardware_pepper, ttl_present, obfuscate),
                secret_key,
                sender_public,
            ) implies file_data@.len() >= signature_len() + 13 && file_data@.subrange(0, 8)
            == container_magic() by {
            let body = container_body(primary, decoy, hardware_pepper, ttl_present, obfuscate);
            assert(file_data@.subrange(0, 8) =~= container_magic());
        }
        lemma_magic_not_legacy();
    }
    let len = file_data.len();
    if len < 8 {
        return Err(ContainerFault::Truncated);
    }
    let v30: [u8; 8] = [0x51, 0x41, 0x52, 0x51, 0x33, 0x2e, 0x30, 0x00];
    let v31: [u8; 8] = [0x51, 0x41, 0x52, 0x51, 0x33, 0x2e, 0x31, 0x00];
    let v40: [u8; 8] = [0x51, 0x41, 0x52, 0x51, 0x34, 0x2e, 0x30, 0x00];
    assert(v30@ =~= seq![0x51u8, 0x41, 0x52, 0x51, 0x33, 0x2e, 0x30, 0x00]);
    assert(v31@ =~= seq![0x51u8, 0x41, 0x52, 0x51, 0x33, 0x2e, 0x31, 0x00]);
    assert(v40@ =~= container_magic());
    if header_matches(file_data, &v30) || header_matches(file_data, &v31) {
        return Err(ContainerFault::LegacyVersion);
    }
    if !header_matches(file_data, &v40) {
        return Err(ContainerFault::BadHeader);
    }
    if len < 4627 + 13 {
        return Err(ContainerFault::Truncated);
    }
    let start = len - 4627;
    let body = copy_range(file_data, 0, start);
    let signature = copy_range(file_data, start, len);
    let valid = match sender_public {
        Some(k) => verify_signature(k, body.as_slice(), signature.as_slice()),
        None => false,
    };
    proof {
        assert forall|
            primary: Seq<u8>,
            decoy: Option<Seq<u8>>,
            hardware_pepper: bool,
            ttl_present: bool,
            obfuscate: bool,
            secret_key: Seq<u8>,
        |
            #![trigger dilithium_signature(secret_key, container_body(primary, decoy, hardware_pepper, ttl_present, obfuscate))]
            signed_by(
                file_data@,
                container_body(primary, decoy, hardware_pepper, ttl_present, obfuscate),
                secret_key,
                sender_public,
            ) && primary.len() <= u32::MAX && (decoy matches Some(d) ==> d.len() <= u32::MAX)
            implies container_contents(
            file_data@,
            match sender_public {
                Some(k) => Some(k.sig_public@),
                None => None,
            },
        ) == Ok::<(bool, Seq<u8>, Option<Seq<u8>>), ContainerFault>(
            (hardware_pepper, primary, decoy),
        ) by {
            let b = container_body(primary, decoy, hardware_pepper, ttl_present, obfuscate);
            let sig = dilithium_signature(secret_key, b);
            assert(body@ =~= b);
            assert(signature@ =~= sig);
            assert(valid);
            law_container_roundtrip(
                primary,
                decoy,
                hardware_pepper,
                ttl_present,
                obfuscate,
                sender_public->Some_0.sig_public@,
                sig,
            );
        }
    }
    if !valid {
        return Err(ContainerFault::BadSignature);
    }
    scan_body(body.as_slice())
}

/// `file` is `body` followed by the Dilithium5 signature of `body` that `secret_key`
/// makes, and the sender's public key text holds the public key generated together
/// with that secret key.
pub open spec fn signed_by(
    file: Seq<u8>,
    body: Seq<u8>,
    secret_key: Seq<u8>,
    sender_public: Option<&PQCKeyPairHex>,
) -> bool {
    &&& sender_public is Some
    &&& secret_key.len() == dilithium_secret_key_len()
    &&& hex_decoded(sender_public->Some_0.sig_public@) is Some
    &&& dilithium_pair(hex_decoded(sender_public->Some_0.sig_public@)->Some_0, secret_key)
    &&& hex_decoded(sender_public->Some_0.sig_public@)->Some_0.len() == dilithium_public_key_len()
    &&& dilithium_signature(secret_key, body).len() == signature_len()
    &&& file == body + dilithium_signature(secret_key, body)
}

proof fn lemma_magic_not_legacy()
    ensures
        !is_legacy_magic(container_magic()),
{
    assert(container_magic()[4] != seq![0x51u8, 0x41, 0x52, 0x51, 0x33, 0x2e, 0x30, 0x00][4]);
    assert(container_magic()[4] != seq![0x51u8, 0x41, 0x52, 0x51, 0x33, 0x2e, 0x31, 0x00][4]);
}

/// The law of the container format: opening a signed body whose signature verifies
/// under the sender's key gives back the pepper flag and the packages that were laid
/// out (when their lengths fit the 32-bit length fields).
pub proof fn law_container_roundtrip(
    primary: Seq<u8>,
    decoy: Option<Seq<u8>>,
    hardware_pepper: bool,
    ttl_present: bool,
    obfuscate: bool,
    sender_sig_public: Seq<char>,
    signature: Seq<u8>,
)
    requires
        primary.len() <= u32::MAX,
        decoy matches Some(d) ==> d.len() <= u32::MAX,
        signature.len() == signature_len(),
        signature_valid(
            sender_sig_public,
            container_body(primary, decoy, hardware_pepper, ttl_present, obfuscate),
            signature,
        ),
    ensures
        container_contents(
            container_body(primary, decoy, hardware_pepper, ttl_present, obfuscate) + signature,
            Some(sender_sig_public),
        ) == Ok::<(bool, Seq<u8>, Option<Seq<u8>>), ContainerFault>(
            (hardware_pepper, primary, decoy),
        ),
{
    lemma_auto_spec_u32_to_from_le_bytes();
    let body = container_body(primary, decoy, hardware_pepper, ttl_present, obfuscate);
    let data = body + signature;
    let start = data.len() - signature_len();
    assert(data.subrange(0, 8) =~= container_magic());
    assert(data.subrange(0, start) =~= body);
    assert(data.subrange(start, data.len() as int) =~= signature);
    assert(container_magic() != seq![0x51u8, 0x41, 0x52, 0x51, 0x33, 0x2e, 0x30, 0x00]) by {
        assert(container_magic()[4] != seq![0x51u8, 0x41, 0x52, 0x51, 0x33, 0x2e, 0x30, 0x00][4]);
    }
    assert(container_magic() != seq![0x51u8, 0x41, 0x52, 0x51, 0x33, 0x2e, 0x31, 0x00]) by {
        assert(container_magic()[4] != seq![0x51u8, 0x41, 0x52, 0x51, 0x33, 0x2e, 0x31, 0x00][4]);
    }
    assert(body[8] == flag_byte(hardware_pepper));
    assert(body[12] == flag_byte(decoy is Some));
    match decoy {
        Some(d) => {
            let pl: int = primary.len() as int;
            let dl: int = d.len() as int;
            assert((primary.len() as u32) as nat == primary.len());
            assert((d.len() as u32) as nat == d.len());
            assert(body.subrange(13, 17) =~= le32(primary.len()));
            assert(body.subrange(17 + pl, 21 + pl) =~= le32(d.len()));
            assert(body.subrange(17, 17 + pl) =~= primary);
            assert(body.subrange(21 + pl, 21 + pl + dl) =~= d);
        },
        None => {
            assert(body.subrange(13, body.len() as int) =~= primary);
        },
    }
}

} // verus!
