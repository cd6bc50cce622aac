use blackprism::crypto::cipher::compute_hash_bytes;
use blackprism::crypto::container::{container_fault_text, open_container_parts, seal_container, ContainerFault};
use blackprism::crypto::fragment::{fragment_data, reconstruct_from_parts};
use blackprism::crypto::key_manager::{
    generate_pqc_keypair, protect_private_key, unprotect_private_key, PQCKeyPairHex, PQCPrivateKeyHex,
};
use blackprism::crypto::naming::{encrypted_file_name, names_fragment, part_file_name, same_fragment_series};
use blackprism::crypto::package::{
    open_package_envelope, open_package_metadata, open_package_payload, prepare_plaintext,
    scan_package_frame, seal_package, select_package_result, FrameFault,
};
use blackprism::crypto::pepper::get_hardware_pepper;
use blackprism::crypto::shamir::{recover_secret, split_secret};
use blackprism::utils::metadata::metadata_scan_overruns;
use serde_json::Value;

// ───────────── key texts as JSON, the way the app reads and writes them ─────────────

fn public_json(k: &PQCKeyPairHex) -> Vec<u8> {
    let mut m = serde_json::Map::new();
    m.insert("kem_public".to_string(), Value::String(k.kem_public.clone()));
    m.insert("sig_public".to_string(), Value::String(k.sig_public.clone()));
    m.insert("kem_algorithm".to_string(), Value::String(k.kem_algorithm.clone()));
    m.insert("sig_algorithm".to_string(), Value::String(k.sig_algorithm.clone()));
    serde_json::to_vec(&Value::Object(m)).unwrap()
}

fn private_json(k: &PQCPrivateKeyHex) -> Vec<u8> {
    let mut m = serde_json::Map::new();
    m.insert("kem_private".to_string(), Value::String(k.kem_private.clone()));
    m.insert("sig_private".to_string(), Value::String(k.sig_private.clone()));
    m.insert("kem_algorithm".to_string(), Value::String(k.kem_algorithm.clone()));
    m.insert("sig_algorithm".to_string(), Value::String(k.sig_algorithm.clone()));
    serde_json::to_vec(&Value::Object(m)).unwrap()
}

fn text_field(v: &Value, name: &str) -> Result<String, String> {
    v.get(name)
        .and_then(|f| f.as_str())
        .map(|s| s.to_string())
        .ok_or_else(|| format!("missing field `{}`", name))
}

fn parse_public(json: &[u8]) -> Result<PQCKeyPairHex, String> {
    let v: Value = serde_json::from_slice(json).map_err(|e| format!("Formato de clave pública inválido: {}", e))?;
    let f = |n: &str| text_field(&v, n).map_err(|e| format!("Formato de clave pública inválido: {}", e));
    Ok(PQCKeyPairHex {
        kem_public: f("kem_public")?,
        sig_public: f("sig_public")?,
        kem_algorithm: f("kem_algorithm")?,
        sig_algorithm: f("sig_algorithm")?,
    })
}

fn parse_private(json: &[u8]) -> Result<PQCPrivateKeyHex, String> {
    let v: Value = serde_json::from_slice(json).map_err(|e| format!("Formato de clave privada inválido: {}", e))?;
    let f = |n: &str| text_field(&v, n).map_err(|e| format!("Formato de clave privada inválido: {}", e));
    Ok(PQCPrivateKeyHex {
        kem_private: f("kem_private")?,
        sig_private: f("sig_private")?,
        kem_algorithm: f("kem_algorithm")?,
        sig_algorithm: f("sig_algorithm")?,
    })
}

fn keypair_json() -> (Vec<u8>, Vec<u8>) {
    let (p, s) = generate_pqc_keypair();
    (public_json(&p), private_json(&s))
}

fn now_secs() -> u64 {
    std::time::SystemTime::now().duration_since(std::time::UNIX_EPOCH).unwrap().as_secs()
}

fn host_pepper() -> Result<Vec<u8>, String> {
    get_hardware_pepper(machine_uid::get().map_err(|e| e.to_string()))
}

// ───────────── the encryption and decryption, in memory ─────────────

struct Options<'a> {
    password: Option<&'a str>,
    metadata_clean: bool,
    hardware_pepper: bool,
    ttl_seconds: Option<u64>,
    decoy: Option<(&'a [u8], &'a str)>,
    decoy_password: Option<&'a str>,
    obfuscate: bool,
    fragmentation: Option<(usize, usize)>,
}

fn plain(password: Option<&str>) -> Options<'_> {
    Options {
        password,
        metadata_clean: true,
        hardware_pepper: false,
        ttl_seconds: None,
        decoy: None,
        decoy_password: None,
        obfuscate: false,
        fragmentation: None,
    }
}

fn create_package(
    data: &[u8],
    filename: &str,
    recipient_public_json: &[u8],
    password: Option<&str>,
    hardware_pepper: bool,
    ttl_seconds: Option<u64>,
    metadata_clean: bool,
    now: u64,
) -> Result<Vec<u8>, String> {
    assert!(!(metadata_clean && metadata_scan_overruns(data, filename)));
    let prepared = prepare_plaintext(data, filename, metadata_clean)?;
    let (ephem_pub, ephem_sec) = generate_pqc_keypair();
    let ephem_json = private_json(&ephem_sec);
    let recipient = parse_public(recipient_public_json);
    let pepper = if hardware_pepper { Some(host_pepper()) } else { None };
    let mut meta = serde_json::Map::new();
    meta.insert("filename".to_string(), Value::from(filename));
    meta.insert("original_size".to_string(), Value::from(prepared.original_size));
    meta.insert("compressed_size".to_string(), Value::from(prepared.compressed.len() as u64));
    meta.insert("sha3_256_checksum".to_string(), Value::from(prepared.sha3_256_checksum.clone()));
    meta.insert("timestamp".to_string(), Value::from(now as f64));
    meta.insert("version".to_string(), Value::from("4.0.0"));
    meta.insert(
        "algorithm".to_string(),
        Value::from("PQC-Hybrid-ML-KEM1024-Dilithium5-ForwardSecrecy-ChaCha20Poly1305"),
    );
    meta.insert(
        "decrypt_until".to_string(),
        match ttl_seconds {
            Some(s) => Value::from(now + s),
            None => Value::Null,
        },
    );
    let meta_json = serde_json::to_vec(&Value::Object(meta)).unwrap();
    seal_package(&prepared, &meta_json, &recipient, &ephem_pub, &ephem_json, password, pepper)
}

/// Encrypts a file's bytes: returns the files to write (name, bytes), the input hash
/// and the output hash.
fn encrypt(
    data: &[u8],
    filename: &str,
    recipient_public_json: &[u8],
    sender_private_json: &[u8],
    o: &Options,
    now: u64,
) -> Result<(Vec<(String, Vec<u8>)>, String, String), String> {
    let input_hash = compute_hash_bytes(data, "sha3-256")?;
    let primary = create_package(
        data,
        filename,
        recipient_public_json,
        o.password,
        o.hardware_pepper,
        o.ttl_seconds,
        o.metadata_clean,
        now,
    )?;
    let decoy = match o.decoy {
        Some((bytes, name)) => Some(create_package(
            bytes,
            name,
            recipient_public_json,
            o.decoy_password,
            o.hardware_pepper,
            o.ttl_seconds,
            false,
            now,
        )?),
        None => None,
    };
    let file = seal_container(
        &primary,
        decoy.as_deref(),
        o.hardware_pepper,
        o.ttl_seconds.is_some(),
        o.obfuscate,
        &parse_private(sender_private_json),
    )?;
    let name = encrypted_file_name(filename, o.obfuscate);
    let files = match o.fragmentation {
        Some((d, p)) => {
            let parts = fragment_data(&file, d, p)?;
            parts
                .into_iter()
                .enumerate()
                .map(|(i, part)| (part_file_name(&name, i as u64), part))
                .collect()
        },
        None => vec![(name, file.clone())],
    };
    let output_hash = compute_hash_bytes(&file, "sha3-256")?;
    Ok((files, input_hash, output_hash))
}

fn decrypt_package(
    package: &[u8],
    recipient_private_json: &[u8],
    password: Option<&str>,
    pepper: Option<Result<Vec<u8>, String>>,
    now: u64,
) -> Result<(Vec<u8>, String), String> {
    if let Err(FrameFault::Overrun) = scan_package_frame(package) {
        panic!("package length field out of range");
    }
    let envelope = open_package_envelope(package, password)?;
    let ephemeral = parse_private(&envelope.ephemeral_private_json);
    let recipient = parse_private(recipient_private_json);
    let (key, meta_json) = open_package_metadata(&envelope, &recipient, &ephemeral, password, pepper)?;
    let meta: Value = serde_json::from_slice(&meta_json)
        .map_err(|e| format!("Error de deserialización en metadatos: {}", e))?;
    let compressed_size = meta["compressed_size"].as_u64().unwrap();
    let checksum = meta["sha3_256_checksum"].as_str().unwrap().to_string();
    let decrypt_until = meta["decrypt_until"].as_u64();
    let filename = meta["filename"].as_str().unwrap().to_string();
    let data = open_package_payload(&envelope, &key, compressed_size, &checksum, decrypt_until, now)?;
    Ok((data, filename))
}

/// Decrypts a container's bytes: returns the restored bytes and their file name.
fn decrypt(
    file_data: &[u8],
    recipient_private_json: &[u8],
    sender_public_json: &[u8],
    password: Option<&str>,
    now: u64,
) -> Result<(Vec<u8>, String), String> {
    let sender = parse_public(sender_public_json).ok();
    let parts = match open_container_parts(file_data, sender.as_ref()) {
        Ok(p) => p,
        Err(ContainerFault::Overrun) => panic!("container length field out of range"),
        Err(f) => return Err(container_fault_text(f)),
    };
    let pepper = if parts.hardware_pepper_active { Some(host_pepper()) } else { None };
    let primary = decrypt_package(&parts.primary, recipient_private_json, password, pepper.clone(), now);
    if primary.is_err() {
        if let Some(d) = &parts.decoy {
            let decoy = decrypt_package(d, recipient_private_json, password, pepper, now);
            return select_package_result(primary, Some(decoy));
        }
    }
    select_package_result(primary, None)
}

// ───────────── the tests ─────────────

#[test]
fn test_key_generation_and_protection() {
    let (pub_bytes, priv_bytes) = keypair_json();
    assert!(!pub_bytes.is_empty());
    assert!(!priv_bytes.is_empty());

    let key_data = parse_private(&priv_bytes).unwrap();
    let kem_priv_bytes = hex::decode(&key_data.kem_private).unwrap();
    println!("--- DEBUG: KEM PRIVATE BYTES LEN = {} ---", kem_priv_bytes.len());

    let password = "my-secure-password";
    let protected = protect_private_key(&priv_bytes, password).unwrap();
    assert!(!protected.is_empty());

    let unprotected = unprotect_private_key(&protected, password).unwrap();
    assert_eq!(priv_bytes, unprotected);
}

#[test]
fn test_shamir_secret_sharing() {
    let secret = b"my-super-secret-password-123";
    let total = 5;
    let threshold = 3;
    let shares = split_secret(secret, threshold, total).unwrap();
    assert_eq!(shares.len(), total as usize);

    let recovered = recover_secret(&shares[0..3].to_vec(), threshold).unwrap();
    assert_eq!(recovered, secret);

    let recovered_4 = recover_secret(&shares[0..4].to_vec(), threshold).unwrap();
    assert_eq!(recovered_4, secret);

    let fail_recovered = recover_secret(&shares[0..2].to_vec(), threshold);
    assert!(fail_recovered.is_err());
}

#[test]
fn test_standard_encrypt_decrypt() {
    let (recipient_pub, recipient_priv) = keypair_json();
    let (sender_pub, sender_priv) = keypair_json();
    let now = now_secs();

    let (files, in_hash, out_hash) = encrypt(
        b"Hello Quantum World!",
        "test_input.txt",
        &recipient_pub,
        &sender_priv,
        &plain(Some("my-2fa-pwd")),
        now,
    )
    .unwrap();
    assert_eq!(files.len(), 1);
    assert_eq!(files[0].0, "test_input.txt.qarq");
    assert!(!in_hash.is_empty());
    assert!(!out_hash.is_empty());

    let (dec_bytes, dec_name) = decrypt(&files[0].1, &recipient_priv, &sender_pub, Some("my-2fa-pwd"), now).unwrap();
    assert_eq!(dec_bytes, b"Hello Quantum World!");
    assert_eq!(dec_name, "test_input.txt");
    let dec_hash = compute_hash_bytes(&dec_bytes, "sha3-256").unwrap();
    assert_eq!(dec_hash, in_hash);
}

#[test]
fn test_hardware_pepper() {
    let (recipient_pub, recipient_priv) = keypair_json();
    let (sender_pub, sender_priv) = keypair_json();
    let now = now_secs();
    let mut o = plain(Some("pwd"));
    o.hardware_pepper = true;

    let (files, _, _) = encrypt(b"Hardware Pepper Test", "test_input_pepper.txt", &recipient_pub, &sender_priv, &o, now)
        .unwrap();
    let (dec_bytes, _) = decrypt(&files[0].1, &recipient_priv, &sender_pub, Some("pwd"), now).unwrap();
    assert_eq!(dec_bytes, b"Hardware Pepper Test");
}

#[test]
fn test_ttl_expiration() {
    let (recipient_pub, recipient_priv) = keypair_json();
    let (sender_pub, sender_priv) = keypair_json();
    let now = now_secs();
    let mut o = plain(Some("pwd"));
    o.ttl_seconds = Some(0);

    let (files, _, _) = encrypt(b"TTL Expiration Test", "test_input_ttl.txt", &recipient_pub, &sender_priv, &o, now)
        .unwrap();

    // One second later the time-to-live has run out.
    let dec_res = decrypt(&files[0].1, &recipient_priv, &sender_pub, Some("pwd"), now + 1);
    assert!(dec_res.is_err());
    let err_msg = dec_res.unwrap_err();
    assert!(err_msg.contains("El tiempo de vida (TTL) de este archivo ha expirado"));
}

#[test]
fn test_duress_decoy() {
    let (recipient_pub, recipient_priv) = keypair_json();
    let (sender_pub, sender_priv) = keypair_json();
    let now = now_secs();
    let mut o = plain(Some("real_pwd"));
    o.decoy = Some((b"DECOY SENUELO DATA", "test_decoy.txt"));
    o.decoy_password = Some("decoy_pwd");

    let (files, _, _) = encrypt(b"REAL SECRET DATA", "test_real.txt", &recipient_pub, &sender_priv, &o, now).unwrap();

    let (real_dec_bytes, _) = decrypt(&files[0].1, &recipient_priv, &sender_pub, Some("real_pwd"), now).unwrap();
    assert_eq!(real_dec_bytes, b"REAL SECRET DATA");

    let (decoy_dec_bytes, decoy_name) =
        decrypt(&files[0].1, &recipient_priv, &sender_pub, Some("decoy_pwd"), now).unwrap();
    assert_eq!(decoy_dec_bytes, b"DECOY SENUELO DATA");
    assert_eq!(decoy_name, "test_decoy.txt");
}

#[test]
fn test_reed_solomon_fragmentation() {
    let (recipient_pub, recipient_priv) = keypair_json();
    let (sender_pub, sender_priv) = keypair_json();
    let now = now_secs();
    let mut o = plain(Some("pwd"));
    o.fragmentation = Some((3, 2));

    let data = b"Frag data test. Let's make sure it reconstructs nicely.";
    let (files, _, _) = encrypt(data, "test_frag_input.txt", &recipient_pub, &sender_priv, &o, now).unwrap();

    assert_eq!(files.len(), 5);
    for (i, (name, _)) in files.iter().enumerate() {
        assert_eq!(name, &format!("test_frag_input.txt.qarq.part{}", i + 1));
    }

    // Parts 4 and 5 (the parity) are lost; the first part was selected.
    let selected = &files[0];
    assert!(names_fragment(&selected.0));
    let siblings: Vec<Vec<u8>> = files[0..3]
        .iter()
        .filter(|(name, _)| same_fragment_series(&selected.0, name))
        .map(|(_, bytes)| bytes.clone())
        .collect();
    assert_eq!(siblings.len(), 3);
    let file_data = reconstruct_from_parts(&selected.1, &siblings).unwrap();

    let (dec_bytes, _) = decrypt(&file_data, &recipient_priv, &sender_pub, Some("pwd"), now).unwrap();
    assert_eq!(dec_bytes, data);
}

#[test]
fn test_obfuscate_filename() {
    let (recipient_pub, recipient_priv) = keypair_json();
    let (sender_pub, sender_priv) = keypair_json();
    let now = now_secs();
    let mut o = plain(Some("pwd"));
    o.obfuscate = true;

    let (files, _, _) = encrypt(b"Obfuscate test content", "test_obfuscate.txt", &recipient_pub, &sender_priv, &o, now)
        .unwrap();
    let name_only = &files[0].0;
    assert!(name_only.ends_with(".qarq"));
    assert_eq!(name_only.len(), 37);

    let (dec_bytes, dec_name) = decrypt(&files[0].1, &recipient_priv, &sender_pub, Some("pwd"), now).unwrap();
    assert_eq!(dec_name, "test_obfuscate.txt");
    assert_eq!(dec_bytes, b"Obfuscate test content");
}

#[test]
fn test_legacy_rejection() {
    let mut data = Vec::new();
    data.extend_from_slice(b"QARQ3.0\x00");
    data.extend_from_slice(&[0u8; 10000]);

    let (_recipient_pub, recipient_priv) = keypair_json();
    let (sender_pub, _sender_priv) = keypair_json();

    let dec_res = decrypt(&data, &recipient_priv, &sender_pub, Some("pwd"), now_secs());
    assert!(dec_res.is_err());
    let err_msg = dec_res.unwrap_err();
    assert_eq!(err_msg, "Archivo cifrado con versión anterior. Usa BlackPrism v3.1 para descifrar.");
}

#[test]
fn wrong_password_fails_on_the_ephemeral_key() {
    let (recipient_pub, recipient_priv) = keypair_json();
    let (sender_pub, sender_priv) = keypair_json();
    let now = now_secs();
    let (files, _, _) = encrypt(b"secret", "a.txt", &recipient_pub, &sender_priv, &plain(Some("right")), now).unwrap();
    let err = decrypt(&files[0].1, &recipient_priv, &sender_pub, Some("wrong"), now).unwrap_err();
    assert!(err.starts_with("Contraseña incorrecta (no se pudo abrir la llave efímera): "));
}

#[test]
fn wrong_sender_key_fails_the_signature() {
    let (recipient_pub, recipient_priv) = keypair_json();
    let (_sender_pub, sender_priv) = keypair_json();
    let (other_pub, _) = keypair_json();
    let now = now_secs();
    let (files, _, _) = encrypt(b"secret", "a.txt", &recipient_pub, &sender_priv, &plain(None), now).unwrap();
    let err = decrypt(&files[0].1, &recipient_priv, &other_pub, None, now).unwrap_err();
    assert_eq!(
        err,
        "¡Firma Dilithium5 INVÁLIDA! El archivo ha sido manipulado o proviene de una fuente no autorizada."
    );
    // An unreadable sender key gives the same answer.
    let err = decrypt(&files[0].1, &recipient_priv, b"not json", None, now).unwrap_err();
    assert!(err.starts_with("¡Firma Dilithium5 INVÁLIDA!"));
}

#[test]
fn tampered_container_fails_the_signature() {
    let (recipient_pub, recipient_priv) = keypair_json();
    let (sender_pub, sender_priv) = keypair_json();
    let now = now_secs();
    let (files, _, _) = encrypt(b"secret", "a.txt", &recipient_pub, &sender_priv, &plain(None), now).unwrap();
    let mut bytes = files[0].1.clone();
    bytes[20] ^= 1;
    let err = decrypt(&bytes, &recipient_priv, &sender_pub, None, now).unwrap_err();
    assert!(err.starts_with("¡Firma Dilithium5 INVÁLIDA!"));
}

#[test]
fn no_password_roundtrip_and_wrong_recipient() {
    let (recipient_pub, recipient_priv) = keypair_json();
    let (sender_pub, sender_priv) = keypair_json();
    let (_, other_priv) = keypair_json();
    let now = now_secs();
    let (files, _, _) = encrypt(b"no password here", "n.bin", &recipient_pub, &sender_priv, &plain(None), now).unwrap();
    let (dec, _) = decrypt(&files[0].1, &recipient_priv, &sender_pub, None, now).unwrap();
    assert_eq!(dec, b"no password here");
    // Another recipient's key decapsulates other secrets: the metadata does not open.
    let err = decrypt(&files[0].1, &other_priv, &sender_pub, None, now).unwrap_err();
    assert!(err.starts_with("Contraseña incorrecta o firma corrupta en metadatos: "));
}

#[test]
fn decoy_with_both_passwords_wrong_reports_the_primary_error() {
    let (recipient_pub, recipient_priv) = keypair_json();
    let (sender_pub, sender_priv) = keypair_json();
    let now = now_secs();
    let mut o = plain(Some("real"));
    o.decoy = Some((b"decoy", "d.txt"));
    o.decoy_password = Some("fake");
    let (files, _, _) = encrypt(b"real", "r.txt", &recipient_pub, &sender_priv, &o, now).unwrap();
    let err = decrypt(&files[0].1, &recipient_priv, &sender_pub, Some("neither"), now).unwrap_err();
    assert!(err.starts_with("Contraseña incorrecta (no se pudo abrir la llave efímera): "));
}

#[test]
fn unreadable_recipient_key_is_reported() {
    let (recipient_pub, _) = keypair_json();
    let (sender_pub, sender_priv) = keypair_json();
    let now = now_secs();
    let (files, _, _) = encrypt(b"x", "x.txt", &recipient_pub, &sender_priv, &plain(Some("p")), now).unwrap();
    let err = decrypt(&files[0].1, b"{}", &sender_pub, Some("p"), now).unwrap_err();
    assert!(err.starts_with("Formato de clave privada inválido: "));
    let err = encrypt(b"x", "x.txt", b"[]", &sender_priv, &plain(Some("p")), now).err().unwrap();
    assert!(err.starts_with("Formato de clave pública inválido: "));
}
