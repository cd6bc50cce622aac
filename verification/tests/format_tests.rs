use blackprism::commands::{protect_key, recover_password, split_password, unprotect_key};
use blackprism::crypto::cipher::{
    compress_data, compute_file_hash_of_contents, compute_hash_bytes, decompress_data,
    derive_hybrid_encryption_key, encrypt_file, shred_chunk_len, shred_fill_byte, signal_style_padding_len,
};
use blackprism::crypto::container::{
    assemble_container_body, container_fault_text, open_container, open_container_parts, seal_container,
    ContainerFault,
};
use blackprism::crypto::fragment::{fragment_data, parse_part_data, reconstruct_from_parts};
use blackprism::crypto::key_manager::{
    decapsulate_secret, derive_argon2_key, encapsulate_secret, generate_pqc_keypair, protect_private_key,
    sign_data, unprotect_private_key, verify_signature,
};
use blackprism::crypto::naming::{
    encrypted_file_name, fragment_summary, names_fragment, numbered_file_name, part_file_name,
    same_fragment_series,
};
use blackprism::crypto::package::{open_package_envelope, scan_package_frame, select_package_result, FrameFault};
use blackprism::crypto::pepper::get_hardware_pepper;
use blackprism::crypto::shamir::{recover_secret, split_secret};
use blackprism::utils::metadata::{clean_file_metadata_in_memory, strip_jpeg_metadata, strip_png_metadata};
use std::path::Path;

// ───────────── hashing ─────────────

#[test]
fn hashes_match_known_vectors() {
    assert_eq!(
        compute_hash_bytes(b"abc", "sha256").unwrap(),
        "ba7816bf8f01cfea414140de5dae2223b00361a396177a9cb410ff61f20015ad"
    );
    assert_eq!(
        compute_hash_bytes(b"", "sha3-256").unwrap(),
        "a7ffc6f8bf1ed76651c14756a061d662f580ff4de43b49fa82d80a4b80f8434a"
    );
    assert_eq!(
        compute_hash_bytes(b"", "SHA3_256").unwrap(),
        "a7ffc6f8bf1ed76651c14756a061d662f580ff4de43b49fa82d80a4b80f8434a"
    );
    assert_eq!(
        compute_hash_bytes(b"abc", "sha512").unwrap(),
        "ddaf35a193617abacc417349ae20413112e6fa4e89a97ea20a9eeee64b55d39a2192992a274fc1a836ba3c23a3feebbd454d4423643ce80e2a9ac94fa54ca49f"
    );
    assert_eq!(
        compute_hash_bytes(b"", "sha3-512").unwrap(),
        "a69f73cca23a9ac5c8b567dc185a756e97c982164fe25859e0d1dcc1475c80a615b2123af1f5f94c11e3e9402c3ac558f500199d95b6d3e301758586281dcd26"
    );
    assert_eq!(
        compute_hash_bytes(b"", "blake3").unwrap(),
        "af1349b9f5f9a1a6a0404dea36dcc9499bcb25c9adc112b7cc9a93cae41f3262"
    );
}

#[test]
fn unsupported_hash_names_are_refused() {
    assert_eq!(compute_hash_bytes(b"x", "md5").unwrap_err(), "Algoritmo 'md5' no soportado.");
    assert_eq!(
        compute_file_hash_of_contents(b"x", "MD5").unwrap_err(),
        "Algoritmo 'MD5' no soportado. Usa: sha256, sha3-256, sha3-512, sha512, blake3"
    );
    assert_eq!(
        compute_file_hash_of_contents(b"abc", "Sha256").unwrap(),
        "ba7816bf8f01cfea414140de5dae2223b00361a396177a9cb410ff61f20015ad"
    );
}

// ───────────── padding, shredding, compression ─────────────

#[test]
fn padding_reaches_the_bucket_plus_jitter() {
    for _ in 0..20 {
        let p = signal_style_padding_len(0);
        assert!((1024 + 16..=1024 + 271).contains(&p));
        let p = signal_style_padding_len(1024);
        assert!((16..=271).contains(&p));
        let p = signal_style_padding_len(1025);
        assert!((1023 + 16..=1023 + 271).contains(&p));
        let p = signal_style_padding_len(16 * 1024 + 1);
        assert!((16 * 1024 - 1 + 16..=16 * 1024 - 1 + 271).contains(&p));
        let p = signal_style_padding_len(64 * 1024 * 1024);
        assert!((16..=271).contains(&p));
    }
}

#[test]
fn shredding_patterns_and_chunks() {
    assert_eq!(shred_fill_byte(0, 3), Some(0x00));
    assert_eq!(shred_fill_byte(1, 3), Some(0xFF));
    assert_eq!(shred_fill_byte(2, 3), None);
    assert_eq!(shred_fill_byte(2, 7), Some(0x55));
    assert_eq!(shred_fill_byte(3, 7), Some(0x00));
    assert_eq!(shred_chunk_len(0, 10), 10);
    assert_eq!(shred_chunk_len(0, 100_000), 65536);
    assert_eq!(shred_chunk_len(65536, 100_000), 100_000 - 65536);
}

#[test]
fn compression_roundtrips() {
    let data = b"compress me compress me compress me compress me".to_vec();
    let c = compress_data(&data).unwrap();
    assert_ne!(c, data);
    assert_eq!(decompress_data(&c).unwrap(), data);
    let empty = compress_data(b"").unwrap();
    assert_eq!(decompress_data(&empty).unwrap(), Vec::<u8>::new());
    assert!(decompress_data(b"not zlib at all").unwrap_err().starts_with("Error de descompresión: "));
}

// ───────────── keys ─────────────

#[test]
fn argon2_and_hybrid_keys() {
    let salt = [7u8; 32];
    let a = derive_argon2_key("pwd", &salt).unwrap();
    assert_eq!(a, derive_argon2_key("pwd", &salt).unwrap());
    assert_ne!(a, derive_argon2_key("pwe", &salt).unwrap());
    assert!(derive_argon2_key("pwd", b"short").unwrap_err().starts_with("Error en Argon2id: "));

    let ss = [1u8; 64];
    let k1 = derive_hybrid_encryption_key(&ss, Some("pwd"), &salt, None).unwrap();
    assert_eq!(k1, derive_hybrid_encryption_key(&ss, Some("pwd"), &salt, None).unwrap());
    assert_ne!(k1, derive_hybrid_encryption_key(&ss, None, &salt, None).unwrap());
    assert_ne!(k1, derive_hybrid_encryption_key(&ss, Some("pwd"), &salt, Some(&[9u8; 32])).unwrap());
}

#[test]
fn protection_refuses_wrong_passwords_and_short_blobs() {
    let protected = protect_private_key(b"{\"k\":1}", "good").unwrap();
    assert_eq!(protected.len(), 32 + 12 + 7 + 16);
    assert_eq!(unprotect_private_key(&protected, "good").unwrap(), b"{\"k\":1}");
    assert!(unprotect_private_key(&protected, "bad")
        .unwrap_err()
        .starts_with("Contraseña incorrecta o clave corrupta: "));
    assert_eq!(
        unprotect_private_key(&[0u8; 43], "good").unwrap_err(),
        "Datos de clave protegida corruptos o incompletos"
    );
}

#[test]
fn kem_and_signature_roundtrip() {
    let (public, private) = generate_pqc_keypair();
    assert_eq!(public.kem_algorithm, "Kyber1024");
    assert_eq!(public.sig_algorithm, "Dilithium5");
    assert_eq!(private.kem_private.len(), 2 * 3168);
    let (ct, ss) = encapsulate_secret(&public).unwrap();
    assert_eq!(ct.len(), 1568);
    assert_eq!(decapsulate_secret(&private, &ct).unwrap(), ss);
    assert!(decapsulate_secret(&private, &ct[1..]).unwrap_err().starts_with("Ciphertext Kyber1024 corrupto: "));

    let sig = sign_data(&private, b"message").unwrap();
    assert_eq!(sig.len(), 4627);
    assert!(verify_signature(&public, b"message", &sig));
    assert!(!verify_signature(&public, b"massage", &sig));
    let mut bad = public.clone();
    bad.sig_public = "zz".to_string();
    assert!(!verify_signature(&bad, b"message", &sig));
}

#[test]
fn hardware_pepper_hashes_the_machine_id() {
    let p = get_hardware_pepper(Ok("abc".to_string())).unwrap();
    assert_eq!(hex::encode(&p), "3a985da74fe225b2045c172d6bd390bd855f086e3e9d525b46bfe24511431532");
    assert_eq!(
        get_hardware_pepper(Err("sin id".to_string())).unwrap_err(),
        "Error al obtener el identificador único del hardware: sin id"
    );
}

#[test]
fn hexadecimal_texts_in_both_cases() {
    let protected = protect_key("k", "pw").unwrap();
    assert_eq!(hex::decode(&protected).unwrap().len(), 32 + 12 + 1 + 16);
    assert_eq!(unprotect_key(&protected.to_uppercase(), "pw").unwrap(), "k");
    assert!(unprotect_key(&protected[1..], "pw").unwrap_err().starts_with("Formato de llave protegida inválida: "));
    let shares = split_password("k", 1, 1).unwrap();
    assert_eq!(shares[0], "016b");
}

// ───────────── Shamir ─────────────

#[test]
fn shamir_refusals_and_messages() {
    assert_eq!(
        split_secret(b"s", 0, 3).unwrap_err(),
        "El umbral (threshold) y las partes totales deben ser mayores a 0"
    );
    assert_eq!(
        split_secret(b"s", 4, 3).unwrap_err(),
        "El umbral (threshold) no puede ser mayor que las partes totales"
    );
    let shares = split_secret(b"secret", 3, 5).unwrap();
    assert_eq!(
        recover_secret(&shares[0..2].to_vec(), 3).unwrap_err(),
        "Se proporcionaron 2 partes, pero se requiere un umbral de 3 partes para la reconstrucción"
    );
    assert_eq!(recover_secret(&shares[2..5].to_vec(), 3).unwrap(), b"secret");
    let mut broken = shares[0..3].to_vec();
    broken[1] = "xyz".to_string();
    assert!(recover_secret(&broken, 3).unwrap_err().starts_with("Error al decodificar parte hex 'xyz': "));
}

// ───────────── metadata cleaning ─────────────

fn jpeg_with_exif() -> Vec<u8> {
    let mut v = vec![0xFF, 0xD8];
    v.extend_from_slice(&[0xFF, 0xE1, 0x00, 0x04, 0xAA, 0xBB]); // APP1: dropped
    v.extend_from_slice(&[0xFF, 0xE0, 0x00, 0x03, 0x11]); // APP0: kept
    v.extend_from_slice(&[0xFF, 0xFE, 0x00, 0x02]); // COM: dropped
    v.extend_from_slice(&[0xFF, 0xD0]); // RST0: no length
    v.extend_from_slice(&[0xFF, 0xDA, 0x01, 0x02, 0x03]); // SOS and the rest
    v
}

#[test]
fn jpeg_metadata_is_stripped() {
    let cleaned = strip_jpeg_metadata(&jpeg_with_exif()).unwrap();
    assert_eq!(
        cleaned,
        vec![0xFF, 0xD8, 0xFF, 0xE0, 0x00, 0x03, 0x11, 0xFF, 0xD0, 0xFF, 0xDA, 0x01, 0x02, 0x03]
    );
    assert_eq!(strip_jpeg_metadata(&[1, 2, 3]).unwrap(), vec![1, 2, 3]);
    assert_eq!(strip_jpeg_metadata(&[0, 0, 0, 0]).unwrap_err(), "Fichero JPEG inválido (sin SOI)");
    assert_eq!(
        strip_jpeg_metadata(&[0xFF, 0xD8, 0xFF, 0xE0, 0x00]).unwrap_err(),
        "Estructura de metadatos JPEG corrupta"
    );
    assert_eq!(strip_jpeg_metadata(&[0xFF, 0xD8, 0xFF, 0xD9, 0x77]).unwrap(), vec![0xFF, 0xD8, 0xFF, 0xD9]);
}

fn png_chunk(kind: &[u8; 4], data: &[u8]) -> Vec<u8> {
    let mut v = (data.len() as u32).to_be_bytes().to_vec();
    v.extend_from_slice(kind);
    v.extend_from_slice(data);
    v.extend_from_slice(&[0, 0, 0, 0]);
    v
}

#[test]
fn png_metadata_is_stripped() {
    let sig = [137u8, 80, 78, 71, 13, 10, 26, 10];
    let mut png = sig.to_vec();
    png.extend(png_chunk(b"IHDR", &[1, 2, 3]));
    png.extend(png_chunk(b"tEXt", b"Author"));
    png.extend(png_chunk(b"tIME", &[0; 7]));
    png.extend(png_chunk(b"IEND", &[]));
    let mut expected = sig.to_vec();
    expected.extend(png_chunk(b"IHDR", &[1, 2, 3]));
    expected.extend(png_chunk(b"IEND", &[]));
    assert_eq!(strip_png_metadata(&png).unwrap(), expected);
    assert_eq!(strip_png_metadata(&[1, 2, 3]).unwrap(), vec![1, 2, 3]);
    assert_eq!(strip_png_metadata(&[0u8; 8]).unwrap_err(), "Fichero PNG inválido (firma errónea)");
    let mut bad = sig.to_vec();
    bad.extend(png_chunk(&[0xFF, 0xFE, 0x41, 0x41], &[]));
    assert_eq!(strip_png_metadata(&bad).unwrap_err(), "Chunk PNG inválido");
}

#[test]
fn cleaning_goes_by_the_file_name() {
    let mut jpeg = jpeg_with_exif();
    clean_file_metadata_in_memory(&mut jpeg, "HOLIDAY.JPEG").unwrap();
    assert_eq!(jpeg.len(), 14);
    let mut text = jpeg_with_exif();
    clean_file_metadata_in_memory(&mut text, "notes.txt").unwrap();
    assert_eq!(text, jpeg_with_exif());
    let mut not_png = vec![0u8; 9];
    assert_eq!(
        clean_file_metadata_in_memory(&mut not_png, "x.png").unwrap_err(),
        "Fichero PNG inválido (firma errónea)"
    );
    assert_eq!(not_png, vec![0u8; 9]);
}

// ───────────── fragments ─────────────

#[test]
fn fragments_carry_their_headers() {
    let data = b"0123456789";
    let parts = fragment_data(data, 3, 2).unwrap();
    assert_eq!(parts.len(), 5);
    for (i, p) in parts.iter().enumerate() {
        assert_eq!(p.len(), 20 + 4);
        let (h, shard) = parse_part_data(p).unwrap();
        assert_eq!(h.index as usize, i);
        assert_eq!(h.total_parts, 5);
        assert_eq!(h.data_shards, 3);
        assert_eq!(h.parity_shards, 2);
        assert_eq!(h.original_size, 10);
        assert_eq!(shard.len(), 4);
    }
    assert_eq!(&parts[0][0..8], b"QARQPART");
    assert_eq!(parse_part_data(&parts[1]).unwrap().1, b"4567".to_vec());
    assert_eq!(parse_part_data(&parts[2]).unwrap().1, vec![b'8', b'9', 0, 0]);
}

#[test]
fn fragmentation_refusals() {
    assert_eq!(
        fragment_data(b"x", 0, 2).unwrap_err(),
        "Los fragmentos de datos y paridad deben ser mayores que 0"
    );
    assert_eq!(
        fragment_data(b"x", 200, 56).unwrap_err(),
        "El total de fragmentos (datos + paridad) no puede exceder 255"
    );
    assert_eq!(
        fragment_data(b"", 2, 1).unwrap_err(),
        "Los datos a fragmentar están vacíos o el tamaño de fragmento es 0"
    );
    assert_eq!(
        parse_part_data(&[0u8; 19]).unwrap_err(),
        "Tamaño de fragmento inválido (demasiado pequeño)"
    );
    assert_eq!(parse_part_data(&[0u8; 20]).unwrap_err(), "Cabecera de fragmento inválida o no coincide");
}

#[test]
fn reconstruction_uses_parity_for_missing_data() {
    let data = b"The quick brown fox jumps over the lazy dog".to_vec();
    let parts = fragment_data(&data, 4, 2).unwrap();
    // Data parts 1 and 3 are lost; a stray file and a duplicate are found.
    let siblings = vec![
        parts[0].clone(),
        b"not a part".to_vec(),
        parts[2].clone(),
        parts[2].clone(),
        parts[4].clone(),
        parts[5].clone(),
    ];
    assert_eq!(reconstruct_from_parts(&parts[4], &siblings).unwrap(), data);
    let too_few = vec![parts[0].clone(), parts[5].clone()];
    assert_eq!(
        reconstruct_from_parts(&parts[0], &too_few).unwrap_err(),
        "Fragmentos insuficientes para la reconstrucción. Se encontraron 2 fragmentos de los 4 necesarios."
    );
    assert_eq!(
        reconstruct_from_parts(b"short", &siblings).unwrap_err(),
        "Tamaño de fragmento inválido (demasiado pequeño)"
    );
}

// ───────────── names ─────────────

#[test]
fn file_names() {
    assert_eq!(encrypted_file_name("report.pdf", false), "report.pdf.qarq");
    let hidden = encrypted_file_name("report.pdf", true);
    assert_eq!(hidden.len(), 37);
    assert!(hidden.ends_with(".qarq"));
    assert!(hidden[..32].chars().all(|c| c.is_ascii_hexdigit() && !c.is_ascii_uppercase()));
    assert_eq!(part_file_name("a.qarq", 0), "a.qarq.part1");
    assert_eq!(part_file_name("a.qarq", 11), "a.qarq.part12");
    assert_eq!(
        fragment_summary("/tmp/a.qarq", 3, 2),
        "/tmp/a.qarq.part1 (fragmentado: 3 datos, 2 paridad)"
    );
    assert_eq!(numbered_file_name("photo", "jpg", 2), "photo_(2).jpg");
    assert_eq!(numbered_file_name("README", "", 10), "README_(10)");
}

#[test]
fn fragment_series_by_name() {
    assert!(names_fragment("a.qarq.part3"));
    assert!(!names_fragment("a.qarq"));
    assert!(same_fragment_series("a.qarq.part1", "a.qarq.part5"));
    assert!(!same_fragment_series("a.qarq.part1", "b.qarq.part5"));
    assert!(!same_fragment_series("a.qarq.part1", "a.qarq"));
    // The series name ends at the last ".part".
    assert!(same_fragment_series("x.part.qarq.part2", "x.part.qarq.part9"));
    assert!(!same_fragment_series("x.part.qarq.part2", "x.part9"));
}

#[test]
fn legacy_encryption_is_switched_off() {
    assert_eq!(
        encrypt_file(Path::new("in.txt"), b"{}", Some("p"), false, 3, true).unwrap_err(),
        "encrypt_file está deshabilitada. Usa encrypt_file_pqc_complete."
    );
}

// ───────────── containers and packages ─────────────

#[test]
fn container_bodies_are_laid_out() {
    let body = assemble_container_body(b"PRIM", Some(b"DEC"), true, false, true);
    let mut expected = b"QARQ4.0\x00".to_vec();
    expected.extend_from_slice(&[1, 0, 1, 1, 1]);
    expected.extend_from_slice(&4u32.to_le_bytes());
    expected.extend_from_slice(b"PRIM");
    expected.extend_from_slice(&3u32.to_le_bytes());
    expected.extend_from_slice(b"DEC");
    assert_eq!(body, expected);
    let body = assemble_container_body(b"PRIM", None, false, true, false);
    let mut expected = b"QARQ4.0\x00".to_vec();
    expected.extend_from_slice(&[0, 1, 0, 0, 0]);
    expected.extend_from_slice(b"PRIM");
    assert_eq!(body, expected);
}

#[test]
fn containers_roundtrip_and_refuse() {
    let (public, private) = generate_pqc_keypair();
    let file = seal_container(b"PRIMARY", Some(b"DECOY"), true, true, false, &Ok(private.clone())).unwrap();
    let parts = open_container(&file, Some(&public)).unwrap();
    assert!(parts.hardware_pepper_active);
    assert_eq!(parts.primary, b"PRIMARY");
    assert_eq!(parts.decoy, Some(b"DECOY".to_vec()));

    let file = seal_container(b"ONLY", None, false, false, false, &Ok(private.clone())).unwrap();
    let parts = open_container(&file, Some(&public)).unwrap();
    assert!(!parts.hardware_pepper_active);
    assert_eq!(parts.primary, b"ONLY");
    assert_eq!(parts.decoy, None);
    assert_eq!(
        open_container(&file, None).unwrap_err(),
        "¡Firma Dilithium5 INVÁLIDA! El archivo ha sido manipulado o proviene de una fuente no autorizada."
    );
    assert_eq!(
        seal_container(b"x", None, false, false, false, &Err("Formato de clave privada inválido: x".to_string()))
            .unwrap_err(),
        "Formato de clave privada inválido: x"
    );

    assert_eq!(open_container(b"QARQ", Some(&public)).unwrap_err(), "Archivo corrupto o incompleto");
    assert_eq!(
        open_container(b"QARQ3.1\x00rest", Some(&public)).unwrap_err(),
        "Archivo cifrado con versión anterior. Usa BlackPrism v3.1 para descifrar."
    );
    assert_eq!(
        open_container(b"QARQ9.9\x00rest", Some(&public)).unwrap_err(),
        "Formato de cabecera inválido en el archivo .qarq"
    );
    assert_eq!(open_container(b"QARQ4.0\x00short", Some(&public)).unwrap_err(), "Archivo corrupto o incompleto");
}

fn signed(body: &[u8], private: &blackprism::crypto::key_manager::PQCPrivateKeyHex) -> Vec<u8> {
    let mut v = body.to_vec();
    v.extend(sign_data(private, body).unwrap());
    v
}

#[test]
fn decoy_framing_faults() {
    let (public, private) = generate_pqc_keypair();
    let head = b"QARQ4.0\x00\x00\x00\x01\x00\x01".to_vec();
    let mut short = head.clone();
    short.extend_from_slice(&[0; 7]);
    assert_eq!(
        open_container(&signed(&short, &private), Some(&public)).unwrap_err(),
        "Archivo QARQ4.0 corrupto"
    );
    let mut prim = head.clone();
    prim.extend_from_slice(&100u32.to_le_bytes());
    prim.extend_from_slice(&[0; 10]);
    assert_eq!(
        open_container(&signed(&prim, &private), Some(&public)).unwrap_err(),
        "Archivo QARQ4.0 corrupto (prim pkg)"
    );
    let mut dec = head.clone();
    dec.extend_from_slice(&2u32.to_le_bytes());
    dec.extend_from_slice(b"PP");
    dec.extend_from_slice(&50u32.to_le_bytes());
    dec.extend_from_slice(b"DD");
    assert_eq!(
        open_container(&signed(&dec, &private), Some(&public)).unwrap_err(),
        "Archivo QARQ4.0 corrupto (decoy pkg)"
    );
    let mut over = head.clone();
    over.extend_from_slice(&6u32.to_le_bytes());
    over.extend_from_slice(b"PPPPPP");
    assert!(matches!(
        open_container_parts(&signed(&over, &private), Some(&public)),
        Err(ContainerFault::Overrun)
    ));
    assert_eq!(container_fault_text(ContainerFault::Corrupt), "Archivo QARQ4.0 corrupto");
}

#[test]
fn package_frames_refuse_corruption() {
    assert!(matches!(scan_package_frame(&[0u8; 99]), Err(FrameFault::TooSmall)));
    let mut big = vec![0u8; 100];
    big[0..4].copy_from_slice(&1000u32.to_le_bytes());
    assert!(matches!(scan_package_frame(&big), Err(FrameFault::RecipientCiphertext)));
    match open_package_envelope(&big, None) {
        Err(e) => assert_eq!(e, "Paquete corrupto (recip ct)"),
        Ok(_) => panic!("a corrupt frame opened"),
    }
    match open_package_envelope(&[0u8; 50], Some("p")) {
        Err(e) => assert_eq!(e, "Datos del paquete cifrado corruptos o demasiado pequeños"),
        Ok(_) => panic!("a short package opened"),
    }
    let zero = vec![0u8; 100];
    match scan_package_frame(&zero) {
        Ok(f) => {
            assert!(f.ct_recip.is_empty());
            assert_eq!(f.salt.len(), 32);
            assert_eq!(f.payload_and_padding.len(), 100 - 84);
        },
        Err(_) => panic!("an all-zero frame is well formed"),
    }
}

#[test]
fn package_selection_prefers_the_primary() {
    let ok: Result<u8, String> = Ok(1);
    assert_eq!(select_package_result(ok, Some(Ok(2))).unwrap(), 1);
    assert_eq!(select_package_result(Err::<u8, String>("p".into()), Some(Ok(2))).unwrap(), 2);
    assert_eq!(select_package_result(Err::<u8, String>("p".into()), Some(Err("d".into()))).unwrap_err(), "p");
    assert_eq!(select_package_result(Err::<u8, String>("p".into()), None).unwrap_err(), "p");
}

// ───────────── text commands ─────────────

#[test]
fn key_texts_roundtrip_under_their_password() {
    let protected = protect_key("{\"kem_private\":\"ñandú\"}", "pw").unwrap();
    assert_eq!(protected.len(), 2 * (32 + 12 + 25 + 16));
    assert!(protected.chars().all(|c| c.is_ascii_hexdigit() && !c.is_ascii_uppercase()));
    assert_eq!(unprotect_key(&protected, "pw").unwrap(), "{\"kem_private\":\"ñandú\"}");
    assert!(unprotect_key(&protected, "other").unwrap_err().starts_with("Contraseña incorrecta o clave corrupta: "));
    assert!(unprotect_key("xyz", "pw").unwrap_err().starts_with("Formato de llave protegida inválida: "));
    assert_eq!(unprotect_key("00", "pw").unwrap_err(), "Datos de clave protegida corruptos o incompletos");
}

#[test]
fn passwords_split_and_recover_as_text() {
    let shares = split_password("contraseña", 2, 3).unwrap();
    assert_eq!(shares.len(), 3);
    assert_eq!(recover_password(&shares[1..3], 2).unwrap(), "contraseña");
    assert_eq!(
        recover_password(&shares[0..1], 2).unwrap_err(),
        "Se proporcionaron 1 partes, pero se requiere un umbral de 2 partes para la reconstrucción"
    );
    assert_eq!(
        split_password("x", 3, 2).unwrap_err(),
        "El umbral (threshold) no puede ser mayor que las partes totales"
    );
}

// ───────────── pairing, lengths ─────────────

#[test]
fn generated_halves_belong_together() {
    let (public, private) = generate_pqc_keypair();
    let kem_public = hex::decode(&public.kem_public).unwrap();
    let kem_private = hex::decode(&private.kem_private).unwrap();
    assert_eq!(&kem_private[1536..3104], &kem_public[..]);
    let sig = sign_data(&private, b"paired").unwrap();
    assert!(verify_signature(&public, b"paired", &sig));
    let (other_public, _) = generate_pqc_keypair();
    assert!(!verify_signature(&other_public, b"paired", &sig));
    // A signature of another length never verifies.
    assert!(!verify_signature(&public, b"paired", &sig[..4626]));
    let mut longer = sig.clone();
    longer.push(0);
    assert!(!verify_signature(&public, b"paired", &longer));
}

#[test]
fn encapsulations_are_fresh_and_decapsulate() {
    let (public, private) = generate_pqc_keypair();
    let (ct1, ss1) = encapsulate_secret(&public).unwrap();
    let (ct2, ss2) = encapsulate_secret(&public).unwrap();
    assert_ne!(ct1, ct2);
    assert_ne!(ss1, ss2);
    assert_eq!(decapsulate_secret(&private, &ct1).unwrap(), ss1);
    assert_eq!(decapsulate_secret(&private, &ct2).unwrap(), ss2);
}

#[test]
fn output_lengths() {
    let (_, private) = generate_pqc_keypair();
    let file = seal_container(b"", None, false, false, false, &Ok(private)).unwrap();
    assert_eq!(file.len(), 13 + 4627);
    assert_eq!(compute_hash_bytes(b"x", "blake3").unwrap().len(), 64);
    assert_eq!(compute_hash_bytes(b"x", "sha3-512").unwrap().len(), 128);
    assert_eq!(protect_private_key(b"abc", "p").unwrap().len(), 32 + 12 + 3 + 16);
    assert_eq!(protect_key("abc", "p").unwrap().len(), 2 * (32 + 12 + 3 + 16));
    assert!(compress_data(&[7u8; 100_000]).is_ok());
}

#[test]
fn scrubbing_twice_changes_nothing() {
    let once = strip_jpeg_metadata(&jpeg_with_exif()).unwrap();
    assert_eq!(strip_jpeg_metadata(&once).unwrap(), once);
    let mut data = jpeg_with_exif();
    clean_file_metadata_in_memory(&mut data, "a.jpg").unwrap();
    let first = data.clone();
    clean_file_metadata_in_memory(&mut data, "a.jpg").unwrap();
    assert_eq!(data, first);
}
