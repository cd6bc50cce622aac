# blackprism

Post-quantum file protection: files are sealed into self-contained packages
(Kyber1024 key encapsulation for the recipient and for a fresh ephemeral key pair,
Argon2id on the password, an optional hardware pepper, HKDF-SHA3-256 and
ChaCha20-Poly1305), packed into a `.qarq` container signed with Dilithium5, and
optionally split into Reed-Solomon fragments. Passwords can be split with Shamir's
scheme, and JPEG/PNG metadata can be scrubbed before encryption.

Layout:

- `src/` — the verified library (Verus).
  - `crypto/primitives.rs`, `crypto/erasure.rs`, `crypto/sharing.rs` — the outside
    cryptographic crates, each call behind one trusted item with a stated contract.
  - `crypto/package.rs` — the package format: sealing, and opening in three steps
    (envelope, metadata, payload), with the laws that tie them together.
  - `crypto/container.rs` — the signed container and its decoy framing.
  - `crypto/fragment.rs` — fragmentation and reconstruction.
  - `crypto/key_manager.rs`, `crypto/shamir.rs`, `crypto/cipher.rs`,
    `crypto/naming.rs`, `crypto/pepper.rs`, `commands.rs` — keys, secret sharing,
    hashing, padding, compression, key derivation and file names.
  - `utils/` — byte and text helpers, hexadecimal, metadata scrubbing.
- `app/` — the command-line program: file and directory I/O, the clock, the machine
  identifier, and the JSON forms of keys and metadata.
- `tests/` — the tests, run against the compiled library.
