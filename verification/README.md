# liberty_core

The engine of a federated, end-to-end encrypted messenger, written in Verus. The library's
own functions in `src/` carry contracts that Verus proves. The calls into outside crates
(cryptography, Argon2, JSON, regular expressions, the clock and random numbers) sit in small
wrappers marked `external_body`, mostly in `crypto/primitives.rs` and also in `security/vault.rs`,
`crypto/sealed_sender.rs`, `import/`, `crypto/session.rs` and `groups.rs`; their contracts are
believed, not proved.

- `src/crypto`: AEAD framing (AES-256-GCM, ChaCha20-Poly1305), identity and ephemeral keys,
  X3DH, the Double Ratchet with skipped-message keys, per-peer session management, sealed
  sender, media attachments, disappearing messages, MLS-style group membership and the
  hybrid X25519 + Kyber768 exchange. `primitives.rs` holds the calls into the cryptography
  crates and the facts believed of them.
- `src/security`: the hidden vault (master, duress and decoy passwords over Argon2), the
  environment risk score, a software keystore and the plan of a secure file wipe.
- `src/network`: message envelopes, the in-process transport queues, federation settings
  and bootstrap address selection.
- `src/import`: Telegram and WhatsApp export readers.
- `src/api.rs`: the handle tables behind the app's interface.
- `app/`: the command-line demo and the shell around the library: JSON, files, stores, the
  asynchronous transport interface.
- `tests/`: scenario tests run against the compiled library.
