use liberty_core::crypto::aead::{encrypt_with_nonce, preferred_suite};
use liberty_core::crypto::{
    available_suites, decrypt, decrypt_auto, encrypt, encrypt_with, AeadError, CipherSuite, IdentityKeyPair,
    MediaCrypto, RatchetSession, SealedSender, SessionKeys, SessionManager,
};

fn keys(a: u8, b: u8, c: u8) -> SessionKeys {
    SessionKeys { send_key: [a; 32], recv_key: [b; 32], chain_key: [c; 32] }
}

#[test]
fn aead_round_trip_both_suites() {
    let key = [7u8; 32];
    for suite in [CipherSuite::Aes256Gcm, CipherSuite::ChaCha20Poly1305] {
        let ct = encrypt_with(suite, &key, b"secret text", b"ad").unwrap();
        assert_eq!(ct[0], suite.code());
        assert_eq!(ct.len(), 1 + 12 + 11 + 16);
        assert_eq!(decrypt_auto(&key, &ct, b"ad").unwrap(), b"secret text".to_vec());
    }
    let ct = encrypt(&key, b"x", b"").unwrap();
    assert_eq!(decrypt(&key, &ct, b"").unwrap(), b"x".to_vec());
}

#[test]
fn aead_wrong_key_or_aad_is_decrypt_error() {
    let key = [7u8; 32];
    let ct = encrypt(&key, b"payload", b"ad").unwrap();
    assert_eq!(decrypt(&[8u8; 32], &ct, b"ad"), Err(AeadError::Decrypt));
    assert_eq!(decrypt(&key, &ct, b"other"), Err(AeadError::Decrypt));
    let mut tampered = ct.clone();
    let last = tampered.len() - 1;
    tampered[last] ^= 1;
    assert_eq!(decrypt(&key, &tampered, b"ad"), Err(AeadError::Decrypt));
}

#[test]
fn aead_short_input_is_invalid_length() {
    assert_eq!(decrypt_auto(&[0u8; 32], &[1u8; 12], b""), Err(AeadError::InvalidLength));
    assert_eq!(decrypt_auto(&[0u8; 32], &[], b""), Err(AeadError::InvalidLength));
}

#[test]
fn aead_fixed_nonce_frame_layout() {
    let key = [1u8; 32];
    let nonce = [9u8; 12];
    let ct = encrypt_with_nonce(CipherSuite::ChaCha20Poly1305, &key, &nonce, b"abc", b"").unwrap();
    assert_eq!(ct[0], 2);
    assert_eq!(&ct[1..13], &nonce[..]);
    let again = encrypt_with_nonce(CipherSuite::ChaCha20Poly1305, &key, &nonce, b"abc", b"").unwrap();
    assert_eq!(ct, again);
    assert_eq!(decrypt_auto(&key, &ct, b"").unwrap(), b"abc".to_vec());
}

#[test]
fn cipher_suite_codes_and_names() {
    assert_eq!(CipherSuite::from_u8(1), Some(CipherSuite::Aes256Gcm));
    assert_eq!(CipherSuite::from_u8(2), Some(CipherSuite::ChaCha20Poly1305));
    assert_eq!(CipherSuite::from_u8(0), None);
    assert_eq!(CipherSuite::from_u8(3), None);
    assert_eq!(CipherSuite::Aes256Gcm.name(), "AES-256-GCM");
    assert_eq!(CipherSuite::ChaCha20Poly1305.name(), "ChaCha20-Poly1305");
    assert_eq!(CipherSuite::default(), CipherSuite::Aes256Gcm);
    assert_eq!(preferred_suite(), CipherSuite::Aes256Gcm);
    assert_eq!(available_suites(), vec![CipherSuite::Aes256Gcm, CipherSuite::ChaCha20Poly1305]);
}

#[test]
fn aead_error_messages() {
    assert_eq!(AeadError::Encrypt.to_string(), "encryption failed");
    assert_eq!(AeadError::Decrypt.to_string(), "decryption failed (tampered or wrong key)");
    assert_eq!(AeadError::InvalidLength.to_string(), "invalid ciphertext length");
    assert_eq!(AeadError::UnsupportedAlgorithm.to_string(), "unsupported algorithm");
}

#[test]
fn ratchet_round_trip_and_counters() {
    let mut alice = RatchetSession::new(keys(1, 2, 3), true);
    let mut bob = RatchetSession::new(keys(2, 1, 3), false);
    let (h0, c0) = alice.encrypt(b"one", b"aad").unwrap();
    let (h1, c1) = alice.encrypt(b"two", b"aad").unwrap();
    assert_eq!(h0.n, 0);
    assert_eq!(h1.n, 1);
    assert_eq!(h0.dh_public, h1.dh_public);
    assert_eq!(bob.decrypt(&h0, &c0, b"aad").unwrap(), b"one".to_vec());
    assert_eq!(bob.decrypt(&h1, &c1, b"aad").unwrap(), b"two".to_vec());
}

#[test]
fn ratchet_out_of_order_uses_skipped_key() {
    let mut alice = RatchetSession::new(keys(1, 2, 3), true);
    let mut bob = RatchetSession::new(keys(2, 1, 3), false);
    let (h0, c0) = alice.encrypt(b"first", b"").unwrap();
    let (h1, c1) = alice.encrypt(b"second", b"").unwrap();
    let (h2, c2) = alice.encrypt(b"third", b"").unwrap();
    assert_eq!(bob.decrypt(&h2, &c2, b"").unwrap(), b"third".to_vec());
    assert_eq!(bob.decrypt(&h0, &c0, b"").unwrap(), b"first".to_vec());
    assert_eq!(bob.decrypt(&h1, &c1, b"").unwrap(), b"second".to_vec());
}

#[test]
fn ratchet_wrong_aad_fails() {
    let mut alice = RatchetSession::new(keys(1, 2, 3), true);
    let mut bob = RatchetSession::new(keys(2, 1, 3), false);
    let (h0, c0) = alice.encrypt(b"m", b"right").unwrap();
    assert_eq!(bob.decrypt(&h0, &c0, b"wrong"), Err(AeadError::Decrypt));
}

#[test]
fn responder_cannot_send_first() {
    let mut bob = RatchetSession::new(keys(2, 1, 3), false);
    assert!(matches!(bob.encrypt(b"x", b""), Err(AeadError::Encrypt)));
}

#[test]
fn session_managers_talk_both_ways() {
    let alice_id = IdentityKeyPair::generate();
    let bob_id = IdentityKeyPair::generate();
    let alice_dh = alice_id.dh_public_bytes();
    let mut alice = SessionManager::new(alice_id);
    let mut bob = SessionManager::new(bob_id);
    let bundle = bob.our_prekey_bundle().unwrap().clone();
    let eph = alice.start_as_initiator("bob", &bundle).unwrap();
    bob.start_as_responder("alice", &alice_dh, &eph).unwrap();
    let m1 = alice.encrypt_for("bob", b"hi bob", Some(eph)).unwrap();
    assert_eq!(m1.initiator_ephemeral, Some(eph));
    // Each side names the other differently; the session label they share is the associated data.
    assert_eq!(bob.decrypt_from("alice", &m1).unwrap(), b"hi bob".to_vec());
    assert!(alice.has_session("bob"));
    assert!(!alice.has_session("carol"));
    assert_eq!(alice.peer_ids(), vec!["bob".to_string()]);
}

#[test]
fn x3dh_then_ratchet_round_trip() {
    let alice_id = IdentityKeyPair::generate();
    let bob_id = IdentityKeyPair::generate();
    let alice_dh = alice_id.dh_public_bytes();
    let mut alice = SessionManager::new(alice_id);
    let mut bob = SessionManager::new(bob_id);
    let bundle = bob.our_prekey_bundle().unwrap().clone();
    // Both sides name the conversation "chat-1", so the associated data agrees.
    let eph = alice.start_as_initiator("chat-1", &bundle).unwrap();
    bob.start_as_responder("chat-1", &alice_dh, &eph).unwrap();
    let m1 = alice.encrypt_for("chat-1", b"hello", Some(eph)).unwrap();
    assert_eq!(bob.decrypt_from("chat-1", &m1).unwrap(), b"hello".to_vec());
    let m2 = alice.encrypt_for("chat-1", b"again", None).unwrap();
    assert_eq!(m2.header.n, 1);
    assert_eq!(bob.decrypt_from("chat-1", &m2).unwrap(), b"again".to_vec());
}

#[test]
fn session_manager_unknown_peer_errors() {
    let mut sm = SessionManager::new(IdentityKeyPair::generate());
    assert_eq!(sm.encrypt_for("nobody", b"x", None).unwrap_err(), AeadError::Encrypt);
    let alice = SessionManager::new(IdentityKeyPair::generate());
    let mut other = SessionManager::new(IdentityKeyPair::generate());
    let bundle = alice.our_prekey_bundle().unwrap().clone();
    other.start_as_initiator("alice", &bundle).unwrap();
    let m = other.encrypt_for("alice", b"x", None).unwrap();
    assert_eq!(sm.decrypt_from("alice", &m), Err(AeadError::Decrypt));
}

#[test]
fn signature_verifies_and_rejects() {
    let id = IdentityKeyPair::generate();
    let sig = id.sign(b"message");
    assert!(IdentityKeyPair::verify(&id.public_key_bytes(), b"message", &sig));
    assert!(!IdentityKeyPair::verify(&id.public_key_bytes(), b"messagf", &sig));
}

#[test]
fn sealed_sender_wrong_recipient_fails() {
    let alice = IdentityKeyPair::generate();
    let bob = IdentityKeyPair::generate();
    let carol = IdentityKeyPair::generate();
    let (_bob_secret, bob_keys) = SealedSender::create_keys(&bob);
    let (carol_secret, _carol_keys) = SealedSender::create_keys(&carol);
    let env = SealedSender::seal("alice-peer", &alice, &bob_keys.public, vec![1, 2, 3], Some([5u8; 8])).unwrap();
    assert_eq!(env.recipient_hint, Some([5u8; 8]));
    assert_eq!(env.payload, vec![1, 2, 3]);
    assert!(SealedSender::open(&env, &carol_secret.secret).is_err());
}

#[test]
fn sealed_sender_reports_sender_identity() {
    let alice = IdentityKeyPair::generate();
    let bob = IdentityKeyPair::generate();
    let (bob_secret, bob_keys) = SealedSender::create_keys(&bob);
    let env = SealedSender::seal("alice", &alice, &bob_keys.public, vec![], None).unwrap();
    let (sender, payload) = SealedSender::open(&env, &bob_secret.secret).unwrap();
    assert_eq!(sender.identity_ed25519, alice.public_key_bytes());
    assert!(payload.is_empty());
}

#[test]
fn media_round_trip_and_key_derivation() {
    let ck = [4u8; 32];
    let att = MediaCrypto::encrypt_file(&ck, "photo.jpg", "image/jpeg", b"jpeg bytes").unwrap();
    assert_eq!(att.filename, "photo.jpg");
    assert_eq!(att.mime, "image/jpeg");
    assert_eq!(att.size, 10);
    assert_eq!(att.suite, 1);
    assert_eq!(att.id.len(), 32);
    assert_eq!(MediaCrypto::decrypt_file(&ck, &att).unwrap(), b"jpeg bytes".to_vec());
    assert!(MediaCrypto::decrypt_file(&[5u8; 32], &att).is_err());
    let k1 = MediaCrypto::derive_key(&ck, "a");
    let k2 = MediaCrypto::derive_key(&ck, "b");
    assert_ne!(k1, k2);
    assert_eq!(k1, MediaCrypto::derive_key(&ck, "a"));
}

#[test]
fn forged_bundle_is_refused() {
    let alice = IdentityKeyPair::generate();
    let bob = IdentityKeyPair::generate();
    let (mut bundle, _spk) = liberty_core::crypto::X3DH::create_bundle(&bob);
    assert!(liberty_core::crypto::X3DH::initiate(&alice, &bundle).is_ok());
    bundle.signature = vec![0u8; 64];
    assert!(liberty_core::crypto::X3DH::initiate(&alice, &bundle).is_err());
    bundle.signature = vec![1u8; 10];
    assert!(liberty_core::crypto::X3DH::initiate(&alice, &bundle).is_err());
    let mut sm = SessionManager::new(alice);
    assert_eq!(sm.start_as_initiator("bob", &bundle), Err(AeadError::Encrypt));
    assert!(!sm.has_session("bob"));
}

#[test]
fn short_input_is_decrypt_error() {
    let key = [3u8; 32];
    assert_eq!(decrypt_auto(&key, &[1u8; 13], b""), Err(AeadError::Decrypt));
    assert_eq!(decrypt_auto(&key, &[2u8; 27], b""), Err(AeadError::Decrypt));
}

#[test]
fn ratchet_ciphertext_length() {
    let mut alice = RatchetSession::new(keys(1, 2, 3), true);
    let (h, ct) = alice.encrypt(b"hello liberty", b"aad").unwrap();
    assert_eq!(h.n, 0);
    assert_eq!(h.pn, 0);
    assert_eq!(ct.len(), 42);
}

#[test]
fn many_messages_in_reverse_then_reply() {
    let mut alice = RatchetSession::new(keys(1, 2, 3), true);
    let mut bob = RatchetSession::new(keys(2, 1, 3), false);
    let msgs: Vec<_> = (0..6u8).map(|i| (i, alice.encrypt(&[i; 5], b"ad").unwrap())).collect();
    for (i, (h, c)) in msgs.iter().rev() {
        assert_eq!(bob.decrypt(h, c, b"ad").unwrap(), vec![*i; 5]);
    }
    let (h, c) = bob.encrypt(b"reply", b"ad2").unwrap();
    assert_eq!(h.n, 0);
    assert_eq!(alice.decrypt(&h, &c, b"ad2").unwrap(), b"reply".to_vec());
}

#[test]
fn conversation_across_many_ratchet_steps() {
    let mut alice = RatchetSession::new(keys(9, 8, 7), true);
    let mut bob = RatchetSession::new(keys(8, 9, 7), false);
    let turns = [true, true, false, true, false, false, true, false, true, true, false];
    for (i, alice_speaks) in turns.iter().enumerate() {
        let pt = vec![i as u8; i + 1];
        let ad = [i as u8, 0xAD];
        if *alice_speaks {
            let (h, c) = alice.encrypt(&pt, &ad).unwrap();
            assert_eq!(bob.decrypt(&h, &c, &ad).unwrap(), pt);
        } else {
            let (h, c) = bob.encrypt(&pt, &ad).unwrap();
            assert_eq!(alice.decrypt(&h, &c, &ad).unwrap(), pt);
        }
    }
}
