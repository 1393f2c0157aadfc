//! Keys, key derivation, authentication and encryption.

use fengni::crypto::{
    decrypt, decrypt_into, derive_key, derive_key_pair, diffie_hellman, encrypt, encrypt_into,
    hmac_sha256, hmac_verify, CipherState, KeyPair, ReplayValidator, HMAC_TAG_LEN, NONCE_LEN,
    PUBLIC_KEY_LEN, REPLAY_N_BITS, SYMMETRIC_KEY_LEN, TAG_LEN,
};
use fengni::error::CryptoError;

fn hex(s: &str) -> Vec<u8> {
    (0..s.len() / 2).map(|i| u8::from_str_radix(&s[2 * i..2 * i + 2], 16).unwrap()).collect()
}

// --- Key pairs ---

#[test]
fn keypair_generate_is_valid() {
    let kp = KeyPair::generate();
    assert_eq!(kp.public_key_bytes().len(), PUBLIC_KEY_LEN);
    assert!(kp.ss().is_none());
}

#[test]
fn keypair_from_bytes_roundtrip() {
    let kp = KeyPair::generate();
    let kp2 = KeyPair::from_bytes(*kp.secret());
    assert_eq!(kp.public_key_bytes(), kp2.public_key_bytes());
}

#[test]
fn keypair_pin_peer_produces_ss() {
    let mut alice = KeyPair::generate();
    let bob = KeyPair::generate();
    alice.pin_peer(&bob.public_key_bytes());
    // ss = DH(alice_static, bob_static) = DH(bob_static, alice_static)
    let ss_direct = *x25519_dalek::StaticSecret::from(*alice.secret())
        .diffie_hellman(&x25519_dalek::PublicKey::from(bob.public_key_bytes()))
        .as_bytes();
    let mut bob2 = KeyPair::from_bytes(*bob.secret());
    bob2.pin_peer(&alice.public_key_bytes());
    let ss_peer = *x25519_dalek::StaticSecret::from(*bob2.secret())
        .diffie_hellman(&x25519_dalek::PublicKey::from(alice.public_key_bytes()))
        .as_bytes();
    assert_eq!(ss_direct, ss_peer);
    assert_eq!(alice.ss(), Some(ss_direct));
    assert_eq!(bob2.ss(), Some(ss_peer));
}

#[test]
fn diffie_hellman_same_secret() {
    let alice = KeyPair::generate();
    let bob = KeyPair::generate();

    let alice_pub = alice.public_key_bytes();
    let bob_pub = bob.public_key_bytes();
    let ss_a = diffie_hellman(alice.secret(), &bob_pub);
    let ss_b = diffie_hellman(bob.secret(), &alice_pub);
    assert_eq!(ss_a, ss_b);
}

#[test]
fn keypair_public_key_and_agreement_values() {
    let one = KeyPair::from_bytes([1u8; 32]);
    assert_eq!(
        one.public_key_bytes().to_vec(),
        hex("a4e09292b651c278b9772c569f5fa9bb13d906b46ab68c9df9dc2b4409f8a209")
    );
    assert_eq!(*one.secret(), [1u8; 32]);
    let three = KeyPair::from_bytes([3u8; 32]);
    let expected = hex("b0190541a2abb8bc163b6eef0fae7ba0179004b444326f73809563164d47c521");
    assert_eq!(diffie_hellman(one.secret(), &three.public_key_bytes()).to_vec(), expected);
    assert_eq!(diffie_hellman(three.secret(), &one.public_key_bytes()).to_vec(), expected);
}

#[test]
fn keypairs_are_random_and_clone_keeps_everything() {
    let mut a = KeyPair::generate();
    assert_ne!(*a.secret(), *KeyPair::generate().secret());
    a.pin_peer(&KeyPair::generate().public_key_bytes());
    let b = a.clone();
    assert_eq!(a.secret(), b.secret());
    assert_eq!(a.public_key_bytes(), b.public_key_bytes());
    assert!(b.ss().is_some());
    assert_eq!(a.ss(), b.ss());
}

// --- Key derivation ---

#[test]
fn derive_key_deterministic() {
    let ikm = b"test shared secret material";
    let k1 = derive_key(ikm, b"fengni-v1-test").unwrap();
    let k2 = derive_key(ikm, b"fengni-v1-test").unwrap();
    assert_eq!(k1, k2);
}

#[test]
fn derive_key_different_info() {
    let ikm = b"test shared secret material";
    let k1 = derive_key(ikm, b"info-a").unwrap();
    let k2 = derive_key(ikm, b"info-b").unwrap();
    assert_ne!(k1, k2);
}

#[test]
fn derive_key_values() {
    // The vector of RFC 5869 without salt and info.
    let k = derive_key(&[0x0b; 22], b"").unwrap();
    assert_eq!(
        k.to_vec(),
        hex("8da4e775a563c18f715f802a063c5a31b8a11f5c5ee1879ec3454e5f3c738d2d")
    );
    let k = derive_key(b"test shared secret material", b"fengni-v1-test").unwrap();
    assert_eq!(
        k.to_vec(),
        hex("7bd6a41f14eebb8785fb24499d3b4d53b19308baf5308720a7d1684ee8a961a2")
    );
    assert!(derive_key(b"", b"").is_ok());
}

#[test]
fn derive_key_pair_gives_independent_keys() {
    let ikm = b"test shared secret material";
    let (first, second) = derive_key_pair(ikm, b"fengni-v1-test").unwrap();
    assert_eq!(first, derive_key(ikm, b"fengni-v1-test").unwrap());
    assert_eq!(
        second.to_vec(),
        hex("3930ca239b9f0870605db468fc4b1fda457a9289c1827a5c37ee19cee1040975")
    );
    assert_ne!(first, second);
    assert_ne!(derive_key_pair(ikm, b"other").unwrap().0, first);
}

// --- HMAC ---

#[test]
fn hmac_verification() {
    let key = [0xAAu8; SYMMETRIC_KEY_LEN];
    let tag1 = hmac_sha256(&key, &[b"hello", b" world"]);
    let tag2 = hmac_sha256(&key, &[b"hello", b" world"]);
    assert_eq!(tag1, tag2);
    assert!(hmac_verify(&key, &[b"hello", b" world"], &tag1));

    let tag3 = hmac_sha256(&key, &[b"hello", b" bob"]);
    assert_ne!(tag1, tag3);
    assert!(!hmac_verify(&key, &[b"hello", b" bob"], &tag1));
}

#[test]
fn hmac_values_do_not_depend_on_the_chunks() {
    let key = [0xAAu8; SYMMETRIC_KEY_LEN];
    let expected = hex("9676340e6eaa9c3e70d33bb692bd45e94825141579dc00b4c33161816363582c");
    assert_eq!(hmac_sha256(&key, &[b"hello", b" world"]).to_vec(), expected);
    assert_eq!(hmac_sha256(&key, &[b"hello world"]).to_vec(), expected);
    assert_eq!(hmac_sha256(&key, &[b"", b"hel", b"lo world", b""]).to_vec(), expected);
    // The "Jefe" vector of RFC 4231, with the key padded as HMAC pads it.
    let mut jefe = [0u8; SYMMETRIC_KEY_LEN];
    jefe[..4].copy_from_slice(b"Jefe");
    assert_eq!(
        hmac_sha256(&jefe, &[b"what do ya want ", b"for nothing?"]).to_vec(),
        hex("5bdcc146bf60754e6a042426089575c75a003f089d2739839dec58b964ec3843")
    );
    assert_eq!(hmac_sha256(&key, &[]), hmac_sha256(&key, &[b""]));
}

#[test]
fn hmac_verify_sees_every_byte() {
    let key = [7u8; SYMMETRIC_KEY_LEN];
    let tag = hmac_sha256(&key, &[b"data"]);
    for i in 0..HMAC_TAG_LEN {
        for bit in 0..8 {
            let mut forged = tag;
            forged[i] ^= 1 << bit;
            assert!(!hmac_verify(&key, &[b"data"], &forged));
        }
    }
    assert!(!hmac_verify(&[8u8; SYMMETRIC_KEY_LEN], &[b"data"], &tag));
}

// --- AEAD ---

#[test]
fn encrypt_decrypt_roundtrip() {
    let key = [0xAAu8; SYMMETRIC_KEY_LEN];
    let nonce = [0x00u8; NONCE_LEN];
    let plaintext = b"hello fengni";

    let ct = encrypt(&key, &nonce, plaintext).unwrap();
    assert_eq!(ct.len(), plaintext.len() + TAG_LEN);

    let pt = decrypt(&key, &nonce, &ct).unwrap();
    assert_eq!(pt, plaintext);
}

#[test]
fn decrypt_wrong_key_fails() {
    let key1 = [0xAAu8; SYMMETRIC_KEY_LEN];
    let key2 = [0xBBu8; SYMMETRIC_KEY_LEN];
    let nonce = [0x00u8; NONCE_LEN];
    let plaintext = b"hello fengni";

    let ct = encrypt(&key1, &nonce, plaintext).unwrap();
    assert!(decrypt(&key2, &nonce, &ct).is_err());
}

#[test]
fn decrypt_tampered_ciphertext_fails() {
    let key = [0xAAu8; SYMMETRIC_KEY_LEN];
    let nonce = [0x00u8; NONCE_LEN];
    let plaintext = b"hello fengni";

    let mut ct = encrypt(&key, &nonce, plaintext).unwrap();
    ct[0] ^= 0x01;
    assert!(decrypt(&key, &nonce, &ct).is_err());
}

#[test]
fn encrypt_values() {
    let ct = encrypt(&[0xAA; 32], &[0; NONCE_LEN], b"hello fengni").unwrap();
    assert_eq!(ct, hex("89799503437e396c2ced1d15e99111f9d95d6c1c7e734a7f91f213c8"));
    assert_eq!(decrypt(&[0xAA; 32], &[0; NONCE_LEN], &ct).unwrap(), b"hello fengni");
    assert_eq!(
        decrypt(&[0xAA; 32], &[1; NONCE_LEN], &ct),
        Err(CryptoError::Decrypt)
    );
}

#[test]
fn what_decrypts_is_what_encrypt_makes() {
    let (key, nonce) = ([0xAAu8; 32], [5u8; NONCE_LEN]);
    for len in [0usize, 1, 63, 64, 65, 200] {
        let ct = encrypt(&key, &nonce, &vec![3u8; len]).unwrap();
        let pt = decrypt(&key, &nonce, &ct).unwrap();
        assert_eq!(encrypt(&key, &nonce, &pt).unwrap(), ct);
        // No other bytes decrypt to anything.
        for i in 0..ct.len() {
            let mut other = ct.clone();
            other[i] ^= 0x80;
            assert_eq!(decrypt(&key, &nonce, &other), Err(CryptoError::Decrypt));
        }
        let mut out = vec![0u8; len];
        assert_eq!(decrypt_into(&key, &nonce, &ct, &mut out), Ok(len));
        assert_eq!(encrypt(&key, &nonce, &out).unwrap(), ct);
    }
}

#[test]
fn decrypt_refuses_what_is_shorter_than_a_tag() {
    for len in 0..TAG_LEN {
        assert_eq!(
            decrypt(&[0xAA; 32], &[0; NONCE_LEN], &vec![0u8; len]),
            Err(CryptoError::Decrypt)
        );
        let mut out = [9u8; 4];
        assert_eq!(
            decrypt_into(&[0xAA; 32], &[0; NONCE_LEN], &vec![0u8; len], &mut out),
            Err(CryptoError::Decrypt)
        );
        assert_eq!(out, [9u8; 4]);
    }
    let empty = encrypt(&[0xAA; 32], &[0; NONCE_LEN], b"").unwrap();
    assert_eq!(empty.len(), TAG_LEN);
    assert_eq!(decrypt(&[0xAA; 32], &[0; NONCE_LEN], &empty), Ok(vec![]));
}

#[test]
fn encrypt_into_decrypt_into_roundtrip() {
    let key = [0xAAu8; SYMMETRIC_KEY_LEN];
    let nonce = [0x00u8; NONCE_LEN];
    let plaintext = b"hello fengni zero-copy";

    let mut ct_buf = vec![0u8; plaintext.len() + TAG_LEN];
    let written = encrypt_into(&key, &nonce, plaintext, &mut ct_buf).unwrap();
    assert_eq!(written, plaintext.len() + TAG_LEN);

    let mut pt_buf = vec![0u8; plaintext.len()];
    let read = decrypt_into(&key, &nonce, &ct_buf[..written], &mut pt_buf).unwrap();
    assert_eq!(read, plaintext.len());
    assert_eq!(&pt_buf[..read], plaintext);
}

#[test]
fn encrypt_into_writes_what_encrypt_returns() {
    let key = [0xAAu8; 32];
    let nonce = [3u8; NONCE_LEN];
    let ct = encrypt(&key, &nonce, b"same bytes").unwrap();
    let mut out = vec![0x55u8; ct.len() + 5];
    assert_eq!(encrypt_into(&key, &nonce, b"same bytes", &mut out), Ok(ct.len()));
    assert_eq!(&out[..ct.len()], &ct[..]);
    assert_eq!(&out[ct.len()..], &[0x55u8; 5]);

    let mut pt = vec![0x66u8; 12];
    assert_eq!(decrypt_into(&key, &nonce, &ct, &mut pt), Ok(10));
    assert_eq!(&pt[..], b"same bytesff");
}

#[test]
fn short_output_buffers_are_left_alone() {
    let key = [0xAAu8; 32];
    let nonce = [0u8; NONCE_LEN];
    let mut out = [7u8; 20];
    assert_eq!(encrypt_into(&key, &nonce, b"hello", &mut out), Err(CryptoError::Encrypt));
    assert_eq!(out, [7u8; 20]);
    let mut none: [u8; 0] = [];
    assert_eq!(encrypt_into(&key, &nonce, b"", &mut none), Err(CryptoError::Encrypt));

    let ct = encrypt(&key, &nonce, b"hello").unwrap();
    let mut out = [7u8; 4];
    assert_eq!(decrypt_into(&key, &nonce, &ct, &mut out), Err(CryptoError::Decrypt));
    assert_eq!(out, [7u8; 4]);
}

#[test]
fn failed_authentication_leaves_the_body_in_the_buffer() {
    let key = [0xAAu8; 32];
    let nonce = [0u8; NONCE_LEN];
    let mut ct = encrypt(&key, &nonce, b"hello").unwrap();
    ct[20] ^= 1;
    let mut out = [7u8; 8];
    assert_eq!(decrypt_into(&key, &nonce, &ct, &mut out), Err(CryptoError::Decrypt));
    assert_eq!(&out[..5], &ct[..5]);
    assert_eq!(&out[5..], &[7u8; 3]);
}

// --- CipherState ---

#[test]
fn cipherstate_encrypt_decrypt() {
    let key = [0xAAu8; SYMMETRIC_KEY_LEN];
    let mut cs_send = CipherState::new(&key);
    let mut cs_recv = CipherState::new(&key);
    assert_eq!(cs_send.nonce(), 0);

    let ct = cs_send.encrypt(b"hello").unwrap();
    assert_eq!(cs_send.nonce(), 1);
    let pt = cs_recv.decrypt(&ct).unwrap();
    assert_eq!(pt, b"hello");
    assert_eq!(cs_recv.nonce(), 1);
}

#[test]
fn cipherstate_decrypt_wrong_key_fails() {
    let key1 = [0xAAu8; SYMMETRIC_KEY_LEN];
    let key2 = [0xBBu8; SYMMETRIC_KEY_LEN];
    let mut cs_send = CipherState::new(&key1);
    let mut cs_recv = CipherState::new(&key2);

    let ct = cs_send.encrypt(b"hello").unwrap();
    assert!(cs_recv.decrypt(&ct).is_err());
}

#[test]
fn cipherstate_rekey() {
    let key = [0xAAu8; SYMMETRIC_KEY_LEN];
    let mut cs_send = CipherState::new(&key);
    let mut cs_recv = CipherState::new(&key);
    let ct1 = cs_send.encrypt(b"hello").unwrap();
    cs_send.rekey().unwrap();
    cs_recv.rekey().unwrap();
    assert_eq!(cs_send.nonce(), 0);
    // Different key → different ciphertext for same plaintext
    let ct2 = cs_send.encrypt(b"hello").unwrap();
    assert_ne!(ct1, ct2);
    // Still decrypts correctly
    let pt2 = cs_recv.decrypt(&ct2).unwrap();
    assert_eq!(pt2, b"hello");
}

#[test]
fn cipherstate_encrypt_into_decrypt_into_roundtrip() {
    let key = [0xAAu8; SYMMETRIC_KEY_LEN];
    let plaintext = b"zero-copy via cipherstate";
    let mut cs_send = CipherState::new(&key);
    let mut cs_recv = CipherState::new(&key);

    let mut ct_buf = vec![0u8; plaintext.len() + TAG_LEN];
    let written = cs_send.encrypt_into(plaintext, &mut ct_buf).unwrap();
    assert_eq!(written, plaintext.len() + TAG_LEN);
    assert_eq!(cs_send.nonce(), 1);

    let mut pt_buf = vec![0u8; plaintext.len()];
    let read = cs_recv.decrypt_into(&ct_buf[..written], &mut pt_buf).unwrap();
    assert_eq!(read, plaintext.len());
    assert_eq!(&pt_buf[..read], plaintext);
    assert_eq!(cs_recv.nonce(), 1);
}

#[test]
fn cipherstate_values() {
    let mut cs = CipherState::new(&[0xAA; 32]);
    let first = cs.encrypt(b"hello").unwrap();
    assert_eq!(first, hex("89799503437d36c37c769be4c06589896f57ec311b"));
    let second = cs.encrypt(b"hello").unwrap();
    assert_eq!(second, hex("f2b2516a5d674bad551decce33b27295c8574b7b1e"));
    // The counter is little-endian in the last eight bytes of the nonce.
    assert_eq!(
        cs.encrypt_with_nonce(0x0102030405060708, b"hello").unwrap(),
        hex("cb51917114ee21be44bb51a70ef80c401ab0ac169d")
    );
    assert_eq!(cs.nonce(), 2);
    cs.rekey().unwrap();
    assert_eq!(
        cs.encrypt(b"hello").unwrap(),
        hex("3674e4fdd510c097e24f040d96bf0b987433b19d1a")
    );
    let mut manual = CipherState::new(&[0; 32]);
    let mut key = [0u8; 32];
    key.copy_from_slice(&hex("fa8bc3b3fe09bd25693e20c21d7948a78b3504230de78e6637907baede3ed8f6"));
    manual.encrypt(b"x").unwrap();
    manual.rekey_manually(&key);
    assert_eq!(manual.nonce(), 0);
    assert_eq!(
        manual.encrypt(b"hello").unwrap(),
        hex("3674e4fdd510c097e24f040d96bf0b987433b19d1a")
    );
}

#[test]
fn cipherstate_failures_keep_the_nonce() {
    let mut cs = CipherState::new(&[0xAA; 32]);
    assert_eq!(cs.decrypt(b"too short"), Err(CryptoError::Decrypt));
    assert_eq!(cs.decrypt(&[0u8; 40]), Err(CryptoError::Decrypt));
    let mut out = [0u8; 3];
    assert_eq!(cs.encrypt_into(b"hello", &mut out), Err(CryptoError::Encrypt));
    assert_eq!(cs.decrypt_into(&[0u8; 40], &mut out), Err(CryptoError::Decrypt));
    assert_eq!(cs.nonce(), 0);
}

#[test]
fn cipherstate_without_a_key_refuses_everything() {
    let mut cs = CipherState::empty();
    let mut out = [1u8; 64];
    assert_eq!(cs.nonce(), 0);
    assert_eq!(cs.encrypt(b"hello"), Err(CryptoError::Encrypt));
    assert_eq!(cs.decrypt(&[0; 32]), Err(CryptoError::Decrypt));
    assert_eq!(cs.encrypt_into(b"hello", &mut out), Err(CryptoError::Encrypt));
    assert_eq!(cs.decrypt_into(&[0; 32], &mut out), Err(CryptoError::Decrypt));
    assert_eq!(cs.encrypt_with_nonce(0, b"hello"), Err(CryptoError::Encrypt));
    assert_eq!(cs.decrypt_with_nonce(0, &[0; 32]), Err(CryptoError::Decrypt));
    assert_eq!(cs.encrypt_into_with_nonce(0, b"hello", &mut out), Err(CryptoError::Encrypt));
    assert_eq!(cs.decrypt_into_with_nonce(0, &[0; 32], &mut out), Err(CryptoError::Decrypt));
    assert_eq!(cs.rekey(), Err(CryptoError::Encrypt));
    assert_eq!(out, [1u8; 64]);
    // A key that is set by hand does not switch the state on.
    cs.rekey_manually(&[0xAA; 32]);
    assert_eq!(cs.encrypt(b"hello"), Err(CryptoError::Encrypt));
}

#[test]
fn reserved_nonce_is_refused() {
    let cs = CipherState::new(&[0xAA; 32]);
    let mut out = [1u8; 64];
    assert_eq!(cs.encrypt_with_nonce(u64::MAX, b"x"), Err(CryptoError::Encrypt));
    assert_eq!(cs.decrypt_with_nonce(u64::MAX, &[0; 32]), Err(CryptoError::Encrypt));
    assert_eq!(cs.encrypt_into_with_nonce(u64::MAX, b"x", &mut out), Err(CryptoError::Encrypt));
    assert_eq!(cs.decrypt_into_with_nonce(u64::MAX, &[0; 32], &mut out), Err(CryptoError::Encrypt));
    assert_eq!(out, [1u8; 64]);
    let ct = cs.encrypt_with_nonce(u64::MAX - 1, b"x").unwrap();
    assert_eq!(cs.decrypt_with_nonce(u64::MAX - 1, &ct), Ok(b"x".to_vec()));
}

#[test]
fn no_two_packets_share_a_nonce() {
    let mut cs = CipherState::new(&[0xAA; 32]);
    let mut seen: Vec<Vec<u8>> = Vec::new();
    for _ in 0..300 {
        // Under one key, equal ciphertexts of one plaintext mean equal nonces.
        let ct = cs.encrypt(b"the same plaintext").unwrap();
        assert!(!seen.contains(&ct));
        seen.push(ct);
    }
    assert_eq!(cs.nonce(), 300);
}

// --- ReplayValidator tests ---

#[test]
fn replay_validator_accepts_sequential() {
    let mut r = ReplayValidator::new();
    for i in 0..100 {
        assert!(r.will_accept(i).is_ok(), "should accept {}", i);
        r.mark_did_receive(i);
    }
}

#[test]
fn replay_validator_rejects_duplicate() {
    let mut r = ReplayValidator::new();
    r.will_accept(0).unwrap();
    r.mark_did_receive(0);
    r.will_accept(1).unwrap();
    r.mark_did_receive(1);

    // Duplicate of 0 should be rejected
    assert!(r.will_accept(0).is_err());
    // Duplicate of 1 should be rejected
    assert!(r.will_accept(1).is_err());
}

#[test]
fn replay_validator_rejects_too_old() {
    let mut r = ReplayValidator::new();
    // Advance past the window
    for i in 0..REPLAY_N_BITS {
        r.will_accept(i).unwrap();
        r.mark_did_receive(i);
    }
    r.will_accept(REPLAY_N_BITS).unwrap();
    r.mark_did_receive(REPLAY_N_BITS);

    // Nonce 0 is now too old (1024 behind)
    assert!(r.will_accept(0).is_err());
}

#[test]
fn replay_validator_accepts_out_of_order() {
    let mut r = ReplayValidator::new();
    // Receive 0, 1, 5, then 3 (out of order), then duplicate 3
    r.will_accept(0).unwrap();
    r.mark_did_receive(0);
    r.will_accept(1).unwrap();
    r.mark_did_receive(1);
    r.will_accept(5).unwrap();
    r.mark_did_receive(5);
    // 3 is within window and not yet seen
    r.will_accept(3).unwrap();
    r.mark_did_receive(3);
    // Now 3 is duplicate
    assert!(r.will_accept(3).is_err());
    // 5 is also duplicate
    assert!(r.will_accept(5).is_err());
}

#[test]
fn replay_validator_large_gap_clears_window() {
    let mut r = ReplayValidator::new();
    r.will_accept(0).unwrap();
    r.mark_did_receive(0);

    // Jump far ahead (> window size)
    let far = REPLAY_N_BITS * 3;
    r.will_accept(far).unwrap();
    r.mark_did_receive(far);

    // Old values should be rejected
    assert!(r.will_accept(0).is_err());
    assert!(r.will_accept(far / 2).is_err());
    // But immediate successor is fine
    assert!(r.will_accept(far + 1).is_ok());
}

#[test]
fn replay_window_edges_and_error_kinds() {
    let mut r = ReplayValidator::new();
    assert_eq!(r.will_accept(u64::MAX), Ok(()));
    r.mark_did_receive(2000);
    assert_eq!(r.will_accept(2000), Err(CryptoError::NonceReplayed));
    // The window holds 977..=2000.
    assert_eq!(r.will_accept(977), Ok(()));
    assert_eq!(r.will_accept(976), Err(CryptoError::Encrypt));
    r.mark_did_receive(977);
    assert_eq!(r.will_accept(977), Err(CryptoError::NonceReplayed));
    r.mark_did_receive(2001);
    assert_eq!(r.will_accept(977), Err(CryptoError::Encrypt));
    r.mark_did_receive(u64::MAX - 1);
    assert_eq!(r.will_accept(u64::MAX - 1), Err(CryptoError::NonceReplayed));
    assert_eq!(r.will_accept(u64::MAX - 1024), Ok(()));
    assert_eq!(r.will_accept(u64::MAX - 1025), Err(CryptoError::Encrypt));
}

#[test]
fn marking_a_too_old_counter_changes_nothing() {
    let mut r = ReplayValidator::new();
    r.mark_did_receive(2000);
    // 2000 - 1024 shares its place in the bitmap with 2000, 500 with 1524.
    r.mark_did_receive(500);
    assert_eq!(r.will_accept(1524), Ok(()));
    assert_eq!(r.will_accept(500), Err(CryptoError::Encrypt));
    r.mark_did_receive(976);
    assert_eq!(r.will_accept(2000), Err(CryptoError::NonceReplayed));
    for n in 977..2000 {
        assert_eq!(r.will_accept(n), Ok(()));
    }
}

#[test]
fn replay_validator_agrees_with_a_list() {
    // A plain list of received counters, and the rule in words.
    let mut r = ReplayValidator::default();
    let mut received: Vec<u64> = Vec::new();
    let mut next: u64 = 0;
    let mut x: u64 = 0x2545_F491_4F6C_DD1D;
    for _ in 0..4000 {
        x ^= x << 13;
        x ^= x >> 7;
        x ^= x << 17;
        let step = match x % 16 {
            0 => 1500,
            1 => 1023,
            2 => 1024,
            3 => 700,
            _ => x % 70,
        };
        let counter = if x % 3 == 0 { next.saturating_sub(x % 1100) } else { next + step };
        let expected = if counter >= next {
            Ok(())
        } else if next - counter > 1024 {
            Err(CryptoError::Encrypt)
        } else if received.contains(&counter) {
            Err(CryptoError::NonceReplayed)
        } else {
            Ok(())
        };
        assert_eq!(r.will_accept(counter), expected);
        if expected.is_ok() {
            r.mark_did_receive(counter);
            received.push(counter);
            next = next.max(counter + 1);
        }
    }
    let copy = r.clone();
    assert_eq!(copy.will_accept(next - 1), r.will_accept(next - 1));
}

#[test]
fn marked_counters_are_never_accepted_again() {
    let mut r = ReplayValidator::new();
    r.mark_did_receive(10);
    for later in [11u64, 9, 500, 1033, 1034, 1035, 5000, 100_000] {
        r.mark_did_receive(later);
        assert!(r.will_accept(10).is_err());
        assert!(r.will_accept(later).is_err());
    }
}

#[test]
fn aead_safety_limits() {
    // ChaCha20-Poly1305 confidentiality limit with sequential nonces
    // is effectively unlimited (nonce space is the limit).
    assert_eq!(CipherState::confidentiality_limit(), u64::MAX);
    // Integrity limit
    assert_eq!(CipherState::integrity_limit(), 1 << 36);
}
