//! The handshake and the transports it leads to.

use fengni::crypto::{decrypt, derive_key, diffie_hellman, encrypt, hmac_sha256, CipherState};
use fengni::error::{CryptoError, DecodeError, EncodeError, FengniError, HandshakeError, WireError};
use fengni::shares::sort_and_concat;
use fengni::wire::fengni_message::Variant;
use fengni::wire::{Authenticate, Hello, HelloReply, ServerFinish};
use fengni::{FengniMessage, Handshake, HandshakeBuilder, HandshakeState, KeyPair, TransportState};

fn hex(s: &str) -> Vec<u8> {
    (0..s.len() / 2).map(|i| u8::from_str_radix(&s[2 * i..2 * i + 2], 16).unwrap()).collect()
}

const T: u64 = 1_700_000_000;

/// An initiator and a responder with fixed keys.
fn fixed_pair(prologue: &[u8]) -> (Handshake, Handshake) {
    let a_static = KeyPair::from_bytes([1; 32]);
    let b_static = KeyPair::from_bytes([3; 32]);
    let a = HandshakeBuilder::initiator(a_static, b_static.public_key_bytes())
        .prologue(prologue)
        .build_with_ephemeral(KeyPair::from_bytes([2; 32]));
    let b = HandshakeBuilder::responder(b_static)
        .prologue(prologue)
        .build_with_ephemeral(KeyPair::from_bytes([4; 32]));
    (a, b)
}

/// Transports of two peers after a handshake.
fn transports() -> (TransportState, TransportState) {
    let mut alice_key = KeyPair::generate();
    let bob_key = KeyPair::generate();
    let bob_pub = bob_key.public_key_bytes();
    alice_key.pin_peer(&bob_pub);

    let mut hs_a = HandshakeBuilder::initiator(alice_key, bob_pub).build();
    let mut hs_b = HandshakeBuilder::responder(bob_key).build();

    let hello = hs_a.send_hello().unwrap();
    let reply = hs_b.handle_message(&hello).unwrap().unwrap();
    let auth = hs_a.handle_message(&reply).unwrap().unwrap();
    let finish = hs_b.handle_message(&auth).unwrap().unwrap();
    hs_a.handle_message(&finish).unwrap();

    (hs_a.into_transport().unwrap(), hs_b.into_transport().unwrap())
}

fn encode(variant: Variant) -> Vec<u8> {
    fengni::wire::encode(&FengniMessage { variant: Some(variant) }).unwrap()
}

#[test]
fn builder_initiator() {
    let alice = KeyPair::generate();
    let bob_pub = KeyPair::generate().public_key_bytes();
    let hs = HandshakeBuilder::initiator(alice, bob_pub).build();
    assert!(matches!(hs.state(), HandshakeState::ExpectHelloReply { .. }));
    assert!(hs.identity().ss().is_some());
}

#[test]
fn builder_responder() {
    let bob = KeyPair::generate();
    let hs = HandshakeBuilder::responder(bob).build();
    assert_eq!(hs.state(), HandshakeState::ExpectHello);
}

#[test]
fn full_handshake_succeeds() {
    let mut alice_key = KeyPair::generate();
    let bob_key = KeyPair::generate();

    let bob_pub = bob_key.public_key_bytes();
    alice_key.pin_peer(&bob_pub);

    let mut hs_a = HandshakeBuilder::initiator(alice_key.clone(), bob_pub).build();
    assert!(matches!(hs_a.state(), HandshakeState::ExpectHelloReply { .. }));

    let hello = hs_a.send_hello().unwrap();
    assert!(!hello.is_empty());

    let mut hs_b = HandshakeBuilder::responder(bob_key.clone()).build();
    assert_eq!(hs_b.state(), HandshakeState::ExpectHello);

    let reply = hs_b.handle_message(&hello).unwrap().unwrap();
    assert!(matches!(hs_b.state(), HandshakeState::ExpectAuthenticate { .. }));

    let auth = hs_a.handle_message(&reply).unwrap().unwrap();
    assert!(matches!(hs_a.state(), HandshakeState::ExpectServerFinish { .. }));

    let finish = hs_b.handle_message(&auth).unwrap().unwrap();
    assert!(matches!(hs_b.state(), HandshakeState::Completed { .. }));

    let done = hs_a.handle_message(&finish).unwrap();
    assert!(done.is_none());
    assert!(matches!(hs_a.state(), HandshakeState::Completed { .. }));

    // Transition to transport and verify send/recv keys work
    let mut transport_a = hs_a.into_transport().unwrap();
    let mut transport_b = hs_b.into_transport().unwrap();

    // Alice sends to Bob
    let ct = transport_a.send(b"hello bob").unwrap();
    let pt = transport_b.recv(&ct).unwrap();
    assert_eq!(pt, b"hello bob");

    // Bob sends to Alice
    let ct = transport_b.send(b"hello alice").unwrap();
    let pt = transport_a.recv(&ct).unwrap();
    assert_eq!(pt, b"hello alice");
}

#[test]
fn wrong_peer_identity_rejected() {
    let mut alice_key = KeyPair::generate();
    let bob_key = KeyPair::generate();
    let mallory_key = KeyPair::generate();

    let bob_pub = bob_key.public_key_bytes();
    alice_key.pin_peer(&bob_pub);

    let mut hs_a = HandshakeBuilder::initiator(alice_key, bob_pub).build();
    let hello = hs_a.send_hello().unwrap();

    let mut hs_m = HandshakeBuilder::responder(mallory_key).build();
    let reply = hs_m.handle_message(&hello).unwrap().unwrap();

    let result = hs_a.handle_message(&reply);
    assert!(result.is_err());
}

#[test]
fn expired_timestamp_rejected() {
    let bob_key = KeyPair::generate();
    let mut hs_b = HandshakeBuilder::responder(bob_key).build();

    let hello = FengniMessage {
        variant: Some(Variant::Hello(Hello {
            ephemeral_public: KeyPair::generate().public_key_bytes().to_vec().into(),
            timestamp: 0,
        })),
    };
    let raw = fengni::wire::encode(&hello).unwrap();

    let result = hs_b.handle_message(&raw);
    assert!(result.is_err());
}

#[test]
fn unexpected_message_rejected() {
    let bob_key = KeyPair::generate();
    let mut hs_b = HandshakeBuilder::responder(bob_key).build();

    let auth = FengniMessage {
        variant: Some(Variant::Authenticate(Authenticate {
            identity_public: KeyPair::generate().public_key_bytes().to_vec().into(),
            proof: vec![0u8; 32].into(),
        })),
    };
    let raw = fengni::wire::encode(&auth).unwrap();

    let result = hs_b.handle_message(&raw);
    assert!(result.is_err());
}

#[test]
fn into_transport_before_completion_fails() {
    let alice = KeyPair::generate();
    let bob_pub = KeyPair::generate().public_key_bytes();
    let hs = HandshakeBuilder::initiator(alice, bob_pub).build();
    let result = hs.into_transport();
    assert!(result.is_err());
    match result {
        Err(FengniError::State(text)) => assert_eq!(text, "handshake not completed"),
        _ => panic!("another error"),
    }
}

#[test]
fn transport_replay_rejects_duplicate() {
    // Complete a handshake
    let (mut transport_a, mut transport_b) = transports();

    // First message works
    let ct = transport_a.send(b"msg 1").unwrap();
    let pt = transport_b.recv(&ct).unwrap();
    assert_eq!(pt, b"msg 1");

    // Replaying the same ciphertext should fail (nonce already consumed)
    let result = transport_b.recv(&ct);
    assert!(result.is_err());
}

#[test]
fn transport_auth_failures_increment() {
    // Complete a handshake
    let (mut transport_a, mut transport_b) = transports();

    // Send a valid message first
    let ct = transport_a.send(b"valid").unwrap();
    let _ = transport_b.recv(&ct).unwrap();

    // Try to decrypt garbage — should fail and increment auth_failures
    assert_eq!(transport_b.auth_failures(), 0);
    let garbage = vec![0xCCu8; 32];
    let result = transport_b.recv(&garbage);
    assert!(result.is_err());
    assert_eq!(transport_b.auth_failures(), 1);
}

#[test]
fn transport_integrity_limit_is_defined() {
    // ChaCha20-Poly1305 integrity limit
    assert_eq!(TransportState::integrity_limit(), 1 << 36);
    assert_eq!(TransportState::confidentiality_limit(), u64::MAX);
}

#[test]
fn prologue_mismatch_causes_handshake_failure() {
    let mut ak = KeyPair::generate();
    let bk = KeyPair::generate();
    let bp = bk.public_key_bytes();
    ak.pin_peer(&bp);

    // Alice uses prologue "alice-v1", Bob uses "bob-v1" — must fail
    let mut hs_a = HandshakeBuilder::initiator(ak, bp)
        .prologue(b"alice-v1")
        .build();
    let mut hs_b = HandshakeBuilder::responder(bk)
        .prologue(b"bob-v1")
        .build();

    let hello = hs_a.send_hello().unwrap();
    // Bob's hello_key is derived with different prologue → decryption will fail
    let reply = hs_b.handle_message(&hello).unwrap().unwrap();
    // Alice tries to process with different prologue → must fail
    let result = hs_a.handle_message(&reply);
    assert!(result.is_err());
}

#[test]
fn prologue_match_handshake_succeeds() {
    let mut ak = KeyPair::generate();
    let bk = KeyPair::generate();
    let bp = bk.public_key_bytes();
    ak.pin_peer(&bp);

    let mut hs_a = HandshakeBuilder::initiator(ak, bp)
        .prologue(b"shared-prologue")
        .build();
    let mut hs_b = HandshakeBuilder::responder(bk)
        .prologue(b"shared-prologue")
        .build();

    let hello = hs_a.send_hello().unwrap();
    let reply = hs_b.handle_message(&hello).unwrap().unwrap();
    let auth = hs_a.handle_message(&reply).unwrap().unwrap();
    let finish = hs_b.handle_message(&auth).unwrap().unwrap();
    hs_a.handle_message(&finish).unwrap();

    // Verify transport works
    let mut ta = hs_a.into_transport().unwrap();
    let mut tb = hs_b.into_transport().unwrap();
    let ct = ta.send(b"prologue test").unwrap();
    let pt = tb.recv(&ct).unwrap();
    assert_eq!(pt, b"prologue test");
}

#[test]
fn stateless_transport_roundtrip() {
    // Complete a handshake
    let (ta, mut tb) = transports();

    // Stateless send/recv with explicit nonces
    let msg = b"stateless test message";
    let ct = ta.send_with_nonce(42, msg).unwrap();
    let pt = tb.recv_with_nonce(42, &ct).unwrap();
    assert_eq!(pt, msg);

    // Replay of same nonce should be rejected
    assert!(tb.recv_with_nonce(42, &ct).is_err());
}

#[test]
fn stateless_zero_copy_roundtrip() {
    let key = [0xAAu8; 32];
    let cs = CipherState::new(&key);
    let pt = b"stateless zero-copy";

    let mut ct_buf = vec![0u8; pt.len() + 16];
    let w = cs.encrypt_into_with_nonce(7, pt, &mut ct_buf).unwrap();
    assert_eq!(w, pt.len() + 16);

    let mut pt_buf = vec![0u8; pt.len()];
    let r = cs.decrypt_into_with_nonce(7, &ct_buf[..w], &mut pt_buf).unwrap();
    assert_eq!(r, pt.len());
    assert_eq!(&pt_buf[..r], pt);

    // Internal nonce unchanged by stateless methods
    assert_eq!(cs.nonce(), 0);
}

// --- Exact transcripts ---

fn transcript(prologue: &[u8], reply: &str, auth: &str, finish: &str, sk1: &str, sk2: &str, ct: &str) {
    let (mut a, mut b) = fixed_pair(prologue);
    let hello = a.send_hello_at(T).unwrap();
    assert_eq!(
        hello,
        hex("0a280a20ce8d3ad1ccb633ec7b70c17814a5c76ecd029685050d344745ba05870e587d591080e2cfaa06")
    );
    let r = b.handle_message_at(&hello, T + 60, T + 7).unwrap().unwrap();
    assert_eq!(r, hex(reply));
    let m = a.handle_message_at(&r, 0, 0).unwrap().unwrap();
    assert_eq!(m, hex(auth));
    let f = b.handle_message_at(&m, 0, 0).unwrap().unwrap();
    assert_eq!(f, hex(finish));
    assert_eq!(a.handle_message_at(&f, 0, 0).unwrap(), None);
    match (a.state(), b.state()) {
        (
            HandshakeState::Completed { send_key: a_send, recv_key: a_recv },
            HandshakeState::Completed { send_key: b_send, recv_key: b_recv },
        ) => {
            assert_eq!(b_send.to_vec(), hex(sk1));
            assert_eq!(b_recv.to_vec(), hex(sk2));
            assert_eq!(a_send, b_recv);
            assert_eq!(a_recv, b_send);
        }
        _ => panic!("not completed"),
    }
    assert_eq!(a.identity().ss(), b.identity().ss());
    assert_eq!(
        b.identity().ss().unwrap().to_vec(),
        hex("b0190541a2abb8bc163b6eef0fae7ba0179004b444326f73809563164d47c521")
    );
    let mut ta = a.into_transport().unwrap();
    assert_eq!(ta.send(b"hello bob").unwrap(), hex(ct));
    let mut tb = b.into_transport().unwrap();
    assert_eq!(tb.recv(&hex(ct)).unwrap(), b"hello bob");
}

#[test]
fn transcript_without_prologue() {
    transcript(
        b"",
        "125c0a20ac01b2209e86354fb853237b5de0f4fab13c7fcbf433a61c019369617fecf10b1238c3124e7a90afaecf012e91d53dafe288378a8148141a678e0b712d0a7788f5be95d069cfe0d3157e866a32509066912b1c395d87d4396c8e",
        "1a540a306162c73784bd3bae85fe27716b407ed5a462dc587b51ef3d2e77e7d97de4ac1c861899d6229a3d06df7597d5db59e6441220cf4ea72960b77efaeb6de34af4caa9b3e878e944526b33c130efb7bf0a216b97",
        "222b0a2987f0e0c61cde4fe1de6f249b7e4846f0cb77ff6b286089bc5b8016da865251769bb9b7a01af8597a55",
        "49b5a97134f10dd8d8d3da249b78c3ef9b77ec71473d26409d83dfe87473057b",
        "20b2dcaadf74ba242444f52b151d7b472c143910f86d2706fe6f44d2e55591c2",
        "abcbc1d221e977cb10dd5ed22c631453e2c40f28c52a16aa2b",
    );
}

#[test]
fn transcript_with_prologue() {
    transcript(
        b"shared-prologue",
        "125c0a20ac01b2209e86354fb853237b5de0f4fab13c7fcbf433a61c019369617fecf10b123820e00ad1d5fa3617c42d96c48047825a99c3f44420486bc1455a25ab4feb786e5fe934a2ddbf5e383192f77d3768892cb9877568b7940b63",
        "1a540a30895345e7576bfa5a2ef73fc6b513264fdee732643c7ce21907d4023fb8c5accd686fb88382d2946877f856e7c73927b71220fc83f43eddf590c34644a490de20c46824f7b158a2101d0b53bfc679c9286747",
        "222b0a29b050588eec57904bb12a0200fb505ddc844017334c86e3b2b43941cbf01b20ad014b3774e559e10b87",
        "110117c149f5c341b847eace88b6b6353e2024b2fd15a176a44e4a19821f505d",
        "6f762c3ff0168941ece34e99d76e6c00b778581d5eab7fed7663b77b0250ccd3",
        "f8eaeb7c0ebab8059de4a1f5128b32be3aa73063d7f0bcfced",
    );
}

// --- Combining the key agreements ---

#[test]
fn shares_are_sorted_and_joined() {
    let (a, b, c) = ([1u8; 32], [2u8; 32], [0xFFu8; 32]);
    let mut b2 = b;
    b2[31] = 1;
    let expected = [a, b2, b, c].concat();
    assert_eq!(sort_and_concat(&[&c, &b, &a, &b2]), expected);
    assert_eq!(sort_and_concat(&[&a, &b2, &b, &c]), expected);
    assert_eq!(sort_and_concat(&[&b2, &c, &b, &a]), expected);
    assert_eq!(sort_and_concat(&[&a, &a]), [a, a].concat());
    assert_eq!(sort_and_concat(&[]), Vec::<u8>::new());
}

// --- Hello ---

#[test]
fn clock_skew_edges() {
    for (ts, now, ok) in [
        (T, T + 60, true),
        (T, T + 61, false),
        (T, T - 60, true),
        (T, T - 61, false),
        (0, 60, true),
        (0, 61, false),
        (5, 0, true),
        (61, 0, false),
        (u64::MAX, u64::MAX - 60, true),
        (u64::MAX, u64::MAX - 61, false),
        (u64::MAX - 60, u64::MAX, true),
        (u64::MAX - 61, u64::MAX, false),
    ] {
        let (a, mut b) = fixed_pair(b"");
        let hello = a.send_hello_at(ts).unwrap();
        match b.handle_message_at(&hello, now, 0) {
            Ok(reply) => assert!(ok && reply.is_some()),
            Err(FengniError::Handshake(HandshakeError::TimestampExpired { peer_ts, local_ts })) => {
                assert!(!ok);
                assert_eq!((peer_ts, local_ts), (ts, now));
                assert_eq!(b.state(), HandshakeState::ExpectHello);
            }
            _ => panic!("another error"),
        }
    }
}

#[test]
fn send_hello_uses_the_clock() {
    let (mut a, mut b) = fixed_pair(b"");
    let before = std::time::SystemTime::now()
        .duration_since(std::time::UNIX_EPOCH)
        .unwrap()
        .as_secs();
    let raw = a.send_hello().unwrap();
    match fengni::wire::decode(&raw).unwrap().variant {
        Some(Variant::Hello(h)) => {
            assert!(before <= h.timestamp && h.timestamp <= before + 10);
            assert_eq!(
                h.ephemeral_public,
                KeyPair::from_bytes([2; 32]).public_key_bytes().to_vec()
            );
        }
        _ => panic!("not a Hello"),
    }
    // The session token carries the responder's identity and the time.
    let reply = b.handle_message(&raw).unwrap().unwrap();
    let hk = derive_key(
        &diffie_hellman(&[2; 32], &KeyPair::from_bytes([4; 32]).public_key_bytes()),
        b"fengni-v1-handshake-hello",
    )
    .unwrap();
    match fengni::wire::decode(&reply).unwrap().variant {
        Some(Variant::HelloReply(r)) => {
            let token = decrypt(&hk, &[0; 12], &r.session_token).unwrap();
            assert_eq!(token.len(), 40);
            assert_eq!(&token[..32], &KeyPair::from_bytes([3; 32]).public_key_bytes()[..]);
            let mut time = [0u8; 8];
            time.copy_from_slice(&token[32..]);
            let time = u64::from_be_bytes(time);
            assert!(before <= time && time <= before + 10);
        }
        _ => panic!("not a HelloReply"),
    }
}

#[test]
fn send_hello_into_writes_what_send_hello_returns() {
    let (mut a, _) = fixed_pair(b"");
    let raw = a.send_hello_at(T).unwrap();
    let mut buf = vec![0x77u8; raw.len() + 3];
    assert_eq!(a.send_hello_into_at(T, &mut buf).unwrap(), raw.len());
    assert_eq!(&buf[..raw.len()], &raw[..]);
    assert_eq!(&buf[raw.len()..], &[0x77u8; 3]);

    let n = a.send_hello_into(&mut buf).unwrap();
    assert_eq!(n, raw.len());
    assert!(fengni::wire::decode(&buf[..n]).is_ok());

    let mut short = vec![0x77u8; raw.len() - 1];
    match a.send_hello_into_at(T, &mut short) {
        Err(FengniError::Wire(WireError::Encode(e))) => {
            assert_eq!(e, EncodeError { required: raw.len(), remaining: raw.len() - 1 });
        }
        _ => panic!("another outcome"),
    }
    assert_eq!(short, vec![0x77u8; raw.len() - 1]);
}

#[test]
fn only_a_waiting_initiator_sends_hello() {
    let (mut a, mut b) = fixed_pair(b"");
    assert!(matches!(
        b.send_hello(),
        Err(FengniError::Handshake(HandshakeError::AlreadyCompleted))
    ));
    let mut buf = [0u8; 100];
    assert!(matches!(
        b.send_hello_into(&mut buf),
        Err(FengniError::Handshake(HandshakeError::AlreadyCompleted))
    ));
    assert_eq!(buf, [0u8; 100]);
    let hello = a.send_hello_at(T).unwrap();
    let reply = b.handle_message_at(&hello, T, T).unwrap().unwrap();
    a.handle_message_at(&reply, T, T).unwrap();
    assert!(matches!(
        a.send_hello(),
        Err(FengniError::Handshake(HandshakeError::AlreadyCompleted))
    ));
}

// --- Refusals ---

/// What a refusal says.
fn refusal(r: Result<Option<Vec<u8>>, FengniError>) -> String {
    match r {
        Err(FengniError::Handshake(HandshakeError::Malformed { context })) => {
            format!("malformed: {}", context)
        }
        Err(FengniError::Handshake(HandshakeError::IdentityRejected { reason })) => {
            format!("rejected: {}", reason)
        }
        Err(FengniError::Crypto(e)) => format!("crypto: {:?}", e),
        Err(FengniError::Wire(e)) => format!("wire: {:?}", e),
        Err(e) => format!("{:?}", e),
        Ok(_) => format!("accepted"),
    }
}

struct Keys {
    hk: [u8; 32],
    proof: [u8; 32],
    identity: [u8; 32],
    confirm: [u8; 32],
}

/// The keys of a handshake between the fixed peers, with no prologue.
fn keys() -> Keys {
    let b_static = KeyPair::from_bytes([3; 32]).public_key_bytes();
    let b_eph = KeyPair::from_bytes([4; 32]).public_key_bytes();
    let ee = diffie_hellman(&[2; 32], &b_eph);
    let es = diffie_hellman(&[2; 32], &b_static);
    let se = diffie_hellman(&[1; 32], &b_eph);
    let ss = diffie_hellman(&[1; 32], &b_static);
    let material = sort_and_concat(&[&ee, &es, &se, &ss]);
    Keys {
        hk: derive_key(&ee, b"fengni-v1-handshake-hello").unwrap(),
        proof: derive_key(&sort_and_concat(&[&ee, &se]), b"fengni-v1-auth-proof-key").unwrap(),
        identity: derive_key(&es, b"fengni-v1-auth-identity").unwrap(),
        confirm: derive_key(&material, b"fengni-v1-handshake-confirm").unwrap(),
    }
}

const ZERO: [u8; 12] = [0; 12];

#[test]
fn malformed_hello_is_refused() {
    let (_, mut b) = fixed_pair(b"");
    for len in [0usize, 31, 33, 64] {
        let raw = encode(Variant::Hello(Hello { ephemeral_public: vec![5; len], timestamp: T }));
        assert_eq!(
            refusal(b.handle_message_at(&raw, T, T)),
            "malformed: Hello.ephemeral_public"
        );
        // The time is checked first.
        assert!(matches!(
            b.handle_message_at(&raw, T + 61, T),
            Err(FengniError::Handshake(HandshakeError::TimestampExpired { .. }))
        ));
        assert_eq!(b.state(), HandshakeState::ExpectHello);
    }
}

#[test]
fn bad_hello_replies_are_refused() {
    let (mut a, _) = fixed_pair(b"");
    let state = a.state();
    let k = keys();
    let b_eph = KeyPair::from_bytes([4; 32]).public_key_bytes().to_vec();
    let b_static = KeyPair::from_bytes([3; 32]).public_key_bytes().to_vec();
    let mut reply = |ephemeral_public: Vec<u8>, session_token: Vec<u8>| {
        let raw = encode(Variant::HelloReply(HelloReply { ephemeral_public, session_token }));
        let r = refusal(a.handle_message_at(&raw, 0, 0));
        (r, a.state())
    };
    let cases = [
        (vec![1; 31], vec![], "malformed: HelloReply.ephemeral_public"),
        (b_eph.clone(), vec![0; 56], "crypto: Decrypt"),
        (b_eph.clone(), vec![], "crypto: Decrypt"),
        (
            b_eph.clone(),
            encrypt(&k.hk, &ZERO, &b_static[..31]).unwrap(),
            "malformed: session token too short",
        ),
        (
            b_eph.clone(),
            encrypt(&k.hk, &ZERO, &[9; 40]).unwrap(),
            "rejected: public key mismatch",
        ),
        (
            b_eph.clone(),
            encrypt(&k.hk, &ZERO, &[&b_static[..31], &[0u8][..]].concat()).unwrap(),
            "rejected: public key mismatch",
        ),
    ];
    for (eph, token, expected) in cases {
        let (r, after) = reply(eph, token);
        assert_eq!(r, expected);
        assert_eq!(after, state);
    }
    // A token may hold the identity alone.
    let (r, after) = reply(b_eph.clone(), encrypt(&k.hk, &ZERO, &b_static).unwrap());
    assert_eq!(r, "accepted");
    match after {
        HandshakeState::ExpectServerFinish { peer_ephemeral_public, peer_identity_public } => {
            assert_eq!(peer_ephemeral_public.to_vec(), b_eph);
            assert_eq!(peer_identity_public.to_vec(), b_static);
        }
        _ => panic!("another state"),
    }
}

#[test]
fn bad_authentications_are_refused() {
    let (a, mut b) = fixed_pair(b"");
    let hello = a.send_hello_at(T).unwrap();
    b.handle_message_at(&hello, T, T).unwrap();
    let state = b.state();
    let k = keys();
    let a_static = KeyPair::from_bytes([1; 32]).public_key_bytes();
    let proof = hmac_sha256(&k.proof, &[&a_static, b"fengni-v1-auth-proof"]).to_vec();
    let mut auth = |identity_public: Vec<u8>, proof: Vec<u8>| {
        let raw = encode(Variant::Authenticate(Authenticate { identity_public, proof }));
        let r = refusal(b.handle_message_at(&raw, 0, 0));
        (r, b.state(), b.identity().ss())
    };
    let hidden = encrypt(&k.identity, &ZERO, &a_static).unwrap();
    let mut forged = proof.clone();
    forged[31] ^= 1;
    let cases = [
        (a_static.to_vec(), proof.clone(), "rejected: identity decryption failed"),
        (vec![], proof.clone(), "rejected: identity decryption failed"),
        (
            encrypt(&k.identity, &ZERO, &a_static[..31]).unwrap(),
            proof.clone(),
            "malformed: Authenticate.identity_public",
        ),
        (hidden.clone(), proof[..31].to_vec(), "malformed: Authenticate.proof"),
        (hidden.clone(), vec![], "malformed: Authenticate.proof"),
        (hidden.clone(), forged, "rejected: HMAC proof invalid"),
        (
            encrypt(&k.identity, &ZERO, &[9; 32]).unwrap(),
            proof.clone(),
            "rejected: HMAC proof invalid",
        ),
    ];
    for (identity, proof, expected) in cases {
        let (r, after, ss) = auth(identity, proof);
        assert_eq!(r, expected);
        assert_eq!(after, state);
        assert_eq!(ss, None);
    }
    let (r, after, ss) = auth(hidden, proof);
    assert_eq!(r, "accepted");
    assert!(after.is_completed());
    assert!(ss.is_some());
}

#[test]
fn identity_without_its_secret_is_refused() {
    // An initiator with its own ephemeral key claims another's public key.
    let victim = KeyPair::from_bytes([1; 32]).public_key_bytes();
    let b_eph = KeyPair::from_bytes([4; 32]).public_key_bytes();
    let k = keys();
    let ee = diffie_hellman(&[2; 32], &b_eph);
    let with_own_ephemeral = derive_key(&sort_and_concat(&[&ee, &ee]), b"fengni-v1-auth-proof-key");
    let with_own_identity = derive_key(
        &sort_and_concat(&[&ee, &diffie_hellman(&[9; 32], &b_eph)]),
        b"fengni-v1-auth-proof-key",
    );
    for key in [k.hk, k.identity, with_own_ephemeral.unwrap(), with_own_identity.unwrap()] {
        let (a, mut b) = fixed_pair(b"");
        b.handle_message_at(&a.send_hello_at(T).unwrap(), T, T).unwrap();
        let state = b.state();
        let raw = encode(Variant::Authenticate(Authenticate {
            identity_public: encrypt(&k.identity, &ZERO, &victim).unwrap(),
            proof: hmac_sha256(&key, &[&victim, b"fengni-v1-auth-proof"]).to_vec(),
        }));
        assert_eq!(refusal(b.handle_message(&raw)), "rejected: HMAC proof invalid");
        assert_eq!(b.state(), state);
        assert!(matches!(state, HandshakeState::ExpectAuthenticate { .. }));
        assert_eq!(b.identity().ss(), None);
    }
}

#[test]
fn confirmation_without_the_pinned_secret_is_refused() {
    // A responder that only claims the pinned key lacks two of the four shares.
    let (mut a, mut b) = fixed_pair(b"");
    let reply = b.handle_message_at(&a.send_hello_at(T).unwrap(), T, T).unwrap().unwrap();
    a.handle_message_at(&reply, T, T).unwrap();
    let (a_eph, a_static) = (
        KeyPair::from_bytes([2; 32]).public_key_bytes(),
        KeyPair::from_bytes([1; 32]).public_key_bytes(),
    );
    let material = sort_and_concat(&[
        &diffie_hellman(&[4; 32], &a_eph),
        &diffie_hellman(&[9; 32], &a_eph),
        &diffie_hellman(&[4; 32], &a_static),
        &diffie_hellman(&[9; 32], &a_static),
    ]);
    let key = derive_key(&material, b"fengni-v1-handshake-confirm").unwrap();
    let payload = encrypt(&key, &ZERO, b"fengni-handshake-complete").unwrap();
    let raw = encode(Variant::ServerFinish(ServerFinish { payload }));
    assert_eq!(refusal(a.handle_message(&raw)), "rejected: ServerFinish decryption failed");
    assert!(!a.state().is_completed());
}

#[test]
fn timely_hello_with_any_key_is_answered() {
    for byte in [0u8, 1, 0x7f, 0xff] {
        let (_, mut b) = fixed_pair(b"");
        let raw = encode(Variant::Hello(Hello { ephemeral_public: vec![byte; 32], timestamp: T }));
        assert!(b.handle_message_at(&raw, T, T).unwrap().is_some());
        assert_eq!(
            b.state(),
            HandshakeState::ExpectAuthenticate { peer_ephemeral_public: [byte; 32] }
        );
    }
}

#[test]
fn bad_finishes_are_refused() {
    let (mut a, mut b) = fixed_pair(b"");
    let hello = a.send_hello_at(T).unwrap();
    let reply = b.handle_message_at(&hello, T, T).unwrap().unwrap();
    a.handle_message_at(&reply, 0, 0).unwrap();
    let state = a.state();
    assert!(!state.is_completed());
    let k = keys();
    let mut finish = |payload: Vec<u8>| {
        let raw = encode(Variant::ServerFinish(ServerFinish { payload }));
        let r = refusal(a.handle_message_at(&raw, 0, 0));
        (r, a.state())
    };
    for payload in [vec![], vec![0u8; 41]] {
        let (r, after) = finish(payload);
        assert_eq!(r, "rejected: ServerFinish decryption failed");
        assert_eq!(after, state);
    }
    for text in [&b"fengni-handshake-complet"[..], &b"fengni-handshake-completE"[..], &b""[..]] {
        let (r, after) = finish(encrypt(&k.confirm, &ZERO, text).unwrap());
        assert_eq!(r, "rejected: ServerFinish confirm failed");
        assert_eq!(after, state);
    }
    let (r, after) = finish(encrypt(&k.confirm, &ZERO, b"fengni-handshake-complete").unwrap());
    assert_eq!(r, "accepted");
    assert!(after.is_completed());
}

#[test]
fn undecodable_messages_are_refused() {
    let (mut a, mut b) = fixed_pair(b"");
    for (raw, e) in [
        (&[0x0a, 0x05][..], DecodeError::BufferUnderflow),
        (&[0xff][..], DecodeError::InvalidVarint),
    ] {
        match b.handle_message(raw) {
            Err(FengniError::Wire(WireError::Decode(found))) => assert_eq!(found, e),
            _ => panic!("another outcome"),
        }
        assert!(a.handle_message(raw).is_err());
    }
    // An empty message decodes, and is not what anyone waits for.
    assert!(matches!(
        b.handle_message(b""),
        Err(FengniError::Handshake(HandshakeError::UnexpectedMessage {
            expected: HandshakeState::ExpectHello
        }))
    ));
    assert_eq!(b.state(), HandshakeState::ExpectHello);
}

#[test]
fn every_state_refuses_messages_of_other_states() {
    let (mut a, mut b) = fixed_pair(b"");
    let hello = a.send_hello_at(T).unwrap();
    let reply = b.handle_message_at(&hello, T, T).unwrap().unwrap();
    let refuses = |hs: &mut Handshake, raw: &[u8]| {
        let state = hs.state();
        match hs.handle_message_at(raw, T, T) {
            Err(FengniError::Handshake(HandshakeError::UnexpectedMessage { expected })) => {
                assert_eq!(expected, state)
            }
            _ => panic!("another outcome"),
        }
        assert_eq!(hs.state(), state);
    };
    // The initiator waits for HelloReply, the responder for Authenticate.
    refuses(&mut a, &hello);
    refuses(&mut b, &hello);
    refuses(&mut b, &reply);
    let auth = a.handle_message_at(&reply, T, T).unwrap().unwrap();
    refuses(&mut a, &reply);
    refuses(&mut a, &auth);
    let finish = b.handle_message_at(&auth, T, T).unwrap().unwrap();
    a.handle_message_at(&finish, T, T).unwrap();
    let data = encode(Variant::DataPacket(fengni::wire::DataPacket {
        sequence: 1,
        ciphertext: vec![1],
    }));
    for raw in [&hello, &reply, &auth, &finish, &data] {
        refuses(&mut a, raw);
        refuses(&mut b, raw);
    }
}

#[test]
fn key_pairs_stay_the_same() {
    let (mut a, mut b) = fixed_pair(b"");
    let hello = a.send_hello_at(T).unwrap();
    let reply = b.handle_message_at(&hello, T, T).unwrap().unwrap();
    let auth = a.handle_message_at(&reply, T, T).unwrap().unwrap();
    let _ = a.handle_message_at(&auth, T, T);
    let finish = b.handle_message_at(&auth, T, T).unwrap().unwrap();
    a.handle_message_at(&finish, T, T).unwrap();
    assert_eq!(*a.identity().secret(), [1; 32]);
    assert_eq!(*b.identity().secret(), [3; 32]);
    assert_eq!(
        a.identity().public_key_bytes(),
        KeyPair::from_bytes([1; 32]).public_key_bytes()
    );
}

#[test]
fn wrong_responder_is_told_apart_by_its_key() {
    let (mut a, _) = fixed_pair(b"");
    let mut m = HandshakeBuilder::responder(KeyPair::from_bytes([8; 32])).build();
    let hello = a.send_hello_at(T).unwrap();
    let reply = m.handle_message_at(&hello, T, T).unwrap().unwrap();
    let before = a.state();
    assert_eq!(refusal(a.handle_message(&reply)), "rejected: public key mismatch");
    assert_eq!(a.state(), before);
}

#[test]
fn prologue_mismatch_is_a_decryption_failure() {
    let (mut a, _) = fixed_pair(b"alice-v1");
    let (_, mut b) = fixed_pair(b"bob-v1");
    let hello = a.send_hello_at(T).unwrap();
    let reply = b.handle_message_at(&hello, T, T).unwrap().unwrap();
    assert!(matches!(
        a.handle_message(&reply),
        Err(FengniError::Crypto(CryptoError::Decrypt))
    ));
}

#[test]
fn errors_convert() {
    assert!(matches!(
        FengniError::from(CryptoError::Decrypt),
        FengniError::Crypto(CryptoError::Decrypt)
    ));
    assert!(matches!(
        FengniError::from(HandshakeError::AlreadyCompleted),
        FengniError::Handshake(HandshakeError::AlreadyCompleted)
    ));
    assert!(matches!(
        FengniError::from(WireError::from(DecodeError::InvalidTag)),
        FengniError::Wire(WireError::Decode(DecodeError::InvalidTag))
    ));
    assert!(matches!(
        FengniError::from(DecodeError::InvalidKey),
        FengniError::Wire(WireError::Decode(DecodeError::InvalidKey))
    ));
    let e = EncodeError { required: 2, remaining: 1 };
    assert_eq!(WireError::from(e), WireError::Encode(e));
    assert!(matches!(FengniError::from(e), FengniError::Wire(WireError::Encode(_))));
}

#[test]
fn labels_and_prologues_separate_keys_in_use() {
    let mut keys: Vec<[u8; 32]> = Vec::new();
    for prologue in [&b""[..], &b"a"[..], &b"b"[..]] {
        for label in [
            &b"fengni-v1-handshake-hello"[..],
            &b"fengni-v1-transport-send"[..],
            &b"fengni-v1-transport-recv"[..],
            &b"fengni-v1-handshake-confirm"[..],
            &b"fengni-v1-auth-identity"[..],
            &b"fengni-v1-auth-proof-key"[..],
        ] {
            let key = derive_key(&[7; 32], &[prologue, label].concat()).unwrap();
            assert!(!keys.contains(&key));
            keys.push(key);
        }
    }
}
