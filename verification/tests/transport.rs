//! The data channel after a handshake.

use fengni::crypto::{CipherState, CipherStates};
use fengni::error::CryptoError;
use fengni::transport::TransportState;

/// Two peers with mirrored keys.
fn pair() -> (TransportState, TransportState) {
    let (k1, k2) = ([0x11u8; 32], [0x22u8; 32]);
    (
        TransportState::new(CipherStates {
            send: CipherState::new(&k1),
            recv: CipherState::new(&k2),
        }),
        TransportState::new(CipherStates {
            send: CipherState::new(&k2),
            recv: CipherState::new(&k1),
        }),
    )
}

#[test]
fn packets_arrive_in_order_and_rekey_together() {
    let (mut a, mut b) = pair();
    for round in 0..3u8 {
        for i in 0..50u8 {
            let text = vec![round; i as usize];
            assert_eq!(b.recv(&a.send(&text).unwrap()).unwrap(), text);
            assert_eq!(a.recv(&b.send(&text).unwrap()).unwrap(), text);
        }
        a.rekey_send().unwrap();
        b.rekey_recv().unwrap();
        b.rekey_send().unwrap();
        a.rekey_recv().unwrap();
    }
    assert_eq!(a.auth_failures(), 0);
}

#[test]
fn one_sided_rekey_breaks_the_stream() {
    let (mut a, mut b) = pair();
    a.rekey_send().unwrap();
    let ct = a.send(b"x").unwrap();
    assert_eq!(b.recv(&ct), Err(CryptoError::Decrypt));
    b.rekey_recv().unwrap();
    assert_eq!(b.recv(&ct), Ok(b"x".to_vec()));
    // The failures of the old key stay counted.
    assert_eq!(b.auth_failures(), 1);
}

#[test]
fn rekey_starts_the_replay_window_anew() {
    let (mut a, mut b) = pair();
    let ct = a.send_with_nonce(5000, b"far ahead").unwrap();
    assert_eq!(b.recv_with_nonce(5000, &ct), Ok(b"far ahead".to_vec()));
    // The stream itself is now too old for the window.
    let ct = a.send(b"first").unwrap();
    assert_eq!(b.recv(&ct), Err(CryptoError::Encrypt));
    assert_eq!(b.auth_failures(), 0);
    a.rekey_send().unwrap();
    b.rekey_recv().unwrap();
    let ct = a.send(b"after").unwrap();
    assert_eq!(b.recv(&ct), Ok(b"after".to_vec()));
}

#[test]
fn zero_copy_and_plain_calls_agree() {
    let (mut a, mut b) = pair();
    let (mut a2, mut b2) = pair();
    let text = b"the same stream";
    let ct = a.send(text).unwrap();
    let mut buf = vec![0xEEu8; ct.len() + 2];
    assert_eq!(a2.send_into(text, &mut buf), Ok(ct.len()));
    assert_eq!(&buf[..ct.len()], &ct[..]);
    assert_eq!(&buf[ct.len()..], &[0xEE, 0xEE]);

    let pt = b.recv(&ct).unwrap();
    let mut out = vec![0xDDu8; pt.len() + 1];
    assert_eq!(b2.recv_into(&ct, &mut out), Ok(pt.len()));
    assert_eq!(&out[..pt.len()], &pt[..]);
    assert_eq!(out[pt.len()], 0xDD);

    assert_eq!(a.send_with_nonce(9, text), {
        let n = a2.send_into_with_nonce(9, text, &mut buf).unwrap();
        Ok(buf[..n].to_vec())
    });
    let ct = a.send_with_nonce(9, text).unwrap();
    assert_eq!(b.recv_with_nonce(9, &ct), Ok(text.to_vec()));
    assert_eq!(b2.recv_into_with_nonce(9, &ct, &mut out), Ok(text.len()));
    assert_eq!(&out[..text.len()], text);
    assert_eq!(b.recv_with_nonce(9, &ct), Err(CryptoError::NonceReplayed));
    assert_eq!(b2.recv_into_with_nonce(9, &ct, &mut out), Err(CryptoError::NonceReplayed));
}

#[test]
fn a_packet_that_was_received_is_a_replay() {
    let (a, mut b) = pair();
    let ct = a.send_with_nonce(7, b"once").unwrap();
    assert_eq!(b.recv_with_nonce(7, &ct), Ok(b"once".to_vec()));
    assert_eq!(b.recv_with_nonce(7, &ct), Err(CryptoError::NonceReplayed));
    // Whatever the bytes: the check comes before decryption, and is not counted.
    assert_eq!(b.recv_with_nonce(7, b"garbage"), Err(CryptoError::NonceReplayed));
    assert_eq!(b.auth_failures(), 0);
    let ct = a.send_with_nonce(2000, b"later").unwrap();
    assert_eq!(b.recv_with_nonce(2000, &ct), Ok(b"later".to_vec()));
    assert_eq!(b.recv_with_nonce(7, b"garbage"), Err(CryptoError::Encrypt));
}

#[test]
fn a_short_buffer_refuses_a_packet_without_marking_it() {
    let (a, mut b) = pair();
    let ct = a.send_with_nonce(7, b"genuine").unwrap();
    let mut short = [9u8; 6];
    assert_eq!(b.recv_into_with_nonce(7, &ct, &mut short), Err(CryptoError::Decrypt));
    assert_eq!(short, [9u8; 6]);
    assert_eq!(b.auth_failures(), 1);
    let mut out = [0u8; 7];
    assert_eq!(b.recv_into_with_nonce(7, &ct, &mut out), Ok(7));
    assert_eq!(&out, b"genuine");
    // From now on the nonce is taken, with a buffer or without.
    assert_eq!(b.recv_into_with_nonce(7, &ct, &mut out), Err(CryptoError::NonceReplayed));
    assert_eq!(b.recv_with_nonce(7, &ct), Err(CryptoError::NonceReplayed));
    assert_eq!(b.auth_failures(), 1);
}

#[test]
fn explicit_nonces_may_arrive_out_of_order() {
    let (a, mut b) = pair();
    for n in [3u64, 1, 1000, 0, 2, 999, 1023] {
        let ct = a.send_with_nonce(n, &n.to_be_bytes()).unwrap();
        assert_eq!(b.recv_with_nonce(n, &ct), Ok(n.to_be_bytes().to_vec()));
        assert_eq!(b.recv_with_nonce(n, &ct), Err(CryptoError::NonceReplayed));
    }
}

#[test]
fn explicit_nonces_leave_the_counter_alone() {
    let (mut a, mut b) = pair();
    let ct = a.send_with_nonce(0, b"by hand").unwrap();
    let same = a.send(b"by hand").unwrap();
    assert_eq!(ct, same);
    // The window is shared: nonce 0 is taken for the stream too.
    assert_eq!(b.recv_with_nonce(0, &ct), Ok(b"by hand".to_vec()));
    assert_eq!(b.recv(&same), Err(CryptoError::NonceReplayed));
    let mut out = [0u8; 7];
    assert_eq!(b.recv_into(&same, &mut out), Err(CryptoError::NonceReplayed));
    assert_eq!(out, [0u8; 7]);
}

#[test]
fn failures_are_counted_and_change_nothing_else() {
    let (mut a, mut b) = pair();
    let ct = a.send(b"hello").unwrap();
    let mut bad = ct.clone();
    bad[0] ^= 1;
    let mut out = [0u8; 64];
    assert_eq!(b.recv(&bad), Err(CryptoError::Decrypt));
    assert_eq!(b.recv_into(&bad, &mut out), Err(CryptoError::Decrypt));
    assert_eq!(b.recv_with_nonce(0, &bad), Err(CryptoError::Decrypt));
    assert_eq!(b.recv_into_with_nonce(0, &bad, &mut out), Err(CryptoError::Decrypt));
    assert_eq!(b.recv_with_nonce(u64::MAX, &ct), Err(CryptoError::Encrypt));
    assert_eq!(b.auth_failures(), 5);
    assert_eq!(b.recv(&ct), Ok(b"hello".to_vec()));
    assert_eq!(b.auth_failures(), 5);
}

#[test]
fn a_transport_without_keys_refuses() {
    let mut t = TransportState::new(CipherStates {
        send: CipherState::empty(),
        recv: CipherState::empty(),
    });
    assert_eq!(t.send(b"x"), Err(CryptoError::Encrypt));
    assert_eq!(t.recv(&[0; 32]), Err(CryptoError::Decrypt));
    assert_eq!(t.rekey_send(), Err(CryptoError::Encrypt));
    assert_eq!(t.rekey_recv(), Err(CryptoError::Encrypt));
    assert_eq!(t.auth_failures(), 1);
}

#[test]
fn halves_work_apart() {
    let (a, b) = pair();
    let (mut send, _) = a.into_halves();
    let (_, mut receive) = b.into_halves();
    let ct = send.encrypt(b"apart").unwrap();
    assert_eq!(receive.recv(&ct), Ok(b"apart".to_vec()));
    let ct = send.encrypt(b"again").unwrap();
    let mut out = [0u8; 5];
    assert_eq!(receive.recv_into(&ct, &mut out), Ok(5));
    assert_eq!(&out, b"again");
    assert_eq!(receive.recv_with_nonce(1, &ct), Err(CryptoError::NonceReplayed));
    assert_eq!(receive.recv_into_with_nonce(1, &ct, &mut out), Err(CryptoError::NonceReplayed));
    assert_eq!(receive.recv(b"bad"), Err(CryptoError::Decrypt));
    assert_eq!(receive.auth_failures(), 1);
    send.rekey().unwrap();
    receive.rekey().unwrap();
    let ct = send.encrypt(b"new key").unwrap();
    assert_eq!(receive.recv(&ct), Ok(b"new key".to_vec()));
}
