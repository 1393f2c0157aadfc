//! Transport state for the Fengni protocol.
//!
//! After a successful handshake,
//! [`Handshake::into_transport()`](crate::Handshake::into_transport) consumes
//! the handshake and returns a `TransportState`. This state holds independent
//! send and receive keys with automatic nonce management and replay protection.
//!
//! # AEAD Safety
//!
//! Each key has confidentiality and integrity limits:
//! - [`TransportState::confidentiality_limit()`] — max safe encryptions per key
//! - [`TransportState::integrity_limit()`] — max failed decryptions before key
//!   retirement
//!
//! Callers should monitor decryption failures and close the connection when
//! the integrity limit is approached.

use crate::bytes;
use crate::cipher::{CipherState, CipherStates, CipherView};
use crate::crypto::TAG_LEN;
use crate::error::CryptoError;
use crate::replay::{ReplayValidator, ReplayView};
use vstd::prelude::*;

verus! {

/// The receiving half of a transport: the key, the replay window and the count
/// of failed decryptions.
pub struct ReceiveState {
    cipher: CipherState,
    /// Bitmap-based replay protection for received packets.
    replay: ReplayValidator,
    /// Count of failed decryption attempts (for integrity limit tracking).
    auth_failures: u64,
}

/// The transport state after a successful handshake.
///
/// Holds independent `send` and `recv` [`CipherState`]s with automatic
/// nonce tracking, replay protection, and AEAD safety boundary monitoring.
///
/// - Alice's `send` key = Bob's `recv` key
/// - Alice's `recv` key = Bob's `send` key
///
/// The two halves share nothing: [`TransportState::into_halves`] hands them out
/// for callers that send and receive concurrently.
pub struct TransportState {
    send: CipherState,
    receive: ReceiveState,
}

/// What a [`ReceiveState`] holds.
pub struct ReceiveView {
    pub cipher: CipherView,
    pub replay: ReplayView,
    pub auth_failures: u64,
}

/// What a [`TransportState`] holds.
pub struct TransportView {
    pub send: CipherView,
    pub receive: ReceiveView,
}

impl ReceiveView {
    /// The receiving half with a given key state, before any packet.
    pub open spec fn fresh(cipher: CipherView) -> ReceiveView {
        ReceiveView { cipher, replay: ReplayView::fresh(), auth_failures: 0 }
    }

    /// What a packet under the nonce `nonce` yields: the replay check comes
    /// first, then decryption.
    pub open spec fn opened(self, nonce: u64, ciphertext: Seq<u8>) -> Result<
        Seq<u8>,
        CryptoError,
    > {
        match self.replay.verdict(nonce as int) {
            Err(e) => Err(e),
            Ok(_) => self.cipher.opened(nonce, ciphertext),
        }
    }

    /// What a packet under the nonce `nonce` yields with a buffer for the
    /// plaintext, and the buffer after it.
    pub open spec fn opened_into(self, nonce: u64, ciphertext: Seq<u8>, out: Seq<u8>) -> (
        Result<nat, CryptoError>,
        Seq<u8>,
    ) {
        match self.replay.verdict(nonce as int) {
            Err(e) => (Err(e), out),
            Ok(_) => self.cipher.opened_into(nonce, ciphertext, out),
        }
    }

    /// The state after a packet under an explicit nonce. A packet that the
    /// replay check refuses changes nothing; one that does not decrypt is
    /// counted (the count wraps at its limit); one that does is remembered.
    pub open spec fn after(self, nonce: u64, success: bool) -> ReceiveView {
        if self.replay.verdict(nonce as int) is Err {
            self
        } else if success {
            ReceiveView { replay: self.replay.marked(nonce as int), ..self }
        } else {
            ReceiveView {
                auth_failures: if self.auth_failures == u64::MAX {
                    0
                } else {
                    (self.auth_failures + 1) as u64
                },
                ..self
            }
        }
    }

    /// The state after a packet under the current nonce, which moves on where
    /// the packet decrypts.
    pub open spec fn after_next(self, success: bool) -> ReceiveView {
        ReceiveView { cipher: self.cipher.after(success), ..self.after(self.cipher.n, success) }
    }

    /// The state after a rekey. The nonce starts again at 0, so the replay
    /// window does too.
    pub open spec fn rekeyed(self) -> ReceiveView {
        if self.cipher.has_key {
            ReceiveView { cipher: self.cipher.rekeyed(), replay: ReplayView::fresh(), ..self }
        } else {
            self
        }
    }
}

impl View for ReceiveState {
    type V = ReceiveView;

    closed spec fn view(&self) -> ReceiveView {
        ReceiveView {
            cipher: self.cipher@,
            replay: self.replay@,
            auth_failures: self.auth_failures,
        }
    }
}

impl View for TransportState {
    type V = TransportView;

    closed spec fn view(&self) -> TransportView {
        TransportView { send: self.send@, receive: self.receive@ }
    }
}

impl ReceiveState {
    /// Create the receiving half for a cipher state.
    pub fn new(cipher: CipherState) -> (r: Self)
        ensures
            r@ == ReceiveView::fresh(cipher@),
    {
        Self { cipher, replay: ReplayValidator::new(), auth_failures: 0 }
    }

    /// Every receiving half remembers nonces of its replay window only.
    pub proof fn remembers_window_only(&self)
        ensures
            self@.replay.wf(),
    {
        self.replay.remembers_window_only();
    }

    /// Returns the current number of authentication (decryption) failures.
    pub fn auth_failures(&self) -> (n: u64)
        ensures
            n == self@.auth_failures,
    {
        self.auth_failures
    }

    /// Counts a failed decryption.
    fn count_failure(&mut self)
        ensures
            final(self)@ == (ReceiveView {
                auth_failures: if old(self)@.auth_failures == u64::MAX {
                    0
                } else {
                    (old(self)@.auth_failures + 1) as u64
                },
                ..old(self)@
            }),
    {
        self.auth_failures = self.auth_failures.wrapping_add(1);
    }

    /// Decrypt `ciphertext` with the current nonce. See
    /// [`TransportState::recv`].
    pub fn recv(&mut self, ciphertext: &[u8]) -> (r: Result<Vec<u8>, CryptoError>)
        ensures
            bytes::vec_result(r) == old(self)@.opened(old(self)@.cipher.n, ciphertext@),
            final(self)@ == old(self)@.after_next(r is Ok),
            r matches Ok(pt) ==> pt@.len() + TAG_LEN == ciphertext@.len(),
            r matches Ok(pt) ==> old(self)@.cipher.sealed(old(self)@.cipher.n, pt@) == Ok::<
                _,
                CryptoError,
            >(ciphertext@),
    {
        let nonce: u64 = self.cipher.nonce();
        match self.replay.will_accept(nonce) {
            Err(e) => return Err(e),
            Ok(_) => {},
        }
        match self.cipher.decrypt(ciphertext) {
            Ok(pt) => {
                self.replay.mark_did_receive(nonce);
                Ok(pt)
            },
            Err(e) => {
                self.count_failure();
                Err(e)
            },
        }
    }

    /// Decrypt `ciphertext` into a caller-provided buffer with the current
    /// nonce. See [`TransportState::recv_into`].
    pub fn recv_into(&mut self, ciphertext: &[u8], out: &mut [u8]) -> (r: Result<
        usize,
        CryptoError,
    >)
        ensures
            (bytes::len_result(r), final(out)@) == old(self)@.opened_into(
                old(self)@.cipher.n,
                ciphertext@,
                old(out)@,
            ),
            final(self)@ == old(self)@.after_next(r is Ok),
            r matches Ok(n) ==> n + TAG_LEN == ciphertext@.len(),
            r matches Ok(n) ==> old(self)@.cipher.sealed(
                old(self)@.cipher.n,
                final(out)@.take(n as int),
            ) == Ok::<_, CryptoError>(ciphertext@),
    {
        let nonce: u64 = self.cipher.nonce();
        match self.replay.will_accept(nonce) {
            Err(e) => return Err(e),
            Ok(_) => {},
        }
        match self.cipher.decrypt_into(ciphertext, out) {
            Ok(written) => {
                self.replay.mark_did_receive(nonce);
                Ok(written)
            },
            Err(e) => {
                self.count_failure();
                Err(e)
            },
        }
    }

    /// Decrypt with an explicit nonce. See
    /// [`TransportState::recv_with_nonce`].
    pub fn recv_with_nonce(&mut self, nonce: u64, ciphertext: &[u8]) -> (r: Result<
        Vec<u8>,
        CryptoError,
    >)
        ensures
            bytes::vec_result(r) == old(self)@.opened(nonce, ciphertext@),
            final(self)@ == old(self)@.after(nonce, r is Ok),
            r matches Ok(pt) ==> pt@.len() + TAG_LEN == ciphertext@.len(),
            r matches Ok(pt) ==> old(self)@.cipher.sealed(nonce, pt@) == Ok::<
                _,
                CryptoError,
            >(ciphertext@),
    {
        match self.replay.will_accept(nonce) {
            Err(e) => return Err(e),
            Ok(_) => {},
        }
        match self.cipher.decrypt_with_nonce(nonce, ciphertext) {
            Ok(pt) => {
                self.replay.mark_did_receive(nonce);
                Ok(pt)
            },
            Err(e) => {
                self.count_failure();
                Err(e)
            },
        }
    }

    /// Zero-copy decrypt with an explicit nonce. See
    /// [`TransportState::recv_into_with_nonce`].
    pub fn recv_into_with_nonce(&mut self, nonce: u64, ciphertext: &[u8], out: &mut [u8]) -> (r:
        Result<usize, CryptoError>)
        ensures
            (bytes::len_result(r), final(out)@) == old(self)@.opened_into(
                nonce,
                ciphertext@,
                old(out)@,
            ),
            final(self)@ == old(self)@.after(nonce, r is Ok),
            r matches Ok(n) ==> n + TAG_LEN == ciphertext@.len(),
            r matches Ok(n) ==> old(self)@.cipher.sealed(
                nonce,
                final(out)@.take(n as int),
            ) == Ok::<_, CryptoError>(ciphertext@),
    {
        match self.replay.will_accept(nonce) {
            Err(e) => return Err(e),
            Ok(_) => {},
        }
        match self.cipher.decrypt_into_with_nonce(nonce, ciphertext, out) {
            Ok(written) => {
                self.replay.mark_did_receive(nonce);
                Ok(written)
            },
            Err(e) => {
                self.count_failure();
                Err(e)
            },
        }
    }

    /// Rekey, and start the replay window anew. See
    /// [`TransportState::rekey_recv`].
    pub fn rekey(&mut self) -> (r: Result<(), CryptoError>)
        ensures
            r == (if old(self)@.cipher.has_key {
                Ok(())
            } else {
                Err::<(), _>(CryptoError::Encrypt)
            }),
            final(self)@ == old(self)@.rekeyed(),
    {
        match self.cipher.rekey() {
            Err(e) => Err(e),
            Ok(_) => {
                self.replay = ReplayValidator::new();
                Ok(())
            },
        }
    }
}

impl TransportState {
    /// Create a new TransportState from pre-derived CipherStates.
    pub fn new(keys: CipherStates) -> (r: Self)
        ensures
            r@ == (TransportView { send: keys.send@, receive: ReceiveView::fresh(keys.recv@) }),
    {
        Self { send: keys.send, receive: ReceiveState::new(keys.recv) }
    }

    /// Split into the sending and the receiving half.
    pub fn into_halves(self) -> (r: (CipherState, ReceiveState))
        ensures
            r.0@ == self@.send,
            r.1@ == self@.receive,
    {
        (self.send, self.receive)
    }

    /// Every transport remembers nonces of its replay window only.
    pub proof fn remembers_window_only(&self)
        ensures
            self@.receive.replay.wf(),
    {
        self.receive.remembers_window_only();
    }

    // --- Limits ---

    /// Maximum safe encryptions under a single send key.
    ///
    /// For ChaCha20-Poly1305 with sequential nonces this is `u64::MAX`.
    /// Call [`rekey_send`](Self::rekey_send) before approaching this limit.
    pub fn confidentiality_limit() -> (limit: u64)
        ensures
            limit == u64::MAX,
    {
        CipherState::confidentiality_limit()
    }

    /// Maximum failed decryptions before the receive key MUST be retired.
    ///
    /// After exceeding this limit, discard the transport and re-handshake.
    pub fn integrity_limit() -> (limit: u64)
        ensures
            limit == 68_719_476_736,
    {
        CipherState::integrity_limit()
    }

    /// Returns the current number of authentication (decryption) failures.
    pub fn auth_failures(&self) -> (n: u64)
        ensures
            n == self@.receive.auth_failures,
    {
        self.receive.auth_failures()
    }

    // --- Encrypt/Decrypt ---

    /// Encrypt `plaintext` for the peer using the send key.
    ///
    /// Returns ciphertext with authentication tag appended.
    /// Automatically increments the send nonce.
    ///
    /// # Errors
    ///
    /// Returns `CryptoError::Encrypt` if the nonce counter has
    /// reached the maximum value. Call [`rekey_send`](Self::rekey_send) to rotate.
    pub fn send(&mut self, plaintext: &[u8]) -> (r: Result<Vec<u8>, CryptoError>)
        ensures
            bytes::vec_result(r) == old(self)@.send.sealed(old(self)@.send.n, plaintext@),
            final(self)@ == (TransportView {
                send: old(self)@.send.after(r is Ok),
                receive: old(self)@.receive,
            }),
            r matches Ok(ct) ==> ct@.len() == plaintext@.len() + TAG_LEN,
            r matches Ok(ct) ==> old(self)@.send.opened(old(self)@.send.n, ct@) == Ok::<
                _,
                CryptoError,
            >(plaintext@),
    {
        self.send.encrypt(plaintext)
    }

    /// Decrypt `ciphertext` from the peer using the recv key.
    ///
    /// Checks for replay before decrypting, and marks the nonce as received
    /// after successful decryption. Returns the plaintext.
    ///
    /// # Errors
    ///
    /// - `CryptoError::NonceReplayed` if the nonce has already been seen
    ///   (duplicate packet or replay attack).
    /// - `CryptoError::Decrypt` if authentication fails — increments the
    ///   `auth_failures` counter. If this exceeds
    ///   [`integrity_limit()`](Self::integrity_limit), the key should be retired.
    /// - `CryptoError::Encrypt` if the nonce counter has reached the
    ///   maximum value (this variant is reused for "too old" nonces).
    pub fn recv(&mut self, ciphertext: &[u8]) -> (r: Result<Vec<u8>, CryptoError>)
        ensures
            bytes::vec_result(r) == old(self)@.receive.opened(
                old(self)@.receive.cipher.n,
                ciphertext@,
            ),
            final(self)@ == (TransportView {
                send: old(self)@.send,
                receive: old(self)@.receive.after_next(r is Ok),
            }),
            r matches Ok(pt) ==> pt@.len() + TAG_LEN == ciphertext@.len(),
            r matches Ok(pt) ==> old(self)@.receive.cipher.sealed(old(self)@.receive.cipher.n, pt@) == Ok::<
                _,
                CryptoError,
            >(ciphertext@),
    {
        self.receive.recv(ciphertext)
    }

    /// Encrypt `plaintext` into a caller-provided buffer (zero-copy).
    ///
    /// Writes ciphertext + tag into `out`, returns bytes written.
    /// Fails unless `out.len() >= plaintext.len() + TAG_LEN`.
    pub fn send_into(&mut self, plaintext: &[u8], out: &mut [u8]) -> (r: Result<usize, CryptoError>)
        ensures
            (bytes::len_result(r), final(out)@) == old(self)@.send.sealed_into(
                old(self)@.send.n,
                plaintext@,
                old(out)@,
            ),
            final(self)@ == (TransportView {
                send: old(self)@.send.after(r is Ok),
                receive: old(self)@.receive,
            }),
            r matches Ok(n) ==> n == plaintext@.len() + TAG_LEN,
            r matches Ok(n) ==> old(self)@.send.opened(
                old(self)@.send.n,
                final(out)@.take(n as int),
            ) == Ok::<_, CryptoError>(plaintext@),
    {
        self.send.encrypt_into(plaintext, out)
    }

    /// Decrypt `ciphertext` into a caller-provided buffer (zero-copy).
    ///
    /// Checks replay before decrypting. Writes plaintext into `out`,
    /// returns bytes written.
    /// Fails unless `out.len() >= ciphertext.len() - TAG_LEN`.
    ///
    /// # Errors
    ///
    /// - `CryptoError::NonceReplayed` — duplicate nonce detected.
    /// - `CryptoError::Decrypt` — authentication failure.
    pub fn recv_into(&mut self, ciphertext: &[u8], out: &mut [u8]) -> (r: Result<
        usize,
        CryptoError,
    >)
        ensures
            (bytes::len_result(r), final(out)@) == old(self)@.receive.opened_into(
                old(self)@.receive.cipher.n,
                ciphertext@,
                old(out)@,
            ),
            final(self)@ == (TransportView {
                send: old(self)@.send,
                receive: old(self)@.receive.after_next(r is Ok),
            }),
            r matches Ok(n) ==> n + TAG_LEN == ciphertext@.len(),
            r matches Ok(n) ==> old(self)@.receive.cipher.sealed(
                old(self)@.receive.cipher.n,
                final(out)@.take(n as int),
            ) == Ok::<_, CryptoError>(ciphertext@),
    {
        self.receive.recv_into(ciphertext, out)
    }

    /// Explicitly rekey the send cipher state.
    ///
    /// Advances to a new send key. See [`CipherState::rekey`].
    pub fn rekey_send(&mut self) -> (r: Result<(), CryptoError>)
        ensures
            r == (if old(self)@.send.has_key {
                Ok(())
            } else {
                Err::<(), _>(CryptoError::Encrypt)
            }),
            final(self)@ == (TransportView {
                send: old(self)@.send.rekeyed(),
                receive: old(self)@.receive,
            }),
    {
        self.send.rekey()
    }

    /// Explicitly rekey the receive cipher state.
    ///
    /// Resets the ReplayValidator alongside the key. This is necessary because
    /// rekeying resets the nonce to 0, so the old validator window (which tracks
    /// high nonces) would reject all new legitimate messages as "too old."
    pub fn rekey_recv(&mut self) -> (r: Result<(), CryptoError>)
        ensures
            r == (if old(self)@.receive.cipher.has_key {
                Ok(())
            } else {
                Err::<(), _>(CryptoError::Encrypt)
            }),
            final(self)@ == (TransportView {
                send: old(self)@.send,
                receive: old(self)@.receive.rekeyed(),
            }),
    {
        self.receive.rekey()
    }

    // --- Stateless methods (caller manages nonce) ---

    /// Encrypt with an explicit nonce (does not touch the internal counter).
    ///
    /// The caller is responsible for nonce uniqueness. Use for session
    /// serialization, connection migration, or multi-threaded encryption
    /// where the caller partitions the nonce space.
    pub fn send_with_nonce(&self, nonce: u64, plaintext: &[u8]) -> (r: Result<Vec<u8>, CryptoError>)
        ensures
            bytes::vec_result(r) == self@.send.sealed(nonce, plaintext@),
            r matches Ok(ct) ==> ct@.len() == plaintext@.len() + TAG_LEN,
            r matches Ok(ct) ==> self@.send.opened(nonce, ct@) == Ok::<_, CryptoError>(plaintext@),
    {
        self.send.encrypt_with_nonce(nonce, plaintext)
    }

    /// Zero-copy encrypt with an explicit nonce.
    pub fn send_into_with_nonce(&self, nonce: u64, plaintext: &[u8], out: &mut [u8]) -> (r: Result<
        usize,
        CryptoError,
    >)
        ensures
            (bytes::len_result(r), final(out)@) == self@.send.sealed_into(
                nonce,
                plaintext@,
                old(out)@,
            ),
            r matches Ok(n) ==> n == plaintext@.len() + TAG_LEN,
            r matches Ok(n) ==> self@.send.opened(nonce, final(out)@.take(n as int)) == Ok::<
                _,
                CryptoError,
            >(plaintext@),
    {
        self.send.encrypt_into_with_nonce(nonce, plaintext, out)
    }

    /// Decrypt with an explicit nonce (does not touch the internal counter).
    ///
    /// Includes replay protection against the provided nonce. The replay window
    /// is shared across all `recv*` methods of the same `TransportState`.
    pub fn recv_with_nonce(&mut self, nonce: u64, ciphertext: &[u8]) -> (r: Result<
        Vec<u8>,
        CryptoError,
    >)
        ensures
            bytes::vec_result(r) == old(self)@.receive.opened(nonce, ciphertext@),
            final(self)@ == (TransportView {
                send: old(self)@.send,
                receive: old(self)@.receive.after(nonce, r is Ok),
            }),
            r matches Ok(pt) ==> pt@.len() + TAG_LEN == ciphertext@.len(),
            r matches Ok(pt) ==> old(self)@.receive.cipher.sealed(nonce, pt@) == Ok::<
                _,
                CryptoError,
            >(ciphertext@),
    {
        self.receive.recv_with_nonce(nonce, ciphertext)
    }

    /// Zero-copy decrypt with an explicit nonce.
    ///
    /// Includes replay protection against the provided nonce. The replay window
    /// is shared across all `recv*` methods of the same `TransportState`.
    pub fn recv_into_with_nonce(&mut self, nonce: u64, ciphertext: &[u8], out: &mut [u8]) -> (r:
        Result<usize, CryptoError>)
        ensures
            (bytes::len_result(r), final(out)@) == old(self)@.receive.opened_into(
                nonce,
                ciphertext@,
                old(out)@,
            ),
            final(self)@ == (TransportView {
                send: old(self)@.send,
                receive: old(self)@.receive.after(nonce, r is Ok),
            }),
            r matches Ok(n) ==> n + TAG_LEN == ciphertext@.len(),
            r matches Ok(n) ==> old(self)@.receive.cipher.sealed(
                nonce,
                final(out)@.take(n as int),
            ) == Ok::<_, CryptoError>(ciphertext@),
    {
        self.receive.recv_into_with_nonce(nonce, ciphertext, out)
    }
}

} // verus!
