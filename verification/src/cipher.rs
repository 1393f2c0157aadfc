//! Stateful encryption with automatic nonce management.

use crate::bytes;
use crate::crypto::{
    self, CONFIDENTIALITY_LIMIT, INTEGRITY_LIMIT, NONCE_LEN, SYMMETRIC_KEY_LEN, TAG_LEN,
};
use crate::error::CryptoError;
use crate::primitives;
use vstd::prelude::*;

verus! {

/// A stateful authenticated encryption key with automatic nonce management.
///
/// Wraps a ChaCha20-Poly1305 key with a monotonic nonce counter. Nonce `u64::MAX`
/// is reserved for `rekey()`, as in the Noise protocol framework.
pub struct CipherState {
    key: [u8; SYMMETRIC_KEY_LEN],
    n: u64,
    has_key: bool,
}

/// A pair of CipherStates for bidirectional communication.
pub struct CipherStates {
    /// Key for encrypting data we send.
    pub send: CipherState,
    /// Key for decrypting data we receive.
    pub recv: CipherState,
}

/// A [`CipherState`] with its key as a sequence.
pub struct CipherView {
    pub key: Seq<u8>,
    pub n: u64,
    pub has_key: bool,
}

/// `len` zero bytes.
pub open spec fn zeros(len: nat) -> Seq<u8> {
    Seq::new(len, |i: int| 0u8)
}

/// The 12-byte nonce of a counter: four zero bytes, then the counter in
/// little-endian order.
pub open spec fn nonce_bytes(n: u64) -> Seq<u8> {
    zeros(4) + bytes::le_bytes(n)
}

impl CipherView {
    /// A state with the given key and the nonce at 0.
    pub open spec fn keyed(key: Seq<u8>) -> CipherView {
        CipherView { key, n: 0, has_key: true }
    }

    /// What encryption under the nonce `n` yields.
    pub open spec fn sealed(self, n: u64, plaintext: Seq<u8>) -> Result<Seq<u8>, CryptoError> {
        if !self.has_key || n == u64::MAX {
            Err(CryptoError::Encrypt)
        } else {
            crypto::sealed(self.key, nonce_bytes(n), plaintext)
        }
    }

    /// What decryption under the nonce `n` yields.
    pub open spec fn opened(self, n: u64, ciphertext: Seq<u8>) -> Result<Seq<u8>, CryptoError> {
        if !self.has_key {
            Err(CryptoError::Decrypt)
        } else if n == u64::MAX {
            Err(CryptoError::Encrypt)
        } else {
            crypto::opened(self.key, nonce_bytes(n), ciphertext)
        }
    }

    /// What encryption into a buffer under the nonce `n` yields, and the buffer
    /// after it.
    pub open spec fn sealed_into(self, n: u64, plaintext: Seq<u8>, out: Seq<u8>) -> (
        Result<nat, CryptoError>,
        Seq<u8>,
    ) {
        if !self.has_key || n == u64::MAX {
            (Err(CryptoError::Encrypt), out)
        } else {
            crypto::sealed_into(self.key, nonce_bytes(n), plaintext, out)
        }
    }

    /// What decryption into a buffer under the nonce `n` yields, and the buffer
    /// after it.
    pub open spec fn opened_into(self, n: u64, ciphertext: Seq<u8>, out: Seq<u8>) -> (
        Result<nat, CryptoError>,
        Seq<u8>,
    ) {
        if !self.has_key {
            (Err(CryptoError::Decrypt), out)
        } else if n == u64::MAX {
            (Err(CryptoError::Encrypt), out)
        } else {
            crypto::opened_into(self.key, nonce_bytes(n), ciphertext, out)
        }
    }

    /// The state after an operation: the nonce moves on where it succeeded.
    pub open spec fn after(self, success: bool) -> CipherView {
        if success {
            CipherView { n: (self.n + 1) as u64, ..self }
        } else {
            self
        }
    }

    /// The state after a rekey: the key is the first 32 bytes of 32 zero bytes
    /// encrypted under the reserved nonce, and the nonce is 0 again.
    pub open spec fn rekeyed(self) -> CipherView {
        if self.has_key {
            CipherView {
                key: primitives::aead_seal(self.key, nonce_bytes(u64::MAX), zeros(32)).take(32),
                n: 0,
                has_key: true,
            }
        } else {
            self
        }
    }
}

impl View for CipherState {
    type V = CipherView;

    closed spec fn view(&self) -> CipherView {
        CipherView { key: self.key@, n: self.n, has_key: self.has_key }
    }
}

/// The 12-byte nonce of a counter.
fn make_nonce(n: u64) -> (nonce: [u8; NONCE_LEN])
    ensures
        nonce@ == nonce_bytes(n),
{
    let nonce: [u8; NONCE_LEN] = [
        0,
        0,
        0,
        0,
        (n % 0x100) as u8,
        (n / 0x100 % 0x100) as u8,
        (n / 0x1_0000 % 0x100) as u8,
        (n / 0x100_0000 % 0x100) as u8,
        (n / 0x1_0000_0000 % 0x100) as u8,
        (n / 0x100_0000_0000 % 0x100) as u8,
        (n / 0x1_0000_0000_0000 % 0x100) as u8,
        (n / 0x100_0000_0000_0000 % 0x100) as u8,
    ];
    assert(nonce@ =~= nonce_bytes(n));
    nonce
}

/// Validate that a nonce has not reached the reserved value.
fn validate_nonce(n: u64) -> (r: Result<(), CryptoError>)
    ensures
        r == (if n == u64::MAX {
            Err::<(), _>(CryptoError::Encrypt)
        } else {
            Ok(())
        }),
{
    if n == u64::MAX {
        Err(CryptoError::Encrypt)
    } else {
        Ok(())
    }
}

impl CipherState {
    /// Create a new CipherState with the given key, starting nonce at 0.
    pub fn new(key: &[u8; SYMMETRIC_KEY_LEN]) -> (r: Self)
        ensures
            r@ == CipherView::keyed(key@),
    {
        Self { key: *key, n: 0, has_key: true }
    }

    /// Create an uninitialized CipherState.
    pub fn empty() -> (r: Self)
        ensures
            r@ == (CipherView { key: zeros(32), n: 0, has_key: false }),
    {
        let r = Self { key: [0u8; SYMMETRIC_KEY_LEN], n: 0, has_key: false };
        assert(r@.key =~= zeros(32));
        r
    }

    /// Returns the current nonce value.
    pub fn nonce(&self) -> (n: u64)
        ensures
            n == self@.n,
    {
        self.n
    }

    /// AEAD confidentiality limit — maximum safe encryptions under this key.
    ///
    /// For ChaCha20-Poly1305 with sequential nonces this is `u64::MAX`,
    /// but callers should treat this as the rekey threshold.
    pub fn confidentiality_limit() -> (limit: u64)
        ensures
            limit == u64::MAX,
    {
        CONFIDENTIALITY_LIMIT
    }

    /// AEAD integrity limit — maximum failed decryptions before the key MUST be retired.
    ///
    /// After exceeding this limit, the connection should be closed and the key discarded.
    pub fn integrity_limit() -> (limit: u64)
        ensures
            limit == 68_719_476_736,
    {
        INTEGRITY_LIMIT
    }

    /// Encrypt `plaintext` with the current nonce and increment.
    ///
    /// Returns the ciphertext with authentication tag appended.
    pub fn encrypt(&mut self, plaintext: &[u8]) -> (r: Result<Vec<u8>, CryptoError>)
        ensures
            bytes::vec_result(r) == old(self)@.sealed(old(self)@.n, plaintext@),
            final(self)@ == old(self)@.after(r is Ok),
            r matches Ok(ct) ==> ct@.len() == plaintext@.len() + TAG_LEN,
            r matches Ok(ct) ==> old(self)@.opened(old(self)@.n, ct@) == Ok::<_, CryptoError>(
                plaintext@,
            ),
    {
        let r = self.encrypt_with_nonce(self.n, plaintext);
        if r.is_ok() {
            self.n = self.n + 1;
        }
        r
    }

    /// Decrypt `ciphertext` with the current nonce and increment.
    ///
    /// The ciphertext must include the 16-byte authentication tag.
    pub fn decrypt(&mut self, ciphertext: &[u8]) -> (r: Result<Vec<u8>, CryptoError>)
        ensures
            bytes::vec_result(r) == old(self)@.opened(old(self)@.n, ciphertext@),
            final(self)@ == old(self)@.after(r is Ok),
            r matches Ok(pt) ==> pt@.len() + TAG_LEN == ciphertext@.len(),
            r matches Ok(pt) ==> old(self)@.sealed(old(self)@.n, pt@) == Ok::<_, CryptoError>(
                ciphertext@,
            ),
    {
        let r = self.decrypt_with_nonce(self.n, ciphertext);
        if r.is_ok() {
            self.n = self.n + 1;
        }
        r
    }

    /// Encrypt `plaintext` into a caller-provided buffer (zero-copy).
    ///
    /// Writes ciphertext + tag into `out`, returns bytes written.
    /// Fails unless `out.len() >= plaintext.len() + TAG_LEN`.
    pub fn encrypt_into(&mut self, plaintext: &[u8], out: &mut [u8]) -> (r: Result<
        usize,
        CryptoError,
    >)
        ensures
            (bytes::len_result(r), final(out)@) == old(self)@.sealed_into(
                old(self)@.n,
                plaintext@,
                old(out)@,
            ),
            final(self)@ == old(self)@.after(r is Ok),
            r matches Ok(n) ==> n == plaintext@.len() + TAG_LEN,
            r matches Ok(n) ==> old(self)@.opened(old(self)@.n, final(out)@.take(n as int)) == Ok::<
                _,
                CryptoError,
            >(plaintext@),
    {
        let r = self.encrypt_into_with_nonce(self.n, plaintext, out);
        if r.is_ok() {
            self.n = self.n + 1;
        }
        r
    }

    /// Decrypt `ciphertext` into a caller-provided buffer (zero-copy).
    ///
    /// Writes plaintext into `out`, returns bytes written.
    /// Fails unless `out.len() >= ciphertext.len() - TAG_LEN`.
    pub fn decrypt_into(&mut self, ciphertext: &[u8], out: &mut [u8]) -> (r: Result<
        usize,
        CryptoError,
    >)
        ensures
            (bytes::len_result(r), final(out)@) == old(self)@.opened_into(
                old(self)@.n,
                ciphertext@,
                old(out)@,
            ),
            final(self)@ == old(self)@.after(r is Ok),
            r matches Ok(n) ==> n + TAG_LEN == ciphertext@.len(),
            r matches Ok(n) ==> old(self)@.sealed(old(self)@.n, final(out)@.take(n as int)) == Ok::<
                _,
                CryptoError,
            >(ciphertext@),
    {
        let r = self.decrypt_into_with_nonce(self.n, ciphertext, out);
        if r.is_ok() {
            self.n = self.n + 1;
        }
        r
    }

    /// Rekey by encrypting a zero-block with nonce `u64::MAX`.
    ///
    /// As in the Noise protocol framework:
    /// `REKEY(k) = ENCRYPT(k, 2^64-1, 0^32)`.
    pub fn rekey(&mut self) -> (r: Result<(), CryptoError>)
        ensures
            r == (if old(self)@.has_key {
                Ok(())
            } else {
                Err::<(), _>(CryptoError::Encrypt)
            }),
            final(self)@ == old(self)@.rekeyed(),
    {
        if !self.has_key {
            return Err(CryptoError::Encrypt);
        }
        let nonce = make_nonce(u64::MAX);
        let zeroes = [0u8; SYMMETRIC_KEY_LEN];
        assert(zeroes@ =~= zeros(32));
        match crypto::encrypt(&self.key, &nonce, zeroes.as_slice()) {
            Ok(sealed) => {
                let (head, _) = sealed.as_slice().split_at(SYMMETRIC_KEY_LEN);
                self.key = bytes::to_array_32(head);
                self.n = 0;
                assert(head@ =~= sealed@.take(32));
                Ok(())
            },
            Err(e) => Err(e),
        }
    }

    /// Manually rekey with a provided key.
    pub fn rekey_manually(&mut self, key: &[u8; SYMMETRIC_KEY_LEN])
        ensures
            final(self)@ == (CipherView { key: key@, n: 0, has_key: old(self)@.has_key }),
    {
        self.key = *key;
        self.n = 0;
    }

    // --- Stateless methods (caller manages nonce) ---

    /// Encrypt with an explicit nonce (does not consume `&mut self`).
    ///
    /// The caller is responsible for nonce uniqueness. Internal nonce
    /// counter is untouched. Use for session serialization or multi-thread
    /// encryption where the caller partitions the nonce space.
    pub fn encrypt_with_nonce(&self, nonce: u64, plaintext: &[u8]) -> (r: Result<
        Vec<u8>,
        CryptoError,
    >)
        ensures
            bytes::vec_result(r) == self@.sealed(nonce, plaintext@),
            r matches Ok(ct) ==> ct@.len() == plaintext@.len() + TAG_LEN,
            r matches Ok(ct) ==> self@.opened(nonce, ct@) == Ok::<_, CryptoError>(plaintext@),
    {
        if !self.has_key {
            return Err(CryptoError::Encrypt);
        }
        match validate_nonce(nonce) {
            Ok(_) => crypto::encrypt(&self.key, &make_nonce(nonce), plaintext),
            Err(e) => Err(e),
        }
    }

    /// Decrypt with an explicit nonce (does not consume `&mut self`).
    ///
    /// See [`encrypt_with_nonce`](Self::encrypt_with_nonce).
    pub fn decrypt_with_nonce(&self, nonce: u64, ciphertext: &[u8]) -> (r: Result<
        Vec<u8>,
        CryptoError,
    >)
        ensures
            bytes::vec_result(r) == self@.opened(nonce, ciphertext@),
            r matches Ok(pt) ==> pt@.len() + TAG_LEN == ciphertext@.len(),
            r matches Ok(pt) ==> self@.sealed(nonce, pt@) == Ok::<_, CryptoError>(ciphertext@),
    {
        if !self.has_key {
            return Err(CryptoError::Decrypt);
        }
        match validate_nonce(nonce) {
            Ok(_) => crypto::decrypt(&self.key, &make_nonce(nonce), ciphertext),
            Err(e) => Err(e),
        }
    }

    /// Zero-copy encrypt with an explicit nonce.
    ///
    /// Writes ciphertext + tag into `out`. Caller manages nonce.
    pub fn encrypt_into_with_nonce(&self, nonce: u64, plaintext: &[u8], out: &mut [u8]) -> (r:
        Result<usize, CryptoError>)
        ensures
            (bytes::len_result(r), final(out)@) == self@.sealed_into(
                nonce,
                plaintext@,
                old(out)@,
            ),
            r matches Ok(n) ==> n == plaintext@.len() + TAG_LEN,
            r matches Ok(n) ==> self@.opened(nonce, final(out)@.take(n as int)) == Ok::<
                _,
                CryptoError,
            >(plaintext@),
    {
        if !self.has_key {
            return Err(CryptoError::Encrypt);
        }
        match validate_nonce(nonce) {
            Ok(_) => crypto::encrypt_into(&self.key, &make_nonce(nonce), plaintext, out),
            Err(e) => Err(e),
        }
    }

    /// Zero-copy decrypt with an explicit nonce.
    ///
    /// Writes plaintext into `out`. Caller manages nonce.
    pub fn decrypt_into_with_nonce(&self, nonce: u64, ciphertext: &[u8], out: &mut [u8]) -> (r:
        Result<usize, CryptoError>)
        ensures
            (bytes::len_result(r), final(out)@) == self@.opened_into(
                nonce,
                ciphertext@,
                old(out)@,
            ),
            r matches Ok(n) ==> n + TAG_LEN == ciphertext@.len(),
            r matches Ok(n) ==> self@.sealed(nonce, final(out)@.take(n as int)) == Ok::<
                _,
                CryptoError,
            >(ciphertext@),
    {
        if !self.has_key {
            return Err(CryptoError::Decrypt);
        }
        match validate_nonce(nonce) {
            Ok(_) => crypto::decrypt_into(&self.key, &make_nonce(nonce), ciphertext, out),
            Err(e) => Err(e),
        }
    }
}

} // verus!
