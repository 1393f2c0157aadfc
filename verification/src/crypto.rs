//! Cryptographic primitives for the Fengni protocol.
//!
//! This module provides:
//! - X25519 key pairs for identity and ephemeral keys
//! - Precomputed static-static DH (`ss`) for KCI resistance
//! - ChaCha20-Poly1305 authenticated encryption
//! - HKDF-SHA256 key derivation
//! - HMAC-SHA256 for identity proofs
//! - CipherState with nonce tracking and rekey
//!
//! Each derived key is bound to a specific HKDF info string to prevent
//! key reuse across protocol phases. CipherState nonces start at 0 and never
//! exceed `u64::MAX - 1` (`u64::MAX` is reserved for rekey).

pub use crate::cipher::{CipherState, CipherStates};
pub use crate::keys::{KeyPair, PUBLIC_KEY_LEN};
pub use crate::replay::{ReplayValidator, REPLAY_N_BITS};

use crate::bytes;
use crate::error::CryptoError;
use crate::primitives::{self, AEAD_MAX_LEN, HASH_MAX_LEN};
use vstd::prelude::*;

verus! {

/// Size of a ChaCha20-Poly1305 authentication tag in bytes.
pub const TAG_LEN: usize = 16;

/// Size of a ChaCha20-Poly1305 nonce in bytes.
pub const NONCE_LEN: usize = 12;

/// Size of a derived symmetric key in bytes.
pub const SYMMETRIC_KEY_LEN: usize = 32;

/// Size of an HMAC-SHA256 tag in bytes.
pub const HMAC_TAG_LEN: usize = 32;

/// AEAD confidentiality limit: maximum safe encryptions under a single key.
///
/// For ChaCha20-Poly1305 with sequential nonces this is effectively unlimited.
pub const CONFIDENTIALITY_LIMIT: u64 = u64::MAX;

/// AEAD integrity limit: maximum failed decryption attempts before the key MUST be retired.
pub const INTEGRITY_LIMIT: u64 = 0x10_0000_0000;

// --- Key Derivation ---

/// Whether HKDF can take an input of this length. No string in memory is
/// longer.
pub open spec fn hashable(input: Seq<u8>) -> bool {
    input.len() <= HASH_MAX_LEN
}

/// The 32-byte key that HKDF-SHA256 derives.
pub open spec fn derived_key(ikm: Seq<u8>, info: Seq<u8>) -> Result<Seq<u8>, CryptoError> {
    if hashable(ikm) && hashable(info) {
        Ok(primitives::hkdf_sha256(ikm, info, 32))
    } else {
        Err(CryptoError::KeyDerivation)
    }
}

/// Derive a 32-byte symmetric key from input key material via HKDF-SHA256.
pub fn derive_key(ikm: &[u8], info: &[u8]) -> (r: Result<[u8; SYMMETRIC_KEY_LEN], CryptoError>)
    ensures
        bytes::array_result(r) == derived_key(ikm@, info@),
{
    if ikm.len() as u64 > HASH_MAX_LEN || info.len() as u64 > HASH_MAX_LEN {
        return Err(CryptoError::KeyDerivation);
    }
    let mut okm = [0u8; SYMMETRIC_KEY_LEN];
    match primitives::hkdf_expand(ikm, info, &mut okm) {
        Ok(_) => Ok(okm),
        Err(_) => Err(CryptoError::KeyDerivation),
    }
}

/// Derive two 32-byte keys from input key material via HKDF-SHA256.
///
/// Used to produce independent `send_key` and `receive_key` from the
/// combined DH material after the handshake: the keys are the first and the
/// second half of one 64-byte output, so the first is also what
/// [`derive_key`] derives.
pub fn derive_key_pair(ikm: &[u8], info: &[u8]) -> (r: Result<
    ([u8; SYMMETRIC_KEY_LEN], [u8; SYMMETRIC_KEY_LEN]),
    CryptoError,
>)
    ensures
        match r {
            Ok((first, second)) => {
                &&& hashable(ikm@) && hashable(info@)
                &&& first@ + second@ == primitives::hkdf_sha256(ikm@, info@, 64)
                &&& derived_key(ikm@, info@) == Ok::<_, CryptoError>(first@)
            },
            Err(e) => e == CryptoError::KeyDerivation && !(hashable(ikm@) && hashable(info@)),
        },
{
    if ikm.len() as u64 > HASH_MAX_LEN || info.len() as u64 > HASH_MAX_LEN {
        return Err(CryptoError::KeyDerivation);
    }
    let mut okm = [0u8; 64];
    match primitives::hkdf_expand(ikm, info, &mut okm) {
        Ok(_) => {
            let (head, tail) = okm.as_slice().split_at(SYMMETRIC_KEY_LEN);
            let first = bytes::to_array_32(head);
            let second = bytes::to_array_32(tail);
            assert(first@ + second@ =~= okm@);
            assert(first@ =~= okm@.take(32));
            Ok((first, second))
        },
        Err(_) => Err(CryptoError::KeyDerivation),
    }
}

// --- HMAC ---

/// The HMAC-SHA256 tag of the chunks of `data`, one after the other.
pub open spec fn hmac_of(key: Seq<u8>, data: Seq<&[u8]>) -> Seq<u8> {
    primitives::hmac_sha256_tag(key, bytes::concat(data))@
}

/// Compute HMAC-SHA256 over `data` with the given `key`.
///
/// The chunks are joined first, so together they have to fit in a vector.
pub fn hmac_sha256(key: &[u8; SYMMETRIC_KEY_LEN], data: &[&[u8]]) -> (tag: [u8; HMAC_TAG_LEN])
    requires
        bytes::concat(data@).len() <= usize::MAX,
        hashable(bytes::concat(data@)),
    ensures
        tag@ == hmac_of(key@, data@),
{
    let joined = bytes::concat_chunks(data);
    primitives::hmac_tag(key, joined.as_slice())
}

/// Verify a constant-time HMAC-SHA256 tag.
///
/// As for [`hmac_sha256`], the chunks together have to fit in a vector.
pub fn hmac_verify(
    key: &[u8; SYMMETRIC_KEY_LEN],
    data: &[&[u8]],
    expected: &[u8; HMAC_TAG_LEN],
) -> (valid: bool)
    requires
        bytes::concat(data@).len() <= usize::MAX,
        hashable(bytes::concat(data@)),
    ensures
        valid == (expected@ == hmac_of(key@, data@)),
{
    let tag = hmac_sha256(key, data);
    bytes::same_bytes_constant_time(&tag, expected)
}

// --- AEAD Encryption ---

/// What encryption under a key and a nonce yields.
pub open spec fn sealed(key: Seq<u8>, nonce: Seq<u8>, plaintext: Seq<u8>) -> Result<
    Seq<u8>,
    CryptoError,
> {
    if plaintext.len() <= AEAD_MAX_LEN {
        Ok(primitives::aead_seal(key, nonce, plaintext))
    } else {
        Err(CryptoError::Encrypt)
    }
}

/// What decryption under a key and a nonce yields.
pub open spec fn opened(key: Seq<u8>, nonce: Seq<u8>, ciphertext: Seq<u8>) -> Result<
    Seq<u8>,
    CryptoError,
> {
    if ciphertext.len() < TAG_LEN || ciphertext.len() > AEAD_MAX_LEN + TAG_LEN {
        Err(CryptoError::Decrypt)
    } else {
        match primitives::aead_open(key, nonce, ciphertext) {
            Some(plaintext) => Ok(plaintext),
            None => Err(CryptoError::Decrypt),
        }
    }
}

/// What encryption into a buffer yields, and the buffer after it.
pub open spec fn sealed_into(
    key: Seq<u8>,
    nonce: Seq<u8>,
    plaintext: Seq<u8>,
    out: Seq<u8>,
) -> (Result<nat, CryptoError>, Seq<u8>) {
    if out.len() < plaintext.len() + TAG_LEN {
        (Err(CryptoError::Encrypt), out)
    } else {
        match sealed(key, nonce, plaintext) {
            Ok(ciphertext) => (Ok(ciphertext.len()), bytes::overwrite(out, ciphertext)),
            Err(e) => (Err(e), bytes::overwrite(out, plaintext)),
        }
    }
}

/// What decryption into a buffer yields, and the buffer after it. Where
/// authentication fails the buffer starts with the ciphertext's body.
pub open spec fn opened_into(
    key: Seq<u8>,
    nonce: Seq<u8>,
    ciphertext: Seq<u8>,
    out: Seq<u8>,
) -> (Result<nat, CryptoError>, Seq<u8>) {
    let body_len = ciphertext.len() - TAG_LEN;
    if body_len < 0 || out.len() < body_len {
        (Err(CryptoError::Decrypt), out)
    } else {
        match opened(key, nonce, ciphertext) {
            Ok(plaintext) => (Ok(plaintext.len()), bytes::overwrite(out, plaintext)),
            Err(e) => (Err(e), bytes::overwrite(out, ciphertext.take(body_len))),
        }
    }
}

/// Encrypt `plaintext` using ChaCha20-Poly1305.
///
/// Returns the ciphertext with the 16-byte authentication tag appended.
pub fn encrypt(
    key: &[u8; SYMMETRIC_KEY_LEN],
    nonce: &[u8; NONCE_LEN],
    plaintext: &[u8],
) -> (r: Result<Vec<u8>, CryptoError>)
    ensures
        bytes::vec_result(r) == sealed(key@, nonce@, plaintext@),
        r matches Ok(ct) ==> ct@.len() == plaintext@.len() + TAG_LEN,
        r matches Ok(ct) ==> opened(key@, nonce@, ct@) == Ok::<_, CryptoError>(plaintext@),
{
    if plaintext.len() as u64 > AEAD_MAX_LEN {
        return Err(CryptoError::Encrypt);
    }
    match primitives::encrypt_to_vec(key, nonce, plaintext) {
        Ok(ct) => Ok(ct),
        Err(_) => Err(CryptoError::Encrypt),
    }
}

/// Decrypt `ciphertext` using ChaCha20-Poly1305.
///
/// The ciphertext must include the 16-byte authentication tag. It decrypts to a
/// plaintext exactly where [`encrypt`] makes it of that plaintext. (No encryption
/// is longer than the limit and a tag.)
pub fn decrypt(
    key: &[u8; SYMMETRIC_KEY_LEN],
    nonce: &[u8; NONCE_LEN],
    ciphertext: &[u8],
) -> (r: Result<Vec<u8>, CryptoError>)
    ensures
        bytes::vec_result(r) == opened(key@, nonce@, ciphertext@),
        r matches Ok(pt) ==> pt@.len() + TAG_LEN == ciphertext@.len(),
        ciphertext@.len() <= AEAD_MAX_LEN + TAG_LEN ==> forall|pt: Seq<u8>|
            #![trigger sealed(key@, nonce@, pt)]
            (sealed(key@, nonce@, pt) == Ok::<_, CryptoError>(ciphertext@) <==> bytes::vec_result(r)
                == Ok::<_, CryptoError>(pt)),
{
    if ciphertext.len() > TAG_LEN && (ciphertext.len() - TAG_LEN) as u64 > AEAD_MAX_LEN {
        return Err(CryptoError::Decrypt);
    }
    match primitives::decrypt_to_vec(key, nonce, ciphertext) {
        Ok(pt) => Ok(pt),
        Err(_) => Err(CryptoError::Decrypt),
    }
}

/// Derive a shared secret via X25519 ECDH.
pub fn diffie_hellman(secret: &[u8; PUBLIC_KEY_LEN], public: &[u8; PUBLIC_KEY_LEN]) -> (shared: [u8;
    PUBLIC_KEY_LEN])
    ensures
        shared@ == primitives::x25519_shared(secret@, public@)@,
{
    primitives::shared_secret(secret, public)
}

/// Encrypt `plaintext` into a caller-provided buffer (zero-copy).
///
/// Copies plaintext into `out`, encrypts in place, and appends the 16-byte
/// tag. Returns total bytes written. No internal allocation.
///
/// Fails unless `out.len() >= plaintext.len() + TAG_LEN`.
pub fn encrypt_into(
    key: &[u8; SYMMETRIC_KEY_LEN],
    nonce: &[u8; NONCE_LEN],
    plaintext: &[u8],
    out: &mut [u8],
) -> (r: Result<usize, CryptoError>)
    ensures
        (bytes::len_result(r), final(out)@) == sealed_into(key@, nonce@, plaintext@, old(out)@),
        r matches Ok(n) ==> n == plaintext@.len() + TAG_LEN,
        r matches Ok(n) ==> opened(key@, nonce@, final(out)@.take(n as int)) == Ok::<
            _,
            CryptoError,
        >(plaintext@),
{
    let pt_len: usize = plaintext.len();
    if out.len() < TAG_LEN || out.len() - TAG_LEN < pt_len {
        return Err(CryptoError::Encrypt);
    }
    let ct_len: usize = pt_len + TAG_LEN;
    let ghost before = out@;
    bytes::copy_into(out, plaintext);
    if pt_len as u64 > AEAD_MAX_LEN {
        return Err(CryptoError::Encrypt);
    }
    let (head, tail) = out.split_at_mut(pt_len);
    let ghost tail_before = tail@;
    assert(head@ =~= plaintext@);
    assert(tail_before =~= before.skip(pt_len as int));
    match primitives::encrypt_in_place(key, nonce, head) {
        Ok(tag) => {
            bytes::copy_into(tail, tag.as_slice());
            proof {
                let ct = primitives::aead_seal(key@, nonce@, plaintext@);
                assert(head@ + tag@ == ct);
                assert(out@ =~= bytes::overwrite(before, ct));
                assert(out@.take(ct_len as int) =~= ct);
            }
            Ok(ct_len)
        },
        Err(_) => Err(CryptoError::Encrypt),
    }
}

/// Decrypt `ciphertext` into a caller-provided buffer (zero-copy).
///
/// Copies ciphertext body into `out` and decrypts it in place with the
/// detached tag. No internal allocation. Returns plaintext length.
///
/// Fails unless `out.len() >= ciphertext.len() - TAG_LEN`.
pub fn decrypt_into(
    key: &[u8; SYMMETRIC_KEY_LEN],
    nonce: &[u8; NONCE_LEN],
    ciphertext: &[u8],
    out: &mut [u8],
) -> (r: Result<usize, CryptoError>)
    ensures
        (bytes::len_result(r), final(out)@) == opened_into(key@, nonce@, ciphertext@, old(out)@),
        r matches Ok(n) ==> n + TAG_LEN == ciphertext@.len(),
        r matches Ok(n) ==> sealed(key@, nonce@, final(out)@.take(n as int)) == Ok::<
            _,
            CryptoError,
        >(ciphertext@),
{
    if ciphertext.len() < TAG_LEN {
        return Err(CryptoError::Decrypt);
    }
    let body_len: usize = ciphertext.len() - TAG_LEN;
    if out.len() < body_len {
        return Err(CryptoError::Decrypt);
    }
    let (body, tag_bytes) = ciphertext.split_at(body_len);
    let ghost before = out@;
    bytes::copy_into(out, body);
    if body_len as u64 > AEAD_MAX_LEN {
        return Err(CryptoError::Decrypt);
    }
    let tag = bytes::to_array_16(tag_bytes);
    let (head, tail) = out.split_at_mut(body_len);
    assert(head@ =~= body@);
    assert(tail@ =~= before.skip(body_len as int));
    assert(body@ + tag@ =~= ciphertext@);
    match primitives::decrypt_in_place(key, nonce, head, &tag) {
        Ok(_) => {
            assert(out@ =~= bytes::overwrite(before, head@));
            assert(out@.take(body_len as int) =~= head@);
            Ok(body_len)
        },
        Err(_) => {
            assert(out@ =~= bytes::overwrite(before, body@));
            Err(CryptoError::Decrypt)
        },
    }
}

} // verus!
