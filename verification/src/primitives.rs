//! The cryptographic algorithms and the clock, as this library calls them.
//!
//! Every function here makes one call into an outside crate (or the standard
//! library) on plain byte arrays. Their contracts are not proved: each doc
//! comment says what is claimed of the function it calls. The spec functions
//! without a body name what those functions compute.

use chacha20poly1305::aead::{Aead, AeadInPlace, KeyInit, OsRng};
use chacha20poly1305::{ChaCha20Poly1305, Key, Nonce, Tag};
use hkdf::Hkdf;
use hmac::{Hmac, Mac};
use sha2::Sha256;
use vstd::prelude::*;
use x25519_dalek::{PublicKey, StaticSecret};

verus! {

/// The longest message, in bytes, that ChaCha20-Poly1305 encrypts under one
/// nonce: 2^32 - 2 blocks of 64 bytes.
pub const AEAD_MAX_LEN: u64 = 0x3f_ffff_ff80;

/// A bound on the input of one SHA-256 computation, in bytes. With the blocks
/// that HMAC and HKDF add, the message length in bits still fits in 64 bits.
pub const HASH_MAX_LEN: u64 = 0x1fff_ffff_ffff_ff00;

/// The longest output of one HKDF-SHA256 expansion: 255 blocks of 32 bytes.
pub const HKDF_MAX_OUTPUT: usize = 8160;

/// The opaque error of the AEAD crate.
#[verifier::external_type_specification]
#[verifier::external_body]
pub struct ExAeadError(chacha20poly1305::Error);

/// The error of the HKDF crate for an output that is too long.
#[verifier::external_type_specification]
#[verifier::external_body]
pub struct ExHkdfInvalidLength(hkdf::InvalidLength);

/// A point in time of the system clock.
#[verifier::external_type_specification]
#[verifier::external_body]
pub struct ExSystemTime(std::time::SystemTime);

/// The error for a clock that stands before the Unix epoch.
#[verifier::external_type_specification]
#[verifier::external_body]
pub struct ExSystemTimeError(std::time::SystemTimeError);

// --- X25519 ---

/// The X25519 public key of a 32-byte secret.
pub uninterp spec fn x25519_public(secret: Seq<u8>) -> [u8; 32];

/// The X25519 shared secret of a 32-byte secret and a 32-byte public key.
pub uninterp spec fn x25519_shared(secret: Seq<u8>, public: Seq<u8>) -> [u8; 32];

/// Calls `x25519_dalek::PublicKey::from(&StaticSecret)`.
///
/// Claimed: the public key depends on the secret alone, and Diffie-Hellman
/// agreement holds for it, as the crate documents: whoever combines another
/// secret with this public key gets the same 32 bytes as the holder of this
/// secret who combines it with the other public key.
#[verifier::external_body]
pub(crate) fn public_key(secret: &[u8; 32]) -> (public: [u8; 32])
    ensures
        public == x25519_public(secret@),
        forall|other: Seq<u8>|
            other.len() == 32 ==> #[trigger] x25519_shared(other, public@) == x25519_shared(
                secret@,
                x25519_public(other)@,
            ),
{
    *PublicKey::from(&StaticSecret::from(*secret)).as_bytes()
}

/// Calls `x25519_dalek::StaticSecret::diffie_hellman`.
///
/// Claimed: the shared secret depends on the two arguments alone.
#[verifier::external_body]
pub(crate) fn shared_secret(secret: &[u8; 32], public: &[u8; 32]) -> (shared: [u8; 32])
    ensures
        shared == x25519_shared(secret@, public@),
{
    *StaticSecret::from(*secret).diffie_hellman(&PublicKey::from(*public)).as_bytes()
}

/// Calls `x25519_dalek::StaticSecret::random_from_rng` on the operating
/// system's generator. Nothing is claimed of the 32 bytes.
#[verifier::external_body]
pub(crate) fn random_secret() -> (secret: [u8; 32]) {
    StaticSecret::random_from_rng(OsRng).to_bytes()
}

/// Whether the bytes are what a call of [`random_secret`] returned.
pub closed spec fn drawn_at_random(secret: Seq<u8>) -> bool {
    exists|drawn: [u8; 32]| #[trigger] call_ensures(random_secret, (), drawn) && drawn@ == secret
}

/// What is drawn at random comes from [`random_secret`] and from nowhere else.
pub(crate) proof fn only_the_generator_draws(secret: Seq<u8>)
    ensures
        drawn_at_random(secret) <==> exists|drawn: [u8; 32]| #[trigger]
            call_ensures(random_secret, (), drawn) && drawn@ == secret,
{
}

/// Draws 32 bytes with [`random_secret`].
pub(crate) fn random_bytes() -> (secret: [u8; 32])
    ensures
        drawn_at_random(secret@),
{
    let secret = random_secret();
    assert(call_ensures(random_secret, (), secret));
    secret
}

// --- ChaCha20-Poly1305 ---

/// ChaCha20-Poly1305 encryption without associated data: the ciphertext with
/// its 16-byte tag appended.
pub uninterp spec fn aead_seal(key: Seq<u8>, nonce: Seq<u8>, plaintext: Seq<u8>) -> Seq<u8>;

/// ChaCha20-Poly1305 decryption without associated data of a ciphertext with
/// its tag appended: the plaintext, or `None` where authentication fails.
pub uninterp spec fn aead_open(key: Seq<u8>, nonce: Seq<u8>, ciphertext: Seq<u8>) -> Option<Seq<u8>>;

/// Calls `Aead::encrypt` of `ChaCha20Poly1305`.
///
/// Claimed: up to the length limit encryption succeeds, the output is 16 bytes
/// longer than the plaintext, and decryption under the same key and nonce gives
/// the plaintext back.
#[verifier::external_body]
pub(crate) fn encrypt_to_vec(key: &[u8; 32], nonce: &[u8; 12], plaintext: &[u8]) -> (r: Result<
    Vec<u8>,
    chacha20poly1305::Error,
>)
    requires
        plaintext@.len() <= AEAD_MAX_LEN,
    ensures
        match r {
            Ok(ct) => {
                &&& ct@ == aead_seal(key@, nonce@, plaintext@)
                &&& ct@.len() == plaintext@.len() + 16
                &&& aead_open(key@, nonce@, ct@) == Some(plaintext@)
            },
            Err(_) => false,
        },
{
    ChaCha20Poly1305::new(Key::from_slice(key)).encrypt(Nonce::from_slice(nonce), plaintext)
}

/// Calls `Aead::decrypt` of `ChaCha20Poly1305`.
///
/// Claimed: the outcome depends on the arguments alone; an input shorter than
/// a tag is refused; the plaintext is 16 bytes shorter than the input; and the
/// input decrypts to a plaintext exactly where that plaintext encrypts to it,
/// since the tag covers every byte of the ciphertext and the keystream is the
/// same in both directions.
#[verifier::external_body]
pub(crate) fn decrypt_to_vec(key: &[u8; 32], nonce: &[u8; 12], ciphertext: &[u8]) -> (r: Result<
    Vec<u8>,
    chacha20poly1305::Error,
>)
    requires
        ciphertext@.len() <= AEAD_MAX_LEN + 16,
    ensures
        match r {
            Ok(pt) => aead_open(key@, nonce@, ciphertext@) == Some(pt@),
            Err(_) => aead_open(key@, nonce@, ciphertext@) is None,
        },
        r matches Ok(pt) ==> pt@.len() + 16 == ciphertext@.len(),
        forall|p: Seq<u8>|
            p.len() <= AEAD_MAX_LEN ==> (#[trigger] aead_seal(key@, nonce@, p) == ciphertext@
                <==> match r {
                Ok(pt) => pt@ == p,
                Err(_) => false,
            }),
{
    ChaCha20Poly1305::new(Key::from_slice(key)).decrypt(Nonce::from_slice(nonce), ciphertext)
}

/// Calls `AeadInPlace::encrypt_in_place_detached` of `ChaCha20Poly1305`.
///
/// Claimed: up to the length limit encryption succeeds and keeps the buffer's
/// length; the buffer followed by the tag is what `Aead::encrypt` returns for
/// the same plaintext, and decrypts back to it.
#[verifier::external_body]
pub(crate) fn encrypt_in_place(key: &[u8; 32], nonce: &[u8; 12], buffer: &mut [u8]) -> (r: Result<
    [u8; 16],
    chacha20poly1305::Error,
>)
    requires
        old(buffer)@.len() <= AEAD_MAX_LEN,
    ensures
        final(buffer)@.len() == old(buffer)@.len(),
        match r {
            Ok(tag) => {
                &&& final(buffer)@ + tag@ == aead_seal(key@, nonce@, old(buffer)@)
                &&& aead_open(key@, nonce@, final(buffer)@ + tag@) == Some(old(buffer)@)
            },
            Err(_) => false,
        },
{
    ChaCha20Poly1305::new(Key::from_slice(key))
        .encrypt_in_place_detached(Nonce::from_slice(nonce), b"", buffer)
        .map(|tag| tag.into())
}

/// Calls `AeadInPlace::decrypt_in_place_detached` of `ChaCha20Poly1305`.
///
/// Claimed: the outcome is that of `Aead::decrypt` on the buffer followed by
/// the tag, so that what it decrypts to encrypts to that again; the buffer keeps
/// its length, and its contents where authentication fails.
#[verifier::external_body]
pub(crate) fn decrypt_in_place(
    key: &[u8; 32],
    nonce: &[u8; 12],
    buffer: &mut [u8],
    tag: &[u8; 16],
) -> (r: Result<(), chacha20poly1305::Error>)
    requires
        old(buffer)@.len() <= AEAD_MAX_LEN,
    ensures
        final(buffer)@.len() == old(buffer)@.len(),
        match r {
            Ok(_) => {
                &&& aead_open(key@, nonce@, old(buffer)@ + tag@) == Some(final(buffer)@)
                &&& aead_seal(key@, nonce@, final(buffer)@) == old(buffer)@ + tag@
            },
            Err(_) => {
                &&& aead_open(key@, nonce@, old(buffer)@ + tag@) is None
                &&& final(buffer)@ == old(buffer)@
            },
        },
{
    ChaCha20Poly1305::new(Key::from_slice(key))
        .decrypt_in_place_detached(Nonce::from_slice(nonce), b"", buffer, Tag::from_slice(tag))
}

// --- HKDF-SHA256 and HMAC-SHA256 ---

/// The first `len` bytes of the HKDF-SHA256 output for the input key material
/// `ikm`, no salt, and the label `info`.
pub uninterp spec fn hkdf_sha256(ikm: Seq<u8>, info: Seq<u8>, len: nat) -> Seq<u8>;

/// Calls `Hkdf::<Sha256>::new` without a salt, then `expand`.
///
/// Claimed: an output of at most 8160 bytes is filled, with bytes that depend
/// on the key material, the label and the position alone (a shorter output is
/// a prefix of a longer one); a longer output is refused and left as it was.
#[verifier::external_body]
pub(crate) fn hkdf_expand(ikm: &[u8], info: &[u8], okm: &mut [u8]) -> (r: Result<
    (),
    hkdf::InvalidLength,
>)
    requires
        ikm@.len() <= HASH_MAX_LEN,
        info@.len() <= HASH_MAX_LEN,
    ensures
        final(okm)@.len() == old(okm)@.len(),
        r is Ok <==> old(okm)@.len() <= HKDF_MAX_OUTPUT,
        r is Ok ==> final(okm)@ == hkdf_sha256(ikm@, info@, old(okm)@.len()),
        r is Ok ==> forall|n: nat|
            n <= old(okm)@.len() ==> final(okm)@.take(n as int) == #[trigger] hkdf_sha256(
                ikm@,
                info@,
                n,
            ),
        r is Err ==> final(okm)@ == old(okm)@,
{
    Hkdf::<Sha256>::new(None, ikm).expand(info, okm)
}

/// The HMAC-SHA256 tag of a byte string under a 32-byte key.
pub uninterp spec fn hmac_sha256_tag(key: Seq<u8>, data: Seq<u8>) -> [u8; 32];

/// Calls `Hmac::<Sha256>::new_from_slice`, `update` and `finalize`.
///
/// Claimed: the tag depends on the key and the data alone.
#[verifier::external_body]
pub(crate) fn hmac_tag(key: &[u8; 32], data: &[u8]) -> (tag: [u8; 32])
    requires
        data@.len() <= HASH_MAX_LEN,
    ensures
        tag == hmac_sha256_tag(key@, data@),
{
    let mut mac = <Hmac<Sha256> as Mac>::new_from_slice(key).expect("any key length is accepted");
    mac.update(data);
    mac.finalize().into_bytes().into()
}

// --- Clock ---

/// Calls `std::time::SystemTime::now`. Nothing is claimed of the result.
#[verifier::external_body]
pub(crate) fn clock_now() -> (now: std::time::SystemTime) {
    std::time::SystemTime::now()
}

/// A point in time that the system clock showed: what a call of [`clock_now`]
/// returned.
pub closed spec fn shown_by_clock(time: std::time::SystemTime) -> bool {
    call_ensures(clock_now, (), time)
}

/// What the clock shows comes from [`clock_now`] and from nowhere else.
pub(crate) proof fn only_the_clock_shows(time: std::time::SystemTime)
    ensures
        shown_by_clock(time) <==> call_ensures(clock_now, (), time),
{
}

/// Reads the system clock.
pub(crate) fn read_clock() -> (now: std::time::SystemTime)
    ensures
        shown_by_clock(now),
{
    clock_now()
}

/// The time from the Unix epoch to a point in time, or `None` for a point
/// before the epoch.
pub uninterp spec fn time_since_epoch(time: std::time::SystemTime) -> Option<std::time::Duration>;

/// Calls `std::time::SystemTime::duration_since` with the Unix epoch.
///
/// Claimed: the outcome depends on the point in time alone.
#[verifier::external_body]
pub(crate) fn since_epoch(time: &std::time::SystemTime) -> (r: Result<
    std::time::Duration,
    std::time::SystemTimeError,
>)
    ensures
        match r {
            Ok(duration) => time_since_epoch(*time) == Some(duration),
            Err(_) => time_since_epoch(*time) is None,
        },
{
    time.duration_since(std::time::UNIX_EPOCH)
}

/// The number of whole seconds in a duration.
pub uninterp spec fn duration_seconds(duration: std::time::Duration) -> u64;

/// Calls `std::time::Duration::as_secs`.
///
/// Claimed: the number depends on the duration alone.
#[verifier::external_body]
pub(crate) fn whole_seconds(duration: &std::time::Duration) -> (seconds: u64)
    ensures
        seconds == duration_seconds(*duration),
{
    duration.as_secs()
}

} // verus!
