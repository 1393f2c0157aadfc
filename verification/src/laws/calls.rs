//! What every call of an encryption, a key or a packet operation returns and
//! leaves behind, in terms of the algorithms and of numbers.

use super::packets;
use crate::bytes;
use crate::cipher::{CipherState, CipherStates, CipherView};
use crate::crypto;
use crate::error::CryptoError;
use crate::keys::{KeyPair, KeyPairView};
use crate::primitives;
use crate::replay::{ReplayValidator, ReplayView};
use crate::transport::{ReceiveState, ReceiveView, TransportState};
use vstd::prelude::*;

verus! {

// --- Outcomes ---

/// `r` is the encryption of the plaintext under the key and nonce, or the error
/// of a plaintext that the cipher cannot take.
pub open spec fn encrypts(
    key: Seq<u8>,
    nonce: Seq<u8>,
    plaintext: Seq<u8>,
    r: Result<Vec<u8>, CryptoError>,
) -> bool {
    match r {
        Ok(ciphertext) => {
            &&& plaintext.len() <= 0x3f_ffff_ff80
            &&& ciphertext@ == primitives::aead_seal(key, nonce, plaintext)
        },
        Err(e) => plaintext.len() > 0x3f_ffff_ff80 && e == CryptoError::Encrypt,
    }
}

/// `r` is what the ciphertext opens to under the key and nonce, or the error of
/// one that does not open.
pub open spec fn decrypts(
    key: Seq<u8>,
    nonce: Seq<u8>,
    ciphertext: Seq<u8>,
    r: Result<Vec<u8>, CryptoError>,
) -> bool {
    let sized = 16 <= ciphertext.len() <= 0x3f_ffff_ff90;
    match r {
        Ok(plaintext) => sized && primitives::aead_open(key, nonce, ciphertext) == Some(plaintext@),
        Err(e) => {
            &&& !sized || primitives::aead_open(key, nonce, ciphertext) is None
            &&& e == CryptoError::Decrypt
        },
    }
}

/// The buffer starts with `head` and is as it was from there on.
pub open spec fn starts_with(before: Seq<u8>, head: Seq<u8>, after: Seq<u8>) -> bool {
    &&& head.len() <= before.len()
    &&& after.len() == before.len()
    &&& after.take(head.len() as int) == head
    &&& after.skip(head.len() as int) == before.skip(head.len() as int)
}

/// `r` and the buffer after it are what encryption into a buffer owes.
pub open spec fn encrypts_into(
    key: Seq<u8>,
    nonce: Seq<u8>,
    plaintext: Seq<u8>,
    before: Seq<u8>,
    r: Result<usize, CryptoError>,
    after: Seq<u8>,
) -> bool {
    let fits = plaintext.len() + 16 <= before.len();
    match r {
        Ok(n) => {
            &&& fits && plaintext.len() <= 0x3f_ffff_ff80
            &&& n == plaintext.len() + 16
            &&& starts_with(before, primitives::aead_seal(key, nonce, plaintext), after)
        },
        Err(e) => {
            &&& !fits || plaintext.len() > 0x3f_ffff_ff80
            &&& e == CryptoError::Encrypt
            &&& fits ==> starts_with(before, plaintext, after)
            &&& !fits ==> after == before
        },
    }
}

/// `r` and the buffer after it are what decryption into a buffer owes.
pub open spec fn decrypts_into(
    key: Seq<u8>,
    nonce: Seq<u8>,
    ciphertext: Seq<u8>,
    before: Seq<u8>,
    r: Result<usize, CryptoError>,
    after: Seq<u8>,
) -> bool {
    let fits = 16 <= ciphertext.len() <= before.len() + 16;
    let opened = primitives::aead_open(key, nonce, ciphertext);
    match r {
        Ok(n) => {
            &&& fits && ciphertext.len() <= 0x3f_ffff_ff90 && opened is Some
            &&& n == opened->Some_0.len()
            &&& starts_with(before, opened->Some_0, after)
        },
        Err(e) => {
            &&& !fits || ciphertext.len() > 0x3f_ffff_ff90 || opened is None
            &&& e == CryptoError::Decrypt
            &&& fits ==> starts_with(before, ciphertext.take(ciphertext.len() - 16), after)
            &&& !fits ==> after == before
        },
    }
}

/// `r` is the packet at the counter `n`, whose nonce is `nonce`.
pub open spec fn seals(
    state: CipherView,
    n: u64,
    nonce: Seq<u8>,
    plaintext: Seq<u8>,
    r: Result<Vec<u8>, CryptoError>,
) -> bool {
    if state.has_key && n < 0xffff_ffff_ffff_ffff {
        encrypts(state.key, nonce, plaintext, r)
    } else {
        r == Err::<Vec<u8>, _>(CryptoError::Encrypt)
    }
}

/// `r` is what the packet at the counter `n`, whose nonce is `nonce`, opens to.
pub open spec fn opens(
    state: CipherView,
    n: u64,
    nonce: Seq<u8>,
    ciphertext: Seq<u8>,
    r: Result<Vec<u8>, CryptoError>,
) -> bool {
    if state.has_key && n < 0xffff_ffff_ffff_ffff {
        decrypts(state.key, nonce, ciphertext, r)
    } else {
        r == Err::<Vec<u8>, _>(
            if state.has_key {
                CryptoError::Encrypt
            } else {
                CryptoError::Decrypt
            },
        )
    }
}

/// As [`seals`], into a buffer.
pub open spec fn seals_into(
    state: CipherView,
    n: u64,
    nonce: Seq<u8>,
    plaintext: Seq<u8>,
    before: Seq<u8>,
    r: Result<usize, CryptoError>,
    after: Seq<u8>,
) -> bool {
    if state.has_key && n < 0xffff_ffff_ffff_ffff {
        encrypts_into(state.key, nonce, plaintext, before, r, after)
    } else {
        after == before && r == Err::<usize, _>(CryptoError::Encrypt)
    }
}

/// As [`opens`], into a buffer.
pub open spec fn opens_into(
    state: CipherView,
    n: u64,
    nonce: Seq<u8>,
    ciphertext: Seq<u8>,
    before: Seq<u8>,
    r: Result<usize, CryptoError>,
    after: Seq<u8>,
) -> bool {
    if state.has_key && n < 0xffff_ffff_ffff_ffff {
        decrypts_into(state.key, nonce, ciphertext, before, r, after)
    } else {
        after == before && r == Err::<usize, _>(
            if state.has_key {
                CryptoError::Encrypt
            } else {
                CryptoError::Decrypt
            },
        )
    }
}

/// The counter moves on by one on success; the key stays.
pub open spec fn moves_on(before: CipherView, success: bool, after: CipherView) -> bool {
    &&& after.key == before.key
    &&& after.has_key == before.has_key
    &&& after.n == before.n + (if success {
        1int
    } else {
        0
    })
}

/// The key is that of a rekey, and the counter starts again. Without a key
/// nothing happens.
pub open spec fn rekeys(before: CipherView, r: Result<(), CryptoError>, after: CipherView) -> bool {
    let reserved = seq![0u8, 0, 0, 0, 0xff, 0xff, 0xff, 0xff, 0xff, 0xff, 0xff, 0xff];
    let block = seq![0u8, 0, 0, 0, 0, 0, 0, 0, 0, 0, 0, 0, 0, 0, 0, 0, 0, 0, 0, 0, 0, 0, 0, 0, 0, 0, 0,
        0, 0, 0, 0, 0];
    match r {
        Ok(_) => {
            &&& before.has_key && after.has_key
            &&& after.key == primitives::aead_seal(before.key, reserved, block).take(32)
            &&& after.n == 0
        },
        Err(e) => !before.has_key && after == before && e == CryptoError::Encrypt,
    }
}

pub(super) proof fn lemma_starts_with(before: Seq<u8>, head: Seq<u8>)
    requires
        head.len() <= before.len(),
    ensures
        starts_with(before, head, bytes::overwrite(before, head)),
{
    let after = bytes::overwrite(before, head);
    assert(after.take(head.len() as int) =~= head);
    assert(after.skip(head.len() as int) =~= before.skip(head.len() as int));
}

proof fn lemma_encrypts_into(
    key: Seq<u8>,
    nonce: Seq<u8>,
    plaintext: Seq<u8>,
    before: Seq<u8>,
    r: Result<usize, CryptoError>,
    after: Seq<u8>,
)
    ensures
        ({
            &&& (bytes::len_result(r), after) == crypto::sealed_into(key, nonce, plaintext, before)
            &&& r is Ok ==> r->Ok_0 == plaintext.len() + 16
        }) ==> encrypts_into(key, nonce, plaintext, before, r, after),
{
    let ciphertext = primitives::aead_seal(key, nonce, plaintext);
    if ciphertext.len() <= before.len() {
        lemma_starts_with(before, ciphertext);
    }
    if plaintext.len() <= before.len() {
        lemma_starts_with(before, plaintext);
    }
}

proof fn lemma_decrypts_into(
    key: Seq<u8>,
    nonce: Seq<u8>,
    ciphertext: Seq<u8>,
    before: Seq<u8>,
    r: Result<usize, CryptoError>,
    after: Seq<u8>,
)
    ensures
        ({
            &&& (bytes::len_result(r), after) == crypto::opened_into(key, nonce, ciphertext, before)
            &&& r is Ok ==> r->Ok_0 + 16 == ciphertext.len()
        }) ==> decrypts_into(key, nonce, ciphertext, before, r, after),
{
    let opened = primitives::aead_open(key, nonce, ciphertext);
    if opened is Some && opened->Some_0.len() <= before.len() {
        lemma_starts_with(before, opened->Some_0);
    }
    if 16 <= ciphertext.len() <= before.len() + 16 {
        lemma_starts_with(before, ciphertext.take(ciphertext.len() - 16));
    }
}

// --- Algorithms ---

/// Every call of `derive_key` returns HKDF-SHA256 of the whole key material under
/// the whole label.
pub proof fn derive_key_is_hkdf(ikm: &[u8], info: &[u8], r: Result<[u8; 32], CryptoError>)
    requires
        call_ensures(crypto::derive_key, (ikm, info), r),
    ensures
        match r {
            Ok(key) => {
                &&& ikm@.len() <= 0x1fff_ffff_ffff_ff00 && info@.len() <= 0x1fff_ffff_ffff_ff00
                &&& key@ == primitives::hkdf_sha256(ikm@, info@, 32)
            },
            Err(e) => {
                &&& ikm@.len() > 0x1fff_ffff_ffff_ff00 || info@.len() > 0x1fff_ffff_ffff_ff00
                &&& e == CryptoError::KeyDerivation
            },
        },
{
}

/// Every call of `derive_key_pair` returns the halves of 64 bytes of HKDF-SHA256.
pub proof fn derive_key_pair_is_hkdf(
    ikm: &[u8],
    info: &[u8],
    r: Result<([u8; 32], [u8; 32]), CryptoError>,
)
    requires
        call_ensures(crypto::derive_key_pair, (ikm, info), r),
    ensures
        match r {
            Ok((first, second)) => {
                &&& ikm@.len() <= 0x1fff_ffff_ffff_ff00 && info@.len() <= 0x1fff_ffff_ffff_ff00
                &&& first@ + second@ == primitives::hkdf_sha256(ikm@, info@, 64)
                &&& first@ == primitives::hkdf_sha256(ikm@, info@, 32)
            },
            Err(e) => {
                &&& ikm@.len() > 0x1fff_ffff_ffff_ff00 || info@.len() > 0x1fff_ffff_ffff_ff00
                &&& e == CryptoError::KeyDerivation
            },
        },
{
}

/// Every call of `hmac_sha256` tags the chunks one after the other, and
/// `hmac_verify` accepts that tag and no other. How a text is cut does not matter.
pub proof fn hmac_is_of_the_joined_chunks(
    key: &[u8; 32],
    data: &[&[u8]],
    front: Seq<&[u8]>,
    back: Seq<&[u8]>,
    tag: [u8; 32],
    expected: &[u8; 32],
    valid: bool,
)
    requires
        call_ensures(crypto::hmac_sha256, (key, data), tag),
        call_ensures(crypto::hmac_verify, (key, data, expected), valid),
        data@ == front + back,
    ensures
        tag@ == primitives::hmac_sha256_tag(key@, bytes::concat(front) + bytes::concat(back))@,
        valid <==> expected@ == tag@,
        data@.len() == 0 ==> tag@ == primitives::hmac_sha256_tag(key@, Seq::empty())@,
        data@.len() == 1 ==> tag@ == primitives::hmac_sha256_tag(key@, data@[0]@)@,
        data@.len() == 2 ==> tag@ == primitives::hmac_sha256_tag(key@, data@[0]@ + data@[1]@)@,
{
    if data@.len() > 0 {
        packets::chunks_are_joined(key@, front, back, data@[0]);
        if data@.len() == 1 {
            assert(data@ =~= seq![data@[0]]);
        }
        if data@.len() == 2 {
            assert(data@ =~= seq![data@[0]] + seq![data@[1]]);
            packets::chunks_are_joined(key@, seq![data@[0]], seq![data@[1]], data@[0]);
            packets::chunks_are_joined(key@, seq![data@[0]], seq![data@[1]], data@[1]);
        }
    } else {
        assert(bytes::concat(front) + bytes::concat(back) =~= bytes::concat(data@));
    }
}

/// Every call of `encrypt` and `decrypt` is ChaCha20-Poly1305 under the key and
/// nonce that it is given, whatever the lengths.
pub proof fn encryption_is_as_given(
    key: &[u8; 32],
    nonce: &[u8; 12],
    plaintext: &[u8],
    sealed: Result<Vec<u8>, CryptoError>,
    ciphertext: &[u8],
    opened: Result<Vec<u8>, CryptoError>,
)
    requires
        call_ensures(crypto::encrypt, (key, nonce, plaintext), sealed),
        call_ensures(crypto::decrypt, (key, nonce, ciphertext), opened),
    ensures
        encrypts(key@, nonce@, plaintext@, sealed),
        decrypts(key@, nonce@, ciphertext@, opened),
{
}

/// Every call of `encrypt_into` is ChaCha20-Poly1305 under the key and nonce that
/// it is given, written to the start of the buffer.
pub proof fn encryption_into_is_as_given(
    key: &[u8; 32],
    nonce: &[u8; 12],
    plaintext: &[u8],
    out: &mut [u8],
    r: Result<usize, CryptoError>,
)
    requires
        call_ensures(crypto::encrypt_into, (key, nonce, plaintext, out), r),
    ensures
        encrypts_into(key@, nonce@, plaintext@, old(out)@, r, final(out)@),
{
    lemma_encrypts_into(key@, nonce@, plaintext@, old(out)@, r, final(out)@);
}

/// Every call of `decrypt_into` is ChaCha20-Poly1305 under the key and nonce that
/// it is given, written to the start of the buffer.
pub proof fn decryption_into_is_as_given(
    key: &[u8; 32],
    nonce: &[u8; 12],
    ciphertext: &[u8],
    out: &mut [u8],
    r: Result<usize, CryptoError>,
)
    requires
        call_ensures(crypto::decrypt_into, (key, nonce, ciphertext, out), r),
    ensures
        decrypts_into(key@, nonce@, ciphertext@, old(out)@, r, final(out)@),
{
    lemma_decrypts_into(key@, nonce@, ciphertext@, old(out)@, r, final(out)@);
}

// --- Keys ---

/// Every generated key pair has a secret from the generator, the public key of
/// that secret, and no peer. Every key pair from given bytes has those bytes.
pub proof fn key_pairs_start_without_a_peer(bytes: [u8; 32], made: KeyPair, generated: KeyPair)
    requires
        call_ensures(KeyPair::from_bytes, (bytes,), made),
        call_ensures(KeyPair::generate, (), generated),
    ensures
        made@.secret == bytes@,
        made@.public == primitives::x25519_public(bytes@)@,
        made@.ss is None,
        primitives::drawn_at_random(generated@.secret),
        generated@.public == primitives::x25519_public(generated@.secret)@,
        generated@.ss is None,
{
}

/// Every call of `pin_peer` stores X25519 of the secret and the peer, and every
/// call of `diffie_hellman` computes it.
pub proof fn pin_peer_stores_the_share(
    pair: &mut KeyPair,
    peer: &[u8; 32],
    secret: &[u8; 32],
    shared: [u8; 32],
)
    requires
        call_ensures(KeyPair::pin_peer, (pair, peer), ()),
        call_ensures(crypto::diffie_hellman, (secret, peer), shared),
    ensures
        final(pair)@.secret == old(pair)@.secret,
        final(pair)@.public == old(pair)@.public,
        final(pair)@.ss == Some(primitives::x25519_shared(old(pair)@.secret, peer@)@),
        shared@ == primitives::x25519_shared(secret@, peer@)@,
{
}

/// The getters of a key pair return what it holds.
pub proof fn key_pair_shows_what_it_holds(
    pair: &KeyPair,
    secret: &[u8; 32],
    public: [u8; 32],
    ss: Option<[u8; 32]>,
    copy: KeyPair,
)
    requires
        call_ensures(KeyPair::secret, (pair,), secret),
        call_ensures(KeyPair::public_key_bytes, (pair,), public),
        call_ensures(KeyPair::ss, (pair,), ss),
        call_ensures(KeyPair::clone, (pair,), copy),
    ensures
        pair@ == (KeyPairView {
            secret: secret@,
            public: public@,
            ss: match ss {
                Some(share) => Some(share@),
                None => None,
            },
        }),
        copy@ == pair@,
{
}

// --- Cipher states ---

/// Every new cipher state has its key and counter 0, or no key.
pub proof fn cipher_states_start_at_zero(
    key: &[u8; 32],
    keyed: CipherState,
    unkeyed: CipherState,
    n: u64,
)
    requires
        call_ensures(CipherState::new, (key,), keyed),
        call_ensures(CipherState::empty, (), unkeyed),
        call_ensures(CipherState::nonce, (&keyed,), n),
    ensures
        keyed@ == (CipherView { key: key@, n: 0, has_key: true }),
        n == 0,
        !unkeyed@.has_key,
        unkeyed@.n == 0,
        unkeyed@.key.len() == 32,
        forall|i: int| 0 <= i < 32 ==> unkeyed@.key[i] == 0,
{
}

/// The getters and limits of a cipher state and of a transport.
pub proof fn limits_and_counters_are_shown(
    state: &CipherState,
    n: u64,
    transport: &TransportState,
    receiver: &ReceiveState,
    failures: u64,
    receiver_failures: u64,
    confidentiality: (u64, u64),
    integrity: (u64, u64),
)
    requires
        call_ensures(CipherState::nonce, (state,), n),
        call_ensures(TransportState::auth_failures, (transport,), failures),
        call_ensures(ReceiveState::auth_failures, (receiver,), receiver_failures),
        call_ensures(CipherState::confidentiality_limit, (), confidentiality.0),
        call_ensures(TransportState::confidentiality_limit, (), confidentiality.1),
        call_ensures(CipherState::integrity_limit, (), integrity.0),
        call_ensures(TransportState::integrity_limit, (), integrity.1),
    ensures
        n == state@.n,
        failures == transport@.receive.auth_failures,
        receiver_failures == receiver@.auth_failures,
        confidentiality == (0xffff_ffff_ffff_ffffu64, 0xffff_ffff_ffff_ffffu64),
        integrity == (0x10_0000_0000u64, 0x10_0000_0000u64),
{
}

/// Every call of `encrypt_with_nonce` and `decrypt_with_nonce` goes under the
/// nonce of its counter, whatever the packet holds.
pub proof fn packets_with_a_given_counter(
    state: &CipherState,
    n: u64,
    nonce: Seq<u8>,
    plaintext: &[u8],
    sealed: Result<Vec<u8>, CryptoError>,
    ciphertext: &[u8],
    opened: Result<Vec<u8>, CryptoError>,
)
    requires
        packets::counter_nonce(nonce, n),
        call_ensures(CipherState::encrypt_with_nonce, (state, n, plaintext), sealed),
        call_ensures(CipherState::decrypt_with_nonce, (state, n, ciphertext), opened),
    ensures
        seals(state@, n, nonce, plaintext@, sealed),
        opens(state@, n, nonce, ciphertext@, opened),
{
    packets::lemma_counter_nonce(nonce, n);
}

/// As [`packets_with_a_given_counter`], for encryption into a buffer.
pub proof fn packet_into_with_a_given_counter(
    state: &CipherState,
    n: u64,
    nonce: Seq<u8>,
    plaintext: &[u8],
    out: &mut [u8],
    r: Result<usize, CryptoError>,
)
    requires
        packets::counter_nonce(nonce, n),
        call_ensures(CipherState::encrypt_into_with_nonce, (state, n, plaintext, out), r),
    ensures
        seals_into(state@, n, nonce, plaintext@, old(out)@, r, final(out)@),
{
    packets::lemma_counter_nonce(nonce, n);
    lemma_encrypts_into(state@.key, nonce, plaintext@, old(out)@, r, final(out)@);
}

/// As [`packets_with_a_given_counter`], for decryption into a buffer.
pub proof fn packet_opened_into_with_a_given_counter(
    state: &CipherState,
    n: u64,
    nonce: Seq<u8>,
    ciphertext: &[u8],
    out: &mut [u8],
    r: Result<usize, CryptoError>,
)
    requires
        packets::counter_nonce(nonce, n),
        call_ensures(CipherState::decrypt_into_with_nonce, (state, n, ciphertext, out), r),
    ensures
        opens_into(state@, n, nonce, ciphertext@, old(out)@, r, final(out)@),
{
    packets::lemma_counter_nonce(nonce, n);
    lemma_decrypts_into(state@.key, nonce, ciphertext@, old(out)@, r, final(out)@);
}

/// Every call of `encrypt` seals at the state's own counter, and moves it on.
pub proof fn encrypt_seals_at_the_counter(
    state: &mut CipherState,
    nonce: Seq<u8>,
    plaintext: &[u8],
    r: Result<Vec<u8>, CryptoError>,
)
    requires
        packets::counter_nonce(nonce, old(state)@.n),
        call_ensures(CipherState::encrypt, (state, plaintext), r),
    ensures
        seals(old(state)@, old(state)@.n, nonce, plaintext@, r),
        moves_on(old(state)@, r is Ok, final(state)@),
{
    packets::lemma_counter_nonce(nonce, old(state)@.n);
}

/// Every call of `decrypt` opens at the state's own counter, and moves it on.
pub proof fn decrypt_opens_at_the_counter(
    state: &mut CipherState,
    nonce: Seq<u8>,
    ciphertext: &[u8],
    r: Result<Vec<u8>, CryptoError>,
)
    requires
        packets::counter_nonce(nonce, old(state)@.n),
        call_ensures(CipherState::decrypt, (state, ciphertext), r),
    ensures
        opens(old(state)@, old(state)@.n, nonce, ciphertext@, r),
        moves_on(old(state)@, r is Ok, final(state)@),
{
    packets::lemma_counter_nonce(nonce, old(state)@.n);
}

/// As [`encrypt_seals_at_the_counter`], into a buffer.
pub proof fn encrypt_into_seals_at_the_counter(
    state: &mut CipherState,
    nonce: Seq<u8>,
    plaintext: &[u8],
    out: &mut [u8],
    r: Result<usize, CryptoError>,
)
    requires
        packets::counter_nonce(nonce, old(state)@.n),
        call_ensures(CipherState::encrypt_into, (state, plaintext, out), r),
    ensures
        seals_into(old(state)@, old(state)@.n, nonce, plaintext@, old(out)@, r, final(out)@),
        moves_on(old(state)@, r is Ok, final(state)@),
{
    packets::lemma_counter_nonce(nonce, old(state)@.n);
    lemma_encrypts_into(old(state)@.key, nonce, plaintext@, old(out)@, r, final(out)@);
}

/// As [`decrypt_opens_at_the_counter`], into a buffer.
pub proof fn decrypt_into_opens_at_the_counter(
    state: &mut CipherState,
    nonce: Seq<u8>,
    ciphertext: &[u8],
    out: &mut [u8],
    r: Result<usize, CryptoError>,
)
    requires
        packets::counter_nonce(nonce, old(state)@.n),
        call_ensures(CipherState::decrypt_into, (state, ciphertext, out), r),
    ensures
        opens_into(old(state)@, old(state)@.n, nonce, ciphertext@, old(out)@, r, final(out)@),
        moves_on(old(state)@, r is Ok, final(state)@),
{
    packets::lemma_counter_nonce(nonce, old(state)@.n);
    lemma_decrypts_into(old(state)@.key, nonce, ciphertext@, old(out)@, r, final(out)@);
}

/// Every call of `rekey` takes the key of 32 zero bytes under the reserved nonce,
/// whatever the counter.
pub proof fn rekey_takes_the_next_key(state: &mut CipherState, r: Result<(), CryptoError>)
    requires
        call_ensures(CipherState::rekey, (state,), r),
    ensures
        rekeys(old(state)@, r, final(state)@),
{
    lemma_rekeyed(old(state)@);
}

proof fn lemma_rekeyed(state: CipherView)
    ensures
        rekeys(
            state,
            if state.has_key {
                Ok(())
            } else {
                Err(CryptoError::Encrypt)
            },
            state.rekeyed(),
        ),
{
    let block = seq![0u8, 0, 0, 0, 0, 0, 0, 0, 0, 0, 0, 0, 0, 0, 0, 0, 0, 0, 0, 0, 0, 0, 0, 0, 0, 0, 0,
        0, 0, 0, 0, 0];
    assert(block.len() == 32);
    packets::rekey_encrypts_zeros_under_the_reserved_nonce(
        state,
        seq![0u8, 0, 0, 0, 0xff, 0xff, 0xff, 0xff, 0xff, 0xff, 0xff, 0xff],
        block,
    );
}

/// Every call of `rekey_manually` takes the key that it is given, and starts the
/// counter again.
pub proof fn rekey_manually_takes_the_given_key(state: &mut CipherState, key: &[u8; 32])
    requires
        call_ensures(CipherState::rekey_manually, (state, key), ()),
    ensures
        final(state)@.key == key@,
        final(state)@.n == 0,
        final(state)@.has_key == old(state)@.has_key,
{
}

// --- Replay window ---

/// What the window says of a counter.
pub open spec fn judges(window: ReplayView, counter: int, r: Result<(), CryptoError>) -> bool {
    match r {
        Ok(_) => counter >= window.next || (window.next - counter <= 1024
            && !window.received.contains(counter)),
        Err(CryptoError::Encrypt) => window.next - counter > 1024,
        Err(CryptoError::NonceReplayed) => {
            &&& 0 < window.next - counter <= 1024
            &&& window.received.contains(counter)
        },
        _ => false,
    }
}

/// The window after a counter was received: it ends after the highest counter so
/// far, and remembers that counter and the earlier ones that are at most 1024
/// below its end.
pub open spec fn marks(before: ReplayView, counter: int, after: ReplayView) -> bool {
    &&& after.next == (if counter >= before.next {
        counter + 1
    } else {
        before.next
    })
    &&& forall|other: int| #[trigger]
        after.received.contains(other) <==> {
            &&& 0 <= other < after.next && after.next - other <= 1024
            &&& other == counter || before.received.contains(other)
        }
}

/// Every call of `will_accept` and every new validator.
pub proof fn will_accept_judges_by_the_window(
    validator: &ReplayValidator,
    counter: u64,
    r: Result<(), CryptoError>,
    fresh: ReplayValidator,
)
    requires
        call_ensures(ReplayValidator::will_accept, (validator, counter), r),
        call_ensures(ReplayValidator::new, (), fresh),
    ensures
        judges(validator@, counter as int, r),
        fresh@.next == 0,
        fresh@.received == Set::<int>::empty(),
{
}

/// Every default validator has received nothing, and every copy what its original
/// has.
pub proof fn validators_start_empty_and_are_copied(
    validator: &ReplayValidator,
    fresh: ReplayValidator,
    copy: ReplayValidator,
)
    requires
        call_ensures(ReplayValidator::default, (), fresh),
        call_ensures(ReplayValidator::clone, (validator,), copy),
    ensures
        fresh@.next == 0,
        fresh@.received == Set::<int>::empty(),
        copy@ == validator@,
{
}

/// Every call of `mark_did_receive` marks the counter.
pub proof fn mark_did_receive_marks(validator: &mut ReplayValidator, counter: u64)
    requires
        old(validator)@.wf(),
        call_ensures(ReplayValidator::mark_did_receive, (validator, counter), ()),
    ensures
        marks(old(validator)@, counter as int, final(validator)@),
{
}

// --- Transport ---

/// `r` is what a receiver makes of the packet at the counter `n`.
pub open spec fn receives(
    before: ReceiveView,
    n: u64,
    nonce: Seq<u8>,
    ciphertext: Seq<u8>,
    r: Result<Vec<u8>, CryptoError>,
) -> bool {
    if before.replay.next - n > 1024 {
        r == Err::<Vec<u8>, _>(CryptoError::Encrypt)
    } else if n < before.replay.next && before.replay.received.contains(n as int) {
        r == Err::<Vec<u8>, _>(CryptoError::NonceReplayed)
    } else {
        opens(before.cipher, n, nonce, ciphertext, r)
    }
}

/// As [`receives`], into a buffer.
pub open spec fn receives_into(
    before: ReceiveView,
    n: u64,
    nonce: Seq<u8>,
    ciphertext: Seq<u8>,
    out: Seq<u8>,
    r: Result<usize, CryptoError>,
    after: Seq<u8>,
) -> bool {
    if before.replay.next - n > 1024 {
        after == out && r == Err::<usize, _>(CryptoError::Encrypt)
    } else if n < before.replay.next && before.replay.received.contains(n as int) {
        after == out && r == Err::<usize, _>(CryptoError::NonceReplayed)
    } else {
        opens_into(before.cipher, n, nonce, ciphertext, out, r, after)
    }
}

/// The window and the count of failures after a packet at the counter `n`: one
/// that opens is marked, one that the window lets through and that does not open
/// is counted.
pub open spec fn records(before: ReceiveView, n: u64, success: bool, after: ReceiveView) -> bool {
    let refused = before.replay.next - n > 1024 || (n < before.replay.next
        && before.replay.received.contains(n as int));
    if refused {
        after.replay == before.replay && after.auth_failures == before.auth_failures
    } else if success {
        marks(before.replay, n as int, after.replay) && after.auth_failures == before.auth_failures
    } else {
        &&& after.replay == before.replay
        &&& after.auth_failures == (before.auth_failures + 1) % 0x1_0000_0000_0000_0000
    }
}

/// Every call of a receiver's `recv`.
pub proof fn receiver_recv(
    receiver: &mut ReceiveState,
    nonce: Seq<u8>,
    ciphertext: &[u8],
    r: Result<Vec<u8>, CryptoError>,
)
    requires
        old(receiver)@.replay.wf(),
        packets::counter_nonce(nonce, old(receiver)@.cipher.n),
        call_ensures(ReceiveState::recv, (receiver, ciphertext), r),
    ensures
        receives(old(receiver)@, old(receiver)@.cipher.n, nonce, ciphertext@, r),
        records(old(receiver)@, old(receiver)@.cipher.n, r is Ok, final(receiver)@),
        moves_on(old(receiver)@.cipher, r is Ok, final(receiver)@.cipher),
{
    packets::lemma_counter_nonce(nonce, old(receiver)@.cipher.n);
}

/// Every call of a receiver's `recv_into`.
pub proof fn receiver_recv_into(
    receiver: &mut ReceiveState,
    nonce: Seq<u8>,
    ciphertext: &[u8],
    out: &mut [u8],
    r: Result<usize, CryptoError>,
)
    requires
        old(receiver)@.replay.wf(),
        packets::counter_nonce(nonce, old(receiver)@.cipher.n),
        call_ensures(ReceiveState::recv_into, (receiver, ciphertext, out), r),
    ensures
        receives_into(
            old(receiver)@,
            old(receiver)@.cipher.n,
            nonce,
            ciphertext@,
            old(out)@,
            r,
            final(out)@,
        ),
        records(old(receiver)@, old(receiver)@.cipher.n, r is Ok, final(receiver)@),
        moves_on(old(receiver)@.cipher, r is Ok, final(receiver)@.cipher),
{
    packets::lemma_counter_nonce(nonce, old(receiver)@.cipher.n);
    lemma_decrypts_into(old(receiver)@.cipher.key, nonce, ciphertext@, old(out)@, r, final(out)@);
}

/// Every call of a receiver's `recv_with_nonce`.
pub proof fn receiver_recv_with_nonce(
    receiver: &mut ReceiveState,
    n: u64,
    nonce: Seq<u8>,
    ciphertext: &[u8],
    r: Result<Vec<u8>, CryptoError>,
)
    requires
        old(receiver)@.replay.wf(),
        packets::counter_nonce(nonce, n),
        call_ensures(ReceiveState::recv_with_nonce, (receiver, n, ciphertext), r),
    ensures
        receives(old(receiver)@, n, nonce, ciphertext@, r),
        records(old(receiver)@, n, r is Ok, final(receiver)@),
        final(receiver)@.cipher == old(receiver)@.cipher,
{
    packets::lemma_counter_nonce(nonce, n);
}

/// Every call of a receiver's `recv_into_with_nonce`.
pub proof fn receiver_recv_into_with_nonce(
    receiver: &mut ReceiveState,
    n: u64,
    nonce: Seq<u8>,
    ciphertext: &[u8],
    out: &mut [u8],
    r: Result<usize, CryptoError>,
)
    requires
        old(receiver)@.replay.wf(),
        packets::counter_nonce(nonce, n),
        call_ensures(ReceiveState::recv_into_with_nonce, (receiver, n, ciphertext, out), r),
    ensures
        receives_into(old(receiver)@, n, nonce, ciphertext@, old(out)@, r, final(out)@),
        records(old(receiver)@, n, r is Ok, final(receiver)@),
        final(receiver)@.cipher == old(receiver)@.cipher,
{
    packets::lemma_counter_nonce(nonce, n);
    lemma_decrypts_into(old(receiver)@.cipher.key, nonce, ciphertext@, old(out)@, r, final(out)@);
}

/// Every call of a receiver's `rekey`: the window starts anew with the key.
pub proof fn receiver_rekey(receiver: &mut ReceiveState, r: Result<(), CryptoError>)
    requires
        call_ensures(ReceiveState::rekey, (receiver,), r),
    ensures
        rekeys(old(receiver)@.cipher, r, final(receiver)@.cipher),
        final(receiver)@.auth_failures == old(receiver)@.auth_failures,
        r is Ok ==> final(receiver)@.replay.next == 0 && final(receiver)@.replay.received == Set::<
            int,
        >::empty(),
        r is Err ==> final(receiver)@ == old(receiver)@,
{
    lemma_rekeyed(old(receiver)@.cipher);
}

/// Every new transport sends and receives under the keys that it is given, with
/// nothing received yet, and its halves are what it holds.
pub proof fn transport_starts_with_its_keys(
    keys: CipherStates,
    transport: TransportState,
    halves: (CipherState, ReceiveState),
    cipher_state: CipherState,
    receiver: ReceiveState,
)
    requires
        call_ensures(TransportState::new, (keys,), transport),
        call_ensures(TransportState::into_halves, (transport,), halves),
        call_ensures(ReceiveState::new, (cipher_state,), receiver),
    ensures
        transport@.send == keys.send@,
        transport@.receive.cipher == keys.recv@,
        transport@.receive.auth_failures == 0,
        transport@.receive.replay.next == 0,
        transport@.receive.replay.received == Set::<int>::empty(),
        halves.0@ == transport@.send,
        halves.1@ == transport@.receive,
        receiver@.cipher == cipher_state@,
        receiver@.auth_failures == 0,
        receiver@.replay.next == 0,
        receiver@.replay.received == Set::<int>::empty(),
{
}

/// Every call of `send` seals at the send counter, and leaves the receiving half
/// alone.
pub proof fn transport_send(
    transport: &mut TransportState,
    nonce: Seq<u8>,
    plaintext: &[u8],
    r: Result<Vec<u8>, CryptoError>,
)
    requires
        packets::counter_nonce(nonce, old(transport)@.send.n),
        call_ensures(TransportState::send, (transport, plaintext), r),
    ensures
        seals(old(transport)@.send, old(transport)@.send.n, nonce, plaintext@, r),
        moves_on(old(transport)@.send, r is Ok, final(transport)@.send),
        final(transport)@.receive == old(transport)@.receive,
{
    packets::lemma_counter_nonce(nonce, old(transport)@.send.n);
}

/// Every call of `send_into`.
pub proof fn transport_send_into(
    transport: &mut TransportState,
    nonce: Seq<u8>,
    plaintext: &[u8],
    out: &mut [u8],
    r: Result<usize, CryptoError>,
)
    requires
        packets::counter_nonce(nonce, old(transport)@.send.n),
        call_ensures(TransportState::send_into, (transport, plaintext, out), r),
    ensures
        seals_into(
            old(transport)@.send,
            old(transport)@.send.n,
            nonce,
            plaintext@,
            old(out)@,
            r,
            final(out)@,
        ),
        moves_on(old(transport)@.send, r is Ok, final(transport)@.send),
        final(transport)@.receive == old(transport)@.receive,
{
    packets::lemma_counter_nonce(nonce, old(transport)@.send.n);
    lemma_encrypts_into(old(transport)@.send.key, nonce, plaintext@, old(out)@, r, final(out)@);
}

/// Every call of `send_with_nonce`.
pub proof fn transport_send_with_nonce(
    transport: &TransportState,
    n: u64,
    nonce: Seq<u8>,
    plaintext: &[u8],
    r: Result<Vec<u8>, CryptoError>,
)
    requires
        packets::counter_nonce(nonce, n),
        call_ensures(TransportState::send_with_nonce, (transport, n, plaintext), r),
    ensures
        seals(transport@.send, n, nonce, plaintext@, r),
{
    packets::lemma_counter_nonce(nonce, n);
}

/// Every call of `send_into_with_nonce`.
pub proof fn transport_send_into_with_nonce(
    transport: &TransportState,
    n: u64,
    nonce: Seq<u8>,
    plaintext: &[u8],
    out: &mut [u8],
    r: Result<usize, CryptoError>,
)
    requires
        packets::counter_nonce(nonce, n),
        call_ensures(TransportState::send_into_with_nonce, (transport, n, plaintext, out), r),
    ensures
        seals_into(transport@.send, n, nonce, plaintext@, old(out)@, r, final(out)@),
{
    packets::lemma_counter_nonce(nonce, n);
    lemma_encrypts_into(transport@.send.key, nonce, plaintext@, old(out)@, r, final(out)@);
}

/// Every call of `recv`.
pub proof fn transport_recv(
    transport: &mut TransportState,
    nonce: Seq<u8>,
    ciphertext: &[u8],
    r: Result<Vec<u8>, CryptoError>,
)
    requires
        old(transport)@.receive.replay.wf(),
        packets::counter_nonce(nonce, old(transport)@.receive.cipher.n),
        call_ensures(TransportState::recv, (transport, ciphertext), r),
    ensures
        ({
            let before = old(transport)@.receive;
            let after = final(transport)@.receive;
            &&& receives(before, before.cipher.n, nonce, ciphertext@, r)
            &&& records(before, before.cipher.n, r is Ok, after)
            &&& moves_on(before.cipher, r is Ok, after.cipher)
        }),
        final(transport)@.send == old(transport)@.send,
{
    packets::lemma_counter_nonce(nonce, old(transport)@.receive.cipher.n);
}

/// Every call of `recv_into`.
pub proof fn transport_recv_into(
    transport: &mut TransportState,
    nonce: Seq<u8>,
    ciphertext: &[u8],
    out: &mut [u8],
    r: Result<usize, CryptoError>,
)
    requires
        old(transport)@.receive.replay.wf(),
        packets::counter_nonce(nonce, old(transport)@.receive.cipher.n),
        call_ensures(TransportState::recv_into, (transport, ciphertext, out), r),
    ensures
        ({
            let before = old(transport)@.receive;
            let after = final(transport)@.receive;
            &&& receives_into(
                before,
                before.cipher.n,
                nonce,
                ciphertext@,
                old(out)@,
                r,
                final(out)@,
            )
            &&& records(before, before.cipher.n, r is Ok, after)
            &&& moves_on(before.cipher, r is Ok, after.cipher)
        }),
        final(transport)@.send == old(transport)@.send,
{
    packets::lemma_counter_nonce(nonce, old(transport)@.receive.cipher.n);
    lemma_decrypts_into(old(transport)@.receive.cipher.key, nonce, ciphertext@, old(out)@, r, final(out)@);
}

/// Every call of `recv_with_nonce`.
pub proof fn transport_recv_with_nonce(
    transport: &mut TransportState,
    n: u64,
    nonce: Seq<u8>,
    ciphertext: &[u8],
    r: Result<Vec<u8>, CryptoError>,
)
    requires
        old(transport)@.receive.replay.wf(),
        packets::counter_nonce(nonce, n),
        call_ensures(TransportState::recv_with_nonce, (transport, n, ciphertext), r),
    ensures
        receives(old(transport)@.receive, n, nonce, ciphertext@, r),
        records(old(transport)@.receive, n, r is Ok, final(transport)@.receive),
        final(transport)@.receive.cipher == old(transport)@.receive.cipher,
        final(transport)@.send == old(transport)@.send,
{
    packets::lemma_counter_nonce(nonce, n);
}

/// Every call of `recv_into_with_nonce`.
pub proof fn transport_recv_into_with_nonce(
    transport: &mut TransportState,
    n: u64,
    nonce: Seq<u8>,
    ciphertext: &[u8],
    out: &mut [u8],
    r: Result<usize, CryptoError>,
)
    requires
        old(transport)@.receive.replay.wf(),
        packets::counter_nonce(nonce, n),
        call_ensures(TransportState::recv_into_with_nonce, (transport, n, ciphertext, out), r),
    ensures
        receives_into(old(transport)@.receive, n, nonce, ciphertext@, old(out)@, r, final(out)@),
        records(old(transport)@.receive, n, r is Ok, final(transport)@.receive),
        final(transport)@.receive.cipher == old(transport)@.receive.cipher,
        final(transport)@.send == old(transport)@.send,
{
    packets::lemma_counter_nonce(nonce, n);
    lemma_decrypts_into(old(transport)@.receive.cipher.key, nonce, ciphertext@, old(out)@, r, final(out)@);
}

/// Every call of `rekey_send` rekeys the sending half alone.
pub proof fn transport_rekey_send(transport: &mut TransportState, r: Result<(), CryptoError>)
    requires
        call_ensures(TransportState::rekey_send, (transport,), r),
    ensures
        rekeys(old(transport)@.send, r, final(transport)@.send),
        final(transport)@.receive == old(transport)@.receive,
{
    lemma_rekeyed(old(transport)@.send);
}

/// Every call of `rekey_recv` rekeys the receiving half alone, with a new window.
pub proof fn transport_rekey_recv(transport: &mut TransportState, r: Result<(), CryptoError>)
    requires
        call_ensures(TransportState::rekey_recv, (transport,), r),
    ensures
        ({
            let before = old(transport)@.receive;
            let after = final(transport)@.receive;
            &&& rekeys(before.cipher, r, after.cipher)
            &&& after.auth_failures == before.auth_failures
            &&& r is Ok ==> after.replay.next == 0 && after.replay.received == Set::<int>::empty()
            &&& r is Err ==> after == before
        }),
        final(transport)@.send == old(transport)@.send,
{
    lemma_rekeyed(old(transport)@.receive.cipher);
}

} // verus!
