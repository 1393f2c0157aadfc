//! What encryption, decryption, rekeying and the replay window do, in terms of
//! the algorithms and of numbers.

use crate::bytes;
use crate::cipher::{self, CipherView};
use crate::crypto;
use crate::error::CryptoError;
use crate::keys::KeyPairView;
use crate::primitives;
use crate::replay::ReplayView;
use crate::transport::ReceiveView;
use vstd::prelude::*;

verus! {

// --- Byte strings ---

/// Eight bytes hold a number, lowest byte first.
pub open spec fn holds_le(b: Seq<u8>, n: u64) -> bool {
    &&& b.len() == 8
    &&& n == b[0] + 0x100 * b[1] + 0x1_0000 * b[2] + 0x100_0000 * b[3] + 0x1_0000_0000 * b[4]
        + 0x100_0000_0000 * b[5] + 0x1_0000_0000_0000 * b[6] + 0x100_0000_0000_0000 * b[7]
}

/// Only one string of eight bytes holds a number.
pub proof fn le_bytes_hold_the_number(b: Seq<u8>, n: u64)
    ensures
        holds_le(b, n) <==> b == bytes::le_bytes(n),
{
    if holds_le(b, n) {
        let v7: int = b[7] as int;
        let v6: int = b[6] + 0x100 * v7;
        let v5: int = b[5] + 0x100 * v6;
        let v4: int = b[4] + 0x100 * v5;
        let v3: int = b[3] + 0x100 * v4;
        let v2: int = b[2] + 0x100 * v3;
        let v1: int = b[1] + 0x100 * v2;
        assert(n == b[0] + 0x100 * v1);
        assert(n / 0x100 == v1 && n % 0x100 == b[0]);
        assert(n / 0x1_0000 == v2 && v1 % 0x100 == b[1]);
        assert(n / 0x100_0000 == v3 && v2 % 0x100 == b[2]);
        assert(n / 0x1_0000_0000 == v4 && v3 % 0x100 == b[3]);
        assert(n / 0x100_0000_0000 == v5 && v4 % 0x100 == b[4]);
        assert(n / 0x1_0000_0000_0000 == v6 && v5 % 0x100 == b[5]);
        assert(n / 0x100_0000_0000_0000 == v7 && v6 % 0x100 == b[6]);
        assert(b =~= bytes::le_bytes(n));
    }
    if b == bytes::le_bytes(n) {
        let q1 = n / 0x100;
        let q2 = q1 / 0x100;
        let q3 = q2 / 0x100;
        let q4 = q3 / 0x100;
        let q5 = q4 / 0x100;
        let q6 = q5 / 0x100;
        let q7 = q6 / 0x100;
        assert(n == n % 0x100 + 0x100 * q1);
        assert(q1 == q1 % 0x100 + 0x100 * q2);
        assert(q2 == q2 % 0x100 + 0x100 * q3);
        assert(q3 == q3 % 0x100 + 0x100 * q4);
        assert(q4 == q4 % 0x100 + 0x100 * q5);
        assert(q5 == q5 % 0x100 + 0x100 * q6);
        assert(q6 == q6 % 0x100 + 0x100 * q7);
        assert(q7 < 0x100);
        assert(n / 0x1_0000 == q2);
        assert(n / 0x100_0000 == q3);
        assert(n / 0x1_0000_0000 == q4);
        assert(n / 0x100_0000_0000 == q5);
        assert(n / 0x1_0000_0000_0000 == q6);
        assert(n / 0x100_0000_0000_0000 == q7);
        assert(b[0] == n % 0x100);
        assert(b[1] == q1 % 0x100);
        assert(b[2] == q2 % 0x100);
        assert(b[3] == q3 % 0x100);
        assert(b[4] == q4 % 0x100);
        assert(b[5] == q5 % 0x100);
        assert(b[6] == q6 % 0x100);
        assert(b[7] == q7);
    }
}

/// The big-endian bytes of a number are the little-endian ones in reverse.
pub proof fn be_bytes_hold_the_number(b: Seq<u8>, n: u64)
    ensures
        b.len() == 8 && holds_le(
            seq![b[7], b[6], b[5], b[4], b[3], b[2], b[1], b[0]],
            n,
        ) <==> b == bytes::be_bytes(n),
{
    let turned = seq![b[7], b[6], b[5], b[4], b[3], b[2], b[1], b[0]];
    le_bytes_hold_the_number(turned, n);
    if b.len() == 8 {
        assert(turned =~= b.reverse());
        assert(turned.reverse() =~= b);
        if b == bytes::be_bytes(n) {
            assert(turned =~= bytes::le_bytes(n));
        }
    }
}

/// Overwriting a buffer sets its first bytes and keeps the others.
pub proof fn overwriting_sets_a_prefix(buf: Seq<u8>, written: Seq<u8>)
    requires
        written.len() <= buf.len(),
    ensures
        bytes::overwrite(buf, written).len() == buf.len(),
        forall|i: int|
            0 <= i < buf.len() ==> #[trigger] bytes::overwrite(buf, written)[i] == (if i
                < written.len() {
                written[i]
            } else {
                buf[i]
            }),
{
}

/// The chunks of an HMAC input follow one another, each whole.
pub proof fn chunks_are_joined(key: Seq<u8>, a: Seq<&[u8]>, b: Seq<&[u8]>, chunk: &[u8])
    ensures
        bytes::concat(Seq::<&[u8]>::empty()) == Seq::<u8>::empty(),
        bytes::concat(seq![chunk]) == chunk@,
        bytes::concat(a + b) == bytes::concat(a) + bytes::concat(b),
        crypto::hmac_of(key, a + b) == primitives::hmac_sha256_tag(
            key,
            bytes::concat(a) + bytes::concat(b),
        )@,
        crypto::hmac_of(key, seq![chunk]) == primitives::hmac_sha256_tag(key, chunk@)@,
    decreases b.len(),
{
    reveal_with_fuel(bytes::concat, 2);
    assert(seq![chunk].drop_last() =~= Seq::<&[u8]>::empty());
    assert(bytes::concat(seq![chunk]) =~= chunk@);
    if b.len() == 0 {
        assert(a + b =~= a);
        assert(bytes::concat(a) + bytes::concat(b) =~= bytes::concat(a));
    } else {
        chunks_are_joined(key, a, b.drop_last(), chunk);
        assert((a + b).drop_last() =~= a + b.drop_last());
        assert(bytes::concat(a) + bytes::concat(b) =~= bytes::concat(a + b.drop_last())
            + b.last()@);
    }
}

// --- Algorithms ---

/// A derived key is 32 bytes of HKDF-SHA256 over all of the key material and all
/// of the label.
pub proof fn derived_key_is_hkdf(ikm: Seq<u8>, info: Seq<u8>)
    ensures
        crypto::derived_key(ikm, info) == (if ikm.len() <= 0x1fff_ffff_ffff_ff00 && info.len()
            <= 0x1fff_ffff_ffff_ff00 {
            Ok(primitives::hkdf_sha256(ikm, info, 32))
        } else {
            Err::<Seq<u8>, _>(CryptoError::KeyDerivation)
        }),
{
}

/// Encryption is ChaCha20-Poly1305 under the key and nonce that it is given, for
/// every plaintext up to the cipher's limit.
pub proof fn encryption_is_the_aead(key: Seq<u8>, nonce: Seq<u8>, plaintext: Seq<u8>)
    ensures
        crypto::sealed(key, nonce, plaintext) == (if plaintext.len() <= 0x3f_ffff_ff80 {
            Ok(primitives::aead_seal(key, nonce, plaintext))
        } else {
            Err::<Seq<u8>, _>(CryptoError::Encrypt)
        }),
{
}

/// Decryption is ChaCha20-Poly1305 under the key and nonce that it is given, for
/// every ciphertext that has a tag and is no longer than the limit.
pub proof fn decryption_is_the_aead(key: Seq<u8>, nonce: Seq<u8>, ciphertext: Seq<u8>)
    ensures
        crypto::opened(key, nonce, ciphertext) == (if 16 <= ciphertext.len() <= 0x3f_ffff_ff90 {
            match primitives::aead_open(key, nonce, ciphertext) {
                Some(plaintext) => Ok(plaintext),
                None => Err(CryptoError::Decrypt),
            }
        } else {
            Err::<Seq<u8>, _>(CryptoError::Decrypt)
        }),
{
}

/// Encryption into a buffer writes the ciphertext to its start and keeps the
/// rest. A buffer that is too short is kept whole.
pub proof fn encryption_into_a_buffer(
    key: Seq<u8>,
    nonce: Seq<u8>,
    plaintext: Seq<u8>,
    out: Seq<u8>,
)
    ensures
        ({
            let (r, after) = crypto::sealed_into(key, nonce, plaintext, out);
            let ciphertext = primitives::aead_seal(key, nonce, plaintext);
            if out.len() < plaintext.len() + 16 {
                r == Err::<nat, _>(CryptoError::Encrypt) && after == out
            } else if plaintext.len() > 0x3f_ffff_ff80 {
                r == Err::<nat, _>(CryptoError::Encrypt) && after == plaintext + out.skip(
                    plaintext.len() as int,
                )
            } else {
                r == Ok::<nat, CryptoError>(ciphertext.len()) && after == ciphertext + out.skip(
                    ciphertext.len() as int,
                )
            }
        }),
{
}

/// Decryption into a buffer writes the plaintext to its start and keeps the
/// rest. A buffer that is too short is kept whole; where authentication fails,
/// the ciphertext without its tag stands at the start.
pub proof fn decryption_into_a_buffer(
    key: Seq<u8>,
    nonce: Seq<u8>,
    ciphertext: Seq<u8>,
    out: Seq<u8>,
)
    ensures
        ({
            let (r, after) = crypto::opened_into(key, nonce, ciphertext, out);
            if ciphertext.len() < 16 || out.len() + 16 < ciphertext.len() {
                r == Err::<nat, _>(CryptoError::Decrypt) && after == out
            } else if ciphertext.len() <= 0x3f_ffff_ff90 && primitives::aead_open(
                key,
                nonce,
                ciphertext,
            ) is Some {
                let plaintext = primitives::aead_open(key, nonce, ciphertext)->Some_0;
                r == Ok::<nat, CryptoError>(plaintext.len()) && after == plaintext + out.skip(
                    plaintext.len() as int,
                )
            } else {
                r == Err::<nat, _>(CryptoError::Decrypt) && after == ciphertext.take(
                    ciphertext.len() - 16,
                ) + out.skip(ciphertext.len() - 16)
            }
        }),
{
}

/// A key pair's share with a peer is X25519 of its own secret and the peer's
/// public key, and pinning a peer stores that share and nothing else.
pub proof fn pinning_stores_the_share(pair: KeyPairView, peer: Seq<u8>)
    ensures
        pair.shared_with(peer) == primitives::x25519_shared(pair.secret, peer)@,
        pair.pinned_to(peer).secret == pair.secret,
        pair.pinned_to(peer).public == pair.public,
        pair.pinned_to(peer).ss == Some(primitives::x25519_shared(pair.secret, peer)@),
{
}

/// A sound key pair has 32 bytes each, and its public key is that of its secret.
pub proof fn sound_key_pairs_belong_together(pair: KeyPairView)
    requires
        pair.wf(),
    ensures
        pair.secret.len() == 32,
        pair.public.len() == 32,
        pair.public == primitives::x25519_public(pair.secret)@,
{
}

// --- Packets ---

/// The nonce of a packet: four zero bytes, and its counter, lowest byte first.
pub open spec fn counter_nonce(nonce: Seq<u8>, n: u64) -> bool {
    &&& nonce.len() == 12
    &&& nonce.take(4) == seq![0u8, 0, 0, 0]
    &&& holds_le(nonce.skip(4), n)
}

/// Each counter has one nonce, and different counters have different ones.
pub proof fn counters_have_their_own_nonces(a: Seq<u8>, m: u64, b: Seq<u8>, n: u64)
    requires
        counter_nonce(a, m),
        counter_nonce(b, n),
    ensures
        a == b <==> m == n,
{
    lemma_counter_nonce(a, m);
    lemma_counter_nonce(b, n);
}

/// The nonce of a counter is the one that the cipher states use.
pub proof fn lemma_counter_nonce(nonce: Seq<u8>, n: u64)
    requires
        counter_nonce(nonce, n),
    ensures
        nonce == cipher::nonce_bytes(n),
{
    le_bytes_hold_the_number(nonce.skip(4), n);
    assert(nonce =~= nonce.take(4) + nonce.skip(4));
    assert(nonce =~= cipher::nonce_bytes(n));
}

/// A packet is sealed under the key of the state and the nonce of its counter,
/// whatever it holds. Nothing is sealed without a key or at the reserved counter.
pub proof fn packet_is_sealed_at_its_counter(
    state: CipherView,
    n: u64,
    nonce: Seq<u8>,
    plaintext: Seq<u8>,
    out: Seq<u8>,
)
    requires
        counter_nonce(nonce, n),
    ensures
        ({
            let ciphertext = primitives::aead_seal(state.key, nonce, plaintext);
            let usable = state.has_key && n != 0xffff_ffff_ffff_ffff;
            &&& state.sealed(n, plaintext) == (if usable && plaintext.len() <= 0x3f_ffff_ff80 {
                Ok(ciphertext)
            } else {
                Err::<Seq<u8>, _>(CryptoError::Encrypt)
            })
            &&& usable && plaintext.len() <= 0x3f_ffff_ff80 && plaintext.len() + 16 <= out.len()
                ==> state.sealed_into(n, plaintext, out) == (
                Ok::<nat, CryptoError>(ciphertext.len()),
                ciphertext + out.skip(ciphertext.len() as int),
            )
            &&& !(usable && plaintext.len() <= 0x3f_ffff_ff80 && plaintext.len() + 16 <= out.len())
                ==> state.sealed_into(n, plaintext, out).0 == Err::<nat, _>(CryptoError::Encrypt)
            &&& !usable || plaintext.len() + 16 > out.len() ==> state.sealed_into(
                n,
                plaintext,
                out,
            ).1 == out
            &&& usable && plaintext.len() > 0x3f_ffff_ff80 && plaintext.len() + 16 <= out.len()
                ==> state.sealed_into(n, plaintext, out).1 == plaintext + out.skip(
                plaintext.len() as int,
            )
        }),
{
    lemma_counter_nonce(nonce, n);
}

/// A packet is opened under the key of the state and the nonce of its counter,
/// whatever it holds.
pub proof fn packet_is_opened_at_its_counter(
    state: CipherView,
    n: u64,
    nonce: Seq<u8>,
    ciphertext: Seq<u8>,
    out: Seq<u8>,
)
    requires
        counter_nonce(nonce, n),
    ensures
        ({
            let opened = primitives::aead_open(state.key, nonce, ciphertext);
            let sized = 16 <= ciphertext.len() <= 0x3f_ffff_ff90;
            let fits = ciphertext.len() <= out.len() + 16;
            &&& state.opened(n, ciphertext) == (if !state.has_key {
                Err(CryptoError::Decrypt)
            } else if n == 0xffff_ffff_ffff_ffff {
                Err(CryptoError::Encrypt)
            } else if sized && opened is Some {
                Ok(opened->Some_0)
            } else {
                Err::<Seq<u8>, _>(CryptoError::Decrypt)
            })
            &&& state.opened_into(n, ciphertext, out).0 == (if !state.has_key {
                Err(CryptoError::Decrypt)
            } else if n == 0xffff_ffff_ffff_ffff {
                Err(CryptoError::Encrypt)
            } else if sized && fits && opened is Some {
                Ok(opened->Some_0.len())
            } else {
                Err::<nat, _>(CryptoError::Decrypt)
            })
            &&& state.opened_into(n, ciphertext, out).0 is Ok ==> state.opened_into(
                n,
                ciphertext,
                out,
            ).1 == opened->Some_0 + out.skip(opened->Some_0.len() as int)
            &&& !state.has_key || n == 0xffff_ffff_ffff_ffff || !fits || ciphertext.len() < 16
                ==> state.opened_into(n, ciphertext, out).1 == out
            &&& state.has_key && n != 0xffff_ffff_ffff_ffff && fits && 16 <= ciphertext.len()
                && state.opened_into(n, ciphertext, out).0 is Err ==> state.opened_into(
                n,
                ciphertext,
                out,
            ).1 == ciphertext.take(ciphertext.len() - 16) + out.skip(ciphertext.len() - 16)
        }),
{
    lemma_counter_nonce(nonce, n);
}

/// A success moves the counter on by one; nothing else changes, and a failure
/// changes nothing. A fresh state has the key that it is given and counter 0.
pub proof fn success_moves_the_counter_on(state: CipherView, key: Seq<u8>)
    ensures
        state.after(false) == state,
        state.n < 0xffff_ffff_ffff_ffff ==> state.after(true).n == state.n + 1,
        state.after(true).key == state.key,
        state.after(true).has_key == state.has_key,
        CipherView::keyed(key) == (CipherView { key, n: 0, has_key: true }),
{
}

/// The key after a rekey is the first 32 bytes of 32 zero bytes encrypted under
/// the old key and the reserved nonce, whatever the counter was; the counter
/// starts again at 0. Without a key nothing changes.
pub proof fn rekey_encrypts_zeros_under_the_reserved_nonce(
    state: CipherView,
    reserved: Seq<u8>,
    block: Seq<u8>,
)
    requires
        reserved == seq![0u8, 0, 0, 0, 0xff, 0xff, 0xff, 0xff, 0xff, 0xff, 0xff, 0xff],
        block.len() == 32,
        forall|i: int| 0 <= i < 32 ==> block[i] == 0,
    ensures
        state.has_key ==> state.rekeyed().key == primitives::aead_seal(
            state.key,
            reserved,
            block,
        ).take(32),
        state.has_key ==> state.rekeyed().n == 0 && state.rekeyed().has_key,
        !state.has_key ==> state.rekeyed() == state,
{
    assert(block =~= cipher::zeros(32));
    let tail = reserved.skip(4);
    assert(holds_le(tail, u64::MAX));
    assert(reserved.take(4) =~= seq![0u8, 0, 0, 0]);
    lemma_counter_nonce(reserved, u64::MAX);
}

/// States with the same key have the same key after a rekey, whatever their
/// counters.
pub proof fn rekey_does_not_depend_on_the_counter(a: CipherView, b: CipherView)
    requires
        a.key == b.key,
        a.has_key == b.has_key,
    ensures
        a.rekeyed().key == b.rekeyed().key,
{
}

// --- Replay window ---

/// A counter is accepted if it is new: at or above `next`, or at most 1024 below
/// it and not received. It is too old if it is further below, and a replay if it
/// was received.
pub proof fn window_is_1024_wide(replay: ReplayView, counter: int)
    requires
        0 <= counter,
    ensures
        replay.verdict(counter) == (if counter >= replay.next {
            Ok(())
        } else if replay.next - counter > 1024 {
            Err(CryptoError::Encrypt)
        } else if replay.received.contains(counter) {
            Err(CryptoError::NonceReplayed)
        } else {
            Ok::<(), CryptoError>(())
        }),
        ReplayView::fresh().next == 0,
        !ReplayView::fresh().received.contains(counter),
{
}

/// Marking a counter of the window, or above it, remembers that counter; of the
/// others, those that the window still covers stay as they were.
pub proof fn marking_remembers_the_counter(replay: ReplayView, counter: int, other: int)
    requires
        replay.wf(),
        0 <= counter,
        0 <= other,
    ensures
        ({
            let after = replay.marked(counter);
            &&& after.next == (if counter >= replay.next {
                counter + 1
            } else {
                replay.next
            })
            &&& after.received.contains(other) <==> {
                &&& other < after.next && after.next - other <= 1024
                &&& other == counter || replay.received.contains(other)
            }
            &&& after.wf()
        }),
{
}

/// Only counters of the window are remembered.
pub proof fn window_covers_what_is_remembered(replay: ReplayView, counter: int)
    requires
        replay.wf(),
        replay.received.contains(counter),
    ensures
        0 <= counter < replay.next,
        replay.next - counter <= 1024,
{
}

// --- Receiving ---

/// A packet is held against the replay window first, and only then decrypted,
/// under its nonce.
pub proof fn packet_passes_the_window_first(
    receiver: ReceiveView,
    nonce: u64,
    ciphertext: Seq<u8>,
    out: Seq<u8>,
)
    ensures
        ({
            let behind = receiver.replay.next - nonce;
            let received = receiver.replay.received.contains(nonce as int);
            if behind > 1024 {
                &&& receiver.opened(nonce, ciphertext) == Err::<Seq<u8>, _>(CryptoError::Encrypt)
                &&& receiver.opened_into(nonce, ciphertext, out) == (
                    Err::<nat, _>(CryptoError::Encrypt),
                    out,
                )
            } else if behind > 0 && received {
                &&& receiver.opened(nonce, ciphertext) == Err::<Seq<u8>, _>(
                    CryptoError::NonceReplayed,
                )
                &&& receiver.opened_into(nonce, ciphertext, out) == (
                    Err::<nat, _>(CryptoError::NonceReplayed),
                    out,
                )
            } else {
                &&& receiver.opened(nonce, ciphertext) == receiver.cipher.opened(nonce, ciphertext)
                &&& receiver.opened_into(nonce, ciphertext, out) == receiver.cipher.opened_into(
                    nonce,
                    ciphertext,
                    out,
                )
            }
        }),
{
}

/// A packet that the window refuses changes nothing; one that does not decrypt is
/// counted and nothing else; one that does is marked and nothing else, but that
/// the receiver's own counter moves on if the packet was under it.
pub proof fn packet_is_counted_or_marked(receiver: ReceiveView, nonce: u64, success: bool)
    ensures
        ({
            let after = receiver.after(nonce, success);
            let refused = receiver.replay.verdict(nonce as int) is Err;
            &&& after.cipher == receiver.cipher
            &&& after.replay == (if success && !refused {
                receiver.replay.marked(nonce as int)
            } else {
                receiver.replay
            })
            &&& success || refused ==> after.auth_failures == receiver.auth_failures
            &&& !success && !refused && receiver.auth_failures < 0xffff_ffff_ffff_ffff
                ==> after.auth_failures == receiver.auth_failures + 1
            &&& !success && !refused && receiver.auth_failures == 0xffff_ffff_ffff_ffff
                ==> after.auth_failures == 0
        }),
        ({
            let after = receiver.after_next(success);
            let same = receiver.after(receiver.cipher.n, success);
            &&& after.replay == same.replay
            &&& after.auth_failures == same.auth_failures
            &&& after.cipher.key == receiver.cipher.key
            &&& after.cipher.has_key == receiver.cipher.has_key
            &&& !success ==> after.cipher.n == receiver.cipher.n
            &&& success && receiver.cipher.n < 0xffff_ffff_ffff_ffff ==> after.cipher.n
                == receiver.cipher.n + 1
        }),
{
}

/// A receiver that rekeys has the rekeyed key and an empty window from counter 0;
/// its count of failures stays. A fresh receiver has no failures and an empty
/// window.
pub proof fn receiver_rekeys_with_an_empty_window(receiver: ReceiveView, cipher_state: CipherView)
    ensures
        receiver.cipher.has_key ==> {
            &&& receiver.rekeyed().cipher == receiver.cipher.rekeyed()
            &&& receiver.rekeyed().replay.next == 0
            &&& receiver.rekeyed().replay.received == Set::<int>::empty()
        },
        !receiver.cipher.has_key ==> receiver.rekeyed() == receiver,
        receiver.rekeyed().auth_failures == receiver.auth_failures,
        ReceiveView::fresh(cipher_state).cipher == cipher_state,
        ReceiveView::fresh(cipher_state).auth_failures == 0,
        ReceiveView::fresh(cipher_state).replay.next == 0,
        ReceiveView::fresh(cipher_state).replay.received == Set::<int>::empty(),
{
}

} // verus!
