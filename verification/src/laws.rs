//! What holds of the protocol as a whole.
//!
//! The laws of one module alone stand in that module: what `encode` writes
//! `decode` reads ([`wire`](crate::wire)), and the order of the key agreements
//! does not matter ([`shares`](crate::shares)).
//!
//! What each operation does on its own stands in the modules below: for packets
//! and keys ([`packets`], [`calls`]), for the messages of a handshake ([`steps`],
//! [`handshakes`]) and for their bytes ([`format`]). [`inputs`] says what the
//! operations take.

pub mod calls;
pub mod format;
pub mod handshakes;
pub mod inputs;
pub mod packets;
pub mod steps;

use crate::bytes;
use crate::cipher::{self, CipherView};
use crate::crypto;
use crate::error::{CryptoError, FengniErrorView, HandshakeErrorView};
use crate::handshake::model::{
    self, HandshakeModel, Outcome, StateView, FINISH_PLAINTEXT, HKDF_INFO_CONFIRM, HKDF_INFO_HELLO,
    HKDF_INFO_IDENTITY_HIDE, HKDF_INFO_PROOF, HKDF_INFO_RECV, HKDF_INFO_SEND,
};
use crate::keys::KeyPairView;
use crate::primitives;
use crate::replay::ReplayView;
use crate::shares;
use crate::transport::ReceiveView;
use crate::wire;
use crate::wire::fengni_message::VariantView;
use vstd::prelude::*;
use vstd::string::*;

verus! {

// --- Keys ---

/// Two peers who combine their own secret with the other's public key share a
/// secret.
pub proof fn shared_secret_agrees(a: KeyPairView, b: KeyPairView)
    requires
        a.wf(),
        b.wf(),
    ensures
        a.shared_with(b.public) == b.shared_with(a.public),
{
}

/// Two peers who pin each other precompute the same static-static secret.
pub proof fn pinned_secret_agrees(a: KeyPairView, b: KeyPairView)
    requires
        a.wf(),
        b.wf(),
    ensures
        a.pinned_to(b.public).ss == b.pinned_to(a.public).ss,
{
    shared_secret_agrees(a, b);
}

/// Whatever the prologue, the keys of the handshake are derived under different
/// labels, each serving one purpose.
pub proof fn labels_separate_keys(prologue: Seq<u8>)
    ensures
        ({
            let hello = prologue + HKDF_INFO_HELLO.spec_bytes();
            let send = prologue + HKDF_INFO_SEND.spec_bytes();
            let recv = prologue + HKDF_INFO_RECV.spec_bytes();
            let confirm = prologue + HKDF_INFO_CONFIRM.spec_bytes();
            let identity = prologue + HKDF_INFO_IDENTITY_HIDE.spec_bytes();
            let possession = prologue + HKDF_INFO_PROOF.spec_bytes();
            &&& hello != send && hello != recv && hello != confirm && hello != identity
            &&& send != recv && send != confirm && send != identity
            &&& recv != confirm && recv != identity
            &&& confirm != identity
            &&& possession != hello && possession != send && possession != recv
            &&& possession != confirm && possession != identity
        }),
{
    model::lemma_label_lengths();
    let send = prologue + HKDF_INFO_SEND.spec_bytes();
    let recv = prologue + HKDF_INFO_RECV.spec_bytes();
    let possession = prologue + HKDF_INFO_PROOF.spec_bytes();
    let at = prologue.len() + 20;
    let before = prologue.len() + 10;
    assert((prologue + HKDF_INFO_HELLO.spec_bytes()).len() == prologue.len() + 25);
    assert(send.len() == prologue.len() + 24 && recv.len() == prologue.len() + 24);
    assert(possession.len() == prologue.len() + 24);
    assert((prologue + HKDF_INFO_CONFIRM.spec_bytes()).len() == prologue.len() + 27);
    assert((prologue + HKDF_INFO_IDENTITY_HIDE.spec_bytes()).len() == prologue.len() + 23);
    assert(send[at as int] != recv[at as int]) by {
        reveal_strlit("fengni-v1-transport-send");
        reveal_strlit("fengni-v1-transport-recv");
        is_ascii_spec_bytes(HKDF_INFO_SEND);
        is_ascii_spec_bytes(HKDF_INFO_RECV);
        assert(send[at as int] == HKDF_INFO_SEND.spec_bytes()[20]);
        assert(recv[at as int] == HKDF_INFO_RECV.spec_bytes()[20]);
    }
    assert(possession[before as int] != send[before as int] && possession[before as int]
        != recv[before as int]) by {
        reveal_strlit("fengni-v1-transport-send");
        reveal_strlit("fengni-v1-transport-recv");
        reveal_strlit("fengni-v1-auth-proof-key");
        is_ascii_spec_bytes(HKDF_INFO_SEND);
        is_ascii_spec_bytes(HKDF_INFO_RECV);
        is_ascii_spec_bytes(HKDF_INFO_PROOF);
        assert(send[before as int] == HKDF_INFO_SEND.spec_bytes()[10]);
        assert(recv[before as int] == HKDF_INFO_RECV.spec_bytes()[10]);
        assert(possession[before as int] == HKDF_INFO_PROOF.spec_bytes()[10]);
    }
}

/// Under different prologues, keys for the same purpose are derived under
/// different labels.
pub proof fn prologues_separate_keys(p: Seq<u8>, q: Seq<u8>, label: Seq<u8>)
    requires
        p != q,
    ensures
        p + label != q + label,
{
    if p + label == q + label {
        assert(p.len() == q.len()) by {
            assert((p + label).len() == (q + label).len());
        }
        assert(p =~= (p + label).take(p.len() as int));
        assert(q =~= (q + label).take(q.len() as int));
    }
}

/// An HMAC tag depends on the bytes, not on how they are cut into chunks.
pub proof fn hmac_ignores_chunking(key: Seq<u8>, a: Seq<&[u8]>, b: Seq<&[u8]>)
    requires
        bytes::concat(a) == bytes::concat(b),
    ensures
        crypto::hmac_of(key, a) == crypto::hmac_of(key, b),
{
}

/// An empty chunk does not change an HMAC tag, wherever it stands.
pub proof fn hmac_ignores_empty_chunks(key: Seq<u8>, data: Seq<&[u8]>, at: int, empty: &[u8])
    requires
        0 <= at <= data.len(),
        empty@.len() == 0,
    ensures
        crypto::hmac_of(key, data.insert(at, empty)) == crypto::hmac_of(key, data),
{
    lemma_concat_empty_chunk(data, at, empty);
}

proof fn lemma_concat_empty_chunk(data: Seq<&[u8]>, at: int, empty: &[u8])
    requires
        0 <= at <= data.len(),
        empty@.len() == 0,
    ensures
        bytes::concat(data.insert(at, empty)) == bytes::concat(data),
    decreases data.len(),
{
    let longer = data.insert(at, empty);
    if at == data.len() {
        assert(longer.drop_last() =~= data);
        assert(bytes::concat(data) + empty@ =~= bytes::concat(data));
    } else {
        assert(longer.drop_last() =~= data.drop_last().insert(at, empty));
        lemma_concat_empty_chunk(data.drop_last(), at, empty);
    }
}

// --- Nonces ---

/// Different counters have different nonces.
pub proof fn nonces_are_distinct(m: u64, n: u64)
    requires
        m != n,
    ensures
        cipher::nonce_bytes(m) != cipher::nonce_bytes(n),
{
    let (x, y) = (bytes::le_bytes(m), bytes::le_bytes(n));
    if cipher::nonce_bytes(m) == cipher::nonce_bytes(n) {
        assert forall|i: int| 0 <= i < 8 implies #[trigger] x[i] == #[trigger] y[i] by {
            assert(cipher::nonce_bytes(m)[i + 4] == cipher::nonce_bytes(n)[i + 4]);
        }
        assert(x[0] == y[0] && x[1] == y[1] && x[2] == y[2] && x[3] == y[3]);
        assert(x[4] == y[4] && x[5] == y[5] && x[6] == y[6] && x[7] == y[7]);
        assert(m == n) by (bit_vector)
            requires
                m % 0x100 == n % 0x100,
                m / 0x100 % 0x100 == n / 0x100 % 0x100,
                m / 0x1_0000 % 0x100 == n / 0x1_0000 % 0x100,
                m / 0x100_0000 % 0x100 == n / 0x100_0000 % 0x100,
                m / 0x1_0000_0000 % 0x100 == n / 0x1_0000_0000 % 0x100,
                m / 0x100_0000_0000 % 0x100 == n / 0x100_0000_0000 % 0x100,
                m / 0x1_0000_0000_0000 % 0x100 == n / 0x1_0000_0000_0000 % 0x100,
                m / 0x100_0000_0000_0000 % 0x100 == n / 0x100_0000_0000_0000 % 0x100,
        ;
    }
}

/// No data packet is encrypted under the nonce that is reserved for `rekey`.
pub proof fn rekey_nonce_is_reserved(cipher_state: CipherView, n: u64, plaintext: Seq<u8>)
    requires
        cipher_state.sealed(n, plaintext) is Ok,
    ensures
        cipher::nonce_bytes(n) != cipher::nonce_bytes(u64::MAX),
{
    nonces_are_distinct(n, u64::MAX);
}

/// The state after a list of calls of `encrypt` or `encrypt_into`, each given by
/// whether it returned `Ok`. Under the reserved nonce none does.
pub open spec fn after_sending(cipher_state: CipherView, accepted: Seq<bool>) -> CipherView
    decreases accepted.len(),
{
    if accepted.len() == 0 {
        cipher_state
    } else {
        let before = after_sending(cipher_state, accepted.drop_last());
        before.after(accepted.last() && before.n != u64::MAX)
    }
}

/// A packet that is encrypted now and one that is encrypted after any number of
/// others under the same key never share a nonce.
pub proof fn nonces_are_not_reused(cipher_state: CipherView, between: Seq<bool>)
    requires
        cipher_state.n != u64::MAX,
    ensures
        ({
            let later = after_sending(cipher_state.after(true), between);
            &&& later.key == cipher_state.key
            &&& cipher::nonce_bytes(later.n) != cipher::nonce_bytes(cipher_state.n)
        }),
{
    let next = cipher_state.after(true);
    lemma_nonce_moves_on(next, between);
    nonces_are_distinct(after_sending(next, between).n, cipher_state.n);
}

proof fn lemma_nonce_moves_on(cipher_state: CipherView, accepted: Seq<bool>)
    ensures
        after_sending(cipher_state, accepted).key == cipher_state.key,
        after_sending(cipher_state, accepted).n >= cipher_state.n,
    decreases accepted.len(),
{
    if accepted.len() > 0 {
        lemma_nonce_moves_on(cipher_state, accepted.drop_last());
    }
}

// --- Replay protection ---

/// The state after a list of counters was marked, one after the other.
pub open spec fn marked_all(replay: ReplayView, counters: Seq<u64>) -> ReplayView
    decreases counters.len(),
{
    if counters.len() == 0 {
        replay
    } else {
        marked_all(replay, counters.drop_last()).marked(counters.last() as int)
    }
}

/// A counter that was marked as received is refused from then on, whatever
/// counters are marked after it.
pub proof fn marked_counter_stays_refused(replay: ReplayView, counter: u64, later: Seq<u64>)
    requires
        replay.wf(),
    ensures
        marked_all(replay.marked(counter as int), later).verdict(counter as int) is Err,
        marked_all(replay.marked(counter as int), later).wf(),
    decreases later.len(),
{
    let start = replay.marked(counter as int);
    lemma_marked(replay, counter as int, counter as int);
    if later.len() > 0 {
        marked_counter_stays_refused(replay, counter, later.drop_last());
        lemma_marked(marked_all(start, later.drop_last()), later.last() as int, counter as int);
    }
}

/// Marking a counter makes that counter refused, and keeps others refused.
proof fn lemma_marked(replay: ReplayView, marked: int, other: int)
    requires
        replay.wf(),
        0 <= marked,
        0 <= other,
    ensures
        replay.marked(marked).wf(),
        replay.marked(marked).verdict(marked) is Err,
        replay.verdict(other) is Err ==> replay.marked(marked).verdict(other) is Err,
{
}

/// A counter that was just marked is a replay.
pub proof fn marked_counter_is_replayed(replay: ReplayView, counter: u64)
    requires
        replay.wf(),
        replay.verdict(counter as int) is Ok,
    ensures
        replay.marked(counter as int).verdict(counter as int) == Err::<(), _>(
            CryptoError::NonceReplayed,
        ),
{
}

/// Marking a counter that is too old changes nothing.
pub proof fn too_old_counter_changes_nothing(replay: ReplayView, counter: u64)
    requires
        replay.verdict(counter as int) == Err::<(), _>(CryptoError::Encrypt),
    ensures
        replay.marked(counter as int) == replay,
{
}

/// A counter that was never marked is accepted as long as it lies within the
/// window of the highest counter, in whatever order counters arrive.
pub proof fn unseen_counter_in_window_is_accepted(counters: Seq<u64>, counter: u64)
    requires
        !counters.contains(counter),
        forall|i: int|
            0 <= i < counters.len() ==> #[trigger] counters[i] < counter
                + crate::replay::REPLAY_N_BITS,
        orderly(counters),
    ensures
        marked_all(ReplayView::fresh(), counters).verdict(counter as int) == Ok::<(), CryptoError>(
            (),
        ),
{
    lemma_marked_all(counters);
}

/// Each counter was accepted when it was marked.
pub open spec fn orderly(counters: Seq<u64>) -> bool
    decreases counters.len(),
{
    counters.len() == 0 || {
        &&& orderly(counters.drop_last())
        &&& marked_all(ReplayView::fresh(), counters.drop_last()).verdict(
            counters.last() as int,
        ) is Ok
    }
}

/// What is remembered was marked, and `next` follows some marked counter.
proof fn lemma_marked_all(counters: Seq<u64>)
    requires
        orderly(counters),
    ensures
        marked_all(ReplayView::fresh(), counters).wf(),
        forall|n: int| #[trigger]
            marked_all(ReplayView::fresh(), counters).received.contains(n) ==> exists|i: int|
                0 <= i < counters.len() && #[trigger] counters[i] == n,
        marked_all(ReplayView::fresh(), counters).next == 0 || exists|i: int|
            0 <= i < counters.len() && #[trigger] counters[i] + 1 == marked_all(
                ReplayView::fresh(),
                counters,
            ).next,
    decreases counters.len(),
{
    if counters.len() > 0 {
        let init = counters.drop_last();
        let before = marked_all(ReplayView::fresh(), init);
        let after = marked_all(ReplayView::fresh(), counters);
        let c = counters.last() as int;
        lemma_marked_all(init);
        lemma_marked(before, c, c);
        assert forall|n: int| #[trigger] after.received.contains(n) implies exists|i: int|
            0 <= i < counters.len() && #[trigger] counters[i] == n by {
            if n == c {
                assert(counters[counters.len() - 1] == n);
            } else {
                assert(before.received.contains(n));
                let i = choose|i: int| 0 <= i < init.len() && #[trigger] init[i] == n;
                assert(counters[i] == n);
            }
        }
        if c >= before.next {
            assert(counters[counters.len() - 1] + 1 == after.next);
        } else if before.next != 0 {
            let i = choose|i: int| 0 <= i < init.len() && #[trigger] init[i] + 1 == before.next;
            assert(counters[i] + 1 == after.next);
        }
    }
}

// --- Transport ---

/// The sender's key state and the peer's receiving half belong to one stream:
/// they have the same key and nonce, and no later nonce has been received.
pub open spec fn in_step(sender: CipherView, receiver: ReceiveView) -> bool {
    &&& sender == receiver.cipher
    &&& sender.has_key
    &&& receiver.replay.wf()
    &&& receiver.replay.next <= sender.n
}

/// What `send` returns, the peer's `recv` takes back to the plaintext, and the
/// two stay in step.
///
/// The first two conditions on `ciphertext` are what `send` promises of it.
pub proof fn sent_packet_is_received(
    sender: CipherView,
    receiver: ReceiveView,
    plaintext: Seq<u8>,
    ciphertext: Seq<u8>,
)
    requires
        sender.sealed(sender.n, plaintext) == Ok::<_, CryptoError>(ciphertext),
        sender.opened(sender.n, ciphertext) == Ok::<_, CryptoError>(plaintext),
        in_step(sender, receiver),
    ensures
        receiver.opened(receiver.cipher.n, ciphertext) == Ok::<_, CryptoError>(plaintext),
        in_step(sender.after(true), receiver.after_next(true)),
{
    lemma_marked(receiver.replay, sender.n as int, sender.n as int);
}

/// What `send_with_nonce` returns, the peer's `recv_with_nonce` takes back to
/// the plaintext, unless the replay window refuses the nonce.
pub proof fn sent_packet_with_nonce_is_received(
    sender: CipherView,
    receiver: ReceiveView,
    nonce: u64,
    plaintext: Seq<u8>,
    ciphertext: Seq<u8>,
)
    requires
        sender.sealed(nonce, plaintext) == Ok::<_, CryptoError>(ciphertext),
        sender.opened(nonce, ciphertext) == Ok::<_, CryptoError>(plaintext),
        sender.key == receiver.cipher.key,
        sender.has_key == receiver.cipher.has_key,
        receiver.replay.verdict(nonce as int) is Ok,
    ensures
        receiver.opened(nonce, ciphertext) == Ok::<_, CryptoError>(plaintext),
{
}

/// A nonce under which a packet was received is refused when it comes again,
/// whatever bytes come with it, with a buffer for the plaintext or without, and
/// the refusal changes nothing.
pub proof fn received_packet_is_refused_again(
    receiver: ReceiveView,
    nonce: u64,
    again: Seq<u8>,
    out: Seq<u8>,
)
    requires
        receiver.replay.wf(),
        receiver.replay.verdict(nonce as int) is Ok,
    ensures
        ({
            let after = receiver.after(nonce, true);
            &&& after.opened(nonce, again) == Err::<Seq<u8>, _>(CryptoError::NonceReplayed)
            &&& after.opened_into(nonce, again, out) == (
                Err::<nat, _>(CryptoError::NonceReplayed),
                out,
            )
            &&& after.after(nonce, false) == after
        }),
{
    marked_counter_is_replayed(receiver.replay, nonce);
}

/// A call of one of the receiving methods, with its outcome.
pub struct Receipt {
    /// The nonce of `recv_with_nonce` or `recv_into_with_nonce`; `None` for
    /// `recv` and `recv_into`, which take the receiver's own.
    pub nonce: Option<u64>,
    /// Whether the call returned `Ok`.
    pub accepted: bool,
}

impl Receipt {
    /// The nonce that the call is under.
    pub open spec fn nonce_at(self, receiver: ReceiveView) -> u64 {
        match self.nonce {
            Some(nonce) => nonce,
            None => receiver.cipher.n,
        }
    }

    /// The state after the call.
    pub open spec fn taken_by(self, receiver: ReceiveView) -> ReceiveView {
        match self.nonce {
            Some(nonce) => receiver.after(nonce, self.accepted),
            None => receiver.after_next(self.accepted),
        }
    }
}

/// The state after a list of calls, one after the other.
pub open spec fn after_receipts(receiver: ReceiveView, receipts: Seq<Receipt>) -> ReceiveView
    decreases receipts.len(),
{
    if receipts.len() == 0 {
        receiver
    } else {
        receipts.last().taken_by(after_receipts(receiver, receipts.drop_last()))
    }
}

/// A nonce under which a packet was received is never accepted again under the
/// same key, whatever calls come in between and whatever their outcomes are, with
/// a buffer for the plaintext or without. The refusal changes nothing.
pub proof fn received_nonce_stays_refused(
    receiver: ReceiveView,
    first: Receipt,
    between: Seq<Receipt>,
    again: Seq<u8>,
    out: Seq<u8>,
)
    requires
        receiver.replay.wf(),
        receiver.replay.verdict(first.nonce_at(receiver) as int) is Ok,
        first.accepted,
    ensures
        ({
            let nonce = first.nonce_at(receiver);
            let later = after_receipts(first.taken_by(receiver), between);
            &&& later.opened(nonce, again) is Err
            &&& later.opened_into(nonce, again, out).0 is Err
            &&& later.opened_into(nonce, again, out).1 == out
            &&& later.after(nonce, false) == later
            &&& later.replay.wf()
        }),
{
    lemma_nonce_is_refused(receiver, first, between);
}

/// It is the replay check that refuses the nonce.
proof fn lemma_nonce_is_refused(receiver: ReceiveView, first: Receipt, between: Seq<Receipt>)
    requires
        receiver.replay.wf(),
        receiver.replay.verdict(first.nonce_at(receiver) as int) is Ok,
        first.accepted,
    ensures
        ({
            let later = after_receipts(first.taken_by(receiver), between);
            &&& later.replay.verdict(first.nonce_at(receiver) as int) is Err
            &&& later.replay.wf()
        }),
    decreases between.len(),
{
    let nonce = first.nonce_at(receiver);
    lemma_marked(receiver.replay, nonce as int, nonce as int);
    if between.len() > 0 {
        lemma_nonce_is_refused(receiver, first, between.drop_last());
        let before = after_receipts(first.taken_by(receiver), between.drop_last());
        lemma_marked(before.replay, between.last().nonce_at(before) as int, nonce as int);
    }
}

/// A sender and a receiver who are in step and both rekey are in step.
pub proof fn rekey_keeps_in_step(sender: CipherView, receiver: ReceiveView)
    requires
        in_step(sender, receiver),
    ensures
        in_step(sender.rekeyed(), receiver.rekeyed()),
{
}

/// `send_into` writes what `send` returns, and fails only where `send` does or
/// the buffer is too short.
pub proof fn send_into_agrees_with_send(
    sender: CipherView,
    n: u64,
    plaintext: Seq<u8>,
    out: Seq<u8>,
)
    requires
        out.len() >= plaintext.len() + crypto::TAG_LEN,
    ensures
        match sender.sealed(n, plaintext) {
            Ok(ciphertext) => sender.sealed_into(n, plaintext, out) == (
                Ok::<nat, CryptoError>(ciphertext.len()),
                bytes::overwrite(out, ciphertext),
            ),
            Err(e) => sender.sealed_into(n, plaintext, out).0 == Err::<nat, _>(e),
        },
{
}

/// `recv_into` writes the plaintext that `recv` returns, and fails as `recv`
/// does unless the buffer is too short.
pub proof fn recv_into_agrees_with_recv(
    receiver: ReceiveView,
    nonce: u64,
    ciphertext: Seq<u8>,
    out: Seq<u8>,
)
    requires
        out.len() + crypto::TAG_LEN >= ciphertext.len(),
    ensures
        match receiver.opened(nonce, ciphertext) {
            Ok(plaintext) => receiver.opened_into(nonce, ciphertext, out) == (
                Ok::<nat, CryptoError>(plaintext.len()),
                bytes::overwrite(out, plaintext),
            ),
            Err(e) => receiver.opened_into(nonce, ciphertext, out).0 == Err::<nat, _>(e),
        },
{
}

// --- Handshake ---

/// A message that is refused leaves the handshake as it was.
pub proof fn refused_message_changes_nothing(
    hs: HandshakeModel,
    raw: Seq<u8>,
    now: u64,
    token_time: u64,
)
    requires
        hs.step(raw, now, token_time).1 is Err,
    ensures
        hs.step(raw, now, token_time).0 == hs,
{
}

/// No message changes our key pairs or the prologue; at most the peer is
/// pinned.
pub proof fn keys_never_change(hs: HandshakeModel, raw: Seq<u8>, now: u64, token_time: u64)
    ensures
        ({
            let after = hs.step(raw, now, token_time).0;
            &&& after.ephemeral == hs.ephemeral
            &&& after.prologue == hs.prologue
            &&& after.identity.secret == hs.identity.secret
            &&& after.identity.public == hs.identity.public
            &&& hs.identity.wf() ==> after.identity.wf()
        }),
{
}

/// A message that is accepted moves the handshake to the next phase of its
/// role. Only the last message of the initiator's role has no reply.
pub proof fn accepted_message_moves_on(hs: HandshakeModel, raw: Seq<u8>, now: u64, token_time: u64)
    requires
        hs.step(raw, now, token_time).1 is Ok,
    ensures
        ({
            let (after, outcome) = hs.step(raw, now, token_time);
            match hs.state {
                StateView::ExpectHello => {
                    after.state is ExpectAuthenticate && outcome->Ok_0 is Some
                },
                StateView::ExpectHelloReply { .. } => {
                    after.state is ExpectServerFinish && outcome->Ok_0 is Some
                },
                StateView::ExpectAuthenticate { .. } => {
                    after.state is Completed && outcome->Ok_0 is Some
                },
                StateView::ExpectServerFinish { .. } => {
                    after.state is Completed && outcome->Ok_0 is None
                },
                StateView::Completed { .. } => false,
            }
        }),
{
}

/// A completed handshake refuses every message.
pub proof fn completed_handshake_refuses_all(
    hs: HandshakeModel,
    raw: Seq<u8>,
    now: u64,
    token_time: u64,
)
    requires
        hs.state is Completed,
    ensures
        hs.step(raw, now, token_time).0 == hs,
        match wire::decoded(raw) {
            Err(e) => hs.step(raw, now, token_time).1 == Err::<Option<Seq<u8>>, _>(
                FengniErrorView::Wire(crate::error::WireError::Decode(e)),
            ),
            Ok(_) => hs.step(raw, now, token_time).1 == Err::<Option<Seq<u8>>, _>(
                FengniErrorView::Handshake(
                    HandshakeErrorView::UnexpectedMessage { expected: hs.state },
                ),
            ),
        },
{
}

/// An initiator goes on only with a responder who claims the identity that it
/// pinned, encrypted under the handshake key, and that identity enters the
/// session keys. The responder proves it with ServerFinish.
pub proof fn initiator_goes_on_with_pinned_responder_only(
    hs: HandshakeModel,
    pinned: Seq<u8>,
    raw: Seq<u8>,
    now: u64,
    token_time: u64,
)
    requires
        hs.state == (StateView::ExpectHelloReply { peer_static_public: pinned }),
        hs.step(raw, now, token_time).1 is Ok,
    ensures
        ({
            let after = hs.step(raw, now, token_time).0;
            &&& wire::decoded(raw) matches Ok(Some(VariantView::HelloReply {
                ephemeral_public,
                session_token,
            }))
            &&& hs.handshake_key(ephemeral_public) matches Ok(hk)
            &&& crypto::opened(hk, model::zero_nonce(), session_token) matches Ok(token)
            &&& token.take(32) == pinned
            &&& after.state == (StateView::ExpectServerFinish {
                peer_ephemeral_public: ephemeral_public,
                peer_identity_public: pinned,
            })
        }),
{
}

/// An initiator completes only with a responder who confirms the session keys of
/// the pinned identity. Their material takes, besides our own secrets, the secret
/// of that identity: two of its four shares are those that the holder of the
/// identity computes from our public keys.
pub proof fn initiator_completes_with_proven_responder_only(
    hs: HandshakeModel,
    peer_ephemeral: Seq<u8>,
    pinned: Seq<u8>,
    raw: Seq<u8>,
    now: u64,
    token_time: u64,
)
    requires
        hs.wf(),
        hs.state == (StateView::ExpectServerFinish {
            peer_ephemeral_public: peer_ephemeral,
            peer_identity_public: pinned,
        }),
        hs.step(raw, now, token_time).1 is Ok,
    ensures
        ({
            let after = hs.step(raw, now, token_time).0;
            &&& wire::decoded(raw) matches Ok(Some(VariantView::ServerFinish { payload }))
            &&& hs.session_keys(peer_ephemeral, pinned) matches Ok(keys)
            &&& crypto::opened(keys.confirm, model::zero_nonce(), payload) == Ok::<_, CryptoError>(
                FINISH_PLAINTEXT.spec_bytes(),
            )
            &&& after.identity == hs.identity.pinned_to(pinned)
        }),
        forall|holder: KeyPairView|
            #![trigger holder.wf()]
            holder.wf() && holder.public == pinned ==> {
                let agreements = hs.agreements(peer_ephemeral, pinned);
                &&& agreements[1] == holder.shared_with(hs.ephemeral.public)
                &&& agreements[3] == holder.shared_with(hs.identity.public)
            },
{
    assert forall|holder: KeyPairView|
        #![trigger holder.wf()]
        holder.wf() && holder.public == pinned implies {
        let agreements = hs.agreements(peer_ephemeral, pinned);
        &&& agreements[1] == holder.shared_with(hs.ephemeral.public)
        &&& agreements[3] == holder.shared_with(hs.identity.public)
    } by {
        shared_secret_agrees(hs.ephemeral, holder);
        shared_secret_agrees(hs.identity, holder);
    }
}

/// A responder completes only with an initiator who proved possession of the
/// secret of the identity that it claims; that identity is pinned. The key of the
/// proof takes, besides the ephemeral-ephemeral share, the share that the holder
/// of the identity computes from our ephemeral public key.
pub proof fn responder_completes_with_proven_initiator_only(
    hs: HandshakeModel,
    peer_ephemeral: Seq<u8>,
    raw: Seq<u8>,
    now: u64,
    token_time: u64,
)
    requires
        hs.wf(),
        hs.state == (StateView::ExpectAuthenticate { peer_ephemeral_public: peer_ephemeral }),
        hs.step(raw, now, token_time).1 is Ok,
    ensures
        ({
            let after = hs.step(raw, now, token_time).0;
            &&& wire::decoded(raw) matches Ok(Some(VariantView::Authenticate {
                identity_public,
                proof,
            }))
            &&& hs.peer_identity(peer_ephemeral, identity_public) matches Ok(peer)
            &&& hs.proof_key(
                hs.ephemeral.shared_with(peer_ephemeral),
                hs.ephemeral.shared_with(peer),
            ) matches Ok(proof_key)
            &&& proof == HandshakeModel::proof_of(proof_key, peer)
            &&& after.identity == hs.identity.pinned_to(peer)
            &&& forall|holder: KeyPairView|
                #![trigger holder.wf()]
                holder.wf() && holder.public == peer ==> hs.ephemeral.shared_with(peer)
                    == holder.shared_with(hs.ephemeral.public)
        }),
{
    assert forall|holder: KeyPairView| #![trigger holder.wf()] holder.wf() implies hs.ephemeral
        .shared_with(holder.public) == holder.shared_with(hs.ephemeral.public) by {
        shared_secret_agrees(hs.ephemeral, holder);
    }
}

/// A responder refuses an initiator with any other proof than that, and stays
/// where it was.
pub proof fn unproven_initiator_is_refused(
    hs: HandshakeModel,
    peer_ephemeral: Seq<u8>,
    hidden: Seq<u8>,
    peer: Seq<u8>,
    proof_bytes: Seq<u8>,
    now: u64,
    token_time: u64,
)
    requires
        hs.state == (StateView::ExpectAuthenticate { peer_ephemeral_public: peer_ephemeral }),
        hs.peer_identity(peer_ephemeral, hidden) == Ok::<_, FengniErrorView>(peer),
        prologue_fits(hs.prologue),
        proof_bytes.len() == crypto::HMAC_TAG_LEN,
        hs.peer_proof_key(peer_ephemeral, peer) matches Ok(proof_key) ==> proof_bytes
            != HandshakeModel::proof_of(proof_key, peer),
        wire::encoded(
            Some(VariantView::Authenticate { identity_public: hidden, proof: proof_bytes }),
        ).len() <= usize::MAX,
    ensures
        hs.step(
            wire::encoded(
                Some(VariantView::Authenticate { identity_public: hidden, proof: proof_bytes }),
            ),
            now,
            token_time,
        ) == (hs, Err::<Option<Seq<u8>>, _>(model::rejected("HMAC proof invalid"))),
{
    wire::decode_inverts_encode(
        Some(VariantView::Authenticate { identity_public: hidden, proof: proof_bytes }),
    );
    lemma_proof_key_derives(
        hs,
        hs.ephemeral.shared_with(peer_ephemeral),
        hs.ephemeral.shared_with(peer),
    );
}

/// With a prologue that fits, the key of the proof can be derived.
proof fn lemma_proof_key_derives(hs: HandshakeModel, ee: Seq<u8>, identity_share: Seq<u8>)
    requires
        prologue_fits(hs.prologue),
        ee.len() == 32,
        identity_share.len() == 32,
    ensures
        hs.proof_key(ee, identity_share) is Ok,
{
    model::lemma_label_lengths();
    shares::lemma_combined_len(seq![ee, identity_share], 32);
}

/// A responder accepts a Hello whose timestamp is at most 60 seconds off and whose
/// key has 32 bytes, whatever they are, and waits for Authenticate.
pub proof fn timely_hello_is_accepted(
    hs: HandshakeModel,
    ephemeral_public: Seq<u8>,
    timestamp: u64,
    now: u64,
    token_time: u64,
)
    requires
        hs.wf(),
        hs.state is ExpectHello,
        prologue_fits(hs.prologue),
        ephemeral_public.len() == 32,
        timestamp <= now + 60,
        now <= timestamp + 60,
        wire::encoded(Some(VariantView::Hello { ephemeral_public, timestamp })).len() <= usize::MAX,
    ensures
        ({
            let raw = wire::encoded(Some(VariantView::Hello { ephemeral_public, timestamp }));
            let (after, outcome) = hs.step(raw, now, token_time);
            &&& outcome matches Ok(Some(_))
            &&& after == (HandshakeModel {
                state: StateView::ExpectAuthenticate { peer_ephemeral_public: ephemeral_public },
                ..hs
            })
        }),
{
    model::lemma_label_lengths();
    wire::decode_inverts_encode(Some(VariantView::Hello { ephemeral_public, timestamp }));
    assert(hs.token_plaintext(token_time).len() == 40);
}

/// A Hello whose timestamp is more than 60 seconds off is refused with the two
/// times.
pub proof fn expired_hello_is_refused(
    hs: HandshakeModel,
    ephemeral_public: Seq<u8>,
    timestamp: u64,
    now: u64,
    token_time: u64,
)
    requires
        hs.state is ExpectHello,
        timestamp + 60 < now || timestamp > now + 60,
        wire::encoded(Some(VariantView::Hello { ephemeral_public, timestamp })).len() <= usize::MAX,
    ensures
        ({
            let raw = wire::encoded(Some(VariantView::Hello { ephemeral_public, timestamp }));
            hs.step(raw, now, token_time) == (
                hs,
                Err::<Option<Seq<u8>>, _>(
                    FengniErrorView::Handshake(
                        HandshakeErrorView::TimestampExpired { peer_ts: timestamp, local_ts: now },
                    ),
                ),
            )
        }),
{
    wire::decode_inverts_encode(Some(VariantView::Hello { ephemeral_public, timestamp }));
}

/// Whether every label of the handshake fits behind the prologue.
pub open spec fn prologue_fits(prologue: Seq<u8>) -> bool {
    &&& prologue.len() + 32 <= primitives::HASH_MAX_LEN
    &&& prologue.len() + 32 <= usize::MAX
}

/// The message that an accepted message is answered with.
pub open spec fn reply_of(outcome: Outcome) -> Seq<u8> {
    outcome->Ok_0->Some_0
}

/// The responder accepts the initiator's Hello and answers with a token that the
/// initiator can read.
pub proof fn hello_is_answered(
    a: HandshakeModel,
    b: HandshakeModel,
    timestamp: u64,
    time: (u64, u64),
    outcome: Outcome,
    b1: HandshakeModel,
) -> (session_token: Seq<u8>)
    requires
        a.wf(),
        b.wf(),
        a.state is ExpectHelloReply,
        b.state is ExpectHello,
        a.prologue == b.prologue,
        prologue_fits(a.prologue),
        wire::encoded(Some(a.hello(timestamp))).len() <= isize::MAX,
        model::clock_agrees(timestamp, time.0),
        b.handled(wire::encoded(Some(a.hello(timestamp))), time.0, time.1, outcome, b1),
    ensures
        outcome == Ok::<_, FengniErrorView>(
            Some(
                wire::encoded(
                    Some(
                        VariantView::HelloReply {
                            ephemeral_public: b.ephemeral.public,
                            session_token,
                        },
                    ),
                ),
            ),
        ),
        reply_of(outcome).len() <= isize::MAX,
        a.handshake_key(b.ephemeral.public) matches Ok(hk) && crypto::opened(
            hk,
            model::zero_nonce(),
            session_token,
        ) == Ok::<_, CryptoError>(b.token_plaintext(time.1)),
        b1 == (HandshakeModel {
            state: StateView::ExpectAuthenticate { peer_ephemeral_public: a.ephemeral.public },
            ..b
        }),
{
    model::lemma_label_lengths();
    wire::decode_inverts_encode(Some(a.hello(timestamp)));
    shared_secret_agrees(a.ephemeral, b.ephemeral);
    assert(a.handshake_key(b.ephemeral.public) == b.handshake_key(a.ephemeral.public));
    let hk = a.handshake_key(b.ephemeral.public)->Ok_0;
    let token = b.token_plaintext(time.1);
    assert(token.len() == 40);
    crypto::sealed(hk, model::zero_nonce(), token)->Ok_0
}

/// The initiator accepts the reply of the pinned responder and answers with its
/// hidden identity and a proof.
pub proof fn reply_is_answered(
    a: HandshakeModel,
    b: HandshakeModel,
    token_time: u64,
    session_token: Seq<u8>,
    time: (u64, u64),
    outcome: Outcome,
    a1: HandshakeModel,
) -> (hidden: Seq<u8>)
    requires
        a.wf(),
        b.wf(),
        a.state == (StateView::ExpectHelloReply { peer_static_public: b.identity.public }),
        a.prologue == b.prologue,
        prologue_fits(a.prologue),
        a.handshake_key(b.ephemeral.public) matches Ok(hk) && crypto::opened(
            hk,
            model::zero_nonce(),
            session_token,
        ) == Ok::<_, CryptoError>(b.token_plaintext(token_time)),
        ({
            let reply = wire::encoded(
                Some(
                    VariantView::HelloReply { ephemeral_public: b.ephemeral.public, session_token },
                ),
            );
            reply.len() <= isize::MAX && a.handled(reply, time.0, time.1, outcome, a1)
        }),
    ensures
        ({
            let proof_key = a.own_proof_key(b.ephemeral.public)->Ok_0;
            let tag = HandshakeModel::proof_of(proof_key, a.identity.public);
            &&& outcome == Ok::<_, FengniErrorView>(
                Some(
                    wire::encoded(
                        Some(VariantView::Authenticate { identity_public: hidden, proof: tag }),
                    ),
                ),
            )
        }),
        reply_of(outcome).len() <= isize::MAX,
        b.peer_identity(a.ephemeral.public, hidden) == Ok::<_, FengniErrorView>(a.identity.public),
        a1 == (HandshakeModel {
            state: StateView::ExpectServerFinish {
                peer_ephemeral_public: b.ephemeral.public,
                peer_identity_public: b.identity.public,
            },
            ..a
        }),
{
    model::lemma_label_lengths();
    let reply = VariantView::HelloReply { ephemeral_public: b.ephemeral.public, session_token };
    wire::decode_inverts_encode(Some(reply));
    assert(b.token_plaintext(token_time).take(32) =~= b.identity.public);
    lemma_proof_key_derives(
        a,
        a.ephemeral.shared_with(b.ephemeral.public),
        a.identity.shared_with(b.ephemeral.public),
    );
    shared_secret_agrees(a.ephemeral, b.identity);
    let share = a.ephemeral.shared_with(b.identity.public);
    assert(a.key(share, HKDF_INFO_IDENTITY_HIDE) == b.key(share, HKDF_INFO_IDENTITY_HIDE));
    let ik = a.key(share, HKDF_INFO_IDENTITY_HIDE)->Ok_0;
    crypto::sealed(ik, model::zero_nonce(), a.identity.public)->Ok_0
}

/// The responder accepts the initiator's proof, completes, and answers with a
/// confirmation that the initiator can read.
pub proof fn authentication_is_answered(
    a: HandshakeModel,
    b: HandshakeModel,
    hidden: Seq<u8>,
    b1: HandshakeModel,
    time: (u64, u64),
    outcome: Outcome,
    b2: HandshakeModel,
) -> (payload: Seq<u8>)
    requires
        a.wf(),
        b.wf(),
        a.prologue == b.prologue,
        prologue_fits(a.prologue),
        b1 == (HandshakeModel {
            state: StateView::ExpectAuthenticate { peer_ephemeral_public: a.ephemeral.public },
            ..b
        }),
        b.peer_identity(a.ephemeral.public, hidden) == Ok::<_, FengniErrorView>(a.identity.public),
        ({
            let proof_key = a.own_proof_key(b.ephemeral.public)->Ok_0;
            let tag = HandshakeModel::proof_of(proof_key, a.identity.public);
            let auth = wire::encoded(
                Some(VariantView::Authenticate { identity_public: hidden, proof: tag }),
            );
            &&& auth.len() <= isize::MAX
            &&& b1.handled(auth, time.0, time.1, outcome, b2)
        }),
    ensures
        outcome == Ok::<_, FengniErrorView>(
            Some(wire::encoded(Some(VariantView::ServerFinish { payload }))),
        ),
        reply_of(outcome).len() <= isize::MAX,
        a.session_keys(b.ephemeral.public, b.identity.public) is Ok,
        ({
            let keys = a.session_keys(b.ephemeral.public, b.identity.public)->Ok_0;
            &&& crypto::opened(keys.confirm, model::zero_nonce(), payload) == Ok::<_, CryptoError>(
                FINISH_PLAINTEXT.spec_bytes(),
            )
            &&& b2.state == (StateView::Completed { send_key: keys.send, recv_key: keys.recv })
        }),
        b2.identity == b.identity.pinned_to(a.identity.public),
{
    model::lemma_label_lengths();
    let (ea, ia) = (a.ephemeral.public, a.identity.public);
    shared_secret_agrees(a.ephemeral, b.ephemeral);
    shared_secret_agrees(a.identity, b.ephemeral);
    lemma_proof_key_derives(
        a,
        a.ephemeral.shared_with(b.ephemeral.public),
        a.identity.shared_with(b.ephemeral.public),
    );
    assert(a.own_proof_key(b.ephemeral.public) == b1.peer_proof_key(ea, ia));
    let tag = HandshakeModel::proof_of(a.own_proof_key(b.ephemeral.public)->Ok_0, ia);
    wire::decode_inverts_encode(
        Some(VariantView::Authenticate { identity_public: hidden, proof: tag }),
    );
    assert(b1.peer_identity(ea, hidden) == b.peer_identity(ea, hidden));
    lemma_session_keys_agree(a, b);
    lemma_session_keys_derive(a, b);
    assert(b1.session_keys(ea, ia) == b.session_keys(ea, ia));
    let keys = b.session_keys(ea, ia)->Ok_0;
    crypto::sealed(keys.confirm, model::zero_nonce(), FINISH_PLAINTEXT.spec_bytes())->Ok_0
}

/// An initiator who pinned the responder's public key, and that responder, with
/// the same prologue and clocks that agree, complete the handshake: every
/// message is accepted, both peers end with the same two keys, one's send key
/// being the other's receive key, and each has pinned the other.
///
/// `hello` is what the initiator's `send_hello` returned with the given
/// timestamp. The outcomes are what `handle_message` returned for it at the
/// responder, and from then on for each reply at the other peer; each time is
/// that of the call and that of its session token.
pub proof fn handshake_completes(
    a: HandshakeModel,
    b: HandshakeModel,
    timestamp: u64,
    hello: Seq<u8>,
    time1: (u64, u64),
    outcome1: Outcome,
    b1: HandshakeModel,
    time2: (u64, u64),
    outcome2: Outcome,
    a1: HandshakeModel,
    time3: (u64, u64),
    outcome3: Outcome,
    b2: HandshakeModel,
    time4: (u64, u64),
    outcome4: Outcome,
    a2: HandshakeModel,
)
    requires
        a.wf(),
        b.wf(),
        a.state == (StateView::ExpectHelloReply { peer_static_public: b.identity.public }),
        b.state is ExpectHello,
        a.prologue == b.prologue,
        prologue_fits(a.prologue),
        a.hello_outcome(timestamp) == Ok::<_, FengniErrorView>(hello),
        hello.len() <= isize::MAX,
        model::clock_agrees(timestamp, time1.0),
        b.handled(hello, time1.0, time1.1, outcome1, b1),
        a.handled(reply_of(outcome1), time2.0, time2.1, outcome2, a1),
        b1.handled(reply_of(outcome2), time3.0, time3.1, outcome3, b2),
        a1.handled(reply_of(outcome3), time4.0, time4.1, outcome4, a2),
    ensures
        outcome1 matches Ok(Some(_)),
        outcome2 matches Ok(Some(_)),
        outcome3 matches Ok(Some(_)),
        outcome4 == Ok::<Option<Seq<u8>>, FengniErrorView>(None),
        a2.state is Completed,
        b2.state is Completed,
        a2.state->send_key == b2.state->recv_key,
        a2.state->recv_key == b2.state->send_key,
        a2.identity == a.identity.pinned_to(b.identity.public),
        b2.identity == b.identity.pinned_to(a.identity.public),
        a2.identity.ss == b2.identity.ss,
{
    let session_token = hello_is_answered(a, b, timestamp, time1, outcome1, b1);
    let hidden = reply_is_answered(a, b, time1.1, session_token, time2, outcome2, a1);
    let payload = authentication_is_answered(a, b, hidden, b1, time3, outcome3, b2);
    wire::decode_inverts_encode(Some(VariantView::ServerFinish { payload }));
    let (eb, ib) = (b.ephemeral.public, b.identity.public);
    assert(a1.session_keys(eb, ib) == a.session_keys(eb, ib));
    pinned_secret_agrees(a.identity, b.identity);
}

/// With a prologue that fits, the session keys can be derived.
proof fn lemma_session_keys_derive(a: HandshakeModel, b: HandshakeModel)
    requires
        a.wf(),
        b.wf(),
        prologue_fits(a.prologue),
    ensures
        a.session_keys(b.ephemeral.public, b.identity.public) is Ok,
{
    model::lemma_label_lengths();
    shares::lemma_combined_len(a.agreements(b.ephemeral.public, b.identity.public), 32);
}

/// Both peers derive the same session keys.
proof fn lemma_session_keys_agree(a: HandshakeModel, b: HandshakeModel)
    requires
        a.wf(),
        b.wf(),
        a.prologue == b.prologue,
    ensures
        a.session_keys(b.ephemeral.public, b.identity.public) == b.session_keys(
            a.ephemeral.public,
            a.identity.public,
        ),
{
    let x = a.agreements(b.ephemeral.public, b.identity.public);
    let y = b.agreements(a.ephemeral.public, a.identity.public);
    shared_secret_agrees(a.ephemeral, b.ephemeral);
    shared_secret_agrees(a.ephemeral, b.identity);
    shared_secret_agrees(a.identity, b.ephemeral);
    shared_secret_agrees(a.identity, b.identity);
    assert(y =~= seq![x[0], x[2], x[1], x[3]]);
    assert(x.to_multiset() =~= y.to_multiset()) by {
        assert(y =~= x.update(1, x[2]).update(2, x[1]));
        vstd::seq_lib::to_multiset_update(x, 1, x[2]);
        vstd::seq_lib::to_multiset_update(x.update(1, x[2]), 2, x[1]);
        broadcast use vstd::multiset::group_multiset_axioms;
        broadcast use vstd::seq_lib::group_to_multiset_ensures;

    }
    shares::combined_ignores_order(x, y);
}

/// After a completed handshake the transports of the two peers are in step, in
/// both directions.
pub proof fn completed_handshake_puts_transports_in_step(a: StateView, b: StateView)
    requires
        a is Completed,
        b is Completed,
        a->send_key == b->recv_key,
        a->recv_key == b->send_key,
    ensures
        in_step(CipherView::keyed(a->send_key), ReceiveView::fresh(CipherView::keyed(b->recv_key))),
        in_step(CipherView::keyed(b->send_key), ReceiveView::fresh(CipherView::keyed(a->recv_key))),
{
}

/// An initiator refuses a responder with another identity than the pinned one,
/// though that responder follows the protocol.
pub proof fn wrong_responder_is_refused(
    a: HandshakeModel,
    pinned: Seq<u8>,
    m: HandshakeModel,
    timestamp: u64,
    hello: Seq<u8>,
    time1: (u64, u64),
    outcome1: Outcome,
    m1: HandshakeModel,
    time2: (u64, u64),
    outcome2: Outcome,
    a1: HandshakeModel,
)
    requires
        a.wf(),
        m.wf(),
        a.state == (StateView::ExpectHelloReply { peer_static_public: pinned }),
        m.state is ExpectHello,
        m.identity.public != pinned,
        a.prologue == m.prologue,
        a.hello_outcome(timestamp) == Ok::<_, FengniErrorView>(hello),
        hello.len() <= isize::MAX,
        m.handled(hello, time1.0, time1.1, outcome1, m1),
        outcome1 is Ok,
        a.handled(reply_of(outcome1), time2.0, time2.1, outcome2, a1),
    ensures
        outcome2 == Err::<Option<Seq<u8>>, _>(model::rejected("public key mismatch")),
        a1 == a,
{
    let (ea, em) = (a.ephemeral.public, m.ephemeral.public);
    shared_secret_agrees(a.ephemeral, m.ephemeral);
    assert(a.handshake_key(em) == m.handshake_key(ea));
    wire::decode_inverts_encode(Some(a.hello(timestamp)));
    let hk = a.handshake_key(em)->Ok_0;
    let token = m.token_plaintext(time1.1);
    assert(token.take(32) =~= m.identity.public);
    let session_token = crypto::sealed(hk, model::zero_nonce(), token)->Ok_0;
    let reply = VariantView::HelloReply { ephemeral_public: em, session_token };
    assert(outcome1 == Ok::<_, FengniErrorView>(Some(wire::encoded(Some(reply)))));
    wire::decode_inverts_encode(Some(reply));
}

} // verus!
