//! What a handshake answers to each message, and under which keys, in terms of
//! the algorithms, of byte strings and of numbers.

use super::packets;
use crate::error::{CryptoError, DecodeError, FengniErrorView, HandshakeErrorView, WireError};
use crate::handshake::model::{self, HandshakeModel, Outcome, StateView};
use crate::primitives;
use crate::shares;
use crate::wire;
use crate::wire::fengni_message::VariantView;
use vstd::prelude::*;
use vstd::seq_lib::*;
use vstd::string::*;

verus! {

// --- Order of shares ---

/// `a` equals `b`, or is a prefix of it, or has the smaller byte where they first
/// differ.
pub open spec fn precedes(a: Seq<u8>, b: Seq<u8>) -> bool {
    ||| a.len() <= b.len() && a == b.take(a.len() as int)
    ||| exists|i: int|
        0 <= i < a.len() && i < b.len() && #[trigger] a.take(i) == b.take(i) && a[i] < b[i]
}

/// Shares are ordered by their first byte that differs.
pub proof fn shares_are_ordered_by_first_difference(a: Seq<u8>, b: Seq<u8>)
    ensures
        shares::lex_le(a, b) <==> precedes(a, b),
    decreases a.len(),
{
    if a.len() == 0 {
        assert(a =~= b.take(0));
    } else if b.len() > 0 {
        let (ra, rb) = (a.skip(1), b.skip(1));
        shares_are_ordered_by_first_difference(ra, rb);
        assert(a =~= seq![a[0]] + ra);
        assert(b =~= seq![b[0]] + rb);
        if a[0] < b[0] {
            assert(a.take(0) =~= b.take(0));
        }
        if a[0] == b[0] {
            if precedes(ra, rb) {
                if ra.len() <= rb.len() && ra == rb.take(ra.len() as int) {
                    assert(a =~= b.take(a.len() as int));
                } else {
                    let i = choose|i: int|
                        0 <= i < ra.len() && i < rb.len() && #[trigger] ra.take(i) == rb.take(i)
                            && ra[i] < rb[i];
                    assert(a.take(i + 1) =~= seq![a[0]] + ra.take(i));
                    assert(b.take(i + 1) =~= seq![b[0]] + rb.take(i));
                    assert(a[i + 1] == ra[i] && b[i + 1] == rb[i]);
                }
            }
        }
        if precedes(a, b) {
            if a.len() <= b.len() && a == b.take(a.len() as int) {
                assert(a[0] == b.take(a.len() as int)[0]);
                assert(ra =~= rb.take(ra.len() as int)) by {
                    assert(ra =~= b.take(a.len() as int).skip(1));
                }
            } else {
                let i = choose|i: int|
                    0 <= i < a.len() && i < b.len() && #[trigger] a.take(i) == b.take(i) && a[i]
                        < b[i];
                if i > 0 {
                    assert(a[0] == a.take(i)[0] && b[0] == b.take(i)[0]);
                    assert(ra.take(i - 1) =~= a.take(i).skip(1));
                    assert(rb.take(i - 1) =~= b.take(i).skip(1));
                    assert(ra[i - 1] == a[i] && rb[i - 1] == b[i]);
                }
            }
        }
    }
}

/// The same shares, each before those that it precedes.
pub open spec fn in_order(given: Seq<Seq<u8>>, sorted: Seq<Seq<u8>>) -> bool {
    &&& given.to_multiset() == sorted.to_multiset()
    &&& forall|i: int, j: int|
        0 <= i < j < sorted.len() ==> #[trigger] precedes(sorted[i], sorted[j])
}

/// The combination of shares is their bytes in order, one share after the other.
pub proof fn shares_are_joined_in_order(given: Seq<Seq<u8>>, sorted: Seq<Seq<u8>>)
    requires
        in_order(given, sorted),
    ensures
        sorted.len() == given.len(),
        given.len() == 0 ==> shares::combined(given) == Seq::<u8>::empty(),
        given.len() > 0 ==> shares::combined(given) == shares::combined(sorted.drop_last())
            + sorted.last(),
        given.len() == 2 ==> shares::combined(given) == sorted[0] + sorted[1],
        given.len() == 4 ==> shares::combined(given) == sorted[0] + sorted[1] + sorted[2]
            + sorted[3],
{
    to_multiset_len(given);
    to_multiset_len(sorted);
    lemma_combined_is_joined(given, sorted);
    if given.len() > 0 {
        assert forall|i: int, j: int|
            0 <= i < j < sorted.drop_last().len() implies #[trigger] precedes(
            sorted.drop_last()[i],
            sorted.drop_last()[j],
        ) by {
            assert(precedes(sorted[i], sorted[j]));
        }
        lemma_combined_is_joined(sorted.drop_last(), sorted.drop_last());
    }
    reveal_with_fuel(shares::joined, 5);
    if given.len() == 2 {
        assert(shares::joined(sorted) =~= sorted[0] + sorted[1]);
    }
    if given.len() == 4 {
        assert(shares::joined(sorted) =~= sorted[0] + sorted[1] + sorted[2] + sorted[3]);
    }
}

proof fn lemma_combined_is_joined(given: Seq<Seq<u8>>, sorted: Seq<Seq<u8>>)
    requires
        in_order(given, sorted),
    ensures
        shares::combined(given) == shares::joined(sorted),
{
    shares::combined_ignores_order(given, sorted);
    assert forall|i: int, j: int|
        #![trigger sorted[i], sorted[j]]
        0 <= i < j < sorted.len() implies shares::lex_le(sorted[i], sorted[j]) by {
        assert(precedes(sorted[i], sorted[j]));
        shares_are_ordered_by_first_difference(sorted[i], sorted[j]);
    }
    shares::combined_keeps_sorted(sorted);
}

/// Every call of `sort_and_concat` joins the shares in order.
pub proof fn sort_and_concat_joins_in_order(
    given: &[&[u8; 32]],
    views: Seq<Seq<u8>>,
    sorted: Seq<Seq<u8>>,
    r: Vec<u8>,
)
    requires
        call_ensures(shares::sort_and_concat, (given,), r),
        views.len() == given@.len(),
        forall|i: int| 0 <= i < views.len() ==> #[trigger] views[i] == given@[i]@,
        in_order(views, sorted),
    ensures
        r@.len() == 32 * given@.len(),
        given@.len() > 0 ==> r@ == shares::combined(sorted.drop_last()) + sorted.last(),
        given@.len() == 2 ==> r@ == sorted[0] + sorted[1],
        given@.len() == 4 ==> r@ == sorted[0] + sorted[1] + sorted[2] + sorted[3],
{
    assert(views =~= shares::share_views(given@));
    shares_are_joined_in_order(views, sorted);
}

// --- Keys ---

/// Twelve zero bytes: the nonce of the handshake messages.
pub open spec fn no_nonce() -> Seq<u8> {
    seq![0u8, 0, 0, 0, 0, 0, 0, 0, 0, 0, 0, 0]
}

/// The prologue with a label of `label_len` bytes behind it can be hashed.
pub open spec fn fits(prologue: Seq<u8>, label_len: int) -> bool {
    prologue.len() + label_len <= usize::MAX && prologue.len() + label_len <= 0x1fff_ffff_ffff_ff00
}

/// A key of the handshake is HKDF-SHA256 under the whole prologue and the label
/// behind it, for every prologue that fits.
pub proof fn key_is_derived_under_the_whole_prologue(
    hs: HandshakeModel,
    ikm: Seq<u8>,
    label: &'static str,
)
    ensures
        fits(hs.prologue, label.spec_bytes().len() as int) && ikm.len() <= 0x1fff_ffff_ffff_ff00
            ==> hs.key(ikm, label) == Ok::<_, CryptoError>(
            primitives::hkdf_sha256(ikm, hs.prologue + label.spec_bytes(), 32),
        ),
        !(fits(hs.prologue, label.spec_bytes().len() as int) && ikm.len() <= 0x1fff_ffff_ffff_ff00)
            ==> hs.key(ikm, label) == Err::<Seq<u8>, _>(CryptoError::KeyDerivation),
{
}

/// Handshakes with different prologues derive every key under different labels.
pub proof fn different_prologues_derive_under_different_labels(
    a: HandshakeModel,
    b: HandshakeModel,
    ikm: Seq<u8>,
    label: &'static str,
)
    requires
        a.prologue != b.prologue,
        a.key(ikm, label) is Ok,
        b.key(ikm, label) is Ok,
    ensures
        exists|info_a: Seq<u8>, info_b: Seq<u8>|
            {
                &&& info_a != info_b
                &&& a.key(ikm, label) == Ok::<_, CryptoError>(
                    #[trigger] primitives::hkdf_sha256(ikm, info_a, 32),
                )
                &&& b.key(ikm, label) == Ok::<_, CryptoError>(
                    #[trigger] primitives::hkdf_sha256(ikm, info_b, 32),
                )
            },
{
    let (info_a, info_b) = (a.prologue + label.spec_bytes(), b.prologue + label.spec_bytes());
    super::prologues_separate_keys(a.prologue, b.prologue, label.spec_bytes());
    assert(a.key(ikm, label) == Ok::<_, CryptoError>(primitives::hkdf_sha256(ikm, info_a, 32)));
    assert(b.key(ikm, label) == Ok::<_, CryptoError>(primitives::hkdf_sha256(ikm, info_b, 32)));
}

/// The key of the handshake messages comes from the two ephemeral keys.
pub proof fn handshake_key_is_derived_from_ephemeral_keys(hs: HandshakeModel, peer: Seq<u8>)
    requires
        fits(hs.prologue, 25),
    ensures
        hs.handshake_key(peer) == Ok::<_, CryptoError>(
            primitives::hkdf_sha256(
                primitives::x25519_shared(hs.ephemeral.secret, peer)@,
                hs.prologue + "fengni-v1-handshake-hello".spec_bytes(),
                32,
            ),
        ),
{
    model::lemma_label_lengths();
}

/// The key of our own proof comes from the ephemeral keys, and from our identity
/// and the peer's ephemeral key.
pub proof fn own_proof_key_is_derived_from_our_identity(
    hs: HandshakeModel,
    peer_ephemeral: Seq<u8>,
    sorted: Seq<Seq<u8>>,
)
    requires
        fits(hs.prologue, 24),
        in_order(
            seq![
                primitives::x25519_shared(hs.ephemeral.secret, peer_ephemeral)@,
                primitives::x25519_shared(hs.identity.secret, peer_ephemeral)@,
            ],
            sorted,
        ),
    ensures
        hs.own_proof_key(peer_ephemeral) == Ok::<_, CryptoError>(
            primitives::hkdf_sha256(
                sorted[0] + sorted[1],
                hs.prologue + "fengni-v1-auth-proof-key".spec_bytes(),
                32,
            ),
        ),
{
    model::lemma_label_lengths();
    let given = seq![
        hs.ephemeral.shared_with(peer_ephemeral),
        hs.identity.shared_with(peer_ephemeral),
    ];
    shares::lemma_combined_len(given, 32);
    shares_are_joined_in_order(given, sorted);
}

/// The key of the peer's proof comes from the ephemeral keys, and from our
/// ephemeral key and the peer's identity.
pub proof fn peer_proof_key_is_derived_from_its_identity(
    hs: HandshakeModel,
    peer_ephemeral: Seq<u8>,
    peer_identity: Seq<u8>,
    sorted: Seq<Seq<u8>>,
)
    requires
        fits(hs.prologue, 24),
        in_order(
            seq![
                primitives::x25519_shared(hs.ephemeral.secret, peer_ephemeral)@,
                primitives::x25519_shared(hs.ephemeral.secret, peer_identity)@,
            ],
            sorted,
        ),
    ensures
        hs.peer_proof_key(peer_ephemeral, peer_identity) == Ok::<_, CryptoError>(
            primitives::hkdf_sha256(
                sorted[0] + sorted[1],
                hs.prologue + "fengni-v1-auth-proof-key".spec_bytes(),
                32,
            ),
        ),
{
    model::lemma_label_lengths();
    let given = seq![
        hs.ephemeral.shared_with(peer_ephemeral),
        hs.ephemeral.shared_with(peer_identity),
    ];
    shares::lemma_combined_len(given, 32);
    shares_are_joined_in_order(given, sorted);
}

/// The session keys come from the four key agreements in order, each key under a
/// label of its own.
pub proof fn session_keys_are_derived_from_four_agreements(
    hs: HandshakeModel,
    peer_ephemeral: Seq<u8>,
    peer_identity: Seq<u8>,
    sorted: Seq<Seq<u8>>,
)
    requires
        fits(hs.prologue, 27),
        in_order(four_agreements(hs, peer_ephemeral, peer_identity), sorted),
    ensures
        ({
            let material = sorted[0] + sorted[1] + sorted[2] + sorted[3];
            let keys = hs.session_keys(peer_ephemeral, peer_identity);
            &&& keys is Ok
            &&& keys->Ok_0.send == primitives::hkdf_sha256(
                material,
                hs.prologue + "fengni-v1-transport-send".spec_bytes(),
                32,
            )
            &&& keys->Ok_0.recv == primitives::hkdf_sha256(
                material,
                hs.prologue + "fengni-v1-transport-recv".spec_bytes(),
                32,
            )
            &&& keys->Ok_0.confirm == primitives::hkdf_sha256(
                material,
                hs.prologue + "fengni-v1-handshake-confirm".spec_bytes(),
                32,
            )
        }),
{
    model::lemma_label_lengths();
    let given = hs.agreements(peer_ephemeral, peer_identity);
    assert(given =~= four_agreements(hs, peer_ephemeral, peer_identity));
    shares::lemma_combined_len(given, 32);
    shares_are_joined_in_order(given, sorted);
}

/// The four key agreements, in terms of X25519.
pub open spec fn four_agreements(
    hs: HandshakeModel,
    peer_ephemeral: Seq<u8>,
    peer_identity: Seq<u8>,
) -> Seq<Seq<u8>> {
    seq![
        primitives::x25519_shared(hs.ephemeral.secret, peer_ephemeral)@,
        primitives::x25519_shared(hs.ephemeral.secret, peer_identity)@,
        primitives::x25519_shared(hs.identity.secret, peer_ephemeral)@,
        primitives::x25519_shared(hs.identity.secret, peer_identity)@,
    ]
}

/// No session keys are derived under a prologue that is too long for a label.
pub proof fn no_session_keys_under_an_endless_prologue(
    hs: HandshakeModel,
    peer_ephemeral: Seq<u8>,
    peer_identity: Seq<u8>,
)
    requires
        !fits(hs.prologue, 27),
    ensures
        hs.session_keys(peer_ephemeral, peer_identity) == Err::<model::SessionKeys, _>(
            CryptoError::KeyDerivation,
        ),
{
    model::lemma_label_lengths();
}

/// A sound handshake holds sound key pairs and keys of 32 bytes.
pub proof fn sound_handshakes_hold_whole_keys(hs: HandshakeModel)
    requires
        hs.wf(),
    ensures
        hs.identity.secret.len() == 32 && hs.ephemeral.secret.len() == 32,
        hs.identity.public == primitives::x25519_public(hs.identity.secret)@,
        hs.ephemeral.public == primitives::x25519_public(hs.ephemeral.secret)@,
        match hs.state {
            StateView::ExpectHello => true,
            StateView::ExpectHelloReply { peer_static_public } => peer_static_public.len() == 32,
            StateView::ExpectAuthenticate { peer_ephemeral_public } => peer_ephemeral_public.len()
                == 32,
            StateView::ExpectServerFinish { peer_ephemeral_public, peer_identity_public } =>
            peer_ephemeral_public.len() == 32 && peer_identity_public.len() == 32,
            StateView::Completed { send_key, recv_key } => send_key.len() == 32 && recv_key.len()
                == 32,
        },
{
}

// --- Hello ---

/// Eight bytes hold a time, highest byte first.
pub open spec fn holds_time(b: Seq<u8>, time: u64) -> bool {
    b.len() == 8 && packets::holds_le(
        seq![b[7], b[6], b[5], b[4], b[3], b[2], b[1], b[0]],
        time,
    )
}

/// A responder that waits for Hello answers every Hello with a 32-byte key whose
/// timestamp is at most 60 seconds before or after its own time: with its
/// ephemeral key, and a token that holds its identity and the time under the key
/// of the handshake. It then waits for Authenticate from that peer.
pub proof fn hello_within_60_seconds_is_answered(
    hs: HandshakeModel,
    raw: Seq<u8>,
    ephemeral_public: Seq<u8>,
    timestamp: u64,
    now: u64,
    token_time: u64,
    time_bytes: Seq<u8>,
)
    requires
        hs.state is ExpectHello,
        hs.identity.public.len() == 32,
        fits(hs.prologue, 25),
        wire::decoded(raw) == Ok::<_, DecodeError>(
            Some(VariantView::Hello { ephemeral_public, timestamp }),
        ),
        ephemeral_public.len() == 32,
        timestamp <= now + 60,
        now <= timestamp + 60,
        holds_time(time_bytes, token_time),
    ensures
        ({
            let (after, outcome) = hs.step(raw, now, token_time);
            let key = primitives::hkdf_sha256(
                primitives::x25519_shared(hs.ephemeral.secret, ephemeral_public)@,
                hs.prologue + "fengni-v1-handshake-hello".spec_bytes(),
                32,
            );
            let session_token = primitives::aead_seal(
                key,
                no_nonce(),
                hs.identity.public + time_bytes,
            );
            &&& outcome == Ok::<_, FengniErrorView>(
                Some(
                    wire::encoded(
                        Some(
                            VariantView::HelloReply {
                                ephemeral_public: hs.ephemeral.public,
                                session_token,
                            },
                        ),
                    ),
                ),
            )
            &&& after.state == (StateView::ExpectAuthenticate {
                peer_ephemeral_public: ephemeral_public,
            })
            &&& after.identity == hs.identity
            &&& after.ephemeral == hs.ephemeral
            &&& after.prologue == hs.prologue
        }),
{
    model::lemma_label_lengths();
    packets::be_bytes_hold_the_number(time_bytes, token_time);
    assert(model::zero_nonce() =~= no_nonce());
}

/// What a responder refuses of a Hello, and why. It goes on waiting for Hello.
pub proof fn hello_is_refused_for_a_reason(
    hs: HandshakeModel,
    raw: Seq<u8>,
    ephemeral_public: Seq<u8>,
    timestamp: u64,
    now: u64,
    token_time: u64,
)
    requires
        hs.state is ExpectHello,
        wire::decoded(raw) == Ok::<_, DecodeError>(
            Some(VariantView::Hello { ephemeral_public, timestamp }),
        ),
    ensures
        ({
            let late = timestamp + 60 < now || timestamp > now + 60;
            &&& late ==> hs.step(raw, now, token_time) == (
                hs,
                refused(
                    FengniErrorView::Handshake(
                        HandshakeErrorView::TimestampExpired { peer_ts: timestamp, local_ts: now },
                    ),
                ),
            )
            &&& !late && ephemeral_public.len() != 32 ==> hs.step(raw, now, token_time) == (
                hs,
                refused(
                    FengniErrorView::Handshake(
                        HandshakeErrorView::Malformed { context: "Hello.ephemeral_public" },
                    ),
                ),
            )
            &&& !late && ephemeral_public.len() == 32 && !fits(hs.prologue, 25) ==> hs.step(
                raw,
                now,
                token_time,
            ) == (hs, refused(FengniErrorView::Crypto(CryptoError::KeyDerivation)))
        }),
{
    model::lemma_label_lengths();
}

/// The outcome of a message that is refused.
pub open spec fn refused(e: FengniErrorView) -> Outcome {
    Err(e)
}

// --- HelloReply ---

/// An initiator answers a HelloReply whose token opens to the identity that it
/// pinned: with its own identity, sealed for that responder, and a proof that it
/// holds the secret. It then waits for ServerFinish from that peer.
pub proof fn reply_of_the_pinned_responder_is_answered(
    hs: HandshakeModel,
    raw: Seq<u8>,
    pinned: Seq<u8>,
    ephemeral_public: Seq<u8>,
    session_token: Seq<u8>,
    now: u64,
    token_time: u64,
    sorted: Seq<Seq<u8>>,
)
    requires
        hs.state == (StateView::ExpectHelloReply { peer_static_public: pinned }),
        hs.identity.public.len() == 32,
        fits(hs.prologue, 25),
        wire::decoded(raw) == Ok::<_, DecodeError>(
            Some(VariantView::HelloReply { ephemeral_public, session_token }),
        ),
        ephemeral_public.len() == 32,
        16 <= session_token.len() <= 0x3f_ffff_ff90,
        ({
            let key = primitives::hkdf_sha256(
                primitives::x25519_shared(hs.ephemeral.secret, ephemeral_public)@,
                hs.prologue + "fengni-v1-handshake-hello".spec_bytes(),
                32,
            );
            let token = primitives::aead_open(key, no_nonce(), session_token);
            token is Some && token->Some_0.len() >= 32 && token->Some_0.take(32) == pinned
        }),
        in_order(
            seq![
                primitives::x25519_shared(hs.ephemeral.secret, ephemeral_public)@,
                primitives::x25519_shared(hs.identity.secret, ephemeral_public)@,
            ],
            sorted,
        ),
    ensures
        ({
            let (after, outcome) = hs.step(raw, now, token_time);
            let identity_key = primitives::hkdf_sha256(
                primitives::x25519_shared(hs.ephemeral.secret, pinned)@,
                hs.prologue + "fengni-v1-auth-identity".spec_bytes(),
                32,
            );
            let proof_key = primitives::hkdf_sha256(
                sorted[0] + sorted[1],
                hs.prologue + "fengni-v1-auth-proof-key".spec_bytes(),
                32,
            );
            &&& outcome == Ok::<_, FengniErrorView>(
                Some(
                    wire::encoded(
                        Some(
                            VariantView::Authenticate {
                                identity_public: primitives::aead_seal(
                                    identity_key,
                                    no_nonce(),
                                    hs.identity.public,
                                ),
                                proof: primitives::hmac_sha256_tag(
                                    proof_key,
                                    hs.identity.public + "fengni-v1-auth-proof".spec_bytes(),
                                )@,
                            },
                        ),
                    ),
                ),
            )
            &&& after.state == (StateView::ExpectServerFinish {
                peer_ephemeral_public: ephemeral_public,
                peer_identity_public: pinned,
            })
            &&& after.identity == hs.identity
            &&& after.ephemeral == hs.ephemeral
            &&& after.prologue == hs.prologue
        }),
{
    model::lemma_label_lengths();
    own_proof_key_is_derived_from_our_identity(hs, ephemeral_public, sorted);
    assert(model::zero_nonce() =~= no_nonce());
}

/// What an initiator refuses of a HelloReply, and why. It goes on waiting.
pub proof fn reply_is_refused_for_a_reason(
    hs: HandshakeModel,
    raw: Seq<u8>,
    pinned: Seq<u8>,
    ephemeral_public: Seq<u8>,
    session_token: Seq<u8>,
    now: u64,
    token_time: u64,
)
    requires
        hs.state == (StateView::ExpectHelloReply { peer_static_public: pinned }),
        wire::decoded(raw) == Ok::<_, DecodeError>(
            Some(VariantView::HelloReply { ephemeral_public, session_token }),
        ),
    ensures
        ({
            let key = primitives::hkdf_sha256(
                primitives::x25519_shared(hs.ephemeral.secret, ephemeral_public)@,
                hs.prologue + "fengni-v1-handshake-hello".spec_bytes(),
                32,
            );
            let token = primitives::aead_open(key, no_nonce(), session_token);
            let opens = 16 <= session_token.len() <= 0x3f_ffff_ff90 && token is Some;
            let outcome = hs.step(raw, now, token_time);
            if ephemeral_public.len() != 32 {
                outcome == (
                    hs,
                    refused(
                        FengniErrorView::Handshake(
                            HandshakeErrorView::Malformed {
                                context: "HelloReply.ephemeral_public",
                            },
                        ),
                    ),
                )
            } else if !fits(hs.prologue, 25) {
                outcome == (hs, refused(FengniErrorView::Crypto(CryptoError::KeyDerivation)))
            } else if !opens {
                outcome == (hs, refused(FengniErrorView::Crypto(CryptoError::Decrypt)))
            } else if token->Some_0.len() < 32 {
                outcome == (
                    hs,
                    refused(
                        FengniErrorView::Handshake(
                            HandshakeErrorView::Malformed { context: "session token too short" },
                        ),
                    ),
                )
            } else if token->Some_0.take(32) != pinned {
                outcome == (
                    hs,
                    refused(
                        FengniErrorView::Handshake(
                            HandshakeErrorView::IdentityRejected { reason: "public key mismatch" },
                        ),
                    ),
                )
            } else {
                true
            }
        }),
{
    model::lemma_label_lengths();
    assert(model::zero_nonce() =~= no_nonce());
}

// --- Authenticate ---

/// A responder answers an Authenticate whose identity opens to a 32-byte key and
/// whose proof is the one that only the two peers can make: with a confirmation
/// under the session keys. It then sends and receives under those keys.
pub proof fn proven_initiator_is_answered(
    hs: HandshakeModel,
    raw: Seq<u8>,
    peer_ephemeral: Seq<u8>,
    peer_identity: Seq<u8>,
    identity_public: Seq<u8>,
    proof_bytes: Seq<u8>,
    now: u64,
    token_time: u64,
    proof_shares: Seq<Seq<u8>>,
    sorted: Seq<Seq<u8>>,
)
    requires
        hs.state == (StateView::ExpectAuthenticate { peer_ephemeral_public: peer_ephemeral }),
        fits(hs.prologue, 27),
        wire::decoded(raw) == Ok::<_, DecodeError>(
            Some(VariantView::Authenticate { identity_public, proof: proof_bytes }),
        ),
        16 <= identity_public.len() <= 0x3f_ffff_ff90,
        peer_identity.len() == 32,
        primitives::aead_open(
            primitives::hkdf_sha256(
                primitives::x25519_shared(hs.identity.secret, peer_ephemeral)@,
                hs.prologue + "fengni-v1-auth-identity".spec_bytes(),
                32,
            ),
            no_nonce(),
            identity_public,
        ) == Some(peer_identity),
        in_order(
            seq![
                primitives::x25519_shared(hs.ephemeral.secret, peer_ephemeral)@,
                primitives::x25519_shared(hs.ephemeral.secret, peer_identity)@,
            ],
            proof_shares,
        ),
        proof_bytes == primitives::hmac_sha256_tag(
            primitives::hkdf_sha256(
                proof_shares[0] + proof_shares[1],
                hs.prologue + "fengni-v1-auth-proof-key".spec_bytes(),
                32,
            ),
            peer_identity + "fengni-v1-auth-proof".spec_bytes(),
        )@,
        in_order(four_agreements(hs, peer_ephemeral, peer_identity), sorted),
    ensures
        ({
            let (after, outcome) = hs.step(raw, now, token_time);
            let material = sorted[0] + sorted[1] + sorted[2] + sorted[3];
            let confirm = primitives::hkdf_sha256(
                material,
                hs.prologue + "fengni-v1-handshake-confirm".spec_bytes(),
                32,
            );
            &&& outcome == Ok::<_, FengniErrorView>(
                Some(
                    wire::encoded(
                        Some(
                            VariantView::ServerFinish {
                                payload: primitives::aead_seal(
                                    confirm,
                                    no_nonce(),
                                    "fengni-handshake-complete".spec_bytes(),
                                ),
                            },
                        ),
                    ),
                ),
            )
            &&& after.state == (StateView::Completed {
                send_key: primitives::hkdf_sha256(
                    material,
                    hs.prologue + "fengni-v1-transport-send".spec_bytes(),
                    32,
                ),
                recv_key: primitives::hkdf_sha256(
                    material,
                    hs.prologue + "fengni-v1-transport-recv".spec_bytes(),
                    32,
                ),
            })
            &&& after.identity.secret == hs.identity.secret
            &&& after.identity.public == hs.identity.public
            &&& after.identity.ss == Some(
                primitives::x25519_shared(hs.identity.secret, peer_identity)@,
            )
            &&& after.ephemeral == hs.ephemeral
            &&& after.prologue == hs.prologue
        }),
{
    model::lemma_label_lengths();
    assert(model::zero_nonce() =~= no_nonce());
    peer_proof_key_is_derived_from_its_identity(hs, peer_ephemeral, peer_identity, proof_shares);
    session_keys_are_derived_from_four_agreements(hs, peer_ephemeral, peer_identity, sorted);
}

/// What a responder refuses of an Authenticate, and why. It goes on waiting.
pub proof fn authenticate_is_refused_for_a_reason(
    hs: HandshakeModel,
    raw: Seq<u8>,
    peer_ephemeral: Seq<u8>,
    identity_public: Seq<u8>,
    proof_bytes: Seq<u8>,
    now: u64,
    token_time: u64,
    proof_shares: Seq<Seq<u8>>,
)
    requires
        hs.state == (StateView::ExpectAuthenticate { peer_ephemeral_public: peer_ephemeral }),
        wire::decoded(raw) == Ok::<_, DecodeError>(
            Some(VariantView::Authenticate { identity_public, proof: proof_bytes }),
        ),
        ({
            let peer_identity = primitives::aead_open(
                primitives::hkdf_sha256(
                    primitives::x25519_shared(hs.identity.secret, peer_ephemeral)@,
                    hs.prologue + "fengni-v1-auth-identity".spec_bytes(),
                    32,
                ),
                no_nonce(),
                identity_public,
            )->Some_0;
            in_order(
                seq![
                    primitives::x25519_shared(hs.ephemeral.secret, peer_ephemeral)@,
                    primitives::x25519_shared(hs.ephemeral.secret, peer_identity)@,
                ],
                proof_shares,
            )
        }),
    ensures
        ({
            let opened = primitives::aead_open(
                primitives::hkdf_sha256(
                    primitives::x25519_shared(hs.identity.secret, peer_ephemeral)@,
                    hs.prologue + "fengni-v1-auth-identity".spec_bytes(),
                    32,
                ),
                no_nonce(),
                identity_public,
            );
            let proof_key = primitives::hkdf_sha256(
                proof_shares[0] + proof_shares[1],
                hs.prologue + "fengni-v1-auth-proof-key".spec_bytes(),
                32,
            );
            let owed = primitives::hmac_sha256_tag(
                proof_key,
                opened->Some_0 + "fengni-v1-auth-proof".spec_bytes(),
            )@;
            let opens = 16 <= identity_public.len() <= 0x3f_ffff_ff90 && opened is Some;
            let outcome = hs.step(raw, now, token_time);
            if !fits(hs.prologue, 23) {
                outcome == (hs, refused(FengniErrorView::Crypto(CryptoError::KeyDerivation)))
            } else if !opens {
                outcome == (
                    hs,
                    refused(
                        FengniErrorView::Handshake(
                            HandshakeErrorView::IdentityRejected {
                                reason: "identity decryption failed",
                            },
                        ),
                    ),
                )
            } else if opened->Some_0.len() != 32 {
                outcome == (
                    hs,
                    refused(
                        FengniErrorView::Handshake(
                            HandshakeErrorView::Malformed {
                                context: "Authenticate.identity_public",
                            },
                        ),
                    ),
                )
            } else if !fits(hs.prologue, 24) {
                outcome == (hs, refused(FengniErrorView::Crypto(CryptoError::KeyDerivation)))
            } else if proof_bytes.len() != 32 {
                outcome == (
                    hs,
                    refused(
                        FengniErrorView::Handshake(
                            HandshakeErrorView::Malformed { context: "Authenticate.proof" },
                        ),
                    ),
                )
            } else if proof_bytes != owed {
                outcome == (
                    hs,
                    refused(
                        FengniErrorView::Handshake(
                            HandshakeErrorView::IdentityRejected { reason: "HMAC proof invalid" },
                        ),
                    ),
                )
            } else if !fits(hs.prologue, 27) {
                outcome == (hs, refused(FengniErrorView::Crypto(CryptoError::KeyDerivation)))
            } else {
                true
            }
        }),
{
    model::lemma_label_lengths();
    assert(model::zero_nonce() =~= no_nonce());
    let opened = primitives::aead_open(
        primitives::hkdf_sha256(
            primitives::x25519_shared(hs.identity.secret, peer_ephemeral)@,
            hs.prologue + "fengni-v1-auth-identity".spec_bytes(),
            32,
        ),
        no_nonce(),
        identity_public,
    );
    if fits(hs.prologue, 24) {
        peer_proof_key_is_derived_from_its_identity(
            hs,
            peer_ephemeral,
            opened->Some_0,
            proof_shares,
        );
    }
}

// --- ServerFinish ---

/// An initiator completes on the confirmation under the session keys, and on that
/// alone; its send key is the responder's receive key, and the other way round.
pub proof fn server_finish_completes_on_the_confirmation(
    hs: HandshakeModel,
    raw: Seq<u8>,
    peer_ephemeral: Seq<u8>,
    peer_identity: Seq<u8>,
    payload: Seq<u8>,
    now: u64,
    token_time: u64,
    sorted: Seq<Seq<u8>>,
)
    requires
        hs.state == (StateView::ExpectServerFinish {
            peer_ephemeral_public: peer_ephemeral,
            peer_identity_public: peer_identity,
        }),
        wire::decoded(raw) == Ok::<_, DecodeError>(
            Some(VariantView::ServerFinish { payload }),
        ),
        in_order(four_agreements(hs, peer_ephemeral, peer_identity), sorted),
    ensures
        ({
            let material = sorted[0] + sorted[1] + sorted[2] + sorted[3];
            let confirm = primitives::hkdf_sha256(
                material,
                hs.prologue + "fengni-v1-handshake-confirm".spec_bytes(),
                32,
            );
            let opened = primitives::aead_open(confirm, no_nonce(), payload);
            let opens = 16 <= payload.len() <= 0x3f_ffff_ff90 && opened is Some;
            let (after, outcome) = hs.step(raw, now, token_time);
            if !fits(hs.prologue, 27) {
                &&& after == hs
                &&& outcome == refused(FengniErrorView::Crypto(CryptoError::KeyDerivation))
            } else if !opens {
                &&& after == hs
                &&& outcome == refused(
                    FengniErrorView::Handshake(
                        HandshakeErrorView::IdentityRejected {
                            reason: "ServerFinish decryption failed",
                        },
                    ),
                )
            } else if opened->Some_0 != "fengni-handshake-complete".spec_bytes() {
                &&& after == hs
                &&& outcome == refused(
                    FengniErrorView::Handshake(
                        HandshakeErrorView::IdentityRejected {
                            reason: "ServerFinish confirm failed",
                        },
                    ),
                )
            } else {
                &&& outcome == Ok::<Option<Seq<u8>>, FengniErrorView>(None)
                &&& after.state == (StateView::Completed {
                    send_key: primitives::hkdf_sha256(
                        material,
                        hs.prologue + "fengni-v1-transport-recv".spec_bytes(),
                        32,
                    ),
                    recv_key: primitives::hkdf_sha256(
                        material,
                        hs.prologue + "fengni-v1-transport-send".spec_bytes(),
                        32,
                    ),
                })
                &&& after.identity.secret == hs.identity.secret
                &&& after.identity.public == hs.identity.public
                &&& after.identity.ss == Some(
                    primitives::x25519_shared(hs.identity.secret, peer_identity)@,
                )
                &&& after.ephemeral == hs.ephemeral
                &&& after.prologue == hs.prologue
            }
        }),
{
    model::lemma_label_lengths();
    assert(model::zero_nonce() =~= no_nonce());
    if fits(hs.prologue, 27) {
        session_keys_are_derived_from_four_agreements(hs, peer_ephemeral, peer_identity, sorted);
    } else {
        no_session_keys_under_an_endless_prologue(hs, peer_ephemeral, peer_identity);
    }
}

// --- Other messages ---

/// The message that a state waits for.
pub open spec fn awaited(state: StateView, msg: Option<VariantView>) -> bool {
    ||| state is ExpectHello && msg is Some && msg->Some_0 is Hello
    ||| state is ExpectHelloReply && msg is Some && msg->Some_0 is HelloReply
    ||| state is ExpectAuthenticate && msg is Some && msg->Some_0 is Authenticate
    ||| state is ExpectServerFinish && msg is Some && msg->Some_0 is ServerFinish
}

/// A message that is none, or not the one that the state waits for, is refused,
/// with the state or the reason why it is none, and changes nothing.
pub proof fn other_messages_are_refused(
    hs: HandshakeModel,
    raw: Seq<u8>,
    now: u64,
    token_time: u64,
)
    ensures
        wire::decoded(raw) matches Err(e) ==> hs.step(raw, now, token_time) == (
            hs,
            refused(FengniErrorView::Wire(WireError::Decode(e))),
        ),
        wire::decoded(raw) matches Ok(msg) ==> (!awaited(hs.state, msg) ==> hs.step(
            raw,
            now,
            token_time,
        ) == (
            hs,
            refused(
                FengniErrorView::Handshake(
                    HandshakeErrorView::UnexpectedMessage { expected: hs.state },
                ),
            ),
        )),
{
}

} // verus!
