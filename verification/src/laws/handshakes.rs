//! What every call of a handshake operation returns and leaves behind.

use super::calls;
use super::packets;
use super::steps;
use crate::bytes;
use crate::error::{
    DecodeError, FengniError, FengniErrorView, HandshakeError, HandshakeErrorView, WireError,
};
use crate::handshake::model::{self, HandshakeModel, StateView};
use crate::handshake::{self, Handshake, HandshakeBuilder, HandshakeState};
use crate::keys::KeyPair;
use crate::primitives;
use crate::transport::TransportState;
use crate::wire;
use crate::wire::fengni_message::VariantView;
use vstd::prelude::*;
use vstd::string::*;

verus! {

// --- Building ---

/// Every initiator starts with the given identity, which the responder is pinned
/// on, and with an empty prologue; every responder with the given identity alone.
pub proof fn builders_start_with_the_identity(
    identity: KeyPair,
    peer: [u8; 32],
    initiator: HandshakeBuilder,
    responder: HandshakeBuilder,
)
    requires
        call_ensures(HandshakeBuilder::initiator, (identity, peer), initiator),
        call_ensures(HandshakeBuilder::responder, (identity,), responder),
    ensures
        initiator@.identity.secret == identity@.secret,
        initiator@.identity.public == identity@.public,
        initiator@.identity.ss == Some(primitives::x25519_shared(identity@.secret, peer@)@),
        initiator@.peer_static_public == Some(peer@),
        initiator@.prologue == Seq::<u8>::empty(),
        responder@.identity == identity@,
        responder@.peer_static_public is None,
        responder@.prologue == Seq::<u8>::empty(),
{
}

/// Every call of `prologue` takes the whole prologue and leaves the rest.
pub proof fn prologue_is_taken_whole(
    builder: HandshakeBuilder,
    data: &[u8],
    r: HandshakeBuilder,
)
    requires
        call_ensures(HandshakeBuilder::prologue, (builder, data), r),
    ensures
        r@.prologue == data@,
        r@.identity == builder@.identity,
        r@.peer_static_public == builder@.peer_static_public,
{
}

/// Every handshake starts with what its builder holds: an initiator waits for the
/// reply of the pinned responder, a responder for Hello. The ephemeral secret is
/// the given one, or one from the generator, with the public key of that secret.
pub proof fn handshakes_start_as_built(
    builder: HandshakeBuilder,
    ephemeral: KeyPair,
    given: Handshake,
    fresh: Handshake,
)
    requires
        call_ensures(HandshakeBuilder::build_with_ephemeral, (builder, ephemeral), given),
        call_ensures(HandshakeBuilder::build, (builder,), fresh),
    ensures
        given@.ephemeral == ephemeral@,
        primitives::drawn_at_random(fresh@.ephemeral.secret),
        fresh@.ephemeral.public == primitives::x25519_public(fresh@.ephemeral.secret)@,
        fresh@.ephemeral.ss is None,
        given@.identity == builder@.identity,
        fresh@.identity == builder@.identity,
        given@.prologue == builder@.prologue,
        fresh@.prologue == builder@.prologue,
        given@.state == (match builder@.peer_static_public {
            Some(peer) => StateView::ExpectHelloReply { peer_static_public: peer },
            None => StateView::ExpectHello,
        }),
        fresh@.state == given@.state,
{
}

/// The getters of a handshake return what it holds.
pub proof fn handshake_shows_what_it_holds(
    hs: &Handshake,
    state: HandshakeState,
    identity: &KeyPair,
    completed: bool,
)
    requires
        call_ensures(Handshake::state, (hs,), state),
        call_ensures(Handshake::identity, (hs,), identity),
        call_ensures(HandshakeState::is_completed, (&state,), completed),
    ensures
        identity@ == hs@.identity,
        completed <==> hs@.state is Completed,
        match state {
            HandshakeState::ExpectHello => hs@.state == StateView::ExpectHello,
            HandshakeState::ExpectHelloReply { peer_static_public } => hs@.state == (
            StateView::ExpectHelloReply { peer_static_public: peer_static_public@ }),
            HandshakeState::ExpectAuthenticate { peer_ephemeral_public } => hs@.state == (
            StateView::ExpectAuthenticate { peer_ephemeral_public: peer_ephemeral_public@ }),
            HandshakeState::ExpectServerFinish { peer_ephemeral_public, peer_identity_public } =>
            hs@.state == (StateView::ExpectServerFinish {
                peer_ephemeral_public: peer_ephemeral_public@,
                peer_identity_public: peer_identity_public@,
            }),
            HandshakeState::Completed { send_key, recv_key } => hs@.state == (
            StateView::Completed { send_key: send_key@, recv_key: recv_key@ }),
        },
{
}

// --- Hello ---

/// Every initiator that waits for a reply sends the Hello with its ephemeral key
/// and the given time; nobody else sends one.
pub proof fn hello_carries_the_ephemeral_key(
    hs: &Handshake,
    timestamp: u64,
    r: Result<Vec<u8>, FengniError>,
)
    requires
        call_ensures(Handshake::send_hello_at, (hs, timestamp), r),
    ensures
        match r {
            Ok(raw) => {
                &&& hs@.state is ExpectHelloReply
                &&& raw@ == wire::encoded(
                    Some(
                        VariantView::Hello { ephemeral_public: hs@.ephemeral.public, timestamp },
                    ),
                )
            },
            Err(FengniError::Handshake(HandshakeError::AlreadyCompleted)) => !(
            hs@.state is ExpectHelloReply),
            Err(_) => false,
        },
{
}

/// The seconds of a point in time, or 0 for one before the Unix epoch.
pub open spec fn seconds_at(time: std::time::SystemTime, seconds: u64) -> bool {
    match primitives::time_since_epoch(time) {
        Some(duration) => seconds == primitives::duration_seconds(duration),
        None => seconds == 0,
    }
}

/// Every Hello that is sent now carries the time that the clock showed, and
/// sending it changes nothing.
pub proof fn hello_carries_the_time_of_the_clock(
    hs: &mut Handshake,
    r: Result<Vec<u8>, FengniError>,
)
    requires
        call_ensures(Handshake::send_hello, (hs,), r),
    ensures
        final(hs)@ == old(hs)@,
        match r {
            Ok(raw) => {
                &&& old(hs)@.state is ExpectHelloReply
                &&& exists|time: std::time::SystemTime, timestamp: u64|
                    {
                        &&& primitives::shown_by_clock(time)
                        &&& #[trigger] seconds_at(time, timestamp)
                        &&& raw@ == wire::encoded(
                            Some(
                                VariantView::Hello {
                                    ephemeral_public: old(hs)@.ephemeral.public,
                                    timestamp,
                                },
                            ),
                        )
                    }
            },
            Err(FengniError::Handshake(HandshakeError::AlreadyCompleted)) => !(old(
                hs,
            )@.state is ExpectHelloReply),
            Err(_) => false,
        },
{
    let time = choose|time: std::time::SystemTime|
        primitives::shown_by_clock(time) && handshake::hello_view(r) == old(hs)@.hello_outcome(
            #[trigger] handshake::timestamp_at(time),
        );
    assert(seconds_at(time, handshake::timestamp_at(time)));
}

/// `r` and the buffer after it are what writing a Hello owes.
pub open spec fn writes_hello(
    hs: HandshakeModel,
    timestamp: u64,
    before: Seq<u8>,
    r: Result<usize, FengniError>,
    after: Seq<u8>,
) -> bool {
    let raw = wire::encoded(
        Some(VariantView::Hello { ephemeral_public: hs.ephemeral.public, timestamp }),
    );
    match r {
        Ok(n) => {
            &&& hs.state is ExpectHelloReply
            &&& n == raw.len()
            &&& calls::starts_with(before, raw, after)
        },
        Err(FengniError::Wire(WireError::Encode(e))) => {
            &&& hs.state is ExpectHelloReply
            &&& raw.len() > before.len()
            &&& e.required == raw.len()
            &&& e.remaining == before.len()
            &&& after == before
        },
        Err(FengniError::Handshake(HandshakeError::AlreadyCompleted)) => {
            &&& !(hs.state is ExpectHelloReply)
            &&& after == before
        },
        Err(_) => false,
    }
}

proof fn lemma_writes_hello(
    hs: HandshakeModel,
    timestamp: u64,
    before: Seq<u8>,
    r: Result<usize, FengniError>,
    after: Seq<u8>,
)
    requires
        hs.hello_written(timestamp, before, handshake::hello_len_view(r), after),
    ensures
        writes_hello(hs, timestamp, before, r, after),
{
    let raw = wire::encoded(Some(hs.hello(timestamp)));
    if raw.len() <= before.len() {
        calls::lemma_starts_with(before, raw);
    }
}

/// Every Hello that is written to a buffer is the one that would be sent.
pub proof fn hello_is_written_to_the_buffer(
    hs: &Handshake,
    timestamp: u64,
    buf: &mut [u8],
    r: Result<usize, FengniError>,
)
    requires
        call_ensures(Handshake::send_hello_into_at, (hs, timestamp, buf), r),
    ensures
        writes_hello(hs@, timestamp, old(buf)@, r, final(buf)@),
{
    lemma_writes_hello(hs@, timestamp, old(buf)@, r, final(buf)@);
}

/// Every Hello that is written now carries the time that the clock showed.
pub proof fn written_hello_carries_the_time_of_the_clock(
    hs: &mut Handshake,
    buf: &mut [u8],
    r: Result<usize, FengniError>,
)
    requires
        call_ensures(Handshake::send_hello_into, (hs, buf), r),
    ensures
        final(hs)@ == old(hs)@,
        exists|time: std::time::SystemTime, timestamp: u64|
            {
                &&& primitives::shown_by_clock(time)
                &&& #[trigger] seconds_at(time, timestamp)
                &&& writes_hello(old(hs)@, timestamp, old(buf)@, r, final(buf)@)
            },
{
    let time = choose|time: std::time::SystemTime|
        primitives::shown_by_clock(time) && old(hs)@.hello_written(
            #[trigger] handshake::timestamp_at(time),
            old(buf)@,
            handshake::hello_len_view(r),
            final(buf)@,
        );
    lemma_writes_hello(
        old(hs)@,
        handshake::timestamp_at(time),
        old(buf)@,
        r,
        final(buf)@,
    );
    assert(seconds_at(time, handshake::timestamp_at(time)));
}

// --- Messages ---

/// `r` is the outcome of a step of the model.
pub open spec fn yields(
    step: (HandshakeModel, model::Outcome),
    r: Result<Option<Vec<u8>>, FengniError>,
    after: HandshakeModel,
) -> bool {
    &&& after == step.0
    &&& match r {
        Ok(Some(reply)) => step.1 matches Ok(Some(raw)) && raw == reply@,
        Ok(None) => step.1 matches Ok(None),
        Err(e) => step.1 matches Err(why) && why == e@,
    }
}

/// Every received message leads to one step of the model, at the given times.
pub proof fn message_leads_to_one_step(
    hs: &mut Handshake,
    raw: &[u8],
    now: u64,
    token_time: u64,
    r: Result<Option<Vec<u8>>, FengniError>,
)
    requires
        call_ensures(Handshake::handle_message_at, (hs, raw, now, token_time), r),
    ensures
        yields(old(hs)@.step(raw@, now, token_time), r, final(hs)@),
        final(hs)@.wf(),
{
}

/// Every message that is received now leads to one step of the model, at the
/// times that the clock showed.
pub proof fn message_is_held_against_the_clock(
    hs: &mut Handshake,
    raw: &[u8],
    r: Result<Option<Vec<u8>>, FengniError>,
)
    requires
        call_ensures(Handshake::handle_message, (hs, raw), r),
    ensures
        exists|
            first: std::time::SystemTime,
            now: u64,
            second: std::time::SystemTime,
            token_time: u64,
        |
            {
                &&& primitives::shown_by_clock(first) && #[trigger] seconds_at(first, now)
                &&& primitives::shown_by_clock(second) && #[trigger] seconds_at(second, token_time)
                &&& yields(old(hs)@.step(raw@, now, token_time), r, final(hs)@)
            },
        final(hs)@.wf(),
{
    let (first, second) = choose|first: std::time::SystemTime, second: std::time::SystemTime|
        #![trigger handshake::timestamp_at(first), handshake::timestamp_at(second)]
        primitives::shown_by_clock(first) && primitives::shown_by_clock(second) && old(hs)@.handled(
            raw@,
            handshake::timestamp_at(first),
            handshake::timestamp_at(second),
            handshake::outcome_view(r),
            final(hs)@,
        );
    assert(seconds_at(first, handshake::timestamp_at(first)));
    assert(seconds_at(second, handshake::timestamp_at(second)));
}

/// Every responder answers every Hello with a 32-byte key whose timestamp is at
/// most 60 seconds before or after the time, and waits for Authenticate.
pub proof fn hello_within_60_seconds_is_accepted(
    hs: &mut Handshake,
    raw: &[u8],
    ephemeral_public: Seq<u8>,
    timestamp: u64,
    now: u64,
    token_time: u64,
    r: Result<Option<Vec<u8>>, FengniError>,
)
    requires
        call_ensures(Handshake::handle_message_at, (hs, raw, now, token_time), r),
        old(hs)@.state is ExpectHello,
        old(hs)@.prologue.len() + 25 <= usize::MAX,
        old(hs)@.prologue.len() + 25 <= 0x1fff_ffff_ffff_ff00,
        wire::decoded(raw@) == Ok::<_, DecodeError>(
            Some(VariantView::Hello { ephemeral_public, timestamp }),
        ),
        ephemeral_public.len() == 32,
        timestamp <= now + 60,
        now <= timestamp + 60,
    ensures
        r matches Ok(Some(_)),
        final(hs)@.state == (StateView::ExpectAuthenticate {
            peer_ephemeral_public: ephemeral_public,
        }),
{
    model::lemma_label_lengths();
    lemma_identity_is_unchanged(old(hs)@, raw@, now, token_time);
    packets::be_bytes_hold_the_number(bytes::be_bytes(token_time), token_time);
    steps::hello_within_60_seconds_is_answered(
        old(hs)@,
        raw@,
        ephemeral_public,
        timestamp,
        now,
        token_time,
        bytes::be_bytes(token_time),
    );
}

proof fn lemma_identity_is_unchanged(hs: HandshakeModel, raw: Seq<u8>, now: u64, token_time: u64)
    ensures
        hs.step(raw, now, token_time).0.identity.public == hs.identity.public,
{
}

/// Every responder refuses every Hello whose timestamp is more than 60 seconds
/// before or after the time, and stays as it is.
pub proof fn hello_beyond_60_seconds_is_refused(
    hs: &mut Handshake,
    raw: &[u8],
    ephemeral_public: Seq<u8>,
    timestamp: u64,
    now: u64,
    token_time: u64,
    r: Result<Option<Vec<u8>>, FengniError>,
)
    requires
        call_ensures(Handshake::handle_message_at, (hs, raw, now, token_time), r),
        old(hs)@.state is ExpectHello,
        wire::decoded(raw@) == Ok::<_, DecodeError>(
            Some(VariantView::Hello { ephemeral_public, timestamp }),
        ),
        timestamp > now + 60 || now > timestamp + 60,
    ensures
        r matches Err(FengniError::Handshake(
            HandshakeError::TimestampExpired { peer_ts, local_ts },
        )) && peer_ts == timestamp && local_ts == now,
        final(hs)@ == old(hs)@,
{
    steps::hello_is_refused_for_a_reason(
        old(hs)@,
        raw@,
        ephemeral_public,
        timestamp,
        now,
        token_time,
    );
}

/// What an accepted Hello is answered with, opens again to the identity and the
/// time.
pub proof fn session_token_opens_again(
    hs: &mut Handshake,
    raw: &[u8],
    ephemeral_public: Seq<u8>,
    timestamp: u64,
    now: u64,
    token_time: u64,
    time_bytes: Seq<u8>,
    r: Result<Option<Vec<u8>>, FengniError>,
)
    requires
        call_ensures(Handshake::handle_message_at, (hs, raw, now, token_time), r),
        old(hs)@.state is ExpectHello,
        wire::decoded(raw@) == Ok::<_, DecodeError>(
            Some(VariantView::Hello { ephemeral_public, timestamp }),
        ),
        steps::holds_time(time_bytes, token_time),
        r is Ok,
    ensures
        ({
            let key = primitives::hkdf_sha256(
                primitives::x25519_shared(old(hs)@.ephemeral.secret, ephemeral_public)@,
                old(hs)@.prologue + "fengni-v1-handshake-hello".spec_bytes(),
                32,
            );
            let plaintext = old(hs)@.identity.public + time_bytes;
            let token = primitives::aead_seal(key, steps::no_nonce(), plaintext);
            primitives::aead_open(key, steps::no_nonce(), token) == Some(plaintext)
        }),
{
    model::lemma_label_lengths();
    lemma_identity_is_unchanged(old(hs)@, raw@, now, token_time);
    packets::be_bytes_hold_the_number(time_bytes, token_time);
    assert(model::zero_nonce() =~= steps::no_nonce());
}

/// What an accepted HelloReply is answered with, opens again to the identity.
pub proof fn hidden_identity_opens_again(
    hs: &mut Handshake,
    raw: &[u8],
    pinned: Seq<u8>,
    ephemeral_public: Seq<u8>,
    session_token: Seq<u8>,
    now: u64,
    token_time: u64,
    r: Result<Option<Vec<u8>>, FengniError>,
)
    requires
        call_ensures(Handshake::handle_message_at, (hs, raw, now, token_time), r),
        old(hs)@.state == (StateView::ExpectHelloReply { peer_static_public: pinned }),
        wire::decoded(raw@) == Ok::<_, DecodeError>(
            Some(VariantView::HelloReply { ephemeral_public, session_token }),
        ),
        r is Ok,
    ensures
        ({
            let key = primitives::hkdf_sha256(
                primitives::x25519_shared(old(hs)@.ephemeral.secret, pinned)@,
                old(hs)@.prologue + "fengni-v1-auth-identity".spec_bytes(),
                32,
            );
            let hidden = primitives::aead_seal(
                key,
                steps::no_nonce(),
                old(hs)@.identity.public,
            );
            primitives::aead_open(key, steps::no_nonce(), hidden) == Some(
                old(hs)@.identity.public,
            )
        }),
{
    model::lemma_label_lengths();
    lemma_identity_is_unchanged(old(hs)@, raw@, now, token_time);
    assert(model::zero_nonce() =~= steps::no_nonce());
}

/// What an accepted Authenticate is answered with, opens again to the
/// confirmation.
pub proof fn confirmation_opens_again(
    hs: &mut Handshake,
    raw: &[u8],
    peer_ephemeral: Seq<u8>,
    peer_identity: Seq<u8>,
    identity_public: Seq<u8>,
    proof_bytes: Seq<u8>,
    now: u64,
    token_time: u64,
    sorted: Seq<Seq<u8>>,
    r: Result<Option<Vec<u8>>, FengniError>,
)
    requires
        call_ensures(Handshake::handle_message_at, (hs, raw, now, token_time), r),
        old(hs)@.state == (StateView::ExpectAuthenticate { peer_ephemeral_public: peer_ephemeral }),
        wire::decoded(raw@) == Ok::<_, DecodeError>(
            Some(VariantView::Authenticate { identity_public, proof: proof_bytes }),
        ),
        primitives::aead_open(
            primitives::hkdf_sha256(
                primitives::x25519_shared(old(hs)@.identity.secret, peer_ephemeral)@,
                old(hs)@.prologue + "fengni-v1-auth-identity".spec_bytes(),
                32,
            ),
            steps::no_nonce(),
            identity_public,
        ) == Some(peer_identity),
        steps::in_order(
            steps::four_agreements(old(hs)@, peer_ephemeral, peer_identity),
            sorted,
        ),
        r is Ok,
    ensures
        ({
            let key = primitives::hkdf_sha256(
                sorted[0] + sorted[1] + sorted[2] + sorted[3],
                old(hs)@.prologue + "fengni-v1-handshake-confirm".spec_bytes(),
                32,
            );
            let plaintext = "fengni-handshake-complete".spec_bytes();
            let payload = primitives::aead_seal(key, steps::no_nonce(), plaintext);
            primitives::aead_open(key, steps::no_nonce(), payload) == Some(plaintext)
        }),
{
    model::lemma_label_lengths();
    assert(model::zero_nonce() =~= steps::no_nonce());
    if steps::fits(old(hs)@.prologue, 27) {
        steps::session_keys_are_derived_from_four_agreements(
            old(hs)@,
            peer_ephemeral,
            peer_identity,
            sorted,
        );
    } else {
        steps::no_session_keys_under_an_endless_prologue(old(hs)@, peer_ephemeral, peer_identity);
    }
}

// --- Transport ---

/// Every completed handshake gives a transport that sends and receives under its
/// keys, from counter 0 and with nothing received. No other handshake gives one.
pub proof fn completed_handshake_gives_a_transport(
    hs: Handshake,
    r: Result<TransportState, FengniError>,
)
    requires
        call_ensures(Handshake::into_transport, (hs,), r),
    ensures
        match r {
            Ok(transport) => {
                &&& hs@.state matches StateView::Completed { send_key, recv_key }
                &&& transport@.send.key == send_key
                &&& transport@.receive.cipher.key == recv_key
                &&& transport@.send.n == 0 && transport@.receive.cipher.n == 0
                &&& transport@.send.has_key && transport@.receive.cipher.has_key
                &&& transport@.receive.auth_failures == 0
                &&& transport@.receive.replay.next == 0
                &&& transport@.receive.replay.received == Set::<int>::empty()
            },
            Err(FengniError::State(why)) => {
                &&& !(hs@.state is Completed)
                &&& why@ == "handshake not completed"@
            },
            Err(_) => false,
        },
{
}

// --- Errors ---

/// The view of an error tells all that the error holds.
pub proof fn error_views_are_faithful(e: FengniError)
    ensures
        match e {
            FengniError::Crypto(why) => e@ == FengniErrorView::Crypto(why),
            FengniError::Wire(why) => e@ == FengniErrorView::Wire(why),
            FengniError::State(why) => e@ == FengniErrorView::State(why@),
            FengniError::Handshake(HandshakeError::AlreadyCompleted) => e@
                == FengniErrorView::Handshake(
                HandshakeErrorView::AlreadyCompleted,
            ),
            FengniError::Handshake(HandshakeError::UnexpectedMessage { expected }) => e@
                == FengniErrorView::Handshake(
                HandshakeErrorView::UnexpectedMessage { expected: expected@ },
            ),
            FengniError::Handshake(HandshakeError::TimestampExpired { peer_ts, local_ts }) => e@
                == FengniErrorView::Handshake(
                HandshakeErrorView::TimestampExpired { peer_ts, local_ts },
            ),
            FengniError::Handshake(HandshakeError::IdentityRejected { reason }) => e@
                == FengniErrorView::Handshake(
                HandshakeErrorView::IdentityRejected { reason },
            ),
            FengniError::Handshake(HandshakeError::Malformed { context }) => e@
                == FengniErrorView::Handshake(
                HandshakeErrorView::Malformed { context },
            ),
        },
{
}

} // verus!
