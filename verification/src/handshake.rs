//! Handshake state machine for the Fengni protocol.
//!
//! The handshake establishes a shared session key between two peers
//! using X25519 quadruple DH (ee + es + se + ss).
//!
//! # Protocol Flow
//!
//! ```text
//! Initiator                          Responder
//!   |                                     |
//!   | -- Hello (ephemeral_pub, ts) ---->  |
//!   |                                     |
//!   | <-- HelloReply (ephemeral_pub, ---  |
//!   |     session_token)                  |
//!   |                                     |
//!   | -- Authenticate (identity_pub, ---> |
//!   |     proof)                          |
//!   |                                     |
//!   | <-- ServerFinish (encrypted) ----   |
//!   |                                     |
//!   | === send_key + recv_key established |
//! ```
//!
//! After the handshake, both peers hold independent send and receive keys
//! for encrypting subsequent data packets via `TransportState`.

pub mod model;

pub use model::{HandshakeModel, StateView};

use crate::bytes;
use crate::cipher::{CipherState, CipherStates, CipherView};
use crate::crypto::{self, HMAC_TAG_LEN, NONCE_LEN, SYMMETRIC_KEY_LEN};
use crate::error::{CryptoError, FengniError, FengniErrorView, HandshakeError, WireError};
use crate::keys::{KeyPair, KeyPairView, PUBLIC_KEY_LEN};
use crate::primitives;
use crate::shares;
use crate::transport::{ReceiveView, TransportState, TransportView};
use crate::wire::fengni_message::Variant;
use crate::wire::{self, Authenticate, FengniMessage, Hello, HelloReply, ServerFinish};
use model::{
    CLOCK_SKEW_SECS, FINISH_PLAINTEXT, HKDF_INFO_CONFIRM, HKDF_INFO_HELLO, HKDF_INFO_IDENTITY_HIDE,
    HKDF_INFO_PROOF, HKDF_INFO_RECV, HKDF_INFO_SEND, PROOF_CONTEXT,
};
use vstd::prelude::*;
use vstd::string::*;

verus! {

/// The state of a handshake.
///
/// Each variant carries only the data relevant to that phase.
/// No `Option<>` fields — the type system guarantees data is present
/// when the state matches.
#[derive(Debug, Clone, Copy, PartialEq, Eq)]
pub enum HandshakeState {
    /// Waiting for the initiator's Hello.
    ExpectHello,
    /// Waiting for the responder's HelloReply.
    /// Carries the pinned peer static public key for identity verification.
    ExpectHelloReply { peer_static_public: [u8; PUBLIC_KEY_LEN] },
    /// Waiting for the initiator's Authenticate.
    ExpectAuthenticate { peer_ephemeral_public: [u8; PUBLIC_KEY_LEN] },
    /// Waiting for the responder's ServerFinish.
    ExpectServerFinish {
        peer_ephemeral_public: [u8; PUBLIC_KEY_LEN],
        peer_identity_public: [u8; PUBLIC_KEY_LEN],
    },
    /// Handshake is complete; send/recv keys are established.
    Completed { send_key: [u8; SYMMETRIC_KEY_LEN], recv_key: [u8; SYMMETRIC_KEY_LEN] },
}

impl View for HandshakeState {
    type V = StateView;

    open spec fn view(&self) -> StateView {
        match *self {
            HandshakeState::ExpectHello => StateView::ExpectHello,
            HandshakeState::ExpectHelloReply { peer_static_public } => {
                StateView::ExpectHelloReply { peer_static_public: peer_static_public@ }
            },
            HandshakeState::ExpectAuthenticate { peer_ephemeral_public } => {
                StateView::ExpectAuthenticate { peer_ephemeral_public: peer_ephemeral_public@ }
            },
            HandshakeState::ExpectServerFinish { peer_ephemeral_public, peer_identity_public } => {
                StateView::ExpectServerFinish {
                    peer_ephemeral_public: peer_ephemeral_public@,
                    peer_identity_public: peer_identity_public@,
                }
            },
            HandshakeState::Completed { send_key, recv_key } => {
                StateView::Completed { send_key: send_key@, recv_key: recv_key@ }
            },
        }
    }
}

impl HandshakeState {
    /// Returns true if the handshake has completed.
    pub fn is_completed(&self) -> (r: bool)
        ensures
            r == (self@ is Completed),
    {
        matches!(self, Self::Completed { .. })
    }
}

/// A Fengni protocol handshake.
///
/// Create via [`HandshakeBuilder`].
pub struct Handshake {
    state: HandshakeState,
    identity: KeyPair,
    ephemeral: KeyPair,
    /// Optional prologue prefixed to every HKDF info label.
    prologue: Vec<u8>,
}

impl View for Handshake {
    type V = HandshakeModel;

    closed spec fn view(&self) -> HandshakeModel {
        HandshakeModel {
            state: self.state@,
            identity: self.identity@,
            ephemeral: self.ephemeral@,
            prologue: self.prologue@,
        }
    }
}

/// What a received message led to, with the reply as a sequence.
pub open spec fn outcome_view(r: Result<Option<Vec<u8>>, FengniError>) -> model::Outcome {
    match r {
        Ok(Some(reply)) => Ok(Some(reply@)),
        Ok(None) => Ok(None),
        Err(e) => Err(e@),
    }
}

/// The nonce of the handshake messages. Each handshake generates a fresh
/// ephemeral key pair, so each key meets it once.
fn zero_nonce() -> (nonce: [u8; NONCE_LEN])
    ensures
        nonce@ == model::zero_nonce(),
{
    let nonce = [0u8; NONCE_LEN];
    assert(nonce@ =~= model::zero_nonce());
    nonce
}

/// The HMAC input of an identity proof.
proof fn lemma_proof_input(chunks: Seq<&[u8]>)
    requires
        chunks.len() == 2,
    ensures
        bytes::concat(chunks) == chunks[0]@ + chunks[1]@,
{
    reveal_with_fuel(bytes::concat, 3);
    assert(bytes::concat(chunks) =~= chunks[0]@ + chunks[1]@);
}

/// The timestamp of a point in time: the whole seconds since the Unix epoch, or
/// 0 for a point before it.
pub open spec fn timestamp_at(time: std::time::SystemTime) -> u64 {
    match primitives::time_since_epoch(time) {
        Some(duration) => primitives::duration_seconds(duration),
        None => 0,
    }
}

/// The whole seconds of a time since the Unix epoch, or 0 for a clock that
/// stands before it.
fn timestamp_of(since_epoch: Result<std::time::Duration, std::time::SystemTimeError>) -> (seconds:
    u64)
    ensures
        match since_epoch {
            Ok(duration) => seconds == primitives::duration_seconds(duration),
            Err(_) => seconds == 0,
        },
{
    match since_epoch {
        Ok(duration) => primitives::whole_seconds(&duration),
        Err(_) => 0,
    }
}

/// The current time in seconds since the Unix epoch: the timestamp of the point
/// in time that the system clock showed.
fn current_timestamp() -> (now: u64)
    ensures
        exists|time: std::time::SystemTime|
            primitives::shown_by_clock(time) && now == #[trigger] timestamp_at(time),
{
    let time = primitives::read_clock();
    let now: u64 = timestamp_of(primitives::since_epoch(&time));
    assert(now == timestamp_at(time));
    now
}

/// The keys that both peers derive at the end of a handshake.
struct SessionKeyBytes {
    send: [u8; SYMMETRIC_KEY_LEN],
    recv: [u8; SYMMETRIC_KEY_LEN],
    confirm: [u8; SYMMETRIC_KEY_LEN],
}

impl SessionKeyBytes {
    spec fn keys(self) -> model::SessionKeys {
        model::SessionKeys { send: self.send@, recv: self.recv@, confirm: self.confirm@ }
    }
}

impl Handshake {
    /// Build an HKDF info label with the prologue prefix.
    fn info(&self, suffix: &[u8]) -> (info: Vec<u8>)
        requires
            self@.prologue.len() + suffix@.len() <= usize::MAX,
        ensures
            info@ == self@.prologue + suffix@,
    {
        let mut info: Vec<u8> = Vec::new();
        bytes::append(&mut info, self.prologue.as_slice());
        bytes::append(&mut info, suffix);
        info
    }

    /// Derive a key under a label.
    fn key(&self, ikm: &[u8], label: &'static str) -> (r: Result<
        [u8; SYMMETRIC_KEY_LEN],
        CryptoError,
    >)
        ensures
            bytes::array_result(r) == self@.key(ikm@, label),
    {
        let suffix = label.as_bytes();
        if self.prologue.len() > usize::MAX - suffix.len() {
            return Err(CryptoError::KeyDerivation);
        }
        crypto::derive_key(ikm, self.info(suffix).as_slice())
    }

    /// Derive the key of the handshake messages.
    fn handshake_key(&self, peer_ephemeral: &[u8; PUBLIC_KEY_LEN]) -> (r: Result<
        [u8; SYMMETRIC_KEY_LEN],
        CryptoError,
    >)
        ensures
            bytes::array_result(r) == self@.handshake_key(peer_ephemeral@),
    {
        let ee = crypto::diffie_hellman(self.ephemeral.secret(), peer_ephemeral);
        self.key(ee.as_slice(), HKDF_INFO_HELLO)
    }

    /// Derive the key of the proof in Authenticate.
    fn proof_key(
        &self,
        ee: &[u8; PUBLIC_KEY_LEN],
        identity_share: &[u8; PUBLIC_KEY_LEN],
    ) -> (r: Result<[u8; SYMMETRIC_KEY_LEN], CryptoError>)
        ensures
            bytes::array_result(r) == self@.proof_key(ee@, identity_share@),
    {
        let agreements: [&[u8; PUBLIC_KEY_LEN]; 2] = [ee, identity_share];
        assert(shares::share_views(agreements@) =~= seq![ee@, identity_share@]);
        let material = shares::sort_and_concat(agreements.as_slice());
        self.key(material.as_slice(), HKDF_INFO_PROOF)
    }

    /// The responder receives Hello and sends HelloReply.
    fn on_hello(
        &mut self,
        ephemeral_public: &[u8],
        timestamp: u64,
        now: u64,
        token_time: u64,
    ) -> (r: Result<Option<Vec<u8>>, FengniError>)
        ensures
            (final(self)@, outcome_view(r)) == old(self)@.on_hello(
                ephemeral_public@,
                timestamp,
                now,
                token_time,
            ),
            r is Ok ==> (old(self)@.handshake_key(ephemeral_public@) matches Ok(hk)
                ==> model::opens_again(hk, old(self)@.token_plaintext(token_time))),
            r matches Ok(Some(reply)) ==> reply@.len() <= isize::MAX,
    {
        if timestamp < now.saturating_sub(CLOCK_SKEW_SECS) || timestamp > now.saturating_add(
            CLOCK_SKEW_SECS,
        ) {
            return Err(
                FengniError::Handshake(
                    HandshakeError::TimestampExpired { peer_ts: timestamp, local_ts: now },
                ),
            );
        }
        if ephemeral_public.len() != PUBLIC_KEY_LEN {
            return Err(
                FengniError::Handshake(
                    HandshakeError::Malformed { context: "Hello.ephemeral_public" },
                ),
            );
        }
        let peer_ephemeral = bytes::to_array_32(ephemeral_public);
        let hk = match self.handshake_key(&peer_ephemeral) {
            Err(e) => return Err(FengniError::Crypto(e)),
            Ok(hk) => hk,
        };
        // Session token: encrypt(our_identity_pub || timestamp)
        let mut token_plaintext: Vec<u8> = Vec::new();
        bytes::append(&mut token_plaintext, self.identity.public_key_bytes().as_slice());
        bytes::append(&mut token_plaintext, bytes::to_be_bytes(token_time).as_slice());
        assert(token_plaintext@ =~= self@.token_plaintext(token_time));
        let session_token = match crypto::encrypt(&hk, &zero_nonce(), token_plaintext.as_slice()) {
            Err(e) => return Err(FengniError::Crypto(e)),
            Ok(token) => token,
        };
        let reply = FengniMessage {
            variant: Some(
                Variant::HelloReply(
                    HelloReply {
                        ephemeral_public: bytes::to_vec(
                            self.ephemeral.public_key_bytes().as_slice(),
                        ),
                        session_token,
                    },
                ),
            ),
        };
        proof {
            wire::lemma_short_encoding(reply@->Some_0);
        }
        match wire::encode(&reply) {
            Err(e) => Err(FengniError::Wire(WireError::Encode(e))),
            Ok(raw) => {
                self.state = HandshakeState::ExpectAuthenticate {
                    peer_ephemeral_public: peer_ephemeral,
                };
                Ok(Some(raw))
            },
        }
    }

    /// The initiator receives HelloReply and sends Authenticate.
    fn on_hello_reply(
        &mut self,
        peer_static_public: [u8; PUBLIC_KEY_LEN],
        ephemeral_public: &[u8],
        session_token: &[u8],
    ) -> (r: Result<Option<Vec<u8>>, FengniError>)
        ensures
            (final(self)@, outcome_view(r)) == old(self)@.on_hello_reply(
                peer_static_public@,
                ephemeral_public@,
                session_token@,
            ),
            r is Ok ==> (old(self)@.key(
                old(self)@.ephemeral.shared_with(peer_static_public@),
                HKDF_INFO_IDENTITY_HIDE,
            ) matches Ok(key) ==> model::opens_again(key, old(self)@.identity.public)),
            r matches Ok(Some(reply)) ==> reply@.len() <= isize::MAX,
    {
        if ephemeral_public.len() != PUBLIC_KEY_LEN {
            return Err(
                FengniError::Handshake(
                    HandshakeError::Malformed { context: "HelloReply.ephemeral_public" },
                ),
            );
        }
        let peer_ephemeral = bytes::to_array_32(ephemeral_public);
        let hk = match self.handshake_key(&peer_ephemeral) {
            Err(e) => return Err(FengniError::Crypto(e)),
            Ok(hk) => hk,
        };
        // Decrypt and verify session token
        let token = match crypto::decrypt(&hk, &zero_nonce(), session_token) {
            Err(e) => return Err(FengniError::Crypto(e)),
            Ok(token) => token,
        };
        if token.len() < PUBLIC_KEY_LEN {
            return Err(
                FengniError::Handshake(
                    HandshakeError::Malformed { context: "session token too short" },
                ),
            );
        }
        let (claimed_identity, _) = token.as_slice().split_at(PUBLIC_KEY_LEN);
        assert(claimed_identity@ =~= token@.take(32));
        // Verify responder identity matches pinned key
        if !bytes::same_bytes(claimed_identity, peer_static_public.as_slice()) {
            return Err(
                FengniError::Handshake(
                    HandshakeError::IdentityRejected { reason: "public key mismatch" },
                ),
            );
        }
        // Build HMAC proof: HMAC-SHA256(proof_key, our_identity_pub || PROOF_CONTEXT),
        // with a key that takes the secret of our identity.
        let ee = crypto::diffie_hellman(self.ephemeral.secret(), &peer_ephemeral);
        let se = crypto::diffie_hellman(self.identity.secret(), &peer_ephemeral);
        let proof_key = match self.proof_key(&ee, &se) {
            Err(e) => return Err(FengniError::Crypto(e)),
            Ok(key) => key,
        };
        let identity_public = self.identity.public_key_bytes();
        let proof_bytes = identity_proof(&proof_key, &identity_public);
        // Encrypt identity with es = DH(our_ephem, peer_static)
        // Only the intended responder can decrypt this.
        let es = crypto::diffie_hellman(self.ephemeral.secret(), &peer_static_public);
        let identity_key = match self.key(es.as_slice(), HKDF_INFO_IDENTITY_HIDE) {
            Err(e) => return Err(FengniError::Crypto(e)),
            Ok(key) => key,
        };
        let encrypted_identity = match crypto::encrypt(
            &identity_key,
            &zero_nonce(),
            identity_public.as_slice(),
        ) {
            Err(e) => return Err(FengniError::Crypto(e)),
            Ok(ct) => ct,
        };
        let reply = FengniMessage {
            variant: Some(
                Variant::Authenticate(
                    Authenticate {
                        identity_public: encrypted_identity,
                        proof: bytes::to_vec(proof_bytes.as_slice()),
                    },
                ),
            ),
        };
        proof {
            wire::lemma_short_encoding(reply@->Some_0);
        }
        match wire::encode(&reply) {
            Err(e) => Err(FengniError::Wire(WireError::Encode(e))),
            Ok(raw) => {
                self.state = HandshakeState::ExpectServerFinish {
                    peer_ephemeral_public: peer_ephemeral,
                    peer_identity_public: peer_static_public,
                };
                Ok(Some(raw))
            },
        }
    }

    /// Quadruple DH session key derivation:
    /// - `ee = ECDH(our_ephem, peer_ephem)`: forward secrecy
    /// - `es = ECDH(our_ephem, peer_static)`: forward secrecy and authentication
    /// - `se = ECDH(our_static, peer_ephem)`: authentication
    /// - `ss = ECDH(our_static, peer_static)`: KCI resistance
    fn session_keys(
        &self,
        peer_ephemeral: &[u8; PUBLIC_KEY_LEN],
        peer_identity: &[u8; PUBLIC_KEY_LEN],
    ) -> (r: Result<SessionKeyBytes, CryptoError>)
        ensures
            match r {
                Ok(keys) => self@.session_keys(peer_ephemeral@, peer_identity@) == Ok::<
                    _,
                    CryptoError,
                >(keys.keys()),
                Err(e) => self@.session_keys(peer_ephemeral@, peer_identity@) == Err::<
                    model::SessionKeys,
                    _,
                >(e),
            },
    {
        let ee = crypto::diffie_hellman(self.ephemeral.secret(), peer_ephemeral);
        let es = crypto::diffie_hellman(self.ephemeral.secret(), peer_identity);
        let se = crypto::diffie_hellman(self.identity.secret(), peer_ephemeral);
        let ss = crypto::diffie_hellman(self.identity.secret(), peer_identity);
        let agreements: [&[u8; PUBLIC_KEY_LEN]; 4] = [&ee, &es, &se, &ss];
        assert(shares::share_views(agreements@) =~= self@.agreements(
            peer_ephemeral@,
            peer_identity@,
        ));
        let material = shares::sort_and_concat(agreements.as_slice());
        let send = match self.key(material.as_slice(), HKDF_INFO_SEND) {
            Err(_) => return Err(CryptoError::KeyDerivation),
            Ok(key) => key,
        };
        let recv = match self.key(material.as_slice(), HKDF_INFO_RECV) {
            Err(_) => return Err(CryptoError::KeyDerivation),
            Ok(key) => key,
        };
        let confirm = match self.key(material.as_slice(), HKDF_INFO_CONFIRM) {
            Err(_) => return Err(CryptoError::KeyDerivation),
            Ok(key) => key,
        };
        Ok(SessionKeyBytes { send, recv, confirm })
    }

    /// Read the initiator's identity from Authenticate.
    fn peer_identity(&self, peer_ephemeral: &[u8; PUBLIC_KEY_LEN], identity_public: &[u8]) -> (r:
        Result<[u8; PUBLIC_KEY_LEN], FengniError>)
        ensures
            match r {
                Ok(peer) => self@.peer_identity(peer_ephemeral@, identity_public@) == Ok::<
                    _,
                    FengniErrorView,
                >(peer@),
                Err(e) => self@.peer_identity(peer_ephemeral@, identity_public@) == Err::<
                    Seq<u8>,
                    _,
                >(e@),
            },
    {
        // DH(our_static, peer_ephemeral) = DH(peer_ephem, our_static):
        // only an initiator who knows our public key could have encrypted this.
        let se = crypto::diffie_hellman(self.identity.secret(), peer_ephemeral);
        let identity_key = match self.key(se.as_slice(), HKDF_INFO_IDENTITY_HIDE) {
            Err(e) => return Err(FengniError::Crypto(e)),
            Ok(key) => key,
        };
        match crypto::decrypt(&identity_key, &zero_nonce(), identity_public) {
            Err(_) => Err(
                FengniError::Handshake(
                    HandshakeError::IdentityRejected { reason: "identity decryption failed" },
                ),
            ),
            Ok(peer) => if peer.len() != PUBLIC_KEY_LEN {
                Err(
                    FengniError::Handshake(
                        HandshakeError::Malformed { context: "Authenticate.identity_public" },
                    ),
                )
            } else {
                Ok(bytes::to_array_32(peer.as_slice()))
            },
        }
    }

    /// The responder receives Authenticate and sends ServerFinish.
    fn on_authenticate(
        &mut self,
        peer_ephemeral: [u8; PUBLIC_KEY_LEN],
        identity_public: &[u8],
        proof_bytes: &[u8],
    ) -> (r: Result<Option<Vec<u8>>, FengniError>)
        ensures
            (final(self)@, outcome_view(r)) == old(self)@.on_authenticate(
                peer_ephemeral@,
                identity_public@,
                proof_bytes@,
            ),
            r is Ok ==> (old(self)@.peer_identity(peer_ephemeral@, identity_public@) matches Ok(
                peer,
            ) ==> old(self)@.session_keys(peer_ephemeral@, peer) matches Ok(keys)
                ==> model::opens_again(keys.confirm, FINISH_PLAINTEXT.spec_bytes())),
            r matches Ok(Some(reply)) ==> reply@.len() <= isize::MAX,
    {
        let peer_identity = match self.peer_identity(&peer_ephemeral, identity_public) {
            Err(e) => return Err(e),
            Ok(peer) => peer,
        };
        // Verify HMAC proof. Its key takes the secret of the claimed identity, or
        // our ephemeral secret.
        let ee = crypto::diffie_hellman(self.ephemeral.secret(), &peer_ephemeral);
        let es = crypto::diffie_hellman(self.ephemeral.secret(), &peer_identity);
        let proof_key = match self.proof_key(&ee, &es) {
            Err(e) => return Err(FengniError::Crypto(e)),
            Ok(key) => key,
        };
        if proof_bytes.len() != HMAC_TAG_LEN {
            return Err(
                FengniError::Handshake(
                    HandshakeError::Malformed { context: "Authenticate.proof" },
                ),
            );
        }
        let chunks: [&[u8]; 2] = [peer_identity.as_slice(), PROOF_CONTEXT.as_bytes()];
        proof {
            model::lemma_label_lengths();
            lemma_proof_input(chunks@);
        }
        if !crypto::hmac_verify(&proof_key, chunks.as_slice(), &bytes::to_array_32(proof_bytes)) {
            return Err(
                FengniError::Handshake(
                    HandshakeError::IdentityRejected { reason: "HMAC proof invalid" },
                ),
            );
        }
        let keys = match self.session_keys(&peer_ephemeral, &peer_identity) {
            Err(e) => return Err(FengniError::Crypto(e)),
            Ok(keys) => keys,
        };
        let payload = match crypto::encrypt(
            &keys.confirm,
            &zero_nonce(),
            FINISH_PLAINTEXT.as_bytes(),
        ) {
            Err(e) => return Err(FengniError::Crypto(e)),
            Ok(payload) => payload,
        };
        let reply = FengniMessage {
            variant: Some(Variant::ServerFinish(ServerFinish { payload })),
        };
        proof {
            wire::lemma_short_encoding(reply@->Some_0);
        }
        match wire::encode(&reply) {
            Err(e) => Err(FengniError::Wire(WireError::Encode(e))),
            Ok(raw) => {
                // All computations succeeded — now commit.
                self.identity.pin_peer(&peer_identity);
                self.state = HandshakeState::Completed {
                    send_key: keys.send,
                    recv_key: keys.recv,
                };
                Ok(Some(raw))
            },
        }
    }

    /// The initiator receives ServerFinish and derives send/recv keys, mirrored
    /// to the responder's.
    fn on_server_finish(
        &mut self,
        peer_ephemeral: [u8; PUBLIC_KEY_LEN],
        peer_identity: [u8; PUBLIC_KEY_LEN],
        payload: &[u8],
    ) -> (r: Result<Option<Vec<u8>>, FengniError>)
        ensures
            (final(self)@, outcome_view(r)) == old(self)@.on_server_finish(
                peer_ephemeral@,
                peer_identity@,
                payload@,
            ),
    {
        let keys = match self.session_keys(&peer_ephemeral, &peer_identity) {
            Err(e) => return Err(FengniError::Crypto(e)),
            Ok(keys) => keys,
        };
        let plaintext = match crypto::decrypt(&keys.confirm, &zero_nonce(), payload) {
            Err(_) => return Err(
                FengniError::Handshake(
                    HandshakeError::IdentityRejected { reason: "ServerFinish decryption failed" },
                ),
            ),
            Ok(plaintext) => plaintext,
        };
        if !bytes::same_bytes(plaintext.as_slice(), FINISH_PLAINTEXT.as_bytes()) {
            return Err(
                FengniError::Handshake(
                    HandshakeError::IdentityRejected { reason: "ServerFinish confirm failed" },
                ),
            );
        }
        // All computations succeeded — now commit.
        self.identity.pin_peer(&peer_identity);
        self.state = HandshakeState::Completed { send_key: keys.recv, recv_key: keys.send };
        Ok(None)
    }

    /// Process an incoming handshake message at the given time.
    ///
    /// `now` is what the Hello timestamp is held against, and `token_time` is
    /// what the session token carries. See
    /// [`handle_message`](Self::handle_message).
    pub fn handle_message_at(&mut self, raw: &[u8], now: u64, token_time: u64) -> (r: Result<
        Option<Vec<u8>>,
        FengniError,
    >)
        ensures
            old(self)@.handled(raw@, now, token_time, outcome_view(r), final(self)@),
            final(self)@.wf(),
    {
        proof {
            use_type_invariant(&self.identity);
            use_type_invariant(&self.ephemeral);
        }
        let msg = match wire::decode(raw) {
            Err(e) => return Err(FengniError::Wire(WireError::Decode(e))),
            Ok(msg) => msg,
        };
        match (self.state, msg.variant) {
            (HandshakeState::ExpectHello, Some(Variant::Hello(hello))) => self.on_hello(
                hello.ephemeral_public.as_slice(),
                hello.timestamp,
                now,
                token_time,
            ),
            (
                HandshakeState::ExpectHelloReply { peer_static_public },
                Some(Variant::HelloReply(reply)),
            ) => self.on_hello_reply(
                peer_static_public,
                reply.ephemeral_public.as_slice(),
                reply.session_token.as_slice(),
            ),
            (
                HandshakeState::ExpectAuthenticate { peer_ephemeral_public },
                Some(Variant::Authenticate(auth)),
            ) => self.on_authenticate(
                peer_ephemeral_public,
                auth.identity_public.as_slice(),
                auth.proof.as_slice(),
            ),
            (
                HandshakeState::ExpectServerFinish { peer_ephemeral_public, peer_identity_public },
                Some(Variant::ServerFinish(finish)),
            ) => self.on_server_finish(
                peer_ephemeral_public,
                peer_identity_public,
                finish.payload.as_slice(),
            ),
            _ => Err(
                FengniError::Handshake(HandshakeError::UnexpectedMessage { expected: self.state }),
            ),
        }
    }

    /// Process an incoming handshake message and return the next message to
    /// send, if any.
    ///
    /// Returns `Ok(None)` when the handshake is complete and no response is
    /// needed (initiator receiving ServerFinish).
    ///
    /// Returns `Ok(Some(bytes))` when a reply should be sent to the peer.
    ///
    /// The time is read from the system clock.
    pub fn handle_message(&mut self, raw: &[u8]) -> (r: Result<Option<Vec<u8>>, FengniError>)
        ensures
            exists|now: std::time::SystemTime, token_time: std::time::SystemTime|
                #![trigger timestamp_at(now), timestamp_at(token_time)]
                primitives::shown_by_clock(now) && primitives::shown_by_clock(token_time) && old(
                    self,
                )@.handled(
                    raw@,
                    timestamp_at(now),
                    timestamp_at(token_time),
                    outcome_view(r),
                    final(self)@,
                ),
            final(self)@.wf(),
    {
        let now: u64 = current_timestamp();
        let token_time: u64 = current_timestamp();
        self.handle_message_at(raw, now, token_time)
    }

    /// Returns the current handshake state.
    pub fn state(&self) -> (r: HandshakeState)
        ensures
            r@ == self@.state,
    {
        self.state
    }

    /// Returns our identity key pair.
    pub fn identity(&self) -> (r: &KeyPair)
        ensures
            r@ == self@.identity,
    {
        &self.identity
    }

    /// The Hello message with the given timestamp.
    fn hello(&self, timestamp: u64) -> (msg: FengniMessage)
        ensures
            msg@ == Some(self@.hello(timestamp)),
            wire::encoded(msg@).len() <= 3000,
    {
        let ephemeral_public = bytes::to_vec(self.ephemeral.public_key_bytes().as_slice());
        let msg = FengniMessage {
            variant: Some(Variant::Hello(Hello { ephemeral_public, timestamp })),
        };
        proof {
            wire::lemma_short_encoding(msg@->Some_0);
        }
        msg
    }

    /// Build and return the Hello message with the given timestamp. See
    /// [`send_hello`](Self::send_hello).
    pub fn send_hello_at(&self, timestamp: u64) -> (r: Result<Vec<u8>, FengniError>)
        ensures
            hello_view(r) == self@.hello_outcome(timestamp),
            r matches Ok(raw) ==> raw@.len() <= isize::MAX,
            self@.wf(),
    {
        proof {
            use_type_invariant(&self.identity);
            use_type_invariant(&self.ephemeral);
        }
        match self.state {
            HandshakeState::ExpectHelloReply { .. } => match wire::encode(&self.hello(timestamp)) {
                Ok(raw) => Ok(raw),
                Err(e) => Err(FengniError::Wire(WireError::Encode(e))),
            },
            _ => Err(FengniError::Handshake(HandshakeError::AlreadyCompleted)),
        }
    }

    /// Build and return the Hello message.
    ///
    /// Only valid in [`HandshakeState::ExpectHelloReply`] (initiator).
    ///
    /// The timestamp is read from the system clock.
    pub fn send_hello(&mut self) -> (r: Result<Vec<u8>, FengniError>)
        ensures
            final(self)@ == old(self)@,
            final(self)@.wf(),
            exists|now: std::time::SystemTime|
                primitives::shown_by_clock(now) && hello_view(r) == old(self)@.hello_outcome(
                    #[trigger] timestamp_at(now),
                ),
            r matches Ok(raw) ==> raw@.len() <= isize::MAX,
    {
        let timestamp: u64 = current_timestamp();
        self.send_hello_at(timestamp)
    }

    /// Write the Hello message with the given timestamp into a caller-provided
    /// buffer. See [`send_hello_into`](Self::send_hello_into).
    pub fn send_hello_into_at(&self, timestamp: u64, buf: &mut [u8]) -> (r: Result<
        usize,
        FengniError,
    >)
        ensures
            self@.hello_written(timestamp, old(buf)@, hello_len_view(r), final(buf)@),
    {
        match self.state {
            HandshakeState::ExpectHelloReply { .. } => {
                let msg = self.hello(timestamp);
                match wire::encode_into(&msg, buf) {
                    Ok(written) => Ok(written),
                    Err(e) => Err(FengniError::Wire(WireError::Encode(e))),
                }
            },
            _ => Err(FengniError::Handshake(HandshakeError::AlreadyCompleted)),
        }
    }

    /// Build and write the Hello message into a caller-provided buffer.
    ///
    /// Returns the number of bytes written. Use [`FengniMessage::encoded_len`]
    /// on a Hello message to determine the required buffer size.
    ///
    /// Only valid in [`HandshakeState::ExpectHelloReply`] (initiator).
    ///
    /// The timestamp is read from the system clock.
    pub fn send_hello_into(&mut self, buf: &mut [u8]) -> (r: Result<usize, FengniError>)
        ensures
            final(self)@ == old(self)@,
            exists|now: std::time::SystemTime|
                primitives::shown_by_clock(now) && old(self)@.hello_written(
                    #[trigger] timestamp_at(now),
                    old(buf)@,
                    hello_len_view(r),
                    final(buf)@,
                ),
    {
        let timestamp: u64 = current_timestamp();
        self.send_hello_into_at(timestamp, buf)
    }

    /// Consume the handshake and return a [`TransportState`] for data encryption.
    ///
    /// Returns an error if the handshake has not completed.
    pub fn into_transport(self) -> (r: Result<TransportState, FengniError>)
        ensures
            match (self@.state, r) {
                (StateView::Completed { send_key, recv_key }, Ok(transport)) => transport@ == (
                TransportView {
                    send: CipherView::keyed(send_key),
                    receive: ReceiveView::fresh(CipherView::keyed(recv_key)),
                }),
                (_, Err(e)) => {
                    &&& !(self@.state is Completed)
                    &&& e@ == FengniErrorView::State("handshake not completed"@)
                },
                _ => false,
            },
    {
        match self.state {
            HandshakeState::Completed { send_key, recv_key } => Ok(
                TransportState::new(
                    CipherStates {
                        send: CipherState::new(&send_key),
                        recv: CipherState::new(&recv_key),
                    },
                ),
            ),
            _ => Err(FengniError::State("handshake not completed".to_owned())),
        }
    }
}

/// The Hello message or an error, with the bytes as a sequence.
pub open spec fn hello_view(r: Result<Vec<u8>, FengniError>) -> Result<Seq<u8>, FengniErrorView> {
    match r {
        Ok(raw) => Ok(raw@),
        Err(e) => Err(e@),
    }
}

/// A number of bytes or an error, with the error as the model has it.
pub open spec fn hello_len_view(r: Result<usize, FengniError>) -> Result<nat, FengniErrorView> {
    match r {
        Ok(n) => Ok(n as nat),
        Err(e) => Err(e@),
    }
}

/// A Fengni protocol handshake builder.
///
/// Validates inputs before the handshake starts.
pub struct HandshakeBuilder {
    identity: KeyPair,
    /// The pinned responder, where we are the initiator.
    peer_static_public: Option<[u8; PUBLIC_KEY_LEN]>,
    prologue: Vec<u8>,
}

/// What a [`HandshakeBuilder`] holds.
pub struct BuilderView {
    pub identity: KeyPairView,
    pub peer_static_public: Option<Seq<u8>>,
    pub prologue: Seq<u8>,
}

impl BuilderView {
    /// The handshake with the given ephemeral key pair.
    pub open spec fn built(self, ephemeral: KeyPairView) -> HandshakeModel {
        HandshakeModel {
            state: match self.peer_static_public {
                Some(peer_static_public) => StateView::ExpectHelloReply { peer_static_public },
                None => StateView::ExpectHello,
            },
            identity: self.identity,
            ephemeral,
            prologue: self.prologue,
        }
    }
}

impl View for HandshakeBuilder {
    type V = BuilderView;

    closed spec fn view(&self) -> BuilderView {
        BuilderView {
            identity: self.identity@,
            peer_static_public: match self.peer_static_public {
                Some(peer) => Some(peer@),
                None => None,
            },
            prologue: self.prologue@,
        }
    }
}

impl HandshakeBuilder {
    /// Create a new builder for the initiator role.
    ///
    /// `identity` — the initiator's long-term key pair.
    /// `peer_static_public` — the expected responder's public key (pinned).
    pub fn initiator(identity: KeyPair, peer_static_public: [u8; PUBLIC_KEY_LEN]) -> (r: Self)
        ensures
            r@ == (BuilderView {
                identity: identity@.pinned_to(peer_static_public@),
                peer_static_public: Some(peer_static_public@),
                prologue: Seq::empty(),
            }),
    {
        let mut identity = identity;
        identity.pin_peer(&peer_static_public);
        Self { identity, peer_static_public: Some(peer_static_public), prologue: Vec::new() }
    }

    /// Create a new builder for the responder role.
    ///
    /// `identity` — the responder's long-term key pair.
    pub fn responder(identity: KeyPair) -> (r: Self)
        ensures
            r@ == (BuilderView {
                identity: identity@,
                peer_static_public: None,
                prologue: Seq::empty(),
            }),
    {
        Self { identity, peer_static_public: None, prologue: Vec::new() }
    }

    /// Set an optional prologue for cross-protocol key isolation.
    ///
    /// The prologue is prefixed to every HKDF info label in the handshake,
    /// ensuring that keys derived under different prologues are independent.
    /// Both peers must agree on the prologue; a mismatch causes decryption
    /// failure.
    pub fn prologue(self, data: &[u8]) -> (r: Self)
        ensures
            r@ == (BuilderView { prologue: data@, ..self@ }),
    {
        Self {
            identity: self.identity,
            peer_static_public: self.peer_static_public,
            prologue: bytes::to_vec(data),
        }
    }

    /// Build the handshake state machine with a given ephemeral key pair, which
    /// must not be used for another handshake.
    pub fn build_with_ephemeral(self, ephemeral: KeyPair) -> (r: Handshake)
        ensures
            r@ == self@.built(ephemeral@),
            r@.wf(),
    {
        proof {
            use_type_invariant(&self.identity);
            use_type_invariant(&ephemeral);
        }
        let state = match self.peer_static_public {
            Some(peer_static_public) => HandshakeState::ExpectHelloReply { peer_static_public },
            None => HandshakeState::ExpectHello,
        };
        Handshake { state, identity: self.identity, ephemeral, prologue: self.prologue }
    }

    /// Build the handshake state machine, with a fresh ephemeral key pair.
    pub fn build(self) -> (r: Handshake)
        ensures
            r@ == self@.built(r@.ephemeral),
            r@.ephemeral.ss is None,
            primitives::drawn_at_random(r@.ephemeral.secret),
            r@.wf(),
    {
        self.build_with_ephemeral(KeyPair::generate())
    }
}

/// The proof of possession of an identity's secret.
fn identity_proof(
    proof_key: &[u8; SYMMETRIC_KEY_LEN],
    identity_public: &[u8; PUBLIC_KEY_LEN],
) -> (tag: [u8; HMAC_TAG_LEN])
    ensures
        tag@ == HandshakeModel::proof_of(proof_key@, identity_public@),
{
    let chunks: [&[u8]; 2] = [identity_public.as_slice(), PROOF_CONTEXT.as_bytes()];
    proof {
        model::lemma_label_lengths();
        lemma_proof_input(chunks@);
    }
    crypto::hmac_sha256(proof_key, chunks.as_slice())
}

} // verus!
