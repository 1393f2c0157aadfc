//! What a handshake does, as functions of its state, the message it receives
//! and the time.

use crate::bytes;
use crate::cipher;
use crate::crypto;
use crate::error::{CryptoError, FengniErrorView, HandshakeErrorView, WireError};
use crate::keys::{KeyPairView, PUBLIC_KEY_LEN};
use crate::primitives;
use crate::shares;
use crate::wire;
use crate::wire::fengni_message::VariantView;
use vstd::prelude::*;
use vstd::string::*;

verus! {

/// HKDF info label of the key that protects the handshake messages.
pub const HKDF_INFO_HELLO: &'static str = "fengni-v1-handshake-hello";

/// HKDF info label of the responder's send key.
pub const HKDF_INFO_SEND: &'static str = "fengni-v1-transport-send";

/// HKDF info label of the responder's receive key.
pub const HKDF_INFO_RECV: &'static str = "fengni-v1-transport-recv";

/// HKDF info label of the key that protects the confirmation in ServerFinish.
pub const HKDF_INFO_CONFIRM: &'static str = "fengni-v1-handshake-confirm";

/// HKDF info label for identity encryption in the Authenticate message.
pub const HKDF_INFO_IDENTITY_HIDE: &'static str = "fengni-v1-auth-identity";

/// HKDF info label of the key of the proof in Authenticate.
pub const HKDF_INFO_PROOF: &'static str = "fengni-v1-auth-proof-key";

/// Context label for the HMAC proof in Authenticate.
pub const PROOF_CONTEXT: &'static str = "fengni-v1-auth-proof";

/// What ServerFinish carries, encrypted.
pub const FINISH_PLAINTEXT: &'static str = "fengni-handshake-complete";

/// Maximum allowed clock skew in seconds.
pub const CLOCK_SKEW_SECS: u64 = 60;

/// A [`HandshakeState`](super::HandshakeState) with its byte arrays as
/// sequences.
#[verifier::ext_equal]
pub enum StateView {
    ExpectHello,
    ExpectHelloReply { peer_static_public: Seq<u8> },
    ExpectAuthenticate { peer_ephemeral_public: Seq<u8> },
    ExpectServerFinish { peer_ephemeral_public: Seq<u8>, peer_identity_public: Seq<u8> },
    Completed { send_key: Seq<u8>, recv_key: Seq<u8> },
}

/// A [`Handshake`](super::Handshake) with its byte strings as sequences.
#[verifier::ext_equal]
pub struct HandshakeModel {
    pub state: StateView,
    pub identity: KeyPairView,
    pub ephemeral: KeyPairView,
    pub prologue: Seq<u8>,
}

/// What a received message leads to: the message to send back, if any, or an
/// error.
pub type Outcome = Result<Option<Seq<u8>>, FengniErrorView>;

/// The keys that both peers derive at the end of a handshake.
pub struct SessionKeys {
    /// The responder sends under this key.
    pub send: Seq<u8>,
    /// The responder receives under this key.
    pub recv: Seq<u8>,
    /// The key of the confirmation in ServerFinish.
    pub confirm: Seq<u8>,
}

/// The all-zero nonce of the handshake messages.
pub open spec fn zero_nonce() -> Seq<u8> {
    cipher::zeros(12)
}

/// Whether the peer's clock is within the allowed skew of ours.
pub open spec fn clock_agrees(peer_ts: u64, local_ts: u64) -> bool {
    local_ts - CLOCK_SKEW_SECS <= peer_ts <= local_ts + CLOCK_SKEW_SECS
}

/// The error of a malformed message.
pub open spec fn malformed(context: &'static str) -> FengniErrorView {
    FengniErrorView::Handshake(HandshakeErrorView::Malformed { context })
}

/// The error of a peer whose identity could not be verified.
pub open spec fn rejected(reason: &'static str) -> FengniErrorView {
    FengniErrorView::Handshake(HandshakeErrorView::IdentityRejected { reason })
}

/// Encryption under the key and nonce opens again, to the same plaintext.
pub open spec fn opens_again(key: Seq<u8>, plaintext: Seq<u8>) -> bool {
    crypto::sealed(key, zero_nonce(), plaintext) matches Ok(ciphertext) ==> crypto::opened(
        key,
        zero_nonce(),
        ciphertext,
    ) == Ok::<_, CryptoError>(plaintext)
}

impl HandshakeModel {
    /// The key pairs are sound, and what the state holds has the right length.
    pub open spec fn wf(self) -> bool {
        &&& self.identity.wf()
        &&& self.ephemeral.wf()
        &&& match self.state {
            StateView::ExpectHello => true,
            StateView::ExpectHelloReply { peer_static_public } => peer_static_public.len()
                == PUBLIC_KEY_LEN,
            StateView::ExpectAuthenticate { peer_ephemeral_public } => peer_ephemeral_public.len()
                == PUBLIC_KEY_LEN,
            StateView::ExpectServerFinish { peer_ephemeral_public, peer_identity_public } => {
                &&& peer_ephemeral_public.len() == PUBLIC_KEY_LEN
                &&& peer_identity_public.len() == PUBLIC_KEY_LEN
            },
            StateView::Completed { send_key, recv_key } => {
                &&& send_key.len() == crypto::SYMMETRIC_KEY_LEN
                &&& recv_key.len() == crypto::SYMMETRIC_KEY_LEN
            },
        }
    }

    // --- Keys ---

    /// The key that HKDF derives under a label, which the prologue precedes.
    pub open spec fn key(self, ikm: Seq<u8>, label: &'static str) -> Result<Seq<u8>, CryptoError> {
        let info = self.prologue + label.spec_bytes();
        if info.len() <= usize::MAX {
            crypto::derived_key(ikm, info)
        } else {
            Err(CryptoError::KeyDerivation)
        }
    }

    /// The key of the handshake messages, from the ephemeral-ephemeral share.
    pub open spec fn handshake_key(self, peer_ephemeral: Seq<u8>) -> Result<
        Seq<u8>,
        CryptoError,
    > {
        self.key(self.ephemeral.shared_with(peer_ephemeral), HKDF_INFO_HELLO)
    }

    /// The shares of the four key agreements, in the order `ee`, `es`, `se`,
    /// `ss`.
    pub open spec fn agreements(self, peer_ephemeral: Seq<u8>, peer_identity: Seq<u8>) -> Seq<
        Seq<u8>,
    > {
        seq![
            self.ephemeral.shared_with(peer_ephemeral),
            self.ephemeral.shared_with(peer_identity),
            self.identity.shared_with(peer_ephemeral),
            self.identity.shared_with(peer_identity),
        ]
    }

    /// The session keys, from the combination of the four shares.
    pub open spec fn session_keys(self, peer_ephemeral: Seq<u8>, peer_identity: Seq<u8>) -> Result<
        SessionKeys,
        CryptoError,
    > {
        let material = shares::combined(self.agreements(peer_ephemeral, peer_identity));
        match (
            self.key(material, HKDF_INFO_SEND),
            self.key(material, HKDF_INFO_RECV),
            self.key(material, HKDF_INFO_CONFIRM),
        ) {
            (Ok(send), Ok(recv), Ok(confirm)) => Ok(SessionKeys { send, recv, confirm }),
            _ => Err(CryptoError::KeyDerivation),
        }
    }

    // --- Messages ---

    /// The Hello message with the given timestamp.
    pub open spec fn hello(self, timestamp: u64) -> VariantView {
        VariantView::Hello { ephemeral_public: self.ephemeral.public, timestamp }
    }

    /// What the session token holds: our identity and the time.
    pub open spec fn token_plaintext(self, token_time: u64) -> Seq<u8> {
        self.identity.public + bytes::be_bytes(token_time)
    }

    /// What `send_hello` returns.
    pub open spec fn hello_outcome(self, timestamp: u64) -> Result<Seq<u8>, FengniErrorView> {
        if self.state is ExpectHelloReply {
            Ok(wire::encoded(Some(self.hello(timestamp))))
        } else {
            Err(FengniErrorView::Handshake(HandshakeErrorView::AlreadyCompleted))
        }
    }

    /// What `send_hello_into` writes and returns. A buffer that is too short is
    /// left as it is.
    pub open spec fn hello_written(
        self,
        timestamp: u64,
        buf: Seq<u8>,
        outcome: Result<nat, FengniErrorView>,
        after: Seq<u8>,
    ) -> bool {
        match self.hello_outcome(timestamp) {
            Ok(raw) => if raw.len() <= buf.len() {
                outcome == Ok::<_, FengniErrorView>(raw.len()) && after == bytes::overwrite(
                    buf,
                    raw,
                )
            } else {
                &&& outcome matches Err(FengniErrorView::Wire(WireError::Encode(e)))
                &&& e.required == raw.len()
                &&& e.remaining == buf.len()
                &&& after == buf
            },
            Err(e) => outcome == Err::<nat, _>(e) && after == buf,
        }
    }

    // --- Transitions ---

    /// The responder receives Hello and sends HelloReply.
    pub open spec fn on_hello(
        self,
        ephemeral_public: Seq<u8>,
        timestamp: u64,
        now: u64,
        token_time: u64,
    ) -> (HandshakeModel, Outcome) {
        if !clock_agrees(timestamp, now) {
            (
                self,
                Err(
                    FengniErrorView::Handshake(
                        HandshakeErrorView::TimestampExpired { peer_ts: timestamp, local_ts: now },
                    ),
                ),
            )
        } else if ephemeral_public.len() != PUBLIC_KEY_LEN {
            (self, Err(malformed("Hello.ephemeral_public")))
        } else {
            match self.handshake_key(ephemeral_public) {
                Err(e) => (self, Err(FengniErrorView::Crypto(e))),
                Ok(hk) => match crypto::sealed(
                    hk,
                    zero_nonce(),
                    self.token_plaintext(token_time),
                ) {
                    Err(e) => (self, Err(FengniErrorView::Crypto(e))),
                    Ok(session_token) => (
                        HandshakeModel {
                            state: StateView::ExpectAuthenticate {
                                peer_ephemeral_public: ephemeral_public,
                            },
                            ..self
                        },
                        Ok(
                            Some(
                                wire::encoded(
                                    Some(
                                        VariantView::HelloReply {
                                            ephemeral_public: self.ephemeral.public,
                                            session_token,
                                        },
                                    ),
                                ),
                            ),
                        ),
                    ),
                },
            }
        }
    }

    /// The key of the proof in Authenticate, from the ephemeral-ephemeral share
    /// and the share of the initiator's identity and the responder's ephemeral
    /// key. The latter takes one of those two secrets, so that an initiator who
    /// makes the proof holds the secret of its identity.
    pub open spec fn proof_key(self, ee: Seq<u8>, identity_share: Seq<u8>) -> Result<
        Seq<u8>,
        CryptoError,
    > {
        self.key(shares::combined(seq![ee, identity_share]), HKDF_INFO_PROOF)
    }

    /// The key of the proof that we make of our identity.
    pub open spec fn own_proof_key(self, peer_ephemeral: Seq<u8>) -> Result<Seq<u8>, CryptoError> {
        self.proof_key(
            self.ephemeral.shared_with(peer_ephemeral),
            self.identity.shared_with(peer_ephemeral),
        )
    }

    /// The key of the proof that the peer makes of its identity.
    pub open spec fn peer_proof_key(
        self,
        peer_ephemeral: Seq<u8>,
        peer_identity: Seq<u8>,
    ) -> Result<Seq<u8>, CryptoError> {
        self.proof_key(
            self.ephemeral.shared_with(peer_ephemeral),
            self.ephemeral.shared_with(peer_identity),
        )
    }

    /// The proof of possession of an identity's secret.
    pub open spec fn proof_of(proof_key: Seq<u8>, identity_public: Seq<u8>) -> Seq<u8> {
        primitives::hmac_sha256_tag(proof_key, identity_public + PROOF_CONTEXT.spec_bytes())@
    }

    /// The initiator, who expects the responder `pinned`, receives HelloReply
    /// and sends Authenticate.
    pub open spec fn on_hello_reply(
        self,
        pinned: Seq<u8>,
        ephemeral_public: Seq<u8>,
        session_token: Seq<u8>,
    ) -> (HandshakeModel, Outcome) {
        if ephemeral_public.len() != PUBLIC_KEY_LEN {
            (self, Err(malformed("HelloReply.ephemeral_public")))
        } else {
            match self.handshake_key(ephemeral_public) {
                Err(e) => (self, Err(FengniErrorView::Crypto(e))),
                Ok(hk) => match crypto::opened(hk, zero_nonce(), session_token) {
                    Err(e) => (self, Err(FengniErrorView::Crypto(e))),
                    Ok(token) => if token.len() < PUBLIC_KEY_LEN {
                        (self, Err(malformed("session token too short")))
                    } else if token.take(32) != pinned {
                        (self, Err(rejected("public key mismatch")))
                    } else {
                        self.authenticated_to(pinned, ephemeral_public)
                    },
                },
            }
        }
    }

    /// The initiator has found the identity of the responder `pinned` in the
    /// token and sends Authenticate.
    pub open spec fn authenticated_to(self, pinned: Seq<u8>, ephemeral_public: Seq<u8>) -> (
        HandshakeModel,
        Outcome,
    ) {
        match (
            self.own_proof_key(ephemeral_public),
            self.key(self.ephemeral.shared_with(pinned), HKDF_INFO_IDENTITY_HIDE),
        ) {
            (Err(e), _) => (self, Err(FengniErrorView::Crypto(e))),
            (_, Err(e)) => (self, Err(FengniErrorView::Crypto(e))),
            (Ok(proof_key), Ok(identity_key)) => match crypto::sealed(
                identity_key,
                zero_nonce(),
                self.identity.public,
            ) {
                Err(e) => (self, Err(FengniErrorView::Crypto(e))),
                Ok(identity_public) => (
                    HandshakeModel {
                        state: StateView::ExpectServerFinish {
                            peer_ephemeral_public: ephemeral_public,
                            peer_identity_public: pinned,
                        },
                        ..self
                    },
                    Ok(
                        Some(
                            wire::encoded(
                                Some(
                                    VariantView::Authenticate {
                                        identity_public,
                                        proof: Self::proof_of(proof_key, self.identity.public),
                                    },
                                ),
                            ),
                        ),
                    ),
                ),
            },
        }
    }

    /// The initiator's identity, as the responder reads it from Authenticate.
    pub open spec fn peer_identity(self, peer_ephemeral: Seq<u8>, identity_public: Seq<u8>) -> Result<
        Seq<u8>,
        FengniErrorView,
    > {
        match self.key(self.identity.shared_with(peer_ephemeral), HKDF_INFO_IDENTITY_HIDE) {
            Err(e) => Err(FengniErrorView::Crypto(e)),
            Ok(identity_key) => match crypto::opened(identity_key, zero_nonce(), identity_public) {
                Err(_) => Err(rejected("identity decryption failed")),
                Ok(peer_identity) => if peer_identity.len() != PUBLIC_KEY_LEN {
                    Err(malformed("Authenticate.identity_public"))
                } else {
                    Ok(peer_identity)
                },
            },
        }
    }

    /// The responder receives Authenticate and sends ServerFinish.
    pub open spec fn on_authenticate(
        self,
        peer_ephemeral: Seq<u8>,
        identity_public: Seq<u8>,
        proof_bytes: Seq<u8>,
    ) -> (HandshakeModel, Outcome) {
        match self.peer_identity(peer_ephemeral, identity_public) {
            Err(e) => (self, Err(e)),
            Ok(peer_identity) => match self.peer_proof_key(peer_ephemeral, peer_identity) {
                Err(e) => (self, Err(FengniErrorView::Crypto(e))),
                Ok(proof_key) => if proof_bytes.len() != crypto::HMAC_TAG_LEN {
                    (self, Err(malformed("Authenticate.proof")))
                } else if proof_bytes != Self::proof_of(proof_key, peer_identity) {
                    (self, Err(rejected("HMAC proof invalid")))
                } else {
                    self.finished_with(peer_ephemeral, peer_identity)
                },
            },
        }
    }

    /// The responder has verified the initiator and sends ServerFinish.
    pub open spec fn finished_with(self, peer_ephemeral: Seq<u8>, peer_identity: Seq<u8>) -> (
        HandshakeModel,
        Outcome,
    ) {
        match self.session_keys(peer_ephemeral, peer_identity) {
            Err(e) => (self, Err(FengniErrorView::Crypto(e))),
            Ok(keys) => match crypto::sealed(
                keys.confirm,
                zero_nonce(),
                FINISH_PLAINTEXT.spec_bytes(),
            ) {
                Err(e) => (self, Err(FengniErrorView::Crypto(e))),
                Ok(payload) => (
                    HandshakeModel {
                        state: StateView::Completed { send_key: keys.send, recv_key: keys.recv },
                        identity: self.identity.pinned_to(peer_identity),
                        ..self
                    },
                    Ok(Some(wire::encoded(Some(VariantView::ServerFinish { payload })))),
                ),
            },
        }
    }

    /// The initiator receives ServerFinish.
    pub open spec fn on_server_finish(
        self,
        peer_ephemeral: Seq<u8>,
        peer_identity: Seq<u8>,
        payload: Seq<u8>,
    ) -> (HandshakeModel, Outcome) {
        match self.session_keys(peer_ephemeral, peer_identity) {
            Err(e) => (self, Err(FengniErrorView::Crypto(e))),
            Ok(keys) => match crypto::opened(keys.confirm, zero_nonce(), payload) {
                Err(_) => (self, Err(rejected("ServerFinish decryption failed"))),
                Ok(plaintext) => if plaintext != FINISH_PLAINTEXT.spec_bytes() {
                    (self, Err(rejected("ServerFinish confirm failed")))
                } else {
                    (
                        HandshakeModel {
                            state: StateView::Completed {
                                send_key: keys.recv,
                                recv_key: keys.send,
                            },
                            identity: self.identity.pinned_to(peer_identity),
                            ..self
                        },
                        Ok(None),
                    )
                },
            },
        }
    }

    /// What a received message does, at the local time `now`. The session token
    /// carries `token_time`.
    pub open spec fn step(self, raw: Seq<u8>, now: u64, token_time: u64) -> (
        HandshakeModel,
        Outcome,
    ) {
        match wire::decoded(raw) {
            Err(e) => (self, Err(FengniErrorView::Wire(WireError::Decode(e)))),
            Ok(msg) => match (self.state, msg) {
                (
                    StateView::ExpectHello,
                    Some(VariantView::Hello { ephemeral_public, timestamp }),
                ) => self.on_hello(ephemeral_public, timestamp, now, token_time),
                (
                    StateView::ExpectHelloReply { peer_static_public },
                    Some(VariantView::HelloReply { ephemeral_public, session_token }),
                ) => self.on_hello_reply(peer_static_public, ephemeral_public, session_token),
                (
                    StateView::ExpectAuthenticate { peer_ephemeral_public },
                    Some(VariantView::Authenticate { identity_public, proof }),
                ) => self.on_authenticate(peer_ephemeral_public, identity_public, proof),
                (
                    StateView::ExpectServerFinish { peer_ephemeral_public, peer_identity_public },
                    Some(VariantView::ServerFinish { payload }),
                ) => self.on_server_finish(peer_ephemeral_public, peer_identity_public, payload),
                _ => (
                    self,
                    Err(
                        FengniErrorView::Handshake(
                            HandshakeErrorView::UnexpectedMessage { expected: self.state },
                        ),
                    ),
                ),
            },
        }
    }

    /// What the reply to a message protects, the peer can read: what is sealed
    /// in it opens again.
    pub open spec fn reply_readable(self, raw: Seq<u8>, token_time: u64) -> bool {
        match (self.state, wire::decoded(raw)) {
            (
                StateView::ExpectHello,
                Ok(Some(VariantView::Hello { ephemeral_public, .. })),
            ) => self.handshake_key(ephemeral_public) matches Ok(hk) ==> opens_again(
                hk,
                self.token_plaintext(token_time),
            ),
            (
                StateView::ExpectHelloReply { peer_static_public },
                Ok(Some(VariantView::HelloReply { .. })),
            ) => self.key(
                self.ephemeral.shared_with(peer_static_public),
                HKDF_INFO_IDENTITY_HIDE,
            ) matches Ok(identity_key) ==> opens_again(identity_key, self.identity.public),
            (
                StateView::ExpectAuthenticate { peer_ephemeral_public },
                Ok(Some(VariantView::Authenticate { identity_public, .. })),
            ) => self.peer_identity(peer_ephemeral_public, identity_public) matches Ok(peer)
                ==> self.session_keys(peer_ephemeral_public, peer) matches Ok(keys)
                ==> opens_again(keys.confirm, FINISH_PLAINTEXT.spec_bytes()),
            _ => true,
        }
    }

    /// The outcome of a received message and the handshake after it. A reply is
    /// short enough for a byte vector, and readable for the peer.
    pub open spec fn handled(
        self,
        raw: Seq<u8>,
        now: u64,
        token_time: u64,
        outcome: Outcome,
        after: HandshakeModel,
    ) -> bool {
        &&& (after, outcome) == self.step(raw, now, token_time)
        &&& outcome is Ok ==> self.reply_readable(raw, token_time)
        &&& outcome matches Ok(Some(reply)) ==> reply.len() <= isize::MAX
    }
}

/// The fixed strings are short.
pub proof fn lemma_label_lengths()
    ensures
        PROOF_CONTEXT.spec_bytes().len() == 20,
        FINISH_PLAINTEXT.spec_bytes().len() == 25,
        HKDF_INFO_HELLO.spec_bytes().len() == 25,
        HKDF_INFO_SEND.spec_bytes().len() == 24,
        HKDF_INFO_RECV.spec_bytes().len() == 24,
        HKDF_INFO_CONFIRM.spec_bytes().len() == 27,
        HKDF_INFO_IDENTITY_HIDE.spec_bytes().len() == 23,
        HKDF_INFO_PROOF.spec_bytes().len() == 24,
{
    reveal_strlit("fengni-v1-auth-proof");
    reveal_strlit("fengni-handshake-complete");
    reveal_strlit("fengni-v1-handshake-hello");
    reveal_strlit("fengni-v1-transport-send");
    reveal_strlit("fengni-v1-transport-recv");
    reveal_strlit("fengni-v1-handshake-confirm");
    reveal_strlit("fengni-v1-auth-identity");
    reveal_strlit("fengni-v1-auth-proof-key");
    is_ascii_spec_bytes(PROOF_CONTEXT);
    is_ascii_spec_bytes(FINISH_PLAINTEXT);
    is_ascii_spec_bytes(HKDF_INFO_HELLO);
    is_ascii_spec_bytes(HKDF_INFO_SEND);
    is_ascii_spec_bytes(HKDF_INFO_RECV);
    is_ascii_spec_bytes(HKDF_INFO_CONFIRM);
    is_ascii_spec_bytes(HKDF_INFO_IDENTITY_HIDE);
    is_ascii_spec_bytes(HKDF_INFO_PROOF);
}

} // verus!
