//! Error types for the Fengni protocol.

use crate::handshake::{HandshakeState, StateView};
use vstd::prelude::*;

verus! {

/// Top-level error type for all Fengni operations.
#[derive(Debug)]
#[non_exhaustive]
pub enum FengniError {
    /// A cryptographic operation failed.
    Crypto(CryptoError),
    /// The handshake failed.
    Handshake(HandshakeError),
    /// Wire format encoding or decoding failed.
    Wire(WireError),
    /// The protocol is in a wrong state for the requested operation.
    State(String),
}

/// Errors from cryptographic operations.
#[derive(Debug, Clone, Copy, PartialEq, Eq)]
#[non_exhaustive]
pub enum CryptoError {
    /// Encryption failed. Also returned for a nonce that has reached the
    /// reserved value and for a received nonce that is too old.
    Encrypt,
    /// Decryption failed (wrong key, tampered data, or corrupted ciphertext).
    Decrypt,
    /// Key derivation failed.
    KeyDerivation,
    /// The provided key material is invalid.
    InvalidKey,
    /// Random number generation failed.
    RngFailure,
    /// The nonce has already been received.
    NonceReplayed,
}

/// Errors from the handshake phase.
#[derive(Debug)]
#[non_exhaustive]
pub enum HandshakeError {
    /// The handshake has already completed.
    AlreadyCompleted,
    /// An unexpected message type was received.
    UnexpectedMessage {
        /// The state the handshake was in.
        expected: HandshakeState,
    },
    /// The timestamp is outside the acceptable window.
    TimestampExpired {
        /// The timestamp the peer sent.
        peer_ts: u64,
        /// The local time when it was checked.
        local_ts: u64,
    },
    /// The peer's identity could not be verified.
    IdentityRejected {
        /// Which check failed.
        reason: &'static str,
    },
    /// The handshake message is malformed.
    Malformed {
        /// Which part of the message is malformed.
        context: &'static str,
    },
}

/// Errors from wire format operations.
#[derive(Debug, Clone, Copy, PartialEq, Eq)]
#[non_exhaustive]
pub enum WireError {
    /// Protobuf encoding failed.
    Encode(EncodeError),
    /// Protobuf decoding failed.
    Decode(DecodeError),
}

/// The output buffer cannot hold the encoded message.
#[derive(Debug, Clone, Copy, PartialEq, Eq)]
pub struct EncodeError {
    /// The number of bytes the message needs, or `usize::MAX` where it needs
    /// more than that.
    pub required: usize,
    /// The number of bytes the buffer offers.
    pub remaining: usize,
}

/// Why a byte string is not an encoded message.
#[derive(Debug, Clone, Copy, PartialEq, Eq)]
#[non_exhaustive]
pub enum DecodeError {
    /// A variable-length integer is cut off or does not fit in 64 bits.
    InvalidVarint,
    /// A field key does not fit in 32 bits.
    InvalidKey,
    /// A field key names a wire type that does not exist.
    InvalidWireType,
    /// A field key has the tag 0.
    InvalidTag,
    /// A known field has another wire type than its own.
    WireTypeMismatch,
    /// A length runs past the end of the input.
    BufferUnderflow,
    /// The fields of an embedded message run past its end.
    DelimitedLengthExceeded,
    /// A group ends that was not opened, or under another tag.
    UnexpectedEndGroup,
    /// Groups are nested too deeply.
    RecursionLimit,
}

// --- Views ---

/// A [`HandshakeError`] with its byte arrays as sequences.
pub enum HandshakeErrorView {
    AlreadyCompleted,
    UnexpectedMessage { expected: StateView },
    TimestampExpired { peer_ts: u64, local_ts: u64 },
    IdentityRejected { reason: &'static str },
    Malformed { context: &'static str },
}

impl View for HandshakeError {
    type V = HandshakeErrorView;

    open spec fn view(&self) -> HandshakeErrorView {
        match *self {
            HandshakeError::AlreadyCompleted => HandshakeErrorView::AlreadyCompleted,
            HandshakeError::UnexpectedMessage { expected } => HandshakeErrorView::UnexpectedMessage {
                expected: expected@,
            },
            HandshakeError::TimestampExpired { peer_ts, local_ts } => {
                HandshakeErrorView::TimestampExpired { peer_ts, local_ts }
            },
            HandshakeError::IdentityRejected { reason } => HandshakeErrorView::IdentityRejected {
                reason,
            },
            HandshakeError::Malformed { context } => HandshakeErrorView::Malformed { context },
        }
    }
}

/// A [`FengniError`] with its byte arrays and strings as sequences.
pub enum FengniErrorView {
    Crypto(CryptoError),
    Handshake(HandshakeErrorView),
    Wire(WireError),
    State(Seq<char>),
}

impl View for FengniError {
    type V = FengniErrorView;

    open spec fn view(&self) -> FengniErrorView {
        match *self {
            FengniError::Crypto(e) => FengniErrorView::Crypto(e),
            FengniError::Handshake(e) => FengniErrorView::Handshake(e@),
            FengniError::Wire(e) => FengniErrorView::Wire(e),
            FengniError::State(s) => FengniErrorView::State(s@),
        }
    }
}

// --- Conversions ---

impl From<CryptoError> for FengniError {
    fn from(e: CryptoError) -> (r: FengniError) {
        FengniError::Crypto(e)
    }
}

impl vstd::std_specs::convert::FromSpecImpl<CryptoError> for FengniError {
    open spec fn obeys_from_spec() -> bool {
        true
    }

    open spec fn from_spec(e: CryptoError) -> FengniError {
        FengniError::Crypto(e)
    }
}

impl From<HandshakeError> for FengniError {
    fn from(e: HandshakeError) -> (r: FengniError) {
        FengniError::Handshake(e)
    }
}

impl vstd::std_specs::convert::FromSpecImpl<HandshakeError> for FengniError {
    open spec fn obeys_from_spec() -> bool {
        true
    }

    open spec fn from_spec(e: HandshakeError) -> FengniError {
        FengniError::Handshake(e)
    }
}

impl From<WireError> for FengniError {
    fn from(e: WireError) -> (r: FengniError) {
        FengniError::Wire(e)
    }
}

impl vstd::std_specs::convert::FromSpecImpl<WireError> for FengniError {
    open spec fn obeys_from_spec() -> bool {
        true
    }

    open spec fn from_spec(e: WireError) -> FengniError {
        FengniError::Wire(e)
    }
}

impl From<EncodeError> for WireError {
    fn from(e: EncodeError) -> (r: WireError) {
        WireError::Encode(e)
    }
}

impl vstd::std_specs::convert::FromSpecImpl<EncodeError> for WireError {
    open spec fn obeys_from_spec() -> bool {
        true
    }

    open spec fn from_spec(e: EncodeError) -> WireError {
        WireError::Encode(e)
    }
}

impl From<DecodeError> for WireError {
    fn from(e: DecodeError) -> (r: WireError) {
        WireError::Decode(e)
    }
}

impl vstd::std_specs::convert::FromSpecImpl<DecodeError> for WireError {
    open spec fn obeys_from_spec() -> bool {
        true
    }

    open spec fn from_spec(e: DecodeError) -> WireError {
        WireError::Decode(e)
    }
}

impl From<EncodeError> for FengniError {
    fn from(e: EncodeError) -> (r: FengniError) {
        FengniError::Wire(WireError::Encode(e))
    }
}

impl vstd::std_specs::convert::FromSpecImpl<EncodeError> for FengniError {
    open spec fn obeys_from_spec() -> bool {
        true
    }

    open spec fn from_spec(e: EncodeError) -> FengniError {
        FengniError::Wire(WireError::Encode(e))
    }
}

impl From<DecodeError> for FengniError {
    fn from(e: DecodeError) -> (r: FengniError) {
        FengniError::Wire(WireError::Decode(e))
    }
}

impl vstd::std_specs::convert::FromSpecImpl<DecodeError> for FengniError {
    open spec fn obeys_from_spec() -> bool {
        true
    }

    open spec fn from_spec(e: DecodeError) -> FengniError {
        FengniError::Wire(WireError::Decode(e))
    }
}

} // verus!
