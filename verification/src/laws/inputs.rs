//! Every operation takes every input, but for the few whose contract names a
//! limit of the machine.

use crate::bytes;
use crate::cipher::{CipherState, CipherStates};
use crate::crypto;
use crate::error::{
    CryptoError, DecodeError, EncodeError, FengniError, HandshakeError, WireError,
};
use crate::handshake::model;
use crate::handshake::{Handshake, HandshakeBuilder, HandshakeState};
use crate::keys::{self, KeyPair};
use crate::protobuf;
use crate::replay::{self, ReplayValidator};
use crate::shares;
use crate::transport::{ReceiveState, TransportState};
use crate::wire::{self, FengniMessage};
use vstd::prelude::*;

verus! {

/// Keys are derived from, and text is encrypted under, whatever is given.
pub proof fn algorithms_take_every_input(
    ikm: &[u8],
    info: &[u8],
    key: &[u8; 32],
    nonce: &[u8; 12],
    text: &[u8],
    out: &mut [u8],
)
    ensures
        call_requires(crypto::derive_key, (ikm, info)),
        call_requires(crypto::derive_key_pair, (ikm, info)),
        call_requires(crypto::encrypt, (key, nonce, text)),
        call_requires(crypto::decrypt, (key, nonce, text)),
        call_requires(crypto::encrypt_into, (key, nonce, text, out)),
        call_requires(crypto::decrypt_into, (key, nonce, text, out)),
        call_requires(crypto::diffie_hellman, (key, key)),
{
}

/// Text whose chunks together fit in memory is tagged and checked.
pub proof fn hmac_takes_what_fits_in_memory(
    key: &[u8; 32],
    data: &[&[u8]],
    expected: &[u8; 32],
)
    requires
        bytes::concat(data@).len() <= usize::MAX,
        bytes::concat(data@).len() <= 0x1fff_ffff_ffff_ff00,
    ensures
        call_requires(crypto::hmac_sha256, (key, data)),
        call_requires(crypto::hmac_verify, (key, data, expected)),
{
}

/// Shares that together fit in memory are combined.
pub proof fn shares_that_fit_in_memory_are_combined(given: &[&[u8; 32]])
    requires
        32 * given@.len() <= usize::MAX,
    ensures
        call_requires(shares::sort_and_concat, (given,)),
{
}

/// Key pairs are made of any bytes and pin any peer.
pub proof fn key_pairs_take_every_input(bytes: [u8; 32], pair: &mut KeyPair, peer: &[u8; 32])
    ensures
        call_requires(KeyPair::generate, ()),
        call_requires(KeyPair::from_bytes, (bytes,)),
        call_requires(KeyPair::pin_peer, (pair, peer)),
        call_requires(KeyPair::public_key_bytes, (&*old(pair),)),
        call_requires(KeyPair::secret, (&*old(pair),)),
        call_requires(KeyPair::ss, (&*old(pair),)),
{
}

/// Cipher states encrypt and decrypt any text under any counter.
pub proof fn cipher_states_take_every_input(
    key: &[u8; 32],
    state: &mut CipherState,
    n: u64,
    text: &[u8],
    out: &mut [u8],
)
    ensures
        call_requires(CipherState::new, (key,)),
        call_requires(CipherState::empty, ()),
        call_requires(CipherState::nonce, (&*old(state),)),
        call_requires(CipherState::confidentiality_limit, ()),
        call_requires(CipherState::integrity_limit, ()),
        call_requires(CipherState::encrypt, (state, text)),
        call_requires(CipherState::decrypt, (state, text)),
        call_requires(CipherState::encrypt_into, (state, text, out)),
        call_requires(CipherState::decrypt_into, (state, text, out)),
        call_requires(CipherState::rekey, (state,)),
        call_requires(CipherState::rekey_manually, (state, key)),
        call_requires(CipherState::encrypt_with_nonce, (&*old(state), n, text)),
        call_requires(CipherState::decrypt_with_nonce, (&*old(state), n, text)),
        call_requires(CipherState::encrypt_into_with_nonce, (&*old(state), n, text, out)),
        call_requires(CipherState::decrypt_into_with_nonce, (&*old(state), n, text, out)),
{
}

/// The replay window judges any counter, and marks any but the reserved one.
pub proof fn replay_windows_take_every_counter(validator: &mut ReplayValidator, counter: u64)
    ensures
        call_requires(ReplayValidator::new, ()),
        call_requires(ReplayValidator::will_accept, (&*old(validator), counter)),
        counter < 0xffff_ffff_ffff_ffff ==> call_requires(
            ReplayValidator::mark_did_receive,
            (validator, counter),
        ),
{
}

/// Receivers take any packet under any counter.
pub proof fn receivers_take_every_packet(
    state: CipherState,
    receiver: &mut ReceiveState,
    n: u64,
    text: &[u8],
    out: &mut [u8],
)
    ensures
        call_requires(ReceiveState::new, (state,)),
        call_requires(ReceiveState::auth_failures, (&*old(receiver),)),
        call_requires(ReceiveState::recv, (receiver, text)),
        call_requires(ReceiveState::recv_into, (receiver, text, out)),
        call_requires(ReceiveState::recv_with_nonce, (receiver, n, text)),
        call_requires(ReceiveState::recv_into_with_nonce, (receiver, n, text, out)),
        call_requires(ReceiveState::rekey, (receiver,)),
{
}

/// Transports send and take any packet under any counter.
pub proof fn transports_take_every_packet(
    states: CipherStates,
    whole: TransportState,
    transport: &mut TransportState,
    n: u64,
    text: &[u8],
    out: &mut [u8],
)
    ensures
        call_requires(TransportState::new, (states,)),
        call_requires(TransportState::into_halves, (whole,)),
        call_requires(TransportState::confidentiality_limit, ()),
        call_requires(TransportState::integrity_limit, ()),
        call_requires(TransportState::auth_failures, (&*old(transport),)),
        call_requires(TransportState::send, (transport, text)),
        call_requires(TransportState::recv, (transport, text)),
        call_requires(TransportState::send_into, (transport, text, out)),
        call_requires(TransportState::recv_into, (transport, text, out)),
        call_requires(TransportState::rekey_send, (transport,)),
        call_requires(TransportState::rekey_recv, (transport,)),
        call_requires(TransportState::send_with_nonce, (&*old(transport), n, text)),
        call_requires(TransportState::send_into_with_nonce, (&*old(transport), n, text, out)),
        call_requires(TransportState::recv_with_nonce, (transport, n, text)),
        call_requires(TransportState::recv_into_with_nonce, (transport, n, text, out)),
{
}

/// Handshakes take any message, at any time and in any state.
pub proof fn handshakes_take_every_message(
    whole: Handshake,
    hs: &mut Handshake,
    state: &HandshakeState,
    raw: &[u8],
    now: u64,
    token_time: u64,
    buf: &mut [u8],
)
    ensures
        call_requires(HandshakeState::is_completed, (state,)),
        call_requires(Handshake::handle_message_at, (hs, raw, now, token_time)),
        call_requires(Handshake::handle_message, (hs, raw)),
        call_requires(Handshake::state, (&*old(hs),)),
        call_requires(Handshake::identity, (&*old(hs),)),
        call_requires(Handshake::send_hello_at, (&*old(hs), now)),
        call_requires(Handshake::send_hello, (hs,)),
        call_requires(Handshake::send_hello_into_at, (&*old(hs), now, buf)),
        call_requires(Handshake::send_hello_into, (hs, buf)),
        call_requires(Handshake::into_transport, (whole,)),
{
}

/// Builders take any identity, peer, prologue and ephemeral key.
pub proof fn builders_take_every_input(
    builder: HandshakeBuilder,
    identity: KeyPair,
    peer: [u8; 32],
    data: &[u8],
)
    ensures
        call_requires(HandshakeBuilder::initiator, (identity, peer)),
        call_requires(HandshakeBuilder::responder, (identity,)),
        call_requires(HandshakeBuilder::prologue, (builder, data)),
        call_requires(HandshakeBuilder::build_with_ephemeral, (builder, identity)),
        call_requires(HandshakeBuilder::build, (builder,)),
{
}

/// Any message is written, and any bytes are read.
pub proof fn messages_and_bytes_are_taken(msg: &FengniMessage, raw: &[u8], buf: &mut [u8])
    ensures
        call_requires(FengniMessage::encoded_len, (msg,)),
        call_requires(wire::encode, (msg,)),
        call_requires(wire::encode_into, (msg, buf)),
        call_requires(wire::decode, (raw,)),
{
}

/// An error keeps its cause where it becomes a more general one.
pub proof fn errors_keep_their_cause(
    crypto_error: CryptoError,
    handshake_error: HandshakeError,
    wire_error: WireError,
    encode_error: EncodeError,
    decode_error: DecodeError,
    general: (FengniError, FengniError, FengniError, FengniError, FengniError),
    wire: (WireError, WireError),
)
    requires
        call_ensures(<FengniError as From<CryptoError>>::from, (crypto_error,), general.0),
        call_ensures(<FengniError as From<HandshakeError>>::from, (handshake_error,), general.1),
        call_ensures(<FengniError as From<WireError>>::from, (wire_error,), general.2),
        call_ensures(<FengniError as From<EncodeError>>::from, (encode_error,), general.3),
        call_ensures(<FengniError as From<DecodeError>>::from, (decode_error,), general.4),
        call_ensures(<WireError as From<EncodeError>>::from, (encode_error,), wire.0),
        call_ensures(<WireError as From<DecodeError>>::from, (decode_error,), wire.1),
    ensures
        general.0 == FengniError::Crypto(crypto_error),
        general.1 == FengniError::Handshake(handshake_error),
        general.2 == FengniError::Wire(wire_error),
        general.3 == FengniError::Wire(WireError::Encode(encode_error)),
        general.4 == FengniError::Wire(WireError::Decode(decode_error)),
        wire.0 == WireError::Encode(encode_error),
        wire.1 == WireError::Decode(decode_error),
{
}

/// The sizes and limits of the protocol.
pub proof fn sizes_and_limits()
    ensures
        crypto::TAG_LEN == 16,
        crypto::NONCE_LEN == 12,
        crypto::SYMMETRIC_KEY_LEN == 32,
        crypto::HMAC_TAG_LEN == 32,
        crypto::CONFIDENTIALITY_LIMIT == 0xffff_ffff_ffff_ffff,
        crypto::INTEGRITY_LIMIT == 0x10_0000_0000,
        keys::PUBLIC_KEY_LEN == 32,
        model::CLOCK_SKEW_SECS == 60,
        replay::REPLAY_WORD_SIZE == 64,
        replay::REPLAY_N_WORDS == 16,
        replay::REPLAY_N_BITS == 1024,
        protobuf::NESTING_LIMIT == 100,
{
}

} // verus!
