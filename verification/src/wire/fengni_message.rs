//! Nested types for the oneof discriminator.

use super::{Authenticate, DataPacket, Hello, HelloReply, ServerFinish};
use vstd::prelude::*;

verus! {

/// The message that a [`FengniMessage`](super::FengniMessage) carries.
#[derive(Clone, Debug, PartialEq)]
pub enum Variant {
    Hello(Hello),
    HelloReply(HelloReply),
    Authenticate(Authenticate),
    ServerFinish(ServerFinish),
    DataPacket(DataPacket),
}

/// A [`Variant`] with its byte strings as sequences.
#[verifier::ext_equal]
pub enum VariantView {
    Hello { ephemeral_public: Seq<u8>, timestamp: u64 },
    HelloReply { ephemeral_public: Seq<u8>, session_token: Seq<u8> },
    Authenticate { identity_public: Seq<u8>, proof: Seq<u8> },
    ServerFinish { payload: Seq<u8> },
    DataPacket { sequence: u64, ciphertext: Seq<u8> },
}

impl View for Variant {
    type V = VariantView;

    open spec fn view(&self) -> VariantView {
        match *self {
            Variant::Hello(m) => VariantView::Hello {
                ephemeral_public: m.ephemeral_public@,
                timestamp: m.timestamp,
            },
            Variant::HelloReply(m) => VariantView::HelloReply {
                ephemeral_public: m.ephemeral_public@,
                session_token: m.session_token@,
            },
            Variant::Authenticate(m) => VariantView::Authenticate {
                identity_public: m.identity_public@,
                proof: m.proof@,
            },
            Variant::ServerFinish(m) => VariantView::ServerFinish { payload: m.payload@ },
            Variant::DataPacket(m) => VariantView::DataPacket {
                sequence: m.sequence,
                ciphertext: m.ciphertext@,
            },
        }
    }
}

} // verus!
