//! X25519 key pairs.

use crate::primitives;
use vstd::prelude::*;

verus! {

/// Size of an X25519 public key in bytes.
pub const PUBLIC_KEY_LEN: usize = 32;

/// An X25519 key pair used for identity or ephemeral keys.
///
/// For identity keys, the static-static DH shared secret (`ss`)
/// is precomputed at construction time against a known peer,
/// providing KCI resistance at zero per-handshake cost.
pub struct KeyPair {
    secret: [u8; PUBLIC_KEY_LEN],
    public: [u8; PUBLIC_KEY_LEN],
    /// Precomputed `DH(our_static, peer_static)` if peer is known.
    ss: Option<[u8; PUBLIC_KEY_LEN]>,
}

/// A [`KeyPair`] with its byte arrays as sequences.
pub struct KeyPairView {
    pub secret: Seq<u8>,
    pub public: Seq<u8>,
    pub ss: Option<Seq<u8>>,
}

impl KeyPairView {
    /// The public key belongs to the secret, and whoever combines another
    /// secret with it gets what the holder of this secret gets from the other
    /// public key. Every key pair of this library is of this kind.
    pub open spec fn wf(self) -> bool {
        &&& self.secret.len() == PUBLIC_KEY_LEN
        &&& self.public.len() == PUBLIC_KEY_LEN
        &&& self.public == primitives::x25519_public(self.secret)@
        &&& forall|other: Seq<u8>|
            other.len() == PUBLIC_KEY_LEN ==> #[trigger] primitives::x25519_shared(
                other,
                self.public,
            ) == primitives::x25519_shared(self.secret, primitives::x25519_public(other)@)
    }

    /// The shared secret of this key pair and a peer's public key.
    pub open spec fn shared_with(self, peer_public: Seq<u8>) -> Seq<u8> {
        primitives::x25519_shared(self.secret, peer_public)@
    }

    /// The key pair with the static-static term for a peer in place.
    pub open spec fn pinned_to(self, peer_public: Seq<u8>) -> KeyPairView {
        KeyPairView { ss: Some(self.shared_with(peer_public)), ..self }
    }
}

impl View for KeyPair {
    type V = KeyPairView;

    closed spec fn view(&self) -> KeyPairView {
        KeyPairView {
            secret: self.secret@,
            public: self.public@,
            ss: match self.ss {
                Some(ss) => Some(ss@),
                None => None,
            },
        }
    }
}

impl Clone for KeyPair {
    fn clone(&self) -> (r: Self)
        ensures
            r@ == self@,
    {
        proof {
            use_type_invariant(self);
        }
        KeyPair { secret: self.secret, public: self.public, ss: self.ss }
    }
}

impl KeyPair {
    /// Holds of every key pair.
    #[verifier::type_invariant]
    pub open spec fn belongs_together(self) -> bool {
        self@.wf()
    }

    /// Generate a new random key pair with no peer pinned.
    pub fn generate() -> (r: Self)
        ensures
            r@.wf(),
            r@.ss is None,
            primitives::drawn_at_random(r@.secret),
    {
        Self::from_bytes(primitives::random_bytes())
    }

    /// Create a key pair from an existing 32-byte private key.
    pub fn from_bytes(bytes: [u8; PUBLIC_KEY_LEN]) -> (r: Self)
        ensures
            r@ == (KeyPairView {
                secret: bytes@,
                public: primitives::x25519_public(bytes@)@,
                ss: None,
            }),
            r@.wf(),
    {
        let public = primitives::public_key(&bytes);
        Self { secret: bytes, public, ss: None }
    }

    /// Compute the static-static DH precomputation against a known peer.
    ///
    /// Call this once when the peer's identity key is known.
    pub fn pin_peer(&mut self, peer_static_public: &[u8; PUBLIC_KEY_LEN])
        ensures
            final(self)@ == old(self)@.pinned_to(peer_static_public@),
    {
        proof {
            use_type_invariant(&*self);
        }
        let ss = primitives::shared_secret(&self.secret, peer_static_public);
        self.ss = Some(ss);
    }

    /// Returns the public key as 32 bytes.
    pub fn public_key_bytes(&self) -> (r: [u8; PUBLIC_KEY_LEN])
        ensures
            r@ == self@.public,
    {
        self.public
    }

    /// Returns the 32 bytes of the X25519 secret.
    pub fn secret(&self) -> (r: &[u8; PUBLIC_KEY_LEN])
        ensures
            r@ == self@.secret,
    {
        &self.secret
    }

    /// Returns the precomputed static-static shared secret, if a peer is pinned.
    pub fn ss(&self) -> (r: Option<[u8; PUBLIC_KEY_LEN]>)
        ensures
            match r {
                Some(ss) => self@.ss == Some(ss@),
                None => self@.ss is None,
            },
    {
        self.ss
    }
}

} // verus!
