//! Wire format definitions for the Fengni protocol.
//!
//! All protocol messages are serialized using Protocol Buffers (proto3).

pub mod fengni_message;

use crate::bytes;
use crate::error::{DecodeError, EncodeError};
use crate::protobuf::{self, Field, FieldRef, FieldView, NESTING_LIMIT};
use fengni_message::{Variant, VariantView};
use vstd::prelude::*;

verus! {

/// Hello message sent by the initiator to start a handshake.
///
/// Contains the initiator's ephemeral public key and the current timestamp
/// for replay protection.
#[derive(Clone, Debug, PartialEq, Default)]
pub struct Hello {
    /// Ephemeral X25519 public key (32 bytes), field 1.
    pub ephemeral_public: Vec<u8>,
    /// Unix timestamp in seconds, field 2.
    pub timestamp: u64,
}

/// HelloReply message sent by the responder in response to Hello.
///
/// Contains the responder's ephemeral public key and encrypted session
/// identifier for stateful session tracking.
#[derive(Clone, Debug, PartialEq, Default)]
pub struct HelloReply {
    /// Responder's ephemeral X25519 public key (32 bytes), field 1.
    pub ephemeral_public: Vec<u8>,
    /// Encrypted session token, field 2.
    pub session_token: Vec<u8>,
}

/// Authentication message sent by the initiator after receiving HelloReply.
///
/// Proves the initiator's identity to the responder.
#[derive(Clone, Debug, PartialEq, Default)]
pub struct Authenticate {
    /// Initiator's long-term X25519 public key, encrypted, field 1.
    pub identity_public: Vec<u8>,
    /// MAC proving possession of the identity private key, field 2.
    pub proof: Vec<u8>,
}

/// Wraps the responder's confirmation that it derived the session keys.
#[derive(Clone, Debug, PartialEq, Default)]
pub struct ServerFinish {
    /// Session material encrypted under the confirmation key, field 1.
    pub payload: Vec<u8>,
}

/// An encrypted data packet sent after the handshake completes.
#[derive(Clone, Debug, PartialEq, Default)]
pub struct DataPacket {
    /// Sequence number for replay protection and ordering, field 1.
    pub sequence: u64,
    /// Encrypted payload, field 2.
    pub ciphertext: Vec<u8>,
}

/// Top-level message wrapper. All Fengni protocol messages are
/// encoded as a FengniMessage.
#[derive(Clone, Debug, PartialEq, Default)]
pub struct FengniMessage {
    /// Variant discriminator, fields 1 to 5.
    pub variant: Option<Variant>,
}

impl View for FengniMessage {
    type V = Option<VariantView>;

    open spec fn view(&self) -> Option<VariantView> {
        match self.variant {
            Some(v) => Some(v@),
            None => None,
        }
    }
}

// --- Model ---

impl VariantView {
    /// The field of the wrapper that carries the message.
    pub open spec fn tag(self) -> nat {
        match self {
            VariantView::Hello { .. } => 1,
            VariantView::HelloReply { .. } => 2,
            VariantView::Authenticate { .. } => 3,
            VariantView::ServerFinish { .. } => 4,
            VariantView::DataPacket { .. } => 5,
        }
    }

    /// The fields of the message, in the order of their tags.
    pub open spec fn fields(self) -> Seq<FieldView> {
        match self {
            VariantView::Hello { ephemeral_public, timestamp } => seq![
                FieldView::Bytes(ephemeral_public),
                FieldView::Uint64(timestamp),
            ],
            VariantView::HelloReply { ephemeral_public, session_token } => seq![
                FieldView::Bytes(ephemeral_public),
                FieldView::Bytes(session_token),
            ],
            VariantView::Authenticate { identity_public, proof } => seq![
                FieldView::Bytes(identity_public),
                FieldView::Bytes(proof),
            ],
            VariantView::ServerFinish { payload } => seq![FieldView::Bytes(payload)],
            VariantView::DataPacket { sequence, ciphertext } => seq![
                FieldView::Uint64(sequence),
                FieldView::Bytes(ciphertext),
            ],
        }
    }
}

/// The fields of an empty message with the given tag.
pub open spec fn empty_fields(tag: int) -> Seq<FieldView> {
    let no_bytes = FieldView::Bytes(Seq::empty());
    let zero = FieldView::Uint64(0);
    if tag == 1 {
        seq![no_bytes, zero]
    } else if tag == 2 || tag == 3 {
        seq![no_bytes, no_bytes]
    } else if tag == 4 {
        seq![no_bytes]
    } else {
        seq![zero, no_bytes]
    }
}

/// The message with the given tag and fields.
pub open spec fn from_fields(tag: int, fields: Seq<FieldView>) -> VariantView {
    if tag == 1 {
        VariantView::Hello {
            ephemeral_public: fields[0]->Bytes_0,
            timestamp: fields[1]->Uint64_0,
        }
    } else if tag == 2 {
        VariantView::HelloReply {
            ephemeral_public: fields[0]->Bytes_0,
            session_token: fields[1]->Bytes_0,
        }
    } else if tag == 3 {
        VariantView::Authenticate {
            identity_public: fields[0]->Bytes_0,
            proof: fields[1]->Bytes_0,
        }
    } else if tag == 4 {
        VariantView::ServerFinish { payload: fields[0]->Bytes_0 }
    } else {
        VariantView::DataPacket { sequence: fields[0]->Uint64_0, ciphertext: fields[1]->Bytes_0 }
    }
}

/// The encoding of a message.
pub open spec fn encoded(msg: Option<VariantView>) -> Seq<u8> {
    match msg {
        Some(v) => protobuf::embedded_bytes(v.tag(), v.fields()),
        None => Seq::empty(),
    }
}

/// A message that is being decoded: its tag and the fields so far.
pub type Partial = Option<(int, Seq<FieldView>)>;

/// The fields into which a message with the given tag is merged: those that
/// came before, where the message before it has the same tag.
pub open spec fn fields_before(partial: Partial, tag: int) -> Seq<FieldView> {
    match partial {
        Some((t, fields)) if t == tag => fields,
        _ => empty_fields(tag),
    }
}

/// What the bytes from `pos` on make of a partly decoded message. The last
/// message wins, and messages of the same kind in a row are merged. Each field
/// moves the position on and ends within the bytes; the test of that only shows
/// that the recursion ends.
pub open spec fn decoded_from(partial: Partial, buf: Seq<u8>, pos: int) -> Result<
    Partial,
    DecodeError,
>
    decreases buf.len() - pos,
{
    if pos >= buf.len() {
        Ok(partial)
    } else {
        match protobuf::read_key(buf, pos) {
            Err(e) => Err(e),
            Ok((tag, wire_type, start)) => if 1 <= tag <= 5 {
                match protobuf::merge_embedded(
                    fields_before(partial, tag),
                    wire_type,
                    buf,
                    start,
                    NESTING_LIMIT as nat,
                ) {
                    Err(e) => Err(e),
                    Ok((fields, end)) => if pos < end <= buf.len() {
                        decoded_from(Some((tag, fields)), buf, end)
                    } else {
                        Err(DecodeError::BufferUnderflow)
                    },
                }
            } else {
                match protobuf::skip_field(wire_type, tag, buf, start, NESTING_LIMIT as nat) {
                    Err(e) => Err(e),
                    Ok(end) => if pos < end <= buf.len() {
                        decoded_from(partial, buf, end)
                    } else {
                        Err(DecodeError::BufferUnderflow)
                    },
                }
            },
        }
    }
}

/// The message that a byte string encodes.
pub open spec fn decoded(raw: Seq<u8>) -> Result<Option<VariantView>, DecodeError> {
    match decoded_from(None, raw, 0) {
        Err(e) => Err(e),
        Ok(None) => Ok(None),
        Ok(Some((tag, fields))) => Ok(Some(from_fields(tag, fields))),
    }
}

// --- Encode / Decode ---

/// The tag and the fields of a message.
fn fields_of(variant: &Variant) -> (r: (u32, Vec<FieldRef<'_>>))
    ensures
        r.0 == variant@.tag(),
        r.1@.len() <= 2,
        protobuf::ref_views(r.1@) == variant@.fields(),
{
    let mut fields: Vec<FieldRef> = Vec::new();
    let tag: u32 = match variant {
        Variant::Hello(m) => {
            fields.push(FieldRef::Bytes(m.ephemeral_public.as_slice()));
            fields.push(FieldRef::Uint64(m.timestamp));
            1
        },
        Variant::HelloReply(m) => {
            fields.push(FieldRef::Bytes(m.ephemeral_public.as_slice()));
            fields.push(FieldRef::Bytes(m.session_token.as_slice()));
            2
        },
        Variant::Authenticate(m) => {
            fields.push(FieldRef::Bytes(m.identity_public.as_slice()));
            fields.push(FieldRef::Bytes(m.proof.as_slice()));
            3
        },
        Variant::ServerFinish(m) => {
            fields.push(FieldRef::Bytes(m.payload.as_slice()));
            4
        },
        Variant::DataPacket(m) => {
            fields.push(FieldRef::Uint64(m.sequence));
            fields.push(FieldRef::Bytes(m.ciphertext.as_slice()));
            5
        },
    };
    assert(protobuf::ref_views(fields@) =~= variant@.fields());
    (tag, fields)
}

impl FengniMessage {
    /// The length of the encoding, or `usize::MAX` where it is longer.
    pub fn encoded_len(&self) -> (len: usize)
        ensures
            len == protobuf::capped(encoded(self@).len()),
    {
        match &self.variant {
            None => 0,
            Some(variant) => {
                let (tag, fields) = fields_of(variant);
                protobuf::embedded_len(tag, fields.as_slice())
            },
        }
    }

    /// The encoding.
    fn to_bytes(&self) -> (buf: Vec<u8>)
        requires
            encoded(self@).len() <= usize::MAX,
        ensures
            buf@ == encoded(self@),
    {
        let mut buf: Vec<u8> = Vec::new();
        if let Some(variant) = &self.variant {
            let (tag, fields) = fields_of(variant);
            protobuf::put_embedded(tag, fields.as_slice(), &mut buf);
        }
        assert(buf@ =~= encoded(self@));
        buf
    }
}

/// Encode a FengniMessage to protobuf bytes.
///
/// Fails where the bytes would not fit in a vector.
pub fn encode(msg: &FengniMessage) -> (r: Result<Vec<u8>, EncodeError>)
    ensures
        match r {
            Ok(buf) => buf@ == encoded(msg@) && encoded(msg@).len() <= isize::MAX,
            Err(e) => {
                &&& encoded(msg@).len() > isize::MAX
                &&& e.required == protobuf::capped(encoded(msg@).len())
                &&& e.remaining == isize::MAX
            },
        },
{
    let required: usize = msg.encoded_len();
    let remaining: usize = isize::MAX as usize;
    if required > remaining {
        return Err(EncodeError { required, remaining });
    }
    Ok(msg.to_bytes())
}

/// Encode a FengniMessage into a caller-provided buffer.
///
/// Returns the number of bytes written. Fails, and leaves the buffer as it is,
/// where the message does not fit. (No buffer has more than `isize::MAX` bytes.)
pub fn encode_into(msg: &FengniMessage, buf: &mut [u8]) -> (r: Result<usize, EncodeError>)
    ensures
        match r {
            Ok(n) => {
                &&& n == encoded(msg@).len() <= old(buf)@.len()
                &&& n <= isize::MAX
                &&& final(buf)@ == bytes::overwrite(old(buf)@, encoded(msg@))
            },
            Err(e) => {
                &&& encoded(msg@).len() > old(buf)@.len() || encoded(msg@).len() > isize::MAX
                &&& e.required == protobuf::capped(encoded(msg@).len())
                &&& e.remaining == old(buf)@.len()
                &&& final(buf)@ == old(buf)@
            },
        },
{
    let required: usize = msg.encoded_len();
    let remaining: usize = buf.len();
    if required > remaining || required > isize::MAX as usize {
        return Err(EncodeError { required, remaining });
    }
    let encoding = msg.to_bytes();
    bytes::copy_into(buf, encoding.as_slice());
    Ok(encoding.len())
}

/// The fields of an empty message with the given tag.
fn new_fields(tag: u32) -> (fields: Vec<Field>)
    requires
        1 <= tag <= 5,
    ensures
        protobuf::field_views(fields@) == empty_fields(tag as int),
{
    let mut fields: Vec<Field> = Vec::new();
    if tag == 5 {
        fields.push(Field::Uint64(0));
    }
    fields.push(Field::Bytes(Vec::new()));
    if tag == 1 {
        fields.push(Field::Uint64(0));
    }
    if tag == 2 || tag == 3 {
        fields.push(Field::Bytes(Vec::new()));
    }
    assert(protobuf::field_views(fields@) =~= empty_fields(tag as int));
    fields
}

/// The last field, which is a byte string.
fn pop_bytes(fields: &mut Vec<Field>) -> (value: Vec<u8>)
    requires
        old(fields)@.len() > 0,
        old(fields)@.last() is Bytes,
    ensures
        FieldView::Bytes(value@) == old(fields)@.last()@,
        final(fields)@ == old(fields)@.drop_last(),
{
    match fields.pop() {
        Some(Field::Bytes(value)) => value,
        _ => Vec::new(),
    }
}

/// The last field, which is an integer.
fn pop_uint64(fields: &mut Vec<Field>) -> (value: u64)
    requires
        old(fields)@.len() > 0,
        old(fields)@.last() is Uint64,
    ensures
        FieldView::Uint64(value) == old(fields)@.last()@,
        final(fields)@ == old(fields)@.drop_last(),
{
    match fields.pop() {
        Some(Field::Uint64(value)) => value,
        _ => 0,
    }
}

/// The message with the given tag and fields.
fn variant_of(tag: u32, fields: Vec<Field>) -> (variant: Variant)
    requires
        1 <= tag <= 5,
        protobuf::same_kinds(empty_fields(tag as int), protobuf::field_views(fields@)),
    ensures
        variant@ == from_fields(tag as int, protobuf::field_views(fields@)),
{
    let ghost views = protobuf::field_views(fields@);
    proof {
        let empty = empty_fields(tag as int);
        assert(empty[0].default_of() == views[0].default_of());
        if tag != 4 {
            assert(empty[1].default_of() == views[1].default_of());
        }
    }
    let mut fields = fields;
    if tag == 1 {
        let timestamp: u64 = pop_uint64(&mut fields);
        let ephemeral_public = pop_bytes(&mut fields);
        Variant::Hello(Hello { ephemeral_public, timestamp })
    } else if tag == 2 {
        let session_token = pop_bytes(&mut fields);
        let ephemeral_public = pop_bytes(&mut fields);
        Variant::HelloReply(HelloReply { ephemeral_public, session_token })
    } else if tag == 3 {
        let proof_bytes = pop_bytes(&mut fields);
        let identity_public = pop_bytes(&mut fields);
        Variant::Authenticate(Authenticate { identity_public, proof: proof_bytes })
    } else if tag == 4 {
        let payload = pop_bytes(&mut fields);
        Variant::ServerFinish(ServerFinish { payload })
    } else {
        let ciphertext = pop_bytes(&mut fields);
        let sequence: u64 = pop_uint64(&mut fields);
        Variant::DataPacket(DataPacket { sequence, ciphertext })
    }
}

/// A partly decoded message, as the model sees it.
spec fn partial_view(partial: Option<(u32, Vec<Field>)>) -> Partial {
    match partial {
        Some((tag, fields)) => Some((tag as int, protobuf::field_views(fields@))),
        None => None,
    }
}

/// A partly decoded message has the fields of its kind.
spec fn partial_wf(partial: Option<(u32, Vec<Field>)>) -> bool {
    match partial {
        Some((tag, fields)) => {
            &&& 1 <= tag <= 5
            &&& protobuf::same_kinds(empty_fields(tag as int), protobuf::field_views(fields@))
        },
        None => true,
    }
}

/// Decode a FengniMessage from protobuf bytes.
pub fn decode(raw: &[u8]) -> (r: Result<FengniMessage, DecodeError>)
    ensures
        match r {
            Ok(msg) => decoded(raw@) == Ok::<_, DecodeError>(msg@),
            Err(e) => decoded(raw@) == Err::<Option<VariantView>, _>(e),
        },
{
    let mut partial: Option<(u32, Vec<Field>)> = None;
    let mut pos: usize = 0;
    while pos < raw.len()
        invariant
            pos <= raw@.len(),
            partial_wf(partial),
            decoded_from(partial_view(partial), raw@, pos as int) == decoded_from(None, raw@, 0),
        decreases raw@.len() - pos,
    {
        let ghost before = partial_view(partial);
        let (tag, wire_type, start) = match protobuf::get_key(raw, pos) {
            Err(e) => return Err(e),
            Ok(key) => key,
        };
        if 1 <= tag && tag <= 5 {
            let mut fields = match partial {
                Some((t, f)) => if t == tag {
                    f
                } else {
                    new_fields(tag)
                },
                None => new_fields(tag),
            };
            let ghost first = protobuf::field_views(fields@);
            assert(first == fields_before(before, tag as int));
            match protobuf::take_embedded(&mut fields, wire_type, raw, start, NESTING_LIMIT) {
                Err(e) => return Err(e),
                Ok(end) => {
                    proof {
                        protobuf::lemma_merge_embedded_kinds(
                            first,
                            wire_type as int,
                            raw@,
                            start as int,
                            NESTING_LIMIT as nat,
                        );
                        lemma_kinds_chain(
                            empty_fields(tag as int),
                            first,
                            protobuf::field_views(fields@),
                        );
                    }
                    partial = Some((tag, fields));
                    pos = end;
                },
            }
        } else {
            match protobuf::pass_field(wire_type, tag, raw, start, NESTING_LIMIT) {
                Err(e) => return Err(e),
                Ok(end) => {
                    pos = end;
                },
            }
        }
    }
    match partial {
        None => Ok(FengniMessage { variant: None }),
        Some((tag, fields)) => Ok(FengniMessage { variant: Some(variant_of(tag, fields)) }),
    }
}

/// Having fields of the same kinds is transitive.
proof fn lemma_kinds_chain(a: Seq<FieldView>, b: Seq<FieldView>, c: Seq<FieldView>)
    requires
        protobuf::same_kinds(a, b),
        protobuf::same_kinds(b, c),
    ensures
        protobuf::same_kinds(a, c),
{
    assert forall|i: int| 0 <= i < a.len() implies (#[trigger] a[i]).default_of() == (
    #[trigger] c[i]).default_of() by {
        assert(a[i].default_of() == b[i].default_of());
    }
}

/// A message whose byte strings are short has a short encoding.
pub proof fn lemma_short_encoding(v: VariantView)
    requires
        forall|i: int|
            0 <= i < v.fields().len() ==> (#[trigger] v.fields()[i] matches FieldView::Bytes(b)
                ==> b.len() <= 1000),
    ensures
        encoded(Some(v)).len() <= 3000,
{
    let fields = v.fields();
    assert forall|i: int| 0 <= i < fields.len() implies protobuf::field_bytes(
        (i + 1) as nat,
        #[trigger] fields[i],
    ).len() <= 1020 by {
        protobuf::lemma_varint_len(((i + 1) * 8 + 2) as nat);
        protobuf::lemma_varint_len(((i + 1) * 8) as nat);
        match fields[i] {
            FieldView::Bytes(b) => protobuf::lemma_varint_len(b.len()),
            FieldView::Uint64(n) => protobuf::lemma_varint_len(n as nat),
        }
    }
    reveal_with_fuel(protobuf::fields_bytes_from, 3);
    let inner = protobuf::fields_bytes(fields);
    assert(inner.len() <= 2040) by {
        assert(protobuf::field_bytes(1, fields[0]).len() <= 1020);
        if fields.len() == 2 {
            assert(protobuf::field_bytes(2, fields[1]).len() <= 1020);
        }
    }
    protobuf::lemma_varint_len(v.tag() * 8 + 2);
    protobuf::lemma_varint_len(inner.len());
}

// --- Laws ---

/// What `encode` returns for a message, `decode` takes back to that message.
pub proof fn decode_inverts_encode(msg: Option<VariantView>)
    requires
        encoded(msg).len() <= usize::MAX,
    ensures
        decoded(encoded(msg)) == Ok::<_, DecodeError>(msg),
{
    if let Some(v) = msg {
        let raw = encoded(msg);
        assert(raw.subrange(0, raw.len() as int) =~= raw);
        protobuf::lemma_merge_embedded(v.tag(), v.fields(), raw, 0, NESTING_LIMIT as nat);
        assert(protobuf::taken_below(v.fields(), 0) =~= empty_fields(v.tag() as int));
        assert(decoded_from(None, raw, 0) == decoded_from(
            Some((v.tag() as int, v.fields())),
            raw,
            raw.len() as int,
        ));
        assert(from_fields(v.tag() as int, v.fields()) == v);
    }
}

/// Two messages with the same encoding are the same message.
pub proof fn encode_is_injective(a: Option<VariantView>, b: Option<VariantView>)
    requires
        encoded(a).len() <= usize::MAX,
        encoded(a) == encoded(b),
    ensures
        a == b,
{
    decode_inverts_encode(a);
    decode_inverts_encode(b);
}

} // verus!
