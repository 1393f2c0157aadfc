//! The wire format, by itself and against the Protocol Buffers crate.

use fengni::error::{DecodeError, EncodeError};
use fengni::wire::fengni_message::Variant;
use fengni::wire::{
    decode, encode, encode_into, Authenticate, DataPacket, FengniMessage, Hello, HelloReply,
    ServerFinish,
};
use prost::bytes::{Buf, BufMut};
use prost::encoding::{skip_field, DecodeContext, WireType};
use prost::Message;

fn hello(ephemeral_public: &[u8], timestamp: u64) -> FengniMessage {
    FengniMessage {
        variant: Some(Variant::Hello(Hello {
            ephemeral_public: ephemeral_public.to_vec(),
            timestamp,
        })),
    }
}

fn data(sequence: u64, ciphertext: &[u8]) -> FengniMessage {
    FengniMessage {
        variant: Some(Variant::DataPacket(DataPacket {
            sequence,
            ciphertext: ciphertext.to_vec(),
        })),
    }
}

fn samples() -> Vec<FengniMessage> {
    let mut all = vec![FengniMessage { variant: None }, FengniMessage::default()];
    for len in [0usize, 1, 32, 127, 128, 300, 20_000] {
        let b = vec![0xA5u8; len];
        for n in [0u64, 1, 127, 128, 300, 16_383, 16_384, 1 << 35, u64::MAX] {
            all.push(hello(&b, n));
            all.push(data(n, &b));
        }
        for other in [0usize, 48, 200] {
            let c = vec![0x5Au8; other];
            all.push(FengniMessage {
                variant: Some(Variant::HelloReply(HelloReply {
                    ephemeral_public: b.clone(),
                    session_token: c.clone(),
                })),
            });
            all.push(FengniMessage {
                variant: Some(Variant::Authenticate(Authenticate {
                    identity_public: c,
                    proof: b.clone(),
                })),
            });
        }
        all.push(FengniMessage {
            variant: Some(Variant::ServerFinish(ServerFinish { payload: b })),
        });
    }
    all
}

#[test]
fn encodings_have_exact_bytes() {
    assert_eq!(encode(&FengniMessage { variant: None }).unwrap(), Vec::<u8>::new());
    assert_eq!(encode(&hello(b"", 0)).unwrap(), vec![0x0a, 0x00]);
    assert_eq!(
        encode(&hello(b"\x01\x02", 300)).unwrap(),
        vec![0x0a, 0x07, 0x0a, 0x02, 0x01, 0x02, 0x10, 0xac, 0x02]
    );
    assert_eq!(
        encode(&data(u64::MAX, b"")).unwrap(),
        vec![
            0x2a, 0x0b, 0x08, 0xff, 0xff, 0xff, 0xff, 0xff, 0xff, 0xff, 0xff, 0xff, 0x01
        ]
    );
    let reply = FengniMessage {
        variant: Some(Variant::HelloReply(HelloReply {
            ephemeral_public: vec![7],
            session_token: vec![8, 9],
        })),
    };
    assert_eq!(encode(&reply).unwrap(), vec![0x12, 7, 0x0a, 1, 7, 0x12, 2, 8, 9]);
    let auth = FengniMessage {
        variant: Some(Variant::Authenticate(Authenticate {
            identity_public: vec![],
            proof: vec![1],
        })),
    };
    assert_eq!(encode(&auth).unwrap(), vec![0x1a, 3, 0x12, 1, 1]);
    let finish = FengniMessage {
        variant: Some(Variant::ServerFinish(ServerFinish { payload: vec![4] })),
    };
    assert_eq!(encode(&finish).unwrap(), vec![0x22, 3, 0x0a, 1, 4]);
}

#[test]
fn decode_takes_back_what_encode_wrote() {
    let mut encodings: Vec<Vec<u8>> = Vec::new();
    for msg in samples() {
        let raw = encode(&msg).unwrap();
        assert_eq!(raw.len(), msg.encoded_len());
        assert_eq!(decode(&raw).unwrap(), msg);
        assert_eq!(msg.clone(), msg);
        encodings.push(raw);
    }
    // Only the two empty messages, and equal samples, share an encoding.
    let messages = samples();
    for i in 0..messages.len() {
        for j in 0..i {
            assert_eq!(messages[i] == messages[j], encodings[i] == encodings[j]);
        }
    }
}

#[test]
fn encode_into_writes_a_prefix() {
    let msg = hello(b"\x01\x02", 300);
    let raw = encode(&msg).unwrap();
    for extra in 0..4 {
        let mut buf = vec![0x99u8; raw.len() + extra];
        assert_eq!(encode_into(&msg, &mut buf), Ok(raw.len()));
        assert_eq!(&buf[..raw.len()], &raw[..]);
        assert!(buf[raw.len()..].iter().all(|b| *b == 0x99));
    }
    for len in 0..raw.len() {
        let mut buf = vec![0x99u8; len];
        assert_eq!(
            encode_into(&msg, &mut buf),
            Err(EncodeError { required: raw.len(), remaining: len })
        );
        assert_eq!(buf, vec![0x99u8; len]);
    }
}

#[test]
fn each_decode_error_has_an_input() {
    for (raw, e) in [
        (vec![0x80], DecodeError::InvalidVarint),
        (vec![0x0a], DecodeError::InvalidVarint),
        (vec![0xff; 11], DecodeError::InvalidVarint),
        (
            vec![0xff, 0xff, 0xff, 0xff, 0xff, 0xff, 0xff, 0xff, 0xff, 0x02],
            DecodeError::InvalidVarint,
        ),
        (vec![0x80, 0x80, 0x80, 0x80, 0x10], DecodeError::InvalidKey),
        (vec![0x0e], DecodeError::InvalidWireType),
        (vec![0x0f], DecodeError::InvalidWireType),
        (vec![0x02], DecodeError::InvalidTag),
        (vec![0x08, 0x01], DecodeError::WireTypeMismatch),
        (vec![0x0a, 0x02, 0x08, 0x01], DecodeError::WireTypeMismatch),
        (vec![0x0a, 0x02, 0x12, 0x00], DecodeError::WireTypeMismatch),
        (vec![0x0a, 0x05, 0x0a], DecodeError::BufferUnderflow),
        (vec![0x0a, 0x03, 0x0a, 0x04, 0x00], DecodeError::BufferUnderflow),
        (vec![0x35, 1, 2, 3], DecodeError::BufferUnderflow),
        (vec![0x31, 1, 2, 3, 4, 5, 6, 7], DecodeError::BufferUnderflow),
        (vec![0x32, 2, 0], DecodeError::BufferUnderflow),
        (
            vec![0x0a, 0x02, 0x0a, 0x02, 0x01, 0x01],
            DecodeError::DelimitedLengthExceeded,
        ),
        (vec![0x34], DecodeError::UnexpectedEndGroup),
        (vec![0x33, 0x3c], DecodeError::UnexpectedEndGroup),
    ] {
        assert_eq!(decode(&raw), Err(e), "{:?}", raw);
    }
}

#[test]
fn unknown_fields_are_skipped() {
    // A varint, 8 bytes, 4 bytes, a string and a group, around a Hello.
    let mut raw = vec![0x30, 0x96, 0x01];
    raw.extend([0x39, 1, 2, 3, 4, 5, 6, 7, 8]);
    raw.extend([0x45, 1, 2, 3, 4]);
    raw.extend([0x4a, 3, 9, 9, 9]);
    raw.extend([0x53, 0x08, 0x05, 0x5b, 0x5c, 0x54]);
    // Inside the Hello, a field that it does not have.
    raw.extend([0x0a, 0x07, 0x0a, 0x01, 0x07, 0x18, 0x01, 0x10, 0x05]);
    raw.extend([0x30, 0x01]);
    assert_eq!(decode(&raw), Ok(hello(&[7], 5)));
}

#[test]
fn later_fields_win_and_messages_merge() {
    // The same field twice: the last value counts.
    assert_eq!(decode(&[0x0a, 0x04, 0x10, 1, 0x10, 2]), Ok(hello(b"", 2)));
    // Two Hellos are merged; the key comes from the first.
    assert_eq!(
        decode(&[0x0a, 0x03, 0x0a, 1, 7, 0x0a, 0x02, 0x10, 9]),
        Ok(hello(&[7], 9))
    );
    // A message of another kind replaces what came before.
    assert_eq!(
        decode(&[0x0a, 0x03, 0x0a, 1, 7, 0x2a, 0x02, 0x08, 3]),
        Ok(data(3, b""))
    );
    assert_eq!(
        decode(&[0x0a, 0x03, 0x0a, 1, 7, 0x2a, 0x00, 0x0a, 0x02, 0x10, 9]),
        Ok(hello(b"", 9))
    );
    // A field that is present may hold its default value.
    assert_eq!(decode(&[0x0a, 0x04, 0x0a, 0x00, 0x10, 0x00]), Ok(hello(b"", 0)));
}

#[test]
fn nesting_has_a_limit() {
    let nested = |n: usize| [vec![0x33u8; n], vec![0x34u8; n]].concat();
    assert_eq!(decode(&nested(100)), Ok(FengniMessage { variant: None }));
    assert_eq!(decode(&nested(101)), Err(DecodeError::RecursionLimit));
    let inside = |n: usize| {
        let body = nested(n);
        let mut raw = vec![0x0a];
        raw.extend([(body.len() % 128 + 128) as u8, (body.len() / 128) as u8]);
        raw.extend(body);
        raw
    };
    assert_eq!(decode(&inside(99)), Ok(hello(b"", 0)));
    assert_eq!(decode(&inside(100)), Err(DecodeError::RecursionLimit));
}

// --- Against the Protocol Buffers crate ---

/// A message whose fields are described by a list: `b` for bytes, `n` for an
/// unsigned integer.
#[derive(Debug, Clone, PartialEq)]
struct Described {
    kinds: &'static str,
    bytes: Vec<Vec<u8>>,
    numbers: Vec<u64>,
}

impl Described {
    fn new(tag: u32) -> Self {
        let kinds = ["bn", "bb", "bb", "b", "nb"][tag as usize - 1];
        Described { kinds, bytes: vec![vec![]; 2], numbers: vec![0; 2] }
    }

    fn kind(&self, tag: u32) -> Option<u8> {
        self.kinds.as_bytes().get(tag as usize - 1).copied()
    }
}

impl Message for Described {
    fn encode_raw(&self, buf: &mut impl BufMut) {
        for i in 0..self.kinds.len() {
            if self.kinds.as_bytes()[i] == b'b' {
                if !self.bytes[i].is_empty() {
                    prost::encoding::bytes::encode(i as u32 + 1, &self.bytes[i], buf);
                }
            } else if self.numbers[i] != 0 {
                prost::encoding::uint64::encode(i as u32 + 1, &self.numbers[i], buf);
            }
        }
    }

    fn merge_field(
        &mut self,
        tag: u32,
        wire_type: WireType,
        buf: &mut impl Buf,
        ctx: DecodeContext,
    ) -> Result<(), prost::DecodeError> {
        let i = tag as usize - 1;
        match self.kind(tag) {
            Some(b'b') => prost::encoding::bytes::merge(wire_type, &mut self.bytes[i], buf, ctx),
            Some(_) => prost::encoding::uint64::merge(wire_type, &mut self.numbers[i], buf, ctx),
            None => skip_field(wire_type, tag, buf, ctx),
        }
    }

    fn encoded_len(&self) -> usize {
        let mut len = 0;
        for i in 0..self.kinds.len() {
            if self.kinds.as_bytes()[i] == b'b' {
                if !self.bytes[i].is_empty() {
                    len += prost::encoding::bytes::encoded_len(i as u32 + 1, &self.bytes[i]);
                }
            } else if self.numbers[i] != 0 {
                len += prost::encoding::uint64::encoded_len(i as u32 + 1, &self.numbers[i]);
            }
        }
        len
    }

    fn clear(&mut self) {
        self.bytes = vec![vec![]; 2];
        self.numbers = vec![0; 2];
    }
}

/// The wrapper with its five alternatives.
#[derive(Debug, Clone, Default, PartialEq)]
struct Wrapper {
    current: Option<(u32, Described)>,
}

impl Message for Wrapper {
    fn encode_raw(&self, buf: &mut impl BufMut) {
        if let Some((tag, m)) = &self.current {
            prost::encoding::message::encode(*tag, m, buf);
        }
    }

    fn merge_field(
        &mut self,
        tag: u32,
        wire_type: WireType,
        buf: &mut impl Buf,
        ctx: DecodeContext,
    ) -> Result<(), prost::DecodeError> {
        if tag > 5 {
            return skip_field(wire_type, tag, buf, ctx);
        }
        match &mut self.current {
            Some((t, m)) if *t == tag => prost::encoding::message::merge(wire_type, m, buf, ctx),
            _ => {
                let mut m = Described::new(tag);
                prost::encoding::message::merge(wire_type, &mut m, buf, ctx)?;
                self.current = Some((tag, m));
                Ok(())
            }
        }
    }

    fn encoded_len(&self) -> usize {
        match &self.current {
            Some((tag, m)) => prost::encoding::message::encoded_len(*tag, m),
            None => 0,
        }
    }

    fn clear(&mut self) {
        self.current = None;
    }
}

fn described(msg: &FengniMessage) -> Wrapper {
    let (tag, fields, numbers) = match &msg.variant {
        None => return Wrapper { current: None },
        Some(Variant::Hello(m)) => (1, vec![m.ephemeral_public.clone(), vec![]], vec![0, m.timestamp]),
        Some(Variant::HelloReply(m)) => {
            (2, vec![m.ephemeral_public.clone(), m.session_token.clone()], vec![0, 0])
        }
        Some(Variant::Authenticate(m)) => {
            (3, vec![m.identity_public.clone(), m.proof.clone()], vec![0, 0])
        }
        Some(Variant::ServerFinish(m)) => (4, vec![m.payload.clone(), vec![]], vec![0, 0]),
        Some(Variant::DataPacket(m)) => (5, vec![vec![], m.ciphertext.clone()], vec![m.sequence, 0]),
    };
    let mut d = Described::new(tag);
    d.bytes = fields;
    d.numbers = numbers;
    Wrapper { current: Some((tag, d)) }
}

fn kind_of(e: &prost::DecodeError) -> DecodeError {
    let text = format!("{}", e);
    for (part, kind) in [
        ("invalid varint", DecodeError::InvalidVarint),
        ("invalid key value", DecodeError::InvalidKey),
        ("invalid wire type value", DecodeError::InvalidWireType),
        ("invalid tag value", DecodeError::InvalidTag),
        ("invalid wire type:", DecodeError::WireTypeMismatch),
        ("buffer underflow", DecodeError::BufferUnderflow),
        ("delimited length exceeded", DecodeError::DelimitedLengthExceeded),
        ("unexpected end group tag", DecodeError::UnexpectedEndGroup),
        ("recursion limit reached", DecodeError::RecursionLimit),
    ] {
        if text.contains(part) {
            return kind;
        }
    }
    panic!("an error of another kind: {}", text)
}

fn agree(raw: &[u8]) -> bool {
    match (decode(raw), Wrapper::decode(raw)) {
        (Ok(ours), Ok(theirs)) => {
            assert_eq!(described(&ours), theirs, "{:?}", raw);
            true
        }
        (Err(ours), Err(theirs)) => {
            assert_eq!(ours, kind_of(&theirs), "{:?}", raw);
            false
        }
        (ours, theirs) => panic!("{:?}: {:?} and {:?}", raw, ours, theirs),
    }
}

#[test]
fn encodings_agree_with_the_protobuf_crate() {
    for msg in samples() {
        let theirs = described(&msg);
        assert_eq!(encode(&msg).unwrap(), theirs.encode_to_vec());
        assert_eq!(msg.encoded_len(), theirs.encoded_len());
        assert!(agree(&theirs.encode_to_vec()));
    }
}

struct Random(u64);

impl Random {
    fn next(&mut self, n: u64) -> u64 {
        self.0 ^= self.0 << 13;
        self.0 ^= self.0 >> 7;
        self.0 ^= self.0 << 17;
        (self.0 >> 11) % n
    }
}

#[test]
fn decoding_agrees_on_arbitrary_bytes() {
    let mut r = Random(0x9E37_79B9_7F4A_7C15);
    for _ in 0..60_000 {
        let len = r.next(24);
        // Small values make keys and lengths that mean something.
        let small = r.next(3) > 0;
        let raw: Vec<u8> = (0..len)
            .map(|_| if small && r.next(5) > 0 { r.next(0x60) as u8 } else { r.next(256) as u8 })
            .collect();
        agree(&raw);
    }
}

#[test]
fn decoding_agrees_on_damaged_messages() {
    let mut r = Random(0xD1B5_4A32_D192_ED03);
    let short: Vec<Vec<u8>> = samples()
        .iter()
        .map(|m| encode(m).unwrap())
        .filter(|raw| raw.len() < 200)
        .collect();
    let (mut good, mut bad) = (0, 0);
    for _ in 0..60_000 {
        let mut raw = short[r.next(short.len() as u64) as usize].clone();
        if r.next(2) == 0 {
            raw.extend(&short[r.next(short.len() as u64) as usize]);
        }
        for _ in 0..r.next(3) {
            if raw.is_empty() {
                break;
            }
            let i = r.next(raw.len() as u64) as usize;
            match r.next(4) {
                0 => raw[i] = r.next(256) as u8,
                1 => raw[i] = r.next(0x40) as u8,
                2 => raw.truncate(i),
                _ => raw.insert(i, r.next(0x60) as u8),
            }
        }
        if agree(&raw) {
            good += 1;
        } else {
            bad += 1;
        }
    }
    assert!(good > 1000 && bad > 1000);
}

#[test]
fn decoding_agrees_on_groups() {
    let mut r = Random(0x0123_4567_89AB_CDEF);
    for _ in 0..30_000 {
        let mut raw: Vec<u8> = Vec::new();
        let mut open: Vec<u8> = Vec::new();
        for _ in 0..r.next(12) {
            match r.next(6) {
                0 | 1 => {
                    let tag = 6 + r.next(3) as u8;
                    raw.push(tag * 8 + 3);
                    open.push(tag);
                }
                2 => {
                    if let Some(tag) = open.pop() {
                        raw.push(tag * 8 + 4);
                    }
                }
                3 => raw.extend([0x0a, 0x00]),
                4 => raw.extend([0x30, r.next(128) as u8]),
                _ => raw.push(r.next(256) as u8),
            }
        }
        while let Some(tag) = open.pop() {
            if r.next(10) > 0 {
                raw.push(tag * 8 + 4);
            }
        }
        agree(&raw);
    }
    for n in 95..105 {
        agree(&[vec![0x33u8; n], vec![0x34u8; n]].concat());
    }
}
