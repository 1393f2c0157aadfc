//! How messages are written and read, byte by byte.

use super::calls;
use crate::error::{DecodeError, EncodeError};
use crate::protobuf::{self, FieldView};
use crate::wire::fengni_message::{Variant, VariantView};
use crate::wire::{self, FengniMessage};
use vstd::prelude::*;

verus! {

// --- Integers ---

/// The number with the given digits to the base 128, lowest first: the low seven
/// bits of each byte.
pub open spec fn base_128(b: Seq<u8>) -> int
    decreases b.len(),
{
    if b.len() == 0 {
        0
    } else {
        b[0] % 0x80 + 0x80 * base_128(b.skip(1))
    }
}

/// The high bit is set in every byte but the last.
pub open spec fn ends_once(b: Seq<u8>) -> bool {
    &&& b.len() > 0
    &&& b.last() < 0x80
    &&& forall|i: int| 0 <= i < b.len() - 1 ==> #[trigger] b[i] >= 0x80
}

/// The bytes from `pos` up to `end` are an integer of at most ten bytes and 64
/// bits.
pub open spec fn integer_at(buf: Seq<u8>, pos: int, n: int, end: int) -> bool {
    &&& 0 <= pos < end <= buf.len()
    &&& end - pos <= 10
    &&& ends_once(buf.subrange(pos, end))
    &&& n == base_128(buf.subrange(pos, end))
    &&& n < 0x1_0000_0000_0000_0000
}

/// An integer is written to the base 128 in as few bytes as possible.
pub proof fn integers_are_written_to_the_base_128(n: nat)
    ensures
        ends_once(protobuf::varint(n)),
        base_128(protobuf::varint(n)) == n,
        n > 0 ==> protobuf::varint(n).last() != 0,
        n == 0 ==> protobuf::varint(n) == seq![0u8],
    decreases n,
{
    let b = protobuf::varint(n);
    if n < 0x80 {
        assert(b.skip(1) =~= Seq::<u8>::empty());
        assert(base_128(b.skip(1)) == 0);
    } else {
        let rest = protobuf::varint(n / 0x80);
        integers_are_written_to_the_base_128(n / 0x80);
        assert(b.skip(1) =~= rest);
        assert(b.last() == rest.last());
        assert forall|i: int| 0 <= i < b.len() - 1 implies #[trigger] b[i] >= 0x80 by {
            if i > 0 {
                assert(b[i] == rest[i - 1]);
            }
        }
    }
}

spec fn power(k: nat) -> int
    decreases k,
{
    if k == 0 {
        1
    } else {
        0x80 * power((k - 1) as nat)
    }
}

proof fn lemma_base_128_bounds(b: Seq<u8>)
    requires
        ends_once(b),
    ensures
        power((b.len() - 1) as nat) * b.last() <= base_128(b),
        base_128(b) < power((b.len() - 1) as nat) * (b.last() + 1),
    decreases b.len(),
{
    let rest = b.skip(1);
    if b.len() == 1 {
        assert(base_128(rest) == 0);
        assert(b[0] == b.last());
        assert(b[0] % 0x80 == b[0]);
    } else {
        assert(rest.last() == b.last());
        assert forall|i: int| 0 <= i < rest.len() - 1 implies #[trigger] rest[i] >= 0x80 by {
            assert(rest[i] == b[i + 1]);
        }
        lemma_base_128_bounds(rest);
        let p = power((rest.len() - 1) as nat);
        let last = b.last() as int;
        assert(power((b.len() - 1) as nat) == 0x80 * p);
        assert((0x80 * p) * last == 0x80 * (p * last)) by (nonlinear_arith);
        assert((0x80 * p) * (last + 1) == 0x80 * (p * (last + 1))) by (nonlinear_arith);
    }
}

proof fn lemma_power_positive(k: nat)
    ensures
        0 < power(k),
        k < 9 ==> 0x80 * power(k) <= power(9),
{
    reveal_with_fuel(power, 10);
    if k >= 9 {
        lemma_power_grows(k);
    }
}

proof fn lemma_power_grows(k: nat)
    ensures
        0 < power(k),
    decreases k,
{
    if k > 0 {
        lemma_power_grows((k - 1) as nat);
    }
}

/// Ten bytes hold 64 bits where the last holds one, and fewer always do.
proof fn lemma_sixty_four_bits(b: Seq<u8>)
    requires
        ends_once(b),
        b.len() <= 10,
    ensures
        base_128(b) < 0x1_0000_0000_0000_0000 <==> (b.len() == 10 ==> b.last() < 2),
{
    lemma_base_128_bounds(b);
    let k = (b.len() - 1) as nat;
    let last = b.last() as int;
    lemma_power_positive(k);
    assert(power(9) == 0x8000_0000_0000_0000) by {
        reveal_with_fuel(power, 10);
    }
    if k < 9 {
        assert(power(k) * (last + 1) <= power(k) * 0x80) by (nonlinear_arith)
            requires
                0 < power(k),
                last < 0x80,
        ;
    } else if last < 2 {
        assert(power(9) * (last + 1) <= power(9) * 2) by (nonlinear_arith)
            requires
                0 < power(9),
                last < 2,
        ;
    } else {
        assert(power(9) * last >= power(9) * 2) by (nonlinear_arith)
            requires
                0 < power(9),
                last >= 2,
        ;
    }
}

/// The bytes from `pos` up to `end` are an integer of which `count` bytes stand
/// before them.
spec fn integer_rest(buf: Seq<u8>, pos: int, count: int, end: int) -> bool {
    &&& 0 <= pos < end <= buf.len()
    &&& end - pos <= 10 - count
    &&& ends_once(buf.subrange(pos, end))
    &&& end - pos == 10 - count ==> buf[end - 1] < 2
}

proof fn lemma_integer_is_found(buf: Seq<u8>, pos: int, count: int)
    requires
        0 <= pos,
        0 <= count,
    ensures
        protobuf::read_varint_from(buf, pos, count) matches Some((n, end)) ==> integer_rest(
            buf,
            pos,
            count,
            end,
        ) && n == base_128(buf.subrange(pos, end)),
    decreases 10 - count,
{
    if count < 10 && pos < buf.len() {
        if buf[pos] < 0x80 {
            let b = buf.subrange(pos, pos + 1);
            assert(b.skip(1) =~= Seq::<u8>::empty());
            assert(base_128(b.skip(1)) == 0);
        } else {
            lemma_integer_is_found(buf, pos + 1, count + 1);
            if let Some((high, end)) = protobuf::read_varint_from(buf, pos + 1, count + 1) {
                let b = buf.subrange(pos, end);
                let rest = buf.subrange(pos + 1, end);
                assert(b.skip(1) =~= rest);
                assert(b.last() == rest.last());
                assert forall|i: int| 0 <= i < b.len() - 1 implies #[trigger] b[i] >= 0x80 by {
                    if i > 0 {
                        assert(b[i] == rest[i - 1]);
                    }
                }
                assert(b[0] % 0x80 == b[0] - 0x80);
            }
        }
    }
}

proof fn lemma_integer_is_read(buf: Seq<u8>, pos: int, count: int, end: int)
    requires
        0 <= count,
        integer_rest(buf, pos, count, end),
    ensures
        protobuf::read_varint_from(buf, pos, count) == Some(
            (base_128(buf.subrange(pos, end)), end),
        ),
    decreases 10 - count,
{
    let b = buf.subrange(pos, end);
    if end == pos + 1 {
        assert(b.last() == buf[pos]);
        assert(b.skip(1) =~= Seq::<u8>::empty());
        assert(base_128(b.skip(1)) == 0);
    } else {
        let rest = buf.subrange(pos + 1, end);
        assert(b.skip(1) =~= rest);
        assert(b[0] == buf[pos]);
        assert(b.last() == rest.last());
        assert forall|i: int| 0 <= i < rest.len() - 1 implies #[trigger] rest[i] >= 0x80 by {
            assert(rest[i] == b[i + 1]);
        }
        lemma_integer_is_read(buf, pos + 1, count + 1, end);
        assert(b[0] % 0x80 == b[0] - 0x80);
    }
}

/// An integer is read wherever one stands, with its value and its end. Where none
/// stands, the reason is that.
pub proof fn integers_are_read_to_the_base_128(buf: Seq<u8>, pos: int, n: int, end: int)
    requires
        0 <= pos,
    ensures
        integer_at(buf, pos, n, end) <==> protobuf::read_varint(buf, pos) == Ok::<_, DecodeError>(
            (n, end),
        ),
        protobuf::read_varint(buf, pos) matches Err(e) ==> e == DecodeError::InvalidVarint,
{
    lemma_integer_is_found(buf, pos, 0);
    if let Some((m, stop)) = protobuf::read_varint_from(buf, pos, 0) {
        let b = buf.subrange(pos, stop);
        lemma_sixty_four_bits(b);
        assert(b.last() == buf[stop - 1]);
    }
    if integer_at(buf, pos, n, end) {
        let b = buf.subrange(pos, end);
        lemma_sixty_four_bits(b);
        assert(b.last() == buf[end - 1]);
        lemma_integer_is_read(buf, pos, 0, end);
    }
}

/// An integer that is written is read back wherever it stands.
pub proof fn written_integers_are_read(buf: Seq<u8>, pos: int, n: nat)
    requires
        n < 0x1_0000_0000_0000_0000,
        0 <= pos,
        pos + protobuf::varint(n).len() <= buf.len(),
        buf.subrange(pos, pos + protobuf::varint(n).len()) == protobuf::varint(n),
    ensures
        protobuf::read_varint(buf, pos) == Ok::<_, DecodeError>(
            (n as int, pos + protobuf::varint(n).len()),
        ),
{
    integers_are_written_to_the_base_128(n);
    protobuf::lemma_varint_len(n);
    integers_are_read_to_the_base_128(buf, pos, n as int, pos + protobuf::varint(n).len());
}

// --- Writing ---

/// A byte string is written as a key, its length and its bytes, and an integer as
/// a key and the integer. The key of field `tag` holds `8 * tag`, plus 2 for a byte
/// string. What is empty or 0 is not written.
pub open spec fn written(tag: int, field: FieldView, b: Seq<u8>) -> bool {
    match field {
        FieldView::Bytes(value) => if value.len() == 0 {
            b == Seq::<u8>::empty()
        } else {
            exists|len: Seq<u8>|
                {
                    &&& #[trigger] counts(len, value.len() as int)
                    &&& b == seq![(8 * tag + 2) as u8] + len + value
                }
        },
        FieldView::Uint64(n) => if n == 0 {
            b == Seq::<u8>::empty()
        } else {
            exists|number: Seq<u8>|
                {
                    &&& #[trigger] counts(number, n as int)
                    &&& b == seq![(8 * tag) as u8] + number
                }
        },
    }
}

/// The bytes are the number `n`, in as few bytes as possible.
pub open spec fn counts(b: Seq<u8>, n: int) -> bool {
    &&& ends_once(b)
    &&& base_128(b) == n
    &&& n > 0 ==> b.last() != 0
    &&& n == 0 ==> b == seq![0u8]
}

/// A field with a tag below 16 is written as said.
pub proof fn fields_are_written_behind_their_keys(tag: nat, field: FieldView)
    requires
        1 <= tag <= 15,
    ensures
        written(tag as int, field, protobuf::field_bytes(tag, field)),
{
    match field {
        FieldView::Bytes(value) => {
            integers_are_written_to_the_base_128(value.len());
            assert(counts(protobuf::varint(value.len()), value.len() as int));
            assert(protobuf::key(tag, 2) =~= seq![(8 * tag + 2) as u8]);
            if value.len() == 0 {
                assert(value =~= Seq::<u8>::empty());
            }
        },
        FieldView::Uint64(n) => {
            integers_are_written_to_the_base_128(n as nat);
            assert(counts(protobuf::varint(n as nat), n as int));
            assert(protobuf::key(tag, 0) =~= seq![(8 * tag) as u8]);
        },
    }
}

/// The number and the fields of a message.
pub open spec fn layout(v: VariantView) -> (int, FieldView, Option<FieldView>) {
    match v {
        VariantView::Hello { ephemeral_public, timestamp } => (
            1,
            FieldView::Bytes(ephemeral_public),
            Some(FieldView::Uint64(timestamp)),
        ),
        VariantView::HelloReply { ephemeral_public, session_token } => (
            2,
            FieldView::Bytes(ephemeral_public),
            Some(FieldView::Bytes(session_token)),
        ),
        VariantView::Authenticate { identity_public, proof } => (
            3,
            FieldView::Bytes(identity_public),
            Some(FieldView::Bytes(proof)),
        ),
        VariantView::ServerFinish { payload } => (4, FieldView::Bytes(payload), None),
        VariantView::DataPacket { sequence, ciphertext } => (
            5,
            FieldView::Uint64(sequence),
            Some(FieldView::Bytes(ciphertext)),
        ),
    }
}

/// A message is written as a key with its number, the length of what follows, and
/// its fields in order. No message is written as no bytes.
pub proof fn messages_are_written_field_by_field(
    v: VariantView,
    first: Seq<u8>,
    second: Seq<u8>,
    len: Seq<u8>,
)
    requires
        written(1, layout(v).1, first),
        layout(v).2 is Some ==> written(2, layout(v).2->Some_0, second),
        layout(v).2 is None ==> second.len() == 0,
        counts(len, (first + second).len() as int),
    ensures
        wire::encoded(Some(v)) == seq![(8 * layout(v).0 + 2) as u8] + len + first + second,
        wire::encoded(None) == Seq::<u8>::empty(),
{
    let fields = v.fields();
    reveal_with_fuel(protobuf::fields_bytes_from, 3);
    fields_are_written_behind_their_keys(1, fields[0]);
    lemma_written_once(1, fields[0], first, protobuf::field_bytes(1, fields[0]));
    if fields.len() == 2 {
        fields_are_written_behind_their_keys(2, fields[1]);
        lemma_written_once(2, fields[1], second, protobuf::field_bytes(2, fields[1]));
    }
    assert(protobuf::fields_bytes(fields) =~= first + second);
    integers_are_written_to_the_base_128(first.len() + second.len());
    lemma_counts_once(len, protobuf::varint(first.len() + second.len()));
    assert(protobuf::key(v.tag(), 2) =~= seq![(8 * layout(v).0 + 2) as u8]);
    assert(wire::encoded(Some(v)) =~= seq![(8 * layout(v).0 + 2) as u8] + len + first + second);
}

proof fn lemma_written_once(tag: int, field: FieldView, a: Seq<u8>, b: Seq<u8>)
    requires
        written(tag, field, a),
        written(tag, field, b),
    ensures
        a == b,
{
    match field {
        FieldView::Bytes(value) => {
            if value.len() > 0 {
                let n = value.len() as int;
                let la = choose|len: Seq<u8>|
                    #[trigger] counts(len, n) && a == seq![(8 * tag + 2) as u8] + len + value;
                let lb = choose|len: Seq<u8>|
                    #[trigger] counts(len, n) && b == seq![(8 * tag + 2) as u8] + len + value;
                lemma_counts_once(la, lb);
            }
        },
        FieldView::Uint64(n) => {
            if n > 0 {
                let na = choose|number: Seq<u8>|
                    #[trigger] counts(number, n as int) && a == seq![(8 * tag) as u8] + number;
                let nb = choose|number: Seq<u8>|
                    #[trigger] counts(number, n as int) && b == seq![(8 * tag) as u8] + number;
                lemma_counts_once(na, nb);
            }
        },
    }
}

/// A number is written in one way only.
proof fn lemma_counts_once(a: Seq<u8>, b: Seq<u8>)
    requires
        ends_once(a),
        ends_once(b),
        base_128(a) == base_128(b),
        counts(a, base_128(a)),
        counts(b, base_128(b)),
    ensures
        a == b,
    decreases a.len(),
{
    lemma_base_128_nonnegative(a);
    if base_128(a) > 0 {
        let (ra, rb) = (a.skip(1), b.skip(1));
        lemma_first_digit(a);
        lemma_first_digit(b);
        if a.len() > 1 && b.len() > 1 {
            lemma_tail_counts(a);
            lemma_tail_counts(b);
            lemma_counts_once(ra, rb);
            assert(a =~= seq![a[0]] + ra);
            assert(b =~= seq![b[0]] + rb);
        } else {
            if a.len() > 1 {
                lemma_tail_counts(a);
            }
            if b.len() > 1 {
                lemma_tail_counts(b);
            }
            assert(a =~= b);
        }
    }
}

proof fn lemma_base_128_nonnegative(b: Seq<u8>)
    ensures
        0 <= base_128(b),
    decreases b.len(),
{
    if b.len() > 0 {
        lemma_base_128_nonnegative(b.skip(1));
    }
}

proof fn lemma_first_digit(b: Seq<u8>)
    requires
        ends_once(b),
    ensures
        base_128(b) % 0x80 == b[0] % 0x80,
        base_128(b) / 0x80 == base_128(b.skip(1)),
        b.len() == 1 ==> base_128(b) == b[0] && base_128(b.skip(1)) == 0,
{
    if b.len() == 1 {
        assert(base_128(b.skip(1)) == 0);
        assert(b[0] == b.last());
    }
}

proof fn lemma_tail_counts(b: Seq<u8>)
    requires
        counts(b, base_128(b)),
        b.len() > 1,
    ensures
        b[0] >= 0x80,
        ends_once(b.skip(1)),
        counts(b.skip(1), base_128(b.skip(1))),
        base_128(b.skip(1)) > 0,
{
    let rest = b.skip(1);
    assert(rest.last() == b.last());
    assert forall|i: int| 0 <= i < rest.len() - 1 implies #[trigger] rest[i] >= 0x80 by {
        assert(rest[i] == b[i + 1]);
    }
    lemma_base_128_bounds(rest);
    lemma_power_grows((rest.len() - 1) as nat);
    assert(power((rest.len() - 1) as nat) * rest.last() >= 1) by (nonlinear_arith)
        requires
            power((rest.len() - 1) as nat) >= 1,
            rest.last() >= 1,
    ;
}

// --- Reading ---

/// A key is an integer of 32 bits: eight times the tag, plus the wire type, which
/// is at most 5. The tag is not 0.
pub proof fn keys_are_read_as_tag_and_wire_type(
    buf: Seq<u8>,
    pos: int,
    tag: int,
    wire_type: int,
    start: int,
)
    requires
        0 <= pos,
    ensures
        protobuf::read_key(buf, pos) == Ok::<_, DecodeError>((tag, wire_type, start)) <==> {
            &&& integer_at(buf, pos, 8 * tag + wire_type, start)
            &&& 8 * tag + wire_type < 0x1_0000_0000
            &&& 1 <= tag
            &&& 0 <= wire_type <= 5
        },
        forall|n: int|
            protobuf::read_key(buf, pos) is Err && #[trigger] integer_at(buf, pos, n, start)
                ==> protobuf::read_key(buf, pos)->Err_0 == (if n >= 0x1_0000_0000 {
                DecodeError::InvalidKey
            } else if n % 8 > 5 {
                DecodeError::InvalidWireType
            } else {
                DecodeError::InvalidTag
            }),
        protobuf::read_varint(buf, pos) is Err ==> protobuf::read_key(buf, pos) == Err::<
            (int, int, int),
            _,
        >(DecodeError::InvalidVarint),
{
    integers_are_read_to_the_base_128(buf, pos, 8 * tag + wire_type, start);
    assert forall|n: int|
        protobuf::read_key(buf, pos) is Err && #[trigger] integer_at(
            buf,
            pos,
            n,
            start,
        ) implies protobuf::read_key(buf, pos)->Err_0 == (if n >= 0x1_0000_0000 {
        DecodeError::InvalidKey
    } else if n % 8 > 5 {
        DecodeError::InvalidWireType
    } else {
        DecodeError::InvalidTag
    }) by {
        integers_are_read_to_the_base_128(buf, pos, n, start);
    }
    if let Ok((k, end)) = protobuf::read_varint(buf, pos) {
        integers_are_read_to_the_base_128(buf, pos, k, end);
        lemma_base_128_nonnegative(buf.subrange(pos, end));
    }
}

/// A field that is not known is skipped to its end, which its wire type tells: an
/// integer, 8 bytes, a length and that many bytes, a group, or 4 bytes. No group
/// ends that was not opened.
pub proof fn unknown_fields_are_skipped_by_wire_type(
    wire_type: int,
    tag: int,
    buf: Seq<u8>,
    pos: int,
    depth: nat,
)
    requires
        0 <= wire_type <= 5,
    ensures
        ({
            let r = protobuf::skip_field(wire_type, tag, buf, pos, depth);
            let underflow = Err::<int, _>(DecodeError::BufferUnderflow);
            if depth == 0 {
                r == Err::<int, _>(DecodeError::RecursionLimit)
            } else if wire_type == 0 {
                match protobuf::read_varint(buf, pos) {
                    Ok((_, end)) => r == Ok::<_, DecodeError>(end),
                    Err(e) => r == Err::<int, _>(e),
                }
            } else if wire_type == 1 {
                r == (if pos + 8 <= buf.len() {
                    Ok(pos + 8)
                } else {
                    underflow
                })
            } else if wire_type == 2 {
                match protobuf::read_varint(buf, pos) {
                    Ok((len, start)) => r == (if start + len <= buf.len() {
                        Ok(start + len)
                    } else {
                        underflow
                    }),
                    Err(e) => r == Err::<int, _>(e),
                }
            } else if wire_type == 3 {
                r == protobuf::skip_group(tag, buf, pos, (depth - 1) as nat)
            } else if wire_type == 4 {
                r == Err::<int, _>(DecodeError::UnexpectedEndGroup)
            } else {
                r == (if pos + 4 <= buf.len() {
                    Ok(pos + 4)
                } else {
                    underflow
                })
            }
        }),
{
}

proof fn lemma_varint_ends_behind(buf: Seq<u8>, pos: int)
    requires
        0 <= pos,
    ensures
        protobuf::read_varint(buf, pos) matches Ok((n, end)) ==> pos < end <= buf.len() && 0 <= n,
{
    if let Ok((n, end)) = protobuf::read_varint(buf, pos) {
        integers_are_read_to_the_base_128(buf, pos, n, end);
        lemma_base_128_nonnegative(buf.subrange(pos, end));
    }
}

proof fn lemma_group_ends_behind(tag: int, buf: Seq<u8>, pos: int, depth: nat)
    requires
        0 <= pos,
    ensures
        protobuf::skip_group(tag, buf, pos, depth) matches Ok(end) ==> pos < end <= buf.len(),
    decreases buf.len() - pos,
{
    lemma_varint_ends_behind(buf, pos);
    if let Ok((inner_tag, wire_type, start)) = protobuf::read_key(buf, pos) {
        if wire_type != 4 {
            if let Ok(end) = protobuf::skip_field(wire_type, inner_tag, buf, start, depth) {
                if pos < end <= buf.len() {
                    lemma_group_ends_behind(tag, buf, end, depth);
                }
            }
        }
    }
}

proof fn lemma_field_ends_behind(wire_type: int, tag: int, buf: Seq<u8>, pos: int, depth: nat)
    requires
        0 <= pos <= buf.len(),
    ensures
        protobuf::skip_field(wire_type, tag, buf, pos, depth) matches Ok(end) ==> pos < end
            <= buf.len(),
{
    lemma_varint_ends_behind(buf, pos);
    if depth > 0 {
        lemma_group_ends_behind(tag, buf, pos, (depth - 1) as nat);
    }
}

/// A group is skipped field by field, up to the end of a group with its own tag.
/// The end of another group is an error.
pub proof fn groups_are_skipped_field_by_field(tag: int, buf: Seq<u8>, pos: int, depth: nat)
    requires
        0 <= pos,
    ensures
        match protobuf::read_key(buf, pos) {
            Err(e) => protobuf::skip_group(tag, buf, pos, depth) == Err::<int, _>(e),
            Ok((inner_tag, wire_type, start)) => if wire_type == 4 {
                protobuf::skip_group(tag, buf, pos, depth) == (if inner_tag == tag {
                    Ok(start)
                } else {
                    Err::<int, _>(DecodeError::UnexpectedEndGroup)
                })
            } else {
                match protobuf::skip_field(wire_type, inner_tag, buf, start, depth) {
                    Err(e) => protobuf::skip_group(tag, buf, pos, depth) == Err::<int, _>(e),
                    Ok(end) => protobuf::skip_group(tag, buf, pos, depth) == protobuf::skip_group(
                        tag,
                        buf,
                        end,
                        depth,
                    ),
                }
            },
        },
{
    lemma_varint_ends_behind(buf, pos);
    if let Ok((inner_tag, wire_type, start)) = protobuf::read_key(buf, pos) {
        lemma_field_ends_behind(wire_type, inner_tag, buf, start, depth);
    }
}

/// A known field takes the value that stands behind its key, whatever it held
/// before, and the other fields stay. It has to have its own wire type. A field
/// that is not known changes nothing and is skipped.
pub proof fn known_fields_take_their_value(
    fields: Seq<FieldView>,
    tag: int,
    wire_type: int,
    buf: Seq<u8>,
    pos: int,
    depth: nat,
)
    requires
        1 <= tag,
    ensures
        ({
            let r = protobuf::merge_field(fields, tag, wire_type, buf, pos, depth);
            let mismatch = Err::<(Seq<FieldView>, int), _>(DecodeError::WireTypeMismatch);
            let underflow = Err::<(Seq<FieldView>, int), _>(DecodeError::BufferUnderflow);
            if tag > fields.len() {
                match protobuf::skip_field(wire_type, tag, buf, pos, depth) {
                    Ok(end) => r == Ok::<_, DecodeError>((fields, end)),
                    Err(e) => r == Err::<(Seq<FieldView>, int), _>(e),
                }
            } else if fields[tag - 1] is Bytes {
                if wire_type != 2 {
                    r == mismatch
                } else {
                    match protobuf::read_varint(buf, pos) {
                        Err(e) => r == Err::<(Seq<FieldView>, int), _>(e),
                        Ok((len, start)) => if start + len > buf.len() {
                            r == underflow
                        } else {
                            &&& r is Ok
                            &&& r->Ok_0.1 == start + len
                            &&& r->Ok_0.0.len() == fields.len()
                            &&& r->Ok_0.0[tag - 1] == FieldView::Bytes(
                                buf.subrange(start, start + len),
                            )
                            &&& forall|i: int|
                                0 <= i < fields.len() && i != tag - 1 ==> #[trigger] r->Ok_0.0[i]
                                    == fields[i]
                        },
                    }
                }
            } else {
                if wire_type != 0 {
                    r == mismatch
                } else {
                    match protobuf::read_varint(buf, pos) {
                        Err(e) => r == Err::<(Seq<FieldView>, int), _>(e),
                        Ok((n, end)) => {
                            &&& r is Ok
                            &&& r->Ok_0.1 == end
                            &&& r->Ok_0.0.len() == fields.len()
                            &&& r->Ok_0.0[tag - 1] == FieldView::Uint64(n as u64)
                            &&& forall|i: int|
                                0 <= i < fields.len() && i != tag - 1 ==> #[trigger] r->Ok_0.0[i]
                                    == fields[i]
                        },
                    }
                }
            }
        }),
{
}

proof fn lemma_merge_ends_behind(
    fields: Seq<FieldView>,
    tag: int,
    wire_type: int,
    buf: Seq<u8>,
    pos: int,
    depth: nat,
)
    requires
        0 <= pos <= buf.len(),
    ensures
        protobuf::merge_field(fields, tag, wire_type, buf, pos, depth) matches Ok((_, end)) ==> pos
            < end <= buf.len(),
{
    lemma_varint_ends_behind(buf, pos);
    lemma_field_ends_behind(wire_type, tag, buf, pos, depth);
}

/// The fields of a message are taken one after the other, up to its end and no
/// further.
pub proof fn fields_are_taken_in_order(
    fields: Seq<FieldView>,
    buf: Seq<u8>,
    pos: int,
    end: int,
    depth: nat,
)
    requires
        0 <= pos,
    ensures
        ({
            let r = protobuf::merge_fields(fields, buf, pos, end, depth);
            if pos == end {
                r == Ok::<_, DecodeError>(fields)
            } else if pos > end {
                r == Err::<Seq<FieldView>, _>(DecodeError::DelimitedLengthExceeded)
            } else {
                match protobuf::read_key(buf, pos) {
                    Err(e) => r == Err::<Seq<FieldView>, _>(e),
                    Ok((tag, wire_type, start)) => match protobuf::merge_field(
                        fields,
                        tag,
                        wire_type,
                        buf,
                        start,
                        depth,
                    ) {
                        Err(e) => r == Err::<Seq<FieldView>, _>(e),
                        Ok((next, next_pos)) => r == protobuf::merge_fields(
                            next,
                            buf,
                            next_pos,
                            end,
                            depth,
                        ),
                    },
                }
            }
        }),
{
    lemma_varint_ends_behind(buf, pos);
    if let Ok((tag, wire_type, start)) = protobuf::read_key(buf, pos) {
        lemma_merge_ends_behind(fields, tag, wire_type, buf, start, depth);
    }
}

/// The message so far: its number and its fields, or none.
pub open spec fn so_far(partial: wire::Partial, tag: int) -> Seq<FieldView> {
    if partial is Some && partial->Some_0.0 == tag {
        partial->Some_0.1
    } else if tag == 1 {
        seq![FieldView::Bytes(Seq::empty()), FieldView::Uint64(0)]
    } else if tag == 4 {
        seq![FieldView::Bytes(Seq::empty())]
    } else if tag == 5 {
        seq![FieldView::Uint64(0), FieldView::Bytes(Seq::empty())]
    } else {
        seq![FieldView::Bytes(Seq::empty()), FieldView::Bytes(Seq::empty())]
    }
}

/// The bytes of a message are taken field by field. Fields 1 to 5 are messages: a
/// length and that many bytes of fields, which add to the message so far where it
/// has the same number, and start a new one where it has not. Other fields are
/// skipped. The nesting counts down from 100, and from 99 within a message.
pub proof fn messages_are_read_field_by_field(partial: wire::Partial, buf: Seq<u8>, pos: int)
    requires
        0 <= pos,
    ensures
        ({
            let r = wire::decoded_from(partial, buf, pos);
            if pos >= buf.len() {
                r == Ok::<_, DecodeError>(partial)
            } else {
                match protobuf::read_key(buf, pos) {
                    Err(e) => r == Err::<wire::Partial, _>(e),
                    Ok((tag, wire_type, start)) => if tag > 5 {
                        match protobuf::skip_field(wire_type, tag, buf, start, 100) {
                            Err(e) => r == Err::<wire::Partial, _>(e),
                            Ok(end) => r == wire::decoded_from(partial, buf, end),
                        }
                    } else if wire_type != 2 {
                        r == Err::<wire::Partial, _>(DecodeError::WireTypeMismatch)
                    } else {
                        match protobuf::read_varint(buf, start) {
                            Err(e) => r == Err::<wire::Partial, _>(e),
                            Ok((len, body)) => if body + len > buf.len() {
                                r == Err::<wire::Partial, _>(DecodeError::BufferUnderflow)
                            } else {
                                match protobuf::merge_fields(
                                    so_far(partial, tag),
                                    buf,
                                    body,
                                    body + len,
                                    99,
                                ) {
                                    Err(e) => r == Err::<wire::Partial, _>(e),
                                    Ok(fields) => r == wire::decoded_from(
                                        Some((tag, fields)),
                                        buf,
                                        body + len,
                                    ),
                                }
                            },
                        }
                    },
                }
            }
        }),
{
    lemma_varint_ends_behind(buf, pos);
    if let Ok((tag, wire_type, start)) = protobuf::read_key(buf, pos) {
        lemma_varint_ends_behind(buf, start);
        lemma_field_ends_behind(wire_type, tag, buf, start, 100);
        if tag <= 5 {
            assert(wire::fields_before(partial, tag) =~= so_far(partial, tag));
        }
    }
}

/// The message that is read has the number and the fields that its bytes leave, or
/// there is none.
pub proof fn message_is_what_its_bytes_leave(raw: Seq<u8>, v: VariantView)
    ensures
        wire::decoded(raw) is Err <==> wire::decoded_from(None, raw, 0) is Err,
        wire::decoded(raw) matches Err(e) ==> wire::decoded_from(None, raw, 0) == Err::<
            wire::Partial,
            _,
        >(e),
        wire::decoded(raw) matches Ok(None) <==> wire::decoded_from(None, raw, 0) matches Ok(None),
        wire::decoded_from(None, raw, 0) matches Ok(Some((tag, fields))) ==> {
            &&& tag == layout(v).0
            &&& fields.len() > 0 && fields[0] == layout(v).1
            &&& layout(v).2 is Some ==> fields.len() > 1 && fields[1] == layout(v).2->Some_0
        } ==> wire::decoded(raw) == Ok::<_, DecodeError>(Some(v)),
        raw.len() == 0 ==> wire::decoded(raw) == Ok::<Option<VariantView>, DecodeError>(None),
{
}

// --- Calls ---

/// The view of a message tells all that the message holds.
pub open spec fn shows(msg: FengniMessage, view: Option<VariantView>) -> bool {
    match (msg.variant, view) {
        (None, None) => true,
        (
            Some(Variant::Hello(m)),
            Some(VariantView::Hello { ephemeral_public, timestamp }),
        ) => m.ephemeral_public@ == ephemeral_public && m.timestamp == timestamp,
        (
            Some(Variant::HelloReply(m)),
            Some(VariantView::HelloReply { ephemeral_public, session_token }),
        ) => m.ephemeral_public@ == ephemeral_public && m.session_token@ == session_token,
        (
            Some(Variant::Authenticate(m)),
            Some(VariantView::Authenticate { identity_public, proof }),
        ) => m.identity_public@ == identity_public && m.proof@ == proof,
        (Some(Variant::ServerFinish(m)), Some(VariantView::ServerFinish { payload })) => m.payload@
            == payload,
        (
            Some(Variant::DataPacket(m)),
            Some(VariantView::DataPacket { sequence, ciphertext }),
        ) => m.sequence == sequence && m.ciphertext@ == ciphertext,
        _ => false,
    }
}

/// The views of messages are faithful.
pub proof fn message_views_are_faithful(msg: FengniMessage)
    ensures
        shows(msg, msg@),
{
}

/// Every call of `decode` returns the message that the bytes hold.
pub proof fn decode_reads_the_message(raw: &[u8], r: Result<FengniMessage, DecodeError>)
    requires
        call_ensures(wire::decode, (raw,), r),
    ensures
        match (r, wire::decoded(raw@)) {
            (Ok(msg), Ok(view)) => shows(msg, view),
            (Err(e), Err(why)) => e == why,
            _ => false,
        },
{
}

/// Every call of `encode` and `encoded_len` returns the bytes of the message, and
/// their number. What would be longer than `isize::MAX` bytes is refused.
pub proof fn encode_writes_the_message(
    msg: &FengniMessage,
    len: usize,
    r: Result<Vec<u8>, EncodeError>,
)
    requires
        call_ensures(FengniMessage::encoded_len, (msg,), len),
        call_ensures(wire::encode, (msg,), r),
    ensures
        ({
            let raw = wire::encoded(msg@);
            &&& raw.len() <= usize::MAX ==> len == raw.len()
            &&& raw.len() > usize::MAX ==> len == usize::MAX
            &&& match r {
                Ok(buf) => buf@ == raw && raw.len() <= isize::MAX,
                Err(e) => {
                    &&& raw.len() > isize::MAX
                    &&& e.required == len
                    &&& e.remaining == isize::MAX
                },
            }
        }),
{
}

/// Every call of `encode_into` writes the bytes of the message to the start of the
/// buffer, or leaves a buffer that is too short as it is.
pub proof fn encode_into_writes_the_message(
    msg: &FengniMessage,
    buf: &mut [u8],
    r: Result<usize, EncodeError>,
)
    requires
        call_ensures(wire::encode_into, (msg, buf), r),
        old(buf)@.len() <= isize::MAX,
    ensures
        ({
            let raw = wire::encoded(msg@);
            match r {
                Ok(n) => n == raw.len() && calls::starts_with(old(buf)@, raw, final(buf)@),
                Err(e) => {
                    &&& raw.len() > old(buf)@.len()
                    &&& raw.len() <= usize::MAX ==> e.required == raw.len()
                    &&& raw.len() > usize::MAX ==> e.required == usize::MAX
                    &&& e.remaining == old(buf)@.len()
                    &&& final(buf)@ == old(buf)@
                },
            }
        }),
{
    if wire::encoded(msg@).len() <= old(buf)@.len() {
        calls::lemma_starts_with(old(buf)@, wire::encoded(msg@));
    }
}

} // verus!
