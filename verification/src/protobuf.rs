//! The Protocol Buffers wire format, for messages whose fields are byte
//! strings and unsigned integers.
//!
//! A message is a sequence of fields, numbered from 1. Its encoding leaves out
//! fields that hold their default value. Decoding takes the last value of a
//! field that occurs more than once, and skips fields that the message does not
//! have.

use crate::bytes;
use crate::error::DecodeError;
use vstd::prelude::*;

verus! {

/// The wire type of a variable-length integer.
pub const VARINT: u32 = 0;

/// The wire type of an 8-byte value.
pub const SIXTY_FOUR_BIT: u32 = 1;

/// The wire type of a length followed by that many bytes.
pub const LENGTH_DELIMITED: u32 = 2;

/// The wire type of the start of a group.
pub const START_GROUP: u32 = 3;

/// The wire type of the end of a group.
pub const END_GROUP: u32 = 4;

/// The wire type of a 4-byte value.
pub const THIRTY_TWO_BIT: u32 = 5;

/// How deeply messages and groups may be nested.
pub const NESTING_LIMIT: u32 = 100;

// --- Model ---

/// The value of a field.
#[verifier::ext_equal]
pub enum FieldView {
    Bytes(Seq<u8>),
    Uint64(u64),
}

impl FieldView {
    /// The value that a field has where the encoding does not mention it.
    pub open spec fn default_of(self) -> FieldView {
        match self {
            FieldView::Bytes(_) => FieldView::Bytes(Seq::empty()),
            FieldView::Uint64(_) => FieldView::Uint64(0),
        }
    }
}

/// The encoding of an unsigned integer: seven bits to a byte, lowest first,
/// with the high bit set in every byte but the last.
pub open spec fn varint(n: nat) -> Seq<u8>
    decreases n,
{
    if n < 0x80 {
        seq![n as u8]
    } else {
        seq![(n % 0x80 + 0x80) as u8] + varint(n / 0x80)
    }
}

/// The encoding of a field's key.
pub open spec fn key(tag: nat, wire_type: u32) -> Seq<u8> {
    varint(tag * 8 + wire_type as nat)
}

/// The encoding of the field with the given tag: nothing where it holds its
/// default value.
pub open spec fn field_bytes(tag: nat, field: FieldView) -> Seq<u8> {
    if field == field.default_of() {
        Seq::empty()
    } else {
        match field {
            FieldView::Bytes(b) => key(tag, LENGTH_DELIMITED) + varint(b.len()) + b,
            FieldView::Uint64(n) => key(tag, VARINT) + varint(n as nat),
        }
    }
}

/// The encoding of the fields from index `i` on.
pub open spec fn fields_bytes_from(fields: Seq<FieldView>, i: nat) -> Seq<u8>
    decreases fields.len() - i,
{
    if i >= fields.len() {
        Seq::empty()
    } else {
        field_bytes(i + 1, fields[i as int]) + fields_bytes_from(fields, i + 1)
    }
}

/// The encoding of a message's fields.
pub open spec fn fields_bytes(fields: Seq<FieldView>) -> Seq<u8> {
    fields_bytes_from(fields, 0)
}

/// The encoding of a message as the field of another: its key, its length and
/// its fields.
pub open spec fn embedded_bytes(tag: nat, fields: Seq<FieldView>) -> Seq<u8> {
    key(tag, LENGTH_DELIMITED) + varint(fields_bytes(fields).len()) + fields_bytes(fields)
}

/// The integer encoded at `pos`, of which `count` bytes have been read already,
/// and where its encoding ends. An encoding has at most ten bytes and fits in
/// 64 bits.
pub open spec fn read_varint_from(buf: Seq<u8>, pos: int, count: int) -> Option<(int, int)>
    decreases 10 - count,
{
    if count >= 10 || pos >= buf.len() {
        None
    } else if buf[pos] < 0x80 {
        if count == 9 && buf[pos] >= 2 {
            None
        } else {
            Some((buf[pos] as int, pos + 1))
        }
    } else {
        match read_varint_from(buf, pos + 1, count + 1) {
            Some((high, end)) => Some((buf[pos] - 0x80 + 0x80 * high, end)),
            None => None,
        }
    }
}

/// The integer encoded at `pos`, and where its encoding ends.
pub open spec fn read_varint(buf: Seq<u8>, pos: int) -> Result<(int, int), DecodeError> {
    match read_varint_from(buf, pos, 0) {
        Some(r) => Ok(r),
        None => Err(DecodeError::InvalidVarint),
    }
}

/// The tag and the wire type of the key at `pos`, and where the key ends.
pub open spec fn read_key(buf: Seq<u8>, pos: int) -> Result<(int, int, int), DecodeError> {
    match read_varint(buf, pos) {
        Err(e) => Err(e),
        Ok((k, end)) => if k > u32::MAX {
            Err(DecodeError::InvalidKey)
        } else if k % 8 > 5 {
            Err(DecodeError::InvalidWireType)
        } else if k / 8 == 0 {
            Err(DecodeError::InvalidTag)
        } else {
            Ok((k / 8, k % 8, end))
        },
    }
}

/// The position `len` bytes after `pos`.
pub open spec fn advance(buf: Seq<u8>, pos: int, len: int) -> Result<int, DecodeError> {
    if len > buf.len() - pos {
        Err(DecodeError::BufferUnderflow)
    } else {
        Ok(pos + len)
    }
}

/// The end of the length-delimited value at `pos`, and where its bytes start.
pub open spec fn delimited(buf: Seq<u8>, pos: int) -> Result<(int, int), DecodeError> {
    match read_varint(buf, pos) {
        Err(e) => Err(e),
        Ok((len, start)) => match advance(buf, start, len) {
            Err(e) => Err(e),
            Ok(end) => Ok((start, end)),
        },
    }
}

/// The end of the unknown field whose key ends at `pos`, with groups nested at
/// most `depth - 1` deep.
pub open spec fn skip_field(wire_type: int, tag: int, buf: Seq<u8>, pos: int, depth: nat) -> Result<
    int,
    DecodeError,
>
    decreases depth, 0int, 0int,
{
    if depth == 0 {
        Err(DecodeError::RecursionLimit)
    } else if wire_type == VARINT {
        match read_varint(buf, pos) {
            Ok((_, end)) => Ok(end),
            Err(e) => Err(e),
        }
    } else if wire_type == SIXTY_FOUR_BIT {
        advance(buf, pos, 8)
    } else if wire_type == THIRTY_TWO_BIT {
        advance(buf, pos, 4)
    } else if wire_type == LENGTH_DELIMITED {
        match delimited(buf, pos) {
            Ok((_, end)) => Ok(end),
            Err(e) => Err(e),
        }
    } else if wire_type == START_GROUP {
        skip_group(tag, buf, pos, (depth - 1) as nat)
    } else {
        Err(DecodeError::UnexpectedEndGroup)
    }
}

/// The end of the group whose next field starts at `pos`. Each field moves the
/// position on and ends within the bytes; the test of that only shows that the
/// recursion ends.
pub open spec fn skip_group(tag: int, buf: Seq<u8>, pos: int, depth: nat) -> Result<
    int,
    DecodeError,
>
    decreases depth, 1int, buf.len() - pos,
{
    match read_key(buf, pos) {
        Err(e) => Err(e),
        Ok((inner_tag, wire_type, start)) => if wire_type == END_GROUP {
            if inner_tag == tag {
                Ok(start)
            } else {
                Err(DecodeError::UnexpectedEndGroup)
            }
        } else {
            match skip_field(wire_type, inner_tag, buf, start, depth) {
                Err(e) => Err(e),
                Ok(end) => if pos < end <= buf.len() {
                    skip_group(tag, buf, end, depth)
                } else {
                    Err(DecodeError::BufferUnderflow)
                },
            }
        },
    }
}

/// The fields after the field whose key ends at `pos`, and where it ends.
pub open spec fn merge_field(
    fields: Seq<FieldView>,
    tag: int,
    wire_type: int,
    buf: Seq<u8>,
    pos: int,
    depth: nat,
) -> Result<(Seq<FieldView>, int), DecodeError> {
    if 1 <= tag <= fields.len() {
        match fields[tag - 1] {
            FieldView::Bytes(_) => if wire_type != LENGTH_DELIMITED {
                Err(DecodeError::WireTypeMismatch)
            } else {
                match delimited(buf, pos) {
                    Err(e) => Err(e),
                    Ok((start, end)) => Ok(
                        (fields.update(tag - 1, FieldView::Bytes(buf.subrange(start, end))), end),
                    ),
                }
            },
            FieldView::Uint64(_) => if wire_type != VARINT {
                Err(DecodeError::WireTypeMismatch)
            } else {
                match read_varint(buf, pos) {
                    Err(e) => Err(e),
                    Ok((n, end)) => Ok((fields.update(tag - 1, FieldView::Uint64(n as u64)), end)),
                }
            },
        }
    } else {
        match skip_field(wire_type, tag, buf, pos, depth) {
            Err(e) => Err(e),
            Ok(end) => Ok((fields, end)),
        }
    }
}

/// The fields after those encoded from `pos` up to `end`. As in a group, each
/// field moves the position on.
pub open spec fn merge_fields(
    fields: Seq<FieldView>,
    buf: Seq<u8>,
    pos: int,
    end: int,
    depth: nat,
) -> Result<Seq<FieldView>, DecodeError>
    decreases buf.len() - pos,
{
    if pos == end {
        Ok(fields)
    } else if pos > end {
        Err(DecodeError::DelimitedLengthExceeded)
    } else {
        match read_key(buf, pos) {
            Err(e) => Err(e),
            Ok((tag, wire_type, start)) => match merge_field(
                fields,
                tag,
                wire_type,
                buf,
                start,
                depth,
            ) {
                Err(e) => Err(e),
                Ok((next, next_pos)) => if pos < next_pos <= buf.len() {
                    merge_fields(next, buf, next_pos, end, depth)
                } else {
                    Err(DecodeError::BufferUnderflow)
                },
            },
        }
    }
}

/// The fields after the embedded message whose key ends at `pos`, and where it
/// ends.
pub open spec fn merge_embedded(
    fields: Seq<FieldView>,
    wire_type: int,
    buf: Seq<u8>,
    pos: int,
    depth: nat,
) -> Result<(Seq<FieldView>, int), DecodeError> {
    if wire_type != LENGTH_DELIMITED {
        Err(DecodeError::WireTypeMismatch)
    } else if depth == 0 {
        Err(DecodeError::RecursionLimit)
    } else {
        match delimited(buf, pos) {
            Err(e) => Err(e),
            Ok((start, end)) => match merge_fields(fields, buf, start, end, (depth - 1) as nat) {
                Err(e) => Err(e),
                Ok(merged) => Ok((merged, end)),
            },
        }
    }
}

/// Whether two messages have fields of the same kinds.
pub open spec fn same_kinds(a: Seq<FieldView>, b: Seq<FieldView>) -> bool {
    &&& a.len() == b.len()
    &&& forall|i: int|
        0 <= i < a.len() ==> (#[trigger] a[i]).default_of() == (#[trigger] b[i]).default_of()
}

/// Taking fields keeps their kinds.
proof fn lemma_merge_fields_kinds(
    fields: Seq<FieldView>,
    buf: Seq<u8>,
    pos: int,
    end: int,
    depth: nat,
)
    ensures
        merge_fields(fields, buf, pos, end, depth) matches Ok(merged) ==> same_kinds(
            fields,
            merged,
        ),
    decreases buf.len() - pos,
{
    if pos < end {
        if let Ok((tag, wire_type, start)) = read_key(buf, pos) {
            if let Ok((next, next_pos)) = merge_field(fields, tag, wire_type, buf, start, depth) {
                if pos < next_pos <= buf.len() {
                    lemma_merge_fields_kinds(next, buf, next_pos, end, depth);
                    if let Ok(merged) = merge_fields(next, buf, next_pos, end, depth) {
                        assert forall|i: int| 0 <= i < fields.len() implies (
                        #[trigger] fields[i]).default_of() == (
                        #[trigger] merged[i]).default_of() by {
                            assert(fields[i].default_of() == next[i].default_of());
                        }
                    }
                }
            }
        }
    }
}

/// Taking the fields of an embedded message keeps their kinds.
pub proof fn lemma_merge_embedded_kinds(
    fields: Seq<FieldView>,
    wire_type: int,
    buf: Seq<u8>,
    pos: int,
    depth: nat,
)
    ensures
        merge_embedded(fields, wire_type, buf, pos, depth) matches Ok((merged, _)) ==> same_kinds(
            fields,
            merged,
        ),
{
    if let Ok((start, end)) = delimited(buf, pos) {
        if depth > 0 {
            lemma_merge_fields_kinds(fields, buf, start, end, (depth - 1) as nat);
        }
    }
}

// --- Fields ---

/// The value of a field, borrowed.
pub enum FieldRef<'a> {
    Bytes(&'a [u8]),
    Uint64(u64),
}

/// The value of a field.
pub enum Field {
    Bytes(Vec<u8>),
    Uint64(u64),
}

impl<'a> View for FieldRef<'a> {
    type V = FieldView;

    open spec fn view(&self) -> FieldView {
        match *self {
            FieldRef::Bytes(b) => FieldView::Bytes(b@),
            FieldRef::Uint64(n) => FieldView::Uint64(n),
        }
    }
}

impl View for Field {
    type V = FieldView;

    open spec fn view(&self) -> FieldView {
        match *self {
            Field::Bytes(b) => FieldView::Bytes(b@),
            Field::Uint64(n) => FieldView::Uint64(n),
        }
    }
}

/// The values of borrowed fields.
pub open spec fn ref_views<'a>(fields: Seq<FieldRef<'a>>) -> Seq<FieldView> {
    Seq::new(fields.len(), |i: int| fields[i]@)
}

/// The values of fields.
pub open spec fn field_views(fields: Seq<Field>) -> Seq<FieldView> {
    Seq::new(fields.len(), |i: int| fields[i]@)
}

// --- Encoding ---

/// A length, or `usize::MAX` for a longer one.
pub open spec fn capped(len: nat) -> nat {
    if len <= usize::MAX {
        len
    } else {
        usize::MAX as nat
    }
}

/// An integer's encoding has between one and ten bytes.
pub proof fn lemma_varint_len(n: nat)
    ensures
        1 <= varint(n).len(),
        n <= u64::MAX ==> varint(n).len() <= 10,
        n < 0x80 ==> varint(n).len() == 1,
        n < 0x4000 ==> varint(n).len() <= 2,
{
    reveal_with_fuel(varint, 10);
    lemma_varint_nonempty(n);
}

proof fn lemma_varint_nonempty(n: nat)
    ensures
        1 <= varint(n).len(),
    decreases n,
{
    if n >= 0x80 {
        lemma_varint_nonempty(n / 0x80);
    }
}

/// The length of an integer's encoding.
pub(crate) fn varint_len(value: u64) -> (len: usize)
    ensures
        len == varint(value as nat).len(),
        1 <= len <= 10,
{
    let mut rest: u64 = value;
    let mut len: usize = 1;
    proof {
        lemma_varint_len(value as nat);
    }
    while rest >= 0x80
        invariant
            1 <= len,
            len - 1 + varint(rest as nat).len() == varint(value as nat).len(),
            varint(value as nat).len() <= 10,
        decreases rest,
    {
        proof {
            lemma_varint_len((rest / 0x80) as nat);
        }
        rest = rest / 0x80;
        len += 1;
    }
    len
}

/// Appends an integer's encoding.
pub(crate) fn put_varint(value: u64, out: &mut Vec<u8>)
    ensures
        final(out)@ == old(out)@ + varint(value as nat),
{
    let ghost before = out@;
    let mut rest: u64 = value;
    while rest >= 0x80
        invariant
            out@ + varint(rest as nat) == before + varint(value as nat),
        decreases rest,
    {
        let ghost (step, whole) = (out@, rest);
        out.push((rest % 0x80 + 0x80) as u8);
        rest = rest / 0x80;
        assert(out@ + varint(rest as nat) =~= step + varint(whole as nat));
    }
    out.push(rest as u8);
    assert(out@ =~= before + varint(value as nat));
}

/// The length of a field's encoding.
fn field_len(tag: u32, field: &FieldRef) -> (len: usize)
    requires
        tag <= 0xffff,
    ensures
        len == capped(field_bytes(tag as nat, field@).len()),
{
    match field {
        FieldRef::Bytes(b) => if b.len() == 0 {
            assert(b@ =~= Seq::<u8>::empty());
            0
        } else {
            let head: usize = varint_len(tag as u64 * 8 + LENGTH_DELIMITED as u64) + varint_len(
                b.len() as u64,
            );
            head.saturating_add(b.len())
        },
        FieldRef::Uint64(n) => if *n == 0 {
            0
        } else {
            varint_len(tag as u64 * 8 + VARINT as u64) + varint_len(*n)
        },
    }
}

/// The length of the encoding of a message's fields.
fn fields_len(fields: &[FieldRef]) -> (len: usize)
    requires
        fields@.len() <= 15,
    ensures
        len == capped(fields_bytes(ref_views(fields@)).len()),
{
    let ghost views = ref_views(fields@);
    let mut len: usize = 0;
    let mut i: usize = 0;
    while i < fields.len()
        invariant
            i <= fields@.len() <= 15,
            views == ref_views(fields@),
            fields_bytes_from(views, i as nat).len() <= fields_bytes(views).len(),
            len == capped(
                (fields_bytes(views).len() - fields_bytes_from(views, i as nat).len()) as nat,
            ),
        decreases fields@.len() - i,
    {
        let n: usize = field_len(i as u32 + 1, &fields[i]);
        len = len.saturating_add(n);
        i += 1;
    }
    len
}

/// The length of the encoding of an embedded message, with its key.
pub(crate) fn embedded_len(tag: u32, fields: &[FieldRef]) -> (len: usize)
    requires
        tag <= 0xffff,
        fields@.len() <= 15,
    ensures
        len == capped(embedded_bytes(tag as nat, ref_views(fields@)).len()),
{
    let inner: usize = fields_len(fields);
    let head: usize = varint_len(tag as u64 * 8 + LENGTH_DELIMITED as u64) + varint_len(
        inner as u64,
    );
    head.saturating_add(inner)
}

/// Appends a field's encoding.
fn put_field(tag: u32, field: &FieldRef, out: &mut Vec<u8>)
    requires
        tag <= 0xffff,
        old(out)@.len() + field_bytes(tag as nat, field@).len() <= usize::MAX,
    ensures
        final(out)@ == old(out)@ + field_bytes(tag as nat, field@),
{
    let ghost before = out@;
    match field {
        FieldRef::Bytes(b) => if b.len() > 0 {
            put_varint(tag as u64 * 8 + LENGTH_DELIMITED as u64, out);
            put_varint(b.len() as u64, out);
            bytes::append(out, b);
        } else {
            assert(b@ =~= Seq::<u8>::empty());
        },
        FieldRef::Uint64(n) => if *n > 0 {
            put_varint(tag as u64 * 8 + VARINT as u64, out);
            put_varint(*n, out);
        },
    }
    assert(out@ =~= before + field_bytes(tag as nat, field@));
}

/// Appends the encoding of a message's fields.
fn put_fields(fields: &[FieldRef], out: &mut Vec<u8>)
    requires
        fields@.len() <= 15,
        old(out)@.len() + fields_bytes(ref_views(fields@)).len() <= usize::MAX,
    ensures
        final(out)@ == old(out)@ + fields_bytes(ref_views(fields@)),
{
    let ghost before = out@;
    let ghost views = ref_views(fields@);
    let mut i: usize = 0;
    while i < fields.len()
        invariant
            i <= fields@.len() <= 15,
            views == ref_views(fields@),
            before.len() + fields_bytes(views).len() <= usize::MAX,
            out@ + fields_bytes_from(views, i as nat) == before + fields_bytes(views),
        decreases fields@.len() - i,
    {
        let ghost step = out@;
        let ghost rest = fields_bytes_from(views, (i + 1) as nat);
        assert((step + fields_bytes_from(views, i as nat)).len() == before.len() + fields_bytes(
            views,
        ).len());
        put_field(i as u32 + 1, &fields[i], out);
        assert(out@ + rest =~= step + fields_bytes_from(views, i as nat));
        i += 1;
    }
    assert(out@ =~= before + fields_bytes(views));
}

/// Appends the encoding of an embedded message, with its key.
pub(crate) fn put_embedded(tag: u32, fields: &[FieldRef], out: &mut Vec<u8>)
    requires
        tag <= 0xffff,
        fields@.len() <= 15,
        old(out)@.len() + embedded_bytes(tag as nat, ref_views(fields@)).len() <= usize::MAX,
    ensures
        final(out)@ == old(out)@ + embedded_bytes(tag as nat, ref_views(fields@)),
{
    let ghost before = out@;
    let inner: usize = fields_len(fields);
    put_varint(tag as u64 * 8 + LENGTH_DELIMITED as u64, out);
    put_varint(inner as u64, out);
    put_fields(fields, out);
    assert(out@ =~= before + embedded_bytes(tag as nat, ref_views(fields@)));
}

// --- Decoding ---

/// One more than the largest integer that is encoded after `count` bytes of the
/// encoding have been read.
spec fn varint_limit(count: int) -> int
    decreases 9 - count,
{
    if count >= 9 {
        2
    } else {
        0x80 * varint_limit(count + 1)
    }
}

/// A whole encoding holds 64 bits.
proof fn lemma_varint_limit()
    ensures
        varint_limit(0) == u64::MAX + 1,
{
    reveal_with_fuel(varint_limit, 10);
}

/// Reads an integer of which `count` bytes have been read already.
fn get_varint_from(buf: &[u8], pos: usize, count: u32) -> (r: Option<(u64, usize)>)
    requires
        pos <= buf@.len(),
        count <= 10,
    ensures
        match r {
            Some((value, end)) => {
                &&& read_varint_from(buf@, pos as int, count as int) == Some(
                    (value as int, end as int),
                )
                &&& pos < end <= buf@.len()
                &&& value < varint_limit(count as int)
            },
            None => read_varint_from(buf@, pos as int, count as int) is None,
        },
    decreases 10 - count,
{
    if count >= 10 || pos >= buf.len() {
        return None;
    }
    let byte: u8 = buf[pos];
    if byte < 0x80 {
        if count == 9 && byte >= 2 {
            None
        } else {
            proof {
                lemma_varint_limit_low(count as int);
            }
            Some((byte as u64, pos + 1))
        }
    } else {
        match get_varint_from(buf, pos + 1, count + 1) {
            Some((high, end)) => {
                proof {
                    lemma_varint_limit_high(count as int);
                }
                Some(((byte - 0x80) as u64 + 0x80 * high, end))
            },
            None => None,
        }
    }
}

/// Where more than one byte is left, a single byte is below the limit.
proof fn lemma_varint_limit_low(count: int)
    requires
        0 <= count <= 9,
    ensures
        varint_limit(count) >= if count == 9 {
            2int
        } else {
            0x100
        },
    decreases 9 - count,
{
    if count < 9 {
        lemma_varint_limit_low(count + 1);
    }
}

/// What is left of an encoding never holds more than 64 bits.
proof fn lemma_varint_limit_high(count: int)
    requires
        0 <= count <= 9,
    ensures
        varint_limit(count) <= u64::MAX + 1,
    decreases count,
{
    if count == 0 {
        lemma_varint_limit();
    } else {
        lemma_varint_limit_high(count - 1);
        lemma_varint_limit_low(count);
    }
}

/// Reads an integer.
fn get_varint(buf: &[u8], pos: usize) -> (r: Result<(u64, usize), DecodeError>)
    requires
        pos <= buf@.len(),
    ensures
        match r {
            Ok((value, end)) => {
                &&& read_varint(buf@, pos as int) == Ok::<_, DecodeError>(
                    (value as int, end as int),
                )
                &&& pos < end <= buf@.len()
            },
            Err(e) => read_varint(buf@, pos as int) == Err::<(int, int), _>(e),
        },
{
    match get_varint_from(buf, pos, 0) {
        Some(r) => Ok(r),
        None => Err(DecodeError::InvalidVarint),
    }
}

/// Reads a field's key.
pub(crate) fn get_key(buf: &[u8], pos: usize) -> (r: Result<(u32, u32, usize), DecodeError>)
    requires
        pos <= buf@.len(),
    ensures
        match r {
            Ok((tag, wire_type, end)) => {
                &&& read_key(buf@, pos as int) == Ok::<_, DecodeError>(
                    (tag as int, wire_type as int, end as int),
                )
                &&& pos < end <= buf@.len()
            },
            Err(e) => read_key(buf@, pos as int) == Err::<(int, int, int), _>(e),
        },
{
    match get_varint(buf, pos) {
        Err(e) => Err(e),
        Ok((k, end)) => {
            if k > u32::MAX as u64 {
                return Err(DecodeError::InvalidKey);
            }
            let tag: u32 = (k / 8) as u32;
            let wire_type: u32 = (k % 8) as u32;
            if wire_type > THIRTY_TWO_BIT {
                return Err(DecodeError::InvalidWireType);
            }
            if tag == 0 {
                return Err(DecodeError::InvalidTag);
            }
            Ok((tag, wire_type, end))
        },
    }
}

/// Moves on by `len` bytes.
fn get_advance(buf: &[u8], pos: usize, len: u64) -> (r: Result<usize, DecodeError>)
    requires
        pos <= buf@.len(),
    ensures
        match r {
            Ok(end) => {
                &&& advance(buf@, pos as int, len as int) == Ok::<_, DecodeError>(end as int)
                &&& pos <= end <= buf@.len()
            },
            Err(e) => advance(buf@, pos as int, len as int) == Err::<int, _>(e),
        },
{
    if len > (buf.len() - pos) as u64 {
        Err(DecodeError::BufferUnderflow)
    } else {
        Ok(pos + len as usize)
    }
}

/// Reads a length and finds the bytes that it covers.
fn get_delimited(buf: &[u8], pos: usize) -> (r: Result<(usize, usize), DecodeError>)
    requires
        pos <= buf@.len(),
    ensures
        match r {
            Ok((start, end)) => {
                &&& delimited(buf@, pos as int) == Ok::<_, DecodeError>((start as int, end as int))
                &&& pos < start <= end <= buf@.len()
            },
            Err(e) => delimited(buf@, pos as int) == Err::<(int, int), _>(e),
        },
{
    match get_varint(buf, pos) {
        Err(e) => Err(e),
        Ok((len, start)) => match get_advance(buf, start, len) {
            Err(e) => Err(e),
            Ok(end) => Ok((start, end)),
        },
    }
}

/// Skips an unknown field.
pub(crate) fn pass_field(wire_type: u32, tag: u32, buf: &[u8], pos: usize, depth: u32) -> (r: Result<
    usize,
    DecodeError,
>)
    requires
        pos <= buf@.len(),
    ensures
        match r {
            Ok(end) => {
                &&& skip_field(wire_type as int, tag as int, buf@, pos as int, depth as nat) == Ok::<
                    _,
                    DecodeError,
                >(end as int)
                &&& pos <= end <= buf@.len()
            },
            Err(e) => skip_field(wire_type as int, tag as int, buf@, pos as int, depth as nat)
                == Err::<int, _>(e),
        },
    decreases depth, 0int,
{
    if depth == 0 {
        return Err(DecodeError::RecursionLimit);
    }
    if wire_type == VARINT {
        match get_varint(buf, pos) {
            Ok((_, end)) => Ok(end),
            Err(e) => Err(e),
        }
    } else if wire_type == SIXTY_FOUR_BIT {
        get_advance(buf, pos, 8)
    } else if wire_type == THIRTY_TWO_BIT {
        get_advance(buf, pos, 4)
    } else if wire_type == LENGTH_DELIMITED {
        match get_delimited(buf, pos) {
            Ok((_, end)) => Ok(end),
            Err(e) => Err(e),
        }
    } else if wire_type == START_GROUP {
        pass_group(tag, buf, pos, depth - 1)
    } else {
        Err(DecodeError::UnexpectedEndGroup)
    }
}

/// Skips the rest of an unknown group.
fn pass_group(tag: u32, buf: &[u8], pos: usize, depth: u32) -> (r: Result<usize, DecodeError>)
    requires
        pos <= buf@.len(),
    ensures
        match r {
            Ok(end) => {
                &&& skip_group(tag as int, buf@, pos as int, depth as nat) == Ok::<_, DecodeError>(
                    end as int,
                )
                &&& pos <= end <= buf@.len()
            },
            Err(e) => skip_group(tag as int, buf@, pos as int, depth as nat) == Err::<int, _>(e),
        },
    decreases depth, 1int,
{
    let mut at: usize = pos;
    loop
        invariant
            pos <= at <= buf@.len(),
            skip_group(tag as int, buf@, at as int, depth as nat) == skip_group(
                tag as int,
                buf@,
                pos as int,
                depth as nat,
            ),
        decreases buf@.len() - at,
    {
        match get_key(buf, at) {
            Err(e) => return Err(e),
            Ok((inner_tag, wire_type, start)) => {
                if wire_type == END_GROUP {
                    if inner_tag != tag {
                        return Err(DecodeError::UnexpectedEndGroup);
                    }
                    return Ok(start);
                }
                match pass_field(wire_type, inner_tag, buf, start, depth) {
                    Err(e) => return Err(e),
                    Ok(end) => {
                        at = end;
                    },
                }
            },
        }
    }
}

/// Takes the value of one field.
fn take_field(
    fields: &mut Vec<Field>,
    tag: u32,
    wire_type: u32,
    buf: &[u8],
    pos: usize,
    depth: u32,
) -> (r: Result<usize, DecodeError>)
    requires
        pos <= buf@.len(),
    ensures
        match r {
            Ok(end) => {
                &&& merge_field(
                    field_views(old(fields)@),
                    tag as int,
                    wire_type as int,
                    buf@,
                    pos as int,
                    depth as nat,
                ) == Ok::<_, DecodeError>((field_views(final(fields)@), end as int))
                &&& pos <= end <= buf@.len()
            },
            Err(e) => merge_field(
                field_views(old(fields)@),
                tag as int,
                wire_type as int,
                buf@,
                pos as int,
                depth as nat,
            ) == Err::<(Seq<FieldView>, int), _>(e),
        },
{
    let ghost before = field_views(fields@);
    if 1 <= tag && tag as usize <= fields.len() {
        let i: usize = tag as usize - 1;
        match fields[i] {
            Field::Bytes(_) => {
                if wire_type != LENGTH_DELIMITED {
                    return Err(DecodeError::WireTypeMismatch);
                }
                match get_delimited(buf, pos) {
                    Err(e) => Err(e),
                    Ok((start, end)) => {
                        let value = bytes::copy_range(buf, start, end);
                        fields.set(i, Field::Bytes(value));
                        assert(field_views(fields@) =~= before.update(
                            i as int,
                            FieldView::Bytes(buf@.subrange(start as int, end as int)),
                        ));
                        Ok(end)
                    },
                }
            },
            Field::Uint64(_) => {
                if wire_type != VARINT {
                    return Err(DecodeError::WireTypeMismatch);
                }
                match get_varint(buf, pos) {
                    Err(e) => Err(e),
                    Ok((value, end)) => {
                        fields.set(i, Field::Uint64(value));
                        assert(field_views(fields@) =~= before.update(
                            i as int,
                            FieldView::Uint64(value),
                        ));
                        Ok(end)
                    },
                }
            },
        }
    } else {
        pass_field(wire_type, tag, buf, pos, depth)
    }
}

/// Takes the values of the fields of the embedded message whose key ends at
/// `pos`.
pub(crate) fn take_embedded(
    fields: &mut Vec<Field>,
    wire_type: u32,
    buf: &[u8],
    pos: usize,
    depth: u32,
) -> (r: Result<usize, DecodeError>)
    requires
        pos <= buf@.len(),
    ensures
        match r {
            Ok(end) => {
                &&& merge_embedded(
                    field_views(old(fields)@),
                    wire_type as int,
                    buf@,
                    pos as int,
                    depth as nat,
                ) == Ok::<_, DecodeError>((field_views(final(fields)@), end as int))
                &&& pos <= end <= buf@.len()
            },
            Err(e) => merge_embedded(
                field_views(old(fields)@),
                wire_type as int,
                buf@,
                pos as int,
                depth as nat,
            ) == Err::<(Seq<FieldView>, int), _>(e),
        },
{
    if wire_type != LENGTH_DELIMITED {
        return Err(DecodeError::WireTypeMismatch);
    }
    if depth == 0 {
        return Err(DecodeError::RecursionLimit);
    }
    let (start, end) = match get_delimited(buf, pos) {
        Err(e) => return Err(e),
        Ok(range) => range,
    };
    let ghost first = field_views(fields@);
    let mut at: usize = start;
    while at < end
        invariant
            start <= at <= buf@.len(),
            pos <= end <= buf@.len(),
            0 < depth,
            merge_fields(
                field_views(fields@),
                buf@,
                at as int,
                end as int,
                (depth - 1) as nat,
            ) == merge_fields(first, buf@, start as int, end as int, (depth - 1) as nat),
            wire_type == LENGTH_DELIMITED,
            delimited(buf@, pos as int) == Ok::<_, DecodeError>((start as int, end as int)),
            first == field_views(old(fields)@),
        decreases buf@.len() - at,
    {
        match get_key(buf, at) {
            Err(e) => return Err(e),
            Ok((tag, inner_type, inner_start)) => {
                match take_field(fields, tag, inner_type, buf, inner_start, depth - 1) {
                    Err(e) => return Err(e),
                    Ok(next) => {
                        at = next;
                    },
                }
            },
        }
    }
    if at > end {
        return Err(DecodeError::DelimitedLengthExceeded);
    }
    Ok(end)
}

// --- What is encoded decodes to itself ---

/// Whether `bytes` stand at `pos`.
pub open spec fn holds_at(buf: Seq<u8>, pos: int, bytes: Seq<u8>) -> bool {
    &&& 0 <= pos
    &&& pos + bytes.len() <= buf.len()
    &&& buf.subrange(pos, pos + bytes.len()) == bytes
}

/// Where two byte strings stand one after the other, each stands in its place.
proof fn lemma_holds_parts(buf: Seq<u8>, pos: int, a: Seq<u8>, b: Seq<u8>)
    requires
        holds_at(buf, pos, a + b),
    ensures
        holds_at(buf, pos, a),
        holds_at(buf, pos + a.len(), b),
{
    let whole = buf.subrange(pos, pos + (a + b).len());
    assert(buf.subrange(pos, pos + a.len()) =~= whole.subrange(0, a.len() as int));
    assert(whole.subrange(0, a.len() as int) =~= a);
    assert(buf.subrange(pos + a.len(), pos + a.len() + b.len()) =~= whole.subrange(
        a.len() as int,
        (a + b).len() as int,
    ));
    assert(whole.subrange(a.len() as int, (a + b).len() as int) =~= b);
}

/// An integer that is encoded at `pos` is read there.
proof fn lemma_read_varint_from(buf: Seq<u8>, pos: int, n: nat, count: int)
    requires
        0 <= count <= 9,
        n < varint_limit(count),
        holds_at(buf, pos, varint(n)),
    ensures
        read_varint_from(buf, pos, count) == Some((n as int, pos + varint(n).len())),
    decreases 9 - count,
{
    assert(buf[pos] == buf.subrange(pos, pos + varint(n).len())[0]);
    if n >= 0x80 {
        lemma_holds_parts(buf, pos, seq![(n % 0x80 + 0x80) as u8], varint(n / 0x80));
        lemma_read_varint_from(buf, pos + 1, n / 0x80, count + 1);
    }
}

/// An integer that is encoded at `pos` is read there.
proof fn lemma_read_varint(buf: Seq<u8>, pos: int, n: nat)
    requires
        n <= u64::MAX,
        holds_at(buf, pos, varint(n)),
    ensures
        read_varint(buf, pos) == Ok::<_, DecodeError>((n as int, pos + varint(n).len())),
{
    lemma_varint_limit();
    lemma_read_varint_from(buf, pos, n, 0);
}

/// A key that is encoded at `pos` is read there.
pub proof fn lemma_read_key(buf: Seq<u8>, pos: int, tag: nat, wire_type: u32)
    requires
        1 <= tag <= 0xffff,
        wire_type <= 5,
        holds_at(buf, pos, key(tag, wire_type)),
    ensures
        read_key(buf, pos) == Ok::<_, DecodeError>(
            (tag as int, wire_type as int, pos + key(tag, wire_type).len()),
        ),
        1 <= key(tag, wire_type).len(),
{
    lemma_read_varint(buf, pos, tag * 8 + wire_type as nat);
    lemma_varint_len(tag * 8 + wire_type as nat);
}

/// A length-delimited value that is encoded at `pos` is found there.
proof fn lemma_delimited(buf: Seq<u8>, pos: int, value: Seq<u8>)
    requires
        value.len() <= u64::MAX,
        holds_at(buf, pos, varint(value.len()) + value),
    ensures
        ({
            let start = pos + varint(value.len()).len();
            &&& delimited(buf, pos) == Ok::<_, DecodeError>((start, start + value.len()))
            &&& holds_at(buf, start, value)
        }),
{
    lemma_holds_parts(buf, pos, varint(value.len()), value);
    lemma_read_varint(buf, pos, value.len());
}

/// Fields of which those below index `i` have been taken, and the others hold
/// their default value.
pub open spec fn taken_below(fields: Seq<FieldView>, i: int) -> Seq<FieldView> {
    Seq::new(
        fields.len(),
        |k: int|
            if k < i {
                fields[k]
            } else {
                fields[k].default_of()
            },
    )
}

/// Fields whose encoding stands between `pos` and `end` are taken from there.
proof fn lemma_merge_fields(
    fields: Seq<FieldView>,
    i: nat,
    buf: Seq<u8>,
    pos: int,
    end: int,
    depth: nat,
)
    requires
        fields.len() <= 15,
        i <= fields.len(),
        buf.len() <= u64::MAX,
        holds_at(buf, pos, fields_bytes_from(fields, i)),
        end == pos + fields_bytes_from(fields, i).len(),
    ensures
        merge_fields(taken_below(fields, i as int), buf, pos, end, depth) == Ok::<_, DecodeError>(
            fields,
        ),
    decreases fields.len() - i,
{
    let now = taken_below(fields, i as int);
    if i == fields.len() {
        assert(now =~= fields);
    } else {
        let field = fields[i as int];
        let head = field_bytes(i + 1, field);
        let rest = fields_bytes_from(fields, i + 1);
        let next = taken_below(fields, i as int + 1);
        lemma_holds_parts(buf, pos, head, rest);
        lemma_merge_fields(fields, i + 1, buf, pos + head.len(), end, depth);
        assert(now.update(i as int, field) =~= next);
        if field == field.default_of() {
            assert(now =~= next);
        } else {
            match field {
                FieldView::Bytes(b) => {
                    let k = key(i + 1, LENGTH_DELIMITED);
                    assert(head =~= k + (varint(b.len()) + b));
                    lemma_holds_parts(buf, pos, k, varint(b.len()) + b);
                    lemma_read_key(buf, pos, i + 1, LENGTH_DELIMITED);
                    lemma_delimited(buf, pos + k.len(), b);
                },
                FieldView::Uint64(n) => {
                    let k = key(i + 1, VARINT);
                    lemma_holds_parts(buf, pos, k, varint(n as nat));
                    lemma_read_key(buf, pos, i + 1, VARINT);
                    lemma_read_varint(buf, pos + k.len(), n as nat);
                },
            }
        }
    }
}

/// An embedded message that is encoded at `pos` is read there: its key, then
/// its fields.
pub proof fn lemma_merge_embedded(
    tag: nat,
    fields: Seq<FieldView>,
    buf: Seq<u8>,
    pos: int,
    depth: nat,
)
    requires
        1 <= tag <= 0xffff,
        fields.len() <= 15,
        depth > 0,
        buf.len() <= u64::MAX,
        holds_at(buf, pos, embedded_bytes(tag, fields)),
    ensures
        ({
            let start = pos + key(tag, LENGTH_DELIMITED).len();
            &&& pos < start
            &&& read_key(buf, pos) == Ok::<_, DecodeError>(
                (tag as int, LENGTH_DELIMITED as int, start),
            )
            &&& merge_embedded(
                taken_below(fields, 0),
                LENGTH_DELIMITED as int,
                buf,
                start,
                depth,
            ) == Ok::<_, DecodeError>((fields, pos + embedded_bytes(tag, fields).len()))
        }),
{
    let k = key(tag, LENGTH_DELIMITED);
    let inner = fields_bytes(fields);
    assert(embedded_bytes(tag, fields) =~= k + (varint(inner.len()) + inner));
    lemma_holds_parts(buf, pos, k, varint(inner.len()) + inner);
    lemma_read_key(buf, pos, tag, LENGTH_DELIMITED);
    lemma_delimited(buf, pos + k.len(), inner);
    let start = pos + k.len() + varint(inner.len()).len();
    lemma_merge_fields(fields, 0, buf, start, start + inner.len(), (depth - 1) as nat);
}

} // verus!
