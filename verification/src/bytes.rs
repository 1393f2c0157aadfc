//! Byte-string helpers with contracts.

use vstd::prelude::*;

verus! {

/// `buf` with its first `bytes.len()` bytes replaced by `bytes`.
pub open spec fn overwrite(buf: Seq<u8>, bytes: Seq<u8>) -> Seq<u8> {
    bytes + buf.skip(bytes.len() as int)
}

/// The little-endian bytes of a 64-bit integer.
pub open spec fn le_bytes(n: u64) -> Seq<u8> {
    seq![
        (n % 0x100) as u8,
        (n / 0x100 % 0x100) as u8,
        (n / 0x1_0000 % 0x100) as u8,
        (n / 0x100_0000 % 0x100) as u8,
        (n / 0x1_0000_0000 % 0x100) as u8,
        (n / 0x100_0000_0000 % 0x100) as u8,
        (n / 0x1_0000_0000_0000 % 0x100) as u8,
        (n / 0x100_0000_0000_0000 % 0x100) as u8,
    ]
}

/// The big-endian bytes of a 64-bit integer.
pub open spec fn be_bytes(n: u64) -> Seq<u8> {
    le_bytes(n).reverse()
}

/// The chunks of `data` one after the other.
pub open spec fn concat(data: Seq<&[u8]>) -> Seq<u8>
    decreases data.len(),
{
    if data.len() == 0 {
        Seq::empty()
    } else {
        concat(data.drop_last()) + data.last()@
    }
}

/// A byte vector or an error, with the bytes as a sequence.
pub open spec fn vec_result<E>(r: Result<Vec<u8>, E>) -> Result<Seq<u8>, E> {
    match r {
        Ok(v) => Ok(v@),
        Err(e) => Err(e),
    }
}

/// A 32-byte array or an error, with the bytes as a sequence.
pub open spec fn array_result<E>(r: Result<[u8; 32], E>) -> Result<Seq<u8>, E> {
    match r {
        Ok(a) => Ok(a@),
        Err(e) => Err(e),
    }
}

/// A number of bytes or an error, with the number as a natural number.
pub open spec fn len_result<E>(r: Result<usize, E>) -> Result<nat, E> {
    match r {
        Ok(n) => Ok(n as nat),
        Err(e) => Err(e),
    }
}

/// Copies `src` over the start of `dst`.
pub(crate) fn copy_into(dst: &mut [u8], src: &[u8])
    requires
        src@.len() <= old(dst)@.len(),
    ensures
        final(dst)@ == overwrite(old(dst)@, src@),
{
    let mut i: usize = 0;
    while i < src.len()
        invariant
            i <= src@.len() <= dst@.len(),
            dst@.len() == old(dst)@.len(),
            forall|k: int| 0 <= k < i ==> dst@[k] == src@[k],
            forall|k: int| i <= k < dst@.len() ==> dst@[k] == old(dst)@[k],
        decreases src@.len() - i,
    {
        dst[i] = src[i];
        i += 1;
    }
    assert(dst@ =~= overwrite(old(dst)@, src@));
}

/// Appends `src` to `dst`.
pub(crate) fn append(dst: &mut Vec<u8>, src: &[u8])
    requires
        old(dst)@.len() + src@.len() <= usize::MAX,
    ensures
        final(dst)@ == old(dst)@ + src@,
{
    dst.extend_from_slice(src);
    assert(dst@ =~= old(dst)@ + src@);
}

/// The bytes of `src` from `start` up to `end`.
pub(crate) fn copy_range(src: &[u8], start: usize, end: usize) -> (copy: Vec<u8>)
    requires
        start <= end <= src@.len(),
    ensures
        copy@ == src@.subrange(start as int, end as int),
{
    let mut copy: Vec<u8> = Vec::new();
    append(&mut copy, vstd::slice::slice_subrange(src, start, end));
    assert(copy@ =~= src@.subrange(start as int, end as int));
    copy
}

/// A vector with the bytes of `src`.
pub(crate) fn to_vec(src: &[u8]) -> (copy: Vec<u8>)
    ensures
        copy@ == src@,
{
    let copy = copy_range(src, 0, src.len());
    assert(copy@ =~= src@);
    copy
}

/// Compares two byte strings.
pub(crate) fn same_bytes(a: &[u8], b: &[u8]) -> (same: bool)
    ensures
        same == (a@ == b@),
{
    if a.len() != b.len() {
        return false;
    }
    let mut i: usize = 0;
    while i < a.len()
        invariant
            i <= a@.len() == b@.len(),
            forall|k: int| 0 <= k < i ==> a@[k] == b@[k],
        decreases a@.len() - i,
    {
        if a[i] != b[i] {
            return false;
        }
        i += 1;
    }
    assert(a@ =~= b@);
    true
}

/// Compares two 32-byte strings, reading every byte of both whatever they hold.
pub(crate) fn same_bytes_constant_time(a: &[u8; 32], b: &[u8; 32]) -> (same: bool)
    ensures
        same == (a@ == b@),
{
    let mut difference: u8 = 0;
    let mut i: usize = 0;
    while i < 32
        invariant
            i <= 32,
            difference == 0 <==> (forall|k: int| 0 <= k < i ==> a@[k] == b@[k]),
        decreases 32 - i,
    {
        let x: u8 = a[i];
        let y: u8 = b[i];
        assert((difference | (x ^ y)) == 0 <==> difference == 0 && x == y) by (bit_vector);
        difference = difference | (x ^ y);
        i += 1;
    }
    assert(difference == 0 <==> a@ =~= b@);
    difference == 0
}

/// The 32-byte array that holds `bytes`.
pub(crate) fn to_array_32(bytes: &[u8]) -> (array: [u8; 32])
    requires
        bytes@.len() == 32,
    ensures
        array@ == bytes@,
{
    let mut array = [0u8; 32];
    let mut i: usize = 0;
    while i < 32
        invariant
            i <= 32 == bytes@.len(),
            forall|k: int| 0 <= k < i ==> array@[k] == bytes@[k],
        decreases 32 - i,
    {
        array[i] = bytes[i];
        i += 1;
    }
    assert(array@ =~= bytes@);
    array
}

/// The 16-byte array that holds `bytes`.
pub(crate) fn to_array_16(bytes: &[u8]) -> (array: [u8; 16])
    requires
        bytes@.len() == 16,
    ensures
        array@ == bytes@,
{
    let mut array = [0u8; 16];
    let mut i: usize = 0;
    while i < 16
        invariant
            i <= 16 == bytes@.len(),
            forall|k: int| 0 <= k < i ==> array@[k] == bytes@[k],
        decreases 16 - i,
    {
        array[i] = bytes[i];
        i += 1;
    }
    assert(array@ =~= bytes@);
    array
}

/// The big-endian bytes of `n`.
pub(crate) fn to_be_bytes(n: u64) -> (bytes: [u8; 8])
    ensures
        bytes@ == be_bytes(n),
{
    let bytes: [u8; 8] = [
        (n / 0x100_0000_0000_0000 % 0x100) as u8,
        (n / 0x1_0000_0000_0000 % 0x100) as u8,
        (n / 0x100_0000_0000 % 0x100) as u8,
        (n / 0x1_0000_0000 % 0x100) as u8,
        (n / 0x100_0000 % 0x100) as u8,
        (n / 0x1_0000 % 0x100) as u8,
        (n / 0x100 % 0x100) as u8,
        (n % 0x100) as u8,
    ];
    assert(bytes@ =~= be_bytes(n));
    bytes
}

/// The chunks of `data` one after the other, in one vector.
pub(crate) fn concat_chunks(data: &[&[u8]]) -> (joined: Vec<u8>)
    requires
        concat(data@).len() <= usize::MAX,
    ensures
        joined@ == concat(data@),
{
    let mut joined: Vec<u8> = Vec::new();
    let mut i: usize = 0;
    while i < data.len()
        invariant
            i <= data@.len(),
            concat(data@).len() <= usize::MAX,
            joined@ == concat(data@.take(i as int)),
        decreases data@.len() - i,
    {
        proof {
            assert(data@.take(i + 1).drop_last() =~= data@.take(i as int));
            lemma_concat_prefix_len(data@, i + 1);
        }
        append(&mut joined, data[i]);
        i += 1;
    }
    assert(data@.take(i as int) =~= data@);
    joined
}

/// A prefix of the chunks is no longer than all of them.
proof fn lemma_concat_prefix_len(data: Seq<&[u8]>, n: int)
    requires
        0 <= n <= data.len(),
    ensures
        concat(data.take(n)).len() <= concat(data).len(),
    decreases data.len() - n,
{
    if n < data.len() {
        assert(data.take(n + 1).drop_last() =~= data.take(n));
        lemma_concat_prefix_len(data, n + 1);
    } else {
        assert(data.take(n) =~= data);
    }
}

} // verus!
