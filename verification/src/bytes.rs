//! Little-endian numbers in byte sequences, and the alignment and padding that go with them.
use vstd::prelude::*;

verus! {

/// The two bytes of `value`, least significant first.
pub open spec fn le16(value: u16) -> Seq<u8> {
    seq![(value % 256) as u8, (value / 256) as u8]
}

/// The four bytes of `value`, least significant first.
pub open spec fn le32(value: u32) -> Seq<u8> {
    seq![
        (value % 256) as u8,
        (value / 0x100 % 256) as u8,
        (value / 0x1_0000 % 256) as u8,
        (value / 0x100_0000) as u8,
    ]
}

/// The unsigned number with the same 32 bits as `value` in two's complement.
pub open spec fn twos_complement(value: i32) -> u32 {
    if value >= 0 {
        value as u32
    } else {
        (value + 0x1_0000_0000) as u32
    }
}

/// The 16-bit number that stands at position `at`, least significant byte first.
pub open spec fn read16(bytes: Seq<u8>, at: int) -> int {
    bytes[at] + 0x100 * bytes[at + 1]
}

/// The 32-bit number that stands at position `at`, least significant byte first.
pub open spec fn read32(bytes: Seq<u8>, at: int) -> int {
    bytes[at] + 0x100 * bytes[at + 1] + 0x1_0000 * bytes[at + 2] + 0x100_0000 * bytes[at + 3]
}

/// The two-byte encodings of `values`, one after the other.
pub open spec fn le16_all(values: Seq<u16>) -> Seq<u8> {
    Seq::new(2 * values.len(), |k: int| le16(values[k / 2])[k % 2])
}

/// The four-byte encodings of `values`, one after the other.
pub open spec fn le32_all(values: Seq<u32>) -> Seq<u8> {
    Seq::new(4 * values.len(), |k: int| le32(values[k / 4])[k % 4])
}

/// `count` zero bytes.
pub open spec fn zeros(count: nat) -> Seq<u8> {
    Seq::new(count, |k: int| 0u8)
}

/// The smallest even number that is not below `value`.
pub open spec fn even(value: int) -> int {
    if value % 2 == 0 {
        value
    } else {
        value + 1
    }
}

/// What is left of a length when only its low 32 bits are kept.
pub open spec fn low32(len: nat) -> u32 {
    (len % 0x1_0000_0000) as u32
}

/// The low 32 bits of a length.
pub(crate) fn count32(len: usize) -> (count: u32)
    ensures
        count == low32(len as nat),
{
    let wide: u64 = len as u64;
    assert(wide as u32 == wide % 0x1_0000_0000) by (bit_vector);
    #[verifier::truncate]
    let count: u32 = wide as u32;
    count
}

/// Appends the two bytes of `value`.
pub fn push_u16(writer: &mut Vec<u8>, value: u16)
    ensures
        final(writer)@ == old(writer)@ + le16(value),
{
    writer.push((value % 256) as u8);
    writer.push((value / 256) as u8);
}

/// Appends the four bytes of `value`.
pub fn push_u32(writer: &mut Vec<u8>, value: u32)
    ensures
        final(writer)@ == old(writer)@ + le32(value),
{
    writer.push((value % 256) as u8);
    writer.push((value / 0x100 % 256) as u8);
    writer.push((value / 0x1_0000 % 256) as u8);
    writer.push((value / 0x100_0000) as u8);
}

/// Appends the four bytes of `value` in two's complement.
pub fn push_i32(writer: &mut Vec<u8>, value: i32)
    ensures
        final(writer)@ == old(writer)@ + le32(twos_complement(value)),
{
    assert(value < 0 ==> value as u32 == value + 0x1_0000_0000) by (bit_vector);
    #[verifier::truncate]
    let bits: u32 = value as u32;
    push_u32(writer, bits);
}

/// Appends all of `data`.
pub fn push_all(writer: &mut Vec<u8>, data: &[u8])
    ensures
        final(writer)@ == old(writer)@ + data@,
{
    writer.extend_from_slice(data);
}

/// The bytes of `values`, two for each, least significant first.
pub fn u16_slice_to_le_bytes(values: &[u16]) -> (bytes: Vec<u8>)
    ensures
        bytes@ == le16_all(values@),
{
    let mut bytes: Vec<u8> = Vec::new();
    let mut i: usize = 0;
    while i < values.len()
        invariant
            i <= values.len(),
            bytes@ == le16_all(values@.take(i as int)),
        decreases values.len() - i,
    {
        push_u16(&mut bytes, values[i]);
        i += 1;
    }
    assert(values@.take(i as int) == values@);
    bytes
}

/// Rounds `value` up to an even number.
pub fn align_even(value: u32) -> (aligned: u32)
    requires
        value < u32::MAX,
    ensures
        aligned == even(value as int),
{
    let next: u32 = value + 1;
    assert(next & !1u32 == next - next % 2) by (bit_vector);
    next & !1
}

/// Appends `count` zero bytes.
pub fn write_padding(writer: &mut Vec<u8>, count: usize)
    ensures
        final(writer)@ == old(writer)@ + zeros(count as nat),
{
    let ghost start = writer@;
    let mut written: usize = 0;
    while written < count
        invariant
            written <= count,
            writer@ == start + zeros(written as nat),
        decreases count - written,
    {
        writer.push(0);
        written += 1;
    }
}

/// A 16-bit number is read back as it was written.
pub proof fn law_read16_inverts_le16(before: Seq<u8>, value: u16, after: Seq<u8>)
    ensures
        le16(value).len() == 2,
        read16(before + le16(value) + after, before.len() as int) == value,
{
}

/// A 32-bit number is read back as it was written.
pub proof fn law_read32_inverts_le32(before: Seq<u8>, value: u32, after: Seq<u8>)
    ensures
        le32(value).len() == 4,
        read32(before + le32(value) + after, before.len() as int) == value,
{
}

/// Every sample stands, at twice its index, in the bytes of a list of samples, and the bytes
/// hold nothing else.
pub proof fn law_samples_read_back(values: Seq<u16>, i: int)
    requires
        0 <= i < values.len(),
    ensures
        le16_all(values).len() == 2 * values.len(),
        read16(le16_all(values), 2 * i) == values[i],
{
}

/// Two lists of samples with the same bytes are the same list.
pub proof fn law_sample_bytes_injective(a: Seq<u16>, b: Seq<u16>)
    requires
        le16_all(a) == le16_all(b),
    ensures
        a == b,
{
    assert(le16_all(a).len() == 2 * a.len());
    assert(le16_all(b).len() == 2 * b.len());
    assert forall|i: int| 0 <= i < a.len() implies a[i] == b[i] by {
        law_samples_read_back(a, i);
        law_samples_read_back(b, i);
    }
}

/// An aligned number is even, is at most one above the number it came from and never below it,
/// and is left as it is by another alignment.
pub proof fn law_even(value: int)
    ensures
        even(value) % 2 == 0,
        value <= even(value) <= value + 1,
        even(even(value)) == even(value),
{
}

/// The 32 bits of a negative number are those of the number itself, counted up from 2^32; a number
/// that is not negative keeps its value.
pub proof fn law_twos_complement(value: i32)
    ensures
        value >= 0 ==> twos_complement(value) == value,
        value < 0 ==> twos_complement(value) - value == 0x1_0000_0000,
        value < 0 <==> twos_complement(value) >= 0x8000_0000,
{
}

/// Padding has as many bytes as were asked for, and all of them are zero.
pub proof fn law_zeros(count: nat)
    ensures
        zeros(count).len() == count,
        forall|k: int| 0 <= k < count ==> #[trigger] zeros(count)[k] == 0,
{
}

/// A length that 32 bits can hold is kept, and any other one loses a multiple of 2^32.
pub proof fn law_low32(len: nat)
    ensures
        len <= u32::MAX ==> low32(len) == len,
        low32(len) <= len,
        (len - low32(len)) % 0x1_0000_0000 == 0,
{
}

/// The bytes of one number among those of many.
pub(crate) proof fn lemma_long_part(values: Seq<u32>, i: int)
    requires
        0 <= i < values.len(),
    ensures
        le32_all(values).len() == 4 * values.len(),
        le32_all(values).subrange(4 * i, 4 * i + 4) == le32(values[i]),
{
    let found = le32_all(values).subrange(4 * i, 4 * i + 4);
    assert forall|c: int| 0 <= c < 4 implies #[trigger] found[c] == le32(values[i])[c] by {
        assert((4 * i + c) / 4 == i && (4 * i + c) % 4 == c);
    }
    assert(found == le32(values[i]));
}

/// Every 32-bit number stands, at four times its index, in the bytes of a list of such numbers,
/// and the bytes hold nothing else.
pub proof fn law_longs_read_back(values: Seq<u32>, i: int)
    requires
        0 <= i < values.len(),
    ensures
        le32_all(values).len() == 4 * values.len(),
        read32(le32_all(values), 4 * i) == values[i],
{
    lemma_long_part(values, i);
    lemma_number_reads(le32_all(values), 4 * i, values[i]);
}

proof fn lemma_read32_moved(a: Seq<u8>, i: int, b: Seq<u8>, j: int)
    requires
        a[i] == b[j],
        a[i + 1] == b[j + 1],
        a[i + 2] == b[j + 2],
        a[i + 3] == b[j + 3],
    ensures
        read32(a, i) == read32(b, j),
{
}

/// The four bytes of a number are read as that number wherever they stand.
pub(crate) proof fn lemma_number_reads(bytes: Seq<u8>, at: int, value: u32)
    requires
        0 <= at <= bytes.len() - 4,
        bytes.subrange(at, at + 4) == le32(value),
    ensures
        read32(bytes, at) == value,
{
    let found = bytes.subrange(at, at + 4);
    lemma_four_bytes(value);
    lemma_read32_moved(bytes, at, found, 0);
}

proof fn lemma_four_bytes(value: u32)
    ensures
        read32(le32(value), 0) == value,
{
    law_read32_inverts_le32(Seq::empty(), value, Seq::empty());
    assert(Seq::<u8>::empty() + le32(value) + Seq::<u8>::empty() == le32(value));
}

} // verus!
