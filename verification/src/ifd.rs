//! Entries of an image file directory: a tag, a field type, a number of values and their bytes.
use crate::bytes::{
    count32, law_longs_read_back, le16, le16_all, le32, le32_all, lemma_number_reads, low32,
    push_all, push_i32, push_u16, push_u32, read16, read32, twos_complement,
    u16_slice_to_le_bytes, write_padding, zeros,
};
use crate::tags::{
    TIFF_ASCII, TIFF_BYTE, TIFF_LONG, TIFF_RATIONAL, TIFF_SHORT, TIFF_SRATIONAL,
};
use vstd::prelude::*;

verus! {

/// One entry of an image file directory.
#[derive(Clone, Debug)]
pub struct IfdEntry {
    pub tag: u16,
    pub field_type: u16,
    pub count: u32,
    pub data: Vec<u8>,
}

/// What an entry says, with its values as a sequence of bytes.
#[verifier::ext_equal]
pub struct EntryView {
    pub tag: u16,
    pub field_type: u16,
    pub count: u32,
    pub data: Seq<u8>,
}

impl View for IfdEntry {
    type V = EntryView;

    open spec fn view(&self) -> EntryView {
        EntryView {
            tag: self.tag,
            field_type: self.field_type,
            count: self.count,
            data: self.data@,
        }
    }
}

/// What each of `entries` says.
pub open spec fn views(entries: Seq<IfdEntry>) -> Seq<EntryView> {
    Seq::new(entries.len(), |i: int| entries[i]@)
}

/// The number of bytes that one value of a field type takes; 0 for a type that is not written
/// here.
pub open spec fn value_size(field_type: u16) -> nat {
    if field_type == TIFF_BYTE || field_type == TIFF_ASCII {
        1
    } else if field_type == TIFF_SHORT {
        2
    } else if field_type == TIFF_LONG {
        4
    } else if field_type == TIFF_RATIONAL || field_type == TIFF_SRATIONAL {
        8
    } else {
        0
    }
}

impl EntryView {
    /// An entry of bytes.
    pub open spec fn byte(tag: u16, values: Seq<u8>) -> EntryView {
        EntryView { tag, field_type: TIFF_BYTE, count: low32(values.len()), data: values }
    }

    /// An entry of text, in UTF-8, that ends with a zero byte.
    pub open spec fn ascii(tag: u16, text: Seq<char>) -> EntryView {
        let data = zero_terminated(vstd::utf8::encode_utf8(text));
        EntryView { tag, field_type: TIFF_ASCII, count: low32(data.len()), data }
    }

    /// An entry of 16-bit numbers.
    pub open spec fn short(tag: u16, values: Seq<u16>) -> EntryView {
        EntryView {
            tag,
            field_type: TIFF_SHORT,
            count: low32(values.len()),
            data: le16_all(values),
        }
    }

    /// An entry of 32-bit numbers.
    pub open spec fn long(tag: u16, values: Seq<u32>) -> EntryView {
        EntryView {
            tag,
            field_type: TIFF_LONG,
            count: low32(values.len()),
            data: le32_all(values),
        }
    }

    /// An entry of fractions, each a numerator and a denominator.
    pub open spec fn rational(tag: u16, values: Seq<(u32, u32)>) -> EntryView {
        EntryView {
            tag,
            field_type: TIFF_RATIONAL,
            count: low32(values.len()),
            data: rational_bytes(values),
        }
    }

    /// An entry of signed fractions, each a numerator and a denominator.
    pub open spec fn srational(tag: u16, values: Seq<(i32, i32)>) -> EntryView {
        EntryView {
            tag,
            field_type: TIFF_SRATIONAL,
            count: low32(values.len()),
            data: srational_bytes(values),
        }
    }

    /// Whether the bytes are those of `count` values of the entry's field type.
    pub open spec fn well_formed(self) -> bool {
        self.data.len() == self.count * value_size(self.field_type)
    }

    /// Whether the bytes are too many for the four bytes that an entry has for its value.
    pub open spec fn is_external(self) -> bool {
        self.data.len() > 4
    }
}

/// `text` with a zero byte at its end.
pub open spec fn zero_terminated(text: Seq<u8>) -> Seq<u8> {
    if text.len() > 0 && text.last() == 0 {
        text
    } else {
        text.push(0)
    }
}

/// The bytes of fractions: numerator and denominator in turn.
pub open spec fn rational_bytes(values: Seq<(u32, u32)>) -> Seq<u8> {
    Seq::new(
        8 * values.len(),
        |k: int| (le32(values[k / 8].0) + le32(values[k / 8].1))[k % 8],
    )
}

/// The bytes of signed fractions: numerator and denominator in turn, in two's complement.
pub open spec fn srational_bytes(values: Seq<(i32, i32)>) -> Seq<u8> {
    Seq::new(
        8 * values.len(),
        |k: int|
            (le32(twos_complement(values[k / 8].0)) + le32(twos_complement(values[k / 8].1)))[k
                % 8],
    )
}

impl IfdEntry {
    /// An entry with the given parts.
    pub fn new(tag: u16, field_type: u16, count: u32, data: Vec<u8>) -> (entry: Self)
        ensures
            entry@ == (EntryView { tag, field_type, count, data: data@ }),
    {
        Self { tag, field_type, count, data }
    }

    /// An entry of bytes.
    pub fn byte(tag: u16, values: &[u8]) -> (entry: Self)
        ensures
            entry@ == EntryView::byte(tag, values@),
            values@.len() <= u32::MAX ==> entry@.well_formed(),
    {
        let mut data: Vec<u8> = Vec::new();
        push_all(&mut data, values);
        assert(data@ == values@);
        Self::new(tag, TIFF_BYTE, count32(values.len()), data)
    }

    /// An entry of text, which gets a zero byte at its end where it has none.
    pub fn ascii(tag: u16, value: &str) -> (entry: Self)
        ensures
            entry@ == EntryView::ascii(tag, value@),
            entry@.data.len() <= u32::MAX ==> entry@.well_formed(),
    {
        let text: &[u8] = value.as_bytes();
        let mut data: Vec<u8> = Vec::new();
        push_all(&mut data, text);
        assert(data@ == text@);
        if text.len() == 0 || text[text.len() - 1] != 0 {
            data.push(0);
        }
        let count: u32 = count32(data.len());
        Self::new(tag, TIFF_ASCII, count, data)
    }

    /// An entry of 16-bit numbers.
    pub fn short(tag: u16, values: &[u16]) -> (entry: Self)
        ensures
            entry@ == EntryView::short(tag, values@),
            values@.len() <= u32::MAX ==> entry@.well_formed(),
    {
        Self::new(tag, TIFF_SHORT, count32(values.len()), u16_slice_to_le_bytes(values))
    }

    /// An entry of 32-bit numbers.
    pub fn long(tag: u16, values: &[u32]) -> (entry: Self)
        ensures
            entry@ == EntryView::long(tag, values@),
            values@.len() <= u32::MAX ==> entry@.well_formed(),
    {
        let mut data: Vec<u8> = Vec::new();
        let mut i: usize = 0;
        while i < values.len()
            invariant
                i <= values.len(),
                data@ == le32_all(values@.take(i as int)),
            decreases values.len() - i,
        {
            push_u32(&mut data, values[i]);
            i += 1;
        }
        assert(values@.take(i as int) == values@);
        Self::new(tag, TIFF_LONG, count32(values.len()), data)
    }

    /// An entry of fractions, each a numerator and a denominator.
    pub fn rational(tag: u16, values: &[(u32, u32)]) -> (entry: Self)
        ensures
            entry@ == EntryView::rational(tag, values@),
            values@.len() <= u32::MAX ==> entry@.well_formed(),
    {
        let mut data: Vec<u8> = Vec::new();
        let mut i: usize = 0;
        while i < values.len()
            invariant
                i <= values.len(),
                data@ == rational_bytes(values@.take(i as int)),
            decreases values.len() - i,
        {
            push_u32(&mut data, values[i].0);
            push_u32(&mut data, values[i].1);
            i += 1;
        }
        assert(values@.take(i as int) == values@);
        Self::new(tag, TIFF_RATIONAL, count32(values.len()), data)
    }

    /// An entry of signed fractions, each a numerator and a denominator.
    pub fn srational(tag: u16, values: &[(i32, i32)]) -> (entry: Self)
        ensures
            entry@ == EntryView::srational(tag, values@),
            values@.len() <= u32::MAX ==> entry@.well_formed(),
    {
        let mut data: Vec<u8> = Vec::new();
        let mut i: usize = 0;
        while i < values.len()
            invariant
                i <= values.len(),
                data@ == srational_bytes(values@.take(i as int)),
            decreases values.len() - i,
        {
            push_i32(&mut data, values[i].0);
            push_i32(&mut data, values[i].1);
            i += 1;
        }
        assert(values@.take(i as int) == values@);
        Self::new(tag, TIFF_SRATIONAL, count32(values.len()), data)
    }
}

/// The twelve bytes of an entry in its directory: tag, field type and count, and then either the
/// values themselves, filled up with zeros, or the position in the file at which they stand.
pub open spec fn entry_row(entry: EntryView, data_offset: u32) -> Seq<u8> {
    le16(entry.tag) + le16(entry.field_type) + le32(entry.count) + (if entry.is_external() {
        le32(data_offset)
    } else {
        entry.data + zeros((4 - entry.data.len()) as nat)
    })
}

/// Appends the twelve bytes of `entry`. `data_offset` is where its values stand in the file; it
/// is written only where they do not fit in the entry itself.
pub fn write_ifd_entry(writer: &mut Vec<u8>, entry: &IfdEntry, data_offset: u32)
    ensures
        final(writer)@ == old(writer)@ + entry_row(entry@, data_offset),
{
    let ghost start = writer@;
    push_u16(writer, entry.tag);
    push_u16(writer, entry.field_type);
    push_u32(writer, entry.count);
    if entry.data.len() <= 4 {
        push_all(writer, &entry.data);
        write_padding(writer, 4 - entry.data.len());
    } else {
        push_u32(writer, data_offset);
    }
    assert(writer@ == start + entry_row(entry@, data_offset));
}

/// The numbers of an entry of 32-bit numbers are read back as they were given.
pub proof fn law_long_values_read_back(tag: u16, values: Seq<u32>, i: int)
    requires
        0 <= i < values.len(),
    ensures
        read32(EntryView::long(tag, values).data, 4 * i) == values[i],
{
    law_longs_read_back(values, i);
}

/// The numbers of an entry of 16-bit numbers are read back as they were given.
pub proof fn law_short_values_read_back(tag: u16, values: Seq<u16>, i: int)
    requires
        0 <= i < values.len(),
    ensures
        read16(EntryView::short(tag, values).data, 2 * i) == values[i],
{
}

/// Two numbers that stand one behind the other are read back.
pub(crate) proof fn lemma_pair_reads(bytes: Seq<u8>, at: int, first: u32, second: u32)
    requires
        0 <= at <= bytes.len() - 8,
        bytes.subrange(at, at + 8) == le32(first) + le32(second),
    ensures
        read32(bytes, at) == first,
        read32(bytes, at + 4) == second,
{
    let pair = le32(first) + le32(second);
    let found = bytes.subrange(at, at + 8);
    assert(found.subrange(0, 4) == pair.subrange(0, 4));
    assert(found.subrange(4, 8) == pair.subrange(4, 8));
    assert(pair.subrange(0, 4) == le32(first));
    assert(pair.subrange(4, 8) == le32(second));
    assert(bytes.subrange(at, at + 4) == found.subrange(0, 4));
    assert(bytes.subrange(at + 4, at + 8) == found.subrange(4, 8));
    lemma_number_reads(bytes, at, first);
    lemma_number_reads(bytes, at + 4, second);
}

/// The bytes of one fraction among those of many.
pub(crate) proof fn lemma_rational_part(values: Seq<(u32, u32)>, i: int)
    requires
        0 <= i < values.len(),
    ensures
        rational_bytes(values).len() == 8 * values.len(),
        rational_bytes(values).subrange(8 * i, 8 * i + 8) == le32(values[i].0) + le32(values[i].1),
{
    let data = rational_bytes(values);
    let pair = le32(values[i].0) + le32(values[i].1);
    assert forall|c: int| 0 <= c < 8 implies #[trigger] data.subrange(8 * i, 8 * i + 8)[c]
        == pair[c] by {
        assert((8 * i + c) / 8 == i && (8 * i + c) % 8 == c);
    }
    assert(data.subrange(8 * i, 8 * i + 8) == pair);
}

/// The numerators and denominators of an entry of fractions are read back as they were given.
pub proof fn law_rational_values_read_back(tag: u16, values: Seq<(u32, u32)>, i: int)
    requires
        0 <= i < values.len(),
    ensures
        read32(EntryView::rational(tag, values).data, 8 * i) == values[i].0,
        read32(EntryView::rational(tag, values).data, 8 * i + 4) == values[i].1,
{
    lemma_rational_part(values, i);
    lemma_pair_reads(rational_bytes(values), 8 * i, values[i].0, values[i].1);
}

/// The bytes of one fraction among those of many.
pub(crate) proof fn lemma_srational_part(values: Seq<(i32, i32)>, i: int)
    requires
        0 <= i < values.len(),
    ensures
        srational_bytes(values).len() == 8 * values.len(),
        srational_bytes(values).subrange(8 * i, 8 * i + 8) == le32(twos_complement(values[i].0))
            + le32(twos_complement(values[i].1)),
{
    let data = srational_bytes(values);
    let pair = le32(twos_complement(values[i].0)) + le32(twos_complement(values[i].1));
    assert forall|c: int| 0 <= c < 8 implies #[trigger] data.subrange(8 * i, 8 * i + 8)[c]
        == pair[c] by {
        assert((8 * i + c) / 8 == i && (8 * i + c) % 8 == c);
    }
    assert(data.subrange(8 * i, 8 * i + 8) == pair);
}

/// The numerators and denominators of an entry of signed fractions are read back, in two's
/// complement, as they were given.
pub proof fn law_srational_values_read_back(tag: u16, values: Seq<(i32, i32)>, i: int)
    requires
        0 <= i < values.len(),
    ensures
        read32(EntryView::srational(tag, values).data, 8 * i) == twos_complement(values[i].0),
        read32(EntryView::srational(tag, values).data, 8 * i + 4) == twos_complement(values[i].1),
{
    lemma_srational_part(values, i);
    let first = twos_complement(values[i].0);
    let second = twos_complement(values[i].1);
    lemma_pair_reads(srational_bytes(values), 8 * i, first, second);
}

/// An entry of bytes has its tag, the field type 1, 1 byte for each value, and as
/// many values as were given; of that number, 32 bits are kept.
pub proof fn law_byte_entry(tag: u16, values: Seq<u8>)
    ensures
        EntryView::byte(tag, values).tag == tag,
        EntryView::byte(tag, values).field_type == 1,
        values.len() <= u32::MAX ==> EntryView::byte(tag, values).count == values.len(),
        (values.len() - EntryView::byte(tag, values).count) % 0x1_0000_0000 == 0,
        EntryView::byte(tag, values).data.len() == values.len(),
        EntryView::byte(tag, values).data == values,
{
}

/// An entry of 16-bit numbers has its tag, the field type 3, 2 bytes for each value, and as
/// many values as were given; of that number, 32 bits are kept.
pub proof fn law_short_entry(tag: u16, values: Seq<u16>)
    ensures
        EntryView::short(tag, values).tag == tag,
        EntryView::short(tag, values).field_type == 3,
        values.len() <= u32::MAX ==> EntryView::short(tag, values).count == values.len(),
        (values.len() - EntryView::short(tag, values).count) % 0x1_0000_0000 == 0,
        EntryView::short(tag, values).data.len() == 2 * values.len(),
{
}

/// An entry of 32-bit numbers has its tag, the field type 4, 4 bytes for each value, and as
/// many values as were given; of that number, 32 bits are kept.
pub proof fn law_long_entry(tag: u16, values: Seq<u32>)
    ensures
        EntryView::long(tag, values).tag == tag,
        EntryView::long(tag, values).field_type == 4,
        values.len() <= u32::MAX ==> EntryView::long(tag, values).count == values.len(),
        (values.len() - EntryView::long(tag, values).count) % 0x1_0000_0000 == 0,
        EntryView::long(tag, values).data.len() == 4 * values.len(),
{
}

/// An entry of fractions has its tag, the field type 5, 8 bytes for each value, and as
/// many values as were given; of that number, 32 bits are kept.
pub proof fn law_rational_entry(tag: u16, values: Seq<(u32, u32)>)
    ensures
        EntryView::rational(tag, values).tag == tag,
        EntryView::rational(tag, values).field_type == 5,
        values.len() <= u32::MAX ==> EntryView::rational(tag, values).count == values.len(),
        (values.len() - EntryView::rational(tag, values).count) % 0x1_0000_0000 == 0,
        EntryView::rational(tag, values).data.len() == 8 * values.len(),
{
}

/// An entry of signed fractions has its tag, the field type 10, 8 bytes for each value, and as
/// many values as were given; of that number, 32 bits are kept.
pub proof fn law_srational_entry(tag: u16, values: Seq<(i32, i32)>)
    ensures
        EntryView::srational(tag, values).tag == tag,
        EntryView::srational(tag, values).field_type == 10,
        values.len() <= u32::MAX ==> EntryView::srational(tag, values).count == values.len(),
        (values.len() - EntryView::srational(tag, values).count) % 0x1_0000_0000 == 0,
        EntryView::srational(tag, values).data.len() == 8 * values.len(),
{
}

/// An entry of text has the tag it was made with, the field type 2 and one value for each byte. Its
/// bytes are those of the text, and the last of them is zero: one more byte than the text has,
/// unless the text ends with a zero byte itself.
pub proof fn law_ascii_entry(tag: u16, text: Seq<char>)
    ensures
        ({
            let entry = EntryView::ascii(tag, text);
            let bytes = vstd::utf8::encode_utf8(text);
            &&& entry.tag == tag
            &&& entry.field_type == 2
            &&& entry.data.len() <= u32::MAX ==> entry.count == entry.data.len()
            &&& (entry.data.len() - entry.count) % 0x1_0000_0000 == 0
            &&& entry.data.len() > 0
            &&& entry.data.last() == 0
            &&& bytes.len() <= entry.data.len() <= bytes.len() + 1
            &&& entry.data.take(bytes.len() as int) == bytes
            &&& entry.data.len() == bytes.len() <==> bytes.len() > 0 && bytes.last() == 0
        }),
{
}

/// Values stand in their entry where four bytes can hold them, and elsewhere where not.
pub proof fn law_is_external(entry: EntryView)
    ensures
        entry.is_external() <==> entry.data.len() > 4,
{
}

} // verus!
