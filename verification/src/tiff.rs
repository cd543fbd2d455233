//! A little-endian TIFF file with one directory and one strip of pixels: where everything in it
//! stands, and its bytes.
use crate::bytes::{
    align_even, even, le16, le32, push_all, push_u16, push_u32, read16, read32, write_padding,
    zeros,
};
use crate::error::DngError;
use crate::ifd::{entry_row, views, write_ifd_entry, EntryView, IfdEntry};
use vstd::prelude::*;

verus! {

/// The length of the file header, behind which the directory stands.
pub const TIFF_HEADER_SIZE: u32 = 8;

/// The number that marks a TIFF file.
pub const TIFF_MAGIC: u16 = 42;

/// The position behind a directory with `count` entries: two bytes for their number, twelve for
/// each, and four for the position of a next directory.
pub open spec fn data_start(count: nat) -> int {
    even(TIFF_HEADER_SIZE + 2 + 12 * count + 4)
}

/// The first position that is free once the values of the first `n` entries have been placed.
/// Values that fit in their entry take no room; others are placed one after the other, each at an
/// even position.
pub open spec fn offset_before(entries: Seq<EntryView>, n: int) -> int
    decreases n,
{
    if n <= 0 {
        data_start(entries.len())
    } else {
        let start = offset_before(entries, n - 1);
        if entries[n - 1].is_external() {
            even(start + entries[n - 1].data.len())
        } else {
            start
        }
    }
}

/// The position of the pixels, behind the values of all entries.
pub open spec fn strip_position(entries: Seq<EntryView>) -> int {
    offset_before(entries, entries.len() as int)
}

/// The position of an entry's values, or 0 for values that stand in the entry itself.
pub open spec fn data_offset(entries: Seq<EntryView>, i: int) -> int {
    if entries[i].is_external() {
        offset_before(entries, i)
    } else {
        0
    }
}

/// The eight bytes at the start of the file: the byte order, the mark of a TIFF file, and the
/// position of the directory.
pub open spec fn header() -> Seq<u8> {
    seq![0x49u8, 0x49u8] + le16(TIFF_MAGIC) + le32(TIFF_HEADER_SIZE)
}

/// The bytes of the first `n` entries in the directory.
pub open spec fn rows(entries: Seq<EntryView>, n: int) -> Seq<u8>
    decreases n,
{
    if n <= 0 {
        Seq::empty()
    } else {
        rows(entries, n - 1) + entry_row(entries[n - 1], data_offset(entries, n - 1) as u32)
    }
}

/// The bytes of the directory: how many entries it has, the entries, and that none follows.
pub open spec fn directory(entries: Seq<EntryView>) -> Seq<u8> {
    le16(entries.len() as u16) + rows(entries, entries.len() as int) + le32(0)
}

/// `data` with a zero byte behind it where its length is odd.
pub open spec fn padded(data: Seq<u8>) -> Seq<u8> {
    if data.len() % 2 == 0 {
        data
    } else {
        data.push(0)
    }
}

/// The values of those of the first `n` entries that do not hold them themselves.
pub open spec fn data_area(entries: Seq<EntryView>, n: int) -> Seq<u8>
    decreases n,
{
    if n <= 0 {
        Seq::empty()
    } else if entries[n - 1].is_external() {
        data_area(entries, n - 1) + padded(entries[n - 1].data)
    } else {
        data_area(entries, n - 1)
    }
}

/// The whole file.
pub open spec fn tiff_file(entries: Seq<EntryView>, strip: Seq<u8>) -> Seq<u8> {
    header() + directory(entries) + data_area(entries, entries.len() as int) + strip
}

/// Where the values of a directory and the pixels go.
#[derive(Debug)]
pub struct DataPlan {
    /// The position of each entry's values, or 0 for values that stand in the entry itself.
    pub offsets: Vec<u32>,
    /// The position of the pixels.
    pub strip_offset: u32,
}

impl DataPlan {
    /// Whether this is where the values of `entries`, and the pixels behind them, go.
    pub open spec fn places(self, entries: Seq<EntryView>) -> bool {
        &&& self.offsets@.len() == entries.len()
        &&& forall|i: int|
            0 <= i < entries.len() ==> #[trigger] self.offsets@[i] == data_offset(entries, i)
        &&& self.strip_offset == strip_position(entries)
    }
}

/// The number of entries as the directory writes it.
pub fn entry_count_field(count: usize) -> (field: Result<u16, DngError>)
    ensures
        match field {
            Ok(n) => count <= u16::MAX && n == count,
            Err(error) => count > u16::MAX && error is TooManyEntries,
        },
{
    if count > u16::MAX as usize {
        Err(DngError::TooManyEntries)
    } else {
        Ok(count as u16)
    }
}

/// The first free position behind `data_len` bytes that are placed at `offset`.
pub fn advance_offset(offset: u32, data_len: u32) -> (next: Result<u32, DngError>)
    requires
        offset + data_len != u32::MAX,
    ensures
        match next {
            Ok(n) => offset + data_len < u32::MAX && n == even(offset + data_len),
            Err(error) => offset + data_len > u32::MAX && error is OffsetOverflow,
        },
{
    match offset.checked_add(data_len) {
        Some(end) => Ok(align_even(end)),
        None => Err(DngError::OffsetOverflow),
    }
}

proof fn lemma_offsets_grow(entries: Seq<EntryView>, i: int, j: int)
    requires
        0 <= i <= j,
    ensures
        data_start(entries.len()) <= offset_before(entries, i) <= offset_before(entries, j),
        offset_before(entries, i) % 2 == 0,
    decreases j,
{
    if j > i {
        lemma_offsets_grow(entries, i, j - 1);
    } else if i > 0 {
        lemma_offsets_grow(entries, i - 1, i - 1);
    }
}

/// Where values are placed depends only on how many bytes they have.
pub(crate) proof fn lemma_same_sizes(a: Seq<EntryView>, b: Seq<EntryView>, n: int)
    requires
        a.len() == b.len(),
        0 <= n <= a.len(),
        forall|i: int|
            #![trigger a[i]]
            #![trigger b[i]]
            0 <= i < a.len() ==> a[i].data.len() == b[i].data.len(),
    ensures
        offset_before(a, n) == offset_before(b, n),
    decreases n,
{
    if n > 0 {
        lemma_same_sizes(a, b, n - 1);
        assert(a[n - 1].data.len() == b[n - 1].data.len());
    }
}

/// Values of at most `most` bytes each take at most that much room, and one byte to make it even.
pub(crate) proof fn lemma_offset_bound(entries: Seq<EntryView>, most: nat, n: int)
    requires
        0 <= n <= entries.len(),
        forall|i: int| 0 <= i < entries.len() ==> (#[trigger] entries[i]).data.len() <= most,
    ensures
        offset_before(entries, n) <= data_start(entries.len()) + n * (most + 1),
    decreases n,
{
    if n > 0 {
        lemma_offset_bound(entries, most, n - 1);
        assert(entries[n - 1].data.len() <= most);
        assert(n * (most + 1) == (n - 1) * (most + 1) + (most + 1)) by (nonlinear_arith);
    }
}

/// Places the values of `entries` and the pixels.
pub fn plan_offsets(entries: &Vec<IfdEntry>) -> (plan: Result<DataPlan, DngError>)
    requires
        forall|i: int| 0 <= i < entries@.len() ==> (#[trigger] entries@[i]).data@.len() <= u32::MAX,
        forall|i: int|
            0 <= i < entries@.len() && (#[trigger] entries@[i])@.is_external() ==> offset_before(
                views(entries@),
                i,
            ) + entries@[i].data@.len() != u32::MAX,
    ensures
        match plan {
            Ok(p) => {
                &&& entries@.len() <= u16::MAX
                &&& strip_position(views(entries@)) <= u32::MAX
                &&& p.places(views(entries@))
            },
            Err(DngError::TooManyEntries) => entries@.len() > u16::MAX,
            Err(error) => {
                &&& error is OffsetOverflow
                &&& entries@.len() <= u16::MAX
                &&& strip_position(views(entries@)) > u32::MAX
            },
        },
{
    let ghost all = views(entries@);
    let count: u16 = entry_count_field(entries.len())?;
    let directory_size: u32 = 2 + count as u32 * 12 + 4;
    let mut next: u32 = align_even(TIFF_HEADER_SIZE + directory_size);
    let mut offsets: Vec<u32> = Vec::new();
    let mut i: usize = 0;
    while i < entries.len()
        invariant
            i <= entries.len(),
            entries@.len() <= u16::MAX,
            all == views(entries@),
            forall|k: int|
                0 <= k < entries@.len() ==> (#[trigger] entries@[k]).data@.len() <= u32::MAX,
            forall|k: int|
                0 <= k < entries@.len() && (#[trigger] entries@[k])@.is_external()
                    ==> offset_before(all, k) + entries@[k].data@.len() != u32::MAX,
            next == offset_before(all, i as int),
            offsets@.len() == i,
            forall|k: int| 0 <= k < i ==> #[trigger] offsets@[k] == data_offset(all, k),
        decreases entries.len() - i,
    {
        assert(all[i as int] == entries@[i as int]@);
        let len: usize = entries[i].data.len();
        proof {
            lemma_offsets_grow(all, i + 1, all.len() as int);
        }
        if len > 4 {
            offsets.push(next);
            next = advance_offset(next, len as u32)?;
        } else {
            offsets.push(0);
        }
        i += 1;
    }
    proof {
        lemma_offsets_grow(all, i as int, i as int);
    }
    Ok(DataPlan { offsets, strip_offset: align_even(next) })
}

/// The bytes of the file: the header, the directory, the values that the directory points to,
/// and the pixels.
pub fn tiff_bytes(entries: &Vec<IfdEntry>, plan: &DataPlan, strip: &[u8]) -> (file: Vec<u8>)
    requires
        entries@.len() <= u16::MAX,
        plan.places(views(entries@)),
    ensures
        file@ == tiff_file(views(entries@), strip@),
{
    let ghost all = views(entries@);
    let ghost n = all.len() as int;
    let mut file: Vec<u8> = Vec::new();
    file.push(0x49);
    file.push(0x49);
    push_u16(&mut file, TIFF_MAGIC);
    push_u32(&mut file, TIFF_HEADER_SIZE);
    assert(file@ == header());

    push_u16(&mut file, entries.len() as u16);
    let ghost prefix = header() + le16(n as u16);
    assert(file@ == prefix + rows(all, 0));
    let mut i: usize = 0;
    while i < entries.len()
        invariant
            i <= entries.len(),
            all == views(entries@),
            plan.places(all),
            file@ == prefix + rows(all, i as int),
        decreases entries.len() - i,
    {
        write_ifd_entry(&mut file, &entries[i], plan.offsets[i]);
        i += 1;
        assert(all[i - 1] == entries@[i - 1]@);
        assert(plan.offsets@[i - 1] == data_offset(all, i - 1));
        assert(file@ == prefix + rows(all, i as int));
    }
    push_u32(&mut file, 0);
    assert(file@ == header() + directory(all));

    let ghost front = header() + directory(all);
    assert(file@ == front + data_area(all, 0));
    let mut k: usize = 0;
    while k < entries.len()
        invariant
            k <= entries.len(),
            all == views(entries@),
            file@ == front + data_area(all, k as int),
        decreases entries.len() - k,
    {
        assert(all[k as int] == entries@[k as int]@);
        if entries[k].data.len() > 4 {
            push_all(&mut file, &entries[k].data);
            if entries[k].data.len() % 2 != 0 {
                write_padding(&mut file, 1);
            }
        }
        k += 1;
        assert(file@ == front + data_area(all, k as int));
    }
    push_all(&mut file, strip);
    file
}

proof fn lemma_rows(entries: Seq<EntryView>, i: int, n: int)
    requires
        0 <= i < n <= entries.len(),
    ensures
        rows(entries, n).len() == 12 * n,
        rows(entries, n).subrange(12 * i, 12 * i + 12) == entry_row(
            entries[i],
            data_offset(entries, i) as u32,
        ),
    decreases n,
{
    let last = entry_row(entries[n - 1], data_offset(entries, n - 1) as u32);
    assert(last.len() == 12);
    if n > 1 {
        lemma_rows(entries, if i < n - 1 { i } else { 0 }, n - 1);
    }
    if i < n - 1 {
        assert(rows(entries, n).subrange(12 * i, 12 * i + 12) == rows(entries, n - 1).subrange(
            12 * i,
            12 * i + 12,
        ));
    } else {
        assert(rows(entries, n).subrange(12 * i, 12 * i + 12) == last);
    }
}

proof fn lemma_data_area_len(entries: Seq<EntryView>, n: int)
    requires
        0 <= n <= entries.len(),
    ensures
        data_area(entries, n).len() == offset_before(entries, n) - data_start(entries.len()),
    decreases n,
{
    if n > 0 {
        lemma_data_area_len(entries, n - 1);
        lemma_offsets_grow(entries, n - 1, n - 1);
    }
}

proof fn lemma_data_area(entries: Seq<EntryView>, i: int, n: int)
    requires
        0 <= i < n <= entries.len(),
        entries[i].is_external(),
    ensures
        offset_before(entries, i) + entries[i].data.len() <= offset_before(entries, n),
        ({
            let at = offset_before(entries, i) - data_start(entries.len());
            data_area(entries, n).subrange(at, at + entries[i].data.len()) == entries[i].data
        }),
    decreases n,
{
    let at = offset_before(entries, i) - data_start(entries.len());
    let end = at + entries[i].data.len();
    lemma_data_area_len(entries, n - 1);
    lemma_data_area_len(entries, n);
    lemma_offsets_grow(entries, i, n - 1);
    if i < n - 1 {
        lemma_data_area(entries, i, n - 1);
        assert(data_area(entries, n).subrange(at, end) == data_area(entries, n - 1).subrange(
            at,
            end,
        ));
    } else {
        assert(data_area(entries, n).subrange(at, end) == entries[i].data);
    }
}

proof fn lemma_parts(entries: Seq<EntryView>, strip: Seq<u8>)
    ensures
        header().len() == 8,
        directory(entries).len() == 2 + 12 * entries.len() + 4,
        data_area(entries, entries.len() as int).len() == strip_position(entries) - data_start(
            entries.len(),
        ),
        data_start(entries.len()) == 14 + 12 * entries.len(),
        tiff_file(entries, strip).len() == strip_position(entries) + strip.len(),
{
    if entries.len() > 0 {
        lemma_rows(entries, 0, entries.len() as int);
    }
    lemma_data_area_len(entries, entries.len() as int);
}

/// A file starts with the marks of a little-endian TIFF file and the position of its directory,
/// and the directory says how many entries it has and that no other one follows.
pub proof fn law_header_reads_back(entries: Seq<EntryView>, strip: Seq<u8>)
    requires
        entries.len() <= u16::MAX,
    ensures
        ({
            let file = tiff_file(entries, strip);
            &&& file[0] == 'I' as u8
            &&& file[1] == 'I' as u8
            &&& read16(file, 2) == 42
            &&& read32(file, 4) == 8
            &&& read16(file, 8) == entries.len()
            &&& read32(file, 10int + 12 * entries.len()) == 0
        }),
{
    lemma_parts(entries, strip);
    let file = tiff_file(entries, strip);
    let n = entries.len() as int;
    let d = directory(entries);
    assert forall|k: int| 0 <= k < 8 implies file[k] == header()[k] by {}
    assert forall|k: int| 0 <= k < d.len() implies #[trigger] d[k] == file[8 + k] by {}
    assert(d[0] == le16(n as u16)[0] && d[1] == le16(n as u16)[1]);
    assert(d[2 + 12 * n] == le32(0)[0]);
    assert(d[2 + 12 * n + 1] == le32(0)[1]);
    assert(d[2 + 12 * n + 2] == le32(0)[2]);
    assert(d[2 + 12 * n + 3] == le32(0)[3]);
}

proof fn lemma_row_in_file(entries: Seq<EntryView>, strip: Seq<u8>, i: int)
    requires
        0 <= i < entries.len(),
    ensures
        ({
            let row = TIFF_HEADER_SIZE + 2 + 12 * i;
            &&& row + 12 <= tiff_file(entries, strip).len()
            &&& tiff_file(entries, strip).subrange(row, row + 12) == entry_row(
                entries[i],
                data_offset(entries, i) as u32,
            )
        }),
{
    let n = entries.len() as int;
    let row = TIFF_HEADER_SIZE + 2 + 12 * i;
    lemma_parts(entries, strip);
    lemma_rows(entries, i, n);
    lemma_offsets_grow(entries, i, n);
    assert(tiff_file(entries, strip).subrange(row, row + 12) == rows(entries, n).subrange(
        12 * i,
        12 * i + 12,
    ));
}

proof fn lemma_data_in_file(entries: Seq<EntryView>, strip: Seq<u8>, i: int)
    requires
        0 <= i < entries.len(),
        entries[i].is_external(),
    ensures
        ({
            let at = offset_before(entries, i);
            let len = entries[i].data.len();
            &&& at + len <= strip_position(entries)
            &&& tiff_file(entries, strip).subrange(at, at + len) == entries[i].data
        }),
{
    let n = entries.len() as int;
    let start = data_start(entries.len());
    let at = offset_before(entries, i);
    let len = entries[i].data.len();
    lemma_parts(entries, strip);
    lemma_offsets_grow(entries, i, n);
    lemma_data_area(entries, i, n);
    assert(tiff_file(entries, strip).subrange(at, at + len) == data_area(entries, n).subrange(
        at - start,
        at - start + len,
    ));
}

/// The row of an entry has twelve bytes, from which its tag, its field type, its count, and either
/// its values or their position are read back.
pub proof fn law_row_reads_back(entry: EntryView, offset: u32)
    ensures
        ({
            let row = entry_row(entry, offset);
            let len = entry.data.len() as int;
            &&& row.len() == 12
            &&& read16(row, 0) == entry.tag
            &&& read16(row, 2) == entry.field_type
            &&& read32(row, 4) == entry.count
            &&& !entry.is_external() ==> row.subrange(8, 8 + len) == entry.data && row.subrange(
                8 + len,
                12,
            ) == zeros((4 - len) as nat)
            &&& entry.is_external() ==> read32(row, 8) == offset
        }),
{
    let row = entry_row(entry, offset);
    let head = le16(entry.tag) + le16(entry.field_type) + le32(entry.count);
    assert(head.len() == 8);
    assert(forall|k: int| 0 <= k < 8 ==> row[k] == head[k]);
    assert(head[0] == le16(entry.tag)[0] && head[1] == le16(entry.tag)[1]);
    assert(head[2] == le16(entry.field_type)[0] && head[3] == le16(entry.field_type)[1]);
}

/// Every entry of a directory is read back as it was written: its tag, its field type, its count,
/// and its values, which stand either in the entry or at the position that the entry gives. That
/// position is even, lies behind the directory, and its values end before the pixels begin.
pub proof fn law_entry_reads_back(entries: Seq<EntryView>, strip: Seq<u8>, i: int)
    requires
        entries.len() <= u16::MAX,
        strip_position(entries) <= u32::MAX,
        0 <= i < entries.len(),
    ensures
        ({
            let file = tiff_file(entries, strip);
            let row = TIFF_HEADER_SIZE + 2 + 12 * i;
            let len = entries[i].data.len();
            let at = read32(file, row + 8);
            &&& row + 12 <= file.len()
            &&& read16(file, row) == entries[i].tag
            &&& read16(file, row + 2) == entries[i].field_type
            &&& read32(file, row + 4) == entries[i].count
            &&& !entries[i].is_external() ==> file.subrange(row + 8, row + 8 + len)
                == entries[i].data && file.subrange(row + 8 + len, row + 12) == zeros(
                (4 - len) as nat,
            )
            &&& entries[i].is_external() ==> {
                &&& at % 2 == 0
                &&& data_start(entries.len()) <= at
                &&& at + len <= strip_position(entries)
                &&& file.subrange(at, at + len) == entries[i].data
            }
        }),
{
    let file = tiff_file(entries, strip);
    let row = TIFF_HEADER_SIZE + 2 + 12 * i;
    let len = entries[i].data.len() as int;
    let bytes = entry_row(entries[i], data_offset(entries, i) as u32);
    lemma_row_in_file(entries, strip, i);
    law_row_reads_back(entries[i], data_offset(entries, i) as u32);
    lemma_offsets_grow(entries, i, entries.len() as int);
    assert forall|k: int| 0 <= k < 12 implies #[trigger] bytes[k] == file[row + k] by {
        assert(bytes[k] == file.subrange(row, row + 12)[k]);
    }
    assert(read16(file, row) == read16(bytes, 0));
    assert(read16(file, row + 2) == read16(bytes, 2));
    assert(read32(file, row + 4) == read32(bytes, 4));
    assert(read32(file, row + 8) == read32(bytes, 8));
    if entries[i].is_external() {
        lemma_data_in_file(entries, strip, i);
    } else {
        assert(file.subrange(row + 8, row + 8 + len) == bytes.subrange(8, 8 + len));
        assert(file.subrange(row + 8 + len, row + 12) == bytes.subrange(8 + len, 12));
    }
}

/// The values of two entries never share a position.
pub proof fn law_values_do_not_overlap(entries: Seq<EntryView>, i: int, j: int)
    requires
        0 <= i < j < entries.len(),
        entries[i].is_external(),
        entries[j].is_external(),
    ensures
        data_offset(entries, i) + entries[i].data.len() <= data_offset(entries, j),
{
    lemma_data_area(entries, i, j);
}

/// The pixels stand at the end of the file, from an even position behind all values on.
pub proof fn law_strip_reads_back(entries: Seq<EntryView>, strip: Seq<u8>)
    ensures
        ({
            let file = tiff_file(entries, strip);
            &&& strip_position(entries) % 2 == 0
            &&& file.len() == strip_position(entries) + strip.len()
            &&& file.subrange(strip_position(entries), file.len() as int) == strip
        }),
{
    lemma_parts(entries, strip);
    lemma_offsets_grow(entries, entries.len() as int, entries.len() as int);
}

/// The room for values starts right behind the directory: the header has 8 bytes, and the directory
/// 2 for the number of its entries, 12 for each, and 4 for the position of a next one. The pixels
/// stand behind the values of the last entry.
pub proof fn law_data_start(entries: Seq<EntryView>)
    ensures
        offset_before(entries, 0) == 14 + 12 * entries.len(),
        strip_position(entries) == offset_before(entries, entries.len() as int),
{
}

/// The values of entries follow each other in the order of the entries. Up to four bytes
/// stand in the entry itself and take no room; more of them take their own number of bytes, and
/// one more where the next position would be odd.
pub proof fn law_values_placed(entries: Seq<EntryView>, i: int)
    requires
        0 <= i < entries.len(),
    ensures
        ({
            let len = entries[i].data.len();
            let here = offset_before(entries, i);
            let next = offset_before(entries, i + 1);
            &&& len <= 4 ==> next == here && data_offset(entries, i) == 0
            &&& len > 4 ==> {
                &&& data_offset(entries, i) == here
                &&& here % 2 == 0
                &&& next % 2 == 0
                &&& here + len <= next <= here + len + 1
            }
        }),
{
    lemma_offsets_grow(entries, i, i);
}

/// Where the values of an entry have an odd number of bytes, a zero byte follows them.
pub proof fn law_padding_is_zero(entries: Seq<EntryView>, strip: Seq<u8>, i: int)
    requires
        0 <= i < entries.len(),
        entries[i].data.len() > 4,
        entries[i].data.len() % 2 == 1,
    ensures
        tiff_file(entries, strip)[data_offset(entries, i) + entries[i].data.len()] == 0,
{
    let n = entries.len() as int;
    let at = offset_before(entries, i) - data_start(entries.len());
    let len = entries[i].data.len();
    lemma_parts(entries, strip);
    lemma_padding(entries, i, n);
    lemma_offsets_grow(entries, i, n);
    assert(tiff_file(entries, strip)[offset_before(entries, i) + len] == data_area(entries, n)[at
        + len]);
}

proof fn lemma_padding(entries: Seq<EntryView>, i: int, n: int)
    requires
        0 <= i < n <= entries.len(),
        entries[i].is_external(),
        entries[i].data.len() % 2 == 1,
    ensures
        ({
            let at = offset_before(entries, i) - data_start(entries.len());
            let len = entries[i].data.len();
            &&& 0 <= at
            &&& at + len < data_area(entries, n).len()
            &&& data_area(entries, n)[at + len] == 0
        }),
    decreases n,
{
    lemma_data_area_len(entries, n - 1);
    lemma_data_area_len(entries, n);
    lemma_offsets_grow(entries, i, n - 1);
    if i < n - 1 {
        lemma_padding(entries, i, n - 1);
    }
}

} // verus!
