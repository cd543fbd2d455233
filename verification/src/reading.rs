//! What a reader finds in a file who knows its bytes and the TIFF and DNG formats, and nothing
//! else. Tags, field types and values are written here as the numbers that the formats assign.
use crate::bytes::{
    law_samples_read_back, le16_all, lemma_long_part, lemma_number_reads, read16, read32,
    twos_complement,
};
use crate::colors::{color_fractions, law_color_fractions, ColorView};
use crate::dng::{
    black_levels, camera_views, dng_views, filter_pattern, for_each_sample, has_all_colors,
    has_pattern, image_views, law_dng_entries, layout_views, lemma_strip_offset_entry,
};
use crate::export::{
    dng_bytes, dng_directory, law_directory, law_entry_in_directory, lemma_placed,
    lemma_sorted_entry,
};
use crate::ifd::{
    law_short_values_read_back, lemma_pair_reads, lemma_rational_part, lemma_srational_part,
    rational_bytes, srational_bytes, EntryView,
};
use crate::layout::{
    law_known_names, law_xtrans_colors, requested_layout, xtrans_colors, LayoutView,
};
use crate::order::lemma_sorted_member;
use crate::raster::{
    law_bayer_samples_taken, law_linear_sample, law_xtrans_samples_taken, strip_samples,
};
use crate::text::normalized;
use crate::tiff::{
    law_entry_reads_back, law_header_reads_back, law_strip_reads_back, strip_position,
};
use vstd::prelude::*;

verus! {

/// How many entries the directory of a file has.
pub open spec fn entry_count(file: Seq<u8>) -> int {
    read16(file, read32(file, 4))
}

/// The position of row `i` of the directory.
pub open spec fn row_at(file: Seq<u8>, i: int) -> int {
    read32(file, 4) + 2 + 12 * i
}

/// The tag of row `i` of the directory.
pub open spec fn tag_at(file: Seq<u8>, i: int) -> int {
    read16(file, row_at(file, i))
}

/// Whether the directory has an entry with the given tag.
pub open spec fn has_tag(file: Seq<u8>, tag: int) -> bool {
    exists|i: int| 0 <= i < entry_count(file) && #[trigger] tag_at(file, i) == tag
}

/// The position of the row with the given tag.
pub open spec fn row_of(file: Seq<u8>, tag: int) -> int {
    row_at(file, choose|i: int| 0 <= i < entry_count(file) && #[trigger] tag_at(file, i) == tag)
}

/// The field type of the entry with the given tag.
pub open spec fn type_of(file: Seq<u8>, tag: int) -> int {
    read16(file, row_of(file, tag) + 2)
}

/// How many values the entry with the given tag has.
pub open spec fn count_of(file: Seq<u8>, tag: int) -> int {
    read32(file, row_of(file, tag) + 4)
}

/// How many bytes a value takes: 1 in a BYTE or ASCII entry, 2 in a SHORT entry, 4 in a LONG
/// entry, and 8 in a RATIONAL or SRATIONAL entry.
pub open spec fn size_in_file(field_type: int) -> int {
    if field_type == 1 || field_type == 2 {
        1
    } else if field_type == 3 {
        2
    } else if field_type == 4 {
        4
    } else {
        8
    }
}

/// The position of the values of the entry with the given tag: in its row where four bytes can
/// hold them, else where the row says.
pub open spec fn values_of(file: Seq<u8>, tag: int) -> int {
    if count_of(file, tag) * size_in_file(type_of(file, tag)) <= 4 {
        row_of(file, tag) + 8
    } else {
        read32(file, row_of(file, tag) + 8)
    }
}

/// Whether the directory has an entry with the given tag, field type and number of values, and
/// the file has all of the values.
pub open spec fn has_field(file: Seq<u8>, tag: int, field_type: int, count: int) -> bool {
    &&& has_tag(file, tag)
    &&& type_of(file, tag) == field_type
    &&& count_of(file, tag) == count
    &&& 0 <= values_of(file, tag)
    &&& values_of(file, tag) + count * size_in_file(field_type) <= file.len()
}

/// Value `k` of a BYTE or ASCII entry.
pub open spec fn byte_of(file: Seq<u8>, tag: int, k: int) -> int {
    file[values_of(file, tag) + k] as int
}

/// Value `k` of a SHORT entry.
pub open spec fn short_of(file: Seq<u8>, tag: int, k: int) -> int {
    read16(file, values_of(file, tag) + 2 * k)
}

/// Value `k` of a LONG entry.
pub open spec fn long_of(file: Seq<u8>, tag: int, k: int) -> int {
    read32(file, values_of(file, tag) + 4 * k)
}

/// The numerator of value `k` of a RATIONAL entry.
pub open spec fn numerator_of(file: Seq<u8>, tag: int, k: int) -> int {
    read32(file, values_of(file, tag) + 8 * k)
}

/// The denominator of value `k` of a RATIONAL entry.
pub open spec fn denominator_of(file: Seq<u8>, tag: int, k: int) -> int {
    read32(file, values_of(file, tag) + 8 * k + 4)
}

/// The signed number with the given 32 bits.
pub open spec fn signed(bits: int) -> int {
    if bits < 0x8000_0000 {
        bits
    } else {
        bits - 0x1_0000_0000
    }
}

/// The numerator of value `k` of an SRATIONAL entry.
pub open spec fn signed_numerator_of(file: Seq<u8>, tag: int, k: int) -> int {
    signed(numerator_of(file, tag, k))
}

/// The denominator of value `k` of an SRATIONAL entry.
pub open spec fn signed_denominator_of(file: Seq<u8>, tag: int, k: int) -> int {
    signed(denominator_of(file, tag, k))
}

/// Sample `k` of the strip, which stands where StripOffsets (273) says.
pub open spec fn strip_sample(file: Seq<u8>, k: int) -> int {
    read16(file, long_of(file, 273, 0) + 2 * k)
}

/// Sample `c` of the pixel at column `x` of row `y`, for a reader who takes the length of a row
/// from ImageWidth (256) and the number of samples from SamplesPerPixel (277).
pub open spec fn pixel_sample(file: Seq<u8>, x: int, y: int, c: int) -> int {
    strip_sample(file, short_of(file, 277, 0) * (y * long_of(file, 256, 0) + x) + c)
}

/// The color that the filter has at column `x` of row `y`, for a reader who repeats CFAPattern
/// (33422) over the image as CFARepeatPatternDim (33421) says.
pub open spec fn filter_color(file: Seq<u8>, x: int, y: int) -> int {
    byte_of(
        file,
        33422,
        y % short_of(file, 33421, 0) * short_of(file, 33421, 1) + x % short_of(file, 33421, 1),
    )
}

/// Whether a file shows an image of the given size with the given samples: all three samples of
/// each pixel where it says that the pixels are linear, and else, for each pixel, the one of the
/// color that its filter has there.
pub open spec fn shows_image(
    file: Seq<u8>,
    width: u32,
    height: u32,
    samples: Seq<u16>,
) -> bool {
    &&& long_of(file, 256, 0) == width
    &&& long_of(file, 257, 0) == height
    &&& short_of(file, 262, 0) == 34892 && 3 * width * height <= samples.len() ==> forall|
        x: int,
        y: int,
        c: int,
    |
        0 <= x < width && 0 <= y < height && 0 <= c < 3 ==> #[trigger] pixel_sample(file, x, y, c)
            == samples[3 * (y * width + x) + c]
    &&& short_of(file, 262, 0) == 32803 ==> forall|x: int, y: int|
        0 <= x < width && 0 <= y < height ==> #[trigger] pixel_sample(file, x, y, 0) == samples[3
            * (y * width + x) + filter_color(file, x, y)]
}

/// Whether a file has the layout with the given name: linear pixels for "linear" or no name, a
/// filter of six rows and six columns for "xtrans" or "x-trans", and else a filter of two rows and
/// two columns whose colors the name spells with `r`, `g` and `b`.
pub open spec fn shows_layout(file: Seq<u8>, name: Seq<char>) -> bool {
    if name == ""@ || name == "linear"@ {
        &&& short_of(file, 262, 0) == 34892
        &&& short_of(file, 277, 0) == 3
        &&& !has_tag(file, 33422)
    } else {
        &&& short_of(file, 262, 0) == 32803
        &&& short_of(file, 277, 0) == 1
        &&& has_tag(file, 33422)
        &&& if name == "xtrans"@ || name == "x-trans"@ {
            &&& short_of(file, 33421, 0) == 6
            &&& short_of(file, 33421, 1) == 6
        } else {
            &&& short_of(file, 33421, 0) == 2
            &&& short_of(file, 33421, 1) == 2
            &&& name.len() == 4
            &&& forall|k: int|
                0 <= k < 4 ==> {
                    ||| name[k] == 'r' && #[trigger] byte_of(file, 33422, k) == 0
                    ||| name[k] == 'g' && byte_of(file, 33422, k) == 1
                    ||| name[k] == 'b' && byte_of(file, 33422, k) == 2
                }
        }
    }
}

/// Whether the entry with the given tag has the numbers of a matrix over 10000, row by row.
pub open spec fn shows_matrix(file: Seq<u8>, tag: int, matrix: [[i32; 3]; 3]) -> bool {
    forall|r: int, c: int|
        0 <= r < 3 && 0 <= c < 3 ==> {
            &&& #[trigger] signed_numerator_of(file, tag, 3 * r + c) == matrix[r][c]
            &&& signed_denominator_of(file, tag, 3 * r + c) == 10000
        }
}

/// Whether a file has the parts of a neutral color over 10000, in their order.
pub open spec fn shows_neutral(file: Seq<u8>, neutral: [u32; 3]) -> bool {
    forall|c: int|
        0 <= c < 3 ==> {
            &&& #[trigger] numerator_of(file, 50728, c) == neutral[c]
            &&& denominator_of(file, 50728, c) == 10000
        }
}

/// Whether a file has the given colors, as numbers over 10000. Without a forward matrix, the file
/// has the color matrix in its place.
pub open spec fn shows_colors(
    file: Seq<u8>,
    color_matrix: [[i32; 3]; 3],
    forward_matrix: Option<[[i32; 3]; 3]>,
    neutral: [u32; 3],
) -> bool {
    &&& shows_matrix(file, 50721, color_matrix)
    &&& forward_matrix matches Some(matrix) ==> shows_matrix(file, 50964, matrix)
    &&& forward_matrix is None ==> shows_matrix(file, 50964, color_matrix)
    &&& shows_neutral(file, neutral)
}

/// The entries of a file before they are sorted.
spec fn placed_views(
    layout: LayoutView,
    width: u32,
    height: u32,
    pixel_values: Seq<u16>,
    colors: ColorView,
) -> Seq<EntryView> {
    let strip_len = (2 * pixel_values.len()) as u32;
    let directory = dng_directory(layout, width, height, strip_len, colors);
    dng_views(layout, width, height, strip_position(directory) as u32, strip_len, colors)
}

proof fn lemma_rows_of_file(
    layout: LayoutView,
    width: u32,
    height: u32,
    pixel_values: Seq<u16>,
    colors: ColorView,
)
    requires
        has_pattern(layout),
        has_all_colors(colors),
    ensures
        ({
            let list = placed_views(layout, width, height, pixel_values, colors);
            let strip_len = (2 * pixel_values.len()) as u32;
            let directory = dng_directory(layout, width, height, strip_len, colors);
            let file = dng_bytes(layout, width, height, pixel_values, colors);
            &&& read32(file, 4) == 8
            &&& entry_count(file) == list.len() == directory.len()
            &&& forall|i: int|
                0 <= i < list.len() ==> #[trigger] tag_at(file, i) == directory[i].tag
            &&& forall|i: int, k: int|
                0 <= i < list.len() && 0 <= k < list.len() && #[trigger] directory[i].tag
                    == #[trigger] list[k].tag ==> directory[i] == list[k]
        }),
{
    let list = placed_views(layout, width, height, pixel_values, colors);
    let strip_len = (2 * pixel_values.len()) as u32;
    let strip = le16_all(pixel_values);
    let directory = dng_directory(layout, width, height, strip_len, colors);
    let offset = strip_position(directory) as u32;
    let file = dng_bytes(layout, width, height, pixel_values, colors);
    law_directory(layout, width, height, strip_len, colors);
    law_dng_entries(layout, width, height, offset, strip_len, colors);
    law_header_reads_back(directory, strip);
    assert forall|i: int| 0 <= i < list.len() implies #[trigger] tag_at(file, i)
        == directory[i].tag by {
        law_entry_reads_back(directory, strip, i);
    }
    lemma_placed(layout, width, height, strip_len, colors);
    assert forall|i: int, k: int|
        0 <= i < list.len() && 0 <= k < list.len() && #[trigger] directory[i].tag
            == #[trigger] list[k].tag implies directory[i] == list[k] by {
        lemma_sorted_entry(list, i, k);
    }
}

proof fn lemma_placed_views(
    layout: LayoutView,
    width: u32,
    height: u32,
    pixel_values: Seq<u16>,
    colors: ColorView,
)
    requires
        has_pattern(layout),
        has_all_colors(colors),
    ensures
        ({
            let list = placed_views(layout, width, height, pixel_values, colors);
            let strip_len = (2 * pixel_values.len()) as u32;
            let directory = dng_directory(layout, width, height, strip_len, colors);
            let offset = strip_position(directory) as u32;
            let image = image_views(layout, width, height, offset, strip_len);
            let camera = camera_views(width, height, colors);
            let described = layout_views(layout);
            &&& strip_position(directory) <= u32::MAX
            &&& image.len() == 14
            &&& camera.len() == 10
            &&& described.len() == (if layout is Linear {
                1int
            } else {
                6int
            })
            &&& list.len() == 24 + described.len()
            &&& forall|i: int| 0 <= i < 14 ==> list[i] == #[trigger] image[i]
            &&& forall|i: int| 0 <= i < 10 ==> list[14 + i] == #[trigger] camera[i]
            &&& forall|i: int|
                0 <= i < described.len() ==> list[24 + i] == #[trigger] described[i]
        }),
{
    let strip_len = (2 * pixel_values.len()) as u32;
    law_directory(layout, width, height, strip_len, colors);
}

proof fn lemma_value_size(
    layout: LayoutView,
    width: u32,
    height: u32,
    pixel_values: Seq<u16>,
    colors: ColorView,
    k: int,
)
    requires
        has_pattern(layout),
        has_all_colors(colors),
        0 <= k < placed_views(layout, width, height, pixel_values, colors).len(),
    ensures
        ({
            let entry = placed_views(layout, width, height, pixel_values, colors)[k];
            entry.data.len() == entry.count * size_in_file(entry.field_type as int)
        }),
{
    let list = placed_views(layout, width, height, pixel_values, colors);
    let strip_len = (2 * pixel_values.len()) as u32;
    let directory = dng_directory(layout, width, height, strip_len, colors);
    let offset = strip_position(directory) as u32;
    let image = image_views(layout, width, height, offset, strip_len);
    let camera = camera_views(width, height, colors);
    let described = layout_views(layout);
    lemma_placed_views(layout, width, height, pixel_values, colors);
    law_dng_entries(layout, width, height, offset, strip_len, colors);
    assert(list[k].well_formed());
    let field_type = list[k].field_type;
    assert(field_type == 1 || field_type == 2 || field_type == 3 || field_type == 4 || field_type
        == 5 || field_type == 10) by {
        if k < 14 {
            assert(list[k] == image[k]);
        } else if k < 24 {
            assert(list[14 + (k - 14)] == camera[k - 14]);
        } else {
            assert(list[24 + (k - 24)] == described[k - 24]);
        }
    }
}

/// Whether a reader finds an entry by its tag, and its values where the row of the tag says.
#[verifier::opaque]
spec fn holds(file: Seq<u8>, entry: EntryView) -> bool {
    let at = values_of(file, entry.tag as int);
    &&& has_field(file, entry.tag as int, entry.field_type as int, entry.count as int)
    &&& 0 <= at <= at + entry.data.len() <= file.len()
    &&& file.subrange(at, at + entry.data.len()) == entry.data
}

proof fn lemma_entry_found(
    layout: LayoutView,
    width: u32,
    height: u32,
    pixel_values: Seq<u16>,
    colors: ColorView,
    k: int,
)
    requires
        has_pattern(layout),
        has_all_colors(colors),
        0 <= k < placed_views(layout, width, height, pixel_values, colors).len(),
    ensures
        holds(
            dng_bytes(layout, width, height, pixel_values, colors),
            placed_views(layout, width, height, pixel_values, colors)[k],
        ),
{
    let list = placed_views(layout, width, height, pixel_values, colors);
    let strip_len = (2 * pixel_values.len()) as u32;
    let strip = le16_all(pixel_values);
    let directory = dng_directory(layout, width, height, strip_len, colors);
    let file = dng_bytes(layout, width, height, pixel_values, colors);
    let entry = list[k];
    let tag = entry.tag as int;
    lemma_value_size(layout, width, height, pixel_values, colors, k);
    lemma_rows_of_file(layout, width, height, pixel_values, colors);
    law_directory(layout, width, height, strip_len, colors);
    law_dng_entries(layout, width, height, 0, strip_len, colors);
    lemma_strip_offset_entry(
        layout,
        width,
        height,
        strip_position(directory) as u32,
        strip_len,
        colors,
    );
    law_entry_in_directory(layout, width, height, strip_len, colors, k);
    let found = choose|i: int| 0 <= i < directory.len() && directory[i] == entry;
    assert(tag_at(file, found) == tag);
    let i = choose|i: int| 0 <= i < entry_count(file) && #[trigger] tag_at(file, i) == tag;
    assert(0 <= i < entry_count(file) && tag_at(file, i) == tag);
    assert(directory[i].tag == list[k].tag);
    assert(directory[i] == entry);
    law_entry_reads_back(directory, strip, i);
    law_strip_reads_back(directory, strip);
    assert(holds(file, entry)) by {
        reveal(holds);
    }
}

proof fn lemma_read16_within(file: Seq<u8>, at: int, data: Seq<u8>, p: int)
    requires
        0 <= at <= at + data.len() <= file.len(),
        file.subrange(at, at + data.len()) == data,
        0 <= p <= data.len() - 2,
    ensures
        read16(file, at + p) == read16(data, p),
{
    let found = file.subrange(at, at + data.len());
    assert(found[p] == file[at + p]);
    assert(found[p + 1] == file[at + p + 1]);
}

proof fn lemma_part_within(file: Seq<u8>, at: int, data: Seq<u8>, p: int, len: int)
    requires
        0 <= at <= at + data.len() <= file.len(),
        file.subrange(at, at + data.len()) == data,
        0 <= p <= p + len <= data.len(),
    ensures
        file.subrange(at + p, at + p + len) == data.subrange(p, p + len),
{
    let found = file.subrange(at, at + data.len());
    assert(file.subrange(at + p, at + p + len) == found.subrange(p, p + len));
}

proof fn lemma_bytes(file: Seq<u8>, tag: u16, values: Seq<u8>)
    requires
        holds(file, EntryView::byte(tag, values)),
        values.len() <= 100,
    ensures
        ({
            &&& has_field(file, tag as int, 1, values.len() as int)
            &&& forall|c: int|
                0 <= c < values.len() ==> #[trigger] byte_of(file, tag as int, c) == values[c]
        }),
{
    let data = EntryView::byte(tag, values).data;
    reveal(holds);
    let at = values_of(file, tag as int);
    let found = file.subrange(at, at + data.len());
    assert forall|c: int| 0 <= c < values.len() implies #[trigger] byte_of(file, tag as int, c)
        == values[c] by {
        assert(found[c] == file[at + c]);
    }
}

proof fn lemma_shorts(file: Seq<u8>, tag: u16, values: Seq<u16>)
    requires
        holds(file, EntryView::short(tag, values)),
        values.len() <= 100,
    ensures
        ({
            &&& has_field(file, tag as int, 3, values.len() as int)
            &&& forall|c: int|
                0 <= c < values.len() ==> #[trigger] short_of(file, tag as int, c) == values[c]
        }),
{
    let data = EntryView::short(tag, values).data;
    reveal(holds);
    let at = values_of(file, tag as int);
    assert forall|c: int| 0 <= c < values.len() implies #[trigger] short_of(file, tag as int, c)
        == values[c] by {
        lemma_read16_within(file, at, data, 2 * c);
        law_short_values_read_back(tag, values, c);
    }
}

proof fn lemma_longs(file: Seq<u8>, tag: u16, values: Seq<u32>)
    requires
        holds(file, EntryView::long(tag, values)),
        values.len() <= 100,
    ensures
        ({
            &&& has_field(file, tag as int, 4, values.len() as int)
            &&& forall|c: int|
                0 <= c < values.len() ==> #[trigger] long_of(file, tag as int, c) == values[c]
        }),
{
    let data = EntryView::long(tag, values).data;
    reveal(holds);
    let at = values_of(file, tag as int);
    assert forall|c: int| 0 <= c < values.len() implies #[trigger] long_of(file, tag as int, c)
        == values[c] by {
        lemma_long_part(values, c);
        lemma_part_within(file, at, data, 4 * c, 4);
        lemma_number_reads(file, at + 4 * c, values[c]);
    }
}

proof fn lemma_fraction(file: Seq<u8>, at: int, values: Seq<(u32, u32)>, c: int)
    requires
        0 <= c < values.len(),
        ({
            let data = rational_bytes(values);
            &&& 0 <= at <= at + data.len() <= file.len()
            &&& file.subrange(at, at + data.len()) == data
        }),
    ensures
        read32(file, at + 8 * c) == values[c].0,
        read32(file, at + 8 * c + 4) == values[c].1,
{
    lemma_rational_part(values, c);
    lemma_part_within(file, at, rational_bytes(values), 8 * c, 8);
    lemma_pair_reads(file, at + 8 * c, values[c].0, values[c].1);
}

proof fn lemma_fractions(file: Seq<u8>, tag: u16, values: Seq<(u32, u32)>)
    requires
        holds(file, EntryView::rational(tag, values)),
        values.len() <= 100,
    ensures
        ({
            &&& has_field(file, tag as int, 5, values.len() as int)
            &&& forall|c: int|
                0 <= c < values.len() ==> #[trigger] numerator_of(file, tag as int, c)
                    == values[c].0
            &&& forall|c: int|
                0 <= c < values.len() ==> #[trigger] denominator_of(file, tag as int, c)
                    == values[c].1
        }),
{
    reveal(holds);
    let at = values_of(file, tag as int);
    assert forall|c: int| 0 <= c < values.len() implies #[trigger] numerator_of(
        file,
        tag as int,
        c,
    ) == values[c].0 by {
        lemma_fraction(file, at, values, c);
    }
    assert forall|c: int| 0 <= c < values.len() implies #[trigger] denominator_of(
        file,
        tag as int,
        c,
    ) == values[c].1 by {
        lemma_fraction(file, at, values, c);
    }
}

proof fn lemma_signed_fraction(file: Seq<u8>, at: int, values: Seq<(i32, i32)>, c: int)
    requires
        0 <= c < values.len(),
        ({
            let data = srational_bytes(values);
            &&& 0 <= at <= at + data.len() <= file.len()
            &&& file.subrange(at, at + data.len()) == data
        }),
    ensures
        signed(read32(file, at + 8 * c)) == values[c].0,
        signed(read32(file, at + 8 * c + 4)) == values[c].1,
{
    let first = twos_complement(values[c].0);
    let second = twos_complement(values[c].1);
    lemma_srational_part(values, c);
    lemma_part_within(file, at, srational_bytes(values), 8 * c, 8);
    lemma_pair_reads(file, at + 8 * c, first, second);
}

proof fn lemma_signed_fractions(file: Seq<u8>, tag: u16, values: Seq<(i32, i32)>)
    requires
        holds(file, EntryView::srational(tag, values)),
        values.len() <= 100,
    ensures
        ({
            &&& has_field(file, tag as int, 10, values.len() as int)
            &&& forall|c: int|
                0 <= c < values.len() ==> #[trigger] signed_numerator_of(file, tag as int, c)
                    == values[c].0
            &&& forall|c: int|
                0 <= c < values.len() ==> #[trigger] signed_denominator_of(file, tag as int, c)
                    == values[c].1
        }),
{
    reveal(holds);
    let at = values_of(file, tag as int);
    assert forall|c: int| 0 <= c < values.len() implies #[trigger] signed_numerator_of(
        file,
        tag as int,
        c,
    ) == values[c].0 by {
        lemma_signed_fraction(file, at, values, c);
    }
    assert forall|c: int| 0 <= c < values.len() implies #[trigger] signed_denominator_of(
        file,
        tag as int,
        c,
    ) == values[c].1 by {
        lemma_signed_fraction(file, at, values, c);
    }
}

proof fn lemma_image_held(
    layout: LayoutView,
    width: u32,
    height: u32,
    pixel_values: Seq<u16>,
    colors: ColorView,
)
    requires
        has_pattern(layout),
        has_all_colors(colors),
    ensures
        ({
            let file = dng_bytes(layout, width, height, pixel_values, colors);
            let strip_len = (2 * pixel_values.len()) as u32;
            let directory = dng_directory(layout, width, height, strip_len, colors);
            let offset = strip_position(directory) as u32;
            let samples: u16 = if layout is Linear {
                3
            } else {
                1
            };
            let kind: u16 = if layout is Linear {
                34892
            } else {
                32803
            };
            &&& holds(file, EntryView::long(254, seq![0u32]))
            &&& holds(file, EntryView::long(256, seq![width]))
            &&& holds(file, EntryView::long(257, seq![height]))
            &&& holds(file, EntryView::short(258, for_each_sample(layout, 16)))
            &&& holds(file, EntryView::short(259, seq![1u16]))
            &&& holds(file, EntryView::short(262, seq![kind]))
            &&& holds(file, EntryView::ascii(271, "Custom"@))
            &&& holds(file, EntryView::ascii(272, "Synthetic Camera"@))
            &&& holds(file, EntryView::long(273, seq![offset]))
            &&& holds(file, EntryView::short(277, seq![samples]))
            &&& holds(file, EntryView::long(278, seq![height]))
            &&& holds(file, EntryView::long(279, seq![strip_len]))
            &&& holds(file, EntryView::short(284, seq![1u16]))
            &&& holds(file, EntryView::short(339, for_each_sample(layout, 1)))
        }),
{
    let file = dng_bytes(layout, width, height, pixel_values, colors);
    let strip_len = (2 * pixel_values.len()) as u32;
    let directory = dng_directory(layout, width, height, strip_len, colors);
    let offset = strip_position(directory) as u32;
    let samples: u16 = if layout is Linear {
        3
    } else {
        1
    };
    let kind: u16 = if layout is Linear {
        34892
    } else {
        32803
    };
    let image = image_views(layout, width, height, offset, strip_len);
    lemma_placed_views(layout, width, height, pixel_values, colors);
    assert(image[0] == EntryView::long(254, seq![0u32]));
    lemma_entry_found(layout, width, height, pixel_values, colors, 0);
    assert(image[1] == EntryView::long(256, seq![width]));
    lemma_entry_found(layout, width, height, pixel_values, colors, 1);
    assert(image[2] == EntryView::long(257, seq![height]));
    lemma_entry_found(layout, width, height, pixel_values, colors, 2);
    assert(image[3] == EntryView::short(258, for_each_sample(layout, 16)));
    lemma_entry_found(layout, width, height, pixel_values, colors, 3);
    assert(image[4] == EntryView::short(259, seq![1u16]));
    lemma_entry_found(layout, width, height, pixel_values, colors, 4);
    assert(image[5] == EntryView::short(262, seq![kind]));
    lemma_entry_found(layout, width, height, pixel_values, colors, 5);
    assert(image[6] == EntryView::ascii(271, "Custom"@));
    lemma_entry_found(layout, width, height, pixel_values, colors, 6);
    assert(image[7] == EntryView::ascii(272, "Synthetic Camera"@));
    lemma_entry_found(layout, width, height, pixel_values, colors, 7);
    assert(image[8] == EntryView::long(273, seq![offset]));
    lemma_entry_found(layout, width, height, pixel_values, colors, 8);
    assert(image[9] == EntryView::short(277, seq![samples]));
    lemma_entry_found(layout, width, height, pixel_values, colors, 9);
    assert(image[10] == EntryView::long(278, seq![height]));
    lemma_entry_found(layout, width, height, pixel_values, colors, 10);
    assert(image[11] == EntryView::long(279, seq![strip_len]));
    lemma_entry_found(layout, width, height, pixel_values, colors, 11);
    assert(image[12] == EntryView::short(284, seq![1u16]));
    lemma_entry_found(layout, width, height, pixel_values, colors, 12);
    assert(image[13] == EntryView::short(339, for_each_sample(layout, 1)));
    lemma_entry_found(layout, width, height, pixel_values, colors, 13);
}

proof fn lemma_camera_held(
    layout: LayoutView,
    width: u32,
    height: u32,
    pixel_values: Seq<u16>,
    colors: ColorView,
)
    requires
        has_pattern(layout),
        has_all_colors(colors),
    ensures
        ({
            let file = dng_bytes(layout, width, height, pixel_values, colors);
            &&& holds(file, EntryView::byte(50706, seq![1u8, 4u8, 0u8, 0u8]))
            &&& holds(file, EntryView::byte(50707, seq![1u8, 1u8, 0u8, 0u8]))
            &&& holds(file, EntryView::ascii(50708, "Synthetic Camera"@))
            &&& holds(file, EntryView::srational(50721, colors.color_matrix))
            &&& holds(file, EntryView::srational(50964, colors.forward_matrix))
            &&& holds(file, EntryView::rational(50728, colors.neutral))
            &&& holds(file, EntryView::short(50778, seq![21u16]))
            &&& holds(file, EntryView::long(50717, seq![65535u32]))
            &&& holds(file, EntryView::long(50719, seq![0u32, 0u32]))
            &&& holds(file, EntryView::long(50720, seq![width, height]))
        }),
{
    let file = dng_bytes(layout, width, height, pixel_values, colors);
    let camera = camera_views(width, height, colors);
    lemma_placed_views(layout, width, height, pixel_values, colors);
    assert(camera[0] == EntryView::byte(50706, seq![1u8, 4u8, 0u8, 0u8]));
    lemma_entry_found(layout, width, height, pixel_values, colors, 14);
    assert(camera[1] == EntryView::byte(50707, seq![1u8, 1u8, 0u8, 0u8]));
    lemma_entry_found(layout, width, height, pixel_values, colors, 15);
    assert(camera[2] == EntryView::ascii(50708, "Synthetic Camera"@));
    lemma_entry_found(layout, width, height, pixel_values, colors, 16);
    assert(camera[3] == EntryView::srational(50721, colors.color_matrix));
    lemma_entry_found(layout, width, height, pixel_values, colors, 17);
    assert(camera[4] == EntryView::srational(50964, colors.forward_matrix));
    lemma_entry_found(layout, width, height, pixel_values, colors, 18);
    assert(camera[5] == EntryView::rational(50728, colors.neutral));
    lemma_entry_found(layout, width, height, pixel_values, colors, 19);
    assert(camera[6] == EntryView::short(50778, seq![21u16]));
    lemma_entry_found(layout, width, height, pixel_values, colors, 20);
    assert(camera[7] == EntryView::long(50717, seq![65535u32]));
    lemma_entry_found(layout, width, height, pixel_values, colors, 21);
    assert(camera[8] == EntryView::long(50719, seq![0u32, 0u32]));
    lemma_entry_found(layout, width, height, pixel_values, colors, 22);
    assert(camera[9] == EntryView::long(50720, seq![width, height]));
    lemma_entry_found(layout, width, height, pixel_values, colors, 23);
}

proof fn lemma_filter_held(
    layout: LayoutView,
    width: u32,
    height: u32,
    pixel_values: Seq<u16>,
    colors: ColorView,
)
    requires
        has_pattern(layout),
        has_all_colors(colors),
        !(layout is Linear),
    ensures
        ({
            let file = dng_bytes(layout, width, height, pixel_values, colors);
            let size: u16 = if layout is Bayer {
                2
            } else {
                6
            };
            &&& holds(file, EntryView::short(33421, seq![size, size]))
            &&& holds(file, EntryView::byte(33422, filter_pattern(layout)))
            &&& holds(file, EntryView::byte(50710, seq![0u8, 1u8, 2u8]))
            &&& holds(file, EntryView::short(50711, seq![1u16]))
            &&& holds(file, EntryView::short(50713, seq![size, size]))
        }),
{
    let file = dng_bytes(layout, width, height, pixel_values, colors);
    let size: u16 = if layout is Bayer {
        2
    } else {
        6
    };
    let described = layout_views(layout);
    lemma_placed_views(layout, width, height, pixel_values, colors);
    assert(described[0] == EntryView::short(33421, seq![size, size]));
    lemma_entry_found(layout, width, height, pixel_values, colors, 24);
    assert(described[1] == EntryView::byte(33422, filter_pattern(layout)));
    lemma_entry_found(layout, width, height, pixel_values, colors, 25);
    assert(described[2] == EntryView::byte(50710, seq![0u8, 1u8, 2u8]));
    lemma_entry_found(layout, width, height, pixel_values, colors, 26);
    assert(described[3] == EntryView::short(50711, seq![1u16]));
    lemma_entry_found(layout, width, height, pixel_values, colors, 27);
    assert(described[4] == EntryView::short(50713, seq![size, size]));
    lemma_entry_found(layout, width, height, pixel_values, colors, 28);
}

proof fn lemma_levels_held(
    layout: LayoutView,
    width: u32,
    height: u32,
    pixel_values: Seq<u16>,
    colors: ColorView,
)
    requires
        has_pattern(layout),
        has_all_colors(colors),
    ensures
        ({
            let file = dng_bytes(layout, width, height, pixel_values, colors);
            let count: nat = match layout {
                LayoutView::Linear => 3,
                LayoutView::Bayer { .. } => 4,
                LayoutView::XTrans => 36,
            };
            holds(file, EntryView::rational(50714, Seq::new(count, |k: int| (0u32, 1u32))))
        }),
{
    let count: nat = match layout {
        LayoutView::Linear => 3,
        LayoutView::Bayer { .. } => 4,
        LayoutView::XTrans => 36,
    };
    let levels = Seq::new(count, |k: int| (0u32, 1u32));
    let described = layout_views(layout);
    let last = described.len() - 1;
    lemma_placed_views(layout, width, height, pixel_values, colors);
    assert(levels == black_levels(count));
    assert(described[last] == EntryView::rational(50714, levels));
    lemma_entry_found(layout, width, height, pixel_values, colors, 24 + last);
}

/// A file starts with the marks of a little-endian TIFF file, its first directory stands right
/// behind them, and no other directory follows.
pub proof fn law_file_header(
    layout: LayoutView,
    width: u32,
    height: u32,
    pixel_values: Seq<u16>,
    colors: ColorView,
)
    requires
        has_pattern(layout),
        has_all_colors(colors),
    ensures
        ({
            let file = dng_bytes(layout, width, height, pixel_values, colors);
            &&& file[0] == 0x49
            &&& file[1] == 0x49
            &&& read16(file, 2) == 42
            &&& read32(file, 4) == 8
            &&& read32(file, row_at(file, entry_count(file))) == 0
        }),
{
    let strip_len = (2 * pixel_values.len()) as u32;
    let directory = dng_directory(layout, width, height, strip_len, colors);
    law_directory(layout, width, height, strip_len, colors);
    law_header_reads_back(directory, le16_all(pixel_values));
}

proof fn lemma_text(file: Seq<u8>, tag: u16, text: Seq<char>)
    requires
        holds(file, EntryView::ascii(tag, text)),
        text.len() <= 100,
        forall|c: int| 0 <= c < text.len() ==> '\u{1}' <= #[trigger] text[c] <= '\u{7f}',
    ensures
        ({
            &&& has_field(file, tag as int, 2, text.len() as int + 1)
            &&& forall|c: int|
                0 <= c < text.len() ==> #[trigger] byte_of(file, tag as int, c) == text[c] as int
            &&& byte_of(file, tag as int, text.len() as int) == 0
        }),
{
    let data = EntryView::ascii(tag, text).data;
    vstd::utf8::is_ascii_chars_encode_utf8(text);
    if text.len() > 0 {
        assert(text[text.len() - 1] as u8 == vstd::utf8::encode_utf8(text).last());
    }
    assert(data == vstd::utf8::encode_utf8(text).push(0));
    reveal(holds);
    let at = values_of(file, tag as int);
    let found = file.subrange(at, at + data.len());
    assert forall|c: int| 0 <= c < text.len() implies #[trigger] byte_of(file, tag as int, c)
        == text[c] as int by {
        assert(found[c] == file[at + c]);
        assert(data[c] == text[c] as u8);
    }
    assert(found[text.len() as int] == file[at + text.len()]);
}

proof fn lemma_size_read(file: Seq<u8>, width: u32, height: u32)
    requires
        holds(file, EntryView::long(254, seq![0u32])),
        holds(file, EntryView::long(256, seq![width])),
        holds(file, EntryView::long(257, seq![height])),
        holds(file, EntryView::long(278, seq![height])),
        holds(file, EntryView::long(50719, seq![0u32, 0u32])),
        holds(file, EntryView::long(50720, seq![width, height])),
    ensures
        ({
            &&& has_field(file, 254, 4, 1)
            &&& long_of(file, 254, 0) == 0
            &&& has_field(file, 256, 4, 1)
            &&& long_of(file, 256, 0) == width
            &&& has_field(file, 257, 4, 1)
            &&& long_of(file, 257, 0) == height
            &&& has_field(file, 278, 4, 1)
            &&& long_of(file, 278, 0) == height
            &&& has_field(file, 50719, 4, 2)
            &&& long_of(file, 50719, 0) == 0
            &&& long_of(file, 50719, 1) == 0
            &&& has_field(file, 50720, 4, 2)
            &&& long_of(file, 50720, 0) == width
            &&& long_of(file, 50720, 1) == height
        }),
{
    lemma_longs(file, 254, seq![0u32]);
    lemma_longs(file, 256, seq![width]);
    lemma_longs(file, 257, seq![height]);
    lemma_longs(file, 278, seq![height]);
    lemma_longs(file, 50719, seq![0u32, 0u32]);
    lemma_longs(file, 50720, seq![width, height]);
}

/// The size of an image is read back: ImageWidth (256) is the number of columns, ImageLength (257)
/// and RowsPerStrip (278) are the number of rows, and DefaultCropOrigin (50719) and
/// DefaultCropSize (50720) show all of the image. NewSubfileType (254) says that it is the image
/// itself.
pub proof fn law_size_in_file(
    layout: LayoutView,
    width: u32,
    height: u32,
    pixel_values: Seq<u16>,
    colors: ColorView,
)
    requires
        has_pattern(layout),
        has_all_colors(colors),
    ensures
        ({
            let file = dng_bytes(layout, width, height, pixel_values, colors);
            &&& has_field(file, 254, 4, 1)
            &&& long_of(file, 254, 0) == 0
            &&& has_field(file, 256, 4, 1)
            &&& long_of(file, 256, 0) == width
            &&& has_field(file, 257, 4, 1)
            &&& long_of(file, 257, 0) == height
            &&& has_field(file, 278, 4, 1)
            &&& long_of(file, 278, 0) == height
            &&& has_field(file, 50719, 4, 2)
            &&& long_of(file, 50719, 0) == 0
            &&& long_of(file, 50719, 1) == 0
            &&& has_field(file, 50720, 4, 2)
            &&& long_of(file, 50720, 0) == width
            &&& long_of(file, 50720, 1) == height
        }),
{
    lemma_image_held(layout, width, height, pixel_values, colors);
    lemma_camera_held(layout, width, height, pixel_values, colors);
    lemma_size_read(dng_bytes(layout, width, height, pixel_values, colors), width, height);
}

proof fn lemma_samples_read(file: Seq<u8>, layout: LayoutView)
    requires
        ({
            let samples: u16 = if layout is Linear {
                3
            } else {
                1
            };
            let kind: u16 = if layout is Linear {
                34892
            } else {
                32803
            };
            &&& holds(file, EntryView::short(277, seq![samples]))
            &&& holds(file, EntryView::short(262, seq![kind]))
            &&& holds(file, EntryView::short(258, for_each_sample(layout, 16)))
            &&& holds(file, EntryView::short(339, for_each_sample(layout, 1)))
            &&& holds(file, EntryView::short(259, seq![1u16]))
            &&& holds(file, EntryView::short(284, seq![1u16]))
        }),
    ensures
        ({
            let samples: int = if layout is Linear {
                3
            } else {
                1
            };
            &&& has_field(file, 277, 3, 1)
            &&& short_of(file, 277, 0) == samples
            &&& has_field(file, 262, 3, 1)
            &&& short_of(file, 262, 0) == (if layout is Linear {
                34892
            } else {
                32803int
            })
            &&& has_field(file, 258, 3, samples)
            &&& forall|c: int| 0 <= c < samples ==> #[trigger] short_of(file, 258, c) == 16
            &&& has_field(file, 339, 3, samples)
            &&& forall|c: int| 0 <= c < samples ==> #[trigger] short_of(file, 339, c) == 1
            &&& has_field(file, 259, 3, 1)
            &&& short_of(file, 259, 0) == 1
            &&& has_field(file, 284, 3, 1)
            &&& short_of(file, 284, 0) == 1
        }),
{
    let samples: u16 = if layout is Linear {
        3
    } else {
        1
    };
    let kind: u16 = if layout is Linear {
        34892
    } else {
        32803
    };
    lemma_shorts(file, 277, seq![samples]);
    lemma_shorts(file, 262, seq![kind]);
    lemma_shorts(file, 258, for_each_sample(layout, 16));
    lemma_shorts(file, 339, for_each_sample(layout, 1));
    lemma_shorts(file, 259, seq![1u16]);
    lemma_shorts(file, 284, seq![1u16]);
}

/// A file says how its samples are to be understood. In the linear layout each pixel has three
/// samples, and PhotometricInterpretation (262) is LinearRaw; in the others it has one, and
/// PhotometricInterpretation is that of a color filter array. There is a BitsPerSample (258) of 16
/// and a SampleFormat (339) of unsigned integers for each sample of a pixel; Compression (259) is
/// none, and PlanarConfiguration (284) says that the samples of a pixel stand together.
pub proof fn law_samples_described(
    layout: LayoutView,
    width: u32,
    height: u32,
    pixel_values: Seq<u16>,
    colors: ColorView,
)
    requires
        has_pattern(layout),
        has_all_colors(colors),
    ensures
        ({
            let file = dng_bytes(layout, width, height, pixel_values, colors);
            let samples: int = if layout is Linear {
                3
            } else {
                1
            };
            &&& has_field(file, 277, 3, 1)
            &&& short_of(file, 277, 0) == samples
            &&& has_field(file, 262, 3, 1)
            &&& short_of(file, 262, 0) == (if layout is Linear {
                34892
            } else {
                32803int
            })
            &&& has_field(file, 258, 3, samples)
            &&& forall|c: int| 0 <= c < samples ==> #[trigger] short_of(file, 258, c) == 16
            &&& has_field(file, 339, 3, samples)
            &&& forall|c: int| 0 <= c < samples ==> #[trigger] short_of(file, 339, c) == 1
            &&& has_field(file, 259, 3, 1)
            &&& short_of(file, 259, 0) == 1
            &&& has_field(file, 284, 3, 1)
            &&& short_of(file, 284, 0) == 1
        }),
{
    lemma_image_held(layout, width, height, pixel_values, colors);
    lemma_samples_read(dng_bytes(layout, width, height, pixel_values, colors), layout);
}

/// A reader finds the pixels where StripOffsets (273) says, as many bytes as StripByteCounts (279)
/// says, and they end with the file: all samples, two bytes for each.
pub proof fn law_strip_in_file(
    layout: LayoutView,
    width: u32,
    height: u32,
    pixel_values: Seq<u16>,
    colors: ColorView,
)
    requires
        has_pattern(layout),
        has_all_colors(colors),
        2 * pixel_values.len() <= u32::MAX,
    ensures
        ({
            let file = dng_bytes(layout, width, height, pixel_values, colors);
            &&& has_field(file, 273, 4, 1)
            &&& has_field(file, 279, 4, 1)
            &&& long_of(file, 279, 0) == 2 * pixel_values.len()
            &&& long_of(file, 273, 0) % 2 == 0
            &&& long_of(file, 273, 0) + long_of(file, 279, 0) == file.len()
            &&& forall|k: int|
                0 <= k < pixel_values.len() ==> #[trigger] strip_sample(file, k)
                    == pixel_values[k]
        }),
{
    let file = dng_bytes(layout, width, height, pixel_values, colors);
    let strip = le16_all(pixel_values);
    let strip_len = (2 * pixel_values.len()) as u32;
    let directory = dng_directory(layout, width, height, strip_len, colors);
    let offset = strip_position(directory) as u32;
    law_directory(layout, width, height, strip_len, colors);
    lemma_image_held(layout, width, height, pixel_values, colors);
    lemma_longs(file, 273, seq![offset]);
    lemma_longs(file, 279, seq![strip_len]);
    law_strip_reads_back(directory, strip);
    assert forall|k: int| 0 <= k < pixel_values.len() implies #[trigger] strip_sample(file, k)
        == pixel_values[k] by {
        lemma_read16_within(file, offset as int, strip, 2 * k);
        law_samples_read_back(pixel_values, k);
    }
}

/// The colors of a camera are read back: ColorMatrix1 (50721) and ForwardMatrix1 (50964) as signed
/// fractions, AsShotNeutral (50728) as fractions, and CalibrationIlluminant1 (50778) is D65.
pub proof fn law_colors_in_file(
    layout: LayoutView,
    width: u32,
    height: u32,
    pixel_values: Seq<u16>,
    colors: ColorView,
)
    requires
        has_pattern(layout),
        has_all_colors(colors),
    ensures
        ({
            let file = dng_bytes(layout, width, height, pixel_values, colors);
            &&& has_field(file, 50721, 10, 9)
            &&& forall|k: int|
                0 <= k < 9 ==> #[trigger] signed_numerator_of(file, 50721, k)
                    == colors.color_matrix[k].0
            &&& forall|k: int|
                0 <= k < 9 ==> #[trigger] signed_denominator_of(file, 50721, k)
                    == colors.color_matrix[k].1
            &&& has_field(file, 50964, 10, 9)
            &&& forall|k: int|
                0 <= k < 9 ==> #[trigger] signed_numerator_of(file, 50964, k)
                    == colors.forward_matrix[k].0
            &&& forall|k: int|
                0 <= k < 9 ==> #[trigger] signed_denominator_of(file, 50964, k)
                    == colors.forward_matrix[k].1
            &&& has_field(file, 50728, 5, 3)
            &&& forall|k: int|
                0 <= k < 3 ==> #[trigger] numerator_of(file, 50728, k) == colors.neutral[k].0
            &&& forall|k: int|
                0 <= k < 3 ==> #[trigger] denominator_of(file, 50728, k) == colors.neutral[k].1
            &&& has_field(file, 50778, 3, 1)
            &&& short_of(file, 50778, 0) == 21
        }),
{
    let file = dng_bytes(layout, width, height, pixel_values, colors);
    lemma_camera_held(layout, width, height, pixel_values, colors);
    lemma_signed_fractions(file, 50721, colors.color_matrix);
    lemma_signed_fractions(file, 50964, colors.forward_matrix);
    lemma_fractions(file, 50728, colors.neutral);
    lemma_shorts(file, 50778, seq![21u16]);
}

/// Black is zero and white is the largest 16-bit number: WhiteLevel (50717) is 65535, and every
/// BlackLevel (50714) is 0. There is one for each sample of a pixel in the linear layout, one for
/// each place of a Bayer pattern, and one for each place of the X-Trans pattern.
pub proof fn law_levels_in_file(
    layout: LayoutView,
    width: u32,
    height: u32,
    pixel_values: Seq<u16>,
    colors: ColorView,
)
    requires
        has_pattern(layout),
        has_all_colors(colors),
    ensures
        ({
            let file = dng_bytes(layout, width, height, pixel_values, colors);
            let count: int = match layout {
                LayoutView::Linear => 3,
                LayoutView::Bayer { .. } => 4,
                LayoutView::XTrans => 36,
            };
            &&& has_field(file, 50717, 4, 1)
            &&& long_of(file, 50717, 0) == 65535
            &&& has_field(file, 50714, 5, count)
            &&& forall|k: int| 0 <= k < count ==> #[trigger] numerator_of(file, 50714, k) == 0
            &&& forall|k: int| 0 <= k < count ==> #[trigger] denominator_of(file, 50714, k) == 1
        }),
{
    let file = dng_bytes(layout, width, height, pixel_values, colors);
    let count: nat = match layout {
        LayoutView::Linear => 3,
        LayoutView::Bayer { .. } => 4,
        LayoutView::XTrans => 36,
    };
    lemma_camera_held(layout, width, height, pixel_values, colors);
    lemma_levels_held(layout, width, height, pixel_values, colors);
    lemma_longs(file, 50717, seq![65535u32]);
    lemma_fractions(file, 50714, Seq::new(count, |k: int| (0u32, 1u32)));
}

proof fn lemma_filter_read(file: Seq<u8>, layout: LayoutView)
    requires
        has_pattern(layout),
        !(layout is Linear),
        ({
            let size: u16 = if layout is Bayer {
                2
            } else {
                6
            };
            &&& holds(file, EntryView::short(33421, seq![size, size]))
            &&& holds(file, EntryView::short(50713, seq![size, size]))
            &&& holds(file, EntryView::byte(33422, filter_pattern(layout)))
            &&& holds(file, EntryView::byte(50710, seq![0u8, 1u8, 2u8]))
            &&& holds(file, EntryView::short(50711, seq![1u16]))
        }),
    ensures
        ({
            let size: int = if layout is Bayer {
                2
            } else {
                6
            };
            &&& has_field(file, 33421, 3, 2)
            &&& short_of(file, 33421, 0) == size
            &&& short_of(file, 33421, 1) == size
            &&& has_field(file, 50713, 3, 2)
            &&& short_of(file, 50713, 0) == size
            &&& short_of(file, 50713, 1) == size
            &&& has_field(file, 33422, 1, size * size)
            &&& layout matches LayoutView::Bayer { name, pattern } ==> forall|k: int|
                0 <= k < 4 ==> #[trigger] byte_of(file, 33422, k) == pattern[k]
            &&& has_field(file, 50710, 1, 3)
            &&& forall|k: int| 0 <= k < 3 ==> #[trigger] byte_of(file, 50710, k) == k
            &&& has_field(file, 50711, 3, 1)
            &&& short_of(file, 50711, 0) == 1
        }),
{
    let size: u16 = if layout is Bayer {
        2
    } else {
        6
    };
    lemma_shorts(file, 33421, seq![size, size]);
    lemma_shorts(file, 50713, seq![size, size]);
    lemma_bytes(file, 33422, filter_pattern(layout));
    lemma_bytes(file, 50710, seq![0u8, 1u8, 2u8]);
    lemma_shorts(file, 50711, seq![1u16]);
}

/// A file with one sample for each pixel describes its filter: CFARepeatPatternDim (33421) and
/// BlackLevelRepeatDim (50713) give the rows and columns of the pattern, two and two for a Bayer
/// filter, six and six for an X-Trans filter; CFAPattern (33422) has a color for each place of it;
/// CFAPlaneColor (50710) names red, green and blue, and CFALayout (50711) is rectangular.
pub proof fn law_filter_in_file(
    layout: LayoutView,
    width: u32,
    height: u32,
    pixel_values: Seq<u16>,
    colors: ColorView,
)
    requires
        has_pattern(layout),
        has_all_colors(colors),
        !(layout is Linear),
    ensures
        ({
            let file = dng_bytes(layout, width, height, pixel_values, colors);
            let size: int = if layout is Bayer {
                2
            } else {
                6
            };
            &&& has_field(file, 33421, 3, 2)
            &&& short_of(file, 33421, 0) == size
            &&& short_of(file, 33421, 1) == size
            &&& has_field(file, 50713, 3, 2)
            &&& short_of(file, 50713, 0) == size
            &&& short_of(file, 50713, 1) == size
            &&& has_field(file, 33422, 1, size * size)
            &&& layout matches LayoutView::Bayer { name, pattern } ==> forall|k: int|
                0 <= k < 4 ==> #[trigger] byte_of(file, 33422, k) == pattern[k]
            &&& has_field(file, 50710, 1, 3)
            &&& forall|k: int| 0 <= k < 3 ==> #[trigger] byte_of(file, 50710, k) == k
            &&& has_field(file, 50711, 3, 1)
            &&& short_of(file, 50711, 0) == 1
        }),
{
    lemma_filter_held(layout, width, height, pixel_values, colors);
    lemma_filter_read(dng_bytes(layout, width, height, pixel_values, colors), layout);
}

/// In the X-Trans layout, CFAPattern (33422) has these six rows of six colors, where 0 is red, 1 is
/// green and 2 is blue.
pub proof fn law_xtrans_pattern_in_file(
    width: u32,
    height: u32,
    pixel_values: Seq<u16>,
    colors: ColorView,
)
    requires
        has_all_colors(colors),
    ensures
        ({
            let file = dng_bytes(LayoutView::XTrans, width, height, pixel_values, colors);
            let expected: Seq<int> = seq![
                1int, 2int, 0int, 1int, 0int, 2int,
                0int, 1int, 1int, 2int, 1int, 1int,
                2int, 1int, 1int, 0int, 1int, 1int,
                1int, 0int, 2int, 1int, 2int, 0int,
                2int, 1int, 1int, 0int, 1int, 1int,
                0int, 1int, 1int, 2int, 1int, 1int,
            ];
            forall|k: int|
                0 <= k < 36 ==> #[trigger] byte_of(file, 33422, k) == expected[k]
        }),
{
    let layout = LayoutView::XTrans;
    let file = dng_bytes(layout, width, height, pixel_values, colors);
    lemma_filter_held(layout, width, height, pixel_values, colors);
    lemma_bytes(file, 33422, xtrans_colors());
    law_xtrans_colors();
}

proof fn lemma_make(file: Seq<u8>, tag: u16)
    requires
        holds(file, EntryView::ascii(tag, "Custom"@)),
    ensures
        has_field(file, tag as int, 2, 7),
        forall|c: int|
            0 <= c < 6 ==> #[trigger] byte_of(file, tag as int, c) == "Custom"@[c] as int,
        byte_of(file, tag as int, 6) == 0,
{
    reveal_strlit("Custom");
    lemma_text(file, tag, "Custom"@);
}

proof fn lemma_model(file: Seq<u8>, tag: u16)
    requires
        holds(file, EntryView::ascii(tag, "Synthetic Camera"@)),
    ensures
        has_field(file, tag as int, 2, 17),
        forall|c: int|
            0 <= c < 16 ==> #[trigger] byte_of(file, tag as int, c)
                == "Synthetic Camera"@[c] as int,
        byte_of(file, tag as int, 16) == 0,
{
    reveal_strlit("Synthetic Camera");
    lemma_text(file, tag, "Synthetic Camera"@);
}

proof fn lemma_camera_read(file: Seq<u8>)
    requires
        holds(file, EntryView::ascii(271, "Custom"@)),
        holds(file, EntryView::ascii(272, "Synthetic Camera"@)),
        holds(file, EntryView::ascii(50708, "Synthetic Camera"@)),
        holds(file, EntryView::byte(50706, seq![1u8, 4u8, 0u8, 0u8])),
        holds(file, EntryView::byte(50707, seq![1u8, 1u8, 0u8, 0u8])),
    ensures
        ({
            &&& has_field(file, 271, 2, 7)
            &&& forall|k: int|
                0 <= k < 6 ==> #[trigger] byte_of(file, 271, k) == "Custom"@[k] as int
            &&& byte_of(file, 271, 6) == 0
            &&& has_field(file, 272, 2, 17)
            &&& forall|k: int|
                0 <= k < 16 ==> #[trigger] byte_of(file, 272, k) == "Synthetic Camera"@[k] as int
            &&& byte_of(file, 272, 16) == 0
            &&& has_field(file, 50708, 2, 17)
            &&& forall|k: int|
                0 <= k < 16 ==> #[trigger] byte_of(file, 50708, k)
                    == "Synthetic Camera"@[k] as int
            &&& byte_of(file, 50708, 16) == 0
            &&& has_field(file, 50706, 1, 4)
            &&& byte_of(file, 50706, 0) == 1
            &&& byte_of(file, 50706, 1) == 4
            &&& byte_of(file, 50706, 2) == 0
            &&& byte_of(file, 50706, 3) == 0
            &&& has_field(file, 50707, 1, 4)
            &&& byte_of(file, 50707, 0) == 1
            &&& byte_of(file, 50707, 1) == 1
            &&& byte_of(file, 50707, 2) == 0
            &&& byte_of(file, 50707, 3) == 0
        }),
{
    lemma_make(file, 271);
    lemma_model(file, 272);
    lemma_model(file, 50708);
    lemma_bytes(file, 50706, seq![1u8, 4u8, 0u8, 0u8]);
    lemma_bytes(file, 50707, seq![1u8, 1u8, 0u8, 0u8]);
}

/// The camera is named: Make (271) is "Custom", Model (272) and UniqueCameraModel (50708) are
/// "Synthetic Camera", each with a zero byte at its end. DNGVersion (50706) is 1.4.0.0, and
/// DNGBackwardVersion (50707) is 1.1.0.0.
pub proof fn law_camera_in_file(
    layout: LayoutView,
    width: u32,
    height: u32,
    pixel_values: Seq<u16>,
    colors: ColorView,
)
    requires
        has_pattern(layout),
        has_all_colors(colors),
    ensures
        ({
            let file = dng_bytes(layout, width, height, pixel_values, colors);
            &&& has_field(file, 271, 2, 7)
            &&& forall|k: int|
                0 <= k < 6 ==> #[trigger] byte_of(file, 271, k) == "Custom"@[k] as int
            &&& byte_of(file, 271, 6) == 0
            &&& has_field(file, 272, 2, 17)
            &&& forall|k: int|
                0 <= k < 16 ==> #[trigger] byte_of(file, 272, k) == "Synthetic Camera"@[k] as int
            &&& byte_of(file, 272, 16) == 0
            &&& has_field(file, 50708, 2, 17)
            &&& forall|k: int|
                0 <= k < 16 ==> #[trigger] byte_of(file, 50708, k)
                    == "Synthetic Camera"@[k] as int
            &&& byte_of(file, 50708, 16) == 0
            &&& has_field(file, 50706, 1, 4)
            &&& byte_of(file, 50706, 0) == 1
            &&& byte_of(file, 50706, 1) == 4
            &&& byte_of(file, 50706, 2) == 0
            &&& byte_of(file, 50706, 3) == 0
            &&& has_field(file, 50707, 1, 4)
            &&& byte_of(file, 50707, 0) == 1
            &&& byte_of(file, 50707, 1) == 1
            &&& byte_of(file, 50707, 2) == 0
            &&& byte_of(file, 50707, 3) == 0
        }),
{
    lemma_image_held(layout, width, height, pixel_values, colors);
    lemma_camera_held(layout, width, height, pixel_values, colors);
    lemma_camera_read(dng_bytes(layout, width, height, pixel_values, colors));
}

/// The directory of a file lists its tags in strictly ascending order, so that none occurs twice.
/// Which tags it has depends only on the layout: 25 in the linear one, and in the others five
/// more that describe the filter.
pub proof fn law_tags_in_file(
    layout: LayoutView,
    width: u32,
    height: u32,
    pixel_values: Seq<u16>,
    colors: ColorView,
    tag: int,
)
    requires
        has_pattern(layout),
        has_all_colors(colors),
    ensures
        ({
            let file = dng_bytes(layout, width, height, pixel_values, colors);
            let basic = tag == 254 || tag == 256 || tag == 257 || tag == 258
                || tag == 259 || tag == 262 || tag == 271 || tag == 272
                || tag == 273 || tag == 277 || tag == 278 || tag == 279
                || tag == 284 || tag == 339 || tag == 50706 || tag == 50707
                || tag == 50708 || tag == 50721 || tag == 50964 || tag == 50728
                || tag == 50778 || tag == 50717 || tag == 50719 || tag == 50720
                || tag == 50714;
            let filter = tag == 33421 || tag == 33422 || tag == 50710 || tag == 50711
                || tag == 50713;
            &&& entry_count(file) == (if layout is Linear {
                25
            } else {
                30int
            })
            &&& forall|i: int, j: int|
                0 <= i < j < entry_count(file) ==> #[trigger] tag_at(file, i) < #[trigger] tag_at(
                    file,
                    j,
                )
            &&& has_tag(file, tag) <==> basic || (filter && !(layout is Linear))
        }),
{
    let basic = tag == 254 || tag == 256 || tag == 257 || tag == 258
        || tag == 259 || tag == 262 || tag == 271 || tag == 272
        || tag == 273 || tag == 277 || tag == 278 || tag == 279
        || tag == 284 || tag == 339 || tag == 50706 || tag == 50707
        || tag == 50708 || tag == 50721 || tag == 50964 || tag == 50728
        || tag == 50778 || tag == 50717 || tag == 50719 || tag == 50720
        || tag == 50714;
    let filter = tag == 33421 || tag == 33422 || tag == 50710 || tag == 50711
        || tag == 50713;
    let file = dng_bytes(layout, width, height, pixel_values, colors);
    let strip_len = (2 * pixel_values.len()) as u32;
    let directory = dng_directory(layout, width, height, strip_len, colors);
    let list = placed_views(layout, width, height, pixel_values, colors);
    lemma_placed_views(layout, width, height, pixel_values, colors);
    lemma_rows_of_file(layout, width, height, pixel_values, colors);
    law_directory(layout, width, height, strip_len, colors);
    lemma_placed(layout, width, height, strip_len, colors);
    if has_tag(file, tag) {
        let i = choose|i: int| 0 <= i < entry_count(file) && #[trigger] tag_at(file, i) == tag;
        lemma_sorted_member(list, i);
        let k = choose|k: int| 0 <= k < list.len() && list[k] == directory[i];
        lemma_listed_tag(layout, width, height, pixel_values, colors, k);
    }
    if basic {
        lemma_basic_tags(layout, width, height, pixel_values, colors, tag);
    } else if filter && !(layout is Linear) {
        law_filter_in_file(layout, width, height, pixel_values, colors);
    }
}

proof fn lemma_listed_tag(
    layout: LayoutView,
    width: u32,
    height: u32,
    pixel_values: Seq<u16>,
    colors: ColorView,
    k: int,
)
    requires
        has_pattern(layout),
        has_all_colors(colors),
        0 <= k < placed_views(layout, width, height, pixel_values, colors).len(),
    ensures
        ({
            let tag = placed_views(layout, width, height, pixel_values, colors)[k].tag;
            ||| tag == 254 || tag == 256 || tag == 257 || tag == 258
            ||| tag == 259 || tag == 262 || tag == 271 || tag == 272
            ||| tag == 273 || tag == 277 || tag == 278 || tag == 279
            ||| tag == 284 || tag == 339 || tag == 50706 || tag == 50707
            ||| tag == 50708 || tag == 50721 || tag == 50964 || tag == 50728
            ||| tag == 50778 || tag == 50717 || tag == 50719 || tag == 50720 || tag == 50714
            ||| !(layout is Linear) && (tag == 33421 || tag == 33422 || tag == 50710)
            ||| !(layout is Linear) && (tag == 50711 || tag == 50713)
        }),
{
    let strip_len = (2 * pixel_values.len()) as u32;
    let directory = dng_directory(layout, width, height, strip_len, colors);
    let offset = strip_position(directory) as u32;
    let list = placed_views(layout, width, height, pixel_values, colors);
    let image = image_views(layout, width, height, offset, strip_len);
    let camera = camera_views(width, height, colors);
    let described = layout_views(layout);
    lemma_placed_views(layout, width, height, pixel_values, colors);
    if k < 14 {
        assert(list[k] == image[k]);
    } else if k < 24 {
        assert(list[14 + (k - 14)] == camera[k - 14]);
    } else {
        assert(list[24 + (k - 24)] == described[k - 24]);
    }
}

proof fn lemma_basic_tags(
    layout: LayoutView,
    width: u32,
    height: u32,
    pixel_values: Seq<u16>,
    colors: ColorView,
    tag: int,
)
    requires
        has_pattern(layout),
        has_all_colors(colors),
        ({
            ||| tag == 254 || tag == 256 || tag == 257 || tag == 258
            ||| tag == 259 || tag == 262 || tag == 271 || tag == 272
            ||| tag == 273 || tag == 277 || tag == 278 || tag == 279
            ||| tag == 284 || tag == 339 || tag == 50706 || tag == 50707
            ||| tag == 50708 || tag == 50721 || tag == 50964 || tag == 50728
            ||| tag == 50778 || tag == 50717 || tag == 50719 || tag == 50720 || tag == 50714
        }),
    ensures
        has_tag(dng_bytes(layout, width, height, pixel_values, colors), tag),
{
    if tag == 254 || tag == 256 || tag == 257 || tag == 278 || tag == 50719 || tag == 50720 {
        law_size_in_file(layout, width, height, pixel_values, colors);
    } else if tag == 277 || tag == 262 || tag == 258 || tag == 339 || tag == 259 || tag == 284 {
        law_samples_described(layout, width, height, pixel_values, colors);
    } else if tag == 50721 || tag == 50964 || tag == 50728 || tag == 50778 {
        law_colors_in_file(layout, width, height, pixel_values, colors);
    } else if tag == 50717 || tag == 50714 {
        law_levels_in_file(layout, width, height, pixel_values, colors);
    } else if tag == 273 || tag == 279 {
        lemma_strip_tags(layout, width, height, pixel_values, colors);
    } else {
        law_camera_in_file(layout, width, height, pixel_values, colors);
    }
}

proof fn lemma_strip_tags(
    layout: LayoutView,
    width: u32,
    height: u32,
    pixel_values: Seq<u16>,
    colors: ColorView,
)
    requires
        has_pattern(layout),
        has_all_colors(colors),
    ensures
        ({
            let file = dng_bytes(layout, width, height, pixel_values, colors);
            &&& has_tag(file, 273)
            &&& has_tag(file, 279)
        }),
{
    let file = dng_bytes(layout, width, height, pixel_values, colors);
    let strip_len = (2 * pixel_values.len()) as u32;
    let directory = dng_directory(layout, width, height, strip_len, colors);
    let offset = strip_position(directory) as u32;
    lemma_image_held(layout, width, height, pixel_values, colors);
    lemma_longs(file, 273, seq![offset]);
    lemma_longs(file, 279, seq![strip_len]);
}

/// The file of the given colors holds them unchanged: the fraction for row `r` and column `c` of
/// ColorMatrix1 (50721) is the given number over 10000, and so is that of ForwardMatrix1 (50964),
/// or the one of the color matrix where no forward matrix is given; component `c` of AsShotNeutral
/// (50728) is the given one over 10000.
pub proof fn law_given_colors_in_file(
    layout: LayoutView,
    width: u32,
    height: u32,
    pixel_values: Seq<u16>,
    color_matrix: [[i32; 3]; 3],
    forward_matrix: Option<[[i32; 3]; 3]>,
    neutral: [u32; 3],
    r: int,
    c: int,
)
    requires
        has_pattern(layout),
        0 <= r < 3,
        0 <= c < 3,
    ensures
        ({
            let colors = color_fractions(color_matrix, forward_matrix, neutral);
            let file = dng_bytes(layout, width, height, pixel_values, colors);
            &&& has_field(file, 50721, 10, 9)
            &&& signed_numerator_of(file, 50721, 3 * r + c) == color_matrix[r][c]
            &&& signed_denominator_of(file, 50721, 3 * r + c) == 10000
            &&& has_field(file, 50964, 10, 9)
            &&& forward_matrix matches Some(matrix) ==> signed_numerator_of(
                file,
                50964,
                3 * r + c,
            ) == matrix[r][c]
            &&& forward_matrix is None ==> signed_numerator_of(file, 50964, 3 * r + c)
                == color_matrix[r][c]
            &&& signed_denominator_of(file, 50964, 3 * r + c) == 10000
            &&& has_field(file, 50728, 5, 3)
            &&& numerator_of(file, 50728, c) == neutral[c]
            &&& denominator_of(file, 50728, c) == 10000
        }),
{
    let colors = color_fractions(color_matrix, forward_matrix, neutral);
    law_color_fractions(color_matrix, forward_matrix, neutral, r, c);
    law_colors_in_file(layout, width, height, pixel_values, colors);
}

/// In the linear layout, a reader finds all three samples of every pixel as the image has them:
/// sample `c` of the pixel at column `x` of row `y`.
pub proof fn law_linear_pixel_in_file(
    width: u32,
    height: u32,
    samples: Seq<u16>,
    colors: ColorView,
    x: int,
    y: int,
    c: int,
)
    requires
        has_all_colors(colors),
        3 * width * height <= samples.len(),
        2 * samples.len() <= u32::MAX,
        0 <= x < width,
        0 <= y < height,
        0 <= c < 3,
    ensures
        ({
            let layout = LayoutView::Linear;
            let pixel_values = strip_samples(layout, width as int, height as int, samples);
            let file = dng_bytes(layout, width, height, pixel_values, colors);
            &&& pixel_sample(file, x, y, c) == samples[3 * (y * width + x) + c]
            &&& long_of(file, 279, 0) == 2 * samples.len()
        }),
{
    let layout = LayoutView::Linear;
    let pixel_values = strip_samples(layout, width as int, height as int, samples);
    let file = dng_bytes(layout, width, height, pixel_values, colors);
    let i = y * width + x;
    law_linear_sample(width as int, height as int, samples, x, y, c);
    law_size_in_file(layout, width, height, pixel_values, colors);
    law_samples_described(layout, width, height, pixel_values, colors);
    law_strip_in_file(layout, width, height, pixel_values, colors);
    assert(strip_sample(file, 3 * i + c) == pixel_values[3 * i + c]);
}

/// In a layout with a filter, a reader finds one sample of every pixel: the one of the color that
/// the filter in the file has at column `x` of row `y`.
pub proof fn law_filtered_pixel_in_file(
    layout: LayoutView,
    width: u32,
    height: u32,
    samples: Seq<u16>,
    colors: ColorView,
    x: int,
    y: int,
)
    requires
        has_pattern(layout),
        has_all_colors(colors),
        !(layout is Linear),
        2 * width * height <= u32::MAX,
        0 <= x < width,
        0 <= y < height,
    ensures
        ({
            let pixel_values = strip_samples(layout, width as int, height as int, samples);
            let file = dng_bytes(layout, width, height, pixel_values, colors);
            &&& pixel_sample(file, x, y, 0) == samples[3 * (y * width + x) + filter_color(
                file,
                x,
                y,
            )]
            &&& long_of(file, 279, 0) == 2 * width * height
        }),
{
    let pixel_values = strip_samples(layout, width as int, height as int, samples);
    let file = dng_bytes(layout, width, height, pixel_values, colors);
    let i = y * width + x;
    assert(2 * (width * height) == 2 * width * height) by (nonlinear_arith);
    assert(long_of(file, 256, 0) == width) by {
        law_size_in_file(layout, width, height, pixel_values, colors);
    }
    assert(short_of(file, 277, 0) == 1) by {
        law_samples_described(layout, width, height, pixel_values, colors);
    }
    match layout {
        LayoutView::Bayer { name, pattern } => {
            law_bayer_samples_taken(name, pattern, width as int, height as int, samples, x, y);
            assert(filter_color(file, x, y) == pattern[y % 2 * 2 + x % 2]) by {
                law_filter_in_file(layout, width, height, pixel_values, colors);
            }
        },
        _ => {
            law_xtrans_samples_taken(width as int, height as int, samples, x, y);
            assert(filter_color(file, x, y) == xtrans_colors()[y % 6 * 6 + x % 6]) by {
                law_filter_in_file(layout, width, height, pixel_values, colors);
                law_xtrans_pattern_in_file(width, height, pixel_values, colors);
                law_xtrans_colors();
            }
        },
    }
    assert(strip_sample(file, i) == pixel_values[i] && long_of(file, 279, 0) == 2
        * pixel_values.len()) by {
        law_strip_in_file(layout, width, height, pixel_values, colors);
    }
}

/// The file of an image shows the image, in the layout that was asked for, with the given colors.
pub proof fn law_file_shows_image(
    cfa_type: Seq<char>,
    width: u32,
    height: u32,
    samples: Seq<u16>,
    color_matrix: [[i32; 3]; 3],
    forward_matrix: Option<[[i32; 3]; 3]>,
    neutral: [u32; 3],
)
    requires
        requested_layout(cfa_type) is Some,
        2 * strip_samples(
            requested_layout(cfa_type)->0,
            width as int,
            height as int,
            samples,
        ).len() <= u32::MAX,
    ensures
        ({
            let layout = requested_layout(cfa_type)->0;
            let pixel_values = strip_samples(layout, width as int, height as int, samples);
            let colors = color_fractions(color_matrix, forward_matrix, neutral);
            let file = dng_bytes(layout, width, height, pixel_values, colors);
            &&& shows_image(file, width, height, samples)
            &&& shows_layout(file, normalized(cfa_type))
            &&& shows_colors(file, color_matrix, forward_matrix, neutral)
        }),
{
    let layout = requested_layout(cfa_type)->0;
    let pixel_values = strip_samples(layout, width as int, height as int, samples);
    let colors = color_fractions(color_matrix, forward_matrix, neutral);
    let file = dng_bytes(layout, width, height, pixel_values, colors);
    assert(has_pattern(layout)) by {
        law_known_names(cfa_type);
    }
    assert(has_all_colors(colors)) by {
        law_color_fractions(color_matrix, forward_matrix, neutral, 0, 0);
    }
    lemma_shows_image(layout, width, height, samples, colors);
    lemma_shows_layout(cfa_type, width, height, pixel_values, colors);
    lemma_shows_colors(
        layout,
        width,
        height,
        pixel_values,
        color_matrix,
        forward_matrix,
        neutral,
    );
}

proof fn lemma_shows_colors(
    layout: LayoutView,
    width: u32,
    height: u32,
    pixel_values: Seq<u16>,
    color_matrix: [[i32; 3]; 3],
    forward_matrix: Option<[[i32; 3]; 3]>,
    neutral: [u32; 3],
)
    requires
        has_pattern(layout),
    ensures
        ({
            let colors = color_fractions(color_matrix, forward_matrix, neutral);
            let file = dng_bytes(layout, width, height, pixel_values, colors);
            shows_colors(file, color_matrix, forward_matrix, neutral)
        }),
{
    let colors = color_fractions(color_matrix, forward_matrix, neutral);
    let file = dng_bytes(layout, width, height, pixel_values, colors);
    let forward = match forward_matrix {
        Some(matrix) => matrix,
        None => color_matrix,
    };
    assert(shows_matrix(file, 50721, color_matrix)) by {
        assert forall|r: int, c: int| 0 <= r < 3 && 0 <= c < 3 implies {
            &&& #[trigger] signed_numerator_of(file, 50721, 3 * r + c) == color_matrix[r][c]
            &&& signed_denominator_of(file, 50721, 3 * r + c) == 10000
        } by {
            law_given_colors_in_file(
                layout,
                width,
                height,
                pixel_values,
                color_matrix,
                forward_matrix,
                neutral,
                r,
                c,
            );
        }
    }
    assert(shows_matrix(file, 50964, forward)) by {
        assert forall|r: int, c: int| 0 <= r < 3 && 0 <= c < 3 implies {
            &&& #[trigger] signed_numerator_of(file, 50964, 3 * r + c) == forward[r][c]
            &&& signed_denominator_of(file, 50964, 3 * r + c) == 10000
        } by {
            law_given_colors_in_file(
                layout,
                width,
                height,
                pixel_values,
                color_matrix,
                forward_matrix,
                neutral,
                r,
                c,
            );
        }
    }
    assert(shows_neutral(file, neutral)) by {
        assert forall|c: int| 0 <= c < 3 implies {
            &&& #[trigger] numerator_of(file, 50728, c) == neutral[c]
            &&& denominator_of(file, 50728, c) == 10000
        } by {
            law_given_colors_in_file(
                layout,
                width,
                height,
                pixel_values,
                color_matrix,
                forward_matrix,
                neutral,
                0,
                c,
            );
        }
    }
    assert(shows_colors(file, color_matrix, forward_matrix, neutral));
}

proof fn lemma_shows_image(
    layout: LayoutView,
    width: u32,
    height: u32,
    samples: Seq<u16>,
    colors: ColorView,
)
    requires
        has_pattern(layout),
        has_all_colors(colors),
        2 * strip_samples(layout, width as int, height as int, samples).len() <= u32::MAX,
    ensures
        ({
            let pixel_values = strip_samples(layout, width as int, height as int, samples);
            let file = dng_bytes(layout, width, height, pixel_values, colors);
            shows_image(file, width, height, samples)
        }),
{
    let pixel_values = strip_samples(layout, width as int, height as int, samples);
    let file = dng_bytes(layout, width, height, pixel_values, colors);
    assert(long_of(file, 256, 0) == width && long_of(file, 257, 0) == height) by {
        law_size_in_file(layout, width, height, pixel_values, colors);
    }
    assert(short_of(file, 262, 0) == if layout is Linear {
        34892
    } else {
        32803int
    }) by {
        law_samples_described(layout, width, height, pixel_values, colors);
    }
    if layout is Linear {
        if 3 * width * height <= samples.len() {
            assert forall|x: int, y: int, c: int|
                0 <= x < width && 0 <= y < height && 0 <= c < 3 implies #[trigger] pixel_sample(
                file,
                x,
                y,
                c,
            ) == samples[3 * (y * width + x) + c] by {
                law_linear_sample(width as int, height as int, samples, x, y, c);
                law_linear_pixel_in_file(width, height, samples, colors, x, y, c);
            }
        }
    } else {
        assert forall|x: int, y: int| 0 <= x < width && 0 <= y < height implies
            #[trigger] pixel_sample(file, x, y, 0) == samples[3 * (y * width + x) + filter_color(
            file,
            x,
            y,
        )] by {
            match layout {
                LayoutView::Bayer { name, pattern } => {
                    law_bayer_samples_taken(
                        name,
                        pattern,
                        width as int,
                        height as int,
                        samples,
                        x,
                        y,
                    );
                },
                _ => {
                    law_xtrans_samples_taken(width as int, height as int, samples, x, y);
                },
            }
            assert(2 * (width * height) == 2 * width * height) by (nonlinear_arith);
            law_filtered_pixel_in_file(layout, width, height, samples, colors, x, y);
        }
    }
}

#[verifier::rlimit(30)]
proof fn lemma_shows_layout(
    cfa_type: Seq<char>,
    width: u32,
    height: u32,
    pixel_values: Seq<u16>,
    colors: ColorView,
)
    requires
        requested_layout(cfa_type) is Some,
        has_all_colors(colors),
    ensures
        ({
            let layout = requested_layout(cfa_type)->0;
            let file = dng_bytes(layout, width, height, pixel_values, colors);
            shows_layout(file, normalized(cfa_type))
        }),
{
    let layout = requested_layout(cfa_type)->0;
    let name = normalized(cfa_type);
    let file = dng_bytes(layout, width, height, pixel_values, colors);
    reveal_strlit("");
    reveal_strlit("linear");
    reveal_strlit("rggb");
    reveal_strlit("bggr");
    reveal_strlit("grbg");
    reveal_strlit("gbrg");
    reveal_strlit("xtrans");
    reveal_strlit("x-trans");
    law_known_names(cfa_type);
    assert(short_of(file, 277, 0) == if layout is Linear {
        3
    } else {
        1int
    } && short_of(file, 262, 0) == if layout is Linear {
        34892
    } else {
        32803int
    }) by {
        law_samples_described(layout, width, height, pixel_values, colors);
    }
    assert(has_tag(file, 33422) <==> !(layout is Linear)) by {
        law_tags_in_file(layout, width, height, pixel_values, colors, 33422);
    }
    if let LayoutView::Bayer { name: shown, pattern } = layout {
        assert(name == "rggb"@ || name == "bggr"@ || name == "grbg"@ || name == "gbrg"@);
        assert(short_of(file, 33421, 0) == 2 && short_of(file, 33421, 1) == 2 && forall|k: int|
            0 <= k < 4 ==> #[trigger] byte_of(file, 33422, k) == pattern[k]) by {
            law_filter_in_file(layout, width, height, pixel_values, colors);
        }
        assert forall|k: int| 0 <= k < 4 implies {
            ||| name[k] == 'r' && #[trigger] byte_of(file, 33422, k) == 0
            ||| name[k] == 'g' && byte_of(file, 33422, k) == 1
            ||| name[k] == 'b' && byte_of(file, 33422, k) == 2
        } by {
            assert(byte_of(file, 33422, k) == pattern[k]);
        }
    } else if layout is XTrans {
        assert(short_of(file, 33421, 0) == 6 && short_of(file, 33421, 1) == 6) by {
            law_filter_in_file(layout, width, height, pixel_values, colors);
        }
    }
}

} // verus!
