//! The entries of the directory of a DNG file.
use crate::colors::{ColorView, Colors};
use crate::ifd::{views, EntryView, IfdEntry};
use crate::layout::{xtrans_colors, DngLayout, LayoutView, XTRANS_PATTERN};
use crate::order::distinct_tags;
use crate::tags::{
    COMPRESSION_NONE, LIGHT_SOURCE_D65, PHOTOMETRIC_CFA, PHOTOMETRIC_LINEAR_RAW,
    PLANAR_CONFIGURATION_CHUNKY, SAMPLE_FORMAT_UNSIGNED_INTEGER, TAG_AS_SHOT_NEUTRAL,
    TAG_BITS_PER_SAMPLE, TAG_BLACK_LEVEL, TAG_BLACK_LEVEL_REPEAT_DIM,
    TAG_CALIBRATION_ILLUMINANT_1, TAG_CFA_LAYOUT, TAG_CFA_PATTERN, TAG_CFA_PLANE_COLOR,
    TAG_CFA_REPEAT_PATTERN_DIM, TAG_COLOR_MATRIX_1, TAG_COMPRESSION, TAG_DEFAULT_CROP_ORIGIN,
    TAG_DEFAULT_CROP_SIZE, TAG_DNG_BACKWARD_VERSION, TAG_DNG_VERSION, TAG_FORWARD_MATRIX_1,
    TAG_IMAGE_LENGTH, TAG_IMAGE_WIDTH, TAG_MAKE, TAG_MODEL, TAG_NEW_SUBFILE_TYPE,
    TAG_PHOTOMETRIC_INTERPRETATION, TAG_PLANAR_CONFIGURATION, TAG_ROWS_PER_STRIP,
    TAG_SAMPLES_PER_PIXEL, TAG_SAMPLE_FORMAT, TAG_STRIP_BYTE_COUNTS, TAG_STRIP_OFFSETS,
    TAG_UNIQUE_CAMERA_MODEL, TAG_WHITE_LEVEL,
};
use vstd::prelude::*;

verus! {

/// The number of samples that each pixel has in a file.
pub open spec fn samples_per_pixel(layout: LayoutView) -> u16 {
    if layout is Linear {
        3
    } else {
        1
    }
}

/// `value` once for each sample of a pixel.
pub open spec fn for_each_sample(layout: LayoutView, value: u16) -> Seq<u16> {
    if layout is Linear {
        seq![value, value, value]
    } else {
        seq![value]
    }
}

/// How the samples of a pixel are to be understood.
pub open spec fn photometric(layout: LayoutView) -> u16 {
    if layout is Linear {
        PHOTOMETRIC_LINEAR_RAW
    } else {
        PHOTOMETRIC_CFA
    }
}

/// The entries that describe the image and say where its pixels stand.
pub open spec fn image_views(
    layout: LayoutView,
    width: u32,
    height: u32,
    strip_offset: u32,
    strip_len: u32,
) -> Seq<EntryView> {
    seq![
        EntryView::long(TAG_NEW_SUBFILE_TYPE, seq![0u32]),
        EntryView::long(TAG_IMAGE_WIDTH, seq![width]),
        EntryView::long(TAG_IMAGE_LENGTH, seq![height]),
        EntryView::short(TAG_BITS_PER_SAMPLE, for_each_sample(layout, 16)),
        EntryView::short(TAG_COMPRESSION, seq![COMPRESSION_NONE]),
        EntryView::short(TAG_PHOTOMETRIC_INTERPRETATION, seq![photometric(layout)]),
        EntryView::ascii(TAG_MAKE, "Custom"@),
        EntryView::ascii(TAG_MODEL, "Synthetic Camera"@),
        EntryView::long(TAG_STRIP_OFFSETS, seq![strip_offset]),
        EntryView::short(TAG_SAMPLES_PER_PIXEL, seq![samples_per_pixel(layout)]),
        EntryView::long(TAG_ROWS_PER_STRIP, seq![height]),
        EntryView::long(TAG_STRIP_BYTE_COUNTS, seq![strip_len]),
        EntryView::short(TAG_PLANAR_CONFIGURATION, seq![PLANAR_CONFIGURATION_CHUNKY]),
        EntryView::short(
            TAG_SAMPLE_FORMAT,
            for_each_sample(layout, SAMPLE_FORMAT_UNSIGNED_INTEGER),
        ),
    ]
}

/// The entries that describe the camera, its colors and the visible part of the image.
pub open spec fn camera_views(width: u32, height: u32, colors: ColorView) -> Seq<EntryView> {
    seq![
        EntryView::byte(TAG_DNG_VERSION, seq![1u8, 4u8, 0u8, 0u8]),
        EntryView::byte(TAG_DNG_BACKWARD_VERSION, seq![1u8, 1u8, 0u8, 0u8]),
        EntryView::ascii(TAG_UNIQUE_CAMERA_MODEL, "Synthetic Camera"@),
        EntryView::srational(TAG_COLOR_MATRIX_1, colors.color_matrix),
        EntryView::srational(TAG_FORWARD_MATRIX_1, colors.forward_matrix),
        EntryView::rational(TAG_AS_SHOT_NEUTRAL, colors.neutral),
        EntryView::short(TAG_CALIBRATION_ILLUMINANT_1, seq![LIGHT_SOURCE_D65]),
        EntryView::long(TAG_WHITE_LEVEL, seq![65535u32]),
        EntryView::long(TAG_DEFAULT_CROP_ORIGIN, seq![0u32, 0u32]),
        EntryView::long(TAG_DEFAULT_CROP_SIZE, seq![width, height]),
    ]
}

/// The entries that describe a color filter with a pattern of `size` rows and `size` columns.
pub open spec fn filter_views(size: u16, pattern: Seq<u8>) -> Seq<EntryView> {
    seq![
        EntryView::short(TAG_CFA_REPEAT_PATTERN_DIM, seq![size, size]),
        EntryView::byte(TAG_CFA_PATTERN, pattern),
        EntryView::byte(TAG_CFA_PLANE_COLOR, seq![0u8, 1u8, 2u8]),
        EntryView::short(TAG_CFA_LAYOUT, seq![1u16]),
        EntryView::short(TAG_BLACK_LEVEL_REPEAT_DIM, seq![size, size]),
        EntryView::rational(TAG_BLACK_LEVEL, black_levels((size * size) as nat)),
    ]
}

/// `count` black levels of zero.
pub open spec fn black_levels(count: nat) -> Seq<(u32, u32)> {
    Seq::new(count, |k: int| (0u32, 1u32))
}

/// The number of rows, and of columns, after which the pattern of a filter repeats.
pub open spec fn filter_size(layout: LayoutView) -> u16 {
    if layout is XTrans {
        6
    } else {
        2
    }
}

/// The colors of a filter, row by row.
pub open spec fn filter_pattern(layout: LayoutView) -> Seq<u8> {
    match layout {
        LayoutView::Linear => Seq::empty(),
        LayoutView::Bayer { name, pattern } => pattern,
        LayoutView::XTrans => xtrans_colors(),
    }
}

/// The entries that describe a layout.
pub open spec fn layout_views(layout: LayoutView) -> Seq<EntryView> {
    if layout is Linear {
        seq![EntryView::rational(TAG_BLACK_LEVEL, black_levels(3))]
    } else {
        filter_views(filter_size(layout), filter_pattern(layout))
    }
}

/// All entries of a file, in no particular order.
pub open spec fn dng_views(
    layout: LayoutView,
    width: u32,
    height: u32,
    strip_offset: u32,
    strip_len: u32,
    colors: ColorView,
) -> Seq<EntryView> {
    image_views(layout, width, height, strip_offset, strip_len) + camera_views(
        width,
        height,
        colors,
    ) + layout_views(layout)
}

/// Appends an entry.
fn push_entry(entries: &mut Vec<IfdEntry>, entry: IfdEntry)
    ensures
        views(final(entries)@) == views(old(entries)@).push(entry@),
{
    entries.push(entry);
}

fn one_short(tag: u16, value: u16) -> (entry: IfdEntry)
    ensures
        entry@ == EntryView::short(tag, seq![value]),
{
    let values: [u16; 1] = [value];
    assert(values@ == seq![value]);
    IfdEntry::short(tag, &values)
}

fn two_shorts(tag: u16, first: u16, second: u16) -> (entry: IfdEntry)
    ensures
        entry@ == EntryView::short(tag, seq![first, second]),
{
    let values: [u16; 2] = [first, second];
    assert(values@ == seq![first, second]);
    IfdEntry::short(tag, &values)
}

fn one_long(tag: u16, value: u32) -> (entry: IfdEntry)
    ensures
        entry@ == EntryView::long(tag, seq![value]),
{
    let values: [u32; 1] = [value];
    assert(values@ == seq![value]);
    IfdEntry::long(tag, &values)
}

fn two_longs(tag: u16, first: u32, second: u32) -> (entry: IfdEntry)
    ensures
        entry@ == EntryView::long(tag, seq![first, second]),
{
    let values: [u32; 2] = [first, second];
    assert(values@ == seq![first, second]);
    IfdEntry::long(tag, &values)
}

fn four_bytes(tag: u16, a: u8, b: u8, c: u8, d: u8) -> (entry: IfdEntry)
    ensures
        entry@ == EntryView::byte(tag, seq![a, b, c, d]),
{
    let values: [u8; 4] = [a, b, c, d];
    assert(values@ == seq![a, b, c, d]);
    IfdEntry::byte(tag, &values)
}

/// An entry with `value` once for each sample of a pixel.
fn short_for_each_sample(tag: u16, layout: &DngLayout, value: u16) -> (entry: IfdEntry)
    ensures
        entry@ == EntryView::short(tag, for_each_sample(layout@, value)),
{
    if layout.is_linear() {
        let values: [u16; 3] = [value, value, value];
        assert(values@ == seq![value, value, value]);
        IfdEntry::short(tag, &values)
    } else {
        one_short(tag, value)
    }
}

/// An entry with `count` black levels of zero.
fn zero_black_levels(count: usize) -> (entry: IfdEntry)
    ensures
        entry@ == EntryView::rational(TAG_BLACK_LEVEL, black_levels(count as nat)),
{
    let mut levels: Vec<(u32, u32)> = Vec::new();
    let mut k: usize = 0;
    while k < count
        invariant
            k <= count,
            levels@ == black_levels(k as nat),
        decreases count - k,
    {
        levels.push((0, 1));
        k += 1;
    }
    IfdEntry::rational(TAG_BLACK_LEVEL, &levels)
}

/// The entries that describe the image, with no position for its pixels yet.
fn image_entries(layout: &DngLayout, width: u32, height: u32, strip_len: u32) -> (entries: Vec<
    IfdEntry,
>)
    ensures
        views(entries@) == image_views(layout@, width, height, 0, strip_len),
{
    let linear: bool = layout.is_linear();
    let samples: u16 = if linear { 3 } else { 1 };
    let photometric: u16 = if linear { PHOTOMETRIC_LINEAR_RAW } else { PHOTOMETRIC_CFA };
    let format: u16 = SAMPLE_FORMAT_UNSIGNED_INTEGER;
    let mut entries: Vec<IfdEntry> = Vec::new();
    assert(views(entries@) == Seq::<EntryView>::empty());
    push_entry(&mut entries, one_long(TAG_NEW_SUBFILE_TYPE, 0));
    push_entry(&mut entries, one_long(TAG_IMAGE_WIDTH, width));
    push_entry(&mut entries, one_long(TAG_IMAGE_LENGTH, height));
    push_entry(&mut entries, short_for_each_sample(TAG_BITS_PER_SAMPLE, layout, 16));
    push_entry(&mut entries, one_short(TAG_COMPRESSION, COMPRESSION_NONE));
    push_entry(&mut entries, one_short(TAG_PHOTOMETRIC_INTERPRETATION, photometric));
    push_entry(&mut entries, IfdEntry::ascii(TAG_MAKE, "Custom"));
    push_entry(&mut entries, IfdEntry::ascii(TAG_MODEL, "Synthetic Camera"));
    push_entry(&mut entries, one_long(TAG_STRIP_OFFSETS, 0));
    push_entry(&mut entries, one_short(TAG_SAMPLES_PER_PIXEL, samples));
    push_entry(&mut entries, one_long(TAG_ROWS_PER_STRIP, height));
    push_entry(&mut entries, one_long(TAG_STRIP_BYTE_COUNTS, strip_len));
    push_entry(&mut entries, one_short(TAG_PLANAR_CONFIGURATION, PLANAR_CONFIGURATION_CHUNKY));
    push_entry(&mut entries, short_for_each_sample(TAG_SAMPLE_FORMAT, layout, format));
    entries
}

/// The entries that describe the camera, its colors and the visible part of the image.
fn camera_entries(width: u32, height: u32, colors: &Colors) -> (entries: Vec<IfdEntry>)
    ensures
        views(entries@) == camera_views(width, height, colors@),
{
    let mut entries: Vec<IfdEntry> = Vec::new();
    assert(views(entries@) == Seq::<EntryView>::empty());
    push_entry(&mut entries, four_bytes(TAG_DNG_VERSION, 1, 4, 0, 0));
    push_entry(&mut entries, four_bytes(TAG_DNG_BACKWARD_VERSION, 1, 1, 0, 0));
    push_entry(&mut entries, IfdEntry::ascii(TAG_UNIQUE_CAMERA_MODEL, "Synthetic Camera"));
    push_entry(&mut entries, IfdEntry::srational(TAG_COLOR_MATRIX_1, &colors.color_matrix));
    push_entry(&mut entries, IfdEntry::srational(TAG_FORWARD_MATRIX_1, &colors.forward_matrix));
    push_entry(&mut entries, IfdEntry::rational(TAG_AS_SHOT_NEUTRAL, &colors.neutral));
    push_entry(&mut entries, one_short(TAG_CALIBRATION_ILLUMINANT_1, LIGHT_SOURCE_D65));
    push_entry(&mut entries, one_long(TAG_WHITE_LEVEL, 65535));
    push_entry(&mut entries, two_longs(TAG_DEFAULT_CROP_ORIGIN, 0, 0));
    push_entry(&mut entries, two_longs(TAG_DEFAULT_CROP_SIZE, width, height));
    entries
}

/// The entries that describe a color filter with a pattern of `size` rows and `size` columns.
fn filter_entries(size: u16, pattern: &[u8]) -> (entries: Vec<IfdEntry>)
    requires
        size * size <= u16::MAX,
    ensures
        views(entries@) == filter_views(size, pattern@),
{
    let planes: [u8; 3] = [0, 1, 2];
    assert(planes@ == seq![0u8, 1u8, 2u8]);
    let mut entries: Vec<IfdEntry> = Vec::new();
    assert(views(entries@) == Seq::<EntryView>::empty());
    push_entry(&mut entries, two_shorts(TAG_CFA_REPEAT_PATTERN_DIM, size, size));
    push_entry(&mut entries, IfdEntry::byte(TAG_CFA_PATTERN, pattern));
    push_entry(&mut entries, IfdEntry::byte(TAG_CFA_PLANE_COLOR, &planes));
    push_entry(&mut entries, one_short(TAG_CFA_LAYOUT, 1));
    push_entry(&mut entries, two_shorts(TAG_BLACK_LEVEL_REPEAT_DIM, size, size));
    push_entry(&mut entries, zero_black_levels((size * size) as usize));
    entries
}

/// The colors of an X-Trans filter, row by row.
fn xtrans_pattern() -> (pattern: Vec<u8>)
    ensures
        pattern@ == xtrans_colors(),
{
    let mut pattern: Vec<u8> = Vec::new();
    let mut k: usize = 0;
    while k < 36
        invariant
            k <= 36,
            pattern@ == xtrans_colors().take(k as int),
        decreases 36 - k,
    {
        pattern.push(XTRANS_PATTERN[k / 6][k % 6]);
        k += 1;
    }
    pattern
}

/// The entries that describe a layout.
fn layout_entries(layout: &DngLayout) -> (entries: Vec<IfdEntry>)
    ensures
        views(entries@) == layout_views(layout@),
{
    match layout {
        DngLayout::Linear => {
            let mut entries: Vec<IfdEntry> = Vec::new();
            assert(views(entries@) == Seq::<EntryView>::empty());
            push_entry(&mut entries, zero_black_levels(3));
            entries
        },
        DngLayout::Bayer { pattern, .. } => filter_entries(2, pattern),
        DngLayout::XTrans => filter_entries(6, &xtrans_pattern()),
    }
}

/// All entries of a file, with no position for its pixels yet.
pub fn dng_entries(
    layout: &DngLayout,
    width: u32,
    height: u32,
    strip_len: u32,
    colors: &Colors,
) -> (entries: Vec<IfdEntry>)
    ensures
        views(entries@) == dng_views(layout@, width, height, 0, strip_len, colors@),
{
    let mut entries: Vec<IfdEntry> = image_entries(layout, width, height, strip_len);
    let mut camera: Vec<IfdEntry> = camera_entries(width, height, colors);
    let mut described: Vec<IfdEntry> = layout_entries(layout);
    let ghost all = views(entries@) + views(camera@) + views(described@);
    entries.append(&mut camera);
    entries.append(&mut described);
    assert(views(entries@) == all);
    entries
}

/// The place of a tag among all tags that a file can have.
spec fn tag_rank(tag: u16) -> int {
    if tag == TAG_NEW_SUBFILE_TYPE {
        0
    } else if tag == TAG_IMAGE_WIDTH {
        1
    } else if tag == TAG_IMAGE_LENGTH {
        2
    } else if tag == TAG_BITS_PER_SAMPLE {
        3
    } else if tag == TAG_COMPRESSION {
        4
    } else if tag == TAG_PHOTOMETRIC_INTERPRETATION {
        5
    } else if tag == TAG_MAKE {
        6
    } else if tag == TAG_MODEL {
        7
    } else if tag == TAG_STRIP_OFFSETS {
        8
    } else if tag == TAG_SAMPLES_PER_PIXEL {
        9
    } else if tag == TAG_ROWS_PER_STRIP {
        10
    } else if tag == TAG_STRIP_BYTE_COUNTS {
        11
    } else if tag == TAG_PLANAR_CONFIGURATION {
        12
    } else if tag == TAG_SAMPLE_FORMAT {
        13
    } else if tag == TAG_DNG_VERSION {
        14
    } else if tag == TAG_DNG_BACKWARD_VERSION {
        15
    } else if tag == TAG_UNIQUE_CAMERA_MODEL {
        16
    } else if tag == TAG_COLOR_MATRIX_1 {
        17
    } else if tag == TAG_FORWARD_MATRIX_1 {
        18
    } else if tag == TAG_AS_SHOT_NEUTRAL {
        19
    } else if tag == TAG_CALIBRATION_ILLUMINANT_1 {
        20
    } else if tag == TAG_WHITE_LEVEL {
        21
    } else if tag == TAG_DEFAULT_CROP_ORIGIN {
        22
    } else if tag == TAG_DEFAULT_CROP_SIZE {
        23
    } else if tag == TAG_CFA_REPEAT_PATTERN_DIM {
        24
    } else if tag == TAG_CFA_PATTERN {
        25
    } else if tag == TAG_CFA_PLANE_COLOR {
        26
    } else if tag == TAG_CFA_LAYOUT {
        27
    } else if tag == TAG_BLACK_LEVEL_REPEAT_DIM {
        28
    } else if tag == TAG_BLACK_LEVEL {
        29
    } else {
        -1
    }
}

/// Whether a layout has the pattern that its kind of filter needs.
pub open spec fn has_pattern(layout: LayoutView) -> bool {
    layout matches LayoutView::Bayer { name, pattern } ==> pattern.len() == 4
}

/// Whether there are nine fractions in each matrix and three in the neutral color.
pub open spec fn has_all_colors(colors: ColorView) -> bool {
    &&& colors.color_matrix.len() == 9
    &&& colors.forward_matrix.len() == 9
    &&& colors.neutral.len() == 3
}

/// The most bytes that the values of an entry take: the 36 black levels of an X-Trans filter.
pub open spec fn longest_data() -> nat {
    288
}

proof fn lemma_ascii(tag: u16, text: Seq<char>)
    requires
        vstd::utf8::is_ascii_chars(text),
    ensures
        EntryView::ascii(tag, text).data.len() <= text.len() + 1,
        text.len() < u32::MAX ==> EntryView::ascii(tag, text).well_formed(),
{
    vstd::utf8::is_ascii_chars_encode_utf8(text);
}

proof fn lemma_image_views(
    layout: LayoutView,
    width: u32,
    height: u32,
    strip_offset: u32,
    strip_len: u32,
)
    ensures
        ({
            let entries = image_views(layout, width, height, strip_offset, strip_len);
            &&& entries.len() == 14
            &&& forall|i: int| #![trigger entries[i]]
                0 <= i < 14 ==> {
                    &&& tag_rank(entries[i].tag) == i
                    &&& entries[i].data.len() <= longest_data()
                    &&& entries[i].well_formed()
                }
        }),
{
    reveal_strlit("Custom");
    reveal_strlit("Synthetic Camera");
    lemma_ascii(TAG_MAKE, "Custom"@);
    lemma_ascii(TAG_MODEL, "Synthetic Camera"@);
}

proof fn lemma_camera_views(width: u32, height: u32, colors: ColorView)
    requires
        has_all_colors(colors),
    ensures
        ({
            let entries = camera_views(width, height, colors);
            &&& entries.len() == 10
            &&& forall|i: int| #![trigger entries[i]]
                0 <= i < 10 ==> {
                    &&& tag_rank(entries[i].tag) == 14 + i
                    &&& entries[i].data.len() <= longest_data()
                    &&& entries[i].well_formed()
                }
        }),
{
    reveal_strlit("Synthetic Camera");
    lemma_ascii(TAG_UNIQUE_CAMERA_MODEL, "Synthetic Camera"@);
}

proof fn lemma_layout_views(layout: LayoutView)
    requires
        has_pattern(layout),
    ensures
        ({
            let entries = layout_views(layout);
            &&& entries.len() == (if layout is Linear {
                1nat
            } else {
                6nat
            })
            &&& forall|i: int| #![trigger entries[i]]
                0 <= i < entries.len() ==> {
                    &&& tag_rank(entries[i].tag) == (if layout is Linear {
                        29
                    } else {
                        24 + i
                    })
                    &&& entries[i].data.len() <= longest_data()
                    &&& entries[i].well_formed()
                }
        }),
{
}

/// A file has 25 entries in the linear layout and 30 in the others. No tag occurs twice, and
/// every entry has the bytes of as many values as it counts, which are never more than
/// `longest_data` bytes.
pub proof fn law_dng_entries(
    layout: LayoutView,
    width: u32,
    height: u32,
    strip_offset: u32,
    strip_len: u32,
    colors: ColorView,
)
    requires
        has_pattern(layout),
        has_all_colors(colors),
    ensures
        ({
            let entries = dng_views(layout, width, height, strip_offset, strip_len, colors);
            &&& entries.len() == (if layout is Linear {
                25nat
            } else {
                30nat
            })
            &&& distinct_tags(entries)
            &&& forall|i: int| #![trigger entries[i]]
                0 <= i < entries.len() ==> entries[i].well_formed() && entries[i].data.len()
                    <= longest_data()
        }),
{
    let entries = dng_views(layout, width, height, strip_offset, strip_len, colors);
    let image = image_views(layout, width, height, strip_offset, strip_len);
    let camera = camera_views(width, height, colors);
    let described = layout_views(layout);
    lemma_image_views(layout, width, height, strip_offset, strip_len);
    lemma_camera_views(width, height, colors);
    lemma_layout_views(layout);
    assert forall|i: int| #![trigger entries[i]] 0 <= i < entries.len() implies {
        &&& entries[i].well_formed()
        &&& entries[i].data.len() <= longest_data()
        &&& tag_rank(entries[i].tag) == (if i == 24 && layout is Linear {
            29
        } else {
            i
        })
    } by {
        if i < 14 {
            assert(entries[i] == image[i]);
        } else if i < 24 {
            assert(entries[i] == camera[i - 14]);
        } else {
            assert(entries[i] == described[i - 24]);
        }
    }
}

/// The position of the pixels is written in one entry, and nowhere else.
pub(crate) proof fn lemma_strip_offset_entry(
    layout: LayoutView,
    width: u32,
    height: u32,
    strip_offset: u32,
    strip_len: u32,
    colors: ColorView,
)
    requires
        has_pattern(layout),
        has_all_colors(colors),
    ensures
        ({
            let unplaced = dng_views(layout, width, height, 0, strip_len, colors);
            let placed = dng_views(layout, width, height, strip_offset, strip_len, colors);
            &&& unplaced[8].tag == TAG_STRIP_OFFSETS
            &&& placed[11] == EntryView::long(TAG_STRIP_BYTE_COUNTS, seq![strip_len])
            &&& placed == unplaced.update(
                8,
                EntryView::long(TAG_STRIP_OFFSETS, seq![strip_offset]),
            )
        }),
{
    let unplaced = image_views(layout, width, height, 0, strip_len);
    let placed = image_views(layout, width, height, strip_offset, strip_len);
    assert(placed == unplaced.update(
        8,
        EntryView::long(TAG_STRIP_OFFSETS, seq![strip_offset]),
    ));
}

pub(crate) proof fn lemma_color_entries(
    layout: LayoutView,
    width: u32,
    height: u32,
    strip_offset: u32,
    strip_len: u32,
    colors: ColorView,
)
    ensures
        ({
            let entries = dng_views(layout, width, height, strip_offset, strip_len, colors);
            &&& entries[17] == EntryView::srational(TAG_COLOR_MATRIX_1, colors.color_matrix)
            &&& entries[18] == EntryView::srational(TAG_FORWARD_MATRIX_1, colors.forward_matrix)
            &&& entries[19] == EntryView::rational(TAG_AS_SHOT_NEUTRAL, colors.neutral)
        }),
{
    let camera = camera_views(width, height, colors);
    let entries = dng_views(layout, width, height, strip_offset, strip_len, colors);
    assert(entries[17] == camera[3]);
    assert(entries[18] == camera[4]);
    assert(entries[19] == camera[5]);
}

pub(crate) proof fn lemma_filter_entries(
    layout: LayoutView,
    width: u32,
    height: u32,
    strip_offset: u32,
    strip_len: u32,
    colors: ColorView,
)
    requires
        !(layout is Linear),
    ensures
        ({
            let entries = dng_views(layout, width, height, strip_offset, strip_len, colors);
            let size = filter_size(layout);
            &&& entries[24] == EntryView::short(TAG_CFA_REPEAT_PATTERN_DIM, seq![size, size])
            &&& entries[25] == EntryView::byte(TAG_CFA_PATTERN, filter_pattern(layout))
        }),
{
    let described = layout_views(layout);
    let entries = dng_views(layout, width, height, strip_offset, strip_len, colors);
    assert(entries[24] == described[0]);
    assert(entries[25] == described[1]);
}

} // verus!
