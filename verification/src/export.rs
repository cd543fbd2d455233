//! Images as DNG files.
use crate::bytes::{
    law_samples_read_back, le16_all, le32_all, read16, read32, u16_slice_to_le_bytes,
};
use crate::colors::{
    color_fractions, matrix_fractions, neutral_fractions, ColorView, Colors, MATRIX_DENOMINATOR,
    NEUTRAL_DENOMINATOR,
};
use crate::dng::{
    dng_entries, dng_views, filter_pattern, filter_size, has_all_colors, has_pattern,
    law_dng_entries, lemma_color_entries, lemma_filter_entries, lemma_strip_offset_entry,
    longest_data,
};
use crate::error::DngError;
use crate::ifd::{views, EntryView, IfdEntry};
use crate::layout::{bayer_channel, law_known_names, requested_layout, DngLayout, LayoutView};
use crate::order::{
    distinct_tags, law_distinct_tags_sort_strictly, law_sorted_by_tag, lemma_sort_map,
    lemma_sorted_member, sort_by_tag, sorted_by_tag, strictly_ascending,
};
use crate::raster::{
    buffer_height, buffer_width, image_height, image_samples, image_width, law_bayer_sample,
    law_filtered_strip_len, law_linear_strip, law_xtrans_sample, layout_samples, pixel_at,
    strip_samples, ImageRgb16,
};
use crate::reading::{law_file_shows_image, shows_colors, shows_image, shows_layout};
use crate::tags::{
    TAG_AS_SHOT_NEUTRAL, TAG_CFA_PATTERN, TAG_CFA_REPEAT_PATTERN_DIM, TAG_COLOR_MATRIX_1,
    TAG_FORWARD_MATRIX_1, TAG_STRIP_BYTE_COUNTS, TAG_STRIP_OFFSETS,
};
use crate::text::normalized;
use crate::tiff::{
    data_offset, law_entry_reads_back, law_header_reads_back, law_strip_reads_back,
    lemma_offset_bound, lemma_same_sizes, offset_before, plan_offsets, strip_position, tiff_bytes,
    tiff_file, DataPlan,
};
use vstd::prelude::*;

verus! {

/// The entries with a position for the pixels in the first entry that can hold it.
pub open spec fn with_strip_offset(entries: Seq<EntryView>, strip_offset: u32) -> Seq<EntryView> {
    Seq::new(
        entries.len(),
        |i: int|
            if entries[i].tag == TAG_STRIP_OFFSETS && (forall|j: int|
                0 <= j < i ==> (#[trigger] entries[j]).tag != TAG_STRIP_OFFSETS) {
                EntryView::long(TAG_STRIP_OFFSETS, seq![strip_offset])
            } else {
                entries[i]
            },
    )
}

/// The directory of a file: its entries in ascending order of their tags, with the position at
/// which the pixels stand.
pub open spec fn dng_directory(
    layout: LayoutView,
    width: u32,
    height: u32,
    strip_len: u32,
    colors: ColorView,
) -> Seq<EntryView> {
    let unplaced = sorted_by_tag(dng_views(layout, width, height, 0, strip_len, colors));
    sorted_by_tag(
        dng_views(
            layout,
            width,
            height,
            strip_position(unplaced) as u32,
            strip_len,
            colors,
        ),
    )
}

/// The bytes of a file with the given samples.
pub open spec fn dng_bytes(
    layout: LayoutView,
    width: u32,
    height: u32,
    pixel_values: Seq<u16>,
    colors: ColorView,
) -> Seq<u8> {
    tiff_file(
        dng_directory(layout, width, height, (2 * pixel_values.len()) as u32, colors),
        le16_all(pixel_values),
    )
}

/// Whether a file can be written: the image has pixels, the layout is known, and 32 bits can count
/// the bytes of the pixels.
pub open spec fn can_encode(
    cfa_type: Seq<char>,
    width: u32,
    height: u32,
    samples: Seq<u16>,
) -> bool {
    let requested = requested_layout(cfa_type);
    &&& width != 0 && height != 0
    &&& requested is Some
    &&& 2 * strip_samples(requested->0, width as int, height as int, samples).len() <= u32::MAX
}

/// The number of bytes that the pixels take as the directory writes it.
pub fn strip_byte_count(len: usize) -> (count: Result<u32, DngError>)
    ensures
        match count {
            Ok(n) => len <= u32::MAX && n == len,
            Err(error) => len > u32::MAX && error is PixelDataTooLarge,
        },
{
    if len > u32::MAX as usize {
        Err(DngError::PixelDataTooLarge)
    } else {
        Ok(len as u32)
    }
}

/// Writes the position of the pixels in the first entry that can hold it.
pub fn set_strip_offset(entries: &mut Vec<IfdEntry>, strip_offset: u32)
    ensures
        views(final(entries)@) == with_strip_offset(views(old(entries)@), strip_offset),
{
    let ghost given = views(entries@);
    let mut i: usize = 0;
    while i < entries.len()
        invariant
            i <= entries.len(),
            given == views(old(entries)@),
            given == views(entries@),
            forall|j: int| 0 <= j < i ==> (#[trigger] given[j]).tag != TAG_STRIP_OFFSETS,
        decreases entries.len() - i,
    {
        assert(given[i as int] == entries@[i as int]@);
        if entries[i].tag == TAG_STRIP_OFFSETS {
            let values: [u32; 1] = [strip_offset];
            assert(values@ == seq![strip_offset]);
            entries[i] = IfdEntry::long(TAG_STRIP_OFFSETS, &values);
            assert(views(entries@) == with_strip_offset(given, strip_offset));
            return;
        }
        i += 1;
    }
    assert(views(entries@) == with_strip_offset(given, strip_offset));
}

proof fn lemma_sorted_sizes(entries: Seq<EntryView>)
    requires
        forall|i: int|
            0 <= i < entries.len() ==> (#[trigger] entries[i]).data.len() <= longest_data(),
        entries.len() <= 30,
    ensures
        sorted_by_tag(entries).len() == entries.len(),
        forall|i: int|
            0 <= i < entries.len() ==> (#[trigger] sorted_by_tag(entries)[i]).data.len()
                <= longest_data(),
        forall|n: int|
            0 <= n <= entries.len() ==> #[trigger] offset_before(sorted_by_tag(entries), n)
                <= 10_000,
{
    let sorted = sorted_by_tag(entries);
    law_sorted_by_tag(entries);
    assert forall|i: int| 0 <= i < entries.len() implies (#[trigger] sorted[i]).data.len()
        <= longest_data() by {
        lemma_sorted_member(entries, i);
        let k = choose|k: int| 0 <= k < entries.len() && entries[k] == sorted[i];
        assert(entries[k].data.len() <= longest_data());
    }
    assert forall|n: int| 0 <= n <= entries.len() implies #[trigger] offset_before(sorted, n)
        <= 10_000 by {
        lemma_offset_bound(sorted, longest_data(), n);
        assert(n * (longest_data() + 1) <= 30 * 289) by (nonlinear_arith)
            requires
                n <= 30,
                longest_data() == 288,
        ;
    }
}

/// Writing the position of the pixels moves nothing and keeps the order of the entries.
pub(crate) proof fn lemma_placed(
    layout: LayoutView,
    width: u32,
    height: u32,
    strip_len: u32,
    colors: ColorView,
)
    requires
        has_pattern(layout),
        has_all_colors(colors),
    ensures
        ({
            let unplaced = sorted_by_tag(dng_views(layout, width, height, 0, strip_len, colors));
            let directory = dng_directory(layout, width, height, strip_len, colors);
            &&& with_strip_offset(unplaced, strip_position(unplaced) as u32) == directory
            &&& strip_position(directory) == strip_position(unplaced)
            &&& forall|n: int|
                0 <= n <= unplaced.len() ==> offset_before(unplaced, n)
                    == #[trigger] offset_before(directory, n)
            &&& unplaced.len() == directory.len()
            &&& forall|i: int|
                #![trigger unplaced[i]]
                #![trigger directory[i]]
                0 <= i < unplaced.len() ==> unplaced[i].data.len() == directory[i].data.len()
        }),
{
    let list = dng_views(layout, width, height, 0, strip_len, colors);
    let unplaced = sorted_by_tag(list);
    let offset = strip_position(unplaced) as u32;
    let entry = EntryView::long(TAG_STRIP_OFFSETS, seq![offset]);
    let change = |e: EntryView|
        if e.tag == TAG_STRIP_OFFSETS {
            entry
        } else {
            e
        };
    law_dng_entries(layout, width, height, 0, strip_len, colors);
    law_sorted_by_tag(list);
    law_distinct_tags_sort_strictly(list);
    lemma_strip_offset_entry(layout, width, height, offset, strip_len, colors);
    assert(list.map_values(change) == list.update(8, entry)) by {
        assert forall|i: int| 0 <= i < list.len() implies #[trigger] list.map_values(change)[i]
            == list.update(8, entry)[i] by {
            if i != 8 {
                assert(list[i].tag != list[8].tag);
            }
        }
    }
    lemma_sort_map(list, change);
    let directory = dng_directory(layout, width, height, strip_len, colors);
    assert(directory == unplaced.map_values(change));
    assert(with_strip_offset(unplaced, offset) == directory) by {
        assert forall|i: int| 0 <= i < unplaced.len() implies #[trigger] with_strip_offset(
            unplaced,
            offset,
        )[i] == directory[i] by {
            if unplaced[i].tag == TAG_STRIP_OFFSETS {
                assert forall|j: int| 0 <= j < i implies (#[trigger] unplaced[j]).tag
                    != TAG_STRIP_OFFSETS by {
                    assert(unplaced[j].tag < unplaced[i].tag);
                }
            }
        }
    }
    assert forall|i: int|
        #![trigger unplaced[i]]
        #![trigger directory[i]]
        0 <= i < unplaced.len() implies unplaced[i].data.len() == directory[i].data.len() by {
        if unplaced[i].tag == TAG_STRIP_OFFSETS {
            lemma_sorted_member(list, i);
            let k = choose|k: int| 0 <= k < list.len() && list[k] == unplaced[i];
            if k != 8 {
                assert(list[k].tag != list[8].tag);
            }
        }
    }
    assert forall|n: int| 0 <= n <= unplaced.len() implies offset_before(unplaced, n)
        == #[trigger] offset_before(directory, n) by {
        lemma_same_sizes(unplaced, directory, n);
    }
}

/// The bytes of a file with the given samples.
pub fn dng_file(
    layout: &DngLayout,
    width: u32,
    height: u32,
    pixel_values: &[u16],
    colors: &Colors,
) -> (file: Result<Vec<u8>, DngError>)
    ensures
        match file {
            Ok(bytes) => {
                &&& 2 * pixel_values@.len() <= u32::MAX
                &&& bytes@ == dng_bytes(layout@, width, height, pixel_values@, colors@)
            },
            Err(error) => {
                &&& 2 * pixel_values@.len() > u32::MAX
                &&& error is PixelDataTooLarge
            },
        },
{
    let strip: Vec<u8> = u16_slice_to_le_bytes(pixel_values);
    let strip_len: u32 = strip_byte_count(strip.len())?;
    let mut entries: Vec<IfdEntry> = dng_entries(layout, width, height, strip_len, colors);
    let ghost list = views(entries@);
    sort_by_tag(&mut entries);
    let ghost unplaced = views(entries@);
    proof {
        law_dng_entries(layout@, width, height, 0, strip_len, colors@);
        lemma_sorted_sizes(list);
        lemma_placed(layout@, width, height, strip_len, colors@);
        assert forall|i: int| 0 <= i < entries@.len() implies (#[trigger] entries@[i]).data@.len()
            <= longest_data() && offset_before(unplaced, i) <= 10_000 by {
            assert(unplaced[i] == entries@[i]@);
        }
    }
    let plan: DataPlan = plan_offsets(&entries)?;
    set_strip_offset(&mut entries, plan.strip_offset);
    let ghost directory = dng_directory(layout@, width, height, strip_len, colors@);
    assert(views(entries@) == directory);
    assert(plan.places(directory)) by {
        assert forall|i: int| 0 <= i < directory.len() implies #[trigger] plan.offsets@[i]
            == data_offset(directory, i) by {
            assert(plan.offsets@[i] == data_offset(unplaced, i));
            assert(unplaced[i].data.len() == directory[i].data.len());
            assert(offset_before(unplaced, i) == offset_before(directory, i));
        }
    }
    Ok(tiff_bytes(&entries, &plan, &strip))
}

/// The DNG file of an image in the layout that `cfa_type` names.
///
/// The numbers of the matrices and of the neutral color are numerators over the usual
/// denominators. Without a forward matrix, the color matrix takes its place.
pub fn encode_dng(
    image: &ImageRgb16,
    cfa_type: &str,
    color_matrix_1: [[i32; 3]; 3],
    forward_matrix_1: Option<[[i32; 3]; 3]>,
    as_shot_neutral: [u32; 3],
) -> (file: Result<Vec<u8>, DngError>)
    ensures
        file is Ok <==> can_encode(
            cfa_type@,
            image_width(*image),
            image_height(*image),
            image_samples(*image),
        ),
        ({
            let width = image_width(*image);
            let height = image_height(*image);
            let empty = width == 0 || height == 0;
            let requested = requested_layout(cfa_type@);
            let pixel_values = strip_samples(
                requested->0,
                width as int,
                height as int,
                image_samples(*image),
            );
            match file {
                Ok(bytes) => {
                    &&& !empty
                    &&& requested is Some
                    &&& 2 * pixel_values.len() <= u32::MAX
                    &&& bytes@ == dng_bytes(
                        requested->0,
                        width,
                        height,
                        pixel_values,
                        color_fractions(color_matrix_1, forward_matrix_1, as_shot_neutral),
                    )
                    &&& shows_image(bytes@, width, height, image_samples(*image))
                    &&& shows_layout(bytes@, normalized(cfa_type@))
                    &&& shows_colors(
                        bytes@,
                        color_matrix_1,
                        forward_matrix_1,
                        as_shot_neutral,
                    )
                },
                Err(DngError::EmptyImage) => empty,
                Err(DngError::UnknownCfaType(name)) => {
                    &&& !empty
                    &&& requested is None
                    &&& name@ == normalized(cfa_type@)
                },
                Err(error) => {
                    &&& !empty
                    &&& requested is Some
                    &&& 2 * pixel_values.len() > u32::MAX
                    &&& error is PixelDataTooLarge
                },
            }
        }),
{
    let width: u32 = buffer_width(image);
    let height: u32 = buffer_height(image);
    if width == 0 || height == 0 {
        return Err(DngError::EmptyImage);
    }
    let layout: DngLayout = DngLayout::parse(cfa_type)?;
    let pixel_values: Vec<u16> = layout_samples(image, &layout);
    let colors: Colors = Colors::from_numerators(
        color_matrix_1,
        forward_matrix_1,
        as_shot_neutral,
    );
    proof {
        if 2 * pixel_values@.len() <= u32::MAX {
            law_file_shows_image(
                cfa_type@,
                width,
                height,
                image_samples(*image),
                color_matrix_1,
                forward_matrix_1,
                as_shot_neutral,
            );
        }
    }
    dng_file(&layout, width, height, &pixel_values, &colors)
}

/// A file is written for an image if and only if it has at least one column and one row, the name
/// of the layout is one of the eight known ones, and the pixels take less than 2^32 bytes: two for
/// each sample of the image in the linear layout, two for each pixel in the others.
pub proof fn law_when_a_file_is_written(
    cfa_type: Seq<char>,
    width: u32,
    height: u32,
    samples: Seq<u16>,
)
    ensures
        ({
            let name = normalized(cfa_type);
            let linear = name == ""@ || name == "linear"@;
            let filter = name == "rggb"@ || name == "bggr"@ || name == "grbg"@ || name == "gbrg"@
                || name == "xtrans"@ || name == "x-trans"@;
            can_encode(cfa_type, width, height, samples) <==> {
                &&& 0 < width
                &&& 0 < height
                &&& (linear && samples.len() < 0x8000_0000) || (filter && width * height
                    < 0x8000_0000)
            }
        }),
{
    reveal_strlit("");
    reveal_strlit("linear");
    reveal_strlit("rggb");
    reveal_strlit("bggr");
    reveal_strlit("grbg");
    reveal_strlit("gbrg");
    reveal_strlit("xtrans");
    reveal_strlit("x-trans");
    assert("linear"@[0] == 'l' && "xtrans"@[0] == 'x');
    law_known_names(cfa_type);
    let requested = requested_layout(cfa_type);
    let name = normalized(cfa_type);
    if requested is Some {
        let layout = requested->0;
        let strip = strip_samples(layout, width as int, height as int, samples);
        if layout is Linear {
            law_linear_strip(width as int, height as int, samples);
            assert(name == ""@ || name == "linear"@);
            assert(strip.len() == samples.len());
        } else {
            law_filtered_strip_len(layout, width as int, height as int, samples);
            assert(name != ""@ && name != "linear"@);
            assert(strip.len() == width * height);
        }
    }
}

/// The directory of a file lists its tags in strictly ascending order. It holds the described
/// entries and no others, each with the bytes of as many values as it counts; the position that
/// it gives for the pixels is the one at which they stand, and 32 bits can hold it.
pub proof fn law_directory(
    layout: LayoutView,
    width: u32,
    height: u32,
    strip_len: u32,
    colors: ColorView,
)
    requires
        has_pattern(layout),
        has_all_colors(colors),
    ensures
        ({
            let directory = dng_directory(layout, width, height, strip_len, colors);
            let list = dng_views(
                layout,
                width,
                height,
                strip_position(directory) as u32,
                strip_len,
                colors,
            );
            &&& strictly_ascending(directory)
            &&& directory.to_multiset() == list.to_multiset()
            &&& directory.len() == list.len() <= u16::MAX
            &&& forall|i: int|
                0 <= i < directory.len() ==> (#[trigger] directory[i]).well_formed()
            &&& strip_position(directory) <= u32::MAX
        }),
{
    let unplaced = dng_views(layout, width, height, 0, strip_len, colors);
    law_dng_entries(layout, width, height, 0, strip_len, colors);
    lemma_sorted_sizes(unplaced);
    lemma_placed(layout, width, height, strip_len, colors);
    let directory = dng_directory(layout, width, height, strip_len, colors);
    let offset = strip_position(directory) as u32;
    let list = dng_views(layout, width, height, offset, strip_len, colors);
    law_dng_entries(layout, width, height, offset, strip_len, colors);
    law_sorted_by_tag(list);
    law_distinct_tags_sort_strictly(list);
    assert forall|i: int| 0 <= i < directory.len() implies (
    #[trigger] directory[i]).well_formed() by {
        lemma_sorted_member(list, i);
        let k = choose|k: int| 0 <= k < list.len() && list[k] == directory[i];
        assert(list[k].well_formed());
    }
}

/// Every described entry stands somewhere in the directory.
pub proof fn law_entry_in_directory(
    layout: LayoutView,
    width: u32,
    height: u32,
    strip_len: u32,
    colors: ColorView,
    k: int,
)
    requires
        has_pattern(layout),
        has_all_colors(colors),
        0 <= k < dng_views(layout, width, height, 0, strip_len, colors).len(),
    ensures
        ({
            let directory = dng_directory(layout, width, height, strip_len, colors);
            directory.contains(
                dng_views(
                    layout,
                    width,
                    height,
                    strip_position(directory) as u32,
                    strip_len,
                    colors,
                )[k],
            )
        }),
{
    law_directory(layout, width, height, strip_len, colors);
    let directory = dng_directory(layout, width, height, strip_len, colors);
    let offset = strip_position(directory) as u32;
    let list = dng_views(layout, width, height, offset, strip_len, colors);
    lemma_strip_offset_entry(layout, width, height, offset, strip_len, colors);
    assert(list.contains(list[k]));
    vstd::seq_lib::to_multiset_contains(list, list[k]);
    vstd::seq_lib::to_multiset_contains(directory, list[k]);
}

/// Every described entry can be found in a file: a row of the directory has its tag, its field
/// type and its count.
#[verifier::rlimit(30)]
pub proof fn law_entry_in_file(
    layout: LayoutView,
    width: u32,
    height: u32,
    pixel_values: Seq<u16>,
    colors: ColorView,
    k: int,
)
    requires
        has_pattern(layout),
        has_all_colors(colors),
        ({
            let strip_len = (2 * pixel_values.len()) as u32;
            0 <= k < dng_views(layout, width, height, 0, strip_len, colors).len()
        }),
    ensures
        ({
            let strip_len = (2 * pixel_values.len()) as u32;
            let entry = dng_views(layout, width, height, 0, strip_len, colors)[k];
            let file = dng_bytes(layout, width, height, pixel_values, colors);
            exists|i: int|
                {
                    &&& 0 <= i < read16(file, 8)
                    &&& #[trigger] read16(file, 10 + 12 * i) == entry.tag
                    &&& read16(file, 10 + 12 * i + 2) == entry.field_type
                    &&& read32(file, 10 + 12 * i + 4) == entry.count
                }
        }),
{
    let strip_len = (2 * pixel_values.len()) as u32;
    let strip = le16_all(pixel_values);
    let directory = dng_directory(layout, width, height, strip_len, colors);
    let offset = strip_position(directory) as u32;
    let list = dng_views(layout, width, height, offset, strip_len, colors);
    let unplaced = dng_views(layout, width, height, 0, strip_len, colors);
    let file = dng_bytes(layout, width, height, pixel_values, colors);
    lemma_strip_offset_entry(layout, width, height, offset, strip_len, colors);
    law_directory(layout, width, height, strip_len, colors);
    law_entry_in_directory(layout, width, height, strip_len, colors, k);
    let i = choose|i: int| 0 <= i < directory.len() && directory[i] == list[k];
    law_header_reads_back(directory, strip);
    law_entry_reads_back(directory, strip, i);
    assert(read16(file, 10 + 12 * i) == unplaced[k].tag);
}

/// Both matrices of a file are written as signed fractions over the usual denominator. Without a
/// forward matrix, the color matrix is written twice.
pub proof fn law_matrices_written(
    layout: LayoutView,
    width: u32,
    height: u32,
    strip_len: u32,
    color_matrix: [[i32; 3]; 3],
    forward_matrix: Option<[[i32; 3]; 3]>,
    neutral: [u32; 3],
)
    requires
        has_pattern(layout),
    ensures
        ({
            let colors = color_fractions(color_matrix, forward_matrix, neutral);
            let directory = dng_directory(layout, width, height, strip_len, colors);
            let forward = match forward_matrix {
                Some(matrix) => matrix,
                None => color_matrix,
            };
            &&& directory.contains(
                EntryView::srational(
                    TAG_COLOR_MATRIX_1,
                    matrix_fractions(color_matrix, MATRIX_DENOMINATOR),
                ),
            )
            &&& directory.contains(
                EntryView::srational(
                    TAG_FORWARD_MATRIX_1,
                    matrix_fractions(forward, MATRIX_DENOMINATOR),
                ),
            )
            &&& directory.contains(
                EntryView::rational(
                    TAG_AS_SHOT_NEUTRAL,
                    neutral_fractions(neutral, NEUTRAL_DENOMINATOR),
                ),
            )
        }),
{
    let colors = color_fractions(color_matrix, forward_matrix, neutral);
    let directory = dng_directory(layout, width, height, strip_len, colors);
    let offset = strip_position(directory) as u32;
    law_dng_entries(layout, width, height, 0, strip_len, colors);
    law_entry_in_directory(layout, width, height, strip_len, colors, 17);
    law_entry_in_directory(layout, width, height, strip_len, colors, 18);
    law_entry_in_directory(layout, width, height, strip_len, colors, 19);
    lemma_color_entries(layout, width, height, offset, strip_len, colors);
}

/// A file with one sample for each pixel says in its directory which color each sample has: the
/// sample at column `x` of row `y` is the one of the pixel there that the written pattern, repeated
/// over the image, names.
pub proof fn law_filter_describes_samples(
    layout: LayoutView,
    width: u32,
    height: u32,
    strip_len: u32,
    colors: ColorView,
    samples: Seq<u16>,
    x: int,
    y: int,
)
    requires
        has_all_colors(colors),
        layout is Bayer || layout is XTrans,
        has_pattern(layout),
        forall|i: int|
            0 <= i < filter_pattern(layout).len() ==> #[trigger] filter_pattern(layout)[i] < 3,
        0 <= x < width,
        0 <= y < height,
    ensures
        ({
            let directory = dng_directory(layout, width, height, strip_len, colors);
            let size = filter_size(layout);
            let pattern = filter_pattern(layout);
            let color = pattern[y % (size as int) * size + x % (size as int)];
            &&& directory.contains(
                EntryView::short(TAG_CFA_REPEAT_PATTERN_DIM, seq![size, size]),
            )
            &&& directory.contains(EntryView::byte(TAG_CFA_PATTERN, pattern))
            &&& strip_samples(layout, width as int, height as int, samples)[y * width + x]
                == pixel_at(samples, width as int, x, y)[color as int]
        }),
{
    let directory = dng_directory(layout, width, height, strip_len, colors);
    let offset = strip_position(directory) as u32;
    law_dng_entries(layout, width, height, 0, strip_len, colors);
    law_entry_in_directory(layout, width, height, strip_len, colors, 24);
    law_entry_in_directory(layout, width, height, strip_len, colors, 25);
    lemma_filter_entries(layout, width, height, offset, strip_len, colors);
    match layout {
        LayoutView::Bayer { name, pattern } => {
            assert(bayer_channel(pattern, x, y) == filter_pattern(layout)[y % 2 * 2 + x % 2]);
            law_bayer_sample(pattern, width as int, height as int, samples, x, y);
        },
        _ => {
            let k = y % 6 * 6 + x % 6;
            assert(k / 6 == y % 6 && k % 6 == x % 6);
            law_xtrans_sample(width as int, height as int, samples, x, y);
        },
    }
}

/// Whoever reads the position and the length of the pixels from the directory of a file finds
/// there the bytes of all samples, which end with the file.
pub proof fn law_pixels_read_back(
    layout: LayoutView,
    width: u32,
    height: u32,
    pixel_values: Seq<u16>,
    colors: ColorView,
    i: int,
    j: int,
)
    requires
        has_pattern(layout),
        has_all_colors(colors),
        2 * pixel_values.len() <= u32::MAX,
        ({
            let file = dng_bytes(layout, width, height, pixel_values, colors);
            &&& 0 <= i < read16(file, 8)
            &&& 0 <= j < read16(file, 8)
            &&& read16(file, 10 + 12 * i) == TAG_STRIP_OFFSETS
            &&& read16(file, 10 + 12 * j) == TAG_STRIP_BYTE_COUNTS
        }),
    ensures
        ({
            let file = dng_bytes(layout, width, height, pixel_values, colors);
            let at = read32(file, 10 + 12 * i + 8);
            let len = read32(file, 10 + 12 * j + 8);
            &&& at + len == file.len()
            &&& file.subrange(at, at + len) == le16_all(pixel_values)
        }),
{
    let strip_len = (2 * pixel_values.len()) as u32;
    let directory = dng_directory(layout, width, height, strip_len, colors);
    let offset = strip_position(directory) as u32;
    let list = dng_views(layout, width, height, offset, strip_len, colors);
    law_directory(layout, width, height, strip_len, colors);
    law_dng_entries(layout, width, height, offset, strip_len, colors);
    lemma_strip_offset_entry(layout, width, height, offset, strip_len, colors);
    lemma_placed(layout, width, height, strip_len, colors);
    lemma_strip_found(list, le16_all(pixel_values), i, j);
}

/// Every sample stands in the file, two bytes for each, from the position of the pixels on.
pub proof fn law_sample_reads_back(
    layout: LayoutView,
    width: u32,
    height: u32,
    pixel_values: Seq<u16>,
    colors: ColorView,
    i: int,
)
    requires
        0 <= i < pixel_values.len(),
    ensures
        ({
            let strip_len = (2 * pixel_values.len()) as u32;
            let directory = dng_directory(layout, width, height, strip_len, colors);
            let file = dng_bytes(layout, width, height, pixel_values, colors);
            read16(file, strip_position(directory) + 2 * i) == pixel_values[i]
        }),
{
    let strip_len = (2 * pixel_values.len()) as u32;
    let directory = dng_directory(layout, width, height, strip_len, colors);
    let strip = le16_all(pixel_values);
    let file = dng_bytes(layout, width, height, pixel_values, colors);
    let at = strip_position(directory);
    law_strip_reads_back(directory, strip);
    law_samples_read_back(pixel_values, i);
    let found = file.subrange(at, file.len() as int);
    assert(found[2 * i] == file[at + 2 * i]);
    assert(found[2 * i + 1] == file[at + (2 * i + 1)]);
}

proof fn lemma_inline_long(file: Seq<u8>, at: int, value: u32)
    requires
        0 <= at <= file.len() - 4,
        file.subrange(at, at + 4) == le32_all(seq![value]),
    ensures
        read32(file, at) == value,
{
    let bytes = le32_all(seq![value]);
    assert(bytes[0] == file[at]);
    assert(bytes[1] == file[at + 1]);
    assert(bytes[2] == file[at + 2]);
    assert(bytes[3] == file[at + 3]);
}

/// A sorted entry is the given one with its tag.
pub(crate) proof fn lemma_sorted_entry(list: Seq<EntryView>, i: int, k: int)
    requires
        distinct_tags(list),
        0 <= i < list.len(),
        0 <= k < list.len(),
        sorted_by_tag(list)[i].tag == list[k].tag,
    ensures
        sorted_by_tag(list)[i] == list[k],
{
    lemma_sorted_member(list, i);
    let m = choose|m: int| 0 <= m < list.len() && list[m] == sorted_by_tag(list)[i];
    if m != k {
        assert(list[m].tag != list[k].tag);
    }
}

proof fn lemma_strip_found(list: Seq<EntryView>, strip: Seq<u8>, i: int, j: int)
    requires
        distinct_tags(list),
        11 < list.len() <= u16::MAX,
        strip.len() <= u32::MAX,
        ({
            let directory = sorted_by_tag(list);
            let file = tiff_file(directory, strip);
            let offset = strip_position(directory);
            &&& directory.len() == list.len()
            &&& offset <= u32::MAX
            &&& list[8] == EntryView::long(TAG_STRIP_OFFSETS, seq![offset as u32])
            &&& list[11] == EntryView::long(TAG_STRIP_BYTE_COUNTS, seq![strip.len() as u32])
            &&& 0 <= i < read16(file, 8)
            &&& 0 <= j < read16(file, 8)
            &&& read16(file, 10 + 12 * i) == TAG_STRIP_OFFSETS
            &&& read16(file, 10 + 12 * j) == TAG_STRIP_BYTE_COUNTS
        }),
    ensures
        ({
            let file = tiff_file(sorted_by_tag(list), strip);
            let at = read32(file, 10 + 12 * i + 8);
            let len = read32(file, 10 + 12 * j + 8);
            &&& at + len == file.len()
            &&& file.subrange(at, at + len) == strip
        }),
{
    let directory = sorted_by_tag(list);
    let file = tiff_file(directory, strip);
    let offset = strip_position(directory);
    law_header_reads_back(directory, strip);
    law_entry_reads_back(directory, strip, i);
    law_entry_reads_back(directory, strip, j);
    law_strip_reads_back(directory, strip);
    lemma_sorted_entry(list, i, 8);
    lemma_sorted_entry(list, j, 11);
    lemma_inline_long(file, 10 + 12 * i + 8, offset as u32);
    lemma_inline_long(file, 10 + 12 * j + 8, strip.len() as u32);
}

/// The position of the pixels is written as the one 32-bit value of the first entry with the tag
/// 273; nothing else about the entries changes.
pub proof fn law_strip_offset_written(entries: Seq<EntryView>, strip_offset: u32, i: int)
    requires
        0 <= i < entries.len(),
    ensures
        ({
            let written = with_strip_offset(entries, strip_offset);
            let first = entries[i].tag == 273 && forall|j: int|
                0 <= j < i ==> (#[trigger] entries[j]).tag != 273;
            &&& written.len() == entries.len()
            &&& !first ==> written[i] == entries[i]
            &&& first ==> {
                &&& written[i].tag == 273
                &&& written[i].field_type == 4
                &&& written[i].count == 1
                &&& written[i].data.len() == 4
                &&& read32(written[i].data, 0) == strip_offset
            }
        }),
{
}

} // verus!
