//! Images of 16-bit RGB pixels, and the samples of theirs that a file holds.
use crate::layout::{
    bayer_channel, law_xtrans_repeats, xtrans_channel, xtrans_colors, DngLayout, LayoutView,
    XTRANS_PATTERN,
};
use image::{ImageBuffer, Rgb};
use vstd::arithmetic::div_mod::lemma_fundamental_div_mod_converse;
use vstd::prelude::*;

verus! {

/// An image of 16-bit RGB pixels: an `image::ImageBuffer`.
#[verifier::external_body]
pub struct ImageRgb16 {
    buffer: ImageBuffer<Rgb<u16>, Vec<u16>>,
}

/// The number of columns that an image was made with.
pub uninterp spec fn image_width(image: ImageRgb16) -> u32;

/// The number of rows that an image was made with.
pub uninterp spec fn image_height(image: ImageRgb16) -> u32;

/// The samples that an image holds: three for each pixel, row by row. More may follow.
pub uninterp spec fn image_samples(image: ImageRgb16) -> Seq<u16>;

/// The three samples of the pixel at column `x` of row `y`.
pub open spec fn pixel_at(samples: Seq<u16>, width: int, x: int, y: int) -> Seq<u16> {
    Seq::new(3, |c: int| samples[3 * (y * width + x) + c])
}

/// `ImageBuffer::from_raw`: an image of the given size with the given samples. There is none
/// where the samples are fewer than three for each pixel, or where a `usize` cannot count the
/// samples of a row.
#[verifier::external_body]
fn buffer_from_raw(width: u32, height: u32, samples: Vec<u16>) -> (result: Option<ImageRgb16>)
    ensures
        result is Some <==> (3 * width <= usize::MAX && 3 * width * height <= samples@.len()),
        result matches Some(image) ==> image_width(image) == width,
        result matches Some(image) ==> image_height(image) == height,
        result matches Some(image) ==> image_samples(image) == samples@,
{
    match ImageBuffer::from_raw(width, height, samples) {
        Some(buffer) => Some(ImageRgb16 { buffer }),
        None => None,
    }
}

/// `ImageBuffer::from_fn`: an image of the given size that holds, row by row, the three samples
/// that the function gives for the column and the row of each pixel, and no others. The function
/// here is `test_pixel`. It panics on an image whose samples do not fit in a vector.
#[verifier::external_body]
fn buffer_from_test_pixels(width: u32, height: u32) -> (result: ImageRgb16)
    requires
        3 * width <= usize::MAX,
        6 * width * height <= isize::MAX,
    ensures
        image_width(result) == width,
        image_height(result) == height,
        image_samples(result) == test_samples(width as int, height as int),
{
    let buffer = ImageBuffer::from_fn(width, height, |x, y| Rgb(test_pixel(x, y, width, height)));
    ImageRgb16 { buffer }
}

/// `ImageBuffer::width`: the number of columns.
#[verifier::external_body]
pub(crate) fn buffer_width(image: &ImageRgb16) -> (result: u32)
    ensures
        result == image_width(*image),
{
    image.buffer.width()
}

/// `ImageBuffer::height`: the number of rows.
#[verifier::external_body]
pub(crate) fn buffer_height(image: &ImageRgb16) -> (result: u32)
    ensures
        result == image_height(*image),
{
    image.buffer.height()
}

/// `ImageBuffer::as_raw`: all samples.
#[verifier::external_body]
fn buffer_as_raw(image: &ImageRgb16) -> (result: &Vec<u16>)
    ensures
        result@ == image_samples(*image),
{
    image.buffer.as_raw()
}

/// `ImageBuffer::get_pixel`: the three samples of the pixel at column `x` of row `y`, which must
/// lie in the image.
#[verifier::external_body]
fn buffer_get_pixel(image: &ImageRgb16, x: u32, y: u32) -> (result: [u16; 3])
    requires
        x < image_width(*image),
        y < image_height(*image),
    ensures
        result@ == pixel_at(
            image_samples(*image),
            image_width(*image) as int,
            x as int,
            y as int,
        ),
{
    image.buffer.get_pixel(x, y).0
}

impl ImageRgb16 {
    /// An image of the given size with the given samples, three for each pixel, row by row; none
    /// where the samples are too few, or where a `usize` cannot count the samples of a row.
    pub fn from_raw(width: u32, height: u32, samples: Vec<u16>) -> (image: Option<Self>)
        ensures
            match image {
                Some(i) => {
                    &&& 3 * width <= usize::MAX
                    &&& 3 * width * height <= samples@.len()
                    &&& image_width(i) == width
                    &&& image_height(i) == height
                    &&& image_samples(i) == samples@
                },
                None => 3 * width > usize::MAX || 3 * width * height > samples@.len(),
            },
    {
        buffer_from_raw(width, height, samples)
    }
}

/// The samples that a filter with a pattern of two rows and two columns lets through: one for
/// each pixel, row by row.
pub open spec fn bayer_samples(
    pattern: Seq<u8>,
    width: int,
    height: int,
    samples: Seq<u16>,
) -> Seq<u16> {
    Seq::new(
        (width * height) as nat,
        |i: int| samples[3 * i + bayer_channel(pattern, i % width, i / width)],
    )
}

/// The samples that an X-Trans filter lets through: one for each pixel, row by row.
pub open spec fn xtrans_samples(width: int, height: int, samples: Seq<u16>) -> Seq<u16> {
    Seq::new(
        (width * height) as nat,
        |i: int| samples[3 * i + xtrans_channel(i % width, i / width)],
    )
}

/// The samples that a file in the given layout holds.
pub open spec fn strip_samples(
    layout: LayoutView,
    width: int,
    height: int,
    samples: Seq<u16>,
) -> Seq<u16> {
    match layout {
        LayoutView::Linear => samples,
        LayoutView::Bayer { name, pattern } => bayer_samples(pattern, width, height, samples),
        LayoutView::XTrans => xtrans_samples(width, height, samples),
    }
}

/// Whether a pattern of two rows and two columns names a color of a pixel wherever an image of
/// the given size has one.
pub open spec fn pattern_fits(pattern: Seq<u8>, width: int, height: int) -> bool {
    forall|x: int, y: int|
        0 <= x < width && 0 <= y < height ==> #[trigger] bayer_channel(pattern, x, y) < 3
}

/// The samples of `image` that a filter with the given pattern lets through.
pub fn simulate_bayer(image: &ImageRgb16, pattern: [u8; 4]) -> (output: Vec<u16>)
    requires
        pattern_fits(pattern@, image_width(*image) as int, image_height(*image) as int),
    ensures
        output@ == bayer_samples(
            pattern@,
            image_width(*image) as int,
            image_height(*image) as int,
            image_samples(*image),
        ),
{
    let width: u32 = buffer_width(image);
    let height: u32 = buffer_height(image);
    let ghost samples = image_samples(*image);
    let mut output: Vec<u16> = Vec::new();
    let mut y: u32 = 0;
    assert(0 * width == 0) by (nonlinear_arith);
    while y < height
        invariant
            y <= height,
            width == image_width(*image),
            height == image_height(*image),
            samples == image_samples(*image),
            pattern_fits(pattern@, width as int, height as int),
            output@.len() == y * width,
            forall|i: int|
                0 <= i < output@.len() ==> #[trigger] output@[i] == samples[3 * i + bayer_channel(
                    pattern@,
                    i % (width as int),
                    i / (width as int),
                )],
        decreases height - y,
    {
        let mut x: u32 = 0;
        while x < width
            invariant
                x <= width,
                y < height,
                width == image_width(*image),
                height == image_height(*image),
                samples == image_samples(*image),
                pattern_fits(pattern@, width as int, height as int),
                output@.len() == y * width + x,
                forall|i: int|
                    0 <= i < output@.len() ==> #[trigger] output@[i] == samples[3 * i
                        + bayer_channel(pattern@, i % (width as int), i / (width as int))],
            decreases width - x,
        {
            let pattern_index: usize = (y % 2) as usize * 2 + (x % 2) as usize;
            assert(bayer_channel(pattern@, x as int, y as int) < 3);
            let channel: usize = pattern[pattern_index] as usize;
            let pixel: [u16; 3] = buffer_get_pixel(image, x, y);
            proof {
                lemma_fundamental_div_mod_converse(
                    y * width + x,
                    width as int,
                    y as int,
                    x as int,
                );
            }
            output.push(pixel[channel]);
            x += 1;
        }
        assert(y * width + width == (y + 1) * width) by (nonlinear_arith);
        y += 1;
    }
    assert(height * width == width * height) by (nonlinear_arith);
    output
}

/// The samples of `image` that an X-Trans filter lets through.
pub fn simulate_xtrans(image: &ImageRgb16) -> (output: Vec<u16>)
    ensures
        output@ == xtrans_samples(
            image_width(*image) as int,
            image_height(*image) as int,
            image_samples(*image),
        ),
{
    let width: u32 = buffer_width(image);
    let height: u32 = buffer_height(image);
    let ghost samples = image_samples(*image);
    let mut output: Vec<u16> = Vec::new();
    let mut y: u32 = 0;
    assert(0 * width == 0) by (nonlinear_arith);
    while y < height
        invariant
            y <= height,
            width == image_width(*image),
            height == image_height(*image),
            samples == image_samples(*image),
            output@.len() == y * width,
            forall|i: int|
                0 <= i < output@.len() ==> #[trigger] output@[i] == samples[3 * i + xtrans_channel(
                    i % (width as int),
                    i / (width as int),
                )],
        decreases height - y,
    {
        let mut x: u32 = 0;
        while x < width
            invariant
                x <= width,
                y < height,
                width == image_width(*image),
                height == image_height(*image),
                samples == image_samples(*image),
                output@.len() == y * width + x,
                forall|i: int|
                    0 <= i < output@.len() ==> #[trigger] output@[i] == samples[3 * i
                        + xtrans_channel(i % (width as int), i / (width as int))],
            decreases width - x,
        {
            let channel: usize = XTRANS_PATTERN[(y % 6) as usize][(x % 6) as usize] as usize;
            let pixel: [u16; 3] = buffer_get_pixel(image, x, y);
            proof {
                lemma_fundamental_div_mod_converse(
                    y * width + x,
                    width as int,
                    y as int,
                    x as int,
                );
            }
            output.push(pixel[channel]);
            x += 1;
        }
        assert(y * width + width == (y + 1) * width) by (nonlinear_arith);
        y += 1;
    }
    assert(height * width == width * height) by (nonlinear_arith);
    output
}

/// All samples of `image`.
pub fn linear_rgb_data(image: &ImageRgb16) -> (output: Vec<u16>)
    ensures
        output@ == image_samples(*image),
{
    buffer_as_raw(image).clone()
}

/// The samples of `image` that a file in the given layout holds.
pub fn layout_samples(image: &ImageRgb16, layout: &DngLayout) -> (output: Vec<u16>)
    requires
        layout matches DngLayout::Bayer { name, pattern } ==> pattern_fits(
            pattern@,
            image_width(*image) as int,
            image_height(*image) as int,
        ),
    ensures
        output@ == strip_samples(
            layout@,
            image_width(*image) as int,
            image_height(*image) as int,
            image_samples(*image),
        ),
{
    match layout {
        DngLayout::Linear => linear_rgb_data(image),
        DngLayout::Bayer { pattern, .. } => simulate_bayer(image, *pattern),
        DngLayout::XTrans => simulate_xtrans(image),
    }
}

/// A filter with a pattern of two rows and two columns leaves one sample for each pixel: the one
/// of the color that the pattern has at its column and row.
pub proof fn law_bayer_sample(
    pattern: Seq<u8>,
    width: int,
    height: int,
    samples: Seq<u16>,
    x: int,
    y: int,
)
    requires
        0 <= x < width,
        0 <= y < height,
        0 <= bayer_channel(pattern, x, y) < 3,
    ensures
        bayer_samples(pattern, width, height, samples).len() == width * height,
        y * width + x < width * height,
        bayer_samples(pattern, width, height, samples)[y * width + x] == pixel_at(
            samples,
            width,
            x,
            y,
        )[bayer_channel(pattern, x, y)],
{
    lemma_pixel_index(width, height, x, y);
}

/// An X-Trans filter leaves one sample for each pixel: the one of the color that the filter has
/// at its column and row.
pub proof fn law_xtrans_sample(width: int, height: int, samples: Seq<u16>, x: int, y: int)
    requires
        0 <= x < width,
        0 <= y < height,
    ensures
        xtrans_samples(width, height, samples).len() == width * height,
        y * width + x < width * height,
        xtrans_samples(width, height, samples)[y * width + x] == pixel_at(
            samples,
            width,
            x,
            y,
        )[xtrans_channel(x, y)],
{
    lemma_pixel_index(width, height, x, y);
    assert(0 <= x % 6 < 6 && 0 <= y % 6 < 6);
}

proof fn lemma_pixel_index(width: int, height: int, x: int, y: int)
    requires
        0 <= x < width,
        0 <= y < height,
    ensures
        0 <= y * width + x < width * height,
        (y * width + x) / width == y,
        (y * width + x) % width == x,
{
    lemma_fundamental_div_mod_converse(y * width + x, width, y, x);
    assert(0 <= y * width + x < width * height) by (nonlinear_arith)
        requires
            0 <= x < width,
            0 <= y < height,
    ;
}

/// In the linear layout a file holds every sample of the image in its place, those of each pixel
/// in the order red, green, blue, and no others.
pub proof fn law_linear_sample(
    width: int,
    height: int,
    samples: Seq<u16>,
    x: int,
    y: int,
    c: int,
)
    requires
        3 * width * height <= samples.len(),
        0 <= x < width,
        0 <= y < height,
        0 <= c < 3,
    ensures
        ({
            let strip = strip_samples(LayoutView::Linear, width, height, samples);
            let k = 3 * (y * width + x) + c;
            &&& strip.len() == samples.len()
            &&& 0 <= k < strip.len()
            &&& strip[k] == samples[k]
            &&& forall|i: int| 0 <= i < samples.len() ==> #[trigger] strip[i] == samples[i]
        }),
{
    lemma_pixel_index(width, height, x, y);
    assert(3 * (width * height) == 3 * width * height) by (nonlinear_arith);
}

/// In the linear layout a file holds the samples of the image and nothing else, whatever its size.
pub proof fn law_linear_strip(width: int, height: int, samples: Seq<u16>)
    ensures
        strip_samples(LayoutView::Linear, width, height, samples).len() == samples.len(),
        forall|i: int|
            0 <= i < samples.len() ==> #[trigger] strip_samples(
                LayoutView::Linear,
                width,
                height,
                samples,
            )[i] == samples[i],
{
}

/// With a filter a file holds one sample for each pixel.
pub proof fn law_filtered_strip_len(
    layout: LayoutView,
    width: int,
    height: int,
    samples: Seq<u16>,
)
    requires
        0 <= width,
        0 <= height,
        !(layout is Linear),
    ensures
        strip_samples(layout, width, height, samples).len() == width * height,
{
    assert(0 <= width * height) by (nonlinear_arith)
        requires
            0 <= width,
            0 <= height,
    ;
}

/// With a Bayer filter a file holds, for the pixel at column `x` of row `y`, the sample of the
/// color that stands in the pattern at that column and row, both counted from the last multiple
/// of two.
pub proof fn law_bayer_samples_taken(
    name: Seq<char>,
    pattern: Seq<u8>,
    width: int,
    height: int,
    samples: Seq<u16>,
    x: int,
    y: int,
)
    requires
        0 <= x < width,
        0 <= y < height,
    ensures
        ({
            let layout = LayoutView::Bayer { name, pattern };
            let strip = strip_samples(layout, width, height, samples);
            let i = y * width + x;
            &&& strip.len() == width * height
            &&& 0 <= i < strip.len()
            &&& strip[i] == samples[3 * i + pattern[y % 2 * 2 + x % 2]]
        }),
{
    lemma_pixel_index(width, height, x, y);
}

/// With an X-Trans filter a file holds, for the pixel at column `x` of row `y`, the sample of the
/// color that stands in the pattern at that column and row, both counted from the last multiple
/// of six.
pub proof fn law_xtrans_samples_taken(width: int, height: int, samples: Seq<u16>, x: int, y: int)
    requires
        0 <= x < width,
        0 <= y < height,
    ensures
        ({
            let strip = strip_samples(LayoutView::XTrans, width, height, samples);
            let i = y * width + x;
            &&& strip.len() == width * height
            &&& 0 <= i < strip.len()
            &&& strip[i] == samples[3 * i + xtrans_colors()[y % 6 * 6 + x % 6]]
        }),
{
    lemma_pixel_index(width, height, x, y);
    law_xtrans_repeats(x, y);
}

/// An image with three samples for each pixel and no others gives a file all three of each pixel
/// in the linear layout, and one of each pixel in the others.
pub proof fn law_strip_len(layout: LayoutView, width: int, height: int, samples: Seq<u16>)
    requires
        0 <= width,
        0 <= height,
        samples.len() == 3 * width * height,
    ensures
        strip_samples(layout, width, height, samples).len() == (if layout is Linear {
            3 * width * height
        } else {
            width * height
        }),
{
    assert(0 <= width * height) by (nonlinear_arith)
        requires
            0 <= width,
            0 <= height,
    ;
}

/// The brightness at `position` of a ramp from black at 0 to full brightness at `last`.
pub open spec fn ramp(position: int, last: int) -> int {
    if last > 0 {
        position * 65535 / last
    } else {
        0
    }
}

/// The samples of a test pixel: red grows with the column, green with the row, and blue with
/// both.
pub open spec fn test_colors(x: int, y: int, width: int, height: int) -> Seq<u16> {
    seq![
        ramp(x, width - 1) as u16,
        ramp(y, height - 1) as u16,
        ramp(x + y, width + height - 2) as u16,
    ]
}

/// The samples of a test image, row by row.
pub open spec fn test_samples(width: int, height: int) -> Seq<u16> {
    Seq::new(
        (3 * width * height) as nat,
        |k: int| test_colors(k / 3 % width, k / 3 / width, width, height)[k % 3],
    )
}

fn ramp_value(position: u64, last: u64) -> (value: u16)
    requires
        position <= last <= 0x2_0000_0000,
    ensures
        value == ramp(position as int, last as int),
        ramp(position as int, last as int) <= 65535,
{
    if last > 0 {
        assert(position * 65535 / last as int <= 65535) by (nonlinear_arith)
            requires
                position <= last,
                last > 0,
        ;
        (position * 65535 / last) as u16
    } else {
        0
    }
}

/// The samples of the test pixel at column `x` of row `y`.
pub fn test_pixel(x: u32, y: u32, width: u32, height: u32) -> (pixel: [u16; 3])
    requires
        x < width,
        y < height,
    ensures
        pixel@ == test_colors(x as int, y as int, width as int, height as int),
{
    let r: u16 = ramp_value(x as u64, (width - 1) as u64);
    let g: u16 = ramp_value(y as u64, (height - 1) as u64);
    let b: u16 = ramp_value(x as u64 + y as u64, width as u64 + height as u64 - 2);
    [r, g, b]
}

/// The pixel of a test image at column `x` of row `y` has the colors of the test pixel there.
pub proof fn law_test_image_pixel(width: int, height: int, x: int, y: int)
    requires
        0 <= x < width,
        0 <= y < height,
    ensures
        test_samples(width, height).len() == 3 * width * height,
        pixel_at(test_samples(width, height), width, x, y) == test_colors(x, y, width, height),
        forall|c: int|
            0 <= c < 3 ==> test_samples(width, height)[3 * (y * width + x) + c]
                == #[trigger] test_colors(x, y, width, height)[c],
{
    lemma_pixel_index(width, height, x, y);
    assert(3 * width * height == 3 * (width * height)) by (nonlinear_arith);
    let i = y * width + x;
    assert forall|c: int| 0 <= c < 3 implies #[trigger] pixel_at(
        test_samples(width, height),
        width,
        x,
        y,
    )[c] == test_colors(x, y, width, height)[c] by {
        assert((3 * i + c) / 3 == i && (3 * i + c) % 3 == c);
    }
}

/// A test image of the given size.
pub fn create_test_image(width: u32, height: u32) -> (image: ImageRgb16)
    requires
        3 * width <= usize::MAX,
        6 * width * height <= isize::MAX,
    ensures
        image_width(image) == width,
        image_height(image) == height,
        image_samples(image) == test_samples(width as int, height as int),
{
    buffer_from_test_pixels(width, height)
}

/// A test image has three samples for each pixel and no others.
pub proof fn law_test_image_len(width: int, height: int)
    requires
        0 <= width,
        0 <= height,
    ensures
        test_samples(width, height).len() == 3 * width * height,
{
    assert(0 <= 3 * width * height) by (nonlinear_arith)
        requires
            0 <= width,
            0 <= height,
    ;
}

/// The colors of a test pixel, in proportion to its place: red is 65535 times the share of the
/// columns that lie before it, green that of the rows, and blue that of both together, each rounded
/// down. A color whose share has nothing to grow along is 0.
pub proof fn law_test_colors(x: int, y: int, width: int, height: int)
    requires
        0 <= x < width,
        0 <= y < height,
    ensures
        ({
            let colors = test_colors(x, y, width, height);
            let (r, g, b) = (colors[0] as int, colors[1] as int, colors[2] as int);
            &&& colors.len() == 3
            &&& width == 1 ==> r == 0
            &&& width > 1 ==> r * (width - 1) <= 65535 * x < (r + 1) * (width - 1)
            &&& height == 1 ==> g == 0
            &&& height > 1 ==> g * (height - 1) <= 65535 * y < (g + 1) * (height - 1)
            &&& width + height == 2 ==> b == 0
            &&& width + height > 2 ==> b * (width + height - 2) <= 65535 * (x + y) < (b + 1) * (
            width + height - 2)
        }),
{
    lemma_ramp(x, width - 1);
    lemma_ramp(y, height - 1);
    lemma_ramp(x + y, width + height - 2);
}

proof fn lemma_ramp(position: int, last: int)
    requires
        0 <= position <= last,
    ensures
        0 <= ramp(position, last) <= 65535,
        last == 0 ==> ramp(position, last) == 0,
        last > 0 ==> ramp(position, last) * last <= 65535 * position < (ramp(position, last) + 1)
            * last,
{
    if last > 0 {
        let value = position * 65535 / last;
        assert(value * last <= 65535 * position < (value + 1) * last && 0 <= value <= 65535)
            by (nonlinear_arith)
            requires
                0 <= position <= last,
                last > 0,
                value == position * 65535 / last,
        ;
    }
}

} // verus!
