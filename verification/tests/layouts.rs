use dng_export::error::DngError;
use dng_export::layout::DngLayout;
use dng_export::raster::{
    create_test_image, layout_samples, linear_rgb_data, simulate_bayer, simulate_xtrans,
    test_pixel, ImageRgb16,
};

fn bayer(text: &str) -> (&'static str, [u8; 4]) {
    match DngLayout::parse(text) {
        Ok(DngLayout::Bayer { name, pattern }) => (name, pattern),
        _ => panic!("no pattern for {text:?}"),
    }
}

fn counting_image(width: u32, height: u32) -> ImageRgb16 {
    let samples: Vec<u16> = (0..3 * width * height).map(|k| k as u16).collect();
    ImageRgb16::from_raw(width, height, samples).unwrap()
}

#[test]
fn empty_and_linear_names_are_linear() {
    for text in ["", "linear", "LINEAR", "  Linear\t", " \n "] {
        assert!(matches!(DngLayout::parse(text), Ok(DngLayout::Linear)));
    }
}

#[test]
fn bayer_names_have_their_patterns() {
    assert_eq!(bayer("rggb"), ("RGGB", [0, 1, 1, 2]));
    assert_eq!(bayer("bggr"), ("BGGR", [2, 1, 1, 0]));
    assert_eq!(bayer("grbg"), ("GRBG", [1, 0, 2, 1]));
    assert_eq!(bayer("gbrg"), ("GBRG", [1, 2, 0, 1]));
}

#[test]
fn xtrans_has_two_names() {
    for text in ["xtrans", "x-trans", "X-Trans "] {
        assert!(matches!(DngLayout::parse(text), Ok(DngLayout::XTrans)));
    }
}

#[test]
fn bayer_names_parse_to_themselves() {
    for text in ["rggb", "bggr", "grbg", "gbrg"] {
        let (name, pattern) = bayer(text);
        assert_eq!(bayer(name), (name, pattern));
    }
}

#[test]
fn case_and_unicode_space_do_not_count() {
    assert_eq!(bayer("\u{2003}\u{a0} rGgB\u{3000}\r\n\u{85}"), ("RGGB", [0, 1, 1, 2]));
}

#[test]
fn unknown_name_is_reported_normalized() {
    match DngLayout::parse("  FooVeon ") {
        Err(DngError::UnknownCfaType(name)) => assert_eq!(name, "fooveon"),
        _ => panic!("a layout was found"),
    }
}

#[test]
fn only_ascii_letters_are_lowered() {
    match DngLayout::parse("\u{c9}R g") {
        Err(DngError::UnknownCfaType(name)) => assert_eq!(name, "\u{c9}r g"),
        _ => panic!("a layout was found"),
    }
}

#[test]
fn only_the_linear_layout_is_linear() {
    assert!(DngLayout::parse("").unwrap().is_linear());
    assert!(!DngLayout::parse("rggb").unwrap().is_linear());
    assert!(!DngLayout::parse("xtrans").unwrap().is_linear());
}

#[test]
fn messages_are_exact() {
    assert_eq!(
        DngError::EmptyImage.message(),
        "De afbeelding heeft een breedte of hoogte van nul."
    );
    assert_eq!(
        DngError::UnknownCfaType("abc".to_string()).message(),
        "Onbekend CFA-type 'abc'. Gebruik \"\", \"linear\", \"rggb\", \"bggr\", \"grbg\", \"gbrg\" of \"xtrans\"."
    );
    assert_eq!(
        DngError::PixelDataTooLarge.message(),
        "Pixeldata is te groot voor klassieke TIFF/DNG-offsets."
    );
    assert_eq!(DngError::TooManyEntries.message(), "Te veel IFD-entries.");
    assert_eq!(DngError::OffsetOverflow.message(), "DNG-offset overflow.");
}

#[test]
fn too_few_samples_make_no_image() {
    assert!(ImageRgb16::from_raw(2, 2, vec![0; 11]).is_none());
    assert!(ImageRgb16::from_raw(2, 2, vec![0; 12]).is_some());
    assert!(ImageRgb16::from_raw(u32::MAX, u32::MAX, vec![0; 12]).is_none());
    assert!(ImageRgb16::from_raw(0, 7, Vec::new()).is_some());
}

#[test]
fn linear_data_is_all_samples() {
    let image = ImageRgb16::from_raw(1, 1, vec![1, 2, 3, 4, 5]).unwrap();
    assert_eq!(linear_rgb_data(&image), [1, 2, 3, 4, 5]);
}

#[test]
fn bayer_filter_takes_one_color_of_each_pixel() {
    let image = counting_image(3, 2);
    assert_eq!(simulate_bayer(&image, [0, 1, 1, 2]), [0, 4, 6, 10, 14, 16]);
    assert_eq!(simulate_bayer(&image, [2, 1, 1, 0]), [2, 4, 8, 10, 12, 16]);
}

#[test]
fn bayer_pattern_beyond_the_image_does_not_count() {
    let image = counting_image(1, 1);
    assert_eq!(simulate_bayer(&image, [2, 200, 200, 200]), [2]);
}

#[test]
fn xtrans_filter_takes_one_color_of_each_pixel() {
    let colors: [[u16; 6]; 6] = [
        [1, 2, 0, 1, 0, 2],
        [0, 1, 1, 2, 1, 1],
        [2, 1, 1, 0, 1, 1],
        [1, 0, 2, 1, 2, 0],
        [2, 1, 1, 0, 1, 1],
        [0, 1, 1, 2, 1, 1],
    ];
    let image = counting_image(8, 7);
    let output = simulate_xtrans(&image);
    assert_eq!(output.len(), 56);
    for y in 0..7usize {
        for x in 0..8usize {
            let i = y * 8 + x;
            assert_eq!(output[i], 3 * i as u16 + colors[y % 6][x % 6]);
        }
    }
}

#[test]
fn layouts_choose_their_samples() {
    let image = counting_image(2, 2);
    let linear = DngLayout::parse("linear").unwrap();
    let rggb = DngLayout::parse("rggb").unwrap();
    let xtrans = DngLayout::parse("xtrans").unwrap();
    assert_eq!(layout_samples(&image, &linear), linear_rgb_data(&image));
    assert_eq!(layout_samples(&image, &rggb), [0, 4, 7, 11]);
    assert_eq!(layout_samples(&image, &xtrans), [1, 5, 6, 10]);
}

#[test]
fn test_pixels_are_ramps() {
    assert_eq!(test_pixel(0, 0, 4, 4), [0, 0, 0]);
    assert_eq!(test_pixel(1, 0, 4, 4), [21845, 0, 10922]);
    assert_eq!(test_pixel(3, 3, 4, 4), [65535, 65535, 65535]);
    assert_eq!(test_pixel(0, 0, 1, 1), [0, 0, 0]);
    assert_eq!(test_pixel(0, 2, 1, 3), [0, 65535, 65535]);
    assert_eq!(
        test_pixel(u32::MAX - 1, u32::MAX - 1, u32::MAX, u32::MAX),
        [65535, 65535, 65535]
    );
}

#[test]
fn test_image_holds_its_pixels_row_by_row() {
    let samples = linear_rgb_data(&create_test_image(3, 2));
    assert_eq!(samples.len(), 18);
    for y in 0..2u32 {
        for x in 0..3u32 {
            let at = 3 * (y * 3 + x) as usize;
            assert_eq!(samples[at..at + 3], test_pixel(x, y, 3, 2));
        }
    }
    assert!(linear_rgb_data(&create_test_image(0, 5)).is_empty());
}
