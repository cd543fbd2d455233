use dng_export::colors::{matrix_to_srational, neutral_to_rational, Colors};
use dng_export::dng::dng_entries;
use dng_export::error::DngError;
use dng_export::export::{dng_file, encode_dng, set_strip_offset, strip_byte_count};
use dng_export::ifd::IfdEntry;
use dng_export::layout::DngLayout;
use dng_export::raster::{create_test_image, layout_samples, ImageRgb16};
use dng_export::tiff::{advance_offset, entry_count_field, plan_offsets, tiff_bytes};

const IDENTITY: [[i32; 3]; 3] = [[10_000, 0, 0], [0, 10_000, 0], [0, 0, 10_000]];

fn read16(file: &[u8], at: usize) -> usize {
    u16::from_le_bytes([file[at], file[at + 1]]) as usize
}

fn read32(file: &[u8], at: usize) -> usize {
    u32::from_le_bytes([file[at], file[at + 1], file[at + 2], file[at + 3]]) as usize
}

/// The tags of a file, each with its field type, its count and the bytes of its values.
fn directory(file: &[u8]) -> Vec<(usize, usize, usize, Vec<u8>)> {
    let at = read32(file, 4);
    let count = read16(file, at);
    assert_eq!(read32(file, at + 2 + 12 * count), 0);
    (0..count)
        .map(|i| {
            let row = at + 2 + 12 * i;
            let field_type = read16(file, row + 2);
            let values = read32(file, row + 4);
            let size = match field_type {
                1 | 2 => 1,
                3 => 2,
                4 => 4,
                5 | 10 => 8,
                _ => panic!("field type {field_type}"),
            };
            let len = values * size;
            let start = if len <= 4 { row + 8 } else { read32(file, row + 8) };
            assert_eq!(start % 2, 0);
            (read16(file, row), field_type, values, file[start..start + len].to_vec())
        })
        .collect()
}

fn values(file: &[u8], tag: usize) -> (usize, usize, Vec<u8>) {
    let found: Vec<_> = directory(file).into_iter().filter(|e| e.0 == tag).collect();
    assert_eq!(found.len(), 1, "tag {tag}");
    (found[0].1, found[0].2, found[0].3.clone())
}

fn pixels(file: &[u8]) -> Vec<u16> {
    let at = read32(&values(file, 273).2, 0);
    let len = read32(&values(file, 279).2, 0);
    assert_eq!(at + len, file.len());
    file[at..at + len]
        .chunks(2)
        .map(|pair| u16::from_le_bytes([pair[0], pair[1]]))
        .collect()
}

fn tags(file: &[u8]) -> Vec<usize> {
    directory(file).into_iter().map(|e| e.0).collect()
}

fn encode(image: &ImageRgb16, cfa_type: &str) -> Vec<u8> {
    match encode_dng(image, cfa_type, IDENTITY, None, [5200, 10_000, 7200]) {
        Ok(file) => file,
        Err(error) => panic!("{}", error.message()),
    }
}

#[test]
fn empty_image_is_refused_first() {
    for (width, height) in [(0, 0), (0, 3), (3, 0)] {
        let image = create_test_image(width, height);
        let result = encode_dng(&image, "no such layout", IDENTITY, None, [0, 0, 0]);
        assert!(matches!(result, Err(DngError::EmptyImage)));
    }
}

#[test]
fn unknown_layout_is_refused() {
    let image = create_test_image(1, 1);
    match encode_dng(&image, " Foveon", IDENTITY, None, [0, 0, 0]) {
        Err(DngError::UnknownCfaType(name)) => assert_eq!(name, "foveon"),
        _ => panic!("a file was made"),
    }
}

#[test]
fn too_many_pixel_bytes_are_refused() {
    assert!(matches!(strip_byte_count(0), Ok(0)));
    assert!(matches!(strip_byte_count(4_294_967_295), Ok(4_294_967_295)));
    assert!(matches!(strip_byte_count(4_294_967_296), Err(DngError::PixelDataTooLarge)));
}

#[test]
fn too_many_entries_are_refused() {
    assert!(matches!(entry_count_field(65535), Ok(65535)));
    assert!(matches!(entry_count_field(65536), Err(DngError::TooManyEntries)));
    let entries: Vec<IfdEntry> = (0..65536).map(|_| IfdEntry::byte(1, &[])).collect();
    assert!(matches!(plan_offsets(&entries), Err(DngError::TooManyEntries)));
}

#[test]
fn offsets_past_32_bits_are_refused() {
    assert!(matches!(advance_offset(100, 7), Ok(108)));
    assert!(matches!(advance_offset(u32::MAX - 5, 4), Ok(n) if n == u32::MAX - 1));
    assert!(matches!(advance_offset(u32::MAX - 5, 6), Err(DngError::OffsetOverflow)));
}

#[test]
fn values_are_placed_one_after_the_other() {
    let entries = vec![
        IfdEntry::byte(1, &[1, 2, 3, 4, 5]),
        IfdEntry::byte(2, &[1, 2, 3, 4]),
        IfdEntry::byte(3, &[1, 2, 3, 4, 5, 6]),
    ];
    let plan = plan_offsets(&entries).unwrap();
    assert_eq!(plan.offsets, [50, 0, 56]);
    assert_eq!(plan.strip_offset, 62);
}

#[test]
fn small_file_is_exact() {
    let entries = vec![IfdEntry::byte(1, &[1, 2, 3, 4, 5]), IfdEntry::short(2, &[7])];
    let plan = plan_offsets(&entries).unwrap();
    let file = tiff_bytes(&entries, &plan, &[0xaa, 0xbb, 0xcc]);
    let expected: Vec<u8> = vec![
        b'I', b'I', 42, 0, 8, 0, 0, 0, // header
        2, 0, // number of entries
        1, 0, 1, 0, 5, 0, 0, 0, 38, 0, 0, 0, // first entry
        2, 0, 3, 0, 1, 0, 0, 0, 7, 0, 0, 0, // second entry
        0, 0, 0, 0, // no next directory
        1, 2, 3, 4, 5, 0, // values of the first entry
        0xaa, 0xbb, 0xcc, // pixels
    ];
    assert_eq!(file, expected);
}

#[test]
fn only_the_first_strip_entry_gets_the_position() {
    let mut entries = vec![
        IfdEntry::long(1, &[5]),
        IfdEntry::long(273, &[0]),
        IfdEntry::long(273, &[9]),
    ];
    set_strip_offset(&mut entries, 0x0201);
    assert_eq!(entries[0].data, [5, 0, 0, 0]);
    assert_eq!(entries[1].data, [1, 2, 0, 0]);
    assert_eq!(entries[2].data, [9, 0, 0, 0]);
}

#[test]
fn matrix_is_written_row_by_row() {
    assert_eq!(
        matrix_to_srational([[1, 2, 3], [-4, 5, 6], [7, 8, 9]], 10),
        [(1, 10), (2, 10), (3, 10), (-4, 10), (5, 10), (6, 10), (7, 10), (8, 10), (9, 10)]
    );
    assert_eq!(neutral_to_rational([1, 2, 3], 7), [(1, 7), (2, 7), (3, 7)]);
}

#[test]
fn colors_have_the_usual_denominators() {
    let other = [[1, 0, 0], [0, 2, 0], [0, 0, 3]];
    let colors = Colors::from_numerators(IDENTITY, Some(other), [1, 2, 3]);
    assert_eq!(colors.color_matrix[0], (10_000, 10_000));
    assert_eq!(colors.forward_matrix[4], (2, 10_000));
    assert_eq!(colors.neutral, [(1, 10_000), (2, 10_000), (3, 10_000)]);
    let colors = Colors::from_numerators(other, None, [1, 2, 3]);
    assert_eq!(colors.forward_matrix, colors.color_matrix);
}

#[test]
fn entries_come_without_a_position_for_the_pixels() {
    let colors = Colors::from_numerators(IDENTITY, None, [1, 2, 3]);
    let layout = DngLayout::parse("rggb").unwrap();
    let entries = dng_entries(&layout, 4, 3, 24, &colors);
    assert_eq!(entries.len(), 30);
    assert_eq!(entries[8].tag, 273);
    assert_eq!(entries[8].data, [0, 0, 0, 0]);
    let linear = DngLayout::parse("linear").unwrap();
    assert_eq!(dng_entries(&linear, 4, 3, 24, &colors).len(), 25);
}

#[test]
fn linear_file_reads_back() {
    let image = create_test_image(5, 3);
    let file = encode(&image, "");
    assert_eq!(file[..8], [b'I', b'I', 42, 0, 8, 0, 0, 0]);
    assert_eq!(
        tags(&file),
        [
            254, 256, 257, 258, 259, 262, 271, 272, 273, 277, 278, 279, 284, 339, 50706, 50707,
            50708, 50714, 50717, 50719, 50720, 50721, 50728, 50778, 50964
        ]
    );
    assert_eq!(values(&file, 254), (4, 1, vec![0, 0, 0, 0]));
    assert_eq!(values(&file, 256), (4, 1, vec![5, 0, 0, 0]));
    assert_eq!(values(&file, 257), (4, 1, vec![3, 0, 0, 0]));
    assert_eq!(values(&file, 258), (3, 3, vec![16, 0, 16, 0, 16, 0]));
    assert_eq!(values(&file, 259), (3, 1, vec![1, 0]));
    assert_eq!(values(&file, 262), (3, 1, vec![0x4c, 0x88]));
    assert_eq!(values(&file, 271), (2, 7, b"Custom\0".to_vec()));
    assert_eq!(values(&file, 272), (2, 17, b"Synthetic Camera\0".to_vec()));
    assert_eq!(values(&file, 277), (3, 1, vec![3, 0]));
    assert_eq!(values(&file, 278), (4, 1, vec![3, 0, 0, 0]));
    assert_eq!(values(&file, 279), (4, 1, vec![90, 0, 0, 0]));
    assert_eq!(values(&file, 284), (3, 1, vec![1, 0]));
    assert_eq!(values(&file, 339), (3, 3, vec![1, 0, 1, 0, 1, 0]));
    assert_eq!(values(&file, 50706), (1, 4, vec![1, 4, 0, 0]));
    assert_eq!(values(&file, 50707), (1, 4, vec![1, 1, 0, 0]));
    assert_eq!(values(&file, 50708), (2, 17, b"Synthetic Camera\0".to_vec()));
    assert_eq!(values(&file, 50714), (5, 3, [0, 0, 0, 0, 1, 0, 0, 0].repeat(3)));
    assert_eq!(values(&file, 50717), (4, 1, vec![255, 255, 0, 0]));
    assert_eq!(values(&file, 50719), (4, 2, vec![0; 8]));
    assert_eq!(values(&file, 50720), (4, 2, vec![5, 0, 0, 0, 3, 0, 0, 0]));
    assert_eq!(values(&file, 50778), (3, 1, vec![21, 0]));
    assert_eq!(
        values(&file, 50728),
        (
            5,
            3,
            vec![
                0x50, 0x14, 0, 0, 0x10, 0x27, 0, 0, 0x10, 0x27, 0, 0, 0x10, 0x27, 0, 0, 0x20,
                0x1c, 0, 0, 0x10, 0x27, 0, 0
            ]
        )
    );
    let linear = DngLayout::parse("linear").unwrap();
    assert_eq!(pixels(&file), layout_samples(&image, &linear));
}

#[test]
fn surplus_samples_are_part_of_a_linear_file() {
    let image = ImageRgb16::from_raw(1, 1, vec![1, 2, 3, 4]).unwrap();
    assert_eq!(pixels(&encode(&image, "linear")), [1, 2, 3, 4]);
    assert_eq!(pixels(&encode(&image, "rggb")), [1]);
}

#[test]
fn bayer_file_reads_back() {
    let image = create_test_image(4, 6);
    for (name, pattern) in [
        ("rggb", [0, 1, 1, 2]),
        ("bggr", [2, 1, 1, 0]),
        ("grbg", [1, 0, 2, 1]),
        ("gbrg", [1, 2, 0, 1]),
    ] {
        let file = encode(&image, name);
        assert_eq!(tags(&file).len(), 30);
        assert!(tags(&file).windows(2).all(|pair| pair[0] < pair[1]));
        assert_eq!(values(&file, 258), (3, 1, vec![16, 0]));
        assert_eq!(values(&file, 262), (3, 1, vec![0x23, 0x80]));
        assert_eq!(values(&file, 277), (3, 1, vec![1, 0]));
        assert_eq!(values(&file, 339), (3, 1, vec![1, 0]));
        assert_eq!(values(&file, 33421), (3, 2, vec![2, 0, 2, 0]));
        assert_eq!(values(&file, 33422), (1, 4, pattern.to_vec()));
        assert_eq!(values(&file, 50710), (1, 3, vec![0, 1, 2]));
        assert_eq!(values(&file, 50711), (3, 1, vec![1, 0]));
        assert_eq!(values(&file, 50713), (3, 2, vec![2, 0, 2, 0]));
        assert_eq!(values(&file, 50714), (5, 4, [0, 0, 0, 0, 1, 0, 0, 0].repeat(4)));
        let layout = DngLayout::parse(name).unwrap();
        assert_eq!(pixels(&file), layout_samples(&image, &layout));
    }
}

#[test]
fn written_pattern_names_the_color_of_each_sample() {
    let image = create_test_image(13, 8);
    let linear = pixels(&encode(&image, "linear"));
    for (name, size) in [("grbg", 2), ("xtrans", 6)] {
        let file = encode(&image, name);
        let pattern = values(&file, 33422).2;
        let samples = pixels(&file);
        assert_eq!(samples.len(), 13 * 8);
        for y in 0..8 {
            for x in 0..13 {
                let color = pattern[y % size * size + x % size] as usize;
                assert_eq!(samples[y * 13 + x], linear[3 * (y * 13 + x) + color]);
            }
        }
    }
}

#[test]
fn xtrans_file_reads_back() {
    let image = create_test_image(7, 7);
    let file = encode(&image, "xtrans");
    assert_eq!(tags(&file).len(), 30);
    assert_eq!(values(&file, 33421), (3, 2, vec![6, 0, 6, 0]));
    assert_eq!(
        values(&file, 33422),
        (
            1,
            36,
            vec![
                1, 2, 0, 1, 0, 2, 0, 1, 1, 2, 1, 1, 2, 1, 1, 0, 1, 1, 1, 0, 2, 1, 2, 0, 2, 1, 1,
                0, 1, 1, 0, 1, 1, 2, 1, 1
            ]
        )
    );
    assert_eq!(values(&file, 50713), (3, 2, vec![6, 0, 6, 0]));
    assert_eq!(values(&file, 50714), (5, 36, [0, 0, 0, 0, 1, 0, 0, 0].repeat(36)));
    let layout = DngLayout::parse("xtrans").unwrap();
    assert_eq!(pixels(&file), layout_samples(&image, &layout));
}

#[test]
fn missing_forward_matrix_is_the_color_matrix() {
    let image = create_test_image(2, 2);
    let matrix = [[1, -2, 3], [4, 5, -6], [7, 8, 9]];
    let other = [[9, 8, 7], [6, 5, 4], [3, 2, -1]];
    let file = encode_dng(&image, "", matrix, None, [1, 1, 1]).unwrap();
    assert_eq!(values(&file, 50964), values(&file, 50721));
    let file = encode_dng(&image, "", matrix, Some(other), [1, 1, 1]).unwrap();
    let color = values(&file, 50721);
    let forward = values(&file, 50964);
    assert_eq!((color.0, color.1), (10, 9));
    assert_eq!((forward.0, forward.1), (10, 9));
    for k in 0..9 {
        assert_eq!(read32(&color.2, 8 * k) as u32, matrix[k / 3][k % 3] as u32);
        assert_eq!(read32(&color.2, 8 * k + 4), 10_000);
        assert_eq!(read32(&forward.2, 8 * k) as u32, other[k / 3][k % 3] as u32);
        assert_eq!(read32(&forward.2, 8 * k + 4), 10_000);
    }
}

#[test]
fn values_in_a_file_do_not_overlap() {
    let file = encode(&create_test_image(3, 3), "xtrans");
    let count = read16(&file, 8);
    let mut end = 14 + 12 * count;
    for (i, entry) in directory(&file).iter().enumerate() {
        if entry.3.len() > 4 {
            let at = read32(&file, 10 + 12 * i + 8);
            assert_eq!(at, end);
            end = at + entry.3.len() + entry.3.len() % 2;
        }
    }
    assert_eq!(end, read32(&values(&file, 273).2, 0));
}

#[test]
fn file_of_given_samples_is_the_file_of_the_image() {
    let image = create_test_image(6, 5);
    let layout = DngLayout::parse("gbrg").unwrap();
    let samples = layout_samples(&image, &layout);
    let colors = Colors::from_numerators(IDENTITY, None, [5200, 10_000, 7200]);
    let file = dng_file(&layout, 6, 5, &samples, &colors).unwrap();
    assert_eq!(file, encode(&image, " GBRG "));
}
