use dng_export::bytes::{align_even, u16_slice_to_le_bytes, write_padding};
use dng_export::ifd::{write_ifd_entry, IfdEntry};
use dng_export::order::sort_by_tag;

fn check(entry: &IfdEntry, tag: u16, field_type: u16, count: u32, data: &[u8]) {
    assert_eq!(entry.tag, tag);
    assert_eq!(entry.field_type, field_type);
    assert_eq!(entry.count, count);
    assert_eq!(entry.data, data);
}

#[test]
fn new_keeps_its_parts() {
    check(&IfdEntry::new(1, 2, 3, vec![4, 5]), 1, 2, 3, &[4, 5]);
}

#[test]
fn byte_entry_holds_the_bytes() {
    check(&IfdEntry::byte(50706, &[1, 4, 0, 0]), 50706, 1, 4, &[1, 4, 0, 0]);
    check(&IfdEntry::byte(7, &[]), 7, 1, 0, &[]);
}

#[test]
fn ascii_entry_gets_a_final_zero() {
    check(&IfdEntry::ascii(271, "Custom"), 271, 2, 7, b"Custom\0");
    check(&IfdEntry::ascii(271, ""), 271, 2, 1, &[0]);
}

#[test]
fn ascii_entry_keeps_a_final_zero() {
    check(&IfdEntry::ascii(271, "ab\0"), 271, 2, 3, b"ab\0");
}

#[test]
fn ascii_entry_of_other_characters_is_utf8() {
    check(&IfdEntry::ascii(271, "\u{e9}"), 271, 2, 3, &[0xc3, 0xa9, 0]);
}

#[test]
fn short_entry_is_little_endian() {
    check(&IfdEntry::short(258, &[16, 0x1234]), 258, 3, 2, &[16, 0, 0x34, 0x12]);
}

#[test]
fn long_entry_is_little_endian() {
    check(
        &IfdEntry::long(256, &[0x0102_0304, 1]),
        256,
        4,
        2,
        &[4, 3, 2, 1, 1, 0, 0, 0],
    );
}

#[test]
fn rational_entry_has_numerator_and_denominator() {
    check(
        &IfdEntry::rational(50728, &[(5200, 10_000)]),
        50728,
        5,
        1,
        &[0x50, 0x14, 0, 0, 0x10, 0x27, 0, 0],
    );
}

#[test]
fn srational_entry_is_in_twos_complement() {
    check(
        &IfdEntry::srational(50721, &[(-1, 10_000), (i32::MIN, i32::MAX)]),
        50721,
        10,
        2,
        &[
            255, 255, 255, 255, 0x10, 0x27, 0, 0, 0, 0, 0, 0x80, 255, 255, 255, 0x7f,
        ],
    );
}

#[test]
fn samples_become_two_bytes_each() {
    let values: [u16; 3] = [0, 0xabcd, 65535];
    let bytes = u16_slice_to_le_bytes(&values);
    assert_eq!(bytes, [0, 0, 0xcd, 0xab, 255, 255]);
    let back: Vec<u16> = bytes
        .chunks(2)
        .map(|pair| u16::from_le_bytes([pair[0], pair[1]]))
        .collect();
    assert_eq!(back, values);
}

#[test]
fn align_even_rounds_up() {
    assert_eq!(align_even(0), 0);
    assert_eq!(align_even(1), 2);
    assert_eq!(align_even(2), 2);
    assert_eq!(align_even(u32::MAX - 1), u32::MAX - 1);
    assert_eq!(align_even(align_even(7)), align_even(7));
}

#[test]
fn padding_is_zeros_behind_what_is_there() {
    let mut writer = vec![9];
    write_padding(&mut writer, 0);
    assert_eq!(writer, [9]);
    write_padding(&mut writer, 11);
    assert_eq!(writer, [9, 0, 0, 0, 0, 0, 0, 0, 0, 0, 0, 0]);
}

#[test]
fn short_values_stand_in_the_entry() {
    let mut writer = Vec::new();
    write_ifd_entry(&mut writer, &IfdEntry::short(259, &[1]), 1000);
    assert_eq!(writer, [3, 1, 3, 0, 1, 0, 0, 0, 1, 0, 0, 0]);
}

#[test]
fn four_bytes_still_stand_in_the_entry() {
    let mut writer = Vec::new();
    write_ifd_entry(&mut writer, &IfdEntry::byte(50706, &[1, 4, 0, 9]), 1000);
    assert_eq!(writer[8..], [1, 4, 0, 9]);
}

#[test]
fn long_values_are_pointed_to() {
    let mut writer = Vec::new();
    write_ifd_entry(&mut writer, &IfdEntry::byte(7, &[1, 2, 3, 4, 5]), 0x0102_0304);
    assert_eq!(writer, [7, 0, 1, 0, 5, 0, 0, 0, 4, 3, 2, 1]);
}

#[test]
fn sorting_orders_tags_and_keeps_equal_ones_in_order() {
    let mut entries = vec![
        IfdEntry::byte(9, &[1]),
        IfdEntry::byte(3, &[2]),
        IfdEntry::byte(9, &[3]),
        IfdEntry::byte(1, &[4]),
        IfdEntry::byte(3, &[5]),
    ];
    sort_by_tag(&mut entries);
    let order: Vec<(u16, u8)> = entries.iter().map(|e| (e.tag, e.data[0])).collect();
    assert_eq!(order, [(1, 4), (3, 2), (3, 5), (9, 1), (9, 3)]);
    let mut none: Vec<IfdEntry> = Vec::new();
    sort_by_tag(&mut none);
    assert!(none.is_empty());
}
