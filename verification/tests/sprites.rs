//! Tests of the sprite-bit helpers: byte-to-pixel expansion, most
//! significant bit first.

use superchip::execution::{byte_to_bools, load_large_sprite, load_sprite, twobyte_twobools};

#[test]
fn byte_expands_msb_first() {
    assert_eq!(
        byte_to_bools(0xA5),
        [true, false, true, false, false, true, false, true]
    );
    assert_eq!(byte_to_bools(0x00), [false; 8]);
    assert_eq!(byte_to_bools(0xFF), [true; 8]);
    assert_eq!(
        byte_to_bools(0x80),
        [true, false, false, false, false, false, false, false]
    );
}

#[test]
fn two_bytes_expand_to_sixteen_pixels() {
    let row = twobyte_twobools(0x80, 0x01);
    assert!(row[0]);
    assert!(row[15]);
    assert_eq!(row[1..15], [false; 14]);
    assert_eq!(twobyte_twobools(0xFF, 0xFF), [true; 16]);
}

#[test]
fn sprite_rows_follow_the_bytes() {
    let sprite = load_sprite(&[0xF0, 0x0F]);
    assert_eq!(sprite.len(), 2);
    assert_eq!(sprite[0], [true, true, true, true, false, false, false, false]);
    assert_eq!(sprite[1], [false, false, false, false, true, true, true, true]);
}

#[test]
fn large_sprite_has_sixteen_rows_of_two_bytes() {
    let mut bytes = vec![0u8; 32];
    bytes[0] = 0xFF;
    bytes[1] = 0xFF;
    bytes[30] = 0x80;
    bytes[31] = 0x01;
    let sprite = load_large_sprite(&bytes);
    assert_eq!(sprite.len(), 16);
    assert_eq!(sprite[0], [true; 16]);
    assert_eq!(sprite[1], [false; 16]);
    assert!(sprite[15][0]);
    assert!(sprite[15][15]);
    assert_eq!(sprite[15][1..15], [false; 14]);
}
