use matrix_frames::image_matrix::ImageSequence;
use matrix_frames::packing::bits_to_byte;

fn set_pixels_from_bytes(s: &mut ImageSequence, idx: usize, bytes: &[u8]) {
    // MSB-first unpacking: bit 7 of byte k is pixel 8 * k.
    let dims = s.get_dimensions_pixels();
    let width = dims[0];
    for (k, &b) in bytes.iter().enumerate() {
        for j in 0..8 {
            let flat = 8 * k + j;
            let lit = (b >> (7 - j)) & 1 == 1;
            assert!(s.set(flat % width, flat / width, idx, lit));
        }
    }
}

#[test]
fn bits_to_byte_packs_msb_first() {
    let bits = vec![true, false, true, false, false, true, false, true];
    assert_eq!(bits_to_byte(&bits, 0), 0xA5);
    let mut shifted = vec![false, false];
    shifted.extend_from_slice(&bits);
    assert_eq!(bits_to_byte(&shifted, 2), 0xA5);
    assert_eq!(bits_to_byte(&shifted, 0), 0x29);
}

#[test]
fn get_bytes_packs_row_major_groups() {
    let mut s = ImageSequence::new(1, 1);
    // First row: pixels 0, 2, 5, 7 lit -> 0b10100101 = 0xA5.
    for x in [0, 2, 5, 7] {
        s.set(x, 0, 0, true);
    }
    // Third row: pixel 0 lit -> 0x80.
    s.set(0, 2, 0, true);
    let bytes = s.get_bytes(0);
    assert_eq!(bytes.len(), 8);
    assert_eq!(bytes[0], 0xA5);
    assert_eq!(bytes[1], 0x00);
    assert_eq!(bytes[2], 0x80);
    assert!(bytes[3..].iter().all(|&b| b == 0));
}

#[test]
fn byte_packing_round_trip() {
    let source: [u8; 8] = [0xA5, 0x3C, 0xFF, 0x00, 0x81, 0x7E, 0x01, 0x80];
    let mut s = ImageSequence::new(1, 1);
    set_pixels_from_bytes(&mut s, 0, &source);
    assert_eq!(s.get_bytes(0), source.to_vec());
}

#[test]
fn byte_packing_round_trip_wide_grid() {
    let mut source = Vec::new();
    for k in 0..(16 * 16 / 8) {
        source.push((k * 37 % 256) as u8);
    }
    let mut s = ImageSequence::new(2, 2);
    set_pixels_from_bytes(&mut s, 0, &source);
    assert_eq!(s.get_bytes(0), source);
}

#[test]
fn blank_frame_renders_as_zero_hex_literals() {
    let s = ImageSequence::new(1, 1);
    assert_eq!(
        s.get_frame_as_string(0),
        "{0x00, 0x00, 0x00, 0x00, 0x00, 0x00, 0x00, 0x00}"
    );
}

#[test]
fn frame_text_uses_two_uppercase_zero_padded_digits() {
    let mut s = ImageSequence::new(1, 1);
    set_pixels_from_bytes(&mut s, 0, &[0xA5, 0x3C, 0x0F, 0xC0, 0x01, 0x80, 0x7E, 0xFF]);
    assert_eq!(
        s.get_frame_as_string(0),
        "{0xA5, 0x3C, 0x0F, 0xC0, 0x01, 0x80, 0x7E, 0xFF}"
    );
}

#[test]
fn sequence_text_nests_one_literal_per_frame_in_order() {
    let mut s = ImageSequence::new(1, 1);
    s.set(0, 0, 0, true);
    s.add_frame();
    assert_eq!(
        s.get_sequence_as_string(),
        "{{0x80, 0x00, 0x00, 0x00, 0x00, 0x00, 0x00, 0x00}, \
{0x00, 0x00, 0x00, 0x00, 0x00, 0x00, 0x00, 0x00}}"
    );
}
