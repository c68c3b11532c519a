use skyengine::error::Error;
use skyengine::glyph::{guest_glyph, reverse_bits};

#[test]
fn reverse_bits_mirrors_a_byte() {
    assert_eq!(reverse_bits(0b0000_0001), 0b1000_0000);
    assert_eq!(reverse_bits(0b1100_1010), 0b0101_0011);
    assert_eq!(reverse_bits(0xff), 0xff);
    for b in 0..=255u8 {
        assert_eq!(reverse_bits(b), b.reverse_bits());
    }
}

#[test]
fn a_glyph_keeps_the_bytes_its_width_needs_reversed() {
    let bitmap = [0x01u8, 0x80, 0x03, 0x0f];
    assert_eq!(guest_glyph(&bitmap, 0x41, 9, 2).unwrap(), vec![0x80, 0x01, 0xc0, 0xf0]);
    assert_eq!(guest_glyph(&bitmap, 0x41, 8, 2).unwrap(), vec![0x80, 0xc0]);
    assert_eq!(guest_glyph(&bitmap, 0x41, 1, 1).unwrap(), vec![0x80]);
}

#[test]
fn a_glyph_out_of_size_or_short_is_refused() {
    let bitmap = [0u8; 4];
    assert!(matches!(guest_glyph(&bitmap, 0x41, 17, 2),
        Err(Error::Abi(m)) if m == "unsupported character bitmap dimensions 17x2 for 0x0041"));
    assert!(matches!(guest_glyph(&bitmap, 0x1f600, 8, 0),
        Err(Error::Abi(m)) if m == "unsupported character bitmap dimensions 8x0 for 0x1f600"));
    assert!(matches!(guest_glyph(&bitmap[..3], 0x4e2d, 8, 2),
        Err(Error::Abi(m)) if m == "character bitmap for 0x4e2d has 3 bytes, needs 4"));
}
