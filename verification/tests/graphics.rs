use skyengine::error::Error;
use skyengine::graphics::{
    bitmap_pixel_address, grayscale_rgb565, screen_pixel_address, BitmapTransform,
};
use skyengine::memory::GuestAddr;

#[test]
fn screen_pixels_are_two_bytes_in_row_major_order() {
    assert_eq!(
        screen_pixel_address(GuestAddr(0x1000), 3, 2, 240).unwrap(),
        GuestAddr(0x1000 + (2 * 240 + 3) * 2)
    );
    assert!(matches!(
        screen_pixel_address(GuestAddr(0x1000), -1, 0, 240),
        Err(Error::Abi(ref m)) if m == "screen pixel offset overflow"
    ));
    assert!(matches!(
        screen_pixel_address(GuestAddr(0), 0, i32::MAX, 2),
        Err(Error::Abi(_))
    ));
    assert!(matches!(
        screen_pixel_address(GuestAddr(u32::MAX), 1, 0, 240),
        Err(Error::ArmFault(_))
    ));
}

#[test]
fn bitmap_pixels_use_the_stride() {
    assert_eq!(
        bitmap_pixel_address(GuestAddr(0x2000), 100, 5, 7).unwrap(),
        GuestAddr(0x2000 + (7 * 100 + 5) * 2)
    );
    assert!(matches!(
        bitmap_pixel_address(GuestAddr(0), 0x8000_0000, 0, 1),
        Err(Error::Abi(ref m)) if m == "bitmap pixel offset overflow"
    ));
    assert!(matches!(
        bitmap_pixel_address(GuestAddr(0), usize::MAX, 0, 2),
        Err(Error::Abi(_))
    ));
}

#[test]
fn grayscale_keeps_black_white_and_gray() {
    assert_eq!(grayscale_rgb565(0x0000), 0x0000);
    assert_eq!(grayscale_rgb565(0xffff), 0xffff);
    // Pure red: 77 * 255 + 128 >> 8 = 77, packed as 0x4a69.
    assert_eq!(grayscale_rgb565(0xf800), 0x4a69);
    // Pure green: (150 * 255 + 128) >> 8 = 149.
    assert_eq!(grayscale_rgb565(0x07e0), ((149 >> 3) << 11) | ((149 >> 2) << 5) | (149 >> 3));
}

#[test]
fn bitmap_transforms_apply_eight_fraction_bits() {
    let identity = BitmapTransform { a: 256, b: 0, c: 0, d: 256, mode: 0 };
    assert_eq!(identity.apply(10, -4), (10, -4));
    let half = BitmapTransform { a: 128, b: 0, c: 0, d: 128, mode: 0 };
    assert_eq!(half.apply(7, -7), (3, -4));
    let swap = BitmapTransform { a: 0, b: 256, c: -256, d: 0, mode: 1 };
    assert_eq!(swap.apply(3, 5), (5, -3));
}
