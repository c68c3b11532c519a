//! Pixel addressing and colour arithmetic for 16-bit RGB565 surfaces.
use vstd::prelude::*;
use crate::error::{Error, is_arm_fault};
use crate::memory::{address_overflow_text, GuestAddr};

verus! {

/// The byte offset of pixel `(x, y)` in a screen `width` pixels wide, when
/// every step of `(y * width + x) * 2` stays within `i32` and the result is
/// not negative.
pub open spec fn screen_offset(x: i32, y: i32, width: i32) -> Option<u32> {
    let row = y * width;
    let index = row + x;
    let offset = index * 2;
    if row < i32::MIN || row > i32::MAX || index < i32::MIN || index > i32::MAX || offset
        < i32::MIN || offset > i32::MAX || offset < 0 {
        None
    } else {
        Some(offset as u32)
    }
}

/// `base + offset` as a guest address, or the overflow fault.
pub open spec fn offset_address(base: GuestAddr, offset: u32, r: Result<GuestAddr, Error>) -> bool {
    if base.0 + offset <= u32::MAX {
        r == Ok::<GuestAddr, Error>(GuestAddr((base.0 + offset) as u32))
    } else {
        is_arm_fault(r, address_overflow_text(base.0, offset))
    }
}

/// The guest address of pixel `(x, y)` of a screen `width` pixels wide.
pub fn screen_pixel_address(screen: GuestAddr, x: i32, y: i32, width: i32) -> (r: Result<
    GuestAddr,
    Error,
>)
    ensures
        match screen_offset(x, y, width) {
            None => r matches Err(Error::Abi(m)) && m@ == "screen pixel offset overflow"@,
            Some(offset) => offset_address(screen, offset, r),
        },
{
    let offset = match y.checked_mul(width) {
        Some(row) => match row.checked_add(x) {
            Some(index) => match index.checked_mul(2) {
                Some(offset) => if offset >= 0 {
                    Some(offset as u32)
                } else {
                    None
                },
                None => None,
            },
            None => None,
        },
        None => None,
    };
    match offset {
        Some(offset) => screen.checked_add(offset),
        None => Err(Error::Abi(String::from_str("screen pixel offset overflow"))),
    }
}

/// The byte offset `(y * stride + x) * 2` of a pixel of a bitmap, when it
/// fits in 32 bits.
pub open spec fn bitmap_offset(stride: usize, x: usize, y: usize) -> Option<u32> {
    let offset = (y * stride + x) * 2;
    if offset > u32::MAX {
        None
    } else {
        Some(offset as u32)
    }
}

/// The guest address of pixel `(x, y)` of a bitmap whose rows are `stride`
/// pixels apart.
pub fn bitmap_pixel_address(pixels: GuestAddr, stride: usize, x: usize, y: usize) -> (r: Result<
    GuestAddr,
    Error,
>)
    ensures
        match bitmap_offset(stride, x, y) {
            None => r matches Err(Error::Abi(m)) && m@ == "bitmap pixel offset overflow"@,
            Some(offset) => offset_address(pixels, offset, r),
        },
{
    let offset: Option<u32> = match y.checked_mul(stride) {
        Some(row) => match row.checked_add(x) {
            Some(index) => match index.checked_mul(2) {
                Some(offset) => if offset <= u32::MAX as usize {
                    Some(offset as u32)
                } else {
                    None
                },
                None => None,
            },
            None => None,
        },
        None => {
            assert(y * stride <= (y * stride + x) * 2) by (nonlinear_arith);
            None
        },
    };
    proof {
        assert(y * stride <= (y * stride + x) * 2) by (nonlinear_arith);
    }
    match offset {
        Some(offset) => pixels.checked_add(offset),
        None => Err(Error::Abi(String::from_str("bitmap pixel offset overflow"))),
    }
}

/// An RGB565 colour from 8-bit channels: the top five, six and five bits.
pub open spec fn rgb565(red: u32, green: u32, blue: u32) -> u16 {
    (((red >> 3u32) << 11u32) | ((green >> 2u32) << 5u32) | (blue >> 3u32)) as u16
}

/// The gray of an RGB565 colour: each channel widened to eight bits by
/// repeating its top bits, then weighted 77 : 150 : 29 out of 256 (BT.601),
/// rounded.
pub open spec fn luminance(color: u16) -> u32 {
    let r5 = ((color >> 11u16) & 0x1f) as u32;
    let g6 = ((color >> 5u16) & 0x3f) as u32;
    let b5 = (color & 0x1f) as u32;
    let red = (r5 << 3u32) | (r5 >> 2u32);
    let green = (g6 << 2u32) | (g6 >> 4u32);
    let blue = (b5 << 3u32) | (b5 >> 2u32);
    ((77 * red + 150 * green + 29 * blue + 128) / 256) as u32
}

/// The gray RGB565 colour of the same luminance.
pub fn grayscale_rgb565(color: u16) -> (r: u16)
    ensures
        luminance(color) <= 255,
        r == rgb565(luminance(color), luminance(color), luminance(color)),
{
    let r5 = ((color >> 11u16) & 0x1f) as u32;
    let g6 = ((color >> 5u16) & 0x3f) as u32;
    let b5 = (color & 0x1f) as u32;
    let red = (r5 << 3u32) | (r5 >> 2u32);
    let green = (g6 << 2u32) | (g6 >> 4u32);
    let blue = (b5 << 3u32) | (b5 >> 2u32);
    assert(red <= 255 && green <= 255 && blue <= 255) by (bit_vector)
        requires
            r5 == ((color >> 11u16) & 0x1f) as u32,
            g6 == ((color >> 5u16) & 0x3f) as u32,
            b5 == (color & 0x1f) as u32,
            red == (r5 << 3u32) | (r5 >> 2u32),
            green == (g6 << 2u32) | (g6 >> 4u32),
            blue == (b5 << 3u32) | (b5 >> 2u32),
    ;
    let sum = 77 * red + 150 * green + 29 * blue + 128;
    let luma = sum >> 8u32;
    assert(luma == sum / 256) by (bit_vector)
        requires
            luma == sum >> 8u32,
    ;
    (((luma >> 3u32) << 11u32) | ((luma >> 2u32) << 5u32) | (luma >> 3u32)) as u16
}

/// A 2x2 fixed-point matrix with eight fraction bits, and a drawing mode.
#[derive(Clone, Copy, Debug, PartialEq, Eq, Structural)]
pub struct BitmapTransform {
    pub a: i16,
    pub b: i16,
    pub c: i16,
    pub d: i16,
    pub mode: i16,
}

impl BitmapTransform {
    /// The matrix applied to `(x, y)`, each coordinate shifted right by the
    /// eight fraction bits (rounding toward negative infinity).
    pub fn apply(self, x: i64, y: i64) -> (r: (i64, i64))
        requires
            i64::MIN <= self.a * x + self.b * y <= i64::MAX,
            i64::MIN <= self.c * x + self.d * y <= i64::MAX,
            i64::MIN <= self.a * x <= i64::MAX,
            i64::MIN <= self.b * y <= i64::MAX,
            i64::MIN <= self.c * x <= i64::MAX,
            i64::MIN <= self.d * y <= i64::MAX,
        ensures
            r.0 == ((self.a * x + self.b * y) as i64) >> 8u64,
            r.1 == ((self.c * x + self.d * y) as i64) >> 8u64,
    {
        (
            ((self.a as i64) * x + (self.b as i64) * y) >> 8u64,
            ((self.c as i64) * x + (self.d as i64) * y) >> 8u64,
        )
    }
}

} // verus!
