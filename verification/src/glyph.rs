//! A character bitmap from the host in the form guest code reads: each of
//! its rows comes as two bytes, leftmost pixel in the lowest bit, and the
//! guest wants as many bytes per row as the width needs, leftmost pixel in
//! the highest bit.
use crate::error::Error;
use crate::text::{dec_text, decimal, hex16, hex16_text, hex_prefixed, hex_prefixed_text};
use vstd::prelude::*;

verus! {

/// Bit `i` of `b`.
pub open spec fn bit(b: u8, i: u8) -> u8 {
    (b >> i) & 1
}

/// `r` holds the bits of `b` in the opposite order.
pub open spec fn reversed(b: u8, r: u8) -> bool {
    &&& bit(r, 0) == bit(b, 7)
    &&& bit(r, 1) == bit(b, 6)
    &&& bit(r, 2) == bit(b, 5)
    &&& bit(r, 3) == bit(b, 4)
    &&& bit(r, 4) == bit(b, 3)
    &&& bit(r, 5) == bit(b, 2)
    &&& bit(r, 6) == bit(b, 1)
    &&& bit(r, 7) == bit(b, 0)
}

/// `b` with its bits in the opposite order.
pub fn reverse_bits(b: u8) -> (r: u8)
    ensures
        reversed(b, r),
{
    let r: u8 = ((b & 0x01) << 7u8) | ((b & 0x02) << 5u8) | ((b & 0x04) << 3u8) | ((b & 0x08) << 1u8) | ((b
        & 0x10) >> 1u8) | ((b & 0x20) >> 3u8) | ((b & 0x40) >> 5u8) | ((b & 0x80) >> 7u8);
    assert(reversed(b, r)) by (bit_vector)
        requires
            r == ((b & 0x01) << 7u8) | ((b & 0x02) << 5u8) | ((b & 0x04) << 3u8) | ((b & 0x08) << 1u8) | ((b
                & 0x10) >> 1u8) | ((b & 0x20) >> 3u8) | ((b & 0x40) >> 5u8) | ((b & 0x80) >> 7u8),
    ;
    r
}

/// A code point as `{:#06x}` prints it: `0x` and at least four digits.
pub open spec fn codepoint_text(c: u32) -> Seq<char> {
    if c < 0x1_0000 {
        hex16_text(c as u16)
    } else {
        hex_prefixed_text(c as nat)
    }
}

pub open spec fn glyph_size_text(width: u32, height: u32, c: u32) -> Seq<char> {
    "unsupported character bitmap dimensions "@ + dec_text(width as nat) + "x"@ + dec_text(height as nat)
        + " for "@ + codepoint_text(c)
}

pub open spec fn glyph_short_text(c: u32, len: nat, required: nat) -> Seq<char> {
    "character bitmap for "@ + codepoint_text(c) + " has "@ + dec_text(len) + " bytes, needs "@ + dec_text(
        required,
    )
}

/// The bytes per guest row of a glyph `width` pixels wide.
pub open spec fn glyph_stride(width: u32) -> nat {
    ((width + 7) / 8) as nat
}

/// What the host's bitmap (`width` x `height`, two bytes a row) of code
/// point `c` becomes: refused unless both sides are 1 to 16 pixels and the
/// bitmap has all its rows; otherwise `glyph_stride(width)` bytes a row,
/// each the host's byte with its bits reversed.
pub open spec fn glyph_matches(r: Result<Vec<u8>, Error>, bitmap: Seq<u8>, c: u32, width: u32, height: u32) -> bool {
    if width == 0 || width > 16 || height == 0 || height > 16 {
        r matches Err(Error::Abi(m)) && m@ == glyph_size_text(width, height, c)
    } else if bitmap.len() < height * 2 {
        r matches Err(Error::Abi(m)) && m@ == glyph_short_text(c, bitmap.len(), (height * 2) as nat)
    } else {
        r matches Ok(g) && g@.len() == glyph_stride(width) * height && forall|k: int|
            0 <= k < g@.len() ==> #[trigger] reversed(
                bitmap[2 * (k / glyph_stride(width) as int) + k % glyph_stride(width) as int],
                g@[k],
            )
    }
}

fn codepoint_string(c: u32) -> (s: String)
    ensures
        s@ == codepoint_text(c),
{
    if c < 0x1_0000 {
        hex16(c as u16)
    } else {
        hex_prefixed(c as u64)
    }
}

/// Converts the host's bitmap of code point `c` to the guest's glyph, as
/// `glyph_matches` says.
pub fn guest_glyph(bitmap: &[u8], c: u32, width: u32, height: u32) -> (r: Result<Vec<u8>, Error>)
    ensures
        glyph_matches(r, bitmap@, c, width, height),
{
    if width == 0 || width > 16 || height == 0 || height > 16 {
        let m = String::from_str("unsupported character bitmap dimensions ").concat(decimal(width as u64).as_str())
            .concat("x").concat(decimal(height as u64).as_str()).concat(" for ").concat(
            codepoint_string(c).as_str(),
        );
        proof {
            assert(m@ =~= glyph_size_text(width, height, c));
        }
        return Err(Error::Abi(m));
    }
    let required = (height as usize) * 2;
    if bitmap.len() < required {
        let m = String::from_str("character bitmap for ").concat(codepoint_string(c).as_str()).concat(" has ")
            .concat(decimal(bitmap.len() as u64).as_str()).concat(" bytes, needs ").concat(
            decimal(required as u64).as_str(),
        );
        proof {
            assert(m@ =~= glyph_short_text(c, bitmap@.len(), (height * 2) as nat));
        }
        return Err(Error::Abi(m));
    }
    let stride = ((width as usize) + 7) / 8;
    assert(stride == glyph_stride(width) && 1 <= stride <= 2);
    let mut glyph: Vec<u8> = Vec::new();
    let mut row: usize = 0;
    while row < height as usize
        invariant
            row <= height <= 16,
            bitmap@.len() >= height * 2,
            stride == glyph_stride(width),
            1 <= stride <= 2,
            glyph@.len() == row * stride,
            forall|k: int|
                0 <= k < glyph@.len() ==> #[trigger] reversed(
                    bitmap@[2 * (k / stride as int) + k % stride as int],
                    glyph@[k],
                ),
        decreases height - row,
    {
        let mut i: usize = 0;
        while i < stride
            invariant
                row < height <= 16,
                i <= stride,
                bitmap@.len() >= height * 2,
                1 <= stride <= 2,
                glyph@.len() == row * stride + i,
                forall|k: int|
                    0 <= k < glyph@.len() ==> #[trigger] reversed(
                        bitmap@[2 * (k / stride as int) + k % stride as int],
                        glyph@[k],
                    ),
            decreases stride - i,
        {
            let ghost k = glyph@.len() as int;
            assert(k / stride as int == row && k % stride as int == i) by (nonlinear_arith)
                requires
                    k == row * stride + i,
                    i < stride,
                    stride >= 1,
            ;
            glyph.push(reverse_bits(bitmap[2 * row + i]));
            i = i + 1;
        }
        assert((row + 1) * stride == row * stride + stride) by (nonlinear_arith);
        row = row + 1;
    }
    assert(glyph@.len() == glyph_stride(width) * height) by (nonlinear_arith)
        requires
            glyph@.len() == row * stride,
            row == height,
            stride == glyph_stride(width),
    ;
    Ok(glyph)
}

} // verus!
