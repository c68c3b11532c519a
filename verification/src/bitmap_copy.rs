//! Copying a region of one RGB565 bitmap into another through a 2x2
//! fixed-point transform (rotation, mirroring, scaling).
use vstd::prelude::*;
use crate::error::Error;
use crate::graphics::{bitmap_offset, bitmap_pixel_address, BitmapTransform};
use crate::guest_strings::{fault_matches, GuestFault};
use crate::memory::{address_overflow_text, GuestAddr, GuestMemory, MemView};
use crate::text::{dec_text, decimal};

verus! {

/// A bitmap in guest memory: `width` x `height` pixels at `pixels`, and a
/// position `x`, `y` within it.
#[derive(Clone, Copy, Debug)]
pub struct BitmapDescriptor {
    pub pixels: GuestAddr,
    pub width: usize,
    pub height: usize,
    pub x: i32,
    pub y: i32,
}

/// `v` in decimal, with a leading minus sign when negative.
pub open spec fn signed_text(v: int) -> Seq<char> {
    if v < 0 {
        "-"@ + dec_text((-v) as nat)
    } else {
        dec_text(v as nat)
    }
}

fn signed_string(v: i64) -> (s: String)
    requires
        v > i64::MIN,
    ensures
        s@ == signed_text(v as int),
{
    if v < 0 {
        proof {
            reveal_strlit("-");
        }
        String::from_str("-").concat(decimal((0 - v) as u64).as_str())
    } else {
        decimal(v as u64)
    }
}

/// The guest address of pixel `(x, y)` of a bitmap, or the fault.
pub open spec fn pixel_address(pixels: GuestAddr, stride: usize, x: usize, y: usize) -> Result<
    u32,
    GuestFault,
> {
    match bitmap_offset(stride, x, y) {
        None => Err(GuestFault::Abi("bitmap pixel offset overflow"@)),
        Some(o) => if pixels.0 + o > u32::MAX {
            Err(GuestFault::Arm(address_overflow_text(pixels.0, o)))
        } else {
            Ok((pixels.0 + o) as u32)
        },
    }
}

fn pixel_at(pixels: GuestAddr, stride: usize, x: usize, y: usize) -> (r: Result<GuestAddr, Error>)
    ensures
        match pixel_address(pixels, stride, x, y) {
            Ok(a) => r == Ok::<GuestAddr, Error>(GuestAddr(a)),
            Err(f) => fault_matches(r, f),
        },
{
    bitmap_pixel_address(pixels, stride, x, y)
}

/// The `(row, column)` after `(row, column)` in a region `width` columns wide.
pub open spec fn next_cell(row: nat, column: nat, width: nat) -> (nat, nat) {
    if column + 1 >= width {
        (row + 1, 0)
    } else {
        (row, column + 1)
    }
}

/// Reads the source region in row-major order from cell `k` (at `row`,
/// `column`) on, after the colours `read` so far.
pub open spec fn read_region(
    m: MemView,
    source: BitmapDescriptor,
    sx: nat,
    sy: nat,
    width: nat,
    total: nat,
    k: nat,
    row: nat,
    column: nat,
    read: Seq<u16>,
) -> Result<Seq<u16>, GuestFault>
    decreases total - k,
{
    if k >= total {
        Ok(read)
    } else {
        match pixel_address(source.pixels, source.width, (sx + column) as usize, (sy + row) as usize) {
            Err(f) => Err(f),
            Ok(a) => match m.read_u16(a) {
                Err(t) => Err(GuestFault::Arm(t)),
                Ok(v) => {
                    let (r2, c2) = next_cell(row, column, width);
                    read_region(m, source, sx, sy, width, total, k + 1, r2, c2, read.push(v))
                },
            },
        }
    }
}

/// The transformed coordinates of `(x, y)`.
pub open spec fn transformed(t: BitmapTransform, x: int, y: int) -> (int, int) {
    ((((t.a * x + t.b * y) as i64) >> 8u64) as int, (((t.c * x + t.d * y) as i64) >> 8u64) as int)
}

pub open spec fn min4(a: int, b: int, c: int, d: int) -> int {
    let ab = if a <= b {
        a
    } else {
        b
    };
    let cd = if c <= d {
        c
    } else {
        d
    };
    if ab <= cd {
        ab
    } else {
        cd
    }
}

/// Where the region lands: the smallest transformed corner coordinates.
pub open spec fn origin(t: BitmapTransform, width: nat, height: nat) -> (int, int) {
    let last_x = width - 1;
    let last_y = height - 1;
    (
        min4(
            transformed(t, 0, 0).0,
            transformed(t, last_x, 0).0,
            transformed(t, 0, last_y).0,
            transformed(t, last_x, last_y).0,
        ),
        min4(
            transformed(t, 0, 0).1,
            transformed(t, last_x, 0).1,
            transformed(t, 0, last_y).1,
            transformed(t, last_x, last_y).1,
        ),
    )
}

/// Writes the captured colours from cell `k` on: a cell whose colour is
/// transparent, or whose transformed position falls outside the
/// destination, is skipped.  The memory reached, and the fault that stopped
/// the writes, if any.
pub open spec fn paint_region(
    m: MemView,
    colors: Seq<u16>,
    destination: BitmapDescriptor,
    t: BitmapTransform,
    transparent: Option<u16>,
    origin_x: int,
    origin_y: int,
    width: nat,
    k: nat,
    row: nat,
    column: nat,
) -> (MemView, Option<GuestFault>)
    decreases colors.len() - k,
{
    if k >= colors.len() {
        (m, None)
    } else {
        let (r2, c2) = next_cell(row, column, width);
        let color = colors[k as int];
        let (tx, ty) = transformed(t, column as int, row as int);
        let dx = destination.x + tx - origin_x;
        let dy = destination.y + ty - origin_y;
        if transparent == Some(color) || dx < 0 || dy < 0 || dx >= (destination.width as i64) || dy
            >= (destination.height as i64) {
            paint_region(m, colors, destination, t, transparent, origin_x, origin_y, width, k + 1, r2, c2)
        } else {
            match pixel_address(destination.pixels, destination.width, dx as usize, dy as usize) {
                Err(f) => (m, Some(f)),
                Ok(a) => match m.write_u16(a, color) {
                    Err(e) => (m, Some(GuestFault::Arm(e))),
                    Ok(m2) => paint_region(
                        m2,
                        colors,
                        destination,
                        t,
                        transparent,
                        origin_x,
                        origin_y,
                        width,
                        k + 1,
                        r2,
                        c2,
                    ),
                },
            }
        }
    }
}

pub open spec fn region_text(sx: nat, sy: nat, width: nat, height: nat, source: BitmapDescriptor) -> Seq<char> {
    "transformed bitmap source region ("@ + dec_text(sx) + ", "@ + dec_text(sy) + ") "@ + dec_text(width)
        + "x"@ + dec_text(height) + " exceeds "@ + dec_text(source.width as nat) + "x"@ + dec_text(
        source.height as nat,
    ) + " bitmap"@
}

/// What copying a `width` x `height` region of `source` (from its `x`, `y`)
/// into `destination` (at its `x`, `y`) through `t` does: the memory left,
/// and the fault that stopped the copy, if any.  Mode 2 copies every pixel,
/// mode 6 skips `transparent_color`; the region may hold at most half as many
/// pixels as the heap has bytes.
pub open spec fn transformed_copy(
    m: MemView,
    destination: BitmapDescriptor,
    source: BitmapDescriptor,
    width: usize,
    height: usize,
    t: BitmapTransform,
    transparent_color: u16,
    module: usize,
    heap_len: usize,
) -> (MemView, Option<GuestFault>) {
    if t.mode != 2 && t.mode != 6 {
        (m, Some(
            GuestFault::Abi(
                "unsupported transformed bitmap mode "@ + signed_text(t.mode as int) + " called by module "@
                    + dec_text(module as nat),
            ),
        ))
    } else if width == 0 || height == 0 {
        (m, None)
    } else if source.x < 0 {
        (m, Some(GuestFault::Abi("negative transformed bitmap source x "@ + signed_text(source.x as int))))
    } else if source.y < 0 {
        (m, Some(GuestFault::Abi("negative transformed bitmap source y "@ + signed_text(source.y as int))))
    } else if source.x + width > usize::MAX {
        (m, Some(GuestFault::Abi("transformed bitmap source width overflow"@)))
    } else if source.y + height > usize::MAX {
        (m, Some(GuestFault::Abi("transformed bitmap source height overflow"@)))
    } else if source.x + width > source.width || source.y + height > source.height {
        (m, Some(
            GuestFault::Abi(
                region_text(source.x as nat, source.y as nat, width as nat, height as nat, source),
            ),
        ))
    } else if width * height > usize::MAX {
        (m, Some(GuestFault::Abi("transformed bitmap region dimensions overflow"@)))
    } else if width * height > heap_len / 2 {
        (m, Some(
            GuestFault::Abi(
                "transformed bitmap region requires "@ + dec_text((width * height) as nat) + " pixels"@,
            ),
        ))
    } else {
        match read_region(
            m,
            source,
            source.x as nat,
            source.y as nat,
            width as nat,
            (width * height) as nat,
            0,
            0,
            0,
            Seq::empty(),
        ) {
            Err(f) => (m, Some(f)),
            Ok(colors) => paint_region(
                m,
                colors,
                destination,
                t,
                if t.mode == 6 {
                    Some(transparent_color)
                } else {
                    None
                },
                origin(t, width as nat, height as nat).0,
                origin(t, width as nat, height as nat).1,
                width as nat,
                0,
                0,
                0,
            ),
        }
    }
}

fn apply_at(t: BitmapTransform, x: usize, y: usize) -> (r: (i64, i64))
    requires
        x <= 0x0100_0000,
        y <= 0x0100_0000,
    ensures
        r.0 == transformed(t, x as int, y as int).0,
        r.1 == transformed(t, x as int, y as int).1,
        -0x0100_0000_0000 <= r.0 <= 0x0100_0000_0000,
        -0x0100_0000_0000 <= r.1 <= 0x0100_0000_0000,
{
    proof {
        assert(-0x8000 * 0x0100_0000 <= t.a * (x as int) <= 0x8000 * 0x0100_0000) by (nonlinear_arith)
            requires
                -0x8000 <= t.a <= 0x7fff,
                0 <= x <= 0x0100_0000,
        ;
        assert(-0x8000 * 0x0100_0000 <= t.b * (y as int) <= 0x8000 * 0x0100_0000) by (nonlinear_arith)
            requires
                -0x8000 <= t.b <= 0x7fff,
                0 <= y <= 0x0100_0000,
        ;
        assert(-0x8000 * 0x0100_0000 <= t.c * (x as int) <= 0x8000 * 0x0100_0000) by (nonlinear_arith)
            requires
                -0x8000 <= t.c <= 0x7fff,
                0 <= x <= 0x0100_0000,
        ;
        assert(-0x8000 * 0x0100_0000 <= t.d * (y as int) <= 0x8000 * 0x0100_0000) by (nonlinear_arith)
            requires
                -0x8000 <= t.d <= 0x7fff,
                0 <= y <= 0x0100_0000,
        ;
    }
    let r = t.apply(x as i64, y as i64);
    let v0 = (t.a as i64) * (x as i64) + (t.b as i64) * (y as i64);
    let v1 = (t.c as i64) * (x as i64) + (t.d as i64) * (y as i64);
    assert(-0x0100_0000_0000 <= (v0 >> 8u64) <= 0x0100_0000_0000) by (bit_vector)
        requires
            -0x0100_0000_0000 <= v0 <= 0x0100_0000_0000,
    ;
    assert(-0x0100_0000_0000 <= (v1 >> 8u64) <= 0x0100_0000_0000) by (bit_vector)
        requires
            -0x0100_0000_0000 <= v1 <= 0x0100_0000_0000,
    ;
    r
}

/// Copies a `width` x `height` region of `source`, starting at its `x`,
/// `y`, into `destination` at its `x`, `y`, through the transform `t`:
/// each pixel lands at its transformed position, shifted so the smallest
/// transformed corner meets the destination position.  The whole source
/// region is read before anything is written, so the two bitmaps may be one.
/// Mode 2 copies every pixel, mode 6 skips `transparent_color`; pixels that
/// land outside the destination are dropped.
#[verifier::loop_isolation(false)]
pub fn copy_transformed_bitmap(
    memory: &mut GuestMemory,
    destination: BitmapDescriptor,
    source: BitmapDescriptor,
    width: usize,
    height: usize,
    t: BitmapTransform,
    transparent_color: u16,
    module: usize,
    heap_len: usize,
) -> (r: Result<(), Error>)
    requires
        old(memory).wf(),
        heap_len <= 0x0100_0000,
    ensures
        final(memory).wf(),
        ({
            let (m2, fault) = transformed_copy(
                old(memory)@,
                destination,
                source,
                width,
                height,
                t,
                transparent_color,
                module,
                heap_len,
            );
            &&& final(memory)@ == m2
            &&& match fault {
                None => r is Ok,
                Some(f) => fault_matches(r, f),
            }
        }),
{
    proof {
        reveal_strlit("unsupported transformed bitmap mode ");
        reveal_strlit(" called by module ");
        reveal_strlit("negative transformed bitmap source x ");
        reveal_strlit("negative transformed bitmap source y ");
        reveal_strlit("transformed bitmap source width overflow");
        reveal_strlit("transformed bitmap source height overflow");
        reveal_strlit("transformed bitmap source region (");
        reveal_strlit(", ");
        reveal_strlit(") ");
        reveal_strlit("x");
        reveal_strlit(" exceeds ");
        reveal_strlit(" bitmap");
        reveal_strlit("transformed bitmap region dimensions overflow");
        reveal_strlit("transformed bitmap region requires ");
        reveal_strlit(" pixels");
    }
    let transparent = if t.mode == 2 {
        None
    } else if t.mode == 6 {
        Some(transparent_color)
    } else {
        let m = String::from_str("unsupported transformed bitmap mode ").concat(
            signed_string(t.mode as i64).as_str(),
        ).concat(" called by module ").concat(decimal(module as u64).as_str());
        return Err(Error::Abi(m));
    };
    if width == 0 || height == 0 {
        return Ok(());
    }
    if source.x < 0 {
        let m = String::from_str("negative transformed bitmap source x ").concat(
            signed_string(source.x as i64).as_str(),
        );
        return Err(Error::Abi(m));
    }
    if source.y < 0 {
        let m = String::from_str("negative transformed bitmap source y ").concat(
            signed_string(source.y as i64).as_str(),
        );
        return Err(Error::Abi(m));
    }
    let sx = source.x as usize;
    let sy = source.y as usize;
    let end_x = match sx.checked_add(width) {
        Some(e) => e,
        None => return Err(Error::Abi(String::from_str("transformed bitmap source width overflow"))),
    };
    let end_y = match sy.checked_add(height) {
        Some(e) => e,
        None => return Err(
            Error::Abi(String::from_str("transformed bitmap source height overflow")),
        ),
    };
    if end_x > source.width || end_y > source.height {
        let m = String::from_str("transformed bitmap source region (").concat(
            decimal(sx as u64).as_str(),
        ).concat(", ").concat(decimal(sy as u64).as_str()).concat(") ").concat(
            decimal(width as u64).as_str(),
        ).concat("x").concat(decimal(height as u64).as_str()).concat(" exceeds ").concat(
            decimal(source.width as u64).as_str(),
        ).concat("x").concat(decimal(source.height as u64).as_str()).concat(" bitmap");
        return Err(Error::Abi(m));
    }
    let total = match width.checked_mul(height) {
        Some(p) => p,
        None => return Err(
            Error::Abi(String::from_str("transformed bitmap region dimensions overflow")),
        ),
    };
    if total > heap_len / 2 {
        let m = String::from_str("transformed bitmap region requires ").concat(
            decimal(total as u64).as_str(),
        ).concat(" pixels");
        return Err(Error::Abi(m));
    }
    proof {
        assert(width <= total && height <= total) by (nonlinear_arith)
            requires
                total == width * height,
                width >= 1,
                height >= 1,
        ;
    }
    let ghost m0 = memory@;
    let mut colors: Vec<u16> = Vec::new();
    let mut k: usize = 0;
    let mut row: usize = 0;
    let mut column: usize = 0;
    while k < total
        invariant
            memory.wf(),
            memory@ == m0,
            1 <= width <= total,
            1 <= height <= total,
            total == width * height,
            total <= 0x0080_0000,
            sx + width <= source.width,
            sy + height <= source.height,
            sx == source.x,
            sy == source.y,
            k <= total,
            column < width,
            k == row * width + column,
            colors@.len() == k,
            read_region(m0, source, sx as nat, sy as nat, width as nat, total as nat, 0, 0, 0, Seq::empty())
                == read_region(
                m0,
                source,
                sx as nat,
                sy as nat,
                width as nat,
                total as nat,
                k as nat,
                row as nat,
                column as nat,
                colors@,
            ),
        decreases total - k,
    {
        proof {
            assert(row < height) by (nonlinear_arith)
                requires
                    k == row * width + column,
                    k < total,
                    total == width * height,
                    column < width,
                    0 <= column,
            ;
        }
        let address = match pixel_at(source.pixels, source.width, sx + column, sy + row) {
            Ok(a) => a,
            Err(e) => return Err(e),
        };
        let color = match memory.read_u16(address) {
            Ok(c) => c,
            Err(e) => return Err(e),
        };
        colors.push(color);
        k += 1;
        if column + 1 >= width {
            column = 0;
            row += 1;
            proof {
                assert(k == row * width + column) by (nonlinear_arith)
                    requires
                        k == (row - 1) * width + (width - 1) + 1,
                        column == 0,
                ;
            }
        } else {
            column += 1;
        }
    }
    let last_x = width - 1;
    let last_y = height - 1;
    let c0 = apply_at(t, 0, 0);
    let c1 = apply_at(t, last_x, 0);
    let c2 = apply_at(t, 0, last_y);
    let c3 = apply_at(t, last_x, last_y);
    let min_x = min4_exec(c0.0, c1.0, c2.0, c3.0);
    let min_y = min4_exec(c0.1, c1.1, c2.1, c3.1);
    let ghost origin_pair = origin(t, width as nat, height as nat);
    assert(min_x == origin_pair.0 && min_y == origin_pair.1);
    k = 0;
    row = 0;
    column = 0;
    let ghost painted = paint_region(
        memory@,
        colors@,
        destination,
        t,
        transparent,
        min_x as int,
        min_y as int,
        width as nat,
        0,
        0,
        0,
    );
    while k < total
        invariant
            memory.wf(),
            1 <= width <= total,
            1 <= height <= total,
            total == width * height,
            total <= 0x0080_0000,
            k <= total,
            column < width,
            k == row * width + column,
            colors@.len() == total,
            -0x0100_0000_0000 <= min_x <= 0x0100_0000_0000,
            -0x0100_0000_0000 <= min_y <= 0x0100_0000_0000,
            painted == paint_region(
                memory@,
                colors@,
                destination,
                t,
                transparent,
                min_x as int,
                min_y as int,
                width as nat,
                k as nat,
                row as nat,
                column as nat,
            ),
        decreases total - k,
    {
        proof {
            assert(row < height) by (nonlinear_arith)
                requires
                    k == row * width + column,
                    k < total,
                    total == width * height,
                    column < width,
                    0 <= column,
            ;
        }
        let color = colors[k];
        let (tx, ty) = apply_at(t, column, row);
        let dx = destination.x as i64 + tx - min_x;
        let dy = destination.y as i64 + ty - min_y;
        let skip = match transparent {
            Some(c) => c == color,
            None => false,
        };
        if !(skip || dx < 0 || dy < 0 || dx >= destination.width as i64 || dy
            >= destination.height as i64) {
            let address = match pixel_at(destination.pixels, destination.width, dx as usize, dy as usize) {
                Ok(a) => a,
                Err(e) => return Err(e),
            };
            match memory.write_u16(address, color) {
                Ok(()) => {},
                Err(e) => return Err(e),
            }
        }
        k += 1;
        if column + 1 >= width {
            column = 0;
            row += 1;
            proof {
                assert(k == row * width + column) by (nonlinear_arith)
                    requires
                        k == (row - 1) * width + (width - 1) + 1,
                        column == 0,
                ;
            }
        } else {
            column += 1;
        }
    }
    Ok(())
}

fn min4_exec(a: i64, b: i64, c: i64, d: i64) -> (r: i64)
    ensures
        r == min4(a as int, b as int, c as int, d as int),
{
    let ab = if a <= b {
        a
    } else {
        b
    };
    let cd = if c <= d {
        c
    } else {
        d
    };
    if ab <= cd {
        ab
    } else {
        cd
    }
}

} // verus!
