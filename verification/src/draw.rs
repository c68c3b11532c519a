//! Drawing an RGB565 bitmap region onto the active screen: the visible part
//! is clipped to the screen and written row by row, copied, ORed, drawn
//! with a transparent colour, or drawn in gray.
use crate::error::Error;
use crate::graphics::{grayscale_rgb565, luminance, rgb565, screen_offset, screen_pixel_address};
use crate::guest_strings::{fault_matches, GuestFault};
use crate::cpu::ArmCpu;
use crate::cpu_model::CpuView;
use crate::memory::{address_overflow_text, Access, GuestAddr, GuestMemory, MemView};
use crate::text::{dec_text, decimal, join3};
use crate::runtime_dispatch::{data_word_at, screen_dimensions, screen_dimensions_spec};
use crate::slots::data_slot_address;
use vstd::prelude::*;

verus! {

/// How a bitmap's pixels meet the screen's.
#[derive(Clone, Copy, Debug, PartialEq, Eq, Structural)]
pub enum BitmapDrawMode {
    /// Source OR screen.
    Or,
    /// The source replaces the screen.
    Copy,
    /// The source replaces the screen but where it has this colour.
    Transparent(u16),
    /// The source's gray replaces the screen but where it has this colour.
    Gray(u16),
}

/// Pixel `k` of a little-endian RGB565 row.
pub open spec fn pixel_at(s: Seq<u8>, k: int) -> u16 {
    ((s[2 * k] as u16) | ((s[2 * k + 1] as u16) << 8u16)) as u16
}

/// The gray of an RGB565 colour.
pub open spec fn gray_of(c: u16) -> u16 {
    rgb565(luminance(c), luminance(c), luminance(c))
}

/// The screen pixel after source pixel `s` meets screen pixel `d`.
pub open spec fn drawn_pixel(s: u16, d: u16, mode: BitmapDrawMode) -> u16 {
    match mode {
        BitmapDrawMode::Or => s | d,
        BitmapDrawMode::Copy => s,
        BitmapDrawMode::Transparent(t) => if s != t {
            s
        } else {
            d
        },
        BitmapDrawMode::Gray(t) => if s != t {
            gray_of(s)
        } else {
            d
        },
    }
}

/// The screen row after source row `src` meets screen row `dst`, byte by byte.
pub open spec fn drawn_row(src: Seq<u8>, dst: Seq<u8>, mode: BitmapDrawMode) -> Seq<u8> {
    Seq::new(
        dst.len(),
        |i: int|
            {
                let p = drawn_pixel(pixel_at(src, i / 2), pixel_at(dst, i / 2), mode);
                if i % 2 == 0 {
                    (p & 0xff) as u8
                } else {
                    (p >> 8u16) as u8
                }
            },
    )
}

/// The visible part of a `width` x `height` bitmap at `(x, y)` on a
/// `sw` x `sh` screen: its first column and row on the screen and the
/// columns and rows past its last.
pub open spec fn clip(x: i32, y: i32, width: nat, height: nat, sw: i32, sh: i32) -> (int, int, int, int) {
    let x0 = if x < 0 { 0int } else { x as int };
    let y0 = if y < 0 { 0int } else { y as int };
    let x1 = if x + width < sw { x + width } else { sw as int };
    let y1 = if y + height < sh { y + height } else { sh as int };
    (x0, y0, x1, y1)
}

/// Drawing visible row `r` of the bitmap: the screen address from data slot
/// 91 and the row's pixel offset, then the row written (for `Copy`), or
/// read, combined and written.
pub open spec fn row_drawn(
    m: MemView,
    pixels: Seq<u8>,
    x: i32,
    y: i32,
    width: nat,
    height: nat,
    mode: BitmapDrawMode,
    sw: i32,
    sh: i32,
    r: int,
) -> (MemView, Option<GuestFault>) {
    let (x0, y0, x1, y1) = clip(x, y, width, height, sw, sh);
    let row_len = (x1 - x0) * 2;
    let source_offset = ((y0 - y + r) * width + (x0 - x)) * 2;
    let src = pixels.subrange(source_offset, source_offset + row_len);
    match m.read_u32(data_word_at(91)) {
        Err(t) => (m, Some(GuestFault::Arm(t))),
        Ok(screen) => match screen_offset(x0 as i32, (y0 + r) as i32, sw) {
            None => (m, Some(GuestFault::Abi("screen pixel offset overflow"@))),
            Some(offset) => if screen + offset > u32::MAX {
                (m, Some(GuestFault::Arm(address_overflow_text(screen, offset))))
            } else {
                let a = (screen + offset) as u32;
                if mode == BitmapDrawMode::Copy {
                    match m.store(a, src) {
                        Err(t) => (m, Some(GuestFault::Arm(t))),
                        Ok(m2) => (m2, None),
                    }
                } else {
                    match m.load(a, row_len as nat, Access::Read) {
                        Err(t) => (m, Some(GuestFault::Arm(t))),
                        Ok(dst) => match m.store(a, drawn_row(src, dst, mode)) {
                            Err(t) => (m, Some(GuestFault::Arm(t))),
                            Ok(m2) => (m2, None),
                        },
                    }
                }
            },
        },
    }
}

/// The first `k` visible rows drawn, stopping at the first fault.
pub open spec fn rows_drawn(
    m: MemView,
    pixels: Seq<u8>,
    x: i32,
    y: i32,
    width: nat,
    height: nat,
    mode: BitmapDrawMode,
    sw: i32,
    sh: i32,
    k: int,
) -> (MemView, Option<GuestFault>)
    decreases k,
{
    if k <= 0 {
        (m, None)
    } else {
        let (m1, f) = rows_drawn(m, pixels, x, y, width, height, mode, sw, sh, k - 1);
        if f is Some {
            (m1, f)
        } else {
            row_drawn(m1, pixels, x, y, width, height, mode, sw, sh, k - 1)
        }
    }
}

/// Drawing the bitmap `pixels` (`width` x `height`, little-endian RGB565)
/// at `(x, y)`: the screen size from data slots 92 and 93; nothing when no
/// part is visible; otherwise every visible row in turn, stopping at the
/// first fault with the rows before it drawn.
pub open spec fn bitmap_drawn(
    m: MemView,
    pixels: Seq<u8>,
    x: i32,
    y: i32,
    width: nat,
    height: nat,
    mode: BitmapDrawMode,
) -> (MemView, Option<GuestFault>) {
    match screen_dimensions_spec(m) {
        Err(f) => (m, Some(f)),
        Ok((sw, sh)) => {
            let (x0, y0, x1, y1) = clip(x, y, width, height, sw, sh);
            if x0 >= x1 || y0 >= y1 {
                (m, None)
            } else {
                rows_drawn(m, pixels, x, y, width, height, mode, sw, sh, y1 - y0)
            }
        },
    }
}

fn combine_row(src: &[u8], dst: &[u8], mode: BitmapDrawMode) -> (r: Vec<u8>)
    requires
        src@.len() == dst@.len(),
        dst@.len() % 2 == 0,
    ensures
        r@ == drawn_row(src@, dst@, mode),
{
    let mut out: Vec<u8> = Vec::new();
    let len = dst.len();
    let n = len / 2;
    let mut k: usize = 0;
    while k < n
        invariant
            k <= n,
            len == dst@.len(),
            n * 2 == dst@.len(),
            src@.len() == dst@.len(),
            out@.len() == 2 * k,
            forall|i: int| 0 <= i < 2 * k ==> #[trigger] out@[i] == drawn_row(src@, dst@, mode)[i],
        decreases n - k,
    {
        assert(2 * k + 1 < dst@.len());
        let s = (src[2 * k] as u16) | ((src[2 * k + 1] as u16) << 8u16);
        let d = (dst[2 * k] as u16) | ((dst[2 * k + 1] as u16) << 8u16);
        let p = match mode {
            BitmapDrawMode::Or => s | d,
            BitmapDrawMode::Copy => s,
            BitmapDrawMode::Transparent(t) => if s != t {
                s
            } else {
                d
            },
            BitmapDrawMode::Gray(t) => if s != t {
                grayscale_rgb565(s)
            } else {
                d
            },
        };
        assert(s == pixel_at(src@, k as int));
        assert(d == pixel_at(dst@, k as int));
        assert(p == drawn_pixel(pixel_at(src@, k as int), pixel_at(dst@, k as int), mode));
        out.push((p & 0xff) as u8);
        out.push((p >> 8u16) as u8);
        proof {
            assert((2 * k as int) / 2 == k && (2 * k as int) % 2 == 0);
            assert((2 * k as int + 1) / 2 == k && (2 * k as int + 1) % 2 == 1);
        }
        k = k + 1;
    }
    assert(out@ =~= drawn_row(src@, dst@, mode));
    out
}

#[verifier::spinoff_prover]
#[verifier::rlimit(50)]
fn draw_row(
    memory: &mut GuestMemory,
    pixels: &[u8],
    x: i32,
    y: i32,
    width: usize,
    height: usize,
    mode: BitmapDrawMode,
    sw: i32,
    sh: i32,
    r: usize,
) -> (res: Result<(), Error>)
    requires
        old(memory).wf(),
        pixels@.len() >= width * height * 2,
        width <= u32::MAX,
        height <= u32::MAX,
        ({
            let (x0, y0, x1, y1) = clip(x, y, width as nat, height as nat, sw, sh);
            x0 < x1 && y0 < y1 && 0 <= r < y1 - y0
        }),
    ensures
        final(memory).wf(),
        ({
            let (m, f) = row_drawn(old(memory)@, pixels@, x, y, width as nat, height as nat, mode, sw, sh, r as int);
            &&& final(memory)@ == m
            &&& match f {
                None => res is Ok,
                Some(g) => fault_matches(res, g),
            }
        }),
{
    let ghost (x0, y0, x1, y1) = clip(x, y, width as nat, height as nat, sw, sh);
    let ex0: i64 = if x < 0 { 0 } else { x as i64 };
    let ey0: i64 = if y < 0 { 0 } else { y as i64 };
    let ex1: i64 = if (x as i64) + (width as i64) < sw as i64 { (x as i64) + (width as i64) } else { sw as i64 };
    assert(ex0 == x0 && ey0 == y0 && ex1 == x1);
    let visible_width = (ex1 - ex0) as usize;
    let source_x = (ex0 - x as i64) as usize;
    let source_y = (ey0 - y as i64) as usize;
    let plen = pixels.len();
    proof {
        assert(source_x + visible_width <= width);
        assert(source_y + r + 1 <= height);
        lemma_row_offsets((source_y + r) as int, width as int, height as int, source_x as int, visible_width as int);
    }
    let row_len = visible_width * 2;
    let source_offset = ((source_y + r) * width + source_x) * 2;
    let src = slice_range(pixels, source_offset, source_offset + row_len);
    let screen = match memory.read_u32(data_slot_address(91)) {
        Ok(v) => v,
        Err(e) => return Err(e),
    };
    let address = match screen_pixel_address(GuestAddr(screen), ex0 as i32, (ey0 + r as i64) as i32, sw) {
        Ok(a) => a,
        Err(e) => return Err(e),
    };
    if mode == BitmapDrawMode::Copy {
        return memory.write(address, src.as_slice());
    }
    let dst = match memory.read(address, row_len) {
        Ok(d) => d,
        Err(e) => return Err(e),
    };
    let row = combine_row(src.as_slice(), dst.as_slice(), mode);
    memory.write(address, row.as_slice())
}

proof fn lemma_row_offsets(sy: int, width: int, height: int, sx: int, vw: int)
    requires
        0 <= sy,
        sy + 1 <= height,
        0 <= sx,
        0 <= vw,
        sx + vw <= width,
    ensures
        (sy * width + sx + vw) * 2 <= width * height * 2,
        0 <= sy * width,
{
    assert(sy * width + width == (sy + 1) * width) by (nonlinear_arith);
    assert((sy + 1) * width <= height * width) by (nonlinear_arith)
        requires
            sy + 1 <= height,
            0 <= width;
    assert(height * width == width * height) by (nonlinear_arith);
    assert(0 <= sy * width) by (nonlinear_arith)
        requires
            0 <= sy,
            0 <= width;
}

fn slice_range(s: &[u8], a: usize, b: usize) -> (r: Vec<u8>)
    requires
        a <= b <= s@.len(),
    ensures
        r@ == s@.subrange(a as int, b as int),
{
    let mut r: Vec<u8> = Vec::new();
    let mut i: usize = a;
    while i < b
        invariant
            a <= i <= b <= s@.len(),
            r@ == s@.subrange(a as int, i as int),
        decreases b - i,
    {
        r.push(s[i]);
        i = i + 1;
        assert(r@ =~= s@.subrange(a as int, i as int));
    }
    r
}

proof fn lemma_rows_stop(
    m: MemView,
    pixels: Seq<u8>,
    x: i32,
    y: i32,
    width: nat,
    height: nat,
    mode: BitmapDrawMode,
    sw: i32,
    sh: i32,
    k: int,
    n: int,
)
    requires
        0 <= k <= n,
        rows_drawn(m, pixels, x, y, width, height, mode, sw, sh, k).1 is Some,
    ensures
        rows_drawn(m, pixels, x, y, width, height, mode, sw, sh, n) == rows_drawn(m, pixels, x, y, width, height, mode, sw, sh, k),
    decreases n - k,
{
    if n > k {
        lemma_rows_stop(m, pixels, x, y, width, height, mode, sw, sh, k, n - 1);
    }
}

/// Draws the bitmap `pixels` (`width` x `height` little-endian RGB565
/// pixels) at `(x, y)` on the active screen, as `bitmap_drawn` says.
#[verifier::spinoff_prover]
#[verifier::rlimit(50)]
pub fn draw_bitmap_region(
    memory: &mut GuestMemory,
    pixels: &[u8],
    x: i32,
    y: i32,
    width: usize,
    height: usize,
    mode: BitmapDrawMode,
) -> (r: Result<(), Error>)
    requires
        old(memory).wf(),
        pixels@.len() >= width * height * 2,
        width <= u32::MAX,
        height <= u32::MAX,
    ensures
        final(memory).wf(),
        ({
            let (m, f) = bitmap_drawn(old(memory)@, pixels@, x, y, width as nat, height as nat, mode);
            &&& final(memory)@ == m
            &&& match f {
                None => r is Ok,
                Some(g) => fault_matches(r, g),
            }
        }),
{
    let (sw, sh) = match screen_dimensions(memory) {
        Ok(d) => d,
        Err(e) => return Err(e),
    };
    let ghost m0 = memory@;
    let ghost (x0, y0, x1, y1) = clip(x, y, width as nat, height as nat, sw, sh);
    let ex0: i64 = if x < 0 { 0 } else { x as i64 };
    let ey0: i64 = if y < 0 { 0 } else { y as i64 };
    let ex1: i64 = if (x as i64) + (width as i64) < sw as i64 { (x as i64) + (width as i64) } else { sw as i64 };
    let ey1: i64 = if (y as i64) + (height as i64) < sh as i64 { (y as i64) + (height as i64) } else { sh as i64 };
    assert(ex0 == x0 && ey0 == y0 && ex1 == x1 && ey1 == y1);
    if ex0 >= ex1 || ey0 >= ey1 {
        return Ok(());
    }
    let rows = (ey1 - ey0) as usize;
    let mut r: usize = 0;
    while r < rows
        invariant
            r <= rows,
            rows == y1 - y0,
            m0 == old(memory)@,
            screen_dimensions_spec(m0) == Ok::<(i32, i32), GuestFault>((sw, sh)),
            x0 < x1 && y0 < y1,
            (x0, y0, x1, y1) == clip(x, y, width as nat, height as nat, sw, sh),
            pixels@.len() >= width * height * 2,
            width <= u32::MAX,
            height <= u32::MAX,
            memory.wf(),
            memory@ == rows_drawn(m0, pixels@, x, y, width as nat, height as nat, mode, sw, sh, r as int).0,
            rows_drawn(m0, pixels@, x, y, width as nat, height as nat, mode, sw, sh, r as int).1 is None,
        decreases rows - r,
    {
        let ghost before = memory@;
        let res = draw_row(memory, pixels, x, y, width, height, mode, sw, sh, r);
        assert(rows_drawn(m0, pixels@, x, y, width as nat, height as nat, mode, sw, sh, r + 1) == row_drawn(
            before,
            pixels@,
            x,
            y,
            width as nat,
            height as nat,
            mode,
            sw,
            sh,
            r as int,
        ));
        if res.is_err() {
            proof {
                lemma_rows_stop(m0, pixels@, x, y, width as nat, height as nat, mode, sw, sh, r + 1, rows as int);
            }
            return res;
        }
        r = r + 1;
    }
    Ok(())
}

/// The word at `a + offset`, or the fault.
pub open spec fn word_at(m: MemView, a: u32, offset: u32) -> Result<u32, GuestFault> {
    if a + offset > u32::MAX {
        Err(GuestFault::Arm(address_overflow_text(a, offset)))
    } else {
        match m.read_u32((a + offset) as u32) {
            Err(t) => Err(GuestFault::Arm(t)),
            Ok(v) => Ok(v),
        }
    }
}

/// `len` bytes at `a + offset`, or the fault.
pub open spec fn bytes_at(m: MemView, a: u32, offset: int, len: nat) -> Result<Seq<u8>, GuestFault> {
    if a + offset > u32::MAX {
        Err(GuestFault::Arm(address_overflow_text(a, offset as u32)))
    } else {
        match m.load((a + offset) as u32, len, Access::Read) {
            Err(t) => Err(GuestFault::Arm(t)),
            Ok(b) => Ok(b),
        }
    }
}

pub open spec fn offset_overflow_text() -> Seq<char> {
    "bitmap source offset overflow"@
}

/// The first `k` rows of a bitmap region whose rows are `stride` pixels
/// apart at `source`, from row `sy` and column `sx`, `row_len` bytes each,
/// joined.
pub open spec fn gathered_rows(
    m: MemView,
    source: u32,
    stride: int,
    sx: int,
    sy: int,
    row_len: nat,
    k: int,
) -> Result<Seq<u8>, GuestFault>
    decreases k,
{
    if k <= 0 {
        Ok(Seq::empty())
    } else {
        match gathered_rows(m, source, stride, sx, sy, row_len, k - 1) {
            Err(f) => Err(f),
            Ok(front) => {
                let offset = ((sy + k - 1) * stride + sx) * 2;
                if offset > usize::MAX || offset > u32::MAX {
                    Err(GuestFault::Abi(offset_overflow_text()))
                } else {
                    match bytes_at(m, source, offset, row_len) {
                        Err(f) => Err(f),
                        Ok(row) => Ok(front + row),
                    }
                }
            },
        }
    }
}

pub open spec fn unsupported_mode_text(mode: u32, module: usize) -> Seq<char> {
    "unsupported bitmap drawing mode "@ + dec_text(mode as nat) + " called by module "@ + dec_text(module as nat)
}

pub open spec fn region_too_large_text(byte_len: nat) -> Seq<char> {
    "bitmap source region requires "@ + dec_text(byte_len) + " bytes"@
}

/// The bitmap region slot 120 draws, from registers `c` for `module` with a
/// heap of `heap_len` bytes: the source (r0), the position (r1, r2) and
/// width (r3); on the stack the height, the mode (0 OR, 2 copy, 6
/// transparent, 8 gray), the transparent colour, the source column and row
/// and the source stride. The region may not be larger than the heap; a
/// region of whole source rows is read at once, another row by row.
pub open spec fn bitmap_source(m: MemView, c: CpuView, module: usize, heap_len: usize) -> Result<
    (Seq<u8>, i32, i32, nat, nat, BitmapDrawMode),
    GuestFault,
> {
    let stack = c.regs[13];
    let width = c.regs[3] as nat;
    match word_at(m, stack, 0) {
        Err(f) => Err(f),
        Ok(height) => match word_at(m, stack, 4) {
            Err(f) => Err(f),
            Ok(mode) => match word_at(m, stack, 8) {
                Err(f) => Err(f),
                Ok(colour) => match word_at(m, stack, 12) {
                    Err(f) => Err(f),
                    Ok(sx) => match word_at(m, stack, 16) {
                        Err(f) => Err(f),
                        Ok(sy) => match word_at(m, stack, 20) {
                            Err(f) => Err(f),
                            Ok(stride) => {
                                let draw_mode = if mode == 0 {
                                    Some(BitmapDrawMode::Or)
                                } else if mode == 2 {
                                    Some(BitmapDrawMode::Copy)
                                } else if mode == 6 {
                                    Some(BitmapDrawMode::Transparent(colour as u16))
                                } else if mode == 8 {
                                    Some(BitmapDrawMode::Gray(colour as u16))
                                } else {
                                    None
                                };
                                let byte_len = (width * height * 2) as nat;
                                if draw_mode is None {
                                    Err(GuestFault::Abi(unsupported_mode_text(mode, module)))
                                } else if sy + height > usize::MAX {
                                    Err(GuestFault::Abi("bitmap source height overflow"@))
                                } else if byte_len > usize::MAX {
                                    Err(GuestFault::Abi("bitmap source byte count overflow"@))
                                } else if byte_len > heap_len {
                                    Err(GuestFault::Abi(region_too_large_text(byte_len)))
                                } else if sx == 0 && width == stride {
                                    let offset = sy * stride * 2;
                                    if offset > usize::MAX || offset > u32::MAX {
                                        Err(GuestFault::Abi(offset_overflow_text()))
                                    } else {
                                        match bytes_at(m, c.regs[0], offset, byte_len) {
                                            Err(f) => Err(f),
                                            Ok(p) => Ok((p, c.regs[1] as i32, c.regs[2] as i32, width, height as nat, draw_mode->0)),
                                        }
                                    }
                                } else if width * 2 > usize::MAX {
                                    Err(GuestFault::Abi("bitmap source row overflow"@))
                                } else {
                                    match gathered_rows(m, c.regs[0], stride as int, sx as int, sy as int, (width * 2) as nat, height as int) {
                                        Err(f) => Err(f),
                                        Ok(p) => Ok((p, c.regs[1] as i32, c.regs[2] as i32, width, height as nat, draw_mode->0)),
                                    }
                                }
                            },
                        },
                    },
                },
            },
        },
    }
}

fn read_word_at(memory: &GuestMemory, a: u32, offset: u32) -> (r: Result<u32, Error>)
    requires
        memory.wf(),
    ensures
        match word_at(memory@, a, offset) {
            Ok(v) => r == Ok::<u32, Error>(v),
            Err(f) => fault_matches(r, f),
        },
{
    let address = match GuestAddr(a).checked_add(offset) {
        Ok(x) => x,
        Err(e) => return Err(e),
    };
    memory.read_u32(address)
}

fn read_bytes_at(memory: &GuestMemory, a: u32, offset: u32, len: usize) -> (r: Result<Vec<u8>, Error>)
    requires
        memory.wf(),
    ensures
        match bytes_at(memory@, a, offset as int, len as nat) {
            Ok(v) => r matches Ok(b) && b@ == v,
            Err(f) => fault_matches(r, f),
        },
{
    let address = match GuestAddr(a).checked_add(offset) {
        Ok(x) => x,
        Err(e) => return Err(e),
    };
    memory.read(address, len)
}

proof fn lemma_gathered_len(m: MemView, source: u32, stride: int, sx: int, sy: int, row_len: nat, k: int)
    requires
        0 <= k,
        gathered_rows(m, source, stride, sx, sy, row_len, k) is Ok,
    ensures
        gathered_rows(m, source, stride, sx, sy, row_len, k)->Ok_0.len() == k * row_len,
    decreases k,
{
    if k > 0 {
        lemma_gathered_len(m, source, stride, sx, sy, row_len, k - 1);
        let front = gathered_rows(m, source, stride, sx, sy, row_len, k - 1)->Ok_0;
        let offset = ((sy + k - 1) * stride + sx) * 2;
        let row = bytes_at(m, source, offset, row_len)->Ok_0;
        assert(row.len() == row_len);
        assert(gathered_rows(m, source, stride, sx, sy, row_len, k)->Ok_0 == front + row);
        assert(front.len() == (k - 1) * row_len);
        assert((front + row).len() == front.len() + row.len());
        assert((k - 1) * row_len + row_len == k * row_len) by (nonlinear_arith);
    } else {
        assert(k * row_len == 0) by (nonlinear_arith)
            requires
                k == 0;
    }
}

proof fn lemma_gathered_stop(m: MemView, source: u32, stride: int, sx: int, sy: int, row_len: nat, k: int, n: int)
    requires
        0 <= k <= n,
        gathered_rows(m, source, stride, sx, sy, row_len, k) is Err,
    ensures
        gathered_rows(m, source, stride, sx, sy, row_len, n) == gathered_rows(m, source, stride, sx, sy, row_len, k),
    decreases n - k,
{
    if n > k {
        lemma_gathered_stop(m, source, stride, sx, sy, row_len, k, n - 1);
    }
}

/// Reads the bitmap region slot 120 draws, as `bitmap_source` says.
#[verifier::rlimit(60)]
#[verifier::loop_isolation(false)]
pub fn read_bitmap_source(memory: &GuestMemory, cpu: &ArmCpu, module: usize, heap_len: usize) -> (r: Result<
    (Vec<u8>, i32, i32, usize, usize, BitmapDrawMode),
    Error,
>)
    requires
        memory.wf(),
    ensures
        match bitmap_source(memory@, cpu@, module, heap_len) {
            Err(f) => fault_matches(r, f),
            Ok((p, x, y, w, h, mode)) => r matches Ok(v) && v.0@ == p && v.1 == x && v.2 == y && v.3 == w && v.4 == h
                && v.5 == mode && p.len() == w * h * 2 && w <= u32::MAX && h <= u32::MAX,
        },
{
    let stack = cpu.register(13);
    let width = cpu.register(3) as usize;
    let height = match read_word_at(memory, stack, 0) {
        Ok(v) => v,
        Err(e) => return Err(e),
    };
    let mode = match read_word_at(memory, stack, 4) {
        Ok(v) => v,
        Err(e) => return Err(e),
    };
    let colour = match read_word_at(memory, stack, 8) {
        Ok(v) => v,
        Err(e) => return Err(e),
    };
    let sx = match read_word_at(memory, stack, 12) {
        Ok(v) => v,
        Err(e) => return Err(e),
    };
    let sy = match read_word_at(memory, stack, 16) {
        Ok(v) => v,
        Err(e) => return Err(e),
    };
    let stride = match read_word_at(memory, stack, 20) {
        Ok(v) => v,
        Err(e) => return Err(e),
    };
    let draw_mode = if mode == 0 {
        BitmapDrawMode::Or
    } else if mode == 2 {
        BitmapDrawMode::Copy
    } else if mode == 6 {
        BitmapDrawMode::Transparent(colour as u16)
    } else if mode == 8 {
        BitmapDrawMode::Gray(colour as u16)
    } else {
        let m = String::from_str("unsupported bitmap drawing mode ").concat(decimal(mode as u64).as_str()).concat(
            " called by module ",
        ).concat(decimal(module as u64).as_str());
        proof {
            assert(m@ =~= unsupported_mode_text(mode, module));
        }
        return Err(Error::Abi(m));
    };
    if (sy as u64) + (height as u64) > usize::MAX as u64 {
        return Err(Error::Abi(String::from_str("bitmap source height overflow")));
    }
    assert((width as int) * (height as int) <= 0xffff_ffffint * 0xffff_ffffint) by (nonlinear_arith)
        requires
            width <= 0xffff_ffff,
            height <= 0xffff_ffff;
    let byte_len: u128 = (width as u128) * (height as u128) * 2;
    if byte_len > usize::MAX as u128 {
        return Err(Error::Abi(String::from_str("bitmap source byte count overflow")));
    }
    let byte_len = byte_len as usize;
    if byte_len > heap_len {
        let m = join3("bitmap source region requires ", decimal(byte_len as u64).as_str(), " bytes");
        proof {
            assert(m@ =~= region_too_large_text(byte_len as nat));
        }
        return Err(Error::Abi(m));
    }
    if sx == 0 && width == stride as usize {
        assert((sy as int) * (stride as int) <= 0xffff_ffffint * 0xffff_ffffint) by (nonlinear_arith)
            requires
                sy <= 0xffff_ffff,
                stride <= 0xffff_ffff;
        let offset: u128 = (sy as u128) * (stride as u128) * 2;
        if offset > usize::MAX as u128 || offset > u32::MAX as u128 {
            return Err(Error::Abi(String::from_str("bitmap source offset overflow")));
        }
        let p = match read_bytes_at(memory, cpu.register(0), offset as u32, byte_len) {
            Ok(p) => p,
            Err(e) => return Err(e),
        };
        return Ok((p, cpu.register(1) as i32, cpu.register(2) as i32, width, height as usize, draw_mode));
    }
    if (width as u64) * 2 > usize::MAX as u64 {
        return Err(Error::Abi(String::from_str("bitmap source row overflow")));
    }
    let row_len = width * 2;
    let ghost m = memory@;
    let source = cpu.register(0);
    let mut pixels: Vec<u8> = Vec::new();
    let mut k: u32 = 0;
    while k < height
        invariant
            k <= height,
            memory.wf(),
            memory@ == m,
            row_len == width * 2,
            width <= 0xffff_ffff,
            gathered_rows(m, source, stride as int, sx as int, sy as int, row_len as nat, k as int) == Ok::<
                Seq<u8>,
                GuestFault,
            >(pixels@),
        decreases height - k,
    {
        assert(((sy as int) + (k as int)) * (stride as int) <= 0x1_ffff_fffeint * 0xffff_ffffint) by (nonlinear_arith)
            requires
                sy <= 0xffff_ffff,
                k <= 0xffff_ffff,
                stride <= 0xffff_ffff;
        let offset: u128 = ((sy as u128 + k as u128) * (stride as u128) + sx as u128) * 2;
        if offset > usize::MAX as u128 || offset > u32::MAX as u128 {
            proof {
                lemma_gathered_stop(m, source, stride as int, sx as int, sy as int, row_len as nat, k + 1, height as int);
            }
            return Err(Error::Abi(String::from_str("bitmap source offset overflow")));
        }
        let row = match read_bytes_at(memory, source, offset as u32, row_len) {
            Ok(r) => r,
            Err(e) => {
                proof {
                    lemma_gathered_stop(m, source, stride as int, sx as int, sy as int, row_len as nat, k + 1, height as int);
                }
                return Err(e);
            },
        };
        let mut i: usize = 0;
        let ghost front = pixels@;
        while i < row.len()
            invariant
                i <= row.len(),
                pixels@ == front + row@.subrange(0, i as int),
            decreases row.len() - i,
        {
            pixels.push(row[i]);
            i = i + 1;
            assert(pixels@ =~= front + row@.subrange(0, i as int));
        }
        assert(row@.subrange(0, row@.len() as int) =~= row@);
        k = k + 1;
    }
    proof {
        lemma_gathered_len(m, source, stride as int, sx as int, sy as int, row_len as nat, height as int);
        assert(height * (width * 2) == width * height * 2) by (nonlinear_arith);
    }
    Ok((pixels, cpu.register(1) as i32, cpu.register(2) as i32, width, height as usize, draw_mode))
}


/// The 16-bit pixel whose little-endian bytes are `lo` and `hi`.
pub open spec fn pixel_from(lo: u8, hi: u8) -> u16 {
    ((lo as u16) | ((hi as u16) << 8u16)) as u16
}

proof fn lemma_pixel_bytes(a: u8, b: u8, c: u8, d: u8, x: u16)
    ensures
        pixel_from((x & 0xff) as u8, (x >> 8u16) as u8) == x,
        (pixel_from(a, b) & 0xff) as u8 == a,
        (pixel_from(a, b) >> 8u16) as u8 == b,
        ((pixel_from(a, b) | pixel_from(c, d)) & 0xff) as u8 == a | c,
        ((pixel_from(a, b) | pixel_from(c, d)) >> 8u16) as u8 == b | d,
{
    assert(((((a as u16) | ((b as u16) << 8u16)) & 0xff) as u8 == a) && (((((a as u16) | ((b as u16) << 8u16))
        >> 8u16) as u8) == b) && ((((((a as u16) | ((b as u16) << 8u16)) | ((c as u16) | ((d as u16) << 8u16)))
        & 0xff) as u8) == a | c) && ((((((a as u16) | ((b as u16) << 8u16)) | ((c as u16) | ((d as u16)
        << 8u16))) >> 8u16) as u8) == b | d) && ((((x & 0xff) as u8) as u16) | ((((x >> 8u16) as u8) as u16)
        << 8u16)) == x) by (bit_vector);
}

proof fn lemma_gray_is_gray(c: u16)
    ensures
        (gray_of(c) >> 11u16) == (gray_of(c) & 0x1f),
        ((gray_of(c) >> 5u16) & 0x3f) >> 1u16 == (gray_of(c) >> 11u16),
{
    let r5 = ((c >> 11u16) & 0x1f) as u32;
    let g6 = ((c >> 5u16) & 0x3f) as u32;
    let b5 = (c & 0x1f) as u32;
    let red = (r5 << 3u32) | (r5 >> 2u32);
    let green = (g6 << 2u32) | (g6 >> 4u32);
    let blue = (b5 << 3u32) | (b5 >> 2u32);
    assert(red <= 255 && green <= 255 && blue <= 255) by (bit_vector)
        requires
            r5 == ((c >> 11u16) & 0x1f) as u32,
            g6 == ((c >> 5u16) & 0x3f) as u32,
            b5 == (c & 0x1f) as u32,
            red == (r5 << 3u32) | (r5 >> 2u32),
            green == (g6 << 2u32) | (g6 >> 4u32),
            blue == (b5 << 3u32) | (b5 >> 2u32),
    ;
    assert((77 * red + 150 * green + 29 * blue + 128) / 256 <= 255) by (nonlinear_arith)
        requires
            red <= 255,
            green <= 255,
            blue <= 255,
    ;
    let l = luminance(c);
    assert(l <= 255);
    let g = gray_of(c);
    assert(g == rgb565(l, l, l));
    assert((g >> 11u16) == (g & 0x1f) && ((g >> 5u16) & 0x3f) >> 1u16 == (g >> 11u16)) by (bit_vector)
        requires
            l <= 255,
            g == (((l >> 3u32) << 11u32) | ((l >> 2u32) << 5u32) | (l >> 3u32)) as u16,
    ;
}

/// What a combining mode does to screen pixel `p` of a row (its bytes `2p`
/// and `2p + 1`), given the source row `src` over the screen row `dst`: OR
/// gives the source's bytes ORed with the screen's; `Transparent(t)` and
/// `Gray(t)` leave the screen pixel as it was where the source pixel is
/// `t`; elsewhere `Transparent` puts the source pixel there and `Gray` a
/// grey pixel (its red and blue fields equal, and its green field their
/// value with one more bit). The row keeps its length.
pub proof fn lemma_drawn_row_pixel(src: Seq<u8>, dst: Seq<u8>, mode: BitmapDrawMode, p: int)
    requires
        0 <= p,
        2 * p + 1 < dst.len(),
        src.len() == dst.len(),
    ensures
        ({
            let out = drawn_row(src, dst, mode);
            let s = pixel_from(src[2 * p], src[2 * p + 1]);
            let kept = out[2 * p] == dst[2 * p] && out[2 * p + 1] == dst[2 * p + 1];
            let g = pixel_from(out[2 * p], out[2 * p + 1]);
            &&& out.len() == dst.len()
            &&& mode == BitmapDrawMode::Or ==> out[2 * p] == src[2 * p] | dst[2 * p] && out[2 * p + 1] == src[2
                * p + 1] | dst[2 * p + 1]
            &&& mode matches BitmapDrawMode::Transparent(t) ==> if s == t {
                kept
            } else {
                out[2 * p] == src[2 * p] && out[2 * p + 1] == src[2 * p + 1]
            }
            &&& mode matches BitmapDrawMode::Gray(t) ==> if s == t {
                kept
            } else {
                (g >> 11u16) == (g & 0x1f) && ((g >> 5u16) & 0x3f) >> 1u16 == (g >> 11u16)
            }
        }),
{
    let out = drawn_row(src, dst, mode);
    assert((2 * p) / 2 == p && (2 * p) % 2 == 0);
    assert((2 * p + 1) / 2 == p && (2 * p + 1) % 2 == 1);
    assert(pixel_at(src, p) == pixel_from(src[2 * p], src[2 * p + 1]));
    assert(pixel_at(dst, p) == pixel_from(dst[2 * p], dst[2 * p + 1]));
    let x = drawn_pixel(pixel_at(src, p), pixel_at(dst, p), mode);
    lemma_pixel_bytes(src[2 * p], src[2 * p + 1], dst[2 * p], dst[2 * p + 1], x);
    lemma_pixel_bytes(dst[2 * p], dst[2 * p + 1], src[2 * p], src[2 * p + 1], x);
    assert(out[2 * p] == (x & 0xff) as u8 && out[2 * p + 1] == (x >> 8u16) as u8);
    if mode matches BitmapDrawMode::Gray(_) {
        lemma_gray_is_gray(pixel_at(src, p));
    }
}


/// `lo <= v < hi`.
pub open spec fn within(lo: int, hi: int, v: int) -> bool {
    lo <= v < hi
}

/// The visible part of a bitmap is exactly where it meets the screen: a
/// screen column lies in `x0..x1` exactly when it is on the screen and
/// under the bitmap, and a row in `y0..y1` likewise.
pub proof fn lemma_clip_is_the_overlap(x: i32, y: i32, width: nat, height: nat, sw: i32, sh: i32)
    ensures
        ({
            let (x0, y0, x1, y1) = clip(x, y, width, height, sw, sh);
            &&& forall|c: int| #[trigger] within(x0, x1, c) <==> (0 <= c < sw && x <= c < x + width)
            &&& forall|r: int| #[trigger] within(y0, y1, r) <==> (0 <= r < sh && y <= r < y + height)
        }),
{
}

} // verus!
