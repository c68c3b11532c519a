//! The platform JPEG services: a guest asks for an image's dimensions or
//! for the image decoded into RGB565 pixels.  The JPEG bitstream itself is
//! decoded by `jpeg_decoder`; everything around it is checked here.
use vstd::prelude::*;
use crate::cpu::ArmCpu;
use crate::error::Error;
use crate::guest_strings::{fault_matches, GuestFault};
use crate::libc_services::{done_with, failed_with, service_matches, ServiceOutcome};
use crate::memory::{access_fault_text, address_overflow_text, Access, GuestAddr, GuestMemory, MemView};
use crate::text::{dec_text, decimal};

verus! {

/// Where the dimensions returned by the info service are kept.
pub const PLATFORM_JPEG_INFO_DATA: u32 = 0x0100_1a30;

/// The length of that record: width and height, a word each.
pub const PLATFORM_JPEG_INFO_LEN: u32 = 8;

/// The largest JPEG source, and the largest decoded image, in bytes.
pub const MAX_PLATFORM_JPEG_LEN: usize = 33554432;

/// The sample layout of a decoded JPEG image.
#[derive(Clone, Copy, Debug, PartialEq, Eq, Structural)]
pub enum JpegPixelFormat {
    L8,
    L16,
    Rgb24,
    Cmyk32,
}

/// What a JPEG header says: the image size and its sample layout.
#[derive(Clone, Copy, Debug, PartialEq, Eq, Structural)]
pub struct JpegInfo {
    pub width: u16,
    pub height: u16,
    pub format: JpegPixelFormat,
}

/// The header that `jpeg_decoder` reads from `bytes`, when it reads one.
pub uninterp spec fn jpeg_header(bytes: Seq<u8>) -> Option<JpegInfo>;

/// The samples that `jpeg_decoder` decodes from `bytes` when its decoding
/// buffer may hold `limit` bytes, when it decodes them.
pub uninterp spec fn jpeg_samples(bytes: Seq<u8>, limit: usize) -> Option<Seq<u8>>;

/// `jpeg_decoder::Decoder::read_info` and `Decoder::info` on a decoder over
/// `bytes`: the header's width, height and pixel format when the header
/// reads, else `None`.  The result is named, not spelled out.  `info` is
/// called only once `read_info` succeeded, and the decoder keeps a frame only
/// after checking that its precision is 2 to 16 and that it has 1, 3 or 4
/// components, so the two `panic!` arms of `info` are not reached.
#[verifier::external_body]
fn read_jpeg_header(bytes: &[u8]) -> (r: Option<JpegInfo>)
    ensures
        r == jpeg_header(bytes@),
{
    let mut decoder = jpeg_decoder::Decoder::new(std::io::Cursor::new(bytes));
    if decoder.read_info().is_err() {
        return None;
    }
    decoder.info().map(|info| JpegInfo {
        width: info.width,
        height: info.height,
        format: match info.pixel_format {
            jpeg_decoder::PixelFormat::L8 => JpegPixelFormat::L8,
            jpeg_decoder::PixelFormat::L16 => JpegPixelFormat::L16,
            jpeg_decoder::PixelFormat::RGB24 => JpegPixelFormat::Rgb24,
            jpeg_decoder::PixelFormat::CMYK32 => JpegPixelFormat::Cmyk32,
        },
    })
}

/// `jpeg_decoder::Decoder::decode` on a decoder over `bytes` whose decoding
/// buffer is limited to `limit` bytes (`set_max_decoding_buffer_size`): the
/// samples, or `None` when decoding fails.  The result is named, not spelled
/// out.  Nothing is said here of inputs on which the decoder itself would
/// panic rather than return an error.
#[verifier::external_body]
fn decode_jpeg_samples(bytes: &[u8], limit: usize) -> (r: Option<Vec<u8>>)
    ensures
        match jpeg_samples(bytes@, limit) {
            Some(s) => r matches Some(v) && v@ == s,
            None => r is None,
        },
{
    let mut decoder = jpeg_decoder::Decoder::new(std::io::Cursor::new(bytes));
    decoder.set_max_decoding_buffer_size(limit);
    decoder.decode().ok()
}

pub open spec fn pixel_bytes(format: JpegPixelFormat) -> nat {
    match format {
        JpegPixelFormat::L8 => 1,
        JpegPixelFormat::L16 => 2,
        JpegPixelFormat::Rgb24 => 3,
        JpegPixelFormat::Cmyk32 => 4,
    }
}

/// The RGB565 colour of 8-bit channels: their top five, six and five bits.
pub open spec fn rgb888_to_rgb565(red: u8, green: u8, blue: u8) -> u16 {
    (((red >> 3u8) as u16) << 11u16) | (((green >> 2u8) as u16) << 5u16) | ((blue >> 3u8) as u16)
}

/// The two bytes of `v`, least significant first.
pub open spec fn le16(v: u16) -> Seq<u8> {
    seq![(v & 0xff) as u8, (v >> 8u16) as u8]
}

/// The RGB565 colour of pixel `k` of decoded samples.
pub open spec fn sample_color(samples: Seq<u8>, format: JpegPixelFormat, k: int) -> u16 {
    if format == JpegPixelFormat::Rgb24 {
        rgb888_to_rgb565(samples[3 * k], samples[3 * k + 1], samples[3 * k + 2])
    } else {
        rgb888_to_rgb565(samples[k], samples[k], samples[k])
    }
}

/// The first `n` pixels of decoded samples as little-endian RGB565.
pub open spec fn rgb565_pixels(samples: Seq<u8>, format: JpegPixelFormat, n: nat) -> Seq<u8>
    decreases n,
{
    if n == 0 {
        Seq::empty()
    } else {
        rgb565_pixels(samples, format, (n - 1) as nat) + le16(sample_color(samples, format, n - 1))
    }
}

/// The image decoded to little-endian RGB565, when the decoder yields
/// exactly the samples the header announces in a layout that converts.
pub open spec fn jpeg_rgb565(bytes: Seq<u8>, info: JpegInfo) -> Option<Seq<u8>> {
    let count = info.width * info.height;
    let decoded_len = count * pixel_bytes(info.format);
    if decoded_len > usize::MAX || count * 2 > usize::MAX {
        None
    } else {
        match jpeg_samples(bytes, decoded_len as usize) {
            None => None,
            Some(samples) => if samples.len() != decoded_len {
                None
            } else if info.format == JpegPixelFormat::Rgb24 || info.format == JpegPixelFormat::L8 {
                Some(rgb565_pixels(samples, info.format, count as nat))
            } else {
                None
            },
        }
    }
}

/// The JPEG that `len` bytes at `source` hold, when they hold one the
/// services accept: a known source, a sensible length, the JPEG start
/// markers, a header that reads, and an 8-bit grey or RGB image of at most
/// `MAX_PLATFORM_JPEG_LEN` bytes decoded and converted.
pub open spec fn jpeg_candidate(m: MemView, source: u32, len: nat) -> Result<
    Option<(Seq<u8>, JpegInfo)>,
    GuestFault,
> {
    if source == 0 || len < 3 || len > MAX_PLATFORM_JPEG_LEN {
        Ok(None)
    } else {
        match m.load(source, len, Access::Read) {
            Err(t) => Err(GuestFault::Arm(t)),
            Ok(b) => if !(b[0] == 0xff && b[1] == 0xd8 && b[2] == 0xff) {
                Ok(None)
            } else {
                match jpeg_header(b) {
                    None => Ok(None),
                    Some(info) => {
                        let count = info.width * info.height;
                        if count * 2 > usize::MAX {
                            Err(GuestFault::Limit("platform JPEG output length overflow"@))
                        } else if count * pixel_bytes(info.format) > usize::MAX {
                            Err(GuestFault::Limit("platform JPEG decoded length overflow"@))
                        } else if info.width == 0 || info.height == 0 || count * 2
                            > MAX_PLATFORM_JPEG_LEN || count * pixel_bytes(info.format)
                            > MAX_PLATFORM_JPEG_LEN || info.format == JpegPixelFormat::L16
                            || info.format == JpegPixelFormat::Cmyk32 {
                            Ok(None)
                        } else {
                            Ok(Some((b, info)))
                        }
                    },
                }
            },
        }
    }
}

fn pixel_bytes_exec(format: JpegPixelFormat) -> (r: usize)
    ensures
        r == pixel_bytes(format),
{
    match format {
        JpegPixelFormat::L8 => 1,
        JpegPixelFormat::L16 => 2,
        JpegPixelFormat::Rgb24 => 3,
        JpegPixelFormat::Cmyk32 => 4,
    }
}

fn limit_error(text: &str) -> (e: Error)
    ensures
        e matches Error::ResourceLimit(m) && m@ == text@,
{
    Error::ResourceLimit(String::from_str(text))
}

/// Reads the candidate JPEG of `source_len` bytes at `source`: `None` when
/// the bytes are no JPEG these services accept.
pub fn read_platform_jpeg(memory: &GuestMemory, source: u32, source_len: usize) -> (r: Result<
    Option<(Vec<u8>, JpegInfo)>,
    Error,
>)
    requires
        memory.wf(),
    ensures
        match jpeg_candidate(memory@, source, source_len as nat) {
            Err(f) => fault_matches(r, f),
            Ok(None) => r matches Ok(None),
            Ok(Some((b, info))) => r matches Ok(Some(p)) && p.0@ == b && p.1 == info,
        },
{
    if source == 0 || source_len < 3 || source_len > MAX_PLATFORM_JPEG_LEN {
        return Ok(None);
    }
    let bytes = match memory.read(GuestAddr(source), source_len) {
        Ok(b) => b,
        Err(e) => return Err(e),
    };
    if !(bytes[0] == 0xff && bytes[1] == 0xd8 && bytes[2] == 0xff) {
        return Ok(None);
    }
    let info = match read_jpeg_header(bytes.as_slice()) {
        Some(i) => i,
        None => return Ok(None),
    };
    proof {
        reveal_strlit("platform JPEG output length overflow");
        reveal_strlit("platform JPEG decoded length overflow");
        assert(info.width * info.height <= 0xffff * 0xffff) by (nonlinear_arith)
            requires
                info.width <= 0xffff,
                info.height <= 0xffff,
        ;
    }
    let count = (info.width as usize) * (info.height as usize);
    let output_len = match count.checked_mul(2) {
        Some(l) => l,
        None => return Err(limit_error("platform JPEG output length overflow")),
    };
    let decoded_len = match count.checked_mul(pixel_bytes_exec(info.format)) {
        Some(l) => l,
        None => return Err(limit_error("platform JPEG decoded length overflow")),
    };
    if info.width == 0 || info.height == 0 || output_len > MAX_PLATFORM_JPEG_LEN || decoded_len
        > MAX_PLATFORM_JPEG_LEN || info.format == JpegPixelFormat::L16 || info.format
        == JpegPixelFormat::Cmyk32 {
        return Ok(None);
    }
    Ok(Some((bytes, info)))
}

fn rgb565_exec(red: u8, green: u8, blue: u8) -> (c: u16)
    ensures
        c == rgb888_to_rgb565(red, green, blue),
{
    (((red >> 3u8) as u16) << 11u16) | (((green >> 2u8) as u16) << 5u16) | ((blue >> 3u8) as u16)
}

/// Decodes a JPEG whose header is `info` into little-endian RGB565 pixels:
/// `None` when decoding fails or yields another number of samples than the
/// header announces, or the layout is neither 8-bit grey nor RGB.
pub fn decode_jpeg_rgb565(bytes: &[u8], info: JpegInfo) -> (r: Option<Vec<u8>>)
    ensures
        match jpeg_rgb565(bytes@, info) {
            Some(p) => r matches Some(v) && v@ == p,
            None => r is None,
        },
{
    proof {
        assert(info.width * info.height <= 0xffff * 0xffff) by (nonlinear_arith)
            requires
                info.width <= 0xffff,
                info.height <= 0xffff,
        ;
    }
    let count = (info.width as usize) * (info.height as usize);
    let decoded_len = match count.checked_mul(pixel_bytes_exec(info.format)) {
        Some(l) => l,
        None => return None,
    };
    match count.checked_mul(2) {
        Some(_) => {},
        None => return None,
    }
    let samples = match decode_jpeg_samples(bytes, decoded_len) {
        Some(s) => s,
        None => return None,
    };
    if samples.len() != decoded_len {
        return None;
    }
    let rgb = info.format == JpegPixelFormat::Rgb24;
    if !rgb && info.format != JpegPixelFormat::L8 {
        return None;
    }
    let mut out: Vec<u8> = Vec::new();
    let mut k: usize = 0;
    let mut at: usize = 0;
    while k < count
        invariant
            k <= count,
            count == info.width * info.height,
            rgb == (info.format == JpegPixelFormat::Rgb24),
            rgb || info.format == JpegPixelFormat::L8,
            samples@.len() == decoded_len,
            decoded_len == count * pixel_bytes(info.format),
            at == (if rgb {
                3 * k
            } else {
                k as int
            }),
            out@ == rgb565_pixels(samples@, info.format, k as nat),
        decreases count - k,
    {
        let color = if rgb {
            rgb565_exec(samples[at], samples[at + 1], samples[at + 2])
        } else {
            rgb565_exec(samples[at], samples[at], samples[at])
        };
        assert(color == sample_color(samples@, info.format, k as int));
        out.push((color & 0xff) as u8);
        out.push((color >> 8u16) as u8);
        proof {
            assert(out@ =~= rgb565_pixels(samples@, info.format, k as nat) + le16(color));
        }
        k += 1;
        at = if rgb {
            at + 3
        } else {
            at + 1
        };
    }
    Some(out)
}

/// The info service's refusal of an input that is not 12 bytes.
pub open spec fn info_input_text(len: u32) -> Seq<char> {
    "platform JPEG info input is "@ + dec_text(len as nat) + " bytes, expected 12"@
}

/// What the JPEG info service (`r1` the input record, `r2` its length,
/// `r3` the output field, the stack word the output-length field) does: it
/// clears both fields, and for a JPEG it accepts records the width and
/// height and points the fields at them; `r0` is 0, or -1 when there is no
/// such JPEG.
pub open spec fn jpeg_info_service(c: crate::cpu_model::CpuView, m: MemView) -> ServiceOutcome {
    let input = c.regs[1];
    let output = c.regs[3];
    if c.regs[2] != 12 {
        failed_with(m, GuestFault::Abi(info_input_text(c.regs[2])))
    } else {
        match m.read_u32(c.regs[13]) {
            Err(t) => failed_with(m, GuestFault::Arm(t)),
            Ok(length_field) => if output == 0 || length_field == 0 {
                failed_with(
                    m,
                    GuestFault::Abi("platform JPEG info requires output and output-length pointers"@),
                )
            } else {
                match m.write_u32(output, 0) {
                    Err(t) => failed_with(m, GuestFault::Arm(t)),
                    Ok(m1) => match m1.write_u32(length_field, 0) {
                        Err(t) => failed_with(m1, GuestFault::Arm(t)),
                        Ok(m2) => if input == 0 {
                            done_with(m2, u32::MAX)
                        } else {
                            jpeg_info_from_record(m2, input, output, length_field)
                        },
                    },
                }
            },
        }
    }
}

/// The words at `input`, `input + 4` and `input + 8`, or the fault.
pub open spec fn record3(m: MemView, input: u32) -> Result<(u32, u32, u32), GuestFault> {
    match m.read_u32(input) {
        Err(t) => Err(GuestFault::Arm(t)),
        Ok(a) => if input + 4 > u32::MAX {
            Err(GuestFault::Arm(address_overflow_text(input, 4)))
        } else {
            match m.read_u32((input + 4) as u32) {
                Err(t) => Err(GuestFault::Arm(t)),
                Ok(b) => if input + 8 > u32::MAX {
                    Err(GuestFault::Arm(address_overflow_text(input, 8)))
                } else {
                    match m.read_u32((input + 8) as u32) {
                        Err(t) => Err(GuestFault::Arm(t)),
                        Ok(c) => Ok((a, b, c)),
                    }
                },
            }
        },
    }
}

pub open spec fn jpeg_info_from_record(m: MemView, input: u32, output: u32, length_field: u32) -> ServiceOutcome {
    match record3(m, input) {
        Err(f) => failed_with(m, f),
        Ok((source, len, codec)) => if codec != 1 {
            done_with(m, u32::MAX)
        } else {
            match jpeg_candidate(m, source, len as nat) {
                Err(f) => failed_with(m, f),
                Ok(None) => done_with(m, u32::MAX),
                Ok(Some((_, info))) => match m.write_u32(PLATFORM_JPEG_INFO_DATA, info.width as u32) {
                    Err(t) => failed_with(m, GuestFault::Arm(t)),
                    Ok(m1) => match m1.write_u32(
                        (PLATFORM_JPEG_INFO_DATA + 4) as u32,
                        info.height as u32,
                    ) {
                        Err(t) => failed_with(m1, GuestFault::Arm(t)),
                        Ok(m2) => match m2.write_u32(output, PLATFORM_JPEG_INFO_DATA) {
                            Err(t) => failed_with(m2, GuestFault::Arm(t)),
                            Ok(m3) => match m3.write_u32(length_field, PLATFORM_JPEG_INFO_LEN) {
                                Err(t) => failed_with(m3, GuestFault::Arm(t)),
                                Ok(m4) => done_with(m4, 0),
                            },
                        },
                    },
                },
            }
        },
    }
}

fn read_word(memory: &GuestMemory, address: u32, offset: u32) -> (r: Result<u32, Error>)
    requires
        memory.wf(),
    ensures
        address + offset > u32::MAX ==> fault_matches(
            r,
            GuestFault::Arm(address_overflow_text(address, offset)),
        ),
        address + offset <= u32::MAX ==> crate::memory::matches_spec(
            r,
            memory@.read_u32((address + offset) as u32),
        ),
{
    let at = match GuestAddr(address).checked_add(offset) {
        Ok(a) => a,
        Err(e) => return Err(e),
    };
    memory.read_u32(at)
}

fn read_record3(memory: &GuestMemory, input: u32) -> (r: Result<(u32, u32, u32), Error>)
    requires
        memory.wf(),
    ensures
        match record3(memory@, input) {
            Ok(t) => r == Ok::<(u32, u32, u32), Error>(t),
            Err(f) => fault_matches(r, f),
        },
{
    let a = match memory.read_u32(GuestAddr(input)) {
        Ok(v) => v,
        Err(e) => return Err(e),
    };
    let b = match read_word(memory, input, 4) {
        Ok(v) => v,
        Err(e) => return Err(e),
    };
    let c = match read_word(memory, input, 8) {
        Ok(v) => v,
        Err(e) => return Err(e),
    };
    Ok((a, b, c))
}

/// Runs the JPEG info service for the guest.
pub fn return_platform_jpeg_info(memory: &mut GuestMemory, cpu: &mut ArmCpu) -> (r: Result<
    (),
    Error,
>)
    requires
        old(memory).wf(),
    ensures
        final(memory).wf(),
        service_matches(r, old(cpu)@, final(cpu)@, final(memory)@, jpeg_info_service(old(cpu)@, old(memory)@)),
{
    proof {
        cpu.lemma_wf();
        reveal_strlit("platform JPEG info input is ");
        reveal_strlit(" bytes, expected 12");
        reveal_strlit("platform JPEG info requires output and output-length pointers");
    }
    let input = cpu.register(1);
    let output = cpu.register(3);
    if cpu.register(2) != 12 {
        let m = String::from_str("platform JPEG info input is ").concat(
            decimal(cpu.register(2) as u64).as_str(),
        ).concat(" bytes, expected 12");
        return Err(Error::Abi(m));
    }
    let length_field = match memory.read_u32(GuestAddr(cpu.register(13))) {
        Ok(v) => v,
        Err(e) => return Err(e),
    };
    if output == 0 || length_field == 0 {
        return Err(
            Error::Abi(
                String::from_str("platform JPEG info requires output and output-length pointers"),
            ),
        );
    }
    match memory.write_u32(GuestAddr(output), 0) {
        Ok(()) => {},
        Err(e) => return Err(e),
    }
    match memory.write_u32(GuestAddr(length_field), 0) {
        Ok(()) => {},
        Err(e) => return Err(e),
    }
    if input == 0 {
        cpu.set_register(0, u32::MAX);
        return Ok(());
    }
    let (source, len, codec) = match read_record3(memory, input) {
        Ok(t) => t,
        Err(e) => return Err(e),
    };
    if codec != 1 {
        cpu.set_register(0, u32::MAX);
        return Ok(());
    }
    let info = match read_platform_jpeg(memory, source, len as usize) {
        Ok(Some((_, info))) => info,
        Ok(None) => {
            cpu.set_register(0, u32::MAX);
            return Ok(());
        },
        Err(e) => return Err(e),
    };
    match memory.write_u32(GuestAddr(PLATFORM_JPEG_INFO_DATA), info.width as u32) {
        Ok(()) => {},
        Err(e) => return Err(e),
    }
    match memory.write_u32(GuestAddr(PLATFORM_JPEG_INFO_DATA + 4), info.height as u32) {
        Ok(()) => {},
        Err(e) => return Err(e),
    }
    match memory.write_u32(GuestAddr(output), PLATFORM_JPEG_INFO_DATA) {
        Ok(()) => {},
        Err(e) => return Err(e),
    }
    match memory.write_u32(GuestAddr(length_field), PLATFORM_JPEG_INFO_LEN) {
        Ok(()) => {},
        Err(e) => return Err(e),
    }
    cpu.set_register(0, 0);
    Ok(())
}

/// The word `offset` bytes past `input`, or the fault.
pub open spec fn word_at(m: MemView, input: u32, offset: u32) -> Result<u32, GuestFault> {
    if input + offset > u32::MAX {
        Err(GuestFault::Arm(address_overflow_text(input, offset)))
    } else {
        match m.read_u32((input + offset) as u32) {
            Err(t) => Err(GuestFault::Arm(t)),
            Ok(v) => Ok(v),
        }
    }
}

/// The six words of a decode record: source, source length, width, height,
/// codec and destination.
pub open spec fn record6(m: MemView, input: u32) -> Result<Seq<u32>, GuestFault> {
    match word_at(m, input, 0) {
        Err(f) => Err(f),
        Ok(a) => match word_at(m, input, 4) {
            Err(f) => Err(f),
            Ok(b) => match word_at(m, input, 8) {
                Err(f) => Err(f),
                Ok(c) => match word_at(m, input, 12) {
                    Err(f) => Err(f),
                    Ok(d) => match word_at(m, input, 16) {
                        Err(f) => Err(f),
                        Ok(e) => match word_at(m, input, 20) {
                            Err(f) => Err(f),
                            Ok(g) => Ok(seq![a, b, c, d, e, g]),
                        },
                    },
                },
            },
        },
    }
}

pub open spec fn decode_input_text(len: u32) -> Seq<char> {
    "platform JPEG decode input is "@ + dec_text(len as nat) + " bytes, expected 24"@
}

/// The first half of the JPEG decode service (`r1` the input record, `r2`
/// its length, `r3` and the stack word unused output fields): the checks
/// and the JPEG to decode, with its destination and output length, or
/// `None` when the service answers -1 without decoding.
pub open spec fn decode_request(c: crate::cpu_model::CpuView, m: MemView) -> Result<
    Option<(u32, nat, Seq<u8>, JpegInfo)>,
    GuestFault,
> {
    if c.regs[2] != 24 {
        Err(GuestFault::Abi(decode_input_text(c.regs[2])))
    } else {
        match m.read_u32(c.regs[13]) {
            Err(t) => Err(GuestFault::Arm(t)),
            Ok(output_len) => if c.regs[3] != 0 || output_len != 0 {
                Err(GuestFault::Abi("platform JPEG decode does not accept output buffers"@))
            } else if c.regs[1] == 0 {
                Ok(None)
            } else {
                match record6(m, c.regs[1]) {
                    Err(f) => Err(f),
                    Ok(w) => if w[4] != 1 {
                        Ok(None)
                    } else {
                        match jpeg_candidate(m, w[0], w[1] as nat) {
                            Err(f) => Err(f),
                            Ok(None) => Ok(None),
                            Ok(Some((b, info))) => if w[2] != info.width || w[3] != info.height {
                                Ok(None)
                            } else if info.width * info.height * 2 > usize::MAX {
                                Err(GuestFault::Limit("platform JPEG output length overflow"@))
                            } else if w[5] == 0 {
                                Ok(None)
                            } else {
                                Ok(Some((w[5], (info.width * info.height * 2) as nat, b, info)))
                            },
                        }
                    },
                }
            },
        }
    }
}

/// A JPEG the decode service is to write: where, how many bytes, and what.
#[derive(Debug)]
pub struct JpegDecodeRequest {
    pub destination: u32,
    pub output_len: usize,
    pub bytes: Vec<u8>,
    pub info: JpegInfo,
}

/// Checks a JPEG decode request from the guest and reads the JPEG it names.
/// When the service answers -1 without decoding, `r0` is set to it and
/// `None` comes back; otherwise the core is untouched and the caller looks
/// up how large the destination allocation is and finishes with
/// `finish_platform_jpeg_decode`.
pub fn jpeg_decode_request(memory: &GuestMemory, cpu: &mut ArmCpu) -> (r: Result<
    Option<JpegDecodeRequest>,
    Error,
>)
    requires
        memory.wf(),
    ensures
        match decode_request(old(cpu)@, memory@) {
            Err(f) => fault_matches(r, f) && final(cpu)@ == old(cpu)@,
            Ok(None) => r matches Ok(None) && final(cpu)@ == old(cpu)@.set_reg(0, u32::MAX),
            Ok(Some((d, l, b, i))) => r matches Ok(Some(q)) && q.destination == d && q.output_len
                == l && q.bytes@ == b && q.info == i && final(cpu)@ == old(cpu)@,
        },
{
    proof {
        cpu.lemma_wf();
        reveal_strlit("platform JPEG decode input is ");
        reveal_strlit(" bytes, expected 24");
        reveal_strlit("platform JPEG decode does not accept output buffers");
        reveal_strlit("platform JPEG output length overflow");
    }
    if cpu.register(2) != 24 {
        let m = String::from_str("platform JPEG decode input is ").concat(
            decimal(cpu.register(2) as u64).as_str(),
        ).concat(" bytes, expected 24");
        return Err(Error::Abi(m));
    }
    let output_len = match memory.read_u32(GuestAddr(cpu.register(13))) {
        Ok(v) => v,
        Err(e) => return Err(e),
    };
    if cpu.register(3) != 0 || output_len != 0 {
        return Err(Error::Abi(String::from_str("platform JPEG decode does not accept output buffers")));
    }
    let input = cpu.register(1);
    if input == 0 {
        cpu.set_register(0, u32::MAX);
        return Ok(None);
    }
    let source = match read_word(memory, input, 0) {
        Ok(v) => v,
        Err(e) => return Err(e),
    };
    let source_len = match read_word(memory, input, 4) {
        Ok(v) => v,
        Err(e) => return Err(e),
    };
    let width = match read_word(memory, input, 8) {
        Ok(v) => v,
        Err(e) => return Err(e),
    };
    let height = match read_word(memory, input, 12) {
        Ok(v) => v,
        Err(e) => return Err(e),
    };
    let codec = match read_word(memory, input, 16) {
        Ok(v) => v,
        Err(e) => return Err(e),
    };
    let destination = match read_word(memory, input, 20) {
        Ok(v) => v,
        Err(e) => return Err(e),
    };
    assert(record6(memory@, input) == Ok::<Seq<u32>, GuestFault>(
        seq![source, source_len, width, height, codec, destination],
    ));
    if codec != 1 {
        cpu.set_register(0, u32::MAX);
        return Ok(None);
    }
    let (bytes, info) = match read_platform_jpeg(memory, source, source_len as usize) {
        Ok(Some(p)) => p,
        Ok(None) => {
            cpu.set_register(0, u32::MAX);
            return Ok(None);
        },
        Err(e) => return Err(e),
    };
    if width != info.width as u32 || height != info.height as u32 {
        cpu.set_register(0, u32::MAX);
        return Ok(None);
    }
    proof {
        assert(info.width * info.height <= 0xffff * 0xffff) by (nonlinear_arith)
            requires
                info.width <= 0xffff,
                info.height <= 0xffff,
        ;
    }
    let count = (info.width as usize) * (info.height as usize);
    let out_len = match count.checked_mul(2) {
        Some(l) => l,
        None => return Err(limit_error("platform JPEG output length overflow")),
    };
    if destination == 0 {
        cpu.set_register(0, u32::MAX);
        return Ok(None);
    }
    Ok(Some(JpegDecodeRequest { destination, output_len: out_len, bytes, info }))
}

/// The second half of the JPEG decode service: -1 when the destination
/// allocation (`allocated`, when the host knows it) is too small or the
/// JPEG does not decode, a fault when the destination is not writable;
/// else the pixels are written there and `r0` is 0.
pub open spec fn finish_decode(
    m: MemView,
    destination: u32,
    output_len: nat,
    bytes: Seq<u8>,
    info: JpegInfo,
    allocated: Option<u32>,
) -> ServiceOutcome {
    if allocated matches Some(a) && output_len > a {
        done_with(m, u32::MAX)
    } else if !m.accessible(destination as int, output_len as int, Access::Write) {
        failed_with(m, GuestFault::Arm(access_fault_text(Access::Write, destination, output_len)))
    } else {
        match jpeg_rgb565(bytes, info) {
            None => done_with(m, u32::MAX),
            Some(pixels) => match m.store(destination, pixels) {
                Err(t) => failed_with(m, GuestFault::Arm(t)),
                Ok(m2) => done_with(m2, 0),
            },
        }
    }
}

/// Decodes the requested JPEG into its destination.
pub fn finish_platform_jpeg_decode(
    memory: &mut GuestMemory,
    cpu: &mut ArmCpu,
    request: JpegDecodeRequest,
    allocated_len: Option<u32>,
) -> (r: Result<(), Error>)
    requires
        old(memory).wf(),
    ensures
        final(memory).wf(),
        service_matches(
            r,
            old(cpu)@,
            final(cpu)@,
            final(memory)@,
            finish_decode(
                old(memory)@,
                request.destination,
                request.output_len as nat,
                request.bytes@,
                request.info,
                allocated_len,
            ),
        ),
{
    match allocated_len {
        Some(a) => if request.output_len > a as usize {
            cpu.set_register(0, u32::MAX);
            return Ok(());
        },
        None => {},
    }
    match memory.check_range(GuestAddr(request.destination), request.output_len, Access::Write) {
        Ok(()) => {},
        Err(e) => return Err(e),
    }
    let pixels = match decode_jpeg_rgb565(request.bytes.as_slice(), request.info) {
        Some(p) => p,
        None => {
            cpu.set_register(0, u32::MAX);
            return Ok(());
        },
    };
    match memory.write(GuestAddr(request.destination), pixels.as_slice()) {
        Ok(()) => {},
        Err(e) => return Err(e),
    }
    cpu.set_register(0, 0);
    Ok(())
}


/// Pixel `k` of little-endian RGB565 bytes.
pub open spec fn pixel_of(p: Seq<u8>, k: int) -> u16 {
    ((p[2 * k] as u16) | ((p[2 * k + 1] as u16) << 8u16)) as u16
}

/// The 5-bit red, 6-bit green and 5-bit blue fields of an RGB565 colour.
pub open spec fn channels(c: u16) -> (u16, u16, u16) {
    (c >> 11u16, (c >> 5u16) & 0x3f, c & 0x1f)
}

proof fn lemma_rgb565_channels(r: u8, g: u8, b: u8)
    ensures
        channels(rgb888_to_rgb565(r, g, b)) == ((r >> 3u8) as u16, (g >> 2u8) as u16, (b >> 3u8) as u16),
{
    let c = rgb888_to_rgb565(r, g, b);
    assert(c >> 11u16 == (r >> 3u8) as u16 && (c >> 5u16) & 0x3f == (g >> 2u8) as u16 && c & 0x1f == (b
        >> 3u8) as u16) by (bit_vector)
        requires
            c == (((r >> 3u8) as u16) << 11u16) | (((g >> 2u8) as u16) << 5u16) | ((b >> 3u8) as u16),
    ;
}

proof fn lemma_le16_pixel(c: u16)
    ensures
        ((le16(c)[0] as u16) | ((le16(c)[1] as u16) << 8u16)) as u16 == c,
{
    assert((((c & 0xff) as u8) as u16 | ((((c >> 8u16) as u8) as u16) << 8u16)) == c) by (bit_vector);
}

proof fn lemma_pixels_at(samples: Seq<u8>, format: JpegPixelFormat, n: nat, k: int)
    requires
        0 <= k < n,
    ensures
        rgb565_pixels(samples, format, n).len() == 2 * n,
        pixel_of(rgb565_pixels(samples, format, n), k) == sample_color(samples, format, k),
    decreases n,
{
    let front = rgb565_pixels(samples, format, (n - 1) as nat);
    let p = rgb565_pixels(samples, format, n);
    assert(front.len() == 2 * (n - 1)) by {
        lemma_pixels_len(samples, format, (n - 1) as nat);
    }
    if k < n - 1 {
        lemma_pixels_at(samples, format, (n - 1) as nat, k);
        assert(p[2 * k] == front[2 * k] && p[2 * k + 1] == front[2 * k + 1]);
    } else {
        let c = sample_color(samples, format, k);
        assert(p[2 * k] == le16(c)[0] && p[2 * k + 1] == le16(c)[1]);
        lemma_le16_pixel(c);
    }
}

proof fn lemma_pixels_len(samples: Seq<u8>, format: JpegPixelFormat, n: nat)
    ensures
        rgb565_pixels(samples, format, n).len() == 2 * n,
    decreases n,
{
    if n > 0 {
        lemma_pixels_len(samples, format, (n - 1) as nat);
    }
}

/// Every pixel of a decoded image follows its own samples: for an 8-bit
/// grey image, pixel `k` is grey, its red, green and blue fields all the top
/// bits of luminance sample `k`; for an RGB image, its red, green and blue
/// fields are the top five, six and five bits of samples `3k`, `3k + 1`
/// and `3k + 2`. There are two bytes for each of the width x height pixels.
pub proof fn lemma_decoded_pixels_follow_samples(bytes: Seq<u8>, info: JpegInfo)
    requires
        jpeg_rgb565(bytes, info) is Some,
    ensures
        ({
            let p = jpeg_rgb565(bytes, info)->Some_0;
            let count = info.width * info.height;
            let samples = jpeg_samples(bytes, (count * pixel_bytes(info.format)) as usize)->Some_0;
            &&& p.len() == 2 * count
            &&& info.format == JpegPixelFormat::L8 || info.format == JpegPixelFormat::Rgb24
            &&& forall|k: int|
                0 <= k < count ==> {
                    let c = #[trigger] pixel_of(p, k);
                    &&& info.format == JpegPixelFormat::L8 ==> channels(c) == (
                        (samples[k] >> 3u8) as u16,
                        (samples[k] >> 2u8) as u16,
                        (samples[k] >> 3u8) as u16,
                    )
                    &&& info.format == JpegPixelFormat::Rgb24 ==> channels(c) == (
                        (samples[3 * k] >> 3u8) as u16,
                        (samples[3 * k + 1] >> 2u8) as u16,
                        (samples[3 * k + 2] >> 3u8) as u16,
                    )
                }
        }),
{
    let count = (info.width * info.height) as nat;
    let samples = jpeg_samples(bytes, (count * pixel_bytes(info.format)) as usize)->Some_0;
    lemma_pixels_len(samples, info.format, count);
    assert forall|k: int| 0 <= k < count implies {
        let c = #[trigger] pixel_of(jpeg_rgb565(bytes, info)->Some_0, k);
        &&& info.format == JpegPixelFormat::L8 ==> channels(c) == (
            (samples[k] >> 3u8) as u16,
            (samples[k] >> 2u8) as u16,
            (samples[k] >> 3u8) as u16,
        )
        &&& info.format == JpegPixelFormat::Rgb24 ==> channels(c) == (
            (samples[3 * k] >> 3u8) as u16,
            (samples[3 * k + 1] >> 2u8) as u16,
            (samples[3 * k + 2] >> 3u8) as u16,
        )
    } by {
        lemma_pixels_at(samples, info.format, count, k);
        if info.format == JpegPixelFormat::L8 {
            lemma_rgb565_channels(samples[k], samples[k], samples[k]);
        } else {
            lemma_rgb565_channels(samples[3 * k], samples[3 * k + 1], samples[3 * k + 2]);
        }
    }
}


/// Readability of four bytes survives a write, which keeps the layout.
proof fn lemma_write_keeps_readable(m: MemView, a: u32, v: u32, x: u32)
    requires
        m.wf(),
        m.write_u32(a, v) is Ok,
        m.accessible(x as int, 4, Access::Read),
    ensures
        m.write_u32(a, v)->Ok_0.accessible(x as int, 4, Access::Read),
        m.write_u32(a, v)->Ok_0.wf(),
{
    crate::memory::lemma_store_keeps_layout();
    crate::memory::lemma_same_layout_facts();
    let m2 = m.write_u32(a, v)->Ok_0;
    assert(crate::memory::same_layout(m, m2));
    assert forall|k: int| 0 <= k < 4 implies #[trigger] m2.mapped(x + k) && crate::memory::allows(
        m2.perms_at(x + k),
        Access::Read,
    ) by {
        assert(m2.find(x + k) == m.find(x + k));
        assert(m.mapped(x + k));
        let i = m.find(x + k)->Some_0;
        crate::memory::lemma_find_unique(m, x + k, 0);
        assert(m2.regions[i].perms == m.regions[i].perms);
    }
}

/// When the JPEG info service accepts a JPEG, the width and height its
/// header gives read back from the info record, the output field points at
/// the record and the output-length field holds its length (where the two
/// fields are readable and lie apart from each other and from the record).
pub proof fn lemma_jpeg_info_reports_the_header(m: MemView, input: u32, output: u32, length_field: u32)
    requires
        m.wf(),
        m.accessible(PLATFORM_JPEG_INFO_DATA as int, 8, Access::Read),
        m.accessible(output as int, 4, Access::Read),
        m.accessible(length_field as int, 4, Access::Read),
        output + 4 <= PLATFORM_JPEG_INFO_DATA || PLATFORM_JPEG_INFO_DATA + 8 <= output,
        length_field + 4 <= PLATFORM_JPEG_INFO_DATA || PLATFORM_JPEG_INFO_DATA + 8 <= length_field,
        output + 4 <= length_field || length_field + 4 <= output,
        jpeg_info_from_record(m, input, output, length_field).result == Ok::<u32, GuestFault>(0),
    ensures
        ({
            let (source, len, codec) = record3(m, input)->Ok_0;
            let info = jpeg_candidate(m, source, len as nat)->Ok_0->Some_0.1;
            let after = jpeg_info_from_record(m, input, output, length_field).mem;
            &&& after.read_u32(PLATFORM_JPEG_INFO_DATA) == Ok::<u32, Seq<char>>(info.width as u32)
            &&& after.read_u32((PLATFORM_JPEG_INFO_DATA + 4) as u32) == Ok::<u32, Seq<char>>(info.height as u32)
            &&& after.read_u32(output) == Ok::<u32, Seq<char>>(PLATFORM_JPEG_INFO_DATA)
            &&& after.read_u32(length_field) == Ok::<u32, Seq<char>>(PLATFORM_JPEG_INFO_LEN)
        }),
{
    crate::memory::lemma_store_keeps_layout();
    crate::memory::lemma_same_layout_facts();
    let (source, len, codec) = record3(m, input)->Ok_0;
    let info = jpeg_candidate(m, source, len as nat)->Ok_0->Some_0.1;
    let i0 = PLATFORM_JPEG_INFO_DATA;
    let i1 = (PLATFORM_JPEG_INFO_DATA + 4) as u32;
    assert(m.accessible(i0 as int, 4, Access::Read));
    assert(m.accessible(i1 as int, 4, Access::Read)) by {
        assert forall|k: int| 0 <= k < 4 implies #[trigger] m.mapped(i1 + k) && crate::memory::allows(
            m.perms_at(i1 + k),
            Access::Read,
        ) by {
            assert(m.mapped(i0 + (k + 4)));
        }
    }
    let m1 = m.write_u32(i0, info.width as u32)->Ok_0;
    let m2 = m1.write_u32(i1, info.height as u32)->Ok_0;
    let m3 = m2.write_u32(output, i0)->Ok_0;
    let m4 = m3.write_u32(length_field, PLATFORM_JPEG_INFO_LEN)->Ok_0;
    crate::memory::lemma_write_then_read_u32(m, i0, info.width as u32);
    lemma_write_keeps_readable(m, i0, info.width as u32, i1);
    lemma_write_keeps_readable(m, i0, info.width as u32, output);
    lemma_write_keeps_readable(m, i0, info.width as u32, length_field);
    crate::memory::lemma_write_u32_keeps_other_words(m1, i1, info.height as u32, i0);
    crate::memory::lemma_write_then_read_u32(m1, i1, info.height as u32);
    lemma_write_keeps_readable(m1, i1, info.height as u32, output);
    lemma_write_keeps_readable(m1, i1, info.height as u32, length_field);
    crate::memory::lemma_write_u32_keeps_other_words(m2, output, i0, i0);
    crate::memory::lemma_write_u32_keeps_other_words(m2, output, i0, i1);
    crate::memory::lemma_write_then_read_u32(m2, output, i0);
    lemma_write_keeps_readable(m2, output, i0, length_field);
    crate::memory::lemma_write_u32_keeps_other_words(m3, length_field, PLATFORM_JPEG_INFO_LEN, i0);
    crate::memory::lemma_write_u32_keeps_other_words(m3, length_field, PLATFORM_JPEG_INFO_LEN, i1);
    crate::memory::lemma_write_u32_keeps_other_words(m3, length_field, PLATFORM_JPEG_INFO_LEN, output);
    crate::memory::lemma_write_then_read_u32(m3, length_field, PLATFORM_JPEG_INFO_LEN);
}

} // verus!
