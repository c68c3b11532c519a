//! Text conversions between the guest's legacy GBK strings and big-endian
//! UCS-2.  The GBK tables are `encoding_rs`'s; the UTF-16 side and the
//! guest ABI around the conversions are checked here.
use vstd::prelude::*;
use crate::cpu::ArmCpu;
use crate::error::Error;
use crate::guest_strings::GuestFault;
use crate::libc_services::{done_with, failed_with, service_matches, ServiceOutcome};
use crate::memory::{address_overflow_text, Access, GuestAddr, GuestMemory, MemView};
use crate::text::{dec_text, decimal};

verus! {

/// The longest UCS-2 input the conversion service takes, in bytes.
pub const MAX_CONVERSION_INPUT: usize = 65536;

/// Every byte is an ASCII byte.
pub open spec fn is_ascii_bytes(bytes: Seq<u8>) -> bool {
    forall|i: int| 0 <= i < bytes.len() ==> #[trigger] bytes[i] < 0x80
}

/// The characters the ASCII bytes stand for.
pub open spec fn ascii_chars(bytes: Seq<u8>) -> Seq<char> {
    bytes.map_values(|b: u8| b as char)
}

/// The text `encoding_rs` decodes from `bytes` as GBK (with its BOM
/// sniffing and replacement of malformed sequences).
pub uninterp spec fn gbk_decoded(bytes: Seq<u8>) -> Seq<char>;

/// The bytes `encoding_rs` encodes `text` into as GBK.
pub uninterp spec fn gbk_encoded(text: Seq<char>) -> Seq<u8>;

/// The text `String::from_utf16_lossy` decodes from `units`: a leading
/// surrogate followed by a trailing one is the supplementary character they
/// encode, any other surrogate becomes U+FFFD, and every other unit is the
/// character with that code.
pub open spec fn utf16_lossy(units: Seq<u16>) -> Seq<char>
    decreases units.len(),
{
    if units.len() == 0 {
        Seq::empty()
    } else {
        let u = units[0];
        if 0xd800 <= u < 0xdc00 && units.len() >= 2 && 0xdc00 <= units[1] < 0xe000 {
            seq![(0x10000 + (u - 0xd800) * 1024 + (units[1] - 0xdc00)) as char] + utf16_lossy(
                units.skip(2),
            )
        } else if 0xd800 <= u < 0xe000 {
            seq!['\u{fffd}'] + utf16_lossy(units.drop_first())
        } else {
            seq![u as char] + utf16_lossy(units.drop_first())
        }
    }
}

/// `encoding_rs::GBK.decode`, as characters.  The result is named; the one
/// fact stated is the one the crate documents: ASCII-only input decodes to
/// the same characters.
#[verifier::external_body]
fn decode_gbk(bytes: &[u8]) -> (r: Vec<char>)
    ensures
        r@ == gbk_decoded(bytes@),
        is_ascii_bytes(bytes@) ==> r@ == ascii_chars(bytes@),
{
    encoding_rs::GBK.decode(bytes).0.chars().collect()
}

/// `encoding_rs::GBK.encode` of the text of `text`.  The result is named;
/// the one fact stated is the one the crate's source shows: ASCII-only text
/// encodes to the same bytes.
#[verifier::external_body]
fn encode_gbk(text: &[char]) -> (r: Vec<u8>)
    ensures
        r@ == gbk_encoded(text@),
        forall|b: Seq<u8>| is_ascii_bytes(b) && text@ == ascii_chars(b) ==> r@ == b,
{
    let s: String = text.iter().collect();
    encoding_rs::GBK.encode(&s).0.into_owned()
}

/// `String::from_utf16_lossy`, as characters (see `utf16_lossy`).
#[verifier::external_body]
fn decode_utf16_lossy(units: &[u16]) -> (r: Vec<char>)
    ensures
        r@ == utf16_lossy(units@),
{
    String::from_utf16_lossy(units).chars().collect()
}

/// The UTF-16 code units of `c`: one below U+10000, else a surrogate pair.
pub open spec fn utf16_units(c: char) -> Seq<u16> {
    let v = c as u32;
    if v < 0x10000 {
        seq![v as u16]
    } else {
        let w = v - 0x10000;
        seq![(0xd800 + w / 1024) as u16, (0xdc00 + w % 1024) as u16]
    }
}

/// The UTF-16 code units of `text`.
pub open spec fn utf16_of(text: Seq<char>) -> Seq<u16>
    decreases text.len(),
{
    if text.len() == 0 {
        Seq::empty()
    } else {
        utf16_of(text.drop_last()) + utf16_units(text.last())
    }
}

/// Code units as big-endian byte pairs.
pub open spec fn be_bytes(units: Seq<u16>) -> Seq<u8>
    decreases units.len(),
{
    if units.len() == 0 {
        Seq::empty()
    } else {
        be_bytes(units.drop_last()) + seq![(units.last() / 256) as u8, (units.last() % 256) as u8]
    }
}

/// Big-endian byte pairs as code units; a last odd byte is ignored.
pub open spec fn be_units(bytes: Seq<u8>) -> Seq<u16> {
    Seq::new(bytes.len() / 2, |i: int| (bytes[2 * i] * 256 + bytes[2 * i + 1]) as u16)
}

fn push_unit(out: &mut Vec<u8>, unit: u16)
    ensures
        final(out)@ == old(out)@ + seq![(unit / 256) as u8, (unit % 256) as u8],
{
    out.push((unit / 256) as u8);
    out.push((unit % 256) as u8);
    assert(final(out)@ =~= old(out)@ + seq![(unit / 256) as u8, (unit % 256) as u8]);
}

proof fn lemma_be_bytes_append(units: Seq<u16>, more: Seq<u16>)
    ensures
        be_bytes(units + more) == be_bytes(units) + be_bytes(more),
    decreases more.len(),
{
    if more.len() == 0 {
        assert(units + more =~= units);
        assert(be_bytes(units) + be_bytes(more) =~= be_bytes(units));
    } else {
        lemma_be_bytes_append(units, more.drop_last());
        assert((units + more).drop_last() =~= units + more.drop_last());
        assert(be_bytes(units) + be_bytes(more) =~= be_bytes(units) + be_bytes(more.drop_last()) + seq![
            (more.last() / 256) as u8,
            (more.last() % 256) as u8,
        ]);
    }
}

proof fn lemma_be_bytes_one(u: u16)
    ensures
        be_bytes(seq![u]) == seq![(u / 256) as u8, (u % 256) as u8],
{
    assert(seq![u].drop_last() =~= Seq::<u16>::empty());
    assert(be_bytes(Seq::<u16>::empty()) == Seq::<u8>::empty());
    assert(be_bytes(seq![u]) =~= seq![(u / 256) as u8, (u % 256) as u8]);
}

/// A legacy (GBK) string as big-endian UCS-2 with a terminating zero unit.
pub fn encode_legacy_string_as_ucs2(legacy: &[u8]) -> (r: Vec<u8>)
    ensures
        r@ == be_bytes(utf16_of(gbk_decoded(legacy@))) + seq![0u8, 0u8],
{
    let text = decode_gbk(legacy);
    let mut out: Vec<u8> = Vec::new();
    let mut i: usize = 0;
    while i < text.len()
        invariant
            0 <= i <= text@.len(),
            text@ == gbk_decoded(legacy@),
            out@ == be_bytes(utf16_of(text@.take(i as int))),
        decreases text@.len() - i,
    {
        let v = text[i] as u32;
        let ghost before = utf16_of(text@.take(i as int));
        proof {
            assert(text@.take(i + 1).drop_last() =~= text@.take(i as int));
            assert(utf16_of(text@.take(i + 1)) == before + utf16_units(text@[i as int]));
            lemma_be_bytes_append(before, utf16_units(text@[i as int]));
        }
        if v < 0x10000 {
            push_unit(&mut out, v as u16);
            proof {
                let units = utf16_units(text@[i as int]);
                assert(units =~= seq![v as u16]);
                lemma_be_bytes_one(v as u16);
            }
        } else {
            let w = v - 0x10000;
            let high = (0xd800 + w / 1024) as u16;
            let low = (0xdc00 + w % 1024) as u16;
            push_unit(&mut out, high);
            push_unit(&mut out, low);
            proof {
                let units = utf16_units(text@[i as int]);
                assert(units =~= seq![high, low]);
                lemma_be_bytes_one(high);
                lemma_be_bytes_one(low);
                lemma_be_bytes_append(seq![high], seq![low]);
                assert(seq![high] + seq![low] =~= seq![high, low]);
            }
        }
        i += 1;
    }
    assert(text@.take(text@.len() as int) =~= text@);
    out.push(0);
    out.push(0);
    out
}

pub open spec fn long_input_text(len: nat) -> Seq<char> {
    "platform string conversion input is "@ + dec_text(len) + " bytes (limit 65536)"@
}

/// What the UCS-2 to legacy conversion service does (`r1` the UCS-2 input,
/// `r2` its length in bytes, `r3` the field holding the output address, the
/// stack word the output-length field): the input is decoded (unpaired
/// surrogates replaced), encoded as GBK, written with a terminating zero to
/// the output, and its length stored; `r0` is 0, or -1 when a field or the
/// input is missing or the length is odd.
pub open spec fn ucs2_to_legacy_service(c: crate::cpu_model::CpuView, m: MemView) -> ServiceOutcome {
    let input = c.regs[1];
    let input_len = c.regs[2];
    let output_field = c.regs[3];
    if input_len > MAX_CONVERSION_INPUT {
        failed_with(m, GuestFault::Limit(long_input_text(input_len as nat)))
    } else {
        match m.read_u32(c.regs[13]) {
            Err(t) => failed_with(m, GuestFault::Arm(t)),
            Ok(length_field) => if length_field == 0 {
                done_with(m, u32::MAX)
            } else {
                match m.write_u32(length_field, 0) {
                    Err(t) => failed_with(m, GuestFault::Arm(t)),
                    Ok(m1) => if output_field == 0 || input_len % 2 != 0 {
                        done_with(m1, u32::MAX)
                    } else {
                        match m1.read_u32(output_field) {
                            Err(t) => failed_with(m1, GuestFault::Arm(t)),
                            Ok(output) => if output == 0 || (input == 0 && input_len != 0) {
                                done_with(m1, u32::MAX)
                            } else {
                                match m1.load(input, input_len as nat, Access::Read) {
                                    Err(t) => failed_with(m1, GuestFault::Arm(t)),
                                    Ok(wide) => write_legacy(
                                        m1,
                                        output,
                                        length_field,
                                        gbk_encoded(utf16_lossy(be_units(wide))),
                                    ),
                                }
                            },
                        }
                    },
                }
            },
        }
    }
}

/// Writes `legacy` and a zero at `output` and its length at `length_field`.
pub open spec fn write_legacy(m: MemView, output: u32, length_field: u32, legacy: Seq<u8>) -> ServiceOutcome {
    match m.store(output, legacy) {
        Err(t) => failed_with(m, GuestFault::Arm(t)),
        Ok(m1) => if output + (legacy.len() as u32) > u32::MAX {
            failed_with(m1, GuestFault::Arm(address_overflow_text(output, legacy.len() as u32)))
        } else {
            match m1.store((output + (legacy.len() as u32)) as u32, seq![0u8]) {
                Err(t) => failed_with(m1, GuestFault::Arm(t)),
                Ok(m2) => if legacy.len() > u32::MAX {
                    failed_with(m2, GuestFault::Abi("converted platform string exceeds u32"@))
                } else {
                    match m2.write_u32(length_field, legacy.len() as u32) {
                        Err(t) => failed_with(m2, GuestFault::Arm(t)),
                        Ok(m3) => done_with(m3, 0),
                    }
                },
            }
        },
    }
}

/// Runs the UCS-2 to legacy conversion service for the guest.
pub fn convert_platform_ucs2_to_legacy(memory: &mut GuestMemory, cpu: &mut ArmCpu) -> (r: Result<
    (),
    Error,
>)
    requires
        old(memory).wf(),
    ensures
        final(memory).wf(),
        service_matches(
            r,
            old(cpu)@,
            final(cpu)@,
            final(memory)@,
            ucs2_to_legacy_service(old(cpu)@, old(memory)@),
        ),
{
    proof {
        cpu.lemma_wf();
        reveal_strlit("platform string conversion input is ");
        reveal_strlit(" bytes (limit 65536)");
        reveal_strlit("converted platform string exceeds u32");
    }
    let input = cpu.register(1);
    let input_len = cpu.register(2) as usize;
    let output_field = cpu.register(3);
    if input_len > MAX_CONVERSION_INPUT {
        let m = String::from_str("platform string conversion input is ").concat(
            decimal(input_len as u64).as_str(),
        ).concat(" bytes (limit 65536)");
        return Err(Error::ResourceLimit(m));
    }
    let length_field = match memory.read_u32(GuestAddr(cpu.register(13))) {
        Ok(v) => v,
        Err(e) => return Err(e),
    };
    if length_field == 0 {
        cpu.set_register(0, u32::MAX);
        return Ok(());
    }
    match memory.write_u32(GuestAddr(length_field), 0) {
        Ok(()) => {},
        Err(e) => return Err(e),
    }
    if output_field == 0 || input_len % 2 != 0 {
        cpu.set_register(0, u32::MAX);
        return Ok(());
    }
    let output = match memory.read_u32(GuestAddr(output_field)) {
        Ok(v) => v,
        Err(e) => return Err(e),
    };
    if output == 0 || (input == 0 && input_len != 0) {
        cpu.set_register(0, u32::MAX);
        return Ok(());
    }
    let wide = match memory.read(GuestAddr(input), input_len) {
        Ok(w) => w,
        Err(e) => return Err(e),
    };
    let mut units: Vec<u16> = Vec::new();
    let mut k: usize = 0;
    while k < wide.len() / 2
        invariant
            0 <= k <= wide@.len() / 2,
            units@ == be_units(wide@).take(k as int),
        decreases wide@.len() / 2 - k,
    {
        let unit = ((wide[2 * k] as u16) * 256 + wide[2 * k + 1] as u16) as u16;
        units.push(unit);
        k += 1;
        proof {
            assert(units@ =~= be_units(wide@).take(k as int));
        }
    }
    assert(units@ =~= be_units(wide@));
    let text = decode_utf16_lossy(units.as_slice());
    let legacy = encode_gbk(text.as_slice());
    match memory.write(GuestAddr(output), legacy.as_slice()) {
        Ok(()) => {},
        Err(e) => return Err(e),
    }
    let end = match GuestAddr(output).checked_add(legacy.len() as u32) {
        Ok(a) => a,
        Err(e) => return Err(e),
    };
    match memory.write_u8(end, 0) {
        Ok(()) => {},
        Err(e) => return Err(e),
    }
    if legacy.len() > u32::MAX as usize {
        return Err(Error::Abi(String::from_str("converted platform string exceeds u32")));
    }
    match memory.write_u32(GuestAddr(length_field), legacy.len() as u32) {
        Ok(()) => {},
        Err(e) => return Err(e),
    }
    cpu.set_register(0, 0);
    Ok(())
}

} // verus!
