//! The payload of a RAM-held package image: little-endian header fields and
//! the optional gzip expansion of the stored bytes.
use vstd::prelude::*;
use std::io::Read;
use crate::error::Error;
use crate::memory::le_u32;
use crate::parse::{bytes_equal, position_from};
use crate::text::{dec_text, decimal, hex_prefixed, hex_prefixed_text};

verus! {

pub open spec fn truncated_text(offset: nat) -> Seq<char> {
    "truncated RAM MRP u32 at "@ + hex_prefixed_text(offset)
}

/// The little-endian `u32` at `offset` of a package image.
pub fn read_le_u32(bytes: &[u8], offset: usize) -> (r: Result<u32, Error>)
    requires
        offset + 4 <= usize::MAX,
    ensures
        offset + 4 <= bytes@.len() ==> r == Ok::<u32, Error>(
            le_u32(bytes@.subrange(offset as int, offset + 4)),
        ),
        offset + 4 > bytes@.len() ==> (r matches Err(Error::Package(m)) && m@ == truncated_text(
            offset as nat,
        )),
{
    if offset + 4 > bytes.len() {
        return Err(
            Error::Package(
                String::from_str("truncated RAM MRP u32 at ").concat(
                    hex_prefixed(offset as u64).as_str(),
                ),
            ),
        );
    }
    proof {
        let sub = bytes@.subrange(offset as int, offset + 4);
        assert(sub[0] == bytes@[offset as int]);
        assert(sub[1] == bytes@[offset + 1]);
        assert(sub[2] == bytes@[offset + 2]);
        assert(sub[3] == bytes@[offset + 3]);
    }
    Ok(
        (bytes[offset] as u32) | ((bytes[offset + 1] as u32) << 8u32) | ((bytes[offset + 2] as u32)
            << 16u32) | ((bytes[offset + 3] as u32) << 24u32),
    )
}

/// What decoding the gzip member at the start of `stored` gives when at most
/// `cap` bytes of output are read: the bytes, or the text of the error.
pub uninterp spec fn gzip_read_limited(stored: Seq<u8>, cap: u64) -> Result<Seq<u8>, Seq<char>>;

/// Decodes the gzip member at the start of `stored` with
/// `flate2::read::GzDecoder`, reading at most `cap` output bytes through
/// `Read::take` and `Read::read_to_end`; a failure is reported by the
/// `Display` text of the I/O error.  The decoded bytes are named, not
/// spelled out; that `take` yields at most `cap` bytes is stated.
#[verifier::external_body]
fn gunzip_limited(stored: &[u8], cap: u64) -> (r: Result<Vec<u8>, String>)
    ensures
        match gzip_read_limited(stored@, cap) {
            Ok(d) => r matches Ok(v) && v@ == d,
            Err(t) => r matches Err(e) && e@ == t,
        },
        r matches Ok(v) ==> v@.len() <= cap,
{
    let mut output = Vec::new();
    match flate2::read::GzDecoder::new(stored).take(cap).read_to_end(&mut output) {
        Ok(_) => Ok(output),
        Err(error) => Err(format!("{error}")),
    }
}

/// Whether stored bytes begin with the gzip magic and the deflate method.
pub open spec fn is_gzip(stored: Seq<u8>) -> bool {
    stored.len() >= 3 && stored[0] == 0x1f && stored[1] == 0x8b && stored[2] == 0x08
}

/// The outcome of an expansion whose decoder gave `decoded`.
pub open spec fn expansion_matches(
    r: Result<Vec<u8>, Error>,
    decoded: Result<Seq<u8>, Seq<char>>,
    limit: usize,
) -> bool {
    match decoded {
        Err(t) => r matches Err(Error::Package(m)) && m@ == "invalid RAM MRP gzip payload: "@ + t,
        Ok(d) => if d.len() > limit {
            r matches Err(Error::ResourceLimit(m)) && m@ == "expanded RAM MRP payload exceeds "@
                + dec_text(limit as nat) + " bytes"@
        } else {
            r matches Ok(v) && v@ == d
        },
    }
}

/// Turns what the gzip decoder gave into the expanded payload: a decoding
/// error is a package error, and more than `limit` bytes a resource error.
pub fn check_expanded(decoded: Result<Vec<u8>, String>, limit: usize) -> (r: Result<Vec<u8>, Error>)
    ensures
        expansion_matches(
            r,
            match decoded {
                Ok(v) => Ok(v@),
                Err(e) => Err(e@),
            },
            limit,
        ),
{
    match decoded {
        Err(e) => Err(
            Error::Package(String::from_str("invalid RAM MRP gzip payload: ").concat(e.as_str())),
        ),
        Ok(output) => {
            if output.len() > limit {
                Err(
                    Error::ResourceLimit(
                        String::from_str("expanded RAM MRP payload exceeds ").concat(
                            decimal(limit as u64).as_str(),
                        ).concat(" bytes"),
                    ),
                )
            } else {
                Ok(output)
            }
        },
    }
}

/// The payload of a RAM package entry: gzip data is expanded, up to `limit`
/// bytes; anything else is the payload as stored.
pub fn expand_ram_payload(stored: &[u8], limit: usize) -> (r: Result<Vec<u8>, Error>)
    ensures
        !is_gzip(stored@) ==> (r matches Ok(v) && v@ == stored@),
        is_gzip(stored@) ==> expansion_matches(
            r,
            gzip_read_limited(stored@, (if limit as u64 == u64::MAX {
                u64::MAX
            } else {
                (limit + 1) as u64
            })),
            limit,
        ),
{
    if !(stored.len() >= 3 && stored[0] == 0x1f && stored[1] == 0x8b && stored[2] == 0x08) {
        return Ok(vstd::slice::slice_to_vec(stored));
    }
    let cap = (limit as u64).saturating_add(1);
    check_expanded(gunzip_limited(stored, cap), limit)
}

/// The little-endian `u32` at `offset` of an image.
pub open spec fn u32_at(image: Seq<u8>, offset: int) -> u32 {
    le_u32(image.subrange(offset, offset + 4))
}

/// An image that starts with the 24-byte `MRPG` header.
pub open spec fn has_ram_header(image: Seq<u8>) -> bool {
    image.len() >= 24 && image.take(4) == seq![0x4du8, 0x52u8, 0x50u8, 0x47u8]
}

/// The one-file form: a four-byte name and a four-byte stored length.
pub open spec fn is_compact_ram_image(image: Seq<u8>) -> bool {
    has_ram_header(image) && u32_at(image, 4) == 4 && u32_at(image, 12) == 4
}

/// Checks the header of a RAM package image and tells whether it has the
/// compact one-file form.
pub fn check_ram_header(image: &[u8]) -> (r: Result<bool, Error>)
    ensures
        !has_ram_header(image@) ==> (r matches Err(Error::Package(m)) && m@
            == "RAM-backed MRP is missing its 24-byte MRPG header"@),
        has_ram_header(image@) ==> r == Ok::<bool, Error>(is_compact_ram_image(image@)),
{
    if image.len() < 24 || !(image[0] == 0x4d && image[1] == 0x52 && image[2] == 0x50 && image[3]
        == 0x47) {
        proof {
            if image@.len() >= 24 {
                assert(image@.take(4)[0] == image@[0]);
                assert(image@.take(4)[1] == image@[1]);
                assert(image@.take(4)[2] == image@[2]);
                assert(image@.take(4)[3] == image@[3]);
            }
        }
        return Err(
            Error::Package(
                String::from_str("RAM-backed MRP is missing its 24-byte MRPG header"),
            ),
        );
    }
    assert(image@.take(4) =~= seq![0x4du8, 0x52u8, 0x50u8, 0x47u8]);
    let a = match read_le_u32(image, 4) {
        Ok(v) => v,
        Err(e) => return Err(e),
    };
    let b = match read_le_u32(image, 12) {
        Ok(v) => v,
        Err(e) => return Err(e),
    };
    Ok(a == 4 && b == 4)
}

/// `expansion_matches` for a lookup that found its entry.
pub open spec fn found_matches(
    r: Result<Option<Vec<u8>>, Error>,
    decoded: Result<Seq<u8>, Seq<char>>,
    limit: usize,
) -> bool {
    match decoded {
        Err(t) => r matches Err(Error::Package(m)) && m@ == "invalid RAM MRP gzip payload: "@ + t,
        Ok(d) => if d.len() > limit {
            r matches Err(Error::ResourceLimit(m)) && m@ == "expanded RAM MRP payload exceeds "@
                + dec_text(limit as nat) + " bytes"@
        } else {
            r matches Ok(Some(v)) && v@ == d
        },
    }
}

/// The name of a compact image: its four name bytes up to the first zero.
pub open spec fn compact_name(image: Seq<u8>) -> Seq<u8> {
    let field = image.subrange(16, 20);
    match position_from(field, 0u8, 0) {
        Some(i) => field.take(i),
        None => field,
    }
}

pub open spec fn payload_range_text(end: nat, declared: nat) -> Seq<char> {
    "compact RAM MRP payload 0x18.."@ + hex_prefixed_text(end) + " exceeds declared length "@
        + dec_text(declared)
}

/// Reads the entry `name` of a compact RAM image: `None` when the image
/// holds another name; its payload, expanded up to `limit` bytes, when the
/// payload lies inside the declared length.
pub fn read_compact_ram_package(image: &[u8], name: &[u8], limit: usize) -> (r: Result<
    Option<Vec<u8>>,
    Error,
>)
    requires
        is_compact_ram_image(image@),
    ensures
        ({
            let cn = compact_name(image@);
            let declared = u32_at(image@, 8) as int;
            let end = 24 + u32_at(image@, 20);
            if cn.len() == 0 || name@ != cn {
                r matches Ok(None)
            } else if end > usize::MAX {
                r matches Err(Error::Package(m)) && m@ == "compact RAM MRP payload range overflow"@
            } else if declared > image@.len() || end > declared {
                r matches Err(Error::Package(m)) && m@ == payload_range_text(end as nat, declared as nat)
            } else {
                let payload = image@.subrange(24, end);
                &&& !is_gzip(payload) ==> (r matches Ok(Some(v)) && v@ == payload)
                &&& is_gzip(payload) ==> found_matches(
                    r,
                    gzip_read_limited(payload, (if limit as u64 == u64::MAX {
                        u64::MAX
                    } else {
                        (limit + 1) as u64
                    })),
                    limit,
                )
            }
        }),
{
    let mut end: usize = 16;
    while end < 20 && image[end] != 0
        invariant
            16 <= end <= 20,
            image@.len() >= 24,
            forall|k: int| 16 <= k < end ==> image@[k] != 0,
        decreases 20 - end,
    {
        end += 1;
    }
    proof {
        let field = image@.subrange(16, 20);
        assert forall|from: int| 0 <= from <= end - 16 implies position_from(field, 0u8, from) == (
        if end < 20 {
            Some(end - 16)
        } else {
            None::<int>
        }) by {
            lemma_position_of_first_zero(field, from, end - 16);
        }
        if end < 20 {
            assert(field.take(end - 16) =~= image@.subrange(16, end as int));
        } else {
            assert(field =~= image@.subrange(16, end as int));
        }
    }
    let candidate = &image[16..end];
    if end == 16 || !bytes_equal(name, candidate) {
        return Ok(None);
    }
    let declared = match read_le_u32(image, 8) {
        Ok(v) => v as usize,
        Err(e) => return Err(e),
    };
    let stored = match read_le_u32(image, 20) {
        Ok(v) => v as usize,
        Err(e) => return Err(e),
    };
    let payload_end = match 24usize.checked_add(stored) {
        Some(e) => e,
        None => return Err(
            Error::Package(String::from_str("compact RAM MRP payload range overflow")),
        ),
    };
    if declared > image.len() || payload_end > declared {
        return Err(
            Error::Package(
                String::from_str("compact RAM MRP payload 0x18..").concat(
                    hex_prefixed(payload_end as u64).as_str(),
                ).concat(" exceeds declared length ").concat(decimal(declared as u64).as_str()),
            ),
        );
    }
    match expand_ram_payload(&image[24..payload_end], limit) {
        Ok(v) => Ok(Some(v)),
        Err(e) => Err(e),
    }
}

/// The first zero of `s` at or after `from` is at `z` (or there is none,
/// `z == s.len()`), when none lies between.
proof fn lemma_position_of_first_zero(s: Seq<u8>, from: int, z: int)
    requires
        0 <= from <= z <= s.len(),
        forall|k: int| from <= k < z ==> s[k] != 0,
        z < s.len() ==> s[z] == 0,
    ensures
        position_from(s, 0u8, from) == (if z < s.len() {
            Some(z)
        } else {
            None::<int>
        }),
    decreases z - from,
{
    if from < z {
        lemma_position_of_first_zero(s, from + 1, z);
    }
}

} // verus!
