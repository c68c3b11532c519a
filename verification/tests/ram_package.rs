use std::io::Write;

use flate2::write::GzEncoder;
use flate2::Compression;
use skyengine::error::Error;
use skyengine::ram_package::{
    check_expanded, check_ram_header, expand_ram_payload, read_compact_ram_package, read_le_u32,
};

fn gzip(data: &[u8]) -> Vec<u8> {
    let mut encoder = GzEncoder::new(Vec::new(), Compression::default());
    encoder.write_all(data).unwrap();
    encoder.finish().unwrap()
}

fn compact_image(name: &[u8; 4], payload: &[u8], declared_extra: u32) -> Vec<u8> {
    let mut image = b"MRPG".to_vec();
    image.extend_from_slice(&4u32.to_le_bytes());
    let declared = 24 + payload.len() as u32 + declared_extra;
    image.extend_from_slice(&declared.to_le_bytes());
    image.extend_from_slice(&4u32.to_le_bytes());
    image.extend_from_slice(name);
    image.extend_from_slice(&(payload.len() as u32).to_le_bytes());
    image.extend_from_slice(payload);
    image
}

#[test]
fn header_words_are_little_endian() {
    let bytes = [1, 2, 3, 4, 5, 6];
    assert_eq!(read_le_u32(&bytes, 0).unwrap(), 0x0403_0201);
    assert_eq!(read_le_u32(&bytes, 2).unwrap(), 0x0605_0403);
    assert!(matches!(
        read_le_u32(&bytes, 3),
        Err(Error::Package(ref m)) if m == "truncated RAM MRP u32 at 0x3"
    ));
    assert!(matches!(
        read_le_u32(&[0; 34], 0x1f),
        Err(Error::Package(ref m)) if m == "truncated RAM MRP u32 at 0x1f"
    ));
}

#[test]
fn stored_payloads_pass_through_and_gzip_is_expanded() {
    assert_eq!(expand_ram_payload(b"plain", 2).unwrap(), b"plain");
    let packed = gzip(b"hello, guest");
    assert_eq!(expand_ram_payload(&packed, 100).unwrap(), b"hello, guest");
    assert_eq!(expand_ram_payload(&packed, 12).unwrap(), b"hello, guest");
    assert!(matches!(
        expand_ram_payload(&packed, 11),
        Err(Error::ResourceLimit(ref m)) if m == "expanded RAM MRP payload exceeds 11 bytes"
    ));
    assert!(matches!(
        expand_ram_payload(&[0x1f, 0x8b, 0x08, 0, 0], 100),
        Err(Error::Package(ref m)) if m.starts_with("invalid RAM MRP gzip payload: ")
    ));
}

#[test]
fn decoder_results_are_checked_against_the_limit() {
    assert_eq!(check_expanded(Ok(vec![1, 2, 3]), 3).unwrap(), vec![1, 2, 3]);
    assert!(matches!(
        check_expanded(Ok(vec![1, 2, 3]), 2),
        Err(Error::ResourceLimit(ref m)) if m == "expanded RAM MRP payload exceeds 2 bytes"
    ));
    assert!(matches!(
        check_expanded(Err("bad".to_string()), 2),
        Err(Error::Package(ref m)) if m == "invalid RAM MRP gzip payload: bad"
    ));
}

#[test]
fn compact_ram_packages_hold_one_named_entry() {
    let image = compact_image(b"a.mr", b"payload", 0);
    assert!(check_ram_header(&image).unwrap());
    assert_eq!(
        read_compact_ram_package(&image, b"a.mr", 1024).unwrap(),
        Some(b"payload".to_vec())
    );
    assert_eq!(read_compact_ram_package(&image, b"b.mr", 1024).unwrap(), None);

    let short = compact_image(b"ab\0\0", &gzip(b"zipped"), 0);
    assert_eq!(
        read_compact_ram_package(&short, b"ab", 1024).unwrap(),
        Some(b"zipped".to_vec())
    );
    assert_eq!(read_compact_ram_package(&short, b"ab\0", 1024).unwrap(), None);

    let empty_name = compact_image(b"\0xyz", b"p", 0);
    assert_eq!(read_compact_ram_package(&empty_name, b"", 1024).unwrap(), None);

    let mut lying = compact_image(b"a.mr", b"payload", 0);
    lying[8..12].copy_from_slice(&20u32.to_le_bytes());
    assert!(matches!(
        read_compact_ram_package(&lying, b"a.mr", 1024),
        Err(Error::Package(ref m))
            if m == "compact RAM MRP payload 0x18..0x1f exceeds declared length 20"
    ));
}

#[test]
fn ram_images_need_the_mrpg_header() {
    assert!(matches!(
        check_ram_header(b"MRPG"),
        Err(Error::Package(ref m)) if m == "RAM-backed MRP is missing its 24-byte MRPG header"
    ));
    assert!(check_ram_header(&[0; 24]).is_err());
    let mut full = compact_image(b"a.mr", b"x", 0);
    full[4..8].copy_from_slice(&240u32.to_le_bytes());
    assert!(!check_ram_header(&full).unwrap());
}
