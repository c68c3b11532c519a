use skyengine::md5::{md5_consume, md5_transform};
use skyengine::md5_service::{md5_append, md5_finish, md5_init};
use skyengine::error::Error;
use skyengine::memory::{GuestAddr, GuestMemory, Permissions};

fn hex(bytes: &[u8]) -> String {
    bytes.iter().map(|b| format!("{b:02x}")).collect()
}

fn memory() -> GuestMemory {
    let mut memory = GuestMemory::new();
    memory
        .map(GuestAddr(0x4000), 0x200, Permissions::READ_WRITE, "md5 data")
        .unwrap();
    memory
}

fn digest_of(chunks: &[&[u8]]) -> String {
    let mut memory = memory();
    md5_init(&mut memory, GuestAddr(0x4000)).unwrap();
    for chunk in chunks {
        md5_append(&mut memory, GuestAddr(0x4000), chunk).unwrap();
    }
    md5_finish(&mut memory, GuestAddr(0x4000), GuestAddr(0x4100)).unwrap();
    hex(&memory.read(GuestAddr(0x4100), 16).unwrap())
}

#[test]
fn guest_md5_matches_the_standard_test_vectors() {
    assert_eq!(digest_of(&[]), "d41d8cd98f00b204e9800998ecf8427e");
    assert_eq!(digest_of(&[b"abc"]), "900150983cd24fb0d6963f7d28e17f72");
    assert_eq!(
        digest_of(&[b"The quick brown fox jumps over the lazy dog"]),
        "9e107d9d372bb6826bd81d3542a419d6"
    );
}

#[test]
fn guest_md5_does_not_depend_on_how_the_input_is_split() {
    let data: Vec<u8> = (0..768).map(|i| (i % 256) as u8).collect();
    let whole = digest_of(&[&data]);
    assert_eq!(whole, "e6899eaaf06fd702f3ed3f988eb19362");
    assert_eq!(digest_of(&[&data[..1], &data[1..63], &data[63..64], &data[64..]]), whole);
    assert_eq!(digest_of(&[&data[..300], &[], &data[300..]]), whole);
    let pieces: Vec<&[u8]> = data.chunks(7).collect();
    assert_eq!(digest_of(&pieces), whole);
    assert_eq!(digest_of(&[]), "d41d8cd98f00b204e9800998ecf8427e");
    assert_eq!(digest_of(&[b"a", b"b", b"c"]), "900150983cd24fb0d6963f7d28e17f72");
    let hundred = vec![b'a'; 100];
    assert_eq!(
        digest_of(&[&hundred[..55], &hundred[55..56], &hundred[56..]]),
        "36a92cc94a9e0fa21f625f8bfb007adf"
    );
}

#[test]
fn md5_context_layout_is_byte_count_state_and_buffer() {
    let mut memory = memory();
    md5_init(&mut memory, GuestAddr(0x4000)).unwrap();
    let image = memory.read(GuestAddr(0x4000), 88).unwrap();
    assert_eq!(&image[..8], &[0; 8]);
    assert_eq!(
        &image[8..24],
        &[
            0x01, 0x23, 0x45, 0x67, 0x89, 0xab, 0xcd, 0xef, 0xfe, 0xdc, 0xba, 0x98, 0x76, 0x54,
            0x32, 0x10
        ]
    );
    assert_eq!(&image[24..], &[0; 64][..]);
    md5_append(&mut memory, GuestAddr(0x4000), b"abc").unwrap();
    let image = memory.read(GuestAddr(0x4000), 88).unwrap();
    assert_eq!(&image[..8], &[3, 0, 0, 0, 0, 0, 0, 0]);
    assert_eq!(&image[24..27], b"abc");
}

#[test]
fn md5_byte_count_overflow_is_refused_and_changes_nothing() {
    let mut memory = memory();
    md5_init(&mut memory, GuestAddr(0x4000)).unwrap();
    memory.write_u32(GuestAddr(0x4000), u32::MAX).unwrap();
    memory.write_u32(GuestAddr(0x4004), u32::MAX).unwrap();
    let before = memory.read(GuestAddr(0x4000), 88).unwrap();
    let error = md5_append(&mut memory, GuestAddr(0x4000), b"x").unwrap_err();
    assert!(matches!(error, Error::Abi(ref m) if m == "MD5 byte count overflow"));
    assert_eq!(memory.read(GuestAddr(0x4000), 88).unwrap(), before);
}

#[test]
fn md5_context_outside_memory_faults() {
    let mut memory = memory();
    assert!(matches!(
        md5_init(&mut memory, GuestAddr(0x9000)),
        Err(Error::ArmFault(_))
    ));
    assert!(matches!(
        md5_finish(&mut memory, GuestAddr(0x9000), GuestAddr(0x4100)),
        Err(Error::ArmFault(_))
    ));
}

#[test]
fn md5_consume_keeps_the_incomplete_tail() {
    let mut state = [0x6745_2301, 0xefcd_ab89, 0x98ba_dcfe, 0x1032_5476];
    let mut buffer = [0u8; 64];
    let kept = md5_consume(&mut state, &mut buffer, 0, &[7u8; 70]);
    assert_eq!(kept, 6);
    assert_eq!(&buffer[..6], &[7u8; 6]);
    let mut expected = [0x6745_2301, 0xefcd_ab89, 0x98ba_dcfe, 0x1032_5476];
    md5_transform(&mut expected, &[7u8; 64]);
    assert_eq!(state, expected);
    assert_ne!(state, [0x6745_2301, 0xefcd_ab89, 0x98ba_dcfe, 0x1032_5476]);
}
