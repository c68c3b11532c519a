use skyengine::error::Error;
use skyengine::guest_strings::{
    platform_data_slot_address, read_c_string, read_c_string_bounded, read_platform_data_slot,
    read_wide_string_be, write_directory_entry,
};
use skyengine::memory::{GuestAddr, GuestMemory, Permissions};

fn memory() -> GuestMemory {
    let mut memory = GuestMemory::new();
    memory
        .map(GuestAddr(0x1000), 0x40, Permissions::READ_WRITE, "strings")
        .unwrap();
    memory
        .map(GuestAddr(0x0100_0000), 0x400, Permissions::READ_WRITE, "table")
        .unwrap();
    memory
}

#[test]
fn c_strings_stop_at_their_terminator() {
    let mut memory = memory();
    memory.write(GuestAddr(0x1000), b"hello\0world").unwrap();
    assert_eq!(read_c_string(&memory, GuestAddr(0x1000), 16).unwrap(), b"hello");
    assert_eq!(read_c_string(&memory, GuestAddr(0x1005), 16).unwrap(), b"");
    assert_eq!(
        read_c_string(&memory, GuestAddr(0x1000), 5).unwrap_err().to_string(),
        "guest C string at 0x00001000 exceeds 5 bytes"
    );
    memory.write(GuestAddr(0x1030), &[b'x'; 16]).unwrap();
    assert!(matches!(
        read_c_string(&memory, GuestAddr(0x1030), 100),
        Err(Error::ArmFault(_))
    ));
}

#[test]
fn bounded_c_strings_read_a_fixed_span() {
    let mut memory = memory();
    memory.write(GuestAddr(0x1000), b"ab\0cd").unwrap();
    assert_eq!(read_c_string_bounded(&memory, GuestAddr(0x1000), 5).unwrap(), b"ab");
    assert_eq!(read_c_string_bounded(&memory, GuestAddr(0x1000), 2).unwrap(), b"ab");
    assert_eq!(read_c_string_bounded(&memory, GuestAddr(0x9000), 0).unwrap(), b"");
    assert!(read_c_string_bounded(&memory, GuestAddr(0x103f), 2).is_err());
}

#[test]
fn wide_strings_are_big_endian_units() {
    let mut memory = memory();
    memory
        .write(GuestAddr(0x1000), &[0x4e, 0x2d, 0x00, 0x41, 0x00, 0x00])
        .unwrap();
    assert_eq!(
        read_wide_string_be(&memory, GuestAddr(0x1000), 8).unwrap(),
        vec![0x4e2d, 0x0041]
    );
    assert_eq!(
        read_wide_string_be(&memory, GuestAddr(0x1000), 2).unwrap_err().to_string(),
        "guest wide string at 0x00001000 exceeds 2 code units"
    );
}

#[test]
fn directory_entries_need_room_for_the_terminator() {
    let mut memory = memory();
    memory.write(GuestAddr(0x1000), &[0xff; 8]).unwrap();
    assert!(!write_directory_entry(&mut memory, GuestAddr(0x1000), 3, b"abc").unwrap());
    assert!(!write_directory_entry(&mut memory, GuestAddr(0), 30, b"abc").unwrap());
    assert_eq!(memory.read(GuestAddr(0x1000), 4).unwrap(), vec![0xff; 4]);
    assert!(write_directory_entry(&mut memory, GuestAddr(0x1000), 4, b"abc").unwrap());
    assert_eq!(memory.read(GuestAddr(0x1000), 5).unwrap(), b"abc\0\xff");
    assert!(write_directory_entry(&mut memory, GuestAddr(0x2000), 4, b"abc").is_err());
}

#[test]
fn platform_data_slots_point_at_their_variables() {
    let mut memory = memory();
    memory.write_u32(GuestAddr(0x0100_0000 + 4 * 91), 0x1010).unwrap();
    memory.write_u32(GuestAddr(0x1010), 77).unwrap();
    assert_eq!(platform_data_slot_address(&memory, 91).unwrap(), GuestAddr(0x1010));
    assert_eq!(read_platform_data_slot(&memory, 91).unwrap(), 77);
    assert_eq!(
        read_platform_data_slot(&memory, 92).unwrap_err().to_string(),
        "platform data slot 92 contains a null variable address"
    );
}
