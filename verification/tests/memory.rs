use skyengine::error::Error;
use skyengine::memory::{GuestAddr, GuestMemory, Permissions};

fn memory() -> GuestMemory {
    let mut memory = GuestMemory::new();
    memory
        .map(GuestAddr(0x1000), 0x100, Permissions::READ_WRITE, "data")
        .unwrap();
    memory
        .map_bytes(GuestAddr(0x2000), vec![1, 2, 3, 4], Permissions::READ, "rom")
        .unwrap();
    memory
}

#[test]
fn a_write_reads_back_and_leaves_its_neighbours() {
    let mut memory = memory();
    memory.write_u32(GuestAddr(0x1010), 0xdead_beef).unwrap();
    assert_eq!(memory.read_u32(GuestAddr(0x1010)).unwrap(), 0xdead_beef);
    assert_eq!(memory.read_u8(GuestAddr(0x1010)).unwrap(), 0xef);
    assert_eq!(memory.read_u16(GuestAddr(0x1012)).unwrap(), 0xdead);
    assert_eq!(memory.read_u8(GuestAddr(0x100f)).unwrap(), 0);
    assert_eq!(memory.read_u8(GuestAddr(0x1014)).unwrap(), 0);
    memory.write(GuestAddr(0x10fe), &[9, 8]).unwrap();
    assert_eq!(memory.read(GuestAddr(0x10fd), 3).unwrap(), vec![0, 9, 8]);
}

#[test]
fn a_mapping_reads_back_the_bytes_it_was_made_with() {
    let memory = memory();
    assert_eq!(memory.read(GuestAddr(0x2000), 4).unwrap(), vec![1, 2, 3, 4]);
    assert_eq!(memory.read_u32(GuestAddr(0x2000)).unwrap(), 0x0403_0201);
}

#[test]
fn refused_accesses_fault_and_change_nothing() {
    let mut memory = memory();
    assert!(matches!(
        memory.write_u8(GuestAddr(0x2000), 7),
        Err(Error::ArmFault(_))
    ));
    assert_eq!(memory.read_u8(GuestAddr(0x2000)).unwrap(), 1);
    assert!(matches!(
        memory.write(GuestAddr(0x10ff), &[1, 2]),
        Err(Error::ArmFault(_))
    ));
    assert_eq!(memory.read_u8(GuestAddr(0x10ff)).unwrap(), 0);
    assert!(memory.read_u8(GuestAddr(0x3000)).is_err());
    assert!(memory.fetch_u16(GuestAddr(0x1000)).is_err());
}

#[test]
fn mappings_must_not_overlap_or_be_empty() {
    let mut memory = memory();
    let error = memory
        .map(GuestAddr(0x10ff), 2, Permissions::READ, "late")
        .unwrap_err();
    assert_eq!(
        error.to_string(),
        "guest mapping late at 0x000010ff overlaps an existing mapping"
    );
    assert_eq!(
        memory
            .map(GuestAddr(0x5000), 0, Permissions::READ, "none")
            .unwrap_err()
            .to_string(),
        "guest mapping none is empty"
    );
    assert_eq!(
        memory
            .map(GuestAddr(0xffff_fff0), 0x20, Permissions::READ, "top")
            .unwrap_err()
            .to_string(),
        "guest mapping top at 0xfffffff0 exceeds the address space"
    );
    assert!(memory.is_mapped(GuestAddr(0x1000), 0x100));
    assert!(!memory.is_mapped(GuestAddr(0x1000), 0x101));
}

#[test]
fn guest_addresses_refuse_to_wrap() {
    assert_eq!(GuestAddr(0x10).checked_add(0x20).unwrap(), GuestAddr(0x30));
    assert_eq!(
        GuestAddr(0xffff_ffff).checked_add(1).unwrap_err().to_string(),
        "guest address 0xffffffff + 0x00000001 overflows"
    );
}
