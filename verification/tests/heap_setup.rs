use std::collections::BTreeMap;

use skyengine::heap::FreeBlock;
use skyengine::heap_io::{guest_heap_state, read_free_blocks};
use skyengine::heap_setup::{install_guest_heap, install_platform_table, write_words};
use skyengine::memory::{GuestAddr, GuestMemory, Permissions};

const TABLE: u32 = 0x0100_0000;
const DATA: u32 = 0x0100_1000;
const HEAP: u32 = 0x2000_0000;

fn platform_memory() -> GuestMemory {
    let mut memory = GuestMemory::new();
    memory.map(GuestAddr(TABLE), 0x1000, Permissions::READ_WRITE, "platform table").unwrap();
    memory.map(GuestAddr(DATA), 0x1000, Permissions::READ_WRITE, "platform data").unwrap();
    memory.map(GuestAddr(HEAP), 0x0080_0000, Permissions::READ_WRITE, "guest RAM").unwrap();
    for slot in 0..150u32 {
        memory.write_u32(GuestAddr(TABLE + slot * 4), DATA + slot * 4).unwrap();
    }
    memory
}

#[test]
fn a_fresh_heap_is_one_free_block() {
    let mut memory = platform_memory();
    install_guest_heap(&mut memory, 0x0040_0000).unwrap();
    let heap = guest_heap_state(&memory).unwrap();
    assert_eq!((heap.base, heap.span, heap.head, heap.free_left), (HEAP, 0x0040_0000, 0, 0x0040_0000));
    assert_eq!(memory.read_u32(GuestAddr(DATA + 109 * 4)).unwrap(), 0x0040_0000);
    let (blocks, terminator, recovered) =
        read_free_blocks(&memory, heap, &None, &BTreeMap::new()).unwrap();
    assert_eq!(blocks, vec![FreeBlock { offset: 0, len: 0x0040_0000 }]);
    assert_eq!((terminator, recovered), (0x0040_0000, 0));
}

#[test]
fn writing_words_stops_at_the_first_refused_one() {
    let mut memory = platform_memory();
    let error = write_words(&mut memory, &[(DATA, 7), (0x9000_0000, 1), (DATA + 4, 9)]).unwrap_err();
    assert_eq!(
        error.to_string(),
        "guest memory write of 4 bytes at 0x90000000 is not permitted"
    );
    assert_eq!(memory.read_u32(GuestAddr(DATA)).unwrap(), 7);
    assert_eq!(memory.read_u32(GuestAddr(DATA + 4)).unwrap(), 0);
}

#[test]
fn the_platform_table_points_at_traps_and_data() {
    let mut memory = GuestMemory::new();
    memory.map(GuestAddr(TABLE), 0x1000, Permissions::READ_WRITE, "platform table").unwrap();
    install_platform_table(&mut memory).unwrap();
    let word = |slot: u32| memory.read_u32(GuestAddr(TABLE + slot * 4)).unwrap();
    assert_eq!(word(0), 0xff00_0000);
    assert_eq!(word(17), 0xff00_0044);
    assert_eq!(word(21), 0);
    assert_eq!(word(95), 0x0100_2000);
    assert_eq!(word(108), DATA + 108 * 4);
    assert_eq!(word(146), DATA + 146 * 4);
    assert_eq!(word(149), 0);
}

#[test]
fn a_filled_table_and_a_fresh_heap_read_back_as_one_block() {
    let mut memory = GuestMemory::new();
    memory.map(GuestAddr(TABLE), 0x1000, Permissions::READ_WRITE, "platform table").unwrap();
    memory.map(GuestAddr(DATA), 0x1000, Permissions::READ_WRITE, "platform data").unwrap();
    memory.map(GuestAddr(HEAP), 0x1000, Permissions::READ_WRITE, "guest RAM").unwrap();
    install_platform_table(&mut memory).unwrap();
    install_guest_heap(&mut memory, 0x800).unwrap();
    let heap = guest_heap_state(&memory).unwrap();
    let (blocks, _, _) = read_free_blocks(&memory, heap, &None, &BTreeMap::new()).unwrap();
    assert_eq!(blocks, vec![FreeBlock { offset: 0, len: 0x800 }]);
}
