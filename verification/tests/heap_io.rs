use std::collections::BTreeMap;

use skyengine::heap::FreeBlock;
use skyengine::heap_io::{guest_heap_state, read_free_blocks, write_free_blocks, GuestHeapSnapshot};
use skyengine::memory::{GuestAddr, GuestMemory, Permissions};

const BASE: u32 = 0x2000_0000;
const TABLE: u32 = 0x0100_0000;
const DATA: u32 = 0x0100_1000;

fn block(offset: u32, len: u32) -> FreeBlock {
    FreeBlock { offset, len }
}

fn data_slot(slot: u32) -> u32 {
    DATA + slot * 4
}

/// A heap of `span` bytes at `BASE` with the platform slots pointing at it.
fn heap_memory(span: u32, head: u32, free_left: u32) -> GuestMemory {
    let mut memory = GuestMemory::new();
    memory.map(GuestAddr(TABLE), 0x1000, Permissions::READ_WRITE, "table").unwrap();
    memory.map(GuestAddr(DATA), 0x1000, Permissions::READ_WRITE, "data").unwrap();
    memory.map(GuestAddr(BASE), 0x1000, Permissions::READ_WRITE, "heap").unwrap();
    for slot in [108, 110, 111, 146] {
        memory.write_u32(GuestAddr(TABLE + slot * 4), data_slot(slot)).unwrap();
    }
    memory.write_u32(GuestAddr(data_slot(108)), BASE).unwrap();
    memory.write_u32(GuestAddr(data_slot(110)), BASE + span).unwrap();
    memory.write_u32(GuestAddr(data_slot(146)), head).unwrap();
    memory.write_u32(GuestAddr(data_slot(111)), free_left).unwrap();
    memory
}

fn header(memory: &mut GuestMemory, offset: u32, next: u32, len: u32) {
    memory.write_u32(GuestAddr(BASE + offset), next).unwrap();
    memory.write_u32(GuestAddr(BASE + offset + 4), len).unwrap();
}

#[test]
fn the_heap_state_comes_from_the_platform_slots() {
    let memory = heap_memory(0x100, 0x10, 0x30);
    let heap = guest_heap_state(&memory).unwrap();
    assert_eq!((heap.base, heap.span, heap.head, heap.free_left), (BASE, 0x100, 0x10, 0x30));
    assert_eq!(heap.head_variable, data_slot(146));
    assert_eq!(heap.free_left_variable, data_slot(111));
    let memory = heap_memory(4, 0, 0);
    assert_eq!(
        guest_heap_state(&memory).unwrap_err().to_string(),
        "active guest heap 0x20000000..0x20000004 is too small"
    );
    let memory = heap_memory(0x100, 0x104, 0);
    assert_eq!(
        guest_heap_state(&memory).unwrap_err().to_string(),
        "guest free-list head 0x104 exceeds heap span 0x100"
    );
}

#[test]
fn a_written_free_list_reads_back() {
    let mut memory = heap_memory(0x100, 0, 0);
    let heap = guest_heap_state(&memory).unwrap();
    let blocks = [block(0x10, 0x10), block(0x40, 0x20)];
    let snapshot = write_free_blocks(&mut memory, heap, &blocks, 0x100, 0x30).unwrap();
    assert_eq!(snapshot.head, 0x10);
    assert_eq!(memory.read_u32(GuestAddr(BASE + 0x10)).unwrap(), 0x40);
    assert_eq!(memory.read_u32(GuestAddr(BASE + 0x44)).unwrap(), 0x20);
    let heap = guest_heap_state(&memory).unwrap();
    assert_eq!((heap.head, heap.free_left), (0x10, 0x30));
    let (read, terminator, recovered) =
        read_free_blocks(&memory, heap, &None, &BTreeMap::new()).unwrap();
    assert_eq!(read, blocks.to_vec());
    assert_eq!((terminator, recovered), (0x100, 0));
}

#[test]
fn bad_free_lists_are_not_written() {
    let mut memory = heap_memory(0x100, 0, 0);
    let heap = guest_heap_state(&memory).unwrap();
    assert_eq!(
        write_free_blocks(&mut memory, heap, &[], 0x200, 0).unwrap_err().to_string(),
        "guest free-list terminator 0x200 exceeds heap span 0x100"
    );
    assert_eq!(
        write_free_blocks(&mut memory, heap, &[block(0x10, 0x20), block(0x20, 0x10)], 0x100, 0)
            .unwrap_err()
            .to_string(),
        "guest free block at offset 0x20 overlaps the preceding range ending at 0x30"
    );
    assert_eq!(memory.read_u32(GuestAddr(BASE + 0x10)).unwrap(), 0);
}

fn read_error(memory: &GuestMemory) -> String {
    let heap = guest_heap_state(memory).unwrap();
    read_free_blocks(memory, heap, &None, &BTreeMap::new()).unwrap_err().to_string()
}

#[test]
fn broken_free_lists_are_reported() {
    let mut memory = heap_memory(0x100, 0x10, 0);
    header(&mut memory, 0x10, 0x10, 0x10);
    assert_eq!(read_error(&memory), "guest free-list contains a cycle at offset 0x10");
    header(&mut memory, 0x10, 0x100, 4);
    assert_eq!(
        read_error(&memory),
        "guest free block at offset 0x10 has invalid length 0x4 for heap span 0x100"
    );
    header(&mut memory, 0x10, 0x200, 0x10);
    assert_eq!(read_error(&memory), "guest free block at offset 0x10 has invalid next offset 0x200");
    let memory = heap_memory(0x100, 0xfc, 0);
    assert_eq!(read_error(&memory), "guest free-list offset 0xfc is outside heap span 0x100");
}

#[test]
fn a_zeroed_header_ends_the_list() {
    let memory = heap_memory(0x100, 0x10, 0);
    let heap = guest_heap_state(&memory).unwrap();
    let (read, terminator, recovered) =
        read_free_blocks(&memory, heap, &None, &BTreeMap::new()).unwrap();
    assert!(read.is_empty());
    assert_eq!((terminator, recovered), (0x10, 0));
}

fn snapshot(head: u32, free_left: u32, blocks: &[FreeBlock]) -> Option<GuestHeapSnapshot> {
    Some(GuestHeapSnapshot {
        base: BASE,
        span: 0x100,
        head,
        free_left,
        blocks: blocks.to_vec(),
        terminator: 0x100,
    })
}

#[test]
fn a_withdrawn_first_block_is_recovered_from_the_snapshot() {
    let mut memory = heap_memory(0x100, 0x10, 0x20);
    header(&mut memory, 0x40, 0x100, 0x20);
    let heap = guest_heap_state(&memory).unwrap();
    let known = snapshot(0x10, 0x30, &[block(0x10, 0x10), block(0x40, 0x20)]);
    let (read, terminator, recovered) =
        read_free_blocks(&memory, heap, &known, &BTreeMap::new()).unwrap();
    assert_eq!(read, vec![block(0x40, 0x20)]);
    assert_eq!((terminator, recovered), (0x100, 0));
}

#[test]
fn a_header_under_the_ram_package_is_recovered_from_the_snapshot() {
    let mut memory = heap_memory(0x100, 0x10, 0x30);
    header(&mut memory, 0x10, 0x100, 2);
    memory.write_u32(GuestAddr(data_slot(104)), BASE + 0x10).unwrap();
    memory.write_u32(GuestAddr(data_slot(105)), 0x10).unwrap();
    let heap = guest_heap_state(&memory).unwrap();
    let known = snapshot(0x10, 0x30, &[block(0x10, 0x30)]);
    let (read, terminator, recovered) =
        read_free_blocks(&memory, heap, &known, &BTreeMap::new()).unwrap();
    assert_eq!(read, vec![block(0x20, 0x20)]);
    assert_eq!((terminator, recovered), (0x100, 0x10));
}

#[test]
fn a_returned_wrapper_payload_keeps_its_length_header() {
    let mut memory = heap_memory(0x100, 0x10, 0x54);
    header(&mut memory, 0x10, 0x40, 0x34);
    header(&mut memory, 0x40, 0x100, 0x20);
    let heap = guest_heap_state(&memory).unwrap();
    let known = snapshot(0x10, 0x20, &[block(0x40, 0x20)]);
    let mut allocations = BTreeMap::new();
    allocations.insert(BASE + 0x0c, 0x34);
    let (read, terminator, recovered) =
        read_free_blocks(&memory, heap, &known, &allocations).unwrap();
    assert_eq!(read, vec![block(0x10, 0x30), block(0x40, 0x20)]);
    assert_eq!((terminator, recovered), (0x100, 4));
    assert_eq!(
        read_free_blocks(&memory, heap, &known, &BTreeMap::new()).unwrap_err().to_string(),
        "guest free block at offset 0x40 overlaps the preceding range ending at 0x44"
    );
}
