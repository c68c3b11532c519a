use std::collections::BTreeMap;

use skyengine::heap::FreeBlock;
use skyengine::heap_io::{guest_heap_state, read_free_blocks};
use skyengine::heap_reserve::{
    locate_reservation, plan_heap_reservation, reserve_guest_heap_range, Reservation,
};
use skyengine::memory::{GuestAddr, GuestMemory, Permissions};

const BASE: u32 = 0x2000_0000;
const TABLE: u32 = 0x0100_0000;
const DATA: u32 = 0x0100_1000;

fn block(offset: u32, len: u32) -> FreeBlock {
    FreeBlock { offset, len }
}

fn data_slot(slot: u32) -> u32 {
    DATA + slot * 4
}

/// A heap of `span` bytes at `BASE` with the platform slots pointing at it.
fn heap_memory(span: u32, head: u32, free_left: u32) -> GuestMemory {
    let mut memory = GuestMemory::new();
    memory.map(GuestAddr(TABLE), 0x1000, Permissions::READ_WRITE, "table").unwrap();
    memory.map(GuestAddr(DATA), 0x1000, Permissions::READ_WRITE, "data").unwrap();
    memory.map(GuestAddr(BASE), 0x1000, Permissions::READ_WRITE, "heap").unwrap();
    for slot in [108, 110, 111, 146] {
        memory.write_u32(GuestAddr(TABLE + slot * 4), data_slot(slot)).unwrap();
    }
    memory.write_u32(GuestAddr(data_slot(108)), BASE).unwrap();
    memory.write_u32(GuestAddr(data_slot(110)), BASE + span).unwrap();
    memory.write_u32(GuestAddr(data_slot(146)), head).unwrap();
    memory.write_u32(GuestAddr(data_slot(111)), free_left).unwrap();
    memory
}

fn reserved(r: Reservation) -> (Vec<FreeBlock>, u32, u32) {
    match r {
        Reservation::Reserved { blocks, free_left, reclaim_len } => (blocks, free_left, reclaim_len),
        other => panic!("expected a reservation, got {other:?}"),
    }
}

#[test]
fn a_range_inside_a_block_keeps_both_sides_free() {
    let blocks = [block(0x10, 0x30)];
    let plan = plan_heap_reservation(BASE + 0x20, 0x10, 0x20, 0x30, &blocks, 0).unwrap();
    assert_eq!(
        reserved(plan),
        (vec![block(0x10, 0x10), block(0x30, 0x10)], 0x20, 0x10)
    );
}

#[test]
fn parts_shorter_than_a_header_leave_the_list() {
    let blocks = [block(0x10, 0x30)];
    // A four-byte prefix is dropped; the allocation starts at the range.
    let plan = plan_heap_reservation(BASE + 0x14, 0x10, 0x14, 0x30, &blocks, 0).unwrap();
    assert_eq!(reserved(plan), (vec![block(0x24, 0x1c)], 0x1c, 0x10));
    // A four-byte suffix is dropped and tracked with the allocation.
    let plan = plan_heap_reservation(BASE + 0x10, 0x2c, 0x10, 0x30, &blocks, 0).unwrap();
    assert_eq!(reserved(plan), (vec![], 0, 0x30));
}

#[test]
fn a_range_not_held_by_one_block_is_refused() {
    let blocks = [block(0x10, 0x10), block(0x20, 0x10)];
    let error = plan_heap_reservation(BASE + 0x18, 0x10, 0x18, 0x20, &blocks, 0).unwrap_err();
    assert_eq!(
        error.to_string(),
        "prepared guest range 0x20000018..0x20000028 is only partially free"
    );
    let error = plan_heap_reservation(BASE + 0x08, 0x10, 0x08, 0x20, &blocks, 0).unwrap_err();
    assert_eq!(
        error.to_string(),
        "prepared guest range 0x20000008..0x20000018 is only partially free"
    );
}

#[test]
fn a_range_outside_every_block_is_not_free() {
    let blocks = [block(0x10, 0x10)];
    match plan_heap_reservation(BASE + 0x40, 0x10, 0x40, 0x10, &blocks, 0).unwrap() {
        Reservation::NotFree { free_left } => assert_eq!(free_left, None),
        other => panic!("unexpected {other:?}"),
    }
    match plan_heap_reservation(BASE + 0x40, 0x10, 0x40, 0x10, &blocks, 8).unwrap() {
        Reservation::NotFree { free_left } => assert_eq!(free_left, Some(8)),
        other => panic!("unexpected {other:?}"),
    }
    assert_eq!(
        plan_heap_reservation(BASE + 0x40, 0x10, 0x40, 4, &blocks, 8)
            .unwrap_err()
            .to_string(),
        "guest free-byte count underflow while recovering"
    );
}

#[test]
fn a_free_count_below_the_reserved_bytes_is_refused() {
    let blocks = [block(0x10, 0x30)];
    assert_eq!(
        plan_heap_reservation(BASE + 0x20, 0x10, 0x20, 0x0f, &blocks, 0)
            .unwrap_err()
            .to_string(),
        "guest free-byte count underflow while reserving"
    );
}

#[test]
fn the_window_of_a_reservation() {
    assert_eq!(locate_reservation(BASE - 4, 8, BASE, 0x100).unwrap(), None);
    assert_eq!(locate_reservation(BASE + 0x100, 8, BASE, 0x100).unwrap(), None);
    assert_eq!(locate_reservation(BASE + 0x20, 8, BASE, 0x100).unwrap(), Some(0x20));
    assert_eq!(
        locate_reservation(BASE + 0xf8, 0x10, BASE, 0x100)
            .unwrap_err()
            .to_string(),
        "reserved guest range 0x200000f8..0x20000108 exceeds the active heap"
    );
    assert_eq!(
        locate_reservation(0xffff_fff0, 0x20, 0, 0xffff_ffff)
            .unwrap_err()
            .to_string(),
        "reserved guest range overflow"
    );
}

#[test]
fn a_reserved_range_leaves_the_guest_free_list() {
    let mut memory = heap_memory(0x100, 0x10, 0x30);
    memory.write_u32(GuestAddr(BASE + 0x10), 0x100).unwrap();
    memory.write_u32(GuestAddr(BASE + 0x14), 0x30).unwrap();
    let mut snapshot = None;
    let allocations = BTreeMap::new();
    let reclaim =
        reserve_guest_heap_range(&mut memory, &mut snapshot, &allocations, BASE + 0x20, 0x10).unwrap();
    assert_eq!(reclaim, Some(0x10));
    let heap = guest_heap_state(&memory).unwrap();
    assert_eq!((heap.head, heap.free_left), (0x10, 0x20));
    let (blocks, terminator, recovered) =
        read_free_blocks(&memory, heap, &snapshot, &allocations).unwrap();
    assert_eq!(blocks, vec![block(0x10, 0x10), block(0x30, 0x10)]);
    assert_eq!((terminator, recovered), (0x100, 0));
    let written = snapshot.unwrap();
    assert_eq!(written.blocks, blocks);
    assert_eq!(written.free_left, 0x20);
    // No byte of the reserved range is free any more.
    assert!(blocks
        .iter()
        .all(|b| b.offset + b.len <= 0x20 || b.offset >= 0x30));
    // The same range is now neither free nor in the heap's list.
    assert_eq!(
        reserve_guest_heap_range(&mut memory, &mut None, &allocations, BASE + 0x20, 0x10).unwrap(),
        None
    );
    // Outside the heap nothing is read or written.
    assert_eq!(
        reserve_guest_heap_range(&mut memory, &mut None, &allocations, BASE + 0x200, 0x10).unwrap(),
        None
    );
}
