use skyengine::heap::FreeBlock;
use skyengine::memory::{GuestAddr, GuestMemory, Permissions};
use skyengine::output_claim::{
    check_allocation_view, locate_prepared_output, prepared_output_candidate_is_claimable_by_module,
    AllocationView, OutputPlace, OwnedRegion, OwnershipTables,
};

const BASE: u32 = 0x2000_0000;
const TABLE: u32 = 0x0100_0000;
const DATA: u32 = 0x0100_1000;
const OWNED: u32 = 0x3000_0000;

fn data_slot(slot: u32) -> u32 {
    DATA + slot * 4
}

/// A heap of 0x100 bytes at `BASE` whose one free block is `free`.
fn memory_with_heap(free: FreeBlock) -> GuestMemory {
    let mut memory = GuestMemory::new();
    memory.map(GuestAddr(TABLE), 0x1000, Permissions::READ_WRITE, "table").unwrap();
    memory.map(GuestAddr(DATA), 0x1000, Permissions::READ_WRITE, "data").unwrap();
    memory.map(GuestAddr(BASE), 0x1000, Permissions::READ_WRITE, "heap").unwrap();
    memory.map(GuestAddr(OWNED), 0x1000, Permissions::READ_WRITE, "owned").unwrap();
    for slot in [108, 110, 111, 146] {
        memory.write_u32(GuestAddr(TABLE + slot * 4), data_slot(slot)).unwrap();
    }
    memory.write_u32(GuestAddr(data_slot(108)), BASE).unwrap();
    memory.write_u32(GuestAddr(data_slot(110)), BASE + 0x100).unwrap();
    memory.write_u32(GuestAddr(data_slot(146)), free.offset).unwrap();
    memory.write_u32(GuestAddr(data_slot(111)), free.len).unwrap();
    memory.write_u32(GuestAddr(BASE + free.offset), 0x100).unwrap();
    memory.write_u32(GuestAddr(BASE + free.offset + 4), free.len).unwrap();
    memory
}

fn tables(allocations: Vec<OwnedRegion>) -> OwnershipTables {
    OwnershipTables {
        allocations,
        detached: vec![],
        arenas: vec![],
        views: vec![],
        native_window_owner: None,
    }
}

fn region(base: u32, len: usize, owner: Option<u64>) -> OwnedRegion {
    OwnedRegion { base, len, owner }
}

fn locate(memory: &GuestMemory, t: &OwnershipTables, address: u32, len: u32) -> Result<OutputPlace, String> {
    locate_prepared_output(memory, t, address, len, &[7], 0).map_err(|e| e.to_string())
}

fn claimable(memory: &GuestMemory, t: &OwnershipTables, address: u32, len: u32) -> Result<bool, String> {
    prepared_output_candidate_is_claimable_by_module(memory, t, &None, address, len, &[7], 0)
        .map_err(|e| e.to_string())
}

#[test]
fn an_owned_allocation_is_claimable() {
    let memory = memory_with_heap(FreeBlock { offset: 0x10, len: 0x30 });
    let t = tables(vec![region(OWNED, 0x100, Some(7))]);
    assert_eq!(
        locate(&memory, &t, OWNED, 0x40),
        Ok(OutputPlace::Allocation { index: 0, claim_owner: false })
    );
    assert_eq!(claimable(&memory, &t, OWNED, 0x40), Ok(true));
    // An interior view of an owned allocation is claimable too.
    assert_eq!(claimable(&memory, &t, OWNED + 0x10, 0x40), Ok(true));
}

#[test]
fn another_modules_allocation_is_refused() {
    let memory = memory_with_heap(FreeBlock { offset: 0x10, len: 0x30 });
    let t = tables(vec![region(OWNED, 0x100, Some(8))]);
    let text = "compact RAM output belongs to another module".to_string();
    assert_eq!(locate(&memory, &t, OWNED, 0x40), Err(text.clone()));
    assert_eq!(claimable(&memory, &t, OWNED, 0x40), Err(text));
}

#[test]
fn an_unowned_allocation_is_claimed_only_from_its_start() {
    let memory = memory_with_heap(FreeBlock { offset: 0x10, len: 0x30 });
    let t = tables(vec![region(OWNED, 0x100, None)]);
    assert_eq!(
        locate(&memory, &t, OWNED, 0x40),
        Ok(OutputPlace::Allocation { index: 0, claim_owner: true })
    );
    assert_eq!(
        locate(&memory, &t, OWNED + 0x10, 0x40),
        Err("compact RAM output 0x30000010..0x30000050 is an interior view of an unowned allocation".into())
    );
    assert_eq!(claimable(&memory, &t, OWNED + 0x10, 0x40), Ok(false));
}

#[test]
fn a_range_partly_in_an_allocation_is_refused() {
    let memory = memory_with_heap(FreeBlock { offset: 0x10, len: 0x30 });
    let t = tables(vec![region(OWNED, 0x100, Some(7))]);
    assert_eq!(
        locate(&memory, &t, OWNED + 0xf0, 0x20),
        Err("compact RAM output 0x300000f0..0x30000110 partially overlaps a tracked allocation".into())
    );
    assert_eq!(claimable(&memory, &t, OWNED + 0xf0, 0x20), Ok(false));
}

#[test]
fn bad_requests_fail_before_any_table() {
    let memory = memory_with_heap(FreeBlock { offset: 0x10, len: 0x30 });
    let t = tables(vec![]);
    assert_eq!(
        locate_prepared_output(&memory, &t, OWNED, 0x40, &[7], 3).unwrap_err().to_string(),
        "compact RAM output for missing module 3"
    );
    assert_eq!(
        locate(&memory, &t, 0xffff_fff0, 0x20),
        Err("compact RAM output range overflow".into())
    );
}

#[test]
fn free_heap_memory_is_claimable_only_inside_one_free_block() {
    let memory = memory_with_heap(FreeBlock { offset: 0x10, len: 0x30 });
    let t = tables(vec![]);
    assert_eq!(locate(&memory, &t, BASE + 0x20, 0x10), Ok(OutputPlace::FreeHeap));
    assert_eq!(claimable(&memory, &t, BASE + 0x20, 0x10), Ok(true));
    assert_eq!(locate(&memory, &t, BASE + 0x20, 0x40), Ok(OutputPlace::FreeHeap));
    assert_eq!(claimable(&memory, &t, BASE + 0x20, 0x40), Ok(false));
    assert_eq!(
        locate(&memory, &t, 0x5000_0000, 0x10),
        Err("compact RAM output 0x50000000..0x50000010 is outside module-owned memory".into())
    );
    assert_eq!(claimable(&memory, &t, 0x5000_0000, 0x10), Ok(false));
}

#[test]
fn a_legacy_wrapper_payload_is_recognised() {
    let mut memory = memory_with_heap(FreeBlock { offset: 0x10, len: 0x30 });
    // The wrapper stores the payload length, 0x20, in front of the payload.
    memory.write_u32(GuestAddr(OWNED), 0x20).unwrap();
    let t = tables(vec![region(OWNED, 0x28, Some(7))]);
    assert_eq!(locate(&memory, &t, OWNED + 4, 0x20), Ok(OutputPlace::LegacyWrapper));
    // A payload whose block length does not match is only an interior view.
    assert_eq!(
        locate(&memory, &t, OWNED + 4, 0x18),
        Ok(OutputPlace::Allocation { index: 0, claim_owner: false })
    );
}

#[test]
fn the_native_window_belongs_to_one_module() {
    let memory = memory_with_heap(FreeBlock { offset: 0x10, len: 0x30 });
    let mut t = tables(vec![]);
    assert_eq!(
        locate(&memory, &t, 0x4001_8800, 0x100),
        Ok(OutputPlace::NativeWindow { in_heap: false })
    );
    t.native_window_owner = Some(8);
    assert_eq!(
        locate(&memory, &t, 0x4001_8800, 0x100),
        Err("compact RAM output belongs to another module".into())
    );
}

#[test]
fn detached_and_platform_memory_follow_the_same_rules() {
    let memory = memory_with_heap(FreeBlock { offset: 0x10, len: 0x30 });
    let mut t = tables(vec![]);
    t.detached = vec![region(0x6000_0000, 0x100, None)];
    t.arenas = vec![region(0x7000_0000, 0x100, Some(7))];
    assert_eq!(
        locate(&memory, &t, 0x6000_0000, 0x10),
        Ok(OutputPlace::Detached { index: 0, claim_owner: true })
    );
    assert_eq!(
        locate(&memory, &t, 0x6000_0010, 0x10),
        Err("compact RAM output 0x60000010..0x60000020 is an interior view of an unowned detached allocation".into())
    );
    assert_eq!(
        locate(&memory, &t, 0x6000_00f0, 0x20),
        Err("compact RAM output 0x600000f0..0x60000110 partially overlaps a tracked detached allocation".into())
    );
    assert_eq!(locate(&memory, &t, 0x7000_0010, 0x10), Ok(OutputPlace::Arena { index: 0 }));
    assert_eq!(
        locate(&memory, &t, 0x7000_00f0, 0x20),
        Err("compact RAM output 0x700000f0..0x70000110 partially overlaps a platform allocation".into())
    );
}

#[test]
fn allocation_views_do_not_cross_owners_or_overflow() {
    let view = AllocationView { base: OWNED + 0x10, len: 0x20, backing_base: OWNED, owner: 7 };
    assert!(check_allocation_view(&[view], OWNED, 0x40, OWNED, 8).is_ok());
    assert!(check_allocation_view(&[view], OWNED + 0x10, 0x20, OWNED, 7).is_ok());
    assert_eq!(
        check_allocation_view(&[view], OWNED + 0x18, 0x20, OWNED, 8)
            .unwrap_err()
            .to_string(),
        "compact RAM output overlaps another allocation view"
    );
    let many: Vec<AllocationView> = (0..256u32)
        .map(|i| AllocationView { base: 0x6000_0000 + i * 0x100, len: 0x10, backing_base: 0x6000_0000, owner: 7 })
        .collect();
    assert_eq!(
        check_allocation_view(&many, OWNED + 0x10, 0x10, OWNED, 7)
            .unwrap_err()
            .to_string(),
        "guest allocation views exceeded 256"
    );
    // Replacing an existing view of the same allocation needs no room.
    assert!(check_allocation_view(&many, 0x6000_0100, 0x10, 0x6000_0000, 7).is_ok());
}
