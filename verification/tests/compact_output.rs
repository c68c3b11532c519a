use skyengine::compact_output::{compact_ram_output_target, distinct_sorted_exec, is_compact_package};
use skyengine::memory::{GuestAddr, GuestMemory, Permissions};
use skyengine::output_claim::{OwnedRegion, OwnershipTables};

const HEAP: u32 = 0x2000_0000;
const HEAP_LEN: usize = 0x100;
const PACKAGE: u32 = 0x1000_0000;
const OWNED: u32 = 0x3000_0000;

fn memory() -> GuestMemory {
    let mut memory = GuestMemory::new();
    memory.map(GuestAddr(HEAP), 0x1000, Permissions::READ_WRITE, "heap").unwrap();
    memory.map(GuestAddr(PACKAGE), 0x1000, Permissions::READ_WRITE, "package").unwrap();
    memory.map(GuestAddr(OWNED), 0x1000, Permissions::READ_WRITE, "owned").unwrap();
    let mut header = b"MRPG".to_vec();
    header.extend_from_slice(&4u32.to_le_bytes());
    header.extend_from_slice(&0u32.to_le_bytes());
    header.extend_from_slice(&4u32.to_le_bytes());
    header.extend_from_slice(&[0; 8]);
    memory.write(GuestAddr(PACKAGE), &header).unwrap();
    memory
}

fn owned_tables(regions: Vec<OwnedRegion>) -> OwnershipTables {
    OwnershipTables {
        allocations: regions,
        detached: vec![],
        arenas: vec![],
        views: vec![],
        native_window_owner: None,
    }
}

/// A descriptor pair at heap offset `offset` naming a 0x20-byte buffer.
fn descriptor(memory: &mut GuestMemory, offset: u32, buffer: u32) {
    memory.write_u32(GuestAddr(HEAP + offset), buffer).unwrap();
    memory.write_u32(GuestAddr(HEAP + offset + 4), 0x20).unwrap();
    memory.write_u32(GuestAddr(buffer + 4), 0x20).unwrap();
}

fn target(memory: &GuestMemory, t: &OwnershipTables, pointer: u32) -> Result<Option<u32>, String> {
    compact_ram_output_target(memory, t, &None, HEAP_LEN, PACKAGE, 0x100, 0x20, &[7], 0, pointer)
        .map_err(|e| e.to_string())
}

#[test]
fn only_compact_packages_are_searched() {
    let mut memory = memory();
    assert_eq!(is_compact_package(&memory, PACKAGE, 24).unwrap(), true);
    assert_eq!(is_compact_package(&memory, PACKAGE, 23).unwrap(), false);
    memory.write_u32(GuestAddr(PACKAGE + 12), 5).unwrap();
    assert_eq!(is_compact_package(&memory, PACKAGE, 24).unwrap(), false);
    let t = owned_tables(vec![]);
    assert_eq!(target(&memory, &t, 0), Ok(None));
}

#[test]
fn a_single_descriptor_names_the_buffer() {
    let mut memory = memory();
    descriptor(&mut memory, 0x40, OWNED);
    let t = owned_tables(vec![OwnedRegion { base: OWNED, len: 0x100, owner: Some(7) }]);
    assert_eq!(target(&memory, &t, 0), Ok(Some(OWNED)));
    // A buffer of another module is not a candidate.
    let other = owned_tables(vec![OwnedRegion { base: OWNED, len: 0x100, owner: Some(8) }]);
    assert_eq!(
        target(&memory, &other, 0),
        Err("compact RAM output belongs to another module".into())
    );
}

#[test]
fn several_descriptors_need_the_call_to_choose() {
    let mut memory = memory();
    descriptor(&mut memory, 0x40, OWNED + 0x100);
    descriptor(&mut memory, 0x80, OWNED);
    let t = owned_tables(vec![OwnedRegion { base: OWNED, len: 0x400, owner: Some(7) }]);
    assert_eq!(
        target(&memory, &t, 0),
        Err("compact RAM MRP output has ambiguous prepared buffers: [GuestAddr(805306368), GuestAddr(805306624)]".into())
    );
    // The pair whose length word is the call's output-length pointer wins.
    assert_eq!(target(&memory, &t, HEAP + 0x84), Ok(Some(OWNED)));
    assert_eq!(target(&memory, &t, HEAP + 0x44), Ok(Some(OWNED + 0x100)));
    // Otherwise the word after the output-length word may name one.
    memory.write_u32(GuestAddr(PACKAGE + 0x104), OWNED + 0x100).unwrap();
    assert_eq!(target(&memory, &t, PACKAGE + 0x100), Ok(Some(OWNED + 0x100)));
}

#[test]
fn a_legacy_wrapper_is_the_fallback() {
    let mut memory = memory();
    memory.write_u32(GuestAddr(OWNED), 0x20).unwrap();
    let t = owned_tables(vec![OwnedRegion { base: OWNED, len: 0x28, owner: Some(7) }]);
    assert_eq!(target(&memory, &t, 0), Ok(Some(OWNED + 4)));
    // A wrapper of another size is not one.
    let t = owned_tables(vec![OwnedRegion { base: OWNED, len: 0x30, owner: Some(7) }]);
    assert_eq!(target(&memory, &t, 0), Ok(None));
}

#[test]
fn an_output_longer_than_u32_is_refused() {
    let memory = memory();
    let t = owned_tables(vec![]);
    let error = compact_ram_output_target(&memory, &t, &None, HEAP_LEN, PACKAGE, 0x100, 0x1_0000_0000, &[7], 0, 0)
        .unwrap_err();
    assert_eq!(error.to_string(), "compact RAM MRP output length exceeds u32");
}

#[test]
fn candidates_are_sorted_without_repeats() {
    assert_eq!(distinct_sorted_exec(&[5, 3, 5, 1, 3]), vec![1, 3, 5]);
    assert_eq!(distinct_sorted_exec(&[]), Vec::<u32>::new());
}
