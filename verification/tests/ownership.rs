use skyengine::exec_range::ExecutableRange;
use skyengine::memory::GuestAddr;
use skyengine::output_claim::{AllocationView, OwnedRegion, OwnershipTables};
use skyengine::ownership::{allocation_owner_for_range, validate_guest_allocation_owner};

fn region(base: u32, len: usize, owner: Option<u64>) -> OwnedRegion {
    OwnedRegion { base, len, owner }
}

fn tables() -> OwnershipTables {
    OwnershipTables {
        allocations: vec![region(0x2000_0100, 0x40, Some(7)), region(0x2000_0200, 0x40, None)],
        detached: vec![region(0x5000_0000, 0x100, Some(8))],
        arenas: vec![region(0x4000_0000, 0x1000, Some(9))],
        views: vec![AllocationView { base: 0x4000_0100, len: 0x20, backing_base: 0x4000_0000, owner: 9 }],
        native_window_owner: None,
    }
}

fn check(address: u32, len: usize, generation: u64) -> Result<(), String> {
    validate_guest_allocation_owner(&tables(), address, len, &[generation], 0, "free").map_err(|e| e.to_string())
}

#[test]
fn the_owner_of_a_range_is_the_first_owned_region_holding_it() {
    let t = tables();
    let range = |base: u32, len: usize| ExecutableRange { base: GuestAddr(base), len };
    assert_eq!(allocation_owner_for_range(&t, range(0x2000_0110, 0x10)), Some(7));
    assert_eq!(allocation_owner_for_range(&t, range(0x2000_0210, 0x10)), None);
    assert_eq!(allocation_owner_for_range(&t, range(0x5000_0010, 0x10)), Some(8));
    assert_eq!(allocation_owner_for_range(&t, range(0x4000_0800, 0x10)), Some(9));
    assert_eq!(allocation_owner_for_range(&t, range(0x2000_0130, 0x20)), None);
}

#[test]
fn addresses_must_start_an_allocation_the_module_owns() {
    assert_eq!(check(0, 0, 7), Ok(()));
    assert_eq!(check(0x2000_0100, 0x40, 7), Ok(()));
    assert_eq!(check(0x2000_0200, 0x40, 7), Ok(()));
    assert_eq!(
        check(0x2000_0100, 0x40, 8),
        Err("free references an allocation owned by another module".into())
    );
    assert_eq!(
        check(0x2000_0110, 0x10, 7),
        Err("free must reference the start of a tracked allocation".into())
    );
    assert_eq!(check(0x4000_0100, 0x20, 9), Ok(()));
    assert_eq!(
        check(0x4000_0100, 0x20, 7),
        Err("free references an allocation view owned by another module".into())
    );
    assert_eq!(
        check(0x4000_0108, 0x8, 9),
        Err("free must reference the start of a tracked allocation view".into())
    );
}

#[test]
fn untracked_addresses_must_not_reach_into_allocations() {
    assert_eq!(check(0x2000_0000, 0x20, 7), Ok(()));
    assert_eq!(
        check(0x2000_00f0, 0x20, 7),
        Err("free range overlaps a tracked allocation".into())
    );
    assert_eq!(
        check(0x2000_00f0, 0x20, 8),
        Err("free references an allocation owned by another module".into())
    );
    assert_eq!(check(0xffff_fff0, 0x20, 7), Err("free range exceeds guest memory".into()));
    assert_eq!(
        validate_guest_allocation_owner(&tables(), 0x2000_0100, 0x40, &[7], 2, "free")
            .unwrap_err()
            .to_string(),
        "free for missing module 2"
    );
}
