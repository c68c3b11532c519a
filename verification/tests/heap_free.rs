use skyengine::heap_free::{forget_detached_allocation, forget_heap_allocation, free_route, FreeRoute};
use skyengine::output_claim::{AllocationView, OwnedRegion, OwnershipTables};

fn region(base: u32, len: usize, owner: Option<u64>) -> OwnedRegion {
    OwnedRegion { base, len, owner }
}

fn tables() -> OwnershipTables {
    OwnershipTables {
        allocations: vec![region(0x3000, 0x40, Some(2)), region(0x5000, 0x20, None)],
        detached: vec![region(0x9000, 0x100, Some(2))],
        arenas: vec![region(0x2_0000, 0x1000, Some(2))],
        views: vec![
            AllocationView { base: 0x3004, len: 8, backing_base: 0x3000, owner: 2 },
            AllocationView { base: 0x9010, len: 8, backing_base: 0x9000, owner: 2 },
        ],
        native_window_owner: None,
    }
}

#[test]
fn free_routes_follow_the_address() {
    let detached = vec![region(0x9000, 0x100, Some(2))];
    assert_eq!(free_route(0, &detached, 1, 1, 0x1000, 0x4000), FreeRoute::Nothing);
    assert_eq!(free_route(1, &detached, 1, 1, 0x1000, 0x4000), FreeRoute::Nothing);
    assert_eq!(free_route(0x9000, &detached, 0, 0, 0, 0), FreeRoute::Detached { index: 0 });
    assert_eq!(free_route(0x3000, &detached, 0, 0, 0, 0), FreeRoute::Nothing);
    assert_eq!(free_route(0x800, &detached, 1, 1, 0x1000, 0x4000), FreeRoute::OutsideHeap);
    assert_eq!(free_route(0x5000, &detached, 1, 1, 0x1000, 0x4000), FreeRoute::OutsideHeap);
    assert_eq!(free_route(0x3000, &detached, 1, 1, 0x1000, 0x4000), FreeRoute::InHeap { offset: 0x2000 });
}

#[test]
fn forgetting_a_heap_allocation_drops_its_entry_and_views() {
    let mut t = tables();
    forget_heap_allocation(&mut t, 0x3000);
    let bases: Vec<u32> = t.allocations.iter().map(|r| r.base).collect();
    assert_eq!(bases, vec![0x5000]);
    let views: Vec<u32> = t.views.iter().map(|v| v.base).collect();
    assert_eq!(views, vec![0x9010]);
    assert_eq!(t.detached.len(), 1);
}

#[test]
fn forgetting_a_detached_allocation_drops_its_entry_and_views() {
    let mut t = tables();
    forget_detached_allocation(&mut t, 0x9000);
    assert!(t.detached.is_empty());
    let views: Vec<u32> = t.views.iter().map(|v| v.base).collect();
    assert_eq!(views, vec![0x3004]);
    assert_eq!(t.allocations.len(), 2);
}
