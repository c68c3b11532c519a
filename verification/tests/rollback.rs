use skyengine::error::Error;
use skyengine::output_claim::{AllocationView, OwnedRegion, OwnershipTables};
use skyengine::rollback::{forget_generation, plan_module_rollback, ModuleRecord};

fn region(base: u32, len: usize, owner: Option<u64>) -> OwnedRegion {
    OwnedRegion { base, len, owner }
}

fn sample_tables() -> OwnershipTables {
    OwnershipTables {
        allocations: vec![
            region(0x3000, 0x40, Some(2)),
            region(0x4000, 0x80, Some(1)),
            region(0x5000, 0x20, Some(2)),
            region(0x6000, 0x10, None),
        ],
        detached: vec![region(0x9000, 0x100, Some(2))],
        arenas: vec![
            region(0x2_0000, 0x1000, Some(2)),
            region(0x3_0000, 0x2000, Some(2)),
            region(0x4_0000, 0x1000, Some(1)),
        ],
        views: vec![
            AllocationView { base: 0x5004, len: 8, backing_base: 0x5000, owner: 2 },
            AllocationView { base: 0x4010, len: 8, backing_base: 0x4000, owner: 1 },
            AllocationView { base: 0x3_0010, len: 8, backing_base: 0x3_0000, owner: 1 },
        ],
        native_window_owner: Some(2),
    }
}

fn modules() -> Vec<ModuleRecord> {
    vec![
        ModuleRecord { generation: 1, base: 0x10_0000, len: 0x1000 },
        ModuleRecord { generation: 2, base: 0x20_0000, len: 0x3000 },
    ]
}

#[test]
fn rollback_of_an_unknown_generation_is_refused() {
    let tables = sample_tables();
    let result = plan_module_rollback(&tables, &modules(), 1, 7);
    assert!(matches!(result, Err(Error::Abi(message)) if message == "cannot roll back missing EXT module generation 7"));
    let result = plan_module_rollback(&tables, &modules(), 5, 2);
    assert!(matches!(result, Err(Error::Abi(message)) if message == "cannot roll back missing EXT module generation 2"));
}

#[test]
fn rollback_of_a_module_with_later_modules_is_refused() {
    let tables = sample_tables();
    let result = plan_module_rollback(&tables, &modules(), 0, 1);
    assert!(matches!(result, Err(Error::Abi(message)) if message == "cannot roll back EXT module 0 while later modules are active"));
}

#[test]
fn rollback_gives_back_owned_memory_highest_address_first() {
    let tables = sample_tables();
    let plan = plan_module_rollback(&tables, &modules(), 1, 2).unwrap();
    assert_eq!(plan.frees, vec![(0x9000, 0x100), (0x5000, 0x20), (0x3000, 0x40)]);
    assert_eq!(plan.arenas, vec![(0x3_0000, 0x2000), (0x2_0000, 0x1000)]);
    assert_eq!(plan.module_base, 0x20_0000);
    assert_eq!(plan.module_len, 0x3000);
}

#[test]
fn forgetting_a_generation_keeps_everything_else_in_order() {
    let mut tables = sample_tables();
    forget_generation(&mut tables, 2);
    let bases: Vec<u32> = tables.allocations.iter().map(|r| r.base).collect();
    assert_eq!(bases, vec![0x4000, 0x6000]);
    assert!(tables.detached.is_empty());
    let arenas: Vec<u32> = tables.arenas.iter().map(|r| r.base).collect();
    assert_eq!(arenas, vec![0x4_0000]);
    let views: Vec<u32> = tables.views.iter().map(|v| v.base).collect();
    assert_eq!(views, vec![0x4010]);
    assert_eq!(tables.native_window_owner, Some(2));
}
