use skyengine::error::Error;
use skyengine::heap::FreeBlock;
use skyengine::heap_release::{plan_heap_release, select_release_len, FreeListUpdate};

fn block(offset: u32, len: u32) -> FreeBlock {
    FreeBlock { offset, len }
}

fn release(
    address: u32,
    len: u32,
    blocks: &[FreeBlock],
    terminator: u32,
    free_left: u32,
    allow: bool,
) -> Result<Option<FreeListUpdate>, Error> {
    plan_heap_release(address, len, 0x1000, 0x100, free_left, blocks, terminator, 0, allow)
}

fn updated(r: Result<Option<FreeListUpdate>, Error>) -> FreeListUpdate {
    r.unwrap().unwrap()
}

#[test]
fn a_released_block_joins_an_empty_list() {
    let u = updated(release(0x1010, 0x10, &[], 0x100, 0x40, false));
    assert_eq!(u.blocks, vec![block(0x10, 0x10)]);
    assert_eq!(u.terminator, 0x100);
    assert_eq!(u.free_left, 0x50);
}

#[test]
fn a_released_block_coalesces_with_both_neighbours() {
    let blocks = [block(0x20, 0x10), block(0x00, 0x10)];
    let u = updated(release(0x1010, 0x10, &blocks, 0x100, 0x20, false));
    assert_eq!(u.blocks, vec![block(0x00, 0x30)]);
    assert_eq!(u.free_left, 0x30);
}

#[test]
fn blocks_keep_offset_order_and_gaps() {
    let blocks = [block(0x40, 0x10), block(0x00, 0x10)];
    let u = updated(release(0x1010, 0x10, &blocks, 0x100, 0x20, false));
    assert_eq!(u.blocks, vec![block(0x00, 0x20), block(0x40, 0x10)]);
}

#[test]
fn a_range_inside_a_free_block_is_already_free() {
    let blocks = [block(0x00, 0x40)];
    assert!(release(0x1010, 0x10, &blocks, 0x100, 0x40, false).unwrap().is_none());
}

#[test]
fn swallowed_free_blocks_are_refused_or_absorbed() {
    let blocks = [block(0x18, 0x08)];
    assert_eq!(
        release(0x1010, 0x20, &blocks, 0x100, 0x08, false).unwrap_err().to_string(),
        "freed guest block at offset 0x10 contains free block 0x18..0x20"
    );
    let u = updated(release(0x1010, 0x20, &blocks, 0x100, 0x08, true));
    assert_eq!(u.blocks, vec![block(0x10, 0x20)]);
    assert_eq!(u.free_left, 0x20);
}

#[test]
fn straddling_free_blocks_are_refused() {
    let blocks = [block(0x08, 0x10)];
    assert_eq!(
        release(0x1010, 0x10, &blocks, 0x100, 0x10, true).unwrap_err().to_string(),
        "freed guest block at offset 0x10 partially overlaps free block 0x8..0x18"
    );
}

#[test]
fn ranges_outside_the_heap_are_refused() {
    assert_eq!(
        release(0x1004, 0x10, &[], 0x100, 0, false).unwrap_err().to_string(),
        "freed guest block 0x00001004 (16 bytes) is outside the active heap 0x00001000..0x00001100"
    );
    assert_eq!(
        release(0x10f8, 0x10, &[], 0x100, 0, false).unwrap_err().to_string(),
        "freed guest block 0x000010f8 (16 bytes) is outside the active heap 0x00001000..0x00001100"
    );
    assert_eq!(
        release(0x0800, 0x10, &[], 0x100, 0, false).unwrap_err().to_string(),
        "freed guest block starts before the active heap"
    );
}

#[test]
fn a_release_past_the_terminator_moves_it_to_the_span() {
    let u = updated(release(0x1030, 0x10, &[block(0x00, 0x10)], 0x20, 0x10, false));
    assert_eq!(u.terminator, 0x100);
    let u = updated(release(0x1030, 0x10, &[block(0x00, 0x10)], 0x80, 0x10, false));
    assert_eq!(u.terminator, 0x80);
}

#[test]
fn the_free_byte_count_must_stay_in_range() {
    assert_eq!(
        release(0x1010, 0x10, &[], 0x100, 0xffff_fff8, false).unwrap_err().to_string(),
        "guest free-byte count overflow"
    );
    assert_eq!(
        plan_heap_release(0x1010, 0x10, 0x1000, 0x100, 4, &[], 0x100, 8, false)
            .unwrap_err()
            .to_string(),
        "guest free-byte count overflow"
    );
    let u = updated(plan_heap_release(0x1010, 0x10, 0x1000, 0x100, 0x30, &[], 0x100, 0x08, false));
    assert_eq!(u.free_left, 0x38);
}

#[test]
fn release_lengths_prefer_the_tracked_extent() {
    let free = [block(0x20, 0x10)];
    assert_eq!(select_release_len(0x1010, 0x10, Some(0x10), 0x30, 0x100, &free).unwrap(), 0x10);
    assert_eq!(select_release_len(0x1000, 0x00, Some(0x30), 0x0c, 0x100, &free).unwrap(), 0x10);
    assert_eq!(select_release_len(0x1000, 0x00, Some(0x30), 0, 0x100, &free).unwrap(), 0x30);
    assert_eq!(select_release_len(0x1000, 0x00, Some(0x30), 0x28, 0x100, &free).unwrap(), 0x30);
    assert_eq!(select_release_len(0x1040, 0x40, None, 5, 0x100, &free).unwrap(), 8);
    assert_eq!(
        select_release_len(0x1040, 0x40, None, 0, 0x100, &free).unwrap_err().to_string(),
        "free references unknown guest allocation 0x00001040"
    );
    assert!(matches!(
        select_release_len(0x1040, 0x40, None, 0xffff_fffc, 0x100, &free),
        Err(Error::ArmFault(_))
    ));
}
