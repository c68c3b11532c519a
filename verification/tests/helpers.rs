use skyengine::error::Error;
use skyengine::exec_range::{
    merge_executable_intervals, DynamicExecutableImage, DynamicExecutableImageSlot,
    ExecutableImage, ExecutableRange, ModuleContext,
};
use skyengine::heap::{
    align_heap_len, aligned_heap_len, free_candidate_is_available, plan_heap_allocation,
    validate_free_block_ranges, FreeBlock,
};
use skyengine::libc::{compare_bytes, parse_integer};
use skyengine::memory::{GuestAddr, GuestMemory, Permissions};
use skyengine::parse::{parse_signed, parse_unsigned};
use skyengine::slots::{
    data_slot_address, is_data_slot, is_function_slot, native_file_open_result,
    platform_data_slot_backing_address, table_slot_address, trap_slot, write_platform_string,
};

fn range(base: u32, len: usize) -> ExecutableRange {
    ExecutableRange {
        base: GuestAddr(base),
        len,
    }
}

#[test]
fn trap_addresses_name_platform_slots() {
    assert_eq!(trap_slot(0xff00_0000), Some(0));
    assert_eq!(trap_slot(0xff00_0000 + 4 * 149), Some(149));
    assert_eq!(trap_slot(0xff00_0000 + 4 * 150), None);
    assert_eq!(trap_slot(0xff00_0002), None);
    assert_eq!(trap_slot(0x1000), None);
    assert_eq!(data_slot_address(3), GuestAddr(0x0100_100c));
    assert_eq!(table_slot_address(3), GuestAddr(0x0100_000c));
    assert_eq!(platform_data_slot_backing_address(95), GuestAddr(0x0100_2000));
    assert_eq!(platform_data_slot_backing_address(144), GuestAddr(0x0100_1800));
    assert_eq!(platform_data_slot_backing_address(10), GuestAddr(0x0100_1028));
    assert_eq!(native_file_open_result(5), 5);
    assert_eq!(native_file_open_result(-1), 0);
    for slot in 0..150 {
        assert!(!(is_function_slot(slot) && is_data_slot(slot)));
    }
    assert!(is_data_slot(146));
}

#[test]
fn platform_strings_are_zero_terminated_and_bounded() {
    let mut memory = GuestMemory::new();
    memory
        .map(GuestAddr(0x1000), 0x200, Permissions::READ_WRITE, "strings")
        .unwrap();
    memory.write(GuestAddr(0x1000), &[0xaa; 8]).unwrap();
    write_platform_string(&mut memory, GuestAddr(0x1000), b"hi").unwrap();
    assert_eq!(memory.read(GuestAddr(0x1000), 4).unwrap(), vec![b'h', b'i', 0, 0xaa]);
    let error = write_platform_string(&mut memory, GuestAddr(0x1000), &[b'x'; 256]).unwrap_err();
    assert!(matches!(error, Error::Abi(_)));
    assert_eq!(error.to_string(), "platform string contains 256 bytes (limit 255)");
    assert_eq!(memory.read_u8(GuestAddr(0x1000)).unwrap(), b'h');
}

#[test]
fn executable_ranges_measure_containment_and_overlap() {
    let r = range(0x1000, 0x100);
    assert_eq!(r.end(), Some(0x1100));
    assert_eq!(range(0xffff_ff00, 0x100).end(), None);
    assert!(r.contains(0x10fc, 4));
    assert!(!r.contains(0x10fd, 4));
    assert!(!r.contains(0x0fff, 1));
    assert!(r.contains_range(range(0x1010, 0x10)));
    assert!(!r.contains_range(range(0x10f0, 0x20)));
    assert!(r.overlaps(range(0x10ff, 1)));
    assert!(!r.overlaps(range(0x1100, 1)));
    assert!(r.overlaps(range(0xffff_ff00, 0x100)));
    assert_eq!(r.intersection(range(0x1080, 0x100)), Some(range(0x1080, 0x80)));
    assert_eq!(r.intersection(range(0x1100, 0x10)), None);
    assert_eq!(
        r.subtract(range(0x1040, 0x20)),
        vec![range(0x1000, 0x40), range(0x1060, 0xa0)]
    );
    assert_eq!(r.subtract(range(0x0f00, 0x200)), vec![]);
    assert_eq!(r.subtract(range(0x2000, 0x10)), vec![r]);
}

#[test]
fn executable_intervals_merge_when_they_touch() {
    let merged = merge_executable_intervals(vec![
        range(0x3000, 0x10),
        range(0x1000, 0x100),
        range(0x1100, 0x20),
        range(0x1080, 0x10),
    ]);
    assert_eq!(merged, vec![range(0x1000, 0x120), range(0x3000, 0x10)]);
    assert_eq!(merge_executable_intervals(vec![]), vec![]);
}

#[test]
fn merging_merged_intervals_changes_nothing() {
    let merged = merge_executable_intervals(vec![
        range(0x5000, 0x10),
        range(0x1000, 0x100),
        range(0x1100, 0x20),
        range(0x2000, 0x10),
        range(0x1fff, 0x2),
    ]);
    assert_eq!(merged, vec![range(0x1000, 0x120), range(0x1fff, 0x11), range(0x5000, 0x10)]);
    assert_eq!(merge_executable_intervals(merged.clone()), merged);
}

#[test]
fn merging_twice_keeps_empty_intervals_too() {
    let merged = merge_executable_intervals(vec![range(0x3000, 0), range(0x1000, 0x10), range(0x1000, 0)]);
    assert_eq!(merge_executable_intervals(merged.clone()), merged);
}

#[test]
fn subtracted_pieces_are_disjoint_gaps() {
    let r = range(0x1000, 0x100);
    let pieces = r.subtract(range(0x1040, 0x20));
    assert_eq!(pieces.len(), 2);
    assert!(pieces[0].base.0 + pieces[0].len as u32 <= pieces[1].base.0);
    assert_eq!(pieces[0].base.0, 0x1000);
    assert_eq!(pieces[1].base.0 + pieces[1].len as u32, 0x1100);
    assert_eq!(r.subtract(range(0x1000, 0x80)), vec![range(0x1080, 0x80)]);
}

#[test]
fn guest_functions_resolve_to_their_image() {
    let module = ModuleContext {
        base: GuestAddr(0x8000),
        len: 0x100,
        dynamic_executable_ranges: vec![
            DynamicExecutableImageSlot(None),
            DynamicExecutableImageSlot(Some(DynamicExecutableImage {
                id: 7,
                intervals: vec![range(0x9000, 0x40)],
            })),
        ],
    };
    assert_eq!(module.image_range(), range(0x8000, 0x100));
    assert_eq!(
        module.executable_image(0x8010),
        Some((ExecutableImage::Static, 0x10))
    );
    assert_eq!(
        module.executable_image(0x8021),
        Some((ExecutableImage::Static, 0x20))
    );
    assert_eq!(module.executable_image(0x8002), None);
    assert_eq!(
        module.executable_image(0x9011),
        Some((ExecutableImage::Dynamic(7), 0x10))
    );
    assert_eq!(module.executable_image(0x903e), None);
    assert_eq!(module.executable_image(0x903f), Some((ExecutableImage::Dynamic(7), 0x3e)));
    assert!(module.dynamic_executable_ranges[0].is_none());
    assert_eq!(module.dynamic_executable_ranges[1].as_ref().unwrap().id, 7);
}

#[test]
fn free_blocks_must_stay_inside_the_heap_and_apart() {
    let block = |offset, len| FreeBlock { offset, len };
    assert!(validate_free_block_ranges(&[block(0, 16), block(16, 8)], 0x100).is_ok());
    assert!(validate_free_block_ranges(&[block(32, 16), block(0, 8)], 0x100).is_ok());
    let message = |blocks: &[FreeBlock]| match validate_free_block_ranges(blocks, 0x100) {
        Err(Error::Abi(m)) => m,
        other => panic!("unexpected {other:?}"),
    };
    assert_eq!(
        message(&[block(8, 8), block(0, 16)]),
        "guest free block at offset 0x8 overlaps the preceding range ending at 0x10"
    );
    assert_eq!(
        message(&[block(0xf8, 16)]),
        "guest free block at offset 0xf8 exceeds heap span 0x100"
    );
    assert_eq!(
        message(&[block(0, 8), block(0xffff_fff0, 0x20)]),
        "guest free-block range overflow"
    );
    assert!(validate_free_block_ranges(&[block(8, 0), block(8, 8)], 0x100).is_ok());
    assert!(validate_free_block_ranges(&[], 0).is_ok());
    assert!(free_candidate_is_available(24, 8, 0x100, &[block(0, 16), block(32, 8)]));
    assert!(!free_candidate_is_available(16, 8, 0x100, &[block(0, 24)]));
    assert!(!free_candidate_is_available(20, 8, 0x100, &[]));
    assert!(!free_candidate_is_available(24, 4, 0x100, &[]));
    assert!(!free_candidate_is_available(0xf8, 16, 0x100, &[]));
}

#[test]
fn heap_lengths_round_up_to_eight() {
    assert_eq!(align_heap_len(0).unwrap(), 0);
    assert_eq!(align_heap_len(9).unwrap(), 16);
    assert_eq!(align_heap_len(16).unwrap(), 16);
    assert!(matches!(align_heap_len(u32::MAX), Err(Error::ArmFault(_))));
    assert_eq!(aligned_heap_len(0).unwrap(), 8);
    assert_eq!(aligned_heap_len(3).unwrap(), 8);
    assert_eq!(aligned_heap_len(13).unwrap(), 16);
    assert_eq!(
        aligned_heap_len(0x1_0000_0000).unwrap_err().to_string(),
        "guest allocation length 4294967296 does not fit u32"
    );
    assert!(aligned_heap_len(u32::MAX as usize).is_err());
}

#[test]
fn byte_strings_compare_like_memcmp() {
    assert_eq!(compare_bytes(b"abc", b"abd"), -1);
    assert_eq!(compare_bytes(b"b", b"a"), 1);
    assert_eq!(compare_bytes(b"\xff", b"\x00"), 255);
    assert_eq!(compare_bytes(b"ab", b"abc"), -1);
    assert_eq!(compare_bytes(b"abc", b"ab"), 1);
    assert_eq!(compare_bytes(b"same", b"same"), 0);
}

#[test]
fn integers_parse_like_strtol() {
    assert_eq!(parse_integer(b"  -42xyz", 10), (-42, 5));
    assert_eq!(parse_integer(b"0x1F", 0), (31, 4));
    assert_eq!(parse_integer(b"0X1f", 16), (31, 4));
    assert_eq!(parse_integer(b"077", 0), (63, 3));
    assert_eq!(parse_integer(b"zz", 36), (36 * 35 + 35, 2));
    assert_eq!(parse_integer(b"zz", 10), (0, 0));
    assert_eq!(parse_integer(b"  +", 10), (0, 3));
    assert_eq!(parse_integer(b"12", 1), (0, 0));
    assert_eq!(parse_integer(b"0xg", 0), (0, 2));
    assert_eq!(parse_integer(b"99999999999999999999", 10), (i64::MAX, 20));
    assert_eq!(parse_integer(b"-99999999999999999999", 10), (-i64::MAX, 21));
}

#[test]
fn decimal_numbers_parse_like_from_str() {
    assert_eq!(parse_unsigned(b"65535", 65535), Some(65535));
    assert_eq!(parse_unsigned(b"65536", 65535), None);
    assert_eq!(parse_unsigned(b"+0", 5), Some(0));
    assert_eq!(parse_unsigned(b"+", 5), None);
    assert_eq!(parse_unsigned(b"", 5), None);
    assert_eq!(parse_unsigned(b"-1", 5), None);
    assert_eq!(parse_signed(b"-128", 127), Some(-128));
    assert_eq!(parse_signed(b"-129", 127), None);
    assert_eq!(parse_signed(b"127", 127), Some(127));
    assert_eq!(parse_signed(b"-", 127), None);
}

#[test]
fn allocations_take_the_first_block_they_fit() {
    let block = |offset, len| FreeBlock { offset, len };
    let plan = plan_heap_allocation(&[block(0, 16), block(32, 64)], 24, 8, 100, 0)
        .unwrap()
        .unwrap();
    assert_eq!(plan.start, 32);
    assert_eq!(plan.blocks, vec![block(0, 16), block(56, 40)]);
    assert_eq!(plan.free_left, 76);
    assert_eq!(plan.reclaim_len, 24);

    let plan = plan_heap_allocation(&[block(4, 60)], 8, 16, 100, 0).unwrap().unwrap();
    assert_eq!(plan.start, 16);
    assert_eq!(plan.blocks, vec![block(4, 12), block(24, 40)]);
    assert_eq!(plan.free_left, 92);
    assert_eq!(plan.reclaim_len, 8);

    // A prefix too small for a header is given away with the allocation.
    let plan = plan_heap_allocation(&[block(4, 60)], 8, 8, 100, 2).unwrap().unwrap();
    assert_eq!(plan.start, 8);
    assert_eq!(plan.blocks, vec![block(16, 48)]);
    assert_eq!(plan.free_left, 86);
    assert_eq!(plan.reclaim_len, 8);

    assert!(plan_heap_allocation(&[block(4, 60)], 8, 8, 10, 0).unwrap().is_none());
    assert!(plan_heap_allocation(&[block(0, 16)], 17, 8, 100, 0).unwrap().is_none());
    assert_eq!(
        plan_heap_allocation(&[block(0, 64)], 8, 8, 3, 5)
            .err()
            .unwrap()
            .to_string(),
        "guest free-byte count 0x3 is smaller than recovery correction 0x5"
    );
}
