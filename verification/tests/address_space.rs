use skyengine::address_space::new_guest_address_space;
use skyengine::error::Error;
use skyengine::guest_strings::read_platform_data_slot;
use skyengine::memory::GuestAddr;

#[test]
fn a_fresh_address_space_holds_the_heap_bounds_and_idle_keypad() {
    let (memory, layout) = new_guest_address_space(240, 320, 0x10_0000).unwrap();
    assert_eq!(layout.screen_base, 0x2080_0000);
    assert_eq!(layout.guest_ram_len, 0x0080_0000);
    assert_eq!(read_platform_data_slot(&memory, 108).unwrap(), 0x2000_0000);
    assert_eq!(read_platform_data_slot(&memory, 109).unwrap(), 0x10_0000);
    assert_eq!(read_platform_data_slot(&memory, 110).unwrap(), 0x2010_0000);
    assert_eq!(memory.read_u32(GuestAddr(0x2000_0000)).unwrap(), 0x10_0000);
    assert_eq!(memory.read_u8(GuestAddr(0x8011_0000)).unwrap(), 0xff);
    assert_eq!(memory.read_u8(GuestAddr(0x3000_0000)).unwrap(), 0);
    assert_eq!(memory.read_u8(GuestAddr(0x2080_0000 + 240 * 320 * 2 - 1)).unwrap(), 0);
}

#[test]
fn a_large_heap_moves_the_screen() {
    let (_, layout) = new_guest_address_space(240, 320, 0x0100_0000).unwrap();
    assert_eq!(layout.screen_base, 0x2100_1000);
    assert_eq!(layout.guest_ram_len, 0x0100_0000);
}

#[test]
fn an_empty_heap_refuses_the_address_space() {
    let result = new_guest_address_space(240, 320, 0);
    assert!(matches!(result, Err(Error::ArmFault(message)) if message == "guest heap length must be non-zero"));
}

#[test]
fn a_screen_that_reaches_the_stack_refuses_the_address_space() {
    let result = new_guest_address_space(0xffff, 0xffff, 0x10_0000);
    assert!(matches!(result, Err(Error::ArmFault(_))));
}
