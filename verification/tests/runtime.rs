use skyengine::cpu::ArmCpu;
use skyengine::error::Error;
use skyengine::memory::GuestAddr;
use skyengine::runtime::{lifecycle_request, new_runtime, LifecycleRequest};
use skyengine::runtime_dispatch::{dispatch_runtime_slot, HostRequest};

#[test]
fn a_new_runtime_has_no_motion_lifecycle_request_or_timer() {
    let (memory, runtime) = new_runtime(240, 320, b"game.mrp", b"start.mr", 0x10_0000).unwrap();
    assert!(!runtime.motion_active());
    assert_eq!(runtime.timer_due_in(), None);
    assert!(matches!(lifecycle_request(&runtime, &memory), Ok(None)));
    let name = memory.read(GuestAddr(0x0100_1400), 9).unwrap();
    assert_eq!(name, b"game.mrp\0".to_vec());
    let entry = memory.read(GuestAddr(0x0100_1800), 9).unwrap();
    assert_eq!(entry, b"start.mr\0".to_vec());
    assert_eq!(memory.read_u32(GuestAddr(0x0100_1980)).unwrap(), 1);
}

#[test]
fn a_name_of_256_bytes_refuses_the_runtime() {
    let long = vec![b'a'; 256];
    let result = new_runtime(240, 320, &long, b"start.mr", 0x10_0000);
    assert!(matches!(result, Err(Error::Abi(m)) if m == "platform string contains 256 bytes (limit 255)"));
    let result = new_runtime(240, 320, b"game.mrp", &long, 0x10_0000);
    assert!(matches!(result, Err(Error::Abi(m)) if m == "platform string contains 256 bytes (limit 255)"));
    let ok = vec![b'a'; 255];
    assert!(new_runtime(240, 320, &ok, &ok, 0x10_0000).is_ok());
}

#[test]
fn a_heap_out_of_range_refuses_the_runtime() {
    assert!(matches!(new_runtime(240, 320, b"a", b"b", 0), Err(Error::ArmFault(_))));
    assert!(matches!(new_runtime(240, 320, b"a", b"b", 0x0100_0001), Err(Error::ArmFault(_))));
    assert!(new_runtime(240, 320, b"a", b"b", 0x0100_0000).is_ok());
    assert!(new_runtime(240, 320, b"a", b"b", 1).is_ok());
}

#[test]
fn exit_slot_requests_an_exit() {
    let (mut memory, mut runtime) = new_runtime(240, 320, b"a", b"b", 0x10_0000).unwrap();
    let mut cpu = ArmCpu::new();
    assert_eq!(dispatch_runtime_slot(54, 0, &mut memory, &mut cpu, &mut runtime).unwrap(), HostRequest::Nothing);
    assert!(matches!(lifecycle_request(&runtime, &memory), Ok(Some(LifecycleRequest::Exit))));
}

#[test]
fn timer_slots_arm_and_stop_the_timer() {
    let (mut memory, mut runtime) = new_runtime(240, 320, b"a", b"b", 0x10_0000).unwrap();
    let mut cpu = ArmCpu::new();
    cpu.set_register(0, 250);
    assert_eq!(
        dispatch_runtime_slot(31, 0, &mut memory, &mut cpu, &mut runtime).unwrap(),
        HostRequest::TimerArmed { delay_ms: 250 }
    );
    assert_eq!(runtime.timer_due_in(), Some(250));
    assert_eq!(memory.read_u32(GuestAddr(0x0100_1988)).unwrap(), 1);
    assert_eq!(cpu.register(0), 0);
    dispatch_runtime_slot(32, 0, &mut memory, &mut cpu, &mut runtime).unwrap();
    assert_eq!(runtime.timer_due_in(), None);
    assert_eq!(memory.read_u32(GuestAddr(0x0100_1988)).unwrap(), 0);
}

#[test]
fn screen_slots_report_the_size_and_write_a_pixel() {
    let (mut memory, mut runtime) = new_runtime(240, 320, b"a", b"b", 0x10_0000).unwrap();
    memory.write_u32(GuestAddr(0x0100_1000 + 92 * 4), 240).unwrap();
    memory.write_u32(GuestAddr(0x0100_1000 + 93 * 4), 320).unwrap();
    let mut cpu = ArmCpu::new();
    cpu.set_register(0, 0x2000_0100);
    dispatch_runtime_slot(80, 0, &mut memory, &mut cpu, &mut runtime).unwrap();
    assert_eq!(memory.read_u32(GuestAddr(0x2000_0100)).unwrap(), 240);
    assert_eq!(memory.read_u32(GuestAddr(0x2000_0104)).unwrap(), 320);
    cpu.set_register(0, 3);
    cpu.set_register(1, 2);
    cpu.set_register(2, 0xf800);
    dispatch_runtime_slot(119, 0, &mut memory, &mut cpu, &mut runtime).unwrap();
    assert_eq!(memory.read_u16(GuestAddr(0x2080_0000 + (2 * 240 + 3) * 2)).unwrap(), 0xf800);
    cpu.set_register(0, 240);
    dispatch_runtime_slot(119, 0, &mut memory, &mut cpu, &mut runtime).unwrap();
    assert_eq!(cpu.register(0), 0);
}

#[test]
fn library_and_host_slots_route_as_their_kind() {
    let (mut memory, mut runtime) = new_runtime(240, 320, b"a", b"b", 0x10_0000).unwrap();
    let mut cpu = ArmCpu::new();
    assert_eq!(dispatch_runtime_slot(20, 0, &mut memory, &mut cpu, &mut runtime).unwrap(), HostRequest::Nothing);
    assert_eq!(runtime.random_state, 1_103_527_590);
    assert_eq!(cpu.register(0), 16838);
    cpu.set_register(0, 9);
    assert_eq!(
        dispatch_runtime_slot(40, 0, &mut memory, &mut cpu, &mut runtime).unwrap(),
        HostRequest::Service { slot: 40 }
    );
    assert_eq!(cpu.register(0), 9);
}

#[test]
fn transformed_bitmap_slot_copies_through_the_descriptors() {
    let (mut memory, mut runtime) = new_runtime(240, 320, b"a", b"b", 0x10_0000).unwrap();
    for i in 0..16u32 {
        memory.write_u16(GuestAddr(0x2000_1000 + 2 * i), (i + 1) as u16).unwrap();
    }
    let descriptor = |memory: &mut skyengine::memory::GuestMemory, at: u32, pixels: u32, x: u16, y: u16| {
        memory.write_u32(GuestAddr(at), pixels).unwrap();
        memory.write_u16(GuestAddr(at + 4), 4).unwrap();
        memory.write_u16(GuestAddr(at + 6), 4).unwrap();
        memory.write_u16(GuestAddr(at + 8), x).unwrap();
        memory.write_u16(GuestAddr(at + 10), y).unwrap();
    };
    descriptor(&mut memory, 0x2000_2000, 0x2000_1000, 1, 1);
    descriptor(&mut memory, 0x2000_2010, 0x2000_1040, 0, 0);
    for (i, v) in [256u16, 0, 0, 256, 2].iter().enumerate() {
        memory.write_u16(GuestAddr(0x2000_2020 + 2 * i as u32), *v).unwrap();
    }
    memory.write_u32(GuestAddr(0x2000_3000), 0x2000_2020).unwrap();
    memory.write_u32(GuestAddr(0x2000_3004), 0).unwrap();
    let mut cpu = ArmCpu::new();
    cpu.set_register(0, 0x2000_2000);
    cpu.set_register(1, 0x2000_2010);
    cpu.set_register(2, 2);
    cpu.set_register(3, 2);
    cpu.set_register(13, 0x2000_3000);
    assert_eq!(dispatch_runtime_slot(121, 7, &mut memory, &mut cpu, &mut runtime).unwrap(), HostRequest::Nothing);
    let copied: Vec<u16> = (0..8).map(|i| memory.read_u16(GuestAddr(0x2000_1040 + 2 * i)).unwrap()).collect();
    assert_eq!(copied, vec![6, 7, 0, 0, 10, 11, 0, 0]);
    assert_eq!(cpu.register(0), 0);
}

#[test]
fn malloc_slot_carves_blocks_from_the_heap_and_records_them() {
    let (mut memory, mut runtime) = new_runtime(240, 320, b"a", b"b", 0x10_0000).unwrap();
    let mut cpu = ArmCpu::new();
    cpu.set_register(0, 16);
    assert_eq!(dispatch_runtime_slot(0, 0, &mut memory, &mut cpu, &mut runtime).unwrap(), HostRequest::WithdrawExecute);
    assert_eq!(cpu.register(0), 0x2000_0000);
    cpu.set_register(0, 10);
    dispatch_runtime_slot(0, 0, &mut memory, &mut cpu, &mut runtime).unwrap();
    assert_eq!(cpu.register(0), 0x2000_0010);
    let bases: Vec<u32> = runtime.ownership.allocations.iter().map(|r| r.base).collect();
    assert_eq!(bases, vec![0x2000_0000, 0x2000_0010]);
    assert_eq!(runtime.pending_revocations.len(), 1);
    assert_eq!(runtime.pending_revocations[0].base, GuestAddr(0x2000_0010));
    cpu.set_register(0, 0x0200_0000);
    assert_eq!(dispatch_runtime_slot(0, 0, &mut memory, &mut cpu, &mut runtime).unwrap(), HostRequest::Nothing);
    assert_eq!(cpu.register(0), 0);
}

#[test]
fn malloc_slot_refuses_an_unalignable_length_and_defers_without_a_heap() {
    let (mut memory, mut runtime) = new_runtime(240, 320, b"a", b"b", 0x10_0000).unwrap();
    let mut cpu = ArmCpu::new();
    cpu.set_register(0, 0xffff_fffc);
    assert!(matches!(
        dispatch_runtime_slot(0, 0, &mut memory, &mut cpu, &mut runtime),
        Err(Error::ArmFault(m)) if m == "guest allocation length alignment overflow"
    ));
    memory.write_u32(GuestAddr(0x0100_1000 + 108 * 4), 0).unwrap();
    memory.write_u32(GuestAddr(0x0100_1000 + 110 * 4), 0).unwrap();
    cpu.set_register(0, 16);
    assert_eq!(
        dispatch_runtime_slot(0, 0, &mut memory, &mut cpu, &mut runtime).unwrap(),
        HostRequest::Service { slot: 0 }
    );
}

#[test]
fn resolve_slot_uses_the_dns_mappings() {
    let (mut memory, mut runtime) = new_runtime(240, 320, b"a", b"b", 0x10_0000).unwrap();
    runtime.dns_mappings = skyengine::dns::default_dns_mappings();
    memory.write(GuestAddr(0x2000_4000), b"ROP.skymobiapp.com.\0").unwrap();
    memory.write(GuestAddr(0x2000_4100), b"example.org\0").unwrap();
    let mut cpu = ArmCpu::new();
    cpu.set_register(0, 0x2000_4000);
    assert_eq!(dispatch_runtime_slot(83, 0, &mut memory, &mut cpu, &mut runtime).unwrap(), HostRequest::Nothing);
    assert_eq!(cpu.register(0), 0x9f4b_777c);
    cpu.set_register(0, 0x2000_4100);
    dispatch_runtime_slot(83, 0, &mut memory, &mut cpu, &mut runtime).unwrap();
    assert_eq!(cpu.register(0), u32::MAX);
}

#[test]
fn connect_slot_routes_the_endpoint_for_the_host() {
    let (mut memory, mut runtime) = new_runtime(240, 320, b"a", b"b", 0x10_0000).unwrap();
    runtime.dns_mappings = skyengine::dns::parse_dns_mappings("10.0.0.172->1.2.3.4:8080").unwrap();
    let mut cpu = ArmCpu::new();
    cpu.set_register(0, 3);
    cpu.set_register(1, 0x0a00_00ac);
    cpu.set_register(2, 80);
    cpu.set_register(3, 5000);
    assert_eq!(
        dispatch_runtime_slot(85, 0, &mut memory, &mut cpu, &mut runtime).unwrap(),
        HostRequest::Connect { handle: 3, ip: 0x0102_0304, port: 8080, timeout: 5000 }
    );
}

#[test]
fn bitmap_region_slot_copies_and_ors_rows_onto_the_screen() {
    let (mut memory, mut runtime) = new_runtime(240, 320, b"a", b"b", 0x10_0000).unwrap();
    memory.write_u32(GuestAddr(0x0100_1000 + 91 * 4), 0x2080_0000).unwrap();
    memory.write_u32(GuestAddr(0x0100_1000 + 92 * 4), 240).unwrap();
    memory.write_u32(GuestAddr(0x0100_1000 + 93 * 4), 320).unwrap();
    for (i, v) in [0x0001u16, 0x0002, 0x0100, 0x0200].iter().enumerate() {
        memory.write_u16(GuestAddr(0x2000_1000 + 2 * i as u32), *v).unwrap();
    }
    let stack = |memory: &mut skyengine::memory::GuestMemory, mode: u32| {
        for (i, v) in [2u32, mode, 0, 0, 0, 2].iter().enumerate() {
            memory.write_u32(GuestAddr(0x2000_3000 + 4 * i as u32), *v).unwrap();
        }
    };
    let screen = |x: u32, y: u32| GuestAddr(0x2080_0000 + (y * 240 + x) * 2);
    let mut cpu = ArmCpu::new();
    cpu.set_register(0, 0x2000_1000);
    cpu.set_register(1, 5);
    cpu.set_register(2, 7);
    cpu.set_register(3, 2);
    cpu.set_register(13, 0x2000_3000);
    stack(&mut memory, 2);
    assert_eq!(dispatch_runtime_slot(120, 0, &mut memory, &mut cpu, &mut runtime).unwrap(), HostRequest::Nothing);
    assert_eq!(cpu.register(0), 0);
    assert_eq!(memory.read_u16(screen(5, 7)).unwrap(), 0x0001);
    assert_eq!(memory.read_u16(screen(6, 7)).unwrap(), 0x0002);
    assert_eq!(memory.read_u16(screen(5, 8)).unwrap(), 0x0100);
    assert_eq!(memory.read_u16(screen(6, 8)).unwrap(), 0x0200);
    assert_eq!(memory.read_u16(screen(7, 7)).unwrap(), 0);
    cpu.set_register(0, 0x2000_1000);
    cpu.set_register(1, 6);
    stack(&mut memory, 0);
    dispatch_runtime_slot(120, 0, &mut memory, &mut cpu, &mut runtime).unwrap();
    assert_eq!(memory.read_u16(screen(5, 7)).unwrap(), 0x0001);
    assert_eq!(memory.read_u16(screen(6, 7)).unwrap(), 0x0003);
    assert_eq!(memory.read_u16(screen(7, 7)).unwrap(), 0x0002);
    assert_eq!(memory.read_u16(screen(6, 8)).unwrap(), 0x0300);
    assert_eq!(memory.read_u16(screen(7, 8)).unwrap(), 0x0200);
}

#[test]
fn bitmap_region_slot_refuses_an_unknown_mode() {
    let (mut memory, mut runtime) = new_runtime(240, 320, b"a", b"b", 0x10_0000).unwrap();
    for (i, v) in [2u32, 3, 0, 0, 0, 2].iter().enumerate() {
        memory.write_u32(GuestAddr(0x2000_3000 + 4 * i as u32), *v).unwrap();
    }
    let mut cpu = ArmCpu::new();
    cpu.set_register(3, 2);
    cpu.set_register(13, 0x2000_3000);
    let result = dispatch_runtime_slot(120, 4, &mut memory, &mut cpu, &mut runtime);
    assert!(matches!(result, Err(Error::Abi(m)) if m == "unsupported bitmap drawing mode 3 called by module 4"));
}

#[test]
fn a_slot_the_platform_lacks_is_refused() {
    let (mut memory, mut runtime) = new_runtime(240, 320, b"a", b"b", 0x10_0000).unwrap();
    let mut cpu = ArmCpu::new();
    for (r, v) in [(0usize, 1u32), (1, 2), (2, 3), (3, 0xdead_beef), (13, 0x2000_3000), (14, 0x1234_5679)] {
        cpu.set_register(r, v);
    }
    let result = dispatch_runtime_slot(27, 2, &mut memory, &mut cpu, &mut runtime);
    assert!(matches!(result, Err(Error::Abi(m)) if m == "unsupported platform slot 27 called by module 2 at LR 0x12345679 (r0=0x00000001, r1=0x00000002, r2=0x00000003, r3=0xdeadbeef, sp=0x20003000)"));
    assert!(matches!(dispatch_runtime_slot(133, 0, &mut memory, &mut cpu, &mut runtime), Err(Error::Abi(_))));
    assert_eq!(
        dispatch_runtime_slot(1, 0, &mut memory, &mut cpu, &mut runtime).unwrap(),
        HostRequest::Service { slot: 1 }
    );
}

#[test]
fn md5_slots_digest_a_message_appended_in_pieces() {
    let (mut memory, mut runtime) = new_runtime(240, 320, b"a", b"b", 0x10_0000).unwrap();
    memory.write(GuestAddr(0x2000_1000), b"abc").unwrap();
    let mut cpu = ArmCpu::new();
    cpu.set_register(0, 0x2000_2000);
    assert_eq!(dispatch_runtime_slot(113, 0, &mut memory, &mut cpu, &mut runtime).unwrap(), HostRequest::Nothing);
    for (at, len) in [(0x2000_1000u32, 1u32), (0x2000_1001, 2)] {
        cpu.set_register(0, 0x2000_2000);
        cpu.set_register(1, at);
        cpu.set_register(2, len);
        dispatch_runtime_slot(114, 0, &mut memory, &mut cpu, &mut runtime).unwrap();
    }
    cpu.set_register(0, 0x2000_2000);
    cpu.set_register(1, 0x2000_3000);
    dispatch_runtime_slot(115, 0, &mut memory, &mut cpu, &mut runtime).unwrap();
    let digest = memory.read(GuestAddr(0x2000_3000), 16).unwrap();
    let hex: String = digest.iter().map(|b| format!("{b:02x}")).collect();
    assert_eq!(hex, "900150983cd24fb0d6963f7d28e17f72");
}
