use skyengine::cpu::ArmCpu;
use skyengine::dispatch::{dispatch_step, DispatchAction};
use skyengine::memory::{GuestAddr, GuestMemory, Permissions};

fn memory() -> GuestMemory {
    let mut memory = GuestMemory::new();
    memory
        .map(GuestAddr(0x2000), 0x1000, Permissions::READ_WRITE, "service data")
        .unwrap();
    memory
}

fn hex(bytes: &[u8]) -> String {
    bytes.iter().map(|b| format!("{b:02x}")).collect()
}

#[test]
fn format_length_service_counts_the_string() {
    let mut memory = memory();
    memory.write(GuestAddr(0x2100), b"abc\0").unwrap();
    let mut cpu = ArmCpu::new();
    cpu.set_register(0, 0x2100);
    let mut random = 1;
    let action = dispatch_step(26, &mut memory, &mut cpu, &mut random).unwrap();
    assert_eq!(action, DispatchAction::Resume);
    assert_eq!(cpu.register(0), 3);
}

#[test]
fn datagram_sockets_are_refused() {
    let mut memory = memory();
    let mut cpu = ArmCpu::new();
    let mut random = 1;
    assert_eq!(dispatch_step(88, &mut memory, &mut cpu, &mut random).unwrap(), DispatchAction::Resume);
    assert_eq!(cpu.register(0), u32::MAX);
    cpu.set_register(0, 0);
    assert_eq!(dispatch_step(90, &mut memory, &mut cpu, &mut random).unwrap(), DispatchAction::Resume);
    assert_eq!(cpu.register(0), u32::MAX);
}

#[test]
fn rand_service_advances_the_state() {
    let mut memory = memory();
    let mut cpu = ArmCpu::new();
    let mut random = 1;
    dispatch_step(20, &mut memory, &mut cpu, &mut random).unwrap();
    assert_eq!(random, 1_103_527_590);
    assert_eq!(cpu.register(0), 16838);
}

#[test]
fn md5_services_digest_through_the_trap() {
    let mut memory = memory();
    memory.write(GuestAddr(0x2300), b"abc").unwrap();
    let mut cpu = ArmCpu::new();
    let mut random = 1;
    cpu.set_register(0, 0x2000);
    dispatch_step(113, &mut memory, &mut cpu, &mut random).unwrap();
    cpu.set_register(0, 0x2000);
    cpu.set_register(1, 0x2300);
    cpu.set_register(2, 3);
    dispatch_step(114, &mut memory, &mut cpu, &mut random).unwrap();
    assert_eq!(cpu.register(0), 0);
    cpu.set_register(0, 0x2000);
    cpu.set_register(1, 0x2200);
    dispatch_step(115, &mut memory, &mut cpu, &mut random).unwrap();
    let digest = memory.read(GuestAddr(0x2200), 16).unwrap();
    assert_eq!(hex(&digest), "900150983cd24fb0d6963f7d28e17f72");
}

#[test]
fn other_slots_go_to_the_runtime_untouched() {
    let mut memory = memory();
    let mut cpu = ArmCpu::new();
    cpu.set_register(0, 7);
    let mut random = 5;
    let action = dispatch_step(40, &mut memory, &mut cpu, &mut random).unwrap();
    assert_eq!(action, DispatchAction::Host { slot: 40 });
    assert_eq!(cpu.register(0), 7);
    assert_eq!(random, 5);
    assert_eq!(dispatch_step(0, &mut memory, &mut cpu, &mut random).unwrap(), DispatchAction::Host { slot: 0 });
}
