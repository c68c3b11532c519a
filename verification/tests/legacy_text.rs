use skyengine::cpu::ArmCpu;
use skyengine::error::Error;
use skyengine::legacy_text::{convert_platform_ucs2_to_legacy, encode_legacy_string_as_ucs2};
use skyengine::memory::{GuestAddr, GuestMemory, Permissions};

#[test]
fn legacy_strings_become_big_endian_ucs2() {
    assert_eq!(encode_legacy_string_as_ucs2(b"AB"), vec![0, 0x41, 0, 0x42, 0, 0]);
    assert_eq!(encode_legacy_string_as_ucs2(&[0xd6, 0xd0]), vec![0x4e, 0x2d, 0, 0]);
    assert_eq!(encode_legacy_string_as_ucs2(b""), vec![0, 0]);
}

fn memory() -> GuestMemory {
    let mut memory = GuestMemory::new();
    memory
        .map(GuestAddr(0x1000), 0x1000, Permissions::READ_WRITE, "data")
        .unwrap();
    memory
}

fn convert(memory: &mut GuestMemory, input: &[u8], len: u32, output_field: u32) -> (Result<(), Error>, ArmCpu) {
    memory.write(GuestAddr(0x1000), input).unwrap();
    memory.write_u32(GuestAddr(0x1200), 0x1204).unwrap();
    memory.write_u32(GuestAddr(0x1204), 99).unwrap();
    memory.write_u32(GuestAddr(0x1300), 0x1400).unwrap();
    let mut cpu = ArmCpu::new();
    cpu.set_register(1, 0x1000);
    cpu.set_register(2, len);
    cpu.set_register(3, output_field);
    cpu.set_register(13, 0x1200);
    let result = convert_platform_ucs2_to_legacy(memory, &mut cpu);
    (result, cpu)
}

#[test]
fn ucs2_converts_to_gbk_with_its_length() {
    let mut memory = memory();
    let (result, cpu) = convert(&mut memory, &[0x4e, 0x2d, 0x00, 0x41], 4, 0x1300);
    assert!(result.is_ok());
    assert_eq!(cpu.register(0), 0);
    assert_eq!(memory.read(GuestAddr(0x1400), 4).unwrap(), vec![0xd6, 0xd0, 0x41, 0]);
    assert_eq!(memory.read_u32(GuestAddr(0x1204)).unwrap(), 3);
}

#[test]
fn unpaired_surrogates_are_replaced() {
    let mut memory = memory();
    let (result, _) = convert(&mut memory, &[0xd8, 0x00], 2, 0x1300);
    assert!(result.is_ok());
    assert_eq!(memory.read(GuestAddr(0x1400), 9).unwrap(), b"&#65533;\0".to_vec());
    assert_eq!(memory.read_u32(GuestAddr(0x1204)).unwrap(), 8);
}

#[test]
fn malformed_conversions_answer_minus_one_or_fail() {
    let mut memory = memory();
    let (result, cpu) = convert(&mut memory, &[0x00, 0x41, 0x00], 3, 0x1300);
    assert!(result.is_ok());
    assert_eq!(cpu.register(0), u32::MAX);
    assert_eq!(memory.read_u32(GuestAddr(0x1204)).unwrap(), 0);
    let (result, cpu) = convert(&mut memory, &[0x00, 0x41], 2, 0);
    assert!(result.is_ok());
    assert_eq!(cpu.register(0), u32::MAX);
    let (result, _) = convert(&mut memory, &[], 65538, 0x1300);
    assert_eq!(
        result.unwrap_err().to_string(),
        "platform string conversion input is 65538 bytes (limit 65536)"
    );
}
