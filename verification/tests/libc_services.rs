use skyengine::cpu::ArmCpu;
use skyengine::error::Error;
use skyengine::libc_services::libc_service;
use skyengine::memory::{GuestAddr, GuestMemory, Permissions};

fn memory() -> GuestMemory {
    let mut memory = GuestMemory::new();
    memory
        .map(GuestAddr(0x1000), 0x100, Permissions::READ_WRITE, "data")
        .unwrap();
    memory
}

fn call(slot: u32, memory: &mut GuestMemory, args: [u32; 3]) -> (Result<(), Error>, ArmCpu) {
    let mut cpu = ArmCpu::new();
    cpu.set_register(0, args[0]);
    cpu.set_register(1, args[1]);
    cpu.set_register(2, args[2]);
    let mut state = 7u32;
    let result = libc_service(slot, memory, &mut cpu, &mut state);
    assert_eq!(state, 7);
    (result, cpu)
}

#[test]
fn memcpy_copies_and_returns_the_destination() {
    let mut memory = memory();
    memory.write(GuestAddr(0x1000), b"abcdef").unwrap();
    let (result, cpu) = call(3, &mut memory, [0x1040, 0x1000, 4]);
    assert!(result.is_ok());
    assert_eq!(cpu.register(0), 0x1040);
    assert_eq!(memory.read(GuestAddr(0x1040), 5).unwrap(), b"abcd\0");
}

#[test]
fn strcpy_writes_a_terminator() {
    let mut memory = memory();
    memory.write(GuestAddr(0x1000), b"hi\0").unwrap();
    memory.write(GuestAddr(0x1040), b"zzzz").unwrap();
    let (result, cpu) = call(5, &mut memory, [0x1040, 0x1000, 0]);
    assert!(result.is_ok());
    assert_eq!(cpu.register(0), 0x1040);
    assert_eq!(memory.read(GuestAddr(0x1040), 4).unwrap(), b"hi\0z");
}

#[test]
fn strncpy_pads_with_zeros() {
    let mut memory = memory();
    memory.write(GuestAddr(0x1000), b"ab\0").unwrap();
    memory.write(GuestAddr(0x1040), b"zzzzzz").unwrap();
    let (result, _) = call(6, &mut memory, [0x1040, 0x1000, 5]);
    assert!(result.is_ok());
    assert_eq!(memory.read(GuestAddr(0x1040), 6).unwrap(), b"ab\0\0\0z");
}

#[test]
fn strcat_and_strncat_append() {
    let mut memory = memory();
    memory.write(GuestAddr(0x1000), b"foo\0").unwrap();
    memory.write(GuestAddr(0x1020), b"barbaz\0").unwrap();
    let (result, cpu) = call(7, &mut memory, [0x1000, 0x1020, 0]);
    assert!(result.is_ok());
    assert_eq!(cpu.register(0), 0x1000);
    assert_eq!(memory.read(GuestAddr(0x1000), 10).unwrap(), b"foobarbaz\0");
    let (result, _) = call(8, &mut memory, [0x1000, 0x1020, 2]);
    assert!(result.is_ok());
    assert_eq!(memory.read(GuestAddr(0x1000), 12).unwrap(), b"foobarbazba\0");
}

#[test]
fn comparisons_give_byte_differences() {
    let mut memory = memory();
    memory.write(GuestAddr(0x1000), b"abc\0").unwrap();
    memory.write(GuestAddr(0x1010), b"abd\0").unwrap();
    memory.write(GuestAddr(0x1020), b"ab\0").unwrap();
    let (_, cpu) = call(9, &mut memory, [0x1000, 0x1010, 3]);
    assert_eq!(cpu.register(0) as i32, -1);
    let (_, cpu) = call(9, &mut memory, [0x1000, 0x1010, 2]);
    assert_eq!(cpu.register(0), 0);
    let (_, cpu) = call(10, &mut memory, [0x1010, 0x1000, 0]);
    assert_eq!(cpu.register(0), 1);
    let (_, cpu) = call(12, &mut memory, [0x1000, 0x1020, 0]);
    assert_eq!(cpu.register(0), 1);
    let (_, cpu) = call(11, &mut memory, [0x1000, 0x1010, 2]);
    assert_eq!(cpu.register(0), 0);
}

#[test]
fn searches_find_bytes_and_substrings() {
    let mut memory = memory();
    memory.write(GuestAddr(0x1000), b"hello world\0").unwrap();
    memory.write(GuestAddr(0x1020), b"wor\0").unwrap();
    memory.write(GuestAddr(0x1030), b"xyz\0").unwrap();
    memory.write(GuestAddr(0x1040), b"\0").unwrap();
    let (_, cpu) = call(13, &mut memory, [0x1000, b'o' as u32, 11]);
    assert_eq!(cpu.register(0), 0x1004);
    let (_, cpu) = call(13, &mut memory, [0x1000, b'o' as u32, 4]);
    assert_eq!(cpu.register(0), 0);
    let (_, cpu) = call(15, &mut memory, [0x1000, 0, 0]);
    assert_eq!(cpu.register(0), 11);
    let (_, cpu) = call(16, &mut memory, [0x1000, 0x1020, 0]);
    assert_eq!(cpu.register(0), 0x1006);
    let (_, cpu) = call(16, &mut memory, [0x1000, 0x1030, 0]);
    assert_eq!(cpu.register(0), 0);
    let (_, cpu) = call(16, &mut memory, [0x1000, 0x1040, 0]);
    assert_eq!(cpu.register(0), 0x1000);
}

#[test]
fn memset_fills() {
    let mut memory = memory();
    let (result, cpu) = call(14, &mut memory, [0x1000, 0x1ab, 3]);
    assert!(result.is_ok());
    assert_eq!(cpu.register(0), 0x1000);
    assert_eq!(memory.read(GuestAddr(0x1000), 4).unwrap(), [0xab, 0xab, 0xab, 0]);
}

#[test]
fn number_parsing_reports_the_end() {
    let mut memory = memory();
    memory.write(GuestAddr(0x1000), b"  -42xyz\0").unwrap();
    memory.write(GuestAddr(0x1020), b"0x1fz\0").unwrap();
    let (_, cpu) = call(18, &mut memory, [0x1000, 0, 0]);
    assert_eq!(cpu.register(0) as i32, -42);
    let (result, cpu) = call(19, &mut memory, [0x1020, 0x1080, 0]);
    assert!(result.is_ok());
    assert_eq!(cpu.register(0), 0x1f);
    assert_eq!(memory.read_u32(GuestAddr(0x1080)).unwrap(), 0x1024);
    let (_, cpu) = call(19, &mut memory, [0x1000, 0, 10]);
    assert_eq!(cpu.register(0) as i32, -42);
}

#[test]
fn rand_advances_the_generator() {
    let mut memory = memory();
    let mut cpu = ArmCpu::new();
    let mut state = 1u32;
    libc_service(20, &mut memory, &mut cpu, &mut state).unwrap();
    assert_eq!(state, 1_103_527_590);
    assert_eq!(cpu.register(0), (1_103_527_590 >> 16) & 0x7fff);
}

#[test]
fn faults_leave_the_core_untouched() {
    let mut memory = memory();
    let (result, cpu) = call(3, &mut memory, [0x1000, 0x9000, 4]);
    assert!(matches!(result, Err(Error::ArmFault(_))));
    assert_eq!(cpu.register(0), 0x1000);
    memory.write(GuestAddr(0x10f0), &[b'x'; 16]).unwrap();
    let (result, _) = call(15, &mut memory, [0x10f0, 0, 0]);
    assert!(matches!(result, Err(Error::ArmFault(_))));
}

fn sprintf_call(memory: &mut GuestMemory, format: &[u8], r2: u32, r3: u32) -> (Result<(), Error>, ArmCpu) {
    memory.write(GuestAddr(0x1000), format).unwrap();
    memory.write_u8(GuestAddr(0x1000 + format.len() as u32), 0).unwrap();
    let mut cpu = ArmCpu::new();
    cpu.set_register(0, 0x1080);
    cpu.set_register(1, 0x1000);
    cpu.set_register(2, r2);
    cpu.set_register(3, r3);
    cpu.set_register(13, 0x10c0);
    let mut state = 0u32;
    let result = libc_service(17, memory, &mut cpu, &mut state);
    (result, cpu)
}

#[test]
fn sprintf_formats_each_conversion() {
    let mut memory = memory();
    memory.write(GuestAddr(0x1060), b"str\0").unwrap();
    for (i, word) in [255u32, 255, 0x1234, b'A' as u32, 0x1060].iter().enumerate() {
        memory.write_u32(GuestAddr(0x10c0 + 4 * i as u32), *word).unwrap();
    }
    let (result, cpu) = sprintf_call(&mut memory, b"%d|%u|%x|%X|%p|%c|%s|%%", (-5i32) as u32, 42);
    assert!(result.is_ok());
    let expected = b"-5|42|ff|FF|0x00001234|A|str|%";
    assert_eq!(cpu.register(0), expected.len() as u32);
    let mut written = expected.to_vec();
    written.push(0);
    assert_eq!(memory.read(GuestAddr(0x1080), written.len()).unwrap(), written);
}

#[test]
fn sprintf_skips_flags_and_handles_extremes() {
    let mut memory = memory();
    let (result, cpu) = sprintf_call(&mut memory, b"<%08lx><%i>", 0x1f, 0x8000_0000);
    assert!(result.is_ok());
    assert_eq!(cpu.register(0), 17);
    assert_eq!(memory.read(GuestAddr(0x1080), 18).unwrap(), b"<1f><-2147483648>\0");
}

#[test]
fn sprintf_rejects_bad_formats() {
    let mut memory = memory();
    let (result, cpu) = sprintf_call(&mut memory, b"abc%5", 0, 0);
    assert_eq!(result.unwrap_err().to_string(), "sprintf format ends after '%'");
    assert_eq!(cpu.register(0), 0x1080);
    let (result, _) = sprintf_call(&mut memory, b"%q", 0, 0);
    assert_eq!(result.unwrap_err().to_string(), "unsupported sprintf specifier 'q'");
}
