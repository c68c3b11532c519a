use skyengine::cpu::ArmCpu;
use skyengine::jpeg::{
    decode_jpeg_rgb565, finish_platform_jpeg_decode, jpeg_decode_request, read_platform_jpeg,
    return_platform_jpeg_info, JpegInfo, JpegPixelFormat, PLATFORM_JPEG_INFO_DATA,
};
use skyengine::memory::{GuestAddr, GuestMemory, Permissions};

/// A 16 x 16 baseline RGB JPEG.
const IMAGE: [u8; 543] = [
    0xff, 0xd8, 0xff, 0xe0, 0x00, 0x10, 0x4a, 0x46, 0x49, 0x46, 0x00, 0x01, 0x01, 0x01, 0x00, 0x01,
    0x00, 0x01, 0x00, 0x00, 0xff, 0xdb, 0x00, 0x43, 0x00, 0x03, 0x02, 0x02, 0x02, 0x02, 0x02, 0x03,
    0x02, 0x02, 0x02, 0x03, 0x03, 0x03, 0x03, 0x04, 0x06, 0x04, 0x04, 0x04, 0x04, 0x04, 0x08, 0x06,
    0x06, 0x05, 0x06, 0x09, 0x08, 0x0a, 0x0a, 0x09, 0x08, 0x09, 0x09, 0x0a, 0x0c, 0x0f, 0x0c, 0x0a,
    0x0b, 0x0e, 0x0b, 0x09, 0x09, 0x0d, 0x11, 0x0d, 0x0e, 0x0f, 0x10, 0x10, 0x11, 0x10, 0x0a, 0x0c,
    0x12, 0x13, 0x12, 0x10, 0x13, 0x0f, 0x10, 0x10, 0x10, 0xff, 0xdb, 0x00, 0x43, 0x01, 0x03, 0x03,
    0x03, 0x04, 0x03, 0x04, 0x08, 0x04, 0x04, 0x08, 0x10, 0x0b, 0x09, 0x0b, 0x10, 0x10, 0x10, 0x10,
    0x10, 0x10, 0x10, 0x10, 0x10, 0x10, 0x10, 0x10, 0x10, 0x10, 0x10, 0x10, 0x10, 0x10, 0x10, 0x10,
    0x10, 0x10, 0x10, 0x10, 0x10, 0x10, 0x10, 0x10, 0x10, 0x10, 0x10, 0x10, 0x10, 0x10, 0x10, 0x10,
    0x10, 0x10, 0x10, 0x10, 0x10, 0x10, 0x10, 0x10, 0x10, 0x10, 0x10, 0x10, 0x10, 0x10, 0xff, 0xc0,
    0x00, 0x11, 0x08, 0x00, 0x10, 0x00, 0x10, 0x03, 0x01, 0x22, 0x00, 0x02, 0x11, 0x01, 0x03, 0x11,
    0x01, 0xff, 0xc4, 0x00, 0x16, 0x00, 0x01, 0x01, 0x01, 0x00, 0x00, 0x00, 0x00, 0x00, 0x00, 0x00,
    0x00, 0x00, 0x00, 0x00, 0x00, 0x00, 0x07, 0x04, 0x05, 0xff, 0xc4, 0x00, 0x24, 0x10, 0x00, 0x01,
    0x04, 0x01, 0x04, 0x02, 0x02, 0x03, 0x00, 0x00, 0x00, 0x00, 0x00, 0x00, 0x00, 0x00, 0x01, 0x02,
    0x03, 0x04, 0x06, 0x05, 0x07, 0x08, 0x12, 0x13, 0x11, 0x22, 0x00, 0x14, 0x09, 0x31, 0x32, 0xff,
    0xc4, 0x00, 0x15, 0x01, 0x01, 0x01, 0x00, 0x00, 0x00, 0x00, 0x00, 0x00, 0x00, 0x00, 0x00, 0x00,
    0x00, 0x00, 0x00, 0x00, 0x00, 0x06, 0xff, 0xc4, 0x00, 0x23, 0x11, 0x00, 0x01, 0x02, 0x05, 0x03,
    0x05, 0x00, 0x00, 0x00, 0x00, 0x00, 0x00, 0x00, 0x00, 0x00, 0x00, 0x01, 0x02, 0x11, 0x03, 0x04,
    0x05, 0x06, 0x21, 0x00, 0x12, 0x31, 0x15, 0x16, 0x61, 0x81, 0xe1, 0xff, 0xda, 0x00, 0x0c, 0x03,
    0x01, 0x00, 0x02, 0x11, 0x03, 0x11, 0x00, 0x3f, 0x00, 0x14, 0xa6, 0xd2, 0x6a, 0x1b, 0x73, 0xc1,
    0xe6, 0x13, 0x12, 0xd4, 0x95, 0x1c, 0xf3, 0x11, 0x63, 0xe4, 0x25, 0x65, 0xbe, 0xba, 0x5a, 0xec,
    0x69, 0x45, 0x40, 0xb1, 0xe5, 0x20, 0xb2, 0x54, 0xa5, 0x1f, 0xd2, 0xca, 0xb8, 0xfa, 0xf2, 0x20,
    0xab, 0x96, 0x3d, 0x97, 0x6c, 0x93, 0x35, 0xe6, 0x9b, 0x77, 0xd7, 0xe6, 0x6d, 0xa7, 0x17, 0x81,
    0xa5, 0x57, 0x1c, 0x7f, 0x1c, 0xea, 0x71, 0xe2, 0x4b, 0x39, 0xd7, 0xe3, 0x22, 0x53, 0xf2, 0x1a,
    0x69, 0xde, 0xd4, 0x71, 0x4a, 0x38, 0xb4, 0x82, 0xe8, 0x4b, 0x89, 0x2a, 0x71, 0x69, 0x1e, 0xcd,
    0x2d, 0x21, 0x3b, 0xf1, 0xef, 0xb9, 0x1a, 0x74, 0xac, 0xee, 0xa1, 0x5a, 0x75, 0x8e, 0xd5, 0x48,
    0xac, 0x65, 0x5b, 0x85, 0x8b, 0x81, 0x85, 0x7b, 0x21, 0x29, 0x98, 0x67, 0xa9, 0x6b, 0x94, 0xb9,
    0x49, 0x65, 0x4f, 0xb9, 0xc8, 0x85, 0x29, 0x11, 0x4b, 0x81, 0x2a, 0xf0, 0x7a, 0xd9, 0xf2, 0x3c,
    0x80, 0x7e, 0x55, 0xbe, 0x0d, 0xf6, 0x62, 0xa1, 0x40, 0xcc, 0xe8, 0xe6, 0x9a, 0x3d, 0x5c, 0xb7,
    0x43, 0xb3, 0xd7, 0x7a, 0x65, 0x58, 0xb1, 0xd9, 0x51, 0x21, 0x88, 0xbf, 0x64, 0xb8, 0xd3, 0xf1,
    0xc3, 0x68, 0x04, 0x29, 0xc0, 0xd0, 0xfe, 0xbb, 0x3c, 0x02, 0xe0, 0x3c, 0x54, 0x07, 0xb4, 0xbd,
    0xd9, 0x7b, 0x54, 0xe6, 0x27, 0xfb, 0x6e, 0xdf, 0x94, 0x60, 0x14, 0x82, 0x62, 0x13, 0x8d, 0xb8,
    0x52, 0x98, 0x28, 0x37, 0x05, 0x89, 0x72, 0x79, 0x60, 0xe4, 0x32, 0x89, 0x6f, 0xc3, 0x82, 0x8e,
    0xa7, 0x52, 0x8c, 0xea, 0x20, 0x8d, 0xbe, 0x78, 0x19, 0x1f, 0x07, 0xad, 0x7f, 0xff, 0xd9,
];

fn memory() -> GuestMemory {
    let mut memory = GuestMemory::new();
    memory
        .map(GuestAddr(0x1000), 0x2000, Permissions::READ_WRITE, "data")
        .unwrap();
    memory
        .map(GuestAddr(0x0100_1000), 0x1000, Permissions::READ_WRITE, "platform data")
        .unwrap();
    memory.write(GuestAddr(0x2000), &IMAGE).unwrap();
    memory
}

fn words(memory: &mut GuestMemory, at: u32, values: &[u32]) {
    for (i, v) in values.iter().enumerate() {
        memory.write_u32(GuestAddr(at + 4 * i as u32), *v).unwrap();
    }
}

fn expected_pixels() -> Vec<u8> {
    let mut decoder = jpeg_decoder::Decoder::new(std::io::Cursor::new(&IMAGE[..]));
    let samples = decoder.decode().unwrap();
    let mut out = Vec::new();
    for rgb in samples.chunks(3) {
        let color = ((u16::from(rgb[0]) >> 3) << 11) | ((u16::from(rgb[1]) >> 2) << 5) | (u16::from(rgb[2]) >> 3);
        out.extend_from_slice(&color.to_le_bytes());
    }
    out
}

fn info_call(memory: &mut GuestMemory, record: u32, r2: u32, output: u32) -> (Result<(), skyengine::error::Error>, ArmCpu) {
    let mut cpu = ArmCpu::new();
    cpu.set_register(1, record);
    cpu.set_register(2, r2);
    cpu.set_register(3, output);
    cpu.set_register(13, 0x1200);
    memory.write_u32(GuestAddr(0x1200), 0x1104).unwrap();
    let result = return_platform_jpeg_info(memory, &mut cpu);
    (result, cpu)
}

#[test]
fn the_info_service_reports_the_dimensions() {
    let mut memory = memory();
    words(&mut memory, 0x1000, &[0x2000, IMAGE.len() as u32, 1]);
    let (result, cpu) = info_call(&mut memory, 0x1000, 12, 0x1100);
    assert!(result.is_ok());
    assert_eq!(cpu.register(0), 0);
    assert_eq!(memory.read_u32(GuestAddr(0x1100)).unwrap(), PLATFORM_JPEG_INFO_DATA);
    assert_eq!(memory.read_u32(GuestAddr(0x1104)).unwrap(), 8);
    assert_eq!(memory.read_u32(GuestAddr(PLATFORM_JPEG_INFO_DATA)).unwrap(), 16);
    assert_eq!(memory.read_u32(GuestAddr(PLATFORM_JPEG_INFO_DATA + 4)).unwrap(), 16);
}

#[test]
fn the_info_service_answers_minus_one_for_other_codecs_and_clears_its_fields() {
    let mut memory = memory();
    words(&mut memory, 0x1000, &[0x2000, IMAGE.len() as u32, 2]);
    memory.write_u32(GuestAddr(0x1100), 7).unwrap();
    let (result, cpu) = info_call(&mut memory, 0x1000, 12, 0x1100);
    assert!(result.is_ok());
    assert_eq!(cpu.register(0), u32::MAX);
    assert_eq!(memory.read_u32(GuestAddr(0x1100)).unwrap(), 0);
    assert_eq!(memory.read_u32(GuestAddr(0x1104)).unwrap(), 0);
}

#[test]
fn the_info_service_refuses_malformed_calls() {
    let mut memory = memory();
    let (result, _) = info_call(&mut memory, 0x1000, 10, 0x1100);
    assert_eq!(result.unwrap_err().to_string(), "platform JPEG info input is 10 bytes, expected 12");
    let (result, cpu) = info_call(&mut memory, 0x1000, 12, 0);
    assert_eq!(
        result.unwrap_err().to_string(),
        "platform JPEG info requires output and output-length pointers"
    );
    assert_eq!(cpu.register(0), 0);
}

fn decode_cpu(record: u32) -> ArmCpu {
    let mut cpu = ArmCpu::new();
    cpu.set_register(1, record);
    cpu.set_register(2, 24);
    cpu.set_register(13, 0x1200);
    cpu
}

#[test]
fn the_decode_service_writes_rgb565_pixels() {
    let mut memory = memory();
    words(&mut memory, 0x1000, &[0x2000, IMAGE.len() as u32, 16, 16, 1, 0x2400]);
    let mut cpu = decode_cpu(0x1000);
    cpu.set_register(0, 5);
    let request = jpeg_decode_request(&memory, &mut cpu).unwrap().unwrap();
    assert_eq!(request.output_len, 512);
    assert_eq!(cpu.register(0), 5);
    finish_platform_jpeg_decode(&mut memory, &mut cpu, request, None).unwrap();
    assert_eq!(cpu.register(0), 0);
    assert_eq!(memory.read(GuestAddr(0x2400), 512).unwrap(), expected_pixels());
}

#[test]
fn the_decode_service_answers_minus_one_when_it_cannot_decode() {
    let mut memory = memory();
    words(&mut memory, 0x1000, &[0x2000, IMAGE.len() as u32, 16, 16, 1, 0x2400]);
    let mut cpu = decode_cpu(0x1000);
    let request = jpeg_decode_request(&memory, &mut cpu).unwrap().unwrap();
    finish_platform_jpeg_decode(&mut memory, &mut cpu, request, Some(100)).unwrap();
    assert_eq!(cpu.register(0), u32::MAX);
    words(&mut memory, 0x1000, &[0x2000, IMAGE.len() as u32, 16, 8, 1, 0x2400]);
    let mut cpu = decode_cpu(0x1000);
    assert!(jpeg_decode_request(&memory, &mut cpu).unwrap().is_none());
    assert_eq!(cpu.register(0), u32::MAX);
    let mut cpu = decode_cpu(0x1000);
    cpu.set_register(3, 4);
    assert_eq!(
        jpeg_decode_request(&memory, &mut cpu).unwrap_err().to_string(),
        "platform JPEG decode does not accept output buffers"
    );
}

#[test]
fn only_jpeg_bytes_are_candidates() {
    let mut memory = memory();
    let (bytes, info) = read_platform_jpeg(&memory, 0x2000, IMAGE.len()).unwrap().unwrap();
    assert_eq!(bytes, IMAGE.to_vec());
    assert_eq!(info, JpegInfo { width: 16, height: 16, format: JpegPixelFormat::Rgb24 });
    assert!(read_platform_jpeg(&memory, 0, IMAGE.len()).unwrap().is_none());
    assert!(read_platform_jpeg(&memory, 0x2000, 2).unwrap().is_none());
    memory.write(GuestAddr(0x2000), &[0xff, 0xd8, 0x00]).unwrap();
    assert!(read_platform_jpeg(&memory, 0x2000, IMAGE.len()).unwrap().is_none());
    assert_eq!(decode_jpeg_rgb565(&IMAGE, info).unwrap(), expected_pixels());
    let grey = JpegInfo { format: JpegPixelFormat::L16, ..info };
    assert!(decode_jpeg_rgb565(&IMAGE, grey).is_none());
}
