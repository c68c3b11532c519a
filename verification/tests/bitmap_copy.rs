use skyengine::bitmap_copy::{copy_transformed_bitmap, BitmapDescriptor};
use skyengine::graphics::BitmapTransform;
use skyengine::memory::{GuestAddr, GuestMemory, Permissions};

const IDENTITY: BitmapTransform = BitmapTransform { a: 256, b: 0, c: 0, d: 256, mode: 2 };

fn memory() -> GuestMemory {
    let mut memory = GuestMemory::new();
    memory
        .map(GuestAddr(0x1000), 0x100, Permissions::READ_WRITE, "bitmaps")
        .unwrap();
    memory
}

fn fill(memory: &mut GuestMemory, base: u32, pixels: &[u16]) {
    for (i, p) in pixels.iter().enumerate() {
        memory.write_u16(GuestAddr(base + 2 * i as u32), *p).unwrap();
    }
}

fn pixels(memory: &GuestMemory, base: u32, count: u32) -> Vec<u16> {
    (0..count).map(|i| memory.read_u16(GuestAddr(base + 2 * i)).unwrap()).collect()
}

fn bitmap(base: u32, width: usize, height: usize, x: i32, y: i32) -> BitmapDescriptor {
    BitmapDescriptor { pixels: GuestAddr(base), width, height, x, y }
}

#[test]
fn an_identity_copy_moves_a_region() {
    let mut memory = memory();
    fill(&mut memory, 0x1000, &(1..=16).collect::<Vec<u16>>());
    copy_transformed_bitmap(
        &mut memory,
        bitmap(0x1040, 4, 4, 0, 0),
        bitmap(0x1000, 4, 4, 1, 1),
        2,
        2,
        IDENTITY,
        0,
        0,
        0x1000,
    )
    .unwrap();
    assert_eq!(pixels(&memory, 0x1040, 8), vec![6, 7, 0, 0, 10, 11, 0, 0]);
}

#[test]
fn a_quarter_turn_lands_at_the_smallest_corner() {
    let mut memory = memory();
    // a 2 x 3 source region
    fill(&mut memory, 0x1000, &[1, 2, 3, 4, 5, 6]);
    let turn = BitmapTransform { a: 0, b: -256, c: 256, d: 0, mode: 2 };
    copy_transformed_bitmap(
        &mut memory,
        bitmap(0x1040, 3, 2, 0, 0),
        bitmap(0x1000, 2, 3, 0, 0),
        2,
        3,
        turn,
        0,
        0,
        0x1000,
    )
    .unwrap();
    assert_eq!(pixels(&memory, 0x1040, 6), vec![5, 3, 1, 6, 4, 2]);
}

#[test]
fn mode_six_skips_the_transparent_colour() {
    let mut memory = memory();
    fill(&mut memory, 0x1000, &[7, 9, 7, 9]);
    fill(&mut memory, 0x1040, &[1, 1, 1, 1]);
    let transform = BitmapTransform { mode: 6, ..IDENTITY };
    copy_transformed_bitmap(
        &mut memory,
        bitmap(0x1040, 2, 2, 0, 0),
        bitmap(0x1000, 2, 2, 0, 0),
        2,
        2,
        transform,
        7,
        0,
        0x1000,
    )
    .unwrap();
    assert_eq!(pixels(&memory, 0x1040, 4), vec![1, 9, 1, 9]);
}

#[test]
fn overlapping_copies_read_before_writing_and_clip() {
    let mut memory = memory();
    fill(&mut memory, 0x1000, &[1, 2, 3, 4]);
    copy_transformed_bitmap(
        &mut memory,
        bitmap(0x1000, 4, 1, 1, 0),
        bitmap(0x1000, 4, 1, 0, 0),
        4,
        1,
        IDENTITY,
        0,
        0,
        0x1000,
    )
    .unwrap();
    assert_eq!(pixels(&memory, 0x1000, 4), vec![1, 1, 2, 3]);
}

#[test]
fn bad_requests_are_refused() {
    let mut memory = memory();
    let source = bitmap(0x1000, 4, 4, 0, 0);
    let destination = bitmap(0x1040, 4, 4, 0, 0);
    let message = |transform: BitmapTransform, source: BitmapDescriptor, w: usize, h: usize, heap: usize, memory: &mut GuestMemory| {
        copy_transformed_bitmap(memory, destination, source, w, h, transform, 0, 1, heap)
            .unwrap_err()
            .to_string()
    };
    assert_eq!(
        message(BitmapTransform { mode: 3, ..IDENTITY }, source, 1, 1, 0x1000, &mut memory),
        "unsupported transformed bitmap mode 3 called by module 1"
    );
    assert_eq!(
        message(IDENTITY, bitmap(0x1000, 4, 4, -1, 0), 1, 1, 0x1000, &mut memory),
        "negative transformed bitmap source x -1"
    );
    assert_eq!(
        message(IDENTITY, bitmap(0x1000, 4, 4, 3, 0), 2, 1, 0x1000, &mut memory),
        "transformed bitmap source region (3, 0) 2x1 exceeds 4x4 bitmap"
    );
    assert_eq!(
        message(IDENTITY, source, 2, 2, 4, &mut memory),
        "transformed bitmap region requires 4 pixels"
    );
    assert!(copy_transformed_bitmap(&mut memory, destination, source, 0, 5, IDENTITY, 0, 1, 0).is_ok());
}
