use skyengine::layout::{guest_layout, GuestLayout};
use skyengine::platform_commands::{file_position_reply, media_path_accepted, platform_command, PlatformCommand};

fn command(command: u32, argument: u32) -> Result<PlatformCommand, String> {
    platform_command(command, argument, 2, 0x1234, 5, 6).map_err(|e| e.to_string())
}

#[test]
fn slot_37_commands_map_to_actions() {
    assert_eq!(command(101, 3), Ok(PlatformCommand::SetOrientation { landscape: true }));
    assert_eq!(command(101, 0), Ok(PlatformCommand::SetOrientation { landscape: false }));
    assert_eq!(command(1001, 0xffff_ffff), Ok(PlatformCommand::SocketState { handle: -1 }));
    assert_eq!(command(1101, 2), Ok(PlatformCommand::Reply(u32::MAX)));
    assert_eq!(command(1218, 0), Ok(PlatformCommand::Reply(1001)));
    assert_eq!(command(1020, 0), Ok(PlatformCommand::Reply(1)));
    assert_eq!(command(4005, 2), Ok(PlatformCommand::SetMotion { active: true }));
    assert_eq!(command(4003, 0), Ok(PlatformCommand::SetMotion { active: false }));
    assert_eq!(command(1302, 5), Ok(PlatformCommand::SetVolume(5)));
    assert_eq!(command(1231, 7), Ok(PlatformCommand::FilePosition { handle: 7 }));
}

#[test]
fn unsupported_slot_37_commands_are_reported_with_registers() {
    assert_eq!(
        command(1302, 6),
        Err("unsupported platform slot 37 command (1302, 6) called by module 2 at LR 0x00001234 (r2=0x00000005, r3=0x00000006)".into())
    );
    assert_eq!(
        command(101, 1),
        Err("unsupported platform slot 37 command (101, 1) called by module 2 at LR 0x00001234 (r2=0x00000005, r3=0x00000006)".into())
    );
}

#[test]
fn file_positions_are_biased_by_a_thousand() {
    assert_eq!(file_position_reply(Some(24)), 1024);
    assert_eq!(file_position_reply(None), u32::MAX);
    assert_eq!(file_position_reply(Some(-1001)), u32::MAX);
    assert_eq!(file_position_reply(Some(i64::MAX)), u32::MAX);
    assert_eq!(file_position_reply(Some(u32::MAX as i64)), u32::MAX);
}

#[test]
fn media_paths_must_name_a_file_of_the_kind() {
    assert!(media_path_accepted(b"sound/cat.MP3", b".mp3"));
    assert!(media_path_accepted(b"a\\b\\meow.mp3", b".mp3"));
    assert!(!media_path_accepted(b".mp3", b".mp3"));
    assert!(!media_path_accepted(b"sound//cat.mp3", b".mp3"));
    assert!(!media_path_accepted(b"../cat.mp3", b".mp3"));
    assert!(!media_path_accepted(b"sound/./cat.mp3", b".mp3"));
    assert!(!media_path_accepted(b"sound/cat.wav", b".mp3"));
    assert!(!media_path_accepted(b"cat.mp3\0", b".mp3"));
    assert!(!media_path_accepted(b"sound/", b".mp3"));
    assert!(media_path_accepted(b"rec.wav", b".wav"));
}

#[test]
fn the_layout_follows_the_heap_size() {
    assert_eq!(
        guest_layout(240, 320, 0x0040_0000).unwrap(),
        GuestLayout {
            heap_len: 0x0040_0000,
            heap_end: 0x2040_0000,
            guest_ram_len: 0x0080_0000,
            screen_base: 0x2080_0000,
            screen_len: 240 * 320 * 2,
            screen_memory_len: 0x0010_0000,
        }
    );
    let large = guest_layout(640, 1000, 0x00c0_0000).unwrap();
    assert_eq!(large.guest_ram_len, 0x00c0_0000);
    assert_eq!(large.screen_base, 0x2100_1000);
    assert_eq!(large.screen_memory_len, 1_280_000);
    assert_eq!(
        guest_layout(8, 8, 0).unwrap_err().to_string(),
        "guest heap length must be non-zero"
    );
    assert_eq!(
        guest_layout(8, 8, 0x0100_0001).unwrap_err().to_string(),
        "guest heap length 16777217 exceeds supported maximum 16777216"
    );
}
