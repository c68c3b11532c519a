use skyengine::control::{
    key_code, parse_control_command, parse_i32, parse_u64, take_due_releases, ControlCommand,
};

#[test]
fn key_names_ignore_ascii_case() {
    assert_eq!(key_code("enter").unwrap(), 20);
    assert_eq!(key_code("Select").unwrap(), 20);
    assert_eq!(key_code("escape").unwrap(), 16);
    assert_eq!(key_code("power").unwrap(), 16);
    assert_eq!(key_code("softleft").unwrap(), 17);
    assert_eq!(key_code("RIGHT_SOFT").unwrap(), 18);
    assert_eq!(key_code("up").unwrap(), 12);
    assert_eq!(key_code("down").unwrap(), 13);
    assert_eq!(key_code("left").unwrap(), 14);
    assert_eq!(key_code("right").unwrap(), 15);
    assert_eq!(key_code("send").unwrap(), 19);
    assert_eq!(key_code("*").unwrap(), 10);
    assert_eq!(key_code("hash").unwrap(), 11);
    assert_eq!(key_code("#").unwrap(), 11);
    assert_eq!(key_code("0").unwrap(), 0);
    assert_eq!(key_code("7").unwrap(), 7);
}

#[test]
fn unknown_keys_are_reported_by_their_name() {
    assert_eq!(key_code("f1").unwrap_err(), "unknown_key f1");
    assert_eq!(key_code("12").unwrap_err(), "unknown_key 12");
    assert_eq!(key_code("").unwrap_err(), "unknown_key ");
}

#[test]
fn numeric_fields_name_what_is_wrong() {
    assert_eq!(parse_u64(Some("42"), "draw_count").unwrap(), 42);
    assert_eq!(parse_u64(Some("+7"), "draw_count").unwrap(), 7);
    assert_eq!(parse_u64(None, "draw_count").unwrap_err(), "missing_draw_count");
    assert_eq!(parse_u64(Some("-1"), "timeout_ms").unwrap_err(), "invalid_timeout_ms");
    assert_eq!(
        parse_u64(Some("18446744073709551616"), "timeout_ms").unwrap_err(),
        "invalid_timeout_ms"
    );
    assert_eq!(parse_i32(Some("-5"), "pointer_x").unwrap(), -5);
    assert_eq!(parse_i32(Some("-2147483648"), "pointer_x").unwrap(), i32::MIN);
    assert_eq!(
        parse_i32(Some("2147483648"), "pointer_y").unwrap_err(),
        "invalid_pointer_y"
    );
    assert_eq!(parse_i32(None, "pointer_y").unwrap_err(), "missing_pointer_y");
}

#[test]
fn control_commands_parse_into_actions() {
    assert!(matches!(
        parse_control_command("SET_CLIPBOARD hello world"),
        Ok(ControlCommand::SetClipboard("hello world"))
    ));
    assert!(matches!(
        parse_control_command("SET_CLIPBOARD"),
        Ok(ControlCommand::SetClipboard(""))
    ));
    assert!(matches!(
        parse_control_command("SET_CLIPBOARD  two"),
        Ok(ControlCommand::SetClipboard(" two"))
    ));
    assert!(matches!(
        parse_control_command("PASTE_SHORTCUT"),
        Ok(ControlCommand::PasteShortcut)
    ));
    assert!(matches!(
        parse_control_command("DRAW_COUNT"),
        Ok(ControlCommand::DrawCount)
    ));
    assert!(matches!(
        parse_control_command("WAIT_DRAW 3  1500"),
        Ok(ControlCommand::WaitDraw { previous: 3, timeout_ms: 1500 })
    ));
    assert!(matches!(
        parse_control_command("SCREEN_DRAW 4 /tmp/a b.ppm"),
        Ok(ControlCommand::ScreenDraw { draw: 4, path: "/tmp/a b.ppm" })
    ));
    assert!(matches!(
        parse_control_command("SCREEN /tmp/shot.ppm"),
        Ok(ControlCommand::Screen("/tmp/shot.ppm"))
    ));
    assert!(matches!(
        parse_control_command("KEY ok"),
        Err(ref e) if e == "unknown_key ok"
    ));
    assert!(matches!(
        parse_control_command("KEY enter 100"),
        Ok(ControlCommand::Key { code: 20, hold_ms: Some(100) })
    ));
    assert!(matches!(
        parse_control_command("KEY 5"),
        Ok(ControlCommand::Key { code: 5, hold_ms: None })
    ));
    assert!(matches!(
        parse_control_command("CLICK -3 40"),
        Ok(ControlCommand::Click { x: -3, y: 40, hold_ms: None })
    ));
    assert!(matches!(
        parse_control_command("CLICK 1 2 30"),
        Ok(ControlCommand::Click { x: 1, y: 2, hold_ms: Some(30) })
    ));
    assert!(matches!(parse_control_command("QUIT"), Ok(ControlCommand::Quit)));
}

#[test]
fn malformed_control_commands_are_refused() {
    let error = |command: &str| match parse_control_command(command) {
        Err(e) => e,
        Ok(_) => panic!("{command} was accepted"),
    };
    assert_eq!(error("WAIT_DRAW"), "unknown_command");
    assert_eq!(error("WAIT_DRAW "), "missing_draw_count");
    assert_eq!(error("WAIT_DRAW x 1"), "invalid_draw_count");
    assert_eq!(error("WAIT_DRAW 1"), "missing_timeout_ms");
    assert_eq!(error("WAIT_DRAW 1 2 3"), "invalid_wait_draw");
    assert_eq!(error("NOP"), "unknown_command");
    assert_eq!(error("KEY BOGUS"), "unknown_key BOGUS");
    assert_eq!(error("SCREEN_DRAW 4"), "invalid_screen_draw");
    assert_eq!(error("SCREEN_DRAW four x.ppm"), "invalid_screen_draw_count");
    assert_eq!(error("KEY "), "missing_key_name");
    assert_eq!(error("KEY up soon"), "invalid_key_hold");
    assert_eq!(error("KEY up 1 2"), "invalid_key");
    assert_eq!(error("KEY nope 1 2"), "invalid_key");
    assert_eq!(error("CLICK 1"), "missing_pointer_y");
    assert_eq!(error("CLICK 1 2 x"), "invalid_pointer_hold");
    assert_eq!(error("CLICK 1 2 3 4"), "invalid_click");
    assert_eq!(error("quit"), "unknown_command");
    assert_eq!(error(""), "unknown_command");
    let long = format!("SET_CLIPBOARD {}", "x".repeat(65537));
    assert_eq!(error(&long), "clipboard_too_large");
    let fits = format!("SET_CLIPBOARD {}", "x".repeat(65536));
    assert!(parse_control_command(&fits).is_ok());
}

#[test]
fn due_releases_are_taken_by_swapping_in_the_last() {
    let mut releases = vec![(5u64, 'a'), (20, 'b'), (3, 'c'), (9, 'd')];
    let due = take_due_releases(&mut releases, 5);
    // 'a' is taken and 'd' moves into its place; 'd' waits; 'c' is taken.
    assert_eq!(due, vec!['a', 'c']);
    assert_eq!(releases, vec![(9, 'd'), (20, 'b')]);
    assert!(take_due_releases(&mut releases, 4).is_empty());
    assert_eq!(take_due_releases(&mut releases, u64::MAX), vec!['d', 'b']);
    assert!(releases.is_empty());
}
