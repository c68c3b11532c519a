use skyengine::config::{e2e_sdl_preview_enabled, parse_device_date, parse_memory, parse_screen, DeviceDate};
use skyengine::error::Error;

#[test]
fn parses_supported_memory_profiles() {
    for (profile, expected_mebibytes) in [
        ("1M", 1),
        ("2M", 2),
        ("4M", 4),
        ("6M", 6),
        ("8M", 8),
        ("16M", 16),
    ] {
        assert_eq!(
            parse_memory(profile).unwrap(),
            expected_mebibytes * 1024 * 1024
        );
    }
}

#[test]
fn rejects_ambiguous_memory_sizes() {
    let error = parse_memory("2048K").unwrap_err();
    assert!(error
        .to_string()
        .contains("expected 1M, 2M, 4M, 6M, 8M, or 16M"));
}

#[test]
fn memory_error_quotes_the_value_as_debug_does() {
    let error = parse_memory("1m").unwrap_err();
    assert!(matches!(error, Error::Config(_)));
    assert_eq!(
        error.to_string(),
        "invalid memory size \"1m\"; expected 1M, 2M, 4M, 6M, 8M, or 16M"
    );
    assert!(parse_memory("").is_err());
    assert!(parse_memory("16M ").is_err());
}

#[test]
fn parses_valid_device_dates_and_host_mode() {
    assert_eq!(
        parse_device_date("2000-2-29").unwrap(),
        DeviceDate::new(2000, 2, 29).unwrap()
    );
    assert_eq!(
        parse_device_date("2012-06-20").unwrap(),
        DeviceDate::new(2012, 6, 20).unwrap()
    );
    assert!(parse_device_date("host").unwrap().year >= 1970);
}

#[test]
fn rejects_invalid_device_dates() {
    for value in [
        "2011-2-29",
        "1900-2-29",
        "2011-13-1",
        "2011-0-1",
        "2011-1-0",
        "2011-1-1x",
    ] {
        let error = parse_device_date(value).unwrap_err();
        assert!(error
            .to_string()
            .contains(&format!("invalid device date '{value}'")));
    }
}

#[test]
fn device_date_needs_exactly_three_fields() {
    for value in ["2011-1", "2011-1-1-1", "-1-1", "2011--1", "2011-1-", "", "70000-1-1"] {
        let error = parse_device_date(value).unwrap_err();
        assert_eq!(
            error.to_string(),
            format!("invalid device date '{value}'; expected YYYY-M-D or host")
        );
    }
    assert_eq!(
        parse_device_date("+2012-6-20").unwrap(),
        DeviceDate { year: 2012, month: 6, day: 20 }
    );
}

#[test]
fn device_date_validates_the_gregorian_calendar() {
    assert!(DeviceDate::new(2024, 2, 29).is_some());
    assert!(DeviceDate::new(2023, 2, 29).is_none());
    assert!(DeviceDate::new(2100, 2, 29).is_none());
    assert!(DeviceDate::new(2023, 4, 31).is_none());
    assert!(DeviceDate::new(2023, 12, 31).is_some());
}

#[test]
fn unix_days_count_from_the_epoch() {
    assert_eq!(
        DeviceDate::from_unix_days(0),
        DeviceDate { year: 1970, month: 1, day: 1 }
    );
    assert_eq!(
        DeviceDate::from_unix_days(59),
        DeviceDate { year: 1970, month: 3, day: 1 }
    );
    // 2000-02-29 is day 11016 after the epoch.
    assert_eq!(
        DeviceDate::from_unix_days(11016),
        DeviceDate { year: 2000, month: 2, day: 29 }
    );
    assert_eq!(
        DeviceDate::from_unix_days(15511),
        DeviceDate { year: 2012, month: 6, day: 20 }
    );
    assert_eq!(
        DeviceDate::from_unix_days(u64::MAX),
        DeviceDate { year: 65535, month: 12, day: 31 }
    );
}

#[test]
fn parses_screen_sizes() {
    assert_eq!(parse_screen("240x320").unwrap(), (240, 320));
    assert_eq!(parse_screen("176x220").unwrap(), (176, 220));
    assert_eq!(
        parse_screen("240").unwrap_err().to_string(),
        "invalid screen \"240\"; expected WIDTHxHEIGHT"
    );
    assert_eq!(
        parse_screen("ax320").unwrap_err().to_string(),
        "invalid screen width \"a\""
    );
    assert_eq!(
        parse_screen("240x320x1").unwrap_err().to_string(),
        "invalid screen height \"320x1\""
    );
    assert_eq!(
        parse_screen("0x320").unwrap_err().to_string(),
        "screen dimensions must be non-zero"
    );
    assert_eq!(
        parse_screen("240x65536").unwrap_err().to_string(),
        "invalid screen height \"65536\""
    );
}

#[test]
fn e2e_sdl_preview_is_disabled_only_for_the_dummy_driver() {
    assert!(!e2e_sdl_preview_enabled(Some(b"dummy")));
    assert!(e2e_sdl_preview_enabled(Some(b"x11")));
    assert!(e2e_sdl_preview_enabled(Some(b"wayland")));
    assert!(e2e_sdl_preview_enabled(None));
}
