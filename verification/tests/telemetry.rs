use battery_status::numeric::Decimal;
use battery_status::telemetry::parse;
use battery_status::telemetry::PowerDeviceInfo;

fn dec(mantissa: u64, scale: u64) -> Decimal {
    Decimal { mantissa, scale }
}

#[test]
fn parses_full_device_block() {
    let mut text = String::new();
    text.push_str("  native-path:          /sys/devices/LNXSYSTM:00/battery\n");
    text.push_str("  vendor:               NoteVendor\n");
    text.push_str("  model:                bq 30z551\n");
    text.push_str("  serial:               1024\n");
    text.push_str("  updated:              Thu 09 Feb 2023 14:49:14 (1 seconds ago)\n");
    text.push_str("  has statistics:       yes\n");
    text.push_str("    present:            yes\n");
    text.push_str("    rechargeable:       yes\n");
    text.push_str("    warning-level:      none\n");
    text.push_str("    energy-now:         35.835 Wh\n");
    text.push_str("    energy-empty:       0 Wh\n");
    text.push_str("    energy-full:        42.796 Wh\n");
    text.push_str("    energy-full-design: 48.84 Wh\n");
    text.push_str("    percentage:         83%\n");
    text.push_str("    capacity:           87.6207%\n");
    let info = parse(&text);
    assert_eq!(info.native_path, "/sys/devices/LNXSYSTM:00/battery");
    assert_eq!(info.vendor, "NoteVendor");
    assert_eq!(info.model, "bq 30z551");
    assert_eq!(info.serial, "1024");
    assert_eq!(info.updated, "Thu 09 Feb 2023 14:49:14 (1 seconds ago)");
    assert!(info.has_statistics);
    assert!(info.battery_present);
    assert!(info.rechargeable);
    assert_eq!(info.warning_level, "none");
    assert_eq!(info.energy_now, dec(35835, 3));
    assert_eq!(info.energy_empty, dec(0, 0));
    assert_eq!(info.energy_full, dec(42796, 3));
    assert_eq!(info.energy_full_design, dec(4884, 2));
    assert_eq!(info.percentage, dec(83, 0));
    assert_eq!(info.capacity, dec(876207, 4));
}

#[test]
fn value_keeps_its_own_colons() {
    let info = parse("native-path: /org/freedesktop/UPower/devices/battery_BAT0:extra\n");
    assert_eq!(info.native_path, "/org/freedesktop/UPower/devices/battery_BAT0:extra");
}

#[test]
fn unknown_keys_are_ignored() {
    let info = parse("voltage: 12.1 V\nicon-name: 'battery-full'\nvendor: Acme\n");
    assert_eq!(info.vendor, "Acme");
    assert_eq!(info.native_path, "");
    assert_eq!(info.energy_now, dec(0, 0));
}

#[test]
fn lines_without_colon_are_discarded() {
    let info = parse("Device battery BAT0\n  vendor Acme\nmodel: M1\n");
    assert_eq!(info.model, "M1");
    assert_eq!(info.vendor, "");
}

#[test]
fn later_duplicate_key_wins() {
    let info = parse("vendor: First\nvendor: Second\n");
    assert_eq!(info.vendor, "Second");
}

#[test]
fn boolean_fields_compare_to_yes_literally() {
    let info = parse("present: yes\nrechargeable: no\nhas statistics: Yes\n");
    assert!(info.battery_present);
    assert!(!info.rechargeable);
    assert!(!info.has_statistics);
}

#[test]
fn missing_battery_defaults_to_absent_record() {
    let text = "Device could not be found\nicon-name: 'battery-missing'\n";
    let info = parse(text);
    assert_eq!(info, PowerDeviceInfo::default());
    assert!(!info.battery_present);
    assert_eq!(info.energy_now, dec(0, 0));
    assert_eq!(info.energy_full, dec(0, 0));
    assert_eq!(info.percentage, dec(0, 0));
}

#[test]
fn parse_is_deterministic() {
    let text = "vendor: Acme\npercentage: 83%\nserial: s:1\n";
    let a = parse(text);
    let b = parse(text);
    assert_eq!(a, b);
}

#[test]
fn empty_text_parses_to_default() {
    assert_eq!(parse(""), PowerDeviceInfo::default());
}
