use battery_status::config::default_configuration;
use battery_status::config::parse_config;
use battery_status::config::render_config;
use battery_status::config::BatteryStatusConfiguration;
use battery_status::config::ConfigError;

fn cfg(loc: &str) -> BatteryStatusConfiguration {
    BatteryStatusConfiguration { battery_location: loc.to_string() }
}

#[test]
fn first_run_configuration_names_the_fallback_device() {
    let c = default_configuration();
    assert_eq!(c.battery_location, "/org/freedesktop/UPower/devices/battery_BAT0");
}

#[test]
fn first_run_payload_is_the_expected_object() {
    let text = render_config(&default_configuration());
    assert_eq!(
        text,
        "{\"battery_location\": \"/org/freedesktop/UPower/devices/battery_BAT0\"}\n"
    );
}

#[test]
fn first_run_payload_reads_back_unchanged() {
    let text = render_config(&default_configuration());
    let read = parse_config(&text).unwrap();
    assert_eq!(read, default_configuration());
    let again = parse_config(&render_config(&read)).unwrap();
    assert_eq!(again, read);
}

#[test]
fn round_trip_keeps_plain_locations() {
    let c = cfg("/sys/class/power_supply/BAT1");
    assert_eq!(parse_config(&render_config(&c)).unwrap(), c);
}

#[test]
fn round_trip_keeps_empty_location() {
    let c = BatteryStatusConfiguration::default();
    assert_eq!(c.battery_location, "");
    assert_eq!(parse_config(&render_config(&c)).unwrap(), c);
}

#[test]
fn round_trip_escapes_quotes_and_backslashes() {
    let c = cfg("odd \"device\" with \\ inside");
    assert_eq!(parse_config(&render_config(&c)).unwrap(), c);
}

#[test]
fn round_trip_escapes_control_characters() {
    let c = cfg("tab\there\nnewline\u{0001}low");
    let text = render_config(&c);
    assert!(text.contains("\\t"));
    assert!(text.contains("\\n"));
    assert!(text.contains("\\u0001"));
    assert_eq!(parse_config(&text).unwrap(), c);
}

#[test]
fn round_trip_keeps_non_ascii_locations() {
    let c = cfg("batterie électrique 電池");
    assert_eq!(parse_config(&render_config(&c)).unwrap(), c);
}

#[test]
fn parse_accepts_flexible_whitespace() {
    let read = parse_config(" \t\r\n{ \"battery_location\" :\n\"dev\" }\n\n").unwrap();
    assert_eq!(read, cfg("dev"));
}

#[test]
fn parse_accepts_compact_object() {
    let read = parse_config("{\"battery_location\":\"dev\"}").unwrap();
    assert_eq!(read, cfg("dev"));
}

#[test]
fn parse_decodes_unicode_escapes() {
    let read = parse_config("{\"battery_location\": \"\\u0041\\u00e9\"}").unwrap();
    assert_eq!(read, cfg("Aé"));
}

#[test]
fn parse_decodes_surrogate_pairs() {
    let read = parse_config("{\"battery_location\": \"\\uD83D\\uDE00\"}").unwrap();
    assert_eq!(read, cfg("😀"));
}

#[test]
fn parse_decodes_escaped_key() {
    let read = parse_config("{\"battery\\u005flocation\": \"dev\"}").unwrap();
    assert_eq!(read, cfg("dev"));
}

#[test]
fn unknown_members_are_ignored() {
    let read = parse_config("{\"icon\": \"battery-full\", \"battery_location\": \"dev\"}").unwrap();
    assert_eq!(read, cfg("dev"));
    let read = parse_config("{\"battery_location\": \"dev\", \"retries\": 3}").unwrap();
    assert_eq!(read, cfg("dev"));
}

#[test]
fn unknown_members_of_any_value_type_are_ignored() {
    let text = "{\"a\": true, \"b\": null, \"c\": false, \"d\": -12.5e-2, \
                \"battery_location\": \"dev\", \"e\": 0}";
    assert_eq!(parse_config(text).unwrap(), cfg("dev"));
}

#[test]
fn unknown_nested_members_are_ignored() {
    let text = "{\"nested\": {\"x\": [1, 2.5, \"s\", {}, []], \"y\": {}}, \
                \"battery_location\": \"dev\", \"more\": [[], [null]]}";
    assert_eq!(parse_config(text).unwrap(), cfg("dev"));
}

#[test]
fn duplicate_battery_location_is_an_error() {
    let text = "{\"battery_location\": \"a\", \"battery_location\": \"b\"}";
    assert_eq!(parse_config(text), Err(ConfigError::Malformed));
}

#[test]
fn non_string_battery_location_is_an_error() {
    assert_eq!(parse_config("{\"battery_location\": 5}"), Err(ConfigError::Malformed));
    assert_eq!(parse_config("{\"battery_location\": null}"), Err(ConfigError::Malformed));
    assert_eq!(parse_config("{\"battery_location\": [\"dev\"]}"), Err(ConfigError::Malformed));
}

#[test]
fn bad_unknown_members_are_still_errors() {
    for bad in [
        "{\"x\": 01, \"battery_location\": \"dev\"}",
        "{\"x\": tru, \"battery_location\": \"dev\"}",
        "{\"x\": .5, \"battery_location\": \"dev\"}",
        "{\"x\": 1., \"battery_location\": \"dev\"}",
        "{\"x\": [1,], \"battery_location\": \"dev\"}",
        "{\"x\": {\"y\" 1}, \"battery_location\": \"dev\"}",
        "{\"battery_location\": \"dev\",}",
        "{\"battery_location\": \"dev\" \"x\": 1}",
    ] {
        assert_eq!(parse_config(bad), Err(ConfigError::Malformed), "input: {bad:?}");
    }
}

#[test]
fn malformed_text_is_a_hard_error() {
    for bad in [
        "",
        "   ",
        "{}",
        "{\"battery_location\": \"dev\"",
        "{\"battery_location\": \"dev}",
        "{\"battery_location\": dev}",
        "{\"battery_location\" \"dev\"}",
        "{\"other_key\": \"dev\"}",
        "{\"battery_location\": \"dev\"} trailing",
        "[\"battery_location\"]",
        "{\"battery_location\": \"lone\\uD800surrogate\"}",
        "{\"battery_location\": \"bad\\q escape\"}",
        "not json at all",
    ] {
        assert_eq!(parse_config(bad), Err(ConfigError::Malformed), "input: {bad:?}");
    }
}

#[test]
fn raw_control_character_in_string_is_an_error() {
    let text = "{\"battery_location\": \"a\u{0001}b\"}";
    assert_eq!(parse_config(text), Err(ConfigError::Malformed));
}
