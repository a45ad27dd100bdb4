//! Cross-checks of the configuration codec against an independent JSON
//! implementation: what this library writes must be JSON that other tools
//! read, and what other tools write must read back here.

use battery_status::config::parse_config;
use battery_status::config::render_config;
use battery_status::config::BatteryStatusConfiguration;

fn cfg(loc: &str) -> BatteryStatusConfiguration {
    BatteryStatusConfiguration { battery_location: loc.to_string() }
}

fn location_via_serde(text: &str) -> String {
    let v: serde_json::Value = serde_json::from_str(text).unwrap();
    v.get("battery_location").unwrap().as_str().unwrap().to_string()
}

#[test]
fn rendered_config_is_json_other_readers_accept() {
    for loc in [
        "/org/freedesktop/UPower/devices/battery_BAT0",
        "",
        "odd \"device\" with \\ inside",
        "tab\there\nnewline\u{0001}low",
        "batterie électrique 電池",
    ] {
        let text = render_config(&cfg(loc));
        assert_eq!(location_via_serde(&text), loc, "location: {loc:?}");
    }
}

#[test]
fn config_written_by_serde_reads_back_here() {
    for loc in ["/sys/class/power_supply/BAT1", "a\"b\\c\u{0007}d"] {
        let mut m = serde_json::Map::new();
        m.insert(
            "battery_location".to_string(),
            serde_json::Value::String(loc.to_string()),
        );
        let text = serde_json::to_string(&serde_json::Value::Object(m)).unwrap();
        assert_eq!(parse_config(&text).unwrap(), cfg(loc), "location: {loc:?}");
    }
}

#[test]
fn serde_written_config_with_extra_members_reads_back_here() {
    let mut inner = serde_json::Map::new();
    inner.insert("poll_seconds".to_string(), serde_json::Value::from(30));
    inner.insert(
        "units".to_string(),
        serde_json::Value::Array(vec![
            serde_json::Value::String("Wh".to_string()),
            serde_json::Value::Null,
            serde_json::Value::Bool(true),
        ]),
    );
    let mut m = serde_json::Map::new();
    m.insert("display".to_string(), serde_json::Value::Object(inner));
    m.insert("scale".to_string(), serde_json::Value::from(-1.25));
    m.insert(
        "battery_location".to_string(),
        serde_json::Value::String("dev".to_string()),
    );
    let text = serde_json::to_string(&serde_json::Value::Object(m)).unwrap();
    assert_eq!(parse_config(&text).unwrap(), cfg("dev"));
}
