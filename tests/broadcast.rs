use adsb_xgps::broadcast::{
    feet_to_meters, find_wanted, knots_to_meters_per_second, position_message, xgps_message,
};
use adsb_xgps::decimal::Decimal;
use adsb_xgps::record::parse_sbs_line;
use adsb_xgps::registry::{Aircraft, Registry};

fn dec(s: &str) -> Option<Decimal> {
    Decimal::parse(s)
}

fn sbs_line(msg_type: u8, hex: &str, fields: &[(usize, &str)]) -> String {
    let mut line_parts: Vec<String> = vec![String::new(); 22];
    line_parts[0] = "MSG".to_string();
    line_parts[1] = msg_type.to_string();
    line_parts[4] = hex.to_string();
    for &(idx, val) in fields {
        line_parts[idx] = val.to_string();
    }
    line_parts.join(",")
}

fn complete_registry(callsign: &str, at: u64) -> Registry {
    let mut map = Registry::new();
    parse_sbs_line(&sbs_line(1, "AABBCC", &[(10, callsign)]), &mut map, at);
    parse_sbs_line(
        &sbs_line(3, "AABBCC", &[(11, "3937.0"), (14, "34.55"), (15, "-80.11")]),
        &mut map,
        at,
    );
    parse_sbs_line(
        &sbs_line(4, "AABBCC", &[(12, "108.089"), (13, "359.05")]),
        &mut map,
        at,
    );
    map
}

#[test]
fn xgps_format_string() {
    let a = Aircraft {
        callsign: Some("UAL123".to_string()),
        longitude: dec("-80.11"),
        latitude: dec("34.55"),
        altitude_ft: dec("3937.0"),
        track: dec("359.05"),
        ground_speed_kt: dec("108.089"),
        last_updated: 0,
    };

    let msg = position_message(&a).unwrap();
    assert!(msg.starts_with("XGPSadsb_xgps,"));

    let parts: Vec<&str> = msg.strip_prefix("XGPSadsb_xgps,").unwrap().split(',').collect();
    assert_eq!(parts.len(), 5);

    let parsed_lon: f64 = parts[0].parse().unwrap();
    let parsed_lat: f64 = parts[1].parse().unwrap();
    let parsed_alt: f64 = parts[2].parse().unwrap();
    let parsed_track: f64 = parts[3].parse().unwrap();
    let parsed_gs: f64 = parts[4].parse().unwrap();

    assert!((parsed_lon - (-80.11)).abs() < 0.01);
    assert!((parsed_lat - 34.55).abs() < 0.01);
    assert!((parsed_alt - 1200.1).abs() < 0.2);
    assert!((parsed_track - 359.05).abs() < 0.01);
    assert!((parsed_gs - 55.6).abs() < 0.2);
}

#[test]
fn feet_to_meters_conversion() {
    let feet = dec("10000.0").unwrap();
    let meters: f64 = feet_to_meters(&feet, 4).parse().unwrap();
    assert!((meters - 3048.0).abs() < 0.01);
}

#[test]
fn knots_to_ms_conversion() {
    let knots = dec("100.0").unwrap();
    let ms: f64 = knots_to_meters_per_second(&knots, 4).parse().unwrap();
    assert!((ms - 51.4444).abs() < 0.001);
}

#[test]
fn conversions_exact_text() {
    assert_eq!(feet_to_meters(&dec("10000").unwrap(), 1), "3048.0");
    assert_eq!(knots_to_meters_per_second(&dec("100").unwrap(), 4), "51.4444");
    assert_eq!(feet_to_meters(&dec("3937.0").unwrap(), 1), "1200.0");
    assert_eq!(knots_to_meters_per_second(&dec("108.089").unwrap(), 1), "55.6");
}

#[test]
fn end_to_end_datagram() {
    let map = complete_registry("UAL123", 1_000);
    assert_eq!(
        xgps_message(&map, "UAL123", 2_000).as_deref(),
        Some("XGPSadsb_xgps,-80.11,34.55,1200.0,359.05,55.6")
    );
}

#[test]
fn callsign_match_ignores_ascii_case() {
    let map = complete_registry("UAL123", 1_000);
    assert_eq!(find_wanted(&map, "ual123"), Some(0));
    assert!(xgps_message(&map, "ual123", 1_000).is_some());
    assert!(xgps_message(&map, "UAL124", 1_000).is_none());
    assert_eq!(find_wanted(&map, "UAL12"), None);
}

#[test]
fn stale_entry_not_broadcast() {
    let map = complete_registry("UAL123", 1_000);
    assert!(xgps_message(&map, "UAL123", 6_000).is_some());
    assert!(xgps_message(&map, "UAL123", 6_001).is_none());
}

#[test]
fn incomplete_entry_not_broadcast() {
    let mut map = Registry::new();
    parse_sbs_line(&sbs_line(1, "AABBCC", &[(10, "UAL123")]), &mut map, 0);
    parse_sbs_line(
        &sbs_line(3, "AABBCC", &[(11, "3937.0"), (14, "34.55"), (15, "-80.11")]),
        &mut map,
        0,
    );
    parse_sbs_line(&sbs_line(4, "AABBCC", &[(12, "108.089")]), &mut map, 0);
    assert!(xgps_message(&map, "UAL123", 0).is_none());
    parse_sbs_line(&sbs_line(4, "AABBCC", &[(13, "359.05")]), &mut map, 0);
    assert!(xgps_message(&map, "UAL123", 0).is_some());
}

#[test]
fn first_matching_entry_is_selected() {
    let mut map = complete_registry("UAL123", 0);
    parse_sbs_line(&sbs_line(1, "DDEEFF", &[(10, "ual123")]), &mut map, 9_000);
    assert_eq!(find_wanted(&map, "UAL123"), Some(0));
    assert!(xgps_message(&map, "UAL123", 9_000).is_none());
}

#[test]
fn no_callsign_no_datagram() {
    let map = Registry::new();
    assert!(xgps_message(&map, "UAL123", 0).is_none());
}
