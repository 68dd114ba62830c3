use adsb_xgps::decimal::Decimal;
use adsb_xgps::record::parse_sbs_line;
use adsb_xgps::registry::Registry;

fn empty_map() -> Registry {
    Registry::new()
}

fn sbs_line(msg_type: u8, hex: &str, fields: &[(usize, &str)]) -> String {
    let mut line_parts: Vec<String> = vec![String::new(); 22];
    line_parts[0] = "MSG".to_string();
    line_parts[1] = msg_type.to_string();
    line_parts[4] = hex.to_string();
    for &(idx, val) in fields {
        line_parts[idx] = val.to_string();
    }
    line_parts.join(",")
}

fn num(d: Option<Decimal>) -> Option<f64> {
    d.map(|d| d.to_text().parse().unwrap())
}

fn parse(line: &str, map: &mut Registry) {
    parse_sbs_line(line, map, 1000);
}

#[test]
fn msg1_sets_callsign() {
    let mut map = empty_map();
    parse(&sbs_line(1, "ABC123", &[(10, "TEST456")]), &mut map);

    assert_eq!(map.len(), 1);
    let a = map.get("ABC123").unwrap();
    assert_eq!(a.callsign.as_deref(), Some("TEST456"));
}

#[test]
fn msg1_empty_callsign_ignored() {
    let mut map = empty_map();
    parse(&sbs_line(1, "ABC123", &[]), &mut map);

    let a = map.get("ABC123").unwrap();
    assert!(a.callsign.is_none());
}

#[test]
fn msg1_does_not_set_position() {
    let mut map = empty_map();
    parse(&sbs_line(1, "ABC123", &[(10, "TEST456")]), &mut map);

    let a = map.get("ABC123").unwrap();
    assert!(a.latitude.is_none());
    assert!(a.longitude.is_none());
    assert!(a.altitude_ft.is_none());
}

#[test]
fn msg3_sets_position_and_altitude() {
    let mut map = empty_map();
    parse(
        &sbs_line(3, "ABC123", &[(11, "35000"), (14, "50.123"), (15, "-6.456")]),
        &mut map,
    );

    let a = map.get("ABC123").unwrap();
    assert_eq!(num(a.altitude_ft), Some(35000.0));
    assert_eq!(num(a.latitude), Some(50.123));
    assert_eq!(num(a.longitude), Some(-6.456));
}

#[test]
fn msg3_altitude_only_no_position() {
    let mut map = empty_map();
    parse(&sbs_line(3, "ABC123", &[(11, "24000")]), &mut map);

    let a = map.get("ABC123").unwrap();
    assert_eq!(num(a.altitude_ft), Some(24000.0));
    assert!(a.latitude.is_none());
    assert!(a.longitude.is_none());
}

#[test]
fn msg4_sets_speed_and_track() {
    let mut map = empty_map();
    parse(&sbs_line(4, "ABC123", &[(12, "420"), (13, "179")]), &mut map);

    let a = map.get("ABC123").unwrap();
    assert_eq!(num(a.ground_speed_kt), Some(420.0));
    assert_eq!(num(a.track), Some(179.0));
}

#[test]
fn msg4_does_not_set_position() {
    let mut map = empty_map();
    parse(&sbs_line(4, "ABC123", &[(12, "420"), (13, "179")]), &mut map);

    let a = map.get("ABC123").unwrap();
    assert!(a.latitude.is_none());
    assert!(a.altitude_ft.is_none());
}

#[test]
fn msg2_sets_all_fields() {
    let mut map = empty_map();
    parse(
        &sbs_line(
            2,
            "ABC123",
            &[(11, "100"), (12, "25"), (13, "90"), (14, "51.47"), (15, "-0.46")],
        ),
        &mut map,
    );

    let a = map.get("ABC123").unwrap();
    assert_eq!(num(a.altitude_ft), Some(100.0));
    assert_eq!(num(a.ground_speed_kt), Some(25.0));
    assert_eq!(num(a.track), Some(90.0));
    assert_eq!(num(a.latitude), Some(51.47));
    assert_eq!(num(a.longitude), Some(-0.46));
}

#[test]
fn msg5_sets_altitude() {
    let mut map = empty_map();
    parse(&sbs_line(5, "ABC123", &[(11, "37000")]), &mut map);

    let a = map.get("ABC123").unwrap();
    assert_eq!(num(a.altitude_ft), Some(37000.0));
    assert!(a.ground_speed_kt.is_none());
}

#[test]
fn msg7_sets_altitude() {
    let mut map = empty_map();
    parse(&sbs_line(7, "ABC123", &[(11, "39000")]), &mut map);

    let a = map.get("ABC123").unwrap();
    assert_eq!(num(a.altitude_ft), Some(39000.0));
}

#[test]
fn multiple_messages_aggregate_into_single_aircraft() {
    let mut map = empty_map();

    parse(&sbs_line(1, "AABBCC", &[(10, "UAL123")]), &mut map);
    parse(
        &sbs_line(3, "AABBCC", &[(11, "35000"), (14, "40.0"), (15, "-74.0")]),
        &mut map,
    );
    parse(&sbs_line(4, "AABBCC", &[(12, "450"), (13, "270")]), &mut map);

    assert_eq!(map.len(), 1);
    let a = map.get("AABBCC").unwrap();
    assert_eq!(a.callsign.as_deref(), Some("UAL123"));
    assert_eq!(num(a.altitude_ft), Some(35000.0));
    assert_eq!(num(a.latitude), Some(40.0));
    assert_eq!(num(a.longitude), Some(-74.0));
    assert_eq!(num(a.ground_speed_kt), Some(450.0));
    assert_eq!(num(a.track), Some(270.0));
}

#[test]
fn position_updates_overwrite_previous() {
    let mut map = empty_map();

    parse(
        &sbs_line(3, "ABC123", &[(11, "30000"), (14, "50.0"), (15, "-6.0")]),
        &mut map,
    );
    parse(
        &sbs_line(3, "ABC123", &[(11, "31000"), (14, "50.1"), (15, "-5.9")]),
        &mut map,
    );

    let a = map.get("ABC123").unwrap();
    assert_eq!(num(a.altitude_ft), Some(31000.0));
    assert_eq!(num(a.latitude), Some(50.1));
    assert_eq!(num(a.longitude), Some(-5.9));
}

#[test]
fn different_hex_idents_create_separate_entries() {
    let mut map = empty_map();

    parse(&sbs_line(1, "AAA111", &[(10, "FLIGHT1")]), &mut map);
    parse(&sbs_line(1, "BBB222", &[(10, "FLIGHT2")]), &mut map);

    assert_eq!(map.len(), 2);
    assert_eq!(map.get("AAA111").unwrap().callsign.as_deref(), Some("FLIGHT1"));
    assert_eq!(map.get("BBB222").unwrap().callsign.as_deref(), Some("FLIGHT2"));
}

#[test]
fn non_msg_line_ignored() {
    let mut map = empty_map();
    parse("STA,,,,,,,,,,,,,,,,,,,,,", &mut map);
    assert!(map.is_empty());
}

#[test]
fn too_few_fields_ignored() {
    let mut map = empty_map();
    parse("MSG,1,,,ABC123", &mut map);
    assert!(map.is_empty());
}

#[test]
fn empty_hex_ident_ignored() {
    let mut map = empty_map();
    parse(&sbs_line(1, "", &[(10, "TEST")]), &mut map);
    assert!(map.is_empty());
}

#[test]
fn invalid_msg_type_ignored() {
    let mut map = empty_map();
    parse("MSG,X,,,ABC123,,,,,,,,,,,,,,,,,", &mut map);
    assert!(map.is_empty());
}

#[test]
fn non_numeric_altitude_ignored() {
    let mut map = empty_map();
    parse(
        &sbs_line(3, "ABC123", &[(11, "notanumber"), (14, "50.0"), (15, "-6.0")]),
        &mut map,
    );

    let a = map.get("ABC123").unwrap();
    assert!(a.altitude_ft.is_none());
    assert_eq!(num(a.latitude), Some(50.0));
}

#[test]
fn msg6_creates_entry_no_position() {
    let mut map = empty_map();
    parse(&sbs_line(6, "ABC123", &[]), &mut map);

    let a = map.get("ABC123").unwrap();
    assert!(a.altitude_ft.is_none());
    assert!(a.callsign.is_none());
}

#[test]
fn msg8_creates_entry_no_data() {
    let mut map = empty_map();
    parse(&sbs_line(8, "ABC123", &[]), &mut map);

    let a = map.get("ABC123").unwrap();
    assert!(a.callsign.is_none());
    assert!(a.altitude_ft.is_none());
}

#[test]
fn non_numeric_value_keeps_previous_value() {
    let mut map = empty_map();
    parse(&sbs_line(5, "ABC123", &[(11, "30000")]), &mut map);
    parse(
        &sbs_line(3, "ABC123", &[(11, "n/a"), (14, "51.5"), (15, "-0.1")]),
        &mut map,
    );

    let a = map.get("ABC123").unwrap();
    assert_eq!(num(a.altitude_ft), Some(30000.0));
    assert_eq!(num(a.latitude), Some(51.5));
    assert_eq!(num(a.longitude), Some(-0.1));
}

#[test]
fn repeated_record_is_idempotent_except_time() {
    let mut map = empty_map();
    let line = sbs_line(2, "ABC123", &[(11, "100"), (12, "25"), (13, "90"), (14, "51.47")]);
    parse_sbs_line(&line, &mut map, 10);
    parse_sbs_line(&line, &mut map, 20);

    assert_eq!(map.len(), 1);
    let a = map.get("ABC123").unwrap();
    assert_eq!(num(a.altitude_ft), Some(100.0));
    assert_eq!(num(a.ground_speed_kt), Some(25.0));
    assert_eq!(num(a.track), Some(90.0));
    assert_eq!(num(a.latitude), Some(51.47));
    assert!(a.longitude.is_none());
    assert_eq!(a.last_updated, 20);
}

#[test]
fn every_record_refreshes_update_time() {
    let mut map = empty_map();
    parse_sbs_line(&sbs_line(3, "ABC123", &[(11, "100")]), &mut map, 5);
    parse_sbs_line(&sbs_line(8, "ABC123", &[]), &mut map, 9);

    let a = map.get("ABC123").unwrap();
    assert_eq!(a.last_updated, 9);
    assert_eq!(num(a.altitude_ft), Some(100.0));
}

#[test]
fn discarded_line_keeps_existing_entry() {
    let mut map = empty_map();
    parse_sbs_line(&sbs_line(1, "ABC123", &[(10, "KEEP")]), &mut map, 5);
    parse_sbs_line("MSG,1,,,ABC123,,,,,,NEW", &mut map, 9);
    parse_sbs_line(&sbs_line(1, "   ", &[(10, "NEW")]), &mut map, 9);

    assert_eq!(map.len(), 1);
    let a = map.get("ABC123").unwrap();
    assert_eq!(a.callsign.as_deref(), Some("KEEP"));
    assert_eq!(a.last_updated, 5);
}

#[test]
fn kind_and_cells_are_trimmed() {
    let mut map = empty_map();
    let line = "MSG, 3 ,,, ABC123 ,,,,,,, 35000 ,,, 50.5 ,-6.25,,,,,,";
    parse(line, &mut map);

    let a = map.get("ABC123").unwrap();
    assert_eq!(num(a.altitude_ft), Some(35000.0));
    assert_eq!(num(a.latitude), Some(50.5));
    assert_eq!(num(a.longitude), Some(-6.25));
}

#[test]
fn kind_out_of_byte_range_discarded() {
    let mut map = empty_map();
    parse(&sbs_line(1, "ABC123", &[(10, "X")]).replacen(",1,", ",256,", 1), &mut map);
    assert!(map.is_empty());
    parse(&sbs_line(1, "ABC123", &[(10, "X")]).replacen(",1,", ",-1,", 1), &mut map);
    assert!(map.is_empty());
}

#[test]
fn identifiers_are_case_sensitive() {
    let mut map = empty_map();
    parse(&sbs_line(1, "abc123", &[(10, "LOWER")]), &mut map);
    parse(&sbs_line(1, "ABC123", &[(10, "UPPER")]), &mut map);

    assert_eq!(map.len(), 2);
    assert_eq!(map.id_at(0), "abc123");
    assert_eq!(map.id_at(1), "ABC123");
}
