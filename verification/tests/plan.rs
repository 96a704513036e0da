use dashcam_hud::fields::SpeedUnit;
use dashcam_hud::plan::{plan_telemetry, DocPlan, FieldValue, JsonEntry};

fn text(key: &str, value: &str) -> JsonEntry {
    JsonEntry { key: key.to_string(), value: FieldValue::Text(value.to_string()) }
}

fn number(key: &str) -> JsonEntry {
    JsonEntry { key: key.to_string(), value: FieldValue::Number }
}

fn other(key: &str) -> JsonEntry {
    JsonEntry { key: key.to_string(), value: FieldValue::Other }
}

fn position(doc: &str, time: &str) -> Vec<JsonEntry> {
    vec![
        text(&format!("{doc}:GPSDateTime"), time),
        text(&format!("{doc}:GPSLatitude"), "1 deg 0' 0.00\" N"),
        text(&format!("{doc}:GPSLongitude"), "1 deg 0' 0.00\" E"),
    ]
}

fn ids(plans: &[DocPlan]) -> Vec<String> {
    plans.iter().map(|p| p.doc_id.clone()).collect()
}

#[test]
fn groups_are_ordered_by_doc_number() {
    let mut entries = position("Doc3", "2026:01:01 00:00:02Z");
    entries.push(text("Doc3:GPSSpeed", "10"));
    entries.push(text("Doc3:GPSSpeedRef", "K"));
    entries.extend(position("Doc1", "2026:01:01 00:00:00Z"));
    entries.push(text("Doc1:GPSSpeed", "5"));
    entries.push(text("Doc1:GPSSpeedRef", "K"));
    entries.extend(position("Doc2", "2026:01:01 00:00:01Z"));
    entries.push(text("Doc2:GPSSpeed", "7"));
    entries.push(text("Doc2:GPSSpeedRef", "K"));
    let plans = plan_telemetry(&entries);
    assert_eq!(ids(&plans), vec!["Doc1", "Doc2", "Doc3"]);
    for p in &plans {
        let g = p.gps.as_ref().unwrap();
        // A speed given as a string is not a number.
        assert_eq!(g.speed_entry, None);
        assert_eq!(g.unit, SpeedUnit::Kmh);
    }
}

#[test]
fn numeric_order_beats_name_order() {
    let mut entries = position("Doc10", "2026:01:01 00:00:09Z");
    entries.extend(position("Doc9", "2026:01:01 00:00:08Z"));
    entries.extend(position("Doc2", "2026:01:01 00:00:01Z"));
    let plans = plan_telemetry(&entries);
    assert_eq!(ids(&plans), vec!["Doc2", "Doc9", "Doc10"]);
}

#[test]
fn each_group_keeps_its_own_timestamp() {
    let mut entries = position("Doc1", "2026:01:01 00:00:00Z");
    entries.extend(position("Doc2", "2026:01:01 00:00:01Z"));
    entries.extend(position("Doc3", "2026:01:01 00:00:02Z"));
    let plans = plan_telemetry(&entries);
    assert_eq!(plans.len(), 3);
    let times: Vec<String> = plans.iter().map(|p| p.gps.as_ref().unwrap().timestamp.clone()).collect();
    assert_eq!(times, vec!["2026:01:01 00:00:00Z", "2026:01:01 00:00:01Z", "2026:01:01 00:00:02Z"]);
    assert_eq!(plans[0].gps.as_ref().unwrap().latitude, "1 deg 0' 0.00\" N");
    assert_eq!(plans[0].gps.as_ref().unwrap().longitude, "1 deg 0' 0.00\" E");
}

#[test]
fn numeric_speed_without_reference_is_kmh() {
    let mut entries = position("Doc1", "2026:01:01 00:00:00Z");
    entries.push(number("Doc1:GPSSpeed"));
    let plans = plan_telemetry(&entries);
    let g = plans[0].gps.as_ref().unwrap();
    assert_eq!(g.speed_entry, Some(3));
    assert_eq!(g.unit, SpeedUnit::Kmh);
}

#[test]
fn group_speed_reference_is_used() {
    let mut entries = position("Doc1", "2026:01:01 00:00:00Z");
    entries.push(number("Doc1:GPSSpeed"));
    entries.push(text("Doc1:GPSSpeedRef", "N"));
    entries.push(text("GPSSpeedRef", "M"));
    let plans = plan_telemetry(&entries);
    assert_eq!(plans[0].gps.as_ref().unwrap().unit, SpeedUnit::Knots);
}

#[test]
fn top_level_speed_reference_is_the_fallback() {
    let mut entries = vec![text("GPSSpeedRef", "M")];
    entries.extend(position("Doc1", "2026:01:01 00:00:00Z"));
    entries.push(number("Doc1:GPSSpeed"));
    let plans = plan_telemetry(&entries);
    assert_eq!(plans.len(), 1);
    let g = plans[0].gps.as_ref().unwrap();
    assert_eq!(g.unit, SpeedUnit::Mph);
    assert_eq!(g.speed_entry, Some(4));
}

#[test]
fn heading_is_read_only_from_a_number() {
    let mut entries = position("Doc1", "2026:01:01 00:00:00Z");
    entries.push(number("Doc1:GPSTrack"));
    entries.extend(position("Doc2", "2026:01:01 00:00:01Z"));
    entries.push(text("Doc2:GPSTrack", "214"));
    let plans = plan_telemetry(&entries);
    assert_eq!(plans[0].gps.as_ref().unwrap().heading_entry, Some(3));
    assert_eq!(plans[1].gps.as_ref().unwrap().heading_entry, None);
}

#[test]
fn accelerometer_only_group_has_no_gps() {
    let entries = vec![text("Doc1:Accelerometer", "-0.01 0.04 -0.98")];
    let plans = plan_telemetry(&entries);
    assert_eq!(plans.len(), 1);
    assert!(plans[0].gps.is_none());
    assert_eq!(plans[0].accel.as_deref(), Some("-0.01 0.04 -0.98"));
}

#[test]
fn gps_needs_all_three_strings() {
    let entries = vec![
        text("Doc1:GPSLatitude", "1 deg 0' 0.00\" N"),
        text("Doc1:GPSLongitude", "1 deg 0' 0.00\" E"),
        number("Doc1:GPSDateTime"),
    ];
    let plans = plan_telemetry(&entries);
    assert_eq!(plans.len(), 1);
    assert!(plans[0].gps.is_none());
    assert!(plans[0].accel.is_none());
}

#[test]
fn no_entries_give_no_groups() {
    assert!(plan_telemetry(&Vec::new()).is_empty());
}

#[test]
fn keys_outside_doc_groups_are_ignored() {
    let entries = vec![
        text("GPSSpeedRef", "K"),
        text("Main:Model", "N4 Pro"),
        other("SourceFile"),
        text("Document:Title", "x"),
    ];
    let plans = plan_telemetry(&entries);
    // "Document:Title" starts with "Doc", so its group is kept.
    assert_eq!(ids(&plans), vec!["Document"]);
}
