use dashcam_hud::fields::{doc_number, speed_unit, split_datetime, split_dms, split_whitespace_pieces, SpeedUnit};

fn chars(s: &str) -> Vec<char> {
    s.chars().collect()
}

#[test]
fn dms_north_splits_into_pieces() {
    let p = split_dms("39 deg 59' 2.18\" N").unwrap();
    assert_eq!(p.degrees, "39");
    assert_eq!(p.minutes, "59");
    assert_eq!(p.seconds, "2.18");
    assert!(!p.negative);
}

#[test]
fn dms_south_and_west_are_negative() {
    let s = split_dms("33 deg 52' 30.00\" S").unwrap();
    assert_eq!((s.degrees.as_str(), s.minutes.as_str(), s.seconds.as_str()), ("33", "52", "30.00"));
    assert!(s.negative);
    assert!(split_dms("3 deg 55' 15.60\" W").unwrap().negative);
}

#[test]
fn dms_east_and_zero_are_positive() {
    assert!(!split_dms("3 deg 55' 15.60\" E").unwrap().negative);
    let z = split_dms("0 deg 0' 0.00\" N").unwrap();
    assert_eq!((z.degrees.as_str(), z.minutes.as_str(), z.seconds.as_str()), ("0", "0", "0.00"));
    assert!(!z.negative);
}

#[test]
fn dms_surrounding_space_is_trimmed() {
    let p = split_dms("  39 deg 59'  2.18\"   N  ").unwrap();
    assert_eq!(p.degrees, "39");
    assert_eq!(p.minutes, "59");
    assert_eq!(p.seconds, "2.18");
}

#[test]
fn dms_malformed_gives_none() {
    assert!(split_dms("not a coordinate").is_none());
    assert!(split_dms("").is_none());
    assert!(split_dms("123.456").is_none());
    assert!(split_dms("39 deg 59 2.18 N").is_none());
    assert!(split_dms("39 deg 59' 2.18\"").is_none());
}

#[test]
fn datetime_with_zulu_suffix() {
    let d = split_datetime("2026:03:07 17:14:45Z").unwrap();
    assert_eq!(d.date_fields, vec![2026, 3, 7]);
    assert_eq!(d.time_fields, vec!["17".to_string(), "14".to_string(), "45".to_string()]);
}

#[test]
fn datetime_plus_offset_is_stripped() {
    let a = split_datetime("2026:03:07 17:14:45Z").unwrap();
    let b = split_datetime("2026:03:07 17:14:45+00:00").unwrap();
    assert_eq!(a.date_fields, b.date_fields);
    assert_eq!(a.time_fields, b.time_fields);
}

#[test]
fn datetime_without_zone_and_with_fraction() {
    let d = split_datetime("2026:03:07 17:14:45").unwrap();
    assert_eq!(d.time_fields[2], "45");
    let f = split_datetime("2026:03:07 17:14:45.500Z").unwrap();
    assert_eq!(f.time_fields[2], "45.500");
}

#[test]
fn datetime_of_the_epoch() {
    let d = split_datetime("1970:01:01 00:00:00Z").unwrap();
    assert_eq!(d.date_fields, vec![1970, 1, 1]);
    assert_eq!(d.time_fields, vec!["00".to_string(), "00".to_string(), "00".to_string()]);
}

#[test]
fn datetime_without_a_space_gives_none() {
    assert!(split_datetime("").is_none());
    assert!(split_datetime("2026:03:07T17:14:45Z").is_none());
}

#[test]
fn datetime_pieces_that_are_not_numbers_are_dropped() {
    let d = split_datetime("not a date").unwrap();
    assert!(d.date_fields.is_empty());
    assert_eq!(d.time_fields, vec!["a date".to_string()]);
    let m = split_datetime("2026:13:01 00:00:00Z").unwrap();
    assert_eq!(m.date_fields, vec![2026, 13, 1]);
}

#[test]
fn accelerometer_reading_splits_on_white_space() {
    assert_eq!(
        split_whitespace_pieces("-0.021 0.043 -0.982"),
        vec!["-0.021".to_string(), "0.043".to_string(), "-0.982".to_string()]
    );
    assert_eq!(split_whitespace_pieces("0.1 0.2").len(), 2);
    assert_eq!(split_whitespace_pieces("0.1 0.2 0.3 0.4").len(), 4);
    assert!(split_whitespace_pieces("").is_empty());
    assert_eq!(split_whitespace_pieces("  a\t b \n").len(), 2);
}

#[test]
fn speed_units_by_reference_letter() {
    assert_eq!(speed_unit("N"), SpeedUnit::Knots);
    assert_eq!(speed_unit("K"), SpeedUnit::Kmh);
    assert_eq!(speed_unit("M"), SpeedUnit::Mph);
    assert_eq!(speed_unit(" m "), SpeedUnit::Mph);
    assert_eq!(speed_unit("n"), SpeedUnit::Knots);
}

#[test]
fn unknown_or_empty_speed_reference_is_kmh() {
    assert_eq!(speed_unit("X"), SpeedUnit::Kmh);
    assert_eq!(speed_unit(""), SpeedUnit::Kmh);
    assert_eq!(speed_unit("NM"), SpeedUnit::Kmh);
}

#[test]
fn doc_numbers() {
    assert_eq!(doc_number(&chars("Doc1")), 1);
    assert_eq!(doc_number(&chars("Doc42")), 42);
    assert_eq!(doc_number(&chars("Doc")), 0);
    assert_eq!(doc_number(&chars("Docx")), 0);
    assert_eq!(doc_number(&chars("DocDoc7")), 7);
    assert_eq!(doc_number(&chars("Doc+5")), 5);
    assert_eq!(doc_number(&chars("Doc99999999999")), 0);
}
