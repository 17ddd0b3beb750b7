use glyphdb::dates::{
    day_to_civil, legacy_day_offset, today_day_number, warranty_status, CalendarDate,
    WarrantyStatus,
};
use glyphdb::numbers::parse_i64;

#[test]
fn decode_example_raw_value() {
    // 1609459200000 ms / 86400000 = 18628 days, + 25569 = day 44197
    assert_eq!(legacy_day_offset(1609459200000), 44197);
}

#[test]
fn decode_zero_is_epoch_offset_only() {
    assert_eq!(legacy_day_offset(0), 25569);
}

#[test]
fn decode_truncates_toward_zero_for_negative_values() {
    // -86400001 ms is just past one day backwards: truncation gives -1
    assert_eq!(legacy_day_offset(-86400001), 25568);
    assert_eq!(legacy_day_offset(-86399999), 25569);
}

#[test]
fn decode_survives_extreme_values() {
    assert_eq!(legacy_day_offset(i64::MAX), 9223372036854775807 / 86400000 + 25569);
    assert_eq!(legacy_day_offset(i64::MIN), -(9223372036854775807 / 86400000) + 25569);
}

#[test]
fn example_day_number_names_a_calendar_date() {
    let civil = day_to_civil(44197).expect("in range");
    assert_eq!(civil, CalendarDate { year: 2021, month: 1, day: 3 });
}

#[test]
fn day_zero_is_the_epoch() {
    let civil = day_to_civil(0).expect("in range");
    assert_eq!(civil, CalendarDate { year: 1900, month: 1, day: 1 });
}

#[test]
fn far_days_fall_out_of_calendar_range() {
    assert!(day_to_civil(100_000_000_000).is_none());
}

#[test]
fn zero_build_date_is_unknown_warranty() {
    let today = today_day_number();
    assert_eq!(warranty_status(0, today), WarrantyStatus::Unknown);
}

#[test]
fn warranty_boundary_is_1095_days() {
    let raw = 1609459200000i64; // decodes to day 44197
    assert_eq!(warranty_status(raw, 44197 + 1095), WarrantyStatus::InWarranty);
    assert_eq!(warranty_status(raw, 44197 + 1096), WarrantyStatus::OutOfWarranty);
    // a build date in the future still counts as in warranty
    assert_eq!(warranty_status(raw, 44197 - 50), WarrantyStatus::InWarranty);
}

#[test]
fn warranty_as_of_now_agrees_with_the_rule() {
    let (today, status) = glyphdb::dates::warranty_status_now(1609459200000);
    assert_eq!(status, warranty_status(1609459200000, today));
    let (_, absent) = glyphdb::dates::warranty_status_now(0);
    assert_eq!(absent, WarrantyStatus::Unknown);
}

#[test]
fn today_is_within_the_plausible_range() {
    let t = today_day_number();
    // between the years 2009 and 2170 or so
    assert!(t > 40_000 && t < 99_000);
}

#[test]
fn parse_accepts_plain_and_signed_integers() {
    assert_eq!(parse_i64("0"), Some(0));
    assert_eq!(parse_i64("1609459200000"), Some(1609459200000));
    assert_eq!(parse_i64("+42"), Some(42));
    assert_eq!(parse_i64("-17"), Some(-17));
}

#[test]
fn parse_handles_the_i64_boundaries() {
    assert_eq!(parse_i64("9223372036854775807"), Some(i64::MAX));
    assert_eq!(parse_i64("9223372036854775808"), None);
    assert_eq!(parse_i64("-9223372036854775808"), Some(i64::MIN));
    assert_eq!(parse_i64("-9223372036854775809"), None);
    assert_eq!(parse_i64("99999999999999999999999999"), None);
}

#[test]
fn parse_rejects_malformed_text() {
    assert_eq!(parse_i64(""), None);
    assert_eq!(parse_i64("-"), None);
    assert_eq!(parse_i64("+"), None);
    assert_eq!(parse_i64("12a3"), None);
    assert_eq!(parse_i64(" 12"), None);
    assert_eq!(parse_i64("1.5"), None);
}
