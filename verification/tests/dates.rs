use session_dash::dates::{
    date_to_dow, day_abbrev_from_iso, days_since_epoch, days_to_ymd, format_resets_at,
    parse_iso_ms, yesterday_iso,
};
use session_dash::dates::iso_slices_fit;

#[test]
fn days_to_ymd_epoch_and_neighbours() {
    assert_eq!(days_to_ymd(0), (1970, 1, 1));
    assert_eq!(days_to_ymd(-1), (1969, 12, 31));
    assert_eq!(days_to_ymd(19723), (2024, 1, 1));
    assert_eq!(days_to_ymd(-719469), (0, 2, 29));
}

#[test]
fn yesterday_counts_from_the_shifted_day() {
    // The day number is shifted by 719468 before the civil date is taken.
    assert_eq!(yesterday_iso(1_700_000_000), "3993-09-14");
    assert_eq!(yesterday_iso(86_400), "3939-11-03");
}

#[test]
fn days_since_epoch_values() {
    assert_eq!(days_since_epoch(1970, 1, 1), 0);
    assert_eq!(days_since_epoch(2024, 2, 29), 19782);
    assert_eq!(days_since_epoch(2000, 3, 1), 11017);
}

#[test]
fn parse_iso_ms_reads_the_six_fields() {
    assert_eq!(parse_iso_ms("2024-01-15T10:30:00Z"), Some(1_705_314_600_000));
    assert_eq!(parse_iso_ms("1970-01-01T00:00:00"), Some(0));
    assert_eq!(parse_iso_ms("2024-01-15T10:30:00.123+02:00"), Some(1_705_314_600_000));
}

#[test]
fn parse_iso_ms_rejects_short_or_bad_text() {
    assert_eq!(parse_iso_ms("2024-01-15T10:30"), None);
    assert_eq!(parse_iso_ms("20x4-01-15T10:30:00Z"), None);
    assert_eq!(parse_iso_ms("2024-01-15T10:3a:00Z"), None);
    assert_eq!(parse_iso_ms(""), None);
}

#[test]
fn resets_at_formats_the_time_left() {
    let t = 1_705_314_600_000i64;
    assert_eq!(format_resets_at("2024-01-15T10:30:00Z", t - (2 * 86_400 + 3 * 3_600 + 5 * 60) * 1000), "2d 3h");
    assert_eq!(format_resets_at("2024-01-15T10:30:00Z", t - (3 * 3_600 + 5 * 60) * 1000), "3h 5m");
    assert_eq!(format_resets_at("2024-01-15T10:30:00Z", t - 59 * 60 * 1000 - 1), "59m");
    assert_eq!(format_resets_at("2024-01-15T10:30:00Z", t + 5), "now");
    assert_eq!(format_resets_at("not a date", t), "now");
}

#[test]
fn weekday_numbers() {
    assert_eq!(date_to_dow(2024, 1, 15), 0);
    assert_eq!(date_to_dow(2025, 3, 1), 5);
    assert_eq!(date_to_dow(1970, 1, 1), 3);
}

#[test]
fn weekday_labels_of_dates() {
    assert_eq!(day_abbrev_from_iso("2024-01-15"), "Sun");
    assert_eq!(day_abbrev_from_iso("2025-03-01"), "Fri");
    assert_eq!(day_abbrev_from_iso("2024-01"), "   ");
}

#[test]
fn timestamp_slices_checked() {
    assert!(iso_slices_fit("2024-01-15T10:30:00Z"));
    assert!(iso_slices_fit("short"));
    assert!(!iso_slices_fit("202é-01-15T10:30:00Z"));
    // A field that does not parse stops the reading before later slices.
    assert!(iso_slices_fit("20x4-01-15T10:3é:00Z"));
    assert!(!iso_slices_fit("2024-01-15T10:3é:00Z"));
}
