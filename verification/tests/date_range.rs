use ingestion::date_range::DateRangeError;
use ingestion::DateRange;
use ingestion::Day;

fn ymd(y: i32, m: u32, d: u32) -> Day {
    Day::from_ymd(y, m, d).unwrap()
}

#[test]
fn test_valid_date_range() {
    let start = ymd(2025, 1, 1);
    let end = ymd(2025, 1, 10);
    let range = DateRange::new(start, end).unwrap();

    assert_eq!(range.days(), 10);
}

#[test]
fn test_invalid_date_range() {
    let start = ymd(2025, 1, 10);
    let end = ymd(2025, 1, 1);

    assert!(matches!(
        DateRange::new(start, end),
        Err(DateRangeError::StartAfterEnd)
    ));
}

#[test]
fn test_split_by_days() {
    let start = ymd(2025, 1, 1);
    let end = ymd(2025, 1, 3);
    let range = DateRange::new(start, end).unwrap();

    let days = range.split_by_days();
    assert_eq!(days.len(), 3);
    assert_eq!(days[0].start(), ymd(2025, 1, 1));
    assert_eq!(days[2].start(), ymd(2025, 1, 3));
}

#[test]
fn date_range_single_day_succeeds() {
    let d = ymd(2025, 3, 14);
    let range = DateRange::new(d, d).unwrap();
    assert_eq!(range.days(), 1);
    assert_eq!(DateRange::single_day(d), range);
}

#[test]
fn date_range_reversed_by_one_fails() {
    let d = ymd(2025, 3, 14);
    let next = ymd(2025, 3, 15);
    assert!(matches!(
        DateRange::new(next, d),
        Err(DateRangeError::StartAfterEnd)
    ));
}

#[test]
fn epoch_day_numbers_are_exact() {
    assert_eq!(ymd(1970, 1, 1).epoch_days(), 0);
    assert_eq!(ymd(1970, 1, 2).epoch_days(), 1);
    assert_eq!(ymd(1969, 12, 31).epoch_days(), -1);
    assert_eq!(ymd(2025, 1, 1).epoch_days(), 20089);
    assert_eq!(ymd(2024, 2, 29).epoch_days(), 19782);
}

#[test]
fn invalid_calendar_dates_rejected() {
    assert!(Day::from_ymd(2025, 2, 29).is_none());
    assert!(Day::from_ymd(2024, 2, 29).is_some());
    assert!(Day::from_ymd(2025, 0, 1).is_none());
    assert!(Day::from_ymd(2025, 13, 1).is_none());
    assert!(Day::from_ymd(2025, 4, 31).is_none());
    assert!(Day::from_ymd(-1, 1, 1).is_none());
    assert!(Day::from_ymd(10000, 1, 1).is_none());
}

#[test]
fn iso_rendering_is_padded() {
    assert_eq!(ymd(2025, 1, 1).to_iso_string(), "2025-01-01");
    assert_eq!(ymd(33, 7, 5).to_iso_string(), "0033-07-05");
}

#[test]
fn day_timestamps_are_exact() {
    let d = ymd(2025, 1, 1);
    assert_eq!(d.start_of_day_ts(), 20089 * 86_400_000);
    assert_eq!(d.end_of_day_ts(), 20089 * 86_400_000 + 86_399_000);
}

#[test]
fn timestamp_maps_back_to_its_day() {
    let d = ymd(2025, 1, 1);
    let noon = d.start_of_day_ts() + 12 * 3_600_000;
    assert_eq!(ingestion::date_range::day_of_timestamp_ms(noon), Some(d));
    assert_eq!(
        ingestion::date_range::day_of_timestamp_ms(d.start_of_day_ts() - 1),
        Some(ymd(2024, 12, 31))
    );
}

#[test]
fn contains_and_overlaps() {
    let range = DateRange::new(ymd(2025, 1, 2), ymd(2025, 1, 5)).unwrap();
    assert!(range.contains(ymd(2025, 1, 2)));
    assert!(range.contains(ymd(2025, 1, 5)));
    assert!(!range.contains(ymd(2025, 1, 1)));
    assert!(!range.contains(ymd(2025, 1, 6)));

    let other = DateRange::new(ymd(2025, 1, 5), ymd(2025, 1, 9)).unwrap();
    assert!(range.overlaps(&other));
    let disjoint = DateRange::new(ymd(2025, 1, 6), ymd(2025, 1, 9)).unwrap();
    assert!(!range.overlaps(&disjoint));
}
