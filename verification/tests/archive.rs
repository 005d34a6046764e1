use ingestion::archive::parse_archive_filename;
use ingestion::archive::ArchiveFile;
use ingestion::archive::ArchiveGapDetector;
use ingestion::DateRange;
use ingestion::Day;

fn ymd(y: i32, m: u32, d: u32) -> Day {
    Day::from_ymd(y, m, d).unwrap()
}

fn file(name: &str, rows: u64) -> ArchiveFile {
    ArchiveFile {
        name: name.to_string(),
        rows,
    }
}

#[test]
fn filename_parsing_follows_the_convention() {
    assert_eq!(
        parse_archive_filename("NQ_20250101_10.parquet", "NQ"),
        Some(ymd(2025, 1, 1))
    );
    assert_eq!(
        parse_archive_filename("NQ_20241231_00.parquet", "NQ"),
        Some(ymd(2024, 12, 31))
    );
    // Wrong symbol, wrong suffix, malformed dates, stray underscores.
    assert_eq!(parse_archive_filename("ES_20250101_10.parquet", "NQ"), None);
    assert_eq!(parse_archive_filename("NQ_20250101_10.csv", "NQ"), None);
    assert_eq!(parse_archive_filename("NQ_2025010a_10.parquet", "NQ"), None);
    assert_eq!(parse_archive_filename("NQ_20250132_10.parquet", "NQ"), None);
    assert_eq!(parse_archive_filename("NQ_20250101.parquet", "NQ"), None);
    assert_eq!(
        parse_archive_filename("NQ_20250101_1_0.parquet", "NQ"),
        None
    );
    assert_eq!(parse_archive_filename("NQ.parquet", "NQ"), None);
}

#[test]
fn leap_day_filenames() {
    assert_eq!(
        parse_archive_filename("ES_20240229_23.parquet", "ES"),
        Some(ymd(2024, 2, 29))
    );
    assert_eq!(parse_archive_filename("ES_20250229_23.parquet", "ES"), None);
}

#[test]
fn archive_detector_reports_missing_days() {
    let detector = ArchiveGapDetector::new(vec![
        file("NQ_20250101_10.parquet", 5),
        file("NQ_20250101_11.parquet", 2),
        file("NQ_20250104_09.parquet", 1),
        // Zero rows: the day does not count as present.
        file("NQ_20250102_10.parquet", 0),
        // Another symbol's file does not count.
        file("ES_20250103_10.parquet", 7),
    ]);

    let range = DateRange::new(ymd(2025, 1, 1), ymd(2025, 1, 5)).unwrap();
    let gaps = detector.detect_gaps("NQ", range).unwrap();

    assert_eq!(gaps.len(), 2);
    assert_eq!(gaps[0].start(), ymd(2025, 1, 2));
    assert_eq!(gaps[0].end(), ymd(2025, 1, 3));
    assert_eq!(gaps[1].start(), ymd(2025, 1, 5));
    assert_eq!(gaps[1].end(), ymd(2025, 1, 5));
}

#[test]
fn archive_detector_with_full_archive_reports_nothing() {
    let detector = ArchiveGapDetector::new(vec![
        file("NQ_20250101_10.parquet", 1),
        file("NQ_20250102_10.parquet", 1),
    ]);
    let range = DateRange::new(ymd(2025, 1, 1), ymd(2025, 1, 2)).unwrap();
    let gaps = detector.detect_gaps("NQ", range).unwrap();
    assert!(gaps.is_empty());
}
