use ingestion::detect_gaps;
use ingestion::DateRange;
use ingestion::Day;

fn ymd(y: i32, m: u32, d: u32) -> Day {
    Day::from_ymd(y, m, d).unwrap()
}

#[test]
fn test_no_gaps() {
    let expected = DateRange::new(ymd(2025, 1, 1), ymd(2025, 1, 5)).unwrap();

    let existing: Vec<Day> = (1..=5).map(|d| ymd(2025, 1, d)).collect();

    let gaps = detect_gaps("NQ", expected, &existing);
    assert_eq!(gaps.len(), 0);
}

#[test]
fn test_single_gap() {
    let expected = DateRange::new(ymd(2025, 1, 1), ymd(2025, 1, 5)).unwrap();

    let existing = vec![ymd(2025, 1, 1), ymd(2025, 1, 2), ymd(2025, 1, 5)];

    let gaps = detect_gaps("NQ", expected, &existing);
    assert_eq!(gaps.len(), 1);
    assert_eq!(gaps[0].range().start(), ymd(2025, 1, 3));
    assert_eq!(gaps[0].range().end(), ymd(2025, 1, 4));
}

#[test]
fn test_multiple_gaps() {
    let expected = DateRange::new(ymd(2025, 1, 1), ymd(2025, 1, 10)).unwrap();

    let existing = vec![ymd(2025, 1, 1), ymd(2025, 1, 5), ymd(2025, 1, 10)];

    let gaps = detect_gaps("NQ", expected, &existing);
    assert_eq!(gaps.len(), 2);
}

#[test]
fn gap_runs_to_range_end() {
    let expected = DateRange::new(ymd(2025, 1, 1), ymd(2025, 1, 4)).unwrap();
    let existing = vec![ymd(2025, 1, 1)];

    let gaps = detect_gaps("ES", expected, &existing);
    assert_eq!(gaps.len(), 1);
    assert_eq!(gaps[0].symbol(), "ES");
    assert_eq!(gaps[0].range().start(), ymd(2025, 1, 2));
    assert_eq!(gaps[0].range().end(), ymd(2025, 1, 4));
    assert_eq!(gaps[0].days(), 3);
}

#[test]
fn fully_absent_range_is_one_gap() {
    let expected = DateRange::new(ymd(2025, 1, 1), ymd(2025, 1, 3)).unwrap();
    let existing: Vec<Day> = Vec::new();

    let gaps = detect_gaps("NQ", expected, &existing);
    assert_eq!(gaps.len(), 1);
    assert_eq!(gaps[0].range().start(), ymd(2025, 1, 1));
    assert_eq!(gaps[0].range().end(), ymd(2025, 1, 3));
}

#[test]
fn existing_outside_range_is_ignored() {
    let expected = DateRange::new(ymd(2025, 1, 2), ymd(2025, 1, 3)).unwrap();
    let existing = vec![ymd(2025, 1, 1), ymd(2025, 1, 4)];

    let gaps = detect_gaps("NQ", expected, &existing);
    assert_eq!(gaps.len(), 1);
    assert_eq!(gaps[0].range().start(), ymd(2025, 1, 2));
    assert_eq!(gaps[0].range().end(), ymd(2025, 1, 3));
}
