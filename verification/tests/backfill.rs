use ingestion::backfill_service::BackfillError;
use ingestion::backfill_service::BackfillServiceImpl;
use ingestion::historical_data::HistoricalDataError;
use ingestion::historical_data::HistoricalDataGateway;
use ingestion::historical_data::MockHistoricalDataGateway;
use ingestion::historical_data::StubGapDetector;
use ingestion::historical_data::StubHistoricalGateway;
use ingestion::job_state::InMemoryJobStateRepository;
use ingestion::job_state::JobState;
use ingestion::job_state::JobStateRepository;
use ingestion::job_state::JobStatus;
use ingestion::ports::RecordingTickRepository;
use ingestion::DateRange;
use ingestion::Day;
use ingestion::Price;
use ingestion::Tick;

type Service =
    BackfillServiceImpl<StubHistoricalGateway, StubGapDetector, RecordingTickRepository, InMemoryJobStateRepository>;

fn day(d: u32) -> Day {
    Day::from_ymd(2025, 1, d).unwrap()
}

fn job_key(symbol: &str, start: Day) -> String {
    format!("ingest:job:{}:{}", symbol, start.to_iso_string())
}

fn timestamp_for(date: Day, hour: i64, minute: i64) -> i64 {
    date.start_of_day_ts() + hour * 3_600_000 + minute * 60_000
}

fn end_of_day(date: Day) -> i64 {
    date.end_of_day_ts()
}

fn make_tick(symbol: &str, date: Day, hour: i64) -> Tick {
    Tick::new(
        timestamp_for(date, hour, 0),
        symbol.to_string(),
        Price::new(100_000, 2),
        1,
        Price::new(100_500, 2),
        1,
        Price::new(100_250, 2),
        1,
    )
    .unwrap()
}

fn sample_ticks(symbol: &str, date: Day, count: i64) -> Vec<Tick> {
    (0..count)
        .map(|idx| make_tick(symbol, date, 10 + idx))
        .collect()
}

fn build_service(
    ticks: Vec<(Day, Vec<Tick>)>,
    gaps: Vec<DateRange>,
    job_repo: InMemoryJobStateRepository,
) -> Service {
    let mut gateway = StubHistoricalGateway::new();
    for (date, batch) in ticks {
        gateway.insert_day(date, batch);
    }
    BackfillServiceImpl::new(
        gateway,
        StubGapDetector::new(gaps),
        RecordingTickRepository::new(),
        job_repo,
    )
}

fn saved_days(repo: &RecordingTickRepository) -> Vec<Day> {
    repo.saved
        .iter()
        .map(|batch| {
            ingestion::date_range::day_of_timestamp_ms(batch[0].timestamp()).unwrap()
        })
        .collect()
}

#[test]
fn resumes_current_day_even_without_gap() {
    let mut job_repo = InMemoryJobStateRepository::new();
    let key = job_key("ES", day(1));
    let cursor = timestamp_for(day(1), 12, 0);
    let now = timestamp_for(day(3), 0, 0);
    job_repo
        .upsert(
            &key,
            &JobState::new(
                "job-1".to_string(),
                JobStatus::Running,
                cursor,
                end_of_day(day(2)),
                now - 600_000,
            ),
        )
        .unwrap();

    let mut service = build_service(
        vec![(day(1), sample_ticks("ES", day(1), 2))],
        vec![],
        job_repo,
    );

    let range = DateRange::new(day(1), day(2)).unwrap();
    let report = service.backfill_range("ES", range, now).unwrap();

    assert_eq!(report.days_processed, 1);
    assert_eq!(report.total_ticks, 2);
    assert_eq!(saved_days(&service.repository), vec![day(1)]);
    assert_eq!(service.repository.shutdowns, 1);

    let final_state = service.job_state_repo.get(&key).unwrap().unwrap();
    assert_eq!(final_state.status, JobStatus::Completed);
    assert!(final_state.cursor >= timestamp_for(day(1), 11, 0));
}

#[test]
fn processes_gap_days_and_updates_job_state() {
    let job_repo = InMemoryJobStateRepository::new();
    let gap_range = DateRange::new(day(1), day(2)).unwrap();
    let mut service = build_service(
        vec![
            (day(1), sample_ticks("NQ", day(1), 3)),
            (day(2), sample_ticks("NQ", day(2), 1)),
        ],
        vec![gap_range],
        job_repo,
    );

    let now = timestamp_for(day(3), 0, 0);
    let range = DateRange::new(day(1), day(2)).unwrap();
    let report = service.backfill_range("NQ", range, now).unwrap();

    assert_eq!(report.days_processed, 2);
    assert_eq!(report.total_ticks, 4);
    assert_eq!(saved_days(&service.repository), vec![day(1), day(2)]);

    let key = job_key("NQ", day(1));
    let state = service.job_state_repo.get(&key).unwrap().unwrap();
    assert_eq!(state.status, JobStatus::Completed);
    assert!(state.cursor >= timestamp_for(day(2), 10, 0));
    assert!(!state.job_instance_id.is_empty());
}

#[test]
fn stale_job_takeover_preserves_cursor() {
    let mut job_repo = InMemoryJobStateRepository::new();
    let key = job_key("ES", day(1));
    let cursor = timestamp_for(day(2), 23, 59);
    let now = timestamp_for(day(3), 0, 0);
    let stale = JobState::new(
        "old-instance".to_string(),
        JobStatus::Running,
        cursor,
        timestamp_for(day(3), 0, 0),
        now - 600_000,
    );
    job_repo.upsert(&key, &stale).unwrap();

    let mut service = build_service(vec![], vec![], job_repo);

    let range = DateRange::new(day(1), day(1)).unwrap();
    service
        .backfill_range("ES", range, now)
        .expect("stale job should be taken over");

    let final_state = service
        .job_state_repo
        .get(&key)
        .unwrap()
        .expect("state present");
    assert_ne!(final_state.job_instance_id, "old-instance");
    assert_eq!(final_state.cursor, cursor);
    assert_eq!(final_state.status, JobStatus::Completed);
}

#[test]
fn active_job_returns_error() {
    let mut job_repo = InMemoryJobStateRepository::new();
    let key = job_key("NQ", day(1));
    let now = timestamp_for(day(1), 13, 0);
    let fresh = JobState::new(
        "running".to_string(),
        JobStatus::Running,
        timestamp_for(day(1), 12, 0),
        end_of_day(day(1)),
        now,
    );
    job_repo.upsert(&key, &fresh).unwrap();

    let mut service = build_service(vec![], vec![], job_repo);

    let range = DateRange::new(day(1), day(1)).unwrap();
    let err = service
        .backfill_range("NQ", range, now)
        .expect_err("should reject active job");
    match err {
        BackfillError::JobAlreadyRunning(k) => assert_eq!(k, key),
        other => panic!("unexpected error: {other:?}"),
    }

    let final_state = service
        .job_state_repo
        .get(&key)
        .unwrap()
        .expect("state present");
    assert_eq!(final_state.job_instance_id, "running");
}

#[test]
fn fresh_range_single_day_completes() {
    let job_repo = InMemoryJobStateRepository::new();
    let mut service = build_service(
        vec![(day(1), sample_ticks("NQ", day(1), 2))],
        vec![],
        job_repo,
    );

    let now = timestamp_for(day(2), 0, 0);
    let range = DateRange::new(day(1), day(1)).unwrap();
    let report = service.backfill_range("NQ", range, now).unwrap();

    assert_eq!(report.days_processed, 1);
    assert_eq!(report.total_ticks, 2);
    assert!(report.failed_days.is_empty());
    assert_eq!(service.repository.saved.len(), 1);
    assert_eq!(service.repository.saved[0].len(), 2);
    assert_eq!(service.repository.shutdowns, 1);

    let key = job_key("NQ", day(1));
    let state = service.job_state_repo.get(&key).unwrap().unwrap();
    assert_eq!(state.status, JobStatus::Completed);
    assert!(state.cursor >= timestamp_for(day(1), 11, 0));
}

#[test]
fn completed_cursor_past_range_finalizes_with_zero_days() {
    let mut job_repo = InMemoryJobStateRepository::new();
    let key = job_key("NQ", day(1));
    let now = timestamp_for(day(4), 0, 0);
    let done = JobState::new(
        "done-instance".to_string(),
        JobStatus::Completed,
        end_of_day(day(2)),
        end_of_day(day(2)),
        now - 10_000_000,
    );
    job_repo.upsert(&key, &done).unwrap();

    let mut service = build_service(vec![], vec![], job_repo);

    let range = DateRange::new(day(1), day(2)).unwrap();
    let report = service.backfill_range("NQ", range, now).unwrap();

    assert_eq!(report.days_processed, 0);
    assert_eq!(report.total_ticks, 0);
    assert!(report.failed_days.is_empty());
    let state = service.job_state_repo.get(&key).unwrap().unwrap();
    assert_eq!(state.status, JobStatus::Completed);
    assert_eq!(state.cursor, end_of_day(day(2)));
}

#[test]
fn empty_day_advances_cursor_to_day_end() {
    let job_repo = InMemoryJobStateRepository::new();
    // No ticks configured: the day is processed but empty.
    let mut service = build_service(vec![], vec![], job_repo);

    let now = timestamp_for(day(2), 0, 0);
    let range = DateRange::new(day(1), day(1)).unwrap();
    let report = service.backfill_range("NQ", range, now).unwrap();

    assert_eq!(report.days_processed, 1);
    assert_eq!(report.total_ticks, 0);
    // An empty batch is not saved.
    assert!(service.repository.saved.is_empty());
    let key = job_key("NQ", day(1));
    let state = service.job_state_repo.get(&key).unwrap().unwrap();
    assert_eq!(state.cursor, end_of_day(day(1)));
    assert_eq!(state.status, JobStatus::Completed);
}

#[test]
fn gap_days_outside_range_are_clipped() {
    let job_repo = InMemoryJobStateRepository::new();
    // The detector reports a gap wider than the requested range.
    let wide_gap = DateRange::new(day(1), day(5)).unwrap();
    let mut service = build_service(
        vec![
            (day(2), sample_ticks("NQ", day(2), 1)),
            (day(3), sample_ticks("NQ", day(3), 1)),
        ],
        vec![wide_gap],
        job_repo,
    );

    let now = timestamp_for(day(6), 0, 0);
    let range = DateRange::new(day(2), day(3)).unwrap();
    let report = service.backfill_range("NQ", range, now).unwrap();

    assert_eq!(report.days_processed, 2);
    assert_eq!(saved_days(&service.repository), vec![day(2), day(3)]);
}

#[test]
fn failing_day_is_recorded_and_the_rest_continue() {
    let job_repo = InMemoryJobStateRepository::new();
    let gap_range = DateRange::new(day(1), day(3)).unwrap();
    let mut gateway = StubHistoricalGateway::new();
    gateway.insert_day(day(1), sample_ticks("NQ", day(1), 2));
    gateway.insert_day(day(3), sample_ticks("NQ", day(3), 1));
    gateway.insert_failing_day(day(2));
    let mut service = BackfillServiceImpl::new(
        gateway,
        StubGapDetector::new(vec![gap_range]),
        RecordingTickRepository::new(),
        job_repo,
    );

    let now = timestamp_for(day(4), 0, 0);
    let range = DateRange::new(day(1), day(3)).unwrap();
    let report = service.backfill_range("NQ", range, now).unwrap();

    // Day-level isolation: the bad day is recorded, its neighbours
    // still land.
    assert_eq!(report.days_processed, 2);
    assert_eq!(report.total_ticks, 3);
    assert_eq!(report.failed_days.len(), 1);
    assert_eq!(report.failed_days[0].0, day(2));
    assert_eq!(saved_days(&service.repository), vec![day(1), day(3)]);

    let key = job_key("NQ", day(1));
    let state = service.job_state_repo.get(&key).unwrap().unwrap();
    assert_eq!(state.status, JobStatus::Failed);
    assert!(state.last_error_type.is_some());
    // The good later day still advanced the cursor.
    assert!(state.cursor >= timestamp_for(day(3), 10, 0));
}

#[test]
fn widest_supported_range_has_exact_day_count() {
    let first = Day::from_ymd(0, 1, 1).unwrap();
    let last = Day::from_ymd(9999, 12, 31).unwrap();
    assert_eq!(first.epoch_days(), -719_528);
    assert_eq!(last.epoch_days(), 2_932_896);
    let range = DateRange::new(first, last).unwrap();
    assert_eq!(range.days(), 3_652_425);
}

#[test]
fn mock_gateway_generates_a_full_day() {
    let today = day(10);
    let gateway = MockHistoricalDataGateway::new(Price::new(160_000_000, 4), 365, today);
    assert_eq!(gateway.max_history_days(), 365);

    let ticks = gateway.fetch_historical_ticks("NQ", day(9)).unwrap();
    assert_eq!(ticks.len(), 24 * 60);
    assert_eq!(ticks[0].timestamp(), day(9).start_of_day_ts());
    assert_eq!(ticks[1].timestamp(), day(9).start_of_day_ts() + 60_000);
    for t in &ticks {
        assert_eq!(t.symbol(), "NQ");
        assert!(t.last_price().mantissa() > 0);
        assert!(t.bid_price().mantissa() < t.ask_price().mantissa());
    }

    // Beyond the provider's horizon the day is not available.
    let old_gateway = MockHistoricalDataGateway::new(Price::new(160_000_000, 4), 3, today);
    let err = old_gateway.fetch_historical_ticks("NQ", day(1)).unwrap_err();
    assert!(matches!(err, HistoricalDataError::DataNotAvailable(_)));
}

#[test]
fn coordinator_runs_against_the_mock_gateway() {
    let today = day(10);
    let gateway = MockHistoricalDataGateway::new(Price::new(160_000_000, 4), 365, today);
    let mut service = BackfillServiceImpl::new(
        gateway,
        StubGapDetector::new(vec![]),
        RecordingTickRepository::new(),
        InMemoryJobStateRepository::new(),
    );

    let now = timestamp_for(today, 8, 0);
    let range = DateRange::new(day(9), day(9)).unwrap();
    let report = service.backfill_range("NQ", range, now).unwrap();

    assert_eq!(report.days_processed, 1);
    assert_eq!(report.total_ticks, 24 * 60);
    assert!(report.failed_days.is_empty());
    assert_eq!(service.repository.saved.len(), 1);

    let key = job_key("NQ", day(9));
    let state = service.job_state_repo.get(&key).unwrap().unwrap();
    assert_eq!(state.status, JobStatus::Completed);
    // The cursor lands on the last synthetic tick of the day.
    assert_eq!(state.cursor, day(9).start_of_day_ts() + 1439 * 60_000);
}
