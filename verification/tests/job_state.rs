use ingestion::job_state::job_state_from_fields;
use ingestion::job_state::parse_last_error;
use ingestion::job_state::InMemoryJobStateRepository;
use ingestion::job_state::JobState;
use ingestion::job_state::JobStateError;
use ingestion::job_state::JobStateRepository;
use ingestion::job_state::JobStatus;

#[test]
fn upsert_and_fetch_job_state() {
    let mut repo = InMemoryJobStateRepository::new();
    let job_key = "ingest:job:NQ:2024-01-01";
    let state = JobState::new(
        "instance-1".to_string(),
        JobStatus::Running,
        1_704_067_199_000,
        1_704_153_599_000,
        1_704_067_200_000,
    );

    repo.upsert(job_key, &state).expect("upsert");
    let fetched = repo.get(job_key).expect("get").expect("expected state");

    assert_eq!(fetched.status, JobStatus::Running);
    assert_eq!(fetched.job_instance_id, "instance-1");
    assert_eq!(fetched.cursor, 1_704_067_199_000);
    assert_eq!(fetched.end_time, 1_704_153_599_000);
    assert_eq!(fetched.heartbeat_at, 1_704_067_200_000);
}

#[test]
fn update_cursor_enforces_instance_id() {
    let mut repo = InMemoryJobStateRepository::new();
    let job_key = "ingest:job:ES:2024-02-02";
    let state = JobState::new("12345".to_string(), JobStatus::Running, 0, 1_000, 0);
    repo.upsert(job_key, &state).expect("upsert");

    repo.update_cursor(job_key, &"12345".to_string(), 500)
        .expect("cursor update");
    assert_eq!(repo.get(job_key).unwrap().unwrap().cursor, 500);

    let err = repo
        .update_cursor(job_key, &"999".to_string(), 900)
        .expect_err("stale instance must fail");
    assert!(matches!(err, JobStateError::StaleInstance(_)));
    assert_eq!(repo.get(job_key).unwrap().unwrap().cursor, 500);
}

#[test]
fn stale_instance_cannot_overwrite_after_restart() {
    let mut repo = InMemoryJobStateRepository::new();
    let job_key = "ingest:job:YM:2024-03-15";
    let original = JobState::new("original".to_string(), JobStatus::Running, 42, 10_000, 0);
    repo.upsert(job_key, &original).expect("upsert original");

    let restarted = JobState::new("restarted".to_string(), JobStatus::Running, 42, 10_000, 1);
    repo.upsert(job_key, &restarted).expect("upsert restart");

    let err = repo
        .update_cursor(job_key, &"original".to_string(), 99)
        .expect_err("stale instance should be rejected");
    assert!(matches!(err, JobStateError::StaleInstance(_)));

    repo.update_cursor(job_key, &"restarted".to_string(), 99)
        .expect("new instance update");
    assert_eq!(repo.get(job_key).unwrap().unwrap().cursor, 99);
}

#[test]
fn fenced_updates_fail_on_missing_key() {
    let mut repo = InMemoryJobStateRepository::new();
    let err = repo
        .update_cursor("ingest:job:NQ:2099-01-01", &"x".to_string(), 1)
        .expect_err("missing key must fail");
    assert!(matches!(err, JobStateError::NotFound(_)));
    assert!(repo.get("ingest:job:NQ:2099-01-01").unwrap().is_none());
}

#[test]
fn fenced_update_status_heartbeat_and_error() {
    let mut repo = InMemoryJobStateRepository::new();
    let key = "ingest:job:NQ:2025-01-01";
    let state = JobState::new("i-1".to_string(), JobStatus::Running, 10, 99, 5);
    repo.upsert(key, &state).unwrap();

    repo.update_status(key, &"i-1".to_string(), JobStatus::Failed)
        .unwrap();
    repo.heartbeat(key, &"i-1".to_string(), 777).unwrap();
    repo.save_error(key, &"i-1".to_string(), "boom").unwrap();

    let got = repo.get(key).unwrap().unwrap();
    assert_eq!(got.status, JobStatus::Failed);
    assert_eq!(got.heartbeat_at, 777);
    assert_eq!(got.last_error_type.as_deref(), Some("boom"));
    assert_eq!(got.cursor, 10);
}

#[test]
fn status_strings_round_trip() {
    for s in [
        JobStatus::Pending,
        JobStatus::Running,
        JobStatus::Completed,
        JobStatus::Failed,
    ] {
        assert_eq!(JobStatus::from_str(s.as_str()), Some(s));
    }
    assert_eq!(JobStatus::as_str(&JobStatus::Pending), "PENDING");
    assert_eq!(JobStatus::from_str("pending"), None);
    assert_eq!(JobStatus::from_str(""), None);
}

#[test]
fn record_from_complete_fields() {
    let got = job_state_from_fields(
        Some("COMPLETED".to_string()),
        Some("abc".to_string()),
        Some(123),
        Some(456),
        Some(789),
        Some("late".to_string()),
    )
    .expect("well-formed fields")
    .expect("record present");
    assert_eq!(got.status, JobStatus::Completed);
    assert_eq!(got.job_instance_id, "abc");
    assert_eq!(got.cursor, 123);
    assert_eq!(got.end_time, 456);
    assert_eq!(got.heartbeat_at, 789);
    assert!(got.critical_ranges.is_empty());
    assert_eq!(got.last_error_type.as_deref(), Some("late"));
}

#[test]
fn record_from_incomplete_fields_is_absent() {
    let got = job_state_from_fields(
        Some("RUNNING".to_string()),
        None,
        Some(1),
        Some(2),
        Some(3),
        None,
    )
    .expect("incomplete fields read as absent");
    assert!(got.is_none());
}

#[test]
fn record_with_unknown_status_is_backend_error() {
    let got = job_state_from_fields(
        Some("HALTED".to_string()),
        Some("abc".to_string()),
        Some(1),
        Some(2),
        Some(3),
        None,
    );
    assert!(matches!(got, Err(JobStateError::Backend(_))));
}

#[test]
fn record_with_absurd_heartbeat_is_backend_error() {
    let got = job_state_from_fields(
        Some("RUNNING".to_string()),
        Some("abc".to_string()),
        Some(1),
        Some(2),
        Some(i64::MAX),
        None,
    );
    assert!(matches!(got, Err(JobStateError::Backend(_))));
}

#[test]
fn empty_error_field_reads_as_none() {
    assert_eq!(parse_last_error(None), None);
    assert_eq!(parse_last_error(Some(String::new())), None);
    assert_eq!(
        parse_last_error(Some("timeout".to_string())).as_deref(),
        Some("timeout")
    );
}

#[test]
fn field_level_instance_id_stays_authoritative() {
    let blob = JobState::new("blob-id".to_string(), JobStatus::Running, 7, 9, 3);
    let merged = ingestion::job_state::apply_authoritative_instance_id(
        blob,
        Some("field-id".to_string()),
    );
    assert_eq!(merged.job_instance_id, "field-id");
    assert_eq!(merged.cursor, 7);

    let blob2 = JobState::new("blob-id".to_string(), JobStatus::Failed, 7, 9, 3);
    let kept = ingestion::job_state::apply_authoritative_instance_id(blob2, None);
    assert_eq!(kept.job_instance_id, "blob-id");
    assert_eq!(kept.status, JobStatus::Failed);
}
