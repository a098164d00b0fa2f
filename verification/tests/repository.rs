use newapi_status_bot::domain::{LogSample, SampleKind};
use newapi_status_bot::repository::{
    MigrationStep, Outcome, Repository, RequestOutcome, Schema, StoredPerfMetrics, SCHEMA_VERSION,
};
use rusqlite::Connection;

fn sample(key: &str, kind: SampleKind, partial: bool) -> LogSample {
    LogSample {
        sample_key: key.to_string(),
        source_log_id: 1,
        request_id: "req-1".to_string(),
        upstream_request_id: String::new(),
        created_at: 100,
        kind,
        model_name: "echo".to_string(),
        group_name: "default".to_string(),
        channel_id: 1,
        channel_name: "primary".to_string(),
        is_stream: true,
        prompt_tokens: 1,
        completion_tokens: 2,
        total_ms: Some(3000),
        ttft_ms: Some(500),
        partial_failure: partial,
        attempt_index: 1,
        retry_channel_chain: "1->2".to_string(),
        error_code: "upstream_error".to_string(),
        status_code: Some(500),
        error_message: "failed".to_string(),
    }
}

#[test]
fn deduplicates_and_promotes_retry_to_success() {
    let mut repository = Repository::new();
    assert!(repository.ingest(&sample("error", SampleKind::Error, false), 101));
    assert!(!repository.ingest(&sample("error", SampleKind::Error, false), 102));
    assert!(repository.ingest(&sample("success", SampleKind::Consume, false), 103));
    let rows = repository.outcomes_since(0);
    assert_eq!(rows.len(), 1);
    assert_eq!(rows[0].outcome, "success");
    assert_eq!(rows[0].attempt_count, 2);
    assert_eq!(rows[0].error_count, 1);
    assert_eq!(rows[0].latest_retry_channel_chain, "1->2");
}

#[test]
fn settles_terminal_failure_after_grace() {
    let mut repository = Repository::new();
    repository.ingest(&sample("error", SampleKind::Error, false), 101);
    repository.settle_pending(100);
    assert_eq!(repository.outcomes_since(0)[0].outcome, "failed");
}

#[test]
fn pending_requests_are_not_counted() {
    let mut repository = Repository::new();
    repository.ingest(&sample("error", SampleKind::Error, false), 101);
    assert!(repository.outcomes_since(0).is_empty());
    assert_eq!(repository.settle_pending(99), 0);
    assert!(repository.outcomes_since(0).is_empty());
    assert_eq!(repository.settle_pending(100), 1);
    assert_eq!(repository.settle_pending(100), 0);
    assert_eq!(repository.outcomes_since(100).len(), 1);
    assert!(repository.outcomes_since(101).is_empty());
}

#[test]
fn late_payment_revives_a_failed_request() {
    let mut repository = Repository::new();
    repository.ingest(&sample("error", SampleKind::Error, false), 101);
    repository.settle_pending(100);
    repository.ingest(&sample("paid", SampleKind::Consume, true), 200);
    let rows = repository.outcomes_since(0);
    assert_eq!(rows[0].outcome, "partial_failed");
    assert_eq!(rows[0].attempt_count, 2);
}

#[test]
fn order_of_arrival_does_not_matter() {
    let mut error_first = Repository::new();
    error_first.ingest(&sample("error", SampleKind::Error, false), 1);
    error_first.ingest(&sample("paid", SampleKind::Consume, false), 2);
    let mut paid_first = Repository::new();
    paid_first.ingest(&sample("paid", SampleKind::Consume, false), 1);
    paid_first.ingest(&sample("error", SampleKind::Error, false), 2);
    let a = &error_first.outcomes[0];
    let b = &paid_first.outcomes[0];
    assert_eq!(a.outcome, b.outcome);
    assert_eq!((a.attempt_count, a.error_count), (2, 1));
    assert_eq!((b.attempt_count, b.error_count), (2, 1));
    assert_eq!(a.latest_error_code, b.latest_error_code);
    assert_eq!(a.ttft_ms, b.ttft_ms);
}

#[test]
fn failed_attempt_does_not_touch_a_paid_request() {
    let mut outcome = RequestOutcome::first(&sample("paid", SampleKind::Consume, false));
    let mut late = sample("late", SampleKind::Error, false);
    late.created_at = 150;
    late.group_name = "other".to_string();
    late.total_ms = Some(1);
    late.retry_channel_chain = String::new();
    outcome.update(&late);
    assert_eq!(outcome.outcome, Outcome::Success);
    assert_eq!(outcome.group_name, "default");
    assert_eq!(outcome.total_ms, Some(3000));
    assert_eq!((outcome.first_seen, outcome.last_seen), (100, 150));
    assert_eq!(outcome.latest_error_message, "failed");
    assert_eq!(outcome.latest_retry_channel_chain, "1->2");
}

#[test]
fn requests_are_told_apart_by_model() {
    let mut repository = Repository::new();
    repository.ingest(&sample("a", SampleKind::Consume, false), 1);
    let mut other = sample("b", SampleKind::Consume, false);
    other.model_name = "other".to_string();
    repository.ingest(&other, 1);
    assert_eq!(repository.outcomes.len(), 2);
    assert_eq!(repository.stats().sample_count, 2);
    assert_eq!(repository.stats().outcome_count, 2);
}

#[test]
fn cursor_moves_with_success_and_stays_with_failure() {
    let mut repository = Repository::new();
    assert_eq!(repository.cursor("echo"), 0);
    repository.record_failure("echo", "down");
    assert_eq!(repository.cursor("echo"), 0);
    repository.record_success("echo", 500, 501);
    repository.record_success("other", 7, 8);
    repository.record_failure("echo", "down");
    repository.record_failure("echo", "still down");
    assert_eq!(repository.cursor("echo"), 500);
    assert_eq!(repository.cursor("other"), 7);
    assert_eq!(repository.states[0].consecutive_failures, 2);
    assert_eq!(repository.states[0].last_error, "still down");
    assert_eq!(repository.states[0].last_success_at, 501);
    repository.record_success("echo", 600, 601);
    assert_eq!(repository.states[0].consecutive_failures, 0);
    assert_eq!(repository.states[0].last_error, "");
}

#[test]
fn cleanup_forgets_what_is_old() {
    let mut repository = Repository::new();
    repository.ingest(&sample("old", SampleKind::Consume, false), 1);
    let mut recent = sample("recent", SampleKind::Consume, false);
    recent.request_id = "req-2".to_string();
    recent.created_at = 200;
    repository.ingest(&recent, 2);
    for fetched_at in [100, 200] {
        repository.perf_metrics.push(StoredPerfMetrics {
            model_name: "echo".to_string(),
            hours: 24,
            fetched_at,
            response_json: "{}".to_string(),
        });
    }
    let before = repository.outcomes_since(200).len();
    repository.cleanup(200);
    assert_eq!(repository.samples.len(), 1);
    assert_eq!(repository.outcomes.len(), 1);
    assert_eq!(repository.perf_metrics.len(), 1);
    assert_eq!(repository.outcomes_since(200).len(), before);
}

#[test]
fn outcomes_have_names() {
    for outcome in [Outcome::Pending, Outcome::Success, Outcome::PartialFailed, Outcome::Failed] {
        assert_eq!(Outcome::from_label(outcome.label()), Some(outcome));
    }
    assert_eq!(Outcome::from_label("lost"), None);
}

#[test]
fn migration_adds_what_is_missing() {
    let old = Schema { version: 1, sample_chain: false, outcome_chain: false };
    assert_eq!(
        old.migration().unwrap(),
        vec![
            MigrationStep::AddSampleChain,
            MigrationStep::AddOutcomeChain,
            MigrationStep::SetVersion(SCHEMA_VERSION),
        ]
    );
    let half = Schema { version: 1, sample_chain: true, outcome_chain: false };
    assert_eq!(
        half.migration().unwrap(),
        vec![MigrationStep::AddOutcomeChain, MigrationStep::SetVersion(2)]
    );
    let current = Schema { version: 2, sample_chain: true, outcome_chain: true };
    assert_eq!(current.migration().unwrap(), vec![MigrationStep::SetVersion(2)]);
    let newer = Schema { version: 3, sample_chain: true, outcome_chain: true };
    assert_eq!(newer.migration().unwrap_err(), "SQLite schema 版本 3 高于插件支持版本 2");
}

fn has_column(connection: &Connection, table: &str, column: &str) -> bool {
    let mut statement = connection.prepare(&format!("PRAGMA table_info({table})")).unwrap();
    let mut rows = statement.query([]).unwrap();
    let mut found = false;
    while let Some(row) = rows.next().unwrap() {
        let name: String = row.get(1).unwrap();
        found = found || name == column;
    }
    found
}

fn schema_of(connection: &Connection) -> Schema {
    Schema {
        version: connection.query_row("PRAGMA user_version", [], |row| row.get(0)).unwrap(),
        sample_chain: has_column(connection, "log_samples", "retry_channel_chain"),
        outcome_chain: has_column(connection, "request_outcomes", "latest_retry_channel_chain"),
    }
}

fn migrate(connection: &Connection) {
    for step in schema_of(connection).migration().unwrap() {
        connection.execute_batch(&step.statement()).unwrap();
    }
}

#[test]
fn migrates_existing_v1_database_to_retry_chain_schema() {
    let connection = Connection::open_in_memory().unwrap();
    connection
        .execute_batch(
            "CREATE TABLE log_samples (sample_key TEXT PRIMARY KEY);
             CREATE TABLE request_outcomes (request_id TEXT PRIMARY KEY);
             PRAGMA user_version=1;",
        )
        .unwrap();

    migrate(&connection);
    assert!(has_column(&connection, "log_samples", "retry_channel_chain"));
    assert!(has_column(&connection, "request_outcomes", "latest_retry_channel_chain"));
    let version: i64 =
        connection.query_row("PRAGMA user_version", [], |row| row.get(0)).unwrap();
    assert_eq!(version, SCHEMA_VERSION);

    migrate(&connection);
    assert_eq!(schema_of(&connection).version, SCHEMA_VERSION);
}

#[test]
fn migration_keeps_old_rows() {
    let connection = Connection::open_in_memory().unwrap();
    connection
        .execute_batch(
            "CREATE TABLE log_samples (sample_key TEXT PRIMARY KEY);
             CREATE TABLE request_outcomes (request_id TEXT PRIMARY KEY);
             INSERT INTO log_samples VALUES('a'), ('b');
             INSERT INTO request_outcomes VALUES('r');
             PRAGMA user_version=1;",
        )
        .unwrap();
    for _ in 0..2 {
        migrate(&connection);
        for (sql, expected) in [
            ("SELECT group_concat(sample_key||':'||retry_channel_chain) FROM log_samples", "a:,b:"),
            (
                "SELECT group_concat(request_id||':'||latest_retry_channel_chain) \
                 FROM request_outcomes",
                "r:",
            ),
        ] {
            let found: String = connection.query_row(sql, [], |row| row.get(0)).unwrap();
            assert_eq!(found, expected);
        }
    }
    assert_eq!(MigrationStep::SetVersion(2).statement(), "PRAGMA user_version=2");
}
