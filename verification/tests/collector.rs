use newapi_status_bot::api::{PageData, RemoteLog};
use newapi_status_bot::collector::{
    cleanup_due, collect_model, collection_start, finish_round, model_failure, page_capacity,
    pause_seconds, read_pages, refresh_reports, retention_cutoff, round_result, select_batch_end,
    settlement_cutoff, sort_lines, RoundTally, Worker, WorkerAction, WorkerEvent,
};
use newapi_status_bot::config::{ApiConfig, AppConfig};
use newapi_status_bot::repository::DatabaseStats;
use newapi_status_bot::state::CollectorHealth;

fn line(id: i64, created_at: i64) -> RemoteLog {
    RemoteLog {
        id,
        created_at,
        log_type: 2,
        content: String::new(),
        model_name: "echo".to_string(),
        prompt_tokens: 0,
        completion_tokens: 0,
        use_time: 1,
        is_stream: false,
        channel_id: 1,
        channel_name: String::new(),
        group: "default".to_string(),
        request_id: format!("req-{id}"),
        upstream_request_id: String::new(),
        other: "null".to_string(),
    }
}

#[test]
fn narrows_oversized_backlog_to_largest_complete_window() {
    let end = select_batch_end(100, 200, 250, |candidate| {
        Ok((candidate - 100).saturating_mul(10))
    })
    .unwrap();
    assert_eq!(end, 125);
}

#[test]
fn rejects_single_timestamp_over_capacity() {
    let result = select_batch_end(100, 200, 50, |_| Ok(51));
    assert!(result.is_err());
}

#[test]
fn batch_end_is_the_latest_that_fits() {
    for limit in 101..=200 {
        let end = select_batch_end(100, 200, 5, |t| Ok(if t <= limit { 5 } else { 6 })).unwrap();
        assert_eq!(end, limit);
    }
    assert_eq!(
        select_batch_end(100, 200, 50, |_| Ok(51)).unwrap_err(),
        "单个时间戳内日志超过分页容量 50，无法无损推进游标"
    );
    for (start, end, capacity) in [(100, 100, 5), (100, 200, 0)] {
        assert_eq!(
            select_batch_end(start, end, capacity, |_| Ok(0)).unwrap_err(),
            "采集时间窗口或分页容量无效"
        );
    }
    let failed = select_batch_end(1, 2, 3, |_| Err("down".to_string()));
    assert_eq!(failed.unwrap_err(), "down");
    assert_eq!(
        select_batch_end(i64::MIN, i64::MAX, 5, |t| Ok(if t < 0 { 5 } else { 6 })).unwrap(),
        -1
    );
}

#[test]
fn reading_starts_before_the_cursor() {
    let api = ApiConfig { initial_backfill_hours: 24, overlap_secs: 120, ..ApiConfig::default() };
    assert_eq!(collection_start(&api, 0, 1_000_000), 1_000_000 - 86_400);
    assert_eq!(collection_start(&api, 999_000, 1_000_000), 998_880);
    assert_eq!(collection_start(&api, 2_000_000, 1_000_000), 999_999);
    assert_eq!(page_capacity(&api), 5_000);
}

fn paged(total: i64, size: usize) -> impl Fn(u32) -> Result<PageData<RemoteLog>, String> {
    move |number| {
        let from = (number as i64 - 1) * size as i64;
        let to = (from + size as i64).min(total);
        Ok(PageData { total, items: (from..to).map(|id| line(id, 100 - id)).collect() })
    }
}

#[test]
fn reads_until_the_last_page() {
    assert_eq!(read_pages(2, 5, paged(5, 2)).unwrap().len(), 5);
    assert_eq!(read_pages(2, 3, paged(6, 2)).unwrap().len(), 6);
    assert_eq!(read_pages(2, 5, paged(0, 2)).unwrap().len(), 0);
    assert_eq!(
        read_pages(2, 2, paged(5, 2)).unwrap_err(),
        "时间窗口日志超过 2 页，未推进游标以避免丢失"
    );
    assert_eq!(read_pages(2, 2, |_| Err("down".to_string())).unwrap_err(), "down");
}

#[test]
fn lines_are_sorted_by_time_and_id() {
    let mut same = line(2, 5);
    same.content = "second".to_string();
    let lines = vec![line(9, 7), line(2, 5), same, line(1, 5), line(3, 1)];
    let sorted = sort_lines(&lines);
    let order = sorted.iter().map(|l| (l.created_at, l.id)).collect::<Vec<_>>();
    assert_eq!(order, vec![(1, 3), (5, 1), (5, 2), (5, 2), (7, 9)]);
    assert_eq!(sorted[3].content, "second");
}

#[test]
fn collects_the_samples_of_one_model() {
    let api = ApiConfig { page_size: 2, max_pages_per_model: 3, ..ApiConfig::default() };
    let fetch = |start: i64, end: i64, number: u32| {
        assert!(start < end);
        let mut page = paged(3, 2)(number)?;
        for item in page.items.iter_mut() {
            if item.id == 1 {
                item.model_name = "other".to_string();
            }
        }
        Ok(page)
    };
    let batch = collect_model(&api, "echo", 0, 1_000_000, fetch).unwrap();
    assert_eq!(batch.end, 1_000_000);
    let requests = batch.samples.iter().map(|s| s.request_id.as_str()).collect::<Vec<_>>();
    assert_eq!(requests, vec!["req-2", "req-0"]);
}

#[test]
fn oversized_backlog_is_read_in_parts() {
    let api = ApiConfig {
        page_size: 2,
        max_pages_per_model: 2,
        overlap_secs: 0,
        ..ApiConfig::default()
    };
    let fetch = |start: i64, end: i64, number: u32| paged(end - start, 2)(number);
    let batch = collect_model(&api, "echo", 100, 1_000, fetch).unwrap();
    assert_eq!(batch.end, 104);
    assert_eq!(batch.samples.len(), 4);
    let crowded = |_: i64, _: i64, _: u32| Ok(PageData { total: 9, items: Vec::new() });
    assert_eq!(
        collect_model(&api, "echo", 100, 1_000, crowded).unwrap_err(),
        "单个时间戳内日志超过分页容量 4，无法无损推进游标"
    );
    let down = |_: i64, _: i64, _: u32| Err("down".to_string());
    assert_eq!(collect_model(&api, "echo", 100, 1_000, down).unwrap_err(), "down");
}

#[test]
fn round_fails_only_without_any_model() {
    assert!(round_result(1, &vec!["a: down".to_string()]).is_ok());
    assert_eq!(round_result(0, &Vec::new()).unwrap_err(), "没有可采集的白名单模型");
    let failures = vec![model_failure("a", "down"), model_failure("b", "slow")];
    assert_eq!(round_result(0, &failures).unwrap_err(), "a: down; b: slow");
}

#[test]
fn health_follows_the_rounds() {
    let mut health = CollectorHealth::default();
    health.attempt(5);
    assert!(!finish_round(&mut health, Err("down".to_string()), 5));
    assert!(!finish_round(&mut health, Err("slow".to_string()), 6));
    assert_eq!((health.consecutive_failures, health.last_error.as_str()), (2, "slow"));
    assert_eq!((health.last_attempt_at, health.last_success_at), (5, 0));
    assert!(finish_round(&mut health, Ok(()), 7));
    assert_eq!((health.consecutive_failures, health.last_error.as_str()), (0, ""));
    assert_eq!(health.last_success_at, 7);
}

#[test]
fn pauses_grow_up_to_five_minutes() {
    assert_eq!(pause_seconds(30, true, 9), 30);
    assert_eq!(pause_seconds(3_600, true, 0), 3_600);
    let pauses = (0..7).map(|failures| pause_seconds(30, false, failures)).collect::<Vec<_>>();
    assert_eq!(pauses, vec![30, 60, 120, 240, 300, 300, 300]);
    assert_eq!(pause_seconds(u64::MAX, false, 4), 300);
}

#[test]
fn cutoffs_follow_the_configuration() {
    let config = AppConfig::default();
    assert_eq!(settlement_cutoff(&config.api, 1_000), 970);
    assert_eq!(retention_cutoff(&config, 1_000_000), 1_000_000 - 7 * 86_400);
    assert!(cleanup_due(86_400, 0));
    assert!(!cleanup_due(86_399, 0));
}

#[test]
fn snapshots_are_kept_ready_after_a_round() {
    let database = DatabaseStats { sample_count: 1, outcome_count: 2 };
    let cache = refresh_reports(&AppConfig::default(), &[], database, 77);
    assert_eq!(cache.generated_at, 77);
    assert_eq!(cache.database, database);
    assert_eq!(cache.windows.len(), 4);
    assert_eq!(cache.windows[&900].generated_at, 77);
}

#[test]
fn tally_gives_the_result_of_the_round() {
    let mut tally = RoundTally::new();
    assert_eq!(tally.result().unwrap_err(), "没有可采集的白名单模型");
    tally.note_failure("echo", "[timeout] HTTP 请求超时");
    tally.note_failure("other", "boom");
    assert_eq!(tally.failures, ["echo: [timeout] HTTP 请求超时", "other: boom"]);
    assert_eq!(tally.result().unwrap_err(), "echo: [timeout] HTTP 请求超时; other: boom");
    tally.note_success();
    assert_eq!(tally.completed, 1);
    assert!(tally.result().is_ok());
}

#[test]
fn worker_collects_cleans_up_and_waits_in_turn() {
    let config = AppConfig::default();
    let mut health = CollectorHealth::default();
    let mut worker = Worker::new();
    let now = 10_000_000;
    assert_eq!(
        worker.next(&config, &mut health, WorkerEvent::Opened(Ok(()))),
        WorkerAction::Collect
    );
    // A day has passed since the epoch, so the first round ends with a cleanup.
    let event = WorkerEvent::Collected { now, result: Ok(()) };
    assert_eq!(
        worker.next(&config, &mut health, event),
        WorkerAction::Cleanup { cutoff: now - 7 * 86_400 }
    );
    assert_eq!(health.last_success_at, now);
    assert_eq!(
        worker.next(&config, &mut health, WorkerEvent::CleanedUp { ok: true }),
        WorkerAction::Wait { seconds: 30 }
    );
    assert_eq!(
        worker.next(&config, &mut health, WorkerEvent::Waited { exit: false }),
        WorkerAction::Collect
    );
    // Less than a day later nothing is forgotten, and a failure lengthens the pause.
    let event = WorkerEvent::Collected { now: now + 86_399, result: Err("down".to_string()) };
    assert_eq!(
        worker.next(&config, &mut health, event),
        WorkerAction::Wait { seconds: 60 }
    );
    assert_eq!(health.last_error, "down");
    assert_eq!(health.last_success_at, now);
    let event = WorkerEvent::Collected { now: now + 86_400, result: Err("down".to_string()) };
    assert_eq!(
        worker.next(&config, &mut health, event),
        WorkerAction::Cleanup { cutoff: now + 86_400 - 7 * 86_400 }
    );
    assert_eq!(
        worker.next(&config, &mut health, WorkerEvent::CleanedUp { ok: false }),
        WorkerAction::Wait { seconds: 120 }
    );
    assert_eq!(worker.last_cleanup_at, now);
    assert_eq!(
        worker.next(&config, &mut health, WorkerEvent::Waited { exit: true }),
        WorkerAction::Exit
    );
}

#[test]
fn worker_ends_where_the_store_cannot_be_opened() {
    let mut health = CollectorHealth::default();
    let event = WorkerEvent::Opened(Err("打开 SQLite 失败".to_string()));
    let action = Worker::new().next(&AppConfig::default(), &mut health, event);
    assert_eq!(action, WorkerAction::Exit);
    assert_eq!(health.consecutive_failures, 1);
    assert_eq!(health.last_error, "打开 SQLite 失败");
}

#[test]
fn counter_is_asked_inside_the_window_only() {
    for limit in 100..=200 {
        let result = select_batch_end(100, 200, 5, |end| {
            assert!(100 < end && end <= 200);
            Ok(if end <= limit { 5 } else { 6 })
        });
        assert_eq!(result.is_ok(), limit > 100);
    }
    let failed = select_batch_end(100, 200, 5, |end| {
        if end == 200 {
            Ok(6)
        } else {
            Err(format!("at {end}"))
        }
    });
    assert_eq!(failed.unwrap_err(), "at 150");
}

#[test]
fn pages_are_asked_for_up_to_the_last_that_may_be_read() {
    let full = |number: u32| {
        assert!((1..=3).contains(&number));
        Ok(PageData { total: 100, items: vec![line(number as i64, 1)] })
    };
    assert_eq!(
        read_pages(1, 3, full).unwrap_err(),
        "时间窗口日志超过 3 页，未推进游标以避免丢失"
    );
}

#[test]
fn nothing_is_asked_without_pages_or_time() {
    let none = |_: i64, _: i64, _: u32| -> Result<PageData<RemoteLog>, String> {
        panic!("nothing is to be asked")
    };
    let no_pages = ApiConfig { max_pages_per_model: 0, ..ApiConfig::default() };
    let error = collect_model(&no_pages, "echo", 0, 1000, none).err();
    assert_eq!(error.as_deref(), Some("采集时间窗口或分页容量无效"));
    let no_lines = ApiConfig { page_size: 0, ..ApiConfig::default() };
    let error = collect_model(&no_lines, "echo", 0, 1000, none).err();
    assert_eq!(error.as_deref(), Some("采集时间窗口或分页容量无效"));
}
