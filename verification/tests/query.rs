use newapi_status_bot::config::{AppConfig, ModelConfig, PushTarget};
use newapi_status_bot::domain::{LogSample, SampleKind};
use newapi_status_bot::query::{load_database_stats, load_window_snapshot};
use newapi_status_bot::repository::Repository;
use serde_json::Value;

fn integer(value: &Value, pointer: &str, default: i64) -> i64 {
    value.pointer(pointer).and_then(Value::as_i64).unwrap_or(default)
}

fn flag(value: &Value, pointer: &str, default: bool) -> bool {
    value.pointer(pointer).and_then(Value::as_bool).unwrap_or(default)
}

fn string(value: &Value, pointer: &str, default: &str) -> String {
    value.pointer(pointer).and_then(Value::as_str).unwrap_or(default).to_string()
}

fn strings(value: &Value, pointer: &str) -> Vec<String> {
    match value.pointer(pointer).and_then(Value::as_array) {
        Some(items) => items.iter().filter_map(Value::as_str).map(str::to_string).collect(),
        None => Vec::new(),
    }
}

fn decode(raw: &str) -> Result<AppConfig, String> {
    let value: Value = serde_json::from_str(raw).map_err(|error| error.to_string())?;
    let mut config = AppConfig::default();
    config.api.admin_user_id = integer(&value, "/api/admin_user_id", config.api.admin_user_id);
    config.storage.database_file =
        string(&value, "/storage/database_file", &config.storage.database_file);
    config.perf_metrics.request_timeout_secs = integer(
        &value,
        "/perf_metrics/request_timeout_secs",
        config.perf_metrics.request_timeout_secs as i64,
    ) as u64;
    config.push.enabled = flag(&value, "/push/enabled", config.push.enabled);
    if let Some(targets) = value.pointer("/push/targets").and_then(Value::as_array) {
        for target in targets {
            config.push.targets.push(PushTarget {
                bot_id: string(target, "/bot_id", ""),
                kind: string(target, "/kind", ""),
                target_id: string(target, "/target_id", ""),
                guild_id: target.pointer("/guild_id").and_then(Value::as_str).map(str::to_string),
            });
        }
    }
    if let Some(models) = value.pointer("/models").and_then(Value::as_array) {
        for model in models {
            config.models.push(ModelConfig {
                name: string(model, "/name", ""),
                display_name: string(model, "/display_name", ""),
                groups: strings(model, "/groups"),
                max_ttft_ms: model.pointer("/max_ttft_ms").and_then(Value::as_i64),
                max_total_ms: model.pointer("/max_total_ms").and_then(Value::as_i64),
            });
        }
    }
    Ok(config)
}

fn parse(raw: &str) -> Result<AppConfig, String> {
    AppConfig::parse(raw, decode(raw))
}

fn sample() -> LogSample {
    LogSample {
        sample_key: "sample-1".to_string(),
        source_log_id: 1,
        request_id: "request-1".to_string(),
        upstream_request_id: String::new(),
        created_at: 190,
        kind: SampleKind::Consume,
        model_name: "echo".to_string(),
        group_name: "default".to_string(),
        channel_id: 1,
        channel_name: "primary".to_string(),
        is_stream: true,
        prompt_tokens: 1,
        completion_tokens: 2,
        total_ms: Some(3_000),
        ttft_ms: Some(500),
        partial_failure: false,
        attempt_index: 1,
        retry_channel_chain: String::new(),
        error_code: String::new(),
        status_code: Some(200),
        error_message: String::new(),
    }
}

#[test]
fn live_query_uses_command_time_and_latest_committed_database_rows() {
    let mut repository = Repository::new();
    repository.ingest(&sample(), 191);

    let config = parse(
        r#"{"api":{"admin_user_id":3},"models":[{"name":"echo","groups":["default"]}]}"#,
    )
    .unwrap();
    let snapshot = load_window_snapshot(&config, &repository, 60, 200);

    assert_eq!(snapshot.generated_at, 200);
    assert_eq!(snapshot.window_seconds, 60);
    assert_eq!(snapshot.models[0].overall.requests, 1);
    assert_eq!(load_database_stats(&repository).outcome_count, 1);
}

#[test]
fn window_ends_at_the_moment_of_the_question() {
    let mut repository = Repository::new();
    repository.ingest(&sample(), 191);
    let config = parse(r#"{"api":{"admin_user_id":3},"models":[{"name":"echo"}]}"#).unwrap();
    assert_eq!(load_window_snapshot(&config, &repository, 60, 250).models[0].overall.requests, 1);
    assert_eq!(load_window_snapshot(&config, &repository, 60, 251).models[0].overall.requests, 0);
    assert_eq!(load_database_stats(&repository).sample_count, 1);
}
