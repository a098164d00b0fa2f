use abi_stable_host_api::drain_send_queue;
use newapi_status_bot::api::{ApiError, PerfMetricData};
use newapi_status_bot::command::{
    accept_query, admin_allowed, admin_reply, group_allowed, parse_query, perf_hours, perf_section,
    query_allowed, respond_chunks, window_hours, Reply,
};
use newapi_status_bot::config::{AppConfig, ModelConfig, PushTarget};
use newapi_status_bot::push::{should_send_push, send_to_groups};
use newapi_status_bot::state::PushState;
use serde_json::Value;

fn integer(value: &Value, pointer: &str, default: i64) -> i64 {
    value.pointer(pointer).and_then(Value::as_i64).unwrap_or(default)
}

fn flag(value: &Value, pointer: &str, default: bool) -> bool {
    value.pointer(pointer).and_then(Value::as_bool).unwrap_or(default)
}

fn string(value: &Value, pointer: &str, default: &str) -> String {
    value.pointer(pointer).and_then(Value::as_str).unwrap_or(default).to_string()
}

fn strings(value: &Value, pointer: &str) -> Vec<String> {
    match value.pointer(pointer).and_then(Value::as_array) {
        Some(items) => items.iter().filter_map(Value::as_str).map(str::to_string).collect(),
        None => Vec::new(),
    }
}

fn decode(raw: &str) -> Result<AppConfig, String> {
    let value: Value = serde_json::from_str(raw).map_err(|error| error.to_string())?;
    let mut config = AppConfig::default();
    config.api.admin_user_id = integer(&value, "/api/admin_user_id", config.api.admin_user_id);
    config.storage.database_file =
        string(&value, "/storage/database_file", &config.storage.database_file);
    config.perf_metrics.request_timeout_secs = integer(
        &value,
        "/perf_metrics/request_timeout_secs",
        config.perf_metrics.request_timeout_secs as i64,
    ) as u64;
    config.push.enabled = flag(&value, "/push/enabled", config.push.enabled);
    if let Some(targets) = value.pointer("/push/targets").and_then(Value::as_array) {
        for target in targets {
            config.push.targets.push(PushTarget {
                bot_id: string(target, "/bot_id", ""),
                kind: string(target, "/kind", ""),
                target_id: string(target, "/target_id", ""),
                guild_id: target.pointer("/guild_id").and_then(Value::as_str).map(str::to_string),
            });
        }
    }
    if let Some(models) = value.pointer("/models").and_then(Value::as_array) {
        for model in models {
            config.models.push(ModelConfig {
                name: string(model, "/name", ""),
                display_name: string(model, "/display_name", ""),
                groups: strings(model, "/groups"),
                max_ttft_ms: model.pointer("/max_ttft_ms").and_then(Value::as_i64),
                max_total_ms: model.pointer("/max_total_ms").and_then(Value::as_i64),
            });
        }
    }
    Ok(config)
}

fn parse(raw: &str) -> Result<AppConfig, String> {
    AppConfig::parse(raw, decode(raw))
}

fn config() -> AppConfig {
    parse(
        r#"{"api":{"admin_user_id":3},"models":[{"name":"echo","display_name":"Echo Model"}]}"#,
    )
    .unwrap()
}

#[test]
fn parses_window_and_model_in_any_order() {
    let (window, model) = parse_query(&config(), "echo 24h").unwrap();
    assert_eq!(window, 86_400);
    assert_eq!(model.as_deref(), Some("echo"));
}

#[test]
fn rejects_model_outside_whitelist() {
    assert!(parse_query(&config(), "private-model").is_err());
}

#[test]
fn query_access_uses_group_and_private_allowlists() {
    let mut config = config();
    config.bot.allowed_group_ids = vec!["20001".to_string()];
    config.bot.admin_user_ids = vec!["10001".to_string()];

    assert!(query_allowed(&config, "20001", "someone"));
    assert!(!query_allowed(&config, "20002", "10001"));
    assert!(query_allowed(&config, "", "10001"));
    assert!(!query_allowed(&config, "", "10002"));
}

#[test]
fn multi_chunk_response_targets_private_sender() {
    drain_send_queue();

    respond_chunks("", "10001", vec!["first".to_string(), "second".to_string()]);

    let actions = drain_send_queue();
    assert_eq!(actions.len(), 2);
    assert!(actions.iter().all(|action| {
        action.message_type.as_str() == "private" && action.target_id.as_str() == "10001"
    }));
}

#[test]
fn lib_anomaly_mode_sends_initial_alert_after_confirmation() {
    let mut push = PushState::default();
    let config = newapi_status_bot::config::PushConfig {
        mode: "anomaly".to_string(),
        confirmations: 2,
        cooldown_secs: 0,
        ..newapi_status_bot::config::PushConfig::default()
    };

    assert!(!should_send_push(&mut push, &config, "echo:bad", true, 100));
    assert!(should_send_push(&mut push, &config, "echo:bad", true, 101));
}

#[test]
fn groups_are_answered_in_the_group() {
    drain_send_queue();
    let reply = respond_chunks("20001", "10001", vec!["a".to_string(), "b".to_string()]);
    let actions = drain_send_queue();
    assert_eq!(actions.len(), 2);
    assert_eq!(actions[0].message_type.as_str(), "group");
    assert_eq!(actions[1].target_id.as_str(), "20001");
    assert_eq!(actions[1].message.as_str(), "b");
    assert!(matches!(reply, Reply::Queued { to_group: true, .. }));
}

#[test]
fn one_message_is_left_to_the_host() {
    match respond_chunks("g", "u", vec!["only".to_string()]) {
        Reply::Text(text) => assert_eq!(text, "only"),
        other => panic!("unexpected reply: {other:?}"),
    }
    match respond_chunks("g", "u", Vec::new()) {
        Reply::Text(text) => assert_eq!(text, "暂无数据"),
        other => panic!("unexpected reply: {other:?}"),
    }
}

#[test]
fn every_group_gets_every_message() {
    drain_send_queue();
    let groups = vec!["1".to_string(), "2".to_string()];
    let chunks = vec!["a".to_string(), "b".to_string()];
    let queued = send_to_groups(&groups, &chunks);
    let actions = drain_send_queue();
    let sent = actions
        .iter()
        .map(|action| (action.target_id.to_string(), action.message.to_string()))
        .collect::<Vec<_>>();
    assert_eq!(queued, sent);
    assert_eq!(queued.len(), 4);
    assert_eq!(queued[1], ("1".to_string(), "b".to_string()));
}

#[test]
fn questions_have_defaults() {
    assert_eq!(parse_query(&config(), "  ").unwrap(), (900, None));
    assert_eq!(
        parse_query(&config(), "1h echo model 7d").unwrap(),
        (604_800, Some("echo model".to_string()))
    );
    assert_eq!(parse_query(&config(), "5M ECHO").unwrap(), (300, Some("ECHO".to_string())));
    assert_eq!(parse_query(&config(), "a b").unwrap_err(), "模型不在白名单中: a b");
    let mut broken = config();
    broken.status.default_window = "2h".to_string();
    assert_eq!(parse_query(&broken, "").unwrap_err(), "不支持的时间窗口: 2h");
}

#[test]
fn empty_lists_allow_everyone() {
    let config = config();
    assert!(group_allowed(&config, "any"));
    assert!(admin_allowed(&config, "any"));
    assert!(query_allowed(&config, "", "any"));
}

#[test]
fn refused_questions_are_not_read() {
    let mut config = config();
    config.bot.allowed_group_ids = vec!["20001".to_string()];
    assert_eq!(
        accept_query(&config, "1", "2", "private-model").unwrap_err(),
        "当前会话未启用模型监控查询"
    );
    assert_eq!(accept_query(&config, "20001", "2", "1h").unwrap(), (3_600, None));
    assert!(accept_query(&config, "20001", "2", "private-model").is_err());
}

#[test]
fn administrators_are_answered() {
    let mut config = config();
    config.bot.admin_user_ids = vec!["1".to_string()];
    assert_eq!(admin_reply(&config, "1", "yes".to_string(), "no"), "yes");
    assert_eq!(admin_reply(&config, "2", "yes".to_string(), "no"), "no");
}

#[test]
fn hours_follow_the_window() {
    let mut config = config();
    assert_eq!(window_hours(&config, 900), 24);
    assert_eq!(window_hours(&config, 3_600), 1);
    assert_eq!(window_hours(&config, 604_800), 168);
    config.perf_metrics.default_hours = 0;
    assert_eq!(window_hours(&config, 60), 1);
    config.perf_metrics.default_hours = 5_000;
    assert_eq!(window_hours(&config, 60), 720);
    assert_eq!(window_hours(&config, i64::MAX), 720);
    assert_eq!(perf_hours(&config, 3_600, &Some("echo".to_string())), Some(1));
    assert_eq!(perf_hours(&config, 3_600, &None), None);
    config.perf_metrics.enabled = false;
    assert_eq!(perf_hours(&config, 3_600, &Some("echo".to_string())), None);
}

#[test]
fn public_metrics_or_their_failure() {
    let data = PerfMetricData { model_name: "echo".to_string(), groups: Vec::new() };
    assert!(perf_section(Ok(&data), 24).starts_with("[模型广场参考] echo | 近24小时"));
    assert_eq!(
        perf_section(Err(&ApiError::Timeout), 24),
        "[模型广场参考]\n获取失败: [timeout] HTTP 请求超时"
    );
}
