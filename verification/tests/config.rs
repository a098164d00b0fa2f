use newapi_status_bot::config::{
    parse_window, validate_relative_path, AppConfig, ModelConfig, PathPart, PathReading,
    PushTarget,
};
use newapi_status_bot::double::Double;
use serde_json::Value;

fn integer(value: &Value, pointer: &str, default: i64) -> i64 {
    value.pointer(pointer).and_then(Value::as_i64).unwrap_or(default)
}

fn flag(value: &Value, pointer: &str, default: bool) -> bool {
    value.pointer(pointer).and_then(Value::as_bool).unwrap_or(default)
}

fn string(value: &Value, pointer: &str, default: &str) -> String {
    value.pointer(pointer).and_then(Value::as_str).unwrap_or(default).to_string()
}

fn strings(value: &Value, pointer: &str) -> Vec<String> {
    match value.pointer(pointer).and_then(Value::as_array) {
        Some(items) => items.iter().filter_map(Value::as_str).map(str::to_string).collect(),
        None => Vec::new(),
    }
}

fn decode(raw: &str) -> Result<AppConfig, String> {
    let value: Value = serde_json::from_str(raw).map_err(|error| error.to_string())?;
    let mut config = AppConfig::default();
    config.api.admin_user_id = integer(&value, "/api/admin_user_id", config.api.admin_user_id);
    config.storage.database_file =
        string(&value, "/storage/database_file", &config.storage.database_file);
    config.perf_metrics.request_timeout_secs = integer(
        &value,
        "/perf_metrics/request_timeout_secs",
        config.perf_metrics.request_timeout_secs as i64,
    ) as u64;
    config.push.enabled = flag(&value, "/push/enabled", config.push.enabled);
    if let Some(targets) = value.pointer("/push/targets").and_then(Value::as_array) {
        for target in targets {
            config.push.targets.push(PushTarget {
                bot_id: string(target, "/bot_id", ""),
                kind: string(target, "/kind", ""),
                target_id: string(target, "/target_id", ""),
                guild_id: target.pointer("/guild_id").and_then(Value::as_str).map(str::to_string),
            });
        }
    }
    if let Some(models) = value.pointer("/models").and_then(Value::as_array) {
        for model in models {
            config.models.push(ModelConfig {
                name: string(model, "/name", ""),
                display_name: string(model, "/display_name", ""),
                groups: strings(model, "/groups"),
                max_ttft_ms: model.pointer("/max_ttft_ms").and_then(Value::as_i64),
                max_total_ms: model.pointer("/max_total_ms").and_then(Value::as_i64),
            });
        }
    }
    Ok(config)
}

fn parse(raw: &str) -> Result<AppConfig, String> {
    AppConfig::parse(raw, decode(raw))
}

fn valid() -> AppConfig {
    parse(r#"{"api":{"admin_user_id":3},"models":[{"name":"echo"}]}"#).unwrap()
}

fn percent(value: f64) -> Double {
    Double { bits: value.to_bits() }
}

fn refused(config: &AppConfig) -> String {
    config.validate().unwrap_err()
}

#[test]
fn parses_minimal_config_with_defaults() {
    let raw = r#"{"api":{"admin_user_id":3},"models":[{"name":"echo"}]}"#;
    let config = parse(raw).expect("config should parse");
    assert_eq!(config.api.page_size, 100);
    assert_eq!(config.models[0].name, "echo");
}

#[test]
fn rejects_parent_database_path() {
    let raw = r#"{
            "api":{"admin_user_id":3},
            "storage":{"database_file":"../outside.db"},
            "models":[{"name":"echo"}]
        }"#;
    assert!(parse(raw).is_err());
}

#[test]
fn parses_supported_windows() {
    assert_eq!(parse_window("1m").unwrap(), 60);
    assert_eq!(parse_window("5m").unwrap(), 300);
    assert_eq!(parse_window("10m").unwrap(), 600);
    assert_eq!(parse_window("15m").unwrap(), 900);
    assert_eq!(parse_window("7D").unwrap(), 604_800);
    assert!(parse_window("2h").is_err());
}

#[test]
fn rejects_perf_metrics_timeout_over_three_seconds() {
    let raw = r#"{
            "api":{"admin_user_id":3},
            "perf_metrics":{"request_timeout_secs":4},
            "models":[{"name":"echo"}]
        }"#;
    assert!(parse(raw).is_err());
}

#[test]
fn accepts_enabled_push_without_new_targets_for_migration() {
    let raw = r#"{
            "api":{"admin_user_id":3},
            "push":{"enabled":true,"target_group_ids":["10001"],"sender_self_id":"bot"},
            "models":[{"name":"echo"}]
        }"#;
    let config = parse(raw).expect("legacy push fields should be ignored");
    assert!(config.push.enabled);
    assert!(config.push.targets.is_empty());
}

#[test]
fn validates_proactive_push_targets() {
    let raw = r#"{
            "api":{"admin_user_id":3},
            "push":{
                "enabled":true,
                "targets":[{"bot_id":"qq-reverse","kind":"group","target_id":"10001"}]
            },
            "models":[{"name":"echo"}]
        }"#;
    let config = parse(raw).expect("target should be valid");
    assert_eq!(config.push.targets[0].bot_id, "qq-reverse");

    let invalid = raw.replace("\"group\"", "\"guild\"");
    assert!(parse(&invalid).is_err());
}

#[test]
fn windows_ignore_case_and_surrounding_space() {
    assert_eq!(parse_window(" 1H\t").unwrap(), 3_600);
    assert_eq!(parse_window("24h").unwrap(), 86_400);
    assert_eq!(parse_window("2h").unwrap_err(), "不支持的时间窗口: 2h");
}

#[test]
fn blank_configuration_is_missing() {
    assert_eq!(
        AppConfig::parse("  \n", Err("unused".to_string())).unwrap_err(),
        "缺少 config/plugins/newapi-status-bot.toml"
    );
    assert_eq!(
        AppConfig::parse("{", Err("bad".to_string())).unwrap_err(),
        "插件配置解析失败: bad"
    );
}

#[test]
fn each_rule_has_its_message() {
    let mut config = valid();
    config.api.base_url = "ftp://example".to_string();
    assert_eq!(refused(&config), "api.base_url 必须是 http 或 https URL");
    let mut config = valid();
    config.api.admin_user_id = 0;
    assert_eq!(refused(&config), "api.admin_user_id 必须大于 0");
    let mut config = valid();
    config.api.access_token_env = " ".to_string();
    assert_eq!(refused(&config), "api.access_token_env 不能为空");
    let mut config = valid();
    config.api.poll_interval_secs = 9;
    assert_eq!(refused(&config), "api.poll_interval_secs 必须在 10 到 3600 秒之间");
    let mut config = valid();
    config.api.page_size = 101;
    assert_eq!(refused(&config), "api.page_size 必须在 1 到 100 之间");
    let mut config = valid();
    config.api.max_pages_per_model = 0;
    assert_eq!(refused(&config), "api.max_pages_per_model 必须大于 0");
    let mut config = valid();
    config.api.initial_backfill_hours = 721;
    assert_eq!(refused(&config), "api.initial_backfill_hours 必须在 1 到 720 小时之间");
    let mut config = valid();
    config.api.overlap_secs = -1;
    assert_eq!(refused(&config), "api.overlap_secs 必须在 0 到 3600 秒之间");
    let mut config = valid();
    config.api.request_timeout_secs = 121;
    assert_eq!(refused(&config), "api.request_timeout_secs 必须在 1 到 120 秒之间");
    let mut config = valid();
    config.perf_metrics.request_timeout_secs = 0;
    assert_eq!(refused(&config), "perf_metrics.request_timeout_secs 必须在 1 到 3 秒之间");
    let mut config = valid();
    config.perf_metrics.cache_ttl_secs = -1;
    assert_eq!(refused(&config), "perf_metrics.cache_ttl_secs 不能为负数");
    let mut config = valid();
    config.storage.retention_days = 31;
    assert_eq!(refused(&config), "storage.retention_days 必须在 1 到 30 天之间");
    let mut config = valid();
    config.storage.database_file = String::new();
    assert_eq!(refused(&config), "storage.database_file 必须是非空相对路径");
    let mut config = valid();
    config.storage.database_file = "/var/status.db".to_string();
    assert_eq!(refused(&config), "storage.database_file 必须是非空相对路径");
    let mut config = valid();
    config.storage.database_file = "a/../b.db".to_string();
    assert_eq!(refused(&config), "storage.database_file 不允许包含上级目录");
    let mut config = valid();
    config.status.default_window = "2h".to_string();
    assert_eq!(refused(&config), "不支持的时间窗口: 2h");
    let mut config = valid();
    config.status.normal_success_rate = percent(90.0);
    assert_eq!(refused(&config), "状态成功率阈值无效");
    let mut config = valid();
    config.status.normal_success_rate = percent(100.5);
    assert_eq!(refused(&config), "状态成功率阈值无效");
    let mut config = valid();
    config.status.degraded_success_rate = percent(f64::NAN);
    assert_eq!(refused(&config), "状态成功率阈值无效");
    let mut config = valid();
    config.bot.max_message_chars = 199;
    assert_eq!(refused(&config), "bot.max_message_chars 不能小于 200");
    let mut config = valid();
    config.push.enabled = true;
    config.push.interval_secs = 29;
    assert_eq!(refused(&config), "push.interval_secs 不能小于 30 秒");
    let mut config = valid();
    config.push.mode = "hourly".to_string();
    assert_eq!(refused(&config), "push.mode 只能是 periodic、change 或 anomaly");
    let mut config = valid();
    config.models.clear();
    assert_eq!(refused(&config), "models 至少需要配置一个白名单模型");
    let mut config = valid();
    config.models[0].name = "  ".to_string();
    assert_eq!(refused(&config), "白名单模型名不能为空");
    let mut config = valid();
    let again = config.models[0].clone();
    config.models.push(again);
    assert_eq!(refused(&config), "白名单模型重复: echo");
}

#[test]
fn each_target_rule_has_its_message() {
    let good = PushTarget {
        bot_id: "bot".to_string(),
        kind: "channel_private".to_string(),
        target_id: "1".to_string(),
        guild_id: Some(" guild ".to_string()),
    };
    assert!(good.validate().is_ok());
    assert_eq!(good.guild_id().as_deref(), Some("guild"));
    let mut bad = good.clone();
    bad.bot_id = " ".to_string();
    assert_eq!(bad.validate().unwrap_err(), "push.targets[].bot_id 不能为空");
    let mut bad = good.clone();
    bad.target_id = String::new();
    assert_eq!(bad.validate().unwrap_err(), "push.targets[].target_id 不能为空");
    let mut bad = good.clone();
    bad.kind = "guild".to_string();
    assert_eq!(
        bad.validate().unwrap_err(),
        "push.targets[].kind 只能是 private、group、channel 或 channel_private"
    );
    let mut blank = good.clone();
    blank.guild_id = Some("  ".to_string());
    assert_eq!(blank.guild_id(), None);
    blank.guild_id = None;
    assert_eq!(blank.guild_id(), None);
}

#[test]
fn default_rates_are_what_they_say() {
    let config = AppConfig::default();
    assert_eq!(config.status.normal_success_rate, percent(99.0));
    assert_eq!(config.status.degraded_success_rate, percent(95.0));
    assert_eq!(config.bot.max_message_chars, 1800);
    assert_eq!(config.push.mode, "change");
    assert_eq!(config.push.cooldown_secs, 900);
}

#[test]
fn path_rules_follow_the_reading() {
    let climbing = PathReading { absolute: false, parts: vec![PathPart::Parent] };
    assert!(validate_relative_path("x", &climbing).is_err());
    let absolute = PathReading { absolute: true, parts: Vec::new() };
    assert_eq!(
        validate_relative_path("/x", &absolute).unwrap_err(),
        "storage.database_file 必须是非空相对路径"
    );
}

#[test]
fn database_lies_below_the_data_directory() {
    let config = AppConfig::default();
    assert_eq!(
        config.database_path("/var/lib/bot").replace('\\', "/"),
        "/var/lib/bot/newapi-status-bot/status.db"
    );
}

#[test]
fn absolute_database_path_is_refused() {
    let mut config = AppConfig::default();
    config.api.admin_user_id = 3;
    config.models = vec![ModelConfig { name: "echo".to_string(), ..ModelConfig::default() }];
    assert!(config.validate().is_ok());
    for path in ["/var/lib/状态.db", "/a b"] {
        config.storage.database_file = path.to_string();
        assert_eq!(config.validate().unwrap_err(), "storage.database_file 必须是非空相对路径");
    }
    config.storage.database_file = "状态 x/../y".to_string();
    assert_eq!(config.validate().unwrap_err(), "storage.database_file 不允许包含上级目录");
}
