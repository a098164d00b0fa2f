use newapi_status_bot::api::{PerfMetricData, PerfMetricGroup};
use newapi_status_bot::config::{AppConfig, ModelConfig, PushTarget};
use newapi_status_bot::double::Double;
use newapi_status_bot::metrics::{
    GroupReport, HealthStatus, MetricValues, ModelReport, WindowSnapshot,
};
use newapi_status_bot::report::{
    chunk_reports, format_duration, format_errors, format_health, format_model, format_model_list,
    format_perf_metrics, format_status, format_time, format_timestamp, format_total_duration,
    status_header, status_icon, status_label, time_or_number, window_label,
};
use newapi_status_bot::repository::DatabaseStats;
use newapi_status_bot::state::CollectorHealth;
use serde_json::Value;

fn integer(value: &Value, pointer: &str, default: i64) -> i64 {
    value.pointer(pointer).and_then(Value::as_i64).unwrap_or(default)
}

fn flag(value: &Value, pointer: &str, default: bool) -> bool {
    value.pointer(pointer).and_then(Value::as_bool).unwrap_or(default)
}

fn string(value: &Value, pointer: &str, default: &str) -> String {
    value.pointer(pointer).and_then(Value::as_str).unwrap_or(default).to_string()
}

fn strings(value: &Value, pointer: &str) -> Vec<String> {
    match value.pointer(pointer).and_then(Value::as_array) {
        Some(items) => items.iter().filter_map(Value::as_str).map(str::to_string).collect(),
        None => Vec::new(),
    }
}

fn decode(raw: &str) -> Result<AppConfig, String> {
    let value: Value = serde_json::from_str(raw).map_err(|error| error.to_string())?;
    let mut config = AppConfig::default();
    config.api.admin_user_id = integer(&value, "/api/admin_user_id", config.api.admin_user_id);
    config.storage.database_file =
        string(&value, "/storage/database_file", &config.storage.database_file);
    config.perf_metrics.request_timeout_secs = integer(
        &value,
        "/perf_metrics/request_timeout_secs",
        config.perf_metrics.request_timeout_secs as i64,
    ) as u64;
    config.push.enabled = flag(&value, "/push/enabled", config.push.enabled);
    if let Some(targets) = value.pointer("/push/targets").and_then(Value::as_array) {
        for target in targets {
            config.push.targets.push(PushTarget {
                bot_id: string(target, "/bot_id", ""),
                kind: string(target, "/kind", ""),
                target_id: string(target, "/target_id", ""),
                guild_id: target.pointer("/guild_id").and_then(Value::as_str).map(str::to_string),
            });
        }
    }
    if let Some(models) = value.pointer("/models").and_then(Value::as_array) {
        for model in models {
            config.models.push(ModelConfig {
                name: string(model, "/name", ""),
                display_name: string(model, "/display_name", ""),
                groups: strings(model, "/groups"),
                max_ttft_ms: model.pointer("/max_ttft_ms").and_then(Value::as_i64),
                max_total_ms: model.pointer("/max_total_ms").and_then(Value::as_i64),
            });
        }
    }
    Ok(config)
}

fn parse(raw: &str) -> Result<AppConfig, String> {
    AppConfig::parse(raw, decode(raw))
}

fn double(value: f64) -> Double {
    Double { bits: value.to_bits() }
}

fn model(name: &str, display: &str, status: HealthStatus) -> ModelReport {
    ModelReport {
        model_name: name.to_string(),
        display_name: display.to_string(),
        status,
        overall: MetricValues::default(),
        groups: Vec::new(),
    }
}

#[test]
fn chunks_on_model_boundary() {
    let blocks = vec!["a".repeat(150), "b".repeat(150)];
    assert_eq!(chunk_reports("header", &blocks, 200).len(), 2);
}

#[test]
fn labels_all_supported_short_windows() {
    assert_eq!(window_label(60), "近1分钟");
    assert_eq!(window_label(300), "近5分钟");
    assert_eq!(window_label(600), "近10分钟");
}

#[test]
fn total_duration_preserves_source_second_precision() {
    assert_eq!(format_total_duration(Some(3000)), "3s");
}

#[test]
fn timestamp_uses_utc_plus_eight() {
    assert_eq!(format_timestamp(1_700_000_000), "11-15 06:13:20");
}

#[test]
fn status_report_uses_compact_model_and_group_layout() {
    let model = ModelReport {
        model_name: "gpt-5.6-sol".to_string(),
        display_name: "GPT-5.6 Sol".to_string(),
        status: HealthStatus::Abnormal,
        overall: MetricValues {
            requests: 38,
            successes: 30,
            failures: 8,
            success_rate: double(78.95),
            error_rate: double(21.05),
            retry_rate: double(57.89),
            ..MetricValues::default()
        },
        groups: vec![
            GroupReport {
                group_name: "Codex Burst".to_string(),
                status: HealthStatus::Abnormal,
                metrics: MetricValues {
                    requests: 24,
                    success_rate: double(66.67),
                    error_rate: double(33.33),
                    avg_ttft_ms: Some(7960),
                    p50_ttft_ms: Some(5250),
                    p95_ttft_ms: Some(30_100),
                    avg_total_ms: Some(22_000),
                    p50_total_ms: Some(17_000),
                    p95_total_ms: Some(30_000),
                    ..MetricValues::default()
                },
            },
            GroupReport {
                group_name: "Codex Plus".to_string(),
                status: HealthStatus::NoData,
                metrics: MetricValues::default(),
            },
        ],
    };

    let report = format_model(&model);
    assert_eq!(
        report,
        "❌ GPT-5.6 Sol｜异常\n成功率78.95%\n❌ Codex Burst｜成功66.67%\n首字：均7.96s｜中位5.25s｜P95 30.10s\n总耗：均22s｜中位17s｜P95 30s\n✅ Codex Plus｜正常"
    );
    for removed in [
        "gpt-5.6-sol",
        "请求",
        "失败",
        "部分",
        "错误",
        "重试",
        "├─",
        "└─",
        "│",
        "P50",
        "暂无样本",
    ] {
        assert!(!report.contains(removed), "unexpected field: {removed}");
    }
}

#[test]
fn status_header_omits_counts_and_separates_models() {
    let config = AppConfig::default();
    let snapshot = WindowSnapshot {
        generated_at: 1_700_000_000,
        window_seconds: 900,
        models: vec![
            model("echo", "Echo", HealthStatus::Normal),
            model("empty", "Empty", HealthStatus::NoData),
        ],
    };
    let health =
        CollectorHealth { last_success_at: 1_699_999_990, ..CollectorHealth::default() };
    let report = format_status(&config, &snapshot, &health, None).unwrap().join("\n");
    assert!(report.contains("📊 模型状态"));
    assert!(report.contains("🕒 11-15 06:13:20 - 06:13:10｜采集 ✅正常"));
    assert!(report.contains("✅ Echo｜正常\n\n✅ Empty｜正常"));
    assert!(!report.contains("查询"));
    assert!(!report.contains("数据截至"));
    assert!(!report.contains("白名单"));
    assert!(!report.contains("请求"));
    assert!(!report.contains("暂无分组样本"));
    assert_eq!(status_icon(HealthStatus::Normal), "✅");
    assert_eq!(status_icon(HealthStatus::Degraded), "⚠️");
    assert_eq!(status_icon(HealthStatus::Abnormal), "❌");
    assert_eq!(status_icon(HealthStatus::Stale), "⏳");
    assert_eq!(status_icon(HealthStatus::NoData), "✅");
    assert_eq!(status_icon(HealthStatus::InsufficientSamples), "◻️");
    assert_eq!(status_label(HealthStatus::NoData), "正常");
}

#[test]
fn error_report_includes_aggregated_retry_chain() {
    let config =
        parse(r#"{"api":{"admin_user_id":3},"models":[{"name":"echo"}]}"#).unwrap();
    let mut echo = model("echo", "echo", HealthStatus::Degraded);
    echo.overall.retry_channel_chains = vec![("12->34".to_string(), 2)];
    let snapshot = WindowSnapshot {
        window_seconds: 900,
        models: vec![echo],
        ..WindowSnapshot::default()
    };
    let chunks = format_errors(&config, &snapshot, None).unwrap();
    assert!(chunks.join("\n").contains("重试链 12->34: 2 次"));
}

#[test]
fn stale_data_is_said_with_its_error() {
    let config = AppConfig::default();
    let snapshot = WindowSnapshot {
        generated_at: 1_700_000_000,
        window_seconds: 60,
        models: Vec::new(),
    };
    let mut health = CollectorHealth::default();
    health.last_error = "错".repeat(200);
    let report = format_status(&config, &snapshot, &health, None).unwrap();
    assert_eq!(report.len(), 1);
    assert_eq!(
        report[0],
        format!(
            "📊 模型状态｜近1分钟\n🕒 11-15 06:13:20 - --｜采集 ⏳数据过期\n采集错误｜{}",
            "错".repeat(160)
        )
    );
    health.last_success_at = 1_700_000_000 - 180;
    let report = format_status(&config, &snapshot, &health, None).unwrap();
    assert!(report[0].ends_with("✅正常"));
    health.last_success_at = 1_700_000_000 - 181;
    let report = format_status(&config, &snapshot, &health, None).unwrap();
    assert!(report[0].contains("⏳数据过期"));
}

#[test]
fn selects_models_by_either_name() {
    let config = AppConfig::default();
    let snapshot = WindowSnapshot {
        generated_at: 1,
        window_seconds: 900,
        models: vec![
            model("echo", "Echo Model", HealthStatus::Normal),
            model("other", "Other", HealthStatus::Normal),
        ],
    };
    let health = CollectorHealth::default();
    let one = format_status(&config, &snapshot, &health, Some(" ECHO model ")).unwrap();
    assert!(one[0].contains("Echo Model") && !one[0].contains("Other"));
    let all = format_status(&config, &snapshot, &health, Some("  ")).unwrap();
    assert!(all[0].contains("Echo Model") && all[0].contains("Other"));
    assert_eq!(
        format_status(&config, &snapshot, &health, Some(" nope ")).unwrap_err(),
        "模型不在白名单中: nope"
    );
    assert_eq!(
        format_errors(&config, &snapshot, Some("nope")).unwrap_err(),
        "模型不在白名单中: nope"
    );
}

#[test]
fn chunks_lose_no_block() {
    let blocks = (0..7).map(|i| format!("{i}").repeat(90)).collect::<Vec<_>>();
    let chunks = chunk_reports("header", &blocks, 0);
    assert_eq!(chunks.len(), 4);
    assert_eq!(chunks[0], format!("header\n\n{}\n\n{}", blocks[0], blocks[1]));
    assert_eq!(chunks[1], format!("📊 模型状态｜续\n\n{}\n\n{}", blocks[2], blocks[3]));
    assert_eq!(chunks[3], format!("📊 模型状态｜续\n\n{}", blocks[6]));
    assert!(chunks.iter().all(|chunk| chunk.chars().count() <= 200));
    assert_eq!(chunk_reports("header", &Vec::new(), 200), vec!["header".to_string()]);
}

#[test]
fn durations_are_shown_by_size() {
    assert_eq!(format_duration(None), "--");
    assert_eq!(format_duration(Some(999)), "999ms");
    assert_eq!(format_duration(Some(-5)), "-5ms");
    for ms in [1000i64, 1005, 1015, 1025, 2675, 7960, 123_456_785, i64::MAX] {
        assert_eq!(format_duration(Some(ms)), format!("{:.2}s", ms as f64 / 1000.0));
    }
    assert_eq!(format_total_duration(Some(-1500)), "-1s");
    assert_eq!(format_total_duration(Some(1999)), "1s");
    assert_eq!(format_total_duration(None), "--");
}

#[test]
fn times_out_of_range_are_numbers() {
    assert_eq!(format_timestamp(0), "--");
    assert_eq!(format_time(-1), "--");
    assert_eq!(format_timestamp(i64::MAX), "9223372036854775807");
    assert_eq!(format_time(i64::MAX), "9223372036854775807");
    assert_eq!(format_time(1_700_000_000), "06:13:20");
    assert_eq!(format_time(57_600 + 3_661), "01:01:01");
    assert_eq!(time_or_number(5, None), "5");
    assert_eq!(time_or_number(5, Some("x".to_string())), "x");
    assert_eq!(time_or_number(0, Some("x".to_string())), "--");
}

#[test]
fn header_is_built_from_shown_times() {
    assert_eq!(
        status_header(900, "A", "B", false, "ignored"),
        "📊 模型状态｜近15分钟\n🕒 A - B｜采集 ✅正常"
    );
    assert_eq!(
        status_header(1, "A", "B", true, ""),
        "📊 模型状态｜自定义窗口\n🕒 A - B｜采集 ⏳数据过期"
    );
    assert_eq!(window_label(3600), "近1小时");
    assert_eq!(window_label(86_400), "近24小时");
    assert_eq!(window_label(604_800), "近7天");
}

#[test]
fn lists_models_with_groups() {
    let mut config = AppConfig::default();
    config.models.push(ModelConfig {
        name: "echo".to_string(),
        display_name: "Echo".to_string(),
        groups: vec!["a".to_string(), "b".to_string()],
        max_ttft_ms: None,
        max_total_ms: None,
    });
    config.models.push(ModelConfig {
        name: "raw".to_string(),
        display_name: String::new(),
        groups: Vec::new(),
        max_ttft_ms: None,
        max_total_ms: None,
    });
    assert_eq!(
        format_model_list(&config, 1_700_000_000),
        vec![
            "[模型监控白名单]\n共 2 个模型\n\n- Echo (echo)\n  分组: a、b\n\n- raw (raw)\n  分组: 全部已发现分组\n\n快照时间: 11-15 06:13:20"
                .to_string()
        ]
    );
}

#[test]
fn error_report_lists_five_codes_and_three_chains() {
    let config = AppConfig::default();
    let mut echo = model("echo", "Echo", HealthStatus::Degraded);
    echo.overall.error_codes = (0..7).map(|i| (format!("e{i}"), 10 - i)).collect();
    echo.overall.retry_channel_chains = (0..5).map(|i| (format!("1->{i}"), 3)).collect();
    echo.overall.error_rate = double(12.345);
    echo.overall.attempt_error_rate = double(50.0);
    let snapshot =
        WindowSnapshot { window_seconds: 900, models: vec![echo], ..WindowSnapshot::default() };
    let expected = "[模型异常摘要] 近15分钟\n\nEcho\n  e0: 10\n  e1: 9\n  e2: 8\n  e3: 7\n  e4: 6\n  重试链 1->0: 3 次\n  重试链 1->1: 3 次\n  重试链 1->2: 3 次\n  请求错误率 12.35% | 尝试错误率 50.00%";
    let report = format_errors(&config, &snapshot, None).unwrap();
    assert_eq!(report, vec![expected.replace("12.35", &format!("{:.2}", 12.345))]);
    let clean = WindowSnapshot {
        window_seconds: 900,
        models: vec![model("echo", "Echo", HealthStatus::Normal)],
        ..WindowSnapshot::default()
    };
    assert!(format_errors(&config, &clean, None).unwrap()[0].contains("\n  暂无终态错误分类"));
}

#[test]
fn health_tells_everything() {
    let database = DatabaseStats { sample_count: 5, outcome_count: 3 };
    let mut health = CollectorHealth::default();
    health.started_at = 1_700_000_000;
    health.consecutive_failures = 2;
    let text = format_health(&database, &health, "/d/status.db", false, false, 0, 0);
    assert_eq!(
        text,
        "[监控健康]\n数据库: /d/status.db\n启动时间: 11-15 06:13:20\n最后尝试: --\n最后成功: --\n连续失败: 2\n日志样本: 5\n请求结果: 3\n推送: 未启用\n心跳: 未收到\n状态: 正常"
    );
    health.last_error = "down".to_string();
    let text = format_health(&database, &health, "p", true, false, 0, 1_700_000_000);
    assert!(text.contains("推送: 推送未配置"));
    assert!(text.contains("心跳: 最后收到 11-15 06:13:20"));
    assert!(text.ends_with("状态: down"));
    let text = format_health(&database, &health, "p", true, true, 0, 0);
    assert!(text.contains("推送: 已配置，等待状态确认"));
    let text = format_health(&database, &health, "p", true, true, 1_700_000_000, 0);
    assert!(text.contains("推送: 最后入队 11-15 06:13:20"));
}

#[test]
fn public_metrics_stand_apart() {
    let mut data = PerfMetricData { model_name: "echo".to_string(), groups: Vec::new() };
    assert_eq!(
        format_perf_metrics(&data, 24),
        "[模型广场参考] echo | 近24小时\n暂无公开分组样本"
    );
    data.groups.push(PerfMetricGroup {
        group: "default".to_string(),
        avg_ttft_ms: 0,
        avg_latency_ms: 2500,
        success_rate: double(99.5),
        avg_tps: double(31.25),
    });
    assert_eq!(
        format_perf_metrics(&data, 1),
        format!(
            "[模型广场参考] echo | 近1小时\ndefault\n  成功 99.50% | 首字 -- | 总耗时 2.50s | {:.1} tok/s\n注: 广场指标不与本地日志统计混算",
            31.25
        )
    );
}

#[test]
fn new_message_begins_only_where_the_next_block_does_not_fit() {
    for size in 80..110 {
        let blocks = vec!["a".repeat(size), "b".repeat(size), "c".repeat(size)];
        let chunks = chunk_reports("header", &blocks, 200);
        let fits = "header".len() + 2 * (size + 2) <= 200;
        assert_eq!(chunks[0].contains('b'), fits, "{size}");
        assert_eq!(chunks.concat().matches('c').count(), size);
    }
}
