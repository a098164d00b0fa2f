use newapi_status_bot::config::{AppConfig, ModelConfig, PushTarget};
use newapi_status_bot::domain::UNKNOWN_GROUP;
use newapi_status_bot::double::Double;
use newapi_status_bot::metrics::{
    average, build_snapshot, classify, percentile, snapshot_map, tally, Accumulator, HealthStatus,
    MetricValues, WINDOWS,
};
use newapi_status_bot::repository::OutcomeRow;
use serde_json::Value;

fn integer(value: &Value, pointer: &str, default: i64) -> i64 {
    value.pointer(pointer).and_then(Value::as_i64).unwrap_or(default)
}

fn flag(value: &Value, pointer: &str, default: bool) -> bool {
    value.pointer(pointer).and_then(Value::as_bool).unwrap_or(default)
}

fn string(value: &Value, pointer: &str, default: &str) -> String {
    value.pointer(pointer).and_then(Value::as_str).unwrap_or(default).to_string()
}

fn strings(value: &Value, pointer: &str) -> Vec<String> {
    match value.pointer(pointer).and_then(Value::as_array) {
        Some(items) => items.iter().filter_map(Value::as_str).map(str::to_string).collect(),
        None => Vec::new(),
    }
}

fn decode(raw: &str) -> Result<AppConfig, String> {
    let value: Value = serde_json::from_str(raw).map_err(|error| error.to_string())?;
    let mut config = AppConfig::default();
    config.api.admin_user_id = integer(&value, "/api/admin_user_id", config.api.admin_user_id);
    config.storage.database_file =
        string(&value, "/storage/database_file", &config.storage.database_file);
    config.perf_metrics.request_timeout_secs = integer(
        &value,
        "/perf_metrics/request_timeout_secs",
        config.perf_metrics.request_timeout_secs as i64,
    ) as u64;
    config.push.enabled = flag(&value, "/push/enabled", config.push.enabled);
    if let Some(targets) = value.pointer("/push/targets").and_then(Value::as_array) {
        for target in targets {
            config.push.targets.push(PushTarget {
                bot_id: string(target, "/bot_id", ""),
                kind: string(target, "/kind", ""),
                target_id: string(target, "/target_id", ""),
                guild_id: target.pointer("/guild_id").and_then(Value::as_str).map(str::to_string),
            });
        }
    }
    if let Some(models) = value.pointer("/models").and_then(Value::as_array) {
        for model in models {
            config.models.push(ModelConfig {
                name: string(model, "/name", ""),
                display_name: string(model, "/display_name", ""),
                groups: strings(model, "/groups"),
                max_ttft_ms: model.pointer("/max_ttft_ms").and_then(Value::as_i64),
                max_total_ms: model.pointer("/max_total_ms").and_then(Value::as_i64),
            });
        }
    }
    Ok(config)
}

fn parse(raw: &str) -> Result<AppConfig, String> {
    AppConfig::parse(raw, decode(raw))
}

fn config() -> AppConfig {
    parse(r#"{"api":{"admin_user_id":3},"models":[{"name":"echo","groups":["default"]}]}"#)
        .unwrap()
}

fn row(outcome: &str, attempts: i64, errors: i64, ttft: i64) -> OutcomeRow {
    OutcomeRow {
        model_name: "echo".to_string(),
        group_name: "default".to_string(),
        outcome: outcome.to_string(),
        last_seen: 1000,
        total_ms: Some(3000),
        ttft_ms: Some(ttft),
        attempt_count: attempts,
        error_count: errors,
        latest_error_code: String::new(),
        latest_retry_channel_chain: String::new(),
    }
}

fn double(value: f64) -> Double {
    Double { bits: value.to_bits() }
}

#[test]
fn calculates_request_and_attempt_rates() {
    let rows = vec![row("success", 2, 1, 100), row("failed", 2, 2, 300)];
    let snapshot = build_snapshot(&config(), &rows, 1000, 900);
    let metrics = &snapshot.models[0].overall;
    assert_eq!(metrics.success_rate, double(50.0));
    assert_eq!(metrics.attempt_error_rate, double(75.0));
    assert_eq!(metrics.retry_rate, double(100.0));
    assert_eq!(metrics.p50_ttft_ms, Some(300));
}

#[test]
fn keeps_configured_group_without_samples() {
    let snapshot = build_snapshot(&config(), &[], 1000, 900);
    assert_eq!(snapshot.models[0].groups[0].status, HealthStatus::NoData);
}

#[test]
fn keeps_unknown_route_but_excludes_unlisted_groups_from_overall() {
    let mut unknown = row("failed", 1, 1, 100);
    unknown.group_name = UNKNOWN_GROUP.to_string();
    let mut hidden = row("success", 1, 0, 100);
    hidden.group_name = "not-configured".to_string();

    let snapshot = build_snapshot(&config(), &[unknown, hidden], 1000, 900);
    let model = &snapshot.models[0];
    assert_eq!(model.overall.requests, 1);
    assert!(model.groups.iter().any(|group| group.group_name == UNKNOWN_GROUP));
    assert!(!model.groups.iter().any(|group| group.group_name == "not-configured"));
}

#[test]
fn groups_add_up_and_stand_in_order() {
    let mut config = config();
    config.models[0].groups.clear();
    let mut rows = Vec::new();
    for (group, count) in [("b", 2), ("a", 3), ("ä", 1)] {
        for _ in 0..count {
            let mut row = row("success", 1, 0, 100);
            row.group_name = group.to_string();
            rows.push(row);
        }
    }
    let snapshot = build_snapshot(&config, &rows, 1000, 900);
    let model = &snapshot.models[0];
    let names = model.groups.iter().map(|g| g.group_name.as_str()).collect::<Vec<_>>();
    assert_eq!(names, vec!["a", "b", "ä"]);
    let sum: u64 = model.groups.iter().map(|g| g.metrics.requests).sum();
    assert_eq!(sum, model.overall.requests);
    assert_eq!(sum, 6);
}

#[test]
fn counts_every_request_once() {
    let rows = vec![
        row("success", 1, 0, 1),
        row("partial_failed", 1, 0, 2),
        row("failed", 1, 1, 3),
        row("odd", 1, 1, 4),
    ];
    let metrics = Accumulator { rows }.finish();
    assert_eq!(metrics.requests, 4);
    assert_eq!(metrics.successes, 1);
    assert_eq!(metrics.partial_failures, 1);
    assert_eq!(metrics.failures, 2);
    assert_eq!(metrics.error_rate, double(75.0));
    assert_eq!(metrics.latest_at, 1000);
    assert_eq!(metrics.avg_ttft_ms, Some(2));
    assert_eq!(metrics.avg_total_ms, Some(3000));
}

#[test]
fn rates_are_those_of_binary_floating_point() {
    for (part, whole) in [(1u64, 3u64), (2, 3), (7, 9), (999, 1000), (1, 7), (123_457, 999_983)] {
        let rows = (0..3).map(|i| row(if i < 1 { "success" } else { "failed" }, 1, 1, 1));
        let metrics = Accumulator { rows: rows.collect() }.finish();
        assert_eq!(metrics.success_rate, double(1f64 / 3f64 * 100.0));
        assert_eq!(
            newapi_status_bot::double::percentage(part, whole),
            double(part as f64 / whole as f64 * 100.0)
        );
    }
}

#[test]
fn all_successes_are_exactly_hundred_percent() {
    for n in 1..50u64 {
        let rows = (0..n).map(|_| row("success", 1, 0, 1)).collect();
        let metrics = Accumulator { rows }.finish();
        assert_eq!(metrics.success_rate, double(100.0));
        assert_eq!(metrics.error_rate, double(0.0));
    }
}

#[test]
fn empty_window_has_no_times() {
    let metrics = Accumulator { rows: Vec::new() }.finish();
    assert_eq!(metrics.requests, 0);
    assert_eq!(metrics.success_rate, double(0.0));
    assert_eq!(metrics.avg_ttft_ms, None);
    assert_eq!(metrics.p95_total_ms, None);
    assert_eq!(metrics.latest_at, 0);
    let default = MetricValues::default();
    assert_eq!(default.requests, 0);
    assert!(default.error_codes.is_empty());
}

#[test]
fn averages_drop_the_fraction() {
    assert_eq!(average(&vec![1, 2]), Some(1));
    assert_eq!(average(&vec![-1, -2]), Some(-1));
    assert_eq!(average(&vec![i64::MAX, i64::MAX]), Some(i64::MAX));
    assert_eq!(average(&vec![i64::MIN]), Some(i64::MIN));
    assert_eq!(average(&Vec::new()), None);
}

#[test]
fn percentiles_round_the_place_up() {
    let values = (1..=100).rev().collect::<Vec<i64>>();
    assert_eq!(percentile(&values, double(0.50)), Some(51));
    assert_eq!(percentile(&values, double(0.95)), Some(96));
    assert_eq!(percentile(&vec![5], double(0.95)), Some(5));
    assert_eq!(percentile(&Vec::new(), double(0.50)), None);
    for n in 1..200usize {
        let values = (0..n as i64).collect::<Vec<i64>>();
        for quantile in [0.50f64, 0.95] {
            let rank = ((n - 1) as f64 * quantile).ceil() as i64;
            assert_eq!(percentile(&values, double(quantile)), Some(rank));
        }
    }
}

#[test]
fn tallies_put_the_most_frequent_first() {
    let names = ["b", "a", "c", "b", "a", "d", "b"].map(str::to_string).to_vec();
    let expected = [("b", 3), ("a", 2), ("c", 1), ("d", 1)];
    assert_eq!(tally(&names), expected.map(|(n, c)| (n.to_string(), c)).to_vec());
    assert!(tally(&Vec::new()).is_empty());
}

#[test]
fn errors_and_chains_are_tallied() {
    let mut rows = vec![row("success", 2, 1, 1), row("failed", 1, 1, 1), row("failed", 1, 1, 1)];
    rows[0].latest_error_code = "ignored".to_string();
    rows[0].latest_retry_channel_chain = "1->2".to_string();
    rows[1].latest_error_code = "timeout".to_string();
    let metrics = Accumulator { rows }.finish();
    assert_eq!(
        metrics.error_codes,
        vec![("timeout".to_string(), 1), ("unknown_error".to_string(), 1)]
    );
    assert_eq!(metrics.retry_channel_chains, vec![("1->2".to_string(), 1)]);
}

#[test]
fn judges_by_samples_rate_and_time() {
    let config = config();
    let model = &config.models[0];
    let mut metrics = MetricValues { requests: 10, ..MetricValues::default() };
    metrics.success_rate = double(100.0);
    assert_eq!(classify(&config, model, &metrics), HealthStatus::Normal);
    metrics.success_rate = double(98.9);
    assert_eq!(classify(&config, model, &metrics), HealthStatus::Degraded);
    metrics.success_rate = double(94.9);
    assert_eq!(classify(&config, model, &metrics), HealthStatus::Abnormal);
    metrics.success_rate = double(99.0);
    metrics.p95_ttft_ms = Some(12_001);
    assert_eq!(classify(&config, model, &metrics), HealthStatus::Degraded);
    metrics.p95_ttft_ms = Some(12_000);
    metrics.p95_total_ms = Some(30_000);
    assert_eq!(classify(&config, model, &metrics), HealthStatus::Normal);
    let mut strict = model.clone();
    strict.max_total_ms = Some(29_999);
    assert_eq!(classify(&config, &strict, &metrics), HealthStatus::Degraded);
    metrics.requests = 4;
    assert_eq!(classify(&config, model, &metrics), HealthStatus::InsufficientSamples);
    metrics.requests = 0;
    assert_eq!(classify(&config, model, &metrics), HealthStatus::NoData);
}

#[test]
fn model_is_as_grave_as_its_gravest_group() {
    let mut rows = (0..5).map(|_| row("failed", 1, 1, 1)).collect::<Vec<_>>();
    rows.extend((0..100).map(|_| {
        let mut good = row("success", 1, 0, 1);
        good.group_name = UNKNOWN_GROUP.to_string();
        good
    }));
    let snapshot = build_snapshot(&config(), &rows, 1000, 900);
    assert_eq!(snapshot.models[0].status, HealthStatus::Abnormal);
}

#[test]
fn old_rows_and_other_models_are_left_out() {
    let mut old = row("success", 1, 0, 1);
    old.last_seen = 99;
    let mut edge = row("success", 1, 0, 1);
    edge.last_seen = 100;
    let mut other = row("success", 1, 0, 1);
    other.model_name = "other".to_string();
    let snapshot = build_snapshot(&config(), &[old, edge, other], 1000, 900);
    assert_eq!(snapshot.models[0].overall.requests, 1);
    assert_eq!(snapshot.models[0].display_name, "echo");
}

#[test]
fn four_windows_are_kept_ready() {
    let map = snapshot_map(&config(), &[row("success", 1, 0, 1)], 1000);
    assert_eq!(map.len(), 4);
    assert_eq!(WINDOWS, [15 * 60, 60 * 60, 24 * 60 * 60, 7 * 24 * 60 * 60]);
    for window in WINDOWS {
        assert_eq!(map[&window].window_seconds, window);
        assert_eq!(map[&window].models[0].overall.requests, 1);
    }
}

#[test]
fn statuses_have_labels() {
    let labels = [
        (HealthStatus::Normal, "正常"),
        (HealthStatus::InsufficientSamples, "样本不足"),
        (HealthStatus::NoData, "暂无样本"),
        (HealthStatus::Degraded, "波动"),
        (HealthStatus::Abnormal, "异常"),
        (HealthStatus::Stale, "数据过期"),
    ];
    for (status, label) in labels {
        assert_eq!(status.label(), label);
    }
}

#[test]
fn order_of_rows_does_not_matter() {
    let mut rows = vec![
        row("success", 2, 1, 100),
        row("failed", 2, 2, 300),
        row("partial_failed", 1, 0, 200),
        row("failed", 3, 3, 50),
    ];
    rows[1].latest_error_code = "b".to_string();
    rows[2].latest_error_code = "a".to_string();
    rows[3].last_seen = 2000;
    rows[3].latest_retry_channel_chain = "1->2".to_string();
    let forward = Accumulator { rows: rows.clone() }.finish();
    rows.reverse();
    let backward = Accumulator { rows }.finish();
    assert_eq!(format!("{forward:?}"), format!("{backward:?}"));
    assert_eq!(forward.latest_at, 2000);
}

#[test]
fn percentile_divides_values_in_any_order() {
    assert_eq!(percentile(&vec![300, 100], double(0.50)), Some(300));
    assert_eq!(percentile(&vec![100, 300], double(0.50)), Some(300));
    let values = vec![7, -2, 7, 0, 9, 4, 4];
    assert_eq!(percentile(&values, double(0.0)), Some(-2));
    assert_eq!(percentile(&values, double(1.0)), Some(9));
    for percent in 0..=100 {
        let quantile = percent as f64 / 100.0;
        let v = percentile(&values, double(quantile)).unwrap();
        let place = ((values.len() - 1) as f64 * quantile).ceil() as usize;
        assert!(values.iter().filter(|x| **x <= v).count() >= place + 1);
        assert!(values.iter().filter(|x| **x < v).count() <= place);
    }
}

#[test]
fn quantiles_are_multiplied_as_binary64() {
    let quantiles = [
        0.0, -0.0, 1.0, 0.1, 0.3, 1.0 / 3.0, 0.7, 0.95, 0.999_999_999_999_999_9, 5e-324,
        f64::MIN_POSITIVE, 1e-300, 1.0 + f64::EPSILON, 2.5, 1e16, 1e300, f64::MAX, f64::INFINITY,
        -0.5, -1e300, f64::NEG_INFINITY, f64::NAN,
    ];
    for n in (1..130usize).chain([1000, 4097]) {
        let values = (0..n as i64).collect::<Vec<i64>>();
        for quantile in quantiles {
            let rank = ((n - 1) as f64 * quantile).ceil() as usize;
            assert_eq!(percentile(&values, double(quantile)), values.get(rank).copied());
        }
    }
    for n in [1usize << 53, (1 << 53) + 2, (1 << 60) + 12345, usize::MAX / 3, usize::MAX] {
        for quantile in quantiles {
            let rank = ((n - 1) as f64 * quantile).ceil() as usize;
            let expected = if rank < n { Some(rank) } else { None };
            assert_eq!(double(quantile).find_place(n), expected, "{n} {quantile}");
        }
    }
}
