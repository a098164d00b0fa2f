use std::collections::HashMap;

use newapi_status_bot::config::{AppConfig, PushConfig, PushTarget};
use newapi_status_bot::json::JsonLeaf;
use newapi_status_bot::metrics::{HealthStatus, MetricValues, ModelReport, WindowSnapshot};
use newapi_status_bot::push::{
    account, commit_heartbeat_push, commit_if_any_accepted, deliver, enqueue_chunks_with,
    handle_heartbeat, health_signal, heartbeat_from, log_missing_targets_on_init, maybe_push, record_heartbeat,
    route_to, send_text_to_target, should_send_push, snapshot_signal, start_push, PendingPush,
    PushAttempt, PushStart, Route, SendEnqueueStatus,
};
use newapi_status_bot::repository::DatabaseStats;
use newapi_status_bot::state::{CollectorHealth, PushState, ReportCache};

fn target(kind: &str, id: &str) -> PushTarget {
    PushTarget {
        bot_id: "qq-reverse".to_string(),
        kind: kind.to_string(),
        target_id: id.to_string(),
        guild_id: None,
    }
}

fn attempt(status: SendEnqueueStatus) -> PushAttempt {
    PushAttempt {
        bot_id: "qq-reverse".to_string(),
        kind: "group".to_string(),
        target_id: "10001".to_string(),
        status,
    }
}

fn snapshot(status: HealthStatus) -> WindowSnapshot {
    WindowSnapshot {
        generated_at: 1_700_000_000,
        window_seconds: 900,
        models: vec![ModelReport {
            model_name: "echo".to_string(),
            display_name: "Echo".to_string(),
            status,
            overall: MetricValues::default(),
            groups: Vec::new(),
        }],
    }
}

fn reports(status: HealthStatus) -> ReportCache {
    let mut windows = HashMap::new();
    windows.insert(900, snapshot(status));
    ReportCache { generated_at: 1, windows, database: DatabaseStats::default() }
}

fn fresh() -> CollectorHealth {
    CollectorHealth { last_success_at: 1_700_000_000, ..CollectorHealth::default() }
}

fn config(mode: &str) -> AppConfig {
    let mut config = AppConfig::default();
    config.push.enabled = true;
    config.push.mode = mode.to_string();
    config.push.cooldown_secs = 0;
    config.push.confirmations = 1;
    config
}

#[test]
fn push_anomaly_mode_sends_initial_alert_after_confirmation() {
    let mut push = PushState::default();
    let config = PushConfig {
        mode: "anomaly".to_string(),
        confirmations: 2,
        cooldown_secs: 0,
        ..PushConfig::default()
    };

    assert!(!should_send_push(&mut push, &config, "echo:bad", true, 100));
    assert!(should_send_push(&mut push, &config, "echo:bad", true, 101));
}

#[test]
fn enqueue_uses_every_target_and_chunk() {
    let targets = vec![target("group", "10001"), target("private", "20002")];
    let chunks = vec!["first".to_string(), "second".to_string()];

    let attempts = enqueue_chunks_with(&targets, &chunks, |target, message| {
        assert!(!target.bot_id.is_empty());
        assert!(!message.is_empty());
        SendEnqueueStatus::Accepted
    });

    assert_eq!(attempts.len(), 4);
    assert!(attempts.iter().all(|attempt| attempt.status.is_accepted()));
}

#[test]
fn accepted_attempt_commits_push_state() {
    let attempts = vec![attempt(SendEnqueueStatus::Accepted)];
    let mut push = PushState {
        candidate_count: 2,
        candidate_fingerprint: "old".to_string(),
        ..PushState::default()
    };

    assert!(commit_if_any_accepted(&mut push, "echo:bad".to_string(), true, 123, &attempts));
    assert_eq!(push.last_push_at, 123);
    assert_eq!(push.last_sent_fingerprint, "echo:bad");
    assert!(push.last_sent_had_alert);
    assert_eq!(push.candidate_count, 0);
    assert!(push.candidate_fingerprint.is_empty());
}

#[test]
fn rejected_attempts_do_not_commit_push_state() {
    let attempts = vec![attempt(SendEnqueueStatus::HostUnavailable)];
    let mut push = PushState::default();

    assert!(!commit_if_any_accepted(&mut push, "echo:bad".to_string(), true, 123, &attempts));
    assert_eq!(push.last_push_at, 0);
    assert!(push.last_sent_fingerprint.is_empty());
}

#[test]
fn channel_target_attaches_optional_guild_context() {
    abi_stable_host_api::unbind_host_api_v1();
    let target = PushTarget {
        guild_id: Some("guild-1".to_string()),
        ..target("channel", "channel-1")
    };
    let status = send_text_to_target(&target, "hello");

    assert_eq!(status, SendEnqueueStatus::HostUnavailable);
    match route_to(&target) {
        Route::Channel(Some(guild)) => assert_eq!(guild, "guild-1"),
        other => panic!("unexpected route: {other:?}"),
    }
}

#[test]
fn every_kind_has_its_way() {
    abi_stable_host_api::unbind_host_api_v1();
    assert!(matches!(route_to(&target("private", "1")), Route::Private));
    assert!(matches!(route_to(&target("group", "1")), Route::Group));
    assert!(matches!(route_to(&target("channel", "1")), Route::Channel(None)));
    assert!(matches!(route_to(&target("channel_private", "1")), Route::ChannelPrivate(None)));
    assert!(matches!(route_to(&target("guild", "1")), Route::Nowhere));
    for kind in ["private", "group", "channel", "channel_private"] {
        let unreachable_host = send_text_to_target(&target(kind, "1"), "hello");
        assert_eq!(unreachable_host, SendEnqueueStatus::HostUnavailable);
        let nobody = send_text_to_target(&target(kind, ""), "hello");
        assert_eq!(nobody, SendEnqueueStatus::InvalidRequest);
        let mut guild = target(kind, "1");
        guild.guild_id = Some("g".to_string());
        assert_eq!(send_text_to_target(&guild, "hello"), SendEnqueueStatus::HostUnavailable);
        guild.bot_id = String::new();
        assert_eq!(send_text_to_target(&guild, "hello"), SendEnqueueStatus::InvalidRequest);
    }
    assert_eq!(
        send_text_to_target(&target("private", "1"), ""),
        SendEnqueueStatus::InvalidRequest
    );
    assert_eq!(
        send_text_to_target(&target("guild", "1"), "hello"),
        SendEnqueueStatus::InvalidRequest
    );
}

#[test]
fn answers_of_the_host_have_codes() {
    for code in 0..=6 {
        let outside = abi_stable_host_api::SendEnqueueStatus::from_code(code);
        let inside = SendEnqueueStatus::from_code(code);
        assert_eq!(format!("{outside:?}"), format!("{inside:?}"));
        assert_eq!(outside.is_accepted(), inside.is_accepted());
    }
    assert_eq!(SendEnqueueStatus::from_code(99), SendEnqueueStatus::HostUnavailable);
}

#[test]
fn fingerprint_names_models_and_statuses() {
    let mut both = snapshot(HealthStatus::Normal);
    both.models.push(ModelReport {
        model_name: "other".to_string(),
        ..snapshot(HealthStatus::InsufficientSamples).models[0].clone()
    });
    assert_eq!(snapshot_signal(&both), ("echo:Normal|other:InsufficientSamples".to_string(), false));
    for status in [HealthStatus::Stale, HealthStatus::Degraded, HealthStatus::Abnormal] {
        let (fingerprint, alert) = snapshot_signal(&snapshot(status));
        assert_eq!(fingerprint, format!("echo:{status:?}"));
        assert!(alert);
    }
    assert!(!snapshot_signal(&snapshot(HealthStatus::NoData)).1);
}

#[test]
fn change_mode_notes_the_first_state() {
    let config = PushConfig { confirmations: 1, cooldown_secs: 0, ..PushConfig::default() };
    let mut push = PushState::default();
    assert!(!should_send_push(&mut push, &config, "a", false, 1));
    assert_eq!(push.last_sent_fingerprint, "a");
    assert!(!should_send_push(&mut push, &config, "a", false, 2));
    assert!(should_send_push(&mut push, &config, "b", false, 3));
}

#[test]
fn cooldown_and_confirmation_hold_pushes_back() {
    let config = PushConfig {
        mode: "anomaly".to_string(),
        confirmations: 3,
        cooldown_secs: 100,
        ..PushConfig::default()
    };
    let mut push = PushState { last_push_at: 1_000, ..PushState::default() };
    assert!(!should_send_push(&mut push, &config, "bad", true, 1_200));
    assert!(!should_send_push(&mut push, &config, "bad", true, 1_201));
    assert!(!should_send_push(&mut push, &config, "bad", true, 1_099));
    assert!(should_send_push(&mut push, &config, "bad", true, 1_100));
    assert!(!should_send_push(&mut push, &config, "worse", true, 1_300));
}

#[test]
fn recovery_is_pushed_and_nothing_else_without_alert() {
    let config = PushConfig {
        mode: "anomaly".to_string(),
        confirmations: 1,
        cooldown_secs: 0,
        ..PushConfig::default()
    };
    let mut push = PushState::default();
    assert!(!should_send_push(&mut push, &config, "good", false, 1));
    push.last_sent_had_alert = true;
    push.last_sent_fingerprint = "bad".to_string();
    assert!(should_send_push(&mut push, &config, "good", false, 2));
    assert!(!should_send_push(&mut push, &config, "bad", true, 3));
}

#[test]
fn periodic_mode_counts_time_alone() {
    let config = PushConfig {
        mode: "periodic".to_string(),
        interval_secs: 60,
        ..PushConfig::default()
    };
    let mut push = PushState { last_push_at: 100, ..PushState::default() };
    assert!(!should_send_push(&mut push, &config, "a", false, 159));
    assert!(should_send_push(&mut push, &config, "a", false, 160));
    assert_eq!(push.candidate_count, 0);
}

#[test]
fn push_starts_only_where_it_leads_somewhere() {
    let mut push = PushState::default();
    let mut config = config("periodic");
    assert_eq!(start_push(&config, &mut push), PushStart::NoTargets { say: true });
    assert_eq!(start_push(&config, &mut push), PushStart::NoTargets { say: false });
    config.push.targets.push(target("group", "1"));
    assert_eq!(start_push(&config, &mut push), PushStart::Load(900));
    config.status.default_window = "2h".to_string();
    assert_eq!(start_push(&config, &mut push), PushStart::Idle);
    config.push.enabled = false;
    assert_eq!(start_push(&config, &mut push), PushStart::Idle);
}

#[test]
fn missing_targets_are_said_once() {
    let mut push = PushState::default();
    let mut config = config("periodic").push;
    assert!(log_missing_targets_on_init(&config, &mut push));
    assert!(!log_missing_targets_on_init(&config, &mut push));
    let mut fresh = PushState::default();
    config.enabled = false;
    assert!(!log_missing_targets_on_init(&config, &mut fresh));
    assert!(!fresh.missing_targets_logged);
}

#[test]
fn due_report_is_delivered_to_every_target() {
    abi_stable_host_api::unbind_host_api_v1();
    let mut config = config("anomaly");
    config.push.targets = vec![target("group", "1"), target("guild", "2")];
    let mut push = PushState::default();
    let health = fresh();
    let pending = maybe_push(&config, &mut push, &snapshot(HealthStatus::Abnormal), &health, 5)
        .expect("an alert is due");
    assert_eq!(pending.fingerprint, "echo:Abnormal");
    assert!(pending.has_alert);
    assert!(pending.chunks[0].contains("❌ Echo｜异常"));
    let attempts = deliver(&config.push, &pending);
    assert_eq!(attempts.len(), 2);
    assert_eq!(attempts[0].status, SendEnqueueStatus::HostUnavailable);
    assert_eq!(attempts[1].status, SendEnqueueStatus::InvalidRequest);
    assert!(maybe_push(&config, &mut push, &snapshot(HealthStatus::Normal), &health, 6).is_none());
}

#[test]
fn heartbeat_of_the_chosen_account_pushes() {
    let config = config("anomaly");
    let health = fresh();
    let cache = reports(HealthStatus::Abnormal);
    let mut push = PushState::default();
    let event = "{\"self_id\": 12345}";
    assert!(handle_heartbeat(&config, "999", event, &mut push, &cache, &health, 7).is_none());
    assert_eq!(push.last_heartbeat_at, 0);
    let pending = handle_heartbeat(&config, "12345", event, &mut push, &cache, &health, 7)
        .expect("an alert is due");
    assert_eq!(push.last_heartbeat_at, 7);
    commit_heartbeat_push(&mut push, pending, 7);
    assert_eq!(push.last_push_at, 7);
    assert_eq!(push.last_sent_fingerprint, "echo:Abnormal");
    assert_eq!(push.candidate_count, 0);
    assert_eq!(push.candidate_fingerprint, "echo:Abnormal");
    let again = handle_heartbeat(&config, "", "not json", &mut push, &cache, &health, 8);
    assert!(again.is_none());
    assert_eq!(push.last_heartbeat_at, 8);
}

#[test]
fn heartbeat_without_snapshot_does_nothing() {
    let mut config = config("anomaly");
    let health = CollectorHealth::default();
    let mut push = PushState::default();
    let none = heartbeat_from(
        &config,
        "",
        "",
        &mut push,
        &ReportCache::default(),
        &health,
        7,
    );
    assert!(none.is_none());
    assert_eq!(push.last_heartbeat_at, 0);
    config.push.enabled = false;
    let cache = reports(HealthStatus::Abnormal);
    assert!(heartbeat_from(&config, "", "", &mut push, &cache, &health, 7).is_none());
    record_heartbeat(&mut push, 9);
    assert_eq!(push.last_heartbeat_at, 9);
}

#[test]
fn accounts_are_texts_or_integers() {
    assert_eq!(account(&Some(JsonLeaf::Text("bot".to_string()))), "bot");
    assert_eq!(account(&Some(JsonLeaf::Bool(true))), "");
    assert_eq!(account(&None), "");
    let mut push = PushState::default();
    let pending =
        PendingPush { fingerprint: "f".to_string(), has_alert: false, chunks: Vec::new() };
    commit_heartbeat_push(&mut push, pending, 3);
    assert_eq!(push.last_sent_fingerprint, "f");
}

#[test]
fn stale_data_is_an_alert_and_recovery_is_told() {
    let config = config("anomaly");
    let normal = snapshot(HealthStatus::Normal);
    let mut stale = fresh();
    stale.last_success_at -= 180;
    assert_eq!(health_signal(&config, &normal, &stale), ("echo:Normal".to_string(), false));
    stale.last_success_at -= 1;
    assert_eq!(health_signal(&config, &normal, &stale), ("echo:Stale".to_string(), true));
    let never = CollectorHealth::default();
    assert_eq!(health_signal(&config, &normal, &never), ("echo:Stale".to_string(), true));

    let mut push = PushState::default();
    let alert = maybe_push(&config, &mut push, &normal, &stale, 5).expect("stale data is due");
    assert_eq!((alert.fingerprint.as_str(), alert.has_alert), ("echo:Stale", true));
    assert!(alert.chunks[0].contains("采集 ⏳数据过期"));
    commit_heartbeat_push(&mut push, alert, 5);
    assert!(maybe_push(&config, &mut push, &normal, &stale, 6).is_none());
    let recovery = maybe_push(&config, &mut push, &normal, &fresh(), 7).expect("recovery is due");
    assert_eq!((recovery.fingerprint.as_str(), recovery.has_alert), ("echo:Normal", false));
}
