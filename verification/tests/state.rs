use newapi_status_bot::api::PerfMetricData;
use newapi_status_bot::state::{
    unix_now, unix_seconds, CollectorHealth, PerfCache, ReportCache, Slot, WorkerControl,
};

fn metrics(name: &str) -> PerfMetricData {
    PerfMetricData { model_name: name.to_string(), groups: Vec::new() }
}

#[test]
fn refresh_interrupts_wait_without_stopping() {
    let mut control = WorkerControl::default();
    control.request_refresh();
    assert!(!control.wait());
}

#[test]
fn stop_interrupts_wait() {
    let mut control = WorkerControl::default();
    control.request_stop();
    assert!(control.wait());
}

#[test]
fn nothing_asked_means_waiting() {
    let mut control = WorkerControl::default();
    assert!(control.must_wait());
    control.request_refresh();
    assert!(!control.must_wait());
    assert!(!control.wait());
    assert!(control.must_wait());
    control.request_refresh();
    control.request_stop();
    assert!(!control.must_wait());
    assert!(control.wait());
    assert!(control.wait());
}

#[test]
fn metrics_are_fresh_for_a_while() {
    let mut cache = PerfCache::new();
    assert!(cache.fresh("echo", 24, 0, 300).is_none());
    cache.store("echo", 24, 100, metrics("first"));
    cache.store("echo", 1, 100, metrics("other"));
    assert_eq!(cache.fresh("echo", 24, 400, 300).unwrap().model_name, "first");
    assert!(cache.fresh("echo", 24, 401, 300).is_none());
    cache.store("echo", 24, 500, metrics("second"));
    assert_eq!(cache.fresh("echo", 24, 600, 300).unwrap().model_name, "second");
    assert_eq!(cache.fresh("echo", 1, 200, 300).unwrap().model_name, "other");
    assert_eq!(cache.entries.len(), 2);
}

#[test]
fn one_plugin_at_a_time() {
    let mut slot = Slot::empty();
    assert!(slot.current().is_none());
    assert!(slot.install(1).is_ok());
    assert_eq!(slot.install(2).unwrap_err(), "插件已经初始化");
    assert_eq!(slot.current(), Some(&1));
    assert_eq!(slot.take(), Some(1));
    assert_eq!(slot.take(), None);
    assert!(slot.install(3).is_ok());
}

#[test]
fn clock_is_read_in_seconds() {
    assert_eq!(unix_seconds(None), 0);
    assert_eq!(unix_seconds(Some(1_700_000_000)), 1_700_000_000);
    assert_eq!(unix_seconds(Some(u64::MAX)), -1);
    assert!(unix_now() > 1_600_000_000);
}

#[test]
fn everything_starts_empty() {
    let cache = ReportCache::default();
    assert!(cache.windows.is_empty());
    assert_eq!(cache.generated_at, 0);
    let mut health = CollectorHealth::default();
    health.update_failure("down".to_string());
    health.consecutive_failures = u32::MAX;
    health.update_failure("down".to_string());
    assert_eq!(health.consecutive_failures, u32::MAX);
    health.update_success(5);
    assert_eq!((health.last_success_at, health.consecutive_failures), (5, 0));
}
