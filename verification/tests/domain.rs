use newapi_status_bot::api::RemoteLog;
use newapi_status_bot::domain::{
    redact_error, retry_chain, sample_key, LogSample, OtherFields, SampleKind, LOG_TYPE_CONSUME,
    LOG_TYPE_ERROR, UNKNOWN_GROUP,
};
use newapi_status_bot::double::Double;
use newapi_status_bot::json::JsonLeaf;
use sha2::Digest;

fn remote(log_type: i64, other: &str) -> RemoteLog {
    RemoteLog {
        id: 1,
        created_at: 100,
        log_type,
        content: "upstream failed with sk-secretvalue123".to_string(),
        model_name: "echo".to_string(),
        prompt_tokens: 1,
        completion_tokens: 2,
        use_time: 3,
        is_stream: true,
        channel_id: 7,
        channel_name: "primary".to_string(),
        group: "default".to_string(),
        request_id: "req-1".to_string(),
        upstream_request_id: String::new(),
        other: other.to_string(),
    }
}

fn sample(log_type: i64, other: &str) -> LogSample {
    LogSample::from_remote(remote(log_type, other)).unwrap()
}

#[test]
fn parses_ttft_and_partial_stream() {
    let other = serde_json::Value::String(
        "{\"frt\":1200,\"stream_status\":{\"status\":\"error\"}}".to_string(),
    );
    let sample = sample(LOG_TYPE_CONSUME, &other.to_string());
    assert_eq!(sample.ttft_ms, Some(1200));
    assert!(sample.partial_failure);
}

#[test]
fn rejects_impossible_ttft() {
    let sample = sample(LOG_TYPE_CONSUME, "{\"frt\": 9000}");
    assert_eq!(sample.ttft_ms, None);
}

#[test]
fn redacts_tokens() {
    let result = redact_error("Bearer abcdefghijkl and sk-abcdefghijk");
    assert!(!result.contains("abcdefghijkl"));
    assert!(!result.contains("abcdefghijk"));
}

#[test]
fn redaction_keeps_the_rest_and_cuts_it() {
    assert_eq!(
        redact_error("Bearer abcdefghijkl and sk-abcdefghijk"),
        "Bearer [REDACTED] and sk-[REDACTED]"
    );
    assert_eq!(redact_error("GET /x?token=abc&b=1 failed"), "GET /x?token=[REDACTED]&b=1 failed");
    assert_eq!(redact_error("sk-short"), "sk-short");
    assert_eq!(redact_error(&"错".repeat(300)), "错".repeat(256));
}

#[test]
fn keeps_only_known_kinds_with_a_model() {
    assert!(LogSample::from_remote(remote(1, "null")).is_none());
    let mut nameless = remote(LOG_TYPE_ERROR, "null");
    nameless.model_name = " ".to_string();
    assert!(LogSample::from_remote(nameless).is_none());
    assert_eq!(SampleKind::Consume.as_i64(), 2);
    assert_eq!(SampleKind::Error.as_i64(), 5);
}

#[test]
fn error_sample_is_redacted_and_coded() {
    let other = "{\"error_code\":429,\"status_code\":503,\"frt\":1.5}";
    let sample = sample(LOG_TYPE_ERROR, other);
    assert_eq!(sample.kind, SampleKind::Error);
    assert_eq!(sample.error_code, "429");
    assert_eq!(sample.status_code, Some(503));
    assert_eq!(sample.error_message, "upstream failed with sk-[REDACTED]");
    assert_eq!(sample.ttft_ms, Some(2));
    assert_eq!(sample.total_ms, Some(3000));
    assert!(!sample.partial_failure);
}

#[test]
fn counted_stream_errors_are_partial_failures_of_paid_requests_only() {
    let other = "{\"stream_status\":{\"status\":\"ok\",\"error_count\":1}}";
    assert!(sample(LOG_TYPE_CONSUME, other).partial_failure);
    assert!(!sample(LOG_TYPE_ERROR, other).partial_failure);
    let clean = "{\"stream_status\":{\"status\":\"ok\",\"error_count\":0}}";
    assert!(!sample(LOG_TYPE_CONSUME, clean).partial_failure);
}

#[test]
fn ttft_may_exceed_the_total_by_two_seconds() {
    assert_eq!(sample(LOG_TYPE_CONSUME, "{\"frt\": 5000}").ttft_ms, Some(5000));
    assert_eq!(sample(LOG_TYPE_CONSUME, "{\"frt\": 5001}").ttft_ms, None);
    assert_eq!(sample(LOG_TYPE_CONSUME, "{\"frt\": -1}").ttft_ms, None);
    let mut endless = remote(LOG_TYPE_CONSUME, "{\"frt\": 9000}");
    endless.use_time = -1;
    let sample = LogSample::from_remote(endless).unwrap();
    assert_eq!((sample.total_ms, sample.ttft_ms), (None, Some(9000)));
}

#[test]
fn unconfirmed_group_and_request_get_names() {
    let mut line = remote(LOG_TYPE_CONSUME, "null");
    line.group = " ".to_string();
    line.request_id = String::new();
    let sample = LogSample::from_remote(line).unwrap();
    assert_eq!(sample.group_name, UNKNOWN_GROUP);
    assert_eq!(sample.request_id, "legacy:100:echo:7:1");
}

#[test]
fn retry_chain_holds_positive_channels_only() {
    let other = "{\"admin_info\":{\"use_channel\":[\"12\", 34, 0, -5, \"x\", null, 7.5]}}";
    let sample = sample(LOG_TYPE_ERROR, other);
    assert_eq!(sample.retry_channel_chain, "12->34");
    assert_eq!(sample.attempt_index, 7);
}

#[test]
fn retry_chain_has_sixteen_hops_at_most() {
    let leaves = (1..=20)
        .map(|n| {
            Some(JsonLeaf::Number {
                integer: Some(n),
                double: Double { bits: (n as f64).to_bits() },
                text: n.to_string(),
            })
        })
        .collect::<Vec<_>>();
    let chain = retry_chain(&leaves);
    assert_eq!(chain.split("->").count(), 16);
    assert!(chain.starts_with("1->2->3->"));
    assert!(chain.ends_with("->15->16"));
    assert_eq!(retry_chain(&Vec::new()), "");
}

#[test]
fn paid_key_depends_on_the_request_alone() {
    let a = sample_key("req-1", SampleKind::Consume, 7, 1, 100, "", "a");
    let b = sample_key("req-1", SampleKind::Consume, 8, 2, 200, "up", "b");
    assert_eq!(a, b);
    let c = sample_key("req-1", SampleKind::Error, 7, 1, 100, "", "a");
    let d = sample_key("req-1", SampleKind::Error, 7, 2, 100, "", "a");
    assert_ne!(a, c);
    assert_ne!(c, d);
}

#[test]
fn key_is_the_digest_of_the_identity() {
    let expected = format!("{:x}", sha2::Sha256::digest(b"req-1|5|7|2|100|up|failed"));
    assert_eq!(sample_key("req-1", SampleKind::Error, 7, 2, 100, "up", "failed"), expected);
    assert_eq!(expected.len(), 64);
}

#[test]
fn sample_follows_the_fields_it_is_given() {
    let fields = OtherFields {
        first_response: None,
        stream_status: Some(JsonLeaf::Text("ERROR".to_string())),
        stream_errors: None,
        channels: Some(JsonLeaf::Array(0)),
        channel_ids: Vec::new(),
        error_code: Some(JsonLeaf::Bool(true)),
        status_code: Some(JsonLeaf::Null),
    };
    let sample = LogSample::assemble(remote(LOG_TYPE_CONSUME, "null"), &fields).unwrap();
    assert!(sample.partial_failure);
    assert_eq!(sample.attempt_index, 1);
    assert_eq!(sample.error_code, "");
    assert_eq!(sample.status_code, None);
    assert_eq!(sample.error_message, "");
}

#[test]
fn broken_other_says_nothing() {
    for other in ["not json", "\"  \"", "\"not json\"", "[1]", "5"] {
        let sample = sample(LOG_TYPE_CONSUME, other);
        assert_eq!(sample.ttft_ms, None);
        assert_eq!(sample.attempt_index, 1);
        assert!(!sample.partial_failure);
    }
}

#[test]
fn redaction_follows_its_two_patterns() {
    let cases = [
        ("BEARER \u{3000}abcdefgh!", "BEARER \u{3000}[REDACTED]!"),
        ("\u{17f}\u{212a}-12345678", "\u{17f}\u{212a}-[REDACTED]"),
        ("sk-sk-abcdefgh", "sk-[REDACTED]"),
        ("sk-bearer abcdefgh", "sk-bearer [REDACTED]"),
        ("bearer bearer abcdefgh", "bearer bearer [REDACTED]"),
        ("sk-abc12_-\u{212a} sk-abc12_-", "sk-[REDACTED] sk-abc12_-"),
        ("bearerabcdefgh", "bearerabcdefgh"),
        ("Key=a=b&secret= x&AUTHORIZATION==", "Key=[REDACTED]&secret= x&AUTHORIZATION=[REDACTED]"),
        ("mytoken=\u{a0}token=k\u{a0}key=", "mytoken=\u{a0}token=[REDACTED]\u{a0}key="),
        ("token=sk-abcdefgh rest", "token=[REDACTED] rest"),
    ];
    for (text, expected) in cases {
        assert_eq!(redact_error(text), expected, "{text}");
        assert_eq!(redact_error(expected), expected);
    }
}

#[test]
fn redacting_again_changes_nothing_also_where_it_was_cut() {
    for n in 230..=256 {
        let text = format!("{}key=abcdefghijklmnopq sk-abcdefghijkl", "x".repeat(n));
        let once = redact_error(&text);
        assert!(once.chars().count() <= 256);
        assert!(!once.contains("abcdefgh"));
        assert_eq!(redact_error(&once), once);
    }
}

#[test]
fn failed_attempts_differ_in_their_details() {
    let key = |channel: i64, attempt: i64, at: i64, upstream: &str, content: &str| {
        sample_key("req", SampleKind::Error, channel, attempt, at, upstream, content)
    };
    let base = key(1, 1, 100, "up", "a|b");
    assert_eq!(base, key(1, 1, 100, "up", "a|b"));
    for other in [
        key(11, 1, 100, "up", "a|b"),
        key(1, 11, 100, "up", "a|b"),
        key(1, 1, -100, "up", "a|b"),
        key(1, 1, 100, "upa", "a|b"),
        key(1, 1, 100, "up", "a"),
    ] {
        assert_ne!(base, other);
    }
    let paid = sample_key("req", SampleKind::Consume, 1, 1, 100, "up", "a|b");
    assert_eq!(paid, sample_key("req", SampleKind::Consume, 2, 3, 4, "", ""));
    assert_ne!(base, paid);
}
