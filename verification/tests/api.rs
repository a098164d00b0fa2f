use newapi_status_bot::api::{
    classify_http, classify_transport, perf_metrics_request, receive, unpack, ApiEnvelope,
    ApiError, HttpStatus, NewApiClient, PageData, RemoteLog, Reply, TransportFailure,
};
use newapi_status_bot::config::{ApiConfig, PerfMetricsConfig};
use serde_json::Value;

fn integer(value: &Value, key: &str) -> i64 {
    value.get(key).and_then(Value::as_i64).unwrap_or(0)
}

fn string(value: &Value, key: &str) -> String {
    value.get(key).and_then(Value::as_str).unwrap_or("").to_string()
}

fn remote(value: &Value) -> RemoteLog {
    RemoteLog {
        id: integer(value, "id"),
        created_at: integer(value, "created_at"),
        log_type: integer(value, "type"),
        content: string(value, "content"),
        model_name: string(value, "model_name"),
        prompt_tokens: integer(value, "prompt_tokens"),
        completion_tokens: integer(value, "completion_tokens"),
        use_time: integer(value, "use_time"),
        is_stream: value.get("is_stream").and_then(Value::as_bool).unwrap_or(false),
        channel_id: integer(value, "channel"),
        channel_name: string(value, "channel_name"),
        group: string(value, "group"),
        request_id: string(value, "request_id"),
        upstream_request_id: string(value, "upstream_request_id"),
        other: value.get("other").unwrap_or(&Value::Null).to_string(),
    }
}

fn envelope(json: &str) -> ApiEnvelope<PageData<RemoteLog>> {
    let value: Value = serde_json::from_str(json).unwrap();
    ApiEnvelope {
        success: value.get("success").and_then(Value::as_bool).unwrap(),
        message: value.get("message").and_then(Value::as_str).map(str::to_string),
        data: value.get("data").map(|data| PageData {
            total: integer(data, "total"),
            items: match data.get("items").and_then(Value::as_array) {
                Some(items) => items.iter().map(remote).collect(),
                None => Vec::new(),
            },
        }),
    }
}

fn status(code: u16, text: &str) -> HttpStatus {
    HttpStatus { code, text: text.to_string() }
}

fn fetch_error_response(code: u16, text: &str, retry_after: Option<&str>) -> ApiError {
    let reply: Reply<PageData<RemoteLog>> = Reply::Arrived {
        status: status(code, text),
        retry_after: retry_after.map(str::to_string),
        body: Ok(ApiEnvelope { success: true, message: None, data: None }),
    };
    receive(reply).err().expect("response should fail")
}

#[test]
fn deserializes_log_page() {
    let json = r#"{
            "success": true,
            "data": {"page":1,"page_size":100,"total":1,"items":[{
                "id":7,"created_at":100,"type":2,"model_name":"echo",
                "channel":3,"group":"default","request_id":"req-1",
                "other":"{\"frt\":123}"
            }]}
        }"#;
    let page = unpack(envelope(json)).unwrap();
    assert_eq!(page.items[0].model_name, "echo");
    assert_eq!(page.items[0].log_type, 2);
}

#[test]
fn classifies_business_authentication_failure() {
    let envelope = envelope(r#"{"success":false,"message":"Unauthorized, invalid access token"}"#);
    assert!(matches!(unpack(envelope), Err(ApiError::Authentication)));
}

#[test]
fn classifies_http_auth_rate_limit_and_server_errors() {
    assert!(matches!(
        fetch_error_response(401, "401 Unauthorized", None),
        ApiError::Authentication
    ));
    assert!(matches!(
        fetch_error_response(429, "429 Too Many Requests", Some("7")),
        ApiError::RateLimited(Some(7))
    ));
    match fetch_error_response(503, "503 Service Unavailable", None) {
        ApiError::Server(status) => assert_eq!(status.code, 503),
        other => panic!("unexpected error: {other:?}"),
    }
}

#[test]
fn classifies_the_other_statuses() {
    assert!(matches!(classify_http(status(403, "403 Forbidden"), None), ApiError::Authentication));
    assert!(matches!(
        classify_http(status(429, "429 Too Many Requests"), Some("soon".to_string())),
        ApiError::RateLimited(None)
    ));
    assert!(matches!(classify_http(status(404, "404 Not Found"), None), ApiError::Http(_)));
    assert!(matches!(classify_http(status(600, "600"), None), ApiError::Http(_)));
}

#[test]
fn lost_replies_are_timeouts_or_transport_failures() {
    let slow = TransportFailure { timed_out: true, message: "slow".to_string() };
    assert!(matches!(classify_transport(slow), ApiError::Timeout));
    let reply: Reply<i64> =
        Reply::Lost(TransportFailure { timed_out: false, message: "refused".to_string() });
    match receive(reply) {
        Err(ApiError::Transport(message)) => assert_eq!(message, "refused"),
        other => panic!("unexpected result: {other:?}"),
    }
}

#[test]
fn business_messages_tell_rights_from_other_failures() {
    let failed = |message: Option<&str>| ApiEnvelope::<i64> {
        success: false,
        message: message.map(str::to_string),
        data: Some(1),
    };
    assert!(matches!(unpack(failed(Some("未登录"))), Err(ApiError::Authentication)));
    assert!(matches!(unpack(failed(Some("无权限"))), Err(ApiError::Authentication)));
    assert!(matches!(unpack(failed(Some("Bad ACCESS TOKEN"))), Err(ApiError::Authentication)));
    match unpack(failed(None)) {
        Err(ApiError::Business(message)) => assert_eq!(message, "未知错误"),
        other => panic!("unexpected result: {other:?}"),
    }
    let empty = ApiEnvelope::<i64> { success: true, message: None, data: None };
    assert!(matches!(unpack(empty), Err(ApiError::MissingData)));
}

#[test]
fn failures_are_told_in_words() {
    assert_eq!(ApiError::MissingToken("X".to_string()).to_text(), "[configuration] 缺少环境变量 X");
    assert_eq!(ApiError::Timeout.to_text(), "[timeout] HTTP 请求超时");
    assert_eq!(ApiError::Transport("t".to_string()).to_text(), "[transport] HTTP 请求失败: t");
    assert_eq!(ApiError::Authentication.to_text(), "[authentication] New API 管理鉴权失败");
    assert_eq!(ApiError::RateLimited(Some(7)).to_text(), "[rate_limit] New API 触发限流");
    assert_eq!(
        ApiError::Server(status(503, "503 Service Unavailable")).to_text(),
        "[server] New API 返回 HTTP 503 Service Unavailable"
    );
    assert_eq!(
        ApiError::Http(status(404, "404 Not Found")).to_text(),
        "[http] New API 返回 HTTP 404 Not Found"
    );
    assert_eq!(ApiError::Business("b".to_string()).to_text(), "[business] New API 业务错误: b");
    assert_eq!(ApiError::MissingData.to_text(), "[protocol] New API 响应缺少 data");
}

#[test]
fn log_request_carries_headers_and_pagination() {
    let config = ApiConfig {
        base_url: "http://127.0.0.1:1//".to_string(),
        admin_user_id: 3,
        request_timeout_secs: 5,
        ..ApiConfig::default()
    };
    let client = NewApiClient::with_access_token(&config, "test-access-token".to_string());
    let request = client.logs_request("echo", 10, 20, 2, 100);
    assert_eq!(request.url, "http://127.0.0.1:1/api/log/");
    let pair = |a: &str, b: &str| (a.to_string(), b.to_string());
    assert_eq!(
        request.headers,
        vec![pair("Authorization", "test-access-token"), pair("New-Api-User", "3")]
    );
    assert_eq!(
        request.query,
        vec![
            pair("p", "2"),
            pair("page_size", "100"),
            pair("start_timestamp", "10"),
            pair("end_timestamp", "20"),
            pair("model_name", "echo"),
        ]
    );
    assert_eq!((request.connect_timeout_secs, request.timeout_secs), (5, 5));
}

#[test]
fn client_needs_a_token() {
    let config = ApiConfig::default();
    assert!(NewApiClient::new(&config, Some("token".to_string())).is_ok());
    for variable in [None, Some("  ".to_string())] {
        match NewApiClient::new(&config, variable) {
            Err(ApiError::MissingToken(name)) => assert_eq!(name, "NEWAPI_STATUS_ACCESS_TOKEN"),
            other => panic!("unexpected result: {other:?}"),
        }
    }
}

#[test]
fn perf_request_is_quick_and_anonymous() {
    let request = perf_metrics_request("https://x/", &PerfMetricsConfig::default(), "echo", 24);
    assert_eq!(request.url, "https://x/api/perf-metrics");
    assert!(request.headers.is_empty());
    assert_eq!(
        request.query,
        vec![
            ("model".to_string(), "echo".to_string()),
            ("hours".to_string(), "24".to_string()),
        ]
    );
    assert_eq!((request.connect_timeout_secs, request.timeout_secs), (2, 3));
}
