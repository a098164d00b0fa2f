use newapi_status_bot::smoke::{
    are_status_reports, describe_config, escape_workflow_command, is_log_request, mock_log_page,
    mock_response, read_more, smoke_config, Record, RequestStep,
};
use serde_json::Value;

#[test]
fn configuration_is_json_with_the_address() {
    let config: Value = serde_json::from_str(&smoke_config("http://127.0.0.1:80/\"x\"")).unwrap();
    assert_eq!(config["api"]["base_url"], "http://127.0.0.1:80/\"x\"");
    assert_eq!(config["api"]["admin_user_id"], 3);
    assert_eq!(config["api"]["max_pages_per_model"], 1);
    assert_eq!(config["push"]["mode"], "periodic");
    assert_eq!(config["push"]["targets"][0]["target_id"], "10001");
    assert_eq!(config["models"][0]["groups"][0], "default");
    assert_eq!(config["status"]["default_window"], "1m");
    assert_eq!(config["storage"]["retention_days"], 1);
    assert_eq!(config["perf_metrics"]["enabled"], false);
    assert_eq!(config["bot"]["max_message_chars"], 4000);
    assert_eq!(smoke_config("http://x"), describe_config("\"http://x\""));
    assert_eq!(config.as_object().unwrap().len(), 7);
    assert_eq!(config["api"].as_object().unwrap().len(), 10);
    assert_eq!(smoke_config("http://x"), {
        let value: Value = serde_json::from_str(&smoke_config("http://x")).unwrap();
        value.to_string()
    });
}

#[test]
fn stand_in_answers_with_one_line() {
    let body = mock_log_page(1_700_000_000);
    let value: Value = serde_json::from_str(&body).unwrap();
    assert_eq!(value["success"], true);
    assert_eq!(value["data"]["total"], 1);
    assert_eq!(value["data"]["items"][0]["created_at"], 1_700_000_000);
    assert_eq!(value["data"]["items"][0]["other"]["frt"], 100);
    assert_eq!(value["data"]["items"][0].as_object().unwrap().len(), 9);
    assert_eq!(value.to_string(), body);
    assert_eq!(
        mock_response("{}", 2),
        "HTTP/1.1 200 OK\r\nContent-Type: application/json\r\nContent-Length: 2\r\nConnection: close\r\n\r\n{}"
    );
    assert!(is_log_request("GET /api/log/?p=1&Model_Name=echo HTTP/1.1"));
    assert!(!is_log_request("GET /api/log/?p=1 HTTP/1.1"));
}

#[test]
fn request_is_read_up_to_the_empty_line() {
    let mut request = Vec::new();
    assert_eq!(read_more(&mut request, b"GET / HTTP/1.1\r\n\r"), RequestStep::More);
    assert_eq!(read_more(&mut request, b"\nrest"), RequestStep::Complete);
    assert_eq!(request, b"GET / HTTP/1.1\r\n\r\nrest".to_vec());
    let mut empty = Vec::new();
    assert_eq!(read_more(&mut empty, b""), RequestStep::More);
    let mut large = Vec::new();
    assert_eq!(read_more(&mut large, &vec![b'x'; 65_536]), RequestStep::More);
    assert_eq!(read_more(&mut large, b"x"), RequestStep::TooLarge);
}

#[test]
fn reports_go_to_the_configured_target() {
    let record = |bot: &str, message: &str| Record {
        bot_id: bot.to_string(),
        target_kind: "group".to_string(),
        target_id: "10001".to_string(),
        message: message.to_string(),
    };
    assert!(are_status_reports(&vec![record("bot-a", "📊 模型状态｜近1分钟")]));
    assert!(!are_status_reports(&vec![record("bot-b", "📊 模型状态｜近1分钟")]));
    assert!(!are_status_reports(&vec![record("bot-a", "hello")]));
    assert!(!are_status_reports(&Vec::new()));
}

#[test]
fn workflow_messages_stand_on_one_line() {
    assert_eq!(escape_workflow_command("50%\r\nok"), "50%25%0D%0Aok");
    assert_eq!(escape_workflow_command(""), "");
}

#[test]
fn address_is_quoted_as_json() {
    let control = (0u8..32).map(char::from).collect::<String>();
    let address = format!("http://\"x\\{control}\u{7f}/模型");
    let config = smoke_config(&address);
    let expected = concat(&[
        "\"base_url\":\"http://\\\"x\\\\",
        "\\u0000\\u0001\\u0002\\u0003\\u0004\\u0005\\u0006\\u0007\\b\\t\\n\\u000b\\f\\r\\u000e\\u000f",
        "\\u0010\\u0011\\u0012\\u0013\\u0014\\u0015\\u0016\\u0017\\u0018\\u0019\\u001a\\u001b",
        "\\u001c\\u001d\\u001e\\u001f\u{7f}/模型\"",
    ]);
    assert!(config.contains(&expected), "{config}");
}

fn concat(parts: &[&str]) -> String {
    parts.join("")
}
