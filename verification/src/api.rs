//! The management interface of New API: requests, replies and failures.
//!
//! Sending a request and decoding a reply happen elsewhere; here it is decided
//! what is asked and what a reply means.
use vstd::prelude::*;
use vstd::string::*;

use crate::config::{ApiConfig, PerfMetricsConfig};
use crate::decimal;
use crate::double::Double;
use crate::text;

verus! {

/// An HTTP status: its code, and the code with its name as text.
#[derive(Clone, Debug)]
pub struct HttpStatus {
    pub code: u16,
    pub text: String,
}

/// Why a request brought nothing.
#[derive(Clone, Debug)]
pub enum ApiError {
    MissingToken(String),
    Timeout,
    Transport(String),
    Authentication,
    RateLimited(Option<u64>),
    Server(HttpStatus),
    Http(HttpStatus),
    Business(String),
    MissingData,
}

/// What an `ApiError` says.
pub enum Failure {
    MissingToken(Seq<char>),
    Timeout,
    Transport(Seq<char>),
    Authentication,
    RateLimited(Option<u64>),
    Server(u16, Seq<char>),
    Http(u16, Seq<char>),
    Business(Seq<char>),
    MissingData,
}

impl ApiError {
    pub open spec fn view(&self) -> Failure {
        match *self {
            ApiError::MissingToken(name) => Failure::MissingToken(name@),
            ApiError::Timeout => Failure::Timeout,
            ApiError::Transport(message) => Failure::Transport(message@),
            ApiError::Authentication => Failure::Authentication,
            ApiError::RateLimited(after) => Failure::RateLimited(after),
            ApiError::Server(status) => Failure::Server(status.code, status.text@),
            ApiError::Http(status) => Failure::Http(status.code, status.text@),
            ApiError::Business(message) => Failure::Business(message@),
            ApiError::MissingData => Failure::MissingData,
        }
    }

    /// The failure in words.
    pub open spec fn words(self) -> Seq<char> {
        match self {
            ApiError::MissingToken(name) => "[configuration] 缺少环境变量 "@ + name@,
            ApiError::Timeout => "[timeout] HTTP 请求超时"@,
            ApiError::Transport(message) => "[transport] HTTP 请求失败: "@ + message@,
            ApiError::Authentication => "[authentication] New API 管理鉴权失败"@,
            ApiError::RateLimited(_) => "[rate_limit] New API 触发限流"@,
            ApiError::Server(status) => "[server] New API 返回 HTTP "@ + status.text@,
            ApiError::Http(status) => "[http] New API 返回 HTTP "@ + status.text@,
            ApiError::Business(message) => "[business] New API 业务错误: "@ + message@,
            ApiError::MissingData => "[protocol] New API 响应缺少 data"@,
        }
    }

    /// The failure in words.
    pub fn to_text(&self) -> (r: String)
        ensures
            r@ == self.words(),
    {
        let mut r: String;
        match self {
            ApiError::MissingToken(name) => {
                r = "[configuration] 缺少环境变量 ".to_string();
                r.append(name.as_str());
            },
            ApiError::Timeout => {
                r = "[timeout] HTTP 请求超时".to_string();
            },
            ApiError::Transport(message) => {
                r = "[transport] HTTP 请求失败: ".to_string();
                r.append(message.as_str());
            },
            ApiError::Authentication => {
                r = "[authentication] New API 管理鉴权失败".to_string();
            },
            ApiError::RateLimited(_) => {
                r = "[rate_limit] New API 触发限流".to_string();
            },
            ApiError::Server(status) => {
                r = "[server] New API 返回 HTTP ".to_string();
                r.append(status.text.as_str());
            },
            ApiError::Http(status) => {
                r = "[http] New API 返回 HTTP ".to_string();
                r.append(status.text.as_str());
            },
            ApiError::Business(message) => {
                r = "[business] New API 业务错误: ".to_string();
                r.append(message.as_str());
            },
            ApiError::MissingData => {
                r = "[protocol] New API 响应缺少 data".to_string();
            },
        }
        r
    }
}

// ---------------------------------------------------------------------------
// Replies
// ---------------------------------------------------------------------------
/// The frame of every reply.
#[derive(Debug)]
pub struct ApiEnvelope<T> {
    pub success: bool,
    pub message: Option<String>,
    pub data: Option<T>,
}

/// One page of a list, with the length of the whole list.
#[derive(Debug)]
pub struct PageData<T> {
    pub total: i64,
    pub items: Vec<T>,
}

/// One line of the management log, with the fields that matter here. `other` is
/// the JSON text of the field of that name.
#[derive(Debug)]
pub struct RemoteLog {
    pub id: i64,
    pub created_at: i64,
    pub log_type: i64,
    pub content: String,
    pub model_name: String,
    pub prompt_tokens: i64,
    pub completion_tokens: i64,
    pub use_time: i64,
    pub is_stream: bool,
    pub channel_id: i64,
    pub channel_name: String,
    pub group: String,
    pub request_id: String,
    pub upstream_request_id: String,
    pub other: String,
}

impl Clone for RemoteLog {
    fn clone(&self) -> (r: Self)
        ensures
            r == *self,
    {
        RemoteLog {
            id: self.id,
            created_at: self.created_at,
            log_type: self.log_type,
            content: self.content.clone(),
            model_name: self.model_name.clone(),
            prompt_tokens: self.prompt_tokens,
            completion_tokens: self.completion_tokens,
            use_time: self.use_time,
            is_stream: self.is_stream,
            channel_id: self.channel_id,
            channel_name: self.channel_name.clone(),
            group: self.group.clone(),
            request_id: self.request_id.clone(),
            upstream_request_id: self.upstream_request_id.clone(),
            other: self.other.clone(),
        }
    }
}

/// The public metrics of one group.
#[derive(Clone, Debug)]
pub struct PerfMetricGroup {
    pub group: String,
    pub avg_ttft_ms: i64,
    pub avg_latency_ms: i64,
    pub success_rate: Double,
    pub avg_tps: Double,
}

/// The public metrics of one model.
#[derive(Clone, Debug)]
pub struct PerfMetricData {
    pub model_name: String,
    pub groups: Vec<PerfMetricGroup>,
}

/// Whether a business message speaks of missing rights.
pub open spec fn speaks_of_rights(message: Seq<char>) -> bool {
    text::has_part(text::lowered(message), "unauthorized"@) || text::has_part(
        text::lowered(message),
        "access token"@,
    ) || text::has_part(message, "未登录"@) || text::has_part(message, "无权限"@)
}

/// The message of an unsuccessful reply.
pub open spec fn message_of(message: Option<String>) -> Seq<char> {
    match message {
        Some(m) => m@,
        None => "未知错误"@,
    }
}

/// The failure that a reply in this frame is, where it is one.
pub open spec fn envelope_failure<T>(envelope: ApiEnvelope<T>) -> Option<Failure> {
    if !envelope.success {
        if speaks_of_rights(message_of(envelope.message)) {
            Some(Failure::Authentication)
        } else {
            Some(Failure::Business(message_of(envelope.message)))
        }
    } else if envelope.data is None {
        Some(Failure::MissingData)
    } else {
        None
    }
}

/// Takes the data out of its frame.
pub fn unpack<T>(envelope: ApiEnvelope<T>) -> (r: Result<T, ApiError>)
    ensures
        match r {
            Ok(data) => envelope_failure(envelope) is None && envelope.data == Some(data),
            Err(error) => envelope_failure(envelope) == Some(error.view()),
        },
{
    if !envelope.success {
        let message = match envelope.message {
            Some(message) => message,
            None => "未知错误".to_string(),
        };
        let normalized = text::to_lower(message.as_str());
        if text::contains_text(normalized.as_str(), "unauthorized") || text::contains_text(
            normalized.as_str(),
            "access token",
        ) || text::contains_text(message.as_str(), "未登录") || text::contains_text(
            message.as_str(),
            "无权限",
        ) {
            return Err(ApiError::Authentication);
        }
        return Err(ApiError::Business(message));
    }
    match envelope.data {
        Some(data) => Ok(data),
        None => Err(ApiError::MissingData),
    }
}

/// The seconds that a Retry-After header asks to wait.
pub open spec fn seconds_to_wait(header: Option<String>) -> Option<u64> {
    match header {
        Some(value) => match decimal::written_number(value@, u64::MAX as int) {
            Some(n) => Some(n as u64),
            None => None,
        },
        None => None,
    }
}

/// The failure that an HTTP status without success is.
pub open spec fn status_failure(status: HttpStatus, retry_after: Option<String>) -> Failure {
    if status.code == 401 || status.code == 403 {
        Failure::Authentication
    } else if status.code == 429 {
        Failure::RateLimited(seconds_to_wait(retry_after))
    } else if 500 <= status.code < 600 {
        Failure::Server(status.code, status.text@)
    } else {
        Failure::Http(status.code, status.text@)
    }
}

/// Classifies an HTTP status without success.
pub fn classify_http(status: HttpStatus, retry_after: Option<String>) -> (r: ApiError)
    ensures
        r.view() == status_failure(status, retry_after),
{
    if status.code == 401 || status.code == 403 {
        ApiError::Authentication
    } else if status.code == 429 {
        match retry_after {
            Some(value) => ApiError::RateLimited(decimal::parse_number(value.as_str(), u64::MAX)),
            None => ApiError::RateLimited(None),
        }
    } else if 500 <= status.code && status.code < 600 {
        ApiError::Server(status)
    } else {
        ApiError::Http(status)
    }
}

/// A failure below HTTP: whether time ran out, and what is said of it.
#[derive(Clone, Debug)]
pub struct TransportFailure {
    pub timed_out: bool,
    pub message: String,
}

/// What a failure below HTTP is called.
pub open spec fn transport_failure(failure: TransportFailure) -> Failure {
    if failure.timed_out {
        Failure::Timeout
    } else {
        Failure::Transport(failure.message@)
    }
}

/// Classifies a failure below HTTP.
pub fn classify_transport(failure: TransportFailure) -> (r: ApiError)
    ensures
        r.view() == transport_failure(failure),
{
    if failure.timed_out {
        ApiError::Timeout
    } else {
        ApiError::Transport(failure.message)
    }
}

/// What came back for a request: nothing, or a status with its Retry-After header
/// and the decoded body.
#[derive(Debug)]
pub enum Reply<T> {
    Lost(TransportFailure),
    Arrived {
        status: HttpStatus,
        retry_after: Option<String>,
        body: Result<ApiEnvelope<T>, TransportFailure>,
    },
}

/// The failure that a reply is, where it is one.
pub open spec fn reply_failure<T>(reply: Reply<T>) -> Option<Failure> {
    match reply {
        Reply::Lost(failure) => Some(transport_failure(failure)),
        Reply::Arrived { status, retry_after, body } => if !(200 <= status.code < 300) {
            Some(status_failure(status, retry_after))
        } else {
            match body {
                Err(failure) => Some(transport_failure(failure)),
                Ok(envelope) => envelope_failure(envelope),
            }
        },
    }
}

/// The data that a reply brings.
pub open spec fn reply_data<T>(reply: Reply<T>) -> Option<T> {
    match reply {
        Reply::Arrived { body: Ok(envelope), .. } => envelope.data,
        _ => None,
    }
}

/// Takes the data out of a reply.
pub fn receive<T>(reply: Reply<T>) -> (r: Result<T, ApiError>)
    ensures
        match r {
            Ok(data) => reply_failure(reply) is None && reply_data(reply) == Some(data),
            Err(error) => reply_failure(reply) == Some(error.view()),
        },
{
    match reply {
        Reply::Lost(failure) => Err(classify_transport(failure)),
        Reply::Arrived { status, retry_after, body } => {
            if !(200 <= status.code && status.code < 300) {
                return Err(classify_http(status, retry_after));
            }
            match body {
                Err(failure) => Err(classify_transport(failure)),
                Ok(envelope) => unpack(envelope),
            }
        },
    }
}

// ---------------------------------------------------------------------------
// Requests
// ---------------------------------------------------------------------------
/// A GET request.
#[derive(Debug)]
pub struct HttpRequest {
    pub url: String,
    pub headers: Vec<(String, String)>,
    pub query: Vec<(String, String)>,
    pub connect_timeout_secs: u64,
    pub timeout_secs: u64,
}

/// The names and values of a sequence of pairs.
pub open spec fn pairs(items: Seq<(String, String)>) -> Seq<(Seq<char>, Seq<char>)> {
    items.map_values(|p: (String, String)| (p.0@, p.1@))
}

/// The smaller of two numbers.
pub open spec fn smaller(a: u64, b: u64) -> u64 {
    if a < b {
        a
    } else {
        b
    }
}

/// A client of the management interface.
#[derive(Debug)]
pub struct NewApiClient {
    pub base_url: String,
    pub admin_user_id: i64,
    pub access_token: String,
    pub request_timeout_secs: u64,
}

impl NewApiClient {
    /// Whether this is the client for `config` with the token `access_token`.
    pub open spec fn is_for(self, config: ApiConfig, access_token: Seq<char>) -> bool {
        &&& self.base_url@ == text::without_trailing(config.base_url@, '/')
        &&& self.admin_user_id == config.admin_user_id
        &&& self.access_token@ == access_token
        &&& self.request_timeout_secs == config.request_timeout_secs
    }

    /// The client for a configuration, with the token that the configured
    /// environment variable holds.
    pub fn new(config: &ApiConfig, variable: Option<String>) -> (r: Result<Self, ApiError>)
        ensures
            match r {
                Ok(client) => variable is Some && !text::blank(variable->0@) && client.is_for(
                    *config,
                    variable->0@,
                ),
                Err(error) => (variable is None || text::blank(variable->0@)) && error.view()
                    == Failure::MissingToken(config.access_token_env@),
            },
    {
        match variable {
            Some(access_token) => {
                if text::is_blank(access_token.as_str()) {
                    return Err(ApiError::MissingToken(config.access_token_env.clone()));
                }
                Ok(Self::with_access_token(config, access_token))
            },
            None => Err(ApiError::MissingToken(config.access_token_env.clone())),
        }
    }

    /// The client for a configuration and a token.
    pub fn with_access_token(config: &ApiConfig, access_token: String) -> (client: Self)
        ensures
            client.is_for(*config, access_token@),
    {
        NewApiClient {
            base_url: text::trim_trailing(config.base_url.as_str(), '/'),
            admin_user_id: config.admin_user_id,
            access_token,
            request_timeout_secs: config.request_timeout_secs,
        }
    }

    /// The request for one page of the logs of `model` between two times. The
    /// token goes out as it is.
    pub fn logs_request(
        &self,
        model: &str,
        start_timestamp: i64,
        end_timestamp: i64,
        page: u32,
        page_size: u32,
    ) -> (r: HttpRequest)
        ensures
            r.url@ == self.base_url@ + "/api/log/"@,
            pairs(r.headers@) == seq![
                ("Authorization"@, self.access_token@),
                ("New-Api-User"@, decimal::decimal(self.admin_user_id as int)),
            ],
            pairs(r.query@) == seq![
                ("p"@, decimal::decimal(page as int)),
                ("page_size"@, decimal::decimal(page_size as int)),
                ("start_timestamp"@, decimal::decimal(start_timestamp as int)),
                ("end_timestamp"@, decimal::decimal(end_timestamp as int)),
                ("model_name"@, model@),
            ],
            r.connect_timeout_secs == smaller(5, self.request_timeout_secs),
            r.timeout_secs == self.request_timeout_secs,
    {
        let mut url = self.base_url.clone();
        url.append("/api/log/");
        let headers = vec![
            ("Authorization".to_string(), self.access_token.clone()),
            ("New-Api-User".to_string(), decimal::to_decimal(self.admin_user_id)),
        ];
        let query = vec![
            ("p".to_string(), decimal::to_decimal(page as i64)),
            ("page_size".to_string(), decimal::to_decimal(page_size as i64)),
            ("start_timestamp".to_string(), decimal::to_decimal(start_timestamp)),
            ("end_timestamp".to_string(), decimal::to_decimal(end_timestamp)),
            ("model_name".to_string(), model.to_string()),
        ];
        HttpRequest {
            url,
            headers,
            query,
            connect_timeout_secs: if 5 < self.request_timeout_secs {
                5
            } else {
                self.request_timeout_secs
            },
            timeout_secs: self.request_timeout_secs,
        }
    }
}

/// The request for the public metrics of `model` over the last `hours`.
pub fn perf_metrics_request(
    base_url: &str,
    config: &PerfMetricsConfig,
    model: &str,
    hours: u32,
) -> (r: HttpRequest)
    ensures
        r.url@ == text::without_trailing(base_url@, '/') + "/api/perf-metrics"@,
        r.headers@.len() == 0,
        pairs(r.query@) == seq![
            ("model"@, model@),
            ("hours"@, decimal::decimal(hours as int)),
        ],
        r.connect_timeout_secs == smaller(config.request_timeout_secs, 2),
        r.timeout_secs == config.request_timeout_secs,
{
    let mut url = text::trim_trailing(base_url, '/');
    url.append("/api/perf-metrics");
    let query = vec![
        ("model".to_string(), model.to_string()),
        ("hours".to_string(), decimal::to_decimal(hours as i64)),
    ];
    HttpRequest {
        url,
        headers: Vec::new(),
        query,
        connect_timeout_secs: if config.request_timeout_secs < 2 {
            config.request_timeout_secs
        } else {
            2
        },
        timeout_secs: config.request_timeout_secs,
    }
}

} // verus!
