//! Samples: what is kept of one line of the management log.
use vstd::prelude::*;
use vstd::string::*;

use sha2::Digest;

use crate::api::RemoteLog;
use crate::decimal;
use crate::json;
use crate::json::{JsonLeaf, JsonValue};
use crate::num;
use crate::redaction;
use crate::text;

verus! {

pub const LOG_TYPE_CONSUME: i64 = 2;

pub const LOG_TYPE_ERROR: i64 = 5;

pub const UNKNOWN_GROUP: &'static str = "自动路由/未确认";

/// The most channels that a retry chain names.
pub const MAX_CHAIN_HOPS: usize = 16;

/// The most characters that an error summary has.
pub const MAX_ERROR_CHARS: usize = 256;

/// Whether a log line tells of a paid request or of a failed attempt.
#[derive(Clone, Copy, Debug, PartialEq, Eq, Structural)]
pub enum SampleKind {
    Consume,
    Error,
}

impl SampleKind {
    /// The number of the kind in the management log.
    pub open spec fn number(self) -> i64 {
        match self {
            SampleKind::Consume => LOG_TYPE_CONSUME,
            SampleKind::Error => LOG_TYPE_ERROR,
        }
    }

    pub fn as_i64(self) -> (r: i64)
        ensures
            r == self.number(),
    {
        match self {
            SampleKind::Consume => LOG_TYPE_CONSUME,
            SampleKind::Error => LOG_TYPE_ERROR,
        }
    }
}

/// What is kept of one line of the management log.
#[derive(Debug)]
pub struct LogSample {
    pub sample_key: String,
    pub source_log_id: i64,
    pub request_id: String,
    pub upstream_request_id: String,
    pub created_at: i64,
    pub kind: SampleKind,
    pub model_name: String,
    pub group_name: String,
    pub channel_id: i64,
    pub channel_name: String,
    pub is_stream: bool,
    pub prompt_tokens: i64,
    pub completion_tokens: i64,
    pub total_ms: Option<i64>,
    pub ttft_ms: Option<i64>,
    pub partial_failure: bool,
    pub attempt_index: i64,
    pub retry_channel_chain: String,
    pub error_code: String,
    pub status_code: Option<i64>,
    pub error_message: String,
}

impl Clone for LogSample {
    fn clone(&self) -> (r: Self)
        ensures
            r == *self,
    {
        LogSample {
            sample_key: self.sample_key.clone(),
            source_log_id: self.source_log_id,
            request_id: self.request_id.clone(),
            upstream_request_id: self.upstream_request_id.clone(),
            created_at: self.created_at,
            kind: self.kind,
            model_name: self.model_name.clone(),
            group_name: self.group_name.clone(),
            channel_id: self.channel_id,
            channel_name: self.channel_name.clone(),
            is_stream: self.is_stream,
            prompt_tokens: self.prompt_tokens,
            completion_tokens: self.completion_tokens,
            total_ms: self.total_ms,
            ttft_ms: self.ttft_ms,
            partial_failure: self.partial_failure,
            attempt_index: self.attempt_index,
            retry_channel_chain: self.retry_channel_chain.clone(),
            error_code: self.error_code.clone(),
            status_code: self.status_code,
            error_message: self.error_message.clone(),
        }
    }
}

// ---------------------------------------------------------------------------
// The field `other`
// ---------------------------------------------------------------------------
/// The values of the field `other` that a sample is made from.
#[derive(Debug)]
pub struct OtherFields {
    /// `/frt`
    pub first_response: Option<JsonLeaf>,
    /// `/stream_status/status`
    pub stream_status: Option<JsonLeaf>,
    /// `/stream_status/error_count`
    pub stream_errors: Option<JsonLeaf>,
    /// `/admin_info/use_channel`
    pub channels: Option<JsonLeaf>,
    /// The elements of `/admin_info/use_channel`
    pub channel_ids: Vec<Option<JsonLeaf>>,
    /// `/error_code`
    pub error_code: Option<JsonLeaf>,
    /// `/status_code`
    pub status_code: Option<JsonLeaf>,
}

/// What `OtherFields` says.
#[verifier::ext_equal]
pub struct OtherValues {
    pub first_response: Option<JsonValue>,
    pub stream_status: Option<JsonValue>,
    pub stream_errors: Option<JsonValue>,
    pub channels: Option<JsonValue>,
    pub channel_ids: Seq<Option<JsonValue>>,
    pub error_code: Option<JsonValue>,
    pub status_code: Option<JsonValue>,
}

/// What a sequence of leaves says.
pub open spec fn all_said(leaves: Seq<Option<JsonLeaf>>) -> Seq<Option<JsonValue>> {
    leaves.map_values(|l: Option<JsonLeaf>| json::said(l))
}

impl OtherFields {
    pub open spec fn view(&self) -> OtherValues {
        OtherValues {
            first_response: json::said(self.first_response),
            stream_status: json::said(self.stream_status),
            stream_errors: json::said(self.stream_errors),
            channels: json::said(self.channels),
            channel_ids: all_said(self.channel_ids@),
            error_code: json::said(self.error_code),
            status_code: json::said(self.status_code),
        }
    }
}

/// The JSON document that the field `other` holds: the text in it where it is a
/// text that is not blank, the field itself where it is an object.
pub open spec fn document_of(other: Seq<char>) -> Option<Seq<char>> {
    match json::json_at(other, ""@) {
        Some(JsonValue::Text(raw)) => if text::blank(raw) {
            None
        } else {
            Some(raw)
        },
        Some(JsonValue::Object) => Some(other),
        _ => None,
    }
}

/// The value that `pointer` leads to in a document, where there is one.
pub open spec fn value_in(document: Option<Seq<char>>, pointer: Seq<char>) -> Option<JsonValue> {
    match document {
        Some(d) => json::json_at(d, pointer),
        None => None,
    }
}

/// The pointer to the channel at position `i`.
pub open spec fn channel_pointer(i: int) -> Seq<char> {
    "/admin_info/use_channel/"@ + decimal::digits(i as nat)
}

/// The channels that a document lists.
pub open spec fn channels_in(document: Option<Seq<char>>) -> Seq<Option<JsonValue>> {
    match json::as_array_len(value_in(document, "/admin_info/use_channel"@)) {
        Some(n) => Seq::new(n as nat, |i: int| value_in(document, channel_pointer(i))),
        None => Seq::empty(),
    }
}

/// What the field `other` says of a request.
pub open spec fn values_of(other: Seq<char>) -> OtherValues {
    let document = document_of(other);
    OtherValues {
        first_response: value_in(document, "/frt"@),
        stream_status: value_in(document, "/stream_status/status"@),
        stream_errors: value_in(document, "/stream_status/error_count"@),
        channels: value_in(document, "/admin_info/use_channel"@),
        channel_ids: channels_in(document),
        error_code: value_in(document, "/error_code"@),
        status_code: value_in(document, "/status_code"@),
    }
}

fn parse_other(other: &str) -> (r: Option<String>)
    ensures
        match r {
            Some(d) => document_of(other@) == Some(d@),
            None => document_of(other@) is None,
        },
{
    match json::look_up(other, "") {
        Some(JsonLeaf::Text(raw)) => {
            if text::is_blank(raw.as_str()) {
                None
            } else {
                Some(raw)
            }
        },
        Some(JsonLeaf::Object) => Some(other.to_string()),
        _ => None,
    }
}

spec fn held(document: Option<String>) -> Option<Seq<char>> {
    match document {
        Some(d) => Some(d@),
        None => None,
    }
}

fn value_at(document: &Option<String>, pointer: &str) -> (r: Option<JsonLeaf>)
    ensures
        json::said(r) == value_in(held(*document), pointer@),
{
    match document {
        Some(d) => json::look_up(d.as_str(), pointer),
        None => None,
    }
}

/// Reads the field `other`.
pub fn read_other(other: &str) -> (r: OtherFields)
    ensures
        r.view() == values_of(other@),
{
    let document = parse_other(other);
    assert(held(document) == document_of(other@));
    let channels = value_at(&document, "/admin_info/use_channel");
    let count: usize = match json::array_len_of(&channels) {
        Some(n) => n,
        None => 0,
    };
    let mut channel_ids: Vec<Option<JsonLeaf>> = Vec::new();
    let mut i: usize = 0;
    while i < count
        invariant
            i <= count,
            channel_ids@.len() == i,
            forall|j: int|
                0 <= j < i ==> json::said(#[trigger] channel_ids@[j]) == value_in(
                    held(document),
                    channel_pointer(j),
                ),
        decreases count - i,
    {
        let mut pointer = "/admin_info/use_channel/".to_string();
        pointer.append(decimal::digits_of(i as u128).as_str());
        assert(pointer@ == channel_pointer(i as int));
        channel_ids.push(value_at(&document, pointer.as_str()));
        i = i + 1;
    }
    assert(all_said(channel_ids@) =~= channels_in(held(document)));
    OtherFields {
        first_response: value_at(&document, "/frt"),
        stream_status: value_at(&document, "/stream_status/status"),
        stream_errors: value_at(&document, "/stream_status/error_count"),
        channels,
        channel_ids,
        error_code: value_at(&document, "/error_code"),
        status_code: value_at(&document, "/status_code"),
    }
}

// ---------------------------------------------------------------------------
// The parts of a sample
// ---------------------------------------------------------------------------
/// The kind of a log line of this type, where it is one that is kept.
pub open spec fn kind_of(log_type: i64) -> Option<SampleKind> {
    if log_type == LOG_TYPE_CONSUME {
        Some(SampleKind::Consume)
    } else if log_type == LOG_TYPE_ERROR {
        Some(SampleKind::Error)
    } else {
        None
    }
}

/// The total time in milliseconds of a request that took `use_time` seconds.
pub open spec fn total_of(use_time: i64) -> Option<i64> {
    if use_time >= 0 {
        Some(num::clamped(use_time * 1000) as i64)
    } else {
        None
    }
}

/// Whether a first response after `ttft` milliseconds fits a request that took
/// `total` milliseconds, with two seconds of tolerance.
pub open spec fn ttft_fits(ttft: int, total: Option<i64>) -> bool {
    0 <= ttft && match total {
        Some(t) => ttft <= num::clamped(t + 2000),
        None => true,
    }
}

/// The time to the first response that a value gives.
pub open spec fn ttft_of(value: Option<JsonValue>, total: Option<i64>) -> Option<i64> {
    match json::as_double(value) {
        Some(d) => if ttft_fits(d.rounded(), total) {
            Some(d.rounded() as i64)
        } else {
            None
        },
        None => None,
    }
}

/// Whether a stream broke off: its status is an error, or it counts errors.
pub open spec fn stream_broke(status: Option<JsonValue>, errors: Option<JsonValue>) -> bool {
    (match json::as_text(status) {
        Some(s) => text::lowered(s) == text::lowered("error"@),
        None => false,
    }) || (match json::as_integer(errors) {
        Some(n) => n > 0,
        None => false,
    })
}

/// Which attempt a log line tells of: the number of channels that were used.
pub open spec fn attempt_of(channels: Option<JsonValue>) -> int {
    match json::as_array_len(channels) {
        Some(n) => if 0 < n <= i64::MAX {
            n
        } else {
            1
        },
        None => 1,
    }
}

/// The channel that a value names: a positive integer, or the digits of one.
pub open spec fn channel_of(value: Option<JsonValue>) -> Option<int> {
    let n = match value {
        Some(JsonValue::Number { integer: Some(n), .. }) => Some(n as int),
        Some(JsonValue::Text(s)) => decimal::written_number(s, i64::MAX as int),
        _ => None,
    };
    match n {
        Some(id) => if id > 0 {
            Some(id)
        } else {
            None
        },
        None => None,
    }
}

/// The channels that `values` name, in their order.
pub open spec fn channels_of(values: Seq<Option<JsonValue>>) -> Seq<int>
    decreases values.len(),
{
    if values.len() == 0 {
        Seq::empty()
    } else {
        match channel_of(values.last()) {
            Some(id) => channels_of(values.drop_last()).push(id),
            None => channels_of(values.drop_last()),
        }
    }
}

/// The first channels that `values` name, as many as a chain holds.
pub open spec fn hops_of(values: Seq<Option<JsonValue>>) -> Seq<int> {
    let ids = channels_of(values);
    if ids.len() <= MAX_CHAIN_HOPS {
        ids
    } else {
        ids.take(MAX_CHAIN_HOPS as int)
    }
}

/// The text of a chain of channels.
pub open spec fn chain_text(hops: Seq<int>) -> Seq<char> {
    text::joined(hops.map_values(|id: int| decimal::decimal(id)), "->"@)
}

/// The group that a log line counts for.
pub open spec fn group_of(group: Seq<char>) -> Seq<char> {
    if text::blank(group) {
        UNKNOWN_GROUP@
    } else {
        group
    }
}

/// The request that a log line tells of; a log line without a request id stands
/// for a request of its own.
pub open spec fn request_of(remote: RemoteLog) -> Seq<char> {
    if text::blank(remote.request_id@) {
        "legacy:"@ + decimal::decimal(remote.created_at as int) + ":"@ + remote.model_name@ + ":"@
            + decimal::decimal(remote.channel_id as int) + ":"@ + decimal::decimal(
            remote.id as int,
        )
    } else {
        remote.request_id@
    }
}

/// The text that a sample is known by: of a request there is one paid log line,
/// and failed attempts differ in channel, attempt, time, upstream id or content.
pub open spec fn identity_of(
    request_id: Seq<char>,
    kind: SampleKind,
    channel_id: int,
    attempt_index: int,
    created_at: int,
    upstream_request_id: Seq<char>,
    content: Seq<char>,
) -> Seq<char> {
    match kind {
        SampleKind::Consume => request_id + "|2"@,
        SampleKind::Error => request_id + "|5|"@ + decimal::decimal(channel_id) + "|"@
            + decimal::decimal(attempt_index) + "|"@ + decimal::decimal(created_at) + "|"@
            + upstream_request_id + "|"@ + content,
    }
}

/// The SHA-256 digest of the UTF-8 bytes of a text, in small hexadecimal digits.
pub uninterp spec fn sha256_hex(value: Seq<char>) -> Seq<char>;

/// Hashes with `sha2::Sha256::digest` and writes the digest in hexadecimal. The
/// digest is named, not described.
#[verifier::external_body]
fn sha256(value: &str) -> (r: String)
    ensures
        r@ == sha256_hex(value@),
{
    format!("{:x}", sha2::Sha256::digest(value.as_bytes()))
}

/// The summary that is kept of an error text.
pub open spec fn redacted(value: Seq<char>) -> Seq<char> {
    text::first_chars(redaction::without_secrets(value), MAX_ERROR_CHARS as int)
}

/// The summary of an error text: access tokens and the secrets of URLs are
/// replaced, then it is cut to its first characters.
pub fn redact_error(value: &str) -> (r: String)
    ensures
        r@ == redacted(value@),
{
    text::truncate(redaction::blot_secrets(value).as_str(), MAX_ERROR_CHARS)
}

/// The key of a sample.
pub fn sample_key(
    request_id: &str,
    kind: SampleKind,
    channel_id: i64,
    attempt_index: i64,
    created_at: i64,
    upstream_request_id: &str,
    content: &str,
) -> (r: String)
    ensures
        r@ == sha256_hex(
            identity_of(
                request_id@,
                kind,
                channel_id as int,
                attempt_index as int,
                created_at as int,
                upstream_request_id@,
                content@,
            ),
        ),
{
    let mut identity = request_id.to_string();
    match kind {
        SampleKind::Consume => {
            identity.append("|2");
        },
        SampleKind::Error => {
            identity.append("|5|");
            identity.append(decimal::to_decimal(channel_id).as_str());
            identity.append("|");
            identity.append(decimal::to_decimal(attempt_index).as_str());
            identity.append("|");
            identity.append(decimal::to_decimal(created_at).as_str());
            identity.append("|");
            identity.append(upstream_request_id);
            identity.append("|");
            identity.append(content);
        },
    }
    sha256(identity.as_str())
}

fn channel_id_of(value: &Option<JsonLeaf>) -> (r: Option<i64>)
    ensures
        match r {
            Some(id) => channel_of(json::said(*value)) == Some(id as int),
            None => channel_of(json::said(*value)) is None,
        },
{
    let n: Option<i64> = match value {
        Some(JsonLeaf::Number { integer, .. }) => *integer,
        Some(JsonLeaf::Text(s)) => match decimal::parse_number(s.as_str(), i64::MAX as u64) {
            Some(n) => Some(n as i64),
            None => None,
        },
        _ => None,
    };
    match n {
        Some(id) => {
            if id > 0 {
                Some(id)
            } else {
                None
            }
        },
        None => None,
    }
}

proof fn channels_of_grow(values: Seq<Option<JsonValue>>, n: int)
    requires
        0 <= n <= values.len(),
    ensures
        channels_of(values.take(n)).len() <= channels_of(values).len(),
        channels_of(values).take(channels_of(values.take(n)).len() as int) == channels_of(
            values.take(n),
        ),
    decreases values.len(),
{
    if n == values.len() {
        assert(values.take(n) == values);
        assert(channels_of(values).take(channels_of(values).len() as int) == channels_of(values));
    } else {
        assert(values.drop_last().take(n) == values.take(n));
        channels_of_grow(values.drop_last(), n);
        let rest = channels_of(values.drop_last());
        let m = channels_of(values.take(n)).len() as int;
        assert(channels_of(values).take(m) == rest.take(m));
    }
}

/// The text of the chain of channels that `values` name.
pub fn retry_chain(values: &Vec<Option<JsonLeaf>>) -> (r: String)
    ensures
        r@ == chain_text(hops_of(all_said(values@))),
{
    let mut parts: Vec<String> = Vec::new();
    let mut i: usize = 0;
    let ghost said = all_said(values@);
    assert(said.take(0) == Seq::<Option<JsonValue>>::empty());
    while i < values.len() && parts.len() < MAX_CHAIN_HOPS
        invariant
            i <= values@.len(),
            said == all_said(values@),
            parts@.len() == channels_of(said.take(i as int)).len(),
            parts@.len() <= MAX_CHAIN_HOPS,
            text::texts(parts@) == channels_of(said.take(i as int)).map_values(
                |id: int| decimal::decimal(id),
            ),
        decreases values@.len() - i,
    {
        let ghost before = channels_of(said.take(i as int));
        assert(said.take(i + 1).drop_last() == said.take(i as int));
        assert(said.take(i + 1).last() == json::said(values@[i as int]));
        match channel_id_of(&values[i]) {
            Some(id) => {
                let ghost old_texts = text::texts(parts@);
                parts.push(decimal::to_decimal(id));
                assert(text::texts(parts@) =~= old_texts.push(decimal::decimal(id as int)));
                assert(before.push(id as int).map_values(|id: int| decimal::decimal(id))
                    =~= before.map_values(|id: int| decimal::decimal(id)).push(
                    decimal::decimal(id as int),
                ));
            },
            None => {},
        }
        i = i + 1;
    }
    proof {
        channels_of_grow(said, i as int);
        if i == values@.len() {
            assert(said.take(i as int) == said);
        }
        assert(hops_of(said) =~= channels_of(said.take(i as int)));
    }
    text::join(&parts, "->")
}

// ---------------------------------------------------------------------------
// From a log line to a sample
// ---------------------------------------------------------------------------
/// Whether a log line is kept: it is of a known kind and names a model.
pub open spec fn is_kept(remote: RemoteLog) -> bool {
    kind_of(remote.log_type) is Some && !text::blank(remote.model_name@)
}

impl LogSample {
    /// Whether this is the sample of `remote`, whose field `other` says `values`.
    pub open spec fn is_of(self, remote: RemoteLog, values: OtherValues) -> bool {
        &&& kind_of(remote.log_type) == Some(self.kind)
        &&& self.source_log_id == remote.id
        &&& self.request_id@ == request_of(remote)
        &&& self.upstream_request_id@ == remote.upstream_request_id@
        &&& self.created_at == remote.created_at
        &&& self.model_name@ == remote.model_name@
        &&& self.group_name@ == group_of(remote.group@)
        &&& self.channel_id == remote.channel_id
        &&& self.channel_name@ == remote.channel_name@
        &&& self.is_stream == remote.is_stream
        &&& self.prompt_tokens == remote.prompt_tokens
        &&& self.completion_tokens == remote.completion_tokens
        &&& self.total_ms == total_of(remote.use_time)
        &&& self.ttft_ms == ttft_of(values.first_response, self.total_ms)
        &&& self.partial_failure == (self.kind == SampleKind::Consume && stream_broke(
            values.stream_status,
            values.stream_errors,
        ))
        &&& self.attempt_index == attempt_of(values.channels)
        &&& self.retry_channel_chain@ == chain_text(hops_of(values.channel_ids))
        &&& self.error_code@ == match json::as_text_or_number(values.error_code) {
            Some(code) => code,
            None => Seq::empty(),
        }
        &&& self.status_code == json::as_integer(values.status_code)
        &&& self.error_message@ == if self.kind == SampleKind::Error {
            redacted(remote.content@)
        } else {
            Seq::empty()
        }
        &&& self.sample_key@ == sha256_hex(
            identity_of(
                self.request_id@,
                self.kind,
                self.channel_id as int,
                self.attempt_index as int,
                self.created_at as int,
                self.upstream_request_id@,
                remote.content@,
            ),
        )
    }

    /// The sample of a log line: small, without secrets, and known by its key.
    pub fn from_remote(remote: RemoteLog) -> (r: Option<Self>)
        ensures
            r is Some <==> is_kept(remote),
            r matches Some(sample) ==> sample.is_of(remote, values_of(remote.other@)),
    {
        let fields = read_other(remote.other.as_str());
        Self::assemble(remote, &fields)
    }

    /// The sample of a log line whose field `other` was read as `fields`.
    pub fn assemble(remote: RemoteLog, fields: &OtherFields) -> (r: Option<Self>)
        ensures
            r is Some <==> is_kept(remote),
            r matches Some(sample) ==> sample.is_of(remote, fields.view()),
    {
        let kind = if remote.log_type == LOG_TYPE_CONSUME {
            SampleKind::Consume
        } else if remote.log_type == LOG_TYPE_ERROR {
            SampleKind::Error
        } else {
            return None;
        };
        if text::is_blank(remote.model_name.as_str()) {
            return None;
        }
        let total_ms = if remote.use_time >= 0 {
            Some(num::times(remote.use_time, 1000))
        } else {
            None
        };
        let ttft_ms = match json::double_of(&fields.first_response) {
            Some(d) => {
                let value: i64 = d.to_integer();
                let fits = value >= 0 && match total_ms {
                    Some(total) => value <= num::plus(total, 2000),
                    None => true,
                };
                if fits {
                    Some(value)
                } else {
                    None
                }
            },
            None => None,
        };
        let failed_stream = match json::text_of(&fields.stream_status) {
            Some(status) => text::same_ignoring_case(status.as_str(), "error"),
            None => false,
        };
        let counted_errors = match json::integer_of(&fields.stream_errors) {
            Some(n) => n > 0,
            None => false,
        };
        let partial_failure = kind == SampleKind::Consume && (failed_stream || counted_errors);
        let attempt_index: i64 = match json::array_len_of(&fields.channels) {
            Some(n) => {
                if 0 < n && n as u128 <= i64::MAX as u128 {
                    n as i64
                } else {
                    1
                }
            },
            None => 1,
        };
        let error_code = match json::value_as_string(&fields.error_code) {
            Some(code) => code,
            None => String::new(),
        };
        let group_name = if text::is_blank(remote.group.as_str()) {
            UNKNOWN_GROUP.to_string()
        } else {
            remote.group
        };
        let request_id = if text::is_blank(remote.request_id.as_str()) {
            let mut id = "legacy:".to_string();
            id.append(decimal::to_decimal(remote.created_at).as_str());
            id.append(":");
            id.append(remote.model_name.as_str());
            id.append(":");
            id.append(decimal::to_decimal(remote.channel_id).as_str());
            id.append(":");
            id.append(decimal::to_decimal(remote.id).as_str());
            id
        } else {
            remote.request_id
        };
        let sample_key = sample_key(
            request_id.as_str(),
            kind,
            remote.channel_id,
            attempt_index,
            remote.created_at,
            remote.upstream_request_id.as_str(),
            remote.content.as_str(),
        );
        let error_message = if kind == SampleKind::Error {
            redact_error(remote.content.as_str())
        } else {
            String::new()
        };
        Some(
            LogSample {
                sample_key,
                source_log_id: remote.id,
                request_id,
                upstream_request_id: remote.upstream_request_id,
                created_at: remote.created_at,
                kind,
                model_name: remote.model_name,
                group_name,
                channel_id: remote.channel_id,
                channel_name: remote.channel_name,
                is_stream: remote.is_stream,
                prompt_tokens: remote.prompt_tokens,
                completion_tokens: remote.completion_tokens,
                total_ms,
                ttft_ms,
                partial_failure,
                attempt_index,
                retry_channel_chain: retry_chain(&fields.channel_ids),
                error_code,
                status_code: json::integer_of(&fields.status_code),
                error_message,
            },
        )
    }
}

// ---------------------------------------------------------------------------
// Laws
// ---------------------------------------------------------------------------
/// The summary of an error has at most 256 characters.
pub proof fn error_summary_is_short(value: Seq<char>)
    ensures
        redacted(value).len() <= 256,
{
}

/// The summary of an error holds no access token, the value of every secret of a URL
/// is `[REDACTED]` in it, cut short only at its end, and its own summary is itself.
pub proof fn error_summary_holds_no_secret(value: Seq<char>)
    ensures
        redaction::token_free(redacted(value)),
        redaction::nearly_only_blots(redacted(value)),
        redacted(redacted(value)) == redacted(value),
{
    redaction::secrets_are_gone(value, MAX_ERROR_CHARS as nat);
}

/// A retry chain names at most 16 channels, each by a positive number.
pub proof fn chain_is_short_and_positive(values: Seq<Option<JsonValue>>)
    ensures
        hops_of(values).len() <= 16,
        forall|i: int| 0 <= i < hops_of(values).len() ==> #[trigger] hops_of(values)[i] > 0,
{
    channels_are_positive(values);
}

proof fn channels_are_positive(values: Seq<Option<JsonValue>>)
    ensures
        forall|i: int| 0 <= i < channels_of(values).len() ==> #[trigger] channels_of(values)[i] > 0,
    decreases values.len(),
{
    if values.len() > 0 {
        channels_are_positive(values.drop_last());
        let rest = channels_of(values.drop_last());
        assert forall|i: int| 0 <= i < channels_of(values).len() implies #[trigger] channels_of(
            values,
        )[i] > 0 by {
            if i < rest.len() {
                assert(rest[i] > 0);
            }
        }
    }
}

/// Two paid log lines of one request have one key, whatever else they say.
pub proof fn paid_lines_of_a_request_share_a_key(
    a: LogSample,
    b: LogSample,
    first: RemoteLog,
    second: RemoteLog,
)
    requires
        a.is_of(first, values_of(first.other@)),
        b.is_of(second, values_of(second.other@)),
        a.kind == SampleKind::Consume,
        b.kind == SampleKind::Consume,
        a.request_id@ == b.request_id@,
    ensures
        a.sample_key@ == b.sample_key@,
{
}

/// Whether `s` holds no bar.
pub open spec fn has_no_bar(s: Seq<char>) -> bool {
    forall|i: int| 0 <= i < s.len() ==> #[trigger] s[i] != '|'
}

proof fn bar_splits(a: Seq<char>, x: Seq<char>, b: Seq<char>, y: Seq<char>)
    requires
        has_no_bar(a),
        has_no_bar(b),
        a + seq!['|'] + x == b + seq!['|'] + y,
    ensures
        a == b,
        x == y,
{
    let left = a + seq!['|'] + x;
    let right = b + seq!['|'] + y;
    if a.len() < b.len() {
        assert(left[a.len() as int] == '|');
        assert(right[a.len() as int] == b[a.len() as int]);
    } else if b.len() < a.len() {
        assert(right[b.len() as int] == '|');
        assert(left[b.len() as int] == a[b.len() as int]);
    }
    assert(a =~= left.take(a.len() as int));
    assert(b =~= right.take(a.len() as int));
    assert(x =~= left.skip(a.len() as int + 1));
    assert(y =~= right.skip(a.len() as int + 1));
}

/// What comes behind the kind in the identity of a failed attempt.
spec fn details(
    channel_id: int,
    attempt_index: int,
    created_at: int,
    upstream_request_id: Seq<char>,
    content: Seq<char>,
) -> Seq<char> {
    let bar = seq!['|'];
    decimal::decimal(channel_id) + bar + (decimal::decimal(attempt_index) + bar + (
    decimal::decimal(created_at) + bar + (upstream_request_id + bar + content)))
}

proof fn identity_has_details(
    request_id: Seq<char>,
    channel_id: int,
    attempt_index: int,
    created_at: int,
    upstream_request_id: Seq<char>,
    content: Seq<char>,
)
    ensures
        identity_of(
            request_id,
            SampleKind::Error,
            channel_id,
            attempt_index,
            created_at,
            upstream_request_id,
            content,
        ) == request_id + seq!['|', '5', '|'] + details(
            channel_id,
            attempt_index,
            created_at,
            upstream_request_id,
            content,
        ),
{
    reveal_strlit("|5|");
    reveal_strlit("|");
    assert("|5|"@ =~= seq!['|', '5', '|']);
    assert("|"@ =~= seq!['|']);
    assert(identity_of(
        request_id,
        SampleKind::Error,
        channel_id,
        attempt_index,
        created_at,
        upstream_request_id,
        content,
    ) =~= request_id + seq!['|', '5', '|'] + details(
        channel_id,
        attempt_index,
        created_at,
        upstream_request_id,
        content,
    ));
}

/// The identity of a sample.
pub open spec fn identity(sample: LogSample, content: Seq<char>) -> Seq<char> {
    identity_of(
        sample.request_id@,
        sample.kind,
        sample.channel_id as int,
        sample.attempt_index as int,
        sample.created_at as int,
        sample.upstream_request_id@,
        content,
    )
}

/// Two failed attempts of one request, whose upstream ids hold no bar, have one
/// identity exactly where channel, attempt, time, upstream id and content agree; a
/// paid log line and a failed attempt never have one.
pub proof fn identities_tell_lines_apart(
    a: LogSample,
    b: LogSample,
    first: Seq<char>,
    second: Seq<char>,
)
    requires
        a.request_id@ == b.request_id@,
        has_no_bar(a.upstream_request_id@),
        has_no_bar(b.upstream_request_id@),
    ensures
        a.kind == SampleKind::Error && b.kind == SampleKind::Error ==> (identity(a, first)
            == identity(b, second) <==> (a.channel_id == b.channel_id && a.attempt_index
            == b.attempt_index && a.created_at == b.created_at && a.upstream_request_id@
            == b.upstream_request_id@ && first == second)),
        a.kind != b.kind ==> identity(a, first) != identity(b, second),
{
    let n = a.request_id@.len() as int;
    let x = identity(a, first);
    let y = identity(b, second);
    reveal_strlit("|2");
    reveal_strlit("|5|");
    if a.kind == SampleKind::Error && b.kind == SampleKind::Error && x == y {
        identity_has_details(
            a.request_id@,
            a.channel_id as int,
            a.attempt_index as int,
            a.created_at as int,
            a.upstream_request_id@,
            first,
        );
        identity_has_details(
            b.request_id@,
            b.channel_id as int,
            b.attempt_index as int,
            b.created_at as int,
            b.upstream_request_id@,
            second,
        );
        let bar = seq!['|'];
        let a3 = a.upstream_request_id@ + bar + first;
        let b3 = b.upstream_request_id@ + bar + second;
        let a2 = decimal::decimal(a.created_at as int) + bar + a3;
        let b2 = decimal::decimal(b.created_at as int) + bar + b3;
        let a1 = decimal::decimal(a.attempt_index as int) + bar + a2;
        let b1 = decimal::decimal(b.attempt_index as int) + bar + b2;
        let a0 = decimal::decimal(a.channel_id as int) + bar + a1;
        let b0 = decimal::decimal(b.channel_id as int) + bar + b1;
        assert(x.skip(n + 3) =~= a0);
        assert(y.skip(n + 3) =~= b0);
        decimal::decimal_tells_numbers_apart(a.channel_id as int, b.channel_id as int);
        decimal::decimal_tells_numbers_apart(b.channel_id as int, a.channel_id as int);
        decimal::decimal_tells_numbers_apart(a.attempt_index as int, b.attempt_index as int);
        decimal::decimal_tells_numbers_apart(b.attempt_index as int, a.attempt_index as int);
        decimal::decimal_tells_numbers_apart(a.created_at as int, b.created_at as int);
        decimal::decimal_tells_numbers_apart(b.created_at as int, a.created_at as int);
        bar_splits(
            decimal::decimal(a.channel_id as int),
            a1,
            decimal::decimal(b.channel_id as int),
            b1,
        );
        bar_splits(
            decimal::decimal(a.attempt_index as int),
            a2,
            decimal::decimal(b.attempt_index as int),
            b2,
        );
        bar_splits(
            decimal::decimal(a.created_at as int),
            a3,
            decimal::decimal(b.created_at as int),
            b3,
        );
        bar_splits(a.upstream_request_id@, first, b.upstream_request_id@, second);
    }
    if a.kind != b.kind && x == y {
        let (paid, failed) = if a.kind == SampleKind::Consume {
            (x, y)
        } else {
            (y, x)
        };
        assert(paid[n + 1] == '2');
        let start = a.request_id@ + "|5|"@;
        assert(failed.take(n + 3) =~= start);
        assert(failed.take(n + 3)[n + 1] == '5');
    }
}

/// Barring two identities with one digest, the keys of two log lines of one request,
/// whose upstream ids hold no bar, agree exactly where both are paid, or both are
/// failed attempts that agree in channel, attempt, time, upstream id and content.
pub proof fn keys_tell_lines_apart(a: LogSample, b: LogSample, first: RemoteLog, second: RemoteLog)
    requires
        a.is_of(first, values_of(first.other@)),
        b.is_of(second, values_of(second.other@)),
        a.request_id@ == b.request_id@,
        has_no_bar(a.upstream_request_id@),
        has_no_bar(b.upstream_request_id@),
        sha256_hex(identity(a, first.content@)) == sha256_hex(identity(b, second.content@))
            ==> identity(a, first.content@) == identity(b, second.content@),
    ensures
        a.kind == SampleKind::Consume && b.kind == SampleKind::Consume ==> a.sample_key@
            == b.sample_key@,
        a.kind == SampleKind::Error && b.kind == SampleKind::Error ==> (a.sample_key@
            == b.sample_key@ <==> (a.channel_id == b.channel_id && a.attempt_index
            == b.attempt_index && a.created_at == b.created_at && a.upstream_request_id@
            == b.upstream_request_id@ && first.content@ == second.content@)),
        a.kind != b.kind ==> a.sample_key@ != b.sample_key@,
{
    identities_tell_lines_apart(a, b, first.content@, second.content@);
}

/// Only a paid log line is a partial failure, and only a failed attempt has an
/// error summary.
pub proof fn kinds_do_not_mix(sample: LogSample, remote: RemoteLog)
    requires
        sample.is_of(remote, values_of(remote.other@)),
    ensures
        sample.partial_failure ==> sample.kind == SampleKind::Consume,
        sample.error_message@.len() > 0 ==> sample.kind == SampleKind::Error,
{
}

/// The time to the first response is never negative, and exceeds the total time
/// by at most two seconds.
pub proof fn ttft_is_plausible(sample: LogSample, remote: RemoteLog)
    requires
        sample.is_of(remote, values_of(remote.other@)),
        sample.ttft_ms is Some,
    ensures
        sample.ttft_ms->0 >= 0,
        sample.total_ms is Some ==> sample.ttft_ms->0 <= sample.total_ms->0 + 2000,
{
}

} // verus!
