//! The smoke run of the plugin: a stand-in for New API and the messages it has to
//! bring about.
use vstd::prelude::*;
use vstd::string::*;

use crate::decimal;
use crate::text;

verus! {

/// The small hexadecimal digit `d`.
pub open spec fn hex_digit(d: int) -> char {
    if d < 10 {
        (48 + d) as char
    } else {
        (87 + d) as char
    }
}

/// A character inside a JSON string: the quotation mark, the backslash and the control
/// characters are escaped.
pub open spec fn json_char(c: char) -> Seq<char> {
    if c == '"' || c == '\\' {
        seq!['\\', c]
    } else if c == '\u{8}' {
        seq!['\\', 'b']
    } else if c == '\t' {
        seq!['\\', 't']
    } else if c == '\n' {
        seq!['\\', 'n']
    } else if c == '\u{c}' {
        seq!['\\', 'f']
    } else if c == '\r' {
        seq!['\\', 'r']
    } else if '\u{1f}' >= c {
        seq!['\\', 'u', '0', '0', hex_digit(c as int / 16), hex_digit(c as int % 16)]
    } else {
        seq![c]
    }
}

/// The characters of `value` as they stand inside a JSON string.
pub open spec fn json_chars(value: Seq<char>) -> Seq<char>
    decreases value.len(),
{
    if value.len() == 0 {
        Seq::empty()
    } else {
        json_chars(value.drop_last()) + json_char(value.last())
    }
}

/// A text as a JSON string.
pub open spec fn json_string(value: Seq<char>) -> Seq<char> {
    seq!['"'] + json_chars(value) + seq!['"']
}

/// Writes a text as a JSON string with `serde_json::Value::to_string`: between
/// quotation marks, with what JSON forbids in a string escaped, and nothing else.
#[verifier::external_body]
fn quote(value: &str) -> (r: String)
    ensures
        r@ == json_string(value@),
{
    serde_json::Value::String(value.to_owned()).to_string()
}

/// The configuration of the smoke run, with the address of the stand-in as JSON.
pub open spec fn config_text(base_url: Seq<char>) -> Seq<char> {
    "{\"api\":{\"access_token_env\":\"NEWAPI_STATUS_FFI_SMOKE_TOKEN\",\"admin_user_id\":3,\"base_url\":"@
        + base_url
        + ",\"initial_backfill_hours\":1,\"max_pages_per_model\":1,\"overlap_secs\":0,\"page_size\":100,"@
        + "\"poll_interval_secs\":10,\"request_timeout_secs\":5,\"settlement_grace_secs\":1},"@
        + "\"bot\":{\"max_message_chars\":4000},"@
        + "\"models\":[{\"groups\":[\"default\"],\"name\":\"echo\"}],"@
        + "\"perf_metrics\":{\"enabled\":false,\"request_timeout_secs\":1},"@
        + "\"push\":{\"confirmations\":1,\"cooldown_secs\":0,\"enabled\":true,\"interval_secs\":30,"@
        + "\"mode\":\"periodic\",\"targets\":[{\"bot_id\":\"bot-a\",\"kind\":\"group\",\"target_id\":\"10001\"}]},"@
        + "\"status\":{\"default_window\":\"1m\",\"minimum_samples\":1,\"stale_after_secs\":180},"@
        + "\"storage\":{\"database_file\":\"status.db\",\"retention_days\":1}}"@
}

/// The configuration of the smoke run, with the address of the stand-in as JSON.
pub fn describe_config(base_url: &str) -> (r: String)
    ensures
        r@ == config_text(base_url@),
{
    let mut r =
        "{\"api\":{\"access_token_env\":\"NEWAPI_STATUS_FFI_SMOKE_TOKEN\",\"admin_user_id\":3,\"base_url\":".to_string();
    r.append(base_url);
    r.append(
        ",\"initial_backfill_hours\":1,\"max_pages_per_model\":1,\"overlap_secs\":0,\"page_size\":100,",
    );
    r.append("\"poll_interval_secs\":10,\"request_timeout_secs\":5,\"settlement_grace_secs\":1},");
    r.append("\"bot\":{\"max_message_chars\":4000},");
    r.append("\"models\":[{\"groups\":[\"default\"],\"name\":\"echo\"}],");
    r.append("\"perf_metrics\":{\"enabled\":false,\"request_timeout_secs\":1},");
    r.append("\"push\":{\"confirmations\":1,\"cooldown_secs\":0,\"enabled\":true,\"interval_secs\":30,");
    r.append(
        "\"mode\":\"periodic\",\"targets\":[{\"bot_id\":\"bot-a\",\"kind\":\"group\",\"target_id\":\"10001\"}]},",
    );
    r.append("\"status\":{\"default_window\":\"1m\",\"minimum_samples\":1,\"stale_after_secs\":180},");
    r.append("\"storage\":{\"database_file\":\"status.db\",\"retention_days\":1}}");
    r
}

/// The configuration of the smoke run.
pub fn smoke_config(base_url: &str) -> (r: String)
    ensures
        r@ == config_text(json_string(base_url@)),
{
    describe_config(quote(base_url).as_str())
}

/// The one page of log that the stand-in answers with.
pub fn mock_log_page(created_at: i64) -> (r: String)
    ensures
        r@ == "{\"data\":{\"items\":[{\"channel\":1,\"created_at\":"@ + decimal::decimal(
            created_at as int,
        )
            + ",\"group\":\"default\",\"id\":1,\"model_name\":\"echo\",\"other\":{\"frt\":100},"@
            + "\"request_id\":\"ffi-smoke-request\",\"type\":2,\"use_time\":1}],\"total\":1},\"success\":true}"@,
{
    let mut r = "{\"data\":{\"items\":[{\"channel\":1,\"created_at\":".to_string();
    r.append(decimal::to_decimal(created_at).as_str());
    r.append(",\"group\":\"default\",\"id\":1,\"model_name\":\"echo\",\"other\":{\"frt\":100},");
    r.append(
        "\"request_id\":\"ffi-smoke-request\",\"type\":2,\"use_time\":1}],\"total\":1},\"success\":true}",
    );
    r
}

/// The HTTP response with a JSON body of `length` bytes.
pub fn mock_response(body: &str, length: usize) -> (r: String)
    ensures
        r@ == "HTTP/1.1 200 OK\r\nContent-Type: application/json\r\nContent-Length: "@
            + decimal::digits(length as nat) + "\r\nConnection: close\r\n\r\n"@ + body@,
{
    let mut r =
        "HTTP/1.1 200 OK\r\nContent-Type: application/json\r\nContent-Length: ".to_string();
    r.append(decimal::digits_of(length as u128).as_str());
    r.append("\r\nConnection: close\r\n\r\n");
    r.append(body);
    r
}

/// Whether a request, in small letters, is the one that the plugin has to make.
pub fn is_log_request(request: &str) -> (r: bool)
    ensures
        r == (text::has_part(text::lowered(request@), "get /api/log/?"@) && text::has_part(
            text::lowered(request@),
            "model_name=echo"@,
        )),
{
    let low = text::to_lower(request);
    text::contains_text(low.as_str(), "get /api/log/?") && text::contains_text(
        low.as_str(),
        "model_name=echo",
    )
}

// ---------------------------------------------------------------------------
// Reading a request
// ---------------------------------------------------------------------------
/// The most bytes of a request.
pub const MAX_REQUEST_BYTES: usize = 65_536;

/// How far a request was read.
#[derive(Clone, Copy, Debug, PartialEq, Eq, Structural)]
pub enum RequestStep {
    /// More has to be read.
    More,
    /// The head is complete.
    Complete,
    /// The request is too large.
    TooLarge,
}

/// Whether an empty line begins at `i`.
pub open spec fn is_empty_line(bytes: Seq<u8>, i: int) -> bool {
    bytes[i] == 13 && bytes[i + 1] == 10 && bytes[i + 2] == 13 && bytes[i + 3] == 10
}

/// Whether the head of a request is complete: an empty line ends it.
pub open spec fn has_head(bytes: Seq<u8>) -> bool {
    exists|i: int| 0 <= i <= bytes.len() - 4 && #[trigger] is_empty_line(bytes, i)
}

/// How far a request of these bytes was read.
pub open spec fn step_of(bytes: Seq<u8>) -> RequestStep {
    if bytes.len() > MAX_REQUEST_BYTES {
        RequestStep::TooLarge
    } else if has_head(bytes) {
        RequestStep::Complete
    } else {
        RequestStep::More
    }
}

/// Adds the bytes of a request that were read, and says how far it was read.
pub fn read_more(request: &mut Vec<u8>, chunk: &[u8]) -> (r: RequestStep)
    ensures
        final(request)@ == old(request)@ + chunk@,
        r == step_of(final(request)@),
{
    let ghost before = request@;
    let mut k: usize = 0;
    assert(chunk@.take(0) =~= Seq::<u8>::empty());
    assert(request@ =~= before + chunk@.take(0));
    while k < chunk.len()
        invariant
            k <= chunk@.len(),
            request@ == before + chunk@.take(k as int),
        decreases chunk@.len() - k,
    {
        request.push(chunk[k]);
        assert(request@ =~= before + chunk@.take(k + 1));
        k = k + 1;
    }
    assert(chunk@.take(k as int) =~= chunk@);
    if request.len() > MAX_REQUEST_BYTES {
        return RequestStep::TooLarge;
    }
    let mut i: usize = 0;
    while request.len() >= 4 && i <= request.len() - 4
        invariant
            before == old(request)@,
            request@ == before + chunk@,
            request@.len() <= MAX_REQUEST_BYTES,
            i <= request@.len(),
            forall|j: int|
                0 <= j < i && j <= request@.len() - 4 ==> !#[trigger] is_empty_line(request@, j),
        decreases request@.len() - i,
    {
        if request[i] == 13 && request[i + 1] == 10 && request[i + 2] == 13 && request[i + 3]
            == 10 {
            assert(is_empty_line(request@, i as int));
            return RequestStep::Complete;
        }
        i = i + 1;
    }
    RequestStep::More
}

// ---------------------------------------------------------------------------
// Messages
// ---------------------------------------------------------------------------
/// A message that the plugin handed to the host.
#[derive(Debug)]
pub struct Record {
    pub bot_id: String,
    pub target_kind: String,
    pub target_id: String,
    pub message: String,
}

impl Record {
    /// Whether this is a status report to the target of the smoke run.
    pub open spec fn is_status_report(self) -> bool {
        &&& self.bot_id@ == "bot-a"@
        &&& self.target_kind@ == "group"@
        &&& self.target_id@ == "10001"@
        &&& text::has_part(self.message@, "模型状态"@)
    }
}

/// Whether the plugin handed over status reports and nothing else.
pub fn are_status_reports(records: &Vec<Record>) -> (r: bool)
    ensures
        r == (records@.len() > 0 && forall|i: int|
            0 <= i < records@.len() ==> (#[trigger] records@[i]).is_status_report()),
{
    let mut i: usize = 0;
    while i < records.len()
        invariant
            i <= records@.len(),
            forall|k: int| 0 <= k < i ==> (#[trigger] records@[k]).is_status_report(),
        decreases records@.len() - i,
    {
        let record = &records[i];
        if !(text::same_text(record.bot_id.as_str(), "bot-a") && text::same_text(
            record.target_kind.as_str(),
            "group",
        ) && text::same_text(record.target_id.as_str(), "10001") && text::contains_text(
            record.message.as_str(),
            "模型状态",
        )) {
            assert(!records@[i as int].is_status_report());
            return false;
        }
        i = i + 1;
    }
    records.len() > 0
}

/// A character in the message of a workflow command.
pub open spec fn escaped_char(c: char) -> Seq<char> {
    if c == '%' {
        "%25"@
    } else if c == '\r' {
        "%0D"@
    } else if c == '\n' {
        "%0A"@
    } else {
        seq![c]
    }
}

/// A message in a workflow command.
pub open spec fn escaped(message: Seq<char>) -> Seq<char>
    decreases message.len(),
{
    if message.len() == 0 {
        Seq::empty()
    } else {
        escaped(message.drop_last()) + escaped_char(message.last())
    }
}

/// A message in a workflow command: on one line, with its percent signs escaped.
pub fn escape_workflow_command(message: &str) -> (r: String)
    ensures
        r@ == escaped(message@),
{
    let chars = text::chars_of(message);
    let mut r = String::new();
    let mut i: usize = 0;
    while i < chars.len()
        invariant
            i <= chars@.len(),
            r@ == escaped(chars@.take(i as int)),
        decreases chars@.len() - i,
    {
        let c = chars[i];
        assert(chars@.take(i + 1).drop_last() == chars@.take(i as int));
        let ghost before = r@;
        if c == '%' {
            r.append("%25");
        } else if c == '\r' {
            r.append("%0D");
        } else if c == '\n' {
            r.append("%0A");
        } else {
            r.push(c);
        }
        assert(r@ =~= before + escaped_char(c));
        i = i + 1;
    }
    assert(chars@.take(i as int) == chars@);
    r
}

/// An escaped message stands on one line.
pub proof fn escaped_message_has_no_line_breaks(message: Seq<char>)
    ensures
        !escaped(message).contains('\r'),
        !escaped(message).contains('\n'),
    decreases message.len(),
{
    reveal_strlit("%25");
    reveal_strlit("%0D");
    reveal_strlit("%0A");
    if message.len() > 0 {
        escaped_message_has_no_line_breaks(message.drop_last());
        let rest = escaped(message.drop_last());
        let last = escaped_char(message.last());
        assert forall|i: int| 0 <= i < escaped(message).len() implies escaped(message)[i] != '\r'
            && escaped(message)[i] != '\n' by {
            if i < rest.len() {
                assert(rest.contains(rest[i]));
            } else {
                assert(escaped(message)[i] == last[i - rest.len()]);
            }
        }
    }
}

} // verus!
