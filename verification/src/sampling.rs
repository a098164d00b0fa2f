//! What a sample tells of the log line that it was made of.
use vstd::prelude::*;
use vstd::string::*;

use crate::api::RemoteLog;
use crate::decimal;
use crate::domain;
use crate::domain::{LogSample, OtherFields, OtherValues, SampleKind};
use crate::double::Double;
use crate::json;
use crate::json::{JsonLeaf, JsonValue};
use crate::redaction;
use crate::text;

verus! {

/// Whether a text holds a character that is not white space.
pub open spec fn says_something(s: Seq<char>) -> bool {
    exists|i: int| 0 <= i < s.len() && !text::white_space(#[trigger] s[i])
}

/// A line is kept exactly if it is a paid line or an error, that is of type 2 or 5, and
/// names a model.
pub proof fn paid_lines_and_errors_are_kept(remote: RemoteLog)
    ensures
        domain::is_kept(remote) <==> (remote.log_type == 2 || remote.log_type == 5)
            && says_something(remote.model_name@),
{
}

/// The sample of a line has the line's own group exactly as it stands there; only the
/// sample of a line whose group says nothing goes under the unknown route.
pub proof fn samples_keep_their_group(sample: LogSample, remote: RemoteLog, values: OtherValues)
    requires
        sample.is_of(remote, values),
    ensures
        says_something(remote.group@) ==> sample.group_name@ == remote.group@,
        !says_something(remote.group@) ==> sample.group_name@ == "自动路由/未确认"@,
{
}

/// What a sample takes over from its line as it is.
pub proof fn samples_repeat_their_line(sample: LogSample, remote: RemoteLog, values: OtherValues)
    requires
        sample.is_of(remote, values),
    ensures
        remote.log_type == 2 <==> sample.kind == SampleKind::Consume,
        remote.log_type == 5 <==> sample.kind == SampleKind::Error,
        sample.source_log_id == remote.id,
        sample.created_at == remote.created_at,
        sample.model_name@ == remote.model_name@,
        sample.channel_id == remote.channel_id,
        sample.channel_name@ == remote.channel_name@,
        sample.upstream_request_id@ == remote.upstream_request_id@,
        sample.is_stream == remote.is_stream,
        sample.prompt_tokens == remote.prompt_tokens,
        sample.completion_tokens == remote.completion_tokens,
        says_something(remote.request_id@) ==> sample.request_id@ == remote.request_id@,
{
}

/// A line without a request id gets one of its own: lines of different times, channels
/// or numbers have different ones.
pub proof fn nameless_requests_are_told_apart(
    a: LogSample,
    b: LogSample,
    first: RemoteLog,
    second: RemoteLog,
    values: OtherValues,
    others: OtherValues,
)
    requires
        a.is_of(first, values),
        b.is_of(second, others),
        !says_something(first.request_id@),
        !says_something(second.request_id@),
        first.model_name@ == second.model_name@,
    ensures
        a.request_id@.len() > 7,
        a.request_id@.subrange(0, 7) == "legacy:"@,
        first.created_at == second.created_at && first.channel_id == second.channel_id
            ==> (a.request_id@ == b.request_id@ <==> first.id == second.id),
        first.id == second.id && first.channel_id == second.channel_id ==> (a.request_id@
            == b.request_id@ <==> first.created_at == second.created_at),
        first.created_at == second.created_at && first.id == second.id ==> (a.request_id@
            == b.request_id@ <==> first.channel_id == second.channel_id),
{
    reveal_strlit("legacy:");
    reveal_strlit(":");
    let t1 = decimal::decimal(first.created_at as int);
    let t2 = decimal::decimal(second.created_at as int);
    let c1 = decimal::decimal(first.channel_id as int);
    let c2 = decimal::decimal(second.channel_id as int);
    let i1 = decimal::decimal(first.id as int);
    let i2 = decimal::decimal(second.id as int);
    decimal::decimal_tells_numbers_apart(first.created_at as int, second.created_at as int);
    decimal::decimal_tells_numbers_apart(first.channel_id as int, second.channel_id as int);
    decimal::decimal_tells_numbers_apart(first.id as int, second.id as int);
    let m = first.model_name@;
    let ra = a.request_id@;
    let rb = b.request_id@;
    assert(ra == "legacy:"@ + t1 + ":"@ + m + ":"@ + c1 + ":"@ + i1);
    assert(rb == "legacy:"@ + t2 + ":"@ + m + ":"@ + c2 + ":"@ + i2);
    assert(ra.subrange(0, 7) =~= "legacy:"@);
    if ra == rb {
        if t1 == t2 && c1 == c2 {
            let k = 7 + t1.len() as int + 1 + m.len() + 1 + c1.len() + 1;
            assert(ra.skip(k) =~= i1);
            assert(rb.skip(k) =~= i2);
        }
        if i1 == i2 && c1 == c2 {
            assert(t1.len() == t2.len());
            assert(ra.subrange(7, 7 + t1.len() as int) =~= t1);
            assert(rb.subrange(7, 7 + t1.len() as int) =~= t2);
        }
        if t1 == t2 && i1 == i2 {
            let k = 7 + t1.len() as int + 1 + m.len() + 1;
            assert(c1.len() == c2.len());
            assert(ra.subrange(k, k + c1.len() as int) =~= c1);
            assert(rb.subrange(k, k + c1.len() as int) =~= c2);
        }
    }
}

/// The total time of a sample is the line's time in seconds a thousand times, as far as
/// that can be held; a negative time is none.
pub proof fn seconds_become_milliseconds(
    sample: LogSample,
    remote: RemoteLog,
    values: OtherValues,
)
    requires
        sample.is_of(remote, values),
    ensures
        sample.total_ms is Some <==> remote.use_time >= 0,
        remote.use_time >= 0 && remote.use_time * 1000 <= i64::MAX ==> sample.total_ms->0
            == remote.use_time * 1000,
        remote.use_time >= 0 && remote.use_time * 1000 > i64::MAX ==> sample.total_ms->0
            == i64::MAX,
{
}

/// What the significand of a number with a negative exponent is divided by.
pub open spec fn scale_of(d: Double) -> int {
    crate::double::up(-d.exponent())
}

/// A finite number that is not below zero, rounded, is the integer that lies no more than
/// one half from it, and of two such the larger.
pub proof fn numbers_are_rounded_to_the_nearest(d: Double, n: int)
    requires
        d.bits < 0x7ff0_0000_0000_0000,
        n == d.rounded(),
        n < i64::MAX,
    ensures
        n >= 0,
        (2 * n - 1) * scale_of(d) <= 2 * (d.significand() * crate::double::up(d.exponent())),
        2 * (d.significand() * crate::double::up(d.exponent())) < (2 * n + 1) * scale_of(d),
{
    let num = d.significand() * crate::double::up(d.exponent());
    let den = scale_of(d);
    if -d.exponent() > 0 {
        vstd::arithmetic::power2::lemma_pow2_pos((-d.exponent()) as nat);
    }
    if d.exponent() > 0 {
        vstd::arithmetic::power2::lemma_pow2_pos(d.exponent() as nat);
    }
    assert(den >= 1);
    assert(num >= 0) by (nonlinear_arith)
        requires
            num == d.significand() * crate::double::up(d.exponent()),
            d.significand() >= 0,
            crate::double::up(d.exponent()) >= 1,
    ;
    let q = (2 * num + den) / (2 * den);
    vstd::arithmetic::div_mod::lemma_fundamental_div_mod(2 * num + den, 2 * den);
    vstd::arithmetic::div_mod::lemma_mod_bound(2 * num + den, 2 * den);
    assert(q >= 0) by {
        vstd::arithmetic::div_mod::lemma_div_pos_is_pos(2 * num + den, 2 * den);
    }
    let r = (2 * num + den) % (2 * den);
    assert((2 * q - 1) * den <= 2 * num && 2 * num < (2 * q + 1) * den) by (nonlinear_arith)
        requires
            2 * num + den == (2 * den) * q + r,
            0 <= r < 2 * den,
    ;
    assert(n == q);
}

/// The time to the first token is the rounded number that the line tells for it, exactly
/// if that is not negative and no more than two seconds over the total time.
pub proof fn first_token_times_are_plausible_numbers(
    sample: LogSample,
    remote: RemoteLog,
    values: OtherValues,
    d: Double,
)
    requires
        sample.is_of(remote, values),
        remote.use_time * 1000 + 2000 <= i64::MAX,
    ensures
        (values.first_response matches Some(JsonValue::Number { double, .. }) ==> double == d
            ==> {
                let fits = d.rounded() >= 0 && (remote.use_time >= 0 ==> d.rounded()
                    <= remote.use_time * 1000 + 2000);
                &&& fits ==> sample.ttft_ms is Some && sample.ttft_ms->0 == d.rounded()
                &&& !fits ==> sample.ttft_ms is None
            }),
        !(values.first_response matches Some(JsonValue::Number { .. })) ==> sample.ttft_ms is None,
{
}

/// A sample is a partial failure exactly if it is a paid line whose stream ended in the
/// status `error`, in whatever letters, or counted an error.
pub proof fn broken_streams_are_partial_failures(
    sample: LogSample,
    remote: RemoteLog,
    values: OtherValues,
)
    requires
        sample.is_of(remote, values),
    ensures
        sample.partial_failure <==> remote.log_type == 2 && ({
            ||| values.stream_status matches Some(JsonValue::Text(s)) && s.len() == 5 && (s[0]
                == 'e' || s[0] == 'E') && (s[1] == 'r' || s[1] == 'R') && (s[2] == 'r' || s[2]
                == 'R') && (s[3] == 'o' || s[3] == 'O') && (s[4] == 'r' || s[4] == 'R')
            ||| values.stream_errors matches Some(JsonValue::Number { integer, .. }) && integer
                matches Some(n) && n > 0
        }),
{
    reveal_strlit("error");
    let word = text::lowered("error"@);
    assert("error"@.len() == 5);
    if let Some(JsonValue::Text(s)) = values.stream_status {
        let low = text::lowered(s);
        assert(low.len() == s.len());
        assert(word.len() == 5);
        assert(word[0] == 'e' && word[1] == 'r' && word[2] == 'r' && word[3] == 'o' && word[4]
            == 'r');
        if s.len() == 5 {
            assert(low[0] == text::lower(s[0]) && low[1] == text::lower(s[1]) && low[2]
                == text::lower(s[2]) && low[3] == text::lower(s[3]) && low[4] == text::lower(s[4]));
            small_letters(s[0]);
            small_letters(s[1]);
            small_letters(s[2]);
            small_letters(s[3]);
            small_letters(s[4]);
            if low == word {
            } else if low[0] == word[0] && low[1] == word[1] && low[2] == word[2] && low[3]
                == word[3] && low[4] == word[4] {
                assert(low =~= word);
            }
        }
    }
}

proof fn small_letters(c: char)
    ensures
        text::lower(c) == 'e' <==> c == 'e' || c == 'E',
        text::lower(c) == 'r' <==> c == 'r' || c == 'R',
        text::lower(c) == 'o' <==> c == 'o' || c == 'O',
{
    if 'A' <= c <= 'Z' {
        assert(c as u8 as int == c as int);
    }
}

/// A sample is of the attempt whose number is that of the channels in its retry list; a
/// line without such a list, or with an empty one, is of the first attempt.
pub proof fn attempts_are_counted_by_channels(
    sample: LogSample,
    remote: RemoteLog,
    values: OtherValues,
)
    requires
        sample.is_of(remote, values),
    ensures
        values.channels matches Some(JsonValue::Array(n)) ==> 0 < n <= i64::MAX
            ==> sample.attempt_index == n,
        values.channels == Some(JsonValue::Array(0)) || !(values.channels matches Some(
            JsonValue::Array(_),
        )) ==> sample.attempt_index == 1,
{
}

/// The error code of a sample is the text or the number that the line tells, and its
/// status code the whole number; other values are none.
pub proof fn codes_are_taken_over(sample: LogSample, remote: RemoteLog, values: OtherValues)
    requires
        sample.is_of(remote, values),
    ensures
        values.error_code matches Some(JsonValue::Text(s)) ==> sample.error_code@ == s,
        values.error_code matches Some(JsonValue::Number { text, .. }) ==> sample.error_code@
            == text,
        !(values.error_code matches Some(JsonValue::Text(_))) && !(values.error_code matches Some(
            JsonValue::Number { .. },
        )) ==> sample.error_code@.len() == 0,
        values.status_code matches Some(JsonValue::Number { integer, .. }) ==> sample.status_code
            == integer,
        !(values.status_code matches Some(JsonValue::Number { .. })) ==> sample.status_code is None,
{
}

/// Only an error has a message: its line's content without secrets, and of that no more
/// than the first 256 characters.
pub proof fn messages_are_those_of_errors(
    sample: LogSample,
    remote: RemoteLog,
    values: OtherValues,
)
    requires
        sample.is_of(remote, values),
    ensures
        sample.kind == SampleKind::Consume ==> sample.error_message@.len() == 0,
        sample.kind == SampleKind::Error ==> {
            let clean = redaction::without_secrets(remote.content@);
            &&& clean.len() <= 256 ==> sample.error_message@ == clean
            &&& clean.len() > 256 ==> sample.error_message@.len() == 256
            &&& sample.error_message@ == clean.subrange(0, sample.error_message@.len() as int)
        },
{
    let clean = redaction::without_secrets(remote.content@);
    if clean.len() <= 256 {
        assert(clean.subrange(0, clean.len() as int) =~= clean);
    }
}

/// One channel more in a retry list adds its id to the chain, if it is a positive number,
/// be it as a number or in digits, and there are fewer than 16 already; other values and further channels add nothing.
pub proof fn chains_grow_channel_by_channel(
    channels: Seq<Option<JsonValue>>,
    channel: Option<JsonValue>,
    id: i64,
)
    ensures
        domain::hops_of(Seq::empty()).len() == 0,
        channel matches Some(JsonValue::Number { integer, .. }) && integer == Some(id) && id > 0
            && domain::hops_of(channels).len() < 16 ==> domain::hops_of(channels.push(channel))
            == domain::hops_of(channels).push(id as int),
        channel == Some(JsonValue::Text(decimal::decimal(id as int))) && id > 0 && domain::hops_of(
            channels,
        ).len() < 16 ==> domain::hops_of(channels.push(channel)) == domain::hops_of(channels).push(
            id as int,
        ),
        channel matches Some(JsonValue::Number { integer, .. }) && integer == Some(id) && id <= 0
            ==> domain::hops_of(channels.push(channel)) == domain::hops_of(channels),
        channel is None || channel->0 is Null || channel->0 is Bool || channel->0 is Array
            || channel->0 is Object ==> domain::hops_of(channels.push(channel)) == domain::hops_of(
            channels,
        ),
        domain::hops_of(channels).len() == 16 ==> domain::hops_of(channels.push(channel))
            == domain::hops_of(channels),
{
    if id > 0 {
        decimal::written_numbers_are_read_back(id as int, i64::MAX as int, Seq::empty());
    }
    assert(channels.push(channel).drop_last() =~= channels);
    let ids = domain::channels_of(channels);
    let more = domain::channels_of(channels.push(channel));
    assert(more == ids || (domain::channel_of(channel) is Some && more == ids.push(
        domain::channel_of(channel)->0,
    )));
    if ids.len() >= 16 {
        assert(more.take(16) =~= ids.take(16));
        assert(ids.len() == 16 ==> ids.take(16) =~= ids);
    }
}

/// A chain is written as its ids in digits, with an arrow between two.
pub proof fn chains_are_written_with_arrows(hops: Seq<int>, id: int)
    ensures
        domain::chain_text(Seq::empty()).len() == 0,
        domain::chain_text(seq![id]) == decimal::decimal(id),
        hops.len() > 0 ==> domain::chain_text(hops.push(id)) == domain::chain_text(hops) + "->"@
            + decimal::decimal(id),
{
    let f = |id: int| decimal::decimal(id);
    assert(seq![id].map_values(f) =~= seq![decimal::decimal(id)]);
    if hops.len() > 0 {
        assert(hops.push(id).map_values(f).drop_last() =~= hops.map_values(f));
    }
}

/// The details of a line are read where they stand in its JSON object, or in the JSON
/// text that stands in its place.
pub proof fn details_are_read_in_place(other: Seq<char>, raw: Seq<char>)
    ensures
        json::json_at(other, ""@) == Some(JsonValue::Object) ==> {
            let values = domain::values_of(other);
            &&& values.first_response == json::json_at(other, "/frt"@)
            &&& values.stream_status == json::json_at(other, "/stream_status/status"@)
            &&& values.stream_errors == json::json_at(other, "/stream_status/error_count"@)
            &&& values.channels == json::json_at(other, "/admin_info/use_channel"@)
            &&& values.error_code == json::json_at(other, "/error_code"@)
            &&& values.status_code == json::json_at(other, "/status_code"@)
        },
        json::json_at(other, ""@) == Some(JsonValue::Text(raw)) && says_something(raw) ==> {
            let values = domain::values_of(other);
            &&& values.first_response == json::json_at(raw, "/frt"@)
            &&& values.stream_status == json::json_at(raw, "/stream_status/status"@)
            &&& values.stream_errors == json::json_at(raw, "/stream_status/error_count"@)
            &&& values.channels == json::json_at(raw, "/admin_info/use_channel"@)
            &&& values.error_code == json::json_at(raw, "/error_code"@)
            &&& values.status_code == json::json_at(raw, "/status_code"@)
        },
        json::json_at(other, ""@) is None ==> {
            let values = domain::values_of(other);
            &&& values.first_response is None
            &&& values.stream_status is None
            &&& values.stream_errors is None
            &&& values.channels is None
            &&& values.channel_ids.len() == 0
            &&& values.error_code is None
            &&& values.status_code is None
        },
{
}

/// The channels of a retry list are read one by one, from the first to the last.
pub proof fn channels_are_read_in_order(other: Seq<char>, n: int, i: int)
    requires
        json::json_at(other, ""@) == Some(JsonValue::Object),
        json::json_at(other, "/admin_info/use_channel"@) == Some(JsonValue::Array(n)),
        0 <= i < n,
    ensures
        domain::values_of(other).channel_ids.len() == n,
        domain::values_of(other).channel_ids[i] == json::json_at(
            other,
            "/admin_info/use_channel/"@ + decimal::decimal(i),
        ),
{
}

// ---------------------------------------------------------------------------
// The operation itself
// ---------------------------------------------------------------------------
/// A line becomes a sample exactly if it is a paid line or an error and names a model. The
/// sample has the line's group where it says something, and only otherwise goes under the
/// unknown route; its times, tokens and names are the line's.
pub proof fn lines_become_samples(remote: RemoteLog, r: Option<LogSample>)
    requires
        call_ensures(LogSample::from_remote, (remote,), r),
    ensures
        r is Some <==> (remote.log_type == 2 || remote.log_type == 5) && says_something(
            remote.model_name@,
        ),
        r matches Some(sample) ==> {
            &&& says_something(remote.group@) ==> sample.group_name@ == remote.group@
            &&& !says_something(remote.group@) ==> sample.group_name@ == "自动路由/未确认"@
            &&& remote.log_type == 2 <==> sample.kind == SampleKind::Consume
            &&& sample.model_name@ == remote.model_name@
            &&& sample.created_at == remote.created_at
            &&& sample.source_log_id == remote.id
            &&& sample.channel_id == remote.channel_id
            &&& sample.prompt_tokens == remote.prompt_tokens
            &&& sample.completion_tokens == remote.completion_tokens
            &&& sample.is_stream == remote.is_stream
            &&& says_something(remote.request_id@) ==> sample.request_id@ == remote.request_id@
            &&& 0 <= remote.use_time <= 0x20_0000_0000_0000 ==> sample.total_ms == Some(
                (remote.use_time * 1000) as i64,
            )
            &&& remote.use_time < 0 ==> sample.total_ms is None
            &&& sample.is_of(remote, domain::values_of(remote.other@))
        },
{
    paid_lines_and_errors_are_kept(remote);
}

/// The same holds of a line whose details were read before.
pub proof fn lines_with_details_become_samples(
    remote: RemoteLog,
    fields: OtherFields,
    r: Option<LogSample>,
)
    requires
        call_ensures(LogSample::assemble, (remote, &fields), r),
    ensures
        r is Some <==> (remote.log_type == 2 || remote.log_type == 5) && says_something(
            remote.model_name@,
        ),
        r matches Some(sample) ==> {
            &&& says_something(remote.group@) ==> sample.group_name@ == remote.group@
            &&& !says_something(remote.group@) ==> sample.group_name@ == "自动路由/未确认"@
            &&& sample.is_of(remote, fields.view())
        },
{
    paid_lines_and_errors_are_kept(remote);
}

/// A kept message is the content without secrets, cut to 256 characters.
pub proof fn messages_are_cleaned(value: &str, r: String)
    requires
        call_ensures(domain::redact_error, (value,), r),
    ensures
        r@ == text::first_chars(redaction::without_secrets(value@), 256),
        r@.len() <= 256,
{
}

/// The two kinds of lines go by the numbers of their types in the log.
pub proof fn kinds_have_numbers(kind: SampleKind, r: i64)
    requires
        call_ensures(SampleKind::as_i64, (kind,), r),
    ensures
        kind == SampleKind::Consume ==> r == 2,
        kind == SampleKind::Error ==> r == 5,
{
}

/// A chain is read out of a list of channels: each id that is a positive number, in digits
/// and with arrows between them, up to sixteen.
pub proof fn chains_are_read(values: Vec<Option<JsonLeaf>>, r: String, first: i64, second: i64)
    requires
        call_ensures(domain::retry_chain, (&values,), r),
        values@.len() == 2,
        json::said(values@[0]) matches Some(JsonValue::Number { integer, .. }) && integer == Some(
            first,
        ),
        json::said(values@[1]) matches Some(JsonValue::Number { integer, .. }) && integer == Some(
            second,
        ),
    ensures
        first > 0 && second > 0 ==> r@ == decimal::decimal(first as int) + "->"@ + decimal::decimal(
            second as int,
        ),
        first > 0 && second <= 0 ==> r@ == decimal::decimal(first as int),
        first <= 0 && second <= 0 ==> r@.len() == 0,
{
    let told = domain::all_said(values@);
    let none = Seq::<Option<JsonValue>>::empty();
    assert(told =~= none.push(told[0]).push(told[1]));
    chains_grow_channel_by_channel(none, told[0], first);
    chains_grow_channel_by_channel(none.push(told[0]), told[1], second);
    chains_are_written_with_arrows(Seq::empty(), first as int);
    let hops = domain::hops_of(none.push(told[0]));
    if first > 0 {
        assert(hops =~= seq![first as int]);
        chains_are_written_with_arrows(hops, second as int);
    } else {
        assert(hops =~= Seq::empty());
        if second <= 0 {
            assert(domain::hops_of(told) =~= Seq::empty());
        }
    }
}

/// Lines of different requests are told apart: paid lines by the id of the request alone,
/// failed attempts as long as no id holds a bar.
pub proof fn requests_are_told_apart(
    a: LogSample,
    b: LogSample,
    first: Seq<char>,
    second: Seq<char>,
)
    ensures
        a.kind == SampleKind::Consume && b.kind == SampleKind::Consume ==> (domain::identity(
            a,
            first,
        ) == domain::identity(b, second) <==> a.request_id@ == b.request_id@),
        domain::has_no_bar(a.request_id@) && domain::has_no_bar(b.request_id@) && a.request_id@
            != b.request_id@ ==> domain::identity(a, first) != domain::identity(b, second),
{
    reveal_strlit("|2");
    reveal_strlit("|5|");
    let x = domain::identity(a, first);
    let y = domain::identity(b, second);
    let n = a.request_id@.len() as int;
    let m = b.request_id@.len() as int;
    assert(x.subrange(0, n) =~= a.request_id@);
    assert(y.subrange(0, m) =~= b.request_id@);
    assert(x[n] == '|' && y[m] == '|');
    if x == y {
        if a.kind == SampleKind::Consume && b.kind == SampleKind::Consume {
            assert(n == m);
        }
        if domain::has_no_bar(a.request_id@) && domain::has_no_bar(b.request_id@) {
            if n < m {
                assert(y.subrange(0, m)[n] == b.request_id@[n]);
            } else if m < n {
                assert(x.subrange(0, n)[m] == a.request_id@[m]);
            }
        }
    }
}

/// The key of a line is made of all that tells it apart from others.
pub proof fn keys_are_of_the_identity(
    sample: LogSample,
    content: &str,
    r: String,
    request: &str,
    upstream: &str,
)
    requires
        request@ == sample.request_id@,
        upstream@ == sample.upstream_request_id@,
        call_ensures(
            domain::sample_key,
            (
                request,
                sample.kind,
                sample.channel_id,
                sample.attempt_index,
                sample.created_at,
                upstream,
                content,
            ),
            r,
        ),
    ensures
        r@ == domain::sha256_hex(domain::identity(sample, content@)),
{
}

} // verus!
