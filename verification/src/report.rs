//! Reports: what is shown in chat.
use vstd::prelude::*;
use vstd::string::*;

use crate::api::{PerfMetricData, PerfMetricGroup};
use crate::config::{AppConfig, ModelConfig};
use crate::decimal;
use crate::double;
use crate::double::Double;
use crate::metrics;
use crate::metrics::{GroupReport, HealthStatus, ModelReport, WindowSnapshot};
use crate::num;
use crate::repository::DatabaseStats;
use crate::state::CollectorHealth;
use crate::text;

verus! {

// ---------------------------------------------------------------------------
// Times
// ---------------------------------------------------------------------------
/// The seconds by which times are shown later than UTC.
pub const DISPLAY_OFFSET: i32 = 28_800;

/// The text that `chrono` gives to a time, `offset` seconds east of UTC, in the
/// format `pattern`; nothing where the time is out of its range.
pub uninterp spec fn time_text(
    timestamp: i64,
    offset: i32,
    pattern: Seq<char>,
) -> Option<Seq<char>>;

/// Two decimal digits.
pub open spec fn two_digits(n: int) -> Seq<char> {
    seq![decimal::digit_char(n / 10), decimal::digit_char(n % 10)]
}

/// The time of day at `second` seconds after some midnight, as hours, minutes and
/// seconds.
pub open spec fn clock_text(second: int) -> Seq<char> {
    let s = second % 86_400;
    two_digits(s / 3_600) + seq![':'] + two_digits(s / 60 % 60) + seq![':'] + two_digits(s % 60)
}

/// Whether `s` ends in `end`.
pub open spec fn ends_in(s: Seq<char>, end: Seq<char>) -> bool {
    s.len() >= end.len() && s.skip(s.len() - end.len()) == end
}

/// Shows a time with `chrono::DateTime::from_timestamp`, `with_timezone` and
/// `format`. The text is named; of the two formats that are asked for it is claimed
/// that it ends in the time of day at that offset, and that the shorter one is
/// nothing else.
#[verifier::external_body]
fn show_time(timestamp: i64, offset: i32, pattern: &str) -> (r: Option<String>)
    requires
        pattern@ == "%m-%d %H:%M:%S"@ || pattern@ == "%H:%M:%S"@,
    ensures
        match r {
            Some(s) => time_text(timestamp, offset, pattern@) == Some(s@) && ends_in(
                s@,
                clock_text(timestamp + offset),
            ) && (pattern@ == "%H:%M:%S"@ ==> s@ == clock_text(timestamp + offset)),
            None => time_text(timestamp, offset, pattern@) is None,
        },
{
    let zone = chrono::FixedOffset::east_opt(offset)?;
    let time = chrono::DateTime::from_timestamp(timestamp, 0)?;
    Some(time.with_timezone(&zone).format(pattern).to_string())
}

/// How a time is shown: not at all before 1970, as a number where it is out of
/// range.
pub open spec fn shown_time(timestamp: i64, pattern: Seq<char>) -> Seq<char> {
    shown(timestamp, time_text(timestamp, DISPLAY_OFFSET, pattern))
}

/// How a time is shown for which there is this text.
pub open spec fn shown(timestamp: i64, text: Option<Seq<char>>) -> Seq<char> {
    if timestamp <= 0 {
        "--"@
    } else {
        match text {
            Some(s) => s,
            None => decimal::decimal(timestamp as int),
        }
    }
}

/// How a day and a time of day are shown.
pub open spec fn timestamp_text(timestamp: i64) -> Seq<char> {
    shown_time(timestamp, "%m-%d %H:%M:%S"@)
}

/// How a time of day is shown.
pub open spec fn daytime_text(timestamp: i64) -> Seq<char> {
    shown_time(timestamp, "%H:%M:%S"@)
}

/// The text of a time for which there is `text`.
pub fn time_or_number(timestamp: i64, text: Option<String>) -> (r: String)
    ensures
        r@ == shown(
            timestamp,
            match text {
                Some(s) => Some(s@),
                None => None,
            },
        ),
{
    if timestamp <= 0 {
        return "--".to_string();
    }
    match text {
        Some(s) => s,
        None => decimal::to_decimal(timestamp),
    }
}

/// The day and the time of day of a time, eight hours later than UTC.
pub fn format_timestamp(timestamp: i64) -> (r: String)
    ensures
        r@ == timestamp_text(timestamp),
        timestamp > 0 && time_text(timestamp, DISPLAY_OFFSET, "%m-%d %H:%M:%S"@) is Some
            ==> ends_in(r@, clock_text(timestamp + 8 * 3_600)),
{
    time_or_number(timestamp, show_time(timestamp, DISPLAY_OFFSET, "%m-%d %H:%M:%S"))
}

/// The time of day of a time, eight hours later than UTC.
pub fn format_time(timestamp: i64) -> (r: String)
    ensures
        r@ == daytime_text(timestamp),
        timestamp > 0 && time_text(timestamp, DISPLAY_OFFSET, "%H:%M:%S"@) is Some ==> r@
            == clock_text(timestamp + 8 * 3_600),
{
    time_or_number(timestamp, show_time(timestamp, DISPLAY_OFFSET, "%H:%M:%S"))
}

/// The name of a window of time.
pub open spec fn window_name(window: i64) -> Seq<char> {
    if window == 60 {
        "近1分钟"@
    } else if window == 300 {
        "近5分钟"@
    } else if window == 600 {
        "近10分钟"@
    } else if window == 900 {
        "近15分钟"@
    } else if window == 3_600 {
        "近1小时"@
    } else if window == 86_400 {
        "近24小时"@
    } else if window == 604_800 {
        "近7天"@
    } else {
        "自定义窗口"@
    }
}

pub fn window_label(window: i64) -> (r: &'static str)
    ensures
        r@ == window_name(window),
{
    if window == 60 {
        "近1分钟"
    } else if window == 300 {
        "近5分钟"
    } else if window == 600 {
        "近10分钟"
    } else if window == 900 {
        "近15分钟"
    } else if window == 3_600 {
        "近1小时"
    } else if window == 86_400 {
        "近24小时"
    } else if window == 604_800 {
        "近7天"
    } else {
        "自定义窗口"
    }
}

// ---------------------------------------------------------------------------
// Durations and statuses
// ---------------------------------------------------------------------------
/// How a time in milliseconds is shown.
pub open spec fn duration_text(value: Option<i64>) -> Seq<char> {
    match value {
        None => "--"@,
        Some(ms) => if ms < 1_000 {
            decimal::decimal(ms as int) + "ms"@
        } else {
            (Double {
                bits: double::nearest_bits(double::nearest_integer(ms as int), 1_000) as u64,
            }).fixed(2) + "s"@
        },
    }
}

/// A time in milliseconds, or in seconds with two decimals.
pub fn format_duration(value: Option<i64>) -> (r: String)
    ensures
        r@ == duration_text(value),
{
    match value {
        None => "--".to_string(),
        Some(ms) => {
            if ms < 1_000 {
                let mut r = decimal::to_decimal(ms);
                r.append("ms");
                r
            } else {
                let mut r = double::thousandth(ms as u64).to_fixed(2);
                r.append("s");
                r
            }
        },
    }
}

/// How a total time in milliseconds is shown: in whole seconds.
pub open spec fn total_duration_text(value: Option<i64>) -> Seq<char> {
    match value {
        None => "--"@,
        Some(ms) => decimal::decimal(metrics::quotient(ms as int, 1_000)) + "s"@,
    }
}

/// A total time in whole seconds.
pub fn format_total_duration(value: Option<i64>) -> (r: String)
    ensures
        r@ == total_duration_text(value),
{
    match value {
        None => "--".to_string(),
        Some(ms) => {
            let seconds: i64 = if ms >= 0 {
                ms / 1_000
            } else {
                let size: i128 = -(ms as i128);
                (-(size / 1_000)) as i64
            };
            let mut r = decimal::to_decimal(seconds);
            r.append("s");
            r
        },
    }
}

/// The sign of a status.
pub open spec fn icon_of(status: HealthStatus) -> Seq<char> {
    match status {
        HealthStatus::Normal => "✅"@,
        HealthStatus::NoData => "✅"@,
        HealthStatus::InsufficientSamples => "◻️"@,
        HealthStatus::Degraded => "⚠️"@,
        HealthStatus::Abnormal => "❌"@,
        HealthStatus::Stale => "⏳"@,
    }
}

pub fn status_icon(status: HealthStatus) -> (r: &'static str)
    ensures
        r@ == icon_of(status),
{
    match status {
        HealthStatus::Normal => "✅",
        HealthStatus::NoData => "✅",
        HealthStatus::InsufficientSamples => "◻️",
        HealthStatus::Degraded => "⚠️",
        HealthStatus::Abnormal => "❌",
        HealthStatus::Stale => "⏳",
    }
}

/// The words for a status in a report: without samples nothing is wrong.
pub open spec fn status_words(status: HealthStatus) -> Seq<char> {
    match status {
        HealthStatus::NoData => "正常"@,
        _ => status.words(),
    }
}

pub fn status_label(status: HealthStatus) -> (r: &'static str)
    ensures
        r@ == status_words(status),
{
    match status {
        HealthStatus::NoData => "正常",
        _ => status.label(),
    }
}

// ---------------------------------------------------------------------------
// Selecting models
// ---------------------------------------------------------------------------
/// Whether a model goes by the name `query`.
pub open spec fn goes_by(model: ModelReport, query: Seq<char>) -> bool {
    text::lowered(model.model_name@) == text::lowered(query) || text::lowered(model.display_name@)
        == text::lowered(query)
}

/// What is asked for, where anything is.
pub open spec fn asked(query: Option<&str>) -> Option<Seq<char>> {
    match query {
        Some(q) => if text::trimmed(q@).len() == 0 {
            None
        } else {
            Some(text::trimmed(q@))
        },
        None => None,
    }
}

/// Whether the model at `i` is the first one that goes by the name `query`.
pub open spec fn is_first_by(models: Seq<ModelReport>, query: Seq<char>, i: int) -> bool {
    0 <= i < models.len() && goes_by(models[i], query) && forall|j: int|
        0 <= j < i ==> !#[trigger] goes_by(models[j], query)
}

/// Whether `chosen` are the models that are asked for: all, or the first one that
/// goes by the name.
pub open spec fn are_chosen(
    models: Seq<ModelReport>,
    query: Option<Seq<char>>,
    chosen: Seq<ModelReport>,
) -> bool {
    match query {
        None => chosen == models,
        Some(q) => exists|i: int|
            #[trigger] is_first_by(models, q, i) && chosen == seq![models[i]],
    }
}

/// Whether something is asked for that no model goes by.
pub open spec fn is_unknown(models: Seq<ModelReport>, query: Option<Seq<char>>) -> bool {
    query is Some && forall|i: int|
        0 <= i < models.len() ==> !#[trigger] goes_by(models[i], query->0)
}

/// What is said of a model that is not on the list.
pub open spec fn unknown_model(query: Seq<char>) -> Seq<char> {
    "模型不在白名单中: "@ + query
}

/// The positions of the models that are asked for.
fn select_models(snapshot: &WindowSnapshot, query: Option<&str>) -> (r: Result<
    (usize, usize),
    String,
>)
    ensures
        match r {
            Ok((from, to)) => from <= to <= snapshot.models@.len() && are_chosen(
                snapshot.models@,
                asked(query),
                snapshot.models@.subrange(from as int, to as int),
            ),
            Err(error) => is_unknown(snapshot.models@, asked(query)) && error@ == unknown_model(
                asked(query)->0,
            ),
        },
{
    let wanted = match query {
        Some(q) => text::trim(q),
        None => String::new(),
    };
    if text::char_count(wanted.as_str()) == 0 {
        assert(snapshot.models@.subrange(0, snapshot.models@.len() as int) =~= snapshot.models@);
        return Ok((0, snapshot.models.len()));
    }
    let mut i: usize = 0;
    while i < snapshot.models.len()
        invariant
            i <= snapshot.models@.len(),
            asked(query) == Some(wanted@),
            forall|j: int| 0 <= j < i ==> !#[trigger] goes_by(snapshot.models@[j], wanted@),
        decreases snapshot.models@.len() - i,
    {
        if text::same_ignoring_case(snapshot.models[i].model_name.as_str(), wanted.as_str())
            || text::same_ignoring_case(
            snapshot.models[i].display_name.as_str(),
            wanted.as_str(),
        ) {
            assert(is_first_by(snapshot.models@, asked(query)->0, i as int));
            assert(snapshot.models@.subrange(i as int, i + 1) =~= seq![
                snapshot.models@[i as int],
            ]);
            return Ok((i, i + 1));
        }
        i = i + 1;
    }
    let mut error = "模型不在白名单中: ".to_string();
    error.append(wanted.as_str());
    Err(error)
}

// ---------------------------------------------------------------------------
// Cutting a report into messages
// ---------------------------------------------------------------------------
/// How a report goes on in its next message.
pub open spec fn continued(block: Seq<char>) -> Seq<char> {
    "📊 模型状态｜续\n\n"@ + block
}

/// The most characters of a message that holds more than it has to.
pub open spec fn chunk_limit(max_chars: int) -> int {
    if max_chars < 200 {
        200
    } else {
        max_chars
    }
}

/// The messages that are full, and the one that grows, after `blocks`.
pub open spec fn chunks_after(
    header: Seq<char>,
    blocks: Seq<Seq<char>>,
    max_chars: int,
) -> (Seq<Seq<char>>, Seq<char>)
    decreases blocks.len(),
{
    if blocks.len() == 0 {
        (Seq::empty(), header)
    } else {
        let (full, current) = chunks_after(header, blocks.drop_last(), max_chars);
        let block = blocks.last();
        if current.len() + 2 + block.len() > chunk_limit(max_chars) && current != header {
            (full.push(current), continued(block))
        } else {
            (full, current + "\n\n"@ + block)
        }
    }
}

/// The messages of a report.
pub open spec fn chunked(
    header: Seq<char>,
    blocks: Seq<Seq<char>>,
    max_chars: int,
) -> Seq<Seq<char>> {
    let (full, current) = chunks_after(header, blocks, max_chars);
    full.push(current)
}

/// Cuts a report into messages between its blocks.
pub fn chunk_reports(header: &str, blocks: &Vec<String>, max_chars: usize) -> (r: Vec<String>)
    ensures
        text::texts(r@) == chunked(header@, text::texts(blocks@), max_chars as int),
{
    let limit: usize = if max_chars < 200 {
        200
    } else {
        max_chars
    };
    let ghost all = text::texts(blocks@);
    let mut chunks: Vec<String> = Vec::new();
    let mut current = header.to_string();
    let mut i: usize = 0;
    assert(text::texts(chunks@) =~= Seq::<Seq<char>>::empty());
    while i < blocks.len()
        invariant
            i <= blocks@.len(),
            all == text::texts(blocks@),
            limit == chunk_limit(max_chars as int),
            (text::texts(chunks@), current@) == chunks_after(
                header@,
                all.take(i as int),
                max_chars as int,
            ),
        decreases blocks@.len() - i,
    {
        assert(all.take(i + 1).drop_last() == all.take(i as int));
        assert(all.take(i + 1).last() == blocks@[i as int]@);
        let block = blocks[i].as_str();
        let grown: u128 = text::char_count(current.as_str()) as u128 + 2 + text::char_count(
            block,
        ) as u128;
        if grown > limit as u128 && !text::same_text(current.as_str(), header) {
            let ghost before = text::texts(chunks@);
            let ghost full = current@;
            chunks.push(current);
            assert(text::texts(chunks@) =~= before.push(full));
            current = "📊 模型状态｜续\n\n".to_string();
            current.append(block);
        } else {
            current.append("\n\n");
            current.append(block);
        }
        i = i + 1;
    }
    assert(all.take(i as int) == all);
    let ghost before = text::texts(chunks@);
    let ghost rest = current@;
    chunks.push(current);
    assert(text::texts(chunks@) =~= before.push(rest));
    chunks
}

// ---------------------------------------------------------------------------
// The status of models
// ---------------------------------------------------------------------------
/// How a group is shown.
pub open spec fn group_text(group: GroupReport) -> Seq<char> {
    if group.metrics.requests == 0 {
        "\n✅ "@ + group.group_name@ + "｜正常"@
    } else {
        "\n"@ + icon_of(group.status) + " "@ + group.group_name@ + "｜成功"@
            + group.metrics.success_rate.fixed(2) + "%\n首字：均"@ + duration_text(
            group.metrics.avg_ttft_ms,
        ) + "｜中位"@ + duration_text(group.metrics.p50_ttft_ms) + "｜P95 "@ + duration_text(
            group.metrics.p95_ttft_ms,
        ) + "\n总耗：均"@ + total_duration_text(group.metrics.avg_total_ms) + "｜中位"@
            + total_duration_text(group.metrics.p50_total_ms) + "｜P95 "@ + total_duration_text(
            group.metrics.p95_total_ms,
        )
    }
}

/// How a number of groups is shown.
pub open spec fn groups_text(groups: Seq<GroupReport>) -> Seq<char>
    decreases groups.len(),
{
    if groups.len() == 0 {
        Seq::empty()
    } else {
        groups_text(groups.drop_last()) + group_text(groups.last())
    }
}

/// How a model is shown before its groups.
pub open spec fn model_head(model: ModelReport) -> Seq<char> {
    let line = icon_of(model.status) + " "@ + model.display_name@ + "｜"@ + status_words(
        model.status,
    );
    if model.overall.requests > 0 {
        line + "\n成功率"@ + model.overall.success_rate.fixed(2) + "%"@
    } else {
        line
    }
}

/// How a model is shown.
pub open spec fn model_text(model: ModelReport) -> Seq<char> {
    model_head(model) + groups_text(model.groups@)
}

fn format_group(group: &GroupReport) -> (r: String)
    ensures
        r@ == group_text(*group),
{
    let metrics = &group.metrics;
    if metrics.requests == 0 {
        let mut r = "\n✅ ".to_string();
        r.append(group.group_name.as_str());
        r.append("｜正常");
        return r;
    }
    let mut r = "\n".to_string();
    r.append(status_icon(group.status));
    r.append(" ");
    r.append(group.group_name.as_str());
    r.append("｜成功");
    r.append(metrics.success_rate.to_fixed(2).as_str());
    r.append("%\n首字：均");
    r.append(format_duration(metrics.avg_ttft_ms).as_str());
    r.append("｜中位");
    r.append(format_duration(metrics.p50_ttft_ms).as_str());
    r.append("｜P95 ");
    r.append(format_duration(metrics.p95_ttft_ms).as_str());
    r.append("\n总耗：均");
    r.append(format_total_duration(metrics.avg_total_ms).as_str());
    r.append("｜中位");
    r.append(format_total_duration(metrics.p50_total_ms).as_str());
    r.append("｜P95 ");
    r.append(format_total_duration(metrics.p95_total_ms).as_str());
    r
}

/// The text of a model and its groups.
pub fn format_model(model: &ModelReport) -> (r: String)
    ensures
        r@ == model_text(*model),
{
    let mut r = status_icon(model.status).to_string();
    r.append(" ");
    r.append(model.display_name.as_str());
    r.append("｜");
    r.append(status_label(model.status));
    if model.overall.requests > 0 {
        r.append("\n成功率");
        r.append(model.overall.success_rate.to_fixed(2).as_str());
        r.append("%");
    }
    let ghost head = r@;
    assert(head == model_head(*model));
    let mut i: usize = 0;
    assert(r@ =~= head + groups_text(model.groups@.take(0)));
    while i < model.groups.len()
        invariant
            i <= model.groups@.len(),
            r@ == head + groups_text(model.groups@.take(i as int)),
        decreases model.groups@.len() - i,
    {
        assert(model.groups@.take(i + 1).drop_last() == model.groups@.take(i as int));
        r.append(format_group(&model.groups[i]).as_str());
        assert(r@ =~= head + groups_text(model.groups@.take(i + 1)));
        i = i + 1;
    }
    assert(model.groups@.take(i as int) == model.groups@);
    r
}

/// Whether what was collected is too old at the time of a snapshot.
pub open spec fn is_stale(config: AppConfig, generated_at: i64, last_success_at: i64) -> bool {
    last_success_at == 0 || num::clamped(generated_at - last_success_at)
        > config.status.stale_after_secs
}

/// Whether what was collected is too old at the time of a snapshot.
pub fn data_is_stale(config: &AppConfig, generated_at: i64, last_success_at: i64) -> (r: bool)
    ensures
        r == is_stale(*config, generated_at, last_success_at),
{
    last_success_at == 0 || num::minus(generated_at, last_success_at)
        > config.status.stale_after_secs
}

/// The head of a status report, with the times of the snapshot and of the last
/// collection as they are shown.
pub open spec fn status_head(
    window: i64,
    generated: Seq<char>,
    collected: Seq<char>,
    stale: bool,
    last_error: Seq<char>,
) -> Seq<char> {
    let lines = "📊 模型状态｜"@ + window_name(window) + "\n🕒 "@ + generated + " - "@ + collected
        + "｜采集 "@ + if stale {
        "⏳数据过期"@
    } else {
        "✅正常"@
    };
    if stale && last_error.len() > 0 {
        lines + "\n采集错误｜"@ + text::first_chars(last_error, 160)
    } else {
        lines
    }
}

/// The head of a status report.
pub fn status_header(
    window: i64,
    generated: &str,
    collected: &str,
    stale: bool,
    last_error: &str,
) -> (r: String)
    ensures
        r@ == status_head(window, generated@, collected@, stale, last_error@),
{
    let mut r = "📊 模型状态｜".to_string();
    r.append(window_label(window));
    r.append("\n🕒 ");
    r.append(generated);
    r.append(" - ");
    r.append(collected);
    r.append("｜采集 ");
    r.append(
        if stale {
            "⏳数据过期"
        } else {
            "✅正常"
        },
    );
    if stale && text::char_count(last_error) > 0 {
        r.append("\n采集错误｜");
        r.append(text::truncate(last_error, 160).as_str());
    }
    r
}

/// The texts of a number of models.
pub open spec fn model_texts(models: Seq<ModelReport>) -> Seq<Seq<char>> {
    models.map_values(|m: ModelReport| model_text(m))
}

/// The status of the models that are asked for.
pub fn format_status(
    config: &AppConfig,
    snapshot: &WindowSnapshot,
    health: &CollectorHealth,
    model_query: Option<&str>,
) -> (r: Result<Vec<String>, String>)
    ensures
        match r {
            Ok(chunks) => exists|chosen: Seq<ModelReport>|
                #[trigger] are_chosen(snapshot.models@, asked(model_query), chosen)
                    && text::texts(chunks@) == chunked(
                    status_head(
                        snapshot.window_seconds,
                        timestamp_text(snapshot.generated_at),
                        daytime_text(health.last_success_at),
                        is_stale(*config, snapshot.generated_at, health.last_success_at),
                        health.last_error@,
                    ),
                    model_texts(chosen),
                    config.bot.max_message_chars as int,
                ),
            Err(error) => is_unknown(snapshot.models@, asked(model_query)) && error@
                == unknown_model(asked(model_query)->0),
        },
{
    let (from, to) = match select_models(snapshot, model_query) {
        Ok(range) => range,
        Err(error) => {
            return Err(error);
        },
    };
    let ghost chosen = snapshot.models@.subrange(from as int, to as int);
    let stale = data_is_stale(config, snapshot.generated_at, health.last_success_at);
    let header = status_header(
        snapshot.window_seconds,
        format_timestamp(snapshot.generated_at).as_str(),
        format_time(health.last_success_at).as_str(),
        stale,
        health.last_error.as_str(),
    );
    let mut blocks: Vec<String> = Vec::new();
    let mut i: usize = from;
    while i < to
        invariant
            from <= i <= to <= snapshot.models@.len(),
            chosen == snapshot.models@.subrange(from as int, to as int),
            text::texts(blocks@) == model_texts(chosen.take(i - from)),
        decreases to - i,
    {
        let ghost before = text::texts(blocks@);
        blocks.push(format_model(&snapshot.models[i]));
        assert(text::texts(blocks@) =~= before.push(model_text(snapshot.models@[i as int])));
        assert(text::texts(blocks@) =~= model_texts(chosen.take(i + 1 - from)));
        i = i + 1;
    }
    assert(chosen.take(to - from) == chosen);
    Ok(chunk_reports(header.as_str(), &blocks, config.bot.max_message_chars))
}

// ---------------------------------------------------------------------------
// The list of models
// ---------------------------------------------------------------------------
/// How a model on the list is shown.
pub open spec fn listed_model(model: ModelConfig) -> Seq<char> {
    "- "@ + metrics::shown_name(model) + " ("@ + model.name@ + ")\n  分组: "@
        + if model.groups@.len() == 0 {
        "全部已发现分组"@
    } else {
        text::joined(text::texts(model.groups@), "、"@)
    }
}

/// The list of models, with the time of the snapshot as it is shown.
pub open spec fn listed_models(models: Seq<ModelConfig>, generated: Seq<char>) -> Seq<Seq<char>> {
    models.map_values(|m: ModelConfig| listed_model(m)).push("快照时间: "@ + generated)
}

/// The head of the list of models.
pub open spec fn list_head(count: int) -> Seq<char> {
    "[模型监控白名单]\n共 "@ + decimal::digits(count as nat) + " 个模型"@
}

fn format_listed_model(model: &ModelConfig) -> (r: String)
    ensures
        r@ == listed_model(*model),
{
    let mut r = "- ".to_string();
    if text::char_count(model.display_name.as_str()) == 0 {
        r.append(model.name.as_str());
    } else {
        r.append(model.display_name.as_str());
    }
    r.append(" (");
    r.append(model.name.as_str());
    r.append(")\n  分组: ");
    if model.groups.len() == 0 {
        r.append("全部已发现分组");
    } else {
        r.append(text::join(&model.groups, "、").as_str());
    }
    r
}

/// The list of models, with the time of the snapshot as it is shown.
pub fn list_models(config: &AppConfig, generated: &str) -> (r: Vec<String>)
    ensures
        text::texts(r@) == chunked(
            list_head(config.models@.len() as int),
            listed_models(config.models@, generated@),
            config.bot.max_message_chars as int,
        ),
{
    let mut header = "[模型监控白名单]\n共 ".to_string();
    header.append(decimal::digits_of(config.models.len() as u128).as_str());
    header.append(" 个模型");
    let ghost all = config.models@.map_values(|m: ModelConfig| listed_model(m));
    let mut blocks: Vec<String> = Vec::new();
    let mut i: usize = 0;
    assert(text::texts(blocks@) =~= all.take(0));
    while i < config.models.len()
        invariant
            i <= config.models@.len(),
            all == config.models@.map_values(|m: ModelConfig| listed_model(m)),
            text::texts(blocks@) == all.take(i as int),
        decreases config.models@.len() - i,
    {
        let ghost before = text::texts(blocks@);
        blocks.push(format_listed_model(&config.models[i]));
        assert(text::texts(blocks@) =~= before.push(all[i as int]));
        assert(text::texts(blocks@) =~= all.take(i + 1));
        i = i + 1;
    }
    let mut last = "快照时间: ".to_string();
    last.append(generated);
    let ghost last_text = last@;
    assert(all.take(i as int) =~= all);
    blocks.push(last);
    assert(text::texts(blocks@) =~= all.push(last_text));
    chunk_reports(header.as_str(), &blocks, config.bot.max_message_chars)
}

/// The list of models.
pub fn format_model_list(config: &AppConfig, generated_at: i64) -> (r: Vec<String>)
    ensures
        text::texts(r@) == chunked(
            list_head(config.models@.len() as int),
            listed_models(config.models@, timestamp_text(generated_at)),
            config.bot.max_message_chars as int,
        ),
{
    list_models(config, format_timestamp(generated_at).as_str())
}

// ---------------------------------------------------------------------------
// Errors
// ---------------------------------------------------------------------------
/// How the first `count` entries of a tally are shown, each between `before`,
/// `between` and `after`.
pub open spec fn tally_text(
    tally: Seq<(String, u64)>,
    count: int,
    before: Seq<char>,
    between: Seq<char>,
    after: Seq<char>,
) -> Seq<char>
    decreases count,
{
    if count <= 0 {
        Seq::empty()
    } else {
        tally_text(tally, count - 1, before, between, after) + before + tally[count - 1].0@
            + between + decimal::digits(tally[count - 1].1 as nat) + after
    }
}

/// The smaller of two numbers.
pub open spec fn at_most(n: nat, limit: int) -> int {
    if n < limit {
        n as int
    } else {
        limit
    }
}

fn format_tally(
    tally: &Vec<(String, u64)>,
    limit: usize,
    before: &str,
    between: &str,
    after: &str,
) -> (r: String)
    ensures
        r@ == tally_text(
            tally@,
            at_most(tally@.len(), limit as int),
            before@,
            between@,
            after@,
        ),
{
    let mut r = String::new();
    let mut i: usize = 0;
    while i < tally.len() && i < limit
        invariant
            i <= tally@.len(),
            i <= limit,
            r@ == tally_text(tally@, i as int, before@, between@, after@),
        decreases tally@.len() - i,
    {
        r.append(before);
        r.append(tally[i].0.as_str());
        r.append(between);
        r.append(decimal::digits_of(tally[i].1 as u128).as_str());
        r.append(after);
        i = i + 1;
    }
    r
}

/// How the errors of a model are shown.
pub open spec fn errors_text(model: ModelReport) -> Seq<char> {
    let codes = model.overall.error_codes@;
    let chains = model.overall.retry_channel_chains@;
    model.display_name@ + (if codes.len() == 0 {
        "\n  暂无终态错误分类"@
    } else {
        tally_text(codes, at_most(codes.len(), 5), "\n  "@, ": "@, ""@)
    }) + tally_text(chains, at_most(chains.len(), 3), "\n  重试链 "@, ": "@, " 次"@)
        + "\n  请求错误率 "@ + model.overall.error_rate.fixed(2) + "% | 尝试错误率 "@
        + model.overall.attempt_error_rate.fixed(2) + "%"@
}

/// The text of the errors of a model.
pub fn format_model_errors(model: &ModelReport) -> (r: String)
    ensures
        r@ == errors_text(*model),
{
    let mut r = model.display_name.clone();
    if model.overall.error_codes.len() == 0 {
        r.append("\n  暂无终态错误分类");
    } else {
        r.append(format_tally(&model.overall.error_codes, 5, "\n  ", ": ", "").as_str());
    }
    r.append(
        format_tally(
            &model.overall.retry_channel_chains,
            3,
            "\n  重试链 ",
            ": ",
            " 次",
        ).as_str(),
    );
    r.append("\n  请求错误率 ");
    r.append(model.overall.error_rate.to_fixed(2).as_str());
    r.append("% | 尝试错误率 ");
    r.append(model.overall.attempt_error_rate.to_fixed(2).as_str());
    r.append("%");
    r
}

/// The texts of the errors of a number of models.
pub open spec fn error_texts(models: Seq<ModelReport>) -> Seq<Seq<char>> {
    models.map_values(|m: ModelReport| errors_text(m))
}

/// The errors of the models that are asked for.
pub fn format_errors(
    config: &AppConfig,
    snapshot: &WindowSnapshot,
    model_query: Option<&str>,
) -> (r: Result<Vec<String>, String>)
    ensures
        match r {
            Ok(chunks) => exists|chosen: Seq<ModelReport>|
                #[trigger] are_chosen(snapshot.models@, asked(model_query), chosen)
                    && text::texts(chunks@) == chunked(
                    "[模型异常摘要] "@ + window_name(snapshot.window_seconds),
                    error_texts(chosen),
                    config.bot.max_message_chars as int,
                ),
            Err(error) => is_unknown(snapshot.models@, asked(model_query)) && error@
                == unknown_model(asked(model_query)->0),
        },
{
    let (from, to) = match select_models(snapshot, model_query) {
        Ok(range) => range,
        Err(error) => {
            return Err(error);
        },
    };
    let ghost chosen = snapshot.models@.subrange(from as int, to as int);
    let mut header = "[模型异常摘要] ".to_string();
    header.append(window_label(snapshot.window_seconds));
    let mut blocks: Vec<String> = Vec::new();
    let mut i: usize = from;
    while i < to
        invariant
            from <= i <= to <= snapshot.models@.len(),
            chosen == snapshot.models@.subrange(from as int, to as int),
            text::texts(blocks@) == error_texts(chosen.take(i - from)),
        decreases to - i,
    {
        let ghost before = text::texts(blocks@);
        blocks.push(format_model_errors(&snapshot.models[i]));
        assert(text::texts(blocks@) =~= before.push(errors_text(snapshot.models@[i as int])));
        assert(text::texts(blocks@) =~= error_texts(chosen.take(i + 1 - from)));
        i = i + 1;
    }
    assert(chosen.take(to - from) == chosen);
    Ok(chunk_reports(header.as_str(), &blocks, config.bot.max_message_chars))
}

// ---------------------------------------------------------------------------
// The health of the collector
// ---------------------------------------------------------------------------
/// How pushing is doing, with the time of the last push as it is shown.
pub open spec fn push_text(
    enabled: bool,
    targets_configured: bool,
    pushed: bool,
    last_push: Seq<char>,
) -> Seq<char> {
    if !enabled {
        "未启用"@
    } else if !targets_configured {
        "推送未配置"@
    } else if !pushed {
        "已配置，等待状态确认"@
    } else {
        "最后入队 "@ + last_push
    }
}

/// When the last heartbeat came in, as it is shown.
pub open spec fn heartbeat_text(received: bool, last_heartbeat: Seq<char>) -> Seq<char> {
    if !received {
        "未收到"@
    } else {
        "最后收到 "@ + last_heartbeat
    }
}

/// How the collector is doing, with its times as they are shown.
pub open spec fn health_text(
    database: DatabaseStats,
    failures: u32,
    last_error: Seq<char>,
    database_path: Seq<char>,
    started: Seq<char>,
    attempted: Seq<char>,
    succeeded: Seq<char>,
    push: Seq<char>,
    heartbeat: Seq<char>,
) -> Seq<char> {
    "[监控健康]\n数据库: "@ + database_path + "\n启动时间: "@ + started + "\n最后尝试: "@ + attempted
        + "\n最后成功: "@ + succeeded + "\n连续失败: "@ + decimal::decimal(failures as int)
        + "\n日志样本: "@ + decimal::decimal(database.sample_count as int) + "\n请求结果: "@
        + decimal::decimal(database.outcome_count as int) + "\n推送: "@ + push + "\n心跳: "@ + heartbeat
        + "\n状态: "@ + if last_error.len() == 0 {
        "正常"@
    } else {
        last_error
    }
}

/// The health of the collector.
pub fn format_health(
    database: &DatabaseStats,
    health: &CollectorHealth,
    database_path: &str,
    push_enabled: bool,
    targets_configured: bool,
    last_push_at: i64,
    last_heartbeat_at: i64,
) -> (r: String)
    ensures
        r@ == health_text(
            *database,
            health.consecutive_failures,
            health.last_error@,
            database_path@,
            timestamp_text(health.started_at),
            timestamp_text(health.last_attempt_at),
            timestamp_text(health.last_success_at),
            push_text(
                push_enabled,
                targets_configured,
                last_push_at != 0,
                timestamp_text(last_push_at),
            ),
            heartbeat_text(last_heartbeat_at != 0, timestamp_text(last_heartbeat_at)),
        ),
{
    let mut push = String::new();
    if !push_enabled {
        push.append("未启用");
    } else if !targets_configured {
        push.append("推送未配置");
    } else if last_push_at == 0 {
        push.append("已配置，等待状态确认");
    } else {
        push.append("最后入队 ");
        push.append(format_timestamp(last_push_at).as_str());
    }
    let mut heartbeat = String::new();
    if last_heartbeat_at == 0 {
        heartbeat.append("未收到");
    } else {
        heartbeat.append("最后收到 ");
        heartbeat.append(format_timestamp(last_heartbeat_at).as_str());
    }
    assert(push@ =~= push_text(
        push_enabled,
        targets_configured,
        last_push_at != 0,
        timestamp_text(last_push_at),
    ));
    assert(heartbeat@ =~= heartbeat_text(
        last_heartbeat_at != 0,
        timestamp_text(last_heartbeat_at),
    ));
    describe_health(
        database,
        health,
        database_path,
        format_timestamp(health.started_at).as_str(),
        format_timestamp(health.last_attempt_at).as_str(),
        format_timestamp(health.last_success_at).as_str(),
        push.as_str(),
        heartbeat.as_str(),
    )
}

/// The health of the collector, with its times as they are shown.
pub fn describe_health(
    database: &DatabaseStats,
    health: &CollectorHealth,
    database_path: &str,
    started: &str,
    attempted: &str,
    succeeded: &str,
    push: &str,
    heartbeat: &str,
) -> (r: String)
    ensures
        r@ == health_text(
            *database,
            health.consecutive_failures,
            health.last_error@,
            database_path@,
            started@,
            attempted@,
            succeeded@,
            push@,
            heartbeat@,
        ),
{
    let mut r = "[监控健康]\n数据库: ".to_string();
    r.append(database_path);
    r.append("\n启动时间: ");
    r.append(started);
    r.append("\n最后尝试: ");
    r.append(attempted);
    r.append("\n最后成功: ");
    r.append(succeeded);
    r.append("\n连续失败: ");
    r.append(decimal::to_decimal(health.consecutive_failures as i64).as_str());
    r.append("\n日志样本: ");
    r.append(decimal::to_decimal(database.sample_count).as_str());
    r.append("\n请求结果: ");
    r.append(decimal::to_decimal(database.outcome_count).as_str());
    r.append("\n推送: ");
    r.append(push);
    r.append("\n心跳: ");
    r.append(heartbeat);
    r.append("\n状态: ");
    if text::char_count(health.last_error.as_str()) == 0 {
        r.append("正常");
    } else {
        r.append(health.last_error.as_str());
    }
    r
}

// ---------------------------------------------------------------------------
// Public metrics
// ---------------------------------------------------------------------------
/// How the public metrics of a group are shown.
pub open spec fn perf_group_text(group: PerfMetricGroup) -> Seq<char> {
    "\n"@ + group.group@ + "\n  成功 "@ + group.success_rate.fixed(2) + "% | 首字 "@
        + (if group.avg_ttft_ms > 0 {
        duration_text(Some(group.avg_ttft_ms))
    } else {
        "--"@
    }) + " | 总耗时 "@ + duration_text(Some(group.avg_latency_ms)) + " | "@ + group.avg_tps.fixed(1)
        + " tok/s"@
}

/// How the public metrics of a number of groups are shown.
pub open spec fn perf_groups_text(groups: Seq<PerfMetricGroup>) -> Seq<char>
    decreases groups.len(),
{
    if groups.len() == 0 {
        Seq::empty()
    } else {
        perf_groups_text(groups.drop_last()) + perf_group_text(groups.last())
    }
}

/// How the public metrics of a model are shown.
pub open spec fn perf_text(data: PerfMetricData, hours: u32) -> Seq<char> {
    let head = "[模型广场参考] "@ + data.model_name@ + " | 近"@ + decimal::decimal(hours as int)
        + "小时"@;
    if data.groups@.len() == 0 {
        head + "\n暂无公开分组样本"@
    } else {
        head + perf_groups_text(data.groups@) + "\n注: 广场指标不与本地日志统计混算"@
    }
}

fn format_perf_group(group: &PerfMetricGroup) -> (r: String)
    ensures
        r@ == perf_group_text(*group),
{
    let mut r = "\n".to_string();
    r.append(group.group.as_str());
    r.append("\n  成功 ");
    r.append(group.success_rate.to_fixed(2).as_str());
    r.append("% | 首字 ");
    if group.avg_ttft_ms > 0 {
        r.append(format_duration(Some(group.avg_ttft_ms)).as_str());
    } else {
        r.append("--");
    }
    r.append(" | 总耗时 ");
    r.append(format_duration(Some(group.avg_latency_ms)).as_str());
    r.append(" | ");
    r.append(group.avg_tps.to_fixed(1).as_str());
    r.append(" tok/s");
    r
}

/// The public metrics of a model.
pub fn format_perf_metrics(data: &PerfMetricData, hours: u32) -> (r: String)
    ensures
        r@ == perf_text(*data, hours),
{
    let mut r = "[模型广场参考] ".to_string();
    r.append(data.model_name.as_str());
    r.append(" | 近");
    r.append(decimal::to_decimal(hours as i64).as_str());
    r.append("小时");
    if data.groups.len() == 0 {
        r.append("\n暂无公开分组样本");
        return r;
    }
    let ghost head = r@;
    let mut i: usize = 0;
    assert(r@ =~= head + perf_groups_text(data.groups@.take(0)));
    while i < data.groups.len()
        invariant
            i <= data.groups@.len(),
            r@ == head + perf_groups_text(data.groups@.take(i as int)),
        decreases data.groups@.len() - i,
    {
        assert(data.groups@.take(i + 1).drop_last() == data.groups@.take(i as int));
        r.append(format_perf_group(&data.groups[i]).as_str());
        assert(r@ =~= head + perf_groups_text(data.groups@.take(i + 1)));
        i = i + 1;
    }
    assert(data.groups@.take(i as int) == data.groups@);
    r.append("\n注: 广场指标不与本地日志统计混算");
    r
}

// ---------------------------------------------------------------------------
// Laws
// ---------------------------------------------------------------------------
/// A number of blocks, each after an empty line.
pub open spec fn spread(blocks: Seq<Seq<char>>) -> Seq<char>
    decreases blocks.len(),
{
    if blocks.len() == 0 {
        Seq::empty()
    } else {
        spread(blocks.drop_last()) + "\n\n"@ + blocks.last()
    }
}

/// The head of the message at `k`.
pub open spec fn chunk_head(header: Seq<char>, k: int) -> Seq<char> {
    if k == 0 {
        header
    } else {
        "📊 模型状态｜续"@
    }
}

/// Whether the message at `k` holds the blocks from `from` to `to`, at least one of
/// them where there are any, and keeps the limit where it holds more than one.
pub open spec fn holds_blocks(
    header: Seq<char>,
    blocks: Seq<Seq<char>>,
    limit: int,
    chunk: Seq<char>,
    k: int,
    from: int,
    to: int,
) -> bool {
    &&& 0 <= from <= to <= blocks.len()
    &&& blocks.len() > 0 ==> from < to
    &&& chunk == chunk_head(header, k) + spread(blocks.subrange(from, to))
    &&& to - from >= 2 ==> chunk.len() <= limit
}

/// Whether `chunks` are `blocks` cut at `cuts`, and only where the next block would
/// not have kept the limit.
pub open spec fn is_cut_at(
    header: Seq<char>,
    blocks: Seq<Seq<char>>,
    limit: int,
    chunks: Seq<Seq<char>>,
    cuts: Seq<int>,
) -> bool {
    &&& cuts.len() == chunks.len() + 1
    &&& cuts[0] == 0
    &&& cuts.last() == blocks.len()
    &&& forall|k: int|
        0 <= k < chunks.len() ==> holds_blocks(
            header,
            blocks,
            limit,
            #[trigger] chunks[k],
            k,
            cuts[k],
            cuts[k + 1],
        )
    &&& forall|k: int|
        0 <= k < chunks.len() - 1 ==> (#[trigger] chunks[k]).len() + 2 + blocks[cuts[k + 1]].len()
            > limit
}

proof fn more_blocks_follow(
    header: Seq<char>,
    blocks: Seq<Seq<char>>,
    limit: int,
    chunk: Seq<char>,
    k: int,
    from: int,
    to: int,
)
    requires
        blocks.len() > 1,
        holds_blocks(header, blocks.drop_last(), limit, chunk, k, from, to),
    ensures
        holds_blocks(header, blocks, limit, chunk, k, from, to),
{
    assert(blocks.drop_last().subrange(from, to) =~= blocks.subrange(from, to));
}

proof fn block_starts_chunk(header: Seq<char>, blocks: Seq<Seq<char>>, limit: int, k: int)
    requires
        blocks.len() > 0,
        k > 0,
    ensures
        holds_blocks(
            header,
            blocks,
            limit,
            continued(blocks.last()),
            k,
            blocks.len() - 1,
            blocks.len() as int,
        ),
{
    reveal_strlit("📊 模型状态｜续\n\n");
    reveal_strlit("📊 模型状态｜续");
    reveal_strlit("\n\n");
    let only = blocks.subrange(blocks.len() - 1, blocks.len() as int);
    assert(only.drop_last() =~= Seq::<Seq<char>>::empty());
    assert(spread(only.drop_last()) == Seq::<char>::empty());
    assert(spread(only) =~= "\n\n"@ + blocks.last());
    assert("📊 模型状态｜续\n\n"@ =~= "📊 模型状态｜续"@ + "\n\n"@);
    assert(continued(blocks.last()) =~= "📊 模型状态｜续"@ + spread(only));
}

proof fn block_joins_chunk(
    header: Seq<char>,
    blocks: Seq<Seq<char>>,
    limit: int,
    chunk: Seq<char>,
    k: int,
    from: int,
)
    requires
        blocks.len() > 0,
        k >= 0,
        !text::stands_at(header, "📊 模型状态｜续"@, 0),
        holds_blocks(header, blocks.drop_last(), limit, chunk, k, from, blocks.len() - 1),
        chunk.len() + 2 + blocks.last().len() <= limit || chunk == header,
    ensures
        holds_blocks(
            header,
            blocks,
            limit,
            chunk + "\n\n"@ + blocks.last(),
            k,
            from,
            blocks.len() as int,
        ),
{
    reveal_strlit("\n\n");
    let n = blocks.len() as int;
    let held = blocks.subrange(from, n);
    let shorter = blocks.drop_last().subrange(from, n - 1);
    let head = chunk_head(header, k);
    assert(held.drop_last() =~= shorter);
    assert(chunk + "\n\n"@ + blocks.last() =~= head + spread(held));
    if n - from >= 2 && chunk == header {
        assert(spread(shorter).len() >= 2);
        if k > 0 {
            assert(header.subrange(0, head.len() as int) =~= head);
        }
    }
}

/// Cutting a report into messages loses nothing: every block stands whole in one
/// message, after the others in their order, a message that holds more than one block
/// keeps the limit, and a new message begins only where the next block would break it.
pub proof fn chunks_keep_blocks_whole(
    header: Seq<char>,
    blocks: Seq<Seq<char>>,
    max_chars: int,
) -> (cuts: Seq<int>)
    requires
        !text::stands_at(header, "📊 模型状态｜续"@, 0),
    ensures
        is_cut_at(
            header,
            blocks,
            chunk_limit(max_chars),
            chunked(header, blocks, max_chars),
            cuts,
        ),
    decreases blocks.len(),
{
    let limit = chunk_limit(max_chars);
    let chunks = chunked(header, blocks, max_chars);
    if blocks.len() == 0 {
        let cuts: Seq<int> = seq![0, 0];
        assert(blocks.subrange(0, 0) =~= Seq::<Seq<char>>::empty());
        assert(header =~= header + spread(blocks.subrange(0, 0)));
        cuts
    } else {
        let rest = blocks.drop_last();
        let before = chunks_keep_blocks_whole(header, rest, max_chars);
        let (full, current) = chunks_after(header, rest, max_chars);
        let old_chunks = chunked(header, rest, max_chars);
        let n = full.len() as int;
        let count = blocks.len() as int;
        assert(old_chunks[n] == current);
        assert(holds_blocks(header, rest, limit, current, n, before[n], before[n + 1]));
        if current.len() + 2 + blocks.last().len() > limit && current != header {
            let cuts = before.push(count);
            assert forall|k: int| 0 <= k < chunks.len() implies holds_blocks(
                header,
                blocks,
                limit,
                #[trigger] chunks[k],
                k,
                cuts[k],
                cuts[k + 1],
            ) by {
                if k <= n {
                    assert(chunks[k] == old_chunks[k]);
                    more_blocks_follow(
                        header,
                        blocks,
                        limit,
                        old_chunks[k],
                        k,
                        before[k],
                        before[k + 1],
                    );
                } else {
                    block_starts_chunk(header, blocks, limit, k);
                }
            }
            assert forall|k: int| 0 <= k < chunks.len() - 1 implies (#[trigger] chunks[k]).len() + 2
                + blocks[cuts[k + 1]].len() > limit by {
                if k < n {
                    assert(chunks[k] == old_chunks[k]);
                    assert(holds_blocks(
                        header,
                        rest,
                        limit,
                        old_chunks[k + 1],
                        k + 1,
                        before[k + 1],
                        before[k + 2],
                    ));
                    assert(rest[before[k + 1]] == blocks[before[k + 1]]);
                }
            }
            cuts
        } else {
            let cuts = before.update(n + 1, count);
            assert forall|k: int| 0 <= k < chunks.len() implies holds_blocks(
                header,
                blocks,
                limit,
                #[trigger] chunks[k],
                k,
                cuts[k],
                cuts[k + 1],
            ) by {
                if k < n {
                    assert(chunks[k] == old_chunks[k]);
                    assert(holds_blocks(
                        header,
                        rest,
                        limit,
                        old_chunks[k],
                        k,
                        before[k],
                        before[k + 1],
                    ));
                    more_blocks_follow(
                        header,
                        blocks,
                        limit,
                        old_chunks[k],
                        k,
                        before[k],
                        before[k + 1],
                    );
                } else {
                    block_joins_chunk(header, blocks, limit, current, n, before[n]);
                }
            }
            assert forall|k: int| 0 <= k < chunks.len() - 1 implies (#[trigger] chunks[k]).len() + 2
                + blocks[cuts[k + 1]].len() > limit by {
                if k < n {
                    assert(chunks[k] == old_chunks[k]);
                    assert(holds_blocks(
                        header,
                        rest,
                        limit,
                        old_chunks[k + 1],
                        k + 1,
                        before[k + 1],
                        before[k + 2],
                    ));
                    assert(rest[before[k + 1]] == blocks[before[k + 1]]);
                }
            }
            cuts
        }
    }
}

/// A status report is cut between models, whatever its head says.
pub proof fn status_report_is_cut_between_models(
    window: i64,
    generated: Seq<char>,
    collected: Seq<char>,
    stale: bool,
    last_error: Seq<char>,
    models: Seq<ModelReport>,
    max_chars: int,
) -> (cuts: Seq<int>)
    ensures
        is_cut_at(
            status_head(window, generated, collected, stale, last_error),
            model_texts(models),
            chunk_limit(max_chars),
            chunked(
                status_head(window, generated, collected, stale, last_error),
                model_texts(models),
                max_chars,
            ),
            cuts,
        ),
{
    let head = status_head(window, generated, collected, stale, last_error);
    let name = window_name(window);
    let start = "📊 模型状态｜"@;
    reveal_strlit("📊 模型状态｜");
    reveal_strlit("📊 模型状态｜续");
    reveal_strlit("近1分钟");
    reveal_strlit("近5分钟");
    reveal_strlit("近10分钟");
    reveal_strlit("近15分钟");
    reveal_strlit("近1小时");
    reveal_strlit("近24小时");
    reveal_strlit("近7天");
    reveal_strlit("自定义窗口");
    assert(name.len() > 0 && name[0] != '续');
    assert(head.len() > 7 && head[7] == name[0]);
    if text::stands_at(head, "📊 模型状态｜续"@, 0) {
        assert(head.subrange(0, 8)[7] == "📊 模型状态｜续"@[7]);
    }
    chunks_keep_blocks_whole(head, model_texts(models), max_chars)
}

} // verus!
