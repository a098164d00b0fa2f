//! How reports word what they tell.
use vstd::prelude::*;
use vstd::string::*;

use crate::api::{PerfMetricData, PerfMetricGroup};
use crate::config::{AppConfig, ModelConfig};
use crate::decimal;
use crate::metrics::{GroupReport, HealthStatus, ModelReport, WindowSnapshot};
use crate::report;
use crate::repository::{DatabaseStats, OutcomeRow};
use crate::state::CollectorHealth;
use crate::text;

verus! {

/// Whether `s` begins with `start`.
pub open spec fn begins(s: Seq<char>, start: Seq<char>) -> bool {
    s.len() >= start.len() && s.subrange(0, start.len() as int) == start
}

/// Whether `s` ends with `end`.
pub open spec fn ends(s: Seq<char>, end: Seq<char>) -> bool {
    s.len() >= end.len() && s.subrange(s.len() - end.len(), s.len() as int) == end
}

// ---------------------------------------------------------------------------
// Groups and models
// ---------------------------------------------------------------------------
/// The line of a group with requests begins, after the line break, with the sign of the
/// group's own status and its name.
pub proof fn group_lines_begin_with_their_sign(group: GroupReport)
    requires
        group.metrics.requests > 0,
    ensures
        group.status == HealthStatus::Normal ==> begins(
            report::group_text(group),
            "\n"@ + "✅"@ + " "@ + group.group_name@ + "｜"@,
        ),
        group.status == HealthStatus::InsufficientSamples ==> begins(
            report::group_text(group),
            "\n"@ + "◻️"@ + " "@ + group.group_name@ + "｜"@,
        ),
        group.status == HealthStatus::Degraded ==> begins(
            report::group_text(group),
            "\n"@ + "⚠️"@ + " "@ + group.group_name@ + "｜"@,
        ),
        group.status == HealthStatus::Abnormal ==> begins(
            report::group_text(group),
            "\n"@ + "❌"@ + " "@ + group.group_name@ + "｜"@,
        ),
        group.status == HealthStatus::Stale ==> begins(
            report::group_text(group),
            "\n"@ + "⏳"@ + " "@ + group.group_name@ + "｜"@,
        ),
{
    reveal_strlit("｜");
    reveal_strlit("｜成功");
    let line = report::group_text(group);
    let front = "\n"@ + report::icon_of(group.status) + " "@ + group.group_name@ + "｜"@;
    assert(line.subrange(0, front.len() as int) =~= front);
}

/// The lines of two groups with requests that differ only in their statuses differ.
pub proof fn group_lines_tell_statuses_apart(a: GroupReport, b: GroupReport)
    requires
        a.metrics.requests > 0,
        a.metrics == b.metrics,
        a.group_name == b.group_name,
        a.status != b.status,
        a.status != HealthStatus::NoData,
        b.status != HealthStatus::NoData,
    ensures
        report::group_text(a) != report::group_text(b),
{
    reveal_strlit("\n");
    reveal_strlit("✅");
    reveal_strlit("◻️");
    reveal_strlit("⚠️");
    reveal_strlit("❌");
    reveal_strlit("⏳");
    assert(report::group_text(a)[1] == report::icon_of(a.status)[0]);
    assert(report::group_text(b)[1] == report::icon_of(b.status)[0]);
}

/// A group without requests is shown as normal, with its name and no figures.
pub proof fn idle_groups_are_shown_as_normal(group: GroupReport)
    requires
        group.metrics.requests == 0,
    ensures
        report::group_text(group) == "\n"@ + "✅"@ + " "@ + group.group_name@ + "｜正常"@,
{
    reveal_strlit("\n✅ ");
    reveal_strlit("\n");
    reveal_strlit("✅");
    reveal_strlit(" ");
    assert("\n✅ "@ =~= "\n"@ + "✅"@ + " "@);
}

/// Whether this is the sign of a status: ✅ for a normal one, ◻️ for too few requests, ⚠️ for
/// a fluctuating one, ❌ for an abnormal one and ⏳ for stale data.
pub open spec fn is_sign(status: HealthStatus, sign: Seq<char>) -> bool {
    ||| status == HealthStatus::Normal && sign == "✅"@
    ||| status == HealthStatus::InsufficientSamples && sign == "◻️"@
    ||| status == HealthStatus::Degraded && sign == "⚠️"@
    ||| status == HealthStatus::Abnormal && sign == "❌"@
    ||| status == HealthStatus::Stale && sign == "⏳"@
}

/// Behind its sign and name, a group with requests tells its success rate with two
/// decimals, then in a line of their own the mean, the median and the 95% quantile of
/// the times to the first token, then in a third line those of the total times.
pub proof fn group_lines_tell_the_figures(group: GroupReport, sign: Seq<char>)
    requires
        group.metrics.requests > 0,
        is_sign(group.status, sign),
    ensures
        report::group_text(group) == "\n"@ + sign + " "@ + group.group_name@ + "｜成功"@
            + group.metrics.success_rate.fixed(2) + "%\n首字：均"@ + report::duration_text(
            group.metrics.avg_ttft_ms,
        ) + "｜中位"@ + report::duration_text(group.metrics.p50_ttft_ms) + "｜P95 "@
            + report::duration_text(group.metrics.p95_ttft_ms) + "\n总耗：均"@
            + report::total_duration_text(group.metrics.avg_total_ms) + "｜中位"@
            + report::total_duration_text(group.metrics.p50_total_ms) + "｜P95 "@
            + report::total_duration_text(group.metrics.p95_total_ms),
{
}

/// A report on a model begins with the sign and the word of its status around its
/// display name. A model without requests is shown as a normal one.
pub proof fn model_reports_begin_with_their_status(model: ModelReport)
    ensures
        model.status == HealthStatus::Normal || model.status == HealthStatus::NoData ==> begins(
            report::model_text(model),
            "✅"@ + " "@ + model.display_name@ + "｜"@ + "正常"@,
        ),
        model.status == HealthStatus::InsufficientSamples ==> begins(
            report::model_text(model),
            "◻️"@ + " "@ + model.display_name@ + "｜"@ + "样本不足"@,
        ),
        model.status == HealthStatus::Degraded ==> begins(
            report::model_text(model),
            "⚠️"@ + " "@ + model.display_name@ + "｜"@ + "波动"@,
        ),
        model.status == HealthStatus::Abnormal ==> begins(
            report::model_text(model),
            "❌"@ + " "@ + model.display_name@ + "｜"@ + "异常"@,
        ),
        model.status == HealthStatus::Stale ==> begins(
            report::model_text(model),
            "⏳"@ + " "@ + model.display_name@ + "｜"@ + "数据过期"@,
        ),
{
    let front = report::icon_of(model.status) + " "@ + model.display_name@ + "｜"@
        + report::status_words(model.status);
    let block = report::model_text(model);
    assert(block.subrange(0, front.len() as int) =~= front);
}

/// A report on a model ends with its groups, in their order: a group more adds its line
/// at the end. Before them stands the success rate over all groups, if there are
/// requests.
pub proof fn model_reports_list_their_groups(
    model: ModelReport,
    longer: ModelReport,
    group: GroupReport,
)
    requires
        longer.groups@ == model.groups@.push(group),
        longer.status == model.status,
        longer.display_name == model.display_name,
        longer.overall == model.overall,
    ensures
        report::model_text(longer) == report::model_text(model) + report::group_text(group),
        model.groups@.len() == 0 && model.overall.requests > 0 ==> ends(
            report::model_text(model),
            "\n成功率"@ + model.overall.success_rate.fixed(2) + "%"@,
        ),
        model.groups@.len() == 0 && model.overall.requests == 0 ==> report::model_text(model).len()
            == report::icon_of(model.status).len() + 1 + model.display_name@.len() + 1
            + report::status_words(model.status).len(),
{
    reveal_strlit(" ");
    reveal_strlit("｜");
    assert(longer.groups@.drop_last() =~= model.groups@);
    assert(report::model_text(longer) =~= report::model_text(model) + report::group_text(group));
    if model.groups@.len() == 0 && model.overall.requests > 0 {
        let rate = "\n成功率"@ + model.overall.success_rate.fixed(2) + "%"@;
        let block = report::model_text(model);
        assert(block.subrange(block.len() - rate.len(), block.len() as int) =~= rate);
    }
}

// ---------------------------------------------------------------------------
// Times
// ---------------------------------------------------------------------------
/// A time below a second is told in milliseconds, a missing one as two dashes, and a
/// longer one in seconds.
pub proof fn times_are_told_in_fitting_units(value: i64)
    ensures
        report::duration_text(None) == "--"@,
        report::total_duration_text(None) == "--"@,
        value < 1000 ==> report::duration_text(Some(value)) == decimal::decimal(value as int)
            + "ms"@,
        value >= 1000 ==> ends(report::duration_text(Some(value)), "s"@) && !ends(
            report::duration_text(Some(value)),
            "ms"@,
        ),
{
    reveal_strlit("s");
    reveal_strlit("ms");
    if value >= 1000 {
        let t = report::duration_text(Some(value));
        let number = t.drop_last();
        assert(t.subrange(t.len() - 1, t.len() as int) =~= "s"@);
        let d = crate::double::Double {
            bits: crate::double::nearest_bits(
                crate::double::nearest_integer(value as int),
                1_000,
            ) as u64,
        };
        fixed_ends_in_no_m(d);
        assert(t == d.fixed(2) + "s"@);
        let f = d.fixed(2);
        assert(t[t.len() - 2] == f[f.len() - 1]);
        if ends(t, "ms"@) {
            assert(t.subrange(t.len() - 2, t.len() as int)[0] == 'm');
        }
    }
}

proof fn fixed_ends_in_no_m(d: crate::double::Double)
    ensures
        d.fixed(2).len() > 0,
        d.fixed(2).last() != 'm',
{
    reveal_strlit("NaN");
    reveal_strlit("inf");
    reveal_strlit(".");
    let n = d.scaled_size(2);
    let c = decimal::digit_char(n % 100 % 10);
    assert(c != 'm');
    assert(d.is_nan() ==> d.fixed(2).last() == 'N');
    assert(!d.is_nan() && d.is_infinite() ==> d.fixed(2).last() == 'f');
    assert(!d.is_nan() && !d.is_infinite() ==> d.fixed(2).last() == c);
}

/// A time from a second on is told in seconds with two decimals, the nearest to it.
pub proof fn long_times_are_told_in_hundredths(ms: i64) -> (n: int)
    requires
        1000 <= ms < 0x2_0000_0000_0000,
    ensures
        report::duration_text(Some(ms)) == decimal::decimal(n / 100) + "."@ + seq![
            decimal::digit_char(n / 10 % 10),
            decimal::digit_char(n % 10),
        ] + "s"@,
        -5 <= 10 * n - ms <= 5,
{
    crate::double::milliseconds_are_told_in_hundredths(ms as int)
}

/// The success rate in a group's line is that of the successes among its requests, in
/// percent with two decimals, the nearest to it.
pub proof fn told_rates_are_the_nearest(group: GroupReport, rows: Seq<OutcomeRow>) -> (n: int)
    requires
        group.metrics.measures(rows),
        0 < rows.len() <= 0x20_0000_0000,
    ensures
        -(group.metrics.requests as int) <= 2 * (n * group.metrics.requests - 10_000
            * group.metrics.successes) <= group.metrics.requests,
        group.metrics.success_rate.fixed(2) == decimal::decimal(n / 100) + "."@ + seq![
            decimal::digit_char(n / 10 % 10),
            decimal::digit_char(n % 10),
        ],
{
    crate::metrics::every_request_counts_once(group.metrics, rows);
    crate::double::shares_are_told_in_hundredths(
        group.metrics.successes as int,
        group.metrics.requests as int,
    )
}

/// A total time is told in whole seconds, without the fraction.
pub proof fn total_times_are_told_in_seconds(ms: i64, seconds: int)
    requires
        seconds >= 0,
        seconds * 1000 <= ms < (seconds + 1) * 1000,
    ensures
        report::total_duration_text(Some(ms)) == decimal::decimal(seconds) + "s"@,
{
    assert(ms as int / 1000 == seconds);
}

/// Each window that a report can be about has a name of its own.
pub proof fn windows_have_names(window: i64)
    ensures
        report::window_name(60) == "近1分钟"@,
        report::window_name(300) == "近5分钟"@,
        report::window_name(600) == "近10分钟"@,
        report::window_name(900) == "近15分钟"@,
        report::window_name(3_600) == "近1小时"@,
        report::window_name(86_400) == "近24小时"@,
        report::window_name(604_800) == "近7天"@,
        window != 60 && window != 300 && window != 600 && window != 900 && window != 3_600 && window
            != 86_400 && window != 604_800 ==> report::window_name(window) == "自定义窗口"@,
{
}

/// A time that is not after the epoch is told as two dashes, one that has a date as that,
/// and one that has none as its number.
pub proof fn moments_are_told(timestamp: i64, date: Seq<char>)
    ensures
        timestamp <= 0 ==> report::shown(timestamp, Some(date)) == "--"@ && report::shown(
            timestamp,
            None,
        ) == "--"@,
        timestamp > 0 ==> report::shown(timestamp, Some(date)) == date && report::shown(
            timestamp,
            None,
        ) == decimal::decimal(timestamp as int),
{
}

// ---------------------------------------------------------------------------
// The head of a status report
// ---------------------------------------------------------------------------
/// Data is stale exactly if no round succeeded yet or the last one lies further back
/// than allowed.
pub proof fn data_grows_stale(config: AppConfig, generated_at: i64, last_success_at: i64)
    requires
        i64::MIN <= generated_at - last_success_at <= i64::MAX,
    ensures
        report::is_stale(config, generated_at, last_success_at) <==> last_success_at == 0
            || generated_at - last_success_at > config.status.stale_after_secs,
{
}

/// A status report is headed by its window, the time it was made, the time of the data
/// and whether that is stale. The last error stands below exactly if the data is stale
/// and there is one, and of it no more than 160 characters.
pub proof fn status_reports_are_headed(
    window: i64,
    generated: Seq<char>,
    collected: Seq<char>,
    error: Seq<char>,
)
    ensures
        ({
            let head = "📊 模型状态｜"@ + report::window_name(window) + "\n🕒 "@ + generated + " - "@
                + collected + "｜采集 "@;
            let fresh = report::status_head(window, generated, collected, false, error);
            let stale = report::status_head(window, generated, collected, true, error);
            &&& fresh == head + "✅正常"@
            &&& error.len() == 0 ==> stale == head + "⏳数据过期"@
            &&& 0 < error.len() <= 160 ==> stale == head + "⏳数据过期"@ + "\n采集错误｜"@ + error
            &&& error.len() > 160 ==> stale == head + "⏳数据过期"@ + "\n采集错误｜"@
                + error.subrange(0, 160)
        }),
{
    if error.len() > 160 {
        assert(error.take(160) =~= error.subrange(0, 160));
    }
}

/// A message takes as many characters as the configuration allows, but never fewer than
/// 200; a report without blocks is its head alone.
pub proof fn messages_have_room(max_chars: int, header: Seq<char>)
    ensures
        max_chars >= 200 ==> report::chunk_limit(max_chars) == max_chars,
        max_chars < 200 ==> report::chunk_limit(max_chars) == 200,
        report::chunked(header, Seq::empty(), max_chars) == seq![header],
{
    assert(report::chunked(header, Seq::empty(), max_chars) =~= seq![header]);
}

// ---------------------------------------------------------------------------
// Which models
// ---------------------------------------------------------------------------
/// Two texts that are the same but for the case of ASCII letters.
pub open spec fn same_but_for_case(a: Seq<char>, b: Seq<char>) -> bool {
    &&& a.len() == b.len()
    &&& forall|i: int|
        0 <= i < a.len() ==> {
            ||| #[trigger] a[i] == b[i]
            ||| 'A' <= a[i] <= 'Z' && a[i] as int + 32 == b[i] as int
            ||| 'A' <= b[i] <= 'Z' && b[i] as int + 32 == a[i] as int
        }
}

/// A name in small letters is the same as another's exactly if the two differ at most in
/// the case of ASCII letters.
pub proof fn case_does_not_matter(a: Seq<char>, b: Seq<char>)
    ensures
        text::lowered(a) == text::lowered(b) <==> same_but_for_case(a, b),
{
    let x = text::lowered(a);
    let y = text::lowered(b);
    if x == y {
        assert(a.len() == x.len() && b.len() == y.len());
        assert forall|i: int| 0 <= i < a.len() implies {
            ||| #[trigger] a[i] == b[i]
            ||| 'A' <= a[i] <= 'Z' && a[i] as int + 32 == b[i] as int
            ||| 'A' <= b[i] <= 'Z' && b[i] as int + 32 == a[i] as int
        } by {
            assert(x[i] == y[i]);
            lower_adds(a[i]);
            lower_adds(b[i]);
        }
    }
    if same_but_for_case(a, b) {
        assert forall|i: int| 0 <= i < a.len() implies x[i] == y[i] by {
            assert(a[i] == a[i]);
            lower_adds(a[i]);
            lower_adds(b[i]);
        }
        assert(x =~= y);
    }
}

proof fn lower_adds(c: char)
    ensures
        'A' <= c <= 'Z' ==> text::lower(c) as int == c as int + 32,
        !('A' <= c <= 'Z') ==> text::lower(c) == c,
{
    if 'A' <= c <= 'Z' {
        assert(c as u8 as int == c as int);
    }
}

/// A report is on all models where none is asked for; otherwise on the first one whose
/// name or display name is the asked one but for case. A name that no model has is
/// unknown, and only such a name.
pub proof fn asked_models_are_chosen(
    models: Seq<ModelReport>,
    query: Seq<char>,
    chosen: Seq<ModelReport>,
)
    ensures
        report::are_chosen(models, None, chosen) <==> chosen == models,
        report::are_chosen(models, Some(query), chosen) ==> exists|i: int|
            0 <= i < models.len() && chosen == seq![models[i]] && (same_but_for_case(
                (#[trigger] models[i]).model_name@,
                query,
            ) || same_but_for_case(models[i].display_name@, query)) && forall|j: int|
                0 <= j < i ==> !same_but_for_case((#[trigger] models[j]).model_name@, query)
                    && !same_but_for_case(models[j].display_name@, query),
        report::is_unknown(models, Some(query)) <==> forall|j: int|
            0 <= j < models.len() ==> !same_but_for_case((#[trigger] models[j]).model_name@, query)
                && !same_but_for_case(models[j].display_name@, query),
        !report::is_unknown(models, None),
{
    assert forall|j: int| 0 <= j < models.len() implies #[trigger] report::goes_by(models[j], query)
        == (same_but_for_case(models[j].model_name@, query) || same_but_for_case(
        models[j].display_name@,
        query,
    )) by {
        case_does_not_matter(models[j].model_name@, query);
        case_does_not_matter(models[j].display_name@, query);
    }
    if report::are_chosen(models, Some(query), chosen) {
        let i = choose|i: int|
            #[trigger] report::is_first_by(models, query, i) && chosen == seq![models[i]];
        assert(report::goes_by(models[i], query));
        assert forall|j: int| 0 <= j < i implies !same_but_for_case(
            (#[trigger] models[j]).model_name@,
            query,
        ) && !same_but_for_case(models[j].display_name@, query) by {
            assert(!report::goes_by(models[j], query));
        }
    }
    let asked = Some(query);
    if report::is_unknown(models, asked) {
        assert forall|j: int| 0 <= j < models.len() implies !same_but_for_case(
            (#[trigger] models[j]).model_name@,
            query,
        ) && !same_but_for_case(models[j].display_name@, query) by {
            assert(!report::goes_by(models[j], asked->0));
        }
    }
}

// ---------------------------------------------------------------------------
// Lists, errors, health
// ---------------------------------------------------------------------------
/// The list of models tells how many there are, then each with the name shown, the name
/// in the logs and its groups, then the time.
pub proof fn models_are_listed(models: Seq<ModelConfig>, generated: Seq<char>, i: int)
    requires
        0 <= i < models.len(),
    ensures
        report::list_head(models.len() as int) == "[模型监控白名单]\n共 "@ + decimal::decimal(
            models.len() as int,
        ) + " 个模型"@,
        report::listed_models(models, generated).len() == models.len() + 1,
        report::listed_models(models, generated).last() == "快照时间: "@ + generated,
        ({
            let block = report::listed_models(models, generated)[i];
            let model = models[i];
            &&& model.display_name@.len() > 0 ==> begins(
                block,
                "- "@ + model.display_name@ + " ("@ + model.name@ + ")\n  分组: "@,
            )
            &&& model.display_name@.len() == 0 ==> begins(
                block,
                "- "@ + model.name@ + " ("@ + model.name@ + ")\n  分组: "@,
            )
            &&& model.groups@.len() == 0 ==> ends(block, ")\n  分组: "@ + "全部已发现分组"@)
            &&& model.groups@.len() == 1 ==> ends(block, ")\n  分组: "@ + model.groups@[0]@)
            &&& model.groups@.len() == 2 ==> ends(
                block,
                ")\n  分组: "@ + model.groups@[0]@ + "、"@ + model.groups@[1]@,
            )
        }),
{
    let block = report::listed_models(models, generated)[i];
    let model = models[i];
    assert(block == report::listed_model(model));
    let front = "- "@ + (if model.display_name@.len() > 0 {
        model.display_name@
    } else {
        model.name@
    }) + " ("@ + model.name@ + ")\n  分组: "@;
    assert(block.subrange(0, front.len() as int) =~= front);
    let names = text::texts(model.groups@);
    reveal_with_fuel(text::joined, 3);
    if model.groups@.len() == 0 {
        let rest = ")\n  分组: "@ + "全部已发现分组"@;
        assert(block.subrange(block.len() - rest.len(), block.len() as int) =~= rest);
    } else if model.groups@.len() == 1 {
        let rest = ")\n  分组: "@ + model.groups@[0]@;
        assert(block.subrange(block.len() - rest.len(), block.len() as int) =~= rest);
    } else if model.groups@.len() == 2 {
        let rest = ")\n  分组: "@ + model.groups@[0]@ + "、"@ + model.groups@[1]@;
        assert(names.drop_last() =~= seq![model.groups@[0]@]);
        assert(text::joined(names, "、"@) == model.groups@[0]@ + "、"@ + model.groups@[1]@);
        assert(block.subrange(block.len() - rest.len(), block.len() as int) =~= rest);
    }
}

/// The first `n` entries of a list of names and numbers, each on a line.
pub open spec fn lines_of(
    entries: Seq<(String, u64)>,
    n: int,
    before: Seq<char>,
    after: Seq<char>,
) -> Seq<char>
    decreases n,
{
    if n <= 0 {
        Seq::empty()
    } else {
        lines_of(entries, n - 1, before, after) + (before + entries[n - 1].0@ + ": "@
            + decimal::decimal(entries[n - 1].1 as int) + after)
    }
}

proof fn tallies_are_lines(
    entries: Seq<(String, u64)>,
    n: int,
    before: Seq<char>,
    after: Seq<char>,
)
    ensures
        report::tally_text(entries, n, before, ": "@, after) == lines_of(entries, n, before, after),
    decreases n,
{
    if n > 0 {
        tallies_are_lines(entries, n - 1, before, after);
        assert(report::tally_text(entries, n, before, ": "@, after) =~= lines_of(
            entries,
            n,
            before,
            after,
        ));
    }
}

/// The report on a model's errors names the model and its five most frequent errors, or
/// says that there are none; then its three most frequent retry chains; then the error
/// rate of the requests and that of the attempts.
pub proof fn errors_are_told(model: ModelReport)
    ensures
        ({
            let codes = model.overall.error_codes@;
            let chains = model.overall.retry_channel_chains@;
            let errors = if codes.len() == 0 {
                "\n  暂无终态错误分类"@
            } else if codes.len() >= 5 {
                lines_of(codes, 5, "\n  "@, ""@)
            } else {
                lines_of(codes, codes.len() as int, "\n  "@, ""@)
            };
            let retries = if chains.len() >= 3 {
                lines_of(chains, 3, "\n  重试链 "@, " 次"@)
            } else {
                lines_of(chains, chains.len() as int, "\n  重试链 "@, " 次"@)
            };
            report::errors_text(model) == model.display_name@ + errors + retries + ("\n  请求错误率 "@
                + model.overall.error_rate.fixed(2) + "% | 尝试错误率 "@
                + model.overall.attempt_error_rate.fixed(2) + "%"@)
        }),
{
    let codes = model.overall.error_codes@;
    let chains = model.overall.retry_channel_chains@;
    tallies_are_lines(codes, 5, "\n  "@, ""@);
    tallies_are_lines(codes, codes.len() as int, "\n  "@, ""@);
    tallies_are_lines(chains, 3, "\n  重试链 "@, " 次"@);
    tallies_are_lines(chains, chains.len() as int, "\n  重试链 "@, " 次"@);
    let tail = "\n  请求错误率 "@ + model.overall.error_rate.fixed(2) + "% | 尝试错误率 "@
        + model.overall.attempt_error_rate.fixed(2) + "%"@;
    let t = report::errors_text(model);
    let front = t.subrange(0, t.len() - tail.len());
    assert(t =~= front + tail);
}

/// The health report tells, each on a line of its own, the database, the times of the
/// start, of the last attempt and of the last success, the failures in a row, what is
/// stored, the pushes, the heartbeats and the last error, or that there is none.
pub proof fn health_is_told(
    database: DatabaseStats,
    failures: u32,
    error: Seq<char>,
    path: Seq<char>,
    started: Seq<char>,
    attempted: Seq<char>,
    succeeded: Seq<char>,
    push: Seq<char>,
    heartbeat: Seq<char>,
)
    ensures
        ({
            let head = "[监控健康]\n数据库: "@ + path + "\n启动时间: "@ + started + "\n最后尝试: "@
                + attempted + "\n最后成功: "@ + succeeded + "\n连续失败: "@ + decimal::decimal(
                failures as int,
            ) + "\n日志样本: "@ + decimal::decimal(database.sample_count as int) + "\n请求结果: "@
                + decimal::decimal(database.outcome_count as int) + "\n推送: "@ + push + "\n心跳: "@
                + heartbeat + "\n状态: "@;
            let told = report::health_text(
                database,
                failures,
                error,
                path,
                started,
                attempted,
                succeeded,
                push,
                heartbeat,
            );
            &&& error.len() == 0 ==> told == head + "正常"@
            &&& error.len() > 0 ==> told == head + error
        }),
{
}

/// What is said of pushes and heartbeats: that pushing is off; that it has nobody to push
/// to; that nothing was pushed yet; or when the last push, or heartbeat, was.
pub proof fn pushes_are_told(targets: bool, pushed: bool, moment: Seq<char>)
    ensures
        report::push_text(false, targets, pushed, moment) == "未启用"@,
        report::push_text(true, false, pushed, moment) == "推送未配置"@,
        report::push_text(true, true, false, moment) == "已配置，等待状态确认"@,
        report::push_text(true, true, true, moment) == "最后入队 "@ + moment,
        report::heartbeat_text(false, moment) == "未收到"@,
        report::heartbeat_text(true, moment) == "最后收到 "@ + moment,
{
}

/// Public metrics are told under the model's name and the hours they cover, group by
/// group, with a note that they are not part of the local figures; without groups the
/// report says so.
pub proof fn public_metrics_are_told(
    data: PerfMetricData,
    longer: PerfMetricData,
    group: PerfMetricGroup,
    hours: u32,
)
    requires
        longer.groups@ == data.groups@.push(group),
        longer.model_name == data.model_name,
    ensures
        begins(
            report::perf_text(data, hours),
            "[模型广场参考] "@ + data.model_name@ + " | 近"@ + decimal::decimal(hours as int)
                + "小时"@,
        ),
        data.groups@.len() == 0 ==> ends(report::perf_text(data, hours), "\n暂无公开分组样本"@),
        data.groups@.len() > 0 ==> ends(
            report::perf_text(data, hours),
            "\n注: 广场指标不与本地日志统计混算"@,
        ),
        ends(
            report::perf_text(longer, hours),
            report::perf_group_text(group) + "\n注: 广场指标不与本地日志统计混算"@,
        ),
        data.groups@.len() > 0 ==> report::perf_text(longer, hours).len() == report::perf_text(
            data,
            hours,
        ).len() + report::perf_group_text(group).len(),
{
    let head = "[模型广场参考] "@ + data.model_name@ + " | 近"@ + decimal::decimal(hours as int)
        + "小时"@;
    let none = "\n暂无公开分组样本"@;
    let note = "\n注: 广场指标不与本地日志统计混算"@;
    let groups = report::perf_groups_text(data.groups@);
    let one = report::perf_group_text(group);
    let told = report::perf_text(data, hours);
    if data.groups@.len() == 0 {
        sums_begin_and_end(head, none);
    } else {
        sums_begin_and_end(head + groups, note);
        sums_begin_and_end(head, groups + note);
        assert((head + groups) + note =~= head + (groups + note));
    }
    assert(longer.groups@.drop_last() =~= data.groups@);
    assert(report::perf_groups_text(longer.groups@) == groups + one);
    let more = report::perf_text(longer, hours);
    assert(more == head + (groups + one) + note);
    assert(head + (groups + one) + note =~= (head + groups) + (one + note));
    sums_begin_and_end(head + groups, one + note);
}

proof fn sums_begin_and_end(a: Seq<char>, b: Seq<char>)
    ensures
        begins(a + b, a),
        ends(a + b, b),
{
    assert((a + b).subrange(0, a.len() as int) =~= a);
    assert((a + b).subrange((a + b).len() - b.len(), (a + b).len() as int) =~= b);
}

/// A group of public metrics is told with its success rate, its times and its speed; a
/// time to the first token that is not positive is missing.
pub proof fn public_groups_are_told(group: PerfMetricGroup)
    ensures
        ({
            let front = "\n"@ + group.group@ + "\n  成功 "@ + group.success_rate.fixed(2)
                + "% | 首字 "@;
            let rest = " | 总耗时 "@ + report::duration_text(Some(group.avg_latency_ms)) + " | "@
                + group.avg_tps.fixed(1) + " tok/s"@;
            &&& group.avg_ttft_ms > 0 ==> report::perf_group_text(group) == front
                + report::duration_text(Some(group.avg_ttft_ms)) + rest
            &&& group.avg_ttft_ms <= 0 ==> report::perf_group_text(group) == front + "--"@ + rest
        }),
{
    let front = "\n"@ + group.group@ + "\n  成功 "@ + group.success_rate.fixed(2) + "% | 首字 "@;
    let rest = " | 总耗时 "@ + report::duration_text(Some(group.avg_latency_ms)) + " | "@
        + group.avg_tps.fixed(1) + " tok/s"@;
    let told = report::perf_group_text(group);
    if group.avg_ttft_ms > 0 {
        assert(told =~= front + report::duration_text(Some(group.avg_ttft_ms)) + rest);
    } else {
        assert(told =~= front + "--"@ + rest);
    }
}

/// Moments are told in the time of the zone eight hours east: with month and day in
/// timestamps, without them for the time of the data.
pub proof fn moments_are_told_in_local_time(timestamp: i64)
    requires
        timestamp > 0,
    ensures
        report::time_text(timestamp, 28_800, "%m-%d %H:%M:%S"@) matches Some(t)
            ==> report::timestamp_text(timestamp) == t,
        report::time_text(timestamp, 28_800, "%H:%M:%S"@) matches Some(t)
            ==> report::daytime_text(timestamp) == t,
        report::time_text(timestamp, 28_800, "%H:%M:%S"@) is None ==> report::daytime_text(
            timestamp,
        ) == decimal::decimal(timestamp as int),
{
}

// ---------------------------------------------------------------------------
// The operations themselves
// ---------------------------------------------------------------------------
/// Whether `part` stands somewhere in `s`.
pub open spec fn holds(s: Seq<char>, part: Seq<char>) -> bool {
    exists|from: int, to: int|
        0 <= from <= to <= s.len() && #[trigger] s.subrange(from, to) == part
}

/// Whether `s` holds a line that begins with this sign and this name.
pub open spec fn holds_line(s: Seq<char>, sign: Seq<char>, name: Seq<char>) -> bool {
    holds(s, "\n"@ + sign + " "@ + name + "｜"@)
}

/// A report on a model begins with the sign and the word of the model's status, and holds
/// for each of its groups a line that begins with the sign of that group's own status: ✅
/// for a normal one or one without requests, ◻️ for too few requests, ⚠️ for a fluctuating
/// one, ❌ for an abnormal one and ⏳ for stale data.
pub proof fn reports_show_each_status(model: ModelReport, r: String, i: int)
    requires
        call_ensures(report::format_model, (&model,), r),
        0 <= i < model.groups@.len(),
    ensures
        ({
            let group = model.groups@[i];
            let name = group.group_name@;
            &&& group.metrics.requests == 0 ==> holds_line(r@, "✅"@, name)
            &&& group.metrics.requests > 0 && group.status == HealthStatus::Normal ==> holds_line(
                r@,
                "✅"@,
                name,
            )
            &&& group.metrics.requests > 0 && group.status == HealthStatus::InsufficientSamples
                ==> holds_line(r@, "◻️"@, name)
            &&& group.metrics.requests > 0 && group.status == HealthStatus::Degraded ==> holds_line(
                r@,
                "⚠️"@,
                name,
            )
            &&& group.metrics.requests > 0 && group.status == HealthStatus::Abnormal ==> holds_line(
                r@,
                "❌"@,
                name,
            )
            &&& group.metrics.requests > 0 && group.status == HealthStatus::Stale ==> holds_line(
                r@,
                "⏳"@,
                name,
            )
        }),
        model.status == HealthStatus::Normal || model.status == HealthStatus::NoData ==> begins(
            r@,
            "✅"@ + " "@ + model.display_name@ + "｜"@ + "正常"@,
        ),
        model.status == HealthStatus::Degraded ==> begins(
            r@,
            "⚠️"@ + " "@ + model.display_name@ + "｜"@ + "波动"@,
        ),
        model.status == HealthStatus::Abnormal ==> begins(
            r@,
            "❌"@ + " "@ + model.display_name@ + "｜"@ + "异常"@,
        ),
{
    let group = model.groups@[i];
    model_reports_begin_with_their_status(model);
    let at = group_stands_in(model.groups@, i);
    let head = report::model_head(model);
    let groups = report::groups_text(model.groups@);
    let line = report::group_text(group);
    assert(r@ == head + groups);
    let from = head.len() + at;
    if group.metrics.requests > 0 {
        group_lines_begin_with_their_sign(group);
        let sign = report::icon_of(group.status);
        let front = "\n"@ + sign + " "@ + group.group_name@ + "｜"@;
        if group.status != HealthStatus::NoData {
            assert(begins(line, front));
            front_stands(r@, head, groups, line, front, at);
        }
    } else {
        idle_groups_are_shown_as_normal(group);
        reveal_strlit("｜");
        reveal_strlit("｜正常");
        let front = "\n"@ + "✅"@ + " "@ + group.group_name@ + "｜"@;
        assert(line.subrange(0, front.len() as int) =~= front);
        front_stands(r@, head, groups, line, front, at);
    }
}

proof fn front_stands(
    s: Seq<char>,
    head: Seq<char>,
    groups: Seq<char>,
    line: Seq<char>,
    front: Seq<char>,
    at: int,
)
    requires
        s == head + groups,
        0 <= at,
        at + line.len() <= groups.len(),
        groups.subrange(at, at + line.len()) == line,
        begins(line, front),
    ensures
        holds(s, front),
{
    let from = head.len() + at;
    let to = from + front.len();
    assert forall|k: int| 0 <= k < front.len() implies s.subrange(from, to)[k] == front[k] by {
        assert(line.subrange(0, front.len() as int)[k] == line[k]);
        assert(groups.subrange(at, at + line.len())[k] == groups[at + k]);
    }
    assert(s.subrange(from, to) =~= front);
}

proof fn group_stands_in(groups: Seq<GroupReport>, i: int) -> (at: int)
    requires
        0 <= i < groups.len(),
    ensures
        0 <= at,
        at + report::group_text(groups[i]).len() <= report::groups_text(groups).len(),
        report::groups_text(groups).subrange(at, at + report::group_text(groups[i]).len())
            == report::group_text(groups[i]),
    decreases groups.len(),
{
    let rest = groups.drop_last();
    let before = report::groups_text(rest);
    let all = report::groups_text(groups);
    assert(all == before + report::group_text(groups.last()));
    let line = report::group_text(groups[i]);
    if i < rest.len() {
        let at = group_stands_in(rest, i);
        assert(rest[i] == groups[i]);
        assert(all.subrange(at, at + line.len()) =~= before.subrange(at, at + line.len()));
        at
    } else {
        let at = before.len() as int;
        assert(all.subrange(at, at + line.len()) =~= line);
        at
    }
}

/// Each status has its sign and its word; what has no requests is shown as normal.
pub proof fn signs_and_words_are_those_of_the_status(
    status: HealthStatus,
    sign: &'static str,
    word: &'static str,
)
    requires
        call_ensures(report::status_icon, (status,), sign),
        call_ensures(report::status_label, (status,), word),
    ensures
        status == HealthStatus::Normal || status == HealthStatus::NoData ==> sign@ == "✅"@ && word@
            == "正常"@,
        status == HealthStatus::InsufficientSamples ==> sign@ == "◻️"@ && word@ == "样本不足"@,
        status == HealthStatus::Degraded ==> sign@ == "⚠️"@ && word@ == "波动"@,
        status == HealthStatus::Abnormal ==> sign@ == "❌"@ && word@ == "异常"@,
        status == HealthStatus::Stale ==> sign@ == "⏳"@ && word@ == "数据过期"@,
{
}

/// Times are told in milliseconds below a second and in seconds from there on, total times
/// in whole seconds, and missing ones as two dashes.
pub proof fn told_times_have_fitting_units(ms: i64, r: String, seconds: int, total: String)
    requires
        call_ensures(report::format_duration, (Some(ms),), r),
        call_ensures(report::format_total_duration, (Some(ms),), total),
        seconds >= 0,
        seconds * 1000 <= ms < (seconds + 1) * 1000,
    ensures
        ms < 1000 ==> r@ == decimal::decimal(ms as int) + "ms"@,
        ms >= 1000 ==> ends(r@, "s"@) && !ends(r@, "ms"@),
        total@ == decimal::decimal(seconds) + "s"@,
{
    times_are_told_in_fitting_units(ms);
    total_times_are_told_in_seconds(ms, seconds);
}

/// The head of a status report names the window and says whether the data is stale.
pub proof fn heads_tell_stale_data(
    window: i64,
    generated: &str,
    collected: &str,
    stale: bool,
    error: &str,
    r: String,
)
    requires
        call_ensures(report::status_header, (window, generated, collected, stale, error), r),
    ensures
        begins(
            r@,
            "📊 模型状态｜"@ + report::window_name(window) + "\n🕒 "@ + generated@ + " - "@
                + collected@ + "｜采集 "@ + (if stale {
                "⏳数据过期"@
            } else {
                "✅正常"@
            }),
        ),
        !stale || error@.len() == 0 ==> ends(
            r@,
            if stale {
                "⏳数据过期"@
            } else {
                "✅正常"@
            },
        ),
        stale && 0 < error@.len() <= 160 ==> ends(r@, "\n采集错误｜"@ + error@),
{
    let state = if stale {
        "⏳数据过期"@
    } else {
        "✅正常"@
    };
    let head = "📊 模型状态｜"@ + report::window_name(window) + "\n🕒 "@ + generated@ + " - "@
        + collected@ + "｜采集 "@;
    status_reports_are_headed(window, generated@, collected@, error@);
    sums_begin_and_end(head, state);
    let shown = if error@.len() <= 160 {
        error@
    } else {
        error@.subrange(0, 160)
    };
    let tail = "\n采集错误｜"@ + shown;
    sums_begin_and_end(head + state, tail);
    sums_begin_and_end(head + state, Seq::empty());
    assert((head + state) + Seq::<char>::empty() =~= head + state);
    assert(head + state + "\n采集错误｜"@ + shown =~= (head + state) + tail);
}

/// A report is stale as soon as its data is, and windows go by their names.
pub proof fn staleness_and_windows_are_told(
    config: AppConfig,
    generated_at: i64,
    last_success_at: i64,
    stale: bool,
    window: i64,
    name: &'static str,
)
    requires
        call_ensures(report::data_is_stale, (&config, generated_at, last_success_at), stale),
        call_ensures(report::window_label, (window,), name),
        i64::MIN <= generated_at - last_success_at <= i64::MAX,
    ensures
        stale <==> last_success_at == 0 || generated_at - last_success_at
            > config.status.stale_after_secs,
        window == 900 ==> name@ == "近15分钟"@,
        window == 3_600 ==> name@ == "近1小时"@,
        window == 86_400 ==> name@ == "近24小时"@,
        window == 604_800 ==> name@ == "近7天"@,
{
    windows_have_names(window);
}

/// Asked for no model in particular, the status report is on all of them: headed by the
/// window, the time and whether the data is stale, and cut into messages only between two
/// models.
pub proof fn status_reports_are_on_all_models(
    config: AppConfig,
    snapshot: WindowSnapshot,
    health: CollectorHealth,
    r: Result<Vec<String>, String>,
) -> (cuts: Seq<int>)
    requires
        call_ensures(report::format_status, (&config, &snapshot, &health, None), r),
        i64::MIN <= snapshot.generated_at - health.last_success_at <= i64::MAX,
        config.bot.max_message_chars >= 200,
    ensures
        r is Ok,
        ({
            let stale = health.last_success_at == 0 || snapshot.generated_at
                - health.last_success_at > config.status.stale_after_secs;
            report::is_cut_at(
                report::status_head(
                    snapshot.window_seconds,
                    report::timestamp_text(snapshot.generated_at),
                    report::daytime_text(health.last_success_at),
                    stale,
                    health.last_error@,
                ),
                snapshot.models@.map_values(|m: ModelReport| report::model_text(m)),
                config.bot.max_message_chars as int,
                text::texts(r->Ok_0@),
                cuts,
            )
        }),
{
    let stale = report::is_stale(config, snapshot.generated_at, health.last_success_at);
    data_grows_stale(config, snapshot.generated_at, health.last_success_at);
    let blocks = snapshot.models@.map_values(|m: ModelReport| report::model_text(m));
    assert(blocks =~= report::model_texts(snapshot.models@));
    report::status_report_is_cut_between_models(
        snapshot.window_seconds,
        report::timestamp_text(snapshot.generated_at),
        report::daytime_text(health.last_success_at),
        stale,
        health.last_error@,
        snapshot.models@,
        config.bot.max_message_chars as int,
    )
}

/// Asked for a model that is not watched, the status report and the error report name it.
pub proof fn unknown_models_are_named(
    config: AppConfig,
    snapshot: WindowSnapshot,
    health: CollectorHealth,
    query: &str,
    status: Result<Vec<String>, String>,
    errors: Result<Vec<String>, String>,
)
    requires
        call_ensures(report::format_status, (&config, &snapshot, &health, Some(query)), status),
        call_ensures(report::format_errors, (&config, &snapshot, Some(query)), errors),
        report::asked(Some(query)) == Some(query@),
        forall|i: int|
            0 <= i < snapshot.models@.len() ==> !same_but_for_case(
                (#[trigger] snapshot.models@[i]).model_name@,
                query@,
            ) && !same_but_for_case(snapshot.models@[i].display_name@, query@),
    ensures
        status is Err && status->Err_0@ == "模型不在白名单中: "@ + query@,
        errors is Err && errors->Err_0@ == "模型不在白名单中: "@ + query@,
{
    if status is Ok {
        let chosen = choose|chosen: Seq<ModelReport>| #[trigger]
            report::are_chosen(snapshot.models@, report::asked(Some(query)), chosen);
        asked_models_are_chosen(snapshot.models@, query@, chosen);
    }
    if errors is Ok {
        let chosen = choose|chosen: Seq<ModelReport>| #[trigger]
            report::are_chosen(snapshot.models@, report::asked(Some(query)), chosen);
        asked_models_are_chosen(snapshot.models@, query@, chosen);
    }
}

/// The health report tells line by line where the database is, when the collector began,
/// last tried and last succeeded, how often it failed since, what is stored, whether
/// pushes are off, have nobody to go to, wait for a first state or when the last one was,
/// when the last heartbeat was, and the last error, or that there is none.
pub proof fn health_reports_tell_all(
    database: DatabaseStats,
    health: CollectorHealth,
    path: &str,
    enabled: bool,
    targets: bool,
    last_push_at: i64,
    last_heartbeat_at: i64,
    r: String,
)
    requires
        call_ensures(
            report::format_health,
            (&database, &health, path, enabled, targets, last_push_at, last_heartbeat_at),
            r,
        ),
    ensures
        r@ == "[监控健康]\n数据库: "@ + path@ + "\n启动时间: "@ + report::timestamp_text(
            health.started_at,
        ) + "\n最后尝试: "@ + report::timestamp_text(health.last_attempt_at) + "\n最后成功: "@
            + report::timestamp_text(health.last_success_at) + "\n连续失败: "@ + decimal::decimal(
            health.consecutive_failures as int,
        ) + "\n日志样本: "@ + decimal::decimal(database.sample_count as int) + "\n请求结果: "@
            + decimal::decimal(database.outcome_count as int) + "\n推送: "@ + (if !enabled {
            "未启用"@
        } else if !targets {
            "推送未配置"@
        } else if last_push_at == 0 {
            "已配置，等待状态确认"@
        } else {
            "最后入队 "@ + report::timestamp_text(last_push_at)
        }) + "\n心跳: "@ + (if last_heartbeat_at == 0 {
            "未收到"@
        } else {
            "最后收到 "@ + report::timestamp_text(last_heartbeat_at)
        }) + "\n状态: "@ + (if health.last_error@.len() == 0 {
            "正常"@
        } else {
            health.last_error@
        }),
{
}

/// The time of day is told with two digits each for the hours, the minutes and the
/// seconds.
pub proof fn clocks_show_two_digits(day: int, hour: int, minute: int, second: int)
    requires
        0 <= hour < 24,
        0 <= minute < 60,
        0 <= second < 60,
    ensures
        report::clock_text(day * 86_400 + hour * 3_600 + minute * 60 + second) == seq![
            decimal::digit_char(hour / 10),
            decimal::digit_char(hour % 10),
            ':',
            decimal::digit_char(minute / 10),
            decimal::digit_char(minute % 10),
            ':',
            decimal::digit_char(second / 10),
            decimal::digit_char(second % 10),
        ],
{
    let t = day * 86_400 + hour * 3_600 + minute * 60 + second;
    let s = hour * 3_600 + minute * 60 + second;
    assert(t % 86_400 == s);
    assert(s / 3_600 == hour && s / 60 % 60 == minute && s % 60 == second);
    assert(report::clock_text(t) =~= seq![
        decimal::digit_char(hour / 10),
        decimal::digit_char(hour % 10),
        ':',
        decimal::digit_char(minute / 10),
        decimal::digit_char(minute % 10),
        ':',
        decimal::digit_char(second / 10),
        decimal::digit_char(second % 10),
    ]);
}

/// A listed model ends with all its groups, in their order.
pub proof fn groups_are_listed(model: ModelConfig)
    requires
        model.groups@.len() > 0,
    ensures
        ends(
            report::listed_model(model),
            ")\n  分组: "@ + text::joined(text::texts(model.groups@), "、"@),
        ),
{
    let names = text::joined(text::texts(model.groups@), "、"@);
    let front = "- "@ + crate::metrics::shown_name(model) + " ("@ + model.name@;
    let rest = ")\n  分组: "@ + names;
    assert(report::listed_model(model) =~= front + rest);
    sums_begin_and_end(front, rest);
}

/// A group more of public metrics leaves those before it where they are.
pub proof fn public_groups_follow_each_other(
    data: PerfMetricData,
    longer: PerfMetricData,
    group: PerfMetricGroup,
    hours: u32,
)
    requires
        longer.groups@ == data.groups@.push(group),
        longer.model_name == data.model_name,
        data.groups@.len() > 0,
    ensures
        ({
            let note = "\n注: 广场指标不与本地日志统计混算"@;
            let told = report::perf_text(data, hours);
            let before = told.subrange(0, told.len() - note.len());
            report::perf_text(longer, hours) == before + report::perf_group_text(group) + note
        }),
{
    let head = "[模型广场参考] "@ + data.model_name@ + " | 近"@ + decimal::decimal(hours as int)
        + "小时"@;
    let note = "\n注: 广场指标不与本地日志统计混算"@;
    let groups = report::perf_groups_text(data.groups@);
    let told = report::perf_text(data, hours);
    let before = told.subrange(0, told.len() - note.len());
    assert(before =~= head + groups);
    assert(longer.groups@.drop_last() =~= data.groups@);
    let one = report::perf_group_text(group);
    assert(report::perf_text(longer, hours) == head + (groups + one) + note);
    assert(head + (groups + one) + note =~= (head + groups) + one + note);
}

/// Errors are told for the chosen models under the name of the window; without a question
/// for all of them, in messages that are cut only between two.
pub proof fn error_reports_are_on_all_models(
    config: AppConfig,
    snapshot: WindowSnapshot,
    r: Result<Vec<String>, String>,
)
    requires
        call_ensures(report::format_errors, (&config, &snapshot, None), r),
    ensures
        r is Ok,
        text::texts(r->Ok_0@) == report::chunked(
            "[模型异常摘要] "@ + report::window_name(snapshot.window_seconds),
            snapshot.models@.map_values(|m: ModelReport| report::errors_text(m)),
            config.bot.max_message_chars as int,
        ),
{
    let blocks = snapshot.models@.map_values(|m: ModelReport| report::errors_text(m));
    assert(blocks =~= report::error_texts(snapshot.models@));
}

/// Asked for a model that is watched, the status report is on that model alone.
pub proof fn status_reports_are_on_the_asked_model(
    config: AppConfig,
    snapshot: WindowSnapshot,
    health: CollectorHealth,
    query: &str,
    r: Result<Vec<String>, String>,
    i: int,
)
    requires
        call_ensures(report::format_status, (&config, &snapshot, &health, Some(query)), r),
        report::asked(Some(query)) == Some(query@),
        0 <= i < snapshot.models@.len(),
        same_but_for_case(snapshot.models@[i].model_name@, query@) || same_but_for_case(
            snapshot.models@[i].display_name@,
            query@,
        ),
        forall|j: int|
            0 <= j < snapshot.models@.len() && j != i ==> !same_but_for_case(
                (#[trigger] snapshot.models@[j]).model_name@,
                query@,
            ) && !same_but_for_case(snapshot.models@[j].display_name@, query@),
    ensures
        r is Ok,
        text::texts(r->Ok_0@) == report::chunked(
            report::status_head(
                snapshot.window_seconds,
                report::timestamp_text(snapshot.generated_at),
                report::daytime_text(health.last_success_at),
                report::is_stale(config, snapshot.generated_at, health.last_success_at),
                health.last_error@,
            ),
            seq![report::model_text(snapshot.models@[i])],
            config.bot.max_message_chars as int,
        ),
{
    let models = snapshot.models@;
    if r is Ok {
        let chosen = choose|chosen: Seq<ModelReport>|
            #[trigger] report::are_chosen(models, report::asked(Some(query)), chosen)
                && text::texts(r->Ok_0@) == report::chunked(
                report::status_head(
                    snapshot.window_seconds,
                    report::timestamp_text(snapshot.generated_at),
                    report::daytime_text(health.last_success_at),
                    report::is_stale(config, snapshot.generated_at, health.last_success_at),
                    health.last_error@,
                ),
                report::model_texts(chosen),
                config.bot.max_message_chars as int,
            );
        asked_models_are_chosen(models, query@, chosen);
        let k = choose|k: int|
            0 <= k < models.len() && chosen == seq![models[k]] && (same_but_for_case(
                (#[trigger] models[k]).model_name@,
                query@,
            ) || same_but_for_case(models[k].display_name@, query@));
        assert(k == i);
        assert(report::model_texts(chosen) =~= seq![report::model_text(models[i])]);
    } else {
        asked_models_are_chosen(models, query@, models);
        assert(!same_but_for_case(models[i].model_name@, query@));
    }
}

/// A report is cut into messages between its blocks alone, greedily and within the limit.
pub proof fn reports_are_cut_between_blocks(
    header: &str,
    blocks: Vec<String>,
    max_chars: usize,
    r: Vec<String>,
) -> (cuts: Seq<int>)
    requires
        call_ensures(report::chunk_reports, (header, &blocks, max_chars), r),
        !begins(header@, "📊 模型状态｜续"@),
        max_chars >= 200,
    ensures
        report::is_cut_at(
            header@,
            text::texts(blocks@),
            max_chars as int,
            text::texts(r@),
            cuts,
        ),
{
    report::chunks_keep_blocks_whole(header@, text::texts(blocks@), max_chars as int)
}

/// The list of models is headed by their number and holds each of them, and the time.
pub proof fn lists_are_of_all_models(config: AppConfig, generated: &str, r: Vec<String>)
    requires
        call_ensures(report::list_models, (&config, generated), r),
    ensures
        text::texts(r@) == report::chunked(
            "[模型监控白名单]\n共 "@ + decimal::decimal(config.models@.len() as int) + " 个模型"@,
            config.models@.map_values(|m: ModelConfig| report::listed_model(m)).push(
                "快照时间: "@ + generated@,
            ),
            config.bot.max_message_chars as int,
        ),
{
    let blocks = config.models@.map_values(|m: ModelConfig| report::listed_model(m)).push(
        "快照时间: "@ + generated@,
    );
    assert(blocks =~= report::listed_models(config.models@, generated@));
}

} // verus!
