//! What the figures of a window say of the requests in it, and what a status says of the
//! figures.
use vstd::prelude::*;
use vstd::seq_lib::*;

use crate::config::{AppConfig, ModelConfig};
use crate::double;
use crate::double::Double;
use crate::metrics;
use crate::metrics::{GroupReport, HealthStatus, MetricValues, ModelReport, WindowSnapshot};
use crate::query;
use crate::reordering;
use crate::repository;
use crate::repository::{Outcome, OutcomeRow, OutcomeState, Repository};
use crate::text;

verus! {

// ---------------------------------------------------------------------------
// Statuses
// ---------------------------------------------------------------------------
/// The status of figures: none without requests, too few below the asked number,
/// abnormal below the lower rate. With enough requests and at least the lower rate, it
/// is a fluctuation exactly if the rate is below the upper one or a 95% time is over its
/// limit: the model's own where it has one, the general one otherwise.
pub proof fn status_follows_from_figures(
    config: AppConfig,
    model: ModelConfig,
    figures: MetricValues,
)
    ensures
        ({
            let status = metrics::judged(config, model, figures);
            let enough = figures.requests > 0 && figures.requests >= config.status.minimum_samples;
            let poor = figures.success_rate.less(config.status.degraded_success_rate);
            let fair = figures.success_rate.less(config.status.normal_success_rate);
            let slow_total = exists|ms: i64|
                figures.p95_total_ms == Some(ms) && if model.max_total_ms is Some {
                    ms > model.max_total_ms->0
                } else {
                    ms > config.status.default_max_total_ms
                };
            let slow_ttft = exists|ms: i64|
                figures.p95_ttft_ms == Some(ms) && if model.max_ttft_ms is Some {
                    ms > model.max_ttft_ms->0
                } else {
                    ms > config.status.default_max_ttft_ms
                };
            &&& status == HealthStatus::NoData <==> figures.requests == 0
            &&& status == HealthStatus::InsufficientSamples <==> 0 < figures.requests
                < config.status.minimum_samples
            &&& status == HealthStatus::Abnormal <==> enough && poor
            &&& status == HealthStatus::Degraded <==> enough && !poor && (fair || slow_total
                || slow_ttft)
            &&& status == HealthStatus::Normal <==> enough && !poor && !fair && !slow_total
                && !slow_ttft
            &&& status != HealthStatus::Stale
        }),
{
    if figures.p95_total_ms is Some {
        assert(figures.p95_total_ms == Some(figures.p95_total_ms->0));
    }
    if figures.p95_ttft_ms is Some {
        assert(figures.p95_ttft_ms == Some(figures.p95_ttft_ms->0));
    }
}

/// Two numbers that are not below zero and not infinite compare as their bit patterns; a
/// number that is no number is below nothing and nothing is below it.
pub proof fn rates_compare_as_their_bits(a: Double, b: Double)
    ensures
        a.bits < 0x7ff0_0000_0000_0000 && b.bits < 0x7ff0_0000_0000_0000 ==> (a.less(b) <==> a.bits
            < b.bits),
        a.is_nan() || b.is_nan() ==> !a.less(b),
        a.bits == 0x7ff8_0000_0000_0000 ==> a.is_nan(),
{
}

/// A model has the status of its gravest group: one abnormal group makes it abnormal,
/// without such a one a fluctuating group makes it fluctuate, without either a group
/// without requests leaves it without requests, and so on down to normal.
pub proof fn gravest_group_decides(
    report: ModelReport,
    config: AppConfig,
    model: ModelConfig,
    rows: Seq<OutcomeRow>,
)
    requires
        report.reports(config, model, rows),
        report.groups@.len() > 0,
    ensures
        report.status == HealthStatus::Abnormal <==> has_group(
            report.groups@,
            HealthStatus::Abnormal,
        ),
        report.status == HealthStatus::Degraded <==> has_group(
            report.groups@,
            HealthStatus::Degraded,
        ) && !has_group(report.groups@, HealthStatus::Abnormal),
        report.status == HealthStatus::NoData <==> has_group(report.groups@, HealthStatus::NoData)
            && !has_group(report.groups@, HealthStatus::Degraded) && !has_group(
            report.groups@,
            HealthStatus::Abnormal,
        ),
        report.status == HealthStatus::InsufficientSamples <==> has_group(
            report.groups@,
            HealthStatus::InsufficientSamples,
        ) && !has_group(report.groups@, HealthStatus::NoData) && !has_group(
            report.groups@,
            HealthStatus::Degraded,
        ) && !has_group(report.groups@, HealthStatus::Abnormal),
        report.status == HealthStatus::Normal <==> forall|i: int|
            0 <= i < report.groups@.len() ==> (#[trigger] report.groups@[i]).status
                == HealthStatus::Normal,
        report.status != HealthStatus::Stale,
{
    let groups = report.groups@;
    let statuses = metrics::group_statuses(groups);
    gravest_is_one_of(statuses);
    let k = choose|k: int| 0 <= k < statuses.len() && #[trigger] statuses[k] == report.status;
    assert(groups[k].status == report.status);
    assert forall|i: int| 0 <= i < groups.len() implies (#[trigger] groups[i]).status.gravity()
        <= report.status.gravity() && groups[i].status != HealthStatus::Stale by {
        assert(statuses[i] == groups[i].status);
        assert(groups[i].reports(config, model, metrics::rows_in(rows, groups[i].group_name@)));
    }
}

/// Whether one of `groups` has this status.
pub open spec fn has_group(groups: Seq<GroupReport>, status: HealthStatus) -> bool {
    exists|i: int| 0 <= i < groups.len() && (#[trigger] groups[i]).status == status
}

proof fn gravest_is_one_of(statuses: Seq<HealthStatus>)
    requires
        statuses.len() > 0,
    ensures
        exists|k: int|
            0 <= k < statuses.len() && #[trigger] statuses[k] == metrics::gravest(statuses),
        forall|i: int|
            0 <= i < statuses.len() ==> (#[trigger] statuses[i]).gravity() <= metrics::gravest(
                statuses,
            ).gravity(),
    decreases statuses.len(),
{
    let last = statuses.len() - 1;
    assert(statuses[last] == statuses.last());
    if statuses.len() > 1 {
        let rest = statuses.drop_last();
        gravest_is_one_of(rest);
        let k = choose|k: int| 0 <= k < rest.len() && #[trigger] rest[k] == metrics::gravest(rest);
        assert(statuses[k] == rest[k]);
        assert forall|i: int| 0 <= i < statuses.len() implies (#[trigger] statuses[i]).gravity()
            <= metrics::gravest(statuses).gravity() by {
            if i < last {
                assert(rest[i] == statuses[i]);
            }
        }
    }
}

/// Each status has a word of its own.
pub proof fn statuses_have_words(a: HealthStatus, b: HealthStatus)
    ensures
        a != b ==> a.words() != b.words(),
        a == HealthStatus::Normal ==> a.words() == "正常"@,
        a == HealthStatus::Degraded ==> a.words() == "波动"@,
        a == HealthStatus::Abnormal ==> a.words() == "异常"@,
        a == HealthStatus::NoData ==> a.words() == "暂无样本"@,
        a == HealthStatus::Stale ==> a.words() == "数据过期"@,
        a == HealthStatus::InsufficientSamples ==> a.words() == "样本不足"@,
{
    reveal_strlit("正常");
    reveal_strlit("波动");
    reveal_strlit("异常");
    reveal_strlit("暂无样本");
    reveal_strlit("数据过期");
    reveal_strlit("样本不足");
    let wa = a.words();
    let wb = b.words();
    assert(wa[0] == '正' || wa[0] == '波' || wa[0] == '异' || wa[0] == '暂' || wa[0] == '数'
        || wa[0] == '样');
    if a != b {
        assert(wa[0] != wb[0]);
    }
}

// ---------------------------------------------------------------------------
// Counts and rates
// ---------------------------------------------------------------------------
/// A request more counts as one request, under exactly one of the three outcomes, and
/// moves the time of the latest request forward or leaves it.
pub proof fn one_request_more(
    rows: Seq<OutcomeRow>,
    row: OutcomeRow,
    before: MetricValues,
    after: MetricValues,
)
    requires
        before.measures(rows),
        after.measures(rows.push(row)),
    ensures
        after.requests == before.requests + 1,
        row.outcome@ == "success"@ ==> after.successes == before.successes + 1
            && after.partial_failures == before.partial_failures && after.failures
            == before.failures,
        row.outcome@ == "partial_failed"@ ==> after.successes == before.successes
            && after.partial_failures == before.partial_failures + 1 && after.failures
            == before.failures,
        row.outcome@ != "success"@ && row.outcome@ != "partial_failed"@ ==> after.successes
            == before.successes && after.partial_failures == before.partial_failures
            && after.failures == before.failures + 1,
        rows.len() == 0 || row.last_seen > before.latest_at ==> after.latest_at == row.last_seen,
        rows.len() > 0 && row.last_seen <= before.latest_at ==> after.latest_at == before.latest_at,
{
    reveal(Seq::filter);
    reveal_strlit("success");
    reveal_strlit("partial_failed");
    assert(rows.push(row).drop_last() =~= rows);
    assert("success"@.len() != "partial_failed"@.len());
}

/// Figures of no request are all zero or missing.
pub proof fn no_requests_give_no_figures(figures: MetricValues)
    requires
        figures.measures(Seq::empty()),
    ensures
        figures.requests == 0,
        figures.successes == 0,
        figures.failures == 0,
        figures.partial_failures == 0,
        figures.success_rate.bits == 0,
        figures.error_rate.bits == 0,
        figures.attempt_error_rate.bits == 0,
        figures.retry_rate.bits == 0,
        figures.avg_ttft_ms is None,
        figures.p50_ttft_ms is None,
        figures.p95_ttft_ms is None,
        figures.avg_total_ms is None,
        figures.p50_total_ms is None,
        figures.p95_total_ms is None,
        figures.latest_at == 0,
        figures.error_codes@.len() == 0,
        figures.retry_channel_chains@.len() == 0,
{
    broadcast use group_to_multiset_ensures;

    reveal(Seq::filter);
    let names = Seq::<Seq<char>>::empty();
    assert(names.to_multiset() =~= vstd::multiset::Multiset::empty());
    if figures.error_codes@.len() > 0 {
        let tally = metrics::entries(figures.error_codes@);
        assert(tally[0].1 == names.to_multiset().count(tally[0].0));
    }
    if figures.retry_channel_chains@.len() > 0 {
        let tally = metrics::entries(figures.retry_channel_chains@);
        assert(tally[0].1 == names.to_multiset().count(tally[0].0));
    }
}

/// More than one attempt.
pub open spec fn was_retried() -> spec_fn(OutcomeRow) -> bool {
    |row: OutcomeRow| row.attempt_count >= 2
}

/// The attempts that a row tells.
pub open spec fn told_attempts() -> spec_fn(OutcomeRow) -> int {
    |row: OutcomeRow|
        if row.attempt_count > 0 {
            row.attempt_count as int
        } else {
            0
        }
}

/// The failed attempts that a row tells.
pub open spec fn told_errors() -> spec_fn(OutcomeRow) -> int {
    |row: OutcomeRow|
        if row.error_count > 0 {
            row.error_count as int
        } else {
            0
        }
}

/// The rates are shares of what was counted: the success rate of the successes, the
/// error rate of all other requests, broken streams among them, and the retry rate of
/// the requests with a second attempt, each among the requests; the attempt error rate
/// of the failed attempts among the attempts.
pub proof fn rates_are_shares_of_the_counts(figures: MetricValues, rows: Seq<OutcomeRow>)
    requires
        figures.measures(rows),
        0 <= reordering::total(rows, told_attempts()) <= u64::MAX,
        0 <= reordering::total(rows, told_errors()) <= u64::MAX,
    ensures
        figures.success_rate.bits == double::percentage_bits(
            figures.successes as int,
            figures.requests as int,
        ),
        figures.error_rate.bits == double::percentage_bits(
            figures.failures + figures.partial_failures,
            figures.requests as int,
        ),
        figures.retry_rate.bits == double::percentage_bits(
            rows.filter(was_retried()).len() as int,
            figures.requests as int,
        ),
        figures.attempt_error_rate.bits == double::percentage_bits(
            reordering::total(rows, told_errors()),
            reordering::total(rows, told_attempts()),
        ),
{
    counts_are_totals(rows);
    let f = |row: OutcomeRow| row.attempt_count > 1;
    assert(f =~= was_retried());
}

proof fn counts_are_totals(rows: Seq<OutcomeRow>)
    ensures
        metrics::attempts_in(rows) == reordering::total(rows, told_attempts()),
        metrics::errors_in(rows) == reordering::total(rows, told_errors()),
    decreases rows.len(),
{
    if rows.len() > 0 {
        counts_are_totals(rows.drop_last());
    }
}

// ---------------------------------------------------------------------------
// Times
// ---------------------------------------------------------------------------
/// The total times of those requests that have one.
pub open spec fn total_times(rows: Seq<OutcomeRow>) -> Seq<i64> {
    rows.filter(|row: OutcomeRow| row.total_ms is Some).map_values(
        |row: OutcomeRow| row.total_ms->0,
    )
}

/// The times to the first token of those requests that have one.
pub open spec fn ttft_times(rows: Seq<OutcomeRow>) -> Seq<i64> {
    rows.filter(|row: OutcomeRow| row.ttft_ms is Some).map_values(|row: OutcomeRow| row.ttft_ms->0)
}

/// A time as a number.
pub open spec fn as_number() -> spec_fn(i64) -> int {
    |ms: i64| ms as int
}

/// At most `v`.
pub open spec fn at_most(v: i64) -> spec_fn(i64) -> bool {
    |x: i64| x <= v
}

/// Less than `v`.
pub open spec fn less_than(v: i64) -> spec_fn(i64) -> bool {
    |x: i64| x < v
}

/// Whether `mean` is the mean of `times` but for a fraction, nearer to zero; nothing
/// exactly of no times.
pub open spec fn is_mean(mean: Option<i64>, times: Seq<i64>) -> bool {
    let sum = reordering::total(times, as_number());
    let n = times.len();
    match mean {
        None => n == 0,
        Some(m) => {
            &&& n > 0
            &&& sum >= 0 ==> m * n <= sum < (m + 1) * n
            &&& sum <= 0 ==> (m - 1) * n < sum <= m * n
        },
    }
}

/// Whether `value` stands at `part` of `whole` of `times`: it is one of them, more than
/// that share of them are at most as long, and no more than that share are shorter;
/// nothing exactly of no times.
pub open spec fn is_quantile(value: Option<i64>, times: Seq<i64>, part: int, whole: int) -> bool {
    match value {
        None => times.len() == 0,
        Some(v) => {
            &&& times.contains(v)
            &&& whole * times.filter(at_most(v)).len() > part * times.len()
            &&& whole * times.filter(less_than(v)).len() <= part * times.len()
        },
    }
}

/// The six times are the mean, the median and the 95% quantile of the times to the first
/// token and of the total times that the requests have.
pub proof fn times_are_those_of_the_requests(figures: MetricValues, rows: Seq<OutcomeRow>)
    requires
        figures.measures(rows),
        rows.len() <= 0x100_0000_0000,
    ensures
        is_mean(figures.avg_total_ms, total_times(rows)),
        is_quantile(figures.p50_total_ms, total_times(rows), 1, 2),
        is_quantile(figures.p95_total_ms, total_times(rows), 19, 20),
        is_mean(figures.avg_ttft_ms, ttft_times(rows)),
        is_quantile(figures.p50_ttft_ms, ttft_times(rows), 1, 2),
        is_quantile(figures.p95_ttft_ms, ttft_times(rows), 19, 20),
{
    times_are_listed(rows);
    mean_lies_between(total_times(rows));
    mean_lies_between(ttft_times(rows));
    quantiles_divide(total_times(rows));
    quantiles_divide(ttft_times(rows));
}

proof fn times_are_listed(rows: Seq<OutcomeRow>)
    ensures
        metrics::totals_in(rows) == total_times(rows),
        metrics::ttfts_in(rows) == ttft_times(rows),
        total_times(rows).len() <= rows.len(),
        ttft_times(rows).len() <= rows.len(),
    decreases rows.len(),
{
    reveal(Seq::filter);
    if rows.len() > 0 {
        times_are_listed(rows.drop_last());
        assert(metrics::totals_in(rows) =~= total_times(rows));
        assert(metrics::ttfts_in(rows) =~= ttft_times(rows));
    } else {
        assert(metrics::totals_in(rows) =~= total_times(rows));
        assert(metrics::ttfts_in(rows) =~= ttft_times(rows));
    }
}

proof fn sum_is_total(times: Seq<i64>)
    ensures
        metrics::sum_of(times) == reordering::total(times, as_number()),
        i64::MIN * times.len() <= metrics::sum_of(times) <= i64::MAX * times.len(),
    decreases times.len(),
{
    if times.len() > 0 {
        sum_is_total(times.drop_last());
    }
}

proof fn mean_lies_between(times: Seq<i64>)
    ensures
        is_mean(metrics::mean_of(times), times),
{
    sum_is_total(times);
    if times.len() > 0 {
        let sum = metrics::sum_of(times);
        let n = times.len() as int;
        let size = if sum >= 0 {
            sum
        } else {
            -sum
        };
        let q = size / n;
        vstd::arithmetic::div_mod::lemma_fundamental_div_mod(size, n);
        vstd::arithmetic::div_mod::lemma_mod_bound(size, n);
        assert(q * n <= size < (q + 1) * n) by (nonlinear_arith)
            requires
                size == n * q + size % n,
                0 <= size % n < n,
        ;
        assert(0 <= q <= 0x8000_0000_0000_0000) by (nonlinear_arith)
            requires
                n > 0,
                0 <= size <= 0x8000_0000_0000_0000 * n,
                q * n <= size < (q + 1) * n,
        ;
        if sum >= 0 {
            assert(q <= 0x7fff_ffff_ffff_ffff) by (nonlinear_arith)
                requires
                    n > 0,
                    size <= 0x7fff_ffff_ffff_ffff * n,
                    q * n <= size < (q + 1) * n,
            ;
            if sum == 0 {
                assert(q == 0) by (nonlinear_arith)
                    requires
                        n > 0,
                        q * n <= 0 < (q + 1) * n,
                ;
                assert((q - 1) * n < 0 && q * n == 0) by (nonlinear_arith)
                    requires
                        q == 0,
                        n > 0,
                ;
            }
        } else {
            assert((-q) * n == -(q * n) && (-q - 1) * n == -((q + 1) * n)) by (nonlinear_arith);
        }
    }
}

proof fn quantiles_divide(times: Seq<i64>)
    requires
        times.len() <= 0x100_0000_0000,
    ensures
        is_quantile(
            metrics::percentile_of(times, Double { bits: metrics::MEDIAN_BITS }),
            times,
            1,
            2,
        ),
        is_quantile(
            metrics::percentile_of(times, Double { bits: metrics::P95_BITS }),
            times,
            19,
            20,
        ),
{
    if times.len() > 0 {
        let half = Double { bits: metrics::MEDIAN_BITS };
        let most = Double { bits: metrics::P95_BITS };
        double::halves_and_twentieths_are_places(times.len() as int);
        reordering::percentile_divides_the_values(times, times, half);
        reordering::percentile_divides_the_values(times, times, most);
        metrics::percentiles_are_values_in_order(times, half, half);
        metrics::percentiles_are_values_in_order(times, most, most);
        let v = metrics::percentile_of(times, half)->0;
        assert(at_most(v) =~= (|x: i64| x <= v));
        assert(less_than(v) =~= (|x: i64| x < v));
        let w = metrics::percentile_of(times, most)->0;
        assert(at_most(w) =~= (|x: i64| x <= w));
        assert(less_than(w) =~= (|x: i64| x < w));
    }
}

// ---------------------------------------------------------------------------
// Errors and chains by name
// ---------------------------------------------------------------------------
/// A request that did not succeed and whose error goes by `name`; a request that tells no
/// error goes by `unknown_error`.
pub open spec fn failed_as(name: Seq<char>) -> spec_fn(OutcomeRow) -> bool {
    |row: OutcomeRow|
        row.outcome@ != "success"@ && if row.latest_error_code@.len() > 0 {
            row.latest_error_code@ == name
        } else {
            name == "unknown_error"@
        }
}

/// A request whose retry chain is `chain`.
pub open spec fn went_over(chain: Seq<char>) -> spec_fn(OutcomeRow) -> bool {
    |row: OutcomeRow| chain.len() > 0 && row.latest_retry_channel_chain@ == chain
}

/// The errors of a window are listed by name, each once, with the number of requests
/// that did not succeed and go by it; the more frequent come first, and of equally
/// frequent ones the alphabetically first.
pub proof fn errors_are_counted_by_name(
    figures: MetricValues,
    rows: Seq<OutcomeRow>,
    name: Seq<char>,
)
    requires
        figures.measures(rows),
    ensures
        (exists|i: int|
            0 <= i < figures.error_codes@.len() && (#[trigger] figures.error_codes@[i]).0@ == name)
            <==> rows.filter(failed_as(name)).len() > 0,
        forall|i: int|
            0 <= i < figures.error_codes@.len() && (#[trigger] figures.error_codes@[i]).0@ == name
                ==> figures.error_codes@[i].1 == rows.filter(failed_as(name)).len(),
        forall|i: int, j: int|
            0 <= i < j < figures.error_codes@.len() ==> {
                ||| (#[trigger] figures.error_codes@[i]).1 > (#[trigger] figures.error_codes@[j]).1
                ||| figures.error_codes@[i].1 == figures.error_codes@[j].1 && text::text_less(
                    figures.error_codes@[i].0@,
                    figures.error_codes@[j].0@,
                )
            },
{
    names_are_counted(rows, name);
    tally_tells(metrics::errors_named(rows), figures.error_codes@, name);
}

/// The retry chains of a window are listed in the same way, each with the number of
/// requests that went over it.
pub proof fn chains_are_counted(figures: MetricValues, rows: Seq<OutcomeRow>, chain: Seq<char>)
    requires
        figures.measures(rows),
    ensures
        (exists|i: int|
            0 <= i < figures.retry_channel_chains@.len() && (
            #[trigger] figures.retry_channel_chains@[i]).0@ == chain) <==> rows.filter(
            went_over(chain),
        ).len() > 0,
        forall|i: int|
            0 <= i < figures.retry_channel_chains@.len() && (
            #[trigger] figures.retry_channel_chains@[i]).0@ == chain
                ==> figures.retry_channel_chains@[i].1 == rows.filter(went_over(chain)).len(),
        forall|i: int, j: int|
            0 <= i < j < figures.retry_channel_chains@.len() ==> {
                ||| (#[trigger] figures.retry_channel_chains@[i]).1 > (
                #[trigger] figures.retry_channel_chains@[j]).1
                ||| figures.retry_channel_chains@[i].1 == figures.retry_channel_chains@[j].1
                    && text::text_less(
                    figures.retry_channel_chains@[i].0@,
                    figures.retry_channel_chains@[j].0@,
                )
            },
{
    names_are_counted(rows, chain);
    tally_tells(metrics::chains_named(rows), figures.retry_channel_chains@, chain);
}

proof fn names_are_counted(rows: Seq<OutcomeRow>, name: Seq<char>)
    ensures
        metrics::errors_named(rows).to_multiset().count(name) == rows.filter(failed_as(name)).len(),
        metrics::chains_named(rows).to_multiset().count(name) == rows.filter(went_over(name)).len(),
    decreases rows.len(),
{
    broadcast use group_to_multiset_ensures;

    reveal(Seq::filter);
    if rows.len() > 0 {
        names_are_counted(rows.drop_last(), name);
    }
}

proof fn tally_tells(names: Seq<Seq<char>>, tally: Seq<(String, u64)>, name: Seq<char>)
    requires
        metrics::is_tally(names, metrics::entries(tally)),
    ensures
        (exists|i: int| 0 <= i < tally.len() && (#[trigger] tally[i]).0@ == name)
            <==> names.to_multiset().count(name) > 0,
        forall|i: int|
            0 <= i < tally.len() && (#[trigger] tally[i]).0@ == name ==> tally[i].1
                == names.to_multiset().count(name),
        forall|i: int, j: int|
            0 <= i < j < tally.len() ==> {
                ||| (#[trigger] tally[i]).1 > (#[trigger] tally[j]).1
                ||| tally[i].1 == tally[j].1 && text::text_less(tally[i].0@, tally[j].0@)
            },
{
    broadcast use group_to_multiset_ensures;

    let entries = metrics::entries(tally);
    assert forall|i: int| 0 <= i < tally.len() implies (#[trigger] tally[i]).1
        == names.to_multiset().count(tally[i].0@) && tally[i].1 > 0 by {
        assert(entries[i].1 > 0);
    }
    assert forall|i: int, j: int| 0 <= i < j < tally.len() implies {
        ||| (#[trigger] tally[i]).1 > (#[trigger] tally[j]).1
        ||| tally[i].1 == tally[j].1 && text::text_less(tally[i].0@, tally[j].0@)
    } by {
        assert(metrics::stands_before(entries[i], entries[j]));
    }
    if names.to_multiset().count(name) > 0 {
        assert(names.contains(name));
        let j = choose|j: int| 0 <= j < names.len() && names[j] == name;
        assert(metrics::lists(entries, names[j]));
        let i = choose|i: int| 0 <= i < entries.len() && (#[trigger] entries[i]).0 == name;
        assert(tally[i].0@ == name);
    }
}

// ---------------------------------------------------------------------------
// Which requests a report is about
// ---------------------------------------------------------------------------
/// A request of this model since this time, in one of the model's groups: any group where
/// the model names none, and always one whose route is not known.
pub open spec fn is_of_model(model: ModelConfig, since: int) -> spec_fn(OutcomeRow) -> bool {
    |row: OutcomeRow|
        {
            &&& row.model_name@ == model.name@
            &&& row.last_seen >= since
            &&& {
                ||| model.groups@.len() == 0
                ||| row.group_name@ == "自动路由/未确认"@
                ||| exists|i: int|
                    0 <= i < model.groups@.len() && (#[trigger] model.groups@[i])@
                        == row.group_name@
            }
        }
}

/// Such a request in this very group.
pub open spec fn is_of_group(
    model: ModelConfig,
    since: int,
    group: Seq<char>,
) -> spec_fn(OutcomeRow) -> bool {
    |row: OutcomeRow| is_of_model(model, since)(row) && row.group_name@ == group
}

/// A snapshot has one report for each watched model, in their order, under the model's
/// name and its display name where it has one. The report counts exactly the requests of
/// the model in the window, each of its groups exactly those of the group; the groups are
/// those in which there are such requests and those that the model names, in order and
/// each once.
pub proof fn reports_are_about_the_window(
    snapshot: WindowSnapshot,
    config: AppConfig,
    rows: Seq<OutcomeRow>,
    generated_at: i64,
    window_seconds: i64,
    i: int,
)
    requires
        snapshot.reports(config, rows, generated_at, window_seconds),
        i64::MIN <= generated_at - window_seconds <= i64::MAX,
        0 <= i < config.models@.len(),
    ensures
        snapshot.generated_at == generated_at,
        snapshot.window_seconds == window_seconds,
        snapshot.models@.len() == config.models@.len(),
        ({
            let report = snapshot.models@[i];
            let model = config.models@[i];
            let since = generated_at - window_seconds;
            &&& report.model_name@ == model.name@
            &&& model.display_name@.len() > 0 ==> report.display_name@ == model.display_name@
            &&& model.display_name@.len() == 0 ==> report.display_name@ == model.name@
            &&& report.overall.measures(rows.filter(is_of_model(model, since)))
            &&& forall|g: int|
                0 <= g < report.groups@.len() ==> (#[trigger] report.groups@[g]).metrics.measures(
                    rows.filter(is_of_group(model, since, report.groups@[g].group_name@)),
                )
            &&& forall|g: int|
                0 <= g < report.groups@.len() ==> (#[trigger] report.groups@[g]).status
                    == metrics::judged(config, model, report.groups@[g].metrics)
            &&& report.groups@.len() == 0 ==> report.status == metrics::judged(
                config,
                model,
                report.overall,
            )
            &&& forall|name: Seq<char>|
                rows.filter(#[trigger] is_of_group(model, since, name)).len() > 0 || (exists|k: int|
                    0 <= k < model.groups@.len() && (#[trigger] model.groups@[k])@ == name)
                    <==> exists|g: int|
                    0 <= g < report.groups@.len() && (#[trigger] report.groups@[g]).group_name@
                        == name
            &&& forall|g: int, h: int|
                0 <= g < h < report.groups@.len() ==> text::text_less(
                    (#[trigger] report.groups@[g]).group_name@,
                    (#[trigger] report.groups@[h]).group_name@,
                )
        }),
{
    let report = snapshot.models@[i];
    let model = config.models@[i];
    let since = generated_at - window_seconds;
    let chosen = metrics::rows_for(rows, model, since);
    assert(report.reports(config, model, chosen));
    let f = |row: OutcomeRow| metrics::counts_for(row, model, since);
    assert forall|row: OutcomeRow| #[trigger] f(row) == is_of_model(model, since)(row) by {
        let names = text::texts(model.groups@);
        if names.contains(row.group_name@) {
            let k = choose|k: int| 0 <= k < names.len() && names[k] == row.group_name@;
            assert(model.groups@[k]@ == row.group_name@);
        }
        if exists|k: int|
            0 <= k < model.groups@.len() && (#[trigger] model.groups@[k])@ == row.group_name@ {
            let k = choose|k: int|
                0 <= k < model.groups@.len() && (#[trigger] model.groups@[k])@ == row.group_name@;
            assert(names[k] == row.group_name@);
        }
    }
    assert(f =~= is_of_model(model, since));
    assert(chosen == rows.filter(is_of_model(model, since)));
    assert forall|name: Seq<char>|
        metrics::rows_in(chosen, name) == rows.filter(#[trigger] is_of_group(model, since, name)) by {
        filters_combine(rows, model, since, name);
    }
    let names = metrics::group_names(report.groups@);
    assert forall|g: int| 0 <= g < report.groups@.len() implies (
    #[trigger] report.groups@[g]).reports(
        config,
        model,
        metrics::rows_in(chosen, report.groups@[g].group_name@),
    ) && names[g] == report.groups@[g].group_name@ by {}
    assert forall|name: Seq<char>|
        rows.filter(#[trigger] is_of_group(model, since, name)).len() > 0 || (exists|k: int|
            0 <= k < model.groups@.len() && (#[trigger] model.groups@[k])@ == name)
            <==> exists|g: int|
            0 <= g < report.groups@.len() && (#[trigger] report.groups@[g]).group_name@ == name by {
        groups_are_found(chosen, model, report.groups@, name);
        filters_combine(rows, model, since, name);
    }
    assert forall|g: int, h: int| 0 <= g < h < report.groups@.len() implies text::text_less(
        (#[trigger] report.groups@[g]).group_name@,
        (#[trigger] report.groups@[h]).group_name@,
    ) by {
        assert(text::text_less(names[g], names[h]));
    }
}

proof fn filters_combine(rows: Seq<OutcomeRow>, model: ModelConfig, since: int, name: Seq<char>)
    ensures
        metrics::rows_in(rows.filter(is_of_model(model, since)), name) == rows.filter(
            is_of_group(model, since, name),
        ),
    decreases rows.len(),
{
    reveal(Seq::filter);
    if rows.len() > 0 {
        let rest = rows.drop_last();
        filters_combine(rest, model, since, name);
        let kept = rest.filter(is_of_model(model, since));
        assert(kept.push(rows.last()).drop_last() =~= kept);
    }
}

proof fn groups_are_found(
    rows: Seq<OutcomeRow>,
    model: ModelConfig,
    groups: Seq<GroupReport>,
    name: Seq<char>,
)
    requires
        metrics::are_groups(rows, text::texts(model.groups@), metrics::group_names(groups)),
    ensures
        metrics::rows_in(rows, name).len() > 0 || (exists|k: int|
            0 <= k < model.groups@.len() && (#[trigger] model.groups@[k])@ == name) <==> exists|
            g: int,
        |
            0 <= g < groups.len() && (#[trigger] groups[g]).group_name@ == name,
{
    let names = metrics::group_names(groups);
    let listed = text::texts(model.groups@);
    rows_in_are_found(rows, name);
    if names.contains(name) {
        let g = choose|g: int| 0 <= g < names.len() && names[g] == name;
        assert(groups[g].group_name@ == name);
        if listed.contains(name) {
            let k = choose|k: int| 0 <= k < listed.len() && listed[k] == name;
            assert(model.groups@[k]@ == name);
        }
    } else {
        assert forall|g: int| 0 <= g < groups.len() implies (#[trigger] groups[g]).group_name@
            != name by {
            assert(names[g] == groups[g].group_name@);
        }
        assert forall|k: int| 0 <= k < model.groups@.len() implies (#[trigger] model.groups@[k])@
            != name by {
            assert(listed[k] == model.groups@[k]@);
        }
    }
}

proof fn rows_in_are_found(rows: Seq<OutcomeRow>, name: Seq<char>)
    ensures
        metrics::rows_in(rows, name).len() > 0 <==> exists|i: int|
            0 <= i < rows.len() && (#[trigger] rows[i]).group_name@ == name,
    decreases rows.len(),
{
    reveal(Seq::filter);
    if rows.len() > 0 {
        let rest = rows.drop_last();
        rows_in_are_found(rest, name);
        assert(rows[rows.len() - 1] == rows.last());
        if exists|i: int| 0 <= i < rest.len() && (#[trigger] rest[i]).group_name@ == name {
            let i = choose|i: int| 0 <= i < rest.len() && (#[trigger] rest[i]).group_name@ == name;
            assert(rows[i] == rest[i]);
        } else if rows.last().group_name@ != name {
            assert forall|i: int| 0 <= i < rows.len() implies (#[trigger] rows[i]).group_name@
                != name by {
                if i < rest.len() {
                    assert(rest[i] == rows[i]);
                }
            }
        }
    }
}

// ---------------------------------------------------------------------------
// At the moment of a question
// ---------------------------------------------------------------------------
/// A request that does not wait for payment, of this model since this time, in one of
/// the model's groups.
pub open spec fn counts_now(model: ModelConfig, since: int) -> spec_fn(OutcomeState) -> bool {
    |state: OutcomeState|
        {
            &&& state.outcome != Outcome::Pending
            &&& state.last_seen >= since
            &&& state.model_name == model.name@
            &&& {
                ||| model.groups@.len() == 0
                ||| state.group_name == "自动路由/未确认"@
                ||| exists|i: int|
                    0 <= i < model.groups@.len() && (#[trigger] model.groups@[i])@
                        == state.group_name
            }
        }
}

/// A question about a window is answered from the store as it is: the report on a model
/// counts exactly the stored requests of the model in the window that do not wait for
/// payment.
pub proof fn questions_are_answered_from_the_store(
    config: AppConfig,
    store: Repository,
    window_seconds: i64,
    now: i64,
    r: WindowSnapshot,
    i: int,
)
    requires
        call_ensures(query::load_window_snapshot, (&config, &store, window_seconds, now), r),
        i64::MIN <= now - window_seconds <= i64::MAX,
        0 <= i < config.models@.len(),
    ensures
        r.generated_at == now,
        r.window_seconds == window_seconds,
        r.models@.len() == config.models@.len(),
        r.models@[i].overall.requests == repository::states_of(store.outcomes@).filter(
            counts_now(config.models@[i], now - window_seconds),
        ).len(),
{
    let since = now - window_seconds;
    let states = repository::states_of(store.outcomes@);
    let counted = repository::counted_since(states, since);
    let rows = choose|rows: Seq<OutcomeRow>|
        #[trigger] query::show_all(rows, counted) && r.reports(config, rows, now, window_seconds);
    reports_are_about_the_window(r, config, rows, now, window_seconds, i);
    counted_records_are_settled(states, since);
    rows_count_as_records(rows, counted, config.models@[i], since);
    records_count_once(states, config.models@[i], since);
}

proof fn rows_count_as_records(
    rows: Seq<OutcomeRow>,
    counted: Seq<OutcomeState>,
    model: ModelConfig,
    since: int,
)
    requires
        query::show_all(rows, counted),
        forall|i: int|
            0 <= i < counted.len() ==> (#[trigger] counted[i]).outcome != Outcome::Pending
                && counted[i].last_seen >= since,
    ensures
        rows.filter(is_of_model(model, since)).len() == counted.filter(
            counts_now(model, since),
        ).len(),
    decreases rows.len(),
{
    reveal(Seq::filter);
    if rows.len() > 0 {
        let last = rows.len() - 1;
        assert(rows[last].shows(counted[last]));
        assert forall|i: int| 0 <= i < last implies (#[trigger] rows.drop_last()[i]).shows(
            counted.drop_last()[i],
        ) by {
            assert(rows[i].shows(counted[i]));
        }
        rows_count_as_records(rows.drop_last(), counted.drop_last(), model, since);
        assert(is_of_model(model, since)(rows.last()) == counts_now(model, since)(counted.last()));
    }
}

proof fn records_count_once(states: Seq<OutcomeState>, model: ModelConfig, since: int)
    ensures
        repository::counted_since(states, since).filter(counts_now(model, since)).len()
            == states.filter(counts_now(model, since)).len(),
    decreases states.len(),
{
    reveal(Seq::filter);
    if states.len() > 0 {
        let rest = states.drop_last();
        records_count_once(rest, model, since);
        let kept = repository::counted_since(rest, since);
        assert(kept.push(states.last()).drop_last() =~= kept);
    }
}

proof fn counted_records_are_settled(states: Seq<OutcomeState>, since: int)
    ensures
        forall|i: int|
            0 <= i < repository::counted_since(states, since).len() ==> (
            #[trigger] repository::counted_since(states, since)[i]).outcome != Outcome::Pending
                && repository::counted_since(states, since)[i].last_seen >= since,
    decreases states.len(),
{
    reveal(Seq::filter);
    if states.len() > 0 {
        counted_records_are_settled(states.drop_last(), since);
    }
}

/// Reports are kept ready for a quarter of an hour, an hour, a day and a week, and for no
/// other window.
pub proof fn four_windows_are_kept_ready(
    config: AppConfig,
    rows: &[OutcomeRow],
    now: i64,
    r: std::collections::HashMap<i64, WindowSnapshot>,
    window: i64,
)
    requires
        call_ensures(metrics::snapshot_map, (&config, rows, now), r),
    ensures
        r@.contains_key(window) <==> window == 15 * 60 || window == 60 * 60 || window == 24 * 60
            * 60 || window == 7 * 24 * 60 * 60,
        r@.contains_key(window) ==> r@[window].reports(config, rows@, now, window),
{
    let windows = metrics::WINDOWS@;
    assert(windows.len() == 4);
    assert(windows[0] == 900 && windows[1] == 3_600 && windows[2] == 86_400 && windows[3]
        == 604_800);
}

// ---------------------------------------------------------------------------
// The operations themselves
// ---------------------------------------------------------------------------
/// With enough requests and at least the lower success rate, a model is judged as
/// fluctuating whenever a 95% time is over its limit, and as normal only if neither is
/// and the rate is not below the upper one.
pub proof fn slow_models_are_judged_as_fluctuating(
    config: AppConfig,
    model: ModelConfig,
    figures: MetricValues,
    status: HealthStatus,
    max_total: i64,
    max_ttft: i64,
)
    requires
        call_ensures(metrics::classify, (&config, &model, &figures), status),
        figures.requests > 0,
        figures.requests >= config.status.minimum_samples,
        !figures.success_rate.less(config.status.degraded_success_rate),
        model.max_total_ms == Some(max_total) || (model.max_total_ms is None && max_total
            == config.status.default_max_total_ms),
        model.max_ttft_ms == Some(max_ttft) || (model.max_ttft_ms is None && max_ttft
            == config.status.default_max_ttft_ms),
    ensures
        figures.p95_total_ms is Some && figures.p95_total_ms->0 > max_total ==> status
            == HealthStatus::Degraded,
        figures.p95_ttft_ms is Some && figures.p95_ttft_ms->0 > max_ttft ==> status
            == HealthStatus::Degraded,
        figures.success_rate.less(config.status.normal_success_rate) ==> status
            == HealthStatus::Degraded,
        (figures.p95_total_ms is Some ==> figures.p95_total_ms->0 <= max_total) && (
        figures.p95_ttft_ms is Some ==> figures.p95_ttft_ms->0 <= max_ttft)
            && !figures.success_rate.less(config.status.normal_success_rate) <==> status
            == HealthStatus::Normal,
{
    status_follows_from_figures(config, model, figures);
}

/// Without requests there is nothing to judge, with too few there is too little, and with
/// enough a success rate below the lower one is abnormal, however fast they were.
pub proof fn failing_models_are_judged_as_abnormal(
    config: AppConfig,
    model: ModelConfig,
    figures: MetricValues,
    status: HealthStatus,
)
    requires
        call_ensures(metrics::classify, (&config, &model, &figures), status),
    ensures
        figures.requests == 0 <==> status == HealthStatus::NoData,
        0 < figures.requests < config.status.minimum_samples <==> status
            == HealthStatus::InsufficientSamples,
        figures.requests > 0 && figures.requests >= config.status.minimum_samples
            && figures.success_rate.less(config.status.degraded_success_rate) <==> status
            == HealthStatus::Abnormal,
{
    status_follows_from_figures(config, model, figures);
}

/// The mean of a list is exact but for a fraction, and the value at the quantile 0.5 or
/// 0.95 divides the list as it says.
pub proof fn averages_and_percentiles_are_of_the_list(
    values: Vec<i64>,
    mean: Option<i64>,
    median: Option<i64>,
    most: Option<i64>,
)
    requires
        call_ensures(metrics::average, (&values,), mean),
        call_ensures(
            metrics::percentile,
            (&values, Double { bits: 0x3fe0_0000_0000_0000 }),
            median,
        ),
        call_ensures(metrics::percentile, (&values, Double { bits: 0x3fee_6666_6666_6666 }), most),
        values@.len() <= 0x100_0000_0000,
    ensures
        is_mean(mean, values@),
        is_quantile(median, values@, 1, 2),
        is_quantile(most, values@, 19, 20),
{
    mean_lies_between(values@);
    quantiles_divide(values@);
}

/// A snapshot reports on every watched model in turn, each with its figures over exactly
/// its requests in the window.
pub proof fn snapshots_are_about_the_window(
    config: AppConfig,
    rows: &[OutcomeRow],
    now: i64,
    window: i64,
    snapshot: WindowSnapshot,
    i: int,
)
    requires
        call_ensures(metrics::build_snapshot, (&config, rows, now, window), snapshot),
        i64::MIN <= now - window <= i64::MAX,
        0 <= i < config.models@.len(),
    ensures
        snapshot.generated_at == now,
        snapshot.window_seconds == window,
        snapshot.models@.len() == config.models@.len(),
        snapshot.models@[i].model_name@ == config.models@[i].name@,
        snapshot.models@[i].overall.measures(
            rows@.filter(is_of_model(config.models@[i], now - window)),
        ),
{
    reports_are_about_the_window(snapshot, config, rows@, now, window, i);
}

/// Figures are made of the requests that they are asked of, and each request counts once.
pub proof fn figures_are_made_of_the_requests(
    rows: metrics::Accumulator,
    figures: MetricValues,
)
    requires
        call_ensures(metrics::Accumulator::finish, (rows,), figures),
    ensures
        figures.measures(rows.rows@),
        figures.requests == rows.rows@.len(),
        figures.successes + figures.failures + figures.partial_failures == figures.requests,
{
    metrics::every_request_counts_once(figures, rows.rows@);
}

} // verus!
