//! Metrics: what the outcomes of requests say about a model and its groups.
use vstd::prelude::*;
use vstd::seq_lib::*;
use vstd::string::*;

use std::collections::HashMap;

use crate::config::{AppConfig, ModelConfig};
use crate::domain::UNKNOWN_GROUP;
use crate::double;
use crate::double::Double;
use crate::num;
use crate::order;
use crate::repository::OutcomeRow;
use crate::text;

verus! {

/// How a model or a group is doing.
#[derive(Clone, Copy, Debug, PartialEq, Eq, PartialOrd, Ord, Structural)]
pub enum HealthStatus {
    Normal,
    InsufficientSamples,
    NoData,
    Degraded,
    Abnormal,
    Stale,
}

impl HealthStatus {
    /// How grave a status is.
    pub open spec fn gravity(self) -> int {
        match self {
            HealthStatus::Normal => 0,
            HealthStatus::InsufficientSamples => 1,
            HealthStatus::NoData => 2,
            HealthStatus::Degraded => 3,
            HealthStatus::Abnormal => 4,
            HealthStatus::Stale => 5,
        }
    }

    fn rank(self) -> (r: u8)
        ensures
            r == self.gravity(),
    {
        match self {
            HealthStatus::Normal => 0,
            HealthStatus::InsufficientSamples => 1,
            HealthStatus::NoData => 2,
            HealthStatus::Degraded => 3,
            HealthStatus::Abnormal => 4,
            HealthStatus::Stale => 5,
        }
    }

    /// The status in words.
    pub open spec fn words(self) -> Seq<char> {
        match self {
            HealthStatus::Normal => "正常"@,
            HealthStatus::InsufficientSamples => "样本不足"@,
            HealthStatus::NoData => "暂无样本"@,
            HealthStatus::Degraded => "波动"@,
            HealthStatus::Abnormal => "异常"@,
            HealthStatus::Stale => "数据过期"@,
        }
    }

    pub fn label(self) -> (r: &'static str)
        ensures
            r@ == self.words(),
    {
        match self {
            HealthStatus::Normal => "正常",
            HealthStatus::InsufficientSamples => "样本不足",
            HealthStatus::NoData => "暂无样本",
            HealthStatus::Degraded => "波动",
            HealthStatus::Abnormal => "异常",
            HealthStatus::Stale => "数据过期",
        }
    }
}

/// What a number of requests amounts to.
#[derive(Clone, Debug)]
pub struct MetricValues {
    pub requests: u64,
    pub successes: u64,
    pub failures: u64,
    pub partial_failures: u64,
    pub success_rate: Double,
    pub error_rate: Double,
    pub attempt_error_rate: Double,
    pub retry_rate: Double,
    pub avg_ttft_ms: Option<i64>,
    pub p50_ttft_ms: Option<i64>,
    pub p95_ttft_ms: Option<i64>,
    pub avg_total_ms: Option<i64>,
    pub p50_total_ms: Option<i64>,
    pub p95_total_ms: Option<i64>,
    pub latest_at: i64,
    pub error_codes: Vec<(String, u64)>,
    pub retry_channel_chains: Vec<(String, u64)>,
}

impl Default for MetricValues {
    fn default() -> (r: Self)
        ensures
            r.requests == 0 && r.successes == 0 && r.failures == 0 && r.partial_failures == 0,
            r.success_rate.bits == 0 && r.error_rate.bits == 0,
            r.attempt_error_rate.bits == 0 && r.retry_rate.bits == 0,
            r.avg_ttft_ms is None && r.p50_ttft_ms is None && r.p95_ttft_ms is None,
            r.avg_total_ms is None && r.p50_total_ms is None && r.p95_total_ms is None,
            r.latest_at == 0,
            r.error_codes@.len() == 0,
            r.retry_channel_chains@.len() == 0,
    {
        MetricValues {
            requests: 0,
            successes: 0,
            failures: 0,
            partial_failures: 0,
            success_rate: Double { bits: 0 },
            error_rate: Double { bits: 0 },
            attempt_error_rate: Double { bits: 0 },
            retry_rate: Double { bits: 0 },
            avg_ttft_ms: None,
            p50_ttft_ms: None,
            p95_ttft_ms: None,
            avg_total_ms: None,
            p50_total_ms: None,
            p95_total_ms: None,
            latest_at: 0,
            error_codes: Vec::new(),
            retry_channel_chains: Vec::new(),
        }
    }
}

// ---------------------------------------------------------------------------
// Averages and percentiles
// ---------------------------------------------------------------------------
/// The sum of `values`.
pub open spec fn sum_of(values: Seq<i64>) -> int
    decreases values.len(),
{
    if values.len() == 0 {
        0
    } else {
        sum_of(values.drop_last()) + values.last()
    }
}

/// `a` divided by the positive number `b`, without the fraction.
pub open spec fn quotient(a: int, b: int) -> int {
    if a >= 0 {
        a / b
    } else {
        -((-a) / b)
    }
}

/// The mean of `values`, without the fraction.
pub open spec fn mean_of(values: Seq<i64>) -> Option<i64> {
    if values.len() == 0 {
        None
    } else {
        Some(quotient(sum_of(values), values.len() as int) as i64)
    }
}

proof fn quotient_fits(sum: int, n: int)
    requires
        n > 0,
        i64::MIN * n <= sum <= i64::MAX * n,
    ensures
        i64::MIN <= quotient(sum, n) <= i64::MAX,
{
    if sum >= 0 {
        assert(sum / n <= 0x7fff_ffff_ffff_ffff) by (nonlinear_arith)
            requires
                n > 0,
                0 <= sum <= 0x7fff_ffff_ffff_ffff * n,
        ;
        assert(sum / n >= 0) by (nonlinear_arith)
            requires
                n > 0,
                0 <= sum,
        ;
    } else {
        let size = -sum;
        assert(size / n <= 0x8000_0000_0000_0000) by (nonlinear_arith)
            requires
                n > 0,
                0 <= size <= 0x8000_0000_0000_0000 * n,
        ;
        assert(size / n >= 0) by (nonlinear_arith)
            requires
                n > 0,
                0 <= size,
        ;
    }
}

/// The mean of `values`, without the fraction; nothing of no values.
pub fn average(values: &Vec<i64>) -> (r: Option<i64>)
    ensures
        r == mean_of(values@),
{
    if values.len() == 0 {
        return None;
    }
    let mut sum: i128 = 0;
    let mut i: usize = 0;
    while i < values.len()
        invariant
            i <= values@.len(),
            sum == sum_of(values@.take(i as int)),
            i64::MIN * i <= sum <= i64::MAX * i,
        decreases values@.len() - i,
    {
        assert(values@.take(i + 1).drop_last() == values@.take(i as int));
        assert(-0x7fff_ffff_ffff_ffff_0000_0000_0000_0000 <= i64::MIN * i) by (nonlinear_arith)
            requires
                0 <= i < 0xffff_ffff_ffff_ffff,
        ;
        assert(i64::MAX * i <= 0x7fff_ffff_ffff_ffff_0000_0000_0000_0000) by (nonlinear_arith)
            requires
                0 <= i < 0xffff_ffff_ffff_ffff,
        ;
        sum = sum + values[i] as i128;
        i = i + 1;
    }
    assert(values@.take(i as int) == values@);
    let n: i128 = values.len() as i128;
    proof {
        quotient_fits(sum as int, n as int);
    }
    if sum >= 0 {
        Some((sum / n) as i64)
    } else {
        let mean: i128 = (-sum) / n;
        Some((-mean) as i64)
    }
}

/// The bits of 0.5.
pub const MEDIAN_BITS: u64 = 0x3fe0_0000_0000_0000;

/// The bits of the number nearest to 0.95.
pub const P95_BITS: u64 = 0x3fee_6666_6666_6666;

/// The value at a quantile of `values`: at the place in their order that is this share
/// of the way from the first to the last.
pub open spec fn percentile_of(values: Seq<i64>, quantile: Double) -> Option<i64> {
    match quantile.place_among(values.len() as int) {
        Some(place) => Some(order::in_order(values)[place]),
        None => None,
    }
}

/// The value at a quantile of `values`; nothing of no values.
pub fn percentile(values: &Vec<i64>, quantile: Double) -> (r: Option<i64>)
    ensures
        r == percentile_of(values@, quantile),
{
    let sorted = order::sort(values);
    match quantile.find_place(values.len()) {
        Some(place) => Some(sorted[place]),
        None => None,
    }
}

// ---------------------------------------------------------------------------
// Counting
// ---------------------------------------------------------------------------
/// The rows with this outcome.
pub open spec fn with_outcome(rows: Seq<OutcomeRow>, outcome: Seq<char>) -> Seq<OutcomeRow> {
    rows.filter(|row: OutcomeRow| row.outcome@ == outcome)
}

/// The rows of requests that took more than one attempt.
pub open spec fn retried(rows: Seq<OutcomeRow>) -> Seq<OutcomeRow> {
    rows.filter(|row: OutcomeRow| row.attempt_count > 1)
}

/// A count that is not negative.
pub open spec fn counted(n: i64) -> int {
    if n < 0 {
        0
    } else {
        n as int
    }
}

/// The attempts of all rows.
pub open spec fn attempts_in(rows: Seq<OutcomeRow>) -> int
    decreases rows.len(),
{
    if rows.len() == 0 {
        0
    } else {
        attempts_in(rows.drop_last()) + counted(rows.last().attempt_count)
    }
}

/// The failed attempts of all rows.
pub open spec fn errors_in(rows: Seq<OutcomeRow>) -> int
    decreases rows.len(),
{
    if rows.len() == 0 {
        0
    } else {
        errors_in(rows.drop_last()) + counted(rows.last().error_count)
    }
}

/// `n`, held at the largest `u64`.
pub open spec fn capped(n: int) -> int {
    if n > u64::MAX {
        u64::MAX as int
    } else {
        n
    }
}

/// The times to the first response that the rows tell.
pub open spec fn ttfts_in(rows: Seq<OutcomeRow>) -> Seq<i64>
    decreases rows.len(),
{
    if rows.len() == 0 {
        Seq::empty()
    } else {
        match rows.last().ttft_ms {
            Some(ms) => ttfts_in(rows.drop_last()).push(ms),
            None => ttfts_in(rows.drop_last()),
        }
    }
}

/// The total times that the rows tell.
pub open spec fn totals_in(rows: Seq<OutcomeRow>) -> Seq<i64>
    decreases rows.len(),
{
    if rows.len() == 0 {
        Seq::empty()
    } else {
        match rows.last().total_ms {
            Some(ms) => totals_in(rows.drop_last()).push(ms),
            None => totals_in(rows.drop_last()),
        }
    }
}

/// The latest time in the rows; 0 where there are none.
pub open spec fn latest_in(rows: Seq<OutcomeRow>) -> i64
    decreases rows.len(),
{
    if rows.len() == 0 {
        0
    } else if rows.len() == 1 || rows.last().last_seen > latest_in(rows.drop_last()) {
        rows.last().last_seen
    } else {
        latest_in(rows.drop_last())
    }
}

/// The name of an error in the statistics.
pub open spec fn error_name(code: Seq<char>) -> Seq<char> {
    if code.len() == 0 {
        "unknown_error"@
    } else {
        code
    }
}

/// The errors of the rows that are no success.
pub open spec fn errors_named(rows: Seq<OutcomeRow>) -> Seq<Seq<char>>
    decreases rows.len(),
{
    if rows.len() == 0 {
        Seq::empty()
    } else if rows.last().outcome@ != "success"@ {
        errors_named(rows.drop_last()).push(error_name(rows.last().latest_error_code@))
    } else {
        errors_named(rows.drop_last())
    }
}

/// The retry chains of the rows that have one.
pub open spec fn chains_named(rows: Seq<OutcomeRow>) -> Seq<Seq<char>>
    decreases rows.len(),
{
    if rows.len() == 0 {
        Seq::empty()
    } else if rows.last().latest_retry_channel_chain@.len() > 0 {
        chains_named(rows.drop_last()).push(rows.last().latest_retry_channel_chain@)
    } else {
        chains_named(rows.drop_last())
    }
}

fn count_outcome(rows: &Vec<OutcomeRow>, outcome: &str) -> (n: u64)
    ensures
        n == with_outcome(rows@, outcome@).len(),
        n <= rows@.len(),
{
    let mut n: u64 = 0;
    let mut i: usize = 0;
    proof {
        reveal(Seq::filter);
        assert(rows@.take(0) == Seq::<OutcomeRow>::empty());
    }
    while i < rows.len()
        invariant
            i <= rows@.len(),
            n <= i,
            n == with_outcome(rows@.take(i as int), outcome@).len(),
        decreases rows@.len() - i,
    {
        proof {
            reveal(Seq::filter);
            assert(rows@.take(i + 1).drop_last() == rows@.take(i as int));
        }
        if text::same_text(rows[i].outcome.as_str(), outcome) {
            n = n + 1;
        }
        i = i + 1;
    }
    assert(rows@.take(i as int) == rows@);
    n
}

fn count_retried(rows: &Vec<OutcomeRow>) -> (n: u64)
    ensures
        n == retried(rows@).len(),
        n <= rows@.len(),
{
    let mut n: u64 = 0;
    let mut i: usize = 0;
    proof {
        reveal(Seq::filter);
        assert(rows@.take(0) == Seq::<OutcomeRow>::empty());
    }
    while i < rows.len()
        invariant
            i <= rows@.len(),
            n <= i,
            n == retried(rows@.take(i as int)).len(),
        decreases rows@.len() - i,
    {
        proof {
            reveal(Seq::filter);
            assert(rows@.take(i + 1).drop_last() == rows@.take(i as int));
        }
        if rows[i].attempt_count > 1 {
            n = n + 1;
        }
        i = i + 1;
    }
    assert(rows@.take(i as int) == rows@);
    n
}

fn cap(n: u128) -> (r: u64)
    ensures
        r == capped(n as int),
{
    if n > u64::MAX as u128 {
        u64::MAX
    } else {
        n as u64
    }
}

fn sum_counts(rows: &Vec<OutcomeRow>) -> (r: (u64, u64))
    ensures
        r.0 == capped(attempts_in(rows@)),
        r.1 == capped(errors_in(rows@)),
{
    let mut attempts: u128 = 0;
    let mut errors: u128 = 0;
    let mut i: usize = 0;
    while i < rows.len()
        invariant
            i <= rows@.len(),
            attempts == attempts_in(rows@.take(i as int)),
            errors == errors_in(rows@.take(i as int)),
            attempts <= 0x7fff_ffff_ffff_ffff * i,
            errors <= 0x7fff_ffff_ffff_ffff * i,
        decreases rows@.len() - i,
    {
        assert(rows@.take(i + 1).drop_last() == rows@.take(i as int));
        if rows[i].attempt_count > 0 {
            attempts = attempts + rows[i].attempt_count as u128;
        }
        if rows[i].error_count > 0 {
            errors = errors + rows[i].error_count as u128;
        }
        i = i + 1;
    }
    assert(rows@.take(i as int) == rows@);
    (cap(attempts), cap(errors))
}

fn collect_times(rows: &Vec<OutcomeRow>) -> (r: (Vec<i64>, Vec<i64>))
    ensures
        r.0@ == ttfts_in(rows@),
        r.1@ == totals_in(rows@),
{
    let mut ttfts: Vec<i64> = Vec::new();
    let mut totals: Vec<i64> = Vec::new();
    let mut i: usize = 0;
    while i < rows.len()
        invariant
            i <= rows@.len(),
            ttfts@ == ttfts_in(rows@.take(i as int)),
            totals@ == totals_in(rows@.take(i as int)),
        decreases rows@.len() - i,
    {
        assert(rows@.take(i + 1).drop_last() == rows@.take(i as int));
        match rows[i].ttft_ms {
            Some(ms) => {
                ttfts.push(ms);
            },
            None => {},
        }
        match rows[i].total_ms {
            Some(ms) => {
                totals.push(ms);
            },
            None => {},
        }
        i = i + 1;
    }
    assert(rows@.take(i as int) == rows@);
    (ttfts, totals)
}

fn latest(rows: &Vec<OutcomeRow>) -> (r: i64)
    ensures
        r == latest_in(rows@),
{
    let mut r: i64 = 0;
    let mut i: usize = 0;
    while i < rows.len()
        invariant
            i <= rows@.len(),
            r == latest_in(rows@.take(i as int)),
        decreases rows@.len() - i,
    {
        assert(rows@.take(i + 1).drop_last() == rows@.take(i as int));
        if i == 0 || rows[i].last_seen > r {
            r = rows[i].last_seen;
        }
        i = i + 1;
    }
    assert(rows@.take(i as int) == rows@);
    r
}

fn collect_names(rows: &Vec<OutcomeRow>) -> (r: (Vec<String>, Vec<String>))
    ensures
        text::texts(r.0@) == errors_named(rows@),
        text::texts(r.1@) == chains_named(rows@),
{
    let mut errors: Vec<String> = Vec::new();
    let mut chains: Vec<String> = Vec::new();
    let mut i: usize = 0;
    assert(text::texts(errors@) =~= Seq::<Seq<char>>::empty());
    while i < rows.len()
        invariant
            i <= rows@.len(),
            text::texts(errors@) == errors_named(rows@.take(i as int)),
            text::texts(chains@) == chains_named(rows@.take(i as int)),
        decreases rows@.len() - i,
    {
        assert(rows@.take(i + 1).drop_last() == rows@.take(i as int));
        if !text::same_text(rows[i].outcome.as_str(), "success") {
            let name = if text::char_count(rows[i].latest_error_code.as_str()) == 0 {
                "unknown_error".to_string()
            } else {
                rows[i].latest_error_code.clone()
            };
            let ghost before = text::texts(errors@);
            let ghost added = name@;
            errors.push(name);
            assert(text::texts(errors@) =~= before.push(added));
        }
        if text::char_count(rows[i].latest_retry_channel_chain.as_str()) > 0 {
            let ghost before = text::texts(chains@);
            chains.push(rows[i].latest_retry_channel_chain.clone());
            assert(text::texts(chains@) =~= before.push(
                rows@[i as int].latest_retry_channel_chain@,
            ));
        }
        i = i + 1;
    }
    assert(rows@.take(i as int) == rows@);
    (errors, chains)
}

// ---------------------------------------------------------------------------
// Tallies
// ---------------------------------------------------------------------------
/// The names and counts of a tally.
pub open spec fn entries(pairs: Seq<(String, u64)>) -> Seq<(Seq<char>, int)> {
    pairs.map_values(|p: (String, u64)| (p.0@, p.1 as int))
}

/// Whether `a` stands before `b` in a tally: the larger count first, then by name.
pub open spec fn stands_before(a: (Seq<char>, int), b: (Seq<char>, int)) -> bool {
    a.1 > b.1 || (a.1 == b.1 && text::text_less(a.0, b.0))
}

/// Whether `tally` has an entry for `name`.
pub open spec fn lists(tally: Seq<(Seq<char>, int)>, name: Seq<char>) -> bool {
    exists|i: int| 0 <= i < tally.len() && (#[trigger] tally[i]).0 == name
}

/// Whether `tally` says how often each of `names` occurs, the most frequent first.
pub open spec fn is_tally(names: Seq<Seq<char>>, tally: Seq<(Seq<char>, int)>) -> bool {
    &&& forall|i: int|
        0 <= i < tally.len() ==> (#[trigger] tally[i]).1 == names.to_multiset().count(tally[i].0)
            && tally[i].1 > 0
    &&& forall|j: int| 0 <= j < names.len() ==> lists(tally, #[trigger] names[j])
    &&& forall|i: int, j: int|
        0 <= i < j < tally.len() ==> stands_before(#[trigger] tally[i], #[trigger] tally[j])
}

spec fn counts_names(names: Seq<Seq<char>>, counts: Seq<(Seq<char>, int)>) -> bool {
    &&& forall|i: int|
        0 <= i < counts.len() ==> (#[trigger] counts[i]).1 == names.to_multiset().count(counts[i].0)
            && counts[i].1 > 0
    &&& forall|j: int| 0 <= j < names.len() ==> lists(counts, #[trigger] names[j])
    &&& forall|i: int, j: int|
        0 <= i < j < counts.len() ==> (#[trigger] counts[i]).0 != (#[trigger] counts[j]).0
}

fn count_names(names: &Vec<String>) -> (counts: Vec<(String, u64)>)
    ensures
        counts_names(text::texts(names@), entries(counts@)),
{
    let ghost all = text::texts(names@);
    let mut counts: Vec<(String, u64)> = Vec::new();
    let mut i: usize = 0;
    while i < names.len()
        invariant
            i <= names@.len(),
            all == text::texts(names@),
            counts_names(all.take(i as int), entries(counts@)),
        decreases names@.len() - i,
    {
        let ghost seen = all.take(i as int);
        let ghost before = entries(counts@);
        let ghost name = all[i as int];
        proof {
            broadcast use group_to_multiset_ensures;

            order::push_adds_one(all, i as int);
            assert(seen.to_multiset().len() == seen.len());
            assert(seen.to_multiset().count(name) <= seen.to_multiset().len());
        }
        let mut k: usize = 0;
        while k < counts.len() && !text::same_text(counts[k].0.as_str(), names[i].as_str())
            invariant
                k <= counts@.len(),
                i < names@.len(),
                name == names@[i as int]@,
                before == entries(counts@),
                forall|l: int| 0 <= l < k ==> (#[trigger] before[l]).0 != name,
            decreases counts@.len() - k,
        {
            assert(before[k as int].0 == counts@[k as int].0@);
            k = k + 1;
        }
        if k < counts.len() {
            assert(before[k as int].0 == name);
            let n: u64 = counts[k].1;
            assert(n == seen.to_multiset().count(name));
            let text = counts[k].0.clone();
            counts.set(k, (text, n + 1));
            proof {
                let after = entries(counts@);
                assert(after =~= before.update(k as int, (name, n + 1)));
                assert forall|j: int| 0 <= j < i + 1 implies lists(
                    after,
                    #[trigger] all.take(i + 1)[j],
                ) by {
                    if j < i {
                        assert(seen[j] == all.take(i + 1)[j]);
                        let l = choose|l: int|
                            0 <= l < before.len() && (#[trigger] before[l]).0 == seen[j];
                        assert(after[l].0 == before[l].0);
                    } else {
                        assert(after[k as int].0 == name);
                    }
                }
            }
        } else {
            proof {
                broadcast use group_to_multiset_ensures;

                if seen.contains(name) {
                    let j = choose|j: int| 0 <= j < seen.len() && seen[j] == name;
                    assert(seen[j] == name);
                    let l = choose|l: int|
                        0 <= l < before.len() && (#[trigger] before[l]).0 == seen[j];
                    assert(before[l].0 == name);
                }
                assert(seen.to_multiset().count(name) == 0);
            }
            counts.push((names[i].clone(), 1));
            proof {
                let after = entries(counts@);
                assert(after =~= before.push((name, 1)));
                assert forall|j: int| 0 <= j < i + 1 implies lists(
                    after,
                    #[trigger] all.take(i + 1)[j],
                ) by {
                    if j < i {
                        assert(seen[j] == all.take(i + 1)[j]);
                        let l = choose|l: int|
                            0 <= l < before.len() && (#[trigger] before[l]).0 == seen[j];
                        assert(after[l].0 == before[l].0);
                    } else {
                        assert(after[before.len() as int].0 == name);
                    }
                }
            }
        }
        i = i + 1;
    }
    assert(all.take(i as int) =~= all);
    counts
}

proof fn stands_before_is_transitive(
    a: (Seq<char>, int),
    b: (Seq<char>, int),
    c: (Seq<char>, int),
)
    requires
        stands_before(a, b),
        stands_before(b, c),
    ensures
        stands_before(a, c),
{
    if a.1 == b.1 && b.1 == c.1 {
        text::text_less_transitive(a.0, b.0, c.0);
    }
}

fn is_before(a: &(String, u64), b: &(String, u64)) -> (r: bool)
    ensures
        r == stands_before((a.0@, a.1 as int), (b.0@, b.1 as int)),
{
    a.1 > b.1 || (a.1 == b.1 && text::comes_before(a.0.as_str(), b.0.as_str()))
}

spec fn in_tally_order(entries: Seq<(Seq<char>, int)>) -> bool {
    forall|i: int, j: int|
        0 <= i < j < entries.len() ==> stands_before(#[trigger] entries[i], #[trigger] entries[j])
}

fn insert_entry(sorted: &mut Vec<(String, u64)>, item: (String, u64))
    requires
        in_tally_order(entries(old(sorted)@)),
        forall|i: int| 0 <= i < old(sorted)@.len() ==> (#[trigger] old(sorted)@[i]).0@ != item.0@,
    ensures
        in_tally_order(entries(final(sorted)@)),
        exists|at: int|
            0 <= at <= old(sorted)@.len() && entries(final(sorted)@) == #[trigger] entries(
                old(sorted)@,
            ).insert(at, (item.0@, item.1 as int)),
{
    let ghost before = entries(sorted@);
    let ghost entry = (item.0@, item.1 as int);
    let mut at: usize = 0;
    while at < sorted.len() && !is_before(&item, &sorted[at])
        invariant
            at <= sorted@.len(),
            entry == (item.0@, item.1 as int),
            before == entries(sorted@),
            sorted@ == old(sorted)@,
            forall|k: int| 0 <= k < at ==> !stands_before(entry, #[trigger] before[k]),
        decreases sorted@.len() - at,
    {
        assert(before[at as int] == (sorted@[at as int].0@, sorted@[at as int].1 as int));
        at = at + 1;
    }
    sorted.insert(at, item);
    proof {
        let after = entries(sorted@);
        assert(after =~= before.insert(at as int, entry));
        assert forall|k: int| 0 <= k < at implies stands_before(#[trigger] before[k], entry) by {
            assert(before[k].0 == old(sorted)@[k].0@);
            text::text_less_total(entry.0, before[k].0);
            assert(!stands_before(entry, before[k]));
        }
        if at < before.len() {
            assert(stands_before(entry, before[at as int]));
        }
        assert forall|k: int| at <= k < before.len() implies stands_before(
            entry,
            #[trigger] before[k],
        ) by {
            if k > at {
                stands_before_is_transitive(entry, before[at as int], before[k]);
            }
        }
        assert forall|k: int, l: int| 0 <= k < l < after.len() implies stands_before(
            #[trigger] after[k],
            #[trigger] after[l],
        ) by {
            if k < at && l < at {
                assert(stands_before(before[k], before[l]));
            } else if k < at && l > at {
                assert(stands_before(before[k], before[l - 1]));
            } else if k > at {
                assert(stands_before(before[k - 1], before[l - 1]));
            }
        }
    }
}

/// Counts how often each of `names` occurs, the most frequent first.
pub fn tally(names: &Vec<String>) -> (r: Vec<(String, u64)>)
    ensures
        is_tally(text::texts(names@), entries(r@)),
{
    let counts = count_names(names);
    let ghost all = entries(counts@);
    let mut sorted: Vec<(String, u64)> = Vec::new();
    let mut i: usize = 0;
    assert(entries(sorted@) =~= all.take(0));
    while i < counts.len()
        invariant
            i <= counts@.len(),
            all == entries(counts@),
            counts_names(text::texts(names@), all),
            entries(sorted@).to_multiset() == all.take(i as int).to_multiset(),
            in_tally_order(entries(sorted@)),
        decreases counts@.len() - i,
    {
        let ghost before = entries(sorted@);
        proof {
            broadcast use group_to_multiset_ensures;

            assert forall|k: int| 0 <= k < sorted@.len() implies (#[trigger] sorted@[k]).0@
                != counts@[i as int].0@ by {
                assert(before[k].0 == sorted@[k].0@);
                assert(before.to_multiset().contains(before[k]));
                assert(all.take(i as int).contains(before[k]));
                let l = choose|l: int| 0 <= l < i && all.take(i as int)[l] == before[k];
                assert(all[l].0 != all[i as int].0);
            }
        }
        insert_entry(&mut sorted, (counts[i].0.clone(), counts[i].1));
        proof {
            broadcast use group_to_multiset_ensures;

            order::push_adds_one(all, i as int);
            let entry = all[i as int];
            let at = choose|at: int|
                0 <= at <= before.len() && entries(sorted@) == #[trigger] before.insert(at, entry);
            assert(entries(sorted@).to_multiset() =~= before.to_multiset().insert(entry));
        }
        i = i + 1;
    }
    proof {
        broadcast use group_to_multiset_ensures;

        let r = entries(sorted@);
        let texts = text::texts(names@);
        assert(all.take(i as int) =~= all);
        assert forall|k: int| 0 <= k < r.len() implies (#[trigger] r[k]).1
            == texts.to_multiset().count(r[k].0) && r[k].1 > 0 by {
            assert(r.to_multiset().contains(r[k]));
            assert(all.contains(r[k]));
            let l = choose|l: int| 0 <= l < all.len() && all[l] == r[k];
            assert(all[l].1 > 0);
        }
        assert forall|j: int| 0 <= j < texts.len() implies lists(r, #[trigger] texts[j]) by {
            assert(lists(all, texts[j]));
            let l = choose|l: int| 0 <= l < all.len() && (#[trigger] all[l]).0 == texts[j];
            assert(all.to_multiset().contains(all[l]));
            assert(r.contains(all[l]));
            let k = choose|k: int| 0 <= k < r.len() && r[k] == all[l];
            assert(r[k].0 == texts[j]);
        }
    }
    sorted
}

// ---------------------------------------------------------------------------
// Metrics of a number of requests
// ---------------------------------------------------------------------------
impl MetricValues {
    /// Whether these are the metrics of the requests in `rows`.
    pub open spec fn measures(self, rows: Seq<OutcomeRow>) -> bool {
        let successes = with_outcome(rows, "success"@).len();
        let partial = with_outcome(rows, "partial_failed"@).len();
        &&& self.requests == rows.len()
        &&& self.successes == successes
        &&& self.partial_failures == partial
        &&& self.failures == rows.len() - successes - partial
        &&& self.success_rate.bits == double::percentage_bits(
            successes as int,
            rows.len() as int,
        )
        &&& self.error_rate.bits == double::percentage_bits(
            rows.len() - successes,
            rows.len() as int,
        )
        &&& self.attempt_error_rate.bits == double::percentage_bits(
            capped(errors_in(rows)),
            capped(attempts_in(rows)),
        )
        &&& self.retry_rate.bits == double::percentage_bits(
            retried(rows).len() as int,
            rows.len() as int,
        )
        &&& self.avg_ttft_ms == mean_of(ttfts_in(rows))
        &&& self.p50_ttft_ms == percentile_of(ttfts_in(rows), Double { bits: MEDIAN_BITS })
        &&& self.p95_ttft_ms == percentile_of(ttfts_in(rows), Double { bits: P95_BITS })
        &&& self.avg_total_ms == mean_of(totals_in(rows))
        &&& self.p50_total_ms == percentile_of(totals_in(rows), Double { bits: MEDIAN_BITS })
        &&& self.p95_total_ms == percentile_of(totals_in(rows), Double { bits: P95_BITS })
        &&& self.latest_at == latest_in(rows)
        &&& is_tally(errors_named(rows), entries(self.error_codes@))
        &&& is_tally(chains_named(rows), entries(self.retry_channel_chains@))
    }
}

proof fn outcomes_are_disjoint(rows: Seq<OutcomeRow>)
    ensures
        with_outcome(rows, "success"@).len() + with_outcome(rows, "partial_failed"@).len()
            <= rows.len(),
    decreases rows.len(),
{
    reveal(Seq::filter);
    reveal_strlit("success");
    reveal_strlit("partial_failed");
    if rows.len() > 0 {
        outcomes_are_disjoint(rows.drop_last());
        assert("success"@.len() == 7);
        assert("partial_failed"@.len() == 14);
    }
}

proof fn errors_are_attempts(rows: Seq<OutcomeRow>)
    requires
        forall|i: int|
            0 <= i < rows.len() ==> (#[trigger] rows[i]).error_count <= rows[i].attempt_count,
    ensures
        errors_in(rows) <= attempts_in(rows),
    decreases rows.len(),
{
    if rows.len() > 0 {
        let rest = rows.drop_last();
        assert forall|i: int| 0 <= i < rest.len() implies (#[trigger] rest[i]).error_count
            <= rest[i].attempt_count by {
            assert(rest[i] == rows[i]);
        }
        errors_are_attempts(rest);
        assert(rows[rows.len() - 1].error_count <= rows[rows.len() - 1].attempt_count);
    }
}

/// A number of requests that are measured together.
#[derive(Debug)]
pub struct Accumulator {
    pub rows: Vec<OutcomeRow>,
}

impl Accumulator {
    /// Measures the requests. Rates are percentages, and all successes are exactly
    /// 100 percent.
    pub fn finish(self) -> (r: MetricValues)
        ensures
            r.measures(self.rows@),
            r.success_rate.is_percentage(),
            r.error_rate.is_percentage(),
            r.retry_rate.is_percentage(),
            (forall|i: int|
                0 <= i < self.rows@.len() ==> (#[trigger] self.rows@[i]).error_count
                    <= self.rows@[i].attempt_count) ==> r.attempt_error_rate.is_percentage(),
            r.requests > 0 && r.successes == r.requests ==> r.success_rate.bits
                == double::HUNDRED_BITS,
    {
        let requests: u64 = self.rows.len() as u64;
        let successes: u64 = count_outcome(&self.rows, "success");
        let partial_failures: u64 = count_outcome(&self.rows, "partial_failed");
        proof {
            outcomes_are_disjoint(self.rows@);
            if forall|i: int|
                0 <= i < self.rows@.len() ==> (#[trigger] self.rows@[i]).error_count
                    <= self.rows@[i].attempt_count {
                errors_are_attempts(self.rows@);
            }
        }
        let failures: u64 = requests - (successes + partial_failures);
        let (attempts, errors) = sum_counts(&self.rows);
        let retries: u64 = count_retried(&self.rows);
        let (ttft, totals) = collect_times(&self.rows);
        let (error_names, chain_names) = collect_names(&self.rows);
        MetricValues {
            requests,
            successes,
            failures,
            partial_failures,
            success_rate: double::percentage(successes, requests),
            error_rate: double::percentage(failures + partial_failures, requests),
            attempt_error_rate: double::percentage(errors, attempts),
            retry_rate: double::percentage(retries, requests),
            avg_ttft_ms: average(&ttft),
            p50_ttft_ms: percentile(&ttft, Double { bits: MEDIAN_BITS }),
            p95_ttft_ms: percentile(&ttft, Double { bits: P95_BITS }),
            avg_total_ms: average(&totals),
            p50_total_ms: percentile(&totals, Double { bits: MEDIAN_BITS }),
            p95_total_ms: percentile(&totals, Double { bits: P95_BITS }),
            latest_at: latest(&self.rows),
            error_codes: tally(&error_names),
            retry_channel_chains: tally(&chain_names),
        }
    }
}

// ---------------------------------------------------------------------------
// Judging
// ---------------------------------------------------------------------------
/// Whether a time is longer than a limit.
pub open spec fn too_long(time: Option<i64>, limit: i64) -> bool {
    match time {
        Some(ms) => ms > limit,
        None => false,
    }
}

/// The limit of a model, or the general one.
pub open spec fn limit_of(own: Option<i64>, general: i64) -> i64 {
    match own {
        Some(ms) => ms,
        None => general,
    }
}

/// The status that metrics stand for.
pub open spec fn judged(
    config: AppConfig,
    model: ModelConfig,
    metrics: MetricValues,
) -> HealthStatus {
    if metrics.requests == 0 {
        HealthStatus::NoData
    } else if metrics.requests < config.status.minimum_samples {
        HealthStatus::InsufficientSamples
    } else if metrics.success_rate.less(config.status.degraded_success_rate) {
        HealthStatus::Abnormal
    } else if metrics.success_rate.less(config.status.normal_success_rate) || too_long(
        metrics.p95_ttft_ms,
        limit_of(model.max_ttft_ms, config.status.default_max_ttft_ms),
    ) || too_long(
        metrics.p95_total_ms,
        limit_of(model.max_total_ms, config.status.default_max_total_ms),
    ) {
        HealthStatus::Degraded
    } else {
        HealthStatus::Normal
    }
}

/// The status that metrics stand for.
pub fn classify(config: &AppConfig, model: &ModelConfig, metrics: &MetricValues) -> (r:
    HealthStatus)
    ensures
        r == judged(*config, *model, *metrics),
{
    if metrics.requests == 0 {
        return HealthStatus::NoData;
    }
    if metrics.requests < config.status.minimum_samples {
        return HealthStatus::InsufficientSamples;
    }
    if metrics.success_rate.is_less(config.status.degraded_success_rate) {
        return HealthStatus::Abnormal;
    }
    let max_ttft: i64 = match model.max_ttft_ms {
        Some(ms) => ms,
        None => config.status.default_max_ttft_ms,
    };
    let max_total: i64 = match model.max_total_ms {
        Some(ms) => ms,
        None => config.status.default_max_total_ms,
    };
    let slow_ttft = match metrics.p95_ttft_ms {
        Some(ms) => ms > max_ttft,
        None => false,
    };
    let slow_total = match metrics.p95_total_ms {
        Some(ms) => ms > max_total,
        None => false,
    };
    if metrics.success_rate.is_less(config.status.normal_success_rate) || slow_ttft || slow_total {
        HealthStatus::Degraded
    } else {
        HealthStatus::Normal
    }
}

// ---------------------------------------------------------------------------
// Reports
// ---------------------------------------------------------------------------
/// How a group of a model is doing.
#[derive(Clone, Debug)]
pub struct GroupReport {
    pub group_name: String,
    pub status: HealthStatus,
    pub metrics: MetricValues,
}

/// How a model is doing.
#[derive(Clone, Debug)]
pub struct ModelReport {
    pub model_name: String,
    pub display_name: String,
    pub status: HealthStatus,
    pub overall: MetricValues,
    pub groups: Vec<GroupReport>,
}

/// How all models are doing over a window of time.
#[derive(Clone, Debug)]
pub struct WindowSnapshot {
    pub generated_at: i64,
    pub window_seconds: i64,
    pub models: Vec<ModelReport>,
}

impl Default for WindowSnapshot {
    fn default() -> (r: Self)
        ensures
            r.generated_at == 0,
            r.window_seconds == 0,
            r.models@.len() == 0,
    {
        WindowSnapshot { generated_at: 0, window_seconds: 0, models: Vec::new() }
    }
}

/// Whether a row counts for `model` from `cutoff` on: it is of that model, and of
/// one of its groups where it names any, or of no known group.
pub open spec fn counts_for(row: OutcomeRow, model: ModelConfig, cutoff: int) -> bool {
    &&& row.model_name@ == model.name@
    &&& row.last_seen >= cutoff
    &&& model.groups@.len() == 0 || text::texts(model.groups@).contains(row.group_name@)
        || row.group_name@ == UNKNOWN_GROUP@
}

/// The rows that count for `model` from `cutoff` on.
pub open spec fn rows_for(
    rows: Seq<OutcomeRow>,
    model: ModelConfig,
    cutoff: int,
) -> Seq<OutcomeRow> {
    rows.filter(|row: OutcomeRow| counts_for(row, model, cutoff))
}

/// The rows of one group.
pub open spec fn rows_in(rows: Seq<OutcomeRow>, group: Seq<char>) -> Seq<OutcomeRow> {
    rows.filter(|row: OutcomeRow| row.group_name@ == group)
}

/// Whether `name` is a group of `rows` or of `configured`.
pub open spec fn is_group(
    rows: Seq<OutcomeRow>,
    configured: Seq<Seq<char>>,
    name: Seq<char>,
) -> bool {
    (exists|i: int| 0 <= i < rows.len() && (#[trigger] rows[i]).group_name@ == name)
        || configured.contains(name)
}

/// Whether `names` are the groups of `rows` and of `configured`, each once, in the
/// order of texts.
pub open spec fn are_groups(
    rows: Seq<OutcomeRow>,
    configured: Seq<Seq<char>>,
    names: Seq<Seq<char>>,
) -> bool {
    &&& forall|name: Seq<char>| #[trigger]
        names.contains(name) <==> is_group(rows, configured, name)
    &&& in_text_order(names)
}

/// Whether each text comes before the next ones.
pub open spec fn in_text_order(names: Seq<Seq<char>>) -> bool {
    forall|i: int, j: int|
        0 <= i < j < names.len() ==> text::text_less(#[trigger] names[i], #[trigger] names[j])
}

/// The gravest of a number of statuses.
pub open spec fn gravest(statuses: Seq<HealthStatus>) -> HealthStatus
    recommends
        statuses.len() > 0,
    decreases statuses.len(),
{
    if statuses.len() <= 1 {
        statuses[0]
    } else if statuses.last().gravity() > gravest(statuses.drop_last()).gravity() {
        statuses.last()
    } else {
        gravest(statuses.drop_last())
    }
}

/// The name under which a model is shown.
pub open spec fn shown_name(model: ModelConfig) -> Seq<char> {
    if model.display_name@.len() == 0 {
        model.name@
    } else {
        model.display_name@
    }
}

/// The names of a number of groups.
pub open spec fn group_names(groups: Seq<GroupReport>) -> Seq<Seq<char>> {
    groups.map_values(|g: GroupReport| g.group_name@)
}

/// The statuses of a number of groups.
pub open spec fn group_statuses(groups: Seq<GroupReport>) -> Seq<HealthStatus> {
    groups.map_values(|g: GroupReport| g.status)
}

impl GroupReport {
    /// Whether this is the report of a group with these rows.
    pub open spec fn reports(
        self,
        config: AppConfig,
        model: ModelConfig,
        rows: Seq<OutcomeRow>,
    ) -> bool {
        &&& self.metrics.measures(rows)
        &&& self.status == judged(config, model, self.metrics)
    }
}

impl ModelReport {
    /// Whether this is the report of `model` with these rows.
    pub open spec fn reports(
        self,
        config: AppConfig,
        model: ModelConfig,
        rows: Seq<OutcomeRow>,
    ) -> bool {
        &&& self.model_name@ == model.name@
        &&& self.display_name@ == shown_name(model)
        &&& self.overall.measures(rows)
        &&& are_groups(rows, text::texts(model.groups@), group_names(self.groups@))
        &&& forall|i: int|
            0 <= i < self.groups@.len() ==> (#[trigger] self.groups@[i]).reports(
                config,
                model,
                rows_in(rows, self.groups@[i].group_name@),
            )
        &&& self.status == if self.groups@.len() > 0 {
            gravest(group_statuses(self.groups@))
        } else {
            judged(config, model, self.overall)
        }
    }
}

impl WindowSnapshot {
    /// Whether this is the snapshot of `rows` at `generated_at` over the last
    /// `window_seconds`.
    pub open spec fn reports(
        self,
        config: AppConfig,
        rows: Seq<OutcomeRow>,
        generated_at: i64,
        window_seconds: i64,
    ) -> bool {
        &&& self.generated_at == generated_at
        &&& self.window_seconds == window_seconds
        &&& self.models@.len() == config.models@.len()
        &&& forall|i: int|
            0 <= i < self.models@.len() ==> (#[trigger] self.models@[i]).reports(
                config,
                config.models@[i],
                rows_for(rows, config.models@[i], num::clamped(generated_at - window_seconds)),
            )
    }
}

fn select_rows(rows: &[OutcomeRow], model: &ModelConfig, cutoff: i64) -> (r: Vec<OutcomeRow>)
    ensures
        r@ == rows_for(rows@, *model, cutoff as int),
{
    let mut r: Vec<OutcomeRow> = Vec::new();
    let mut i: usize = 0;
    proof {
        reveal(Seq::filter);
        assert(rows@.take(0) == Seq::<OutcomeRow>::empty());
    }
    while i < rows.len()
        invariant
            i <= rows@.len(),
            r@ == rows_for(rows@.take(i as int), *model, cutoff as int),
        decreases rows@.len() - i,
    {
        proof {
            reveal(Seq::filter);
            assert(rows@.take(i + 1).drop_last() == rows@.take(i as int));
        }
        let row = &rows[i];
        if text::same_text(row.model_name.as_str(), model.name.as_str()) && row.last_seen >= cutoff
            && (model.groups.len() == 0 || text::holds_text(&model.groups, row.group_name.as_str())
            || text::same_text(row.group_name.as_str(), UNKNOWN_GROUP)) {
            r.push(row.clone());
        }
        i = i + 1;
    }
    assert(rows@.take(i as int) == rows@);
    r
}

fn select_group(rows: &Vec<OutcomeRow>, group: &str) -> (r: Vec<OutcomeRow>)
    ensures
        r@ == rows_in(rows@, group@),
{
    let mut r: Vec<OutcomeRow> = Vec::new();
    let mut i: usize = 0;
    proof {
        reveal(Seq::filter);
        assert(rows@.take(0) == Seq::<OutcomeRow>::empty());
    }
    while i < rows.len()
        invariant
            i <= rows@.len(),
            r@ == rows_in(rows@.take(i as int), group@),
        decreases rows@.len() - i,
    {
        proof {
            reveal(Seq::filter);
            assert(rows@.take(i + 1).drop_last() == rows@.take(i as int));
        }
        if text::same_text(rows[i].group_name.as_str(), group) {
            r.push(rows[i].clone());
        }
        i = i + 1;
    }
    assert(rows@.take(i as int) == rows@);
    r
}

fn insert_name(names: &mut Vec<String>, name: &str)
    requires
        in_text_order(text::texts(old(names)@)),
    ensures
        in_text_order(text::texts(final(names)@)),
        forall|n: Seq<char>| #[trigger]
            text::texts(final(names)@).contains(n) <==> n == name@ || text::texts(
                old(names)@,
            ).contains(n),
{
    let ghost before = text::texts(names@);
    let mut at: usize = 0;
    while at < names.len() && text::comes_before(names[at].as_str(), name)
        invariant
            at <= names@.len(),
            names@ == old(names)@,
            before == text::texts(names@),
            forall|k: int| 0 <= k < at ==> text::text_less(#[trigger] before[k], name@),
        decreases names@.len() - at,
    {
        assert(before[at as int] == names@[at as int]@);
        at = at + 1;
    }
    if at < names.len() && text::same_text(names[at].as_str(), name) {
        assert(before[at as int] == name@);
        return;
    }
    names.insert(at, name.to_string());
    proof {
        let after = text::texts(names@);
        assert(after =~= before.insert(at as int, name@));
        if at < before.len() {
            assert(before[at as int] == old(names)@[at as int]@);
            text::text_less_total(before[at as int], name@);
        }
        assert forall|k: int| at <= k < before.len() implies text::text_less(
            name@,
            #[trigger] before[k],
        ) by {
            if k > at {
                text::text_less_transitive(name@, before[at as int], before[k]);
            }
        }
        assert forall|k: int, l: int| 0 <= k < l < after.len() implies text::text_less(
            #[trigger] after[k],
            #[trigger] after[l],
        ) by {
            if k < at && l < at {
                assert(text::text_less(before[k], before[l]));
            } else if k < at && l > at {
                assert(text::text_less(before[k], before[l - 1]));
            } else if k > at {
                assert(text::text_less(before[k - 1], before[l - 1]));
            }
        }
        assert forall|n: Seq<char>| #[trigger] after.contains(n) <==> n == name@
            || before.contains(n) by {
            if after.contains(n) {
                let k = choose|k: int| 0 <= k < after.len() && after[k] == n;
                if k < at {
                    assert(before[k] == n);
                } else if k > at {
                    assert(before[k - 1] == n);
                }
            }
            if before.contains(n) {
                let k = choose|k: int| 0 <= k < before.len() && before[k] == n;
                if k < at {
                    assert(after[k] == n);
                } else {
                    assert(after[k + 1] == n);
                }
            }
            if n == name@ {
                assert(after[at as int] == n);
            }
        }
    }
}

fn list_groups(rows: &Vec<OutcomeRow>, configured: &Vec<String>) -> (names: Vec<String>)
    ensures
        are_groups(rows@, text::texts(configured@), text::texts(names@)),
{
    let mut names: Vec<String> = Vec::new();
    let ghost configured_names = text::texts(configured@);
    let mut i: usize = 0;
    assert forall|n: Seq<char>| #[trigger] text::texts(names@).contains(n) <==> is_group(
        rows@.take(0),
        Seq::empty(),
        n,
    ) by {}
    while i < rows.len()
        invariant
            i <= rows@.len(),
            in_text_order(text::texts(names@)),
            forall|n: Seq<char>| #[trigger]
                text::texts(names@).contains(n) <==> is_group(
                    rows@.take(i as int),
                    Seq::empty(),
                    n,
                ),
        decreases rows@.len() - i,
    {
        let ghost before = text::texts(names@);
        insert_name(&mut names, rows[i].group_name.as_str());
        assert forall|n: Seq<char>| #[trigger] text::texts(names@).contains(n) <==> is_group(
            rows@.take(i + 1),
            Seq::empty(),
            n,
        ) by {
            assert(before.contains(n) <==> is_group(rows@.take(i as int), Seq::empty(), n));
            let next = rows@.take(i + 1);
            let seen = rows@.take(i as int);
            if before.contains(n) {
                let k = choose|k: int|
                    0 <= k < seen.len() && (#[trigger] seen[k]).group_name@ == n;
                assert(next[k].group_name@ == n);
            }
            if n == rows@[i as int].group_name@ {
                assert(next[i as int].group_name@ == n);
            }
            if is_group(next, Seq::empty(), n) {
                let k = choose|k: int|
                    0 <= k < next.len() && (#[trigger] next[k]).group_name@ == n;
                if k < i {
                    assert(seen[k].group_name@ == n);
                }
            }
        }
        i = i + 1;
    }
    assert(rows@.take(i as int) == rows@);
    let mut j: usize = 0;
    assert(configured_names.take(0) =~= Seq::<Seq<char>>::empty());
    while j < configured.len()
        invariant
            j <= configured@.len(),
            configured_names == text::texts(configured@),
            in_text_order(text::texts(names@)),
            forall|n: Seq<char>| #[trigger]
                text::texts(names@).contains(n) <==> is_group(
                    rows@,
                    configured_names.take(j as int),
                    n,
                ),
        decreases configured@.len() - j,
    {
        let ghost before = text::texts(names@);
        insert_name(&mut names, configured[j].as_str());
        assert forall|n: Seq<char>| #[trigger] text::texts(names@).contains(n) <==> is_group(
            rows@,
            configured_names.take(j + 1),
            n,
        ) by {
            let seen = configured_names.take(j as int);
            let next = configured_names.take(j + 1);
            assert(before.contains(n) <==> is_group(rows@, seen, n));
            assert(next =~= seen.push(configured_names[j as int]));
            if seen.contains(n) {
                let k = choose|k: int| 0 <= k < seen.len() && seen[k] == n;
                assert(next[k] == n);
            }
            if n == configured@[j as int]@ {
                assert(next[j as int] == n);
            }
            if next.contains(n) {
                let k = choose|k: int| 0 <= k < next.len() && next[k] == n;
                if k < j {
                    assert(seen[k] == n);
                }
            }
        }
        j = j + 1;
    }
    assert(configured_names.take(j as int) == configured_names);
    names
}

/// Reports on one model.
pub fn report_model(config: &AppConfig, model: &ModelConfig, rows: Vec<OutcomeRow>) -> (r:
    ModelReport)
    ensures
        r.reports(*config, *model, rows@),
{
    let names = list_groups(&rows, &model.groups);
    let mut groups: Vec<GroupReport> = Vec::new();
    let mut status = HealthStatus::Normal;
    let mut i: usize = 0;
    while i < names.len()
        invariant
            i <= names@.len(),
            groups@.len() == i,
            group_names(groups@) == text::texts(names@).take(i as int),
            forall|k: int|
                0 <= k < i ==> (#[trigger] groups@[k]).reports(
                    *config,
                    *model,
                    rows_in(rows@, groups@[k].group_name@),
                ),
            i > 0 ==> status == gravest(group_statuses(groups@)),
        decreases names@.len() - i,
    {
        let ghost before = groups@;
        let metrics = Accumulator { rows: select_group(&rows, names[i].as_str()) }.finish();
        let group_status = classify(config, model, &metrics);
        if i == 0 || group_status.rank() > status.rank() {
            status = group_status;
        }
        groups.push(
            GroupReport { group_name: names[i].clone(), status: group_status, metrics },
        );
        assert(group_names(groups@) =~= text::texts(names@).take(i + 1));
        assert(group_statuses(groups@).drop_last() =~= group_statuses(before));
        i = i + 1;
    }
    assert(text::texts(names@).take(i as int) == text::texts(names@));
    let overall = Accumulator { rows }.finish();
    if groups.len() == 0 {
        status = classify(config, model, &overall);
    }
    ModelReport {
        model_name: model.name.clone(),
        display_name: if text::char_count(model.display_name.as_str()) == 0 {
            model.name.clone()
        } else {
            model.display_name.clone()
        },
        status,
        overall,
        groups,
    }
}

/// Reports on all models over the last `window_seconds`.
pub fn build_snapshot(
    config: &AppConfig,
    rows: &[OutcomeRow],
    generated_at: i64,
    window_seconds: i64,
) -> (r: WindowSnapshot)
    ensures
        r.reports(*config, rows@, generated_at, window_seconds),
{
    let cutoff: i64 = num::minus(generated_at, window_seconds);
    let mut models: Vec<ModelReport> = Vec::new();
    let mut i: usize = 0;
    while i < config.models.len()
        invariant
            i <= config.models@.len(),
            models@.len() == i,
            cutoff == num::clamped(generated_at - window_seconds),
            forall|k: int|
                0 <= k < i ==> (#[trigger] models@[k]).reports(
                    *config,
                    config.models@[k],
                    rows_for(rows@, config.models@[k], cutoff as int),
                ),
        decreases config.models@.len() - i,
    {
        let model = &config.models[i];
        let model_rows = select_rows(rows, model, cutoff);
        models.push(report_model(config, model, model_rows));
        i = i + 1;
    }
    WindowSnapshot { generated_at, window_seconds, models }
}

/// The windows that are kept ready: 15 minutes, an hour, a day and a week.
pub const WINDOWS: [i64; 4] = [900, 3_600, 86_400, 604_800];

/// Reports on all models over each of the windows that are kept ready.
pub fn snapshot_map(config: &AppConfig, rows: &[OutcomeRow], now: i64) -> (r: HashMap<
    i64,
    WindowSnapshot,
>)
    ensures
        forall|window: i64| #[trigger] r@.contains_key(window) <==> WINDOWS@.contains(window),
        forall|window: i64| #[trigger]
            r@.contains_key(window) ==> r@[window].reports(*config, rows@, now, window),
{
    broadcast use vstd::std_specs::hash::group_hash_axioms;

    let mut r: HashMap<i64, WindowSnapshot> = HashMap::new();
    let windows = WINDOWS;
    let mut i: usize = 0;
    while i < windows.len()
        invariant
            i <= windows@.len(),
            windows == WINDOWS,
            forall|window: i64| #[trigger]
                r@.contains_key(window) <==> windows@.take(i as int).contains(window),
            forall|window: i64| #[trigger]
                r@.contains_key(window) ==> r@[window].reports(*config, rows@, now, window),
        decreases windows@.len() - i,
    {
        broadcast use vstd::std_specs::hash::group_hash_axioms;

        let window: i64 = windows[i];
        let ghost before = r@;
        r.insert(window, build_snapshot(config, rows, now, window));
        assert forall|w: i64| #[trigger] r@.contains_key(w) <==> windows@.take(i + 1).contains(
            w,
        ) by {
            let seen = windows@.take(i as int);
            let next = windows@.take(i + 1);
            assert(before.contains_key(w) <==> seen.contains(w));
            if seen.contains(w) {
                let k = choose|k: int| 0 <= k < seen.len() && seen[k] == w;
                assert(next[k] == w);
            }
            if next.contains(w) {
                let k = choose|k: int| 0 <= k < next.len() && next[k] == w;
                if k < i {
                    assert(seen[k] == w);
                }
            }
            assert(next[i as int] == window);
        }
        i = i + 1;
    }
    assert(windows@.take(i as int) =~= windows@);
    r
}

// ---------------------------------------------------------------------------
// Laws
// ---------------------------------------------------------------------------
/// Every request is a success, a failure or a partial failure.
pub proof fn every_request_counts_once(metrics: MetricValues, rows: Seq<OutcomeRow>)
    requires
        metrics.measures(rows),
    ensures
        metrics.successes + metrics.failures + metrics.partial_failures == metrics.requests,
{
}

/// The value at a quantile between 0 and 1 of at most two to the power of 53 values is
/// one of them, and at a higher quantile is no smaller value.
pub proof fn percentiles_are_values_in_order(values: Seq<i64>, low: Double, high: Double)
    requires
        0 < values.len() <= 2 * double::BINADE,
        low.is_share(),
        high.is_share(),
        low.place() <= high.place(),
    ensures
        percentile_of(values, low) is Some,
        percentile_of(values, high) is Some,
        values.contains(percentile_of(values, low)->0),
        percentile_of(values, low)->0 <= percentile_of(values, high)->0,
{
    broadcast use group_to_multiset_ensures;

    let n = values.len() as int;
    let sorted = order::in_order(values);
    let leq = |a: i64, b: i64| order::Ordered::le(a, b);
    <i64 as order::Ordered>::le_is_total_order();
    values.lemma_sort_by_ensures(leq);
    assert(sorted.to_multiset().len() == values.to_multiset().len());
    double::shares_are_places(low, high, n);
    let i = low.place_among(n)->0;
    let j = high.place_among(n)->0;
    assert(sorted.to_multiset().contains(sorted[i]));
    assert(values.contains(sorted[i]));
    if i < j {
        assert(leq(sorted[i], sorted[j]));
    }
}

/// A row of no known group counts for its model whatever groups are configured; a
/// row of another group only where that group or none is configured.
pub proof fn unknown_routes_always_count(row: OutcomeRow, model: ModelConfig, cutoff: int)
    requires
        row.model_name@ == model.name@,
        row.last_seen >= cutoff,
    ensures
        row.group_name@ == UNKNOWN_GROUP@ ==> counts_for(row, model, cutoff),
        row.group_name@ != UNKNOWN_GROUP@ && model.groups@.len() > 0 && !text::texts(
            model.groups@,
        ).contains(row.group_name@) ==> !counts_for(row, model, cutoff),
{
}

/// A configured group is reported also where nothing is known of it.
pub proof fn configured_groups_are_reported(
    report: ModelReport,
    config: AppConfig,
    model: ModelConfig,
    rows: Seq<OutcomeRow>,
    group: Seq<char>,
)
    requires
        report.reports(config, model, rows),
        text::texts(model.groups@).contains(group),
    ensures
        exists|i: int|
            0 <= i < report.groups@.len() && (#[trigger] report.groups@[i]).group_name@ == group
                && (rows_in(rows, group).len() == 0 ==> report.groups@[i].status
                == HealthStatus::NoData),
{
    let names = group_names(report.groups@);
    assert(is_group(rows, text::texts(model.groups@), group));
    assert(names.contains(group));
    let i = choose|i: int| 0 <= i < names.len() && names[i] == group;
    assert(report.groups@[i].group_name@ == group);
}

/// A model is at least as grave as each of its groups.
pub proof fn model_is_as_grave_as_its_groups(
    report: ModelReport,
    config: AppConfig,
    model: ModelConfig,
    rows: Seq<OutcomeRow>,
    i: int,
)
    requires
        report.reports(config, model, rows),
        0 <= i < report.groups@.len(),
    ensures
        report.groups@[i].status.gravity() <= report.status.gravity(),
{
    gravest_is_gravest(group_statuses(report.groups@), i);
}

proof fn gravest_is_gravest(statuses: Seq<HealthStatus>, i: int)
    requires
        0 <= i < statuses.len(),
    ensures
        statuses[i].gravity() <= gravest(statuses).gravity(),
    decreases statuses.len(),
{
    if i < statuses.len() - 1 {
        gravest_is_gravest(statuses.drop_last(), i);
    }
}

/// The requests of a number of groups.
pub open spec fn requests_in(groups: Seq<GroupReport>) -> int
    decreases groups.len(),
{
    if groups.len() == 0 {
        0
    } else {
        requests_in(groups.drop_last()) + groups.last().metrics.requests
    }
}

/// The requests of a model are those of its groups, each counted once.
pub proof fn groups_add_up(
    report: ModelReport,
    config: AppConfig,
    model: ModelConfig,
    rows: Seq<OutcomeRow>,
)
    requires
        report.reports(config, model, rows),
    ensures
        requests_in(report.groups@) == report.overall.requests,
{
    let names = group_names(report.groups@);
    assert forall|i: int| 0 <= i < rows.len() implies names.contains(
        (#[trigger] rows[i]).group_name@,
    ) by {
        assert(is_group(rows, text::texts(model.groups@), rows[i].group_name@));
    }
    rows_split_by_name(rows, names);
    requests_are_rows(report.groups@, rows);
}

spec fn rows_under(rows: Seq<OutcomeRow>, names: Seq<Seq<char>>) -> int
    decreases names.len(),
{
    if names.len() == 0 {
        0
    } else {
        rows_under(rows, names.drop_last()) + rows_in(rows, names.last()).len()
    }
}

proof fn requests_are_rows(groups: Seq<GroupReport>, rows: Seq<OutcomeRow>)
    requires
        forall|i: int|
            0 <= i < groups.len() ==> (#[trigger] groups[i]).metrics.measures(
                rows_in(rows, groups[i].group_name@),
            ),
    ensures
        requests_in(groups) == rows_under(rows, group_names(groups)),
    decreases groups.len(),
{
    if groups.len() > 0 {
        requests_are_rows(groups.drop_last(), rows);
        assert(group_names(groups).drop_last() =~= group_names(groups.drop_last()));
        assert(groups[groups.len() - 1].metrics.measures(
            rows_in(rows, groups.last().group_name@),
        ));
    }
}

proof fn rows_split_by_name(rows: Seq<OutcomeRow>, names: Seq<Seq<char>>)
    requires
        in_text_order(names),
        forall|i: int| 0 <= i < rows.len() ==> names.contains((#[trigger] rows[i]).group_name@),
    ensures
        rows_under(rows, names) == rows.len(),
    decreases rows.len(),
{
    if rows.len() == 0 {
        assert(rows =~= Seq::empty());
        no_rows_under(names);
    } else {
        let rest = rows.drop_last();
        assert forall|i: int| 0 <= i < rest.len() implies names.contains(
            (#[trigger] rest[i]).group_name@,
        ) by {
            assert(rest[i] == rows[i]);
        }
        rows_split_by_name(rest, names);
        assert(names.contains(rows[rows.len() - 1].group_name@));
        one_more_row(rows, names);
    }
}

proof fn no_rows_under(names: Seq<Seq<char>>)
    ensures
        rows_under(Seq::empty(), names) == 0,
    decreases names.len(),
{
    reveal(Seq::filter);
    if names.len() > 0 {
        no_rows_under(names.drop_last());
    }
}

proof fn one_more_row(rows: Seq<OutcomeRow>, names: Seq<Seq<char>>)
    requires
        rows.len() > 0,
        in_text_order(names),
    ensures
        rows_under(rows, names) == rows_under(rows.drop_last(), names) + if names.contains(
            rows.last().group_name@,
        ) {
            1int
        } else {
            0int
        },
    decreases names.len(),
{
    reveal(Seq::filter);
    if names.len() > 0 {
        let rest = names.drop_last();
        let group = rows.last().group_name@;
        one_more_row(rows, rest);
        if group == names.last() {
            assert(names[names.len() - 1] == group);
            if rest.contains(group) {
                let k = choose|k: int| 0 <= k < rest.len() && rest[k] == group;
                assert(text::text_less(names[k], names[names.len() - 1]));
                text::text_less_irreflexive(group);
            }
        } else {
            if names.contains(group) {
                let k = choose|k: int| 0 <= k < names.len() && names[k] == group;
                assert(rest[k] == group);
            }
            if rest.contains(group) {
                let k = choose|k: int| 0 <= k < rest.len() && rest[k] == group;
                assert(names[k] == group);
            }
        }
    }
}

} // verus!
