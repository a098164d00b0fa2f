//! That the order of requests does not matter to their metrics.
use vstd::prelude::*;
use vstd::relations::*;
use vstd::seq_lib::*;

use crate::double;
use crate::double::Double;
use crate::metrics;
use crate::metrics::MetricValues;
use crate::order;
use crate::repository::OutcomeRow;
use crate::text;

verus! {

// ---------------------------------------------------------------------------
// Sums that do not depend on the order
// ---------------------------------------------------------------------------
/// The sum of `f` over `items`.
pub open spec fn total<T>(items: Seq<T>, f: spec_fn(T) -> int) -> int
    decreases items.len(),
{
    if items.len() == 0 {
        0
    } else {
        total(items.drop_last(), f) + f(items.last())
    }
}

/// 1 for the items with `p`, 0 for others.
pub open spec fn indicator<T>(p: spec_fn(T) -> bool) -> spec_fn(T) -> int {
    |item: T|
        if p(item) {
            1
        } else {
            0
        }
}

/// Whether two sequences hold the same items, each as often.
pub open spec fn same_items<T>(a: Seq<T>, b: Seq<T>) -> bool {
    a.to_multiset() == b.to_multiset()
}

proof fn total_without<T>(items: Seq<T>, i: int, f: spec_fn(T) -> int)
    requires
        0 <= i < items.len(),
    ensures
        total(items, f) == total(items.remove(i), f) + f(items[i]),
    decreases items.len(),
{
    if i == items.len() - 1 {
        assert(items.remove(i) =~= items.drop_last());
    } else {
        total_without(items.drop_last(), i, f);
        assert(items.remove(i).drop_last() =~= items.drop_last().remove(i));
        assert(items.remove(i).last() == items.last());
    }
}

proof fn same_length<T>(a: Seq<T>, b: Seq<T>)
    requires
        same_items(a, b),
    ensures
        a.len() == b.len(),
{
    broadcast use group_to_multiset_ensures;

    assert(a.to_multiset().len() == b.to_multiset().len());
}

proof fn total_is_of_the_items<T>(a: Seq<T>, b: Seq<T>, f: spec_fn(T) -> int)
    requires
        same_items(a, b),
    ensures
        total(a, f) == total(b, f),
    decreases a.len(),
{
    broadcast use group_to_multiset_ensures;

    same_length(a, b);
    if a.len() > 0 {
        let x = a.last();
        assert(a.to_multiset().contains(x));
        assert(b.contains(x));
        let i = choose|i: int| 0 <= i < b.len() && b[i] == x;
        total_without(b, i, f);
        assert(a.remove(a.len() - 1) =~= a.drop_last());
        assert(a.drop_last().to_multiset() =~= b.remove(i).to_multiset());
        total_is_of_the_items(a.drop_last(), b.remove(i), f);
    }
}

proof fn filter_counts<T>(items: Seq<T>, p: spec_fn(T) -> bool)
    ensures
        items.filter(p).len() == total(items, indicator(p)),
    decreases items.len(),
{
    reveal(Seq::filter);
    if items.len() > 0 {
        filter_counts(items.drop_last(), p);
    }
}

/// As many items have a property in whatever order they stand.
proof fn filter_is_of_the_items<T>(a: Seq<T>, b: Seq<T>, p: spec_fn(T) -> bool)
    requires
        same_items(a, b),
    ensures
        a.filter(p).len() == b.filter(p).len(),
{
    filter_counts(a, p);
    filter_counts(b, p);
    total_is_of_the_items(a, b, indicator(p));
}

// ---------------------------------------------------------------------------
// What rows tell, in whatever order
// ---------------------------------------------------------------------------
proof fn counts_are_totals(rows: Seq<OutcomeRow>)
    ensures
        metrics::attempts_in(rows) == total(
            rows,
            |row: OutcomeRow| metrics::counted(row.attempt_count),
        ),
        metrics::errors_in(rows) == total(
            rows,
            |row: OutcomeRow| metrics::counted(row.error_count),
        ),
    decreases rows.len(),
{
    if rows.len() > 0 {
        counts_are_totals(rows.drop_last());
    }
}

proof fn times_are_counted(rows: Seq<OutcomeRow>, ms: i64)
    ensures
        metrics::ttfts_in(rows).to_multiset().count(ms) == total(
            rows,
            indicator(|row: OutcomeRow| row.ttft_ms == Some(ms)),
        ),
        metrics::totals_in(rows).to_multiset().count(ms) == total(
            rows,
            indicator(|row: OutcomeRow| row.total_ms == Some(ms)),
        ),
    decreases rows.len(),
{
    broadcast use group_to_multiset_ensures;

    if rows.len() > 0 {
        times_are_counted(rows.drop_last(), ms);
    } else {
        assert(metrics::ttfts_in(rows) =~= Seq::<i64>::empty());
    }
}

spec fn names_error(name: Seq<char>) -> spec_fn(OutcomeRow) -> bool {
    |row: OutcomeRow|
        row.outcome@ != "success"@ && metrics::error_name(row.latest_error_code@) == name
}

spec fn names_chain(name: Seq<char>) -> spec_fn(OutcomeRow) -> bool {
    |row: OutcomeRow|
        row.latest_retry_channel_chain@.len() > 0 && row.latest_retry_channel_chain@ == name
}

proof fn names_are_counted(rows: Seq<OutcomeRow>, name: Seq<char>)
    ensures
        metrics::errors_named(rows).to_multiset().count(name) == total(
            rows,
            indicator(names_error(name)),
        ),
        metrics::chains_named(rows).to_multiset().count(name) == total(
            rows,
            indicator(names_chain(name)),
        ),
    decreases rows.len(),
{
    broadcast use group_to_multiset_ensures;

    if rows.len() > 0 {
        names_are_counted(rows.drop_last(), name);
    }
}

proof fn times_are_of_the_items(a: Seq<OutcomeRow>, b: Seq<OutcomeRow>)
    requires
        same_items(a, b),
    ensures
        same_items(metrics::ttfts_in(a), metrics::ttfts_in(b)),
        same_items(metrics::totals_in(a), metrics::totals_in(b)),
{
    assert forall|ms: i64|
        metrics::ttfts_in(a).to_multiset().count(ms) == metrics::ttfts_in(b).to_multiset().count(ms)
            && metrics::totals_in(a).to_multiset().count(ms)
            == metrics::totals_in(b).to_multiset().count(ms) by {
        times_are_counted(a, ms);
        times_are_counted(b, ms);
        total_is_of_the_items(a, b, indicator(|row: OutcomeRow| row.ttft_ms == Some(ms)));
        total_is_of_the_items(a, b, indicator(|row: OutcomeRow| row.total_ms == Some(ms)));
    }
    assert(metrics::ttfts_in(a).to_multiset() =~= metrics::ttfts_in(b).to_multiset());
    assert(metrics::totals_in(a).to_multiset() =~= metrics::totals_in(b).to_multiset());
}

proof fn names_are_of_the_items(a: Seq<OutcomeRow>, b: Seq<OutcomeRow>)
    requires
        same_items(a, b),
    ensures
        same_items(metrics::errors_named(a), metrics::errors_named(b)),
        same_items(metrics::chains_named(a), metrics::chains_named(b)),
{
    assert forall|name: Seq<char>|
        metrics::errors_named(a).to_multiset().count(name)
            == metrics::errors_named(b).to_multiset().count(name)
            && metrics::chains_named(a).to_multiset().count(name)
            == metrics::chains_named(b).to_multiset().count(name) by {
        names_are_counted(a, name);
        names_are_counted(b, name);
        total_is_of_the_items(a, b, indicator(names_error(name)));
        total_is_of_the_items(a, b, indicator(names_chain(name)));
    }
    assert(metrics::errors_named(a).to_multiset() =~= metrics::errors_named(b).to_multiset());
    assert(metrics::chains_named(a).to_multiset() =~= metrics::chains_named(b).to_multiset());
}

proof fn sum_is_total(values: Seq<i64>)
    ensures
        metrics::sum_of(values) == total(values, |v: i64| v as int),
    decreases values.len(),
{
    if values.len() > 0 {
        sum_is_total(values.drop_last());
    }
}

proof fn mean_is_of_the_items(a: Seq<i64>, b: Seq<i64>)
    requires
        same_items(a, b),
    ensures
        metrics::mean_of(a) == metrics::mean_of(b),
{
    same_length(a, b);
    sum_is_total(a);
    sum_is_total(b);
    total_is_of_the_items(a, b, |v: i64| v as int);
}

proof fn order_is_of_the_items(a: Seq<i64>, b: Seq<i64>)
    requires
        same_items(a, b),
    ensures
        order::in_order(a) == order::in_order(b),
{
    let leq = |x: i64, y: i64| order::Ordered::le(x, y);
    <i64 as order::Ordered>::le_is_total_order();
    a.lemma_sort_by_ensures(leq);
    b.lemma_sort_by_ensures(leq);
    lemma_sorted_unique(a.sort_by(leq), b.sort_by(leq), leq);
}

proof fn latest_is_the_latest(rows: Seq<OutcomeRow>)
    requires
        rows.len() > 0,
    ensures
        forall|i: int| 0 <= i < rows.len() ==> (#[trigger] rows[i]).last_seen
            <= metrics::latest_in(rows),
        exists|i: int| 0 <= i < rows.len() && (#[trigger] rows[i]).last_seen
            == metrics::latest_in(rows),
    decreases rows.len(),
{
    let last = rows.len() - 1;
    assert(rows[last] == rows.last());
    if rows.len() > 1 {
        let rest = rows.drop_last();
        latest_is_the_latest(rest);
        let i = choose|i: int|
            0 <= i < rest.len() && (#[trigger] rest[i]).last_seen == metrics::latest_in(rest);
        assert(rows[i] == rest[i]);
        assert forall|k: int| 0 <= k < rows.len() implies (#[trigger] rows[k]).last_seen
            <= metrics::latest_in(rows) by {
            if k < last {
                assert(rest[k] == rows[k]);
            }
        }
    }
}

proof fn latest_is_no_later(a: Seq<OutcomeRow>, b: Seq<OutcomeRow>)
    requires
        same_items(a, b),
    ensures
        metrics::latest_in(a) <= metrics::latest_in(b),
{
    broadcast use group_to_multiset_ensures;

    same_length(a, b);
    if a.len() > 0 {
        latest_is_the_latest(a);
        latest_is_the_latest(b);
        let i = choose|i: int|
            0 <= i < a.len() && (#[trigger] a[i]).last_seen == metrics::latest_in(a);
        assert(a.contains(a[i]));
        assert(a.to_multiset().count(a[i]) > 0);
        assert(b.contains(a[i]));
        let j = choose|j: int| 0 <= j < b.len() && b[j] == a[i];
        assert(b[j].last_seen <= metrics::latest_in(b));
    }
}

// ---------------------------------------------------------------------------
// One tally
// ---------------------------------------------------------------------------
spec fn holds_entry(tally: Seq<(Seq<char>, int)>, entry: (Seq<char>, int)) -> bool {
    exists|i: int| 0 <= i < tally.len() && #[trigger] tally[i] == entry
}

proof fn entry_is_in_both(
    a: Seq<Seq<char>>,
    x: Seq<(Seq<char>, int)>,
    b: Seq<Seq<char>>,
    y: Seq<(Seq<char>, int)>,
    i: int,
)
    requires
        same_items(a, b),
        metrics::is_tally(a, x),
        metrics::is_tally(b, y),
        0 <= i < x.len(),
    ensures
        holds_entry(y, x[i]),
{
    broadcast use group_to_multiset_ensures;

    let name = x[i].0;
    assert(x[i].1 == a.to_multiset().count(name) && x[i].1 > 0);
    assert(b.contains(name));
    let j = choose|j: int| 0 <= j < b.len() && b[j] == name;
    assert(metrics::lists(y, b[j]));
    let k = choose|k: int| 0 <= k < y.len() && (#[trigger] y[k]).0 == name;
    assert(y[k].1 == b.to_multiset().count(y[k].0));
    assert(y[k] == x[i]);
}

proof fn tally_stands_once(x: (Seq<char>, int), y: (Seq<char>, int))
    ensures
        !(metrics::stands_before(x, y) && metrics::stands_before(y, x)),
{
    if metrics::stands_before(x, y) && metrics::stands_before(y, x) {
        text::text_less_transitive(x.0, y.0, x.0);
        text::text_less_irreflexive(x.0);
    }
}

proof fn tallies_agree_up_to(
    a: Seq<Seq<char>>,
    x: Seq<(Seq<char>, int)>,
    b: Seq<Seq<char>>,
    y: Seq<(Seq<char>, int)>,
    n: int,
)
    requires
        same_items(a, b),
        metrics::is_tally(a, x),
        metrics::is_tally(b, y),
        0 <= n <= x.len(),
    ensures
        n <= y.len(),
        forall|i: int| 0 <= i < n ==> #[trigger] x[i] == y[i],
    decreases n,
{
    if n > 0 {
        let i = n - 1;
        tallies_agree_up_to(a, x, b, y, i);
        entry_is_in_both(a, x, b, y, i);
        let m = choose|m: int| 0 <= m < y.len() && #[trigger] y[m] == x[i];
        if m < i {
            assert(x[m] == y[m]);
            assert(metrics::stands_before(x[m], x[i]));
            tally_stands_once(x[m], x[i]);
        }
        assert(i < y.len());
        entry_is_in_both(b, y, a, x, i);
        let l = choose|l: int| 0 <= l < x.len() && #[trigger] x[l] == y[i];
        if l < i {
            assert(x[l] == y[l]);
            assert(metrics::stands_before(y[l], y[i]));
            tally_stands_once(y[l], y[i]);
        }
        if m > i && l > i {
            assert(metrics::stands_before(y[i], y[m]));
            assert(metrics::stands_before(x[i], x[l]));
            tally_stands_once(x[i], y[i]);
        }
    }
}

proof fn tally_is_of_the_items(
    a: Seq<Seq<char>>,
    x: Seq<(Seq<char>, int)>,
    b: Seq<Seq<char>>,
    y: Seq<(Seq<char>, int)>,
)
    requires
        same_items(a, b),
        metrics::is_tally(a, x),
        metrics::is_tally(b, y),
    ensures
        x == y,
{
    tallies_agree_up_to(a, x, b, y, x.len() as int);
    tallies_agree_up_to(b, y, a, x, y.len() as int);
    assert(x =~= y);
}

// ---------------------------------------------------------------------------
// Laws
// ---------------------------------------------------------------------------
/// Whether two metrics say the same.
pub open spec fn agree(a: MetricValues, b: MetricValues) -> bool {
    &&& a.requests == b.requests
    &&& a.successes == b.successes
    &&& a.failures == b.failures
    &&& a.partial_failures == b.partial_failures
    &&& a.success_rate == b.success_rate
    &&& a.error_rate == b.error_rate
    &&& a.attempt_error_rate == b.attempt_error_rate
    &&& a.retry_rate == b.retry_rate
    &&& a.avg_ttft_ms == b.avg_ttft_ms
    &&& a.p50_ttft_ms == b.p50_ttft_ms
    &&& a.p95_ttft_ms == b.p95_ttft_ms
    &&& a.avg_total_ms == b.avg_total_ms
    &&& a.p50_total_ms == b.p50_total_ms
    &&& a.p95_total_ms == b.p95_total_ms
    &&& a.latest_at == b.latest_at
    &&& metrics::entries(a.error_codes@) == metrics::entries(b.error_codes@)
    &&& metrics::entries(a.retry_channel_chains@) == metrics::entries(b.retry_channel_chains@)
}

/// The metrics of the same requests in another order are the same.
pub proof fn order_of_requests_does_not_matter(
    rows: Seq<OutcomeRow>,
    others: Seq<OutcomeRow>,
    a: MetricValues,
    b: MetricValues,
)
    requires
        same_items(rows, others),
        a.measures(rows),
        b.measures(others),
    ensures
        agree(a, b),
{
    same_length(rows, others);
    filter_is_of_the_items(rows, others, |row: OutcomeRow| row.outcome@ == "success"@);
    filter_is_of_the_items(rows, others, |row: OutcomeRow| row.outcome@ == "partial_failed"@);
    filter_is_of_the_items(rows, others, |row: OutcomeRow| row.attempt_count > 1);
    counts_are_totals(rows);
    counts_are_totals(others);
    total_is_of_the_items(
        rows,
        others,
        |row: OutcomeRow| metrics::counted(row.attempt_count),
    );
    total_is_of_the_items(rows, others, |row: OutcomeRow| metrics::counted(row.error_count));
    times_are_of_the_items(rows, others);
    mean_is_of_the_items(metrics::ttfts_in(rows), metrics::ttfts_in(others));
    mean_is_of_the_items(metrics::totals_in(rows), metrics::totals_in(others));
    same_length(metrics::ttfts_in(rows), metrics::ttfts_in(others));
    same_length(metrics::totals_in(rows), metrics::totals_in(others));
    order_is_of_the_items(metrics::ttfts_in(rows), metrics::ttfts_in(others));
    order_is_of_the_items(metrics::totals_in(rows), metrics::totals_in(others));
    latest_is_no_later(rows, others);
    latest_is_no_later(others, rows);
    names_are_of_the_items(rows, others);
    tally_is_of_the_items(
        metrics::errors_named(rows),
        metrics::entries(a.error_codes@),
        metrics::errors_named(others),
        metrics::entries(b.error_codes@),
    );
    tally_is_of_the_items(
        metrics::chains_named(rows),
        metrics::entries(a.retry_channel_chains@),
        metrics::chains_named(others),
        metrics::entries(b.retry_channel_chains@),
    );
}

proof fn total_is_at_least(items: Seq<i64>, p: spec_fn(i64) -> bool, n: int)
    requires
        0 <= n <= items.len(),
        forall|i: int| 0 <= i < n ==> p(#[trigger] items[i]),
    ensures
        total(items, indicator(p)) >= n,
    decreases items.len(),
{
    if items.len() > 0 {
        let rest = items.drop_last();
        if n == items.len() {
            assert(p(items[n - 1]));
            total_is_at_least(rest, p, n - 1);
        } else {
            total_is_at_least(rest, p, n);
        }
    }
}

proof fn total_is_at_most(items: Seq<i64>, p: spec_fn(i64) -> bool, n: int)
    requires
        0 <= n,
        forall|i: int| n <= i < items.len() ==> !p(#[trigger] items[i]),
    ensures
        total(items, indicator(p)) <= n,
        total(items, indicator(p)) <= items.len(),
    decreases items.len(),
{
    if items.len() > 0 {
        total_is_at_most(items.drop_last(), p, n);
        if items.len() > n {
            assert(!p(items[items.len() - 1]));
        }
    }
}

/// At a quantile between 0 and 1 of at most two to the power of 53 values, as many
/// values and one more as its place says are at most its value, and at most as many as
/// its place says are smaller. At 0 it is the smallest value, at 1 the largest, and the
/// order of the values does not matter.
pub proof fn percentile_divides_the_values(
    values: Seq<i64>,
    others: Seq<i64>,
    quantile: Double,
)
    requires
        0 < values.len() <= 2 * double::BINADE,
        quantile.is_share(),
        same_items(values, others),
    ensures
        metrics::percentile_of(values, quantile) is Some,
        ({
            let v = metrics::percentile_of(values, quantile)->0;
            let place = quantile.place_among(values.len() as int)->0;
            &&& values.filter(|x: i64| x <= v).len() >= place + 1
            &&& values.filter(|x: i64| x < v).len() <= place
            &&& quantile.place() == 0 ==> forall|i: int|
                0 <= i < values.len() ==> v <= #[trigger] values[i]
            &&& quantile.place() == double::ONE_BITS ==> forall|i: int|
                0 <= i < values.len() ==> #[trigger] values[i] <= v
        }),
        metrics::percentile_of(values, quantile) == metrics::percentile_of(others, quantile),
{
    broadcast use group_to_multiset_ensures;

    let n = values.len() as int;
    let sorted = order::in_order(values);
    let leq = |a: i64, b: i64| order::Ordered::le(a, b);
    <i64 as order::Ordered>::le_is_total_order();
    values.lemma_sort_by_ensures(leq);
    same_length(values, sorted);
    same_length(values, others);
    order_is_of_the_items(values, others);
    double::shares_are_places(quantile, quantile, n);
    let place = quantile.place_among(n)->0;
    let v = sorted[place];
    let at_most = |x: i64| x <= v;
    let smaller = |x: i64| x < v;
    assert forall|i: int| 0 <= i < place + 1 implies at_most(#[trigger] sorted[i]) by {
        if i < place {
            assert(leq(sorted[i], sorted[place]));
        }
    }
    assert forall|i: int| place <= i < sorted.len() implies !smaller(#[trigger] sorted[i]) by {
        if i > place {
            assert(leq(sorted[place], sorted[i]));
        }
    }
    total_is_at_least(sorted, at_most, place + 1);
    total_is_at_most(sorted, smaller, place);
    filter_counts(sorted, at_most);
    filter_counts(sorted, smaller);
    filter_is_of_the_items(values, sorted, at_most);
    filter_is_of_the_items(values, sorted, smaller);
    assert forall|i: int| 0 <= i < values.len() implies (quantile.place() == 0 ==> v
        <= #[trigger] values[i]) && (quantile.place() == double::ONE_BITS ==> values[i] <= v) by {
        assert(values.contains(values[i]));
        assert(values.to_multiset().count(values[i]) > 0);
        assert(sorted.contains(values[i]));
        let k = choose|k: int| 0 <= k < sorted.len() && sorted[k] == values[i];
        if k < place {
            assert(leq(sorted[k], sorted[place]));
        } else if k > place {
            assert(leq(sorted[place], sorted[k]));
        }
    }
}

} // verus!
