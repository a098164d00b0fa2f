//! Collecting: which part of the log is read next, and what is made of it.
use vstd::prelude::*;
use vstd::seq_lib::*;
use vstd::string::*;

use crate::api::{PageData, RemoteLog};
use crate::config::{ApiConfig, AppConfig};
use crate::decimal;
use crate::domain;
use crate::domain::LogSample;
use crate::metrics;
use crate::num;
use crate::order;
use crate::order::Rank;
use crate::repository::{DatabaseStats, OutcomeRow};
use crate::state::{CollectorHealth, ReportCache};
use crate::text;

verus! {

// ---------------------------------------------------------------------------
// Which part of the log is read
// ---------------------------------------------------------------------------
/// From which time on the log is read: some hours back at first, later a little
/// before the cursor, always before `now`.
pub open spec fn start_of(api: ApiConfig, cursor: i64, now: i64) -> int {
    let start = if cursor == 0 {
        num::clamped(now - api.initial_backfill_hours * 3_600)
    } else {
        num::clamped(cursor - api.overlap_secs)
    };
    if start < num::clamped(now - 1) {
        start
    } else {
        num::clamped(now - 1)
    }
}

/// From which time on the log is read.
pub fn collection_start(api: &ApiConfig, cursor: i64, now: i64) -> (start: i64)
    ensures
        start == start_of(*api, cursor, now),
{
    let start: i64 = if cursor == 0 {
        num::clamp(now as i128 - api.initial_backfill_hours as i128 * 3_600)
    } else {
        num::minus(cursor, api.overlap_secs)
    };
    let latest: i64 = num::minus(now, 1);
    if start < latest {
        start
    } else {
        latest
    }
}

/// How many log lines one reading can take.
pub open spec fn capacity_of(api: ApiConfig) -> int {
    num::clamped(api.max_pages_per_model * api.page_size)
}

/// How many log lines one reading can take.
pub fn page_capacity(api: &ApiConfig) -> (r: i64)
    ensures
        r == capacity_of(*api),
{
    num::times(api.max_pages_per_model as i64, api.page_size as i64)
}

/// Whether `count` may answer that up to `end` there are at most `capacity` lines.
pub open spec fn may_fit<F: Fn(i64) -> Result<i64, String>>(
    count: F,
    end: i64,
    capacity: i64,
) -> bool {
    exists|n: i64| n <= capacity && #[trigger] call_ensures(count, (end,), Ok(n))
}

/// Whether `count` may answer that up to `end` there are more than `capacity` lines.
pub open spec fn may_exceed<F: Fn(i64) -> Result<i64, String>>(
    count: F,
    end: i64,
    capacity: i64,
) -> bool {
    exists|n: i64| n > capacity && #[trigger] call_ensures(count, (end,), Ok(n))
}

/// Whether `count` may fail with `error` when it is asked about a time after `start`:
/// about `requested_end`, or about an earlier one after there were more than `capacity`
/// lines up to `requested_end`.
pub open spec fn may_fail<F: Fn(i64) -> Result<i64, String>>(
    count: F,
    start: i64,
    requested_end: i64,
    capacity: i64,
    error: String,
) -> bool {
    exists|end: i64|
        start < end <= requested_end && #[trigger] call_ensures(count, (end,), Err(error)) && (end
            == requested_end || may_exceed(count, requested_end, capacity))
}

/// What is said where there is nothing to choose from.
pub open spec fn invalid_window() -> Seq<char> {
    "采集时间窗口或分页容量无效"@
}

/// What is said where one moment holds more lines than a reading can take.
pub open spec fn crowded_moment(capacity: i64) -> Seq<char> {
    "单个时间戳内日志超过分页容量 "@ + decimal::decimal(capacity as int) + "，无法无损推进游标"@
}

/// Chooses up to which time the log is read, so that the reading takes all of it: up
/// to `requested_end` where that fits, otherwise up to a time that fits while the
/// next one does not. Only about times after `start` and up to `requested_end` is
/// `count_until` asked.
pub fn select_batch_end<F: Fn(i64) -> Result<i64, String>>(
    start: i64,
    requested_end: i64,
    capacity: i64,
    count_until: F,
) -> (r: Result<i64, String>)
    requires
        capacity > 0 ==> forall|end: i64|
            start < end <= requested_end ==> #[trigger] call_requires(count_until, (end,)),
    ensures
        capacity <= 0 || requested_end <= start ==> r is Err && r->Err_0@ == invalid_window(),
        capacity > 0 && requested_end > start ==> match r {
            Ok(end) => {
                &&& start < end <= requested_end
                &&& may_fit(count_until, end, capacity)
                &&& end < requested_end ==> may_exceed(count_until, (end + 1) as i64, capacity)
                    && may_exceed(count_until, requested_end, capacity)
            },
            Err(error) => may_fail(count_until, start, requested_end, capacity, error) || (error@
                == crowded_moment(capacity) && may_exceed(
                count_until,
                (start + 1) as i64,
                capacity,
            ) && may_exceed(count_until, requested_end, capacity)),
        },
{
    if capacity <= 0 || requested_end <= start {
        return Err("采集时间窗口或分页容量无效".to_string());
    }
    match count_until(requested_end) {
        Ok(n) => {
            if n <= capacity {
                return Ok(requested_end);
            }
        },
        Err(error) => {
            return Err(error);
        },
    }
    let mut low: i64 = start + 1;
    let mut high: i64 = requested_end - 1;
    let mut selected: Option<i64> = None;
    while low <= high
        invariant
            capacity > 0,
            start < requested_end,
            start < low,
            low <= high + 1,
            high < requested_end,
            start <= high,
            may_exceed(count_until, (high + 1) as i64, capacity),
            may_exceed(count_until, requested_end, capacity),
            match selected {
                Some(end) => end == low - 1 && start < end && may_fit(count_until, end, capacity),
                None => low == start + 1,
            },
            forall|end: i64|
                start < end <= requested_end ==> #[trigger] call_requires(count_until, (end,)),
        decreases high - low + 1,
    {
        let middle: i64 = (low as i128 + (high as i128 - low as i128) / 2) as i64;
        match count_until(middle) {
            Ok(n) => {
                if n <= capacity {
                    selected = Some(middle);
                    low = middle + 1;
                } else {
                    high = middle - 1;
                }
            },
            Err(error) => {
                return Err(error);
            },
        }
    }
    match selected {
        Some(end) => Ok(end),
        None => {
            let mut error = "单个时间戳内日志超过分页容量 ".to_string();
            error.append(decimal::to_decimal(capacity).as_str());
            error.append("，无法无损推进游标");
            Err(error)
        },
    }
}

// ---------------------------------------------------------------------------
// Reading pages
// ---------------------------------------------------------------------------
/// Whether a page is the last one: it is not full, or all lines are read with it.
pub open spec fn is_last(page: PageData<RemoteLog>, number: int, page_size: u32) -> bool {
    page.items@.len() < page_size || number * page_size >= page.total
}

/// The lines of a number of pages.
pub open spec fn lines_of(pages: Seq<PageData<RemoteLog>>) -> Seq<RemoteLog>
    decreases pages.len(),
{
    if pages.len() == 0 {
        Seq::empty()
    } else {
        lines_of(pages.drop_last()) + pages.last().items@
    }
}

/// Whether `pages` are the first pages that `fetch` gives, none but perhaps the last
/// of them the last one.
pub open spec fn are_pages<G: Fn(u32) -> Result<PageData<RemoteLog>, String>>(
    fetch: G,
    pages: Seq<PageData<RemoteLog>>,
    page_size: u32,
) -> bool {
    &&& forall|i: int|
        0 <= i < pages.len() ==> call_ensures(fetch, ((i + 1) as u32,), Ok(#[trigger] pages[i]))
    &&& forall|i: int| 0 <= i < pages.len() - 1 ==> !is_last(#[trigger] pages[i], i + 1, page_size)
}

/// Whether `pages` are all pages that there are.
pub open spec fn are_all_pages<G: Fn(u32) -> Result<PageData<RemoteLog>, String>>(
    fetch: G,
    pages: Seq<PageData<RemoteLog>>,
    page_size: u32,
) -> bool {
    &&& are_pages(fetch, pages, page_size)
    &&& pages.len() > 0
    &&& is_last(pages.last(), pages.len() as int, page_size)
}

/// Whether `pages` are as many as may be read, and there are more.
pub open spec fn are_too_many<G: Fn(u32) -> Result<PageData<RemoteLog>, String>>(
    fetch: G,
    pages: Seq<PageData<RemoteLog>>,
    page_size: u32,
    max_pages: u32,
) -> bool {
    &&& are_pages(fetch, pages, page_size)
    &&& pages.len() == max_pages
    &&& pages.len() > 0 ==> !is_last(pages.last(), pages.len() as int, page_size)
}

/// Whether `fetch` gives `pages`, none of them the last one and fewer than may be
/// read, and may then fail with `error`.
pub open spec fn break_off<G: Fn(u32) -> Result<PageData<RemoteLog>, String>>(
    fetch: G,
    pages: Seq<PageData<RemoteLog>>,
    page_size: u32,
    max_pages: u32,
    error: String,
) -> bool {
    &&& are_pages(fetch, pages, page_size)
    &&& pages.len() < max_pages
    &&& pages.len() > 0 ==> !is_last(pages.last(), pages.len() as int, page_size)
    &&& call_ensures(fetch, ((pages.len() + 1) as u32,), Err(error))
}

/// What is said where there are more pages than may be read.
pub open spec fn too_many_pages(max_pages: u32) -> Seq<char> {
    "时间窗口日志超过 "@ + decimal::decimal(max_pages as int) + " 页，未推进游标以避免丢失"@
}

/// Reads all pages, or nothing where there are more than `max_pages`. Only pages up
/// to that number are asked for.
pub fn read_pages<G: Fn(u32) -> Result<PageData<RemoteLog>, String>>(
    page_size: u32,
    max_pages: u32,
    fetch: G,
) -> (r: Result<Vec<RemoteLog>, String>)
    requires
        forall|number: u32|
            1 <= number <= max_pages ==> #[trigger] call_requires(fetch, (number,)),
    ensures
        match r {
            Ok(lines) => exists|pages: Seq<PageData<RemoteLog>>|
                #[trigger] are_all_pages(fetch, pages, page_size) && pages.len() <= max_pages
                    && lines@ == lines_of(pages),
            Err(error) => {
                ||| exists|pages: Seq<PageData<RemoteLog>>| #[trigger]
                    break_off(fetch, pages, page_size, max_pages, error)
                ||| error@ == too_many_pages(max_pages) && exists|
                    pages: Seq<PageData<RemoteLog>>,
                | #[trigger]
                    are_too_many(fetch, pages, page_size, max_pages)
            },
        },
{
    let mut lines: Vec<RemoteLog> = Vec::new();
    let ghost mut pages: Seq<PageData<RemoteLog>> = Seq::empty();
    let mut read: u32 = 0;
    while read < max_pages
        invariant
            read <= max_pages,
            pages.len() == read,
            are_pages(fetch, pages, page_size),
            read > 0 ==> !is_last(pages.last(), read as int, page_size),
            lines@ == lines_of(pages),
            forall|number: u32|
                1 <= number <= max_pages ==> #[trigger] call_requires(fetch, (number,)),
        decreases max_pages - read,
    {
        let number: u32 = read + 1;
        let page = match fetch(number) {
            Ok(page) => page,
            Err(error) => {
                assert(break_off(fetch, pages, page_size, max_pages, error));
                return Err(error);
            },
        };
        let ghost before = pages;
        proof {
            pages = pages.push(page);
            assert(pages.drop_last() =~= before);
        }
        let total: i64 = page.total;
        let count: usize = page.items.len();
        let mut items = page.items;
        lines.append(&mut items);
        assert(number * page_size <= 0xffff_ffff * 0xffff_ffff) by (nonlinear_arith)
            requires
                0 <= number <= 0xffff_ffff,
                0 <= page_size <= 0xffff_ffff,
        ;
        let consumed: u64 = number as u64 * page_size as u64;
        if (count as u128) < page_size as u128 || consumed as i128 >= total as i128 {
            assert(are_all_pages(fetch, pages, page_size));
            return Ok(lines);
        }
        read = number;
    }
    assert(are_too_many(fetch, pages, page_size, max_pages));
    let mut error = "时间窗口日志超过 ".to_string();
    error.append(decimal::to_decimal(max_pages as i64).as_str());
    error.append(" 页，未推进游标以避免丢失");
    Err(error)
}

// ---------------------------------------------------------------------------
// From lines to samples
// ---------------------------------------------------------------------------
/// Whether the line at `a` is older than the line at `b`: by its time, by its id
/// where they are of one time, by its place where they are of one id.
pub open spec fn is_older(lines: Seq<RemoteLog>, a: int, b: int) -> bool {
    let x = lines[a];
    let y = lines[b];
    x.created_at < y.created_at || (x.created_at == y.created_at && (x.id < y.id || (x.id == y.id
        && a < b)))
}

/// Whether `places` are the places of `lines`, each once, from the oldest line to the
/// newest.
pub open spec fn is_by_age(lines: Seq<RemoteLog>, places: Seq<int>) -> bool {
    &&& places.len() == lines.len()
    &&& forall|i: int| 0 <= i < places.len() ==> 0 <= #[trigger] places[i] < lines.len()
    &&& forall|i: int, j: int|
        0 <= i < j < places.len() ==> is_older(lines, #[trigger] places[i], #[trigger] places[j])
}

/// The lines at `places`.
pub open spec fn lines_at(lines: Seq<RemoteLog>, places: Seq<int>) -> Seq<RemoteLog> {
    places.map_values(|p: int| lines[p])
}

/// Sorts lines from the oldest to the newest.
pub fn sort_lines(lines: &Vec<RemoteLog>) -> (r: Vec<RemoteLog>)
    ensures
        exists|places: Seq<int>|
            #[trigger] is_by_age(lines@, places) && r@ == lines_at(lines@, places),
{
    let mut ranks: Vec<Rank> = Vec::new();
    let mut i: usize = 0;
    while i < lines.len()
        invariant
            i <= lines@.len(),
            ranks@.len() == i,
            forall|k: int|
                0 <= k < i ==> (#[trigger] ranks@[k]).place == k && ranks@[k].first
                    == lines@[k].created_at && ranks@[k].second == lines@[k].id,
        decreases lines@.len() - i,
    {
        ranks.push(Rank { first: lines[i].created_at, second: lines[i].id, place: i });
        i = i + 1;
    }
    let sorted = order::sort(&ranks);
    let ghost places = Seq::new(sorted@.len(), |k: int| sorted@[k].place as int);
    proof {
        broadcast use group_to_multiset_ensures;

        assert(ranks@.no_duplicates());
        ranks@.lemma_multiset_has_no_duplicates();
        sorted@.lemma_multiset_has_no_duplicates_conv();
        assert forall|k: int| 0 <= k < sorted@.len() implies (#[trigger] sorted@[k]).place
            < lines@.len() && sorted@[k] == ranks@[sorted@[k].place as int] by {
            assert(sorted@.to_multiset().contains(sorted@[k]));
            assert(ranks@.contains(sorted@[k]));
            let l = choose|l: int| 0 <= l < ranks@.len() && ranks@[l] == sorted@[k];
            assert(ranks@[l].place == l);
        }
        assert forall|a: int, b: int| 0 <= a < b < places.len() implies is_older(
            lines@,
            #[trigger] places[a],
            #[trigger] places[b],
        ) by {
            let x = sorted@[a];
            let y = sorted@[b];
            assert(order::Ordered::le(x, y));
            assert(x != y);
            assert(x == ranks@[x.place as int]);
            assert(y == ranks@[y.place as int]);
        }
        assert(is_by_age(lines@, places));
    }
    let mut r: Vec<RemoteLog> = Vec::new();
    let mut j: usize = 0;
    while j < sorted.len()
        invariant
            j <= sorted@.len(),
            places.len() == sorted@.len(),
            forall|k: int| 0 <= k < sorted@.len() ==> #[trigger] places[k] == sorted@[k].place,
            is_by_age(lines@, places),
            r@ == lines_at(lines@, places).take(j as int),
        decreases sorted@.len() - j,
    {
        assert(places[j as int] == sorted@[j as int].place);
        r.push(lines[sorted[j].place].clone());
        assert(r@ =~= lines_at(lines@, places).take(j + 1));
        j = j + 1;
    }
    assert(lines_at(lines@, places).take(j as int) =~= lines_at(lines@, places));
    r
}

/// The lines of `model` that are kept.
pub open spec fn kept_lines(lines: Seq<RemoteLog>, model: Seq<char>) -> Seq<RemoteLog> {
    lines.filter(|line: RemoteLog| line.model_name@ == model && domain::is_kept(line))
}

/// Whether `samples` are those of `lines`, one by one.
pub open spec fn are_samples(samples: Seq<LogSample>, lines: Seq<RemoteLog>) -> bool {
    &&& samples.len() == lines.len()
    &&& forall|i: int|
        0 <= i < samples.len() ==> (#[trigger] samples[i]).is_of(
            lines[i],
            domain::values_of(lines[i].other@),
        )
}

/// The samples of the lines of `model`.
pub fn make_samples(lines: Vec<RemoteLog>, model: &str) -> (samples: Vec<LogSample>)
    ensures
        are_samples(samples@, kept_lines(lines@, model@)),
{
    let mut samples: Vec<LogSample> = Vec::new();
    let mut i: usize = 0;
    proof {
        reveal(Seq::filter);
        assert(lines@.take(0) == Seq::<RemoteLog>::empty());
    }
    while i < lines.len()
        invariant
            i <= lines@.len(),
            are_samples(samples@, kept_lines(lines@.take(i as int), model@)),
        decreases lines@.len() - i,
    {
        proof {
            reveal(Seq::filter);
            assert(lines@.take(i + 1).drop_last() == lines@.take(i as int));
            assert(lines@.take(i + 1).last() == lines@[i as int]);
        }
        if text::same_text(lines[i].model_name.as_str(), model) {
            match LogSample::from_remote(lines[i].clone()) {
                Some(sample) => {
                    samples.push(sample);
                },
                None => {},
            }
        }
        i = i + 1;
    }
    assert(lines@.take(i as int) == lines@);
    samples
}

// ---------------------------------------------------------------------------
// One model
// ---------------------------------------------------------------------------
/// What one reading of the log of a model brings: the samples, and up to which time
/// the log was read.
#[derive(Debug)]
pub struct Batch {
    pub end: i64,
    pub samples: Vec<LogSample>,
}

/// Whether `fetch` may answer that between `start` and `end` there are at most
/// `capacity` lines.
pub open spec fn may_hold<H: Fn(i64, i64, u32) -> Result<PageData<RemoteLog>, String>>(
    fetch: H,
    start: i64,
    end: i64,
    capacity: int,
) -> bool {
    exists|page: PageData<RemoteLog>|
        page.total <= capacity && #[trigger] call_ensures(fetch, (start, end, 1u32), Ok(page))
}

/// Whether `fetch` may answer that between `start` and `end` there are more than
/// `capacity` lines.
pub open spec fn may_overflow<H: Fn(i64, i64, u32) -> Result<PageData<RemoteLog>, String>>(
    fetch: H,
    start: i64,
    end: i64,
    capacity: int,
) -> bool {
    exists|page: PageData<RemoteLog>|
        page.total > capacity && #[trigger] call_ensures(fetch, (start, end, 1u32), Ok(page))
}

/// Whether `pages` are all pages between `start` and `end` that `fetch` gives.
pub open spec fn cover<H: Fn(i64, i64, u32) -> Result<PageData<RemoteLog>, String>>(
    fetch: H,
    start: i64,
    end: i64,
    pages: Seq<PageData<RemoteLog>>,
    page_size: u32,
) -> bool {
    &&& pages.len() > 0
    &&& forall|i: int|
        0 <= i < pages.len() ==> call_ensures(
            fetch,
            (start, end, (i + 1) as u32),
            Ok(#[trigger] pages[i]),
        )
    &&& forall|i: int| 0 <= i < pages.len() - 1 ==> !is_last(#[trigger] pages[i], i + 1, page_size)
    &&& is_last(pages.last(), pages.len() as int, page_size)
}

/// Whether `pages` are as many pages between `start` and `end` as may be read, and
/// there are more.
pub open spec fn go_on<H: Fn(i64, i64, u32) -> Result<PageData<RemoteLog>, String>>(
    fetch: H,
    start: i64,
    end: i64,
    pages: Seq<PageData<RemoteLog>>,
    api: ApiConfig,
) -> bool {
    &&& pages.len() == api.max_pages_per_model
    &&& forall|i: int|
        0 <= i < pages.len() ==> call_ensures(
            fetch,
            (start, end, (i + 1) as u32),
            Ok(#[trigger] pages[i]),
        ) && !is_last(pages[i], i + 1, api.page_size)
}

/// Whether a reading that begins at `start` fails with `error`: there is nothing to
/// read, `fetch` fails on a page of a time up to `now`, one moment holds too many
/// lines, or there are too many pages.
pub open spec fn may_fail_reading<H: Fn(i64, i64, u32) -> Result<PageData<RemoteLog>, String>>(
    fetch: H,
    start: i64,
    now: i64,
    api: ApiConfig,
    error: String,
) -> bool {
    ||| (capacity_of(api) <= 0 || now <= start) && error@ == invalid_window()
    ||| exists|end: i64, number: u32|
        start < end <= now && 1 <= number <= api.max_pages_per_model && #[trigger] call_ensures(
            fetch,
            (start, end, number),
            Err(error),
        )
    ||| error@ == crowded_moment(capacity_of(api) as i64) && may_overflow(
        fetch,
        start,
        (start + 1) as i64,
        capacity_of(api),
    )
    ||| error@ == too_many_pages(api.max_pages_per_model) && exists|
        end: i64,
        pages: Seq<PageData<RemoteLog>>,
    |
        start < end <= now && #[trigger] go_on(fetch, start, end, pages, api)
}

impl Batch {
    /// Whether this is what `pages` of the log of `model` bring.
    pub open spec fn brings(self, pages: Seq<PageData<RemoteLog>>, model: Seq<char>) -> bool {
        exists|places: Seq<int>|
            #[trigger] is_by_age(lines_of(pages), places) && are_samples(
                self.samples@,
                kept_lines(lines_at(lines_of(pages), places), model),
            )
    }
}

/// Reads the log of `model` from its cursor on, up to a time until which all of it
/// can be read, and makes samples of it, the oldest first. An error means that
/// nothing was read for good, and the cursor has to stay.
pub fn collect_model<H: Copy + Fn(i64, i64, u32) -> Result<PageData<RemoteLog>, String>>(
    api: &ApiConfig,
    model: &str,
    cursor: i64,
    now: i64,
    fetch: H,
) -> (r: Result<Batch, String>)
    requires
        forall|start: i64, end: i64, number: u32|
            start == start_of(*api, cursor, now) && start < end <= now && 1 <= number
                <= api.max_pages_per_model ==> #[trigger] call_requires(
                fetch,
                (start, end, number),
            ),
    ensures
        capacity_of(*api) <= 0 || now <= start_of(*api, cursor, now) ==> r is Err && r->Err_0@
            == invalid_window(),
        r matches Ok(batch) ==> {
            let start = start_of(*api, cursor, now) as i64;
            &&& start < batch.end <= now
            &&& may_hold(fetch, start, batch.end, capacity_of(*api))
            &&& batch.end < now ==> may_overflow(
                fetch,
                start,
                (batch.end + 1) as i64,
                capacity_of(*api),
            )
            &&& exists|pages: Seq<PageData<RemoteLog>>|
                #[trigger] cover(fetch, start, batch.end, pages, api.page_size) && pages.len()
                    <= api.max_pages_per_model && batch.brings(pages, model@)
        },
        r matches Err(error) ==> may_fail_reading(
            fetch,
            start_of(*api, cursor, now) as i64,
            now,
            *api,
            error,
        ),
{
    let start: i64 = collection_start(api, cursor, now);
    let capacity: i64 = page_capacity(api);
    assert(capacity > 0 ==> api.max_pages_per_model > 0) by {
        if api.max_pages_per_model == 0 {
            assert(api.max_pages_per_model * api.page_size == 0) by (nonlinear_arith)
                requires
                    api.max_pages_per_model == 0,
            ;
        }
    }
    let count_until = |end: i64| -> (n: Result<i64, String>)
        requires
            capacity > 0,
            start < end <= now,
        ensures
            match n {
                Ok(total) => exists|page: PageData<RemoteLog>|
                    page.total == total && #[trigger] call_ensures(
                        fetch,
                        (start, end, 1u32),
                        Ok(page),
                    ),
                Err(error) => call_ensures(fetch, (start, end, 1u32), Err(error)),
            },
        {
            match fetch(start, end, 1) {
                Ok(page) => Ok(page.total),
                Err(error) => Err(error),
            }
        };
    let end: i64 = match select_batch_end(start, now, capacity, count_until) {
        Ok(end) => end,
        Err(error) => {
            proof {
                if may_fail(count_until, start, now, capacity, error) {
                    let end = choose|end: i64|
                        start < end <= now && #[trigger] call_ensures(
                            count_until,
                            (end,),
                            Err(error),
                        );
                    assert(call_ensures(fetch, (start, end, 1u32), Err(error)));
                } else if capacity > 0 && now > start {
                    let next = (start + 1) as i64;
                    let n = choose|n: i64|
                        n > capacity && #[trigger] call_ensures(count_until, (next,), Ok(n));
                    let page = choose|page: PageData<RemoteLog>|
                        page.total == n && #[trigger] call_ensures(
                            fetch,
                            (start, next, 1u32),
                            Ok(page),
                        );
                    assert(call_ensures(fetch, (start, next, 1u32), Ok(page)));
                    assert(may_overflow(fetch, start, next, capacity_of(*api)));
                }
            }
            return Err(error);
        },
    };
    assert(may_hold(fetch, start, end, capacity_of(*api))) by {
        let n = choose|n: i64|
            n <= capacity && #[trigger] call_ensures(count_until, (end,), Ok(n));
        let page = choose|page: PageData<RemoteLog>|
            page.total == n && #[trigger] call_ensures(fetch, (start, end, 1u32), Ok(page));
        assert(call_ensures(fetch, (start, end, 1u32), Ok(page)));
    }
    assert(end < now ==> may_overflow(fetch, start, (end + 1) as i64, capacity_of(*api))) by {
        if end < now {
            let next = (end + 1) as i64;
            let n = choose|n: i64|
                n > capacity && #[trigger] call_ensures(count_until, (next,), Ok(n));
            let page = choose|page: PageData<RemoteLog>|
                page.total == n && #[trigger] call_ensures(fetch, (start, next, 1u32), Ok(page));
            assert(call_ensures(fetch, (start, next, 1u32), Ok(page)));
        }
    }
    let fetch_page = |number: u32| -> (page: Result<PageData<RemoteLog>, String>)
        requires
            1 <= number <= api.max_pages_per_model,
        ensures
            call_ensures(fetch, (start, end, number), page),
        { fetch(start, end, number) };
    let lines = match read_pages(api.page_size, api.max_pages_per_model, fetch_page) {
        Ok(lines) => lines,
        Err(error) => {
            proof {
                if exists|pages: Seq<PageData<RemoteLog>>| #[trigger]
                    break_off(
                        fetch_page,
                        pages,
                        api.page_size,
                        api.max_pages_per_model,
                        error,
                    ) {
                    let pages = choose|pages: Seq<PageData<RemoteLog>>| #[trigger]
                        break_off(
                            fetch_page,
                            pages,
                            api.page_size,
                            api.max_pages_per_model,
                            error,
                        );
                    let number = (pages.len() + 1) as u32;
                    assert(call_ensures(fetch, (start, end, number), Err(error)));
                } else {
                    let pages = choose|pages: Seq<PageData<RemoteLog>>| #[trigger]
                        are_too_many(
                            fetch_page,
                            pages,
                            api.page_size,
                            api.max_pages_per_model,
                        );
                    assert(go_on(fetch, start, end, pages, *api));
                }
            }
            return Err(error);
        },
    };
    let ghost pages = choose|pages: Seq<PageData<RemoteLog>>|
        #[trigger] are_all_pages(fetch_page, pages, api.page_size) && pages.len()
            <= api.max_pages_per_model && lines@ == lines_of(pages);
    assert(cover(fetch, start, end, pages, api.page_size));
    let sorted = sort_lines(&lines);
    let batch = Batch { end, samples: make_samples(sorted, model) };
    assert(batch.brings(pages, model@));
    Ok(batch)
}

// ---------------------------------------------------------------------------
// One round
// ---------------------------------------------------------------------------
/// What is noted of a model whose log could not be read.
pub fn model_failure(model: &str, error: &str) -> (r: String)
    ensures
        r@ == model@ + ": "@ + error@,
{
    let mut r = model.to_string();
    r.append(": ");
    r.append(error);
    r
}

/// The error of a round in which `completed` models were read and the others failed
/// as `failures` say: only a round without any model fails.
pub open spec fn round_error(completed: nat, failures: Seq<Seq<char>>) -> Option<Seq<char>> {
    if completed > 0 {
        None
    } else if failures.len() == 0 {
        Some("没有可采集的白名单模型"@)
    } else {
        Some(text::joined(failures, "; "@))
    }
}

/// The result of a round.
pub fn round_result(completed: usize, failures: &Vec<String>) -> (r: Result<(), String>)
    ensures
        match r {
            Ok(_) => round_error(completed as nat, text::texts(failures@)) is None,
            Err(error) => round_error(completed as nat, text::texts(failures@)) == Some(error@),
        },
{
    if completed > 0 {
        return Ok(());
    }
    if failures.len() == 0 {
        Err("没有可采集的白名单模型".to_string())
    } else {
        Err(text::join(failures, "; "))
    }
}

/// The time until which a request without success is given up at `now`.
pub fn settlement_cutoff(api: &ApiConfig, now: i64) -> (r: i64)
    ensures
        r == num::clamped(now - api.settlement_grace_secs),
{
    num::minus(now, api.settlement_grace_secs)
}

/// The time before which everything is forgotten at `now`.
pub fn retention_cutoff(config: &AppConfig, now: i64) -> (r: i64)
    ensures
        r == num::clamped(now - config.storage.retention_days * 86_400),
{
    num::minus(now, config.storage.retention_days as i64 * 86_400)
}

/// The snapshots to keep ready after a round.
pub fn refresh_reports(
    config: &AppConfig,
    outcomes: &[OutcomeRow],
    database: DatabaseStats,
    now: i64,
) -> (r: ReportCache)
    ensures
        r.generated_at == now,
        r.database == database,
        forall|window: i64| #[trigger]
            r.windows@.contains_key(window) <==> metrics::WINDOWS@.contains(window),
        forall|window: i64| #[trigger]
            r.windows@.contains_key(window) ==> r.windows@[window].reports(
                *config,
                outcomes@,
                now,
                window,
            ),
{
    ReportCache {
        generated_at: now,
        windows: metrics::snapshot_map(config, outcomes, now),
        database,
    }
}

/// Notes the result of a round, and says whether it went well.
pub fn finish_round(health: &mut CollectorHealth, result: Result<(), String>, now: i64) -> (ok:
    bool)
    ensures
        ok == result is Ok,
        final(health).started_at == old(health).started_at,
        final(health).last_attempt_at == old(health).last_attempt_at,
        final(health).last_success_at == if ok {
            now
        } else {
            old(health).last_success_at
        },
        final(health).consecutive_failures == if ok {
            0
        } else {
            one_more(old(health).consecutive_failures)
        },
        match result {
            Ok(_) => final(health).last_error@.len() == 0,
            Err(error) => final(health).last_error == error,
        },
{
    match result {
        Ok(_) => {
            health.update_success(now);
            true
        },
        Err(error) => {
            health.update_failure(error);
            false
        },
    }
}

/// Whether a day has passed since the last cleanup.
pub fn cleanup_due(now: i64, last_cleanup_at: i64) -> (r: bool)
    ensures
        r == (num::clamped(now - last_cleanup_at) >= 86_400),
{
    num::minus(now, last_cleanup_at) >= 86_400
}

/// Two to the power of the number of failures in a row, at most 16.
pub open spec fn backoff(failures: u32) -> int {
    if failures == 0 {
        1
    } else if failures == 1 {
        2
    } else if failures == 2 {
        4
    } else if failures == 3 {
        8
    } else {
        16
    }
}

/// How long the collector waits after a round: the configured time, or longer after
/// failures, but then at most five minutes.
pub open spec fn pause_of(poll: u64, ok: bool, failures: u32) -> int {
    if ok {
        poll as int
    } else if poll * backoff(failures) < 300 {
        poll * backoff(failures)
    } else {
        300
    }
}

/// How long the collector waits after a round, in seconds.
pub fn pause_seconds(poll: u64, ok: bool, failures: u32) -> (r: u64)
    ensures
        r == pause_of(poll, ok, failures),
{
    if ok {
        return poll;
    }
    let factor: u128 = if failures == 0 {
        1
    } else if failures == 1 {
        2
    } else if failures == 2 {
        4
    } else if failures == 3 {
        8
    } else {
        16
    };
    assert(poll * factor <= 0xffff_ffff_ffff_ffff * 16) by (nonlinear_arith)
        requires
            0 <= poll <= 0xffff_ffff_ffff_ffff,
            0 <= factor <= 16,
    ;
    let longer: u128 = poll as u128 * factor;
    if longer < 300 {
        longer as u64
    } else {
        300
    }
}

// ---------------------------------------------------------------------------
// The models of a round
// ---------------------------------------------------------------------------
/// How the models of a round did: how many were read, and why the others were not.
#[derive(Debug)]
pub struct RoundTally {
    pub completed: usize,
    pub failures: Vec<String>,
}

impl RoundTally {
    /// Before the first model.
    pub fn new() -> (r: Self)
        ensures
            r.completed == 0,
            r.failures@.len() == 0,
    {
        RoundTally { completed: 0, failures: Vec::new() }
    }

    /// Notes a model that was read.
    pub fn note_success(&mut self)
        requires
            old(self).completed < usize::MAX,
        ensures
            final(self).completed == old(self).completed + 1,
            final(self).failures == old(self).failures,
    {
        self.completed = self.completed + 1;
    }

    /// Notes a model that was not read.
    pub fn note_failure(&mut self, model: &str, error: &str)
        ensures
            final(self).completed == old(self).completed,
            text::texts(final(self).failures@) == text::texts(old(self).failures@).push(
                model@ + ": "@ + error@,
            ),
    {
        let ghost before = text::texts(self.failures@);
        self.failures.push(model_failure(model, error));
        assert(text::texts(self.failures@) =~= before.push(model@ + ": "@ + error@));
    }

    /// The result of the round.
    pub fn result(&self) -> (r: Result<(), String>)
        ensures
            match r {
                Ok(_) => round_error(self.completed as nat, text::texts(self.failures@)) is None,
                Err(error) => round_error(self.completed as nat, text::texts(self.failures@))
                    == Some(error@),
            },
    {
        round_result(self.completed, &self.failures)
    }
}

// ---------------------------------------------------------------------------
// The worker
// ---------------------------------------------------------------------------
/// One failure more, as far as they are counted.
pub open spec fn one_more(failures: u32) -> int {
    if failures < u32::MAX {
        failures + 1
    } else {
        u32::MAX as int
    }
}

/// What the worker does next.
#[derive(Clone, Copy, Debug, PartialEq, Eq, Structural)]
pub enum WorkerAction {
    /// Collect from all models.
    Collect,
    /// Forget what is older than this.
    Cleanup { cutoff: i64 },
    /// Wait for so many seconds, or until something is asked.
    Wait { seconds: u64 },
    /// End.
    Exit,
}

/// What has come of the last action.
#[derive(Debug)]
pub enum WorkerEvent {
    /// The store was opened, or not.
    Opened(Result<(), String>),
    /// A round that began at `now` ended.
    Collected { now: i64, result: Result<(), String> },
    /// The old was forgotten, or not.
    CleanedUp { ok: bool },
    /// The wait is over; `exit` says that the worker has to end.
    Waited { exit: bool },
}

/// The worker that collects round after round.
#[derive(Clone, Copy, Debug, PartialEq, Eq, Structural)]
pub struct Worker {
    /// When the last cleanup went well.
    pub last_cleanup_at: i64,
    /// When the round began.
    pub round_at: i64,
    /// Whether the round went well.
    pub round_ok: bool,
}

impl Worker {
    /// Whether a cleanup is due after a round that began at `now`.
    pub open spec fn is_cleanup_due(self, now: i64) -> bool {
        num::clamped(now - self.last_cleanup_at) >= 86_400
    }

    /// What the worker does after `event`, when the collector is in `health`.
    pub open spec fn action_after(
        self,
        config: AppConfig,
        event: WorkerEvent,
        failures: u32,
    ) -> WorkerAction {
        match event {
            WorkerEvent::Opened(result) => match result {
                Ok(_) => WorkerAction::Collect,
                Err(_) => WorkerAction::Exit,
            },
            WorkerEvent::Collected { now, result } => if self.is_cleanup_due(now) {
                WorkerAction::Cleanup {
                    cutoff: num::clamped(now - config.storage.retention_days * 86_400) as i64,
                }
            } else {
                WorkerAction::Wait {
                    seconds: pause_of(
                        config.api.poll_interval_secs,
                        result is Ok,
                        failures,
                    ) as u64,
                }
            },
            WorkerEvent::CleanedUp { .. } => WorkerAction::Wait {
                seconds: pause_of(config.api.poll_interval_secs, self.round_ok, failures) as u64,
            },
            WorkerEvent::Waited { exit } => if exit {
                WorkerAction::Exit
            } else {
                WorkerAction::Collect
            },
        }
    }

    /// The worker after `event`.
    pub open spec fn after(self, event: WorkerEvent) -> Worker {
        match event {
            WorkerEvent::Collected { now, result } => Worker {
                round_at: now,
                round_ok: result is Ok,
                ..self
            },
            WorkerEvent::CleanedUp { ok: true } => Worker {
                last_cleanup_at: self.round_at,
                ..self
            },
            _ => self,
        }
    }

    /// A worker that has done nothing yet.
    pub fn new() -> (r: Self)
        ensures
            r == (Worker { last_cleanup_at: 0, round_at: 0, round_ok: false }),
    {
        Worker { last_cleanup_at: 0, round_at: 0, round_ok: false }
    }

    /// Takes note of an event, also in the health of the collector, and says what to
    /// do next. A failure to open the store or to collect is a failure in the health;
    /// a failed cleanup is tried again after the next round.
    pub fn next(
        &mut self,
        config: &AppConfig,
        health: &mut CollectorHealth,
        event: WorkerEvent,
    ) -> (r: WorkerAction)
        ensures
            *final(self) == old(self).after(event),
            r == old(self).action_after(*config, event, final(health).consecutive_failures),
            match event {
                WorkerEvent::Opened(Err(error)) => final(health).last_error == error
                    && final(health).last_success_at == old(health).last_success_at
                    && final(health).consecutive_failures == one_more(
                    old(health).consecutive_failures,
                ),
                WorkerEvent::Collected { now, result } => match result {
                    Ok(_) => final(health).last_success_at == now
                        && final(health).consecutive_failures == 0
                        && final(health).last_error@.len() == 0,
                    Err(error) => final(health).last_error == error
                        && final(health).last_success_at == old(health).last_success_at
                        && final(health).consecutive_failures == one_more(
                        old(health).consecutive_failures,
                    ),
                },
                _ => *final(health) == *old(health),
            },
            final(health).started_at == old(health).started_at,
            final(health).last_attempt_at == old(health).last_attempt_at,
    {
        match event {
            WorkerEvent::Opened(result) => {
                match result {
                    Ok(_) => WorkerAction::Collect,
                    Err(error) => {
                        health.update_failure(error);
                        WorkerAction::Exit
                    },
                }
            },
            WorkerEvent::Collected { now, result } => {
                let ok = finish_round(health, result, now);
                let due = cleanup_due(now, self.last_cleanup_at);
                self.round_at = now;
                self.round_ok = ok;
                if due {
                    WorkerAction::Cleanup { cutoff: retention_cutoff(config, now) }
                } else {
                    self.pause(config, health)
                }
            },
            WorkerEvent::CleanedUp { ok } => {
                if ok {
                    self.last_cleanup_at = self.round_at;
                }
                self.pause(config, health)
            },
            WorkerEvent::Waited { exit } => {
                if exit {
                    WorkerAction::Exit
                } else {
                    WorkerAction::Collect
                }
            },
        }
    }

    fn pause(&self, config: &AppConfig, health: &CollectorHealth) -> (r: WorkerAction)
        ensures
            r == (WorkerAction::Wait {
                seconds: pause_of(
                    config.api.poll_interval_secs,
                    self.round_ok,
                    health.consecutive_failures,
                ) as u64,
            }),
    {
        WorkerAction::Wait {
            seconds: pause_seconds(
                config.api.poll_interval_secs,
                self.round_ok,
                health.consecutive_failures,
            ),
        }
    }
}

// ---------------------------------------------------------------------------
// Laws
// ---------------------------------------------------------------------------
/// Where more time never means fewer lines, a time that fits while the next one does
/// not is the latest one that fits.
pub proof fn chosen_end_is_the_latest(
    lines_until: spec_fn(int) -> int,
    capacity: int,
    end: int,
    other: int,
)
    requires
        forall|a: int, b: int| a <= b ==> #[trigger] lines_until(a) <= #[trigger] lines_until(b),
        lines_until(end) <= capacity,
        lines_until(end + 1) > capacity,
    ensures
        lines_until(other) <= capacity <==> other <= end,
{
    if other <= end {
        assert(lines_until(other) <= lines_until(end));
    } else {
        assert(lines_until(end + 1) <= lines_until(other));
    }
}

/// A reading begins before `now`, and no later than the cursor, so that no line
/// between two readings is skipped.
pub proof fn readings_overlap(api: ApiConfig, cursor: i64, now: i64)
    requires
        i64::MIN < now,
        api.overlap_secs >= 0,
    ensures
        start_of(api, cursor, now) < now,
        cursor != 0 ==> start_of(api, cursor, now) <= cursor,
{
}

/// After failures the collector waits at most five minutes, and never longer after
/// fewer failures.
pub proof fn pauses_grow_to_five_minutes(poll: u64, fewer: u32, more: u32)
    requires
        fewer <= more,
    ensures
        pause_of(poll, false, more) <= 300,
        pause_of(poll, false, fewer) <= pause_of(poll, false, more),
{
    assert(poll * backoff(fewer) <= poll * backoff(more)) by (nonlinear_arith)
        requires
            0 <= poll,
            backoff(fewer) <= backoff(more),
    ;
}

/// Where the lines of the overlap and of the next moment fit into one reading, a
/// reading ends after the cursor, so that a backlog is worked off round by round.
pub proof fn readings_advance(
    lines_until: spec_fn(int) -> int,
    capacity: int,
    end: int,
    cursor: int,
    now: int,
)
    requires
        forall|a: int, b: int| a <= b ==> #[trigger] lines_until(a) <= #[trigger] lines_until(b),
        end == now || lines_until(end + 1) > capacity,
        cursor < now,
        lines_until(cursor + 1) <= capacity,
    ensures
        cursor < end,
{
    if end <= cursor {
        assert(lines_until(end + 1) <= lines_until(cursor + 1));
    }
}

/// The worker cleans up only where a day has passed since the last cleanup that went
/// well.
pub proof fn cleanups_are_a_day_apart(
    worker: Worker,
    config: AppConfig,
    now: i64,
    result: Result<(), String>,
    failures: u32,
)
    requires
        worker.last_cleanup_at >= 0,
        now >= 0,
        worker.action_after(
            config,
            WorkerEvent::Collected { now, result },
            failures,
        ) is Cleanup,
    ensures
        now >= worker.last_cleanup_at + 86_400,
{
}

/// The worker ends only where it is asked to or where the store cannot be opened.
pub proof fn worker_goes_on(
    worker: Worker,
    config: AppConfig,
    event: WorkerEvent,
    failures: u32,
)
    requires
        worker.action_after(config, event, failures) is Exit,
    ensures
        event matches WorkerEvent::Waited { exit } ==> exit,
        event is Waited || (event is Opened && event->Opened_0 is Err),
{
}

} // verus!
