//! How the collector reads the logs, and what its worker does next.
use vstd::prelude::*;
use vstd::string::*;

use crate::api::{PageData, RemoteLog};
use crate::collector;
use crate::collector::{Batch, RoundTally, Worker, WorkerAction, WorkerEvent};
use crate::config::{ApiConfig, AppConfig};
use crate::decimal;
use crate::domain::LogSample;
use crate::repository::{DatabaseStats, OutcomeRow};
use crate::sampling;
use crate::state::{CollectorHealth, ReportCache};

verus! {

// ---------------------------------------------------------------------------
// Which part of the log
// ---------------------------------------------------------------------------
/// A model that was never read is read back as far as the configuration says; any other
/// from its cursor, less the overlap. A reading covers at least one second.
pub proof fn readings_begin_at_the_cursor(api: ApiConfig, cursor: i64, now: i64)
    requires
        i64::MIN <= now - 1,
        i64::MIN <= now - api.initial_backfill_hours * 3_600,
        i64::MIN <= cursor - api.overlap_secs <= i64::MAX,
    ensures
        cursor == 0 && api.initial_backfill_hours > 0 ==> collector::start_of(api, cursor, now)
            == now - api.initial_backfill_hours * 3_600,
        cursor != 0 && cursor - api.overlap_secs < now ==> collector::start_of(api, cursor, now)
            == cursor - api.overlap_secs,
        cursor != 0 && cursor - api.overlap_secs >= now ==> collector::start_of(api, cursor, now)
            == now - 1,
{
}

/// A reading takes no more lines than the allowed pages hold.
pub proof fn readings_have_a_capacity(api: ApiConfig)
    ensures
        collector::capacity_of(api) == api.max_pages_per_model * api.page_size || (
        collector::capacity_of(api) == i64::MAX && api.max_pages_per_model * api.page_size
            > i64::MAX),
{
    assert(0 <= api.max_pages_per_model * api.page_size) by (nonlinear_arith);
}

/// Where the log always answers with the number of lines up to a time, the end that is
/// chosen for a reading is the latest one up to which the lines fit.
pub proof fn latest_fitting_end_is_chosen<F: Fn(i64) -> Result<i64, String>>(
    start: i64,
    requested_end: i64,
    capacity: i64,
    count: F,
    lines: spec_fn(i64) -> i64,
    end: i64,
    other: i64,
)
    requires
        call_ensures(
            collector::select_batch_end::<F>,
            (start, requested_end, capacity, count),
            Ok(end),
        ),
        forall|e: i64, r: Result<i64, String>| #[trigger]
            call_ensures(count, (e,), r) ==> r == Ok::<i64, String>(lines(e)),
        forall|a: i64, b: i64| a <= b ==> #[trigger] lines(a) <= #[trigger] lines(b),
        start < other <= requested_end,
    ensures
        capacity > 0,
        start < end <= requested_end,
        lines(other) <= capacity <==> other <= end,
{
    let n = choose|n: i64| n <= capacity && #[trigger] call_ensures(count, (end,), Ok(n));
    assert(lines(end) == n);
    if end < requested_end {
        let next = (end + 1) as i64;
        let m = choose|n: i64| n > capacity && #[trigger] call_ensures(count, (next,), Ok(n));
        assert(lines(next) == m);
    }
}

/// A window without a second in it, or without room for a line, is refused.
pub proof fn empty_windows_are_refused<F: Fn(i64) -> Result<i64, String>>(
    start: i64,
    requested_end: i64,
    capacity: i64,
    count: F,
    r: Result<i64, String>,
)
    requires
        call_ensures(
            collector::select_batch_end::<F>,
            (start, requested_end, capacity, count),
            r,
        ),
        capacity <= 0 || requested_end <= start,
    ensures
        r is Err,
        r->Err_0@ == "采集时间窗口或分页容量无效"@,
{
}

/// A page is the last one exactly if it is not full or the pages up to it hold as many
/// lines as there are.
pub proof fn last_pages_are_recognised(
    page: PageData<RemoteLog>,
    number: int,
    page_size: u32,
)
    ensures
        page.items@.len() < page_size ==> collector::is_last(page, number, page_size),
        number * page_size >= page.total ==> collector::is_last(page, number, page_size),
        page.items@.len() >= page_size && number * page_size < page.total ==> !collector::is_last(
            page,
            number,
            page_size,
        ),
{
}

/// The lines of a page more follow those of the pages before it.
pub proof fn pages_follow_each_other(
    pages: Seq<PageData<RemoteLog>>,
    page: PageData<RemoteLog>,
)
    ensures
        collector::lines_of(Seq::empty()).len() == 0,
        collector::lines_of(pages.push(page)) == collector::lines_of(pages) + page.items@,
{
    assert(pages.push(page).drop_last() =~= pages);
}

/// Of the lines, those of the model are kept that are paid lines or errors.
pub proof fn lines_of_the_model_are_kept(
    lines: Seq<RemoteLog>,
    line: RemoteLog,
    model: Seq<char>,
)
    ensures
        collector::kept_lines(Seq::empty(), model).len() == 0,
        line.model_name@ == model && (line.log_type == 2 || line.log_type == 5)
            && sampling::says_something(model) ==> collector::kept_lines(lines.push(line), model)
            == collector::kept_lines(lines, model).push(line),
        line.model_name@ != model || !(line.log_type == 2 || line.log_type == 5)
            || !sampling::says_something(model) ==> collector::kept_lines(lines.push(line), model)
            == collector::kept_lines(lines, model),
{
    reveal(Seq::filter);
    assert(lines.push(line).drop_last() =~= lines);
    sampling::paid_lines_and_errors_are_kept(line);
}

/// What a reading brings are samples of the model alone, the older before the younger,
/// and each is of a line on the pages.
pub proof fn batches_are_of_the_model_by_age(
    batch: Batch,
    pages: Seq<PageData<RemoteLog>>,
    model: Seq<char>,
    i: int,
    j: int,
)
    requires
        batch.brings(pages, model),
        0 <= i < j < batch.samples@.len(),
    ensures
        batch.samples@[i].created_at <= batch.samples@[j].created_at,
        batch.samples@[i].created_at == batch.samples@[j].created_at
            ==> batch.samples@[i].source_log_id <= batch.samples@[j].source_log_id,
        batch.samples@[i].model_name@ == model,
        exists|k: int|
            0 <= k < collector::lines_of(pages).len() && batch.samples@[i].source_log_id == (
            #[trigger] collector::lines_of(pages)[k]).id,
{
    let lines = collector::lines_of(pages);
    let places = choose|places: Seq<int>|
        #[trigger] collector::is_by_age(lines, places) && collector::are_samples(
            batch.samples@,
            collector::kept_lines(collector::lines_at(lines, places), model),
        );
    let sorted = collector::lines_at(lines, places);
    assert forall|a: int, b: int| 0 <= a < b < sorted.len() implies not_younger(
        #[trigger] sorted[a],
        #[trigger] sorted[b],
    ) by {
        assert(collector::is_older(lines, places[a], places[b]));
    }
    let kept = collector::kept_lines(sorted, model);
    kept_stay_by_age(sorted, model, i, j);
    let a = batch.samples@[i];
    let b = batch.samples@[j];
    assert(a.is_of(kept[i], crate::domain::values_of(kept[i].other@)));
    assert(b.is_of(kept[j], crate::domain::values_of(kept[j].other@)));
    assert(kept.contains(kept[i]));
    kept_are_lines(sorted, model, i);
    let k = choose|k: int| 0 <= k < sorted.len() && sorted[k] == kept[i];
    assert(lines[places[k]] == kept[i]);
}

spec fn not_younger(a: RemoteLog, b: RemoteLog) -> bool {
    a.created_at < b.created_at || (a.created_at == b.created_at && a.id <= b.id)
}

proof fn kept_are_lines(lines: Seq<RemoteLog>, model: Seq<char>, i: int)
    requires
        0 <= i < collector::kept_lines(lines, model).len(),
    ensures
        lines.contains(collector::kept_lines(lines, model)[i]),
        collector::kept_lines(lines, model)[i].model_name@ == model,
    decreases lines.len(),
{
    reveal(Seq::filter);
    let rest = lines.drop_last();
    let kept = collector::kept_lines(rest, model);
    assert(lines[lines.len() - 1] == lines.last());
    if i < kept.len() {
        kept_are_lines(rest, model, i);
        let k = choose|k: int| 0 <= k < rest.len() && rest[k] == kept[i];
        assert(lines[k] == kept[i]);
    }
}

proof fn kept_stay_by_age(lines: Seq<RemoteLog>, model: Seq<char>, i: int, j: int)
    requires
        forall|a: int, b: int|
            0 <= a < b < lines.len() ==> not_younger(#[trigger] lines[a], #[trigger] lines[b]),
        0 <= i < j < collector::kept_lines(lines, model).len(),
    ensures
        not_younger(
            collector::kept_lines(lines, model)[i],
            collector::kept_lines(lines, model)[j],
        ),
    decreases lines.len(),
{
    reveal(Seq::filter);
    let rest = lines.drop_last();
    let kept = collector::kept_lines(rest, model);
    assert forall|a: int, b: int| 0 <= a < b < rest.len() implies not_younger(
        #[trigger] rest[a],
        #[trigger] rest[b],
    ) by {
        assert(not_younger(lines[a], lines[b]));
    }
    if j < kept.len() {
        kept_stay_by_age(rest, model, i, j);
    } else {
        kept_are_lines(rest, model, i);
        let k = choose|k: int| 0 <= k < rest.len() && rest[k] == kept[i];
        assert(lines[k] == kept[i]);
        assert(lines[lines.len() - 1] == lines.last());
        assert(not_younger(lines[k], lines[lines.len() - 1]));
    }
}

// ---------------------------------------------------------------------------
// Rounds and pauses
// ---------------------------------------------------------------------------
/// A round succeeds as soon as one model was read. One in which every model failed tells
/// all the failures in their order, and one without models says that there are none.
pub proof fn rounds_fail_with_all_models(failures: Seq<Seq<char>>, failure: Seq<char>, n: nat)
    ensures
        n > 0 ==> collector::round_error(n, failures) is None,
        collector::round_error(0, Seq::empty()) == Some("没有可采集的白名单模型"@),
        collector::round_error(0, seq![failure]) == Some(failure),
        failures.len() > 0 ==> collector::round_error(0, failures.push(failure)) == Some(
            collector::round_error(0, failures)->0 + "; "@ + failure,
        ),
{
    assert(failures.push(failure).drop_last() =~= failures);
}

/// After a round that went well the worker waits as long as configured. After failures
/// it waits twice as long for each in a row but the first, up to four times, and never
/// more than five minutes.
pub proof fn pauses_double(poll: u64, failures: u32)
    ensures
        collector::pause_of(poll, true, failures) == poll,
        poll <= 300 ==> collector::pause_of(poll, false, 0) == poll,
        poll > 300 ==> collector::pause_of(poll, false, failures) == 300,
        failures < 4 && 2 * collector::pause_of(poll, false, failures) <= 300
            ==> collector::pause_of(poll, false, (failures + 1) as u32) == 2 * collector::pause_of(
            poll,
            false,
            failures,
        ),
        failures < 4 && 2 * collector::pause_of(poll, false, failures) > 300
            ==> collector::pause_of(poll, false, (failures + 1) as u32) == 300,
        failures >= 4 ==> collector::pause_of(poll, false, failures) == collector::pause_of(
            poll,
            false,
            4,
        ),
{
    assert(poll * collector::backoff(failures) >= poll) by (nonlinear_arith)
        requires
            collector::backoff(failures) >= 1,
            poll >= 0,
    ;
}

/// The worker begins as soon as the store is open, and ends where it cannot be opened.
/// After a round it cleans up if the last cleanup is a day old, and otherwise waits;
/// after a cleanup it waits; after a wait it goes on, unless it has to end.
pub proof fn worker_takes_turns(
    worker: Worker,
    config: AppConfig,
    result: Result<(), String>,
    now: i64,
    failures: u32,
    flag: bool,
)
    requires
        i64::MIN <= now - worker.last_cleanup_at <= i64::MAX,
        i64::MIN <= now - config.storage.retention_days * 86_400,
    ensures
        worker.action_after(config, WorkerEvent::Opened(result), failures) == if result is Ok {
            WorkerAction::Collect
        } else {
            WorkerAction::Exit
        },
        worker.action_after(config, WorkerEvent::Waited { exit: flag }, failures) == if flag {
            WorkerAction::Exit
        } else {
            WorkerAction::Collect
        },
        now - worker.last_cleanup_at >= 86_400 ==> worker.action_after(
            config,
            WorkerEvent::Collected { now, result },
            failures,
        ) == (WorkerAction::Cleanup {
            cutoff: (now - config.storage.retention_days * 86_400) as i64,
        }),
        now - worker.last_cleanup_at < 86_400 && result is Ok ==> worker.action_after(
            config,
            WorkerEvent::Collected { now, result },
            failures,
        ) == (WorkerAction::Wait { seconds: config.api.poll_interval_secs }),
        now - worker.last_cleanup_at < 86_400 && result is Err ==> worker.action_after(
            config,
            WorkerEvent::Collected { now, result },
            failures,
        ) == (WorkerAction::Wait {
            seconds: collector::pause_of(config.api.poll_interval_secs, false, failures) as u64,
        }),
        worker.after(WorkerEvent::Collected { now, result }).action_after(
            config,
            WorkerEvent::CleanedUp { ok: flag },
            failures,
        ) == (WorkerAction::Wait {
            seconds: collector::pause_of(
                config.api.poll_interval_secs,
                result is Ok,
                failures,
            ) as u64,
        }),
{
}

/// Only a cleanup that went well puts off the next one, to a day after the round that it
/// followed.
pub proof fn cleanups_are_noted(worker: Worker, result: Result<(), String>, now: i64, exit: bool)
    ensures
        worker.after(WorkerEvent::Collected { now, result }).after(
            WorkerEvent::CleanedUp { ok: true },
        ).last_cleanup_at == now,
        worker.after(WorkerEvent::Collected { now, result }).after(
            WorkerEvent::CleanedUp { ok: false },
        ).last_cleanup_at == worker.last_cleanup_at,
        worker.after(WorkerEvent::Collected { now, result }).last_cleanup_at
            == worker.last_cleanup_at,
        worker.after(WorkerEvent::Opened(result)) == worker,
        worker.after(WorkerEvent::Waited { exit }) == worker,
{
}

/// Requests wait for payment as long as the configuration grants, and the store keeps as
/// many days as it says.
pub proof fn cutoffs_lie_back(
    api: ApiConfig,
    config: AppConfig,
    now: i64,
    settlement: i64,
    retention: i64,
)
    requires
        call_ensures(collector::settlement_cutoff, (&api, now), settlement),
        call_ensures(collector::retention_cutoff, (&config, now), retention),
        i64::MIN <= now - api.settlement_grace_secs <= i64::MAX,
        i64::MIN <= now - config.storage.retention_days * 86_400,
    ensures
        now - settlement == api.settlement_grace_secs,
        now - retention == config.storage.retention_days * 24 * 60 * 60,
{
}

/// A cleanup is due exactly if the last one is at least a day back.
pub proof fn cleanups_are_daily(now: i64, last: i64, due: bool)
    requires
        call_ensures(collector::cleanup_due, (now, last), due),
        i64::MIN <= now - last <= i64::MAX,
    ensures
        due <==> now - last >= 24 * 60 * 60,
{
}

/// What a model failed with is told behind its name.
pub proof fn failures_are_told_by_model(model: &str, error: &str, told: String)
    requires
        call_ensures(collector::model_failure, (model, error), told),
    ensures
        told@.len() == model@.len() + 2 + error@.len(),
        told@.subrange(0, model@.len() as int) == model@,
        told@.subrange(model@.len() as int + 2, told@.len() as int) == error@,
{
    reveal_strlit(": ");
    assert(told@.subrange(0, model@.len() as int) =~= model@);
    assert(told@.subrange(model@.len() as int + 2, told@.len() as int) =~= error@);
}

/// What is said where a moment holds more lines than fit, and where there are more pages
/// than allowed, tells the number.
pub proof fn limits_are_told(capacity: i64, max_pages: u32)
    ensures
        collector::crowded_moment(capacity) == "单个时间戳内日志超过分页容量 "@ + decimal::decimal(
            capacity as int,
        ) + "，无法无损推进游标"@,
        collector::too_many_pages(max_pages) == "时间窗口日志超过 "@ + decimal::decimal(
            max_pages as int,
        ) + " 页，未推进游标以避免丢失"@,
{
}

/// All pages of a reading are read one by one from the first, as long as they are full
/// and do not hold all lines yet, and no further.
pub proof fn pages_are_read_in_order<G: Fn(u32) -> Result<PageData<RemoteLog>, String>>(
    fetch: G,
    pages: Seq<PageData<RemoteLog>>,
    page_size: u32,
    i: int,
)
    requires
        collector::are_all_pages(fetch, pages, page_size),
        0 <= i < pages.len() < u32::MAX,
    ensures
        call_ensures(fetch, ((i + 1) as u32,), Ok(pages[i])),
        i < pages.len() - 1 ==> pages[i].items@.len() >= page_size && (i + 1) * page_size
            < pages[i].total,
        i == pages.len() - 1 ==> pages[i].items@.len() < page_size || (i + 1) * page_size
            >= pages[i].total,
{
}

/// The same holds of the pages of a reading between two times.
pub proof fn pages_between_are_read_in_order<
    H: Fn(i64, i64, u32) -> Result<PageData<RemoteLog>, String>,
>(
    fetch: H,
    start: i64,
    end: i64,
    pages: Seq<PageData<RemoteLog>>,
    page_size: u32,
    i: int,
)
    requires
        collector::cover(fetch, start, end, pages, page_size),
        0 <= i < pages.len() < u32::MAX,
    ensures
        call_ensures(fetch, (start, end, (i + 1) as u32), Ok(pages[i])),
        i < pages.len() - 1 ==> pages[i].items@.len() >= page_size && (i + 1) * page_size
            < pages[i].total,
        i == pages.len() - 1 ==> pages[i].items@.len() < page_size || (i + 1) * page_size
            >= pages[i].total,
{
}

/// Fresh reports are of the moment and hold what is stored.
pub proof fn fresh_reports_are_of_the_moment(
    config: AppConfig,
    outcomes: &[OutcomeRow],
    database: DatabaseStats,
    now: i64,
    r: ReportCache,
    window: i64,
)
    requires
        call_ensures(collector::refresh_reports, (&config, outcomes, database, now), r),
    ensures
        r.generated_at == now,
        r.database == database,
        r.windows@.contains_key(window) <==> window == 900 || window == 3_600 || window == 86_400
            || window == 604_800,
        r.windows@.contains_key(window) ==> r.windows@[window].generated_at == now
            && r.windows@[window].window_seconds == window,
{
    let windows = crate::metrics::WINDOWS@;
    assert(windows.len() == 4);
    assert(windows[0] == 900 && windows[1] == 3_600 && windows[2] == 86_400 && windows[3]
        == 604_800);
}

// ---------------------------------------------------------------------------
// The operations themselves
// ---------------------------------------------------------------------------
/// A reading begins where the last one ended, less the overlap; the first one as far back
/// as configured; and always at least a second back.
pub proof fn collections_begin_at_the_cursor(
    api: ApiConfig,
    cursor: i64,
    now: i64,
    start: i64,
)
    requires
        call_ensures(collector::collection_start, (&api, cursor, now), start),
        i64::MIN <= now - 1,
        i64::MIN <= now - api.initial_backfill_hours * 3_600,
        i64::MIN <= cursor - api.overlap_secs <= i64::MAX,
    ensures
        start < now,
        cursor == 0 && api.initial_backfill_hours > 0 ==> now - start
            == api.initial_backfill_hours * 3_600,
        cursor != 0 && cursor - api.overlap_secs < now ==> cursor - start == api.overlap_secs,
        cursor != 0 && cursor - api.overlap_secs >= now ==> start == now - 1,
{
    readings_begin_at_the_cursor(api, cursor, now);
}

/// The worker waits as configured after a round that went well, and after failures twice
/// as long for each in a row but the first, up to sixteen times and five minutes.
pub proof fn waits_are_bounded(poll: u64, ok: bool, failures: u32, seconds: u64)
    requires
        call_ensures(collector::pause_seconds, (poll, ok, failures), seconds),
    ensures
        ok ==> seconds == poll,
        !ok ==> seconds <= 300,
        !ok && failures == 0 && poll <= 300 ==> seconds == poll,
        !ok && failures == 1 && 2 * poll <= 300 ==> seconds == 2 * poll,
        !ok && failures == 2 && 4 * poll <= 300 ==> seconds == 4 * poll,
        !ok && failures == 3 && 8 * poll <= 300 ==> seconds == 8 * poll,
        !ok && failures >= 4 && 16 * poll <= 300 ==> seconds == 16 * poll,
{
    pauses_double(poll, failures);
    pauses_double(poll, 0);
    pauses_double(poll, 1);
    pauses_double(poll, 2);
    pauses_double(poll, 3);
    pauses_double(poll, 4);
}

/// A round ends well as soon as one model was read; otherwise with all failures.
pub proof fn rounds_end_with_their_failures(
    completed: usize,
    failures: Vec<String>,
    r: Result<(), String>,
)
    requires
        call_ensures(collector::round_result, (completed, &failures), r),
    ensures
        r is Ok <==> completed > 0,
        completed == 0 && failures@.len() == 0 ==> r->Err_0@ == "没有可采集的白名单模型"@,
        completed == 0 && failures@.len() == 1 ==> r->Err_0@ == failures@[0]@,
        completed == 0 && failures@.len() == 2 ==> r->Err_0@ == failures@[0]@ + "; "@
            + failures@[1]@,
{
    let told = crate::text::texts(failures@);
    if failures@.len() == 1 {
        assert(told =~= seq![failures@[0]@]);
    }
    if failures@.len() == 2 {
        rounds_fail_with_all_models(seq![failures@[0]@], failures@[1]@, 0);
        rounds_fail_with_all_models(Seq::empty(), failures@[0]@, 0);
        assert(told =~= seq![failures@[0]@].push(failures@[1]@));
    }
}

/// The worker does what the last event calls for, and keeps account of how the rounds
/// went.
pub proof fn workers_answer_events(
    worker: &mut Worker,
    config: AppConfig,
    health: &mut CollectorHealth,
    now: i64,
    result: Result<(), String>,
    action: WorkerAction,
)
    requires
        call_ensures(
            Worker::next,
            (worker, &config, health, WorkerEvent::Collected { now, result }),
            action,
        ),
        i64::MIN <= now - old(worker).last_cleanup_at <= i64::MAX,
        i64::MIN <= now - config.storage.retention_days * 86_400,
    ensures
        now - old(worker).last_cleanup_at >= 86_400 <==> action is Cleanup,
        action is Cleanup || action is Wait,
        action matches WorkerAction::Cleanup { cutoff } ==> now - cutoff
            == config.storage.retention_days * 86_400,
        result is Ok ==> final(health).last_success_at == now && final(health).consecutive_failures
            == 0 && final(health).last_error@.len() == 0,
        result is Err ==> final(health).last_success_at == old(health).last_success_at && final(
            health).last_error == result->Err_0 && (old(health).consecutive_failures < u32::MAX
            ==> final(health).consecutive_failures == old(health).consecutive_failures + 1),
        result is Ok && action is Wait ==> action->seconds == config.api.poll_interval_secs,
        final(worker).last_cleanup_at == old(worker).last_cleanup_at,
{
    worker_takes_turns(
        *old(worker),
        config,
        result,
        now,
        final(health).consecutive_failures,
        true,
    );
}

/// What a round leaves of the collector's health: the time of a success, no error and no
/// failure in a row; or the error and one failure in a row more.
pub proof fn rounds_are_kept_account_of(
    health: &mut CollectorHealth,
    result: Result<(), String>,
    now: i64,
    ok: bool,
)
    requires
        call_ensures(collector::finish_round, (health, result, now), ok),
    ensures
        ok <==> result is Ok,
        ok ==> final(health).last_success_at == now && final(health).consecutive_failures == 0
            && final(health).last_error@.len() == 0,
        !ok ==> final(health).last_success_at == old(health).last_success_at && final(
            health).last_error == result->Err_0 && (old(health).consecutive_failures < u32::MAX
            ==> final(health).consecutive_failures == old(health).consecutive_failures + 1),
        final(health).started_at == old(health).started_at,
{
}

/// Sorted lines are as many as before, the older before the younger.
pub proof fn sorted_lines_are_by_age(
    lines: Vec<RemoteLog>,
    r: Vec<RemoteLog>,
    i: int,
    j: int,
)
    requires
        call_ensures(collector::sort_lines, (&lines,), r),
        0 <= i < j < r@.len(),
    ensures
        r@.len() == lines@.len(),
        r@[i].created_at <= r@[j].created_at,
        r@[i].created_at == r@[j].created_at ==> r@[i].id <= r@[j].id,
        lines@.contains(r@[i]),
{
    let places = choose|places: Seq<int>|
        #[trigger] collector::is_by_age(lines@, places) && r@ == collector::lines_at(lines@, places);
    assert(collector::is_older(lines@, places[i], places[j]));
    assert(lines@[places[i]] == r@[i]);
}

/// Samples are made of the lines of the model that are paid lines or errors, in their
/// order, and of no others.
pub proof fn samples_are_made_of_the_models_lines(
    lines: Vec<RemoteLog>,
    model: &str,
    samples: Vec<LogSample>,
    i: int,
)
    requires
        call_ensures(collector::make_samples, (lines, model), samples),
        0 <= i < samples@.len(),
    ensures
        samples@[i].model_name@ == model@,
        samples@.len() == collector::kept_lines(lines@, model@).len(),
        samples@[i].created_at == collector::kept_lines(lines@, model@)[i].created_at,
        exists|k: int|
            0 <= k < lines@.len() && (#[trigger] lines@[k]).id == samples@[i].source_log_id,
{
    let kept = collector::kept_lines(lines@, model@);
    assert(samples@[i].is_of(kept[i], crate::domain::values_of(kept[i].other@)));
    kept_are_lines(lines@, model@, i);
    let k = choose|k: int| 0 <= k < lines@.len() && lines@[k] == kept[i];
    assert(lines@[k].id == samples@[i].source_log_id);
}

/// What a reading of a model brings ends after it began and not after now, and is of that
/// model alone, the older before the younger.
pub proof fn readings_bring_the_models_samples<
    H: Copy + Fn(i64, i64, u32) -> Result<PageData<RemoteLog>, String>,
>(
    api: ApiConfig,
    model: &str,
    cursor: i64,
    now: i64,
    fetch: H,
    batch: Batch,
    i: int,
    j: int,
)
    requires
        call_ensures(collector::collect_model::<H>, (&api, model, cursor, now, fetch), Ok(batch)),
        0 <= i < j < batch.samples@.len(),
    ensures
        collector::start_of(api, cursor, now) < batch.end <= now,
        batch.samples@[i].model_name@ == model@,
        batch.samples@[i].created_at <= batch.samples@[j].created_at,
{
    let start = collector::start_of(api, cursor, now) as i64;
    let pages = choose|pages: Seq<PageData<RemoteLog>>|
        #[trigger] collector::cover(fetch, start, batch.end, pages, api.page_size) && pages.len()
            <= api.max_pages_per_model && batch.brings(pages, model@);
    batches_are_of_the_model_by_age(batch, pages, model@, i, j);
}

/// A tally of a round counts the models that were read and tells the others' failures in
/// their order.
pub proof fn tallies_count_models(
    good: &mut RoundTally,
    bad: &mut RoundTally,
    model: &str,
    error: &str,
)
    requires
        call_ensures(RoundTally::note_success, (good,), ()),
        call_ensures(RoundTally::note_failure, (bad, model, error), ()),
    ensures
        final(good).completed == old(good).completed + 1,
        final(good).failures == old(good).failures,
        final(bad).completed == old(bad).completed,
        final(bad).failures@.len() == old(bad).failures@.len() + 1,
        final(bad).failures@.last()@ == model@ + ": "@ + error@,
{
    let before = crate::text::texts(old(bad).failures@);
    let after = crate::text::texts(final(bad).failures@);
    assert(after.len() == before.len() + 1);
    assert(after[after.len() - 1] == model@ + ": "@ + error@);
}

/// Where the log always answers, a window whose lines fit is read to its end, and one in
/// which not even the first second fits is refused with the number that does.
pub proof fn windows_that_fit_are_read_whole<F: Fn(i64) -> Result<i64, String>>(
    start: i64,
    requested_end: i64,
    capacity: i64,
    count: F,
    lines: spec_fn(i64) -> i64,
    r: Result<i64, String>,
)
    requires
        call_ensures(collector::select_batch_end::<F>, (start, requested_end, capacity, count), r),
        capacity > 0,
        requested_end > start,
        forall|e: i64, a: Result<i64, String>| #[trigger]
            call_ensures(count, (e,), a) ==> a == Ok::<i64, String>(lines(e)),
        forall|a: i64, b: i64| a <= b ==> #[trigger] lines(a) <= #[trigger] lines(b),
    ensures
        lines(requested_end) <= capacity ==> r == Ok::<i64, String>(requested_end),
        lines((start + 1) as i64) > capacity ==> r is Err && r->Err_0@
            == "单个时间戳内日志超过分页容量 "@ + decimal::decimal(capacity as int)
            + "，无法无损推进游标"@,
        lines((start + 1) as i64) <= capacity ==> r is Ok,
{
    let second = (start + 1) as i64;
    if r is Ok {
        let end = r->Ok_0;
        let n = choose|n: i64| n <= capacity && #[trigger] call_ensures(count, (end,), Ok(n));
        assert(lines(end) == n);
        assert(lines(second) <= lines(end));
        if end < requested_end {
            let m = choose|n: i64|
                n > capacity && #[trigger] call_ensures(count, (requested_end,), Ok(n));
            assert(lines(requested_end) == m);
        }
    } else {
        let error = r->Err_0;
        if collector::may_fail(count, start, requested_end, capacity, error) {
            let end = choose|end: i64|
                start < end <= requested_end && #[trigger] call_ensures(count, (end,), Err(error))
                    && (end == requested_end || collector::may_exceed(
                    count,
                    requested_end,
                    capacity,
                ));
            assert(Err::<i64, String>(error) == Ok::<i64, String>(lines(end)));
        } else {
            let m = choose|n: i64| n > capacity && #[trigger] call_ensures(count, (second,), Ok(n));
            assert(lines(second) == m);
            let k = choose|n: i64|
                n > capacity && #[trigger] call_ensures(count, (requested_end,), Ok(n));
            assert(lines(requested_end) == k);
        }
    }
}

/// A log that cannot be asked for the end of a window gives its own error.
pub proof fn failing_logs_are_told<F: Fn(i64) -> Result<i64, String>>(
    start: i64,
    requested_end: i64,
    capacity: i64,
    count: F,
    error: String,
    r: Result<i64, String>,
)
    requires
        call_ensures(collector::select_batch_end::<F>, (start, requested_end, capacity, count), r),
        capacity > 0,
        requested_end > start,
        forall|a: Result<i64, String>| #[trigger]
            call_ensures(count, (requested_end,), a) ==> a == Err::<i64, String>(error),
    ensures
        r == Err::<i64, String>(error),
{
    if r is Ok {
        let end = r->Ok_0;
        let n = choose|n: i64| n <= capacity && #[trigger] call_ensures(count, (end,), Ok(n));
        if end < requested_end {
            let m = choose|n: i64|
                n > capacity && #[trigger] call_ensures(count, (requested_end,), Ok(n));
            assert(Ok::<i64, String>(m) == Err::<i64, String>(error));
        } else {
            assert(Ok::<i64, String>(n) == Err::<i64, String>(error));
        }
    } else {
        if collector::may_exceed(count, requested_end, capacity) {
            let m = choose|n: i64|
                n > capacity && #[trigger] call_ensures(count, (requested_end,), Ok(n));
            assert(Ok::<i64, String>(m) == Err::<i64, String>(error));
        }
        let told = r->Err_0;
        let end = choose|end: i64|
            start < end <= requested_end && #[trigger] call_ensures(count, (end,), Err(told)) && (
            end == requested_end || collector::may_exceed(count, requested_end, capacity));
        assert(Err::<i64, String>(told) == Err::<i64, String>(error));
    }
}

/// Reading pages fails with the error of the first page where that cannot be read, and
/// with the number of allowed pages where all of them can and none is the last.
pub proof fn failed_readings_are_told<G: Fn(u32) -> Result<PageData<RemoteLog>, String>>(
    page_size: u32,
    max_pages: u32,
    fetch: G,
    answer: spec_fn(u32) -> Result<PageData<RemoteLog>, String>,
    r: Result<Vec<RemoteLog>, String>,
)
    requires
        call_ensures(collector::read_pages::<G>, (page_size, max_pages, fetch), r),
        max_pages >= 1,
        forall|number: u32, a: Result<PageData<RemoteLog>, String>| #[trigger]
            call_ensures(fetch, (number,), a) ==> a == answer(number),
    ensures
        answer(1) is Err ==> r is Err && r->Err_0 == answer(1)->Err_0,
        (forall|number: u32| 1 <= number <= max_pages ==> (#[trigger] answer(number)) is Ok) && r
            is Err ==> r->Err_0@ == "时间窗口日志超过 "@ + decimal::decimal(max_pages as int)
            + " 页，未推进游标以避免丢失"@,
        answer(1) is Ok && answer(1)->Ok_0.items@.len() < page_size ==> r is Ok && r->Ok_0@
            == answer(1)->Ok_0.items@,
{
    if r is Ok {
        let pages = choose|pages: Seq<PageData<RemoteLog>>|
            #[trigger] collector::are_all_pages(fetch, pages, page_size) && pages.len()
                <= max_pages && r->Ok_0@ == collector::lines_of(pages);
        assert(call_ensures(fetch, ((0 + 1) as u32,), Ok(pages[0])));
        assert(answer(1) == Ok::<PageData<RemoteLog>, String>(pages[0]));
        if answer(1)->Ok_0.items@.len() < page_size {
            assert(collector::is_last(pages[0], 1, page_size));
            assert(pages.len() == 1);
            assert(pages =~= Seq::<PageData<RemoteLog>>::empty().push(pages[0]));
            pages_follow_each_other(Seq::empty(), pages[0]);
            assert(r->Ok_0@ =~= pages[0].items@);
        }
    } else {
        let error = r->Err_0;
        if exists|pages: Seq<PageData<RemoteLog>>|
            #[trigger] collector::break_off(fetch, pages, page_size, max_pages, error) {
            let pages = choose|pages: Seq<PageData<RemoteLog>>|
                #[trigger] collector::break_off(fetch, pages, page_size, max_pages, error);
            let next = (pages.len() + 1) as u32;
            assert(answer(next) == Err::<PageData<RemoteLog>, String>(error));
            if pages.len() > 0 {
                assert(call_ensures(fetch, ((0 + 1) as u32,), Ok(pages[0])));
                assert(answer(1) == Ok::<PageData<RemoteLog>, String>(pages[0]));
                if pages.len() == 1 {
                    assert(pages.last() == pages[0]);
                }
            }
        } else {
            let pages = choose|pages: Seq<PageData<RemoteLog>>|
                #[trigger] collector::are_too_many(fetch, pages, page_size, max_pages);
            assert(call_ensures(fetch, ((0 + 1) as u32,), Ok(pages[0])));
            assert(answer(1) == Ok::<PageData<RemoteLog>, String>(pages[0]));
            if pages.len() == 1 {
                assert(pages.last() == pages[0]);
            }
        }
    }
}

/// After any other event the worker goes on or ends as it says, and its health changes
/// only where the store could not be opened.
pub proof fn workers_answer_other_events(
    worker: &mut Worker,
    config: AppConfig,
    health: &mut CollectorHealth,
    event: WorkerEvent,
    action: WorkerAction,
)
    requires
        call_ensures(Worker::next, (worker, &config, health, event), action),
        !(event is Collected),
    ensures
        event matches WorkerEvent::Waited { exit } ==> action == (if exit {
            WorkerAction::Exit
        } else {
            WorkerAction::Collect
        }) && *final(health) == *old(health),
        event matches WorkerEvent::Opened(result) ==> action == (if result is Ok {
            WorkerAction::Collect
        } else {
            WorkerAction::Exit
        }) && (result is Err ==> final(health).last_error == result->Err_0),
        event matches WorkerEvent::CleanedUp { ok } ==> action is Wait && *final(health) == *old(
            health) && (ok ==> final(worker).last_cleanup_at == old(worker).round_at) && (!ok
            ==> final(worker).last_cleanup_at == old(worker).last_cleanup_at),
        event matches WorkerEvent::CleanedUp { ok } ==> old(worker).round_ok ==> action->seconds
            == config.api.poll_interval_secs,
{
}

/// Where the log always answers with the number of lines between two times, a reading of
/// a model goes as far as its lines fit and no further.
pub proof fn readings_go_as_far_as_they_fit<
    H: Copy + Fn(i64, i64, u32) -> Result<PageData<RemoteLog>, String>,
>(
    api: ApiConfig,
    model: &str,
    cursor: i64,
    now: i64,
    fetch: H,
    lines: spec_fn(i64) -> i64,
    batch: Batch,
    other: i64,
)
    requires
        call_ensures(collector::collect_model::<H>, (&api, model, cursor, now, fetch), Ok(batch)),
        forall|end: i64, page: PageData<RemoteLog>| #[trigger]
            call_ensures(
                fetch,
                (collector::start_of(api, cursor, now) as i64, end, 1u32),
                Ok(page),
            ) ==> page.total == lines(end),
        forall|a: i64, b: i64| a <= b ==> #[trigger] lines(a) <= #[trigger] lines(b),
        collector::start_of(api, cursor, now) < other <= now,
        api.max_pages_per_model * api.page_size <= i64::MAX,
    ensures
        lines(other) <= api.max_pages_per_model * api.page_size <==> other <= batch.end,
{
    readings_have_a_capacity(api);
    let start = collector::start_of(api, cursor, now) as i64;
    let capacity = collector::capacity_of(api);
    let page = choose|page: PageData<RemoteLog>|
        page.total <= capacity && #[trigger] call_ensures(
            fetch,
            (start, batch.end, 1u32),
            Ok(page),
        );
    assert(lines(batch.end) == page.total);
    if batch.end < now {
        let next = (batch.end + 1) as i64;
        let more = choose|page: PageData<RemoteLog>|
            page.total > capacity && #[trigger] call_ensures(fetch, (start, next, 1u32), Ok(page));
        assert(lines(next) == more.total);
    }
}

} // verus!
