//! What the gateway is asked, what its answers mean, and how long they last.
use vstd::prelude::*;
use vstd::string::*;

use crate::api;
use crate::api::{
    ApiEnvelope,
    ApiError,
    Failure,
    HttpRequest,
    HttpStatus,
    NewApiClient,
    PerfMetricData,
    Reply,
    TransportFailure,
};
use crate::config::{ApiConfig, PerfMetricsConfig};
use crate::decimal;
use crate::sampling;
use crate::state;
use crate::state::{CollectorHealth, PerfCache, PerfCacheEntry, Slot, WorkerControl};
use crate::text;
use crate::wording;

verus! {

// ---------------------------------------------------------------------------
// Answers
// ---------------------------------------------------------------------------
/// An answer brings its data exactly if it says success and holds some. Without data it
/// is a breach of protocol; without success it is a refusal for want of rights where its
/// message speaks of them, and otherwise an error with that message.
pub proof fn envelopes_are_opened<T>(envelope: ApiEnvelope<T>)
    ensures
        api::envelope_failure(envelope) is None <==> envelope.success && envelope.data is Some,
        envelope.success && envelope.data is None ==> api::envelope_failure(envelope) == Some(
            Failure::MissingData,
        ),
        !envelope.success && envelope.message is None ==> api::envelope_failure(envelope) == Some(
            Failure::Business("未知错误"@),
        ),
        !envelope.success && envelope.message is Some ==> {
            let message = envelope.message->0@;
            let rights = text::has_part(message, "未登录"@) || text::has_part(message, "无权限"@)
                || text::has_part(text::lowered(message), "unauthorized"@) || text::has_part(
                text::lowered(message),
                "access token"@,
            );
            &&& rights ==> api::envelope_failure(envelope) == Some(Failure::Authentication)
            &&& !rights ==> api::envelope_failure(envelope) == Some(Failure::Business(message))
        },
{
    reveal_strlit("未知错误");
    reveal_strlit("unauthorized");
    reveal_strlit("access token");
    reveal_strlit("未登录");
    reveal_strlit("无权限");
    let unknown = "未知错误"@;
    assert(text::lowered(unknown).len() == 4);
    if text::has_part(unknown, "未登录"@) {
        let at = choose|at: int| text::stands_at(unknown, "未登录"@, at);
        assert(unknown.subrange(at, at + 3)[1] == '登');
    }
    if text::has_part(unknown, "无权限"@) {
        let at = choose|at: int| text::stands_at(unknown, "无权限"@, at);
        assert(unknown.subrange(at, at + 3)[0] == '无');
    }
}

/// What a status that is no success means: 401 and 403 a want of rights, 429 too many
/// requests, 500 to 599 a fault of the server, and any other a fault of its own.
pub proof fn statuses_have_meanings(status: HttpStatus, retry_after: Option<String>)
    ensures
        api::status_failure(status, retry_after) is Authentication <==> status.code == 401
            || status.code == 403,
        api::status_failure(status, retry_after) is RateLimited <==> status.code == 429,
        500 <= status.code <= 599 <==> api::status_failure(status, retry_after) == Failure::Server(
            status.code,
            status.text@,
        ),
        status.code != 401 && status.code != 403 && status.code != 429 && !(500 <= status.code
            <= 599) <==> api::status_failure(status, retry_after) == Failure::Http(
            status.code,
            status.text@,
        ),
{
}

/// Too many requests come with the seconds to wait where the answer tells a number of
/// them in digits.
pub proof fn waits_are_told_in_seconds(
    status: HttpStatus,
    header: String,
    n: u64,
)
    requires
        status.code == 429,
    ensures
        api::status_failure(status, None) == Failure::RateLimited(None),
        header@ == decimal::decimal(n as int) ==> api::status_failure(status, Some(header))
            == Failure::RateLimited(Some(n)),
        header@.len() == 0 ==> api::status_failure(status, Some(header)) == Failure::RateLimited(
            None,
        ),
        (exists|i: int|
            0 <= i < header@.len() && !('0' <= #[trigger] header@[i] <= '9') && !(i == 0
                && header@[i] == '+')) ==> api::status_failure(status, Some(header))
            == Failure::RateLimited(None),
{
    decimal::written_numbers_are_read_back(n as int, u64::MAX as int, header@);
}

/// A reply is a failure where it is lost, where its status is not between 200 and 299,
/// where its body cannot be read and where the answer in it is one; otherwise it brings
/// the data of the answer.
pub proof fn replies_are_read<T>(
    failure: TransportFailure,
    status: HttpStatus,
    retry_after: Option<String>,
    body: Result<ApiEnvelope<T>, TransportFailure>,
)
    ensures
        failure.timed_out ==> api::reply_failure(Reply::<T>::Lost(failure)) == Some(
            Failure::Timeout,
        ),
        !failure.timed_out ==> api::reply_failure(Reply::<T>::Lost(failure)) == Some(
            Failure::Transport(failure.message@),
        ),
        status.code < 200 || status.code > 299 ==> api::reply_failure(
            Reply::Arrived { status, retry_after, body },
        ) == Some(api::status_failure(status, retry_after)),
        200 <= status.code <= 299 && body is Ok ==> api::reply_failure(
            Reply::Arrived { status, retry_after, body },
        ) == api::envelope_failure(body->Ok_0),
        200 <= status.code <= 299 && body is Err ==> api::reply_failure(
            Reply::Arrived { status, retry_after, body },
        ) == (if body->Err_0.timed_out {
            Some(Failure::Timeout)
        } else {
            Some(Failure::Transport(body->Err_0.message@))
        }),
        body is Ok ==> api::reply_data(Reply::Arrived { status, retry_after, body })
            == body->Ok_0.data,
{
}

/// What is said of an error begins with its class in square brackets and ends with what
/// is known of it.
pub proof fn errors_are_worded(error: ApiError)
    ensures
        error matches ApiError::MissingToken(name) ==> error.words()
            == "[configuration] 缺少环境变量 "@ + name@,
        error is Timeout ==> error.words() == "[timeout] HTTP 请求超时"@,
        error matches ApiError::Transport(message) ==> error.words()
            == "[transport] HTTP 请求失败: "@ + message@,
        error is Authentication ==> error.words() == "[authentication] New API 管理鉴权失败"@,
        error is RateLimited ==> error.words() == "[rate_limit] New API 触发限流"@,
        error matches ApiError::Server(status) ==> error.words() == "[server] New API 返回 HTTP "@
            + status.text@,
        error matches ApiError::Http(status) ==> error.words() == "[http] New API 返回 HTTP "@
            + status.text@,
        error matches ApiError::Business(message) ==> error.words()
            == "[business] New API 业务错误: "@ + message@,
        error is MissingData ==> error.words() == "[protocol] New API 响应缺少 data"@,
{
}

// ---------------------------------------------------------------------------
// Questions
// ---------------------------------------------------------------------------
/// A client takes the address without slashes at its end, the administrator and the time
/// limit from the configuration, and needs a token that says something.
pub proof fn clients_need_a_token(
    config: ApiConfig,
    variable: Option<String>,
    r: Result<NewApiClient, ApiError>,
)
    requires
        call_ensures(NewApiClient::new, (&config, variable), r),
    ensures
        r is Ok <==> variable is Some && sampling::says_something(variable->0@),
        r matches Ok(client) ==> {
            &&& client.access_token@ == variable->0@
            &&& client.admin_user_id == config.admin_user_id
            &&& client.request_timeout_secs == config.request_timeout_secs
            &&& wording::begins(config.base_url@, client.base_url@)
            &&& forall|i: int|
                client.base_url@.len() <= i < config.base_url@.len()
                    ==> #[trigger] config.base_url@[i] == '/'
            &&& client.base_url@.len() > 0 ==> client.base_url@.last() != '/'
        },
        r matches Err(error) ==> (error matches ApiError::MissingToken(name) && name@
            == config.access_token_env@),
{
    trailing_is_cut(config.base_url@, '/');
}

proof fn trailing_is_cut(s: Seq<char>, c: char)
    ensures
        wording::begins(s, text::without_trailing(s, c)),
        forall|i: int|
            text::without_trailing(s, c).len() <= i < s.len() ==> #[trigger] s[i] == c,
        text::without_trailing(s, c).len() > 0 ==> text::without_trailing(s, c).last() != c,
    decreases s.len(),
{
    let cut = text::without_trailing(s, c);
    if s.len() > 0 && s.last() == c {
        let rest = s.drop_last();
        trailing_is_cut(rest, c);
        assert(s.subrange(0, cut.len() as int) =~= rest.subrange(0, cut.len() as int));
        assert forall|i: int| cut.len() <= i < s.len() implies #[trigger] s[i] == c by {
            if i < rest.len() {
                assert(rest[i] == c);
            }
        }
    } else {
        assert(s.subrange(0, s.len() as int) =~= s);
    }
}

/// The logs are asked for with the raw token and the administrator in the headers, and
/// the page, its size, the two ends of the time and the model in the question.
pub proof fn logs_are_asked_for(
    client: NewApiClient,
    model: &str,
    start: i64,
    end: i64,
    page: u32,
    page_size: u32,
    r: HttpRequest,
)
    requires
        call_ensures(NewApiClient::logs_request, (&client, model, start, end, page, page_size), r),
    ensures
        r.url@ == client.base_url@ + "/api/log/"@,
        r.headers@.len() == 2,
        r.headers@[0].0@ == "Authorization"@ && r.headers@[0].1@ == client.access_token@,
        r.headers@[1].0@ == "New-Api-User"@ && r.headers@[1].1@ == decimal::decimal(
            client.admin_user_id as int,
        ),
        r.query@.len() == 5,
        r.query@[0].0@ == "p"@ && r.query@[0].1@ == decimal::decimal(page as int),
        r.query@[1].0@ == "page_size"@ && r.query@[1].1@ == decimal::decimal(page_size as int),
        r.query@[2].0@ == "start_timestamp"@ && r.query@[2].1@ == decimal::decimal(start as int),
        r.query@[3].0@ == "end_timestamp"@ && r.query@[3].1@ == decimal::decimal(end as int),
        r.query@[4].0@ == "model_name"@ && r.query@[4].1@ == model@,
        r.timeout_secs == client.request_timeout_secs,
        r.connect_timeout_secs <= 5 && r.connect_timeout_secs <= r.timeout_secs,
        r.connect_timeout_secs == 5 || r.connect_timeout_secs == r.timeout_secs,
{
    let headers = api::pairs(r.headers@);
    let query = api::pairs(r.query@);
    assert(headers.len() == 2 && query.len() == 5);
    assert(headers[0] == ("Authorization"@, client.access_token@));
    assert(headers[1] == ("New-Api-User"@, decimal::decimal(client.admin_user_id as int)));
    assert(query[0] == ("p"@, decimal::decimal(page as int)));
    assert(query[1] == ("page_size"@, decimal::decimal(page_size as int)));
    assert(query[2] == ("start_timestamp"@, decimal::decimal(start as int)));
    assert(query[3] == ("end_timestamp"@, decimal::decimal(end as int)));
    assert(query[4] == ("model_name"@, model@));
}

/// Public metrics are asked for without a token, by model and hours, at the address
/// without slashes at its end.
pub proof fn public_metrics_are_asked_for(
    base_url: &str,
    config: PerfMetricsConfig,
    model: &str,
    hours: u32,
    r: HttpRequest,
    address: Seq<char>,
)
    requires
        call_ensures(api::perf_metrics_request, (base_url, &config, model, hours), r),
        address.len() > 0,
        address.last() != '/',
        base_url@ == address || base_url@ == address.push('/'),
    ensures
        r.url@ == address + "/api/perf-metrics"@,
        r.headers@.len() == 0,
        r.query@.len() == 2,
        r.query@[0].0@ == "model"@ && r.query@[0].1@ == model@,
        r.query@[1].0@ == "hours"@ && r.query@[1].1@ == decimal::decimal(hours as int),
        r.timeout_secs == config.request_timeout_secs,
        r.connect_timeout_secs <= 2 && r.connect_timeout_secs <= r.timeout_secs,
        r.connect_timeout_secs == 2 || r.connect_timeout_secs == r.timeout_secs,
{
    let query = api::pairs(r.query@);
    assert(query.len() == 2);
    assert(query[0] == ("model"@, model@));
    assert(query[1] == ("hours"@, decimal::decimal(hours as int)));
    assert(address.push('/').drop_last() =~= address);
    assert(text::without_trailing(address, '/') == address);
}

// ---------------------------------------------------------------------------
// How long
// ---------------------------------------------------------------------------
/// What was fetched is fresh exactly as long as it is no older than allowed.
pub proof fn metrics_stay_fresh(entry: PerfCacheEntry, now: i64, ttl: i64)
    requires
        i64::MIN <= now - entry.fetched_at <= i64::MAX,
    ensures
        state::is_fresh(entry, now, ttl) <==> now <= entry.fetched_at + ttl,
{
}

/// A cache holds under a model and its hours what was put there, as long as no two
/// entries go by the same two.
pub proof fn caches_hold_their_entries(
    entries: Seq<(String, u32, PerfCacheEntry)>,
    i: int,
)
    requires
        0 <= i < entries.len(),
        forall|a: int, b: int|
            0 <= a < b < entries.len() ==> (#[trigger] entries[a]).0@ != (#[trigger] entries[b]).0@
                || entries[a].1 != entries[b].1,
    ensures
        state::contents(entries).contains_key((entries[i].0@, entries[i].1)),
        state::contents(entries)[(entries[i].0@, entries[i].1)] == entries[i].2,
    decreases entries.len(),
{
    if i < entries.len() - 1 {
        let rest = entries.drop_last();
        assert forall|a: int, b: int| 0 <= a < b < rest.len() implies (#[trigger] rest[a]).0@ != (
        #[trigger] rest[b]).0@ || rest[a].1 != rest[b].1 by {
            assert(entries[a].0@ != entries[b].0@ || entries[a].1 != entries[b].1);
        }
        caches_hold_their_entries(rest, i);
        let last = entries.len() - 1;
        assert(entries[i].0@ != entries[last].0@ || entries[i].1 != entries[last].1);
    }
}

/// The clock tells the seconds since the epoch, and 0 where it stands before it.
pub proof fn clocks_tell_seconds(seconds: u64)
    requires
        seconds <= i64::MAX,
    ensures
        state::time_of(Some(seconds)) == seconds,
        state::time_of(None) == 0,
{
}

// ---------------------------------------------------------------------------
// The operations themselves
// ---------------------------------------------------------------------------
/// An answer is unpacked into its data, or into why there is none.
pub proof fn answers_are_unpacked<T>(envelope: ApiEnvelope<T>, r: Result<T, ApiError>)
    requires
        call_ensures(api::unpack::<T>, (envelope,), r),
    ensures
        r is Ok <==> envelope.success && envelope.data is Some,
        r is Ok ==> envelope.data == Some(r->Ok_0),
        envelope.success && envelope.data is None ==> r->Err_0 is MissingData,
        !envelope.success ==> r->Err_0 is Authentication || r->Err_0 is Business,
        !envelope.success && r->Err_0 is Business && envelope.message is Some ==> (
        r->Err_0 matches ApiError::Business(m) && m@ == envelope.message->0@),
{
    envelopes_are_opened(envelope);
}

/// A status that is no success becomes the error that it stands for.
pub proof fn statuses_become_errors(
    status: HttpStatus,
    retry_after: Option<String>,
    r: ApiError,
)
    requires
        call_ensures(api::classify_http, (status, retry_after), r),
    ensures
        r is Authentication <==> status.code == 401 || status.code == 403,
        r is RateLimited <==> status.code == 429,
        r is Server <==> 500 <= status.code <= 599,
        r is Http <==> status.code != 401 && status.code != 403 && status.code != 429 && !(500
            <= status.code <= 599),
        r matches ApiError::Server(s) ==> s.code == status.code && s.text@ == status.text@,
        r matches ApiError::Http(s) ==> s.code == status.code && s.text@ == status.text@,
{
    statuses_have_meanings(status, retry_after);
}

/// A reply brings its data exactly if it arrived with a success and an answer that holds
/// some.
pub proof fn replies_bring_data<T>(reply: Reply<T>, r: Result<T, ApiError>)
    requires
        call_ensures(api::receive::<T>, (reply,), r),
    ensures
        r is Ok <==> (reply matches Reply::Arrived { status, retry_after, body } && 200
            <= status.code <= 299 && body is Ok && body->Ok_0.success && body->Ok_0.data is Some),
        r is Ok ==> (reply matches Reply::Arrived { status, retry_after, body }
            && body->Ok_0.data == Some(r->Ok_0)),
        reply matches Reply::Lost(failure) ==> (failure.timed_out <==> r->Err_0 is Timeout),
{
    if let Reply::Arrived { status, retry_after, body } = reply {
        if body is Ok {
            envelopes_are_opened(body->Ok_0);
        }
    }
}

/// What was stored for a model and its hours is found again as long as it is fresh, and
/// nothing else is.
pub proof fn stored_metrics_are_found(
    cache: PerfCache,
    model: &str,
    hours: u32,
    now: i64,
    ttl: i64,
    r: Option<&PerfMetricData>,
)
    requires
        call_ensures(PerfCache::fresh, (&cache, model, hours, now, ttl), r),
        forall|key: (Seq<char>, u32)| #[trigger]
            cache.view().contains_key(key) ==> i64::MIN <= now - cache.view()[key].fetched_at
                <= i64::MAX,
    ensures
        r is Some <==> cache.view().contains_key((model@, hours)) && now - cache.view()[(
            model@,
            hours,
        )].fetched_at <= ttl,
        r is Some ==> *r->0 == cache.view()[(model@, hours)].data,
{
}

/// Storing metrics replaces those of the same model and hours and leaves all others.
pub proof fn metrics_are_stored(
    cache: &mut PerfCache,
    model: &str,
    hours: u32,
    now: i64,
    data: PerfMetricData,
    key: (Seq<char>, u32),
)
    requires
        call_ensures(PerfCache::store, (cache, model, hours, now, data), ()),
    ensures
        final(cache).view().contains_key((model@, hours)),
        final(cache).view()[(model@, hours)].data == data,
        final(cache).view()[(model@, hours)].fetched_at == now,
        key != (model@, hours) ==> (final(cache).view().contains_key(key) <==> old(
            cache).view().contains_key(key)) && final(cache).view()[key] == old(cache).view()[key],
{
}

/// A worker that is asked to stop stops, also where a refresh was asked for; one that is
/// asked for a refresh goes on at once, and once.
pub proof fn workers_are_woken(control: &mut WorkerControl, exit: bool)
    requires
        call_ensures(WorkerControl::wait, (control,), exit),
    ensures
        exit <==> old(control).stop,
        exit ==> final(control).stop,
        !exit ==> !final(control).wake && !final(control).stop,
{
}

/// A worker waits exactly as long as neither was asked for.
pub proof fn workers_wait(
    control: WorkerControl,
    waits: bool,
    refreshed: &mut WorkerControl,
    stopped: &mut WorkerControl,
)
    requires
        call_ensures(WorkerControl::must_wait, (&control,), waits),
        call_ensures(WorkerControl::request_refresh, (refreshed,), ()),
        call_ensures(WorkerControl::request_stop, (stopped,), ()),
    ensures
        waits <==> !control.stop && !control.wake,
        final(refreshed).wake,
        final(refreshed).stop == old(refreshed).stop,
        final(stopped).stop,
        final(stopped).wake == old(stopped).wake,
{
}

/// A place takes one value: a second one is refused and leaves the first; what is taken
/// out is gone.
pub proof fn places_take_one_value<T>(
    place: &mut Slot<T>,
    value: T,
    r: Result<(), String>,
    emptied: &mut Slot<T>,
    taken: Option<T>,
)
    requires
        call_ensures(Slot::<T>::install, (place, value), r),
        call_ensures(Slot::<T>::take, (emptied,), taken),
    ensures
        old(place).value is None ==> r is Ok && final(place).value == Some(value),
        old(place).value is Some ==> r is Err && r->Err_0@ == "插件已经初始化"@ && final(
            place).value == old(place).value,
        taken == old(emptied).value,
        final(emptied).value is None,
{
}

/// A success and a failure of the collector are kept account of.
pub proof fn health_is_kept_account_of(
    good: &mut CollectorHealth,
    bad: &mut CollectorHealth,
    tried: &mut CollectorHealth,
    now: i64,
    error: String,
)
    requires
        call_ensures(CollectorHealth::update_success, (good, now), ()),
        call_ensures(CollectorHealth::update_failure, (bad, error), ()),
        call_ensures(CollectorHealth::attempt, (tried, now), ()),
    ensures
        final(good).last_success_at == now,
        final(good).consecutive_failures == 0,
        final(good).last_error@.len() == 0,
        final(good).started_at == old(good).started_at,
        final(bad).last_success_at == old(bad).last_success_at,
        old(bad).consecutive_failures < u32::MAX ==> final(bad).consecutive_failures == old(
            bad).consecutive_failures + 1,
        final(bad).last_error@ == error@,
        final(tried).last_attempt_at == now,
        final(tried).last_success_at == old(tried).last_success_at,
        final(tried).consecutive_failures == old(tried).consecutive_failures,
{
}

} // verus!
