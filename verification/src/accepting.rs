//! Which configurations are accepted, and what is said of the others.
use vstd::prelude::*;
use vstd::string::*;

use crate::config;
use crate::config::{
    ApiConfig,
    AppConfig,
    BotConfig,
    ModelConfig,
    PathReading,
    PerfMetricsConfig,
    PushConfig,
    PushTarget,
    StatusConfig,
    StorageConfig,
};
use crate::double::Double;
use crate::sampling;
use crate::text;
use crate::wording;

verus! {

// ---------------------------------------------------------------------------
// Windows
// ---------------------------------------------------------------------------
/// Seven windows have a name, in whatever letters and with whatever white space around
/// it: of one, five, ten and fifteen minutes, of an hour, of a day and of a week.
pub proof fn seven_windows_have_a_name(value: Seq<char>)
    ensures
        ({
            let name = text::trimmed(value);
            &&& config::named_window(value) == Some(60i64) <==> wording::same_but_for_case(
                name,
                "1m"@,
            )
            &&& config::named_window(value) == Some(300i64) <==> wording::same_but_for_case(
                name,
                "5m"@,
            )
            &&& config::named_window(value) == Some(600i64) <==> wording::same_but_for_case(
                name,
                "10m"@,
            )
            &&& config::named_window(value) == Some(900i64) <==> wording::same_but_for_case(
                name,
                "15m"@,
            )
            &&& config::named_window(value) == Some(3600i64) <==> wording::same_but_for_case(
                name,
                "1h"@,
            )
            &&& config::named_window(value) == Some(86_400i64) <==> wording::same_but_for_case(
                name,
                "24h"@,
            )
            &&& config::named_window(value) == Some(604_800i64) <==> wording::same_but_for_case(
                name,
                "7d"@,
            )
            &&& config::named_window(value) matches Some(w) ==> w == 60 || w == 300 || w == 600 || w
                == 900 || w == 3600 || w == 86_400 || w == 604_800
        }),
{
    let name = text::trimmed(value);
    reveal_strlit("1m");
    reveal_strlit("5m");
    reveal_strlit("10m");
    reveal_strlit("15m");
    reveal_strlit("1h");
    reveal_strlit("24h");
    reveal_strlit("7d");
    small_names();
    wording::case_does_not_matter(name, "1m"@);
    wording::case_does_not_matter(name, "5m"@);
    wording::case_does_not_matter(name, "10m"@);
    wording::case_does_not_matter(name, "15m"@);
    wording::case_does_not_matter(name, "1h"@);
    wording::case_does_not_matter(name, "24h"@);
    wording::case_does_not_matter(name, "7d"@);
    assert("1m"@[0] == '1' && "5m"@[0] == '5' && "1h"@[0] == '1' && "7d"@[0] == '7');
    assert("1m"@[1] == 'm' && "1h"@[1] == 'h');
    assert("10m"@[1] == '0' && "15m"@[1] == '5' && "24h"@[0] == '2' && "10m"@[0] == '1'
        && "15m"@[0] == '1');
}

proof fn small_names()
    ensures
        text::lowered("1m"@) == "1m"@,
        text::lowered("5m"@) == "5m"@,
        text::lowered("10m"@) == "10m"@,
        text::lowered("15m"@) == "15m"@,
        text::lowered("1h"@) == "1h"@,
        text::lowered("24h"@) == "24h"@,
        text::lowered("7d"@) == "7d"@,
{
    reveal_strlit("1m");
    reveal_strlit("5m");
    reveal_strlit("10m");
    reveal_strlit("15m");
    reveal_strlit("1h");
    reveal_strlit("24h");
    reveal_strlit("7d");
    assert(text::lowered("1m"@) =~= "1m"@);
    assert(text::lowered("5m"@) =~= "5m"@);
    assert(text::lowered("10m"@) =~= "10m"@);
    assert(text::lowered("15m"@) =~= "15m"@);
    assert(text::lowered("1h"@) =~= "1h"@);
    assert(text::lowered("24h"@) =~= "24h"@);
    assert(text::lowered("7d"@) =~= "7d"@);
}

// ---------------------------------------------------------------------------
// All rules at once
// ---------------------------------------------------------------------------
/// Whether a text begins like an address on the web.
pub open spec fn is_web_address(url: Seq<char>) -> bool {
    wording::begins(text::trimmed(url), "https://"@) || wording::begins(
        text::trimmed(url),
        "http://"@,
    )
}

/// Whether a target names a bot, a receiver and one of the four ways to it.
pub open spec fn is_reachable(target: PushTarget) -> bool {
    &&& sampling::says_something(target.bot_id@)
    &&& sampling::says_something(target.target_id@)
    &&& target.kind@ == "private"@ || target.kind@ == "group"@ || target.kind@ == "channel"@
        || target.kind@ == "channel_private"@
}

/// Whether a rate lies between 0 and 100.
pub open spec fn is_rate(rate: Double) -> bool {
    rate.bits <= 0x4059_0000_0000_0000 || rate.bits == 0x8000_0000_0000_0000
}

/// An access to the logs is accepted exactly if it has a web address, an administrator
/// and the name of a token, and its numbers lie within their bounds.
pub proof fn log_access_is_bounded(config: AppConfig)
    ensures
        config.api.problem() is None <==> {
            &&& is_web_address(config.api.base_url@)
            &&& config.api.admin_user_id >= 1
            &&& sampling::says_something(config.api.access_token_env@)
            &&& 10 <= config.api.poll_interval_secs <= 3600
            &&& 1 <= config.api.page_size <= 100
            &&& config.api.max_pages_per_model >= 1
            &&& 1 <= config.api.initial_backfill_hours <= 720
            &&& 0 <= config.api.overlap_secs <= 3600
            &&& 1 <= config.api.request_timeout_secs <= 120
        },
{
}

/// A configuration is accepted exactly if every part of it lies within its bounds: the
/// access to the logs, the times, the file below its directory, the window, the rates,
/// the length of messages, the push mode with its interval where pushing is enabled, the
/// targets, and at least one model, all with names of their own.
pub proof fn configurations_are_bounded(config: AppConfig, reading: PathReading)
    ensures
        config.problem(reading) is None <==> {
            &&& config.api.problem() is None
            &&& 1 <= config.perf_metrics.request_timeout_secs <= 3
            &&& config.perf_metrics.cache_ttl_secs >= 0
            &&& 1 <= config.storage.retention_days <= 30
            &&& config.storage.database_file@.len() > 0
            &&& !reading.absolute
            &&& !reading.climbs()
            &&& config::named_window(config.status.default_window@) is Some
            &&& is_rate(config.status.normal_success_rate)
            &&& is_rate(config.status.degraded_success_rate)
            &&& !config.status.normal_success_rate.less(config.status.degraded_success_rate)
            &&& config.bot.max_message_chars >= 200
            &&& config.push.enabled ==> config.push.interval_secs >= 30
            &&& config.push.mode@ == "periodic"@ || config.push.mode@ == "change"@
                || config.push.mode@ == "anomaly"@
            &&& forall|i: int|
                0 <= i < config.push.targets@.len() ==> is_reachable(
                    #[trigger] config.push.targets@[i],
                )
            &&& config.models@.len() > 0
            &&& forall|i: int|
                0 <= i < config.models@.len() ==> sampling::says_something(
                    (#[trigger] config.models@[i]).name@,
                )
            &&& forall|i: int, j: int|
                0 <= i < j < config.models@.len() ==> (#[trigger] config.models@[i]).name@ != (
                #[trigger] config.models@[j]).name@
        },
{
    targets_are_checked(config.push.targets@, 0);
    models_are_checked(config.models@, 0);
    assert forall|rate: Double| #[trigger] rate.is_percentage() == is_rate(rate) by {}
    assert(config.status.normal_success_rate.is_percentage() == is_rate(
        config.status.normal_success_rate,
    ));
    assert(config.status.degraded_success_rate.is_percentage() == is_rate(
        config.status.degraded_success_rate,
    ));
}

proof fn targets_are_checked(targets: Seq<PushTarget>, i: int)
    requires
        0 <= i <= targets.len(),
    ensures
        config::targets_problem(targets, i) is None <==> forall|k: int|
            i <= k < targets.len() ==> is_reachable(#[trigger] targets[k]),
    decreases targets.len() - i,
{
    if i < targets.len() {
        targets_are_checked(targets, i + 1);
        assert(targets[i].problem() is None == is_reachable(targets[i]));
    }
}

proof fn models_are_checked(models: Seq<ModelConfig>, i: int)
    requires
        0 <= i <= models.len(),
    ensures
        config::models_problem(models, i) is None <==> {
            &&& forall|k: int|
                i <= k < models.len() ==> sampling::says_something((#[trigger] models[k]).name@)
            &&& forall|j: int, k: int|
                0 <= j < k < models.len() && i <= k ==> (#[trigger] models[j]).name@ != (
                #[trigger] models[k]).name@
        },
    decreases models.len() - i,
{
    if i < models.len() {
        models_are_checked(models, i + 1);
        if config::name_taken(models, i) {
            let j = choose|j: int| 0 <= j < i && (#[trigger] models[j]).name@ == models[i].name@;
            assert(models[j].name@ == models[i].name@);
        } else {
            assert forall|j: int, k: int|
                0 <= j < k < models.len() && i <= k && k == i implies (#[trigger] models[j]).name@
                != (#[trigger] models[k]).name@ by {}
        }
    }
}

// ---------------------------------------------------------------------------
// What is said
// ---------------------------------------------------------------------------
/// A configuration whose only fault is one of these is told so.
pub proof fn single_faults_are_named(
    config: AppConfig,
    reading: PathReading,
    fixed: AppConfig,
)
    requires
        fixed.problem(reading) is None,
    ensures
        config == (AppConfig { api: config.api, ..fixed }) && config.api.problem() is Some
            ==> config.problem(reading) == config.api.problem(),
        config == (AppConfig { bot: config.bot, ..fixed }) && config.bot.max_message_chars < 200
            ==> config.problem(reading) == Some("bot.max_message_chars 不能小于 200"@),
        config == (AppConfig { storage: config.storage, ..fixed })
            && config.storage.database_file == fixed.storage.database_file && !(1
            <= config.storage.retention_days <= 30) ==> config.problem(reading) == Some(
            "storage.retention_days 必须在 1 到 30 天之间"@,
        ),
        config == (AppConfig { perf_metrics: config.perf_metrics, ..fixed }) && !(1
            <= config.perf_metrics.request_timeout_secs <= 3) ==> config.problem(reading) == Some(
            "perf_metrics.request_timeout_secs 必须在 1 到 3 秒之间"@,
        ),
        config == (AppConfig { perf_metrics: config.perf_metrics, ..fixed }) && 1
            <= config.perf_metrics.request_timeout_secs <= 3 && config.perf_metrics.cache_ttl_secs
            < 0 ==> config.problem(reading) == Some("perf_metrics.cache_ttl_secs 不能为负数"@),
        config == (AppConfig { push: config.push, ..fixed }) && config.push.enabled
            && config.push.interval_secs < 30 ==> config.problem(reading) == Some(
            "push.interval_secs 不能小于 30 秒"@,
        ),
        config == (AppConfig { push: config.push, ..fixed }) && !(config.push.enabled
            && config.push.interval_secs < 30) && config.push.mode@ != "periodic"@
            && config.push.mode@ != "change"@ && config.push.mode@ != "anomaly"@ ==> config.problem(
            reading,
        ) == Some("push.mode 只能是 periodic、change 或 anomaly"@),
        config == (AppConfig { models: config.models, ..fixed }) && config.models@.len() == 0
            ==> config.problem(reading) == Some("models 至少需要配置一个白名单模型"@),
        config == (AppConfig { status: config.status, ..fixed }) && config::named_window(
            config.status.default_window@,
        ) is None ==> config.problem(reading) == Some(
            "不支持的时间窗口: "@ + config.status.default_window@,
        ),
        config == (AppConfig { status: config.status, ..fixed }) && config::named_window(
            config.status.default_window@,
        ) is Some && (!is_rate(config.status.normal_success_rate) || !is_rate(
            config.status.degraded_success_rate,
        ) || config.status.normal_success_rate.less(config.status.degraded_success_rate))
            ==> config.problem(reading) == Some("状态成功率阈值无效"@),
{
    assert(config.status.normal_success_rate.is_percentage() == is_rate(
        config.status.normal_success_rate,
    ));
    assert(config.status.degraded_success_rate.is_percentage() == is_rate(
        config.status.degraded_success_rate,
    ));
}

/// The first model without a name of its own is told: that it has none, or that its name
/// was given before.
pub proof fn faulty_models_are_named(models: Seq<ModelConfig>, i: int)
    requires
        0 <= i < models.len(),
        forall|k: int| 0 <= k < i ==> sampling::says_something((#[trigger] models[k]).name@),
        forall|j: int, k: int|
            0 <= j < k < i ==> (#[trigger] models[j]).name@ != (#[trigger] models[k]).name@,
    ensures
        !sampling::says_something(models[i].name@) ==> config::models_problem(models, 0) == Some(
            "白名单模型名不能为空"@,
        ),
        sampling::says_something(models[i].name@) && (exists|j: int|
            0 <= j < i && (#[trigger] models[j]).name@ == models[i].name@) ==> config::models_problem(
            models,
            0,
        ) == Some("白名单模型重复: "@ + models[i].name@),
{
    first_models_pass(models, 0, i);
}

proof fn first_models_pass(models: Seq<ModelConfig>, from: int, to: int)
    requires
        0 <= from <= to < models.len(),
        forall|k: int| 0 <= k < to ==> sampling::says_something((#[trigger] models[k]).name@),
        forall|j: int, k: int|
            0 <= j < k < to ==> (#[trigger] models[j]).name@ != (#[trigger] models[k]).name@,
    ensures
        config::models_problem(models, from) == config::models_problem(models, to),
    decreases to - from,
{
    if from < to {
        assert(sampling::says_something(models[from].name@));
        assert(!config::name_taken(models, from));
        first_models_pass(models, from + 1, to);
    }
}

/// The first target that cannot be reached is told by what it lacks.
pub proof fn faulty_targets_are_named(targets: Seq<PushTarget>, i: int)
    requires
        0 <= i < targets.len(),
        forall|k: int| 0 <= k < i ==> is_reachable(#[trigger] targets[k]),
    ensures
        !sampling::says_something(targets[i].bot_id@) ==> config::targets_problem(targets, 0)
            == Some("push.targets[].bot_id 不能为空"@),
        sampling::says_something(targets[i].bot_id@) && !sampling::says_something(
            targets[i].target_id@,
        ) ==> config::targets_problem(targets, 0) == Some("push.targets[].target_id 不能为空"@),
        sampling::says_something(targets[i].bot_id@) && sampling::says_something(
            targets[i].target_id@,
        ) && !is_reachable(targets[i]) ==> config::targets_problem(targets, 0) == Some(
            "push.targets[].kind 只能是 private、group、channel 或 channel_private"@,
        ),
{
    first_targets_pass(targets, 0, i);
}

proof fn first_targets_pass(targets: Seq<PushTarget>, from: int, to: int)
    requires
        0 <= from <= to < targets.len(),
        forall|k: int| 0 <= k < to ==> is_reachable(#[trigger] targets[k]),
    ensures
        config::targets_problem(targets, from) == config::targets_problem(targets, to),
    decreases to - from,
{
    if from < to {
        assert(is_reachable(targets[from]));
        assert(targets[from].problem() is None);
        first_targets_pass(targets, from + 1, to);
    }
}

/// A fault in the access to the logs is told by the first part that is at fault.
pub proof fn faulty_log_access_is_named(config: AppConfig)
    ensures
        ({
            let api = config.api;
            let told = api.problem();
            &&& !is_web_address(api.base_url@) ==> told == Some(
                "api.base_url 必须是 http 或 https URL"@,
            )
            &&& is_web_address(api.base_url@) && api.admin_user_id <= 0 ==> told == Some(
                "api.admin_user_id 必须大于 0"@,
            )
            &&& is_web_address(api.base_url@) && api.admin_user_id > 0 ==> {
                &&& !sampling::says_something(api.access_token_env@) ==> told == Some(
                    "api.access_token_env 不能为空"@,
                )
                &&& sampling::says_something(api.access_token_env@) ==> {
                    &&& !(10 <= api.poll_interval_secs <= 3600) ==> told == Some(
                        "api.poll_interval_secs 必须在 10 到 3600 秒之间"@,
                    )
                    &&& 10 <= api.poll_interval_secs <= 3600 ==> {
                        &&& !(1 <= api.page_size <= 100) ==> told == Some(
                            "api.page_size 必须在 1 到 100 之间"@,
                        )
                        &&& 1 <= api.page_size <= 100 && api.max_pages_per_model == 0 ==> told
                            == Some("api.max_pages_per_model 必须大于 0"@)
                        &&& 1 <= api.page_size <= 100 && api.max_pages_per_model > 0 ==> {
                            &&& !(1 <= api.initial_backfill_hours <= 720) ==> told == Some(
                                "api.initial_backfill_hours 必须在 1 到 720 小时之间"@,
                            )
                            &&& 1 <= api.initial_backfill_hours <= 720 && !(0 <= api.overlap_secs
                                <= 3600) ==> told == Some(
                                "api.overlap_secs 必须在 0 到 3600 秒之间"@,
                            )
                            &&& 1 <= api.initial_backfill_hours <= 720 && 0 <= api.overlap_secs
                                <= 3600 && !(1 <= api.request_timeout_secs <= 120) ==> told == Some(
                                "api.request_timeout_secs 必须在 1 到 120 秒之间"@,
                            )
                        }
                    }
                }
            }
        }),
{
}

/// A database file is refused where it has no name or does not lie below its directory.
pub proof fn stray_files_are_refused(path: Seq<char>, reading: PathReading)
    ensures
        path.len() == 0 || reading.absolute ==> config::path_problem(path, reading) == Some(
            "storage.database_file 必须是非空相对路径"@,
        ),
        path.len() > 0 && !reading.absolute && reading.climbs() ==> config::path_problem(
            path,
            reading,
        ) == Some("storage.database_file 不允许包含上级目录"@),
        path.len() > 0 && !reading.absolute && !reading.climbs() ==> config::path_problem(
            path,
            reading,
        ) is None,
{
}

// ---------------------------------------------------------------------------
// What is not said
// ---------------------------------------------------------------------------
/// What a configuration leaves out is taken so: half a minute between rounds, a day back
/// at the first, two minutes of overlap, fifty pages of a hundred lines, fifteen seconds
/// for an answer and half a minute for a payment; seven days in the store.
pub proof fn reading_has_defaults(api: ApiConfig, storage: StorageConfig)
    requires
        call_ensures(<ApiConfig as Default>::default, (), api),
        call_ensures(<StorageConfig as Default>::default, (), storage),
    ensures
        api.poll_interval_secs == 30,
        api.initial_backfill_hours == 24,
        api.overlap_secs == 120,
        api.page_size == 100,
        api.max_pages_per_model == 50,
        api.request_timeout_secs == 15,
        api.settlement_grace_secs == 30,
        api.access_token_env@ == "NEWAPI_STATUS_ACCESS_TOKEN"@,
        storage.retention_days == 7,
        storage.database_file@ == "newapi-status-bot/status.db"@,
{
}

/// Statuses go by a quarter of an hour and at least five requests, 99 and 95 percent,
/// twelve and thirty seconds, and data of three minutes; changes are pushed, when they
/// were seen twice and a quarter of an hour after the last push, but only where pushing
/// is enabled.
pub proof fn judging_and_pushing_have_defaults(status: StatusConfig, push: PushConfig)
    requires
        call_ensures(<StatusConfig as Default>::default, (), status),
        call_ensures(<PushConfig as Default>::default, (), push),
    ensures
        status.default_window@ == "15m"@,
        status.minimum_samples == 5,
        status.normal_success_rate.bits == 0x4058_c000_0000_0000,
        status.degraded_success_rate.bits == 0x4057_c000_0000_0000,
        status.default_max_ttft_ms == 12 * 1_000,
        status.default_max_total_ms == 30 * 1_000,
        status.stale_after_secs == 3 * 60,
        !push.enabled,
        push.mode@ == "change"@,
        push.interval_secs == 60 * 60,
        push.targets@.len() == 0,
        push.confirmations == 2,
        push.cooldown_secs == 15 * 60,
{
}

/// Public metrics are asked for, of a day and at most every five minutes, with three
/// seconds for an answer; everybody may ask, and a message has up to 1800 characters.
pub proof fn asking_has_defaults(metrics: PerfMetricsConfig, bot: BotConfig)
    requires
        call_ensures(<PerfMetricsConfig as Default>::default, (), metrics),
        call_ensures(<BotConfig as Default>::default, (), bot),
    ensures
        metrics.enabled,
        metrics.cache_ttl_secs == 5 * 60,
        metrics.request_timeout_secs == 3,
        metrics.default_hours == 24,
        bot.allowed_group_ids@.len() == 0,
        bot.admin_user_ids@.len() == 0,
        bot.max_message_chars == 1800,
{
}

// ---------------------------------------------------------------------------
// The operations themselves
// ---------------------------------------------------------------------------
/// A window is found under its name, and an unknown one is named in the refusal.
pub proof fn windows_are_found(value: &str, r: Result<i64, String>)
    requires
        call_ensures(config::parse_window, (value,), r),
    ensures
        r == Ok::<i64, String>(900) <==> wording::same_but_for_case(text::trimmed(value@), "15m"@),
        r == Ok::<i64, String>(3600) <==> wording::same_but_for_case(text::trimmed(value@), "1h"@),
        r == Ok::<i64, String>(86_400) <==> wording::same_but_for_case(
            text::trimmed(value@),
            "24h"@,
        ),
        r == Ok::<i64, String>(604_800) <==> wording::same_but_for_case(
            text::trimmed(value@),
            "7d"@,
        ),
        r is Err ==> r->Err_0@ == "不支持的时间窗口: "@ + value@,
{
    seven_windows_have_a_name(value@);
}

/// Checking a configuration accepts it exactly if it is within all bounds.
pub proof fn checks_accept_what_is_bounded(
    config: AppConfig,
    reading: PathReading,
    r: Result<(), String>,
)
    requires
        call_ensures(AppConfig::validate_with, (&config, &reading), r),
    ensures
        r is Ok ==> {
            &&& is_web_address(config.api.base_url@)
            &&& config.api.admin_user_id >= 1
            &&& 10 <= config.api.poll_interval_secs <= 3600
            &&& 1 <= config.api.page_size <= 100
            &&& 1 <= config.storage.retention_days <= 30
            &&& !reading.absolute && !reading.climbs()
            &&& is_rate(config.status.normal_success_rate)
            &&& config.bot.max_message_chars >= 200
            &&& config.models@.len() > 0
            &&& forall|i: int|
                0 <= i < config.push.targets@.len() ==> is_reachable(
                    #[trigger] config.push.targets@[i],
                )
        },
        r is Ok <==> config.problem(reading) is None,
{
    configurations_are_bounded(config, reading);
    log_access_is_bounded(config);
}

/// A target is checked for a bot, a receiver and a way.
pub proof fn targets_are_accepted_if_reachable(target: PushTarget, r: Result<(), String>)
    requires
        call_ensures(PushTarget::validate, (&target,), r),
    ensures
        r is Ok <==> is_reachable(target),
{
}

/// A configuration text that says nothing, or cannot be read, is told so; one that can is
/// accepted as it is or refused with its first fault.
pub proof fn texts_are_read_before_they_are_checked(
    raw: &str,
    decoded: Result<AppConfig, String>,
    r: Result<AppConfig, String>,
)
    requires
        call_ensures(AppConfig::parse, (raw, decoded), r),
    ensures
        !sampling::says_something(raw@) ==> r is Err && r->Err_0@
            == "缺少 config/plugins/newapi-status-bot.toml"@,
        sampling::says_something(raw@) && decoded is Err ==> r is Err && r->Err_0@
            == "插件配置解析失败: "@ + decoded->Err_0@,
        r is Ok ==> decoded is Ok && r->Ok_0 == decoded->Ok_0,
        r is Ok ==> r->Ok_0.models@.len() > 0 && is_web_address(r->Ok_0.api.base_url@),
{
    if let Ok(config) = decoded {
        if sampling::says_something(raw@) {
            let reading = choose|reading: PathReading|
                config::is_platform_reading(reading, config.storage.database_file@) && reading.reads(
                    config.storage.database_file@,
                ) && #[trigger] config.accepted(reading, r);
            configurations_are_bounded(config, reading);
            log_access_is_bounded(config);
        }
    }
}

/// A path that leads from a directory to a file begins with the one and ends with the
/// other, with at most a separator between them.
pub proof fn paths_lead_from_their_directory(
    path: Seq<char>,
    directory: Seq<char>,
    file: Seq<char>,
)
    requires
        config::leads_from(path, directory, file),
    ensures
        wording::begins(path, directory),
        wording::ends(path, file),
        path.len() <= directory.len() + 1 + file.len(),
{
    assert(path.subrange(0, directory.len() as int) =~= directory);
    assert(path.subrange(path.len() - file.len(), path.len() as int) =~= file);
}

} // verus!
