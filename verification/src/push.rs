//! Pushing: when a status report goes out unasked, and to whom.
use vstd::prelude::*;
use vstd::string::*;

use crate::config;
use crate::config::{AppConfig, PushConfig, PushTarget};
use crate::decimal;
use crate::json;
use crate::json::{JsonLeaf, JsonValue};
use crate::metrics::{HealthStatus, ModelReport, WindowSnapshot};
use crate::num;
use crate::report;
use crate::state::{CollectorHealth, PushState, ReportCache};
use crate::text;

verus! {

// ---------------------------------------------------------------------------
// What a snapshot signals
// ---------------------------------------------------------------------------
/// The name of a status in a fingerprint.
pub open spec fn status_name(status: HealthStatus) -> Seq<char> {
    match status {
        HealthStatus::Normal => "Normal"@,
        HealthStatus::InsufficientSamples => "InsufficientSamples"@,
        HealthStatus::NoData => "NoData"@,
        HealthStatus::Degraded => "Degraded"@,
        HealthStatus::Abnormal => "Abnormal"@,
        HealthStatus::Stale => "Stale"@,
    }
}

fn status_key(status: HealthStatus) -> (r: &'static str)
    ensures
        r@ == status_name(status),
{
    match status {
        HealthStatus::Normal => "Normal",
        HealthStatus::InsufficientSamples => "InsufficientSamples",
        HealthStatus::NoData => "NoData",
        HealthStatus::Degraded => "Degraded",
        HealthStatus::Abnormal => "Abnormal",
        HealthStatus::Stale => "Stale",
    }
}

/// The part of a model in a fingerprint.
pub open spec fn model_mark(model: ModelReport) -> Seq<char> {
    model.model_name@ + ":"@ + status_name(model.status)
}

/// The fingerprint of a number of models: each with its status.
pub open spec fn fingerprint_of(models: Seq<ModelReport>) -> Seq<char> {
    text::joined(models.map_values(|m: ModelReport| model_mark(m)), "|"@)
}

/// Whether a status is an alert.
pub open spec fn is_alert(status: HealthStatus) -> bool {
    status == HealthStatus::Stale || status == HealthStatus::Degraded || status
        == HealthStatus::Abnormal
}

/// Whether a model is in alert.
pub open spec fn has_alert(models: Seq<ModelReport>) -> bool {
    exists|i: int| 0 <= i < models.len() && is_alert((#[trigger] models[i]).status)
}

/// The models as they are seen: every one of them stale where the data is.
pub open spec fn as_seen(models: Seq<ModelReport>, stale: bool) -> Seq<ModelReport> {
    models.map_values(
        |m: ModelReport|
            ModelReport {
                status: if stale {
                    HealthStatus::Stale
                } else {
                    m.status
                },
                ..m
            },
    )
}

fn signal_of(models: &Vec<ModelReport>, stale: bool) -> (r: (String, bool))
    ensures
        r.0@ == fingerprint_of(as_seen(models@, stale)),
        r.1 == has_alert(as_seen(models@, stale)),
{
    let ghost seen = as_seen(models@, stale);
    let ghost marks = seen.map_values(|m: ModelReport| model_mark(m));
    let mut parts: Vec<String> = Vec::new();
    let mut alert = false;
    let mut i: usize = 0;
    assert(text::texts(parts@) =~= marks.take(0));
    while i < models.len()
        invariant
            i <= models@.len(),
            seen == as_seen(models@, stale),
            marks == seen.map_values(|m: ModelReport| model_mark(m)),
            text::texts(parts@) == marks.take(i as int),
            alert == exists|k: int| 0 <= k < i && is_alert((#[trigger] seen[k]).status),
        decreases models@.len() - i,
    {
        let status = if stale {
            HealthStatus::Stale
        } else {
            models[i].status
        };
        assert(seen[i as int].status == status);
        let mut part = models[i].model_name.clone();
        part.append(":");
        part.append(status_key(status));
        let ghost before = text::texts(parts@);
        parts.push(part);
        assert(text::texts(parts@) =~= before.push(marks[i as int]));
        assert(text::texts(parts@) =~= marks.take(i + 1));
        let is_grave = match status {
            HealthStatus::Stale => true,
            HealthStatus::Degraded => true,
            HealthStatus::Abnormal => true,
            _ => false,
        };
        assert(is_grave == is_alert(seen[i as int].status));
        alert = alert || is_grave;
        i = i + 1;
    }
    assert(marks.take(i as int) =~= marks);
    (text::join(&parts, "|"), alert)
}

/// The fingerprint of a snapshot, and whether a model is in alert.
pub fn snapshot_signal(snapshot: &WindowSnapshot) -> (r: (String, bool))
    ensures
        r.0@ == fingerprint_of(snapshot.models@),
        r.1 == has_alert(snapshot.models@),
{
    assert(as_seen(snapshot.models@, false) =~= snapshot.models@);
    signal_of(&snapshot.models, false)
}

/// The models of a snapshot as they are seen when the collector is in `health`.
pub open spec fn models_seen(
    config: AppConfig,
    snapshot: WindowSnapshot,
    health: CollectorHealth,
) -> Seq<ModelReport> {
    as_seen(
        snapshot.models@,
        report::is_stale(config, snapshot.generated_at, health.last_success_at),
    )
}

/// The fingerprint of a snapshot when the collector is in `health`, and whether there
/// is an alert: a model is in alert, or the data is stale.
pub fn health_signal(
    config: &AppConfig,
    snapshot: &WindowSnapshot,
    health: &CollectorHealth,
) -> (r: (String, bool))
    ensures
        r.0@ == fingerprint_of(models_seen(*config, *snapshot, *health)),
        r.1 == has_alert(models_seen(*config, *snapshot, *health)),
{
    let stale = report::data_is_stale(config, snapshot.generated_at, health.last_success_at);
    if stale {
        signal_of(&snapshot.models, true)
    } else {
        let signal = snapshot_signal(snapshot);
        assert(as_seen(snapshot.models@, false) =~= snapshot.models@);
        signal
    }
}

// ---------------------------------------------------------------------------
// Whether to push
// ---------------------------------------------------------------------------
/// The contents of a `PushState`.
pub struct PushMemory {
    pub last_heartbeat_at: i64,
    pub last_push_at: i64,
    pub last_sent_fingerprint: Seq<char>,
    pub last_sent_had_alert: bool,
    pub candidate_fingerprint: Seq<char>,
    pub candidate_count: int,
    pub missing_targets_logged: bool,
}

/// The contents of a `PushState`.
pub open spec fn memory(push: PushState) -> PushMemory {
    PushMemory {
        last_heartbeat_at: push.last_heartbeat_at,
        last_push_at: push.last_push_at,
        last_sent_fingerprint: push.last_sent_fingerprint@,
        last_sent_had_alert: push.last_sent_had_alert,
        candidate_fingerprint: push.candidate_fingerprint@,
        candidate_count: push.candidate_count as int,
        missing_targets_logged: push.missing_targets_logged,
    }
}

/// Whether at least `seconds` have passed since the last push.
pub open spec fn has_passed(push: PushMemory, now: i64, seconds: i64) -> bool {
    num::clamped(now - push.last_push_at) >= seconds
}

/// Whether the state is only taken note of: in the mode for changes there is
/// nothing yet to compare with.
pub open spec fn is_first_sight(push: PushMemory, config: PushConfig) -> bool {
    config.mode@ == "change"@ && push.last_sent_fingerprint.len() == 0
}

/// How often the fingerprint was seen in a row, this time included.
pub open spec fn seen_in_a_row(push: PushMemory, fingerprint: Seq<char>) -> int {
    if push.candidate_fingerprint == fingerprint {
        if push.candidate_count < u32::MAX {
            push.candidate_count + 1
        } else {
            u32::MAX as int
        }
    } else {
        1
    }
}

/// What is remembered after a snapshot with this fingerprint was seen.
pub open spec fn after_sight(
    push: PushMemory,
    config: PushConfig,
    fingerprint: Seq<char>,
    alert: bool,
) -> PushMemory {
    if config.mode@ == "periodic"@ {
        push
    } else if is_first_sight(push, config) {
        PushMemory { last_sent_fingerprint: fingerprint, last_sent_had_alert: alert, ..push }
    } else {
        PushMemory {
            candidate_fingerprint: fingerprint,
            candidate_count: seen_in_a_row(push, fingerprint),
            ..push
        }
    }
}

/// Whether a push is due: after the interval in periodic mode; otherwise where the
/// state was confirmed often enough, the cooldown is over, it differs from what was
/// sent last, and it is a change that is asked for, an alert or the end of one.
pub open spec fn is_due(
    push: PushMemory,
    config: PushConfig,
    fingerprint: Seq<char>,
    alert: bool,
    now: i64,
) -> bool {
    if config.mode@ == "periodic"@ {
        has_passed(push, now, config.interval_secs)
    } else {
        &&& !is_first_sight(push, config)
        &&& seen_in_a_row(push, fingerprint) >= config.confirmations
        &&& has_passed(push, now, config.cooldown_secs)
        &&& fingerprint != push.last_sent_fingerprint
        &&& config.mode@ == "change"@ || alert || push.last_sent_had_alert
    }
}

/// Takes note of a snapshot and says whether a push is due. What was sent is only
/// noted once it was accepted.
pub fn should_send_push(
    push: &mut PushState,
    config: &PushConfig,
    fingerprint: &str,
    has_alert: bool,
    now: i64,
) -> (due: bool)
    ensures
        memory(*final(push)) == after_sight(memory(*old(push)), *config, fingerprint@, has_alert),
        due == is_due(memory(*old(push)), *config, fingerprint@, has_alert, now),
{
    if text::same_text(config.mode.as_str(), "periodic") {
        return num::minus(now, push.last_push_at) >= config.interval_secs;
    }
    let on_change = text::same_text(config.mode.as_str(), "change");
    if on_change && text::char_count(push.last_sent_fingerprint.as_str()) == 0 {
        push.last_sent_fingerprint = fingerprint.to_string();
        push.last_sent_had_alert = has_alert;
        return false;
    }
    if text::same_text(push.candidate_fingerprint.as_str(), fingerprint) {
        if push.candidate_count < u32::MAX {
            push.candidate_count = push.candidate_count + 1;
        }
    } else {
        push.candidate_fingerprint = fingerprint.to_string();
        push.candidate_count = 1;
    }
    let needed: u32 = if config.confirmations < 1 {
        1
    } else {
        config.confirmations
    };
    let confirmed = push.candidate_count >= needed && num::minus(now, push.last_push_at)
        >= config.cooldown_secs;
    let changed = !text::same_text(fingerprint, push.last_sent_fingerprint.as_str());
    confirmed && changed && (on_change || has_alert || push.last_sent_had_alert)
}

// ---------------------------------------------------------------------------
// Handing messages to the host
// ---------------------------------------------------------------------------
/// What the host says to a message.
#[derive(Clone, Copy, Debug, PartialEq, Eq, Structural)]
pub enum SendEnqueueStatus {
    Accepted,
    HostUnavailable,
    InvalidRequest,
    BotNotFound,
    BotDisabled,
    QueueFull,
    HostShuttingDown,
}

impl SendEnqueueStatus {
    /// What the host says with a number.
    pub open spec fn of_code(code: int) -> SendEnqueueStatus {
        if code == 0 {
            SendEnqueueStatus::Accepted
        } else if code == 2 {
            SendEnqueueStatus::InvalidRequest
        } else if code == 3 {
            SendEnqueueStatus::BotNotFound
        } else if code == 4 {
            SendEnqueueStatus::BotDisabled
        } else if code == 5 {
            SendEnqueueStatus::QueueFull
        } else if code == 6 {
            SendEnqueueStatus::HostShuttingDown
        } else {
            SendEnqueueStatus::HostUnavailable
        }
    }

    /// What the host says with a number.
    pub fn from_code(code: i32) -> (r: Self)
        ensures
            r == Self::of_code(code as int),
    {
        if code == 0 {
            SendEnqueueStatus::Accepted
        } else if code == 2 {
            SendEnqueueStatus::InvalidRequest
        } else if code == 3 {
            SendEnqueueStatus::BotNotFound
        } else if code == 4 {
            SendEnqueueStatus::BotDisabled
        } else if code == 5 {
            SendEnqueueStatus::QueueFull
        } else if code == 6 {
            SendEnqueueStatus::HostShuttingDown
        } else {
            SendEnqueueStatus::HostUnavailable
        }
    }

    /// Whether the host took the message.
    pub fn is_accepted(self) -> (r: bool)
        ensures
            r == (self == SendEnqueueStatus::Accepted),
    {
        match self {
            SendEnqueueStatus::Accepted => true,
            _ => false,
        }
    }
}

/// Calls `abi_stable_host_api::ProactiveBotApi::send_private_msg` for a bot. The
/// answer is the host's; it is one of the seven codes, and the one for an invalid
/// request where the bot, the target or the message is empty.
#[verifier::external_body]
fn send_private(bot_id: &str, target_id: &str, message: &str) -> (code: i32)
    ensures
        0 <= code <= 6,
        bot_id@.len() == 0 || target_id@.len() == 0 || message@.len() == 0 ==> code == 2,
{
    abi_stable_host_api::BotApi::for_bot(bot_id).send_private_msg(target_id, message).code()
}

/// Calls `abi_stable_host_api::ProactiveBotApi::send_group_msg` for a bot. The
/// answer is the host's; it is one of the seven codes, and the one for an invalid
/// request where the bot, the target or the message is empty.
#[verifier::external_body]
fn send_group(bot_id: &str, target_id: &str, message: &str) -> (code: i32)
    ensures
        0 <= code <= 6,
        bot_id@.len() == 0 || target_id@.len() == 0 || message@.len() == 0 ==> code == 2,
{
    abi_stable_host_api::BotApi::for_bot(bot_id).send_group_msg(target_id, message).code()
}

/// Calls `abi_stable_host_api::SendBuilder::try_send` on a message to a channel. The
/// answer is the host's; it is one of the seven codes, and the one for an invalid
/// request where the bot or the target is empty.
#[verifier::external_body]
fn send_channel(bot_id: &str, target_id: &str, message: &str) -> (code: i32)
    ensures
        0 <= code <= 6,
        bot_id@.len() == 0 || target_id@.len() == 0 ==> code == 2,
{
    let builder = abi_stable_host_api::SendBuilder::channel(target_id).bot(bot_id).text(message);
    builder.try_send().code()
}

/// Calls `abi_stable_host_api::SendBuilder::try_send` on a message to a channel of a
/// guild. The answer is the host's; it is one of the seven codes, and the one for an
/// invalid request where the bot or the target is empty.
#[verifier::external_body]
fn send_guild_channel(bot_id: &str, target_id: &str, guild_id: &str, message: &str) -> (code: i32)
    ensures
        0 <= code <= 6,
        bot_id@.len() == 0 || target_id@.len() == 0 ==> code == 2,
{
    let builder = abi_stable_host_api::SendBuilder::channel(target_id).bot(bot_id).text(message);
    builder.guild_id(guild_id).try_send().code()
}

/// Calls `abi_stable_host_api::SendBuilder::try_send` on a private message in a
/// channel. The answer is the host's; it is one of the seven codes, and the one for
/// an invalid request where the bot or the target is empty.
#[verifier::external_body]
fn send_channel_private(bot_id: &str, target_id: &str, message: &str) -> (code: i32)
    ensures
        0 <= code <= 6,
        bot_id@.len() == 0 || target_id@.len() == 0 ==> code == 2,
{
    let builder = abi_stable_host_api::SendBuilder::channel_private(target_id);
    builder.bot(bot_id).text(message).try_send().code()
}

/// Calls `abi_stable_host_api::SendBuilder::try_send` on a private message in a
/// channel of a guild. The answer is the host's; it is one of the seven codes, and
/// the one for an invalid request where the bot or the target is empty.
#[verifier::external_body]
fn send_guild_channel_private(
    bot_id: &str,
    target_id: &str,
    guild_id: &str,
    message: &str,
) -> (code: i32)
    ensures
        0 <= code <= 6,
        bot_id@.len() == 0 || target_id@.len() == 0 ==> code == 2,
{
    let builder = abi_stable_host_api::SendBuilder::channel_private(target_id);
    builder.bot(bot_id).text(message).guild_id(guild_id).try_send().code()
}

/// By which way a message goes to a target.
#[derive(Debug)]
pub enum Route {
    Private,
    Group,
    Channel(Option<String>),
    ChannelPrivate(Option<String>),
    Nowhere,
}

/// What a `Route` says.
pub enum Way {
    Private,
    Group,
    Channel(Option<Seq<char>>),
    ChannelPrivate(Option<Seq<char>>),
    Nowhere,
}

/// An optional text.
pub open spec fn maybe_text(s: Option<String>) -> Option<Seq<char>> {
    match s {
        Some(t) => Some(t@),
        None => None,
    }
}

impl Route {
    pub open spec fn view(&self) -> Way {
        match *self {
            Route::Private => Way::Private,
            Route::Group => Way::Group,
            Route::Channel(guild) => Way::Channel(maybe_text(guild)),
            Route::ChannelPrivate(guild) => Way::ChannelPrivate(maybe_text(guild)),
            Route::Nowhere => Way::Nowhere,
        }
    }
}

/// The way to a target, with its guild where it is a channel.
pub open spec fn way_to(target: PushTarget) -> Way {
    if target.kind@ == "private"@ {
        Way::Private
    } else if target.kind@ == "group"@ {
        Way::Group
    } else if target.kind@ == "channel"@ {
        Way::Channel(target.guild())
    } else if target.kind@ == "channel_private"@ {
        Way::ChannelPrivate(target.guild())
    } else {
        Way::Nowhere
    }
}

/// The way to a target, with its guild where it is a channel.
pub fn route_to(target: &PushTarget) -> (r: Route)
    ensures
        r.view() == way_to(*target),
{
    if text::same_text(target.kind.as_str(), "private") {
        Route::Private
    } else if text::same_text(target.kind.as_str(), "group") {
        Route::Group
    } else if text::same_text(target.kind.as_str(), "channel") {
        Route::Channel(target.guild_id())
    } else if text::same_text(target.kind.as_str(), "channel_private") {
        Route::ChannelPrivate(target.guild_id())
    } else {
        Route::Nowhere
    }
}

/// Whether `status` is an answer of `send` to `message` for the target `target_id`
/// of `bot_id`.
spec fn is_answer_of<F: Fn(&str, &str, &str) -> i32>(
    send: F,
    bot_id: Seq<char>,
    target_id: Seq<char>,
    message: Seq<char>,
    status: SendEnqueueStatus,
) -> bool {
    exists|bot: &str, id: &str, text: &str, code: i32|
        bot@ == bot_id && id@ == target_id && text@ == message && #[trigger] call_ensures(
            send,
            (bot, id, text),
            code,
        ) && status == SendEnqueueStatus::of_code(code as int)
}

/// Whether `status` is an answer of `send` to `message` for the target `target_id`
/// of `bot_id` in the guild `guild_id`.
spec fn is_guild_answer_of<F: Fn(&str, &str, &str, &str) -> i32>(
    send: F,
    bot_id: Seq<char>,
    target_id: Seq<char>,
    guild_id: Seq<char>,
    message: Seq<char>,
    status: SendEnqueueStatus,
) -> bool {
    exists|bot: &str, id: &str, guild: &str, text: &str, code: i32|
        bot@ == bot_id && id@ == target_id && guild@ == guild_id && text@ == message
            && #[trigger] call_ensures(send, (bot, id, guild, text), code) && status
            == SendEnqueueStatus::of_code(code as int)
}

/// Whether `status` is an answer to `message` for `target`: the one that the host
/// gave when the message was handed over by the way to the target, with its bot, its
/// id and its guild; an invalid request where no way leads to it.
pub closed spec fn is_answer(
    target: PushTarget,
    message: Seq<char>,
    status: SendEnqueueStatus,
) -> bool {
    let bot = target.bot_id@;
    let id = target.target_id@;
    match way_to(target) {
        Way::Private => is_answer_of(send_private, bot, id, message, status),
        Way::Group => is_answer_of(send_group, bot, id, message, status),
        Way::Channel(None) => is_answer_of(send_channel, bot, id, message, status),
        Way::Channel(Some(guild)) => is_guild_answer_of(
            send_guild_channel,
            bot,
            id,
            guild,
            message,
            status,
        ),
        Way::ChannelPrivate(None) => is_answer_of(send_channel_private, bot, id, message, status),
        Way::ChannelPrivate(Some(guild)) => is_guild_answer_of(
            send_guild_channel_private,
            bot,
            id,
            guild,
            message,
            status,
        ),
        Way::Nowhere => status == SendEnqueueStatus::InvalidRequest,
    }
}

fn hand_over<F: Fn(&str, &str, &str) -> i32>(
    send: F,
    bot_id: &str,
    target_id: &str,
    message: &str,
) -> (r: SendEnqueueStatus)
    requires
        call_requires(send, (bot_id, target_id, message)),
    ensures
        is_answer_of(send, bot_id@, target_id@, message@, r),
{
    SendEnqueueStatus::from_code(send(bot_id, target_id, message))
}

fn hand_over_in_guild<F: Fn(&str, &str, &str, &str) -> i32>(
    send: F,
    bot_id: &str,
    target_id: &str,
    guild_id: &str,
    message: &str,
) -> (r: SendEnqueueStatus)
    requires
        call_requires(send, (bot_id, target_id, guild_id, message)),
    ensures
        is_guild_answer_of(send, bot_id@, target_id@, guild_id@, message@, r),
{
    SendEnqueueStatus::from_code(send(bot_id, target_id, guild_id, message))
}

/// Hands a message for a target to the host. A target that no way leads to, and one
/// without bot or id, is an invalid request; otherwise the answer is the host's.
pub fn send_text_to_target(target: &PushTarget, message: &str) -> (r: SendEnqueueStatus)
    ensures
        is_answer(*target, message@, r),
        way_to(*target) is Nowhere || target.bot_id@.len() == 0 || target.target_id@.len() == 0
            ==> r == SendEnqueueStatus::InvalidRequest,
        (way_to(*target) is Private || way_to(*target) is Group) && message@.len() == 0 ==> r
            == SendEnqueueStatus::InvalidRequest,
{
    let bot_id = target.bot_id.as_str();
    let target_id = target.target_id.as_str();
    match route_to(target) {
        Route::Private => hand_over(send_private, bot_id, target_id, message),
        Route::Group => hand_over(send_group, bot_id, target_id, message),
        Route::Channel(Some(guild)) => hand_over_in_guild(
            send_guild_channel,
            bot_id,
            target_id,
            guild.as_str(),
            message,
        ),
        Route::Channel(None) => hand_over(send_channel, bot_id, target_id, message),
        Route::ChannelPrivate(Some(guild)) => hand_over_in_guild(
            send_guild_channel_private,
            bot_id,
            target_id,
            guild.as_str(),
            message,
        ),
        Route::ChannelPrivate(None) => hand_over(send_channel_private, bot_id, target_id, message),
        Route::Nowhere => SendEnqueueStatus::InvalidRequest,
    }
}

// ---------------------------------------------------------------------------
// Pushing a report
// ---------------------------------------------------------------------------
/// One message to one target, and what the host said to it.
#[derive(Debug)]
pub struct PushAttempt {
    pub bot_id: String,
    pub kind: String,
    pub target_id: String,
    pub status: SendEnqueueStatus,
}

/// Every message for every target, target by target.
pub open spec fn deliveries(
    targets: Seq<PushTarget>,
    chunks: Seq<Seq<char>>,
) -> Seq<(PushTarget, Seq<char>)>
    decreases targets.len(),
{
    if targets.len() == 0 {
        Seq::empty()
    } else {
        deliveries(targets.drop_last(), chunks) + chunks.map_values(
            |c: Seq<char>| (targets.last(), c),
        )
    }
}

impl PushAttempt {
    /// Whether this attempt hands the message of `delivery` to its target, and the
    /// status is an answer of `send` to it.
    pub open spec fn delivers<F: Fn(&PushTarget, &str) -> SendEnqueueStatus>(
        self,
        delivery: (PushTarget, Seq<char>),
        send: F,
    ) -> bool {
        &&& self.bot_id@ == delivery.0.bot_id@
        &&& self.kind@ == delivery.0.kind@
        &&& self.target_id@ == delivery.0.target_id@
        &&& exists|message: &str|
            message@ == delivery.1 && #[trigger] call_ensures(
                send,
                (&delivery.0, message),
                self.status,
            )
    }
}

/// Hands every message to `send` for every target.
pub fn enqueue_chunks_with<F: Fn(&PushTarget, &str) -> SendEnqueueStatus>(
    targets: &Vec<PushTarget>,
    chunks: &Vec<String>,
    send: F,
) -> (attempts: Vec<PushAttempt>)
    requires
        forall|target: &PushTarget, message: &str| #[trigger]
            call_requires(send, (target, message)),
    ensures
        attempts@.len() == deliveries(targets@, text::texts(chunks@)).len(),
        forall|k: int|
            0 <= k < attempts@.len() ==> (#[trigger] attempts@[k]).delivers(
                deliveries(targets@, text::texts(chunks@))[k],
                send,
            ),
{
    let ghost messages = text::texts(chunks@);
    let mut attempts: Vec<PushAttempt> = Vec::new();
    let mut i: usize = 0;
    while i < targets.len()
        invariant
            i <= targets@.len(),
            messages == text::texts(chunks@),
            forall|target: &PushTarget, message: &str| #[trigger]
                call_requires(send, (target, message)),
            attempts@.len() == deliveries(targets@.take(i as int), messages).len(),
            forall|k: int|
                0 <= k < attempts@.len() ==> (#[trigger] attempts@[k]).delivers(
                    deliveries(targets@.take(i as int), messages)[k],
                    send,
                ),
        decreases targets@.len() - i,
    {
        let ghost done = deliveries(targets@.take(i as int), messages);
        let ghost wanted = deliveries(targets@.take(i + 1), messages);
        assert(targets@.take(i + 1).drop_last() == targets@.take(i as int));
        assert(targets@.take(i + 1).last() == targets@[i as int]);
        let mut j: usize = 0;
        while j < chunks.len()
            invariant
                i < targets@.len(),
                j <= chunks@.len(),
                messages == text::texts(chunks@),
                wanted == done + messages.map_values(|c: Seq<char>| (targets@[i as int], c)),
                forall|target: &PushTarget, message: &str| #[trigger]
                    call_requires(send, (target, message)),
                attempts@.len() == done.len() + j,
                forall|k: int|
                    0 <= k < attempts@.len() ==> (#[trigger] attempts@[k]).delivers(
                        wanted[k],
                        send,
                    ),
            decreases chunks@.len() - j,
        {
            let target = &targets[i];
            let message = chunks[j].as_str();
            let status = send(target, message);
            attempts.push(
                PushAttempt {
                    bot_id: target.bot_id.clone(),
                    kind: target.kind.clone(),
                    target_id: target.target_id.clone(),
                    status,
                },
            );
            assert(wanted[done.len() + j] == (targets@[i as int], messages[j as int]));
            assert(attempts@[done.len() + j].delivers(wanted[done.len() + j], send));
            j = j + 1;
        }
        i = i + 1;
    }
    assert(targets@.take(i as int) == targets@);
    attempts
}

/// Whether the host took one of the messages.
pub open spec fn any_accepted(attempts: Seq<PushAttempt>) -> bool {
    exists|i: int|
        0 <= i < attempts.len() && (#[trigger] attempts[i]).status == SendEnqueueStatus::Accepted
}

/// What is remembered after a push that was accepted.
pub open spec fn after_push(
    push: PushMemory,
    fingerprint: Seq<char>,
    alert: bool,
    now: i64,
) -> PushMemory {
    PushMemory {
        last_push_at: now,
        last_sent_fingerprint: fingerprint,
        last_sent_had_alert: alert,
        candidate_count: 0,
        candidate_fingerprint: Seq::empty(),
        ..push
    }
}

/// Notes a push where the host took one of its messages.
pub fn commit_if_any_accepted(
    push: &mut PushState,
    fingerprint: String,
    has_alert: bool,
    now: i64,
    attempts: &Vec<PushAttempt>,
) -> (accepted: bool)
    ensures
        accepted == any_accepted(attempts@),
        !accepted ==> *final(push) == *old(push),
        accepted ==> memory(*final(push)) == after_push(
            memory(*old(push)),
            fingerprint@,
            has_alert,
            now,
        ),
{
    let mut i: usize = 0;
    while i < attempts.len()
        invariant
            i <= attempts@.len(),
            *push == *old(push),
            forall|k: int|
                0 <= k < i ==> (#[trigger] attempts@[k]).status != SendEnqueueStatus::Accepted,
        decreases attempts@.len() - i,
    {
        if attempts[i].status.is_accepted() {
            push.last_push_at = now;
            push.last_sent_fingerprint = fingerprint;
            push.last_sent_had_alert = has_alert;
            push.candidate_count = 0;
            push.candidate_fingerprint = String::new();
            return true;
        }
        i = i + 1;
    }
    false
}

/// A report that is due.
#[derive(Debug)]
pub struct PendingPush {
    pub fingerprint: String,
    pub has_alert: bool,
    pub chunks: Vec<String>,
}

/// The messages of the status report on all models.
pub open spec fn report_texts(
    config: AppConfig,
    snapshot: WindowSnapshot,
    health: CollectorHealth,
) -> Seq<Seq<char>> {
    report::chunked(
        report::status_head(
            snapshot.window_seconds,
            report::timestamp_text(snapshot.generated_at),
            report::daytime_text(health.last_success_at),
            report::is_stale(config, snapshot.generated_at, health.last_success_at),
            health.last_error@,
        ),
        report::model_texts(snapshot.models@),
        config.bot.max_message_chars as int,
    )
}

impl PendingPush {
    /// Whether this is the report on `snapshot`.
    pub open spec fn reports(
        self,
        config: AppConfig,
        snapshot: WindowSnapshot,
        health: CollectorHealth,
    ) -> bool {
        &&& self.fingerprint@ == fingerprint_of(models_seen(config, snapshot, health))
        &&& self.has_alert == has_alert(models_seen(config, snapshot, health))
        &&& text::texts(self.chunks@) == report_texts(config, snapshot, health)
    }
}

/// What is done about pushing before anything is loaded.
#[derive(Clone, Copy, Debug, PartialEq, Eq, Structural)]
pub enum PushStart {
    /// Nothing.
    Idle,
    /// There is nobody to push to; it is to be said where `say` is set.
    NoTargets { say: bool },
    /// A snapshot over this many seconds is to be loaded.
    Load(i64),
}

/// Says once that there is nobody to push to.
pub fn log_missing_targets_once(push: &mut PushState) -> (say: bool)
    ensures
        say == !old(push).missing_targets_logged,
        *final(push) == (PushState { missing_targets_logged: true, ..*old(push) }),
{
    let say = !push.missing_targets_logged;
    push.missing_targets_logged = true;
    say
}

/// Says at the start that pushing is on but there is nobody to push to.
pub fn log_missing_targets_on_init(config: &PushConfig, push: &mut PushState) -> (say: bool)
    ensures
        say == (config.enabled && config.targets@.len() == 0 && !old(push).missing_targets_logged),
        say ==> *final(push) == (PushState { missing_targets_logged: true, ..*old(push) }),
        !say ==> *final(push) == *old(push),
{
    if config.enabled && config.targets.len() == 0 {
        return log_missing_targets_once(push);
    }
    false
}

/// Whether and over which window a snapshot is to be loaded for pushing.
pub fn start_push(config: &AppConfig, push: &mut PushState) -> (r: PushStart)
    ensures
        r == if !config.push.enabled {
            PushStart::Idle
        } else if config.push.targets@.len() == 0 {
            PushStart::NoTargets { say: !old(push).missing_targets_logged }
        } else {
            match config::named_window(config.status.default_window@) {
                Some(window) => PushStart::Load(window),
                None => PushStart::Idle,
            }
        },
        r is NoTargets ==> *final(push) == (PushState {
            missing_targets_logged: true,
            ..*old(push)
        }),
        !(r is NoTargets) ==> *final(push) == *old(push),
{
    if !config.push.enabled {
        return PushStart::Idle;
    }
    if config.push.targets.len() == 0 {
        return PushStart::NoTargets { say: log_missing_targets_once(push) };
    }
    match config::parse_window(config.status.default_window.as_str()) {
        Ok(window) => PushStart::Load(window),
        Err(_) => PushStart::Idle,
    }
}

/// Takes note of a snapshot and gives the report on it where it is due. Stale data is
/// an alert.
pub fn maybe_push(
    config: &AppConfig,
    push: &mut PushState,
    snapshot: &WindowSnapshot,
    health: &CollectorHealth,
    now: i64,
) -> (r: Option<PendingPush>)
    ensures
        memory(*final(push)) == after_sight(
            memory(*old(push)),
            config.push,
            fingerprint_of(models_seen(*config, *snapshot, *health)),
            has_alert(models_seen(*config, *snapshot, *health)),
        ),
        r is Some <==> is_due(
            memory(*old(push)),
            config.push,
            fingerprint_of(models_seen(*config, *snapshot, *health)),
            has_alert(models_seen(*config, *snapshot, *health)),
            now,
        ),
        r matches Some(pending) ==> pending.reports(*config, *snapshot, *health),
{
    let (fingerprint, has_alert) = health_signal(config, snapshot, health);
    if !should_send_push(push, &config.push, fingerprint.as_str(), has_alert, now) {
        return None;
    }
    match report::format_status(config, snapshot, health, None) {
        Ok(chunks) => Some(PendingPush { fingerprint, has_alert, chunks }),
        Err(_) => None,
    }
}

/// Hands a report that is due to every target, and tells what the host answered.
pub fn deliver(config: &PushConfig, pending: &PendingPush) -> (attempts: Vec<PushAttempt>)
    ensures
        attempts@.len() == deliveries(config.targets@, text::texts(pending.chunks@)).len(),
        forall|k: int|
            0 <= k < attempts@.len() ==> {
                let (target, message) = deliveries(
                    config.targets@,
                    text::texts(pending.chunks@),
                )[k];
                &&& (#[trigger] attempts@[k]).bot_id@ == target.bot_id@
                &&& attempts@[k].kind@ == target.kind@
                &&& attempts@[k].target_id@ == target.target_id@
                &&& is_answer(target, message, attempts@[k].status)
                &&& way_to(target) is Nowhere ==> attempts@[k].status
                    == SendEnqueueStatus::InvalidRequest
            },
{
    let attempts = enqueue_chunks_with(&config.targets, &pending.chunks, send_text_to_target);
    assert forall|k: int| 0 <= k < attempts@.len() implies {
        let (target, message) = deliveries(config.targets@, text::texts(pending.chunks@))[k];
        &&& (#[trigger] attempts@[k]).bot_id@ == target.bot_id@
        &&& attempts@[k].kind@ == target.kind@
        &&& attempts@[k].target_id@ == target.target_id@
        &&& is_answer(target, message, attempts@[k].status)
        &&& way_to(target) is Nowhere ==> attempts@[k].status == SendEnqueueStatus::InvalidRequest
    } by {
        assert(attempts@[k].delivers(
            deliveries(config.targets@, text::texts(pending.chunks@))[k],
            send_text_to_target,
        ));
    }
    attempts
}

// ---------------------------------------------------------------------------
// Heartbeats
// ---------------------------------------------------------------------------
/// Notes a heartbeat.
pub fn record_heartbeat(push: &mut PushState, now: i64)
    ensures
        *final(push) == (PushState { last_heartbeat_at: now, ..*old(push) }),
{
    push.last_heartbeat_at = now;
}

/// The account that an event comes from.
pub open spec fn account_of(value: Option<JsonValue>) -> Seq<char> {
    match value {
        Some(JsonValue::Text(s)) => s,
        Some(JsonValue::Number { integer: Some(n), .. }) => decimal::decimal(n as int),
        _ => Seq::empty(),
    }
}

/// The account that an event comes from.
pub fn account(value: &Option<JsonLeaf>) -> (r: String)
    ensures
        r@ == account_of(json::said(*value)),
{
    match value {
        Some(JsonLeaf::Text(s)) => s.clone(),
        Some(JsonLeaf::Number { integer: Some(n), .. }) => decimal::to_decimal(*n),
        _ => String::new(),
    }
}

/// Whether a heartbeat of the account `self_id` may push: pushing is on, and the
/// account is the chosen one where one is chosen.
pub open spec fn may_push(config: AppConfig, chosen: Seq<char>, self_id: Seq<char>) -> bool {
    config.push.enabled && (chosen.len() == 0 || chosen == self_id)
}

/// Whether there is a snapshot over the default window.
pub open spec fn is_ready(config: AppConfig, reports: ReportCache) -> bool {
    match config::named_window(config.status.default_window@) {
        Some(window) => reports.windows@.contains_key(window),
        None => false,
    }
}

/// The snapshot over the default window.
pub open spec fn ready_snapshot(config: AppConfig, reports: ReportCache) -> WindowSnapshot {
    reports.windows@[config::named_window(config.status.default_window@)->0]
}

/// Whether `after` and `r` are what a heartbeat makes of `before`.
pub open spec fn answers_heartbeat(
    config: AppConfig,
    chosen: Seq<char>,
    self_id: Seq<char>,
    before: PushState,
    after: PushState,
    reports: ReportCache,
    health: CollectorHealth,
    now: i64,
    r: Option<PendingPush>,
) -> bool {
    if may_push(config, chosen, self_id) && is_ready(config, reports) {
        let snapshot = ready_snapshot(config, reports);
        let fingerprint = fingerprint_of(models_seen(config, snapshot, health));
        let alert = has_alert(models_seen(config, snapshot, health));
        &&& memory(after) == (PushMemory {
            last_heartbeat_at: now,
            ..after_sight(memory(before), config.push, fingerprint, alert)
        })
        &&& r is Some <==> is_due(memory(before), config.push, fingerprint, alert, now)
        &&& r matches Some(pending) ==> pending.reports(config, snapshot, health)
    } else {
        after == before && r is None
    }
}

/// Takes note of a heartbeat of the account `self_id`, and gives the report on the
/// snapshot that is kept ready where it is due.
pub fn heartbeat_from(
    config: &AppConfig,
    chosen: &str,
    self_id: &str,
    push: &mut PushState,
    reports: &ReportCache,
    health: &CollectorHealth,
    now: i64,
) -> (r: Option<PendingPush>)
    ensures
        answers_heartbeat(
            *config,
            chosen@,
            self_id@,
            *old(push),
            *final(push),
            *reports,
            *health,
            now,
            r,
        ),
{
    broadcast use vstd::std_specs::hash::group_hash_axioms;

    if !config.push.enabled {
        return None;
    }
    if text::char_count(chosen) > 0 && !text::same_text(chosen, self_id) {
        return None;
    }
    let window: i64 = match config::parse_window(config.status.default_window.as_str()) {
        Ok(window) => window,
        Err(_) => {
            return None;
        },
    };
    match reports.windows.get(&window) {
        Some(snapshot) => {
            record_heartbeat(push, now);
            maybe_push(config, push, snapshot, health, now)
        },
        None => None,
    }
}

/// Takes note of a heartbeat event, and gives the report on the snapshot that is
/// kept ready where it is due.
pub fn handle_heartbeat(
    config: &AppConfig,
    chosen: &str,
    raw_event_json: &str,
    push: &mut PushState,
    reports: &ReportCache,
    health: &CollectorHealth,
    now: i64,
) -> (r: Option<PendingPush>)
    ensures
        answers_heartbeat(
            *config,
            chosen@,
            account_of(json::json_at(raw_event_json@, "/self_id"@)),
            *old(push),
            *final(push),
            *reports,
            *health,
            now,
            r,
        ),
{
    let self_id = account(&json::look_up(raw_event_json, "/self_id"));
    heartbeat_from(config, chosen, self_id.as_str(), push, reports, health, now)
}

/// Notes a push that a heartbeat brought about.
pub fn commit_heartbeat_push(push: &mut PushState, pending: PendingPush, now: i64)
    ensures
        memory(*final(push)) == (PushMemory {
            last_push_at: now,
            last_sent_fingerprint: pending.fingerprint@,
            last_sent_had_alert: pending.has_alert,
            candidate_count: 0,
            ..memory(*old(push))
        }),
{
    push.last_push_at = now;
    push.last_sent_fingerprint = pending.fingerprint;
    push.last_sent_had_alert = pending.has_alert;
    push.candidate_count = 0;
}

/// Queues a message to a group with `abi_stable_host_api::BotApi::send_group_msg`.
/// Nothing comes back.
#[verifier::external_body]
fn queue_group_message(group_id: &str, message: &str) {
    abi_stable_host_api::BotApi::send_group_msg(group_id, message)
}

/// Queues a message to a user with `abi_stable_host_api::BotApi::send_private_msg`.
/// Nothing comes back.
#[verifier::external_body]
fn queue_private_message(user_id: &str, message: &str) {
    abi_stable_host_api::BotApi::send_private_msg(user_id, message)
}

spec fn was_handed_to<F: Fn(&str, &str)>(
    queue: F,
    target_id: Seq<char>,
    message: Seq<char>,
) -> bool {
    exists|id: &str, text: &str|
        id@ == target_id && text@ == message && #[trigger] call_ensures(queue, (id, text), ())
}

/// Whether `message` was queued for the group or the user `target_id`.
pub closed spec fn was_queued(to_group: bool, target_id: Seq<char>, message: Seq<char>) -> bool {
    if to_group {
        was_handed_to(queue_group_message, target_id, message)
    } else {
        was_handed_to(queue_private_message, target_id, message)
    }
}

fn hand_to_queue<F: Fn(&str, &str)>(queue: F, target_id: &str, message: &str)
    requires
        call_requires(queue, (target_id, message)),
    ensures
        was_handed_to(queue, target_id@, message@),
{
    queue(target_id, message)
}

/// Queues a message for a group or a user.
pub(crate) fn queue_message(to_group: bool, target_id: &str, message: &str)
    ensures
        was_queued(to_group, target_id@, message@),
{
    if to_group {
        hand_to_queue(queue_group_message, target_id, message)
    } else {
        hand_to_queue(queue_private_message, target_id, message)
    }
}

/// Every message for every group, group by group.
pub open spec fn group_messages(
    groups: Seq<Seq<char>>,
    chunks: Seq<Seq<char>>,
) -> Seq<(Seq<char>, Seq<char>)>
    decreases groups.len(),
{
    if groups.len() == 0 {
        Seq::empty()
    } else {
        group_messages(groups.drop_last(), chunks) + chunks.map_values(
            |c: Seq<char>| (groups.last(), c),
        )
    }
}

/// The texts of a sequence of pairs.
pub open spec fn pairs_of(pairs: Seq<(String, String)>) -> Seq<(Seq<char>, Seq<char>)> {
    pairs.map_values(|p: (String, String)| (p.0@, p.1@))
}

/// Queues every message for every group, and tells what was queued.
pub fn send_to_groups(groups: &Vec<String>, chunks: &Vec<String>) -> (queued: Vec<
    (String, String),
>)
    ensures
        pairs_of(queued@) == group_messages(text::texts(groups@), text::texts(chunks@)),
        forall|k: int|
            0 <= k < queued@.len() ==> was_queued(true, (#[trigger] queued@[k]).0@, queued@[k].1@),
{
    let ghost all = text::texts(groups@);
    let ghost messages = text::texts(chunks@);
    let mut queued: Vec<(String, String)> = Vec::new();
    let mut i: usize = 0;
    assert(pairs_of(queued@) =~= group_messages(all.take(0), messages));
    while i < groups.len()
        invariant
            i <= groups@.len(),
            all == text::texts(groups@),
            messages == text::texts(chunks@),
            pairs_of(queued@) == group_messages(all.take(i as int), messages),
            forall|k: int|
                0 <= k < queued@.len() ==> was_queued(
                    true,
                    (#[trigger] queued@[k]).0@,
                    queued@[k].1@,
                ),
        decreases groups@.len() - i,
    {
        let ghost done = group_messages(all.take(i as int), messages);
        let ghost more = messages.map_values(|c: Seq<char>| (all[i as int], c));
        assert(all.take(i + 1).drop_last() == all.take(i as int));
        assert(all.take(i + 1).last() == all[i as int]);
        let mut j: usize = 0;
        assert(done + more.take(0) =~= done);
        while j < chunks.len()
            invariant
                i < groups@.len(),
                j <= chunks@.len(),
                all == text::texts(groups@),
                messages == text::texts(chunks@),
                more == messages.map_values(|c: Seq<char>| (all[i as int], c)),
                pairs_of(queued@) == done + more.take(j as int),
                forall|k: int|
                    0 <= k < queued@.len() ==> was_queued(
                        true,
                        (#[trigger] queued@[k]).0@,
                        queued@[k].1@,
                    ),
            decreases chunks@.len() - j,
        {
            queue_message(true, groups[i].as_str(), chunks[j].as_str());
            let ghost before = pairs_of(queued@);
            queued.push((groups[i].clone(), chunks[j].clone()));
            assert(pairs_of(queued@) =~= before.push(more[j as int]));
            assert(pairs_of(queued@) =~= done + more.take(j + 1));
            j = j + 1;
        }
        assert(more.take(j as int) =~= more);
        i = i + 1;
    }
    assert(all.take(i as int) =~= all);
    queued
}

// ---------------------------------------------------------------------------
// Laws
// ---------------------------------------------------------------------------
/// What is remembered after the same state was seen `times` times in a row.
pub open spec fn after_sights(
    push: PushMemory,
    config: PushConfig,
    fingerprint: Seq<char>,
    alert: bool,
    times: nat,
) -> PushMemory
    decreases times,
{
    if times == 0 {
        push
    } else {
        after_sight(
            after_sights(push, config, fingerprint, alert, (times - 1) as nat),
            config,
            fingerprint,
            alert,
        )
    }
}

/// Outside periodic mode a state that was not a candidate before is pushed no
/// earlier than at the configured number of sights in a row.
pub proof fn push_needs_confirmations(
    push: PushMemory,
    config: PushConfig,
    fingerprint: Seq<char>,
    alert: bool,
    times: nat,
    now: i64,
)
    requires
        config.mode@ != "periodic"@,
        push.candidate_fingerprint != fingerprint,
        times + 1 < config.confirmations,
    ensures
        !is_due(
            after_sights(push, config, fingerprint, alert, times),
            config,
            fingerprint,
            alert,
            now,
        ),
{
    sights_are_counted(push, config, fingerprint, alert, times);
}

proof fn sights_are_counted(
    push: PushMemory,
    config: PushConfig,
    fingerprint: Seq<char>,
    alert: bool,
    times: nat,
)
    requires
        config.mode@ != "periodic"@,
        push.candidate_fingerprint != fingerprint,
        times <= u32::MAX,
    ensures
        ({
            let after = after_sights(push, config, fingerprint, alert, times);
            after.candidate_fingerprint == fingerprint ==> after.candidate_count <= times
        }),
    decreases times,
{
    if times > 0 {
        sights_are_counted(push, config, fingerprint, alert, (times - 1) as nat);
    }
}

/// In anomaly mode an alert that is confirmed often enough is pushed, where it was
/// not sent already and the cooldown is over; also the first one.
pub proof fn confirmed_alert_is_pushed(
    push: PushMemory,
    config: PushConfig,
    fingerprint: Seq<char>,
    now: i64,
)
    requires
        config.mode@ == "anomaly"@,
        push.candidate_fingerprint != fingerprint,
        fingerprint != push.last_sent_fingerprint,
        has_passed(push, now, config.cooldown_secs),
        config.confirmations >= 1,
    ensures
        is_due(
            after_sights(push, config, fingerprint, true, (config.confirmations - 1) as nat),
            config,
            fingerprint,
            true,
            now,
        ),
{
    reveal_strlit("anomaly");
    reveal_strlit("periodic");
    reveal_strlit("change");
    assert("anomaly"@.len() == 7 && "periodic"@.len() == 8 && "change"@.len() == 6);
    alert_is_counted(push, config, fingerprint, (config.confirmations - 1) as nat);
}

proof fn alert_is_counted(push: PushMemory, config: PushConfig, fingerprint: Seq<char>, times: nat)
    requires
        config.mode@ == "anomaly"@,
        push.candidate_fingerprint != fingerprint,
        times < u32::MAX,
    ensures
        after_sights(push, config, fingerprint, true, times) == if times == 0 {
            push
        } else {
            PushMemory {
                candidate_fingerprint: fingerprint,
                candidate_count: times as int,
                ..push
            }
        },
    decreases times,
{
    reveal_strlit("anomaly");
    reveal_strlit("periodic");
    reveal_strlit("change");
    assert("anomaly"@.len() == 7 && "periodic"@.len() == 8 && "change"@.len() == 6);
    if times > 0 {
        alert_is_counted(push, config, fingerprint, (times - 1) as nat);
    }
}

/// What was sent is not sent again: after a push its own fingerprint is not due
/// outside periodic mode, however often it is seen.
pub proof fn sent_state_is_not_repeated(
    push: PushMemory,
    config: PushConfig,
    fingerprint: Seq<char>,
    sent_alert: bool,
    sent_at: i64,
    alert: bool,
    times: nat,
    now: i64,
)
    requires
        config.mode@ != "periodic"@,
    ensures
        !is_due(
            after_sights(
                after_push(push, fingerprint, sent_alert, sent_at),
                config,
                fingerprint,
                alert,
                times,
            ),
            config,
            fingerprint,
            alert,
            now,
        ),
{
    sent_fingerprint_stays(
        after_push(push, fingerprint, sent_alert, sent_at),
        config,
        fingerprint,
        alert,
        times,
    );
}

proof fn sent_fingerprint_stays(
    push: PushMemory,
    config: PushConfig,
    fingerprint: Seq<char>,
    alert: bool,
    times: nat,
)
    requires
        push.last_sent_fingerprint == fingerprint,
    ensures
        after_sights(push, config, fingerprint, alert, times).last_sent_fingerprint == fingerprint,
    decreases times,
{
    if times > 0 {
        sent_fingerprint_stays(push, config, fingerprint, alert, (times - 1) as nat);
    }
}

/// Between two pushes lies at least the interval in periodic mode, and at least the
/// cooldown otherwise.
pub proof fn pushes_keep_their_distance(
    push: PushMemory,
    config: PushConfig,
    fingerprint: Seq<char>,
    alert: bool,
    now: i64,
)
    requires
        is_due(push, config, fingerprint, alert, now),
        push.last_push_at >= 0,
        now >= 0,
    ensures
        config.mode@ == "periodic"@ ==> now - push.last_push_at >= config.interval_secs,
        config.mode@ != "periodic"@ ==> now - push.last_push_at >= config.cooldown_secs,
{
}

/// In anomaly mode nothing is pushed without an alert now or in what was sent last;
/// the end of an alert is pushed like an alert.
pub proof fn anomaly_mode_needs_an_alert(
    push: PushMemory,
    config: PushConfig,
    fingerprint: Seq<char>,
    alert: bool,
    now: i64,
)
    requires
        config.mode@ == "anomaly"@,
    ensures
        !alert && !push.last_sent_had_alert ==> !is_due(push, config, fingerprint, alert, now),
        push.last_sent_had_alert ==> is_due(push, config, fingerprint, false, now) == is_due(
            push,
            config,
            fingerprint,
            true,
            now,
        ),
{
    reveal_strlit("anomaly");
    reveal_strlit("periodic");
    reveal_strlit("change");
    assert("anomaly"@.len() == 7 && "periodic"@.len() == 8 && "change"@.len() == 6);
}

/// In the mode for changes the first state is taken note of and not pushed.
pub proof fn first_state_is_only_noted(
    push: PushMemory,
    config: PushConfig,
    fingerprint: Seq<char>,
    alert: bool,
    now: i64,
)
    requires
        config.mode@ == "change"@,
        push.last_sent_fingerprint.len() == 0,
    ensures
        !is_due(push, config, fingerprint, alert, now),
        after_sight(push, config, fingerprint, alert).last_sent_fingerprint == fingerprint,
{
    reveal_strlit("periodic");
    reveal_strlit("change");
    assert("periodic"@.len() == 8 && "change"@.len() == 6);
}

/// Every message goes to every target.
pub proof fn every_target_gets_every_message(
    targets: Seq<PushTarget>,
    chunks: Seq<Seq<char>>,
    i: int,
    j: int,
)
    requires
        0 <= i < targets.len(),
        0 <= j < chunks.len(),
    ensures
        deliveries(targets, chunks).len() == targets.len() * chunks.len(),
        deliveries(targets, chunks).contains((targets[i], chunks[j])),
    decreases targets.len(),
{
    deliveries_are_counted(targets, chunks);
    let rest = deliveries(targets.drop_last(), chunks);
    let last = chunks.map_values(|c: Seq<char>| (targets.last(), c));
    let all = deliveries(targets, chunks);
    if i == targets.len() - 1 {
        assert(all[rest.len() + j] == last[j]);
    } else {
        every_target_gets_every_message(targets.drop_last(), chunks, i, j);
        let k = choose|k: int| 0 <= k < rest.len() && rest[k] == (targets[i], chunks[j]);
        assert(all[k] == rest[k]);
    }
}

proof fn deliveries_are_counted(targets: Seq<PushTarget>, chunks: Seq<Seq<char>>)
    ensures
        deliveries(targets, chunks).len() == targets.len() * chunks.len(),
    decreases targets.len(),
{
    if targets.len() > 0 {
        deliveries_are_counted(targets.drop_last(), chunks);
        let n = targets.len() as int;
        let m = chunks.len() as int;
        assert((n - 1) * m + m == n * m) by (nonlinear_arith);
    }
}

/// Stale data is an alert, and its fingerprint is that of no data that is not stale, so
/// that data that becomes stale, and data that is fresh again, is a change.
pub proof fn stale_data_is_an_alert(
    config: AppConfig,
    snapshot: WindowSnapshot,
    health: CollectorHealth,
    models: Seq<ModelReport>,
)
    requires
        snapshot.models@.len() > 0,
        report::is_stale(config, snapshot.generated_at, health.last_success_at),
        models.len() > 0,
        forall|i: int| 0 <= i < models.len() ==> (#[trigger] models[i]).status
            != HealthStatus::Stale,
    ensures
        has_alert(models_seen(config, snapshot, health)),
        fingerprint_of(models_seen(config, snapshot, health)) != fingerprint_of(models),
{
    let seen = models_seen(config, snapshot, health);
    assert(is_alert(seen[0].status));
    fingerprint_ends_in_a_status(seen);
    fingerprint_ends_in_a_status(models);
    assert(models[models.len() - 1].status != HealthStatus::Stale);
    reveal_strlit("Stale");
    reveal_strlit("Normal");
    reveal_strlit("InsufficientSamples");
    reveal_strlit("NoData");
    reveal_strlit("Degraded");
    reveal_strlit("Abnormal");
}

proof fn fingerprint_ends_in_a_status(models: Seq<ModelReport>)
    requires
        models.len() > 0,
    ensures
        fingerprint_of(models).len() > 0,
        fingerprint_of(models).last() == status_name(models.last().status).last(),
{
    let marks = models.map_values(|m: ModelReport| model_mark(m));
    let name = status_name(models.last().status);
    reveal_strlit("Stale");
    reveal_strlit("Normal");
    reveal_strlit("InsufficientSamples");
    reveal_strlit("NoData");
    reveal_strlit("Degraded");
    reveal_strlit("Abnormal");
    assert(name.len() > 0);
    assert(marks.last() == models.last().model_name@ + ":"@ + name);
    assert(marks.last().last() == name.last());
    assert(text::joined(marks, "|"@).last() == marks.last().last());
}

/// A private message is handed to the call for private messages and a group message to
/// that for groups, for the bot and the receiver that the target names, and the status is
/// what that call answered.
proof fn messages_take_the_way_of_their_kind(
    target: PushTarget,
    message: Seq<char>,
    status: SendEnqueueStatus,
)
    requires
        is_answer(target, message, status),
    ensures
        target.kind@ == "private"@ ==> exists|bot: &str, id: &str, text: &str, code: i32|
            #[trigger] call_ensures(send_private, (bot, id, text), code) && bot@ == target.bot_id@
                && id@ == target.target_id@ && text@ == message && status
                == SendEnqueueStatus::of_code(code as int),
        target.kind@ == "group"@ ==> exists|bot: &str, id: &str, text: &str, code: i32|
            #[trigger] call_ensures(send_group, (bot, id, text), code) && bot@ == target.bot_id@
                && id@ == target.target_id@ && text@ == message && status
                == SendEnqueueStatus::of_code(code as int),
{
    reveal_strlit("private");
    reveal_strlit("group");
    assert("private"@.len() != "group"@.len());
}

/// A channel message is handed to the call for channels, or to that for private messages
/// in a channel, with the guild exactly where the target names one.
proof fn channel_messages_name_their_guild(
    target: PushTarget,
    message: Seq<char>,
    status: SendEnqueueStatus,
)
    requires
        is_answer(target, message, status),
        target.kind@ == "channel"@ || target.kind@ == "channel_private"@,
    ensures
        target.guild_id is None && target.kind@ == "channel"@ ==> exists|
            bot: &str,
            id: &str,
            text: &str,
            code: i32,
        |
            #[trigger] call_ensures(send_channel, (bot, id, text), code) && bot@ == target.bot_id@
                && id@ == target.target_id@ && text@ == message && status
                == SendEnqueueStatus::of_code(code as int),
        target.guild_id is None && target.kind@ == "channel_private"@ ==> exists|
            bot: &str,
            id: &str,
            text: &str,
            code: i32,
        |
            #[trigger] call_ensures(send_channel_private, (bot, id, text), code) && bot@
                == target.bot_id@ && id@ == target.target_id@ && text@ == message && status
                == SendEnqueueStatus::of_code(code as int),
        target.guild() is Some && target.kind@ == "channel"@ ==> exists|
            bot: &str,
            id: &str,
            guild: &str,
            text: &str,
            code: i32,
        |
            #[trigger] call_ensures(send_guild_channel, (bot, id, guild, text), code) && bot@
                == target.bot_id@ && id@ == target.target_id@ && guild@ == target.guild()->0
                && text@ == message && status == SendEnqueueStatus::of_code(code as int),
        target.guild() is Some && target.kind@ == "channel_private"@ ==> exists|
            bot: &str,
            id: &str,
            guild: &str,
            text: &str,
            code: i32,
        |
            #[trigger] call_ensures(send_guild_channel_private, (bot, id, guild, text), code)
                && bot@ == target.bot_id@ && id@ == target.target_id@ && guild@
                == target.guild()->0 && text@ == message && status == SendEnqueueStatus::of_code(
                code as int,
            ),
{
    reveal_strlit("private");
    reveal_strlit("group");
    reveal_strlit("channel");
    reveal_strlit("channel_private");
    assert("private"@.len() == 7 && "group"@.len() == 5 && "channel"@.len() == 7
        && "channel_private"@.len() == 15);
    assert("private"@[0] != "channel"@[0]);
}

/// A queued message was handed to the queue of groups where it is for one, and to that of
/// private messages otherwise.
proof fn queued_messages_go_to_their_queue(target_id: Seq<char>, message: Seq<char>)
    ensures
        was_queued(true, target_id, message) ==> exists|id: &str, text: &str|
            #[trigger] call_ensures(queue_group_message, (id, text), ()) && id@ == target_id
                && text@ == message,
        was_queued(false, target_id, message) ==> exists|id: &str, text: &str|
            #[trigger] call_ensures(queue_private_message, (id, text), ()) && id@ == target_id
                && text@ == message,
{
}

} // verus!
