//! When a report is pushed, to whom, and what is remembered of it.
use vstd::prelude::*;
use vstd::string::*;

use crate::config;
use crate::config::{AppConfig, PushConfig, PushTarget};
use crate::json::JsonValue;
use crate::metrics::{HealthStatus, ModelReport, WindowSnapshot};
use crate::push::{PendingPush, PushAttempt, PushMemory, PushStart, SendEnqueueStatus, Way};
use crate::report;
use crate::state::{CollectorHealth, PushState, ReportCache};
use crate::text;

verus! {

// ---------------------------------------------------------------------------
// When
// ---------------------------------------------------------------------------
/// How often a state was seen in a row, this time included, counted up to `u32::MAX`.
pub open spec fn times_seen(push: PushMemory, fingerprint: Seq<char>) -> int {
    if push.candidate_fingerprint != fingerprint {
        1
    } else if push.candidate_count >= u32::MAX {
        u32::MAX as int
    } else {
        push.candidate_count + 1
    }
}

/// In change mode a state is due exactly if a state was noted before, this one differs
/// from it, it was seen often enough in a row, and the cooldown is over. Whether it is an
/// alert, or the last one was, does not matter.
pub proof fn changes_are_pushed(
    push: PushMemory,
    config: PushConfig,
    fingerprint: Seq<char>,
    alert: bool,
    now: i64,
)
    requires
        config.mode@ == "change"@,
        i64::MIN <= now - push.last_push_at <= i64::MAX,
    ensures
        crate::push::is_due(push, config, fingerprint, alert, now) <==> {
            &&& push.last_sent_fingerprint.len() > 0
            &&& push.last_sent_fingerprint != fingerprint
            &&& times_seen(push, fingerprint) >= config.confirmations
            &&& now - push.last_push_at >= config.cooldown_secs
        },
        crate::push::is_due(push, config, fingerprint, alert, now) == crate::push::is_due(
            PushMemory { last_sent_had_alert: !push.last_sent_had_alert, ..push },
            config,
            fingerprint,
            !alert,
            now,
        ),
{
    reveal_strlit("change");
    reveal_strlit("periodic");
    assert("change"@.len() != "periodic"@.len());
}

/// In anomaly mode a state is due exactly if it is an alert or follows one, differs from
/// the one sent last, was seen often enough in a row, and the cooldown is over.
pub proof fn anomalies_and_recoveries_are_pushed(
    push: PushMemory,
    config: PushConfig,
    fingerprint: Seq<char>,
    alert: bool,
    now: i64,
)
    requires
        config.mode@ == "anomaly"@,
        i64::MIN <= now - push.last_push_at <= i64::MAX,
    ensures
        crate::push::is_due(push, config, fingerprint, alert, now) <==> {
            &&& alert || push.last_sent_had_alert
            &&& push.last_sent_fingerprint != fingerprint
            &&& times_seen(push, fingerprint) >= config.confirmations
            &&& now - push.last_push_at >= config.cooldown_secs
        },
{
    reveal_strlit("change");
    reveal_strlit("periodic");
    reveal_strlit("anomaly");
    assert("anomaly"@.len() != "periodic"@.len());
    assert("anomaly"@.len() != "change"@.len());
}

/// In periodic mode a report is due exactly if the interval is over, whatever it says,
/// and seeing a state leaves nothing behind.
pub proof fn periods_are_kept(
    push: PushMemory,
    config: PushConfig,
    fingerprint: Seq<char>,
    alert: bool,
    now: i64,
)
    requires
        config.mode@ == "periodic"@,
        i64::MIN <= now - push.last_push_at <= i64::MAX,
    ensures
        crate::push::is_due(push, config, fingerprint, alert, now) <==> now - push.last_push_at
            >= config.interval_secs,
        crate::push::after_sight(push, config, fingerprint, alert) == push,
{
}

/// Outside periodic mode, seeing a state counts it, and a state other than the one seen
/// before starts anew. In change mode the very first state is noted as if it had been
/// sent, and not counted. Neither touches the time of the last push.
pub proof fn sights_are_remembered(
    push: PushMemory,
    config: PushConfig,
    fingerprint: Seq<char>,
    alert: bool,
)
    requires
        config.mode@ == "change"@ || config.mode@ == "anomaly"@,
    ensures
        ({
            let after = crate::push::after_sight(push, config, fingerprint, alert);
            let first = config.mode@ == "change"@ && push.last_sent_fingerprint.len() == 0;
            &&& after.last_push_at == push.last_push_at
            &&& after.last_heartbeat_at == push.last_heartbeat_at
            &&& after.missing_targets_logged == push.missing_targets_logged
            &&& first ==> after.last_sent_fingerprint == fingerprint && after.last_sent_had_alert
                == alert && after.candidate_fingerprint == push.candidate_fingerprint
                && after.candidate_count == push.candidate_count
            &&& !first ==> after.last_sent_fingerprint == push.last_sent_fingerprint
                && after.last_sent_had_alert == push.last_sent_had_alert
                && after.candidate_fingerprint == fingerprint && after.candidate_count
                == times_seen(push, fingerprint)
        }),
{
    reveal_strlit("change");
    reveal_strlit("periodic");
    reveal_strlit("anomaly");
    assert("anomaly"@.len() != "periodic"@.len());
    assert("anomaly"@.len() != "change"@.len());
    assert("change"@.len() != "periodic"@.len());
}

/// A push is remembered with its state and its time, and counting starts anew: the same
/// state is not due again, and another one only after it was seen often enough.
pub proof fn pushes_are_remembered(
    push: PushMemory,
    fingerprint: Seq<char>,
    alert: bool,
    now: i64,
)
    ensures
        ({
            let after = crate::push::after_push(push, fingerprint, alert, now);
            &&& after.last_push_at == now
            &&& after.last_sent_fingerprint == fingerprint
            &&& after.last_sent_had_alert == alert
            &&& after.candidate_count == 0
            &&& after.candidate_fingerprint.len() == 0
            &&& after.last_heartbeat_at == push.last_heartbeat_at
            &&& after.missing_targets_logged == push.missing_targets_logged
        }),
{
}

// ---------------------------------------------------------------------------
// What
// ---------------------------------------------------------------------------
/// A list of models is an alert exactly if one of them is abnormal, fluctuates or has
/// stale data; models that are normal, without requests or with too few are none.
pub proof fn alerts_are_bad_states(models: Seq<ModelReport>, i: int)
    ensures
        0 <= i < models.len() && (models[i].status == HealthStatus::Abnormal || models[i].status
            == HealthStatus::Degraded || models[i].status == HealthStatus::Stale)
            ==> crate::push::has_alert(models),
        (forall|j: int|
            0 <= j < models.len() ==> (#[trigger] models[j]).status == HealthStatus::Normal
                || models[j].status == HealthStatus::NoData || models[j].status
                == HealthStatus::InsufficientSamples) ==> !crate::push::has_alert(models),
{
}

/// Data is stale exactly if there was no successful round or the last one was longer ago
/// than allowed; then every model is seen as stale, and otherwise each as reported.
pub proof fn models_are_seen_as_they_are(
    config: AppConfig,
    snapshot: WindowSnapshot,
    health: CollectorHealth,
    i: int,
)
    requires
        i64::MIN <= snapshot.generated_at - health.last_success_at <= i64::MAX,
        0 <= i < snapshot.models@.len(),
    ensures
        ({
            let seen = crate::push::models_seen(config, snapshot, health);
            let stale = health.last_success_at == 0 || snapshot.generated_at
                > health.last_success_at + config.status.stale_after_secs;
            &&& seen.len() == snapshot.models@.len()
            &&& seen[i].model_name == snapshot.models@[i].model_name
            &&& stale ==> seen[i].status == HealthStatus::Stale
            &&& !stale ==> seen[i].status == snapshot.models@[i].status
        }),
{
}

/// Two lists of the same models leave the same mark exactly if every model has the same
/// status in both.
pub proof fn marks_tell_states_apart(a: Seq<ModelReport>, b: Seq<ModelReport>)
    requires
        a.len() == b.len(),
        forall|i: int|
            0 <= i < a.len() ==> (#[trigger] a[i]).model_name@ == (#[trigger] b[i]).model_name@,
    ensures
        crate::push::fingerprint_of(a) == crate::push::fingerprint_of(b) <==> forall|i: int|
            0 <= i < a.len() ==> (#[trigger] a[i]).status == (#[trigger] b[i]).status,
{
    let ma = a.map_values(|m: ModelReport| crate::push::model_mark(m));
    let mb = b.map_values(|m: ModelReport| crate::push::model_mark(m));
    if forall|i: int| 0 <= i < a.len() ==> (#[trigger] a[i]).status == (#[trigger] b[i]).status {
        assert forall|i: int| 0 <= i < a.len() implies ma[i] == mb[i] by {
            assert(a[i].status == b[i].status);
            assert(a[i].model_name@ == b[i].model_name@);
        }
        assert(ma =~= mb);
    } else {
        let i = choose|i: int|
            0 <= i < a.len() && (#[trigger] a[i]).status != (#[trigger] b[i]).status;
        assert(a[i].status != b[i].status);
        marks_differ(a, b, i);
    }
}

proof fn joined_from_the_front(parts: Seq<Seq<char>>, separator: Seq<char>)
    requires
        parts.len() >= 2,
    ensures
        text::joined(parts, separator) == parts[0] + separator + text::joined(
            parts.drop_first(),
            separator,
        ),
    decreases parts.len(),
{
    reveal_with_fuel(text::joined, 3);
    if parts.len() > 2 {
        joined_from_the_front(parts.drop_last(), separator);
        assert(parts.drop_last().drop_first() =~= parts.drop_first().drop_last());
        assert(text::joined(parts, separator) =~= parts[0] + separator + text::joined(
            parts.drop_first(),
            separator,
        ));
    } else {
        assert(parts.drop_last() =~= seq![parts[0]]);
        assert(parts.drop_first() =~= seq![parts[1]]);
    }
}

proof fn status_names_part_early(a: HealthStatus, b: HealthStatus)
    requires
        a != b,
    ensures
        exists|k: int|
            0 <= k < crate::push::status_name(a).len() && k < crate::push::status_name(b).len()
                && #[trigger] crate::push::status_name(a)[k] != crate::push::status_name(b)[k],
{
    reveal_strlit("Normal");
    reveal_strlit("InsufficientSamples");
    reveal_strlit("NoData");
    reveal_strlit("Degraded");
    reveal_strlit("Abnormal");
    reveal_strlit("Stale");
    let x = crate::push::status_name(a);
    let y = crate::push::status_name(b);
    if x[0] == y[0] {
        assert(x[2] != y[2]);
    } else {
        assert(x[0] != y[0]);
    }
}

proof fn marks_differ(a: Seq<ModelReport>, b: Seq<ModelReport>, i: int)
    requires
        a.len() == b.len(),
        forall|i: int|
            0 <= i < a.len() ==> (#[trigger] a[i]).model_name@ == (#[trigger] b[i]).model_name@,
        0 <= i < a.len(),
        a[i].status != b[i].status,
    ensures
        crate::push::fingerprint_of(a) != crate::push::fingerprint_of(b),
    decreases a.len(),
{
    let ma = a.map_values(|m: ModelReport| crate::push::model_mark(m));
    let mb = b.map_values(|m: ModelReport| crate::push::model_mark(m));
    let fa = text::joined(ma, "|"@);
    let fb = text::joined(mb, "|"@);
    let name = a[0].model_name@ + ":"@;
    assert(b[0].model_name@ == a[0].model_name@);
    let sa = crate::push::status_name(a[0].status);
    let sb = crate::push::status_name(b[0].status);
    if a.len() >= 2 {
        joined_from_the_front(ma, "|"@);
        joined_from_the_front(mb, "|"@);
    }
    assert(ma[0] == name + sa && mb[0] == name + sb);
    if a[0].status != b[0].status {
        status_names_part_early(a[0].status, b[0].status);
        let k = choose|k: int|
            0 <= k < sa.len() && k < sb.len() && #[trigger] sa[k] != sb[k];
        let n = name.len();
        assert(ma[0][n + k] == sa[k] && mb[0][n + k] == sb[k]);
        assert(fa[n + k] == sa[k]);
        assert(fb[n + k] == sb[k]);
    } else {
        let ra = a.drop_first();
        let rb = b.drop_first();
        assert(i >= 1);
        assert forall|j: int| 0 <= j < ra.len() implies (#[trigger] ra[j]).model_name@ == (
        #[trigger] rb[j]).model_name@ by {
            assert(a[j + 1].model_name@ == b[j + 1].model_name@);
        }
        marks_differ(ra, rb, i - 1);
        assert(ma.drop_first() =~= ra.map_values(|m: ModelReport| crate::push::model_mark(m)));
        assert(mb.drop_first() =~= rb.map_values(|m: ModelReport| crate::push::model_mark(m)));
        let head = ma[0] + "|"@;
        let ta = text::joined(ma.drop_first(), "|"@);
        let tb = text::joined(mb.drop_first(), "|"@);
        if fa == fb {
            assert(fa.skip(head.len() as int) =~= ta);
            assert(fb.skip(head.len() as int) =~= tb);
        }
    }
}

// ---------------------------------------------------------------------------
// On a heartbeat
// ---------------------------------------------------------------------------
/// A heartbeat is answered only where pushing is enabled, for the chosen account where
/// one is chosen, and when the report for the standard window is there. Otherwise
/// nothing changes.
pub proof fn heartbeats_of_others_are_ignored(
    config: AppConfig,
    chosen: Seq<char>,
    self_id: Seq<char>,
    before: PushState,
    after: PushState,
    reports: ReportCache,
    health: CollectorHealth,
    now: i64,
    r: Option<PendingPush>,
)
    requires
        crate::push::answers_heartbeat(
            config,
            chosen,
            self_id,
            before,
            after,
            reports,
            health,
            now,
            r,
        ),
        !config.push.enabled || (chosen.len() > 0 && chosen != self_id) || (config::named_window(
            config.status.default_window@,
        ) is None) || !reports.windows@.contains_key(
            config::named_window(config.status.default_window@)->0,
        ),
    ensures
        after == before,
        r is None,
{
}

/// A heartbeat that is answered is noted with its time, and a report is handed out
/// exactly if its state is due; the report is that of the standard window, and its state
/// the one that decided.
pub proof fn heartbeats_hand_out_due_reports(
    config: AppConfig,
    chosen: Seq<char>,
    self_id: Seq<char>,
    before: PushState,
    after: PushState,
    reports: ReportCache,
    health: CollectorHealth,
    now: i64,
    r: Option<PendingPush>,
    window: i64,
)
    requires
        crate::push::answers_heartbeat(
            config,
            chosen,
            self_id,
            before,
            after,
            reports,
            health,
            now,
            r,
        ),
        config.push.enabled,
        chosen.len() == 0 || chosen == self_id,
        config::named_window(config.status.default_window@) == Some(window),
        reports.windows@.contains_key(window),
    ensures
        ({
            let seen = crate::push::models_seen(config, reports.windows@[window], health);
            let fingerprint = crate::push::fingerprint_of(seen);
            let alert = crate::push::has_alert(seen);
            &&& after.last_heartbeat_at == now
            &&& after.last_push_at == crate::push::after_sight(
                crate::push::memory(before),
                config.push,
                fingerprint,
                alert,
            ).last_push_at
            &&& r is Some <==> crate::push::is_due(
                crate::push::memory(before),
                config.push,
                fingerprint,
                alert,
                now,
            )
            &&& r is Some ==> r->0.fingerprint@ == fingerprint && r->0.has_alert == alert
        }),
{
}

// ---------------------------------------------------------------------------
// To whom
// ---------------------------------------------------------------------------
/// Messages go out target by target, each target's in their order.
pub proof fn messages_go_out_in_order(
    targets: Seq<PushTarget>,
    chunks: Seq<Seq<char>>,
    i: int,
    j: int,
)
    requires
        0 <= i < targets.len(),
        0 <= j < chunks.len(),
    ensures
        crate::push::deliveries(targets, chunks).len() == targets.len() * chunks.len(),
        0 <= i * chunks.len() + j < targets.len() * chunks.len(),
        crate::push::deliveries(targets, chunks)[i * chunks.len() + j] == (targets[i], chunks[j]),
    decreases targets.len(),
{
    let n = chunks.len();
    let rest = targets.drop_last();
    let k = targets.len() - 1;
    assert(targets.len() * n == k * n + n) by (nonlinear_arith)
        requires
            k == targets.len() - 1,
    ;
    deliveries_are_as_many(rest, chunks);
    if i < k {
        messages_go_out_in_order(rest, chunks, i, j);
        assert(i * n + j < k * n);
    } else {
        assert(i * n == k * n);
    }
    assert(0 <= i * n) by (nonlinear_arith)
        requires
            i >= 0,
    ;
}

proof fn deliveries_are_as_many(targets: Seq<PushTarget>, chunks: Seq<Seq<char>>)
    ensures
        crate::push::deliveries(targets, chunks).len() == targets.len() * chunks.len(),
    decreases targets.len(),
{
    if targets.len() > 0 {
        deliveries_are_as_many(targets.drop_last(), chunks);
        let k = targets.len() - 1;
        assert(targets.len() * chunks.len() == k * chunks.len() + chunks.len()) by (nonlinear_arith)
            requires
                k == targets.len() - 1,
        ;
    } else {
        assert(0 * chunks.len() == 0);
    }
}

/// A group message goes to each group in turn, chunk by chunk.
pub proof fn group_messages_go_out_in_order(
    groups: Seq<Seq<char>>,
    chunks: Seq<Seq<char>>,
    i: int,
    j: int,
)
    requires
        0 <= i < groups.len(),
        0 <= j < chunks.len(),
    ensures
        crate::push::group_messages(groups, chunks).len() == groups.len() * chunks.len(),
        0 <= i * chunks.len() + j < groups.len() * chunks.len(),
        crate::push::group_messages(groups, chunks)[i * chunks.len() + j] == (groups[i], chunks[j]),
    decreases groups.len(),
{
    let n = chunks.len();
    let rest = groups.drop_last();
    let k = groups.len() - 1;
    assert(groups.len() * n == k * n + n) by (nonlinear_arith)
        requires
            k == groups.len() - 1,
    ;
    group_messages_are_as_many(rest, chunks);
    if i < k {
        group_messages_go_out_in_order(rest, chunks, i, j);
        assert(i * n + j < k * n);
    } else {
        assert(i * n == k * n);
    }
    assert(0 <= i * n) by (nonlinear_arith)
        requires
            i >= 0,
    ;
}

proof fn group_messages_are_as_many(groups: Seq<Seq<char>>, chunks: Seq<Seq<char>>)
    ensures
        crate::push::group_messages(groups, chunks).len() == groups.len() * chunks.len(),
    decreases groups.len(),
{
    if groups.len() > 0 {
        group_messages_are_as_many(groups.drop_last(), chunks);
        let k = groups.len() - 1;
        assert(groups.len() * chunks.len() == k * chunks.len() + chunks.len()) by (nonlinear_arith)
            requires
                k == groups.len() - 1,
        ;
    } else {
        assert(0 * chunks.len() == 0);
    }
}

/// A target is reached in the way that its kind names; a channel within its guild where
/// one is given. Other kinds lead nowhere.
pub proof fn kinds_name_the_way(target: PushTarget)
    ensures
        target.kind@ == "private"@ <==> crate::push::way_to(target) == Way::Private,
        target.kind@ == "group"@ <==> crate::push::way_to(target) == Way::Group,
        target.kind@ == "channel"@ <==> crate::push::way_to(target) is Channel,
        target.kind@ == "channel_private"@ <==> crate::push::way_to(target) is ChannelPrivate,
        target.guild_id is None && target.kind@ == "channel"@ ==> crate::push::way_to(target)
            == Way::Channel(None),
        target.guild_id is None && target.kind@ == "channel_private"@ ==> crate::push::way_to(
            target,
        ) == Way::ChannelPrivate(None),
        target.guild_id is Some && target.guild_id->0@.len() > 0 && !text::white_space(
            target.guild_id->0@.first(),
        ) && !text::white_space(target.guild_id->0@.last()) ==> {
            &&& target.kind@ == "channel"@ ==> crate::push::way_to(target) == Way::Channel(
                Some(target.guild_id->0@),
            )
            &&& target.kind@ == "channel_private"@ ==> crate::push::way_to(target)
                == Way::ChannelPrivate(Some(target.guild_id->0@))
        },
{
    reveal_strlit("private");
    reveal_strlit("group");
    reveal_strlit("channel");
    reveal_strlit("channel_private");
    assert("private"@.len() == 7 && "group"@.len() == 5 && "channel"@.len() == 7
        && "channel_private"@.len() == 15);
    assert("private"@[0] != "channel"@[0]);
    if target.guild_id is Some {
        let id = target.guild_id->0@;
        if id.len() > 0 && !text::white_space(id.first()) && !text::white_space(id.last()) {
            assert(!text::white_space(id[0]));
            assert(text::trimmed(id) == id);
        }
    }
}

/// What the host's answers mean: 0 is accepted, 2 a bad request, 3 and 4 a bot that is
/// not there or is disabled, 5 a full queue, 6 a host that shuts down, and anything else
/// a host that cannot be reached. Nothing but 0 is accepted.
pub proof fn answers_have_meanings(code: int)
    ensures
        SendEnqueueStatus::of_code(code) == SendEnqueueStatus::Accepted <==> code == 0,
        SendEnqueueStatus::of_code(code) == SendEnqueueStatus::InvalidRequest <==> code == 2,
        SendEnqueueStatus::of_code(code) == SendEnqueueStatus::BotNotFound <==> code == 3,
        SendEnqueueStatus::of_code(code) == SendEnqueueStatus::BotDisabled <==> code == 4,
        SendEnqueueStatus::of_code(code) == SendEnqueueStatus::QueueFull <==> code == 5,
        SendEnqueueStatus::of_code(code) == SendEnqueueStatus::HostShuttingDown <==> code == 6,
        SendEnqueueStatus::of_code(code) == SendEnqueueStatus::HostUnavailable <==> code == 1
            || code < 0 || code > 6,
{
}

/// A push counts as sent as soon as one message of it was accepted, and only then.
pub proof fn one_accepted_message_is_enough(attempts: Seq<PushAttempt>, i: int)
    ensures
        0 <= i < attempts.len() && attempts[i].status == SendEnqueueStatus::Accepted
            ==> crate::push::any_accepted(attempts),
        (forall|j: int|
            0 <= j < attempts.len() ==> (#[trigger] attempts[j]).status
                != SendEnqueueStatus::Accepted) ==> !crate::push::any_accepted(attempts),
{
}

/// The account of an event is its text, or its number in digits; other values name none.
pub proof fn accounts_are_texts_or_numbers(s: Seq<char>, n: i64, value: JsonValue)
    ensures
        crate::push::account_of(Some(JsonValue::Text(s))) == s,
        value matches JsonValue::Number { integer, .. } ==> integer == Some(n)
            ==> crate::push::account_of(Some(value)) == crate::decimal::decimal(n as int),
        crate::push::account_of(None).len() == 0,
        value is Null || value is Bool || value is Array || value is Object
            ==> crate::push::account_of(Some(value)).len() == 0,
        value matches JsonValue::Number { integer, .. } ==> integer is None
            ==> crate::push::account_of(Some(value)).len() == 0,
{
}

/// A pushed report is word for word the status report on all models.
pub proof fn pushed_reports_are_status_reports(
    config: AppConfig,
    snapshot: WindowSnapshot,
    health: CollectorHealth,
    pending: PendingPush,
    r: Result<Vec<String>, String>,
)
    requires
        pending.reports(config, snapshot, health),
        call_ensures(report::format_status, (&config, &snapshot, &health, None), r),
    ensures
        r is Ok,
        text::texts(pending.chunks@) == text::texts(r->Ok_0@),
{
}

/// A blank guild is as good as none.
pub proof fn blank_guilds_are_none(target: PushTarget)
    requires
        target.guild_id is Some,
        forall|i: int|
            0 <= i < target.guild_id->0@.len() ==> text::white_space(
                #[trigger] target.guild_id->0@[i],
            ),
    ensures
        target.kind@ == "channel"@ ==> crate::push::way_to(target) == Way::Channel(None),
        target.kind@ == "channel_private"@ ==> crate::push::way_to(target) == Way::ChannelPrivate(
            None,
        ),
{
    kinds_name_the_way(target);
}

// ---------------------------------------------------------------------------
// The operations themselves
// ---------------------------------------------------------------------------
/// Asked in change mode, a state other than the one noted before is pushed as soon as it
/// was seen often enough and the cooldown is over, be it an alert or not and whatever the
/// last one was; before that, and the same state again, it is not.
pub proof fn asked_for_changes(
    push: &mut PushState,
    config: PushConfig,
    fingerprint: &str,
    alert: bool,
    now: i64,
    due: bool,
)
    requires
        call_ensures(
            crate::push::should_send_push,
            (push, &config, fingerprint, alert, now),
            due,
        ),
        config.mode@ == "change"@,
        i64::MIN <= now - old(push).last_push_at <= i64::MAX,
    ensures
        ({
            let before = crate::push::memory(*old(push));
            let after = *final(push);
            &&& due <==> before.last_sent_fingerprint.len() > 0 && fingerprint@
                != before.last_sent_fingerprint && times_seen(before, fingerprint@)
                >= config.confirmations && now - before.last_push_at >= config.cooldown_secs
            &&& before.last_sent_fingerprint.len() == 0 ==> after.last_sent_fingerprint@
                == fingerprint@ && after.last_sent_had_alert == alert
            &&& before.last_sent_fingerprint.len() > 0 ==> after.last_sent_fingerprint@
                == before.last_sent_fingerprint && after.candidate_fingerprint@ == fingerprint@
                && after.candidate_count == times_seen(before, fingerprint@)
            &&& after.last_push_at == before.last_push_at
        }),
{
    let before = crate::push::memory(*old(push));
    changes_are_pushed(before, config, fingerprint@, alert, now);
    sights_are_remembered(before, config, fingerprint@, alert);
    let after = crate::push::memory(*final(push));
    assert(after == crate::push::after_sight(before, config, fingerprint@, alert));
}

/// Asked in anomaly mode, only an alert or the end of one is pushed; asked in periodic
/// mode, whatever is there as soon as the interval is over.
pub proof fn asked_for_anomalies_or_periods(
    push: &mut PushState,
    config: PushConfig,
    fingerprint: &str,
    alert: bool,
    now: i64,
    due: bool,
)
    requires
        call_ensures(
            crate::push::should_send_push,
            (push, &config, fingerprint, alert, now),
            due,
        ),
        i64::MIN <= now - old(push).last_push_at <= i64::MAX,
    ensures
        ({
            let before = crate::push::memory(*old(push));
            &&& config.mode@ == "anomaly"@ ==> (due <==> (alert || before.last_sent_had_alert)
                && fingerprint@ != before.last_sent_fingerprint && times_seen(before, fingerprint@)
                >= config.confirmations && now - before.last_push_at >= config.cooldown_secs)
            &&& config.mode@ == "periodic"@ ==> (due <==> now - before.last_push_at
                >= config.interval_secs)
        }),
{
    let before = crate::push::memory(*old(push));
    if config.mode@ == "anomaly"@ {
        anomalies_and_recoveries_are_pushed(before, config, fingerprint@, alert, now);
    }
    if config.mode@ == "periodic"@ {
        periods_are_kept(before, config, fingerprint@, alert, now);
    }
}

/// A push is committed exactly if one of its messages was accepted: with its state, its
/// time and a new count. Otherwise nothing changes, so that it is tried again.
pub proof fn accepted_pushes_are_committed(
    push: &mut PushState,
    fingerprint: String,
    alert: bool,
    now: i64,
    attempts: Vec<PushAttempt>,
    accepted: bool,
)
    requires
        call_ensures(
            crate::push::commit_if_any_accepted,
            (push, fingerprint, alert, now, &attempts),
            accepted,
        ),
    ensures
        accepted <==> exists|i: int|
            0 <= i < attempts@.len() && (#[trigger] attempts@[i]).status
                == SendEnqueueStatus::Accepted,
        accepted ==> {
            let after = *final(push);
            &&& after.last_push_at == now
            &&& after.last_sent_fingerprint@ == fingerprint@
            &&& after.last_sent_had_alert == alert
            &&& after.candidate_count == 0
            &&& after.last_heartbeat_at == old(push).last_heartbeat_at
        },
        !accepted ==> *final(push) == *old(push),
{
    let after = crate::push::memory(*final(push));
    if accepted {
        assert(after == crate::push::after_push(
            crate::push::memory(*old(push)),
            fingerprint@,
            alert,
            now,
        ));
    }
}

/// A report that was handed out on a heartbeat is committed with its state and its time.
pub proof fn handed_out_reports_are_committed(
    push: &mut PushState,
    pending: PendingPush,
    now: i64,
)
    requires
        call_ensures(crate::push::commit_heartbeat_push, (push, pending, now), ()),
    ensures
        final(push).last_push_at == now,
        final(push).last_sent_fingerprint@ == pending.fingerprint@,
        final(push).last_sent_had_alert == pending.has_alert,
        final(push).candidate_count == 0,
        final(push).last_heartbeat_at == old(push).last_heartbeat_at,
        final(push).missing_targets_logged == old(push).missing_targets_logged,
{
    let after = crate::push::memory(*final(push));
    assert(after.last_push_at == now);
}

/// That there is nobody to push to is said once: at the start where pushing is enabled,
/// or else when there would be something to push.
pub proof fn missing_targets_are_said_once(
    config: AppConfig,
    push: &mut PushState,
    r: PushStart,
    window: i64,
)
    requires
        call_ensures(crate::push::start_push, (&config, push), r),
        config::named_window(config.status.default_window@) == Some(window),
    ensures
        !config.push.enabled ==> r is Idle && *final(push) == *old(push),
        config.push.enabled && config.push.targets@.len() > 0 ==> r == PushStart::Load(window)
            && *final(push) == *old(push),
        config.push.enabled && config.push.targets@.len() == 0 ==> r == (PushStart::NoTargets {
            say: !old(push).missing_targets_logged,
        }) && final(push).missing_targets_logged,
{
}

/// The same when the plugin starts.
pub proof fn missing_targets_are_said_at_the_start(
    config: PushConfig,
    push: &mut PushState,
    say: bool,
)
    requires
        call_ensures(crate::push::log_missing_targets_on_init, (&config, push), say),
    ensures
        say <==> config.enabled && config.targets@.len() == 0 && !old(push).missing_targets_logged,
        say ==> final(push).missing_targets_logged,
        final(push).last_push_at == old(push).last_push_at,
        final(push).last_heartbeat_at == old(push).last_heartbeat_at,
{
}

/// A heartbeat is noted with its time and touches nothing else.
pub proof fn heartbeats_are_noted(push: &mut PushState, now: i64)
    requires
        call_ensures(crate::push::record_heartbeat, (push, now), ()),
    ensures
        final(push).last_heartbeat_at == now,
        final(push).last_push_at == old(push).last_push_at,
        final(push).last_sent_fingerprint == old(push).last_sent_fingerprint,
        final(push).candidate_count == old(push).candidate_count,
{
}

/// A state is an alert exactly if one of its models is in a bad state, or the data is
/// stale and there are models.
pub proof fn signals_tell_bad_states(
    config: AppConfig,
    snapshot: WindowSnapshot,
    health: CollectorHealth,
    r: (String, bool),
)
    requires
        call_ensures(crate::push::health_signal, (&config, &snapshot, &health), r),
        i64::MIN <= snapshot.generated_at - health.last_success_at <= i64::MAX,
    ensures
        ({
            let stale = health.last_success_at == 0 || snapshot.generated_at
                - health.last_success_at > config.status.stale_after_secs;
            &&& stale ==> (r.1 <==> snapshot.models@.len() > 0)
            &&& !stale ==> (r.1 <==> exists|i: int|
                0 <= i < snapshot.models@.len() && ((#[trigger] snapshot.models@[i]).status
                    == HealthStatus::Abnormal || snapshot.models@[i].status
                    == HealthStatus::Degraded || snapshot.models@[i].status == HealthStatus::Stale))
        }),
{
    let seen = crate::push::models_seen(config, snapshot, health);
    let stale = health.last_success_at == 0 || snapshot.generated_at - health.last_success_at
        > config.status.stale_after_secs;
    let models = snapshot.models@;
    assert(seen.len() == models.len());
    assert forall|i: int| 0 <= i < seen.len() implies (#[trigger] seen[i]).status == (if stale {
        HealthStatus::Stale
    } else {
        models[i].status
    }) by {
        models_are_seen_as_they_are(config, snapshot, health, i);
    }
    if stale && models.len() > 0 {
        assert(crate::push::is_alert(seen[0].status));
    }
    if !stale {
        if crate::push::has_alert(seen) {
            let i = choose|i: int|
                0 <= i < seen.len() && crate::push::is_alert((#[trigger] seen[i]).status);
            assert(models[i].status == seen[i].status);
        }
        if exists|i: int|
            0 <= i < models.len() && ((#[trigger] models[i]).status == HealthStatus::Abnormal
                || models[i].status == HealthStatus::Degraded || models[i].status
                == HealthStatus::Stale) {
            let i = choose|i: int|
                0 <= i < models.len() && ((#[trigger] models[i]).status == HealthStatus::Abnormal
                    || models[i].status == HealthStatus::Degraded || models[i].status
                    == HealthStatus::Stale);
            assert(crate::push::is_alert(seen[i].status));
        }
    }
}

/// Every target is sent every message, and the account of it names the target.
pub proof fn attempts_name_their_target(
    config: PushConfig,
    pending: PendingPush,
    attempts: Vec<PushAttempt>,
    i: int,
    j: int,
)
    requires
        call_ensures(crate::push::deliver, (&config, &pending), attempts),
        0 <= i < config.targets@.len(),
        0 <= j < pending.chunks@.len(),
    ensures
        attempts@.len() == config.targets@.len() * pending.chunks@.len(),
        0 <= i * pending.chunks@.len() + j < attempts@.len(),
        ({
            let attempt = attempts@[i * pending.chunks@.len() + j];
            let target = config.targets@[i];
            &&& attempt.bot_id@ == target.bot_id@
            &&& attempt.kind@ == target.kind@
            &&& attempt.target_id@ == target.target_id@
            &&& crate::push::is_answer(target, pending.chunks@[j]@, attempt.status)
        }),
{
    let chunks = text::texts(pending.chunks@);
    messages_go_out_in_order(config.targets@, chunks, i, j);
    let k = i * pending.chunks@.len() + j;
    assert(chunks[j] == pending.chunks@[j]@);
    assert(crate::push::deliveries(config.targets@, chunks)[k] == (config.targets@[i], chunks[j]));
    assert(attempts@[k].bot_id@ == config.targets@[i].bot_id@);
}

/// A heartbeat of an account other than the chosen one is ignored, whatever it says.
pub proof fn heartbeats_of_other_accounts_are_ignored(
    config: AppConfig,
    chosen: &str,
    event: &str,
    push: &mut PushState,
    reports: ReportCache,
    health: CollectorHealth,
    now: i64,
    r: Option<PendingPush>,
    account: Seq<char>,
)
    requires
        call_ensures(
            crate::push::handle_heartbeat,
            (&config, chosen, event, push, &reports, &health, now),
            r,
        ),
        crate::json::json_at(event@, "/self_id"@) == Some(JsonValue::Text(account)),
        chosen@.len() > 0,
        chosen@ != account,
    ensures
        r is None,
        *final(push) == *old(push),
{
}

/// A guild is what the target names, without the white space around it, and none where
/// it says nothing.
pub proof fn guilds_are_trimmed(target: PushTarget, r: Option<String>)
    requires
        call_ensures(PushTarget::guild_id, (&target,), r),
    ensures
        r is Some <==> target.guild_id is Some && crate::sampling::says_something(
            target.guild_id->0@,
        ),
        r is Some ==> r->0@ == text::trimmed(target.guild_id->0@),
{
}

/// That there is nobody to push to is said the first time only.
pub proof fn missing_targets_are_said_the_first_time(push: &mut PushState, say: bool)
    requires
        call_ensures(crate::push::log_missing_targets_once, (push,), say),
    ensures
        say <==> !old(push).missing_targets_logged,
        final(push).missing_targets_logged,
        final(push).last_push_at == old(push).last_push_at,
        final(push).last_sent_fingerprint == old(push).last_sent_fingerprint,
{
}

/// Where the data is not stale, a state is judged by the models alone.
pub proof fn fresh_data_is_judged_by_the_models(
    config: AppConfig,
    snapshot: WindowSnapshot,
    health: CollectorHealth,
    seen: (String, bool),
    reported: (String, bool),
)
    requires
        call_ensures(crate::push::health_signal, (&config, &snapshot, &health), seen),
        call_ensures(crate::push::snapshot_signal, (&snapshot,), reported),
        health.last_success_at != 0,
        i64::MIN <= snapshot.generated_at - health.last_success_at <= i64::MAX,
        snapshot.generated_at - health.last_success_at <= config.status.stale_after_secs,
    ensures
        seen.0@ == reported.0@,
        seen.1 == reported.1,
{
    let models = crate::push::models_seen(config, snapshot, health);
    assert(models =~= snapshot.models@);
}

/// A report is handed out exactly if its state, as it is seen with the collector's
/// health, is due, and carries that state.
pub proof fn due_states_are_handed_out(
    config: AppConfig,
    push: &mut PushState,
    snapshot: WindowSnapshot,
    health: CollectorHealth,
    now: i64,
    r: Option<PendingPush>,
    seen: (String, bool),
)
    requires
        call_ensures(crate::push::maybe_push, (&config, push, &snapshot, &health, now), r),
        call_ensures(crate::push::health_signal, (&config, &snapshot, &health), seen),
        i64::MIN <= now - old(push).last_push_at <= i64::MAX,
    ensures
        r is Some ==> r->0.fingerprint@ == seen.0@ && r->0.has_alert == seen.1,
        config.push.mode@ == "periodic"@ ==> (r is Some <==> now - old(push).last_push_at
            >= config.push.interval_secs),
        config.push.mode@ == "change"@ ==> (r is Some <==> old(
            push).last_sent_fingerprint@.len() > 0 && seen.0@ != old(push).last_sent_fingerprint@
            && times_seen(crate::push::memory(*old(push)), seen.0@) >= config.push.confirmations
            && now - old(push).last_push_at >= config.push.cooldown_secs),
{
    let before = crate::push::memory(*old(push));
    if config.push.mode@ == "periodic"@ {
        periods_are_kept(before, config.push, seen.0@, seen.1, now);
    }
    if config.push.mode@ == "change"@ {
        changes_are_pushed(before, config.push, seen.0@, seen.1, now);
    }
}

/// Each group is sent each message, group by group.
pub proof fn groups_are_sent_all_messages(
    groups: Vec<String>,
    chunks: Vec<String>,
    queued: Vec<(String, String)>,
    i: int,
    j: int,
)
    requires
        call_ensures(crate::push::send_to_groups, (&groups, &chunks), queued),
        0 <= i < groups@.len(),
        0 <= j < chunks@.len(),
    ensures
        queued@.len() == groups@.len() * chunks@.len(),
        0 <= i * chunks@.len() + j < queued@.len(),
        queued@[i * chunks@.len() + j].0@ == groups@[i]@,
        queued@[i * chunks@.len() + j].1@ == chunks@[j]@,
{
    let names = text::texts(groups@);
    let messages = text::texts(chunks@);
    group_messages_go_out_in_order(names, messages, i, j);
    let pairs = crate::push::pairs_of(queued@);
    let k = i * chunks@.len() + j;
    assert(pairs.len() == queued@.len());
    assert(pairs[k] == (names[i], messages[j]));
    assert(names[i] == groups@[i]@ && messages[j] == chunks@[j]@);
}

} // verus!
