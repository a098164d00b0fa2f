//! What the log lines of a request say of its outcome, and what the store keeps of it.
use vstd::prelude::*;

use crate::decimal;
use crate::domain::{LogSample, SampleKind};
use crate::repository;
use crate::repository::{
    CollectorState,
    DatabaseStats,
    MigrationStep,
    Outcome,
    OutcomeRow,
    OutcomeState,
    Progress,
    Repository,
    RequestOutcome,
    Schema,
    StoredSample,
};

verus! {

// ---------------------------------------------------------------------------
// Which line speaks for the request
// ---------------------------------------------------------------------------
/// Where a request has a paid line, the latest of them gives its times and its group,
/// whatever failed attempts came before or after it, and says whether it succeeded or
/// broke off.
pub proof fn latest_paid_line_speaks(samples: Seq<LogSample>, i: int)
    requires
        0 <= i < samples.len(),
        samples[i].kind == SampleKind::Consume,
        forall|j: int| i < j < samples.len() ==> (#[trigger] samples[j]).kind == SampleKind::Error,
    ensures
        repository::request_state(samples).total_ms == samples[i].total_ms,
        repository::request_state(samples).ttft_ms == samples[i].ttft_ms,
        repository::request_state(samples).group_name == samples[i].group_name@,
        repository::request_state(samples).has_consume,
        samples[i].partial_failure ==> repository::request_state(samples).outcome
            == Outcome::PartialFailed,
        !samples[i].partial_failure ==> repository::request_state(samples).outcome
            == Outcome::Success,
    decreases samples.len(),
{
    if i < samples.len() - 1 {
        let before = samples.drop_last();
        assert forall|j: int| i < j < before.len() implies (#[trigger] before[j]).kind
            == SampleKind::Error by {
            assert(before[j] == samples[j]);
        }
        latest_paid_line_speaks(before, i);
    }
}

/// Where a request has no paid line, the latest failed attempt gives its time and its
/// group; it has no time to the first token and waits to be settled.
pub proof fn latest_failure_speaks_without_payment(samples: Seq<LogSample>)
    requires
        samples.len() > 0,
        forall|j: int| 0 <= j < samples.len() ==> (#[trigger] samples[j]).kind == SampleKind::Error,
    ensures
        repository::request_state(samples).total_ms == samples.last().total_ms,
        repository::request_state(samples).ttft_ms is None,
        repository::request_state(samples).group_name == samples.last().group_name@,
        !repository::request_state(samples).has_consume,
        repository::request_state(samples).outcome == Outcome::Pending,
        repository::request_state(samples).attempt_count == samples.len(),
        repository::request_state(samples).error_count == samples.len(),
    decreases samples.len(),
{
    if samples.len() > 1 {
        let before = samples.drop_last();
        assert forall|j: int| 0 <= j < before.len() implies (#[trigger] before[j]).kind
            == SampleKind::Error by {
            assert(before[j] == samples[j]);
        }
        latest_failure_speaks_without_payment(before);
    }
}

/// The error that a request is filed under is that of its latest failed attempt, also
/// where a paid line follows it.
pub proof fn latest_failure_names_the_error(samples: Seq<LogSample>, i: int)
    requires
        0 <= i < samples.len(),
        samples[i].kind == SampleKind::Error,
        forall|j: int| i < j < samples.len() ==> (#[trigger] samples[j]).kind
            == SampleKind::Consume,
    ensures
        repository::request_state(samples).latest_error_code == samples[i].error_code@,
        repository::request_state(samples).latest_error_message == samples[i].error_message@,
    decreases samples.len(),
{
    if i < samples.len() - 1 {
        let before = samples.drop_last();
        assert forall|j: int| i < j < before.len() implies (#[trigger] before[j]).kind
            == SampleKind::Consume by {
            assert(before[j] == samples[j]);
        }
        latest_failure_names_the_error(before, i);
    }
}

/// A request without a failed attempt has no error, and counts one attempt however often
/// its paid line came.
pub proof fn paid_lines_alone_name_no_error(samples: Seq<LogSample>)
    requires
        samples.len() > 0,
        forall|j: int| 0 <= j < samples.len() ==> (#[trigger] samples[j]).kind
            == SampleKind::Consume,
    ensures
        repository::request_state(samples).latest_error_code.len() == 0,
        repository::request_state(samples).latest_error_message.len() == 0,
        repository::request_state(samples).error_count == 0,
        repository::request_state(samples).attempt_count == 1,
    decreases samples.len(),
{
    if samples.len() > 1 {
        let before = samples.drop_last();
        assert forall|j: int| 0 <= j < before.len() implies (#[trigger] before[j]).kind
            == SampleKind::Consume by {
            assert(before[j] == samples[j]);
        }
        paid_lines_alone_name_no_error(before);
    }
}

/// The retry chain of a request is the latest one that a line of it tells.
pub proof fn latest_chain_is_kept(samples: Seq<LogSample>, i: int)
    requires
        0 <= i < samples.len(),
        samples[i].retry_channel_chain@.len() > 0,
        forall|j: int| i < j < samples.len() ==> (#[trigger] samples[j]).retry_channel_chain@.len()
            == 0,
    ensures
        repository::request_state(samples).latest_retry_channel_chain
            == samples[i].retry_channel_chain@,
    decreases samples.len(),
{
    if i < samples.len() - 1 {
        let before = samples.drop_last();
        assert forall|j: int| i < j < before.len() implies (
        #[trigger] before[j]).retry_channel_chain@.len() == 0 by {
            assert(before[j] == samples[j]);
        }
        latest_chain_is_kept(before, i);
    }
}

/// A request none of whose lines tells a retry chain has none.
pub proof fn no_chain_without_a_telling_line(samples: Seq<LogSample>)
    requires
        samples.len() > 0,
        forall|j: int| 0 <= j < samples.len() ==> (#[trigger] samples[j]).retry_channel_chain@.len()
            == 0,
    ensures
        repository::request_state(samples).latest_retry_channel_chain.len() == 0,
    decreases samples.len(),
{
    if samples.len() > 1 {
        let before = samples.drop_last();
        assert forall|j: int| 0 <= j < before.len() implies (
        #[trigger] before[j]).retry_channel_chain@.len() == 0 by {
            assert(before[j] == samples[j]);
        }
        no_chain_without_a_telling_line(before);
    }
}

/// A line more changes of a request's record only what it can tell. Both kinds move the
/// time of the last line forward and never back, and leave the request's identity and
/// its beginning. A failed attempt adds one error and one attempt and names its error; a
/// paid line adds no error, names none, and makes the attempts one more than the errors.
pub proof fn one_line_more(before: OutcomeState, sample: LogSample)
    ensures
        repository::next_state(before, sample).request_id == before.request_id,
        repository::next_state(before, sample).model_name == before.model_name,
        repository::next_state(before, sample).first_seen == before.first_seen,
        sample.created_at >= before.last_seen ==> repository::next_state(before, sample).last_seen
            == sample.created_at,
        sample.created_at < before.last_seen ==> repository::next_state(before, sample).last_seen
            == before.last_seen,
        sample.kind == SampleKind::Error ==> {
            let after = repository::next_state(before, sample);
            &&& after.error_count - before.error_count == 1
            &&& after.attempt_count - before.attempt_count == 1
            &&& after.latest_error_code == sample.error_code@
            &&& after.latest_error_message == sample.error_message@
            &&& after.ttft_ms == before.ttft_ms
            &&& after.has_consume == before.has_consume
            &&& before.has_consume ==> after.outcome == before.outcome && after.total_ms
                == before.total_ms && after.group_name == before.group_name
            &&& !before.has_consume ==> after.outcome == Outcome::Pending && after.total_ms
                == sample.total_ms && after.group_name == sample.group_name@
        },
        sample.kind == SampleKind::Consume ==> {
            let after = repository::next_state(before, sample);
            &&& after.error_count == before.error_count
            &&& after.attempt_count - after.error_count == 1
            &&& after.latest_error_code == before.latest_error_code
            &&& after.latest_error_message == before.latest_error_message
            &&& after.has_consume
            &&& after.total_ms == sample.total_ms
            &&& after.ttft_ms == sample.ttft_ms
            &&& after.group_name == sample.group_name@
            &&& sample.partial_failure <==> after.outcome == Outcome::PartialFailed
            &&& !sample.partial_failure <==> after.outcome == Outcome::Success
        },
        sample.retry_channel_chain@.len() > 0 ==> repository::next_state(
            before,
            sample,
        ).latest_retry_channel_chain == sample.retry_channel_chain@,
        sample.retry_channel_chain@.len() == 0 ==> repository::next_state(
            before,
            sample,
        ).latest_retry_channel_chain == before.latest_retry_channel_chain,
{
}

/// The first line of a request opens its record: a failed attempt as an error that waits
/// to be settled, a paid line as the outcome.
pub proof fn first_line_opens_the_record(sample: LogSample)
    ensures
        ({
            let opened = repository::first_state(sample);
            &&& opened.request_id == sample.request_id@
            &&& opened.model_name == sample.model_name@
            &&& opened.group_name == sample.group_name@
            &&& opened.first_seen == sample.created_at
            &&& opened.last_seen == sample.created_at
            &&& opened.total_ms == sample.total_ms
            &&& opened.attempt_count == 1
            &&& opened.latest_retry_channel_chain == sample.retry_channel_chain@
            &&& opened.has_consume <==> sample.kind == SampleKind::Consume
            &&& sample.kind == SampleKind::Error ==> opened.outcome == Outcome::Pending
                && opened.error_count == 1 && opened.ttft_ms is None && opened.latest_error_code
                == sample.error_code@ && opened.latest_error_message == sample.error_message@
            &&& sample.kind == SampleKind::Consume ==> opened.error_count == 0 && opened.ttft_ms
                == sample.ttft_ms && opened.latest_error_code.len() == 0
                && opened.latest_error_message.len() == 0 && (sample.partial_failure
                <==> opened.outcome == Outcome::PartialFailed) && (!sample.partial_failure
                <==> opened.outcome == Outcome::Success)
        }),
{
}

// ---------------------------------------------------------------------------
// Settling, counting, keeping
// ---------------------------------------------------------------------------
/// Settling turns exactly the requests that wait for payment and whose last line is not
/// after the cutoff into failed ones, and touches nothing but their outcome.
pub proof fn settling_touches_only_overdue_outcomes(state: OutcomeState, cutoff: int)
    ensures
        state.outcome == Outcome::Pending && !state.has_consume && state.last_seen <= cutoff
            ==> repository::settled(state, cutoff).outcome == Outcome::Failed,
        state.outcome != Outcome::Pending || state.has_consume || state.last_seen > cutoff
            ==> repository::settled(state, cutoff) == state,
        (OutcomeState { outcome: state.outcome, ..repository::settled(state, cutoff) }) == state,
{
}

/// Settling counts the requests that it turns: one more in the list counts exactly if it
/// is one of them.
pub proof fn settled_requests_are_counted(
    states: Seq<OutcomeState>,
    state: OutcomeState,
    cutoff: int,
)
    ensures
        repository::overdue(Seq::empty(), cutoff).len() == 0,
        repository::settled(state, cutoff) != state ==> repository::overdue(
            states.push(state),
            cutoff,
        ).len() == repository::overdue(states, cutoff).len() + 1,
        repository::settled(state, cutoff) == state ==> repository::overdue(
            states.push(state),
            cutoff,
        ).len() == repository::overdue(states, cutoff).len(),
{
    reveal(Seq::filter);
    assert(states.push(state).drop_last() =~= states);
}

/// The statistics since a time take in, in their order, the requests whose last line is
/// not before it and which do not wait for payment, and no others.
pub proof fn statistics_take_in_settled_requests(
    states: Seq<OutcomeState>,
    state: OutcomeState,
    cutoff: int,
)
    ensures
        repository::counted_since(Seq::empty(), cutoff).len() == 0,
        state.last_seen >= cutoff && state.outcome != Outcome::Pending
            ==> repository::counted_since(states.push(state), cutoff)
            == repository::counted_since(states, cutoff).push(state),
        state.last_seen < cutoff || state.outcome == Outcome::Pending
            ==> repository::counted_since(states.push(state), cutoff)
            == repository::counted_since(states, cutoff),
{
    reveal(Seq::filter);
    assert(states.push(state).drop_last() =~= states);
}

/// A row of the statistics repeats the record that it shows, with the outcome in words.
pub proof fn rows_repeat_their_records(row: OutcomeRow, state: OutcomeState)
    requires
        row.shows(state),
    ensures
        row.model_name@ == state.model_name,
        row.group_name@ == state.group_name,
        row.last_seen == state.last_seen,
        row.total_ms == state.total_ms,
        row.ttft_ms == state.ttft_ms,
        row.attempt_count == state.attempt_count,
        row.error_count == state.error_count,
        row.latest_error_code@ == state.latest_error_code,
        row.latest_retry_channel_chain@ == state.latest_retry_channel_chain,
        state.outcome == Outcome::Success ==> row.outcome@ == "success"@,
        state.outcome == Outcome::PartialFailed ==> row.outcome@ == "partial_failed"@,
        state.outcome == Outcome::Failed ==> row.outcome@ == "failed"@,
        state.outcome == Outcome::Pending ==> row.outcome@ == "pending"@,
{
}

/// A cleanup keeps a sample exactly if its line is not before the cutoff, and a request
/// exactly if its last line is not.
pub proof fn cleanup_drops_what_is_before_the_cutoff(
    samples: Seq<StoredSample>,
    sample: StoredSample,
    outcomes: Seq<RequestOutcome>,
    outcome: RequestOutcome,
    cutoff: int,
)
    ensures
        repository::samples_from(Seq::empty(), cutoff).len() == 0,
        repository::outcomes_from(Seq::empty(), cutoff).len() == 0,
        sample.sample.created_at >= cutoff ==> repository::samples_from(
            samples.push(sample),
            cutoff,
        ) == repository::samples_from(samples, cutoff).push(sample),
        sample.sample.created_at < cutoff ==> repository::samples_from(samples.push(sample), cutoff)
            == repository::samples_from(samples, cutoff),
        outcome.last_seen >= cutoff ==> repository::outcomes_from(outcomes.push(outcome), cutoff)
            == repository::outcomes_from(outcomes, cutoff).push(outcome),
        outcome.last_seen < cutoff ==> repository::outcomes_from(outcomes.push(outcome), cutoff)
            == repository::outcomes_from(outcomes, cutoff),
{
    reveal(Seq::filter);
    assert(samples.push(sample).drop_last() =~= samples);
    assert(outcomes.push(outcome).drop_last() =~= outcomes);
}

/// A cleanup keeps metrics exactly if they were not fetched before the cutoff.
pub proof fn cleanup_drops_metrics_before_the_cutoff(
    metrics: Seq<repository::StoredPerfMetrics>,
    entry: repository::StoredPerfMetrics,
    cutoff: int,
)
    ensures
        repository::metrics_from(Seq::empty(), cutoff).len() == 0,
        entry.fetched_at >= cutoff ==> repository::metrics_from(metrics.push(entry), cutoff)
            == repository::metrics_from(metrics, cutoff).push(entry),
        entry.fetched_at < cutoff ==> repository::metrics_from(metrics.push(entry), cutoff)
            == repository::metrics_from(metrics, cutoff),
{
    reveal(Seq::filter);
    assert(metrics.push(entry).drop_last() =~= metrics);
}

// ---------------------------------------------------------------------------
// The collector's notes
// ---------------------------------------------------------------------------
/// After a round that succeeded for a model, its note holds the new cursor and the time
/// of the round, no error and no failure in a row; the notes of other models stay.
pub proof fn success_is_noted(
    before: Seq<Progress>,
    after: Seq<Progress>,
    model: Seq<char>,
    cursor: int,
    now: int,
    other: int,
)
    requires
        repository::notes(
            before,
            after,
            model,
            |p: Option<Progress>| repository::after_success(model, cursor, now),
        ),
    ensures
        exists|i: int|
            0 <= i < after.len() && (#[trigger] after[i]).model_name == model
                && after[i].cursor_created_at == cursor && after[i].last_success_at == now
                && after[i].last_error.len() == 0 && after[i].consecutive_failures == 0,
        0 <= other < before.len() && before[other].model_name != model ==> after[other]
            == before[other],
{
    if exists|i: int|
        0 <= i < before.len() && (#[trigger] before[i]).model_name == model && after
            == before.update(i, repository::after_success(model, cursor, now)) {
        let i = choose|i: int|
            0 <= i < before.len() && (#[trigger] before[i]).model_name == model && after
                == before.update(i, repository::after_success(model, cursor, now));
        assert(after[i].model_name == model);
    } else {
        assert(after[before.len() as int].model_name == model);
    }
}

/// After a round that failed for a model, its note holds the error and one failure in a
/// row more, with the cursor and the time of the last success as they were; a model
/// without a note gets one with no cursor and no success.
pub proof fn failure_is_noted(
    before: Seq<Progress>,
    after: Seq<Progress>,
    model: Seq<char>,
    error: Seq<char>,
    other: int,
)
    requires
        repository::notes(
            before,
            after,
            model,
            |p: Option<Progress>| repository::after_failure(p, model, error),
        ),
    ensures
        exists|i: int|
            0 <= i < after.len() && (#[trigger] after[i]).model_name == model && after[i].last_error
                == error && (i < before.len() ==> after[i].cursor_created_at
                == before[i].cursor_created_at && after[i].last_success_at
                == before[i].last_success_at && after[i].consecutive_failures
                - before[i].consecutive_failures == 1) && (i >= before.len()
                ==> after[i].cursor_created_at == 0 && after[i].last_success_at == 0
                && after[i].consecutive_failures == 1),
        0 <= other < before.len() && before[other].model_name != model ==> after[other]
            == before[other],
{
    if exists|i: int|
        0 <= i < before.len() && (#[trigger] before[i]).model_name == model && after
            == before.update(i, repository::after_failure(Some(before[i]), model, error)) {
        let i = choose|i: int|
            0 <= i < before.len() && (#[trigger] before[i]).model_name == model && after
                == before.update(i, repository::after_failure(Some(before[i]), model, error));
        assert(after[i].model_name == model);
    } else {
        assert(after[before.len() as int].model_name == model);
    }
}

/// The cursor of a model is that of its note, and 0 where there is none.
pub proof fn cursor_is_that_of_the_note(notes: Seq<Progress>, model: Seq<char>, i: int)
    requires
        repository::notes_are_unique(notes),
    ensures
        0 <= i < notes.len() && notes[i].model_name == model ==> repository::cursor_in(notes, model)
            == notes[i].cursor_created_at,
        (forall|j: int| 0 <= j < notes.len() ==> (#[trigger] notes[j]).model_name != model)
            ==> repository::cursor_in(notes, model) == 0,
{
    if 0 <= i < notes.len() && notes[i].model_name == model {
        let at = repository::noted_at(notes, model);
        assert(0 <= at < notes.len() && notes[at].model_name == model);
        if at < i {
            assert(notes[at].model_name != notes[i].model_name);
        } else if i < at {
            assert(notes[i].model_name != notes[at].model_name);
        }
    }
}

/// A line whose key is stored already is known, and only such a line.
pub proof fn known_lines_have_a_stored_key(samples: Seq<StoredSample>, key: Seq<char>, i: int)
    ensures
        0 <= i < samples.len() && samples[i].sample.sample_key@ == key ==> repository::has_key(
            samples,
            key,
        ),
        (forall|j: int| 0 <= j < samples.len() ==> (#[trigger] samples[j]).sample.sample_key@ != key)
            ==> !repository::has_key(samples, key),
{
}

// ---------------------------------------------------------------------------
// Storing
// ---------------------------------------------------------------------------
/// A line joins the record of its request, the one with the same id and the same model,
/// and leaves all others; where there is none it opens one behind them.
pub proof fn lines_join_their_own_request(
    before: Seq<OutcomeState>,
    after: Seq<OutcomeState>,
    sample: LogSample,
    i: int,
)
    requires
        repository::merges(before, after, sample),
        0 <= i < before.len(),
        forall|j: int, k: int|
            0 <= j < k < before.len() ==> (#[trigger] before[j]).request_id != (
            #[trigger] before[k]).request_id || before[j].model_name != before[k].model_name,
    ensures
        before[i].request_id != sample.request_id@ || before[i].model_name != sample.model_name@
            ==> after[i] == before[i],
        before[i].request_id == sample.request_id@ && before[i].model_name == sample.model_name@
            ==> after.len() == before.len() && after[i] == repository::next_state(
            before[i],
            sample,
        ),
        (forall|j: int|
            0 <= j < before.len() ==> (#[trigger] before[j]).request_id != sample.request_id@
                || before[j].model_name != sample.model_name@) ==> after.len() == before.len() + 1
            && after.last() == repository::first_state(sample),
{
    if exists|j: int|
        0 <= j < before.len() && #[trigger] repository::is_about(
            before[j],
            sample.request_id@,
            sample.model_name@,
        ) && after == before.update(j, repository::next_state(before[j], sample)) {
        let j = choose|j: int|
            0 <= j < before.len() && #[trigger] repository::is_about(
                before[j],
                sample.request_id@,
                sample.model_name@,
            ) && after == before.update(j, repository::next_state(before[j], sample));
        assert(before[j].request_id == sample.request_id@);
        if i < j {
            assert(before[i].request_id != before[j].request_id || before[i].model_name
                != before[j].model_name);
        } else if j < i {
            assert(before[j].request_id != before[i].request_id || before[j].model_name
                != before[i].model_name);
        }
    } else {
        assert(!repository::is_about(before[i], sample.request_id@, sample.model_name@));
    }
}

/// The first line into an empty store opens the only record.
pub proof fn first_request_is_alone(after: Seq<OutcomeState>, sample: LogSample)
    requires
        repository::merges(Seq::empty(), after, sample),
    ensures
        after == seq![repository::first_state(sample)],
{
    assert(after =~= seq![repository::first_state(sample)]);
}

/// Tables of an earlier version get the columns for retry chains that they lack, and
/// none twice; the version is set last.
pub proof fn missing_columns_are_added(schema: Schema)
    ensures
        schema.steps().contains(MigrationStep::AddSampleChain) <==> !schema.sample_chain,
        schema.steps().contains(MigrationStep::AddOutcomeChain) <==> !schema.outcome_chain,
        schema.steps().last() == MigrationStep::SetVersion(2),
        schema.steps().len() == 1 + (if schema.sample_chain {
            0int
        } else {
            1int
        }) + (if schema.outcome_chain {
            0int
        } else {
            1int
        }),
        MigrationStep::AddSampleChain.sql()
            == "ALTER TABLE log_samples ADD COLUMN retry_channel_chain TEXT NOT NULL DEFAULT ''"@,
        MigrationStep::AddOutcomeChain.sql()
            == "ALTER TABLE request_outcomes ADD COLUMN latest_retry_channel_chain TEXT NOT NULL DEFAULT ''"@,
        MigrationStep::SetVersion(2).sql() == "PRAGMA user_version="@ + decimal::decimal(2),
{
    let steps = schema.steps();
    if !schema.sample_chain {
        assert(steps[0] == MigrationStep::AddSampleChain);
    }
    if !schema.outcome_chain {
        assert(steps[steps.len() - 2] == MigrationStep::AddOutcomeChain);
    }
}

/// Tables of a later version are refused, with both versions named; others are migrated.
pub proof fn later_versions_are_refused(schema: Schema, r: Result<Vec<MigrationStep>, String>)
    requires
        call_ensures(Schema::migration, (&schema,), r),
    ensures
        schema.version > 2 ==> r is Err && r->Err_0@ == "SQLite schema 版本 "@ + decimal::decimal(
            schema.version as int,
        ) + " 高于插件支持版本 "@ + decimal::decimal(2),
        schema.version <= 2 ==> r is Ok && r->Ok_0@ == schema.steps(),
{
}

// ---------------------------------------------------------------------------
// The operations themselves
// ---------------------------------------------------------------------------
/// Updating a record with a paid line takes over the line's times, its group and how it
/// ended, and leaves the errors told so far.
pub proof fn update_takes_over_a_paid_line(outcome: &mut RequestOutcome, sample: LogSample)
    requires
        call_ensures(RequestOutcome::update, (outcome, &sample), ()),
        sample.kind == SampleKind::Consume,
    ensures
        final(outcome).total_ms == sample.total_ms,
        final(outcome).ttft_ms == sample.ttft_ms,
        final(outcome).group_name@ == sample.group_name@,
        final(outcome).has_consume,
        final(outcome).outcome == if sample.partial_failure {
            Outcome::PartialFailed
        } else {
            Outcome::Success
        },
        final(outcome).error_count == old(outcome).error_count,
        final(outcome).attempt_count == old(outcome).error_count + 1,
        final(outcome).latest_error_code@ == old(outcome).latest_error_code@,
        final(outcome).request_id@ == old(outcome).request_id@,
        final(outcome).model_name@ == old(outcome).model_name@,
        final(outcome).first_seen == old(outcome).first_seen,
        final(outcome).last_seen == if sample.created_at > old(outcome).last_seen {
            sample.created_at
        } else {
            old(outcome).last_seen
        },
        final(outcome).latest_retry_channel_chain@ == if sample.retry_channel_chain@.len() > 0 {
            sample.retry_channel_chain@
        } else {
            old(outcome).latest_retry_channel_chain@
        },
{
    one_line_more(old(outcome).view(), sample);
    assert(final(outcome).view() == repository::next_state(old(outcome).view(), sample));
}

/// Updating a record with a failed attempt counts it and names its error; times, group
/// and outcome are the attempt's exactly where nothing was paid yet.
pub proof fn update_counts_a_failed_attempt(outcome: &mut RequestOutcome, sample: LogSample)
    requires
        call_ensures(RequestOutcome::update, (outcome, &sample), ()),
        sample.kind == SampleKind::Error,
    ensures
        final(outcome).error_count == old(outcome).error_count + 1,
        final(outcome).attempt_count == old(outcome).attempt_count + 1,
        final(outcome).latest_error_code@ == sample.error_code@,
        final(outcome).latest_error_message@ == sample.error_message@,
        final(outcome).has_consume == old(outcome).has_consume,
        final(outcome).ttft_ms == old(outcome).ttft_ms,
        old(outcome).has_consume ==> {
            &&& final(outcome).total_ms == old(outcome).total_ms
            &&& final(outcome).group_name@ == old(outcome).group_name@
            &&& final(outcome).outcome == old(outcome).outcome
        },
        !old(outcome).has_consume ==> {
            &&& final(outcome).total_ms == sample.total_ms
            &&& final(outcome).group_name@ == sample.group_name@
            &&& final(outcome).outcome == Outcome::Pending
        },
        final(outcome).request_id@ == old(outcome).request_id@,
        final(outcome).model_name@ == old(outcome).model_name@,
        final(outcome).first_seen == old(outcome).first_seen,
        final(outcome).last_seen == if sample.created_at > old(outcome).last_seen {
            sample.created_at
        } else {
            old(outcome).last_seen
        },
        final(outcome).latest_retry_channel_chain@ == if sample.retry_channel_chain@.len() > 0 {
            sample.retry_channel_chain@
        } else {
            old(outcome).latest_retry_channel_chain@
        },
{
    one_line_more(old(outcome).view(), sample);
    assert(final(outcome).view() == repository::next_state(old(outcome).view(), sample));
}

/// The first line of a request gives its record all that a line can give.
pub proof fn first_takes_over_the_line(sample: LogSample, outcome: RequestOutcome)
    requires
        call_ensures(RequestOutcome::first, (&sample,), outcome),
    ensures
        outcome.request_id@ == sample.request_id@,
        outcome.model_name@ == sample.model_name@,
        outcome.group_name@ == sample.group_name@,
        outcome.first_seen == sample.created_at,
        outcome.last_seen == sample.created_at,
        outcome.total_ms == sample.total_ms,
        outcome.attempt_count == 1,
        outcome.latest_retry_channel_chain@ == sample.retry_channel_chain@,
        sample.kind == SampleKind::Consume ==> outcome.has_consume && outcome.ttft_ms
            == sample.ttft_ms && outcome.error_count == 0 && outcome.outcome == (
        if sample.partial_failure {
            Outcome::PartialFailed
        } else {
            Outcome::Success
        }),
        sample.kind == SampleKind::Error ==> !outcome.has_consume && outcome.ttft_ms is None
            && outcome.error_count == 1 && outcome.outcome == Outcome::Pending
            && outcome.latest_error_code@ == sample.error_code@ && outcome.latest_error_message@
            == sample.error_message@,
{
    assert(outcome.view() == repository::first_state(sample));
}

/// Settling leaves every record in its place, and fails exactly those that wait for
/// payment and whose last line is not after the cutoff.
pub proof fn settling_fails_what_is_overdue(
    store: &mut Repository,
    cutoff: i64,
    count: usize,
    i: int,
)
    requires
        call_ensures(Repository::settle_pending, (store, cutoff), count),
        0 <= i < old(store).outcomes@.len(),
    ensures
        final(store).outcomes@.len() == old(store).outcomes@.len(),
        ({
            let before = old(store).outcomes@[i].view();
            let after = final(store).outcomes@[i].view();
            let overdue = before.outcome == Outcome::Pending && !before.has_consume
                && before.last_seen <= cutoff;
            &&& overdue ==> after == (OutcomeState { outcome: Outcome::Failed, ..before })
            &&& !overdue ==> after == before
        }),
        final(store).samples == old(store).samples,
        final(store).states == old(store).states,
{
    let before = repository::states_of(old(store).outcomes@);
    let after = repository::states_of(final(store).outcomes@);
    assert(after.len() == before.len());
    assert(after[i] == repository::settled(before[i], cutoff as int));
}

/// Storing a line whose key is known changes nothing; any other line is stored as it is,
/// behind those before.
pub proof fn lines_are_stored_once(
    store: &mut Repository,
    sample: LogSample,
    now: i64,
    inserted: bool,
)
    requires
        call_ensures(Repository::ingest, (store, &sample, now), inserted),
    ensures
        inserted <==> forall|i: int|
            0 <= i < old(store).samples@.len() ==> (
            #[trigger] old(store).samples@[i]).sample.sample_key@ != sample.sample_key@,
        !inserted ==> *final(store) == *old(store),
        inserted ==> final(store).samples@ == old(store).samples@.push(
            StoredSample { sample, ingested_at: now },
        ) && repository::merges(
            repository::states_of(old(store).outcomes@),
            repository::states_of(final(store).outcomes@),
            sample,
        ),
{
    if inserted {
        assert forall|i: int| 0 <= i < old(store).samples@.len() implies (
        #[trigger] old(store).samples@[i]).sample.sample_key@ != sample.sample_key@ by {}
    } else {
        let i = choose|i: int|
            0 <= i < old(store).samples@.len() && (
            #[trigger] old(store).samples@[i]).sample.sample_key@ == sample.sample_key@;
        assert(old(store).samples@[i].sample.sample_key@ == sample.sample_key@);
    }
}

/// A cleanup keeps of each table exactly what is not before the cutoff, and all notes.
pub proof fn cleanups_keep_what_is_recent(
    store: &mut Repository,
    cutoff: i64,
    sample: StoredSample,
    outcome: RequestOutcome,
)
    requires
        call_ensures(Repository::cleanup, (store, cutoff), ()),
    ensures
        final(store).samples@.contains(sample) <==> old(store).samples@.contains(sample)
            && sample.sample.created_at >= cutoff,
        final(store).outcomes@.contains(outcome) <==> old(store).outcomes@.contains(outcome)
            && outcome.last_seen >= cutoff,
        final(store).states == old(store).states,
{
    let f = |s: StoredSample| s.sample.created_at >= cutoff;
    let g = |o: RequestOutcome| o.last_seen >= cutoff;
    let samples = old(store).samples@;
    let outcomes = old(store).outcomes@;
    assert(repository::samples_from(samples, cutoff as int) == samples.filter(f));
    assert(repository::outcomes_from(outcomes, cutoff as int) == outcomes.filter(g));
    filter_contains(samples, f, sample);
    filter_contains(outcomes, g, outcome);
}

proof fn filter_contains<T>(items: Seq<T>, f: spec_fn(T) -> bool, item: T)
    ensures
        items.filter(f).contains(item) <==> items.contains(item) && f(item),
    decreases items.len(),
{
    reveal(Seq::filter);
    if items.len() > 0 {
        let rest = items.drop_last();
        filter_contains(rest, f, item);
        let kept = rest.filter(f);
        let all = items.filter(f);
        assert(items[items.len() - 1] == items.last());
        if rest.contains(item) {
            let i = choose|i: int| 0 <= i < rest.len() && rest[i] == item;
            assert(items[i] == item);
        }
        if items.contains(item) && !rest.contains(item) {
            let i = choose|i: int| 0 <= i < items.len() && items[i] == item;
            if i < rest.len() {
                assert(rest[i] == item);
            }
            assert(items.last() == item);
        }
        if f(items.last()) {
            assert(all == kept.push(items.last()));
            assert(all[all.len() - 1] == items.last());
            if kept.contains(item) {
                let i = choose|i: int| 0 <= i < kept.len() && kept[i] == item;
                assert(all[i] == item);
            }
            if all.contains(item) && item != items.last() {
                let i = choose|i: int| 0 <= i < all.len() && all[i] == item;
                assert(kept[i] == item);
            }
        }
    }
}

/// The statistics show, each as it is recorded and with its outcome in words, exactly the
/// requests that do not wait for payment and whose last line is not before the cutoff.
pub proof fn statistics_show_recent_requests(
    store: Repository,
    cutoff: i64,
    rows: Vec<OutcomeRow>,
    i: int,
)
    requires
        call_ensures(Repository::outcomes_since, (&store, cutoff), rows),
        0 <= i < rows@.len(),
    ensures
        rows@.len() == repository::states_of(store.outcomes@).filter(
            |state: OutcomeState| state.last_seen >= cutoff && state.outcome != Outcome::Pending,
        ).len(),
        rows@[i].last_seen >= cutoff,
        rows@[i].outcome@ != "pending"@,
{
    let states = repository::states_of(store.outcomes@);
    let f = |state: OutcomeState| state.last_seen >= cutoff && state.outcome != Outcome::Pending;
    let counted = repository::counted_since(states, cutoff as int);
    assert(counted == states.filter(f));
    assert(rows@[i].shows(counted[i]));
    filter_contains(states, f, counted[i]);
    assert(counted.contains(counted[i]));
    reveal_strlit("pending");
    reveal_strlit("success");
    reveal_strlit("partial_failed");
    reveal_strlit("failed");
    assert("pending"@[0] == 'p' && "success"@[0] == 's' && "failed"@[0] == 'f');
    assert("pending"@.len() == 7 && "partial_failed"@.len() == 14);
}

/// A new store is empty, and the counts of a store are those of its samples and requests.
pub proof fn stores_count_what_they_hold(
    empty: Repository,
    store: Repository,
    stats: DatabaseStats,
)
    requires
        call_ensures(Repository::new, (), empty),
        call_ensures(Repository::stats, (&store,), stats),
        store.samples@.len() <= i64::MAX,
        store.outcomes@.len() <= i64::MAX,
    ensures
        empty.samples@.len() == 0,
        empty.outcomes@.len() == 0,
        empty.states@.len() == 0,
        stats.sample_count == store.samples@.len(),
        stats.outcome_count == store.outcomes@.len(),
{
}

/// A cursor that was recorded with a success is the one that is read next; cursors of
/// other models stay, and a failure moves none.
pub proof fn recorded_cursors_are_read(
    store: &mut Repository,
    failed: &mut Repository,
    model: &str,
    cursor: i64,
    now: i64,
    error: &str,
    other: &str,
    read: i64,
    before: i64,
    unmoved: i64,
    started: i64,
)
    requires
        old(store).has_unique_keys(),
        old(failed).has_unique_keys(),
        call_ensures(Repository::record_success, (store, model, cursor, now), ()),
        call_ensures(Repository::record_failure, (failed, model, error), ()),
        call_ensures(Repository::cursor, (old(store), other), before),
        call_ensures(Repository::cursor, (final(store), other), read),
        call_ensures(Repository::cursor, (old(failed), other), started),
        call_ensures(Repository::cursor, (final(failed), other), unmoved),
    ensures
        other@ == model@ ==> read == cursor,
        other@ != model@ ==> read == before,
        unmoved == started,
{
    let notes = repository::progress_of(old(store).states@);
    let after = repository::progress_of(final(store).states@);
    names_are_unique(old(store).states@);
    repository::success_moves_the_cursor(
        notes,
        after,
        model@,
        cursor as int,
        now as int,
        other@,
    );
    names_are_unique(old(failed).states@);
    repository::failure_keeps_the_cursor(
        repository::progress_of(old(failed).states@),
        repository::progress_of(final(failed).states@),
        model@,
        error@,
        other@,
    );
}

proof fn names_are_unique(states: Seq<CollectorState>)
    requires
        forall|i: int, j: int|
            0 <= i < j < states.len() ==> (#[trigger] states[i]).model_name@ != (
            #[trigger] states[j]).model_name@,
    ensures
        repository::notes_are_unique(repository::progress_of(states)),
{
    let notes = repository::progress_of(states);
    assert forall|i: int, j: int| 0 <= i < j < notes.len() implies (#[trigger] notes[i]).model_name
        != (#[trigger] notes[j]).model_name by {
        assert(states[i].model_name@ != states[j].model_name@);
    }
}

/// What is recorded of a round is kept in the note of the model: after a success the time
/// and no error, after a failure the error.
pub proof fn rounds_are_recorded(
    store: &mut Repository,
    failed: &mut Repository,
    model: &str,
    cursor: i64,
    now: i64,
    error: &str,
)
    requires
        call_ensures(Repository::record_success, (store, model, cursor, now), ()),
        call_ensures(Repository::record_failure, (failed, model, error), ()),
    ensures
        exists|i: int|
            0 <= i < final(store).states@.len() && (
            #[trigger] final(store).states@[i]).model_name@ == model@ && final(
                store).states@[i].last_success_at == now && final(store).states@[i].last_error@.len()
                == 0 && final(store).states@[i].consecutive_failures == 0,
        exists|i: int|
            0 <= i < final(failed).states@.len() && (
            #[trigger] final(failed).states@[i]).model_name@ == model@ && final(
                failed).states@[i].last_error@ == error@,
        final(store).samples == old(store).samples,
        final(store).outcomes == old(store).outcomes,
        final(failed).samples == old(failed).samples,
        final(failed).outcomes == old(failed).outcomes,
{
    let after = repository::progress_of(final(store).states@);
    success_is_noted(
        repository::progress_of(old(store).states@),
        after,
        model@,
        cursor as int,
        now as int,
        0,
    );
    let i = choose|i: int|
        0 <= i < after.len() && (#[trigger] after[i]).model_name == model@
            && after[i].last_success_at == now && after[i].last_error.len() == 0
            && after[i].consecutive_failures == 0;
    assert(final(store).states@[i].model_name@ == model@);
    let before = repository::progress_of(old(failed).states@);
    let noted = repository::progress_of(final(failed).states@);
    failure_is_noted(before, noted, model@, error@, 0);
    let j = choose|j: int|
        0 <= j < noted.len() && (#[trigger] noted[j]).model_name == model@ && noted[j].last_error
            == error@;
    assert(final(failed).states@[j].model_name@ == model@);
}

} // verus!
