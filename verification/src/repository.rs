//! The store: samples, the outcomes of requests, and how far each model was read.
use vstd::prelude::*;
use vstd::string::*;

use crate::decimal;
use crate::domain::{LogSample, SampleKind};
use crate::num;
use crate::text;

verus! {

/// The version of the tables that this library works with.
pub const SCHEMA_VERSION: i64 = 2;

/// How a request ended, as far as it is known.
#[derive(Clone, Copy, Debug, PartialEq, Eq, Structural)]
pub enum Outcome {
    Pending,
    Success,
    PartialFailed,
    Failed,
}

impl Outcome {
    /// The name under which an outcome is stored.
    pub open spec fn name(self) -> Seq<char> {
        match self {
            Outcome::Pending => "pending"@,
            Outcome::Success => "success"@,
            Outcome::PartialFailed => "partial_failed"@,
            Outcome::Failed => "failed"@,
        }
    }

    pub fn label(self) -> (r: &'static str)
        ensures
            r@ == self.name(),
    {
        match self {
            Outcome::Pending => "pending",
            Outcome::Success => "success",
            Outcome::PartialFailed => "partial_failed",
            Outcome::Failed => "failed",
        }
    }

    /// The outcome that is stored under a name.
    pub fn from_label(name: &str) -> (r: Option<Outcome>)
        ensures
            r matches Some(outcome) ==> outcome.name() == name@,
            r is None ==> forall|outcome: Outcome| (#[trigger] outcome.name()) != name@,
    {
        if text::same_text(name, "pending") {
            Some(Outcome::Pending)
        } else if text::same_text(name, "success") {
            Some(Outcome::Success)
        } else if text::same_text(name, "partial_failed") {
            Some(Outcome::PartialFailed)
        } else if text::same_text(name, "failed") {
            Some(Outcome::Failed)
        } else {
            None
        }
    }
}

/// What the samples of one request for one model say together.
#[derive(Debug)]
pub struct RequestOutcome {
    pub request_id: String,
    pub model_name: String,
    pub group_name: String,
    pub first_seen: i64,
    pub last_seen: i64,
    pub outcome: Outcome,
    pub has_consume: bool,
    pub total_ms: Option<i64>,
    pub ttft_ms: Option<i64>,
    pub attempt_count: i64,
    pub error_count: i64,
    pub latest_error_code: String,
    pub latest_error_message: String,
    pub latest_retry_channel_chain: String,
}

impl Clone for RequestOutcome {
    fn clone(&self) -> (r: Self)
        ensures
            r == *self,
    {
        RequestOutcome {
            request_id: self.request_id.clone(),
            model_name: self.model_name.clone(),
            group_name: self.group_name.clone(),
            first_seen: self.first_seen,
            last_seen: self.last_seen,
            outcome: self.outcome,
            has_consume: self.has_consume,
            total_ms: self.total_ms,
            ttft_ms: self.ttft_ms,
            attempt_count: self.attempt_count,
            error_count: self.error_count,
            latest_error_code: self.latest_error_code.clone(),
            latest_error_message: self.latest_error_message.clone(),
            latest_retry_channel_chain: self.latest_retry_channel_chain.clone(),
        }
    }
}

/// The contents of a `RequestOutcome`.
pub struct OutcomeState {
    pub request_id: Seq<char>,
    pub model_name: Seq<char>,
    pub group_name: Seq<char>,
    pub first_seen: int,
    pub last_seen: int,
    pub outcome: Outcome,
    pub has_consume: bool,
    pub total_ms: Option<i64>,
    pub ttft_ms: Option<i64>,
    pub attempt_count: int,
    pub error_count: int,
    pub latest_error_code: Seq<char>,
    pub latest_error_message: Seq<char>,
    pub latest_retry_channel_chain: Seq<char>,
}

impl RequestOutcome {
    pub open spec fn view(&self) -> OutcomeState {
        OutcomeState {
            request_id: self.request_id@,
            model_name: self.model_name@,
            group_name: self.group_name@,
            first_seen: self.first_seen as int,
            last_seen: self.last_seen as int,
            outcome: self.outcome,
            has_consume: self.has_consume,
            total_ms: self.total_ms,
            ttft_ms: self.ttft_ms,
            attempt_count: self.attempt_count as int,
            error_count: self.error_count as int,
            latest_error_code: self.latest_error_code@,
            latest_error_message: self.latest_error_message@,
            latest_retry_channel_chain: self.latest_retry_channel_chain@,
        }
    }
}

// ---------------------------------------------------------------------------
// Merging samples into outcomes
// ---------------------------------------------------------------------------
/// The outcome that a paid log line tells of.
pub open spec fn paid_outcome(sample: LogSample) -> Outcome {
    if sample.partial_failure {
        Outcome::PartialFailed
    } else {
        Outcome::Success
    }
}

/// The later of two times.
pub open spec fn later(a: int, b: int) -> int {
    if a < b {
        b
    } else {
        a
    }
}

/// The chain that stays: the new one, unless it is empty.
pub open spec fn kept_chain(before: Seq<char>, new: Seq<char>) -> Seq<char> {
    if new.len() > 0 {
        new
    } else {
        before
    }
}

/// The outcome of a request of which `sample` is the first sample.
pub open spec fn first_state(sample: LogSample) -> OutcomeState {
    match sample.kind {
        SampleKind::Error => OutcomeState {
            request_id: sample.request_id@,
            model_name: sample.model_name@,
            group_name: sample.group_name@,
            first_seen: sample.created_at as int,
            last_seen: sample.created_at as int,
            outcome: Outcome::Pending,
            has_consume: false,
            total_ms: sample.total_ms,
            ttft_ms: None,
            attempt_count: 1,
            error_count: 1,
            latest_error_code: sample.error_code@,
            latest_error_message: sample.error_message@,
            latest_retry_channel_chain: sample.retry_channel_chain@,
        },
        SampleKind::Consume => OutcomeState {
            request_id: sample.request_id@,
            model_name: sample.model_name@,
            group_name: sample.group_name@,
            first_seen: sample.created_at as int,
            last_seen: sample.created_at as int,
            outcome: paid_outcome(sample),
            has_consume: true,
            total_ms: sample.total_ms,
            ttft_ms: sample.ttft_ms,
            attempt_count: 1,
            error_count: 0,
            latest_error_code: Seq::empty(),
            latest_error_message: Seq::empty(),
            latest_retry_channel_chain: sample.retry_channel_chain@,
        },
    }
}

/// The outcome of a request of which more was known already. A failed attempt
/// leaves a paid request as it ended and makes any other one pending again; a
/// paid log line decides how the request ended.
pub open spec fn next_state(before: OutcomeState, sample: LogSample) -> OutcomeState {
    match sample.kind {
        SampleKind::Error => OutcomeState {
            last_seen: later(before.last_seen, sample.created_at as int),
            group_name: if before.has_consume {
                before.group_name
            } else {
                sample.group_name@
            },
            outcome: if before.has_consume {
                before.outcome
            } else {
                Outcome::Pending
            },
            total_ms: if before.has_consume {
                before.total_ms
            } else {
                sample.total_ms
            },
            attempt_count: before.attempt_count + 1,
            error_count: before.error_count + 1,
            latest_error_code: sample.error_code@,
            latest_error_message: sample.error_message@,
            latest_retry_channel_chain: kept_chain(
                before.latest_retry_channel_chain,
                sample.retry_channel_chain@,
            ),
            ..before
        },
        SampleKind::Consume => OutcomeState {
            last_seen: later(before.last_seen, sample.created_at as int),
            group_name: sample.group_name@,
            outcome: paid_outcome(sample),
            has_consume: true,
            total_ms: sample.total_ms,
            ttft_ms: sample.ttft_ms,
            attempt_count: before.error_count + 1,
            latest_retry_channel_chain: kept_chain(
                before.latest_retry_channel_chain,
                sample.retry_channel_chain@,
            ),
            ..before
        },
    }
}

impl RequestOutcome {
    /// The outcome of a request of which `sample` is the first sample.
    pub fn first(sample: &LogSample) -> (r: Self)
        ensures
            r.view() == first_state(*sample),
    {
        match sample.kind {
            SampleKind::Error => RequestOutcome {
                request_id: sample.request_id.clone(),
                model_name: sample.model_name.clone(),
                group_name: sample.group_name.clone(),
                first_seen: sample.created_at,
                last_seen: sample.created_at,
                outcome: Outcome::Pending,
                has_consume: false,
                total_ms: sample.total_ms,
                ttft_ms: None,
                attempt_count: 1,
                error_count: 1,
                latest_error_code: sample.error_code.clone(),
                latest_error_message: sample.error_message.clone(),
                latest_retry_channel_chain: sample.retry_channel_chain.clone(),
            },
            SampleKind::Consume => RequestOutcome {
                request_id: sample.request_id.clone(),
                model_name: sample.model_name.clone(),
                group_name: sample.group_name.clone(),
                first_seen: sample.created_at,
                last_seen: sample.created_at,
                outcome: if sample.partial_failure {
                    Outcome::PartialFailed
                } else {
                    Outcome::Success
                },
                has_consume: true,
                total_ms: sample.total_ms,
                ttft_ms: sample.ttft_ms,
                attempt_count: 1,
                error_count: 0,
                latest_error_code: String::new(),
                latest_error_message: String::new(),
                latest_retry_channel_chain: sample.retry_channel_chain.clone(),
            },
        }
    }

    /// Adds one more sample of the request.
    pub fn update(&mut self, sample: &LogSample)
        requires
            old(self).attempt_count < i64::MAX,
            old(self).error_count < i64::MAX,
        ensures
            final(self).view() == next_state(old(self).view(), *sample),
    {
        if self.last_seen < sample.created_at {
            self.last_seen = sample.created_at;
        }
        if text::char_count(sample.retry_channel_chain.as_str()) > 0 {
            self.latest_retry_channel_chain = sample.retry_channel_chain.clone();
        }
        match sample.kind {
            SampleKind::Error => {
                if !self.has_consume {
                    self.group_name = sample.group_name.clone();
                    self.outcome = Outcome::Pending;
                    self.total_ms = sample.total_ms;
                }
                self.attempt_count = self.attempt_count + 1;
                self.error_count = self.error_count + 1;
                self.latest_error_code = sample.error_code.clone();
                self.latest_error_message = sample.error_message.clone();
            },
            SampleKind::Consume => {
                self.group_name = sample.group_name.clone();
                self.outcome = if sample.partial_failure {
                    Outcome::PartialFailed
                } else {
                    Outcome::Success
                };
                self.has_consume = true;
                self.total_ms = sample.total_ms;
                self.ttft_ms = sample.ttft_ms;
                self.attempt_count = self.error_count + 1;
            },
        }
    }
}

/// Whether a request is failed for good at `cutoff`: nothing but failed attempts
/// were seen, the last one no later than `cutoff`.
pub open spec fn is_overdue(state: OutcomeState, cutoff: int) -> bool {
    state.outcome == Outcome::Pending && !state.has_consume && state.last_seen <= cutoff
}

/// The outcome after the overdue requests were settled at `cutoff`.
pub open spec fn settled(state: OutcomeState, cutoff: int) -> OutcomeState {
    if is_overdue(state, cutoff) {
        OutcomeState { outcome: Outcome::Failed, ..state }
    } else {
        state
    }
}

// ---------------------------------------------------------------------------
// The store
// ---------------------------------------------------------------------------
/// A sample, and when it was stored.
#[derive(Debug)]
pub struct StoredSample {
    pub sample: LogSample,
    pub ingested_at: i64,
}

impl Clone for StoredSample {
    fn clone(&self) -> (r: Self)
        ensures
            r == *self,
    {
        StoredSample { sample: self.sample.clone(), ingested_at: self.ingested_at }
    }
}

/// How far the log of one model was read.
#[derive(Debug)]
pub struct CollectorState {
    pub model_name: String,
    pub cursor_created_at: i64,
    pub last_success_at: i64,
    pub last_error: String,
    pub consecutive_failures: i64,
}

/// The contents of a `CollectorState`.
pub struct Progress {
    pub model_name: Seq<char>,
    pub cursor_created_at: int,
    pub last_success_at: int,
    pub last_error: Seq<char>,
    pub consecutive_failures: int,
}

impl CollectorState {
    pub open spec fn view(&self) -> Progress {
        Progress {
            model_name: self.model_name@,
            cursor_created_at: self.cursor_created_at as int,
            last_success_at: self.last_success_at as int,
            last_error: self.last_error@,
            consecutive_failures: self.consecutive_failures as int,
        }
    }
}

/// A stored reply with public metrics.
#[derive(Debug)]
pub struct StoredPerfMetrics {
    pub model_name: String,
    pub hours: i64,
    pub fetched_at: i64,
    pub response_json: String,
}

impl Clone for StoredPerfMetrics {
    fn clone(&self) -> (r: Self)
        ensures
            r == *self,
    {
        StoredPerfMetrics {
            model_name: self.model_name.clone(),
            hours: self.hours,
            fetched_at: self.fetched_at,
            response_json: self.response_json.clone(),
        }
    }
}

/// A row of the statistics: one request that has ended.
#[derive(Debug)]
pub struct OutcomeRow {
    pub model_name: String,
    pub group_name: String,
    pub outcome: String,
    pub last_seen: i64,
    pub total_ms: Option<i64>,
    pub ttft_ms: Option<i64>,
    pub attempt_count: i64,
    pub error_count: i64,
    pub latest_error_code: String,
    pub latest_retry_channel_chain: String,
}

impl Clone for OutcomeRow {
    fn clone(&self) -> (r: Self)
        ensures
            r == *self,
    {
        OutcomeRow {
            model_name: self.model_name.clone(),
            group_name: self.group_name.clone(),
            outcome: self.outcome.clone(),
            last_seen: self.last_seen,
            total_ms: self.total_ms,
            ttft_ms: self.ttft_ms,
            attempt_count: self.attempt_count,
            error_count: self.error_count,
            latest_error_code: self.latest_error_code.clone(),
            latest_retry_channel_chain: self.latest_retry_channel_chain.clone(),
        }
    }
}

impl OutcomeRow {
    /// Whether this row shows `state`.
    pub open spec fn shows(self, state: OutcomeState) -> bool {
        &&& self.model_name@ == state.model_name
        &&& self.group_name@ == state.group_name
        &&& self.outcome@ == state.outcome.name()
        &&& self.last_seen == state.last_seen
        &&& self.total_ms == state.total_ms
        &&& self.ttft_ms == state.ttft_ms
        &&& self.attempt_count == state.attempt_count
        &&& self.error_count == state.error_count
        &&& self.latest_error_code@ == state.latest_error_code
        &&& self.latest_retry_channel_chain@ == state.latest_retry_channel_chain
    }
}

/// How much the store holds.
#[derive(Clone, Copy, Debug, PartialEq, Eq, Structural)]
pub struct DatabaseStats {
    pub sample_count: i64,
    pub outcome_count: i64,
}

impl Default for DatabaseStats {
    fn default() -> (r: Self)
        ensures
            r.sample_count == 0,
            r.outcome_count == 0,
    {
        DatabaseStats { sample_count: 0, outcome_count: 0 }
    }
}

/// The samples, the outcomes of requests, the progress of each model and the
/// stored public metrics.
#[derive(Debug)]
pub struct Repository {
    pub samples: Vec<StoredSample>,
    pub outcomes: Vec<RequestOutcome>,
    pub states: Vec<CollectorState>,
    pub perf_metrics: Vec<StoredPerfMetrics>,
}

/// The contents of a sequence of outcomes.
pub open spec fn states_of(outcomes: Seq<RequestOutcome>) -> Seq<OutcomeState> {
    outcomes.map_values(|o: RequestOutcome| o.view())
}

/// The contents of a sequence of progress notes.
pub open spec fn progress_of(states: Seq<CollectorState>) -> Seq<Progress> {
    states.map_values(|s: CollectorState| s.view())
}

/// Whether `samples` holds one with this key.
pub open spec fn has_key(samples: Seq<StoredSample>, key: Seq<char>) -> bool {
    exists|i: int| 0 <= i < samples.len() && (#[trigger] samples[i]).sample.sample_key@ == key
}

/// Whether `state` is the outcome of this request for this model.
pub open spec fn is_about(state: OutcomeState, request_id: Seq<char>, model: Seq<char>) -> bool {
    state.request_id == request_id && state.model_name == model
}

/// Whether `after` is `before` with `sample` merged into the outcome of its
/// request.
pub open spec fn merges(
    before: Seq<OutcomeState>,
    after: Seq<OutcomeState>,
    sample: LogSample,
) -> bool {
    ||| exists|i: int|
        0 <= i < before.len() && #[trigger] is_about(
            before[i],
            sample.request_id@,
            sample.model_name@,
        ) && after == before.update(i, next_state(before[i], sample))
    ||| (forall|i: int|
        0 <= i < before.len() ==> !#[trigger] is_about(
            before[i],
            sample.request_id@,
            sample.model_name@,
        )) && after == before.push(first_state(sample))
}

/// Whether what an outcome says agrees with itself: attempts are failed attempts
/// and at most one paid one, and a request is paid for where it did not fail.
pub open spec fn is_consistent(state: OutcomeState) -> bool {
    &&& state.error_count >= 0
    &&& state.attempt_count == state.error_count + if state.has_consume {
        1int
    } else {
        0int
    }
    &&& state.has_consume == (state.outcome == Outcome::Success || state.outcome
        == Outcome::PartialFailed)
    &&& state.has_consume || state.error_count > 0
    &&& state.first_seen <= state.last_seen
}

/// The outcomes that count for statistics from `cutoff` on.
pub open spec fn counted_since(states: Seq<OutcomeState>, cutoff: int) -> Seq<OutcomeState> {
    states.filter(
        |state: OutcomeState| state.last_seen >= cutoff && state.outcome != Outcome::Pending,
    )
}

impl Repository {
    /// Whether no two samples share a key and no two outcomes a request.
    pub open spec fn has_unique_keys(self) -> bool {
        &&& forall|i: int, j: int|
            0 <= i < j < self.samples@.len() ==> (#[trigger] self.samples@[i]).sample.sample_key@
                != (#[trigger] self.samples@[j]).sample.sample_key@
        &&& forall|i: int, j: int|
            #![trigger self.outcomes@[i], self.outcomes@[j]]
            0 <= i < j < self.outcomes@.len() ==> !is_about(
                self.outcomes@[j].view(),
                self.outcomes@[i].view().request_id,
                self.outcomes@[i].view().model_name,
            )
        &&& forall|i: int, j: int|
            0 <= i < j < self.states@.len() ==> (#[trigger] self.states@[i]).model_name@ != (
            #[trigger] self.states@[j]).model_name@
    }

    /// Whether keys are unique and every outcome agrees with itself.
    pub open spec fn well_formed(self) -> bool {
        &&& self.has_unique_keys()
        &&& forall|i: int|
            0 <= i < self.outcomes@.len() ==> is_consistent((#[trigger] self.outcomes@[i]).view())
    }

    /// Whether every count of attempts can still grow.
    pub open spec fn attempts_can_grow(self) -> bool {
        forall|i: int|
            0 <= i < self.outcomes@.len() ==> (#[trigger] self.outcomes@[i]).attempt_count
                < i64::MAX && self.outcomes@[i].error_count < i64::MAX
    }

    /// Whether every count of failures can still grow.
    pub open spec fn failures_can_grow(self) -> bool {
        forall|i: int|
            0 <= i < self.states@.len() ==> (#[trigger] self.states@[i]).consecutive_failures
                < i64::MAX
    }

    /// An empty store.
    pub fn new() -> (r: Self)
        ensures
            r.well_formed(),
            r.attempts_can_grow(),
            r.failures_can_grow(),
            r.samples@.len() == 0,
            r.outcomes@.len() == 0,
            r.states@.len() == 0,
            r.perf_metrics@.len() == 0,
    {
        Repository {
            samples: Vec::new(),
            outcomes: Vec::new(),
            states: Vec::new(),
            perf_metrics: Vec::new(),
        }
    }

    /// Stores a sample and merges it into the outcome of its request. `false` says
    /// that the sample was known already.
    pub fn ingest(&mut self, sample: &LogSample, ingested_at: i64) -> (inserted: bool)
        requires
            old(self).has_unique_keys(),
            old(self).attempts_can_grow(),
        ensures
            final(self).has_unique_keys(),
            old(self).well_formed() ==> final(self).well_formed(),
            inserted == !has_key(old(self).samples@, sample.sample_key@),
            !inserted ==> *final(self) == *old(self),
            inserted ==> final(self).samples@ == old(self).samples@.push(
                StoredSample { sample: *sample, ingested_at },
            ) && merges(
                states_of(old(self).outcomes@),
                states_of(final(self).outcomes@),
                *sample,
            ),
            final(self).states == old(self).states,
            final(self).perf_metrics == old(self).perf_metrics,
    {
        let mut i: usize = 0;
        while i < self.samples.len()
            invariant
                i <= self.samples@.len(),
                *self == *old(self),
                self.has_unique_keys(),
                self.attempts_can_grow(),
                forall|j: int|
                    0 <= j < i ==> (#[trigger] self.samples@[j]).sample.sample_key@
                        != sample.sample_key@,
            decreases self.samples@.len() - i,
        {
            if text::same_text(
                self.samples[i].sample.sample_key.as_str(),
                sample.sample_key.as_str(),
            ) {
                return false;
            }
            i = i + 1;
        }
        self.samples.push(StoredSample { sample: sample.clone(), ingested_at });
        self.update_outcome(sample);
        true
    }

    fn update_outcome(&mut self, sample: &LogSample)
        requires
            old(self).has_unique_keys(),
            old(self).attempts_can_grow(),
        ensures
            final(self).has_unique_keys(),
            old(self).well_formed() ==> final(self).well_formed(),
            merges(states_of(old(self).outcomes@), states_of(final(self).outcomes@), *sample),
            final(self).samples == old(self).samples,
            final(self).states == old(self).states,
            final(self).perf_metrics == old(self).perf_metrics,
    {
        let ghost before = states_of(self.outcomes@);
        let mut i: usize = 0;
        while i < self.outcomes.len()
            invariant
                i <= self.outcomes@.len(),
                *self == *old(self),
                self.has_unique_keys(),
                self.attempts_can_grow(),
                before == states_of(self.outcomes@),
                forall|j: int|
                    0 <= j < i ==> !#[trigger] is_about(
                        before[j],
                        sample.request_id@,
                        sample.model_name@,
                    ),
            decreases self.outcomes@.len() - i,
        {
            if text::same_text(
                self.outcomes[i].request_id.as_str(),
                sample.request_id.as_str(),
            ) && text::same_text(
                self.outcomes[i].model_name.as_str(),
                sample.model_name.as_str(),
            ) {
                let mut outcome = self.outcomes[i].clone();
                outcome.update(sample);
                self.outcomes.set(i, outcome);
                assert(states_of(self.outcomes@) =~= before.update(
                    i as int,
                    next_state(before[i as int], *sample),
                ));
                assert(is_about(before[i as int], sample.request_id@, sample.model_name@));
                return;
            }
            i = i + 1;
        }
        self.outcomes.push(RequestOutcome::first(sample));
        assert(states_of(self.outcomes@) =~= before.push(first_state(*sample)));
        assert forall|j: int| 0 <= j < self.outcomes@.len() - 1 implies !is_about(
            (#[trigger] self.outcomes@[j]).view(),
            sample.request_id@,
            sample.model_name@,
        ) by {
            assert(is_about(before[j], sample.request_id@, sample.model_name@) == is_about(
                self.outcomes@[j].view(),
                sample.request_id@,
                sample.model_name@,
            ));
        }
    }
}

/// The outcomes that are overdue at `cutoff`.
pub open spec fn overdue(states: Seq<OutcomeState>, cutoff: int) -> Seq<OutcomeState> {
    states.filter(|state: OutcomeState| is_overdue(state, cutoff))
}

/// Whether `notes` holds the progress of `model`.
pub open spec fn notes_model(notes: Seq<Progress>, model: Seq<char>) -> bool {
    exists|i: int| 0 <= i < notes.len() && (#[trigger] notes[i]).model_name == model
}

/// Where `notes` holds the progress of `model`.
pub open spec fn noted_at(notes: Seq<Progress>, model: Seq<char>) -> int {
    choose|i: int| 0 <= i < notes.len() && (#[trigger] notes[i]).model_name == model
}

/// Up to which time the log of `model` was read; 0 where it never was.
pub open spec fn cursor_in(notes: Seq<Progress>, model: Seq<char>) -> int {
    if notes_model(notes, model) {
        notes[noted_at(notes, model)].cursor_created_at
    } else {
        0
    }
}

/// Whether no model is noted twice.
pub open spec fn notes_are_unique(notes: Seq<Progress>) -> bool {
    forall|i: int, j: int|
        0 <= i < j < notes.len() ==> (#[trigger] notes[i]).model_name != (
        #[trigger] notes[j]).model_name
}

/// Whether `after` is `before` with the progress of `model` made `new`, a function
/// of what was noted before.
pub open spec fn notes(
    before: Seq<Progress>,
    after: Seq<Progress>,
    model: Seq<char>,
    new: spec_fn(Option<Progress>) -> Progress,
) -> bool {
    ||| exists|i: int|
        0 <= i < before.len() && (#[trigger] before[i]).model_name == model && after
            == before.update(i, new(Some(before[i])))
    ||| !notes_model(before, model) && after == before.push(new(None))
}

/// The progress of a model after a reading that went well.
pub open spec fn after_success(model: Seq<char>, cursor: int, now: int) -> Progress {
    Progress {
        model_name: model,
        cursor_created_at: cursor,
        last_success_at: now,
        last_error: Seq::empty(),
        consecutive_failures: 0,
    }
}

/// The progress of a model after a reading that failed: the cursor stays.
pub open spec fn after_failure(
    before: Option<Progress>,
    model: Seq<char>,
    error: Seq<char>,
) -> Progress {
    match before {
        Some(p) => Progress {
            last_error: error,
            consecutive_failures: p.consecutive_failures + 1,
            ..p
        },
        None => Progress {
            model_name: model,
            cursor_created_at: 0,
            last_success_at: 0,
            last_error: error,
            consecutive_failures: 1,
        },
    }
}

impl Repository {
    /// Fails every request that is overdue at `cutoff`, and counts them.
    pub fn settle_pending(&mut self, cutoff: i64) -> (count: usize)
        requires
            old(self).has_unique_keys(),
        ensures
            final(self).has_unique_keys(),
            old(self).well_formed() ==> final(self).well_formed(),
            states_of(final(self).outcomes@) == states_of(old(self).outcomes@).map_values(
                |state: OutcomeState| settled(state, cutoff as int),
            ),
            count == overdue(states_of(old(self).outcomes@), cutoff as int).len(),
            final(self).samples == old(self).samples,
            final(self).states == old(self).states,
            final(self).perf_metrics == old(self).perf_metrics,
    {
        let ghost before = states_of(self.outcomes@);
        let ghost start = *self;
        let mut count: usize = 0;
        let mut i: usize = 0;
        proof {
            reveal(Seq::filter);
            assert(before.take(0) == Seq::<OutcomeState>::empty());
        }
        while i < self.outcomes.len()
            invariant
                i <= self.outcomes@.len(),
                self.outcomes@.len() == before.len(),
                start == *old(self),
                start.has_unique_keys(),
                before == states_of(start.outcomes@),
                self.samples == start.samples,
                self.states == start.states,
                self.perf_metrics == start.perf_metrics,
                forall|j: int|
                    0 <= j < i ==> (#[trigger] self.outcomes@[j]).view() == settled(
                        before[j],
                        cutoff as int,
                    ),
                forall|j: int| i <= j < before.len() ==> self.outcomes@[j] == start.outcomes@[j],
                count == overdue(before.take(i as int), cutoff as int).len(),
                count <= i,
            decreases self.outcomes@.len() - i,
        {
            proof {
                reveal(Seq::filter);
                assert(before.take(i + 1).drop_last() == before.take(i as int));
                assert(before[i as int] == start.outcomes@[i as int].view());
            }
            if self.outcomes[i].outcome == Outcome::Pending && !self.outcomes[i].has_consume
                && self.outcomes[i].last_seen <= cutoff {
                let mut outcome = self.outcomes[i].clone();
                outcome.outcome = Outcome::Failed;
                self.outcomes.set(i, outcome);
                count = count + 1;
            }
            i = i + 1;
        }
        assert(before.take(i as int) == before);
        assert(states_of(self.outcomes@) =~= before.map_values(
            |state: OutcomeState| settled(state, cutoff as int),
        ));
        assert forall|j: int|
            start.well_formed() && 0 <= j < self.outcomes@.len() implies is_consistent(
            (#[trigger] self.outcomes@[j]).view(),
        ) by {
            assert(is_consistent(start.outcomes@[j].view()));
        }
        assert forall|j: int, k: int|
            #![trigger self.outcomes@[j], self.outcomes@[k]]
            0 <= j < k < self.outcomes@.len() implies !is_about(
            self.outcomes@[k].view(),
            self.outcomes@[j].view().request_id,
            self.outcomes@[j].view().model_name,
        ) by {
            assert(!is_about(
                start.outcomes@[k].view(),
                start.outcomes@[j].view().request_id,
                start.outcomes@[j].view().model_name,
            ));
        }
        count
    }

    fn state_index(&self, model: &str) -> (r: Option<usize>)
        ensures
            match r {
                Some(i) => i < self.states@.len() && self.states@[i as int].model_name@ == model@,
                None => !notes_model(progress_of(self.states@), model@),
            },
    {
        let mut i: usize = 0;
        while i < self.states.len()
            invariant
                i <= self.states@.len(),
                forall|j: int|
                    0 <= j < i ==> (#[trigger] progress_of(self.states@)[j]).model_name != model@,
            decreases self.states@.len() - i,
        {
            assert(progress_of(self.states@)[i as int] == self.states@[i as int].view());
            if text::same_text(self.states[i].model_name.as_str(), model) {
                return Some(i);
            }
            i = i + 1;
        }
        None
    }

    /// Up to which time the log of `model` was read; 0 where it never was.
    pub fn cursor(&self, model: &str) -> (cursor: i64)
        requires
            self.has_unique_keys(),
        ensures
            cursor == cursor_in(progress_of(self.states@), model@),
    {
        let ghost all = progress_of(self.states@);
        match self.state_index(model) {
            Some(i) => {
                proof {
                    assert(all[i as int].model_name == model@);
                    assert(notes_model(all, model@));
                    let k = noted_at(all, model@);
                    assert(self.states@[k].model_name@ == model@);
                    assert(k == i as int);
                }
                self.states[i].cursor_created_at
            },
            None => 0,
        }
    }

    /// Notes that the log of `model` was read up to `cursor`.
    pub fn record_success(&mut self, model: &str, cursor: i64, now: i64)
        requires
            old(self).has_unique_keys(),
        ensures
            final(self).has_unique_keys(),
            old(self).well_formed() ==> final(self).well_formed(),
            notes(
                progress_of(old(self).states@),
                progress_of(final(self).states@),
                model@,
                |before: Option<Progress>| after_success(model@, cursor as int, now as int),
            ),
            final(self).samples == old(self).samples,
            final(self).outcomes == old(self).outcomes,
            final(self).perf_metrics == old(self).perf_metrics,
    {
        let ghost before = progress_of(self.states@);
        let ghost new = after_success(model@, cursor as int, now as int);
        let state = CollectorState {
            model_name: model.to_string(),
            cursor_created_at: cursor,
            last_success_at: now,
            last_error: String::new(),
            consecutive_failures: 0,
        };
        match self.state_index(model) {
            Some(i) => {
                assert(before[i as int].model_name == model@);
                self.states.set(i, state);
                assert(progress_of(self.states@) =~= before.update(i as int, new));
            },
            None => {
                assert forall|i: int| 0 <= i < self.states@.len() implies (
                #[trigger] self.states@[i]).model_name@ != model@ by {
                    assert(before[i].model_name != model@);
                }
                self.states.push(state);
                assert(progress_of(self.states@) =~= before.push(new));
            },
        }
    }

    /// Notes that reading the log of `model` failed.
    pub fn record_failure(&mut self, model: &str, error: &str)
        requires
            old(self).has_unique_keys(),
            old(self).failures_can_grow(),
        ensures
            final(self).has_unique_keys(),
            old(self).well_formed() ==> final(self).well_formed(),
            notes(
                progress_of(old(self).states@),
                progress_of(final(self).states@),
                model@,
                |before: Option<Progress>| after_failure(before, model@, error@),
            ),
            final(self).samples == old(self).samples,
            final(self).outcomes == old(self).outcomes,
            final(self).perf_metrics == old(self).perf_metrics,
    {
        let ghost before = progress_of(self.states@);
        match self.state_index(model) {
            Some(i) => {
                assert(before[i as int].model_name == model@);
                let state = CollectorState {
                    model_name: self.states[i].model_name.clone(),
                    cursor_created_at: self.states[i].cursor_created_at,
                    last_success_at: self.states[i].last_success_at,
                    last_error: error.to_string(),
                    consecutive_failures: self.states[i].consecutive_failures + 1,
                };
                self.states.set(i, state);
                assert(progress_of(self.states@) =~= before.update(
                    i as int,
                    after_failure(Some(before[i as int]), model@, error@),
                ));
            },
            None => {
                assert forall|i: int| 0 <= i < self.states@.len() implies (
                #[trigger] self.states@[i]).model_name@ != model@ by {
                    assert(before[i].model_name != model@);
                }
                self.states.push(
                    CollectorState {
                        model_name: model.to_string(),
                        cursor_created_at: 0,
                        last_success_at: 0,
                        last_error: error.to_string(),
                        consecutive_failures: 1,
                    },
                );
                assert(progress_of(self.states@) =~= before.push(
                    after_failure(None, model@, error@),
                ));
            },
        }
    }

    /// The requests that have ended and were last seen at `cutoff` or later.
    pub fn outcomes_since(&self, cutoff: i64) -> (rows: Vec<OutcomeRow>)
        ensures
            rows@.len() == counted_since(states_of(self.outcomes@), cutoff as int).len(),
            forall|i: int|
                0 <= i < rows@.len() ==> (#[trigger] rows@[i]).shows(
                    counted_since(states_of(self.outcomes@), cutoff as int)[i],
                ),
    {
        let ghost states = states_of(self.outcomes@);
        let mut rows: Vec<OutcomeRow> = Vec::new();
        let mut i: usize = 0;
        proof {
            reveal(Seq::filter);
            assert(states.take(0) == Seq::<OutcomeState>::empty());
        }
        while i < self.outcomes.len()
            invariant
                i <= self.outcomes@.len(),
                states == states_of(self.outcomes@),
                rows@.len() == counted_since(states.take(i as int), cutoff as int).len(),
                forall|j: int|
                    0 <= j < rows@.len() ==> (#[trigger] rows@[j]).shows(
                        counted_since(states.take(i as int), cutoff as int)[j],
                    ),
            decreases self.outcomes@.len() - i,
        {
            proof {
                reveal(Seq::filter);
                assert(states.take(i + 1).drop_last() == states.take(i as int));
                assert(states.take(i + 1).last() == self.outcomes@[i as int].view());
            }
            let outcome = &self.outcomes[i];
            if outcome.last_seen >= cutoff && outcome.outcome != Outcome::Pending {
                rows.push(
                    OutcomeRow {
                        model_name: outcome.model_name.clone(),
                        group_name: outcome.group_name.clone(),
                        outcome: outcome.outcome.label().to_string(),
                        last_seen: outcome.last_seen,
                        total_ms: outcome.total_ms,
                        ttft_ms: outcome.ttft_ms,
                        attempt_count: outcome.attempt_count,
                        error_count: outcome.error_count,
                        latest_error_code: outcome.latest_error_code.clone(),
                        latest_retry_channel_chain: outcome.latest_retry_channel_chain.clone(),
                    },
                );
            }
            i = i + 1;
        }
        assert(states.take(i as int) == states);
        rows
    }
}

// ---------------------------------------------------------------------------
// Forgetting and counting
// ---------------------------------------------------------------------------
/// The samples from `cutoff` on.
pub open spec fn samples_from(samples: Seq<StoredSample>, cutoff: int) -> Seq<StoredSample> {
    samples.filter(|s: StoredSample| s.sample.created_at >= cutoff)
}

/// The outcomes last seen at `cutoff` or later.
pub open spec fn outcomes_from(outcomes: Seq<RequestOutcome>, cutoff: int) -> Seq<RequestOutcome> {
    outcomes.filter(|o: RequestOutcome| o.last_seen >= cutoff)
}

/// The public metrics fetched at `cutoff` or later.
pub open spec fn metrics_from(
    metrics: Seq<StoredPerfMetrics>,
    cutoff: int,
) -> Seq<StoredPerfMetrics> {
    metrics.filter(|m: StoredPerfMetrics| m.fetched_at >= cutoff)
}

fn recent_samples(samples: &Vec<StoredSample>, cutoff: i64) -> (r: Vec<StoredSample>)
    ensures
        r@ == samples_from(samples@, cutoff as int),
{
    let mut r: Vec<StoredSample> = Vec::new();
    let mut i: usize = 0;
    proof {
        reveal(Seq::filter);
        assert(samples@.take(0) == Seq::<StoredSample>::empty());
    }
    while i < samples.len()
        invariant
            i <= samples@.len(),
            r@ == samples_from(samples@.take(i as int), cutoff as int),
        decreases samples@.len() - i,
    {
        proof {
            reveal(Seq::filter);
            assert(samples@.take(i + 1).drop_last() == samples@.take(i as int));
        }
        if samples[i].sample.created_at >= cutoff {
            r.push(samples[i].clone());
        }
        i = i + 1;
    }
    assert(samples@.take(i as int) == samples@);
    r
}

fn recent_outcomes(outcomes: &Vec<RequestOutcome>, cutoff: i64) -> (r: Vec<RequestOutcome>)
    ensures
        r@ == outcomes_from(outcomes@, cutoff as int),
{
    let mut r: Vec<RequestOutcome> = Vec::new();
    let mut i: usize = 0;
    proof {
        reveal(Seq::filter);
        assert(outcomes@.take(0) == Seq::<RequestOutcome>::empty());
    }
    while i < outcomes.len()
        invariant
            i <= outcomes@.len(),
            r@ == outcomes_from(outcomes@.take(i as int), cutoff as int),
        decreases outcomes@.len() - i,
    {
        proof {
            reveal(Seq::filter);
            assert(outcomes@.take(i + 1).drop_last() == outcomes@.take(i as int));
        }
        if outcomes[i].last_seen >= cutoff {
            r.push(outcomes[i].clone());
        }
        i = i + 1;
    }
    assert(outcomes@.take(i as int) == outcomes@);
    r
}

fn recent_metrics(metrics: &Vec<StoredPerfMetrics>, cutoff: i64) -> (r: Vec<StoredPerfMetrics>)
    ensures
        r@ == metrics_from(metrics@, cutoff as int),
{
    let mut r: Vec<StoredPerfMetrics> = Vec::new();
    let mut i: usize = 0;
    proof {
        reveal(Seq::filter);
        assert(metrics@.take(0) == Seq::<StoredPerfMetrics>::empty());
    }
    while i < metrics.len()
        invariant
            i <= metrics@.len(),
            r@ == metrics_from(metrics@.take(i as int), cutoff as int),
        decreases metrics@.len() - i,
    {
        proof {
            reveal(Seq::filter);
            assert(metrics@.take(i + 1).drop_last() == metrics@.take(i as int));
        }
        if metrics[i].fetched_at >= cutoff {
            r.push(metrics[i].clone());
        }
        i = i + 1;
    }
    assert(metrics@.take(i as int) == metrics@);
    r
}

/// Every element of a filtered sequence stood in the sequence, in the same order.
proof fn filtered_in_order<A>(s: Seq<A>, pred: spec_fn(A) -> bool) -> (from: Seq<int>)
    ensures
        from.len() == s.filter(pred).len(),
        forall|i: int|
            0 <= i < from.len() ==> 0 <= #[trigger] from[i] < s.len() && s[from[i]] == s.filter(
                pred,
            )[i],
        forall|i: int, j: int| 0 <= i < j < from.len() ==> from[i] < from[j],
    decreases s.len(),
{
    reveal(Seq::filter);
    if s.len() == 0 {
        Seq::empty()
    } else {
        let rest = filtered_in_order(s.drop_last(), pred);
        let from = if pred(s.last()) {
            rest.push(s.len() - 1)
        } else {
            rest
        };
        assert forall|i: int| 0 <= i < from.len() implies 0 <= #[trigger] from[i] < s.len()
            && s[from[i]] == s.filter(pred)[i] by {
            if i < rest.len() {
                assert(0 <= rest[i] < s.drop_last().len());
            }
        }
        assert forall|i: int, j: int| 0 <= i < j < from.len() implies from[i] < from[j] by {
            if j >= rest.len() {
                assert(0 <= rest[i] < s.drop_last().len());
            }
        }
        from
    }
}

impl Repository {
    /// Forgets the samples created, the requests last seen and the public metrics
    /// fetched before `cutoff`.
    pub fn cleanup(&mut self, cutoff: i64)
        requires
            old(self).has_unique_keys(),
        ensures
            final(self).has_unique_keys(),
            old(self).well_formed() ==> final(self).well_formed(),
            final(self).samples@ == samples_from(old(self).samples@, cutoff as int),
            final(self).outcomes@ == outcomes_from(old(self).outcomes@, cutoff as int),
            final(self).perf_metrics@ == metrics_from(old(self).perf_metrics@, cutoff as int),
            final(self).states == old(self).states,
    {
        let samples = recent_samples(&self.samples, cutoff);
        let outcomes = recent_outcomes(&self.outcomes, cutoff);
        let perf_metrics = recent_metrics(&self.perf_metrics, cutoff);
        proof {
            let from = filtered_in_order(
                self.samples@,
                |s: StoredSample| s.sample.created_at >= cutoff as int,
            );
            assert forall|i: int, j: int| 0 <= i < j < samples@.len() implies (
            #[trigger] samples@[i]).sample.sample_key@ != (
            #[trigger] samples@[j]).sample.sample_key@ by {
                assert(from[i] < from[j]);
            }
            let from = filtered_in_order(
                self.outcomes@,
                |o: RequestOutcome| o.last_seen >= cutoff as int,
            );
            assert forall|i: int|
                self.well_formed() && 0 <= i < outcomes@.len() implies is_consistent(
                (#[trigger] outcomes@[i]).view(),
            ) by {
                assert(outcomes@[i] == self.outcomes@[from[i]]);
            }
            assert forall|i: int, j: int|
                #![trigger outcomes@[i], outcomes@[j]]
                0 <= i < j < outcomes@.len() implies !is_about(
                outcomes@[j].view(),
                outcomes@[i].view().request_id,
                outcomes@[i].view().model_name,
            ) by {
                assert(from[i] < from[j]);
                assert(outcomes@[i] == self.outcomes@[from[i]]);
                assert(outcomes@[j] == self.outcomes@[from[j]]);
            }
        }
        self.samples = samples;
        self.outcomes = outcomes;
        self.perf_metrics = perf_metrics;
    }

    /// How many samples and outcomes the store holds.
    pub fn stats(&self) -> (r: DatabaseStats)
        ensures
            r.sample_count == num::clamped(self.samples@.len() as int),
            r.outcome_count == num::clamped(self.outcomes@.len() as int),
    {
        DatabaseStats {
            sample_count: num::clamp(self.samples.len() as i128),
            outcome_count: num::clamp(self.outcomes.len() as i128),
        }
    }
}

// ---------------------------------------------------------------------------
// Versions of the tables
// ---------------------------------------------------------------------------
/// One step from an older version of the tables to the current one.
#[derive(Clone, Copy, Debug, PartialEq, Eq, Structural)]
pub enum MigrationStep {
    /// Add the column `retry_channel_chain` to the samples.
    AddSampleChain,
    /// Add the column `latest_retry_channel_chain` to the outcomes.
    AddOutcomeChain,
    /// Note the version of the tables.
    SetVersion(i64),
}

/// What is known of the tables: their version, and whether samples and outcomes
/// have a column for the retry chain.
#[derive(Clone, Copy, Debug, PartialEq, Eq, Structural)]
pub struct Schema {
    pub version: i64,
    pub sample_chain: bool,
    pub outcome_chain: bool,
}

impl MigrationStep {
    /// The statement that makes this step: a column is added behind the others and is
    /// empty in the rows that there are.
    pub open spec fn sql(self) -> Seq<char> {
        match self {
            MigrationStep::AddSampleChain => "ALTER TABLE log_samples ADD COLUMN retry_channel_chain TEXT NOT NULL DEFAULT ''"@,
            MigrationStep::AddOutcomeChain => "ALTER TABLE request_outcomes ADD COLUMN latest_retry_channel_chain TEXT NOT NULL DEFAULT ''"@,
            MigrationStep::SetVersion(version) => "PRAGMA user_version="@ + decimal::decimal(
                version as int,
            ),
        }
    }

    /// The statement that makes this step.
    pub fn statement(&self) -> (r: String)
        ensures
            r@ == self.sql(),
    {
        match self {
            MigrationStep::AddSampleChain => "ALTER TABLE log_samples ADD COLUMN retry_channel_chain TEXT NOT NULL DEFAULT ''".to_string(),
            MigrationStep::AddOutcomeChain => "ALTER TABLE request_outcomes ADD COLUMN latest_retry_channel_chain TEXT NOT NULL DEFAULT ''".to_string(),
            MigrationStep::SetVersion(version) => {
                let mut r = "PRAGMA user_version=".to_string();
                r.append(decimal::to_decimal(*version).as_str());
                r
            },
        }
    }
}

impl Schema {
    /// The tables after a step.
    pub open spec fn after(self, step: MigrationStep) -> Schema {
        match step {
            MigrationStep::AddSampleChain => Schema { sample_chain: true, ..self },
            MigrationStep::AddOutcomeChain => Schema { outcome_chain: true, ..self },
            MigrationStep::SetVersion(version) => Schema { version, ..self },
        }
    }

    /// The tables after a number of steps.
    pub open spec fn after_all(self, steps: Seq<MigrationStep>) -> Schema
        decreases steps.len(),
    {
        if steps.len() == 0 {
            self
        } else {
            self.after(steps.first()).after_all(steps.drop_first())
        }
    }

    /// The steps to the current version.
    pub open spec fn steps(self) -> Seq<MigrationStep> {
        (if self.sample_chain {
            Seq::empty()
        } else {
            seq![MigrationStep::AddSampleChain]
        }) + (if self.outcome_chain {
            Seq::empty()
        } else {
            seq![MigrationStep::AddOutcomeChain]
        }) + seq![MigrationStep::SetVersion(SCHEMA_VERSION)]
    }

    /// Plans the steps from these tables to the current version. Tables of a later
    /// version are refused.
    pub fn migration(&self) -> (r: Result<Vec<MigrationStep>, String>)
        ensures
            r is Ok <==> self.version <= SCHEMA_VERSION,
            match r {
                Ok(steps) => steps@ == self.steps(),
                Err(error) => error@ == "SQLite schema 版本 "@ + decimal::decimal(
                    self.version as int,
                ) + " 高于插件支持版本 "@ + decimal::decimal(SCHEMA_VERSION as int),
            },
    {
        if self.version > SCHEMA_VERSION {
            let mut error = "SQLite schema 版本 ".to_string();
            error.append(decimal::to_decimal(self.version).as_str());
            error.append(" 高于插件支持版本 ");
            error.append(decimal::to_decimal(SCHEMA_VERSION).as_str());
            return Err(error);
        }
        let mut steps: Vec<MigrationStep> = Vec::new();
        if !self.sample_chain {
            steps.push(MigrationStep::AddSampleChain);
        }
        if !self.outcome_chain {
            steps.push(MigrationStep::AddOutcomeChain);
        }
        steps.push(MigrationStep::SetVersion(SCHEMA_VERSION));
        assert(steps@ =~= self.steps());
        Ok(steps)
    }
}

// ---------------------------------------------------------------------------
// Laws
// ---------------------------------------------------------------------------
/// From any older version, also one that was left half way, the planned steps lead
/// to the current tables; from there nothing but the version is written again.
pub proof fn migration_reaches_current_tables(schema: Schema)
    ensures
        schema.after_all(schema.steps()) == (Schema {
            version: SCHEMA_VERSION,
            sample_chain: true,
            outcome_chain: true,
        }),
        schema.after_all(schema.steps()).steps() == seq![MigrationStep::SetVersion(SCHEMA_VERSION)],
{
    reveal_with_fuel(Schema::after_all, 4);
    let steps = schema.steps();
    if !schema.sample_chain && !schema.outcome_chain {
        assert(steps.drop_first() =~= seq![
            MigrationStep::AddOutcomeChain,
            MigrationStep::SetVersion(SCHEMA_VERSION),
        ]);
        assert(steps.drop_first().drop_first() =~= seq![MigrationStep::SetVersion(SCHEMA_VERSION)]);
    } else if !schema.sample_chain || !schema.outcome_chain {
        assert(steps.drop_first() =~= seq![MigrationStep::SetVersion(SCHEMA_VERSION)]);
    }
    assert(schema.after_all(steps).steps() =~= seq![MigrationStep::SetVersion(SCHEMA_VERSION)]);
}

/// A sample that was stored is known from then on: storing it again changes
/// nothing.
pub proof fn stored_sample_is_known(samples: Seq<StoredSample>, stored: StoredSample)
    ensures
        has_key(samples.push(stored), stored.sample.sample_key@),
{
    assert(samples.push(stored)[samples.len() as int] == stored);
}

/// What the samples of one request say together, in the order in which they came.
pub open spec fn request_state(samples: Seq<LogSample>) -> OutcomeState
    recommends
        samples.len() > 0,
    decreases samples.len(),
{
    if samples.len() <= 1 {
        first_state(samples[0])
    } else {
        next_state(request_state(samples.drop_last()), samples.last())
    }
}

/// The failed attempts among `samples`.
pub open spec fn failed_attempts(samples: Seq<LogSample>) -> Seq<LogSample> {
    samples.filter(|s: LogSample| s.kind == SampleKind::Error)
}

/// The paid log lines among `samples`.
pub open spec fn paid_lines(samples: Seq<LogSample>) -> Seq<LogSample> {
    samples.filter(|s: LogSample| s.kind == SampleKind::Consume)
}

/// The outcome of a request follows from all its samples: every failed attempt is
/// counted, a paid log line is one more attempt, and the request is pending until
/// there is a paid log line, the latest of which says how it ended.
pub proof fn outcome_follows_from_samples(samples: Seq<LogSample>)
    requires
        samples.len() > 0,
    ensures
        is_consistent(request_state(samples)),
        request_state(samples).error_count == failed_attempts(samples).len(),
        request_state(samples).has_consume == (paid_lines(samples).len() > 0),
        request_state(samples).attempt_count == failed_attempts(samples).len() + if paid_lines(
            samples,
        ).len() > 0 {
            1int
        } else {
            0int
        },
        request_state(samples).outcome == if paid_lines(samples).len() > 0 {
            paid_outcome(paid_lines(samples).last())
        } else {
            Outcome::Pending
        },
        request_state(samples).request_id == samples[0].request_id@,
        request_state(samples).model_name == samples[0].model_name@,
        request_state(samples).first_seen == samples[0].created_at,
        forall|i: int|
            0 <= i < samples.len() ==> (#[trigger] samples[i]).created_at <= request_state(
                samples,
            ).last_seen,
        exists|i: int|
            0 <= i < samples.len() && (#[trigger] samples[i]).created_at == request_state(
                samples,
            ).last_seen,
    decreases samples.len(),
{
    reveal(Seq::filter);
    let before = samples.drop_last();
    if samples.len() == 1 {
        assert(failed_attempts(before).len() == 0);
        assert(paid_lines(before).len() == 0);
        assert(samples[0] == samples.last());
    } else {
        outcome_follows_from_samples(before);
        let state = request_state(before);
        assert(samples[0] == before[0]);
        assert forall|i: int| 0 <= i < samples.len() implies (#[trigger] samples[i]).created_at
            <= request_state(samples).last_seen by {
            if i < before.len() {
                assert(before[i].created_at <= state.last_seen);
            }
        }
        let k = choose|i: int|
            0 <= i < before.len() && (#[trigger] before[i]).created_at == state.last_seen;
        assert(samples[k].created_at == state.last_seen);
        assert(samples[samples.len() - 1] == samples.last());
    }
}

/// It does not matter whether a failed attempt or the paid log line of a request
/// comes in first: all but the retry chain is the same.
pub proof fn arrival_order_does_not_matter(
    before: OutcomeState,
    error: LogSample,
    paid: LogSample,
)
    requires
        error.kind == SampleKind::Error,
        paid.kind == SampleKind::Consume,
    ensures
        (OutcomeState {
            latest_retry_channel_chain: Seq::empty(),
            ..next_state(next_state(before, error), paid)
        }) == (OutcomeState {
            latest_retry_channel_chain: Seq::empty(),
            ..next_state(next_state(before, paid), error)
        }),
{
}

/// A request that succeeded after failed attempts counts as a success, also where
/// it had been given up before.
pub proof fn late_payment_decides(before: OutcomeState, paid: LogSample, cutoff: int)
    requires
        paid.kind == SampleKind::Consume,
    ensures
        next_state(settled(before, cutoff), paid).outcome == paid_outcome(paid),
        settled(next_state(before, paid), cutoff) == next_state(before, paid),
{
}

/// A request fails for good exactly where nothing but failed attempts were seen,
/// the last of them no later than `cutoff`; settling twice is settling once.
pub proof fn only_overdue_requests_fail(state: OutcomeState, cutoff: int)
    requires
        is_consistent(state),
    ensures
        settled(state, cutoff).outcome == Outcome::Failed <==> !state.has_consume && (
        state.last_seen <= cutoff || state.outcome == Outcome::Failed),
        settled(settled(state, cutoff), cutoff) == settled(state, cutoff),
        is_consistent(settled(state, cutoff)),
{
}

/// Storing a sample changes the outcome of its request and of no other one, and
/// the outcome becomes what the sample makes of it.
pub proof fn merging_touches_one_request(
    before: Seq<OutcomeState>,
    after: Seq<OutcomeState>,
    sample: LogSample,
)
    requires
        merges(before, after, sample),
    ensures
        before.len() <= after.len() <= before.len() + 1,
        forall|i: int|
            0 <= i < before.len() && !is_about(
                #[trigger] before[i],
                sample.request_id@,
                sample.model_name@,
            ) ==> after[i] == before[i],
        exists|i: int|
            0 <= i < after.len() && #[trigger] is_about(
                after[i],
                sample.request_id@,
                sample.model_name@,
            ) && after[i] == if i < before.len() {
                next_state(before[i], sample)
            } else {
                first_state(sample)
            },
{
    if exists|i: int|
        0 <= i < before.len() && #[trigger] is_about(
            before[i],
            sample.request_id@,
            sample.model_name@,
        ) && after == before.update(i, next_state(before[i], sample)) {
        let i = choose|i: int|
            0 <= i < before.len() && #[trigger] is_about(
                before[i],
                sample.request_id@,
                sample.model_name@,
            ) && after == before.update(i, next_state(before[i], sample));
        assert(is_about(after[i], sample.request_id@, sample.model_name@));
    } else {
        let i = before.len() as int;
        assert(is_about(after[i], sample.request_id@, sample.model_name@));
    }
}

/// Forgetting what was last seen before `cutoff` changes no statistics from
/// `cutoff` on.
pub proof fn cleanup_keeps_statistics(outcomes: Seq<RequestOutcome>, cutoff: int, since: int)
    requires
        cutoff <= since,
    ensures
        counted_since(states_of(outcomes_from(outcomes, cutoff)), since) == counted_since(
            states_of(outcomes),
            since,
        ),
    decreases outcomes.len(),
{
    reveal(Seq::filter);
    if outcomes.len() > 0 {
        let rest = outcomes.drop_last();
        cleanup_keeps_statistics(rest, cutoff, since);
        assert(states_of(outcomes).drop_last() =~= states_of(rest));
        let kept = outcomes_from(rest, cutoff);
        assert(states_of(kept.push(outcomes.last())).drop_last() =~= states_of(kept));
    } else {
        assert(outcomes_from(outcomes, cutoff) == outcomes);
    }
}

/// After a reading that went well its end is the cursor; no other model's cursor
/// moves.
pub proof fn success_moves_the_cursor(
    before: Seq<Progress>,
    after: Seq<Progress>,
    model: Seq<char>,
    cursor: int,
    now: int,
    other: Seq<char>,
)
    requires
        notes_are_unique(before),
        notes(before, after, model, |p: Option<Progress>| after_success(model, cursor, now)),
    ensures
        cursor_in(after, model) == cursor,
        other != model ==> cursor_in(after, other) == cursor_in(before, other),
{
    note_is_found(
        before,
        after,
        model,
        |p: Option<Progress>| after_success(model, cursor, now),
        other,
    );
}

/// A reading that failed moves no cursor, so that nothing is skipped.
pub proof fn failure_keeps_the_cursor(
    before: Seq<Progress>,
    after: Seq<Progress>,
    model: Seq<char>,
    error: Seq<char>,
    other: Seq<char>,
)
    requires
        notes_are_unique(before),
        notes(before, after, model, |p: Option<Progress>| after_failure(p, model, error)),
    ensures
        cursor_in(after, other) == cursor_in(before, other),
{
    note_is_found(
        before,
        after,
        model,
        |p: Option<Progress>| after_failure(p, model, error),
        other,
    );
}

proof fn note_is_found(
    before: Seq<Progress>,
    after: Seq<Progress>,
    model: Seq<char>,
    new: spec_fn(Option<Progress>) -> Progress,
    other: Seq<char>,
)
    requires
        notes_are_unique(before),
        notes(before, after, model, new),
        forall|p: Option<Progress>|
            (p is Some ==> p->0.model_name == model) ==> (#[trigger] new(p)).model_name == model,
    ensures
        notes_are_unique(after),
        cursor_in(after, model) == new(
            if notes_model(before, model) {
                Some(before[noted_at(before, model)])
            } else {
                None
            },
        ).cursor_created_at,
        other != model ==> cursor_in(after, other) == cursor_in(before, other),
{
    if exists|i: int|
        0 <= i < before.len() && (#[trigger] before[i]).model_name == model && after
            == before.update(i, new(Some(before[i]))) {
        let i = choose|i: int|
            0 <= i < before.len() && (#[trigger] before[i]).model_name == model && after
                == before.update(i, new(Some(before[i])));
        assert(notes_model(before, model));
        assert(noted_at(before, model) == i);
        assert(after[i].model_name == model);
        assert(notes_model(after, model));
        assert(noted_at(after, model) == i);
        if other != model {
            if notes_model(before, other) {
                let k = noted_at(before, other);
                assert(after[k].model_name == other);
                assert(notes_model(after, other));
                let m = noted_at(after, other);
                assert(before[m].model_name == other);
                assert(m == k);
            } else if notes_model(after, other) {
                let m = noted_at(after, other);
                assert(before[m].model_name == other);
            }
        }
    } else {
        let i = before.len() as int;
        assert(after[i].model_name == model);
        assert(notes_model(after, model));
        let k = noted_at(after, model);
        if k < before.len() {
            assert(before[k].model_name == model);
        }
        if other != model {
            if notes_model(before, other) {
                let k = noted_at(before, other);
                assert(after[k].model_name == other);
                assert(notes_model(after, other));
                let m = noted_at(after, other);
                assert(before[m].model_name == other);
                assert(m == k);
            } else if notes_model(after, other) {
                let m = noted_at(after, other);
                assert(before[m].model_name == other);
            }
        }
    }
}

/// The samples of the request and model that `state` is about.
pub open spec fn samples_about(samples: Seq<LogSample>, state: OutcomeState) -> Seq<LogSample> {
    samples.filter(|s: LogSample| is_about(state, s.request_id@, s.model_name@))
}

/// Whether `state` is `full`, but for a request that was given up in between.
pub open spec fn agrees(state: OutcomeState, full: OutcomeState) -> bool {
    state == full || (full.outcome == Outcome::Pending && !full.has_consume && state == (
    OutcomeState { outcome: Outcome::Failed, ..full }))
}

/// Whether no request has two outcomes.
pub open spec fn states_are_unique(states: Seq<OutcomeState>) -> bool {
    forall|i: int, j: int|
        #![trigger states[i], states[j]]
        0 <= i < j < states.len() ==> !is_about(
            states[j],
            states[i].request_id,
            states[i].model_name,
        )
}

/// Whether `states` account for `samples`, which were stored in this order: each
/// outcome is what the samples of its request say together, and each sample has an
/// outcome.
pub open spec fn account_for(states: Seq<OutcomeState>, samples: Seq<LogSample>) -> bool {
    &&& states_are_unique(states)
    &&& forall|i: int|
        0 <= i < states.len() ==> samples_about(samples, #[trigger] states[i]).len() > 0 && agrees(
            states[i],
            request_state(samples_about(samples, states[i])),
        )
    &&& forall|k: int|
        0 <= k < samples.len() ==> has_state(
            states,
            (#[trigger] samples[k]).request_id@,
            samples[k].model_name@,
        )
}

/// Whether a request has an outcome.
pub open spec fn has_state(
    states: Seq<OutcomeState>,
    request_id: Seq<char>,
    model: Seq<char>,
) -> bool {
    exists|i: int| 0 <= i < states.len() && #[trigger] is_about(states[i], request_id, model)
}

/// Storing a sample keeps the account: the outcomes say what all samples of their
/// requests say together.
pub proof fn storing_keeps_the_account(
    before: Seq<OutcomeState>,
    after: Seq<OutcomeState>,
    samples: Seq<LogSample>,
    sample: LogSample,
)
    requires
        account_for(before, samples),
        merges(before, after, sample),
    ensures
        account_for(after, samples.push(sample)),
{
    reveal(Seq::filter);
    let all = samples.push(sample);
    assert(all.drop_last() =~= samples);
    let request = sample.request_id@;
    let model = sample.model_name@;
    if exists|i: int|
        0 <= i < before.len() && #[trigger] is_about(before[i], request, model) && after
            == before.update(i, next_state(before[i], sample)) {
        let at = choose|i: int|
            0 <= i < before.len() && #[trigger] is_about(before[i], request, model) && after
                == before.update(i, next_state(before[i], sample));
        assert forall|i: int| 0 <= i < after.len() implies samples_about(
            all,
            #[trigger] after[i],
        ).len() > 0 && agrees(after[i], request_state(samples_about(all, after[i]))) by {
            let mine = samples_about(samples, before[i]);
            same_samples(all, before[i], after[i]);
            if i == at {
                assert(samples_about(all, before[i]) =~= mine.push(sample));
                assert(mine.push(sample).drop_last() =~= mine);
            } else {
                assert(!is_about(before[i], request, model)) by {
                    if i < at {
                        assert(!is_about(before[at], before[i].request_id, before[i].model_name));
                    } else {
                        assert(!is_about(
                            before[i],
                            before[at].request_id,
                            before[at].model_name,
                        ));
                    }
                }
                assert(samples_about(all, before[i]) =~= mine);
            }
        }
        assert forall|i: int, j: int|
            #![trigger after[i], after[j]]
            0 <= i < j < after.len() implies !is_about(
            after[j],
            after[i].request_id,
            after[i].model_name,
        ) by {
            assert(!is_about(before[j], before[i].request_id, before[i].model_name));
        }
        assert forall|k: int| 0 <= k < all.len() implies has_state(
            after,
            (#[trigger] all[k]).request_id@,
            all[k].model_name@,
        ) by {
            if k < samples.len() {
                assert(samples[k] == all[k]);
                let i = choose|i: int|
                    0 <= i < before.len() && #[trigger] is_about(
                        before[i],
                        samples[k].request_id@,
                        samples[k].model_name@,
                    );
                assert(is_about(after[i], all[k].request_id@, all[k].model_name@));
            } else {
                assert(is_about(after[at], request, model));
            }
        }
    } else {
        let new = before.len() as int;
        assert forall|i: int| 0 <= i < after.len() implies samples_about(
            all,
            #[trigger] after[i],
        ).len() > 0 && agrees(after[i], request_state(samples_about(all, after[i]))) by {
            if i < new {
                assert(after[i] == before[i]);
                assert(!is_about(before[i], request, model));
                assert(samples_about(all, before[i]) =~= samples_about(samples, before[i]));
            } else {
                assert(samples_about(samples, after[i]).len() == 0) by {
                    nobody_else(before, samples, after[i]);
                }
                assert(samples_about(all, after[i]) =~= seq![sample]);
            }
        }
        assert forall|i: int, j: int|
            #![trigger after[i], after[j]]
            0 <= i < j < after.len() implies !is_about(
            after[j],
            after[i].request_id,
            after[i].model_name,
        ) by {
            if j < new {
                assert(!is_about(before[j], before[i].request_id, before[i].model_name));
            } else {
                assert(!is_about(before[i], request, model));
            }
        }
        assert forall|k: int| 0 <= k < all.len() implies has_state(
            after,
            (#[trigger] all[k]).request_id@,
            all[k].model_name@,
        ) by {
            if k < samples.len() {
                assert(samples[k] == all[k]);
                let i = choose|i: int|
                    0 <= i < before.len() && #[trigger] is_about(
                        before[i],
                        samples[k].request_id@,
                        samples[k].model_name@,
                    );
                assert(is_about(after[i], all[k].request_id@, all[k].model_name@));
            } else {
                assert(is_about(after[new], request, model));
            }
        }
    }
}

proof fn same_samples(samples: Seq<LogSample>, a: OutcomeState, b: OutcomeState)
    requires
        a.request_id == b.request_id,
        a.model_name == b.model_name,
    ensures
        samples_about(samples, a) == samples_about(samples, b),
    decreases samples.len(),
{
    reveal(Seq::filter);
    if samples.len() > 0 {
        same_samples(samples.drop_last(), a, b);
    }
}

proof fn nobody_else(states: Seq<OutcomeState>, samples: Seq<LogSample>, state: OutcomeState)
    requires
        forall|i: int|
            0 <= i < states.len() ==> !#[trigger] is_about(
                states[i],
                state.request_id,
                state.model_name,
            ),
        forall|k: int|
            0 <= k < samples.len() ==> has_state(
                states,
                (#[trigger] samples[k]).request_id@,
                samples[k].model_name@,
            ),
    ensures
        samples_about(samples, state).len() == 0,
    decreases samples.len(),
{
    reveal(Seq::filter);
    if samples.len() > 0 {
        let rest = samples.drop_last();
        assert forall|k: int| 0 <= k < rest.len() implies has_state(
            states,
            (#[trigger] rest[k]).request_id@,
            rest[k].model_name@,
        ) by {
            assert(rest[k] == samples[k]);
        }
        nobody_else(states, rest, state);
        let last = samples[samples.len() - 1];
        if is_about(state, last.request_id@, last.model_name@) {
            let i = choose|i: int|
                0 <= i < states.len() && #[trigger] is_about(
                    states[i],
                    last.request_id@,
                    last.model_name@,
                );
            assert(is_about(states[i], state.request_id, state.model_name));
        }
    }
}

/// Giving up overdue requests keeps the account.
pub proof fn settling_keeps_the_account(
    states: Seq<OutcomeState>,
    samples: Seq<LogSample>,
    cutoff: int,
)
    requires
        account_for(states, samples),
    ensures
        account_for(states.map_values(|s: OutcomeState| settled(s, cutoff)), samples),
{
    let after = states.map_values(|s: OutcomeState| settled(s, cutoff));
    assert forall|i: int| 0 <= i < after.len() implies samples_about(
        samples,
        #[trigger] after[i],
    ).len() > 0 && agrees(after[i], request_state(samples_about(samples, after[i]))) by {
        same_samples(samples, states[i], after[i]);
    }
    assert forall|i: int, j: int|
        #![trigger after[i], after[j]]
        0 <= i < j < after.len() implies !is_about(
        after[j],
        after[i].request_id,
        after[i].model_name,
    ) by {
        assert(!is_about(states[j], states[i].request_id, states[i].model_name));
    }
    assert forall|k: int| 0 <= k < samples.len() implies has_state(
        after,
        (#[trigger] samples[k]).request_id@,
        samples[k].model_name@,
    ) by {
        let i = choose|i: int|
            0 <= i < states.len() && #[trigger] is_about(
                states[i],
                samples[k].request_id@,
                samples[k].model_name@,
            );
        assert(is_about(after[i], samples[k].request_id@, samples[k].model_name@));
    }
}

} // verus!
