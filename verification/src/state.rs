//! What the plugin remembers while it runs.
use vstd::prelude::*;
use vstd::string::*;

use std::collections::HashMap;

use crate::api::PerfMetricData;
use crate::metrics::WindowSnapshot;
use crate::num;
use crate::repository::DatabaseStats;
use crate::text;

verus! {

/// How the collector is doing.
#[derive(Debug)]
pub struct CollectorHealth {
    pub started_at: i64,
    pub last_attempt_at: i64,
    pub last_success_at: i64,
    pub consecutive_failures: u32,
    pub last_error: String,
}

impl Clone for CollectorHealth {
    fn clone(&self) -> (r: Self)
        ensures
            r == *self,
    {
        CollectorHealth {
            started_at: self.started_at,
            last_attempt_at: self.last_attempt_at,
            last_success_at: self.last_success_at,
            consecutive_failures: self.consecutive_failures,
            last_error: self.last_error.clone(),
        }
    }
}

impl Default for CollectorHealth {
    fn default() -> (r: Self)
        ensures
            r.started_at == 0,
            r.last_attempt_at == 0,
            r.last_success_at == 0,
            r.consecutive_failures == 0,
            r.last_error@.len() == 0,
    {
        CollectorHealth {
            started_at: 0,
            last_attempt_at: 0,
            last_success_at: 0,
            consecutive_failures: 0,
            last_error: String::new(),
        }
    }
}

impl CollectorHealth {
    /// Notes that the collector sets out at `now`.
    pub fn attempt(&mut self, now: i64)
        ensures
            *final(self) == (CollectorHealth { last_attempt_at: now, ..*old(self) }),
    {
        self.last_attempt_at = now;
    }

    /// Notes that collecting went well at `now`.
    pub fn update_success(&mut self, now: i64)
        ensures
            final(self).started_at == old(self).started_at,
            final(self).last_attempt_at == old(self).last_attempt_at,
            final(self).last_success_at == now,
            final(self).consecutive_failures == 0,
            final(self).last_error@.len() == 0,
    {
        self.last_success_at = now;
        self.consecutive_failures = 0;
        self.last_error = String::new();
    }

    /// Notes that collecting failed.
    pub fn update_failure(&mut self, error: String)
        ensures
            final(self).started_at == old(self).started_at,
            final(self).last_attempt_at == old(self).last_attempt_at,
            final(self).last_success_at == old(self).last_success_at,
            final(self).consecutive_failures == if old(self).consecutive_failures < u32::MAX {
                old(self).consecutive_failures + 1
            } else {
                u32::MAX as int
            },
            final(self).last_error == error,
    {
        if self.consecutive_failures < u32::MAX {
            self.consecutive_failures = self.consecutive_failures + 1;
        }
        self.last_error = error;
    }
}

/// The snapshots that are kept ready, and how much the store held then.
#[derive(Debug)]
pub struct ReportCache {
    pub generated_at: i64,
    pub windows: HashMap<i64, WindowSnapshot>,
    pub database: DatabaseStats,
}

impl Default for ReportCache {
    fn default() -> (r: Self)
        ensures
            r.generated_at == 0,
            r.windows@ == Map::<i64, WindowSnapshot>::empty(),
            r.database.sample_count == 0,
            r.database.outcome_count == 0,
    {
        ReportCache {
            generated_at: 0,
            windows: HashMap::new(),
            database: DatabaseStats { sample_count: 0, outcome_count: 0 },
        }
    }
}

/// What was pushed, and what may be pushed next.
#[derive(Debug)]
pub struct PushState {
    pub last_heartbeat_at: i64,
    pub last_push_at: i64,
    pub last_sent_fingerprint: String,
    pub last_sent_had_alert: bool,
    pub candidate_fingerprint: String,
    pub candidate_count: u32,
    pub missing_targets_logged: bool,
}

impl Default for PushState {
    fn default() -> (r: Self)
        ensures
            r.last_heartbeat_at == 0,
            r.last_push_at == 0,
            r.last_sent_fingerprint@.len() == 0,
            !r.last_sent_had_alert,
            r.candidate_fingerprint@.len() == 0,
            r.candidate_count == 0,
            !r.missing_targets_logged,
    {
        PushState {
            last_heartbeat_at: 0,
            last_push_at: 0,
            last_sent_fingerprint: String::new(),
            last_sent_had_alert: false,
            candidate_fingerprint: String::new(),
            candidate_count: 0,
            missing_targets_logged: false,
        }
    }
}

// ---------------------------------------------------------------------------
// Public metrics that were fetched
// ---------------------------------------------------------------------------
/// Public metrics, and when they were fetched.
#[derive(Clone, Debug)]
pub struct PerfCacheEntry {
    pub fetched_at: i64,
    pub data: PerfMetricData,
}

/// The public metrics that were fetched, by model and hours.
#[derive(Debug)]
pub struct PerfCache {
    pub entries: Vec<(String, u32, PerfCacheEntry)>,
}

impl PerfCache {
    /// The entry for `model` and `hours`, where there is one.
    pub open spec fn view(&self) -> Map<(Seq<char>, u32), PerfCacheEntry> {
        contents(self.entries@)
    }

    /// Whether no model and hours have two entries.
    pub open spec fn well_formed(self) -> bool {
        forall|i: int, j: int|
            0 <= i < j < self.entries@.len() ==> key_of(#[trigger] self.entries@[i]) != key_of(
                #[trigger] self.entries@[j],
            )
    }
}

/// What an entry is about.
pub open spec fn key_of(entry: (String, u32, PerfCacheEntry)) -> (Seq<char>, u32) {
    (entry.0@, entry.1)
}

/// The entries by what they are about.
pub open spec fn contents(entries: Seq<(String, u32, PerfCacheEntry)>) -> Map<
    (Seq<char>, u32),
    PerfCacheEntry,
>
    decreases entries.len(),
{
    if entries.len() == 0 {
        Map::empty()
    } else {
        contents(entries.drop_last()).insert(key_of(entries.last()), entries.last().2)
    }
}

proof fn contents_of_entry(entries: Seq<(String, u32, PerfCacheEntry)>, i: int)
    requires
        0 <= i < entries.len(),
        forall|a: int, b: int|
            0 <= a < b < entries.len() ==> key_of(#[trigger] entries[a]) != key_of(
                #[trigger] entries[b],
            ),
    ensures
        contents(entries).contains_key(key_of(entries[i])),
        contents(entries)[key_of(entries[i])] == entries[i].2,
    decreases entries.len(),
{
    if i < entries.len() - 1 {
        contents_of_entry(entries.drop_last(), i);
        assert(key_of(entries[i]) != key_of(entries[entries.len() - 1]));
    }
}

proof fn contents_without_entry(
    entries: Seq<(String, u32, PerfCacheEntry)>,
    key: (Seq<char>, u32),
)
    requires
        forall|a: int| 0 <= a < entries.len() ==> key_of(#[trigger] entries[a]) != key,
    ensures
        !contents(entries).contains_key(key),
    decreases entries.len(),
{
    if entries.len() > 0 {
        contents_without_entry(entries.drop_last(), key);
        assert(key_of(entries[entries.len() - 1]) != key);
    }
}

proof fn contents_after_update(
    entries: Seq<(String, u32, PerfCacheEntry)>,
    i: int,
    new: (String, u32, PerfCacheEntry),
)
    requires
        0 <= i < entries.len(),
        key_of(new) == key_of(entries[i]),
        forall|a: int, b: int|
            0 <= a < b < entries.len() ==> key_of(#[trigger] entries[a]) != key_of(
                #[trigger] entries[b],
            ),
    ensures
        contents(entries.update(i, new)) == contents(entries).insert(key_of(new), new.2),
    decreases entries.len(),
{
    let after = entries.update(i, new);
    if i == entries.len() - 1 {
        assert(after.drop_last() =~= entries.drop_last());
        assert(contents(after) =~= contents(entries).insert(key_of(new), new.2));
    } else {
        contents_after_update(entries.drop_last(), i, new);
        assert(after.drop_last() =~= entries.drop_last().update(i, new));
        assert(key_of(entries[i]) != key_of(entries[entries.len() - 1]));
        assert(contents(after) =~= contents(entries).insert(key_of(new), new.2));
    }
}

/// Whether an entry is still good at `now`.
pub open spec fn is_fresh(entry: PerfCacheEntry, now: i64, ttl: i64) -> bool {
    num::clamped(now - entry.fetched_at) <= ttl
}

impl PerfCache {
    /// An empty cache.
    pub fn new() -> (r: Self)
        ensures
            r.well_formed(),
            r.view() == Map::<(Seq<char>, u32), PerfCacheEntry>::empty(),
    {
        PerfCache { entries: Vec::new() }
    }

    fn find(&self, model: &str, hours: u32) -> (r: Option<usize>)
        ensures
            match r {
                Some(i) => i < self.entries@.len() && key_of(self.entries@[i as int]) == (
                    model@,
                    hours,
                ),
                None => forall|a: int|
                    0 <= a < self.entries@.len() ==> key_of(#[trigger] self.entries@[a]) != (
                        model@,
                        hours,
                    ),
            },
    {
        let mut i: usize = 0;
        while i < self.entries.len()
            invariant
                i <= self.entries@.len(),
                forall|a: int|
                    0 <= a < i ==> key_of(#[trigger] self.entries@[a]) != (model@, hours),
            decreases self.entries@.len() - i,
        {
            if self.entries[i].1 == hours && text::same_text(self.entries[i].0.as_str(), model) {
                return Some(i);
            }
            i = i + 1;
        }
        None
    }

    /// The metrics of `model` that were fetched no longer than `ttl` seconds ago.
    pub fn fresh(&self, model: &str, hours: u32, now: i64, ttl: i64) -> (r: Option<
        &PerfMetricData,
    >)
        requires
            self.well_formed(),
        ensures
            match r {
                Some(data) => self.view().contains_key((model@, hours)) && is_fresh(
                    self.view()[(model@, hours)],
                    now,
                    ttl,
                ) && *data == self.view()[(model@, hours)].data,
                None => !self.view().contains_key((model@, hours)) || !is_fresh(
                    self.view()[(model@, hours)],
                    now,
                    ttl,
                ),
            },
    {
        match self.find(model, hours) {
            Some(i) => {
                proof {
                    contents_of_entry(self.entries@, i as int);
                }
                if num::minus(now, self.entries[i].2.fetched_at) <= ttl {
                    Some(&self.entries[i].2.data)
                } else {
                    None
                }
            },
            None => {
                proof {
                    contents_without_entry(self.entries@, (model@, hours));
                }
                None
            },
        }
    }

    /// Keeps metrics of `model` that were fetched at `now`.
    pub fn store(&mut self, model: &str, hours: u32, now: i64, data: PerfMetricData)
        requires
            old(self).well_formed(),
        ensures
            final(self).well_formed(),
            final(self).view() == old(self).view().insert(
                (model@, hours),
                PerfCacheEntry { fetched_at: now, data },
            ),
    {
        let entry = (model.to_string(), hours, PerfCacheEntry { fetched_at: now, data });
        match self.find(model, hours) {
            Some(i) => {
                proof {
                    contents_after_update(self.entries@, i as int, entry);
                }
                self.entries.set(i, entry);
            },
            None => {
                let ghost before = self.entries@;
                self.entries.push(entry);
                assert(self.entries@.drop_last() =~= before);
            },
        }
    }
}

// ---------------------------------------------------------------------------
// Waking and stopping the collector
// ---------------------------------------------------------------------------
/// What is asked of the collector while it waits.
#[derive(Clone, Copy, Debug, PartialEq, Eq, Structural)]
pub struct WorkerControl {
    pub stop: bool,
    pub wake: bool,
}

impl Default for WorkerControl {
    fn default() -> (r: Self)
        ensures
            !r.stop,
            !r.wake,
    {
        WorkerControl { stop: false, wake: false }
    }
}

impl WorkerControl {
    /// Asks for a collection now.
    pub fn request_refresh(&mut self)
        ensures
            final(self).wake,
            final(self).stop == old(self).stop,
    {
        self.wake = true;
    }

    /// Asks the collector to end.
    pub fn request_stop(&mut self)
        ensures
            final(self).stop,
            final(self).wake == old(self).wake,
    {
        self.stop = true;
    }

    /// Whether the collector has to wait: nothing was asked of it.
    pub fn must_wait(&self) -> (r: bool)
        ensures
            r == !(self.stop || self.wake),
    {
        !self.stop && !self.wake
    }

    /// Ends a wait. `true` says that the collector has to end, `false` that it goes
    /// on with the next round.
    pub fn wait(&mut self) -> (exit: bool)
        ensures
            exit == old(self).stop,
            exit ==> *final(self) == *old(self),
            !exit ==> !final(self).stop && !final(self).wake,
    {
        if self.stop {
            return true;
        }
        self.wake = false;
        false
    }
}

// ---------------------------------------------------------------------------
// The one running plugin
// ---------------------------------------------------------------------------
/// The place of the one running plugin.
#[derive(Debug)]
pub struct Slot<T> {
    pub value: Option<T>,
}

impl<T> Slot<T> {
    /// An empty place.
    pub fn empty() -> (r: Self)
        ensures
            r.value is None,
    {
        Slot { value: None }
    }

    /// Puts the plugin into its place. A place that is taken stays as it is.
    pub fn install(&mut self, value: T) -> (r: Result<(), String>)
        ensures
            r is Ok <==> old(self).value is None,
            r is Ok ==> final(self).value == Some(value),
            r matches Err(error) ==> error@ == "插件已经初始化"@ && *final(self) == *old(self),
    {
        if self.value.is_some() {
            return Err("插件已经初始化".to_string());
        }
        self.value = Some(value);
        Ok(())
    }

    /// What is in the place.
    pub fn current(&self) -> (r: Option<&T>)
        ensures
            match r {
                Some(value) => self.value == Some(*value),
                None => self.value is None,
            },
    {
        match &self.value {
            Some(value) => Some(value),
            None => None,
        }
    }

    /// Takes what is in the place.
    pub fn take(&mut self) -> (r: Option<T>)
        ensures
            r == old(self).value,
            final(self).value is None,
    {
        self.value.take()
    }
}

// ---------------------------------------------------------------------------
// The time
// ---------------------------------------------------------------------------
/// The seconds since the beginning of 1970 as the clock gives them; none where the
/// clock stands before that.
///
/// Calls `std::time::SystemTime::elapsed` on the beginning of 1970. Nothing is
/// claimed of the result.
#[verifier::external_body]
fn clock() -> (r: Option<u64>) {
    std::time::UNIX_EPOCH.elapsed().ok().map(|d| d.as_secs())
}

/// The time in seconds that a reading of the clock stands for.
pub open spec fn time_of(reading: Option<u64>) -> int {
    match reading {
        Some(seconds) => if seconds <= i64::MAX {
            seconds as int
        } else {
            seconds - 0x1_0000_0000_0000_0000
        },
        None => 0,
    }
}

/// The time in seconds that a reading of the clock stands for.
pub fn unix_seconds(reading: Option<u64>) -> (r: i64)
    ensures
        r == time_of(reading),
{
    match reading {
        Some(seconds) => {
            if seconds <= i64::MAX as u64 {
                seconds as i64
            } else {
                (seconds as i128 - 0x1_0000_0000_0000_0000) as i64
            }
        },
        None => 0,
    }
}

/// Whether `now` is the time that a reading of the clock stands for.
pub closed spec fn is_clock_time(now: i64) -> bool {
    exists|reading: Option<u64>| #[trigger] call_ensures(clock, (), reading) && now == time_of(
        reading,
    )
}

fn read_clock<F: Fn() -> Option<u64>>(clock: F) -> (reading: Option<u64>)
    requires
        call_requires(clock, ()),
    ensures
        call_ensures(clock, (), reading),
{
    clock()
}

/// The present time in seconds since the beginning of 1970: what a reading of the
/// clock stands for.
pub fn unix_now() -> (r: i64)
    ensures
        is_clock_time(r),
{
    let reading = read_clock(clock);
    unix_seconds(reading)
}

} // verus!
