//! Snapshots and counts at the moment they are asked for.
use vstd::prelude::*;

use crate::config::AppConfig;
use crate::metrics;
use crate::metrics::WindowSnapshot;
use crate::num;
use crate::repository;
use crate::repository::{DatabaseStats, OutcomeRow, OutcomeState, Repository};

verus! {

/// Whether `rows` show `states`, one by one.
pub open spec fn show_all(rows: Seq<OutcomeRow>, states: Seq<OutcomeState>) -> bool {
    &&& rows.len() == states.len()
    &&& forall|i: int| 0 <= i < rows.len() ==> (#[trigger] rows[i]).shows(states[i])
}

/// The snapshot at `query_at` over the last `window_seconds`, of what the store
/// holds at that moment.
pub fn load_window_snapshot(
    config: &AppConfig,
    repository: &Repository,
    window_seconds: i64,
    query_at: i64,
) -> (r: WindowSnapshot)
    ensures
        exists|rows: Seq<OutcomeRow>|
            #[trigger] show_all(
                rows,
                repository::counted_since(
                    repository::states_of(repository.outcomes@),
                    num::clamped(query_at - window_seconds),
                ),
            ) && r.reports(*config, rows, query_at, window_seconds),
{
    let rows = repository.outcomes_since(num::minus(query_at, window_seconds));
    let r = metrics::build_snapshot(config, rows.as_slice(), query_at, window_seconds);
    assert(show_all(
        rows@,
        repository::counted_since(
            repository::states_of(repository.outcomes@),
            num::clamped(query_at - window_seconds),
        ),
    ));
    r
}

/// How much the store holds at this moment.
pub fn load_database_stats(repository: &Repository) -> (r: DatabaseStats)
    ensures
        r.sample_count == num::clamped(repository.samples@.len() as int),
        r.outcome_count == num::clamped(repository.outcomes@.len() as int),
{
    repository.stats()
}

} // verus!
