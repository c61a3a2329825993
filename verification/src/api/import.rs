//! Imports that run in the background, at most one for each library.

use std::collections::HashMap;
use vstd::prelude::*;

use crate::api::error::{conflict, not_found, ApiError, ApiResult};
use crate::api::{known_libraries_are_found, AppState};
use crate::clock::timestamp;
use crate::ingest::ImportStats;

verus! {

broadcast use vstd::std_specs::hash::group_hash_axioms;

/// What is known of a library's imports.
#[derive(Debug)]
pub struct ImportState {
    pub running: bool,
    pub started_at: Option<i64>,
    pub finished_at: Option<i64>,
    pub last_stats: Option<ImportStatsView>,
    pub last_error: Option<String>,
}

/// Summary of an `ImportStats`.
#[derive(Debug, Clone, Copy, PartialEq, Eq, Structural)]
pub struct ImportStatsView {
    pub scanned: u64,
    pub imported: u64,
    pub duplicates: u64,
    pub failed: u64,
}

impl From<&ImportStats> for ImportStatsView {
    fn from(s: &ImportStats) -> (r: Self) {
        ImportStatsView {
            scanned: s.scanned,
            imported: s.imported,
            duplicates: s.duplicates,
            failed: s.failed,
        }
    }
}

impl vstd::std_specs::convert::FromSpecImpl<&ImportStats> for ImportStatsView {
    open spec fn obeys_from_spec() -> bool {
        true
    }

    open spec fn from_spec(s: &ImportStats) -> Self {
        summarized(*s)
    }
}

/// The counts of an import.
pub open spec fn summarized(s: ImportStats) -> ImportStatsView {
    ImportStatsView {
        scanned: s.scanned,
        imported: s.imported,
        duplicates: s.duplicates,
        failed: s.failed,
    }
}

/// A library of which no import has been asked yet.
pub open spec fn never_imported() -> ImportState {
    ImportState {
        running: false,
        started_at: None,
        finished_at: None,
        last_stats: None,
        last_error: None,
    }
}

impl Default for ImportState {
    fn default() -> (r: Self)
        ensures
            r == never_imported(),
    {
        ImportState {
            running: false,
            started_at: None,
            finished_at: None,
            last_stats: None,
            last_error: None,
        }
    }
}

impl Clone for ImportState {
    fn clone(&self) -> (r: Self)
        ensures
            r == *self,
    {
        ImportState {
            running: self.running,
            started_at: self.started_at,
            finished_at: self.finished_at,
            last_stats: self.last_stats,
            last_error: match &self.last_error {
                Some(text) => Some(text.clone()),
                None => None,
            },
        }
    }
}

/// The state after an import was started at the time `now`.
pub open spec fn started(state: ImportState, now: i64) -> ImportState {
    ImportState {
        running: true,
        started_at: Some(now),
        finished_at: None,
        last_error: None,
        ..state
    }
}

/// Whether `next` is the state after an import finished at the time `now`: it
/// keeps the counts of the import, or why it failed.
pub open spec fn finished(
    state: ImportState,
    now: i64,
    result: Result<ImportStats, String>,
    next: ImportState,
) -> bool {
    next == match result {
        Ok(stats) => ImportState {
            running: false,
            finished_at: Some(now),
            last_stats: Some(summarized(stats)),
            ..state
        },
        Err(reason) => ImportState {
            running: false,
            finished_at: Some(now),
            last_error: Some(reason),
            ..state
        },
    }
}

/// What is known of the imports of the library `id`.
pub open spec fn state_in(states: Map<i64, ImportState>, id: i64) -> ImportState {
    if states.contains_key(id) {
        states[id]
    } else {
        never_imported()
    }
}

/// Why an import of the library `id` may not be started.
pub open spec fn start_refusal(app: AppState, states: Map<i64, ImportState>, id: i64) -> Option<
    (u16, Seq<char>),
> {
    if !app.has_library(id) {
        Some(not_found("library"@))
    } else if state_in(states, id).running {
        Some(conflict("import already running"@))
    } else {
        None
    }
}

/// The imports of every library.
pub struct ImportStates {
    pub states: HashMap<i64, ImportState>,
}

impl View for ImportStates {
    type V = Map<i64, ImportState>;

    open spec fn view(&self) -> Map<i64, ImportState> {
        self.states@
    }
}

impl ImportStates {
    pub fn new() -> (r: ImportStates)
        ensures
            r@ == Map::<i64, ImportState>::empty(),
    {
        ImportStates { states: HashMap::new() }
    }

    /// What is known of the imports of the library `id`.
    pub fn snapshot(&self, id: i64) -> (r: ImportState)
        ensures
            r == state_in(self@, id),
    {
        match self.states.get(&id) {
            Some(state) => state.clone(),
            None => ImportState::default(),
        }
    }

    /// What a request for the state of a library's imports is answered.
    pub fn get_status(&self, app: &AppState, id: i64) -> (r: ApiResult<ImportState>)
        ensures
            match r {
                Ok(state) => app.has_library(id) && state == state_in(self@, id),
                Err(e) => !app.has_library(id) && e@ == not_found("library"@),
            },
    {
        app.require_library(id)?;
        Ok(self.snapshot(id))
    }

    /// Starts an import of the library `id` at the time `now`, unless one is
    /// running.
    pub fn trigger_at(&mut self, app: &AppState, id: i64, now: i64) -> (r: ApiResult<ImportState>)
        ensures
            match r {
                Ok(state) => {
                    &&& start_refusal(*app, old(self)@, id) is None
                    &&& state == started(state_in(old(self)@, id), now)
                    &&& final(self)@ == old(self)@.insert(id, state)
                },
                Err(e) => {
                    &&& start_refusal(*app, old(self)@, id) == Some(e@)
                    &&& final(self)@ == old(self)@
                },
            },
    {
        app.require_library(id)?;
        let mut state = self.snapshot(id);
        if state.running {
            return Err(ApiError::conflict("import already running"));
        }
        state.running = true;
        state.started_at = Some(now);
        state.finished_at = None;
        state.last_error = None;
        self.states.insert(id, state.clone());
        Ok(state)
    }

    /// Starts an import of the library `id` now, unless one is running.
    pub fn trigger(&mut self, app: &AppState, id: i64) -> (r: ApiResult<ImportState>)
        ensures
            match r {
                Ok(state) => {
                    &&& start_refusal(*app, old(self)@, id) is None
                    &&& state.started_at is Some
                    &&& state.started_at->0 >= 0
                    &&& state == started(state_in(old(self)@, id), state.started_at->0)
                    &&& final(self)@ == old(self)@.insert(id, state)
                },
                Err(e) => {
                    &&& start_refusal(*app, old(self)@, id) == Some(e@)
                    &&& final(self)@ == old(self)@
                },
            },
    {
        let now = timestamp();
        self.trigger_at(app, id, now)
    }

    /// What a request that has started an import of the library `id` is
    /// answered: with the status for something accepted, and what is known of
    /// the library's imports by now.
    pub fn accepted(&self, id: i64) -> (r: (u16, ImportState))
        ensures
            r == (202u16, state_in(self@, id)),
    {
        (202, self.snapshot(id))
    }

    /// Takes note that an import of the library `id` ended at the time `now`.
    pub fn finish_at(&mut self, id: i64, now: i64, result: Result<ImportStats, String>)
        ensures
            finished(state_in(old(self)@, id), now, result, state_in(final(self)@, id)),
            final(self)@ == old(self)@.insert(id, state_in(final(self)@, id)),
    {
        let mut state = self.snapshot(id);
        state.running = false;
        state.finished_at = Some(now);
        match result {
            Ok(stats) => {
                state.last_stats = Some(ImportStatsView::from(&stats));
            },
            Err(reason) => {
                state.last_error = Some(reason);
            },
        }
        self.states.insert(id, state);
    }

    /// Takes note that an import of the library `id` has just ended.
    pub fn finish(&mut self, id: i64, result: Result<ImportStats, String>)
        ensures
            exists|now: i64|
                now >= 0 && #[trigger] finished(
                    state_in(old(self)@, id),
                    now,
                    result,
                    state_in(final(self)@, id),
                ),
            final(self)@ == old(self)@.insert(id, state_in(final(self)@, id)),
    {
        let now = timestamp();
        self.finish_at(id, now, result);
    }
}

/// While an import of a library runs, another one is refused with a conflict,
/// and other libraries are not held up by it.
pub proof fn one_import_at_a_time(
    app: AppState,
    states: Map<i64, ImportState>,
    id: i64,
    now: i64,
    other: i64,
)
    requires
        app.has_library(id),
    ensures
        start_refusal(
            app,
            states.insert(id, started(state_in(states, id), now)),
            id,
        ) == Some(conflict("import already running"@)),
        other != id ==> start_refusal(
            app,
            states.insert(id, started(state_in(states, id), now)),
            other,
        ) == start_refusal(app, states, other),
{
}

/// Once an import of a library has ended, another one may be started; the
/// counts of the last successful import are kept through one that fails.
pub proof fn ended_import_may_be_repeated(
    app: AppState,
    states: Map<i64, ImportState>,
    id: i64,
    now: i64,
    result: Result<ImportStats, String>,
    next: ImportState,
)
    requires
        app.has_library(id),
        finished(state_in(states, id), now, result, next),
    ensures
        start_refusal(app, states.insert(id, next), id) is None,
        result is Err ==> next.last_stats == state_in(states, id).last_stats,
        result is Err ==> next.last_error is Some,
        result is Ok ==> next.last_error == state_in(states, id).last_error,
{
}

/// A started import runs since its start and has not ended or failed; what is
/// known of the last one that succeeded is kept. An ended import does not run,
/// says when it ended and when it had started, and has the counts of what it
/// did, or the reason why it failed.
pub proof fn the_state_tells_the_import(
    state: ImportState,
    start: i64,
    now: i64,
    result: Result<ImportStats, String>,
    next: ImportState,
)
    requires
        finished(started(state, start), now, result, next),
    ensures
        started(state, start).running,
        started(state, start).started_at == Some(start),
        started(state, start).finished_at is None,
        started(state, start).last_error is None,
        started(state, start).last_stats == state.last_stats,
        !next.running,
        next.started_at == Some(start),
        next.finished_at == Some(now),
        result matches Err(reason) ==> next.last_error == Some(reason) && next.last_stats
            == state.last_stats,
        result matches Ok(stats) ==> next.last_error is None && next.last_stats is Some
            && next.last_stats->0.scanned == stats.scanned && next.last_stats->0.imported
            == stats.imported && next.last_stats->0.duplicates == stats.duplicates
            && next.last_stats->0.failed == stats.failed,
{
}

/// An import may be started exactly where the library is there and none of its
/// imports runs; a library of which nothing is known has never been imported.
pub proof fn an_import_may_be_started(app: AppState, states: Map<i64, ImportState>, id: i64)
    ensures
        ({
            let known = exists|k: int|
                0 <= k < app.libraries@.len() && (#[trigger] app.libraries@[k]).id == id;
            let running = states.contains_key(id) && states[id].running;
            &&& !known ==> start_refusal(app, states, id) == Some(
                (404u16, "library"@ + " not found"@),
            )
            &&& known && running ==> start_refusal(app, states, id) == Some(
                (409u16, "import already running"@),
            )
            &&& known && !running ==> start_refusal(app, states, id) is None
        }),
        states.contains_key(id) ==> state_in(states, id) == states[id],
        !states.contains_key(id) ==> {
            let state = state_in(states, id);
            &&& !state.running && state.started_at is None && state.finished_at is None
            &&& state.last_stats is None && state.last_error is None
        },
{
    known_libraries_are_found(app, id);
}

} // verus!
