//! The refresh cycle: from what a fetch brought to the snapshot that is
//! published, and the two-state loop that runs one cycle per trigger.

use vstd::prelude::*;
use crate::failure::RefreshError;
use crate::json::Json;
use crate::parse::{
    catalogue, is_publishable, lemma_catalogue_is_publishable, lemma_categories_missing,
    parse_jio_data, reports, views,
};
use crate::plan::{lemma_metrics_are_quotients, PlanRecord, PlanView};
use crate::sort::{is_stable_sort_of, lemma_stable_sort_is_unique, sort_plans};

verus! {

/// Minutes between two scheduled refreshes.
pub const REFRESH_INTERVAL_MINUTES: i64 = 5;

/// What one attempt to fetch the catalogue brought.
#[derive(Debug, PartialEq, Eq)]
pub enum Fetched {
    /// The decoded response body.
    Document(Json),
    /// The request did not succeed.
    NetworkFailed,
    /// The response body was no structural document.
    Undecodable,
}

/// The records that a fetch leads to, before sorting.
pub open spec fn refreshed(fetched: Fetched) -> Result<Seq<PlanView>, RefreshError> {
    match fetched {
        Fetched::Document(doc) => catalogue(doc),
        Fetched::NetworkFailed => Err(RefreshError::NetworkFailure),
        Fetched::Undecodable => Err(RefreshError::DecodeFailure),
    }
}

/// Whether `snapshot` is what a cycle publishes for `fetched`: the failure,
/// or the extracted records sorted stably.
pub open spec fn is_snapshot_of(
    snapshot: Result<Vec<PlanRecord>, RefreshError>,
    fetched: Fetched,
) -> bool {
    match refreshed(fetched) {
        Err(e) => snapshot == Err::<Vec<PlanRecord>, RefreshError>(e),
        Ok(found) => snapshot matches Ok(v) && is_stable_sort_of(views(v@), found),
    }
}

/// Whether the loop waits for a trigger or has a fetch in flight.
#[derive(Clone, Copy, Debug, PartialEq, Eq, Structural)]
pub enum Phase {
    /// Waiting for a trigger.
    Idle,
    /// A fetch is in flight.
    Refreshing,
}

/// What the loop is told.
#[derive(Debug, PartialEq, Eq)]
pub enum Event {
    /// The timer fired, or the process started.
    Trigger,
    /// The fetch that was in flight ended.
    Completed(Fetched),
}

/// What the loop asks for in answer to an event.
#[derive(Debug, PartialEq, Eq)]
pub enum Action {
    /// Fetch the catalogue and hand back `Event::Completed`.
    Fetch,
    /// Replace the published snapshot with this one.
    Publish(Result<Vec<PlanRecord>, RefreshError>),
    /// Keep the trigger queued and hand it in again after the cycle.
    Hold,
    /// Nothing to do: no fetch was in flight.
    Ignore,
}

/// The published snapshot after `action` was carried out on `prior`.
pub open spec fn published_after(
    prior: Result<Vec<PlanRecord>, RefreshError>,
    action: Action,
) -> Result<Vec<PlanRecord>, RefreshError> {
    match action {
        Action::Publish(snapshot) => snapshot,
        _ => prior,
    }
}

/// The snapshot that is published before the first cycle ends: no plans, no
/// failure.
pub fn initial_snapshot() -> (r: Result<Vec<PlanRecord>, RefreshError>)
    ensures
        r matches Ok(v) && v@.len() == 0,
{
    Ok(Vec::new())
}

/// Turns what a fetch brought into the extracted records, in document order.
pub fn refresh_jio_data(fetched: &Fetched) -> (r: Result<Vec<PlanRecord>, RefreshError>)
    ensures
        reports(r, refreshed(*fetched)),
{
    match fetched {
        Fetched::Document(doc) => parse_jio_data(doc),
        Fetched::NetworkFailed => Err(RefreshError::NetworkFailure),
        Fetched::Undecodable => Err(RefreshError::DecodeFailure),
    }
}

/// The snapshot of one cycle: the extracted records, sorted, or the failure.
pub fn snapshot_of(fetched: &Fetched) -> (snapshot: Result<Vec<PlanRecord>, RefreshError>)
    ensures
        is_snapshot_of(snapshot, *fetched),
{
    match refresh_jio_data(fetched) {
        Ok(found) => Ok(sort_plans(found)),
        Err(e) => Err(e),
    }
}

/// One step of the refresh loop. A trigger starts a fetch when the loop is
/// idle and is held back while a fetch is in flight; the end of a fetch
/// publishes the snapshot of the cycle, success or failure, and makes the
/// loop idle again.
pub fn step(phase: Phase, event: Event) -> (r: (Phase, Action))
    ensures
        match (phase, event) {
            (Phase::Idle, Event::Trigger) => r == (Phase::Refreshing, Action::Fetch),
            (Phase::Refreshing, Event::Trigger) => r == (Phase::Refreshing, Action::Hold),
            (Phase::Refreshing, Event::Completed(fetched)) => r.0 == Phase::Idle && (
            r.1 matches Action::Publish(snapshot) && is_snapshot_of(snapshot, fetched)),
            (Phase::Idle, Event::Completed(_)) => r == (Phase::Idle, Action::Ignore),
        },
{
    match (phase, event) {
        (Phase::Idle, Event::Trigger) => (Phase::Refreshing, Action::Fetch),
        (Phase::Refreshing, Event::Trigger) => (Phase::Refreshing, Action::Hold),
        (Phase::Refreshing, Event::Completed(fetched)) => (
            Phase::Idle,
            Action::Publish(snapshot_of(&fetched)),
        ),
        (Phase::Idle, Event::Completed(_)) => (Phase::Idle, Action::Ignore),
    }
}

/// Carries `action` out on the published snapshot: a `Publish` replaces it
/// whole, anything else leaves it as it is.
pub fn apply(published: &mut Result<Vec<PlanRecord>, RefreshError>, action: Action)
    ensures
        *final(published) == published_after(*old(published), action),
{
    match action {
        Action::Publish(snapshot) => {
            *published = snapshot;
        },
        _ => {},
    }
}

/// Every record of a published snapshot is publishable: sorting neither adds
/// nor changes a record.
pub proof fn lemma_snapshot_is_publishable(
    fetched: Fetched,
    snapshot: Result<Vec<PlanRecord>, RefreshError>,
)
    requires
        is_snapshot_of(snapshot, fetched),
    ensures
        snapshot matches Ok(v) ==> forall|i: int|
            0 <= i < v.len() ==> is_publishable(#[trigger] v[i]@),
{
    if let Ok(v) = snapshot {
        let found = refreshed(fetched).unwrap();
        let doc = fetched->Document_0;
        lemma_catalogue_is_publishable(doc);
        assert forall|i: int| 0 <= i < v.len() implies is_publishable(#[trigger] v[i]@) by {
            let shown = views(v@);
            assert(shown[i] == v[i]@);
            assert(shown.contains(shown[i]));
            vstd::seq_lib::to_multiset_contains(shown, shown[i]);
            vstd::seq_lib::to_multiset_contains(found, shown[i]);
            let j = choose|j: int| 0 <= j < found.len() && found[j] == shown[i];
            assert(is_publishable(found[j]));
        }
    }
}

/// The snapshot of a cycle is a function of what the fetch brought: two
/// snapshots for one fetch hold the same failure, or the same records in the
/// same order.
pub proof fn lemma_snapshot_is_repeatable(
    fetched: Fetched,
    first: Result<Vec<PlanRecord>, RefreshError>,
    second: Result<Vec<PlanRecord>, RefreshError>,
)
    requires
        is_snapshot_of(first, fetched),
        is_snapshot_of(second, fetched),
    ensures
        match (first, second) {
            (Ok(a), Ok(b)) => views(a@) == views(b@),
            (Err(e1), Err(e2)) => e1 == e2,
            _ => false,
        },
{
    if let Ok(found) = refreshed(fetched) {
        let doc = fetched->Document_0;
        lemma_catalogue_is_publishable(doc);
        assert forall|i: int| 0 <= i < found.len() implies (#[trigger] found[i]).wf() by {
            assert(is_publishable(found[i]));
            lemma_metrics_are_quotients(found[i]);
        }
        lemma_stable_sort_is_unique(found, views(first.unwrap()@), views(second.unwrap()@));
    }
}

/// A cycle on a document without plan categories publishes
/// `CategoriesMissing`, whatever was published before.
pub proof fn lemma_missing_categories_overwrite(
    prior: Result<Vec<PlanRecord>, RefreshError>,
    doc: Json,
    snapshot: Result<Vec<PlanRecord>, RefreshError>,
)
    requires
        doc.items_at("planCategories"@) is None,
        is_snapshot_of(snapshot, Fetched::Document(doc)),
    ensures
        published_after(prior, Action::Publish(snapshot)) == Err::<Vec<PlanRecord>, RefreshError>(
            RefreshError::CategoriesMissing,
        ),
{
    lemma_categories_missing(doc);
}

/// Every failure of a cycle replaces the published snapshot, also a
/// successful one.
pub proof fn lemma_failure_overwrites(
    prior: Result<Vec<PlanRecord>, RefreshError>,
    fetched: Fetched,
    snapshot: Result<Vec<PlanRecord>, RefreshError>,
    e: RefreshError,
)
    requires
        refreshed(fetched) == Err::<Seq<PlanView>, RefreshError>(e),
        is_snapshot_of(snapshot, fetched),
    ensures
        published_after(prior, Action::Publish(snapshot)) == Err::<Vec<PlanRecord>, RefreshError>(e),
{
}

} // verus!
