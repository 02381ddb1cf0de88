use cheap_jio::failure::RefreshError;
use cheap_jio::json::Json;
use cheap_jio::refresh::{
    apply, initial_snapshot, refresh_jio_data, snapshot_of, step, Action, Event, Fetched, Phase,
    REFRESH_INTERVAL_MINUTES,
};

fn text(s: &str) -> Json {
    Json::Text(s.to_string())
}

fn object(members: Vec<(&str, Json)>) -> Json {
    Json::Object(members.into_iter().map(|(k, v)| (k.to_string(), v)).collect())
}

fn plan(name: &str, amount: &str, validity: &str, total_data: &str, voice: &str) -> Json {
    let detail = |header: &str, value: &str| object(vec![("header", text(header)), ("value", text(value))]);
    object(vec![
        ("planName", text(name)),
        ("amount", text(amount)),
        ("description", text("d")),
        (
            "misc",
            object(vec![(
                "details",
                Json::List(vec![
                    detail("Pack validity", validity),
                    detail("Total data", total_data),
                    detail("Voice", voice),
                ]),
            )]),
        ),
    ])
}

fn document(plans: Vec<Json>) -> Json {
    let sub = object(vec![("plans", Json::List(plans))]);
    let category = object(vec![("type", text("Popular")), ("subCategories", Json::List(vec![sub]))]);
    object(vec![("planCategories", Json::List(vec![category]))])
}

fn good_document() -> Json {
    document(vec![
        plan("Plan B", "99", "23 Days", "1 GB", ""),
        plan("Plan A", "199", "28 Days", "2 GB", "Unlimited"),
    ])
}

#[test]
fn fetch_failures_become_their_kinds() {
    assert_eq!(refresh_jio_data(&Fetched::NetworkFailed), Err(RefreshError::NetworkFailure));
    assert_eq!(refresh_jio_data(&Fetched::Undecodable), Err(RefreshError::DecodeFailure));
    assert_eq!(snapshot_of(&Fetched::NetworkFailed), Err(RefreshError::NetworkFailure));
    assert_eq!(snapshot_of(&Fetched::Undecodable), Err(RefreshError::DecodeFailure));
}

#[test]
fn refresh_extracts_in_document_order_and_snapshot_sorts() {
    let extracted = refresh_jio_data(&Fetched::Document(good_document())).unwrap();
    assert_eq!(extracted[0].name(), "Plan B");
    assert_eq!(extracted[1].name(), "Plan A");
    let snapshot = snapshot_of(&Fetched::Document(good_document())).unwrap();
    assert_eq!(snapshot[0].name(), "Plan A");
    assert_eq!(snapshot[1].name(), "Plan B");
}

#[test]
fn trigger_starts_a_fetch_when_idle() {
    assert_eq!(step(Phase::Idle, Event::Trigger), (Phase::Refreshing, Action::Fetch));
}

#[test]
fn trigger_is_held_while_refreshing() {
    assert_eq!(step(Phase::Refreshing, Event::Trigger), (Phase::Refreshing, Action::Hold));
}

#[test]
fn completion_publishes_and_returns_to_idle() {
    let (phase, action) = step(Phase::Refreshing, Event::Completed(Fetched::Document(good_document())));
    assert_eq!(phase, Phase::Idle);
    match action {
        Action::Publish(Ok(plans)) => {
            assert_eq!(plans.len(), 2);
            assert_eq!(plans[0].name(), "Plan A");
        }
        other => panic!("unexpected action {:?}", other),
    }
    assert_eq!(
        step(Phase::Refreshing, Event::Completed(Fetched::NetworkFailed)),
        (Phase::Idle, Action::Publish(Err(RefreshError::NetworkFailure)))
    );
}

#[test]
fn completion_without_a_fetch_in_flight_is_ignored() {
    assert_eq!(
        step(Phase::Idle, Event::Completed(Fetched::Undecodable)),
        (Phase::Idle, Action::Ignore)
    );
}

#[test]
fn failure_overwrites_a_successful_snapshot() {
    let mut published = initial_snapshot();
    assert_eq!(published, Ok(vec![]));
    let (_, action) = step(Phase::Refreshing, Event::Completed(Fetched::Document(good_document())));
    apply(&mut published, action);
    assert_eq!(published.as_ref().map(|plans| plans.len()), Ok(2));
    let no_categories = object(vec![("status", text("ok"))]);
    let (_, action) = step(Phase::Refreshing, Event::Completed(Fetched::Document(no_categories)));
    apply(&mut published, action);
    assert_eq!(published, Err(RefreshError::CategoriesMissing));
    let (_, action) = step(Phase::Refreshing, Event::Completed(Fetched::Document(good_document())));
    apply(&mut published, action);
    assert_eq!(published.map(|plans| plans.len()), Ok(2));
}

#[test]
fn other_actions_leave_the_snapshot() {
    let mut published = snapshot_of(&Fetched::Document(good_document()));
    let before = published.clone();
    apply(&mut published, Action::Fetch);
    apply(&mut published, Action::Hold);
    apply(&mut published, Action::Ignore);
    assert_eq!(published, before);
}

#[test]
fn triggers_are_worked_off_one_cycle_each_in_order() {
    let mut phase = Phase::Idle;
    let mut held = 0;
    let mut fetches = 0;
    for _ in 0..3 {
        let (next, action) = step(phase, Event::Trigger);
        phase = next;
        match action {
            Action::Fetch => fetches += 1,
            Action::Hold => held += 1,
            other => panic!("unexpected action {:?}", other),
        }
    }
    assert_eq!((fetches, held), (1, 2));
    while held > 0 {
        let (next, _) = step(phase, Event::Completed(Fetched::NetworkFailed));
        assert_eq!(next, Phase::Idle);
        let (next, action) = step(next, Event::Trigger);
        assert_eq!(action, Action::Fetch);
        phase = next;
        held -= 1;
        fetches += 1;
    }
    assert_eq!(fetches, 3);
}

#[test]
fn kinds_have_names() {
    assert_eq!(RefreshError::NetworkFailure.kind_name(), "NetworkFailure");
    assert_eq!(RefreshError::DecodeFailure.kind_name(), "DecodeFailure");
    assert_eq!(RefreshError::CategoriesMissing.kind_name(), "CategoriesMissing");
    assert_eq!(RefreshError::CategoryTypeMissing.kind_name(), "CategoryTypeMissing");
    assert_eq!(RefreshError::SubCategoriesMissing.kind_name(), "SubCategoriesMissing");
    assert_eq!(RefreshError::PlansMissing.kind_name(), "PlansMissing");
    assert_eq!(RefreshError::PlanStructureMissing.kind_name(), "PlanStructureMissing");
    assert_eq!(RefreshError::DescriptionMissing.kind_name(), "DescriptionMissing");
}

#[test]
fn refresh_interval_is_five_minutes() {
    assert_eq!(REFRESH_INTERVAL_MINUTES, 5);
}
