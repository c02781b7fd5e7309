use media_requests::catalog::{LookupKey, Verdict};
use media_requests::entry::{LookupError, UpstreamRecord};
use media_requests::intake::{validate, RawRequest, ValidationError};
use media_requests::library::RefreshError;
use media_requests::model::{MediaKind, Quality, RequestState};
use media_requests::orchestrator::{
    detail_text, summary_text, NotFoundError, Orchestrator, Receipt, SubmissionError,
};
use media_requests::request::RequestEvent;
use media_requests::retry::{Attempt, DEFAULT_TTL_MS};
use media_requests::store::PurgeError;

fn raw(query: &str, kind: &str, seasons: Option<Vec<u32>>) -> RawRequest {
    RawRequest {
        query: query.to_string(),
        media_kind: kind.to_string(),
        seasons,
        quality: "1080p".to_string(),
        external_id: None,
    }
}

fn record(id: u64, title: &str) -> UpstreamRecord {
    UpstreamRecord {
        id: Some(id),
        title: Some(title.to_string()),
        name: Some(title.to_string()),
        overview: None,
        release_date: None,
        first_air_date: None,
        popularity_milli: None,
        vote_average_milli: None,
        vote_count: None,
        genre_ids: None,
        poster_path: None,
    }
}

fn page(id: u64, title: &str) -> Attempt {
    Attempt::Page(vec![record(id, title)])
}

fn submit(o: &mut Orchestrator, request: &RawRequest, now: u64) -> Receipt {
    o.submit(request, now).unwrap()
}

fn state_of(o: &Orchestrator, id: u64) -> RequestState {
    o.get(id).unwrap().state
}

fn steps_of(events: &[RequestEvent], id: u64) -> Vec<(RequestState, RequestState)> {
    events.iter().filter(|e| e.request_id == id).map(|e| (e.from_state, e.to_state)).collect()
}

#[test]
fn validation_finds_the_first_fault() {
    assert_eq!(validate(&raw("", "Movie", None)).unwrap_err(), ValidationError::EmptyQuery);
    assert_eq!(validate(&raw(" \t ", "Nope", None)).unwrap_err(), ValidationError::EmptyQuery);
    assert_eq!(validate(&raw("Dune", "Film", None)).unwrap_err(), ValidationError::UnknownKind);
    assert_eq!(validate(&raw("Dark", "TvShow", None)).unwrap_err(), ValidationError::MissingSeasons);
    assert_eq!(
        validate(&raw("Dark", "AnimeTv", Some(vec![]))).unwrap_err(),
        ValidationError::MissingSeasons
    );
    let mut odd = raw("Dune", "Movie", None);
    odd.quality = "8k".to_string();
    assert_eq!(validate(&odd).unwrap_err(), ValidationError::UnknownQuality);
}

#[test]
fn validation_builds_the_draft() {
    let mut request = raw(" Dark ", "TvShow", Some(vec![2, 1, 2]));
    request.quality = "720p".to_string();
    request.external_id = Some(70523);
    let draft = validate(&request).unwrap();
    assert_eq!(draft.query, " Dark ");
    assert_eq!(draft.kind, MediaKind::TvShow);
    assert_eq!(draft.seasons, vec![2, 1, 2]);
    assert_eq!(draft.quality, Quality::Hd720);
    assert_eq!(draft.external_id, Some(70523));
    let film = validate(&raw("Dune", "Movie", Some(vec![1, 2]))).unwrap();
    assert!(film.seasons.is_empty());
}

#[test]
fn a_bad_submission_changes_nothing() {
    let mut o = Orchestrator::new(DEFAULT_TTL_MS);
    assert_eq!(
        o.submit(&raw("", "Movie", None), 1).unwrap_err(),
        SubmissionError::Validation(ValidationError::EmptyQuery)
    );
    assert_eq!(
        o.submit(&raw("Dark", "TvShow", None), 1).unwrap_err(),
        SubmissionError::Validation(ValidationError::MissingSeasons)
    );
    assert_eq!(o.request_count(), 0);
    assert!(o.events().is_empty());
}

#[test]
fn a_full_store_refuses_submissions() {
    let mut o = Orchestrator::starting_at(DEFAULT_TTL_MS, u64::MAX);
    assert_eq!(o.submit(&raw("Dune", "Movie", None), 1).unwrap_err(), SubmissionError::Full);
    assert_eq!(o.request_count(), 0);
}

#[test]
fn a_new_submission_starts_enriching_and_asks_for_the_lookup() {
    let mut o = Orchestrator::new(DEFAULT_TTL_MS);
    let receipt = submit(&mut o, &raw("Dune", "Movie", None), 5);
    assert_eq!(receipt.request.id, 0);
    assert_eq!(receipt.request.state, RequestState::Enriching);
    assert_eq!(receipt.request.query, "Dune");
    assert_eq!(receipt.request.quality, Quality::Hd1080);
    assert_eq!(receipt.request.created_at, 5);
    let key = receipt.fetch.unwrap();
    assert!(key.matches(&LookupKey::of("dune", None, MediaKind::Movie)));
    assert_eq!(steps_of(o.events(), 0), vec![(RequestState::Submitted, RequestState::Enriching)]);
    assert_eq!(o.events()[0].detail, detail_text(RequestState::Enriching));
}

#[test]
fn submitting_twice_gives_the_same_request() {
    let mut o = Orchestrator::new(DEFAULT_TTL_MS);
    let first = submit(&mut o, &raw("Dark", "TvShow", Some(vec![1, 2])), 1);
    let again = submit(&mut o, &raw("  DARK ", "TvShow", Some(vec![2, 1])), 2);
    assert_eq!(first.request.id, again.request.id);
    assert_eq!(again.request.state, RequestState::Enriching);
    assert!(again.fetch.is_none());
    assert_eq!(o.request_count(), 1);
    assert_eq!(o.events().len(), 1);
}

#[test]
fn end_to_end_dune_becomes_pending() {
    let mut o = Orchestrator::new(DEFAULT_TTL_MS);
    let request = raw("Dune", "Movie", None);
    let receipt = submit(&mut o, &request, 100);
    let key = receipt.fetch.unwrap();
    let again = submit(&mut o, &request, 101);
    assert_eq!(again.request.id, receipt.request.id);
    assert_eq!(again.request.state, RequestState::Enriching);
    assert_eq!(o.request_count(), 1);
    assert!(!o.is_present(438631));
    let verdict = o.settle(&key, &page(438631, "Dune"), 0, 150);
    assert!(matches!(verdict, Verdict::Settled(Ok(ref entry)) if entry.external_id == 438631));
    let stored = o.get(receipt.request.id).unwrap();
    assert_eq!(stored.state, RequestState::Pending);
    assert_eq!(stored.external_id, Some(438631));
    assert_eq!(stored.updated_at, 150);
    let later = submit(&mut o, &request, 160);
    assert_eq!(later.request.id, receipt.request.id);
    assert_eq!(later.request.state, RequestState::Pending);
    assert_eq!(o.request_count(), 1);
    assert_eq!(
        steps_of(o.events(), 0),
        vec![
            (RequestState::Submitted, RequestState::Enriching),
            (RequestState::Enriching, RequestState::Pending),
        ]
    );
    assert_eq!(o.events()[1].detail, detail_text(RequestState::Pending));
}

#[test]
fn a_title_in_the_library_is_already_available() {
    let mut o = Orchestrator::new(DEFAULT_TTL_MS);
    assert_eq!(o.refresh_library(Ok(vec![438631]), 1), Ok(()));
    let receipt = submit(&mut o, &raw("Dune", "Movie", None), 2);
    o.settle(&receipt.fetch.unwrap(), &page(438631, "Dune"), 0, 3);
    assert_eq!(state_of(&o, 0), RequestState::AlreadyAvailable);
    assert_eq!(o.get(0).unwrap().external_id, Some(438631));
    assert_eq!(o.events()[1].detail, detail_text(RequestState::AlreadyAvailable));
}

#[test]
fn exhausted_retries_fail_the_request() {
    let mut o = Orchestrator::new(DEFAULT_TTL_MS);
    let receipt = submit(&mut o, &raw("Dune", "Movie", None), 1);
    let key = receipt.fetch.unwrap();
    for call in 0..3u64 {
        assert!(matches!(o.settle(&key, &Attempt::Status(503), call, 2 + call), Verdict::Retry(_)));
        assert_eq!(state_of(&o, 0), RequestState::Enriching);
    }
    assert!(matches!(
        o.settle(&key, &Attempt::Status(503), 0, 9),
        Verdict::Settled(Err(LookupError::Unavailable))
    ));
    assert_eq!(state_of(&o, 0), RequestState::Failed);
    let last = o.events().last().unwrap();
    assert_eq!(last.to_state, RequestState::Failed);
    assert_eq!(last.detail, summary_text(LookupError::Unavailable));
    assert_eq!(last.timestamp, 9);
    assert_eq!(o.get(0).unwrap().external_id, None);
}

#[test]
fn an_invalid_answer_fails_the_request_at_once() {
    let mut o = Orchestrator::new(DEFAULT_TTL_MS);
    let receipt = submit(&mut o, &raw("Dune", "Movie", None), 1);
    let key = receipt.fetch.unwrap();
    assert!(matches!(
        o.settle(&key, &Attempt::Status(404), 0, 2),
        Verdict::Settled(Err(LookupError::Invalid))
    ));
    assert_eq!(state_of(&o, 0), RequestState::Failed);
    assert_eq!(o.events().last().unwrap().detail, summary_text(LookupError::Invalid));
}

#[test]
fn a_failed_request_can_be_submitted_again() {
    let mut o = Orchestrator::new(DEFAULT_TTL_MS);
    let first = submit(&mut o, &raw("Dune", "Movie", None), 1);
    o.settle(&first.fetch.unwrap(), &Attempt::Malformed, 0, 2);
    let second = submit(&mut o, &raw("Dune", "Movie", None), 3);
    assert_eq!(second.request.id, 1);
    assert_eq!(second.request.state, RequestState::Enriching);
    assert!(second.fetch.is_some());
    assert_eq!(o.request_count(), 2);
}

#[test]
fn a_cached_entry_ends_enrichment_within_the_submission() {
    let mut o = Orchestrator::new(1_000);
    let first = submit(&mut o, &raw("Dark", "TvShow", Some(vec![1])), 1);
    o.settle(&first.fetch.unwrap(), &page(70523, "Dark"), 0, 2);
    assert_eq!(state_of(&o, 0), RequestState::Pending);
    let second = submit(&mut o, &raw("Dark", "TvShow", Some(vec![2])), 3);
    assert_eq!(second.request.id, 1);
    assert!(second.fetch.is_none());
    assert_eq!(second.request.state, RequestState::Deduplicated);
    assert_eq!(second.request.external_id, Some(70523));
    assert_eq!(
        steps_of(o.events(), 1),
        vec![
            (RequestState::Submitted, RequestState::Enriching),
            (RequestState::Enriching, RequestState::Deduplicated),
        ]
    );
    assert_eq!(o.events().last().unwrap().detail, detail_text(RequestState::Deduplicated));
}

#[test]
fn requests_that_wait_for_one_lookup_are_settled_together() {
    let mut o = Orchestrator::new(1_000);
    let first = submit(&mut o, &raw("Dark", "TvShow", Some(vec![1])), 1);
    let second = submit(&mut o, &raw("dark", "TvShow", Some(vec![2])), 2);
    let film = submit(&mut o, &raw("Dark", "Movie", None), 3);
    assert!(first.fetch.is_some());
    assert!(second.fetch.is_none());
    assert!(film.fetch.is_some());
    assert_eq!(o.request_count(), 3);
    o.settle(&first.fetch.unwrap(), &page(70523, "Dark"), 0, 4);
    assert_eq!(state_of(&o, 0), RequestState::Pending);
    assert_eq!(state_of(&o, 1), RequestState::Deduplicated);
    assert_eq!(state_of(&o, 2), RequestState::Enriching);
    o.settle(&film.fetch.unwrap(), &page(70523, "Dark"), 0, 5);
    assert_eq!(state_of(&o, 2), RequestState::Pending);
}

#[test]
fn different_spellings_of_one_title_are_merged_after_enrichment() {
    let mut o = Orchestrator::new(1_000);
    let first = submit(&mut o, &raw("Dune", "Movie", None), 1);
    let second = submit(&mut o, &raw("Dune 2021", "Movie", None), 2);
    assert_ne!(first.request.id, second.request.id);
    o.settle(&first.fetch.unwrap(), &page(438631, "Dune"), 0, 3);
    o.settle(&second.fetch.unwrap(), &page(438631, "Dune"), 0, 4);
    assert_eq!(state_of(&o, 0), RequestState::Pending);
    assert_eq!(state_of(&o, 1), RequestState::Deduplicated);
}

#[test]
fn a_request_with_a_catalog_id_is_looked_up_by_it() {
    let mut o = Orchestrator::new(1_000);
    let mut request = raw("whatever", "Movie", None);
    request.external_id = Some(603);
    let receipt = submit(&mut o, &request, 1);
    let key = receipt.fetch.unwrap();
    assert!(key.matches(&LookupKey::Id(603, MediaKind::Movie)));
    o.settle(&key, &page(603, "The Matrix"), 0, 2);
    assert_eq!(state_of(&o, 0), RequestState::Pending);
    assert_eq!(o.get(0).unwrap().external_id, Some(603));
}

#[test]
fn refresh_presence_moves_a_pending_request_once_the_title_arrives() {
    let mut o = Orchestrator::new(1_000);
    let receipt = submit(&mut o, &raw("Dune", "Movie", None), 1);
    o.settle(&receipt.fetch.unwrap(), &page(438631, "Dune"), 0, 2);
    assert_eq!(o.refresh_presence(0, 3), Ok(RequestState::Pending));
    assert_eq!(o.events().len(), 2);
    o.refresh_library(Ok(vec![438631]), 4).unwrap();
    assert_eq!(o.refresh_presence(0, 5), Ok(RequestState::AlreadyAvailable));
    assert_eq!(state_of(&o, 0), RequestState::AlreadyAvailable);
    assert_eq!(
        steps_of(o.events(), 0),
        vec![
            (RequestState::Submitted, RequestState::Enriching),
            (RequestState::Enriching, RequestState::Pending),
            (RequestState::Pending, RequestState::AlreadyAvailable),
        ]
    );
    assert_eq!(o.refresh_presence(0, 6), Ok(RequestState::AlreadyAvailable));
    assert_eq!(o.events().len(), 3);
}

#[test]
fn refresh_presence_leaves_other_states_alone() {
    let mut o = Orchestrator::new(1_000);
    o.refresh_library(Ok(vec![438631]), 1).unwrap();
    submit(&mut o, &raw("Dune", "Movie", None), 2);
    assert_eq!(o.refresh_presence(0, 3), Ok(RequestState::Enriching));
    assert_eq!(o.events().len(), 1);
    assert_eq!(o.refresh_presence(9, 3), Err(NotFoundError { id: 9 }));
}

#[test]
fn a_failed_library_scan_keeps_requests_going() {
    let mut o = Orchestrator::new(1_000);
    o.refresh_library(Ok(vec![438631]), 1).unwrap();
    assert_eq!(o.refresh_library(Err(RefreshError::Unreachable), 2), Err(RefreshError::Unreachable));
    assert!(o.is_present(438631));
    let receipt = submit(&mut o, &raw("Dune", "Movie", None), 3);
    o.settle(&receipt.fetch.unwrap(), &page(438631, "Dune"), 0, 4);
    assert_eq!(state_of(&o, 0), RequestState::AlreadyAvailable);
}

#[test]
fn every_request_walks_a_path_of_the_lifecycle() {
    let mut o = Orchestrator::new(50);
    o.refresh_library(Ok(vec![2]), 0).unwrap();
    let titles = ["a", "b", "c", "a", "d", "b b", "c"];
    let mut now = 1;
    for (n, title) in titles.iter().enumerate() {
        let receipt = submit(&mut o, &raw(title, "Movie", None), now);
        now += 1;
        if let Some(key) = receipt.fetch {
            let attempt = match n % 3 {
                0 => page(n as u64, title),
                1 => Attempt::Status(404),
                _ => page(2, title),
            };
            o.settle(&key, &attempt, 0, now);
            now += 1;
        }
    }
    let events = o.events();
    for pair in events.windows(2) {
        assert!(pair[0].timestamp <= pair[1].timestamp);
    }
    for id in 0..o.request_count() as u64 {
        let steps = steps_of(events, id);
        assert!(!steps.is_empty() && steps.len() <= 3);
        assert_eq!(steps[0].0, RequestState::Submitted);
        for step in &steps {
            assert!(step.0.can_become(step.1));
        }
        for pair in steps.windows(2) {
            assert_eq!(pair[0].1, pair[1].0);
        }
        assert_eq!(steps.last().unwrap().1, state_of(&o, id));
    }
}

#[test]
fn a_stray_end_changes_nothing() {
    let mut o = Orchestrator::new(1_000);
    submit(&mut o, &raw("Dune", "Movie", None), 1);
    let stray = LookupKey::of("Alien", None, MediaKind::Movie);
    assert!(matches!(o.settle(&stray, &page(348, "Alien"), 0, 2), Verdict::Stray));
    assert_eq!(state_of(&o, 0), RequestState::Enriching);
    assert_eq!(o.events().len(), 1);
}

#[test]
fn failures_have_kinds_for_machines() {
    let kinds: Vec<&str> = [
        SubmissionError::Validation(ValidationError::EmptyQuery),
        SubmissionError::Validation(ValidationError::UnknownKind),
        SubmissionError::Validation(ValidationError::MissingSeasons),
        SubmissionError::Validation(ValidationError::UnknownQuality),
        SubmissionError::Full,
    ]
    .iter()
    .map(|e| e.kind())
    .collect();
    assert_eq!(
        kinds,
        vec!["empty_query", "unknown_media_kind", "missing_seasons", "unknown_quality", "store_full"]
    );
    assert!(SubmissionError::Validation(ValidationError::EmptyQuery).is_client_fault());
    assert!(!SubmissionError::Full.is_client_fault());
}

#[test]
fn history_of_gives_the_steps_of_one_request() {
    let mut o = Orchestrator::new(1_000);
    let first = submit(&mut o, &raw("Dune", "Movie", None), 1);
    let second = submit(&mut o, &raw("Alien", "Movie", None), 2);
    o.settle(&second.fetch.unwrap(), &Attempt::Status(400), 0, 3);
    o.settle(&first.fetch.unwrap(), &page(438631, "Dune"), 0, 4);
    let steps = o.history_of(0);
    assert_eq!(steps.len(), 2);
    assert!(steps.iter().all(|e| e.request_id == 0));
    assert_eq!(steps[1].to_state, RequestState::Pending);
    assert_eq!(steps[1].timestamp, 4);
    let other = o.history_of(1);
    assert_eq!(other.len(), 2);
    assert_eq!(other[1].to_state, RequestState::Failed);
    assert_eq!(other[1].timestamp, 3);
    assert!(o.history_of(2).is_empty());
    assert_eq!(o.events().len(), 4);
}

#[test]
fn purge_is_refused_while_a_request_is_active() {
    let mut o = Orchestrator::new(1_000);
    let receipt = submit(&mut o, &raw("Dune", "Movie", None), 1);
    assert_eq!(o.purge(0).unwrap_err(), PurgeError::StillActive);
    o.settle(&receipt.fetch.unwrap(), &page(438631, "Dune"), 0, 2);
    assert_eq!(o.purge(0).unwrap_err(), PurgeError::StillActive);
    o.refresh_library(Ok(vec![438631]), 3).unwrap();
    o.refresh_presence(0, 4).unwrap();
    let gone = o.purge(0).unwrap();
    assert_eq!(gone.state, RequestState::AlreadyAvailable);
    assert_eq!(o.request_count(), 0);
    assert_eq!(o.purge(0).unwrap_err(), PurgeError::NotFound);
    assert_eq!(o.refresh_presence(0, 5), Err(NotFoundError { id: 0 }));
    assert_eq!(o.events().len(), 3);
}

#[test]
fn evicting_the_cache_leaves_requests_and_lookups_alone() {
    let mut o = Orchestrator::new(10);
    let first = submit(&mut o, &raw("Dune", "Movie", None), 1);
    o.settle(&first.fetch.unwrap(), &page(438631, "Dune"), 0, 2);
    let waiting = submit(&mut o, &raw("Alien", "Movie", None), 3);
    o.evict_cache(1_000);
    assert_eq!(o.request_count(), 2);
    assert_eq!(state_of(&o, 0), RequestState::Pending);
    assert_eq!(state_of(&o, 1), RequestState::Enriching);
    assert!(matches!(
        o.settle(&waiting.fetch.unwrap(), &page(348, "Alien"), 0, 1_001),
        Verdict::Settled(Ok(_))
    ));
    assert_eq!(state_of(&o, 1), RequestState::Pending);
}
