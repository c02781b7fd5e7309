use media_requests::catalog::{CatalogClient, LookupKey, LookupStart, Verdict};
use media_requests::entry::{
    dedup_genres, holds_item, normalize_first, CatalogEntry, LookupError, UpstreamRecord,
};
use media_requests::model::MediaKind;
use media_requests::retry::{
    backoff_ms, decide, jittered_delay_ms, Attempt, Decision, ATTEMPT_DEADLINE_MS, BASE_DELAY_MS,
    DEFAULT_TTL_MS, MAX_DELAY_MS, MAX_RETRIES,
};

fn blank() -> UpstreamRecord {
    UpstreamRecord {
        id: None,
        title: None,
        name: None,
        overview: None,
        release_date: None,
        first_air_date: None,
        popularity_milli: None,
        vote_average_milli: None,
        vote_count: None,
        genre_ids: None,
        poster_path: None,
    }
}

fn dune() -> UpstreamRecord {
    UpstreamRecord {
        id: Some(438631),
        title: Some("Dune".to_string()),
        overview: Some("A mythic journey.".to_string()),
        release_date: Some("2021-09-15".to_string()),
        popularity_milli: Some(91_500),
        vote_average_milli: Some(7_800),
        vote_count: Some(12_000),
        genre_ids: Some(vec![878, 12, 878]),
        poster_path: Some("/dune.jpg".to_string()),
        ..blank()
    }
}

fn entry_of(verdict: Verdict) -> CatalogEntry {
    match verdict {
        Verdict::Settled(Ok(entry)) => entry,
        other => panic!("no entry: {:?}", other),
    }
}

#[test]
fn a_film_is_normalized_from_title_and_release_date() {
    let entry = dune().normalize(MediaKind::Movie).unwrap();
    assert_eq!(entry.external_id, 438631);
    assert_eq!(entry.kind, MediaKind::Movie);
    assert_eq!(entry.title, "Dune");
    assert_eq!(entry.overview, "A mythic journey.");
    assert_eq!(entry.release_date, "2021-09-15");
    assert_eq!(entry.popularity_milli, 91_500);
    assert_eq!(entry.vote_average_milli, 7_800);
    assert_eq!(entry.vote_count, 12_000);
    assert_eq!(entry.genres, vec![878, 12]);
    assert_eq!(entry.poster_path, "/dune.jpg");
}

#[test]
fn a_series_is_normalized_from_name_and_first_air_date() {
    let record = UpstreamRecord {
        id: Some(1396),
        name: Some("Breaking Bad".to_string()),
        title: Some("ignored".to_string()),
        first_air_date: Some("2008-01-20".to_string()),
        release_date: Some("1999-01-01".to_string()),
        ..blank()
    };
    let entry = record.normalize(MediaKind::TvShow).unwrap();
    assert_eq!(entry.title, "Breaking Bad");
    assert_eq!(entry.release_date, "2008-01-20");
    let as_film = record.normalize(MediaKind::AnimeMovie).unwrap();
    assert_eq!(as_film.title, "ignored");
    assert_eq!(as_film.release_date, "1999-01-01");
}

#[test]
fn either_shape_falls_back_on_the_other() {
    let record = UpstreamRecord {
        id: Some(5),
        name: Some("Only Name".to_string()),
        first_air_date: Some("2001-01-01".to_string()),
        ..blank()
    };
    let entry = record.normalize(MediaKind::Movie).unwrap();
    assert_eq!(entry.title, "Only Name");
    assert_eq!(entry.release_date, "2001-01-01");
}

#[test]
fn missing_optional_fields_become_empty_or_zero() {
    let record = UpstreamRecord { id: Some(9), title: Some("Bare".to_string()), ..blank() };
    let entry = record.normalize(MediaKind::Movie).unwrap();
    assert_eq!(entry.overview, "");
    assert_eq!(entry.release_date, "");
    assert_eq!(entry.popularity_milli, 0);
    assert_eq!(entry.vote_average_milli, 0);
    assert_eq!(entry.vote_count, 0);
    assert!(entry.genres.is_empty());
    assert_eq!(entry.poster_path, "");
}

#[test]
fn a_record_without_id_or_title_is_invalid() {
    let no_id = UpstreamRecord { title: Some("Dune".to_string()), ..blank() };
    assert_eq!(no_id.normalize(MediaKind::Movie).unwrap_err(), LookupError::Invalid);
    let no_title = UpstreamRecord { id: Some(1), ..blank() };
    assert_eq!(no_title.normalize(MediaKind::TvShow).unwrap_err(), LookupError::Invalid);
    assert_eq!(blank().normalize(MediaKind::Movie).unwrap_err(), LookupError::Invalid);
}

#[test]
fn the_first_result_of_a_page_is_taken() {
    let second = UpstreamRecord { id: Some(2), title: Some("Dune (1984)".to_string()), ..blank() };
    let entry = normalize_first(&vec![dune(), second], MediaKind::Movie).unwrap();
    assert_eq!(entry.external_id, 438631);
    assert_eq!(normalize_first(&vec![], MediaKind::Movie).unwrap_err(), LookupError::Invalid);
    assert_eq!(
        normalize_first(&vec![blank(), dune()], MediaKind::Movie).unwrap_err(),
        LookupError::Invalid
    );
}

#[test]
fn genres_keep_their_first_occurrences() {
    assert_eq!(dedup_genres(&vec![3, 1, 3, 2, 1, 3]), vec![3, 1, 2]);
    assert_eq!(dedup_genres(&vec![]), Vec::<u32>::new());
    assert_eq!(dedup_genres(&vec![7, 7, 7]), vec![7]);
    assert!(holds_item(&vec![1, 2, 3], 2));
    assert!(!holds_item(&vec![1, 2, 3], 4));
}

#[test]
fn entry_duplicate_copies_every_field() {
    let entry = dune().normalize(MediaKind::Movie).unwrap();
    let copy = entry.duplicate();
    assert_eq!(copy.external_id, entry.external_id);
    assert_eq!(copy.title, entry.title);
    assert_eq!(copy.genres, entry.genres);
    assert_eq!(copy.poster_path, entry.poster_path);
    assert_eq!(copy.vote_count, entry.vote_count);
}

#[test]
fn the_policy_has_its_documented_numbers() {
    assert_eq!(MAX_RETRIES, 3);
    assert_eq!(BASE_DELAY_MS, 200);
    assert_eq!(MAX_DELAY_MS, 2000);
    assert_eq!(ATTEMPT_DEADLINE_MS, 5000);
    assert_eq!(DEFAULT_TTL_MS, 24 * 60 * 60 * 1000);
}

#[test]
fn backoff_doubles_up_to_the_cap() {
    assert_eq!(backoff_ms(0), 200);
    assert_eq!(backoff_ms(1), 400);
    assert_eq!(backoff_ms(2), 800);
    assert_eq!(backoff_ms(3), 1600);
    assert_eq!(backoff_ms(4), 2000);
    assert_eq!(backoff_ms(5), 2000);
    assert_eq!(backoff_ms(64), 2000);
    assert_eq!(backoff_ms(u32::MAX), 2000);
}

#[test]
fn jitter_stays_between_half_and_full() {
    assert_eq!(jittered_delay_ms(0, 0), 100);
    assert_eq!(jittered_delay_ms(0, 100), 200);
    assert_eq!(jittered_delay_ms(0, 101), 100);
    assert_eq!(jittered_delay_ms(1, 7), 207);
    assert_eq!(jittered_delay_ms(3, 4_000), 800 + 4_000 % 801);
    for entropy in [0u64, 1, 999, 1000, 1001, u64::MAX] {
        for retry in 0..6u32 {
            let full = backoff_ms(retry);
            let delay = jittered_delay_ms(retry, entropy);
            assert!(full / 2 <= delay && delay <= full);
        }
    }
}

#[test]
fn decide_tells_passing_failures_from_lasting_ones() {
    for retries in 0..3u32 {
        assert!(matches!(decide(retries, &Attempt::Status(503), MediaKind::Movie), Decision::Retry));
        assert!(matches!(decide(retries, &Attempt::TimedOut, MediaKind::Movie), Decision::Retry));
    }
    assert!(matches!(
        decide(3, &Attempt::Status(500), MediaKind::Movie),
        Decision::Settled(Err(LookupError::Unavailable))
    ));
    assert!(matches!(
        decide(3, &Attempt::TimedOut, MediaKind::Movie),
        Decision::Settled(Err(LookupError::Unavailable))
    ));
    for status in [400u16, 401, 404, 429, 499, 600, 301, 204] {
        assert!(matches!(
            decide(0, &Attempt::Status(status), MediaKind::Movie),
            Decision::Settled(Err(LookupError::Invalid))
        ));
    }
    assert!(matches!(decide(0, &Attempt::Status(599), MediaKind::Movie), Decision::Retry));
    assert!(matches!(
        decide(0, &Attempt::Malformed, MediaKind::Movie),
        Decision::Settled(Err(LookupError::Invalid))
    ));
    assert!(matches!(
        decide(2, &Attempt::Page(vec![dune()]), MediaKind::Movie),
        Decision::Settled(Ok(_))
    ));
    assert!(matches!(
        decide(0, &Attempt::Page(vec![]), MediaKind::Movie),
        Decision::Settled(Err(LookupError::Invalid))
    ));
}

#[test]
fn a_catalog_that_always_answers_503_gets_exactly_three_retries() {
    let mut client = CatalogClient::new(DEFAULT_TTL_MS);
    let key = LookupKey::of("Dune", None, MediaKind::Movie);
    assert!(matches!(client.begin(&key, 0), LookupStart::Fetch));
    let mut calls = 0;
    let mut retries = 0;
    let mut waits = Vec::new();
    let end = loop {
        calls += 1;
        match client.finish(&key, &Attempt::Status(503), u64::MAX, calls) {
            Verdict::Retry(delay) => {
                retries += 1;
                waits.push(delay);
            },
            other => break other,
        }
    };
    assert_eq!(retries, 3);
    assert_eq!(calls, 4);
    assert_eq!(waits.len(), 3);
    assert!(100 <= waits[0] && waits[0] <= 200);
    assert!(200 <= waits[1] && waits[1] <= 400);
    assert!(400 <= waits[2] && waits[2] <= 800);
    assert!(matches!(end, Verdict::Settled(Err(LookupError::Unavailable))));
    assert!(!client.is_in_flight(&key));
}

#[test]
fn a_passing_failure_is_followed_by_success() {
    let mut client = CatalogClient::new(1_000);
    let key = LookupKey::of("Dune", None, MediaKind::Movie);
    assert!(matches!(client.begin(&key, 0), LookupStart::Fetch));
    assert!(matches!(client.finish(&key, &Attempt::TimedOut, 0, 1), Verdict::Retry(100)));
    assert!(matches!(client.finish(&key, &Attempt::Status(502), 0, 2), Verdict::Retry(200)));
    let entry = entry_of(client.finish(&key, &Attempt::Page(vec![dune()]), 0, 3));
    assert_eq!(entry.external_id, 438631);
    assert_eq!(client.cached(&key, 3).unwrap().title, "Dune");
}

#[test]
fn a_client_error_fails_at_once() {
    let mut client = CatalogClient::new(1_000);
    let key = LookupKey::of("Dune", None, MediaKind::Movie);
    assert!(matches!(client.begin(&key, 0), LookupStart::Fetch));
    assert!(matches!(
        client.finish(&key, &Attempt::Status(404), 0, 1),
        Verdict::Settled(Err(LookupError::Invalid))
    ));
    assert!(!client.is_in_flight(&key));
    assert!(client.cached(&key, 1).is_none());
    assert!(matches!(client.begin(&key, 2), LookupStart::Fetch));
}

#[test]
fn lookups_for_one_key_share_one_call() {
    let mut client = CatalogClient::new(1_000);
    let key = LookupKey::of("  DUNE ", None, MediaKind::Movie);
    let same = LookupKey::of("dune", None, MediaKind::Movie);
    assert!(matches!(client.begin(&key, 0), LookupStart::Fetch));
    assert!(client.is_in_flight(&same));
    assert!(matches!(client.begin(&same, 0), LookupStart::Join));
    assert!(matches!(client.begin(&key, 5), LookupStart::Join));
    let other = LookupKey::of("dune", None, MediaKind::TvShow);
    assert!(matches!(client.begin(&other, 5), LookupStart::Fetch));
    let by_id = LookupKey::of("dune", Some(438631), MediaKind::Movie);
    assert!(matches!(client.begin(&by_id, 5), LookupStart::Fetch));
}

#[test]
fn the_cache_serves_an_entry_while_it_is_fresh() {
    let mut client = CatalogClient::new(1_000);
    assert_eq!(client.ttl_ms(), 1_000);
    let key = LookupKey::of("Dune", None, MediaKind::Movie);
    assert!(client.cached(&key, 0).is_none());
    assert!(matches!(client.begin(&key, 100), LookupStart::Fetch));
    entry_of(client.finish(&key, &Attempt::Page(vec![dune()]), 0, 100));
    match client.begin(&key, 1_099) {
        LookupStart::Hit(entry) => assert_eq!(entry.external_id, 438631),
        other => panic!("expected a hit: {:?}", other),
    }
    assert!(!client.is_in_flight(&key));
    assert!(client.cached(&key, 1_099).is_some());
    assert!(client.cached(&key, 1_100).is_none());
    assert!(client.cached(&key, 50).is_some());
    assert!(matches!(client.begin(&key, 1_100), LookupStart::Fetch));
    assert!(matches!(client.begin(&key, 1_100), LookupStart::Join));
}

#[test]
fn a_failed_refetch_keeps_the_old_entry_out_of_date() {
    let mut client = CatalogClient::new(10);
    let key = LookupKey::Id(438631, MediaKind::Movie);
    assert!(matches!(client.begin(&key, 0), LookupStart::Fetch));
    entry_of(client.finish(&key, &Attempt::Page(vec![dune()]), 0, 0));
    assert!(matches!(client.begin(&key, 50), LookupStart::Fetch));
    assert!(matches!(
        client.finish(&key, &Attempt::Malformed, 0, 51),
        Verdict::Settled(Err(LookupError::Invalid))
    ));
    assert!(client.cached(&key, 51).is_none());
    assert!(client.cached(&key, 5).is_some());
}

#[test]
fn an_end_without_a_lookup_is_stray() {
    let mut client = CatalogClient::new(1_000);
    let key = LookupKey::of("Dune", None, MediaKind::Movie);
    assert!(matches!(client.finish(&key, &Attempt::Page(vec![dune()]), 0, 1), Verdict::Stray));
    assert!(client.cached(&key, 1).is_none());
    assert!(matches!(client.begin(&key, 2), LookupStart::Fetch));
    entry_of(client.finish(&key, &Attempt::Page(vec![dune()]), 0, 3));
    assert!(matches!(client.finish(&key, &Attempt::Status(503), 0, 4), Verdict::Stray));
}

#[test]
fn lookup_keys_compare_by_value() {
    let a = LookupKey::of("The  Matrix", None, MediaKind::Movie);
    assert!(a.matches(&a.duplicate()));
    assert_eq!(a.kind(), MediaKind::Movie);
    assert!(matches!(&a, LookupKey::Title(title, MediaKind::Movie) if title.iter().collect::<String>() == "the matrix"));
    let by_id = LookupKey::of("The Matrix", Some(603), MediaKind::Movie);
    assert!(matches!(by_id, LookupKey::Id(603, MediaKind::Movie)));
    assert!(!a.matches(&by_id));
    assert!(!LookupKey::Id(603, MediaKind::Movie).matches(&LookupKey::Id(604, MediaKind::Movie)));
    assert!(!LookupKey::Id(603, MediaKind::Movie).matches(&LookupKey::Id(603, MediaKind::TvShow)));
}

#[test]
fn lookups_by_name_and_by_id_begin_like_their_keys() {
    let mut client = CatalogClient::new(1_000);
    assert!(matches!(client.lookup("Dune", MediaKind::Movie, 0), LookupStart::Fetch));
    assert!(matches!(client.lookup(" dune", MediaKind::Movie, 1), LookupStart::Join));
    assert!(client.is_in_flight(&LookupKey::of("DUNE", None, MediaKind::Movie)));
    assert!(matches!(client.lookup_by_id(438631, MediaKind::Movie, 2), LookupStart::Fetch));
    assert!(matches!(client.lookup_by_id(438631, MediaKind::Movie, 3), LookupStart::Join));
    let key = LookupKey::Id(438631, MediaKind::Movie);
    entry_of(client.finish(&key, &Attempt::Page(vec![dune()]), 0, 4));
    assert!(matches!(client.lookup_by_id(438631, MediaKind::Movie, 5), LookupStart::Hit(_)));
}

#[test]
fn eviction_drops_only_what_is_of_no_use() {
    let mut client = CatalogClient::new(100);
    let old_key = LookupKey::of("Alien", None, MediaKind::Movie);
    let fresh_key = LookupKey::of("Dune", None, MediaKind::Movie);
    let flying_key = LookupKey::of("Heat", None, MediaKind::Movie);
    let failed_key = LookupKey::of("Tron", None, MediaKind::Movie);
    client.begin(&old_key, 0);
    entry_of(client.finish(&old_key, &Attempt::Page(vec![dune()]), 0, 0));
    client.begin(&fresh_key, 150);
    entry_of(client.finish(&fresh_key, &Attempt::Page(vec![dune()]), 0, 150));
    client.begin(&flying_key, 160);
    client.begin(&failed_key, 170);
    client.finish(&failed_key, &Attempt::Malformed, 0, 171);
    client.evict(200);
    assert!(client.cached(&old_key, 0).is_none());
    assert!(client.cached(&fresh_key, 200).is_some());
    assert!(client.is_in_flight(&flying_key));
    assert!(!client.is_in_flight(&failed_key));
    assert!(matches!(client.begin(&old_key, 200), LookupStart::Fetch));
    assert!(matches!(client.begin(&fresh_key, 200), LookupStart::Hit(_)));
    assert!(matches!(client.begin(&flying_key, 200), LookupStart::Join));
    client.evict(10_000);
    assert!(client.cached(&fresh_key, 200).is_none());
    assert!(client.is_in_flight(&flying_key));
    assert!(client.is_in_flight(&old_key));
}
