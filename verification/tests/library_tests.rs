use media_requests::env::EnvReader;
use media_requests::library::{collect_ids, LibraryIndex, LibraryPresence, RefreshError};
use media_requests::report::{client_report, log_line, variable_line};

#[test]
fn a_new_index_holds_nothing() {
    let index = LibraryIndex::new();
    assert!(!index.is_present(438631));
    assert!(!index.is_stale());
    assert_eq!(index.checked_at(), 0);
}

#[test]
fn refresh_replaces_what_the_index_holds() {
    let mut index = LibraryIndex::new();
    assert_eq!(index.refresh(Ok(vec![1, 2, 3]), 10), Ok(()));
    assert!(index.is_present(1) && index.is_present(2) && index.is_present(3));
    assert!(!index.is_present(4));
    assert_eq!(index.refresh(Ok(vec![3, 4, 4]), 20), Ok(()));
    assert!(!index.is_present(1));
    assert!(!index.is_present(2));
    assert!(index.is_present(3));
    assert!(index.is_present(4));
    assert_eq!(index.checked_at(), 20);
}

#[test]
fn after_refresh_presence_is_what_the_scan_says() {
    let scan: Vec<u64> = vec![0, 7, 438631, u64::MAX];
    let mut index = LibraryIndex::new();
    index.refresh(Ok(vec![5, 6]), 1).unwrap();
    index.refresh(Ok(scan.clone()), 2).unwrap();
    for id in [0u64, 1, 5, 6, 7, 8, 438631, u64::MAX - 1, u64::MAX] {
        assert_eq!(index.is_present(id), scan.contains(&id));
    }
}

#[test]
fn a_failed_scan_keeps_the_old_answers() {
    let mut index = LibraryIndex::new();
    index.refresh(Ok(vec![1, 2]), 10).unwrap();
    assert_eq!(index.refresh(Err(RefreshError::Unreachable), 20), Err(RefreshError::Unreachable));
    assert!(index.is_present(1) && index.is_present(2));
    assert!(index.is_stale());
    assert_eq!(index.checked_at(), 10);
    index.refresh(Ok(vec![]), 30).unwrap();
    assert!(!index.is_stale());
    assert!(!index.is_present(1));
    assert_eq!(index.checked_at(), 30);
}

#[test]
fn presence_reports_the_time_of_the_scan() {
    let mut index = LibraryIndex::new();
    index.refresh(Ok(vec![9]), 77).unwrap();
    assert_eq!(
        index.presence(9),
        LibraryPresence { external_id: 9, available: true, checked_at: 77 }
    );
    assert_eq!(
        index.presence(8),
        LibraryPresence { external_id: 8, available: false, checked_at: 77 }
    );
}

#[test]
fn collect_ids_forgets_repeats() {
    let set = collect_ids(&vec![4, 4, 2, 4]);
    assert_eq!(set.len(), 2);
    assert!(set.contains(&4) && set.contains(&2));
    assert!(collect_ids(&vec![]).is_empty());
}

#[test]
fn a_log_line_has_time_message_and_line_feed() {
    assert_eq!(
        log_line("2024-05-01 12:00:00.123", "Client was built."),
        "[2024-05-01 12:00:00.123] Client was built.\n"
    );
    assert_eq!(log_line("", ""), "[] \n");
}

#[test]
fn the_client_report_names_the_failure() {
    assert_eq!(client_report(None), "Client was built.");
    assert_eq!(client_report(Some("no TLS backend")), "Failed to build client: no TLS backend");
    assert_eq!(client_report(Some("")), "Failed to build client: ");
}

#[test]
fn a_variable_line_has_name_colon_value() {
    assert_eq!(variable_line("HOME", "/root"), "HOME: /root");
    assert_eq!(variable_line("EMPTY", ""), "EMPTY: ");
}

#[test]
fn env_reader_can_be_made() {
    let reader = EnvReader::new();
    let EnvReader {} = reader;
}
