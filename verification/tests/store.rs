use timesheet_billing::cache::LookupCache;
use timesheet_billing::store::{BilledStore, WriteOutcome};

#[test]
fn is_billed_defaults_to_false() {
    let store = BilledStore::new();
    assert!(!store.is_billed(1));
    assert!(!store.is_billed(-7));
}

#[test]
fn record_takes_over_the_persisted_flag() {
    let mut store = BilledStore::new();
    store.record(1, true);
    store.record(2, false);
    assert!(store.is_billed(1));
    assert!(!store.is_billed(2));
    store.record(1, false);
    assert!(!store.is_billed(1));
}

#[test]
fn commit_marks_every_id_of_the_batch() {
    let mut store = BilledStore::new();
    store.record(9, true);
    store.record(2, false);
    store.commit(&vec![1, 2, 3]);
    assert!(store.is_billed(1));
    assert!(store.is_billed(2));
    assert!(store.is_billed(3));
    assert!(store.is_billed(9));
    assert!(!store.is_billed(4));
}

#[test]
fn commit_of_an_empty_batch_changes_nothing() {
    let mut store = BilledStore::new();
    store.record(1, true);
    store.commit(&Vec::new());
    assert!(store.is_billed(1));
    assert!(!store.is_billed(2));
}

#[test]
fn interrupted_commit_marks_nothing() {
    let mut store = BilledStore::new();
    store.record(9, true);
    store.conclude(&vec![1, 2, 3], WriteOutcome::Interrupted);
    assert!(!store.is_billed(1));
    assert!(!store.is_billed(2));
    assert!(!store.is_billed(3));
    assert!(store.is_billed(9));
}

#[test]
fn concluded_commit_marks_the_batch() {
    let mut store = BilledStore::new();
    store.conclude(&vec![1, 2, 3], WriteOutcome::Committed);
    assert!(store.is_billed(1));
    assert!(store.is_billed(2));
    assert!(store.is_billed(3));
}

#[test]
fn cache_misses_until_populated() {
    let mut cache = LookupCache::new();
    assert_eq!(cache.resolve_client_id(10), None);
    assert_eq!(cache.resolve_client_name(5), None);
    cache.populate_project(10, Some(5));
    cache.populate_client(5, Some("ACME".to_string()));
    assert_eq!(cache.resolve_client_id(10), Some(5));
    assert_eq!(cache.resolve_client_name(5), Some("ACME".to_string()));
    assert_eq!(cache.resolve_client_id(11), None);
}

#[test]
fn cache_does_not_remember_an_empty_answer() {
    let mut cache = LookupCache::new();
    cache.populate_project(10, None);
    cache.populate_client(5, None);
    assert_eq!(cache.resolve_client_id(10), None);
    assert_eq!(cache.resolve_client_name(5), None);
}
