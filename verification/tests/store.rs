use scan_cache::record::{FileRecord, Stamp};
use scan_cache::store::MetadataStore;

fn record(path: &str, size: u64, modified_at: Option<u64>) -> FileRecord {
    FileRecord { path: path.to_string(), size, modified_at }
}

/// A snapshot promises no order: tests compare it sorted by path.
fn sorted(mut records: Vec<FileRecord>) -> Vec<FileRecord> {
    records.sort_by(|one, other| one.path.cmp(&other.path));
    records
}

#[test]
fn new_store_is_empty() {
    let store = MetadataStore::new();
    assert_eq!(store.len(), 0);
    assert!(!store.contains("/data/a.txt"));
    assert_eq!(store.get("/data/a.txt"), None);
    assert!(store.snapshot().is_empty());
}

#[test]
fn upsert_inserts_a_new_path() {
    let mut store = MetadataStore::new();
    store.upsert(record("/data/a.txt", 10, Some(100)));
    assert_eq!(store.len(), 1);
    assert!(store.contains("/data/a.txt"));
    assert_eq!(store.get("/data/a.txt"), Some(record("/data/a.txt", 10, Some(100))));
    assert_eq!(store.get("/data/b.txt"), None);
}

#[test]
fn upsert_overwrites_an_old_record() {
    let mut store = MetadataStore::new();
    store.upsert(record("/data/a.txt", 10, Some(100)));
    store.upsert(record("/data/b.txt", 20, Some(200)));
    store.upsert(record("/data/a.txt", 11, Some(101)));
    assert_eq!(store.len(), 2);
    assert_eq!(store.get("/data/a.txt"), Some(record("/data/a.txt", 11, Some(101))));
    assert_eq!(store.get("/data/b.txt"), Some(record("/data/b.txt", 20, Some(200))));
}

#[test]
fn upsert_can_drop_the_time() {
    let mut store = MetadataStore::new();
    store.upsert(record("/data/a.txt", 10, Some(100)));
    store.upsert(record("/data/a.txt", 10, None));
    assert_eq!(store.get("/data/a.txt"), Some(record("/data/a.txt", 10, None)));
}

#[test]
fn paths_are_compared_exactly() {
    let mut store = MetadataStore::new();
    store.upsert(record("/data/a.txt", 10, Some(100)));
    assert!(!store.contains("/data/A.txt"));
    assert!(!store.contains("/data/a.txt/"));
    assert!(!store.contains("data/a.txt"));
    assert!(!store.contains(""));
}

#[test]
fn snapshot_lists_each_path_once_with_its_latest_record() {
    let mut store = MetadataStore::new();
    store.upsert(record("/data/c", 3, Some(30)));
    store.upsert(record("/data/a", 1, Some(10)));
    store.upsert(record("/data/b", 2, None));
    store.upsert(record("/data/a", 9, Some(90)));
    let records = sorted(store.snapshot());
    assert_eq!(
        records,
        vec![record("/data/a", 9, Some(90)), record("/data/b", 2, None), record("/data/c", 3, Some(30))]
    );
}

#[test]
fn snapshot_leaves_the_store_usable() {
    let mut store = MetadataStore::new();
    store.upsert(record("/data/a", 1, Some(10)));
    let before = store.snapshot();
    store.upsert(record("/data/b", 2, Some(20)));
    assert_eq!(before.len(), 1);
    assert_eq!(store.snapshot().len(), 2);
}

#[test]
fn snapshot_round_trip_with_records() {
    let mut store = MetadataStore::new();
    store.upsert(record("/data/a", 1, Some(10)));
    store.upsert(record("/data/b", 2, None));
    store.upsert(record("/data/c", u64::MAX, Some(u64::MAX)));
    let records = store.snapshot();
    let again = MetadataStore::from_records(records.clone());
    assert_eq!(again.len(), store.len());
    assert_eq!(sorted(again.snapshot()), sorted(records.clone()));
    for each in records.iter() {
        assert_eq!(again.get(&each.path), store.get(&each.path));
        assert_eq!(again.get(&each.path), Some(each.clone()));
    }
}

#[test]
fn snapshot_round_trip_with_no_records() {
    let store = MetadataStore::new();
    let records = store.snapshot();
    assert_eq!(records, Vec::<FileRecord>::new());
    let again = MetadataStore::from_records(records);
    assert_eq!(again.len(), 0);
    assert!(again.snapshot().is_empty());
}

#[test]
fn from_records_keeps_the_later_of_two_records() {
    let store = MetadataStore::from_records(vec![
        record("/data/a", 1, Some(10)),
        record("/data/b", 2, Some(20)),
        record("/data/a", 3, Some(30)),
    ]);
    assert_eq!(store.len(), 2);
    assert_eq!(store.get("/data/a"), Some(record("/data/a", 3, Some(30))));
    assert_eq!(store.get("/data/b"), Some(record("/data/b", 2, Some(20))));
}

#[test]
fn load_of_a_decoded_cache_holds_its_records() {
    let store = MetadataStore::load(Some(vec![record("/data/a", 1, Some(10))]));
    assert_eq!(store.len(), 1);
    assert_eq!(store.get("/data/a").map(|found| found.stamp()), Some(Stamp { size: 1, modified_at: Some(10) }));
}

#[test]
fn load_without_a_cache_starts_cold() {
    let store = MetadataStore::load(None);
    assert_eq!(store.len(), 0);
    assert!(store.snapshot().is_empty());
}

#[test]
fn load_of_an_empty_cache_is_empty() {
    let store = MetadataStore::load(Some(Vec::new()));
    assert_eq!(store.len(), 0);
}

#[test]
fn store_holds_many_paths() {
    let mut store = MetadataStore::new();
    for i in 0..500u64 {
        store.upsert(record(&format!("/data/file-{i}"), i, Some(i * 2)));
    }
    for i in 0..500u64 {
        store.upsert(record(&format!("/data/file-{i}"), i + 1, Some(i * 2)));
    }
    assert_eq!(store.len(), 500);
    assert_eq!(store.get("/data/file-0"), Some(record("/data/file-0", 1, Some(0))));
    assert_eq!(store.get("/data/file-499"), Some(record("/data/file-499", 500, Some(998))));
    assert_eq!(store.snapshot().len(), 500);
}
