use scan_cache::fault::{Fault, FaultKind, IoKind};
use scan_cache::predicate::Predicate;
use scan_cache::record::{is_fresh, FileRecord, Stamp};

fn record(path: &str, size: u64, modified_at: Option<u64>) -> FileRecord {
    FileRecord { path: path.to_string(), size, modified_at }
}

#[test]
fn fresh_when_size_and_time_agree() {
    let cached = record("/data/a.txt", 10, Some(1_700_000_000));
    assert!(is_fresh(&cached, 10, Some(1_700_000_000)));
}

#[test]
fn stale_when_size_differs() {
    let cached = record("/data/a.txt", 10, Some(1_700_000_000));
    assert!(!is_fresh(&cached, 11, Some(1_700_000_000)));
    assert!(!is_fresh(&cached, 0, Some(1_700_000_000)));
}

#[test]
fn stale_when_time_differs() {
    let cached = record("/data/a.txt", 10, Some(1_700_000_000));
    assert!(!is_fresh(&cached, 10, Some(1_700_000_001)));
    assert!(!is_fresh(&cached, 10, Some(0)));
}

#[test]
fn stale_when_both_differ() {
    let cached = record("/data/a.txt", 2048, Some(5));
    assert!(!is_fresh(&cached, 10, Some(6)));
}

#[test]
fn missing_live_time_forces_refresh() {
    let cached = record("/data/a.txt", 10, Some(1_700_000_000));
    assert!(!is_fresh(&cached, 10, None));
}

#[test]
fn missing_cached_time_against_live_time_is_stale() {
    let cached = record("/data/a.txt", 10, None);
    assert!(!is_fresh(&cached, 10, Some(1_700_000_000)));
}

#[test]
fn missing_time_on_both_sides_is_fresh() {
    let cached = record("/data/a.txt", 10, None);
    assert!(is_fresh(&cached, 10, None));
    assert!(!is_fresh(&cached, 11, None));
}

#[test]
fn freshness_does_not_look_at_the_path() {
    let one = record("/data/a.txt", 7, Some(3));
    let other = record("/elsewhere/b.txt", 7, Some(3));
    assert_eq!(is_fresh(&one, 7, Some(3)), is_fresh(&other, 7, Some(3)));
}

#[test]
fn record_new_and_stamp_agree() {
    let stamp = Stamp { size: 42, modified_at: Some(9) };
    let built = FileRecord::new("/data/a.txt".to_string(), stamp);
    assert_eq!(built, record("/data/a.txt", 42, Some(9)));
    assert_eq!(built.stamp(), stamp);
    let timeless = FileRecord::new("/data/b".to_string(), Stamp { size: 0, modified_at: None });
    assert_eq!(timeless.stamp(), Stamp { size: 0, modified_at: None });
}

#[test]
fn record_clone_is_equal() {
    let one = record("/data/a.txt", 42, Some(9));
    let copy = one.clone();
    assert_eq!(one, copy);
    assert_eq!(copy.path, "/data/a.txt");
}

#[test]
fn size_predicate_is_inclusive() {
    let rule = Predicate::SizeAtLeast(1024);
    let name = "report.pdf".to_string();
    assert!(!rule.matches(&name, 0));
    assert!(!rule.matches(&name, 1023));
    assert!(rule.matches(&name, 1024));
    assert!(rule.matches(&name, 1025));
    assert!(rule.matches(&name, u64::MAX));
}

#[test]
fn size_predicate_of_zero_accepts_every_file() {
    let rule = Predicate::SizeAtLeast(0);
    assert!(rule.matches(&"empty".to_string(), 0));
    assert!(rule.matches(&"".to_string(), 1));
}

#[test]
fn size_predicate_ignores_the_name() {
    let rule = Predicate::SizeAtLeast(10);
    assert!(rule.matches(&"a".to_string(), 10));
    assert!(rule.matches(&"b".to_string(), 10));
}

#[test]
fn name_predicate_is_exact() {
    let rule = Predicate::NameEquals("notes.txt".to_string());
    assert!(rule.matches(&"notes.txt".to_string(), 0));
    assert!(rule.matches(&"notes.txt".to_string(), 5_000));
    assert!(!rule.matches(&"Notes.txt".to_string(), 0));
    assert!(!rule.matches(&"notes.txt ".to_string(), 0));
    assert!(!rule.matches(&"notes".to_string(), 0));
    assert!(!rule.matches(&"".to_string(), 0));
    assert!(!rule.matches(&"dir/notes.txt".to_string(), 0));
}

#[test]
fn name_predicate_handles_non_ascii_names() {
    let rule = Predicate::NameEquals("résumé.txt".to_string());
    assert!(rule.matches(&"résumé.txt".to_string(), 1));
    assert!(!rule.matches(&"resume.txt".to_string(), 1));
}

#[test]
fn permission_denied_is_its_own_tally() {
    let fault = Fault { io: Some(IoKind::PermissionDenied) };
    assert_eq!(fault.classify(), FaultKind::PermissionDenied);
}

#[test]
fn other_io_errors_count_as_other() {
    let fault = Fault { io: Some(IoKind::Other) };
    assert_eq!(fault.classify(), FaultKind::Other);
}

#[test]
fn faults_without_io_error_count_as_other() {
    let fault = Fault { io: None };
    assert_eq!(fault.classify(), FaultKind::Other);
}
