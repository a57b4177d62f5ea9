use spec_detect::repo_watcher::changed_file::{dedup_by_path, ChangeKind, ChangedFile};
use spec_detect::repo_watcher::code_repo::CodeRepo;
use spec_detect::repo_watcher::{on_write_notification, relative_to, WatchState};
use spec_detect::util::path_sort::{mtime_comparator, sort_by_mtime};
use core::cmp::Ordering;

#[test]
fn test_dedup_collapses_by_path_last_kind_wins() {
    let files = vec![
        ChangedFile { path: "a.rb".to_string(), status: ChangeKind::Added },
        ChangedFile { path: "b.rb".to_string(), status: ChangeKind::Modified },
        ChangedFile { path: "a.rb".to_string(), status: ChangeKind::Modified },
    ];
    let deduped = dedup_by_path(files);

    assert_eq!(deduped.len(), 2);
    assert_eq!(deduped[0].path, "a.rb");
    assert_eq!(deduped[0].status, ChangeKind::Modified);
    assert_eq!(deduped[1].path, "b.rb");
    assert_eq!(deduped[1].status, ChangeKind::Modified);
}

#[test]
fn test_relative_to_strips_the_repo_prefix() {
    assert_eq!(
        relative_to(&"/repo".to_string(), &"/repo/src/a.rb".to_string()),
        Some("src/a.rb".to_string())
    );
    assert_eq!(relative_to(&"/repo".to_string(), &"/elsewhere/a.rb".to_string()), None);
    assert_eq!(relative_to(&"/repo".to_string(), &"/repo".to_string()), None);
    assert_eq!(relative_to(&"/repo".to_string(), &"/repository/a.rb".to_string()), None);
}

#[test]
fn test_write_notification_is_a_modified_file() {
    let f = on_write_notification(&"/repo".to_string(), &"/repo/lib/x.rb".to_string()).unwrap();
    assert_eq!(f.path, "lib/x.rb");
    assert_eq!(f.status, ChangeKind::Modified);
    assert!(on_write_notification(&"/repo".to_string(), &"/tmp/x.rb".to_string()).is_none());
}

#[test]
fn test_rescan_hands_back_only_the_new_files() {
    let mut watch = WatchState::new(vec![ChangedFile::new("a.rb")]);
    let fresh = watch.on_rescan(vec![
        ChangedFile::new("a.rb"),
        ChangedFile::new("b.rb"),
        ChangedFile::new("c.rb"),
        ChangedFile::new("b.rb"),
    ]);

    let paths: Vec<String> = fresh.iter().map(|f| f.path.clone()).collect();
    assert_eq!(paths, vec!["b.rb".to_string(), "c.rb".to_string()]);

    // Seen now; a second rescan adds nothing.
    let again = watch.on_rescan(vec![ChangedFile::new("b.rb"), ChangedFile::new("c.rb")]);
    assert!(again.is_empty());
}

#[test]
fn test_removed_paths_are_forgotten() {
    let mut watch = WatchState::new(vec![ChangedFile::new("a.rb"), ChangedFile::new("b.rb")]);

    assert!(watch.on_remove(&"a.rb".to_string()));
    assert!(!watch.on_remove(&"a.rb".to_string()));

    // Once forgotten, a rescan announces the path anew.
    let fresh = watch.on_rescan(vec![ChangedFile::new("a.rb")]);
    assert_eq!(fresh.len(), 1);
    assert_eq!(fresh[0].path, "a.rb");
}

#[test]
fn test_mtime_comparator_most_recent_first() {
    assert_eq!(mtime_comparator(Some(9), Some(3)), Ordering::Less);
    assert_eq!(mtime_comparator(Some(3), Some(9)), Ordering::Greater);
    assert_eq!(mtime_comparator(Some(5), Some(5)), Ordering::Equal);
    assert_eq!(mtime_comparator(Some(1), None), Ordering::Less);
    assert_eq!(mtime_comparator(None, Some(1)), Ordering::Greater);
    assert_eq!(mtime_comparator(None, None), Ordering::Equal);
}

#[test]
fn test_sort_by_mtime_orders_and_keeps_ties_stable() {
    let files = vec![
        ("a".to_string(), Some(5u64)),
        ("b".to_string(), None),
        ("c".to_string(), Some(9u64)),
        ("d".to_string(), Some(5u64)),
    ];
    let sorted = sort_by_mtime(files);
    let names: Vec<String> = sorted.iter().map(|e| e.0.clone()).collect();
    assert_eq!(
        names,
        vec!["c".to_string(), "a".to_string(), "d".to_string(), "b".to_string()]
    );
}

#[test]
fn test_open_missing_repository_fails() {
    assert!(CodeRepo::open(&"/nonexistent/certainly/not/a/repo".to_string()).is_err());
}
