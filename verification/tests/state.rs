use spec_detect::app_state::{AppState, AppStateManager, Event, TestStatus};
use spec_detect::repo_watcher::changed_file::ChangedFile;

#[test]
fn test_files_changed_merges_and_resets() {
    let mut state = AppState::new();
    state.on_file_event(vec![
        ChangedFile::new("app/models/user.rb"),
        ChangedFile::new("app/models/post.rb"),
    ]);

    assert_eq!(state.watched_files.len(), 2);
    assert_eq!(state.last_changed_files.len(), 2);

    // A new set supersedes one path and brings one new; the untouched old
    // entry keeps its place behind the new ones.
    state.on_file_event(vec![
        ChangedFile::new("app/models/post.rb"),
        ChangedFile::new("lib/tasks.rb"),
    ]);

    let paths: Vec<String> =
        state.watched_files.iter().map(|w| w.changed_file.path.clone()).collect();
    assert_eq!(
        paths,
        vec![
            "app/models/post.rb".to_string(),
            "lib/tasks.rb".to_string(),
            "app/models/user.rb".to_string(),
        ]
    );
    for w in &state.watched_files {
        assert!(matches!(w.test_status, TestStatus::Unknown));
    }
    assert_eq!(state.last_changed_files.len(), 2);
    assert!(!state.should_quit);
}

#[test]
fn test_no_two_watched_entries_share_a_path() {
    let mut state = AppState::new();
    state.on_file_event(vec![ChangedFile::new("a.rb"), ChangedFile::new("b.rb")]);
    state.on_file_event(vec![ChangedFile::new("b.rb"), ChangedFile::new("c.rb")]);
    state.on_file_event(vec![ChangedFile::new("a.rb")]);

    let paths: Vec<String> =
        state.watched_files.iter().map(|w| w.changed_file.path.clone()).collect();
    for i in 0..paths.len() {
        for j in (i + 1)..paths.len() {
            assert_ne!(paths[i], paths[j]);
        }
    }
}

#[test]
fn test_quit_sets_the_flag_and_nothing_else() {
    let mut state = AppState::new();
    state.on_file_event(vec![ChangedFile::new("a.rb")]);
    state.on(Event::Quit);
    assert!(state.should_quit);
    assert_eq!(state.watched_files.len(), 1);
}

#[test]
fn test_subscriber_reads_the_latest_pair() {
    let mut manager = AppStateManager::new();

    // A burst of publications; a reader that missed them all still gets
    // exactly the last one.
    assert!(manager.dispatch(Event::FilesChanged(vec![ChangedFile::new("a.rb")])));
    assert!(manager.dispatch(Event::FilesChanged(vec![ChangedFile::new("b.rb")])));
    assert!(manager.dispatch(Event::FilesChanged(vec![ChangedFile::new("c.rb")])));

    let (event, state) = manager.get_state();
    match event {
        Event::FilesChanged(files) => {
            assert_eq!(files.len(), 1);
            assert_eq!(files[0].path, "c.rb");
        },
        other => panic!("unexpected: {:?}", other),
    }
    assert_eq!(state.last_changed_files.len(), 1);
    assert_eq!(state.last_changed_files[0].path, "c.rb");
    assert_eq!(state.watched_files.len(), 3);
}

#[test]
fn test_quit_is_terminal_for_the_manager() {
    let mut manager = AppStateManager::new();
    assert!(manager.dispatch(Event::FilesChanged(vec![ChangedFile::new("a.rb")])));
    assert!(manager.dispatch(Event::Quit));

    // Nothing after the quit is accepted, and the published pair stays.
    assert!(!manager.dispatch(Event::FilesChanged(vec![ChangedFile::new("b.rb")])));
    let (event, state) = manager.get_state();
    assert!(matches!(event, Event::Quit));
    assert!(state.should_quit);
    assert_eq!(state.watched_files.len(), 1);
}

#[test]
fn test_initial_manager_state() {
    let manager = AppStateManager::new();
    let (event, state) = manager.get_state();
    assert!(matches!(event, Event::Start));
    assert!(!state.should_quit);
    assert!(state.watched_files.is_empty());
    assert!(state.last_changed_files.is_empty());
}
