use spec_detect::app_state::{TestStatus, WatchedFile};
use spec_detect::configuration::Configuration;
use spec_detect::repo_watcher::changed_file::{ChangeKind, ChangedFile};
use spec_detect::test_runner::test_file_run::TestExample as RunExample;
use spec_detect::test_runner::test_file_run::TestFileRun;
use spec_detect::test_runner::test_suite::{TestFile, TestSuite};
use spec_detect::ui::file_text;
use spec_detect::util::path_filter::PathFilter;

#[test]
fn test_example_duration() {
    let example = RunExample {
        started_at: 100,
        finished_at: Some(350),
        status: spec_detect::test_runner::test_file_run::TestStatus::Success,
        description: "works".to_string(),
    };
    assert_eq!(example.duration(), Some(250));

    let unfinished = RunExample { finished_at: None, ..example.clone() };
    assert_eq!(unfinished.duration(), None);

    // An end instant before the start counts as zero.
    let skewed = RunExample { started_at: 400, finished_at: Some(350), ..example };
    assert_eq!(skewed.duration(), Some(0));
}

#[test]
fn test_file_run_duration() {
    let run = TestFileRun {
        files_tested: vec!["app/models/user.rb".to_string()],
        test_file: "spec/user_spec.rb".to_string(),
        started_at: 10,
        finished_at: Some(42),
        examples: vec![],
    };
    assert_eq!(run.duration(), Some(32));
}

#[test]
fn test_suite_records_one_entry_per_path() {
    let mut suite = TestSuite::new();
    suite.update(TestFile::new(&"spec/a_spec.rb".to_string()));
    suite.update(TestFile::new(&"spec/b_spec.rb".to_string()));

    let mut updated = TestFile::new(&"spec/a_spec.rb".to_string());
    updated.duration = 99;
    suite.update(updated);

    assert_eq!(suite.len(), 2);
    let entry = suite.lookup(&"spec/a_spec.rb".to_string()).unwrap();
    assert_eq!(entry.duration, 99);
    assert!(suite.lookup(&"spec/c_spec.rb".to_string()).is_none());
    assert_eq!(suite.file_at(1).path, "spec/b_spec.rb");
}

#[test]
fn test_file_text_marks_status_and_kind() {
    let line = file_text(&WatchedFile {
        changed_file: ChangedFile {
            path: "app/models/user.rb".to_string(),
            status: ChangeKind::Added,
        },
        test_status: TestStatus::Unknown,
    });
    assert_eq!(line, "> A app/models/user.rb");

    let line = file_text(&WatchedFile {
        changed_file: ChangedFile { path: "lib/x.rb".to_string(), status: ChangeKind::Untracked },
        test_status: TestStatus::Failed,
    });
    assert_eq!(line, "x  - lib/x.rb");
}

#[test]
fn test_configuration_default_and_lookup() {
    let config = Configuration::default();
    assert_eq!(config.branch, "master");
    assert!(config.include_globs.is_empty());
    assert!(config.run_with_no_targets);
    assert!(config.rules_for(&"rspec".to_string()).is_none());

    let mut config = Configuration::default();
    config.map = vec![
        ("rspec".to_string(), vec![("a".to_string(), "b".to_string())]),
        ("other".to_string(), vec![]),
    ];
    let rules = config.rules_for(&"rspec".to_string()).unwrap();
    assert_eq!(rules.len(), 1);
    assert_eq!(rules[0].0, "a");
}

#[test]
fn test_path_filter_includes_by_pattern() {
    let mut config = Configuration::default();
    config.include_globs = vec!["*.rb".to_string()];
    let filter = PathFilter::new(&config).unwrap();

    assert!(filter.include_path(&"user.rb".to_string()));
    assert!(filter.include_path(&"app/models/user.rb".to_string()));
    assert!(!filter.include_path(&"readme.md".to_string()));
}

#[test]
fn test_path_filter_rejects_a_broken_pattern() {
    let mut config = Configuration::default();
    config.include_globs = vec!["*.rb".to_string(), "[".to_string()];
    match PathFilter::new(&config) {
        Err(p) => assert_eq!(p, "["),
        Ok(_) => panic!("a broken pattern was accepted"),
    }
}

#[test]
fn test_path_filter_without_patterns_includes_nothing() {
    let config = Configuration::default();
    let filter = PathFilter::new(&config).unwrap();
    assert!(!filter.include_path(&"user.rb".to_string()));
}
