use spec_detect::configuration::Configuration;
use spec_detect::repo_watcher::changed_file::ChangedFile;
use spec_detect::ruby::rspec::RSpecEvent;
use spec_detect::test_runner::test_run::{
    plan_run, should_start, PlanError, RunTranslator, TestRunEvent,
};
use spec_detect::test_runner::{RunnerAction, TestRunner};

fn started(file: &str) -> RSpecEvent {
    RSpecEvent::ExampleStarted {
        id: "1".to_string(),
        location: format!("{}:1", file),
        file_path: file.to_string(),
        description: None,
    }
}

#[test]
fn test_translator_tracks_the_current_file() {
    let mut t = RunTranslator::new();

    let out = t.on_event(RSpecEvent::Start { count: Some(2) });
    assert!(matches!(out.as_slice(), [TestRunEvent::Started]));

    // First file: started.
    let out = t.on_event(started("spec/a_spec.rb"));
    match out.as_slice() {
        [TestRunEvent::FileStarted(p)] => assert_eq!(p, "spec/a_spec.rb"),
        other => panic!("unexpected: {:?}", other),
    }

    // The same file again: nothing.
    let out = t.on_event(started("spec/a_spec.rb"));
    assert!(out.is_empty());

    // Another file: the old one finishes before the new one starts.
    let out = t.on_event(started("spec/b_spec.rb"));
    match out.as_slice() {
        [TestRunEvent::FileFinished(a), TestRunEvent::FileStarted(b)] => {
            assert_eq!(a, "spec/a_spec.rb");
            assert_eq!(b, "spec/b_spec.rb");
        },
        other => panic!("unexpected: {:?}", other),
    }
}

#[test]
fn test_translator_passes_example_outcomes_through() {
    let mut t = RunTranslator::new();
    let out = t.on_event(RSpecEvent::ExamplePassed {
        id: "1".to_string(),
        location: "spec/a_spec.rb:4".to_string(),
        file_path: "spec/a_spec.rb".to_string(),
        description: "works".to_string(),
    });
    match out.as_slice() {
        [TestRunEvent::ExamplePassed(e)] => {
            assert_eq!(e.path, "spec/a_spec.rb");
            assert_eq!(e.location, "spec/a_spec.rb:4");
        },
        other => panic!("unexpected: {:?}", other),
    }

    let out = t.on_event(RSpecEvent::ExampleFailed {
        id: "2".to_string(),
        location: None,
        file_path: "spec/a_spec.rb".to_string(),
        description: None,
        exception: Some("boom".to_string()),
    });
    match out.as_slice() {
        [TestRunEvent::ExampleFailed(f)] => {
            assert_eq!(f.example.path, "spec/a_spec.rb");
            assert_eq!(f.example.location, "");
            assert_eq!(f.description, "boom");
        },
        other => panic!("unexpected: {:?}", other),
    }
}

#[test]
fn test_protocol_error_ends_the_run() {
    let mut t = RunTranslator::new();
    t.on_event(RSpecEvent::Start { count: None });

    // Exactly one Error event comes out, and the run is finished.
    let out = t.on_event(RSpecEvent::Error { msg: "bad line".to_string() });
    match out.as_slice() {
        [TestRunEvent::Error(msg)] => assert_eq!(msg, "bad line"),
        other => panic!("unexpected: {:?}", other),
    }
    assert!(t.is_finished());

    // Nothing after it is processed.
    assert!(t.on_event(started("spec/a_spec.rb")).is_empty());
    assert!(t.on_event(RSpecEvent::Stop).is_empty());
}

#[test]
fn test_stream_end_reads_as_finished() {
    let mut t = RunTranslator::new();
    let out = t.on_event(RSpecEvent::Exit);
    assert!(matches!(out.as_slice(), [TestRunEvent::Finished]));
    assert!(t.is_finished());
}

#[test]
fn test_stop_reads_as_finished_but_does_not_end_the_stream() {
    let mut t = RunTranslator::new();
    let out = t.on_event(RSpecEvent::Stop);
    assert!(matches!(out.as_slice(), [TestRunEvent::Finished]));
    assert!(!t.is_finished());
}

fn config_with_rules(rules: Vec<(&str, &str)>) -> Configuration {
    let mut config = Configuration::default();
    config.map = vec![(
        "rspec".to_string(),
        rules.into_iter().map(|(p, t)| (p.to_string(), t.to_string())).collect(),
    )];
    config
}

#[test]
fn test_plan_needs_runner_rules() {
    let config = Configuration::default();
    match plan_run(&config, vec![ChangedFile::new("a.rb")]) {
        Err(PlanError::MissingRunnerRules) => {},
        other => panic!("unexpected: {:?}", other.is_ok()),
    }
}

#[test]
fn test_plan_rejects_an_invalid_pattern() {
    let config = config_with_rules(vec![("app/(.+?).rb", "test/$1_spec.rb"), ("(", "x")]);
    match plan_run(&config, vec![ChangedFile::new("a.rb")]) {
        Err(PlanError::InvalidPattern(p)) => assert_eq!(p, "("),
        other => panic!("unexpected: {:?}", other.is_ok()),
    }
}

#[test]
fn test_plan_resolves_targets_against_the_tree() {
    // The rule maps the changed marker file onto a glob that resolves to
    // this crate's own root file.
    let config = config_with_rules(vec![("(.+).x", "src/li*.rs")]);
    let plan = plan_run(&config, vec![ChangedFile::new("lib.x")]).unwrap();
    assert_eq!(plan.locations, vec!["src/lib.rs".to_string()]);
    assert_eq!(plan.files.len(), 1);
}

#[test]
fn test_plan_with_no_matching_rules_is_empty() {
    let config = config_with_rules(vec![("app/(.+?).rb", "test/$1_spec.rb")]);
    let plan = plan_run(&config, vec![ChangedFile::new("lib/other.py")]).unwrap();
    assert_eq!(plan.locations.len(), 0);
    assert_eq!(plan.files.len(), 0);
}

#[test]
fn test_empty_target_set_is_a_configured_decision() {
    let config = config_with_rules(vec![("app/(.+?).rb", "test/$1_spec.rb")]);
    let plan = plan_run(&config, vec![ChangedFile::new("lib/other.py")]).unwrap();
    assert_eq!(plan.locations.len(), 0);

    // By default an empty set still runs the whole suite.
    assert!(should_start(&plan, &config));

    let mut skipping = config_with_rules(vec![("app/(.+?).rb", "test/$1_spec.rb")]);
    skipping.run_with_no_targets = false;
    assert!(!should_start(&plan, &skipping));

    // A plan with targets always starts.
    let with_targets = config_with_rules(vec![("(.+).x", "src/li*.rs")]);
    let plan = plan_run(&with_targets, vec![ChangedFile::new("lib.x")]).unwrap();
    let mut no_empty_runs = config_with_rules(vec![("(.+).x", "src/li*.rs")]);
    no_empty_runs.run_with_no_targets = false;
    assert!(should_start(&plan, &no_empty_runs));
}

#[test]
fn test_single_flight_cancel_then_spawn() {
    let mut runner = TestRunner::new();

    // No active run: the first changed set only starts one.
    let actions = runner.on_changed_files();
    assert_eq!(actions, vec![RunnerAction::Spawn(0)]);

    // A run is active: exactly one cancellation of it, then exactly one
    // start of the new run, in that order.
    let actions = runner.on_changed_files();
    assert_eq!(actions, vec![RunnerAction::Cancel(0), RunnerAction::Spawn(1)]);

    let actions = runner.on_changed_files();
    assert_eq!(actions, vec![RunnerAction::Cancel(1), RunnerAction::Spawn(2)]);

    // The stream closing cancels the last run and starts nothing.
    let actions = runner.on_closed();
    assert_eq!(actions, vec![RunnerAction::Cancel(2)]);
    assert!(runner.on_closed().is_empty());
}
