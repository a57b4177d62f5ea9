use spec_detect::ruby::rspec::{
    parse_event_line, reader_step, rspec_invocation, LineOutcome, RSpecConfiguration, RSpecEvent,
};

#[test]
fn test_parse_start_line() {
    let line = r#"{"type":"start","count":3}"#.to_string();
    match parse_event_line(&line) {
        Some(RSpecEvent::Start { count }) => assert_eq!(count, Some(3)),
        other => panic!("unexpected: {:?}", other),
    }
}

#[test]
fn test_parse_start_line_without_count() {
    let line = r#"{"type":"start"}"#.to_string();
    match parse_event_line(&line) {
        Some(RSpecEvent::Start { count }) => assert_eq!(count, None),
        other => panic!("unexpected: {:?}", other),
    }
}

#[test]
fn test_parse_example_passed_line() {
    let line = r#"{"type":"example_passed","id":"1","load_time":0.1,"location":"spec/a_spec.rb:4","file_path":"spec/a_spec.rb","description":"works","run_time":0.25}"#
        .to_string();
    match parse_event_line(&line) {
        Some(RSpecEvent::ExamplePassed { id, location, file_path, description }) => {
            assert_eq!(id, "1");
            assert_eq!(location, "spec/a_spec.rb:4");
            assert_eq!(file_path, "spec/a_spec.rb");
            assert_eq!(description, "works");
        },
        other => panic!("unexpected: {:?}", other),
    }
}

#[test]
fn test_parse_example_failed_line_with_nulls() {
    let line = r#"{"type":"example_failed","id":"2","load_time":null,"location":null,"file_path":"spec/b_spec.rb","description":null,"run_time":1,"exception":"boom"}"#
        .to_string();
    match parse_event_line(&line) {
        Some(RSpecEvent::ExampleFailed { id, location, file_path, description, exception }) => {
            assert_eq!(id, "2");
            assert_eq!(location, None);
            assert_eq!(file_path, "spec/b_spec.rb");
            assert_eq!(description, None);
            assert_eq!(exception, Some("boom".to_string()));
        },
        other => panic!("unexpected: {:?}", other),
    }
}

#[test]
fn test_parse_stop_and_exit_lines() {
    assert!(matches!(
        parse_event_line(&r#"{"type":"stop"}"#.to_string()),
        Some(RSpecEvent::Stop)
    ));
    assert!(matches!(
        parse_event_line(&r#"{"type":"exit"}"#.to_string()),
        Some(RSpecEvent::Exit)
    ));
}

#[test]
fn test_parse_rejects_malformed_lines() {
    // Not JSON at all.
    assert!(parse_event_line(&"not json".to_string()).is_none());
    // JSON but not an object.
    assert!(parse_event_line(&"[1,2]".to_string()).is_none());
    // An object without a type.
    assert!(parse_event_line(&r#"{"count":3}"#.to_string()).is_none());
    // An unknown type.
    assert!(parse_event_line(&r#"{"type":"surprise"}"#.to_string()).is_none());
    // A missing required field.
    assert!(parse_event_line(
        &r#"{"type":"example_passed","id":"1","location":"l","file_path":"f","description":"d"}"#
            .to_string()
    )
    .is_none());
    // A wrongly typed field.
    assert!(parse_event_line(&r#"{"type":"start","count":"three"}"#.to_string()).is_none());
}

#[test]
fn test_reader_step_relays_and_goes_on() {
    let (event, done) = reader_step(LineOutcome::Line(r#"{"type":"stop"}"#.to_string()));
    assert!(matches!(event, Some(RSpecEvent::Stop)));
    assert!(!done);
}

#[test]
fn test_reader_step_stops_on_malformed_line() {
    let (event, done) = reader_step(LineOutcome::Line("garbage".to_string()));
    match event {
        Some(RSpecEvent::Error { msg }) => assert_eq!(msg, "garbage"),
        other => panic!("unexpected: {:?}", other),
    }
    assert!(done);
}

#[test]
fn test_reader_step_ends_quietly_at_eof() {
    let (event, done) = reader_step(LineOutcome::Eof);
    assert!(event.is_none());
    assert!(done);
}

#[test]
fn test_reader_step_reports_read_errors() {
    let (event, done) = reader_step(LineOutcome::ReadError("broken pipe".to_string()));
    match event {
        Some(RSpecEvent::Error { msg }) => assert_eq!(msg, "broken pipe"),
        other => panic!("unexpected: {:?}", other),
    }
    assert!(done);
}

#[test]
fn test_rspec_invocation_plain() {
    let config = RSpecConfiguration::default();
    let locations = vec!["spec/a_spec.rb".to_string(), "spec/b_spec.rb".to_string()];
    let (program, args) = rspec_invocation(&config, &locations);
    assert_eq!(program, "rspec");
    assert_eq!(
        args,
        vec![
            "--format".to_string(),
            "RustRspecFormatter".to_string(),
            "--require".to_string(),
            "./test/rust_rspec_formatter.rb".to_string(),
            "spec/a_spec.rb".to_string(),
            "spec/b_spec.rb".to_string(),
        ]
    );
}

#[test]
fn test_rspec_invocation_through_bundler() {
    let mut config = RSpecConfiguration::default();
    config.use_bundler = true;
    let locations = vec!["spec/a_spec.rb".to_string()];
    let (program, args) = rspec_invocation(&config, &locations);
    assert_eq!(program, "bundle");
    assert_eq!(
        args,
        vec![
            "exec".to_string(),
            "rspec".to_string(),
            "--format".to_string(),
            "RustRspecFormatter".to_string(),
            "--require".to_string(),
            "./test/rust_rspec_formatter.rb".to_string(),
            "spec/a_spec.rb".to_string(),
        ]
    );
}

#[test]
fn test_rspec_configuration_default() {
    let config = RSpecConfiguration::default();
    assert_eq!(config.path_to_rspec, "rspec");
    assert!(!config.use_bundler);
    assert!(config.env.is_empty());
}
