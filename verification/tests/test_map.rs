use spec_detect::repo_watcher::changed_file::ChangedFile;
use spec_detect::test_runner::test_map::{
    grouped_files, grouped_files_with, grouped_globs, pattern_matches, replace_tokens,
    test_globs_for_file, Group, GroupEntry,
};

fn rules(pairs: &[(&str, &str)]) -> Vec<(String, String)> {
    pairs.iter().map(|(p, t)| (p.to_string(), t.to_string())).collect()
}

#[test]
fn test_replace_matches() {
    let result_string = "test/$1/$2_spec.rb".to_string();

    assert_eq!(
        replace_tokens(&result_string, vec![Some("models"), Some("user")]),
        "test/models/user_spec.rb"
    );

    assert_eq!(
        replace_tokens(&result_string, vec![None, Some("user")]),
        "test//user_spec.rb"
    );

    assert_eq!(
        replace_tokens(&result_string, vec![Some("models")]),
        "test/models/_spec.rb"
    );
}

#[test]
fn test_pattern_matches() {
    let pattern = "app/(.+?)/(.+?).rb".to_string();
    let result_string = "test/$1/$2_spec.rb".to_string();

    assert_eq!(
        pattern_matches(&pattern, &result_string, &"app/models/user.rb".to_string()),
        Some("test/models/user_spec.rb".to_string())
    );

    assert_eq!(
        pattern_matches(&pattern, &result_string, &"app/user.rb".to_string()),
        None
    );
}

#[test]
fn test_test_globs_for_file() {
    let test_map = rules(&[
        ("app/(.+?)/(.+?).rb", "test/$1/$2_spec.rb"),
        ("app/models/(.+?).rb", "test/*/*$1*_spec.rb"),
        ("lib/(.+?).rb", "test/lib/$1.rb"),
    ]);

    assert_eq!(
        test_globs_for_file(&test_map, &"app/controllers/users_controller.rb".to_string()),
        vec!["test/controllers/users_controller_spec.rb".to_string()]
    );

    assert_eq!(
        test_globs_for_file(&test_map, &"app/models/user.rb".to_string()),
        vec!["test/models/user_spec.rb", "test/*/*user*_spec.rb"]
    );

    assert_eq!(
        test_globs_for_file(&test_map, &"lib/simple.rb".to_string()),
        vec!["test/lib/simple.rb"]
    )
}

#[test]
fn test_grouped_globs() {
    let test_map = rules(&[
        ("app/(.+?)/(.+?).rb", "test/$1/$2_spec.rb"),
        ("app/models/(.+?).rb", "test/*/*$1*_spec.rb"),
        ("lib/(.+?).rb", "test/lib/$1.rb"),
    ]);

    let mut changed_files = vec![ChangedFile::new("app/models/user.rb")];
    let mut groups = grouped_globs(&test_map, changed_files);

    assert_eq!(groups.len(), 2);
    assert_eq!(groups.key_at(0).as_str(), "test/models/user_spec.rb");
    assert_eq!(groups.key_at(1).as_str(), "test/*/*user*_spec.rb");
    assert_eq!(
        groups.lookup(&"test/models/user_spec.rb".to_string()).unwrap(),
        &vec![ChangedFile::new("app/models/user.rb")]
    );
    assert_eq!(
        groups.lookup(&"test/*/*user*_spec.rb".to_string()).unwrap(),
        &vec![ChangedFile::new("app/models/user.rb")]
    );

    changed_files = vec![
        ChangedFile::new("app/controllers/users_controller.rb"),
        ChangedFile::new("app/models/user.rb"),
    ];
    groups = grouped_globs(&test_map, changed_files);

    assert_eq!(groups.len(), 3);
    assert_eq!(groups.key_at(0).as_str(), "test/controllers/users_controller_spec.rb");
    assert_eq!(groups.key_at(1).as_str(), "test/models/user_spec.rb");
    assert_eq!(groups.key_at(2).as_str(), "test/*/*user*_spec.rb");
    assert_eq!(
        groups.lookup(&"test/controllers/users_controller_spec.rb".to_string()).unwrap(),
        &vec![ChangedFile::new("app/controllers/users_controller.rb")]
    );
    assert_eq!(
        groups.lookup(&"test/models/user_spec.rb".to_string()).unwrap(),
        &vec![ChangedFile::new("app/models/user.rb")]
    );
    assert_eq!(
        groups.lookup(&"test/*/*user*_spec.rb".to_string()).unwrap(),
        &vec![ChangedFile::new("app/models/user.rb")]
    );
}

#[test]
fn test_mapper_is_idempotent() {
    let test_map = rules(&[
        ("app/(.+?)/(.+?).rb", "test/$1/$2_spec.rb"),
        ("app/models/(.+?).rb", "test/*/*$1*_spec.rb"),
    ]);
    let files = || {
        vec![
            ChangedFile::new("app/controllers/users_controller.rb"),
            ChangedFile::new("app/models/user.rb"),
        ]
    };

    let first = grouped_globs(&test_map, files());
    let second = grouped_globs(&test_map, files());

    assert_eq!(first.len(), second.len());
    for i in 0..first.len() {
        assert_eq!(first.key_at(i), second.key_at(i));
        assert_eq!(first.changed_files_at(i), second.changed_files_at(i));
    }
}

#[test]
fn test_grouped_files_with_expansions() {
    let test_map = rules(&[
        ("app/(.+?)/(.+?).rb", "test/$1/$2_spec.rb"),
        ("app/models/(.+?).rb", "test/*/*$1*_spec.rb"),
    ]);
    let changed_files = vec![
        ChangedFile::new("app/controllers/users_controller.rb"),
        ChangedFile::new("app/models/user.rb"),
    ];
    let globs = grouped_globs(&test_map, changed_files);
    assert_eq!(globs.len(), 3);

    // As if each direct glob resolved to its own file and the wildcard
    // glob resolved to the controller spec as well.
    let expansions = vec![
        vec!["test/controllers/users_controller_spec.rb".to_string()],
        vec!["test/models/user_spec.rb".to_string()],
        vec![
            "test/controllers/users_controller_spec.rb".to_string(),
            "test/models/user_spec.rb".to_string(),
        ],
    ];
    let files = grouped_files_with(&globs, &expansions);

    assert_eq!(files.len(), 2);
    assert_eq!(files.key_at(0).as_str(), "test/controllers/users_controller_spec.rb");
    assert_eq!(files.key_at(1).as_str(), "test/models/user_spec.rb");

    // The first concrete file was contributed by its own glob and again
    // by the wildcard glob of the model file: both contributors recorded.
    let first = files.lookup(&"test/controllers/users_controller_spec.rb".to_string()).unwrap();
    assert!(first.contains(&ChangedFile::new("app/controllers/users_controller.rb")));
    assert!(first.contains(&ChangedFile::new("app/models/user.rb")));
}

#[test]
fn test_grouped_files_empty_without_matches() {
    let test_map = rules(&[
        ("app/(.+?)/(.+?).rb", "test/$1/$2_spec.rb"),
        ("app/models/(.+?).rb", "test/*/*$1*_spec.rb"),
        ("lib/(.+?).rb", "test/lib/$1.rb"),
    ]);
    let changed_files = vec![ChangedFile::new("app/models/record.rb")];
    let groups = grouped_globs(&test_map, changed_files);
    let files = grouped_files(groups);

    assert_eq!(files.len(), 0);
}

#[test]
fn test_grouped_files_expands_against_the_tree() {
    // A glob with a wildcard that resolves to this crate's own root file:
    // the result holds the concrete path, not the glob.
    let entry = GroupEntry {
        key: "src/li*.rs".to_string(),
        changed_files: vec![ChangedFile::new("lib.x")],
    };
    let globs = Group { entries: vec![entry] };
    let files = grouped_files(globs);

    assert_eq!(files.len(), 1);
    assert_eq!(files.key_at(0).as_str(), "src/lib.rs");
    assert_eq!(
        files.lookup(&"src/lib.rs".to_string()).unwrap(),
        &vec![ChangedFile::new("lib.x")]
    );
}

#[test]
fn test_replace_tokens_multi_digit_and_literal() {
    let template = "a/$12/b$x/$2".to_string();
    // $12 is one token (group twelve, absent here), "$x" is literal text,
    // and $2 takes the second replacement.
    assert_eq!(
        replace_tokens(&template, vec![Some("one"), Some("two")]),
        "a//b$x/two"
    );
}

#[test]
fn test_pattern_matches_invalid_pattern() {
    assert_eq!(
        pattern_matches(
            &"(".to_string(),
            &"test/$1_spec.rb".to_string(),
            &"anything".to_string()
        ),
        None
    );
}
