//! Watches a source tree for changes against a version-control baseline,
//! maps changed files to the test files that exercise them, and keeps an
//! application state describing what is being watched and run.

pub mod app_state;
pub mod cli;
pub mod configuration;
pub mod program;
pub mod repo_watcher;
pub mod ruby;
pub mod test_runner;
pub mod ui;
pub mod util;
