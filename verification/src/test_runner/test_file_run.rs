//! Recording how long examples, files and the whole suite took.
//!
//! Times are instants in milliseconds since the run's clock started; they
//! are read outside the library and handed in as plain numbers. An end
//! instant earlier than the start counts as a zero-length duration.

use vstd::prelude::*;

verus! {

/// The time from a start instant to an optional end instant, zero where
/// the end would lie before the start.
pub open spec fn spec_duration(started_at: u64, finished_at: Option<u64>) -> Option<u64> {
    match finished_at {
        Some(t) => if t >= started_at {
            Some((t - started_at) as u64)
        } else {
            Some(0u64)
        },
        None => None,
    }
}

/// How one example ended, if it has.
#[derive(Clone, Debug)]
pub enum TestStatus {
    Pending,
    Success,
    Failure(String),
}

/// One example: when it started and ended, how it went, and what it was.
#[derive(Clone, Debug)]
pub struct TestExample {
    pub started_at: u64,
    pub finished_at: Option<u64>,
    pub status: TestStatus,
    pub description: String,
}

impl TestExample {
    /// How long the example took, if it has finished.
    pub fn duration(&self) -> (r: Option<u64>)
        ensures
            r == spec_duration(self.started_at, self.finished_at),
    {
        match self.finished_at {
            Some(t) => {
                if t >= self.started_at {
                    Some(t - self.started_at)
                } else {
                    Some(0)
                }
            },
            None => None,
        }
    }
}

/// One test file's run: the files that led to it, its own path, when it
/// started and ended, and its examples.
#[derive(Clone, Debug)]
pub struct TestFileRun {
    pub files_tested: Vec<String>,
    pub test_file: String,
    pub started_at: u64,
    pub finished_at: Option<u64>,
    pub examples: Vec<TestExample>,
}

impl TestFileRun {
    /// How long the file's run took, if it has finished.
    pub fn duration(&self) -> (r: Option<u64>)
        ensures
            r == spec_duration(self.started_at, self.finished_at),
    {
        match self.finished_at {
            Some(t) => {
                if t >= self.started_at {
                    Some(t - self.started_at)
                } else {
                    Some(0)
                }
            },
            None => None,
        }
    }
}

/// One whole run of the suite.
#[derive(Clone, Debug)]
pub struct TestSuite {
    pub test_file_runs: Vec<TestFileRun>,
    pub started_at: u64,
    pub finished_at: Option<u64>,
    pub example_count: u64,
}

impl TestSuite {
    /// How long the suite took, if it has finished.
    pub fn duration(&self) -> (r: Option<u64>)
        ensures
            r == spec_duration(self.started_at, self.finished_at),
    {
        match self.finished_at {
            Some(t) => {
                if t >= self.started_at {
                    Some(t - self.started_at)
                } else {
                    Some(0)
                }
            },
            None => None,
        }
    }
}

} // verus!
