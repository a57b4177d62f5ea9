//! The text of the live view. Rendering and layout happen outside the
//! library; the line said about each watched file is computed here.

use vstd::prelude::*;
use vstd::string::{StrSliceExecFns, StringExecFns};
use crate::app_state::{TestStatus, WatchedFile};
use crate::repo_watcher::changed_file::ChangeKind;

verus! {

/// The one-letter mark for a change kind.
pub open spec fn spec_status_symbol(status: ChangeKind) -> Seq<char> {
    match status {
        ChangeKind::Unmodified => "U"@,
        ChangeKind::Added => "A"@,
        ChangeKind::Deleted => "D"@,
        ChangeKind::Modified => "M"@,
        ChangeKind::Renamed => "R"@,
        ChangeKind::Copied => "R"@,
        ChangeKind::Ignored => "I"@,
        ChangeKind::Untracked => "-"@,
        ChangeKind::Typechange => "M"@,
        ChangeKind::Unreadable => "X"@,
        ChangeKind::Conflicted => "C"@,
    }
}

/// The one-letter mark for a change kind.
pub fn status_symbol(status: ChangeKind) -> (r: String)
    ensures
        r@ == spec_status_symbol(status),
{
    match status {
        ChangeKind::Unmodified => String::from_str("U"),
        ChangeKind::Added => String::from_str("A"),
        ChangeKind::Deleted => String::from_str("D"),
        ChangeKind::Modified => String::from_str("M"),
        ChangeKind::Renamed => String::from_str("R"),
        ChangeKind::Copied => String::from_str("R"),
        ChangeKind::Ignored => String::from_str("I"),
        ChangeKind::Untracked => String::from_str("-"),
        ChangeKind::Typechange => String::from_str("M"),
        ChangeKind::Unreadable => String::from_str("X"),
        ChangeKind::Conflicted => String::from_str("C"),
    }
}

/// The marker put before a file's line for its test status.
pub open spec fn spec_running_marker(status: TestStatus) -> Seq<char> {
    match status {
        TestStatus::Unknown => "> "@,
        TestStatus::Running => "> "@,
        TestStatus::Passed => "  "@,
        TestStatus::Failed => "x  "@,
    }
}

/// The marker put before a file's line for its test status.
pub fn running_marker(status: TestStatus) -> (r: String)
    ensures
        r@ == spec_running_marker(status),
{
    match status {
        TestStatus::Unknown => String::from_str("> "),
        TestStatus::Running => String::from_str("> "),
        TestStatus::Passed => String::from_str("  "),
        TestStatus::Failed => String::from_str("x  "),
    }
}

/// The line said about one watched file: its test-status marker, its
/// change letter, a space, and its path.
pub fn file_text(file: &WatchedFile) -> (r: String)
    ensures
        r@ == spec_running_marker(file.test_status) + spec_status_symbol(file.changed_file.status)
            + " "@ + file.changed_file.path@,
{
    let mut line = running_marker(file.test_status);
    let symbol = status_symbol(file.changed_file.status);
    line.append(symbol.as_str());
    line.append(" ");
    line.append(file.changed_file.path.as_str());
    proof {
        assert(line@ =~= spec_running_marker(file.test_status) + spec_status_symbol(
            file.changed_file.status,
        ) + " "@ + file.changed_file.path@);
    }
    line
}

/// The dashboard program over the live state. Its terminal loop runs
/// outside the library.
pub struct TuiApp {}

} // verus!
