//! The repository baseline: which files differ from the configured branch,
//! and which are new in the working tree.
//!
//! What git reports depends on what is on disk, so the git calls stand
//! behind trusted wrappers that promise nothing of their data; everything
//! done with that data — classifying, filtering, the union and its dedup —
//! is verified.

use vstd::prelude::*;
use crate::repo_watcher::changed_file::{
    dedup_by_path, paths_unique, spec_dedup, ChangeKind, ChangedFile,
};

verus! {

#[verifier::external_type_specification]
#[verifier::external_body]
pub struct ExRepository(git2::Repository);

#[verifier::external_type_specification]
pub struct ExDelta(git2::Delta);

/// Relies on git2::Repository::open: opens the repository at the path, or
/// reports why it cannot; the git2 error is carried as its message text.
#[verifier::external_body]
fn open_repository(path: &String) -> (r: Result<git2::Repository, String>) {
    git2::Repository::open(path.as_str()).map_err(|e| e.message().to_string())
}

/// Relies on git2::Repository::path and std's canonicalize: the absolute
/// directory that holds the repository (the parent of its `.git` folder),
/// if it can be resolved.
#[verifier::external_body]
fn repository_parent_dir(repo: &git2::Repository) -> (r: Option<String>) {
    let p = repo.path().canonicalize().ok()?;
    Some(p.parent()?.to_string_lossy().to_string())
}

/// Relies on git2::Repository::statuses, with untracked entries requested:
/// each working-tree entry's path and whether its status is exactly
/// new-in-worktree, new-in-index, or modified-in-worktree.
#[verifier::external_body]
fn repository_status_entries(repo: &git2::Repository) -> (r: Vec<(String, bool, bool, bool)>) {
    let mut opts = git2::StatusOptions::default();
    opts.include_untracked(true);
    match repo.statuses(Some(&mut opts)) {
        Ok(statuses) => statuses.iter().map(|s| (
            String::from_utf8_lossy(s.path_bytes()).to_string(),
            s.status() == git2::Status::WT_NEW,
            s.status() == git2::Status::INDEX_NEW,
            s.status() == git2::Status::WT_MODIFIED,
        )).collect(),
        Err(_) => Vec::new(),
    }
}

/// Relies on git2::Delta being a fieldless status enum: maps each variant
/// onto this crate's change kind, one arm each.
#[verifier::external_body]
fn kind_of_delta(d: git2::Delta) -> (r: ChangeKind) {
    match d {
        git2::Delta::Unmodified => ChangeKind::Unmodified,
        git2::Delta::Added => ChangeKind::Added,
        git2::Delta::Deleted => ChangeKind::Deleted,
        git2::Delta::Modified => ChangeKind::Modified,
        git2::Delta::Renamed => ChangeKind::Renamed,
        git2::Delta::Copied => ChangeKind::Copied,
        git2::Delta::Ignored => ChangeKind::Ignored,
        git2::Delta::Untracked => ChangeKind::Untracked,
        git2::Delta::Typechange => ChangeKind::Typechange,
        git2::Delta::Unreadable => ChangeKind::Unreadable,
        git2::Delta::Conflicted => ChangeKind::Conflicted,
    }
}

/// Relies on git2: find_branch, peel_to_tree and
/// diff_tree_to_workdir_with_index. The deltas between the branch's tree
/// and the working directory (through the index), each as its new file's
/// path and status; an entry without a representable path is carried with
/// an empty one. The git2 error is carried as its message text.
#[verifier::external_body]
fn branch_workdir_deltas(repo: &git2::Repository, branch: &String) -> (r: Result<
    Vec<(String, git2::Delta)>,
    String,
>) {
    let diff = repo.find_branch(branch.as_str(), git2::BranchType::Local).map(
        |b| b.into_reference(),
    ).and_then(|rf| rf.peel_to_tree()).and_then(
        |t| repo.diff_tree_to_workdir_with_index(Some(&t), Some(&mut git2::DiffOptions::default())),
    ).map_err(|e| e.message().to_string())?;
    Ok(diff.deltas().map(|d| (
        d.new_file().path().map(|p| p.to_string_lossy().to_string()).unwrap_or_default(),
        d.status(),
    )).collect())
}

/// How one status entry is classified: new files (in worktree or index)
/// are additions, modified-in-worktree files are modifications, and
/// anything else is not a change of interest.
pub open spec fn spec_status_kind(entry: (String, bool, bool, bool)) -> Option<ChangeKind> {
    if entry.1 || entry.2 {
        Some(ChangeKind::Added)
    } else if entry.3 {
        Some(ChangeKind::Modified)
    } else {
        None
    }
}

/// The changed files a status listing yields, in listing order.
pub open spec fn spec_new_files(entries: Seq<(String, bool, bool, bool)>) -> Seq<ChangedFile>
    decreases entries.len(),
{
    if entries.len() == 0 {
        Seq::empty()
    } else {
        spec_new_files(entries.drop_last()) + match spec_status_kind(entries.last()) {
            Some(k) => seq![ChangedFile { path: entries.last().0, status: k }],
            None => Seq::empty(),
        }
    }
}

/// Whether a delta status is one the detector keeps: deletions and the
/// unmodified, ignored and unreadable are discarded.
pub open spec fn spec_delta_kept(k: ChangeKind) -> bool {
    match k {
        ChangeKind::Deleted => false,
        ChangeKind::Unmodified => false,
        ChangeKind::Ignored => false,
        ChangeKind::Unreadable => false,
        _ => true,
    }
}

/// The changed files a delta listing yields, in listing order: entries
/// with a discarded status or without a path contribute nothing.
pub open spec fn spec_diff_files(deltas: Seq<(String, ChangeKind)>) -> Seq<ChangedFile>
    decreases deltas.len(),
{
    if deltas.len() == 0 {
        Seq::empty()
    } else {
        spec_diff_files(deltas.drop_last()) + if spec_delta_kept(deltas.last().1)
            && deltas.last().0@.len() > 0 {
            seq![ChangedFile { path: deltas.last().0, status: deltas.last().1 }]
        } else {
            Seq::empty()
        }
    }
}

/// Classify a status listing into changed files.
fn new_files_from(entries: Vec<(String, bool, bool, bool)>) -> (r: Vec<ChangedFile>)
    ensures
        r@ == spec_new_files(entries@),
{
    let mut out: Vec<ChangedFile> = Vec::new();
    let mut i: usize = 0;
    proof {
        assert(entries@.subrange(0, 0) =~= Seq::<(String, bool, bool, bool)>::empty());
        assert(out@ =~= spec_new_files(entries@.subrange(0, 0)));
    }
    while i < entries.len()
        invariant
            i <= entries@.len(),
            out@ == spec_new_files(entries@.subrange(0, i as int)),
        decreases entries@.len() - i,
    {
        proof {
            assert(entries@.subrange(0, i + 1).drop_last() =~= entries@.subrange(0, i as int));
            assert(entries@.subrange(0, i + 1).last() == entries@[i as int]);
        }
        let (path, wt_new, index_new, wt_modified) = (
            entries[i].0.clone(),
            entries[i].1,
            entries[i].2,
            entries[i].3,
        );
        if wt_new || index_new {
            out.push(ChangedFile { path, status: ChangeKind::Added });
        } else if wt_modified {
            out.push(ChangedFile { path, status: ChangeKind::Modified });
        }
        proof {
            assert(out@ =~= spec_new_files(entries@.subrange(0, i + 1)));
        }
        i += 1;
    }
    proof {
        assert(entries@.subrange(0, entries@.len() as int) =~= entries@);
    }
    out
}

/// Keep the deltas of interest as changed files.
fn diff_files_from(deltas: Vec<(String, ChangeKind)>) -> (r: Vec<ChangedFile>)
    ensures
        r@ == spec_diff_files(deltas@),
{
    let mut out: Vec<ChangedFile> = Vec::new();
    let mut i: usize = 0;
    proof {
        assert(deltas@.subrange(0, 0) =~= Seq::<(String, ChangeKind)>::empty());
        assert(out@ =~= spec_diff_files(deltas@.subrange(0, 0)));
    }
    while i < deltas.len()
        invariant
            i <= deltas@.len(),
            out@ == spec_diff_files(deltas@.subrange(0, i as int)),
        decreases deltas@.len() - i,
    {
        proof {
            assert(deltas@.subrange(0, i + 1).drop_last() =~= deltas@.subrange(0, i as int));
            assert(deltas@.subrange(0, i + 1).last() == deltas@[i as int]);
        }
        let kind = deltas[i].1;
        let kept = match kind {
            ChangeKind::Deleted => false,
            ChangeKind::Unmodified => false,
            ChangeKind::Ignored => false,
            ChangeKind::Unreadable => false,
            _ => true,
        };
        if kept && deltas[i].0.as_str().unicode_len() > 0 {
            out.push(ChangedFile { path: deltas[i].0.clone(), status: kind });
        }
        proof {
            assert(out@ =~= spec_diff_files(deltas@.subrange(0, i + 1)));
        }
        i += 1;
    }
    proof {
        assert(deltas@.subrange(0, deltas@.len() as int) =~= deltas@);
    }
    out
}

/// An open repository, wrapped with the queries the detector needs.
pub struct CodeRepo {
    repo: git2::Repository,
}

impl CodeRepo {
    /// Open the repository at the given path; failure carries the
    /// reported message and is fatal to the caller's startup.
    pub fn open(path: &String) -> (r: Result<CodeRepo, String>) {
        match open_repository(path) {
            Ok(repo) => Ok(CodeRepo { repo }),
            Err(e) => Err(e),
        }
    }

    /// The absolute directory the repository lives in, if resolvable.
    pub fn path(&self) -> (r: Option<String>) {
        repository_parent_dir(&self.repo)
    }

    /// The files new or modified in the working tree, classified from the
    /// repository's status listing: however the listing comes back, the
    /// result is its classification, so it holds only additions and
    /// modifications.
    pub fn new_files(&self) -> (r: Vec<ChangedFile>)
        ensures
            exists|entries: Seq<(String, bool, bool, bool)>|
                r@ == #[trigger] spec_new_files(entries),
            forall|i: int|
                0 <= i < r@.len() ==> (r@[i].status == ChangeKind::Added || r@[i].status
                    == ChangeKind::Modified),
    {
        let entries = repository_status_entries(&self.repo);
        let r = new_files_from(entries);
        proof {
            lemma_new_files_kinds(entries@);
        }
        r
    }

    /// The files that differ between the baseline branch and the working
    /// directory: however the delta listing comes back, the result is its
    /// filtering, so deletions and the unmodified, ignored or unreadable
    /// are absent, as are entries without a path. Fails with the reported
    /// message where the branch cannot be resolved or diffed.
    pub fn changed_files(&self, branch_name: &String) -> (r: Result<Vec<ChangedFile>, String>)
        ensures
            match r {
                Ok(files) => (exists|deltas: Seq<(String, ChangeKind)>|
                    files@ == #[trigger] spec_diff_files(deltas)) && (forall|i: int|
                    0 <= i < files@.len() ==> spec_delta_kept(files@[i].status)
                        && files@[i].path@.len() > 0),
                Err(_) => true,
            },
    {
        let raw = match branch_workdir_deltas(&self.repo, branch_name) {
            Ok(raw) => raw,
            Err(e) => {
                return Err(e);
            },
        };
        let mut deltas: Vec<(String, ChangeKind)> = Vec::new();
        let mut i: usize = 0;
        while i < raw.len()
            invariant
                i <= raw@.len(),
                deltas@.len() == i,
                forall|j: int| 0 <= j < i ==> deltas@[j].0 == raw@[j].0,
            decreases raw@.len() - i,
        {
            deltas.push((raw[i].0.clone(), kind_of_delta(raw[i].1)));
            i += 1;
        }
        let files = diff_files_from(deltas);
        proof {
            lemma_diff_files_kinds(deltas@);
        }
        Ok(files)
    }

    /// The whole baseline: the union of the new files and the branch
    /// deltas, the deltas last so their change kind wins, collapsed so
    /// that no two entries share a path.
    pub fn all_changed_files(&self, branch_name: &String) -> (r: Result<Vec<ChangedFile>, String>)
        ensures
            match r {
                Ok(files) => paths_unique(files@) && exists|
                    entries: Seq<(String, bool, bool, bool)>,
                    deltas: Seq<(String, ChangeKind)>,
                |
                    files@ == spec_dedup(
                        #[trigger] spec_new_files(entries) + #[trigger] spec_diff_files(deltas),
                    ),
                Err(_) => true,
            },
    {
        let mut files = self.new_files();
        let mut from_diff = match self.changed_files(branch_name) {
            Ok(fs) => fs,
            Err(e) => {
                return Err(e);
            },
        };
        let ghost a = files@;
        let ghost b = from_diff@;
        files.append(&mut from_diff);
        let r = dedup_by_path(files);
        proof {
            assert(r@ == spec_dedup(a + b));
        }
        Ok(r)
    }
}

proof fn lemma_new_files_kinds(entries: Seq<(String, bool, bool, bool)>)
    ensures
        forall|i: int|
            0 <= i < spec_new_files(entries).len() ==> (#[trigger] spec_new_files(
                entries,
            )[i].status == ChangeKind::Added || spec_new_files(entries)[i].status
                == ChangeKind::Modified),
    decreases entries.len(),
{
    if entries.len() > 0 {
        lemma_new_files_kinds(entries.drop_last());
    }
}

proof fn lemma_diff_files_kinds(deltas: Seq<(String, ChangeKind)>)
    ensures
        forall|i: int|
            0 <= i < spec_diff_files(deltas).len() ==> spec_delta_kept(
                #[trigger] spec_diff_files(deltas)[i].status,
            ) && spec_diff_files(deltas)[i].path@.len() > 0,
    decreases deltas.len(),
{
    if deltas.len() > 0 {
        lemma_diff_files_kinds(deltas.drop_last());
    }
}

} // verus!
