//! Watching a repository for changed files.
//!
//! The baseline set comes from the repository (see `code_repo`); after
//! that, per-file filesystem watches and a periodic rescan keep the set
//! current. The surrounding program runs the waiting and the timers; the
//! decisions — which paths are new, what one notification means — live
//! here.

pub mod changed_file;
pub mod code_repo;

pub use changed_file::ChangedFile;

use vstd::prelude::*;
use vstd::string::StrSliceExecFns;
use changed_file::{contains_path, find_path_index, has_path, index_of_path, paths_unique};
use crate::util::text::{chars_of, string_of};

verus! {

/// The path of `path` relative to the directory `prefix`: the remainder
/// behind `prefix` and one separator, if `path` lies under it.
pub open spec fn spec_relative_to(prefix: Seq<char>, path: Seq<char>) -> Option<Seq<char>> {
    if path.len() > prefix.len() && path.subrange(0, prefix.len() as int) == prefix && path[prefix.len() as int]
        == '/' {
        Some(path.skip(prefix.len() + 1 as int))
    } else {
        None
    }
}

/// Resolve an absolute path against the repository directory: the
/// repo-relative remainder, or nothing for a path outside it.
pub fn relative_to(prefix: &String, path: &String) -> (r: Option<String>)
    ensures
        match r {
            Some(s) => spec_relative_to(prefix@, path@) == Some(s@),
            None => spec_relative_to(prefix@, path@) is None,
        },
{
    let pre = chars_of(prefix.as_str());
    let full = chars_of(path.as_str());
    if full.len() <= pre.len() {
        return None;
    }
    let mut i: usize = 0;
    while i < pre.len()
        invariant
            pre@ == prefix@,
            full@ == path@,
            i <= pre@.len(),
            pre@.len() < full@.len(),
            forall|j: int| 0 <= j < i ==> full@[j] == pre@[j],
        decreases pre@.len() - i,
    {
        if full[i] != pre[i] {
            proof {
                assert(path@.subrange(0, prefix@.len() as int)[i as int] != prefix@[i as int]);
            }
            return None;
        }
        i += 1;
    }
    if full[pre.len()] != '/' {
        proof {
            assert(path@.subrange(0, prefix@.len() as int) =~= prefix@);
        }
        return None;
    }
    let mut rest: Vec<char> = Vec::new();
    let mut k: usize = pre.len() + 1;
    while k < full.len()
        invariant
            full@ == path@,
            pre@.len() + 1 <= k <= full@.len(),
            rest@ =~= full@.subrange(pre@.len() + 1 as int, k as int),
        decreases full@.len() - k,
    {
        rest.push(full[k]);
        proof {
            assert(rest@ =~= full@.subrange(pre@.len() + 1 as int, k + 1));
        }
        k += 1;
    }
    proof {
        assert(path@.subrange(0, prefix@.len() as int) =~= prefix@);
        assert(rest@ =~= path@.skip(prefix@.len() + 1 as int));
    }
    Some(string_of(&rest))
}

/// What one filesystem write notification means: a one-element changed
/// set for the repo-relative path, marked modified; a notification for a
/// path outside the repository means nothing.
pub fn on_write_notification(prefix: &String, abs_path: &String) -> (r: Option<ChangedFile>)
    ensures
        match r {
            Some(f) => spec_relative_to(prefix@, abs_path@) == Some(f.path@) && f.status
                == changed_file::ChangeKind::Modified,
            None => spec_relative_to(prefix@, abs_path@) is None,
        },
{
    match relative_to(prefix, abs_path) {
        Some(rel) => Some(ChangedFile::new(rel.as_str())),
        None => None,
    }
}

/// The entries of a rescan that are new: their path is neither already
/// seen nor picked earlier in the same rescan. Order is the rescan's.
pub open spec fn spec_unseen(seen: Seq<ChangedFile>, rescan: Seq<ChangedFile>) -> Seq<ChangedFile>
    decreases rescan.len(),
{
    if rescan.len() == 0 {
        Seq::empty()
    } else {
        let rest = spec_unseen(seen, rescan.drop_last());
        if contains_path(seen, rescan.last().path@) || contains_path(rest, rescan.last().path@) {
            rest
        } else {
            rest.push(rescan.last())
        }
    }
}

proof fn lemma_contains_concat(a: Seq<ChangedFile>, b: Seq<ChangedFile>, p: Seq<char>)
    ensures
        contains_path(a + b, p) <==> (contains_path(a, p) || contains_path(b, p)),
{
    if contains_path(a + b, p) {
        let i = choose|i: int| 0 <= i < (a + b).len() && (a + b)[i].path@ == p;
        if i < a.len() {
            assert(a[i].path@ == p);
        } else {
            assert(b[i - a.len()].path@ == p);
        }
    }
    if contains_path(a, p) {
        let i = choose|i: int| 0 <= i < a.len() && a[i].path@ == p;
        assert((a + b)[i].path@ == p);
    }
    if contains_path(b, p) {
        let i = choose|i: int| 0 <= i < b.len() && b[i].path@ == p;
        assert((a + b)[a.len() + i].path@ == p);
    }
}

proof fn lemma_unseen_unique(seen: Seq<ChangedFile>, rescan: Seq<ChangedFile>)
    requires
        paths_unique(seen),
    ensures
        paths_unique(seen + spec_unseen(seen, rescan)),
        paths_unique(spec_unseen(seen, rescan)),
    decreases rescan.len(),
{
    if rescan.len() == 0 {
        assert(seen + spec_unseen(seen, rescan) =~= seen);
    } else {
        lemma_unseen_unique(seen, rescan.drop_last());
        let rest = spec_unseen(seen, rescan.drop_last());
        let f = rescan.last();
        if !contains_path(seen, f.path@) && !contains_path(rest, f.path@) {
            let combined = seen + rest;
            assert(!contains_path(combined, f.path@)) by {
                lemma_contains_concat(seen, rest, f.path@);
            }
            assert(seen + spec_unseen(seen, rescan) =~= combined.push(f));
            assert forall|i: int, j: int|
                0 <= i < j < combined.push(f).len() implies combined.push(f)[i].path@ != combined
                .push(f)[j].path@ by {
                if j == combined.len() {
                    assert(combined[i].path@ != f.path@);
                }
            }
        } else {
            assert(seen + spec_unseen(seen, rescan) =~= seen + rest);
        }
    }
}

/// The watcher's memory: every file already seen, each path once.
pub struct WatchState {
    seen: Vec<ChangedFile>,
}

impl View for WatchState {
    type V = Seq<ChangedFile>;

    closed spec fn view(&self) -> Seq<ChangedFile> {
        self.seen@
    }
}

impl WatchState {
    /// Start from the baseline set, whose paths are distinct.
    pub fn new(initial: Vec<ChangedFile>) -> (r: WatchState)
        requires
            paths_unique(initial@),
        ensures
            r@ == initial@,
            paths_unique(r@),
    {
        WatchState { seen: initial }
    }

    /// Take in one rescan of the working tree: the files not seen before,
    /// in rescan order and deduplicated, are handed back — each is to be
    /// watched and announced as new — and remembered as seen.
    pub fn on_rescan(&mut self, rescan: Vec<ChangedFile>) -> (out: Vec<ChangedFile>)
        requires
            paths_unique(old(self)@),
        ensures
            out@ == spec_unseen(old(self)@, rescan@),
            final(self)@ == old(self)@ + out@,
            paths_unique(final(self)@),
            paths_unique(out@),
            forall|i: int|
                0 <= i < out@.len() ==> !contains_path(old(self)@, #[trigger] out@[i].path@),
    {
        let ghost seen0 = self.seen@;
        let mut out: Vec<ChangedFile> = Vec::new();
        let mut i: usize = 0;
        proof {
            assert(rescan@.subrange(0, 0) =~= Seq::<ChangedFile>::empty());
            assert(out@ =~= spec_unseen(seen0, rescan@.subrange(0, 0)));
            assert(self.seen@ =~= seen0 + out@);
        }
        while i < rescan.len()
            invariant
                paths_unique(seen0),
                self.seen@ == seen0 + out@,
                i <= rescan@.len(),
                out@ == spec_unseen(seen0, rescan@.subrange(0, i as int)),
            decreases rescan@.len() - i,
        {
            proof {
                assert(rescan@.subrange(0, i + 1).drop_last() =~= rescan@.subrange(0, i as int));
                assert(rescan@.subrange(0, i + 1).last() == rescan@[i as int]);
                lemma_contains_concat(seen0, out@, rescan@[i as int].path@);
            }
            let f = rescan[i].clone();
            if !has_path(&self.seen, &f.path) {
                out.push(f.clone());
                self.seen.push(f);
            }
            proof {
                assert(out@ =~= spec_unseen(seen0, rescan@.subrange(0, i + 1)));
                assert(self.seen@ =~= seen0 + out@);
            }
            i += 1;
        }
        proof {
            assert(rescan@.subrange(0, rescan@.len() as int) =~= rescan@);
            lemma_unseen_unique(seen0, rescan@);
            assert forall|j: int|
                0 <= j < out@.len() implies !contains_path(
                seen0,
                #[trigger] out@[j].path@,
            ) by {
                lemma_spec_unseen_not_in_seen(seen0, rescan@, j);
            }
        }
        out
    }
    /// Take in a remove notification for a repo-relative path: the path is
    /// forgotten, so a later rescan announces it anew if it returns.
    pub fn on_remove(&mut self, path: &String) -> (removed: bool)
        requires
            paths_unique(old(self)@),
        ensures
            paths_unique(final(self)@),
            removed == contains_path(old(self)@, path@),
            final(self)@ == if contains_path(old(self)@, path@) {
                old(self)@.remove(index_of_path(old(self)@, path@))
            } else {
                old(self)@
            },
    {
        let ghost s = self.seen@;
        match find_path_index(&self.seen, path) {
            Some(i) => {
                self.seen.remove(i);
                proof {
                    assert forall|a: int, b: int|
                        0 <= a < b < self.seen@.len() implies self.seen@[a].path@ != self
                        .seen@[b].path@ by {
                        assert(self.seen@[a] == if a < i as int {
                            s[a]
                        } else {
                            s[a + 1]
                        });
                        assert(self.seen@[b] == if b < i as int {
                            s[b]
                        } else {
                            s[b + 1]
                        });
                    }
                }
                true
            },
            None => false,
        }
    }
}

proof fn lemma_spec_unseen_not_in_seen(seen: Seq<ChangedFile>, rescan: Seq<ChangedFile>, j: int)
    requires
        0 <= j < spec_unseen(seen, rescan).len(),
    ensures
        !contains_path(seen, spec_unseen(seen, rescan)[j].path@),
    decreases rescan.len(),
{
    if rescan.len() > 0 {
        let rest = spec_unseen(seen, rescan.drop_last());
        if j < rest.len() {
            lemma_spec_unseen_not_in_seen(seen, rescan.drop_last(), j);
        }
    }
}

} // verus!
