//! A file known to differ from the baseline, together with the kind of
//! change. A changed-file collection is a set keyed by path: equality is by
//! path alone, duplicates by path collapse, and the last write wins for the
//! change kind.

use vstd::prelude::*;

verus! {

/// How a file differs from the baseline.
#[derive(Clone, Copy, PartialEq, Eq, Structural, Debug)]
pub enum ChangeKind {
    Unmodified,
    Added,
    Deleted,
    Modified,
    Renamed,
    Copied,
    Ignored,
    Untracked,
    Typechange,
    Unreadable,
    Conflicted,
}

/// A path relative to the repository root, plus how it changed. The change
/// kind is metadata: identity and equality go by the path alone.
#[derive(Debug)]
pub struct ChangedFile {
    pub path: String,
    pub status: ChangeKind,
}

impl ChangedFile {
    /// A freshly noticed edit: the given path, marked as modified.
    pub fn new(path: &str) -> (r: ChangedFile)
        ensures
            r.path@ == path@,
            r.status == ChangeKind::Modified,
    {
        ChangedFile { path: path.to_owned(), status: ChangeKind::Modified }
    }
}

impl Clone for ChangedFile {
    fn clone(&self) -> (r: Self)
        ensures
            r == *self,
    {
        ChangedFile { path: self.path.clone(), status: self.status }
    }
}

impl PartialEq for ChangedFile {
    fn eq(&self, other: &Self) -> bool {
        self.path == other.path
    }
}

impl vstd::std_specs::cmp::PartialEqSpecImpl for ChangedFile {
    open spec fn obeys_eq_spec() -> bool {
        true
    }

    open spec fn eq_spec(&self, other: &Self) -> bool {
        self.path@ == other.path@
    }
}

/// No two entries of the collection share a path.
pub open spec fn paths_unique(s: Seq<ChangedFile>) -> bool {
    forall|i: int, j: int| 0 <= i < j < s.len() ==> s[i].path@ != s[j].path@
}

/// Some entry of the collection has the given path.
pub open spec fn contains_path(s: Seq<ChangedFile>, p: Seq<char>) -> bool {
    exists|i: int| 0 <= i < s.len() && s[i].path@ == p
}

/// The least index whose entry has the given path, or -1 if there is none.
pub open spec fn index_of_path(s: Seq<ChangedFile>, p: Seq<char>) -> int
    decreases s.len(),
{
    if s.len() == 0 {
        -1
    } else if s[0].path@ == p {
        0
    } else {
        let r = index_of_path(s.drop_first(), p);
        if r < 0 {
            -1
        } else {
            r + 1
        }
    }
}

pub proof fn lemma_index_of_path(s: Seq<ChangedFile>, p: Seq<char>)
    ensures
        contains_path(s, p) <==> 0 <= index_of_path(s, p) < s.len(),
        0 <= index_of_path(s, p) ==> s[index_of_path(s, p)].path@ == p,
        forall|j: int| 0 <= j < index_of_path(s, p) ==> s[j].path@ != p,
        !contains_path(s, p) ==> index_of_path(s, p) == -1,
    decreases s.len(),
{
    if s.len() > 0 && s[0].path@ != p {
        lemma_index_of_path(s.drop_first(), p);
        assert forall|i: int| 0 <= i < s.len() && s[i].path@ == p implies contains_path(
            s.drop_first(),
            p,
        ) by {
            assert(s.drop_first()[i - 1] == s[i]);
        }
        assert forall|j: int| 0 <= j < index_of_path(s, p) implies s[j].path@ != p by {
            if j > 0 {
                assert(s.drop_first()[j - 1] == s[j]);
            }
        }
    }
}

/// Merge one entry into a collection: an entry with the same path is
/// replaced in place (the new change kind wins), a new path is appended.
pub open spec fn upsert(acc: Seq<ChangedFile>, f: ChangedFile) -> Seq<ChangedFile> {
    if contains_path(acc, f.path@) {
        acc.update(index_of_path(acc, f.path@), f)
    } else {
        acc.push(f)
    }
}

/// Collapse duplicates by path: entries keep the position of the first
/// occurrence of their path, and the last occurrence's change kind.
pub open spec fn spec_dedup(s: Seq<ChangedFile>) -> Seq<ChangedFile>
    decreases s.len(),
{
    if s.len() == 0 {
        Seq::empty()
    } else {
        upsert(spec_dedup(s.drop_last()), s.last())
    }
}

pub proof fn lemma_upsert_unique(acc: Seq<ChangedFile>, f: ChangedFile)
    requires
        paths_unique(acc),
    ensures
        paths_unique(upsert(acc, f)),
        forall|p: Seq<char>| contains_path(upsert(acc, f), p) <==> (contains_path(acc, p) || f.path@
            == p),
{
    lemma_index_of_path(acc, f.path@);
    let r = upsert(acc, f);
    if contains_path(acc, f.path@) {
        let k = index_of_path(acc, f.path@);
        assert forall|p: Seq<char>| contains_path(r, p) implies (contains_path(acc, p) || f.path@
            == p) by {
            let i = choose|i: int| 0 <= i < r.len() && r[i].path@ == p;
            if i != k {
                assert(acc[i].path@ == p);
            }
        }
        assert forall|p: Seq<char>| contains_path(acc, p) implies contains_path(r, p) by {
            let i = choose|i: int| 0 <= i < acc.len() && acc[i].path@ == p;
            if acc[i].path@ == f.path@ {
                assert(r[k].path@ == p);
            } else {
                assert(r[i].path@ == p);
            }
        }
    } else {
        assert forall|p: Seq<char>| contains_path(r, p) implies (contains_path(acc, p) || f.path@
            == p) by {
            let i = choose|i: int| 0 <= i < r.len() && r[i].path@ == p;
            if i < acc.len() {
                assert(acc[i].path@ == p);
            }
        }
        assert forall|p: Seq<char>| contains_path(acc, p) implies contains_path(r, p) by {
            let i = choose|i: int| 0 <= i < acc.len() && acc[i].path@ == p;
            assert(r[i].path@ == p);
        }
        assert(r[acc.len() as int].path@ == f.path@);
    }
}

/// The dedup invariant: a collapsed collection never holds two entries with
/// an equal path, and holds exactly the paths of its source.
pub proof fn lemma_dedup_unique(s: Seq<ChangedFile>)
    ensures
        paths_unique(spec_dedup(s)),
        forall|p: Seq<char>| contains_path(spec_dedup(s), p) <==> contains_path(s, p),
    decreases s.len(),
{
    if s.len() == 0 {
    } else {
        lemma_dedup_unique(s.drop_last());
        lemma_upsert_unique(spec_dedup(s.drop_last()), s.last());
        assert forall|p: Seq<char>| contains_path(s, p) implies (contains_path(s.drop_last(), p)
            || s.last().path@ == p) by {
            let i = choose|i: int| 0 <= i < s.len() && s[i].path@ == p;
            if i < s.len() - 1 {
                assert(s.drop_last()[i].path@ == p);
            }
        }
        assert forall|p: Seq<char>| contains_path(s.drop_last(), p) implies contains_path(s, p) by {
            let i = choose|i: int| 0 <= i < s.len() - 1 && s.drop_last()[i].path@ == p;
            assert(s[i].path@ == p);
        }
    }
}

/// Whether some entry of `files` has the given path.
pub fn has_path(files: &Vec<ChangedFile>, path: &String) -> (r: bool)
    ensures
        r == contains_path(files@, path@),
{
    let mut i: usize = 0;
    while i < files.len()
        invariant
            i <= files@.len(),
            forall|j: int| 0 <= j < i ==> files@[j].path@ != path@,
        decreases files@.len() - i,
    {
        if files[i].path == *path {
            return true;
        }
        i += 1;
    }
    false
}

/// The least index of an entry with the given path, if any.
pub fn find_path_index(files: &Vec<ChangedFile>, path: &String) -> (r: Option<usize>)
    ensures
        match r {
            Some(i) => i < files@.len() && files@[i as int].path@ == path@ && i
                == index_of_path(files@, path@),
            None => !contains_path(files@, path@),
        },
{
    proof {
        lemma_index_of_path(files@, path@);
    }
    let mut i: usize = 0;
    while i < files.len()
        invariant
            i <= files@.len(),
            forall|j: int| 0 <= j < i ==> files@[j].path@ != path@,
            contains_path(files@, path@) <==> 0 <= index_of_path(files@, path@) < files@.len(),
            0 <= index_of_path(files@, path@) ==> files@[index_of_path(files@, path@)].path@
                == path@,
            forall|j: int| 0 <= j < index_of_path(files@, path@) ==> files@[j].path@ != path@,
            !contains_path(files@, path@) ==> index_of_path(files@, path@) == -1,
        decreases files@.len() - i,
    {
        if files[i].path == *path {
            return Some(i);
        }
        i += 1;
    }
    None
}

/// Collapse a list of changed files so that no two entries share a path.
/// Order is first discovery of each path; the change kind of the last
/// occurrence wins.
pub fn dedup_by_path(files: Vec<ChangedFile>) -> (r: Vec<ChangedFile>)
    ensures
        r@ == spec_dedup(files@),
        paths_unique(r@),
{
    let mut out: Vec<ChangedFile> = Vec::new();
    let mut i: usize = 0;
    proof {
        assert(files@.take(0) =~= Seq::<ChangedFile>::empty());
    }
    while i < files.len()
        invariant
            i <= files@.len(),
            out@ == spec_dedup(files@.take(i as int)),
            paths_unique(out@),
        decreases files@.len() - i,
    {
        let f = files[i].clone();
        proof {
            assert(files@.take(i + 1).drop_last() =~= files@.take(i as int));
            assert(files@.take(i + 1).last() == files@[i as int]);
            lemma_upsert_unique(out@, files@[i as int]);
        }
        match find_path_index(&out, &f.path) {
            Some(k) => {
                out.set(k, f);
            },
            None => {
                out.push(f);
            },
        }
        i += 1;
    }
    proof {
        assert(files@.take(files@.len() as int) =~= files@);
    }
    out
}

} // verus!
