//! The table of known test files, keyed by path, owned by one component
//! and read through scoped lookups.

use vstd::prelude::*;

verus! {

/// How a test stands, if it has run.
#[derive(Clone, Debug)]
pub enum TestStatus {
    Pending,
    Success,
    Failure(String),
}

impl Default for TestStatus {
    /// A test not yet run is pending.
    fn default() -> (r: Self)
        ensures
            r is Pending,
    {
        TestStatus::Pending
    }
}

/// One example of a test file, with its outcome and duration in
/// milliseconds.
#[derive(Clone, Debug)]
pub struct TestExample {
    pub status: TestStatus,
    pub description: String,
    pub failure: Option<String>,
    pub duration: u64,
}

/// One known test file: its path, the changed files that led to it, its
/// duration in milliseconds, and its examples. Identity is the path.
#[derive(Clone, Debug)]
pub struct TestFile {
    pub files_tested: Vec<String>,
    pub path: String,
    pub duration: u64,
    pub examples: Vec<TestExample>,
}

impl TestFile {
    /// A fresh entry for a path: no examples, nothing tested yet.
    pub fn new(path: &String) -> (r: TestFile)
        ensures
            r.path@ == path@,
            r.files_tested@ == Seq::<String>::empty(),
            r.duration == 0,
            r.examples@ == Seq::<TestExample>::empty(),
    {
        TestFile { files_tested: Vec::new(), path: path.clone(), duration: 0, examples: Vec::new() }
    }
}

impl PartialEq for TestFile {
    fn eq(&self, other: &Self) -> bool {
        self.path == other.path
    }
}

impl vstd::std_specs::cmp::PartialEqSpecImpl for TestFile {
    open spec fn obeys_eq_spec() -> bool {
        true
    }

    open spec fn eq_spec(&self, other: &Self) -> bool {
        self.path@ == other.path@
    }
}

/// No two entries of the table share a path.
pub open spec fn table_paths_unique(s: Seq<TestFile>) -> bool {
    forall|i: int, j: int| 0 <= i < j < s.len() ==> s[i].path@ != s[j].path@
}

/// The least index of an entry with the given path, or -1.
pub open spec fn table_index(s: Seq<TestFile>, path: Seq<char>) -> int
    decreases s.len(),
{
    if s.len() == 0 {
        -1
    } else if s[0].path@ == path {
        0
    } else {
        let r = table_index(s.drop_first(), path);
        if r < 0 {
            -1
        } else {
            r + 1
        }
    }
}

proof fn lemma_table_index(s: Seq<TestFile>, path: Seq<char>)
    ensures
        0 <= table_index(s, path) ==> table_index(s, path) < s.len() && s[table_index(
            s,
            path,
        )].path@ == path,
        forall|j: int| 0 <= j < table_index(s, path) ==> s[j].path@ != path,
        table_index(s, path) < 0 ==> (forall|j: int| 0 <= j < s.len() ==> s[j].path@ != path),
    decreases s.len(),
{
    if s.len() > 0 && s[0].path@ != path {
        lemma_table_index(s.drop_first(), path);
        let r = table_index(s.drop_first(), path);
        if r >= 0 {
            assert(s.drop_first()[r] == s[r + 1]);
            assert forall|j: int| 0 <= j < table_index(s, path) implies s[j].path@ != path by {
                if j > 0 {
                    assert(s.drop_first()[j - 1] == s[j]);
                }
            }
        } else {
            assert forall|j: int| 0 <= j < s.len() implies s[j].path@ != path by {
                if j > 0 {
                    assert(s.drop_first()[j - 1] == s[j]);
                }
            }
        }
    }
}

/// The table of known test files. One component owns it; everyone else
/// reads through it.
pub struct TestSuite {
    test_files: Vec<TestFile>,
}

impl View for TestSuite {
    type V = Seq<TestFile>;

    closed spec fn view(&self) -> Seq<TestFile> {
        self.test_files@
    }
}

impl TestSuite {
    /// An empty table.
    pub fn new() -> (r: TestSuite)
        ensures
            r@ == Seq::<TestFile>::empty(),
            table_paths_unique(r@),
    {
        TestSuite { test_files: Vec::new() }
    }

    /// How many files are known.
    pub fn len(&self) -> (r: usize)
        ensures
            r == self@.len(),
    {
        self.test_files.len()
    }

    /// The entry at a position.
    pub fn file_at(&self, i: usize) -> (r: &TestFile)
        requires
            i < self@.len(),
        ensures
            *r == self@[i as int],
    {
        &self.test_files[i]
    }

    /// The entry recorded for a path, if any.
    pub fn lookup(&self, path: &String) -> (r: Option<&TestFile>)
        ensures
            match r {
                Some(f) => 0 <= table_index(self@, path@) && *f == self@[table_index(self@, path@)],
                None => table_index(self@, path@) < 0,
            },
    {
        let ghost s = self@;
        let mut i: usize = 0;
        while i < self.test_files.len()
            invariant
                s == self@,
                i <= s.len(),
                forall|j: int| 0 <= j < i ==> s[j].path@ != path@,
            decreases s.len() - i,
        {
            if self.test_files[i].path == *path {
                proof {
                    lemma_table_index(s, path@);
                    let gi = table_index(s, path@);
                    if gi < i as int {
                        assert(s[gi].path@ != path@);
                    }
                    if gi > i as int {
                        assert(s[i as int].path@ != path@);
                    }
                    assert(gi == i as int);
                }
                return Some(&self.test_files[i]);
            }
            i += 1;
        }
        proof {
            lemma_table_index(s, path@);
            let gi = table_index(s, path@);
            if gi >= 0 {
                assert(s[gi].path@ != path@);
            }
        }
        None
    }

    /// Record a file: an entry with the same path is replaced in place, a
    /// new path is appended at the end.
    pub fn update(&mut self, file: TestFile)
        requires
            table_paths_unique(old(self)@),
        ensures
            table_paths_unique(final(self)@),
            final(self)@ == if 0 <= table_index(old(self)@, file.path@) {
                old(self)@.update(table_index(old(self)@, file.path@), file)
            } else {
                old(self)@.push(file)
            },
    {
        let ghost s = self@;
        let ghost fv = file;
        let mut i: usize = 0;
        while i < self.test_files.len()
            invariant
                s == old(self)@,
                self@ == s,
                table_paths_unique(s),
                i <= s.len(),
                forall|j: int| 0 <= j < i ==> s[j].path@ != fv.path@,
                fv == file,
            decreases s.len() - i,
        {
            if self.test_files[i].path == file.path {
                proof {
                    lemma_table_index(s, fv.path@);
                    let gi = table_index(s, fv.path@);
                    if gi < i as int {
                        assert(s[gi].path@ != fv.path@);
                    }
                    if gi > i as int {
                        assert(s[i as int].path@ != fv.path@);
                    }
                    assert(gi == i as int);
                }
                self.test_files.set(i, file);
                proof {
                    assert forall|a: int, b: int|
                        0 <= a < b < self@.len() implies self@[a].path@ != self@[b].path@ by {
                        assert(s[a].path@ != s[b].path@);
                    }
                }
                return ;
            }
            i += 1;
        }
        proof {
            lemma_table_index(s, fv.path@);
            let gi = table_index(s, fv.path@);
            if gi >= 0 {
                assert(s[gi].path@ != fv.path@);
            }
        }
        self.test_files.push(file);
        proof {
            assert forall|a: int, b: int|
                0 <= a < b < self@.len() implies self@[a].path@ != self@[b].path@ by {
                if b < s.len() {
                    assert(s[a].path@ != s[b].path@);
                } else {
                    assert(s[a].path@ != fv.path@);
                }
            }
        }
    }
}

} // verus!
