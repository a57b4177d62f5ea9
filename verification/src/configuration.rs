//! The immutable configuration value, constructed once at startup and
//! passed into each component. Loading it from disk happens outside the
//! library; here lives the value itself and the lookups on it.

use vstd::prelude::*;
use vstd::string::StringExecFns;
use crate::ruby::rspec::RSpecConfiguration;

verus! {

/// Everything the system is configured with: the baseline branch, the
/// patterns for paths worth watching, how to invoke the runner, whether a
/// run with no targets is still started, and the named mapping-rule sets
/// (pattern/template pairs) per runner.
pub struct Configuration {
    pub branch: String,
    pub include_globs: Vec<String>,
    pub rspec: RSpecConfiguration,
    pub run_with_no_targets: bool,
    pub map: Vec<(String, Vec<(String, String)>)>,
}

impl Default for Configuration {
    /// Baseline `master`, nothing watched, default runner invocation, an
    /// empty target set still run, no mapping rules.
    fn default() -> (r: Self)
        ensures
            r.branch@ == "master"@,
            r.include_globs@ == Seq::<String>::empty(),
            r.rspec.path_to_rspec@ == "rspec"@,
            r.rspec.use_bundler == false,
            r.rspec.env@ == Seq::<(String, String)>::empty(),
            r.run_with_no_targets == true,
            r.map@ == Seq::<(String, Vec<(String, String)>)>::empty(),
    {
        Configuration {
            branch: String::from_str("master"),
            include_globs: Vec::new(),
            rspec: RSpecConfiguration::default(),
            run_with_no_targets: true,
            map: Vec::new(),
        }
    }
}

/// The rule set recorded under a runner's name (first occurrence), as
/// pattern/template text pairs.
pub open spec fn spec_rules_for(
    m: Seq<(String, Vec<(String, String)>)>,
    name: Seq<char>,
) -> Option<Seq<(Seq<char>, Seq<char>)>>
    decreases m.len(),
{
    if m.len() == 0 {
        None
    } else if m[0].0@ == name {
        Some(m[0].1.deep_view())
    } else {
        spec_rules_for(m.drop_first(), name)
    }
}

/// The least position of a runner's name in the rule map, or -1.
pub open spec fn rules_key_index(m: Seq<(String, Vec<(String, String)>)>, name: Seq<char>) -> int
    decreases m.len(),
{
    if m.len() == 0 {
        -1
    } else if m[0].0@ == name {
        0
    } else {
        let r = rules_key_index(m.drop_first(), name);
        if r < 0 {
            -1
        } else {
            r + 1
        }
    }
}

proof fn lemma_rules_key_index(m: Seq<(String, Vec<(String, String)>)>, name: Seq<char>)
    ensures
        0 <= rules_key_index(m, name) ==> rules_key_index(m, name) < m.len() && m[rules_key_index(
            m,
            name,
        )].0@ == name && spec_rules_for(m, name) == Some(m[rules_key_index(m, name)].1.deep_view()),
        forall|j: int| 0 <= j < rules_key_index(m, name) ==> m[j].0@ != name,
        rules_key_index(m, name) < 0 ==> (forall|j: int| 0 <= j < m.len() ==> m[j].0@ != name)
            && spec_rules_for(m, name) is None,
    decreases m.len(),
{
    if m.len() > 0 && m[0].0@ != name {
        lemma_rules_key_index(m.drop_first(), name);
        let r = rules_key_index(m.drop_first(), name);
        if r >= 0 {
            assert(m.drop_first()[r] == m[r + 1]);
            assert forall|j: int| 0 <= j < rules_key_index(m, name) implies m[j].0@ != name by {
                if j > 0 {
                    assert(m.drop_first()[j - 1] == m[j]);
                }
            }
        } else {
            assert forall|j: int| 0 <= j < m.len() implies m[j].0@ != name by {
                if j > 0 {
                    assert(m.drop_first()[j - 1] == m[j]);
                }
            }
        }
    }
}

impl Configuration {
    /// The mapping rules configured for the named runner, if any.
    pub fn rules_for(&self, runner: &String) -> (r: Option<&Vec<(String, String)>>)
        ensures
            match r {
                Some(v) => spec_rules_for(self.map@, runner@) == Some(v.deep_view()),
                None => spec_rules_for(self.map@, runner@) is None,
            },
    {
        let ghost m = self.map@;
        let mut i: usize = 0;
        while i < self.map.len()
            invariant
                m == self.map@,
                i <= m.len(),
                forall|j: int| 0 <= j < i ==> m[j].0@ != runner@,
            decreases m.len() - i,
        {
            if self.map[i].0 == *runner {
                proof {
                    lemma_rules_key_index(m, runner@);
                    let gi = rules_key_index(m, runner@);
                    if gi < i as int {
                        assert(m[gi].0@ != runner@);
                    }
                    if gi > i as int {
                        assert(m[i as int].0@ != runner@);
                    }
                    assert(gi == i as int);
                }
                return Some(&self.map[i].1);
            }
            i += 1;
        }
        proof {
            lemma_rules_key_index(m, runner@);
            let gi = rules_key_index(m, runner@);
            if gi >= 0 {
                assert(m[gi].0@ != runner@);
            }
        }
        None
    }
}

} // verus!
