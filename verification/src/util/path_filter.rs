//! Deciding which paths are worth watching, by the configured patterns.

use vstd::prelude::*;
use crate::configuration::Configuration;

verus! {

/// Whether a pattern text compiles as an inclusion glob.
pub uninterp spec fn glob_pattern_valid(pattern: Seq<char>) -> bool;

/// Whether a path matches an inclusion glob.
pub uninterp spec fn glob_matches(pattern: Seq<char>, path: Seq<char>) -> bool;

/// Relies on globber::Pattern::new: whether the pattern compiles depends
/// on the pattern text alone.
#[verifier::external_body]
fn glob_pattern_is_valid(pattern: &String) -> (r: bool)
    ensures
        r == glob_pattern_valid(pattern@),
{
    globber::Pattern::new(pattern.as_str()).is_ok()
}

/// Relies on globber::Pattern::new and globber::Pattern::matches: whether
/// a path matches is a function of the pattern text and the path alone.
#[verifier::external_body]
fn glob_pattern_matches(pattern: &String, path: &String) -> (r: bool)
    requires
        glob_pattern_valid(pattern@),
    ensures
        r == glob_matches(pattern@, path@),
{
    globber::Pattern::new(pattern.as_str()).map(|p| p.matches(path.as_str())).unwrap_or(false)
}

/// The predicate over paths that the configuration's patterns define. Only
/// compiled patterns are ever held.
pub struct PathFilter {
    include_patterns: Vec<String>,
}

#[verifier::type_invariant]
spec fn path_filter_wf(f: PathFilter) -> bool {
    forall|i: int|
        0 <= i < f.include_patterns@.len() ==> glob_pattern_valid(
            #[trigger] f.include_patterns@[i]@,
        )
}

/// The least index of a pattern that does not compile, or -1.
pub open spec fn first_invalid_glob(patterns: Seq<String>) -> int
    decreases patterns.len(),
{
    if patterns.len() == 0 {
        -1
    } else if !glob_pattern_valid(patterns[0]@) {
        0
    } else {
        let r = first_invalid_glob(patterns.drop_first());
        if r < 0 {
            -1
        } else {
            r + 1
        }
    }
}

proof fn lemma_first_invalid_glob(patterns: Seq<String>)
    ensures
        0 <= first_invalid_glob(patterns) ==> first_invalid_glob(patterns) < patterns.len()
            && !glob_pattern_valid(patterns[first_invalid_glob(patterns)]@),
        forall|j: int| 0 <= j < first_invalid_glob(patterns) ==> glob_pattern_valid(patterns[j]@),
        first_invalid_glob(patterns) < 0 ==> (forall|j: int|
            0 <= j < patterns.len() ==> glob_pattern_valid(patterns[j]@)),
    decreases patterns.len(),
{
    if patterns.len() > 0 && glob_pattern_valid(patterns[0]@) {
        lemma_first_invalid_glob(patterns.drop_first());
        let r = first_invalid_glob(patterns.drop_first());
        if r >= 0 {
            assert(patterns.drop_first()[r] == patterns[r + 1]);
            assert forall|j: int| 0 <= j < first_invalid_glob(patterns) implies glob_pattern_valid(
                patterns[j]@,
            ) by {
                if j > 0 {
                    assert(patterns.drop_first()[j - 1] == patterns[j]);
                }
            }
        } else {
            assert forall|j: int| 0 <= j < patterns.len() implies glob_pattern_valid(
                patterns[j]@,
            ) by {
                if j > 0 {
                    assert(patterns.drop_first()[j - 1] == patterns[j]);
                }
            }
        }
    }
}

impl PathFilter {
    /// The pattern texts the filter was built with.
    pub closed spec fn patterns(&self) -> Seq<Seq<char>> {
        self.include_patterns.deep_view()
    }

    /// Build the filter from the configuration's patterns. Succeeds
    /// exactly when every pattern compiles; otherwise the first pattern
    /// that does not is handed back.
    pub fn new(config: &Configuration) -> (r: Result<PathFilter, String>)
        ensures
            match r {
                Ok(f) => first_invalid_glob(config.include_globs@) < 0 && f.patterns()
                    == config.include_globs.deep_view(),
                Err(p) => 0 <= first_invalid_glob(config.include_globs@)
                    && p@ == config.include_globs@[first_invalid_glob(config.include_globs@)]@,
            },
    {
        let ghost ps = config.include_globs@;
        proof {
            lemma_first_invalid_glob(ps);
        }
        let mut patterns: Vec<String> = Vec::new();
        let mut i: usize = 0;
        while i < config.include_globs.len()
            invariant
                ps == config.include_globs@,
                i <= ps.len(),
                patterns@.len() == i,
                forall|j: int| 0 <= j < i ==> patterns@[j]@ == ps[j]@,
                forall|j: int| 0 <= j < i ==> glob_pattern_valid(#[trigger] patterns@[j]@),
                0 <= first_invalid_glob(ps) ==> first_invalid_glob(ps) < ps.len()
                    && !glob_pattern_valid(ps[first_invalid_glob(ps)]@),
                forall|j: int| 0 <= j < first_invalid_glob(ps) ==> glob_pattern_valid(ps[j]@),
                first_invalid_glob(ps) < 0 ==> (forall|j: int|
                    0 <= j < ps.len() ==> glob_pattern_valid(ps[j]@)),
            decreases ps.len() - i,
        {
            if !glob_pattern_is_valid(&config.include_globs[i]) {
                proof {
                    assert(!glob_pattern_valid(ps[i as int]@));
                    let fi = first_invalid_glob(ps);
                    assert(0 <= fi);
                    if fi < i as int {
                        assert(glob_pattern_valid(ps[fi]@));
                    }
                    if fi > i as int {
                        assert(glob_pattern_valid(ps[i as int]@));
                    }
                    assert(fi == i as int);
                }
                return Err(config.include_globs[i].clone());
            }
            patterns.push(config.include_globs[i].clone());
            i += 1;
        }
        proof {
            let fi = first_invalid_glob(ps);
            if fi >= 0 {
                assert(glob_pattern_valid(ps[fi]@));
            }
            assert(patterns.deep_view() =~= config.include_globs.deep_view());
        }
        Ok(PathFilter { include_patterns: patterns })
    }

    /// Whether some configured pattern matches the path.
    pub fn include_path(&self, path: &String) -> (r: bool)
        ensures
            r == exists|i: int|
                0 <= i < self.patterns().len() && glob_matches(#[trigger] self.patterns()[i], path@),
    {
        proof {
            use_type_invariant(self);
        }
        let mut i: usize = 0;
        while i < self.include_patterns.len()
            invariant
                forall|j: int|
                    0 <= j < self.include_patterns@.len() ==> glob_pattern_valid(
                        #[trigger] self.include_patterns@[j]@,
                    ),
                i <= self.include_patterns@.len(),
                forall|j: int| 0 <= j < i ==> !glob_matches(#[trigger] self.patterns()[j], path@),
            decreases self.include_patterns@.len() - i,
        {
            if glob_pattern_matches(&self.include_patterns[i], path) {
                proof {
                    assert(glob_matches(self.patterns()[i as int], path@));
                }
                return true;
            }
            i += 1;
        }
        false
    }
}

} // verus!
