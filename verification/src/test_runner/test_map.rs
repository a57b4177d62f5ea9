//! Mapping changed files to candidate test files.
//!
//! Stage one turns each changed file into glob patterns: every mapping rule
//! whose pattern matches the file's path substitutes the captured groups
//! into the rule's template. Stage two expands each glob against the
//! filesystem and merges the concrete paths, keeping first-discovery order
//! and per-path attribution to the changed files that contributed it.

use vstd::prelude::*;
use vstd::string::StringExecFns;
use crate::repo_watcher::changed_file::ChangedFile;
use crate::util::text::{chars_of, push_char};

verus! {

/// An ASCII decimal digit.
pub open spec fn is_digit(c: char) -> bool {
    '0' as u32 <= c as u32 && c as u32 <= '9' as u32
}

/// The numeric value of one digit.
pub open spec fn digit_val(c: char) -> int {
    c as u32 - '0' as u32
}

/// The length of the longest digit prefix of `t`.
pub open spec fn digit_run_len(t: Seq<char>) -> nat
    decreases t.len(),
{
    if t.len() == 0 || !is_digit(t[0]) {
        0
    } else {
        1 + digit_run_len(t.drop_first())
    }
}

proof fn lemma_digit_run_len(t: Seq<char>)
    ensures
        digit_run_len(t) <= t.len(),
        forall|j: int| 0 <= j < digit_run_len(t) ==> is_digit(t[j]),
        digit_run_len(t) < t.len() ==> !is_digit(t[digit_run_len(t) as int]),
    decreases t.len(),
{
    if t.len() > 0 && is_digit(t[0]) {
        lemma_digit_run_len(t.drop_first());
        assert forall|j: int| 0 <= j < digit_run_len(t) implies is_digit(t[j]) by {
            if j > 0 {
                assert(t.drop_first()[j - 1] == t[j]);
            }
        }
        if digit_run_len(t) < t.len() {
            assert(t.drop_first()[digit_run_len(t) - 1] == t[digit_run_len(t) as int]);
        }
    }
}

proof fn lemma_digit_run_len_of(t: Seq<char>, k: int)
    requires
        0 <= k <= t.len(),
        forall|j: int| 0 <= j < k ==> is_digit(t[j]),
        k == t.len() || !is_digit(t[k]),
    ensures
        digit_run_len(t) == k,
    decreases t.len(),
{
    if k == 0 {
    } else {
        assert(is_digit(t[0]));
        assert forall|j: int| 0 <= j < k - 1 implies is_digit(t.drop_first()[j]) by {
            assert(t.drop_first()[j] == t[j + 1]);
        }
        if k < t.len() {
            assert(t.drop_first()[k - 1] == t[k]);
        }
        lemma_digit_run_len_of(t.drop_first(), k - 1);
    }
}

/// The numeric value of a digit string, most significant digit first.
pub open spec fn digits_val(d: Seq<char>) -> int
    decreases d.len(),
{
    if d.len() == 0 {
        0
    } else {
        digits_val(d.drop_last()) * 10 + digit_val(d.last())
    }
}

proof fn lemma_digits_val_nonneg(d: Seq<char>)
    requires
        forall|j: int| 0 <= j < d.len() ==> is_digit(d[j]),
    ensures
        digits_val(d) >= 0,
    decreases d.len(),
{
    if d.len() > 0 {
        assert forall|j: int| 0 <= j < d.len() - 1 implies is_digit(d.drop_last()[j]) by {
            assert(d.drop_last()[j] == d[j]);
        }
        lemma_digits_val_nonneg(d.drop_last());
    }
}

/// What a `$n` token stands for: the text of capture group `n`, or nothing
/// where the group is out of range or took no part in the match.
pub open spec fn token_replacement(n: int, reps: Seq<Option<Seq<char>>>) -> Seq<char> {
    if 1 <= n && n <= reps.len() {
        match reps[n - 1] {
            Some(s) => s,
            None => Seq::empty(),
        }
    } else {
        Seq::empty()
    }
}

/// Substitution of `$n` tokens in a template: a `$` followed by a maximal
/// run of digits becomes the corresponding replacement (or nothing), and
/// every other character is kept verbatim.
pub open spec fn spec_replace_tokens(t: Seq<char>, reps: Seq<Option<Seq<char>>>) -> Seq<char>
    decreases t.len(),
    via spec_replace_tokens_decreases
{
    if t.len() == 0 {
        Seq::empty()
    } else if t[0] == '$' && t.len() >= 2 && is_digit(t[1]) {
        let d = digit_run_len(t.drop_first()) as int;
        token_replacement(digits_val(t.subrange(1, 1 + d)), reps) + spec_replace_tokens(
            t.skip(1 + d),
            reps,
        )
    } else {
        seq![t[0]] + spec_replace_tokens(t.drop_first(), reps)
    }
}

#[via_fn]
proof fn spec_replace_tokens_decreases(t: Seq<char>, reps: Seq<Option<Seq<char>>>) {
    if t.len() >= 2 {
        lemma_digit_run_len(t.drop_first());
    }
}

/// An ASCII decimal digit.
fn is_digit_char(c: char) -> (r: bool)
    ensures
        r == is_digit(c),
{
    let u = c as u32;
    '0' as u32 <= u && u <= '9' as u32
}

/// Substitute `$n` tokens in `token_string` by the given replacement texts:
/// `$1` stands for the first replacement and so on. A token whose number has
/// no replacement, or whose replacement is `None`, is removed; all other
/// text is kept verbatim.
pub fn replace_tokens(token_string: &String, replacements: Vec<Option<&str>>) -> (r: String)
    ensures
        r@ == spec_replace_tokens(token_string@, replacements.deep_view()),
{
    let ghost reps = replacements.deep_view();
    let cs = chars_of(token_string.as_str());
    let cap: usize = replacements.len();
    let mut out = String::new();
    let mut i: usize = 0;
    proof {
        assert(cs@.skip(0) =~= cs@);
    }
    while i < cs.len()
        invariant
            cs@ == token_string@,
            i <= cs@.len(),
            reps == replacements.deep_view(),
            cap == replacements@.len(),
            reps.len() == cap,
            spec_replace_tokens(cs@, reps) == out@ + spec_replace_tokens(cs@.skip(i as int), reps),
        decreases cs@.len() - i,
    {
        let ghost t = cs@.skip(i as int);
        let c = cs[i];
        if c == '$' && i + 1 < cs.len() && is_digit_char(cs[i + 1]) {
            let mut j: usize = i + 1;
            let mut n_opt: Option<usize> = Some(0);
            proof {
                assert(cs@.subrange(i + 1, j as int) =~= Seq::<char>::empty());
            }
            while j < cs.len() && is_digit_char(cs[j])
                invariant
                    cs@ == token_string@,
                    i + 1 <= j <= cs@.len(),
                    cap == replacements@.len(),
                    forall|m: int| i + 1 <= m < j ==> is_digit(cs@[m]),
                    match n_opt {
                        Some(a) => a <= cap && a == digits_val(cs@.subrange(i + 1, j as int)),
                        None => digits_val(cs@.subrange(i + 1, j as int)) > cap,
                    },
                decreases cs@.len() - j,
            {
                let ghost v = digits_val(cs@.subrange(i + 1, j as int));
                let d = ((cs[j] as u32) - ('0' as u32)) as usize;
                proof {
                    assert(cs@.subrange(i + 1, j + 1).drop_last() =~= cs@.subrange(i + 1, j as int));
                    assert(cs@.subrange(i + 1, j + 1).last() == cs@[j as int]);
                    assert(digits_val(cs@.subrange(i + 1, j + 1)) == v * 10 + digit_val(cs@[j as int]));
                    assert forall|m: int|
                        0 <= m < cs@.subrange(i + 1, j as int).len() implies #[trigger] is_digit(
                        cs@.subrange(i + 1, j as int)[m],
                    ) by {
                        assert(cs@.subrange(i + 1, j as int)[m] == cs@[i + 1 + m]);
                    }
                    lemma_digits_val_nonneg(cs@.subrange(i + 1, j as int));
                }
                n_opt = match n_opt {
                    Some(a) => {
                        if a > cap / 10 {
                            proof {
                                assert(cap == 10 * (cap / 10) + cap % 10) by (nonlinear_arith);
                                assert(a * 10 >= (cap / 10 + 1) * 10) by (nonlinear_arith)
                                    requires a >= cap / 10 + 1;
                            }
                            None
                        } else {
                            proof {
                                assert(a * 10 <= (cap / 10) * 10) by (nonlinear_arith)
                                    requires a <= cap / 10;
                                assert((cap / 10) * 10 <= cap) by (nonlinear_arith);
                            }
                            let m = a * 10;
                            if d > cap - m {
                                None
                            } else {
                                Some(m + d)
                            }
                        }
                    },
                    None => {
                        proof {
                            assert(v * 10 + digit_val(cs@[j as int]) > cap) by (nonlinear_arith)
                                requires v > cap, cap >= 0, digit_val(cs@[j as int]) >= 0;
                        }
                        None
                    },
                };
                j += 1;
            }
            let ghost d_run = (j - i - 1) as int;
            let ghost v = digits_val(cs@.subrange(i + 1, j as int));
            proof {
                assert forall|m: int| 0 <= m < d_run implies is_digit(t.drop_first()[m]) by {
                    assert(t.drop_first()[m] == cs@[i + 1 + m]);
                }
                if j < cs@.len() {
                    assert(t.drop_first()[d_run] == cs@[j as int]);
                }
                lemma_digit_run_len_of(t.drop_first(), d_run);
                assert(t.subrange(1, 1 + d_run) =~= cs@.subrange(i + 1, j as int));
                assert(t.skip(1 + d_run) =~= cs@.skip(j as int));
                assert(t[0] == '$' && t.len() >= 2 && is_digit(t[1]));
                assert(spec_replace_tokens(t, reps) == token_replacement(v, reps)
                    + spec_replace_tokens(cs@.skip(j as int), reps));
            }
            match n_opt {
                Some(n) => {
                    if n >= 1 {
                        match replacements[n - 1] {
                            Some(s) => {
                                proof {
                                    assert(reps[n - 1] == replacements@[n - 1].deep_view());
                                    assert(token_replacement(v, reps) == s@);
                                }
                                out.append(s);
                            },
                            None => {
                                proof {
                                    assert(reps[n - 1] == replacements@[n - 1].deep_view());
                                    assert(token_replacement(v, reps) =~= Seq::<char>::empty());
                                }
                            },
                        }
                    } else {
                        proof {
                            assert(token_replacement(v, reps) =~= Seq::<char>::empty());
                        }
                    }
                },
                None => {
                    proof {
                        assert(token_replacement(v, reps) =~= Seq::<char>::empty());
                    }
                },
            }
            proof {
                assert(out@ + spec_replace_tokens(cs@.skip(j as int), reps) =~= spec_replace_tokens(
                    cs@,
                    reps,
                ));
            }
            i = j;
        } else {
            proof {
                assert(t[0] == c);
                if t.len() >= 2 {
                    assert(t[1] == cs@[i + 1]);
                }
                assert(t.drop_first() =~= cs@.skip(i + 1));
                assert(spec_replace_tokens(t, reps) == seq![c] + spec_replace_tokens(
                    cs@.skip(i + 1),
                    reps,
                ));
            }
            push_char(&mut out, c);
            proof {
                assert(out@ + spec_replace_tokens(cs@.skip(i + 1), reps) =~= spec_replace_tokens(
                    cs@,
                    reps,
                ));
            }
            i += 1;
        }
    }
    proof {
        assert(cs@.skip(cs@.len() as int) =~= Seq::<char>::empty());
    }
    out
}

/// Whether a pattern text compiles as a regular expression.
pub uninterp spec fn regex_valid(pattern: Seq<char>) -> bool;

/// The capture groups (1 and up) of the leftmost match of the pattern in the
/// input, each `None` where the group took no part in the match; `None` as a
/// whole where the input does not match.
pub uninterp spec fn regex_captures(pattern: Seq<char>, input: Seq<char>) -> Option<
    Seq<Option<Seq<char>>>,
>;

/// Relies on regex::Regex::new: whether a pattern compiles depends on the
/// pattern text alone.
#[verifier::external_body]
pub(crate) fn regex_is_valid(pattern: &String) -> (r: bool)
    ensures
        r == regex_valid(pattern@),
{
    regex::Regex::new(pattern.as_str()).is_ok()
}

/// Relies on regex::Regex::new and regex::Regex::captures: the capture
/// groups of the leftmost match are a function of the pattern text and the
/// input alone. Hands back the texts of groups 1 and up.
#[verifier::external_body]
fn capture_groups(pattern: &String, input: &String) -> (r: Option<Vec<Option<String>>>)
    ensures
        regex_valid(pattern@) ==> r.deep_view() == regex_captures(pattern@, input@),
        !regex_valid(pattern@) ==> r is None,
{
    let re = regex::Regex::new(pattern.as_str()).ok()?;
    let caps = re.captures(input.as_str())?;
    Some(caps.iter().skip(1).map(|m| m.map(|g| g.as_str().to_string())).collect())
}

/// The candidate glob a single rule derives from a file path: the rule's
/// template with each `$n` token replaced by capture group `n` of the
/// pattern's match, or `None` where the pattern is invalid or does not match.
pub open spec fn spec_pattern_matches(
    pattern: Seq<char>,
    template: Seq<char>,
    input: Seq<char>,
) -> Option<Seq<char>> {
    if regex_valid(pattern) {
        match regex_captures(pattern, input) {
            Some(groups) => Some(spec_replace_tokens(template, groups)),
            None => None,
        }
    } else {
        None
    }
}

/// Run the pattern over the input; on a match, substitute the captured
/// groups into the token string.
pub fn pattern_matches(pattern: &String, token_string: &String, input: &String) -> (r: Option<
    String,
>)
    ensures
        r.deep_view() == spec_pattern_matches(pattern@, token_string@, input@),
{
    match capture_groups(pattern, input) {
        None => None,
        Some(groups) => {
            let mut refs: Vec<Option<&str>> = Vec::new();
            let mut i: usize = 0;
            while i < groups.len()
                invariant
                    i <= groups@.len(),
                    refs@.len() == i,
                    forall|k: int| 0 <= k < i ==> refs@[k].deep_view() == groups@[k].deep_view(),
                decreases groups@.len() - i,
            {
                match &groups[i] {
                    Some(s) => {
                        let r = s.as_str();
                        refs.push(Some(r));
                        proof {
                            assert(refs@[i as int].deep_view() == Some(r@));
                        }
                    },
                    None => {
                        refs.push(None);
                        proof {
                            assert(refs@[i as int].deep_view() == None::<Seq<char>>);
                        }
                    },
                }
                i += 1;
            }
            proof {
                assert(refs.deep_view() =~= groups.deep_view());
            }
            Some(replace_tokens(token_string, refs))
        },
    }
}

/// The globs that the rules derive from one file path, in rule order.
pub open spec fn spec_test_globs_for_file(
    rules: Seq<(Seq<char>, Seq<char>)>,
    file: Seq<char>,
) -> Seq<Seq<char>>
    decreases rules.len(),
{
    if rules.len() == 0 {
        Seq::empty()
    } else {
        spec_test_globs_for_file(rules.drop_last(), file) + match spec_pattern_matches(
            rules.last().0,
            rules.last().1,
            file,
        ) {
            Some(g) => seq![g],
            None => Seq::empty(),
        }
    }
}

/// Apply every mapping rule to one file path, collecting the derived globs
/// in rule order.
pub fn test_globs_for_file(test_map: &Vec<(String, String)>, file: &String) -> (r: Vec<String>)
    ensures
        r.deep_view() == spec_test_globs_for_file(test_map.deep_view(), file@),
{
    let ghost rules = test_map.deep_view();
    let mut out: Vec<String> = Vec::new();
    let mut i: usize = 0;
    proof {
        assert(rules.subrange(0, 0) =~= Seq::<(Seq<char>, Seq<char>)>::empty());
        assert(out.deep_view() =~= spec_test_globs_for_file(rules.subrange(0, 0), file@));
    }
    while i < test_map.len()
        invariant
            i <= test_map@.len(),
            rules == test_map.deep_view(),
            rules.len() == test_map@.len(),
            forall|j: int| 0 <= j < test_map@.len() ==> rules[j] == (
                test_map@[j].0@,
                test_map@[j].1@,
            ),
            out.deep_view() == spec_test_globs_for_file(rules.subrange(0, i as int), file@),
        decreases test_map@.len() - i,
    {
        let ghost prev = out.deep_view();
        match pattern_matches(&test_map[i].0, &test_map[i].1, file) {
            Some(g) => {
                out.push(g);
            },
            None => {},
        }
        proof {
            assert(rules.subrange(0, i + 1).drop_last() =~= rules.subrange(0, i as int));
            assert(rules.subrange(0, i + 1).last() == rules[i as int]);
            match spec_pattern_matches(rules[i as int].0, rules[i as int].1, file@) {
                Some(g) => {
                    assert(out.deep_view() =~= prev + seq![g]);
                },
                None => {},
            }
            assert(out.deep_view() =~= spec_test_globs_for_file(rules.subrange(0, i + 1), file@));
        }
        i += 1;
    }
    proof {
        assert(rules.subrange(0, rules.len() as int) =~= rules);
    }
    out
}

/// One key of a group together with the changed files that contributed it,
/// in contribution order (a file may appear more than once if it contributed
/// the key more than once).
pub struct GroupEntry {
    pub key: String,
    pub changed_files: Vec<ChangedFile>,
}

impl View for GroupEntry {
    type V = (Seq<char>, Seq<ChangedFile>);

    open spec fn view(&self) -> Self::V {
        (self.key@, self.changed_files@)
    }
}

/// An ordered list of distinct keys, each with the changed files that
/// contributed it. Entry order is first discovery; merges only append.
pub struct Group {
    pub entries: Vec<GroupEntry>,
}

impl View for Group {
    type V = Seq<(Seq<char>, Seq<ChangedFile>)>;

    open spec fn view(&self) -> Self::V {
        Seq::new(self.entries@.len(), |i: int| self.entries@[i]@)
    }
}

/// No two entries of the group share a key.
pub open spec fn group_keys_unique(g: Seq<(Seq<char>, Seq<ChangedFile>)>) -> bool {
    forall|i: int, j: int| 0 <= i < j < g.len() ==> g[i].0 != g[j].0
}

/// Some entry of the group has the given key.
pub open spec fn group_contains(g: Seq<(Seq<char>, Seq<ChangedFile>)>, key: Seq<char>) -> bool {
    exists|i: int| 0 <= i < g.len() && g[i].0 == key
}

/// The least index of an entry with the given key, or -1 if there is none.
pub open spec fn group_index(g: Seq<(Seq<char>, Seq<ChangedFile>)>, key: Seq<char>) -> int
    decreases g.len(),
{
    if g.len() == 0 {
        -1
    } else if g[0].0 == key {
        0
    } else {
        let r = group_index(g.drop_first(), key);
        if r < 0 {
            -1
        } else {
            r + 1
        }
    }
}

pub proof fn lemma_group_index(g: Seq<(Seq<char>, Seq<ChangedFile>)>, key: Seq<char>)
    ensures
        group_contains(g, key) <==> 0 <= group_index(g, key) < g.len(),
        0 <= group_index(g, key) ==> g[group_index(g, key)].0 == key,
        forall|j: int| 0 <= j < group_index(g, key) ==> g[j].0 != key,
        !group_contains(g, key) ==> group_index(g, key) == -1,
    decreases g.len(),
{
    if g.len() > 0 && g[0].0 != key {
        lemma_group_index(g.drop_first(), key);
        assert forall|i: int| 0 <= i < g.len() && g[i].0 == key implies group_contains(
            g.drop_first(),
            key,
        ) by {
            assert(g.drop_first()[i - 1] == g[i]);
        }
        assert forall|j: int| 0 <= j < group_index(g, key) implies g[j].0 != key by {
            if j > 0 {
                assert(g.drop_first()[j - 1] == g[j]);
            }
        }
    }
}

/// Record that `cf` contributed `key`: append `cf` to an existing entry's
/// contributors, or append a fresh entry at the end.
pub open spec fn group_add_glob(
    g: Seq<(Seq<char>, Seq<ChangedFile>)>,
    key: Seq<char>,
    cf: ChangedFile,
) -> Seq<(Seq<char>, Seq<ChangedFile>)> {
    if group_contains(g, key) {
        let k = group_index(g, key);
        g.update(k, (key, g[k].1.push(cf)))
    } else {
        g.push((key, seq![cf]))
    }
}

/// Record that `cf` contributed each key of `keys`, in order.
pub open spec fn group_add_globs(
    g: Seq<(Seq<char>, Seq<ChangedFile>)>,
    keys: Seq<Seq<char>>,
    cf: ChangedFile,
) -> Seq<(Seq<char>, Seq<ChangedFile>)>
    decreases keys.len(),
{
    if keys.len() == 0 {
        g
    } else {
        group_add_glob(group_add_globs(g, keys.drop_last(), cf), keys.last(), cf)
    }
}

/// Stage one: the glob group derived from the changed files, files in their
/// given order, rules in configured order, keys in first-discovery order.
pub open spec fn spec_grouped_globs(
    rules: Seq<(Seq<char>, Seq<char>)>,
    files: Seq<ChangedFile>,
) -> Seq<(Seq<char>, Seq<ChangedFile>)>
    decreases files.len(),
{
    if files.len() == 0 {
        Seq::empty()
    } else {
        group_add_globs(
            spec_grouped_globs(rules, files.drop_last()),
            spec_test_globs_for_file(rules, files.last().path@),
            files.last(),
        )
    }
}

pub proof fn lemma_group_add_glob_unique(
    g: Seq<(Seq<char>, Seq<ChangedFile>)>,
    key: Seq<char>,
    cf: ChangedFile,
)
    requires
        group_keys_unique(g),
    ensures
        group_keys_unique(group_add_glob(g, key, cf)),
        forall|p: Seq<char>|
            group_contains(group_add_glob(g, key, cf), p) <==> (group_contains(g, p) || key == p),
{
    lemma_group_index(g, key);
    let r = group_add_glob(g, key, cf);
    if group_contains(g, key) {
        let k = group_index(g, key);
        assert forall|p: Seq<char>| group_contains(r, p) implies (group_contains(g, p) || key
            == p) by {
            let i = choose|i: int| 0 <= i < r.len() && r[i].0 == p;
            if i != k {
                assert(g[i].0 == p);
            }
        }
        assert forall|p: Seq<char>| group_contains(g, p) implies group_contains(r, p) by {
            let i = choose|i: int| 0 <= i < g.len() && g[i].0 == p;
            if g[i].0 == key {
                assert(r[k].0 == p);
            } else {
                assert(r[i].0 == p);
            }
        }
    } else {
        assert forall|p: Seq<char>| group_contains(r, p) implies (group_contains(g, p) || key
            == p) by {
            let i = choose|i: int| 0 <= i < r.len() && r[i].0 == p;
            if i < g.len() {
                assert(g[i].0 == p);
            }
        }
        assert forall|p: Seq<char>| group_contains(g, p) implies group_contains(r, p) by {
            let i = choose|i: int| 0 <= i < g.len() && g[i].0 == p;
            assert(r[i].0 == p);
        }
        assert(r[g.len() as int].0 == key);
    }
}

pub proof fn lemma_group_add_globs_unique(
    g: Seq<(Seq<char>, Seq<ChangedFile>)>,
    keys: Seq<Seq<char>>,
    cf: ChangedFile,
)
    requires
        group_keys_unique(g),
    ensures
        group_keys_unique(group_add_globs(g, keys, cf)),
    decreases keys.len(),
{
    if keys.len() > 0 {
        lemma_group_add_globs_unique(g, keys.drop_last(), cf);
        lemma_group_add_glob_unique(group_add_globs(g, keys.drop_last(), cf), keys.last(), cf);
    }
}

/// No two keys of a stage-one group are equal, whatever the rules and files.
pub proof fn lemma_grouped_globs_unique(rules: Seq<(Seq<char>, Seq<char>)>, files: Seq<ChangedFile>)
    ensures
        group_keys_unique(spec_grouped_globs(rules, files)),
    decreases files.len(),
{
    if files.len() > 0 {
        lemma_grouped_globs_unique(rules, files.drop_last());
        lemma_group_add_globs_unique(
            spec_grouped_globs(rules, files.drop_last()),
            spec_test_globs_for_file(rules, files.last().path@),
            files.last(),
        );
    }
}

impl Group {
    /// The number of distinct keys in the group.
    pub fn len(&self) -> (r: usize)
        ensures
            r == self@.len(),
    {
        self.entries.len()
    }

    /// The key at the given position of the ordered list.
    pub fn key_at(&self, i: usize) -> (r: &String)
        requires
            i < self@.len(),
        ensures
            r@ == self@[i as int].0,
    {
        &self.entries[i].key
    }

    /// The contributing changed files of the entry at the given position.
    pub fn changed_files_at(&self, i: usize) -> (r: &Vec<ChangedFile>)
        requires
            i < self@.len(),
        ensures
            r@ == self@[i as int].1,
    {
        &self.entries[i].changed_files
    }

    /// The contributing changed files recorded under the given key, if any.
    pub fn lookup(&self, key: &String) -> (r: Option<&Vec<ChangedFile>>)
        ensures
            match r {
                Some(v) => group_contains(self@, key@) && v@ == self@[group_index(self@, key@)].1,
                None => !group_contains(self@, key@),
            },
    {
        proof {
            lemma_group_index(self@, key@);
        }
        let mut i: usize = 0;
        while i < self.entries.len()
            invariant
                i <= self.entries@.len(),
                forall|j: int| 0 <= j < i ==> self@[j].0 != key@,
                0 <= group_index(self@, key@) ==> self@[group_index(self@, key@)].0 == key@,
                forall|j: int| 0 <= j < group_index(self@, key@) ==> self@[j].0 != key@,
                group_contains(self@, key@) <==> 0 <= group_index(self@, key@) < self@.len(),
            decreases self.entries@.len() - i,
        {
            if self.entries[i].key == *key {
                proof {
                    assert(self@[i as int].0 == key@);
                    assert(group_contains(self@, key@));
                    let gi = group_index(self@, key@);
                    if gi < i as int {
                        assert(self@[gi].0 != key@);
                    }
                    if gi > i as int {
                        assert(self@[i as int].0 != key@);
                    }
                    assert(gi == i as int);
                }
                return Some(&self.entries[i].changed_files);
            }
            i += 1;
        }
        None
    }
}

/// A copy of a changed-file list, element by element.
fn clone_changed_files(files: &Vec<ChangedFile>) -> (r: Vec<ChangedFile>)
    ensures
        r@ == files@,
{
    let mut out: Vec<ChangedFile> = Vec::new();
    let mut i: usize = 0;
    while i < files.len()
        invariant
            i <= files@.len(),
            out@ =~= files@.subrange(0, i as int),
        decreases files@.len() - i,
    {
        out.push(files[i].clone());
        proof {
            assert(out@ =~= files@.subrange(0, i + 1));
        }
        i += 1;
    }
    proof {
        assert(files@.subrange(0, files@.len() as int) =~= files@);
    }
    out
}

/// Record one contribution in the group, appending either to an existing
/// entry's contributors or a fresh entry.
fn group_add(group: &mut Group, key: String, cf: ChangedFile)
    ensures
        final(group)@ == group_add_glob(old(group)@, key@, cf),
{
    proof {
        lemma_group_index(group@, key@);
    }
    let ghost key_v = key@;
    let ghost g0 = group@;
    let ghost ents0 = group.entries@;
    let mut i: usize = 0;
    while i < group.entries.len()
        invariant
            g0 == old(group)@,
            group@ == g0,
            group.entries@ == ents0,
            i <= group.entries@.len(),
            forall|j: int| 0 <= j < i ==> g0[j].0 != key_v,
            key_v == key@,
            0 <= group_index(g0, key_v) ==> g0[group_index(g0, key_v)].0 == key_v,
            forall|j: int| 0 <= j < group_index(g0, key_v) ==> g0[j].0 != key_v,
            group_contains(g0, key_v) <==> 0 <= group_index(g0, key_v) < g0.len(),
        decreases group.entries@.len() - i,
    {
        if group.entries[i].key == *&key {
            proof {
                assert(g0[i as int].0 == key_v);
                assert(group_contains(g0, key_v));
                let gi = group_index(g0, key_v);
                if gi < i as int {
                    assert(g0[gi].0 != key_v);
                }
                if gi > i as int {
                    assert(g0[i as int].0 != key_v);
                }
                assert(gi == i as int);
            }
            let mut entry = group.entries.remove(i);
            entry.changed_files.push(cf);
            let ghost e = entry;
            group.entries.insert(i, entry);
            proof {
                assert(e.key@ == key_v);
                assert(e.changed_files@ == ents0[i as int].changed_files@.push(cf));
                assert(group.entries@ =~= ents0.update(i as int, e));
                assert forall|m: int| 0 <= m < group@.len() implies group@[m] == group_add_glob(
                    g0,
                    key_v,
                    cf,
                )[m] by {
                    if m != i as int {
                        assert(group.entries@[m] == ents0[m]);
                    }
                }
                assert(group@ =~= group_add_glob(g0, key_v, cf));
            }
            return ;
        }
        i += 1;
    }
    proof {
        assert(!group_contains(g0, key_v));
    }
    let entry = GroupEntry { key, changed_files: vec![cf] };
    let ghost e = entry;
    group.entries.push(entry);
    proof {
        assert(e.key@ == key_v);
        assert(e.changed_files@ =~= seq![cf]);
        assert forall|m: int| 0 <= m < group@.len() implies group@[m] == group_add_glob(
            g0,
            key_v,
            cf,
        )[m] by {
            if m < g0.len() {
                assert(group.entries@[m] == ents0[m]);
            } else {
                assert(group.entries@[m] == e);
            }
        }
        assert(group@ =~= group_add_glob(g0, key_v, cf));
    }
}

/// Stage one: for each changed file, in order, derive the globs its path
/// maps to under the rules, and group them with attribution. The key list
/// holds first-seen globs in generation order; a glob contributed by several
/// changed files accumulates them all.
pub fn grouped_globs(test_map: &Vec<(String, String)>, changed_files: Vec<ChangedFile>) -> (r:
    Group)
    ensures
        r@ == spec_grouped_globs(test_map.deep_view(), changed_files@),
        group_keys_unique(r@),
{
    let ghost rules = test_map.deep_view();
    let mut group = Group { entries: Vec::new() };
    let mut i: usize = 0;
    proof {
        assert(changed_files@.subrange(0, 0) =~= Seq::<ChangedFile>::empty());
        assert(group@ =~= spec_grouped_globs(rules, changed_files@.subrange(0, 0)));
    }
    while i < changed_files.len()
        invariant
            i <= changed_files@.len(),
            rules == test_map.deep_view(),
            group@ == spec_grouped_globs(rules, changed_files@.subrange(0, i as int)),
        decreases changed_files@.len() - i,
    {
        let cf = changed_files[i].clone();
        let globs = test_globs_for_file(test_map, &cf.path);
        let ghost keys = globs.deep_view();
        let ghost g0 = group@;
        let mut k: usize = 0;
        proof {
            assert(keys.subrange(0, 0) =~= Seq::<Seq<char>>::empty());
            assert(group@ =~= group_add_globs(g0, keys.subrange(0, 0), cf));
        }
        while k < globs.len()
            invariant
                k <= globs@.len(),
                keys == globs.deep_view(),
                keys.len() == globs@.len(),
                forall|j: int| 0 <= j < globs@.len() ==> keys[j] == globs@[j]@,
                cf == changed_files@[i as int],
                i < changed_files@.len(),
                group@ == group_add_globs(g0, keys.subrange(0, k as int), cf),
            decreases globs@.len() - k,
        {
            group_add(&mut group, globs[k].clone(), cf.clone());
            proof {
                assert(keys.subrange(0, k + 1).drop_last() =~= keys.subrange(0, k as int));
                assert(keys.subrange(0, k + 1).last() == keys[k as int]);
            }
            k += 1;
        }
        proof {
            assert(keys.subrange(0, keys.len() as int) =~= keys);
            assert(changed_files@.subrange(0, i + 1).drop_last() =~= changed_files@.subrange(
                0,
                i as int,
            ));
            assert(changed_files@.subrange(0, i + 1).last() == changed_files@[i as int]);
            assert(cf.path@ == changed_files@[i as int].path@);
        }
        i += 1;
    }
    proof {
        assert(changed_files@.subrange(0, changed_files@.len() as int) =~= changed_files@);
        lemma_grouped_globs_unique(rules, changed_files@);
    }
    group
}

/// Merge one concrete path into the result group: a path already seen gets
/// the new contributors appended, a fresh path gets its own entry.
pub open spec fn group_merge_path(
    g: Seq<(Seq<char>, Seq<ChangedFile>)>,
    path: Seq<char>,
    files: Seq<ChangedFile>,
) -> Seq<(Seq<char>, Seq<ChangedFile>)> {
    if group_contains(g, path) {
        let k = group_index(g, path);
        g.update(k, (path, g[k].1 + files))
    } else {
        g.push((path, files))
    }
}

/// Merge each path of `paths`, in order, with the same contributors.
pub open spec fn group_merge_paths(
    g: Seq<(Seq<char>, Seq<ChangedFile>)>,
    paths: Seq<Seq<char>>,
    files: Seq<ChangedFile>,
) -> Seq<(Seq<char>, Seq<ChangedFile>)>
    decreases paths.len(),
{
    if paths.len() == 0 {
        g
    } else {
        group_merge_path(group_merge_paths(g, paths.drop_last(), files), paths.last(), files)
    }
}

/// Stage two up to glob `n`: each glob's expansion merged in glob order.
pub open spec fn spec_grouped_files_upto(
    globs: Seq<(Seq<char>, Seq<ChangedFile>)>,
    expansions: Seq<Seq<Seq<char>>>,
    n: int,
) -> Seq<(Seq<char>, Seq<ChangedFile>)>
    decreases n,
{
    if n <= 0 {
        Seq::empty()
    } else {
        group_merge_paths(
            spec_grouped_files_upto(globs, expansions, n - 1),
            expansions[n - 1],
            globs[n - 1].1,
        )
    }
}

/// Stage two: the group of concrete files, given the expansion of each glob.
pub open spec fn spec_grouped_files(
    globs: Seq<(Seq<char>, Seq<ChangedFile>)>,
    expansions: Seq<Seq<Seq<char>>>,
) -> Seq<(Seq<char>, Seq<ChangedFile>)> {
    spec_grouped_files_upto(globs, expansions, globs.len() as int)
}

pub proof fn lemma_group_merge_path_unique(
    g: Seq<(Seq<char>, Seq<ChangedFile>)>,
    path: Seq<char>,
    files: Seq<ChangedFile>,
)
    requires
        group_keys_unique(g),
    ensures
        group_keys_unique(group_merge_path(g, path, files)),
        forall|p: Seq<char>|
            group_contains(group_merge_path(g, path, files), p) <==> (group_contains(g, p) || path
                == p),
{
    lemma_group_index(g, path);
    let r = group_merge_path(g, path, files);
    if group_contains(g, path) {
        let k = group_index(g, path);
        assert forall|p: Seq<char>| group_contains(r, p) implies (group_contains(g, p) || path
            == p) by {
            let i = choose|i: int| 0 <= i < r.len() && r[i].0 == p;
            if i != k {
                assert(g[i].0 == p);
            }
        }
        assert forall|p: Seq<char>| group_contains(g, p) implies group_contains(r, p) by {
            let i = choose|i: int| 0 <= i < g.len() && g[i].0 == p;
            if g[i].0 == path {
                assert(r[k].0 == p);
            } else {
                assert(r[i].0 == p);
            }
        }
    } else {
        assert forall|p: Seq<char>| group_contains(r, p) implies (group_contains(g, p) || path
            == p) by {
            let i = choose|i: int| 0 <= i < r.len() && r[i].0 == p;
            if i < g.len() {
                assert(g[i].0 == p);
            }
        }
        assert forall|p: Seq<char>| group_contains(g, p) implies group_contains(r, p) by {
            let i = choose|i: int| 0 <= i < g.len() && g[i].0 == p;
            assert(r[i].0 == p);
        }
        assert(r[g.len() as int].0 == path);
    }
}

pub proof fn lemma_group_merge_paths_unique(
    g: Seq<(Seq<char>, Seq<ChangedFile>)>,
    paths: Seq<Seq<char>>,
    files: Seq<ChangedFile>,
)
    requires
        group_keys_unique(g),
    ensures
        group_keys_unique(group_merge_paths(g, paths, files)),
    decreases paths.len(),
{
    if paths.len() > 0 {
        lemma_group_merge_paths_unique(g, paths.drop_last(), files);
        lemma_group_merge_path_unique(
            group_merge_paths(g, paths.drop_last(), files),
            paths.last(),
            files,
        );
    }
}

/// No two keys of a stage-two group are equal, whatever the expansions.
pub proof fn lemma_grouped_files_unique(
    globs: Seq<(Seq<char>, Seq<ChangedFile>)>,
    expansions: Seq<Seq<Seq<char>>>,
    n: int,
)
    ensures
        group_keys_unique(spec_grouped_files_upto(globs, expansions, n)),
    decreases n,
{
    if n > 0 {
        lemma_grouped_files_unique(globs, expansions, n - 1);
        lemma_group_merge_paths_unique(
            spec_grouped_files_upto(globs, expansions, n - 1),
            expansions[n - 1],
            globs[n - 1].1,
        );
    }
}

/// Merge one concrete path with its contributors into the result group.
fn group_merge(group: &mut Group, path: String, files: Vec<ChangedFile>)
    ensures
        final(group)@ == group_merge_path(old(group)@, path@, files@),
{
    proof {
        lemma_group_index(group@, path@);
    }
    let ghost path_v = path@;
    let ghost files_v = files@;
    let ghost g0 = group@;
    let ghost ents0 = group.entries@;
    let mut i: usize = 0;
    while i < group.entries.len()
        invariant
            g0 == old(group)@,
            group@ == g0,
            group.entries@ == ents0,
            files@ == files_v,
            i <= group.entries@.len(),
            forall|j: int| 0 <= j < i ==> g0[j].0 != path_v,
            path_v == path@,
            0 <= group_index(g0, path_v) ==> g0[group_index(g0, path_v)].0 == path_v,
            forall|j: int| 0 <= j < group_index(g0, path_v) ==> g0[j].0 != path_v,
            group_contains(g0, path_v) <==> 0 <= group_index(g0, path_v) < g0.len(),
        decreases group.entries@.len() - i,
    {
        if group.entries[i].key == *&path {
            proof {
                assert(g0[i as int].0 == path_v);
                assert(group_contains(g0, path_v));
                let gi = group_index(g0, path_v);
                if gi < i as int {
                    assert(g0[gi].0 != path_v);
                }
                if gi > i as int {
                    assert(g0[i as int].0 != path_v);
                }
                assert(gi == i as int);
            }
            let mut entry = group.entries.remove(i);
            let mut extra = files;
            entry.changed_files.append(&mut extra);
            let ghost e = entry;
            group.entries.insert(i, entry);
            proof {
                assert(e.key@ == path_v);
                assert(e.changed_files@ == ents0[i as int].changed_files@ + files_v);
                assert(group.entries@ =~= ents0.update(i as int, e));
                assert forall|m: int| 0 <= m < group@.len() implies group@[m] == group_merge_path(
                    g0,
                    path_v,
                    files_v,
                )[m] by {
                    if m != i as int {
                        assert(group.entries@[m] == ents0[m]);
                    }
                }
                assert(group@ =~= group_merge_path(g0, path_v, files_v));
            }
            return ;
        }
        i += 1;
    }
    proof {
        assert(!group_contains(g0, path_v));
    }
    let entry = GroupEntry { key: path, changed_files: files };
    let ghost e = entry;
    group.entries.push(entry);
    proof {
        assert(e.key@ == path_v);
        assert(e.changed_files@ == files_v);
        assert forall|m: int| 0 <= m < group@.len() implies group@[m] == group_merge_path(
            g0,
            path_v,
            files_v,
        )[m] by {
            if m < g0.len() {
                assert(group.entries@[m] == ents0[m]);
            } else {
                assert(group.entries@[m] == e);
            }
        }
        assert(group@ =~= group_merge_path(g0, path_v, files_v));
    }
}

/// Stage two on given expansions: walk the glob group in order; for each
/// glob, merge each concrete path of its expansion, copying the glob's
/// contributors onto fresh paths and appending them onto paths already seen.
/// A glob whose expansion is empty contributes nothing.
pub fn grouped_files_with(globs: &Group, expansions: &Vec<Vec<String>>) -> (r: Group)
    requires
        expansions@.len() == globs@.len(),
    ensures
        r@ == spec_grouped_files(globs@, expansions.deep_view()),
        group_keys_unique(r@),
{
    let ghost exps = expansions.deep_view();
    let mut out = Group { entries: Vec::new() };
    let mut i: usize = 0;
    proof {
        assert(out@ =~= spec_grouped_files_upto(globs@, exps, 0));
    }
    while i < globs.len()
        invariant
            i <= globs@.len(),
            expansions@.len() == globs@.len(),
            exps == expansions.deep_view(),
            exps.len() == globs@.len(),
            forall|j: int| 0 <= j < globs@.len() ==> exps[j] == expansions@[j].deep_view(),
            out@ == spec_grouped_files_upto(globs@, exps, i as int),
        decreases globs@.len() - i,
    {
        let files_i = clone_changed_files(globs.changed_files_at(i));
        let paths = &expansions[i];
        let ghost ps = paths.deep_view();
        let ghost g0 = out@;
        let mut k: usize = 0;
        proof {
            assert(ps.subrange(0, 0) =~= Seq::<Seq<char>>::empty());
            assert(out@ =~= group_merge_paths(g0, ps.subrange(0, 0), globs@[i as int].1));
        }
        while k < paths.len()
            invariant
                k <= paths@.len(),
                ps == paths.deep_view(),
                ps.len() == paths@.len(),
                forall|j: int| 0 <= j < paths@.len() ==> ps[j] == paths@[j]@,
                files_i@ == globs@[i as int].1,
                i < globs@.len(),
                out@ == group_merge_paths(g0, ps.subrange(0, k as int), globs@[i as int].1),
            decreases paths@.len() - k,
        {
            group_merge(&mut out, paths[k].clone(), clone_changed_files(&files_i));
            proof {
                assert(ps.subrange(0, k + 1).drop_last() =~= ps.subrange(0, k as int));
                assert(ps.subrange(0, k + 1).last() == ps[k as int]);
            }
            k += 1;
        }
        proof {
            assert(ps.subrange(0, ps.len() as int) =~= ps);
            assert(exps[i as int] == ps);
        }
        i += 1;
    }
    proof {
        lemma_grouped_files_unique(globs@, exps, globs@.len() as int);
    }
    out
}

/// Relies on glob::glob: expands a glob pattern against the filesystem,
/// yielding the matching paths in alphabetical order. What comes back
/// depends on what is on disk, so nothing is assumed of it; an invalid
/// pattern or an unreadable entry contributes nothing.
#[verifier::external_body]
fn expand_glob(pattern: &String) -> (r: Vec<String>) {
    match glob::glob(pattern.as_str()) {
        Ok(paths) => paths.filter_map(|p| p.ok()).map(
            |p| p.to_string_lossy().to_string(),
        ).collect(),
        Err(_) => Vec::new(),
    }
}

/// Stage two: expand every glob of the group against the filesystem and
/// merge the concrete paths in order, with per-path attribution. The shape
/// of the result is fixed by `spec_grouped_files` for whatever expansions
/// the filesystem gave; in particular no two entries share a path.
pub fn grouped_files(globs: Group) -> (r: Group)
    ensures
        exists|exps: Seq<Seq<Seq<char>>>|
            exps.len() == globs@.len() && r@ == #[trigger] spec_grouped_files(globs@, exps),
        group_keys_unique(r@),
{
    let mut expansions: Vec<Vec<String>> = Vec::new();
    let mut i: usize = 0;
    while i < globs.len()
        invariant
            i <= globs@.len(),
            expansions@.len() == i,
        decreases globs@.len() - i,
    {
        expansions.push(expand_glob(globs.key_at(i)));
        i += 1;
    }
    let r = grouped_files_with(&globs, &expansions);
    proof {
        assert(expansions.deep_view().len() == globs@.len());
        assert(r@ == spec_grouped_files(globs@, expansions.deep_view()));
    }
    r
}

/// The mapper is pure and idempotent: over one rule set, one changed-file
/// set and one set of glob expansions, the candidate group is a single
/// value, so computing it twice yields the same key order and the same
/// contributors.
pub proof fn lemma_mapper_deterministic(
    rules: Seq<(Seq<char>, Seq<char>)>,
    files: Seq<ChangedFile>,
    expansions: Seq<Seq<Seq<char>>>,
    r1: Seq<(Seq<char>, Seq<ChangedFile>)>,
    r2: Seq<(Seq<char>, Seq<ChangedFile>)>,
)
    requires
        r1 == spec_grouped_files(spec_grouped_globs(rules, files), expansions),
        r2 == spec_grouped_files(spec_grouped_globs(rules, files), expansions),
    ensures
        r1 == r2,
{
}

} // verus!
