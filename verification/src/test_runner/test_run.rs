//! One external test run: what to start it with, and how its protocol
//! records become domain events.
//!
//! The record stream keeps a "current file" cursor: the first record that
//! names a file starts it, a record naming another file finishes the old
//! one and starts the new. A protocol error ends the run; records arriving
//! after that are dropped.

use vstd::prelude::*;
use vstd::string::StringExecFns;
use crate::configuration::{spec_rules_for, Configuration};
use crate::repo_watcher::changed_file::ChangedFile;
use crate::ruby::rspec::{
    spec_parse_line, spec_reader_step, LineOutcomeView, RSpecEvent, RSpecEventView,
};
use crate::test_runner::test_map::{
    group_keys_unique, grouped_files, grouped_globs, regex_is_valid, regex_valid,
    spec_grouped_files, spec_grouped_globs, Group,
};

verus! {

/// The mathematical shape of one example reference.
pub struct TestRunExampleView {
    pub path: Seq<char>,
    pub location: Seq<char>,
}

/// One example of the run: the test file it lives in and its location.
#[derive(Debug)]
pub struct TestRunExample {
    pub path: String,
    pub location: String,
}

impl View for TestRunExample {
    type V = TestRunExampleView;

    open spec fn view(&self) -> TestRunExampleView {
        TestRunExampleView { path: self.path@, location: self.location@ }
    }
}

/// The mathematical shape of one failure.
pub struct TestRunFailureView {
    pub example: TestRunExampleView,
    pub description: Seq<char>,
}

/// A failed example together with what the runner said about it.
#[derive(Debug)]
pub struct TestRunFailure {
    pub example: TestRunExample,
    pub description: String,
}

impl View for TestRunFailure {
    type V = TestRunFailureView;

    open spec fn view(&self) -> TestRunFailureView {
        TestRunFailureView { example: self.example@, description: self.description@ }
    }
}

/// The mathematical shape of a run event.
pub enum TestRunEventView {
    Started,
    FileStarted(Seq<char>),
    FileFinished(Seq<char>),
    ExamplePassed(TestRunExampleView),
    ExampleFailed(TestRunFailureView),
    Finished,
    Error(Seq<char>),
}

/// What one run reports as it goes: start and end, per-file progress,
/// per-example outcomes, and a terminal error.
#[derive(Debug)]
pub enum TestRunEvent {
    Started,
    FileStarted(String),
    FileFinished(String),
    ExamplePassed(TestRunExample),
    ExampleFailed(TestRunFailure),
    Finished,
    Error(String),
}

impl View for TestRunEvent {
    type V = TestRunEventView;

    open spec fn view(&self) -> TestRunEventView {
        match self {
            TestRunEvent::Started => TestRunEventView::Started,
            TestRunEvent::FileStarted(p) => TestRunEventView::FileStarted(p@),
            TestRunEvent::FileFinished(p) => TestRunEventView::FileFinished(p@),
            TestRunEvent::ExamplePassed(e) => TestRunEventView::ExamplePassed(e@),
            TestRunEvent::ExampleFailed(f) => TestRunEventView::ExampleFailed(f@),
            TestRunEvent::Finished => TestRunEventView::Finished,
            TestRunEvent::Error(m) => TestRunEventView::Error(m@),
        }
    }
}

/// The views of a list of run events, in order.
pub open spec fn run_events_view(s: Seq<TestRunEvent>) -> Seq<TestRunEventView> {
    s.map_values(|e: TestRunEvent| e@)
}

/// The mathematical shape of the translator: the current-file cursor and
/// whether the run is over.
pub struct TranslatorView {
    pub current_file: Option<Seq<char>>,
    pub finished: bool,
}

/// The text of an optional field, or nothing.
pub open spec fn opt_or_empty(o: Option<Seq<char>>) -> Seq<char> {
    match o {
        Some(s) => s,
        None => Seq::empty(),
    }
}

/// How one protocol record advances the translator, and which run events
/// it emits. Once the run is finished nothing further is emitted.
pub open spec fn spec_translate(t: TranslatorView, e: RSpecEventView) -> (
    TranslatorView,
    Seq<TestRunEventView>,
) {
    if t.finished {
        (t, Seq::empty())
    } else {
        match e {
            RSpecEventView::Start { .. } => (t, seq![TestRunEventView::Started]),
            RSpecEventView::ExampleStarted { file_path, .. } => {
                match t.current_file {
                    None => (
                        TranslatorView { current_file: Some(file_path), finished: false },
                        seq![TestRunEventView::FileStarted(file_path)],
                    ),
                    Some(cur) => {
                        if cur == file_path {
                            (t, Seq::empty())
                        } else {
                            (
                                TranslatorView { current_file: Some(file_path), finished: false },
                                seq![
                                    TestRunEventView::FileFinished(cur),
                                    TestRunEventView::FileStarted(file_path),
                                ],
                            )
                        }
                    },
                }
            },
            RSpecEventView::ExamplePassed { location, file_path, .. } => (
                t,
                seq![
                    TestRunEventView::ExamplePassed(
                        TestRunExampleView { path: file_path, location },
                    ),
                ],
            ),
            RSpecEventView::ExampleFailed { location, file_path, exception, .. } => (
                t,
                seq![
                    TestRunEventView::ExampleFailed(
                        TestRunFailureView {
                            example: TestRunExampleView {
                                path: file_path,
                                location: opt_or_empty(location),
                            },
                            description: opt_or_empty(exception),
                        },
                    ),
                ],
            ),
            RSpecEventView::Stop => (t, seq![TestRunEventView::Finished]),
            RSpecEventView::Error { msg } => (
                TranslatorView { finished: true, ..t },
                seq![TestRunEventView::Error(msg)],
            ),
            RSpecEventView::Exit => (
                TranslatorView { finished: true, ..t },
                seq![TestRunEventView::Finished],
            ),
        }
    }
}

/// The translator of one run's record stream into domain events.
pub struct RunTranslator {
    current_file: Option<String>,
    finished: bool,
}

impl View for RunTranslator {
    type V = TranslatorView;

    closed spec fn view(&self) -> TranslatorView {
        TranslatorView {
            current_file: match &self.current_file {
                Some(s) => Some(s@),
                None => None,
            },
            finished: self.finished,
        }
    }
}

impl RunTranslator {
    /// A fresh translator: no current file, run not finished.
    pub fn new() -> (r: RunTranslator)
        ensures
            r@.current_file is None,
            !r@.finished,
    {
        RunTranslator { current_file: None, finished: false }
    }

    /// Whether the run has reached its end (a terminal record or error).
    pub fn is_finished(&self) -> (r: bool)
        ensures
            r == self@.finished,
    {
        self.finished
    }

    /// Feed one protocol record through the cursor, collecting the run
    /// events it gives rise to.
    pub fn on_event(&mut self, event: RSpecEvent) -> (out: Vec<TestRunEvent>)
        ensures
            ({
                let (t2, emitted) = spec_translate(old(self)@, event@);
                final(self)@ == t2 && run_events_view(out@) == emitted
            }),
    {
        let mut out: Vec<TestRunEvent> = Vec::new();
        if self.finished {
            proof {
                assert(run_events_view(out@) =~= Seq::<TestRunEventView>::empty());
            }
            return out;
        }
        match event {
            RSpecEvent::Start { .. } => {
                out.push(TestRunEvent::Started);
            },
            RSpecEvent::ExampleStarted { file_path, .. } => {
                let changed = match &self.current_file {
                    None => true,
                    Some(cur) => !(*cur == file_path),
                };
                if changed {
                    match self.current_file.take() {
                        Some(old_file) => {
                            out.push(TestRunEvent::FileFinished(old_file));
                        },
                        None => {},
                    }
                    out.push(TestRunEvent::FileStarted(file_path.clone()));
                    self.current_file = Some(file_path);
                }
            },
            RSpecEvent::ExamplePassed { location, file_path, .. } => {
                out.push(
                    TestRunEvent::ExamplePassed(TestRunExample { path: file_path, location }),
                );
            },
            RSpecEvent::ExampleFailed { location, file_path, exception, .. } => {
                let location = match location {
                    Some(l) => l,
                    None => String::new(),
                };
                let description = match exception {
                    Some(e) => e,
                    None => String::new(),
                };
                out.push(
                    TestRunEvent::ExampleFailed(
                        TestRunFailure {
                            example: TestRunExample { path: file_path, location },
                            description,
                        },
                    ),
                );
            },
            RSpecEvent::Stop => {
                out.push(TestRunEvent::Finished);
            },
            RSpecEvent::Error { msg } => {
                out.push(TestRunEvent::Error(msg));
                self.finished = true;
            },
            RSpecEvent::Exit => {
                out.push(TestRunEvent::Finished);
                self.finished = true;
            },
        }
        proof {
            let (t2, emitted) = spec_translate(old(self)@, event@);
            assert(run_events_view(out@) =~= emitted);
        }
        out
    }
}

/// A protocol error is terminal: it emits exactly one Error event, marks
/// the run finished, and every later record emits nothing and changes
/// nothing.
pub proof fn lemma_error_is_terminal(t: TranslatorView, msg: Seq<char>, later: RSpecEventView)
    requires
        !t.finished,
    ensures
        ({
            let (t2, emitted) = spec_translate(t, RSpecEventView::Error { msg });
            &&& emitted =~= seq![TestRunEventView::Error(msg)]
            &&& t2.finished
            &&& spec_translate(t2, later).0 == t2
            &&& spec_translate(t2, later).1 =~= Seq::<TestRunEventView>::empty()
        }),
{
}

/// A malformed protocol line is terminal: the reader relays exactly one
/// Error record and stops reading, and that record marks the run finished,
/// so no later line of that run is processed.
pub proof fn lemma_malformed_line_is_terminal(
    t: TranslatorView,
    line: Seq<char>,
    later: RSpecEventView,
)
    requires
        !t.finished,
        spec_parse_line(line) is None,
    ensures
        spec_reader_step(LineOutcomeView::Line(line)) == (
            Some(RSpecEventView::Error { msg: line }),
            true,
        ),
        ({
            let (t2, emitted) = spec_translate(t, RSpecEventView::Error { msg: line });
            &&& emitted =~= seq![TestRunEventView::Error(line)]
            &&& t2.finished
            &&& spec_translate(t2, later).1 =~= Seq::<TestRunEventView>::empty()
        }),
{
}

/// Why a run could not be planned.
#[derive(Debug)]
pub enum PlanError {
    /// The configuration holds no rule set for the runner.
    MissingRunnerRules,
    /// A rule's pattern does not compile as a regular expression; the
    /// first offending pattern text is carried.
    InvalidPattern(String),
}

/// Everything a run needs: the concrete test files with their attribution,
/// and the same files as the argument list for the runner.
pub struct RunPlan {
    pub files: Group,
    pub locations: Vec<String>,
}

/// The least index of a rule whose pattern does not compile, or -1.
pub open spec fn first_invalid_rule(rules: Seq<(Seq<char>, Seq<char>)>) -> int
    decreases rules.len(),
{
    if rules.len() == 0 {
        -1
    } else if !regex_valid(rules[0].0) {
        0
    } else {
        let r = first_invalid_rule(rules.drop_first());
        if r < 0 {
            -1
        } else {
            r + 1
        }
    }
}

proof fn lemma_first_invalid_rule(rules: Seq<(Seq<char>, Seq<char>)>)
    ensures
        0 <= first_invalid_rule(rules) ==> first_invalid_rule(rules) < rules.len() && !regex_valid(
            rules[first_invalid_rule(rules)].0,
        ),
        forall|j: int| 0 <= j < first_invalid_rule(rules) ==> regex_valid(rules[j].0),
        first_invalid_rule(rules) < 0 ==> (forall|j: int|
            0 <= j < rules.len() ==> regex_valid(rules[j].0)),
    decreases rules.len(),
{
    if rules.len() > 0 && regex_valid(rules[0].0) {
        lemma_first_invalid_rule(rules.drop_first());
        let r = first_invalid_rule(rules.drop_first());
        if r >= 0 {
            assert(rules.drop_first()[r] == rules[r + 1]);
            assert forall|j: int| 0 <= j < first_invalid_rule(rules) implies regex_valid(
                rules[j].0,
            ) by {
                if j > 0 {
                    assert(rules.drop_first()[j - 1] == rules[j]);
                }
            }
        } else {
            assert forall|j: int| 0 <= j < rules.len() implies regex_valid(rules[j].0) by {
                if j > 0 {
                    assert(rules.drop_first()[j - 1] == rules[j]);
                }
            }
        }
    }
}

/// The keys of a group, in order.
pub open spec fn group_keys(g: Seq<(Seq<char>, Seq<ChangedFile>)>) -> Seq<Seq<char>> {
    g.map_values(|e: (Seq<char>, Seq<ChangedFile>)| e.0)
}

/// Plan one run from the configuration and a changed-file set: look up the
/// rule set for the runner, check every rule's pattern, derive the glob
/// group and expand it, and take the concrete files as the run targets.
/// Fails exactly when the rule set is missing, or with the first pattern
/// that does not compile.
pub fn plan_run(config: &Configuration, changed_files: Vec<ChangedFile>) -> (r: Result<
    RunPlan,
    PlanError,
>)
    ensures
        ({
            let rules_opt = spec_rules_for(config.map@, "rspec"@);
            match r {
                Result::Err(PlanError::MissingRunnerRules) => rules_opt is None,
                Result::Err(PlanError::InvalidPattern(p)) => {
                    &&& rules_opt is Some
                    &&& 0 <= first_invalid_rule(rules_opt.unwrap())
                    &&& p@ == rules_opt.unwrap()[first_invalid_rule(rules_opt.unwrap())].0
                },
                Result::Ok(plan) => {
                    &&& rules_opt is Some
                    &&& first_invalid_rule(rules_opt.unwrap()) < 0
                    &&& exists|exps: Seq<Seq<Seq<char>>>|
                        exps.len() == spec_grouped_globs(rules_opt.unwrap(), changed_files@).len()
                            && plan.files@ == #[trigger] spec_grouped_files(
                            spec_grouped_globs(rules_opt.unwrap(), changed_files@),
                            exps,
                        )
                    &&& group_keys_unique(plan.files@)
                    &&& plan.locations.deep_view() == group_keys(plan.files@)
                },
            }
        }),
{
    let runner = String::from_str("rspec");
    let rules = match config.rules_for(&runner) {
        Some(rules) => rules,
        None => {
            return Err(PlanError::MissingRunnerRules);
        },
    };
    let ghost rs = rules.deep_view();
    proof {
        lemma_first_invalid_rule(rs);
    }
    let mut i: usize = 0;
    while i < rules.len()
        invariant
            spec_rules_for(config.map@, "rspec"@) == Some(rs),
            rs == rules.deep_view(),
            rs.len() == rules@.len(),
            forall|j: int| 0 <= j < rules@.len() ==> rs[j] == (rules@[j].0@, rules@[j].1@),
            i <= rs.len(),
            forall|j: int| 0 <= j < i ==> regex_valid(rs[j].0),
            0 <= first_invalid_rule(rs) ==> first_invalid_rule(rs) < rs.len() && !regex_valid(
                rs[first_invalid_rule(rs)].0,
            ),
            forall|j: int| 0 <= j < first_invalid_rule(rs) ==> regex_valid(rs[j].0),
            first_invalid_rule(rs) < 0 ==> (forall|j: int|
                0 <= j < rs.len() ==> regex_valid(rs[j].0)),
        decreases rs.len() - i,
    {
        if !regex_is_valid(&rules[i].0) {
            proof {
                assert(!regex_valid(rs[i as int].0));
                let fi = first_invalid_rule(rs);
                assert(0 <= fi);
                if fi < i as int {
                    assert(regex_valid(rs[fi].0));
                }
                if fi > i as int {
                    assert(regex_valid(rs[i as int].0));
                }
                assert(fi == i as int);
            }
            return Err(PlanError::InvalidPattern(rules[i].0.clone()));
        }
        i += 1;
    }
    proof {
        let fi = first_invalid_rule(rs);
        if fi >= 0 {
            assert(regex_valid(rs[fi].0));
        }
    }
    let globs = grouped_globs(rules, changed_files);
    let ghost gv = globs@;
    let files = grouped_files(globs);
    proof {
        assert(spec_rules_for(config.map@, "rspec"@) == Some(rs));
        let exps0 = choose|exps: Seq<Seq<Seq<char>>>|
            exps.len() == gv.len() && files@ == #[trigger] spec_grouped_files(gv, exps);
        assert(files@ == spec_grouped_files(spec_grouped_globs(rs, changed_files@), exps0));
        assert(exps0.len() == spec_grouped_globs(rs, changed_files@).len());
    }
    let mut locations: Vec<String> = Vec::new();
    let mut k: usize = 0;
    while k < files.len()
        invariant
            k <= files@.len(),
            locations@.len() == k,
            forall|j: int| 0 <= j < k ==> locations@[j]@ == files@[j].0,
        decreases files@.len() - k,
    {
        locations.push(files.key_at(k).clone());
        k += 1;
    }
    proof {
        assert(locations.deep_view() =~= group_keys(files@));
        let rules_opt = spec_rules_for(config.map@, "rspec"@);
        let exps0 = choose|exps: Seq<Seq<Seq<char>>>|
            exps.len() == gv.len() && files@ == #[trigger] spec_grouped_files(gv, exps);
        assert(files@ == spec_grouped_files(
            spec_grouped_globs(rules_opt.unwrap(), changed_files@),
            exps0,
        ));
        assert(exps0.len() == spec_grouped_globs(rules_opt.unwrap(), changed_files@).len());
    }
    Ok(RunPlan { files, locations })
}

/// Whether a planned run is started at all: always when it resolved some
/// targets; with none, only where the configuration asks for a run of the
/// whole suite rather than a skip.
pub fn should_start(plan: &RunPlan, config: &Configuration) -> (r: bool)
    ensures
        r == (plan.locations@.len() > 0 || config.run_with_no_targets),
{
    plan.locations.len() > 0 || config.run_with_no_targets
}

} // verus!
