//! The application state and the actor that owns it.
//!
//! One canonical `AppState` value is mutated only here: every inbound event
//! is applied in arrival order, and each application publishes the
//! `(event, state)` pair into a single latest-value slot. Readers always see
//! the most recently published pair, never a queue of history.

use vstd::prelude::*;
use crate::repo_watcher::changed_file::{contains_path, paths_unique, ChangedFile};

verus! {

/// What is known of the tests for one watched file.
#[derive(Clone, Copy, PartialEq, Eq, Structural, Debug)]
pub enum TestStatus {
    Unknown,
    Running,
    Passed,
    Failed,
}

/// A changed file under watch, with what is known of its tests.
#[derive(Debug)]
pub struct WatchedFile {
    pub changed_file: ChangedFile,
    pub test_status: TestStatus,
}

impl Clone for WatchedFile {
    fn clone(&self) -> (r: Self)
        ensures
            r == *self,
    {
        WatchedFile { changed_file: self.changed_file.clone(), test_status: self.test_status }
    }
}

/// A candidate test file together with the changed files it was derived
/// from.
#[derive(Debug)]
pub struct TestFile {
    pub test_file: String,
    pub changed_files: Vec<ChangedFile>,
}

impl View for TestFile {
    type V = (Seq<char>, Seq<ChangedFile>);

    open spec fn view(&self) -> Self::V {
        (self.test_file@, self.changed_files@)
    }
}

impl Clone for TestFile {
    fn clone(&self) -> (r: Self)
        ensures
            r@ == self@,
    {
        let mut files: Vec<ChangedFile> = Vec::new();
        let mut i: usize = 0;
        while i < self.changed_files.len()
            invariant
                i <= self.changed_files@.len(),
                files@ =~= self.changed_files@.subrange(0, i as int),
            decreases self.changed_files@.len() - i,
        {
            files.push(self.changed_files[i].clone());
            proof {
                assert(files@ =~= self.changed_files@.subrange(0, i + 1));
            }
            i += 1;
        }
        proof {
            assert(self.changed_files@.subrange(0, self.changed_files@.len() as int)
                =~= self.changed_files@);
        }
        TestFile { test_file: self.test_file.clone(), changed_files: files }
    }
}

/// The mathematical shape of an `Event`.
pub enum EventView {
    Start,
    FilesChanged(Seq<ChangedFile>),
    TestRunning((Seq<char>, Seq<ChangedFile>)),
    TestPassed((Seq<char>, Seq<ChangedFile>)),
    TestFailed((Seq<char>, Seq<ChangedFile>)),
    Quit,
}

/// An event of the single timeline: a change notice, test progress, or the
/// request to quit.
#[derive(Debug)]
pub enum Event {
    Start,
    FilesChanged(Vec<ChangedFile>),
    TestRunning(TestFile),
    TestPassed(TestFile),
    TestFailed(TestFile),
    Quit,
}

impl View for Event {
    type V = EventView;

    open spec fn view(&self) -> EventView {
        match self {
            Event::Start => EventView::Start,
            Event::FilesChanged(files) => EventView::FilesChanged(files@),
            Event::TestRunning(t) => EventView::TestRunning(t@),
            Event::TestPassed(t) => EventView::TestPassed(t@),
            Event::TestFailed(t) => EventView::TestFailed(t@),
            Event::Quit => EventView::Quit,
        }
    }
}

impl Clone for Event {
    fn clone(&self) -> (r: Self)
        ensures
            r@ == self@,
    {
        match self {
            Event::Start => Event::Start,
            Event::FilesChanged(files) => {
                let mut out: Vec<ChangedFile> = Vec::new();
                let mut i: usize = 0;
                while i < files.len()
                    invariant
                        i <= files@.len(),
                        out@ =~= files@.subrange(0, i as int),
                    decreases files@.len() - i,
                {
                    out.push(files[i].clone());
                    proof {
                        assert(out@ =~= files@.subrange(0, i + 1));
                    }
                    i += 1;
                }
                proof {
                    assert(files@.subrange(0, files@.len() as int) =~= files@);
                }
                Event::FilesChanged(out)
            },
            Event::TestRunning(t) => Event::TestRunning(t.clone()),
            Event::TestPassed(t) => Event::TestPassed(t.clone()),
            Event::TestFailed(t) => Event::TestFailed(t.clone()),
            Event::Quit => Event::Quit,
        }
    }
}

/// The mathematical shape of an `AppState`.
pub struct AppStateView {
    pub should_quit: bool,
    pub watched_files: Seq<WatchedFile>,
    pub last_changed_files: Seq<ChangedFile>,
}

/// What the system believes: whether it should quit, which files it
/// watches (each with a test status), and the latest changed-file set.
#[derive(Debug)]
pub struct AppState {
    pub should_quit: bool,
    pub watched_files: Vec<WatchedFile>,
    pub last_changed_files: Vec<ChangedFile>,
}

impl View for AppState {
    type V = AppStateView;

    open spec fn view(&self) -> AppStateView {
        AppStateView {
            should_quit: self.should_quit,
            watched_files: self.watched_files@,
            last_changed_files: self.last_changed_files@,
        }
    }
}

impl Clone for AppState {
    fn clone(&self) -> (r: Self)
        ensures
            r@ == self@,
    {
        let mut watched: Vec<WatchedFile> = Vec::new();
        let mut i: usize = 0;
        while i < self.watched_files.len()
            invariant
                i <= self.watched_files@.len(),
                watched@ =~= self.watched_files@.subrange(0, i as int),
            decreases self.watched_files@.len() - i,
        {
            watched.push(self.watched_files[i].clone());
            proof {
                assert(watched@ =~= self.watched_files@.subrange(0, i + 1));
            }
            i += 1;
        }
        let mut last: Vec<ChangedFile> = Vec::new();
        let mut j: usize = 0;
        while j < self.last_changed_files.len()
            invariant
                j <= self.last_changed_files@.len(),
                last@ =~= self.last_changed_files@.subrange(0, j as int),
            decreases self.last_changed_files@.len() - j,
        {
            last.push(self.last_changed_files[j].clone());
            proof {
                assert(last@ =~= self.last_changed_files@.subrange(0, j + 1));
            }
            j += 1;
        }
        proof {
            assert(self.watched_files@.subrange(0, self.watched_files@.len() as int)
                =~= self.watched_files@);
            assert(self.last_changed_files@.subrange(0, self.last_changed_files@.len() as int)
                =~= self.last_changed_files@);
        }
        AppState { should_quit: self.should_quit, watched_files: watched, last_changed_files: last }
    }
}

/// A fresh entry for each changed file, its test status not yet known.
pub open spec fn spec_new_watched(changed: Seq<ChangedFile>) -> Seq<WatchedFile> {
    changed.map_values(
        |f: ChangedFile| WatchedFile { changed_file: f, test_status: TestStatus::Unknown },
    )
}

/// The previously watched files that the new changed-file set does not
/// supersede, in their old order.
pub open spec fn spec_retained(watched: Seq<WatchedFile>, changed: Seq<ChangedFile>) -> Seq<
    WatchedFile,
>
    decreases watched.len(),
{
    if watched.len() == 0 {
        Seq::empty()
    } else {
        spec_retained(watched.drop_last(), changed) + if contains_path(
            changed,
            watched.last().changed_file.path@,
        ) {
            Seq::empty()
        } else {
            seq![watched.last()]
        }
    }
}

/// Merging a changed-file set into the watched list: the new set's entries
/// come first with status reset to Unknown, then every old entry whose path
/// the new set does not supersede, in its old order.
pub open spec fn spec_on_files_changed(
    watched: Seq<WatchedFile>,
    changed: Seq<ChangedFile>,
) -> Seq<WatchedFile> {
    spec_new_watched(changed) + spec_retained(watched, changed)
}

/// The paths of a watched list, pairwise distinct or not.
pub open spec fn watched_paths_unique(w: Seq<WatchedFile>) -> bool {
    forall|i: int, j: int| 0 <= i < j < w.len() ==> w[i].changed_file.path@ != w[j].changed_file.path@
}

proof fn lemma_retained_membership(watched: Seq<WatchedFile>, changed: Seq<ChangedFile>, k: int)
    requires
        0 <= k < spec_retained(watched, changed).len(),
    ensures
        exists|i: int|
            0 <= i < watched.len() && watched[i] == spec_retained(watched, changed)[k],
        !contains_path(changed, spec_retained(watched, changed)[k].changed_file.path@),
    decreases watched.len(),
{
    if watched.len() > 0 {
        let rest = spec_retained(watched.drop_last(), changed);
        if k < rest.len() {
            lemma_retained_membership(watched.drop_last(), changed, k);
            let i = choose|i: int|
                0 <= i < watched.drop_last().len() && watched.drop_last()[i] == rest[k];
            assert(watched[i] == spec_retained(watched, changed)[k]);
        } else {
            assert(watched[watched.len() - 1] == spec_retained(watched, changed)[k]);
        }
    }
}

proof fn lemma_retained_unique(watched: Seq<WatchedFile>, changed: Seq<ChangedFile>)
    requires
        watched_paths_unique(watched),
    ensures
        watched_paths_unique(spec_retained(watched, changed)),
    decreases watched.len(),
{
    if watched.len() > 0 {
        lemma_retained_unique(watched.drop_last(), changed);
        let rest = spec_retained(watched.drop_last(), changed);
        let f = watched.last();
        if !contains_path(changed, f.changed_file.path@) {
            assert forall|i: int, j: int|
                0 <= i < j < spec_retained(watched, changed).len() implies spec_retained(
                watched,
                changed,
            )[i].changed_file.path@ != spec_retained(watched, changed)[j].changed_file.path@ by {
                if j == rest.len() {
                    lemma_retained_membership(watched.drop_last(), changed, i);
                    let m = choose|m: int|
                        0 <= m < watched.drop_last().len() && watched.drop_last()[m] == rest[i];
                    assert(watched[m].changed_file.path@ != watched[watched.len()
                        - 1].changed_file.path@);
                }
            }
        } else {
            assert forall|i: int, j: int|
                0 <= i < j < spec_retained(watched, changed).len() implies spec_retained(
                watched,
                changed,
            )[i].changed_file.path@ != spec_retained(watched, changed)[j].changed_file.path@ by {
                assert(rest[i].changed_file.path@ != rest[j].changed_file.path@);
            }
        }
    }
}

/// The dedup invariant carried into the state: where the old watched list
/// and the new changed set each hold no duplicate path, the merged watched
/// list holds none either.
pub proof fn lemma_watched_paths_stay_unique(watched: Seq<WatchedFile>, changed: Seq<ChangedFile>)
    requires
        watched_paths_unique(watched),
        paths_unique(changed),
    ensures
        watched_paths_unique(spec_on_files_changed(watched, changed)),
{
    lemma_retained_unique(watched, changed);
    let merged = spec_on_files_changed(watched, changed);
    let fresh = spec_new_watched(changed);
    let kept = spec_retained(watched, changed);
    assert forall|i: int, j: int|
        0 <= i < j < merged.len() implies merged[i].changed_file.path@
        != merged[j].changed_file.path@ by {
        if i < fresh.len() && j >= fresh.len() {
            assert(merged[i].changed_file.path@ == changed[i].path@);
            lemma_retained_membership(watched, changed, j - fresh.len());
            assert(merged[j] == kept[j - fresh.len()]);
            if merged[i].changed_file.path@ == merged[j].changed_file.path@ {
                assert(contains_path(changed, merged[j].changed_file.path@));
            }
        } else if i >= fresh.len() {
            assert(kept[i - fresh.len()].changed_file.path@ != kept[j
                - fresh.len()].changed_file.path@);
        } else {
            assert(changed[i].path@ != changed[j].path@);
        }
    }
}

/// How one event transforms the state: `FilesChanged` merges the set into
/// the watched list and records it as the last set, `Quit` sets the quit
/// flag, every other event leaves the state as it is.
pub open spec fn spec_state_on(s: AppStateView, event: EventView) -> AppStateView {
    match event {
        EventView::FilesChanged(files) => AppStateView {
            should_quit: s.should_quit,
            watched_files: spec_on_files_changed(s.watched_files, files),
            last_changed_files: files,
        },
        EventView::Quit => AppStateView { should_quit: true, ..s },
        _ => s,
    }
}

impl AppState {
    /// The initial state: not quitting, nothing watched, no changes seen.
    pub fn new() -> (r: AppState)
        ensures
            r@.should_quit == false,
            r@.watched_files == Seq::<WatchedFile>::empty(),
            r@.last_changed_files == Seq::<ChangedFile>::empty(),
    {
        AppState { should_quit: false, watched_files: Vec::new(), last_changed_files: Vec::new() }
    }

    /// Apply one event to the state.
    pub fn on(&mut self, event: Event)
        ensures
            final(self)@ == spec_state_on(old(self)@, event@),
    {
        match event {
            Event::Start => {},
            Event::FilesChanged(files) => {
                self.on_file_event(files);
            },
            Event::TestRunning(_) => {},
            Event::TestPassed(_) => {},
            Event::TestFailed(_) => {},
            Event::Quit => {
                self.on_quit();
            },
        }
    }

    /// Merge a new changed-file set: its files head the watched list with
    /// status Unknown, old entries not superseded by path keep their place
    /// behind them, and the set is recorded as the last one seen.
    pub fn on_file_event(&mut self, event: Vec<ChangedFile>)
        ensures
            final(self)@.watched_files == spec_on_files_changed(old(self)@.watched_files, event@),
            final(self)@.last_changed_files == event@,
            final(self)@.should_quit == old(self)@.should_quit,
    {
        let ghost w0 = self.watched_files@;
        let mut merged: Vec<WatchedFile> = Vec::new();
        let mut i: usize = 0;
        while i < event.len()
            invariant
                i <= event@.len(),
                merged@ =~= spec_new_watched(event@.subrange(0, i as int)),
            decreases event@.len() - i,
        {
            merged.push(
                WatchedFile { changed_file: event[i].clone(), test_status: TestStatus::Unknown },
            );
            proof {
                assert(merged@ =~= spec_new_watched(event@.subrange(0, i + 1)));
            }
            i += 1;
        }
        proof {
            assert(event@.subrange(0, event@.len() as int) =~= event@);
        }
        let mut k: usize = 0;
        while k < self.watched_files.len()
            invariant
                self.watched_files@ == w0,
                k <= w0.len(),
                merged@ == spec_new_watched(event@) + spec_retained(
                    w0.subrange(0, k as int),
                    event@,
                ),
            decreases w0.len() - k,
        {
            proof {
                assert(w0.subrange(0, k + 1).drop_last() =~= w0.subrange(0, k as int));
                assert(w0.subrange(0, k + 1).last() == w0[k as int]);
            }
            if !crate::repo_watcher::changed_file::has_path(
                &event,
                &self.watched_files[k].changed_file.path,
            ) {
                merged.push(self.watched_files[k].clone());
            }
            proof {
                assert(merged@ =~= spec_new_watched(event@) + spec_retained(
                    w0.subrange(0, k + 1),
                    event@,
                ));
            }
            k += 1;
        }
        proof {
            assert(w0.subrange(0, w0.len() as int) =~= w0);
        }
        self.watched_files = merged;
        self.last_changed_files = event;
    }

    /// Record that the system should quit.
    pub fn on_quit(&mut self)
        ensures
            final(self)@ == (AppStateView { should_quit: true, ..old(self)@ }),
    {
        self.should_quit = true;
    }
}

/// The mathematical shape of the state actor.
pub struct ManagerView {
    pub state: AppStateView,
    pub latest_event: EventView,
    pub latest_state: AppStateView,
    pub accepting: bool,
}

/// How the actor handles one dispatched event: while accepting, it applies
/// the event to the canonical state and publishes the `(event, state)` pair
/// into the latest-value slot; a Quit stops it accepting anything further.
pub open spec fn spec_manager_dispatch(m: ManagerView, event: EventView) -> ManagerView {
    if !m.accepting {
        m
    } else {
        let next = spec_state_on(m.state, event);
        ManagerView {
            state: next,
            latest_event: event,
            latest_state: next,
            accepting: !(event is Quit),
        }
    }
}

/// The actor after a whole burst of dispatches, in order.
pub open spec fn spec_dispatch_all(m: ManagerView, events: Seq<EventView>) -> ManagerView
    decreases events.len(),
{
    if events.len() == 0 {
        m
    } else {
        spec_manager_dispatch(spec_dispatch_all(m, events.drop_last()), events.last())
    }
}

/// Latest-value semantics: a reader that missed any number of rapid
/// publications still reads, after a burst of dispatches whose last event
/// was still accepted, exactly the pair published last — the final event
/// and the state it produced — never an older one.
pub proof fn lemma_subscriber_sees_latest(m: ManagerView, events: Seq<EventView>)
    requires
        events.len() > 0,
        spec_dispatch_all(m, events.drop_last()).accepting,
    ensures
        spec_dispatch_all(m, events).latest_event == events.last(),
        spec_dispatch_all(m, events).latest_state == spec_state_on(
            spec_dispatch_all(m, events.drop_last()).state,
            events.last(),
        ),
        spec_dispatch_all(m, events).latest_state == spec_dispatch_all(m, events).state,
{
}

/// The single-writer actor that owns the canonical state and the
/// latest-value slot. The surrounding program forwards dispatched events to
/// it one at a time, in arrival order, and lets any number of readers fetch
/// the slot.
pub struct AppStateManager {
    state: AppState,
    latest_event: Event,
    latest_state: AppState,
    accepting: bool,
}

impl View for AppStateManager {
    type V = ManagerView;

    closed spec fn view(&self) -> ManagerView {
        ManagerView {
            state: self.state@,
            latest_event: self.latest_event@,
            latest_state: self.latest_state@,
            accepting: self.accepting,
        }
    }
}

impl AppStateManager {
    /// A fresh actor: initial state, with `(Start, state)` published.
    pub fn new() -> (r: AppStateManager)
        ensures
            r@.state.should_quit == false,
            r@.state.watched_files == Seq::<WatchedFile>::empty(),
            r@.state.last_changed_files == Seq::<ChangedFile>::empty(),
            r@.latest_event == EventView::Start,
            r@.latest_state == r@.state,
            r@.accepting == true,
    {
        AppStateManager {
            state: AppState::new(),
            latest_event: Event::Start,
            latest_state: AppState::new(),
            accepting: true,
        }
    }

    /// Handle one dispatched event: apply it and publish the new pair.
    /// After a Quit nothing further is accepted; the result says whether
    /// the event was accepted.
    pub fn dispatch(&mut self, event: Event) -> (accepted: bool)
        ensures
            final(self)@ == spec_manager_dispatch(old(self)@, event@),
            accepted == old(self)@.accepting,
    {
        if !self.accepting {
            return false;
        }
        let is_quit = match &event {
            Event::Quit => true,
            _ => false,
        };
        let published = event.clone();
        self.state.on(event);
        self.latest_event = published;
        self.latest_state = self.state.clone();
        self.accepting = !is_quit;
        true
    }

    /// Read the latest published `(event, state)` pair.
    pub fn get_state(&self) -> (r: (Event, AppState))
        ensures
            r.0@ == self@.latest_event,
            r.1@ == self@.latest_state,
    {
        (self.latest_event.clone(), self.latest_state.clone())
    }
}

} // verus!
