//! Deciding what to run, running it, and relaying what happened.

pub mod test_file_run;
pub mod test_map;
pub mod test_run;
pub mod test_suite;

use vstd::prelude::*;

verus! {

/// What the surrounding program must do, in order, after a decision: end
/// the named run, or start the named one.
#[derive(Clone, Copy, PartialEq, Eq, Structural, Debug)]
pub enum RunnerAction {
    Cancel(u64),
    Spawn(u64),
}

/// The single-flight ledger: at most one external run is recorded active
/// at any instant. Each decision hands back the actions to perform, in
/// order; the surrounding program performs each before the next, so the
/// old process is terminated before the new one is started.
pub struct TestRunner {
    active: Option<u64>,
    next_id: u64,
}

impl TestRunner {
    /// The run recorded active, if any.
    pub closed spec fn active_run(&self) -> Option<u64> {
        self.active
    }

    /// The id the next run will get.
    pub closed spec fn next_run_id(&self) -> u64 {
        self.next_id
    }

    /// How many runs have been started so far: the id the next one gets.
    pub fn runs_started(&self) -> (r: u64)
        ensures
            r == self.next_run_id(),
    {
        self.next_id
    }

    /// A fresh ledger: no active run.
    pub fn new() -> (r: TestRunner)
        ensures
            r.active_run() is None,
            r.next_run_id() == 0,
    {
        TestRunner { active: None, next_id: 0 }
    }

    /// Decide on a new changed-file set: if a run is active, it is
    /// cancelled — exactly once, and before anything else — and then
    /// exactly one new run is started; afterwards only the new run is
    /// recorded active, so at no instant are two runs recorded at once.
    pub fn on_changed_files(&mut self) -> (actions: Vec<RunnerAction>)
        requires
            old(self).next_run_id() < u64::MAX,
        ensures
            final(self).active_run() == Some(old(self).next_run_id()),
            final(self).next_run_id() == old(self).next_run_id() + 1,
            actions@ == match old(self).active_run() {
                Some(id) => seq![
                    RunnerAction::Cancel(id),
                    RunnerAction::Spawn(old(self).next_run_id()),
                ],
                None => seq![RunnerAction::Spawn(old(self).next_run_id())],
            },
    {
        let mut actions: Vec<RunnerAction> = Vec::new();
        match self.active {
            Some(id) => {
                actions.push(RunnerAction::Cancel(id));
            },
            None => {},
        }
        let id = self.next_id;
        actions.push(RunnerAction::Spawn(id));
        self.active = Some(id);
        self.next_id = id + 1;
        proof {
            match old(self).active_run() {
                Some(aid) => {
                    assert(actions@ =~= seq![
                        RunnerAction::Cancel(aid),
                        RunnerAction::Spawn(old(self).next_run_id()),
                    ]);
                },
                None => {
                    assert(actions@ =~= seq![RunnerAction::Spawn(old(self).next_run_id())]);
                },
            }
        }
        actions
    }

    /// Decide on the change stream closing: cancel the active run, if
    /// any, and record nothing active.
    pub fn on_closed(&mut self) -> (actions: Vec<RunnerAction>)
        ensures
            final(self).active_run() is None,
            final(self).next_run_id() == old(self).next_run_id(),
            actions@ == match old(self).active_run() {
                Some(id) => seq![RunnerAction::Cancel(id)],
                None => Seq::<RunnerAction>::empty(),
            },
    {
        let mut actions: Vec<RunnerAction> = Vec::new();
        match self.active {
            Some(id) => {
                actions.push(RunnerAction::Cancel(id));
            },
            None => {},
        }
        self.active = None;
        proof {
            match old(self).active_run() {
                Some(aid) => {
                    assert(actions@ =~= seq![RunnerAction::Cancel(aid)]);
                },
                None => {
                    assert(actions@ =~= Seq::<RunnerAction>::empty());
                },
            }
        }
        actions
    }
}

} // verus!
