//! Decisions of the watcher: which processes still need an injection
//! attempt, and what a message to its hidden window means.
use vstd::prelude::*;
use std::collections::HashSet;
use crate::win32::{WM_HOTKEY, WM_DESTROY};

verus! {

broadcast use vstd::std_specs::hash::group_hash_axioms;

/// The id under which the on/off hot key (Ctrl+Alt+D) is registered.
pub const HOTKEY_ID: i32 = 1;

/// The processes that have had their injection attempt.
pub struct InjectionTracker {
    attempted: HashSet<u32>,
}

impl View for InjectionTracker {
    type V = Set<u32>;

    closed spec fn view(&self) -> Set<u32> {
        self.attempted@
    }
}

/// The tracker after asking whether `pid` is new, and the answer.
pub open spec fn spec_claim_pid(attempted: Set<u32>, pid: u32) -> (Set<u32>, bool) {
    (attempted.insert(pid), !attempted.contains(pid))
}

impl InjectionTracker {
    /// No process seen yet.
    pub fn new() -> (t: InjectionTracker)
        ensures
            t@ == Set::<u32>::empty(),
    {
        InjectionTracker { attempted: HashSet::new() }
    }

    /// At start-up, only a successful injection is recorded; a failed one is
    /// tried again by the polling loop.
    pub fn record_startup(&mut self, pid: u32, succeeded: bool)
        ensures
            final(self)@ == (if succeeded {
                old(self)@.insert(pid)
            } else {
                old(self)@
            }),
    {
        if succeeded {
            self.attempted.insert(pid);
        }
    }

    /// In the polling loop: true when `pid` has not been attempted yet, and
    /// from now on it counts as attempted, whatever the attempt gives (a
    /// failing process is not retried forever).
    pub fn claim(&mut self, pid: u32) -> (fresh: bool)
        ensures
            (final(self)@, fresh) == spec_claim_pid(old(self)@, pid),
    {
        self.attempted.insert(pid)
    }
}

/// A process is attempted at most once by the polling loop: after a claim,
/// every later claim of the same process, after any others, is refused.
pub proof fn lemma_attempt_once(attempted: Set<u32>, pid: u32, others: Seq<u32>)
    ensures
        ({
            let after = spec_claim_pid(attempted, pid).0;
            let later = others.fold_left(after, |s: Set<u32>, x: u32| spec_claim_pid(s, x).0);
            !spec_claim_pid(later, pid).1
        }),
{
    lemma_claims_keep_pids(spec_claim_pid(attempted, pid).0, others);
}

proof fn lemma_claims_keep_pids(start: Set<u32>, others: Seq<u32>)
    ensures
        start.subset_of(others.fold_left(start, |s: Set<u32>, x: u32| spec_claim_pid(s, x).0)),
    decreases others.len(),
{
    if others.len() > 0 {
        let f = |s: Set<u32>, x: u32| spec_claim_pid(s, x).0;
        lemma_claims_keep_pids(start, others.drop_last());
        assert(others.fold_left(start, f) == f(others.drop_last().fold_left(start, f), others.last()));
    }
}

/// What the hidden window does with a message.
#[derive(Debug, Clone, Copy, PartialEq, Eq, Structural)]
pub enum TrayAction {
    /// The hot key: flip the shared on/off flag, and report it handled.
    ToggleFlag,
    /// Report the message handled, nothing else.
    Handled,
    /// Leave the message to the default window procedure.
    PassOn,
}

/// The action for a message to the hidden window.
pub open spec fn spec_tray_action(msg: u32, wparam: usize) -> TrayAction {
    if msg == WM_HOTKEY && wparam as i32 == HOTKEY_ID {
        TrayAction::ToggleFlag
    } else if msg == WM_DESTROY {
        TrayAction::Handled
    } else {
        TrayAction::PassOn
    }
}

/// Decides what the hidden window does with a message.
pub fn tray_action(msg: u32, wparam: usize) -> (a: TrayAction)
    ensures
        a == spec_tray_action(msg, wparam),
{
    if msg == WM_HOTKEY && wparam as i32 == HOTKEY_ID {
        TrayAction::ToggleFlag
    } else if msg == WM_DESTROY {
        TrayAction::Handled
    } else {
        TrayAction::PassOn
    }
}

} // verus!
