use vstd::prelude::*;
use crate::process::Process;
use crate::rules::Action;

verus! {

/// One record of an action that fired: the process snapshot at trigger time,
/// the action, and the moment (milliseconds) it was taken.
#[derive(Debug, Clone)]
pub struct ActionLog {
    pub timestamp: u64,
    pub process: Process,
    pub action: Action,
}

/// The append-only action log. Entries are created exactly once per firing
/// and never mutated afterwards.
pub struct AppState {
    pub actions: Vec<ActionLog>,
}

impl AppState {
    pub fn new() -> (s: AppState)
        ensures
            s.actions@ =~= Seq::<ActionLog>::empty(),
    {
        AppState { actions: Vec::new() }
    }

    /// Appends one record; everything already logged stays as it was.
    pub fn log_action(&mut self, process: Process, action: Action, timestamp: u64)
        ensures
            final(self).actions@ =~= old(self).actions@.push(
                (ActionLog { timestamp, process, action }),
            ),
    {
        self.actions.push(ActionLog { timestamp, process, action });
    }
}

} // verus!
